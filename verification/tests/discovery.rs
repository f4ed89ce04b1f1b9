use pulsebox::discovery::{device_name, DeviceRegistry};

#[test]
fn host_names_lose_trailing_dots() {
    assert_eq!(device_name("pulsebox-1.local."), "pulsebox-1.local");
    assert_eq!(device_name("a.."), "a");
    assert_eq!(device_name("..."), "");
    assert_eq!(device_name("plain"), "plain");
}

#[test]
fn registry_keeps_one_entry_per_name() {
    let mut reg = DeviceRegistry::new();
    reg.record_resolved("box.local.", Some("10.0.0.2".to_string()), 7777);
    reg.record_resolved("other.local.", Some("10.0.0.3".to_string()), 7000);
    reg.record_resolved("box.local.", Some("10.0.0.9".to_string()), 7778);
    reg.record_resolved("ghost.local.", None, 1);
    let devices = reg.into_devices();
    assert_eq!(devices.len(), 2);
    assert_eq!(devices[0].name, "box.local");
    assert_eq!(devices[0].ip, "10.0.0.9");
    assert_eq!(devices[0].cmd_port, 7778);
    assert_eq!(devices[0].audio_port, 5000);
    assert_eq!(devices[1].name, "other.local");
    assert_eq!(devices[1].ip, "10.0.0.3");
}
