use pulsebox::audio::{downmix_i16, encode_packet, index_devices, stream_target, AudioPacketizer};

fn expected_packet(seq: u16, samples: &[i16]) -> Vec<u8> {
    let mut p = Vec::new();
    p.extend_from_slice(&0x5042u16.to_le_bytes());
    p.extend_from_slice(&seq.to_le_bytes());
    for s in samples {
        p.extend_from_slice(&s.to_le_bytes());
    }
    p
}

#[test]
fn packet_layout() {
    let p = encode_packet(0x0102, &[1, -1, 0x1234]);
    assert_eq!(p, vec![0x42, 0x50, 0x02, 0x01, 1, 0, 0xff, 0xff, 0x34, 0x12]);
}

#[test]
fn packetizer_cuts_blocks_of_512() {
    let mut pk = AudioPacketizer::new();
    let first: Vec<i16> = (0..1000).map(|i| (i as i16) - 500).collect();
    let packets = pk.push_samples(&first);
    assert_eq!(packets.len(), 1);
    assert_eq!(packets[0].len(), 4 + 512 * 2);
    assert_eq!(packets[0], expected_packet(0, &first[..512]));
    assert_eq!(pk.pending_len(), 488);
    assert_eq!(pk.next_sequence(), 1);

    let second: Vec<i16> = (0..600).map(|i| i as i16 * 3).collect();
    let packets = pk.push_samples(&second);
    let mut all = first.clone();
    all.extend_from_slice(&second);
    assert_eq!(packets.len(), 2);
    assert_eq!(packets[0], expected_packet(1, &all[512..1024]));
    assert_eq!(packets[1], expected_packet(2, &all[1024..1536]));
    assert_eq!(pk.pending_len(), 1600 - 1536);
    assert_eq!(pk.next_sequence(), 3);
}

#[test]
fn packetizer_holds_short_input() {
    let mut pk = AudioPacketizer::new();
    assert!(pk.push_samples(&[1, 2, 3]).is_empty());
    assert!(pk.push_samples(&[]).is_empty());
    assert_eq!(pk.pending_len(), 3);
    assert_eq!(pk.next_sequence(), 0);
}

#[test]
fn packetizer_chunking_does_not_matter() {
    let samples: Vec<i16> = (0..2048).map(|i| (i * 7 % 1000) as i16).collect();
    let mut one = AudioPacketizer::new();
    let a = one.push_samples(&samples);
    let mut many = AudioPacketizer::new();
    let mut b = Vec::new();
    for chunk in samples.chunks(100) {
        b.extend(many.push_samples(chunk));
    }
    assert_eq!(a, b);
    assert_eq!(one.next_sequence(), many.next_sequence());
    assert_eq!(one.pending_len(), many.pending_len());
}

#[test]
fn downmix_averages_frames_toward_zero() {
    assert_eq!(downmix_i16(&[1, 3, -1, -2, 5], 2), vec![2, -1, 2]);
    assert_eq!(downmix_i16(&[-3, 0, 7], 1), vec![-3, 0, 7]);
    assert_eq!(downmix_i16(&[i16::MIN, i16::MIN, i16::MAX, i16::MAX], 2), vec![i16::MIN, i16::MAX]);
    assert_eq!(downmix_i16(&[], 2), Vec::<i16>::new());
    assert_eq!(downmix_i16(&[10, 20], 4), vec![7]);
}

#[test]
fn device_list_keeps_positions() {
    let names = vec![Some("Speakers".to_string()), None, Some("HDMI".to_string())];
    let devices = index_devices(names);
    assert_eq!(devices.len(), 2);
    assert_eq!((devices[0].name.as_str(), devices[0].index), ("Speakers", 0));
    assert_eq!((devices[1].name.as_str(), devices[1].index), ("HDMI", 2));
}

#[test]
fn audio_target_address() {
    assert_eq!(stream_target("10.0.0.5"), "10.0.0.5:5000");
}
