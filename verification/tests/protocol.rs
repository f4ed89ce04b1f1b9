use pulsebox::frame::{decode_header, encode_frame, hello_frame, MSG_CMD, MSG_STATUS, MSG_PIXEL_FRAME};
use pulsebox::session::{
    check_handshake, classify_frame, connection_status, keeps_connection, parse_command_reply,
    CommandError, HandshakeError, ReaderEvent,
};
use pulsebox::status::{parse_status, PanelPosition, StatusError};

fn status_payload(effect: &[u8], palette: &[u8], topology: &[u8]) -> Vec<u8> {
    let mut p = vec![
        1, 0, 200, 10, 20, 30, 40, 50, 60, 70, 80, 90, // version .. color3
    ];
    p.extend_from_slice(&1.5f32.to_le_bytes());
    p.extend_from_slice(&(-0.25f32).to_le_bytes());
    p.extend_from_slice(&[16, 8]);
    p.extend_from_slice(&300u16.to_le_bytes());
    p.push(7);
    assert_eq!(p.len(), 25);
    p.push(effect.len() as u8);
    p.extend_from_slice(effect);
    p.push(palette.len() as u8);
    p.extend_from_slice(palette);
    p.extend_from_slice(topology);
    p
}

#[test]
fn command_frame_layout() {
    assert_eq!(encode_frame(MSG_CMD, b"hi"), vec![0x02, 2, 0, b'h', b'i']);
    assert_eq!(encode_frame(MSG_PIXEL_FRAME, &[]), vec![0x03, 0, 0]);
}

#[test]
fn hello_frame_announces_version() {
    assert_eq!(hello_frame(), vec![0x01, 1, 0, 1]);
}

#[test]
fn header_is_little_endian() {
    assert_eq!(decode_header([0x81, 0x19, 0x01]), (0x81, 281));
    assert_eq!(decode_header([0x83, 0xff, 0xff]), (0x83, 65535));
}

#[test]
fn frame_roundtrip_through_header() {
    let payload: Vec<u8> = (0..600u32).map(|i| (i % 251) as u8).collect();
    let f = encode_frame(0x7a, &payload);
    let (t, len) = decode_header([f[0], f[1], f[2]]);
    assert_eq!(t, 0x7a);
    assert_eq!(len, payload.len());
    assert_eq!(&f[3..], &payload[..]);
}

#[test]
fn oversized_payload_length_wraps() {
    let payload = vec![0u8; 70000];
    let f = encode_frame(MSG_PIXEL_FRAME, &payload);
    assert_eq!(f.len(), 70003);
    assert_eq!(&f[..3], &[0x03, (4464 % 256) as u8, (4464 / 256) as u8]);
}

#[test]
fn status_with_topology() {
    let p = status_payload(b"rainbow", b"fire", &[2, 0, 0, 1, 0]);
    let s = parse_status(&p).unwrap();
    assert_eq!(s.protocol_ver, 1);
    assert_eq!(s.wifi_mode, "STA");
    assert_eq!(s.brightness, 200);
    assert_eq!((s.color_r, s.color_g, s.color_b), (10, 20, 30));
    assert_eq!((s.color2_r, s.color2_g, s.color2_b), (40, 50, 60));
    assert_eq!((s.color3_r, s.color3_g, s.color3_b), (70, 80, 90));
    assert_eq!(f32::from_bits(s.speed_bits), 1.5);
    assert_eq!(f32::from_bits(s.direction_bits), -0.25);
    assert_eq!((s.grid_width, s.grid_height), (16, 8));
    assert_eq!(s.num_pixels, 300);
    assert_eq!(s.sensitivity, 7);
    assert_eq!(s.effect, "rainbow");
    assert_eq!(s.palette, "fire");
    assert_eq!(
        s.panels,
        vec![PanelPosition { grid_x: 0, grid_y: 0 }, PanelPosition { grid_x: 1, grid_y: 0 }]
    );
}

#[test]
fn status_without_topology_has_one_panel() {
    let mut p = status_payload(b"solid", b"", &[]);
    p[1] = 1;
    let s = parse_status(&p).unwrap();
    assert_eq!(s.wifi_mode, "AP");
    assert_eq!(s.palette, "");
    assert_eq!(s.panels, vec![PanelPosition { grid_x: 0, grid_y: 0 }]);
}

#[test]
fn status_truncated_topology_keeps_whole_entries() {
    let p = status_payload(b"e", b"p", &[3, 2, 1, 4]);
    let s = parse_status(&p).unwrap();
    assert_eq!(s.panels, vec![PanelPosition { grid_x: 2, grid_y: 1 }]);
    let p = status_payload(b"e", b"p", &[0, 9, 9]);
    assert_eq!(parse_status(&p).unwrap().panels, vec![]);
}

#[test]
fn status_errors() {
    assert_eq!(parse_status(&[0u8; 24]).unwrap_err(), StatusError::TooShort);
    assert_eq!(parse_status(&[0u8; 25]).unwrap_err(), StatusError::MissingEffectName);
    let mut p = vec![0u8; 25];
    p.push(5);
    p.extend_from_slice(b"abc");
    assert_eq!(parse_status(&p).unwrap_err(), StatusError::EffectNameTruncated);
    let mut p = vec![0u8; 25];
    p.push(3);
    p.extend_from_slice(b"abc");
    assert_eq!(parse_status(&p).unwrap_err(), StatusError::MissingPaletteName);
    p.push(2);
    p.push(b'x');
    assert_eq!(parse_status(&p).unwrap_err(), StatusError::PaletteNameTruncated);
}

#[test]
fn status_error_messages() {
    assert_eq!(StatusError::TooShort.message(), "STATUS payload too short");
    assert_eq!(StatusError::MissingEffectName.message(), "Missing effect name");
    assert_eq!(StatusError::EffectNameTruncated.message(), "Effect name truncated");
    assert_eq!(StatusError::MissingPaletteName.message(), "Missing palette name");
    assert_eq!(StatusError::PaletteNameTruncated.message(), "Palette name truncated");
}

#[test]
fn status_names_decode_lossily() {
    let p = status_payload(&[b'a', 0xff, b'b'], b"ok", &[]);
    let s = parse_status(&p).unwrap();
    assert_eq!(s.effect, "a\u{fffd}b");
}

#[test]
fn command_reply_decoding() {
    assert_eq!(parse_command_reply(&[1, b'o', b'k']), (true, "ok".to_string()));
    assert_eq!(parse_command_reply(&[0, b'n', b'o']), (false, "no".to_string()));
    assert_eq!(parse_command_reply(&[]), (false, String::new()));
    assert_eq!(parse_command_reply(&[7]), (true, String::new()));
    assert_eq!(parse_command_reply(&[1, 0xc3]), (true, "\u{fffd}".to_string()));
}

#[test]
fn reader_sorts_frames() {
    let p = status_payload(b"e", b"p", &[]);
    match classify_frame(MSG_STATUS, p) {
        ReaderEvent::Status(s) => assert_eq!(s.effect, "e"),
        _ => panic!("expected a status"),
    }
    assert!(matches!(classify_frame(MSG_STATUS, vec![1, 2, 3]), ReaderEvent::Ignored));
    match classify_frame(0x82, vec![1, b'y']) {
        ReaderEvent::CommandReply(ok, text) => {
            assert!(ok);
            assert_eq!(text, "y");
        }
        _ => panic!("expected a reply"),
    }
    match classify_frame(0x83, vec![9, 8, 7]) {
        ReaderEvent::Preview(bytes) => assert_eq!(bytes, vec![9, 8, 7]),
        _ => panic!("expected a preview"),
    }
    assert!(matches!(classify_frame(0x42, vec![]), ReaderEvent::Ignored));
}

#[test]
fn handshake_checks() {
    let p = status_payload(b"e", b"p", &[]);
    assert_eq!(check_handshake(MSG_STATUS, &p).unwrap().sensitivity, 7);
    let e = check_handshake(0x82, &p).unwrap_err();
    assert_eq!(e, HandshakeError::UnexpectedReply(0x82));
    assert_eq!(e.message(), "Expected STATUS (0x81), got 0x82");
    assert_eq!(HandshakeError::UnexpectedReply(0x0a).message(), "Expected STATUS (0x81), got 0x0a");
    let e = check_handshake(MSG_STATUS, &[0; 3]).unwrap_err();
    assert_eq!(e, HandshakeError::Status(StatusError::TooShort));
    assert_eq!(e.message(), "STATUS payload too short");
}

#[test]
fn connection_survival_after_command() {
    assert!(keeps_connection(&Ok((true, "x".to_string()))));
    assert!(keeps_connection(&Err(CommandError::ResponseTimeout)));
    assert!(keeps_connection(&Err(CommandError::NotConnected)));
    assert!(!keeps_connection(&Err(CommandError::ReaderGone)));
    assert!(!keeps_connection(&Err(CommandError::SendHeaderFailed("x".into()))));
    assert!(!keeps_connection(&Err(CommandError::SendPayloadFailed("x".into()))));
}

#[test]
fn command_error_messages() {
    assert_eq!(CommandError::NotConnected.message(), "Not connected");
    assert_eq!(CommandError::ReaderGone.message(), "Reader task gone (disconnected)");
    assert_eq!(CommandError::ResponseTimeout.message(), "Response timeout");
    assert_eq!(
        CommandError::SendHeaderFailed("broken pipe".into()).message(),
        "Send header failed: broken pipe"
    );
    assert_eq!(
        CommandError::SendPayloadFailed("reset".into()).message(),
        "Send payload failed: reset"
    );
}

#[test]
fn connection_status_report() {
    let ip = "192.168.4.1".to_string();
    let s = connection_status(Some((&ip, 7777)));
    assert!(s.connected);
    assert_eq!(s.ip.as_deref(), Some("192.168.4.1"));
    assert_eq!(s.port, Some(7777));
    let s = connection_status(None);
    assert!(!s.connected);
    assert_eq!(s.ip, None);
    assert_eq!(s.port, None);
}
