use litnergy::config::{parse_resolution, parse_u16, ResolutionError, DEFAULT_PORT};
use litnergy::helper::{
    get_edge_coordinate, get_mouse_position, get_warp_zone_size, scancode_to_keycode,
};
use litnergy::protocol::{
    decode_message, frame_length, frame_message, handshake_reply, hello_back_message,
    info_message, is_well_sized, keep_alive_message, message_to_code, parse_server_hello,
    HandshakeError, ProtocolCode, ProtocolError, ScreenSize, ServerMessage,
};

#[test]
fn message_to_code_recognises_codes() {
    assert_eq!(message_to_code(b"QINF"), ProtocolCode::QINF);
    assert_eq!(message_to_code(b"LSYN\x00\x01"), ProtocolCode::LSYN);
    assert_eq!(message_to_code(b"CALV"), ProtocolCode::CALV);
    assert_eq!(message_to_code(b"DMMV\x00\x01\x00\x02"), ProtocolCode::Unspecified);
    assert_eq!(message_to_code(b"qinf"), ProtocolCode::Unspecified);
}

#[test]
fn decode_simple_messages() {
    assert_eq!(decode_message(b"QINF"), Ok(ServerMessage::QueryInfo));
    assert_eq!(decode_message(b"CIAK"), Ok(ServerMessage::InfoAck));
    assert_eq!(decode_message(b"LSYN"), Ok(ServerMessage::Ignored));
    assert_eq!(decode_message(b"CROP"), Ok(ServerMessage::Ignored));
    assert_eq!(decode_message(b"DSOP"), Ok(ServerMessage::Ignored));
    assert_eq!(decode_message(b"CALV"), Ok(ServerMessage::KeepAlive));
    assert_eq!(decode_message(b"COUT"), Ok(ServerMessage::LeaveScreen));
    assert_eq!(decode_message(b"EUNK"), Ok(ServerMessage::UnknownClient));
    assert_eq!(decode_message(b"DKRP\x00\x01\x00\x00\x00\x01\x00\x1e"), Ok(ServerMessage::KeyRepeat));
    assert_eq!(decode_message(b"CCLP\x00\x00\x00\x00\x01"), Ok(ServerMessage::ClipboardGrab));
    assert_eq!(decode_message(b"DCLP"), Ok(ServerMessage::ClipboardData));
}

#[test]
fn decode_messages_with_fields() {
    assert_eq!(
        decode_message(b"DMMV\x01\x00\xff\xfe"),
        Ok(ServerMessage::MouseMove { x: 256, y: -2 })
    );
    assert_eq!(
        decode_message(b"CINN\x00\x0a\x00\x14\x00\x00\x01\x02\x00\x00"),
        Ok(ServerMessage::EnterScreen { x: 10, y: 20, sequence: 258 })
    );
    assert_eq!(decode_message(b"DMDN\x01"), Ok(ServerMessage::MouseDown { button: 1 }));
    assert_eq!(decode_message(b"DMUP\x03"), Ok(ServerMessage::MouseUp { button: 3 }));
    assert_eq!(
        decode_message(b"DMWM\x00\x78\xff\x88"),
        Ok(ServerMessage::MouseWheel { horizontal: 120, vertical: -120 })
    );
    assert_eq!(
        decode_message(b"DKDL\x00\x61\x00\x00\x00\x1e"),
        Ok(ServerMessage::KeyDown { scancode: 30 })
    );
    assert_eq!(
        decode_message(b"DKUP\x00\x61\x00\x00\x01\x5b"),
        Ok(ServerMessage::KeyUp { scancode: 347 })
    );
}

#[test]
fn decode_unknown_message() {
    assert_eq!(decode_message(b"ABCD"), Err(ProtocolError::UnknownMessage));
    assert_eq!(decode_message(b"DINF\x00\x00"), Err(ProtocolError::UnknownMessage));
}

#[test]
fn well_sized_messages() {
    assert!(!is_well_sized(b"QIN"));
    assert!(is_well_sized(b"QINF"));
    assert!(!is_well_sized(b"DMDN"));
    assert!(is_well_sized(b"DMDN\x01"));
    assert!(!is_well_sized(b"DMMV\x00\x01\x00"));
    assert!(is_well_sized(b"DMMV\x00\x01\x00\x02"));
    assert!(!is_well_sized(b"DKDL\x00\x01\x00\x00\x00"));
    assert!(is_well_sized(b"DKUP\x00\x01\x00\x00\x00\x10"));
    assert!(!is_well_sized(b"CINN\x00\x01\x00\x02\x00\x00\x00"));
    assert!(is_well_sized(b"CINN\x00\x01\x00\x02\x00\x00\x00\x01"));
    assert!(is_well_sized(b"XXXX"));
}

#[test]
fn framing_prefixes_big_endian_length() {
    assert_eq!(frame_message(b"CALV"), b"\x00\x00\x00\x04CALV".to_vec());
    assert_eq!(frame_message(b""), vec![0, 0, 0, 0]);
    let body = vec![7u8; 300];
    let framed = frame_message(&body);
    assert_eq!(&framed[..4], &[0, 0, 1, 44]);
    assert_eq!(frame_length(&framed[..4]), 300);
    assert_eq!(&framed[4..], &body[..]);
}

#[test]
fn keep_alive_answer() {
    assert_eq!(keep_alive_message(), b"\x00\x00\x00\x04CALV".to_vec());
}

#[test]
fn info_message_layout() {
    let msg = info_message(ScreenSize { x: 1920, y: 1080 });
    let mut expected = b"DINF".to_vec();
    expected.extend_from_slice(&[0, 0, 0, 0, 0x07, 0x80, 0x04, 0x38, 0, 0, 0, 0, 0, 0]);
    assert_eq!(msg, expected);
}

#[test]
fn helper_constants() {
    let e = get_edge_coordinate();
    assert_eq!((e.0, e.1), (0, 0));
    assert_eq!(get_warp_zone_size(), 0);
    let m = get_mouse_position();
    assert_eq!((m.0, m.1), (0, 0));
}

#[test]
fn scancodes_to_linux_key_codes() {
    assert_eq!(scancode_to_keycode(347), 125);
    assert_eq!(scancode_to_keycode(328), 103);
    assert_eq!(scancode_to_keycode(331), 105);
    assert_eq!(scancode_to_keycode(333), 106);
    assert_eq!(scancode_to_keycode(336), 108);
    assert_eq!(scancode_to_keycode(338), 110);
    assert_eq!(scancode_to_keycode(339), 111);
    assert_eq!(scancode_to_keycode(327), 102);
    assert_eq!(scancode_to_keycode(329), 104);
    assert_eq!(scancode_to_keycode(337), 109);
    assert_eq!(scancode_to_keycode(335), 107);
    assert_eq!(scancode_to_keycode(30), 30);
    assert_eq!(scancode_to_keycode(256), 256);
    assert_eq!(scancode_to_keycode(257), 338);
    assert_eq!(scancode_to_keycode(1000), 338);
}

fn hello(major: i16, minor: i16) -> Vec<u8> {
    let mut h = b"Barrier".to_vec();
    h.extend_from_slice(&major.to_be_bytes());
    h.extend_from_slice(&minor.to_be_bytes());
    h
}

#[test]
fn server_hello_is_parsed() {
    let h = parse_server_hello(&hello(1, 6)).unwrap();
    assert_eq!(h.protocol_name, "Barrier");
    assert_eq!(h.major, 1);
    assert_eq!(h.minor, 6);
    let mut bad = hello(1, 6);
    bad[0] = 0xff;
    assert_eq!(parse_server_hello(&bad).unwrap_err(), HandshakeError::InvalidProtocolName);
}

#[test]
fn handshake_reply_announces_client() {
    let reply = handshake_reply(&hello(1, 6), "litnergy").unwrap();
    let mut body = b"Barrier".to_vec();
    body.extend_from_slice(&[0, 1, 0, 8, 0, 0, 0, 8]);
    body.extend_from_slice(b"litnergy");
    assert_eq!(hello_back_message(b"litnergy"), body);
    let mut expected = (body.len() as u32).to_be_bytes().to_vec();
    expected.extend_from_slice(&body);
    assert_eq!(reply, expected);
    let reply = handshake_reply(&hello(1, 6), "rust-client").unwrap();
    assert_eq!(&reply[..4], &[0, 0, 0, 26]);
    assert_eq!(&reply[15..19], &[0, 0, 0, 11]);
    assert_eq!(&reply[19..], b"rust-client");
}

#[test]
fn handshake_refuses_other_major_version() {
    assert_eq!(handshake_reply(&hello(2, 0), "x"), Err(HandshakeError::IncompatibleVersion));
    assert_eq!(handshake_reply(&hello(-1, 0), "x"), Err(HandshakeError::IncompatibleVersion));
    let mut bad = hello(2, 0);
    bad[3] = 0xc3;
    assert_eq!(handshake_reply(&bad, "x"), Err(HandshakeError::InvalidProtocolName));
}

#[test]
fn resolution_argument() {
    assert_eq!(parse_resolution("1920x1080"), Ok(ScreenSize { x: 1920, y: 1080 }));
    assert_eq!(parse_resolution("+800x600x32"), Ok(ScreenSize { x: 800, y: 600 }));
    assert_eq!(parse_resolution("0x0"), Ok(ScreenSize { x: 0, y: 0 }));
    assert_eq!(parse_resolution("65536x10"), Err(ResolutionError::WrongFormat));
    assert_eq!(parse_resolution("x10"), Err(ResolutionError::WrongFormat));
    assert_eq!(parse_resolution("10x"), Err(ResolutionError::WrongFormat));
    assert_eq!(parse_resolution(" 10x10"), Err(ResolutionError::WrongFormat));
    assert_eq!(parse_resolution("1920 x 1080"), Err(ResolutionError::WrongFormat));
    assert_eq!(parse_resolution("abc"), Err(ResolutionError::WrongFormat));
    assert_eq!(parse_resolution("abcx1080"), Err(ResolutionError::WrongFormat));
    assert_eq!(parse_resolution("70000x1080"), Err(ResolutionError::WrongFormat));
    assert_eq!(parse_resolution(""), Err(ResolutionError::WrongFormat));
    assert_eq!(parse_u16(b"65535"), Some(65535));
    assert_eq!(parse_u16(b"-1"), None);
    assert_eq!(DEFAULT_PORT, 24800);
}
