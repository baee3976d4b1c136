use litnergy::clipboard::ClipboardError;
use litnergy::device::{ButtonType, DeviceAction, KeyFlags, MouseButton, MouseEventType};
use litnergy::handler::{decode_mouse_button, handle_message, ClientState, HandlerError, Output};
use litnergy::protocol::ScreenSize;

fn client() -> ClientState {
    ClientState::new(ScreenSize { x: 800, y: 600 })
}

fn sent(outs: &[Output]) -> Vec<Vec<u8>> {
    outs.iter()
        .filter_map(|o| match o {
            Output::Send(b) => Some(b.clone()),
            _ => None,
        })
        .collect()
}

fn actions(outs: &[Output]) -> Vec<DeviceAction> {
    outs.iter()
        .filter_map(|o| match o {
            Output::Device(a) => Some(*a),
            _ => None,
        })
        .collect()
}

#[test]
fn mouse_button_numbers() {
    assert_eq!(decode_mouse_button(1), ButtonType::Left);
    assert_eq!(decode_mouse_button(2), ButtonType::Middle);
    assert_eq!(decode_mouse_button(3), ButtonType::Right);
    assert_eq!(decode_mouse_button(0), ButtonType::Extra);
    assert_eq!(decode_mouse_button(7), ButtonType::Extra);
}

#[test]
fn query_info_answers_screen_info() {
    let mut c = client();
    let outs = handle_message(b"QINF", &mut c).unwrap();
    let mut body = b"DINF".to_vec();
    body.extend_from_slice(&[0, 0, 0, 0, 0x03, 0x20, 0x02, 0x58, 0, 0, 0, 0, 0, 0]);
    let mut framed = (body.len() as u32).to_be_bytes().to_vec();
    framed.extend_from_slice(&body);
    assert_eq!(sent(&outs), vec![framed]);
}

#[test]
fn keep_alive_is_answered() {
    let mut c = client();
    let outs = handle_message(b"CALV", &mut c).unwrap();
    assert_eq!(sent(&outs), vec![b"\x00\x00\x00\x04CALV".to_vec()]);
}

#[test]
fn ignored_messages() {
    let mut c = client();
    for m in [&b"CIAK"[..], b"LSYN", b"CROP", b"DSOP", b"DKRP\x00\x01\x00\x00\x00\x1e"] {
        assert!(handle_message(m, &mut c).unwrap().is_empty());
    }
}

#[test]
fn enter_screen_moves_cursor_and_keeps_sequence() {
    let mut c = client();
    let outs = handle_message(b"CINN\x00\x05\x00\x06\x00\x00\x00\x09\x00\x00", &mut c).unwrap();
    assert_eq!(
        actions(&outs),
        vec![DeviceAction::Mouse { event: MouseEventType::MouseMoved, x: 5, y: 6, button: MouseButton::Left }]
    );
    assert_eq!(c.enter_sequence, 9);
}

#[test]
fn mouse_messages() {
    let mut c = client();
    handle_message(b"DMMV\x00\x01\x00\x02", &mut c).unwrap();
    let outs = handle_message(b"DMDN\x01", &mut c).unwrap();
    assert_eq!(
        actions(&outs),
        vec![DeviceAction::Mouse { event: MouseEventType::LeftMouseDown, x: 1, y: 2, button: MouseButton::Left }]
    );
    let outs = handle_message(b"DMUP\x02", &mut c).unwrap();
    assert_eq!(
        actions(&outs),
        vec![DeviceAction::Mouse { event: MouseEventType::OtherMouseUp, x: 1, y: 2, button: MouseButton::Center }]
    );
    let outs = handle_message(b"DMWM\x00\x00\x00\x78", &mut c).unwrap();
    assert_eq!(actions(&outs), vec![DeviceAction::Scroll { vertical: 5, horizontal: 0 }]);
}

#[test]
fn key_messages() {
    let mut c = client();
    let none = KeyFlags { shift: false, command: false, control: false, alternate: false };
    let outs = handle_message(b"DKDL\x00\x61\x00\x00\x00\x1e", &mut c).unwrap();
    assert_eq!(actions(&outs), vec![DeviceAction::Key { keycode: 0, down: true, autorepeat: false, flags: none }]);
    let outs = handle_message(b"COUT", &mut c).unwrap();
    assert_eq!(actions(&outs), vec![DeviceAction::Key { keycode: 0, down: false, autorepeat: false, flags: none }]);
    let outs = handle_message(b"DKUP\x00\x61\x00\x00\x00\x1e", &mut c).unwrap();
    assert_eq!(actions(&outs), vec![DeviceAction::Key { keycode: 0, down: false, autorepeat: false, flags: none }]);
}

#[test]
fn clipboard_messages_through_handler() {
    let mut c = client();
    let mut data = Vec::new();
    data.extend_from_slice(&1u32.to_be_bytes());
    data.extend_from_slice(&0u32.to_be_bytes());
    data.extend_from_slice(&2u32.to_be_bytes());
    data.extend_from_slice(b"ok");
    let mut m = b"DCLP\x00\x00\x00\x00\x01\x00".to_vec();
    m.extend_from_slice(&(data.len() as u32).to_be_bytes());
    m.extend_from_slice(&data);
    let outs = handle_message(&m, &mut c).unwrap();
    assert!(matches!(&outs[..], [Output::WriteClipboard(t)] if t == "ok"));
    assert!(handle_message(b"CCLP\x00\x00\x00\x00\x01", &mut c).unwrap().is_empty());
    assert_eq!(
        handle_message(b"CCLP\x00", &mut c).unwrap_err(),
        HandlerError::Clipboard(ClipboardError::ShortGrab)
    );
}

#[test]
fn errors_stop_the_client() {
    let mut c = client();
    assert_eq!(handle_message(b"EUNK", &mut c).unwrap_err(), HandlerError::UnknownClient);
    assert_eq!(handle_message(b"ZZZZ", &mut c).unwrap_err(), HandlerError::UnknownMessage);
}

#[test]
fn only_screen_entry_changes_sequence() {
    let mut c = client();
    handle_message(b"CINN\x00\x00\x00\x00\x00\x00\x00\x03\x00\x00", &mut c).unwrap();
    for m in [&b"QINF"[..], b"CALV", b"DMMV\x00\x01\x00\x01", b"COUT", b"CCLP\x00\x00\x00\x00\x09"] {
        handle_message(m, &mut c).unwrap();
        assert_eq!(c.enter_sequence, 3);
        assert_eq!(c.screen_size, ScreenSize { x: 800, y: 600 });
    }
}

#[test]
fn clipboard_image_through_handler() {
    let mut c = client();
    let mut data = Vec::new();
    data.extend_from_slice(&1u32.to_be_bytes());
    data.extend_from_slice(&2u32.to_be_bytes());
    data.extend_from_slice(&3u32.to_be_bytes());
    data.extend_from_slice(&[7, 8, 9]);
    let mut m = b"DCLP\x00\x00\x00\x00\x01\x00".to_vec();
    m.extend_from_slice(&(data.len() as u32).to_be_bytes());
    m.extend_from_slice(&data);
    let outs = handle_message(&m, &mut c).unwrap();
    let mut expected = b"BM".to_vec();
    expected.extend_from_slice(&[17, 0, 0, 0, 0, 0, 0, 0, 54, 0, 0, 0, 7, 8, 9]);
    assert!(matches!(&outs[..], [Output::WriteClipboardImage(b)] if *b == expected));
}
