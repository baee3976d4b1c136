use litnergy::clipboard::{ClipboardContent, ClipboardState, CLIPBOARD_ID};
use litnergy::wire::{
    push_bytes, push_i16_be, push_u16_be, push_u32_be, read_i16_be, read_u16_be, read_u32_be,
};

#[test]
fn integers_round_trip() {
    for v in [0u16, 1, 255, 256, 0x1234, u16::MAX] {
        let mut out = Vec::new();
        push_u16_be(&mut out, v);
        assert_eq!(out, v.to_be_bytes().to_vec());
        assert_eq!(read_u16_be(&out, 0), v);
    }
    for v in [0i16, 1, -1, 300, -300, i16::MIN, i16::MAX] {
        let mut out = vec![9u8];
        push_i16_be(&mut out, v);
        assert_eq!(&out[1..], &v.to_be_bytes()[..]);
        assert_eq!(read_i16_be(&out, 1), v);
    }
    for v in [0u32, 1, 0x0102_0304, u32::MAX] {
        let mut out = Vec::new();
        push_u32_be(&mut out, v);
        assert_eq!(out, v.to_be_bytes().to_vec());
        assert_eq!(read_u32_be(&out, 0), v);
    }
    let mut out = vec![1u8];
    push_bytes(&mut out, b"abc");
    assert_eq!(out, b"\x01abc".to_vec());
}

#[test]
fn local_text_reaches_the_other_side() {
    let sender = ClipboardState::new();
    let msgs = sender.local_text_messages(77, "one\r\ntwo\rthree");
    assert_eq!(msgs[0], b"CCLP\x00\x00\x00\x00\x4d".to_vec());
    let mut receiver = ClipboardState::new();
    assert_eq!(receiver.handle_clipboard_grab(&msgs[0]), Ok(()));
    assert_eq!(msgs[0][4], CLIPBOARD_ID);
    let mut texts = Vec::new();
    for m in &msgs[1..] {
        if let Some(ClipboardContent::Text(t)) = receiver.handle_clipboard_message(m).unwrap() {
            texts.push(t);
        }
    }
    assert_eq!(texts, vec![String::from("one\ntwo\nthree")]);
}
