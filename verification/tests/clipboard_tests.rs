use litnergy::clipboard::{
    clipboard_chunk_message, decode_clipboard_chunk, extract_text, find_text_entry,
    bmp_file_message, extract_content, find_entry, grab_message, read_u32, text_data_message,
    text_messages, ClipboardContent, ClipboardError, ClipboardState, CHUNK_DATA, CHUNK_END, CHUNK_SINGLE, CHUNK_SIZE, CHUNK_START,
};

fn chunk(seq: u32, mark: u8, data: &[u8]) -> Vec<u8> {
    let mut m = b"DCLP".to_vec();
    m.push(0);
    m.extend_from_slice(&seq.to_be_bytes());
    m.push(mark);
    m.extend_from_slice(&(data.len() as u32).to_be_bytes());
    m.extend_from_slice(data);
    m
}

fn text_payload(text: &[u8]) -> Vec<u8> {
    let mut d = Vec::new();
    d.extend_from_slice(&1u32.to_be_bytes());
    d.extend_from_slice(&0u32.to_be_bytes());
    d.extend_from_slice(&(text.len() as u32).to_be_bytes());
    d.extend_from_slice(text);
    d
}

#[test]
fn chunk_messages_are_built_as_sent() {
    assert_eq!(clipboard_chunk_message(9, CHUNK_DATA, b"abc"), chunk(9, CHUNK_DATA, b"abc"));
    assert_eq!(grab_message(0x01020304), b"CCLP\x00\x01\x02\x03\x04".to_vec());
    assert_eq!(text_data_message(b"hi"), text_payload(b"hi"));
}

#[test]
fn decode_chunk_fields_and_errors() {
    let m = chunk(7, CHUNK_START, b"12");
    let (id, seq, mark, data) = decode_clipboard_chunk(&m).unwrap().unwrap();
    assert_eq!((id, seq, mark, data), (0, 7, CHUNK_START, &b"12"[..]));
    assert_eq!(decode_clipboard_chunk(b"DCLP\x00\x00\x00\x00\x07\x02\x00\x00\x00"), Err(ClipboardError::ShortMessage));
    let mut truncated = chunk(1, CHUNK_DATA, b"abcd");
    truncated.pop();
    assert_eq!(decode_clipboard_chunk(&truncated), Err(ClipboardError::TruncatedData));
    let mut longer = chunk(1, CHUNK_DATA, b"abcd");
    longer.extend_from_slice(b"tail");
    assert_eq!(decode_clipboard_chunk(&longer).unwrap().unwrap().3, &b"abcd"[..]);
}

#[test]
fn read_u32_moves_offset() {
    let data = [0u8, 0, 1, 0, 9, 9];
    let mut off = 0usize;
    assert_eq!(read_u32(&data, &mut off), Some(256));
    assert_eq!(off, 4);
    assert_eq!(read_u32(&data, &mut off), None);
    assert_eq!(off, 4);
    let mut far = 100usize;
    assert_eq!(read_u32(&data, &mut far), None);
    assert_eq!(far, 100);
}

#[test]
fn find_text_entry_among_formats() {
    let mut d = Vec::new();
    d.extend_from_slice(&2u32.to_be_bytes());
    d.extend_from_slice(&5u32.to_be_bytes());
    d.extend_from_slice(&2u32.to_be_bytes());
    d.extend_from_slice(b"zz");
    d.extend_from_slice(&0u32.to_be_bytes());
    d.extend_from_slice(&3u32.to_be_bytes());
    d.extend_from_slice(b"abc");
    assert_eq!(find_text_entry(&d), Ok(Some(&b"abc"[..])));
    assert_eq!(find_text_entry(b"\x00\x00"), Ok(None));
    assert_eq!(find_text_entry(b"\x00\x00\x00\x00"), Ok(None));
    assert_eq!(find_text_entry(b"\x00\x00\x00\x01\x00\x00\x00\x05"), Ok(None));
    let mut only_image = Vec::new();
    only_image.extend_from_slice(&1u32.to_be_bytes());
    only_image.extend_from_slice(&1u32.to_be_bytes());
    only_image.extend_from_slice(&1u32.to_be_bytes());
    only_image.push(0);
    assert_eq!(find_text_entry(&only_image), Ok(None));
    let mut bad = text_payload(b"abc");
    bad.pop();
    assert_eq!(find_text_entry(&bad), Err(ClipboardError::TruncatedFormat));
}

#[test]
fn extract_text_normalises_and_checks_utf8() {
    assert_eq!(extract_text(&text_payload(b"a\r\nb\rc")), Ok(Some(String::from("a\nb\nc"))));
    assert_eq!(extract_text(&text_payload("ü".as_bytes())), Ok(Some(String::from("ü"))));
    assert_eq!(extract_text(&text_payload(&[0x61, 0xff])), Err(ClipboardError::InvalidUtf8));
    assert_eq!(extract_text(b""), Ok(None));
}

#[test]
fn grab_resets_transfer() {
    let mut st = ClipboardState::new();
    assert_eq!(st.handle_clipboard_grab(b"CCLP\x00\x00\x00"), Err(ClipboardError::ShortGrab));
    assert_eq!(st.handle_clipboard_message(&chunk(1, CHUNK_START, b"16")), Ok(None));
    assert_eq!(st.handle_clipboard_message(&chunk(1, CHUNK_DATA, b"abc")), Ok(None));
    assert_eq!(st.handle_clipboard_grab(b"CCLP\x01\x00\x00\x00\x01"), Ok(()));
    assert_eq!(st.handle_clipboard_grab(b"CCLP\x00\x00\x00\x00\x01"), Ok(()));
    assert_eq!(
        st.handle_clipboard_message(&chunk(1, CHUNK_END, b"")),
        Err(ClipboardError::SizeMismatch)
    );
}

#[test]
fn single_chunk_text() {
    let mut st = ClipboardState::default();
    assert_eq!(
        st.handle_clipboard_message(&chunk(3, CHUNK_SINGLE, &text_payload(b"hello"))),
        Ok(Some(ClipboardContent::Text(String::from("hello"))))
    );
    let mut other = chunk(3, CHUNK_SINGLE, &text_payload(b"hello"));
    other[4] = 1;
    assert_eq!(st.handle_clipboard_message(&other), Ok(None));
    assert_eq!(st.handle_clipboard_message(&chunk(3, 9, b"x")), Ok(None));
}

#[test]
fn chunked_transfer_reassembles_text() {
    let mut st = ClipboardState::new();
    let payload = text_payload(b"line1\r\nline2");
    let size = payload.len().to_string();
    assert_eq!(st.handle_clipboard_message(&chunk(1, CHUNK_START, size.as_bytes())), Ok(None));
    assert_eq!(st.handle_clipboard_message(&chunk(1, CHUNK_DATA, &payload[..5])), Ok(None));
    assert_eq!(st.handle_clipboard_message(&chunk(1, CHUNK_DATA, &payload[5..])), Ok(None));
    assert_eq!(
        st.handle_clipboard_message(&chunk(1, CHUNK_END, b"")),
        Ok(Some(ClipboardContent::Text(String::from("line1\nline2"))))
    );
    // The transfer is over: a second end chunk has no announced size.
    assert_eq!(
        st.handle_clipboard_message(&chunk(1, CHUNK_END, b"")),
        Err(ClipboardError::SizeMismatch)
    );
}

#[test]
fn chunked_transfer_errors() {
    let mut st = ClipboardState::new();
    assert_eq!(
        st.handle_clipboard_message(&chunk(1, CHUNK_START, b"12a")),
        Err(ClipboardError::InvalidChunkSize)
    );
    assert_eq!(st.handle_clipboard_message(&chunk(1, CHUNK_START, b"4")), Ok(None));
    assert_eq!(st.handle_clipboard_message(&chunk(1, CHUNK_DATA, b"abc")), Ok(None));
    assert_eq!(
        st.handle_clipboard_message(&chunk(1, CHUNK_END, b"")),
        Err(ClipboardError::SizeMismatch)
    );
    assert_eq!(st.handle_clipboard_message(b"DCLP\x00"), Err(ClipboardError::ShortMessage));
}

#[test]
fn sent_text_reads_back() {
    let text = "copy me\r\nplease ✓";
    let msgs = text_messages(42, text.as_bytes());
    assert_eq!(msgs.len(), 3);
    let mut st = ClipboardState::new();
    let mut got = Vec::new();
    for m in &msgs {
        if let Some(ClipboardContent::Text(t)) = st.handle_clipboard_message(m).unwrap() {
            got.push(t);
        }
    }
    assert_eq!(got, vec![String::from("copy me\nplease ✓")]);
}

#[test]
fn large_text_is_cut_into_chunks() {
    let text = vec![b'a'; CHUNK_SIZE * 2 + 5];
    let msgs = text_messages(1, &text);
    let total = text.len() + 12;
    assert_eq!(msgs.len(), 1 + 3 + 1);
    assert_eq!(msgs[0], chunk(1, CHUNK_START, total.to_string().as_bytes()));
    assert_eq!(decode_clipboard_chunk(&msgs[1]).unwrap().unwrap().3.len(), CHUNK_SIZE);
    assert_eq!(decode_clipboard_chunk(&msgs[2]).unwrap().unwrap().3.len(), CHUNK_SIZE);
    assert_eq!(decode_clipboard_chunk(&msgs[3]).unwrap().unwrap().3.len(), 17);
    assert_eq!(msgs[4], chunk(1, CHUNK_END, b""));
    let mut st = ClipboardState::new();
    let mut got = None;
    for m in &msgs {
        if let Some(ClipboardContent::Text(t)) = st.handle_clipboard_message(m).unwrap() {
            got = Some(t);
        }
    }
    assert_eq!(got.unwrap().len(), text.len());
}

#[test]
fn local_text_is_sent_once() {
    let mut st = ClipboardState::new();
    assert!(st.local_text_messages(5, "").is_empty());
    let msgs = st.local_text_messages(5, "abc");
    assert_eq!(msgs[0], b"CCLP\x00\x00\x00\x00\x05".to_vec());
    assert_eq!(&msgs[1..], &text_messages(5, b"abc")[..]);
    assert!(st.should_send_local_text("abc"));
    st.remember_sent_text(String::from("abc"));
    assert!(!st.should_send_local_text("abc"));
    assert!(st.local_text_messages(5, "abc").is_empty());
    assert!(st.should_send_local_text("abd"));
}

#[test]
fn remote_text_is_not_echoed() {
    let mut st = ClipboardState::new();
    st.remote_text_written(String::from("from server"));
    assert!(!st.should_send_local_text("from server"));
    assert!(st.local_text_messages(1, "from server").is_empty());
    assert!(st.should_send_local_text("local"));
    st.remember_sent_text(String::from("local"));
    assert!(st.should_send_local_text("from server"));
}

fn payload(entries: &[(u32, &[u8])]) -> Vec<u8> {
    let mut d = Vec::new();
    d.extend_from_slice(&(entries.len() as u32).to_be_bytes());
    for (format, bytes) in entries {
        d.extend_from_slice(&format.to_be_bytes());
        d.extend_from_slice(&(bytes.len() as u32).to_be_bytes());
        d.extend_from_slice(bytes);
    }
    d
}

fn bmp_of(bitmap: &[u8]) -> Vec<u8> {
    let mut f = b"BM".to_vec();
    f.extend_from_slice(&(bitmap.len() as u32 + 14).to_le_bytes());
    f.extend_from_slice(&[0, 0, 0, 0]);
    f.extend_from_slice(&54u32.to_le_bytes());
    f.extend_from_slice(bitmap);
    f
}

#[test]
fn bitmap_entry_becomes_bmp_file() {
    let bitmap: &[u8] = &[40, 0, 0, 0, 1, 2, 3];
    let f = bmp_file_message(bitmap);
    assert_eq!(f, bmp_of(bitmap));
    assert_eq!(&f[..14], &[0x42, 0x4d, 21, 0, 0, 0, 0, 0, 0, 0, 54, 0, 0, 0]);
    assert_eq!(bmp_file_message(b"").len(), 14);
}

#[test]
fn image_only_payload_gives_image() {
    let bitmap: &[u8] = &[9, 8, 7, 6];
    let d = payload(&[(2, bitmap)]);
    assert_eq!(find_entry(&d, 2), Ok(Some(bitmap)));
    assert_eq!(find_entry(&d, 0), Ok(None));
    assert_eq!(extract_text(&d), Ok(None));
    assert_eq!(extract_content(&d), Ok(Some(ClipboardContent::Image(bmp_of(bitmap)))));
    let mut st = ClipboardState::new();
    assert_eq!(
        st.handle_clipboard_message(&chunk(4, CHUNK_SINGLE, &d)),
        Ok(Some(ClipboardContent::Image(bmp_of(bitmap))))
    );
}

#[test]
fn text_entry_wins_over_bitmap() {
    let d = payload(&[(2, &[1, 2, 3]), (0, b"hi\r\n")]);
    assert_eq!(extract_content(&d), Ok(Some(ClipboardContent::Text(String::from("hi\n")))));
    let html_only = payload(&[(1, b"<b>x</b>")]);
    assert_eq!(extract_content(&html_only), Ok(None));
}

#[test]
fn truncated_bitmap_entry_is_an_error() {
    let mut d = payload(&[(2, &[1, 2, 3, 4])]);
    d.truncate(d.len() - 1);
    assert_eq!(extract_content(&d), Err(ClipboardError::TruncatedFormat));
    let mut st = ClipboardState::new();
    assert_eq!(
        st.handle_clipboard_message(&chunk(1, CHUNK_SINGLE, &d)),
        Err(ClipboardError::TruncatedFormat)
    );
}

#[test]
fn chunked_image_equals_single_image() {
    let bitmap: Vec<u8> = (0..50u8).collect();
    let d = payload(&[(2, &bitmap)]);
    let mut single = ClipboardState::new();
    let whole = single.handle_clipboard_message(&chunk(9, CHUNK_SINGLE, &d));
    let mut st = ClipboardState::new();
    let size = d.len().to_string();
    assert_eq!(st.handle_clipboard_message(&chunk(9, CHUNK_START, size.as_bytes())), Ok(None));
    for piece in d.chunks(7) {
        assert_eq!(st.handle_clipboard_message(&chunk(9, CHUNK_DATA, piece)), Ok(None));
    }
    let pieced = st.handle_clipboard_message(&chunk(9, CHUNK_END, b""));
    assert_eq!(pieced, whole);
    assert_eq!(pieced, Ok(Some(ClipboardContent::Image(bmp_of(&bitmap)))));
}

#[test]
fn image_write_forgets_remembered_text() {
    let mut st = ClipboardState::new();
    st.remote_text_written(String::from("t"));
    assert!(!st.should_send_local_text("t"));
    st.remote_image_written();
    assert!(st.should_send_local_text("t"));
    st.remember_sent_text(String::from("u"));
    st.remote_image_written();
    assert!(st.should_send_local_text("u"));
}
