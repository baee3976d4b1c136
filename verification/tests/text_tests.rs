use litnergy::text::{format_usize, normalize_text, parse_usize, utf8_to_string};

#[test]
fn normalize_line_endings() {
    assert_eq!(normalize_text(b"a\r\nb\rc\nd"), b"a\nb\nc\nd".to_vec());
    assert_eq!(normalize_text(b"\r\r\n"), b"\n\n".to_vec());
    assert_eq!(normalize_text(b"\n\r"), b"\n\n".to_vec());
    assert_eq!(normalize_text(b""), Vec::<u8>::new());
    assert_eq!(normalize_text("é\r\n".as_bytes()), "é\n".as_bytes().to_vec());
}

#[test]
fn parse_decimal_like_std() {
    assert_eq!(parse_usize(b"0"), Some(0));
    assert_eq!(parse_usize(b"12345"), Some(12345));
    assert_eq!(parse_usize(b"+42"), Some(42));
    assert_eq!(parse_usize(b"007"), Some(7));
    assert_eq!(parse_usize(b""), None);
    assert_eq!(parse_usize(b"+"), None);
    assert_eq!(parse_usize(b"-1"), None);
    assert_eq!(parse_usize(b"12a"), None);
    assert_eq!(parse_usize(b" 1"), None);
    assert_eq!(parse_usize(b"++1"), None);
    let max = usize::MAX.to_string();
    assert_eq!(parse_usize(max.as_bytes()), Some(usize::MAX));
    let over = format!("{}0", usize::MAX);
    assert_eq!(parse_usize(over.as_bytes()), None);
    for s in ["0", "17", "+9", "x", "", "99999999999999999999999"] {
        assert_eq!(parse_usize(s.as_bytes()), s.parse::<usize>().ok());
    }
}

#[test]
fn format_decimal_like_std() {
    for n in [0usize, 7, 10, 99, 100, 32780, 4294967295, usize::MAX] {
        assert_eq!(format_usize(n), n.to_string().into_bytes());
        assert_eq!(parse_usize(&format_usize(n)), Some(n));
    }
}

#[test]
fn utf8_decoding() {
    assert_eq!(utf8_to_string("héllo".as_bytes()), Some(String::from("héllo")));
    assert_eq!(utf8_to_string(b""), Some(String::new()));
    assert_eq!(utf8_to_string(&[0xff, 0x41]), None);
    assert_eq!(utf8_to_string(&[0xc3]), None);
}
