use nocruft::text::{
    bytes_eq, chars_eq, chars_start_with, decimal_text, show_bytes, signed_text, split_chars,
    text_chars, text_eq, text_starts_with, trim_chars,
};

#[test]
fn decimal_numbers() {
    for n in [0, 1, 9, 10, 99, 100, 12345, u64::MAX] {
        assert_eq!(decimal_text(n), n.to_string());
    }
    for n in [0, -1, 7, -10, i32::MIN, i32::MAX] {
        assert_eq!(signed_text(n), n.to_string());
    }
}

#[test]
fn trimming_agrees_with_std() {
    for s in ["", " ", "a", " a b\t\n", "\u{85}x\u{2003}", "\u{200b}x\u{200b}", "\u{1c}x"] {
        let t: String = trim_chars(&text_chars(s)).into_iter().collect();
        assert_eq!(t, s.trim());
    }
    for u in 0..0x11_0000u32 {
        if let Some(c) = char::from_u32(u) {
            let empty = trim_chars(&vec![c]).is_empty();
            assert_eq!(empty, c.is_whitespace(), "{:x}", u);
        }
    }
}

#[test]
fn splitting_agrees_with_std() {
    for s in ["", "\n", "a", "a\nb", "\na\n\nb\n"] {
        let pieces: Vec<String> =
            split_chars(&text_chars(s), '\n').into_iter().map(|v| v.into_iter().collect()).collect();
        assert_eq!(pieces, s.split('\n').map(|p| p.to_string()).collect::<Vec<_>>());
    }
}

#[test]
fn comparisons() {
    assert!(text_eq("h\u{e9}", "h\u{e9}") && !text_eq("a", "ab") && !text_eq("b", "a"));
    assert!(text_starts_with("--nc-x", "--nc-") && text_starts_with("a", ""));
    assert!(!text_starts_with("--nc", "--nc-"));
    assert!(bytes_eq(b"ab", b"ab") && !bytes_eq(b"ab", b"aa") && !bytes_eq(b"a", b"ab"));
    assert!(chars_eq(&vec!['a', 'b'], "ab") && !chars_eq(&vec!['a'], "ab"));
    assert!(chars_start_with(&vec!['a', 'b'], &vec!['a']));
}

#[test]
fn bytes_as_text() {
    assert_eq!(show_bytes("h\u{e9}".as_bytes()), "h\u{e9}");
    assert_eq!(show_bytes(b"\xf0\x9f\x98x\xff"), "\u{fffd}x\u{fffd}");
}
