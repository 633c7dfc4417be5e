use http_core::bytes::{find_bytes, split_bytes, utf8_text};

#[test]
fn utf8_text_reads_well_formed_bytes_only() {
    assert_eq!(utf8_text(b"hello"), Some("hello"));
    assert_eq!(utf8_text(b""), Some(""));
    assert_eq!(utf8_text("caf\u{e9}".as_bytes()), Some("caf\u{e9}"));
    assert_eq!(utf8_text(&[0xff, 0xfe]), None);
    assert_eq!(utf8_text(&[b'a', 0xc3]), None);
    assert_eq!(utf8_text(&[0xed, 0xa0, 0x80]), None);
    assert_eq!(utf8_text(&[0xc0, 0x80]), None);
}

#[test]
fn find_bytes_gives_the_first_occurrence_from_a_place() {
    let hay = b"--X\r\nab--X\r\ncd--X--";
    assert_eq!(find_bytes(hay, b"--X", 0), Some(0));
    assert_eq!(find_bytes(hay, b"--X", 1), Some(7));
    assert_eq!(find_bytes(hay, b"--X", 7), Some(7));
    assert_eq!(find_bytes(hay, b"--X", 8), Some(14));
    assert_eq!(find_bytes(hay, b"--X", 15), None);
    assert_eq!(find_bytes(hay, b"--X", 1000), None);
    assert_eq!(find_bytes(hay, b"--Y", 0), None);
    assert_eq!(find_bytes(b"ab", b"abc", 0), None);
    assert_eq!(find_bytes(b"ab", b"", 2), Some(2));
    assert_eq!(find_bytes(b"ab", b"", 3), None);
}

#[test]
fn split_bytes_splits_at_every_separator() {
    let pieces = split_bytes(b"a\nbc\n\nd", b"\n");
    assert_eq!(pieces, vec![&b"a"[..], &b"bc"[..], &b""[..], &b"d"[..]]);
    assert_eq!(split_bytes(b"", b"\n"), vec![&b""[..]]);
    assert_eq!(split_bytes(b"abc", b"\n"), vec![&b"abc"[..]]);
    assert_eq!(split_bytes(b"abc", b""), vec![&b"abc"[..]]);
    assert_eq!(split_bytes(b"a\r\nb", b"\r\n"), vec![&b"a"[..], &b"b"[..]]);
}
