use http_core::text::{
    find_chars, remove_char, same_text, split_chars, to_chars, to_string, trim, trim_matches,
};

fn chars(s: &str) -> Vec<char> {
    s.chars().collect()
}

fn strings(pieces: Vec<&[char]>) -> Vec<String> {
    pieces.into_iter().map(|p| p.iter().collect()).collect()
}

#[test]
fn characters_and_strings_convert_both_ways() {
    assert_eq!(to_chars("a\u{e9}b"), vec!['a', '\u{e9}', 'b']);
    assert_eq!(to_chars(""), Vec::<char>::new());
    assert_eq!(to_string(&['h', 'i']), "hi");
    assert_eq!(to_string(&[]), "");
    assert_eq!(to_string(&to_chars("caf\u{e9} \u{4e2d}")), "caf\u{e9} \u{4e2d}");
}

#[test]
fn same_text_compares_character_by_character() {
    assert!(same_text("abc", "abc"));
    assert!(same_text("", ""));
    assert!(!same_text("abc", "abd"));
    assert!(!same_text("abc", "ab"));
    assert!(!same_text("GET", "get"));
}

#[test]
fn find_chars_gives_the_first_occurrence_from_a_place() {
    let hay = chars("a; b; c");
    let needle = chars("; ");
    assert_eq!(find_chars(&hay, &needle, 0), Some(1));
    assert_eq!(find_chars(&hay, &needle, 1), Some(1));
    assert_eq!(find_chars(&hay, &needle, 2), Some(4));
    assert_eq!(find_chars(&hay, &needle, 5), None);
    assert_eq!(find_chars(&hay, &needle, 100), None);
    assert_eq!(find_chars(&hay, &chars("zz"), 0), None);
    assert_eq!(find_chars(&hay, &[], 3), Some(3));
    assert_eq!(find_chars(&hay, &[], 7), Some(7));
    assert_eq!(find_chars(&hay, &[], 8), None);
    assert_eq!(find_chars(&chars("aab"), &chars("ab"), 0), Some(1));
}

#[test]
fn split_chars_splits_as_str_split_does() {
    for (hay, sep) in [
        ("a/b/c", "/"),
        ("/a/", "/"),
        ("", "/"),
        ("abc", "/"),
        ("a; b; c", "; "),
        ("aaa", "aa"),
        ("boundary=xboundary=y", "boundary="),
        ("x\r\ny\r\n", "\r\n"),
    ] {
        let expected: Vec<String> = hay.split(sep).map(|s| s.to_string()).collect();
        assert_eq!(strings(split_chars(&chars(hay), &chars(sep))), expected);
    }
    assert_eq!(strings(split_chars(&chars("abc"), &[])), vec!["abc".to_string()]);
}

#[test]
fn trim_drops_white_space_at_both_ends_only() {
    assert_eq!(to_string(trim(&chars("  a b \t\r\n"))), "a b");
    assert_eq!(to_string(trim(&chars("a"))), "a");
    assert_eq!(to_string(trim(&chars(" \t "))), "");
    assert_eq!(to_string(trim(&chars(""))), "");
    assert_eq!(to_string(trim(&chars("\u{a0}x\u{3000}"))), "x");
    assert_eq!(to_string(trim(&chars("_x_"))), "_x_");
}

#[test]
fn trim_matches_drops_the_character_at_both_ends_only() {
    assert_eq!(to_string(trim_matches(&chars("//a/b//"), '/')), "a/b");
    assert_eq!(to_string(trim_matches(&chars("a/b"), '/')), "a/b");
    assert_eq!(to_string(trim_matches(&chars("///"), '/')), "");
    assert_eq!(to_string(trim_matches(&chars(""), '/')), "");
}

#[test]
fn remove_char_drops_every_occurrence() {
    assert_eq!(remove_char(&chars("\"t.txt\""), '"'), chars("t.txt"));
    assert_eq!(remove_char(&chars("a\"b\"c"), '"'), chars("abc"));
    assert_eq!(remove_char(&chars("\"\""), '"'), chars(""));
    assert_eq!(remove_char(&chars("abc"), '"'), chars("abc"));
}
