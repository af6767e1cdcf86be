use link2lan::text::{contains_str, split_str, split_whitespace_str, trim_str};

#[test]
fn split_keeps_empty_pieces() {
    assert_eq!(split_str("a,,b,", ','), vec!["a", "", "b", ""]);
    assert_eq!(split_str("", ','), vec![""]);
    assert_eq!(split_str("abc", ','), vec!["abc"]);
}

#[test]
fn contains_finds_substrings() {
    assert!(contains_str("open_message_x", "message"));
    assert!(contains_str("abc", ""));
    assert!(!contains_str("mess", "message"));
    assert!(!contains_str("keepalive", "message"));
}

#[test]
fn trim_removes_unicode_whitespace() {
    assert_eq!(trim_str("  a b \t\n"), "a b");
    assert_eq!(trim_str("\u{3000}x\u{a0}"), "x");
    assert_eq!(trim_str("   "), "");
    assert_eq!(trim_str(""), "");
}

#[test]
fn split_whitespace_drops_empty_words() {
    assert_eq!(split_whitespace_str("  getsrvstr  7\t1.2.3.4:5 \n"), vec!["getsrvstr", "7", "1.2.3.4:5"]);
    assert_eq!(split_whitespace_str(""), Vec::<String>::new());
    assert_eq!(split_whitespace_str(" \u{2003} "), Vec::<String>::new());
}
