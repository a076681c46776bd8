use relay::text::{decimal_string, nonempty_lines, signed_decimal_string, text_eq, trim_string};

#[test]
fn trims_unicode_whitespace() {
    assert_eq!(trim_string("  hi there \t\n"), "hi there");
    assert_eq!(trim_string("\u{3000}\u{a0}x\u{2009}"), "x");
    assert_eq!(trim_string(" \r\n "), "");
    assert_eq!(trim_string("\u{200b}x"), "\u{200b}x");
}

#[test]
fn nonempty_lines_follow_str_lines() {
    assert_eq!(nonempty_lines("a\r\n\nb\n"), vec!["a".to_string(), "b".to_string()]);
    assert_eq!(nonempty_lines("a\rb"), vec!["a\rb".to_string()]);
    assert_eq!(nonempty_lines("x\r"), vec!["x\r".to_string()]);
    assert!(nonempty_lines("").is_empty());
    assert!(nonempty_lines("\n\n\r\n").is_empty());
}

#[test]
fn decimals() {
    assert_eq!(decimal_string(0), "0");
    assert_eq!(decimal_string(20), "20");
    assert_eq!(decimal_string(u64::MAX), u64::MAX.to_string());
    assert_eq!(signed_decimal_string(-7), "-7");
    assert_eq!(signed_decimal_string(i64::MIN), i64::MIN.to_string());
}

#[test]
fn text_equality() {
    assert!(text_eq("abc", "abc"));
    assert!(!text_eq("abc", "ABC"));
}
