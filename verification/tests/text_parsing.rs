use cleromancy::text::{
    ascii_lowercase, eq_ignore_case, is_digest, lines_of, parse_i32, parse_u32, split_char,
    split_once_char, trim_str,
};

#[test]
fn unsigned_parsing_follows_std() {
    assert_eq!(parse_u32("0"), Some(0));
    assert_eq!(parse_u32("+42"), Some(42));
    assert_eq!(parse_u32("4294967295"), Some(u32::MAX));
    assert_eq!(parse_u32("4294967296"), None);
    assert_eq!(parse_u32(""), None);
    assert_eq!(parse_u32("+"), None);
    assert_eq!(parse_u32("-1"), None);
    assert_eq!(parse_u32(" 1"), None);
}

#[test]
fn signed_parsing_follows_std() {
    assert_eq!(parse_i32("-2147483648"), Some(i32::MIN));
    assert_eq!(parse_i32("2147483647"), Some(i32::MAX));
    assert_eq!(parse_i32("2147483648"), None);
    assert_eq!(parse_i32("-"), None);
    assert_eq!(parse_i32("+-1"), None);
    assert_eq!(parse_i32("-0"), Some(0));
}

#[test]
fn lines_and_splits_follow_std() {
    let text = "a\r\nb\n\nc";
    assert_eq!(lines_of(text), text.lines().map(String::from).collect::<Vec<_>>());
    assert_eq!(lines_of("x\n"), vec!["x".to_string()]);
    assert!(lines_of("").is_empty());
    assert_eq!(split_char("a,,b,", ','), vec!["a", "", "b", ""]);
    assert_eq!(split_once_char("k: v: w", ':'), Some(("k".to_string(), " v: w".to_string())));
    assert_eq!(split_once_char("none", ':'), None);
}

#[test]
fn trimming_and_case_follow_std() {
    assert_eq!(trim_str(" \t a b \n"), "a b");
    assert_eq!(trim_str("\u{3000}x\u{3000}"), "x");
    assert_eq!(ascii_lowercase("AbC-É"), "abc-É");
    assert!(eq_ignore_case("Tarot", "tAROT"));
    assert!(!eq_ignore_case("Été", "éTÉ"));
    assert!(is_digest(&"0123456789abcdef".repeat(4)));
    assert!(!is_digest(&"0123456789ABCDEF".repeat(4)));
    assert!(!is_digest("abc"));
}
