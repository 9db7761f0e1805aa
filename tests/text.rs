use vote_tally::text::{is_white_space_char, parse_i64, trim};

#[test]
fn trim_removes_ascii_white_space() {
    assert_eq!(trim("\t  apple pie \r\n"), "apple pie");
    assert_eq!(trim("plain"), "plain");
    assert_eq!(trim(""), "");
    assert_eq!(trim(" \n\t "), "");
}

#[test]
fn trim_removes_unicode_white_space() {
    assert_eq!(trim("\u{3000}item\u{a0}\u{2029}"), "item");
    assert_eq!(trim("\u{85}a b\u{200a}"), "a b");
}

#[test]
fn white_space_chars() {
    assert!(is_white_space_char(' '));
    assert!(is_white_space_char('\u{0b}'));
    assert!(is_white_space_char('\u{1680}'));
    assert!(!is_white_space_char('x'));
    assert!(!is_white_space_char('\u{200b}'));
}

#[test]
fn parse_plain_and_signed_numbers() {
    assert_eq!(parse_i64("0"), Some(0));
    assert_eq!(parse_i64("1"), Some(1));
    assert_eq!(parse_i64("+5"), Some(5));
    assert_eq!(parse_i64("-42"), Some(-42));
    assert_eq!(parse_i64("007"), Some(7));
    assert_eq!(parse_i64("-0"), Some(0));
}

#[test]
fn parse_rejects_what_is_no_integer() {
    assert_eq!(parse_i64(""), None);
    assert_eq!(parse_i64("+"), None);
    assert_eq!(parse_i64("-"), None);
    assert_eq!(parse_i64("abc"), None);
    assert_eq!(parse_i64("12a"), None);
    assert_eq!(parse_i64(" 1"), None);
    assert_eq!(parse_i64("+-1"), None);
    assert_eq!(parse_i64("1.0"), None);
}

#[test]
fn parse_i64_limits() {
    assert_eq!(parse_i64("9223372036854775807"), Some(i64::MAX));
    assert_eq!(parse_i64("-9223372036854775808"), Some(i64::MIN));
    assert_eq!(parse_i64("9223372036854775808"), None);
    assert_eq!(parse_i64("-9223372036854775809"), None);
    assert_eq!(parse_i64("99999999999999999999999"), None);
}

#[test]
fn parse_agrees_with_std() {
    for s in ["0", "17", "-3", "+8", "", "x", "1 ", "--1", "18446744073709551616", "-9223372036854775808"] {
        assert_eq!(parse_i64(s), s.parse::<i64>().ok(), "input {:?}", s);
    }
}
