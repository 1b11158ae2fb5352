use pot::config::{to_u64, to_u8};
use pot::text::{contains, decimal_string, parse_mention, parse_u64, parse_u8};

#[test]
fn parse_u64_accepts_plain_and_plus_digits() {
    assert_eq!(parse_u64("123"), Some(123));
    assert_eq!(parse_u64("+5"), Some(5));
    assert_eq!(parse_u64("007"), Some(7));
    assert_eq!(parse_u64("18446744073709551615"), Some(u64::MAX));
}

#[test]
fn parse_u64_refuses_what_str_parse_refuses() {
    assert_eq!(parse_u64(""), None);
    assert_eq!(parse_u64("+"), None);
    assert_eq!(parse_u64("-1"), None);
    assert_eq!(parse_u64(" 1"), None);
    assert_eq!(parse_u64("1a"), None);
    assert_eq!(parse_u64("18446744073709551616"), None);
    assert_eq!(parse_u64("99999999999999999999999"), None);
}

#[test]
fn parse_agrees_with_std() {
    for s in ["0", "+0", "42", "+", "-0", "255", "256", "1_000", "٣", "12 ", "18446744073709551615"] {
        assert_eq!(parse_u64(s), s.parse::<u64>().ok(), "{}", s);
        assert_eq!(parse_u8(s), s.parse::<u8>().ok(), "{}", s);
    }
}

#[test]
fn parse_u8_bounds() {
    assert_eq!(parse_u8("255"), Some(255));
    assert_eq!(parse_u8("256"), None);
}

#[test]
fn to_u64_and_to_u8_convert() {
    assert_eq!(to_u64("1234567890123"), 1234567890123);
    assert_eq!(to_u8("+17"), 17);
}

#[test]
fn decimal_string_matches_to_string() {
    for n in [0u64, 7, 10, 99, 100, 1234567890, u64::MAX] {
        assert_eq!(decimal_string(n), n.to_string());
    }
}

#[test]
fn mention_round_trip() {
    for id in [0u64, 5, 123456789012345678, u64::MAX] {
        let m = format!("<@{}>", decimal_string(id));
        assert_eq!(parse_mention(&m), Some(id));
    }
}

#[test]
fn parse_mention_trims_and_strips_marks() {
    assert_eq!(parse_mention("  <@123>\t"), Some(123));
    assert_eq!(parse_mention("@@<12>>"), Some(12));
    assert_eq!(parse_mention("\u{3000}77\u{a0}"), Some(77));
    assert_eq!(parse_mention("<@!123>"), None);
    assert_eq!(parse_mention("abc"), None);
    assert_eq!(parse_mention(""), None);
}

#[test]
fn contains_finds_substrings() {
    assert!(contains("hello pot world", "pot"));
    assert!(contains("abc", ""));
    assert!(!contains("po t", "pot"));
    assert!(!contains("", "a"));
}
