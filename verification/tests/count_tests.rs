use sprite_painter::{count_or, parse_i32};

#[test]
fn plain_and_signed_numbers() {
    assert_eq!(parse_i32(b"42"), Some(42));
    assert_eq!(parse_i32(b"+7"), Some(7));
    assert_eq!(parse_i32(b"-12"), Some(-12));
    assert_eq!(parse_i32(b"00012"), Some(12));
    assert_eq!(parse_i32(b"-0"), Some(0));
}

#[test]
fn i32_limits() {
    assert_eq!(parse_i32(b"2147483647"), Some(i32::MAX));
    assert_eq!(parse_i32(b"-2147483648"), Some(i32::MIN));
    assert_eq!(parse_i32(b"2147483648"), None);
    assert_eq!(parse_i32(b"-2147483649"), None);
    assert_eq!(parse_i32(b"99999999999999999999"), None);
}

#[test]
fn malformed_text() {
    assert_eq!(parse_i32(b""), None);
    assert_eq!(parse_i32(b"-"), None);
    assert_eq!(parse_i32(b"+"), None);
    assert_eq!(parse_i32(b"12a"), None);
    assert_eq!(parse_i32(b" 12"), None);
    assert_eq!(parse_i32(b"+-1"), None);
    assert_eq!(parse_i32(b"1_000"), None);
}

#[test]
fn same_as_std_parse() {
    for text in ["0", "15", "-3", "+2147483647", "2147483648", "x", "", "--1", "007", "-2147483648", "٣"] {
        assert_eq!(parse_i32(text.as_bytes()), text.parse::<i32>().ok(), "{}", text);
    }
}

#[test]
fn default_when_not_a_number() {
    assert_eq!(count_or(b"25", 10), 25);
    assert_eq!(count_or(b"abc", 10), 10);
    assert_eq!(count_or(b"", 10), 10);
    assert_eq!(count_or(b"-5", 10), -5);
}
