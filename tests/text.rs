use terminalclustering::text::{decimal_string, parse_decimal};

#[test]
fn decimal_texts() {
    assert_eq!(decimal_string(0), "0");
    assert_eq!(decimal_string(7), "7");
    assert_eq!(decimal_string(1234), "1234");
    assert_eq!(decimal_string(u64::MAX), "18446744073709551615");
}

#[test]
fn decimal_parsing() {
    assert_eq!(parse_decimal("42"), Some(42));
    assert_eq!(parse_decimal("007"), Some(7));
    assert_eq!(parse_decimal("18446744073709551615"), Some(u64::MAX));
    assert_eq!(parse_decimal("18446744073709551616"), None);
    assert_eq!(parse_decimal(""), None);
    assert_eq!(parse_decimal("+4"), None);
    assert_eq!(parse_decimal("4a"), None);
}
