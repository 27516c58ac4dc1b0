use wallet_lib::decimal::{cents_to_text, parse_cents, pad2_text, pad4_text, u64_text};

#[test]
fn test_u64_text() {
    assert_eq!("0", u64_text(0));
    assert_eq!("7", u64_text(7));
    assert_eq!("42", u64_text(42));
    assert_eq!("10500", u64_text(10500));
}

#[test]
fn test_padded_text() {
    assert_eq!("00", pad2_text(0));
    assert_eq!("09", pad2_text(9));
    assert_eq!("99", pad2_text(99));
    assert_eq!("0042", pad4_text(42));
    assert_eq!("1987", pad4_text(1987));
}

#[test]
fn test_cents_to_text() {
    assert_eq!("0.00", cents_to_text(0));
    assert_eq!("0.05", cents_to_text(5));
    assert_eq!("-0.05", cents_to_text(-5));
    assert_eq!("123.40", cents_to_text(12340));
    assert_eq!("-9876.01", cents_to_text(-987601));
}

#[test]
fn test_parse_cents() {
    assert_eq!(Some(3000), parse_cents("30"));
    assert_eq!(Some(0), parse_cents("0"));
    assert_eq!(Some(130), parse_cents("1.3"));
    assert_eq!(Some(123), parse_cents("1.23"));
    assert_eq!(Some(-123), parse_cents("-1.23"));
    assert_eq!(Some(-500), parse_cents("-5"));
    assert_eq!(None, parse_cents(""));
    assert_eq!(None, parse_cents("abc"));
    assert_eq!(None, parse_cents("1."));
    assert_eq!(None, parse_cents("1.234"));
    assert_eq!(None, parse_cents("--1"));
    assert_eq!(None, parse_cents("12345678901234"));
    assert_eq!(Some(999_999_999_999_900), parse_cents("9999999999999"));
}

#[test]
fn test_parse_cents_round_trip() {
    for c in [0i64, 1, 99, 100, 12345, -1, -99, -12345] {
        let text = cents_to_text(c);
        assert_eq!(Some(c), parse_cents(&text));
    }
}
