use owm_client::decimal::{format_fixed, parse_fixed, pow10_exec};

#[test]
fn parse_plain_fraction() {
    assert_eq!(parse_fixed("50.846558", 7, 900_000_000), Some(508_465_580));
    assert_eq!(parse_fixed("4.351697", 7, 1_800_000_000), Some(43_516_970));
}

#[test]
fn parse_integer_without_dot() {
    assert_eq!(parse_fixed("50", 7, 900_000_000), Some(500_000_000));
    assert_eq!(parse_fixed("0", 7, 900_000_000), Some(0));
}

#[test]
fn parse_negative() {
    assert_eq!(parse_fixed("-12.5", 7, 900_000_000), Some(-125_000_000));
    assert_eq!(parse_fixed("-0", 7, 900_000_000), Some(0));
}

#[test]
fn parse_truncates_extra_digits_toward_zero() {
    assert_eq!(parse_fixed("0.123456789", 7, 900_000_000), Some(1_234_567));
    assert_eq!(parse_fixed("-0.123456789", 7, 900_000_000), Some(-1_234_567));
}

#[test]
fn parse_scale_zero() {
    assert_eq!(parse_fixed("7", 0, 9_999), Some(7));
    assert_eq!(parse_fixed("7.9", 0, 9_999), Some(7));
}

#[test]
fn parse_rejects_malformed_text() {
    assert_eq!(parse_fixed("", 7, 900_000_000), None);
    assert_eq!(parse_fixed("-", 7, 900_000_000), None);
    assert_eq!(parse_fixed("5.", 7, 900_000_000), None);
    assert_eq!(parse_fixed(".5", 7, 900_000_000), None);
    assert_eq!(parse_fixed("1.2.3", 7, 900_000_000), None);
    assert_eq!(parse_fixed("abc", 7, 900_000_000), None);
    assert_eq!(parse_fixed("+5", 7, 900_000_000), None);
    assert_eq!(parse_fixed("1e5", 7, 900_000_000), None);
    assert_eq!(parse_fixed(" 50", 7, 900_000_000), None);
}

#[test]
fn parse_enforces_limit() {
    assert_eq!(parse_fixed("90", 7, 900_000_000), Some(900_000_000));
    assert_eq!(parse_fixed("90.0000001", 7, 900_000_000), None);
    assert_eq!(parse_fixed("-90.0000001", 7, 900_000_000), None);
    assert_eq!(parse_fixed("12345", 7, 900_000_000), None);
}

#[test]
fn format_pads_fraction() {
    assert_eq!(format_fixed(508_465_580, 7), "50.8465580");
    assert_eq!(format_fixed(43_516_970, 7), "4.3516970");
    assert_eq!(format_fixed(-125_000_000, 7), "-12.5000000");
    assert_eq!(format_fixed(0, 7), "0.0000000");
    assert_eq!(format_fixed(7, 0), "7");
}

#[test]
fn format_then_parse_returns_the_value() {
    for v in [0i64, 1, -1, 508_465_580, -900_000_000, 900_000_000, 43_516_970] {
        let text = format_fixed(v, 7);
        assert_eq!(parse_fixed(&text, 7, 900_000_000_0), Some(v));
    }
}

#[test]
fn powers_of_ten() {
    assert_eq!(pow10_exec(0), 1);
    assert_eq!(pow10_exec(2), 100);
    assert_eq!(pow10_exec(7), 10_000_000);
}
