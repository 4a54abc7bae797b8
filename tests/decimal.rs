use trading_core::decimal::parse_fixed;
use trading_core::types::SCALE;

#[test]
fn parses_exchange_decimals() {
    assert_eq!(parse_fixed("123.45000000"), Some(12_345_000_000));
    assert_eq!(parse_fixed("0.00012345"), Some(12_345));
    assert_eq!(parse_fixed("42"), Some(42 * SCALE));
    assert_eq!(parse_fixed("7."), Some(7 * SCALE));
    assert_eq!(parse_fixed("-0.5"), Some(-SCALE / 2));
    assert_eq!(parse_fixed("1.123456789"), Some(112_345_678));
}

#[test]
fn rejects_other_text() {
    assert_eq!(parse_fixed(""), None);
    assert_eq!(parse_fixed("-"), None);
    assert_eq!(parse_fixed(".5"), None);
    assert_eq!(parse_fixed("1.2.3"), None);
    assert_eq!(parse_fixed("12a"), None);
    assert_eq!(parse_fixed("1e-5"), None);
    assert_eq!(parse_fixed(" 1"), None);
}

#[test]
fn rejects_values_out_of_range() {
    assert_eq!(parse_fixed("92233720368"), Some(9_223_372_036_800_000_000));
    assert_eq!(parse_fixed("92233720369"), None);
    assert_eq!(parse_fixed("92233720368.54775807"), Some(i64::MAX));
    assert_eq!(parse_fixed("92233720368.54775808"), None);
    assert_eq!(parse_fixed("99999999999999999999999"), None);
}
