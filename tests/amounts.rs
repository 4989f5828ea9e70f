use abacus::amount::{mul_scaled, parse_decimal, whole_units, SCALE};

#[test]
fn decimal_text_reads_exactly() {
    assert_eq!(parse_decimal("1000"), Some(1_000_000_000));
    assert_eq!(parse_decimal("0.00125"), Some(1_250));
    assert_eq!(parse_decimal("-20.5"), Some(-20_500_000));
    assert_eq!(parse_decimal("390.50"), Some(390_500_000));
    assert_eq!(parse_decimal("-0"), Some(0));
    assert_eq!(parse_decimal("0.1234567"), Some(123_456));
    assert_eq!(parse_decimal("999999999999.999999"), Some(999_999_999_999_999_999));
}

#[test]
fn decimal_text_rejects_other_shapes() {
    assert_eq!(parse_decimal(""), None);
    assert_eq!(parse_decimal("-"), None);
    assert_eq!(parse_decimal("1e5"), None);
    assert_eq!(parse_decimal("1."), None);
    assert_eq!(parse_decimal(".5"), None);
    assert_eq!(parse_decimal("1.2.3"), None);
    assert_eq!(parse_decimal("NaN"), None);
    assert_eq!(parse_decimal("inf"), None);
    assert_eq!(parse_decimal("1234567890123"), None);
    assert_eq!(parse_decimal("+5"), None);
}

#[test]
fn whole_numbers_in_millionths() {
    assert_eq!(whole_units(20), Some(20 * SCALE));
    assert_eq!(whole_units(-7), Some(-7 * SCALE));
    assert_eq!(whole_units(999_999_999_999), Some(999_999_999_999 * SCALE));
    assert_eq!(whole_units(1_000_000_000_000), None);
}

#[test]
fn fixed_point_products() {
    assert_eq!(mul_scaled(500_000, 40_000 * SCALE as i128), Some(20_000 * SCALE as i128));
    assert_eq!(mul_scaled(-1_500_000, 1_500_000), Some(-2_250_000));
    assert_eq!(mul_scaled(1, 1), Some(0));
    assert_eq!(mul_scaled(-1, 1), Some(0));
    assert_eq!(mul_scaled(i128::MAX, 2), None);
}
