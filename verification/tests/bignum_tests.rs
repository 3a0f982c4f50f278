use adex_market::BigNum;
use adex_market::DecodeError;
use adex_market::MathError;

#[test]
fn parse_and_format_round_trip_value() {
    let n = BigNum::parse("12345").unwrap();
    assert_eq!(n.format(), "12345");
}

#[test]
fn parse_drops_leading_zeros() {
    let a = BigNum::parse("0042").unwrap();
    let b = BigNum::parse("42").unwrap();
    assert_eq!(a.format(), b.format());
    assert_eq!(a.format(), "42");
}

#[test]
fn parse_all_zeros_is_zero() {
    let n = BigNum::parse("0000").unwrap();
    assert_eq!(n.format(), "0");
    assert!(n.is_zero());
}

#[test]
fn parse_rejects_empty_string() {
    assert_eq!(BigNum::parse(""), Err(DecodeError::NotADecimalInteger));
}

#[test]
fn parse_rejects_non_digits() {
    assert!(BigNum::parse("12a3").is_err());
    assert!(BigNum::parse("-5").is_err());
    assert!(BigNum::parse("1.5").is_err());
    assert!(BigNum::parse(" 1").is_err());
}

#[test]
fn add_is_exact_beyond_machine_words() {
    // 2^128 + 1, which no primitive integer holds
    let a = BigNum::parse("340282366920938463463374607431768211456").unwrap();
    let b = BigNum::parse("1").unwrap();
    assert_eq!(a.add(&b).format(), "340282366920938463463374607431768211457");
}

#[test]
fn multiply_scales_exactly() {
    let a = BigNum::parse("184467440737095516160").unwrap();
    assert_eq!(a.multiply(100000).format(), "18446744073709551616000000");
}

#[test]
fn floor_div_truncates() {
    let a = BigNum::parse("7").unwrap();
    let b = BigNum::parse("2").unwrap();
    assert_eq!(a.floor_div(&b).unwrap().format(), "3");
}

#[test]
fn floor_div_by_zero_is_an_error() {
    let a = BigNum::parse("7").unwrap();
    let z = BigNum::zero();
    assert_eq!(a.floor_div(&z).unwrap_err(), MathError::DivisionByZero);
}

#[test]
fn lt_compares_numerically_not_lexically() {
    let a = BigNum::parse("9").unwrap();
    let b = BigNum::parse("10").unwrap();
    assert!(a.lt(&b));
    assert!(!b.lt(&a));
}

#[test]
fn sum_adds_all_entries() {
    let xs = vec![
        BigNum::parse("1").unwrap(),
        BigNum::parse("20").unwrap(),
        BigNum::parse("300").unwrap(),
    ];
    assert_eq!(BigNum::sum(&xs).format(), "321");
}

#[test]
fn from_u64_and_to_u64_round_trip() {
    let n = BigNum::from_u64(18446744073709551615);
    assert_eq!(n.format(), "18446744073709551615");
    assert_eq!(n.to_u64(), 18446744073709551615);
}

#[test]
fn zero_formats_as_single_digit() {
    assert_eq!(BigNum::zero().format(), "0");
}
