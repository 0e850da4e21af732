use beepee::decimal::{r32_from_decimal, ParseRationalError};
use beepee::intparse::{parse_i32, parse_i64, IntParseError};
use beepee::rational::Rational;

fn parts(text: &str) -> (i32, i32) {
    let v = r32_from_decimal(text).unwrap();
    (v.numer(), v.denom())
}

fn malformed(text: &str) -> bool {
    r32_from_decimal(text) == Err(ParseRationalError::MalformedDecimal)
}

#[test]
fn parse_whole_numbers() {
    assert_eq!(parts("0"), (0, 1));
    assert_eq!(parts("42"), (42, 1));
    assert_eq!(parts("007"), (7, 1));
}

#[test]
fn parse_signs() {
    assert_eq!(parts("+5"), (5, 1));
    assert_eq!(parts("-5"), (-5, 1));
    assert_eq!(parts("-0.5"), (-1, 2));
    assert_eq!(parts("-0"), (0, 1));
}

#[test]
fn parse_fractions() {
    assert_eq!(parts("12.34"), (617, 50));
    assert_eq!(parts("72.50"), (145, 2));
    assert_eq!(parts("0.125"), (1, 8));
    assert_eq!(parts("36.6"), (183, 5));
    assert_eq!(parts("1.0"), (1, 1));
}

#[test]
fn parse_rejects_the_empty_string() {
    assert!(malformed(""));
}

#[test]
fn parse_rejects_a_sign_alone() {
    assert!(malformed("-"));
    assert!(malformed("+"));
}

#[test]
fn parse_rejects_two_points() {
    assert!(malformed("1.2.3"));
    assert!(malformed("1..2"));
}

#[test]
fn parse_rejects_missing_digits_around_the_point() {
    assert!(malformed(".5"));
    assert!(malformed("5."));
    assert!(malformed("."));
    assert!(malformed("-.5"));
}

#[test]
fn parse_rejects_other_characters() {
    assert!(malformed("12a"));
    assert!(malformed(" 12"));
    assert!(malformed("12 "));
    assert!(malformed("1,5"));
    assert!(malformed("1e5"));
    assert!(malformed("1-2"));
    assert!(malformed("--1"));
    assert!(malformed("١٢"));
}

#[test]
fn parse_rejects_a_scale_that_cannot_be_stored() {
    // ten digits after the point: the scale 10^10 is too great
    assert!(malformed("0.0000000001"));
    assert!(malformed("1.5000000000"));
    // nine digits are the most
    assert_eq!(parts("0.000000001"), (1, 1_000_000_000));
}

#[test]
fn parse_rejects_digits_that_cannot_be_stored() {
    assert!(malformed("2147483648"));
    assert!(malformed("-2147483649"));
    assert!(malformed("214748364.8"));
    assert!(malformed("99999999999999999999999999"));
    assert_eq!(parts("2147483647"), (i32::MAX, 1));
    assert_eq!(parts("-2147483648"), (i32::MIN, 1));
}

#[test]
fn write_whole_numbers() {
    assert_eq!(Rational::from_integer(0).to_decimal_string(), "0");
    assert_eq!(Rational::from_integer(5).to_decimal_string(), "5");
    assert_eq!(Rational::from_integer(-120).to_decimal_string(), "-120");
    assert_eq!(Rational::from_integer(i32::MIN).to_decimal_string(), "-2147483648");
}

#[test]
fn write_ending_fractions_exactly() {
    assert_eq!(Rational::new(617, 50).unwrap().to_decimal_string(), "12.34");
    assert_eq!(Rational::new(-1, 4).unwrap().to_decimal_string(), "-0.25");
    assert_eq!(Rational::new(1, 8).unwrap().to_decimal_string(), "0.125");
    assert_eq!(Rational::new(1, 1_000_000_000).unwrap().to_decimal_string(), "0.000000001");
    assert_eq!(
        Rational::new(1, 1 << 30).unwrap().to_decimal_string(),
        "0.000000000931322574615478515625"
    );
}

#[test]
fn write_cuts_off_endless_fractions() {
    assert_eq!(
        Rational::new(1, 3).unwrap().to_decimal_string(),
        "0.333333333333333333333333333333"
    );
    assert_eq!(
        Rational::new(-2, 3).unwrap().to_decimal_string(),
        "-0.666666666666666666666666666666"
    );
    assert_eq!(
        Rational::new(3625, 162).unwrap().to_decimal_string(),
        "22.376543209876543209876543209876"
    );
}

#[test]
fn parse_then_write_keeps_the_value() {
    let cases = [
        ("12.34", "12.34"),
        ("12.340", "12.34"),
        ("+012.3400", "12.34"),
        ("-0.50", "-0.5"),
        ("0.0", "0"),
        ("-0", "0"),
        ("100", "100"),
        ("36.6", "36.6"),
        ("0.000000001", "0.000000001"),
    ];
    for (text, written) in cases.iter() {
        let v = r32_from_decimal(text).unwrap();
        assert_eq!(&v.to_decimal_string(), written);
        assert_eq!(r32_from_decimal(&v.to_decimal_string()), Ok(v));
    }
}

#[test]
fn read_whole_numbers_of_32_bits() {
    assert_eq!(parse_i32("0"), Ok(0));
    assert_eq!(parse_i32("+7"), Ok(7));
    assert_eq!(parse_i32("-0"), Ok(0));
    assert_eq!(parse_i32("007"), Ok(7));
    assert_eq!(parse_i32("2147483647"), Ok(i32::MAX));
    assert_eq!(parse_i32("-2147483648"), Ok(i32::MIN));
}

#[test]
fn read_whole_numbers_of_64_bits() {
    assert_eq!(parse_i64("9223372036854775807"), Ok(i64::MAX));
    assert_eq!(parse_i64("-9223372036854775808"), Ok(i64::MIN));
    assert_eq!(parse_i64("-12"), Ok(-12));
}

#[test]
fn whole_number_of_an_empty_string() {
    assert_eq!(parse_i32(""), Err(IntParseError::Empty));
    assert_eq!(parse_i64(""), Err(IntParseError::Empty));
}

#[test]
fn whole_number_with_an_invalid_digit() {
    assert_eq!(parse_i32("+"), Err(IntParseError::InvalidDigit));
    assert_eq!(parse_i32("-"), Err(IntParseError::InvalidDigit));
    assert_eq!(parse_i32("12x"), Err(IntParseError::InvalidDigit));
    assert_eq!(parse_i32(" 12"), Err(IntParseError::InvalidDigit));
    assert_eq!(parse_i32("1_000"), Err(IntParseError::InvalidDigit));
    assert_eq!(parse_i32("1.5"), Err(IntParseError::InvalidDigit));
    assert_eq!(parse_i64("12 "), Err(IntParseError::InvalidDigit));
}

#[test]
fn whole_number_too_great() {
    assert_eq!(parse_i32("2147483648"), Err(IntParseError::PosOverflow));
    assert_eq!(parse_i32("99999999999999999999999999999999999999999"), Err(IntParseError::PosOverflow));
    assert_eq!(parse_i64("9223372036854775808"), Err(IntParseError::PosOverflow));
}

#[test]
fn whole_number_too_small() {
    assert_eq!(parse_i32("-2147483649"), Err(IntParseError::NegOverflow));
    assert_eq!(parse_i64("-9223372036854775809"), Err(IntParseError::NegOverflow));
}

#[test]
fn whole_numbers_agree_with_std() {
    let texts = ["0", "-1", "+15", "0099", "2147483647", "-2147483648", "123456"];
    for text in texts.iter() {
        assert_eq!(parse_i32(text).ok(), text.parse::<i32>().ok());
        assert_eq!(parse_i64(text).ok(), text.parse::<i64>().ok());
    }
    let refused = ["", "+", "-", "1 ", "a", "2147483648", "-2147483649", "1.0", "+-1"];
    for text in refused.iter() {
        assert_eq!(parse_i32(text).is_ok(), text.parse::<i32>().is_ok());
    }
}
