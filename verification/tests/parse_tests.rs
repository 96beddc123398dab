use signal_stream::errors::SignalError;
use signal_stream::parse::parse_field;

fn field(s: &str) -> Vec<u8> {
    s.as_bytes().to_vec()
}

#[test]
fn parse_plain_integer() {
    assert_eq!(parse_field(&field("1")), Ok(1_000_000));
    assert_eq!(parse_field(&field("42")), Ok(42_000_000));
    assert_eq!(parse_field(&field("0")), Ok(0));
}

#[test]
fn parse_signs() {
    assert_eq!(parse_field(&field("-0.5")), Ok(-500_000));
    assert_eq!(parse_field(&field("+2.25")), Ok(2_250_000));
    assert_eq!(parse_field(&field("-3")), Ok(-3_000_000));
}

#[test]
fn parse_fraction_padding() {
    assert_eq!(parse_field(&field("3.14")), Ok(3_140_000));
    assert_eq!(parse_field(&field("0.1")), Ok(100_000));
    assert_eq!(parse_field(&field("5.000001")), Ok(5_000_001));
}

#[test]
fn parse_fraction_truncates_past_sixth_digit() {
    assert_eq!(parse_field(&field("0.1234567")), Ok(123_456));
    assert_eq!(parse_field(&field("0.9999999")), Ok(999_999));
}

#[test]
fn parse_trailing_dot_keeps_integer() {
    assert_eq!(parse_field(&field("7.")), Ok(7_000_000));
}

#[test]
fn parse_rejects_garbage() {
    assert_eq!(parse_field(&field("")), Err(SignalError::ParseError));
    assert_eq!(parse_field(&field("abc")), Err(SignalError::ParseError));
    assert_eq!(parse_field(&field("1.2.3")), Err(SignalError::ParseError));
    assert_eq!(parse_field(&field("1e3")), Err(SignalError::ParseError));
    assert_eq!(parse_field(&field(".5")), Err(SignalError::ParseError));
    assert_eq!(parse_field(&field("-")), Err(SignalError::ParseError));
    assert_eq!(parse_field(&field("1 2")), Err(SignalError::ParseError));
}

#[test]
fn parse_rejects_more_than_twelve_integer_digits() {
    assert_eq!(parse_field(&field("999999999999")), Ok(999_999_999_999_000_000));
    assert_eq!(parse_field(&field("1000000000000")), Err(SignalError::ParseError));
}
