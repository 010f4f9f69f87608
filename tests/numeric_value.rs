use property_ranges::numeric_value::NumericValue;

#[test]
fn numeric_value_parses_empty_string_as_none() {
    let input = "";
    assert_eq!(NumericValue::parse(input).unwrap(), NumericValue::Absent);
}

#[test]
fn parses_integer() {
    let input = "123";
    assert_eq!(NumericValue::parse(input).unwrap(), NumericValue::Integer(123));

    let input = "-123";
    assert_eq!(NumericValue::parse(input).unwrap(), NumericValue::Integer(-123));
}

#[test]
fn parses_rational() {
    let input = "2/4";
    assert_eq!(NumericValue::parse(input).unwrap(), NumericValue::Rational(2, 4));

    let input = "-3/7";
    assert_eq!(NumericValue::parse(input).unwrap(), NumericValue::Rational(-3, 7));
}

#[test]
fn parses_integer_limits() {
    assert_eq!(NumericValue::parse("-9223372036854775808").unwrap(), NumericValue::Integer(i64::MIN));
    assert_eq!(NumericValue::parse("9223372036854775807").unwrap(), NumericValue::Integer(i64::MAX));
    assert!(NumericValue::parse("9223372036854775808").is_err());
    assert_eq!(NumericValue::parse("-2147483648/2147483647").unwrap(), NumericValue::Rational(i32::MIN, i32::MAX));
    assert!(NumericValue::parse("1/2147483648").is_err());
}

#[test]
fn errors_when_parsing_invalid_input() {
    fn check(input: &'static str, expected_error: &'static str) {
        match NumericValue::parse(input) {
            Err(message) => assert!(
                message.contains(expected_error),
                "expected Err({}) to contain `{}`",
                message,
                expected_error
            ),
            other => panic!("parsing {}: expected error with `{}`, was {:?}", input, expected_error, other),
        }
    }

    check("123x", "not a valid numeric value: `123x`");
    check("1/2x", "not a valid numeric value: `1/2x`");
    check("1x/2", "not a valid numeric value: `1x/2`");
}

#[test]
fn numeric_value_supports_to_string() {
    fn check(input: NumericValue, expected: &'static str) {
        assert_eq!(input.to_string(), expected);
        assert_eq!(NumericValue::parse(&input.to_string()).unwrap(), input);
    }
    check(NumericValue::Absent, "");
    check(NumericValue::Integer(123), "123");
    check(NumericValue::Integer(-123), "-123");
    check(NumericValue::Rational(2, 4), "2/4");
    check(NumericValue::Rational(-3, 6), "-3/6");
}
