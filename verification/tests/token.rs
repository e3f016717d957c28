use plotka::token::{parse_int_token, parse_number_token};
use plotka::RawValue;

#[test]
fn int_tokens_parse_exactly_like_integer_literals() {
    assert_eq!(parse_int_token("0"), Some(0));
    assert_eq!(parse_int_token("42"), Some(42));
    assert_eq!(parse_int_token("-42"), Some(-42));
    assert_eq!(parse_int_token("+5"), Some(5));
    assert_eq!(parse_int_token("007"), Some(7));
    assert_eq!(parse_int_token("9223372036854775807"), Some(i64::MAX));
    assert_eq!(parse_int_token("-9223372036854775808"), Some(i64::MIN));
}

#[test]
fn non_int_tokens_are_rejected() {
    assert_eq!(parse_int_token(""), None);
    assert_eq!(parse_int_token("-"), None);
    assert_eq!(parse_int_token("+"), None);
    assert_eq!(parse_int_token("1.5"), None);
    assert_eq!(parse_int_token("1e3"), None);
    assert_eq!(parse_int_token("abc"), None);
    assert_eq!(parse_int_token(" 1"), None);
    assert_eq!(parse_int_token("9223372036854775808"), None);
    assert_eq!(parse_int_token("-9223372036854775809"), None);
    assert_eq!(parse_int_token("99999999999999999999999999"), None);
}

#[test]
fn tokens_classify_as_int_before_float() {
    match parse_number_token("12") {
        RawValue::Int(v) => assert_eq!(v, 12),
        RawValue::Pending(_) => panic!("an integer token must become Int"),
    }

    match parse_number_token("2.5") {
        RawValue::Pending(t) => assert_eq!(t, "2.5"),
        RawValue::Int(_) => panic!("a non-integer token must stay pending"),
    }

    match parse_number_token("9223372036854775808") {
        RawValue::Pending(t) => assert_eq!(t, "9223372036854775808"),
        RawValue::Int(_) => panic!("an out-of-range token must stay pending"),
    }
}
