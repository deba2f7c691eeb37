use roca::errors::Errors;
use roca::numbers::parse_i64;

#[test]
fn parse_plain_and_signed() {
    assert_eq!(parse_i64("12").unwrap(), 12);
    assert_eq!(parse_i64("-5").unwrap(), -5);
    assert_eq!(parse_i64("+7").unwrap(), 7);
    assert_eq!(parse_i64("0").unwrap(), 0);
    assert_eq!(parse_i64("007").unwrap(), 7);
}

#[test]
fn parse_bounds() {
    assert_eq!(parse_i64("9223372036854775807").unwrap(), i64::MAX);
    assert_eq!(parse_i64("-9223372036854775808").unwrap(), i64::MIN);
    assert!(matches!(
        parse_i64("9223372036854775808"),
        Err(Errors::ParseInt(_))
    ));
    assert!(matches!(
        parse_i64("-9223372036854775809"),
        Err(Errors::ParseInt(_))
    ));
}

#[test]
fn parse_rejects_non_numerals() {
    assert!(matches!(parse_i64(""), Err(Errors::ParseInt(_))));
    assert!(matches!(parse_i64("-"), Err(Errors::ParseInt(_))));
    assert!(matches!(parse_i64("+"), Err(Errors::ParseInt(_))));
    assert!(matches!(parse_i64("12.5"), Err(Errors::ParseInt(_))));
    assert!(matches!(parse_i64("abc"), Err(Errors::ParseInt(_))));
    assert!(matches!(parse_i64(" 12"), Err(Errors::ParseInt(_))));
    assert!(matches!(parse_i64("1 2"), Err(Errors::ParseInt(_))));
}
