use lsbasi::{parse_number, ErrorKind, Token, Type};

#[test]
fn parsing_number() {
    let token = Token {
        kind: Type::Integer,
        value: Some("0123456789".into()),
    };
    let value = parse_number(&token);

    assert_eq!(value.is_ok(), true);
    assert_eq!(value.ok(), Some(123456789));
}

fn non_integer(kind: Type) {
    let token = Token { kind, value: None };
    let err = parse_number(&token);
    assert_eq!(err.is_err(), true);
    assert_eq!(err.unwrap_err().kind(), ErrorKind::ExpectedOperand);
}

#[test]
fn parse_add() {
    non_integer(Type::Plus);
}

#[test]
fn parse_sub() {
    non_integer(Type::Minus);
}

#[test]
fn parse_mul() {
    non_integer(Type::Mul);
}

#[test]
fn parse_div() {
    non_integer(Type::Div);
}

#[test]
fn parse_eof() {
    non_integer(Type::Eof);
}

#[test]
fn parse_whitespace() {
    non_integer(Type::Whitespace);
}

#[test]
fn parse_none_value() {
    let token = Token {
        kind: Type::Integer,
        value: None,
    };
    let value = parse_number(&token);

    assert_eq!(value.is_err(), true);
}

#[test]
fn parse_wrong_value() {
    let token = Token {
        kind: Type::Integer,
        value: Some("abc".into()),
    };
    let value = parse_number(&token);

    assert_eq!(value.is_err(), true);
}

#[test]
fn parse_signed_or_empty_text_is_invalid() {
    for text in ["-5", "+5", "", "1 2"] {
        let token = Token { kind: Type::Integer, value: Some(text.into()) };
        assert_eq!(parse_number(&token).unwrap_err().kind(), ErrorKind::InvalidNumber);
    }
}

#[test]
fn parse_largest_and_too_large() {
    let token = Token { kind: Type::Integer, value: Some("9223372036854775807".into()) };
    assert_eq!(parse_number(&token).unwrap(), i64::MAX);
    let token = Token { kind: Type::Integer, value: Some("9223372036854775808".into()) };
    assert_eq!(parse_number(&token).unwrap_err().kind(), ErrorKind::IntegerOverflow);
    let token = Token { kind: Type::Integer, value: Some("99999999999999999999x".into()) };
    assert_eq!(parse_number(&token).unwrap_err().kind(), ErrorKind::InvalidNumber);
}
