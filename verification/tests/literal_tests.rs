use json_parser::literals::{parse_false, parse_null, parse_true};
use json_parser::{Json, JsonError};

#[test]
fn test_parse_true_valid() {
    let input = "true rest";
    let (val, tail) = parse_true(input).unwrap();
    assert_eq!(val, Json::JsonBoolean(true));
    assert_eq!(tail, " rest");
}

#[test]
fn test_parse_true_invalid() {
    let input = "truX";
    let err = parse_true(input).unwrap_err();
    assert!(matches!(err, JsonError::SyntaxError(_)));
}

#[test]
fn test_parse_true_invalid_postfix() {
    let input = "trueerr";
    let err = parse_true(input).unwrap_err();
    assert!(matches!(err, JsonError::SyntaxError(_)));
}

#[test]
fn test_parse_false_valid() {
    let input = "false next";
    let (val, tail) = parse_false(input).unwrap();
    assert_eq!(val, Json::JsonBoolean(false));
    assert_eq!(tail, " next");
}

#[test]
fn test_parse_false_invalid() {
    let input = "falsX";
    let err = parse_false(input).unwrap_err();
    assert!(matches!(err, JsonError::SyntaxError(_)));
}

#[test]
fn test_parse_false_invalid_postfix() {
    let input = "falseerr";
    let err = parse_false(input).unwrap_err();
    assert!(matches!(err, JsonError::SyntaxError(_)));
}

#[test]
fn test_parse_null_valid() {
    let input = "null,";
    let (val, tail) = parse_null(input).unwrap();
    assert_eq!(val, Json::JsonNull);
    assert_eq!(tail, ",");
}

#[test]
fn test_parse_null_invalid() {
    let input = "nulX";
    let err = parse_null(input).unwrap_err();
    assert!(matches!(err, JsonError::SyntaxError(_)));
}

#[test]
fn test_parse_null_invalid_postfix() {
    let input = "nullos";
    let err = parse_null(input).unwrap_err();
    assert!(matches!(err, JsonError::SyntaxError(_)));
}
