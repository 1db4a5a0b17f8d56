use json_parser::number::parse_number;
use json_parser::Json;

fn num(j: &Json) -> f64 {
    if let Json::JsonNumber(t) = j {
        t.parse::<f64>().unwrap()
    } else {
        panic!("expected a number value")
    }
}

#[test]
fn test_parse_number_integer() {
    let input = "42 rest";
    let (val, tail) = parse_number(input).unwrap();
    assert_eq!(num(&val), 42.0);
    assert_eq!(tail, " rest");
}

#[test]
fn test_parse_number_negative_integer() {
    let input = "-123,";
    let (val, tail) = parse_number(input).unwrap();
    assert_eq!(num(&val), -123.0);
    assert_eq!(tail, ",");
}

#[test]
fn test_parse_number_zero() {
    let input = "0]";
    let (val, tail) = parse_number(input).unwrap();
    assert_eq!(num(&val), 0.0);
    assert_eq!(tail, "]");
}

#[test]
fn test_parse_number_leading_zero_float() {
    let input = "0.123}";
    let (val, tail) = parse_number(input).unwrap();
    assert_eq!(num(&val), 0.123);
    assert_eq!(tail, "}");
}

#[test]
fn test_parse_number_float() {
    let input = "-12.34 ";
    let (val, tail) = parse_number(input).unwrap();
    assert_eq!(num(&val), -12.34);
    assert_eq!(tail, " ");
}

#[test]
fn test_parse_number_exponent() {
    let input = "6.022e23,";
    let (val, tail) = parse_number(input).unwrap();
    assert_eq!(num(&val), 6.022e23);
    assert_eq!(tail, ",");
}

#[test]
fn test_parse_number_exponent_negative() {
    let input = "1e-10]";
    let (val, tail) = parse_number(input).unwrap();
    assert_eq!(num(&val), 1e-10);
    assert_eq!(tail, "]");
}

#[test]
fn test_parse_number_exponent_positive_sign() {
    let input = "2E+2 ";
    let (val, tail) = parse_number(input).unwrap();
    assert_eq!(num(&val), 200.0);
    assert_eq!(tail, " ");
}

#[test]
fn test_parse_number_only_minus() {
    let input = "- rest";
    assert!(parse_number(input).is_err());
}

#[test]
fn test_parse_number_invalid_letter() {
    let input = "a0123";
    assert!(parse_number(input).is_err());
}

#[test]
fn test_parse_number_invalid_leading_zero() {
    let input = "0123";
    assert!(parse_number(input).is_err());
}

#[test]
fn test_parse_number_invalid_leading_exponent() {
    let input = "e0123";
    assert!(parse_number(input).is_err());
}

#[test]
fn test_parse_number_invalid_leading_dot() {
    let input = ".123";
    assert!(parse_number(input).is_err());
}

#[test]
fn test_parse_number_invalid_double_dot() {
    let input = "1..2";
    assert!(parse_number(input).is_err());
}

#[test]
fn test_parse_number_invalid_exponent() {
    let input = "1e";
    assert!(parse_number(input).is_err());
}

#[test]
fn test_parse_number_invalid_inf() {
    let input = "inf";
    assert!(parse_number(input).is_err());
}

#[test]
fn test_parse_number_invalid_ninf() {
    let input = "ninf";
    assert!(parse_number(input).is_err());
}

#[test]
fn test_parse_number_invalid_nan() {
    let input = "NaN";
    assert!(parse_number(input).is_err());
}
