use json_parser::string::{parse_string, parse_utf8_hex};
use json_parser::Json;

#[test]
fn test_parse_unicode_valid_ascii() {
    // 'A'
    assert_eq!(parse_utf8_hex("0041"), Some('A'));
}

#[test]
fn test_parse_utf8_hex_valid_bmp() {
    // 'Ω'; characters past the four digits are ignored
    assert_eq!(parse_utf8_hex("03A9tail"), Some('Ω'));
}

#[test]
fn test_parse_utf8_hex_valid_bmp_lowercase() {
    // 'Ω'
    assert_eq!(parse_utf8_hex("03a9tail"), Some('Ω'));
}

#[test]
fn test_parse_utf8_hex_invalid_empty() {
    assert_eq!(parse_utf8_hex(""), None);
}

#[test]
fn test_parse_utf8_hex_invalid_short() {
    assert_eq!(parse_utf8_hex("41"), None);
}

#[test]
fn test_parse_utf8_hex_invalid_nonhex() {
    assert_eq!(parse_utf8_hex("ZZZZ"), None);
}

#[test]
fn test_parse_string_valid() {
    let valid = "\"field\"   ";
    let (field, tail) = parse_string(valid).unwrap();
    assert_eq!(field, Json::JsonString("field".to_string()));
    assert_eq!(tail, "   ");
}

#[test]
fn test_parse_string_valid_escape_characters() {
    let valid = "\"line\\nbreak\\tand\\tescape\\\\quote\\\"end\" rest";
    let (parsed, tail) = parse_string(valid).unwrap();
    assert_eq!(
        parsed,
        Json::JsonString("line\nbreak\tand\tescape\\quote\"end".to_string())
    );
    assert_eq!(tail, " rest");
}

#[test]
fn test_parse_string_valid_utf8_hex() {
    let valid = "\"Omega: \\u03A9, A: \\u0041, smile: \\u263A!\" next";
    let (parsed, tail) = parse_string(valid).unwrap();
    assert_eq!(
        parsed,
        Json::JsonString("Omega: Ω, A: A, smile: ☺!".to_string())
    );
    assert_eq!(tail, " next");
}

#[test]
fn test_parse_string_valid_empty() {
    let valid = "\"\"";
    let (field, tail) = parse_string(valid).unwrap();
    assert_eq!(field, Json::JsonString("".to_string()));
    assert_eq!(tail, "");
}

#[test]
fn test_parse_string_invalid_empty() {
    let invalid = "";
    assert!(parse_string(invalid).is_err());
}

#[test]
fn test_parse_string_invalid() {
    // Unterminated string
    let invalid = "\"abc\\u0041";
    assert!(parse_string(invalid).is_err());

    // Invalid escape
    let invalid2 = "\"bad\\xescape\"";
    assert!(parse_string(invalid2).is_err());

    // Invalid unicode
    let invalid3 = "\"bad\\uZZZZ\"";
    assert!(parse_string(invalid3).is_err());
}
