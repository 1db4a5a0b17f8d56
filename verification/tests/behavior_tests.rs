use json_parser::number::parse_number;
use json_parser::{parse, Json, JsonError};

fn float_of(j: &Json) -> f64 {
    if let Json::JsonNumber(t) = j {
        t.parse::<f64>().unwrap()
    } else {
        panic!("expected a number value")
    }
}

#[test]
fn test_number_round_trip_values() {
    for (text, expected) in [
        ("0", 0.0_f64),
        ("-0.5", -0.5),
        ("6.022e23", 6.022e23),
        ("1e-10", 1e-10),
    ] {
        let (val, tail) = parse(text).unwrap();
        assert_eq!(tail, "");
        assert_eq!(float_of(&val), expected);
    }
}

#[test]
fn test_number_rejection_set() {
    for bad in [".5", "01", "1.", "1e", "1..2", "-", "NaN", "Infinity"] {
        let err = parse_number(bad).unwrap_err();
        assert!(matches!(err, JsonError::SyntaxError(_)));
        assert!(parse(bad).is_err());
    }
}

#[test]
fn test_string_escape_correctness() {
    let (val, tail) = parse("\"line\\nbreak\\tand\\\\quote\\\"end\"").unwrap();
    assert_eq!(tail, "");
    assert_eq!(val, Json::JsonString("line\nbreak\tand\\quote\"end".to_string()));

    let (val2, tail2) = parse("\"\\u03A9\\u0041\\u263A\"").unwrap();
    assert_eq!(tail2, "");
    assert_eq!(val2, Json::JsonString("ΩA☺".to_string()));
}

#[test]
fn test_structural_correctness() {
    let (val, tail) = parse(r#"{"a":1,"b":[1,2,3]}"#).unwrap();
    assert_eq!(tail, "");
    assert_eq!(float_of(&val.get_key("a")), 1.0);
    let b = val.get_key("b");
    if let Json::JsonArray(elements) = &b {
        assert_eq!(elements.len(), 3);
    } else {
        panic!("expected an array under 'b'");
    }
    assert_eq!(float_of(&b.get_index(0)), 1.0);
    assert_eq!(float_of(&b.get_index(1)), 2.0);
    assert_eq!(float_of(&b.get_index(2)), 3.0);
}

#[test]
fn test_trailing_comma_rejection() {
    for bad in ["[1,2,]", r#"{"a":1,}"#, "[,]"] {
        let err = parse(bad).unwrap_err();
        assert!(matches!(err, JsonError::SyntaxError(_)));
    }
}

#[test]
fn test_duplicate_key_last_write_wins() {
    let (val, tail) = parse(r#"{"a":1,"a":2}"#).unwrap();
    assert_eq!(tail, "");
    assert_eq!(float_of(&val.get_key("a")), 2.0);
    if let Json::JsonObject(entries) = &val {
        assert_eq!(entries.len(), 1);
    } else {
        panic!("expected an object");
    }
}

#[test]
fn test_whitespace_skipping_at_dispatch_only() {
    let (with_ws, tail_ws) = parse("   {} ").unwrap();
    let (bare, tail_bare) = parse("{}").unwrap();
    assert!(matches!(with_ws, Json::JsonObject(_)));
    assert!(matches!(bare, Json::JsonObject(_)));
    assert_eq!(tail_ws, " ");
    assert_eq!(tail_bare, "");
}

#[test]
fn test_empty_input_sentinel() {
    let (val, tail) = parse("").unwrap();
    assert_eq!(val, Json::JsonEmpty);
    assert_eq!(tail, "");
    let (val2, tail2) = parse("   ").unwrap();
    assert_eq!(val2, Json::JsonEmpty);
    assert_eq!(tail2, "");
}

#[test]
fn test_lenient_read_accessors() {
    let (obj, _) = parse(r#"{"a":1}"#).unwrap();
    assert_eq!(obj.get_key("missing"), Json::JsonEmpty);
    assert_eq!(obj.get_index(0), Json::JsonEmpty);
    let (arr, _) = parse("[1]").unwrap();
    assert_eq!(arr.get_index(5), Json::JsonEmpty);
    assert_eq!(arr.get_key("a"), Json::JsonEmpty);
    assert_eq!(Json::JsonNull.get_key("a"), Json::JsonEmpty);
}

#[test]
fn test_write_accessor_usage_errors() {
    let (mut arr, _) = parse("[1,2]").unwrap();
    assert!(arr.set_index(0, Json::JsonNull));
    assert_eq!(arr.get_index(0), Json::JsonNull);
    // out-of-bounds writes and writes through the wrong shape are refused
    assert!(!arr.set_index(5, Json::JsonNull));
    assert!(!arr.set_key("a", Json::JsonNull));
    let (mut obj, _) = parse(r#"{"a":1}"#).unwrap();
    assert!(obj.set_key("a", Json::JsonBoolean(true)));
    assert_eq!(obj.get_key("a"), Json::JsonBoolean(true));
    assert!(obj.set_key("b", Json::JsonNull));
    assert_eq!(obj.get_key("b"), Json::JsonNull);
    assert!(!obj.set_index(0, Json::JsonNull));
}

#[test]
fn test_constructors() {
    let mut obj = Json::new_object();
    assert!(matches!(obj, Json::JsonObject(_)));
    assert!(obj.set_key("k", Json::JsonBoolean(false)));
    assert_eq!(obj.get_key("k"), Json::JsonBoolean(false));
    let arr = Json::new_array();
    if let Json::JsonArray(elements) = &arr {
        assert!(elements.is_empty());
    } else {
        panic!("expected an array");
    }
}

#[test]
fn test_dump_round_and_defects() {
    let (val, _) = parse(r#"{"a":1,"b":[true,null,"x"]}"#).unwrap();
    assert_eq!(val.dump(), r#"{"a":1,"b":[true,null,"x"]}"#);
    // numbers keep their literal token verbatim
    let (num, _) = parse("6.022e23").unwrap();
    assert_eq!(num.dump(), "6.022e23");
    // the known defect: empty containers lose their opening delimiter
    assert_eq!(Json::new_object().dump(), "}");
    assert_eq!(Json::new_array().dump(), "]");
    // strings are not re-escaped
    let (s, _) = parse("\"a\\\"b\"").unwrap();
    assert_eq!(s.dump(), "\"a\"b\"");
    assert_eq!(Json::JsonEmpty.dump(), "");
    assert_eq!(Json::JsonNull.dump(), "null");
    assert_eq!(Json::JsonBoolean(true).dump(), "true");
    assert_eq!(Json::JsonBoolean(false).dump(), "false");
}

#[test]
fn test_from_text_lossy() {
    assert_eq!(Json::from_text("true"), Json::JsonBoolean(true));
    assert_eq!(Json::from_text("[1"), Json::JsonEmpty);
    assert_eq!(Json::from_text("null tail-is-discarded"), Json::JsonNull);
}

#[test]
fn test_error_kinds() {
    // lexical: malformed escapes inside a token
    assert!(matches!(
        parse("\"bad\\qescape\"").unwrap_err(),
        JsonError::LexicalError(_)
    ));
    assert!(matches!(
        parse("\"bad\\uZZZZ\"").unwrap_err(),
        JsonError::LexicalError(_)
    ));
    assert!(matches!(
        parse("\"short\\u41\"").unwrap_err(),
        JsonError::LexicalError(_)
    ));
    // a surrogate code point cannot stand alone
    assert!(matches!(
        parse("\"\\uD800\"").unwrap_err(),
        JsonError::LexicalError(_)
    ));
    // syntax: structural violations
    assert!(matches!(parse("{").unwrap_err(), JsonError::SyntaxError(_)));
    assert!(matches!(parse("[1 2]").unwrap_err(), JsonError::SyntaxError(_)));
    assert!(matches!(parse("\"open").unwrap_err(), JsonError::SyntaxError(_)));
    assert!(matches!(parse(r#"{"a" 1}"#).unwrap_err(), JsonError::SyntaxError(_)));
}

#[test]
fn test_literal_prefix_boundary() {
    // a literal must be followed by a delimiter: `nullable` is rejected
    assert!(parse("nullable").is_err());
    let (val, tail) = parse("null,1").unwrap();
    assert_eq!(val, Json::JsonNull);
    assert_eq!(tail, ",1");
}

#[test]
fn test_field_names_take_no_escapes() {
    // the field-name scanner reads characters verbatim up to the next quote
    let (obj, tail) = parse(r#"{"a\\b":1}"#).unwrap();
    assert_eq!(tail, "");
    assert_eq!(float_of(&obj.get_key("a\\\\b")), 1.0);
}

#[test]
fn test_number_accepts_bare_fraction_after_sign() {
    // `-.5` is accepted: the leading-dot rejection applies only to a dot in
    // the very first position
    let (val, tail) = parse_number("-.5 ").unwrap();
    assert_eq!(float_of(&val), -0.5);
    assert_eq!(tail, " ");
}
