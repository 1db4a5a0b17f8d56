use json_parser::array::parse_array;
use json_parser::Json;

fn number_of(j: &Json) -> f64 {
    if let Json::JsonNumber(t) = j {
        t.parse::<f64>().unwrap()
    } else {
        panic!("expected a number value")
    }
}

#[test]
fn test_parse_array_valid() {
    let valid = r#"[null, true, "hello", 1]"#;
    let (arr, tail) = parse_array(valid).unwrap();
    assert_eq!(tail, "");
    assert_eq!(arr.get_index(0), Json::JsonNull);
    assert_eq!(arr.get_index(1), Json::JsonBoolean(true));
    assert_eq!(arr.get_index(2), Json::JsonString("hello".to_string()));
    assert_eq!(number_of(&arr.get_index(3)), 1.0);
}

#[test]
fn test_parse_array_empty() {
    let valid = r#"[]"#;
    let (arr, tail) = parse_array(valid).unwrap();
    assert_eq!(tail, "");
    // Should be an empty array
    if let Json::JsonArray(vec) = arr {
        assert!(vec.is_empty());
    } else {
        panic!("Expected JsonArray");
    }
}

#[test]
fn test_parse_array_trailing_ws() {
    let valid = r#"[null]     "#;
    let (obj, tail) = parse_array(valid).unwrap();
    assert_eq!(obj.get_index(0), Json::JsonNull);
    assert_eq!(tail.trim(), "");
}

#[test]
fn test_parse_array_missing_comma() {
    let invalid = r#"[null true]"#;
    let result = parse_array(invalid);
    assert!(result.is_err());
}

#[test]
fn test_parse_array_comma_at_end() {
    let invalid = r#"[null, true,]"#;
    let result = parse_array(invalid);
    assert!(result.is_err());
}

#[test]
fn test_parse_array_nested() {
    let valid = r#"[null, [true]]"#;
    let (arr, tail) = parse_array(valid).unwrap();
    assert_eq!(tail, "");
    assert_eq!(arr.get_index(0), Json::JsonNull);
    let inner = arr.get_index(1);
    assert_eq!(inner.get_index(0), Json::JsonBoolean(true));
}

#[test]
fn test_parse_array_with_whitespace_and_newlines() {
    let valid = "[  null ,\n true ,\t\"hi\"  , 42 ]";
    let (arr, tail) = parse_array(valid).unwrap();
    assert_eq!(tail, "");
    assert_eq!(arr.get_index(0), Json::JsonNull);
    assert_eq!(arr.get_index(1), Json::JsonBoolean(true));
    assert_eq!(arr.get_index(2), Json::JsonString("hi".to_string()));
    assert_eq!(number_of(&arr.get_index(3)), 42.0);
}

#[test]
fn test_parse_array_deeply_nested() {
    let valid = "[[[]], [null], [[true]]]";
    let (arr, tail) = parse_array(valid).unwrap();
    assert_eq!(tail, "");
    assert_eq!(arr.get_index(0).get_index(0), Json::JsonArray(vec![]));
    assert_eq!(arr.get_index(1).get_index(0), Json::JsonNull);
    assert_eq!(arr.get_index(2).get_index(0).get_index(0), Json::JsonBoolean(true));
}

#[test]
fn test_parse_array_only_commas() {
    let invalid = "[,]";
    let result = parse_array(invalid);
    assert!(result.is_err());
}
