use json_parser::{parse, Json};

fn numeric(j: &Json) -> f64 {
    if let Json::JsonNumber(t) = j {
        t.parse::<f64>().unwrap()
    } else {
        panic!("expected a number value")
    }
}

#[test]
fn test_parse_simple_object() {
    let (json, tail) = parse(r#"{"a":1,"b":"str"}"#).unwrap();
    assert_eq!(tail, "");
    if let Json::JsonObject(_) = &json {
        assert_eq!(numeric(&json.get_key("a")), 1.0);
        assert_eq!(json.get_key("b"), Json::JsonString("str".to_string()));
    } else {
        panic!("Expected JsonObject");
    }
}

#[test]
fn test_parse_simple_array() {
    let (json, tail) = parse(r#"[1, "two", null]"#).unwrap();
    assert_eq!(tail, "");
    if let Json::JsonArray(_) = &json {
        assert_eq!(numeric(&json.get_index(0)), 1.0);
        assert_eq!(json.get_index(1), Json::JsonString("two".to_string()));
        assert_eq!(json.get_index(2), Json::JsonNull);
    } else {
        panic!("Expected JsonArray");
    }
}

#[test]
fn test_parse_nested_object_array() {
    let (json, tail) = parse(r#"{"arr":[1,2,3],"obj":{"k":false}}"#).unwrap();
    assert_eq!(tail, "");
    if let Json::JsonObject(_) = &json {
        if let Json::JsonArray(_) = &json.get_key("arr") {
            assert_eq!(numeric(&json.get_key("arr").get_index(1)), 2.0);
        } else {
            panic!("Expected JsonArray for 'arr'");
        }
        if let Json::JsonObject(_) = &json.get_key("obj") {
            assert_eq!(json.get_key("obj").get_key("k"), Json::JsonBoolean(false));
        } else {
            panic!("Expected JsonObject for 'obj'");
        }
    } else {
        panic!("Expected JsonObject");
    }
}

#[test]
fn test_parse_invalid_json() {
    assert!(parse("{").is_err());
    let (json, tail) = parse("   [ 1 , 2 , 3 ]   ").unwrap();
    if let Json::JsonArray(elements) = &json {
        assert_eq!(elements.len(), 3);
        assert_eq!(numeric(&json.get_index(0)), 1.0);
        assert_eq!(numeric(&json.get_index(1)), 2.0);
        assert_eq!(numeric(&json.get_index(2)), 3.0);
    } else {
        panic!("Expected JsonArray");
    }
    assert_eq!(tail.trim(), "");
    assert!(parse("nulll").is_err());
}

#[test]
fn test_parse_complex_nested_object_and_array() {
    let src = r#"
        {
            "name": "Alice",
            "age": 30,
            "is_active": true,
            "scores": [10, 20, 30.5, null],
            "address": {
                "city": "Wonderland",
                "zip": "12345"
            },
            "tags": [],
            "meta": {
                "created": null,
                "roles": ["admin", "user"]
            }
        }
        "#;
    let (json, tail) = parse(src).unwrap();
    assert_eq!(tail.trim(), "");
    if let Json::JsonObject(_) = &json {
        assert_eq!(json.get_key("name"), Json::JsonString("Alice".to_string()));
        assert_eq!(numeric(&json.get_key("age")), 30.0);
        assert_eq!(json.get_key("is_active"), Json::JsonBoolean(true));
        let scores = json.get_key("scores");
        if let Json::JsonArray(_) = &scores {
            assert_eq!(numeric(&scores.get_index(0)), 10.0);
            assert_eq!(numeric(&scores.get_index(1)), 20.0);
            assert_eq!(numeric(&scores.get_index(2)), 30.5);
            assert_eq!(scores.get_index(3), Json::JsonNull);
        } else {
            panic!("Expected scores to be array");
        }
        let addr = json.get_key("address");
        if let Json::JsonObject(_) = &addr {
            assert_eq!(addr.get_key("city"), Json::JsonString("Wonderland".to_string()));
            assert_eq!(addr.get_key("zip"), Json::JsonString("12345".to_string()));
        } else {
            panic!("Expected address to be object");
        }
        if let Json::JsonArray(tags) = json.get_key("tags") {
            assert!(tags.is_empty());
        } else {
            panic!("Expected tags to be array");
        }
        let meta = json.get_key("meta");
        if let Json::JsonObject(_) = &meta {
            assert_eq!(meta.get_key("created"), Json::JsonNull);
            let roles = meta.get_key("roles");
            if let Json::JsonArray(_) = &roles {
                assert_eq!(roles.get_index(0), Json::JsonString("admin".to_string()));
                assert_eq!(roles.get_index(1), Json::JsonString("user".to_string()));
            } else {
                panic!("Expected roles to be array");
            }
        } else {
            panic!("Expected meta to be object");
        }
    } else {
        panic!("Expected JsonObject");
    }
}

#[test]
fn test_parse_array_of_objects_and_arrays() {
    let src = r#"
        [
            {"id": 1, "values": [1,2,3]},
            {"id": 2, "values": []},
            [],
            [null, false, {"nested": [42]}]
        ]
        "#;
    let (json, tail) = parse(src).unwrap();
    assert_eq!(tail.trim(), "");
    if let Json::JsonArray(_) = &json {
        let obj1 = json.get_index(0);
        if let Json::JsonObject(_) = &obj1 {
            assert_eq!(numeric(&obj1.get_key("id")), 1.0);
            let vals = obj1.get_key("values");
            if let Json::JsonArray(_) = &vals {
                assert_eq!(numeric(&vals.get_index(0)), 1.0);
                assert_eq!(numeric(&vals.get_index(1)), 2.0);
                assert_eq!(numeric(&vals.get_index(2)), 3.0);
            } else {
                panic!("Expected values to be array");
            }
        } else {
            panic!("Expected first element to be object");
        }
        let obj2 = json.get_index(1);
        if let Json::JsonObject(_) = &obj2 {
            assert_eq!(numeric(&obj2.get_key("id")), 2.0);
            if let Json::JsonArray(vals) = obj2.get_key("values") {
                assert!(vals.is_empty());
            } else {
                panic!("Expected values to be array");
            }
        }
        if let Json::JsonArray(empty) = json.get_index(2) {
            assert!(empty.is_empty());
        }
        let mixed = json.get_index(3);
        if let Json::JsonArray(_) = &mixed {
            assert_eq!(mixed.get_index(0), Json::JsonNull);
            assert_eq!(mixed.get_index(1), Json::JsonBoolean(false));
            let nested = mixed.get_index(2);
            if let Json::JsonObject(_) = &nested {
                let nested_arr = nested.get_key("nested");
                if let Json::JsonArray(_) = &nested_arr {
                    assert_eq!(numeric(&nested_arr.get_index(0)), 42.0);
                } else {
                    panic!("Expected nested to be array");
                }
            } else {
                panic!("Expected nested to be object");
            }
        }
    } else {
        panic!("Expected JsonArray");
    }
}
