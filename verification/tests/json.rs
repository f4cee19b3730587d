use inderes::json::{Json, JsonMap};

#[test]
fn values_are_read_and_written() {
    let text = r#"{"a":[1,-2,true,null,"x\n\u0001ä"],"b":{"c":18446744073709551615}}"#;
    let v = Json::parse(text).unwrap();
    assert_eq!(v.to_text(), text);
    assert_eq!(v.copy().to_text(), v.to_text());
    assert_eq!(
        v.to_pretty(),
        "{\n  \"a\": [\n    1,\n    -2,\n    true,\n    null,\n    \"x\\n\\u0001ä\"\n  ],\n  \"b\": {\n    \"c\": 18446744073709551615\n  }\n}"
    );
    let a = v.get_array("a").unwrap();
    assert_eq!(a[1].as_i64(), Some(-2));
    assert_eq!(a[2].as_bool(), Some(true));
    assert_eq!(a[4].as_str(), Some("x\n\u{1}ä"));
    assert_eq!(v.get("b").unwrap().get_i64("c"), None);
    assert!(v.is_object() && !a[0].is_object());
}

#[test]
fn fractions_are_carried_through() {
    let v = Json::parse("[1.5,0.25,-0.0]").unwrap();
    assert_eq!(v.to_text(), "[1.5,0.25,-0.0]");
    assert_eq!(v.as_array().unwrap()[0].as_i64(), None);
    let back = Json::from_value(v.to_value());
    assert_eq!(back.to_text(), v.to_text());
}

#[test]
fn a_later_field_takes_the_place_of_an_earlier_one() {
    let mut m = JsonMap::new();
    m.insert("k", Json::Int(1));
    m.insert("l", Json::Null);
    m.insert("k", Json::Int(2));
    assert!(m.contains_key("l") && !m.contains_key("x"));
    assert_eq!(m.get("k").unwrap().as_i64(), Some(2));
    assert_eq!(Json::Object(m).to_text(), "{\"k\":2,\"l\":null}");
    assert_eq!(
        Json::parse("{\"k\":1,\"k\":2}").unwrap().to_text(),
        "{\"k\":2}"
    );
}

#[test]
fn broken_text_gives_a_reason() {
    assert_eq!(
        Json::parse("{").unwrap_err(),
        "EOF while parsing an object at line 1 column 1"
    );
    assert!(Json::parse("1 2").is_err());
}

#[test]
fn deep_values_are_read_back_up_to_a_limit() {
    let nested = |n: usize| format!("{}{}", "[".repeat(n), "]".repeat(n));
    let v = Json::parse(&nested(127)).unwrap();
    assert_eq!(Json::parse(&v.to_text()).unwrap().to_text(), nested(127));
    assert!(Json::parse(&nested(128)).is_err());
}

#[test]
fn values_come_from_serde_json_and_go_back() {
    let mut map = serde_json::Map::new();
    map.insert("n".to_string(), serde_json::Value::from(-3));
    map.insert("u".to_string(), serde_json::Value::from(3u64));
    map.insert("f".to_string(), serde_json::Value::from(0.25));
    map.insert("s".to_string(), serde_json::Value::from("t"));
    map.insert(
        "a".to_string(),
        serde_json::Value::Array(vec![serde_json::Value::Null, serde_json::Value::Bool(true)]),
    );
    let outside = serde_json::Value::Object(map);
    let v = Json::from_value(outside.clone());
    assert_eq!(v.get_i64("n"), Some(-3));
    assert_eq!(v.get_i64("u"), Some(3));
    assert_eq!(v.get_str("s"), Some("t"));
    assert_eq!(v.to_value(), outside);
}

#[test]
fn a_field_that_is_set_again_has_its_later_value() {
    let mut m = JsonMap::new();
    m.insert("a", Json::Int(1));
    m.insert("b", Json::Int(2));
    m.insert("a", Json::Int(3));
    assert_eq!(m.get("a").and_then(|v| v.as_i64()), Some(3));
    let v = Json::Object(m);
    assert_eq!(v.to_text(), "{\"a\":3,\"b\":2}");
    assert_eq!(v.copy().to_text(), "{\"a\":3,\"b\":2}");
}
