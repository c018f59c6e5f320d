//! The JSON value model and text helpers.

use forge_worker_sdk::json::{JsonNumber, JsonValue};
use forge_worker_sdk::text::{concat3, decimal_string};

#[test]
fn get_returns_first_entry_and_only_on_objects() {
    let v = JsonValue::Object(vec![
        ("a".to_string(), JsonValue::from_u64(1)),
        ("b".to_string(), JsonValue::Bool(false)),
        ("a".to_string(), JsonValue::from_u64(2)),
    ]);
    assert_eq!(v.get("a"), Some(&JsonValue::from_u64(1)));
    assert_eq!(v.get("b"), Some(&JsonValue::Bool(false)));
    assert_eq!(v.get("c"), None);
    assert_eq!(JsonValue::Array(vec![JsonValue::Null]).get("a"), None);
    assert_eq!(JsonValue::from_str("a").get("a"), None);
}

#[test]
fn as_str_and_numbers() {
    assert_eq!(JsonValue::from_str("hi").as_str(), Some("hi"));
    assert_eq!(JsonValue::Null.as_str(), None);
    assert_eq!(JsonNumber::PosInt(5).as_u64(), Some(5));
    assert_eq!(JsonNumber::NegInt(-1).as_u64(), None);
    assert_eq!(JsonNumber::NegInt(3).as_u64(), Some(3));
    assert_eq!(JsonNumber::Float(0).as_u64(), None);
}

#[test]
fn deep_clone_copies_nested_values() {
    let v = JsonValue::Object(vec![(
        "list".to_string(),
        JsonValue::Array(vec![JsonValue::from_str("x"), JsonValue::Number(JsonNumber::NegInt(-7))]),
    )]);
    let c = v.clone();
    assert_eq!(c, v);
    assert_eq!(v.deep_clone(), v);
}

#[test]
fn decimal_rendering() {
    assert_eq!(decimal_string(0), "0");
    assert_eq!(decimal_string(7), "7");
    assert_eq!(decimal_string(10), "10");
    assert_eq!(decimal_string(67108864), "67108864");
    assert_eq!(decimal_string(u64::MAX), u64::MAX.to_string());
    assert_eq!(concat3("job ", "x", " not found"), "job x not found");
}
