use rootly_lib::model::log::Log;
use rootly_lib::parsers::otlp::{AnyValue, KeyValue, Value};

fn av(v: Value) -> AnyValue {
    AnyValue { value: Some(v) }
}

fn s(t: &str) -> AnyValue {
    av(Value::StringValue(t.to_string()))
}

#[test]
fn scalar_values() {
    assert_eq!(Log::get_value(&s("plain")), "plain");
    assert_eq!(Log::get_value(&av(Value::BoolValue(true))), "true");
    assert_eq!(Log::get_value(&av(Value::BoolValue(false))), "false");
    assert_eq!(Log::get_value(&av(Value::IntValue(0))), "0");
    assert_eq!(Log::get_value(&av(Value::IntValue(-42))), "-42");
    assert_eq!(Log::get_value(&av(Value::IntValue(i64::MIN))), i64::MIN.to_string());
    assert_eq!(Log::get_value(&av(Value::IntValue(i64::MAX))), i64::MAX.to_string());
    assert_eq!(Log::get_value(&av(Value::DoubleValue(1.5f64.to_string()))), "1.5");
}

#[test]
fn array_values_are_joined() {
    let v = av(Value::ArrayValue(vec![s("a"), av(Value::IntValue(1)), av(Value::BoolValue(true))]));
    assert_eq!(Log::get_value(&v), "[a, 1, true]");
    assert_eq!(Log::get_value(&av(Value::ArrayValue(vec![]))), "[]");
    let nested = av(Value::ArrayValue(vec![av(Value::ArrayValue(vec![s("x")])), s("y")]));
    assert_eq!(Log::get_value(&nested), "[[x], y]");
}

#[test]
fn kvlist_values_become_json_objects() {
    let v = av(Value::KvlistValue(vec![
        KeyValue { key: "b".to_string(), value: Some(s("x\"y")) },
        KeyValue { key: "a".to_string(), value: Some(av(Value::IntValue(1))) },
    ]));
    assert_eq!(Log::get_value(&v), r#"{"a":"1","b":"x\"y"}"#);
    assert_eq!(Log::get_value(&av(Value::KvlistValue(vec![]))), "{}");
    let dup = av(Value::KvlistValue(vec![
        KeyValue { key: "k".to_string(), value: Some(s("1")) },
        KeyValue { key: "k".to_string(), value: Some(s("2")) },
    ]));
    assert_eq!(Log::get_value(&dup), r#"{"k":"2"}"#);
}

#[test]
fn later_key_replaces_earlier_one() {
    let kv = |k: &str, v: &str| KeyValue { key: k.to_string(), value: Some(s(v)) };
    let first = av(Value::KvlistValue(vec![kv("a", "1"), kv("b", "2"), kv("a", "3")]));
    let replaced = av(Value::KvlistValue(vec![kv("a", "3"), kv("b", "2"), kv("a", "3")]));
    assert_eq!(Log::get_value(&first), Log::get_value(&replaced));
    assert_eq!(Log::get_value(&first), r#"{"a":"3","b":"2"}"#);
}

#[test]
fn bytes_values_are_decoded_lossily() {
    assert_eq!(Log::get_value(&av(Value::BytesValue(b"ok".to_vec()))), "ok");
    assert_eq!(Log::get_value(&av(Value::BytesValue(vec![b'a', 0xff, b'b']))), "a\u{FFFD}b");
}
