use ips::json::{insert_entry, key_less, JsonValue};
use ips::text::{blank, contains_str, is_float, trim_string, u64_to_decimal};

fn keys(es: &Vec<(String, JsonValue)>) -> Vec<String> {
    es.iter().map(|(k, _)| k.clone()).collect()
}

#[test]
fn object_entries_stay_in_key_order() {
    let mut es: Vec<(String, JsonValue)> = Vec::new();
    insert_entry(&mut es, "80".to_string(), JsonValue::unsigned(1));
    insert_entry(&mut es, "3".to_string(), JsonValue::unsigned(2));
    insert_entry(&mut es, "37".to_string(), JsonValue::unsigned(3));
    insert_entry(&mut es, "3".to_string(), JsonValue::unsigned(4));
    assert_eq!(keys(&es), vec!["3", "37", "80"]);
    let obj = JsonValue::Object(es);
    assert_eq!(obj.get("3").and_then(|v| v.as_u64()), Some(4));
    assert_eq!(obj.get("80").and_then(|v| v.as_u64()), Some(1));
    assert!(obj.get("4").is_none());
}

#[test]
fn key_order_is_code_point_order() {
    assert!(key_less("3", "37"));
    assert!(key_less("37", "4"));
    assert!(!key_less("b", "a"));
    assert!(!key_less("a", "a"));
    assert!(key_less("", "a"));
}

#[test]
fn deep_copy_keeps_the_value() {
    let v = JsonValue::Array(vec![JsonValue::Str("x".to_string()), JsonValue::Bool(true), JsonValue::Null]);
    let c = v.deep_copy();
    let items = c.as_array().unwrap();
    assert_eq!(items.len(), 3);
    assert_eq!(items[0].as_str().map(|s| s.as_str()), Some("x"));
    assert_eq!(items[1].as_bool(), Some(true));
}

#[test]
fn text_helpers() {
    assert_eq!(trim_string("  a b \n"), "a b");
    assert!(blank(" \t\n"));
    assert!(!blank(" x "));
    assert!(contains_str("cyberpunk city", "punk"));
    assert!(!contains_str("city", "punk"));
    assert_eq!(u64_to_decimal(0), "0");
    assert_eq!(u64_to_decimal(18446744073709551615), "18446744073709551615");
}

#[test]
fn float_syntax() {
    for ok in ["1", "0.5", "-.5", "+3.", "1e10", "1E-3", "inf", "-Infinity", "NaN"] {
        assert!(is_float(ok), "{}", ok);
    }
    for bad in ["", ".", "e5", "1e", "1.2.3", "x", "1 "] {
        assert!(!is_float(bad), "{}", bad);
    }
}
