use nexia_core::Attributes;
use serde_json::Value;

#[test]
fn a_new_bag_is_empty() {
    let bag = Attributes::new();
    assert!(bag.is_empty());
    assert!(bag.entries().is_empty());
    assert!(bag.get("anything").is_none());
    assert!(bag.get("").is_none());
}

#[test]
fn insert_returns_the_value_that_stood_there() {
    let mut bag = Attributes::new();
    assert_eq!(bag.insert("key".to_string(), Value::from(1)), None);
    assert!(!bag.is_empty());
    assert_eq!(bag.insert("other".to_string(), Value::from("two")), None);
    assert_eq!(bag.insert("key".to_string(), Value::Null), Some(Value::from(1)));
    assert_eq!(bag.get("key"), Some(&Value::Null));
    assert_eq!(bag.get("other"), Some(&Value::from("two")));
    assert_eq!(bag.entries().len(), 2);
}

#[test]
fn keys_are_told_apart_exactly() {
    let mut bag = Attributes::new();
    bag.insert("Key".to_string(), Value::from(1));
    bag.insert("key".to_string(), Value::from(2));
    bag.insert("".to_string(), Value::from(3));
    bag.insert("key ".to_string(), Value::from(4));
    assert_eq!(bag.get("Key"), Some(&Value::from(1)));
    assert_eq!(bag.get("key"), Some(&Value::from(2)));
    assert_eq!(bag.get(""), Some(&Value::from(3)));
    assert_eq!(bag.get("key "), Some(&Value::from(4)));
    assert_eq!(bag.get("ke"), None);
    assert_eq!(bag.entries().len(), 4);
}

#[test]
fn the_entries_hold_each_key_once() {
    let mut bag = Attributes::new();
    for round in 0..3 {
        for key in ["a", "b", "c"] {
            bag.insert(key.to_string(), Value::from(round));
        }
    }
    let mut keys: Vec<&str> = bag.entries().iter().map(|(key, _)| key.as_str()).collect();
    keys.sort();
    assert_eq!(keys, vec!["a", "b", "c"]);
    for (_, value) in bag.entries() {
        assert_eq!(value, &Value::from(2));
    }
}

#[test]
fn a_cloned_bag_holds_equal_values_and_is_its_own() {
    let mut bag = Attributes::new();
    let nested = Value::Array(vec![Value::from(1.5), Value::Array(vec![Value::Bool(true)])]);
    bag.insert("nested".to_string(), nested.clone());
    let mut copy = bag.clone();
    assert_eq!(copy.get("nested"), Some(&nested));
    copy.insert("nested".to_string(), Value::Null);
    copy.insert("more".to_string(), Value::from(7));
    assert_eq!(bag.get("nested"), Some(&nested));
    assert!(bag.get("more").is_none());
    assert_eq!(bag.entries().len(), 1);
}
