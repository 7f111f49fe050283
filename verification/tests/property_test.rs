use ontology_core::property::{PropertyMap, PropertyValue};

#[test]
fn test_property_map() {
    let mut map = PropertyMap::new();
    assert!(map.is_empty());

    map.insert("key1".to_string(), PropertyValue::String("value1".to_string()));
    assert_eq!(map.len(), 1);
    assert!(map.contains_key("key1"));
    assert_eq!(map.get("key1"), Some(&PropertyValue::String("value1".to_string())));
}

#[test]
fn test_property_value_to_string() {
    assert_eq!(PropertyValue::String("test".to_string()).to_string(), "test");
    assert_eq!(PropertyValue::Integer(42).to_string(), "42");
    assert_eq!(PropertyValue::Double(3.14f64.to_string()).to_string(), "3.14");
    assert_eq!(PropertyValue::Boolean(true).to_string(), "true");
    assert_eq!(PropertyValue::Null.to_string(), "null");
}

#[test]
fn test_property_value_is_null() {
    assert!(PropertyValue::Null.is_null());
    assert!(!PropertyValue::String("test".to_string()).is_null());
}

#[test]
fn display_text_of_lists_and_named_values() {
    let list = PropertyValue::Array(vec![
        PropertyValue::Integer(1),
        PropertyValue::String("two".to_string()),
        PropertyValue::Boolean(false),
    ]);
    assert_eq!(list.to_string(), "[1, two, false]");
    assert_eq!(PropertyValue::Array(vec![]).to_string(), "[]");
    let named = PropertyValue::Mapping(vec![
        ("a".to_string(), PropertyValue::Integer(-7)),
        ("b".to_string(), PropertyValue::Array(vec![PropertyValue::Null])),
    ]);
    assert_eq!(named.to_string(), "{a: -7, b: [null]}");
    let object = PropertyValue::Object(vec![("k".to_string(), PropertyValue::Date("2024-01-02".to_string()))]);
    assert_eq!(object.to_string(), "{k: 2024-01-02}");
}

#[test]
fn insert_replaces_in_place_and_keeps_the_order() {
    let mut map = PropertyMap::new();
    map.insert("a".to_string(), PropertyValue::Integer(1));
    map.insert("b".to_string(), PropertyValue::Integer(2));
    map.insert("a".to_string(), PropertyValue::Integer(3));
    assert_eq!(map.len(), 2);
    assert_eq!(map.get("a"), Some(&PropertyValue::Integer(3)));
    assert_eq!(map.get("b"), Some(&PropertyValue::Integer(2)));
    assert_eq!(map.get("c"), None);
    assert!(!map.contains_key("c"));
    let names: Vec<&str> = map.iter().iter().map(|e| e.0.as_str()).collect();
    assert_eq!(names, vec!["a", "b"]);
}

#[test]
fn clone_copies_every_level() {
    let value = PropertyValue::Mapping(vec![(
        "list".to_string(),
        PropertyValue::Array(vec![PropertyValue::Double("1.5".to_string()), PropertyValue::Null]),
    )]);
    assert_eq!(value.clone(), value);
    let mut map = PropertyMap::new();
    map.insert("v".to_string(), value.clone());
    let copy = map.clone();
    assert_eq!(copy.get("v"), Some(&value));
    assert_eq!(copy.len(), 1);
    assert!(PropertyMap::default().is_empty());
}
