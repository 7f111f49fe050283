use ontology_core::json::{
    is_json_number, parse_json, property_from_json, property_to_json, JsonValue,
};
use ontology_core::stored::{kinds_of_value, properties_from_stored, read_value, stored_document};
use ontology_core::property::{PropertyMap, PropertyValue};

#[test]
fn parsing_keeps_every_kind_of_value() {
    let doc = parse_json(br#"{"s":"x","i":-3,"d":1.5,"t":true,"n":null,"a":[1,"b"],"o":{"k":0}}"#).unwrap();
    assert_eq!(doc.get("s"), Some(&JsonValue::String("x".to_string())));
    assert_eq!(doc.get("i"), Some(&JsonValue::Integer(-3)));
    assert_eq!(doc.get("d"), Some(&JsonValue::Decimal("1.5".to_string())));
    assert_eq!(doc.get("t"), Some(&JsonValue::Bool(true)));
    assert_eq!(doc.get("n"), Some(&JsonValue::Null));
    assert_eq!(
        doc.get("a"),
        Some(&JsonValue::Array(vec![JsonValue::Integer(1), JsonValue::String("b".to_string())]))
    );
    assert_eq!(doc.get("o").and_then(|o| o.get("k")), Some(&JsonValue::Integer(0)));
    assert_eq!(doc.get("missing"), None);
    assert_eq!(JsonValue::Null.get("s"), None);
}

#[test]
fn parsing_says_what_is_wrong() {
    let error = parse_json(b"{\"a\": ").unwrap_err();
    assert!(error.contains("EOF"), "{}", error);
    assert!(parse_json(b"").is_err());
    assert_eq!(parse_json(b"18446744073709551615").unwrap(), JsonValue::Decimal("18446744073709551615".to_string()));
    assert_eq!(parse_json(b" 7 ").unwrap(), JsonValue::Integer(7));
}

#[test]
fn rendering_is_compact_and_escapes_strings() {
    let doc = JsonValue::Object(vec![
        ("a b".to_string(), JsonValue::Array(vec![JsonValue::Integer(1), JsonValue::Null, JsonValue::Bool(false)])),
        ("q".to_string(), JsonValue::String("say \"hi\"\n".to_string())),
        ("d".to_string(), JsonValue::Decimal("2.5".to_string())),
        ("e".to_string(), JsonValue::Object(vec![])),
    ]);
    assert_eq!(doc.render(), r#"{"a b":[1,null,false],"d":2.5,"e":{},"q":"say \"hi\"\n"}"#);
    assert_eq!(JsonValue::Array(vec![]).render(), "[]");
    assert_eq!(JsonValue::String("é".to_string()).render(), "\"é\"");
    assert_eq!(parse_json(doc.render().as_bytes()).unwrap().get("q"), doc.get("q"));
}

#[test]
fn accessors_tell_the_kinds_apart() {
    let text = JsonValue::String("t".to_string());
    assert_eq!(text.as_str(), Some("t"));
    assert_eq!(text.as_i64(), None);
    assert!(text.as_array().is_none());
    assert!(text.as_object().is_none());
    assert_eq!(JsonValue::Integer(4).as_i64(), Some(4));
    assert_eq!(JsonValue::Array(vec![JsonValue::Null]).as_array().map(|a| a.len()), Some(1));
    assert_eq!(JsonValue::Object(vec![]).as_object().map(|o| o.len()), Some(0));
    let twice = JsonValue::Object(vec![
        ("k".to_string(), JsonValue::Integer(1)),
        ("k".to_string(), JsonValue::Integer(2)),
    ]);
    assert_eq!(twice.get("k"), Some(&JsonValue::Integer(1)));
    assert_eq!(twice.clone(), twice);
}

#[test]
fn a_value_written_as_json_and_read_back_is_the_same_value() {
    let values = vec![
        PropertyValue::String("text".to_string()),
        PropertyValue::Integer(i64::MIN),
        PropertyValue::Double("10.5".to_string()),
        PropertyValue::Boolean(true),
        PropertyValue::Null,
        PropertyValue::Array(vec![PropertyValue::Integer(1), PropertyValue::Array(vec![])]),
        PropertyValue::Mapping(vec![("k".to_string(), PropertyValue::String("v".to_string()))]),
    ];
    for value in values {
        assert_eq!(property_from_json(&property_to_json(&value)), value);
    }
}

#[test]
fn every_kind_of_value_is_read_back_as_the_kind_that_it_was() {
    let values = vec![
        PropertyValue::String("text".to_string()),
        PropertyValue::Integer(7),
        PropertyValue::Double("10.5".to_string()),
        PropertyValue::Boolean(false),
        PropertyValue::Null,
        PropertyValue::Date("2024-01-02".to_string()),
        PropertyValue::DateTime("2024-01-02T03:04:05Z".to_string()),
        PropertyValue::ObjectReference("person:1".to_string()),
        PropertyValue::GeoJSON("{\"type\":\"Point\",\"coordinates\":[1,2]}".to_string()),
        PropertyValue::Array(vec![
            PropertyValue::Date("2024-01-02".to_string()),
            PropertyValue::Integer(1),
            PropertyValue::Array(vec![PropertyValue::GeoJSON("{}".to_string())]),
        ]),
        PropertyValue::Mapping(vec![
            ("when".to_string(), PropertyValue::DateTime("2024".to_string())),
            ("what".to_string(), PropertyValue::String("x".to_string())),
        ]),
        PropertyValue::Object(vec![(
            "inner".to_string(),
            PropertyValue::Object(vec![("ref".to_string(), PropertyValue::ObjectReference("a:b".to_string()))]),
        )]),
        PropertyValue::Mapping(vec![("object".to_string(), PropertyValue::Mapping(vec![]))]),
    ];
    for value in values {
        let json = property_to_json(&value);
        let kinds = kinds_of_value(&value);
        assert_eq!(read_value(&json, &kinds), value);
        let json_again = parse_json(json.render().as_bytes()).unwrap();
        let kinds_again = parse_json(kinds.render().as_bytes()).unwrap();
        let back = read_value(&json_again, &kinds_again);
        assert!(back.same_as(&value) || matches!(value, PropertyValue::Mapping(_) | PropertyValue::Object(_)));
    }
    let geometry = PropertyValue::GeoJSON("{\"type\":\"Point\"}".to_string());
    assert_eq!(property_to_json(&geometry), JsonValue::String("{\"type\":\"Point\"}".to_string()));
    assert_eq!(kinds_of_value(&geometry), JsonValue::String("geojson".to_string()));
    assert_eq!(read_value(&property_to_json(&geometry), &JsonValue::Null), PropertyValue::String("{\"type\":\"Point\"}".to_string()));
}

#[test]
fn a_double_that_is_no_number_is_written_as_null() {
    for text in ["0", "-0", "10.5", "1e5", "1E-5", "-1.25e+10", "123456789012345678901234567890"] {
        assert!(is_json_number(text), "{}", text);
        assert_eq!(property_to_json(&PropertyValue::Double(text.to_string())), JsonValue::Decimal(text.to_string()));
    }
    for text in ["", "-", "01", "1.", ".5", "1e", "1e+", "NaN", "inf", "-inf", "1 ", "+1", "0x10", "1.5.2", "--1"] {
        assert!(!is_json_number(text), "{}", text);
        assert_eq!(property_to_json(&PropertyValue::Double(text.to_string())), JsonValue::Null);
    }
    assert_eq!(f64::INFINITY.to_string(), "inf");
    assert_eq!(f64::NAN.to_string(), "NaN");
}

#[test]
fn the_stored_document_holds_the_properties_and_their_kinds() {
    let mut properties = PropertyMap::new();
    properties.insert("name".to_string(), PropertyValue::String("Test Object".to_string()));
    properties.insert("priority".to_string(), PropertyValue::Integer(1));
    properties.insert("shape".to_string(), PropertyValue::GeoJSON("{}".to_string()));
    let document = stored_document(&properties);
    assert_eq!(
        document.render(),
        r#"{"@kinds":{"name":null,"priority":null,"shape":"geojson"},"name":"Test Object","priority":1,"shape":"{}"}"#
    );
    let parsed = parse_json(document.render().as_bytes()).unwrap();
    let back = properties_from_stored(parsed.as_object().unwrap());
    assert_eq!(back.len(), 3);
    for (name, value) in properties.iter() {
        assert_eq!(back.get(name), Some(value));
    }
    assert_eq!(stored_document(&PropertyMap::new()).render(), r#"{"@kinds":{}}"#);
    let plain = parse_json(br#"{"a":"text","b":{"c":1}}"#).unwrap();
    let untold = properties_from_stored(plain.as_object().unwrap());
    assert_eq!(untold.get("a"), Some(&PropertyValue::String("text".to_string())));
    assert_eq!(
        untold.get("b"),
        Some(&PropertyValue::Mapping(vec![("c".to_string(), PropertyValue::Integer(1))]))
    );
}
