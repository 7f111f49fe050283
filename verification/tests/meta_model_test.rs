use ontology_core::hydration::{property_value_to_json, ObjectHydrator};
use ontology_core::link::LinkCardinality;
use ontology_core::meta_model::{InterfaceDef, LinkTypeDef, ObjectType};
use ontology_core::property::{PropertyMap, PropertyValue};
use ontology_core::property_type::{Property, PropertyType, StructDef};
use ontology_core::store::{IndexedObject, StoreError};

fn property(id: &str, required: bool) -> Property {
    let mut property = Property::new(id.to_string(), PropertyType::String);
    property.required = required;
    property
}

fn create_test_object_type() -> ObjectType {
    ObjectType {
        id: "test_object".to_string(),
        display_name: "Test Object".to_string(),
        primary_key: "id".to_string(),
        properties: vec![property("id", true), property("name", false)],
        backing_datasource: None,
        title_key: Some("name".to_string()),
        implements: vec![],
    }
}

#[test]
fn test_property_type_from_str() {
    assert_eq!(PropertyType::from_str("string").unwrap(), PropertyType::String);
    assert_eq!(PropertyType::from_str("integer").unwrap(), PropertyType::Integer);
    assert_eq!(PropertyType::from_str("double").unwrap(), PropertyType::Double);
    assert_eq!(PropertyType::from_str("boolean").unwrap(), PropertyType::Boolean);
    assert!(PropertyType::from_str("invalid").is_err());
}

#[test]
fn test_geojson_property_type() {
    assert_eq!(PropertyType::from_str("geojson").unwrap(), PropertyType::GeoJSON);
    assert_eq!(PropertyType::from_str("geo_json").unwrap(), PropertyType::GeoJSON);
}

#[test]
fn test_object_type_validation_success() {
    let obj_type = create_test_object_type();
    assert!(obj_type.validate().is_ok());
}

#[test]
fn test_object_type_validation_missing_primary_key() {
    let mut obj_type = create_test_object_type();
    obj_type.primary_key = "nonexistent".to_string();
    assert!(obj_type.validate().is_err());
}

#[test]
fn test_object_type_get_property() {
    let obj_type = create_test_object_type();
    assert!(obj_type.get_property("id").is_some());
    assert!(obj_type.get_property("nonexistent").is_none());
}

#[test]
fn test_link_type_validation() {
    let link_type = LinkTypeDef {
        id: "test_link".to_string(),
        display_name: None,
        source: "source_type".to_string(),
        target: "target_type".to_string(),
        cardinality: LinkCardinality::OneToMany,
        properties: vec![],
        bidirectional: false,
    };

    assert!(link_type.validate(&vec![]).is_err());

    assert!(link_type.validate(&vec!["source_type".to_string(), "target_type".to_string()]).is_ok());
}

#[test]
fn every_name_of_a_type_is_known_in_any_case() {
    let names = vec![
        ("String", PropertyType::String),
        ("INT", PropertyType::Integer),
        ("Float", PropertyType::Double),
        ("bool", PropertyType::Boolean),
        ("date", PropertyType::Date),
        ("DateTime", PropertyType::DateTime),
        ("timestamp", PropertyType::DateTime),
        ("object_reference", PropertyType::ObjectReference),
        ("ObjectReference", PropertyType::ObjectReference),
        ("GeoJSON", PropertyType::GeoJSON),
    ];
    for (name, expected) in names {
        assert_eq!(PropertyType::from_str(name), Ok(expected));
    }
    assert_eq!(PropertyType::from_str("Money"), Err("Unknown property type: Money".to_string()));
    assert_eq!(PropertyType::from_str(""), Err("Unknown property type: ".to_string()));
}

#[test]
fn simple_types_stand_behind_their_names() {
    assert!(PropertyType::Timestamp.is_simple());
    assert!(!PropertyType::Array { element_type: Box::new(PropertyType::String) }.is_simple());
    assert!(!PropertyType::Union { types: vec![] }.is_simple());
    assert!(!PropertyType::Object(StructDef { id: "s".to_string(), fields: vec![] }).is_simple());
    assert_eq!(PropertyType::Float.as_simple(), Some(PropertyType::Double));
    assert_eq!(PropertyType::Int.as_simple(), Some(PropertyType::String));
    assert_eq!(PropertyType::GeoJSONAlt.as_simple(), Some(PropertyType::GeoJSON));
    let nested = PropertyType::Mapping {
        key_type: Box::new(PropertyType::String),
        value_type: Box::new(PropertyType::Union { types: vec![PropertyType::Integer, PropertyType::Bool] }),
    };
    assert_eq!(nested.as_simple(), None);
    assert_eq!(nested.clone(), nested);
    let with_fields = PropertyType::Object(StructDef { id: "s".to_string(), fields: vec![property("f", true)] });
    assert_eq!(with_fields.clone(), with_fields);
}

#[test]
fn validation_names_what_is_wrong() {
    let mut obj_type = create_test_object_type();
    obj_type.primary_key = "nonexistent".to_string();
    assert_eq!(
        obj_type.validate(),
        Err("Primary key 'nonexistent' not found in properties for object type 'test_object'".to_string())
    );
    let mut obj_type = create_test_object_type();
    obj_type.properties.push(property("name", false));
    obj_type.properties.push(property("id", false));
    assert_eq!(
        obj_type.validate(),
        Err("Duplicate property ID 'name' in object type 'test_object'".to_string())
    );
    let interface = InterfaceDef {
        id: "named".to_string(),
        display_name: "Named".to_string(),
        properties: vec![property("a", false), property("b", false), property("a", true)],
        required_link_types: vec![],
    };
    assert_eq!(interface.validate(), Err("Duplicate property ID 'a' in interface 'named'".to_string()));
    let interface = InterfaceDef { properties: vec![property("a", false)], ..interface };
    assert_eq!(interface.validate(), Ok(()));
    let link_type = LinkTypeDef {
        id: "l".to_string(),
        display_name: None,
        source: "s".to_string(),
        target: "t".to_string(),
        cardinality: LinkCardinality::default(),
        properties: vec![],
        bidirectional: false,
    };
    assert_eq!(
        link_type.validate(&vec!["t".to_string()]),
        Err("Link type 'l' references unknown source object type 's'".to_string())
    );
    assert_eq!(
        link_type.validate(&vec!["s".to_string()]),
        Err("Link type 'l' references unknown target object type 't'".to_string())
    );
}

fn indexed(id: &str, entries: Vec<(&str, PropertyValue)>) -> IndexedObject {
    let mut properties = PropertyMap::new();
    for (name, value) in entries {
        properties.insert(name.to_string(), value);
    }
    IndexedObject::new("test_object".to_string(), id.to_string(), properties)
}

#[test]
fn an_object_is_titled_by_its_title_property() {
    let hydrator = ObjectHydrator::new();
    let object_type = create_test_object_type();
    let full = indexed("o1", vec![
        ("id", PropertyValue::String("o1".to_string())),
        ("name", PropertyValue::String("First".to_string())),
    ]);
    let hydrated = hydrator.hydrate_from_indexed(&full, &object_type).unwrap();
    assert_eq!(hydrated.title, "First");
    assert_eq!(hydrated.object_id, "o1");
    assert_eq!(hydrated.object_type, "test_object");
    assert_eq!(hydrated.properties.len(), 2);
    let untitled = indexed("o2", vec![("id", PropertyValue::Integer(2))]);
    assert_eq!(hydrator.hydrate_from_indexed(&untitled, &object_type).unwrap().title, "o2");
    let missing = indexed("o3", vec![("name", PropertyValue::String("x".to_string()))]);
    assert_eq!(
        hydrator.hydrate_from_indexed(&missing, &object_type).unwrap_err(),
        StoreError::Query("Missing required property 'id' for object type 'test_object'".to_string())
    );
    let batch = vec![full.clone(), untitled.clone()];
    let all = hydrator.hydrate_batch(&batch, &object_type).unwrap();
    assert_eq!(all.iter().map(|o| o.title.as_str()).collect::<Vec<_>>(), vec!["First", "o2"]);
    assert!(hydrator.hydrate_batch(&vec![full, missing, untitled], &object_type).is_err());
    assert!(ObjectHydrator::default().hydrate_batch(&vec![], &object_type).unwrap().is_empty());
}

#[test]
fn a_hydrated_object_is_shown_as_json() {
    let hydrator = ObjectHydrator::new();
    let object = indexed("o1", vec![
        ("id", PropertyValue::String("o1".to_string())),
        ("shape", PropertyValue::GeoJSON("{\"type\":\"Point\",\"coordinates\":[1,2]}".to_string())),
        ("broken", PropertyValue::GeoJSON("not json".to_string())),
        ("ratio", PropertyValue::Double("0.5".to_string())),
        ("endless", PropertyValue::Double("inf".to_string())),
        ("tags", PropertyValue::Array(vec![PropertyValue::String("a".to_string())])),
    ]);
    let hydrated = hydrator.hydrate_from_indexed(&object, &create_test_object_type()).unwrap();
    assert_eq!(
        hydrated.to_json_value().render(),
        r#"{"object_id":"o1","object_type":"test_object","properties":{"broken":"not json","endless":null,"id":"o1","ratio":0.5,"shape":{"coordinates":[1,2],"type":"Point"},"tags":["a"]},"title":"o1"}"#
    );
    assert_eq!(property_value_to_json(&PropertyValue::Null).render(), "null");
}
