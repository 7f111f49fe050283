use ontology_core::function::FunctionExecutor;
use ontology_core::link::{Link, LinkCardinality, LinkDirection};
use ontology_core::reference::ReferenceManager;

#[test]
fn test_function_executor_creation() {
    let _executor = FunctionExecutor;
    assert!(true);
}

#[test]
fn test_link_creation() {
    let link = Link::new(
        "link1".to_string(),
        "link_type1".to_string(),
        "source1".to_string(),
        "target1".to_string(),
    );

    assert_eq!(link.id, "link1");
    assert_eq!(link.source_id, "source1");
    assert_eq!(link.target_id, "target1");
}

#[test]
fn test_link_get_other_end() {
    let link = Link::new(
        "link1".to_string(),
        "link_type1".to_string(),
        "source1".to_string(),
        "target1".to_string(),
    );

    assert_eq!(link.get_other_end("source1"), Some("target1"));
    assert_eq!(link.get_other_end("target1"), Some("source1"));
    assert_eq!(link.get_other_end("other"), None);
}

#[test]
fn test_link_connects_to() {
    let link = Link::new(
        "link1".to_string(),
        "link_type1".to_string(),
        "source1".to_string(),
        "target1".to_string(),
    );

    assert!(link.connects_to("source1"));
    assert!(link.connects_to("target1"));
    assert!(!link.connects_to("other"));
}

#[test]
fn test_link_direction_from() {
    let link = Link::new(
        "link1".to_string(),
        "link_type1".to_string(),
        "source1".to_string(),
        "target1".to_string(),
    );

    assert_eq!(link.direction_from("source1"), Some(LinkDirection::Forward));
    assert_eq!(link.direction_from("target1"), Some(LinkDirection::Backward));
    assert_eq!(link.direction_from("other"), None);
}

#[test]
fn test_link_cardinality_default() {
    assert_eq!(LinkCardinality::default(), LinkCardinality::OneToMany);
}

#[test]
fn test_parse_reference() {
    let (obj_type, obj_id) = ReferenceManager::parse_reference("person:123").unwrap();
    assert_eq!(obj_type, "person");
    assert_eq!(obj_id, "123");
}

#[test]
fn test_parse_reference_invalid() {
    assert!(ReferenceManager::parse_reference("invalid:format:here").is_err());
}

#[test]
fn test_create_link_for_reference() {
    let link = ReferenceManager::create_link_for_reference(
        "person",
        "p1",
        "occupation",
        "occupation:occ1",
        None,
    )
    .unwrap();

    assert_eq!(link.link_type_id, "person_to_occupation");
    assert!(link.source_id.contains("person:p1"));
    assert!(link.target_id.contains("occupation:occ1"));
}

#[test]
fn parse_reference_says_what_is_wrong() {
    assert_eq!(
        ReferenceManager::parse_reference("plain"),
        Err("Object reference 'plain' must be in format 'object_type:object_id'".to_string())
    );
    assert_eq!(
        ReferenceManager::parse_reference("a:b:c"),
        Err("Invalid object reference format: a:b:c".to_string())
    );
    assert_eq!(ReferenceManager::parse_reference(":"), Ok((String::new(), String::new())));
    assert_eq!(ReferenceManager::parse_reference("t:"), Ok(("t".to_string(), String::new())));
}

#[test]
fn validate_reference_asks_the_checker() {
    let known = |t: &str, id: &str| t == "person" && id == "1";
    assert_eq!(ReferenceManager::validate_reference_exists("person", "1", known), Ok(()));
    assert_eq!(
        ReferenceManager::validate_reference_exists("person", "2", known),
        Err("Referenced object '2' of type 'person' does not exist".to_string())
    );
    let none = ReferenceManager::find_reverse_references("person", "1", |_: &str, _: &str, _: &str| {
        vec!["x".to_string()]
    });
    assert!(none.is_empty());
}

#[test]
fn a_link_for_a_reference_gets_a_fresh_id_and_the_given_type() {
    let a = ReferenceManager::create_link_for_reference("person", "p1", "job", "job:j1", Some("holds")).unwrap();
    let b = ReferenceManager::create_link_for_reference("person", "p1", "job", "job:j1", Some("holds")).unwrap();
    assert_eq!(a.link_type_id, "holds");
    assert_eq!(a.source_id, "person:p1");
    assert_eq!(a.target_id, "job:j1");
    assert_eq!(a.id.len(), 36);
    assert_ne!(a.id, b.id);
    assert!(a.properties.is_empty());
    assert!(!a.created_at.is_empty());
    assert!(ReferenceManager::create_link_for_reference("person", "p1", "job", "j1", None).is_err());
}
