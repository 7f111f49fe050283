use ontology_core::property::{PropertyMap, PropertyValue};
use ontology_core::security::ols::{
    check_access, filter_properties, ObjectLevelSecurity, ObjectSecurityPolicy,
    PropertyAccessControl, SecurityContext, SecurityError,
};
use ontology_core::security::sharing::{
    check_sharing_access, has_permission, InMemorySharingStore, SharingError, SharingPermission,
    SharingRule, SharingRuleStore,
};

#[test]
fn test_security_context() {
    let context = SecurityContext::new("user1".to_string())
        .with_role("admin".to_string())
        .with_badge("premium".to_string())
        .with_clearance("Secret".to_string());

    assert!(context.has_role("admin"));
    assert!(context.has_badge("premium"));
    assert!(context.has_clearance("Secret"));
    assert!(!context.has_role("user"));
}

#[test]
fn test_check_access_with_role() {
    let policy = ObjectSecurityPolicy::new().with_required_role("admin".to_string());

    let context = SecurityContext::new("user1".to_string());
    assert!(check_access(&context, &policy).is_err());

    let context = SecurityContext::new("user1".to_string()).with_role("admin".to_string());
    assert!(check_access(&context, &policy).is_ok());
}

#[test]
fn test_check_access_with_clearance() {
    let policy = ObjectSecurityPolicy::new().with_required_clearance("Top Secret".to_string());

    let context = SecurityContext::new("user1".to_string());
    assert!(check_access(&context, &policy).is_err());

    let context = SecurityContext::new("user1".to_string()).with_clearance("Top Secret".to_string());
    assert!(check_access(&context, &policy).is_ok());
}

#[test]
fn test_filter_properties() {
    let mut properties = PropertyMap::new();
    properties.insert("public".to_string(), PropertyValue::String("data".to_string()));
    properties.insert("secret".to_string(), PropertyValue::String("classified".to_string()));

    let mut pac = PropertyAccessControl {
        restricted_properties: Vec::new(),
        required_clearance_for_properties: Vec::new(),
    };
    pac.restricted_properties.push("secret".to_string());

    let policy = ObjectSecurityPolicy::new().with_property_access_control(pac);

    let context = SecurityContext::new("user1".to_string());
    let filtered = filter_properties(&context, &properties, &policy);

    assert!(filtered.contains_key("public"));
    assert!(!filtered.contains_key("secret"));
}

#[test]
fn test_get_policy_for_object() {
    let mut properties = PropertyMap::new();
    properties.insert("classification".to_string(), PropertyValue::String("Secret".to_string()));

    let policy = ObjectLevelSecurity::get_policy_for_object("document", &properties);
    assert!(!policy.required_clearances.is_empty());
}

#[test]
fn test_sharing_store() {
    let mut store = InMemorySharingStore::new();

    let rule = SharingRule {
        id: "rule1".to_string(),
        object_type: "Person".to_string(),
        object_id: "person1".to_string(),
        shared_with_users: ["user1".to_string()].iter().cloned().collect(),
        shared_with_groups: ["group1".to_string()].iter().cloned().collect(),
        permission: SharingPermission::Read,
        inherited: false,
        inherited_from: None,
    };

    store.add_rule(rule).unwrap();

    let rules = store.get_rules_for_object("Person", "person1");
    assert_eq!(rules.len(), 1);

    let user_rules = store.get_rules_for_user("user1");
    assert_eq!(user_rules.len(), 1);
}

#[test]
fn a_refusal_names_the_first_requirement_that_is_not_met() {
    let policy = ObjectSecurityPolicy::new()
        .with_required_role("admin".to_string())
        .with_required_role("owner".to_string())
        .with_required_badge("gold".to_string());
    let context = SecurityContext::new("u".to_string()).with_role("guest".to_string());
    assert_eq!(
        check_access(&context, &policy),
        Err(SecurityError::AccessDenied(
            "Missing required role. Required: {\"admin\", \"owner\"}, User has: {\"guest\"}".to_string()
        ))
    );
    let context = context.with_role("owner".to_string());
    assert_eq!(
        check_access(&context, &policy),
        Err(SecurityError::AccessDenied(
            "Missing required badge. Required: {\"gold\"}, User has: {}".to_string()
        ))
    );
    let context = context.with_badge("gold".to_string());
    assert_eq!(check_access(&context, &policy), Ok(()));
    assert_eq!(check_access(&SecurityContext::new("x".to_string()), &ObjectSecurityPolicy::default()), Ok(()));
    assert_eq!(
        SecurityError::AccessDenied("no".to_string()).to_string(),
        "Access denied: no"
    );
    assert_eq!(
        SecurityError::InvalidContext("who".to_string()).to_string(),
        "Invalid security context: who"
    );
}

#[test]
fn a_role_is_held_once() {
    let context = SecurityContext::new("u".to_string())
        .with_role("a".to_string())
        .with_role("a".to_string());
    assert_eq!(context.roles, vec!["a".to_string()]);
}

#[test]
fn a_property_that_asks_for_a_clearance_is_kept_from_those_without() {
    let mut properties = PropertyMap::new();
    properties.insert("name".to_string(), PropertyValue::String("n".to_string()));
    properties.insert("salary".to_string(), PropertyValue::Integer(10));
    properties.insert("hidden".to_string(), PropertyValue::Null);
    let pac = PropertyAccessControl {
        restricted_properties: vec!["hidden".to_string()],
        required_clearance_for_properties: vec![("salary".to_string(), "HR".to_string())],
    };
    let policy = ObjectSecurityPolicy::new().with_property_access_control(pac);
    let plain = SecurityContext::new("u".to_string());
    let seen = filter_properties(&plain, &properties, &policy);
    assert_eq!(seen.len(), 1);
    assert!(seen.contains_key("name"));
    let cleared = plain.with_clearance("HR".to_string());
    let seen = filter_properties(&cleared, &properties, &policy);
    assert_eq!(seen.len(), 2);
    assert_eq!(seen.get("salary"), Some(&PropertyValue::Integer(10)));
    let all = filter_properties(&cleared, &properties, &ObjectSecurityPolicy::new());
    assert_eq!(all.len(), 3);
}

#[test]
fn only_known_classifications_ask_for_a_clearance() {
    let mut properties = PropertyMap::new();
    properties.insert("classification".to_string(), PropertyValue::String("Internal".to_string()));
    assert!(ObjectLevelSecurity::get_policy_for_object("d", &properties).required_clearances.is_empty());
    properties.insert("classification".to_string(), PropertyValue::String("Top Secret".to_string()));
    assert_eq!(
        ObjectLevelSecurity::get_policy_for_object("d", &properties).required_clearances,
        vec!["Top Secret".to_string()]
    );
    properties.insert("classification".to_string(), PropertyValue::Integer(1));
    assert!(ObjectLevelSecurity::get_policy_for_object("d", &properties).required_clearances.is_empty());
}

fn rule(id: &str, object: &str, users: &[&str], groups: &[&str], permission: SharingPermission) -> SharingRule {
    SharingRule {
        id: id.to_string(),
        object_type: "Doc".to_string(),
        object_id: object.to_string(),
        shared_with_users: users.iter().map(|s| s.to_string()).collect(),
        shared_with_groups: groups.iter().map(|s| s.to_string()).collect(),
        permission,
        inherited: false,
        inherited_from: None,
    }
}

#[test]
fn permissions_cover_what_lies_below_them() {
    assert!(SharingPermission::Read.can_read());
    assert!(!SharingPermission::Read.can_write());
    assert!(SharingPermission::Write.can_write());
    assert!(!SharingPermission::Write.can_admin());
    assert!(SharingPermission::Admin.can_admin());
    assert!(has_permission(&SharingPermission::Admin, &SharingPermission::Write));
    assert!(!has_permission(&SharingPermission::Read, &SharingPermission::Write));
    assert!(has_permission(&SharingPermission::Read, &SharingPermission::Read));
}

#[test]
fn the_first_rule_that_speaks_of_the_user_decides() {
    let mut store = InMemorySharingStore::new();
    store.add_rule(rule("r1", "d1", &["ann"], &[], SharingPermission::Read)).unwrap();
    store.add_rule(rule("r2", "d1", &["ann"], &["staff"], SharingPermission::Admin)).unwrap();
    let none: Vec<String> = vec![];
    let staff = vec!["staff".to_string()];
    assert!(check_sharing_access("ann", &none, "Doc", "d1", &store, &SharingPermission::Read));
    assert!(!check_sharing_access("ann", &none, "Doc", "d1", &store, &SharingPermission::Write));
    assert!(check_sharing_access("bob", &staff, "Doc", "d1", &store, &SharingPermission::Admin));
    assert!(!check_sharing_access("bob", &none, "Doc", "d1", &store, &SharingPermission::Read));
    assert!(!check_sharing_access("ann", &none, "Doc", "d2", &store, &SharingPermission::Read));
}

#[test]
fn removing_a_rule_takes_it_out_of_every_index() {
    let mut store = InMemorySharingStore::default();
    store.add_rule(rule("r1", "d1", &["ann", "bob"], &["staff"], SharingPermission::Read)).unwrap();
    store.add_rule(rule("r2", "d1", &["ann"], &[], SharingPermission::Write)).unwrap();
    assert_eq!(store.get_rules_for_user("ann").len(), 2);
    assert_eq!(store.get_rules_for_group("staff").len(), 1);
    assert_eq!(store.remove_rule("r1"), Ok(()));
    let left = store.get_rules_for_object("Doc", "d1");
    assert_eq!(left.len(), 1);
    assert_eq!(left[0].id, "r2");
    assert_eq!(store.get_rules_for_user("bob").len(), 0);
    assert_eq!(store.get_rules_for_group("staff").len(), 0);
    assert_eq!(store.remove_rule("r1"), Err(SharingError::RuleNotFound("r1".to_string())));
    assert_eq!(SharingError::RuleNotFound("r1".to_string()).to_string(), "Sharing rule not found: r1");
    assert_eq!(SharingError::InvalidRule("x".to_string()).to_string(), "Invalid sharing rule: x");
    assert_eq!(SharingError::AccessDenied("x".to_string()).to_string(), "Access denied: x");
}

#[test]
fn objects_with_the_same_letters_in_type_and_id_are_kept_apart() {
    let mut store = InMemorySharingStore::new();
    let mut r = rule("r1", "bc", &["ann"], &[], SharingPermission::Read);
    r.object_type = "a".to_string();
    store.add_rule(r).unwrap();
    assert_eq!(store.get_rules_for_object("a", "bc").len(), 1);
    assert_eq!(store.get_rules_for_object("ab", "c").len(), 0);
}
