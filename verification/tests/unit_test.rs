use ontology_core::property::{PropertyMap, PropertyValue};
use ontology_core::store::{Aggregation, Filter, FilterOperator, SearchQuery, TraversalAggregation};

#[test]
fn test_filter_creation() {
    let filter = Filter {
        property: "age".to_string(),
        operator: FilterOperator::GreaterThan,
        value: PropertyValue::Integer(18),
        distance: None,
    };

    assert_eq!(filter.property, "age");
    assert!(matches!(filter.operator, FilterOperator::GreaterThan));
    assert!(matches!(filter.value, PropertyValue::Integer(18)));
}

#[test]
fn test_search_query_creation() {
    let filter = Filter {
        property: "status".to_string(),
        operator: FilterOperator::Equals,
        value: PropertyValue::String("active".to_string()),
        distance: None,
    };

    let query = SearchQuery { filters: vec![filter], sort: None, limit: Some(10), offset: Some(0) };

    assert_eq!(query.filters.len(), 1);
    assert_eq!(query.limit, Some(10));
    assert_eq!(query.offset, Some(0));
}

#[test]
fn test_aggregation_enum() {
    let count = Aggregation::Count;
    let sum = Aggregation::Sum("value".to_string());
    let avg = Aggregation::Avg("value".to_string());
    let min = Aggregation::Min("value".to_string());
    let max = Aggregation::Max("value".to_string());

    assert!(matches!(count, Aggregation::Count));
    assert!(matches!(sum, Aggregation::Sum(_)));
    assert!(matches!(avg, Aggregation::Avg(_)));
    assert!(matches!(min, Aggregation::Min(_)));
    assert!(matches!(max, Aggregation::Max(_)));
}

#[test]
fn test_traversal_aggregation() {
    let aggregation = TraversalAggregation {
        property: "score".to_string(),
        operation: Aggregation::Sum("score".to_string()),
        object_filters: vec![],
    };

    assert_eq!(aggregation.property, "score");
    assert!(matches!(aggregation.operation, Aggregation::Sum(_)));
    assert!(aggregation.object_filters.is_empty());
}

#[test]
fn test_property_map_operations() {
    let mut map = PropertyMap::new();

    map.insert("name".to_string(), PropertyValue::String("Test".to_string()));
    map.insert("age".to_string(), PropertyValue::Integer(25));
    map.insert("active".to_string(), PropertyValue::Boolean(true));

    assert_eq!(map.len(), 3);
    assert!(map.contains_key("name"));
    assert!(map.contains_key("age"));
    assert!(map.contains_key("active"));

    if let Some(PropertyValue::String(name)) = map.get("name") {
        assert_eq!(name, "Test");
    } else {
        panic!("Expected string value");
    }
}

#[test]
fn test_filter_operators() {
    let operators = vec![
        FilterOperator::Equals,
        FilterOperator::NotEquals,
        FilterOperator::GreaterThan,
        FilterOperator::LessThan,
        FilterOperator::GreaterThanOrEqual,
        FilterOperator::LessThanOrEqual,
        FilterOperator::Contains,
        FilterOperator::StartsWith,
        FilterOperator::EndsWith,
        FilterOperator::In,
        FilterOperator::WithinDistance,
    ];

    assert_eq!(operators.len(), 11);
}

#[test]
fn groups_come_by_their_order_and_none_is_lost() {
    let mut manager = ontology_core::property_groups::PropertyGroupManager::new();
    let group = |id: &str, order: i32| {
        ontology_core::property_groups::PropertyGroup::new(id.to_string(), id.to_uppercase())
            .with_order(order)
            .with_property(format!("{}_p", id))
    };
    for (id, order) in [("c", 3), ("a", 1), ("b2", 2), ("a", 1), ("b1", 2), ("z", -4)] {
        manager.add_group(group(id, order));
    }
    let sorted = manager.get_sorted_groups();
    let ids: Vec<&str> = sorted.iter().map(|g| g.id.as_str()).collect();
    assert_eq!(ids, vec!["z", "a", "a", "b2", "b1", "c"]);
    assert_eq!(manager.get_group("b1").map(|g| g.order), Some(2));
    assert!(manager.get_group("none").is_none());
    let holding: Vec<&str> = manager.get_groups_for_property("a_p").iter().map(|g| g.id.as_str()).collect();
    assert_eq!(holding, vec!["a", "a"]);
    assert!(ontology_core::property_groups::PropertyGroupManager::new().get_sorted_groups().is_empty());
}
