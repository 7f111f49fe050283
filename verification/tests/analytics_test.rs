use ontology_core::analytics::{group_rows, key_of_row, row_passes, select_rows};
use ontology_core::columnar::ParquetStore;
use ontology_core::property::{PropertyMap, PropertyValue};
use ontology_core::store::{Aggregation, AnalyticsQuery, Filter, FilterOperator, StoreError};

fn row(entries: Vec<(&str, PropertyValue)>) -> PropertyMap {
    let mut map = PropertyMap::new();
    for (name, value) in entries {
        map.insert(name.to_string(), value);
    }
    map
}

fn text(s: &str) -> PropertyValue {
    PropertyValue::String(s.to_string())
}

fn equals(property: &str, value: PropertyValue) -> Filter {
    Filter { property: property.to_string(), operator: FilterOperator::Equals, value, distance: None }
}

fn fractions(aggregation: &Aggregation, texts: &Vec<String>) -> PropertyValue {
    let numbers: Vec<f64> = texts.iter().map(|t| t.parse::<f64>().unwrap()).collect();
    if numbers.is_empty() {
        return PropertyValue::Null;
    }
    let sum: f64 = numbers.iter().sum();
    let value = match aggregation {
        Aggregation::Avg(_) => sum / numbers.len() as f64,
        Aggregation::Sum(_) => sum,
        Aggregation::Min(_) => numbers.iter().cloned().fold(f64::INFINITY, f64::min),
        Aggregation::Max(_) => numbers.iter().cloned().fold(f64::NEG_INFINITY, f64::max),
        _ => f64::NAN,
    };
    PropertyValue::Double(value.to_string())
}

fn people() -> Vec<PropertyMap> {
    vec![
        row(vec![("team", text("red")), ("score", PropertyValue::Integer(10)), ("city", text("a"))]),
        row(vec![("team", text("blue")), ("score", PropertyValue::Integer(20)), ("city", text("a"))]),
        row(vec![("team", text("red")), ("score", PropertyValue::Integer(30)), ("city", text("b"))]),
        row(vec![("team", text("red")), ("score", PropertyValue::Integer(10))]),
        row(vec![("team", text("blue")), ("score", PropertyValue::Null), ("city", text("a"))]),
    ]
}

#[test]
fn a_count_by_a_column_of_two_values_has_two_rows_that_add_up() {
    let rows = people();
    let query = AnalyticsQuery { aggregations: vec![Aggregation::Count], filters: vec![], group_by: vec!["team".to_string()] };
    let result = ParquetStore::query_analytics(&rows, &query, &fractions).unwrap();
    assert_eq!(result.rows.len(), 2);
    assert_eq!(result.total, rows.len());
    assert_eq!(result.rows[0].get("team"), Some(&text("red")));
    assert_eq!(result.rows[0].get("count"), Some(&PropertyValue::Integer(3)));
    assert_eq!(result.rows[1].get("team"), Some(&text("blue")));
    assert_eq!(result.rows[1].get("count"), Some(&PropertyValue::Integer(2)));
    let sum: i64 = result
        .rows
        .iter()
        .map(|r| match r.get("count") {
            Some(PropertyValue::Integer(n)) => *n,
            other => panic!("{:?}", other),
        })
        .sum();
    assert_eq!(sum as usize, rows.len());
}

#[test]
fn an_average_is_worked_out_on_fractions() {
    let rows = vec![
        row(vec![("p", PropertyValue::Double("10.5".to_string()))]),
        row(vec![("p", PropertyValue::Double((20.0f64).to_string()))]),
        row(vec![("p", PropertyValue::Double("15.5".to_string()))]),
    ];
    let query = AnalyticsQuery { aggregations: vec![Aggregation::Avg("p".to_string())], filters: vec![], group_by: vec![] };
    let result = ParquetStore::query_analytics(&rows, &query, &fractions).unwrap();
    assert_eq!(result.rows.len(), 1);
    match result.rows[0].get("avg_p") {
        Some(PropertyValue::Double(t)) => {
            let value: f64 = t.parse().unwrap();
            assert!((value - 15.333).abs() < 0.001, "{}", value);
        }
        other => panic!("{:?}", other),
    }
}

#[test]
fn whole_numbers_stay_whole_numbers() {
    let rows = people();
    let query = AnalyticsQuery {
        aggregations: vec![
            Aggregation::Sum("score".to_string()),
            Aggregation::Min("score".to_string()),
            Aggregation::Max("score".to_string()),
            Aggregation::DistinctCount("score".to_string()),
            Aggregation::Avg("score".to_string()),
            Aggregation::Max("city".to_string()),
            Aggregation::Min("missing".to_string()),
        ],
        filters: vec![],
        group_by: vec!["team".to_string()],
    };
    let result = ParquetStore::query_analytics(&rows, &query, &fractions).unwrap();
    let red = &result.rows[0];
    assert_eq!(red.get("sum_score"), Some(&PropertyValue::Integer(50)));
    assert_eq!(red.get("min_score"), Some(&PropertyValue::Integer(10)));
    assert_eq!(red.get("max_score"), Some(&PropertyValue::Integer(30)));
    assert_eq!(red.get("distinct_count_score"), Some(&PropertyValue::Integer(2)));
    match red.get("avg_score") {
        Some(PropertyValue::Double(t)) => assert!((t.parse::<f64>().unwrap() - 16.666).abs() < 0.001),
        other => panic!("{:?}", other),
    }
    assert_eq!(red.get("max_city"), Some(&PropertyValue::Null));
    assert_eq!(red.get("min_missing"), Some(&PropertyValue::Null));
    let blue = &result.rows[1];
    assert_eq!(blue.get("sum_score"), Some(&PropertyValue::Integer(20)));
    assert_eq!(blue.get("distinct_count_score"), Some(&PropertyValue::Integer(1)));
    assert_eq!(blue.len(), 8);
}

#[test]
fn a_sum_too_large_for_a_whole_number_is_left_to_fractions() {
    let rows = vec![
        row(vec![("p", PropertyValue::Integer(i64::MAX))]),
        row(vec![("p", PropertyValue::Integer(1))]),
        row(vec![("p", PropertyValue::Integer(-2))]),
    ];
    let sum = AnalyticsQuery { aggregations: vec![Aggregation::Sum("p".to_string())], filters: vec![], group_by: vec![] };
    let result = ParquetStore::query_analytics(&rows, &sum, &fractions).unwrap();
    assert_eq!(result.rows[0].get("sum_p"), Some(&PropertyValue::Integer(i64::MAX - 1)));
    let more = vec![
        row(vec![("p", PropertyValue::Integer(i64::MAX))]),
        row(vec![("p", PropertyValue::Integer(1))]),
    ];
    let result = ParquetStore::query_analytics(&more, &sum, &fractions).unwrap();
    assert!(matches!(result.rows[0].get("sum_p"), Some(PropertyValue::Double(_))));
    let mixed = vec![
        row(vec![("p", PropertyValue::Integer(1))]),
        row(vec![("p", PropertyValue::Double("0.5".to_string()))]),
        row(vec![("p", text("x"))]),
    ];
    let result = ParquetStore::query_analytics(&mixed, &sum, &fractions).unwrap();
    assert_eq!(result.rows[0].get("sum_p"), Some(&PropertyValue::Double("1.5".to_string())));
}

#[test]
fn equalities_are_pushed_down_before_the_groups_are_made() {
    let rows = people();
    let query = AnalyticsQuery {
        aggregations: vec![Aggregation::Count, Aggregation::Sum("score".to_string())],
        filters: vec![equals("city", text("a"))],
        group_by: vec!["team".to_string(), "city".to_string()],
    };
    let result = ParquetStore::query_analytics(&rows, &query, &fractions).unwrap();
    assert_eq!(result.total, 3);
    assert_eq!(result.rows.len(), 2);
    assert_eq!(result.rows[0].get("team"), Some(&text("red")));
    assert_eq!(result.rows[0].get("city"), Some(&text("a")));
    assert_eq!(result.rows[0].get("count"), Some(&PropertyValue::Integer(1)));
    assert_eq!(result.rows[1].get("count"), Some(&PropertyValue::Integer(2)));
    assert_eq!(result.rows[1].get("sum_score"), Some(&PropertyValue::Integer(20)));
    let nothing = AnalyticsQuery {
        aggregations: vec![Aggregation::Count],
        filters: vec![equals("city", text("nowhere"))],
        group_by: vec![],
    };
    let result = ParquetStore::query_analytics(&rows, &nothing, &fractions).unwrap();
    assert_eq!(result.total, 0);
    assert!(result.rows.is_empty());
    let all = AnalyticsQuery { aggregations: vec![Aggregation::Count], filters: vec![], group_by: vec![] };
    let result = ParquetStore::query_analytics(&rows, &all, &fractions).unwrap();
    assert_eq!(result.rows.len(), 1);
    assert_eq!(result.rows[0].get("count"), Some(&PropertyValue::Integer(5)));
}

#[test]
fn what_the_scan_cannot_do_is_refused() {
    let rows = people();
    let mut greater = equals("score", PropertyValue::Integer(1));
    greater.operator = FilterOperator::GreaterThan;
    let query = AnalyticsQuery { aggregations: vec![Aggregation::Count], filters: vec![greater], group_by: vec![] };
    assert!(matches!(ParquetStore::query_analytics(&rows, &query, &fractions), Err(StoreError::Query(_))));
    assert_eq!(
        ParquetStore::validate_analytics(&query).unwrap_err(),
        StoreError::Query("Unsupported in an analytic query: a filter that is no equality on score".to_string())
    );
    let mut less = equals("age", PropertyValue::Integer(1));
    less.operator = FilterOperator::LessThan;
    let both = AnalyticsQuery {
        aggregations: vec![
            Aggregation::Count,
            Aggregation::BottomN("b".to_string(), 1),
            Aggregation::TopN("t".to_string(), 1),
        ],
        filters: vec![equals("name", text("a")), less],
        group_by: vec![],
    };
    assert_eq!(
        ParquetStore::query_analytics(&rows, &both, &fractions).unwrap_err(),
        StoreError::Query("Unsupported in an analytic query: a filter that is no equality on age".to_string())
    );
    let unsorted = AnalyticsQuery { filters: vec![], ..both };
    assert_eq!(
        ParquetStore::query_analytics(&rows, &unsorted, &fractions).unwrap_err(),
        StoreError::Query("Unsupported in an analytic query: the smallest values of b".to_string())
    );
    let largest = AnalyticsQuery {
        aggregations: vec![Aggregation::TopN("t".to_string(), 1)],
        filters: vec![],
        group_by: vec![],
    };
    assert_eq!(
        ParquetStore::validate_analytics(&largest).unwrap_err(),
        StoreError::Query("Unsupported in an analytic query: the largest values of t".to_string())
    );
    for aggregation in [Aggregation::TopN("score".to_string(), 2), Aggregation::BottomN("score".to_string(), 2)] {
        let query = AnalyticsQuery { aggregations: vec![aggregation], filters: vec![], group_by: vec![] };
        assert!(matches!(ParquetStore::query_analytics(&rows, &query, &fractions), Err(StoreError::Query(_))));
    }
}

#[test]
fn rows_without_the_property_fall_into_the_group_of_null() {
    let rows = people();
    let by = vec!["city".to_string()];
    let chosen = select_rows(&rows, &vec![]);
    assert_eq!(chosen, vec![0, 1, 2, 3, 4]);
    let groups = group_rows(&rows, &chosen, &by);
    assert_eq!(groups.len(), 3);
    assert_eq!(groups[0].key, vec![text("a")]);
    assert_eq!(groups[0].rows, vec![0, 1, 4]);
    assert_eq!(groups[1].rows, vec![2]);
    assert_eq!(groups[2].key, vec![PropertyValue::Null]);
    assert_eq!(groups[2].rows, vec![3]);
    assert_eq!(key_of_row(&rows[3], &vec!["team".to_string(), "city".to_string()]), vec![text("red"), PropertyValue::Null]);
    assert!(row_passes(&rows[0], &vec![equals("team", text("red")), equals("score", PropertyValue::Integer(10))]));
    assert!(!row_passes(&rows[0], &vec![equals("team", text("red")), equals("score", PropertyValue::Integer(11))]));
    assert!(!row_passes(&rows[3], &vec![equals("city", PropertyValue::Null)]));
    assert_eq!(select_rows(&rows, &vec![equals("score", PropertyValue::Integer(10))]), vec![0, 3]);
}

#[test]
fn values_are_compared_at_every_level() {
    let a = PropertyValue::Mapping(vec![("k".to_string(), PropertyValue::Array(vec![PropertyValue::Integer(1)]))]);
    let b = PropertyValue::Mapping(vec![("k".to_string(), PropertyValue::Array(vec![PropertyValue::Integer(2)]))]);
    assert!(a.same_as(&a.clone()));
    assert!(!a.same_as(&b));
    assert!(!PropertyValue::Date("x".to_string()).same_as(&text("x")));
    assert!(!PropertyValue::Object(vec![]).same_as(&PropertyValue::Mapping(vec![])));
    assert!(PropertyValue::Null.same_as(&PropertyValue::Null));
    assert!(!PropertyValue::Array(vec![]).same_as(&PropertyValue::Array(vec![PropertyValue::Null])));
}
