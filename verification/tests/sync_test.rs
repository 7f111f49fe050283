use ontology_core::columnar::ParquetStore;
use ontology_core::hydration::ObjectHydrator;
use ontology_core::property::{PropertyMap, PropertyValue};
use ontology_core::store::{
    Aggregation, AnalyticsQuery, Filter, FilterOperator, IndexedObject, StoreError,
};
use ontology_core::sync::{StoreCall, SyncEvent, SyncPlan, SyncService, SyncStep, QUEUE_CAPACITY};

fn properties() -> PropertyMap {
    let mut properties = PropertyMap::new();
    properties.insert("name".to_string(), PropertyValue::String("n".to_string()));
    properties
}

fn call_of(step: SyncStep) -> (SyncPlan, StoreCall) {
    match step {
        SyncStep::Call(plan, call) => (plan, call),
        other => panic!("expected a call, got {:?}", other),
    }
}

fn is_done(step: SyncStep) -> bool {
    matches!(step, SyncStep::Finished(Ok(())))
}

#[test]
fn a_created_object_is_indexed_and_then_written_as_a_batch_of_one() {
    for updated in [false, true] {
        let event = if updated {
            SyncEvent::ObjectUpdated { object_type: "t".to_string(), object_id: "1".to_string(), properties: properties() }
        } else {
            SyncEvent::ObjectCreated { object_type: "t".to_string(), object_id: "1".to_string(), properties: properties() }
        };
        let (plan, call) = call_of(SyncService::handle_event(event));
        match call {
            StoreCall::IndexObject { object_type, object_id, properties } => {
                assert_eq!((object_type.as_str(), object_id.as_str()), ("t", "1"));
                assert_eq!(properties.get("name"), Some(&PropertyValue::String("n".to_string())));
            }
            other => panic!("{:?}", other),
        }
        let (plan, call) = call_of(plan.advance(Ok(())));
        match call {
            StoreCall::WriteBatch { object_type, objects } => {
                assert_eq!(object_type, "t");
                assert_eq!(objects.len(), 1);
                assert_eq!(objects[0].object_id, "1");
                assert_eq!(objects[0].object_type, "t");
                assert_eq!(objects[0].properties.get("name"), Some(&PropertyValue::String("n".to_string())));
            }
            other => panic!("{:?}", other),
        }
        assert!(is_done(plan.advance(Ok(()))));
    }
}

#[test]
fn a_failed_call_drops_the_rest_of_the_event() {
    let event = SyncEvent::ObjectCreated { object_type: "t".to_string(), object_id: "1".to_string(), properties: properties() };
    let (plan, _) = call_of(SyncService::handle_event(event));
    match plan.advance(Err(StoreError::Connection("down".to_string()))) {
        SyncStep::Finished(Err(e)) => assert_eq!(e, StoreError::Connection("down".to_string())),
        other => panic!("{:?}", other),
    }
}

#[test]
fn a_deleted_object_leaves_the_search_store_only() {
    let event = SyncEvent::ObjectDeleted { object_type: "t".to_string(), object_id: "1".to_string() };
    let (plan, call) = call_of(SyncService::handle_event(event));
    assert!(matches!(call, StoreCall::DeleteObject { ref object_type, ref object_id } if object_type == "t" && object_id == "1"));
    assert!(is_done(plan.advance(Ok(()))));
}

#[test]
fn link_events_go_to_the_graph_store() {
    let event = SyncEvent::LinkCreated {
        link_type_id: "knows".to_string(),
        source_id: "a".to_string(),
        target_id: "b".to_string(),
        properties: properties(),
    };
    let (plan, call) = call_of(SyncService::handle_event(event));
    match call {
        StoreCall::CreateLink { link_type_id, source_id, target_id, properties } => {
            assert_eq!((link_type_id.as_str(), source_id.as_str(), target_id.as_str()), ("knows", "a", "b"));
            assert_eq!(properties.len(), 1);
        }
        other => panic!("{:?}", other),
    }
    assert!(is_done(plan.advance(Ok(()))));
    let (plan, call) = call_of(SyncService::handle_event(SyncEvent::LinkDeleted { link_id: "L".to_string() }));
    assert!(matches!(call, StoreCall::DeleteLink { ref link_id } if link_id == "L"));
    assert!(is_done(plan.advance(Ok(()))));
}

#[test]
fn the_waiting_path_makes_the_same_calls() {
    let (plan, call) = call_of(SyncService::sync_object("t", "1", &properties()));
    assert!(matches!(call, StoreCall::IndexObject { .. }));
    let (plan, call) = call_of(plan.advance(Ok(())));
    assert!(matches!(call, StoreCall::WriteBatch { .. }));
    assert!(is_done(plan.advance(Ok(()))));
    let call = SyncService::sync_link("knows", "a", "b", &properties());
    assert!(matches!(call, StoreCall::CreateLink { ref link_type_id, .. } if link_type_id == "knows"));
}

#[test]
fn the_service_starts_once() {
    let mut service = SyncService::new();
    assert!(!service.started);
    assert_eq!(service.start(), Ok(()));
    assert!(service.started);
    assert_eq!(service.start(), Err(StoreError::Unknown("Sync service already started".to_string())));
    assert_eq!(QUEUE_CAPACITY, 1000);
}

#[test]
fn the_columnar_store_has_one_file_for_each_type() {
    let store = ParquetStore::new("/data/columnar".to_string());
    assert_eq!(store.base_path, "/data/columnar");
    assert_eq!(store.file_path("person"), "/data/columnar/person.parquet");
    let _hydrator = ObjectHydrator::new();
}

#[test]
fn the_schema_of_a_batch_is_the_union_of_its_properties() {
    let mut first = PropertyMap::new();
    first.insert("name".to_string(), PropertyValue::String("a".to_string()));
    first.insert("age".to_string(), PropertyValue::Integer(1));
    let mut second = PropertyMap::new();
    second.insert("age".to_string(), PropertyValue::Integer(2));
    second.insert("city".to_string(), PropertyValue::Null);
    let objects = vec![
        IndexedObject::new("t".to_string(), "1".to_string(), first),
        IndexedObject::new("t".to_string(), "2".to_string(), second),
    ];
    assert_eq!(ParquetStore::infer_schema(&objects), vec!["name", "age", "city"]);
    assert!(ParquetStore::infer_schema(&vec![]).is_empty());
}

#[test]
fn analytic_queries_are_checked_before_they_run() {
    let equals = Filter {
        property: "k".to_string(),
        operator: FilterOperator::Equals,
        value: PropertyValue::Integer(1),
        distance: None,
    };
    let good = AnalyticsQuery {
        aggregations: vec![
            Aggregation::Count,
            Aggregation::Avg("p".to_string()),
            Aggregation::Median("p".to_string()),
            Aggregation::Percentile("p".to_string(), "0.95".to_string()),
            Aggregation::DistinctCount("p".to_string()),
        ],
        filters: vec![equals.clone()],
        group_by: vec!["g".to_string()],
    };
    assert_eq!(ParquetStore::validate_analytics(&good), Ok(()));
    let mut greater = equals.clone();
    greater.operator = FilterOperator::GreaterThan;
    let bad_filter = AnalyticsQuery { aggregations: vec![], filters: vec![equals.clone(), greater], group_by: vec![] };
    assert!(matches!(ParquetStore::validate_analytics(&bad_filter), Err(StoreError::Query(_))));
    for aggregation in [Aggregation::TopN("p".to_string(), 3), Aggregation::BottomN("p".to_string(), 3)] {
        let bad = AnalyticsQuery { aggregations: vec![Aggregation::Count, aggregation], filters: vec![], group_by: vec![] };
        assert!(matches!(ParquetStore::validate_analytics(&bad), Err(StoreError::Query(_))));
    }
}

#[test]
fn an_object_is_indexed_now() {
    let a = IndexedObject::new("t".to_string(), "1".to_string(), properties());
    assert!(a.indexed_at.contains('T'));
    assert!(a.indexed_at.len() >= 20);
    let b = IndexedObject::at("t".to_string(), "1".to_string(), properties(), "2024-01-01T00:00:00+00:00".to_string());
    assert_eq!(b.indexed_at, "2024-01-01T00:00:00+00:00");
}
