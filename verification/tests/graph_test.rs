use ontology_core::graph::{
    aggregated_traversal_query, compile_condition, compile_expression, compile_reduction,
    deduplicate, delete_link, extract_ids_from_traversal, extract_link_from_target,
    filtered_traversal_query, link_nquad, links_from_answer, links_query, node_insert_nquad,
    properties_to_facets, sanitize_predicate, traversal_query, uid_from_lookup, uid_lookup_query,
    xid_from_lookup, xid_lookup_query,
};
use ontology_core::identity::{GraphAnswer, GraphRequest, UidResolution, UidStage, UidStep};
use ontology_core::json::parse_json;
use ontology_core::property::{PropertyMap, PropertyValue};
use ontology_core::store::{
    Aggregation, Filter, FilterOperator, LinkDirection, StoreError, TraversalAggregation,
};
use ontology_core::traversal::{Reduction, ReductionStep, Traversal, TraversalStep};

fn filter(property: &str, operator: FilterOperator, value: PropertyValue) -> Filter {
    Filter { property: property.to_string(), operator, value, distance: None }
}

#[test]
fn a_label_holds_letters_digits_and_underscores_only() {
    assert_eq!(sanitize_predicate("works-at.v2"), "works_at_v2");
    assert_eq!(sanitize_predicate("plain_Name9"), "plain_Name9");
    assert_eq!(sanitize_predicate("a b/c:é"), "a_b_c__");
    assert_eq!(sanitize_predicate(""), "");
    assert_eq!(sanitize_predicate(&sanitize_predicate("x-y")), sanitize_predicate("x-y"));
}

#[test]
fn lookups_name_the_id_they_ask_for() {
    assert_eq!(uid_lookup_query("person:1"), "{ objects(func: eq(xid, \"person:1\")) { uid } }");
    assert_eq!(node_insert_nquad("person:1"), "_:node <xid> \"person:1\" .");
    assert_eq!(xid_lookup_query("0x2a"), "{ node(func: uid(0x2a)) { uid xid } }");
}

#[test]
fn answers_to_lookups_are_read() {
    let found = parse_json(br#"{"objects":[{"uid":"0x1"},{"uid":"0x2"}]}"#).unwrap();
    assert_eq!(uid_from_lookup(&found), Some("0x1".to_string()));
    let empty = parse_json(br#"{"objects":[]}"#).unwrap();
    assert_eq!(uid_from_lookup(&empty), None);
    let odd = parse_json(br#"{"objects":[{"uid":7}]}"#).unwrap();
    assert_eq!(uid_from_lookup(&odd), None);
    assert_eq!(uid_from_lookup(&parse_json(b"[]").unwrap()), None);
    let node = parse_json(br#"{"node":[{"uid":"0x1","xid":"person:1"}]}"#).unwrap();
    assert_eq!(xid_from_lookup(&node, "0x1"), "person:1");
    let bare = parse_json(br#"{"node":[{"uid":"0x1"}]}"#).unwrap();
    assert_eq!(xid_from_lookup(&bare, "0x1"), "0x1");
}

#[test]
fn facets_carry_the_link_and_its_properties() {
    let mut properties = PropertyMap::new();
    properties.insert("weight".to_string(), PropertyValue::Integer(10));
    properties.insert("note".to_string(), PropertyValue::String("say \"hi\"".to_string()));
    properties.insert("gone".to_string(), PropertyValue::Null);
    properties.insert(
        "tags".to_string(),
        PropertyValue::Array(vec![PropertyValue::String("a".to_string()), PropertyValue::Integer(2)]),
    );
    properties.insert("flag".to_string(), PropertyValue::Boolean(false));
    properties.insert("ratio".to_string(), PropertyValue::Double("0.5".to_string()));
    let facets = properties_to_facets(&properties, "L1", "works-at", "2024-01-01T00:00:00+00:00");
    assert_eq!(
        facets,
        "(link_id=\"L1\", link_type_id=\"works-at\", created_at=\"2024-01-01T00:00:00+00:00\", \
         weight=\"10\", note=\"say \\\"hi\\\"\", tags=\"[\\\"a\\\",2]\", flag=\"false\", ratio=\"0.5\")"
    );
    assert_eq!(
        properties_to_facets(&PropertyMap::new(), "L", "t", "now"),
        "(link_id=\"L\", link_type_id=\"t\", created_at=\"now\")"
    );
}

#[test]
fn an_edge_is_written_as_an_nquad() {
    assert_eq!(
        link_nquad("0x1", "works-at", "0x2", "(link_id=\"L\")"),
        "<0x1> <works_at> <0x2> (link_id=\"L\") ."
    );
}

#[test]
fn a_traversal_is_nested_to_the_number_of_hops() {
    assert_eq!(
        traversal_query("0x1", "knows", 1),
        "{\n  node(func: uid(0x1)) {\n    ~knows {\n      uid\n      xid\n    }\n  }\n}\n"
    );
    assert_eq!(
        traversal_query("0x1", "works-at", 2),
        "{\n  node(func: uid(0x1)) {\n    ~works_at {\n      uid\n      xid\n      ~works_at {\n        uid\n        xid\n      }\n    }\n  }\n}\n"
    );
    let deep = traversal_query("0x1", "k", 5);
    assert_eq!(deep.matches("~k {").count(), 5);
    assert_eq!(deep.matches('{').count(), deep.matches('}').count());
}

#[test]
fn filters_stand_at_the_first_hop() {
    let filters = vec![
        filter("weight", FilterOperator::GreaterThan, PropertyValue::Integer(15)),
        filter("kind", FilterOperator::In, PropertyValue::Array(vec![
            PropertyValue::String("a".to_string()),
            PropertyValue::String("b".to_string()),
        ])),
    ];
    assert_eq!(
        compile_expression(&filters),
        Ok("gt(weight, 15) AND (eq(kind, \"a\") OR eq(kind, \"b\"))".to_string())
    );
    assert_eq!(
        filtered_traversal_query("0x1", "knows", 2, &filters).unwrap(),
        "{\n  node(func: uid(0x1)) {\n    ~knows @filter(gt(weight, 15) AND (eq(kind, \"a\") OR eq(kind, \"b\"))) {\n      uid\n      xid\n      ~knows {\n        uid\n        xid\n      }\n    }\n  }\n}\n"
    );
    assert_eq!(filtered_traversal_query("0x1", "knows", 1, &vec![]).unwrap(), traversal_query("0x1", "knows", 1));
}

#[test]
fn each_comparison_has_its_function() {
    let cases = vec![
        (FilterOperator::Equals, "eq(p, 1)"),
        (FilterOperator::GreaterThan, "gt(p, 1)"),
        (FilterOperator::LessThan, "lt(p, 1)"),
        (FilterOperator::GreaterThanOrEqual, "ge(p, 1)"),
        (FilterOperator::LessThanOrEqual, "le(p, 1)"),
    ];
    for (operator, expected) in cases {
        assert_eq!(compile_condition(&filter("p", operator, PropertyValue::Integer(1))), Ok(expected.to_string()));
    }
    assert_eq!(
        compile_condition(&filter("p", FilterOperator::Equals, PropertyValue::String("a\"b".to_string()))),
        Ok("eq(p, \"a\\\"b\")".to_string())
    );
    assert_eq!(
        compile_condition(&filter("p", FilterOperator::Equals, PropertyValue::Double("1.5".to_string()))),
        Ok("eq(p, 1.5)".to_string())
    );
    assert_eq!(
        compile_condition(&filter("p", FilterOperator::Equals, PropertyValue::Boolean(true))),
        Ok("eq(p, true)".to_string())
    );
}

#[test]
fn what_the_graph_cannot_filter_is_refused() {
    let refused = vec![
        filter("p", FilterOperator::NotEquals, PropertyValue::Integer(1)),
        filter("p", FilterOperator::Contains, PropertyValue::String("a".to_string())),
        filter("p", FilterOperator::StartsWith, PropertyValue::String("a".to_string())),
        filter("p", FilterOperator::EndsWith, PropertyValue::String("a".to_string())),
        filter("p", FilterOperator::NotIn, PropertyValue::Array(vec![PropertyValue::Integer(1)])),
        filter("p", FilterOperator::Within, PropertyValue::GeoJSON("{}".to_string())),
        filter("p", FilterOperator::WithinDistance, PropertyValue::GeoJSON("{}".to_string())),
        filter("p", FilterOperator::In, PropertyValue::Integer(1)),
        filter("p", FilterOperator::In, PropertyValue::Array(vec![])),
        filter("p", FilterOperator::In, PropertyValue::Array(vec![PropertyValue::Null])),
        filter("p", FilterOperator::Equals, PropertyValue::Null),
        filter("p", FilterOperator::Equals, PropertyValue::Array(vec![])),
    ];
    for f in refused {
        assert!(matches!(compile_condition(&f), Err(StoreError::Query(_))), "{:?}", f);
        let with_good = vec![filter("q", FilterOperator::Equals, PropertyValue::Integer(1)), f];
        assert!(matches!(compile_expression(&with_good), Err(StoreError::Query(_))));
        assert!(matches!(filtered_traversal_query("0x1", "k", 1, &with_good), Err(StoreError::Query(_))));
    }
}

#[test]
fn a_reduction_stands_inside_the_last_hop() {
    let aggregation = TraversalAggregation {
        property: "score".to_string(),
        operation: Aggregation::Sum("score".to_string()),
        object_filters: vec![filter("active", FilterOperator::Equals, PropertyValue::Boolean(true))],
    };
    assert_eq!(compile_reduction(&aggregation), Ok("sum(score)".to_string()));
    assert_eq!(
        aggregated_traversal_query("0x1", "knows", 2, &aggregation).unwrap(),
        "{\n  node(func: uid(0x1)) {\n    ~knows {\n      uid\n      xid\n      ~knows @filter(eq(active, true)) {\n        uid\n        xid\n        value: sum(score)\n      }\n    }\n  }\n}\n"
    );
    let kinds = vec![
        (Aggregation::Count, "count(uid)"),
        (Aggregation::Avg("x".to_string()), "avg(score)"),
        (Aggregation::Min("x".to_string()), "min(score)"),
        (Aggregation::Max("x".to_string()), "max(score)"),
    ];
    for (operation, expected) in kinds {
        let a = TraversalAggregation { property: "score".to_string(), operation, object_filters: vec![] };
        assert_eq!(compile_reduction(&a), Ok(expected.to_string()));
    }
    let refused = vec![
        Aggregation::Median("x".to_string()),
        Aggregation::StdDev("x".to_string()),
        Aggregation::Variance("x".to_string()),
        Aggregation::Percentile("x".to_string(), "0.9".to_string()),
        Aggregation::DistinctCount("x".to_string()),
        Aggregation::TopN("x".to_string(), 3),
        Aggregation::BottomN("x".to_string(), 3),
    ];
    for operation in refused {
        let a = TraversalAggregation { property: "score".to_string(), operation, object_filters: vec![] };
        assert!(matches!(compile_reduction(&a), Err(StoreError::Query(_))));
        assert!(matches!(aggregated_traversal_query("0x1", "k", 1, &a), Err(StoreError::Query(_))));
    }
}

#[test]
fn node_handles_are_collected_once_even_with_parallel_edges() {
    let answer = parse_json(
        br#"{"node":[{"~knows":[{"uid":"0x2","xid":"b"},{"uid":"0x3","~knows":[{"uid":"0x4"},{"uid":"0x2"}]},{"uid":"0x2"}]}]}"#,
    )
    .unwrap();
    let mut ids = vec!["0x9".to_string()];
    extract_ids_from_traversal(&answer, &mut ids);
    assert_eq!(ids, vec!["0x9", "0x2", "0x3", "0x4"]);
    let mut none: Vec<String> = vec![];
    extract_ids_from_traversal(&parse_json(b"[{\"uid\":\"0x1\"}]").unwrap(), &mut none);
    assert!(none.is_empty());
    assert_eq!(
        deduplicate(&vec!["b".to_string(), "a".to_string(), "b".to_string(), "a".to_string(), "c".to_string()]),
        vec!["b", "a", "c"]
    );
}

#[test]
fn links_are_read_out_of_an_answer_with_what_their_facets_carry() {
    let answer = parse_json(
        br#"{"node":[{"works_at":[{"uid":"0x2","xid":"org:1","works_at|link_id":"L1","works_at|link_type_id":"works-at","works_at|created_at":"2024-01-01T00:00:00+00:00","works_at|weight":10,"works_at|note":"n","other|x":1},{"uid":"0x3","works_at|link_id":"L2"}]},{"other":[]},{"works_at":[{"uid":"0x4","xid":"org:2","works_at|link_id":"L3","works_at|since":true}]}]}"#,
    )
    .unwrap();
    let links = links_from_answer(&answer, "person:1", "works-at", Some(LinkDirection::Outgoing)).unwrap();
    assert_eq!(links.len(), 3);
    assert_eq!(links[0].link_id, "L1");
    assert_eq!(links[0].created_at, "2024-01-01T00:00:00+00:00");
    assert_eq!(links[0].target_id, "org:1");
    assert_eq!(links[0].properties.len(), 2);
    assert_eq!(links[0].properties.get("weight"), Some(&PropertyValue::Integer(10)));
    assert_eq!(links[0].properties.get("note"), Some(&PropertyValue::String("n".to_string())));
    assert_eq!(links[1].link_id, "L2");
    assert_eq!(links[1].target_id, "0x3");
    assert_eq!(links[1].created_at, "");
    assert!(links[1].properties.is_empty());
    assert_eq!(links[2].target_id, "org:2");
    assert_eq!(links[2].properties.get("since"), Some(&PropertyValue::Boolean(true)));
    assert!(links.iter().all(|l| l.source_id == "person:1" && l.link_type_id == "works-at"));
    let no_uid = parse_json(br#"{"node":[{"works_at":[{"xid":"org:1","works_at|link_id":"L"}]}]}"#).unwrap();
    assert_eq!(
        links_from_answer(&no_uid, "person:1", "works-at", None).unwrap_err(),
        StoreError::ReadError("Missing uid in target".to_string())
    );
    let no_id = parse_json(br#"{"node":[{"works_at":[{"uid":"0x2","xid":"org:1"}]}]}"#).unwrap();
    assert_eq!(
        links_from_answer(&no_id, "person:1", "works-at", None).unwrap_err(),
        StoreError::ReadError("Missing link_id in target".to_string())
    );
    assert_eq!(
        extract_link_from_target(&parse_json(b"{}").unwrap(), "s", "t").unwrap_err(),
        StoreError::ReadError("Missing uid in target".to_string())
    );
    assert!(links_from_answer(&parse_json(b"{}").unwrap(), "s", "t", None).unwrap().is_empty());
}

#[test]
fn a_link_that_was_written_is_read_back_with_its_id_and_properties() {
    let mut properties = PropertyMap::new();
    properties.insert("weight".to_string(), PropertyValue::Integer(3));
    properties.insert("ratio".to_string(), PropertyValue::Double("0.5".to_string()));
    properties.insert("active".to_string(), PropertyValue::Boolean(true));
    properties.insert("note".to_string(), PropertyValue::String("n".to_string()));
    let mutation = ontology_core::graph::create_link_mutation("works-at", "0x1", "0x2", &properties);
    let answer = format!(
        r#"{{"node":[{{"works_at":[{{"uid":"0x2","xid":"org:1","works_at|link_id":"{}","works_at|link_type_id":"works-at","works_at|created_at":"{}","works_at|weight":"3","works_at|ratio":"0.5","works_at|active":"true","works_at|note":"n"}}]}}]}}"#,
        mutation.link_id, mutation.created_at
    );
    let links =
        links_from_answer(&parse_json(answer.as_bytes()).unwrap(), "person:1", "works-at", None).unwrap();
    assert_eq!(links.len(), 1);
    assert_eq!(links[0].link_id, mutation.link_id);
    assert_eq!(links[0].created_at, mutation.created_at);
    assert_eq!(links[0].properties.len(), properties.len());
    for (name, value) in properties.iter() {
        assert_eq!(links[0].properties.get(name), Some(&PropertyValue::String(value.to_string())));
    }
}

#[test]
fn links_are_asked_for_in_the_direction_given() {
    assert_eq!(
        links_query("0x1", Some("works-at"), Some(LinkDirection::Outgoing)),
        Ok("{ node(func: uid(0x1)) { works_at @facets { uid xid } } }".to_string())
    );
    assert_eq!(
        links_query("0x1", Some("works-at"), Some(LinkDirection::Incoming)),
        Ok("{ node(func: uid(0x1)) { ~works_at @facets { uid xid } } }".to_string())
    );
    let both = "{ node(func: uid(0x1)) { works_at @facets { uid xid } ~works_at @facets { uid xid } } }";
    assert_eq!(links_query("0x1", Some("works-at"), Some(LinkDirection::Both)), Ok(both.to_string()));
    assert_eq!(links_query("0x1", Some("works-at"), None), Ok(both.to_string()));
}

#[test]
fn links_of_no_given_type_are_refused() {
    let refusal = StoreError::Query("Unsupported in a graph traversal: links of no given type".to_string());
    assert_eq!(links_query("0x1", None, None), Err(refusal.clone()));
    assert_eq!(links_query("0x1", None, Some(LinkDirection::Incoming)), Err(refusal));
}

#[test]
fn incoming_links_are_read_with_the_object_as_their_target() {
    let answer = parse_json(
        br#"{"node":[{"works_at":[{"uid":"0x2","xid":"org:1","works_at|link_id":"L1"}],"~works_at":[{"uid":"0x5","xid":"person:9","~works_at|link_id":"L7","~works_at|created_at":"then","~works_at|role":"lead"},{"uid":"0x6","~works_at|link_id":"L8"}]}]}"#,
    )
    .unwrap();
    let arriving = links_from_answer(&answer, "org:7", "works-at", Some(LinkDirection::Incoming)).unwrap();
    assert_eq!(arriving.len(), 2);
    assert_eq!(arriving[0].link_id, "L7");
    assert_eq!(arriving[0].source_id, "person:9");
    assert_eq!(arriving[0].target_id, "org:7");
    assert_eq!(arriving[0].created_at, "then");
    assert_eq!(arriving[0].properties.len(), 1);
    assert_eq!(arriving[0].properties.get("role"), Some(&PropertyValue::String("lead".to_string())));
    assert_eq!(arriving[1].source_id, "0x6");
    let leaving = links_from_answer(&answer, "org:7", "works-at", Some(LinkDirection::Outgoing)).unwrap();
    assert_eq!(leaving.len(), 1);
    assert_eq!((leaving[0].source_id.as_str(), leaving[0].target_id.as_str()), ("org:7", "org:1"));
    let both = links_from_answer(&answer, "org:7", "works-at", None).unwrap();
    let ids: Vec<&str> = both.iter().map(|l| l.link_id.as_str()).collect();
    assert_eq!(ids, vec!["L1", "L7", "L8"]);
    let again = links_from_answer(&answer, "org:7", "works-at", Some(LinkDirection::Both)).unwrap();
    assert_eq!(again.iter().map(|l| l.link_id.as_str()).collect::<Vec<&str>>(), ids);
}

#[test]
fn the_first_node_that_cannot_be_read_gives_the_error() {
    let answer = parse_json(
        br#"{"node":[{"works_at":[{"uid":"0x2","works_at|link_id":"L1"},{"uid":"0x3"},{"xid":"x"}],"~works_at":[{"xid":"y"}]}]}"#,
    )
    .unwrap();
    assert_eq!(
        links_from_answer(&answer, "o", "works-at", None).unwrap_err(),
        StoreError::ReadError("Missing link_id in target".to_string())
    );
    assert_eq!(
        links_from_answer(&answer, "o", "works-at", Some(LinkDirection::Incoming)).unwrap_err(),
        StoreError::ReadError("Missing uid in target".to_string())
    );
}

#[test]
fn deleting_a_link_is_refused() {
    assert_eq!(
        delete_link("L1"),
        Err(StoreError::Query("Delete by link_id requires reverse indexing - not yet implemented".to_string()))
    );
}

fn ask(step: UidStep) -> (UidResolution, GraphRequest) {
    match step {
        UidStep::Ask(resolution, request) => (resolution, request),
        other => panic!("expected a request, got {:?}", other),
    }
}

#[test]
fn a_known_object_is_resolved_by_one_lookup() {
    let (resolution, request) = ask(UidResolution::begin("person:1"));
    assert_eq!(request, GraphRequest::Query(uid_lookup_query("person:1")));
    assert_eq!(resolution.stage, UidStage::Lookup);
    let step = resolution.advance(&GraphAnswer::Data(br#"{"objects":[{"uid":"0x7"}]}"#.to_vec()));
    assert_eq!(step, UidStep::Found("0x7".to_string()));
}

#[test]
fn an_unknown_object_is_made_and_looked_up_again() {
    let (resolution, _) = ask(UidResolution::begin("person:1"));
    let (resolution, request) = ask(resolution.advance(&GraphAnswer::Data(br#"{"objects":[]}"#.to_vec())));
    assert_eq!(request, GraphRequest::Mutate("_:node <xid> \"person:1\" .".to_string()));
    let (resolution, request) = ask(resolution.advance(&GraphAnswer::Done));
    assert_eq!(request, GraphRequest::Commit);
    let (resolution, request) = ask(resolution.advance(&GraphAnswer::Done));
    assert_eq!(request, GraphRequest::Query(uid_lookup_query("person:1")));
    assert_eq!(resolution.stage, UidStage::Recheck);
    let again = resolution.clone();
    assert_eq!(
        resolution.advance(&GraphAnswer::Data(br#"{"objects":[{"uid":"0x8"}]}"#.to_vec())),
        UidStep::Found("0x8".to_string())
    );
    assert_eq!(
        again.advance(&GraphAnswer::Data(br#"{"objects":[]}"#.to_vec())),
        UidStep::Failed(StoreError::WriteError("Failed to get or create UID for person:1".to_string()))
    );
}

#[test]
fn every_failure_of_a_resolution_has_its_error() {
    let (lookup, _) = ask(UidResolution::begin("x"));
    assert_eq!(
        lookup.clone().advance(&GraphAnswer::Failed("down".to_string())),
        UidStep::Failed(StoreError::ReadError("Query error: down".to_string()))
    );
    assert_eq!(
        lookup.clone().advance(&GraphAnswer::Done),
        UidStep::Failed(StoreError::ReadError("Query error: no data".to_string()))
    );
    match lookup.clone().advance(&GraphAnswer::Data(b"not json".to_vec())) {
        UidStep::Failed(StoreError::ReadError(message)) => assert!(message.starts_with("Parse error: ")),
        other => panic!("{:?}", other),
    }
    let (insert, _) = ask(lookup.advance(&GraphAnswer::Data(b"{}".to_vec())));
    assert_eq!(
        insert.clone().advance(&GraphAnswer::Failed("full".to_string())),
        UidStep::Failed(StoreError::WriteError("Mutation error: full".to_string()))
    );
    let (commit, _) = ask(insert.advance(&GraphAnswer::Done));
    assert_eq!(
        commit.advance(&GraphAnswer::Failed("conflict".to_string())),
        UidStep::Failed(StoreError::WriteError("Commit error: conflict".to_string()))
    );
}

fn query_of(step: TraversalStep) -> (Traversal, String) {
    match step {
        TraversalStep::Ask(traversal, query) => (traversal, query),
        other => panic!("expected a query, got {:?}", other),
    }
}

fn reached(step: TraversalStep) -> Vec<String> {
    match step {
        TraversalStep::Finished(Ok(ids)) => ids,
        other => panic!("expected the end, got {:?}", other),
    }
}

#[test]
fn a_traversal_asks_for_each_link_type_and_then_for_each_node() {
    let types = vec!["knows".to_string(), "works-at".to_string()];
    let (t, query) = query_of(Traversal::begin("0x1", types, 1, &vec![]));
    assert_eq!(query, traversal_query("0x1", "knows", 1));
    let (t, query) = query_of(t.advance(&GraphAnswer::Data(
        br#"{"node":[{"~knows":[{"uid":"0x2"},{"uid":"0x3"},{"uid":"0x2"}]}]}"#.to_vec(),
    )));
    assert_eq!(query, traversal_query("0x1", "works-at", 1));
    let (t, query) = query_of(t.advance(&GraphAnswer::Data(
        br#"{"node":[{"~works_at":[{"uid":"0x3"},{"uid":"0x4"}]}]}"#.to_vec(),
    )));
    assert_eq!(query, xid_lookup_query("0x2"));
    let (t, query) = query_of(t.advance(&GraphAnswer::Data(br#"{"node":[{"uid":"0x2","xid":"b"}]}"#.to_vec())));
    assert_eq!(query, xid_lookup_query("0x3"));
    let (t, query) = query_of(t.advance(&GraphAnswer::Data(br#"{"node":[{"uid":"0x3","xid":"c"}]}"#.to_vec())));
    assert_eq!(query, xid_lookup_query("0x4"));
    let ids = reached(t.advance(&GraphAnswer::Data(br#"{"node":[{"uid":"0x4","xid":"b"}]}"#.to_vec())));
    assert_eq!(ids, vec!["b", "c"]);
}

#[test]
fn one_hop_reaches_each_neighbour_once() {
    let (t, query) = query_of(Traversal::begin_connected("0x1", "knows"));
    assert_eq!(query, traversal_query("0x1", "knows", 1));
    let (t, _) = query_of(t.advance(&GraphAnswer::Data(
        br#"{"node":[{"~knows":[{"uid":"0x2"},{"uid":"0x2"},{"uid":"0x3"}]}]}"#.to_vec(),
    )));
    let (t, _) = query_of(t.advance(&GraphAnswer::Data(br#"{"node":[{"xid":"b"}]}"#.to_vec())));
    assert_eq!(reached(t.advance(&GraphAnswer::Data(br#"{"node":[]}"#.to_vec()))), vec!["b", "0x3"]);
}

#[test]
fn a_traversal_ends_at_once_where_there_is_nothing_to_ask() {
    assert!(reached(Traversal::begin("0x1", vec!["k".to_string()], 0, &vec![])).is_empty());
    assert!(reached(Traversal::begin("0x1", vec![], 3, &vec![])).is_empty());
    match Traversal::begin("0x1", vec!["k".to_string()], usize::MAX, &vec![]) {
        TraversalStep::Finished(Err(StoreError::Query(_))) => {}
        other => panic!("{:?}", other),
    }
    let bad = vec![filter("p", FilterOperator::Contains, PropertyValue::String("a".to_string()))];
    match Traversal::begin("0x1", vec!["k".to_string()], 1, &bad) {
        TraversalStep::Finished(Err(StoreError::Query(_))) => {}
        other => panic!("{:?}", other),
    }
    let (t, _) = query_of(Traversal::begin("0x1", vec!["k".to_string()], 1, &vec![]));
    match t.advance(&GraphAnswer::Failed("down".to_string())) {
        TraversalStep::Finished(Err(e)) => assert_eq!(e, StoreError::ReadError("Query error: down".to_string())),
        other => panic!("{:?}", other),
    }
}

#[test]
fn a_filtered_traversal_sends_its_condition_with_every_link_type() {
    let filters = vec![filter("weight", FilterOperator::GreaterThan, PropertyValue::Integer(10))];
    let (_, query) = query_of(Traversal::begin("0x1", vec!["k".to_string()], 1, &filters));
    assert_eq!(query, filtered_traversal_query("0x1", "k", 1, &filters).unwrap());
}

fn fractions(aggregation: &Aggregation, texts: &Vec<String>) -> PropertyValue {
    let numbers: Vec<f64> = texts.iter().map(|t| t.parse::<f64>().unwrap()).collect();
    if numbers.is_empty() {
        return PropertyValue::Null;
    }
    let sum: f64 = numbers.iter().sum();
    let value = match aggregation {
        Aggregation::Avg(_) => sum / numbers.len() as f64,
        _ => sum,
    };
    PropertyValue::Double(value.to_string())
}

fn reduction_query(step: ReductionStep) -> (Reduction, String) {
    match step {
        ReductionStep::Ask(reduction, query) => (reduction, query),
        other => panic!("expected a query, got {:?}", other),
    }
}

fn reduced(step: ReductionStep) -> (PropertyValue, usize) {
    match step {
        ReductionStep::Gathered(reduction) => {
            let result = reduction.result(&fractions);
            assert_eq!(result.count, reduction.count());
            (result.value, result.count)
        }
        other => panic!("expected the end, got {:?}", other),
    }
}

fn aggregation(operation: Aggregation) -> TraversalAggregation {
    TraversalAggregation { property: "score".to_string(), operation, object_filters: vec![] }
}

#[test]
fn a_reduction_asks_every_link_type_and_counts_each_object_once() {
    let types = vec!["owns".to_string(), "rents".to_string()];
    let (r, query) = reduction_query(Reduction::begin("0x1", types, 1, aggregation(Aggregation::Sum("score".to_string()))));
    assert_eq!(
        query,
        "{\n  node(func: uid(0x1)) {\n    ~owns {\n      uid\n      xid\n      value: score\n    }\n  }\n}\n"
    );
    let (r, query) = reduction_query(r.advance(&GraphAnswer::Data(
        br#"{"node":[{"~owns":[{"uid":"0x2","value":10},{"uid":"0x3","value":20},{"uid":"0x2","value":10},{"uid":"0x5"}]}]}"#.to_vec(),
    )));
    assert!(query.contains("~rents {"));
    let done = r.advance(&GraphAnswer::Data(
        br#"{"node":[{"~rents":[{"uid":"0x3","value":20},{"uid":"0x4","value":5}]}]}"#.to_vec(),
    ));
    assert_eq!(reduced(done), (PropertyValue::Integer(35), 3));
}

#[test]
fn each_reduction_is_taken_over_the_same_objects() {
    let answer = br#"{"node":[{"~k":[{"uid":"0x2","value":10},{"uid":"0x3","value":20},{"uid":"0x4","value":30}]}]}"#;
    let cases = vec![
        (Aggregation::Sum("score".to_string()), PropertyValue::Integer(60)),
        (Aggregation::Min("score".to_string()), PropertyValue::Integer(10)),
        (Aggregation::Max("score".to_string()), PropertyValue::Integer(30)),
        (Aggregation::Avg("score".to_string()), PropertyValue::Double("20".to_string())),
    ];
    for (operation, expected) in cases {
        let (r, _) = reduction_query(Reduction::begin("0x1", vec!["k".to_string()], 1, aggregation(operation)));
        assert_eq!(reduced(r.advance(&GraphAnswer::Data(answer.to_vec()))), (expected, 3));
    }
    let (r, query) = reduction_query(Reduction::begin("0x1", vec!["k".to_string()], 1, aggregation(Aggregation::Count)));
    assert!(!query.contains("value:"));
    let counted = reduced(r.advance(&GraphAnswer::Data(br#"{"node":[{"~k":[{"uid":"0x2"},{"uid":"0x3"},{"uid":"0x2"}]}]}"#.to_vec())));
    assert_eq!(counted, (PropertyValue::Integer(2), 2));
}

#[test]
fn a_reduction_is_taken_over_the_last_hop_only() {
    let (r, query) = reduction_query(Reduction::begin("0x1", vec!["k".to_string()], 2, aggregation(Aggregation::Sum("score".to_string()))));
    assert_eq!(query.matches("~k {").count(), 2);
    assert_eq!(query.matches("value: score").count(), 1);
    let done = r.advance(&GraphAnswer::Data(
        br#"{"node":[{"~k":[{"uid":"0x2","value":100,"~k":[{"uid":"0x3","value":1},{"uid":"0x4","value":2.5}]},{"uid":"0x5","~k":[{"uid":"0x3","value":1}]}]}]}"#.to_vec(),
    ));
    assert_eq!(reduced(done), (PropertyValue::Double("3.5".to_string()), 2));
}

#[test]
fn a_reduction_over_nothing_counts_nothing() {
    let sum = || aggregation(Aggregation::Sum("score".to_string()));
    assert_eq!(reduced(Reduction::begin("0x1", vec!["k".to_string()], 0, sum())), (PropertyValue::Integer(0), 0));
    assert_eq!(reduced(Reduction::begin("0x1", vec![], 2, sum())), (PropertyValue::Integer(0), 0));
    let (r, _) = reduction_query(Reduction::begin("0x1", vec!["k".to_string()], 1, sum()));
    assert_eq!(reduced(r.advance(&GraphAnswer::Data(b"{}".to_vec()))), (PropertyValue::Integer(0), 0));
    let (r, _) = reduction_query(Reduction::begin("0x1", vec!["k".to_string()], 1, aggregation(Aggregation::Max("score".to_string()))));
    assert_eq!(reduced(r.advance(&GraphAnswer::Data(b"{}".to_vec()))), (PropertyValue::Null, 0));
}

#[test]
fn a_reduction_ends_with_the_error_of_the_database() {
    let (r, _) = reduction_query(Reduction::begin("0x1", vec!["k".to_string()], 1, aggregation(Aggregation::Sum("score".to_string()))));
    match r.advance(&GraphAnswer::Failed("down".to_string())) {
        ReductionStep::Failed(e) => assert_eq!(e, StoreError::ReadError("Query error: down".to_string())),
        other => panic!("{:?}", other),
    }
    match Reduction::begin("0x1", vec!["k".to_string()], 1, aggregation(Aggregation::Median("score".to_string()))) {
        ReductionStep::Failed(StoreError::Query(_)) => {}
        other => panic!("{:?}", other),
    }
    let mut filtered = aggregation(Aggregation::Count);
    filtered.object_filters = vec![filter("p", FilterOperator::Contains, PropertyValue::String("a".to_string()))];
    match Reduction::begin("0x1", vec!["k".to_string()], 1, filtered) {
        ReductionStep::Failed(StoreError::Query(_)) => {}
        other => panic!("{:?}", other),
    }
}

#[test]
fn a_traversal_ends_with_the_error_of_a_failed_id_lookup() {
    let (t, _) = query_of(Traversal::begin("0x1", vec!["k".to_string()], 1, &vec![]));
    let (t, query) = query_of(t.advance(&GraphAnswer::Data(br#"{"node":[{"~k":[{"uid":"0x2"}]}]}"#.to_vec())));
    assert_eq!(query, xid_lookup_query("0x2"));
    match t.advance(&GraphAnswer::Failed("down".to_string())) {
        TraversalStep::Finished(Err(e)) => assert_eq!(e, StoreError::ReadError("Query error: down".to_string())),
        other => panic!("{:?}", other),
    }
}

#[test]
fn a_link_is_made_with_its_id_and_time_in_its_facets() {
    let mut properties = PropertyMap::new();
    properties.insert("weight".to_string(), PropertyValue::Integer(3));
    let mutation = ontology_core::graph::create_link_mutation("works-at", "0x1", "0x2", &properties);
    assert_eq!(mutation.link_id.len(), 36);
    assert_eq!(
        mutation.nquad,
        format!(
            "<0x1> <works_at> <0x2> (link_id=\"{}\", link_type_id=\"works-at\", created_at=\"{}\", weight=\"3\") .",
            mutation.link_id, mutation.created_at
        )
    );
    let other = ontology_core::graph::create_link_mutation("works-at", "0x1", "0x2", &properties);
    assert_ne!(mutation.link_id, other.link_id);
    assert!(mutation.link_id.chars().all(|c| c == '-' || c.is_ascii_digit() || ('a'..='f').contains(&c)));
    assert!(ontology_core::graph::schema_definition().contains("xid: string @index(exact) ."));
    assert_eq!(
        ontology_core::graph::link_write_error(false, "full"),
        StoreError::WriteError("Link creation error: full".to_string())
    );
    assert_eq!(
        ontology_core::graph::link_write_error(true, "late"),
        StoreError::WriteError("Commit error: late".to_string())
    );
}

fn link_request(step: ontology_core::linking::LinkStep) -> (ontology_core::linking::LinkCreation, GraphRequest) {
    match step {
        ontology_core::linking::LinkStep::Ask(creation, request) => (creation, request),
        other => panic!("expected a request, got {:?}", other),
    }
}

fn begin_link() -> ontology_core::linking::LinkStep {
    let mut properties = PropertyMap::new();
    properties.insert("weight".to_string(), PropertyValue::Integer(3));
    ontology_core::linking::LinkCreation::begin("works-at", "person:1", "org:1", &properties)
}

#[test]
fn a_link_is_made_between_the_nodes_of_its_two_objects() {
    let (c, request) = link_request(begin_link());
    assert_eq!(request, GraphRequest::Query(uid_lookup_query("person:1")));
    let (c, request) = link_request(c.advance(&GraphAnswer::Data(br#"{"objects":[{"uid":"0x1"}]}"#.to_vec())));
    assert_eq!(request, GraphRequest::Query(uid_lookup_query("org:1")));
    let (c, request) = link_request(c.advance(&GraphAnswer::Data(br#"{"objects":[]}"#.to_vec())));
    assert_eq!(request, GraphRequest::Mutate("_:node <xid> \"org:1\" .".to_string()));
    let (c, request) = link_request(c.advance(&GraphAnswer::Done));
    assert_eq!(request, GraphRequest::Commit);
    let (c, request) = link_request(c.advance(&GraphAnswer::Done));
    assert_eq!(request, GraphRequest::Query(uid_lookup_query("org:1")));
    let (c, request) = link_request(c.advance(&GraphAnswer::Data(br#"{"objects":[{"uid":"0x2"}]}"#.to_vec())));
    let nquad = match request {
        GraphRequest::Mutate(nquad) => nquad,
        other => panic!("{:?}", other),
    };
    assert!(nquad.starts_with("<0x1> <works_at> <0x2> (link_id=\""), "{}", nquad);
    assert!(nquad.ends_with(", weight=\"3\") ."), "{}", nquad);
    let (c, request) = link_request(c.advance(&GraphAnswer::Done));
    assert_eq!(request, GraphRequest::Commit);
    match c.advance(&GraphAnswer::Done) {
        ontology_core::linking::LinkStep::Created(link_id) => {
            assert_eq!(link_id.len(), 36);
            assert!(nquad.contains(&format!("link_id=\"{}\"", link_id)));
        }
        other => panic!("{:?}", other),
    }
}

#[test]
fn a_link_that_cannot_be_written_fails_with_a_write_error() {
    let found = |uid: &str| GraphAnswer::Data(format!(r#"{{"objects":[{{"uid":"{}"}}]}}"#, uid).into_bytes());
    let (c, _) = link_request(begin_link());
    match c.advance(&GraphAnswer::Failed("down".to_string())) {
        ontology_core::linking::LinkStep::Failed(e) => assert_eq!(e, StoreError::ReadError("Query error: down".to_string())),
        other => panic!("{:?}", other),
    }
    let (c, _) = link_request(begin_link());
    let (c, _) = link_request(c.advance(&found("0x1")));
    let (c, _) = link_request(c.advance(&found("0x2")));
    match c.advance(&GraphAnswer::Failed("full".to_string())) {
        ontology_core::linking::LinkStep::Failed(e) => {
            assert_eq!(e, StoreError::WriteError("Link creation error: full".to_string()))
        }
        other => panic!("{:?}", other),
    }
    let (c, _) = link_request(begin_link());
    let (c, _) = link_request(c.advance(&found("0x1")));
    let (c, _) = link_request(c.advance(&found("0x2")));
    let (c, _) = link_request(c.advance(&GraphAnswer::Done));
    match c.advance(&GraphAnswer::Failed("late".to_string())) {
        ontology_core::linking::LinkStep::Failed(e) => assert_eq!(e, StoreError::WriteError("Commit error: late".to_string())),
        other => panic!("{:?}", other),
    }
}

#[test]
fn a_refused_traversal_says_what_is_unsupported() {
    let says = |what: &str| StoreError::Query(format!("Unsupported in a graph traversal: {}", what));
    let wildcard = filter("p", FilterOperator::Contains, PropertyValue::String("a".to_string()));
    let no_literal = filter("p", FilterOperator::Equals, PropertyValue::Null);
    let no_list = filter("p", FilterOperator::In, PropertyValue::Integer(1));
    let empty = filter("p", FilterOperator::In, PropertyValue::Array(vec![]));
    let odd = filter("p", FilterOperator::In, PropertyValue::Array(vec![PropertyValue::Integer(1), PropertyValue::Null]));
    assert_eq!(compile_condition(&wildcard).unwrap_err(), says("the operator"));
    assert_eq!(compile_condition(&no_literal).unwrap_err(), says("a value that has no literal"));
    assert_eq!(compile_condition(&no_list).unwrap_err(), says("a value that is no list"));
    assert_eq!(compile_condition(&empty).unwrap_err(), says("a list without values"));
    assert_eq!(compile_condition(&odd).unwrap_err(), says("a value that has no literal"));
    let fine = filter("p", FilterOperator::Equals, PropertyValue::Integer(1));
    let filters = vec![fine.clone(), empty.clone(), wildcard.clone()];
    assert_eq!(compile_expression(&filters).unwrap_err(), says("a list without values"));
    assert_eq!(filtered_traversal_query("0x1", "k", 1, &filters).unwrap_err(), says("a list without values"));
    let median = TraversalAggregation {
        property: "score".to_string(),
        operation: Aggregation::Median("score".to_string()),
        object_filters: vec![wildcard.clone()],
    };
    assert_eq!(compile_reduction(&median).unwrap_err(), says("the aggregation"));
    assert_eq!(aggregated_traversal_query("0x1", "k", 1, &median).unwrap_err(), says("the aggregation"));
    let sum = TraversalAggregation {
        property: "score".to_string(),
        operation: Aggregation::Sum("score".to_string()),
        object_filters: vec![fine, wildcard.clone()],
    };
    assert_eq!(aggregated_traversal_query("0x1", "k", 1, &sum).unwrap_err(), says("the operator"));
    match Traversal::begin("0x1", vec!["k".to_string()], usize::MAX, &vec![wildcard.clone()]) {
        TraversalStep::Finished(Err(e)) => assert_eq!(e, StoreError::Query("Too many hops".to_string())),
        other => panic!("{:?}", other),
    }
    match Traversal::begin("0x1", vec!["k".to_string()], 2, &vec![wildcard]) {
        TraversalStep::Finished(Err(e)) => assert_eq!(e, says("the operator")),
        other => panic!("{:?}", other),
    }
    match Reduction::begin("0x1", vec!["k".to_string()], usize::MAX, median) {
        ReductionStep::Failed(e) => assert_eq!(e, says("the aggregation")),
        other => panic!("{:?}", other),
    }
    match Reduction::begin("0x1", vec!["k".to_string()], usize::MAX, sum) {
        ReductionStep::Failed(e) => assert_eq!(e, says("the operator")),
        other => panic!("{:?}", other),
    }
    let plain = TraversalAggregation {
        property: "score".to_string(),
        operation: Aggregation::Count,
        object_filters: vec![],
    };
    match Reduction::begin("0x1", vec!["k".to_string()], usize::MAX, plain) {
        ReductionStep::Failed(e) => assert_eq!(e, StoreError::Query("Too many hops".to_string())),
        other => panic!("{:?}", other),
    }
}

fn run_traversal(step: TraversalStep, docs: &[&str]) -> Vec<String> {
    let mut step = step;
    let mut given = 0;
    loop {
        step = match step {
            TraversalStep::Finished(out) => return out.unwrap(),
            TraversalStep::Ask(t, query) => {
                if given < docs.len() {
                    given += 1;
                    t.advance(&GraphAnswer::Data(docs[given - 1].as_bytes().to_vec()))
                } else {
                    let uid = query.split("uid(").nth(1).unwrap().split(')').next().unwrap().to_string();
                    let name = format!(r#"{{"node":[{{"uid":"{}","xid":"id-{}"}}]}}"#, uid, uid);
                    t.advance(&GraphAnswer::Data(name.into_bytes()))
                }
            }
        };
    }
}

#[test]
fn filters_reach_a_part_of_what_is_reached_without_them_over_hops_and_link_types() {
    let types = || vec!["knows".to_string(), "owns".to_string()];
    let all = [
        r#"{"node":[{"~knows":[{"uid":"0x2","~knows":[{"uid":"0x4"},{"uid":"0x5"}]},{"uid":"0x3","~knows":[{"uid":"0x4"}]}]}]}"#,
        r#"{"node":[{"~owns":[{"uid":"0x6","~owns":[{"uid":"0x2"}]}]}]}"#,
    ];
    let kept = [
        r#"{"node":[{"~knows":[{"uid":"0x3","~knows":[{"uid":"0x4"}]}]}]}"#,
        r#"{"node":[{"~owns":[]}]}"#,
    ];
    let weight = vec![filter("weight", FilterOperator::GreaterThan, PropertyValue::Integer(1))];
    let without = run_traversal(Traversal::begin("0x1", types(), 2, &vec![]), &all);
    let with_filters = run_traversal(Traversal::begin("0x1", types(), 2, &weight), &kept);
    assert_eq!(without, vec!["id-0x2", "id-0x4", "id-0x5", "id-0x3", "id-0x6"]);
    assert_eq!(with_filters, vec!["id-0x3", "id-0x4"]);
    assert!(with_filters.iter().all(|id| without.contains(id)));
    let none: Vec<Filter> = vec![];
    assert_eq!(run_traversal(Traversal::begin("0x1", types(), 2, &none), &all), without);
}
