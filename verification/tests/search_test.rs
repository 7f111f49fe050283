use ontology_core::json::JsonValue;
use ontology_core::property::{PropertyMap, PropertyValue};
use ontology_core::responses::{
    alias_outcome, count_outcome, delete_outcome, get_outcome, index_outcome, reindex_outcome,
    search_outcome,
};
use ontology_core::search::{compile_clause, compile_filters, compile_search, ElasticsearchStore, HttpMethod};
use ontology_core::store::{
    Filter, FilterOperator, IndexedObject, SearchQuery, SortOption, StoreError,
};

fn store() -> ElasticsearchStore {
    ElasticsearchStore::new("ontology".to_string())
}

fn filter(property: &str, operator: FilterOperator, value: PropertyValue) -> Filter {
    Filter { property: property.to_string(), operator, value, distance: None }
}

fn body(request: &ontology_core::search::HttpRequest) -> String {
    request.body.as_ref().map(|b| b.render()).unwrap_or_default()
}

#[test]
fn index_names_carry_prefix_type_and_version() {
    let s = store();
    assert_eq!(s.index_name("user"), "ontology_user");
    assert_eq!(s.versioned_index_name("user", 1), "ontology_user_v1");
    assert_eq!(s.versioned_index_name("user", 120), "ontology_user_v120");
    assert_eq!(s.version_of_index("user", "ontology_user_v120"), Some(120));
    assert_eq!(s.version_of_index("user", "ontology_user_v0"), Some(0));
    assert_eq!(s.version_of_index("user", "ontology_user_v01"), None);
    assert_eq!(s.version_of_index("user", "ontology_user_v"), None);
    assert_eq!(s.version_of_index("user", "ontology_user"), None);
    assert_eq!(s.version_of_index("user", "ontology_users_v1"), None);
    assert_eq!(s.version_of_index("user", "ontology_user_v1x"), None);
    assert_eq!(s.version_of_index("user", "ontology_user_v18446744073709551615"), Some(u64::MAX));
    assert_eq!(s.version_of_index("user", "ontology_user_v18446744073709551616"), None);
    assert_eq!(s.version_of_index("user_v1", "ontology_user_v1_v2"), Some(2));
}

#[test]
fn each_operator_has_its_clause() {
    let cases = vec![
        (filter("p", FilterOperator::Equals, PropertyValue::String("a".to_string())), r#"{"term":{"p":"a"}}"#),
        (filter("p", FilterOperator::NotEquals, PropertyValue::Integer(3)), r#"{"term":{"p":3}}"#),
        (filter("p", FilterOperator::GreaterThan, PropertyValue::Integer(20)), r#"{"range":{"p":{"gt":20}}}"#),
        (filter("p", FilterOperator::LessThan, PropertyValue::Double("1.5".to_string())), r#"{"range":{"p":{"lt":1.5}}}"#),
        (filter("p", FilterOperator::GreaterThanOrEqual, PropertyValue::Integer(0)), r#"{"range":{"p":{"gte":0}}}"#),
        (filter("p", FilterOperator::LessThanOrEqual, PropertyValue::Integer(9)), r#"{"range":{"p":{"lte":9}}}"#),
        (filter("p", FilterOperator::Contains, PropertyValue::String("mid".to_string())), r#"{"wildcard":{"p":"*mid*"}}"#),
        (filter("p", FilterOperator::StartsWith, PropertyValue::String("pre".to_string())), r#"{"wildcard":{"p":"pre*"}}"#),
        (filter("p", FilterOperator::EndsWith, PropertyValue::String("end".to_string())), r#"{"wildcard":{"p":"*end"}}"#),
        (
            filter("p", FilterOperator::In, PropertyValue::Array(vec![PropertyValue::Integer(1), PropertyValue::Integer(2)])),
            r#"{"terms":{"p":[1,2]}}"#,
        ),
        (
            filter("p", FilterOperator::NotIn, PropertyValue::Array(vec![PropertyValue::String("x".to_string())])),
            r#"{"terms":{"p":["x"]}}"#,
        ),
    ];
    for (f, expected) in cases {
        assert_eq!(compile_clause(&f).unwrap().render(), expected);
    }
}

#[test]
fn what_the_search_engine_cannot_filter_is_refused() {
    let refused = vec![
        filter("p", FilterOperator::ContainsGeometry, PropertyValue::GeoJSON("{}".to_string())),
        filter("p", FilterOperator::Intersects, PropertyValue::GeoJSON("{}".to_string())),
        filter("p", FilterOperator::Within, PropertyValue::GeoJSON("{}".to_string())),
        Filter {
            property: "p".to_string(),
            operator: FilterOperator::WithinDistance,
            value: PropertyValue::GeoJSON("{}".to_string()),
            distance: Some("100".to_string()),
        },
        filter("p", FilterOperator::Contains, PropertyValue::Integer(1)),
        filter("p", FilterOperator::In, PropertyValue::Integer(1)),
        filter("p", FilterOperator::NotIn, PropertyValue::String("a".to_string())),
    ];
    for f in refused {
        assert!(matches!(compile_clause(&f), Err(StoreError::Query(_))), "{:?}", f);
        let with_good = vec![filter("q", FilterOperator::Equals, PropertyValue::Integer(1)), f];
        assert!(matches!(compile_filters(&with_good), Err(StoreError::Query(_))));
    }
}

#[test]
fn negated_clauses_go_to_must_not_and_the_others_to_must() {
    let filters = vec![
        filter("a", FilterOperator::Equals, PropertyValue::Integer(1)),
        filter("b", FilterOperator::NotEquals, PropertyValue::Integer(2)),
        filter("c", FilterOperator::GreaterThan, PropertyValue::Integer(3)),
        filter("d", FilterOperator::NotIn, PropertyValue::Array(vec![PropertyValue::Integer(4)])),
    ];
    assert_eq!(
        compile_filters(&filters).unwrap().render(),
        r#"{"bool":{"must":[{"term":{"a":1}},{"range":{"c":{"gt":3}}}],"must_not":[{"term":{"b":2}},{"terms":{"d":[4]}}]}}"#
    );
    assert_eq!(compile_filters(&vec![]).unwrap().render(), r#"{"bool":{"must":[],"must_not":[]}}"#);
}

#[test]
fn a_search_carries_sort_and_paging() {
    let query = SearchQuery {
        filters: vec![filter("score", FilterOperator::GreaterThan, PropertyValue::Integer(20))],
        sort: Some(SortOption { property: "score".to_string(), ascending: false }),
        limit: Some(1),
        offset: Some(5),
    };
    assert_eq!(
        compile_search(&query).unwrap().render(),
        r#"{"from":5,"query":{"bool":{"must":[{"range":{"score":{"gt":20}}}],"must_not":[]}},"size":1,"sort":[{"score":{"order":"desc"}}]}"#
    );
    let plain = SearchQuery { filters: vec![], sort: None, limit: None, offset: None };
    assert_eq!(compile_search(&plain).unwrap().render(), r#"{"query":{"bool":{"must":[],"must_not":[]}}}"#);
    let up = SearchQuery {
        filters: vec![],
        sort: Some(SortOption { property: "n".to_string(), ascending: true }),
        limit: None,
        offset: None,
    };
    assert_eq!(
        compile_search(&up).unwrap().render(),
        r#"{"query":{"bool":{"must":[],"must_not":[]}},"sort":[{"n":{"order":"asc"}}]}"#
    );
    let huge = SearchQuery { filters: vec![], sort: None, limit: Some(usize::MAX), offset: None };
    if usize::MAX as u128 > i64::MAX as u128 {
        assert!(matches!(compile_search(&huge), Err(StoreError::Query(_))));
    }
}

#[test]
fn requests_for_objects() {
    let s = store();
    let mut properties = PropertyMap::new();
    properties.insert("name".to_string(), PropertyValue::String("n".to_string()));
    let put = s.index_object_request("user", "u1", &properties);
    assert_eq!(put.method, HttpMethod::Put);
    assert_eq!(put.path, "/ontology_user/_doc/u1");
    assert_eq!(body(&put), r#"{"@kinds":{"name":null},"name":"n"}"#);
    let mut marked = PropertyMap::new();
    marked.insert("@kinds".to_string(), PropertyValue::Integer(1));
    marked.insert("@@".to_string(), PropertyValue::Date("2024-01-02".to_string()));
    assert_eq!(
        body(&s.index_object_request("user", "u1", &marked)),
        r#"{"@@@":"2024-01-02","@@kinds":1,"@kinds":{"@@@":"date","@@kinds":null}}"#
    );
    let get = s.get_object_request("user", "u1");
    assert_eq!((get.method, get.path.as_str(), get.body.is_none()), (HttpMethod::Get, "/ontology_user/_doc/u1", true));
    let delete = s.delete_object_request("user", "u1");
    assert_eq!((delete.method, delete.path.as_str()), (HttpMethod::Delete, "/ontology_user/_doc/u1"));
    let query = SearchQuery { filters: vec![], sort: None, limit: Some(1), offset: None };
    let search = s.search_request("user", &query).unwrap();
    assert_eq!((search.method, search.path.as_str()), (HttpMethod::Post, "/ontology_user/_search"));
    assert_eq!(body(&search), r#"{"query":{"bool":{"must":[],"must_not":[]}},"size":1}"#);
    let filters = vec![filter("score", FilterOperator::GreaterThan, PropertyValue::Integer(20))];
    let count = s.count_request("user", Some(&filters)).unwrap();
    assert_eq!((count.method, count.path.as_str()), (HttpMethod::Post, "/ontology_user/_count"));
    assert_eq!(body(&count), r#"{"query":{"bool":{"must":[{"range":{"score":{"gt":20}}}],"must_not":[]}}}"#);
    assert_eq!(body(&s.count_request("user", None).unwrap()), r#"{"query":{"bool":{"must":[],"must_not":[]}}}"#);
    let spatial = vec![filter("g", FilterOperator::Within, PropertyValue::GeoJSON("{}".to_string()))];
    assert!(matches!(s.count_request("user", Some(&spatial)), Err(StoreError::Query(_))));
    let bad = SearchQuery { filters: spatial, sort: None, limit: None, offset: None };
    assert!(matches!(s.search_request("user", &bad), Err(StoreError::Query(_))));
}

#[test]
fn a_batch_is_one_request_for_each_object() {
    let s = store();
    let objects: Vec<IndexedObject> = (0..3)
        .map(|i| {
            let mut properties = PropertyMap::new();
            properties.insert("index".to_string(), PropertyValue::Integer(i));
            IndexedObject::new("t".to_string(), format!("bulk_{}", i), properties)
        })
        .collect();
    let requests = s.bulk_index_requests(&objects);
    assert_eq!(requests.len(), 3);
    let last = &requests[2];
    assert_eq!(last.path, "/ontology_t/_doc/bulk_2");
    assert_eq!(body(last), r#"{"@kinds":{"index":null},"index":2}"#);
    assert!(s.bulk_index_requests(&vec![]).is_empty());
}

#[test]
fn requests_of_the_migration() {
    let s = store();
    let create = s.create_alias_request("t", 1);
    assert_eq!((create.method, create.path.as_str()), (HttpMethod::Post, "/_aliases"));
    assert_eq!(body(&create), r#"{"actions":[{"add":{"alias":"ontology_t","index":"ontology_t_v1"}}]}"#);
    let reindex = s.reindex_request("t", 1, 2);
    assert_eq!((reindex.method, reindex.path.as_str()), (HttpMethod::Post, "/_reindex"));
    assert_eq!(body(&reindex), r#"{"dest":{"index":"ontology_t_v2"},"source":{"index":"ontology_t_v1"}}"#);
    let asked = s.alias_version_request("t");
    assert_eq!((asked.method, asked.path.as_str(), asked.body.is_none()), (HttpMethod::Get, "/_alias/ontology_t", true));
    let delete = s.delete_versioned_index_request("t", 1);
    assert_eq!((delete.method, delete.path.as_str()), (HttpMethod::Delete, "/ontology_t_v1"));
}

#[test]
fn a_swap_moves_the_alias_in_one_request_and_copies_nothing() {
    let s = store();
    let swap = s.swap_alias_request("t", 1, 2);
    assert_eq!((swap.method, swap.path.as_str()), (HttpMethod::Post, "/_aliases"));
    assert_eq!(
        body(&swap),
        r#"{"actions":[{"remove":{"alias":"ontology_t","index":"ontology_t_v1"}},{"add":{"alias":"ontology_t","index":"ontology_t_v2"}}]}"#
    );
    let actions = swap.body.as_ref().and_then(|b| b.get("actions")).and_then(|a| a.as_array()).unwrap();
    assert_eq!(actions.len(), 2);
    assert!(actions.iter().all(|a| a.get("add").is_some() || a.get("remove").is_some()));
    assert!(!body(&swap).contains("reindex") && !body(&swap).contains("source"));
}

#[test]
fn deleting_what_is_not_there_succeeds_every_time() {
    assert_eq!(delete_outcome(404, "{\"result\":\"not_found\"}"), Ok(()));
    assert_eq!(delete_outcome(404, "{\"result\":\"not_found\"}"), Ok(()));
    assert_eq!(delete_outcome(200, "{}"), Ok(()));
    assert_eq!(
        delete_outcome(500, "boom"),
        Err(StoreError::WriteError("Elasticsearch returned error 500: boom".to_string()))
    );
}

#[test]
fn refusals_carry_status_and_body() {
    assert_eq!(index_outcome(201, ""), Ok(()));
    assert_eq!(index_outcome(299, ""), Ok(()));
    assert_eq!(
        index_outcome(400, "{\"error\":\"bad\"}"),
        Err(StoreError::Query("Elasticsearch returned error 400: {\"error\":\"bad\"}".to_string()))
    );
    assert_eq!(
        index_outcome(199, ""),
        Err(StoreError::Query("Elasticsearch returned error 199: ".to_string()))
    );
    assert_eq!(index_outcome(300, "x"), Err(StoreError::Query("Elasticsearch returned error 300: x".to_string())));
    assert_eq!(alias_outcome(200, "{}"), Ok(()));
    assert_eq!(
        alias_outcome(404, "missing"),
        Err(StoreError::WriteError("Elasticsearch returned error 404: missing".to_string()))
    );
}

#[test]
fn a_copy_that_left_documents_behind_fails_loudly() {
    assert_eq!(reindex_outcome(200, r#"{"total":3,"failures":[]}"#), Ok(()));
    assert_eq!(reindex_outcome(200, r#"{"total":3}"#), Ok(()));
    assert_eq!(
        reindex_outcome(200, r#"{"total":3,"failures":[{"id":"a"}]}"#),
        Err(StoreError::Transaction(
            "Reindex left documents uncopied: {\"total\":3,\"failures\":[{\"id\":\"a\"}]}".to_string()
        ))
    );
    assert_eq!(
        reindex_outcome(503, "busy"),
        Err(StoreError::WriteError("Elasticsearch returned error 503: busy".to_string()))
    );
    assert!(matches!(reindex_outcome(200, "not json"), Err(StoreError::Serialization(_))));
}

#[test]
fn a_fetched_object_has_the_properties_that_were_indexed() {
    let mut properties = PropertyMap::new();
    properties.insert("s".to_string(), PropertyValue::String("text".to_string()));
    properties.insert("i".to_string(), PropertyValue::Integer(-5));
    properties.insert("d".to_string(), PropertyValue::Double("10.5".to_string()));
    properties.insert("b".to_string(), PropertyValue::Boolean(true));
    properties.insert("a".to_string(), PropertyValue::Array(vec![PropertyValue::Integer(1), PropertyValue::Null]));
    properties.insert(
        "m".to_string(),
        PropertyValue::Mapping(vec![("k".to_string(), PropertyValue::String("v".to_string()))]),
    );
    properties.insert("g".to_string(), PropertyValue::GeoJSON("{\"type\":\"Point\",\"coordinates\":[1,2]}".to_string()));
    properties.insert("when".to_string(), PropertyValue::Date("2024-01-02".to_string()));
    let request = store().index_object_request("t", "id1", &properties);
    let answer = format!(r#"{{"_index":"ontology_t_v1","_id":"id1","found":true,"_source":{}}}"#, body(&request));
    let object = get_outcome("t", "id1", 200, &answer).unwrap().unwrap();
    assert_eq!(object.object_type, "t");
    assert_eq!(object.object_id, "id1");
    assert_eq!(object.properties.len(), properties.len());
    for (name, value) in properties.iter() {
        assert_eq!(object.properties.get(name), Some(value));
    }
}

#[test]
fn an_object_that_is_not_there_is_no_error() {
    assert!(get_outcome("t", "id1", 404, r#"{"found":false}"#).unwrap().is_none());
    assert!(get_outcome("t", "id1", 200, r#"{"found":false}"#).unwrap().is_none());
    assert_eq!(
        get_outcome("t", "id1", 500, "boom").unwrap_err(),
        StoreError::ReadError("Elasticsearch returned error 500: boom".to_string())
    );
    assert!(matches!(get_outcome("t", "id1", 200, "{"), Err(StoreError::Serialization(_))));
}

#[test]
fn hits_become_objects_in_their_order() {
    let answer = r#"{"hits":{"total":{"value":2},"hits":[{"_id":"filter_3","_source":{"score":30}},{"_id":"filter_4","_source":{"score":40,"score ":1}}]}}"#;
    let objects = search_outcome("t", 200, answer).unwrap();
    assert_eq!(objects.len(), 2);
    assert_eq!(objects[0].object_id, "filter_3");
    assert_eq!(objects[0].properties.get("score"), Some(&PropertyValue::Integer(30)));
    assert_eq!(objects[1].object_id, "filter_4");
    assert_eq!(objects[1].properties.len(), 2);
    assert!(objects.iter().all(|o| o.object_type == "t"));
    assert!(search_outcome("t", 200, r#"{"hits":{"hits":[]}}"#).unwrap().is_empty());
    assert!(search_outcome("t", 200, "{}").unwrap().is_empty());
    assert_eq!(
        search_outcome("t", 200, r#"{"hits":{"hits":[{"_source":{}}]}}"#).unwrap_err(),
        StoreError::Serialization("Malformed hit".to_string())
    );
    assert_eq!(
        search_outcome("t", 400, "bad").unwrap_err(),
        StoreError::Query("Elasticsearch returned error 400: bad".to_string())
    );
}

#[test]
fn a_count_is_read_out_of_the_answer() {
    assert_eq!(count_outcome(200, r#"{"count":2,"_shards":{}}"#), Ok(2));
    assert_eq!(count_outcome(200, r#"{"count":0}"#), Ok(0));
    assert_eq!(count_outcome(200, r#"{"count":-1}"#), Err(StoreError::Serialization("Missing count".to_string())));
    assert_eq!(count_outcome(200, r#"{}"#), Err(StoreError::Serialization("Missing count".to_string())));
    assert_eq!(
        count_outcome(404, "no index"),
        Err(StoreError::Query("Elasticsearch returned error 404: no index".to_string()))
    );
}

#[test]
fn the_alias_names_one_version_or_none() {
    let s = store();
    assert_eq!(s.alias_version_outcome("t", 200, r#"{"ontology_t_v1":{"aliases":{"ontology_t":{}}}}"#), Ok(Some(1)));
    assert_eq!(s.alias_version_outcome("t", 200, r#"{"ontology_t_v2":{"aliases":{"ontology_t":{}}}}"#), Ok(Some(2)));
    assert_eq!(s.alias_version_outcome("t", 404, r#"{"error":"alias missing"}"#), Ok(None));
    assert_eq!(s.alias_version_outcome("t", 200, r#"{"other_index":{}}"#), Ok(None));
    assert_eq!(s.alias_version_outcome("t", 200, r#"[]"#), Ok(None));
    assert_eq!(
        s.alias_version_outcome("t", 500, "boom"),
        Err(StoreError::ReadError("Elasticsearch returned error 500: boom".to_string()))
    );
    assert!(matches!(s.alias_version_outcome("t", 200, "{"), Err(StoreError::Serialization(_))));
}

#[test]
fn errors_are_written_with_their_kind() {
    let cases = vec![
        (StoreError::Connection("c".to_string()), "Connection error: c"),
        (StoreError::Query("q".to_string()), "Query error: q"),
        (StoreError::Serialization("s".to_string()), "Serialization error: s"),
        (StoreError::NotFound("n".to_string()), "Object not found: n"),
        (StoreError::Transaction("t".to_string()), "Transaction failed: t"),
        (StoreError::Configuration("g".to_string()), "Configuration error: g"),
        (StoreError::WriteError("w".to_string()), "Write error: w"),
        (StoreError::ReadError("r".to_string()), "Read error: r"),
        (StoreError::Unknown("u".to_string()), "Unknown error: u"),
    ];
    for (error, text) in cases {
        assert_eq!(error.to_string(), text);
        assert_eq!(StoreError::described(error.kind(), "", error.message()), error);
    }
    assert_eq!(JsonValue::Null.render(), "null");
}

#[test]
fn of_five_scores_two_lie_above_twenty() {
    let objects: Vec<IndexedObject> = (0..5)
        .map(|i| {
            let mut properties = PropertyMap::new();
            properties.insert("name".to_string(), PropertyValue::String(format!("Filter Test {}", i)));
            properties.insert("score".to_string(), PropertyValue::Integer(i * 10));
            IndexedObject::new("t".to_string(), format!("filter_{}", i), properties)
        })
        .collect();
    let above = filter("score", FilterOperator::GreaterThan, PropertyValue::Integer(20));
    let matching: Vec<&IndexedObject> =
        objects.iter().filter(|o| ontology_core::semantics::filter_holds(&above, &o.properties)).collect();
    assert_eq!(matching.len(), 2);
    assert_eq!(matching[0].object_id, "filter_3");
    assert_eq!(matching[1].object_id, "filter_4");
    let below = filter("score", FilterOperator::GreaterThan, PropertyValue::Integer(-1));
    assert!(objects.iter().all(|o| ontology_core::semantics::filter_holds(&below, &o.properties)));
    let beyond = filter("score", FilterOperator::GreaterThan, PropertyValue::Integer(40));
    assert!(!objects.iter().any(|o| ontology_core::semantics::filter_holds(&beyond, &o.properties)));
    let s = store();
    let count = s.count_request("t", Some(&vec![above.clone()])).unwrap();
    assert_eq!(body(&count), r#"{"query":{"bool":{"must":[{"range":{"score":{"gt":20}}}],"must_not":[]}}}"#);
    assert_eq!(count_outcome(200, r#"{"count":2}"#), Ok(2));
    let query = SearchQuery { filters: vec![above], sort: None, limit: Some(1), offset: None };
    let search = s.search_request("t", &query).unwrap();
    assert_eq!(
        body(&search),
        r#"{"query":{"bool":{"must":[{"range":{"score":{"gt":20}}}],"must_not":[]}},"size":1}"#
    );
    let hits = search_outcome("t", 200, r#"{"hits":{"hits":[{"_id":"filter_3","_source":{"score":30}}]}}"#).unwrap();
    assert_eq!(hits.len(), 1);
    assert!(ontology_core::semantics::filter_holds(&query.filters[0], &hits[0].properties));
}

#[test]
fn filters_are_decided_on_whole_numbers_and_on_equality() {
    let mut properties = PropertyMap::new();
    properties.insert("n".to_string(), PropertyValue::Integer(5));
    properties.insert("s".to_string(), PropertyValue::String("x".to_string()));
    let cases = vec![
        (filter("n", FilterOperator::Equals, PropertyValue::Integer(5)), true),
        (filter("n", FilterOperator::NotEquals, PropertyValue::Integer(5)), false),
        (filter("n", FilterOperator::GreaterThanOrEqual, PropertyValue::Integer(5)), true),
        (filter("n", FilterOperator::LessThan, PropertyValue::Integer(5)), false),
        (filter("n", FilterOperator::LessThanOrEqual, PropertyValue::Integer(4)), false),
        (filter("s", FilterOperator::Equals, PropertyValue::String("x".to_string())), true),
        (filter("s", FilterOperator::GreaterThan, PropertyValue::Integer(0)), false),
        (filter("missing", FilterOperator::NotEquals, PropertyValue::Integer(0)), true),
        (filter("missing", FilterOperator::Equals, PropertyValue::Integer(0)), false),
    ];
    for (f, expected) in cases {
        assert_eq!(ontology_core::semantics::filter_holds(&f, &properties), expected, "{:?}", f);
    }
}

#[test]
fn a_refused_object_does_not_fail_its_batch() {
    let answers = vec![
        Ok((201, "{}".to_string())),
        Ok((400, "bad".to_string())),
        Ok((200, "{}".to_string())),
        Err(StoreError::Connection("no answer".to_string())),
    ];
    let refused = ontology_core::responses::bulk_outcome(&answers);
    assert_eq!(
        refused,
        vec![
            (1, StoreError::Query("Elasticsearch returned error 400: bad".to_string())),
            (3, StoreError::Connection("no answer".to_string())),
        ]
    );
    assert!(ontology_core::responses::bulk_outcome(&vec![]).is_empty());
}

#[test]
fn a_property_whose_name_begins_with_the_mark_of_the_kinds_comes_back_under_its_name() {
    let mut properties = PropertyMap::new();
    properties.insert("@kinds".to_string(), PropertyValue::String("mine".to_string()));
    properties.insert("@".to_string(), PropertyValue::Integer(1));
    properties.insert("@@twice".to_string(), PropertyValue::GeoJSON("{\"type\":\"Point\"}".to_string()));
    properties.insert("a@b".to_string(), PropertyValue::Boolean(true));
    let request = store().index_object_request("t", "id1", &properties);
    let answer = format!(r#"{{"_id":"id1","found":true,"_source":{}}}"#, body(&request));
    let object = get_outcome("t", "id1", 200, &answer).unwrap().unwrap();
    assert_eq!(object.properties.len(), properties.len());
    for (name, value) in properties.iter() {
        assert_eq!(object.properties.get(name), Some(value));
    }
}

#[test]
fn a_filter_names_the_field_under_which_the_property_is_stored() {
    let marked = filter("@kinds", FilterOperator::Equals, PropertyValue::Integer(1));
    assert_eq!(compile_clause(&marked).unwrap().render(), r#"{"term":{"@@kinds":1}}"#);
    let plain = filter("kinds", FilterOperator::Equals, PropertyValue::Integer(1));
    assert_eq!(compile_clause(&plain).unwrap().render(), r#"{"term":{"kinds":1}}"#);
}

#[test]
fn a_refusal_says_what_is_unsupported() {
    let spatial = filter("g", FilterOperator::Within, PropertyValue::GeoJSON("{}".to_string()));
    let wildcard = filter("n", FilterOperator::Contains, PropertyValue::Integer(1));
    let list = filter("n", FilterOperator::In, PropertyValue::Integer(1));
    assert_eq!(
        compile_clause(&spatial).unwrap_err(),
        StoreError::Query("Unsupported in a search: a spatial operator".to_string())
    );
    assert_eq!(
        compile_clause(&wildcard).unwrap_err(),
        StoreError::Query("Unsupported in a search: a wildcard on a value that is no string".to_string())
    );
    assert_eq!(
        compile_clause(&list).unwrap_err(),
        StoreError::Query("Unsupported in a search: a list test on a value that is no list".to_string())
    );
    let fine = filter("a", FilterOperator::Equals, PropertyValue::Integer(1));
    assert_eq!(
        compile_filters(&vec![fine.clone(), list.clone(), spatial.clone()]).unwrap_err(),
        StoreError::Query("Unsupported in a search: a list test on a value that is no list".to_string())
    );
    let query = SearchQuery { filters: vec![fine, spatial, list], sort: None, limit: Some(usize::MAX), offset: None };
    assert_eq!(
        compile_search(&query).unwrap_err(),
        StoreError::Query("Unsupported in a search: a spatial operator".to_string())
    );
    if usize::MAX as u128 > i64::MAX as u128 {
        let huge = SearchQuery { filters: vec![], sort: None, limit: Some(usize::MAX), offset: Some(usize::MAX) };
        assert_eq!(
            compile_search(&huge).unwrap_err(),
            StoreError::Query("Unsupported in a search: a limit that large".to_string())
        );
        let far = SearchQuery { filters: vec![], sort: None, limit: None, offset: Some(usize::MAX) };
        assert_eq!(
            store().search_request("t", &far).unwrap_err(),
            StoreError::Query("Unsupported in a search: an offset that large".to_string())
        );
    }
}
