//! The search store's index names, compiled queries and requests: what is sent to the
//! search engine for each operation.

use vstd::prelude::*;
use vstd::string::*;
use crate::json::{
    json_models, json_of, jsons_of, member_models, property_to_json, JsonModel, JsonValue,
};
use crate::stored::{name_in_store, stored_document, stored_members, stored_name};
use crate::property::{PropertyMap, PropertyModel, PropertyValue};
use crate::store::{ErrorKind, Filter, FilterOperator, SearchQuery, SortOption, StoreError};
use crate::text::{
    lemma_nat_text_injective, nat_text, owned, parse_u64, push_u64, strip_prefix,
};

verus! {

/// The name that reads and writes of a type go to: the prefix, an underscore, the type.
pub open spec fn alias_text(prefix: Seq<char>, object_type: Seq<char>) -> Seq<char> {
    prefix + "_"@ + object_type
}

/// The name of the index that holds one version of a type: the alias, `_v`, the version.
pub open spec fn versioned_text(prefix: Seq<char>, object_type: Seq<char>, version: nat) -> Seq<
    char,
> {
    alias_text(prefix, object_type) + "_v"@ + nat_text(version)
}

/// The pure half of the search store: it knows the prefix under which the indices of
/// this application live, and compiles every operation to the request that carries it
/// out.
#[derive(Debug, Clone)]
pub struct ElasticsearchStore {
    pub index_prefix: String,
}

/// An object with one member.
pub open spec fn obj1(key: Seq<char>, value: JsonModel) -> JsonModel {
    JsonModel::Object(seq![(key, value)])
}

/// An object with two members.
pub open spec fn obj2(
    first: Seq<char>,
    a: JsonModel,
    second: Seq<char>,
    b: JsonModel,
) -> JsonModel {
    JsonModel::Object(seq![(first, a), (second, b)])
}

fn object1(key: &str, value: JsonValue) -> (out: JsonValue)
    ensures
        out@ == obj1(key@, value@),
{
    let mut members: Vec<(String, JsonValue)> = Vec::new();
    members.push((owned(key), value));
    proof {
        assert(member_models(members@) =~= seq![(key@, value@)]);
    }
    JsonValue::Object(members)
}

fn object2(first: &str, a: JsonValue, second: &str, b: JsonValue) -> (out: JsonValue)
    ensures
        out@ == obj2(first@, a@, second@, b@),
{
    let mut members: Vec<(String, JsonValue)> = Vec::new();
    members.push((owned(first), a));
    members.push((owned(second), b));
    proof {
        assert(member_models(members@) =~= seq![(first@, a@), (second@, b@)]);
    }
    JsonValue::Object(members)
}

/// The pattern of a wildcard clause: an asterisk after, before or around the text.
pub open spec fn wildcard_pattern(operator: FilterOperator, text: Seq<char>) -> Seq<char> {
    match operator {
        FilterOperator::StartsWith => text + "*"@,
        FilterOperator::EndsWith => "*"@ + text,
        _ => "*"@ + text + "*"@,
    }
}

/// The bound of a range clause for an operator.
pub open spec fn range_bound(operator: FilterOperator) -> Seq<char> {
    match operator {
        FilterOperator::GreaterThan => "gt"@,
        FilterOperator::LessThan => "lt"@,
        FilterOperator::GreaterThanOrEqual => "gte"@,
        _ => "lte"@,
    }
}

/// The clause that a filter compiles to.
///
/// An equality compiles to a term clause, a comparison to a range clause, a test on
/// part of a text to a wildcard clause and a test against a list to a terms clause. A
/// wildcard needs a string and a terms clause a list; a spatial operator has no clause.
/// The field of a clause is the name under which the property stands in the stored
/// document.
pub open spec fn clause_of(filter: Filter) -> Option<JsonModel> {
    match filter.operator {
        FilterOperator::Equals => Some(
            obj1("term"@, obj1(stored_name(filter.property@), json_of(filter.value@))),
        ),
        FilterOperator::NotEquals => Some(
            obj1("term"@, obj1(stored_name(filter.property@), json_of(filter.value@))),
        ),
        FilterOperator::GreaterThan => Some(
            obj1(
                "range"@,
                obj1(stored_name(filter.property@), obj1(range_bound(filter.operator), json_of(filter.value@))),
            ),
        ),
        FilterOperator::LessThan => Some(
            obj1(
                "range"@,
                obj1(stored_name(filter.property@), obj1(range_bound(filter.operator), json_of(filter.value@))),
            ),
        ),
        FilterOperator::GreaterThanOrEqual => Some(
            obj1(
                "range"@,
                obj1(stored_name(filter.property@), obj1(range_bound(filter.operator), json_of(filter.value@))),
            ),
        ),
        FilterOperator::LessThanOrEqual => Some(
            obj1(
                "range"@,
                obj1(stored_name(filter.property@), obj1(range_bound(filter.operator), json_of(filter.value@))),
            ),
        ),
        FilterOperator::Contains => wildcard_clause(filter),
        FilterOperator::StartsWith => wildcard_clause(filter),
        FilterOperator::EndsWith => wildcard_clause(filter),
        FilterOperator::In => terms_clause(filter),
        FilterOperator::NotIn => terms_clause(filter),
        _ => None,
    }
}

/// The wildcard clause of a filter on a string.
pub open spec fn wildcard_clause(filter: Filter) -> Option<JsonModel> {
    match filter.value@ {
        PropertyModel::String(text) => Some(
            obj1(
                "wildcard"@,
                obj1(
                    stored_name(filter.property@),
                    JsonModel::String(wildcard_pattern(filter.operator, text)),
                ),
            ),
        ),
        _ => None,
    }
}

/// The terms clause of a filter on a list.
pub open spec fn terms_clause(filter: Filter) -> Option<JsonModel> {
    match filter.value@ {
        PropertyModel::Array(items) => Some(
            obj1("terms"@, obj1(stored_name(filter.property@), JsonModel::Array(jsons_of(items)))),
        ),
        _ => None,
    }
}

/// Whether the clause of an operator belongs to the clauses that must not hold.
pub open spec fn is_negated(operator: FilterOperator) -> bool {
    operator == FilterOperator::NotEquals || operator == FilterOperator::NotIn
}

/// Whether every filter compiles.
pub open spec fn all_compile(filters: Seq<Filter>) -> bool {
    forall|i: int| 0 <= i < filters.len() ==> clause_of(#[trigger] filters[i]) is Some
}

/// The clauses of the filters that are negated, or of those that are not, in order.
pub open spec fn clauses(filters: Seq<Filter>, negated: bool) -> Seq<JsonModel>
    decreases filters.len(),
{
    if filters.len() == 0 {
        Seq::<JsonModel>::empty()
    } else {
        let before = clauses(filters.drop_last(), negated);
        match clause_of(filters.last()) {
            Some(clause) => if is_negated(filters.last().operator) == negated {
                before.push(clause)
            } else {
                before
            },
            None => before,
        }
    }
}

/// The boolean query of a list of filters: the clauses that must hold, which is every
/// clause but the negated ones, and the clauses that must not.
pub open spec fn bool_query(filters: Seq<Filter>) -> JsonModel {
    obj1(
        "bool"@,
        obj2(
            "must"@,
            JsonModel::Array(clauses(filters, false)),
            "must_not"@,
            JsonModel::Array(clauses(filters, true)),
        ),
    )
}

/// The message of a refusal: that, and what, is unsupported in a search.
pub open spec fn refusal(what: Seq<char>) -> Seq<char> {
    "Unsupported in a search: "@ + what
}

/// The message that says why a filter has no clause.
pub open spec fn clause_message(filter: Filter) -> Seq<char> {
    match filter.operator {
        FilterOperator::Contains => refusal("a wildcard on a value that is no string"@),
        FilterOperator::StartsWith => refusal("a wildcard on a value that is no string"@),
        FilterOperator::EndsWith => refusal("a wildcard on a value that is no string"@),
        FilterOperator::In => refusal("a list test on a value that is no list"@),
        FilterOperator::NotIn => refusal("a list test on a value that is no list"@),
        _ => refusal("a spatial operator"@),
    }
}

/// Whether the filter at `at` is the first that has no clause.
pub open spec fn is_first_refused(filters: Seq<Filter>, at: int) -> bool {
    &&& 0 <= at < filters.len()
    &&& clause_of(filters[at]) is None
    &&& forall|j: int| 0 <= j < at ==> clause_of(#[trigger] filters[j]) is Some
}

/// Whether `e` is the refusal of a list of filters: the query error that says why the
/// first filter without a clause has none.
pub open spec fn filters_refused(filters: Seq<Filter>, e: (ErrorKind, Seq<char>)) -> bool {
    exists|at: int|
        #[trigger] is_first_refused(filters, at) && e == (
            ErrorKind::Query,
            clause_message(filters[at]),
        )
}

/// Whether `e` is the refusal of a search: that of its filters, or else the query
/// error that says that the limit, or else the offset, is too large.
pub open spec fn search_refused(query: SearchQuery, e: (ErrorKind, Seq<char>)) -> bool {
    if !all_compile(query.filters@) {
        filters_refused(query.filters@, e)
    } else if !fits(query.limit) {
        e == (ErrorKind::Query, refusal("a limit that large"@))
    } else {
        !fits(query.offset) && e == (ErrorKind::Query, refusal("an offset that large"@))
    }
}

fn refused(what: &str) -> (e: StoreError)
    ensures
        e is Query,
        e@ == (ErrorKind::Query, refusal(what@)),
{
    StoreError::described(ErrorKind::Query, "Unsupported in a search: ", what)
}

/// Compiles one filter to a clause of the search engine.
///
/// The error is a query error that says what is unsupported, and comes exactly where
/// the filter has no clause.
pub fn compile_clause(filter: &Filter) -> (out: Result<JsonValue, StoreError>)
    ensures
        match out {
            Ok(clause) => clause_of(*filter) == Some(clause@),
            Err(e) => clause_of(*filter) is None && e@ == (
                ErrorKind::Query,
                clause_message(*filter),
            ),
        },
{
    let field = name_in_store(filter.property.as_str());
    match filter.operator {
        FilterOperator::Equals | FilterOperator::NotEquals => Ok(
            object1("term", object1(field.as_str(), property_to_json(&filter.value))),
        ),
        FilterOperator::GreaterThan
        | FilterOperator::LessThan
        | FilterOperator::GreaterThanOrEqual
        | FilterOperator::LessThanOrEqual => {
            let bound = match filter.operator {
                FilterOperator::GreaterThan => "gt",
                FilterOperator::LessThan => "lt",
                FilterOperator::GreaterThanOrEqual => "gte",
                _ => "lte",
            };
            Ok(
                object1(
                    "range",
                    object1(
                        field.as_str(),
                        object1(bound, property_to_json(&filter.value)),
                    ),
                ),
            )
        },
        FilterOperator::Contains | FilterOperator::StartsWith | FilterOperator::EndsWith => {
            match &filter.value {
                PropertyValue::String(text) => {
                    let mut pattern = String::new();
                    match filter.operator {
                        FilterOperator::StartsWith => {
                            pattern.append(text.as_str());
                            pattern.append("*");
                        },
                        FilterOperator::EndsWith => {
                            pattern.append("*");
                            pattern.append(text.as_str());
                        },
                        _ => {
                            pattern.append("*");
                            pattern.append(text.as_str());
                            pattern.append("*");
                        },
                    }
                    proof {
                        assert(pattern@ =~= wildcard_pattern(filter.operator, text@));
                    }
                    Ok(
                        object1(
                            "wildcard",
                            object1(field.as_str(), JsonValue::String(pattern)),
                        ),
                    )
                },
                _ => Err(refused("a wildcard on a value that is no string")),
            }
        },
        FilterOperator::In | FilterOperator::NotIn => match &filter.value {
            PropertyValue::Array(_) => Ok(
                object1("terms", object1(field.as_str(), property_to_json(&filter.value))),
            ),
            _ => Err(refused("a list test on a value that is no list")),
        },
        _ => Err(refused("a spatial operator")),
    }
}

/// Compiles filters to the boolean query in which every one of them must hold.
///
/// The error is the query error of the first filter that has no clause, and comes
/// exactly where there is one. No filter is left out of the query.
pub fn compile_filters(filters: &Vec<Filter>) -> (out: Result<JsonValue, StoreError>)
    ensures
        match out {
            Ok(query) => all_compile(filters@) && query@ == bool_query(filters@),
            Err(e) => !all_compile(filters@) && filters_refused(filters@, e@),
        },
{
    let mut must: Vec<JsonValue> = Vec::new();
    let mut must_not: Vec<JsonValue> = Vec::new();
    let mut i: usize = 0;
    proof {
        assert(filters@.take(0) =~= Seq::<Filter>::empty());
        assert(json_models(must@) =~= Seq::<JsonModel>::empty());
        assert(json_models(must_not@) =~= Seq::<JsonModel>::empty());
    }
    while i < filters.len()
        invariant
            i <= filters.len(),
            all_compile(filters@.take(i as int)),
            json_models(must@) == clauses(filters@.take(i as int), false),
            json_models(must_not@) == clauses(filters@.take(i as int), true),
        decreases filters.len() - i,
    {
        proof {
            let next = filters@.take(i + 1);
            assert(next.drop_last() =~= filters@.take(i as int));
            assert(next.last() == filters@[i as int]);
        }
        match compile_clause(&filters[i]) {
            Ok(clause) => {
                let ghost held = json_models(must@);
                let ghost held_not = json_models(must_not@);
                let negated = match filters[i].operator {
                    FilterOperator::NotEquals => true,
                    FilterOperator::NotIn => true,
                    _ => false,
                };
                if negated {
                    must_not.push(clause);
                    proof {
                        assert(json_models(must_not@) =~= held_not.push(clause@));
                    }
                } else {
                    must.push(clause);
                    proof {
                        assert(json_models(must@) =~= held.push(clause@));
                    }
                }
                proof {
                    let next = filters@.take(i + 1);
                    assert forall|k: int| 0 <= k < next.len() implies clause_of(
                        #[trigger] next[k],
                    ) is Some by {
                        if k < i {
                            assert(next[k] == filters@.take(i as int)[k]);
                        }
                    }
                }
            },
            Err(e) => {
                proof {
                    assert(clause_of(filters@[i as int]) is None);
                    assert forall|j: int| 0 <= j < i implies clause_of(
                        #[trigger] filters@[j],
                    ) is Some by {
                        assert(filters@.take(i as int)[j] == filters@[j]);
                    }
                    assert(is_first_refused(filters@, i as int));
                }
                return Err(e);
            },
        }
        i = i + 1;
    }
    proof {
        assert(filters@.take(filters@.len() as int) =~= filters@);
    }
    Ok(object1("bool", object2("must", JsonValue::Array(must), "must_not", JsonValue::Array(must_not))))
}

/// The sort member of a search body.
pub open spec fn sort_member(sort: SortOption) -> (Seq<char>, JsonModel) {
    (
        "sort"@,
        JsonModel::Array(
            seq![
                obj1(
                    stored_name(sort.property@),
                    obj1(
                        "order"@,
                        JsonModel::String(
                            if sort.ascending {
                                "asc"@
                            } else {
                                "desc"@
                            },
                        ),
                    ),
                ),
            ],
        ),
    )
}

/// The members of a search body that follow the query: the sort order, the number of
/// hits asked for and the number of hits passed over, each where the query names it.
pub open spec fn paging_members(query: SearchQuery) -> Seq<(Seq<char>, JsonModel)> {
    (match query.sort {
        Some(sort) => seq![sort_member(sort)],
        None => Seq::<(Seq<char>, JsonModel)>::empty(),
    }) + (match query.limit {
        Some(limit) => seq![("size"@, JsonModel::Integer(limit as int))],
        None => Seq::<(Seq<char>, JsonModel)>::empty(),
    }) + (match query.offset {
        Some(offset) => seq![("from"@, JsonModel::Integer(offset as int))],
        None => Seq::<(Seq<char>, JsonModel)>::empty(),
    })
}

/// The body of a search: the boolean query of the filters, then sort order and paging.
pub open spec fn search_body(query: SearchQuery) -> JsonModel {
    JsonModel::Object(seq![("query"@, bool_query(query.filters@))] + paging_members(query))
}

/// Whether a limit or an offset can be written as a JSON integer.
pub open spec fn fits(n: Option<usize>) -> bool {
    match n {
        Some(v) => v <= i64::MAX,
        None => true,
    }
}

/// Compiles a search to the body of the request.
///
/// The error is a query error that says what is unsupported, and comes exactly where
/// one of the filters has no clause or the limit or the offset is too large to be
/// written down.
pub fn compile_search(query: &SearchQuery) -> (out: Result<JsonValue, StoreError>)
    ensures
        match out {
            Ok(body) => all_compile(query.filters@) && fits(query.limit) && fits(query.offset)
                && body@ == search_body(*query),
            Err(e) => search_refused(*query, e@),
        },
{
    let filters = match compile_filters(&query.filters) {
        Ok(q) => q,
        Err(e) => {
            return Err(e);
        },
    };
    let mut members: Vec<(String, JsonValue)> = Vec::new();
    members.push((owned("query"), filters));
    proof {
        assert(member_models(members@) =~= seq![("query"@, bool_query(query.filters@))]);
    }
    let ghost head = member_models(members@);
    match &query.sort {
        Some(sort) => {
            let order = if sort.ascending {
                owned("asc")
            } else {
                owned("desc")
            };
            let mut keys: Vec<JsonValue> = Vec::new();
            let field = name_in_store(sort.property.as_str());
            keys.push(object1(field.as_str(), object1("order", JsonValue::String(order))));
            proof {
                assert(json_models(keys@) =~= seq![
                    obj1(
                        stored_name(sort.property@),
                        obj1(
                            "order"@,
                            JsonModel::String(
                                if sort.ascending {
                                    "asc"@
                                } else {
                                    "desc"@
                                },
                            ),
                        ),
                    ),
                ]);
            }
            members.push((owned("sort"), JsonValue::Array(keys)));
            proof {
                assert(member_models(members@) =~= head + seq![sort_member(*sort)]);
            }
        },
        None => {
            proof {
                assert(member_models(members@) =~= head + Seq::<(Seq<char>, JsonModel)>::empty());
            }
        },
    }
    let ghost sorted = member_models(members@);
    match query.limit {
        Some(limit) => {
            if limit as u64 > 9223372036854775807u64 {
                return Err(refused("a limit that large"));
            }
            members.push((owned("size"), JsonValue::Integer(limit as i64)));
            proof {
                assert(member_models(members@) =~= sorted + seq![
                    ("size"@, JsonModel::Integer(limit as int)),
                ]);
            }
        },
        None => {
            proof {
                assert(member_models(members@) =~= sorted + Seq::<(Seq<char>, JsonModel)>::empty());
            }
        },
    }
    let ghost sized = member_models(members@);
    match query.offset {
        Some(offset) => {
            if offset as u64 > 9223372036854775807u64 {
                return Err(refused("an offset that large"));
            }
            members.push((owned("from"), JsonValue::Integer(offset as i64)));
            proof {
                assert(member_models(members@) =~= sized + seq![
                    ("from"@, JsonModel::Integer(offset as int)),
                ]);
            }
        },
        None => {
            proof {
                assert(member_models(members@) =~= sized + Seq::<(Seq<char>, JsonModel)>::empty());
            }
        },
    }
    proof {
        assert(member_models(members@) =~= seq![("query"@, bool_query(query.filters@))]
            + paging_members(*query));
    }
    Ok(JsonValue::Object(members))
}

/// The body of a count: the boolean query of the filters, or of no filter.
pub open spec fn count_body(filters: Option<Seq<Filter>>) -> JsonModel {
    obj1(
        "query"@,
        bool_query(
            match filters {
                Some(f) => f,
                None => Seq::<Filter>::empty(),
            },
        ),
    )
}

/// The verb of a request.
#[derive(Debug, Clone, Copy, PartialEq, Eq, Structural)]
pub enum HttpMethod {
    Get,
    Put,
    Post,
    Delete,
}

/// A request to the search engine.
#[derive(Debug, Clone)]
pub struct HttpRequest {
    pub method: HttpMethod,
    /// The path, from the slash after the host on.
    pub path: String,
    pub body: Option<JsonValue>,
}

/// Whether a request has the given verb, path and body.
pub open spec fn is_request(
    request: HttpRequest,
    method: HttpMethod,
    path: Seq<char>,
    body: Option<JsonModel>,
) -> bool {
    &&& request.method == method
    &&& request.path@ == path
    &&& match (request.body, body) {
        (Some(held), Some(expected)) => held@ == expected,
        (None, None) => true,
        _ => false,
    }
}

/// The path of a document: a slash, the index, `/_doc/`, the id.
pub open spec fn document_path(index: Seq<char>, object_id: Seq<char>) -> Seq<char> {
    "/"@ + index + "/_doc/"@ + object_id
}

/// The path of an operation on an index: a slash, the index, the operation.
pub open spec fn index_path(index: Seq<char>, operation: Seq<char>) -> Seq<char> {
    "/"@ + index + operation
}

/// The action that binds or unbinds an alias: `add` or `remove`, the index, the alias.
pub open spec fn alias_action(action: Seq<char>, index: Seq<char>, alias: Seq<char>) -> JsonModel {
    obj1(action, obj2("index"@, JsonModel::String(index), "alias"@, JsonModel::String(alias)))
}

/// The body of a request that changes aliases: its actions, carried out as one.
pub open spec fn alias_body(actions: Seq<JsonModel>) -> JsonModel {
    obj1("actions"@, JsonModel::Array(actions))
}

/// The body of a copy from one index into another.
pub open spec fn reindex_body(source: Seq<char>, dest: Seq<char>) -> JsonModel {
    obj2(
        "source"@,
        obj1("index"@, JsonModel::String(source)),
        "dest"@,
        obj1("index"@, JsonModel::String(dest)),
    )
}

fn make_alias_action(action: &str, index: &str, alias: &str) -> (out: JsonValue)
    ensures
        out@ == alias_action(action@, index@, alias@),
{
    object1(
        action,
        object2("index", JsonValue::String(owned(index)), "alias", JsonValue::String(owned(alias))),
    )
}

impl ElasticsearchStore {
    /// A store whose indices live under `index_prefix`.
    pub fn new(index_prefix: String) -> (store: Self)
        ensures
            store.index_prefix == index_prefix,
    {
        ElasticsearchStore { index_prefix }
    }

    /// The alias of a type: the name that its reads and writes go to.
    pub fn index_name(&self, object_type: &str) -> (name: String)
        ensures
            name@ == alias_text(self.index_prefix@, object_type@),
    {
        let mut name = self.index_prefix.clone();
        name.append("_");
        name.append(object_type);
        name
    }

    /// The name of the index that holds version `version` of a type.
    pub fn versioned_index_name(&self, object_type: &str, version: u64) -> (name: String)
        ensures
            name@ == versioned_text(self.index_prefix@, object_type@, version as nat),
    {
        let mut name = self.index_name(object_type);
        name.append("_v");
        push_u64(&mut name, version);
        name
    }

    /// The version of a type that the index `index` holds.
    ///
    /// The result is `Some(v)` exactly where `index` is the name of version `v` of the
    /// type.
    pub fn version_of_index(&self, object_type: &str, index: &str) -> (version: Option<u64>)
        ensures
            match version {
                Some(v) => index@ == versioned_text(self.index_prefix@, object_type@, v as nat),
                None => forall|v: u64|
                    index@ != versioned_text(self.index_prefix@, object_type@, v as nat),
            },
    {
        let mut head = self.index_name(object_type);
        head.append("_v");
        match strip_prefix(index, head.as_str()) {
            Some(rest) => match parse_u64(rest.as_str()) {
                Some(v) => Some(v),
                None => {
                    proof {
                        assert forall|v: u64|
                            index@ != versioned_text(
                                self.index_prefix@,
                                object_type@,
                                v as nat,
                            ) by {
                            if index@ == head@ + nat_text(v as nat) {
                                assert(rest@ =~= (head@ + rest@).subrange(
                                    head@.len() as int,
                                    (head@ + rest@).len() as int,
                                ));
                                assert(nat_text(v as nat) =~= (head@ + nat_text(v as nat)).subrange(
                                    head@.len() as int,
                                    (head@ + nat_text(v as nat)).len() as int,
                                ));
                            }
                        }
                    }
                    None
                },
            },
            None => {
                proof {
                    assert forall|v: u64|
                        index@ != versioned_text(self.index_prefix@, object_type@, v as nat) by {
                        if index@ == head@ + nat_text(v as nat) {
                            assert(head@.is_prefix_of(index@));
                        }
                    }
                }
                None
            },
        }
    }

    fn document_request(&self, method: HttpMethod, object_type: &str, object_id: &str, body: Option<
        JsonValue,
    >) -> (request: HttpRequest)
        ensures
            request.method == method,
            request.path@ == document_path(
                alias_text(self.index_prefix@, object_type@),
                object_id@,
            ),
            request.body == body,
    {
        let mut path = owned("/");
        let index = self.index_name(object_type);
        path.append(index.as_str());
        path.append("/_doc/");
        path.append(object_id);
        HttpRequest { method, path, body }
    }

    fn index_request(&self, method: HttpMethod, index: &str, operation: &str, body: Option<
        JsonValue,
    >) -> (request: HttpRequest)
        ensures
            request.method == method,
            request.path@ == index_path(index@, operation@),
            request.body == body,
    {
        let mut path = owned("/");
        path.append(index);
        path.append(operation);
        HttpRequest { method, path, body }
    }

    /// The request that indexes an object: the stored document of its properties is put
    /// under its id, in the place of what was there.
    pub fn index_object_request(
        &self,
        object_type: &str,
        object_id: &str,
        properties: &PropertyMap,
    ) -> (request: HttpRequest)
        ensures
            is_request(
                request,
                HttpMethod::Put,
                document_path(alias_text(self.index_prefix@, object_type@), object_id@),
                Some(JsonModel::Object(stored_members(properties@))),
            ),
    {
        self.document_request(
            HttpMethod::Put,
            object_type,
            object_id,
            Some(stored_document(properties)),
        )
    }

    /// The request that fetches an object.
    pub fn get_object_request(&self, object_type: &str, object_id: &str) -> (request: HttpRequest)
        ensures
            is_request(
                request,
                HttpMethod::Get,
                document_path(alias_text(self.index_prefix@, object_type@), object_id@),
                None,
            ),
    {
        self.document_request(HttpMethod::Get, object_type, object_id, None)
    }

    /// The request that deletes an object.
    pub fn delete_object_request(&self, object_type: &str, object_id: &str) -> (request:
        HttpRequest)
        ensures
            is_request(
                request,
                HttpMethod::Delete,
                document_path(alias_text(self.index_prefix@, object_type@), object_id@),
                None,
            ),
    {
        self.document_request(HttpMethod::Delete, object_type, object_id, None)
    }

    /// The request that searches a type.
    ///
    /// The error is a query error, and comes exactly where the search does not compile.
    pub fn search_request(&self, object_type: &str, query: &SearchQuery) -> (out: Result<
        HttpRequest,
        StoreError,
    >)
        ensures
            match out {
                Ok(request) => all_compile(query.filters@) && fits(query.limit) && fits(
                    query.offset,
                ) && is_request(
                    request,
                    HttpMethod::Post,
                    index_path(alias_text(self.index_prefix@, object_type@), "/_search"@),
                    Some(search_body(*query)),
                ),
                Err(e) => search_refused(*query, e@),
            },
    {
        match compile_search(query) {
            Ok(body) => {
                let index = self.index_name(object_type);
                Ok(self.index_request(HttpMethod::Post, index.as_str(), "/_search", Some(body)))
            },
            Err(e) => Err(e),
        }
    }

    /// The request that counts the objects of a type on which every filter holds.
    ///
    /// The error is a query error, and comes exactly where one of the filters has no
    /// clause.
    pub fn count_request(&self, object_type: &str, filters: Option<&Vec<Filter>>) -> (out: Result<
        HttpRequest,
        StoreError,
    >)
        ensures
            match out {
                Ok(request) => (filters matches Some(f) ==> all_compile(f@)) && is_request(
                    request,
                    HttpMethod::Post,
                    index_path(alias_text(self.index_prefix@, object_type@), "/_count"@),
                    Some(
                        count_body(
                            match filters {
                                Some(f) => Some(f@),
                                None => None,
                            },
                        ),
                    ),
                ),
                Err(e) => filters is Some && !all_compile(filters->0@) && filters_refused(
                    filters->0@,
                    e@,
                ),
            },
    {
        let none: Vec<Filter> = Vec::new();
        proof {
            assert(none@ =~= Seq::<Filter>::empty());
        }
        let compiled = match filters {
            Some(f) => compile_filters(f),
            None => compile_filters(&none),
        };
        match compiled {
            Ok(query) => {
                let index = self.index_name(object_type);
                Ok(
                    self.index_request(
                        HttpMethod::Post,
                        index.as_str(),
                        "/_count",
                        Some(object1("query", query)),
                    ),
                )
            },
            Err(e) => Err(e),
        }
    }

    /// The requests that index a batch of objects, one for each object and in their
    /// order, so that an object that fails does not keep the others from being indexed.
    pub fn bulk_index_requests(&self, objects: &Vec<crate::store::IndexedObject>) -> (requests: Vec<
        HttpRequest,
    >)
        ensures
            requests@.len() == objects@.len(),
            forall|i: int|
                0 <= i < objects@.len() ==> is_request(
                    #[trigger] requests@[i],
                    HttpMethod::Put,
                    document_path(
                        alias_text(self.index_prefix@, objects@[i].object_type@),
                        objects@[i].object_id@,
                    ),
                    Some(JsonModel::Object(stored_members(objects@[i].properties@))),
                ),
    {
        let mut requests: Vec<HttpRequest> = Vec::new();
        let mut i: usize = 0;
        while i < objects.len()
            invariant
                i <= objects.len(),
                requests@.len() == i,
                forall|k: int|
                    0 <= k < i ==> is_request(
                        #[trigger] requests@[k],
                        HttpMethod::Put,
                        document_path(
                            alias_text(self.index_prefix@, objects@[k].object_type@),
                            objects@[k].object_id@,
                        ),
                        Some(JsonModel::Object(stored_members(objects@[k].properties@))),
                    ),
            decreases objects.len() - i,
        {
            let request = self.index_object_request(
                objects[i].object_type.as_str(),
                objects[i].object_id.as_str(),
                &objects[i].properties,
            );
            requests.push(request);
            i = i + 1;
        }
        requests
    }

    /// The request that binds the alias of a type to version `version`. It is meant for
    /// a type that has no alias yet.
    pub fn create_alias_request(&self, object_type: &str, version: u64) -> (request: HttpRequest)
        ensures
            is_request(
                request,
                HttpMethod::Post,
                "/_aliases"@,
                Some(
                    alias_body(
                        seq![
                            alias_action(
                                "add"@,
                                versioned_text(self.index_prefix@, object_type@, version as nat),
                                alias_text(self.index_prefix@, object_type@),
                            ),
                        ],
                    ),
                ),
            ),
    {
        let alias = self.index_name(object_type);
        let index = self.versioned_index_name(object_type, version);
        let mut actions: Vec<JsonValue> = Vec::new();
        actions.push(make_alias_action("add", index.as_str(), alias.as_str()));
        proof {
            assert(json_models(actions@) =~= seq![alias_action("add"@, index@, alias@)]);
        }
        HttpRequest {
            method: HttpMethod::Post,
            path: owned("/_aliases"),
            body: Some(object1("actions", JsonValue::Array(actions))),
        }
    }

    /// The request that moves the alias of a type from one version to another: one
    /// request with two actions, which the engine carries out as one, so that no reader
    /// sees the alias on no version or on two. It copies nothing.
    pub fn swap_alias_request(&self, object_type: &str, old_version: u64, new_version: u64) -> (request:
        HttpRequest)
        ensures
            is_request(
                request,
                HttpMethod::Post,
                "/_aliases"@,
                Some(
                    alias_body(
                        seq![
                            alias_action(
                                "remove"@,
                                versioned_text(
                                    self.index_prefix@,
                                    object_type@,
                                    old_version as nat,
                                ),
                                alias_text(self.index_prefix@, object_type@),
                            ),
                            alias_action(
                                "add"@,
                                versioned_text(
                                    self.index_prefix@,
                                    object_type@,
                                    new_version as nat,
                                ),
                                alias_text(self.index_prefix@, object_type@),
                            ),
                        ],
                    ),
                ),
            ),
    {
        let alias = self.index_name(object_type);
        let from = self.versioned_index_name(object_type, old_version);
        let to = self.versioned_index_name(object_type, new_version);
        let mut actions: Vec<JsonValue> = Vec::new();
        actions.push(make_alias_action("remove", from.as_str(), alias.as_str()));
        actions.push(make_alias_action("add", to.as_str(), alias.as_str()));
        proof {
            assert(json_models(actions@) =~= seq![
                alias_action("remove"@, from@, alias@),
                alias_action("add"@, to@, alias@),
            ]);
        }
        HttpRequest {
            method: HttpMethod::Post,
            path: owned("/_aliases"),
            body: Some(object1("actions", JsonValue::Array(actions))),
        }
    }

    /// The request that copies every document of one version of a type into another.
    pub fn reindex_request(&self, object_type: &str, from_version: u64, to_version: u64) -> (request:
        HttpRequest)
        ensures
            is_request(
                request,
                HttpMethod::Post,
                "/_reindex"@,
                Some(
                    reindex_body(
                        versioned_text(self.index_prefix@, object_type@, from_version as nat),
                        versioned_text(self.index_prefix@, object_type@, to_version as nat),
                    ),
                ),
            ),
    {
        let from = self.versioned_index_name(object_type, from_version);
        let to = self.versioned_index_name(object_type, to_version);
        HttpRequest {
            method: HttpMethod::Post,
            path: owned("/_reindex"),
            body: Some(
                object2(
                    "source",
                    object1("index", JsonValue::String(from)),
                    "dest",
                    object1("index", JsonValue::String(to)),
                ),
            ),
        }
    }

    /// The request that asks which indices the alias of a type is bound to.
    pub fn alias_version_request(&self, object_type: &str) -> (request: HttpRequest)
        ensures
            is_request(
                request,
                HttpMethod::Get,
                "/_alias/"@ + alias_text(self.index_prefix@, object_type@),
                None,
            ),
    {
        let mut path = owned("/_alias/");
        let alias = self.index_name(object_type);
        path.append(alias.as_str());
        HttpRequest { method: HttpMethod::Get, path, body: None }
    }

    /// The request that deletes the index of one version of a type.
    pub fn delete_versioned_index_request(&self, object_type: &str, version: u64) -> (request:
        HttpRequest)
        ensures
            is_request(
                request,
                HttpMethod::Delete,
                index_path(
                    versioned_text(self.index_prefix@, object_type@, version as nat),
                    Seq::<char>::empty(),
                ),
                None,
            ),
    {
        proof {
            reveal_strlit("");
            assert(""@ =~= Seq::<char>::empty());
        }
        let index = self.versioned_index_name(object_type, version);
        self.index_request(HttpMethod::Delete, index.as_str(), "", None)
    }
}

/// Two versions of a type never share an index name.
pub proof fn lemma_versions_have_their_own_index(
    prefix: Seq<char>,
    object_type: Seq<char>,
    a: nat,
    b: nat,
)
    requires
        versioned_text(prefix, object_type, a) == versioned_text(prefix, object_type, b),
    ensures
        a == b,
{
    let head = alias_text(prefix, object_type) + "_v"@;
    assert(nat_text(a) =~= (head + nat_text(a)).subrange(
        head.len() as int,
        (head + nat_text(a)).len() as int,
    ));
    assert(nat_text(b) =~= (head + nat_text(b)).subrange(
        head.len() as int,
        (head + nat_text(b)).len() as int,
    ));
    lemma_nat_text_injective(a, b);
}

} // verus!
