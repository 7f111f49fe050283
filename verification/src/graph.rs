//! The graph store's query texts, mutations and answers: what is sent to the graph
//! database and what is read out of what comes back.

use vstd::prelude::*;
use vstd::string::*;
use crate::json::{
    is_json_number, is_number_text, json_models, json_of, json_text, member_models, member_of,
    property_to_json, JsonModel, JsonValue,
};
use crate::property::{text_of, PropertyMap, PropertyModel, PropertyValue};
use crate::store::{
    current_timestamp, fresh_identifier, Aggregation, ErrorKind, Filter, FilterOperator,
    GraphLink, LinkDirection, StoreError, TraversalAggregation,
};
use crate::text::{
    escape_quotes, escape_quotes_spec, i64_to_string, int_text, join, join_spec, no_duplicates,
    owned, push_repeated, push_unique, repeat_spec, views, with_unique,
};

verus! {

/// Whether `c` may stand in an edge label: an ASCII letter, a digit or an underscore.
pub open spec fn is_label_char(c: char) -> bool {
    ||| ('a' <= c && c <= 'z')
    ||| ('A' <= c && c <= 'Z')
    ||| ('0' <= c && c <= '9')
    ||| c == '_'
}

/// The edge label of a link type: its id with an underscore in the place of every
/// character that may not stand in a label.
pub open spec fn sanitized(id: Seq<char>) -> Seq<char> {
    id.map_values(
        |c: char|
            if is_label_char(c) {
                c
            } else {
                '_'
            },
    )
}

/// The edge label of a link type.
pub fn sanitize_predicate(link_type_id: &str) -> (label: String)
    ensures
        label@ == sanitized(link_type_id@),
{
    let mut label = String::new();
    for c in it: link_type_id.chars()
        invariant
            it.seq() == link_type_id@,
            label@ == sanitized(link_type_id@.take(it.index() as int)),
    {
        proof {
            assert(link_type_id@.take(it.index() + 1) == link_type_id@.take(it.index() as int).push(
                c,
            ));
        }
        let keep = (c >= 'a' && c <= 'z') || (c >= 'A' && c <= 'Z') || (c >= '0' && c <= '9') || c
            == '_';
        if keep {
            label.push(c);
        } else {
            label.push('_');
        }
        proof {
            assert(sanitized(link_type_id@.take(it.index() + 1)) =~= label@);
        }
    }
    proof {
        assert(link_type_id@.take(link_type_id@.len() as int) == link_type_id@);
    }
    label
}

/// A label is as long as the id, holds label characters only, keeps the id's own label
/// characters, and is its own label.
pub proof fn lemma_sanitized(id: Seq<char>)
    ensures
        sanitized(id).len() == id.len(),
        forall|i: int| 0 <= i < id.len() ==> is_label_char(#[trigger] sanitized(id)[i]),
        forall|i: int|
            0 <= i < id.len() && is_label_char(id[i]) ==> #[trigger] sanitized(id)[i] == id[i],
        sanitized(sanitized(id)) == sanitized(id),
{
    assert(sanitized(sanitized(id)) =~= sanitized(id));
}

/// The query that asks for the node whose external id is `object_id`.
pub open spec fn uid_lookup_text(object_id: Seq<char>) -> Seq<char> {
    "{ objects(func: eq(xid, \""@ + object_id + "\")) { uid } }"@
}

/// The query that asks for the node whose external id is `object_id`.
pub fn uid_lookup_query(object_id: &str) -> (query: String)
    ensures
        query@ == uid_lookup_text(object_id@),
{
    let mut query = owned("{ objects(func: eq(xid, \"");
    query.append(object_id);
    query.append("\")) { uid } }");
    query
}

/// The mutation that makes a node with the external id `object_id`.
pub open spec fn node_insert_text(object_id: Seq<char>) -> Seq<char> {
    "_:node <xid> \""@ + object_id + "\" ."@
}

/// The mutation that makes a node with the external id `object_id`.
pub fn node_insert_nquad(object_id: &str) -> (nquad: String)
    ensures
        nquad@ == node_insert_text(object_id@),
{
    let mut nquad = owned("_:node <xid> \"");
    nquad.append(object_id);
    nquad.append("\" .");
    nquad
}

/// The string member `field` of the first item of the array member `block` of an answer.
pub open spec fn first_field(answer: JsonModel, block: Seq<char>, field: Seq<char>) -> Option<
    Seq<char>,
> {
    match member_of(answer, block) {
        Some(JsonModel::Array(items)) => if items.len() > 0 {
            match member_of(items[0], field) {
                Some(JsonModel::String(s)) => Some(s),
                _ => None,
            }
        } else {
            None
        },
        _ => None,
    }
}

/// The string member `field` of the first item of the array member `block` of an answer.
pub fn read_first_field(answer: &JsonValue, block: &str, field: &str) -> (found: Option<String>)
    ensures
        match found {
            Some(s) => first_field(answer@, block@, field@) == Some(s@),
            None => first_field(answer@, block@, field@) is None,
        },
{
    match answer.get(block) {
        Some(list) => match list.as_array() {
            Some(items) => {
                if items.len() > 0 {
                    match items[0].get(field) {
                        Some(value) => match value.as_str() {
                            Some(s) => Some(owned(s)),
                            None => None,
                        },
                        None => None,
                    }
                } else {
                    None
                }
            },
            None => None,
        },
        None => None,
    }
}

/// The node handle in the answer to a lookup by external id.
pub fn uid_from_lookup(answer: &JsonValue) -> (found: Option<String>)
    ensures
        match found {
            Some(s) => first_field(answer@, "objects"@, "uid"@) == Some(s@),
            None => first_field(answer@, "objects"@, "uid"@) is None,
        },
{
    read_first_field(answer, "objects", "uid")
}

/// The query that asks for the external id of the node `uid`.
pub open spec fn xid_lookup_text(uid: Seq<char>) -> Seq<char> {
    "{ node(func: uid("@ + uid + ")) { uid xid } }"@
}

/// The query that asks for the external id of the node `uid`.
pub fn xid_lookup_query(uid: &str) -> (query: String)
    ensures
        query@ == xid_lookup_text(uid@),
{
    let mut query = owned("{ node(func: uid(");
    query.append(uid);
    query.append(")) { uid xid } }");
    query
}

/// The external id in the answer to a lookup by node handle, or the handle itself where
/// the answer names none.
pub fn xid_from_lookup(answer: &JsonValue, uid: &str) -> (id: String)
    ensures
        id@ == match first_field(answer@, "node"@, "xid"@) {
            Some(s) => s,
            None => uid@,
        },
{
    match read_first_field(answer, "node", "xid") {
        Some(s) => s,
        None => owned(uid),
    }
}

/// One facet: the name, an equals sign, the value in double quotes.
pub open spec fn facet(name: Seq<char>, value: Seq<char>) -> Seq<char> {
    name + "=\""@ + value + "\""@
}

/// The text of a property value on an edge: none for null, the JSON text of a list or
/// of named values, the display text of any other value.
pub open spec fn facet_value(m: PropertyModel) -> Option<Seq<char>> {
    match m {
        PropertyModel::Null => None,
        PropertyModel::Array(_) => Some(json_text(json_of(m))),
        PropertyModel::Mapping(_) => Some(json_text(json_of(m))),
        PropertyModel::Object(_) => Some(json_text(json_of(m))),
        _ => Some(text_of(m)),
    }
}

/// The facet of a property on an edge: none for null; for every other value the name,
/// an equals sign and the text of the value in double quotes, with each double quote
/// of the text escaped.
pub open spec fn facet_of(name: Seq<char>, m: PropertyModel) -> Option<Seq<char>> {
    match facet_value(m) {
        Some(text) => Some(facet(name, escape_quotes_spec(text))),
        None => None,
    }
}

/// The facets of the properties that are not null, in order.
pub open spec fn property_facets(entries: Seq<(Seq<char>, PropertyModel)>) -> Seq<Seq<char>>
    decreases entries.len(),
{
    if entries.len() == 0 {
        Seq::<Seq<char>>::empty()
    } else {
        let before = property_facets(entries.drop_last());
        match facet_of(entries.last().0, entries.last().1) {
            Some(text) => before.push(text),
            None => before,
        }
    }
}

/// The facets of a link: its id, its type and the time it was made, then its properties;
/// in round brackets, separated by a comma and a blank.
pub open spec fn facets_text(
    entries: Seq<(Seq<char>, PropertyModel)>,
    link_id: Seq<char>,
    link_type_id: Seq<char>,
    created_at: Seq<char>,
) -> Seq<char> {
    "("@ + join_spec(
        seq![
            facet("link_id"@, link_id),
            facet("link_type_id"@, link_type_id),
            facet("created_at"@, created_at),
        ] + property_facets(entries),
        ", "@,
    ) + ")"@
}

fn make_facet(name: &str, value: &str) -> (out: String)
    ensures
        out@ == facet(name@, value@),
{
    let mut out = owned(name);
    out.append("=\"");
    out.append(value);
    out.append("\"");
    out
}

fn make_quoted_facet(name: &str, value: &str) -> (out: String)
    ensures
        out@ == facet(name@, escape_quotes_spec(value@)),
{
    let escaped = escape_quotes(value);
    make_facet(name, escaped.as_str())
}

fn make_property_facet(name: &str, value: &PropertyValue) -> (out: Option<String>)
    ensures
        match out {
            Some(text) => facet_of(name@, value@) == Some(text@),
            None => facet_of(name@, value@) is None,
        },
{
    match value {
        PropertyValue::Null => None,
        PropertyValue::Array(_) => {
            let text = property_to_json(value).render();
            Some(make_quoted_facet(name, text.as_str()))
        },
        PropertyValue::Mapping(_) => {
            let text = property_to_json(value).render();
            Some(make_quoted_facet(name, text.as_str()))
        },
        PropertyValue::Object(_) => {
            let text = property_to_json(value).render();
            Some(make_quoted_facet(name, text.as_str()))
        },
        _ => {
            let text = value.to_string();
            Some(make_quoted_facet(name, text.as_str()))
        },
    }
}

/// The facets that carry a link's id, its type, the time it was made and its properties.
pub fn properties_to_facets(
    properties: &PropertyMap,
    link_id: &str,
    link_type_id: &str,
    created_at: &str,
) -> (facets: String)
    ensures
        facets@ == facets_text(properties@, link_id@, link_type_id@, created_at@),
{
    let ghost fixed = seq![
        facet("link_id"@, link_id@),
        facet("link_type_id"@, link_type_id@),
        facet("created_at"@, created_at@),
    ];
    let mut parts: Vec<String> = Vec::new();
    parts.push(make_facet("link_id", link_id));
    parts.push(make_facet("link_type_id", link_type_id));
    parts.push(make_facet("created_at", created_at));
    proof {
        assert(views(parts@) =~= fixed);
        assert(properties@.take(0) =~= Seq::<(Seq<char>, PropertyModel)>::empty());
    }
    let entries = properties.iter();
    let mut i: usize = 0;
    while i < entries.len()
        invariant
            i <= entries.len(),
            crate::property::entry_models(entries@) == properties@,
            views(parts@) == fixed + property_facets(properties@.take(i as int)),
        decreases entries.len() - i,
    {
        proof {
            let next = properties@.take(i + 1);
            assert(next.drop_last() =~= properties@.take(i as int));
            assert(next.last() == (entries@[i as int].0@, entries@[i as int].1@));
        }
        let ghost before = views(parts@);
        match make_property_facet(entries[i].0.as_str(), &entries[i].1) {
            Some(text) => {
                parts.push(text);
                proof {
                    assert(views(parts@) =~= before.push(text@));
                }
            },
            None => {},
        }
        proof {
            assert(views(parts@) =~= fixed + property_facets(properties@.take(i + 1)));
        }
        i = i + 1;
    }
    proof {
        assert(properties@.take(entries@.len() as int) =~= properties@);
    }
    let mut facets = owned("(");
    let joined = join(&parts, ", ");
    facets.append(joined.as_str());
    facets.append(")");
    facets
}

/// The mutation that makes an edge: source, label and target in angle brackets, then the
/// facets and a full stop.
pub open spec fn link_text(
    source_uid: Seq<char>,
    label: Seq<char>,
    target_uid: Seq<char>,
    facets: Seq<char>,
) -> Seq<char> {
    "<"@ + source_uid + "> <"@ + label + "> <"@ + target_uid + "> "@ + facets + " ."@
}

/// The mutation that makes an edge of type `link_type_id` between two nodes.
pub fn link_nquad(source_uid: &str, link_type_id: &str, target_uid: &str, facets: &str) -> (nquad:
    String)
    ensures
        nquad@ == link_text(source_uid@, sanitized(link_type_id@), target_uid@, facets@),
{
    let label = sanitize_predicate(link_type_id);
    let mut nquad = owned("<");
    nquad.append(source_uid);
    nquad.append("> <");
    nquad.append(label.as_str());
    nquad.append("> <");
    nquad.append(target_uid);
    nquad.append("> ");
    nquad.append(facets);
    nquad.append(" .");
    nquad
}

/// The ids of `found` in the order in which each comes first, none twice.
pub open spec fn unique(found: Seq<Seq<char>>) -> Seq<Seq<char>>
    decreases found.len(),
{
    if found.len() == 0 {
        Seq::<Seq<char>>::empty()
    } else {
        with_unique(unique(found.drop_last()), found.last())
    }
}

/// The reached set of a traversal: the ids found, each once, in the order in which each
/// came first.
pub fn deduplicate(found: &Vec<String>) -> (ids: Vec<String>)
    ensures
        views(ids@) == unique(views(found@)),
{
    let mut ids: Vec<String> = Vec::new();
    let mut i: usize = 0;
    proof {
        assert(views(found@).take(0) =~= Seq::<Seq<char>>::empty());
        assert(views(ids@) =~= Seq::<Seq<char>>::empty());
    }
    while i < found.len()
        invariant
            i <= found.len(),
            views(ids@) == unique(views(found@).take(i as int)),
        decreases found.len() - i,
    {
        proof {
            let next = views(found@).take(i + 1);
            assert(next.drop_last() =~= views(found@).take(i as int));
            assert(next.last() == found@[i as int]@);
        }
        push_unique(&mut ids, found[i].as_str());
        i = i + 1;
    }
    proof {
        assert(views(found@).take(found@.len() as int) =~= views(found@));
    }
    ids
}

/// The reached set holds an id exactly if the id was found, however often.
pub proof fn lemma_unique_holds(found: Seq<Seq<char>>, id: Seq<char>)
    ensures
        unique(found).contains(id) <==> found.contains(id),
    decreases found.len(),
{
    if found.len() > 0 {
        let rest = found.drop_last();
        lemma_unique_holds(rest, id);
        let before = unique(rest);
        let after = unique(found);
        if after.contains(id) {
            let k = choose|k: int| 0 <= k < after.len() && after[k] == id;
            if k < before.len() {
                assert(before[k] == id);
                assert(before.contains(id));
                let r = choose|r: int| 0 <= r < rest.len() && rest[r] == id;
                assert(found[r] == id);
            } else {
                assert(found[found.len() - 1] == id);
            }
        }
        if found.contains(id) {
            let r = choose|r: int| 0 <= r < found.len() && found[r] == id;
            if r < rest.len() {
                assert(rest[r] == id);
                assert(rest.contains(id));
                let k = choose|k: int| 0 <= k < before.len() && before[k] == id;
                assert(after[k] == id);
            } else if before.contains(id) {
                let k = choose|k: int| 0 <= k < before.len() && before[k] == id;
                assert(after[k] == id);
            } else {
                assert(after[after.len() - 1] == id);
            }
        }
    }
}

/// The reached set holds no id twice.
pub proof fn lemma_unique_once(found: Seq<Seq<char>>)
    ensures
        no_duplicates(unique(found)),
    decreases found.len(),
{
    if found.len() > 0 {
        let rest = found.drop_last();
        lemma_unique_once(rest);
        let before = unique(rest);
        let after = unique(found);
        assert forall|i: int, j: int| 0 <= i < j < after.len() implies after[i] != after[j] by {
            if j == before.len() {
                assert(before[i] == after[i]);
                assert(before.contains(after[i]));
            } else {
                assert(before[i] == after[i]);
                assert(before[j] == after[j]);
            }
        }
    }
}



/// How a value is written in a condition: a text in double quotes with its own quotes
/// escaped, a number or a truth value as it is. No other value can stand in a
/// condition, nor a double whose text is no number.
pub open spec fn condition_literal(m: PropertyModel) -> Option<Seq<char>> {
    match m {
        PropertyModel::String(s) => Some("\""@ + escape_quotes_spec(s) + "\""@),
        PropertyModel::Date(s) => Some("\""@ + escape_quotes_spec(s) + "\""@),
        PropertyModel::DateTime(s) => Some("\""@ + escape_quotes_spec(s) + "\""@),
        PropertyModel::ObjectReference(s) => Some("\""@ + escape_quotes_spec(s) + "\""@),
        PropertyModel::Integer(i) => Some(int_text(i)),
        PropertyModel::Double(t) => if is_number_text(t) {
            Some(t)
        } else {
            None
        },
        PropertyModel::Boolean(b) => Some(
            if b {
                "true"@
            } else {
                "false"@
            },
        ),
        _ => None,
    }
}

/// The comparison function of the graph database for an operator, where it has one.
pub open spec fn comparison_name(operator: FilterOperator) -> Option<Seq<char>> {
    match operator {
        FilterOperator::Equals => Some("eq"@),
        FilterOperator::GreaterThan => Some("gt"@),
        FilterOperator::LessThan => Some("lt"@),
        FilterOperator::GreaterThanOrEqual => Some("ge"@),
        FilterOperator::LessThanOrEqual => Some("le"@),
        _ => None,
    }
}

/// One comparison: the function, then the property and the literal in round brackets.
pub open spec fn comparison(name: Seq<char>, property: Seq<char>, literal: Seq<char>) -> Seq<char> {
    name + "("@ + property + ", "@ + literal + ")"@
}

/// For each value an equality of the property with it; none where a value has no literal.
pub open spec fn alternatives(property: Seq<char>, values: Seq<PropertyModel>) -> Option<
    Seq<Seq<char>>,
>
    decreases values.len(),
{
    if values.len() == 0 {
        Some(Seq::<Seq<char>>::empty())
    } else {
        match (alternatives(property, values.drop_last()), condition_literal(values.last())) {
            (Some(before), Some(literal)) => Some(before.push(comparison("eq"@, property, literal))),
            _ => None,
        }
    }
}

/// The condition that a filter compiles to. A comparison compiles to the database's
/// function of that name; `In` over a list that is not empty compiles to the equalities
/// with its values, joined by `OR`, in round brackets. Nothing else compiles.
pub open spec fn condition_of(filter: Filter) -> Option<Seq<char>> {
    match filter.operator {
        FilterOperator::In => match filter.value@ {
            PropertyModel::Array(values) => if values.len() > 0 {
                match alternatives(filter.property@, values) {
                    Some(parts) => Some("("@ + join_spec(parts, " OR "@) + ")"@),
                    None => None,
                }
            } else {
                None
            },
            _ => None,
        },
        _ => match (comparison_name(filter.operator), condition_literal(filter.value@)) {
            (Some(name), Some(literal)) => Some(comparison(name, filter.property@, literal)),
            _ => None,
        },
    }
}

/// The conditions of a list of filters; none where one of them does not compile.
pub open spec fn conditions_of(filters: Seq<Filter>) -> Option<Seq<Seq<char>>>
    decreases filters.len(),
{
    if filters.len() == 0 {
        Some(Seq::<Seq<char>>::empty())
    } else {
        match (conditions_of(filters.drop_last()), condition_of(filters.last())) {
            (Some(before), Some(condition)) => Some(before.push(condition)),
            _ => None,
        }
    }
}

/// The expression that a list of filters compiles to: their conditions joined by `AND`.
pub open spec fn expression_of(filters: Seq<Filter>) -> Option<Seq<char>> {
    match conditions_of(filters) {
        Some(parts) => Some(join_spec(parts, " AND "@)),
        None => None,
    }
}

fn literal_of(value: &PropertyValue) -> (out: Option<String>)
    ensures
        match out {
            Some(text) => condition_literal(value@) == Some(text@),
            None => condition_literal(value@) is None,
        },
{
    match value {
        PropertyValue::String(s) => Some(quoted(s.as_str())),
        PropertyValue::Date(s) => Some(quoted(s.as_str())),
        PropertyValue::DateTime(s) => Some(quoted(s.as_str())),
        PropertyValue::ObjectReference(s) => Some(quoted(s.as_str())),
        PropertyValue::Integer(i) => Some(i64_to_string(*i)),
        PropertyValue::Double(t) => if is_json_number(t.as_str()) {
            Some(t.clone())
        } else {
            None
        },
        PropertyValue::Boolean(b) => if *b {
            Some(owned("true"))
        } else {
            Some(owned("false"))
        },
        _ => None,
    }
}

fn quoted(s: &str) -> (out: String)
    ensures
        out@ == "\""@ + escape_quotes_spec(s@) + "\""@,
{
    let mut out = owned("\"");
    let escaped = escape_quotes(s);
    out.append(escaped.as_str());
    out.append("\"");
    out
}

fn make_comparison(name: &str, property: &str, literal: &str) -> (out: String)
    ensures
        out@ == comparison(name@, property@, literal@),
{
    let mut out = owned(name);
    out.append("(");
    out.append(property);
    out.append(", ");
    out.append(literal);
    out.append(")");
    out
}

/// The message of a refusal: that, and what, is unsupported in a graph traversal.
pub open spec fn refusal(what: Seq<char>) -> Seq<char> {
    "Unsupported in a graph traversal: "@ + what
}

/// The message that says why a filter has no condition.
pub open spec fn condition_message(filter: Filter) -> Seq<char> {
    match filter.operator {
        FilterOperator::In => match filter.value@ {
            PropertyModel::Array(values) => if values.len() == 0 {
                refusal("a list without values"@)
            } else {
                refusal("a value that has no literal"@)
            },
            _ => refusal("a value that is no list"@),
        },
        _ => if comparison_name(filter.operator) is None {
            refusal("the operator"@)
        } else {
            refusal("a value that has no literal"@)
        },
    }
}

/// Whether the filter at `at` is the first that has no condition.
pub open spec fn is_first_refused(filters: Seq<Filter>, at: int) -> bool {
    &&& 0 <= at < filters.len()
    &&& condition_of(filters[at]) is None
    &&& forall|j: int| 0 <= j < at ==> condition_of(#[trigger] filters[j]) is Some
}

/// Whether `e` is the refusal of a list of filters: the query error that says why the
/// first filter without a condition has none.
pub open spec fn filters_refused(filters: Seq<Filter>, e: (ErrorKind, Seq<char>)) -> bool {
    exists|at: int|
        #[trigger] is_first_refused(filters, at) && e == (
            ErrorKind::Query,
            condition_message(filters[at]),
        )
}

/// Whether `e` is the refusal of an aggregation: the query error that says that the
/// database has no such reduction, or else that of its object filters.
pub open spec fn aggregation_refused(
    aggregation: TraversalAggregation,
    e: (ErrorKind, Seq<char>),
) -> bool {
    if reduction_of(aggregation.operation, aggregation.property@) is None {
        e == (ErrorKind::Query, refusal("the aggregation"@))
    } else {
        expression_of(aggregation.object_filters@) is None && filters_refused(
            aggregation.object_filters@,
            e,
        )
    }
}

fn unsupported(what: &str) -> (e: StoreError)
    ensures
        e is Query,
        e@ == (ErrorKind::Query, refusal(what@)),
{
    let mut message = owned("Unsupported in a graph traversal: ");
    message.append(what);
    StoreError::Query(message)
}

/// Compiles one filter to a condition of the graph database.
///
/// The error is a query error that says what is unsupported, and comes exactly where
/// the filter does not compile.
pub fn compile_condition(filter: &Filter) -> (out: Result<String, StoreError>)
    ensures
        match out {
            Ok(text) => condition_of(*filter) == Some(text@),
            Err(e) => condition_of(*filter) is None && e@ == (
                ErrorKind::Query,
                condition_message(*filter),
            ),
        },
{
    match filter.operator {
        FilterOperator::In => match &filter.value {
            PropertyValue::Array(values) => {
                if values.len() == 0 {
                    return Err(unsupported("a list without values"));
                }
                let ghost models = crate::property::models_of(values@);
                let mut parts: Vec<String> = Vec::new();
                let mut i: usize = 0;
                proof {
                    assert(models.take(0) =~= Seq::<PropertyModel>::empty());
                    assert(views(parts@) =~= Seq::<Seq<char>>::empty());
                }
                while i < values.len()
                    invariant
                        i <= values.len(),
                        models == crate::property::models_of(values@),
                        filter.operator == FilterOperator::In,
                        filter.value@ == PropertyModel::Array(models),
                        models.len() > 0,
                        alternatives(filter.property@, models.take(i as int)) == Some(
                            views(parts@),
                        ),
                    decreases values.len() - i,
                {
                    proof {
                        let next = models.take(i + 1);
                        assert(next.drop_last() =~= models.take(i as int));
                        assert(next.last() == values@[i as int]@);
                        lemma_alternatives_stay_none(filter.property@, models, i + 1);
                    }
                    match literal_of(&values[i]) {
                        Some(literal) => {
                            let ghost before = views(parts@);
                            parts.push(
                                make_comparison("eq", filter.property.as_str(), literal.as_str()),
                            );
                            proof {
                                assert(views(parts@) =~= before.push(
                                    comparison("eq"@, filter.property@, literal@),
                                ));
                            }
                        },
                        None => {
                            return Err(unsupported("a value that has no literal"));
                        },
                    }
                    i = i + 1;
                }
                proof {
                    assert(models.take(values@.len() as int) =~= models);
                }
                let mut out = owned("(");
                let joined = join(&parts, " OR ");
                out.append(joined.as_str());
                out.append(")");
                Ok(out)
            },
            _ => Err(unsupported("a value that is no list")),
        },
        _ => {
            let name = match filter.operator {
                FilterOperator::Equals => "eq",
                FilterOperator::GreaterThan => "gt",
                FilterOperator::LessThan => "lt",
                FilterOperator::GreaterThanOrEqual => "ge",
                FilterOperator::LessThanOrEqual => "le",
                _ => {
                    return Err(unsupported("the operator"));
                },
            };
            match literal_of(&filter.value) {
                Some(literal) => Ok(
                    make_comparison(name, filter.property.as_str(), literal.as_str()),
                ),
                None => Err(unsupported("a value that has no literal")),
            }
        },
    }
}

/// Where the first `n` values have no alternatives, the whole list has none.
pub proof fn lemma_alternatives_stay_none(property: Seq<char>, values: Seq<PropertyModel>, n: int)
    requires
        0 <= n <= values.len(),
    ensures
        alternatives(property, values.take(n)) is None ==> alternatives(property, values) is None,
    decreases values.len() - n,
{
    if n < values.len() {
        let next = values.take(n + 1);
        assert(next.drop_last() =~= values.take(n));
        lemma_alternatives_stay_none(property, values, n + 1);
    } else {
        assert(values.take(n) =~= values);
    }
}

/// Where the first `n` filters do not compile, the whole list does not.
pub proof fn lemma_conditions_stay_none(filters: Seq<Filter>, n: int)
    requires
        0 <= n <= filters.len(),
    ensures
        conditions_of(filters.take(n)) is None ==> conditions_of(filters) is None,
    decreases filters.len() - n,
{
    if n < filters.len() {
        let next = filters.take(n + 1);
        assert(next.drop_last() =~= filters.take(n));
        lemma_conditions_stay_none(filters, n + 1);
    } else {
        assert(filters.take(n) =~= filters);
    }
}

/// Compiles filters to one expression of the graph database: every filter must hold.
///
/// The error is the query error of the first filter that does not compile, and comes
/// exactly where there is one. No filter is left out of the expression.
pub fn compile_expression(filters: &Vec<Filter>) -> (out: Result<String, StoreError>)
    ensures
        match out {
            Ok(text) => expression_of(filters@) == Some(text@),
            Err(e) => expression_of(filters@) is None && filters_refused(filters@, e@),
        },
{
    let mut parts: Vec<String> = Vec::new();
    let mut i: usize = 0;
    proof {
        assert(filters@.take(0) =~= Seq::<Filter>::empty());
        assert(views(parts@) =~= Seq::<Seq<char>>::empty());
    }
    while i < filters.len()
        invariant
            i <= filters.len(),
            conditions_of(filters@.take(i as int)) == Some(views(parts@)),
            forall|j: int| 0 <= j < i ==> condition_of(#[trigger] filters@[j]) is Some,
        decreases filters.len() - i,
    {
        proof {
            let next = filters@.take(i + 1);
            assert(next.drop_last() =~= filters@.take(i as int));
            assert(next.last() == filters@[i as int]);
            lemma_conditions_stay_none(filters@, i + 1);
        }
        match compile_condition(&filters[i]) {
            Ok(condition) => {
                let ghost before = views(parts@);
                parts.push(condition);
                proof {
                    assert(views(parts@) =~= before.push(condition@));
                }
            },
            Err(e) => {
                proof {
                    assert(is_first_refused(filters@, i as int));
                }
                return Err(e);
            },
        }
        i = i + 1;
    }
    proof {
        assert(filters@.take(filters@.len() as int) =~= filters@);
    }
    Ok(join(&parts, " AND "))
}

/// The reduction of the graph database for an aggregation over `property`: a count of
/// nodes, or the sum, average, minimum or maximum of the property. No other aggregation
/// has one.
pub open spec fn reduction_of(operation: Aggregation, property: Seq<char>) -> Option<Seq<char>> {
    match operation {
        Aggregation::Count => Some("count(uid)"@),
        Aggregation::Sum(_) => Some("sum("@ + property + ")"@),
        Aggregation::Avg(_) => Some("avg("@ + property + ")"@),
        Aggregation::Min(_) => Some("min("@ + property + ")"@),
        Aggregation::Max(_) => Some("max("@ + property + ")"@),
        _ => None,
    }
}

/// Compiles an aggregation to a reduction of the graph database.
///
/// The error is a query error that says so, and comes exactly where the database has no
/// such reduction.
pub fn compile_reduction(aggregation: &TraversalAggregation) -> (out: Result<String, StoreError>)
    ensures
        match out {
            Ok(text) => reduction_of(aggregation.operation, aggregation.property@) == Some(text@),
            Err(e) => reduction_of(aggregation.operation, aggregation.property@) is None && e@ == (
                ErrorKind::Query,
                refusal("the aggregation"@),
            ),
        },
{
    let name = match &aggregation.operation {
        Aggregation::Count => {
            return Ok(owned("count(uid)"));
        },
        Aggregation::Sum(_) => "sum(",
        Aggregation::Avg(_) => "avg(",
        Aggregation::Min(_) => "min(",
        Aggregation::Max(_) => "max(",
        _ => {
            return Err(unsupported("the aggregation"));
        },
    };
    let mut out = owned(name);
    out.append(aggregation.property.as_str());
    out.append(")");
    Ok(out)
}

/// Two blanks for each level.
pub open spec fn indent(level: nat) -> Seq<char> {
    repeat_spec("  "@, level)
}

/// The reverse edge of the label with the condition, where there is one, and the
/// opening brace.
pub open spec fn edge_head(label: Seq<char>, condition: Seq<char>) -> Seq<char> {
    if condition.len() > 0 {
        "~"@ + label + " @filter("@ + condition + ") {\n"@
    } else {
        "~"@ + label + " {\n"@
    }
}

/// A line that asks for one field of the nodes reached.
pub open spec fn field_line(level: nat, field: Seq<char>) -> Seq<char> {
    indent(level) + field + "\n"@
}

/// The lines that open hop `hop`: the reverse edge of the label, with the condition at
/// the hop that carries it, and the two ids that are asked of every node reached.
pub open spec fn open_hop(label: Seq<char>, hop: nat, condition: Seq<char>, at: nat) -> Seq<char> {
    indent(hop + 1) + edge_head(
        label,
        if hop == at {
            condition
        } else {
            Seq::<char>::empty()
        },
    ) + field_line(hop + 2, "uid"@) + field_line(hop + 2, "xid"@)
}

/// The lines that open the hops 1 to `hops`, each inside the one before.
pub open spec fn open_hops(label: Seq<char>, hops: nat, condition: Seq<char>, at: nat) -> Seq<char>
    decreases hops,
{
    if hops == 0 {
        Seq::<char>::empty()
    } else {
        open_hops(label, (hops - 1) as nat, condition, at) + open_hop(label, hops, condition, at)
    }
}

/// The line that closes hop `hop`.
pub open spec fn close_hop(hop: nat) -> Seq<char> {
    indent(hop + 1) + "}\n"@
}

/// The lines that close the hops from `hops` down to `down + 1`, innermost first.
pub open spec fn close_hops(hops: nat, down: nat) -> Seq<char>
    decreases hops - down,
{
    if down >= hops {
        Seq::<char>::empty()
    } else {
        close_hops(hops, down + 1) + close_hop(down + 1)
    }
}

/// The line that asks for a reduction inside the innermost hop; nothing for no reduction.
pub open spec fn reduction_line(hops: nat, reduction: Seq<char>) -> Seq<char> {
    if reduction.len() > 0 {
        field_line(hops + 2, "value: "@ + reduction)
    } else {
        Seq::<char>::empty()
    }
}

/// The query of a traversal: from the node `start_uid`, `hops` blocks along the reverse
/// edge of `label`, one inside the other, so that the query is nested to the depth
/// `hops`. The condition stands at hop `at`, the reduction inside the innermost hop.
pub open spec fn traversal_text(
    start_uid: Seq<char>,
    label: Seq<char>,
    hops: nat,
    condition: Seq<char>,
    at: nat,
    reduction: Seq<char>,
) -> Seq<char> {
    "{\n  node(func: uid("@ + start_uid + ")) {\n"@ + open_hops(label, hops, condition, at)
        + reduction_line(hops, reduction) + close_hops(hops, 0) + "  }\n}\n"@
}

fn push_field_line(query: &mut String, level: usize, field: &str)
    ensures
        final(query)@ == old(query)@ + field_line(level as nat, field@),
{
    push_repeated(query, "  ", level);
    query.append(field);
    query.append("\n");
    proof {
        assert(query@ =~= old(query)@ + field_line(level as nat, field@));
    }
}

fn push_edge_head(query: &mut String, label: &str, condition: &str)
    ensures
        final(query)@ == old(query)@ + edge_head(label@, condition@),
{
    query.append("~");
    query.append(label);
    if condition.unicode_len() > 0 {
        query.append(" @filter(");
        query.append(condition);
        query.append(") {\n");
        proof {
            assert(query@ =~= old(query)@ + ("~"@ + label@ + " @filter("@ + condition@ + ") {\n"@));
        }
    } else {
        query.append(" {\n");
        proof {
            assert(query@ =~= old(query)@ + ("~"@ + label@ + " {\n"@));
        }
    }
}

fn push_open_hop(query: &mut String, label: &str, hop: usize, condition: &str, at: usize)
    requires
        hop <= usize::MAX - 2,
    ensures
        final(query)@ == old(query)@ + open_hop(label@, hop as nat, condition@, at as nat),
{
    push_repeated(query, "  ", hop + 1);
    let ghost indented = query@;
    if hop == at {
        push_edge_head(query, label, condition);
    } else {
        proof {
            reveal_strlit("");
            assert(""@ =~= Seq::<char>::empty());
        }
        push_edge_head(query, label, "");
    }
    let ghost headed = query@;
    push_field_line(query, hop + 2, "uid");
    let ghost first = query@;
    push_field_line(query, hop + 2, "xid");
    proof {
        let a = indent((hop + 1) as nat);
        let b = edge_head(
            label@,
            if hop == at {
                condition@
            } else {
                Seq::<char>::empty()
            },
        );
        let c = field_line((hop + 2) as nat, "uid"@);
        let d = field_line((hop + 2) as nat, "xid"@);
        assert(indented == old(query)@ + a);
        assert(headed == indented + b);
        assert(first == headed + c);
        assert(query@ == first + d);
        assert(query@ =~= old(query)@ + (a + b + c + d));
    }
}

fn push_reduction_line(query: &mut String, hops: usize, reduction: &str)
    requires
        hops <= usize::MAX - 2,
    ensures
        final(query)@ == old(query)@ + reduction_line(hops as nat, reduction@),
{
    if reduction.unicode_len() > 0 {
        let mut field = owned("value: ");
        field.append(reduction);
        push_field_line(query, hops + 2, field.as_str());
    } else {
        proof {
            assert(query@ =~= old(query)@ + reduction_line(hops as nat, reduction@));
        }
    }
}

fn push_close_hop(query: &mut String, hop: usize)
    requires
        hop <= usize::MAX - 2,
    ensures
        final(query)@ == old(query)@ + close_hop(hop as nat),
{
    push_repeated(query, "  ", hop + 1);
    query.append("}\n");
    proof {
        assert(query@ =~= old(query)@ + close_hop(hop as nat));
    }
}

/// Builds the query of a traversal over the edges of one link type.
fn build_traversal(
    start_uid: &str,
    link_type_id: &str,
    max_hops: usize,
    condition: &str,
    at: usize,
    reduction: &str,
) -> (query: String)
    requires
        max_hops <= usize::MAX - 2,
    ensures
        query@ == traversal_text(
            start_uid@,
            sanitized(link_type_id@),
            max_hops as nat,
            condition@,
            at as nat,
            reduction@,
        ),
{
    let label = sanitize_predicate(link_type_id);
    let mut query = owned("{\n  node(func: uid(");
    query.append(start_uid);
    query.append(")) {\n");
    let ghost head = query@;
    let mut hop: usize = 0;
    proof {
        assert(query@ =~= head + open_hops(label@, 0, condition@, at as nat));
    }
    while hop < max_hops
        invariant
            hop <= max_hops,
            max_hops <= usize::MAX - 2,
            query@ == head + open_hops(label@, hop as nat, condition@, at as nat),
        decreases max_hops - hop,
    {
        hop = hop + 1;
        let ghost before = open_hops(label@, (hop - 1) as nat, condition@, at as nat);
        push_open_hop(&mut query, label.as_str(), hop, condition, at);
        proof {
            assert(query@ =~= head + (before + open_hop(label@, hop as nat, condition@, at as nat)));
        }
    }
    push_reduction_line(&mut query, max_hops, reduction);
    let ghost body = query@;
    let mut down: usize = max_hops;
    proof {
        assert(query@ =~= body + close_hops(max_hops as nat, down as nat));
    }
    while down > 0
        invariant
            down <= max_hops,
            max_hops <= usize::MAX - 2,
            query@ == body + close_hops(max_hops as nat, down as nat),
        decreases down,
    {
        let ghost before = close_hops(max_hops as nat, down as nat);
        push_close_hop(&mut query, down);
        down = down - 1;
        proof {
            assert(query@ =~= body + (before + close_hop((down + 1) as nat)));
        }
    }
    let ghost closed = query@;
    query.append("  }\n}\n");
    proof {
        let opened = open_hops(label@, max_hops as nat, condition@, at as nat);
        let line = reduction_line(max_hops as nat, reduction@);
        assert(body == head + opened + line);
        assert(query@ =~= head + opened + line + close_hops(max_hops as nat, 0) + "  }\n}\n"@);
    }
    query
}

/// The query of a traversal whose edges of the first hop must meet a condition that is
/// compiled already; an empty condition asks nothing of them.
pub fn conditioned_traversal_query(
    start_uid: &str,
    link_type_id: &str,
    max_hops: usize,
    condition: &str,
) -> (query: String)
    requires
        max_hops <= usize::MAX - 2,
    ensures
        query@ == traversal_text(
            start_uid@,
            sanitized(link_type_id@),
            max_hops as nat,
            condition@,
            1,
            Seq::<char>::empty(),
        ),
{
    proof {
        reveal_strlit("");
        assert(""@ =~= Seq::<char>::empty());
    }
    build_traversal(start_uid, link_type_id, max_hops, condition, 1, "")
}

/// The query of a traversal that asks for a reduction over the objects of the last hop
/// that meet a condition; both are compiled already.
pub fn reducing_traversal_query(
    start_uid: &str,
    link_type_id: &str,
    max_hops: usize,
    condition: &str,
    reduction: &str,
) -> (query: String)
    requires
        max_hops <= usize::MAX - 2,
    ensures
        query@ == traversal_text(
            start_uid@,
            sanitized(link_type_id@),
            max_hops as nat,
            condition@,
            max_hops as nat,
            reduction@,
        ),
{
    build_traversal(start_uid, link_type_id, max_hops, condition, max_hops, reduction)
}

/// The query that reaches, from the node `start_uid`, the nodes up to `max_hops` edges
/// of the link type away.
pub fn traversal_query(start_uid: &str, link_type_id: &str, max_hops: usize) -> (query: String)
    requires
        max_hops <= usize::MAX - 2,
    ensures
        query@ == traversal_text(
            start_uid@,
            sanitized(link_type_id@),
            max_hops as nat,
            Seq::<char>::empty(),
            1,
            Seq::<char>::empty(),
        ),
{
    proof {
        reveal_strlit("");
        assert(""@ =~= Seq::<char>::empty());
    }
    build_traversal(start_uid, link_type_id, max_hops, "", 1, "")
}

/// The query of a traversal that follows only the edges on which every filter holds:
/// the filters stand at the first hop, so the database evaluates them while it descends.
///
/// The error is the query error of the first filter that does not compile, and comes
/// exactly where there is one.
pub fn filtered_traversal_query(
    start_uid: &str,
    link_type_id: &str,
    max_hops: usize,
    link_filters: &Vec<Filter>,
) -> (out: Result<String, StoreError>)
    requires
        max_hops <= usize::MAX - 2,
    ensures
        match out {
            Ok(query) => expression_of(link_filters@) is Some && query@ == traversal_text(
                start_uid@,
                sanitized(link_type_id@),
                max_hops as nat,
                expression_of(link_filters@)->0,
                1,
                Seq::<char>::empty(),
            ),
            Err(e) => expression_of(link_filters@) is None && filters_refused(link_filters@, e@),
        },
{
    proof {
        reveal_strlit("");
        assert(""@ =~= Seq::<char>::empty());
    }
    match compile_expression(link_filters) {
        Ok(condition) => Ok(
            build_traversal(start_uid, link_type_id, max_hops, condition.as_str(), 1, ""),
        ),
        Err(e) => Err(e),
    }
}

/// The query of a traversal that reduces a property of the objects reached at the last
/// hop: the object filters stand at the last hop, the reduction inside it.
///
/// The error is a query error, and comes exactly where the aggregation has no reduction
/// or one of the filters does not compile: it says that the database has no such
/// reduction, or else why the first such filter does not compile.
pub fn aggregated_traversal_query(
    start_uid: &str,
    link_type_id: &str,
    max_hops: usize,
    aggregation: &TraversalAggregation,
) -> (out: Result<String, StoreError>)
    requires
        max_hops <= usize::MAX - 2,
    ensures
        match out {
            Ok(query) => {
                &&& expression_of(aggregation.object_filters@) is Some
                &&& reduction_of(aggregation.operation, aggregation.property@) is Some
                &&& query@ == traversal_text(
                    start_uid@,
                    sanitized(link_type_id@),
                    max_hops as nat,
                    expression_of(aggregation.object_filters@)->0,
                    max_hops as nat,
                    reduction_of(aggregation.operation, aggregation.property@)->0,
                )
            },
            Err(e) => aggregation_refused(*aggregation, e@),
        },
{
    let reduction = match compile_reduction(aggregation) {
        Ok(r) => r,
        Err(e) => {
            return Err(e);
        },
    };
    match compile_expression(&aggregation.object_filters) {
        Ok(condition) => Ok(
            build_traversal(
                start_uid,
                link_type_id,
                max_hops,
                condition.as_str(),
                max_hops,
                reduction.as_str(),
            ),
        ),
        Err(e) => Err(e),
    }
}



/// The node handle that an item of an answer carries.
pub open spec fn uid_of(item: JsonModel) -> Option<Seq<char>> {
    match member_of(item, "uid"@) {
        Some(JsonModel::String(s)) => Some(s),
        _ => None,
    }
}

/// The node handles of an answer to a traversal, added to those `found` before: every
/// handle of every item of every list in the answer, at any depth, in the order of the
/// answer and none twice.
pub open spec fn collect_uids(doc: JsonModel, found: Seq<Seq<char>>) -> Seq<Seq<char>>
    decreases doc, 0nat,
{
    match doc {
        JsonModel::Object(entries) => collect_members(entries, entries.len(), found),
        _ => found,
    }
}

/// The node handles of the first `n` members of an object, added to those `found` before.
pub open spec fn collect_members(
    entries: Seq<(Seq<char>, JsonModel)>,
    n: nat,
    found: Seq<Seq<char>>,
) -> Seq<Seq<char>>
    decreases entries, n,
{
    if n == 0 || n > entries.len() {
        found
    } else {
        let before = collect_members(entries, (n - 1) as nat, found);
        match entries[n - 1].1 {
            JsonModel::Array(items) => collect_items(items, items.len(), before),
            other => collect_uids(other, before),
        }
    }
}

/// The node handles of the first `n` items of a list, added to those `found` before.
pub open spec fn collect_items(items: Seq<JsonModel>, n: nat, found: Seq<Seq<char>>) -> Seq<
    Seq<char>,
>
    decreases items, n,
{
    if n == 0 || n > items.len() {
        found
    } else {
        let before = collect_items(items, (n - 1) as nat, found);
        let own = match uid_of(items[n - 1]) {
            Some(uid) => with_unique(before, uid),
            None => before,
        };
        collect_uids(items[n - 1], own)
    }
}

fn collect_from_items(items: &Vec<JsonValue>, ids: &mut Vec<String>)
    ensures
        views(final(ids)@) == collect_items(
            json_models(items@),
            items@.len(),
            views(old(ids)@),
        ),
    decreases items,
{
    let mut i: usize = 0;
    while i < items.len()
        invariant
            i <= items.len(),
            views(ids@) == collect_items(json_models(items@), i as nat, views(old(ids)@)),
        decreases items.len() - i,
    {
        proof {
            vstd::std_specs::vec::axiom_vec_index_decreases(*items, i as int);
            assert(json_models(items@)[i as int] == items@[i as int]@);
        }
        match items[i].get("uid") {
            Some(value) => match value.as_str() {
                Some(uid) => {
                    push_unique(ids, uid);
                },
                None => {},
            },
            None => {},
        }
        extract_ids_from_traversal(&items[i], ids);
        i = i + 1;
    }
}

fn collect_from_members(entries: &Vec<(String, JsonValue)>, ids: &mut Vec<String>)
    ensures
        views(final(ids)@) == collect_members(
            member_models(entries@),
            entries@.len(),
            views(old(ids)@),
        ),
    decreases entries,
{
    let mut i: usize = 0;
    while i < entries.len()
        invariant
            i <= entries.len(),
            views(ids@) == collect_members(member_models(entries@), i as nat, views(old(ids)@)),
        decreases entries.len() - i,
    {
        proof {
            vstd::std_specs::vec::axiom_vec_index_decreases(*entries, i as int);
            assert(member_models(entries@)[i as int].1 == entries@[i as int].1@);
        }
        match &entries[i].1 {
            JsonValue::Array(items) => {
                collect_from_items(items, ids);
            },
            other => {
                extract_ids_from_traversal(other, ids);
            },
        }
        i = i + 1;
    }
}

/// Adds the node handles of an answer to a traversal to `ids`, none twice.
pub fn extract_ids_from_traversal(json: &JsonValue, ids: &mut Vec<String>)
    ensures
        views(final(ids)@) == collect_uids(json@, views(old(ids)@)),
    decreases json, 0nat,
{
    match json {
        JsonValue::Object(entries) => {
            collect_from_members(entries, ids);
        },
        _ => {},
    }
}

/// The id under which a target is known: its external id, or its node handle where it
/// has none.
pub open spec fn target_name(target: JsonModel, uid: Seq<char>) -> Seq<char> {
    match member_of(target, "xid"@) {
        Some(JsonModel::String(x)) => x,
        _ => uid,
    }
}

/// The words that stand before the name of a facet in an answer: the label of the edge
/// and a bar.
pub open spec fn facet_prefix(label: Seq<char>) -> Seq<char> {
    label + "|"@
}

/// The text of a facet of the edge to a target.
pub open spec fn facet_text(target: JsonModel, label: Seq<char>, name: Seq<char>) -> Option<
    Seq<char>,
> {
    match member_of(target, facet_prefix(label) + name) {
        Some(JsonModel::String(text)) => Some(text),
        _ => None,
    }
}

/// Whether a facet carries what every link has, and so is no property of the link.
pub open spec fn is_link_facet(name: Seq<char>) -> bool {
    name == "link_id"@ || name == "link_type_id"@ || name == "created_at"@
}

/// The properties that the facets among the first `n` members of a target carry: each
/// facet of the edge but the three that every link has, under its name.
pub open spec fn facet_properties(
    members: Seq<(Seq<char>, JsonModel)>,
    label: Seq<char>,
    n: nat,
) -> Seq<(Seq<char>, PropertyModel)>
    decreases n,
{
    if n == 0 || n > members.len() {
        Seq::<(Seq<char>, PropertyModel)>::empty()
    } else {
        let before = facet_properties(members, label, (n - 1) as nat);
        let key = members[n - 1].0;
        let prefix = facet_prefix(label);
        if prefix.is_prefix_of(key) && !is_link_facet(key.skip(prefix.len() as int)) {
            crate::assoc::put(
                before,
                key.skip(prefix.len() as int),
                crate::json::property_of(members[n - 1].1),
            )
        } else {
            before
        }
    }
}

/// The members of a target; none for a target that is no object.
pub open spec fn members_in(target: JsonModel) -> Seq<(Seq<char>, JsonModel)> {
    match target {
        JsonModel::Object(members) => members,
        _ => Seq::<(Seq<char>, JsonModel)>::empty(),
    }
}

/// Whether a link can be read out of a target: the target carries its node handle, and
/// the edge to it the id of the link.
pub open spec fn readable(target: JsonModel, label: Seq<char>) -> bool {
    uid_of(target) is Some && facet_text(target, label, "link_id"@) is Some
}

/// What is missing in a target that no link can be read out of.
pub open spec fn unreadable_text(target: JsonModel, label: Seq<char>) -> Seq<char> {
    if uid_of(target) is None {
        "Missing uid in target"@
    } else {
        "Missing link_id in target"@
    }
}

/// Whether `e` is the error for a target that no link can be read out of.
pub open spec fn unreadable(target: JsonModel, label: Seq<char>, e: (ErrorKind, Seq<char>)) -> bool {
    !readable(target, label) && e == (ErrorKind::ReadError, unreadable_text(target, label))
}

fn read_facet(target: &JsonValue, label: &str, name: &str) -> (found: Option<String>)
    ensures
        match found {
            Some(text) => facet_text(target@, label@, name@) == Some(text@),
            None => facet_text(target@, label@, name@) is None,
        },
{
    let mut key = owned(label);
    key.append("|");
    key.append(name);
    proof {
        assert(key@ =~= facet_prefix(label@) + name@);
    }
    match target.get(key.as_str()) {
        Some(value) => match value.as_str() {
            Some(text) => Some(owned(text)),
            None => None,
        },
        None => None,
    }
}

fn read_facet_properties(target: &JsonValue, label: &str) -> (properties: PropertyMap)
    ensures
        properties@ == facet_properties(members_in(target@), label@, members_in(target@).len()),
{
    let mut properties = PropertyMap::new();
    let members = match target.as_object() {
        Some(members) => members,
        None => {
            return properties;
        },
    };
    let ghost all = member_models(members@);
    let mut prefix = owned(label);
    prefix.append("|");
    let mut i: usize = 0;
    while i < members.len()
        invariant
            i <= members.len(),
            all == member_models(members@),
            all == members_in(target@),
            prefix@ == facet_prefix(label@),
            properties@ == facet_properties(all, label@, i as nat),
        decreases members.len() - i,
    {
        proof {
            assert(all[i as int] == (members@[i as int].0@, members@[i as int].1@));
        }
        match crate::text::strip_prefix(members[i].0.as_str(), prefix.as_str()) {
            Some(name) => {
                proof {
                    assert(name@ =~= members@[i as int].0@.skip(prefix@.len() as int));
                    assert(prefix@.is_prefix_of(members@[i as int].0@));
                }
                let reserved = crate::text::str_eq(name.as_str(), "link_id") || crate::text::str_eq(
                    name.as_str(),
                    "link_type_id",
                ) || crate::text::str_eq(name.as_str(), "created_at");
                if !reserved {
                    properties.insert(name, crate::json::property_from_json(&members[i].1));
                }
            },
            None => {},
        }
        i = i + 1;
    }
    properties
}

/// Whether `link` is the link that is read out of the node at the other end of an
/// edge of `object_id`, found in an answer under `edge`: it has the id and the time that
/// the edge carries in its facets, the properties that the other facets carry and the
/// type that was asked for. Over an edge that leaves the object the object is the
/// source and the node the target; over one that arrives the node is the source.
pub open spec fn link_over(
    link: GraphLink,
    node: JsonModel,
    edge: Seq<char>,
    object_id: Seq<char>,
    link_type_id: Seq<char>,
    leaves: bool,
) -> bool {
    let other = target_name(node, uid_of(node)->0);
    &&& readable(node, edge)
    &&& link.link_id@ == facet_text(node, edge, "link_id"@)->0
    &&& link.created_at@ == (match facet_text(node, edge, "created_at"@) {
        Some(text) => text,
        None => Seq::<char>::empty(),
    })
    &&& link.link_type_id@ == link_type_id
    &&& link.source_id@ == (if leaves {
        object_id
    } else {
        other
    })
    &&& link.target_id@ == (if leaves {
        other
    } else {
        object_id
    })
    &&& link.properties@ == facet_properties(members_in(node), edge, members_in(node).len())
}

/// Whether `link` is the link that is read out of a target: the link of the type from
/// the source to the target, as the facets of the edge give it.
pub open spec fn links_to(
    link: GraphLink,
    target: JsonModel,
    source_id: Seq<char>,
    link_type_id: Seq<char>,
) -> bool {
    link_over(link, target, sanitized(link_type_id), source_id, link_type_id, true)
}

/// Reads a link out of the node at the other end of an edge.
fn read_link(node: &JsonValue, edge: &str, object_id: &str, link_type_id: &str, leaves: bool) -> (out:
    Result<GraphLink, StoreError>)
    ensures
        match out {
            Ok(link) => link_over(link, node@, edge@, object_id@, link_type_id@, leaves),
            Err(e) => unreadable(node@, edge@, e@),
        },
{
    let uid = match node.get("uid") {
        Some(value) => match value.as_str() {
            Some(uid) => uid,
            None => {
                return Err(missing("Missing uid in target"));
            },
        },
        None => {
            return Err(missing("Missing uid in target"));
        },
    };
    let link_id = match read_facet(node, edge, "link_id") {
        Some(id) => id,
        None => {
            return Err(missing("Missing link_id in target"));
        },
    };
    let created_at = match read_facet(node, edge, "created_at") {
        Some(text) => text,
        None => String::new(),
    };
    let other = match node.get("xid") {
        Some(value) => match value.as_str() {
            Some(xid) => owned(xid),
            None => owned(uid),
        },
        None => owned(uid),
    };
    let properties = read_facet_properties(node, edge);
    if leaves {
        Ok(
            GraphLink {
                link_id,
                link_type_id: owned(link_type_id),
                source_id: owned(object_id),
                target_id: other,
                properties,
                created_at,
            },
        )
    } else {
        Ok(
            GraphLink {
                link_id,
                link_type_id: owned(link_type_id),
                source_id: other,
                target_id: owned(object_id),
                properties,
                created_at,
            },
        )
    }
}

/// Reads a link out of a target node of an answer: its id, its time and its
/// properties are recovered from the facets of the edge.
///
/// The error is a read error that says what is missing, and comes exactly where the
/// target carries no node handle or the edge no link id.
pub fn extract_link_from_target(target: &JsonValue, source_id: &str, link_type_id: &str) -> (out:
    Result<GraphLink, StoreError>)
    ensures
        match out {
            Ok(link) => links_to(link, target@, source_id@, link_type_id@),
            Err(e) => unreadable(target@, sanitized(link_type_id@), e@),
        },
{
    let label = sanitize_predicate(link_type_id);
    read_link(target, label.as_str(), source_id, link_type_id, true)
}

fn missing(what: &str) -> (e: StoreError)
    ensures
        e@ == (ErrorKind::ReadError, what@),
{
    proof {
        reveal_strlit("");
        assert(what@ + ""@ =~= what@);
    }
    StoreError::described(ErrorKind::ReadError, what, "")
}

/// Whether the links that leave an object are asked for: the direction is outgoing,
/// both or not given.
pub open spec fn asks_outgoing(direction: Option<LinkDirection>) -> bool {
    !(direction == Some(LinkDirection::Incoming))
}

/// Whether the links that arrive at an object are asked for: the direction is
/// incoming, both or not given.
pub open spec fn asks_incoming(direction: Option<LinkDirection>) -> bool {
    !(direction == Some(LinkDirection::Outgoing))
}

/// The key of the edges of a label in a query and in its answer: the label for the
/// edges that leave a node, the label behind a tilde for those that arrive.
pub open spec fn edge_key(label: Seq<char>, leaves: bool) -> Seq<char> {
    if leaves {
        label
    } else {
        "~"@ + label
    }
}

/// The part of a query that asks for the nodes over the edges of one key, with the
/// facets of the edges.
pub open spec fn edge_block(edge: Seq<char>) -> Seq<char> {
    edge + " @facets { uid xid } "@
}

/// The query that asks for the nodes at the other end of the edges of one label that
/// leave a node, arrive at it, or both.
pub open spec fn links_text(
    object_uid: Seq<char>,
    label: Seq<char>,
    direction: Option<LinkDirection>,
) -> Seq<char> {
    "{ node(func: uid("@ + object_uid + ")) { "@ + (if asks_outgoing(direction) {
        edge_block(edge_key(label, true))
    } else {
        Seq::<char>::empty()
    }) + (if asks_incoming(direction) {
        edge_block(edge_key(label, false))
    } else {
        Seq::<char>::empty()
    }) + "} }"@
}

fn make_edge_key(label: &str, leaves: bool) -> (edge: String)
    ensures
        edge@ == edge_key(label@, leaves),
{
    if leaves {
        owned(label)
    } else {
        let mut edge = owned("~");
        edge.append(label);
        edge
    }
}

/// The query for the links of an object: those of the given type that leave the
/// object, arrive at it, or both. Without a direction both are asked for.
///
/// The error is a query error that says so, and comes exactly where no link type is
/// given: the links of every type cannot be asked for, and are not passed over.
pub fn links_query(object_uid: &str, link_type_id: Option<&str>, direction: Option<LinkDirection>) -> (out:
    Result<String, StoreError>)
    ensures
        match out {
            Ok(text) => link_type_id is Some && text@ == links_text(
                object_uid@,
                sanitized(link_type_id->0@),
                direction,
            ),
            Err(e) => link_type_id is None && e@ == (
                ErrorKind::Query,
                refusal("links of no given type"@),
            ),
        },
{
    let id = match link_type_id {
        Some(id) => id,
        None => {
            return Err(unsupported("links of no given type"));
        },
    };
    let label = sanitize_predicate(id);
    let mut text = owned("{ node(func: uid(");
    text.append(object_uid);
    text.append(")) { ");
    proof {
        reveal_strlit("");
        assert(text@ + Seq::<char>::empty() =~= text@);
    }
    match direction {
        Some(LinkDirection::Incoming) => {},
        _ => {
            text.append(label.as_str());
            text.append(" @facets { uid xid } ");
        },
    }
    let ghost first = text@;
    proof {
        assert(first + Seq::<char>::empty() =~= first);
    }
    match direction {
        Some(LinkDirection::Outgoing) => {},
        _ => {
            let edge = make_edge_key(label.as_str(), false);
            text.append(edge.as_str());
            text.append(" @facets { uid xid } ");
        },
    }
    text.append("} }");
    proof {
        assert(text@ =~= links_text(object_uid@, label@, direction));
    }
    Ok(text)
}

/// The targets under `label` of the first `n` nodes of an answer, in order.
pub open spec fn targets_of(nodes: Seq<JsonModel>, n: nat, label: Seq<char>) -> Seq<JsonModel>
    decreases n,
{
    if n == 0 || n > nodes.len() {
        Seq::<JsonModel>::empty()
    } else {
        targets_of(nodes, (n - 1) as nat, label) + match member_of(nodes[n - 1], label) {
            Some(JsonModel::Array(targets)) => targets,
            _ => Seq::<JsonModel>::empty(),
        }
    }
}

/// The targets of the links in an answer to a query for links.
pub open spec fn link_targets(answer: JsonModel, label: Seq<char>) -> Seq<JsonModel> {
    match member_of(answer, "node"@) {
        Some(JsonModel::Array(nodes)) => targets_of(nodes, nodes.len(), label),
        _ => Seq::<JsonModel>::empty(),
    }
}

/// Whether the node at `at` is the first out of which no link can be read.
pub open spec fn is_first_unreadable(nodes: Seq<JsonModel>, edge: Seq<char>, at: int) -> bool {
    &&& 0 <= at < nodes.len()
    &&& !readable(nodes[at], edge)
    &&& forall|j: int| 0 <= j < at ==> readable(#[trigger] nodes[j], edge)
}

/// Whether `e` is the error of reading links out of `nodes`: the error for the first
/// node out of which no link can be read.
pub open spec fn nodes_unreadable(
    nodes: Seq<JsonModel>,
    edge: Seq<char>,
    e: (ErrorKind, Seq<char>),
) -> bool {
    exists|at: int| #[trigger] is_first_unreadable(nodes, edge, at) && unreadable(nodes[at], edge, e)
}

/// Whether `links` are the links read out of `nodes`, one for each and in their order.
pub open spec fn links_over(
    links: Seq<GraphLink>,
    nodes: Seq<JsonModel>,
    edge: Seq<char>,
    object_id: Seq<char>,
    link_type_id: Seq<char>,
    leaves: bool,
) -> bool {
    &&& links.len() == nodes.len()
    &&& forall|k: int|
        0 <= k < nodes.len() ==> link_over(
            #[trigger] links[k],
            nodes[k],
            edge,
            object_id,
            link_type_id,
            leaves,
        )
}

fn links_of_targets(
    targets: &Vec<JsonValue>,
    edge: &str,
    object_id: &str,
    link_type_id: &str,
    leaves: bool,
    links: &mut Vec<GraphLink>,
) -> (out: Result<(), StoreError>)
    ensures
        match out {
            Ok(_) => {
                &&& final(links)@.len() == old(links)@.len() + targets@.len()
                &&& forall|k: int|
                    0 <= k < old(links)@.len() ==> final(links)@[k] == old(links)@[k]
                &&& forall|k: int|
                    0 <= k < targets@.len() ==> link_over(
                        #[trigger] final(links)@[old(links)@.len() + k],
                        targets@[k]@,
                        edge@,
                        object_id@,
                        link_type_id@,
                        leaves,
                    )
            },
            Err(e) => exists|k: int|
                #![trigger targets@[k]]
                0 <= k < targets@.len() && unreadable(targets@[k]@, edge@, e@) && forall|j: int|
                    0 <= j < k ==> readable(#[trigger] targets@[j]@, edge@),
        },
{
    let mut i: usize = 0;
    while i < targets.len()
        invariant
            i <= targets.len(),
            links@.len() == old(links)@.len() + i,
            forall|k: int| 0 <= k < old(links)@.len() ==> links@[k] == old(links)@[k],
            forall|k: int|
                0 <= k < i ==> link_over(
                    #[trigger] links@[old(links)@.len() + k],
                    targets@[k]@,
                    edge@,
                    object_id@,
                    link_type_id@,
                    leaves,
                ),
        decreases targets.len() - i,
    {
        match read_link(&targets[i], edge, object_id, link_type_id, leaves) {
            Ok(link) => {
                links.push(link);
            },
            Err(e) => {
                proof {
                    assert(unreadable(targets@[i as int]@, edge@, e@));
                    assert forall|j: int| 0 <= j < i implies readable(
                        #[trigger] targets@[j]@,
                        edge@,
                    ) by {
                        assert(link_over(
                            links@[old(links)@.len() + j],
                            targets@[j]@,
                            edge@,
                            object_id@,
                            link_type_id@,
                            leaves,
                        ));
                    }
                }
                return Err(e);
            },
        }
        i = i + 1;
    }
    Ok(())
}

/// Adds to `links` the links over the edges of one key in an answer: one for each node
/// under the key, in the order of the answer.
fn links_of_edge(
    answer: &JsonValue,
    object_id: &str,
    link_type_id: &str,
    leaves: bool,
    links: &mut Vec<GraphLink>,
) -> (out: Result<(), StoreError>)
    ensures
        match out {
            Ok(_) => {
                let edge = edge_key(sanitized(link_type_id@), leaves);
                let nodes = link_targets(answer@, edge);
                &&& final(links)@.len() == old(links)@.len() + nodes.len()
                &&& final(links)@.subrange(0, old(links)@.len() as int) == old(links)@
                &&& links_over(
                    final(links)@.subrange(old(links)@.len() as int, final(links)@.len() as int),
                    nodes,
                    edge,
                    object_id@,
                    link_type_id@,
                    leaves,
                )
            },
            Err(e) => {
                let edge = edge_key(sanitized(link_type_id@), leaves);
                nodes_unreadable(link_targets(answer@, edge), edge, e@)
            },
        },
{
    let label = sanitize_predicate(link_type_id);
    let edge = make_edge_key(label.as_str(), leaves);
    let ghost start = links@;
    proof {
        assert(links@.subrange(0, start.len() as int) =~= start);
    }
    let nodes = match answer.get("node") {
        Some(value) => match value.as_array() {
            Some(nodes) => nodes,
            None => {
                proof {
                    assert(links@.subrange(start.len() as int, links@.len() as int).len() == 0);
                }
                return Ok(());
            },
        },
        None => {
            proof {
                assert(links@.subrange(start.len() as int, links@.len() as int).len() == 0);
            }
            return Ok(());
        },
    };
    let ghost models = json_models(nodes@);
    let mut i: usize = 0;
    while i < nodes.len()
        invariant
            i <= nodes.len(),
            models == json_models(nodes@),
            edge@ == edge_key(sanitized(link_type_id@), leaves),
            link_targets(answer@, edge@) == targets_of(models, nodes@.len(), edge@),
            links@.len() == start.len() + targets_of(models, i as nat, edge@).len(),
            forall|k: int| 0 <= k < start.len() ==> links@[k] == start[k],
            forall|k: int|
                0 <= k < targets_of(models, i as nat, edge@).len() ==> link_over(
                    #[trigger] links@[start.len() + k],
                    targets_of(models, i as nat, edge@)[k],
                    edge@,
                    object_id@,
                    link_type_id@,
                    leaves,
                ),
        decreases nodes.len() - i,
    {
        let ghost before = targets_of(models, i as nat, edge@);
        let ghost held = links@;
        proof {
            assert(models[i as int] == nodes@[i as int]@);
            lemma_targets_grow(models, (i + 1) as nat, nodes@.len(), edge@);
        }
        match nodes[i].get(edge.as_str()) {
            Some(value) => match value.as_array() {
                Some(targets) => {
                    match links_of_targets(
                        targets,
                        edge.as_str(),
                        object_id,
                        link_type_id,
                        leaves,
                        links,
                    ) {
                        Ok(_) => {
                            proof {
                                let now = targets_of(models, (i + 1) as nat, edge@);
                                assert(now == before + json_models(targets@));
                                assert forall|k: int| 0 <= k < now.len() implies link_over(
                                    #[trigger] links@[start.len() + k],
                                    now[k],
                                    edge@,
                                    object_id@,
                                    link_type_id@,
                                    leaves,
                                ) by {
                                    if k < before.len() {
                                        assert(links@[start.len() + k] == held[start.len() + k]);
                                    } else {
                                        let r = k - before.len();
                                        assert(links@[held.len() + r] == links@[start.len() + k]);
                                        assert(now[k] == targets@[r]@);
                                    }
                                }
                            }
                        },
                        Err(e) => {
                            proof {
                                let now = targets_of(models, (i + 1) as nat, edge@);
                                assert(now == before + json_models(targets@));
                                let r = choose|r: int|
                                    #![trigger targets@[r]]
                                    0 <= r < targets@.len() && unreadable(
                                        targets@[r]@,
                                        edge@,
                                        e@,
                                    ) && forall|j: int|
                                        0 <= j < r ==> readable(#[trigger] targets@[j]@, edge@);
                                let all = targets_of(models, nodes@.len(), edge@);
                                let at = before.len() + r;
                                assert(now[at] == targets@[r]@);
                                assert(all[at] == now[at]);
                                assert forall|j: int| 0 <= j < at implies readable(
                                    #[trigger] all[j],
                                    edge@,
                                ) by {
                                    assert(all[j] == now[j]);
                                    if j < before.len() {
                                        assert(link_over(
                                            held[start.len() + j],
                                            before[j],
                                            edge@,
                                            object_id@,
                                            link_type_id@,
                                            leaves,
                                        ));
                                    } else {
                                        assert(now[j] == targets@[j - before.len()]@);
                                    }
                                }
                                assert(is_first_unreadable(all, edge@, at));
                            }
                            return Err(e);
                        },
                    }
                },
                None => {
                    proof {
                        assert(targets_of(models, (i + 1) as nat, edge@) =~= before);
                    }
                },
            },
            None => {
                proof {
                    assert(targets_of(models, (i + 1) as nat, edge@) =~= before);
                }
            },
        }
        i = i + 1;
    }
    proof {
        assert(links@.subrange(0, start.len() as int) =~= start);
        let all = targets_of(models, nodes@.len(), edge@);
        let added = links@.subrange(start.len() as int, links@.len() as int);
        assert forall|k: int| 0 <= k < all.len() implies link_over(
            #[trigger] added[k],
            all[k],
            edge@,
            object_id@,
            link_type_id@,
            leaves,
        ) by {
            assert(added[k] == links@[start.len() + k]);
        }
    }
    Ok(())
}

/// The nodes of an answer out of which the links of one direction are read: those
/// under the key of the edges where the direction is asked for, and none where it is
/// not.
pub open spec fn nodes_asked(
    answer: JsonModel,
    label: Seq<char>,
    direction: Option<LinkDirection>,
    leaves: bool,
) -> Seq<JsonModel> {
    if (leaves && asks_outgoing(direction)) || (!leaves && asks_incoming(direction)) {
        link_targets(answer, edge_key(label, leaves))
    } else {
        Seq::<JsonModel>::empty()
    }
}

/// Whether every node is one out of which a link can be read.
pub open spec fn all_readable(nodes: Seq<JsonModel>, edge: Seq<char>) -> bool {
    forall|k: int| 0 <= k < nodes.len() ==> readable(#[trigger] nodes[k], edge)
}

/// Reads the links out of an answer to a query for links: first those that leave the
/// object and then those that arrive at it, as far as the direction asks for them, one
/// for each node under the edge and in the order of the answer.
///
/// The error is a read error that says what is missing, and comes exactly where a
/// node carries no node handle or its edge no link id: it is the error of the first
/// such node.
pub fn links_from_answer(
    answer: &JsonValue,
    object_id: &str,
    link_type_id: &str,
    direction: Option<LinkDirection>,
) -> (out: Result<Vec<GraphLink>, StoreError>)
    ensures
        match out {
            Ok(links) => {
                let label = sanitized(link_type_id@);
                let leaving = nodes_asked(answer@, label, direction, true);
                let arriving = nodes_asked(answer@, label, direction, false);
                &&& links@.len() == leaving.len() + arriving.len()
                &&& links_over(
                    links@.subrange(0, leaving.len() as int),
                    leaving,
                    edge_key(label, true),
                    object_id@,
                    link_type_id@,
                    true,
                )
                &&& links_over(
                    links@.subrange(leaving.len() as int, links@.len() as int),
                    arriving,
                    edge_key(label, false),
                    object_id@,
                    link_type_id@,
                    false,
                )
            },
            Err(e) => {
                let label = sanitized(link_type_id@);
                let leaving = nodes_asked(answer@, label, direction, true);
                let arriving = nodes_asked(answer@, label, direction, false);
                ||| nodes_unreadable(leaving, edge_key(label, true), e@)
                ||| all_readable(leaving, edge_key(label, true)) && nodes_unreadable(
                    arriving,
                    edge_key(label, false),
                    e@,
                )
            },
        },
{
    let mut links: Vec<GraphLink> = Vec::new();
    let ghost label = sanitized(link_type_id@);
    let ghost leaving = nodes_asked(answer@, label, direction, true);
    let ghost arriving = nodes_asked(answer@, label, direction, false);
    match direction {
        Some(LinkDirection::Incoming) => {},
        _ => {
            match links_of_edge(answer, object_id, link_type_id, true, &mut links) {
                Ok(_) => {},
                Err(e) => {
                    return Err(e);
                },
            }
        },
    }
    let ghost first = links@;
    proof {
        assert(first.subrange(0, first.len() as int) =~= first);
        assert(links_over(
            first,
            leaving,
            edge_key(label, true),
            object_id@,
            link_type_id@,
            true,
        ));
    }
    match direction {
        Some(LinkDirection::Outgoing) => {},
        _ => {
            match links_of_edge(answer, object_id, link_type_id, false, &mut links) {
                Ok(_) => {},
                Err(e) => {
                    proof {
                        assert forall|k: int| 0 <= k < leaving.len() implies readable(
                            #[trigger] leaving[k],
                            edge_key(label, true),
                        ) by {
                            assert(link_over(
                                first[k],
                                leaving[k],
                                edge_key(label, true),
                                object_id@,
                                link_type_id@,
                                true,
                            ));
                        }
                    }
                    return Err(e);
                },
            }
        },
    }
    proof {
        assert(links@.subrange(0, leaving.len() as int) =~= first);
    }
    Ok(links)
}

/// The targets of the first `n` nodes stand at the front of the targets of the first `m`.
pub proof fn lemma_targets_grow(nodes: Seq<JsonModel>, n: nat, m: nat, label: Seq<char>)
    requires
        n <= m <= nodes.len(),
    ensures
        targets_of(nodes, n, label).len() <= targets_of(nodes, m, label).len(),
        forall|k: int|
            0 <= k < targets_of(nodes, n, label).len() ==> targets_of(nodes, m, label)[k]
                == targets_of(nodes, n, label)[k],
    decreases m - n,
{
    if n < m {
        lemma_targets_grow(nodes, n, (m - 1) as nat, label);
    }
}

/// Deleting a link by its id needs an index from link ids to edges, which this store
/// does not keep: the call is always refused with a query error that says so.
pub fn delete_link(link_id: &str) -> (out: Result<(), StoreError>)
    ensures
        out is Err,
        out->Err_0@ == (
            ErrorKind::Query,
            "Delete by link_id requires reverse indexing - not yet implemented"@,
        ),
{
    proof {
        reveal_strlit("");
        assert("Delete by link_id requires reverse indexing - not yet implemented"@ + ""@
            =~= "Delete by link_id requires reverse indexing - not yet implemented"@);
    }
    Err(
        StoreError::described(
            ErrorKind::Query,
            "Delete by link_id requires reverse indexing - not yet implemented",
            "",
        ),
    )
}

/// The mutation that makes a link, with the id and the time that the link was given.
#[derive(Debug, Clone)]
pub struct LinkMutation {
    pub link_id: String,
    /// When the link was made, as RFC 3339 text.
    pub created_at: String,
    /// The N-Quad that makes the edge.
    pub nquad: String,
}

/// The mutation that makes a link of a type between two nodes. The link gets a fresh
/// id and the present time; both stand in its facets beside its type and its
/// properties, so that they can be read back from the edge.
pub fn create_link_mutation(
    link_type_id: &str,
    source_uid: &str,
    target_uid: &str,
    properties: &PropertyMap,
) -> (mutation: LinkMutation)
    ensures
        mutation.link_id@.len() == 36,
        mutation.nquad@ == link_text(
            source_uid@,
            sanitized(link_type_id@),
            target_uid@,
            facets_text(properties@, mutation.link_id@, link_type_id@, mutation.created_at@),
        ),
{
    let link_id = fresh_identifier();
    let created_at = current_timestamp();
    let facets = properties_to_facets(
        properties,
        link_id.as_str(),
        link_type_id,
        created_at.as_str(),
    );
    let nquad = link_nquad(source_uid, link_type_id, target_uid, facets.as_str());
    LinkMutation { link_id, created_at, nquad }
}

/// The error for a link that could not be written: a write error that says whether the
/// mutation or its commit failed, and how.
pub fn link_write_error(committing: bool, detail: &str) -> (e: StoreError)
    ensures
        e@ == (
            ErrorKind::WriteError,
            (if committing {
                "Commit error: "@
            } else {
                "Link creation error: "@
            }) + detail@,
        ),
{
    if committing {
        StoreError::described(ErrorKind::WriteError, "Commit error: ", detail)
    } else {
        StoreError::described(ErrorKind::WriteError, "Link creation error: ", detail)
    }
}

/// The schema that the graph store needs: the external id of a node, indexed so that
/// a node can be found by it, and the three facets that every edge carries.
pub open spec fn schema_text() -> Seq<char> {
    "xid: string @index(exact) .\nlink_id: string @index(exact) .\nlink_type_id: string .\ncreated_at: datetime .\n"@
}

/// The schema that the graph store needs.
pub fn schema_definition() -> (schema: String)
    ensures
        schema@ == schema_text(),
{
    owned(
        "xid: string @index(exact) .\nlink_id: string @index(exact) .\nlink_type_id: string .\ncreated_at: datetime .\n",
    )
}

/// The number that a document is, as a property value.
pub open spec fn number_of(doc: JsonModel) -> Option<PropertyModel> {
    match doc {
        JsonModel::Integer(i) => Some(PropertyModel::Integer(i)),
        JsonModel::Decimal(t) => Some(PropertyModel::Double(t)),
        _ => None,
    }
}

} // verus!
