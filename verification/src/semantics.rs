//! What the filters of the query algebra mean on an object, and that the clauses which
//! the search store compiles them to select the same objects.
//!
//! The meaning of a clause is that of the search engine on the stored document with
//! whole numbers: a term clause selects the documents whose field has the value, a
//! range clause those whose field lies on the right side of the bound, and a boolean
//! query those that every clause under `must` selects and no clause under `must_not`.

use vstd::prelude::*;
use crate::assoc::{lemma_position_by_names, lookup, position};
use crate::json::{json_of, members_of, JsonModel};
use crate::assoc::distinct_names;
use crate::stored::{stored_members, stored_name};
use crate::property::{PropertyMap, PropertyModel, PropertyValue};
use crate::search::{clause_of, clauses, is_negated, obj1, range_bound};
use crate::store::{Filter, FilterOperator};

verus! {

/// Whether an operator compares two numbers.
pub open spec fn is_comparison(operator: FilterOperator) -> bool {
    ||| operator == FilterOperator::GreaterThan
    ||| operator == FilterOperator::LessThan
    ||| operator == FilterOperator::GreaterThanOrEqual
    ||| operator == FilterOperator::LessThanOrEqual
}

/// What a comparison says of a value and a bound.
pub open spec fn compares(operator: FilterOperator, value: int, bound: int) -> bool {
    match operator {
        FilterOperator::GreaterThan => value > bound,
        FilterOperator::LessThan => value < bound,
        FilterOperator::GreaterThanOrEqual => value >= bound,
        FilterOperator::LessThanOrEqual => value <= bound,
        _ => false,
    }
}

/// Whether a filter holds of an object, for the filters whose meaning rests on whole
/// numbers and on equality: an equality holds where the property has the value, an
/// inequality where it does not, and a comparison with a whole number where the
/// property is a whole number on the right side of it.
pub open spec fn holds(filter: Filter, properties: Seq<(Seq<char>, PropertyModel)>) -> bool {
    match filter.operator {
        FilterOperator::Equals => lookup(properties, filter.property@) == Some(filter.value@),
        FilterOperator::NotEquals => lookup(properties, filter.property@) != Some(filter.value@),
        _ => match (lookup(properties, filter.property@), filter.value@) {
            (Some(PropertyModel::Integer(value)), PropertyModel::Integer(bound)) => compares(
                filter.operator,
                value,
                bound,
            ),
            _ => false,
        },
    }
}

/// Decides whether a filter holds of an object.
pub fn filter_holds(filter: &Filter, properties: &PropertyMap) -> (held: bool)
    ensures
        held == holds(*filter, properties@),
{
    let found = properties.get(filter.property.as_str());
    match filter.operator {
        FilterOperator::Equals => match found {
            Some(value) => value.same_as(&filter.value),
            None => false,
        },
        FilterOperator::NotEquals => match found {
            Some(value) => !value.same_as(&filter.value),
            None => true,
        },
        _ => match found {
            Some(PropertyValue::Integer(value)) => match &filter.value {
                PropertyValue::Integer(bound) => match filter.operator {
                    FilterOperator::GreaterThan => *value > *bound,
                    FilterOperator::LessThan => *value < *bound,
                    FilterOperator::GreaterThanOrEqual => *value >= *bound,
                    FilterOperator::LessThanOrEqual => *value <= *bound,
                    _ => false,
                },
                _ => false,
            },
            _ => false,
        },
    }
}

/// Whether the meaning of a filter is stated here: it is an equality or an inequality
/// with a text, a whole number or a truth value, or a comparison with a whole number.
pub open spec fn has_meaning(filter: Filter) -> bool {
    match filter.operator {
        FilterOperator::Equals => is_plain(filter.value@),
        FilterOperator::NotEquals => is_plain(filter.value@),
        _ => is_comparison(filter.operator) && filter.value@ is Integer,
    }
}

/// A text, a whole number or a truth value.
pub open spec fn is_plain(value: PropertyModel) -> bool {
    value is String || value is Integer || value is Boolean
}

/// Whether every property of an object is a text, a whole number or a truth value.
pub open spec fn all_plain(properties: Seq<(Seq<char>, PropertyModel)>) -> bool {
    forall|i: int| 0 <= i < properties.len() ==> is_plain((#[trigger] properties[i]).1)
}

/// What a range of the search engine says of a whole number.
pub open spec fn range_selects(bound: Seq<char>, limit: int, value: int) -> bool {
    if bound == "gt"@ {
        value > limit
    } else if bound == "lt"@ {
        value < limit
    } else if bound == "gte"@ {
        value >= limit
    } else if bound == "lte"@ {
        value <= limit
    } else {
        false
    }
}

/// Whether a clause selects a document, for term clauses and for range clauses over
/// whole numbers.
pub open spec fn clause_selects(clause: JsonModel, document: Seq<(Seq<char>, JsonModel)>) -> bool {
    match clause {
        JsonModel::Object(outer) => if outer.len() == 1 {
            match outer[0].1 {
                JsonModel::Object(inner) => if inner.len() == 1 {
                    let field = inner[0].0;
                    if outer[0].0 == "term"@ {
                        lookup(document, field) == Some(inner[0].1)
                    } else if outer[0].0 == "range"@ {
                        match (inner[0].1, lookup(document, field)) {
                            (JsonModel::Object(bounds), Some(JsonModel::Integer(value))) => {
                                bounds.len() == 1 && (match bounds[0].1 {
                                    JsonModel::Integer(limit) => range_selects(
                                        bounds[0].0,
                                        limit,
                                        value,
                                    ),
                                    _ => false,
                                })
                            },
                            _ => false,
                        }
                    } else {
                        false
                    }
                } else {
                    false
                },
                _ => false,
            }
        } else {
            false
        },
        _ => false,
    }
}

/// Whether a boolean query selects a document: every clause that must hold selects
/// it, and no clause that must not.
pub open spec fn query_selects(
    must: Seq<JsonModel>,
    must_not: Seq<JsonModel>,
    document: Seq<(Seq<char>, JsonModel)>,
) -> bool {
    &&& forall|i: int| 0 <= i < must.len() ==> clause_selects(#[trigger] must[i], document)
    &&& forall|i: int| 0 <= i < must_not.len() ==> !clause_selects(#[trigger] must_not[i], document)
}

/// The four names of bounds are four different texts.
pub proof fn lemma_bounds_differ()
    ensures
        "gt"@ != "lt"@,
        "gt"@ != "gte"@,
        "gt"@ != "lte"@,
        "lt"@ != "gte"@,
        "lt"@ != "lte"@,
        "gte"@ != "lte"@,
        "term"@ != "range"@,
        "gt"@.len() == 2,
        "lt"@.len() == 2,
        "gte"@.len() == 3,
        "lte"@.len() == 3,
{
    reveal_strlit("gt");
    reveal_strlit("lt");
    reveal_strlit("gte");
    reveal_strlit("lte");
    reveal_strlit("term");
    reveal_strlit("range");
    assert("gt"@.len() == 2);
    assert("lt"@.len() == 2);
    assert("gte"@.len() == 3);
    assert("lte"@.len() == 3);
    assert("term"@.len() == 4);
    assert("range"@.len() == 5);
    assert("gt"@[0] == 'g');
    assert("lt"@[0] == 'l');
    assert("gte"@[0] == 'g');
    assert("lte"@[0] == 'l');
}

/// The member of the stored document under the stored name of a property is the JSON
/// of the property.
pub proof fn lemma_lookup_in_document(properties: Seq<(Seq<char>, PropertyModel)>, name: Seq<char>)
    requires
        distinct_names(properties),
    ensures
        lookup(stored_members(properties), stored_name(name)) == match lookup(properties, name) {
            Some(value) => Some(json_of(value)),
            None => None,
        },
{
    crate::stored::lemma_lookup_stored(properties, name);
}

/// The JSON of two plain values is the same exactly where the values are the same.
pub proof fn lemma_plain_json(a: PropertyModel, b: PropertyModel)
    requires
        is_plain(a),
        is_plain(b),
    ensures
        (json_of(a) == json_of(b)) == (a == b),
{
}

/// A comparison, compiled: the clause that the search store compiles a filter to
/// selects the stored document of an object exactly where the filter holds of the
/// object.
pub proof fn lemma_clause_selects_what_the_filter_means(
    filter: Filter,
    properties: Seq<(Seq<char>, PropertyModel)>,
)
    requires
        has_meaning(filter),
        all_plain(properties),
        distinct_names(properties),
    ensures
        clause_of(filter) is Some,
        !is_negated(filter.operator) ==> clause_selects(
            clause_of(filter)->0,
            stored_members(properties),
        ) == holds(filter, properties),
        is_negated(filter.operator) ==> clause_selects(
            clause_of(filter)->0,
            stored_members(properties),
        ) == !holds(filter, properties),
{
    lemma_bounds_differ();
    lemma_lookup_in_document(properties, filter.property@);
    let document = stored_members(properties);
    let clause = clause_of(filter)->0;
    crate::assoc::lemma_position(properties, filter.property@);
    match lookup(properties, filter.property@) {
        Some(value) => {
            let at = position(properties, filter.property@);
            assert(properties[at].1 == value);
            assert(is_plain(value));
            if filter.operator == FilterOperator::Equals || filter.operator
                == FilterOperator::NotEquals {
                lemma_plain_json(value, filter.value@);
                assert(clause == obj1(
                    "term"@,
                    obj1(stored_name(filter.property@), json_of(filter.value@)),
                ));
            } else {
                assert(clause == obj1(
                    "range"@,
                    obj1(
                        stored_name(filter.property@),
                        obj1(range_bound(filter.operator), json_of(filter.value@)),
                    ),
                ));
            }
        },
        None => {
            if filter.operator == FilterOperator::Equals || filter.operator
                == FilterOperator::NotEquals {
                assert(clause == obj1(
                    "term"@,
                    obj1(stored_name(filter.property@), json_of(filter.value@)),
                ));
            } else {
                assert(clause == obj1(
                    "range"@,
                    obj1(
                        stored_name(filter.property@),
                        obj1(range_bound(filter.operator), json_of(filter.value@)),
                    ),
                ));
            }
        },
    }
}

/// Whether every filter holds of an object.
pub open spec fn all_hold(filters: Seq<Filter>, properties: Seq<(Seq<char>, PropertyModel)>) -> bool {
    forall|i: int| 0 <= i < filters.len() ==> holds(#[trigger] filters[i], properties)
}

/// Every clause of the compiled query comes from a filter of its kind: the result is
/// the index of the filter of the `k`-th clause.
pub proof fn lemma_clause_has_its_filter(filters: Seq<Filter>, negated: bool, k: int) -> (i: int)
    requires
        forall|j: int| 0 <= j < filters.len() ==> clause_of(#[trigger] filters[j]) is Some,
        0 <= k < clauses(filters, negated).len(),
    ensures
        0 <= i < filters.len(),
        is_negated(filters[i].operator) == negated,
        clause_of(filters[i]) == Some(clauses(filters, negated)[k]),
    decreases filters.len(),
{
    let rest = filters.drop_last();
    let before = clauses(rest, negated);
    let last = filters.last();
    assert(clause_of(filters[filters.len() - 1]) is Some);
    if k < before.len() {
        assert forall|j: int| 0 <= j < rest.len() implies clause_of(#[trigger] rest[j])
            is Some by {
            assert(rest[j] == filters[j]);
        }
        let i = lemma_clause_has_its_filter(rest, negated, k);
        assert(rest[i] == filters[i]);
        i
    } else {
        filters.len() - 1
    }
}

/// Every filter has its clause in the compiled query: the result is the index of the
/// clause of the `i`-th filter among the clauses of its kind.
pub proof fn lemma_filter_has_its_clause(filters: Seq<Filter>, negated: bool, i: int) -> (k: int)
    requires
        forall|j: int| 0 <= j < filters.len() ==> clause_of(#[trigger] filters[j]) is Some,
        0 <= i < filters.len(),
        is_negated(filters[i].operator) == negated,
    ensures
        0 <= k < clauses(filters, negated).len(),
        clause_of(filters[i]) == Some(clauses(filters, negated)[k]),
    decreases filters.len(),
{
    let rest = filters.drop_last();
    let before = clauses(rest, negated);
    assert(clause_of(filters[filters.len() - 1]) is Some);
    if i < rest.len() {
        assert forall|j: int| 0 <= j < rest.len() implies clause_of(#[trigger] rest[j])
            is Some by {
            assert(rest[j] == filters[j]);
        }
        assert(rest[i] == filters[i]);
        let k = lemma_filter_has_its_clause(rest, negated, i);
        if is_negated(filters.last().operator) == negated {
            assert(clauses(filters, negated)[k] == before[k]);
        }
        k
    } else {
        before.len() as int
    }
}

/// Filter correctness: the query that the search store compiles a list of filters to
/// selects the stored document of an object exactly where every filter holds of the
/// object.
pub proof fn lemma_query_selects_what_the_filters_mean(
    filters: Seq<Filter>,
    properties: Seq<(Seq<char>, PropertyModel)>,
)
    requires
        forall|i: int| 0 <= i < filters.len() ==> has_meaning(#[trigger] filters[i]),
        all_plain(properties),
        distinct_names(properties),
    ensures
        query_selects(clauses(filters, false), clauses(filters, true), stored_members(properties))
            == all_hold(filters, properties),
{
    let document = stored_members(properties);
    let must = clauses(filters, false);
    let must_not = clauses(filters, true);
    assert forall|i: int| 0 <= i < filters.len() implies clause_of(#[trigger] filters[i])
        is Some by {
        lemma_clause_selects_what_the_filter_means(filters[i], properties);
    }
    if all_hold(filters, properties) {
        assert forall|k: int| 0 <= k < must.len() implies clause_selects(
            #[trigger] must[k],
            document,
        ) by {
            let i = lemma_clause_has_its_filter(filters, false, k);
            lemma_clause_selects_what_the_filter_means(filters[i], properties);
            assert(holds(filters[i], properties));
        }
        assert forall|k: int| 0 <= k < must_not.len() implies !clause_selects(
            #[trigger] must_not[k],
            document,
        ) by {
            let i = lemma_clause_has_its_filter(filters, true, k);
            lemma_clause_selects_what_the_filter_means(filters[i], properties);
            assert(holds(filters[i], properties));
        }
    }
    if query_selects(must, must_not, document) {
        assert forall|i: int| 0 <= i < filters.len() implies holds(
            #[trigger] filters[i],
            properties,
        ) by {
            lemma_clause_selects_what_the_filter_means(filters[i], properties);
            if is_negated(filters[i].operator) {
                let k = lemma_filter_has_its_clause(filters, true, i);
                assert(!clause_selects(must_not[k], document));
            } else {
                let k = lemma_filter_has_its_clause(filters, false, i);
                assert(clause_selects(must[k], document));
            }
        }
    }
}

/// A search for the objects whose property is greater than a bound selects exactly
/// those: every object where the bound lies below all values, none where it lies above.
pub proof fn lemma_greater_than_selects_the_greater(
    filter: Filter,
    objects: Seq<Seq<(Seq<char>, PropertyModel)>>,
    values: Seq<int>,
)
    requires
        filter.operator == FilterOperator::GreaterThan,
        filter.value@ is Integer,
        values.len() == objects.len(),
        forall|i: int| 0 <= i < objects.len() ==> all_plain(#[trigger] objects[i]),
        forall|i: int| 0 <= i < objects.len() ==> distinct_names(#[trigger] objects[i]),
        forall|i: int|
            0 <= i < objects.len() ==> lookup(#[trigger] objects[i], filter.property@) == Some(
                PropertyModel::Integer(values[i]),
            ),
    ensures
        clause_of(filter) is Some,
        forall|i: int|
            0 <= i < objects.len() ==> clause_selects(
                clause_of(filter)->0,
                stored_members(#[trigger] objects[i]),
            ) == (values[i] > filter.value@->Integer_0),
        (forall|i: int| 0 <= i < values.len() ==> filter.value@->Integer_0 < values[i])
            ==> forall|i: int|
            0 <= i < objects.len() ==> clause_selects(
                clause_of(filter)->0,
                stored_members(#[trigger] objects[i]),
            ),
        (forall|i: int| 0 <= i < values.len() ==> filter.value@->Integer_0 >= values[i])
            ==> forall|i: int|
            0 <= i < objects.len() ==> !clause_selects(
                clause_of(filter)->0,
                stored_members(#[trigger] objects[i]),
            ),
{
    assert forall|i: int| 0 <= i < objects.len() implies clause_selects(
        clause_of(filter)->0,
        stored_members(#[trigger] objects[i]),
    ) == (values[i] > filter.value@->Integer_0) by {
        lemma_clause_selects_what_the_filter_means(filter, objects[i]);
    }
}

} // verus!
