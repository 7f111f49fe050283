//! The columnar scan: which rows pass the filters that are pushed down, how the rows
//! that pass fall into groups, and what each aggregation makes of a group.

use vstd::prelude::*;
use vstd::string::*;
use crate::assoc::{lookup, put_all};
use crate::columnar::{accepts, query_refused, ParquetStore};
use crate::property::{models_of, same_items, PropertyMap, PropertyModel, PropertyValue};
use crate::store::{Aggregation, AnalyticsQuery, AnalyticsResult, Filter, StoreError};
use crate::text::{i64_to_string, int_text, owned, views};

verus! {

/// The models of a list of rows.
pub open spec fn row_models(rows: Seq<PropertyMap>) -> Seq<Seq<(Seq<char>, PropertyModel)>> {
    rows.map_values(|r: PropertyMap| r@)
}

/// Whether a row passes the filters that are pushed down: each names a property that
/// the row has with the value of the filter.
pub open spec fn passes(row: Seq<(Seq<char>, PropertyModel)>, filters: Seq<Filter>) -> bool {
    forall|i: int|
        0 <= i < filters.len() ==> lookup(row, (#[trigger] filters[i]).property@) == Some(
            filters[i].value@,
        )
}

/// The indices of those of the first `n` rows that pass the filters, in order.
pub open spec fn selected(
    rows: Seq<Seq<(Seq<char>, PropertyModel)>>,
    filters: Seq<Filter>,
    n: nat,
) -> Seq<int>
    decreases n,
{
    if n == 0 || n > rows.len() {
        Seq::<int>::empty()
    } else if passes(rows[n - 1], filters) {
        selected(rows, filters, (n - 1) as nat).push(n - 1)
    } else {
        selected(rows, filters, (n - 1) as nat)
    }
}

/// The key of a row: its values of the properties that the query groups by, null for a
/// property that the row does not have.
pub open spec fn key_of(row: Seq<(Seq<char>, PropertyModel)>, group_by: Seq<Seq<char>>) -> Seq<
    PropertyModel,
> {
    Seq::new(
        group_by.len(),
        |j: int|
            match lookup(row, group_by[j]) {
                Some(value) => value,
                None => PropertyModel::Null,
            },
    )
}

/// The keys of the first `n` of the chosen rows, each once, in the order in which they
/// are first seen.
pub open spec fn keys_seen(
    rows: Seq<Seq<(Seq<char>, PropertyModel)>>,
    chosen: Seq<int>,
    group_by: Seq<Seq<char>>,
    n: nat,
) -> Seq<Seq<PropertyModel>>
    decreases n,
{
    if n == 0 || n > chosen.len() {
        Seq::<Seq<PropertyModel>>::empty()
    } else {
        let before = keys_seen(rows, chosen, group_by, (n - 1) as nat);
        let key = key_of(rows[chosen[n - 1]], group_by);
        if before.contains(key) {
            before
        } else {
            before.push(key)
        }
    }
}

/// Those of the first `n` of the chosen rows that have the key, in order.
pub open spec fn members(
    rows: Seq<Seq<(Seq<char>, PropertyModel)>>,
    chosen: Seq<int>,
    group_by: Seq<Seq<char>>,
    key: Seq<PropertyModel>,
    n: nat,
) -> Seq<int>
    decreases n,
{
    if n == 0 || n > chosen.len() {
        Seq::<int>::empty()
    } else if key_of(rows[chosen[n - 1]], group_by) == key {
        members(rows, chosen, group_by, key, (n - 1) as nat).push(chosen[n - 1])
    } else {
        members(rows, chosen, group_by, key, (n - 1) as nat)
    }
}

/// How many rows the first `m` of the keys have among the first `n` of the chosen rows.
pub open spec fn rows_in_groups(
    rows: Seq<Seq<(Seq<char>, PropertyModel)>>,
    chosen: Seq<int>,
    group_by: Seq<Seq<char>>,
    keys: Seq<Seq<PropertyModel>>,
    m: nat,
    n: nat,
) -> nat
    decreases m,
{
    if m == 0 || m > keys.len() {
        0
    } else {
        rows_in_groups(rows, chosen, group_by, keys, (m - 1) as nat, n) + members(
            rows,
            chosen,
            group_by,
            keys[m - 1],
            n,
        ).len()
    }
}

/// No key stands twice among the keys that were seen, and every chosen row has its key
/// among them.
pub proof fn lemma_keys_seen(
    rows: Seq<Seq<(Seq<char>, PropertyModel)>>,
    chosen: Seq<int>,
    group_by: Seq<Seq<char>>,
    n: nat,
)
    requires
        n <= chosen.len(),
    ensures
        forall|a: int, b: int|
            0 <= a < b < keys_seen(rows, chosen, group_by, n).len() ==> keys_seen(
                rows,
                chosen,
                group_by,
                n,
            )[a] != keys_seen(rows, chosen, group_by, n)[b],
        forall|i: int|
            0 <= i < n ==> keys_seen(rows, chosen, group_by, n).contains(
                key_of(rows[#[trigger] chosen[i]], group_by),
            ),
        keys_seen(rows, chosen, group_by, n).len() <= n,
    decreases n,
{
    if n > 0 {
        lemma_keys_seen(rows, chosen, group_by, (n - 1) as nat);
        let before = keys_seen(rows, chosen, group_by, (n - 1) as nat);
        let after = keys_seen(rows, chosen, group_by, n);
        let key = key_of(rows[chosen[n - 1]], group_by);
        assert forall|a: int, b: int| 0 <= a < b < after.len() implies after[a] != after[b] by {
            if b < before.len() {
                assert(after[a] == before[a]);
                assert(after[b] == before[b]);
            } else {
                assert(after[a] == before[a]);
                assert(before.contains(before[a]));
            }
        }
        assert forall|i: int| 0 <= i < n implies after.contains(
            key_of(rows[#[trigger] chosen[i]], group_by),
        ) by {
            if i < n - 1 {
                let own = key_of(rows[chosen[i]], group_by);
                assert(before.contains(own));
                let at = choose|at: int| 0 <= at < before.len() && before[at] == own;
                assert(after[at] == own);
            } else if before.contains(key) {
                assert(after == before);
            } else {
                assert(after[after.len() - 1] == key);
            }
        }
    }
}

/// A key that no chosen row has yet has no members.
pub proof fn lemma_unseen_key_has_no_members(
    rows: Seq<Seq<(Seq<char>, PropertyModel)>>,
    chosen: Seq<int>,
    group_by: Seq<Seq<char>>,
    key: Seq<PropertyModel>,
    n: nat,
)
    requires
        n <= chosen.len(),
        !keys_seen(rows, chosen, group_by, n).contains(key),
    ensures
        members(rows, chosen, group_by, key, n).len() == 0,
    decreases n,
{
    if n > 0 {
        lemma_keys_seen(rows, chosen, group_by, n);
        let own = key_of(rows[chosen[n - 1]], group_by);
        assert(keys_seen(rows, chosen, group_by, n).contains(own));
        let before = keys_seen(rows, chosen, group_by, (n - 1) as nat);
        let after = keys_seen(rows, chosen, group_by, n);
        if before.contains(key) {
            let at = choose|at: int| 0 <= at < before.len() && before[at] == key;
            assert(after[at] == key);
        }
        lemma_unseen_key_has_no_members(rows, chosen, group_by, key, (n - 1) as nat);
    }
}

/// One more chosen row adds one row to the groups of keys that hold its key once, and
/// none to the groups of keys that do not hold it.
pub proof fn lemma_one_more_row(
    rows: Seq<Seq<(Seq<char>, PropertyModel)>>,
    chosen: Seq<int>,
    group_by: Seq<Seq<char>>,
    keys: Seq<Seq<PropertyModel>>,
    m: nat,
    n: nat,
)
    requires
        0 < n <= chosen.len(),
        m <= keys.len(),
        forall|a: int, b: int| 0 <= a < b < keys.len() ==> keys[a] != keys[b],
    ensures
        rows_in_groups(rows, chosen, group_by, keys, m, n) == rows_in_groups(
            rows,
            chosen,
            group_by,
            keys,
            m,
            (n - 1) as nat,
        ) + (if keys.take(m as int).contains(key_of(rows[chosen[n - 1]], group_by)) {
            1nat
        } else {
            0nat
        }),
    decreases m,
{
    let key = key_of(rows[chosen[n - 1]], group_by);
    if m > 0 {
        lemma_one_more_row(rows, chosen, group_by, keys, (m - 1) as nat, n);
        let fewer = keys.take(m - 1);
        let upto = keys.take(m as int);
        assert(upto[m - 1] == keys[m - 1]);
        if keys[m - 1] == key {
            if fewer.contains(key) {
                let at = choose|at: int| 0 <= at < fewer.len() && fewer[at] == key;
                assert(keys[at] == key);
            }
            assert(upto.contains(key));
        } else {
            if fewer.contains(key) {
                let at = choose|at: int| 0 <= at < fewer.len() && fewer[at] == key;
                assert(upto[at] == key);
            }
            if upto.contains(key) {
                let at = choose|at: int| 0 <= at < upto.len() && upto[at] == key;
                assert(fewer[at] == key);
            }
        }
    } else {
        assert(keys.take(0).len() == 0);
    }
}

/// The groups part the chosen rows: every chosen row is in the group of exactly one of
/// the keys that were seen, so the sizes of the groups add up to the number of chosen
/// rows.
pub proof fn lemma_groups_part_the_rows(
    rows: Seq<Seq<(Seq<char>, PropertyModel)>>,
    chosen: Seq<int>,
    group_by: Seq<Seq<char>>,
    n: nat,
)
    requires
        n <= chosen.len(),
    ensures
        rows_in_groups(
            rows,
            chosen,
            group_by,
            keys_seen(rows, chosen, group_by, n),
            keys_seen(rows, chosen, group_by, n).len(),
            n,
        ) == n,
    decreases n,
{
    let keys = keys_seen(rows, chosen, group_by, n);
    if n > 0 {
        let before = keys_seen(rows, chosen, group_by, (n - 1) as nat);
        let key = key_of(rows[chosen[n - 1]], group_by);
        lemma_groups_part_the_rows(rows, chosen, group_by, (n - 1) as nat);
        lemma_keys_seen(rows, chosen, group_by, n);
        lemma_keys_seen(rows, chosen, group_by, (n - 1) as nat);
        assert(keys.take(keys.len() as int) =~= keys);
        assert(keys.contains(key));
        lemma_one_more_row(rows, chosen, group_by, keys, keys.len(), n);
        if before.contains(key) {
            assert(keys == before);
        } else {
            assert(keys == before.push(key));
            lemma_unseen_key_has_no_members(rows, chosen, group_by, key, (n - 1) as nat);
            lemma_same_groups(rows, chosen, group_by, before, keys, before.len(), (n - 1) as nat);
            assert(keys[keys.len() - 1] == key);
        }
    } else {
        assert(keys.len() == 0);
    }
}

/// The rows in the groups of the first `m` keys do not depend on the keys after them.
pub proof fn lemma_same_groups(
    rows: Seq<Seq<(Seq<char>, PropertyModel)>>,
    chosen: Seq<int>,
    group_by: Seq<Seq<char>>,
    a: Seq<Seq<PropertyModel>>,
    b: Seq<Seq<PropertyModel>>,
    m: nat,
    n: nat,
)
    requires
        m <= a.len(),
        m <= b.len(),
        forall|i: int| 0 <= i < m ==> a[i] == b[i],
    ensures
        rows_in_groups(rows, chosen, group_by, a, m, n) == rows_in_groups(
            rows,
            chosen,
            group_by,
            b,
            m,
            n,
        ),
    decreases m,
{
    if m > 0 {
        lemma_same_groups(rows, chosen, group_by, a, b, (m - 1) as nat, n);
    }
}

/// Whether a row passes the filters that are pushed down.
pub fn row_passes(row: &PropertyMap, filters: &Vec<Filter>) -> (pass: bool)
    ensures
        pass == passes(row@, filters@),
{
    let mut i: usize = 0;
    while i < filters.len()
        invariant
            i <= filters.len(),
            forall|k: int|
                0 <= k < i ==> lookup(row@, (#[trigger] filters@[k]).property@) == Some(
                    filters@[k].value@,
                ),
        decreases filters.len() - i,
    {
        let held = match row.get(filters[i].property.as_str()) {
            Some(value) => value.same_as(&filters[i].value),
            None => false,
        };
        if !held {
            proof {
                assert(lookup(row@, filters@[i as int].property@) != Some(filters@[i as int].value@));
            }
            return false;
        }
        i = i + 1;
    }
    true
}

/// The indices of a list, as numbers without bound.
pub open spec fn as_ints(indices: Seq<usize>) -> Seq<int> {
    indices.map_values(|i: usize| i as int)
}

/// The rows that pass the filters that are pushed down.
pub fn select_rows(rows: &Vec<PropertyMap>, filters: &Vec<Filter>) -> (chosen: Vec<usize>)
    ensures
        as_ints(chosen@) == selected(row_models(rows@), filters@, rows@.len()),
        forall|k: int| 0 <= k < chosen@.len() ==> (#[trigger] chosen@[k]) < rows@.len(),
{
    let mut chosen: Vec<usize> = Vec::new();
    let mut i: usize = 0;
    proof {
        assert(as_ints(chosen@) =~= Seq::<int>::empty());
    }
    while i < rows.len()
        invariant
            i <= rows.len(),
            as_ints(chosen@) == selected(row_models(rows@), filters@, i as nat),
            forall|k: int| 0 <= k < chosen@.len() ==> (#[trigger] chosen@[k]) < rows@.len(),
        decreases rows.len() - i,
    {
        proof {
            assert(row_models(rows@)[i as int] == rows@[i as int]@);
        }
        if row_passes(&rows[i], filters) {
            let ghost before = as_ints(chosen@);
            chosen.push(i);
            proof {
                assert(as_ints(chosen@) =~= before.push(i as int));
            }
        }
        i = i + 1;
    }
    chosen
}

/// The key of a row.
pub fn key_of_row(row: &PropertyMap, group_by: &Vec<String>) -> (key: Vec<PropertyValue>)
    ensures
        models_of(key@) == key_of(row@, views(group_by@)),
{
    let mut key: Vec<PropertyValue> = Vec::new();
    let mut j: usize = 0;
    while j < group_by.len()
        invariant
            j <= group_by.len(),
            key@.len() == j,
            forall|k: int|
                0 <= k < j ==> (#[trigger] key@[k])@ == key_of(row@, views(group_by@))[k],
        decreases group_by.len() - j,
    {
        proof {
            assert(views(group_by@)[j as int] == group_by@[j as int]@);
        }
        let value = match row.get(group_by[j].as_str()) {
            Some(value) => value.clone(),
            None => PropertyValue::Null,
        };
        key.push(value);
        j = j + 1;
    }
    proof {
        assert(models_of(key@) =~= key_of(row@, views(group_by@)));
    }
    key
}

/// A group of rows: the key that its rows share, and the indices of its rows.
#[derive(Debug, Clone)]
pub struct Group {
    pub key: Vec<PropertyValue>,
    pub rows: Vec<usize>,
}

/// Whether the groups are the groups of the first `n` of the chosen rows: one for each
/// key that was seen, in the order of the keys, with the rows that have the key.
pub open spec fn groups_of(
    groups: Seq<Group>,
    rows: Seq<Seq<(Seq<char>, PropertyModel)>>,
    chosen: Seq<int>,
    group_by: Seq<Seq<char>>,
    n: nat,
) -> bool {
    &&& groups.len() == keys_seen(rows, chosen, group_by, n).len()
    &&& forall|g: int|
        0 <= g < groups.len() ==> models_of((#[trigger] groups[g]).key@) == keys_seen(
            rows,
            chosen,
            group_by,
            n,
        )[g]
    &&& forall|g: int|
        0 <= g < groups.len() ==> as_ints((#[trigger] groups[g]).rows@) == members(
            rows,
            chosen,
            group_by,
            keys_seen(rows, chosen, group_by, n)[g],
            n,
        )
}

fn find_group(groups: &Vec<Group>, key: &Vec<PropertyValue>) -> (at: usize)
    ensures
        at <= groups@.len(),
        at < groups@.len() ==> models_of(groups@[at as int].key@) == models_of(key@),
        forall|g: int| 0 <= g < at ==> models_of((#[trigger] groups@[g]).key@) != models_of(key@),
{
    let mut g: usize = 0;
    while g < groups.len()
        invariant
            g <= groups.len(),
            forall|k: int|
                0 <= k < g ==> models_of((#[trigger] groups@[k]).key@) != models_of(key@),
        decreases groups.len() - g,
    {
        if same_items(&groups[g].key, key) {
            return g;
        }
        g = g + 1;
    }
    g
}

/// Puts the chosen rows into groups by their keys.
pub fn group_rows(rows: &Vec<PropertyMap>, chosen: &Vec<usize>, group_by: &Vec<String>) -> (groups:
    Vec<Group>)
    requires
        forall|k: int| 0 <= k < chosen@.len() ==> (#[trigger] chosen@[k]) < rows@.len(),
    ensures
        groups_of(groups@, row_models(rows@), as_ints(chosen@), views(group_by@), chosen@.len()),
{
    let ghost all = row_models(rows@);
    let ghost picked = as_ints(chosen@);
    let ghost by = views(group_by@);
    let mut groups: Vec<Group> = Vec::new();
    let mut n: usize = 0;
    while n < chosen.len()
        invariant
            n <= chosen.len(),
            all == row_models(rows@),
            picked == as_ints(chosen@),
            by == views(group_by@),
            forall|k: int| 0 <= k < chosen@.len() ==> (#[trigger] chosen@[k]) < rows@.len(),
            groups_of(groups@, all, picked, by, n as nat),
        decreases chosen.len() - n,
    {
        let index = chosen[n];
        let key = key_of_row(&rows[index], group_by);
        let ghost before = keys_seen(all, picked, by, n as nat);
        let ghost after = keys_seen(all, picked, by, (n + 1) as nat);
        let ghost held = groups@;
        proof {
            assert(picked[n as int] == index as int);
            assert(all[index as int] == rows@[index as int]@);
            assert(models_of(key@) == key_of(all[picked[n as int]], by));
            lemma_keys_seen(all, picked, by, n as nat);
        }
        let at = find_group(&groups, &key);
        if at < groups.len() {
            let mut group = groups.remove(at);
            let ghost old_rows = as_ints(group.rows@);
            group.rows.push(index);
            proof {
                assert(as_ints(group.rows@) =~= old_rows.push(index as int));
            }
            groups.insert(at, group);
            proof {
                assert(before[at as int] == models_of(key@));
                assert(before.contains(models_of(key@)));
                assert(after == before);
                assert forall|g: int| 0 <= g < groups@.len() implies models_of(
                    (#[trigger] groups@[g]).key@,
                ) == after[g] by {
                    if g != at {
                        assert(groups@[g] == held[g]);
                    }
                }
                assert forall|g: int| 0 <= g < groups@.len() implies as_ints(
                    (#[trigger] groups@[g]).rows@,
                ) == members(all, picked, by, after[g], (n + 1) as nat) by {
                    if g != at {
                        assert(groups@[g] == held[g]);
                        assert(before[g] != before[at as int]);
                    }
                }
            }
        } else {
            let mut members_of_new: Vec<usize> = Vec::new();
            members_of_new.push(index);
            proof {
                assert(as_ints(members_of_new@) =~= Seq::<int>::empty().push(index as int));
                if before.contains(models_of(key@)) {
                    let g = choose|g: int| 0 <= g < before.len() && before[g] == models_of(key@);
                    assert(models_of(held[g].key@) == before[g]);
                }
                assert(after == before.push(models_of(key@)));
                lemma_unseen_key_has_no_members(all, picked, by, models_of(key@), n as nat);
                assert(members(all, picked, by, models_of(key@), n as nat) =~= Seq::<int>::empty());
            }
            groups.push(Group { key, rows: members_of_new });
            proof {
                assert forall|g: int| 0 <= g < groups@.len() implies models_of(
                    (#[trigger] groups@[g]).key@,
                ) == after[g] by {
                    if g < held.len() {
                        assert(groups@[g] == held[g]);
                    }
                }
                assert forall|g: int| 0 <= g < groups@.len() implies as_ints(
                    (#[trigger] groups@[g]).rows@,
                ) == members(all, picked, by, after[g], (n + 1) as nat) by {
                    if g < held.len() {
                        assert(groups@[g] == held[g]);
                        assert(before.contains(before[g]));
                    }
                }
            }
        }
        n = n + 1;
    }
    groups
}

/// The values that the first `n` rows of a group have of a property, in order; a row
/// that does not have the property, or has null for it, adds none.
pub open spec fn present(
    rows: Seq<Seq<(Seq<char>, PropertyModel)>>,
    group: Seq<int>,
    property: Seq<char>,
    n: nat,
) -> Seq<PropertyModel>
    decreases n,
{
    if n == 0 || n > group.len() {
        Seq::<PropertyModel>::empty()
    } else {
        let before = present(rows, group, property, (n - 1) as nat);
        match lookup(rows[group[n - 1]], property) {
            Some(value) => if value is Null {
                before
            } else {
                before.push(value)
            },
            None => before,
        }
    }
}

/// Whether every value is a whole number.
pub open spec fn all_integers(values: Seq<PropertyModel>) -> bool {
    forall|i: int| 0 <= i < values.len() ==> (#[trigger] values[i]) is Integer
}

/// The whole number that a value is; zero for any other value.
pub open spec fn integer_of(value: PropertyModel) -> int {
    match value {
        PropertyModel::Integer(i) => i,
        _ => 0,
    }
}

/// The sum of the first `n` values.
pub open spec fn integer_sum(values: Seq<PropertyModel>, n: nat) -> int
    decreases n,
{
    if n == 0 || n > values.len() {
        0
    } else {
        integer_sum(values, (n - 1) as nat) + integer_of(values[n - 1])
    }
}

/// The least of the first `n` values, for `n` of at least one.
pub open spec fn least(values: Seq<PropertyModel>, n: nat) -> int
    decreases n,
{
    if n <= 1 || n > values.len() {
        integer_of(values[0])
    } else {
        let before = least(values, (n - 1) as nat);
        if integer_of(values[n - 1]) < before {
            integer_of(values[n - 1])
        } else {
            before
        }
    }
}

/// The greatest of the first `n` values, for `n` of at least one.
pub open spec fn greatest(values: Seq<PropertyModel>, n: nat) -> int
    decreases n,
{
    if n <= 1 || n > values.len() {
        integer_of(values[0])
    } else {
        let before = greatest(values, (n - 1) as nat);
        if integer_of(values[n - 1]) > before {
            integer_of(values[n - 1])
        } else {
            before
        }
    }
}

/// The first `n` values, each once, in the order in which they are first seen.
pub open spec fn distinct(values: Seq<PropertyModel>, n: nat) -> Seq<PropertyModel>
    decreases n,
{
    if n == 0 || n > values.len() {
        Seq::<PropertyModel>::empty()
    } else {
        let before = distinct(values, (n - 1) as nat);
        if before.contains(values[n - 1]) {
            before
        } else {
            before.push(values[n - 1])
        }
    }
}

/// The decimal texts of the numbers among the first `n` values, in order: that of a
/// whole number, and the text that a double is held as. Any other value adds none.
pub open spec fn numeric_texts(values: Seq<PropertyModel>, n: nat) -> Seq<Seq<char>>
    decreases n,
{
    if n == 0 || n > values.len() {
        Seq::<Seq<char>>::empty()
    } else {
        let before = numeric_texts(values, (n - 1) as nat);
        match values[n - 1] {
            PropertyModel::Integer(i) => before.push(int_text(i)),
            PropertyModel::Double(t) => before.push(t),
            _ => before,
        }
    }
}

/// The property that an aggregation reduces; a count reduces none.
pub open spec fn reduced_property(aggregation: Aggregation) -> Seq<char> {
    match aggregation {
        Aggregation::Count => Seq::<char>::empty(),
        Aggregation::Sum(p) => p@,
        Aggregation::Avg(p) => p@,
        Aggregation::Min(p) => p@,
        Aggregation::Max(p) => p@,
        Aggregation::Median(p) => p@,
        Aggregation::StdDev(p) => p@,
        Aggregation::Variance(p) => p@,
        Aggregation::Percentile(p, _) => p@,
        Aggregation::DistinctCount(p) => p@,
        Aggregation::TopN(p, _) => p@,
        Aggregation::BottomN(p, _) => p@,
    }
}

/// The words that stand before the property in the name of an aggregation's column.
pub open spec fn column_prefix(aggregation: Aggregation) -> Seq<char> {
    match aggregation {
        Aggregation::Count => "count"@,
        Aggregation::Sum(_) => "sum_"@,
        Aggregation::Avg(_) => "avg_"@,
        Aggregation::Min(_) => "min_"@,
        Aggregation::Max(_) => "max_"@,
        Aggregation::Median(_) => "median_"@,
        Aggregation::StdDev(_) => "stddev_"@,
        Aggregation::Variance(_) => "variance_"@,
        Aggregation::Percentile(_, _) => "percentile_"@,
        Aggregation::DistinctCount(_) => "distinct_count_"@,
        Aggregation::TopN(_, _) => "top_"@,
        Aggregation::BottomN(_, _) => "bottom_"@,
    }
}

/// The name of the column that holds the result of an aggregation: `count`, or the kind
/// of the aggregation, an underscore and the property.
pub open spec fn column_name(aggregation: Aggregation) -> Seq<char> {
    column_prefix(aggregation) + reduced_property(aggregation)
}

/// What an aggregation makes of a group with whole numbers alone, where it can.
///
/// A count is the number of rows of the group, a distinct count the number of different
/// values. A sum, a minimum and a maximum of whole numbers are whole numbers, so that
/// no whole number is turned into a fraction; the minimum and the maximum of no values
/// are null. Everything else needs arithmetic on fractions: an average, a median, a
/// deviation, a variance, a percentile, and a sum, a minimum or a maximum over values
/// that are not all whole numbers or whose sum is too large for a whole number.
pub open spec fn exact(aggregation: Aggregation, size: nat, values: Seq<PropertyModel>) -> Option<
    PropertyModel,
> {
    match aggregation {
        Aggregation::Count => Some(PropertyModel::Integer(size as int)),
        Aggregation::DistinctCount(_) => Some(
            PropertyModel::Integer(distinct(values, values.len()).len() as int),
        ),
        Aggregation::Sum(_) => if all_integers(values) && i64::MIN <= integer_sum(
            values,
            values.len(),
        ) <= i64::MAX {
            Some(PropertyModel::Integer(integer_sum(values, values.len())))
        } else {
            None
        },
        Aggregation::Min(_) => if all_integers(values) {
            if values.len() == 0 {
                Some(PropertyModel::Null)
            } else {
                Some(PropertyModel::Integer(least(values, values.len())))
            }
        } else {
            None
        },
        Aggregation::Max(_) => if all_integers(values) {
            if values.len() == 0 {
                Some(PropertyModel::Null)
            } else {
                Some(PropertyModel::Integer(greatest(values, values.len())))
            }
        } else {
            None
        },
        _ => None,
    }
}

/// Whether `cell` is what an aggregation makes of a group: what whole numbers give
/// where they suffice, and else what the caller's arithmetic on fractions makes of the
/// numbers of the group.
pub open spec fn cell_is<F: Fn(&Aggregation, &Vec<String>) -> PropertyValue>(
    fractions: F,
    aggregation: Aggregation,
    size: nat,
    values: Seq<PropertyModel>,
    cell: PropertyModel,
) -> bool {
    match exact(aggregation, size, values) {
        Some(value) => cell == value,
        None => exists|texts: Vec<String>, out: PropertyValue|
            views(texts@) == numeric_texts(values, values.len()) && call_ensures(
                fractions,
                (&aggregation, &texts),
                out,
            ) && out@ == cell,
    }
}

/// The values that the rows of a group have of a property.
fn present_values(rows: &Vec<PropertyMap>, group: &Vec<usize>, property: &str) -> (values: Vec<
    PropertyValue,
>)
    requires
        forall|k: int| 0 <= k < group@.len() ==> (#[trigger] group@[k]) < rows@.len(),
    ensures
        models_of(values@) == present(row_models(rows@), as_ints(group@), property@, group@.len()),
        values@.len() <= group@.len(),
{
    let ghost all = row_models(rows@);
    let ghost picked = as_ints(group@);
    let mut values: Vec<PropertyValue> = Vec::new();
    let mut n: usize = 0;
    proof {
        assert(models_of(values@) =~= Seq::<PropertyModel>::empty());
    }
    while n < group.len()
        invariant
            n <= group.len(),
            all == row_models(rows@),
            picked == as_ints(group@),
            forall|k: int| 0 <= k < group@.len() ==> (#[trigger] group@[k]) < rows@.len(),
            models_of(values@) == present(all, picked, property@, n as nat),
            values@.len() <= n,
        decreases group.len() - n,
    {
        let index = group[n];
        proof {
            assert(picked[n as int] == index as int);
            assert(all[index as int] == rows@[index as int]@);
        }
        match rows[index].get(property) {
            Some(value) => {
                if !value.is_null() {
                    let ghost before = models_of(values@);
                    values.push(value.clone());
                    proof {
                        assert(models_of(values@) =~= before.push(value@));
                    }
                }
            },
            None => {},
        }
        n = n + 1;
    }
    values
}

fn are_integers(values: &Vec<PropertyValue>) -> (yes: bool)
    ensures
        yes == all_integers(models_of(values@)),
{
    let mut i: usize = 0;
    while i < values.len()
        invariant
            i <= values.len(),
            forall|k: int| 0 <= k < i ==> (#[trigger] models_of(values@)[k]) is Integer,
        decreases values.len() - i,
    {
        proof {
            assert(models_of(values@)[i as int] == values@[i as int]@);
        }
        match &values[i] {
            PropertyValue::Integer(_) => {},
            _ => {
                return false;
            },
        }
        i = i + 1;
    }
    true
}

/// The sum of a list of whole numbers, where it is a whole number of 64 bits.
fn sum_integers(values: &Vec<PropertyValue>) -> (sum: Option<i64>)
    requires
        values@.len() <= i64::MAX,
    ensures
        match sum {
            Some(total) => total == integer_sum(models_of(values@), values@.len()),
            None => !(i64::MIN <= integer_sum(models_of(values@), values@.len()) <= i64::MAX),
        },
{
    let ghost models = models_of(values@);
    let mut total: i128 = 0;
    let mut i: usize = 0;
    while i < values.len()
        invariant
            i <= values.len(),
            values@.len() <= i64::MAX,
            models == models_of(values@),
            total == integer_sum(models, i as nat),
            -(i as int) * 0x8000_0000_0000_0000 <= total <= (i as int) * 0x8000_0000_0000_0000,
        decreases values.len() - i,
    {
        proof {
            assert(models[i as int] == values@[i as int]@);
        }
        let next: i64 = match &values[i] {
            PropertyValue::Integer(v) => *v,
            _ => 0,
        };
        total = total + next as i128;
        i = i + 1;
    }
    if total >= i64::MIN as i128 && total <= i64::MAX as i128 {
        Some(total as i64)
    } else {
        None
    }
}

fn least_integer(values: &Vec<PropertyValue>) -> (out: i64)
    requires
        values@.len() > 0,
        all_integers(models_of(values@)),
    ensures
        out == least(models_of(values@), values@.len()),
{
    let ghost models = models_of(values@);
    proof {
        assert(models[0] == values@[0]@);
    }
    let mut out: i64 = match &values[0] {
        PropertyValue::Integer(v) => *v,
        _ => 0,
    };
    let mut i: usize = 1;
    while i < values.len()
        invariant
            1 <= i <= values.len(),
            models == models_of(values@),
            out == least(models, i as nat),
        decreases values.len() - i,
    {
        proof {
            assert(models[i as int] == values@[i as int]@);
        }
        let next: i64 = match &values[i] {
            PropertyValue::Integer(v) => *v,
            _ => 0,
        };
        if next < out {
            out = next;
        }
        i = i + 1;
    }
    out
}

fn greatest_integer(values: &Vec<PropertyValue>) -> (out: i64)
    requires
        values@.len() > 0,
        all_integers(models_of(values@)),
    ensures
        out == greatest(models_of(values@), values@.len()),
{
    let ghost models = models_of(values@);
    proof {
        assert(models[0] == values@[0]@);
    }
    let mut out: i64 = match &values[0] {
        PropertyValue::Integer(v) => *v,
        _ => 0,
    };
    let mut i: usize = 1;
    while i < values.len()
        invariant
            1 <= i <= values.len(),
            models == models_of(values@),
            out == greatest(models, i as nat),
        decreases values.len() - i,
    {
        proof {
            assert(models[i as int] == values@[i as int]@);
        }
        let next: i64 = match &values[i] {
            PropertyValue::Integer(v) => *v,
            _ => 0,
        };
        if next > out {
            out = next;
        }
        i = i + 1;
    }
    out
}

fn count_distinct(values: &Vec<PropertyValue>) -> (count: usize)
    ensures
        count == distinct(models_of(values@), values@.len()).len(),
        count <= values@.len(),
{
    let ghost models = models_of(values@);
    let mut seen: Vec<PropertyValue> = Vec::new();
    let mut i: usize = 0;
    proof {
        assert(models_of(seen@) =~= Seq::<PropertyModel>::empty());
    }
    while i < values.len()
        invariant
            i <= values.len(),
            models == models_of(values@),
            models_of(seen@) == distinct(models, i as nat),
            seen@.len() <= i,
        decreases values.len() - i,
    {
        proof {
            assert(models[i as int] == values@[i as int]@);
        }
        let mut found = false;
        let mut k: usize = 0;
        while k < seen.len()
            invariant
                k <= seen.len(),
                i < values.len(),
                !found ==> forall|j: int|
                    0 <= j < k ==> (#[trigger] models_of(seen@)[j]) != values@[i as int]@,
                found ==> models_of(seen@).contains(values@[i as int]@),
            decreases seen.len() - k,
        {
            proof {
                assert(models_of(seen@)[k as int] == seen@[k as int]@);
            }
            if seen[k].same_as(&values[i]) {
                found = true;
            }
            k = k + 1;
        }
        if !found {
            let ghost before = models_of(seen@);
            seen.push(values[i].clone());
            proof {
                assert(models_of(seen@) =~= before.push(values@[i as int]@));
            }
        }
        i = i + 1;
    }
    proof {
        assert(models_of(seen@).len() == seen@.len());
    }
    seen.len()
}

fn texts_of_numbers(values: &Vec<PropertyValue>) -> (texts: Vec<String>)
    ensures
        views(texts@) == numeric_texts(models_of(values@), values@.len()),
{
    let ghost models = models_of(values@);
    let mut texts: Vec<String> = Vec::new();
    let mut i: usize = 0;
    proof {
        assert(views(texts@) =~= Seq::<Seq<char>>::empty());
    }
    while i < values.len()
        invariant
            i <= values.len(),
            models == models_of(values@),
            views(texts@) == numeric_texts(models, i as nat),
        decreases values.len() - i,
    {
        proof {
            assert(models[i as int] == values@[i as int]@);
        }
        let ghost before = views(texts@);
        match &values[i] {
            PropertyValue::Integer(v) => {
                texts.push(i64_to_string(*v));
                proof {
                    assert(views(texts@) =~= before.push(int_text(*v as int)));
                }
            },
            PropertyValue::Double(t) => {
                texts.push(t.clone());
                proof {
                    assert(views(texts@) =~= before.push(t@));
                }
            },
            _ => {},
        }
        i = i + 1;
    }
    texts
}

fn name_of_column(aggregation: &Aggregation) -> (name: String)
    ensures
        name@ == column_name(*aggregation),
{
    let (prefix, property) = match aggregation {
        Aggregation::Count => ("count", ""),
        Aggregation::Sum(p) => ("sum_", p.as_str()),
        Aggregation::Avg(p) => ("avg_", p.as_str()),
        Aggregation::Min(p) => ("min_", p.as_str()),
        Aggregation::Max(p) => ("max_", p.as_str()),
        Aggregation::Median(p) => ("median_", p.as_str()),
        Aggregation::StdDev(p) => ("stddev_", p.as_str()),
        Aggregation::Variance(p) => ("variance_", p.as_str()),
        Aggregation::Percentile(p, _) => ("percentile_", p.as_str()),
        Aggregation::DistinctCount(p) => ("distinct_count_", p.as_str()),
        Aggregation::TopN(p, _) => ("top_", p.as_str()),
        Aggregation::BottomN(p, _) => ("bottom_", p.as_str()),
    };
    proof {
        reveal_strlit("");
        assert(""@ =~= Seq::<char>::empty());
    }
    let mut name = owned(prefix);
    name.append(property);
    name
}

fn property_name(aggregation: &Aggregation) -> (property: &str)
    ensures
        property@ == reduced_property(*aggregation),
{
    proof {
        reveal_strlit("");
        assert(""@ =~= Seq::<char>::empty());
    }
    match aggregation {
        Aggregation::Count => "",
        Aggregation::Sum(p) => p.as_str(),
        Aggregation::Avg(p) => p.as_str(),
        Aggregation::Min(p) => p.as_str(),
        Aggregation::Max(p) => p.as_str(),
        Aggregation::Median(p) => p.as_str(),
        Aggregation::StdDev(p) => p.as_str(),
        Aggregation::Variance(p) => p.as_str(),
        Aggregation::Percentile(p, _) => p.as_str(),
        Aggregation::DistinctCount(p) => p.as_str(),
        Aggregation::TopN(p, _) => p.as_str(),
        Aggregation::BottomN(p, _) => p.as_str(),
    }
}

/// What whole numbers make of a group, where they suffice.
fn reduce_exactly(aggregation: &Aggregation, size: usize, values: &Vec<PropertyValue>) -> (out:
    Option<PropertyValue>)
    requires
        size <= i64::MAX,
        values@.len() <= i64::MAX,
    ensures
        match out {
            Some(value) => exact(*aggregation, size as nat, models_of(values@)) == Some(value@),
            None => exact(*aggregation, size as nat, models_of(values@)) is None,
        },
{
    match aggregation {
        Aggregation::Count => Some(PropertyValue::Integer(size as i64)),
        Aggregation::DistinctCount(_) => Some(PropertyValue::Integer(count_distinct(values) as i64)),
        Aggregation::Sum(_) => {
            if are_integers(values) {
                match sum_integers(values) {
                    Some(total) => Some(PropertyValue::Integer(total)),
                    None => None,
                }
            } else {
                None
            }
        },
        Aggregation::Min(_) => {
            if are_integers(values) {
                if values.len() == 0 {
                    Some(PropertyValue::Null)
                } else {
                    Some(PropertyValue::Integer(least_integer(values)))
                }
            } else {
                None
            }
        },
        Aggregation::Max(_) => {
            if are_integers(values) {
                if values.len() == 0 {
                    Some(PropertyValue::Null)
                } else {
                    Some(PropertyValue::Integer(greatest_integer(values)))
                }
            } else {
                None
            }
        },
        _ => None,
    }
}

/// The entries of the row of a group: the properties that the query groups by with the
/// values of the key, then the column of each aggregation with its cell.
pub open spec fn row_entries(
    group_by: Seq<Seq<char>>,
    key: Seq<PropertyModel>,
    aggregations: Seq<Aggregation>,
    cells: Seq<PropertyModel>,
) -> Seq<(Seq<char>, PropertyModel)> {
    Seq::new(group_by.len(), |j: int| (group_by[j], key[j])) + Seq::new(
        aggregations.len(),
        |a: int| (column_name(aggregations[a]), cells[a]),
    )
}

/// Whether `row` is the row of a group with the given cells: the entries bound one
/// after the other, each cell being what its aggregation makes of the group.
pub open spec fn row_with<F: Fn(&Aggregation, &Vec<String>) -> PropertyValue>(
    fractions: F,
    row: Seq<(Seq<char>, PropertyModel)>,
    rows: Seq<Seq<(Seq<char>, PropertyModel)>>,
    group_by: Seq<Seq<char>>,
    key: Seq<PropertyModel>,
    group: Seq<int>,
    aggregations: Seq<Aggregation>,
    cells: Seq<PropertyModel>,
) -> bool {
    &&& cells.len() == aggregations.len()
    &&& forall|a: int|
        0 <= a < aggregations.len() ==> cell_is(
            fractions,
            #[trigger] aggregations[a],
            group.len(),
            present(rows, group, reduced_property(aggregations[a]), group.len()),
            cells[a],
        )
    &&& row == put_all(
        Seq::<(Seq<char>, PropertyModel)>::empty(),
        row_entries(group_by, key, aggregations, cells),
        (group_by.len() + aggregations.len()) as nat,
    )
}

/// Whether `row` is the row of a group: its key under the properties that the query
/// groups by, and under the column of each aggregation what the aggregation makes of
/// the group.
pub open spec fn row_is<F: Fn(&Aggregation, &Vec<String>) -> PropertyValue>(
    fractions: F,
    row: Seq<(Seq<char>, PropertyModel)>,
    rows: Seq<Seq<(Seq<char>, PropertyModel)>>,
    group_by: Seq<Seq<char>>,
    key: Seq<PropertyModel>,
    group: Seq<int>,
    aggregations: Seq<Aggregation>,
) -> bool {
    exists|cells: Seq<PropertyModel>|
        #[trigger] row_with(fractions, row, rows, group_by, key, group, aggregations, cells)
}

impl ParquetStore {
    /// What an aggregation makes of a group of rows.
    pub fn reduce_group<F: Fn(&Aggregation, &Vec<String>) -> PropertyValue>(
        rows: &Vec<PropertyMap>,
        group: &Vec<usize>,
        aggregation: &Aggregation,
        fractions: &F,
    ) -> (cell: PropertyValue)
        requires
            rows@.len() <= i64::MAX,
            group@.len() <= i64::MAX,
            forall|k: int| 0 <= k < group@.len() ==> (#[trigger] group@[k]) < rows@.len(),
            forall|a: &Aggregation, t: &Vec<String>| call_requires(*fractions, (a, t)),
        ensures
            cell_is(
                *fractions,
                *aggregation,
                group@.len(),
                present(
                    row_models(rows@),
                    as_ints(group@),
                    reduced_property(*aggregation),
                    group@.len(),
                ),
                cell@,
            ),
    {
        let values = present_values(rows, group, property_name(aggregation));
        ParquetStore::reduce_values(aggregation, group.len(), &values, fractions)
    }

    /// What an aggregation makes of the values of a group of the given size.
    pub fn reduce_values<F: Fn(&Aggregation, &Vec<String>) -> PropertyValue>(
        aggregation: &Aggregation,
        size: usize,
        values: &Vec<PropertyValue>,
        fractions: &F,
    ) -> (cell: PropertyValue)
        requires
            size <= i64::MAX,
            values@.len() <= i64::MAX,
            forall|a: &Aggregation, t: &Vec<String>| call_requires(*fractions, (a, t)),
        ensures
            cell_is(*fractions, *aggregation, size as nat, models_of(values@), cell@),
    {
        match reduce_exactly(aggregation, size, values) {
            Some(value) => value,
            None => {
                let texts = texts_of_numbers(values);
                let out = fractions(aggregation, &texts);
                out
            },
        }
    }

    /// The row of a group: its key and what each aggregation makes of it.
    pub fn group_row<F: Fn(&Aggregation, &Vec<String>) -> PropertyValue>(
        rows: &Vec<PropertyMap>,
        group: &Group,
        query: &AnalyticsQuery,
        fractions: &F,
    ) -> (row: PropertyMap)
        requires
            rows@.len() <= i64::MAX,
            group.rows@.len() <= i64::MAX,
            group.key@.len() == query.group_by@.len(),
            forall|k: int| 0 <= k < group.rows@.len() ==> (#[trigger] group.rows@[k]) < rows@.len(),
            forall|a: &Aggregation, t: &Vec<String>| call_requires(*fractions, (a, t)),
        ensures
            row_is(
                *fractions,
                row@,
                row_models(rows@),
                views(query.group_by@),
                models_of(group.key@),
                as_ints(group.rows@),
                query.aggregations@,
            ),
    {
        let ghost by = views(query.group_by@);
        let ghost key = models_of(group.key@);
        let ghost none = Seq::<(Seq<char>, PropertyModel)>::empty();
        let mut row = PropertyMap::new();
        let mut j: usize = 0;
        while j < query.group_by.len()
            invariant
                j <= query.group_by.len(),
                by == views(query.group_by@),
                key == models_of(group.key@),
                group.key@.len() == query.group_by@.len(),
                none == Seq::<(Seq<char>, PropertyModel)>::empty(),
                row@ == put_all(none, Seq::new(by.len(), |k: int| (by[k], key[k])), j as nat),
            decreases query.group_by.len() - j,
        {
            proof {
                assert(by[j as int] == query.group_by@[j as int]@);
                assert(key[j as int] == group.key@[j as int]@);
            }
            row.insert(query.group_by[j].clone(), group.key[j].clone());
            j = j + 1;
        }
        let ghost grouped = row@;
        let mut cells: Vec<PropertyValue> = Vec::new();
        let mut a: usize = 0;
        while a < query.aggregations.len()
            invariant
                a <= query.aggregations.len(),
                cells@.len() == a,
                by == views(query.group_by@),
                key == models_of(group.key@),
                none == Seq::<(Seq<char>, PropertyModel)>::empty(),
                rows@.len() <= i64::MAX,
                group.rows@.len() <= i64::MAX,
                forall|k: int|
                    0 <= k < group.rows@.len() ==> (#[trigger] group.rows@[k]) < rows@.len(),
                forall|x: &Aggregation, t: &Vec<String>| call_requires(*fractions, (x, t)),
                grouped == put_all(none, Seq::new(by.len(), |k: int| (by[k], key[k])), by.len()),
                forall|k: int|
                    0 <= k < a ==> cell_is(
                        *fractions,
                        #[trigger] query.aggregations@[k],
                        group.rows@.len(),
                        present(
                            row_models(rows@),
                            as_ints(group.rows@),
                            reduced_property(query.aggregations@[k]),
                            group.rows@.len(),
                        ),
                        cells@[k]@,
                    ),
                row@ == put_all(
                    grouped,
                    Seq::new(
                        a as nat,
                        |k: int| (column_name(query.aggregations@[k]), cells@[k]@),
                    ),
                    a as nat,
                ),
            decreases query.aggregations.len() - a,
        {
            let cell = ParquetStore::reduce_group(
                rows,
                &group.rows,
                &query.aggregations[a],
                fractions,
            );
            let ghost before = cells@;
            let ghost held = Seq::new(
                a as nat,
                |k: int| (column_name(query.aggregations@[k]), before[k]@),
            );
            row.insert(name_of_column(&query.aggregations[a]), cell.clone());
            cells.push(cell);
            proof {
                let now = Seq::new(
                    (a + 1) as nat,
                    |k: int| (column_name(query.aggregations@[k]), cells@[k]@),
                );
                assert forall|k: int| 0 <= k < a implies now[k] == held[k] by {
                    assert(cells@[k] == before[k]);
                }
                lemma_put_all_prefix(grouped, held, now, a as nat);
                assert(now[a as int] == (column_name(query.aggregations@[a as int]), cell@));
                assert forall|k: int| 0 <= k < a + 1 implies cell_is(
                    *fractions,
                    #[trigger] query.aggregations@[k],
                    group.rows@.len(),
                    present(
                        row_models(rows@),
                        as_ints(group.rows@),
                        reduced_property(query.aggregations@[k]),
                        group.rows@.len(),
                    ),
                    cells@[k]@,
                ) by {
                    if k < a {
                        assert(cells@[k] == before[k]);
                    }
                }
            }
            a = a + 1;
        }
        proof {
            let models = models_of(cells@);
            let first = Seq::new(by.len(), |k: int| (by[k], key[k]));
            let second = Seq::new(
                query.aggregations@.len(),
                |k: int| (column_name(query.aggregations@[k]), cells@[k]@),
            );
            let entries = row_entries(by, key, query.aggregations@, models);
            assert(entries =~= first + second) by {
                assert forall|k: int| 0 <= k < query.aggregations@.len() implies models[k]
                    == cells@[k]@ by {}
            }
            lemma_put_all_append(none, first, second);
            assert forall|k: int| 0 <= k < query.aggregations@.len() implies cell_is(
                *fractions,
                #[trigger] query.aggregations@[k],
                group.rows@.len(),
                present(
                    row_models(rows@),
                    as_ints(group.rows@),
                    reduced_property(query.aggregations@[k]),
                    group.rows@.len(),
                ),
                models[k],
            ) by {
                assert(models[k] == cells@[k]@);
            }
            assert(as_ints(group.rows@).len() == group.rows@.len());
            assert(first.len() == by.len());
            assert(second.len() == query.aggregations@.len());
            assert(grouped == put_all(none, first, first.len()));
            assert(row@ == put_all(grouped, second, second.len()));
            assert(row@ == put_all(
                none,
                entries,
                (by.len() + query.aggregations@.len()) as nat,
            ));
            assert(row_with(
                *fractions,
                row@,
                row_models(rows@),
                by,
                key,
                as_ints(group.rows@),
                query.aggregations@,
                models,
            ));
        }
        row
    }

    /// Answers an analytic query over the rows of a scan: the rows that pass the
    /// filters are put into groups by the properties that the query groups by, and
    /// each aggregation is reduced over each group. Without such properties all rows
    /// that pass are one group. Arithmetic on fractions is left to `fractions`, which
    /// is handed an aggregation and the decimal texts of the numbers to reduce.
    ///
    /// The error is the query error that says what the store does not accept, and comes
    /// exactly where it does not accept the query. The total of the result is the number
    /// of rows that pass the filters: without filters, the number of rows.
    pub fn query_analytics<F: Fn(&Aggregation, &Vec<String>) -> PropertyValue>(
        rows: &Vec<PropertyMap>,
        query: &AnalyticsQuery,
        fractions: &F,
    ) -> (out: Result<AnalyticsResult, StoreError>)
        requires
            rows@.len() <= i64::MAX,
            forall|a: &Aggregation, t: &Vec<String>| call_requires(*fractions, (a, t)),
        ensures
            match out {
                Err(e) => !accepts(*query) && query_refused(*query, e@),
                Ok(result) => {
                    let all = row_models(rows@);
                    let chosen = selected(all, query.filters@, rows@.len());
                    let by = views(query.group_by@);
                    let keys = keys_seen(all, chosen, by, chosen.len());
                    &&& accepts(*query)
                    &&& result.total == chosen.len()
                    &&& query.filters@.len() == 0 ==> result.total == rows@.len()
                    &&& result.rows@.len() == keys.len()
                    &&& rows_in_groups(all, chosen, by, keys, keys.len(), chosen.len())
                        == result.total
                    &&& forall|g: int|
                        0 <= g < result.rows@.len() ==> row_is(
                            *fractions,
                            (#[trigger] result.rows@[g])@,
                            all,
                            by,
                            keys[g],
                            members(all, chosen, by, keys[g], chosen.len()),
                            query.aggregations@,
                        )
                },
            },
    {
        match ParquetStore::validate_analytics(query) {
            Ok(_) => {},
            Err(e) => {
                return Err(e);
            },
        }
        let chosen = select_rows(rows, &query.filters);
        let groups = group_rows(rows, &chosen, &query.group_by);
        let ghost all = row_models(rows@);
        let ghost picked = as_ints(chosen@);
        let ghost by = views(query.group_by@);
        let ghost keys = keys_seen(all, picked, by, picked.len());
        proof {
            lemma_selected_is_short(all, query.filters@, rows@.len());
            if query.filters@.len() == 0 {
                lemma_no_filter_selects_every_row(all, query.filters@, rows@.len());
            }
            lemma_groups_part_the_rows(all, picked, by, picked.len());
            assert(picked.len() == chosen@.len());
        }
        let mut out: Vec<PropertyMap> = Vec::new();
        let mut g: usize = 0;
        while g < groups.len()
            invariant
                g <= groups.len(),
                out@.len() == g,
                rows@.len() <= i64::MAX,
                all == row_models(rows@),
                picked == as_ints(chosen@),
                picked.len() <= rows@.len(),
                by == views(query.group_by@),
                keys == keys_seen(all, picked, by, picked.len()),
                groups_of(groups@, all, picked, by, chosen@.len()),
                forall|k: int| 0 <= k < chosen@.len() ==> (#[trigger] chosen@[k]) < rows@.len(),
                forall|a: &Aggregation, t: &Vec<String>| call_requires(*fractions, (a, t)),
                forall|k: int|
                    0 <= k < g ==> row_is(
                        *fractions,
                        (#[trigger] out@[k])@,
                        all,
                        by,
                        keys[k],
                        members(all, picked, by, keys[k], picked.len()),
                        query.aggregations@,
                    ),
            decreases groups.len() - g,
        {
            proof {
                let group = groups@[g as int];
                assert(models_of(group.key@) == keys[g as int]);
                assert(as_ints(group.rows@) == members(all, picked, by, keys[g as int], picked.len()));
                lemma_members_are_chosen(all, picked, by, keys[g as int], picked.len());
                assert(as_ints(group.rows@).len() == group.rows@.len());
                assert forall|k: int| 0 <= k < group.rows@.len() implies (
                #[trigger] group.rows@[k]) < rows@.len() by {
                    let m = as_ints(group.rows@)[k];
                    assert(m == group.rows@[k] as int);
                    let at = choose|at: int| 0 <= at < picked.len() && picked[at] == m;
                    assert(picked[at] == chosen@[at] as int);
                }
                lemma_keys_have_the_length(all, picked, by, picked.len(), g as int);
                assert(models_of(group.key@).len() == group.key@.len());
            }
            let row = ParquetStore::group_row(rows, &groups[g], query, fractions);
            out.push(row);
            g = g + 1;
        }
        Ok(AnalyticsResult { rows: out, total: chosen.len() })
    }
}

/// Binding the first `n` of two lists of entries that agree on them gives the same.
pub proof fn lemma_put_all_prefix<V>(
    base: Seq<(Seq<char>, V)>,
    a: Seq<(Seq<char>, V)>,
    b: Seq<(Seq<char>, V)>,
    n: nat,
)
    requires
        n <= a.len(),
        n <= b.len(),
        forall|k: int| 0 <= k < n ==> a[k] == b[k],
    ensures
        put_all(base, a, n) == put_all(base, b, n),
    decreases n,
{
    if n > 0 {
        lemma_put_all_prefix(base, a, b, (n - 1) as nat);
    }
}

/// Binding one list of entries and then another is binding the two as one list.
pub proof fn lemma_put_all_append<V>(
    base: Seq<(Seq<char>, V)>,
    first: Seq<(Seq<char>, V)>,
    second: Seq<(Seq<char>, V)>,
)
    ensures
        put_all(put_all(base, first, first.len()), second, second.len()) == put_all(
            base,
            first + second,
            (first.len() + second.len()) as nat,
        ),
{
    lemma_put_all_append_upto(base, first, second, second.len());
}

/// Binding one list of entries and then the first `n` of another is binding the first
/// entries of the two as one list.
pub proof fn lemma_put_all_append_upto<V>(
    base: Seq<(Seq<char>, V)>,
    first: Seq<(Seq<char>, V)>,
    second: Seq<(Seq<char>, V)>,
    n: nat,
)
    requires
        n <= second.len(),
    ensures
        put_all(put_all(base, first, first.len()), second, n) == put_all(
            base,
            first + second,
            (first.len() + n) as nat,
        ),
    decreases n,
{
    let both = first + second;
    if n > 0 {
        lemma_put_all_append_upto(base, first, second, (n - 1) as nat);
        assert(both[first.len() + n - 1] == second[n - 1]);
    } else {
        assert forall|k: int| 0 <= k < first.len() implies first[k] == both[k] by {}
        lemma_put_all_prefix(base, first, both, first.len());
    }
}

/// No more rows are selected than there are.
pub proof fn lemma_selected_is_short(
    rows: Seq<Seq<(Seq<char>, PropertyModel)>>,
    filters: Seq<Filter>,
    n: nat,
)
    requires
        n <= rows.len(),
    ensures
        selected(rows, filters, n).len() <= n,
    decreases n,
{
    if n > 0 {
        lemma_selected_is_short(rows, filters, (n - 1) as nat);
    }
}

/// Every member of a group is one of the chosen rows, and a group has no more rows
/// than were chosen.
pub proof fn lemma_members_are_chosen(
    rows: Seq<Seq<(Seq<char>, PropertyModel)>>,
    chosen: Seq<int>,
    group_by: Seq<Seq<char>>,
    key: Seq<PropertyModel>,
    n: nat,
)
    requires
        n <= chosen.len(),
    ensures
        members(rows, chosen, group_by, key, n).len() <= n,
        forall|k: int|
            0 <= k < members(rows, chosen, group_by, key, n).len() ==> exists|at: int|
                0 <= at < chosen.len() && chosen[at] == #[trigger] members(
                    rows,
                    chosen,
                    group_by,
                    key,
                    n,
                )[k],
    decreases n,
{
    if n > 0 {
        lemma_members_are_chosen(rows, chosen, group_by, key, (n - 1) as nat);
        let before = members(rows, chosen, group_by, key, (n - 1) as nat);
        let now = members(rows, chosen, group_by, key, n);
        assert forall|k: int| 0 <= k < now.len() implies exists|at: int|
            0 <= at < chosen.len() && chosen[at] == #[trigger] now[k] by {
            if k < before.len() {
                assert(now[k] == before[k]);
            } else {
                assert(chosen[n - 1] == now[k]);
            }
        }
    }
}

/// Without filters every row is selected: the rows chosen are all the rows, in order.
pub proof fn lemma_no_filter_selects_every_row(
    rows: Seq<Seq<(Seq<char>, PropertyModel)>>,
    filters: Seq<Filter>,
    n: nat,
)
    requires
        filters.len() == 0,
        n <= rows.len(),
    ensures
        selected(rows, filters, n) == Seq::new(n, |i: int| i),
    decreases n,
{
    if n > 0 {
        lemma_no_filter_selects_every_row(rows, filters, (n - 1) as nat);
        assert(passes(rows[n - 1], filters));
        assert(selected(rows, filters, n) =~= Seq::new(n, |i: int| i));
    } else {
        assert(selected(rows, filters, n) =~= Seq::new(n, |i: int| i));
    }
}

/// Without filters every row falls into exactly one group: the sizes of the groups add
/// up to the number of rows.
pub proof fn lemma_groups_hold_every_row(
    rows: Seq<Seq<(Seq<char>, PropertyModel)>>,
    filters: Seq<Filter>,
    group_by: Seq<Seq<char>>,
)
    requires
        filters.len() == 0,
    ensures
        ({
            let chosen = selected(rows, filters, rows.len());
            let keys = keys_seen(rows, chosen, group_by, chosen.len());
            rows_in_groups(rows, chosen, group_by, keys, keys.len(), chosen.len()) == rows.len()
        }),
{
    lemma_no_filter_selects_every_row(rows, filters, rows.len());
    let chosen = selected(rows, filters, rows.len());
    lemma_groups_part_the_rows(rows, chosen, group_by, chosen.len());
}

/// Every key that was seen is the key of one of the chosen rows.
pub proof fn lemma_every_key_is_of_a_row(
    rows: Seq<Seq<(Seq<char>, PropertyModel)>>,
    chosen: Seq<int>,
    group_by: Seq<Seq<char>>,
    n: nat,
)
    requires
        n <= chosen.len(),
    ensures
        forall|g: int|
            0 <= g < keys_seen(rows, chosen, group_by, n).len() ==> exists|i: int|
                0 <= i < n && key_of(rows[chosen[i]], group_by) == #[trigger] keys_seen(
                    rows,
                    chosen,
                    group_by,
                    n,
                )[g],
    decreases n,
{
    if n > 0 {
        lemma_every_key_is_of_a_row(rows, chosen, group_by, (n - 1) as nat);
        let before = keys_seen(rows, chosen, group_by, (n - 1) as nat);
        let after = keys_seen(rows, chosen, group_by, n);
        assert forall|g: int| 0 <= g < after.len() implies exists|i: int|
            0 <= i < n && key_of(rows[chosen[i]], group_by) == #[trigger] after[g] by {
            if g < before.len() {
                assert(after[g] == before[g]);
                let i = choose|i: int|
                    0 <= i < n - 1 && key_of(rows[chosen[i]], group_by) == before[g];
                assert(0 <= i < n && key_of(rows[chosen[i]], group_by) == after[g]);
            } else {
                assert(key_of(rows[chosen[n - 1]], group_by) == after[g]);
            }
        }
    }
}

/// Rows whose keys take exactly two values fall into exactly two groups: where every
/// chosen row has the key `first` or the key `second`, the two differ and each is the
/// key of a row, two keys are seen.
pub proof fn lemma_two_values_give_two_groups(
    rows: Seq<Seq<(Seq<char>, PropertyModel)>>,
    chosen: Seq<int>,
    group_by: Seq<Seq<char>>,
    first: Seq<PropertyModel>,
    second: Seq<PropertyModel>,
)
    requires
        first != second,
        forall|i: int|
            0 <= i < chosen.len() ==> key_of(rows[#[trigger] chosen[i]], group_by) == first
                || key_of(rows[chosen[i]], group_by) == second,
        exists|i: int| 0 <= i < chosen.len() && key_of(rows[#[trigger] chosen[i]], group_by) == first,
        exists|i: int|
            0 <= i < chosen.len() && key_of(rows[#[trigger] chosen[i]], group_by) == second,
    ensures
        keys_seen(rows, chosen, group_by, chosen.len()).len() == 2,
{
    let keys = keys_seen(rows, chosen, group_by, chosen.len());
    lemma_keys_seen(rows, chosen, group_by, chosen.len());
    lemma_every_key_is_of_a_row(rows, chosen, group_by, chosen.len());
    let a = choose|i: int| 0 <= i < chosen.len() && key_of(rows[#[trigger] chosen[i]], group_by) == first;
    let b = choose|i: int|
        0 <= i < chosen.len() && key_of(rows[#[trigger] chosen[i]], group_by) == second;
    assert(keys.contains(key_of(rows[chosen[a]], group_by)));
    assert(keys.contains(key_of(rows[chosen[b]], group_by)));
    let at_first = choose|g: int| 0 <= g < keys.len() && keys[g] == first;
    let at_second = choose|g: int| 0 <= g < keys.len() && keys[g] == second;
    assert(at_first != at_second);
    assert forall|g: int| 0 <= g < keys.len() implies #[trigger] keys[g] == first || keys[g]
        == second by {
        let i = choose|i: int|
            0 <= i < chosen.len() && key_of(rows[chosen[i]], group_by) == keys[g];
        assert(key_of(rows[chosen[i]], group_by) == first || key_of(rows[chosen[i]], group_by)
            == second);
    }
    if keys.len() > 2 {
        assert(keys[0] == first || keys[0] == second);
        assert(keys[1] == first || keys[1] == second);
        assert(keys[2] == first || keys[2] == second);
        assert(keys[0] != keys[1] && keys[0] != keys[2] && keys[1] != keys[2]);
    }
}

/// Every key has a value for each property that the query groups by.
pub proof fn lemma_keys_have_the_length(
    rows: Seq<Seq<(Seq<char>, PropertyModel)>>,
    chosen: Seq<int>,
    group_by: Seq<Seq<char>>,
    n: nat,
    g: int,
)
    requires
        n <= chosen.len(),
        0 <= g < keys_seen(rows, chosen, group_by, n).len(),
    ensures
        keys_seen(rows, chosen, group_by, n)[g].len() == group_by.len(),
    decreases n,
{
    if n > 0 {
        let before = keys_seen(rows, chosen, group_by, (n - 1) as nat);
        if g < before.len() {
            lemma_keys_have_the_length(rows, chosen, group_by, (n - 1) as nat, g);
        }
    }
}

} // verus!
