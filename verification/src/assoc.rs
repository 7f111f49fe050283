//! Lists of named values: where a name stands, what it is bound to, and binding it anew.

use vstd::prelude::*;
use vstd::string::*;
use crate::text::str_eq;

verus! {

/// The index of the first entry named `key`, or the length of `entries` where there is none.
pub open spec fn position<V>(entries: Seq<(Seq<char>, V)>, key: Seq<char>) -> int
    decreases entries.len(),
{
    if entries.len() == 0 {
        0
    } else {
        let before = position(entries.drop_last(), key);
        if before < entries.len() - 1 {
            before
        } else if entries.last().0 == key {
            entries.len() - 1
        } else {
            entries.len() as int
        }
    }
}

/// The value of the first entry named `key`.
pub open spec fn lookup<V>(entries: Seq<(Seq<char>, V)>, key: Seq<char>) -> Option<V> {
    let at = position(entries, key);
    if 0 <= at < entries.len() {
        Some(entries[at].1)
    } else {
        None
    }
}

/// `entries` with `key` bound to `value`: in the place of the entry of that name, or at
/// the end where there is none.
pub open spec fn put<V>(
    entries: Seq<(Seq<char>, V)>,
    key: Seq<char>,
    value: V,
) -> Seq<(Seq<char>, V)> {
    let at = position(entries, key);
    if 0 <= at < entries.len() {
        entries.update(at, (key, value))
    } else {
        entries.push((key, value))
    }
}

/// `base` with the first `n` of the entries bound one after the other.
pub open spec fn put_all<V>(base: Seq<(Seq<char>, V)>, entries: Seq<(Seq<char>, V)>, n: nat) -> Seq<
    (Seq<char>, V),
>
    decreases n,
{
    if n == 0 || n > entries.len() {
        base
    } else {
        put(put_all(base, entries, (n - 1) as nat), entries[n - 1].0, entries[n - 1].1)
    }
}

/// No two entries have the same name.
pub open spec fn distinct_names<V>(entries: Seq<(Seq<char>, V)>) -> bool {
    forall|i: int, j: int|
        0 <= i < j < entries.len() ==> (#[trigger] entries[i]).0 != (#[trigger] entries[j]).0
}

/// What `position` says of its result: it is in range, names the first entry of that
/// name, and is the length exactly when no entry has the name.
pub proof fn lemma_position<V>(entries: Seq<(Seq<char>, V)>, key: Seq<char>)
    ensures
        0 <= position(entries, key) <= entries.len(),
        position(entries, key) < entries.len() ==> entries[position(entries, key)].0 == key,
        forall|i: int| 0 <= i < position(entries, key) ==> (#[trigger] entries[i]).0 != key,
    decreases entries.len(),
{
    if entries.len() > 0 {
        lemma_position(entries.drop_last(), key);
        let before = position(entries.drop_last(), key);
        assert forall|i: int| 0 <= i < position(entries, key) implies (#[trigger] entries[i]).0
            != key by {
            if i < entries.len() - 1 {
                assert(entries.drop_last()[i] == entries[i]);
            }
        }
        if before < entries.len() - 1 {
            assert(entries.drop_last()[before] == entries[before]);
        }
    }
}

/// Binding a name keeps the names distinct, and the name is then bound to the value.
pub proof fn lemma_put<V>(
    entries: Seq<(Seq<char>, V)>,
    key: Seq<char>,
    value: V,
)
    requires
        distinct_names(entries),
    ensures
        distinct_names(put(entries, key, value)),
        lookup(put(entries, key, value), key) == Some(value),
        forall|other: Seq<char>|
            other != key ==> lookup(put(entries, key, value), other) == lookup(entries, other),
{
    let after = put(entries, key, value);
    let at = position(entries, key);
    lemma_position(entries, key);
    lemma_position(after, key);
    assert forall|i: int, j: int| 0 <= i < j < after.len() implies (#[trigger] after[i]).0 != (
    #[trigger] after[j]).0 by {
        if at < entries.len() {
            assert(after[i].0 == entries[i].0);
            assert(after[j].0 == entries[j].0);
        } else {
            if j == entries.len() {
                assert(after[i] == entries[i]);
            } else {
                assert(after[i] == entries[i]);
                assert(after[j] == entries[j]);
            }
        }
    }
    assert(after[at].0 == key);
    assert(position(after, key) == at) by {
        if position(after, key) < at {
            let p = position(after, key);
            assert(after[p].0 == key);
            assert(entries[p].0 != key);
            assert(after[p] == entries[p]);
        }
    }
    assert forall|other: Seq<char>| other != key implies lookup(after, other) == lookup(
        entries,
        other,
    ) by {
        lemma_position(entries, other);
        lemma_position(after, other);
        let p = position(entries, other);
        let q = position(after, other);
        if p < entries.len() {
            assert(p != at);
            assert(after[p] == entries[p]);
            if q < p {
                assert(after[q].0 == other);
                assert(q != at);
                assert(after[q] == entries[q]);
            }
            assert(q == p);
        } else {
            if q < after.len() {
                assert(after[q].0 == other);
                assert(q != at);
                assert(after[q] == entries[q]);
            }
        }
    }
}

/// Once an entry named `key` stands at `at` with none before it, `position` stays there
/// however the list goes on.
pub proof fn lemma_found_stays<V>(entries: Seq<(Seq<char>, V)>, key: Seq<char>, at: int)
    requires
        0 <= at < entries.len(),
        position(entries.take(at), key) == at,
        entries[at].0 == key,
    ensures
        position(entries, key) == at,
    decreases entries.len() - at,
{
    let upto = entries.take(at + 1);
    assert(upto.drop_last() =~= entries.take(at));
    assert(upto.last() == entries[at]);
    assert(position(upto, key) == at);
    lemma_prefix_position(entries, key, at + 1);
}

/// A position found inside a prefix is the position in the whole list.
pub proof fn lemma_prefix_position<V>(entries: Seq<(Seq<char>, V)>, key: Seq<char>, n: int)
    requires
        0 <= n <= entries.len(),
        position(entries.take(n), key) < n,
    ensures
        position(entries, key) == position(entries.take(n), key),
    decreases entries.len() - n,
{
    if n < entries.len() {
        let next = entries.take(n + 1);
        assert(next.drop_last() =~= entries.take(n));
        lemma_prefix_position(entries, key, n + 1);
    } else {
        assert(entries.take(n) =~= entries);
    }
}

/// Where a name stands depends on the names alone, not on what they are bound to.
pub proof fn lemma_position_by_names<V, W>(
    a: Seq<(Seq<char>, V)>,
    b: Seq<(Seq<char>, W)>,
    key: Seq<char>,
)
    requires
        a.len() == b.len(),
        forall|i: int| 0 <= i < a.len() ==> (#[trigger] a[i]).0 == (#[trigger] b[i]).0,
    ensures
        position(a, key) == position(b, key),
    decreases a.len(),
{
    if a.len() > 0 {
        assert forall|i: int| 0 <= i < a.drop_last().len() implies (#[trigger] a.drop_last()[i]).0
            == (#[trigger] b.drop_last()[i]).0 by {
            assert(a.drop_last()[i] == a[i]);
            assert(b.drop_last()[i] == b[i]);
        }
        lemma_position_by_names(a.drop_last(), b.drop_last(), key);
        assert(a.last() == a[a.len() - 1]);
        assert(b.last() == b[b.len() - 1]);
    }
}

/// The names of a list of named values, each beside the view of its value.
pub open spec fn named<T: View>(entries: Seq<(String, T)>) -> Seq<(Seq<char>, T::V)> {
    entries.map_values(|e: (String, T)| (e.0@, e.1@))
}

/// The index of the first entry named `key`, or the number of entries where there is none.
pub fn find_name<T: View>(entries: &Vec<(String, T)>, key: &str) -> (at: usize)
    ensures
        at == position(named(entries@), key@),
        at <= entries@.len(),
{
    let ghost all = named(entries@);
    let mut i: usize = 0;
    while i < entries.len()
        invariant
            i <= entries@.len(),
            all == named(entries@),
            position(all.take(i as int), key@) == i,
        decreases entries@.len() - i,
    {
        proof {
            let next = all.take(i + 1);
            assert(next.drop_last() =~= all.take(i as int));
            assert(next.last().0 == entries@[i as int].0@);
        }
        if str_eq(entries[i].0.as_str(), key) {
            proof {
                lemma_found_stays(all, key@, i as int);
            }
            return i;
        }
        i = i + 1;
    }
    proof {
        assert(all.take(entries@.len() as int) =~= all);
    }
    i
}

} // verus!
