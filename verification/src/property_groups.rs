//! Groups of properties, for display.

use vstd::prelude::*;
use vstd::string::*;
use crate::text::{contains_str, str_eq, views};

verus! {

/// A group of related properties.
#[derive(Debug, Clone)]
pub struct PropertyGroup {
    pub id: String,
    pub display_name: String,
    pub description: Option<String>,
    /// The ids of the properties of the group.
    pub properties: Vec<String>,
    /// Where the group is shown: a lower number comes first.
    pub order: i32,
    pub collapsible: bool,
    pub collapsed_by_default: bool,
}

impl PropertyGroup {
    /// A group without properties, of order 0, that does not collapse.
    pub fn new(id: String, display_name: String) -> (group: Self)
        ensures
            group.id == id,
            group.display_name == display_name,
            group.description is None,
            group.properties@.len() == 0,
            group.order == 0,
            !group.collapsible,
            !group.collapsed_by_default,
    {
        PropertyGroup {
            id,
            display_name,
            description: None,
            properties: Vec::new(),
            order: 0,
            collapsible: false,
            collapsed_by_default: false,
        }
    }

    /// The group with one more property at the end.
    pub fn with_property(self, property_id: String) -> (group: Self)
        ensures
            group.properties@ == self.properties@.push(property_id),
            group.id == self.id,
            group.display_name == self.display_name,
            group.description == self.description,
            group.order == self.order,
            group.collapsible == self.collapsible,
            group.collapsed_by_default == self.collapsed_by_default,
    {
        let mut group = self;
        group.properties.push(property_id);
        group
    }

    /// The group with another order.
    pub fn with_order(self, order: i32) -> (group: Self)
        ensures
            group.order == order,
            group.id == self.id,
            group.display_name == self.display_name,
            group.description == self.description,
            group.properties == self.properties,
            group.collapsible == self.collapsible,
            group.collapsed_by_default == self.collapsed_by_default,
    {
        let mut group = self;
        group.order = order;
        group
    }
}

/// The groups of an object type.
#[derive(Debug, Clone)]
pub struct PropertyGroupManager {
    pub groups: Vec<PropertyGroup>,
}

/// The index of the first group with the id `id`, or the number of groups.
pub open spec fn group_position(groups: Seq<PropertyGroup>, id: Seq<char>) -> int
    decreases groups.len(),
{
    if groups.len() == 0 {
        0
    } else {
        let before = group_position(groups.drop_last(), id);
        if before < groups.len() - 1 {
            before
        } else if groups.last().id@ == id {
            groups.len() - 1
        } else {
            groups.len() as int
        }
    }
}

/// The groups that hold the property, in order.
pub open spec fn groups_with(groups: Seq<PropertyGroup>, property_id: Seq<char>) -> Seq<
    PropertyGroup,
>
    decreases groups.len(),
{
    if groups.len() == 0 {
        Seq::<PropertyGroup>::empty()
    } else if views(groups.last().properties@).contains(property_id) {
        groups_with(groups.drop_last(), property_id).push(groups.last())
    } else {
        groups_with(groups.drop_last(), property_id)
    }
}

/// Where a group of the given order goes into groups that are in order: behind the
/// last group whose order is not higher.
pub open spec fn slot(sorted: Seq<PropertyGroup>, order: i32) -> int
    decreases sorted.len(),
{
    if sorted.len() == 0 {
        0
    } else if sorted.last().order > order {
        slot(sorted.drop_last(), order)
    } else {
        sorted.len() as int
    }
}

/// The groups by ascending order; groups of one order keep the order in which they
/// were added.
pub open spec fn by_order(groups: Seq<PropertyGroup>) -> Seq<PropertyGroup>
    decreases groups.len(),
{
    if groups.len() == 0 {
        Seq::<PropertyGroup>::empty()
    } else {
        let before = by_order(groups.drop_last());
        before.insert(slot(before, groups.last().order), groups.last())
    }
}

/// Whether no group stands before a group of lower order.
pub open spec fn in_order(groups: Seq<PropertyGroup>) -> bool {
    forall|i: int, j: int| 0 <= i < j < groups.len() ==> groups[i].order <= groups[j].order
}

/// The slot lies in the list; in a list that is in order, no group before the slot has
/// a higher order and every group from the slot on has one.
pub proof fn lemma_slot(sorted: Seq<PropertyGroup>, order: i32)
    requires
        in_order(sorted),
    ensures
        0 <= slot(sorted, order) <= sorted.len(),
        forall|i: int| 0 <= i < slot(sorted, order) ==> sorted[i].order <= order,
        forall|i: int| slot(sorted, order) <= i < sorted.len() ==> sorted[i].order > order,
    decreases sorted.len(),
{
    if sorted.len() > 0 {
        if sorted.last().order > order {
            let rest = sorted.drop_last();
            assert forall|i: int, j: int| 0 <= i < j < rest.len() implies rest[i].order
                <= rest[j].order by {
                assert(rest[i] == sorted[i]);
                assert(rest[j] == sorted[j]);
            }
            lemma_slot(rest, order);
            assert forall|i: int| 0 <= i < slot(sorted, order) implies sorted[i].order
                <= order by {
                assert(rest[i] == sorted[i]);
            }
            assert forall|i: int| slot(sorted, order) <= i < sorted.len() implies sorted[i].order
                > order by {
                if i < rest.len() {
                    assert(rest[i] == sorted[i]);
                }
            }
        } else {
            assert forall|i: int| 0 <= i < sorted.len() implies sorted[i].order <= order by {
                assert(sorted[i].order <= sorted[sorted.len() - 1].order);
            }
        }
    }
}

/// The groups by order are in order, and there are as many of them as there were.
pub proof fn lemma_by_order(groups: Seq<PropertyGroup>)
    ensures
        in_order(by_order(groups)),
        by_order(groups).len() == groups.len(),
    decreases groups.len(),
{
    if groups.len() > 0 {
        lemma_by_order(groups.drop_last());
        let before = by_order(groups.drop_last());
        let last = groups.last();
        lemma_slot(before, last.order);
        let at = slot(before, last.order);
        let after = before.insert(at, last);
        assert forall|i: int, j: int| 0 <= i < j < after.len() implies after[i].order
            <= after[j].order by {
            if j < at {
                assert(after[i] == before[i]);
                assert(after[j] == before[j]);
            } else if j == at {
                assert(after[i] == before[i]);
            } else if i < at {
                assert(after[i] == before[i]);
                assert(after[j] == before[j - 1]);
            } else if i == at {
                assert(after[j] == before[j - 1]);
            } else {
                assert(after[i] == before[i - 1]);
                assert(after[j] == before[j - 1]);
            }
        }
    }
}

/// The groups by order are a rearrangement of the groups: each group stands among them
/// as often as it stood among the groups.
pub proof fn lemma_by_order_rearranges(groups: Seq<PropertyGroup>)
    ensures
        by_order(groups).to_multiset() == groups.to_multiset(),
    decreases groups.len(),
{
    if groups.len() == 0 {
        assert(by_order(groups) =~= groups);
    } else {
        let rest = groups.drop_last();
        let last = groups.last();
        lemma_by_order_rearranges(rest);
        lemma_by_order(rest);
        let before = by_order(rest);
        lemma_slot(before, last.order);
        let at = slot(before, last.order);
        let after = before.insert(at, last);
        assert(after[at] == last);
        assert(after.remove(at) =~= before);
        vstd::seq_lib::to_multiset_remove(after, at);
        assert(after.contains(last));
        after.to_multiset_ensures();
        assert(after.to_multiset() =~= before.to_multiset().insert(last));
        assert(rest.push(last) =~= groups);
        vstd::seq_lib::to_multiset_build(rest, last);
        assert(after.to_multiset() =~= groups.to_multiset());
    }
}

/// The groups that a list of references points to.
pub open spec fn pointed(list: Seq<&PropertyGroup>) -> Seq<PropertyGroup> {
    list.map_values(|g: &PropertyGroup| *g)
}

impl PropertyGroupManager {
    /// A manager without groups.
    pub fn new() -> (manager: Self)
        ensures
            manager.groups@.len() == 0,
    {
        PropertyGroupManager { groups: Vec::new() }
    }

    /// Adds a group at the end.
    pub fn add_group(&mut self, group: PropertyGroup)
        ensures
            final(self).groups@ == old(self).groups@.push(group),
    {
        self.groups.push(group);
    }

    /// The first group with the id `group_id`.
    pub fn get_group(&self, group_id: &str) -> (found: Option<&PropertyGroup>)
        ensures
            match found {
                Some(group) => group_position(self.groups@, group_id@) < self.groups@.len()
                    && *group == self.groups@[group_position(self.groups@, group_id@)],
                None => group_position(self.groups@, group_id@) == self.groups@.len(),
            },
    {
        let mut i: usize = 0;
        proof {
            assert(self.groups@.take(0) =~= Seq::<PropertyGroup>::empty());
        }
        while i < self.groups.len()
            invariant
                i <= self.groups@.len(),
                group_position(self.groups@.take(i as int), group_id@) == i,
            decreases self.groups@.len() - i,
        {
            proof {
                let next = self.groups@.take(i + 1);
                assert(next.drop_last() =~= self.groups@.take(i as int));
                assert(next.last() == self.groups@[i as int]);
            }
            if str_eq(self.groups[i].id.as_str(), group_id) {
                proof {
                    lemma_group_found(self.groups@, group_id@, i + 1);
                }
                return Some(&self.groups[i]);
            }
            i = i + 1;
        }
        proof {
            assert(self.groups@.take(self.groups@.len() as int) =~= self.groups@);
        }
        None
    }

    /// The groups that hold the property, in the order in which they were added.
    pub fn get_groups_for_property(&self, property_id: &str) -> (found: Vec<&PropertyGroup>)
        ensures
            pointed(found@) == groups_with(self.groups@, property_id@),
    {
        let mut found: Vec<&PropertyGroup> = Vec::new();
        let mut i: usize = 0;
        proof {
            assert(self.groups@.take(0) =~= Seq::<PropertyGroup>::empty());
            assert(pointed(found@) =~= Seq::<PropertyGroup>::empty());
        }
        while i < self.groups.len()
            invariant
                i <= self.groups@.len(),
                pointed(found@) == groups_with(self.groups@.take(i as int), property_id@),
            decreases self.groups@.len() - i,
        {
            proof {
                let next = self.groups@.take(i + 1);
                assert(next.drop_last() =~= self.groups@.take(i as int));
                assert(next.last() == self.groups@[i as int]);
            }
            if contains_str(&self.groups[i].properties, property_id) {
                let ghost before = pointed(found@);
                found.push(&self.groups[i]);
                proof {
                    assert(pointed(found@) =~= before.push(self.groups@[i as int]));
                }
            }
            i = i + 1;
        }
        proof {
            assert(self.groups@.take(self.groups@.len() as int) =~= self.groups@);
        }
        found
    }

    /// The groups by ascending order; groups of one order keep the order in which they
    /// were added. They are the groups of the manager, each as often as it was added.
    pub fn get_sorted_groups(&self) -> (sorted: Vec<&PropertyGroup>)
        ensures
            pointed(sorted@) == by_order(self.groups@),
            in_order(pointed(sorted@)),
            sorted@.len() == self.groups@.len(),
            pointed(sorted@).to_multiset() == self.groups@.to_multiset(),
    {
        let mut sorted: Vec<&PropertyGroup> = Vec::new();
        let mut i: usize = 0;
        proof {
            assert(self.groups@.take(0) =~= Seq::<PropertyGroup>::empty());
            assert(pointed(sorted@) =~= Seq::<PropertyGroup>::empty());
        }
        while i < self.groups.len()
            invariant
                i <= self.groups@.len(),
                pointed(sorted@) == by_order(self.groups@.take(i as int)),
                sorted@.len() == i,
            decreases self.groups@.len() - i,
        {
            proof {
                let next = self.groups@.take(i + 1);
                assert(next.drop_last() =~= self.groups@.take(i as int));
                assert(next.last() == self.groups@[i as int]);
            }
            let order = self.groups[i].order;
            let ghost before = pointed(sorted@);
            let mut k: usize = sorted.len();
            proof {
                assert(before.take(k as int) =~= before);
            }
            while k > 0 && sorted[k - 1].order > order
                invariant
                    k <= sorted@.len(),
                    before == pointed(sorted@),
                    slot(before, order) == slot(before.take(k as int), order),
                decreases k,
            {
                proof {
                    let upto = before.take(k as int);
                    assert(upto.drop_last() =~= before.take(k - 1));
                    assert(upto.last() == *sorted@[k - 1]);
                }
                k = k - 1;
            }
            proof {
                let upto = before.take(k as int);
                if k > 0 {
                    assert(upto.last() == *sorted@[k - 1]);
                }
                assert(slot(upto, order) == k);
            }
            sorted.insert(k, &self.groups[i]);
            proof {
                assert(pointed(sorted@) =~= before.insert(k as int, self.groups@[i as int]));
            }
            i = i + 1;
        }
        proof {
            assert(self.groups@.take(self.groups@.len() as int) =~= self.groups@);
            lemma_by_order(self.groups@);
            lemma_by_order_rearranges(self.groups@);
        }
        sorted
    }
}

/// A group found among the first `n` groups is the group found among all.
pub proof fn lemma_group_found(groups: Seq<PropertyGroup>, id: Seq<char>, n: int)
    requires
        0 <= n <= groups.len(),
        group_position(groups.take(n), id) < n,
    ensures
        group_position(groups, id) == group_position(groups.take(n), id),
    decreases groups.len() - n,
{
    if n < groups.len() {
        let next = groups.take(n + 1);
        assert(next.drop_last() =~= groups.take(n));
        lemma_group_found(groups, id, n + 1);
    } else {
        assert(groups.take(n) =~= groups);
    }
}

impl Default for PropertyGroupManager {
    fn default() -> (manager: Self)
        ensures
            manager.groups@.len() == 0,
    {
        PropertyGroupManager::new()
    }
}

} // verus!
