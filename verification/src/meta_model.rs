//! The definitions that an ontology is made of: object types, link types, interfaces.

use vstd::prelude::*;
use vstd::string::*;
use crate::link::LinkCardinality;
use crate::property::PropertyValue;
use crate::property_type::Property;
use crate::text::{contains_str, owned, str_eq, views};

verus! {

/// How a function reduces the values that it gathers.
#[derive(Debug, Clone, Copy, PartialEq, Eq, Structural)]
pub enum AggregationType {
    Sum,
    Avg,
    Count,
    Min,
    Max,
}

/// A condition on the objects that a function reaches over links.
#[derive(Debug, Clone)]
pub struct FunctionFilter {
    pub property: String,
    pub operator: String,
    pub value: PropertyValue,
}

/// What a function computes.
#[derive(Debug, Clone)]
pub enum FunctionLogic {
    Aggregation { link_type: String, aggregation: AggregationType, property: String },
    LinkTraversal { link_type: String, target_type: String, filter: Option<FunctionFilter> },
    PropertyAccess { property: String },
}

/// A contract that object types can implement: the properties and the link types that
/// an implementer has to have.
#[derive(Debug, Clone)]
pub struct InterfaceDef {
    pub id: String,
    pub display_name: String,
    pub properties: Vec<Property>,
    pub required_link_types: Vec<String>,
}

/// A kind of object.
#[derive(Debug, Clone)]
pub struct ObjectType {
    pub id: String,
    pub display_name: String,
    /// The id of the property that tells the objects of the type apart.
    pub primary_key: String,
    pub properties: Vec<Property>,
    pub backing_datasource: Option<String>,
    /// The id of the property that titles an object.
    pub title_key: Option<String>,
    /// The ids of the interfaces that the type implements.
    pub implements: Vec<String>,
}

/// A kind of link between the objects of two types.
#[derive(Debug, Clone)]
pub struct LinkTypeDef {
    pub id: String,
    pub display_name: Option<String>,
    /// The id of the object type at the source.
    pub source: String,
    /// The id of the object type at the target.
    pub target: String,
    pub cardinality: LinkCardinality,
    pub properties: Vec<Property>,
    pub bidirectional: bool,
}

/// The ids of a list of properties.
pub open spec fn property_ids(properties: Seq<Property>) -> Seq<Seq<char>> {
    properties.map_values(|p: Property| p.id@)
}

/// The index of the first id that stands in the list before, or the length of the list
/// where no id stands twice.
pub open spec fn first_repeat(ids: Seq<Seq<char>>) -> int
    decreases ids.len(),
{
    if ids.len() == 0 {
        0
    } else {
        let before = first_repeat(ids.drop_last());
        if before < ids.len() - 1 {
            before
        } else if ids.drop_last().contains(ids.last()) {
            ids.len() - 1
        } else {
            ids.len() as int
        }
    }
}

/// The index of the first `id` in the list, or the length of the list.
pub open spec fn first_of(ids: Seq<Seq<char>>, id: Seq<char>) -> int
    decreases ids.len(),
{
    if ids.len() == 0 {
        0
    } else {
        let before = first_of(ids.drop_last(), id);
        if before < ids.len() - 1 {
            before
        } else if ids.last() == id {
            ids.len() - 1
        } else {
            ids.len() as int
        }
    }
}

/// An id found among the first `n` ids is found there among all.
pub proof fn lemma_first_of_stays(ids: Seq<Seq<char>>, id: Seq<char>, n: int)
    requires
        0 <= n <= ids.len(),
        first_of(ids.take(n), id) < n,
    ensures
        first_of(ids, id) == first_of(ids.take(n), id),
    decreases ids.len() - n,
{
    if n < ids.len() {
        let next = ids.take(n + 1);
        assert(next.drop_last() =~= ids.take(n));
        lemma_first_of_stays(ids, id, n + 1);
    } else {
        assert(ids.take(n) =~= ids);
    }
}

/// A repeat found among the first `n` ids is the first repeat among all.
pub proof fn lemma_first_repeat_stays(ids: Seq<Seq<char>>, n: int)
    requires
        0 <= n <= ids.len(),
        first_repeat(ids.take(n)) < n,
    ensures
        first_repeat(ids) == first_repeat(ids.take(n)),
    decreases ids.len() - n,
{
    if n < ids.len() {
        let next = ids.take(n + 1);
        assert(next.drop_last() =~= ids.take(n));
        lemma_first_repeat_stays(ids, n + 1);
    } else {
        assert(ids.take(n) =~= ids);
    }
}

/// Whether the first `n` properties hold one with the id.
fn has_id_before(properties: &Vec<Property>, n: usize, id: &str) -> (found: bool)
    requires
        n <= properties@.len(),
    ensures
        found == property_ids(properties@).take(n as int).contains(id@),
{
    let ghost ids = property_ids(properties@).take(n as int);
    let mut i: usize = 0;
    while i < n
        invariant
            i <= n <= properties@.len(),
            ids == property_ids(properties@).take(n as int),
            forall|k: int| 0 <= k < i ==> ids[k] != id@,
        decreases n - i,
    {
        proof {
            assert(ids[i as int] == properties@[i as int].id@);
        }
        if str_eq(properties[i].id.as_str(), id) {
            return true;
        }
        i = i + 1;
    }
    false
}

/// The index of the first property whose id stands before it, or the number of
/// properties.
fn find_repeat(properties: &Vec<Property>) -> (at: usize)
    ensures
        at == first_repeat(property_ids(properties@)),
        at <= properties@.len(),
{
    let ghost ids = property_ids(properties@);
    let mut i: usize = 0;
    proof {
        assert(ids.take(0) =~= Seq::<Seq<char>>::empty());
    }
    while i < properties.len()
        invariant
            i <= properties@.len(),
            ids == property_ids(properties@),
            first_repeat(ids.take(i as int)) == i,
        decreases properties@.len() - i,
    {
        proof {
            let next = ids.take(i + 1);
            assert(next.drop_last() =~= ids.take(i as int));
            assert(next.last() == properties@[i as int].id@);
        }
        if has_id_before(properties, i, properties[i].id.as_str()) {
            proof {
                lemma_first_repeat_stays(ids, i + 1);
            }
            return i;
        }
        i = i + 1;
    }
    proof {
        assert(ids.take(properties@.len() as int) =~= ids);
    }
    i
}

/// The message for an id that stands twice among the properties of `owner`.
pub open spec fn duplicate_text(property_id: Seq<char>, kind: Seq<char>, owner: Seq<char>) -> Seq<
    char,
> {
    "Duplicate property ID '"@ + property_id + "' in "@ + kind + " '"@ + owner + "'"@
}

fn duplicate_message(property_id: &str, kind: &str, owner: &str) -> (message: String)
    ensures
        message@ == duplicate_text(property_id@, kind@, owner@),
{
    let mut message = owned("Duplicate property ID '");
    message.append(property_id);
    message.append("' in ");
    message.append(kind);
    message.append(" '");
    message.append(owner);
    message.append("'");
    message
}

impl InterfaceDef {
    /// Checks the interface: no two of its properties may have the same id.
    ///
    /// The error names the first property whose id stands before it.
    pub fn validate(&self) -> (out: Result<(), String>)
        ensures
            match out {
                Ok(_) => first_repeat(property_ids(self.properties@)) == self.properties@.len(),
                Err(message) => {
                    let at = first_repeat(property_ids(self.properties@));
                    &&& at < self.properties@.len()
                    &&& message@ == duplicate_text(
                        self.properties@[at].id@,
                        "interface"@,
                        self.id@,
                    )
                },
            },
    {
        let at = find_repeat(&self.properties);
        if at < self.properties.len() {
            Err(duplicate_message(self.properties[at].id.as_str(), "interface", self.id.as_str()))
        } else {
            Ok(())
        }
    }
}

/// The message for a primary key that is no property of the type.
pub open spec fn missing_key_text(primary_key: Seq<char>, owner: Seq<char>) -> Seq<char> {
    "Primary key '"@ + primary_key + "' not found in properties for object type '"@ + owner
        + "'"@
}

impl ObjectType {
    /// The first property with the id.
    pub fn get_property(&self, property_id: &str) -> (found: Option<&Property>)
        ensures
            match found {
                Some(property) => {
                    let at = first_of(property_ids(self.properties@), property_id@);
                    at < self.properties@.len() && *property == self.properties@[at]
                },
                None => first_of(property_ids(self.properties@), property_id@)
                    == self.properties@.len(),
            },
    {
        let ghost ids = property_ids(self.properties@);
        let mut i: usize = 0;
        proof {
            assert(ids.take(0) =~= Seq::<Seq<char>>::empty());
        }
        while i < self.properties.len()
            invariant
                i <= self.properties@.len(),
                ids == property_ids(self.properties@),
                first_of(ids.take(i as int), property_id@) == i,
            decreases self.properties@.len() - i,
        {
            proof {
                let next = ids.take(i + 1);
                assert(next.drop_last() =~= ids.take(i as int));
                assert(next.last() == self.properties@[i as int].id@);
            }
            if str_eq(self.properties[i].id.as_str(), property_id) {
                proof {
                    lemma_first_of_stays(ids, property_id@, i + 1);
                }
                return Some(&self.properties[i]);
            }
            i = i + 1;
        }
        proof {
            assert(ids.take(self.properties@.len() as int) =~= ids);
        }
        None
    }

    /// Checks the object type: its primary key has to be one of its properties, and no
    /// two of its properties may have the same id.
    ///
    /// The error says that the primary key is missing, or else names the first
    /// property whose id stands before it.
    pub fn validate(&self) -> (out: Result<(), String>)
        ensures
            match out {
                Ok(_) => property_ids(self.properties@).contains(self.primary_key@)
                    && first_repeat(property_ids(self.properties@)) == self.properties@.len(),
                Err(message) => if !property_ids(self.properties@).contains(self.primary_key@) {
                    message@ == missing_key_text(self.primary_key@, self.id@)
                } else {
                    let at = first_repeat(property_ids(self.properties@));
                    &&& at < self.properties@.len()
                    &&& message@ == duplicate_text(
                        self.properties@[at].id@,
                        "object type"@,
                        self.id@,
                    )
                },
            },
    {
        proof {
            assert(property_ids(self.properties@).take(self.properties@.len() as int)
                =~= property_ids(self.properties@));
        }
        if !has_id_before(&self.properties, self.properties.len(), self.primary_key.as_str()) {
            let mut message = owned("Primary key '");
            message.append(self.primary_key.as_str());
            message.append("' not found in properties for object type '");
            message.append(self.id.as_str());
            message.append("'");
            return Err(message);
        }
        let at = find_repeat(&self.properties);
        if at < self.properties.len() {
            Err(duplicate_message(self.properties[at].id.as_str(), "object type", self.id.as_str()))
        } else {
            Ok(())
        }
    }
}

/// The message for a link type whose source or target is no object type.
pub open spec fn unknown_end_text(link_type: Seq<char>, end: Seq<char>, object_type: Seq<char>) -> Seq<
    char,
> {
    "Link type '"@ + link_type + "' references unknown "@ + end + " object type '"@ + object_type
        + "'"@
}

fn unknown_end(link_type: &str, end: &str, object_type: &str) -> (message: String)
    ensures
        message@ == unknown_end_text(link_type@, end@, object_type@),
{
    let mut message = owned("Link type '");
    message.append(link_type);
    message.append("' references unknown ");
    message.append(end);
    message.append(" object type '");
    message.append(object_type);
    message.append("'");
    message
}

impl LinkTypeDef {
    /// Checks the link type against the object types that exist: its source and its
    /// target have to be among them.
    ///
    /// The error names the source where it is unknown, or else the target.
    pub fn validate(&self, object_type_ids: &Vec<String>) -> (out: Result<(), String>)
        ensures
            match out {
                Ok(_) => views(object_type_ids@).contains(self.source@) && views(
                    object_type_ids@,
                ).contains(self.target@),
                Err(message) => if !views(object_type_ids@).contains(self.source@) {
                    message@ == unknown_end_text(self.id@, "source"@, self.source@)
                } else {
                    !views(object_type_ids@).contains(self.target@) && message@
                        == unknown_end_text(self.id@, "target"@, self.target@)
                },
            },
    {
        if !contains_str(object_type_ids, self.source.as_str()) {
            return Err(unknown_end(self.id.as_str(), "source", self.source.as_str()));
        }
        if !contains_str(object_type_ids, self.target.as_str()) {
            return Err(unknown_end(self.id.as_str(), "target", self.target.as_str()));
        }
        Ok(())
    }
}

} // verus!
