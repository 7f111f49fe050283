//! Runtime property values and the property map of an object.

use vstd::prelude::*;
use vstd::string::*;
use crate::assoc::{distinct_names, find_name, lemma_put, lookup, named, position, put};
use crate::text::{i64_to_string, int_text, join_spec, owned, str_eq};

verus! {

/// The mathematical value of a [`PropertyValue`].
pub enum PropertyModel {
    String(Seq<char>),
    Integer(int),
    Double(Seq<char>),
    Boolean(bool),
    Date(Seq<char>),
    DateTime(Seq<char>),
    ObjectReference(Seq<char>),
    GeoJSON(Seq<char>),
    Array(Seq<PropertyModel>),
    Mapping(Seq<(Seq<char>, PropertyModel)>),
    Object(Seq<(Seq<char>, PropertyModel)>),
    Null,
}

/// A property value at run time.
///
/// A double is held as its decimal text, a date as its ISO 8601 text. A mapping and an
/// object are lists of named values in the order in which they were given.
#[derive(Debug, PartialEq)]
pub enum PropertyValue {
    String(String),
    Integer(i64),
    Double(String),
    Boolean(bool),
    Date(String),
    DateTime(String),
    ObjectReference(String),
    GeoJSON(String),
    Array(Vec<PropertyValue>),
    Mapping(Vec<(String, PropertyValue)>),
    Object(Vec<(String, PropertyValue)>),
    Null,
}

/// The models of a list of values.
pub open spec fn models_of(items: Seq<PropertyValue>) -> Seq<PropertyModel>
    decreases items,
{
    Seq::new(
        items.len(),
        |i: int|
            if 0 <= i < items.len() {
                items[i]@
            } else {
                PropertyModel::Null
            },
    )
}

/// The models of a list of named values.
pub open spec fn entry_models(entries: Seq<(String, PropertyValue)>) -> Seq<
    (Seq<char>, PropertyModel),
>
    decreases entries,
{
    Seq::new(
        entries.len(),
        |i: int|
            if 0 <= i < entries.len() {
                (entries[i].0@, entries[i].1@)
            } else {
                (Seq::<char>::empty(), PropertyModel::Null)
            },
    )
}

impl View for PropertyValue {
    type V = PropertyModel;

    open spec fn view(&self) -> PropertyModel
        decreases self,
    {
        match self {
            PropertyValue::String(s) => PropertyModel::String(s@),
            PropertyValue::Integer(i) => PropertyModel::Integer(*i as int),
            PropertyValue::Double(t) => PropertyModel::Double(t@),
            PropertyValue::Boolean(b) => PropertyModel::Boolean(*b),
            PropertyValue::Date(s) => PropertyModel::Date(s@),
            PropertyValue::DateTime(s) => PropertyModel::DateTime(s@),
            PropertyValue::ObjectReference(s) => PropertyModel::ObjectReference(s@),
            PropertyValue::GeoJSON(s) => PropertyModel::GeoJSON(s@),
            PropertyValue::Array(items) => PropertyModel::Array(models_of(items@)),
            PropertyValue::Mapping(entries) => PropertyModel::Mapping(entry_models(entries@)),
            PropertyValue::Object(entries) => PropertyModel::Object(entry_models(entries@)),
            PropertyValue::Null => PropertyModel::Null,
        }
    }
}

/// The texts of a list of values.
pub open spec fn texts_of(items: Seq<PropertyModel>) -> Seq<Seq<char>>
    decreases items,
{
    Seq::new(
        items.len(),
        |i: int|
            if 0 <= i < items.len() {
                text_of(items[i])
            } else {
                Seq::<char>::empty()
            },
    )
}

/// The texts of a list of named values: the name, a colon and a blank, then the value.
pub open spec fn entry_texts(entries: Seq<(Seq<char>, PropertyModel)>) -> Seq<Seq<char>>
    decreases entries,
{
    Seq::new(
        entries.len(),
        |i: int|
            if 0 <= i < entries.len() {
                entries[i].0 + ": "@ + text_of(entries[i].1)
            } else {
                Seq::<char>::empty()
            },
    )
}

/// The display text of a value: a string as it is, a number in decimal, a list in square
/// brackets and named values in braces, each separated by a comma and a blank.
pub open spec fn text_of(m: PropertyModel) -> Seq<char>
    decreases m,
{
    match m {
        PropertyModel::String(s) => s,
        PropertyModel::Integer(i) => int_text(i),
        PropertyModel::Double(t) => t,
        PropertyModel::Boolean(b) => if b {
            "true"@
        } else {
            "false"@
        },
        PropertyModel::Date(s) => s,
        PropertyModel::DateTime(s) => s,
        PropertyModel::ObjectReference(s) => s,
        PropertyModel::GeoJSON(s) => s,
        PropertyModel::Array(items) => "["@ + join_spec(texts_of(items), ", "@) + "]"@,
        PropertyModel::Mapping(entries) => "{"@ + join_spec(entry_texts(entries), ", "@) + "}"@,
        PropertyModel::Object(entries) => "{"@ + join_spec(entry_texts(entries), ", "@) + "}"@,
        PropertyModel::Null => "null"@,
    }
}

/// A copy of a list of values.
fn clone_items(items: &Vec<PropertyValue>) -> (copy: Vec<PropertyValue>)
    ensures
        models_of(copy@) == models_of(items@),
    decreases items,
{
    let mut copy: Vec<PropertyValue> = Vec::new();
    let mut i: usize = 0;
    while i < items.len()
        invariant
            i <= items.len(),
            copy@.len() == i,
            forall|j: int| 0 <= j < i ==> copy@[j]@ == items@[j]@,
        decreases items.len() - i,
    {
        proof {
            vstd::std_specs::vec::axiom_vec_index_decreases(*items, i as int);
        }
        copy.push(items[i].clone());
        i = i + 1;
    }
    proof {
        assert(models_of(copy@) =~= models_of(items@));
    }
    copy
}

/// A copy of a list of named values.
fn clone_entries(entries: &Vec<(String, PropertyValue)>) -> (copy: Vec<(String, PropertyValue)>)
    ensures
        entry_models(copy@) == entry_models(entries@),
    decreases entries,
{
    let mut copy: Vec<(String, PropertyValue)> = Vec::new();
    let mut i: usize = 0;
    while i < entries.len()
        invariant
            i <= entries.len(),
            copy@.len() == i,
            forall|j: int|
                0 <= j < i ==> copy@[j].0@ == entries@[j].0@ && copy@[j].1@ == entries@[j].1@,
        decreases entries.len() - i,
    {
        proof {
            vstd::std_specs::vec::axiom_vec_index_decreases(*entries, i as int);
        }
        let name = entries[i].0.clone();
        let value = entries[i].1.clone();
        copy.push((name, value));
        i = i + 1;
    }
    proof {
        assert(entry_models(copy@) =~= entry_models(entries@));
    }
    copy
}

impl Clone for PropertyValue {
    fn clone(&self) -> (out: Self)
        ensures
            out@ == self@,
        decreases self,
    {
        match self {
            PropertyValue::String(s) => PropertyValue::String(s.clone()),
            PropertyValue::Integer(i) => PropertyValue::Integer(*i),
            PropertyValue::Double(t) => PropertyValue::Double(t.clone()),
            PropertyValue::Boolean(b) => PropertyValue::Boolean(*b),
            PropertyValue::Date(s) => PropertyValue::Date(s.clone()),
            PropertyValue::DateTime(s) => PropertyValue::DateTime(s.clone()),
            PropertyValue::ObjectReference(s) => PropertyValue::ObjectReference(s.clone()),
            PropertyValue::GeoJSON(s) => PropertyValue::GeoJSON(s.clone()),
            PropertyValue::Array(items) => PropertyValue::Array(clone_items(items)),
            PropertyValue::Mapping(entries) => PropertyValue::Mapping(clone_entries(entries)),
            PropertyValue::Object(entries) => PropertyValue::Object(clone_entries(entries)),
            PropertyValue::Null => PropertyValue::Null,
        }
    }
}

/// The display text of a list of named values, in braces.
fn entries_to_string(entries: &Vec<(String, PropertyValue)>) -> (out: String)
    ensures
        out@ == "{"@ + join_spec(entry_texts(entry_models(entries@)), ", "@) + "}"@,
    decreases entries,
{
    let ghost parts = entry_texts(entry_models(entries@));
    let mut out = owned("{");
    let mut i: usize = 0;
    while i < entries.len()
        invariant
            i <= entries.len(),
            parts == entry_texts(entry_models(entries@)),
            out@ == "{"@ + join_spec(parts.take(i as int), ", "@),
        decreases entries.len() - i,
    {
        proof {
            vstd::std_specs::vec::axiom_vec_index_decreases(*entries, i as int);
            let next = parts.take(i + 1);
            assert(next.drop_last() =~= parts.take(i as int));
            assert(next.last() == entries@[i as int].0@ + ": "@ + text_of(entries@[i as int].1@));
        }
        if i > 0 {
            out.append(", ");
        }
        out.append(entries[i].0.as_str());
        out.append(": ");
        let value = entries[i].1.to_string();
        out.append(value.as_str());
        proof {
            assert(out@ =~= "{"@ + join_spec(parts.take(i + 1), ", "@));
        }
        i = i + 1;
    }
    proof {
        assert(parts.take(entries@.len() as int) =~= parts);
    }
    out.append("}");
    out
}

/// Whether two lists hold the same values in the same order.
pub fn same_items(a: &Vec<PropertyValue>, b: &Vec<PropertyValue>) -> (same: bool)
    ensures
        same == (models_of(a@) == models_of(b@)),
    decreases a,
{
    if a.len() != b.len() {
        proof {
            assert(models_of(a@).len() != models_of(b@).len());
        }
        return false;
    }
    let mut i: usize = 0;
    while i < a.len()
        invariant
            i <= a.len(),
            a@.len() == b@.len(),
            forall|k: int| 0 <= k < i ==> a@[k]@ == b@[k]@,
        decreases a.len() - i,
    {
        proof {
            vstd::std_specs::vec::axiom_vec_index_decreases(*a, i as int);
        }
        if !a[i].same_as(&b[i]) {
            proof {
                assert(models_of(a@)[i as int] != models_of(b@)[i as int]);
            }
            return false;
        }
        i = i + 1;
    }
    proof {
        assert(models_of(a@) =~= models_of(b@));
    }
    true
}

fn same_entries(a: &Vec<(String, PropertyValue)>, b: &Vec<(String, PropertyValue)>) -> (same: bool)
    ensures
        same == (entry_models(a@) == entry_models(b@)),
    decreases a,
{
    if a.len() != b.len() {
        proof {
            assert(entry_models(a@).len() != entry_models(b@).len());
        }
        return false;
    }
    let mut i: usize = 0;
    while i < a.len()
        invariant
            i <= a.len(),
            a@.len() == b@.len(),
            forall|k: int| 0 <= k < i ==> a@[k].0@ == b@[k].0@ && a@[k].1@ == b@[k].1@,
        decreases a.len() - i,
    {
        proof {
            vstd::std_specs::vec::axiom_vec_index_decreases(*a, i as int);
        }
        if !str_eq(a[i].0.as_str(), b[i].0.as_str()) || !a[i].1.same_as(&b[i].1) {
            proof {
                assert(entry_models(a@)[i as int] != entry_models(b@)[i as int]);
            }
            return false;
        }
        i = i + 1;
    }
    proof {
        assert(entry_models(a@) =~= entry_models(b@));
    }
    true
}

impl PropertyValue {
    /// Whether the two values are the same value.
    pub fn same_as(&self, other: &PropertyValue) -> (same: bool)
        ensures
            same == (self@ == other@),
        decreases self,
    {
        match self {
            PropertyValue::String(a) => match other {
                PropertyValue::String(b) => str_eq(a.as_str(), b.as_str()),
                _ => false,
            },
            PropertyValue::Integer(a) => match other {
                PropertyValue::Integer(b) => *a == *b,
                _ => false,
            },
            PropertyValue::Double(a) => match other {
                PropertyValue::Double(b) => str_eq(a.as_str(), b.as_str()),
                _ => false,
            },
            PropertyValue::Boolean(a) => match other {
                PropertyValue::Boolean(b) => *a == *b,
                _ => false,
            },
            PropertyValue::Date(a) => match other {
                PropertyValue::Date(b) => str_eq(a.as_str(), b.as_str()),
                _ => false,
            },
            PropertyValue::DateTime(a) => match other {
                PropertyValue::DateTime(b) => str_eq(a.as_str(), b.as_str()),
                _ => false,
            },
            PropertyValue::ObjectReference(a) => match other {
                PropertyValue::ObjectReference(b) => str_eq(a.as_str(), b.as_str()),
                _ => false,
            },
            PropertyValue::GeoJSON(a) => match other {
                PropertyValue::GeoJSON(b) => str_eq(a.as_str(), b.as_str()),
                _ => false,
            },
            PropertyValue::Array(a) => match other {
                PropertyValue::Array(b) => same_items(a, b),
                _ => false,
            },
            PropertyValue::Mapping(a) => match other {
                PropertyValue::Mapping(b) => same_entries(a, b),
                _ => false,
            },
            PropertyValue::Object(a) => match other {
                PropertyValue::Object(b) => same_entries(a, b),
                _ => false,
            },
            PropertyValue::Null => match other {
                PropertyValue::Null => true,
                _ => false,
            },
        }
    }

    /// The display text of the value.
    pub fn to_string(&self) -> (out: String)
        ensures
            out@ == text_of(self@),
        decreases self,
    {
        match self {
            PropertyValue::String(s) => s.clone(),
            PropertyValue::Integer(i) => i64_to_string(*i),
            PropertyValue::Double(t) => t.clone(),
            PropertyValue::Boolean(b) => if *b {
                owned("true")
            } else {
                owned("false")
            },
            PropertyValue::Date(s) => s.clone(),
            PropertyValue::DateTime(s) => s.clone(),
            PropertyValue::ObjectReference(s) => s.clone(),
            PropertyValue::GeoJSON(s) => s.clone(),
            PropertyValue::Array(items) => {
                let ghost parts = texts_of(models_of(items@));
                let mut out = owned("[");
                let mut i: usize = 0;
                while i < items.len()
                    invariant
                        decreases_to!(self => items),
                        i <= items.len(),
                        parts == texts_of(models_of(items@)),
                        out@ == "["@ + join_spec(parts.take(i as int), ", "@),
                    decreases items.len() - i,
                {
                    proof {
                        vstd::std_specs::vec::axiom_vec_index_decreases(*items, i as int);
                        let next = parts.take(i + 1);
                        assert(next.drop_last() =~= parts.take(i as int));
                        assert(next.last() == text_of(items@[i as int]@));
                    }
                    if i > 0 {
                        out.append(", ");
                    }
                    let value = items[i].to_string();
                    out.append(value.as_str());
                    proof {
                        assert(out@ =~= "["@ + join_spec(parts.take(i + 1), ", "@));
                    }
                    i = i + 1;
                }
                proof {
                    assert(parts.take(items@.len() as int) =~= parts);
                }
                out.append("]");
                out
            },
            PropertyValue::Mapping(entries) => entries_to_string(entries),
            PropertyValue::Object(entries) => entries_to_string(entries),
            PropertyValue::Null => owned("null"),
        }
    }

    /// Whether the value is the null value.
    pub fn is_null(&self) -> (null: bool)
        ensures
            null == (self@ == PropertyModel::Null),
    {
        match self {
            PropertyValue::Null => true,
            _ => false,
        }
    }
}

/// The properties of an object at run time: names bound to values, no name twice.
///
/// The entries keep the order in which their names were first bound.
#[derive(Debug)]
pub struct PropertyMap {
    properties: Vec<(String, PropertyValue)>,
}

impl View for PropertyMap {
    type V = Seq<(Seq<char>, PropertyModel)>;

    closed spec fn view(&self) -> Seq<(Seq<char>, PropertyModel)> {
        entry_models(self.properties@)
    }
}

impl PropertyMap {
    #[verifier::type_invariant]
    spec fn names_are_distinct(self) -> bool {
        distinct_names(entry_models(self.properties@))
    }

    /// A map without entries.
    pub fn new() -> (map: Self)
        ensures
            map@ == Seq::<(Seq<char>, PropertyModel)>::empty(),
    {
        let map = PropertyMap { properties: Vec::new() };
        proof {
            assert(entry_models(map.properties@) =~= Seq::<(Seq<char>, PropertyModel)>::empty());
        }
        map
    }

    /// The index of the first entry named `key`, or the number of entries.
    fn find(&self, key: &str) -> (at: usize)
        ensures
            at == position(self@, key@),
            at <= self.properties@.len(),
    {
        proof {
            assert(named(self.properties@) =~= entry_models(self.properties@));
        }
        find_name(&self.properties, key)
    }

    /// Binds `key` to `value`. An entry of that name keeps its place and gets the new value.
    pub fn insert(&mut self, key: String, value: PropertyValue)
        ensures
            final(self)@ == put(old(self)@, key@, value@),
    {
        proof {
            use_type_invariant(&*self);
            lemma_put(self@, key@, value@);
        }
        let at = self.find(key.as_str());
        let mut taken = PropertyMap { properties: Vec::new() };
        core::mem::swap(self, &mut taken);
        let mut entries = taken.properties;
        let ghost before = entry_models(entries@);
        if at < entries.len() {
            entries[at] = (key, value);
        } else {
            entries.push((key, value));
        }
        proof {
            assert(entry_models(entries@) =~= put(before, key@, value@));
        }
        *self = PropertyMap { properties: entries };
    }

    /// The value bound to `key`.
    pub fn get(&self, key: &str) -> (found: Option<&PropertyValue>)
        ensures
            match found {
                Some(value) => lookup(self@, key@) == Some(value@),
                None => lookup(self@, key@) is None,
            },
    {
        let at = self.find(key);
        if at < self.properties.len() {
            Some(&self.properties[at].1)
        } else {
            None
        }
    }

    /// Whether `key` is bound.
    pub fn contains_key(&self, key: &str) -> (bound: bool)
        ensures
            bound == lookup(self@, key@).is_some(),
    {
        let at = self.find(key);
        at < self.properties.len()
    }

    /// The entries in order.
    pub fn iter(&self) -> (entries: &Vec<(String, PropertyValue)>)
        ensures
            entry_models(entries@) == self@,
            distinct_names(self@),
    {
        proof {
            use_type_invariant(self);
        }
        &self.properties
    }

    /// The number of entries.
    pub fn len(&self) -> (n: usize)
        ensures
            n == self@.len(),
    {
        self.properties.len()
    }

    /// Whether the map has no entry.
    pub fn is_empty(&self) -> (empty: bool)
        ensures
            empty == (self@.len() == 0),
    {
        self.properties.len() == 0
    }
}

impl Clone for PropertyMap {
    fn clone(&self) -> (out: Self)
        ensures
            out@ == self@,
    {
        proof {
            use_type_invariant(self);
        }
        PropertyMap { properties: clone_entries(&self.properties) }
    }
}

impl Default for PropertyMap {
    fn default() -> (map: Self)
        ensures
            map@ == Seq::<(Seq<char>, PropertyModel)>::empty(),
    {
        PropertyMap::new()
    }
}

} // verus!
