//! The stored form of an object: the document that the search store writes for its
//! properties, and the reading that gives the properties back.
//!
//! JSON tells strings, numbers, truth values, nulls, arrays and objects apart, and no
//! more. A date, a reference and a geometry are all written as strings, a mapping and
//! an object both as objects. So that every value comes back as the kind that it was
//! written as, the document carries beside the properties one more member, named
//! `@kinds`, that says for each property what JSON does not say. The properties
//! themselves stand in the document as plain JSON, as the engine needs them to search.

use vstd::prelude::*;
use vstd::string::*;
use crate::assoc::{
    distinct_names, find_name, lemma_position, lemma_position_by_names, lemma_put, lookup, named,
    position, put,
};
use crate::json::{
    is_number_text, json_models, json_of, jsons_of, member_models, members_of,
    property_from_json, property_of, JsonModel, JsonValue,
};
use crate::property::{entry_models, models_of, PropertyMap, PropertyModel, PropertyValue};
use crate::text::{owned, str_eq};

verus! {

/// The name of the member that says of which kind each property is. No property can
/// have this name.
pub open spec fn kinds_name() -> Seq<char> {
    "@kinds"@
}

/// An object with the one member `tag`.
pub open spec fn tagged(tag: Seq<char>, inner: JsonModel) -> JsonModel {
    JsonModel::Object(seq![(tag, inner)])
}

/// What is to be said of the kinds of a list of values.
pub open spec fn kinds_of_items(items: Seq<PropertyModel>) -> Seq<JsonModel>
    decreases items,
{
    Seq::new(
        items.len(),
        |i: int|
            if 0 <= i < items.len() {
                kinds_of(items[i])
            } else {
                JsonModel::Null
            },
    )
}

/// What is to be said of the kinds of a list of named values.
pub open spec fn kinds_of_entries(entries: Seq<(Seq<char>, PropertyModel)>) -> Seq<
    (Seq<char>, JsonModel),
>
    decreases entries,
{
    Seq::new(
        entries.len(),
        |i: int|
            if 0 <= i < entries.len() {
                (entries[i].0, kinds_of(entries[i].1))
            } else {
                (Seq::<char>::empty(), JsonModel::Null)
            },
    )
}

/// What is to be said of the kind of a value beyond what its JSON says: nothing of a
/// string, a number, a truth value and null; the kind of a date, a date with time, a
/// reference and a geometry; of a list, what is to be said of each item; of a mapping
/// and of an object which of the two it is, and what is to be said of each value.
pub open spec fn kinds_of(m: PropertyModel) -> JsonModel
    decreases m,
{
    match m {
        PropertyModel::Date(_) => JsonModel::String("date"@),
        PropertyModel::DateTime(_) => JsonModel::String("datetime"@),
        PropertyModel::ObjectReference(_) => JsonModel::String("object_reference"@),
        PropertyModel::GeoJSON(_) => JsonModel::String("geojson"@),
        PropertyModel::Array(items) => JsonModel::Array(kinds_of_items(items)),
        PropertyModel::Mapping(entries) => tagged(
            "mapping"@,
            JsonModel::Object(kinds_of_entries(entries)),
        ),
        PropertyModel::Object(entries) => tagged(
            "object"@,
            JsonModel::Object(kinds_of_entries(entries)),
        ),
        _ => JsonModel::Null,
    }
}

/// The value that a JSON string is, by the kind that is said of it.
pub open spec fn text_of_kind(tag: Seq<char>, text: Seq<char>) -> PropertyModel {
    if tag == "date"@ {
        PropertyModel::Date(text)
    } else if tag == "datetime"@ {
        PropertyModel::DateTime(text)
    } else if tag == "object_reference"@ {
        PropertyModel::ObjectReference(text)
    } else if tag == "geojson"@ {
        PropertyModel::GeoJSON(text)
    } else {
        PropertyModel::String(text)
    }
}

/// What is said of the `i`-th item of a list; nothing where the kinds are no list or
/// too short.
pub open spec fn kind_at(kinds: JsonModel, i: int) -> JsonModel {
    match kinds {
        JsonModel::Array(ks) => if 0 <= i < ks.len() {
            ks[i]
        } else {
            JsonModel::Null
        },
        _ => JsonModel::Null,
    }
}

/// What is said of the values of a mapping or an object; nothing where the kinds do
/// not speak of one.
pub open spec fn kinds_under(kinds: JsonModel) -> Seq<(Seq<char>, JsonModel)> {
    match kinds {
        JsonModel::Object(outer) => if outer.len() == 1 {
            match outer[0].1 {
                JsonModel::Object(ks) => ks,
                _ => Seq::<(Seq<char>, JsonModel)>::empty(),
            }
        } else {
            Seq::<(Seq<char>, JsonModel)>::empty()
        },
        _ => Seq::<(Seq<char>, JsonModel)>::empty(),
    }
}

/// Whether the kinds say that a JSON object is an object and no mapping.
pub open spec fn says_object(kinds: JsonModel) -> bool {
    match kinds {
        JsonModel::Object(outer) => outer.len() == 1 && outer[0].0 == "object"@,
        _ => false,
    }
}

/// What is said of the value of a name; nothing where the name is not spoken of.
pub open spec fn named_kind(ks: Seq<(Seq<char>, JsonModel)>, name: Seq<char>) -> JsonModel {
    match lookup(ks, name) {
        Some(kind) => kind,
        None => JsonModel::Null,
    }
}

/// The items of a JSON array, each read by what is said of it.
pub open spec fn read_items(items: Seq<JsonModel>, kinds: JsonModel) -> Seq<PropertyModel>
    decreases items,
{
    Seq::new(
        items.len(),
        |i: int|
            if 0 <= i < items.len() {
                read_with(items[i], kind_at(kinds, i))
            } else {
                PropertyModel::Null
            },
    )
}

/// The members of a JSON object, each read by what is said of its name.
pub open spec fn read_members(
    members: Seq<(Seq<char>, JsonModel)>,
    ks: Seq<(Seq<char>, JsonModel)>,
) -> Seq<(Seq<char>, PropertyModel)>
    decreases members,
{
    Seq::new(
        members.len(),
        |i: int|
            if 0 <= i < members.len() {
                (members[i].0, read_with(members[i].1, named_kind(ks, members[i].0)))
            } else {
                (Seq::<char>::empty(), PropertyModel::Null)
            },
    )
}

/// The value that a JSON document is, read by what is said of its kind. Where nothing
/// is said, a string is a string and an object a mapping.
pub open spec fn read_with(doc: JsonModel, kinds: JsonModel) -> PropertyModel
    decreases doc,
{
    match doc {
        JsonModel::String(text) => match kinds {
            JsonModel::String(tag) => text_of_kind(tag, text),
            _ => PropertyModel::String(text),
        },
        JsonModel::Array(items) => PropertyModel::Array(read_items(items, kinds)),
        JsonModel::Object(members) => if says_object(kinds) {
            PropertyModel::Object(read_members(members, kinds_under(kinds)))
        } else {
            PropertyModel::Mapping(read_members(members, kinds_under(kinds)))
        },
        other => property_of(other),
    }
}

/// Whether a value can be stored: every double in it is a number, and no name stands
/// twice among the values of a mapping or an object in it.
pub open spec fn storable(m: PropertyModel) -> bool
    decreases m,
{
    match m {
        PropertyModel::Double(text) => is_number_text(text),
        PropertyModel::Array(items) => forall|i: int|
            0 <= i < items.len() ==> storable(#[trigger] items[i]),
        PropertyModel::Mapping(entries) => distinct_names(entries) && forall|i: int|
            0 <= i < entries.len() ==> storable((#[trigger] entries[i]).1),
        PropertyModel::Object(entries) => distinct_names(entries) && forall|i: int|
            0 <= i < entries.len() ==> storable((#[trigger] entries[i]).1),
        _ => true,
    }
}

/// The names of the kinds are different texts.
pub proof fn lemma_kind_names_differ()
    ensures
        "date"@ != "datetime"@,
        "date"@ != "object_reference"@,
        "date"@ != "geojson"@,
        "datetime"@ != "object_reference"@,
        "datetime"@ != "geojson"@,
        "object_reference"@ != "geojson"@,
        "mapping"@ != "object"@,
{
    reveal_strlit("date");
    reveal_strlit("datetime");
    reveal_strlit("object_reference");
    reveal_strlit("geojson");
    reveal_strlit("mapping");
    reveal_strlit("object");
    assert("date"@.len() == 4);
    assert("datetime"@.len() == 8);
    assert("object_reference"@.len() == 16);
    assert("geojson"@.len() == 7);
    assert("mapping"@.len() == 7);
    assert("object"@.len() == 6);
}

/// In a list of named values without a name twice, what is said of the name of the
/// `i`-th value is what is to be said of that value.
pub proof fn lemma_named_kind(entries: Seq<(Seq<char>, PropertyModel)>, i: int)
    requires
        distinct_names(entries),
        0 <= i < entries.len(),
    ensures
        named_kind(kinds_of_entries(entries), entries[i].0) == kinds_of(entries[i].1),
{
    let ks = kinds_of_entries(entries);
    let name = entries[i].0;
    lemma_position_by_names(ks, entries, name);
    lemma_position(entries, name);
    let at = position(entries, name);
    if at != i {
        if at < i {
            assert(entries[at].0 != entries[i].0);
        }
    }
    assert(ks[i] == (entries[i].0, kinds_of(entries[i].1)));
}

/// Round trip of a value: every value that can be stored, of whatever kind, is read
/// back from its JSON and what is said of its kind as the value that it is.
pub proof fn lemma_value_round_trip(m: PropertyModel)
    requires
        storable(m),
    ensures
        read_with(json_of(m), kinds_of(m)) == m,
    decreases m,
{
    lemma_kind_names_differ();
    match m {
        PropertyModel::Array(items) => {
            let docs = jsons_of(items);
            let kinds = kinds_of(m);
            assert forall|i: int| 0 <= i < items.len() implies read_with(
                docs[i],
                kind_at(kinds, i),
            ) == items[i] by {
                lemma_value_round_trip(items[i]);
            }
            assert(read_items(docs, kinds) =~= items);
        },
        PropertyModel::Mapping(entries) => {
            let members = members_of(entries);
            let ks = kinds_of_entries(entries);
            assert(kinds_under(kinds_of(m)) == ks);
            assert forall|i: int| 0 <= i < entries.len() implies read_with(
                members[i].1,
                named_kind(ks, members[i].0),
            ) == entries[i].1 by {
                lemma_named_kind(entries, i);
                lemma_value_round_trip(entries[i].1);
            }
            assert(read_members(members, ks) =~= entries);
        },
        PropertyModel::Object(entries) => {
            let members = members_of(entries);
            let ks = kinds_of_entries(entries);
            assert(kinds_under(kinds_of(m)) == ks);
            assert forall|i: int| 0 <= i < entries.len() implies read_with(
                members[i].1,
                named_kind(ks, members[i].0),
            ) == entries[i].1 by {
                lemma_named_kind(entries, i);
                lemma_value_round_trip(entries[i].1);
            }
            assert(read_members(members, ks) =~= entries);
        },
        _ => {},
    }
}

fn kinds_of_list(items: &Vec<PropertyValue>) -> (out: Vec<JsonValue>)
    ensures
        json_models(out@) == kinds_of_items(models_of(items@)),
    decreases items,
{
    let mut out: Vec<JsonValue> = Vec::new();
    let mut i: usize = 0;
    while i < items.len()
        invariant
            i <= items.len(),
            out@.len() == i,
            forall|j: int| 0 <= j < i ==> out@[j]@ == kinds_of(items@[j]@),
        decreases items.len() - i,
    {
        proof {
            vstd::std_specs::vec::axiom_vec_index_decreases(*items, i as int);
        }
        out.push(kinds_of_value(&items[i]));
        i = i + 1;
    }
    proof {
        assert(json_models(out@) =~= kinds_of_items(models_of(items@)));
    }
    out
}

/// What is to be said of the kinds of a list of named values.
pub fn kinds_of_named(entries: &Vec<(String, PropertyValue)>) -> (out: Vec<(String, JsonValue)>)
    ensures
        member_models(out@) == kinds_of_entries(entry_models(entries@)),
    decreases entries,
{
    let mut out: Vec<(String, JsonValue)> = Vec::new();
    let mut i: usize = 0;
    while i < entries.len()
        invariant
            i <= entries.len(),
            out@.len() == i,
            forall|j: int|
                0 <= j < i ==> out@[j].0@ == entries@[j].0@ && out@[j].1@ == kinds_of(
                    entries@[j].1@,
                ),
        decreases entries.len() - i,
    {
        proof {
            vstd::std_specs::vec::axiom_vec_index_decreases(*entries, i as int);
        }
        let name = entries[i].0.clone();
        let kind = kinds_of_value(&entries[i].1);
        out.push((name, kind));
        i = i + 1;
    }
    proof {
        assert(member_models(out@) =~= kinds_of_entries(entry_models(entries@)));
    }
    out
}

fn tag(name: &str, inner: JsonValue) -> (out: JsonValue)
    ensures
        out@ == tagged(name@, inner@),
{
    let mut members: Vec<(String, JsonValue)> = Vec::new();
    members.push((owned(name), inner));
    proof {
        assert(member_models(members@) =~= seq![(name@, inner@)]);
    }
    JsonValue::Object(members)
}

/// What is to be said of the kind of a value beyond what its JSON says.
pub fn kinds_of_value(value: &PropertyValue) -> (kinds: JsonValue)
    ensures
        kinds@ == kinds_of(value@),
    decreases value,
{
    match value {
        PropertyValue::Date(_) => JsonValue::String(owned("date")),
        PropertyValue::DateTime(_) => JsonValue::String(owned("datetime")),
        PropertyValue::ObjectReference(_) => JsonValue::String(owned("object_reference")),
        PropertyValue::GeoJSON(_) => JsonValue::String(owned("geojson")),
        PropertyValue::Array(items) => JsonValue::Array(kinds_of_list(items)),
        PropertyValue::Mapping(entries) => tag("mapping", JsonValue::Object(kinds_of_named(entries))),
        PropertyValue::Object(entries) => tag("object", JsonValue::Object(kinds_of_named(entries))),
        _ => JsonValue::Null,
    }
}

fn read_list(items: &Vec<JsonValue>, kinds: &JsonValue) -> (out: Vec<PropertyValue>)
    ensures
        models_of(out@) == read_items(json_models(items@), kinds@),
    decreases items,
{
    let nothing = JsonValue::Null;
    let mut out: Vec<PropertyValue> = Vec::new();
    let mut i: usize = 0;
    while i < items.len()
        invariant
            i <= items.len(),
            out@.len() == i,
            nothing@ == JsonModel::Null,
            forall|j: int|
                0 <= j < i ==> out@[j]@ == read_with(items@[j]@, kind_at(kinds@, j)),
        decreases items.len() - i,
    {
        proof {
            vstd::std_specs::vec::axiom_vec_index_decreases(*items, i as int);
        }
        let kind: &JsonValue = match kinds {
            JsonValue::Array(ks) => {
                if i < ks.len() {
                    proof {
                        assert(json_models(ks@)[i as int] == ks@[i as int]@);
                    }
                    &ks[i]
                } else {
                    &nothing
                }
            },
            _ => &nothing,
        };
        out.push(read_value(&items[i], kind));
        i = i + 1;
    }
    proof {
        assert(models_of(out@) =~= read_items(json_models(items@), kinds@));
    }
    out
}

/// What is said of the value of a name.
fn kind_named<'a>(ks: &'a Vec<(String, JsonValue)>, name: &str, nothing: &'a JsonValue) -> (kind:
    &'a JsonValue)
    requires
        nothing@ == JsonModel::Null,
    ensures
        kind@ == named_kind(member_models(ks@), name@),
{
    proof {
        assert(named(ks@) =~= member_models(ks@));
    }
    let at = find_name(ks, name);
    if at < ks.len() {
        &ks[at].1
    } else {
        nothing
    }
}

fn read_named(members: &Vec<(String, JsonValue)>, ks: &Vec<(String, JsonValue)>) -> (out: Vec<
    (String, PropertyValue),
>)
    ensures
        entry_models(out@) == read_members(member_models(members@), member_models(ks@)),
    decreases members,
{
    let nothing = JsonValue::Null;
    let mut out: Vec<(String, PropertyValue)> = Vec::new();
    let mut i: usize = 0;
    while i < members.len()
        invariant
            i <= members.len(),
            out@.len() == i,
            nothing@ == JsonModel::Null,
            forall|j: int|
                0 <= j < i ==> out@[j].0@ == members@[j].0@ && out@[j].1@ == read_with(
                    members@[j].1@,
                    named_kind(member_models(ks@), members@[j].0@),
                ),
        decreases members.len() - i,
    {
        proof {
            vstd::std_specs::vec::axiom_vec_index_decreases(*members, i as int);
        }
        let kind = kind_named(ks, members[i].0.as_str(), &nothing);
        let name = members[i].0.clone();
        let value = read_value(&members[i].1, kind);
        out.push((name, value));
        i = i + 1;
    }
    proof {
        assert(entry_models(out@) =~= read_members(member_models(members@), member_models(ks@)));
    }
    out
}

/// What the kinds say of the values of a mapping or an object, and whether they say
/// that it is an object.
fn kinds_below<'a>(kinds: &'a JsonValue, none: &'a Vec<(String, JsonValue)>) -> (out: (
    &'a Vec<(String, JsonValue)>,
    bool,
))
    requires
        member_models(none@) == Seq::<(Seq<char>, JsonModel)>::empty(),
    ensures
        member_models(out.0@) == kinds_under(kinds@),
        out.1 == says_object(kinds@),
{
    match kinds {
        JsonValue::Object(outer) => {
            proof {
                assert(member_models(outer@).len() == outer@.len());
                assert(kinds@ == JsonModel::Object(member_models(outer@)));
            }
            if outer.len() == 1 {
                proof {
                    assert(member_models(outer@)[0] == (outer@[0].0@, outer@[0].1@));
                }
                let is_object = str_eq(outer[0].0.as_str(), "object");
                match &outer[0].1 {
                    JsonValue::Object(inner) => {
                        proof {
                            assert(outer@[0].1@ == JsonModel::Object(member_models(inner@)));
                        }
                        (inner, is_object)
                    },
                    _ => (none, is_object),
                }
            } else {
                (none, false)
            }
        },
        _ => (none, false),
    }
}

/// Reads a JSON document as a value, by what is said of its kind.
pub fn read_value(doc: &JsonValue, kinds: &JsonValue) -> (value: PropertyValue)
    ensures
        value@ == read_with(doc@, kinds@),
    decreases doc,
{
    match doc {
        JsonValue::String(text) => match kinds {
            JsonValue::String(tag) => {
                if str_eq(tag.as_str(), "date") {
                    PropertyValue::Date(text.clone())
                } else if str_eq(tag.as_str(), "datetime") {
                    PropertyValue::DateTime(text.clone())
                } else if str_eq(tag.as_str(), "object_reference") {
                    PropertyValue::ObjectReference(text.clone())
                } else if str_eq(tag.as_str(), "geojson") {
                    PropertyValue::GeoJSON(text.clone())
                } else {
                    PropertyValue::String(text.clone())
                }
            },
            _ => PropertyValue::String(text.clone()),
        },
        JsonValue::Array(items) => PropertyValue::Array(read_list(items, kinds)),
        JsonValue::Object(members) => {
            let none: Vec<(String, JsonValue)> = Vec::new();
            proof {
                assert(member_models(none@) =~= Seq::<(Seq<char>, JsonModel)>::empty());
            }
            let (ks, is_object) = kinds_below(kinds, &none);
            if is_object {
                PropertyValue::Object(read_named(members, ks))
            } else {
                PropertyValue::Mapping(read_named(members, ks))
            }
        },
        other => property_from_json(other),
    }
}

/// The name under which a property stands in the stored document: its own name, with
/// one more `@` before it where it begins with `@`. So no property stands under the
/// name of the member that speaks of kinds, whatever its own name is.
pub open spec fn stored_name(name: Seq<char>) -> Seq<char> {
    if name.len() > 0 && name[0] == '@' {
        "@"@ + name
    } else {
        name
    }
}

/// The name of the property that stands under a name in the stored document.
pub open spec fn property_name(stored: Seq<char>) -> Seq<char> {
    if stored.len() >= 2 && stored[0] == '@' && stored[1] == '@' {
        stored.skip(1)
    } else {
        stored
    }
}

/// The stored name gives the name of the property back, is never the name of the
/// member that speaks of kinds, and is another for another property.
pub proof fn lemma_stored_name(name: Seq<char>)
    ensures
        property_name(stored_name(name)) == name,
        stored_name(name) != kinds_name(),
        forall|other: Seq<char>| stored_name(other) == stored_name(name) ==> other == name,
{
    reveal_strlit("@");
    reveal_strlit("@kinds");
    assert("@"@.len() == 1);
    assert("@"@[0] == '@');
    assert(kinds_name().len() == 6);
    assert(kinds_name()[0] == '@');
    assert(kinds_name()[1] == 'k');
    if name.len() > 0 && name[0] == '@' {
        let written = "@"@ + name;
        assert(written[0] == '@');
        assert(written[1] == name[0]);
        assert(written.skip(1) =~= name);
    } else {
        if name.len() >= 2 {
            assert(name[0] != '@');
        }
    }
    assert forall|other: Seq<char>| stored_name(other) == stored_name(name) implies other
        == name by {
        lemma_stored_name_back(other);
        lemma_stored_name_back(name);
    }
}

/// The stored name gives the name of the property back.
pub proof fn lemma_stored_name_back(name: Seq<char>)
    ensures
        property_name(stored_name(name)) == name,
{
    reveal_strlit("@");
    assert("@"@.len() == 1);
    assert("@"@[0] == '@');
    if name.len() > 0 && name[0] == '@' {
        let written = "@"@ + name;
        assert(written[0] == '@');
        assert(written[1] == name[0]);
        assert(written.skip(1) =~= name);
    } else {
        if name.len() >= 2 {
            assert(name[0] != '@');
        }
    }
}

/// The name under which a property stands in the stored document.
pub fn name_in_store(name: &str) -> (stored: String)
    ensures
        stored@ == stored_name(name@),
{
    let chars = crate::text::chars_of(name);
    if chars.len() > 0 && chars[0] == '@' {
        let mut stored = owned("@");
        stored.append(name);
        stored
    } else {
        owned(name)
    }
}

/// The name of the property that stands under a name in the stored document.
pub fn name_of_stored(stored: &str) -> (name: String)
    ensures
        name@ == property_name(stored@),
{
    let chars = crate::text::chars_of(stored);
    if chars.len() >= 2 && chars[0] == '@' && chars[1] == '@' {
        let name = crate::text::substring(&chars, 1, chars.len());
        proof {
            assert(name@ =~= stored@.skip(1));
        }
        name
    } else {
        owned(stored)
    }
}

/// The members that stand for the properties in the stored document, each under its
/// stored name.
pub open spec fn property_members(properties: Seq<(Seq<char>, PropertyModel)>) -> Seq<
    (Seq<char>, JsonModel),
> {
    Seq::new(
        properties.len(),
        |i: int| (stored_name(properties[i].0), json_of(properties[i].1)),
    )
}

/// What the stored document says of the kinds of the properties, each under its stored
/// name.
pub open spec fn property_kinds(properties: Seq<(Seq<char>, PropertyModel)>) -> Seq<
    (Seq<char>, JsonModel),
> {
    Seq::new(
        properties.len(),
        |i: int| (stored_name(properties[i].0), kinds_of(properties[i].1)),
    )
}

/// The members of the document that is stored for an object: one for each property,
/// then the member that says of which kind each property is.
pub open spec fn stored_members(properties: Seq<(Seq<char>, PropertyModel)>) -> Seq<
    (Seq<char>, JsonModel),
> {
    property_members(properties).push(
        (kinds_name(), JsonModel::Object(property_kinds(properties))),
    )
}

/// The document that is stored for an object.
pub fn stored_document(properties: &PropertyMap) -> (body: JsonValue)
    ensures
        body@ == JsonModel::Object(stored_members(properties@)),
{
    let entries = properties.iter();
    let mut members: Vec<(String, JsonValue)> = Vec::new();
    let mut kinds: Vec<(String, JsonValue)> = Vec::new();
    let mut i: usize = 0;
    while i < entries.len()
        invariant
            i <= entries.len(),
            entry_models(entries@) == properties@,
            members@.len() == i,
            kinds@.len() == i,
            forall|j: int|
                0 <= j < i ==> (#[trigger] members@[j]).0@ == stored_name(entries@[j].0@)
                    && members@[j].1@ == json_of(entries@[j].1@),
            forall|j: int|
                0 <= j < i ==> (#[trigger] kinds@[j]).0@ == stored_name(entries@[j].0@)
                    && kinds@[j].1@ == kinds_of(entries@[j].1@),
        decreases entries.len() - i,
    {
        let name = name_in_store(entries[i].0.as_str());
        members.push((name.clone(), crate::json::property_to_json(&entries[i].1)));
        kinds.push((name, kinds_of_value(&entries[i].1)));
        i = i + 1;
    }
    let ghost before = member_models(members@);
    proof {
        assert forall|j: int| 0 <= j < entries@.len() implies properties@[j] == (
            entries@[j].0@,
            entries@[j].1@,
        ) by {
            assert(entry_models(entries@)[j] == (entries@[j].0@, entries@[j].1@));
        }
        assert(before =~= property_members(properties@));
        assert(member_models(kinds@) =~= property_kinds(properties@));
    }
    members.push((owned("@kinds"), JsonValue::Object(kinds)));
    proof {
        assert(member_models(members@) =~= before.push(
            (kinds_name(), JsonModel::Object(property_kinds(properties@))),
        ));
    }
    JsonValue::Object(members)
}

/// What a stored document says of the kinds of its properties.
pub open spec fn kinds_in(members: Seq<(Seq<char>, JsonModel)>) -> Seq<(Seq<char>, JsonModel)> {
    match lookup(members, kinds_name()) {
        Some(JsonModel::Object(ks)) => ks,
        _ => Seq::<(Seq<char>, JsonModel)>::empty(),
    }
}

/// The properties that the first `n` members of a stored document bind: each member
/// but the one that speaks of kinds, under the name of its property and read by what
/// is said of it; of two members for one property the later is kept.
pub open spec fn bound(members: Seq<(Seq<char>, JsonModel)>, n: nat) -> Seq<
    (Seq<char>, PropertyModel),
>
    decreases n,
{
    if n == 0 || n > members.len() {
        Seq::<(Seq<char>, PropertyModel)>::empty()
    } else if members[n - 1].0 == kinds_name() {
        bound(members, (n - 1) as nat)
    } else {
        put(
            bound(members, (n - 1) as nat),
            property_name(members[n - 1].0),
            read_with(members[n - 1].1, named_kind(kinds_in(members), members[n - 1].0)),
        )
    }
}

/// Reads the properties of an object out of its stored document.
pub fn properties_from_stored(members: &Vec<(String, JsonValue)>) -> (properties: PropertyMap)
    ensures
        properties@ == bound(member_models(members@), members@.len()),
{
    let ghost all = member_models(members@);
    let nothing = JsonValue::Null;
    let none: Vec<(String, JsonValue)> = Vec::new();
    proof {
        assert(named(members@) =~= all);
        assert(member_models(none@) =~= Seq::<(Seq<char>, JsonModel)>::empty());
    }
    let at = find_name(members, "@kinds");
    let ks: &Vec<(String, JsonValue)> = if at < members.len() {
        proof {
            assert(all[at as int].1 == members@[at as int].1@);
        }
        match &members[at].1 {
            JsonValue::Object(inner) => inner,
            _ => &none,
        }
    } else {
        &none
    };
    let mut properties = PropertyMap::new();
    let mut i: usize = 0;
    while i < members.len()
        invariant
            i <= members.len(),
            all == member_models(members@),
            nothing@ == JsonModel::Null,
            member_models(ks@) == kinds_in(all),
            properties@ == bound(all, i as nat),
        decreases members.len() - i,
    {
        proof {
            assert(all[i as int] == (members@[i as int].0@, members@[i as int].1@));
        }
        if !str_eq(members[i].0.as_str(), "@kinds") {
            let kind = kind_named(ks, members[i].0.as_str(), &nothing);
            properties.insert(
                name_of_stored(members[i].0.as_str()),
                read_value(&members[i].1, kind),
            );
        }
        i = i + 1;
    }
    properties
}

/// What a list of entries binds a name to is what it binds the name to among its first
/// entries, or else its last entry where that has the name.
pub proof fn lemma_lookup_push<V>(entries: Seq<(Seq<char>, V)>, last: (Seq<char>, V), name: Seq<char>)
    ensures
        lookup(entries.push(last), name) == match lookup(entries, name) {
            Some(value) => Some(value),
            None => if last.0 == name {
                Some(last.1)
            } else {
                None
            },
        },
{
    let all = entries.push(last);
    assert(all.drop_last() =~= entries);
    lemma_position(entries, name);
    lemma_position(all, name);
}

/// Whether every member stands under a name that the stored document uses: the name
/// of the member that speaks of kinds, or the stored name of a property.
pub open spec fn stored_names(members: Seq<(Seq<char>, JsonModel)>) -> bool {
    forall|i: int|
        0 <= i < members.len() ==> (#[trigger] members[i]).0 == kinds_name() || members[i].0
            == stored_name(property_name(members[i].0))
}

/// What the properties that are read out of the first `n` members of a stored document
/// bind a name to: the value of the first of those members that stands under the
/// stored name of the property, read by what is said of it.
pub proof fn lemma_bound_lookup(members: Seq<(Seq<char>, JsonModel)>, n: nat, name: Seq<char>)
    requires
        distinct_names(members),
        stored_names(members),
        n <= members.len(),
    ensures
        distinct_names(bound(members, n)),
        lookup(bound(members, n), name) == (match lookup(
            members.take(n as int),
            stored_name(name),
        ) {
            Some(doc) => Some(read_with(doc, named_kind(kinds_in(members), stored_name(name)))),
            None => None,
        }),
    decreases n,
{
    lemma_stored_name(name);
    if n == 0 {
        assert(members.take(0) =~= Seq::<(Seq<char>, JsonModel)>::empty());
        lemma_position(bound(members, 0), name);
        lemma_position(members.take(0), stored_name(name));
    } else {
        let before = bound(members, (n - 1) as nat);
        let last = members[n - 1];
        lemma_bound_lookup(members, (n - 1) as nat, name);
        lemma_bound_lookup(members, (n - 1) as nat, property_name(last.0));
        assert(members.take(n as int) =~= members.take(n - 1).push(last));
        lemma_lookup_push(members.take(n - 1), last, stored_name(name));
        if last.0 != kinds_name() {
            let value = read_with(last.1, named_kind(kinds_in(members), last.0));
            lemma_put(before, property_name(last.0), value);
            assert(last.0 == stored_name(property_name(last.0)));
            if property_name(last.0) == name {
                lemma_position(members.take(n - 1), last.0);
                let at = position(members.take(n - 1), last.0);
                if at < n - 1 {
                    assert(members.take(n - 1)[at] == members[at]);
                    assert(members[at].0 != members[n - 1].0);
                }
            } else {
                lemma_stored_name_back(name);
            }
        }
    }
}

/// Where a name stands among the stored names of the properties is where it stands
/// among the properties.
pub proof fn lemma_position_stored<V, W>(
    properties: Seq<(Seq<char>, V)>,
    written: Seq<(Seq<char>, W)>,
    name: Seq<char>,
)
    requires
        written.len() == properties.len(),
        forall|i: int|
            0 <= i < properties.len() ==> (#[trigger] written[i]).0 == stored_name(
                properties[i].0,
            ),
    ensures
        position(written, stored_name(name)) == position(properties, name),
    decreases properties.len(),
{
    if properties.len() > 0 {
        assert forall|i: int| 0 <= i < properties.drop_last().len() implies (
        #[trigger] written.drop_last()[i]).0 == stored_name(properties.drop_last()[i].0) by {
            assert(written.drop_last()[i] == written[i]);
            assert(properties.drop_last()[i] == properties[i]);
        }
        lemma_position_stored(properties.drop_last(), written.drop_last(), name);
        assert(written.last() == written[written.len() - 1]);
        assert(properties.last() == properties[properties.len() - 1]);
        lemma_stored_name(name);
        lemma_stored_name(properties.last().0);
    }
}

/// What the stored document binds the stored name of a property to: the JSON of the
/// value of the property; and what it says of the kind of that value.
pub proof fn lemma_lookup_stored(properties: Seq<(Seq<char>, PropertyModel)>, name: Seq<char>)
    requires
        distinct_names(properties),
    ensures
        lookup(stored_members(properties), stored_name(name)) == match lookup(properties, name) {
            Some(value) => Some(json_of(value)),
            None => None,
        },
        lookup(stored_members(properties), kinds_name()) == Some(
            JsonModel::Object(property_kinds(properties)),
        ),
        lookup(properties, name) matches Some(value) ==> named_kind(
            property_kinds(properties),
            stored_name(name),
        ) == kinds_of(value),
{
    let members = property_members(properties);
    let kinds = property_kinds(properties);
    let sidecar = (kinds_name(), JsonModel::Object(kinds));
    lemma_stored_name(name);
    lemma_position_stored(properties, members, name);
    lemma_position_stored(properties, kinds, name);
    lemma_position(properties, name);
    lemma_position(members, stored_name(name));
    lemma_position(kinds, stored_name(name));
    lemma_lookup_push(members, sidecar, stored_name(name));
    lemma_lookup_push(members, sidecar, kinds_name());
    lemma_position(members, kinds_name());
    if position(members, kinds_name()) < members.len() {
        let at = position(members, kinds_name());
        lemma_stored_name(properties[at].0);
        assert(members[at].0 == stored_name(properties[at].0));
    }
}

/// Round trip of an object: whatever the order in which the engine hands back the
/// members of the document that was stored for the properties of an object, the
/// properties that are read out of it bind every name to the value that the object
/// had under it, of the kind that it had: a string, a whole number, a double, a truth
/// value, a list, a mapping, a geometry, a date, a reference, an object or null.
pub proof fn lemma_object_round_trip(
    properties: Seq<(Seq<char>, PropertyModel)>,
    stored: Seq<(Seq<char>, JsonModel)>,
    name: Seq<char>,
)
    requires
        distinct_names(properties),
        forall|i: int| 0 <= i < properties.len() ==> storable((#[trigger] properties[i]).1),
        distinct_names(stored),
        forall|n: Seq<char>| lookup(stored, n) == lookup(stored_members(properties), n),
    ensures
        lookup(bound(stored, stored.len()), name) == lookup(properties, name),
{
    let written = stored_members(properties);
    lemma_lookup_stored(properties, name);
    assert(kinds_in(stored) == property_kinds(properties));
    assert forall|i: int| 0 <= i < stored.len() implies (#[trigger] stored[i]).0 == kinds_name()
        || stored[i].0 == stored_name(property_name(stored[i].0)) by {
        let key = stored[i].0;
        lemma_position(stored, key);
        let at = position(stored, key);
        if at < i {
            assert(stored[at].0 != stored[i].0);
        }
        assert(lookup(stored, key) is Some);
        assert(lookup(written, key) is Some);
        lemma_position(written, key);
        let w = position(written, key);
        assert(written[w].0 == key);
        if w < properties.len() {
            assert(written[w] == property_members(properties)[w]);
            lemma_stored_name(properties[w].0);
        }
    }
    lemma_bound_lookup(stored, stored.len(), name);
    assert(stored.take(stored.len() as int) =~= stored);
    lemma_position(properties, name);
    let at = position(properties, name);
    if at < properties.len() {
        lemma_value_round_trip(properties[at].1);
    }
}

} // verus!
