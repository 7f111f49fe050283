//! Hydration: turning what a store holds of an object into the object that is shown.

use vstd::prelude::*;
use vstd::string::*;
use crate::assoc::lookup;
use crate::json::{
    is_json_number, is_number_text, json_models, json_parse, member_models, parse_json, JsonModel,
    JsonValue,
};
use crate::meta_model::ObjectType;
use crate::property::{
    entry_models, models_of, text_of, PropertyMap, PropertyModel, PropertyValue,
};
use crate::property_type::Property;
use crate::store::{ErrorKind, IndexedObject, StoreError};
use crate::text::owned;

verus! {

/// Turns indexed objects into objects that are ready to be shown.
#[derive(Debug, Clone, Copy)]
pub struct ObjectHydrator {}

/// An object that is ready to be shown.
#[derive(Debug, Clone)]
pub struct HydratedObject {
    pub object_type: String,
    pub object_id: String,
    pub title: String,
    pub properties: PropertyMap,
}

/// The index of the first of the first `n` properties that is required and not bound,
/// or `n` where there is none.
pub open spec fn first_missing(
    properties: Seq<Property>,
    n: nat,
    bound: Seq<(Seq<char>, PropertyModel)>,
) -> nat
    decreases n,
{
    if n == 0 || n > properties.len() {
        n
    } else {
        let before = first_missing(properties, (n - 1) as nat, bound);
        if before < n - 1 {
            before
        } else if properties[n - 1].required && lookup(bound, properties[n - 1].id@) is None {
            (n - 1) as nat
        } else {
            n
        }
    }
}

/// A missing property found among the first `n` is the first missing among the first
/// `m`.
pub proof fn lemma_first_missing_stays(
    properties: Seq<Property>,
    n: nat,
    m: nat,
    bound: Seq<(Seq<char>, PropertyModel)>,
)
    requires
        n <= m <= properties.len(),
        first_missing(properties, n, bound) < n,
    ensures
        first_missing(properties, m, bound) == first_missing(properties, n, bound),
    decreases m - n,
{
    if n < m {
        lemma_first_missing_stays(properties, n, (m - 1) as nat, bound);
    }
}

/// The message for a required property that an object does not have.
pub open spec fn missing_property_text(property_id: Seq<char>, object_type: Seq<char>) -> Seq<char> {
    "Missing required property '"@ + property_id + "' for object type '"@ + object_type + "'"@
}

/// The title of an object: the display text of the property that titles its type, or
/// its id where the type names no such property or the object does not have it.
pub open spec fn title_of(
    title_key: Option<String>,
    bound: Seq<(Seq<char>, PropertyModel)>,
    object_id: Seq<char>,
) -> Seq<char> {
    match title_key {
        Some(key) => match lookup(bound, key@) {
            Some(value) => text_of(value),
            None => object_id,
        },
        None => object_id,
    }
}

/// The JSON documents of a list of property values, as they are shown.
pub open spec fn shown_items(items: Seq<PropertyModel>) -> Seq<JsonModel>
    decreases items,
{
    Seq::new(
        items.len(),
        |i: int|
            if 0 <= i < items.len() {
                shown_json(items[i])
            } else {
                JsonModel::Null
            },
    )
}

/// The JSON members of a list of named property values, as they are shown.
pub open spec fn shown_members(entries: Seq<(Seq<char>, PropertyModel)>) -> Seq<
    (Seq<char>, JsonModel),
>
    decreases entries,
{
    Seq::new(
        entries.len(),
        |i: int|
            if 0 <= i < entries.len() {
                (entries[i].0, shown_json(entries[i].1))
            } else {
                (Seq::<char>::empty(), JsonModel::Null)
            },
    )
}

/// The JSON document that shows a property value. A geometry is shown as the document
/// that its text holds, or as the text itself where that is no JSON; a double whose
/// text is no number is shown as null.
pub open spec fn shown_json(m: PropertyModel) -> JsonModel
    decreases m,
{
    match m {
        PropertyModel::String(s) => JsonModel::String(s),
        PropertyModel::Integer(i) => JsonModel::Integer(i),
        PropertyModel::Double(t) => if is_number_text(t) {
            JsonModel::Decimal(t)
        } else {
            JsonModel::Null
        },
        PropertyModel::Boolean(b) => JsonModel::Bool(b),
        PropertyModel::Date(s) => JsonModel::String(s),
        PropertyModel::DateTime(s) => JsonModel::String(s),
        PropertyModel::ObjectReference(s) => JsonModel::String(s),
        PropertyModel::GeoJSON(s) => match json_parse(vstd::utf8::encode_utf8(s)) {
            Ok(doc) => doc,
            Err(_) => JsonModel::String(s),
        },
        PropertyModel::Array(items) => JsonModel::Array(shown_items(items)),
        PropertyModel::Mapping(entries) => JsonModel::Object(shown_members(entries)),
        PropertyModel::Object(entries) => JsonModel::Object(shown_members(entries)),
        PropertyModel::Null => JsonModel::Null,
    }
}

fn items_to_shown(items: &Vec<PropertyValue>) -> (out: Vec<JsonValue>)
    ensures
        json_models(out@) == shown_items(models_of(items@)),
    decreases items,
{
    let mut out: Vec<JsonValue> = Vec::new();
    let mut i: usize = 0;
    while i < items.len()
        invariant
            i <= items.len(),
            out@.len() == i,
            forall|j: int| 0 <= j < i ==> out@[j]@ == shown_json(items@[j]@),
        decreases items.len() - i,
    {
        proof {
            vstd::std_specs::vec::axiom_vec_index_decreases(*items, i as int);
        }
        out.push(property_value_to_json(&items[i]));
        i = i + 1;
    }
    proof {
        assert(json_models(out@) =~= shown_items(models_of(items@)));
    }
    out
}

fn entries_to_shown(entries: &Vec<(String, PropertyValue)>) -> (out: Vec<(String, JsonValue)>)
    ensures
        member_models(out@) == shown_members(entry_models(entries@)),
    decreases entries,
{
    let mut out: Vec<(String, JsonValue)> = Vec::new();
    let mut i: usize = 0;
    while i < entries.len()
        invariant
            i <= entries.len(),
            out@.len() == i,
            forall|j: int|
                0 <= j < i ==> out@[j].0@ == entries@[j].0@ && out@[j].1@ == shown_json(
                    entries@[j].1@,
                ),
        decreases entries.len() - i,
    {
        proof {
            vstd::std_specs::vec::axiom_vec_index_decreases(*entries, i as int);
        }
        let name = entries[i].0.clone();
        let value = property_value_to_json(&entries[i].1);
        out.push((name, value));
        i = i + 1;
    }
    proof {
        assert(member_models(out@) =~= shown_members(entry_models(entries@)));
    }
    out
}

/// The JSON document that shows a property value.
pub fn property_value_to_json(value: &PropertyValue) -> (json: JsonValue)
    ensures
        json@ == shown_json(value@),
    decreases value,
{
    match value {
        PropertyValue::String(s) => JsonValue::String(s.clone()),
        PropertyValue::Integer(i) => JsonValue::Integer(*i),
        PropertyValue::Double(t) => if is_json_number(t.as_str()) {
            JsonValue::Decimal(t.clone())
        } else {
            JsonValue::Null
        },
        PropertyValue::Boolean(b) => JsonValue::Bool(*b),
        PropertyValue::Date(s) => JsonValue::String(s.clone()),
        PropertyValue::DateTime(s) => JsonValue::String(s.clone()),
        PropertyValue::ObjectReference(s) => JsonValue::String(s.clone()),
        PropertyValue::GeoJSON(s) => match parse_json(s.as_str().as_bytes()) {
            Ok(doc) => doc,
            Err(_) => JsonValue::String(s.clone()),
        },
        PropertyValue::Array(items) => JsonValue::Array(items_to_shown(items)),
        PropertyValue::Mapping(entries) => JsonValue::Object(entries_to_shown(entries)),
        PropertyValue::Object(entries) => JsonValue::Object(entries_to_shown(entries)),
        PropertyValue::Null => JsonValue::Null,
    }
}

/// Whether the object lacks a property that its type requires.
pub open spec fn lacks_required(indexed: IndexedObject, object_type: ObjectType) -> bool {
    first_missing(object_type.properties@, object_type.properties@.len(), indexed.properties@)
        < object_type.properties@.len()
}

/// Whether `object` is the indexed object hydrated: it has every required property,
/// the same type, id and properties, and the title that its type gives it.
pub open spec fn hydrated_from(
    object: HydratedObject,
    indexed: IndexedObject,
    object_type: ObjectType,
) -> bool {
    &&& !lacks_required(indexed, object_type)
    &&& object.object_type@ == indexed.object_type@
    &&& object.object_id@ == indexed.object_id@
    &&& object.properties@ == indexed.properties@
    &&& object.title@ == title_of(object_type.title_key, indexed.properties@, indexed.object_id@)
}

impl ObjectHydrator {
    /// A hydrator.
    pub fn new() -> (hydrator: Self) {
        ObjectHydrator {  }
    }

    /// Hydrates an indexed object of the given type.
    ///
    /// The error is a query error that names the first required property of the type
    /// that the object does not have, and comes exactly where there is one.
    pub fn hydrate_from_indexed(&self, indexed: &IndexedObject, object_type: &ObjectType) -> (out:
        Result<HydratedObject, StoreError>)
        ensures
            match out {
                Ok(object) => hydrated_from(object, *indexed, *object_type),
                Err(e) => {
                    let at = first_missing(
                        object_type.properties@,
                        object_type.properties@.len(),
                        indexed.properties@,
                    );
                    &&& at < object_type.properties@.len()
                    &&& e@ == (
                        ErrorKind::Query,
                        missing_property_text(
                            object_type.properties@[at as int].id@,
                            object_type.id@,
                        ),
                    )
                },
            },
    {
        let mut i: usize = 0;
        while i < object_type.properties.len()
            invariant
                i <= object_type.properties@.len(),
                first_missing(object_type.properties@, i as nat, indexed.properties@) == i,
            decreases object_type.properties@.len() - i,
        {
            if object_type.properties[i].required && !indexed.properties.contains_key(
                object_type.properties[i].id.as_str(),
            ) {
                proof {
                    lemma_first_missing_stays(
                        object_type.properties@,
                        (i + 1) as nat,
                        object_type.properties@.len(),
                        indexed.properties@,
                    );
                }
                let mut detail = owned(object_type.properties[i].id.as_str());
                detail.append("' for object type '");
                detail.append(object_type.id.as_str());
                detail.append("'");
                proof {
                    assert("Missing required property '"@ + detail@ =~= missing_property_text(
                        object_type.properties@[i as int].id@,
                        object_type.id@,
                    ));
                }
                return Err(
                    StoreError::described(
                        ErrorKind::Query,
                        "Missing required property '",
                        detail.as_str(),
                    ),
                );
            }
            i = i + 1;
        }
        let title = match &object_type.title_key {
            Some(key) => match indexed.properties.get(key.as_str()) {
                Some(value) => value.to_string(),
                None => indexed.object_id.clone(),
            },
            None => indexed.object_id.clone(),
        };
        Ok(
            HydratedObject {
                object_type: indexed.object_type.clone(),
                object_id: indexed.object_id.clone(),
                title,
                properties: indexed.properties.clone(),
            },
        )
    }

    /// Hydrates a batch of indexed objects of one type, in their order.
    ///
    /// The error is that of the first object that lacks a required property.
    pub fn hydrate_batch(&self, indexed_objects: &Vec<IndexedObject>, object_type: &ObjectType) -> (out:
        Result<Vec<HydratedObject>, StoreError>)
        ensures
            match out {
                Ok(objects) => {
                    &&& objects@.len() == indexed_objects@.len()
                    &&& forall|k: int|
                        0 <= k < objects@.len() ==> hydrated_from(
                            #[trigger] objects@[k],
                            indexed_objects@[k],
                            *object_type,
                        )
                },
                Err(e) => exists|k: int|
                    {
                        &&& 0 <= k < indexed_objects@.len()
                        &&& lacks_required(#[trigger] indexed_objects@[k], *object_type)
                        &&& forall|j: int|
                            0 <= j < k ==> !lacks_required(
                                #[trigger] indexed_objects@[j],
                                *object_type,
                            )
                        &&& e@ == (
                            ErrorKind::Query,
                            missing_property_text(
                                object_type.properties@[first_missing(
                                    object_type.properties@,
                                    object_type.properties@.len(),
                                    indexed_objects@[k].properties@,
                                ) as int].id@,
                                object_type.id@,
                            ),
                        )
                    },
            },
    {
        let mut objects: Vec<HydratedObject> = Vec::new();
        let mut i: usize = 0;
        while i < indexed_objects.len()
            invariant
                i <= indexed_objects@.len(),
                objects@.len() == i,
                forall|k: int|
                    0 <= k < i ==> hydrated_from(
                        #[trigger] objects@[k],
                        indexed_objects@[k],
                        *object_type,
                    ),
                forall|j: int|
                    0 <= j < i ==> !lacks_required(#[trigger] indexed_objects@[j], *object_type),
            decreases indexed_objects@.len() - i,
        {
            match self.hydrate_from_indexed(&indexed_objects[i], object_type) {
                Ok(object) => {
                    objects.push(object);
                },
                Err(e) => {
                    proof {
                        assert(lacks_required(indexed_objects@[i as int], *object_type));
                    }
                    return Err(e);
                },
            }
            i = i + 1;
        }
        Ok(objects)
    }
}

impl Default for ObjectHydrator {
    fn default() -> (hydrator: Self) {
        ObjectHydrator::new()
    }
}

/// An object with four members.
pub open spec fn shown_object(
    object_type: Seq<char>,
    object_id: Seq<char>,
    title: Seq<char>,
    properties: Seq<(Seq<char>, PropertyModel)>,
) -> JsonModel {
    JsonModel::Object(
        seq![
            ("object_type"@, JsonModel::String(object_type)),
            ("object_id"@, JsonModel::String(object_id)),
            ("title"@, JsonModel::String(title)),
            ("properties"@, JsonModel::Object(shown_members(properties))),
        ],
    )
}

impl HydratedObject {
    /// The JSON document that shows the object: its type, its id, its title and its
    /// properties.
    pub fn to_json_value(&self) -> (json: JsonValue)
        ensures
            json@ == shown_object(
                self.object_type@,
                self.object_id@,
                self.title@,
                self.properties@,
            ),
    {
        let mut members: Vec<(String, JsonValue)> = Vec::new();
        members.push((owned("object_type"), JsonValue::String(self.object_type.clone())));
        members.push((owned("object_id"), JsonValue::String(self.object_id.clone())));
        members.push((owned("title"), JsonValue::String(self.title.clone())));
        let properties = entries_to_shown(self.properties.iter());
        members.push((owned("properties"), JsonValue::Object(properties)));
        proof {
            assert(member_models(members@) =~= seq![
                ("object_type"@, JsonModel::String(self.object_type@)),
                ("object_id"@, JsonModel::String(self.object_id@)),
                ("title"@, JsonModel::String(self.title@)),
                ("properties"@, JsonModel::Object(shown_members(self.properties@))),
            ]);
        }
        JsonValue::Object(members)
    }
}

} // verus!
