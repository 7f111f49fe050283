//! JSON documents as the library holds them, their text, and the property values they carry.

use vstd::prelude::*;
use vstd::string::*;
use crate::assoc::{find_name, lookup, named};
use crate::property::{entry_models, models_of, PropertyModel, PropertyValue};


verus! {

/// A parsed JSON document of the `serde_json` crate.
#[verifier::external_type_specification]
#[verifier::external_body]
pub struct ExJsonTree(serde_json::Value);

/// The mathematical value of a [`JsonValue`].
pub enum JsonModel {
    Null,
    Bool(bool),
    Integer(int),
    Decimal(Seq<char>),
    String(Seq<char>),
    Array(Seq<JsonModel>),
    Object(Seq<(Seq<char>, JsonModel)>),
}

/// A JSON document.
///
/// A number that is no 64-bit signed integer is held as its JSON text. The members of an
/// object are a list: those of a document that was built are in the order in which
/// they were given, those of a document that was parsed in the order of their names.
#[derive(Debug, PartialEq)]
pub enum JsonValue {
    Null,
    Bool(bool),
    Integer(i64),
    Decimal(String),
    String(String),
    Array(Vec<JsonValue>),
    Object(Vec<(String, JsonValue)>),
}

/// The models of a list of documents.
pub open spec fn json_models(items: Seq<JsonValue>) -> Seq<JsonModel>
    decreases items,
{
    Seq::new(
        items.len(),
        |i: int|
            if 0 <= i < items.len() {
                items[i]@
            } else {
                JsonModel::Null
            },
    )
}

/// The models of the members of an object.
pub open spec fn member_models(entries: Seq<(String, JsonValue)>) -> Seq<(Seq<char>, JsonModel)>
    decreases entries,
{
    Seq::new(
        entries.len(),
        |i: int|
            if 0 <= i < entries.len() {
                (entries[i].0@, entries[i].1@)
            } else {
                (Seq::<char>::empty(), JsonModel::Null)
            },
    )
}

impl View for JsonValue {
    type V = JsonModel;

    open spec fn view(&self) -> JsonModel
        decreases self,
    {
        match self {
            JsonValue::Null => JsonModel::Null,
            JsonValue::Bool(b) => JsonModel::Bool(*b),
            JsonValue::Integer(i) => JsonModel::Integer(*i as int),
            JsonValue::Decimal(t) => JsonModel::Decimal(t@),
            JsonValue::String(s) => JsonModel::String(s@),
            JsonValue::Array(items) => JsonModel::Array(json_models(items@)),
            JsonValue::Object(entries) => JsonModel::Object(member_models(entries@)),
        }
    }
}

/// What `serde_json::from_slice` makes of a byte string: the document, or the text of
/// the error.
pub uninterp spec fn json_parse(bytes: Seq<u8>) -> Result<JsonModel, Seq<char>>;

/// The document that a `serde_json::Value` holds.
pub uninterp spec fn tree_model(tree: serde_json::Value) -> JsonModel;

/// The text that `serde_json::to_string` writes for a `serde_json::Value`.
pub uninterp spec fn written_text(tree: serde_json::Value) -> Seq<char>;

/// The compact JSON text of a document: what `serde_json::to_string` writes for the
/// `serde_json::Value` that is built from it.
pub uninterp spec fn json_text(doc: JsonModel) -> Seq<char>;

/// `serde_json::from_slice` at type `serde_json::Value`. The result depends on the bytes
/// alone; the error is handed back as the text that its `Display` impl writes.
#[verifier::external_body]
fn decode_json(bytes: &[u8]) -> (out: Result<serde_json::Value, String>)
    ensures
        match out {
            Ok(tree) => json_parse(bytes@) == Ok::<JsonModel, Seq<char>>(tree_model(tree)),
            Err(e) => json_parse(bytes@) == Err::<JsonModel, Seq<char>>(e@),
        },
{
    serde_json::from_slice::<serde_json::Value>(bytes).map_err(|e| e.to_string())
}

/// Copies a `serde_json::Value` into a [`JsonValue`], variant by variant. A number that
/// `Number::as_i64` gives as an integer becomes `Integer`, any other `Decimal` with the
/// text that `Number`'s `Display` impl writes; members come in the order of `Map::iter`.
#[verifier::external_body]
fn from_outside(tree: &serde_json::Value) -> (out: JsonValue)
    ensures
        out@ == tree_model(*tree),
{
    match tree {
        serde_json::Value::Null => JsonValue::Null,
        serde_json::Value::Bool(b) => JsonValue::Bool(*b),
        serde_json::Value::Number(n) => n.as_i64().map_or(JsonValue::Decimal(n.to_string()), JsonValue::Integer),
        serde_json::Value::String(s) => JsonValue::String(s.clone()),
        serde_json::Value::Array(a) => JsonValue::Array(a.iter().map(from_outside).collect()),
        serde_json::Value::Object(o) => JsonValue::Object(o.iter().map(|(k, v)| (k.clone(), from_outside(v))).collect()),
    }
}

/// Builds the `serde_json::Value` of a document, variant by variant. A number that
/// `serde_json::from_str` does not read as a `Number` becomes null; the members of an
/// object go into a `serde_json::Map`, which keeps one member for each name. The text
/// that is written for the value depends on the document alone.
#[verifier::external_body]
fn to_outside(doc: &JsonValue) -> (tree: serde_json::Value)
    ensures
        written_text(tree) == json_text(doc@),
{
    match doc {
        JsonValue::Null => serde_json::Value::Null,
        JsonValue::Bool(b) => serde_json::Value::Bool(*b),
        JsonValue::Integer(i) => serde_json::Value::from(*i),
        JsonValue::Decimal(t) => serde_json::from_str::<serde_json::Number>(t).map_or(serde_json::Value::Null, serde_json::Value::Number),
        JsonValue::String(s) => serde_json::Value::String(s.clone()),
        JsonValue::Array(a) => serde_json::Value::Array(a.iter().map(to_outside).collect()),
        JsonValue::Object(o) => serde_json::Value::Object(o.iter().map(|(k, v)| (k.clone(), to_outside(v))).collect()),
    }
}

/// `serde_json::to_string` on a `serde_json::Value`: its compact JSON text. Writing a
/// value into memory cannot fail, so the error arm is never taken.
#[verifier::external_body]
fn encode_json(tree: &serde_json::Value) -> (out: String)
    ensures
        out@ == written_text(*tree),
{
    serde_json::to_string(tree).unwrap_or_default()
}

/// Parses a JSON document.
pub fn parse_json(bytes: &[u8]) -> (out: Result<JsonValue, String>)
    ensures
        match out {
            Ok(doc) => json_parse(bytes@) == Ok::<JsonModel, Seq<char>>(doc@),
            Err(e) => json_parse(bytes@) == Err::<JsonModel, Seq<char>>(e@),
        },
{
    match decode_json(bytes) {
        Ok(tree) => Ok(from_outside(&tree)),
        Err(e) => Err(e),
    }
}

fn clone_json_items(items: &Vec<JsonValue>) -> (copy: Vec<JsonValue>)
    ensures
        json_models(copy@) == json_models(items@),
    decreases items,
{
    let mut copy: Vec<JsonValue> = Vec::new();
    let mut i: usize = 0;
    while i < items.len()
        invariant
            i <= items.len(),
            copy@.len() == i,
            forall|j: int| 0 <= j < i ==> copy@[j]@ == items@[j]@,
        decreases items.len() - i,
    {
        proof {
            vstd::std_specs::vec::axiom_vec_index_decreases(*items, i as int);
        }
        copy.push(items[i].clone());
        i = i + 1;
    }
    proof {
        assert(json_models(copy@) =~= json_models(items@));
    }
    copy
}

fn clone_members(entries: &Vec<(String, JsonValue)>) -> (copy: Vec<(String, JsonValue)>)
    ensures
        member_models(copy@) == member_models(entries@),
    decreases entries,
{
    let mut copy: Vec<(String, JsonValue)> = Vec::new();
    let mut i: usize = 0;
    while i < entries.len()
        invariant
            i <= entries.len(),
            copy@.len() == i,
            forall|j: int|
                0 <= j < i ==> copy@[j].0@ == entries@[j].0@ && copy@[j].1@ == entries@[j].1@,
        decreases entries.len() - i,
    {
        proof {
            vstd::std_specs::vec::axiom_vec_index_decreases(*entries, i as int);
        }
        let name = entries[i].0.clone();
        let value = entries[i].1.clone();
        copy.push((name, value));
        i = i + 1;
    }
    proof {
        assert(member_models(copy@) =~= member_models(entries@));
    }
    copy
}

impl Clone for JsonValue {
    fn clone(&self) -> (out: Self)
        ensures
            out@ == self@,
        decreases self,
    {
        match self {
            JsonValue::Null => JsonValue::Null,
            JsonValue::Bool(b) => JsonValue::Bool(*b),
            JsonValue::Integer(i) => JsonValue::Integer(*i),
            JsonValue::Decimal(t) => JsonValue::Decimal(t.clone()),
            JsonValue::String(s) => JsonValue::String(s.clone()),
            JsonValue::Array(items) => JsonValue::Array(clone_json_items(items)),
            JsonValue::Object(entries) => JsonValue::Object(clone_members(entries)),
        }
    }
}

impl JsonValue {
    /// The compact JSON text of the document.
    pub fn render(&self) -> (out: String)
        ensures
            out@ == json_text(self@),
    {
        let tree = to_outside(self);
        encode_json(&tree)
    }

    /// The member named `key` of an object: the first of that name.
    pub fn get(&self, key: &str) -> (found: Option<&JsonValue>)
        ensures
            match found {
                Some(value) => member_of(self@, key@) == Some(value@),
                None => member_of(self@, key@) is None,
            },
    {
        match self {
            JsonValue::Object(entries) => {
                proof {
                    assert(named(entries@) =~= member_models(entries@));
                }
                let at = find_name(entries, key);
                if at < entries.len() {
                    Some(&entries[at].1)
                } else {
                    None
                }
            },
            _ => None,
        }
    }

    /// The characters of a string document.
    pub fn as_str(&self) -> (found: Option<&str>)
        ensures
            match found {
                Some(s) => self@ == JsonModel::String(s@),
                None => !(self@ is String),
            },
    {
        match self {
            JsonValue::String(s) => Some(s.as_str()),
            _ => None,
        }
    }

    /// The items of an array document.
    pub fn as_array(&self) -> (found: Option<&Vec<JsonValue>>)
        ensures
            match found {
                Some(items) => self@ == JsonModel::Array(json_models(items@)),
                None => !(self@ is Array),
            },
    {
        match self {
            JsonValue::Array(items) => Some(items),
            _ => None,
        }
    }

    /// The members of an object document.
    pub fn as_object(&self) -> (found: Option<&Vec<(String, JsonValue)>>)
        ensures
            match found {
                Some(entries) => self@ == JsonModel::Object(member_models(entries@)),
                None => !(self@ is Object),
            },
    {
        match self {
            JsonValue::Object(entries) => Some(entries),
            _ => None,
        }
    }

    /// The value of an integer document.
    pub fn as_i64(&self) -> (found: Option<i64>)
        ensures
            match found {
                Some(i) => self@ == JsonModel::Integer(i as int),
                None => !(self@ is Integer),
            },
    {
        match self {
            JsonValue::Integer(i) => Some(*i),
            _ => None,
        }
    }
}

/// The member named `key` of an object; `None` for a document that is no object or has
/// no such member.
pub open spec fn member_of(doc: JsonModel, key: Seq<char>) -> Option<JsonModel> {
    match doc {
        JsonModel::Object(entries) => lookup(entries, key),
        _ => None,
    }
}

/// How far a text has been read as a JSON number.
#[derive(Debug, Clone, Copy, PartialEq, Eq, Structural)]
pub enum NumberState {
    /// Nothing has been read.
    Start,
    /// The sign has been read.
    Minus,
    /// A zero stands alone before the point.
    Zero,
    /// Digits before the point have been read.
    Whole,
    /// The point has been read.
    Point,
    /// Digits after the point have been read.
    Fraction,
    /// The sign of the exponent is due.
    Exponent,
    /// The sign of the exponent has been read.
    ExponentSign,
    /// Digits of the exponent have been read.
    ExponentDigits,
    /// The text is no number.
    Invalid,
}

/// Whether `c` is a decimal digit.
pub open spec fn is_digit(c: char) -> bool {
    '0' <= c && c <= '9'
}

/// The state after one more character.
pub open spec fn number_step(state: NumberState, c: char) -> NumberState {
    match state {
        NumberState::Start => if c == '-' {
            NumberState::Minus
        } else if c == '0' {
            NumberState::Zero
        } else if is_digit(c) {
            NumberState::Whole
        } else {
            NumberState::Invalid
        },
        NumberState::Minus => if c == '0' {
            NumberState::Zero
        } else if is_digit(c) {
            NumberState::Whole
        } else {
            NumberState::Invalid
        },
        NumberState::Zero => if c == '.' {
            NumberState::Point
        } else if c == 'e' || c == 'E' {
            NumberState::Exponent
        } else {
            NumberState::Invalid
        },
        NumberState::Whole => if is_digit(c) {
            NumberState::Whole
        } else if c == '.' {
            NumberState::Point
        } else if c == 'e' || c == 'E' {
            NumberState::Exponent
        } else {
            NumberState::Invalid
        },
        NumberState::Point => if is_digit(c) {
            NumberState::Fraction
        } else {
            NumberState::Invalid
        },
        NumberState::Fraction => if is_digit(c) {
            NumberState::Fraction
        } else if c == 'e' || c == 'E' {
            NumberState::Exponent
        } else {
            NumberState::Invalid
        },
        NumberState::Exponent => if c == '+' || c == '-' {
            NumberState::ExponentSign
        } else if is_digit(c) {
            NumberState::ExponentDigits
        } else {
            NumberState::Invalid
        },
        NumberState::ExponentSign => if is_digit(c) {
            NumberState::ExponentDigits
        } else {
            NumberState::Invalid
        },
        NumberState::ExponentDigits => if is_digit(c) {
            NumberState::ExponentDigits
        } else {
            NumberState::Invalid
        },
        NumberState::Invalid => NumberState::Invalid,
    }
}

/// The state after a text.
pub open spec fn number_state(text: Seq<char>) -> NumberState
    decreases text.len(),
{
    if text.len() == 0 {
        NumberState::Start
    } else {
        number_step(number_state(text.drop_last()), text.last())
    }
}

/// Whether a text is a JSON number: an optional minus sign, digits without a leading
/// zero, an optional fraction and an optional exponent.
pub open spec fn is_number_text(text: Seq<char>) -> bool {
    let state = number_state(text);
    state == NumberState::Zero || state == NumberState::Whole || state == NumberState::Fraction
        || state == NumberState::ExponentDigits
}

fn next_number_state(state: NumberState, c: char) -> (next: NumberState)
    ensures
        next == number_step(state, c),
{
    let digit = c >= '0' && c <= '9';
    match state {
        NumberState::Start => if c == '-' {
            NumberState::Minus
        } else if c == '0' {
            NumberState::Zero
        } else if digit {
            NumberState::Whole
        } else {
            NumberState::Invalid
        },
        NumberState::Minus => if c == '0' {
            NumberState::Zero
        } else if digit {
            NumberState::Whole
        } else {
            NumberState::Invalid
        },
        NumberState::Zero => if c == '.' {
            NumberState::Point
        } else if c == 'e' || c == 'E' {
            NumberState::Exponent
        } else {
            NumberState::Invalid
        },
        NumberState::Whole => if digit {
            NumberState::Whole
        } else if c == '.' {
            NumberState::Point
        } else if c == 'e' || c == 'E' {
            NumberState::Exponent
        } else {
            NumberState::Invalid
        },
        NumberState::Point => if digit {
            NumberState::Fraction
        } else {
            NumberState::Invalid
        },
        NumberState::Fraction => if digit {
            NumberState::Fraction
        } else if c == 'e' || c == 'E' {
            NumberState::Exponent
        } else {
            NumberState::Invalid
        },
        NumberState::Exponent => if c == '+' || c == '-' {
            NumberState::ExponentSign
        } else if digit {
            NumberState::ExponentDigits
        } else {
            NumberState::Invalid
        },
        NumberState::ExponentSign => if digit {
            NumberState::ExponentDigits
        } else {
            NumberState::Invalid
        },
        NumberState::ExponentDigits => if digit {
            NumberState::ExponentDigits
        } else {
            NumberState::Invalid
        },
        NumberState::Invalid => NumberState::Invalid,
    }
}

/// Whether a text is a JSON number.
pub fn is_json_number(text: &str) -> (valid: bool)
    ensures
        valid == is_number_text(text@),
{
    let mut state = NumberState::Start;
    for c in it: text.chars()
        invariant
            it.seq() == text@,
            state == number_state(text@.take(it.index() as int)),
    {
        proof {
            let next = text@.take(it.index() + 1);
            assert(next.drop_last() == text@.take(it.index() as int));
            assert(next.last() == c);
        }
        state = next_number_state(state, c);
    }
    proof {
        assert(text@.take(text@.len() as int) == text@);
    }
    match state {
        NumberState::Zero => true,
        NumberState::Whole => true,
        NumberState::Fraction => true,
        NumberState::ExponentDigits => true,
        _ => false,
    }
}

/// The JSON documents of a list of property values.
pub open spec fn jsons_of(items: Seq<PropertyModel>) -> Seq<JsonModel>
    decreases items,
{
    Seq::new(
        items.len(),
        |i: int|
            if 0 <= i < items.len() {
                json_of(items[i])
            } else {
                JsonModel::Null
            },
    )
}

/// The JSON members of a list of named property values.
pub open spec fn members_of(entries: Seq<(Seq<char>, PropertyModel)>) -> Seq<(Seq<char>, JsonModel)>
    decreases entries,
{
    Seq::new(
        entries.len(),
        |i: int|
            if 0 <= i < entries.len() {
                (entries[i].0, json_of(entries[i].1))
            } else {
                (Seq::<char>::empty(), JsonModel::Null)
            },
    )
}

/// The JSON document that stands for a property value: texts become strings, numbers
/// numbers, lists arrays, named values objects. A double whose text is no JSON number,
/// as that of an infinite one, becomes null.
pub open spec fn json_of(m: PropertyModel) -> JsonModel
    decreases m,
{
    match m {
        PropertyModel::String(s) => JsonModel::String(s),
        PropertyModel::Integer(i) => JsonModel::Integer(i),
        PropertyModel::Double(t) => if is_number_text(t) {
            JsonModel::Decimal(t)
        } else {
            JsonModel::Null
        },
        PropertyModel::Boolean(b) => JsonModel::Bool(b),
        PropertyModel::Date(s) => JsonModel::String(s),
        PropertyModel::DateTime(s) => JsonModel::String(s),
        PropertyModel::ObjectReference(s) => JsonModel::String(s),
        PropertyModel::GeoJSON(s) => JsonModel::String(s),
        PropertyModel::Array(items) => JsonModel::Array(jsons_of(items)),
        PropertyModel::Mapping(entries) => JsonModel::Object(members_of(entries)),
        PropertyModel::Object(entries) => JsonModel::Object(members_of(entries)),
        PropertyModel::Null => JsonModel::Null,
    }
}

fn items_to_json(items: &Vec<PropertyValue>) -> (out: Vec<JsonValue>)
    ensures
        json_models(out@) == jsons_of(models_of(items@)),
    decreases items,
{
    let mut out: Vec<JsonValue> = Vec::new();
    let mut i: usize = 0;
    while i < items.len()
        invariant
            i <= items.len(),
            out@.len() == i,
            forall|j: int| 0 <= j < i ==> out@[j]@ == json_of(items@[j]@),
        decreases items.len() - i,
    {
        proof {
            vstd::std_specs::vec::axiom_vec_index_decreases(*items, i as int);
        }
        out.push(property_to_json(&items[i]));
        i = i + 1;
    }
    proof {
        assert(json_models(out@) =~= jsons_of(models_of(items@)));
    }
    out
}

/// The JSON members of a list of named property values.
pub fn entries_to_json(entries: &Vec<(String, PropertyValue)>) -> (out: Vec<(String, JsonValue)>)
    ensures
        member_models(out@) == members_of(entry_models(entries@)),
    decreases entries,
{
    let mut out: Vec<(String, JsonValue)> = Vec::new();
    let mut i: usize = 0;
    while i < entries.len()
        invariant
            i <= entries.len(),
            out@.len() == i,
            forall|j: int|
                0 <= j < i ==> out@[j].0@ == entries@[j].0@ && out@[j].1@ == json_of(
                    entries@[j].1@,
                ),
        decreases entries.len() - i,
    {
        proof {
            vstd::std_specs::vec::axiom_vec_index_decreases(*entries, i as int);
        }
        let name = entries[i].0.clone();
        let value = property_to_json(&entries[i].1);
        out.push((name, value));
        i = i + 1;
    }
    proof {
        assert(member_models(out@) =~= members_of(entry_models(entries@)));
    }
    out
}

/// The JSON document that stands for a property value.
pub fn property_to_json(value: &PropertyValue) -> (json: JsonValue)
    ensures
        json@ == json_of(value@),
    decreases value,
{
    match value {
        PropertyValue::String(s) => JsonValue::String(s.clone()),
        PropertyValue::Integer(i) => JsonValue::Integer(*i),
        PropertyValue::Double(t) => if is_json_number(t.as_str()) {
            JsonValue::Decimal(t.clone())
        } else {
            JsonValue::Null
        },
        PropertyValue::Boolean(b) => JsonValue::Bool(*b),
        PropertyValue::Date(s) => JsonValue::String(s.clone()),
        PropertyValue::DateTime(s) => JsonValue::String(s.clone()),
        PropertyValue::ObjectReference(s) => JsonValue::String(s.clone()),
        PropertyValue::GeoJSON(s) => JsonValue::String(s.clone()),
        PropertyValue::Array(items) => JsonValue::Array(items_to_json(items)),
        PropertyValue::Mapping(entries) => JsonValue::Object(entries_to_json(entries)),
        PropertyValue::Object(entries) => JsonValue::Object(entries_to_json(entries)),
        PropertyValue::Null => JsonValue::Null,
    }
}

/// The property values of a list of JSON documents.
pub open spec fn properties_of(items: Seq<JsonModel>) -> Seq<PropertyModel>
    decreases items,
{
    Seq::new(
        items.len(),
        |i: int|
            if 0 <= i < items.len() {
                property_of(items[i])
            } else {
                PropertyModel::Null
            },
    )
}

/// The named property values of the members of a JSON object.
pub open spec fn entries_of(entries: Seq<(Seq<char>, JsonModel)>) -> Seq<(Seq<char>, PropertyModel)>
    decreases entries,
{
    Seq::new(
        entries.len(),
        |i: int|
            if 0 <= i < entries.len() {
                (entries[i].0, property_of(entries[i].1))
            } else {
                (Seq::<char>::empty(), PropertyModel::Null)
            },
    )
}

/// The property value that a JSON document is read as when nothing else is known of it:
/// a string as a string, a number as an integer or a double, an array as a list and an
/// object as a mapping.
pub open spec fn property_of(doc: JsonModel) -> PropertyModel
    decreases doc,
{
    match doc {
        JsonModel::Null => PropertyModel::Null,
        JsonModel::Bool(b) => PropertyModel::Boolean(b),
        JsonModel::Integer(i) => PropertyModel::Integer(i),
        JsonModel::Decimal(t) => PropertyModel::Double(t),
        JsonModel::String(s) => PropertyModel::String(s),
        JsonModel::Array(items) => PropertyModel::Array(properties_of(items)),
        JsonModel::Object(entries) => PropertyModel::Mapping(entries_of(entries)),
    }
}

fn items_from_json(items: &Vec<JsonValue>) -> (out: Vec<PropertyValue>)
    ensures
        models_of(out@) == properties_of(json_models(items@)),
    decreases items,
{
    let mut out: Vec<PropertyValue> = Vec::new();
    let mut i: usize = 0;
    while i < items.len()
        invariant
            i <= items.len(),
            out@.len() == i,
            forall|j: int| 0 <= j < i ==> out@[j]@ == property_of(items@[j]@),
        decreases items.len() - i,
    {
        proof {
            vstd::std_specs::vec::axiom_vec_index_decreases(*items, i as int);
        }
        out.push(property_from_json(&items[i]));
        i = i + 1;
    }
    proof {
        assert(models_of(out@) =~= properties_of(json_models(items@)));
    }
    out
}

fn entries_from_json(entries: &Vec<(String, JsonValue)>) -> (out: Vec<(String, PropertyValue)>)
    ensures
        entry_models(out@) == entries_of(member_models(entries@)),
    decreases entries,
{
    let mut out: Vec<(String, PropertyValue)> = Vec::new();
    let mut i: usize = 0;
    while i < entries.len()
        invariant
            i <= entries.len(),
            out@.len() == i,
            forall|j: int|
                0 <= j < i ==> out@[j].0@ == entries@[j].0@ && out@[j].1@ == property_of(
                    entries@[j].1@,
                ),
        decreases entries.len() - i,
    {
        proof {
            vstd::std_specs::vec::axiom_vec_index_decreases(*entries, i as int);
        }
        let name = entries[i].0.clone();
        let value = property_from_json(&entries[i].1);
        out.push((name, value));
        i = i + 1;
    }
    proof {
        assert(entry_models(out@) =~= entries_of(member_models(entries@)));
    }
    out
}

/// Reads a JSON document as a property value.
pub fn property_from_json(doc: &JsonValue) -> (value: PropertyValue)
    ensures
        value@ == property_of(doc@),
    decreases doc,
{
    match doc {
        JsonValue::Null => PropertyValue::Null,
        JsonValue::Bool(b) => PropertyValue::Boolean(*b),
        JsonValue::Integer(i) => PropertyValue::Integer(*i),
        JsonValue::Decimal(t) => PropertyValue::Double(t.clone()),
        JsonValue::String(s) => PropertyValue::String(s.clone()),
        JsonValue::Array(items) => PropertyValue::Array(items_from_json(items)),
        JsonValue::Object(entries) => PropertyValue::Mapping(entries_from_json(entries)),
    }
}

} // verus!
