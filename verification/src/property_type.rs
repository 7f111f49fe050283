//! The types that properties can have, and the definitions of properties.

use vstd::prelude::*;
use vstd::string::*;
use crate::property::PropertyValue;
use crate::text::{clone_names, owned, str_eq};

verus! {

/// A nested object type: its id and its fields.
#[derive(Debug, PartialEq)]
pub struct StructDef {
    pub id: String,
    pub fields: Vec<Property>,
}

/// The type of a property. Several names stand for one simple type; a list, a mapping,
/// an object and a union are made of other types.
#[derive(Debug, PartialEq)]
pub enum PropertyType {
    String,
    Integer,
    Int,
    Double,
    Float,
    Boolean,
    Bool,
    Date,
    DateTime,
    Timestamp,
    ObjectReference,
    ObjectReferenceAlt,
    GeoJSON,
    GeoJSONAlt,
    Array { element_type: Box<PropertyType> },
    Mapping { key_type: Box<PropertyType>, value_type: Box<PropertyType> },
    Object(StructDef),
    Union { types: Vec<PropertyType> },
}

/// How a property is shown.
#[derive(Debug, Clone, PartialEq)]
pub enum PropertyFormat {
    Currency { symbol: Option<String> },
    Percentage { decimals: Option<usize> },
    DateFormat { format: String },
    NumberFormat { decimals: usize, separator: Option<char> },
}

/// Since when a property is deprecated, and what takes its place.
#[derive(Debug, Clone, PartialEq)]
pub struct DeprecationInfo {
    pub deprecated_since: String,
    pub replacement: Option<String>,
    pub removal_date: Option<String>,
}

/// The rules that a value of a property has to meet. The two bounds on numbers are held
/// as decimal text.
#[derive(Debug, Clone, PartialEq)]
pub struct PropertyValidation {
    pub min_length: Option<usize>,
    pub max_length: Option<usize>,
    pub min: Option<String>,
    pub max: Option<String>,
    /// A text that a string value has to hold.
    pub pattern: Option<String>,
    pub enum_values: Option<Vec<String>>,
}

/// The definition of a property of an object type or a link type.
#[derive(Debug, PartialEq)]
pub struct Property {
    pub id: String,
    pub display_name: Option<String>,
    pub property_type: PropertyType,
    pub required: bool,
    pub default: Option<PropertyValue>,
    pub validation: Option<PropertyValidation>,
    pub description: Option<String>,
    pub annotations: Vec<(String, String)>,
    pub unit: Option<String>,
    pub format: Option<PropertyFormat>,
    pub sensitivity_tags: Vec<String>,
    pub pii: bool,
    pub deprecated: Option<DeprecationInfo>,
}

fn clone_types(types: &Vec<PropertyType>) -> (copy: Vec<PropertyType>)
    ensures
        copy@.len() == types@.len(),
    decreases types,
{
    let mut copy: Vec<PropertyType> = Vec::new();
    let mut i: usize = 0;
    while i < types.len()
        invariant
            i <= types.len(),
            copy@.len() == i,
        decreases types.len() - i,
    {
        proof {
            vstd::std_specs::vec::axiom_vec_index_decreases(*types, i as int);
        }
        copy.push(types[i].clone());
        i = i + 1;
    }
    copy
}

fn clone_fields(fields: &Vec<Property>) -> (copy: Vec<Property>)
    ensures
        copy@.len() == fields@.len(),
        forall|k: int| 0 <= k < fields@.len() ==> (#[trigger] copy@[k]).id@ == fields@[k].id@
            && copy@[k].required == fields@[k].required,
    decreases fields,
{
    let mut copy: Vec<Property> = Vec::new();
    let mut i: usize = 0;
    while i < fields.len()
        invariant
            i <= fields.len(),
            copy@.len() == i,
            forall|k: int| 0 <= k < i ==> (#[trigger] copy@[k]).id@ == fields@[k].id@
                && copy@[k].required == fields@[k].required,
        decreases fields.len() - i,
    {
        proof {
            vstd::std_specs::vec::axiom_vec_index_decreases(*fields, i as int);
        }
        copy.push(fields[i].clone());
        i = i + 1;
    }
    copy
}

fn clone_text(text: &Option<String>) -> (copy: Option<String>)
    ensures
        copy is Some == text is Some,
        text is Some ==> copy->0@ == text->0@,
{
    match text {
        Some(t) => Some(t.clone()),
        None => None,
    }
}

impl Clone for StructDef {
    fn clone(&self) -> (copy: Self)
        ensures
            copy.id@ == self.id@,
            copy.fields@.len() == self.fields@.len(),
        decreases self,
    {
        StructDef { id: self.id.clone(), fields: clone_fields(&self.fields) }
    }
}

impl Clone for PropertyType {
    fn clone(&self) -> (copy: Self)
        decreases self,
    {
        match self {
            PropertyType::String => PropertyType::String,
            PropertyType::Integer => PropertyType::Integer,
            PropertyType::Int => PropertyType::Int,
            PropertyType::Double => PropertyType::Double,
            PropertyType::Float => PropertyType::Float,
            PropertyType::Boolean => PropertyType::Boolean,
            PropertyType::Bool => PropertyType::Bool,
            PropertyType::Date => PropertyType::Date,
            PropertyType::DateTime => PropertyType::DateTime,
            PropertyType::Timestamp => PropertyType::Timestamp,
            PropertyType::ObjectReference => PropertyType::ObjectReference,
            PropertyType::ObjectReferenceAlt => PropertyType::ObjectReferenceAlt,
            PropertyType::GeoJSON => PropertyType::GeoJSON,
            PropertyType::GeoJSONAlt => PropertyType::GeoJSONAlt,
            PropertyType::Array { element_type } => {
                let inner: &PropertyType = element_type;
                PropertyType::Array { element_type: Box::new(inner.clone()) }
            },
            PropertyType::Mapping { key_type, value_type } => {
                let key: &PropertyType = key_type;
                let value: &PropertyType = value_type;
                PropertyType::Mapping {
                    key_type: Box::new(key.clone()),
                    value_type: Box::new(value.clone()),
                }
            },
            PropertyType::Object(definition) => PropertyType::Object(definition.clone()),
            PropertyType::Union { types } => PropertyType::Union { types: clone_types(types) },
        }
    }
}

impl Clone for Property {
    fn clone(&self) -> (copy: Self)
        ensures
            copy.id@ == self.id@,
            copy.required == self.required,
        decreases self,
    {
        let mut annotations: Vec<(String, String)> = Vec::new();
        let mut i: usize = 0;
        while i < self.annotations.len()
            invariant
                i <= self.annotations.len(),
            decreases self.annotations.len() - i,
        {
            annotations.push((self.annotations[i].0.clone(), self.annotations[i].1.clone()));
            i = i + 1;
        }
        Property {
            id: self.id.clone(),
            display_name: clone_text(&self.display_name),
            property_type: self.property_type.clone(),
            required: self.required,
            default: match &self.default {
                Some(value) => Some(value.clone()),
                None => None,
            },
            validation: match &self.validation {
                Some(rules) => Some(rules.clone()),
                None => None,
            },
            description: clone_text(&self.description),
            annotations,
            unit: clone_text(&self.unit),
            format: match &self.format {
                Some(format) => Some(format.clone()),
                None => None,
            },
            sensitivity_tags: clone_names(&self.sensitivity_tags),
            pii: self.pii,
            deprecated: match &self.deprecated {
                Some(info) => Some(info.clone()),
                None => None,
            },
        }
    }
}

/// What `str::to_lowercase` of the standard library makes of a text.
pub uninterp spec fn lowercase_text(text: Seq<char>) -> Seq<char>;

/// `str::to_lowercase` of the standard library: the text in lower case. The result
/// depends on the text alone.
pub assume_specification[ str::to_lowercase ](text: &str) -> (out: std::string::String)
    ensures
        out@ == lowercase_text(text@),
;

/// The simple type that a name in lower case stands for.
pub open spec fn type_named(name: Seq<char>) -> Option<PropertyType> {
    if name == "string"@ {
        Some(PropertyType::String)
    } else if name == "integer"@ || name == "int"@ {
        Some(PropertyType::Integer)
    } else if name == "double"@ || name == "float"@ {
        Some(PropertyType::Double)
    } else if name == "boolean"@ || name == "bool"@ {
        Some(PropertyType::Boolean)
    } else if name == "date"@ {
        Some(PropertyType::Date)
    } else if name == "datetime"@ || name == "timestamp"@ {
        Some(PropertyType::DateTime)
    } else if name == "object_reference"@ || name == "objectreference"@ {
        Some(PropertyType::ObjectReference)
    } else if name == "geojson"@ || name == "geo_json"@ {
        Some(PropertyType::GeoJSON)
    } else {
        None
    }
}

/// The simple type that a name stands for, whatever its case.
pub fn type_of_name(name: &str) -> (found: Option<PropertyType>)
    ensures
        found == type_named(name@),
{
    if str_eq(name, "string") {
        Some(PropertyType::String)
    } else if str_eq(name, "integer") || str_eq(name, "int") {
        Some(PropertyType::Integer)
    } else if str_eq(name, "double") || str_eq(name, "float") {
        Some(PropertyType::Double)
    } else if str_eq(name, "boolean") || str_eq(name, "bool") {
        Some(PropertyType::Boolean)
    } else if str_eq(name, "date") {
        Some(PropertyType::Date)
    } else if str_eq(name, "datetime") || str_eq(name, "timestamp") {
        Some(PropertyType::DateTime)
    } else if str_eq(name, "object_reference") || str_eq(name, "objectreference") {
        Some(PropertyType::ObjectReference)
    } else if str_eq(name, "geojson") || str_eq(name, "geo_json") {
        Some(PropertyType::GeoJSON)
    } else {
        None
    }
}

/// The simple type that stands behind a type: each of its names gives the same one.
/// A type that is made of other types has none.
pub open spec fn simple_of(t: PropertyType) -> Option<PropertyType> {
    match t {
        PropertyType::String => Some(PropertyType::String),
        PropertyType::Int => Some(PropertyType::String),
        PropertyType::Integer => Some(PropertyType::Integer),
        PropertyType::Double => Some(PropertyType::Double),
        PropertyType::Float => Some(PropertyType::Double),
        PropertyType::Boolean => Some(PropertyType::Boolean),
        PropertyType::Bool => Some(PropertyType::Boolean),
        PropertyType::Date => Some(PropertyType::Date),
        PropertyType::DateTime => Some(PropertyType::DateTime),
        PropertyType::Timestamp => Some(PropertyType::DateTime),
        PropertyType::ObjectReference => Some(PropertyType::ObjectReference),
        PropertyType::ObjectReferenceAlt => Some(PropertyType::ObjectReference),
        PropertyType::GeoJSON => Some(PropertyType::GeoJSON),
        PropertyType::GeoJSONAlt => Some(PropertyType::GeoJSON),
        _ => None,
    }
}

impl PropertyType {
    /// The simple type that a name stands for. The case of the name does not matter.
    ///
    /// The error names the name, and comes exactly where the name stands for no type.
    pub fn from_str(s: &str) -> (out: Result<Self, String>)
        ensures
            match type_named(lowercase_text(s@)) {
                Some(t) => out == Ok::<PropertyType, String>(t),
                None => out is Err && out->Err_0@ == "Unknown property type: "@ + s@,
            },
    {
        let lower = s.to_lowercase();
        match type_of_name(lower.as_str()) {
            Some(t) => Ok(t),
            None => {
                let mut message = owned("Unknown property type: ");
                message.append(s);
                Err(message)
            },
        }
    }

    /// Whether the type is not made of other types.
    pub fn is_simple(&self) -> (simple: bool)
        ensures
            simple == !(*self is Array || *self is Mapping || *self is Object || *self is Union),
    {
        match self {
            PropertyType::Array { .. } => false,
            PropertyType::Mapping { .. } => false,
            PropertyType::Object(_) => false,
            PropertyType::Union { .. } => false,
            _ => true,
        }
    }

    /// The simple type that stands behind the type.
    pub fn as_simple(&self) -> (simple: Option<Self>)
        ensures
            simple == simple_of(*self),
    {
        match self {
            PropertyType::String => Some(PropertyType::String),
            PropertyType::Int => Some(PropertyType::String),
            PropertyType::Integer => Some(PropertyType::Integer),
            PropertyType::Double => Some(PropertyType::Double),
            PropertyType::Float => Some(PropertyType::Double),
            PropertyType::Boolean => Some(PropertyType::Boolean),
            PropertyType::Bool => Some(PropertyType::Boolean),
            PropertyType::Date => Some(PropertyType::Date),
            PropertyType::DateTime => Some(PropertyType::DateTime),
            PropertyType::Timestamp => Some(PropertyType::DateTime),
            PropertyType::ObjectReference => Some(PropertyType::ObjectReference),
            PropertyType::ObjectReferenceAlt => Some(PropertyType::ObjectReference),
            PropertyType::GeoJSON => Some(PropertyType::GeoJSON),
            PropertyType::GeoJSONAlt => Some(PropertyType::GeoJSON),
            _ => None,
        }
    }
}

impl Property {
    /// A property of the given id and type that is not required and has nothing else
    /// set.
    pub fn new(id: String, property_type: PropertyType) -> (property: Self)
        ensures
            property.id == id,
            property.property_type == property_type,
            !property.required,
            property.display_name is None,
            property.default is None,
            property.validation is None,
            property.annotations@.len() == 0,
            property.sensitivity_tags@.len() == 0,
            !property.pii,
    {
        Property {
            id,
            display_name: None,
            property_type,
            required: false,
            default: None,
            validation: None,
            description: None,
            annotations: Vec::new(),
            unit: None,
            format: None,
            sensitivity_tags: Vec::new(),
            pii: false,
            deprecated: None,
        }
    }
}

} // verus!
