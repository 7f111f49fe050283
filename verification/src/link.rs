//! Links between objects at run time.

use vstd::prelude::*;
use vstd::string::*;
use crate::property::{PropertyMap, PropertyModel};
use crate::store::current_timestamp;
use crate::text::str_eq;

verus! {

/// How many objects a link type joins on each side.
#[derive(Debug, Clone, Copy, PartialEq, Eq, Structural)]
pub enum LinkCardinality {
    OneToOne,
    OneToMany,
    ManyToOne,
    ManyToMany,
}

impl Default for LinkCardinality {
    fn default() -> (cardinality: Self)
        ensures
            cardinality == LinkCardinality::OneToMany,
    {
        LinkCardinality::OneToMany
    }
}

/// The direction in which a link is followed.
#[derive(Debug, Clone, Copy, PartialEq, Eq, Structural)]
pub enum LinkDirection {
    /// From the source to the target.
    Forward,
    /// From the target to the source.
    Backward,
    Bidirectional,
}

/// A link between two objects.
#[derive(Debug, Clone)]
pub struct Link {
    pub id: String,
    pub link_type_id: String,
    pub source_id: String,
    pub target_id: String,
    pub properties: PropertyMap,
    /// When the link was made, as RFC 3339 text.
    pub created_at: String,
}

impl Link {
    /// A link without properties, made now.
    pub fn new(id: String, link_type_id: String, source_id: String, target_id: String) -> (link:
        Self)
        ensures
            link.id == id,
            link.link_type_id == link_type_id,
            link.source_id == source_id,
            link.target_id == target_id,
            link.properties@ == Seq::<(Seq<char>, PropertyModel)>::empty(),
    {
        Link {
            id,
            link_type_id,
            source_id,
            target_id,
            properties: PropertyMap::new(),
            created_at: current_timestamp(),
        }
    }

    /// The other end of the link, seen from `object_id`: the target for the source, the
    /// source for the target, nothing for an object that the link does not touch.
    pub fn get_other_end(&self, object_id: &str) -> (other: Option<&str>)
        ensures
            self.source_id@ == object_id@ ==> other is Some && other->0@ == self.target_id@,
            self.source_id@ != object_id@ && self.target_id@ == object_id@ ==> other is Some
                && other->0@ == self.source_id@,
            self.source_id@ != object_id@ && self.target_id@ != object_id@ ==> other is None,
    {
        if str_eq(self.source_id.as_str(), object_id) {
            Some(self.target_id.as_str())
        } else if str_eq(self.target_id.as_str(), object_id) {
            Some(self.source_id.as_str())
        } else {
            None
        }
    }

    /// Whether the link touches `object_id`.
    pub fn connects_to(&self, object_id: &str) -> (touches: bool)
        ensures
            touches == (self.source_id@ == object_id@ || self.target_id@ == object_id@),
    {
        str_eq(self.source_id.as_str(), object_id) || str_eq(self.target_id.as_str(), object_id)
    }

    /// The direction of the link, seen from `object_id`: forward from its source,
    /// backward from its target.
    pub fn direction_from(&self, object_id: &str) -> (direction: Option<LinkDirection>)
        ensures
            direction == if self.source_id@ == object_id@ {
                Some(LinkDirection::Forward)
            } else if self.target_id@ == object_id@ {
                Some(LinkDirection::Backward)
            } else {
                None
            },
    {
        if str_eq(self.source_id.as_str(), object_id) {
            Some(LinkDirection::Forward)
        } else if str_eq(self.target_id.as_str(), object_id) {
            Some(LinkDirection::Backward)
        } else {
            None
        }
    }
}

} // verus!
