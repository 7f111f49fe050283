//! Typed-object persistence layer: a shared query algebra, the pure halves of the
//! search, graph and columnar adapters, and the decisions of the consistency service.

pub mod analytics;
pub mod assoc;
pub mod columnar;
pub mod function;
pub mod graph;
pub mod hydration;
pub mod identity;
pub mod json;
pub mod link;
pub mod linking;
pub mod meta_model;
pub mod migration;
pub mod property;
pub mod property_groups;
pub mod property_type;
pub mod reach;
pub mod reference;
pub mod responses;
pub mod search;
pub mod security;
pub mod semantics;
pub mod store;
pub mod stored;
pub mod sync;
pub mod text;
pub mod traversal;
