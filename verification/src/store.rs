//! The query algebra and the data model that the three stores share.

use vstd::prelude::*;
use vstd::string::*;
use crate::property::{PropertyMap, PropertyValue};
use crate::text::owned;

verus! {

/// Which links of an object are meant.
#[derive(Debug, Clone, Copy, PartialEq, Eq, Structural)]
pub enum LinkDirection {
    /// From the object as source to a target.
    Outgoing,
    /// From a source to the object as target.
    Incoming,
    Both,
}

/// How a filter compares a property with its value.
#[derive(Debug, Clone, Copy, PartialEq, Eq, Structural)]
pub enum FilterOperator {
    Equals,
    NotEquals,
    GreaterThan,
    LessThan,
    GreaterThanOrEqual,
    LessThanOrEqual,
    Contains,
    StartsWith,
    EndsWith,
    In,
    NotIn,
    /// The geometry contains another geometry.
    ContainsGeometry,
    /// The geometries intersect.
    Intersects,
    /// The geometry lies within another geometry.
    Within,
    /// The geometry lies within a distance, which the filter then carries.
    WithinDistance,
}

/// One condition on a property.
#[derive(Debug, Clone)]
pub struct Filter {
    pub property: String,
    pub operator: FilterOperator,
    pub value: PropertyValue,
    /// The distance in meters as decimal text, for `WithinDistance`.
    pub distance: Option<String>,
}

/// The property to sort by, and the direction.
#[derive(Debug, Clone)]
pub struct SortOption {
    pub property: String,
    pub ascending: bool,
}

/// A search: every filter must hold.
#[derive(Debug, Clone)]
pub struct SearchQuery {
    pub filters: Vec<Filter>,
    pub sort: Option<SortOption>,
    pub limit: Option<usize>,
    pub offset: Option<usize>,
}

/// A columnar reduction, bound to a property except for `Count`.
#[derive(Debug, Clone)]
pub enum Aggregation {
    Count,
    Sum(String),
    Avg(String),
    Min(String),
    Max(String),
    Median(String),
    StdDev(String),
    Variance(String),
    /// The property, and the percentile as decimal text.
    Percentile(String, String),
    DistinctCount(String),
    /// The property, and how many of the largest values are asked for.
    TopN(String, usize),
    /// The property, and how many of the smallest values are asked for.
    BottomN(String, usize),
}

/// An analytic query: reductions over the rows that pass the filters, for each group.
#[derive(Debug, Clone)]
pub struct AnalyticsQuery {
    pub aggregations: Vec<Aggregation>,
    pub filters: Vec<Filter>,
    pub group_by: Vec<String>,
}

/// The rows of an analytic query and their number.
#[derive(Debug, Clone)]
pub struct AnalyticsResult {
    pub rows: Vec<PropertyMap>,
    pub total: usize,
}

/// A reduction over the objects that a traversal reaches.
#[derive(Debug, Clone)]
pub struct TraversalAggregation {
    /// The property to reduce.
    pub property: String,
    pub operation: Aggregation,
    /// Conditions on the objects reached.
    pub object_filters: Vec<Filter>,
}

/// What a traversal with a reduction gives back.
#[derive(Debug, Clone)]
pub struct TraversalAggregationResult {
    pub value: PropertyValue,
    /// How many objects went into the value.
    pub count: usize,
}

/// An object as a store holds it.
#[derive(Debug, Clone)]
pub struct IndexedObject {
    pub object_type: String,
    pub object_id: String,
    pub properties: PropertyMap,
    /// When the object was indexed, as RFC 3339 text.
    pub indexed_at: String,
}

/// A link as the graph store holds it.
#[derive(Debug, Clone)]
pub struct GraphLink {
    pub link_id: String,
    pub link_type_id: String,
    pub source_id: String,
    pub target_id: String,
    pub properties: PropertyMap,
    /// When the link was made, as RFC 3339 text.
    pub created_at: String,
}

/// What can go wrong in a store.
#[derive(Debug, Clone, PartialEq, Eq)]
pub enum StoreError {
    Connection(String),
    Query(String),
    Serialization(String),
    NotFound(String),
    Transaction(String),
    Configuration(String),
    WriteError(String),
    ReadError(String),
    Unknown(String),
}

/// The words that stand before the message of each kind of error.
pub open spec fn error_prefix(e: StoreError) -> Seq<char> {
    match e {
        StoreError::Connection(_) => "Connection error: "@,
        StoreError::Query(_) => "Query error: "@,
        StoreError::Serialization(_) => "Serialization error: "@,
        StoreError::NotFound(_) => "Object not found: "@,
        StoreError::Transaction(_) => "Transaction failed: "@,
        StoreError::Configuration(_) => "Configuration error: "@,
        StoreError::WriteError(_) => "Write error: "@,
        StoreError::ReadError(_) => "Read error: "@,
        StoreError::Unknown(_) => "Unknown error: "@,
    }
}

/// The message that an error carries.
pub open spec fn error_message(e: StoreError) -> Seq<char> {
    match e {
        StoreError::Connection(m) => m@,
        StoreError::Query(m) => m@,
        StoreError::Serialization(m) => m@,
        StoreError::NotFound(m) => m@,
        StoreError::Transaction(m) => m@,
        StoreError::Configuration(m) => m@,
        StoreError::WriteError(m) => m@,
        StoreError::ReadError(m) => m@,
        StoreError::Unknown(m) => m@,
    }
}

/// The kinds of error, without their messages.
#[derive(Debug, Clone, Copy, PartialEq, Eq, Structural)]
pub enum ErrorKind {
    Connection,
    Query,
    Serialization,
    NotFound,
    Transaction,
    Configuration,
    WriteError,
    ReadError,
    Unknown,
}

/// The kind of an error.
pub open spec fn error_kind(e: StoreError) -> ErrorKind {
    match e {
        StoreError::Connection(_) => ErrorKind::Connection,
        StoreError::Query(_) => ErrorKind::Query,
        StoreError::Serialization(_) => ErrorKind::Serialization,
        StoreError::NotFound(_) => ErrorKind::NotFound,
        StoreError::Transaction(_) => ErrorKind::Transaction,
        StoreError::Configuration(_) => ErrorKind::Configuration,
        StoreError::WriteError(_) => ErrorKind::WriteError,
        StoreError::ReadError(_) => ErrorKind::ReadError,
        StoreError::Unknown(_) => ErrorKind::Unknown,
    }
}

impl View for StoreError {
    type V = (ErrorKind, Seq<char>);

    open spec fn view(&self) -> (ErrorKind, Seq<char>) {
        (error_kind(*self), error_message(*self))
    }
}

impl StoreError {
    /// An error of the given kind whose message is `head` followed by `detail`.
    pub fn described(kind: ErrorKind, head: &str, detail: &str) -> (e: StoreError)
        ensures
            e@ == (kind, head@ + detail@),
    {
        let mut message = owned(head);
        message.append(detail);
        match kind {
            ErrorKind::Connection => StoreError::Connection(message),
            ErrorKind::Query => StoreError::Query(message),
            ErrorKind::Serialization => StoreError::Serialization(message),
            ErrorKind::NotFound => StoreError::NotFound(message),
            ErrorKind::Transaction => StoreError::Transaction(message),
            ErrorKind::Configuration => StoreError::Configuration(message),
            ErrorKind::WriteError => StoreError::WriteError(message),
            ErrorKind::ReadError => StoreError::ReadError(message),
            ErrorKind::Unknown => StoreError::Unknown(message),
        }
    }

    /// The kind of the error.
    pub fn kind(&self) -> (kind: ErrorKind)
        ensures
            kind == error_kind(*self),
    {
        match self {
            StoreError::Connection(_) => ErrorKind::Connection,
            StoreError::Query(_) => ErrorKind::Query,
            StoreError::Serialization(_) => ErrorKind::Serialization,
            StoreError::NotFound(_) => ErrorKind::NotFound,
            StoreError::Transaction(_) => ErrorKind::Transaction,
            StoreError::Configuration(_) => ErrorKind::Configuration,
            StoreError::WriteError(_) => ErrorKind::WriteError,
            StoreError::ReadError(_) => ErrorKind::ReadError,
            StoreError::Unknown(_) => ErrorKind::Unknown,
        }
    }

    /// The message that the error carries.
    pub fn message(&self) -> (m: &str)
        ensures
            m@ == error_message(*self),
    {
        match self {
            StoreError::Connection(m) => m.as_str(),
            StoreError::Query(m) => m.as_str(),
            StoreError::Serialization(m) => m.as_str(),
            StoreError::NotFound(m) => m.as_str(),
            StoreError::Transaction(m) => m.as_str(),
            StoreError::Configuration(m) => m.as_str(),
            StoreError::WriteError(m) => m.as_str(),
            StoreError::ReadError(m) => m.as_str(),
            StoreError::Unknown(m) => m.as_str(),
        }
    }

    /// The text of the error: the words for its kind, then its message.
    pub fn to_string(&self) -> (out: String)
        ensures
            out@ == error_prefix(*self) + error_message(*self),
    {
        let mut out = match self {
            StoreError::Connection(_) => owned("Connection error: "),
            StoreError::Query(_) => owned("Query error: "),
            StoreError::Serialization(_) => owned("Serialization error: "),
            StoreError::NotFound(_) => owned("Object not found: "),
            StoreError::Transaction(_) => owned("Transaction failed: "),
            StoreError::Configuration(_) => owned("Configuration error: "),
            StoreError::WriteError(_) => owned("Write error: "),
            StoreError::ReadError(_) => owned("Read error: "),
            StoreError::Unknown(_) => owned("Unknown error: "),
        };
        out.append(self.message());
        out
    }
}

/// Whether `c` is a lower-case hexadecimal digit or a hyphen.
pub open spec fn is_uuid_char(c: char) -> bool {
    ||| ('0' <= c && c <= '9')
    ||| ('a' <= c && c <= 'f')
    ||| c == '-'
}

/// `Utc::now` of the `chrono` crate, written by `DateTime::to_rfc3339`: the present time
/// as RFC 3339 text. Nothing is promised of the text, which differs from call to call.
/// `Utc::now` panics on a machine whose clock stands before 1970.
#[verifier::external_body]
pub(crate) fn current_timestamp() -> (now: String) {
    chrono::Utc::now().to_rfc3339()
}

/// `Uuid::new_v4` of the `uuid` crate, written by its `Display` impl: a random identifier
/// in the hyphenated form, which is 36 characters, each a lower-case hexadecimal digit
/// or a hyphen. Nothing more is promised of it: that two calls differ is a matter of
/// chance. `new_v4` panics on a machine that gives no random bytes.
#[verifier::external_body]
pub(crate) fn fresh_identifier() -> (id: String)
    ensures
        id@.len() == 36,
        forall|i: int| 0 <= i < id@.len() ==> is_uuid_char(#[trigger] id@[i]),
{
    uuid::Uuid::new_v4().to_string()
}

impl IndexedObject {
    /// An object indexed now.
    pub fn new(object_type: String, object_id: String, properties: PropertyMap) -> (object: Self)
        ensures
            object.object_type == object_type,
            object.object_id == object_id,
            object.properties == properties,
    {
        IndexedObject { object_type, object_id, properties, indexed_at: current_timestamp() }
    }

    /// An object that was indexed at `indexed_at`.
    pub fn at(
        object_type: String,
        object_id: String,
        properties: PropertyMap,
        indexed_at: String,
    ) -> (object: Self)
        ensures
            object.object_type == object_type,
            object.object_id == object_id,
            object.properties == properties,
            object.indexed_at == indexed_at,
    {
        IndexedObject { object_type, object_id, properties, indexed_at }
    }
}

} // verus!
