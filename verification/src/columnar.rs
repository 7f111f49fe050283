//! The columnar store's files, schemas and the analytic queries that it accepts.

use vstd::prelude::*;
use vstd::string::*;
use crate::property::{entry_models, PropertyModel};
use crate::store::{Aggregation, AnalyticsQuery, ErrorKind, Filter, FilterOperator, IndexedObject, StoreError};
use crate::text::{push_unique, views, with_unique};

verus! {

/// The pure half of the columnar store: it knows the directory in which the file of
/// each object type lies.
#[derive(Debug, Clone)]
pub struct ParquetStore {
    pub base_path: String,
}

/// The path of the file of an object type: the directory, a slash, the type and the
/// ending `.parquet`.
pub open spec fn file_text(base_path: Seq<char>, object_type: Seq<char>) -> Seq<char> {
    base_path + "/"@ + object_type + ".parquet"@
}

/// The columns that the first `n` entries of an object add to those `found` before.
pub open spec fn columns_of_entries(
    entries: Seq<(Seq<char>, PropertyModel)>,
    n: nat,
    found: Seq<Seq<char>>,
) -> Seq<Seq<char>>
    decreases n,
{
    if n == 0 || n > entries.len() {
        found
    } else {
        with_unique(columns_of_entries(entries, (n - 1) as nat, found), entries[n - 1].0)
    }
}

/// The schema of a batch: the union of the property names of its first `n` objects,
/// each once, in the order in which they are first seen.
pub open spec fn schema_of(objects: Seq<IndexedObject>, n: nat) -> Seq<Seq<char>>
    decreases n,
{
    if n == 0 || n > objects.len() {
        Seq::<Seq<char>>::empty()
    } else {
        columns_of_entries(
            objects[n - 1].properties@,
            objects[n - 1].properties@.len(),
            schema_of(objects, (n - 1) as nat),
        )
    }
}

/// Whether the store can push a filter down into its scan: it can for an equality.
pub open spec fn can_push_down(filter: Filter) -> bool {
    filter.operator == FilterOperator::Equals
}

/// Whether the store can compute an aggregation as a reduction over a column: it can
/// for every aggregation but the largest and the smallest `n` values, which need a
/// full sort.
pub open spec fn can_reduce(aggregation: Aggregation) -> bool {
    !(aggregation is TopN) && !(aggregation is BottomN)
}

/// Whether the store accepts a query: it can push down every filter and reduce every
/// aggregation.
pub open spec fn accepts(query: AnalyticsQuery) -> bool {
    &&& forall|i: int| 0 <= i < query.filters@.len() ==> can_push_down(#[trigger] query.filters@[i])
    &&& forall|i: int|
        0 <= i < query.aggregations@.len() ==> can_reduce(#[trigger] query.aggregations@[i])
}

/// The message that refuses a filter: that a filter that is no equality on its
/// property is unsupported.
pub open spec fn filter_message(filter: Filter) -> Seq<char> {
    "Unsupported in an analytic query: a filter that is no equality on "@ + filter.property@
}

/// The message that refuses an aggregation: that the largest, or the smallest, values
/// of its property are unsupported.
pub open spec fn aggregation_message(aggregation: Aggregation) -> Seq<char> {
    match aggregation {
        Aggregation::TopN(property, _) => "Unsupported in an analytic query: the largest values of "@
            + property@,
        Aggregation::BottomN(property, _) =>
            "Unsupported in an analytic query: the smallest values of "@ + property@,
        _ => Seq::<char>::empty(),
    }
}

/// Whether the filter at `at` is the first that the store cannot push down.
pub open spec fn is_first_kept_up(filters: Seq<Filter>, at: int) -> bool {
    &&& 0 <= at < filters.len()
    &&& !can_push_down(filters[at])
    &&& forall|j: int| 0 <= j < at ==> can_push_down(#[trigger] filters[j])
}

/// Whether the aggregation at `at` is the first that the store cannot reduce.
pub open spec fn is_first_unreduced(aggregations: Seq<Aggregation>, at: int) -> bool {
    &&& 0 <= at < aggregations.len()
    &&& !can_reduce(aggregations[at])
    &&& forall|j: int| 0 <= j < at ==> can_reduce(#[trigger] aggregations[j])
}

/// Whether `e` is the refusal of a query: the query error that names the first filter
/// that cannot be pushed down or, where every filter can, the first aggregation that
/// cannot be reduced.
pub open spec fn query_refused(query: AnalyticsQuery, e: (ErrorKind, Seq<char>)) -> bool {
    ||| exists|at: int|
        #[trigger] is_first_kept_up(query.filters@, at) && e == (
            ErrorKind::Query,
            filter_message(query.filters@[at]),
        )
    ||| {
        &&& forall|i: int|
            0 <= i < query.filters@.len() ==> can_push_down(#[trigger] query.filters@[i])
        &&& exists|at: int|
            #[trigger] is_first_unreduced(query.aggregations@, at) && e == (
                ErrorKind::Query,
                aggregation_message(query.aggregations@[at]),
            )
    }
}

impl ParquetStore {
    /// A store whose files lie in `base_path`.
    pub fn new(base_path: String) -> (store: Self)
        ensures
            store.base_path == base_path,
    {
        ParquetStore { base_path }
    }

    /// The path of the file that holds the objects of a type.
    pub fn file_path(&self, object_type: &str) -> (path: String)
        ensures
            path@ == file_text(self.base_path@, object_type@),
    {
        let mut path = self.base_path.clone();
        path.append("/");
        path.append(object_type);
        path.append(".parquet");
        path
    }

    /// The columns of the file that a batch is written to: the union of the properties
    /// that its objects have.
    pub fn infer_schema(objects: &Vec<IndexedObject>) -> (columns: Vec<String>)
        ensures
            views(columns@) == schema_of(objects@, objects@.len()),
    {
        let mut columns: Vec<String> = Vec::new();
        let mut i: usize = 0;
        proof {
            assert(views(columns@) =~= Seq::<Seq<char>>::empty());
        }
        while i < objects.len()
            invariant
                i <= objects.len(),
                views(columns@) == schema_of(objects@, i as nat),
            decreases objects.len() - i,
        {
            let entries = objects[i].properties.iter();
            let ghost before = views(columns@);
            let mut k: usize = 0;
            while k < entries.len()
                invariant
                    k <= entries.len(),
                    i < objects.len(),
                    entry_models(entries@) == objects@[i as int].properties@,
                    views(columns@) == columns_of_entries(
                        objects@[i as int].properties@,
                        k as nat,
                        before,
                    ),
                decreases entries.len() - k,
            {
                proof {
                    assert(entry_models(entries@)[k as int].0 == entries@[k as int].0@);
                }
                push_unique(&mut columns, entries[k].0.as_str());
                k = k + 1;
            }
            i = i + 1;
        }
        columns
    }

    /// Checks that the store accepts an analytic query.
    ///
    /// The error is a query error, and comes exactly where the query holds a filter
    /// that is no equality or asks for the largest or the smallest `n` values: neither
    /// is left out or approximated. It names the property of the first such filter or,
    /// where there is none, of the first such aggregation.
    pub fn validate_analytics(query: &AnalyticsQuery) -> (out: Result<(), StoreError>)
        ensures
            match out {
                Ok(_) => accepts(*query),
                Err(e) => !accepts(*query) && query_refused(*query, e@),
            },
    {
        let mut i: usize = 0;
        while i < query.filters.len()
            invariant
                i <= query.filters.len(),
                forall|k: int| 0 <= k < i ==> can_push_down(#[trigger] query.filters@[k]),
            decreases query.filters.len() - i,
        {
            match query.filters[i].operator {
                FilterOperator::Equals => {},
                _ => {
                    proof {
                        assert(!can_push_down(query.filters@[i as int]));
                        assert(is_first_kept_up(query.filters@, i as int));
                    }
                    return Err(
                        StoreError::described(
                            ErrorKind::Query,
                            "Unsupported in an analytic query: a filter that is no equality on ",
                            query.filters[i].property.as_str(),
                        ),
                    );
                },
            }
            i = i + 1;
        }
        let mut k: usize = 0;
        while k < query.aggregations.len()
            invariant
                k <= query.aggregations.len(),
                forall|j: int|
                    0 <= j < query.filters@.len() ==> can_push_down(#[trigger] query.filters@[j]),
                forall|j: int| 0 <= j < k ==> can_reduce(#[trigger] query.aggregations@[j]),
            decreases query.aggregations.len() - k,
        {
            match &query.aggregations[k] {
                Aggregation::TopN(property, _) => {
                    proof {
                        assert(!can_reduce(query.aggregations@[k as int]));
                        assert(is_first_unreduced(query.aggregations@, k as int));
                    }
                    return Err(
                        StoreError::described(
                            ErrorKind::Query,
                            "Unsupported in an analytic query: the largest values of ",
                            property.as_str(),
                        ),
                    );
                },
                Aggregation::BottomN(property, _) => {
                    proof {
                        assert(!can_reduce(query.aggregations@[k as int]));
                        assert(is_first_unreduced(query.aggregations@, k as int));
                    }
                    return Err(
                        StoreError::described(
                            ErrorKind::Query,
                            "Unsupported in an analytic query: the smallest values of ",
                            property.as_str(),
                        ),
                    );
                },
                _ => {},
            }
            k = k + 1;
        }
        Ok(())
    }
}

} // verus!
