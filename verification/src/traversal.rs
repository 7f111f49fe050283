//! Traversals of the graph: which query is sent for each link type, how the node
//! handles that come back are turned into object ids, and when the reached set is done.

use vstd::prelude::*;
use vstd::string::*;
use crate::analytics::cell_is;
use crate::assoc::{find_name, lookup, named};
use crate::columnar::ParquetStore;
use crate::graph::{
    aggregation_refused, collect_uids, compile_expression, compile_reduction, expression_of,
    filters_refused,
    extract_ids_from_traversal, first_field, number_of, reduction_of, sanitized, targets_of,
    traversal_text, uid_of, xid_from_lookup, xid_lookup_query, xid_lookup_text,
};
use crate::json::{json_models, member_of, JsonModel, JsonValue};
use crate::identity::{query_outcome, read_answer, AnswerModel, GraphAnswer};
use crate::property::{models_of, PropertyModel, PropertyValue};
use crate::store::{
    Aggregation, ErrorKind, Filter, StoreError, TraversalAggregation, TraversalAggregationResult,
};
use crate::text::{
    lemma_with_unique_once, no_duplicates, owned, push_unique, views, with_unique,
};

verus! {

/// The mathematical value of a [`Traversal`].
pub struct TraversalModel {
    /// The node handle of the object from which the traversal starts.
    pub start_uid: Seq<char>,
    /// The link types to follow.
    pub link_types: Seq<Seq<char>>,
    pub max_hops: nat,
    /// The condition on the edges of the first hop; empty for none.
    pub condition: Seq<char>,
    /// How many link types have been asked and answered.
    pub asked: nat,
    /// The node handles reached so far.
    pub uids: Seq<Seq<char>>,
    /// How many node handles have been turned into object ids.
    pub resolved: nat,
    /// The object ids reached so far.
    pub ids: Seq<Seq<char>>,
}

/// A traversal under way.
#[derive(Debug)]
pub struct Traversal {
    start_uid: String,
    link_type_ids: Vec<String>,
    max_hops: usize,
    condition: String,
    asked: usize,
    uids: Vec<String>,
    resolved: usize,
    ids: Vec<String>,
}

/// The next step of a traversal.
#[derive(Debug)]
pub enum TraversalStep {
    /// Run the query and come back with the answer.
    Ask(Traversal, String),
    /// The object ids reached, or the error that ended the traversal.
    Finished(Result<Vec<String>, StoreError>),
}

/// The mathematical value of a [`TraversalStep`].
pub enum TraversalOutcome {
    Ask(TraversalModel, Seq<char>),
    Reached(Seq<Seq<char>>),
    Failed(ErrorKind, Seq<char>),
}

impl View for Traversal {
    type V = TraversalModel;

    closed spec fn view(&self) -> TraversalModel {
        TraversalModel {
            start_uid: self.start_uid@,
            link_types: views(self.link_type_ids@),
            max_hops: self.max_hops as nat,
            condition: self.condition@,
            asked: self.asked as nat,
            uids: views(self.uids@),
            resolved: self.resolved as nat,
            ids: views(self.ids@),
        }
    }
}

impl View for TraversalStep {
    type V = TraversalOutcome;

    open spec fn view(&self) -> TraversalOutcome {
        match self {
            TraversalStep::Ask(traversal, query) => TraversalOutcome::Ask(traversal@, query@),
            TraversalStep::Finished(Ok(ids)) => TraversalOutcome::Reached(views(ids@)),
            TraversalStep::Finished(Err(e)) => TraversalOutcome::Failed(e@.0, e@.1),
        }
    }
}

/// A traversal that has asked nothing yet.
pub open spec fn fresh(
    start_uid: Seq<char>,
    link_types: Seq<Seq<char>>,
    max_hops: nat,
    condition: Seq<char>,
) -> TraversalModel {
    TraversalModel {
        start_uid,
        link_types,
        max_hops,
        condition,
        asked: 0,
        uids: Seq::<Seq<char>>::empty(),
        resolved: 0,
        ids: Seq::<Seq<char>>::empty(),
    }
}

/// What a traversal does next: it asks for the next link type while one is left, then
/// for the object id of the next node handle while one is left, and then hands out the
/// object ids that it has reached.
pub open spec fn next_step(t: TraversalModel) -> TraversalOutcome {
    if t.asked < t.link_types.len() {
        TraversalOutcome::Ask(
            t,
            traversal_text(
                t.start_uid,
                sanitized(t.link_types[t.asked as int]),
                t.max_hops,
                t.condition,
                1,
                Seq::<char>::empty(),
            ),
        )
    } else if t.resolved < t.uids.len() {
        TraversalOutcome::Ask(t, xid_lookup_text(t.uids[t.resolved as int]))
    } else {
        TraversalOutcome::Reached(t.ids)
    }
}

/// The traversal after the answer to what it asked.
///
/// The answer to a link type adds its node handles to those reached. The answer to a
/// node handle adds the object id that it names, or the handle itself where it names
/// none. Where the query or the parsing of an answer failed, the traversal ends with
/// that read error: no failure of the database is passed over.
pub open spec fn absorb(t: TraversalModel, answer: AnswerModel) -> Result<
    TraversalModel,
    (ErrorKind, Seq<char>),
> {
    if t.asked < t.link_types.len() {
        match query_outcome(answer) {
            Err(e) => Err(e),
            Ok(doc) => Ok(
                TraversalModel { asked: t.asked + 1, uids: collect_uids(doc, t.uids), ..t },
            ),
        }
    } else if t.resolved < t.uids.len() {
        match query_outcome(answer) {
            Err(e) => Err(e),
            Ok(doc) => Ok(
                TraversalModel {
                    resolved: t.resolved + 1,
                    ids: with_unique(
                        t.ids,
                        match first_field(doc, "node"@, "xid"@) {
                            Some(xid) => xid,
                            None => t.uids[t.resolved as int],
                        },
                    ),
                    ..t
                },
            ),
        }
    } else {
        Ok(t)
    }
}

/// The step that follows an answer.
pub open spec fn after_answer(t: TraversalModel, answer: AnswerModel) -> TraversalOutcome {
    match absorb(t, answer) {
        Ok(next) => next_step(next),
        Err(e) => TraversalOutcome::Failed(e.0, e.1),
    }
}

/// Whether `e` refuses a traversal over `max_hops` hops with these filters: the query
/// error that says that the hops are too many, or else that of the filters.
pub open spec fn traversal_refused(
    max_hops: usize,
    filters: Seq<Filter>,
    e: (ErrorKind, Seq<char>),
) -> bool {
    if max_hops > usize::MAX - 2 {
        e == (ErrorKind::Query, "Too many hops"@)
    } else {
        expression_of(filters) is None && filters_refused(filters, e)
    }
}

/// Whether `e` refuses a traversal with a reduction: the refusal of the aggregation,
/// or else the query error that says that the hops are too many.
pub open spec fn reduction_refused(
    max_hops: usize,
    aggregation: TraversalAggregation,
    e: (ErrorKind, Seq<char>),
) -> bool {
    if reduction_of(aggregation.operation, aggregation.property@) is None || expression_of(
        aggregation.object_filters@,
    ) is None {
        aggregation_refused(aggregation, e)
    } else {
        max_hops > usize::MAX - 2 && e == (ErrorKind::Query, "Too many hops"@)
    }
}

impl Traversal {
    #[verifier::type_invariant]
    spec fn well_formed(self) -> bool {
        &&& 0 < self.max_hops <= usize::MAX - 2
        &&& self.asked <= self.link_type_ids@.len()
        &&& self.resolved <= self.uids@.len()
        &&& self.asked < self.link_type_ids@.len() ==> self.resolved == 0
        &&& no_duplicates(views(self.ids@))
    }

    /// Begins a traversal from the node `start_uid` over the edges of the given link
    /// types on which every filter holds, up to `max_hops` edges away.
    ///
    /// A traversal of no hops reaches nothing. One of more hops than a query can be
    /// indented for, or with a filter that does not compile, is refused with a query
    /// error that says which of the two it is.
    pub fn begin(
        start_uid: &str,
        link_type_ids: Vec<String>,
        max_hops: usize,
        link_filters: &Vec<Filter>,
    ) -> (step: TraversalStep)
        ensures
            max_hops == 0 ==> step@ == TraversalOutcome::Reached(Seq::<Seq<char>>::empty()),
            max_hops > 0 && (max_hops > usize::MAX - 2 || expression_of(link_filters@) is None)
                ==> step@ is Failed && traversal_refused(
                max_hops,
                link_filters@,
                (step@->Failed_0, step@->Failed_1),
            ),
            0 < max_hops <= usize::MAX - 2 && expression_of(link_filters@) is Some ==> step@
                == next_step(
                fresh(
                    start_uid@,
                    views(link_type_ids@),
                    max_hops as nat,
                    expression_of(link_filters@)->0,
                ),
            ),
    {
        if max_hops == 0 {
            let none: Vec<String> = Vec::new();
            proof {
                assert(views(none@) =~= Seq::<Seq<char>>::empty());
            }
            return TraversalStep::Finished(Ok(none));
        }
        if max_hops > usize::MAX - 2 {
            return TraversalStep::Finished(
                Err(StoreError::Query(owned("Too many hops"))),
            );
        }
        let condition = match compile_expression(link_filters) {
            Ok(condition) => condition,
            Err(e) => {
                return TraversalStep::Finished(Err(e));
            },
        };
        let uids: Vec<String> = Vec::new();
        let ids: Vec<String> = Vec::new();
        proof {
            assert(views(uids@) =~= Seq::<Seq<char>>::empty());
            assert(views(ids@) =~= Seq::<Seq<char>>::empty());
        }
        let traversal = Traversal {
            start_uid: owned(start_uid),
            link_type_ids,
            max_hops,
            condition,
            asked: 0,
            uids,
            resolved: 0,
            ids,
        };
        traversal.next()
    }

    /// Begins the traversal that reaches the objects one edge of one link type away.
    pub fn begin_connected(start_uid: &str, link_type_id: &str) -> (step: TraversalStep)
        ensures
            step@ == next_step(
                fresh(start_uid@, seq![link_type_id@], 1, Seq::<char>::empty()),
            ),
    {
        let mut link_type_ids: Vec<String> = Vec::new();
        link_type_ids.push(owned(link_type_id));
        let none: Vec<Filter> = Vec::new();
        proof {
            assert(views(link_type_ids@) =~= seq![link_type_id@]);
            assert(none@ =~= Seq::<Filter>::empty());
            assert(crate::graph::conditions_of(none@) == Some(Seq::<Seq<char>>::empty()));
            assert(expression_of(none@) == Some(Seq::<char>::empty()));
        }
        Traversal::begin(start_uid, link_type_ids, 1, &none)
    }

    /// Decides the next step of the traversal as it stands.
    fn next(self) -> (step: TraversalStep)
        ensures
            step@ == next_step(self@),
            step@ matches TraversalOutcome::Reached(ids) ==> no_duplicates(ids),
    {
        proof {
            use_type_invariant(&self);
        }
        if self.asked < self.link_type_ids.len() {
            let query = crate::graph::conditioned_traversal_query(
                self.start_uid.as_str(),
                self.link_type_ids[self.asked].as_str(),
                self.max_hops,
                self.condition.as_str(),
            );
            proof {
                assert(views(self.link_type_ids@)[self.asked as int]
                    == self.link_type_ids@[self.asked as int]@);
            }
            TraversalStep::Ask(self, query)
        } else if self.resolved < self.uids.len() {
            let query = xid_lookup_query(self.uids[self.resolved].as_str());
            proof {
                assert(views(self.uids@)[self.resolved as int] == self.uids@[self.resolved as int]@);
            }
            TraversalStep::Ask(self, query)
        } else {
            TraversalStep::Finished(Ok(self.ids))
        }
    }

    /// Takes the answer to the query that the traversal asked, and decides the next step.
    ///
    /// The object ids that a traversal hands out at its end hold no id twice.
    pub fn advance(self, answer: &GraphAnswer) -> (step: TraversalStep)
        ensures
            step@ == after_answer(self@, answer@),
            step@ matches TraversalOutcome::Reached(ids) ==> no_duplicates(ids),
    {
        proof {
            use_type_invariant(&self);
        }
        let ghost before = self@;
        let Traversal {
            start_uid,
            link_type_ids,
            max_hops,
            condition,
            mut asked,
            mut uids,
            mut resolved,
            mut ids,
        } = self;
        if asked < link_type_ids.len() {
            match read_answer(answer) {
                Err(e) => {
                    return TraversalStep::Finished(Err(e));
                },
                Ok(doc) => {
                    extract_ids_from_traversal(&doc, &mut uids);
                    asked = asked + 1;
                },
            }
        } else if resolved < uids.len() {
            proof {
                assert(views(uids@)[resolved as int] == uids@[resolved as int]@);
            }
            match read_answer(answer) {
                Err(e) => {
                    return TraversalStep::Finished(Err(e));
                },
                Ok(doc) => {
                    let id = xid_from_lookup(&doc, uids[resolved].as_str());
                    proof {
                        lemma_with_unique_once(views(ids@), id@);
                    }
                    push_unique(&mut ids, id.as_str());
                },
            }
            resolved = resolved + 1;
        }
        let traversal = Traversal {
            start_uid,
            link_type_ids,
            max_hops,
            condition,
            asked,
            uids,
            resolved,
            ids,
        };
        traversal.next()
    }
}

/// The key under which an answer lists the nodes one hop further: the reverse edge of
/// the label.
pub open spec fn reverse_edge(label: Seq<char>) -> Seq<char> {
    "~"@ + label
}

/// The nodes at the top of an answer.
pub open spec fn top_nodes(doc: JsonModel) -> Seq<JsonModel> {
    match member_of(doc, "node"@) {
        Some(JsonModel::Array(items)) => items,
        _ => Seq::<JsonModel>::empty(),
    }
}

/// The nodes that stand `depth` hops below the given nodes, in the order of the answer.
pub open spec fn nodes_below(items: Seq<JsonModel>, key: Seq<char>, depth: nat) -> Seq<JsonModel>
    decreases depth,
{
    if depth == 0 {
        items
    } else {
        nodes_below(targets_of(items, items.len(), key), key, (depth - 1) as nat)
    }
}

/// The number that a node carries under the name `value`.
pub open spec fn number_in(item: JsonModel) -> Option<PropertyModel> {
    match member_of(item, "value"@) {
        Some(doc) => number_of(doc),
        None => None,
    }
}

/// The objects that the first `n` nodes of the last hop add to those `found` before:
/// each node handle once, with the number that the node carries. Where every object
/// counts, a node comes in with null for its number; else a node without a number
/// adds nothing.
pub open spec fn gathered(
    items: Seq<JsonModel>,
    n: nat,
    every: bool,
    found: Seq<(Seq<char>, PropertyModel)>,
) -> Seq<(Seq<char>, PropertyModel)>
    decreases n,
{
    if n == 0 || n > items.len() {
        found
    } else {
        let before = gathered(items, (n - 1) as nat, every, found);
        match uid_of(items[n - 1]) {
            Some(uid) => if lookup(before, uid) is Some {
                before
            } else if every {
                before.push((uid, PropertyModel::Null))
            } else {
                match number_in(items[n - 1]) {
                    Some(value) => before.push((uid, value)),
                    None => before,
                }
            },
            None => before,
        }
    }
}

/// The mathematical value of a [`Reduction`].
pub struct ReductionModel {
    /// The node handle of the object from which the traversal starts.
    pub start_uid: Seq<char>,
    pub link_types: Seq<Seq<char>>,
    pub max_hops: nat,
    /// The condition on the objects of the last hop; empty for none.
    pub condition: Seq<char>,
    /// The property whose values are reduced; empty for a count.
    pub field: Seq<char>,
    pub operation: Aggregation,
    /// The objects of the last hop that were gathered, each with its number.
    pub found: Seq<(Seq<char>, PropertyModel)>,
    /// How many link types have been asked and answered.
    pub asked: nat,
}

/// A traversal with a reduction under way. Every link type is asked for the objects
/// of its last hop that meet the filters and for their values of the property. An
/// object that is reached over several link types or several paths is gathered once,
/// so that the value is reduced over the objects and not over the edges.
#[derive(Debug)]
pub struct Reduction {
    start_uid: String,
    link_type_ids: Vec<String>,
    max_hops: usize,
    condition: String,
    field: String,
    operation: Aggregation,
    found: Vec<(String, PropertyValue)>,
    asked: usize,
}

/// The next step of a traversal with a reduction.
#[derive(Debug)]
pub enum ReductionStep {
    /// Run the query and come back with the answer.
    Ask(Reduction, String),
    /// Every link type has answered: the objects are gathered and can be reduced.
    Gathered(Reduction),
    /// The error that ended the traversal.
    Failed(StoreError),
}

/// The mathematical value of a [`ReductionStep`].
pub enum ReductionOutcome {
    Ask(ReductionModel, Seq<char>),
    Gathered(ReductionModel),
    Failed(ErrorKind, Seq<char>),
}

impl View for Reduction {
    type V = ReductionModel;

    closed spec fn view(&self) -> ReductionModel {
        ReductionModel {
            start_uid: self.start_uid@,
            link_types: views(self.link_type_ids@),
            max_hops: self.max_hops as nat,
            condition: self.condition@,
            field: self.field@,
            operation: self.operation,
            found: named(self.found@),
            asked: self.asked as nat,
        }
    }
}

impl View for ReductionStep {
    type V = ReductionOutcome;

    open spec fn view(&self) -> ReductionOutcome {
        match self {
            ReductionStep::Ask(reduction, query) => ReductionOutcome::Ask(reduction@, query@),
            ReductionStep::Gathered(reduction) => ReductionOutcome::Gathered(reduction@),
            ReductionStep::Failed(e) => ReductionOutcome::Failed(e@.0, e@.1),
        }
    }
}

/// Whether a reduction has a link type left to ask.
pub open spec fn is_asking(m: ReductionModel) -> bool {
    m.max_hops > 0 && m.asked < m.link_types.len()
}

/// What a reduction does next: it asks the next link type while one is left, and then
/// has gathered its objects. A traversal of no hops asks nothing.
pub open spec fn reduce_next(m: ReductionModel) -> ReductionOutcome {
    if is_asking(m) {
        ReductionOutcome::Ask(
            m,
            traversal_text(
                m.start_uid,
                sanitized(m.link_types[m.asked as int]),
                m.max_hops,
                m.condition,
                m.max_hops,
                m.field,
            ),
        )
    } else {
        ReductionOutcome::Gathered(m)
    }
}

/// The step that follows an answer: the objects of the last hop in the answer are
/// gathered and the next link type is asked. Where the query or the parsing failed,
/// the reduction ends with that read error.
pub open spec fn reduce_after(m: ReductionModel, answer: AnswerModel) -> ReductionOutcome {
    if is_asking(m) {
        match query_outcome(answer) {
            Err(e) => ReductionOutcome::Failed(e.0, e.1),
            Ok(doc) => {
                let items = nodes_below(
                    top_nodes(doc),
                    reverse_edge(sanitized(m.link_types[m.asked as int])),
                    m.max_hops,
                );
                reduce_next(
                    ReductionModel {
                        asked: m.asked + 1,
                        found: gathered(items, items.len(), m.operation is Count, m.found),
                        ..m
                    },
                )
            },
        }
    } else {
        reduce_next(m)
    }
}

/// The numbers of the gathered objects, in order.
pub open spec fn numbers_of(found: Seq<(Seq<char>, PropertyModel)>) -> Seq<PropertyModel> {
    found.map_values(|e: (Seq<char>, PropertyModel)| e.1)
}

/// The nodes one hop below the given nodes.
fn nodes_under(items: &Vec<JsonValue>, key: &str) -> (out: Vec<JsonValue>)
    ensures
        json_models(out@) == targets_of(json_models(items@), items@.len(), key@),
{
    let ghost all = json_models(items@);
    let mut out: Vec<JsonValue> = Vec::new();
    let mut i: usize = 0;
    proof {
        assert(json_models(out@) =~= Seq::<JsonModel>::empty());
    }
    while i < items.len()
        invariant
            i <= items.len(),
            all == json_models(items@),
            json_models(out@) == targets_of(all, i as nat, key@),
        decreases items.len() - i,
    {
        proof {
            assert(all[i as int] == items@[i as int]@);
        }
        let ghost before = json_models(out@);
        match items[i].get(key) {
            Some(value) => match value.as_array() {
                Some(targets) => {
                    let mut k: usize = 0;
                    while k < targets.len()
                        invariant
                            k <= targets.len(),
                            json_models(out@) == before + json_models(targets@).take(k as int),
                        decreases targets.len() - k,
                    {
                        let ghost held = json_models(out@);
                        out.push(targets[k].clone());
                        proof {
                            assert(json_models(targets@)[k as int] == targets@[k as int]@);
                            assert(json_models(out@) =~= held.push(targets@[k as int]@));
                            assert(json_models(targets@).take(k + 1) =~= json_models(
                                targets@,
                            ).take(k as int).push(targets@[k as int]@));
                        }
                        k = k + 1;
                    }
                    proof {
                        assert(json_models(targets@).take(targets@.len() as int) =~= json_models(
                            targets@,
                        ));
                    }
                },
                None => {
                    proof {
                        assert(json_models(out@) =~= before + Seq::<JsonModel>::empty());
                    }
                },
            },
            None => {
                proof {
                    assert(json_models(out@) =~= before + Seq::<JsonModel>::empty());
                }
            },
        }
        i = i + 1;
    }
    out
}

/// The nodes of the last hop of an answer.
fn last_hop(answer: &JsonValue, key: &str, hops: usize) -> (out: Vec<JsonValue>)
    ensures
        json_models(out@) == nodes_below(top_nodes(answer@), key@, hops as nat),
{
    let mut level: Vec<JsonValue> = Vec::new();
    proof {
        assert(json_models(level@) =~= Seq::<JsonModel>::empty());
    }
    match answer.get("node") {
        Some(value) => match value.as_array() {
            Some(items) => {
                let mut k: usize = 0;
                while k < items.len()
                    invariant
                        k <= items.len(),
                        json_models(level@) == json_models(items@).take(k as int),
                    decreases items.len() - k,
                {
                    let ghost held = json_models(level@);
                    level.push(items[k].clone());
                    proof {
                        assert(json_models(items@)[k as int] == items@[k as int]@);
                        assert(json_models(level@) =~= held.push(items@[k as int]@));
                        assert(json_models(items@).take(k + 1) =~= json_models(items@).take(
                            k as int,
                        ).push(items@[k as int]@));
                    }
                    k = k + 1;
                }
                proof {
                    assert(json_models(items@).take(items@.len() as int) =~= json_models(items@));
                }
            },
            None => {},
        },
        None => {},
    }
    let mut left: usize = hops;
    while left > 0
        invariant
            left <= hops,
            nodes_below(json_models(level@), key@, left as nat) == nodes_below(
                top_nodes(answer@),
                key@,
                hops as nat,
            ),
        decreases left,
    {
        level = nodes_under(&level, key);
        left = left - 1;
    }
    level
}

/// Adds the objects among the nodes of a last hop to those found before.
fn gather(items: &Vec<JsonValue>, every: bool, found: &mut Vec<(String, PropertyValue)>)
    ensures
        named(final(found)@) == gathered(
            json_models(items@),
            items@.len(),
            every,
            named(old(found)@),
        ),
{
    let ghost all = json_models(items@);
    let mut i: usize = 0;
    while i < items.len()
        invariant
            i <= items.len(),
            all == json_models(items@),
            named(found@) == gathered(all, i as nat, every, named(old(found)@)),
        decreases items.len() - i,
    {
        proof {
            assert(all[i as int] == items@[i as int]@);
        }
        let uid = match items[i].get("uid") {
            Some(value) => value.as_str(),
            None => None,
        };
        match uid {
            Some(uid) => {
                let at = find_name(found, uid);
                if at >= found.len() {
                    let ghost before = named(found@);
                    let number: Option<PropertyValue> = if every {
                        Some(PropertyValue::Null)
                    } else {
                        match items[i].get("value") {
                            Some(JsonValue::Integer(n)) => Some(PropertyValue::Integer(*n)),
                            Some(JsonValue::Decimal(t)) => Some(PropertyValue::Double(t.clone())),
                            _ => None,
                        }
                    };
                    match number {
                        Some(value) => {
                            found.push((owned(uid), value));
                            proof {
                                assert(named(found@) =~= before.push((uid@, value@)));
                            }
                        },
                        None => {},
                    }
                }
            },
            None => {},
        }
        i = i + 1;
    }
}

impl Reduction {
    #[verifier::type_invariant]
    spec fn well_formed(self) -> bool {
        &&& self.max_hops <= usize::MAX - 2
        &&& self.asked <= self.link_type_ids@.len()
    }

    /// Begins a traversal with a reduction from the node `start_uid`. The aggregation
    /// and the filters on the objects are compiled first, so that what the database
    /// cannot do is refused before anything is asked.
    ///
    /// The error is a query error, and comes exactly where the aggregation is none
    /// that the database knows, a filter does not compile or there are more hops than
    /// a query can be indented for. It says which of them it is, in that order.
    pub fn begin(
        start_uid: &str,
        link_type_ids: Vec<String>,
        max_hops: usize,
        aggregation: TraversalAggregation,
    ) -> (step: ReductionStep)
        ensures
            (reduction_of(aggregation.operation, aggregation.property@) is None || expression_of(
                aggregation.object_filters@,
            ) is None || max_hops > usize::MAX - 2) ==> step@ is Failed && reduction_refused(
                max_hops,
                aggregation,
                (step@->Failed_0, step@->Failed_1),
            ),
            reduction_of(aggregation.operation, aggregation.property@) is Some && expression_of(
                aggregation.object_filters@,
            ) is Some && max_hops <= usize::MAX - 2 ==> step@ == reduce_next(
                ReductionModel {
                    start_uid: start_uid@,
                    link_types: views(link_type_ids@),
                    max_hops: max_hops as nat,
                    condition: expression_of(aggregation.object_filters@)->0,
                    field: if aggregation.operation is Count {
                        Seq::<char>::empty()
                    } else {
                        aggregation.property@
                    },
                    operation: aggregation.operation,
                    found: Seq::<(Seq<char>, PropertyModel)>::empty(),
                    asked: 0,
                },
            ),
    {
        match compile_reduction(&aggregation) {
            Ok(_) => {},
            Err(e) => {
                return ReductionStep::Failed(e);
            },
        }
        let condition = match compile_expression(&aggregation.object_filters) {
            Ok(text) => text,
            Err(e) => {
                return ReductionStep::Failed(e);
            },
        };
        if max_hops > usize::MAX - 2 {
            return ReductionStep::Failed(
                StoreError::Query(owned("Too many hops")),
            );
        }
        let TraversalAggregation { property, operation, object_filters: _ } = aggregation;
        let field = match &operation {
            Aggregation::Count => String::new(),
            _ => property,
        };
        let found: Vec<(String, PropertyValue)> = Vec::new();
        proof {
            assert(named(found@) =~= Seq::<(Seq<char>, PropertyModel)>::empty());
        }
        let reduction = Reduction {
            start_uid: owned(start_uid),
            link_type_ids,
            max_hops,
            condition,
            field,
            operation,
            found,
            asked: 0,
        };
        reduction.next()
    }

    /// Decides the next step of the reduction as it stands.
    fn next(self) -> (step: ReductionStep)
        ensures
            step@ == reduce_next(self@),
    {
        proof {
            use_type_invariant(&self);
        }
        if self.max_hops > 0 && self.asked < self.link_type_ids.len() {
            proof {
                assert(views(self.link_type_ids@)[self.asked as int]
                    == self.link_type_ids@[self.asked as int]@);
            }
            let query = crate::graph::reducing_traversal_query(
                self.start_uid.as_str(),
                self.link_type_ids[self.asked].as_str(),
                self.max_hops,
                self.condition.as_str(),
                self.field.as_str(),
            );
            ReductionStep::Ask(self, query)
        } else {
            ReductionStep::Gathered(self)
        }
    }

    /// Takes the answer to the query that the reduction asked, and decides the next
    /// step.
    pub fn advance(self, answer: &GraphAnswer) -> (step: ReductionStep)
        ensures
            step@ == reduce_after(self@, answer@),
    {
        proof {
            use_type_invariant(&self);
        }
        let Reduction {
            start_uid,
            link_type_ids,
            max_hops,
            condition,
            field,
            operation,
            mut found,
            mut asked,
        } = self;
        if max_hops > 0 && asked < link_type_ids.len() {
            match read_answer(answer) {
                Err(e) => {
                    return ReductionStep::Failed(e);
                },
                Ok(doc) => {
                    proof {
                        assert(views(link_type_ids@)[asked as int] == link_type_ids@[asked as int]@);
                    }
                    let label = crate::graph::sanitize_predicate(link_type_ids[asked].as_str());
                    let mut key = owned("~");
                    key.append(label.as_str());
                    let items = last_hop(&doc, key.as_str(), max_hops);
                    let every = match &operation {
                        Aggregation::Count => true,
                        _ => false,
                    };
                    gather(&items, every, &mut found);
                    asked = asked + 1;
                },
            }
        }
        let reduction = Reduction {
            start_uid,
            link_type_ids,
            max_hops,
            condition,
            field,
            operation,
            found,
            asked,
        };
        reduction.next()
    }

    /// How many objects the reduction has gathered.
    pub fn count(&self) -> (n: usize)
        ensures
            n == self@.found.len(),
    {
        self.found.len()
    }

    /// What the reduction makes of the objects that it has gathered: the value of the
    /// aggregation over their numbers, and how many objects went into it. Arithmetic
    /// on fractions is left to `fractions`, as in an analytic query.
    pub fn result<F: Fn(&Aggregation, &Vec<String>) -> PropertyValue>(&self, fractions: &F) -> (out:
        TraversalAggregationResult)
        requires
            self@.found.len() <= i64::MAX,
            forall|a: &Aggregation, t: &Vec<String>| call_requires(*fractions, (a, t)),
        ensures
            out.count == self@.found.len(),
            cell_is(
                *fractions,
                self@.operation,
                self@.found.len(),
                numbers_of(self@.found),
                out.value@,
            ),
    {
        let mut values: Vec<PropertyValue> = Vec::new();
        let mut i: usize = 0;
        while i < self.found.len()
            invariant
                i <= self.found.len(),
                values@.len() == i,
                forall|k: int| 0 <= k < i ==> values@[k]@ == self.found@[k].1@,
            decreases self.found.len() - i,
        {
            values.push(self.found[i].1.clone());
            i = i + 1;
        }
        proof {
            assert(models_of(values@) =~= numbers_of(named(self.found@)));
        }
        let value = ParquetStore::reduce_values(
            &self.operation,
            self.found.len(),
            &values,
            fractions,
        );
        TraversalAggregationResult { value, count: self.found.len() }
    }
}

} // verus!
