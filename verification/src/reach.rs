//! What a traversal reaches, stated over what the database answers: the traversal
//! hands out exactly the ids of the nodes that the answers list, each once, however
//! many parallel edges lead to one of them; and a traversal that the database answers
//! with fewer nodes, as one with filters, hands out a part of them. For one hop over
//! one link type the answers are written out over the neighbours of the start.

use vstd::prelude::*;
use crate::graph::{
    collect_items, collect_members, collect_uids, lemma_unique_holds, sanitized, uid_of, unique,
    xid_lookup_text,
};
use crate::identity::{query_outcome, AnswerModel};
use crate::json::{member_of, JsonModel};
use crate::store::ErrorKind;
use crate::text::{no_duplicates, with_unique};
use crate::traversal::{
    absorb, after_answer, fresh, next_step, reverse_edge, TraversalModel, TraversalOutcome,
};

verus! {

/// A node as an answer lists it: its handle and its external id.
pub open spec fn listed_node(uid: Seq<char>, xid: Seq<char>) -> JsonModel {
    JsonModel::Object(seq![("uid"@, JsonModel::String(uid)), ("xid"@, JsonModel::String(xid))])
}

/// The nodes that an answer lists, one for each handle, in order.
pub open spec fn listed_nodes(uids: Seq<Seq<char>>, xids: Seq<Seq<char>>) -> Seq<JsonModel> {
    Seq::new(
        uids.len(),
        |i: int|
            listed_node(
                uids[i],
                if 0 <= i < xids.len() {
                    xids[i]
                } else {
                    Seq::<char>::empty()
                },
            ),
    )
}

/// The answer of the database to a traversal of one hop: under the start, under the
/// reverse edge of the label, the nodes that the edges lead to. A node that several
/// edges lead to is listed several times.
pub open spec fn one_hop_answer(label: Seq<char>, uids: Seq<Seq<char>>, xids: Seq<Seq<char>>) -> JsonModel {
    JsonModel::Object(
        seq![
            (
                "node"@,
                JsonModel::Array(
                    seq![
                        JsonModel::Object(
                            seq![
                                (reverse_edge(label), JsonModel::Array(listed_nodes(uids, xids))),
                            ],
                        ),
                    ],
                ),
            ),
        ],
    )
}

/// The answer of the database to the question for the external id of a node.
pub open spec fn name_answer(uid: Seq<char>, xid: Seq<char>) -> JsonModel {
    JsonModel::Object(seq![("node"@, JsonModel::Array(seq![listed_node(uid, xid)]))])
}

/// The first `n` handles added to those found before, each once.
pub open spec fn added_once(found: Seq<Seq<char>>, uids: Seq<Seq<char>>, n: nat) -> Seq<Seq<char>>
    decreases n,
{
    if n == 0 || n > uids.len() {
        found
    } else {
        with_unique(added_once(found, uids, (n - 1) as nat), uids[n - 1])
    }
}

/// A listed node adds nothing but its own handle.
pub proof fn lemma_listed_node(uid: Seq<char>, xid: Seq<char>, found: Seq<Seq<char>>)
    ensures
        uid_of(listed_node(uid, xid)) == Some(uid),
        collect_uids(listed_node(uid, xid), found) == found,
{
    let node = listed_node(uid, xid);
    let entries = seq![("uid"@, JsonModel::String(uid)), ("xid"@, JsonModel::String(xid))];
    reveal_strlit("uid");
    reveal_strlit("xid");
    assert(entries.drop_last() =~= seq![("uid"@, JsonModel::String(uid))]);
    assert(entries.drop_last().drop_last() =~= Seq::<(Seq<char>, JsonModel)>::empty());
    assert(crate::assoc::position(entries.drop_last().drop_last(), "uid"@) == 0);
    assert(crate::assoc::position(entries.drop_last(), "uid"@) == 0);
    assert(crate::assoc::position(entries, "uid"@) == 0);
    assert(member_of(node, "uid"@) == Some(JsonModel::String(uid)));
    assert(collect_members(entries, 0, found) == found);
    assert(collect_uids(entries[0].1, found) == found);
    assert(collect_members(entries, 1, found) == found);
    assert(collect_uids(entries[1].1, found) == found);
    assert(collect_members(entries, 2, found) == found);
}

/// The handles that are collected from a list of nodes are the handles of the nodes,
/// each once.
pub proof fn lemma_collect_listed(
    uids: Seq<Seq<char>>,
    xids: Seq<Seq<char>>,
    n: nat,
    found: Seq<Seq<char>>,
)
    requires
        n <= uids.len(),
    ensures
        collect_items(listed_nodes(uids, xids), n, found) == added_once(found, uids, n),
    decreases n,
{
    if n > 0 {
        lemma_collect_listed(uids, xids, (n - 1) as nat, found);
        let items = listed_nodes(uids, xids);
        let before = collect_items(items, (n - 1) as nat, found);
        let xid = if n - 1 < xids.len() {
            xids[n - 1]
        } else {
            Seq::<char>::empty()
        };
        assert(items[n - 1] == listed_node(uids[n - 1], xid));
        lemma_listed_node(uids[n - 1], xid, with_unique(before, uids[n - 1]));
    }
}

/// The handles that are collected from the answer to a traversal of one hop are the
/// handles that it lists, each once.
pub proof fn lemma_collect_one_hop(
    label: Seq<char>,
    uids: Seq<Seq<char>>,
    xids: Seq<Seq<char>>,
    found: Seq<Seq<char>>,
)
    ensures
        collect_uids(one_hop_answer(label, uids, xids), found) == added_once(
            found,
            uids,
            uids.len(),
        ),
{
    let items = listed_nodes(uids, xids);
    let inner = seq![(reverse_edge(label), JsonModel::Array(items))];
    let start = JsonModel::Object(inner);
    let nodes = seq![start];
    let outer = seq![("node"@, JsonModel::Array(nodes))];
    lemma_collect_listed(uids, xids, uids.len(), found);
    reveal_strlit("uid");
    reveal_strlit("~");
    assert(reverse_edge(label)[0] == '~');
    assert("uid"@[0] == 'u');
    assert(reverse_edge(label) != "uid"@);
    assert(inner.drop_last() =~= Seq::<(Seq<char>, JsonModel)>::empty());
    assert(crate::assoc::position(inner.drop_last(), "uid"@) == 0);
    assert(crate::assoc::position(inner, "uid"@) == 1);
    assert(uid_of(start) is None);
    assert(collect_members(inner, 0, found) == found);
    assert(collect_members(inner, 1, found) == collect_items(items, items.len(), found));
    assert(collect_uids(start, found) == added_once(found, uids, uids.len()));
    assert(collect_items(nodes, 0, found) == found);
    assert(collect_items(nodes, 1, found) == added_once(found, uids, uids.len()));
    assert(collect_members(outer, 0, found) == found);
    assert(collect_members(outer, 1, found) == added_once(found, uids, uids.len()));
}

/// The handles added to none are the handles, each once.
pub proof fn lemma_added_once_is_unique(uids: Seq<Seq<char>>, n: nat)
    requires
        n <= uids.len(),
    ensures
        added_once(Seq::<Seq<char>>::empty(), uids, n) == unique(uids.take(n as int)),
    decreases n,
{
    if n > 0 {
        lemma_added_once_is_unique(uids, (n - 1) as nat);
        let upto = uids.take(n as int);
        assert(upto.drop_last() =~= uids.take(n - 1));
        assert(upto.last() == uids[n - 1]);
    } else {
        assert(uids.take(0) =~= Seq::<Seq<char>>::empty());
    }
}

/// The step of a traversal after the first `n` of the answers that it is given.
pub open spec fn run(t: TraversalModel, answers: Seq<AnswerModel>, n: nat) -> TraversalOutcome
    decreases n,
{
    if n == 0 || n > answers.len() {
        next_step(t)
    } else {
        match run(t, answers, (n - 1) as nat) {
            TraversalOutcome::Ask(state, _) => after_answer(state, answers[n - 1]),
            other => other,
        }
    }
}

/// Whether the database answers a traversal of one hop as the graph is: the first
/// answer lists the nodes that the edges of the link type lead to from the start, and
/// the answer to the question for the external id of each handle names its object.
pub open spec fn answers_as_the_graph_is(
    answers: Seq<AnswerModel>,
    link_type: Seq<char>,
    uids: Seq<Seq<char>>,
    xids: Seq<Seq<char>>,
    names: spec_fn(Seq<char>) -> Seq<char>,
) -> bool {
    let handles = unique(uids);
    &&& answers.len() == 1 + handles.len()
    &&& query_outcome(answers[0]) == Ok::<JsonModel, (ErrorKind, Seq<char>)>(
        one_hop_answer(sanitized(link_type), uids, xids),
    )
    &&& forall|i: int|
        0 <= i < handles.len() ==> query_outcome(#[trigger] answers[1 + i]) == Ok::<
            JsonModel,
            (ErrorKind, Seq<char>),
        >(name_answer(handles[i], names(handles[i])))
}

/// The ids of the first `n` handles, each once.
pub open spec fn named_once(
    handles: Seq<Seq<char>>,
    names: spec_fn(Seq<char>) -> Seq<char>,
    n: nat,
) -> Seq<Seq<char>>
    decreases n,
{
    if n == 0 || n > handles.len() {
        Seq::<Seq<char>>::empty()
    } else {
        with_unique(named_once(handles, names, (n - 1) as nat), names(handles[n - 1]))
    }
}

/// The state of the traversal of one hop after the first answer and `n` names.
pub open spec fn naming(
    start_uid: Seq<char>,
    link_type: Seq<char>,
    handles: Seq<Seq<char>>,
    names: spec_fn(Seq<char>) -> Seq<char>,
    n: nat,
) -> TraversalModel {
    TraversalModel {
        asked: 1,
        uids: handles,
        resolved: n,
        ids: named_once(handles, names, n),
        ..fresh(start_uid, seq![link_type], 1, Seq::<char>::empty())
    }
}

/// The answer to the question for an external id names it.
pub proof fn lemma_name_answer(uid: Seq<char>, xid: Seq<char>)
    ensures
        crate::graph::first_field(name_answer(uid, xid), "node"@, "xid"@) == Some(xid),
{
    let node = listed_node(uid, xid);
    let entries = seq![("uid"@, JsonModel::String(uid)), ("xid"@, JsonModel::String(xid))];
    let outer = seq![("node"@, JsonModel::Array(seq![node]))];
    reveal_strlit("uid");
    reveal_strlit("xid");
    reveal_strlit("node");
    assert("uid"@[0] == 'u');
    assert("xid"@[0] == 'x');
    assert("uid"@ != "xid"@);
    assert(entries.drop_last() =~= seq![("uid"@, JsonModel::String(uid))]);
    assert(entries.drop_last().drop_last() =~= Seq::<(Seq<char>, JsonModel)>::empty());
    assert(crate::assoc::position(entries.drop_last().drop_last(), "xid"@) == 0);
    assert(crate::assoc::position(entries.drop_last(), "xid"@) == 1);
    assert(crate::assoc::position(entries, "xid"@) == 1);
    assert(member_of(node, "xid"@) == Some(JsonModel::String(xid)));
    assert(outer.drop_last() =~= Seq::<(Seq<char>, JsonModel)>::empty());
    assert(crate::assoc::position(outer.drop_last(), "node"@) == 0);
    assert(crate::assoc::position(outer, "node"@) == 0);
    assert(member_of(name_answer(uid, xid), "node"@) == Some(JsonModel::Array(seq![node])));
}

/// After the first answer and `n` names, a traversal of one hop that the database
/// answers as the graph is stands where `naming` says.
pub proof fn lemma_run_names(
    start_uid: Seq<char>,
    link_type: Seq<char>,
    uids: Seq<Seq<char>>,
    xids: Seq<Seq<char>>,
    names: spec_fn(Seq<char>) -> Seq<char>,
    answers: Seq<AnswerModel>,
    n: nat,
)
    requires
        answers_as_the_graph_is(answers, link_type, uids, xids, names),
        n <= unique(uids).len(),
    ensures
        run(
            fresh(start_uid, seq![link_type], 1, Seq::<char>::empty()),
            answers,
            1 + n,
        ) == next_step(naming(start_uid, link_type, unique(uids), names, n)),
    decreases n,
{
    let t = fresh(start_uid, seq![link_type], 1, Seq::<char>::empty());
    let handles = unique(uids);
    if n == 0 {
        assert(run(t, answers, 0) == next_step(t));
        assert(next_step(t) is Ask);
        lemma_collect_one_hop(sanitized(link_type), uids, xids, Seq::<Seq<char>>::empty());
        lemma_added_once_is_unique(uids, uids.len());
        assert(uids.take(uids.len() as int) =~= uids);
        assert(absorb(t, answers[0]) == Ok::<TraversalModel, (ErrorKind, Seq<char>)>(
            naming(start_uid, link_type, handles, names, 0),
        ));
    } else {
        lemma_run_names(start_uid, link_type, uids, xids, names, answers, (n - 1) as nat);
        let before = naming(start_uid, link_type, handles, names, (n - 1) as nat);
        assert(next_step(before) == TraversalOutcome::Ask(
            before,
            xid_lookup_text(handles[n - 1]),
        ));
        assert(query_outcome(answers[1 + (n - 1)]) == Ok::<JsonModel, (ErrorKind, Seq<char>)>(
            name_answer(handles[n - 1], names(handles[n - 1])),
        ));
        lemma_name_answer(handles[n - 1], names(handles[n - 1]));
        assert(absorb(before, answers[n as int]) == Ok::<TraversalModel, (ErrorKind, Seq<char>)>(
            naming(start_uid, link_type, handles, names, n),
        ));
    }
}

/// Traversal correctness for one hop: where the database answers as the graph is, the
/// traversal from the start over one link type hands out the ids of the nodes that the
/// edges of that type lead to, and no other id; it hands out each id once, however
/// many parallel edges lead to a node.
pub proof fn lemma_one_hop_reaches_the_neighbours(
    start_uid: Seq<char>,
    link_type: Seq<char>,
    uids: Seq<Seq<char>>,
    xids: Seq<Seq<char>>,
    names: spec_fn(Seq<char>) -> Seq<char>,
    answers: Seq<AnswerModel>,
)
    requires
        answers_as_the_graph_is(answers, link_type, uids, xids, names),
    ensures
        run(
            fresh(start_uid, seq![link_type], 1, Seq::<char>::empty()),
            answers,
            answers.len(),
        ) == TraversalOutcome::Reached(
            named_once(unique(uids), names, unique(uids).len()),
        ),
        no_duplicates(named_once(unique(uids), names, unique(uids).len())),
        forall|id: Seq<char>|
            named_once(unique(uids), names, unique(uids).len()).contains(id) <==> exists|
                k: int,
            |
                0 <= k < uids.len() && #[trigger] names(uids[k]) == id,
{
    let handles = unique(uids);
    lemma_run_names(start_uid, link_type, uids, xids, names, answers, handles.len());
    lemma_named_once(handles, names, handles.len());
    assert forall|id: Seq<char>|
        named_once(handles, names, handles.len()).contains(id) <==> exists|k: int|
            0 <= k < uids.len() && #[trigger] names(uids[k]) == id by {
        if named_once(handles, names, handles.len()).contains(id) {
            let i = choose|i: int| 0 <= i < handles.len() && #[trigger] names(handles[i]) == id;
            lemma_unique_holds(uids, handles[i]);
            assert(handles.contains(handles[i]));
            let k = choose|k: int| 0 <= k < uids.len() && uids[k] == handles[i];
            assert(names(uids[k]) == id);
        }
        if exists|k: int| 0 <= k < uids.len() && #[trigger] names(uids[k]) == id {
            let k = choose|k: int| 0 <= k < uids.len() && #[trigger] names(uids[k]) == id;
            lemma_unique_holds(uids, uids[k]);
            assert(uids.contains(uids[k]));
            let i = choose|i: int| 0 <= i < handles.len() && handles[i] == uids[k];
            assert(names(handles[i]) == id);
        }
    }
}

/// The ids of handles, each once, hold no id twice and hold exactly the ids of the
/// handles.
pub proof fn lemma_named_once(
    handles: Seq<Seq<char>>,
    names: spec_fn(Seq<char>) -> Seq<char>,
    n: nat,
)
    requires
        n <= handles.len(),
    ensures
        no_duplicates(named_once(handles, names, n)),
        forall|id: Seq<char>|
            named_once(handles, names, n).contains(id) <==> exists|i: int|
                0 <= i < n && #[trigger] names(handles[i]) == id,
    decreases n,
{
    if n > 0 {
        lemma_named_once(handles, names, (n - 1) as nat);
        let before = named_once(handles, names, (n - 1) as nat);
        let after = named_once(handles, names, n);
        let last = names(handles[n - 1]);
        crate::text::lemma_with_unique_once(before, last);
        assert forall|id: Seq<char>|
            after.contains(id) <==> exists|i: int|
                0 <= i < n && #[trigger] names(handles[i]) == id by {
            if after.contains(id) {
                let k = choose|k: int| 0 <= k < after.len() && after[k] == id;
                if k < before.len() {
                    assert(before[k] == id);
                    assert(before.contains(id));
                    let i = choose|i: int| 0 <= i < n - 1 && #[trigger] names(handles[i]) == id;
                    assert(names(handles[i]) == id);
                } else {
                    assert(names(handles[n - 1]) == id);
                }
            }
            if exists|i: int| 0 <= i < n && #[trigger] names(handles[i]) == id {
                let i = choose|i: int| 0 <= i < n && #[trigger] names(handles[i]) == id;
                if i < n - 1 {
                    assert(before.contains(id));
                    let k = choose|k: int| 0 <= k < before.len() && before[k] == id;
                    assert(after[k] == id);
                } else if before.contains(id) {
                    let k = choose|k: int| 0 <= k < before.len() && before[k] == id;
                    assert(after[k] == id);
                } else {
                    assert(after[after.len() - 1] == id);
                }
            }
        }
    } else {
        assert forall|id: Seq<char>|
            named_once(handles, names, 0).contains(id) <==> exists|i: int|
                0 <= i < 0 && #[trigger] names(handles[i]) == id by {}
    }
}

/// The node handles that a traversal has gathered from the first `n` documents that
/// the database answered its link types with: those of each document are added to
/// those of the documents before, none twice, at whatever depth they stand.
pub open spec fn handles_of(docs: Seq<JsonModel>, n: nat) -> Seq<Seq<char>>
    decreases n,
{
    if n == 0 || n > docs.len() {
        Seq::<Seq<char>>::empty()
    } else {
        collect_uids(docs[n - 1], handles_of(docs, (n - 1) as nat))
    }
}

/// Whether the answers are those of a database that answers each link type with its
/// document and then the question for the external id of each handle with its name.
pub open spec fn answers_follow(
    answers: Seq<AnswerModel>,
    docs: Seq<JsonModel>,
    names: spec_fn(Seq<char>) -> Seq<char>,
) -> bool {
    let handles = handles_of(docs, docs.len());
    &&& answers.len() == docs.len() + handles.len()
    &&& forall|i: int|
        0 <= i < docs.len() ==> query_outcome(#[trigger] answers[i]) == Ok::<
            JsonModel,
            (ErrorKind, Seq<char>),
        >(docs[i])
    &&& forall|i: int|
        0 <= i < handles.len() ==> query_outcome(#[trigger] answers[docs.len() + i]) == Ok::<
            JsonModel,
            (ErrorKind, Seq<char>),
        >(name_answer(handles[i], names(handles[i])))
}

/// The state of a traversal after the documents of its first `asked` link types and
/// the names of its first `resolved` handles.
pub open spec fn gathering(
    t: TraversalModel,
    docs: Seq<JsonModel>,
    names: spec_fn(Seq<char>) -> Seq<char>,
    asked: nat,
    resolved: nat,
) -> TraversalModel {
    TraversalModel {
        asked,
        uids: handles_of(docs, asked),
        resolved,
        ids: named_once(handles_of(docs, asked), names, resolved),
        ..t
    }
}

/// After the documents of its first `k` link types a traversal has gathered their
/// handles.
pub proof fn lemma_run_gathers(
    t: TraversalModel,
    docs: Seq<JsonModel>,
    names: spec_fn(Seq<char>) -> Seq<char>,
    answers: Seq<AnswerModel>,
    k: nat,
)
    requires
        t == fresh(t.start_uid, t.link_types, t.max_hops, t.condition),
        docs.len() == t.link_types.len(),
        answers_follow(answers, docs, names),
        k <= docs.len(),
    ensures
        run(t, answers, k) == next_step(gathering(t, docs, names, k, 0)),
    decreases k,
{
    if k == 0 {
        assert(gathering(t, docs, names, 0, 0) == t);
    } else {
        lemma_run_gathers(t, docs, names, answers, (k - 1) as nat);
        let before = gathering(t, docs, names, (k - 1) as nat, 0);
        assert(next_step(before) is Ask);
        assert(next_step(before)->Ask_0 == before);
        assert(query_outcome(answers[k - 1]) == Ok::<JsonModel, (ErrorKind, Seq<char>)>(
            docs[k - 1],
        ));
        assert(absorb(before, answers[k - 1]) == Ok::<TraversalModel, (ErrorKind, Seq<char>)>(
            gathering(t, docs, names, k, 0),
        ));
    }
}

/// After the documents of its link types and the names of its first `n` handles a
/// traversal has the ids of these handles, each once.
pub proof fn lemma_run_resolves(
    t: TraversalModel,
    docs: Seq<JsonModel>,
    names: spec_fn(Seq<char>) -> Seq<char>,
    answers: Seq<AnswerModel>,
    n: nat,
)
    requires
        t == fresh(t.start_uid, t.link_types, t.max_hops, t.condition),
        docs.len() == t.link_types.len(),
        answers_follow(answers, docs, names),
        n <= handles_of(docs, docs.len()).len(),
    ensures
        run(t, answers, docs.len() + n) == next_step(gathering(t, docs, names, docs.len(), n)),
    decreases n,
{
    let handles = handles_of(docs, docs.len());
    if n == 0 {
        lemma_run_gathers(t, docs, names, answers, docs.len());
    } else {
        lemma_run_resolves(t, docs, names, answers, (n - 1) as nat);
        let before = gathering(t, docs, names, docs.len(), (n - 1) as nat);
        assert(next_step(before) == TraversalOutcome::Ask(
            before,
            xid_lookup_text(handles[n - 1]),
        ));
        assert(query_outcome(answers[docs.len() + (n - 1)]) == Ok::<
            JsonModel,
            (ErrorKind, Seq<char>),
        >(name_answer(handles[n - 1], names(handles[n - 1]))));
        lemma_name_answer(handles[n - 1], names(handles[n - 1]));
        assert(absorb(before, answers[docs.len() + n - 1]) == Ok::<
            TraversalModel,
            (ErrorKind, Seq<char>),
        >(gathering(t, docs, names, docs.len(), n)));
    }
}

/// What a traversal reaches, over any number of hops and link types: where the database
/// answers each link type with a document and each handle with its name, the traversal
/// hands out the ids of the handles that the documents carry, and no other id; it
/// hands out each id once.
pub proof fn lemma_traversal_reaches_what_is_listed(
    t: TraversalModel,
    docs: Seq<JsonModel>,
    names: spec_fn(Seq<char>) -> Seq<char>,
    answers: Seq<AnswerModel>,
)
    requires
        t == fresh(t.start_uid, t.link_types, t.max_hops, t.condition),
        docs.len() == t.link_types.len(),
        answers_follow(answers, docs, names),
    ensures
        ({
            let handles = handles_of(docs, docs.len());
            let ids = named_once(handles, names, handles.len());
            &&& run(t, answers, answers.len()) == TraversalOutcome::Reached(ids)
            &&& no_duplicates(ids)
            &&& forall|id: Seq<char>|
                ids.contains(id) <==> exists|i: int|
                    0 <= i < handles.len() && #[trigger] names(handles[i]) == id
        }),
{
    let handles = handles_of(docs, docs.len());
    lemma_run_resolves(t, docs, names, answers, handles.len());
    lemma_named_once(handles, names, handles.len());
}

/// The ids of a part of the handles are a part of the ids of the handles.
pub proof fn lemma_fewer_handles_name_fewer(
    all: Seq<Seq<char>>,
    kept: Seq<Seq<char>>,
    names: spec_fn(Seq<char>) -> Seq<char>,
    id: Seq<char>,
)
    requires
        forall|k: int| 0 <= k < kept.len() ==> all.contains(#[trigger] kept[k]),
        named_once(kept, names, kept.len()).contains(id),
    ensures
        named_once(all, names, all.len()).contains(id),
{
    lemma_named_once(kept, names, kept.len());
    lemma_named_once(all, names, all.len());
    let i = choose|i: int| 0 <= i < kept.len() && #[trigger] names(kept[i]) == id;
    assert(all.contains(kept[i]));
    let j = choose|j: int| 0 <= j < all.len() && all[j] == kept[i];
    assert(names(all[j]) == id);
}

/// A traversal with filters reaches a part of what the traversal without them reaches,
/// over any number of hops and link types: where the database, asked with the filters,
/// lists no node that it does not list without them, every id that the traversal with
/// the filters hands out is handed out by the traversal without.
pub proof fn lemma_filters_reach_a_part(
    filtered: TraversalModel,
    plain: TraversalModel,
    kept: Seq<JsonModel>,
    all: Seq<JsonModel>,
    names: spec_fn(Seq<char>) -> Seq<char>,
    with_filters: Seq<AnswerModel>,
    without: Seq<AnswerModel>,
)
    requires
        filtered == fresh(
            plain.start_uid,
            plain.link_types,
            plain.max_hops,
            filtered.condition,
        ),
        plain == fresh(plain.start_uid, plain.link_types, plain.max_hops, Seq::<char>::empty()),
        kept.len() == plain.link_types.len(),
        all.len() == plain.link_types.len(),
        answers_follow(with_filters, kept, names),
        answers_follow(without, all, names),
        forall|k: int|
            0 <= k < handles_of(kept, kept.len()).len() ==> handles_of(all, all.len()).contains(
                #[trigger] handles_of(kept, kept.len())[k],
            ),
    ensures
        run(filtered, with_filters, with_filters.len()) is Reached,
        run(plain, without, without.len()) is Reached,
        forall|id: Seq<char>|
            (run(filtered, with_filters, with_filters.len())->Reached_0).contains(id) ==> (run(
                plain,
                without,
                without.len(),
            )->Reached_0).contains(id),
{
    lemma_traversal_reaches_what_is_listed(filtered, kept, names, with_filters);
    lemma_traversal_reaches_what_is_listed(plain, all, names, without);
    let few = handles_of(kept, kept.len());
    let many = handles_of(all, all.len());
    assert forall|id: Seq<char>| named_once(few, names, few.len()).contains(id) implies named_once(
        many,
        names,
        many.len(),
    ).contains(id) by {
        lemma_fewer_handles_name_fewer(many, few, names, id);
    }
}

/// A traversal that the database answers with a part of the neighbours, as it does
/// where filters keep edges out, hands out a part of what the traversal without
/// filters hands out.
pub proof fn lemma_fewer_neighbours_reach_fewer(
    all: Seq<Seq<char>>,
    kept: Seq<Seq<char>>,
    names: spec_fn(Seq<char>) -> Seq<char>,
    id: Seq<char>,
)
    requires
        forall|k: int| 0 <= k < kept.len() ==> all.contains(#[trigger] kept[k]),
        named_once(unique(kept), names, unique(kept).len()).contains(id),
    ensures
        named_once(unique(all), names, unique(all).len()).contains(id),
{
    let few = unique(kept);
    let many = unique(all);
    lemma_named_once(few, names, few.len());
    lemma_named_once(many, names, many.len());
    let i = choose|i: int| 0 <= i < few.len() && #[trigger] names(few[i]) == id;
    lemma_unique_holds(kept, few[i]);
    assert(few.contains(few[i]));
    let k = choose|k: int| 0 <= k < kept.len() && kept[k] == few[i];
    assert(all.contains(kept[k]));
    lemma_unique_holds(all, kept[k]);
    let j = choose|j: int| 0 <= j < many.len() && many[j] == kept[k];
    assert(names(many[j]) == id);
}

} // verus!
