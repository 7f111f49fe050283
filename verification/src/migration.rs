//! The blue-green migration of a type from one index version to the next, and what its
//! requests do to the aliases of the search engine.
//!
//! The migration runs in this order: the alias of a type is bound to a first version;
//! every document is copied into the index of the next version; the alias is moved to
//! that version in one request; the alias is asked which version it names; the index of
//! the old version is deleted. The requests are made by
//! [`ElasticsearchStore`](crate::search::ElasticsearchStore). This module states what the
//! two requests that change aliases do, over a model of the engine's alias table: the
//! engine carries out the actions of one request as one, and carries out none of them
//! where one cannot be carried out. Over a model of the engine's documents it states
//! where a read and a write through the alias land while the migration runs.

use vstd::prelude::*;
use crate::json::JsonModel;
use crate::search::{alias_action, alias_body, alias_text, versioned_text};

verus! {

/// One action of a request that changes aliases.
pub enum AliasChange {
    /// Bind the alias to the index.
    Add { index: Seq<char>, alias: Seq<char> },
    /// Unbind the alias from the index.
    Remove { index: Seq<char>, alias: Seq<char> },
}

/// The action as it stands in the body of a request.
pub open spec fn change_json(change: AliasChange) -> JsonModel {
    match change {
        AliasChange::Add { index, alias } => alias_action("add"@, index, alias),
        AliasChange::Remove { index, alias } => alias_action("remove"@, index, alias),
    }
}

/// The body of the request that carries out the changes.
pub open spec fn changes_body(changes: Seq<AliasChange>) -> JsonModel {
    alias_body(changes.map_values(|c: AliasChange| change_json(c)))
}

/// The changes of the request that binds the alias of a type to a first version.
pub open spec fn create_changes(prefix: Seq<char>, object_type: Seq<char>, version: nat) -> Seq<
    AliasChange,
> {
    seq![
        AliasChange::Add {
            index: versioned_text(prefix, object_type, version),
            alias: alias_text(prefix, object_type),
        },
    ]
}

/// The changes of the request that moves the alias of a type from one version to
/// another.
pub open spec fn swap_changes(
    prefix: Seq<char>,
    object_type: Seq<char>,
    old_version: nat,
    new_version: nat,
) -> Seq<AliasChange> {
    seq![
        AliasChange::Remove {
            index: versioned_text(prefix, object_type, old_version),
            alias: alias_text(prefix, object_type),
        },
        AliasChange::Add {
            index: versioned_text(prefix, object_type, new_version),
            alias: alias_text(prefix, object_type),
        },
    ]
}

/// The bodies of the two requests that change aliases hold exactly these changes.
pub proof fn lemma_bodies_hold_the_changes(
    prefix: Seq<char>,
    object_type: Seq<char>,
    old_version: nat,
    new_version: nat,
)
    ensures
        changes_body(create_changes(prefix, object_type, new_version)) == alias_body(
            seq![
                alias_action(
                    "add"@,
                    versioned_text(prefix, object_type, new_version),
                    alias_text(prefix, object_type),
                ),
            ],
        ),
        changes_body(swap_changes(prefix, object_type, old_version, new_version)) == alias_body(
            seq![
                alias_action(
                    "remove"@,
                    versioned_text(prefix, object_type, old_version),
                    alias_text(prefix, object_type),
                ),
                alias_action(
                    "add"@,
                    versioned_text(prefix, object_type, new_version),
                    alias_text(prefix, object_type),
                ),
            ],
        ),
{
    let create = create_changes(prefix, object_type, new_version);
    assert(create.map_values(|c: AliasChange| change_json(c)) =~= seq![
        alias_action(
            "add"@,
            versioned_text(prefix, object_type, new_version),
            alias_text(prefix, object_type),
        ),
    ]);
    let swap = swap_changes(prefix, object_type, old_version, new_version);
    assert(swap.map_values(|c: AliasChange| change_json(c)) =~= seq![
        alias_action(
            "remove"@,
            versioned_text(prefix, object_type, old_version),
            alias_text(prefix, object_type),
        ),
        alias_action(
            "add"@,
            versioned_text(prefix, object_type, new_version),
            alias_text(prefix, object_type),
        ),
    ]);
}

/// The alias table after one change.
pub open spec fn after_change(table: Set<(Seq<char>, Seq<char>)>, change: AliasChange) -> Set<
    (Seq<char>, Seq<char>),
> {
    match change {
        AliasChange::Add { index, alias } => table.insert((alias, index)),
        AliasChange::Remove { index, alias } => table.remove((alias, index)),
    }
}

/// The alias table after the first `n` changes.
pub open spec fn after_changes(table: Set<(Seq<char>, Seq<char>)>, changes: Seq<AliasChange>, n: nat) -> Set<
    (Seq<char>, Seq<char>),
>
    decreases n,
{
    if n == 0 || n > changes.len() {
        table
    } else {
        after_change(after_changes(table, changes, (n - 1) as nat), changes[n - 1])
    }
}

/// Whether each of the first `n` changes can be carried out: an alias can only be
/// unbound from an index that it is bound to.
pub open spec fn can_change(table: Set<(Seq<char>, Seq<char>)>, changes: Seq<AliasChange>, n: nat) -> bool
    decreases n,
{
    if n == 0 || n > changes.len() {
        true
    } else {
        can_change(table, changes, (n - 1) as nat) && match changes[n - 1] {
            AliasChange::Remove { index, alias } => after_changes(
                table,
                changes,
                (n - 1) as nat,
            ).contains((alias, index)),
            AliasChange::Add { .. } => true,
        }
    }
}

/// The alias table after a request: every change is carried out, or none is.
pub open spec fn after_request(table: Set<(Seq<char>, Seq<char>)>, changes: Seq<AliasChange>) -> Set<
    (Seq<char>, Seq<char>),
> {
    if can_change(table, changes, changes.len()) {
        after_changes(table, changes, changes.len())
    } else {
        table
    }
}

/// Whether the alias is bound to exactly this index.
pub open spec fn names_only(table: Set<(Seq<char>, Seq<char>)>, alias: Seq<char>, index: Seq<char>) -> bool {
    forall|other: Seq<char>| table.contains((alias, other)) <==> other == index
}

/// Whether the alias is bound to exactly one index.
pub open spec fn names_one(table: Set<(Seq<char>, Seq<char>)>, alias: Seq<char>) -> bool {
    exists|index: Seq<char>| names_only(table, alias, index)
}

/// Binding the alias of a type that has none binds it to exactly the index of the
/// version.
pub proof fn lemma_create_names_one(
    table: Set<(Seq<char>, Seq<char>)>,
    prefix: Seq<char>,
    object_type: Seq<char>,
    version: nat,
)
    requires
        forall|index: Seq<char>| !table.contains((alias_text(prefix, object_type), index)),
    ensures
        names_only(
            after_request(table, create_changes(prefix, object_type, version)),
            alias_text(prefix, object_type),
            versioned_text(prefix, object_type, version),
        ),
        names_one(
            after_request(table, create_changes(prefix, object_type, version)),
            alias_text(prefix, object_type),
        ),
{
    let changes = create_changes(prefix, object_type, version);
    let alias = alias_text(prefix, object_type);
    let index = versioned_text(prefix, object_type, version);
    assert(after_changes(table, changes, 0) == table);
    assert(can_change(table, changes, 0));
    assert(can_change(table, changes, 1));
    let after = after_request(table, changes);
    assert(after == table.insert((alias, index)));
    assert forall|other: Seq<char>| after.contains((alias, other)) <==> other == index by {}
}

/// The blue-green invariant: an alias that is bound to exactly one index is bound to
/// exactly one index after a swap, whatever the two versions are. Where the alias was on
/// the old version it is on the new one; where it was not, the request is not carried
/// out and the alias stays where it was.
pub proof fn lemma_swap_names_one(
    table: Set<(Seq<char>, Seq<char>)>,
    prefix: Seq<char>,
    object_type: Seq<char>,
    old_version: nat,
    new_version: nat,
)
    requires
        names_one(table, alias_text(prefix, object_type)),
    ensures
        names_one(
            after_request(table, swap_changes(prefix, object_type, old_version, new_version)),
            alias_text(prefix, object_type),
        ),
        names_only(
            table,
            alias_text(prefix, object_type),
            versioned_text(prefix, object_type, old_version),
        ) ==> names_only(
            after_request(table, swap_changes(prefix, object_type, old_version, new_version)),
            alias_text(prefix, object_type),
            versioned_text(prefix, object_type, new_version),
        ),
        !table.contains(
            (alias_text(prefix, object_type), versioned_text(prefix, object_type, old_version)),
        ) ==> after_request(
            table,
            swap_changes(prefix, object_type, old_version, new_version),
        ) == table,
{
    let changes = swap_changes(prefix, object_type, old_version, new_version);
    let alias = alias_text(prefix, object_type);
    let from = versioned_text(prefix, object_type, old_version);
    let to = versioned_text(prefix, object_type, new_version);
    let held = choose|index: Seq<char>| names_only(table, alias, index);
    assert(after_changes(table, changes, 0) == table);
    assert(after_changes(table, changes, 1) == table.remove((alias, from)));
    assert(after_changes(table, changes, 2) == table.remove((alias, from)).insert((alias, to)));
    assert(can_change(table, changes, 0));
    assert(can_change(table, changes, 1) == table.contains((alias, from)));
    assert(can_change(table, changes, 2) == table.contains((alias, from)));
    let after = after_request(table, changes);
    if table.contains((alias, from)) {
        assert(from == held);
        assert forall|other: Seq<char>| after.contains((alias, other)) <==> other == to by {}
        assert(names_only(after, alias, to));
    } else {
        assert(after == table);
        assert(names_only(after, alias, held));
    }
}

/// A swap leaves every other alias as it was.
pub proof fn lemma_swap_leaves_other_aliases(
    table: Set<(Seq<char>, Seq<char>)>,
    prefix: Seq<char>,
    object_type: Seq<char>,
    old_version: nat,
    new_version: nat,
    other_alias: Seq<char>,
    index: Seq<char>,
)
    requires
        other_alias != alias_text(prefix, object_type),
    ensures
        after_request(
            table,
            swap_changes(prefix, object_type, old_version, new_version),
        ).contains((other_alias, index)) == table.contains((other_alias, index)),
{
    let changes = swap_changes(prefix, object_type, old_version, new_version);
    assert(after_changes(table, changes, 0) == table);
    assert(after_changes(table, changes, 1) == after_change(table, changes[0]));
    assert(after_changes(table, changes, 2) == after_change(
        after_change(table, changes[0]),
        changes[1],
    ));
}

/// The engine as the migration sees it: which alias is bound to which index, and which
/// document each index holds under each id.
pub struct Engine {
    /// The alias table: the pairs of an alias and an index that it is bound to.
    pub aliases: Set<(Seq<char>, Seq<char>)>,
    /// The documents, each under its index and its id.
    pub documents: Map<(Seq<char>, Seq<char>), JsonModel>,
}

/// The index that an alias names, where it names exactly one.
pub open spec fn target_of(aliases: Set<(Seq<char>, Seq<char>)>, alias: Seq<char>) -> Seq<char> {
    choose|index: Seq<char>| names_only(aliases, alias, index)
}

/// The engine after a document is put under an id through an alias: the document stands
/// in the one index that the alias names, in the place of what stood there under the
/// id. The engine takes no write through an alias that names no index or several.
pub open spec fn after_put(engine: Engine, alias: Seq<char>, id: Seq<char>, doc: JsonModel) -> Engine {
    if names_one(engine.aliases, alias) {
        Engine {
            documents: engine.documents.insert((target_of(engine.aliases, alias), id), doc),
            ..engine
        }
    } else {
        engine
    }
}

/// The engine after the documents of one index are copied into another: each stands in
/// the other index under its id, in the place of what stood there.
pub open spec fn after_copy(engine: Engine, from: Seq<char>, to: Seq<char>) -> Engine {
    Engine {
        documents: Map::new(
            |key: (Seq<char>, Seq<char>)|
                engine.documents.contains_key(key) || (key.0 == to
                    && engine.documents.contains_key((from, key.1))),
            |key: (Seq<char>, Seq<char>)|
                if key.0 == to && engine.documents.contains_key((from, key.1)) {
                    engine.documents[(from, key.1)]
                } else {
                    engine.documents[key]
                },
        ),
        ..engine
    }
}

/// What a read through an alias sees: the documents, each with its id, of the indices
/// that the alias is bound to.
pub open spec fn seen_through(engine: Engine, alias: Seq<char>) -> Set<(Seq<char>, JsonModel)> {
    Set::new(
        |entry: (Seq<char>, JsonModel)|
            exists|index: Seq<char>|
                engine.aliases.contains((alias, index)) && #[trigger] engine.documents.contains_pair(
                    (index, entry.0),
                    entry.1,
                ),
    )
}

/// What an index holds: its documents, each with its id.
pub open spec fn held_in(engine: Engine, index: Seq<char>) -> Set<(Seq<char>, JsonModel)> {
    Set::new(
        |entry: (Seq<char>, JsonModel)| engine.documents.contains_pair((index, entry.0), entry.1),
    )
}

/// A request of the migration of one type that changes the engine.
pub enum Change {
    /// An object is indexed: its document is put under its id through the alias.
    Put { id: Seq<char>, doc: JsonModel },
    /// The documents of one version are copied into another.
    Reindex { from: nat, to: nat },
    /// The alias is moved from one version to another.
    Swap { from: nat, to: nat },
}

/// The engine after one request for a type. A request that fails changes nothing.
pub open spec fn after(
    engine: Engine,
    prefix: Seq<char>,
    object_type: Seq<char>,
    change: Change,
) -> Engine {
    match change {
        Change::Put { id, doc } => after_put(engine, alias_text(prefix, object_type), id, doc),
        Change::Reindex { from, to } => after_copy(
            engine,
            versioned_text(prefix, object_type, from),
            versioned_text(prefix, object_type, to),
        ),
        Change::Swap { from, to } => Engine {
            aliases: after_request(engine.aliases, swap_changes(prefix, object_type, from, to)),
            ..engine
        },
    }
}

/// The engine after the first `n` requests for a type.
pub open spec fn after_all(
    engine: Engine,
    prefix: Seq<char>,
    object_type: Seq<char>,
    changes: Seq<Change>,
    n: nat,
) -> Engine
    decreases n,
{
    if n == 0 || n > changes.len() {
        engine
    } else {
        after(after_all(engine, prefix, object_type, changes, (n - 1) as nat), prefix, object_type, changes[n - 1])
    }
}

/// A read through an alias that names one index sees the documents of that index, and
/// no other.
pub proof fn lemma_read_sees_one_index(engine: Engine, alias: Seq<char>, index: Seq<char>)
    requires
        names_only(engine.aliases, alias, index),
    ensures
        seen_through(engine, alias) == held_in(engine, index),
{
    assert forall|entry: (Seq<char>, JsonModel)|
        seen_through(engine, alias).contains(entry) <==> held_in(engine, index).contains(
            entry,
        ) by {
        if seen_through(engine, alias).contains(entry) {
            let found = choose|found: Seq<char>|
                engine.aliases.contains((alias, found)) && #[trigger] engine.documents.contains_pair(
                    (found, entry.0),
                    entry.1,
                );
            assert(found == index);
        }
        if held_in(engine, index).contains(entry) {
            assert(engine.aliases.contains((alias, index)));
            assert(engine.documents.contains_pair((index, entry.0), entry.1));
        }
    }
    assert(seen_through(engine, alias) =~= held_in(engine, index));
}

/// A write through an alias that names one index lands in that index: the document
/// stands there under its id, every other document of every index is as it was, and
/// the alias is where it was.
pub proof fn lemma_write_lands_in_one_index(
    engine: Engine,
    alias: Seq<char>,
    index: Seq<char>,
    id: Seq<char>,
    doc: JsonModel,
)
    requires
        names_only(engine.aliases, alias, index),
    ensures
        after_put(engine, alias, id, doc).aliases == engine.aliases,
        after_put(engine, alias, id, doc).documents == engine.documents.insert((index, id), doc),
        after_put(engine, alias, id, doc).documents.contains_pair((index, id), doc),
        forall|key: (Seq<char>, Seq<char>)|
            key != (index, id) ==> after_put(engine, alias, id, doc).documents.contains_key(key)
                == engine.documents.contains_key(key) && (engine.documents.contains_key(key)
                ==> #[trigger] after_put(engine, alias, id, doc).documents[key]
                == engine.documents[key]),
{
    assert(names_one(engine.aliases, alias));
    let target = target_of(engine.aliases, alias);
    assert(names_only(engine.aliases, alias, target));
    assert(engine.aliases.contains((alias, index)));
    assert(target == index);
}

/// Whatever requests of the migration are made, in whatever order, an alias that names
/// one index goes on naming one index: never none and never two.
pub proof fn lemma_alias_stays_on_one_index(
    engine: Engine,
    prefix: Seq<char>,
    object_type: Seq<char>,
    changes: Seq<Change>,
    n: nat,
)
    requires
        names_one(engine.aliases, alias_text(prefix, object_type)),
        n <= changes.len(),
    ensures
        names_one(
            after_all(engine, prefix, object_type, changes, n).aliases,
            alias_text(prefix, object_type),
        ),
    decreases n,
{
    if n > 0 {
        lemma_alias_stays_on_one_index(engine, prefix, object_type, changes, (n - 1) as nat);
        let before = after_all(engine, prefix, object_type, changes, (n - 1) as nat);
        match changes[n - 1] {
            Change::Swap { from, to } => {
                lemma_swap_names_one(before.aliases, prefix, object_type, from, to);
            },
            Change::Put { id, doc } => {},
            Change::Reindex { from, to } => {},
        }
    }
}

/// Blue-green consistency: after the alias of a type was bound to a first version,
/// and after any requests that index objects, copy one version into another or move the
/// alias, the alias names exactly one version index. A read through it sees the
/// documents of that index and no other, and a write through it lands in that index
/// and changes no other.
pub proof fn lemma_alias_resolves_to_one_version(
    engine: Engine,
    prefix: Seq<char>,
    object_type: Seq<char>,
    version: nat,
    changes: Seq<Change>,
    id: Seq<char>,
    doc: JsonModel,
)
    requires
        forall|index: Seq<char>| !engine.aliases.contains((alias_text(prefix, object_type), index)),
    ensures
        ({
            let alias = alias_text(prefix, object_type);
            let bound = Engine {
                aliases: after_request(
                    engine.aliases,
                    create_changes(prefix, object_type, version),
                ),
                ..engine
            };
            let now = after_all(bound, prefix, object_type, changes, changes.len());
            let index = target_of(now.aliases, alias);
            &&& names_only(now.aliases, alias, index)
            &&& seen_through(now, alias) == held_in(now, index)
            &&& after_put(now, alias, id, doc).documents == now.documents.insert((index, id), doc)
            &&& seen_through(after_put(now, alias, id, doc), alias).contains((id, doc))
        }),
{
    let alias = alias_text(prefix, object_type);
    let bound = Engine {
        aliases: after_request(engine.aliases, create_changes(prefix, object_type, version)),
        ..engine
    };
    lemma_create_names_one(engine.aliases, prefix, object_type, version);
    lemma_alias_stays_on_one_index(bound, prefix, object_type, changes, changes.len());
    let now = after_all(bound, prefix, object_type, changes, changes.len());
    let index = target_of(now.aliases, alias);
    assert(names_only(now.aliases, alias, index));
    lemma_read_sees_one_index(now, alias, index);
    lemma_write_lands_in_one_index(now, alias, index, id, doc);
    let written = after_put(now, alias, id, doc);
    lemma_read_sees_one_index(written, alias, index);
    assert(written.documents.contains_pair((index, id), doc));
    assert(held_in(written, index).contains((id, doc)));
}

/// The indices of two versions of a type differ, so a swap between two versions never
/// unbinds what it binds.
pub proof fn lemma_versions_differ(prefix: Seq<char>, object_type: Seq<char>, a: nat, b: nat)
    requires
        a != b,
    ensures
        versioned_text(prefix, object_type, a) != versioned_text(prefix, object_type, b),
{
    if versioned_text(prefix, object_type, a) == versioned_text(prefix, object_type, b) {
        crate::search::lemma_versions_have_their_own_index(prefix, object_type, a, b);
    }
}

} // verus!
