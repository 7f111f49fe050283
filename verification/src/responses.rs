//! What the search engine's answers mean: which are success, which are errors of which
//! kind, and what is read out of the bodies.

use vstd::prelude::*;
use vstd::string::*;
use crate::assoc::{lemma_position, put};
use crate::json::{
    json_models, json_parse, member_models, member_of, parse_json, JsonModel, JsonValue,
};
use crate::stored::{bound, properties_from_stored};
use crate::property::PropertyModel;
use crate::search::{versioned_text, ElasticsearchStore};
use crate::store::{ErrorKind, IndexedObject, StoreError};
use crate::text::{nat_text, owned, push_u64};

verus! {

/// Whether a status means that the request was carried out.
pub open spec fn is_success(status: u16) -> bool {
    200 <= status < 300
}

/// The message of an error for a request that the engine refused: the status and the
/// body of the answer.
pub open spec fn failure_text(status: u16, body: Seq<char>) -> Seq<char> {
    "Elasticsearch returned error "@ + nat_text(status as nat) + ": "@ + body
}

fn failure(kind: ErrorKind, status: u16, body: &str) -> (e: StoreError)
    ensures
        e@ == (kind, failure_text(status, body@)),
{
    let mut detail = String::new();
    push_u64(&mut detail, status as u64);
    detail.append(": ");
    detail.append(body);
    proof {
        assert("Elasticsearch returned error "@ + detail@ =~= failure_text(status, body@));
    }
    StoreError::described(kind, "Elasticsearch returned error ", detail.as_str())
}

fn succeeded(status: u16) -> (ok: bool)
    ensures
        ok == is_success(status),
{
    status >= 200 && status < 300
}

/// What the answer to an index request means: success, or a query error that carries
/// the status and the body.
pub fn index_outcome(status: u16, body: &str) -> (out: Result<(), StoreError>)
    ensures
        is_success(status) ==> out is Ok,
        !is_success(status) ==> out is Err && out->Err_0@ == (
            ErrorKind::Query,
            failure_text(status, body@),
        ),
{
    if succeeded(status) {
        Ok(())
    } else {
        Err(failure(ErrorKind::Query, status, body))
    }
}

/// What the answer to the deletion of an object or of an index means. That there was
/// nothing to delete is success, so deleting twice succeeds twice; any other refusal is
/// a write error that carries the status and the body.
pub fn delete_outcome(status: u16, body: &str) -> (out: Result<(), StoreError>)
    ensures
        is_success(status) || status == 404 ==> out is Ok,
        !(is_success(status) || status == 404) ==> out is Err && out->Err_0@ == (
            ErrorKind::WriteError,
            failure_text(status, body@),
        ),
{
    if succeeded(status) || status == 404 {
        Ok(())
    } else {
        Err(failure(ErrorKind::WriteError, status, body))
    }
}

/// What became of one object of a batch: the status and the body of the engine's
/// answer, or the error that kept the request from being made or answered.
pub open spec fn item_failure(answer: Result<(u16, String), StoreError>) -> Option<
    (ErrorKind, Seq<char>),
> {
    match answer {
        Ok(reply) => if is_success(reply.0) {
            None
        } else {
            Some((ErrorKind::Query, failure_text(reply.0, reply.1@)))
        },
        Err(e) => Some(e@),
    }
}

/// The objects of a batch that were not indexed: for each of the first `n` objects
/// that failed, in order, its place in the batch and its error. An answer that is no
/// success is a query error that carries the status and the body; an error that kept
/// the request from being made or answered is that error. One object that fails does
/// not keep the others from being indexed, and does not fail the batch.
pub open spec fn refused_in(answers: Seq<Result<(u16, String), StoreError>>, n: nat) -> Seq<
    (int, (ErrorKind, Seq<char>)),
>
    decreases n,
{
    if n == 0 || n > answers.len() {
        Seq::<(int, (ErrorKind, Seq<char>))>::empty()
    } else {
        let before = refused_in(answers, (n - 1) as nat);
        match item_failure(answers[n - 1]) {
            Some(e) => before.push((n - 1, e)),
            None => before,
        }
    }
}

/// What the answers to the requests of a batch mean: the objects that were not indexed.
pub fn bulk_outcome(answers: &Vec<Result<(u16, String), StoreError>>) -> (refused: Vec<
    (usize, StoreError),
>)
    ensures
        refused@.map_values(|r: (usize, StoreError)| (r.0 as int, r.1@)) == refused_in(
            answers@,
            answers@.len(),
        ),
{
    let mut refused: Vec<(usize, StoreError)> = Vec::new();
    let mut i: usize = 0;
    proof {
        assert(refused@.map_values(|r: (usize, StoreError)| (r.0 as int, r.1@)) =~= refused_in(
            answers@,
            0,
        ));
    }
    while i < answers.len()
        invariant
            i <= answers.len(),
            refused@.map_values(|r: (usize, StoreError)| (r.0 as int, r.1@)) == refused_in(
                answers@,
                i as nat,
            ),
        decreases answers.len() - i,
    {
        let ghost before = refused@.map_values(|r: (usize, StoreError)| (r.0 as int, r.1@));
        let failed: Option<StoreError> = match &answers[i] {
            Ok(reply) => if succeeded(reply.0) {
                None
            } else {
                Some(failure(ErrorKind::Query, reply.0, reply.1.as_str()))
            },
            Err(e) => {
                proof {
                    reveal_strlit("");
                    assert(e@.1 + ""@ =~= e@.1);
                }
                Some(StoreError::described(e.kind(), e.message(), ""))
            },
        };
        match failed {
            Some(e) => {
                refused.push((i, e));
                proof {
                    assert(refused@.map_values(|r: (usize, StoreError)| (r.0 as int, r.1@))
                        =~= before.push((i as int, e@)));
                }
            },
            None => {},
        }
        i = i + 1;
    }
    refused
}

/// What the answer to a change of aliases means: success, or a write error that carries
/// the status and the body.
pub fn alias_outcome(status: u16, body: &str) -> (out: Result<(), StoreError>)
    ensures
        is_success(status) ==> out is Ok,
        !is_success(status) ==> out is Err && out->Err_0@ == (
            ErrorKind::WriteError,
            failure_text(status, body@),
        ),
{
    if succeeded(status) {
        Ok(())
    } else {
        Err(failure(ErrorKind::WriteError, status, body))
    }
}

/// What the body of an answer is read as: the document in it, or a serialization error.
pub open spec fn body_outcome(body: Seq<char>) -> Result<JsonModel, (ErrorKind, Seq<char>)> {
    match json_parse(vstd::utf8::encode_utf8(body)) {
        Ok(doc) => Ok(doc),
        Err(text) => Err((ErrorKind::Serialization, "Parse error: "@ + text)),
    }
}

fn read_body(body: &str) -> (out: Result<JsonValue, StoreError>)
    ensures
        match out {
            Ok(doc) => body_outcome(body@) == Ok::<JsonModel, (ErrorKind, Seq<char>)>(doc@),
            Err(e) => body_outcome(body@) == Err::<JsonModel, (ErrorKind, Seq<char>)>(e@),
        },
{
    match parse_json(body.as_bytes()) {
        Ok(doc) => Ok(doc),
        Err(text) => Err(
            StoreError::described(ErrorKind::Serialization, "Parse error: ", text.as_str()),
        ),
    }
}

/// Whether the answer to a copy lists documents that were not copied.
pub open spec fn has_failures(doc: JsonModel) -> bool {
    match member_of(doc, "failures"@) {
        Some(JsonModel::Array(items)) => items.len() > 0,
        _ => false,
    }
}

/// What the answer to a copy from one index into another means.
///
/// A refusal is a write error that carries the status and the body. An answer that
/// cannot be read is a serialization error. An answer that lists a document that was
/// not copied is a transaction error that carries the body: the copy is then partial,
/// and the alias must not be moved.
pub fn reindex_outcome(status: u16, body: &str) -> (out: Result<(), StoreError>)
    ensures
        !is_success(status) ==> out is Err && out->Err_0@ == (
            ErrorKind::WriteError,
            failure_text(status, body@),
        ),
        is_success(status) ==> match body_outcome(body@) {
            Err(e) => out is Err && out->Err_0@ == e,
            Ok(doc) => if has_failures(doc) {
                out is Err && out->Err_0@ == (
                    ErrorKind::Transaction,
                    "Reindex left documents uncopied: "@ + body@,
                )
            } else {
                out is Ok
            },
        },
{
    if !succeeded(status) {
        return Err(failure(ErrorKind::WriteError, status, body));
    }
    let doc = match read_body(body) {
        Ok(doc) => doc,
        Err(e) => {
            return Err(e);
        },
    };
    let failed = match doc.get("failures") {
        Some(list) => match list.as_array() {
            Some(items) => items.len() > 0,
            None => false,
        },
        None => false,
    };
    if failed {
        Err(StoreError::described(ErrorKind::Transaction, "Reindex left documents uncopied: ", body))
    } else {
        Ok(())
    }
}

/// Binding a name that no entry has puts the entry at the end.
pub proof fn lemma_put_new<V>(entries: Seq<(Seq<char>, V)>, key: Seq<char>, value: V)
    requires
        forall|i: int| 0 <= i < entries.len() ==> (#[trigger] entries[i]).0 != key,
    ensures
        put(entries, key, value) == entries.push((key, value)),
{
    lemma_position(entries, key);
}

/// The properties of the document in an answer to a fetch, where it holds one.
pub open spec fn fetched(doc: JsonModel) -> Option<Seq<(Seq<char>, PropertyModel)>> {
    match member_of(doc, "_source"@) {
        Some(JsonModel::Object(members)) => Some(bound(members, members.len())),
        _ => None,
    }
}

/// What the answer to a fetch means.
///
/// That there is no such object is no error: the result is then `None`. Any other
/// refusal is a read error that carries the status and the body; an answer that cannot
/// be read is a serialization error. The object that is handed out has the type and
/// the id that were asked for and the properties of the stored document.
pub fn get_outcome(object_type: &str, object_id: &str, status: u16, body: &str) -> (out: Result<
    Option<IndexedObject>,
    StoreError,
>)
    ensures
        status == 404 ==> out == Ok::<Option<IndexedObject>, StoreError>(None),
        status != 404 && !is_success(status) ==> out is Err && out->Err_0@ == (
            ErrorKind::ReadError,
            failure_text(status, body@),
        ),
        is_success(status) ==> match body_outcome(body@) {
            Err(e) => out is Err && out->Err_0@ == e,
            Ok(doc) => match fetched(doc) {
                None => out == Ok::<Option<IndexedObject>, StoreError>(None),
                Some(properties) => out matches Ok(Some(object)) && object.object_type@
                    == object_type@ && object.object_id@ == object_id@ && object.properties@
                    == properties,
            },
        },
{
    if status == 404 {
        return Ok(None);
    }
    if !succeeded(status) {
        return Err(failure(ErrorKind::ReadError, status, body));
    }
    let doc = match read_body(body) {
        Ok(doc) => doc,
        Err(e) => {
            return Err(e);
        },
    };
    match doc.get("_source") {
        Some(source) => match source.as_object() {
            Some(members) => Ok(
                Some(
                    IndexedObject::new(
                        owned(object_type),
                        owned(object_id),
                        properties_from_stored(members),
                    ),
                ),
            ),
            None => Ok(None),
        },
        None => Ok(None),
    }
}

/// The hits of an answer to a search.
pub open spec fn hits_of(doc: JsonModel) -> Seq<JsonModel> {
    match member_of(doc, "hits"@) {
        Some(outer) => match member_of(outer, "hits"@) {
            Some(JsonModel::Array(items)) => items,
            _ => Seq::<JsonModel>::empty(),
        },
        None => Seq::<JsonModel>::empty(),
    }
}

/// The id of a hit.
pub open spec fn hit_id(hit: JsonModel) -> Option<Seq<char>> {
    match member_of(hit, "_id"@) {
        Some(JsonModel::String(id)) => Some(id),
        _ => None,
    }
}

/// Whether a hit carries an id and a stored document.
pub open spec fn well_formed_hit(hit: JsonModel) -> bool {
    hit_id(hit) is Some && fetched(hit) is Some
}

/// Whether `object` is the object of `hit`.
pub open spec fn is_hit(object: IndexedObject, hit: JsonModel, object_type: Seq<char>) -> bool {
    &&& well_formed_hit(hit)
    &&& object.object_type@ == object_type
    &&& object.object_id@ == hit_id(hit)->0
    &&& object.properties@ == fetched(hit)->0
}

/// What the answer to a search means: the objects of its hits, in the order of the
/// answer.
///
/// A refusal is a query error that carries the status and the body. An answer that
/// cannot be read, or a hit without an id or without a stored document, is a
/// serialization error.
pub fn search_outcome(object_type: &str, status: u16, body: &str) -> (out: Result<
    Vec<IndexedObject>,
    StoreError,
>)
    ensures
        !is_success(status) ==> out is Err && out->Err_0@ == (
            ErrorKind::Query,
            failure_text(status, body@),
        ),
        is_success(status) ==> match body_outcome(body@) {
            Err(e) => out is Err && out->Err_0@ == e,
            Ok(doc) => match out {
                Ok(objects) => {
                    &&& objects@.len() == hits_of(doc).len()
                    &&& forall|i: int|
                        0 <= i < objects@.len() ==> is_hit(
                            #[trigger] objects@[i],
                            hits_of(doc)[i],
                            object_type@,
                        )
                },
                Err(e) => {
                    &&& e@ == (ErrorKind::Serialization, "Malformed hit"@)
                    &&& exists|i: int|
                        0 <= i < hits_of(doc).len() && !well_formed_hit(#[trigger] hits_of(doc)[i])
                },
            },
        },
{
    if !succeeded(status) {
        return Err(failure(ErrorKind::Query, status, body));
    }
    let doc = match read_body(body) {
        Ok(doc) => doc,
        Err(e) => {
            return Err(e);
        },
    };
    let mut objects: Vec<IndexedObject> = Vec::new();
    let hits = match doc.get("hits") {
        Some(outer) => match outer.get("hits") {
            Some(inner) => match inner.as_array() {
                Some(items) => items,
                None => {
                    return Ok(objects);
                },
            },
            None => {
                return Ok(objects);
            },
        },
        None => {
            return Ok(objects);
        },
    };
    let mut i: usize = 0;
    while i < hits.len()
        invariant
            i <= hits.len(),
            objects@.len() == i,
            is_success(status),
            body_outcome(body@) == Ok::<JsonModel, (ErrorKind, Seq<char>)>(doc@),
            hits_of(doc@) == json_models(hits@),
            forall|k: int|
                0 <= k < i ==> is_hit(#[trigger] objects@[k], hits@[k]@, object_type@),
        decreases hits.len() - i,
    {
        proof {
            assert(json_models(hits@)[i as int] == hits@[i as int]@);
        }
        let id = match hits[i].get("_id") {
            Some(value) => match value.as_str() {
                Some(id) => Some(owned(id)),
                None => None,
            },
            None => None,
        };
        let source = match hits[i].get("_source") {
            Some(value) => match value.as_object() {
                Some(members) => Some(properties_from_stored(members)),
                None => None,
            },
            None => None,
        };
        match (id, source) {
            (Some(id), Some(properties)) => {
                objects.push(IndexedObject::new(owned(object_type), id, properties));
            },
            _ => {
                proof {
                    reveal_strlit("");
                    assert("Malformed hit"@ + ""@ =~= "Malformed hit"@);
                    assert(!well_formed_hit(hits_of(doc@)[i as int]));
                }
                return Err(StoreError::described(ErrorKind::Serialization, "Malformed hit", ""));
            },
        }
        i = i + 1;
    }
    proof {
        assert forall|k: int| 0 <= k < objects@.len() implies is_hit(
            #[trigger] objects@[k],
            hits_of(doc@)[k],
            object_type@,
        ) by {
            assert(json_models(hits@)[k] == hits@[k]@);
        }
    }
    Ok(objects)
}

/// The count that an answer names.
pub open spec fn counted(doc: JsonModel) -> Option<u64> {
    match member_of(doc, "count"@) {
        Some(JsonModel::Integer(n)) => if 0 <= n <= u64::MAX {
            Some(n as u64)
        } else {
            None
        },
        _ => None,
    }
}

/// What the answer to a count means.
///
/// A refusal is a query error that carries the status and the body. An answer that
/// cannot be read, or that names no count, is a serialization error.
pub fn count_outcome(status: u16, body: &str) -> (out: Result<u64, StoreError>)
    ensures
        !is_success(status) ==> out is Err && out->Err_0@ == (
            ErrorKind::Query,
            failure_text(status, body@),
        ),
        is_success(status) ==> match body_outcome(body@) {
            Err(e) => out is Err && out->Err_0@ == e,
            Ok(doc) => match counted(doc) {
                Some(n) => out == Ok::<u64, StoreError>(n),
                None => out is Err && out->Err_0@ == (
                    ErrorKind::Serialization,
                    "Missing count"@,
                ),
            },
        },
{
    if !succeeded(status) {
        return Err(failure(ErrorKind::Query, status, body));
    }
    let doc = match read_body(body) {
        Ok(doc) => doc,
        Err(e) => {
            return Err(e);
        },
    };
    let count = match doc.get("count") {
        Some(value) => match value.as_i64() {
            Some(n) => if n >= 0 {
                Some(n as u64)
            } else {
                None
            },
            None => None,
        },
        None => None,
    };
    match count {
        Some(n) => Ok(n),
        None => {
            proof {
                reveal_strlit("");
                assert("Missing count"@ + ""@ =~= "Missing count"@);
            }
            Err(StoreError::described(ErrorKind::Serialization, "Missing count", ""))
        },
    }
}

/// The version of a type whose index has the given name, where the name is one.
pub open spec fn version_named(prefix: Seq<char>, object_type: Seq<char>, name: Seq<char>) -> Option<
    u64,
> {
    if exists|v: u64| name == versioned_text(prefix, object_type, v as nat) {
        Some(choose|v: u64| name == versioned_text(prefix, object_type, v as nat))
    } else {
        None
    }
}

/// The version of the first of the first `n` names that is the index of a version.
pub open spec fn first_version(
    prefix: Seq<char>,
    object_type: Seq<char>,
    members: Seq<(Seq<char>, JsonModel)>,
    n: nat,
) -> Option<u64>
    decreases n,
{
    if n == 0 || n > members.len() {
        None
    } else {
        match first_version(prefix, object_type, members, (n - 1) as nat) {
            Some(v) => Some(v),
            None => version_named(prefix, object_type, members[n - 1].0),
        }
    }
}

/// The version that an answer to the question for an alias names: the answer has one
/// member for each index that the alias is bound to.
pub open spec fn alias_version(prefix: Seq<char>, object_type: Seq<char>, doc: JsonModel) -> Option<
    u64,
> {
    match doc {
        JsonModel::Object(members) => first_version(prefix, object_type, members, members.len()),
        _ => None,
    }
}

impl ElasticsearchStore {
    /// What the answer to the question for the alias of a type means: the version that
    /// the alias is bound to.
    ///
    /// That the alias is not set is no error: the result is then `None`. Any other
    /// refusal is a read error that carries the status and the body; an answer that
    /// cannot be read is a serialization error.
    pub fn alias_version_outcome(&self, object_type: &str, status: u16, body: &str) -> (out: Result<
        Option<u64>,
        StoreError,
    >)
        ensures
            status == 404 ==> out == Ok::<Option<u64>, StoreError>(None),
            status != 404 && !is_success(status) ==> out is Err && out->Err_0@ == (
                ErrorKind::ReadError,
                failure_text(status, body@),
            ),
            is_success(status) ==> match body_outcome(body@) {
                Err(e) => out is Err && out->Err_0@ == e,
                Ok(doc) => out == Ok::<Option<u64>, StoreError>(
                    alias_version(self.index_prefix@, object_type@, doc),
                ),
            },
    {
        if status == 404 {
            return Ok(None);
        }
        if !succeeded(status) {
            return Err(failure(ErrorKind::ReadError, status, body));
        }
        let doc = match read_body(body) {
            Ok(doc) => doc,
            Err(e) => {
                return Err(e);
            },
        };
        let members = match doc.as_object() {
            Some(members) => members,
            None => {
                return Ok(None);
            },
        };
        let ghost all = member_models(members@);
        let mut i: usize = 0;
        while i < members.len()
            invariant
                i <= members.len(),
                all == member_models(members@),
                is_success(status),
                status != 404,
                body_outcome(body@) == Ok::<JsonModel, (ErrorKind, Seq<char>)>(doc@),
                doc@ == JsonModel::Object(all),
                first_version(self.index_prefix@, object_type@, all, i as nat) is None,
            decreases members.len() - i,
        {
            proof {
                assert(all[i as int].0 == members@[i as int].0@);
            }
            match self.version_of_index(object_type, members[i].0.as_str()) {
                Some(v) => {
                    proof {
                        let name = members@[i as int].0@;
                        let chosen = choose|w: u64|
                            name == versioned_text(self.index_prefix@, object_type@, w as nat);
                        crate::search::lemma_versions_have_their_own_index(
                            self.index_prefix@,
                            object_type@,
                            v as nat,
                            chosen as nat,
                        );
                        lemma_first_version_stays(
                            self.index_prefix@,
                            object_type@,
                            all,
                            (i + 1) as nat,
                            members@.len(),
                        );
                    }
                    return Ok(Some(v));
                },
                None => {},
            }
            i = i + 1;
        }
        Ok(None)
    }
}

/// A version found among the first `n` names is the version found among the first `m`.
pub proof fn lemma_first_version_stays(
    prefix: Seq<char>,
    object_type: Seq<char>,
    members: Seq<(Seq<char>, JsonModel)>,
    n: nat,
    m: nat,
)
    requires
        n <= m <= members.len(),
        first_version(prefix, object_type, members, n) is Some,
    ensures
        first_version(prefix, object_type, members, m) == first_version(
            prefix,
            object_type,
            members,
            n,
        ),
    decreases m - n,
{
    if n < m {
        lemma_first_version_stays(prefix, object_type, members, n, (m - 1) as nat);
    }
}

} // verus!
