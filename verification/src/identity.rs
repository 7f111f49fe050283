//! Identity mapping: finding the node that stands for an object id in the graph
//! database, and making it where there is none. The database is asked step by step;
//! what is asked next is decided here from what came back.

use vstd::prelude::*;
use vstd::string::*;
use crate::graph::{
    first_field, node_insert_nquad, node_insert_text, uid_from_lookup, uid_lookup_query,
    uid_lookup_text,
};
use crate::json::{json_parse, parse_json, JsonModel, JsonValue};
use crate::store::{ErrorKind, StoreError};
use crate::text::owned;

verus! {

/// What the graph database is asked to do.
#[derive(Debug, Clone, PartialEq, Eq)]
pub enum GraphRequest {
    /// Run a read-only query.
    Query(String),
    /// Set the given N-Quads in a new transaction.
    Mutate(String),
    /// Commit the open transaction.
    Commit,
}

/// The mathematical value of a [`GraphRequest`].
pub enum RequestModel {
    Query(Seq<char>),
    Mutate(Seq<char>),
    Commit,
}

impl View for GraphRequest {
    type V = RequestModel;

    open spec fn view(&self) -> RequestModel {
        match self {
            GraphRequest::Query(text) => RequestModel::Query(text@),
            GraphRequest::Mutate(nquads) => RequestModel::Mutate(nquads@),
            GraphRequest::Commit => RequestModel::Commit,
        }
    }
}

/// What came back from the graph database.
#[derive(Debug, Clone, PartialEq, Eq)]
pub enum GraphAnswer {
    /// The JSON bytes that answer a query.
    Data(Vec<u8>),
    /// The request was carried out and has nothing to say.
    Done,
    /// The request failed; the text says how.
    Failed(String),
}

/// The mathematical value of a [`GraphAnswer`].
pub enum AnswerModel {
    Data(Seq<u8>),
    Done,
    Failed(Seq<char>),
}

impl View for GraphAnswer {
    type V = AnswerModel;

    open spec fn view(&self) -> AnswerModel {
        match self {
            GraphAnswer::Data(bytes) => AnswerModel::Data(bytes@),
            GraphAnswer::Done => AnswerModel::Done,
            GraphAnswer::Failed(text) => AnswerModel::Failed(text@),
        }
    }
}

/// What the answer to a query is read as: the document in it, or a read error that
/// says whether the query or the parsing failed.
pub open spec fn query_outcome(answer: AnswerModel) -> Result<JsonModel, (ErrorKind, Seq<char>)> {
    match answer {
        AnswerModel::Failed(text) => Err((ErrorKind::ReadError, "Query error: "@ + text)),
        AnswerModel::Done => Err((ErrorKind::ReadError, "Query error: "@ + "no data"@)),
        AnswerModel::Data(bytes) => match json_parse(bytes) {
            Ok(doc) => Ok(doc),
            Err(text) => Err((ErrorKind::ReadError, "Parse error: "@ + text)),
        },
    }
}

/// Reads the answer to a query.
pub fn read_answer(answer: &GraphAnswer) -> (out: Result<JsonValue, StoreError>)
    ensures
        match out {
            Ok(doc) => query_outcome(answer@) == Ok::<JsonModel, (ErrorKind, Seq<char>)>(doc@),
            Err(e) => query_outcome(answer@) == Err::<JsonModel, (ErrorKind, Seq<char>)>(e@),
        },
{
    match answer {
        GraphAnswer::Failed(text) => Err(
            StoreError::described(ErrorKind::ReadError, "Query error: ", text.as_str()),
        ),
        GraphAnswer::Done => Err(
            StoreError::described(ErrorKind::ReadError, "Query error: ", "no data"),
        ),
        GraphAnswer::Data(bytes) => match parse_json(bytes.as_slice()) {
            Ok(doc) => Ok(doc),
            Err(text) => Err(
                StoreError::described(ErrorKind::ReadError, "Parse error: ", text.as_str()),
            ),
        },
    }
}

/// Which answer a resolution waits for.
#[derive(Debug, Clone, Copy, PartialEq, Eq, Structural)]
pub enum UidStage {
    /// The first lookup of the object id.
    Lookup,
    /// The mutation that makes the node.
    Insert,
    /// The commit of that mutation.
    Commit,
    /// The lookup of the node that was made.
    Recheck,
}

/// A resolution under way: the object id and the answer that it waits for.
#[derive(Debug, Clone, PartialEq, Eq)]
pub struct UidResolution {
    pub object_id: String,
    pub stage: UidStage,
}

/// The next step of a resolution.
#[derive(Debug, Clone, PartialEq, Eq)]
pub enum UidStep {
    /// Make the request and come back with the answer.
    Ask(UidResolution, GraphRequest),
    /// The node handle of the object.
    Found(String),
    Failed(StoreError),
}

/// The mathematical value of a [`UidStep`].
pub enum UidOutcome {
    Ask(Seq<char>, UidStage, RequestModel),
    Found(Seq<char>),
    Failed(ErrorKind, Seq<char>),
}

impl View for UidStep {
    type V = UidOutcome;

    open spec fn view(&self) -> UidOutcome {
        match self {
            UidStep::Ask(resolution, request) => UidOutcome::Ask(
                resolution.object_id@,
                resolution.stage,
                request@,
            ),
            UidStep::Found(uid) => UidOutcome::Found(uid@),
            UidStep::Failed(e) => UidOutcome::Failed(e@.0, e@.1),
        }
    }
}

/// The step that follows an answer.
///
/// A lookup that names a node ends the resolution with its handle. The first lookup that
/// names none is followed by the mutation that makes the node, its commit and a second
/// lookup; a second lookup that names none is a write error. A failed lookup is a read
/// error, a failed mutation or commit a write error.
pub open spec fn uid_outcome(object_id: Seq<char>, stage: UidStage, answer: AnswerModel) -> UidOutcome {
    match stage {
        UidStage::Lookup => match query_outcome(answer) {
            Err(e) => UidOutcome::Failed(e.0, e.1),
            Ok(doc) => match first_field(doc, "objects"@, "uid"@) {
                Some(uid) => UidOutcome::Found(uid),
                None => UidOutcome::Ask(
                    object_id,
                    UidStage::Insert,
                    RequestModel::Mutate(node_insert_text(object_id)),
                ),
            },
        },
        UidStage::Insert => match answer {
            AnswerModel::Failed(text) => UidOutcome::Failed(
                ErrorKind::WriteError,
                "Mutation error: "@ + text,
            ),
            _ => UidOutcome::Ask(object_id, UidStage::Commit, RequestModel::Commit),
        },
        UidStage::Commit => match answer {
            AnswerModel::Failed(text) => UidOutcome::Failed(
                ErrorKind::WriteError,
                "Commit error: "@ + text,
            ),
            _ => UidOutcome::Ask(
                object_id,
                UidStage::Recheck,
                RequestModel::Query(uid_lookup_text(object_id)),
            ),
        },
        UidStage::Recheck => match query_outcome(answer) {
            Err(e) => UidOutcome::Failed(e.0, e.1),
            Ok(doc) => match first_field(doc, "objects"@, "uid"@) {
                Some(uid) => UidOutcome::Found(uid),
                None => UidOutcome::Failed(
                    ErrorKind::WriteError,
                    "Failed to get or create UID for "@ + object_id,
                ),
            },
        },
    }
}

/// How many answers a resolution at this stage can still wait for.
pub open spec fn answers_left(stage: UidStage) -> nat {
    match stage {
        UidStage::Lookup => 4,
        UidStage::Insert => 3,
        UidStage::Commit => 2,
        UidStage::Recheck => 1,
    }
}

/// Every answer brings a resolution nearer to its end: the step after it either ends
/// the resolution or waits at a later stage, for the same object id.
pub proof fn lemma_resolution_ends(object_id: Seq<char>, stage: UidStage, answer: AnswerModel)
    ensures
        match uid_outcome(object_id, stage, answer) {
            UidOutcome::Ask(id, next, _) => id == object_id && answers_left(next) < answers_left(
                stage,
            ),
            _ => true,
        },
{
}

impl UidResolution {
    /// Begins to resolve `object_id`: the database is asked for the node of that id.
    pub fn begin(object_id: &str) -> (step: UidStep)
        ensures
            step@ == UidOutcome::Ask(
                object_id@,
                UidStage::Lookup,
                RequestModel::Query(uid_lookup_text(object_id@)),
            ),
    {
        UidStep::Ask(
            UidResolution { object_id: owned(object_id), stage: UidStage::Lookup },
            GraphRequest::Query(uid_lookup_query(object_id)),
        )
    }

    /// Takes the answer to the request that the resolution waits for, and decides the
    /// next step.
    pub fn advance(self, answer: &GraphAnswer) -> (step: UidStep)
        ensures
            step@ == uid_outcome(self.object_id@, self.stage, answer@),
    {
        match self.stage {
            UidStage::Lookup => match read_answer(answer) {
                Err(e) => UidStep::Failed(e),
                Ok(doc) => match uid_from_lookup(&doc) {
                    Some(uid) => UidStep::Found(uid),
                    None => {
                        let nquad = node_insert_nquad(self.object_id.as_str());
                        UidStep::Ask(
                            UidResolution { object_id: self.object_id, stage: UidStage::Insert },
                            GraphRequest::Mutate(nquad),
                        )
                    },
                },
            },
            UidStage::Insert => match answer {
                GraphAnswer::Failed(text) => UidStep::Failed(
                    StoreError::described(
                        ErrorKind::WriteError,
                        "Mutation error: ",
                        text.as_str(),
                    ),
                ),
                _ => UidStep::Ask(
                    UidResolution { object_id: self.object_id, stage: UidStage::Commit },
                    GraphRequest::Commit,
                ),
            },
            UidStage::Commit => match answer {
                GraphAnswer::Failed(text) => UidStep::Failed(
                    StoreError::described(ErrorKind::WriteError, "Commit error: ", text.as_str()),
                ),
                _ => {
                    let query = uid_lookup_query(self.object_id.as_str());
                    UidStep::Ask(
                        UidResolution { object_id: self.object_id, stage: UidStage::Recheck },
                        GraphRequest::Query(query),
                    )
                },
            },
            UidStage::Recheck => match read_answer(answer) {
                Err(e) => UidStep::Failed(e),
                Ok(doc) => match uid_from_lookup(&doc) {
                    Some(uid) => UidStep::Found(uid),
                    None => UidStep::Failed(
                        StoreError::described(
                            ErrorKind::WriteError,
                            "Failed to get or create UID for ",
                            self.object_id.as_str(),
                        ),
                    ),
                },
            },
        }
    }
}

} // verus!
