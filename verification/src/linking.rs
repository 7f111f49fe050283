//! Making a link in the graph: the nodes of the two objects are found or made, the
//! edge is written with its facets, and the write is committed. The database is asked
//! step by step; what is asked next is decided here from what came back.

use vstd::prelude::*;
use vstd::string::*;
use crate::graph::{
    create_link_mutation, facets_text, link_text, link_write_error, sanitized, uid_lookup_text,
};
use crate::identity::{
    uid_outcome, AnswerModel, GraphAnswer, GraphRequest, RequestModel, UidOutcome, UidResolution,
    UidStage, UidStep,
};
use crate::property::{PropertyMap, PropertyModel};
use crate::store::{ErrorKind, StoreError};
use crate::text::owned;

verus! {

/// The mathematical value of a [`LinkCreation`].
pub struct LinkModel {
    pub link_type_id: Seq<char>,
    pub target_id: Seq<char>,
    pub properties: Seq<(Seq<char>, PropertyModel)>,
    /// The object whose node is being found, and the answer that is waited for.
    pub resolving: Option<(Seq<char>, UidStage)>,
    /// The node of the source, once it is found.
    pub source_uid: Option<Seq<char>>,
    /// The id of the link, once the edge is written.
    pub link_id: Option<Seq<char>>,
    /// Whether the commit of the write is waited for.
    pub committing: bool,
}

/// The making of a link under way.
#[derive(Debug)]
pub struct LinkCreation {
    link_type_id: String,
    target_id: String,
    properties: PropertyMap,
    resolution: Option<UidResolution>,
    source_uid: Option<String>,
    link_id: Option<String>,
    committing: bool,
}

/// The next step in the making of a link.
#[derive(Debug)]
pub enum LinkStep {
    /// Make the request and come back with the answer.
    Ask(LinkCreation, GraphRequest),
    /// The link is made; this is its id.
    Created(String),
    Failed(StoreError),
}

/// The mathematical value of a [`LinkStep`].
pub enum LinkOutcome {
    Ask(LinkModel, RequestModel),
    Created(Seq<char>),
    Failed(ErrorKind, Seq<char>),
}

impl View for LinkCreation {
    type V = LinkModel;

    closed spec fn view(&self) -> LinkModel {
        LinkModel {
            link_type_id: self.link_type_id@,
            target_id: self.target_id@,
            properties: self.properties@,
            resolving: match self.resolution {
                Some(resolution) => Some((resolution.object_id@, resolution.stage)),
                None => None,
            },
            source_uid: match self.source_uid {
                Some(uid) => Some(uid@),
                None => None,
            },
            link_id: match self.link_id {
                Some(id) => Some(id@),
                None => None,
            },
            committing: self.committing,
        }
    }
}

impl View for LinkStep {
    type V = LinkOutcome;

    open spec fn view(&self) -> LinkOutcome {
        match self {
            LinkStep::Ask(creation, request) => LinkOutcome::Ask(creation@, request@),
            LinkStep::Created(id) => LinkOutcome::Created(id@),
            LinkStep::Failed(e) => LinkOutcome::Failed(e@.0, e@.1),
        }
    }
}

/// The making of a link that has asked nothing yet but for the node of its source.
pub open spec fn starting(
    link_type_id: Seq<char>,
    source_id: Seq<char>,
    target_id: Seq<char>,
    properties: Seq<(Seq<char>, PropertyModel)>,
) -> LinkModel {
    LinkModel {
        link_type_id,
        target_id,
        properties,
        resolving: Some((source_id, UidStage::Lookup)),
        source_uid: None,
        link_id: None,
        committing: false,
    }
}

/// Whether `out` is the step that writes the edge between the two nodes, with the
/// given id and time of the link in its facets.
pub open spec fn writes_edge(
    m: LinkModel,
    source_uid: Seq<char>,
    target_uid: Seq<char>,
    link_id: Seq<char>,
    created_at: Seq<char>,
    out: LinkOutcome,
) -> bool {
    link_id.len() == 36 && out == LinkOutcome::Ask(
        LinkModel { resolving: None, link_id: Some(link_id), ..m },
        RequestModel::Mutate(
            link_text(
                source_uid,
                sanitized(m.link_type_id),
                target_uid,
                facets_text(m.properties, link_id, m.link_type_id, created_at),
            ),
        ),
    )
}

/// Whether `out` is the step that writes the edge between the two nodes, with some
/// fresh id of the link and some time in its facets.
pub open spec fn edge_written(
    m: LinkModel,
    source_uid: Seq<char>,
    target_uid: Seq<char>,
    out: LinkOutcome,
) -> bool {
    exists|link_id: Seq<char>, created_at: Seq<char>|
        #[trigger] writes_edge(m, source_uid, target_uid, link_id, created_at, out)
}

/// Whether `out` is the step that follows an answer.
///
/// First the node of the source is found or made, then that of the target; each
/// failure of that ends the making with its error. Then the edge is written, with a
/// fresh id of the link and the present time in its facets, and the write is
/// committed. A failed write is a write error that says `Link creation error`, a
/// failed commit one that says `Commit error`. After the commit the link is made, and
/// its id is handed out.
pub open spec fn link_follows(m: LinkModel, answer: AnswerModel, out: LinkOutcome) -> bool {
    match m.resolving {
        Some((object_id, stage)) => match uid_outcome(object_id, stage, answer) {
            UidOutcome::Ask(id, next, request) => out == LinkOutcome::Ask(
                LinkModel { resolving: Some((id, next)), ..m },
                request,
            ),
            UidOutcome::Failed(kind, text) => out == LinkOutcome::Failed(kind, text),
            UidOutcome::Found(uid) => match m.source_uid {
                None => out == LinkOutcome::Ask(
                    LinkModel {
                        resolving: Some((m.target_id, UidStage::Lookup)),
                        source_uid: Some(uid),
                        ..m
                    },
                    RequestModel::Query(uid_lookup_text(m.target_id)),
                ),
                Some(source) => edge_written(m, source, uid, out),
            },
        },
        None => match m.link_id {
            None => out == LinkOutcome::Failed(ErrorKind::Unknown, "No link is being made"@),
            Some(id) => match answer {
                AnswerModel::Failed(text) => out == LinkOutcome::Failed(
                    ErrorKind::WriteError,
                    (if m.committing {
                        "Commit error: "@
                    } else {
                        "Link creation error: "@
                    }) + text,
                ),
                _ => if m.committing {
                    out == LinkOutcome::Created(id)
                } else {
                    out == LinkOutcome::Ask(
                        LinkModel { committing: true, ..m },
                        RequestModel::Commit,
                    )
                },
            },
        },
    }
}

impl LinkCreation {
    /// Begins to make a link of a type from one object to another: the database is
    /// asked for the node of the source.
    pub fn begin(
        link_type_id: &str,
        source_id: &str,
        target_id: &str,
        properties: &PropertyMap,
    ) -> (step: LinkStep)
        ensures
            step@ == LinkOutcome::Ask(
                starting(link_type_id@, source_id@, target_id@, properties@),
                RequestModel::Query(uid_lookup_text(source_id@)),
            ),
    {
        match UidResolution::begin(source_id) {
            UidStep::Ask(resolution, request) => LinkStep::Ask(
                LinkCreation {
                    link_type_id: owned(link_type_id),
                    target_id: owned(target_id),
                    properties: properties.clone(),
                    resolution: Some(resolution),
                    source_uid: None,
                    link_id: None,
                    committing: false,
                },
                request,
            ),
            UidStep::Found(uid) => LinkStep::Created(uid),
            UidStep::Failed(e) => LinkStep::Failed(e),
        }
    }

    /// Takes the answer to the request that was made last, and decides the next step.
    pub fn advance(self, answer: &GraphAnswer) -> (step: LinkStep)
        ensures
            link_follows(self@, answer@, step@),
    {
        let ghost before = self@;
        let LinkCreation {
            link_type_id,
            target_id,
            properties,
            resolution,
            source_uid,
            link_id,
            committing,
        } = self;
        match resolution {
            Some(resolution) => {
                let ghost object_id = resolution.object_id@;
                let ghost stage = resolution.stage;
                match resolution.advance(answer) {
                    UidStep::Ask(next, request) => {
                        let step = LinkStep::Ask(
                            LinkCreation {
                                link_type_id,
                                target_id,
                                properties,
                                resolution: Some(next),
                                source_uid,
                                link_id,
                                committing,
                            },
                            request,
                        );
                        proof {
                            assert(uid_outcome(object_id, stage, answer@) is Ask);
                            assert(link_follows(before, answer@, step@));
                        }
                        step
                    },
                    UidStep::Failed(e) => {
                        let step = LinkStep::Failed(e);
                        proof {
                            assert(uid_outcome(object_id, stage, answer@) is Failed);
                            assert(link_follows(before, answer@, step@));
                        }
                        step
                    },
                    UidStep::Found(uid) => match source_uid {
                        None => match UidResolution::begin(target_id.as_str()) {
                            UidStep::Ask(next, request) => {
                                let step = LinkStep::Ask(
                                    LinkCreation {
                                        link_type_id,
                                        target_id,
                                        properties,
                                        resolution: Some(next),
                                        source_uid: Some(uid),
                                        link_id,
                                        committing,
                                    },
                                    request,
                                );
                                proof {
                                    assert(uid_outcome(object_id, stage, answer@) is Found);
                                    assert(link_follows(before, answer@, step@));
                                }
                                step
                            },
                            UidStep::Found(found) => LinkStep::Created(found),
                            UidStep::Failed(e) => LinkStep::Failed(e),
                        },
                        Some(source) => {
                            let mutation = create_link_mutation(
                                link_type_id.as_str(),
                                source.as_str(),
                                uid.as_str(),
                                &properties,
                            );
                            let ghost id = mutation.link_id@;
                            let ghost time = mutation.created_at@;
                            let step = LinkStep::Ask(
                                LinkCreation {
                                    link_type_id,
                                    target_id,
                                    properties,
                                    resolution: None,
                                    source_uid: Some(source),
                                    link_id: Some(mutation.link_id),
                                    committing,
                                },
                                GraphRequest::Mutate(mutation.nquad),
                            );
                            proof {
                                assert(before.resolving == Some((object_id, stage)));
                                assert(uid_outcome(object_id, stage, answer@) == UidOutcome::Found(
                                    uid@,
                                ));
                                assert(before.source_uid == Some(source@));
                                assert(writes_edge(before, source@, uid@, id, time, step@));
                                assert(edge_written(before, source@, uid@, step@));
                                assert(link_follows(before, answer@, step@));
                            }
                            step
                        },
                    },
                }
            },
            None => match link_id {
                None => {
                    proof {
                        reveal_strlit("");
                        assert("No link is being made"@ + ""@ =~= "No link is being made"@);
                    }
                    let step = LinkStep::Failed(
                        StoreError::described(ErrorKind::Unknown, "No link is being made", ""),
                    );
                    proof {
                        assert(link_follows(before, answer@, step@));
                    }
                    step
                },
                Some(id) => match answer {
                    GraphAnswer::Failed(text) => {
                        let step = LinkStep::Failed(link_write_error(committing, text.as_str()));
                        proof {
                            assert(link_follows(before, answer@, step@));
                        }
                        step
                    },
                    _ => if committing {
                        let step = LinkStep::Created(id);
                        proof {
                            assert(link_follows(before, answer@, step@));
                        }
                        step
                    } else {
                        let step = LinkStep::Ask(
                            LinkCreation {
                                link_type_id,
                                target_id,
                                properties,
                                resolution: None,
                                source_uid,
                                link_id: Some(id),
                                committing: true,
                            },
                            GraphRequest::Commit,
                        );
                        proof {
                            assert(link_follows(before, answer@, step@));
                        }
                        step
                    },
                },
            },
        }
    }
}

} // verus!
