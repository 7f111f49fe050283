//! The consistency service: which calls to the stores an event asks for, in which
//! order, and what becomes of an event when a call fails.

use vstd::prelude::*;
use vstd::string::*;
use crate::property::{PropertyMap, PropertyModel};
use crate::store::{ErrorKind, IndexedObject, StoreError};
use crate::text::owned;

verus! {

/// How many events the queue of the service holds before a sender has to wait.
pub const QUEUE_CAPACITY: usize = 1000;

/// A write that the stores have to follow.
#[derive(Debug, Clone)]
pub enum SyncEvent {
    ObjectCreated { object_type: String, object_id: String, properties: PropertyMap },
    ObjectUpdated { object_type: String, object_id: String, properties: PropertyMap },
    ObjectDeleted { object_type: String, object_id: String },
    LinkCreated { link_type_id: String, source_id: String, target_id: String, properties: PropertyMap },
    LinkDeleted { link_id: String },
}

/// One call to one of the stores.
#[derive(Debug, Clone)]
pub enum StoreCall {
    /// Index the object in the search store.
    IndexObject { object_type: String, object_id: String, properties: PropertyMap },
    /// Write the objects to the columnar store.
    WriteBatch { object_type: String, objects: Vec<IndexedObject> },
    /// Delete the object from the search store.
    DeleteObject { object_type: String, object_id: String },
    /// Create the link in the graph store.
    CreateLink { link_type_id: String, source_id: String, target_id: String, properties: PropertyMap },
    /// Delete the link from the graph store.
    DeleteLink { link_id: String },
}

/// The mathematical value of a [`StoreCall`]. A batch is the list of its objects, each
/// with its type, its id and its properties.
pub enum CallModel {
    IndexObject {
        object_type: Seq<char>,
        object_id: Seq<char>,
        properties: Seq<(Seq<char>, PropertyModel)>,
    },
    WriteBatch {
        object_type: Seq<char>,
        objects: Seq<(Seq<char>, Seq<char>, Seq<(Seq<char>, PropertyModel)>)>,
    },
    DeleteObject { object_type: Seq<char>, object_id: Seq<char> },
    CreateLink {
        link_type_id: Seq<char>,
        source_id: Seq<char>,
        target_id: Seq<char>,
        properties: Seq<(Seq<char>, PropertyModel)>,
    },
    DeleteLink { link_id: Seq<char> },
}

impl View for StoreCall {
    type V = CallModel;

    open spec fn view(&self) -> CallModel {
        match self {
            StoreCall::IndexObject { object_type, object_id, properties } => CallModel::IndexObject {
                object_type: object_type@,
                object_id: object_id@,
                properties: properties@,
            },
            StoreCall::WriteBatch { object_type, objects } => CallModel::WriteBatch {
                object_type: object_type@,
                objects: objects@.map_values(
                    |o: IndexedObject| (o.object_type@, o.object_id@, o.properties@),
                ),
            },
            StoreCall::DeleteObject { object_type, object_id } => CallModel::DeleteObject {
                object_type: object_type@,
                object_id: object_id@,
            },
            StoreCall::CreateLink {
                link_type_id,
                source_id,
                target_id,
                properties,
            } => CallModel::CreateLink {
                link_type_id: link_type_id@,
                source_id: source_id@,
                target_id: target_id@,
                properties: properties@,
            },
            StoreCall::DeleteLink { link_id } => CallModel::DeleteLink { link_id: link_id@ },
        }
    }
}

/// The calls that an object asks for when it was created or updated: it is indexed in
/// the search store, then written to the columnar store as a batch of one object, which
/// has the type, the id and the properties of the event.
pub open spec fn object_calls(
    object_type: Seq<char>,
    object_id: Seq<char>,
    properties: Seq<(Seq<char>, PropertyModel)>,
) -> Seq<CallModel> {
    seq![
        CallModel::IndexObject { object_type, object_id, properties },
        CallModel::WriteBatch { object_type, objects: seq![(object_type, object_id, properties)] },
    ]
}

/// The calls that an event asks for, in their order.
///
/// A deleted object is deleted from the search store only: the columnar store is never
/// told of a deletion. A link event goes to the graph store.
pub open spec fn calls_of(event: SyncEvent) -> Seq<CallModel> {
    match event {
        SyncEvent::ObjectCreated { object_type, object_id, properties } => object_calls(
            object_type@,
            object_id@,
            properties@,
        ),
        SyncEvent::ObjectUpdated { object_type, object_id, properties } => object_calls(
            object_type@,
            object_id@,
            properties@,
        ),
        SyncEvent::ObjectDeleted { object_type, object_id } => seq![
            CallModel::DeleteObject { object_type: object_type@, object_id: object_id@ },
        ],
        SyncEvent::LinkCreated { link_type_id, source_id, target_id, properties } => seq![
            CallModel::CreateLink {
                link_type_id: link_type_id@,
                source_id: source_id@,
                target_id: target_id@,
                properties: properties@,
            },
        ],
        SyncEvent::LinkDeleted { link_id } => seq![CallModel::DeleteLink { link_id: link_id@ }],
    }
}

/// The calls of an event that are still to be made, the next one first.
#[derive(Debug)]
pub struct SyncPlan {
    waiting: Vec<StoreCall>,
}

impl View for SyncPlan {
    type V = Seq<CallModel>;

    closed spec fn view(&self) -> Seq<CallModel> {
        Seq::new(self.waiting@.len(), |i: int| self.waiting@[self.waiting@.len() - 1 - i]@)
    }
}

/// The next step in the handling of an event.
#[derive(Debug)]
pub enum SyncStep {
    /// Make the call and come back with its outcome; the plan holds the calls after it.
    Call(SyncPlan, StoreCall),
    /// The event is done with: every call succeeded, or one failed with this error.
    Finished(Result<(), StoreError>),
}

/// The mathematical value of a [`SyncStep`].
pub enum SyncOutcome {
    Call(Seq<CallModel>, CallModel),
    Done,
    Failed(ErrorKind, Seq<char>),
}

impl View for SyncStep {
    type V = SyncOutcome;

    open spec fn view(&self) -> SyncOutcome {
        match self {
            SyncStep::Call(plan, call) => SyncOutcome::Call(plan@, call@),
            SyncStep::Finished(Ok(_)) => SyncOutcome::Done,
            SyncStep::Finished(Err(e)) => SyncOutcome::Failed(e@.0, e@.1),
        }
    }
}

/// The step that makes the first of the calls, or ends where none is left.
pub open spec fn step_into(calls: Seq<CallModel>) -> SyncOutcome {
    if calls.len() == 0 {
        SyncOutcome::Done
    } else {
        SyncOutcome::Call(calls.drop_first(), calls[0])
    }
}

/// The step that follows the outcome of a call: the next call after a success; after a
/// failure the event is dropped with that error, and no call of it is made any more.
pub open spec fn after_call(waiting: Seq<CallModel>, outcome: Result<(), StoreError>) -> SyncOutcome {
    match outcome {
        Ok(_) => step_into(waiting),
        Err(e) => SyncOutcome::Failed(e@.0, e@.1),
    }
}

impl SyncPlan {
    /// Takes the next call off the plan.
    fn proceed(self) -> (step: SyncStep)
        ensures
            step@ == step_into(self@),
    {
        let mut waiting = self.waiting;
        let ghost before = waiting@;
        match waiting.pop() {
            Some(call) => {
                let plan = SyncPlan { waiting };
                proof {
                    assert(plan@ =~= self@.drop_first());
                }
                SyncStep::Call(plan, call)
            },
            None => SyncStep::Finished(Ok(())),
        }
    }

    /// Takes the outcome of the call that was made last, and decides the next step.
    pub fn advance(self, outcome: Result<(), StoreError>) -> (step: SyncStep)
        ensures
            step@ == after_call(self@, outcome),
    {
        match outcome {
            Ok(_) => self.proceed(),
            Err(e) => SyncStep::Finished(Err(e)),
        }
    }
}

fn object_plan(object_type: String, object_id: String, properties: PropertyMap) -> (plan: SyncPlan)
    ensures
        plan@ == object_calls(object_type@, object_id@, properties@),
{
    let copy = properties.clone();
    let object = IndexedObject::new(object_type.clone(), object_id.clone(), copy);
    let mut objects: Vec<IndexedObject> = Vec::new();
    objects.push(object);
    let write = StoreCall::WriteBatch { object_type: object_type.clone(), objects };
    proof {
        assert(objects@.map_values(
            |o: IndexedObject| (o.object_type@, o.object_id@, o.properties@),
        ) =~= seq![(object_type@, object_id@, properties@)]);
    }
    let index = StoreCall::IndexObject { object_type, object_id, properties };
    let mut waiting: Vec<StoreCall> = Vec::new();
    waiting.push(write);
    waiting.push(index);
    let plan = SyncPlan { waiting };
    proof {
        assert(plan@ =~= object_calls(object_type@, object_id@, properties@));
    }
    plan
}

fn single(call: StoreCall) -> (plan: SyncPlan)
    ensures
        plan@ == seq![call@],
{
    let mut waiting: Vec<StoreCall> = Vec::new();
    waiting.push(call);
    let plan = SyncPlan { waiting };
    proof {
        assert(plan@ =~= seq![call@]);
    }
    plan
}

/// The state of the service: whether its worker has been started.
#[derive(Debug)]
pub struct SyncService {
    pub started: bool,
}

impl SyncService {
    /// A service whose worker has not been started.
    pub fn new() -> (service: Self)
        ensures
            !service.started,
    {
        SyncService { started: false }
    }

    /// Starts the worker. A service starts once: a second start is refused with an
    /// unknown error that says so.
    pub fn start(&mut self) -> (out: Result<(), StoreError>)
        ensures
            final(self).started,
            !old(self).started ==> out is Ok,
            old(self).started ==> out is Err && out->Err_0@ == (
                ErrorKind::Unknown,
                "Sync service already started"@,
            ),
    {
        if self.started {
            proof {
                reveal_strlit("");
                assert("Sync service already started"@ + ""@ =~= "Sync service already started"@);
            }
            Err(StoreError::described(ErrorKind::Unknown, "Sync service already started", ""))
        } else {
            self.started = true;
            Ok(())
        }
    }

    /// Begins to handle an event: the first call that it asks for.
    pub fn handle_event(event: SyncEvent) -> (step: SyncStep)
        ensures
            step@ == step_into(calls_of(event)),
    {
        let plan = match event {
            SyncEvent::ObjectCreated { object_type, object_id, properties } => object_plan(
                object_type,
                object_id,
                properties,
            ),
            SyncEvent::ObjectUpdated { object_type, object_id, properties } => object_plan(
                object_type,
                object_id,
                properties,
            ),
            SyncEvent::ObjectDeleted { object_type, object_id } => single(
                StoreCall::DeleteObject { object_type, object_id },
            ),
            SyncEvent::LinkCreated { link_type_id, source_id, target_id, properties } => single(
                StoreCall::CreateLink { link_type_id, source_id, target_id, properties },
            ),
            SyncEvent::LinkDeleted { link_id } => single(StoreCall::DeleteLink { link_id }),
        };
        plan.proceed()
    }

    /// Begins to write an object to the search store and the columnar store, for a
    /// caller that waits for both.
    pub fn sync_object(object_type: &str, object_id: &str, properties: &PropertyMap) -> (step:
        SyncStep)
        ensures
            step@ == step_into(object_calls(object_type@, object_id@, properties@)),
    {
        object_plan(owned(object_type), owned(object_id), properties.clone()).proceed()
    }

    /// The call that writes a link to the graph store, for a caller that waits for it.
    pub fn sync_link(
        link_type_id: &str,
        source_id: &str,
        target_id: &str,
        properties: &PropertyMap,
    ) -> (call: StoreCall)
        ensures
            call@ == (CallModel::CreateLink {
                link_type_id: link_type_id@,
                source_id: source_id@,
                target_id: target_id@,
                properties: properties@,
            }),
    {
        StoreCall::CreateLink {
            link_type_id: owned(link_type_id),
            source_id: owned(source_id),
            target_id: owned(target_id),
            properties: properties.clone(),
        }
    }
}

/// An event that deletes an object never reaches the columnar store, and an event about
/// a link never reaches the search store or the columnar store.
pub proof fn lemma_deletions_stay_out_of_the_columnar_store(event: SyncEvent)
    ensures
        event is ObjectDeleted ==> forall|i: int|
            0 <= i < calls_of(event).len() ==> (#[trigger] calls_of(event)[i]) is DeleteObject,
        event is LinkCreated ==> forall|i: int|
            0 <= i < calls_of(event).len() ==> (#[trigger] calls_of(event)[i]) is CreateLink,
        event is LinkDeleted ==> forall|i: int|
            0 <= i < calls_of(event).len() ==> (#[trigger] calls_of(event)[i]) is DeleteLink,
{
}

} // verus!
