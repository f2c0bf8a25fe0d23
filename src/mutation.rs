//! The server's mutation stage: authorization, the decision of what a
//! typed apply does, and the responses.
use vstd::prelude::*;

use crate::ids::{ConnectionId, SerializableEntity};
use crate::messages::{MutationResponse, MutationStatus, Outgoing, SyncServerMessage};
use crate::registry::SyncRegistry;
use crate::subscription::{MutationQueue, QueuedMutation};

verus! {

/// A policy that decides whether a queued mutation may be applied; any
/// status other than `Success` refuses it and is sent back to the client.
pub trait MutationAuthorizer {
    fn authorize(&self, mutation: &QueuedMutation) -> MutationStatus;
}

/// The built-in policy under which only the server itself may mutate.
pub struct ServerOnlyMutationAuthorizer;

impl MutationAuthorizer for ServerOnlyMutationAuthorizer {
    fn authorize(&self, mutation: &QueuedMutation) -> (r: MutationStatus)
        ensures
            r == (if mutation.connection_id.spec_is_server() {
                MutationStatus::Success
            } else {
                MutationStatus::Forbidden
            }),
    {
        if mutation.connection_id.is_server() {
            MutationStatus::Success
        } else {
            MutationStatus::Forbidden
        }
    }
}

/// What the mutation stage does next with one queued mutation.
#[derive(Clone, Copy, Debug, PartialEq, Eq, Structural)]
pub enum MutationStep {
    /// Answer with this status without touching the world.
    Respond(MutationStatus),
    /// Ask the installed policy.
    Authorize,
    /// Hand the mutation to its type's apply function.
    Apply,
}

/// The mutation stage's first check: a mutation of an unregistered type is
/// a validation error; any other goes to the policy.
pub fn mutation_gate(registry: &SyncRegistry, mutation: &QueuedMutation) -> (r: MutationStep)
    ensures
        !registry.has_name(mutation.component_type@) ==> r == MutationStep::Respond(MutationStatus::ValidationError),
        registry.has_name(mutation.component_type@) ==> r == MutationStep::Authorize,
{
    match registry.lookup(mutation.component_type.as_str()) {
        None => MutationStep::Respond(MutationStatus::ValidationError),
        Some(_) => MutationStep::Authorize,
    }
}

/// The mutation stage's second check, on the policy's verdict `auth`: a
/// refusal is answered with the policy's status; consent leads to the
/// apply. Without a policy the verdict is `Success`.
pub fn authorization_gate(auth: MutationStatus) -> (r: MutationStep)
    ensures
        auth != MutationStatus::Success ==> r == MutationStep::Respond(auth),
        auth == MutationStatus::Success ==> r == MutationStep::Apply,
{
    if auth != MutationStatus::Success {
        MutationStep::Respond(auth)
    } else {
        MutationStep::Apply
    }
}

/// What a typed apply does to the world.
#[derive(Clone, Copy, Debug, PartialEq, Eq, Structural)]
pub enum ApplyPlan {
    /// The value did not decode as the type: nothing is written.
    Invalid,
    /// Spawn a new entity carrying the value.
    Spawn,
    /// Insert or replace the component on the live target entity.
    Replace,
    /// The target entity is not live: nothing is written.
    Missing,
}

/// The status a plan reports back.
pub open spec fn plan_status(p: ApplyPlan) -> MutationStatus {
    match p {
        ApplyPlan::Invalid => MutationStatus::ValidationError,
        ApplyPlan::Spawn => MutationStatus::Success,
        ApplyPlan::Replace => MutationStatus::Success,
        ApplyPlan::Missing => MutationStatus::NotFound,
    }
}

/// The decision of a typed apply, given whether the value decoded and
/// whether the target entity is live: a value that does not decode is
/// invalid; the dangling entity spawns; a live entity gets the value; any
/// other entity is missing.
pub fn plan_apply(entity: SerializableEntity, decoded: bool, entity_live: bool) -> (r: ApplyPlan)
    ensures
        !decoded ==> r == ApplyPlan::Invalid,
        decoded && entity.spec_is_dangling() ==> r == ApplyPlan::Spawn,
        decoded && !entity.spec_is_dangling() && entity_live ==> r == ApplyPlan::Replace,
        decoded && !entity.spec_is_dangling() && !entity_live ==> r == ApplyPlan::Missing,
{
    if !decoded {
        ApplyPlan::Invalid
    } else if entity.is_dangling() {
        ApplyPlan::Spawn
    } else if entity_live {
        ApplyPlan::Replace
    } else {
        ApplyPlan::Missing
    }
}

/// The status that `plan` reports back.
pub fn apply_status(plan: ApplyPlan) -> (r: MutationStatus)
    ensures
        r == plan_status(plan),
{
    match plan {
        ApplyPlan::Invalid => MutationStatus::ValidationError,
        ApplyPlan::Spawn => MutationStatus::Success,
        ApplyPlan::Replace => MutationStatus::Success,
        ApplyPlan::Missing => MutationStatus::NotFound,
    }
}

/// Whether `o` is a response to `m` with status `status`.
pub open spec fn is_response_to(o: Outgoing, m: QueuedMutation, status: MutationStatus) -> bool {
    &&& o.connection_id == m.connection_id
    &&& o.message is MutationResponse
    &&& o.message->MutationResponse_0.request_id == m.request_id
    &&& o.message->MutationResponse_0.status == status
    &&& o.message->MutationResponse_0.message is None
}

/// The response that answers `m` with `status`.
pub fn respond(m: &QueuedMutation, status: MutationStatus) -> (r: Outgoing)
    ensures
        is_response_to(r, *m, status),
{
    Outgoing {
        connection_id: m.connection_id,
        message: SyncServerMessage::MutationResponse(
            MutationResponse { request_id: m.request_id, status, message: None },
        ),
    }
}

/// Ends the mutation stage: drains the queue and answers each mutation, in
/// order, with its status from `statuses`.
pub fn respond_all(queue: &mut MutationQueue, statuses: &Vec<MutationStatus>) -> (r: Vec<Outgoing>)
    requires
        statuses@.len() == old(queue).pending@.len(),
    ensures
        final(queue).pending@.len() == 0,
        r@.len() == old(queue).pending@.len(),
        forall|i: int| 0 <= i < r@.len() ==> is_response_to(#[trigger] r@[i], old(queue).pending@[i], statuses@[i]),
{
    let mut out: Vec<Outgoing> = Vec::new();
    let mut i: usize = 0;
    while i < queue.pending.len()
        invariant
            queue.pending@ == old(queue).pending@,
            statuses@.len() == queue.pending@.len(),
            0 <= i <= queue.pending@.len(),
            out@.len() == i,
            forall|k: int| 0 <= k < i ==> is_response_to(#[trigger] out@[k], queue.pending@[k], statuses@[k]),
        decreases queue.pending@.len() - i,
    {
        let o = respond(&queue.pending[i], statuses[i]);
        out.push(o);
        i = i + 1;
    }
    queue.pending = Vec::new();
    out
}

/// How many of `outs` answer connection `c` with request id `request_id`.
pub open spec fn responses_with(outs: Seq<Outgoing>, c: ConnectionId, request_id: u64) -> nat
    decreases outs.len(),
{
    if outs.len() == 0 {
        0
    } else {
        let o = outs.last();
        responses_with(outs.drop_last(), c, request_id) + if o.connection_id == c && o.message is MutationResponse
            && o.message->MutationResponse_0.request_id == Some(request_id) {
            1nat
        } else {
            0nat
        }
    }
}

/// How many of `queue` come from connection `c` with request id `request_id`.
pub open spec fn mutations_with(queue: Seq<QueuedMutation>, c: ConnectionId, request_id: u64) -> nat
    decreases queue.len(),
{
    if queue.len() == 0 {
        0
    } else {
        let m = queue.last();
        mutations_with(queue.drop_last(), c, request_id) + if m.connection_id == c && m.request_id == Some(request_id) {
            1nat
        } else {
            0nat
        }
    }
}

/// The mutation stage answers every request id exactly as often as it was
/// queued: a client that never reuses a request id on its connection gets
/// exactly one response for each mutation that reached the stage.
pub proof fn lemma_one_response_per_request(
    queue: Seq<QueuedMutation>,
    statuses: Seq<MutationStatus>,
    outs: Seq<Outgoing>,
    c: ConnectionId,
    request_id: u64,
)
    requires
        outs.len() == queue.len(),
        statuses.len() == queue.len(),
        forall|i: int| 0 <= i < outs.len() ==> is_response_to(#[trigger] outs[i], queue[i], statuses[i]),
    ensures
        responses_with(outs, c, request_id) == mutations_with(queue, c, request_id),
        mutations_with(queue, c, request_id) <= 1 ==> responses_with(outs, c, request_id) <= 1,
    decreases queue.len(),
{
    if queue.len() > 0 {
        let n = queue.len() - 1;
        assert forall|i: int| 0 <= i < outs.drop_last().len() implies is_response_to(
            #[trigger] outs.drop_last()[i],
            queue.drop_last()[i],
            statuses.drop_last()[i],
        ) by {
            assert(outs.drop_last()[i] == outs[i]);
        }
        lemma_one_response_per_request(queue.drop_last(), statuses.drop_last(), outs.drop_last(), c, request_id);
        assert(is_response_to(outs[n], queue[n], statuses[n]));
    }
}

} // verus!
