//! The client's mutation tracker.
use vstd::prelude::*;
use std::collections::HashMap;

use crate::ids::SerializableEntity;
use crate::messages::{MutateComponent, MutationResponse, MutationStatus, SyncClientMessage, SyncServerMessage};

verus! {

broadcast use vstd::std_specs::hash::group_hash_axioms;

/// The client's view of one mutation: pending while `status` is `None`,
/// then the status and message of the server's response.
#[derive(Debug)]
pub struct MutationState {
    pub request_id: u64,
    pub status: Option<MutationStatus>,
    pub message: Option<String>,
}

impl MutationState {
    /// The state of a mutation that is waiting for its response.
    pub fn new_pending(request_id: u64) -> (r: MutationState)
        ensures
            r.request_id == request_id,
            r.status is None,
            r.message is None,
    {
        MutationState { request_id, status: None, message: None }
    }
}

impl Clone for MutationState {
    fn clone(&self) -> (r: MutationState)
        ensures
            r == *self,
    {
        let message = match &self.message {
            Some(m) => Some(m.clone()),
            None => None,
        };
        MutationState { request_id: self.request_id, status: self.status, message }
    }
}

/// Allocates request ids and tracks the state of each mutation the client
/// issued.
pub struct SyncClient {
    pub next_request_id: u64,
    pub mutations: HashMap<u64, MutationState>,
}

impl SyncClient {
    /// Every tracked mutation is keyed by its own request id, and was
    /// allocated an id no larger than the last one handed out.
    pub open spec fn wf(&self) -> bool {
        forall|id: u64| #[trigger] self.mutations@.contains_key(id) ==> self.mutations@[id].request_id == id
            && id <= self.next_request_id
    }

    pub fn new() -> (r: SyncClient)
        ensures
            r.wf(),
            r.next_request_id == 0,
            r.mutations@ == Map::<u64, MutationState>::empty(),
    {
        SyncClient { next_request_id: 0, mutations: HashMap::new() }
    }

    /// Issues a mutation of `component_type` on `entity` (the dangling
    /// entity to spawn one) with the encoded `value`: allocates the next
    /// request id, records the mutation as pending, and returns the id and
    /// the message to send.
    pub fn mutate(&mut self, entity: SerializableEntity, component_type: String, value: Vec<u8>) -> (r: (u64, SyncClientMessage))
        requires
            old(self).wf(),
            old(self).next_request_id < u64::MAX,
        ensures
            final(self).wf(),
            r.0 == old(self).next_request_id + 1,
            final(self).next_request_id == r.0,
            final(self).mutations@ == old(self).mutations@.insert(r.0, MutationState { request_id: r.0, status: None, message: None }),
            r.1 == SyncClientMessage::Mutate(
                MutateComponent { request_id: Some(r.0), entity, component_type, value },
            ),
    {
        let request_id = self.next_request_id + 1;
        self.next_request_id = request_id;
        self.mutations.insert(request_id, MutationState::new_pending(request_id));
        let msg = SyncClientMessage::Mutate(
            MutateComponent { request_id: Some(request_id), entity, component_type, value },
        );
        (request_id, msg)
    }

    /// Every tracked mutation, by request id.
    pub fn mutations(&self) -> (r: HashMap<u64, MutationState>)
        ensures
            r@ == self.mutations@,
    {
        self.mutations.clone()
    }

    /// Stops tracking a mutation the caller has finished observing.
    pub fn discard(&mut self, request_id: u64)
        requires
            old(self).wf(),
        ensures
            final(self).wf(),
            final(self).next_request_id == old(self).next_request_id,
            final(self).mutations@ == old(self).mutations@.remove(request_id),
    {
        self.mutations.remove(&request_id);
    }

    /// The state of the mutation with this request id, if it is tracked.
    pub fn mutation_state(&self, request_id: u64) -> (r: Option<MutationState>)
        ensures
            self.mutations@.contains_key(request_id) ==> r == Some(self.mutations@[request_id]),
            !self.mutations@.contains_key(request_id) ==> r is None,
    {
        match self.mutations.get(&request_id) {
            Some(state) => Some(state.clone()),
            None => None,
        }
    }

    /// Records the server's response: a tracked mutation takes the status
    /// and message of the response; a response without a request id, or
    /// with one that is not tracked, is ignored.
    pub fn handle_mutation_response(&mut self, response: &MutationResponse)
        requires
            old(self).wf(),
        ensures
            final(self).wf(),
            final(self).next_request_id == old(self).next_request_id,
            match response.request_id {
                Some(id) => if old(self).mutations@.contains_key(id) {
                    final(self).mutations@ == old(self).mutations@.insert(
                        id,
                        MutationState { request_id: id, status: Some(response.status), message: response.message },
                    )
                } else {
                    final(self).mutations@ == old(self).mutations@
                },
                None => final(self).mutations@ == old(self).mutations@,
            },
    {
        if let Some(id) = response.request_id {
            match self.mutations.remove(&id) {
                Some(state) => {
                    let message = match &response.message {
                        Some(m) => Some(m.clone()),
                        None => None,
                    };
                    let updated = MutationState { request_id: state.request_id, status: Some(response.status), message };
                    self.mutations.insert(id, updated);
                    proof {
                        assert(final(self).mutations@ =~= old(self).mutations@.insert(
                            id,
                            MutationState { request_id: id, status: Some(response.status), message: response.message },
                        ));
                    }
                },
                None => {},
            }
        }
    }

    /// Handles a server message: a mutation response updates the tracked
    /// state; every other message leaves it as it is.
    pub fn handle_server_message(&mut self, message: &SyncServerMessage)
        requires
            old(self).wf(),
        ensures
            final(self).wf(),
            final(self).next_request_id == old(self).next_request_id,
            !(message is MutationResponse) ==> final(self).mutations@ == old(self).mutations@,
            message is MutationResponse ==> match message->MutationResponse_0.request_id {
                Some(id) => if old(self).mutations@.contains_key(id) {
                    final(self).mutations@ == old(self).mutations@.insert(
                        id,
                        MutationState {
                            request_id: id,
                            status: Some(message->MutationResponse_0.status),
                            message: message->MutationResponse_0.message,
                        },
                    )
                } else {
                    final(self).mutations@ == old(self).mutations@
                },
                None => final(self).mutations@ == old(self).mutations@,
            },
    {
        if let SyncServerMessage::MutationResponse(response) = message {
            self.handle_mutation_response(response);
        }
    }
}

} // verus!
