//! The client's transport glue: where each server message lands.
use vstd::prelude::*;

use crate::client::SyncClient;
use crate::messages::{items_model, SyncServerMessage};
use crate::store::{apply_items_model, RawStore};
use crate::tracker::SubscriptionTracker;

verus! {

/// Everything a client keeps of one connection.
pub struct ClientSession {
    pub store: RawStore,
    pub mutations: SyncClient,
    pub subscriptions: SubscriptionTracker,
}

impl ClientSession {
    pub open spec fn wf(&self) -> bool {
        self.store.wf() && self.mutations.wf() && self.subscriptions.wf()
    }

    /// A session with nothing stored, tracked or subscribed, on a closed
    /// transport.
    pub fn new() -> (r: ClientSession)
        ensures
            r.wf(),
            r.store@ == Map::<crate::store::RawKey, Seq<u8>>::empty(),
            r.mutations.mutations@ == Map::<u64, crate::client::MutationState>::empty(),
            r.subscriptions.entries@.len() == 0,
            !r.subscriptions.open,
    {
        ClientSession { store: RawStore::new(), mutations: SyncClient::new(), subscriptions: SubscriptionTracker::new() }
    }

    /// Handles one server message: the items of a batch land in the raw
    /// store, left to right; a mutation response updates the mutation
    /// tracker; a query response changes nothing.
    pub fn handle_server_message(&mut self, message: SyncServerMessage)
        requires
            old(self).wf(),
        ensures
            final(self).wf(),
            final(self).subscriptions == old(self).subscriptions,
            message matches SyncServerMessage::SyncBatch(b) ==> {
                &&& final(self).store@ == apply_items_model(old(self).store@, items_model(b.items@))
                &&& final(self).mutations == old(self).mutations
            },
            message matches SyncServerMessage::MutationResponse(resp) ==> {
                &&& final(self).store == old(self).store
                &&& final(self).mutations.next_request_id == old(self).mutations.next_request_id
                &&& match resp.request_id {
                    Some(id) => if old(self).mutations.mutations@.contains_key(id) {
                        final(self).mutations.mutations@ == old(self).mutations.mutations@.insert(
                            id,
                            crate::client::MutationState { request_id: id, status: Some(resp.status), message: resp.message },
                        )
                    } else {
                        final(self).mutations.mutations@ == old(self).mutations.mutations@
                    },
                    None => final(self).mutations.mutations@ == old(self).mutations.mutations@,
                }
            },
            message is QueryResponse ==> final(self).store == old(self).store && final(self).mutations == old(self).mutations,
    {
        match message {
            SyncServerMessage::SyncBatch(batch) => {
                self.store.apply_items(batch.items);
            },
            SyncServerMessage::MutationResponse(response) => {
                self.mutations.handle_mutation_response(&response);
            },
            SyncServerMessage::QueryResponse(_) => {},
        }
    }
}

} // verus!
