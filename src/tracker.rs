//! The client's subscription registry: one wire subscription per component
//! type however many views bind to it, counted references, and subscribe
//! requests held back until the transport is open.
use vstd::prelude::*;

use crate::messages::{SubscriptionRequest, SyncClientMessage, UnsubscribeRequest};
use crate::registry::str_eq;

verus! {

broadcast use vstd::seq_lib::group_seq_properties;

/// One subscribed component type with its wire id and the number of views
/// bound to it.
#[derive(Debug)]
pub struct TrackedSubscription {
    pub component_type: String,
    pub subscription_id: u64,
    pub ref_count: usize,
}

/// The index of the entry for `name`, if there is one.
pub open spec fn index_of(s: Seq<TrackedSubscription>, name: Seq<char>) -> Option<int> {
    if exists|i: int| 0 <= i < s.len() && (#[trigger] s[i]).component_type@ == name {
        Some(choose|i: int| 0 <= i < s.len() && (#[trigger] s[i]).component_type@ == name)
    } else {
        None
    }
}

/// The subscribe request for `e`.
pub open spec fn subscribe_message(e: TrackedSubscription) -> SyncClientMessage {
    SyncClientMessage::Subscription(
        SubscriptionRequest { subscription_id: e.subscription_id, component_type: e.component_type, entity: None },
    )
}

/// The client's subscriptions and whether its transport is open.
pub struct SubscriptionTracker {
    pub entries: Vec<TrackedSubscription>,
    /// The id the next new subscription gets.
    pub next_subscription_id: u64,
    pub open: bool,
}

impl SubscriptionTracker {
    /// Types are unique, each entry has at least one view, and ids are
    /// distinct and below the next id.
    pub open spec fn wf(&self) -> bool {
        &&& forall|i: int| 0 <= i < self.entries@.len() ==> {
            &&& (#[trigger] self.entries@[i]).ref_count >= 1
            &&& 1 <= self.entries@[i].subscription_id < self.next_subscription_id
        }
        &&& forall|i: int, j: int| 0 <= i < j < self.entries@.len() ==> {
            &&& (#[trigger] self.entries@[i]).component_type@ != (#[trigger] self.entries@[j]).component_type@
            &&& self.entries@[i].subscription_id != self.entries@[j].subscription_id
        }
        &&& self.next_subscription_id >= 1
    }

    /// An empty tracker for a closed transport; ids start at 1.
    pub fn new() -> (r: SubscriptionTracker)
        ensures
            r.wf(),
            r.entries@.len() == 0,
            r.next_subscription_id == 1,
            !r.open,
    {
        SubscriptionTracker { entries: Vec::new(), next_subscription_id: 1, open: false }
    }

    fn find(&self, name: &str) -> (r: Option<usize>)
        requires
            self.wf(),
        ensures
            r matches Some(i) ==> index_of(self.entries@, name@) == Some(i as int),
            r is None ==> index_of(self.entries@, name@) is None,
    {
        let mut i: usize = 0;
        while i < self.entries.len()
            invariant
                self.wf(),
                0 <= i <= self.entries@.len(),
                forall|k: int| 0 <= k < i ==> (#[trigger] self.entries@[k]).component_type@ != name@,
            decreases self.entries@.len() - i,
        {
            if str_eq(self.entries[i].component_type.as_str(), name) {
                proof {
                    let j = choose|j: int| 0 <= j < self.entries@.len() && (#[trigger] self.entries@[j]).component_type@ == name@;
                    if j < i {
                    } else if j > i {
                        assert(self.entries@[i as int].component_type@ != self.entries@[j].component_type@);
                    }
                }
                return Some(i);
            }
            i = i + 1;
        }
        None
    }

    /// The wire id of the subscription to `name`, if there is one.
    pub fn subscription_id(&self, name: &str) -> (r: Option<u64>)
        requires
            self.wf(),
        ensures
            r == (match index_of(self.entries@, name@) {
                Some(i) => Some(self.entries@[i].subscription_id),
                None => None,
            }),
    {
        match self.find(name) {
            Some(i) => Some(self.entries[i].subscription_id),
            None => None,
        }
    }

    /// Counts one more view of `name`. Returns whether it is the first,
    /// in which case a new subscription id is allocated.
    pub fn increment_subscription(&mut self, name: &str) -> (r: bool)
        requires
            old(self).wf(),
            old(self).next_subscription_id < u64::MAX,
            index_of(old(self).entries@, name@) matches Some(i) ==> old(self).entries@[i].ref_count < usize::MAX,
        ensures
            final(self).wf(),
            final(self).open == old(self).open,
            r == (index_of(old(self).entries@, name@) is None),
            match index_of(old(self).entries@, name@) {
                Some(i) => {
                    &&& final(self).entries@.len() == old(self).entries@.len()
                    &&& final(self).entries@[i].ref_count == old(self).entries@[i].ref_count + 1
                    &&& final(self).entries@[i].subscription_id == old(self).entries@[i].subscription_id
                    &&& final(self).entries@[i].component_type == old(self).entries@[i].component_type
                    &&& forall|k: int| 0 <= k < old(self).entries@.len() && k != i ==> #[trigger] final(self).entries@[k] == old(self).entries@[k]
                    &&& final(self).next_subscription_id == old(self).next_subscription_id
                },
                None => {
                    &&& final(self).entries@.len() == old(self).entries@.len() + 1
                    &&& forall|k: int| 0 <= k < old(self).entries@.len() ==> #[trigger] final(self).entries@[k] == old(self).entries@[k]
                    &&& final(self).entries@.last().component_type@ == name@
                    &&& final(self).entries@.last().subscription_id == old(self).next_subscription_id
                    &&& final(self).entries@.last().ref_count == 1
                    &&& final(self).next_subscription_id == old(self).next_subscription_id + 1
                },
            },
    {
        match self.find(name) {
            Some(i) => {
                let ghost s = self.entries@;
                let mut e = self.entries.remove(i);
                e.ref_count = e.ref_count + 1;
                self.entries.insert(i, e);
                proof {
                    assert forall|k: int| 0 <= k < s.len() && k != i implies #[trigger] self.entries@[k] == s[k] by {}
                }
                false
            },
            None => {
                let id = self.next_subscription_id;
                self.next_subscription_id = id + 1;
                self.entries.push(TrackedSubscription { component_type: name.to_owned(), subscription_id: id, ref_count: 1 });
                true
            },
        }
    }

    /// Counts one view of `name` fewer. Returns the subscription id when it
    /// was the last view, in which case the subscription is forgotten.
    pub fn decrement_subscription(&mut self, name: &str) -> (r: Option<u64>)
        requires
            old(self).wf(),
        ensures
            final(self).wf(),
            final(self).open == old(self).open,
            final(self).next_subscription_id == old(self).next_subscription_id,
            match index_of(old(self).entries@, name@) {
                Some(i) => if old(self).entries@[i].ref_count > 1 {
                    &&& r is None
                    &&& final(self).entries@.len() == old(self).entries@.len()
                    &&& final(self).entries@[i].ref_count == old(self).entries@[i].ref_count - 1
                    &&& final(self).entries@[i].subscription_id == old(self).entries@[i].subscription_id
                    &&& final(self).entries@[i].component_type == old(self).entries@[i].component_type
                    &&& forall|k: int| 0 <= k < old(self).entries@.len() && k != i ==> #[trigger] final(self).entries@[k] == old(self).entries@[k]
                } else {
                    &&& r == Some(old(self).entries@[i].subscription_id)
                    &&& final(self).entries@ == old(self).entries@.remove(i)
                },
                None => r is None && final(self).entries@ == old(self).entries@,
            },
    {
        match self.find(name) {
            Some(i) => {
                let ghost s = self.entries@;
                let mut e = self.entries.remove(i);
                if e.ref_count > 1 {
                    e.ref_count = e.ref_count - 1;
                    self.entries.insert(i, e);
                    proof {
                        assert forall|k: int| 0 <= k < s.len() && k != i implies #[trigger] self.entries@[k] == s[k] by {}
                    }
                    None
                } else {
                    proof {
                        let t = self.entries@;
                        assert forall|a: int, b: int| 0 <= a < b < t.len() implies {
                            &&& (#[trigger] t[a]).component_type@ != (#[trigger] t[b]).component_type@
                            &&& t[a].subscription_id != t[b].subscription_id
                        } by {
                            let a2 = if a < i { a } else { a + 1 };
                            let b2 = if b < i { b } else { b + 1 };
                            assert(t[a] == s[a2] && t[b] == s[b2]);
                        }
                        assert forall|a: int| 0 <= a < t.len() implies {
                            &&& (#[trigger] t[a]).ref_count >= 1
                            &&& 1 <= t[a].subscription_id < self.next_subscription_id
                        } by {
                            let a2 = if a < i { a } else { a + 1 };
                            assert(t[a] == s[a2]);
                        }
                    }
                    Some(e.subscription_id)
                }
            },
            None => None,
        }
    }

    /// A view binds to component type `name`. The first binding allocates
    /// the subscription and, when the transport is open, returns the
    /// subscribe request to send now; when it is closed the request waits
    /// for [`SubscriptionTracker::on_open`]. Later bindings only count.
    pub fn bind(&mut self, name: &str) -> (r: Option<SyncClientMessage>)
        requires
            old(self).wf(),
            old(self).next_subscription_id < u64::MAX,
            index_of(old(self).entries@, name@) matches Some(i) ==> old(self).entries@[i].ref_count < usize::MAX,
        ensures
            final(self).wf(),
            final(self).open == old(self).open,
            index_of(old(self).entries@, name@) is Some ==> r is None,
            index_of(old(self).entries@, name@) is None && !old(self).open ==> r is None,
            index_of(old(self).entries@, name@) is None && old(self).open ==> r == Some(subscribe_message(final(self).entries@.last())),
            index_of(old(self).entries@, name@) is None ==> {
                &&& final(self).entries@.len() == old(self).entries@.len() + 1
                &&& forall|k: int| 0 <= k < old(self).entries@.len() ==> #[trigger] final(self).entries@[k] == old(self).entries@[k]
                &&& final(self).entries@.last().component_type@ == name@
                &&& final(self).entries@.last().subscription_id == old(self).next_subscription_id
                &&& final(self).entries@.last().ref_count == 1
            },
            index_of(old(self).entries@, name@) matches Some(i) ==> {
                &&& final(self).entries@.len() == old(self).entries@.len()
                &&& final(self).entries@[i].ref_count == old(self).entries@[i].ref_count + 1
                &&& final(self).entries@[i].subscription_id == old(self).entries@[i].subscription_id
                &&& forall|k: int| 0 <= k < old(self).entries@.len() && k != i ==> #[trigger] final(self).entries@[k] == old(self).entries@[k]
            },
    {
        let first = self.increment_subscription(name);
        if first && self.open {
            let last = self.entries.len() - 1;
            let e = &self.entries[last];
            Some(
                SyncClientMessage::Subscription(
                    SubscriptionRequest {
                        subscription_id: e.subscription_id,
                        component_type: e.component_type.clone(),
                        entity: None,
                    },
                ),
            )
        } else {
            None
        }
    }

    /// A view of component type `name` goes away. When it was the last one,
    /// the subscription ends and the unsubscribe request to send is
    /// returned.
    pub fn unbind(&mut self, name: &str) -> (r: Option<SyncClientMessage>)
        requires
            old(self).wf(),
        ensures
            final(self).wf(),
            final(self).open == old(self).open,
            final(self).next_subscription_id == old(self).next_subscription_id,
            match index_of(old(self).entries@, name@) {
                Some(i) => if old(self).entries@[i].ref_count > 1 {
                    &&& r is None
                    &&& final(self).entries@.len() == old(self).entries@.len()
                    &&& final(self).entries@[i].ref_count == old(self).entries@[i].ref_count - 1
                    &&& final(self).entries@[i].subscription_id == old(self).entries@[i].subscription_id
                    &&& final(self).entries@[i].component_type == old(self).entries@[i].component_type
                    &&& forall|k: int| 0 <= k < old(self).entries@.len() && k != i ==> #[trigger] final(self).entries@[k] == old(self).entries@[k]
                } else {
                    &&& r == Some(SyncClientMessage::Unsubscribe(
                        UnsubscribeRequest { subscription_id: old(self).entries@[i].subscription_id },
                    ))
                    &&& final(self).entries@ == old(self).entries@.remove(i)
                },
                None => r is None && final(self).entries@ == old(self).entries@,
            },
    {
        match self.decrement_subscription(name) {
            Some(id) => Some(SyncClientMessage::Unsubscribe(UnsubscribeRequest { subscription_id: id })),
            None => None,
        }
    }

    /// The transport became open: every live subscription is (re)sent, with
    /// its own id, in order.
    pub fn on_open(&mut self) -> (r: Vec<SyncClientMessage>)
        requires
            old(self).wf(),
        ensures
            final(self).wf(),
            final(self).open,
            final(self).entries@ == old(self).entries@,
            final(self).next_subscription_id == old(self).next_subscription_id,
            r@.len() == old(self).entries@.len(),
            forall|i: int| 0 <= i < r@.len() ==> #[trigger] r@[i] == subscribe_message(old(self).entries@[i]),
    {
        self.open = true;
        let mut out: Vec<SyncClientMessage> = Vec::new();
        let mut i: usize = 0;
        while i < self.entries.len()
            invariant
                0 <= i <= self.entries@.len(),
                self.entries@ == old(self).entries@,
                self.open,
                self.next_subscription_id == old(self).next_subscription_id,
                out@.len() == i,
                forall|k: int| 0 <= k < i ==> #[trigger] out@[k] == subscribe_message(self.entries@[k]),
            decreases self.entries@.len() - i,
        {
            let e = &self.entries[i];
            out.push(
                SyncClientMessage::Subscription(
                    SubscriptionRequest {
                        subscription_id: e.subscription_id,
                        component_type: e.component_type.clone(),
                        entity: None,
                    },
                ),
            );
            i = i + 1;
        }
        out
    }

    /// The transport closed: later first bindings wait for it to open.
    pub fn on_close(&mut self)
        requires
            old(self).wf(),
        ensures
            final(self).wf(),
            !final(self).open,
            final(self).entries@ == old(self).entries@,
            final(self).next_subscription_id == old(self).next_subscription_id,
    {
        self.open = false;
    }
}

/// The subscription id a client message carries, if it is a subscribe.
pub open spec fn subscribed_id(m: SyncClientMessage) -> Option<u64> {
    match m {
        SyncClientMessage::Subscription(req) => Some(req.subscription_id),
        _ => None,
    }
}

/// A subscribe held back while the transport was closed is sent exactly
/// once when it opens: the requests sent at open carry every live
/// subscription's id, each once.
pub proof fn lemma_open_sends_each_subscription_once(t: SubscriptionTracker, sent: Seq<SyncClientMessage>)
    requires
        t.wf(),
        sent.len() == t.entries@.len(),
        forall|i: int| 0 <= i < sent.len() ==> #[trigger] sent[i] == subscribe_message(t.entries@[i]),
    ensures
        forall|i: int| 0 <= i < t.entries@.len() ==> subscribed_id(#[trigger] sent[i]) == Some(t.entries@[i].subscription_id),
        forall|i: int, j: int| 0 <= i < j < sent.len() ==> subscribed_id(#[trigger] sent[i]) != subscribed_id(#[trigger] sent[j]),
{
    assert forall|i: int, j: int| 0 <= i < j < sent.len() implies subscribed_id(#[trigger] sent[i]) != subscribed_id(#[trigger] sent[j]) by {
        assert(t.entries@[i].subscription_id != t.entries@[j].subscription_id);
    }
}

} // verus!
