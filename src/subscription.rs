//! The server's subscription manager, snapshot queue and mutation queue, and
//! the ingress stage that fills them from client messages.
use vstd::prelude::*;

use crate::ids::{ConnectionId, SerializableEntity};
use crate::messages::SyncClientMessage;

verus! {

broadcast use vstd::seq_lib::group_seq_properties;

/// One subscription of one connection: a component type (`"*"` for every
/// type) and, optionally, a single entity.
#[derive(Clone, Debug)]
pub struct SubscriptionEntry {
    pub connection_id: ConnectionId,
    pub subscription_id: u64,
    pub component_type: String,
    pub entity: Option<SerializableEntity>,
}

/// Whether `e` is the subscription `subscription_id` of `connection`.
pub open spec fn is_subscription(e: SubscriptionEntry, connection: ConnectionId, subscription_id: u64) -> bool {
    e.connection_id == connection && e.subscription_id == subscription_id
}

/// The entries that are not the subscription `subscription_id` of `connection`.
pub open spec fn without_subscription(
    subs: Seq<SubscriptionEntry>,
    connection: ConnectionId,
    subscription_id: u64,
) -> Seq<SubscriptionEntry> {
    subs.filter(|e: SubscriptionEntry| !is_subscription(e, connection, subscription_id))
}

/// The entries that do not belong to `connection`.
pub open spec fn without_connection(subs: Seq<SubscriptionEntry>, connection: ConnectionId) -> Seq<SubscriptionEntry> {
    subs.filter(|e: SubscriptionEntry| e.connection_id != connection)
}

/// No two entries are the same subscription of the same connection.
pub open spec fn keys_unique(subs: Seq<SubscriptionEntry>) -> bool {
    forall|i: int, j: int|
        0 <= i < j < subs.len() ==> !is_subscription(#[trigger] subs[j], (#[trigger] subs[i]).connection_id, subs[i].subscription_id)
}

/// Whether `subs` holds the subscription `subscription_id` of `connection`.
pub open spec fn has_subscription(subs: Seq<SubscriptionEntry>, connection: ConnectionId, subscription_id: u64) -> bool {
    exists|i: int| 0 <= i < subs.len() && is_subscription(#[trigger] subs[i], connection, subscription_id)
}

proof fn lemma_filter_keeps_keys_unique(s: Seq<SubscriptionEntry>, pred: spec_fn(SubscriptionEntry) -> bool)
    requires
        keys_unique(s),
    ensures
        keys_unique(s.filter(pred)),
    decreases s.len(),
{
    if s.len() == 0 {
        reveal(Seq::filter);
    } else {
        let rest = s.drop_last();
        let x = s.last();
        assert(keys_unique(rest)) by {
            assert forall|i: int, j: int| 0 <= i < j < rest.len() implies !is_subscription(
                #[trigger] rest[j],
                (#[trigger] rest[i]).connection_id,
                rest[i].subscription_id,
            ) by {
                assert(rest[i] == s[i] && rest[j] == s[j]);
            }
        }
        lemma_filter_keeps_keys_unique(rest, pred);
        rest.lemma_filter_push(x, pred);
        assert(rest.push(x) == s);
        if pred(x) {
            let f = rest.filter(pred);
            let g = f.push(x);
            assert forall|i: int, j: int| 0 <= i < j < g.len() implies !is_subscription(
                #[trigger] g[j],
                (#[trigger] g[i]).connection_id,
                g[i].subscription_id,
            ) by {
                if j == f.len() {
                    assert(g[i] == f[i]);
                    assert(f.contains(f[i]));
                    rest.lemma_filter_contains_rev(pred, f[i]);
                    let k = choose|k: int| 0 <= k < rest.len() && rest[k] == f[i];
                    assert(s[k] == f[i]);
                    assert(s[s.len() - 1] == x);
                } else {
                    assert(g[i] == f[i] && g[j] == f[j]);
                }
            }
        }
    }
}

proof fn lemma_without_subscription_lacks_it(s: Seq<SubscriptionEntry>, connection: ConnectionId, subscription_id: u64)
    ensures
        !has_subscription(without_subscription(s, connection, subscription_id), connection, subscription_id),
{
    let pred = |e: SubscriptionEntry| !is_subscription(e, connection, subscription_id);
    s.filter_lemma(pred);
    let f = s.filter(pred);
    assert forall|i: int| 0 <= i < f.len() implies !is_subscription(#[trigger] f[i], connection, subscription_id) by {
        assert(pred(f[i]));
    }
}

proof fn lemma_push_keeps_keys_unique(s: Seq<SubscriptionEntry>, e: SubscriptionEntry)
    requires
        keys_unique(s),
        !has_subscription(s, e.connection_id, e.subscription_id),
    ensures
        keys_unique(s.push(e)),
{
    let t = s.push(e);
    assert forall|i: int, j: int| 0 <= i < j < t.len() implies !is_subscription(
        #[trigger] t[j],
        (#[trigger] t[i]).connection_id,
        t[i].subscription_id,
    ) by {
        assert(t[i] == s[i]);
        if j < s.len() {
            assert(t[j] == s[j]);
        } else {
            assert(!is_subscription(s[i], e.connection_id, e.subscription_id));
        }
    }
}

/// How many entries subscribe to type `ty`, over all connections.
pub open spec fn type_count(subs: Seq<SubscriptionEntry>, ty: Seq<char>) -> nat
    decreases subs.len(),
{
    if subs.len() == 0 {
        0
    } else {
        type_count(subs.drop_last(), ty) + if subs.last().component_type@ == ty { 1nat } else { 0nat }
    }
}

/// Whether the subscription `subscription_id` of `connection` is live and
/// of type `ty`.
pub open spec fn live_with_type(subs: Seq<SubscriptionEntry>, connection: ConnectionId, subscription_id: u64, ty: Seq<char>) -> bool {
    exists|i: int|
        0 <= i < subs.len() && is_subscription(#[trigger] subs[i], connection, subscription_id) && subs[i].component_type@ == ty
}

proof fn lemma_type_count_after_remove(s: Seq<SubscriptionEntry>, connection: ConnectionId, subscription_id: u64, ty: Seq<char>)
    requires
        keys_unique(s),
    ensures
        type_count(without_subscription(s, connection, subscription_id), ty) + (if live_with_type(
            s,
            connection,
            subscription_id,
            ty,
        ) {
            1nat
        } else {
            0nat
        }) == type_count(s, ty),
    decreases s.len(),
{
    let pred = |e: SubscriptionEntry| !is_subscription(e, connection, subscription_id);
    if s.len() == 0 {
        reveal(Seq::filter);
        assert(s.filter(pred) == s);
    } else {
        let rest = s.drop_last();
        let x = s.last();
        assert(keys_unique(rest)) by {
            assert forall|i: int, j: int| 0 <= i < j < rest.len() implies !is_subscription(
                #[trigger] rest[j],
                (#[trigger] rest[i]).connection_id,
                rest[i].subscription_id,
            ) by {
                assert(rest[i] == s[i] && rest[j] == s[j]);
            }
        }
        lemma_type_count_after_remove(rest, connection, subscription_id, ty);
        rest.lemma_filter_push(x, pred);
        assert(rest.push(x) == s);
        let f = rest.filter(pred);
        assert(f.push(x).drop_last() == f);
        if is_subscription(x, connection, subscription_id) {
            assert forall|i: int| 0 <= i < rest.len() implies !is_subscription(#[trigger] rest[i], connection, subscription_id) by {
                assert(rest[i] == s[i]);
                assert(s[s.len() - 1] == x);
            }
            if x.component_type@ == ty {
                assert(s[s.len() - 1] == x);
            } else {
                if live_with_type(s, connection, subscription_id, ty) {
                    let i = choose|i: int|
                        0 <= i < s.len() && is_subscription(#[trigger] s[i], connection, subscription_id) && s[i].component_type@ == ty;
                    assert(i < rest.len());
                    assert(rest[i] == s[i]);
                }
            }
        } else {
            if live_with_type(s, connection, subscription_id, ty) {
                let i = choose|i: int|
                    0 <= i < s.len() && is_subscription(#[trigger] s[i], connection, subscription_id) && s[i].component_type@ == ty;
                assert(i < rest.len());
                assert(rest[i] == s[i]);
            }
            if live_with_type(rest, connection, subscription_id, ty) {
                let i = choose|i: int|
                    0 <= i < rest.len() && is_subscription(#[trigger] rest[i], connection, subscription_id) && rest[i].component_type@ == ty;
                assert(s[i] == rest[i]);
            }
        }
    }
}

/// All live subscriptions, in order of arrival.
pub struct SubscriptionManager {
    pub subscriptions: Vec<SubscriptionEntry>,
}

impl SubscriptionManager {
    /// At most one entry per subscription of a connection.
    pub open spec fn wf(&self) -> bool {
        keys_unique(self.subscriptions@)
    }

    pub fn new() -> (r: SubscriptionManager)
        ensures
            r.wf(),
            r.subscriptions@.len() == 0,
    {
        SubscriptionManager { subscriptions: Vec::new() }
    }

    /// Appends a subscription; its id is not live on its connection.
    pub fn add_subscription(&mut self, entry: SubscriptionEntry)
        requires
            old(self).wf(),
            !has_subscription(old(self).subscriptions@, entry.connection_id, entry.subscription_id),
        ensures
            final(self).wf(),
            final(self).subscriptions@ == old(self).subscriptions@.push(entry),
            forall|ty: Seq<char>| #[trigger] type_count(final(self).subscriptions@, ty) == type_count(old(self).subscriptions@, ty)
                + if entry.component_type@ == ty { 1nat } else { 0nat },
    {
        proof {
            lemma_push_keeps_keys_unique(self.subscriptions@, entry);
            assert(self.subscriptions@.push(entry).drop_last() == self.subscriptions@);
        }
        self.subscriptions.push(entry);
    }

    /// Removes the subscription `subscription_id` of `connection`, if it is
    /// there.
    pub fn remove_subscription(&mut self, connection: ConnectionId, subscription_id: u64)
        requires
            old(self).wf(),
        ensures
            final(self).wf(),
            final(self).subscriptions@ == without_subscription(old(self).subscriptions@, connection, subscription_id),
            forall|ty: Seq<char>| #[trigger] type_count(final(self).subscriptions@, ty) + (if live_with_type(
                old(self).subscriptions@,
                connection,
                subscription_id,
                ty,
            ) {
                1nat
            } else {
                0nat
            }) == type_count(old(self).subscriptions@, ty),
    {
        let ghost pred = |e: SubscriptionEntry| !is_subscription(e, connection, subscription_id);
        let mut kept: Vec<SubscriptionEntry> = Vec::new();
        let mut rest: Vec<SubscriptionEntry> = Vec::new();
        core::mem::swap(&mut rest, &mut self.subscriptions);
        let ghost all = rest@;
        let mut i: usize = 0;
        let n = rest.len();
        while i < n
            invariant
                n == all.len(),
                0 <= i <= n,
                rest@ == all.subrange(i as int, n as int),
                kept@ == all.subrange(0, i as int).filter(pred),
                pred == (|e: SubscriptionEntry| !is_subscription(e, connection, subscription_id)),
            decreases n - i,
        {
            let e = rest.remove(0);
            proof {
                assert(all.subrange(0, i + 1) == all.subrange(0, i as int).push(all[i as int]));
                all.subrange(0, i as int).lemma_filter_push(all[i as int], pred);
            }
            if !(e.connection_id == connection && e.subscription_id == subscription_id) {
                kept.push(e);
            }
            i = i + 1;
        }
        assert(all.subrange(0, n as int) == all);
        proof {
            lemma_filter_keeps_keys_unique(all, pred);
            assert forall|ty: Seq<char>| #[trigger] type_count(kept@, ty) + (if live_with_type(
                all,
                connection,
                subscription_id,
                ty,
            ) {
                1nat
            } else {
                0nat
            }) == type_count(all, ty) by {
                lemma_type_count_after_remove(all, connection, subscription_id, ty);
            }
        }
        self.subscriptions = kept;
    }

    /// Removes every subscription of a connection that closed.
    pub fn remove_all_for_connection(&mut self, connection: ConnectionId)
        requires
            old(self).wf(),
        ensures
            final(self).wf(),
            final(self).subscriptions@ == without_connection(old(self).subscriptions@, connection),
    {
        let ghost pred = |e: SubscriptionEntry| e.connection_id != connection;
        let mut kept: Vec<SubscriptionEntry> = Vec::new();
        let mut rest: Vec<SubscriptionEntry> = Vec::new();
        core::mem::swap(&mut rest, &mut self.subscriptions);
        let ghost all = rest@;
        let mut i: usize = 0;
        let n = rest.len();
        while i < n
            invariant
                n == all.len(),
                0 <= i <= n,
                rest@ == all.subrange(i as int, n as int),
                kept@ == all.subrange(0, i as int).filter(pred),
                pred == (|e: SubscriptionEntry| e.connection_id != connection),
            decreases n - i,
        {
            let e = rest.remove(0);
            proof {
                assert(all.subrange(0, i + 1) == all.subrange(0, i as int).push(all[i as int]));
                all.subrange(0, i as int).lemma_filter_push(all[i as int], pred);
            }
            if e.connection_id != connection {
                kept.push(e);
            }
            i = i + 1;
        }
        assert(all.subrange(0, n as int) == all);
        proof {
            lemma_filter_keeps_keys_unique(all, pred);
        }
        self.subscriptions = kept;
    }
}

/// A snapshot owed to a subscription that just started.
#[derive(Clone, Debug)]
pub struct SnapshotRequest {
    pub connection_id: ConnectionId,
    pub subscription_id: u64,
    pub component_type: String,
    pub entity: Option<SerializableEntity>,
}

/// Snapshot requests not yet served, in order of arrival.
pub struct SnapshotQueue {
    pub pending: Vec<SnapshotRequest>,
}

/// A mutation request waiting for the mutation stage.
#[derive(Clone, Debug)]
pub struct QueuedMutation {
    /// The connection that sent the request.
    pub connection_id: ConnectionId,
    /// The client's correlation id, echoed in the response.
    pub request_id: Option<u64>,
    pub entity: SerializableEntity,
    pub component_type: String,
    /// The full new value, bincode-encoded.
    pub value: Vec<u8>,
}

/// Mutation requests not yet applied, in order of arrival.
pub struct MutationQueue {
    pub pending: Vec<QueuedMutation>,
}

/// The server's ingress stage for one client message from `connection`:
/// a subscription is recorded (replacing a live one with the same id, since
/// the client is not trusted to keep ids unique) and its snapshot queued,
/// an unsubscribe removes the subscription if it is live, and a mutation
/// is queued.
pub fn handle_client_message(
    subscriptions: &mut SubscriptionManager,
    snapshots: &mut SnapshotQueue,
    mutations: &mut MutationQueue,
    connection: ConnectionId,
    message: SyncClientMessage,
)
    requires
        old(subscriptions).wf(),
    ensures
        final(subscriptions).wf(),
        match message {
            SyncClientMessage::Subscription(req) => {
                &&& final(subscriptions).subscriptions@ == without_subscription(
                    old(subscriptions).subscriptions@,
                    connection,
                    req.subscription_id,
                ).push(
                    SubscriptionEntry {
                        connection_id: connection,
                        subscription_id: req.subscription_id,
                        component_type: req.component_type,
                        entity: req.entity,
                    },
                )
                &&& final(snapshots).pending@.len() == old(snapshots).pending@.len() + 1
                &&& final(snapshots).pending@.drop_last() == old(snapshots).pending@
                &&& final(snapshots).pending@.last().connection_id == connection
                &&& final(snapshots).pending@.last().subscription_id == req.subscription_id
                &&& final(snapshots).pending@.last().component_type@ == req.component_type@
                &&& final(snapshots).pending@.last().entity == req.entity
                &&& final(mutations).pending@ == old(mutations).pending@
            },
            SyncClientMessage::Unsubscribe(req) => {
                &&& final(subscriptions).subscriptions@ == without_subscription(
                    old(subscriptions).subscriptions@,
                    connection,
                    req.subscription_id,
                )
                &&& final(snapshots).pending@ == old(snapshots).pending@
                &&& final(mutations).pending@ == old(mutations).pending@
            },
            SyncClientMessage::Mutate(m) => {
                &&& final(subscriptions).subscriptions@ == old(subscriptions).subscriptions@
                &&& final(snapshots).pending@ == old(snapshots).pending@
                &&& final(mutations).pending@ == old(mutations).pending@.push(
                    QueuedMutation {
                        connection_id: connection,
                        request_id: m.request_id,
                        entity: m.entity,
                        component_type: m.component_type,
                        value: m.value,
                    },
                )
            },
        },
{
    match message {
        SyncClientMessage::Subscription(req) => {
            snapshots.pending.push(
                SnapshotRequest {
                    connection_id: connection,
                    subscription_id: req.subscription_id,
                    component_type: req.component_type.clone(),
                    entity: req.entity,
                },
            );
            subscriptions.remove_subscription(connection, req.subscription_id);
            proof {
                lemma_without_subscription_lacks_it(old(subscriptions).subscriptions@, connection, req.subscription_id);
            }
            subscriptions.add_subscription(
                SubscriptionEntry {
                    connection_id: connection,
                    subscription_id: req.subscription_id,
                    component_type: req.component_type,
                    entity: req.entity,
                },
            );
        },
        SyncClientMessage::Unsubscribe(req) => {
            subscriptions.remove_subscription(connection, req.subscription_id);
        },
        SyncClientMessage::Mutate(m) => {
            mutations.pending.push(
                QueuedMutation {
                    connection_id: connection,
                    request_id: m.request_id,
                    entity: m.entity,
                    component_type: m.component_type,
                    value: m.value,
                },
            );
        },
    }
}

/// The ingress stage's handling of a closed connection: its subscriptions
/// and its queued snapshots and mutations are dropped, without responses.
pub fn handle_disconnect(
    subscriptions: &mut SubscriptionManager,
    snapshots: &mut SnapshotQueue,
    mutations: &mut MutationQueue,
    connection: ConnectionId,
)
    requires
        old(subscriptions).wf(),
    ensures
        final(subscriptions).wf(),
        final(subscriptions).subscriptions@ == without_connection(old(subscriptions).subscriptions@, connection),
        final(snapshots).pending@ == old(snapshots).pending@.filter(
            |r: SnapshotRequest| r.connection_id != connection,
        ),
        final(mutations).pending@ == old(mutations).pending@.filter(
            |m: QueuedMutation| m.connection_id != connection,
        ),
{
    subscriptions.remove_all_for_connection(connection);
    let ghost sp = |r: SnapshotRequest| r.connection_id != connection;
    let mut kept: Vec<SnapshotRequest> = Vec::new();
    let mut rest: Vec<SnapshotRequest> = Vec::new();
    core::mem::swap(&mut rest, &mut snapshots.pending);
    let ghost all = rest@;
    let n = rest.len();
    let mut i: usize = 0;
    while i < n
        invariant
            n == all.len(),
            0 <= i <= n,
            rest@ == all.subrange(i as int, n as int),
            kept@ == all.subrange(0, i as int).filter(sp),
            sp == (|r: SnapshotRequest| r.connection_id != connection),
        decreases n - i,
    {
        let r = rest.remove(0);
        proof {
            assert(all.subrange(0, i + 1) == all.subrange(0, i as int).push(all[i as int]));
            all.subrange(0, i as int).lemma_filter_push(all[i as int], sp);
        }
        if r.connection_id != connection {
            kept.push(r);
        }
        i = i + 1;
    }
    assert(all.subrange(0, n as int) == all);
    snapshots.pending = kept;

    let ghost mp = |m: QueuedMutation| m.connection_id != connection;
    let mut mkept: Vec<QueuedMutation> = Vec::new();
    let mut mrest: Vec<QueuedMutation> = Vec::new();
    core::mem::swap(&mut mrest, &mut mutations.pending);
    let ghost mall = mrest@;
    let mn = mrest.len();
    let mut j: usize = 0;
    while j < mn
        invariant
            mn == mall.len(),
            0 <= j <= mn,
            mrest@ == mall.subrange(j as int, mn as int),
            mkept@ == mall.subrange(0, j as int).filter(mp),
            mp == (|m: QueuedMutation| m.connection_id != connection),
        decreases mn - j,
    {
        let m = mrest.remove(0);
        proof {
            assert(mall.subrange(0, j + 1) == mall.subrange(0, j as int).push(mall[j as int]));
            mall.subrange(0, j as int).lemma_filter_push(mall[j as int], mp);
        }
        if m.connection_id != connection {
            mkept.push(m);
        }
        j = j + 1;
    }
    assert(mall.subrange(0, mn as int) == mall);
    mutations.pending = mkept;
}

/// A subscribe or an unsubscribe, by subscription id, as one client sends
/// them for one component type.
pub enum SubscriptionOp {
    Subscribe(u64),
    Unsubscribe(u64),
}

/// The subscriptions after the ingress stage handled `ops` from
/// `connection`, every subscribe being for type `ty` and no entity.
pub open spec fn replay(subs: Seq<SubscriptionEntry>, connection: ConnectionId, ty: String, ops: Seq<SubscriptionOp>) -> Seq<SubscriptionEntry>
    decreases ops.len(),
{
    if ops.len() == 0 {
        subs
    } else {
        let before = replay(subs, connection, ty, ops.drop_last());
        match ops.last() {
            SubscriptionOp::Subscribe(id) => without_subscription(before, connection, id).push(
                SubscriptionEntry { connection_id: connection, subscription_id: id, component_type: ty, entity: None },
            ),
            SubscriptionOp::Unsubscribe(id) => without_subscription(before, connection, id),
        }
    }
}

/// The ids of the subscribes in `ops` that no later unsubscribe matched.
pub open spec fn unmatched(ops: Seq<SubscriptionOp>) -> Set<u64>
    decreases ops.len(),
{
    if ops.len() == 0 {
        Set::empty()
    } else {
        match ops.last() {
            SubscriptionOp::Subscribe(id) => unmatched(ops.drop_last()).insert(id),
            SubscriptionOp::Unsubscribe(id) => unmatched(ops.drop_last()).remove(id),
        }
    }
}

/// Every subscribe in `ops` uses an id that is not live at that moment, as
/// the client's allocator guarantees.
pub open spec fn fresh_ids(ops: Seq<SubscriptionOp>) -> bool
    decreases ops.len(),
{
    if ops.len() == 0 {
        true
    } else {
        fresh_ids(ops.drop_last()) && match ops.last() {
            SubscriptionOp::Subscribe(id) => !unmatched(ops.drop_last()).contains(id),
            SubscriptionOp::Unsubscribe(_) => true,
        }
    }
}

/// How many entries are subscriptions of `connection` to type `ty`.
pub open spec fn count_for(subs: Seq<SubscriptionEntry>, connection: ConnectionId, ty: Seq<char>) -> nat
    decreases subs.len(),
{
    if subs.len() == 0 {
        0
    } else {
        count_for(subs.drop_last(), connection, ty) + if subs.last().connection_id == connection
            && subs.last().component_type@ == ty {
            1nat
        } else {
            0nat
        }
    }
}

/// How many entries are subscription `id` of `connection` to type `ty`.
pub open spec fn count_id(subs: Seq<SubscriptionEntry>, connection: ConnectionId, ty: Seq<char>, id: u64) -> nat
    decreases subs.len(),
{
    if subs.len() == 0 {
        0
    } else {
        count_id(subs.drop_last(), connection, ty, id) + if subs.last().connection_id == connection
            && subs.last().component_type@ == ty && subs.last().subscription_id == id {
            1nat
        } else {
            0nat
        }
    }
}

proof fn lemma_counts_without_connection(subs: Seq<SubscriptionEntry>, connection: ConnectionId, ty: Seq<char>, id: u64)
    requires
        forall|i: int| 0 <= i < subs.len() ==> (#[trigger] subs[i]).connection_id != connection,
    ensures
        count_for(subs, connection, ty) == 0,
        count_id(subs, connection, ty, id) == 0,
    decreases subs.len(),
{
    if subs.len() > 0 {
        assert forall|i: int| 0 <= i < subs.drop_last().len() implies (#[trigger] subs.drop_last()[i]).connection_id != connection by {
            assert(subs.drop_last()[i] == subs[i]);
        }
        lemma_counts_without_connection(subs.drop_last(), connection, ty, id);
    }
}

proof fn lemma_counts_after_unsubscribe(subs: Seq<SubscriptionEntry>, connection: ConnectionId, ty: Seq<char>, id: u64, x: u64)
    ensures
        count_for(without_subscription(subs, connection, id), connection, ty) + count_id(subs, connection, ty, id)
            == count_for(subs, connection, ty),
        count_id(without_subscription(subs, connection, id), connection, ty, x) == if x == id {
            0
        } else {
            count_id(subs, connection, ty, x)
        },
    decreases subs.len(),
{
    let pred = |e: SubscriptionEntry| !is_subscription(e, connection, id);
    if subs.len() == 0 {
        reveal(Seq::filter);
        assert(subs.filter(pred) == subs);
    } else {
        let rest = subs.drop_last();
        let last = subs.last();
        lemma_counts_after_unsubscribe(rest, connection, ty, id, x);
        rest.lemma_filter_push(last, pred);
        assert(rest.push(last) == subs);
        let fr = rest.filter(pred);
        assert(fr.push(last).drop_last() == fr);
    }
}

proof fn lemma_unmatched_finite(ops: Seq<SubscriptionOp>)
    ensures
        unmatched(ops).finite(),
    decreases ops.len(),
{
    if ops.len() > 0 {
        lemma_unmatched_finite(ops.drop_last());
    }
}

proof fn lemma_replay_counts(subs: Seq<SubscriptionEntry>, connection: ConnectionId, ty: String, ops: Seq<SubscriptionOp>)
    requires
        forall|i: int| 0 <= i < subs.len() ==> (#[trigger] subs[i]).connection_id != connection,
        fresh_ids(ops),
    ensures
        count_for(replay(subs, connection, ty, ops), connection, ty@) == unmatched(ops).len(),
        forall|x: u64| #[trigger] count_id(replay(subs, connection, ty, ops), connection, ty@, x)
            == if unmatched(ops).contains(x) { 1nat } else { 0nat },
    decreases ops.len(),
{
    lemma_unmatched_finite(ops);
    if ops.len() == 0 {
        assert forall|x: u64| #[trigger] count_id(replay(subs, connection, ty, ops), connection, ty@, x)
            == if unmatched(ops).contains(x) { 1nat } else { 0nat } by {
            lemma_counts_without_connection(subs, connection, ty@, x);
        }
        lemma_counts_without_connection(subs, connection, ty@, 0);
    } else {
        let rest = ops.drop_last();
        lemma_replay_counts(subs, connection, ty, rest);
        lemma_unmatched_finite(rest);
        let before = replay(subs, connection, ty, rest);
        match ops.last() {
            SubscriptionOp::Subscribe(id) => {
                let e = SubscriptionEntry { connection_id: connection, subscription_id: id, component_type: ty, entity: None };
                let kept = without_subscription(before, connection, id);
                assert(kept.push(e).drop_last() == kept);
                lemma_counts_after_unsubscribe(before, connection, ty@, id, 0);
                assert(count_id(before, connection, ty@, id) == 0);
                assert forall|x: u64| #[trigger] count_id(replay(subs, connection, ty, ops), connection, ty@, x)
                    == if unmatched(ops).contains(x) { 1nat } else { 0nat } by {
                    lemma_counts_after_unsubscribe(before, connection, ty@, id, x);
                    assert(count_id(before, connection, ty@, x) == if unmatched(rest).contains(x) { 1nat } else { 0nat });
                }
            },
            SubscriptionOp::Unsubscribe(id) => {
                lemma_counts_after_unsubscribe(before, connection, ty@, id, 0);
                assert(count_id(before, connection, ty@, id) == if unmatched(rest).contains(id) { 1nat } else { 0nat });
                assert forall|x: u64| #[trigger] count_id(replay(subs, connection, ty, ops), connection, ty@, x)
                    == if unmatched(ops).contains(x) { 1nat } else { 0nat } by {
                    lemma_counts_after_unsubscribe(before, connection, ty@, id, x);
                    assert(count_id(before, connection, ty@, x) == if unmatched(rest).contains(x) { 1nat } else { 0nat });
                }
            },
        }
    }
}

/// For any sequence of subscribes and unsubscribes that a client sends for
/// one type on a connection that had no subscriptions, the server holds as
/// many subscriptions of that connection to that type as there are
/// subscribes that no unsubscribe matched.
pub proof fn lemma_subscription_count(subs: Seq<SubscriptionEntry>, connection: ConnectionId, ty: String, ops: Seq<SubscriptionOp>)
    requires
        forall|i: int| 0 <= i < subs.len() ==> (#[trigger] subs[i]).connection_id != connection,
        fresh_ids(ops),
    ensures
        count_for(replay(subs, connection, ty, ops), connection, ty@) == unmatched(ops).len(),
{
    lemma_replay_counts(subs, connection, ty, ops);
}

/// A second unsubscribe with the same id changes nothing.
pub proof fn lemma_unsubscribe_twice(subs: Seq<SubscriptionEntry>, connection: ConnectionId, subscription_id: u64)
    ensures
        without_subscription(without_subscription(subs, connection, subscription_id), connection, subscription_id)
            == without_subscription(subs, connection, subscription_id),
    decreases subs.len(),
{
    if subs.len() > 0 {
        let pred = |e: SubscriptionEntry| !is_subscription(e, connection, subscription_id);
        let rest = subs.drop_last();
        lemma_unsubscribe_twice(rest, connection, subscription_id);
        rest.lemma_filter_push(subs.last(), pred);
        assert(rest.push(subs.last()) == subs);
        rest.filter(pred).lemma_filter_push(subs.last(), pred);
    }
}

} // verus!
