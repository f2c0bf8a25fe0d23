//! The server's per-frame fan-out: which subscriptions a change or a
//! despawn reaches, the snapshot stage, the per-type update limit, and the
//! batch each connection receives.
use vstd::prelude::*;
use vstd::string::StrSliceExecFns;

use crate::ids::{ConnectionId, SerializableEntity};
use crate::messages::{items_model, ItemModel, Outgoing, SyncBatch, SyncItem, SyncServerMessage};
use crate::order::{lemma_stable_sort_items, sort_items, stable_sort};
use crate::registry::SyncRegistry;
use crate::subscription::{SnapshotQueue, SnapshotRequest, SubscriptionEntry, SubscriptionManager};

verus! {

broadcast use vstd::seq_lib::group_seq_properties;

/// An observed change of one component on one entity, with its new value
/// encoded.
#[derive(Clone, Debug)]
pub struct ComponentChangeEvent {
    pub entity: SerializableEntity,
    pub component_type: String,
    pub value: Vec<u8>,
}

/// An observed despawn of an entity, with the registered component types
/// it carried.
#[derive(Clone, Debug)]
pub struct EntityDespawnEvent {
    pub entity: SerializableEntity,
    pub component_types: Vec<String>,
}

/// Whether subscription `e` matched one of the types the despawned entity
/// carried.
pub open spec fn matches_despawn(e: SubscriptionEntry, d: EntityDespawnEvent) -> bool {
    exists|k: int| 0 <= k < d.component_types@.len() && matches_component(e, (#[trigger] d.component_types@[k])@, d.entity.bits)
}

/// Whether subscription `e` matched one of the types the despawned entity
/// carried.
pub fn subscription_matches_despawn(e: &SubscriptionEntry, d: &EntityDespawnEvent) -> (r: bool)
    ensures
        r == matches_despawn(*e, *d),
{
    let mut k: usize = 0;
    while k < d.component_types.len()
        invariant
            0 <= k <= d.component_types@.len(),
            forall|q: int| 0 <= q < k ==> !matches_component(*e, (#[trigger] d.component_types@[q])@, d.entity.bits),
        decreases d.component_types@.len() - k,
    {
        if subscription_matches(e, d.component_types[k].as_str(), d.entity) {
            return true;
        }
        k = k + 1;
    }
    false
}

/// Whether a subscribed type is the wildcard `"*"`.
pub open spec fn is_wildcard(ty: Seq<char>) -> bool {
    ty == seq!['*']
}

/// Whether a subscription's entity filter lets `entity` through.
pub open spec fn matches_entity(e: SubscriptionEntry, entity: u64) -> bool {
    match e.entity {
        None => true,
        Some(x) => x.bits == entity,
    }
}

/// Whether a subscription covers component type `ty` on `entity`.
pub open spec fn matches_component(e: SubscriptionEntry, ty: Seq<char>, entity: u64) -> bool {
    (is_wildcard(e.component_type@) || e.component_type@ == ty) && matches_entity(e, entity)
}

/// Whether `ty` is the wildcard `"*"`.
pub fn is_wildcard_type(ty: &str) -> (r: bool)
    ensures
        r == is_wildcard(ty@),
{
    if ty.unicode_len() != 1 {
        return false;
    }
    let c = ty.get_char(0);
    if c == '*' {
        assert(ty@ == seq!['*']);
        true
    } else {
        false
    }
}

/// Whether subscription `e` covers component type `ty` on `entity`.
pub fn subscription_matches(e: &SubscriptionEntry, ty: &str, entity: SerializableEntity) -> (r: bool)
    ensures
        r == matches_component(*e, ty@, entity.bits),
{
    let type_ok = is_wildcard_type(e.component_type.as_str()) || crate::registry::str_eq(e.component_type.as_str(), ty);
    let entity_ok = match e.entity {
        None => true,
        Some(x) => x.bits == entity.bits,
    };
    type_ok && entity_ok
}

/// A copy of `v`.
pub fn copy_bytes(v: &Vec<u8>) -> (r: Vec<u8>)
    ensures
        r@ == v@,
{
    let mut out: Vec<u8> = Vec::new();
    let mut i: usize = 0;
    while i < v.len()
        invariant
            0 <= i <= v@.len(),
            out@ == v@.subrange(0, i as int),
        decreases v@.len() - i,
    {
        out.push(v[i]);
        i = i + 1;
        assert(v@.subrange(0, i as int) == v@.subrange(0, i - 1 as int).push(v@[i - 1]));
    }
    assert(v@.subrange(0, v@.len() as int) == v@);
    out
}

pub proof fn lemma_items_model_push(items: Seq<SyncItem>, x: SyncItem)
    ensures
        items_model(items.push(x)) == items_model(items).push(x@),
{
    assert(items_model(items.push(x)) =~= items_model(items).push(x@));
}

pub proof fn lemma_items_model_add(a: Seq<SyncItem>, b: Seq<SyncItem>)
    ensures
        items_model(a + b) == items_model(a) + items_model(b),
{
    assert(items_model(a + b) =~= items_model(a) + items_model(b));
}

/// The updates that one change sends to `connection`: one per subscription
/// of that connection that covers it, in subscription order.
pub open spec fn change_updates(subs: Seq<SubscriptionEntry>, connection: ConnectionId, ch: ComponentChangeEvent) -> Seq<ItemModel>
    decreases subs.len(),
{
    if subs.len() == 0 {
        Seq::empty()
    } else {
        let prev = change_updates(subs.drop_last(), connection, ch);
        let e = subs.last();
        if e.connection_id == connection && matches_component(e, ch.component_type@, ch.entity.bits) {
            prev.push(ItemModel::Update {
                sub: e.subscription_id,
                entity: ch.entity.bits,
                ty: ch.component_type@,
                bytes: ch.value@,
            })
        } else {
            prev
        }
    }
}

/// The updates a frame's changes send to `connection`, change by change.
pub open spec fn frame_updates(subs: Seq<SubscriptionEntry>, connection: ConnectionId, changes: Seq<ComponentChangeEvent>) -> Seq<ItemModel>
    decreases changes.len(),
{
    if changes.len() == 0 {
        Seq::empty()
    } else {
        frame_updates(subs, connection, changes.drop_last()) + change_updates(subs, connection, changes.last())
    }
}

/// The removals that one despawn sends to `connection`: one per
/// subscription of that connection that matched a type the entity carried.
pub open spec fn despawn_removals(subs: Seq<SubscriptionEntry>, connection: ConnectionId, d: EntityDespawnEvent) -> Seq<ItemModel>
    decreases subs.len(),
{
    if subs.len() == 0 {
        Seq::empty()
    } else {
        let prev = despawn_removals(subs.drop_last(), connection, d);
        let e = subs.last();
        if e.connection_id == connection && matches_despawn(e, d) {
            prev.push(ItemModel::EntityRemoved { sub: e.subscription_id, entity: d.entity.bits })
        } else {
            prev
        }
    }
}

/// The removals a frame's despawns send to `connection`.
pub open spec fn frame_removals(subs: Seq<SubscriptionEntry>, connection: ConnectionId, despawns: Seq<EntityDespawnEvent>) -> Seq<ItemModel>
    decreases despawns.len(),
{
    if despawns.len() == 0 {
        Seq::empty()
    } else {
        frame_removals(subs, connection, despawns.drop_last()) + despawn_removals(subs, connection, despawns.last())
    }
}

/// The updates that `changes` send to `connection`.
pub fn updates_for_connection(
    subs: &Vec<SubscriptionEntry>,
    connection: ConnectionId,
    changes: &Vec<ComponentChangeEvent>,
) -> (r: Vec<SyncItem>)
    ensures
        items_model(r@) == frame_updates(subs@, connection, changes@),
{
    let mut out: Vec<SyncItem> = Vec::new();
    let mut i: usize = 0;
    while i < changes.len()
        invariant
            0 <= i <= changes@.len(),
            items_model(out@) == frame_updates(subs@, connection, changes@.subrange(0, i as int)),
        decreases changes@.len() - i,
    {
        let ch = &changes[i];
        let mut j: usize = 0;
        while j < subs.len()
            invariant
                0 <= i < changes@.len(),
                0 <= j <= subs@.len(),
                *ch == changes@[i as int],
                items_model(out@) == frame_updates(subs@, connection, changes@.subrange(0, i as int))
                    + change_updates(subs@.subrange(0, j as int), connection, *ch),
            decreases subs@.len() - j,
        {
            let e = &subs[j];
            proof {
                assert(subs@.subrange(0, j + 1).drop_last() == subs@.subrange(0, j as int));
            }
            if e.connection_id == connection && subscription_matches(e, ch.component_type.as_str(), ch.entity) {
                let item = SyncItem::Update {
                    subscription_id: e.subscription_id,
                    entity: ch.entity,
                    component_type: ch.component_type.clone(),
                    value: copy_bytes(&ch.value),
                };
                proof {
                    lemma_items_model_push(out@, item);
                }
                out.push(item);
            }
            j = j + 1;
        }
        proof {
            assert(subs@.subrange(0, subs@.len() as int) == subs@);
            assert(changes@.subrange(0, i + 1).drop_last() == changes@.subrange(0, i as int));
        }
        i = i + 1;
    }
    assert(changes@.subrange(0, changes@.len() as int) == changes@);
    out
}

/// The removals that `despawns` send to `connection`.
pub fn removals_for_connection(
    subs: &Vec<SubscriptionEntry>,
    connection: ConnectionId,
    despawns: &Vec<EntityDespawnEvent>,
) -> (r: Vec<SyncItem>)
    ensures
        items_model(r@) == frame_removals(subs@, connection, despawns@),
{
    let mut out: Vec<SyncItem> = Vec::new();
    let mut i: usize = 0;
    while i < despawns.len()
        invariant
            0 <= i <= despawns@.len(),
            items_model(out@) == frame_removals(subs@, connection, despawns@.subrange(0, i as int)),
        decreases despawns@.len() - i,
    {
        let d = &despawns[i];
        let mut j: usize = 0;
        while j < subs.len()
            invariant
                0 <= i < despawns@.len(),
                0 <= j <= subs@.len(),
                *d == despawns@[i as int],
                items_model(out@) == frame_removals(subs@, connection, despawns@.subrange(0, i as int))
                    + despawn_removals(subs@.subrange(0, j as int), connection, *d),
            decreases subs@.len() - j,
        {
            let e = &subs[j];
            proof {
                assert(subs@.subrange(0, j + 1).drop_last() == subs@.subrange(0, j as int));
            }
            if e.connection_id == connection && subscription_matches_despawn(e, d) {
                let item = SyncItem::EntityRemoved { subscription_id: e.subscription_id, entity: d.entity };
                proof {
                    lemma_items_model_push(out@, item);
                }
                out.push(item);
            }
            j = j + 1;
        }
        proof {
            assert(subs@.subrange(0, subs@.len() as int) == subs@);
            assert(despawns@.subrange(0, i + 1).drop_last() == despawns@.subrange(0, i as int));
        }
        i = i + 1;
    }
    assert(despawns@.subrange(0, despawns@.len() as int) == despawns@);
    out
}

/// Every current `(entity, value)` of one registered component type, as
/// its snapshot function produced them.
#[derive(Clone, Debug)]
pub struct TypeSnapshot {
    pub component_type: String,
    pub entries: Vec<(SerializableEntity, Vec<u8>)>,
}

/// Whether a snapshot request covers component type `ty` on `entity`.
pub open spec fn request_covers(req: SnapshotRequest, ty: Seq<char>, entity: u64) -> bool {
    &&& (is_wildcard(req.component_type@) || req.component_type@ == ty)
    &&& match req.entity {
        None => true,
        Some(x) => x.bits == entity,
    }
}

/// The snapshots owed to `req` out of the entries of type `ty`.
pub open spec fn entry_snapshots(req: SnapshotRequest, ty: Seq<char>, entries: Seq<(SerializableEntity, Vec<u8>)>) -> Seq<ItemModel>
    decreases entries.len(),
{
    if entries.len() == 0 {
        Seq::empty()
    } else {
        let prev = entry_snapshots(req, ty, entries.drop_last());
        let (entity, value) = entries.last();
        if request_covers(req, ty, entity.bits) {
            prev.push(ItemModel::Snapshot { sub: req.subscription_id, entity: entity.bits, ty, bytes: value@ })
        } else {
            prev
        }
    }
}

/// The snapshots owed to `req`: type by type, one per covered entity.
pub open spec fn request_snapshots(req: SnapshotRequest, snaps: Seq<TypeSnapshot>) -> Seq<ItemModel>
    decreases snaps.len(),
{
    if snaps.len() == 0 {
        Seq::empty()
    } else {
        request_snapshots(req, snaps.drop_last()) + entry_snapshots(req, snaps.last().component_type@, snaps.last().entries@)
    }
}

/// The snapshots owed to the requests of `connection`, request by request.
pub open spec fn connection_snapshots(requests: Seq<SnapshotRequest>, snaps: Seq<TypeSnapshot>, connection: ConnectionId) -> Seq<ItemModel>
    decreases requests.len(),
{
    if requests.len() == 0 {
        Seq::empty()
    } else {
        let prev = connection_snapshots(requests.drop_last(), snaps, connection);
        if requests.last().connection_id == connection {
            prev + request_snapshots(requests.last(), snaps)
        } else {
            prev
        }
    }
}

/// The snapshot stage for one request: a snapshot of every entity of every
/// type the request covers (only entity `e` when it names one; nothing when
/// its type is not among `snaps`).
pub fn snapshot_items(req: &SnapshotRequest, snaps: &Vec<TypeSnapshot>) -> (r: Vec<SyncItem>)
    ensures
        items_model(r@) == request_snapshots(*req, snaps@),
{
    let wildcard = is_wildcard_type(req.component_type.as_str());
    let mut out: Vec<SyncItem> = Vec::new();
    let mut i: usize = 0;
    while i < snaps.len()
        invariant
            0 <= i <= snaps@.len(),
            wildcard == is_wildcard(req.component_type@),
            items_model(out@) == request_snapshots(*req, snaps@.subrange(0, i as int)),
        decreases snaps@.len() - i,
    {
        let ts = &snaps[i];
        let type_ok = wildcard || crate::registry::str_eq(req.component_type.as_str(), ts.component_type.as_str());
        let mut j: usize = 0;
        while j < ts.entries.len()
            invariant
                0 <= i < snaps@.len(),
                0 <= j <= ts.entries@.len(),
                *ts == snaps@[i as int],
                type_ok == (is_wildcard(req.component_type@) || req.component_type@ == ts.component_type@),
                items_model(out@) == request_snapshots(*req, snaps@.subrange(0, i as int))
                    + entry_snapshots(*req, ts.component_type@, ts.entries@.subrange(0, j as int)),
            decreases ts.entries@.len() - j,
        {
            let entry = &ts.entries[j];
            proof {
                assert(ts.entries@.subrange(0, j + 1).drop_last() == ts.entries@.subrange(0, j as int));
            }
            let entity_ok = match req.entity {
                None => true,
                Some(x) => x.bits == entry.0.bits,
            };
            if type_ok && entity_ok {
                let item = SyncItem::Snapshot {
                    subscription_id: req.subscription_id,
                    entity: entry.0,
                    component_type: ts.component_type.clone(),
                    value: copy_bytes(&entry.1),
                };
                proof {
                    lemma_items_model_push(out@, item);
                }
                out.push(item);
            }
            j = j + 1;
        }
        proof {
            assert(ts.entries@.subrange(0, ts.entries@.len() as int) == ts.entries@);
            assert(snaps@.subrange(0, i + 1).drop_last() == snaps@.subrange(0, i as int));
        }
        i = i + 1;
    }
    assert(snaps@.subrange(0, snaps@.len() as int) == snaps@);
    out
}

/// The snapshot stage for the pending requests of one connection.
pub fn snapshots_for_connection(
    requests: &Vec<SnapshotRequest>,
    snaps: &Vec<TypeSnapshot>,
    connection: ConnectionId,
) -> (r: Vec<SyncItem>)
    ensures
        items_model(r@) == connection_snapshots(requests@, snaps@, connection),
{
    let mut out: Vec<SyncItem> = Vec::new();
    let mut i: usize = 0;
    while i < requests.len()
        invariant
            0 <= i <= requests@.len(),
            items_model(out@) == connection_snapshots(requests@.subrange(0, i as int), snaps@, connection),
        decreases requests@.len() - i,
    {
        proof {
            assert(requests@.subrange(0, i + 1).drop_last() == requests@.subrange(0, i as int));
        }
        if requests[i].connection_id == connection {
            let mut items = snapshot_items(&requests[i], snaps);
            proof {
                lemma_items_model_add(out@, items@);
            }
            out.append(&mut items);
        }
        i = i + 1;
    }
    assert(requests@.subrange(0, requests@.len() as int) == requests@);
    out
}

/// Whether `item` is an update of component type `ty`.
pub open spec fn is_update_of(item: ItemModel, ty: Seq<char>) -> bool {
    item is Update && item->Update_ty == ty
}

/// How many items of `items` are updates of component type `ty`.
pub open spec fn count_updates_of(items: Seq<ItemModel>, ty: Seq<char>) -> nat
    decreases items.len(),
{
    if items.len() == 0 {
        0
    } else {
        count_updates_of(items.drop_last(), ty) + if is_update_of(items.last(), ty) { 1nat } else { 0nat }
    }
}

/// Whether the per-type limit keeps item `i`: anything but an update is
/// kept, and an update is kept when fewer updates of its type than its
/// type's limit follow it.
pub open spec fn keep_at(items: Seq<ItemModel>, i: int, registry: SyncRegistry) -> bool {
    match items[i] {
        ItemModel::Update { ty, .. } => match registry.limit_for_name(ty) {
            None => true,
            Some(l) => count_updates_of(items.subrange(i + 1, items.len() as int), ty) < l,
        },
        _ => true,
    }
}

/// The items among the first `k` that the per-type limit keeps, in order.
pub open spec fn kept_upto(items: Seq<ItemModel>, k: int, registry: SyncRegistry) -> Seq<ItemModel>
    decreases k,
{
    if k <= 0 {
        Seq::empty()
    } else if keep_at(items, k - 1, registry) {
        kept_upto(items, k - 1, registry).push(items[k - 1])
    } else {
        kept_upto(items, k - 1, registry)
    }
}

/// `items` with the oldest excess updates of each limited type dropped.
pub open spec fn limited(items: Seq<ItemModel>, registry: SyncRegistry) -> Seq<ItemModel> {
    kept_upto(items, items.len() as int, registry)
}

/// Applies each type's per-frame update limit to the items of one
/// connection: the newest updates of a type are kept, up to its limit;
/// snapshots and removals are never dropped.
pub fn limit_updates(items: Vec<SyncItem>, registry: &SyncRegistry) -> (r: Vec<SyncItem>)
    requires
        registry.wf(),
    ensures
        items_model(r@) == limited(items_model(items@), *registry),
{
    let ghost all = items@;
    let ghost m = items_model(all);
    let n = items.len();
    let mut rest = items;
    let mut out: Vec<SyncItem> = Vec::new();
    let mut k: usize = 0;
    while k < n
        invariant
            n == all.len(),
            m == items_model(all),
            registry.wf(),
            0 <= k <= n,
            rest@ == all.subrange(k as int, n as int),
            items_model(out@) == kept_upto(m, k as int, *registry),
        decreases n - k,
    {
        let keep = match &rest[0] {
            SyncItem::Update { component_type, .. } => {
                match registry.max_updates_for(component_type.as_str()) {
                    None => true,
                    Some(limit) => {
                        let mut count: usize = 0;
                        let mut j: usize = 1;
                        while j < rest.len()
                            invariant
                                rest@ == all.subrange(k as int, n as int),
                                m == items_model(all),
                                n == all.len(),
                                k < n,
                                1 <= j <= rest@.len(),
                                count <= j,
                                count == count_updates_of(m.subrange(k + 1, k + j), component_type@),
                            decreases rest@.len() - j,
                        {
                            let same = match &rest[j] {
                                SyncItem::Update { component_type: other, .. } => crate::registry::str_eq(
                                    other.as_str(),
                                    component_type.as_str(),
                                ),
                                _ => false,
                            };
                            proof {
                                assert(m.subrange(k + 1, k + j + 1).drop_last() == m.subrange(k + 1, k + j));
                                assert(m[k + j] == rest@[j as int]@);
                            }
                            if same {
                                count = count + 1;
                            }
                            j = j + 1;
                        }
                        proof {
                            assert(m.subrange(k + 1, k + j) == m.subrange(k + 1, m.len() as int));
                        }
                        count < limit
                    },
                }
            },
            _ => true,
        };
        proof {
            assert(m[k as int] == rest@[0]@);
            assert(keep == keep_at(m, k as int, *registry));
        }
        let item = rest.remove(0);
        if keep {
            proof {
                lemma_items_model_push(out@, item);
            }
            out.push(item);
        }
        k = k + 1;
    }
    out
}

/// The batch one connection receives in a frame: the snapshots of its new
/// subscriptions, then the removals, then the updates that the per-type
/// limits keep; each class in key order (entity id, then type name), equal
/// keys in order of arrival.
pub open spec fn connection_batch(
    subs: Seq<SubscriptionEntry>,
    registry: SyncRegistry,
    requests: Seq<SnapshotRequest>,
    snaps: Seq<TypeSnapshot>,
    changes: Seq<ComponentChangeEvent>,
    despawns: Seq<EntityDespawnEvent>,
    connection: ConnectionId,
) -> Seq<ItemModel> {
    stable_sort(connection_snapshots(requests, snaps, connection)) + stable_sort(frame_removals(subs, connection, despawns))
        + stable_sort(limited(frame_updates(subs, connection, changes), registry))
}

/// The batch `connection` receives in this frame.
pub fn batch_for_connection(
    subs: &Vec<SubscriptionEntry>,
    registry: &SyncRegistry,
    requests: &Vec<SnapshotRequest>,
    snaps: &Vec<TypeSnapshot>,
    changes: &Vec<ComponentChangeEvent>,
    despawns: &Vec<EntityDespawnEvent>,
    connection: ConnectionId,
) -> (r: Vec<SyncItem>)
    requires
        registry.wf(),
    ensures
        items_model(r@) == connection_batch(subs@, *registry, requests@, snaps@, changes@, despawns@, connection),
{
    let mut out = sort_items(snapshots_for_connection(requests, snaps, connection));
    let mut removals = sort_items(removals_for_connection(subs, connection, despawns));
    let updates = updates_for_connection(subs, connection, changes);
    let mut kept = sort_items(limit_updates(updates, registry));
    proof {
        lemma_items_model_add(out@, removals@);
        lemma_items_model_add(out@ + removals@, kept@);
    }
    out.append(&mut removals);
    out.append(&mut kept);
    out
}

/// The connection and items of an outgoing batch.
pub open spec fn outgoing_model(o: Outgoing) -> (ConnectionId, Seq<ItemModel>) {
    match o.message {
        SyncServerMessage::SyncBatch(b) => (o.connection_id, items_model(b.items@)),
        _ => (o.connection_id, Seq::empty()),
    }
}

/// The non-empty batches of a frame, one per connection that has one, in
/// the order of `connections`.
pub open spec fn frame_batches(
    subs: Seq<SubscriptionEntry>,
    registry: SyncRegistry,
    requests: Seq<SnapshotRequest>,
    snaps: Seq<TypeSnapshot>,
    changes: Seq<ComponentChangeEvent>,
    despawns: Seq<EntityDespawnEvent>,
    connections: Seq<ConnectionId>,
) -> Seq<(ConnectionId, Seq<ItemModel>)>
    decreases connections.len(),
{
    if connections.len() == 0 {
        Seq::empty()
    } else {
        let prev = frame_batches(subs, registry, requests, snaps, changes, despawns, connections.drop_last());
        let c = connections.last();
        let b = connection_batch(subs, registry, requests, snaps, changes, despawns, c);
        if b.len() > 0 {
            prev.push((c, b))
        } else {
            prev
        }
    }
}

/// The dispatcher: builds the batch of every open connection out of the
/// frame's changes and despawns and the pending snapshot requests, which it
/// drains, and returns the non-empty batches to send.
pub fn dispatch_frame(
    subscriptions: &SubscriptionManager,
    registry: &SyncRegistry,
    snapshots: &mut SnapshotQueue,
    snaps: &Vec<TypeSnapshot>,
    changes: &Vec<ComponentChangeEvent>,
    despawns: &Vec<EntityDespawnEvent>,
    connections: &Vec<ConnectionId>,
) -> (r: Vec<Outgoing>)
    requires
        registry.wf(),
    ensures
        final(snapshots).pending@.len() == 0,
        r@.map_values(|o: Outgoing| outgoing_model(o)) == frame_batches(
            subscriptions.subscriptions@,
            *registry,
            old(snapshots).pending@,
            snaps@,
            changes@,
            despawns@,
            connections@,
        ),
        forall|i: int| 0 <= i < r@.len() ==> (#[trigger] r@[i]).message is SyncBatch,
{
    let ghost subs = subscriptions.subscriptions@;
    let ghost requests = snapshots.pending@;
    let mut out: Vec<Outgoing> = Vec::new();
    let mut i: usize = 0;
    while i < connections.len()
        invariant
            0 <= i <= connections@.len(),
            registry.wf(),
            snapshots.pending@ == requests,
            requests == old(snapshots).pending@,
            subs == subscriptions.subscriptions@,
            out@.map_values(|o: Outgoing| outgoing_model(o)) == frame_batches(
                subs,
                *registry,
                requests,
                snaps@,
                changes@,
                despawns@,
                connections@.subrange(0, i as int),
            ),
            forall|k: int| 0 <= k < out@.len() ==> (#[trigger] out@[k]).message is SyncBatch,
        decreases connections@.len() - i,
    {
        let c = connections[i];
        let items = batch_for_connection(
            &subscriptions.subscriptions,
            registry,
            &snapshots.pending,
            snaps,
            changes,
            despawns,
            c,
        );
        proof {
            assert(connections@.subrange(0, i + 1).drop_last() == connections@.subrange(0, i as int));
            assert(items_model(items@).len() == items@.len());
        }
        if items.len() > 0 {
            let o = Outgoing { connection_id: c, message: SyncServerMessage::SyncBatch(SyncBatch { items }) };
            let ghost before = out@;
            out.push(o);
            proof {
                assert(out@.map_values(|o: Outgoing| outgoing_model(o)) =~= before.map_values(
                    |o: Outgoing| outgoing_model(o),
                ).push(outgoing_model(o)));
            }
        }
        i = i + 1;
    }
    assert(connections@.subrange(0, connections@.len() as int) == connections@);
    snapshots.pending = Vec::new();
    out
}

proof fn lemma_entry_snapshots_are_snapshots(req: SnapshotRequest, ty: Seq<char>, entries: Seq<(SerializableEntity, Vec<u8>)>)
    ensures
        forall|i: int| 0 <= i < entry_snapshots(req, ty, entries).len() ==> #[trigger] entry_snapshots(req, ty, entries)[i] is Snapshot,
    decreases entries.len(),
{
    if entries.len() > 0 {
        lemma_entry_snapshots_are_snapshots(req, ty, entries.drop_last());
    }
}

proof fn lemma_request_snapshots_are_snapshots(req: SnapshotRequest, snaps: Seq<TypeSnapshot>)
    ensures
        forall|i: int| 0 <= i < request_snapshots(req, snaps).len() ==> #[trigger] request_snapshots(req, snaps)[i] is Snapshot,
    decreases snaps.len(),
{
    if snaps.len() > 0 {
        lemma_request_snapshots_are_snapshots(req, snaps.drop_last());
        lemma_entry_snapshots_are_snapshots(req, snaps.last().component_type@, snaps.last().entries@);
        let a = request_snapshots(req, snaps.drop_last());
        let b = entry_snapshots(req, snaps.last().component_type@, snaps.last().entries@);
        assert forall|i: int| 0 <= i < (a + b).len() implies #[trigger] (a + b)[i] is Snapshot by {
            if i >= a.len() {
                assert((a + b)[i] == b[i - a.len()]);
            }
        }
    }
}

proof fn lemma_connection_snapshots_are_snapshots(requests: Seq<SnapshotRequest>, snaps: Seq<TypeSnapshot>, c: ConnectionId)
    ensures
        forall|i: int| 0 <= i < connection_snapshots(requests, snaps, c).len()
            ==> #[trigger] connection_snapshots(requests, snaps, c)[i] is Snapshot,
    decreases requests.len(),
{
    if requests.len() > 0 {
        lemma_connection_snapshots_are_snapshots(requests.drop_last(), snaps, c);
        if requests.last().connection_id == c {
            lemma_request_snapshots_are_snapshots(requests.last(), snaps);
            let a = connection_snapshots(requests.drop_last(), snaps, c);
            let b = request_snapshots(requests.last(), snaps);
            assert forall|i: int| 0 <= i < (a + b).len() implies #[trigger] (a + b)[i] is Snapshot by {
                if i >= a.len() {
                    assert((a + b)[i] == b[i - a.len()]);
                }
            }
        }
    }
}

proof fn lemma_despawn_removals_are_removals(subs: Seq<SubscriptionEntry>, c: ConnectionId, d: EntityDespawnEvent)
    ensures
        forall|i: int| 0 <= i < despawn_removals(subs, c, d).len() ==> #[trigger] despawn_removals(subs, c, d)[i] is EntityRemoved,
    decreases subs.len(),
{
    if subs.len() > 0 {
        lemma_despawn_removals_are_removals(subs.drop_last(), c, d);
    }
}

proof fn lemma_frame_removals_are_removals(subs: Seq<SubscriptionEntry>, c: ConnectionId, despawns: Seq<EntityDespawnEvent>)
    ensures
        forall|i: int| 0 <= i < frame_removals(subs, c, despawns).len()
            ==> #[trigger] frame_removals(subs, c, despawns)[i] is EntityRemoved,
    decreases despawns.len(),
{
    if despawns.len() > 0 {
        lemma_frame_removals_are_removals(subs, c, despawns.drop_last());
        lemma_despawn_removals_are_removals(subs, c, despawns.last());
        let a = frame_removals(subs, c, despawns.drop_last());
        let b = despawn_removals(subs, c, despawns.last());
        assert forall|i: int| 0 <= i < (a + b).len() implies #[trigger] (a + b)[i] is EntityRemoved by {
            if i >= a.len() {
                assert((a + b)[i] == b[i - a.len()]);
            }
        }
    }
}

proof fn lemma_change_updates_are_updates(subs: Seq<SubscriptionEntry>, c: ConnectionId, ch: ComponentChangeEvent)
    ensures
        forall|i: int| 0 <= i < change_updates(subs, c, ch).len() ==> #[trigger] change_updates(subs, c, ch)[i] is Update,
    decreases subs.len(),
{
    if subs.len() > 0 {
        lemma_change_updates_are_updates(subs.drop_last(), c, ch);
    }
}

proof fn lemma_frame_updates_are_updates(subs: Seq<SubscriptionEntry>, c: ConnectionId, changes: Seq<ComponentChangeEvent>)
    ensures
        forall|i: int| 0 <= i < frame_updates(subs, c, changes).len() ==> #[trigger] frame_updates(subs, c, changes)[i] is Update,
    decreases changes.len(),
{
    if changes.len() > 0 {
        lemma_frame_updates_are_updates(subs, c, changes.drop_last());
        lemma_change_updates_are_updates(subs, c, changes.last());
        let a = frame_updates(subs, c, changes.drop_last());
        let b = change_updates(subs, c, changes.last());
        assert forall|i: int| 0 <= i < (a + b).len() implies #[trigger] (a + b)[i] is Update by {
            if i >= a.len() {
                assert((a + b)[i] == b[i - a.len()]);
            }
        }
    }
}

/// Every item the per-type limit keeps is one of the items it was given.
pub proof fn lemma_kept_upto_from_items(items: Seq<ItemModel>, k: int, registry: SyncRegistry)
    requires
        0 <= k <= items.len(),
    ensures
        forall|i: int| 0 <= i < kept_upto(items, k, registry).len()
            ==> exists|j: int| 0 <= j < k && #[trigger] kept_upto(items, k, registry)[i] == items[j],
    decreases k,
{
    if k > 0 {
        lemma_kept_upto_from_items(items, k - 1, registry);
        let prev = kept_upto(items, k - 1, registry);
        assert forall|i: int| 0 <= i < kept_upto(items, k, registry).len()
            implies exists|j: int| 0 <= j < k && #[trigger] kept_upto(items, k, registry)[i] == items[j] by {
            if i < prev.len() {
                let j = choose|j: int| 0 <= j < k - 1 && #[trigger] prev[i] == items[j];
                assert(kept_upto(items, k, registry)[i] == items[j]);
            } else {
                assert(kept_upto(items, k, registry)[i] == items[k - 1]);
            }
        }
    }
}

/// Within a connection's batch, snapshots precede updates: no snapshot
/// comes after an update, and no update before the snapshots are done.
pub proof fn lemma_snapshots_precede_updates(
    subs: Seq<SubscriptionEntry>,
    registry: SyncRegistry,
    requests: Seq<SnapshotRequest>,
    snaps: Seq<TypeSnapshot>,
    changes: Seq<ComponentChangeEvent>,
    despawns: Seq<EntityDespawnEvent>,
    connection: ConnectionId,
    i: int,
    j: int,
)
    requires
        0 <= i < j < connection_batch(subs, registry, requests, snaps, changes, despawns, connection).len(),
    ensures
        !(connection_batch(subs, registry, requests, snaps, changes, despawns, connection)[i] is Update
            && connection_batch(subs, registry, requests, snaps, changes, despawns, connection)[j] is Snapshot),
{
    let a0 = connection_snapshots(requests, snaps, connection);
    let b0 = frame_removals(subs, connection, despawns);
    let u = frame_updates(subs, connection, changes);
    let c0 = limited(u, registry);
    let a = stable_sort(a0);
    let b = stable_sort(b0);
    let c = stable_sort(c0);
    lemma_connection_snapshots_are_snapshots(requests, snaps, connection);
    lemma_frame_removals_are_removals(subs, connection, despawns);
    lemma_frame_updates_are_updates(subs, connection, changes);
    lemma_kept_upto_from_items(u, u.len() as int, registry);
    lemma_stable_sort_items(a0);
    lemma_stable_sort_items(b0);
    lemma_stable_sort_items(c0);
    let batch = a + b + c;
    assert(batch == connection_batch(subs, registry, requests, snaps, changes, despawns, connection));
    if batch[j] is Snapshot {
        if j >= a.len() + b.len() {
            let k = j - a.len() - b.len();
            assert(batch[j] == c[k]);
            let w0 = choose|w: int| 0 <= w < c0.len() && #[trigger] c[k] == c0[w];
            let w = choose|w: int| 0 <= w < u.len() && #[trigger] c0[w0] == u[w];
            assert(u[w] is Update);
        } else if j >= a.len() {
            assert(batch[j] == b[j - a.len()]);
            let w = choose|w: int| 0 <= w < b0.len() && #[trigger] b[j - a.len()] == b0[w];
        }
        assert(j < a.len());
        assert(batch[i] == a[i]);
        let w = choose|w: int| 0 <= w < a0.len() && #[trigger] a[i] == a0[w];
        assert(batch[i] == a[i]);
    }
}

/// Whether some snapshot or update in `items` carries component type `ty`
/// of `entity`.
pub open spec fn pair_seen(items: Seq<ItemModel>, entity: u64, ty: Seq<char>) -> bool {
    exists|i: int|
        0 <= i < items.len() && match #[trigger] items[i] {
            ItemModel::Snapshot { entity: e, ty: t, .. } => e == entity && t == ty,
            ItemModel::Update { entity: e, ty: t, .. } => e == entity && t == ty,
            _ => false,
        }
}

proof fn lemma_pair_seen_add(a: Seq<ItemModel>, b: Seq<ItemModel>, entity: u64, ty: Seq<char>)
    ensures
        pair_seen(a + b, entity, ty) <==> (pair_seen(a, entity, ty) || pair_seen(b, entity, ty)),
{
    if pair_seen(a + b, entity, ty) {
        let i = choose|i: int|
            0 <= i < (a + b).len() && match #[trigger] (a + b)[i] {
                ItemModel::Snapshot { entity: e, ty: t, .. } => e == entity && t == ty,
                ItemModel::Update { entity: e, ty: t, .. } => e == entity && t == ty,
                _ => false,
            };
        if i < a.len() {
            assert(a[i] == (a + b)[i]);
        } else {
            assert(b[i - a.len()] == (a + b)[i]);
        }
    }
    if pair_seen(a, entity, ty) {
        let i = choose|i: int|
            0 <= i < a.len() && match #[trigger] a[i] {
                ItemModel::Snapshot { entity: e, ty: t, .. } => e == entity && t == ty,
                ItemModel::Update { entity: e, ty: t, .. } => e == entity && t == ty,
                _ => false,
            };
        assert((a + b)[i] == a[i]);
    }
    if pair_seen(b, entity, ty) {
        let i = choose|i: int|
            0 <= i < b.len() && match #[trigger] b[i] {
                ItemModel::Snapshot { entity: e, ty: t, .. } => e == entity && t == ty,
                ItemModel::Update { entity: e, ty: t, .. } => e == entity && t == ty,
                _ => false,
            };
        assert((a + b)[a.len() + i] == b[i]);
    }
}

/// A change reaches a connection exactly when one of its subscriptions
/// covers the change's type and entity (a newly spawned entity included):
/// the only pair its updates carry is the change's own.
pub proof fn lemma_change_updates_pairs(subs: Seq<SubscriptionEntry>, c: ConnectionId, ch: ComponentChangeEvent, entity: u64, ty: Seq<char>)
    ensures
        pair_seen(change_updates(subs, c, ch), entity, ty) <==> (entity == ch.entity.bits && ty == ch.component_type@
            && exists|k: int| 0 <= k < subs.len() && (#[trigger] subs[k]).connection_id == c
                && matches_component(subs[k], ch.component_type@, ch.entity.bits)),
    decreases subs.len(),
{
    if subs.len() > 0 {
        let prev_subs = subs.drop_last();
        lemma_change_updates_pairs(prev_subs, c, ch, entity, ty);
        let prev = change_updates(prev_subs, c, ch);
        let e = subs.last();
        if e.connection_id == c && matches_component(e, ch.component_type@, ch.entity.bits) {
            let item = ItemModel::Update { sub: e.subscription_id, entity: ch.entity.bits, ty: ch.component_type@, bytes: ch.value@ };
            assert(prev.push(item) == prev + seq![item]);
            lemma_pair_seen_add(prev, seq![item], entity, ty);
            if entity == ch.entity.bits && ty == ch.component_type@ {
                assert(seq![item][0] == item);
                assert(subs[subs.len() - 1] == e);
            }
        }
        assert forall|k: int| 0 <= k < prev_subs.len() implies #[trigger] prev_subs[k] == subs[k] by {}
        if exists|k: int| 0 <= k < subs.len() && (#[trigger] subs[k]).connection_id == c
                && matches_component(subs[k], ch.component_type@, ch.entity.bits) {
            let k = choose|k: int| 0 <= k < subs.len() && (#[trigger] subs[k]).connection_id == c
                && matches_component(subs[k], ch.component_type@, ch.entity.bits);
            if k < prev_subs.len() {
                assert(prev_subs[k] == subs[k]);
            }
        }
    }
}

/// A wildcard subscription shows a client no `(entity, type)` pair that
/// per-type subscriptions of the same connection, one for every registered
/// type, would not show it: the changes being of registered types.
pub proof fn lemma_wildcard_within_per_type(
    wildcard: SubscriptionEntry,
    per_type: Seq<SubscriptionEntry>,
    registry: SyncRegistry,
    changes: Seq<ComponentChangeEvent>,
    entity: u64,
    ty: Seq<char>,
)
    requires
        is_wildcard(wildcard.component_type@),
        wildcard.entity is None,
        forall|k: int| 0 <= k < changes.len() ==> registry.has_name((#[trigger] changes[k]).component_type@),
        forall|name: Seq<char>| #[trigger] registry.has_name(name) ==> exists|k: int|
            0 <= k < per_type.len() && (#[trigger] per_type[k]).connection_id == wildcard.connection_id
                && per_type[k].component_type@ == name && per_type[k].entity is None,
        pair_seen(frame_updates(seq![wildcard], wildcard.connection_id, changes), entity, ty),
    ensures
        pair_seen(frame_updates(per_type, wildcard.connection_id, changes), entity, ty),
    decreases changes.len(),
{
    let c = wildcard.connection_id;
    if changes.len() > 0 {
        let rest = changes.drop_last();
        let ch = changes.last();
        lemma_pair_seen_add(frame_updates(seq![wildcard], c, rest), change_updates(seq![wildcard], c, ch), entity, ty);
        lemma_pair_seen_add(frame_updates(per_type, c, rest), change_updates(per_type, c, ch), entity, ty);
        if pair_seen(frame_updates(seq![wildcard], c, rest), entity, ty) {
            assert forall|k: int| 0 <= k < rest.len() implies registry.has_name((#[trigger] rest[k]).component_type@) by {
                assert(rest[k] == changes[k]);
            }
            lemma_wildcard_within_per_type(wildcard, per_type, registry, rest, entity, ty);
        } else {
            lemma_change_updates_pairs(seq![wildcard], c, ch, entity, ty);
            lemma_change_updates_pairs(per_type, c, ch, entity, ty);
            assert(registry.has_name(changes[changes.len() - 1].component_type@));
            let k = choose|k: int|
                0 <= k < per_type.len() && (#[trigger] per_type[k]).connection_id == c
                    && per_type[k].component_type@ == ch.component_type@ && per_type[k].entity is None;
            assert(matches_component(per_type[k], ch.component_type@, ch.entity.bits));
        }
    }
}

proof fn lemma_entry_snapshots_pairs(
    req: SnapshotRequest,
    t: Seq<char>,
    entries: Seq<(SerializableEntity, Vec<u8>)>,
    entity: u64,
    ty: Seq<char>,
)
    ensures
        pair_seen(entry_snapshots(req, t, entries), entity, ty) <==> (ty == t && request_covers(req, t, entity)
            && exists|k: int| 0 <= k < entries.len() && (#[trigger] entries[k]).0.bits == entity),
    decreases entries.len(),
{
    if entries.len() > 0 {
        let rest = entries.drop_last();
        lemma_entry_snapshots_pairs(req, t, rest, entity, ty);
        let prev = entry_snapshots(req, t, rest);
        let (e, value) = entries.last();
        if request_covers(req, t, e.bits) {
            let item = ItemModel::Snapshot { sub: req.subscription_id, entity: e.bits, ty: t, bytes: value@ };
            assert(prev.push(item) == prev + seq![item]);
            lemma_pair_seen_add(prev, seq![item], entity, ty);
            if entity == e.bits && ty == t {
                assert(seq![item][0] == item);
                assert(entries[entries.len() - 1].0.bits == entity);
            }
        }
        if exists|k: int| 0 <= k < entries.len() && (#[trigger] entries[k]).0.bits == entity {
            let k = choose|k: int| 0 <= k < entries.len() && (#[trigger] entries[k]).0.bits == entity;
            if k < rest.len() {
                assert(rest[k] == entries[k]);
            }
        }
        if exists|k: int| 0 <= k < rest.len() && (#[trigger] rest[k]).0.bits == entity {
            let k = choose|k: int| 0 <= k < rest.len() && (#[trigger] rest[k]).0.bits == entity;
            assert(entries[k] == rest[k]);
        }
    }
}

proof fn lemma_request_snapshots_pairs(req: SnapshotRequest, snaps: Seq<TypeSnapshot>, entity: u64, ty: Seq<char>)
    ensures
        pair_seen(request_snapshots(req, snaps), entity, ty) <==> exists|i: int|
            0 <= i < snaps.len() && pair_seen(
                entry_snapshots(req, (#[trigger] snaps[i]).component_type@, snaps[i].entries@),
                entity,
                ty,
            ),
    decreases snaps.len(),
{
    if snaps.len() > 0 {
        let rest = snaps.drop_last();
        let last = snaps.last();
        lemma_request_snapshots_pairs(req, rest, entity, ty);
        lemma_pair_seen_add(
            request_snapshots(req, rest),
            entry_snapshots(req, last.component_type@, last.entries@),
            entity,
            ty,
        );
        if exists|i: int|
            0 <= i < snaps.len() && pair_seen(
                entry_snapshots(req, (#[trigger] snaps[i]).component_type@, snaps[i].entries@),
                entity,
                ty,
            ) {
            let i = choose|i: int|
                0 <= i < snaps.len() && pair_seen(
                    entry_snapshots(req, (#[trigger] snaps[i]).component_type@, snaps[i].entries@),
                    entity,
                    ty,
                );
            if i < rest.len() {
                assert(rest[i] == snaps[i]);
            }
        }
        if exists|i: int|
            0 <= i < rest.len() && pair_seen(
                entry_snapshots(req, (#[trigger] rest[i]).component_type@, rest[i].entries@),
                entity,
                ty,
            ) {
            let i = choose|i: int|
                0 <= i < rest.len() && pair_seen(
                    entry_snapshots(req, (#[trigger] rest[i]).component_type@, rest[i].entries@),
                    entity,
                    ty,
                );
            assert(snaps[i] == rest[i]);
        }
    }
}

/// The snapshots of a wildcard subscription carry no `(entity, type)` pair
/// that the snapshots of a subscription to that type alone would not.
pub proof fn lemma_wildcard_snapshots_within_per_type(
    wildcard: SnapshotRequest,
    per_type: SnapshotRequest,
    snaps: Seq<TypeSnapshot>,
    entity: u64,
    ty: Seq<char>,
)
    requires
        is_wildcard(wildcard.component_type@),
        wildcard.entity is None,
        per_type.component_type@ == ty,
        per_type.entity is None,
        pair_seen(request_snapshots(wildcard, snaps), entity, ty),
    ensures
        pair_seen(request_snapshots(per_type, snaps), entity, ty),
{
    lemma_request_snapshots_pairs(wildcard, snaps, entity, ty);
    lemma_request_snapshots_pairs(per_type, snaps, entity, ty);
    let i = choose|i: int|
        0 <= i < snaps.len() && pair_seen(
            entry_snapshots(wildcard, (#[trigger] snaps[i]).component_type@, snaps[i].entries@),
            entity,
            ty,
        );
    lemma_entry_snapshots_pairs(wildcard, snaps[i].component_type@, snaps[i].entries@, entity, ty);
    lemma_entry_snapshots_pairs(per_type, snaps[i].component_type@, snaps[i].entries@, entity, ty);
}

} // verus!
