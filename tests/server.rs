use eventwork_sync::dispatch::{
    batch_for_connection, dispatch_frame, limit_updates, snapshot_items, subscription_matches, ComponentChangeEvent,
    EntityDespawnEvent, TypeSnapshot,
};
use eventwork_sync::ids::{ConnectionId, SerializableEntity};
use eventwork_sync::messages::{
    MutateComponent, SubscriptionRequest, SyncClientMessage, SyncItem, SyncServerMessage, UnsubscribeRequest,
};
use eventwork_sync::names::short_type_name;
use eventwork_sync::order::sort_items;
use eventwork_sync::registry::{ComponentRegistration, ComponentSyncConfig, RegistrationError, SyncRegistry};
use eventwork_sync::subscription::{
    handle_client_message, handle_disconnect, MutationQueue, SnapshotQueue, SnapshotRequest, SubscriptionEntry,
    SubscriptionManager,
};

fn conn(id: u32) -> ConnectionId {
    ConnectionId { id }
}

fn ent(bits: u64) -> SerializableEntity {
    SerializableEntity { bits }
}

fn queues() -> (SubscriptionManager, SnapshotQueue, MutationQueue) {
    (SubscriptionManager::new(), SnapshotQueue { pending: vec![] }, MutationQueue { pending: vec![] })
}

fn subscribe(id: u64, ty: &str, entity: Option<SerializableEntity>) -> SyncClientMessage {
    SyncClientMessage::Subscription(SubscriptionRequest { subscription_id: id, component_type: ty.to_string(), entity })
}

fn counter_registry(limit: Option<usize>) -> SyncRegistry {
    let mut reg = SyncRegistry::new();
    reg.register_component(ComponentRegistration::new("app::Counter", Some(ComponentSyncConfig { max_updates_per_frame: limit })))
        .unwrap();
    reg.register_component(ComponentRegistration::new("app::Name", None)).unwrap();
    reg
}

fn despawn(e: u64, types: &[&str]) -> EntityDespawnEvent {
    EntityDespawnEvent { entity: ent(e), component_types: types.iter().map(|t| t.to_string()).collect() }
}

fn change(e: u64, ty: &str, v: u8) -> ComponentChangeEvent {
    ComponentChangeEvent { entity: ent(e), component_type: ty.to_string(), value: vec![v] }
}

fn describe(item: &SyncItem) -> (char, u64, u64, String, Vec<u8>) {
    match item {
        SyncItem::Snapshot { subscription_id, entity, component_type, value } => {
            ('S', *subscription_id, entity.bits, component_type.clone(), value.clone())
        }
        SyncItem::Update { subscription_id, entity, component_type, value } => {
            ('U', *subscription_id, entity.bits, component_type.clone(), value.clone())
        }
        SyncItem::ComponentRemoved { subscription_id, entity, component_type } => {
            ('C', *subscription_id, entity.bits, component_type.clone(), vec![])
        }
        SyncItem::EntityRemoved { subscription_id, entity } => ('E', *subscription_id, entity.bits, String::new(), vec![]),
    }
}

#[test]
fn short_names() {
    assert_eq!(short_type_name("my_crate::components::Counter"), "Counter");
    assert_eq!(short_type_name("Counter"), "Counter");
    assert_eq!(short_type_name("a::b::"), "");
    assert_eq!(short_type_name(""), "");
    assert_eq!(short_type_name("x:y::z"), "z");
}

#[test]
fn registration_is_idempotent_and_rejects_colliding_names() {
    let mut reg = SyncRegistry::new();
    assert_eq!(reg.register_component(ComponentRegistration::new("a::Counter", None)), Ok(()));
    assert_eq!(reg.register_component(ComponentRegistration::new("a::Counter", None)), Ok(()));
    assert_eq!(reg.components.len(), 1);
    assert_eq!(
        reg.register_component(ComponentRegistration::new("b::Counter", None)),
        Err(RegistrationError::DuplicateName)
    );
    assert_eq!(reg.components.len(), 1);
    assert_eq!(reg.components[0].component_type, "Counter");
    assert_eq!(reg.lookup("Counter"), Some(0));
    assert_eq!(reg.lookup("Other"), None);
}

#[test]
fn default_config_is_unlimited() {
    let reg = counter_registry(Some(2));
    assert_eq!(reg.max_updates_for("Counter"), Some(2));
    assert_eq!(reg.max_updates_for("Name"), None);
    assert_eq!(reg.max_updates_for("Missing"), None);
    assert_eq!(ComponentSyncConfig::default().max_updates_per_frame, None);
}

#[test]
fn subscribe_and_unsubscribe_counts() {
    let (mut subs, mut snaps, mut muts) = queues();
    handle_client_message(&mut subs, &mut snaps, &mut muts, conn(1), subscribe(1, "Counter", None));
    handle_client_message(&mut subs, &mut snaps, &mut muts, conn(1), subscribe(2, "Counter", None));
    handle_client_message(&mut subs, &mut snaps, &mut muts, conn(2), subscribe(1, "Counter", None));
    assert_eq!(subs.subscriptions.len(), 3);
    assert_eq!(snaps.pending.len(), 3);
    let unsub = || SyncClientMessage::Unsubscribe(UnsubscribeRequest { subscription_id: 1 });
    handle_client_message(&mut subs, &mut snaps, &mut muts, conn(1), unsub());
    assert_eq!(subs.subscriptions.len(), 2);
    handle_client_message(&mut subs, &mut snaps, &mut muts, conn(1), unsub());
    assert_eq!(subs.subscriptions.len(), 2);
    assert_eq!(subs.subscriptions[0].subscription_id, 2);
    assert_eq!(subs.subscriptions[1].connection_id, conn(2));
    assert_eq!(muts.pending.len(), 0);
}

#[test]
fn mutate_is_queued() {
    let (mut subs, mut snaps, mut muts) = queues();
    let m = MutateComponent { request_id: Some(4), entity: ent(7), component_type: "Counter".to_string(), value: vec![1] };
    handle_client_message(&mut subs, &mut snaps, &mut muts, conn(3), SyncClientMessage::Mutate(m));
    assert_eq!(muts.pending.len(), 1);
    assert_eq!(muts.pending[0].connection_id, conn(3));
    assert_eq!(muts.pending[0].request_id, Some(4));
    assert_eq!(subs.subscriptions.len(), 0);
}

#[test]
fn disconnect_drains_everything_of_the_connection() {
    let (mut subs, mut snaps, mut muts) = queues();
    handle_client_message(&mut subs, &mut snaps, &mut muts, conn(1), subscribe(1, "Counter", None));
    handle_client_message(&mut subs, &mut snaps, &mut muts, conn(1), subscribe(2, "Name", None));
    handle_client_message(&mut subs, &mut snaps, &mut muts, conn(2), subscribe(5, "Name", None));
    let m = MutateComponent { request_id: Some(1), entity: ent(7), component_type: "Counter".to_string(), value: vec![] };
    handle_client_message(&mut subs, &mut snaps, &mut muts, conn(1), SyncClientMessage::Mutate(m));
    handle_disconnect(&mut subs, &mut snaps, &mut muts, conn(1));
    assert_eq!(subs.subscriptions.len(), 1);
    assert_eq!(subs.subscriptions[0].subscription_id, 5);
    assert_eq!(snaps.pending.len(), 1);
    assert_eq!(muts.pending.len(), 0);

    let reg = counter_registry(None);
    let out = dispatch_frame(&subs, &reg, &mut snaps, &vec![], &vec![change(7, "Counter", 4)], &vec![], &vec![conn(1), conn(2)]);
    assert!(out.iter().all(|o| o.connection_id != conn(1)));
}

#[test]
fn matching_rules() {
    let e = SubscriptionEntry { connection_id: conn(1), subscription_id: 1, component_type: "*".to_string(), entity: None };
    assert!(subscription_matches(&e, "Counter", ent(3)));
    let e = SubscriptionEntry { connection_id: conn(1), subscription_id: 1, component_type: "Counter".to_string(), entity: Some(ent(3)) };
    assert!(subscription_matches(&e, "Counter", ent(3)));
    assert!(!subscription_matches(&e, "Counter", ent(4)));
    assert!(!subscription_matches(&e, "Name", ent(3)));
}

fn world() -> Vec<TypeSnapshot> {
    vec![
        TypeSnapshot { component_type: "Counter".to_string(), entries: vec![(ent(7), vec![3]), (ent(12), vec![9])] },
        TypeSnapshot { component_type: "Name".to_string(), entries: vec![(ent(7), vec![b'a'])] },
    ]
}

#[test]
fn basic_subscribe_snapshot_update() {
    let (mut subs, mut snaps, mut muts) = queues();
    let reg = counter_registry(None);
    handle_client_message(&mut subs, &mut snaps, &mut muts, conn(1), subscribe(1, "Counter", None));
    let out = dispatch_frame(&subs, &reg, &mut snaps, &world(), &vec![], &vec![], &vec![conn(1)]);
    assert_eq!(out.len(), 1);
    assert!(snaps.pending.is_empty());
    let items = match &out[0].message {
        SyncServerMessage::SyncBatch(b) => b.items.iter().map(describe).collect::<Vec<_>>(),
        _ => panic!("expected a batch"),
    };
    assert_eq!(
        items,
        vec![('S', 1, 7, "Counter".to_string(), vec![3]), ('S', 1, 12, "Counter".to_string(), vec![9])]
    );

    let out = dispatch_frame(&subs, &reg, &mut snaps, &world(), &vec![change(7, "Counter", 4)], &vec![], &vec![conn(1)]);
    let items = match &out[0].message {
        SyncServerMessage::SyncBatch(b) => b.items.iter().map(describe).collect::<Vec<_>>(),
        _ => panic!("expected a batch"),
    };
    assert_eq!(items, vec![('U', 1, 7, "Counter".to_string(), vec![4])]);

    let out = dispatch_frame(&subs, &reg, &mut snaps, &world(), &vec![], &vec![], &vec![conn(1)]);
    assert!(out.is_empty());
}

#[test]
fn entity_snapshot_and_unknown_type() {
    let req = SnapshotRequest { connection_id: conn(1), subscription_id: 3, component_type: "Counter".to_string(), entity: Some(ent(12)) };
    let items: Vec<_> = snapshot_items(&req, &world()).iter().map(describe).collect();
    assert_eq!(items, vec![('S', 3, 12, "Counter".to_string(), vec![9])]);
    let req = SnapshotRequest { connection_id: conn(1), subscription_id: 3, component_type: "Counter".to_string(), entity: Some(ent(99)) };
    assert!(snapshot_items(&req, &world()).is_empty());
    let req = SnapshotRequest { connection_id: conn(1), subscription_id: 3, component_type: "Ghost".to_string(), entity: None };
    assert!(snapshot_items(&req, &world()).is_empty());
}

#[test]
fn wildcard_firehose() {
    let (mut subs, mut snaps, mut muts) = queues();
    let reg = counter_registry(None);
    handle_client_message(&mut subs, &mut snaps, &mut muts, conn(1), subscribe(9, "*", None));
    let changes = vec![change(12, "Counter", 10), change(7, "Name", b'b')];
    let items: Vec<_> = batch_for_connection(&subs.subscriptions, &reg, &snaps.pending, &world(), &changes, &vec![], conn(1))
        .iter()
        .map(describe)
        .collect();
    assert_eq!(
        items,
        vec![
            ('S', 9, 7, "Counter".to_string(), vec![3]),
            ('S', 9, 7, "Name".to_string(), vec![b'a']),
            ('S', 9, 12, "Counter".to_string(), vec![9]),
            ('U', 9, 7, "Name".to_string(), vec![b'b']),
            ('U', 9, 12, "Counter".to_string(), vec![10]),
        ]
    );
}

#[test]
fn batch_order_is_snapshots_removals_updates() {
    let (mut subs, mut snaps, mut muts) = queues();
    let reg = counter_registry(None);
    handle_client_message(&mut subs, &mut snaps, &mut muts, conn(1), subscribe(1, "Counter", None));
    let items: Vec<_> = batch_for_connection(
        &subs.subscriptions,
        &reg,
        &snaps.pending,
        &world(),
        &vec![change(7, "Counter", 5)],
        &vec![despawn(12, &["Counter"])],
        conn(1),
    )
    .iter()
    .map(|i| describe(i).0)
    .collect();
    assert_eq!(items, vec!['S', 'S', 'E', 'U']);
}

#[test]
fn update_limit_keeps_the_newest() {
    let (mut subs, mut snaps, mut muts) = queues();
    let reg = counter_registry(Some(2));
    handle_client_message(&mut subs, &mut snaps, &mut muts, conn(1), subscribe(1, "*", None));
    snaps.pending.clear();
    let changes = vec![change(1, "Counter", 1), change(2, "Name", 2), change(3, "Counter", 3), change(4, "Counter", 4)];
    let items: Vec<_> = batch_for_connection(&subs.subscriptions, &reg, &snaps.pending, &vec![], &changes, &vec![], conn(1))
        .iter()
        .map(|i| describe(i).2)
        .collect();
    assert_eq!(items, vec![2, 3, 4]);
}

#[test]
fn limit_never_drops_removals() {
    let reg = counter_registry(Some(0));
    let items = vec![
        SyncItem::EntityRemoved { subscription_id: 1, entity: ent(5) },
        SyncItem::Update { subscription_id: 1, entity: ent(5), component_type: "Counter".to_string(), value: vec![1] },
        SyncItem::Snapshot { subscription_id: 1, entity: ent(5), component_type: "Counter".to_string(), value: vec![1] },
    ];
    let kept: Vec<_> = limit_updates(items, &reg).iter().map(|i| describe(i).0).collect();
    assert_eq!(kept, vec!['E', 'S']);
}

#[test]
fn entity_subscription_only_sees_its_entity() {
    let (mut subs, mut snaps, mut muts) = queues();
    let reg = counter_registry(None);
    handle_client_message(&mut subs, &mut snaps, &mut muts, conn(1), subscribe(4, "Counter", Some(ent(7))));
    snaps.pending.clear();
    let changes = vec![change(7, "Counter", 1), change(12, "Counter", 2)];
    let despawns = vec![despawn(12, &["Counter"]), despawn(7, &["Counter", "Name"])];
    let items: Vec<_> = batch_for_connection(&subs.subscriptions, &reg, &snaps.pending, &vec![], &changes, &despawns, conn(1))
        .iter()
        .map(describe)
        .collect();
    assert_eq!(items, vec![('E', 4, 7, String::new(), vec![]), ('U', 4, 7, "Counter".to_string(), vec![1])]);
}

#[test]
fn items_sort_by_entity_then_type_and_keep_arrival_order() {
    let items = vec![
        SyncItem::Update { subscription_id: 1, entity: ent(9), component_type: "B".to_string(), value: vec![1] },
        SyncItem::Update { subscription_id: 1, entity: ent(3), component_type: "Z".to_string(), value: vec![2] },
        SyncItem::Update { subscription_id: 1, entity: ent(9), component_type: "A".to_string(), value: vec![3] },
        SyncItem::Update { subscription_id: 1, entity: ent(3), component_type: "Z".to_string(), value: vec![4] },
        SyncItem::Update { subscription_id: 1, entity: ent(3), component_type: "Ab".to_string(), value: vec![5] },
        SyncItem::Update { subscription_id: 1, entity: ent(3), component_type: "A".to_string(), value: vec![6] },
    ];
    let values: Vec<u8> = sort_items(items).iter().map(|i| describe(i).4[0]).collect();
    assert_eq!(values, vec![6, 5, 2, 4, 3, 1]);
}

fn pairs(items: &[SyncItem]) -> Vec<(u64, String)> {
    let mut v: Vec<(u64, String)> = items
        .iter()
        .map(describe)
        .filter(|d| d.0 == 'S' || d.0 == 'U')
        .map(|d| (d.2, d.3))
        .collect();
    v.sort();
    v.dedup();
    v
}

#[test]
fn wildcard_sees_what_per_type_subscriptions_see() {
    let reg = counter_registry(None);
    let changes = vec![change(12, "Counter", 10), change(7, "Name", b'b')];

    let (mut subs, mut snaps, mut muts) = queues();
    handle_client_message(&mut subs, &mut snaps, &mut muts, conn(1), subscribe(9, "*", None));
    let wild = batch_for_connection(&subs.subscriptions, &reg, &snaps.pending, &world(), &changes, &vec![], conn(1));

    let (mut subs, mut snaps, mut muts) = queues();
    handle_client_message(&mut subs, &mut snaps, &mut muts, conn(1), subscribe(1, "Counter", None));
    handle_client_message(&mut subs, &mut snaps, &mut muts, conn(1), subscribe(2, "Name", None));
    let per_type = batch_for_connection(&subs.subscriptions, &reg, &snaps.pending, &world(), &changes, &vec![], conn(1));

    let w = pairs(&wild);
    let p = pairs(&per_type);
    assert!(w.iter().all(|x| p.contains(x)));
    assert_eq!(w.len(), 3);
}

#[test]
fn spawned_entity_reaches_subscribers() {
    let (mut subs, mut snaps, mut muts) = queues();
    let reg = counter_registry(None);
    handle_client_message(&mut subs, &mut snaps, &mut muts, conn(1), subscribe(1, "Counter", None));
    snaps.pending.clear();
    let out = dispatch_frame(&subs, &reg, &mut snaps, &vec![], &vec![change(40, "Counter", 99)], &vec![], &vec![conn(1)]);
    assert_eq!(out.len(), 1);
    match &out[0].message {
        SyncServerMessage::SyncBatch(b) => {
            assert_eq!(b.items.iter().map(describe).collect::<Vec<_>>(), vec![('U', 1, 40, "Counter".to_string(), vec![99])]);
        }
        _ => panic!("expected a batch"),
    }
}

#[test]
fn removal_only_reaches_subscriptions_of_a_carried_type() {
    let (mut subs, mut snaps, mut muts) = queues();
    let reg = counter_registry(None);
    handle_client_message(&mut subs, &mut snaps, &mut muts, conn(1), subscribe(1, "Name", None));
    handle_client_message(&mut subs, &mut snaps, &mut muts, conn(1), subscribe(2, "Counter", None));
    handle_client_message(&mut subs, &mut snaps, &mut muts, conn(1), subscribe(3, "*", None));
    snaps.pending.clear();
    let items: Vec<_> = batch_for_connection(&subs.subscriptions, &reg, &snaps.pending, &vec![], &vec![], &vec![despawn(12, &["Counter"])], conn(1))
        .iter()
        .map(|i| (describe(i).0, describe(i).1))
        .collect();
    assert_eq!(items, vec![('E', 2), ('E', 3)]);
}

#[test]
fn resent_subscription_id_replaces_the_live_entry() {
    let (mut subs, mut snaps, mut muts) = queues();
    handle_client_message(&mut subs, &mut snaps, &mut muts, conn(1), subscribe(1, "Counter", None));
    handle_client_message(&mut subs, &mut snaps, &mut muts, conn(1), subscribe(1, "Name", None));
    handle_client_message(&mut subs, &mut snaps, &mut muts, conn(2), subscribe(1, "Counter", None));
    assert_eq!(subs.subscriptions.len(), 2);
    assert_eq!(subs.subscriptions[0].connection_id, conn(1));
    assert_eq!(subs.subscriptions[0].component_type, "Name");
    assert_eq!(subs.subscriptions[1].connection_id, conn(2));
    assert_eq!(snaps.pending.len(), 3);
}
