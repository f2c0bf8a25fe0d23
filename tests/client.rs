use eventwork_sync::client::{MutationState, SyncClient};
use eventwork_sync::ids::SerializableEntity;
use eventwork_sync::messages::{
    MutationResponse, MutationStatus, QueryResponse, SyncBatch, SyncClientMessage, SyncItem, SyncServerMessage,
};
use eventwork_sync::session::ClientSession;
use eventwork_sync::store::RawStore;
use eventwork_sync::tracker::SubscriptionTracker;

fn ent(bits: u64) -> SerializableEntity {
    SerializableEntity { bits }
}

fn update(e: u64, ty: &str, v: Vec<u8>) -> SyncItem {
    SyncItem::Update { subscription_id: 1, entity: ent(e), component_type: ty.to_string(), value: v }
}

fn snapshot(e: u64, ty: &str, v: Vec<u8>) -> SyncItem {
    SyncItem::Snapshot { subscription_id: 1, entity: ent(e), component_type: ty.to_string(), value: v }
}

#[test]
fn new_pending_state() {
    let s = MutationState::new_pending(5);
    assert_eq!(s.request_id, 5);
    assert!(s.status.is_none());
    assert!(s.message.is_none());
}

#[test]
fn mutation_round_trip() {
    let mut client = SyncClient::new();
    let (id, msg) = client.mutate(ent(7), "Counter".to_string(), vec![99]);
    assert_eq!(id, 1);
    match msg {
        SyncClientMessage::Mutate(m) => {
            assert_eq!(m.request_id, Some(1));
            assert_eq!(m.entity, ent(7));
            assert_eq!(m.component_type, "Counter");
            assert_eq!(m.value, vec![99]);
        }
        _ => panic!("expected a mutate"),
    }
    assert!(client.mutation_state(1).unwrap().status.is_none());
    let (id2, _) = client.mutate(SerializableEntity::dangling(), "Counter".to_string(), vec![1]);
    assert_eq!(id2, 2);

    client.handle_mutation_response(&MutationResponse { request_id: Some(1), status: MutationStatus::Success, message: None });
    assert_eq!(client.mutation_state(1).unwrap().status, Some(MutationStatus::Success));
    assert!(client.mutation_state(2).unwrap().status.is_none());

    client.handle_server_message(&SyncServerMessage::MutationResponse(MutationResponse {
        request_id: Some(2),
        status: MutationStatus::Forbidden,
        message: Some("read only".to_string()),
    }));
    let s = client.mutation_state(2).unwrap();
    assert_eq!(s.status, Some(MutationStatus::Forbidden));
    assert_eq!(s.message.as_deref(), Some("read only"));
}

#[test]
fn unknown_response_is_ignored() {
    let mut client = SyncClient::new();
    client.handle_mutation_response(&MutationResponse { request_id: Some(42), status: MutationStatus::Success, message: None });
    assert!(client.mutation_state(42).is_none());
    assert!(client.mutations.is_empty());
}

#[test]
fn store_applies_items() {
    let mut store = RawStore::new();
    store.apply_item(snapshot(7, "Counter", vec![3]));
    store.apply_item(snapshot(12, "Counter", vec![9]));
    store.apply_item(snapshot(7, "Name", vec![b'a']));
    store.apply_item(update(7, "Counter", vec![4]));
    assert_eq!(store.get(7, "Counter"), Some(&vec![4]));
    assert_eq!(store.get(12, "Counter"), Some(&vec![9]));
    let mut counters = store.entries_of_type("Counter");
    counters.sort();
    assert_eq!(counters, vec![(7, vec![4]), (12, vec![9])]);

    store.apply_item(SyncItem::ComponentRemoved { subscription_id: 1, entity: ent(12), component_type: "Counter".to_string() });
    assert_eq!(store.get(12, "Counter"), None);
    store.apply_item(SyncItem::EntityRemoved { subscription_id: 1, entity: ent(7) });
    assert_eq!(store.get(7, "Counter"), None);
    assert_eq!(store.get(7, "Name"), None);
    assert!(store.entries.is_empty());
}

#[test]
fn last_writer_wins() {
    let mut store = RawStore::new();
    store.apply_items(vec![update(7, "Counter", vec![1]), update(8, "Counter", vec![5]), update(7, "Counter", vec![2])]);
    assert_eq!(store.get(7, "Counter"), Some(&vec![2]));
    assert_eq!(store.entries.len(), 2);
}

#[test]
fn one_subscribe_per_type() {
    let mut t = SubscriptionTracker::new();
    assert!(t.on_open().is_empty());
    let first = t.bind("Counter");
    match first {
        Some(SyncClientMessage::Subscription(req)) => {
            assert_eq!(req.subscription_id, 1);
            assert_eq!(req.component_type, "Counter");
            assert!(req.entity.is_none());
        }
        _ => panic!("expected a subscribe"),
    }
    assert!(t.bind("Counter").is_none());
    assert!(t.unbind("Counter").is_none());
    match t.unbind("Counter") {
        Some(SyncClientMessage::Unsubscribe(u)) => assert_eq!(u.subscription_id, 1),
        _ => panic!("expected an unsubscribe"),
    }
    assert!(t.unbind("Counter").is_none());
    assert!(t.entries.is_empty());
}

#[test]
fn subscribe_waits_for_open() {
    let mut t = SubscriptionTracker::new();
    assert!(t.bind("Counter").is_none());
    assert!(t.bind("Name").is_none());
    assert!(t.bind("Counter").is_none());
    let sent = t.on_open();
    assert_eq!(sent.len(), 2);
    let ids: Vec<u64> = sent
        .iter()
        .map(|m| match m {
            SyncClientMessage::Subscription(r) => r.subscription_id,
            _ => panic!("expected subscribes"),
        })
        .collect();
    assert_eq!(ids, vec![1, 2]);
    assert!(t.bind("Name").is_none());
    t.on_close();
    assert_eq!(t.on_open().len(), 2);
    assert_eq!(t.subscription_id("Name"), Some(2));
}

#[test]
fn session_routes_messages() {
    let mut s = ClientSession::new();
    let (id, _) = s.mutations.mutate(ent(7), "Counter".to_string(), vec![99]);
    s.handle_server_message(SyncServerMessage::SyncBatch(SyncBatch { items: vec![update(7, "Counter", vec![99])] }));
    assert_eq!(s.store.get(7, "Counter"), Some(&vec![99]));
    s.handle_server_message(SyncServerMessage::MutationResponse(MutationResponse {
        request_id: Some(id),
        status: MutationStatus::Success,
        message: None,
    }));
    assert_eq!(s.mutations.mutation_state(id).unwrap().status, Some(MutationStatus::Success));
    s.handle_server_message(SyncServerMessage::QueryResponse(QueryResponse { request_id: None }));
    assert_eq!(s.store.entries.len(), 1);
}
