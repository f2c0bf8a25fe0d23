//! The sync protocol's envelopes, and their mathematical models.
use vstd::prelude::*;

use crate::ids::{ConnectionId, SerializableEntity};

verus! {

/// Outcome of one mutation request.
#[derive(Clone, Copy, Debug, PartialEq, Eq, Structural)]
pub enum MutationStatus {
    Success,
    NotFound,
    ValidationError,
    Forbidden,
    InternalError,
}

/// One element of a [`SyncBatch`].
#[derive(Clone, Debug)]
pub enum SyncItem {
    /// The full current value of a component, sent when a subscription starts.
    Snapshot { subscription_id: u64, entity: SerializableEntity, component_type: String, value: Vec<u8> },
    /// The new value of a component that changed.
    Update { subscription_id: u64, entity: SerializableEntity, component_type: String, value: Vec<u8> },
    /// A component was taken off an entity.
    ComponentRemoved { subscription_id: u64, entity: SerializableEntity, component_type: String },
    /// An entity was despawned.
    EntityRemoved { subscription_id: u64, entity: SerializableEntity },
}

/// The model of a [`SyncItem`]: entity ids as bits, names as character
/// sequences, values as byte sequences.
pub enum ItemModel {
    Snapshot { sub: u64, entity: u64, ty: Seq<char>, bytes: Seq<u8> },
    Update { sub: u64, entity: u64, ty: Seq<char>, bytes: Seq<u8> },
    ComponentRemoved { sub: u64, entity: u64, ty: Seq<char> },
    EntityRemoved { sub: u64, entity: u64 },
}

impl ItemModel {
    pub open spec fn sub(self) -> u64 {
        match self {
            ItemModel::Snapshot { sub, .. } => sub,
            ItemModel::Update { sub, .. } => sub,
            ItemModel::ComponentRemoved { sub, .. } => sub,
            ItemModel::EntityRemoved { sub, .. } => sub,
        }
    }

    pub open spec fn entity(self) -> u64 {
        match self {
            ItemModel::Snapshot { entity, .. } => entity,
            ItemModel::Update { entity, .. } => entity,
            ItemModel::ComponentRemoved { entity, .. } => entity,
            ItemModel::EntityRemoved { entity, .. } => entity,
        }
    }
}

impl View for SyncItem {
    type V = ItemModel;

    open spec fn view(&self) -> ItemModel {
        match self {
            SyncItem::Snapshot { subscription_id, entity, component_type, value } => ItemModel::Snapshot {
                sub: *subscription_id,
                entity: entity.bits,
                ty: component_type@,
                bytes: value@,
            },
            SyncItem::Update { subscription_id, entity, component_type, value } => ItemModel::Update {
                sub: *subscription_id,
                entity: entity.bits,
                ty: component_type@,
                bytes: value@,
            },
            SyncItem::ComponentRemoved { subscription_id, entity, component_type } =>
                ItemModel::ComponentRemoved {
                sub: *subscription_id,
                entity: entity.bits,
                ty: component_type@,
            },
            SyncItem::EntityRemoved { subscription_id, entity } => ItemModel::EntityRemoved {
                sub: *subscription_id,
                entity: entity.bits,
            },
        }
    }
}

/// The models of a sequence of items, in order.
pub open spec fn items_model(items: Seq<SyncItem>) -> Seq<ItemModel> {
    items.map_values(|i: SyncItem| i@)
}

/// The items a client receives in one frame; they apply left to right.
#[derive(Clone, Debug)]
pub struct SyncBatch {
    pub items: Vec<SyncItem>,
}

/// Client request to start a subscription.
#[derive(Clone, Debug)]
pub struct SubscriptionRequest {
    pub subscription_id: u64,
    pub component_type: String,
    pub entity: Option<SerializableEntity>,
}

/// Client request to end a subscription.
#[derive(Clone, Copy, Debug, PartialEq, Eq, Structural)]
pub struct UnsubscribeRequest {
    pub subscription_id: u64,
}

/// Client request to write one component value, or to spawn an entity with
/// it when `entity` is the dangling sentinel.
#[derive(Clone, Debug)]
pub struct MutateComponent {
    pub request_id: Option<u64>,
    pub entity: SerializableEntity,
    pub component_type: String,
    pub value: Vec<u8>,
}

/// Server reply to a [`MutateComponent`].
#[derive(Clone, Debug)]
pub struct MutationResponse {
    pub request_id: Option<u64>,
    pub status: MutationStatus,
    pub message: Option<String>,
}

/// Reply to a query; its contents are not part of the protocol yet.
#[derive(Clone, Debug)]
pub struct QueryResponse {
    pub request_id: Option<u64>,
}

/// Every message a client sends.
#[derive(Clone, Debug)]
pub enum SyncClientMessage {
    Subscription(SubscriptionRequest),
    Unsubscribe(UnsubscribeRequest),
    Mutate(MutateComponent),
}

/// Every message the server sends.
#[derive(Clone, Debug)]
pub enum SyncServerMessage {
    SyncBatch(SyncBatch),
    MutationResponse(MutationResponse),
    QueryResponse(QueryResponse),
}

/// A message addressed to one connection.
#[derive(Clone, Debug)]
pub struct Outgoing {
    pub connection_id: ConnectionId,
    pub message: SyncServerMessage,
}

} // verus!
