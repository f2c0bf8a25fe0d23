//! Named network messages: the reflection messages, and the targeted and
//! previous-message wrappers whose names derive from the wrapped message.
use vstd::prelude::*;
use std::marker::PhantomData;
use vstd::string::StringExecFns;

verus! {

/// A message with a stable wire name, unique across every crate that
/// sends messages.
pub trait NetworkMessage {
    /// The name in the proofs. Every impl is to state its own, equal to
    /// what `name` returns; the empty default only lets impls outside the
    /// verified code compile, and those are not held to `name`'s contract.
    open spec fn spec_name() -> Seq<char> {
        Seq::empty()
    }

    fn name() -> (r: &'static str)
        ensures
            r@ == Self::spec_name();
}

/// The wire kind of a message: its name, as an owned string.
pub trait AnyNetworkMessage {
    spec fn spec_kind() -> Seq<char>;

    fn message_kind() -> (r: String)
        ensures
            r@ == Self::spec_kind();
}

impl<T: NetworkMessage> AnyNetworkMessage for T {
    open spec fn spec_kind() -> Seq<char> {
        T::spec_name()
    }

    fn message_kind() -> (r: String) {
        T::name().to_owned()
    }
}

/// A message addressed to one named target.
#[derive(Clone, Debug)]
pub struct TargetedMessage<T> {
    pub target_id: String,
    pub message: T,
}

impl<T: NetworkMessage> TargetedMessage<T> {
    /// The wire name of targeted messages of `T`: `Targeted(<name of T>)`.
    pub fn name() -> (r: String)
        ensures
            r@ == "Targeted("@ + T::spec_name() + ")"@,
    {
        let s = "Targeted(".to_owned().concat(T::name());
        s.concat(")")
    }
}

/// A request for the last message of type `T` that was sent; it carries
/// no data.
#[derive(Debug)]
pub struct PreviousMessage<T> {
    pub phantom: PhantomData<T>,
    pub marker: bool,
}

impl<T: NetworkMessage> PreviousMessage<T> {
    pub fn new() -> (r: PreviousMessage<T>)
        ensures
            !r.marker,
    {
        PreviousMessage { phantom: PhantomData, marker: false }
    }

    /// The wire name of previous-message requests of `T`:
    /// `PreviousMessage(<name of T>)`.
    pub fn name() -> (r: String)
        ensures
            r@ == "PreviousMessage("@ + T::spec_name() + ")"@,
    {
        let s = "PreviousMessage(".to_owned().concat(T::name());
        s.concat(")")
    }
}

/// The serialized value of one component of one entity.
#[derive(Clone, Debug)]
pub struct ReflectedEntityData {
    pub entity_id: u64,
    pub component_type: String,
    pub data: Vec<u8>,
}

impl NetworkMessage for ReflectedEntityData {
    open spec fn spec_name() -> Seq<char> {
        "eventwork::ReflectedEntityData"@
    }

    fn name() -> (r: &'static str) {
        "eventwork::ReflectedEntityData"
    }
}

/// A request to follow one component of one entity.
#[derive(Clone, Debug)]
pub struct SubscribeToComponent {
    pub entity_id: u64,
    pub component_type: String,
    /// An optional dotted path to one field of the component.
    pub field_path: Option<String>,
}

impl NetworkMessage for SubscribeToComponent {
    open spec fn spec_name() -> Seq<char> {
        "eventwork::SubscribeToComponent"@
    }

    fn name() -> (r: &'static str) {
        "eventwork::SubscribeToComponent"
    }
}

/// A request to write one component of one entity, serialized.
#[derive(Clone, Debug)]
pub struct UpdateEntityComponent {
    pub entity_id: u64,
    pub component_type: String,
    pub data: Vec<u8>,
}

impl NetworkMessage for UpdateEntityComponent {
    open spec fn spec_name() -> Seq<char> {
        "eventwork::UpdateEntityComponent"@
    }

    fn name() -> (r: &'static str) {
        "eventwork::UpdateEntityComponent"
    }
}

/// A request to write one component of one entity, typed; it travels under
/// the component message's own name.
#[derive(Clone, Debug)]
pub struct TypedUpdateEntityComponent<T> {
    pub entity_id: u64,
    pub component: T,
}

impl<T: NetworkMessage> NetworkMessage for TypedUpdateEntityComponent<T> {
    open spec fn spec_name() -> Seq<char> {
        T::spec_name()
    }

    fn name() -> (r: &'static str) {
        T::name()
    }
}

/// A request for the entities that carry the given component types.
#[derive(Clone, Debug)]
pub struct DiscoverEntities {
    pub component_types: Vec<String>,
}

impl NetworkMessage for DiscoverEntities {
    open spec fn spec_name() -> Seq<char> {
        "eventwork::DiscoverEntities"@
    }

    fn name() -> (r: &'static str) {
        "eventwork::DiscoverEntities"
    }
}

/// One entity and the names of its component types.
#[derive(Clone, Debug)]
pub struct EntityInfo {
    pub id: u64,
    pub component_types: Vec<String>,
}

/// The answer to [`DiscoverEntities`].
#[derive(Clone, Debug)]
pub struct DiscoveredEntities {
    pub entities: Vec<EntityInfo>,
}

impl NetworkMessage for DiscoveredEntities {
    open spec fn spec_name() -> Seq<char> {
        "eventwork::DiscoveredEntities"@
    }

    fn name() -> (r: &'static str) {
        "eventwork::DiscoveredEntities"
    }
}

/// A request to hear of entities created or deleted.
#[derive(Clone, Debug)]
pub struct SubscribeToEntityChanges {
    pub component_types: Vec<String>,
}

impl NetworkMessage for SubscribeToEntityChanges {
    open spec fn spec_name() -> Seq<char> {
        "eventwork::SubscribeToEntityChanges"@
    }

    fn name() -> (r: &'static str) {
        "eventwork::SubscribeToEntityChanges"
    }
}

/// Notice of a new entity.
#[derive(Clone, Debug)]
pub struct EntityCreated {
    pub entity: EntityInfo,
}

impl NetworkMessage for EntityCreated {
    open spec fn spec_name() -> Seq<char> {
        "eventwork::EntityCreated"@
    }

    fn name() -> (r: &'static str) {
        "eventwork::EntityCreated"
    }
}

/// Notice of a deleted entity.
#[derive(Clone, Copy, Debug, PartialEq, Eq, Structural)]
pub struct EntityDeleted {
    pub entity_id: u64,
}

impl NetworkMessage for EntityDeleted {
    open spec fn spec_name() -> Seq<char> {
        "eventwork::EntityDeleted"@
    }

    fn name() -> (r: &'static str) {
        "eventwork::EntityDeleted"
    }
}

/// What went wrong in a reflection request.
#[derive(Clone, Copy, Debug, PartialEq, Eq, Structural)]
pub enum ReflectionErrorCode {
    EntityNotFound,
    ComponentNotFound,
    FieldPathNotFound,
    ValidationFailed,
    SerializationError,
    Other,
}

/// The error answer to a reflection request.
#[derive(Clone, Debug)]
pub struct ReflectionError {
    pub entity_id: Option<u64>,
    pub component_type: Option<String>,
    pub error_code: ReflectionErrorCode,
    pub message: String,
}

impl NetworkMessage for ReflectionError {
    open spec fn spec_name() -> Seq<char> {
        "eventwork::ReflectionError"@
    }

    fn name() -> (r: &'static str) {
        "eventwork::ReflectionError"
    }
}

} // verus!
