//! What a client needs to know of a component type, and the errors of its
//! type registry.
use vstd::prelude::*;

verus! {

/// A component type a client can receive: its short name on the wire.
pub trait SyncComponent {
    fn component_name() -> &'static str;
}

/// Why component bytes could not be turned into a value.
#[derive(Clone, Debug, PartialEq, Eq)]
pub enum DeserializeError {
    /// No type of this name is registered.
    TypeNotRegistered(String),
    /// The bytes did not decode as the registered type.
    BincodeError(String),
}

/// Why a value could not be turned into component bytes.
#[derive(Clone, Debug, PartialEq, Eq)]
pub enum SerializeError {
    /// No type of this name is registered.
    TypeNotRegistered(String),
    /// The value did not encode as the registered type.
    BincodeError(String),
}

} // verus!
