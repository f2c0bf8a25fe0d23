//! Identifiers shared by the server and its clients.
use vstd::prelude::*;

verus! {

/// The reserved bits of [`SerializableEntity::DANGLING`].
pub const DANGLING_BITS: u64 = 0xffff_ffff_ffff_ffff;

/// The reserved id of the server itself, used to authorize its own mutations.
pub const SERVER_CONNECTION: u32 = 0;

/// A stable 64-bit handle naming one server-side entity.
#[derive(Clone, Copy, Debug, PartialEq, Eq, Hash, Structural)]
pub struct SerializableEntity {
    pub bits: u64,
}

impl SerializableEntity {
    /// The sentinel that asks the server to spawn a new entity.
    pub fn dangling() -> (r: SerializableEntity)
        ensures
            r.bits == DANGLING_BITS,
    {
        SerializableEntity { bits: DANGLING_BITS }
    }

    pub open spec fn spec_is_dangling(self) -> bool {
        self.bits == DANGLING_BITS
    }

    pub fn is_dangling(&self) -> (r: bool)
        ensures
            r == self.spec_is_dangling(),
    {
        self.bits == DANGLING_BITS
    }
}

/// A per-provider connection number; `0` is reserved for the server itself.
#[derive(Clone, Copy, Debug, PartialEq, Eq, Hash, Structural)]
pub struct ConnectionId {
    pub id: u32,
}

impl ConnectionId {
    /// The connection that stands for the server's own mutations.
    pub fn server() -> (r: ConnectionId)
        ensures
            r.id == SERVER_CONNECTION,
    {
        ConnectionId { id: SERVER_CONNECTION }
    }

    pub open spec fn spec_is_server(self) -> bool {
        self.id == SERVER_CONNECTION
    }

    pub fn is_server(&self) -> (r: bool)
        ensures
            r == self.spec_is_server(),
    {
        self.id == SERVER_CONNECTION
    }
}

} // verus!
