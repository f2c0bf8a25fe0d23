//! Verified core of a reflection-driven state synchronization engine: the
//! wire types and framing, the server's registry, subscription manager,
//! snapshot and dispatch stages and mutation queue, and the client's
//! subscription tracker, raw store and mutation tracker.
pub mod ids;
pub mod messages;
pub mod codec;
pub mod names;
pub mod registry;
pub mod subscription;
pub mod dispatch;
pub mod order;
pub mod mutation;
pub mod client;
pub mod store;
pub mod tracker;
pub mod reflection;
pub mod component;
pub mod session;
