//! A capability-registration layer over a node store.
//!
//! Node types may opt into a per-frame update routine by implementing the
//! [`node::Process`] capability.  The [`world::World`] facade detects that
//! capability per type when a node is spawned or its type is registered,
//! keeps an ordered registry of the identifiers of processable nodes, and
//! walks that registry once per external tick, resolving each identifier
//! resiliently: a stale identifier is skipped, never a fault.

pub mod node;
pub mod store;
pub mod world;
