//! Server-side partition assignment and polling coordination for a
//! partitioned message broker.
//!
//! Producers append messages to partitioned, ordered logs; consumers --
//! standalone or organized into consumer groups -- poll those logs and track
//! their read progress. This crate holds the engine that resolves a poll or
//! commit request to a concrete consuming entity, maintains consumer-group
//! membership together with the invariant that each partition has at most one
//! owner within a group, tracks committed read offsets per entity and
//! partition, and dispatches poll requests to the correct partition log.
//!
//! Wire protocols, client SDKs and the physical storage engine are external
//! collaborators; only the logical read/append contract of the partition log
//! is modeled here.

pub mod assignment;
pub mod coordinator;
pub mod dispatcher;
pub mod errors;
pub mod group;
pub mod identifier;
pub mod log;
pub mod offsets;
pub mod polling_consumer;
pub mod sorted;
pub mod text;
