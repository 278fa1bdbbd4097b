//! Verified core of a small real-time presence/chat game server.
//!
//! The library holds everything that can be reasoned about as pure logic:
//! the wire message types, a binary codec with a proved round trip, the
//! deterministic identity allocator, the simulation actor (the single owner
//! of all player state, modelled as a state machine over its request stream),
//! and the per-connection session loop's decision logic.  The surrounding
//! process — sockets, threads, channels — lives outside and feeds this
//! library plain values.

pub mod messages;
pub mod codec;
pub mod names;
pub mod actor;
pub mod session;
