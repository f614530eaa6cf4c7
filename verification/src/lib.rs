//! Authoritative-simulation core of a real-time multiplayer world.
//!
//! The server owns the single source of truth for all movable entities, a
//! binary wire protocol propagates changes, and a client-side mirror predicts
//! locally and reconciles against server broadcasts.

use vstd::prelude::*;

pub mod geometry;
pub mod beach_ball;
pub mod client;
pub mod client_state;
pub mod codec;
pub mod collision;
pub mod ids;
pub mod moderation;
pub mod network_object;
pub mod object;
pub mod server;
pub mod session;
pub mod world;

verus! {

/// Fixed period of one server simulation tick, in milliseconds.
pub const SERVER_TICK_RATE: u64 = 1000 / 60;

/// Longest chat message accepted by the server, in characters.
pub const MESSAGE_LIMIT: usize = 100;

/// Longest display name accepted by the server, in characters.
pub const NAME_LIMIT: usize = 16;

} // verus!
