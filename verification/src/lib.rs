//! Authoritative server core for a real-time multiplayer session.
//!
//! The core tracks connected players, groups them into rooms, applies
//! client-submitted input under a monotonic sequence gate, advances player
//! state on a periodic simulation tick, and runs a small per-room vote
//! mechanism. All durable rows (rooms, active players, disconnected players)
//! live in a single [`store::GameState`] value; every public operation is a
//! transaction: it either commits its full effect or returns an error and
//! leaves the state untouched.

pub mod types;
pub mod store;
pub mod rooms;
pub mod session;
pub mod input;
pub mod votes;
pub mod tick;
pub mod init;
pub mod laws;
