//! A pluggable, real-time game-session server core: the dispatch runtime that
//! owns connections, player identities and lobbies, guarantees identity
//! continuity across disconnects with signed reconnection tokens, serializes
//! every lobby mutation through one event step, schedules timer events, and
//! computes a minimal fan-out of state updates.
//!
//! All I/O (sockets, clocks) lives outside: callers feed events and plain
//! values in and carry the returned outbound frames to the wire.

pub mod auth;
pub mod client;
pub mod echo;
pub mod event_queue;
pub mod game_registry;
pub mod game_server;
pub mod game_state;
pub mod json;
pub mod protocol;
pub mod publish;
pub mod skull;

mod random;
