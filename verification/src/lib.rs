//! Turn-synchronization engine for a round-based multiplayer game server.
//!
//! The engine advances a game session in discrete rounds: it decides when a
//! round may close given asynchronously arriving player commands, connects
//! and disconnects, validates submitted commands against the authoritative
//! state, and applies them deterministically. All I/O (sockets, spawned
//! bot processes, JSON framing) lives outside this crate; the engine works
//! on plain values and is verified end to end.

pub mod barrier;
pub mod bot_runner;
pub mod driver;
pub mod protocol;
pub mod rules;
pub mod session;
