//! The deciding half of an encrypted packet connection.
//!
//! An [`EncryptedPacketConn`] wraps a network-level connection with end-to-end
//! encrypted sessions. Everything that waits (sockets, timers, tasks, the session
//! layer's cryptography) happens outside this crate. What to do next, what to keep
//! and what to hand to the caller is decided here, by small step functions from a
//! state and an event to the next state and the next action:
//!
//! - [`actions`]: what the session layer asks for;
//! - [`buffer`]: the bounded queue of decrypted messages that wait for a reader;
//! - [`conn`]: the connection itself, with its MTU;
//! - [`read`], [`write`], [`close`]: one `read_from`, `write_to` or `close` call;
//! - [`handler`], [`cleanup`]: the two background tasks;
//! - [`sessions`]: the listing of the active sessions;
//! - [`laws`]: what holds of these together.
mod types;

pub mod actions;
pub mod buffer;
pub mod cleanup;
pub mod close;
pub mod conn;
pub mod handler;
pub mod laws;
pub mod read;
pub mod sessions;
pub mod write;

pub use actions::OutAction;
pub use conn::EncryptedPacketConn;
pub use types::{Addr, Error, PublicKey, ReadPath};
