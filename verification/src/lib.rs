//! A tiny in-memory key-value store with per-entry expiration, together with
//! the text-command interpreter and the per-connection session logic of a
//! small line-oriented server built around it.
//!
//! Time is modelled as an absolute timestamp in seconds, passed in by the
//! caller; the store itself never consults a clock.

pub mod store;
pub mod text;
pub mod command;
pub mod session;
pub mod laws;

pub use store::InMemoryDB;
