//! Core state of a multi-user chat service reached over a secure remote
//! shell: the identity registry that binds public keys to named entities,
//! the table of live sessions, the reverse index from key to session ids,
//! the shared broadcast history, and the transactional registry reload that
//! revokes sessions whose key has disappeared from the backing store.
//!
//! Everything here is plain state logic: transport, terminal rendering and
//! the backing-store parser live outside and talk to this crate through
//! plain values.

pub mod entity;
pub mod registry;
pub mod session;
pub mod state;
pub mod text;
pub mod hub;
pub mod manager;
pub mod reload;
pub mod input;
