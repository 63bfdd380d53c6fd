//! Shared pieces: configuration, chat message types, the session history
//! store and the local tools.
pub mod config;
pub mod types;
pub mod memory_store;
pub mod tools;
