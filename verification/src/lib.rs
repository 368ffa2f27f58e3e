//! An in-memory index of user-selected folders and the images discovered
//! within them, together with a response broker that correlates asynchronous
//! thumbnail requests with their eventual responses.
//!
//! The index is mutated by a single logical actor that drains a command
//! queue, so every mutation is linearized; folder scanning and the broker's
//! two loops run concurrently around it.  This crate holds the data model,
//! the mutation logic and the broker's state machine; channels, filesystem
//! walking and the worker process live with the embedding application.

pub mod asset;
pub mod broker;
pub mod control;
pub mod frontend;
pub mod image;
pub mod keys;
pub mod models;
pub mod scanner;
pub mod store;
pub mod utils;
