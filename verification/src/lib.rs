//! Verified core of a line-oriented chat relay.
//!
//! Clients connect, send raw bytes, and every payload is relayed to all other
//! connected clients. This crate holds the relay's logic: the client registry,
//! the dispatcher's event handling, and the per-connection translation of raw
//! reads into events. Sockets, threads and the event queue live outside; they
//! hand the core plain values and carry out the write actions it returns.

pub mod types;
pub mod registry;
pub mod dispatch;
pub mod handler;
pub mod runs;
pub mod utf8;
