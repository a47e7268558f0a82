//! A round-based "where is this city?" game server core.
//!
//! The crate holds the sequential heart of the server: the table of connected
//! sessions, the round policy, the selection of a winner, and the small
//! decision procedures that drive the listener and the per-connection workers.
//! Sockets, threads, serialisation and the great-circle arithmetic live with
//! the caller, which feeds this crate plain values and carries out the
//! messages it hands back.

pub mod chat;
pub mod city;
pub mod client;
pub mod coordinate;
pub mod country;
pub mod game;
pub mod laws;
pub mod layout;
pub mod model;
pub mod protocol;
pub mod query;
pub mod random;
pub mod table;
pub mod text;
pub mod winner;
pub mod worker;
