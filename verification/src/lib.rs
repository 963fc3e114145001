//! Session engine of a two-player game server.
//!
//! The crate holds the decisions of the server: which datagrams are admitted,
//! how a payload is decoded into a request, who is registered, who waits for
//! a match and which rooms exist. Sockets, tasks and logging live with the
//! caller, which feeds plain values in and acts on the plain values it gets
//! back.

pub mod network;
