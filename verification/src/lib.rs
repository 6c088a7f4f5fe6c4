//! A Linda-style tuple space and the line protocol that serves it.
//!
//! Clients of a tuple space coordinate through three operations: `out`
//! inserts a tuple, `in` retrieves and removes a tuple that is compatible
//! with a pattern, and `rd` retrieves a copy of one. A query that finds
//! no compatible tuple waits until one is inserted.
//!
//! - [`tuple`]: tuples, their elements, and matching.
//! - [`store`]: resident tuples and waiting queries; what each operation
//!   does to them, and what follows from that.
//! - [`space`]: `out`, `in` and `rd` as handles that resolve at once or
//!   later.
//! - [`ast`], [`grammar`], [`render`], [`roundtrip`]: statements, how
//!   they are read from a line and written as text, and that reading
//!   undoes writing.
//! - [`server`]: the state machine of a connection, from the bytes of its
//!   channel to what it asks its transport to send.
//! - [`error`]: what a connection reports when a command fails.
//!
//! Every function states what it computes over the mathematical value of
//! its arguments, their view, and is proved to compute it. Nothing here
//! blocks, locks or does I/O: a program that serves a space to several
//! connections holds the space behind a lock and lends it to one
//! connection at a time.

pub mod ast;
pub mod error;
pub mod grammar;
pub mod render;
pub mod roundtrip;
pub mod server;
pub mod space;
pub mod store;
pub mod tuple;
