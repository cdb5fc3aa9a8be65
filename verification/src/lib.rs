//! Verified core of a line-oriented chat service.
//!
//! Clients connect over a stream transport, pick a username, and exchange
//! messages through global broadcast, private messages, and named rooms.
//! This crate holds the parts worth proving: the user registry and room
//! directory with their consistency invariant, the fan-out routing policy
//! that decides which connection observes which envelope, and the
//! command-dispatch step function that interprets one line of client input
//! against that shared state. Socket handling stays outside the crate.

pub mod commands;
pub mod dispatch;
pub mod envelope;
pub mod state;
pub mod text;
