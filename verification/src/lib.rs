//! A broadcast message relay core: length-delimited framing, a shared peer
//! registry with one ordered outbox per connection, a broadcast router that
//! fans a message out to every other registered peer, and the per-connection
//! session state machine that drives handshake, chat and teardown.
//!
//! All I/O — accepting transport connections, reading and writing the byte
//! streams, waking outbox consumers — lives outside this crate; the types
//! here hold the state and make every decision.
pub mod codec;
pub mod messages;
pub mod registry;
pub mod session;
