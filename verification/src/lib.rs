//! FILINK: a half-duplex, byte-at-a-time file-transfer protocol for
//! asynchronous serial lines.
//!
//! The crate holds the two peer state machines (sender and receiver), the
//! shared wire vocabulary, the per-block XOR checksum discipline, and the
//! short-filename canonicalization used on both sides. Each engine's `step`
//! is verified against a transition-table spec function, and the protocol's
//! laws — checksum agreement, retransmit idempotence, ping-pong safety, and
//! the session round trip — are proved over those tables in [`laws`]. Real
//! serial-port and filesystem plumbing lives outside the library; the
//! engines talk to any byte transport that implements the serial-port
//! trait.

pub mod protocol;
pub mod serial;
pub mod filename;
pub mod sender;
pub mod receiver;
pub mod laws;
