//! Wire encoding for the AgentX master/subagent protocol.
//!
//! The library turns typed protocol data units into byte-exact wire
//! representations and parses untrusted byte buffers back into them. Every
//! decoder is total: malformed or truncated input yields [`Error::InvalidData`].
pub mod encodings;
pub mod pdu;
pub mod time;
pub mod wire;

pub use wire::{ByteOrder, Error};
