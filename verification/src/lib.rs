//! Decoding of pcapng blocks from an in-memory byte buffer.
//!
//! Every decoder here is a total function on bytes: truncated or malformed
//! input is reported as a value, never by a panic, and every decoded record
//! borrows its byte spans from the buffer it was decoded from.

pub mod util;
pub mod error;
pub mod wire;
pub mod options;
pub mod block;
pub mod blocks;
