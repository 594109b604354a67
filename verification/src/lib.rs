//! Binary encoder for the frontend half of a database wire protocol.
//!
//! Each message kind is a struct; encoding appends one complete frame
//! (optional tag byte, big-endian length field, payload) to a caller-owned
//! byte buffer. Every encoder is verified against a byte-exact model of
//! the wire format.

pub mod frontend;
pub mod wire;
