//! Wire codec for the world-server layer of a legacy game network protocol.
//!
//! Every message type can be encoded into, and decoded from, the exact
//! little-endian byte layout that the game client expects, quirks included.
//!
//! Each type states its layout with the same few spec functions:
//! - `wire(&self)`: the bytes that `serialize` appends, padding written as
//!   zeros;
//! - `decodes(s, v)`: `s` is exactly the bytes that `deserialize` consumes
//!   when it yields `v` (padding and filler bytes may hold anything);
//! - `rejects(s)`, for types that can fail on more than length: the error
//!   that `deserialize` returns on the bytes `s` from its position to the end
//!   of the frame, or `None` where it succeeds;
//! - `wf(&self)`: the value can be encoded (strings fit their regions,
//!   counts fit their prefixes).
//!
//! `lemma_round_trip` of each type proves `decodes(m.wire(), m)` for every
//! well-formed `m`.
pub mod wire;
pub mod strings;
pub mod common;
pub mod server;
pub mod client;
