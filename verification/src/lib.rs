//! Core logic of an annotation-driven binary codec generator: attribute
//! parsing and validation, per-field encoding plans, the wire format itself
//! (encode/decode with a proven round trip), schema descriptors mirroring the
//! format, and the entry-point wrapper's status-code state machine.

pub mod attr;
pub mod bytes;
pub mod codec;
pub mod diag;
pub mod entry;
pub mod roundtrip;
pub mod schema;
pub mod shape;
