//! A verified core for a small store of versioned, signed records ("blocks"),
//! each addressed by an owner public key, a group name and a key name.
//!
//! The crate verifies the record model, the fixed-width string codec, the
//! hex codec used on the wire, the monotonic-version write policy and the
//! coordination of the record table, its indices and the payload heap.

pub mod block;
pub mod crypto;
pub mod db;
pub mod queries;
pub mod utils;
