//! A wire-protocol packet codec: schemas for packets and tagged variants are
//! plain data, interpreted by one generic encode/decode engine, and a registry
//! maps numeric packet identifiers to schemas for one traffic direction of one
//! protocol phase.

pub mod codec;
pub mod error;
pub mod fixed;
pub mod laws;
pub mod play;
pub mod registry;
pub mod schema;
pub mod textfmt;
pub mod value;
pub mod varint;
pub mod version;
