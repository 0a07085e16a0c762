//! Serialization categories and a dependency graph of the public types of a Rust
//! code base: a classifier over serde facts, and a resolver that links each field's
//! type reference to one registry entry by naming conventions and fixed exceptions.

pub mod record;
pub mod text;
pub mod registry;
pub mod resolve;
pub mod graph;
pub mod csv;
pub mod types;
