//! Normalizing a JSON Schema into a canonical IR graph.
pub mod arena;
pub mod pipeline;
pub mod defs;
pub mod desugar;
pub mod dialect;
pub mod error;
pub mod refs;
pub mod ref_laws;
pub mod slot_laws;
pub mod traverse;
