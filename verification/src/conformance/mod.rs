//! The conformance truth engine: what each provider is declared to do with a
//! schema, and how a schema fares against those declarations.
pub mod evaluate;
pub mod http;
pub mod load;
pub mod production;
pub mod truth;
