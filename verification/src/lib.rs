//! schemalint: lint JSON Schemas against the structured-output capability
//! profiles of LLM providers.
pub mod aggregate;
pub mod args;
pub mod builtin;
pub mod cache;
pub mod conformance;
pub mod detect;
pub mod diagnostic;
pub mod discovery;
pub mod docgen;
pub mod docs_url;
pub mod emit;
pub mod glob;
pub mod helper;
pub mod ingest;
pub mod json;
pub mod node_policy;
pub mod normalize;
pub mod plan;
pub mod pointer;
pub mod profile;
pub mod report;
pub mod server;
pub mod settings;
pub mod text;
pub mod toml_doc;
