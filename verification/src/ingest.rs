//! What an ingestion helper reports: the schemas it discovered in source
//! code, with warnings, failures and counts.
use vstd::prelude::*;

use crate::diagnostic::SourceSpan;
use crate::json::JsonValue;

verus! {

/// A schema model discovered from source code (Pydantic or Zod).
#[derive(Debug)]
pub struct DiscoveredModel {
    pub name: String,
    pub source_module: String,
    pub schema: JsonValue,
    /// Source spans by JSON Pointer into the schema.
    pub source_map: Vec<(String, SourceSpan)>,
    pub canonical_kind: String,
    pub provider: ProviderResolution,
    /// Envelope fields by name.
    pub envelope: Vec<(String, EnvelopeField)>,
    pub usage_span: Option<SourceSpan>,
}

/// How sure the helper is of the provider a target is used with.
#[derive(Debug, Clone, Copy, PartialEq, Eq, Structural)]
pub enum ProviderCertainty {
    Definitive,
    Inferred,
    Ambiguous,
}

impl Default for ProviderCertainty {
    fn default() -> (r: Self)
        ensures
            r == ProviderCertainty::Ambiguous,
    {
        ProviderCertainty::Ambiguous
    }
}

/// An LLM provider a schema can be used with.
#[derive(Debug, Clone, Copy, PartialEq, Eq, Structural)]
pub enum Provider {
    Openai,
    Anthropic,
}

/// The provider of a target, with how sure the helper is of it.
#[derive(Debug, Clone, Copy, PartialEq, Eq, Structural)]
pub struct ProviderResolution {
    pub certainty: ProviderCertainty,
    pub provider: Option<Provider>,
}

impl Default for ProviderResolution {
    fn default() -> (r: Self)
        ensures
            r == (ProviderResolution { certainty: ProviderCertainty::Ambiguous, provider: None }),
    {
        ProviderResolution { certainty: ProviderCertainty::Ambiguous, provider: None }
    }
}

/// The provider a resolution settles on: none while it is ambiguous.
pub open spec fn owned_provider_of(r: ProviderResolution) -> Option<Provider> {
    if r.certainty == ProviderCertainty::Ambiguous {
        None
    } else {
        r.provider
    }
}

impl ProviderResolution {
    /// The provider this resolution settles on, if it is not ambiguous.
    pub fn owned_provider(&self) -> (r: Option<Provider>)
        ensures
            r == owned_provider_of(*self),
    {
        match self.certainty {
            ProviderCertainty::Ambiguous => None,
            _ => self.provider,
        }
    }
}

/// A field of the request envelope around a schema (such as `strict`).
#[derive(Debug, Clone, PartialEq, Eq)]
pub struct EnvelopeField {
    pub required: bool,
    pub resolved: bool,
    pub span: SourceSpan,
    pub value: Option<String>,
}

/// Response from an ingestion helper's `discover` JSON-RPC method.
#[derive(Debug)]
pub struct DiscoverResponse {
    pub models: Vec<DiscoveredModel>,
    pub warnings: Vec<DiscoveryWarning>,
    pub failures: Vec<DiscoveryFailure>,
    pub counts: DiscoveryCounts,
}

/// A non-fatal warning produced during discovery (e.g., unparseable schemas).
#[derive(Debug, Clone, PartialEq, Eq)]
pub struct DiscoveryWarning {
    pub model: String,
    pub message: String,
}

/// A target that was located but could not be evaluated into a schema.
#[derive(Debug, Clone, PartialEq, Eq)]
pub struct DiscoveryFailure {
    pub kind: DiscoveryFailureKind,
    pub target: String,
    pub message: String,
}

/// Why a located target could not be evaluated.
#[derive(Debug, Clone, Copy, PartialEq, Eq, Structural)]
pub enum DiscoveryFailureKind {
    Evaluation,
    Metadata,
}

impl Default for DiscoveryFailureKind {
    fn default() -> (r: Self)
        ensures
            r == DiscoveryFailureKind::Evaluation,
    {
        DiscoveryFailureKind::Evaluation
    }
}

/// Counts produced by one sidecar discovery request.
#[derive(Debug, Clone, Copy, PartialEq, Eq, Structural)]
pub struct DiscoveryCounts {
    pub attempted: usize,
    pub excluded: usize,
    pub discovered: usize,
    pub failed: usize,
}

impl Default for DiscoveryCounts {
    fn default() -> (r: Self)
        ensures
            r == (DiscoveryCounts { attempted: 0, excluded: 0, discovered: 0, failed: 0 }),
    {
        DiscoveryCounts { attempted: 0, excluded: 0, discovered: 0, failed: 0 }
    }
}

} // verus!
