//! Errors of normalization.
use vstd::prelude::*;

use crate::text::concat2;

verus! {

/// Why a schema could not be normalized.
#[derive(Debug)]
pub enum NormalizeError {
    ParseError(String),
    UnresolvedRef(String),
}

/// The content of a `NormalizeError`.
pub ghost enum NormalizeFault {
    ParseError(Seq<char>),
    UnresolvedRef(Seq<char>),
}

impl View for NormalizeError {
    type V = NormalizeFault;

    open spec fn view(&self) -> NormalizeFault {
        match self {
            NormalizeError::ParseError(m) => NormalizeFault::ParseError(m@),
            NormalizeError::UnresolvedRef(r) => NormalizeFault::UnresolvedRef(r@),
        }
    }
}

/// The display text of a normalization error.
pub open spec fn normalize_error_text(e: NormalizeFault) -> Seq<char> {
    match e {
        NormalizeFault::ParseError(m) => "parse error: "@ + m,
        NormalizeFault::UnresolvedRef(r) => "unresolved internal $ref: "@ + r,
    }
}

impl NormalizeError {
    /// The display text of the error.
    pub fn message(&self) -> (r: String)
        ensures
            r@ == normalize_error_text(self@),
    {
        match self {
            NormalizeError::ParseError(m) => concat2("parse error: ", m.as_str()),
            NormalizeError::UnresolvedRef(r) => concat2("unresolved internal $ref: ", r.as_str()),
        }
    }
}

} // verus!
