//! Truth declarations of one provider.
use vstd::prelude::*;

verus! {

/// Provider's declared handling strategy.
#[derive(Debug, Clone, Copy, PartialEq, Eq, Structural)]
pub enum ProviderBehavior {
    Strict,
    Permissive,
    Stripping,
}

/// What a provider does with one keyword.
#[derive(Debug, Clone, Copy, PartialEq, Eq, Structural)]
pub enum KeywordBehavior {
    Accept,
    Reject,
    Strip,
}

/// Who the provider is and how it treats what it does not support.
#[derive(Debug)]
pub struct ProviderInfo {
    pub name: String,
    pub version: String,
    pub endpoint: Option<String>,
    pub model: Option<String>,
    pub behavior: ProviderBehavior,
}

/// Per-keyword truth entry.
#[derive(Debug)]
pub struct KeywordTruth {
    pub name: String,
    pub behavior: KeywordBehavior,
    /// Inline JSON schema exercising this keyword.
    pub test_schema: String,
    /// Expected error message when behavior is Reject.
    pub expected_error: Option<String>,
    /// Expected JSON Pointer path for the error.
    pub expected_error_path: Option<String>,
    /// Expected transformed schema when behavior is Strip.
    pub expected_transformed: Option<String>,
}

/// Structural limit test case.
#[derive(Debug)]
pub struct StructuralTest {
    pub limit_name: String,
    pub test_schema: String,
    pub expected_behavior: KeywordBehavior,
    pub expected_error_path: Option<String>,
}

/// Top-level truth declaration for a single provider.
#[derive(Debug)]
pub struct ProviderTruth {
    pub provider: ProviderInfo,
    pub keywords: Vec<KeywordTruth>,
    pub structural_tests: Vec<StructuralTest>,
}

/// The text of an optional string.
pub open spec fn opt_text(o: Option<String>) -> Option<Seq<char>> {
    match o {
        Some(s) => Some(s@),
        None => None,
    }
}

/// The content of a `ProviderInfo`.
pub ghost struct ProviderInfoModel {
    pub name: Seq<char>,
    pub version: Seq<char>,
    pub endpoint: Option<Seq<char>>,
    pub model: Option<Seq<char>>,
    pub behavior: ProviderBehavior,
}

impl View for ProviderInfo {
    type V = ProviderInfoModel;

    open spec fn view(&self) -> ProviderInfoModel {
        ProviderInfoModel {
            name: self.name@,
            version: self.version@,
            endpoint: opt_text(self.endpoint),
            model: opt_text(self.model),
            behavior: self.behavior,
        }
    }
}

/// The content of a `KeywordTruth`.
pub ghost struct KeywordTruthModel {
    pub name: Seq<char>,
    pub behavior: KeywordBehavior,
    pub test_schema: Seq<char>,
    pub expected_error: Option<Seq<char>>,
    pub expected_error_path: Option<Seq<char>>,
    pub expected_transformed: Option<Seq<char>>,
}

impl View for KeywordTruth {
    type V = KeywordTruthModel;

    open spec fn view(&self) -> KeywordTruthModel {
        KeywordTruthModel {
            name: self.name@,
            behavior: self.behavior,
            test_schema: self.test_schema@,
            expected_error: opt_text(self.expected_error),
            expected_error_path: opt_text(self.expected_error_path),
            expected_transformed: opt_text(self.expected_transformed),
        }
    }
}

/// The content of a `StructuralTest`.
pub ghost struct StructuralTestModel {
    pub limit_name: Seq<char>,
    pub test_schema: Seq<char>,
    pub expected_behavior: KeywordBehavior,
    pub expected_error_path: Option<Seq<char>>,
}

impl View for StructuralTest {
    type V = StructuralTestModel;

    open spec fn view(&self) -> StructuralTestModel {
        StructuralTestModel {
            limit_name: self.limit_name@,
            test_schema: self.test_schema@,
            expected_behavior: self.expected_behavior,
            expected_error_path: opt_text(self.expected_error_path),
        }
    }
}

/// The models of keyword entries, one by one.
pub open spec fn keyword_models(v: Seq<KeywordTruth>) -> Seq<KeywordTruthModel> {
    Seq::new(v.len(), |i: int| v[i]@)
}

/// The models of structural tests, one by one.
pub open spec fn structural_models(v: Seq<StructuralTest>) -> Seq<StructuralTestModel> {
    Seq::new(v.len(), |i: int| v[i]@)
}

/// The content of a `ProviderTruth`.
pub ghost struct ProviderTruthModel {
    pub provider: ProviderInfoModel,
    pub keywords: Seq<KeywordTruthModel>,
    pub structural_tests: Seq<StructuralTestModel>,
}

impl View for ProviderTruth {
    type V = ProviderTruthModel;

    open spec fn view(&self) -> ProviderTruthModel {
        ProviderTruthModel {
            provider: self.provider@,
            keywords: keyword_models(self.keywords@),
            structural_tests: structural_models(self.structural_tests@),
        }
    }
}

} // verus!
