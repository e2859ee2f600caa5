//! Reading truth declarations from TOML text.
use vstd::prelude::*;

use crate::conformance::truth::{
    keyword_models, structural_models, KeywordBehavior, KeywordTruth, KeywordTruthModel,
    ProviderBehavior, ProviderInfo, ProviderInfoModel, ProviderTruth, ProviderTruthModel,
    StructuralTest, StructuralTestModel,
};
use crate::json::{json_document, parse_json_text, JsonModel};
use crate::text::{concat2, concat3, owned, str_eq};
use crate::toml_doc::{
    entries_model, lemma_array_model, lemma_table_model, parse_toml_document, table_get,
    toml_document, toml_get, toml_model, toml_models, TomlModel, TomlValue,
};

verus! {

/// Errors that can occur when loading a truth file.
#[derive(Debug)]
pub enum TruthLoadError {
    Io(String),
    Parse(String),
    InvalidSchema(String, String),
}

/// The content of a `TruthLoadError`.
pub ghost enum TruthLoadFault {
    Io(Seq<char>),
    Parse(Seq<char>),
    InvalidSchema(Seq<char>, Seq<char>),
}

impl View for TruthLoadError {
    type V = TruthLoadFault;

    open spec fn view(&self) -> TruthLoadFault {
        match self {
            TruthLoadError::Io(m) => TruthLoadFault::Io(m@),
            TruthLoadError::Parse(m) => TruthLoadFault::Parse(m@),
            TruthLoadError::InvalidSchema(n, m) => TruthLoadFault::InvalidSchema(n@, m@),
        }
    }
}

/// The display text of a load error.
pub open spec fn load_error_text(e: TruthLoadFault) -> Seq<char> {
    match e {
        TruthLoadFault::Io(m) => "IO error: "@ + m,
        TruthLoadFault::Parse(m) => "Parse error: "@ + m,
        TruthLoadFault::InvalidSchema(n, m) => "Invalid test schema for '"@ + n + "': "@ + m,
    }
}

impl TruthLoadError {
    /// The display text of the error.
    pub fn message(&self) -> (r: String)
        ensures
            r@ == load_error_text(self@),
    {
        match self {
            TruthLoadError::Io(m) => concat2("IO error: ", m.as_str()),
            TruthLoadError::Parse(m) => concat2("Parse error: ", m.as_str()),
            TruthLoadError::InvalidSchema(n, m) => {
                let a = concat3("Invalid test schema for '", n.as_str(), "': ");
                concat2(a.as_str(), m.as_str())
            },
        }
    }
}

// ---------------------------------------------------------------------------
// What a truth document holds
// ---------------------------------------------------------------------------

pub open spec fn missing_field(key: Seq<char>) -> Seq<char> {
    "missing field `"@ + key + "`"@
}

pub open spec fn invalid_field(key: Seq<char>) -> Seq<char> {
    "invalid type for field `"@ + key + "`"@
}

pub open spec fn unknown_variant(key: Seq<char>) -> Seq<char> {
    "unknown variant for field `"@ + key + "`"@
}

/// A required string field.
pub open spec fn text_field(t: Seq<(Seq<char>, TomlModel)>, key: Seq<char>) -> Result<Seq<char>, Seq<char>> {
    match toml_get(t, key) {
        None => Err(missing_field(key)),
        Some(TomlModel::Str(s)) => Ok(s),
        Some(_) => Err(invalid_field(key)),
    }
}

/// An optional string field.
pub open spec fn opt_text_field(t: Seq<(Seq<char>, TomlModel)>, key: Seq<char>) -> Result<Option<Seq<char>>, Seq<char>> {
    match toml_get(t, key) {
        None => Ok(None),
        Some(TomlModel::Str(s)) => Ok(Some(s)),
        Some(_) => Err(invalid_field(key)),
    }
}

/// The keyword behavior a lowercase name stands for.
pub open spec fn keyword_behavior_named(s: Seq<char>) -> Option<KeywordBehavior> {
    if s == "accept"@ {
        Some(KeywordBehavior::Accept)
    } else if s == "reject"@ {
        Some(KeywordBehavior::Reject)
    } else if s == "strip"@ {
        Some(KeywordBehavior::Strip)
    } else {
        None
    }
}

/// The provider behavior a lowercase name stands for.
pub open spec fn provider_behavior_named(s: Seq<char>) -> Option<ProviderBehavior> {
    if s == "strict"@ {
        Some(ProviderBehavior::Strict)
    } else if s == "permissive"@ {
        Some(ProviderBehavior::Permissive)
    } else if s == "stripping"@ {
        Some(ProviderBehavior::Stripping)
    } else {
        None
    }
}

pub open spec fn keyword_behavior_field(t: Seq<(Seq<char>, TomlModel)>, key: Seq<char>) -> Result<KeywordBehavior, Seq<char>> {
    match text_field(t, key) {
        Err(e) => Err(e),
        Ok(s) => match keyword_behavior_named(s) {
            Some(b) => Ok(b),
            None => Err(unknown_variant(key)),
        },
    }
}

pub open spec fn provider_behavior_field(t: Seq<(Seq<char>, TomlModel)>, key: Seq<char>) -> Result<ProviderBehavior, Seq<char>> {
    match text_field(t, key) {
        Err(e) => Err(e),
        Ok(s) => match provider_behavior_named(s) {
            Some(b) => Ok(b),
            None => Err(unknown_variant(key)),
        },
    }
}

/// The `[provider]` table, its fields read in declaration order.
pub open spec fn provider_info_of(t: Seq<(Seq<char>, TomlModel)>) -> Result<ProviderInfoModel, Seq<char>> {
    match text_field(t, "name"@) {
        Err(e) => Err(e),
        Ok(name) => match text_field(t, "version"@) {
            Err(e) => Err(e),
            Ok(version) => match opt_text_field(t, "endpoint"@) {
                Err(e) => Err(e),
                Ok(endpoint) => match opt_text_field(t, "model"@) {
                    Err(e) => Err(e),
                    Ok(model) => match provider_behavior_field(t, "behavior"@) {
                        Err(e) => Err(e),
                        Ok(behavior) => Ok(ProviderInfoModel { name, version, endpoint, model, behavior }),
                    },
                },
            },
        },
    }
}

/// One `[[keywords]]` table, its fields read in declaration order.
pub open spec fn keyword_truth_of(t: Seq<(Seq<char>, TomlModel)>) -> Result<KeywordTruthModel, Seq<char>> {
    match text_field(t, "name"@) {
        Err(e) => Err(e),
        Ok(name) => match keyword_behavior_field(t, "behavior"@) {
            Err(e) => Err(e),
            Ok(behavior) => match text_field(t, "test_schema"@) {
                Err(e) => Err(e),
                Ok(test_schema) => match opt_text_field(t, "expected_error"@) {
                    Err(e) => Err(e),
                    Ok(expected_error) => match opt_text_field(t, "expected_error_path"@) {
                        Err(e) => Err(e),
                        Ok(expected_error_path) => match opt_text_field(t, "expected_transformed"@) {
                            Err(e) => Err(e),
                            Ok(expected_transformed) => Ok(KeywordTruthModel {
                                name,
                                behavior,
                                test_schema,
                                expected_error,
                                expected_error_path,
                                expected_transformed,
                            }),
                        },
                    },
                },
            },
        },
    }
}

/// One `[[structural_tests]]` table, its fields read in declaration order.
pub open spec fn structural_test_of(t: Seq<(Seq<char>, TomlModel)>) -> Result<StructuralTestModel, Seq<char>> {
    match text_field(t, "limit_name"@) {
        Err(e) => Err(e),
        Ok(limit_name) => match text_field(t, "test_schema"@) {
            Err(e) => Err(e),
            Ok(test_schema) => match keyword_behavior_field(t, "expected_behavior"@) {
                Err(e) => Err(e),
                Ok(expected_behavior) => match opt_text_field(t, "expected_error_path"@) {
                    Err(e) => Err(e),
                    Ok(expected_error_path) => Ok(StructuralTestModel {
                        limit_name,
                        test_schema,
                        expected_behavior,
                        expected_error_path,
                    }),
                },
            },
        },
    }
}

/// The `keywords` array, failing with the first element that fails.
pub open spec fn keyword_list_of(items: Seq<TomlModel>) -> Result<Seq<KeywordTruthModel>, Seq<char>>
    decreases items.len(),
{
    if items.len() == 0 {
        Ok(Seq::empty())
    } else {
        match keyword_list_of(items.drop_last()) {
            Err(e) => Err(e),
            Ok(front) => match items.last() {
                TomlModel::Table(t) => match keyword_truth_of(t) {
                    Err(e) => Err(e),
                    Ok(k) => Ok(front.push(k)),
                },
                _ => Err(invalid_field("keywords"@)),
            },
        }
    }
}

/// The `structural_tests` array, failing with the first element that fails.
pub open spec fn structural_list_of(items: Seq<TomlModel>) -> Result<Seq<StructuralTestModel>, Seq<char>>
    decreases items.len(),
{
    if items.len() == 0 {
        Ok(Seq::empty())
    } else {
        match structural_list_of(items.drop_last()) {
            Err(e) => Err(e),
            Ok(front) => match items.last() {
                TomlModel::Table(t) => match structural_test_of(t) {
                    Err(e) => Err(e),
                    Ok(k) => Ok(front.push(k)),
                },
                _ => Err(invalid_field("structural_tests"@)),
            },
        }
    }
}

/// The declarations of a truth document: `[provider]` is required, the two
/// arrays default to empty, other keys are ignored.
pub open spec fn provider_truth_of(root: TomlModel) -> Result<ProviderTruthModel, Seq<char>> {
    match root {
        TomlModel::Table(t) => match toml_get(t, "provider"@) {
            None => Err(missing_field("provider"@)),
            Some(TomlModel::Table(pt)) => match provider_info_of(pt) {
                Err(e) => Err(e),
                Ok(provider) => match toml_get(t, "keywords"@) {
                    Some(TomlModel::Array(ks)) => match keyword_list_of(ks) {
                        Err(e) => Err(e),
                        Ok(keywords) => structural_part(t, provider, keywords),
                    },
                    None => structural_part(t, provider, Seq::empty()),
                    Some(_) => Err(invalid_field("keywords"@)),
                },
            },
            Some(_) => Err(invalid_field("provider"@)),
        },
        _ => Err(invalid_field("provider"@)),
    }
}

pub open spec fn structural_part(
    t: Seq<(Seq<char>, TomlModel)>,
    provider: ProviderInfoModel,
    keywords: Seq<KeywordTruthModel>,
) -> Result<ProviderTruthModel, Seq<char>> {
    match toml_get(t, "structural_tests"@) {
        Some(TomlModel::Array(ss)) => match structural_list_of(ss) {
            Err(e) => Err(e),
            Ok(structural_tests) => Ok(ProviderTruthModel { provider, keywords, structural_tests }),
        },
        None => Ok(ProviderTruthModel { provider, keywords, structural_tests: Seq::empty() }),
        Some(_) => Err(invalid_field("structural_tests"@)),
    }
}

/// The JSON error of a keyword entry's inline schemas, if any.
pub open spec fn keyword_schema_fault(k: KeywordTruthModel) -> Option<Seq<char>> {
    match json_document(k.test_schema) {
        Err(m) => Some(m),
        Ok(_) => match k.expected_transformed {
            Some(x) => match json_document(x) {
                Err(m) => Some(m),
                Ok(_) => None,
            },
            None => None,
        },
    }
}

/// The first keyword entry whose inline schemas are not JSON, with the error.
pub open spec fn first_keyword_fault(kws: Seq<KeywordTruthModel>) -> Option<(Seq<char>, Seq<char>)>
    decreases kws.len(),
{
    if kws.len() == 0 {
        None
    } else {
        match first_keyword_fault(kws.drop_last()) {
            Some(f) => Some(f),
            None => match keyword_schema_fault(kws.last()) {
                Some(m) => Some((kws.last().name, m)),
                None => None,
            },
        }
    }
}

/// The first structural test whose schema is not JSON, with the error.
pub open spec fn first_structural_fault(sts: Seq<StructuralTestModel>) -> Option<(Seq<char>, Seq<char>)>
    decreases sts.len(),
{
    if sts.len() == 0 {
        None
    } else {
        match first_structural_fault(sts.drop_last()) {
            Some(f) => Some(f),
            None => match json_document(sts.last().test_schema) {
                Err(m) => Some((sts.last().limit_name, m)),
                Ok(_) => None,
            },
        }
    }
}

/// What parsing a truth text gives: the declarations, a parse error, or the
/// first inline schema that is not JSON.
pub open spec fn truth_of_text(text: Seq<char>) -> Result<ProviderTruthModel, TruthLoadFault> {
    match toml_document(text) {
        Err(m) => Err(TruthLoadFault::Parse(m)),
        Ok(root) => match provider_truth_of(root) {
            Err(m) => Err(TruthLoadFault::Parse(m)),
            Ok(t) => match first_keyword_fault(t.keywords) {
                Some((n, m)) => Err(TruthLoadFault::InvalidSchema(n, m)),
                None => match first_structural_fault(t.structural_tests) {
                    Some((n, m)) => Err(TruthLoadFault::InvalidSchema(n, m)),
                    None => Ok(t),
                },
            },
        },
    }
}

// ---------------------------------------------------------------------------
// Reading it
// ---------------------------------------------------------------------------

fn text_field_exec(t: &Vec<(String, TomlValue)>, key: &str) -> (r: Result<String, String>)
    ensures
        match r {
            Ok(s) => text_field(entries_model(t@), key@) == Ok::<Seq<char>, Seq<char>>(s@),
            Err(e) => text_field(entries_model(t@), key@) == Err::<Seq<char>, Seq<char>>(e@),
        },
{
    match table_get(t, key) {
        None => Err(concat3("missing field `", key, "`")),
        Some(TomlValue::String(s)) => Ok(owned(s.as_str())),
        Some(_) => Err(concat3("invalid type for field `", key, "`")),
    }
}

fn opt_text_field_exec(t: &Vec<(String, TomlValue)>, key: &str) -> (r: Result<Option<String>, String>)
    ensures
        match r {
            Ok(Some(s)) => opt_text_field(entries_model(t@), key@) == Ok::<Option<Seq<char>>, Seq<char>>(Some(s@)),
            Ok(None) => opt_text_field(entries_model(t@), key@) == Ok::<Option<Seq<char>>, Seq<char>>(None),
            Err(e) => opt_text_field(entries_model(t@), key@) == Err::<Option<Seq<char>>, Seq<char>>(e@),
        },
{
    match table_get(t, key) {
        None => Ok(None),
        Some(TomlValue::String(s)) => Ok(Some(owned(s.as_str()))),
        Some(_) => Err(concat3("invalid type for field `", key, "`")),
    }
}

fn keyword_behavior_exec(t: &Vec<(String, TomlValue)>, key: &str) -> (r: Result<KeywordBehavior, String>)
    ensures
        match r {
            Ok(b) => keyword_behavior_field(entries_model(t@), key@) == Ok::<KeywordBehavior, Seq<char>>(b),
            Err(e) => keyword_behavior_field(entries_model(t@), key@) == Err::<KeywordBehavior, Seq<char>>(e@),
        },
{
    match text_field_exec(t, key) {
        Err(e) => Err(e),
        Ok(s) => {
            if str_eq(s.as_str(), "accept") {
                Ok(KeywordBehavior::Accept)
            } else if str_eq(s.as_str(), "reject") {
                Ok(KeywordBehavior::Reject)
            } else if str_eq(s.as_str(), "strip") {
                Ok(KeywordBehavior::Strip)
            } else {
                Err(concat3("unknown variant for field `", key, "`"))
            }
        },
    }
}

fn provider_behavior_exec(t: &Vec<(String, TomlValue)>, key: &str) -> (r: Result<ProviderBehavior, String>)
    ensures
        match r {
            Ok(b) => provider_behavior_field(entries_model(t@), key@) == Ok::<ProviderBehavior, Seq<char>>(b),
            Err(e) => provider_behavior_field(entries_model(t@), key@) == Err::<ProviderBehavior, Seq<char>>(e@),
        },
{
    match text_field_exec(t, key) {
        Err(e) => Err(e),
        Ok(s) => {
            if str_eq(s.as_str(), "strict") {
                Ok(ProviderBehavior::Strict)
            } else if str_eq(s.as_str(), "permissive") {
                Ok(ProviderBehavior::Permissive)
            } else if str_eq(s.as_str(), "stripping") {
                Ok(ProviderBehavior::Stripping)
            } else {
                Err(concat3("unknown variant for field `", key, "`"))
            }
        },
    }
}

fn provider_info_exec(t: &Vec<(String, TomlValue)>) -> (r: Result<ProviderInfo, String>)
    ensures
        match r {
            Ok(p) => provider_info_of(entries_model(t@)) == Ok::<ProviderInfoModel, Seq<char>>(p@),
            Err(e) => provider_info_of(entries_model(t@)) == Err::<ProviderInfoModel, Seq<char>>(e@),
        },
{
    let name = match text_field_exec(t, "name") {
        Ok(v) => v,
        Err(e) => return Err(e),
    };
    let version = match text_field_exec(t, "version") {
        Ok(v) => v,
        Err(e) => return Err(e),
    };
    let endpoint = match opt_text_field_exec(t, "endpoint") {
        Ok(v) => v,
        Err(e) => return Err(e),
    };
    let model = match opt_text_field_exec(t, "model") {
        Ok(v) => v,
        Err(e) => return Err(e),
    };
    let behavior = match provider_behavior_exec(t, "behavior") {
        Ok(v) => v,
        Err(e) => return Err(e),
    };
    Ok(ProviderInfo { name, version, endpoint, model, behavior })
}

fn keyword_truth_exec(t: &Vec<(String, TomlValue)>) -> (r: Result<KeywordTruth, String>)
    ensures
        match r {
            Ok(k) => keyword_truth_of(entries_model(t@)) == Ok::<KeywordTruthModel, Seq<char>>(k@),
            Err(e) => keyword_truth_of(entries_model(t@)) == Err::<KeywordTruthModel, Seq<char>>(e@),
        },
{
    let name = match text_field_exec(t, "name") {
        Ok(v) => v,
        Err(e) => return Err(e),
    };
    let behavior = match keyword_behavior_exec(t, "behavior") {
        Ok(v) => v,
        Err(e) => return Err(e),
    };
    let test_schema = match text_field_exec(t, "test_schema") {
        Ok(v) => v,
        Err(e) => return Err(e),
    };
    let expected_error = match opt_text_field_exec(t, "expected_error") {
        Ok(v) => v,
        Err(e) => return Err(e),
    };
    let expected_error_path = match opt_text_field_exec(t, "expected_error_path") {
        Ok(v) => v,
        Err(e) => return Err(e),
    };
    let expected_transformed = match opt_text_field_exec(t, "expected_transformed") {
        Ok(v) => v,
        Err(e) => return Err(e),
    };
    Ok(KeywordTruth { name, behavior, test_schema, expected_error, expected_error_path, expected_transformed })
}

fn structural_test_exec(t: &Vec<(String, TomlValue)>) -> (r: Result<StructuralTest, String>)
    ensures
        match r {
            Ok(k) => structural_test_of(entries_model(t@)) == Ok::<StructuralTestModel, Seq<char>>(k@),
            Err(e) => structural_test_of(entries_model(t@)) == Err::<StructuralTestModel, Seq<char>>(e@),
        },
{
    let limit_name = match text_field_exec(t, "limit_name") {
        Ok(v) => v,
        Err(e) => return Err(e),
    };
    let test_schema = match text_field_exec(t, "test_schema") {
        Ok(v) => v,
        Err(e) => return Err(e),
    };
    let expected_behavior = match keyword_behavior_exec(t, "expected_behavior") {
        Ok(v) => v,
        Err(e) => return Err(e),
    };
    let expected_error_path = match opt_text_field_exec(t, "expected_error_path") {
        Ok(v) => v,
        Err(e) => return Err(e),
    };
    Ok(StructuralTest { limit_name, test_schema, expected_behavior, expected_error_path })
}

proof fn lemma_keyword_list_err_sticks(s: Seq<TomlModel>, i: int)
    requires
        0 <= i <= s.len(),
        keyword_list_of(s.take(i)) is Err,
    ensures
        keyword_list_of(s) == keyword_list_of(s.take(i)),
    decreases s.len() - i,
{
    if i < s.len() {
        assert(s.take(i + 1).drop_last() =~= s.take(i));
        lemma_keyword_list_err_sticks(s, i + 1);
    } else {
        assert(s.take(i) =~= s);
    }
}

proof fn lemma_structural_list_err_sticks(s: Seq<TomlModel>, i: int)
    requires
        0 <= i <= s.len(),
        structural_list_of(s.take(i)) is Err,
    ensures
        structural_list_of(s) == structural_list_of(s.take(i)),
    decreases s.len() - i,
{
    if i < s.len() {
        assert(s.take(i + 1).drop_last() =~= s.take(i));
        lemma_structural_list_err_sticks(s, i + 1);
    } else {
        assert(s.take(i) =~= s);
    }
}

fn keyword_list_exec(items: &Vec<TomlValue>) -> (r: Result<Vec<KeywordTruth>, String>)
    ensures
        match r {
            Ok(v) => keyword_list_of(toml_models(items@)) == Ok::<Seq<KeywordTruthModel>, Seq<char>>(keyword_models(v@)),
            Err(e) => keyword_list_of(toml_models(items@)) == Err::<Seq<KeywordTruthModel>, Seq<char>>(e@),
        },
{
    let ghost ms = toml_models(items@);
    let mut out: Vec<KeywordTruth> = Vec::new();
    let mut i: usize = 0;
    assert(ms.take(0) =~= Seq::<TomlModel>::empty());
    assert(keyword_models(out@) =~= Seq::<KeywordTruthModel>::empty());
    while i < items.len()
        invariant
            i <= items.len(),
            ms == toml_models(items@),
            keyword_list_of(ms.take(i as int)) == Ok::<Seq<KeywordTruthModel>, Seq<char>>(keyword_models(out@)),
        decreases items.len() - i,
    {
        assert(ms.take(i + 1).drop_last() =~= ms.take(i as int));
        assert(ms.take(i + 1).last() == toml_model(items@[i as int]));
        match &items[i] {
            TomlValue::Table(t) => {
                proof {
                    lemma_table_model(*t);
                }
                match keyword_truth_exec(t) {
                    Ok(k) => {
                        let ghost before = out@;
                        out.push(k);
                        assert(keyword_models(out@) =~= keyword_models(before).push(k@));
                    },
                    Err(e) => {
                        proof {
                            lemma_keyword_list_err_sticks(ms, i + 1);
                            assert(ms.take(items.len() as int) =~= ms);
                        }
                        return Err(e);
                    },
                }
            },
            _ => {
                proof {
                    lemma_keyword_list_err_sticks(ms, i + 1);
                    assert(ms.take(items.len() as int) =~= ms);
                }
                return Err(concat3("invalid type for field `", "keywords", "`"));
            },
        }
        i = i + 1;
    }
    assert(ms.take(items.len() as int) =~= ms);
    Ok(out)
}

fn structural_list_exec(items: &Vec<TomlValue>) -> (r: Result<Vec<StructuralTest>, String>)
    ensures
        match r {
            Ok(v) => structural_list_of(toml_models(items@)) == Ok::<Seq<StructuralTestModel>, Seq<char>>(structural_models(v@)),
            Err(e) => structural_list_of(toml_models(items@)) == Err::<Seq<StructuralTestModel>, Seq<char>>(e@),
        },
{
    let ghost ms = toml_models(items@);
    let mut out: Vec<StructuralTest> = Vec::new();
    let mut i: usize = 0;
    assert(ms.take(0) =~= Seq::<TomlModel>::empty());
    assert(structural_models(out@) =~= Seq::<StructuralTestModel>::empty());
    while i < items.len()
        invariant
            i <= items.len(),
            ms == toml_models(items@),
            structural_list_of(ms.take(i as int)) == Ok::<Seq<StructuralTestModel>, Seq<char>>(structural_models(out@)),
        decreases items.len() - i,
    {
        assert(ms.take(i + 1).drop_last() =~= ms.take(i as int));
        assert(ms.take(i + 1).last() == toml_model(items@[i as int]));
        match &items[i] {
            TomlValue::Table(t) => {
                proof {
                    lemma_table_model(*t);
                }
                match structural_test_exec(t) {
                    Ok(k) => {
                        let ghost before = out@;
                        out.push(k);
                        assert(structural_models(out@) =~= structural_models(before).push(k@));
                    },
                    Err(e) => {
                        proof {
                            lemma_structural_list_err_sticks(ms, i + 1);
                            assert(ms.take(items.len() as int) =~= ms);
                        }
                        return Err(e);
                    },
                }
            },
            _ => {
                proof {
                    lemma_structural_list_err_sticks(ms, i + 1);
                    assert(ms.take(items.len() as int) =~= ms);
                }
                return Err(concat3("invalid type for field `", "structural_tests", "`"));
            },
        }
        i = i + 1;
    }
    assert(ms.take(items.len() as int) =~= ms);
    Ok(out)
}

/// The declarations of a parsed truth document, as `provider_truth_of` states.
fn provider_truth_exec(root: &TomlValue) -> (r: Result<ProviderTruth, String>)
    ensures
        match r {
            Ok(t) => provider_truth_of(root@) == Ok::<ProviderTruthModel, Seq<char>>(t@),
            Err(e) => provider_truth_of(root@) == Err::<ProviderTruthModel, Seq<char>>(e@),
        },
{
    let t = match root {
        TomlValue::Table(t) => t,
        _ => return Err(concat3("invalid type for field `", "provider", "`")),
    };
    proof {
        lemma_table_model(*t);
    }
    let provider = match table_get(t, "provider") {
        None => return Err(concat3("missing field `", "provider", "`")),
        Some(TomlValue::Table(pt)) => {
            proof {
                lemma_table_model(*pt);
            }
            match provider_info_exec(pt) {
                Ok(p) => p,
                Err(e) => return Err(e),
            }
        },
        Some(_) => return Err(concat3("invalid type for field `", "provider", "`")),
    };
    let keywords = match table_get(t, "keywords") {
        None => Vec::new(),
        Some(TomlValue::Array(ks)) => {
            proof {
                lemma_array_model(*ks);
                assert(Seq::new(ks.len() as nat, |i: int| toml_model(ks@[i])) =~= toml_models(ks@));
            }
            match keyword_list_exec(ks) {
                Ok(v) => v,
                Err(e) => return Err(e),
            }
        },
        Some(_) => return Err(concat3("invalid type for field `", "keywords", "`")),
    };
    assert(keyword_models(keywords@) =~= keyword_models(keywords@));
    let structural_tests = match table_get(t, "structural_tests") {
        None => Vec::new(),
        Some(TomlValue::Array(ss)) => {
            proof {
                lemma_array_model(*ss);
                assert(Seq::new(ss.len() as nat, |i: int| toml_model(ss@[i])) =~= toml_models(ss@));
            }
            match structural_list_exec(ss) {
                Ok(v) => v,
                Err(e) => return Err(e),
            }
        },
        Some(_) => return Err(concat3("invalid type for field `", "structural_tests", "`")),
    };
    let r = ProviderTruth { provider, keywords, structural_tests };
    assert(keyword_models(Seq::<KeywordTruth>::empty()) =~= Seq::empty());
    assert(structural_models(Seq::<StructuralTest>::empty()) =~= Seq::empty());
    Ok(r)
}

/// The first keyword entry whose inline schemas are not JSON.
fn keyword_schema_faults(kws: &Vec<KeywordTruth>) -> (r: Option<(String, String)>)
    ensures
        match r {
            Some((n, m)) => first_keyword_fault(keyword_models(kws@)) == Some((n@, m@)),
            None => first_keyword_fault(keyword_models(kws@)) is None,
        },
{
    let ghost ms = keyword_models(kws@);
    let mut i: usize = 0;
    assert(ms.take(0) =~= Seq::<KeywordTruthModel>::empty());
    while i < kws.len()
        invariant
            i <= kws.len(),
            ms == keyword_models(kws@),
            first_keyword_fault(ms.take(i as int)) is None,
        decreases kws.len() - i,
    {
        assert(ms.take(i + 1).drop_last() =~= ms.take(i as int));
        assert(ms.take(i + 1).last() == kws@[i as int]@);
        let k = &kws[i];
        let fault = match parse_json_text(k.test_schema.as_str()) {
            Err(m) => Some(m),
            Ok(_) => match &k.expected_transformed {
                Some(x) => match parse_json_text(x.as_str()) {
                    Err(m) => Some(m),
                    Ok(_) => None,
                },
                None => None,
            },
        };
        match fault {
            Some(m) => {
                proof {
                    lemma_keyword_fault_sticks(ms, i + 1);
                }
                return Some((owned(k.name.as_str()), m));
            },
            None => {},
        }
        i = i + 1;
    }
    assert(ms.take(kws.len() as int) =~= ms);
    None
}

proof fn lemma_keyword_fault_sticks(s: Seq<KeywordTruthModel>, i: int)
    requires
        0 <= i <= s.len(),
        first_keyword_fault(s.take(i)) is Some,
    ensures
        first_keyword_fault(s) == first_keyword_fault(s.take(i)),
    decreases s.len() - i,
{
    if i < s.len() {
        assert(s.take(i + 1).drop_last() =~= s.take(i));
        lemma_keyword_fault_sticks(s, i + 1);
    } else {
        assert(s.take(i) =~= s);
    }
}

proof fn lemma_structural_fault_sticks(s: Seq<StructuralTestModel>, i: int)
    requires
        0 <= i <= s.len(),
        first_structural_fault(s.take(i)) is Some,
    ensures
        first_structural_fault(s) == first_structural_fault(s.take(i)),
    decreases s.len() - i,
{
    if i < s.len() {
        assert(s.take(i + 1).drop_last() =~= s.take(i));
        lemma_structural_fault_sticks(s, i + 1);
    } else {
        assert(s.take(i) =~= s);
    }
}

/// The first structural test whose schema is not JSON.
fn structural_schema_faults(sts: &Vec<StructuralTest>) -> (r: Option<(String, String)>)
    ensures
        match r {
            Some((n, m)) => first_structural_fault(structural_models(sts@)) == Some((n@, m@)),
            None => first_structural_fault(structural_models(sts@)) is None,
        },
{
    let ghost ms = structural_models(sts@);
    let mut i: usize = 0;
    assert(ms.take(0) =~= Seq::<StructuralTestModel>::empty());
    while i < sts.len()
        invariant
            i <= sts.len(),
            ms == structural_models(sts@),
            first_structural_fault(ms.take(i as int)) is None,
        decreases sts.len() - i,
    {
        assert(ms.take(i + 1).drop_last() =~= ms.take(i as int));
        assert(ms.take(i + 1).last() == sts@[i as int]@);
        let st = &sts[i];
        match parse_json_text(st.test_schema.as_str()) {
            Err(m) => {
                proof {
                    lemma_structural_fault_sticks(ms, i + 1);
                }
                return Some((owned(st.limit_name.as_str()), m));
            },
            Ok(_) => {},
        }
        i = i + 1;
    }
    assert(ms.take(sts.len() as int) =~= ms);
    None
}

/// Parse a truth TOML string; every inline schema must be JSON.
pub fn parse_truth(toml_str: &str) -> (r: Result<ProviderTruth, TruthLoadError>)
    ensures
        match r {
            Ok(t) => truth_of_text(toml_str@) == Ok::<ProviderTruthModel, TruthLoadFault>(t@),
            Err(e) => truth_of_text(toml_str@) == Err::<ProviderTruthModel, TruthLoadFault>(e@),
        },
{
    let root = match parse_toml_document(toml_str) {
        Ok(v) => v,
        Err(m) => return Err(TruthLoadError::Parse(m)),
    };
    let truth = match provider_truth_exec(&root) {
        Ok(t) => t,
        Err(m) => return Err(TruthLoadError::Parse(m)),
    };
    match keyword_schema_faults(&truth.keywords) {
        Some((n, m)) => return Err(TruthLoadError::InvalidSchema(n, m)),
        None => {},
    }
    match structural_schema_faults(&truth.structural_tests) {
        Some((n, m)) => return Err(TruthLoadError::InvalidSchema(n, m)),
        None => {},
    }
    Ok(truth)
}

} // verus!
