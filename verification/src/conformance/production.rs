//! Checking truth declarations against the production rules of schemalint.
//!
//! The production rules of a provider (its built-in profile, the normalizer
//! and the rule set) are handed in as a checker: a function from a schema to
//! the diagnostics of those rules.
use vstd::prelude::*;

use crate::conformance::evaluate::{evaluate, error_views, truth_outcome, TruthError, TruthOutcome, TruthResult};
use crate::conformance::truth::{opt_text, KeywordBehavior, ProviderTruth, StructuralTest, StructuralTestModel, structural_models};
use crate::diagnostic::{Diagnostic, DiagnosticSeverity};
use crate::json::{json_document, parse_json_text, JsonModel, JsonValue};
use crate::profile::structural::{rule_named, text_before_double_underscore, StructuralRuleId};
use crate::text::{chars_of, concat2, concat3, ends_with_chars, owned, str_eq};

verus! {

/// Errors of checking truth declarations against production rules.
#[derive(Debug)]
pub enum ProductionEvaluationError {
    Profile(String),
    Rules(String),
    Normalize(String),
    UnknownStructuralCase(String),
}

/// The content of a `ProductionEvaluationError`.
pub ghost enum ProductionFault {
    Profile(Seq<char>),
    Rules(Seq<char>),
    Normalize(Seq<char>),
    UnknownStructuralCase(Seq<char>),
}

impl View for ProductionEvaluationError {
    type V = ProductionFault;

    open spec fn view(&self) -> ProductionFault {
        match self {
            ProductionEvaluationError::Profile(m) => ProductionFault::Profile(m@),
            ProductionEvaluationError::Rules(m) => ProductionFault::Rules(m@),
            ProductionEvaluationError::Normalize(m) => ProductionFault::Normalize(m@),
            ProductionEvaluationError::UnknownStructuralCase(m) => ProductionFault::UnknownStructuralCase(m@),
        }
    }
}

/// The display text of a production error.
pub open spec fn production_error_text(e: ProductionFault) -> Seq<char> {
    match e {
        ProductionFault::Profile(m) => "failed to load built-in profile: "@ + m,
        ProductionFault::Rules(m) => "failed to construct production rules: "@ + m,
        ProductionFault::Normalize(m) => "failed to normalize truth schema: "@ + m,
        ProductionFault::UnknownStructuralCase(n) => "structural truth case '"@ + n + "' has no production rule mapping"@,
    }
}

impl ProductionEvaluationError {
    /// The display text of the error.
    pub fn message(&self) -> (r: String)
        ensures
            r@ == production_error_text(self@),
    {
        match self {
            ProductionEvaluationError::Profile(m) => concat2("failed to load built-in profile: ", m.as_str()),
            ProductionEvaluationError::Rules(m) => concat2("failed to construct production rules: ", m.as_str()),
            ProductionEvaluationError::Normalize(m) => concat2("failed to normalize truth schema: ", m.as_str()),
            ProductionEvaluationError::UnknownStructuralCase(n) => concat3(
                "structural truth case '",
                n.as_str(),
                "' has no production rule mapping",
            ),
        }
    }
}

/// How one structural truth case fared against the production rules.
#[derive(Debug)]
pub struct StructuralTruthOutcome {
    pub limit_name: String,
    pub expected: KeywordBehavior,
    pub actual: KeywordBehavior,
    pub expected_error_path: Option<String>,
    pub actual_error_path: Option<String>,
}

/// The content of a `StructuralTruthOutcome`.
pub ghost struct StructuralOutcomeModel {
    pub limit_name: Seq<char>,
    pub expected: KeywordBehavior,
    pub actual: KeywordBehavior,
    pub expected_error_path: Option<Seq<char>>,
    pub actual_error_path: Option<Seq<char>>,
}

impl View for StructuralTruthOutcome {
    type V = StructuralOutcomeModel;

    open spec fn view(&self) -> StructuralOutcomeModel {
        StructuralOutcomeModel {
            limit_name: self.limit_name@,
            expected: self.expected,
            actual: self.actual,
            expected_error_path: opt_text(self.expected_error_path),
            actual_error_path: opt_text(self.actual_error_path),
        }
    }
}

/// A case matches when the behaviors agree, and for a rejection the error
/// paths agree too.
pub open spec fn outcome_matches(o: StructuralOutcomeModel) -> bool {
    o.expected == o.actual && (o.expected != KeywordBehavior::Reject || o.expected_error_path == o.actual_error_path)
}

fn same_opt_text(a: &Option<String>, b: &Option<String>) -> (r: bool)
    ensures
        r == (opt_text(*a) == opt_text(*b)),
{
    match (a, b) {
        (Some(x), Some(y)) => str_eq(x.as_str(), y.as_str()),
        (None, None) => true,
        _ => false,
    }
}

impl StructuralTruthOutcome {
    pub fn matches(&self) -> (r: bool)
        ensures
            r == outcome_matches(self@),
    {
        self.expected == self.actual && (self.expected != KeywordBehavior::Reject || same_opt_text(
            &self.expected_error_path,
            &self.actual_error_path,
        ))
    }
}

/// The diagnostic-code suffix of the production rule that a structural case
/// exercises: the structural rule named by the text before the case name's
/// first `__`.
pub open spec fn rule_suffix_of(limit_name: Seq<char>) -> Option<Seq<char>> {
    match rule_named(text_before_double_underscore(limit_name)) {
        Some(id) => Some(id.spec_suffix()),
        None => None,
    }
}

pub fn rule_suffix(limit_name: &str) -> (r: Option<&'static str>)
    ensures
        match r {
            Some(s) => rule_suffix_of(limit_name@) == Some(s@),
            None => rule_suffix_of(limit_name@) is None,
        },
{
    match StructuralRuleId::from_name(limit_name) {
        Some(id) => Some(id.diagnostic_suffix()),
        None => None,
    }
}

/// The pointer as truth files write it: the root is `/`.
pub open spec fn root_pointer_of(p: Seq<char>) -> Seq<char> {
    if p.len() == 0 {
        "/"@
    } else {
        p
    }
}

pub fn root_pointer(pointer: &str) -> (r: String)
    ensures
        r@ == root_pointer_of(pointer@),
{
    if pointer.unicode_len() == 0 {
        owned("/")
    } else {
        owned(pointer)
    }
}

/// Whether `code` ends with `suffix`.
pub open spec fn ends_with(code: Seq<char>, suffix: Seq<char>) -> bool {
    suffix.len() <= code.len() && code.skip(code.len() - suffix.len()) == suffix
}

/// The position of the first diagnostic whose code ends with `suffix`.
pub open spec fn first_with_suffix(ds: Seq<Diagnostic>, suffix: Seq<char>) -> Option<int>
    decreases ds.len(),
{
    if ds.len() == 0 {
        None
    } else if ends_with(ds[0].code@, suffix) {
        Some(0)
    } else {
        match first_with_suffix(ds.drop_first(), suffix) {
            Some(i) => Some(i + 1),
            None => None,
        }
    }
}

/// The outcome of a structural case whose schema the production rules
/// answered with `ds`: rejected, at the pointer of the first diagnostic of
/// the case's rule, when there is one; accepted otherwise.
pub open spec fn structural_outcome_of(case: StructuralTestModel, suffix: Seq<char>, ds: Seq<Diagnostic>) -> StructuralOutcomeModel {
    StructuralOutcomeModel {
        limit_name: case.limit_name,
        expected: case.expected_behavior,
        actual: if first_with_suffix(ds, suffix) is Some { KeywordBehavior::Reject } else { KeywordBehavior::Accept },
        expected_error_path: case.expected_error_path,
        actual_error_path: match first_with_suffix(ds, suffix) {
            Some(i) => Some(root_pointer_of(ds[i].pointer@)),
            None => None,
        },
    }
}

proof fn lemma_first_with_suffix(ds: Seq<Diagnostic>, suffix: Seq<char>, k: int)
    requires
        0 <= k <= ds.len(),
        forall|j: int| 0 <= j < k ==> !ends_with(#[trigger] ds[j].code@, suffix),
    ensures
        k < ds.len() && ends_with(ds[k].code@, suffix) ==> first_with_suffix(ds, suffix) == Some(k),
        k == ds.len() ==> first_with_suffix(ds, suffix) is None,
    decreases k,
{
    if k > 0 {
        let rest = ds.drop_first();
        assert forall|j: int| 0 <= j < k - 1 implies !ends_with(#[trigger] rest[j].code@, suffix) by {
            assert(rest[j] == ds[j + 1]);
        }
        lemma_first_with_suffix(rest, suffix, k - 1);
        if k < ds.len() {
            assert(rest[k - 1] == ds[k]);
        }
    }
}

fn clone_opt_text(o: &Option<String>) -> (r: Option<String>)
    ensures
        opt_text(r) == opt_text(*o),
{
    match o {
        Some(s) => Some(owned(s.as_str())),
        None => None,
    }
}

/// The position of the first diagnostic whose code ends with `suffix`.
fn first_suffix_index(diagnostics: &Vec<Diagnostic>, suffix: &str) -> (r: Option<usize>)
    ensures
        match r {
            Some(k) => k < diagnostics.len() && first_with_suffix(diagnostics@, suffix@) == Some(k as int),
            None => first_with_suffix(diagnostics@, suffix@) is None,
        },
{
    let sfx = chars_of(suffix);
    let mut i: usize = 0;
    while i < diagnostics.len()
        invariant
            i <= diagnostics.len(),
            sfx@ == suffix@,
            forall|j: int| 0 <= j < i ==> !ends_with(#[trigger] diagnostics@[j].code@, suffix@),
        decreases diagnostics.len() - i,
    {
        if ends_with_chars(&chars_of(diagnostics[i].code.as_str()), &sfx) {
            proof {
                lemma_first_with_suffix(diagnostics@, suffix@, i as int);
            }
            return Some(i);
        }
        i = i + 1;
    }
    proof {
        lemma_first_with_suffix(diagnostics@, suffix@, i as int);
    }
    None
}

/// The outcome of one structural case, given the diagnostics the production
/// rules report for its schema and the suffix of the case's rule.
pub fn structural_case_outcome(case: &StructuralTest, suffix: &str, diagnostics: &Vec<Diagnostic>) -> (r: StructuralTruthOutcome)
    ensures
        r@ == structural_outcome_of(case@, suffix@, diagnostics@),
{
    let found = first_suffix_index(diagnostics, suffix);
    let (actual, actual_error_path) = match found {
        Some(k) => (KeywordBehavior::Reject, Some(root_pointer(diagnostics[k].pointer.as_str()))),
        None => (KeywordBehavior::Accept, None),
    };
    StructuralTruthOutcome {
        limit_name: owned(case.limit_name.as_str()),
        expected: case.expected_behavior,
        actual,
        expected_error_path: clone_opt_text(&case.expected_error_path),
        actual_error_path,
    }
}

/// Whether a provider has built-in production rules.
pub open spec fn known_provider(name: Seq<char>) -> bool {
    name == "openai"@ || name == "anthropic"@
}

fn is_known_provider(name: &str) -> (r: bool)
    ensures
        r == known_provider(name@),
{
    str_eq(name, "openai") || str_eq(name, "anthropic")
}

/// A structural case that can be run: its rule is known and its schema is
/// JSON.
pub open spec fn case_runs(case: StructuralTest) -> bool {
    rule_suffix_of(case.limit_name@) is Some && json_document(case.test_schema@) is Ok
}

/// `check` answered the parsed schema of `case` with `res`.
pub open spec fn checked_case<F: Fn(&JsonValue) -> Result<Vec<Diagnostic>, ProductionEvaluationError>>(
    check: F,
    case: StructuralTest,
    res: Result<Vec<Diagnostic>, ProductionEvaluationError>,
) -> bool {
    exists|s: JsonValue| s@ == json_document(case.test_schema@)->Ok_0 && #[trigger] check.ensures((&s,), res)
}

/// `case` ran, and `check` answered its schema with diagnostics `ds`.
pub open spec fn case_checked<F: Fn(&JsonValue) -> Result<Vec<Diagnostic>, ProductionEvaluationError>>(
    check: F,
    case: StructuralTest,
    ds: Vec<Diagnostic>,
) -> bool {
    case_runs(case) && checked_case(check, case, Ok(ds))
}

/// `case` ran, and `check` answered its schema with some diagnostics.
pub open spec fn case_ran<F: Fn(&JsonValue) -> Result<Vec<Diagnostic>, ProductionEvaluationError>>(
    check: F,
    case: StructuralTest,
) -> bool {
    exists|ds: Vec<Diagnostic>| #[trigger] case_checked(check, case, ds)
}

/// `case` ran, `check` answered its schema with some diagnostics, and `out`
/// is the outcome that those diagnostics give.
pub open spec fn case_passed<F: Fn(&JsonValue) -> Result<Vec<Diagnostic>, ProductionEvaluationError>>(
    check: F,
    case: StructuralTest,
    out: StructuralOutcomeModel,
) -> bool {
    exists|ds: Vec<Diagnostic>| #[trigger] case_checked(check, case, ds)
        && out == structural_outcome_of(case@, rule_suffix_of(case.limit_name@)->Some_0, ds@)
}

/// `e` is the error with which `case` stops a run: an unknown rule, a schema
/// that is not JSON, or the error `check` answered its schema with.
pub open spec fn case_error<F: Fn(&JsonValue) -> Result<Vec<Diagnostic>, ProductionEvaluationError>>(
    check: F,
    case: StructuralTest,
    e: ProductionEvaluationError,
) -> bool {
    match rule_suffix_of(case.limit_name@) {
        None => e@ == ProductionFault::UnknownStructuralCase(case.limit_name@),
        Some(_) => match json_document(case.test_schema@) {
            Err(m) => e@ == ProductionFault::Normalize(m),
            Ok(_) => checked_case(check, case, Err(e)),
        },
    }
}

/// Execute every declared structural truth case through production rules.
///
/// `check` runs the production rules of the provider's built-in profile on a
/// schema. Providers without built-in rules have no outcomes. The first case
/// whose rule is unknown, whose schema is not JSON, or whose check fails ends
/// the run with that error.
pub fn evaluate_structural_truth<F>(truth: &ProviderTruth, check: &F) -> (r: Result<Vec<StructuralTruthOutcome>, ProductionEvaluationError>)
    where
        F: Fn(&JsonValue) -> Result<Vec<Diagnostic>, ProductionEvaluationError>,
    requires
        forall|v: &JsonValue| check.requires((v,)),
    ensures
        !known_provider(truth.provider.name@) ==> (r matches Ok(v) && v.len() == 0),
        known_provider(truth.provider.name@) ==> match r {
            Ok(v) => {
                &&& v.len() == truth.structural_tests.len()
                &&& forall|i: int| 0 <= i < v.len()
                    ==> case_passed(*check, #[trigger] truth.structural_tests@[i], v@[i]@)
            },
            Err(e) => exists|k: int| {
                &&& 0 <= k < truth.structural_tests.len()
                &&& forall|j: int| 0 <= j < k ==> case_ran(*check, #[trigger] truth.structural_tests@[j])
                &&& #[trigger] case_error(*check, truth.structural_tests@[k], e)
            },
        },
{
    if !is_known_provider(truth.provider.name.as_str()) {
        return Ok(Vec::new());
    }
    let cases = &truth.structural_tests;
    let mut out: Vec<StructuralTruthOutcome> = Vec::new();
    let mut i: usize = 0;
    while i < cases.len()
        invariant
            i <= cases.len(),
            cases == &truth.structural_tests,
            known_provider(truth.provider.name@),
            out.len() == i,
            forall|v: &JsonValue| check.requires((v,)),
            forall|j: int| 0 <= j < i ==> case_passed(*check, #[trigger] cases@[j], out@[j]@),
        decreases cases.len() - i,
    {
        let case = &cases[i];
        proof {
            assert forall|j: int| 0 <= j < i implies case_ran(*check, #[trigger] cases@[j]) by {
                assert(case_passed(*check, cases@[j], out@[j]@));
            }
        }
        let suffix = match rule_suffix(case.limit_name.as_str()) {
            Some(s) => s,
            None => {
                let e = ProductionEvaluationError::UnknownStructuralCase(owned(case.limit_name.as_str()));
                assert(case_error(*check, cases@[i as int], e));
                return Err(e);
            },
        };
        let schema = match parse_json_text(case.test_schema.as_str()) {
            Ok(v) => v,
            Err(m) => {
                let e = ProductionEvaluationError::Normalize(m);
                assert(case_error(*check, cases@[i as int], e));
                return Err(e);
            },
        };
        let res = check(&schema);
        let diagnostics = match res {
            Ok(ds) => ds,
            Err(e) => {
                assert(check.ensures((&schema,), Err(e)));
                assert(checked_case(*check, cases@[i as int], Err(e)));
                assert(case_error(*check, cases@[i as int], e));
                return Err(e);
            },
        };
        assert(check.ensures((&schema,), Ok(diagnostics)));
        assert(checked_case(*check, cases@[i as int], Ok(diagnostics)));
        assert(case_checked(*check, cases@[i as int], diagnostics));
        let outcome = structural_case_outcome(case, suffix, &diagnostics);
        let ghost before = out@;
        out.push(outcome);
        assert(case_passed(*check, cases@[i as int], out@[i as int]@));
        assert forall|j: int| 0 <= j < i + 1 implies case_passed(*check, #[trigger] cases@[j], out@[j]@) by {
            if j < i {
                assert(out@[j] == before[j]);
            }
        }
        i = i + 1;
    }
    Ok(out)
}

/// The errors that error diagnostics of the production rules make.
pub open spec fn production_errors(ds: Seq<Diagnostic>) -> Seq<(Seq<char>, Seq<char>, Seq<char>)>
    decreases ds.len(),
{
    if ds.len() == 0 {
        Seq::empty()
    } else {
        let front = production_errors(ds.drop_last());
        let d = ds.last();
        if d.severity == DiagnosticSeverity::Error {
            front.push((d.message@, root_pointer_of(d.pointer@), d.code@))
        } else {
            front
        }
    }
}

/// The result of a schema that the declarations accepted as `transformed`
/// and on which the production rules reported `ds`.
pub open spec fn production_outcome(transformed: JsonModel, ds: Seq<Diagnostic>) -> TruthOutcome {
    if production_errors(ds).len() == 0 {
        TruthOutcome::Accepted(transformed)
    } else {
        TruthOutcome::Rejected(production_errors(ds))
    }
}

/// Combine an accepted schema with the production diagnostics on it: each
/// error diagnostic becomes a truth error.
pub fn production_result(transformed: JsonValue, diagnostics: &Vec<Diagnostic>) -> (r: TruthResult)
    ensures
        r@ == production_outcome(transformed@, diagnostics@),
{
    let mut errors: Vec<TruthError> = Vec::new();
    let mut i: usize = 0;
    assert(diagnostics@.take(0) =~= Seq::<Diagnostic>::empty());
    assert(error_views(errors@) =~= Seq::empty());
    while i < diagnostics.len()
        invariant
            i <= diagnostics.len(),
            error_views(errors@) == production_errors(diagnostics@.take(i as int)),
        decreases diagnostics.len() - i,
    {
        assert(diagnostics@.take(i + 1).drop_last() =~= diagnostics@.take(i as int));
        assert(diagnostics@.take(i + 1).last() == diagnostics@[i as int]);
        let d = &diagnostics[i];
        if d.severity == DiagnosticSeverity::Error {
            let e = TruthError {
                message: owned(d.message.as_str()),
                pointer: root_pointer(d.pointer.as_str()),
                keyword: owned(d.code.as_str()),
            };
            let ghost before = error_views(errors@);
            errors.push(e);
            assert(error_views(errors@) =~= before.push(e@));
        }
        i = i + 1;
    }
    assert(diagnostics@.take(diagnostics.len() as int) =~= diagnostics@);
    if errors.len() == 0 {
        TruthResult::Accepted { transformed }
    } else {
        TruthResult::Rejected { errors }
    }
}

/// Evaluate a schema for a provider: first against its declarations, then,
/// for a provider with built-in rules, through `check`, the production rules
/// of its profile.
pub fn evaluate_provider<F>(truth: &ProviderTruth, schema: &JsonValue, check: &F) -> (r: Result<TruthResult, ProductionEvaluationError>)
    where
        F: Fn(&JsonValue) -> Result<Vec<Diagnostic>, ProductionEvaluationError>,
    requires
        forall|v: &JsonValue| check.requires((v,)),
    ensures
        match truth_outcome(truth.keywords@, schema@) {
            TruthOutcome::Rejected(errs) => (r matches Ok(t) && t@ == TruthOutcome::Rejected(errs)),
            TruthOutcome::Accepted(m) => if known_provider(truth.provider.name@) {
                match r {
                    Ok(t) => exists|s: JsonValue, ds: Vec<Diagnostic>|
                        s@ == m && #[trigger] check.ensures((&s,), Ok(ds)) && t@ == production_outcome(m, ds@),
                    Err(e) => exists|s: JsonValue| s@ == m && #[trigger] check.ensures((&s,), Err(e)),
                }
            } else {
                (r matches Ok(t) && t@ == TruthOutcome::Accepted(m))
            },
        },
{
    let declared = evaluate(truth, schema);
    let transformed = match declared {
        TruthResult::Accepted { transformed } => transformed,
        TruthResult::Rejected { errors } => return Ok(TruthResult::Rejected { errors }),
    };
    if !is_known_provider(truth.provider.name.as_str()) {
        return Ok(TruthResult::Accepted { transformed });
    }
    let res = check(&transformed);
    let diagnostics = match res {
        Ok(ds) => ds,
        Err(e) => {
            assert(check.ensures((&transformed,), Err(e)));
            return Err(e);
        },
    };
    assert(check.ensures((&transformed,), Ok(diagnostics)));
    let ghost m = transformed@;
    let r = production_result(transformed, &diagnostics);
    assert(r@ == production_outcome(m, diagnostics@));
    Ok(r)
}

} // verus!
