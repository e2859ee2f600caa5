//! What to check for each target: the schema, the profiles, and whether
//! the envelope around it is validated; or why it cannot be checked.
use vstd::prelude::*;

use crate::aggregate::{TargetEvaluation, TargetIdentity};
use crate::diagnostic::{clone_span, Diagnostic, SourceSpan};
use crate::ingest::{DiscoveredModel, EnvelopeField, Provider, ProviderCertainty, ProviderResolution};
use crate::json::{clone_json, JsonModel, JsonValue};
use crate::node_policy::{effective, effective_provider, first_index, single_owned, single_owned_provider};
use crate::settings::{clone_strings, texts};
use crate::text::{owned, str_eq};

verus! {

/// Whether the request envelope around a schema is validated too.
#[derive(Debug, Clone, Copy, PartialEq, Eq, Structural)]
pub enum EnvelopePolicy {
    Ignore,
    Validate,
}

/// Where a schema comes from: the target's file, or a value in hand.
#[derive(Debug)]
pub enum SchemaInput {
    File,
    Value(JsonValue),
}

/// What to do with a target.
#[derive(Debug)]
pub enum EvaluationPlan {
    /// Check the schema with the profiles at these positions.
    Check { schema: SchemaInput, profile_indices: Vec<usize>, envelope: EnvelopePolicy },
    /// Report the target as failed with this message.
    Fail(String),
}

/// A target and what to do with it.
#[derive(Debug)]
pub struct TargetInput {
    pub target: TargetIdentity,
    pub source_map: Vec<(String, SourceSpan)>,
    pub plan: EvaluationPlan,
}

/// The plain content of a plan: the schema (none for a file), the profile
/// positions and envelope policy, or the failure message.
pub ghost enum PlanModel {
    Check(Option<JsonModel>, Seq<usize>, EnvelopePolicy),
    Fail(Seq<char>),
}

/// The plain content of a plan.
pub open spec fn plan_model(p: EvaluationPlan) -> PlanModel {
    match p {
        EvaluationPlan::Check { schema, profile_indices, envelope } => PlanModel::Check(
            match schema {
                SchemaInput::File => None,
                SchemaInput::Value(v) => Some(v@),
            },
            profile_indices@,
            envelope,
        ),
        EvaluationPlan::Fail(m) => PlanModel::Fail(m@),
    }
}

fn clone_source_map(v: &Vec<(String, SourceSpan)>) -> (r: Vec<(String, SourceSpan)>)
    ensures
        r@ == v@,
{
    let mut r: Vec<(String, SourceSpan)> = Vec::new();
    let mut i: usize = 0;
    while i < v.len()
        invariant
            i <= v.len(),
            r@ == v@.take(i as int),
        decreases v.len() - i,
    {
        let k = v[i].0.clone();
        let s = clone_span(&v[i].1);
        r.push((k, s));
        assert(v@.take(i + 1) =~= v@.take(i as int).push(v@[i as int]));
        i = i + 1;
    }
    assert(v@.take(v.len() as int) =~= v@);
    r
}

fn clone_envelope(v: &Vec<(String, EnvelopeField)>) -> (r: Vec<(String, EnvelopeField)>)
    ensures
        r@ == v@,
{
    let mut r: Vec<(String, EnvelopeField)> = Vec::new();
    let mut i: usize = 0;
    while i < v.len()
        invariant
            i <= v.len(),
            r@ == v@.take(i as int),
        decreases v.len() - i,
    {
        let f = &v[i].1;
        let value = match &f.value {
            Some(s) => Some(s.clone()),
            None => None,
        };
        let field = EnvelopeField { required: f.required, resolved: f.resolved, span: clone_span(&f.span), value };
        r.push((v[i].0.clone(), field));
        assert(v@.take(i + 1) =~= v@.take(i as int).push(v@[i as int]));
        i = i + 1;
    }
    assert(v@.take(v.len() as int) =~= v@);
    r
}

fn clone_usage(s: &Option<SourceSpan>) -> (r: Option<SourceSpan>)
    ensures
        r == *s,
{
    match s {
        Some(span) => Some(clone_span(span)),
        None => None,
    }
}

/// Is `t` the identity of `model`, with this resolution and these
/// effective profiles?
pub open spec fn model_identity(t: TargetIdentity, model: DiscoveredModel, provider: ProviderResolution, effective: Seq<Seq<char>>) -> bool {
    &&& t.path@ == model.source_module@
    &&& t.name@ == model.name@
    &&& t.canonical_kind@ == model.canonical_kind@
    &&& t.provider == provider
    &&& texts(t.effective_profiles@) == effective
    &&& t.envelope@ == model.envelope@
    &&& t.usage_span == model.usage_span
}

/// The target input of a discovered model: its identity, its source map,
/// and a check of its schema with the given profiles, or the given failure.
pub fn model_target_input(
    model: &DiscoveredModel,
    provider: ProviderResolution,
    effective_profiles: Vec<String>,
    profile_indices: Result<Vec<usize>, String>,
    envelope: EnvelopePolicy,
) -> (r: TargetInput)
    ensures
        model_identity(r.target, *model, provider, texts(effective_profiles@)),
        r.source_map@ == model.source_map@,
        plan_model(r.plan) == match profile_indices {
            Ok(ix) => PlanModel::Check(Some(model.schema@), ix@, envelope),
            Err(m) => PlanModel::Fail(m@),
        },
{
    let target = TargetIdentity {
        path: owned(model.source_module.as_str()),
        name: owned(model.name.as_str()),
        canonical_kind: owned(model.canonical_kind.as_str()),
        provider,
        effective_profiles,
        envelope: clone_envelope(&model.envelope),
        usage_span: clone_usage(&model.usage_span),
    };
    let plan = match profile_indices {
        Ok(profile_indices) => EvaluationPlan::Check {
            schema: SchemaInput::Value(clone_json(&model.schema)),
            profile_indices,
            envelope,
        },
        Err(message) => EvaluationPlan::Fail(message),
    };
    TargetInput { target, source_map: clone_source_map(&model.source_map), plan }
}

/// The positions `0..n`.
pub open spec fn all_positions(n: nat) -> Seq<usize> {
    Seq::new(n, |i: int| i as usize)
}

fn positions(n: usize) -> (r: Vec<usize>)
    ensures
        r@ == all_positions(n as nat),
{
    let mut r: Vec<usize> = Vec::new();
    let mut i: usize = 0;
    while i < n
        invariant
            i <= n,
            r@ == all_positions(i as nat),
        decreases n - i,
    {
        r.push(i);
        assert(r@ =~= all_positions((i + 1) as nat));
        i = i + 1;
    }
    r
}

/// Every discovered model, to be checked with every profile.
pub fn explicit_model_inputs(models: &Vec<DiscoveredModel>, profile_names: &Vec<String>, envelope: EnvelopePolicy) -> (r: Vec<TargetInput>)
    ensures
        r.len() == models.len(),
        forall|i: int|
            0 <= i < models.len() ==> {
                &&& model_identity((#[trigger] r@[i]).target, models@[i], models@[i].provider, texts(profile_names@))
                &&& r@[i].source_map@ == models@[i].source_map@
                &&& plan_model(r@[i].plan) == PlanModel::Check(Some(models@[i].schema@), all_positions(profile_names.len() as nat), envelope)
            },
{
    let mut r: Vec<TargetInput> = Vec::new();
    let mut i: usize = 0;
    while i < models.len()
        invariant
            i <= models.len(),
            r.len() == i,
            forall|j: int|
                0 <= j < i ==> {
                    &&& model_identity((#[trigger] r@[j]).target, models@[j], models@[j].provider, texts(profile_names@))
                    &&& r@[j].source_map@ == models@[j].source_map@
                    &&& plan_model(r@[j].plan) == PlanModel::Check(Some(models@[j].schema@), all_positions(profile_names.len() as nat), envelope)
                },
        decreases models.len() - i,
    {
        let model = &models[i];
        let input = model_target_input(model, model.provider, clone_strings(profile_names), Ok(positions(profile_names.len())), envelope);
        r.push(input);
        i = i + 1;
    }
    r
}

/// The identity of a schema file: its path, no model name, the
/// `json-schema` kind, an ambiguous provider, and a span naming the file.
pub open spec fn raw_identity_ok(t: TargetIdentity, path: Seq<char>, name: Seq<char>, effective: Seq<Seq<char>>) -> bool {
    &&& t.path@ == path
    &&& t.name@ == name
    &&& t.canonical_kind@ == "json-schema"@
    &&& t.provider == (ProviderResolution { certainty: ProviderCertainty::Ambiguous, provider: None })
    &&& texts(t.effective_profiles@) == effective
    &&& t.envelope@.len() == 0
    &&& t.usage_span matches Some(s) && s.file@ == path && s.line is None && s.col is None
}

fn raw_identity(path: String, model_name: String, effective_profiles: &Vec<String>) -> (r: TargetIdentity)
    ensures
        raw_identity_ok(r, path@, model_name@, texts(effective_profiles@)),
{
    let file = owned(path.as_str());
    TargetIdentity {
        path,
        name: model_name,
        canonical_kind: owned("json-schema"),
        provider: ProviderResolution { certainty: ProviderCertainty::Ambiguous, provider: None },
        effective_profiles: clone_strings(effective_profiles),
        envelope: Vec::new(),
        usage_span: Some(SourceSpan { file, line: None, col: None }),
    }
}

/// A schema file to be read and checked with the first `profile_count`
/// profiles, its envelope ignored.
pub fn raw_target_input(path: String, effective_profiles: &Vec<String>, profile_count: usize) -> (r: TargetInput)
    ensures
        raw_identity_ok(r.target, path@, Seq::empty(), texts(effective_profiles@)),
        r.source_map@.len() == 0,
        plan_model(r.plan) == PlanModel::Check(None, all_positions(profile_count as nat), EnvelopePolicy::Ignore),
{
    let target = raw_identity(path, String::new(), effective_profiles);
    TargetInput {
        target,
        source_map: Vec::new(),
        plan: EvaluationPlan::Check { schema: SchemaInput::File, profile_indices: positions(profile_count), envelope: EnvelopePolicy::Ignore },
    }
}

/// The evaluation of a schema file already checked.
pub fn raw_check_result(
    path: String,
    model_name: String,
    diagnostics: Result<Vec<Diagnostic>, String>,
    effective_profiles: &Vec<String>,
) -> (r: TargetEvaluation)
    ensures
        raw_identity_ok(r.target, path@, model_name@, texts(effective_profiles@)),
        r.outcome == diagnostics,
{
    TargetEvaluation { target: raw_identity(path, model_name, effective_profiles), outcome: diagnostics }
}

/// For a Zod target when no profile was given: the profiles named for it,
/// the resolution reported, and the position of the profile that checks
/// it, or the failure message.
pub open spec fn node_input_plan(model: DiscoveredModel, inferred: Option<Provider>, names: Seq<Seq<char>>) -> (
    Seq<Seq<char>>,
    ProviderResolution,
    Result<int, Seq<char>>,
) {
    match effective(model.provider, inferred) {
        None => (
            Seq::empty(),
            model.provider,
            Err("provider is ambiguous for target kind '"@ + model.canonical_kind@ + "'; pass --profile explicitly"@),
        ),
        Some((id, res)) => (
            seq![id],
            res,
            match first_index(names, id) {
                None => Err("no ruleset loaded for provider profile '"@ + id + "'"@),
                Some(i) => Ok(i),
            },
        ),
    }
}

/// Every discovered Zod target, to be checked with the profile of its
/// provider (its envelope validated), or failed when none applies.
pub fn node_target_inputs(models: &Vec<DiscoveredModel>, profile_names: &Vec<String>) -> (r: Vec<TargetInput>)
    ensures
        r.len() == models.len(),
        forall|i: int|
            0 <= i < models.len() ==> {
                let p = node_input_plan(models@[i], single_owned(models@), texts(profile_names@));
                &&& model_identity((#[trigger] r@[i]).target, models@[i], p.1, p.0)
                &&& r@[i].source_map@ == models@[i].source_map@
                &&& plan_model(r@[i].plan) == match p.2 {
                    Ok(ix) => PlanModel::Check(Some(models@[i].schema@), seq![ix as usize], EnvelopePolicy::Validate),
                    Err(m) => PlanModel::Fail(m),
                }
            },
{
    let inferred = single_owned_provider(models);
    let ghost names = texts(profile_names@);
    let mut r: Vec<TargetInput> = Vec::new();
    let mut i: usize = 0;
    while i < models.len()
        invariant
            i <= models.len(),
            r.len() == i,
            inferred == single_owned(models@),
            names == texts(profile_names@),
            forall|j: int|
                0 <= j < i ==> {
                    let p = node_input_plan(models@[j], single_owned(models@), names);
                    &&& model_identity((#[trigger] r@[j]).target, models@[j], p.1, p.0)
                    &&& r@[j].source_map@ == models@[j].source_map@
                    &&& plan_model(r@[j].plan) == match p.2 {
                        Ok(ix) => PlanModel::Check(Some(models@[j].schema@), seq![ix as usize], EnvelopePolicy::Validate),
                        Err(m) => PlanModel::Fail(m),
                    }
                },
        decreases models.len() - i,
    {
        let model = &models[i];
        let input = match effective_provider(model, inferred) {
            None => {
                let message = crate::text::concat3(
                    "provider is ambiguous for target kind '",
                    model.canonical_kind.as_str(),
                    "'; pass --profile explicitly",
                );
                let none: Vec<String> = Vec::new();
                assert(texts(none@) =~= Seq::<Seq<char>>::empty());
                model_target_input(model, model.provider, none, Err(message), EnvelopePolicy::Validate)
            },
            Some((id, resolution)) => {
                let mut eff: Vec<String> = Vec::new();
                eff.push(owned(id));
                assert(texts(eff@) =~= seq![id@]);
                let found = index_of(profile_names, id);
                match found {
                    Some(k) => {
                        let mut ix: Vec<usize> = Vec::new();
                        ix.push(k);
                        assert(ix@ =~= seq![k]);
                        model_target_input(model, resolution, eff, Ok(ix), EnvelopePolicy::Validate)
                    },
                    None => {
                        let message = crate::text::concat3("no ruleset loaded for provider profile '", id, "'");
                        model_target_input(model, resolution, eff, Err(message), EnvelopePolicy::Validate)
                    },
                }
            },
        };
        r.push(input);
        i = i + 1;
    }
    r
}

/// The position of the first `x` among `names`.
fn index_of(names: &Vec<String>, x: &str) -> (r: Option<usize>)
    ensures
        match (r, first_index(texts(names@), x@)) {
            (Some(a), Some(b)) => a == b,
            (None, None) => true,
            _ => false,
        },
{
    let ghost ns = texts(names@);
    let mut i: usize = 0;
    while i < names.len()
        invariant
            i <= names.len(),
            ns == texts(names@),
            forall|j: int| 0 <= j < i ==> ns[j] != x@,
        decreases names.len() - i,
    {
        if str_eq(names[i].as_str(), x) {
            proof {
                assert(ns[i as int] == x@);
                let c = choose|c: int| 0 <= c < ns.len() && ns[c] == x@ && forall|j: int| 0 <= j < c ==> ns[j] != x@;
                if c > i {
                    assert(ns[i as int] != x@);
                }
            }
            return Some(i);
        }
        i = i + 1;
    }
    None
}

} // verus!
