use schemalint::builtin::{ANTHROPIC_PROFILE_ID, OPENAI_PROFILE_ID};
use schemalint::ingest::{DiscoveredModel, Provider, ProviderCertainty, ProviderResolution};
use schemalint::json::{compact_json_text, parse_json_text};
use schemalint::plan::{
    explicit_model_inputs, node_target_inputs, raw_check_result, raw_target_input, EnvelopePolicy,
    EvaluationPlan, SchemaInput,
};

fn model(name: &str, certainty: ProviderCertainty, provider: Option<Provider>) -> DiscoveredModel {
    DiscoveredModel {
        name: name.into(),
        source_module: "src/schemas.ts".into(),
        schema: parse_json_text(r#"{"type":"object"}"#).unwrap(),
        source_map: vec![],
        canonical_kind: "generateObject".into(),
        provider: ProviderResolution { certainty, provider },
        envelope: vec![],
        usage_span: None,
    }
}

#[test]
fn explicit_inputs_use_every_profile() {
    let names = vec!["a".to_string(), "b".to_string()];
    let inputs = explicit_model_inputs(&vec![model("M", ProviderCertainty::Ambiguous, None)], &names, EnvelopePolicy::Ignore);
    assert_eq!(inputs.len(), 1);
    assert_eq!(inputs[0].target.name, "M");
    assert_eq!(inputs[0].target.effective_profiles, names);
    match &inputs[0].plan {
        EvaluationPlan::Check { schema: SchemaInput::Value(v), profile_indices, envelope } => {
            assert_eq!(compact_json_text(v), r#"{"type":"object"}"#);
            assert_eq!(profile_indices, &vec![0, 1]);
            assert_eq!(*envelope, EnvelopePolicy::Ignore);
        }
        other => panic!("unexpected plan {:?}", other),
    }
}

#[test]
fn raw_inputs_read_the_file() {
    let input = raw_target_input("schema.json".into(), &vec!["p".to_string()], 1);
    assert_eq!(input.target.canonical_kind, "json-schema");
    assert_eq!(input.target.usage_span.as_ref().unwrap().file, "schema.json");
    assert!(matches!(input.plan, EvaluationPlan::Check { schema: SchemaInput::File, .. }));
    let done = raw_check_result("<inline>".into(), String::new(), Ok(vec![]), &vec![]);
    assert_eq!(done.target.path, "<inline>");
    assert!(done.outcome.unwrap().is_empty());
}

#[test]
fn node_inputs_follow_the_provider() {
    let models = vec![
        model("A", ProviderCertainty::Definitive, Some(Provider::Anthropic)),
        model("B", ProviderCertainty::Ambiguous, None),
        model("C", ProviderCertainty::Inferred, Some(Provider::Openai)),
    ];
    let names = vec![ANTHROPIC_PROFILE_ID.to_string()];
    let inputs = node_target_inputs(&models, &names);
    match &inputs[0].plan {
        EvaluationPlan::Check { profile_indices, envelope, .. } => {
            assert_eq!(profile_indices, &vec![0]);
            assert_eq!(*envelope, EnvelopePolicy::Validate);
        }
        other => panic!("unexpected plan {:?}", other),
    }
    match &inputs[1].plan {
        EvaluationPlan::Fail(m) => {
            assert_eq!(m, "provider is ambiguous for target kind 'generateObject'; pass --profile explicitly")
        }
        other => panic!("unexpected plan {:?}", other),
    }
    assert!(inputs[1].target.effective_profiles.is_empty());
    match &inputs[2].plan {
        EvaluationPlan::Fail(m) => assert_eq!(m, &format!("no ruleset loaded for provider profile '{OPENAI_PROFILE_ID}'")),
        other => panic!("unexpected plan {:?}", other),
    }
    assert_eq!(inputs[2].target.effective_profiles, vec![OPENAI_PROFILE_ID.to_string()]);
}
