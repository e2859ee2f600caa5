use schemalint::builtin::{
    default_profile_ids, profiles, resolve_builtin_profile, ANTHROPIC_PROFILE_ID, OPENAI_PROFILE_ID,
};
use schemalint::detect::{detect_providers_from_deps, has_any_dependency};
use schemalint::ingest::{DiscoveredModel, Provider, ProviderCertainty, ProviderResolution};
use schemalint::json::{parse_json_text, JsonValue};
use schemalint::node_policy::{automatic_profile_ids, effective_provider, single_owned_provider};

#[test]
fn detects_openai_only() {
    assert_eq!(
        detect_providers_from_deps(Some(r#"{"dependencies": {"openai": "^4.0.0"}}"#)),
        vec!["openai"]
    );
}

#[test]
fn detects_openai_via_ai_sdk() {
    assert_eq!(
        detect_providers_from_deps(Some(r#"{"dependencies": {"@ai-sdk/openai": "^1.0.0"}}"#)),
        vec!["openai"]
    );
}

#[test]
fn detects_anthropic_only() {
    assert_eq!(
        detect_providers_from_deps(Some(r#"{"devDependencies": {"@anthropic-ai/sdk": "^0.30.0"}}"#)),
        vec!["anthropic"]
    );
}

#[test]
fn detects_anthropic_via_ai_sdk() {
    assert_eq!(
        detect_providers_from_deps(Some(r#"{"peerDependencies": {"@ai-sdk/anthropic": "^1.0.0"}}"#)),
        vec!["anthropic"]
    );
}

#[test]
fn detects_both_providers_in_order() {
    assert_eq!(
        detect_providers_from_deps(Some(
            r#"{"dependencies": {"openai": "^4.0.0", "@anthropic-ai/sdk": "^0.30.0"}}"#
        )),
        vec!["openai", "anthropic"]
    );
}

#[test]
fn none_when_neither_sdk_present() {
    assert!(detect_providers_from_deps(Some(r#"{"dependencies": {"lodash": "^4.0.0"}}"#)).is_empty());
}

#[test]
fn none_when_no_package_json() {
    assert!(detect_providers_from_deps(None).is_empty());
}

#[test]
fn none_when_package_json_malformed() {
    assert!(detect_providers_from_deps(Some("not valid json {{{")).is_empty());
}

#[test]
fn dependency_tables_must_be_objects() {
    let pkg = parse_json_text(r#"{"dependencies": ["openai"], "devDependencies": {"x": "1"}}"#).unwrap();
    assert!(!has_any_dependency(&pkg, &["openai"]));
    assert!(has_any_dependency(&pkg, &["y", "x"]));
}

#[test]
fn builtin_profiles_resolve_by_alias() {
    assert_eq!(resolve_builtin_profile("openai").unwrap(), OPENAI_PROFILE_ID);
    assert_eq!(resolve_builtin_profile("openai.so.latest").unwrap(), OPENAI_PROFILE_ID);
    assert_eq!(resolve_builtin_profile("anthropic.so.2026-04-30").unwrap(), ANTHROPIC_PROFILE_ID);
    assert_eq!(
        resolve_builtin_profile("profiles/custom.toml").unwrap_err(),
        "profile ID 'profiles/custom.toml' must be a built-in name, not a filesystem path"
    );
    assert_eq!(
        resolve_builtin_profile("..\\x").unwrap_err(),
        "profile ID '..\\x' must be a built-in name, not a filesystem path"
    );
    assert_eq!(resolve_builtin_profile("gemini").unwrap_err(), "unknown built-in profile 'gemini'");
    let metas = profiles();
    assert_eq!(metas.len(), 2);
    assert_eq!(metas[0].id, OPENAI_PROFILE_ID);
    assert_eq!(metas[1].provider, "anthropic");
}

#[test]
fn default_profiles_follow_detected_providers() {
    assert_eq!(default_profile_ids(&vec![]), vec![OPENAI_PROFILE_ID.to_string()]);
    assert_eq!(
        default_profile_ids(&vec!["anthropic", "openai"]),
        vec![ANTHROPIC_PROFILE_ID.to_string(), OPENAI_PROFILE_ID.to_string()]
    );
}

fn model(certainty: ProviderCertainty, provider: Option<Provider>) -> DiscoveredModel {
    DiscoveredModel {
        name: "M".into(),
        source_module: "m.ts".into(),
        schema: JsonValue::Null,
        source_map: vec![],
        canonical_kind: "zod".into(),
        provider: ProviderResolution { certainty, provider },
        envelope: vec![],
        usage_span: None,
    }
}

#[test]
fn automatic_profiles_follow_settled_providers() {
    let models = vec![
        model(ProviderCertainty::Ambiguous, Some(Provider::Openai)),
        model(ProviderCertainty::Inferred, Some(Provider::Anthropic)),
    ];
    assert_eq!(automatic_profile_ids(&models), vec![ANTHROPIC_PROFILE_ID.to_string()]);
    assert_eq!(single_owned_provider(&models), Some(Provider::Anthropic));
    let (id, resolution) = effective_provider(&models[0], Some(Provider::Anthropic)).unwrap();
    assert_eq!(id, ANTHROPIC_PROFILE_ID);
    assert_eq!(resolution.certainty, ProviderCertainty::Inferred);
    assert!(effective_provider(&models[0], None).is_none());
    let both = vec![
        model(ProviderCertainty::Definitive, Some(Provider::Openai)),
        model(ProviderCertainty::Definitive, Some(Provider::Anthropic)),
    ];
    assert_eq!(
        automatic_profile_ids(&both),
        vec![OPENAI_PROFILE_ID.to_string(), ANTHROPIC_PROFILE_ID.to_string()]
    );
    assert_eq!(single_owned_provider(&both), None);
}
