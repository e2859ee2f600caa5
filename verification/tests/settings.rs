use schemalint::args::OutputFormat;
use schemalint::builtin::{ANTHROPIC_PROFILE_ID, OPENAI_PROFILE_ID};
use schemalint::ingest::{DiscoveredModel, Provider, ProviderCertainty, ProviderResolution};
use schemalint::json::JsonValue;
use schemalint::node_policy::node_target_plan;
use schemalint::settings::{choose_format, node_settings, python_settings, NodeConfig, PyProjectConfig};

fn strings(v: &[&str]) -> Vec<String> {
    v.iter().map(|s| s.to_string()).collect()
}

#[test]
fn flags_win_over_node_config() {
    let config = NodeConfig {
        profiles: strings(&["anthropic"]),
        sources: strings(&["src/**/*.ts"]),
        exclude: strings(&["gen"]),
        severity: vec![],
    };
    let s = node_settings(&vec![], &strings(&["openai"]), &vec![], Some(&config)).unwrap();
    assert_eq!(s.targets, strings(&["src/**/*.ts"]));
    assert_eq!(s.profiles, strings(&["openai"]));
    assert_eq!(s.excludes, strings(&["gen"]));
    assert_eq!(
        node_settings(&vec![], &vec![], &vec![], None).unwrap_err(),
        "no sources specified. Use --source or configure \"schemalint\" in package.json"
    );
}

#[test]
fn python_needs_packages_and_profiles() {
    let config = PyProjectConfig {
        profiles: vec![],
        packages: strings(&["app.models"]),
        exclude: vec![],
        severity: vec![],
    };
    assert_eq!(
        python_settings(&vec![], &vec![], &vec![], Some(&config)).unwrap_err(),
        (
            "profiles".to_string(),
            "no profiles specified. Use --profile or configure [tool.schemalint] in pyproject.toml".to_string()
        )
    );
    assert_eq!(python_settings(&vec![], &vec![], &vec![], None).unwrap_err().0, "packages");
    let s = python_settings(&strings(&["pkg"]), &strings(&["openai"]), &vec![], Some(&config)).unwrap();
    assert_eq!(s.targets, strings(&["pkg"]));
}

#[test]
fn format_defaults_by_terminal() {
    assert_eq!(choose_format(None, true), OutputFormat::Human);
    assert_eq!(choose_format(None, false), OutputFormat::Json);
    assert_eq!(choose_format(Some(OutputFormat::Sarif), true), OutputFormat::Sarif);
}

fn model(certainty: ProviderCertainty, provider: Option<Provider>) -> DiscoveredModel {
    DiscoveredModel {
        name: "M".into(),
        source_module: "m.ts".into(),
        schema: JsonValue::Null,
        source_map: vec![],
        canonical_kind: "generateObject".into(),
        provider: ProviderResolution { certainty, provider },
        envelope: vec![],
        usage_span: None,
    }
}

#[test]
fn targets_pick_their_provider_profile() {
    let names = strings(&[ANTHROPIC_PROFILE_ID, OPENAI_PROFILE_ID]);
    let (i, res) = node_target_plan(&model(ProviderCertainty::Definitive, Some(Provider::Openai)), None, &names).unwrap();
    assert_eq!(i, 1);
    assert_eq!(res.certainty, ProviderCertainty::Definitive);
    assert_eq!(
        node_target_plan(&model(ProviderCertainty::Ambiguous, None), None, &names).unwrap_err(),
        "provider is ambiguous for target kind 'generateObject'; pass --profile explicitly"
    );
    assert_eq!(
        node_target_plan(&model(ProviderCertainty::Inferred, Some(Provider::Openai)), None, &strings(&[ANTHROPIC_PROFILE_ID]))
            .unwrap_err(),
        format!("no ruleset loaded for provider profile '{OPENAI_PROFILE_ID}'")
    );
}

fn profile(name: &str, version: &str) -> schemalint::profile::parser::Profile {
    let text = format!("name = \"{name}\"\nversion = \"{version}\"\n[structural]\n");
    schemalint::profile::parser::load(text.as_bytes()).unwrap()
}

#[test]
fn profiles_are_ordered_and_deduplicated_by_name() {
    let ordered = schemalint::builtin::order_profiles(vec![
        profile("openai.so.2026-04-30", "1"),
        profile("anthropic.so.2026-04-30", "1"),
        profile("openai.so.2026-04-30", "2"),
    ]);
    let names: Vec<(&str, &str)> = ordered.iter().map(|p| (p.name.as_str(), p.version.as_str())).collect();
    assert_eq!(names, vec![("anthropic.so.2026-04-30", "1"), ("openai.so.2026-04-30", "1")]);
}
