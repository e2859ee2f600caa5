use schemalint::conformance::evaluate::{evaluate, TruthResult};
use schemalint::conformance::load::{parse_truth, TruthLoadError};
use schemalint::conformance::production::{
    evaluate_provider, evaluate_structural_truth, production_result, root_pointer, rule_suffix,
    structural_case_outcome, ProductionEvaluationError, StructuralTruthOutcome,
};
use schemalint::conformance::truth::{KeywordBehavior, ProviderBehavior, ProviderTruth};
use schemalint::diagnostic::{Diagnostic, DiagnosticSeverity};
use schemalint::json::{parse_json_text, JsonValue};

fn make_truth() -> ProviderTruth {
    parse_truth(
        r#"
[provider]
name = "test"
version = "1.0"
behavior = "strict"

[[keywords]]
name = "allOf"
behavior = "reject"
test_schema = '''
{ "type": "object", "allOf": [{"properties": {"x": {"type": "string"}}}], "properties": {} }
'''
expected_error = "allOf is not supported"
expected_error_path = "/allOf"

[[keywords]]
name = "type"
behavior = "accept"
test_schema = '''
{ "type": "object", "properties": {} }
'''

[[keywords]]
name = "description"
behavior = "strip"
test_schema = '''
{ "type": "object", "description": "a schema", "properties": {} }
'''
"#,
    )
    .unwrap()
}

fn json(text: &str) -> JsonValue {
    parse_json_text(text).unwrap()
}

fn member<'a>(v: &'a JsonValue, key: &str) -> Option<&'a JsonValue> {
    match v {
        JsonValue::Object(members) => members.iter().find(|(k, _)| k == key).map(|(_, v)| v),
        _ => None,
    }
}

#[test]
fn load_valid_truth() {
    let truth = make_truth();
    assert_eq!(truth.provider.name, "test");
    assert_eq!(truth.keywords.len(), 3);
}

#[test]
fn evaluate_accept() {
    let truth = make_truth();
    let schema = json(r#"{"type": "object", "properties": {"name": {"type": "string"}}}"#);
    let result = evaluate(&truth, &schema);
    assert!(result.is_accepted());
}

#[test]
fn evaluate_reject() {
    let truth = make_truth();
    let schema = json(
        r#"{"type": "object", "allOf": [{"properties": {"x": {"type": "string"}}}], "properties": {}}"#,
    );
    let result = evaluate(&truth, &schema);
    assert!(result.is_rejected());
    let errs = result.errors();
    assert_eq!(errs.len(), 1);
    assert_eq!(errs[0].keyword, "allOf");
    assert_eq!(errs[0].pointer, "/allOf");
    assert_eq!(errs[0].message, "allOf is not supported");
}

#[test]
fn evaluate_strip() {
    let truth = make_truth();
    let schema = json(r#"{"type": "object", "description": "a schema", "properties": {}}"#);
    let result = evaluate(&truth, &schema);
    assert!(result.is_accepted());
    if let TruthResult::Accepted { transformed } = &result {
        assert!(matches!(transformed, JsonValue::Object(_)));
        assert!(member(transformed, "description").is_none());
    }
}

#[test]
fn evaluate_unknown_keyword_passes() {
    let truth = make_truth();
    let schema = json(r#"{"type": "object", "title": "test", "properties": {}}"#);
    let result = evaluate(&truth, &schema);
    assert!(result.is_accepted());
}

#[test]
fn evaluate_nested_reject() {
    let truth = make_truth();
    let schema = json(
        r#"{"type": "object", "properties": {"inner": {"type": "object", "allOf": [{"properties": {"x": {"type": "string"}}}], "properties": {}}}}"#,
    );
    let result = evaluate(&truth, &schema);
    assert!(result.is_rejected());
    let errs = result.errors();
    assert_eq!(errs.len(), 1);
    assert_eq!(errs[0].keyword, "allOf");
    assert!(errs[0].pointer.contains("allOf"));
}

#[test]
fn invalid_truth_toml_errors() {
    let result = parse_truth("not valid toml = ");
    assert!(result.is_err());
}

#[test]
fn invalid_test_schema_json_errors() {
    let result = parse_truth(
        r#"
[provider]
name = "test"
version = "1.0"
behavior = "strict"

[[keywords]]
name = "type"
behavior = "accept"
test_schema = '''
{ invalid json
'''
"#,
    );
    assert!(result.is_err());
    match result {
        Err(TruthLoadError::InvalidSchema(name, _)) => assert_eq!(name, "type"),
        other => panic!("unexpected {other:?}"),
    }
}

#[test]
fn truth_roundtrip() {
    let truth = make_truth();
    assert_eq!(truth.provider.name, "test");
    assert_eq!(truth.provider.behavior, ProviderBehavior::Strict);
    assert_eq!(truth.keywords.len(), 3);
}

#[test]
fn structural_tests_deserialize() {
    let truth = parse_truth(
        r#"
[provider]
name = "test"
version = "1.0"
behavior = "strict"

[[structural_tests]]
limit_name = "max-depth"
test_schema = '''
{ "type": "object", "properties": { "a": { "type": "object", "properties": { "b": { "type": "object", "properties": {} } } } } }
'''
expected_behavior = "reject"
expected_error_path = "/"
"#,
    )
    .unwrap();
    assert_eq!(truth.structural_tests.len(), 1);
    assert_eq!(truth.structural_tests[0].limit_name, "max-depth");
    assert_eq!(
        truth.structural_tests[0].expected_behavior,
        KeywordBehavior::Reject
    );
}

#[test]
fn evaluate_strip_with_expected_transformed() {
    let truth = parse_truth(
        r#"
[provider]
name = "test"
version = "1.0"
behavior = "strict"

[[keywords]]
name = "type"
behavior = "accept"
test_schema = '''
{ "type": "object", "properties": {} }
'''

[[keywords]]
name = "description"
behavior = "strip"
test_schema = '''
{ "type": "object", "description": "original", "properties": {} }
'''
expected_transformed = '''
"replaced description"
'''
"#,
    )
    .unwrap();
    let schema = json(r#"{"type": "object", "description": "original", "properties": {}}"#);
    let result = evaluate(&truth, &schema);
    assert!(result.is_accepted());
    if let TruthResult::Accepted { transformed } = &result {
        match member(transformed, "description") {
            Some(JsonValue::String(s)) => assert_eq!(s, "replaced description"),
            other => panic!("expected accepted result, got {other:?}"),
        }
    } else {
        panic!("expected accepted result");
    }
}

#[test]
fn missing_provider_and_bad_variant_are_parse_errors() {
    match parse_truth("[other]\nx = 1\n") {
        Err(TruthLoadError::Parse(m)) => assert_eq!(m, "missing field `provider`"),
        other => panic!("unexpected {other:?}"),
    }
    match parse_truth("[provider]\nname = \"p\"\nversion = \"1\"\nbehavior = \"lenient\"\n") {
        Err(TruthLoadError::Parse(m)) => assert_eq!(m, "unknown variant for field `behavior`"),
        other => panic!("unexpected {other:?}"),
    }
    let e = TruthLoadError::InvalidSchema("type".into(), "boom".into());
    assert_eq!(e.message(), "Invalid test schema for 'type': boom");
}

#[test]
fn default_message_and_pointer_for_rejected_keyword() {
    let truth = parse_truth(
        r#"
[provider]
name = "p"
version = "1"
behavior = "permissive"

[[keywords]]
name = "minLength"
behavior = "reject"
test_schema = '{"type": "string", "minLength": 1}'
"#,
    )
    .unwrap();
    let schema = json(r#"{"anyOf": [{"type": "string", "minLength": 1}]}"#);
    let result = evaluate(&truth, &schema);
    let errs = result.errors();
    assert_eq!(errs.len(), 1);
    assert_eq!(errs[0].message, "keyword 'minLength' is not supported");
    assert_eq!(errs[0].pointer, "/anyOf/0/minLength");
}

#[test]
fn structural_helpers() {
    assert_eq!(rule_suffix("require_object_root"), Some("-S-object-root"));
    assert_eq!(rule_suffix("allof_with_ref__nested"), Some("-S-allof-with-ref"));
    assert_eq!(
        rule_suffix("require_additional_properties_false"),
        Some("-S-additional-properties-false")
    );
    assert_eq!(rule_suffix("max-depth"), None);
    assert_eq!(
        rule_suffix("require_all_properties_in_required__accept"),
        Some("-S-all-properties-required")
    );
    assert_eq!(rule_suffix("max_object_depth__reject"), Some("-S-max-depth"));
    assert_eq!(rule_suffix("forbid_allof_with_ref"), Some("-S-allof-with-ref"));
    assert_eq!(root_pointer(""), "/");
    assert_eq!(root_pointer("/items"), "/items");
    let o = StructuralTruthOutcome {
        limit_name: "x".into(),
        expected: KeywordBehavior::Reject,
        actual: KeywordBehavior::Reject,
        expected_error_path: Some("/".into()),
        actual_error_path: Some("/".into()),
    };
    assert!(o.matches());
    let o2 = StructuralTruthOutcome { actual_error_path: Some("/a".into()), ..o };
    assert!(!o2.matches());
}

fn diag(code: &str, severity: DiagnosticSeverity, pointer: &str) -> Diagnostic {
    Diagnostic {
        code: code.into(),
        severity,
        message: format!("{code} fired"),
        pointer: pointer.into(),
        source: None,
        profile: "p".into(),
        hint: None,
        provider_evidence: None,
    }
}

#[test]
fn production_diagnostics_become_truth_errors() {
    let ds = vec![
        diag("OAI-S-object-root", DiagnosticSeverity::Error, ""),
        diag("OAI-S-hint", DiagnosticSeverity::Warning, "/x"),
    ];
    let r = production_result(json("{}"), &ds);
    assert!(r.is_rejected());
    assert_eq!(r.errors().len(), 1);
    assert_eq!(r.errors()[0].pointer, "/");
    assert_eq!(r.errors()[0].keyword, "OAI-S-object-root");
    let clean = production_result(json("{}"), &vec![diag("W", DiagnosticSeverity::Warning, "")]);
    assert!(clean.is_accepted());
}

#[test]
fn structural_truth_runs_through_the_checker() {
    let truth = parse_truth(
        r#"
[provider]
name = "openai"
version = "1"
behavior = "strict"

[[structural_tests]]
limit_name = "require_object_root__array"
test_schema = '{"type": "array"}'
expected_behavior = "reject"
expected_error_path = "/"
"#,
    )
    .unwrap();
    let check = |_: &JsonValue| -> Result<Vec<Diagnostic>, ProductionEvaluationError> {
        Ok(vec![diag("OAI-S-object-root", DiagnosticSeverity::Error, "")])
    };
    let outcomes = evaluate_structural_truth(&truth, &check).unwrap();
    assert_eq!(outcomes.len(), 1);
    assert!(outcomes[0].matches());
    let direct = structural_case_outcome(&truth.structural_tests[0], "-S-object-root", &vec![]);
    assert_eq!(direct.actual, KeywordBehavior::Accept);
    assert!(!direct.matches());

    let custom = parse_truth("[provider]\nname = \"custom\"\nversion = \"1\"\nbehavior = \"strict\"\n").unwrap();
    assert!(evaluate_structural_truth(&custom, &check).unwrap().is_empty());
    let schema = json(r#"{"type": "array"}"#);
    assert!(evaluate_provider(&custom, &schema, &check).unwrap().is_accepted());
    assert!(evaluate_provider(&truth, &schema, &check).unwrap().is_rejected());
}

#[test]
fn structural_truth_covers_every_rule_and_reports_errors() {
    let truth = parse_truth(
        r#"
[provider]
name = "anthropic"
version = "1"
behavior = "strict"

[[structural_tests]]
limit_name = "require_all_properties_in_required__accept"
test_schema = '{"type": "object"}'
expected_behavior = "accept"

[[structural_tests]]
limit_name = "max_object_depth__reject"
test_schema = '{"type": "object"}'
expected_behavior = "reject"
expected_error_path = "/a"
"#,
    )
    .unwrap();
    let check = |_: &JsonValue| -> Result<Vec<Diagnostic>, ProductionEvaluationError> {
        Ok(vec![diag("ANT-S-max-depth", DiagnosticSeverity::Error, "/a")])
    };
    let outcomes = evaluate_structural_truth(&truth, &check).unwrap();
    assert_eq!(outcomes.len(), 2);
    assert_eq!(outcomes[0].actual, KeywordBehavior::Accept);
    assert!(outcomes[0].matches());
    assert_eq!(outcomes[1].actual, KeywordBehavior::Reject);
    assert_eq!(outcomes[1].actual_error_path.as_deref(), Some("/a"));
    assert!(outcomes[1].matches());

    let failing = |_: &JsonValue| -> Result<Vec<Diagnostic>, ProductionEvaluationError> {
        Err(ProductionEvaluationError::Rules("boom".into()))
    };
    match evaluate_structural_truth(&truth, &failing) {
        Err(ProductionEvaluationError::Rules(m)) => assert_eq!(m, "boom"),
        other => panic!("unexpected {other:?}"),
    }
    let schema = json(r#"{"type": "object"}"#);
    match evaluate_provider(&truth, &schema, &failing) {
        Err(ProductionEvaluationError::Rules(m)) => assert_eq!(m, "boom"),
        other => panic!("unexpected {other:?}"),
    }

    let unknown = parse_truth(
        r#"
[provider]
name = "openai"
version = "1"
behavior = "strict"

[[structural_tests]]
limit_name = "no_such_rule"
test_schema = '{}'
expected_behavior = "accept"
"#,
    )
    .unwrap();
    match evaluate_structural_truth(&unknown, &check) {
        Err(ProductionEvaluationError::UnknownStructuralCase(n)) => assert_eq!(n, "no_such_rule"),
        other => panic!("unexpected {other:?}"),
    }
}
