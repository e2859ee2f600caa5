use schemalint::docs_url::{rule_path, rule_url, DOCS_BASE_URL};

#[test]
fn keyword_code_maps_to_keyword_page() {
    assert_eq!(
        rule_url("OAI-K-allOf"),
        format!("{DOCS_BASE_URL}/rules/keyword/allOf")
    );
}

#[test]
fn restricted_code_maps_to_restriction_page() {
    assert_eq!(
        rule_url("OAI-K-format-restricted"),
        format!("{DOCS_BASE_URL}/rules/restriction/format-restricted")
    );
    assert_eq!(
        rule_url("ANT-K-minItems-restricted"),
        format!("{DOCS_BASE_URL}/rules/restriction/minItems-restricted")
    );
}

#[test]
fn structural_code_maps_to_structural_page() {
    assert_eq!(
        rule_url("OAI-S-all-properties-required"),
        format!("{DOCS_BASE_URL}/rules/structural/all-properties-required")
    );
}

#[test]
fn semantic_code_maps_to_semantic_page() {
    assert_eq!(
        rule_url("OAI-S-empty-object"),
        format!("{DOCS_BASE_URL}/rules/semantic/empty-object")
    );
    assert_eq!(
        rule_url("ANT-S-anyof-objects"),
        format!("{DOCS_BASE_URL}/rules/semantic/anyof-objects")
    );
}

#[test]
fn unrecognized_code_falls_back_to_index() {
    assert_eq!(rule_url("garbage"), format!("{DOCS_BASE_URL}/rules"));
}

#[test]
fn rule_path_is_none_for_unknown_codes() {
    assert_eq!(rule_path("garbage"), None);
    assert_eq!(rule_path("OAI-X-allOf"), None);
    assert_eq!(rule_path("OAI-K-allOf"), Some("keyword/allOf".to_string()));
    assert_eq!(rule_path("OAI-K-"), None);
}
