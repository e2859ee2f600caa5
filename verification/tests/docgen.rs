use schemalint::json::{compact_json_text, parse_json_text};
use schemalint::normalize::arena::parse_node;
use schemalint::profile::keyword::Keyword;
use schemalint::docgen::{build_index, build_rule_page, expand_code, DedupedRule, ProfileInfo, RuleCategory};

fn rule(see_also: Vec<String>) -> DedupedRule {
    DedupedRule {
        name: "no-allof".into(),
        description: "Forbids allOf.".into(),
        rationale: "Providers reject it.".into(),
        severity: "Error".into(),
        category: RuleCategory::Keyword,
        bad_example: "{\"allOf\": []}".into(),
        good_example: "{}".into(),
        see_also,
        profile_codes: vec![("openai.so.2026-04-30".into(), "OAI-K-allOf".into())],
        profiles: vec![],
    }
}

fn profiles() -> Vec<ProfileInfo> {
    vec![
        ProfileInfo { name: "openai.so.2026-04-30".into(), code_prefix: "OAI".into() },
        ProfileInfo { name: "anthropic.so.2026-04-30".into(), code_prefix: "ANT".into() },
    ]
}

#[test]
fn codes_expand_every_prefix() {
    assert_eq!(expand_code("{prefix}-K-allOf", "OAI"), "OAI-K-allOf");
    assert_eq!(expand_code("{prefix}{prefix}", "A"), "AA");
    assert_eq!(expand_code("{prefix", "A"), "{prefix");
    assert_eq!(expand_code("", "A"), "");
}

#[test]
fn rule_page_lists_codes_and_examples() {
    let page = build_rule_page(&rule(vec![]), &profiles());
    assert_eq!(
        page,
        "# no-allof\n\n> Category: **Keyword** — presence of a specific JSON Schema keyword triggers this rule\n\n## Error Codes\n\n| Profile | Code |\n|---------|------|\n| openai.so.2026-04-30 | `OAI-K-allOf` |\n\n## Description\n\nForbids allOf.\n\n## Rationale\n\nProviders reject it.\n\n## Bad Example\n\n```json\n{\"allOf\": []}\n```\n\n## Good Example\n\n```json\n{}\n```\n"
    );
    let with_links = build_rule_page(&rule(vec!["https://x".into()]), &profiles());
    assert!(with_links.contains("## See Also\n\n- https://x\n\n## Bad Example"));
}

#[test]
fn index_marks_missing_codes() {
    let index = build_index(&vec![rule(vec![])], &profiles());
    assert_eq!(
        index,
        "# Rule Reference\n\nThis page lists all lint rules grouped by category.\n\n| Rule | Category | Severity | openai.so.2026-04-30 | anthropic.so.2026-04-30 | \n|------|----------|----------|------|------|\n| [no-allof](./keyword/no-allof.md) | keyword | Error | `OAI-K-allOf` | `—` | \n"
    );
}

#[test]
fn keyword_accessor_reads_the_node() {
    let node = parse_node(&parse_json_text(r#"{"type":"object","minItems":2}"#).unwrap()).unwrap();
    assert_eq!(compact_json_text(Keyword::Type.accessor(&node).unwrap()), "\"object\"");
    assert_eq!(compact_json_text(Keyword::MinItems.accessor(&node).unwrap()), "2");
    assert!(Keyword::Items.accessor(&node).is_none());
}
