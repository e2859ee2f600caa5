use schemalint::args::OutputFormat;
use schemalint::diagnostic::{Diagnostic, DiagnosticSeverity, SourceSpan};
use schemalint::emit::gha::emit_gha_to_string;
use schemalint::emit::human::emit_human_to_string;
use schemalint::emit::json_report::{emit_json_to_string, emit_report_to_string};
use schemalint::emit::junit::{emit_junit_to_string, escape_xml};
use schemalint::emit::render::{emit_failure, render_output};
use schemalint::emit::sarif::emit_sarif_to_string;
use schemalint::profile::evidence::{EvidenceSource, EvidenceStatus, ProviderEvidence};
use schemalint::report::{CheckReport, CoverageCounts, ReportMessage};

fn diag(code: &str, severity: DiagnosticSeverity, message: &str) -> Diagnostic {
    Diagnostic {
        code: code.into(),
        severity,
        message: message.into(),
        pointer: "/properties/a".into(),
        source: None,
        profile: "openai.so.2026-04-30".into(),
        hint: None,
        provider_evidence: None,
    }
}

fn sample() -> Vec<(String, Vec<Diagnostic>)> {
    let mut warn = diag("OAI-K-format-restricted", DiagnosticSeverity::Warning, "format <x> & 'y'");
    warn.hint = Some("drop it".into());
    vec![
        ("schemas/a.json".to_string(), vec![diag("OAI-K-allOf", DiagnosticSeverity::Error, "allOf unsupported"), warn]),
        ("schemas/b.json".to_string(), vec![]),
    ]
}

#[test]
fn gha_lines_per_diagnostic() {
    let text = emit_gha_to_string(&sample(), 1, 1, &[], None);
    assert_eq!(
        text,
        "::error file=schemas/a.json,title=OAI-K-allOf::allOf unsupported [profile: openai.so.2026-04-30]\n\
         ::warning file=schemas/a.json,title=OAI-K-format-restricted::format <x> & 'y' [profile: openai.so.2026-04-30]\n"
    );
}

#[test]
fn junit_document() {
    assert_eq!(escape_xml("<a & \"b\" 'c'>"), "&lt;a &amp; &quot;b&quot; &apos;c&apos;&gt;");
    let text = emit_junit_to_string(&sample(), 1, 1, &[], None);
    let expected = [
        "<?xml version=\"1.0\" encoding=\"UTF-8\"?>",
        "<testsuites>",
        "  <testsuite name=\"schemas/a.json\" tests=\"2\" failures=\"1\" skipped=\"1\" errors=\"0\" time=\"0\">",
        "    <testcase name=\"OAI-K-allOf - allOf unsupported\" classname=\"schemalint\" time=\"0\">",
        "      <failure type=\"error\" message=\"allOf unsupported\">allOf unsupported</failure>",
        "    </testcase>",
        "    <testcase name=\"OAI-K-format-restricted - format &lt;x&gt; &amp; &apos;y&apos;\" classname=\"schemalint\" time=\"0\">",
        "      <skipped message=\"format &lt;x&gt; &amp; &apos;y&apos;\">format &lt;x&gt; &amp; &apos;y&apos;</skipped>",
        "    </testcase>",
        "  </testsuite>",
        "  <testsuite name=\"schemas/b.json\" tests=\"1\" failures=\"0\" skipped=\"0\" errors=\"0\" time=\"0\">",
        "    <testcase name=\"schemas/b.json\" classname=\"schemalint\" time=\"0\"/>",
        "  </testsuite>",
        "</testsuites>",
        "",
    ]
    .join("\n");
    assert_eq!(text, expected);
}

#[test]
fn human_text_and_summary() {
    let text = emit_human_to_string(&sample(), 1, 1);
    assert!(text.starts_with("error[OAI-K-allOf]: allOf unsupported\n   --> schemas/a.json\n     |\n     = profile: openai.so.2026-04-30\n     = schema path: /properties/a\n     = see: https://schemalint.dev/rules/OAI-K-allOf\n\n"));
    assert!(text.contains("     = hint: drop it\n"));
    assert!(text.ends_with("2 issues found (1 error, 1 warning) across 2 schemas\n"));
    let one = emit_human_to_string(&[("x.json".to_string(), vec![])], 0, 0);
    assert_eq!(one, "0 issues found (0 errors, 0 warnings) across 1 schema\n");
}

fn evidence() -> ProviderEvidence {
    ProviderEvidence {
        status: EvidenceStatus::Documented,
        sources: vec![EvidenceSource { title: "Docs".into(), url: "https://example.com/d".into() }],
        basis: None,
        verified_at: None,
        verification_target: None,
    }
}

#[test]
fn json_output_document() {
    let mut groups = sample();
    groups[0].1[0].provider_evidence = Some(evidence());
    groups[0].1[0].source = Some(SourceSpan { file: "src\\m.ts".into(), line: Some(3), col: None });
    let text = emit_json_to_string(&groups, 1, 1, &["openai.so.2026-04-30".to_string()], Some(12));
    assert!(text.ends_with("}\n"));
    let v: serde_json::Value = serde_json::from_str(&text).unwrap();
    assert_eq!(v["schema_version"], "1.2");
    assert_eq!(v["tool"]["name"], "schemalint");
    assert_eq!(v["summary"]["total_issues"], 2);
    assert_eq!(v["summary"]["schemas_checked"], 2);
    assert_eq!(v["summary"]["duration_ms"], 12);
    assert_eq!(v["diagnostics"][0]["source"]["file"], "src/m.ts");
    assert_eq!(v["diagnostics"][0]["source"]["line"], 3);
    assert_eq!(v["diagnostics"][0]["seeUrl"], "https://1nder-labs.github.io/schemalint/rules/keyword/allOf");
    assert_eq!(v["diagnostics"][0]["providerEvidence"]["status"], "documented");
    assert_eq!(v["diagnostics"][1]["hint"], "drop it");
    assert_eq!(v["diagnostics"][1]["source"]["file"], "schemas/a.json");
    assert!(v["diagnostics"][1]["source"]["line"].is_null());
    assert_eq!(v["report"]["coverage"]["status"], "complete");
    assert_eq!(v["report"]["success"], false);
    let keys: Vec<&String> = v.as_object().unwrap().keys().collect();
    assert_eq!(keys, ["schema_version", "tool", "profiles", "summary", "diagnostics", "report"]);
}

#[test]
fn sarif_rules_sorted_with_first_evidence() {
    let mut groups = sample();
    groups[0].1.push(diag("ANT-S-anyof-objects", DiagnosticSeverity::Error, "m"));
    let mut again = diag("OAI-K-allOf", DiagnosticSeverity::Error, "again");
    again.provider_evidence = Some(evidence());
    groups[1].1.push(again);
    let text = emit_sarif_to_string(&groups);
    let v: serde_json::Value = serde_json::from_str(&text).unwrap();
    assert_eq!(v["version"], "2.1.0");
    let rules = v["runs"][0]["tool"]["driver"]["rules"].as_array().unwrap();
    let ids: Vec<&str> = rules.iter().map(|r| r["id"].as_str().unwrap()).collect();
    assert_eq!(ids, ["ANT-S-anyof-objects", "OAI-K-allOf", "OAI-K-format-restricted"]);
    assert_eq!(rules[1]["properties"]["providerEvidence"]["sources"][0]["title"], "Docs");
    assert!(rules[0].get("properties").is_none());
    let results = v["runs"][0]["results"].as_array().unwrap();
    assert_eq!(results.len(), 4);
    assert_eq!(results[0]["locations"][0]["physicalLocation"]["artifactLocation"]["uri"], "schemas/a.json");
    assert_eq!(results[1]["level"], "warning");
}

#[test]
fn render_human_adds_coverage_and_messages() {
    let report = CheckReport {
        coverage: CoverageCounts { attempted: 3, excluded: 1, discovered: 2, checked: 1, failed: 1 },
        failures: vec![ReportMessage { target: "bad.ts".into(), message: "boom".into() }],
        warnings: vec![ReportMessage { target: "w.ts".into(), message: "careful".into() }],
        diagnostics: vec![],
        total_errors: 0,
        total_warnings: 0,
        profiles: vec![],
        duration_ms: None,
    };
    let text = render_output(OutputFormat::Human, &report);
    assert_eq!(
        text,
        "0 issues found (0 errors, 0 warnings) across 0 schemas\n\
         coverage partial (3 attempted, 1 excluded, 2 discovered, 1 checked, 1 failed)\n\
         error: bad.ts: boom\nwarning: w.ts: careful\n"
    );
    let json = render_output(OutputFormat::Json, &report);
    assert_eq!(json, emit_report_to_string(&report));
    assert_eq!(render_output(OutputFormat::Gha, &report), "");
    let (text, code) = emit_failure(OutputFormat::Gha, "t".into(), "m".into(), vec![], 5);
    assert_eq!(code, 1);
    assert_eq!(text, "");
    let (text, _) = emit_failure(OutputFormat::Human, "t".into(), "m".into(), vec![], 5);
    assert!(text.contains("coverage failed (1 attempted, 0 excluded, 0 discovered, 0 checked, 1 failed)\nerror: t: m\n"));
    let rpc = report.rpc_result("out".into());
    let v: serde_json::Value = serde_json::from_str(&schemalint::json::compact_json_text(&rpc)).unwrap();
    assert_eq!(v["success"], false);
    assert_eq!(v["discovery_errors"][0], "bad.ts: boom");
    assert_eq!(v["discovery_warnings"][0], "w.ts: careful");
    assert_eq!(v["error"], "coverage partial: 2 discovered, 1 checked, 1 failed");
}
