use schemalint::aggregate::{aggregate_results, build_report, sort_by_profile, TargetEvaluation, TargetIdentity};
use schemalint::diagnostic::{Diagnostic, DiagnosticSeverity};
use schemalint::ingest::ProviderResolution;
use schemalint::report::{CoverageCounts, ReportMessage};

fn diag(profile: &str, severity: DiagnosticSeverity, code: &str) -> Diagnostic {
    Diagnostic {
        code: code.into(),
        severity,
        message: "m".into(),
        pointer: "".into(),
        source: None,
        profile: profile.into(),
        hint: None,
        provider_evidence: None,
    }
}

fn target(path: &str, name: &str) -> TargetIdentity {
    TargetIdentity {
        path: path.into(),
        name: name.into(),
        canonical_kind: String::new(),
        provider: ProviderResolution::default(),
        effective_profiles: vec![],
        envelope: vec![],
        usage_span: None,
    }
}

#[test]
fn failure_labels_name_the_model() {
    assert_eq!(target("a.ts", "").failure_label(), "a.ts");
    assert_eq!(target("a.ts", "User").failure_label(), "a.ts (User)");
}

#[test]
fn profile_sort_is_stable() {
    let sorted = sort_by_profile(vec![
        diag("openai", DiagnosticSeverity::Error, "1"),
        diag("anthropic", DiagnosticSeverity::Error, "2"),
        diag("openai", DiagnosticSeverity::Warning, "3"),
        diag("anthropic", DiagnosticSeverity::Warning, "4"),
    ]);
    let codes: Vec<&str> = sorted.iter().map(|d| d.code.as_str()).collect();
    assert_eq!(codes, vec!["2", "4", "1", "3"]);
}

#[test]
fn aggregation_counts_and_groups() {
    let results = vec![
        TargetEvaluation {
            target: target("b.json", ""),
            outcome: Ok(vec![
                diag("openai", DiagnosticSeverity::Error, "x"),
                diag("anthropic", DiagnosticSeverity::Warning, "y"),
            ]),
        },
        TargetEvaluation { target: target("c.ts", "M"), outcome: Err("normalization failed".into()) },
        TargetEvaluation { target: target("a.json", ""), outcome: Ok(vec![]) },
    ];
    let agg = aggregate_results(results);
    assert_eq!(agg.total_errors, 1);
    assert_eq!(agg.total_warnings, 1);
    assert_eq!(agg.checked, 2);
    assert_eq!(
        agg.failures,
        vec![ReportMessage { target: "c.ts (M)".into(), message: "normalization failed".into() }]
    );
    let paths: Vec<&str> = agg.diagnostics.iter().map(|(p, _)| p.as_str()).collect();
    assert_eq!(paths, vec!["a.json", "b.json"]);
    assert_eq!(agg.diagnostics[1].1[0].profile, "anthropic");
}

#[test]
fn report_adds_failed_targets_to_coverage() {
    let coverage = CoverageCounts { attempted: 3, excluded: 0, discovered: 3, checked: 0, failed: 1 };
    let report = build_report(
        coverage,
        vec![ReportMessage { target: "x".into(), message: "gone".into() }],
        vec![],
        vec![
            TargetEvaluation { target: target("a.json", ""), outcome: Ok(vec![]) },
            TargetEvaluation { target: target("b.json", ""), outcome: Err("bad".into()) },
        ],
        vec!["openai.so.2026-04-30".into()],
        Some(5),
    );
    assert_eq!(report.coverage.checked, 1);
    assert_eq!(report.coverage.failed, 2);
    assert_eq!(report.failures.len(), 2);
    assert_eq!(report.failures[1].target, "b.json");
    assert_eq!(report.exit_code(), 1);
}
