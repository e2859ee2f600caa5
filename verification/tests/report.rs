use schemalint::report::{CheckReport, CoverageCounts, CoverageStatus, ReportMessage};

#[test]
fn coverage_status_is_strict() {
    assert_eq!(CoverageCounts::default().status(), CoverageStatus::Empty);
    assert_eq!(
        CoverageCounts {
            attempted: 2,
            discovered: 1,
            checked: 1,
            failed: 1,
            ..CoverageCounts::default()
        }
        .status(),
        CoverageStatus::Partial
    );
    assert_eq!(
        CoverageCounts {
            attempted: 1,
            discovered: 1,
            checked: 1,
            ..CoverageCounts::default()
        }
        .status(),
        CoverageStatus::Complete
    );
}

fn report(coverage: CoverageCounts, total_errors: usize) -> CheckReport {
    CheckReport {
        coverage,
        failures: vec![],
        warnings: vec![],
        diagnostics: vec![],
        total_errors,
        total_warnings: 0,
        profiles: vec![],
        duration_ms: None,
    }
}

#[test]
fn failed_status_when_nothing_discovered_but_failures() {
    let c = CoverageCounts { attempted: 1, failed: 1, ..CoverageCounts::default() };
    assert_eq!(c.status(), CoverageStatus::Failed);
    assert!(!c.is_complete());
    assert_eq!(CoverageStatus::Failed.as_str(), "failed");
    assert_eq!(CoverageStatus::Partial.as_str(), "partial");
    assert_eq!(CoverageStatus::Empty.as_str(), "empty");
    assert_eq!(CoverageStatus::Complete.as_str(), "complete");
}

#[test]
fn success_requires_complete_coverage_and_no_errors() {
    let complete = CoverageCounts { attempted: 2, discovered: 2, checked: 2, ..CoverageCounts::default() };
    let ok = report(complete, 0);
    assert!(ok.success());
    assert_eq!(ok.exit_code(), 0);
    let errors = report(complete, 3);
    assert!(!errors.success());
    assert_eq!(errors.exit_code(), 1);
    assert_eq!(errors.failure_summary(), "3 error diagnostic(s)");
    let partial = CoverageCounts { attempted: 3, discovered: 2, checked: 1, failed: 1, ..CoverageCounts::default() };
    let r = report(partial, 0);
    assert!(!r.success());
    assert_eq!(r.exit_code(), 1);
    assert_eq!(
        r.failure_summary(),
        "coverage partial: 2 discovered, 1 checked, 1 failed"
    );
    let _ = ReportMessage { target: "t".into(), message: "m".into() };
}

#[test]
fn an_unwritable_output_file_exits_with_two() {
    assert_eq!(schemalint::report::OUTPUT_WRITE_FAILED_EXIT_CODE, 2);
}
