//! Check reports: coverage of the inputs, failures, and the verdict.
use vstd::prelude::*;

use crate::diagnostic::{Diagnostic, DiagnosticSeverity};
use crate::text::{concat2, decimal, decimal_text, owned};

verus! {

/// How many inputs were attempted, excluded, discovered, checked and failed.
#[derive(Debug, Clone, Copy, PartialEq, Eq, Structural)]
pub struct CoverageCounts {
    pub attempted: usize,
    pub excluded: usize,
    pub discovered: usize,
    pub checked: usize,
    pub failed: usize,
}

impl Default for CoverageCounts {
    fn default() -> (r: Self)
        ensures
            r == (CoverageCounts { attempted: 0, excluded: 0, discovered: 0, checked: 0, failed: 0 }),
    {
        CoverageCounts { attempted: 0, excluded: 0, discovered: 0, checked: 0, failed: 0 }
    }
}

/// The verdict on coverage.
#[derive(Debug, Clone, Copy, PartialEq, Eq, Structural)]
pub enum CoverageStatus {
    Complete,
    Empty,
    Partial,
    Failed,
}

/// Nothing discovered is `Empty` without failures and `Failed` with them;
/// otherwise any failure, or any discovered target left unchecked, makes the
/// coverage `Partial`.
pub open spec fn coverage_status(c: CoverageCounts) -> CoverageStatus {
    if c.discovered == 0 {
        if c.failed == 0 {
            CoverageStatus::Empty
        } else {
            CoverageStatus::Failed
        }
    } else if c.failed > 0 || c.checked != c.discovered {
        CoverageStatus::Partial
    } else {
        CoverageStatus::Complete
    }
}

impl CoverageCounts {
    /// The coverage verdict, as `coverage_status` states.
    pub fn status(self) -> (r: CoverageStatus)
        ensures
            r == coverage_status(self),
    {
        if self.discovered == 0 {
            if self.failed == 0 {
                CoverageStatus::Empty
            } else {
                CoverageStatus::Failed
            }
        } else if self.failed > 0 || self.checked != self.discovered {
            CoverageStatus::Partial
        } else {
            CoverageStatus::Complete
        }
    }

    /// Something was discovered, nothing failed, and all of it was checked.
    pub fn is_complete(self) -> (r: bool)
        ensures
            r == (coverage_status(self) == CoverageStatus::Complete),
            r == (self.discovered > 0 && self.failed == 0 && self.checked == self.discovered),
    {
        self.status() == CoverageStatus::Complete
    }
}

impl CoverageStatus {
    /// The status in lower case.
    pub open spec fn spec_name(self) -> Seq<char> {
        match self {
            CoverageStatus::Complete => "complete"@,
            CoverageStatus::Empty => "empty"@,
            CoverageStatus::Partial => "partial"@,
            CoverageStatus::Failed => "failed"@,
        }
    }

    /// The status in lower case.
    pub fn as_str(self) -> (r: &'static str)
        ensures
            r@ == self.spec_name(),
    {
        match self {
            CoverageStatus::Complete => "complete",
            CoverageStatus::Empty => "empty",
            CoverageStatus::Partial => "partial",
            CoverageStatus::Failed => "failed",
        }
    }
}

/// A message about one target.
#[derive(Debug, Clone, PartialEq, Eq)]
pub struct ReportMessage {
    pub target: String,
    pub message: String,
}

/// Everything a check found.
pub struct CheckReport {
    pub coverage: CoverageCounts,
    pub failures: Vec<ReportMessage>,
    pub warnings: Vec<ReportMessage>,
    /// Diagnostics grouped by the path of the schema they are about.
    pub diagnostics: Vec<(String, Vec<Diagnostic>)>,
    pub total_errors: usize,
    pub total_warnings: usize,
    pub profiles: Vec<String>,
    pub duration_ms: Option<u64>,
}

/// A check succeeds when its coverage is complete and no error was found.
pub open spec fn report_success(r: CheckReport) -> bool {
    coverage_status(r.coverage) == CoverageStatus::Complete && r.total_errors == 0
}

/// The one-line summary of why a check did not succeed.
pub open spec fn summary_text(r: CheckReport) -> Seq<char> {
    if coverage_status(r.coverage) != CoverageStatus::Complete {
        "coverage "@ + coverage_status(r.coverage).spec_name() + ": "@ + decimal(r.coverage.discovered as nat)
            + " discovered, "@ + decimal(r.coverage.checked as nat) + " checked, "@ + decimal(
            r.coverage.failed as nat,
        ) + " failed"@
    } else {
        decimal(r.total_errors as nat) + " error diagnostic(s)"@
    }
}

/// The process exit code when the output file cannot be written.
pub const OUTPUT_WRITE_FAILED_EXIT_CODE: i32 = 2;

impl CheckReport {
    /// Did the check succeed?
    pub fn success(&self) -> (r: bool)
        ensures
            r == report_success(*self),
    {
        self.coverage.is_complete() && self.total_errors == 0
    }

    /// The process exit code: 0 on success, else 1.
    pub fn exit_code(&self) -> (r: i32)
        ensures
            r == (if report_success(*self) { 0i32 } else { 1i32 }),
    {
        if self.success() {
            0
        } else {
            1
        }
    }

    /// Why the check did not succeed: incomplete coverage first, else the
    /// number of error diagnostics.
    pub fn failure_summary(&self) -> (r: String)
        ensures
            r@ == summary_text(*self),
    {
        if !self.coverage.is_complete() {
            let mut s = concat2("coverage ", self.coverage.status().as_str());
            s.append(": ");
            s.append(decimal_text(self.coverage.discovered).as_str());
            s.append(" discovered, ");
            s.append(decimal_text(self.coverage.checked).as_str());
            s.append(" checked, ");
            s.append(decimal_text(self.coverage.failed).as_str());
            s.append(" failed");
            s
        } else {
            concat2(decimal_text(self.total_errors).as_str(), " error diagnostic(s)")
        }
    }
}

/// Success exactly when coverage is complete and no error diagnostic was
/// counted; the exit code is 0 exactly on success.
pub proof fn lemma_success_and_exit_code(r: CheckReport)
    ensures
        report_success(r) <==> (r.coverage.discovered > 0 && r.coverage.failed == 0
            && r.coverage.checked == r.coverage.discovered && r.total_errors == 0),
{
}

} // verus!
