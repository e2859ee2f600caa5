//! Rendering a check report in the requested output format.
use vstd::prelude::*;

use crate::args::OutputFormat;
use crate::emit::gha::{emit_gha_to_string, gha_text};
use crate::emit::human::{emit_human_to_string, human_text};
use crate::emit::json_report::{emit_report_to_string, json_document};
use crate::emit::junit::{emit_junit_to_string, junit_text};
use crate::emit::sarif::{all_diagnostics, emit_sarif_to_string, rule_codes, sarif_document};
use crate::json::json_pretty_text;
use crate::report::{coverage_status, CheckReport, CoverageCounts, ReportMessage};
use crate::text::{concat3, decimal, decimal_text, owned};

verus! {

/// `prefix target: message` lines, one per message.
pub open spec fn message_block(prefix: Seq<char>, ms: Seq<ReportMessage>) -> Seq<char>
    decreases ms.len(),
{
    if ms.len() == 0 {
        Seq::empty()
    } else {
        message_block(prefix, ms.drop_last()) + prefix + ms.last().target@ + ": "@ + ms.last().message@ + "\n"@
    }
}

/// The coverage line of the human format, then its failures and warnings.
pub open spec fn coverage_block(r: CheckReport) -> Seq<char> {
    "coverage "@ + coverage_status(r.coverage).spec_name() + " ("@ + decimal(r.coverage.attempted as nat)
        + " attempted, "@ + decimal(r.coverage.excluded as nat) + " excluded, "@ + decimal(
        r.coverage.discovered as nat,
    ) + " discovered, "@ + decimal(r.coverage.checked as nat) + " checked, "@ + decimal(r.coverage.failed as nat)
        + " failed)\n"@ + message_block("error: "@, r.failures@) + message_block("warning: "@, r.warnings@)
}

/// The text of a report in a format.
pub open spec fn rendered(format: OutputFormat, r: CheckReport) -> Seq<char> {
    match format {
        OutputFormat::Human => human_text(r.diagnostics@, r.total_errors as nat, r.total_warnings as nat) + coverage_block(r),
        OutputFormat::Json => json_pretty_text(json_document(
            r.diagnostics@,
            r.total_errors as nat,
            r.total_warnings as nat,
            r.profiles@,
            r.duration_ms,
            r.coverage,
            r.failures@,
            r.warnings@,
        )) + "\n"@,
        OutputFormat::Sarif => json_pretty_text(sarif_document(r.diagnostics@, rule_codes(all_diagnostics(r.diagnostics@))))
            + "\n"@,
        OutputFormat::Gha => gha_text(r.diagnostics@),
        OutputFormat::Junit => junit_text(r.diagnostics@),
    }
}

fn append_messages(out: &mut String, prefix: &str, ms: &[ReportMessage])
    ensures
        final(out)@ == old(out)@ + message_block(prefix@, ms@),
{
    let ghost start = out@;
    let mut i: usize = 0;
    assert(ms@.take(0) =~= Seq::<ReportMessage>::empty());
    assert(start + Seq::empty() =~= start);
    while i < ms.len()
        invariant
            i <= ms.len(),
            out@ == start + message_block(prefix@, ms@.take(i as int)),
        decreases ms.len() - i,
    {
        assert(ms@.take(i + 1).drop_last() =~= ms@.take(i as int));
        let mut line = concat3(prefix, ms[i].target.as_str(), ": ");
        line.append(ms[i].message.as_str());
        line.append("\n");
        out.append(line.as_str());
        assert(out@ =~= start + message_block(prefix@, ms@.take(i + 1)));
        i = i + 1;
    }
    assert(ms@.take(ms.len() as int) =~= ms@);
}

/// Render diagnostics to a String in the requested output format.
///
/// This is the single source of truth for format dispatch: the command line
/// and the JSON-RPC server both render through it.
pub fn render_output(format: OutputFormat, report: &CheckReport) -> (r: String)
    requires
        report.total_errors + report.total_warnings <= usize::MAX,
    ensures
        r@ == rendered(format, *report),
{
    let diags = report.diagnostics.as_slice();
    match format {
        OutputFormat::Human => {
            let mut output = emit_human_to_string(diags, report.total_errors, report.total_warnings);
            let c = report.coverage;
            let mut line = concat3("coverage ", c.status().as_str(), " (");
            line.append(decimal_text(c.attempted).as_str());
            line.append(" attempted, ");
            line.append(decimal_text(c.excluded).as_str());
            line.append(" excluded, ");
            line.append(decimal_text(c.discovered).as_str());
            line.append(" discovered, ");
            line.append(decimal_text(c.checked).as_str());
            line.append(" checked, ");
            line.append(decimal_text(c.failed).as_str());
            line.append(" failed)\n");
            output.append(line.as_str());
            append_messages(&mut output, "error: ", report.failures.as_slice());
            append_messages(&mut output, "warning: ", report.warnings.as_slice());
            output
        },
        OutputFormat::Json => emit_report_to_string(report),
        OutputFormat::Sarif => emit_sarif_to_string(diags),
        OutputFormat::Gha => emit_gha_to_string(
            diags,
            report.total_errors,
            report.total_warnings,
            report.profiles.as_slice(),
            report.duration_ms,
        ),
        OutputFormat::Junit => emit_junit_to_string(
            diags,
            report.total_errors,
            report.total_warnings,
            report.profiles.as_slice(),
            report.duration_ms,
        ),
    }
}

/// Every format renders as its own emitter does: JSON and SARIF as their
/// pretty documents followed by a newline, GitHub Actions and JUnit as their
/// texts with nothing appended, and the human format as the human text
/// followed by the coverage block: the coverage line, then one
/// `error: target: message` line per failure and one
/// `warning: target: message` line per warning, in order.
pub proof fn lemma_rendered_formats(r: CheckReport)
    ensures
        rendered(OutputFormat::Json, r) == json_pretty_text(json_document(
            r.diagnostics@,
            r.total_errors as nat,
            r.total_warnings as nat,
            r.profiles@,
            r.duration_ms,
            r.coverage,
            r.failures@,
            r.warnings@,
        )) + "\n"@,
        rendered(OutputFormat::Sarif, r) == json_pretty_text(
            sarif_document(r.diagnostics@, rule_codes(all_diagnostics(r.diagnostics@))),
        ) + "\n"@,
        rendered(OutputFormat::Gha, r) == gha_text(r.diagnostics@),
        rendered(OutputFormat::Junit, r) == junit_text(r.diagnostics@),
        rendered(OutputFormat::Human, r) == human_text(r.diagnostics@, r.total_errors as nat, r.total_warnings as nat)
            + coverage_block(r),
{
}

/// One more message adds one `prefix target: message` line at the end.
pub proof fn lemma_message_block_push(prefix: Seq<char>, ms: Seq<ReportMessage>, m: ReportMessage)
    ensures
        message_block(prefix, ms.push(m)) == message_block(prefix, ms) + prefix + m.target@ + ": "@ + m.message@
            + "\n"@,
{
    assert(ms.push(m).drop_last() =~= ms);
    assert(ms.push(m).last() == m);
}

/// The report of a run that failed before anything could be checked: one
/// attempted target, failed with `message`.
pub open spec fn failure_report_ok(r: CheckReport, target: Seq<char>, message: Seq<char>, profiles: Seq<String>, duration_ms: u64) -> bool {
    &&& r.coverage == CoverageCounts { attempted: 1, excluded: 0, discovered: 0, checked: 0, failed: 1 }
    &&& r.failures@.len() == 1
    &&& r.failures@[0].target@ == target
    &&& r.failures@[0].message@ == message
    &&& r.warnings@.len() == 0
    &&& r.diagnostics@.len() == 0
    &&& r.total_errors == 0
    &&& r.total_warnings == 0
    &&& r.profiles@ == profiles
    &&& r.duration_ms == Some(duration_ms)
}

/// The report of a run that failed before anything could be checked.
pub fn failure_report(target: String, message: String, profiles: Vec<String>, duration_ms: u64) -> (r: CheckReport)
    ensures
        failure_report_ok(r, target@, message@, profiles@, duration_ms),
{
    let mut failures: Vec<ReportMessage> = Vec::new();
    failures.push(ReportMessage { target, message });
    CheckReport {
        coverage: CoverageCounts { attempted: 1, excluded: 0, discovered: 0, checked: 0, failed: 1 },
        failures,
        warnings: Vec::new(),
        diagnostics: Vec::new(),
        total_errors: 0,
        total_warnings: 0,
        profiles,
        duration_ms: Some(duration_ms),
    }
}

/// What a run that failed before anything could be checked writes, and its
/// exit code, 1.
pub fn emit_failure(
    format: OutputFormat,
    target: String,
    message: String,
    profiles: Vec<String>,
    duration_ms: u64,
) -> (r: (String, i32))
    ensures
        exists|rep: CheckReport| failure_report_ok(rep, target@, message@, profiles@, duration_ms) && r.0@ == rendered(format, rep),
        r.1 == 1,
{
    let report = failure_report(target, message, profiles, duration_ms);
    let text = render_output(format, &report);
    (text, 1)
}

} // verus!
