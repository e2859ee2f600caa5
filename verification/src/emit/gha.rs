//! GitHub Actions workflow commands.
use vstd::prelude::*;

use crate::diagnostic::{Diagnostic, DiagnosticSeverity};
use crate::text::owned;

verus! {

/// The word for a severity.
pub open spec fn severity_word(s: DiagnosticSeverity) -> Seq<char> {
    match s {
        DiagnosticSeverity::Error => "error"@,
        DiagnosticSeverity::Warning => "warning"@,
    }
}

/// The word for a severity.
pub fn severity_str(s: DiagnosticSeverity) -> (r: &'static str)
    ensures
        r@ == severity_word(s),
{
    match s {
        DiagnosticSeverity::Error => "error",
        DiagnosticSeverity::Warning => "warning",
    }
}

/// The workflow command for one diagnostic of the schema at `path`.
pub open spec fn gha_line(path: Seq<char>, d: Diagnostic) -> Seq<char> {
    "::"@ + severity_word(d.severity) + " file="@ + path + ",title="@ + d.code@ + "::"@ + d.message@
        + " [profile: "@ + d.profile@ + "]\n"@
}

/// The commands for the diagnostics of one schema, in order.
pub open spec fn gha_lines(path: Seq<char>, ds: Seq<Diagnostic>) -> Seq<char>
    decreases ds.len(),
{
    if ds.len() == 0 {
        Seq::empty()
    } else {
        gha_lines(path, ds.drop_last()) + gha_line(path, ds.last())
    }
}

/// The commands for every schema, in order.
pub open spec fn gha_text(groups: Seq<(String, Vec<Diagnostic>)>) -> Seq<char>
    decreases groups.len(),
{
    if groups.len() == 0 {
        Seq::empty()
    } else {
        gha_text(groups.drop_last()) + gha_lines(groups.last().0@, groups.last().1@)
    }
}

fn gha_line_exec(path: &str, d: &Diagnostic) -> (r: String)
    ensures
        r@ == gha_line(path@, *d),
{
    let mut r = owned("::");
    r.append(severity_str(d.severity));
    r.append(" file=");
    r.append(path);
    r.append(",title=");
    r.append(d.code.as_str());
    r.append("::");
    r.append(d.message.as_str());
    r.append(" [profile: ");
    r.append(d.profile.as_str());
    r.append("]\n");
    r
}

/// Emit diagnostics as GitHub Actions workflow commands.
pub fn emit_gha_to_string(
    diagnostics: &[(String, Vec<Diagnostic>)],
    _total_errors: usize,
    _total_warnings: usize,
    _profile_names: &[String],
    _duration_ms: Option<u64>,
) -> (r: String)
    ensures
        r@ == gha_text(diagnostics@),
{
    let mut out = String::new();
    let mut g: usize = 0;
    assert(diagnostics@.take(0) =~= Seq::<(String, Vec<Diagnostic>)>::empty());
    while g < diagnostics.len()
        invariant
            g <= diagnostics.len(),
            out@ == gha_text(diagnostics@.take(g as int)),
        decreases diagnostics.len() - g,
    {
        assert(diagnostics@.take(g + 1).drop_last() =~= diagnostics@.take(g as int));
        let path = diagnostics[g].0.as_str();
        let ds = &diagnostics[g].1;
        let ghost start = out@;
        let mut i: usize = 0;
        assert(ds@.take(0) =~= Seq::<Diagnostic>::empty());
        assert(start + Seq::empty() =~= start);
        while i < ds.len()
            invariant
                i <= ds.len(),
                out@ == start + gha_lines(path@, ds@.take(i as int)),
            decreases ds.len() - i,
        {
            assert(ds@.take(i + 1).drop_last() =~= ds@.take(i as int));
            let line = gha_line_exec(path, &ds[i]);
            out.append(line.as_str());
            assert(out@ =~= start + gha_lines(path@, ds@.take(i + 1)));
            i = i + 1;
        }
        assert(ds@.take(ds.len() as int) =~= ds@);
        g = g + 1;
    }
    assert(diagnostics@.take(diagnostics.len() as int) =~= diagnostics@);
    out
}

} // verus!
