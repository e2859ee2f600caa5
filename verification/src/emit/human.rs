//! rustc-style human-readable text.
use vstd::prelude::*;

use crate::diagnostic::Diagnostic;
use crate::emit::gha::{severity_str, severity_word};
use crate::text::{decimal, decimal_text, owned};

verus! {

/// The block for one diagnostic of the schema at `path`.
pub open spec fn human_block(path: Seq<char>, d: Diagnostic) -> Seq<char> {
    severity_word(d.severity) + "["@ + d.code@ + "]: "@ + d.message@ + "\n"@
        + "   --> "@ + path + "\n"@
        + "     |\n"@
        + "     = profile: "@ + d.profile@ + "\n"@
        + "     = schema path: "@ + d.pointer@ + "\n"@
        + match d.hint {
            Some(h) => "     = hint: "@ + h@ + "\n"@,
            None => Seq::empty(),
        }
        + "     = see: https://schemalint.dev/rules/"@ + d.code@ + "\n"@
        + "\n"@
}

pub open spec fn human_blocks(path: Seq<char>, ds: Seq<Diagnostic>) -> Seq<char>
    decreases ds.len(),
{
    if ds.len() == 0 {
        Seq::empty()
    } else {
        human_blocks(path, ds.drop_last()) + human_block(path, ds.last())
    }
}

pub open spec fn human_groups(groups: Seq<(String, Vec<Diagnostic>)>) -> Seq<char>
    decreases groups.len(),
{
    if groups.len() == 0 {
        Seq::empty()
    } else {
        human_groups(groups.drop_last()) + human_blocks(groups.last().0@, groups.last().1@)
    }
}

/// The plural ending for a count.
pub open spec fn plural(n: nat) -> Seq<char> {
    if n == 1 {
        Seq::empty()
    } else {
        "s"@
    }
}

/// The closing summary line.
pub open spec fn human_summary(total_errors: nat, total_warnings: nat, schemas: nat) -> Seq<char> {
    let total = total_errors + total_warnings;
    decimal(total) + " issue"@ + plural(total) + " found ("@ + decimal(total_errors) + " error"@
        + plural(total_errors) + ", "@ + decimal(total_warnings) + " warning"@ + plural(total_warnings)
        + ") across "@ + decimal(schemas) + " schema"@ + plural(schemas) + "\n"@
}

/// The whole human-readable report.
pub open spec fn human_text(groups: Seq<(String, Vec<Diagnostic>)>, total_errors: nat, total_warnings: nat) -> Seq<char> {
    human_groups(groups) + human_summary(total_errors, total_warnings, groups.len())
}

fn plural_str(n: usize) -> (r: &'static str)
    ensures
        r@ == plural(n as nat),
{
    proof {
        reveal_strlit("");
    }
    if n == 1 {
        assert(""@ =~= Seq::<char>::empty());
        ""
    } else {
        "s"
    }
}

fn human_block_exec(path: &str, d: &Diagnostic) -> (r: String)
    ensures
        r@ == human_block(path@, *d),
{
    let mut r = owned(severity_str(d.severity));
    r.append("[");
    r.append(d.code.as_str());
    r.append("]: ");
    r.append(d.message.as_str());
    r.append("\n");
    r.append("   --> ");
    r.append(path);
    r.append("\n");
    r.append("     |\n");
    r.append("     = profile: ");
    r.append(d.profile.as_str());
    r.append("\n");
    r.append("     = schema path: ");
    r.append(d.pointer.as_str());
    r.append("\n");
    let ghost before_hint = r@;
    match &d.hint {
        Some(h) => {
            let mut line = owned("     = hint: ");
            line.append(h.as_str());
            line.append("\n");
            r.append(line.as_str());
        },
        None => {
            assert(before_hint + Seq::empty() =~= before_hint);
        },
    }
    r.append("     = see: https://schemalint.dev/rules/");
    r.append(d.code.as_str());
    r.append("\n");
    r.append("\n");
    r
}

/// Emit diagnostics in rustc-style human-readable format, as text.
pub fn emit_human_to_string(
    diagnostics: &[(String, Vec<Diagnostic>)],
    total_errors: usize,
    total_warnings: usize,
) -> (r: String)
    requires
        total_errors + total_warnings <= usize::MAX,
    ensures
        r@ == human_text(diagnostics@, total_errors as nat, total_warnings as nat),
{
    let mut out = String::new();
    let mut g: usize = 0;
    assert(diagnostics@.take(0) =~= Seq::<(String, Vec<Diagnostic>)>::empty());
    while g < diagnostics.len()
        invariant
            g <= diagnostics.len(),
            out@ == human_groups(diagnostics@.take(g as int)),
        decreases diagnostics.len() - g,
    {
        assert(diagnostics@.take(g + 1).drop_last() =~= diagnostics@.take(g as int));
        let path = diagnostics[g].0.as_str();
        let ds = &diagnostics[g].1;
        let ghost start = out@;
        let mut i: usize = 0;
        assert(ds@.take(0) =~= Seq::<Diagnostic>::empty());
        assert(start + Seq::empty() =~= start);
        while i < ds.len()
            invariant
                i <= ds.len(),
                out@ == start + human_blocks(path@, ds@.take(i as int)),
            decreases ds.len() - i,
        {
            assert(ds@.take(i + 1).drop_last() =~= ds@.take(i as int));
            let block = human_block_exec(path, &ds[i]);
            out.append(block.as_str());
            assert(out@ =~= start + human_blocks(path@, ds@.take(i + 1)));
            i = i + 1;
        }
        assert(ds@.take(ds.len() as int) =~= ds@);
        g = g + 1;
    }
    assert(diagnostics@.take(diagnostics.len() as int) =~= diagnostics@);
    let total = total_errors + total_warnings;
    let schemas = diagnostics.len();
    let mut summary = decimal_text(total);
    summary.append(" issue");
    summary.append(plural_str(total));
    summary.append(" found (");
    summary.append(decimal_text(total_errors).as_str());
    summary.append(" error");
    summary.append(plural_str(total_errors));
    summary.append(", ");
    summary.append(decimal_text(total_warnings).as_str());
    summary.append(" warning");
    summary.append(plural_str(total_warnings));
    summary.append(") across ");
    summary.append(decimal_text(schemas).as_str());
    summary.append(" schema");
    summary.append(plural_str(schemas));
    summary.append("\n");
    out.append(summary.as_str());
    out
}

} // verus!
