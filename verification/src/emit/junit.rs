//! JUnit XML.
use vstd::prelude::*;

use crate::diagnostic::{Diagnostic, DiagnosticSeverity};
use crate::text::{chars_of, decimal, decimal_text, owned, replace_char, replace_char_exec, string_from_chars};

verus! {

/// `s` with the five XML special characters escaped, `&` first.
pub open spec fn escaped_xml(s: Seq<char>) -> Seq<char> {
    replace_char(
        replace_char(
            replace_char(replace_char(replace_char(s, '&', "&amp;"@), '<', "&lt;"@), '>', "&gt;"@),
            '"',
            "&quot;"@,
        ),
        '\'',
        "&apos;"@,
    )
}

pub fn escape_xml(s: &str) -> (r: String)
    ensures
        r@ == escaped_xml(s@),
{
    let c = chars_of(s);
    let a = replace_char_exec(&c, '&', &chars_of("&amp;"));
    let b = replace_char_exec(&a, '<', &chars_of("&lt;"));
    let d = replace_char_exec(&b, '>', &chars_of("&gt;"));
    let e = replace_char_exec(&d, '"', &chars_of("&quot;"));
    let f = replace_char_exec(&e, '\'', &chars_of("&apos;"));
    string_from_chars(&f)
}

/// How many diagnostics have severity `s`.
pub open spec fn count_severity(ds: Seq<Diagnostic>, s: DiagnosticSeverity) -> nat
    decreases ds.len(),
{
    if ds.len() == 0 {
        0
    } else {
        count_severity(ds.drop_last(), s) + if ds.last().severity == s { 1nat } else { 0nat }
    }
}

proof fn lemma_count_bound(ds: Seq<Diagnostic>, s: DiagnosticSeverity)
    ensures
        count_severity(ds, s) <= ds.len(),
    decreases ds.len(),
{
    if ds.len() > 0 {
        lemma_count_bound(ds.drop_last(), s);
    }
}

pub(crate) fn count_severity_exec(ds: &Vec<Diagnostic>, s: DiagnosticSeverity) -> (r: usize)
    ensures
        r == count_severity(ds@, s),
{
    let mut n: usize = 0;
    let mut i: usize = 0;
    assert(ds@.take(0) =~= Seq::<Diagnostic>::empty());
    while i < ds.len()
        invariant
            i <= ds.len(),
            n == count_severity(ds@.take(i as int), s),
        decreases ds.len() - i,
    {
        assert(ds@.take(i + 1).drop_last() =~= ds@.take(i as int));
        proof {
            lemma_count_bound(ds@.take(i as int), s);
        }
        if ds[i].severity == s {
            n = n + 1;
        }
        i = i + 1;
    }
    assert(ds@.take(ds.len() as int) =~= ds@);
    n
}

/// The opening tag of the suite for the schema at `path`.
pub open spec fn suite_open(path: Seq<char>, ds: Seq<Diagnostic>) -> Seq<char> {
    let tests: nat = if ds.len() == 0 { 1 } else { ds.len() };
    "  <testsuite name=\""@ + escaped_xml(path) + "\" tests=\""@ + decimal(tests) + "\" failures=\""@
        + decimal(count_severity(ds, DiagnosticSeverity::Error)) + "\" skipped=\""@
        + decimal(count_severity(ds, DiagnosticSeverity::Warning)) + "\" errors=\"0\" time=\"0\">\n"@
}

/// The test case of one diagnostic.
pub open spec fn case_text(d: Diagnostic) -> Seq<char> {
    "    <testcase name=\""@ + escaped_xml(d.code@ + " - "@ + d.message@) + "\" classname=\"schemalint\" time=\"0\">\n"@
        + match d.severity {
        DiagnosticSeverity::Error => "      <failure type=\"error\" message=\""@ + escaped_xml(d.message@) + "\">"@
            + escaped_xml(d.message@) + "</failure>\n"@,
        DiagnosticSeverity::Warning => "      <skipped message=\""@ + escaped_xml(d.message@) + "\">"@
            + escaped_xml(d.message@) + "</skipped>\n"@,
    } + "    </testcase>\n"@
}

/// The test cases of a schema's diagnostics, in order.
pub open spec fn cases_text(ds: Seq<Diagnostic>) -> Seq<char>
    decreases ds.len(),
{
    if ds.len() == 0 {
        Seq::empty()
    } else {
        cases_text(ds.drop_last()) + case_text(ds.last())
    }
}

/// The suite for the schema at `path`: one passing case when it has no
/// diagnostics.
pub open spec fn suite_text(path: Seq<char>, ds: Seq<Diagnostic>) -> Seq<char> {
    suite_open(path, ds) + (if ds.len() == 0 {
        "    <testcase name=\""@ + escaped_xml(path) + "\" classname=\"schemalint\" time=\"0\"/>\n"@
    } else {
        cases_text(ds)
    }) + "  </testsuite>\n"@
}

pub open spec fn suites_text(groups: Seq<(String, Vec<Diagnostic>)>) -> Seq<char>
    decreases groups.len(),
{
    if groups.len() == 0 {
        Seq::empty()
    } else {
        suites_text(groups.drop_last()) + suite_text(groups.last().0@, groups.last().1@)
    }
}

/// The whole JUnit document.
pub open spec fn junit_text(groups: Seq<(String, Vec<Diagnostic>)>) -> Seq<char> {
    "<?xml version=\"1.0\" encoding=\"UTF-8\"?>\n"@ + "<testsuites>\n"@ + suites_text(groups) + "</testsuites>\n"@
}

fn case_exec(d: &Diagnostic) -> (r: String)
    ensures
        r@ == case_text(*d),
{
    let mut name = owned(d.code.as_str());
    name.append(" - ");
    name.append(d.message.as_str());
    let mut r = owned("    <testcase name=\"");
    r.append(escape_xml(name.as_str()).as_str());
    r.append("\" classname=\"schemalint\" time=\"0\">\n");
    let m = escape_xml(d.message.as_str());
    let mut body = match d.severity {
        DiagnosticSeverity::Error => owned("      <failure type=\"error\" message=\""),
        DiagnosticSeverity::Warning => owned("      <skipped message=\""),
    };
    body.append(m.as_str());
    body.append("\">");
    body.append(m.as_str());
    match d.severity {
        DiagnosticSeverity::Error => body.append("</failure>\n"),
        DiagnosticSeverity::Warning => body.append("</skipped>\n"),
    }
    r.append(body.as_str());
    r.append("    </testcase>\n");
    r
}

fn suite_exec(path: &str, ds: &Vec<Diagnostic>) -> (r: String)
    ensures
        r@ == suite_text(path@, ds@),
{
    let tests: usize = if ds.len() == 0 { 1 } else { ds.len() };
    let file = escape_xml(path);
    let mut r = owned("  <testsuite name=\"");
    r.append(file.as_str());
    r.append("\" tests=\"");
    r.append(decimal_text(tests).as_str());
    r.append("\" failures=\"");
    r.append(decimal_text(count_severity_exec(ds, DiagnosticSeverity::Error)).as_str());
    r.append("\" skipped=\"");
    r.append(decimal_text(count_severity_exec(ds, DiagnosticSeverity::Warning)).as_str());
    r.append("\" errors=\"0\" time=\"0\">\n");
    let ghost open = r@;
    if ds.len() == 0 {
        r.append("    <testcase name=\"");
        r.append(file.as_str());
        r.append("\" classname=\"schemalint\" time=\"0\"/>\n");
    } else {
        let mut i: usize = 0;
        assert(ds@.take(0) =~= Seq::<Diagnostic>::empty());
        assert(open + Seq::empty() =~= open);
        while i < ds.len()
            invariant
                i <= ds.len(),
                r@ == open + cases_text(ds@.take(i as int)),
            decreases ds.len() - i,
        {
            assert(ds@.take(i + 1).drop_last() =~= ds@.take(i as int));
            let c = case_exec(&ds[i]);
            r.append(c.as_str());
            assert(r@ =~= open + cases_text(ds@.take(i + 1)));
            i = i + 1;
        }
        assert(ds@.take(ds.len() as int) =~= ds@);
    }
    r.append("  </testsuite>\n");
    assert(r@ =~= suite_text(path@, ds@));
    r
}

/// Emit diagnostics as JUnit XML.
pub fn emit_junit_to_string(
    diagnostics: &[(String, Vec<Diagnostic>)],
    _total_errors: usize,
    _total_warnings: usize,
    _profile_names: &[String],
    _duration_ms: Option<u64>,
) -> (r: String)
    ensures
        r@ == junit_text(diagnostics@),
{
    let mut out = owned("<?xml version=\"1.0\" encoding=\"UTF-8\"?>\n");
    out.append("<testsuites>\n");
    let ghost head = out@;
    let mut g: usize = 0;
    assert(diagnostics@.take(0) =~= Seq::<(String, Vec<Diagnostic>)>::empty());
    assert(head + Seq::empty() =~= head);
    while g < diagnostics.len()
        invariant
            g <= diagnostics.len(),
            out@ == head + suites_text(diagnostics@.take(g as int)),
        decreases diagnostics.len() - g,
    {
        assert(diagnostics@.take(g + 1).drop_last() =~= diagnostics@.take(g as int));
        let s = suite_exec(diagnostics[g].0.as_str(), &diagnostics[g].1);
        out.append(s.as_str());
        assert(out@ =~= head + suites_text(diagnostics@.take(g + 1)));
        g = g + 1;
    }
    assert(diagnostics@.take(diagnostics.len() as int) =~= diagnostics@);
    out.append("</testsuites>\n");
    out
}

} // verus!
