//! Adding up the evaluations of the targets into a check report.
use vstd::prelude::*;

use crate::diagnostic::{Diagnostic, DiagnosticSeverity, SourceSpan};
use crate::discovery::answered_in_order;
use crate::ingest::{EnvelopeField, ProviderResolution};
use crate::emit::junit::{count_severity, count_severity_exec};
use crate::emit::sarif::{text_less, text_less_exec};
use crate::report::{CheckReport, CoverageCounts, ReportMessage};
use crate::text::{concat3, owned};

verus! {

/// Which schema a target is: the path it came from and, for a discovered
/// model, its name, kind, provider, the profiles that check it, its
/// envelope fields and where it is used.
#[derive(Debug)]
pub struct TargetIdentity {
    pub path: String,
    pub name: String,
    pub canonical_kind: String,
    pub provider: ProviderResolution,
    pub effective_profiles: Vec<String>,
    pub envelope: Vec<(String, EnvelopeField)>,
    pub usage_span: Option<SourceSpan>,
}

/// How a failure of a target is labelled: its path, with the model name in
/// parentheses when there is one.
pub open spec fn failure_label_of(t: TargetIdentity) -> Seq<char> {
    if t.name@.len() == 0 {
        t.path@
    } else {
        t.path@ + " ("@ + t.name@ + ")"@
    }
}

impl TargetIdentity {
    /// How a failure of this target is labelled.
    pub fn failure_label(&self) -> (r: String)
        ensures
            r@ == failure_label_of(*self),
    {
        if self.name.as_str().unicode_len() == 0 {
            owned(self.path.as_str())
        } else {
            let a = concat3(self.path.as_str(), " (", self.name.as_str());
            proof {
                reveal_strlit("");
            }
            concat3(a.as_str(), ")", "")
        }
    }
}

/// A target and what checking it gave: its diagnostics, or why it could
/// not be checked.
#[derive(Debug)]
pub struct TargetEvaluation {
    pub target: TargetIdentity,
    pub outcome: Result<Vec<Diagnostic>, String>,
}

/// The sum of the evaluations, before sorting.
pub ghost struct Tally {
    pub groups: Seq<(Seq<char>, Seq<Diagnostic>)>,
    pub errors: nat,
    pub warnings: nat,
    pub checked: nat,
    pub failures: Seq<(Seq<char>, Seq<char>)>,
}

/// The evaluations added up in order: each checked target gives a group of
/// diagnostics under its path and counts toward the totals; each failed one
/// gives a failure under its label.
pub open spec fn tally(results: Seq<TargetEvaluation>) -> Tally
    decreases results.len(),
{
    if results.len() == 0 {
        Tally { groups: Seq::empty(), errors: 0, warnings: 0, checked: 0, failures: Seq::empty() }
    } else {
        let t = tally(results.drop_last());
        let r = results.last();
        match r.outcome {
            Ok(ds) => Tally {
                groups: t.groups.push((r.target.path@, ds@)),
                errors: t.errors + count_severity(ds@, DiagnosticSeverity::Error),
                warnings: t.warnings + count_severity(ds@, DiagnosticSeverity::Warning),
                checked: t.checked + 1,
                failures: t.failures,
            },
            Err(m) => Tally { failures: t.failures.push((failure_label_of(r.target), m@)), ..t },
        }
    }
}

/// How many diagnostics the evaluations hold in all.
pub open spec fn diagnostic_total(results: Seq<TargetEvaluation>) -> nat
    decreases results.len(),
{
    if results.len() == 0 {
        0
    } else {
        diagnostic_total(results.drop_last()) + match results.last().outcome {
            Ok(ds) => ds@.len(),
            Err(_) => 0nat,
        }
    }
}

/// Every evaluated target is counted once: as checked, with a group of
/// diagnostics, or as failed; and the error and warning totals never exceed
/// the diagnostics there are.
pub proof fn lemma_tally_bounds(results: Seq<TargetEvaluation>)
    ensures
        tally(results).errors + tally(results).warnings <= diagnostic_total(results),
        tally(results).checked + tally(results).failures.len() == results.len(),
        tally(results).groups.len() == tally(results).checked,
    decreases results.len(),
{
    if results.len() > 0 {
        lemma_tally_bounds(results.drop_last());
        match results.last().outcome {
            Ok(ds) => {
                lemma_count_split(ds@);
            },
            Err(_) => {},
        }
    }
}

proof fn lemma_count_split(ds: Seq<Diagnostic>)
    ensures
        count_severity(ds, DiagnosticSeverity::Error) + count_severity(ds, DiagnosticSeverity::Warning) == ds.len(),
    decreases ds.len(),
{
    if ds.len() > 0 {
        lemma_count_split(ds.drop_last());
    }
}

/// `x` put into `s` by a stable insertion from the back: it goes after the
/// last element it is not before.
pub open spec fn inserted_by_profile(s: Seq<Diagnostic>, x: Diagnostic) -> Seq<Diagnostic>
    decreases s.len(),
{
    if s.len() == 0 || !text_less(x.profile@, s.last().profile@) {
        s.push(x)
    } else {
        inserted_by_profile(s.drop_last(), x).push(s.last())
    }
}

/// The diagnostics sorted by profile name, keeping the order of those with
/// the same profile.
pub open spec fn sorted_by_profile(s: Seq<Diagnostic>) -> Seq<Diagnostic>
    decreases s.len(),
{
    if s.len() == 0 {
        Seq::empty()
    } else {
        inserted_by_profile(sorted_by_profile(s.drop_last()), s.last())
    }
}

proof fn lemma_insert_position(s: Seq<Diagnostic>, x: Diagnostic, j: int)
    requires
        0 <= j <= s.len(),
        forall|k: int| j <= k < s.len() ==> text_less(x.profile@, #[trigger] s[k].profile@),
        j == 0 || !text_less(x.profile@, s[j - 1].profile@),
    ensures
        inserted_by_profile(s, x) == s.insert(j, x),
    decreases s.len() - j,
{
    if j < s.len() {
        assert(text_less(x.profile@, s[s.len() - 1].profile@));
        lemma_insert_position(s.drop_last(), x, j);
        assert(s.drop_last().insert(j, x).push(s.last()) =~= s.insert(j, x));
    } else {
        assert(s.push(x) =~= s.insert(j, x));
    }
}

/// Sort diagnostics by profile name, stably.
pub fn sort_by_profile(ds: Vec<Diagnostic>) -> (r: Vec<Diagnostic>)
    ensures
        r@ == sorted_by_profile(ds@),
{
    let mut out: Vec<Diagnostic> = Vec::new();
    let mut ds = ds;
    let ghost all = ds@;
    let mut i: usize = 0;
    let n = ds.len();
    assert(all.skip(0) =~= all);
    assert(all.take(0) =~= Seq::<Diagnostic>::empty());
    while ds.len() > 0
        invariant
            ds@.len() + i == n,
            n == all.len(),
            ds@ == all.skip(i as int),
            out@ == sorted_by_profile(all.take(i as int)),
        decreases ds.len(),
    {
        let x = ds.remove(0);
        proof {
            assert(x == all[i as int]);
            assert(all.skip(i as int).remove(0) =~= all.skip(i + 1));
            assert(all.take(i + 1).drop_last() =~= all.take(i as int));
        }
        let mut j = out.len();
        while j > 0 && text_less_exec(x.profile.as_str(), out[j - 1].profile.as_str())
            invariant
                j <= out.len(),
                forall|k: int| j <= k < out.len() ==> text_less(x.profile@, #[trigger] out@[k].profile@),
            decreases j,
        {
            j = j - 1;
        }
        proof {
            lemma_insert_position(out@, x, j as int);
        }
        out.insert(j, x);
        i = i + 1;
    }
    assert(all.take(n as int) =~= all);
    out
}

/// The plain content of a group of diagnostics.
pub open spec fn group_view(g: (String, Vec<Diagnostic>)) -> (Seq<char>, Seq<Diagnostic>) {
    (g.0@, g.1@)
}

/// Whether the path `a` sorts before the path `b`, as `std::path::Path`
/// orders them (`<`). Nothing is claimed of the answer: the order of paths
/// depends on the platform's path syntax.
#[verifier::external_body]
pub(crate) fn path_less(a: &String, b: &String) -> (r: bool) {
    std::path::Path::new(a.as_str()).lt(std::path::Path::new(b.as_str()))
}

/// The plain contents of groups.
pub open spec fn group_views(s: Seq<(String, Vec<Diagnostic>)>) -> Seq<(Seq<char>, Seq<Diagnostic>)> {
    s.map_values(|g: (String, Vec<Diagnostic>)| group_view(g))
}

/// The groups come in the order that `std::path::Path`'s `<` answered for
/// their paths: for each two neighbours, asked whether the second's path
/// comes before the first's it said no, or asked whether the first's comes
/// before the second's it said yes.
pub closed spec fn groups_in_path_order(s: Seq<(String, Vec<Diagnostic>)>) -> bool {
    forall|k: int| 0 <= k < s.len() - 1 ==> #[trigger] answered_in_order(path_less, s[k].0, s[k + 1].0)
}

/// Insert `g` into `out`, kept in path order: `g` goes after the last group
/// whose path `path_less` did not put after `g`'s.
fn insert_group(out: &mut Vec<(String, Vec<Diagnostic>)>, g: (String, Vec<Diagnostic>)) -> (j: usize)
    requires
        groups_in_path_order(old(out)@),
    ensures
        j <= old(out)@.len(),
        final(out)@ == old(out)@.insert(j as int, g),
        groups_in_path_order(final(out)@),
{
    let mut j = out.len();
    loop
        invariant
            j <= out.len(),
            j < out.len() ==> path_less.ensures((&g.0, &out@[j as int].0), true),
        ensures
            j <= out.len(),
            j < out.len() ==> path_less.ensures((&g.0, &out@[j as int].0), true),
            j > 0 ==> path_less.ensures((&g.0, &out@[j - 1].0), false),
        decreases j,
    {
        if j == 0 {
            break;
        }
        let earlier = path_less(&g.0, &out[j - 1].0);
        if !earlier {
            break;
        }
        j = j - 1;
    }
    let ghost prev = out@;
    let ghost q = g;
    out.insert(j, g);
    assert forall|k: int| 0 <= k < out@.len() - 1 implies #[trigger] answered_in_order(path_less, out@[k].0, out@[k + 1].0) by {
        if k + 1 < j {
            assert(out@[k] == prev[k] && out@[k + 1] == prev[k + 1]);
            assert(answered_in_order(path_less, prev[k].0, prev[k + 1].0));
        } else if k + 1 == j {
            assert(out@[k] == prev[k] && out@[k + 1] == q);
        } else if k == j {
            assert(out@[k] == q && out@[k + 1] == prev[k]);
        } else {
            let k1 = k - 1;
            assert(out@[k] == prev[k1] && out@[k + 1] == prev[k1 + 1]);
            assert(answered_in_order(path_less, prev[k1].0, prev[k1 + 1].0));
        }
    }
    j
}

/// Put the groups in path order by insertion with `path_less`, taking them
/// in their given order, so that groups of paths `path_less` does not tell
/// apart keep their order; the groups stay the same.
fn sort_groups(groups: Vec<(String, Vec<Diagnostic>)>) -> (r: Vec<(String, Vec<Diagnostic>)>)
    ensures
        group_views(r@).to_multiset() == group_views(groups@).to_multiset(),
        groups_in_path_order(r@),
{
    broadcast use vstd::seq_lib::group_to_multiset_ensures;

    let mut out: Vec<(String, Vec<Diagnostic>)> = Vec::new();
    let mut gs = groups;
    let ghost all = group_views(gs@);
    assert(group_views(out@) =~= Seq::empty());
    assert(groups_in_path_order(out@));
    while gs.len() > 0
        invariant
            group_views(out@).to_multiset().add(group_views(gs@).to_multiset()) == all.to_multiset(),
            groups_in_path_order(out@),
        decreases gs.len(),
    {
        let ghost before = gs@;
        let g = gs.remove(0);
        let ghost gv = group_view(g);
        proof {
            assert(before[0] == g);
            assert(group_views(before).remove(0) =~= group_views(gs@));
            vstd::seq_lib::to_multiset_remove(group_views(before), 0);
            assert(group_views(before)[0] == gv);
            assert(group_views(before).contains(gv));
            vstd::seq_lib::to_multiset_contains(group_views(before), gv);
            assert(group_views(before).to_multiset() =~= group_views(before).to_multiset().remove(gv).insert(gv));
        }
        let ghost prev = out@;
        let j = insert_group(&mut out, g);
        proof {
            assert(group_views(out@) =~= group_views(prev).insert(j as int, gv));
            vstd::seq_lib::to_multiset_insert(group_views(prev), j as int, gv);
            assert(group_views(out@).to_multiset().add(group_views(gs@).to_multiset()) =~= group_views(prev).to_multiset().add(
                group_views(before).to_multiset(),
            ));
        }
    }
    assert(group_views(gs@) =~= Seq::empty());
    out
}

/// What the evaluations add up to.
#[derive(Debug)]
pub struct AggregateResults {
    pub diagnostics: Vec<(String, Vec<Diagnostic>)>,
    pub total_errors: usize,
    pub total_warnings: usize,
    pub checked: usize,
    pub failures: Vec<ReportMessage>,
}

/// The groups a tally gives once each group's diagnostics are sorted by
/// profile.
pub open spec fn sorted_groups(t: Tally) -> Seq<(Seq<char>, Seq<Diagnostic>)> {
    t.groups.map_values(|g: (Seq<char>, Seq<Diagnostic>)| (g.0, sorted_by_profile(g.1)))
}

/// Add up the evaluations: count the checked targets and the errors and
/// warnings they hold, collect the failures in order, and group the
/// diagnostics by path, each group sorted by profile.
pub fn aggregate_results(results: Vec<TargetEvaluation>) -> (r: AggregateResults)
    requires
        diagnostic_total(results@) <= usize::MAX,
    ensures
        group_views(r.diagnostics@).to_multiset() == sorted_groups(tally(results@)).to_multiset(),
        groups_in_path_order(r.diagnostics@),
        r.total_errors == tally(results@).errors,
        r.total_warnings == tally(results@).warnings,
        r.checked == tally(results@).checked,
        r.failures@.map_values(|m: ReportMessage| (m.target@, m.message@)) == tally(results@).failures,
        r.checked + r.failures.len() == results.len(),
{
    let ghost all = results@;
    let mut groups: Vec<(String, Vec<Diagnostic>)> = Vec::new();
    let mut total_errors: usize = 0;
    let mut total_warnings: usize = 0;
    let mut checked: usize = 0;
    let mut failures: Vec<ReportMessage> = Vec::new();
    let mut rs = results;
    let n = rs.len();
    let mut i: usize = 0;
    proof {
        lemma_tally_bounds(all);
        assert(all.skip(0) =~= all);
        assert(all.take(0) =~= Seq::<TargetEvaluation>::empty());
    }
    while rs.len() > 0
        invariant
            rs@.len() + i == n,
            n == all.len(),
            rs@ == all.skip(i as int),
            diagnostic_total(all) <= usize::MAX,
            tally(all).errors + tally(all).warnings <= diagnostic_total(all),
            group_views(groups@) == sorted_groups(tally(all.take(i as int))),
            total_errors == tally(all.take(i as int)).errors,
            total_warnings == tally(all.take(i as int)).warnings,
            checked == tally(all.take(i as int)).checked,
            failures@.map_values(|m: ReportMessage| (m.target@, m.message@)) == tally(all.take(i as int)).failures,
        decreases rs.len(),
    {
        let r = rs.remove(0);
        let ghost pre = all.take(i as int);
        proof {
            assert(r == all[i as int]);
            assert(all.skip(i as int).remove(0) =~= all.skip(i + 1));
            assert(all.take(i + 1).drop_last() =~= pre);
            assert(all.take(i + 1).last() == r);
            lemma_tally_prefix(all, i as int + 1);
            lemma_tally_bounds(all.take(i + 1));
        }
        let TargetEvaluation { target, outcome } = r;
        match outcome {
            Ok(ds) => {
                let e = count_severity_exec(&ds, DiagnosticSeverity::Error);
                let w = count_severity_exec(&ds, DiagnosticSeverity::Warning);
                total_errors = total_errors + e;
                total_warnings = total_warnings + w;
                checked = checked + 1;
                let ghost dv = ds@;
                let sorted = sort_by_profile(ds);
                let ghost gbefore = groups@;
                groups.push((target.path, sorted));
                proof {
                    assert(group_views(groups@) =~= group_views(gbefore).push((target.path@, sorted_by_profile(dv))));
                    assert(sorted_groups(tally(all.take(i + 1))) =~= sorted_groups(tally(pre)).push(
                        (target.path@, sorted_by_profile(dv)),
                    ));
                }
            },
            Err(m) => {
                let label = target.failure_label();
                let ghost fbefore = failures@;
                failures.push(ReportMessage { target: label, message: m });
                proof {
                    assert(failures@.map_values(|m: ReportMessage| (m.target@, m.message@)) =~= fbefore.map_values(
                        |m: ReportMessage| (m.target@, m.message@),
                    ).push((failure_label_of(target), m@)));
                }
            },
        }
        i = i + 1;
    }
    assert(all.take(n as int) =~= all);
    let sorted = sort_groups(groups);
    AggregateResults { diagnostics: sorted, total_errors, total_warnings, checked, failures }
}

/// The report of a check: the counts of discovery, completed by the
/// aggregate (checked targets, and the failed ones counted and listed after
/// the discovery failures), with the aggregate's diagnostics and totals.
pub fn build_report(
    coverage: CoverageCounts,
    failures: Vec<ReportMessage>,
    warnings: Vec<ReportMessage>,
    results: Vec<TargetEvaluation>,
    profiles: Vec<String>,
    duration_ms: Option<u64>,
) -> (r: CheckReport)
    requires
        diagnostic_total(results@) <= usize::MAX,
        coverage.failed + tally(results@).failures.len() <= usize::MAX,
    ensures
        r.coverage == (CoverageCounts {
            checked: tally(results@).checked as usize,
            failed: (coverage.failed + tally(results@).failures.len()) as usize,
            ..coverage
        }),
        r.failures@.map_values(|m: ReportMessage| (m.target@, m.message@)) == failures@.map_values(
            |m: ReportMessage| (m.target@, m.message@),
        ) + tally(results@).failures,
        r.warnings@ == warnings@,
        group_views(r.diagnostics@).to_multiset() == sorted_groups(tally(results@)).to_multiset(),
        groups_in_path_order(r.diagnostics@),
        r.total_errors == tally(results@).errors,
        r.total_warnings == tally(results@).warnings,
        r.profiles@ == profiles@,
        r.duration_ms == duration_ms,
{
    let ghost fv = failures@;
    let aggregate = aggregate_results(results);
    let mut coverage = coverage;
    coverage.checked = aggregate.checked;
    coverage.failed = coverage.failed + aggregate.failures.len();
    let mut failures = failures;
    let mut extra = aggregate.failures;
    let ghost ev = extra@;
    failures.append(&mut extra);
    proof {
        assert(failures@.map_values(|m: ReportMessage| (m.target@, m.message@)) =~= fv.map_values(
            |m: ReportMessage| (m.target@, m.message@),
        ) + ev.map_values(|m: ReportMessage| (m.target@, m.message@)));
    }
    CheckReport {
        coverage,
        failures,
        warnings,
        diagnostics: aggregate.diagnostics,
        total_errors: aggregate.total_errors,
        total_warnings: aggregate.total_warnings,
        profiles,
        duration_ms,
    }
}

proof fn lemma_tally_prefix(all: Seq<TargetEvaluation>, k: int)
    requires
        0 <= k <= all.len(),
    ensures
        diagnostic_total(all.take(k)) <= diagnostic_total(all),
        tally(all.take(k)).errors <= tally(all).errors,
        tally(all.take(k)).warnings <= tally(all).warnings,
    decreases all.len() - k,
{
    if k < all.len() {
        lemma_tally_prefix(all, k + 1);
        assert(all.take(k + 1).drop_last() =~= all.take(k));
    } else {
        assert(all.take(k) =~= all);
    }
}


/// How many diagnostics the evaluations hold, when that fits a `usize`.
pub fn diagnostic_count(results: &Vec<TargetEvaluation>) -> (r: Option<usize>)
    ensures
        match r {
            Some(n) => n == diagnostic_total(results@),
            None => diagnostic_total(results@) > usize::MAX,
        },
{
    let mut total: usize = 0;
    let mut i: usize = 0;
    assert(results@.take(0) =~= Seq::<TargetEvaluation>::empty());
    while i < results.len()
        invariant
            i <= results.len(),
            total == diagnostic_total(results@.take(i as int)),
        decreases results.len() - i,
    {
        assert(results@.take(i + 1).drop_last() =~= results@.take(i as int));
        let n = match &results[i].outcome {
            Ok(ds) => ds.len(),
            Err(_) => 0,
        };
        if total > usize::MAX - n {
            proof {
                lemma_total_prefix(results@, i + 1);
            }
            return None;
        }
        total = total + n;
        i = i + 1;
    }
    assert(results@.take(results.len() as int) =~= results@);
    Some(total)
}

proof fn lemma_total_prefix(all: Seq<TargetEvaluation>, k: int)
    requires
        0 <= k <= all.len(),
    ensures
        diagnostic_total(all.take(k)) <= diagnostic_total(all),
    decreases all.len() - k,
{
    if k < all.len() {
        lemma_total_prefix(all, k + 1);
        assert(all.take(k + 1).drop_last() =~= all.take(k));
    } else {
        assert(all.take(k) =~= all);
    }
}

} // verus!
