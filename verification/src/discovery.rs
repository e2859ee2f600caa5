//! Discovery over a batch of inputs: exclusions, the helper's answers, and
//! the coverage they add up to.
use vstd::prelude::*;

use crate::glob::{glob_match, glob_matches};
use crate::ingest::{DiscoverResponse, DiscoveredModel, DiscoveryFailure, DiscoveryWarning};
use crate::aggregate::path_less;
use crate::report::{CoverageCounts, ReportMessage};
use crate::text::{chars_of, concat3, owned, replace_char, replace_char_exec, string_from_chars};

verus! {

/// Does some exclusion pattern match `input`?
pub open spec fn excluded_by(exclusions: Seq<String>, input: Seq<char>) -> bool {
    exists|i: int| 0 <= i < exclusions.len() && glob_matches(#[trigger] exclusions[i]@, input)
}

/// Does some exclusion pattern match `input`?
pub fn matches_any(exclusions: &Vec<String>, input: &str) -> (r: bool)
    ensures
        r == excluded_by(exclusions@, input@),
{
    let mut i: usize = 0;
    while i < exclusions.len()
        invariant
            i <= exclusions.len(),
            forall|j: int| 0 <= j < i ==> !glob_matches(#[trigger] exclusions@[j]@, input@),
        decreases exclusions.len() - i,
    {
        if glob_match(exclusions[i].as_str(), input) {
            return true;
        }
        i = i + 1;
    }
    false
}

/// Is `path` excluded? Backslashes count as `/`.
pub fn is_excluded(path: &str, exclusions: &Vec<String>) -> (r: bool)
    ensures
        r == excluded_by(exclusions@, replace_char(path@, '\\', seq!['/'])),
{
    let chars = chars_of(path);
    let slash = vec!['/'];
    assert(slash@ =~= seq!['/']);
    let replaced = replace_char_exec(&chars, '\\', &slash);
    let text = string_from_chars(&replaced);
    matches_any(exclusions, text.as_str())
}

/// What discovery over a batch of inputs found.
#[derive(Debug)]
pub struct DiscoveryBatch {
    pub models: Vec<DiscoveredModel>,
    pub coverage: CoverageCounts,
    pub failures: Vec<ReportMessage>,
    pub warnings: Vec<ReportMessage>,
}

impl Default for DiscoveryBatch {
    fn default() -> (r: Self)
        ensures
            r.models@ == Seq::<DiscoveredModel>::empty(),
            r.coverage == (CoverageCounts { attempted: 0, excluded: 0, discovered: 0, checked: 0, failed: 0 }),
            r.failures@ == Seq::<ReportMessage>::empty(),
            r.warnings@ == Seq::<ReportMessage>::empty(),
    {
        DiscoveryBatch {
            models: Vec::new(),
            coverage: CoverageCounts { attempted: 0, excluded: 0, discovered: 0, checked: 0, failed: 0 },
            failures: Vec::new(),
            warnings: Vec::new(),
        }
    }
}

/// The plain content of a report message: target and message.
pub open spec fn message_view(m: ReportMessage) -> (Seq<char>, Seq<char>) {
    (m.target@, m.message@)
}

/// The plain content of a batch.
pub ghost struct BatchModel {
    pub models: Seq<DiscoveredModel>,
    pub coverage: CoverageCounts,
    pub failures: Seq<(Seq<char>, Seq<char>)>,
    pub warnings: Seq<(Seq<char>, Seq<char>)>,
}

/// The plain content of a batch.
pub open spec fn batch_model(b: DiscoveryBatch) -> BatchModel {
    BatchModel {
        models: b.models@,
        coverage: b.coverage,
        failures: b.failures@.map_values(|m: ReportMessage| message_view(m)),
        warnings: b.warnings@.map_values(|m: ReportMessage| message_view(m)),
    }
}

/// A batch before any input.
pub open spec fn empty_batch() -> BatchModel {
    BatchModel {
        models: Seq::empty(),
        coverage: CoverageCounts { attempted: 0, excluded: 0, discovered: 0, checked: 0, failed: 0 },
        failures: Seq::empty(),
        warnings: Seq::empty(),
    }
}

/// `kind 'input'`, the target of what is said about one input.
pub open spec fn input_label(kind: Seq<char>, input: Seq<char>) -> Seq<char> {
    kind + " '"@ + input + "'"@
}

/// How a warning of the helper about `input` is reported.
pub open spec fn warning_entry(kind: Seq<char>, input: Seq<char>, w: DiscoveryWarning) -> (Seq<char>, Seq<char>) {
    (input_label(kind, input) + ", model '"@ + w.model@ + "'"@, w.message@)
}

/// How a failure of the helper about `input` is reported.
pub open spec fn failure_entry(kind: Seq<char>, input: Seq<char>, f: DiscoveryFailure) -> (Seq<char>, Seq<char>) {
    (input_label(kind, input) + ", target '"@ + f.target@ + "'"@, f.message@)
}

/// An attempt counts at least once, whatever the helper reports.
pub open spec fn attempts_of(r: DiscoverResponse) -> nat {
    if r.counts.attempted == 0 {
        1
    } else {
        r.counts.attempted as nat
    }
}

/// Can the counts of `b` take in the answer `r` without passing `usize::MAX`?
pub open spec fn response_fits(c: CoverageCounts, r: DiscoverResponse) -> bool {
    &&& c.attempted + attempts_of(r) <= usize::MAX
    &&& c.excluded + r.counts.excluded <= usize::MAX
    &&& c.discovered + r.models.len() <= usize::MAX
    &&& c.failed + r.failures.len() <= usize::MAX
}

/// The batch after the helper answered for `input` with `r`.
pub open spec fn after_response(b: BatchModel, kind: Seq<char>, input: Seq<char>, r: DiscoverResponse) -> BatchModel {
    BatchModel {
        models: b.models + r.models@,
        coverage: CoverageCounts {
            attempted: (b.coverage.attempted + attempts_of(r)) as usize,
            excluded: (b.coverage.excluded + r.counts.excluded) as usize,
            discovered: (b.coverage.discovered + r.models.len()) as usize,
            checked: b.coverage.checked,
            failed: (b.coverage.failed + r.failures.len()) as usize,
        },
        failures: b.failures + r.failures@.map_values(|f: DiscoveryFailure| failure_entry(kind, input, f)),
        warnings: b.warnings + r.warnings@.map_values(|w: DiscoveryWarning| warning_entry(kind, input, w)),
    }
}

/// The batch after discovery of `input` failed with `error`.
pub open spec fn after_error(b: BatchModel, kind: Seq<char>, input: Seq<char>, error: Seq<char>) -> BatchModel {
    BatchModel {
        coverage: CoverageCounts {
            attempted: (b.coverage.attempted + 1) as usize,
            failed: (b.coverage.failed + 1) as usize,
            ..b.coverage
        },
        failures: b.failures.push((input_label(kind, input), error)),
        ..b
    }
}

/// What happened to one input of a batch.
pub ghost enum Visit {
    /// An exclusion pattern matched it.
    Excluded,
    /// The helper was asked, and answered this.
    Answered(Result<DiscoverResponse, String>),
}

/// One input's effect on a batch, and whether the batch stops after it.
/// A count that would pass `usize::MAX` stops the batch unchanged.
pub open spec fn visit_step(b: BatchModel, kind: Seq<char>, input: Seq<char>, v: Visit, continue_on_error: bool) -> (BatchModel, bool) {
    match v {
        Visit::Excluded => if b.coverage.excluded < usize::MAX {
            (BatchModel { coverage: CoverageCounts { excluded: (b.coverage.excluded + 1) as usize, ..b.coverage }, ..b }, false)
        } else {
            (b, true)
        },
        Visit::Answered(Ok(r)) => if response_fits(b.coverage, r) {
            let nb = after_response(b, kind, input, r);
            (nb, !continue_on_error && nb.coverage.failed > 0)
        } else {
            (b, true)
        },
        Visit::Answered(Err(e)) => if b.coverage.attempted < usize::MAX && b.coverage.failed < usize::MAX {
            (after_error(b, kind, input, e@), !continue_on_error)
        } else {
            (b, true)
        },
    }
}

/// A batch run over the first `visits.len()` inputs: the batch, and whether
/// it has stopped.
pub open spec fn batch_run(kind: Seq<char>, inputs: Seq<String>, visits: Seq<Visit>, continue_on_error: bool) -> (BatchModel, bool)
    decreases visits.len(),
{
    if visits.len() == 0 {
        (empty_batch(), false)
    } else {
        let before = batch_run(kind, inputs, visits.drop_last(), continue_on_error);
        if before.1 {
            before
        } else {
            visit_step(before.0, kind, inputs[visits.len() - 1]@, visits.last(), continue_on_error)
        }
    }
}

/// Is `v` what can happen to `input`: excluded exactly when a pattern
/// matches it, and otherwise an answer that `discover` can give?
pub open spec fn visit_allowed<F: Fn(&String, &Vec<String>) -> Result<DiscoverResponse, String>>(
    discover: F,
    exclusions: &Vec<String>,
    input: &String,
    v: Visit,
) -> bool {
    match v {
        Visit::Excluded => excluded_by(exclusions@, input@),
        Visit::Answered(r) => !excluded_by(exclusions@, input@) && discover.ensures((input, exclusions), r),
    }
}

/// Count one excluded input.
pub fn record_excluded(batch: &mut DiscoveryBatch)
    requires
        old(batch).coverage.excluded < usize::MAX,
    ensures
        batch_model(*final(batch)) == visit_step(batch_model(*old(batch)), Seq::empty(), Seq::empty(), Visit::Excluded, true).0,
{
    batch.coverage.excluded = batch.coverage.excluded + 1;
}

/// Take in the helper's answer for `input`.
pub fn record_response(batch: &mut DiscoveryBatch, kind: &str, input: &str, response: DiscoverResponse)
    requires
        response_fits(old(batch).coverage, response),
    ensures
        batch_model(*final(batch)) == after_response(batch_model(*old(batch)), kind@, input@, response),
{
    let ghost b0 = batch_model(*batch);
    let ghost r0 = response;
    let attempts = if response.counts.attempted == 0 {
        1
    } else {
        response.counts.attempted
    };
    batch.coverage.attempted = batch.coverage.attempted + attempts;
    batch.coverage.excluded = batch.coverage.excluded + response.counts.excluded;
    batch.coverage.discovered = batch.coverage.discovered + response.models.len();
    batch.coverage.failed = batch.coverage.failed + response.failures.len();
    let label = concat3(kind, " '", input);
    let label = concat3(label.as_str(), "'", "");
    proof {
        reveal_strlit("");
        assert(label@ =~= input_label(kind@, input@));
    }
    let DiscoverResponse { models, warnings, failures, counts: _ } = response;
    let mut i: usize = 0;
    let ghost w0 = batch.warnings@;
    let ghost cov = batch.coverage;
    let ghost ms0 = batch.models@;
    let ghost fs0 = batch.failures@;
    while i < warnings.len()
        invariant
            i <= warnings.len(),
            batch.coverage == cov,
            batch.models@ == ms0,
            batch.failures@ == fs0,
            label@ == input_label(kind@, input@),
            warnings@ == r0.warnings@,
            batch.warnings@.map_values(|m: ReportMessage| message_view(m))
                == w0.map_values(|m: ReportMessage| message_view(m)) + warnings@.take(i as int).map_values(
                    |w: DiscoveryWarning| warning_entry(kind@, input@, w),
                ),
        decreases warnings.len() - i,
    {
        let w = &warnings[i];
        let target = concat3(label.as_str(), ", model '", w.model.as_str());
        let target = concat3(target.as_str(), "'", "");
        let ghost before = batch.warnings@;
        batch.warnings.push(ReportMessage { target, message: owned(w.message.as_str()) });
        proof {
            reveal_strlit("");
            assert(warnings@.take(i + 1) =~= warnings@.take(i as int).push(warnings@[i as int]));
            assert(batch.warnings@.map_values(|m: ReportMessage| message_view(m)) =~= before.map_values(
                |m: ReportMessage| message_view(m),
            ).push(warning_entry(kind@, input@, warnings@[i as int])));
        }
        i = i + 1;
    }
    assert(warnings@.take(warnings.len() as int) =~= warnings@);
    let mut j: usize = 0;
    let ghost f0 = batch.failures@;
    let ghost ws1 = batch.warnings@;
    while j < failures.len()
        invariant
            j <= failures.len(),
            batch.coverage == cov,
            batch.models@ == ms0,
            batch.warnings@ == ws1,
            label@ == input_label(kind@, input@),
            failures@ == r0.failures@,
            batch.failures@.map_values(|m: ReportMessage| message_view(m))
                == f0.map_values(|m: ReportMessage| message_view(m)) + failures@.take(j as int).map_values(
                    |f: DiscoveryFailure| failure_entry(kind@, input@, f),
                ),
        decreases failures.len() - j,
    {
        let f = &failures[j];
        let target = concat3(label.as_str(), ", target '", f.target.as_str());
        let target = concat3(target.as_str(), "'", "");
        let ghost before = batch.failures@;
        batch.failures.push(ReportMessage { target, message: owned(f.message.as_str()) });
        proof {
            reveal_strlit("");
            assert(failures@.take(j + 1) =~= failures@.take(j as int).push(failures@[j as int]));
            assert(batch.failures@.map_values(|m: ReportMessage| message_view(m)) =~= before.map_values(
                |m: ReportMessage| message_view(m),
            ).push(failure_entry(kind@, input@, failures@[j as int])));
        }
        j = j + 1;
    }
    assert(failures@.take(failures.len() as int) =~= failures@);
    let mut models = models;
    let ghost m0 = batch.models@;
    batch.models.append(&mut models);
}

/// Record that discovery of `input` failed with `error`.
pub fn record_error(batch: &mut DiscoveryBatch, kind: &str, input: &str, error: String)
    requires
        old(batch).coverage.attempted < usize::MAX,
        old(batch).coverage.failed < usize::MAX,
    ensures
        batch_model(*final(batch)) == after_error(batch_model(*old(batch)), kind@, input@, error@),
{
    batch.coverage.attempted = batch.coverage.attempted + 1;
    batch.coverage.failed = batch.coverage.failed + 1;
    let label = concat3(kind, " '", input);
    let label = concat3(label.as_str(), "'", "");
    proof {
        reveal_strlit("");
    }
    let ghost before = batch.failures@;
    batch.failures.push(ReportMessage { target: label, message: error });
    assert(batch.failures@.map_values(|m: ReportMessage| message_view(m)) =~= before.map_values(
        |m: ReportMessage| message_view(m),
    ).push((input_label(kind@, input@), error@)));
}


/// How a batch came to be: the visits, one for each input taken in order,
/// are what can happen to those inputs; the batch is their run; and the
/// run stopped exactly after its last visit, unless every input was taken.
pub open spec fn batch_explained<F: Fn(&String, &Vec<String>) -> Result<DiscoverResponse, String>>(
    discover: F,
    inputs: &Vec<String>,
    exclusions: &Vec<String>,
    continue_on_error: bool,
    kind: Seq<char>,
    visits: Seq<Visit>,
    batch: BatchModel,
) -> bool {
    &&& visits.len() <= inputs.len()
    &&& forall|j: int| 0 <= j < visits.len() ==> visit_allowed(discover, exclusions, &inputs@[j], #[trigger] visits[j])
    &&& batch == batch_run(kind, inputs@, visits, continue_on_error).0
    &&& visits.len() == inputs.len() || batch_run(kind, inputs@, visits, continue_on_error).1
    &&& forall|k: int| 0 <= k < visits.len() ==> !(#[trigger] batch_run(kind, inputs@, visits.take(k), continue_on_error)).1
}

/// Discover over each input in order with `discover`, skipping those an
/// exclusion pattern matches. The helper's counts, models, warnings and
/// failures add up in the batch; an input whose discovery fails counts as
/// attempted and failed. Without `continue_on_error`, the batch stops at the
/// first input that brings a failure.
pub fn discover_batch<F: Fn(&String, &Vec<String>) -> Result<DiscoverResponse, String>>(
    inputs: &Vec<String>,
    exclusions: &Vec<String>,
    continue_on_error: bool,
    kind: &str,
    discover: F,
) -> (batch: DiscoveryBatch)
    requires
        forall|s: &String| discover.requires((s, exclusions)),
    ensures
        exists|visits: Seq<Visit>|
            batch_explained(discover, inputs, exclusions, continue_on_error, kind@, visits, batch_model(batch)),
{
    let mut batch = DiscoveryBatch::default();
    let ghost mut visits: Seq<Visit> = Seq::empty();
    assert(batch.failures@.map_values(|m: ReportMessage| message_view(m)) =~= Seq::<(Seq<char>, Seq<char>)>::empty());
    assert(batch.warnings@.map_values(|m: ReportMessage| message_view(m)) =~= Seq::<(Seq<char>, Seq<char>)>::empty());
    assert(batch_model(batch) == empty_batch());
    let mut i: usize = 0;
    while i < inputs.len()
        invariant
            i <= inputs.len(),
            visits.len() == i,
            forall|s: &String| discover.requires((s, exclusions)),
            forall|j: int| 0 <= j < visits.len() ==> visit_allowed(discover, exclusions, &inputs@[j], #[trigger] visits[j]),
            batch_model(batch) == batch_run(kind@, inputs@, visits, continue_on_error).0,
            !batch_run(kind@, inputs@, visits, continue_on_error).1,
            forall|k: int| 0 <= k < visits.len() ==> !(#[trigger] batch_run(kind@, inputs@, visits.take(k), continue_on_error)).1,
        decreases inputs.len() - i,
    {
        let input = &inputs[i];
        let ghost before = visits;
        let ghost b0 = batch_model(batch);
        let stop: bool;
        if matches_any(exclusions, input.as_str()) {
            proof {
                visits = visits.push(Visit::Excluded);
            }
            if batch.coverage.excluded < usize::MAX {
                record_excluded(&mut batch);
                stop = false;
            } else {
                stop = true;
            }
        } else {
            let outcome = discover(input, exclusions);
            proof {
                visits = visits.push(Visit::Answered(outcome));
            }
            match outcome {
                Ok(response) => {
                    let attempts: usize = if response.counts.attempted == 0 {
                        1
                    } else {
                        response.counts.attempted
                    };
                    let fits = batch.coverage.attempted <= usize::MAX - attempts
                        && batch.coverage.excluded <= usize::MAX - response.counts.excluded
                        && batch.coverage.discovered <= usize::MAX - response.models.len()
                        && batch.coverage.failed <= usize::MAX - response.failures.len();
                    if fits {
                        record_response(&mut batch, kind, input.as_str(), response);
                        stop = !continue_on_error && batch.coverage.failed > 0;
                    } else {
                        stop = true;
                    }
                },
                Err(error) => {
                    if batch.coverage.attempted < usize::MAX && batch.coverage.failed < usize::MAX {
                        record_error(&mut batch, kind, input.as_str(), error);
                        stop = !continue_on_error;
                    } else {
                        stop = true;
                    }
                },
            }
        }
        proof {
            assert(visits.drop_last() =~= before);
            assert(visits.take(i as int) =~= before);
            assert forall|k: int| 0 <= k < visits.len() implies !(#[trigger] batch_run(kind@, inputs@, visits.take(k), continue_on_error)).1 by {
                if k < i {
                    assert(visits.take(k) =~= before.take(k));
                }
            }
        }
        i = i + 1;
        if stop {
            assert(batch_explained(discover, inputs, exclusions, continue_on_error, kind@, visits, batch_model(batch)));
            return batch;
        }
    }
    assert(batch_explained(discover, inputs, exclusions, continue_on_error, kind@, visits, batch_model(batch)));
    batch
}


/// Can batch `b` count visit `v` without passing `usize::MAX`?
pub open spec fn visit_fits(b: BatchModel, v: Visit) -> bool {
    match v {
        Visit::Excluded => b.coverage.excluded < usize::MAX,
        Visit::Answered(Ok(r)) => response_fits(b.coverage, r),
        Visit::Answered(Err(_)) => b.coverage.attempted < usize::MAX && b.coverage.failed < usize::MAX,
    }
}

/// When discovery continues past errors, no failure stops the batch: it
/// stops early only at an input whose counts would pass `usize::MAX`.
pub proof fn lemma_continuing_batch_stops_only_on_overflow(kind: Seq<char>, inputs: Seq<String>, visits: Seq<Visit>)
    requires
        batch_run(kind, inputs, visits, true).1,
    ensures
        exists|k: int|
            0 <= k < visits.len() && !visit_fits(#[trigger] batch_run(kind, inputs, visits.take(k), true).0, visits[k]),
    decreases visits.len(),
{
    let front = visits.drop_last();
    let k = visits.len() - 1;
    assert(visits.take(k) =~= front);
    if batch_run(kind, inputs, front, true).1 {
        lemma_continuing_batch_stops_only_on_overflow(kind, inputs, front);
        let j = choose|j: int|
            0 <= j < front.len() && !visit_fits(#[trigger] batch_run(kind, inputs, front.take(j), true).0, front[j]);
        assert(visits.take(j) =~= front.take(j));
        assert(visits[j] == front[j]);
    } else {
        assert(!visit_fits(batch_run(kind, inputs, visits.take(k), true).0, visits[k]));
    }
}


/// What a path on the command line is.
#[derive(Debug, Clone, Copy, PartialEq, Eq, Structural)]
pub enum PathKind {
    /// A file whose extension is `json`.
    JsonFile,
    Directory,
    /// Anything else, or nothing at all.
    Other,
}

/// What a recursive scan of a directory found: the `.json` files under it,
/// how many entries the exclusions skipped, and the directories it could
/// not read.
#[derive(Debug)]
pub struct DirScan {
    pub files: Vec<String>,
    pub excluded: usize,
    pub failures: Vec<ReportMessage>,
}

/// The schema files found for a check, with the coverage of its inputs.
#[derive(Debug)]
pub struct RawDiscoveryOutcome {
    pub files: Vec<String>,
    pub coverage: CoverageCounts,
    pub failures: Vec<ReportMessage>,
}

/// What happened to one command-line path.
pub ghost enum PathVisit {
    Excluded,
    Seen(PathKind, Option<DirScan>),
}

/// The running tally of a discovery: files found (before sorting),
/// coverage, failures.
pub ghost struct RawTally {
    pub files: Seq<Seq<char>>,
    pub coverage: CoverageCounts,
    pub failures: Seq<(Seq<char>, Seq<char>)>,
}

/// Can `t` count visit `v` without passing `usize::MAX`?
pub open spec fn path_visit_fits(t: RawTally, v: PathVisit) -> bool {
    match v {
        PathVisit::Excluded => t.coverage.excluded < usize::MAX,
        PathVisit::Seen(PathKind::Directory, Some(scan)) => t.coverage.attempted < usize::MAX
            && t.coverage.excluded + scan.excluded <= usize::MAX && t.coverage.failed + scan.failures.len() <= usize::MAX,
        PathVisit::Seen(PathKind::Other, _) => t.coverage.attempted < usize::MAX && t.coverage.failed < usize::MAX,
        PathVisit::Seen(_, _) => t.coverage.attempted < usize::MAX,
    }
}

/// One path's effect on the tally.
pub open spec fn path_step(t: RawTally, path: Seq<char>, v: PathVisit) -> RawTally {
    let c = t.coverage;
    match v {
        PathVisit::Excluded => RawTally { coverage: CoverageCounts { excluded: (c.excluded + 1) as usize, ..c }, ..t },
        PathVisit::Seen(PathKind::JsonFile, _) => RawTally {
            files: t.files.push(path),
            coverage: CoverageCounts { attempted: (c.attempted + 1) as usize, ..c },
            ..t
        },
        PathVisit::Seen(PathKind::Directory, Some(scan)) => RawTally {
            files: t.files + scan.files@.map_values(|f: String| f@),
            coverage: CoverageCounts {
                attempted: (c.attempted + 1) as usize,
                excluded: (c.excluded + scan.excluded) as usize,
                failed: (c.failed + scan.failures.len()) as usize,
                ..c
            },
            failures: t.failures + scan.failures@.map_values(|m: ReportMessage| message_view(m)),
        },
        PathVisit::Seen(PathKind::Directory, None) => t,
        PathVisit::Seen(PathKind::Other, _) => RawTally {
            coverage: CoverageCounts { attempted: (c.attempted + 1) as usize, failed: (c.failed + 1) as usize, ..c },
            failures: t.failures.push((path, "input does not exist or is not a JSON schema file"@)),
            ..t
        },
    }
}

/// The tally after the first `visits.len()` paths.
pub open spec fn raw_run(paths: Seq<String>, visits: Seq<PathVisit>) -> RawTally
    decreases visits.len(),
{
    if visits.len() == 0 {
        RawTally {
            files: Seq::empty(),
            coverage: CoverageCounts { attempted: 0, excluded: 0, discovered: 0, checked: 0, failed: 0 },
            failures: Seq::empty(),
        }
    } else {
        path_step(raw_run(paths, visits.drop_last()), paths[visits.len() - 1]@, visits.last())
    }
}

/// Is `v` what can happen to `path`: excluded exactly when a pattern
/// matches it; otherwise its kind as `kind_of` tells it, with the scan
/// `walk` gives for a directory.
pub open spec fn path_visit_allowed<K: Fn(&String) -> PathKind, W: Fn(&String) -> DirScan>(
    kind_of: K,
    walk: W,
    exclusions: &Vec<String>,
    path: &String,
    v: PathVisit,
) -> bool {
    match v {
        PathVisit::Excluded => excluded_by(exclusions@, replace_char(path@, '\\', seq!['/'])),
        PathVisit::Seen(k, scan) => !excluded_by(exclusions@, replace_char(path@, '\\', seq!['/'])) && kind_of.ensures((path,), k)
            && match k {
                PathKind::Directory => scan matches Some(s) && walk.ensures((path,), s),
                _ => scan is None,
            },
    }
}

/// Did the discovery stop at path `k` because counting it would pass
/// `usize::MAX`?
pub open spec fn stops_at<K: Fn(&String) -> PathKind, W: Fn(&String) -> DirScan>(
    kind_of: K,
    walk: W,
    exclusions: &Vec<String>,
    paths: &Vec<String>,
    visits: Seq<PathVisit>,
) -> bool {
    exists|v: PathVisit|
        path_visit_allowed(kind_of, walk, exclusions, &paths@[visits.len() as int], v) && !path_visit_fits(raw_run(paths@, visits), v)
}

/// The texts of a list of paths.
pub open spec fn path_views(s: Seq<String>) -> Seq<Seq<char>> {
    s.map_values(|f: String| f@)
}

/// `before`'s answers put `a` no later than `b`: asked whether `b` comes
/// before `a` it said no, or asked whether `a` comes before `b` it said yes.
pub open spec fn answered_in_order<B: Fn(&String, &String) -> bool>(before: B, a: String, b: String) -> bool {
    before.ensures((&b, &a), false) || before.ensures((&a, &b), true)
}

/// The entries of `s` come in the order that `before` answered.
pub open spec fn ordered_by<B: Fn(&String, &String) -> bool>(before: B, s: Seq<String>) -> bool {
    forall|k: int| 0 <= k < s.len() - 1 ==> #[trigger] answered_in_order(before, s[k], s[k + 1])
}

/// `same`, asked whether `s[k]` and `s[i]` are the same path, said yes.
pub open spec fn answered_same<S: Fn(&String, &String) -> bool>(same: S, s: Seq<String>, k: int, i: int) -> bool {
    same.ensures((&s[k], &s[i]), true)
}

/// The end of the run of entries that position `t` of `ks` keeps: the next
/// kept position, or the end of `s`.
pub open spec fn run_end(s: Seq<String>, ks: Seq<int>, t: int) -> int {
    if t + 1 < ks.len() {
        ks[t + 1]
    } else {
        s.len() as int
    }
}

/// `ks` are the positions of `s` that survive dropping repeats with `same`:
/// the first entry always; a later entry exactly when `same`, asked against
/// the last entry kept, said it is not the same path; every entry dropped
/// was answered the same path as the last entry kept before it.
pub open spec fn kept_by<S: Fn(&String, &String) -> bool>(same: S, s: Seq<String>, ks: Seq<int>) -> bool {
    &&& (ks.len() == 0) == (s.len() == 0)
    &&& ks.len() > 0 ==> ks[0] == 0
    &&& forall|t: int| 0 <= t < ks.len() ==> 0 <= #[trigger] ks[t] < s.len()
    &&& forall|t: int| 0 < t < ks.len() ==> ks[t - 1] < #[trigger] ks[t] && same.ensures((&s[ks[t - 1]], &s[ks[t]]), false)
    &&& forall|t: int, i: int| 0 <= t < ks.len() && ks[t] < i < run_end(s, ks, t) ==> #[trigger] answered_same(same, s, ks[t], i)
}

/// `r` holds the texts of the entries of `s` at the positions `ks`.
pub open spec fn picks(r: Seq<String>, s: Seq<String>, ks: Seq<int>) -> bool {
    r.len() == ks.len() && forall|t: int| 0 <= t < ks.len() ==> #[trigger] r[t]@ == s[ks[t]]@
}

/// What sorting `paths` with `before` and dropping repeats with `same`
/// gives: some rearrangement `s` of the paths in the order `before`
/// answered, of which `r` keeps the entries that `same` did not call a
/// repeat of the last entry kept.
pub open spec fn sorted_deduped<B: Fn(&String, &String) -> bool, S: Fn(&String, &String) -> bool>(
    before: B,
    same: S,
    paths: Seq<Seq<char>>,
    r: Seq<String>,
) -> bool {
    exists|s: Seq<String>, ks: Seq<int>|
        #![trigger kept_by(same, s, ks)]
        path_views(s).to_multiset() == paths.to_multiset() && ordered_by(before, s) && kept_by(same, s, ks) && picks(r, s, ks)
}

/// Insert `p` into `out`, kept in the order `before` answered: `p` goes
/// after the last entry that `before` did not put after it.
fn insert_in_order<B: Fn(&String, &String) -> bool>(out: &mut Vec<String>, p: String, before: &B) -> (j: usize)
    requires
        forall|a: &String, b: &String| before.requires((a, b)),
        ordered_by(*before, old(out)@),
    ensures
        j <= old(out)@.len(),
        final(out)@ == old(out)@.insert(j as int, p),
        ordered_by(*before, final(out)@),
{
    let mut j = out.len();
    loop
        invariant
            forall|a: &String, b: &String| before.requires((a, b)),
            j <= out.len(),
            j < out.len() ==> before.ensures((&p, &out@[j as int]), true),
        ensures
            j <= out.len(),
            j < out.len() ==> before.ensures((&p, &out@[j as int]), true),
            j > 0 ==> before.ensures((&p, &out@[j - 1]), false),
        decreases j,
    {
        if j == 0 {
            break;
        }
        let earlier = before(&p, &out[j - 1]);
        if !earlier {
            break;
        }
        j = j - 1;
    }
    let ghost prev = out@;
    let ghost q = p;
    out.insert(j, p);
    assert forall|k: int| 0 <= k < out@.len() - 1 implies #[trigger] answered_in_order(*before, out@[k], out@[k + 1]) by {
        if k + 1 < j {
            assert(out@[k] == prev[k] && out@[k + 1] == prev[k + 1]);
            assert(answered_in_order(*before, prev[k], prev[k + 1]));
        } else if k + 1 == j {
            assert(out@[k] == prev[k] && out@[k + 1] == q);
        } else if k == j {
            assert(out@[k] == q && out@[k + 1] == prev[k]);
        } else {
            let k1 = k - 1;
            assert(out@[k] == prev[k1] && out@[k + 1] == prev[k1 + 1]);
            assert(answered_in_order(*before, prev[k1], prev[k1 + 1]));
        }
    }
    j
}

/// Keep the first entry of `out` and each later one that `same` does not
/// call the same as the last entry kept.
fn drop_repeats<S: Fn(&String, &String) -> bool>(out: &Vec<String>, same: &S) -> (r: Vec<String>)
    requires
        forall|a: &String, b: &String| same.requires((a, b)),
    ensures
        exists|ks: Seq<int>| #[trigger] kept_by(*same, out@, ks) && picks(r@, out@, ks),
        path_views(r@).to_multiset().subset_of(path_views(out@).to_multiset()),
        forall|k: int| 0 <= k < r.len() ==> path_views(out@).contains(#[trigger] r@[k]@),
        r@.len() <= out@.len(),
        (r@.len() == 0) == (out@.len() == 0),
{
    broadcast use vstd::seq_lib::group_to_multiset_ensures;
    let mut kept: Vec<String> = Vec::new();
    let mut last: usize = 0;
    let ghost mut ks: Seq<int> = Seq::empty();
    let mut i: usize = 0;
    assert(path_views(kept@).to_multiset() =~= vstd::multiset::Multiset::empty());
    while i < out.len()
        invariant
            forall|a: &String, b: &String| same.requires((a, b)),
            i <= out.len(),
            kept.len() <= i,
            i > 0 ==> kept.len() > 0,
            path_views(kept@).to_multiset().subset_of(path_views(out@.take(i as int)).to_multiset()),
            (ks.len() == 0) == (i == 0),
            ks.len() > 0 ==> ks[0] == 0 && last as int == ks[ks.len() - 1],
            forall|t: int| 0 <= t < ks.len() ==> 0 <= #[trigger] ks[t] < i,
            forall|t: int| 0 < t < ks.len() ==> ks[t - 1] < #[trigger] ks[t] && same.ensures((&out@[ks[t - 1]], &out@[ks[t]]), false),
            forall|t: int, m: int| 0 <= t < ks.len() && ks[t] < m < (if t + 1 < ks.len() { ks[t + 1] } else { i as int })
                ==> #[trigger] answered_same(*same, out@, ks[t], m),
            picks(kept@, out@, ks),
        decreases out.len() - i,
    {
        let ghost prev = kept@;
        let ghost ks0 = ks;
        assert(path_views(out@.take(i + 1)) =~= path_views(out@.take(i as int)).push(out@[i as int]@));
        proof {
            vstd::seq_lib::to_multiset_build(path_views(out@.take(i as int)), out@[i as int]@);
        }
        assert(path_views(out@.take(i + 1)).to_multiset() =~= path_views(out@.take(i as int)).to_multiset().insert(out@[i as int]@));
        let repeat = if i == 0 {
            false
        } else {
            same(&out[last], &out[i])
        };
        if !repeat {
            kept.push(owned(out[i].as_str()));
            proof {
                ks = ks.push(i as int);
            }
            last = i;
            assert(path_views(kept@) =~= path_views(prev).push(out@[i as int]@));
            proof {
                vstd::seq_lib::to_multiset_build(path_views(prev), out@[i as int]@);
            }
            assert(path_views(kept@).to_multiset() =~= path_views(prev).to_multiset().insert(out@[i as int]@));
            assert forall|t: int| 0 < t < ks.len() implies ks[t - 1] < #[trigger] ks[t] && same.ensures((&out@[ks[t - 1]], &out@[ks[t]]), false) by {
                if t < ks0.len() {
                    assert(ks[t] == ks0[t] && ks[t - 1] == ks0[t - 1]);
                }
            }
            assert forall|t: int, m: int| 0 <= t < ks.len() && ks[t] < m < (if t + 1 < ks.len() { ks[t + 1] } else { (i + 1) as int })
                implies #[trigger] answered_same(*same, out@, ks[t], m) by {
                if t < ks0.len() {
                    assert(ks[t] == ks0[t]);
                    if t + 1 < ks0.len() {
                        assert(ks[t + 1] == ks0[t + 1]);
                    }
                }
            }
            assert forall|t: int| 0 <= t < ks.len() implies #[trigger] kept@[t]@ == out@[ks[t]]@ by {
                if t < ks0.len() {
                    assert(kept@[t] == prev[t] && ks[t] == ks0[t]);
                }
            }
        } else {
            assert(answered_same(*same, out@, last as int, i as int));
            assert forall|t: int, m: int| 0 <= t < ks.len() && ks[t] < m < (if t + 1 < ks.len() { ks[t + 1] } else { (i + 1) as int })
                implies #[trigger] answered_same(*same, out@, ks[t], m) by {
                if t + 1 == ks.len() && m == i {
                    assert(ks[t] == last as int);
                }
            }
        }
        i = i + 1;
    }
    assert(out@.take(out.len() as int) =~= out@);
    assert(kept_by(*same, out@, ks)) by {
        assert forall|t: int, m: int| 0 <= t < ks.len() && ks[t] < m < run_end(out@, ks, t)
            implies #[trigger] answered_same(*same, out@, ks[t], m) by {}
    }
    assert forall|k: int| 0 <= k < kept.len() implies path_views(out@).contains(#[trigger] kept@[k]@) by {
        assert(path_views(out@)[ks[k]] == kept@[k]@);
    }
    kept
}

/// Sort paths by insertion, taking them in their given order and asking
/// `before` whether one path comes before another (so paths that `before`
/// does not tell apart keep their given order), then drop each path that
/// `same` calls the same as the last path kept.
pub fn sort_paths_by<B: Fn(&String, &String) -> bool, S: Fn(&String, &String) -> bool>(
    paths: Vec<String>,
    before: &B,
    same: &S,
) -> (r: Vec<String>)
    requires
        forall|a: &String, b: &String| before.requires((a, b)),
        forall|a: &String, b: &String| same.requires((a, b)),
    ensures
        sorted_deduped(*before, *same, path_views(paths@), r@),
        forall|i: int| 0 <= i < r.len() ==> path_views(paths@).contains(#[trigger] r@[i]@),
        path_views(r@).to_multiset().subset_of(path_views(paths@).to_multiset()),
        r@.len() <= paths@.len(),
        (r@.len() == 0) == (paths@.len() == 0),
{
    broadcast use vstd::seq_lib::group_to_multiset_ensures;
    let ghost orig = paths@;
    let mut out: Vec<String> = Vec::new();
    let mut ps = paths;
    assert(path_views(out@).to_multiset() =~= vstd::multiset::Multiset::empty());
    assert(path_views(out@).to_multiset().add(path_views(ps@).to_multiset()) =~= path_views(orig).to_multiset());
    while ps.len() > 0
        invariant
            forall|a: &String, b: &String| before.requires((a, b)),
            out.len() + ps.len() == orig.len(),
            path_views(out@).to_multiset().add(path_views(ps@).to_multiset()) == path_views(orig).to_multiset(),
            ordered_by(*before, out@),
        decreases ps.len(),
    {
        let ghost before_ps = ps@;
        let p = ps.remove(0);
        assert(before_ps[0] == p);
        let ghost prev = out@;
        let ghost q = p;
        let j = insert_in_order(&mut out, p, before);
        proof {
            assert(path_views(before_ps).remove(0) =~= path_views(ps@));
            vstd::seq_lib::to_multiset_remove(path_views(before_ps), 0);
            vstd::seq_lib::to_multiset_contains(path_views(before_ps), q@);
            assert(path_views(before_ps)[0] == q@);
            assert(path_views(before_ps).contains(q@));
            assert(path_views(before_ps).to_multiset() =~= path_views(before_ps).to_multiset().remove(q@).insert(q@));
            assert(path_views(out@).remove(j as int) =~= path_views(prev));
            assert(path_views(out@)[j as int] == q@);
            let sv = path_views(out@);
            vstd::seq_lib::to_multiset_remove(sv, j as int);
            assert(sv.contains(q@));
            vstd::seq_lib::to_multiset_contains(sv, q@);
            assert(sv.to_multiset().count(q@) > 0);
            assert(sv.to_multiset() =~= sv.to_multiset().remove(q@).insert(q@));
            assert(path_views(out@).to_multiset() =~= path_views(prev).to_multiset().insert(q@));
            assert(path_views(before_ps).to_multiset() =~= path_views(ps@).to_multiset().insert(q@));
            assert(path_views(out@).to_multiset().add(path_views(ps@).to_multiset())
                =~= path_views(prev).to_multiset().add(path_views(before_ps).to_multiset()));
        }
    }
    assert(path_views(ps@) =~= Seq::<Seq<char>>::empty());
    assert(path_views(out@).to_multiset() =~= path_views(orig).to_multiset());
    let kept = drop_repeats(&out, same);
    proof {
        let ks = choose|ks: Seq<int>| #[trigger] kept_by(*same, out@, ks) && picks(kept@, out@, ks);
        assert(kept_by(*same, out@, ks));
        assert(sorted_deduped(*before, *same, path_views(orig), kept@));
        assert forall|i: int| 0 <= i < kept.len() implies path_views(orig).contains(#[trigger] kept@[i]@) by {
            assert(path_views(out@).contains(kept@[i]@));
            let k = choose|k: int| 0 <= k < path_views(out@).len() && path_views(out@)[k] == kept@[i]@;
            vstd::seq_lib::to_multiset_contains(path_views(out@), kept@[i]@);
            vstd::seq_lib::to_multiset_contains(path_views(orig), kept@[i]@);
        }
        assert(path_views(out@).len() == out@.len());
        assert(path_views(orig).len() == orig.len());
        vstd::seq_lib::to_multiset_len(path_views(out@));
        vstd::seq_lib::to_multiset_len(path_views(orig));
    }
    kept
}

/// `r` is `paths` sorted and freed of repeats by the answers of
/// `std::path::Path`'s `<` and `==`: `sorted_deduped` with the two
/// comparisons of this module.
pub closed spec fn path_sorted(paths: Seq<Seq<char>>, r: Seq<String>) -> bool {
    sorted_deduped(path_less, path_same, paths, r)
}

/// Put paths in `std::path::Path` order and drop repeats, as `Vec::sort`
/// and `Vec::dedup` on paths do: sorted by insertion with `path_less`, then
/// each path that `path_same` calls the same as the last one kept dropped.
pub fn sort_paths(paths: Vec<String>) -> (r: Vec<String>)
    ensures
        path_sorted(path_views(paths@), r@),
        forall|i: int| 0 <= i < r.len() ==> path_views(paths@).contains(#[trigger] r@[i]@),
        path_views(r@).to_multiset().subset_of(path_views(paths@).to_multiset()),
        r@.len() <= paths@.len(),
        (r@.len() == 0) == (paths@.len() == 0),
{
    sort_paths_by(paths, &path_less, &path_same)
}

/// Whether two paths are the same `std::path::Path` (`==`). Nothing is
/// claimed of the answer: path equality depends on the platform's path
/// syntax.
#[verifier::external_body]
pub(crate) fn path_same(a: &String, b: &String) -> (r: bool) {
    std::path::Path::new(a.as_str()).eq(std::path::Path::new(b.as_str()))
}

/// Discover the schema files of `paths`: an excluded path is counted and
/// skipped; a `.json` file is taken; a directory is scanned with `walk`;
/// anything else fails. The files found are then put in path order with
/// repeats removed (see `path_sorted`), and their number is the
/// discovered count. A count that would pass `usize::MAX` ends the
/// discovery early.
pub fn discover<K: Fn(&String) -> PathKind, W: Fn(&String) -> DirScan>(
    paths: &Vec<String>,
    exclusions: &Vec<String>,
    kind_of: K,
    walk: W,
) -> (r: RawDiscoveryOutcome)
    requires
        forall|p: &String| kind_of.requires((p,)),
        forall|p: &String| walk.requires((p,)),
    ensures
        exists|visits: Seq<PathVisit>| #![trigger raw_run(paths@, visits)] {
            &&& visits.len() <= paths.len()
            &&& forall|j: int| 0 <= j < visits.len() ==> path_visit_allowed(kind_of, walk, exclusions, &paths@[j], #[trigger] visits[j])
            &&& visits.len() == paths.len() || stops_at(kind_of, walk, exclusions, paths, visits)
            &&& r.coverage == (CoverageCounts { discovered: r.files.len(), ..raw_run(paths@, visits).coverage })
            &&& r.failures@.map_values(|m: ReportMessage| message_view(m)) == raw_run(paths@, visits).failures
            &&& forall|i: int| 0 <= i < r.files.len() ==> raw_run(paths@, visits).files.contains(#[trigger] r.files@[i]@)
            &&& path_views(r.files@).to_multiset().subset_of(raw_run(paths@, visits).files.to_multiset())
            &&& (r.files.len() == 0) == (raw_run(paths@, visits).files.len() == 0)
            &&& path_sorted(raw_run(paths@, visits).files, r.files@)
        },
{
    let mut files: Vec<String> = Vec::new();
    let mut coverage = CoverageCounts { attempted: 0, excluded: 0, discovered: 0, checked: 0, failed: 0 };
    let mut failures: Vec<ReportMessage> = Vec::new();
    let ghost mut visits: Seq<PathVisit> = Seq::empty();
    assert(files@.map_values(|f: String| f@) =~= Seq::<Seq<char>>::empty());
    assert(failures@.map_values(|m: ReportMessage| message_view(m)) =~= Seq::<(Seq<char>, Seq<char>)>::empty());
    let mut i: usize = 0;
    let mut stopped = false;
    while i < paths.len() && !stopped
        invariant
            i <= paths.len(),
            visits.len() == i,
            forall|p: &String| kind_of.requires((p,)),
            forall|p: &String| walk.requires((p,)),
            forall|j: int| 0 <= j < visits.len() ==> path_visit_allowed(kind_of, walk, exclusions, &paths@[j], #[trigger] visits[j]),
            files@.map_values(|f: String| f@) == raw_run(paths@, visits).files,
            coverage == raw_run(paths@, visits).coverage,
            failures@.map_values(|m: ReportMessage| message_view(m)) == raw_run(paths@, visits).failures,
            stopped ==> i < paths.len() && stops_at(kind_of, walk, exclusions, paths, visits),
        decreases paths.len() - i, if stopped { 0int } else { 1int },
    {
        let path = &paths[i];
        let ghost next = visits;
        if is_excluded(path.as_str(), exclusions) {
            if coverage.excluded == usize::MAX {
                stopped = true;
                assert(path_visit_allowed(kind_of, walk, exclusions, &paths@[i as int], PathVisit::Excluded));
                assert(!path_visit_fits(raw_run(paths@, visits), PathVisit::Excluded));
                continue;
            }
            coverage.excluded = coverage.excluded + 1;
            proof {
                next = visits.push(PathVisit::Excluded);
            }
        } else {
            let k = kind_of(path);
            match k {
                PathKind::JsonFile => {
                    if coverage.attempted == usize::MAX {
                        stopped = true;
                        assert(path_visit_allowed(kind_of, walk, exclusions, &paths@[i as int], PathVisit::Seen(k, None)));
                        assert(!path_visit_fits(raw_run(paths@, visits), PathVisit::Seen(k, None)));
                        continue;
                    }
                    coverage.attempted = coverage.attempted + 1;
                    let ghost before = files@;
                    files.push(owned(path.as_str()));
                    assert(files@.map_values(|f: String| f@) =~= before.map_values(|f: String| f@).push(path@));
                    proof {
                        next = visits.push(PathVisit::Seen(k, None));
                    }
                },
                PathKind::Directory => {
                    let scan = walk(path);
                    if coverage.attempted == usize::MAX || coverage.excluded > usize::MAX - scan.excluded || coverage.failed
                        > usize::MAX - scan.failures.len() {
                        stopped = true;
                        assert(path_visit_allowed(kind_of, walk, exclusions, &paths@[i as int], PathVisit::Seen(k, Some(scan))));
                        assert(!path_visit_fits(raw_run(paths@, visits), PathVisit::Seen(k, Some(scan))));
                        continue;
                    }
                    let ghost sc = scan;
                    coverage.attempted = coverage.attempted + 1;
                    coverage.excluded = coverage.excluded + scan.excluded;
                    coverage.failed = coverage.failed + scan.failures.len();
                    let DirScan { files: found, excluded: _, failures: scan_failures } = scan;
                    let ghost fb = files@;
                    let ghost mb = failures@;
                    let mut found = found;
                    let mut scan_failures = scan_failures;
                    let ghost fv = found@;
                    let ghost sv = scan_failures@;
                    files.append(&mut found);
                    failures.append(&mut scan_failures);
                    proof {
                        assert(files@.map_values(|f: String| f@) =~= fb.map_values(|f: String| f@) + fv.map_values(|f: String| f@));
                        assert(failures@.map_values(|m: ReportMessage| message_view(m)) =~= mb.map_values(
                            |m: ReportMessage| message_view(m),
                        ) + sv.map_values(|m: ReportMessage| message_view(m)));
                        next = visits.push(PathVisit::Seen(k, Some(sc)));
                    }
                },
                PathKind::Other => {
                    if coverage.attempted == usize::MAX || coverage.failed == usize::MAX {
                        stopped = true;
                        assert(path_visit_allowed(kind_of, walk, exclusions, &paths@[i as int], PathVisit::Seen(k, None)));
                        assert(!path_visit_fits(raw_run(paths@, visits), PathVisit::Seen(k, None)));
                        continue;
                    }
                    coverage.attempted = coverage.attempted + 1;
                    coverage.failed = coverage.failed + 1;
                    let ghost mb = failures@;
                    failures.push(
                        ReportMessage {
                            target: owned(path.as_str()),
                            message: owned("input does not exist or is not a JSON schema file"),
                        },
                    );
                    assert(failures@.map_values(|m: ReportMessage| message_view(m)) =~= mb.map_values(
                        |m: ReportMessage| message_view(m),
                    ).push((path@, "input does not exist or is not a JSON schema file"@)));
                    proof {
                        next = visits.push(PathVisit::Seen(k, None));
                    }
                },
            }
        }
        proof {
            assert(next.drop_last() =~= visits);
            visits = next;
        }
        i = i + 1;
    }
    assert(path_views(files@) =~= files@.map_values(|f: String| f@));
    let ghost found = path_views(files@);
    assert(found == raw_run(paths@, visits).files);
    assert(found.len() == files@.len());
    let sorted = sort_paths(files);
    assert(path_views(sorted@).to_multiset().subset_of(found.to_multiset()));
    assert((sorted@.len() == 0) == (found.len() == 0));
    let n = sorted.len();
    coverage.discovered = n;
    let r = RawDiscoveryOutcome { files: sorted, coverage, failures };
    assert(path_views(r.files@).to_multiset().subset_of(raw_run(paths@, visits).files.to_multiset()));
    assert((r.files.len() == 0) == (raw_run(paths@, visits).files.len() == 0));
    assert(path_sorted(raw_run(paths@, visits).files, r.files@));
    r
}

} // verus!
