//! Diagnostics produced by the rules, and where in the source they point.
use vstd::prelude::*;

use crate::profile::evidence::ProviderEvidence;
use crate::text::{chars_of, str_eq, string_from_chars, sub_chars};

verus! {

/// How serious a diagnostic is.
#[derive(Debug, Clone, Copy, PartialEq, Eq, Structural)]
pub enum DiagnosticSeverity {
    Error,
    Warning,
}

/// A place in a source file.
#[derive(Debug, Clone, PartialEq, Eq)]
pub struct SourceSpan {
    pub file: String,
    pub line: Option<u32>,
    pub col: Option<u32>,
}

/// A copy of a span.
pub fn clone_span(s: &SourceSpan) -> (r: SourceSpan)
    ensures
        r == *s,
{
    SourceSpan { file: s.file.clone(), line: s.line, col: s.col }
}

/// One finding of a rule about a schema.
#[derive(Debug, Clone, PartialEq, Eq)]
pub struct Diagnostic {
    pub code: String,
    pub severity: DiagnosticSeverity,
    pub message: String,
    /// JSON Pointer of the schema location the finding is about.
    pub pointer: String,
    pub source: Option<SourceSpan>,
    pub profile: String,
    pub hint: Option<String>,
    pub provider_evidence: Option<ProviderEvidence>,
}

/// The span stored under `key`: the first entry with that key.
pub open spec fn span_lookup(map: Seq<(String, SourceSpan)>, key: Seq<char>) -> Option<SourceSpan>
    decreases map.len(),
{
    if map.len() == 0 {
        None
    } else if map[0].0@ == key {
        Some(map[0].1)
    } else {
        span_lookup(map.drop_first(), key)
    }
}

/// The position of the last `/` in `p`, or 0 when there is none.
pub open spec fn last_slash(p: Seq<char>) -> int
    decreases p.len(),
{
    if p.len() == 0 {
        0
    } else if p.last() == '/' {
        p.len() - 1
    } else {
        last_slash(p.drop_last())
    }
}

pub proof fn lemma_last_slash(p: Seq<char>)
    ensures
        0 <= last_slash(p) <= p.len(),
        p.len() > 0 ==> last_slash(p) < p.len(),
        forall|j: int| last_slash(p) < j < p.len() ==> p[j] != '/',
        last_slash(p) < p.len() && p.len() > 0 && p.contains('/') ==> p[last_slash(p)] == '/',
    decreases p.len(),
{
    if p.len() > 0 && p.last() != '/' {
        lemma_last_slash(p.drop_last());
        assert forall|j: int| last_slash(p) < j < p.len() implies p[j] != '/' by {
            if j < p.len() - 1 {
                assert(p.drop_last()[j] == p[j]);
            }
        }
        if p.contains('/') {
            let w = choose|j: int| 0 <= j < p.len() && p[j] == '/';
            assert(w < p.len() - 1);
            assert(p.drop_last()[w] == '/');
        }
    }
}

/// The span of the closest mapped location: the pointer itself, else its
/// parent (the pointer without its last segment), and so on up to the root
/// pointer `""`. Segments are cut at a literal `/` only, so an escaped
/// `~1` never splits a segment.
pub open spec fn closest_span(map: Seq<(String, SourceSpan)>, p: Seq<char>) -> Option<SourceSpan>
    decreases p.len(),
{
    match span_lookup(map, p) {
        Some(s) => Some(s),
        None => if p.len() == 0 {
            None
        } else {
            proof {
                lemma_last_slash(p);
            }
            closest_span(map, p.take(last_slash(p)))
        },
    }
}

/// Look up `key` in a source map.
pub fn find_span(map: &Vec<(String, SourceSpan)>, key: &str) -> (r: Option<SourceSpan>)
    ensures
        r == span_lookup(map@, key@),
{
    let mut i: usize = 0;
    assert(map@.skip(0) =~= map@);
    while i < map.len()
        invariant
            i <= map.len(),
            span_lookup(map@, key@) == span_lookup(map@.skip(i as int), key@),
        decreases map.len() - i,
    {
        assert(map@.skip(i as int)[0] == map@[i as int]);
        if str_eq(map[i].0.as_str(), key) {
            return Some(clone_span(&map[i].1));
        }
        assert(map@.skip(i as int).drop_first() =~= map@.skip(i + 1));
        i = i + 1;
    }
    None
}

/// The span of the closest mapped location of `pointer`, as `closest_span` states.
pub fn closest_mapped_span(map: &Vec<(String, SourceSpan)>, pointer: &str) -> (r: Option<SourceSpan>)
    ensures
        r == closest_span(map@, pointer@),
    decreases pointer@.len(),
{
    match find_span(map, pointer) {
        Some(s) => Some(s),
        None => {
            let c = chars_of(pointer);
            if c.len() == 0 {
                return None;
            }
            let mut k = c.len();
            while k > 0 && c[k - 1] != '/'
                invariant
                    0 <= k <= c.len(),
                    forall|j: int| k <= j < c.len() ==> c@[j] != '/',
                decreases k,
            {
                k = k - 1;
            }
            let cut = if k == 0 { 0 } else { k - 1 };
            proof {
                lemma_last_slash_at(c@, cut as int);
            }
            let parent = string_from_chars(&sub_chars(&c, 0, cut));
            assert(c@.subrange(0, cut as int) =~= c@.take(cut as int));
            closest_mapped_span(map, parent.as_str())
        },
    }
}

proof fn lemma_last_slash_at(p: Seq<char>, k: int)
    requires
        p.len() > 0,
        0 <= k < p.len(),
        forall|j: int| k < j < p.len() ==> p[j] != '/',
        p[k] == '/' || (k == 0 && forall|j: int| 0 <= j < p.len() ==> p[j] != '/'),
    ensures
        last_slash(p) == k,
    decreases p.len(),
{
    if p.last() == '/' {
        if k < p.len() - 1 {
            assert(p[p.len() - 1] != '/');
        }
        assert(p[p.len() - 1] == '/');
        assert(k == p.len() - 1);
        assert(last_slash(p) == p.len() - 1);
    } else {
        assert(last_slash(p) == last_slash(p.drop_last()));
        if p.drop_last().len() > 0 {
            if k == p.len() - 1 {
                assert(p[k] != '/');
            }
            assert forall|j: int| k < j < p.drop_last().len() implies p.drop_last()[j] != '/' by {
                assert(p.drop_last()[j] == p[j]);
            }
            if p[k] != '/' {
                assert forall|j: int| 0 <= j < p.drop_last().len() implies p.drop_last()[j] != '/' by {
                    assert(p.drop_last()[j] == p[j]);
                }
            }
            assert(p.drop_last()[k] == p[k]);
            lemma_last_slash_at(p.drop_last(), k);
        }
    }
}

/// Give each diagnostic without a source the span of the closest mapped
/// location of its pointer; a diagnostic that has a source keeps it.
pub fn attach_diagnostic_sources(diagnostics: &mut Vec<Diagnostic>, source_map: &Vec<(String, SourceSpan)>)
    ensures
        final(diagnostics)@.len() == old(diagnostics)@.len(),
        forall|i: int|
            0 <= i < old(diagnostics)@.len() ==> {
                let d = #[trigger] old(diagnostics)@[i];
                final(diagnostics)@[i] == if d.source is Some {
                    d
                } else {
                    Diagnostic { source: closest_span(source_map@, d.pointer@), ..d }
                }
            },
{
    let mut i: usize = 0;
    while i < diagnostics.len()
        invariant
            i <= diagnostics.len(),
            diagnostics@.len() == old(diagnostics)@.len(),
            forall|j: int|
                i <= j < diagnostics@.len() ==> diagnostics@[j] == old(diagnostics)@[j],
            forall|j: int|
                0 <= j < i ==> {
                    let d = #[trigger] old(diagnostics)@[j];
                    diagnostics@[j] == if d.source is Some {
                        d
                    } else {
                        Diagnostic { source: closest_span(source_map@, d.pointer@), ..d }
                    }
                },
        decreases diagnostics.len() - i,
    {
        if diagnostics[i].source.is_none() {
            let span = closest_mapped_span(source_map, diagnostics[i].pointer.as_str());
            let mut d = diagnostics.remove(i);
            d.source = span;
            diagnostics.insert(i, d);
        }
        i = i + 1;
    }
}

} // verus!
