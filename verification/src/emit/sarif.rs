//! SARIF v2.1.0.
use vstd::prelude::*;

use crate::diagnostic::{Diagnostic, SourceSpan};
use crate::docs_url::{rule_link, rule_url, DOCS_BASE_URL};
use crate::emit::gha::{severity_str, severity_word};
use crate::emit::json_report::{evidence_json, evidence_value};
use crate::json::{
    json_array, json_models, json_object, json_pretty_text, json_string, json_uint, member_models,
    pretty_json_text, JsonModel, JsonValue, NumberModel,
};
use crate::profile::evidence::ProviderEvidence;
use crate::text::{chars_of, owned, str_eq};

verus! {

/// Lexicographic order on texts, character by character, as `String`
/// compares them.
pub open spec fn text_less(a: Seq<char>, b: Seq<char>) -> bool
    decreases a.len(),
{
    if a.len() == 0 {
        b.len() > 0
    } else if b.len() == 0 {
        false
    } else if a[0] != b[0] {
        a[0] < b[0]
    } else {
        text_less(a.drop_first(), b.drop_first())
    }
}

pub proof fn lemma_text_less_irreflexive(a: Seq<char>)
    ensures
        !text_less(a, a),
    decreases a.len(),
{
    if a.len() > 0 {
        lemma_text_less_irreflexive(a.drop_first());
    }
}

pub proof fn lemma_text_less_total(a: Seq<char>, b: Seq<char>)
    ensures
        text_less(a, b) || text_less(b, a) || a == b,
    decreases a.len(),
{
    if a.len() > 0 && b.len() > 0 {
        if a[0] == b[0] {
            lemma_text_less_total(a.drop_first(), b.drop_first());
            if a.drop_first() == b.drop_first() {
                assert(a =~= seq![a[0]] + a.drop_first());
                assert(b =~= seq![b[0]] + b.drop_first());
            }
        } else {
            assert(a[0] < b[0] || b[0] < a[0]);
        }
    } else if a.len() == 0 && b.len() == 0 {
        assert(a =~= b);
    }
}

pub proof fn lemma_text_less_transitive(a: Seq<char>, b: Seq<char>, c: Seq<char>)
    requires
        text_less(a, b),
        text_less(b, c),
    ensures
        text_less(a, c),
    decreases a.len(),
{
    if a.len() > 0 && b.len() > 0 && c.len() > 0 {
        if a[0] == b[0] && b[0] == c[0] {
            lemma_text_less_transitive(a.drop_first(), b.drop_first(), c.drop_first());
        }
    }
}

pub proof fn lemma_text_less_asymmetric(a: Seq<char>, b: Seq<char>)
    requires
        text_less(a, b),
    ensures
        !text_less(b, a),
    decreases a.len(),
{
    if a.len() > 0 && b.len() > 0 && a[0] == b[0] {
        lemma_text_less_asymmetric(a.drop_first(), b.drop_first());
    }
}

/// Compare two texts.
pub fn text_less_exec(a: &str, b: &str) -> (r: bool)
    ensures
        r == text_less(a@, b@),
{
    let x = chars_of(a);
    let y = chars_of(b);
    let mut i: usize = 0;
    assert(x@.skip(0) =~= x@);
    assert(y@.skip(0) =~= y@);
    while i < x.len() && i < y.len() && x[i] == y[i]
        invariant
            i <= x.len(),
            i <= y.len(),
            text_less(a@, b@) == text_less(x@.skip(i as int), y@.skip(i as int)),
            x@ == a@,
            y@ == b@,
        decreases x.len() - i,
    {
        assert(x@.skip(i as int).drop_first() =~= x@.skip(i + 1));
        assert(y@.skip(i as int).drop_first() =~= y@.skip(i + 1));
        i = i + 1;
    }
    if i == x.len() {
        i < y.len()
    } else if i == y.len() {
        false
    } else {
        assert(x@.skip(i as int)[0] == x@[i as int]);
        assert(y@.skip(i as int)[0] == y@[i as int]);
        x[i] < y[i]
    }
}

/// Every diagnostic, schema by schema.
pub open spec fn all_diagnostics(groups: Seq<(String, Vec<Diagnostic>)>) -> Seq<Diagnostic>
    decreases groups.len(),
{
    if groups.len() == 0 {
        Seq::empty()
    } else {
        all_diagnostics(groups.drop_last()) + groups.last().1@
    }
}

/// Whether some diagnostic has code `c`.
pub open spec fn has_code(ds: Seq<Diagnostic>, c: Seq<char>) -> bool {
    exists|i: int| 0 <= i < ds.len() && (#[trigger] ds[i]).code@ == c
}

/// Texts in strictly increasing order.
pub open spec fn strictly_sorted(s: Seq<Seq<char>>) -> bool {
    forall|i: int, j: int| 0 <= i < j < s.len() ==> text_less(#[trigger] s[i], #[trigger] s[j])
}

/// The codes of `ds`, each once, in increasing order.
pub open spec fn rule_codes(ds: Seq<Diagnostic>) -> Seq<Seq<char>> {
    choose|codes: Seq<Seq<char>>| strictly_sorted(codes) && forall|c: Seq<char>| #[trigger] codes.contains(c) <==> has_code(ds, c)
}

/// Two strictly sorted sequences with the same elements are the same.
pub proof fn lemma_sorted_unique(a: Seq<Seq<char>>, b: Seq<Seq<char>>)
    requires
        strictly_sorted(a),
        strictly_sorted(b),
        forall|c: Seq<char>| #[trigger] a.contains(c) <==> b.contains(c),
    ensures
        a == b,
    decreases a.len(),
{
    if a.len() == 0 {
        if b.len() > 0 {
            assert(b.contains(b[0]));
            assert(a.contains(b[0]));
        }
        assert(a =~= b);
    } else {
        assert(a.contains(a[0]));
        assert(b.contains(a[0]));
        let j = choose|j: int| 0 <= j < b.len() && b[j] == a[0];
        assert(b.contains(b[0]));
        assert(a.contains(b[0]));
        let i = choose|i: int| 0 <= i < a.len() && a[i] == b[0];
        if a[0] != b[0] {
            assert(i > 0 && j > 0);
            assert(text_less(a[0], a[i]));
            assert(text_less(b[0], b[j]));
            lemma_text_less_asymmetric(a[0], b[0]);
        }
        let ta = a.drop_first();
        let tb = b.drop_first();
        assert forall|x: int, y: int| 0 <= x < y < ta.len() implies text_less(#[trigger] ta[x], #[trigger] ta[y]) by {
            assert(ta[x] == a[x + 1] && ta[y] == a[y + 1]);
        }
        assert forall|x: int, y: int| 0 <= x < y < tb.len() implies text_less(#[trigger] tb[x], #[trigger] tb[y]) by {
            assert(tb[x] == b[x + 1] && tb[y] == b[y + 1]);
        }
        assert forall|c: Seq<char>| #[trigger] ta.contains(c) <==> tb.contains(c) by {
            if ta.contains(c) {
                let x = choose|x: int| 0 <= x < ta.len() && ta[x] == c;
                assert(a[x + 1] == c);
                assert(a.contains(c));
                assert(text_less(a[0], a[x + 1]));
                lemma_text_less_irreflexive(c);
                assert(b.contains(c));
                let y = choose|y: int| 0 <= y < b.len() && b[y] == c;
                assert(y != 0);
                assert(tb[y - 1] == c);
            }
            if tb.contains(c) {
                let x = choose|x: int| 0 <= x < tb.len() && tb[x] == c;
                assert(b[x + 1] == c);
                assert(b.contains(c));
                assert(text_less(b[0], b[x + 1]));
                lemma_text_less_irreflexive(c);
                assert(a.contains(c));
                let y = choose|y: int| 0 <= y < a.len() && a[y] == c;
                assert(y != 0);
                assert(ta[y - 1] == c);
            }
        }
        lemma_sorted_unique(ta, tb);
        assert(a =~= seq![a[0]] + ta);
        assert(b =~= seq![b[0]] + tb);
    }
}

/// The evidence of the first diagnostic with code `c` that carries any.
pub open spec fn first_evidence(ds: Seq<Diagnostic>, c: Seq<char>) -> Option<ProviderEvidence>
    decreases ds.len(),
{
    if ds.len() == 0 {
        None
    } else {
        match first_evidence(ds.drop_last(), c) {
            Some(e) => Some(e),
            None => if ds.last().code@ == c {
                ds.last().provider_evidence
            } else {
                None
            },
        }
    }
}

/// The descriptor of one rule.
pub open spec fn rule_json(id: Seq<char>, ev: Option<ProviderEvidence>) -> JsonModel {
    JsonModel::Object(
        seq![("id"@, JsonModel::Str(id)), ("helpUri"@, JsonModel::Str(rule_link(id)))] + match ev {
            Some(e) => seq![("properties"@, JsonModel::Object(seq![("providerEvidence"@, evidence_json(e))]))],
            None => Seq::empty(),
        },
    )
}

pub open spec fn rules_json(codes: Seq<Seq<char>>, ds: Seq<Diagnostic>) -> Seq<JsonModel> {
    Seq::new(codes.len(), |i: int| rule_json(codes[i], first_evidence(ds, codes[i])))
}

/// The region of a source span: its line and column where known.
pub open spec fn region_json(s: SourceSpan) -> JsonModel {
    JsonModel::Object(
        (match s.line {
            Some(l) => seq![("startLine"@, JsonModel::Number(NumberModel::PosInt(l as u64)))],
            None => Seq::empty(),
        }) + match s.col {
            Some(c) => seq![("startColumn"@, JsonModel::Number(NumberModel::PosInt(c as u64)))],
            None => Seq::empty(),
        },
    )
}

/// Where a diagnostic of the schema at `path` points: its source file (or
/// the schema's path), and the region when a line or column is known.
pub open spec fn physical_location_json(path: Seq<char>, d: Diagnostic) -> JsonModel {
    let file = match d.source {
        Some(s) => s.file@,
        None => path,
    };
    JsonModel::Object(
        seq![("artifactLocation"@, JsonModel::Object(seq![("uri"@, JsonModel::Str(file))]))] + match d.source {
            Some(s) => if s.line is Some || s.col is Some {
                seq![("region"@, region_json(s))]
            } else {
                Seq::empty()
            },
            None => Seq::empty(),
        },
    )
}

pub open spec fn result_json(path: Seq<char>, d: Diagnostic) -> JsonModel {
    JsonModel::Object(
        seq![
            ("ruleId"@, JsonModel::Str(d.code@)),
            ("level"@, JsonModel::Str(severity_word(d.severity))),
            ("message"@, JsonModel::Object(seq![("text"@, JsonModel::Str(d.message@))])),
            ("locations"@, JsonModel::Array(seq![JsonModel::Object(seq![("physicalLocation"@, physical_location_json(path, d))])])),
        ],
    )
}

pub open spec fn group_results(path: Seq<char>, ds: Seq<Diagnostic>) -> Seq<JsonModel>
    decreases ds.len(),
{
    if ds.len() == 0 {
        Seq::empty()
    } else {
        group_results(path, ds.drop_last()).push(result_json(path, ds.last()))
    }
}

pub open spec fn results_json(groups: Seq<(String, Vec<Diagnostic>)>) -> Seq<JsonModel>
    decreases groups.len(),
{
    if groups.len() == 0 {
        Seq::empty()
    } else {
        results_json(groups.drop_last()) + group_results(groups.last().0@, groups.last().1@)
    }
}

pub open spec fn sarif_schema_uri() -> Seq<char> {
    "https://raw.githubusercontent.com/oasis-tcs/sarif-spec/master/Schemata/sarif-schema-2.1.0.json"@
}

/// The SARIF log of the diagnostics, given the rule codes in order.
pub open spec fn sarif_document(groups: Seq<(String, Vec<Diagnostic>)>, codes: Seq<Seq<char>>) -> JsonModel {
    JsonModel::Object(
        seq![
            ("$schema"@, JsonModel::Str(sarif_schema_uri())),
            ("version"@, JsonModel::Str("2.1.0"@)),
            ("runs"@, JsonModel::Array(seq![JsonModel::Object(seq![
                ("tool"@, JsonModel::Object(seq![("driver"@, JsonModel::Object(seq![
                    ("name"@, JsonModel::Str("schemalint"@)),
                    ("informationUri"@, JsonModel::Str(DOCS_BASE_URL@)),
                    ("rules"@, JsonModel::Array(rules_json(codes, all_diagnostics(groups)))),
                ]))])),
                ("results"@, JsonModel::Array(results_json(groups))),
            ])])),
        ],
    )
}

// ---------------------------------------------------------------------------
// The table of rules met so far
// ---------------------------------------------------------------------------

pub open spec fn code_views(codes: Seq<String>) -> Seq<Seq<char>> {
    Seq::new(codes.len(), |i: int| codes[i]@)
}

/// The evidence JSON kept for a code, as the first evidence met for it.
pub open spec fn evidence_slot_ok(slot: Option<JsonValue>, ev: Option<ProviderEvidence>) -> bool {
    match ev {
        Some(e) => slot matches Some(v) && v@ == evidence_json(e),
        None => slot is None,
    }
}

/// The rule table describes the diagnostics `seen`: their codes, sorted,
/// each with the first evidence met for it.
pub open spec fn table_ok(codes: Seq<String>, evs: Seq<Option<JsonValue>>, seen: Seq<Diagnostic>) -> bool {
    &&& codes.len() == evs.len()
    &&& strictly_sorted(code_views(codes))
    &&& forall|c: Seq<char>| #[trigger] code_views(codes).contains(c) <==> has_code(seen, c)
    &&& forall|k: int| 0 <= k < codes.len() ==> evidence_slot_ok(#[trigger] evs[k], first_evidence(seen, codes[k]@))
}

proof fn lemma_no_code_no_evidence(s: Seq<Diagnostic>, c: Seq<char>)
    requires
        !has_code(s, c),
    ensures
        first_evidence(s, c) is None,
    decreases s.len(),
{
    if s.len() > 0 {
        assert forall|i: int| 0 <= i < s.drop_last().len() implies (#[trigger] s.drop_last()[i]).code@ != c by {
            assert(s.drop_last()[i] == s[i]);
        }
        lemma_no_code_no_evidence(s.drop_last(), c);
        assert(s[s.len() - 1] == s.last());
    }
}

proof fn lemma_push_has_code(s: Seq<Diagnostic>, d: Diagnostic, c: Seq<char>)
    ensures
        has_code(s.push(d), c) <==> (has_code(s, c) || d.code@ == c),
{
    let t = s.push(d);
    if has_code(t, c) {
        let i = choose|i: int| 0 <= i < t.len() && (#[trigger] t[i]).code@ == c;
        if i < s.len() {
            assert(s[i] == t[i]);
        }
    }
    if has_code(s, c) {
        let i = choose|i: int| 0 <= i < s.len() && (#[trigger] s[i]).code@ == c;
        assert(t[i] == s[i]);
    }
    if d.code@ == c {
        assert(t[s.len() as int] == d);
    }
}

/// The first position whose code is not below `code`.
fn first_not_less(codes: &Vec<String>, code: &str) -> (k: usize)
    ensures
        k <= codes.len(),
        forall|j: int| 0 <= j < k ==> text_less(#[trigger] codes@[j]@, code@),
        k < codes.len() ==> !text_less(codes@[k as int]@, code@),
{
    let mut k: usize = 0;
    while k < codes.len()
        invariant
            k <= codes.len(),
            forall|j: int| 0 <= j < k ==> text_less(#[trigger] codes@[j]@, code@),
        decreases codes.len() - k,
    {
        if !text_less_exec(codes[k].as_str(), code) {
            return k;
        }
        k = k + 1;
    }
    k
}

/// Record diagnostic `d` in the rule table.
fn note_rule(codes: &mut Vec<String>, evs: &mut Vec<Option<JsonValue>>, d: &Diagnostic, Ghost(seen): Ghost<Seq<Diagnostic>>)
    requires
        table_ok(old(codes)@, old(evs)@, seen),
    ensures
        table_ok(final(codes)@, final(evs)@, seen.push(*d)),
{
    let ghost all = seen.push(*d);
    proof {
        assert(all.drop_last() =~= seen);
        assert forall|c: Seq<char>| has_code(all, c) <==> (has_code(seen, c) || d.code@ == c) by {
            lemma_push_has_code(seen, *d, c);
        }
    }
    let code = d.code.as_str();
    let k = first_not_less(codes, code);
    let ghost cv = code_views(codes@);
    if k < codes.len() && str_eq(codes[k].as_str(), code) {
        assert(cv[k as int] == d.code@);
        proof {
            assert forall|j: int| 0 <= j < codes.len() && j != k implies #[trigger] codes@[j]@ != d.code@ by {
                if j < k {
                    assert(text_less(cv[j], cv[k as int]));
                    lemma_text_less_irreflexive(d.code@);
                } else {
                    assert(text_less(cv[k as int], cv[j]));
                    lemma_text_less_irreflexive(d.code@);
                }
            }
        }
        let fill = match (&evs[k], &d.provider_evidence) {
            (None, Some(e)) => true,
            _ => false,
        };
        if fill {
            match &d.provider_evidence {
                Some(e) => {
                    let v = evidence_value(e);
                    evs.set(k, Some(v));
                },
                None => {},
            }
        }
        proof {
            assert(code_views(codes@) =~= cv);
            assert forall|c: Seq<char>| #[trigger] code_views(codes@).contains(c) <==> has_code(all, c) by {
                if c == d.code@ {
                    assert(cv[k as int] == c);
                }
            }
            assert forall|j: int| 0 <= j < codes.len() implies evidence_slot_ok(#[trigger] evs@[j], first_evidence(all, codes@[j]@)) by {
                assert(first_evidence(all, codes@[j]@) == match first_evidence(seen, codes@[j]@) {
                    Some(e) => Some(e),
                    None => if d.code@ == codes@[j]@ { d.provider_evidence } else { None },
                });
            }
        }
    } else {
        let ghost old_codes = codes@;
        let ghost old_evs = evs@;
        proof {
            assert(!cv.contains(d.code@)) by {
                if cv.contains(d.code@) {
                    let j = choose|j: int| 0 <= j < cv.len() && cv[j] == d.code@;
                    if j < k {
                        lemma_text_less_irreflexive(d.code@);
                    } else {
                        assert(text_less(cv[k as int], cv[j]) || k == j);
                        if k < codes.len() {
                            lemma_text_less_total(cv[k as int], d.code@);
                            lemma_text_less_asymmetric(cv[k as int], d.code@);
                        }
                    }
                }
            }
            lemma_no_code_no_evidence(seen, d.code@);
            if k < codes.len() {
                lemma_text_less_total(cv[k as int], d.code@);
            }
        }
        let ev = match &d.provider_evidence {
            Some(e) => Some(evidence_value(e)),
            None => None,
        };
        codes.insert(k, owned(code));
        evs.insert(k, ev);
        proof {
            let nv = code_views(codes@);
            assert(nv =~= cv.insert(k as int, d.code@));
            assert forall|i: int, j: int| 0 <= i < j < nv.len() implies text_less(#[trigger] nv[i], #[trigger] nv[j]) by {
                if j < k {
                    assert(nv[i] == cv[i] && nv[j] == cv[j]);
                } else if j == k {
                    assert(nv[i] == cv[i]);
                } else if i == k {
                    assert(nv[j] == cv[j - 1]);
                    if j - 1 > k {
                        lemma_text_less_transitive(d.code@, cv[k as int], cv[j - 1]);
                    }
                } else if i < k {
                    assert(nv[i] == cv[i] && nv[j] == cv[j - 1]);
                    if j - 1 >= k {
                        lemma_text_less_transitive(cv[i], d.code@, cv[k as int]);
                        if j - 1 > k {
                            lemma_text_less_transitive(cv[i], cv[k as int], cv[j - 1]);
                        }
                    }
                } else {
                    assert(nv[i] == cv[i - 1] && nv[j] == cv[j - 1]);
                }
            }
            assert forall|c: Seq<char>| #[trigger] nv.contains(c) <==> has_code(all, c) by {
                if nv.contains(c) {
                    let j = choose|j: int| 0 <= j < nv.len() && nv[j] == c;
                    if j < k {
                        assert(cv[j] == c);
                    } else if j > k {
                        assert(cv[j - 1] == c);
                    }
                }
                if cv.contains(c) {
                    let j = choose|j: int| 0 <= j < cv.len() && cv[j] == c;
                    if j < k {
                        assert(nv[j] == c);
                    } else {
                        assert(nv[j + 1] == c);
                    }
                }
                if c == d.code@ {
                    assert(nv[k as int] == c);
                }
            }
            assert forall|j: int| 0 <= j < codes.len() implies evidence_slot_ok(#[trigger] evs@[j], first_evidence(all, codes@[j]@)) by {
                assert(first_evidence(all, codes@[j]@) == match first_evidence(seen, codes@[j]@) {
                    Some(e) => Some(e),
                    None => if d.code@ == codes@[j]@ { d.provider_evidence } else { None },
                });
                if j < k {
                    assert(evs@[j] == old_evs[j] && codes@[j] == old_codes[j]);
                    assert(cv[j] != d.code@);
                } else if j > k {
                    assert(evs@[j] == old_evs[j - 1] && codes@[j] == old_codes[j - 1]);
                    assert(cv[j - 1] != d.code@);
                }
            }
        }
    }
}

// ---------------------------------------------------------------------------
// Building the log
// ---------------------------------------------------------------------------

fn region_value(s: &SourceSpan) -> (r: JsonValue)
    ensures
        r@ == region_json(*s),
{
    let mut m: Vec<(String, JsonValue)> = Vec::new();
    match s.line {
        Some(l) => m.push((owned("startLine"), json_uint(l as u64))),
        None => {},
    }
    let ghost a = member_models(m@);
    match s.col {
        Some(c) => m.push((owned("startColumn"), json_uint(c as u64))),
        None => {},
    }
    proof {
        let ss: SourceSpan = *s;
        assert(a =~= match ss.line {
            Some(l) => seq![("startLine"@, JsonModel::Number(NumberModel::PosInt(l as u64)))],
            None => Seq::empty(),
        });
        assert(member_models(m@) =~= a + match ss.col {
            Some(c) => seq![("startColumn"@, JsonModel::Number(NumberModel::PosInt(c as u64)))],
            None => Seq::empty(),
        });
    }
    json_object(m)
}

fn physical_location_value(path: &str, d: &Diagnostic) -> (r: JsonValue)
    ensures
        r@ == physical_location_json(path@, *d),
{
    let file = match &d.source {
        Some(s) => json_string(s.file.as_str()),
        None => json_string(path),
    };
    let mut uri: Vec<(String, JsonValue)> = Vec::new();
    uri.push((owned("uri"), file));
    let artifact = json_object(uri);
    let mut m: Vec<(String, JsonValue)> = Vec::new();
    m.push((owned("artifactLocation"), artifact));
    let ghost a = member_models(m@);
    match &d.source {
        Some(s) => {
            if s.line.is_some() || s.col.is_some() {
                m.push((owned("region"), region_value(s)));
            }
        },
        None => {},
    }
    proof {
        let dd: Diagnostic = *d;
        let f = match dd.source {
            Some(s) => s.file@,
            None => path@,
        };
        assert(member_models(uri@) =~= seq![("uri"@, JsonModel::Str(f))]);
        assert(a =~= seq![("artifactLocation"@, JsonModel::Object(seq![("uri"@, JsonModel::Str(f))]))]);
        assert(member_models(m@) =~= a + match dd.source {
            Some(s) => if s.line is Some || s.col is Some {
                seq![("region"@, region_json(s))]
            } else {
                Seq::empty()
            },
            None => Seq::empty(),
        });
    }
    json_object(m)
}

fn result_value(path: &str, d: &Diagnostic) -> (r: JsonValue)
    ensures
        r@ == result_json(path@, *d),
{
    let mut msg: Vec<(String, JsonValue)> = Vec::new();
    msg.push((owned("text"), json_string(d.message.as_str())));
    let message = json_object(msg);
    let mut loc: Vec<(String, JsonValue)> = Vec::new();
    loc.push((owned("physicalLocation"), physical_location_value(path, d)));
    let location = json_object(loc);
    let mut locs: Vec<JsonValue> = Vec::new();
    locs.push(location);
    let locations = json_array(locs);
    let mut m: Vec<(String, JsonValue)> = Vec::new();
    m.push((owned("ruleId"), json_string(d.code.as_str())));
    m.push((owned("level"), json_string(severity_str(d.severity))));
    m.push((owned("message"), message));
    m.push((owned("locations"), locations));
    proof {
        assert(member_models(msg@) =~= seq![("text"@, JsonModel::Str(d.message@))]);
        assert(member_models(loc@) =~= seq![("physicalLocation"@, physical_location_json(path@, *d))]);
        assert(json_models(locs@) =~= seq![JsonModel::Object(seq![("physicalLocation"@, physical_location_json(path@, *d))])]);
        assert(member_models(m@) =~= seq![
            ("ruleId"@, JsonModel::Str(d.code@)),
            ("level"@, JsonModel::Str(severity_word(d.severity))),
            ("message"@, JsonModel::Object(seq![("text"@, JsonModel::Str(d.message@))])),
            ("locations"@, JsonModel::Array(seq![JsonModel::Object(seq![("physicalLocation"@, physical_location_json(path@, *d))])])),
        ]);
    }
    json_object(m)
}

fn rule_value(id: &str, ev: Option<JsonValue>, Ghost(e): Ghost<Option<ProviderEvidence>>) -> (r: JsonValue)
    requires
        evidence_slot_ok(ev, e),
    ensures
        r@ == rule_json(id@, e),
{
    let mut m: Vec<(String, JsonValue)> = Vec::new();
    m.push((owned("id"), json_string(id)));
    m.push((owned("helpUri"), json_string(rule_url(id).as_str())));
    let ghost a = member_models(m@);
    match ev {
        Some(v) => {
            let mut p: Vec<(String, JsonValue)> = Vec::new();
            p.push((owned("providerEvidence"), v));
            let props = json_object(p);
            m.push((owned("properties"), props));
            proof {
                let pe = e.unwrap();
                assert(member_models(p@) =~= seq![("providerEvidence"@, evidence_json(pe))]);
            }
        },
        None => {},
    }
    proof {
        assert(a =~= seq![("id"@, JsonModel::Str(id@)), ("helpUri"@, JsonModel::Str(rule_link(id@)))]);
        assert(member_models(m@) =~= a + match e {
            Some(pe) => seq![("properties"@, JsonModel::Object(seq![("providerEvidence"@, evidence_json(pe))]))],
            None => Seq::empty(),
        });
    }
    json_object(m)
}

/// Emit diagnostics as SARIF v2.1.0 JSON. The rules are listed once per
/// code, in code order, each with the first provider evidence met for it.
pub fn emit_sarif_to_string(diagnostics: &[(String, Vec<Diagnostic>)]) -> (r: String)
    ensures
        r@ == json_pretty_text(sarif_document(diagnostics@, rule_codes(all_diagnostics(diagnostics@)))) + "\n"@,
{
    let mut results: Vec<JsonValue> = Vec::new();
    let mut codes: Vec<String> = Vec::new();
    let mut evs: Vec<Option<JsonValue>> = Vec::new();
    let mut g: usize = 0;
    assert(diagnostics@.take(0) =~= Seq::<(String, Vec<Diagnostic>)>::empty());
    assert(json_models(results@) =~= Seq::empty());
    proof {
        assert(code_views(codes@) =~= Seq::<Seq<char>>::empty());
        assert forall|c: Seq<char>| #[trigger] code_views(codes@).contains(c) <==> has_code(Seq::<Diagnostic>::empty(), c) by {}
    }
    while g < diagnostics.len()
        invariant
            g <= diagnostics.len(),
            json_models(results@) == results_json(diagnostics@.take(g as int)),
            table_ok(codes@, evs@, all_diagnostics(diagnostics@.take(g as int))),
        decreases diagnostics.len() - g,
    {
        assert(diagnostics@.take(g + 1).drop_last() =~= diagnostics@.take(g as int));
        let path = diagnostics[g].0.as_str();
        let ds = &diagnostics[g].1;
        let ghost start = json_models(results@);
        let ghost before = all_diagnostics(diagnostics@.take(g as int));
        let mut i: usize = 0;
        assert(ds@.take(0) =~= Seq::<Diagnostic>::empty());
        assert(start + Seq::empty() =~= start);
        assert(before + ds@.take(0) =~= before);
        while i < ds.len()
            invariant
                i <= ds.len(),
                json_models(results@) == start + group_results(path@, ds@.take(i as int)),
                table_ok(codes@, evs@, before + ds@.take(i as int)),
            decreases ds.len() - i,
        {
            assert(ds@.take(i + 1).drop_last() =~= ds@.take(i as int));
            assert(before + ds@.take(i + 1) =~= (before + ds@.take(i as int)).push(ds@[i as int]));
            note_rule(&mut codes, &mut evs, &ds[i], Ghost(before + ds@.take(i as int)));
            let v = result_value(path, &ds[i]);
            let ghost prev = results@;
            results.push(v);
            assert(json_models(results@) =~= json_models(prev).push(result_json(path@, ds@[i as int])));
            assert(json_models(results@) =~= start + group_results(path@, ds@.take(i + 1)));
            i = i + 1;
        }
        assert(ds@.take(ds.len() as int) =~= ds@);
        g = g + 1;
    }
    assert(diagnostics@.take(diagnostics.len() as int) =~= diagnostics@);
    let ghost all = all_diagnostics(diagnostics@);
    let ghost cv = code_views(codes@);
    let mut rules: Vec<JsonValue> = Vec::new();
    let mut k: usize = 0;
    while k < codes.len()
        invariant
            k <= codes.len(),
            codes.len() == evs.len(),
            cv == code_views(codes@),
            table_ok(codes@, evs@, all),
            json_models(rules@) =~= rules_json(cv, all).take(k as int),
        decreases codes.len() - k,
    {
        let ev = match &evs[k] {
            Some(v) => Some(crate::json::clone_json(v)),
            None => None,
        };
        let rv = rule_value(codes[k].as_str(), ev, Ghost(first_evidence(all, codes@[k as int]@)));
        let ghost prev = json_models(rules@);
        rules.push(rv);
        assert(json_models(rules@) =~= prev.push(rule_json(cv[k as int], first_evidence(all, cv[k as int]))));
        k = k + 1;
    }
    assert(json_models(rules@) =~= rules_json(cv, all));
    let mut driver: Vec<(String, JsonValue)> = Vec::new();
    driver.push((owned("name"), json_string("schemalint")));
    driver.push((owned("informationUri"), json_string(DOCS_BASE_URL)));
    driver.push((owned("rules"), json_array(rules)));
    let driver_v = json_object(driver);
    let mut tool: Vec<(String, JsonValue)> = Vec::new();
    tool.push((owned("driver"), driver_v));
    let tool_v = json_object(tool);
    let mut run: Vec<(String, JsonValue)> = Vec::new();
    run.push((owned("tool"), tool_v));
    run.push((owned("results"), json_array(results)));
    let run_v = json_object(run);
    let mut runs: Vec<JsonValue> = Vec::new();
    runs.push(run_v);
    let mut top: Vec<(String, JsonValue)> = Vec::new();
    top.push((owned("$schema"), json_string("https://raw.githubusercontent.com/oasis-tcs/sarif-spec/master/Schemata/sarif-schema-2.1.0.json")));
    top.push((owned("version"), json_string("2.1.0")));
    top.push((owned("runs"), json_array(runs)));
    let doc = json_object(top);
    proof {
        let drv = JsonModel::Object(seq![
            ("name"@, JsonModel::Str("schemalint"@)),
            ("informationUri"@, JsonModel::Str(DOCS_BASE_URL@)),
            ("rules"@, JsonModel::Array(rules_json(cv, all))),
        ]);
        assert(member_models(driver@) =~= seq![
            ("name"@, JsonModel::Str("schemalint"@)),
            ("informationUri"@, JsonModel::Str(DOCS_BASE_URL@)),
            ("rules"@, JsonModel::Array(rules_json(cv, all))),
        ]);
        assert(member_models(tool@) =~= seq![("driver"@, drv)]);
        let runm = JsonModel::Object(seq![
            ("tool"@, JsonModel::Object(seq![("driver"@, drv)])),
            ("results"@, JsonModel::Array(results_json(diagnostics@))),
        ]);
        assert(member_models(run@) =~= seq![
            ("tool"@, JsonModel::Object(seq![("driver"@, drv)])),
            ("results"@, JsonModel::Array(results_json(diagnostics@))),
        ]);
        assert(json_models(runs@) =~= seq![runm]);
        assert(member_models(top@) =~= seq![
            ("$schema"@, JsonModel::Str(sarif_schema_uri())),
            ("version"@, JsonModel::Str("2.1.0"@)),
            ("runs"@, JsonModel::Array(seq![runm])),
        ]);
        assert(doc@ == sarif_document(diagnostics@, cv));
        let rc = rule_codes(all);
        assert(strictly_sorted(rc) && forall|c: Seq<char>| #[trigger] rc.contains(c) <==> has_code(all, c));
        lemma_sorted_unique(cv, rc);
    }
    let mut text = pretty_json_text(&doc);
    text.append("\n");
    text
}

} // verus!
