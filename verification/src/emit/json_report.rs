//! The structured JSON report, and the JSON-RPC result of a check.
use vstd::prelude::*;

use crate::diagnostic::{Diagnostic, DiagnosticSeverity, SourceSpan};
use crate::docs_url::{rule_link, rule_url};
use crate::emit::gha::{severity_str, severity_word};
use crate::json::{
    json_array, json_models, json_object, json_pretty_text, json_string, json_uint, member_models,
    pretty_json_text, JsonModel, JsonValue, NumberModel,
};
use crate::profile::evidence::{EvidenceSource, ProviderEvidence};
use crate::report::{coverage_status, report_success, summary_text, CheckReport, CoverageCounts, ReportMessage};
use crate::text::{chars_of, concat3, owned, replace_char, replace_char_exec, string_from_chars};

verus! {

/// The version of schemalint that reports name.
pub const TOOL_VERSION: &'static str = "0.1.0";

/// A JSON number for a count.
pub open spec fn count_json(n: nat) -> JsonModel {
    JsonModel::Number(NumberModel::PosInt(n as u64))
}

/// An optional line or column: `null` when absent.
pub open spec fn opt_u32_json(o: Option<u32>) -> JsonModel {
    match o {
        Some(n) => JsonModel::Number(NumberModel::PosInt(n as u64)),
        None => JsonModel::Null,
    }
}

/// A source span, with the given file.
pub open spec fn span_json(file: Seq<char>, line: Option<u32>, col: Option<u32>) -> JsonModel {
    JsonModel::Object(seq![("file"@, JsonModel::Str(file)), ("line"@, opt_u32_json(line)), ("col"@, opt_u32_json(col))])
}

/// `s` with backslashes turned into slashes.
pub open spec fn forward_slashes(s: Seq<char>) -> Seq<char> {
    replace_char(s, '\\', "/"@)
}

pub open spec fn source_json(s: EvidenceSource) -> JsonModel {
    JsonModel::Object(seq![("title"@, JsonModel::Str(s.title@)), ("url"@, JsonModel::Str(s.url@))])
}

pub open spec fn sources_json(s: Seq<EvidenceSource>) -> Seq<JsonModel> {
    Seq::new(s.len(), |i: int| source_json(s[i]))
}

/// An optional text member: absent when `None`.
pub open spec fn opt_member(name: Seq<char>, o: Option<String>) -> Seq<(Seq<char>, JsonModel)> {
    match o {
        Some(v) => seq![(name, JsonModel::Str(v@))],
        None => Seq::empty(),
    }
}

/// Provider evidence in camel case; empty sources and absent texts are left out.
pub open spec fn evidence_json(e: ProviderEvidence) -> JsonModel {
    JsonModel::Object(
        seq![("status"@, JsonModel::Str(e.status.spec_name()))]
            + (if e.sources@.len() == 0 {
                Seq::empty()
            } else {
                seq![("sources"@, JsonModel::Array(sources_json(e.sources@)))]
            })
            + opt_member("basis"@, e.basis)
            + opt_member("verifiedAt"@, e.verified_at)
            + opt_member("verificationTarget"@, e.verification_target),
    )
}

/// One diagnostic of the schema at `path`. Its source is its own span, or
/// else the schema's path; files are written with forward slashes.
pub open spec fn diagnostic_json(path: Seq<char>, d: Diagnostic) -> JsonModel {
    JsonModel::Object(
        seq![
            ("code"@, JsonModel::Str(d.code@)),
            ("severity"@, JsonModel::Str(severity_word(d.severity))),
            ("message"@, JsonModel::Str(d.message@)),
            ("pointer"@, JsonModel::Str(d.pointer@)),
            ("source"@, match d.source {
                Some(s) => span_json(forward_slashes(s.file@), s.line, s.col),
                None => span_json(forward_slashes(path), None, None),
            }),
            ("profile"@, JsonModel::Str(d.profile@)),
        ] + opt_member("hint"@, d.hint) + seq![("seeUrl"@, JsonModel::Str(rule_link(d.code@)))]
            + match d.provider_evidence {
            Some(e) => seq![("providerEvidence"@, evidence_json(e))],
            None => Seq::empty(),
        },
    )
}

pub open spec fn group_json(path: Seq<char>, ds: Seq<Diagnostic>) -> Seq<JsonModel>
    decreases ds.len(),
{
    if ds.len() == 0 {
        Seq::empty()
    } else {
        group_json(path, ds.drop_last()).push(diagnostic_json(path, ds.last()))
    }
}

/// Every diagnostic, schema by schema.
pub open spec fn diagnostics_json(groups: Seq<(String, Vec<Diagnostic>)>) -> Seq<JsonModel>
    decreases groups.len(),
{
    if groups.len() == 0 {
        Seq::empty()
    } else {
        diagnostics_json(groups.drop_last()) + group_json(groups.last().0@, groups.last().1@)
    }
}

pub open spec fn message_json(m: ReportMessage) -> JsonModel {
    JsonModel::Object(seq![("target"@, JsonModel::Str(m.target@)), ("message"@, JsonModel::Str(m.message@))])
}

pub open spec fn messages_json(ms: Seq<ReportMessage>) -> Seq<JsonModel> {
    Seq::new(ms.len(), |i: int| message_json(ms[i]))
}

pub open spec fn coverage_json(c: CoverageCounts) -> JsonModel {
    JsonModel::Object(
        seq![
            ("status"@, JsonModel::Str(coverage_status(c).spec_name())),
            ("attempted"@, count_json(c.attempted as nat)),
            ("excluded"@, count_json(c.excluded as nat)),
            ("discovered"@, count_json(c.discovered as nat)),
            ("checked"@, count_json(c.checked as nat)),
            ("failed"@, count_json(c.failed as nat)),
        ],
    )
}

/// The report part: verdict, coverage, failures and warnings.
pub open spec fn report_part(success: bool, c: CoverageCounts, failures: Seq<ReportMessage>, warnings: Seq<ReportMessage>) -> JsonModel {
    JsonModel::Object(
        seq![
            ("success"@, JsonModel::Bool(success)),
            ("coverage"@, coverage_json(c)),
            ("failures"@, JsonModel::Array(messages_json(failures))),
            ("warnings"@, JsonModel::Array(messages_json(warnings))),
        ],
    )
}

/// The report part of a check report.
pub open spec fn report_json_of(r: CheckReport) -> JsonModel {
    report_part(report_success(r), r.coverage, r.failures@, r.warnings@)
}

pub open spec fn strings_json(s: Seq<String>) -> Seq<JsonModel> {
    Seq::new(s.len(), |i: int| JsonModel::Str(s[i]@))
}

/// The whole JSON document of a check.
pub open spec fn json_document(
    groups: Seq<(String, Vec<Diagnostic>)>,
    total_errors: nat,
    total_warnings: nat,
    profiles: Seq<String>,
    duration_ms: Option<u64>,
    c: CoverageCounts,
    failures: Seq<ReportMessage>,
    warnings: Seq<ReportMessage>,
) -> JsonModel {
    JsonModel::Object(
        seq![
            ("schema_version"@, JsonModel::Str("1.2"@)),
            ("tool"@, JsonModel::Object(seq![("name"@, JsonModel::Str("schemalint"@)), ("version"@, JsonModel::Str(TOOL_VERSION@))])),
            ("profiles"@, JsonModel::Array(strings_json(profiles))),
            ("summary"@, JsonModel::Object(
                seq![
                    ("total_issues"@, count_json(total_errors + total_warnings)),
                    ("errors"@, count_json(total_errors)),
                    ("warnings"@, count_json(total_warnings)),
                    ("schemas_checked"@, count_json(c.checked as nat)),
                ] + match duration_ms {
                    Some(d) => seq![("duration_ms"@, JsonModel::Number(NumberModel::PosInt(d)))],
                    None => Seq::empty(),
                },
            )),
            ("diagnostics"@, JsonModel::Array(diagnostics_json(groups))),
            ("report"@, report_part(coverage_status(c) == crate::report::CoverageStatus::Complete && total_errors == 0, c, failures, warnings)),
        ],
    )
}

// ---------------------------------------------------------------------------
// Building the values
// ---------------------------------------------------------------------------

fn count_value(n: usize) -> (r: JsonValue)
    ensures
        r@ == count_json(n as nat),
{
    json_uint(n as u64)
}

fn opt_u32_value(o: Option<u32>) -> (r: JsonValue)
    ensures
        r@ == opt_u32_json(o),
{
    match o {
        Some(n) => json_uint(n as u64),
        None => JsonValue::Null,
    }
}

fn forward_slashes_exec(s: &str) -> (r: String)
    ensures
        r@ == forward_slashes(s@),
{
    string_from_chars(&replace_char_exec(&chars_of(s), '\\', &chars_of("/")))
}

fn span_value(file: &str, line: Option<u32>, col: Option<u32>) -> (r: JsonValue)
    ensures
        r@ == span_json(file@, line, col),
{
    let mut m: Vec<(String, JsonValue)> = Vec::new();
    m.push((owned("file"), json_string(file)));
    m.push((owned("line"), opt_u32_value(line)));
    m.push((owned("col"), opt_u32_value(col)));
    let r = json_object(m);
    assert(member_models(m@) =~= seq![("file"@, JsonModel::Str(file@)), ("line"@, opt_u32_json(line)), ("col"@, opt_u32_json(col))]);
    r
}

fn push_opt_member(m: &mut Vec<(String, JsonValue)>, name: &str, o: &Option<String>)
    ensures
        member_models(final(m)@) == member_models(old(m)@) + opt_member(name@, *o),
{
    let ghost before = member_models(m@);
    match o {
        Some(v) => {
            m.push((owned(name), json_string(v.as_str())));
            assert(member_models(m@) =~= before + seq![(name@, JsonModel::Str(v@))]);
        },
        None => {
            assert(member_models(m@) =~= before + Seq::empty());
        },
    }
}

/// The JSON of provider evidence.
pub fn evidence_value(e: &ProviderEvidence) -> (r: JsonValue)
    ensures
        r@ == evidence_json(*e),
{
    let mut m: Vec<(String, JsonValue)> = Vec::new();
    m.push((owned("status"), json_string(e.status.as_str())));
    let ghost head = member_models(m@);
    assert(head =~= seq![("status"@, JsonModel::Str(e.status.spec_name()))]);
    if e.sources.len() > 0 {
        let mut items: Vec<JsonValue> = Vec::new();
        let mut i: usize = 0;
        while i < e.sources.len()
            invariant
                i <= e.sources.len(),
                json_models(items@) =~= sources_json(e.sources@).take(i as int),
            decreases e.sources.len() - i,
        {
            let s = &e.sources[i];
            let mut sm: Vec<(String, JsonValue)> = Vec::new();
            sm.push((owned("title"), json_string(s.title.as_str())));
            sm.push((owned("url"), json_string(s.url.as_str())));
            let v = json_object(sm);
            assert(member_models(sm@) =~= seq![("title"@, JsonModel::Str(s.title@)), ("url"@, JsonModel::Str(s.url@))]);
            let ghost before = json_models(items@);
            items.push(v);
            assert(json_models(items@) =~= before.push(source_json(*s)));
            i = i + 1;
        }
        assert(json_models(items@) =~= sources_json(e.sources@));
        let arr = json_array(items);
        m.push((owned("sources"), arr));
        assert(member_models(m@) =~= head + seq![("sources"@, JsonModel::Array(sources_json(e.sources@)))]);
    } else {
        assert(member_models(m@) =~= head + Seq::empty());
    }
    push_opt_member(&mut m, "basis", &e.basis);
    push_opt_member(&mut m, "verifiedAt", &e.verified_at);
    push_opt_member(&mut m, "verificationTarget", &e.verification_target);
    json_object(m)
}

/// The JSON of one diagnostic of the schema at `path`.
pub fn diagnostic_value(path: &str, d: &Diagnostic) -> (r: JsonValue)
    ensures
        r@ == diagnostic_json(path@, *d),
{
    let source = match &d.source {
        Some(s) => span_value(forward_slashes_exec(s.file.as_str()).as_str(), s.line, s.col),
        None => span_value(forward_slashes_exec(path).as_str(), None, None),
    };
    let mut m: Vec<(String, JsonValue)> = Vec::new();
    m.push((owned("code"), json_string(d.code.as_str())));
    m.push((owned("severity"), json_string(severity_str(d.severity))));
    m.push((owned("message"), json_string(d.message.as_str())));
    m.push((owned("pointer"), json_string(d.pointer.as_str())));
    m.push((owned("source"), source));
    m.push((owned("profile"), json_string(d.profile.as_str())));
    let ghost head = member_models(m@);
    push_opt_member(&mut m, "hint", &d.hint);
    m.push((owned("seeUrl"), json_string(rule_url(d.code.as_str()).as_str())));
    let ghost mid = member_models(m@);
    match &d.provider_evidence {
        Some(e) => {
            m.push((owned("providerEvidence"), evidence_value(e)));
        },
        None => {},
    }
    proof {
        let dd: Diagnostic = *d;
        let expected = seq![
            ("code"@, JsonModel::Str(d.code@)),
            ("severity"@, JsonModel::Str(severity_word(d.severity))),
            ("message"@, JsonModel::Str(d.message@)),
            ("pointer"@, JsonModel::Str(d.pointer@)),
            ("source"@, match dd.source {
                Some(s) => span_json(forward_slashes(s.file@), s.line, s.col),
                None => span_json(forward_slashes(path@), None, None),
            }),
            ("profile"@, JsonModel::Str(d.profile@)),
        ];
        assert(head =~= expected);
        assert(mid =~= expected + opt_member("hint"@, d.hint) + seq![("seeUrl"@, JsonModel::Str(rule_link(d.code@)))]);
        match dd.provider_evidence {
            Some(e) => {
                assert(member_models(m@) =~= mid + seq![("providerEvidence"@, evidence_json(e))]);
            },
            None => {
                assert(member_models(m@) =~= mid + Seq::empty());
            },
        }
    }
    json_object(m)
}

/// The JSON of every diagnostic, schema by schema.
pub fn diagnostics_values(groups: &[(String, Vec<Diagnostic>)]) -> (r: Vec<JsonValue>)
    ensures
        json_models(r@) == diagnostics_json(groups@),
{
    let mut out: Vec<JsonValue> = Vec::new();
    let mut g: usize = 0;
    assert(groups@.take(0) =~= Seq::<(String, Vec<Diagnostic>)>::empty());
    assert(json_models(out@) =~= Seq::empty());
    while g < groups.len()
        invariant
            g <= groups.len(),
            json_models(out@) == diagnostics_json(groups@.take(g as int)),
        decreases groups.len() - g,
    {
        assert(groups@.take(g + 1).drop_last() =~= groups@.take(g as int));
        let path = groups[g].0.as_str();
        let ds = &groups[g].1;
        let ghost start = json_models(out@);
        let mut i: usize = 0;
        assert(ds@.take(0) =~= Seq::<Diagnostic>::empty());
        assert(start + Seq::empty() =~= start);
        while i < ds.len()
            invariant
                i <= ds.len(),
                json_models(out@) == start + group_json(path@, ds@.take(i as int)),
            decreases ds.len() - i,
        {
            assert(ds@.take(i + 1).drop_last() =~= ds@.take(i as int));
            let v = diagnostic_value(path, &ds[i]);
            let ghost before = out@;
            out.push(v);
            assert(json_models(out@) =~= json_models(before).push(json_model_of(&v)));
            assert(json_models(out@) =~= start + group_json(path@, ds@.take(i + 1)));
            i = i + 1;
        }
        assert(ds@.take(ds.len() as int) =~= ds@);
        g = g + 1;
    }
    assert(groups@.take(groups.len() as int) =~= groups@);
    out
}

pub open spec fn json_model_of(v: &JsonValue) -> JsonModel {
    v@
}

fn messages_value(ms: &[ReportMessage]) -> (r: JsonValue)
    ensures
        r@ == JsonModel::Array(messages_json(ms@)),
{
    let mut items: Vec<JsonValue> = Vec::new();
    let mut i: usize = 0;
    while i < ms.len()
        invariant
            i <= ms.len(),
            json_models(items@) =~= messages_json(ms@).take(i as int),
        decreases ms.len() - i,
    {
        let mut m: Vec<(String, JsonValue)> = Vec::new();
        m.push((owned("target"), json_string(ms[i].target.as_str())));
        m.push((owned("message"), json_string(ms[i].message.as_str())));
        let v = json_object(m);
        assert(member_models(m@) =~= seq![("target"@, JsonModel::Str(ms[i as int].target@)), ("message"@, JsonModel::Str(ms[i as int].message@))]);
        let ghost before = json_models(items@);
        items.push(v);
        assert(json_models(items@) =~= before.push(message_json(ms@[i as int])));
        i = i + 1;
    }
    assert(json_models(items@) =~= messages_json(ms@));
    json_array(items)
}

fn coverage_value(c: CoverageCounts) -> (r: JsonValue)
    ensures
        r@ == coverage_json(c),
{
    let mut m: Vec<(String, JsonValue)> = Vec::new();
    m.push((owned("status"), json_string(c.status().as_str())));
    m.push((owned("attempted"), count_value(c.attempted)));
    m.push((owned("excluded"), count_value(c.excluded)));
    m.push((owned("discovered"), count_value(c.discovered)));
    m.push((owned("checked"), count_value(c.checked)));
    m.push((owned("failed"), count_value(c.failed)));
    let r = json_object(m);
    assert(member_models(m@) =~= seq![
        ("status"@, JsonModel::Str(coverage_status(c).spec_name())),
        ("attempted"@, count_json(c.attempted as nat)),
        ("excluded"@, count_json(c.excluded as nat)),
        ("discovered"@, count_json(c.discovered as nat)),
        ("checked"@, count_json(c.checked as nat)),
        ("failed"@, count_json(c.failed as nat)),
    ]);
    r
}

fn report_part_value(success: bool, c: CoverageCounts, failures: &[ReportMessage], warnings: &[ReportMessage]) -> (r: JsonValue)
    ensures
        r@ == report_part(success, c, failures@, warnings@),
{
    let mut m: Vec<(String, JsonValue)> = Vec::new();
    m.push((owned("success"), JsonValue::Bool(success)));
    m.push((owned("coverage"), coverage_value(c)));
    m.push((owned("failures"), messages_value(failures)));
    m.push((owned("warnings"), messages_value(warnings)));
    let r = json_object(m);
    assert(member_models(m@) =~= seq![
        ("success"@, JsonModel::Bool(success)),
        ("coverage"@, coverage_json(c)),
        ("failures"@, JsonModel::Array(messages_json(failures@))),
        ("warnings"@, JsonModel::Array(messages_json(warnings@))),
    ]);
    r
}

impl CheckReport {
    /// The report part of the JSON output: verdict, coverage, failures and
    /// warnings.
    pub fn report_json(&self) -> (r: JsonValue)
        ensures
            r@ == report_json_of(*self),
    {
        report_part_value(self.success(), self.coverage, self.failures.as_slice(), self.warnings.as_slice())
    }
}

/// `target: message` for each message.
pub open spec fn message_lines(ms: Seq<ReportMessage>) -> Seq<JsonModel> {
    Seq::new(ms.len(), |i: int| JsonModel::Str(ms[i].target@ + ": "@ + ms[i].message@))
}

/// The JSON-RPC result of a check whose rendered output is `output`.
pub open spec fn rpc_result_json(r: CheckReport, output: Seq<char>) -> JsonModel {
    JsonModel::Object(
        seq![
            ("success"@, JsonModel::Bool(report_success(r))),
            ("output"@, JsonModel::Str(output)),
            ("total_errors"@, count_json(r.total_errors as nat)),
            ("total_warnings"@, count_json(r.total_warnings as nat)),
            ("report"@, report_json_of(r)),
        ] + (if r.failures@.len() == 0 {
            Seq::empty()
        } else {
            seq![("discovery_errors"@, JsonModel::Array(message_lines(r.failures@)))]
        }) + (if r.warnings@.len() == 0 {
            Seq::empty()
        } else {
            seq![("discovery_warnings"@, JsonModel::Array(message_lines(r.warnings@)))]
        }) + (if report_success(r) {
            Seq::empty()
        } else {
            seq![("error"@, JsonModel::Str(summary_text(r)))]
        }),
    )
}

fn message_lines_value(ms: &[ReportMessage]) -> (r: JsonValue)
    ensures
        r@ == JsonModel::Array(message_lines(ms@)),
{
    let mut items: Vec<JsonValue> = Vec::new();
    let mut i: usize = 0;
    while i < ms.len()
        invariant
            i <= ms.len(),
            json_models(items@) =~= message_lines(ms@).take(i as int),
        decreases ms.len() - i,
    {
        let line = concat3(ms[i].target.as_str(), ": ", ms[i].message.as_str());
        let ghost before = json_models(items@);
        items.push(json_string(line.as_str()));
        assert(json_models(items@) =~= before.push(JsonModel::Str(ms@[i as int].target@ + ": "@ + ms@[i as int].message@)));
        i = i + 1;
    }
    assert(json_models(items@) =~= message_lines(ms@));
    json_array(items)
}

impl CheckReport {
    /// The JSON-RPC result of this check, carrying the rendered `output`.
    pub fn rpc_result(&self, output: String) -> (r: JsonValue)
        ensures
            r@ == rpc_result_json(*self, output@),
    {
        let success = self.success();
        let mut m: Vec<(String, JsonValue)> = Vec::new();
        m.push((owned("success"), JsonValue::Bool(success)));
        m.push((owned("output"), JsonValue::String(output)));
        m.push((owned("total_errors"), count_value(self.total_errors)));
        m.push((owned("total_warnings"), count_value(self.total_warnings)));
        m.push((owned("report"), self.report_json()));
        let ghost s0 = member_models(m@);
        assert(s0 =~= seq![
            ("success"@, JsonModel::Bool(report_success(*self))),
            ("output"@, JsonModel::Str(output@)),
            ("total_errors"@, count_json(self.total_errors as nat)),
            ("total_warnings"@, count_json(self.total_warnings as nat)),
            ("report"@, report_json_of(*self)),
        ]);
        if self.failures.len() > 0 {
            m.push((owned("discovery_errors"), message_lines_value(self.failures.as_slice())));
        }
        let ghost s1 = member_models(m@);
        assert(s1 =~= s0 + (if self.failures@.len() == 0 {
            Seq::empty()
        } else {
            seq![("discovery_errors"@, JsonModel::Array(message_lines(self.failures@)))]
        }));
        if self.warnings.len() > 0 {
            m.push((owned("discovery_warnings"), message_lines_value(self.warnings.as_slice())));
        }
        let ghost s2 = member_models(m@);
        assert(s2 =~= s1 + (if self.warnings@.len() == 0 {
            Seq::empty()
        } else {
            seq![("discovery_warnings"@, JsonModel::Array(message_lines(self.warnings@)))]
        }));
        if !success {
            m.push((owned("error"), json_string(self.failure_summary().as_str())));
        }
        assert(member_models(m@) =~= s2 + (if report_success(*self) {
            Seq::empty()
        } else {
            seq![("error"@, JsonModel::Str(summary_text(*self)))]
        }));
        json_object(m)
    }
}

fn strings_value(s: &[String]) -> (r: JsonValue)
    ensures
        r@ == JsonModel::Array(strings_json(s@)),
{
    let mut items: Vec<JsonValue> = Vec::new();
    let mut i: usize = 0;
    while i < s.len()
        invariant
            i <= s.len(),
            json_models(items@) =~= strings_json(s@).take(i as int),
        decreases s.len() - i,
    {
        let ghost before = json_models(items@);
        items.push(json_string(s[i].as_str()));
        assert(json_models(items@) =~= before.push(JsonModel::Str(s@[i as int]@)));
        i = i + 1;
    }
    assert(json_models(items@) =~= strings_json(s@));
    json_array(items)
}

/// The whole JSON document of a check, from its parts.
fn document_value(
    groups: &[(String, Vec<Diagnostic>)],
    total_errors: usize,
    total_warnings: usize,
    profiles: &[String],
    duration_ms: Option<u64>,
    c: CoverageCounts,
    failures: &[ReportMessage],
    warnings: &[ReportMessage],
) -> (r: JsonValue)
    requires
        total_errors + total_warnings <= usize::MAX,
    ensures
        r@ == json_document(groups@, total_errors as nat, total_warnings as nat, profiles@, duration_ms, c, failures@, warnings@),
{
    let mut tool: Vec<(String, JsonValue)> = Vec::new();
    tool.push((owned("name"), json_string("schemalint")));
    tool.push((owned("version"), json_string(TOOL_VERSION)));
    let tool_v = json_object(tool);
    assert(member_models(tool@) =~= seq![("name"@, JsonModel::Str("schemalint"@)), ("version"@, JsonModel::Str(TOOL_VERSION@))]);
    let mut summary: Vec<(String, JsonValue)> = Vec::new();
    summary.push((owned("total_issues"), count_value(total_errors + total_warnings)));
    summary.push((owned("errors"), count_value(total_errors)));
    summary.push((owned("warnings"), count_value(total_warnings)));
    summary.push((owned("schemas_checked"), count_value(c.checked)));
    let ghost head = member_models(summary@);
    assert(head =~= seq![
        ("total_issues"@, count_json(total_errors as nat + total_warnings as nat)),
        ("errors"@, count_json(total_errors as nat)),
        ("warnings"@, count_json(total_warnings as nat)),
        ("schemas_checked"@, count_json(c.checked as nat)),
    ]);
    match duration_ms {
        Some(d) => {
            summary.push((owned("duration_ms"), json_uint(d)));
            assert(member_models(summary@) =~= head + seq![("duration_ms"@, JsonModel::Number(NumberModel::PosInt(d)))]);
        },
        None => {
            assert(member_models(summary@) =~= head + Seq::empty());
        },
    }
    let summary_v = json_object(summary);
    let success = c.is_complete() && total_errors == 0;
    let mut m: Vec<(String, JsonValue)> = Vec::new();
    m.push((owned("schema_version"), json_string("1.2")));
    m.push((owned("tool"), tool_v));
    m.push((owned("profiles"), strings_value(profiles)));
    m.push((owned("summary"), summary_v));
    m.push((owned("diagnostics"), json_array(diagnostics_values(groups))));
    m.push((owned("report"), report_part_value(success, c, failures, warnings)));
    let r = json_object(m);
    assert(member_models(m@) =~= match json_document(groups@, total_errors as nat, total_warnings as nat, profiles@, duration_ms, c, failures@, warnings@) {
        JsonModel::Object(ms) => ms,
        _ => Seq::empty(),
    });
    r
}

/// The JSON output of a check report, pretty-printed, with a final newline.
pub fn emit_report_to_string(report: &CheckReport) -> (r: String)
    requires
        report.total_errors + report.total_warnings <= usize::MAX,
    ensures
        r@ == json_pretty_text(json_document(
            report.diagnostics@,
            report.total_errors as nat,
            report.total_warnings as nat,
            report.profiles@,
            report.duration_ms,
            report.coverage,
            report.failures@,
            report.warnings@,
        )) + "\n"@,
{
    let doc = document_value(
        report.diagnostics.as_slice(),
        report.total_errors,
        report.total_warnings,
        report.profiles.as_slice(),
        report.duration_ms,
        report.coverage,
        report.failures.as_slice(),
        report.warnings.as_slice(),
    );
    let mut text = pretty_json_text(&doc);
    text.append("\n");
    text
}

/// Emit diagnostics as structured JSON: every schema counts as attempted,
/// discovered and checked.
pub fn emit_json_to_string(
    diagnostics: &[(String, Vec<Diagnostic>)],
    total_errors: usize,
    total_warnings: usize,
    profile_names: &[String],
    duration_ms: Option<u64>,
) -> (r: String)
    requires
        total_errors + total_warnings <= usize::MAX,
    ensures
        r@ == json_pretty_text(json_document(
            diagnostics@,
            total_errors as nat,
            total_warnings as nat,
            profile_names@,
            duration_ms,
            CoverageCounts {
                attempted: diagnostics@.len() as usize,
                excluded: 0,
                discovered: diagnostics@.len() as usize,
                checked: diagnostics@.len() as usize,
                failed: 0,
            },
            Seq::empty(),
            Seq::empty(),
        )) + "\n"@,
{
    let checked = diagnostics.len();
    let coverage = CoverageCounts { attempted: checked, excluded: 0, discovered: checked, checked, failed: 0 };
    let none: Vec<ReportMessage> = Vec::new();
    let doc = document_value(
        diagnostics,
        total_errors,
        total_warnings,
        profile_names,
        duration_ms,
        coverage,
        none.as_slice(),
        none.as_slice(),
    );
    let mut text = pretty_json_text(&doc);
    text.append("\n");
    text
}

} // verus!
