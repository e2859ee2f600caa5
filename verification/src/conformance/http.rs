//! The decisions of the conformance mock server's HTTP handling: reading
//! the request line and headers, routing `POST /evaluate/{provider}`,
//! limiting the body, and the answer to a schema.
use vstd::prelude::*;

use crate::conformance::evaluate::{evaluate, truth_outcome, TruthError, TruthOutcome, TruthResult};
use crate::conformance::truth::ProviderTruth;
use crate::json::{
    compact_json_text, json_array, json_compact_text, json_document, json_object, json_string,
    member_models, parse_json_text, JsonModel, JsonValue,
};
use crate::text::{chars_of, concat3, decimal, decimal_text, owned, str_eq, string_from_chars};

verus! {

/// Is `c` white space, as `char::is_whitespace` says: the Unicode
/// `White_Space` characters.
pub open spec fn is_space(c: char) -> bool {
    let u = c as u32;
    ||| 0x09 <= u <= 0x0D
    ||| u == 0x20
    ||| u == 0x85
    ||| u == 0xA0
    ||| u == 0x1680
    ||| 0x2000 <= u <= 0x200A
    ||| u == 0x2028
    ||| u == 0x2029
    ||| u == 0x202F
    ||| u == 0x205F
    ||| u == 0x3000
}

/// Is `c` white space?
pub fn is_space_char(c: char) -> (r: bool)
    ensures
        r == is_space(c),
{
    let u = c as u32;
    (0x09 <= u && u <= 0x0D) || u == 0x20 || u == 0x85 || u == 0xA0 || u == 0x1680 || (0x2000 <= u && u <= 0x200A)
        || u == 0x2028 || u == 0x2029 || u == 0x202F || u == 0x205F || u == 0x3000
}

/// The words of `s`: its maximal runs of characters other than white space,
/// as `str::split_whitespace` yields them.
pub open spec fn words(s: Seq<char>) -> Seq<Seq<char>>
    decreases s.len(),
{
    if s.len() == 0 {
        Seq::empty()
    } else {
        let w = words(s.drop_last());
        let c = s.last();
        if is_space(c) {
            w
        } else if s.len() >= 2 && !is_space(s[s.len() - 2]) && w.len() > 0 {
            w.update(w.len() - 1, w.last().push(c))
        } else {
            w.push(seq![c])
        }
    }
}

/// The words of `s`.
pub fn split_words(s: &str) -> (r: Vec<String>)
    ensures
        r@.map_values(|w: String| w@) == words(s@),
{
    let chars = chars_of(s);
    let mut out: Vec<String> = Vec::new();
    let mut current: Vec<char> = Vec::new();
    let mut i: usize = 0;
    while i < chars.len()
        invariant
            i <= chars.len(),
            chars@ == s@,
            current@.len() == 0 ==> out@.map_values(|w: String| w@) == words(chars@.take(i as int)),
            current@.len() > 0 ==> out@.map_values(|w: String| w@).push(current@) == words(chars@.take(i as int)),
            current@.len() > 0 ==> i > 0 && !is_space(chars@[i - 1]),
            current@.len() == 0 ==> (i == 0 || is_space(chars@[i - 1])),
        decreases chars.len() - i,
    {
        let c = chars[i];
        let ghost prefix = chars@.take(i as int);
        assert(chars@.take(i + 1).drop_last() =~= prefix);
        if is_space_char(c) {
            if current.len() > 0 {
                let w = string_from_chars(&current);
                out.push(w);
                current = Vec::new();
            }
        } else {
            let ghost before = current@;
            current.push(c);
            proof {
                if before.len() > 0 {
                    assert(chars@.take(i + 1)[i - 1] == chars@[i - 1]);
                    let ws = words(prefix);
                    assert(ws == out@.map_values(|w: String| w@).push(before));
                    assert(out@.map_values(|w: String| w@).push(current@) =~= ws.update(ws.len() - 1, ws.last().push(c)));
                } else {
                    if i > 0 {
                        assert(chars@.take(i + 1)[i - 1] == chars@[i - 1]);
                    }
                    assert(current@ =~= seq![c]);
                    assert(chars@.take(i + 1).last() == c);
                    assert(out@.map_values(|w: String| w@).push(current@) =~= words(prefix).push(seq![c]));
                }
            }
        }
        i = i + 1;
    }
    if current.len() > 0 {
        let w = string_from_chars(&current);
        out.push(w);
    }
    assert(chars@.take(chars.len() as int) =~= chars@);
    out
}

/// `s` without leading white space.
pub open spec fn trim_start(s: Seq<char>) -> Seq<char>
    decreases s.len(),
{
    if s.len() > 0 && is_space(s[0]) {
        trim_start(s.drop_first())
    } else {
        s
    }
}

/// `s` without trailing white space.
pub open spec fn trim_end(s: Seq<char>) -> Seq<char>
    decreases s.len(),
{
    if s.len() > 0 && is_space(s.last()) {
        trim_end(s.drop_last())
    } else {
        s
    }
}

/// `s` without leading or trailing white space, as `str::trim` gives it.
pub open spec fn trimmed(s: Seq<char>) -> Seq<char> {
    trim_end(trim_start(s))
}

/// `s` without leading or trailing white space.
pub fn trim_chars(s: &Vec<char>) -> (r: Vec<char>)
    ensures
        r@ == trimmed(s@),
{
    let mut a: usize = 0;
    assert(s@.skip(0) =~= s@);
    while a < s.len() && is_space_char(s[a])
        invariant
            a <= s.len(),
            trim_start(s@) == trim_start(s@.skip(a as int)),
        decreases s.len() - a,
    {
        assert(s@.skip(a as int).drop_first() =~= s@.skip(a + 1));
        assert(s@.skip(a as int)[0] == s@[a as int]);
        a = a + 1;
    }
    let mut b: usize = s.len();
    let ghost t = s@.skip(a as int);
    assert(trim_start(t) == t) by {
        if t.len() > 0 {
            assert(t[0] == s@[a as int]);
        }
    }
    while b > a && is_space_char(s[b - 1])
        invariant
            a <= b <= s.len(),
            t == s@.skip(a as int),
            trim_end(t) == trim_end(s@.subrange(a as int, b as int)),
        decreases b - a,
    {
        assert(s@.subrange(a as int, b as int).drop_last() =~= s@.subrange(a as int, b - 1));
        b = b - 1;
    }
    assert(s@.subrange(a as int, s.len() as int) =~= t);
    let r = crate::text::sub_chars(s, a, b);
    assert(trim_end(r@) == r@) by {
        if r@.len() > 0 {
            assert(r@.last() == s@[b - 1]);
        }
    }
    r
}

/// The decimal value of a run of ASCII digits.
pub open spec fn digits_value(d: Seq<char>) -> nat
    decreases d.len(),
{
    if d.len() == 0 {
        0
    } else {
        10 * digits_value(d.drop_last()) + ((d.last() as u32) - ('0' as u32)) as nat
    }
}

/// Is every character of `d` an ASCII digit?
pub open spec fn all_digits(d: Seq<char>) -> bool {
    forall|i: int| 0 <= i < d.len() ==> '0' <= #[trigger] d[i] <= '9'
}

/// What `str::parse::<usize>` gives: an optional `+`, then at least one
/// ASCII digit, with a value that fits.
pub open spec fn parsed_usize(s: Seq<char>) -> Option<usize> {
    let d = if s.len() > 0 && s[0] == '+' {
        s.drop_first()
    } else {
        s
    };
    if d.len() > 0 && all_digits(d) && digits_value(d) <= usize::MAX {
        Some(digits_value(d) as usize)
    } else {
        None
    }
}

proof fn lemma_digits_value_grows(d: Seq<char>, k: int)
    requires
        0 <= k <= d.len(),
        all_digits(d),
    ensures
        digits_value(d.take(k)) <= digits_value(d),
    decreases d.len() - k,
{
    if k < d.len() {
        lemma_digits_value_grows(d, k + 1);
        assert(d.take(k + 1).drop_last() =~= d.take(k));
    } else {
        assert(d.take(k) =~= d);
    }
}

/// Parse a decimal `usize`.
pub fn parse_usize(s: &Vec<char>) -> (r: Option<usize>)
    ensures
        r == parsed_usize(s@),
{
    let start: usize = if s.len() > 0 && s[0] == '+' {
        1
    } else {
        0
    };
    let ghost d = if s@.len() > 0 && s@[0] == '+' {
        s@.drop_first()
    } else {
        s@
    };
    assert(d =~= s@.skip(start as int));
    if start >= s.len() {
        return None;
    }
    let mut value: usize = 0;
    let mut i: usize = start;
    while i < s.len()
        invariant
            start <= i <= s.len(),
            d == s@.skip(start as int),
            d == (if s@.len() > 0 && s@[0] == '+' {
                s@.drop_first()
            } else {
                s@
            }),
            forall|j: int| start <= j < i ==> '0' <= #[trigger] s@[j] <= '9',
            value as nat == digits_value(s@.subrange(start as int, i as int)),
        decreases s.len() - i,
    {
        let c = s[i];
        if c < '0' || c > '9' {
            assert(!all_digits(d)) by {
                assert(d[i - start] == c);
            }
            return None;
        }
        let digit = (c as u32 - '0' as u32) as usize;
        assert(s@.subrange(start as int, i + 1).drop_last() =~= s@.subrange(start as int, i as int));
        if value > (usize::MAX - digit) / 10 {
            proof {
                let p = s@.subrange(start as int, i + 1);
                assert(digits_value(p) == 10 * value + digit);
                assert(digits_value(p) > usize::MAX) by (nonlinear_arith)
                    requires
                        value > (usize::MAX - digit) / 10,
                        digit <= 9,
                        digits_value(p) == 10 * value + digit,
                ;
                if all_digits(d) {
                    assert(d.take(i + 1 - start) =~= p);
                    lemma_digits_value_grows(d, i + 1 - start);
                }
            }
            return None;
        }
        assert(10 * value + digit <= usize::MAX) by (nonlinear_arith)
            requires
                value <= (usize::MAX - digit) / 10,
                digit <= 9,
        ;
        value = value * 10 + digit;
        i = i + 1;
    }
    assert(s@.subrange(start as int, s.len() as int) =~= d);
    assert(all_digits(d)) by {
        assert forall|j: int| 0 <= j < d.len() implies '0' <= #[trigger] d[j] <= '9' by {
            assert(d[j] == s@[j + start]);
        }
    }
    Some(value)
}

/// What `str::to_lowercase` makes of a text.
pub uninterp spec fn lowercase_text(s: Seq<char>) -> Seq<char>;

/// `str::to_lowercase`: the contract names the result `lowercase_text` of
/// the argument and claims nothing more about Unicode case mapping.
#[verifier::external_body]
fn to_lowercase(s: &str) -> (r: String)
    ensures
        r@ == lowercase_text(s@),
{
    s.to_lowercase()
}

/// What `String::from_utf8_lossy` makes of bytes.
pub uninterp spec fn lossy_text(bytes: Seq<u8>) -> Seq<char>;

/// `String::from_utf8_lossy`: valid UTF-8 reads as the text it encodes;
/// the replacement of invalid sequences is left unstated, only named.
#[verifier::external_body]
fn utf8_lossy(bytes: &[u8]) -> (r: String)
    ensures
        r@ == lossy_text(bytes@),
        vstd::utf8::valid_utf8(bytes@) ==> r@ == vstd::utf8::decode_utf8(bytes@),
{
    String::from_utf8_lossy(bytes).into_owned()
}

/// A status code and JSON body to answer with.
#[derive(Debug, Clone, PartialEq, Eq)]
pub struct HttpReply {
    pub status: u16,
    pub body: String,
}

/// The plain content of a reply.
pub open spec fn reply_view(r: HttpReply) -> (u16, Seq<char>) {
    (r.status, r.body@)
}

fn reply(status: u16, body: &str) -> (r: HttpReply)
    ensures
        r.status == status,
        r.body@ == body@,
{
    HttpReply { status, body: owned(body) }
}

/// The method and path of a request line.
#[derive(Debug, Clone, PartialEq, Eq)]
pub struct RequestTarget {
    pub method: String,
    pub path: String,
}

/// What a request line gives: method and path when it has exactly three
/// words, the `400` answer otherwise.
pub open spec fn request_line_outcome(line: Seq<char>) -> Result<(Seq<char>, Seq<char>), (u16, Seq<char>)> {
    let w = words(line);
    if w.len() == 3 {
        Ok((w[0], w[1]))
    } else {
        Err((400, "{\"error\":\"bad request\"}"@))
    }
}

/// Read a request line.
pub fn parse_request_line(line: &str) -> (r: Result<RequestTarget, HttpReply>)
    ensures
        match (r, request_line_outcome(line@)) {
            (Ok(t), Ok(m)) => t.method@ == m.0 && t.path@ == m.1,
            (Err(e), Err(m)) => reply_view(e) == m,
            _ => false,
        },
{
    let parts = split_words(line);
    if parts.len() != 3 {
        return Err(reply(400, "{\"error\":\"bad request\"}"));
    }
    proof {
        assert(parts@.map_values(|w: String| w@)[0] == parts@[0]@);
        assert(parts@.map_values(|w: String| w@)[1] == parts@[1]@);
    }
    Ok(RequestTarget { method: owned(parts[0].as_str()), path: owned(parts[1].as_str()) })
}

/// What one header line does: `None` ends the headers (a blank line);
/// otherwise the Content-Length known after it. A `Content-Length` header
/// whose value is no decimal count forgets an earlier one.
pub open spec fn header_outcome(content_length: Option<usize>, line: Seq<char>) -> Option<Option<usize>> {
    let t = trimmed(line);
    if t.len() == 0 {
        None
    } else if t.contains(':') {
        let k = crate::text::first_pos(t, ':');
        let key = trimmed(t.take(k));
        let value = trimmed(t.skip(k + 1));
        if lowercase_text(key) == "content-length"@ {
            Some(parsed_usize(value))
        } else {
            Some(content_length)
        }
    } else {
        Some(content_length)
    }
}

proof fn lemma_first_pos_found(s: Seq<char>, c: char)
    requires
        s.contains(c),
    ensures
        crate::text::first_pos(s, c) < s.len(),
    decreases s.len(),
{
    if s[0] != c {
        let j = choose|j: int| 0 <= j < s.len() && s[j] == c;
        assert(s.drop_first()[j - 1] == c);
        lemma_first_pos_found(s.drop_first(), c);
    }
}

/// Read one header line.
pub fn header_line(content_length: Option<usize>, line: &str) -> (r: Option<Option<usize>>)
    ensures
        r == header_outcome(content_length, line@),
{
    let chars = chars_of(line);
    let t = trim_chars(&chars);
    if t.len() == 0 {
        return None;
    }
    let n = t.len();
    if !crate::text::has_char_in(&t, 0, n, ':') {
        assert(t@.subrange(0, n as int) =~= t@);
        return Some(content_length);
    }
    assert(t@.subrange(0, n as int) =~= t@);
    let k = crate::text::first_pos_from(&t, 0, ':');
    assert(t@.skip(0) =~= t@);
    proof {
        lemma_first_pos_found(t@, ':');
    }
    let key_chars = crate::text::sub_chars(&t, 0, k);
    let value_chars = crate::text::sub_chars(&t, k + 1, n);
    assert(key_chars@ =~= t@.take(k as int));
    assert(value_chars@ =~= t@.skip(k + 1));
    let key = trim_chars(&key_chars);
    let value = trim_chars(&value_chars);
    let key_text = string_from_chars(&key);
    let lower = to_lowercase(key_text.as_str());
    if str_eq(lower.as_str(), "content-length") {
        Some(parse_usize(&value))
    } else {
        Some(content_length)
    }
}

/// The route prefix of evaluation requests.
pub open spec fn evaluate_prefix() -> Seq<char> {
    "/evaluate/"@
}

/// The index of the truth for `provider`: the first entry with that key.
pub open spec fn truth_index(keys: Seq<Seq<char>>, provider: Seq<char>) -> Option<int> {
    if exists|i: int| 0 <= i < keys.len() && keys[i] == provider {
        Some(choose|i: int| 0 <= i < keys.len() && keys[i] == provider && forall|j: int| 0 <= j < i ==> keys[j] != provider)
    } else {
        None
    }
}

/// Where a request goes once its headers are read: the truth to evaluate
/// against and the body length to read, or the answer to give at once.
/// Only `POST /evaluate/{provider}` for a known provider is served; the
/// body needs a Content-Length no greater than `max_body_size`.
pub open spec fn route_outcome(
    method: Seq<char>,
    path: Seq<char>,
    keys: Seq<Seq<char>>,
    content_length: Option<usize>,
    max_body_size: usize,
) -> Result<(int, usize), (u16, Seq<char>)> {
    if method != "POST"@ || !crate::text::has_prefix(path, evaluate_prefix()) {
        Err((404, "{\"error\":\"not found\"}"@))
    } else {
        match truth_index(keys, path.skip(10)) {
            None => Err((404, "{\"error\":\"unknown provider\"}"@)),
            Some(i) => match content_length {
                None => Err((400, "{\"error\":\"missing Content-Length\"}"@)),
                Some(len) => if len > max_body_size {
                    Err((413, "{\"error\":\"request body too large\"}"@))
                } else {
                    Ok((i, len))
                },
            },
        }
    }
}

/// The keys of a truth table.
pub open spec fn truth_keys(truths: Seq<(String, ProviderTruth)>) -> Seq<Seq<char>> {
    truths.map_values(|e: (String, ProviderTruth)| e.0@)
}

/// Route a request whose headers are read.
pub fn route_request(
    target: &RequestTarget,
    truths: &Vec<(String, ProviderTruth)>,
    content_length: Option<usize>,
    max_body_size: usize,
) -> (r: Result<(usize, usize), HttpReply>)
    ensures
        match (r, route_outcome(target.method@, target.path@, truth_keys(truths@), content_length, max_body_size)) {
            (Ok(a), Ok(b)) => a.0 == b.0 && a.1 == b.1,
            (Err(e), Err(m)) => reply_view(e) == m,
            _ => false,
        },
{
    let path = chars_of(target.path.as_str());
    let prefix = chars_of("/evaluate/");
    proof {
        reveal_strlit("/evaluate/");
    }
    if !str_eq(target.method.as_str(), "POST") || !crate::text::starts_with_chars(&path, &prefix) {
        return Err(reply(404, "{\"error\":\"not found\"}"));
    }
    let provider_chars = crate::text::sub_chars(&path, 10, path.len());
    assert(provider_chars@ =~= target.path@.skip(10));
    let provider = string_from_chars(&provider_chars);
    let ghost keys = truth_keys(truths@);
    let mut i: usize = 0;
    while i < truths.len()
        invariant
            i <= truths.len(),
            keys == truth_keys(truths@),
            forall|j: int| 0 <= j < i ==> keys[j] != provider@,
            provider@ == target.path@.skip(10),
            target.method@ == "POST"@,
            crate::text::has_prefix(target.path@, evaluate_prefix()),
        decreases truths.len() - i,
    {
        if str_eq(truths[i].0.as_str(), provider.as_str()) {
            proof {
                assert(keys[i as int] == provider@);
                let c = choose|c: int| 0 <= c < keys.len() && keys[c] == provider@ && forall|j: int| 0 <= j < c ==> keys[j] != provider@;
                if c < i {
                } else if c > i {
                    assert(keys[i as int] != provider@);
                }
                assert(truth_index(keys, provider@) == Some(i as int));
            }
            return match content_length {
                None => Err(reply(400, "{\"error\":\"missing Content-Length\"}")),
                Some(len) => if len > max_body_size {
                    Err(reply(413, "{\"error\":\"request body too large\"}"))
                } else {
                    Ok((i, len))
                },
            };
        }
        i = i + 1;
    }
    Err(reply(404, "{\"error\":\"unknown provider\"}"))
}

/// The answer when the body could not be read.
pub fn body_read_failure() -> (r: HttpReply)
    ensures
        reply_view(r) == (400u16, "{\"error\":\"failed to read body\"}"@),
{
    reply(400, "{\"error\":\"failed to read body\"}")
}

/// The JSON of one evaluation error.
pub open spec fn error_json(e: (Seq<char>, Seq<char>, Seq<char>)) -> JsonModel {
    JsonModel::Object(seq![("message"@, JsonModel::Str(e.0)), ("pointer"@, JsonModel::Str(e.1)), ("keyword"@, JsonModel::Str(e.2))])
}

/// The JSON answer to an evaluation.
pub open spec fn outcome_json(o: TruthOutcome) -> JsonModel {
    match o {
        TruthOutcome::Accepted(t) => JsonModel::Object(seq![("status"@, JsonModel::Str("accepted"@)), ("transformed"@, t)]),
        TruthOutcome::Rejected(errors) => JsonModel::Object(
            seq![
                ("status"@, JsonModel::Str("rejected"@)),
                ("errors"@, JsonModel::Array(errors.map_values(|e: (Seq<char>, Seq<char>, Seq<char>)| error_json(e)))),
            ],
        ),
    }
}

/// The answer to a body: `400` when it is not JSON, otherwise `200` with
/// the evaluation of the schema against the truth.
pub open spec fn evaluation_outcome(truth: ProviderTruth, body: Seq<u8>) -> (u16, Seq<char>) {
    match json_document(lossy_text(body)) {
        Err(e) => (400, "{\"error\":\"invalid JSON: "@ + e + "\"}"@),
        Ok(schema) => (200, json_compact_text(outcome_json(truth_outcome(truth.keywords@, schema)))),
    }
}

fn error_value(e: &TruthError) -> (r: JsonValue)
    ensures
        r@ == error_json(e@),
{
    let mut m: Vec<(String, JsonValue)> = Vec::new();
    m.push((owned("message"), json_string(e.message.as_str())));
    m.push((owned("pointer"), json_string(e.pointer.as_str())));
    m.push((owned("keyword"), json_string(e.keyword.as_str())));
    let r = json_object(m);
    assert(member_models(m@) =~= seq![("message"@, JsonModel::Str(e.message@)), ("pointer"@, JsonModel::Str(e.pointer@)), ("keyword"@, JsonModel::Str(e.keyword@))]);
    r
}

fn outcome_value(result: &TruthResult) -> (r: JsonValue)
    ensures
        r@ == outcome_json(result@),
{
    match result {
        TruthResult::Accepted { transformed } => {
            let mut m: Vec<(String, JsonValue)> = Vec::new();
            m.push((owned("status"), json_string("accepted")));
            m.push((owned("transformed"), crate::json::clone_json(transformed)));
            let r = json_object(m);
            assert(member_models(m@) =~= seq![("status"@, JsonModel::Str("accepted"@)), ("transformed"@, transformed@)]);
            r
        },
        TruthResult::Rejected { errors } => {
            let mut items: Vec<JsonValue> = Vec::new();
            let ghost views = crate::conformance::evaluate::error_views(errors@);
            let mut i: usize = 0;
            while i < errors.len()
                invariant
                    i <= errors.len(),
                    views == crate::conformance::evaluate::error_views(errors@),
                    crate::json::json_models(items@) == views.take(i as int).map_values(
                        |e: (Seq<char>, Seq<char>, Seq<char>)| error_json(e),
                    ),
                decreases errors.len() - i,
            {
                let v = error_value(&errors[i]);
                let ghost before = items@;
                items.push(v);
                proof {
                    assert(views.take(i + 1) =~= views.take(i as int).push(views[i as int]));
                    assert(crate::json::json_models(items@) =~= crate::json::json_models(before).push(v@));
                    assert(views.take(i + 1).map_values(|e: (Seq<char>, Seq<char>, Seq<char>)| error_json(e)) =~= views.take(
                        i as int,
                    ).map_values(|e: (Seq<char>, Seq<char>, Seq<char>)| error_json(e)).push(error_json(views[i as int])));
                }
                i = i + 1;
            }
            assert(views.take(errors.len() as int) =~= views);
            let arr = json_array(items);
            let mut m: Vec<(String, JsonValue)> = Vec::new();
            m.push((owned("status"), json_string("rejected")));
            m.push((owned("errors"), arr));
            let r = json_object(m);
            assert(member_models(m@) =~= seq![
                ("status"@, JsonModel::Str("rejected"@)),
                ("errors"@, JsonModel::Array(views.map_values(|e: (Seq<char>, Seq<char>, Seq<char>)| error_json(e)))),
            ]);
            r
        },
    }
}

/// Answer a request body: parse the schema, evaluate it against the truth.
pub fn evaluation_reply(truth: &ProviderTruth, body: &[u8]) -> (r: HttpReply)
    ensures
        reply_view(r) == evaluation_outcome(*truth, body@),
{
    let text = utf8_lossy(body);
    match parse_json_text(text.as_str()) {
        Err(e) => {
            let msg = concat3("{\"error\":\"invalid JSON: ", e.as_str(), "\"}");
            HttpReply { status: 400, body: msg }
        },
        Ok(schema) => {
            let result = evaluate(truth, &schema);
            let v = outcome_value(&result);
            HttpReply { status: 200, body: compact_json_text(&v) }
        },
    }
}

/// The reason phrase of a status code.
pub open spec fn status_text(status: u16) -> Seq<char> {
    if status == 200 {
        "OK"@
    } else if status == 400 {
        "Bad Request"@
    } else if status == 404 {
        "Not Found"@
    } else if status == 413 {
        "Payload Too Large"@
    } else {
        "Internal Server Error"@
    }
}

/// The full HTTP/1.1 response for a reply, its Content-Length counting the
/// body's UTF-8 bytes.
pub open spec fn response_chars(status: u16, body: Seq<char>) -> Seq<char> {
    "HTTP/1.1 "@ + decimal(status as nat) + " "@ + status_text(status) + "\r\nContent-Type: application/json\r\nContent-Length: "@
        + decimal((vstd::utf8::encode_utf8(body).len() as usize) as nat) + "\r\nConnection: close\r\n\r\n"@ + body
}

/// The HTTP/1.1 response text for a reply.
pub fn response_text(r: &HttpReply) -> (t: String)
    ensures
        t@ == response_chars(r.status, r.body@),
{
    let text: &str = if r.status == 200 {
        "OK"
    } else if r.status == 400 {
        "Bad Request"
    } else if r.status == 404 {
        "Not Found"
    } else if r.status == 413 {
        "Payload Too Large"
    } else {
        "Internal Server Error"
    };
    let code = decimal_text(r.status as usize);
    let length = decimal_text(r.body.as_str().len());
    let a = concat3("HTTP/1.1 ", code.as_str(), " ");
    let b = concat3(a.as_str(), text, "\r\nContent-Type: application/json\r\nContent-Length: ");
    let c = concat3(b.as_str(), length.as_str(), "\r\nConnection: close\r\n\r\n");
    let t = concat3(c.as_str(), r.body.as_str(), "");
    proof {
        reveal_strlit("");
    }
    assert(t@ =~= response_chars(r.status, r.body@));
    t
}

} // verus!
