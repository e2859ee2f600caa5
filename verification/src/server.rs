//! The line-delimited JSON-RPC 2.0 server: reading a request line, and the
//! parameters and limits of its methods.
use vstd::prelude::*;

use crate::args::OutputFormat;
use crate::json::{
    clone_json, json_array, json_get, json_models, json_object, json_string, member_models, object_get,
    parse_json_text, json_document, JsonModel, JsonNumber, JsonValue, NumberModel,
};
use crate::json::{compact_json_text, json_compact_text};
use crate::text::{concat2, concat3, decimal, decimal_text, owned, str_eq};

verus! {

/// The largest request line the server reads, in bytes.
pub const MAX_PAYLOAD_BYTES: usize = 10_000_000;

/// The deepest nesting a checked schema may have.
pub const MAX_SCHEMA_DEPTH: usize = 1_000;

/// The most values a checked schema may hold.
pub const MAX_SCHEMA_NODES: usize = 200_000;

/// The largest serialized size of a checked schema, in bytes.
pub const MAX_SCHEMA_BYTES: usize = 5 * 1024 * 1024;

/// The member `key` of a JSON value, when it is an object holding one.
pub open spec fn member_of(v: JsonModel, key: Seq<char>) -> Option<JsonModel> {
    match v {
        JsonModel::Object(ms) => json_get(ms, key),
        _ => None,
    }
}

/// Look up member `key` of a JSON value.
pub fn get_member<'a>(v: &'a JsonValue, key: &str) -> (r: Option<&'a JsonValue>)
    ensures
        match r {
            Some(x) => member_of(v@, key@) == Some(x@),
            None => member_of(v@, key@) is None,
        },
{
    match v {
        JsonValue::Object(ms) => {
            proof {
                crate::json::lemma_object_model(*ms);
            }
            object_get(ms, key)
        },
        _ => None,
    }
}

/// A JSON number for a (possibly negative) code.
pub open spec fn code_json(code: i64) -> JsonModel {
    if code >= 0 {
        JsonModel::Number(NumberModel::PosInt(code as u64))
    } else {
        JsonModel::Number(NumberModel::NegInt(code))
    }
}

fn code_value(code: i64) -> (r: JsonValue)
    ensures
        r@ == code_json(code),
{
    if code >= 0 {
        JsonValue::Number(JsonNumber::PosInt(code as u64))
    } else {
        JsonValue::Number(JsonNumber::NegInt(code))
    }
}

/// A JSON-RPC result response.
pub open spec fn rpc_result_json(id: JsonModel, result: JsonModel) -> JsonModel {
    JsonModel::Object(seq![("jsonrpc"@, JsonModel::Str("2.0"@)), ("result"@, result), ("id"@, id)])
}

/// A JSON-RPC error response.
pub open spec fn rpc_error_json(id: JsonModel, code: i64, message: Seq<char>) -> JsonModel {
    JsonModel::Object(
        seq![
            ("jsonrpc"@, JsonModel::Str("2.0"@)),
            ("error"@, JsonModel::Object(seq![("code"@, code_json(code)), ("message"@, JsonModel::Str(message))])),
            ("id"@, id),
        ],
    )
}

pub fn rpc_result(id: JsonValue, result: JsonValue) -> (r: JsonValue)
    ensures
        r@ == rpc_result_json(id@, result@),
{
    let mut m: Vec<(String, JsonValue)> = Vec::new();
    m.push((owned("jsonrpc"), json_string("2.0")));
    m.push((owned("result"), result));
    m.push((owned("id"), id));
    let r = json_object(m);
    assert(member_models(m@) =~= seq![("jsonrpc"@, JsonModel::Str("2.0"@)), ("result"@, result@), ("id"@, id@)]);
    r
}

pub fn rpc_error(id: JsonValue, code: i64, message: &str) -> (r: JsonValue)
    ensures
        r@ == rpc_error_json(id@, code, message@),
{
    let mut e: Vec<(String, JsonValue)> = Vec::new();
    e.push((owned("code"), code_value(code)));
    e.push((owned("message"), json_string(message)));
    let err = json_object(e);
    let mut m: Vec<(String, JsonValue)> = Vec::new();
    m.push((owned("jsonrpc"), json_string("2.0")));
    m.push((owned("error"), err));
    m.push((owned("id"), id));
    let r = json_object(m);
    assert(member_models(e@) =~= seq![("code"@, code_json(code)), ("message"@, JsonModel::Str(message@))]);
    assert(member_models(m@) =~= seq![
        ("jsonrpc"@, JsonModel::Str("2.0"@)),
        ("error"@, JsonModel::Object(seq![("code"@, code_json(code)), ("message"@, JsonModel::Str(message@))])),
        ("id"@, id@),
    ]);
    r
}

/// The methods the server handles by running a check.
#[derive(Debug, Clone, Copy, PartialEq, Eq, Structural)]
pub enum Method {
    Check,
    CheckNode,
    CheckPython,
}

/// What to do with a request line: answer it at once, or run a method and
/// answer with its result under the request's id.
#[derive(Debug)]
pub enum Dispatch {
    Respond(JsonValue),
    Handle { id: JsonValue, method: Method, params: JsonValue },
}

/// The content of a `Dispatch`.
pub ghost enum DispatchModel {
    Respond(JsonModel),
    Handle(JsonModel, Method, JsonModel),
}

impl View for Dispatch {
    type V = DispatchModel;

    open spec fn view(&self) -> DispatchModel {
        match self {
            Dispatch::Respond(v) => DispatchModel::Respond(v@),
            Dispatch::Handle { id, method, params } => DispatchModel::Handle(id@, *method, params@),
        }
    }
}

/// The method name of a request: its `method` text, or empty.
pub open spec fn method_name(request: JsonModel) -> Seq<char> {
    match member_of(request, "method"@) {
        Some(JsonModel::Str(m)) => m,
        _ => Seq::empty(),
    }
}

/// What a well-formed request line asks for.
pub open spec fn dispatch_request(request: JsonModel) -> DispatchModel {
    let id = match member_of(request, "id"@) {
        Some(v) => v,
        None => JsonModel::Null,
    };
    if member_of(request, "jsonrpc"@) != Some(JsonModel::Str("2.0"@)) {
        DispatchModel::Respond(rpc_error_json(id, -32600i64, "Invalid JSON-RPC request: missing or incorrect jsonrpc field"@))
    } else {
        let params = match member_of(request, "params"@) {
            Some(p) => p,
            None => JsonModel::Object(Seq::empty()),
        };
        let m = method_name(request);
        if m == "check"@ {
            DispatchModel::Handle(id, Method::Check, params)
        } else if m == "checkNode"@ {
            DispatchModel::Handle(id, Method::CheckNode, params)
        } else if m == "checkPython"@ {
            DispatchModel::Handle(id, Method::CheckPython, params)
        } else if m == "shutdown"@ {
            DispatchModel::Respond(rpc_result_json(id, JsonModel::Null))
        } else if m.len() == 0 {
            DispatchModel::Respond(rpc_error_json(id, -32600i64, "Invalid JSON-RPC request: missing method"@))
        } else {
            DispatchModel::Respond(rpc_error_json(id, -32601i64, "Method not found: "@ + m))
        }
    }
}

/// What a request line asks for: oversized lines and unparsable JSON are
/// answered with an error at once.
pub open spec fn dispatch_outcome(line: &str) -> DispatchModel {
    if line.len() > MAX_PAYLOAD_BYTES {
        DispatchModel::Respond(rpc_error_json(JsonModel::Null, -32600i64, "Request payload exceeds 10 MB limit"@))
    } else {
        match json_document(line@) {
            Err(e) => DispatchModel::Respond(rpc_error_json(JsonModel::Null, -32700i64, "Parse error: "@ + e)),
            Ok(request) => dispatch_request(request),
        }
    }
}

/// What a parsed request asks for.
pub fn dispatch_request_value(request: &JsonValue) -> (r: Dispatch)
    ensures
        r@ == dispatch_request(request@),
{
    let id = match get_member(request, "id") {
        Some(v) => clone_json(v),
        None => JsonValue::Null,
    };
    let version_ok = match get_member(request, "jsonrpc") {
        Some(JsonValue::String(s)) => str_eq(s.as_str(), "2.0"),
        _ => false,
    };
    assert(version_ok == (member_of(request@, "jsonrpc"@) == Some(JsonModel::Str("2.0"@))));
    if !version_ok {
        return Dispatch::Respond(rpc_error(id, -32600i64, "Invalid JSON-RPC request: missing or incorrect jsonrpc field"));
    }
    let params = match get_member(request, "params") {
        Some(p) => clone_json(p),
        None => json_object(Vec::new()),
    };
    proof {
        assert(member_models(Seq::<(String, JsonValue)>::empty()) =~= Seq::empty());
    }
    let method: &str = match get_member(request, "method") {
        Some(JsonValue::String(m)) => m.as_str(),
        _ => "",
    };
    proof {
        reveal_strlit("");
    }
    assert(method@ == method_name(request@));
    if str_eq(method, "check") {
        Dispatch::Handle { id, method: Method::Check, params }
    } else if str_eq(method, "checkNode") {
        Dispatch::Handle { id, method: Method::CheckNode, params }
    } else if str_eq(method, "checkPython") {
        Dispatch::Handle { id, method: Method::CheckPython, params }
    } else if str_eq(method, "shutdown") {
        Dispatch::Respond(rpc_result(id, JsonValue::Null))
    } else if method.unicode_len() == 0 {
        Dispatch::Respond(rpc_error(id, -32600i64, "Invalid JSON-RPC request: missing method"))
    } else {
        Dispatch::Respond(rpc_error(id, -32601i64, concat2("Method not found: ", method).as_str()))
    }
}

/// Read one request line.
pub fn dispatch_line(line: &str) -> (r: Dispatch)
    ensures
        r@ == dispatch_outcome(line),
{
    if line.len() > MAX_PAYLOAD_BYTES {
        return Dispatch::Respond(rpc_error(JsonValue::Null, -32600i64, "Request payload exceeds 10 MB limit"));
    }
    match parse_json_text(line) {
        Ok(request) => dispatch_request_value(&request),
        Err(e) => {
            let message = concat2("Parse error: ", e.as_str());
            Dispatch::Respond(rpc_error(JsonValue::Null, -32700i64, message.as_str()))
        },
    }
}


/// A method's failure answer: `{"success": false, "error": message}`.
pub open spec fn failure_json(message: Seq<char>) -> JsonModel {
    JsonModel::Object(seq![("success"@, JsonModel::Bool(false)), ("error"@, JsonModel::Str(message))])
}

/// A method's failure answer carrying `message`.
pub fn failure(message: &str) -> (r: JsonValue)
    ensures
        r@ == failure_json(message@),
{
    let mut m: Vec<(String, JsonValue)> = Vec::new();
    m.push((owned("success"), JsonValue::Bool(false)));
    m.push((owned("error"), json_string(message)));
    let r = json_object(m);
    assert(member_models(m@) =~= seq![("success"@, JsonModel::Bool(false)), ("error"@, JsonModel::Str(message@))]);
    r
}

/// The format named by a request's `format` parameter; `json` when it is
/// absent or not text.
pub open spec fn format_param(params: JsonModel) -> Seq<char> {
    match member_of(params, "format"@) {
        Some(JsonModel::Str(f)) => f,
        _ => "json"@,
    }
}

/// The output format a request asks for, or the failure answer for an
/// unknown format name.
pub open spec fn format_outcome(params: JsonModel) -> Result<OutputFormat, JsonModel> {
    let n = format_param(params);
    if n == "human"@ {
        Ok(OutputFormat::Human)
    } else if n == "json"@ {
        Ok(OutputFormat::Json)
    } else if n == "sarif"@ {
        Ok(OutputFormat::Sarif)
    } else if n == "gha"@ {
        Ok(OutputFormat::Gha)
    } else if n == "junit"@ {
        Ok(OutputFormat::Junit)
    } else {
        Err(failure_json("Unknown format '"@ + n + "'; expected one of: human, json, sarif, gha, junit"@))
    }
}

/// Read the `format` parameter of a request.
pub fn output_format(params: &JsonValue) -> (r: Result<OutputFormat, JsonValue>)
    ensures
        match (r, format_outcome(params@)) {
            (Ok(f), Ok(g)) => f == g,
            (Err(e), Err(m)) => e@ == m,
            _ => false,
        },
{
    let name: &str = match get_member(params, "format") {
        Some(JsonValue::String(f)) => f.as_str(),
        _ => "json",
    };
    assert(name@ == format_param(params@));
    if str_eq(name, "human") {
        Ok(OutputFormat::Human)
    } else if str_eq(name, "json") {
        Ok(OutputFormat::Json)
    } else if str_eq(name, "sarif") {
        Ok(OutputFormat::Sarif)
    } else if str_eq(name, "gha") {
        Ok(OutputFormat::Gha)
    } else if str_eq(name, "junit") {
        Ok(OutputFormat::Junit)
    } else {
        let message = concat3("Unknown format '", name, "'; expected one of: human, json, sarif, gha, junit");
        Err(failure(message.as_str()))
    }
}

/// The texts among a sequence of JSON values, in order.
pub open spec fn text_items(items: Seq<JsonModel>) -> Seq<Seq<char>>
    decreases items.len(),
{
    if items.len() == 0 {
        Seq::empty()
    } else {
        let front = text_items(items.drop_last());
        match items.last() {
            JsonModel::Str(t) => front.push(t),
            _ => front,
        }
    }
}

/// Are all of these values texts?
pub open spec fn all_text(items: Seq<JsonModel>) -> bool {
    forall|i: int| 0 <= i < items.len() ==> (#[trigger] items[i]) is Str
}

/// The texts among `items`.
pub fn texts_of(items: &Vec<JsonValue>) -> (r: Vec<String>)
    ensures
        r@.map_values(|s: String| s@) == text_items(json_models(items@)),
{
    let mut r: Vec<String> = Vec::new();
    let mut i: usize = 0;
    while i < items.len()
        invariant
            i <= items.len(),
            r@.map_values(|s: String| s@) == text_items(json_models(items@).take(i as int)),
        decreases items.len() - i,
    {
        let ghost before = r@;
        assert(json_models(items@).take(i + 1).drop_last() =~= json_models(items@).take(i as int));
        match &items[i] {
            JsonValue::String(t) => {
                r.push(owned(t.as_str()));
                assert(r@.map_values(|s: String| s@) =~= before.map_values(|s: String| s@).push(t@));
            },
            _ => {},
        }
        i = i + 1;
    }
    assert(json_models(items@).take(items.len() as int) =~= json_models(items@));
    r
}

/// Do all of `items` hold text?
pub fn all_text_exec(items: &Vec<JsonValue>) -> (r: bool)
    ensures
        r == all_text(json_models(items@)),
{
    let mut i: usize = 0;
    while i < items.len()
        invariant
            i <= items.len(),
            forall|j: int| 0 <= j < i ==> (#[trigger] json_models(items@)[j]) is Str,
        decreases items.len() - i,
    {
        match &items[i] {
            JsonValue::String(_) => {},
            _ => {
                assert(!(json_models(items@)[i as int] is Str));
                return false;
            },
        }
        i = i + 1;
    }
    true
}

/// The texts in the array parameter `key`; empty when it is absent or not
/// an array.
pub open spec fn string_array_param(params: JsonModel, key: Seq<char>) -> Seq<Seq<char>> {
    match member_of(params, key) {
        Some(JsonModel::Array(items)) => text_items(items),
        _ => Seq::empty(),
    }
}

/// Read the array parameter `key` of a request, keeping its texts.
pub fn string_array(params: &JsonValue, key: &str) -> (r: Vec<String>)
    ensures
        r@.map_values(|s: String| s@) == string_array_param(params@, key@),
{
    match get_member(params, key) {
        Some(JsonValue::Array(items)) => {
            proof {
                crate::json::lemma_array_model(*items);
            }
            texts_of(items)
        },
        _ => {
            let r: Vec<String> = Vec::new();
            assert(r@.map_values(|s: String| s@) =~= Seq::<Seq<char>>::empty());
            r
        },
    }
}

/// The parameter `key` read as an array of texts: the failure answer when
/// it is missing (`missing_ok` false), not an array, or holds a non-text.
pub open spec fn string_array_outcome(params: JsonModel, key: Seq<char>, missing_ok: bool) -> Result<Seq<Seq<char>>, JsonModel> {
    match member_of(params, key) {
        None => if missing_ok {
            Ok(Seq::empty())
        } else {
            Err(failure_json("Missing '"@ + key + "' parameter (expected string array)"@))
        },
        Some(JsonModel::Array(items)) => if all_text(items) {
            Ok(text_items(items))
        } else {
            Err(failure_json("Invalid '"@ + key + "' parameter (expected string array)"@))
        },
        Some(_) => Err(failure_json("Invalid '"@ + key + "' parameter (expected string array)"@)),
    }
}

fn string_array_checked(params: &JsonValue, key: &str, missing_ok: bool) -> (r: Result<Vec<String>, JsonValue>)
    ensures
        match (r, string_array_outcome(params@, key@, missing_ok)) {
            (Ok(v), Ok(t)) => v@.map_values(|s: String| s@) == t,
            (Err(e), Err(m)) => e@ == m,
            _ => false,
        },
{
    match get_member(params, key) {
        None => {
            if missing_ok {
                let r: Vec<String> = Vec::new();
                assert(r@.map_values(|s: String| s@) =~= Seq::<Seq<char>>::empty());
                Ok(r)
            } else {
                Err(failure(concat3("Missing '", key, "' parameter (expected string array)").as_str()))
            }
        },
        Some(JsonValue::Array(items)) => {
            proof {
                crate::json::lemma_array_model(*items);
            }
            if all_text_exec(items) {
                Ok(texts_of(items))
            } else {
                Err(failure(concat3("Invalid '", key, "' parameter (expected string array)").as_str()))
            }
        },
        Some(_) => Err(failure(concat3("Invalid '", key, "' parameter (expected string array)").as_str())),
    }
}

/// Read the required string-array parameter `key`.
pub fn required_string_array(params: &JsonValue, key: &str) -> (r: Result<Vec<String>, JsonValue>)
    ensures
        match (r, string_array_outcome(params@, key@, false)) {
            (Ok(v), Ok(t)) => v@.map_values(|s: String| s@) == t,
            (Err(e), Err(m)) => e@ == m,
            _ => false,
        },
{
    string_array_checked(params, key, false)
}

/// Read the optional string-array parameter `key`; absent means empty.
pub fn optional_string_array(params: &JsonValue, key: &str) -> (r: Result<Vec<String>, JsonValue>)
    ensures
        match (r, string_array_outcome(params@, key@, true)) {
            (Ok(v), Ok(t)) => v@.map_values(|s: String| s@) == t,
            (Err(e), Err(m)) => e@ == m,
            _ => false,
        },
{
    string_array_checked(params, key, true)
}


/// Walks a value under the complexity limits: each value visited costs one
/// of `remaining`, and no value may sit deeper than `MAX_SCHEMA_DEPTH`.
/// The result is what is left of `remaining`, or `None` once a limit is
/// crossed.
pub open spec fn bounds(v: JsonModel, remaining: nat, depth: nat) -> Option<nat>
    decreases v, 0nat,
{
    if depth > MAX_SCHEMA_DEPTH || remaining == 0 {
        None
    } else {
        match v {
            JsonModel::Array(items) => bounds_items(items, (remaining - 1) as nat, depth + 1),
            JsonModel::Object(ms) => bounds_members(ms, (remaining - 1) as nat, depth + 1),
            _ => Some((remaining - 1) as nat),
        }
    }
}

/// The walk over array items, first to last.
pub open spec fn bounds_items(items: Seq<JsonModel>, remaining: nat, depth: nat) -> Option<nat>
    decreases items, 1nat,
{
    if items.len() == 0 {
        Some(remaining)
    } else {
        match bounds_items(items.drop_last(), remaining, depth) {
            None => None,
            Some(r) => bounds(items.last(), r, depth),
        }
    }
}

/// The walk over the values of object members, first to last.
pub open spec fn bounds_members(ms: Seq<(Seq<char>, JsonModel)>, remaining: nat, depth: nat) -> Option<nat>
    decreases ms, 1nat,
{
    if ms.len() == 0 {
        Some(remaining)
    } else {
        match bounds_members(ms.drop_last(), remaining, depth) {
            None => None,
            Some(r) => bounds(ms.last().1, r, depth),
        }
    }
}

/// Walk `value` at `depth` under the complexity limits, spending one of
/// `remaining` per value; false once a limit is crossed.
pub fn within_complexity_bounds(value: &JsonValue, remaining: &mut usize, depth: usize) -> (ok: bool)
    ensures
        ok == bounds(value@, *old(remaining) as nat, depth as nat) is Some,
        ok ==> bounds(value@, *old(remaining) as nat, depth as nat) == Some(*final(remaining) as nat),
    decreases value,
{
    if depth > MAX_SCHEMA_DEPTH || *remaining == 0 {
        return false;
    }
    *remaining = *remaining - 1;
    match value {
        JsonValue::Array(items) => {
            proof {
                crate::json::lemma_array_model(*items);
            }
            items_within_bounds(items, remaining, depth + 1)
        },
        JsonValue::Object(members) => {
            proof {
                crate::json::lemma_object_model(*members);
            }
            members_within_bounds(members, remaining, depth + 1)
        },
        _ => true,
    }
}

fn items_within_bounds(items: &Vec<JsonValue>, remaining: &mut usize, depth: usize) -> (ok: bool)
    ensures
        ok == bounds_items(json_models(items@), *old(remaining) as nat, depth as nat) is Some,
        ok ==> bounds_items(json_models(items@), *old(remaining) as nat, depth as nat) == Some(*final(remaining) as nat),
    decreases items,
{
    let ghost start = *remaining as nat;
    let mut i: usize = 0;
    while i < items.len()
        invariant
            i <= items.len(),
            bounds_items(json_models(items@).take(i as int), start, depth as nat) == Some(*remaining as nat),
            start == *old(remaining) as nat,
        decreases items.len() - i,
    {
        proof {
            assert(decreases_to!(items => items@[i as int]));
            assert(json_models(items@).take(i + 1).drop_last() =~= json_models(items@).take(i as int));
        }
        let ghost before = *remaining as nat;
        let ok = within_complexity_bounds(&items[i], remaining, depth);
        if !ok {
            proof {
                assert(bounds_items(json_models(items@).take(i as int), start, depth as nat) == Some(before));
                assert(bounds_items(json_models(items@).take(i + 1), start, depth as nat) is None);
                lemma_items_prefix_fails(json_models(items@), (i + 1) as int, start, depth as nat);
            }
            return false;
        }
        i = i + 1;
    }
    assert(json_models(items@).take(items.len() as int) =~= json_models(items@));
    true
}

fn members_within_bounds(members: &Vec<(String, JsonValue)>, remaining: &mut usize, depth: usize) -> (ok: bool)
    ensures
        ok == bounds_members(member_models(members@), *old(remaining) as nat, depth as nat) is Some,
        ok ==> bounds_members(member_models(members@), *old(remaining) as nat, depth as nat) == Some(*final(remaining) as nat),
    decreases members,
{
    let ghost start = *remaining as nat;
    let mut i: usize = 0;
    while i < members.len()
        invariant
            i <= members.len(),
            bounds_members(member_models(members@).take(i as int), start, depth as nat) == Some(*remaining as nat),
            start == *old(remaining) as nat,
        decreases members.len() - i,
    {
        proof {
            assert(decreases_to!(members => members@[i as int]));
            assert(decreases_to!(members@[i as int] => members@[i as int].1));
            assert(member_models(members@).take(i + 1).drop_last() =~= member_models(members@).take(i as int));
        }
        let ghost before = *remaining as nat;
        let ok = within_complexity_bounds(&members[i].1, remaining, depth);
        if !ok {
            proof {
                assert(bounds_members(member_models(members@).take(i as int), start, depth as nat) == Some(before));
                assert(bounds_members(member_models(members@).take(i + 1), start, depth as nat) is None);
                lemma_members_prefix_fails(member_models(members@), (i + 1) as int, start, depth as nat);
            }
            return false;
        }
        i = i + 1;
    }
    assert(member_models(members@).take(members.len() as int) =~= member_models(members@));
    true
}

/// Once a prefix of the items crosses a limit, so do all the items.
proof fn lemma_items_prefix_fails(items: Seq<JsonModel>, k: int, remaining: nat, depth: nat)
    requires
        0 <= k <= items.len(),
        bounds_items(items.take(k), remaining, depth) is None,
    ensures
        bounds_items(items, remaining, depth) is None,
    decreases items.len() - k,
{
    if k < items.len() {
        assert(items.take(k + 1).drop_last() =~= items.take(k));
        lemma_items_prefix_fails(items, k + 1, remaining, depth);
    } else {
        assert(items.take(k) =~= items);
    }
}

/// Once a prefix of the members crosses a limit, so do all the members.
proof fn lemma_members_prefix_fails(ms: Seq<(Seq<char>, JsonModel)>, k: int, remaining: nat, depth: nat)
    requires
        0 <= k <= ms.len(),
        bounds_members(ms.take(k), remaining, depth) is None,
    ensures
        bounds_members(ms, remaining, depth) is None,
    decreases ms.len() - k,
{
    if k < ms.len() {
        assert(ms.take(k + 1).drop_last() =~= ms.take(k));
        lemma_members_prefix_fails(ms, k + 1, remaining, depth);
    } else {
        assert(ms.take(k) =~= ms);
    }
}


/// What a `check` request carries: the schema, the profile IDs it names,
/// and the output format.
#[derive(Debug)]
pub struct CheckRequest {
    pub schema: JsonValue,
    pub profile_ids: Vec<String>,
    pub format: OutputFormat,
}

/// The reading of a `check` request's parameters, or its failure answer.
pub open spec fn check_request_outcome(params: JsonModel) -> Result<(JsonModel, Seq<Seq<char>>, OutputFormat), JsonModel> {
    match member_of(params, "schema"@) {
        None => Err(failure_json("Missing 'schema' parameter"@)),
        Some(schema) => match member_of(params, "profiles"@) {
            Some(JsonModel::Array(items)) => match format_outcome(params) {
                Ok(f) => Ok((schema, text_items(items), f)),
                Err(e) => Err(e),
            },
            _ => Err(failure_json("Missing 'profiles' parameter"@)),
        },
    }
}

/// Read the parameters of a `check` request. Profile entries that are not
/// text are skipped.
pub fn check_request(params: &JsonValue) -> (r: Result<CheckRequest, JsonValue>)
    ensures
        match (r, check_request_outcome(params@)) {
            (Ok(c), Ok(t)) => c.schema@ == t.0 && c.profile_ids@.map_values(|s: String| s@) == t.1 && c.format == t.2,
            (Err(e), Err(m)) => e@ == m,
            _ => false,
        },
{
    let schema = match get_member(params, "schema") {
        Some(s) => clone_json(s),
        None => return Err(failure("Missing 'schema' parameter")),
    };
    let profile_ids = match get_member(params, "profiles") {
        Some(JsonValue::Array(items)) => {
            proof {
                crate::json::lemma_array_model(*items);
            }
            texts_of(items)
        },
        _ => return Err(failure("Missing 'profiles' parameter")),
    };
    let format = match output_format(params) {
        Ok(f) => f,
        Err(e) => return Err(e),
    };
    Ok(CheckRequest { schema, profile_ids, format })
}

/// The byte length of the serialized form of a schema.
pub open spec fn serialized_len(schema: JsonModel) -> usize {
    vstd::utf8::encode_utf8(json_compact_text(schema)).len() as usize
}

/// The failure answer for a schema over the size or complexity limits.
pub open spec fn limit_outcome(schema: JsonModel) -> Option<JsonModel> {
    let n = serialized_len(schema);
    if n > MAX_SCHEMA_BYTES {
        Some(failure_json("Schema serialized size ("@ + decimal(n as nat) + " bytes) exceeds the 5242880 byte limit"@))
    } else if bounds(schema, MAX_SCHEMA_NODES as nat, 0) is None {
        Some(failure_json("Schema exceeds complexity limits (max depth 1000, max nodes 200000); rejected to prevent resource exhaustion"@))
    } else {
        None
    }
}

/// Hold a schema to the size and complexity limits of the server.
pub fn schema_limit_error(schema: &JsonValue) -> (r: Option<JsonValue>)
    ensures
        match (r, limit_outcome(schema@)) {
            (Some(e), Some(m)) => e@ == m,
            (None, None) => true,
            _ => false,
        },
{
    let text = compact_json_text(schema);
    let n = text.as_str().len();
    if n > MAX_SCHEMA_BYTES {
        let digits = decimal_text(n);
        let head = concat3("Schema serialized size (", digits.as_str(), " bytes) exceeds the 5242880 byte limit");
        return Some(failure(head.as_str()));
    }
    let mut remaining: usize = MAX_SCHEMA_NODES;
    if !within_complexity_bounds(schema, &mut remaining, 0) {
        return Some(failure("Schema exceeds complexity limits (max depth 1000, max nodes 200000); rejected to prevent resource exhaustion"));
    }
    None
}

/// What a `checkNode` or `checkPython` request carries.
#[derive(Debug)]
pub struct PreparedRequest {
    pub targets: Vec<String>,
    pub exclusions: Vec<String>,
    pub continue_on_error: bool,
    pub format: OutputFormat,
    pub profile_ids: Option<Vec<String>>,
}

/// The plain content of a prepared request: targets, exclusions, whether to
/// go on past discovery errors, format, and profile IDs when given.
pub type PreparedModel = (Seq<Seq<char>>, Seq<Seq<char>>, bool, OutputFormat, Option<Seq<Seq<char>>>);

/// The `profiles` of a discovery request: `None` when absent and allowed.
pub open spec fn profiles_outcome(params: JsonModel, profiles_required: bool) -> Result<Option<Seq<Seq<char>>>, JsonModel> {
    if member_of(params, "profiles"@) is Some {
        match string_array_outcome(params, "profiles"@, false) {
            Err(e) => Err(e),
            Ok(ids) => if ids.len() == 0 {
                Err(failure_json("Empty 'profiles' array; at least one profile is required"@))
            } else {
                Ok(Some(ids))
            },
        }
    } else if profiles_required {
        Err(failure_json("Missing 'profiles' parameter (expected string array)"@))
    } else {
        Ok(None)
    }
}

/// The `continue_on_discovery_error` flag: false when absent.
pub open spec fn continue_outcome(params: JsonModel) -> Result<bool, JsonModel> {
    match member_of(params, "continue_on_discovery_error"@) {
        None => Ok(false),
        Some(JsonModel::Bool(b)) => Ok(b),
        Some(_) => Err(failure_json("Invalid 'continue_on_discovery_error' parameter (expected boolean)"@)),
    }
}

/// The reading of a discovery request's parameters, or its failure answer.
pub open spec fn prepare_outcome(params: JsonModel, target_key: Seq<char>, target_description: Seq<char>, profiles_required: bool) -> Result<PreparedModel, JsonModel> {
    match string_array_outcome(params, target_key, false) {
        Err(e) => Err(e),
        Ok(targets) => if targets.len() == 0 {
            Err(failure_json("Empty '"@ + target_key + "' array; at least one entry from "@ + target_description + " is required"@))
        } else {
            match profiles_outcome(params, profiles_required) {
                Err(e) => Err(e),
                Ok(ids) => match format_outcome(params) {
                    Err(e) => Err(e),
                    Ok(format) => match string_array_outcome(params, "exclude"@, true) {
                        Err(e) => Err(e),
                        Ok(exclusions) => match continue_outcome(params) {
                            Err(e) => Err(e),
                            Ok(c) => Ok((targets, exclusions, c, format, ids)),
                        },
                    },
                },
            }
        },
    }
}

/// The views of a vector of strings.
pub open spec fn string_views(v: Seq<String>) -> Seq<Seq<char>> {
    v.map_values(|s: String| s@)
}

/// The plain content of a prepared request.
pub open spec fn prepared_model(p: PreparedRequest) -> PreparedModel {
    (
        string_views(p.targets@),
        string_views(p.exclusions@),
        p.continue_on_error,
        p.format,
        match p.profile_ids {
            Some(ids) => Some(string_views(ids@)),
            None => None,
        },
    )
}

/// Read the parameters of a discovery request: the targets under
/// `target_key` (at least one), the profiles (required for Python), the
/// format, the exclusions and the `continue_on_discovery_error` flag.
pub fn prepare(params: &JsonValue, target_key: &str, target_description: &str, profiles_required: bool) -> (r: Result<PreparedRequest, JsonValue>)
    ensures
        match (r, prepare_outcome(params@, target_key@, target_description@, profiles_required)) {
            (Ok(p), Ok(t)) => prepared_model(p) == t,
            (Err(e), Err(m)) => e@ == m,
            _ => false,
        },
{
    let targets = match required_string_array(params, target_key) {
        Ok(t) => t,
        Err(e) => return Err(e),
    };
    if targets.len() == 0 {
        let a = concat3("Empty '", target_key, "' array; at least one entry from ");
        let b = concat3(a.as_str(), target_description, " is required");
        assert(b@ == "Empty '"@ + target_key@ + "' array; at least one entry from "@ + target_description@ + " is required"@);
        return Err(failure(b.as_str()));
    }
    let profile_ids = if get_member(params, "profiles").is_some() {
        let ids = match required_string_array(params, "profiles") {
            Ok(ids) => ids,
            Err(e) => return Err(e),
        };
        if ids.len() == 0 {
            return Err(failure("Empty 'profiles' array; at least one profile is required"));
        }
        Some(ids)
    } else if profiles_required {
        return Err(failure("Missing 'profiles' parameter (expected string array)"));
    } else {
        None
    };
    let format = match output_format(params) {
        Ok(f) => f,
        Err(e) => return Err(e),
    };
    let exclusions = match optional_string_array(params, "exclude") {
        Ok(x) => x,
        Err(e) => return Err(e),
    };
    let continue_on_error = match get_member(params, "continue_on_discovery_error") {
        None => false,
        Some(JsonValue::Bool(b)) => *b,
        Some(_) => return Err(failure("Invalid 'continue_on_discovery_error' parameter (expected boolean)")),
    };
    Ok(PreparedRequest { targets, exclusions, continue_on_error, format, profile_ids })
}


/// Does answering `line` with `response` end the session: a null result
/// under an id, for a request whose method is `shutdown`?
pub open spec fn ends_session_spec(line: Seq<char>, response: JsonModel) -> bool {
    &&& member_of(response, "result"@) == Some(JsonModel::Null)
    &&& member_of(response, "id"@) is Some
    &&& match json_document(line) {
        Ok(request) => member_of(request, "method"@) == Some(JsonModel::Str("shutdown"@)),
        Err(_) => false,
    }
}

/// Does answering `line` with `response` end the session?
pub fn ends_session(line: &str, response: &JsonValue) -> (r: bool)
    ensures
        r == ends_session_spec(line@, response@),
{
    let null_result = match get_member(response, "result") {
        Some(JsonValue::Null) => true,
        _ => false,
    };
    if !null_result || get_member(response, "id").is_none() {
        return false;
    }
    match parse_json_text(line) {
        Ok(request) => match get_member(&request, "method") {
            Some(JsonValue::String(m)) => str_eq(m.as_str(), "shutdown"),
            _ => false,
        },
        Err(_) => false,
    }
}

} // verus!
