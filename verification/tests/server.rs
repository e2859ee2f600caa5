use schemalint::args::OutputFormat;
use schemalint::json::{compact_json_text, parse_json_text, JsonNumber, JsonValue};
use schemalint::server::{
    check_request, dispatch_line, ends_session, optional_string_array, output_format, prepare,
    required_string_array, schema_limit_error, string_array, within_complexity_bounds, Dispatch,
    Method,
};

fn json(text: &str) -> JsonValue {
    parse_json_text(text).unwrap()
}

fn member<'a>(v: &'a JsonValue, key: &str) -> Option<&'a JsonValue> {
    match v {
        JsonValue::Object(ms) => ms.iter().find(|(k, _)| k == key).map(|(_, v)| v),
        _ => None,
    }
}

fn text(v: &JsonValue) -> String {
    compact_json_text(v)
}

fn respond(d: Dispatch) -> JsonValue {
    match d {
        Dispatch::Respond(v) => v,
        Dispatch::Handle { .. } => panic!("expected an immediate answer"),
    }
}

fn error_code(v: &JsonValue) -> i64 {
    match member(member(v, "error").unwrap(), "code").unwrap() {
        JsonValue::Number(JsonNumber::NegInt(n)) => *n,
        other => panic!("unexpected code {:?}", other),
    }
}

#[test]
fn malformed_request_does_not_break_following_dispatch() {
    let first = respond(dispatch_line("not json"));
    assert_eq!(error_code(&first), -32700);
    let response = respond(dispatch_line(r#"{"jsonrpc":"2.0","method":"shutdown","id":2}"#));
    assert_eq!(text(member(&response, "id").unwrap()), "2");
}

#[test]
fn shutdown_answers_null_result_and_ends_session() {
    let line = r#"{"jsonrpc":"2.0","method":"shutdown","id":7}"#;
    let response = respond(dispatch_line(line));
    assert_eq!(text(&response), r#"{"jsonrpc":"2.0","result":null,"id":7}"#);
    assert!(ends_session(line, &response));
    let other = json(r#"{"jsonrpc":"2.0","result":null,"id":7}"#);
    assert!(!ends_session(r#"{"jsonrpc":"2.0","method":"check","id":7}"#, &other));
}

#[test]
fn wrong_version_is_invalid_request() {
    let response = respond(dispatch_line(r#"{"jsonrpc":"1.0","method":"check","id":"a"}"#));
    assert_eq!(error_code(&response), -32600);
    assert_eq!(text(member(&response, "id").unwrap()), "\"a\"");
    assert_eq!(
        text(member(member(&response, "error").unwrap(), "message").unwrap()),
        "\"Invalid JSON-RPC request: missing or incorrect jsonrpc field\""
    );
}

#[test]
fn missing_and_unknown_methods() {
    let missing = respond(dispatch_line(r#"{"jsonrpc":"2.0","id":1}"#));
    assert_eq!(error_code(&missing), -32600);
    let unknown = respond(dispatch_line(r#"{"jsonrpc":"2.0","method":"frobnicate","id":1}"#));
    assert_eq!(error_code(&unknown), -32601);
    assert_eq!(
        text(member(member(&unknown, "error").unwrap(), "message").unwrap()),
        "\"Method not found: frobnicate\""
    );
}

#[test]
fn oversized_line_is_refused() {
    let line = "x".repeat(10_000_001);
    let response = respond(dispatch_line(&line));
    assert_eq!(error_code(&response), -32600);
    assert_eq!(text(member(&response, "id").unwrap()), "null");
}

#[test]
fn check_methods_are_handed_on_with_params() {
    match dispatch_line(r#"{"jsonrpc":"2.0","method":"checkNode","id":3,"params":{"sources":["a"]}}"#) {
        Dispatch::Handle { id, method, params } => {
            assert_eq!(text(&id), "3");
            assert_eq!(method, Method::CheckNode);
            assert_eq!(text(&params), r#"{"sources":["a"]}"#);
        }
        Dispatch::Respond(_) => panic!("expected a method to run"),
    }
    match dispatch_line(r#"{"jsonrpc":"2.0","method":"check"}"#) {
        Dispatch::Handle { id, method, params } => {
            assert_eq!(text(&id), "null");
            assert_eq!(method, Method::Check);
            assert_eq!(text(&params), "{}");
        }
        Dispatch::Respond(_) => panic!("expected a method to run"),
    }
}

#[test]
fn output_format_defaults_to_json_and_refuses_unknown() {
    assert_eq!(output_format(&json("{}")).unwrap(), OutputFormat::Json);
    assert_eq!(output_format(&json(r#"{"format":"sarif"}"#)).unwrap(), OutputFormat::Sarif);
    let err = output_format(&json(r#"{"format":"xml"}"#)).unwrap_err();
    assert_eq!(
        text(&err),
        r#"{"success":false,"error":"Unknown format 'xml'; expected one of: human, json, sarif, gha, junit"}"#
    );
}

#[test]
fn string_arrays_keep_texts() {
    let params = json(r#"{"a":["x",1,"y"],"b":"z"}"#);
    assert_eq!(string_array(&params, "a"), vec!["x".to_string(), "y".to_string()]);
    assert!(string_array(&params, "b").is_empty());
    assert!(string_array(&params, "c").is_empty());
    assert_eq!(
        text(&required_string_array(&params, "c").unwrap_err()),
        r#"{"success":false,"error":"Missing 'c' parameter (expected string array)"}"#
    );
    assert_eq!(
        text(&required_string_array(&params, "a").unwrap_err()),
        r#"{"success":false,"error":"Invalid 'a' parameter (expected string array)"}"#
    );
    assert!(optional_string_array(&params, "c").unwrap().is_empty());
}

#[test]
fn check_request_reads_schema_profiles_and_format() {
    let req = check_request(&json(r#"{"schema":{"type":"object"},"profiles":["openai",2]}"#)).unwrap();
    assert_eq!(text(&req.schema), r#"{"type":"object"}"#);
    assert_eq!(req.profile_ids, vec!["openai".to_string()]);
    assert_eq!(req.format, OutputFormat::Json);
    assert_eq!(
        text(&check_request(&json(r#"{"profiles":[]}"#)).unwrap_err()),
        r#"{"success":false,"error":"Missing 'schema' parameter"}"#
    );
    assert_eq!(
        text(&check_request(&json(r#"{"schema":{}}"#)).unwrap_err()),
        r#"{"success":false,"error":"Missing 'profiles' parameter"}"#
    );
}

#[test]
fn complexity_bounds_count_values_and_depth() {
    let mut remaining = 3;
    assert!(within_complexity_bounds(&json(r#"[1,2]"#), &mut remaining, 0));
    assert_eq!(remaining, 0);
    let mut remaining = 2;
    assert!(!within_complexity_bounds(&json(r#"[1,2]"#), &mut remaining, 0));
    let mut remaining = 100;
    assert!(!within_complexity_bounds(&json("1"), &mut remaining, 1001));
    let mut deep = JsonValue::Array(vec![]);
    for _ in 0..1001 {
        deep = JsonValue::Array(vec![deep]);
    }
    assert!(schema_limit_error(&deep).is_some());
    assert!(schema_limit_error(&json(r#"{"type":"object"}"#)).is_none());
}

#[test]
fn prepare_reads_discovery_requests() {
    let p = prepare(
        &json(r#"{"sources":["src/**/*.ts"],"exclude":["x"],"continue_on_discovery_error":true}"#),
        "sources",
        "source globs",
        false,
    )
    .unwrap();
    assert_eq!(p.targets, vec!["src/**/*.ts".to_string()]);
    assert_eq!(p.exclusions, vec!["x".to_string()]);
    assert!(p.continue_on_error);
    assert!(p.profile_ids.is_none());
    let empty = prepare(&json(r#"{"packages":[]}"#), "packages", "Python package names", true);
    assert_eq!(
        text(&empty.unwrap_err()),
        r#"{"success":false,"error":"Empty 'packages' array; at least one entry from Python package names is required"}"#
    );
    let missing = prepare(&json(r#"{"packages":["app"]}"#), "packages", "Python package names", true);
    assert_eq!(
        text(&missing.unwrap_err()),
        r#"{"success":false,"error":"Missing 'profiles' parameter (expected string array)"}"#
    );
    let bad_flag = prepare(
        &json(r#"{"sources":["a"],"continue_on_discovery_error":"yes"}"#),
        "sources",
        "source globs",
        false,
    );
    assert_eq!(
        text(&bad_flag.unwrap_err()),
        r#"{"success":false,"error":"Invalid 'continue_on_discovery_error' parameter (expected boolean)"}"#
    );
}
