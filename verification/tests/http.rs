use schemalint::conformance::http::{
    body_read_failure, evaluation_reply, header_line, parse_request_line, parse_usize,
    response_text, route_request, split_words, trim_chars, HttpReply, RequestTarget,
};
use schemalint::conformance::load::parse_truth;
use schemalint::conformance::truth::ProviderTruth;

fn truth() -> ProviderTruth {
    parse_truth(
        r#"
[provider]
name = "test"
version = "1.0"
behavior = "strict"

[[keywords]]
name = "allOf"
behavior = "reject"
test_schema = '{ "allOf": [] }'
expected_error = "allOf is not supported"
expected_error_path = "/allOf"
"#,
    )
    .unwrap()
}

fn chars(s: &str) -> Vec<char> {
    s.chars().collect()
}

#[test]
fn request_line_needs_three_words() {
    let t = parse_request_line("POST /evaluate/openai HTTP/1.1\r\n").unwrap();
    assert_eq!(t.method, "POST");
    assert_eq!(t.path, "/evaluate/openai");
    let bad = parse_request_line("GET /\r\n").unwrap_err();
    assert_eq!(bad, HttpReply { status: 400, body: r#"{"error":"bad request"}"#.into() });
    assert_eq!(split_words("  a\tbb  c \u{3000}d "), vec!["a", "bb", "c", "d"]);
}

#[test]
fn headers_set_and_end() {
    assert_eq!(header_line(None, "Content-Length: 42\r\n"), Some(Some(42)));
    assert_eq!(header_line(None, "content-LENGTH:+7"), Some(Some(7)));
    assert_eq!(header_line(Some(3), "Host: x"), Some(Some(3)));
    assert_eq!(header_line(Some(3), "Content-Length: many"), Some(None));
    assert_eq!(header_line(Some(3), "\r\n"), None);
    assert_eq!(header_line(Some(3), "no colon here"), Some(Some(3)));
}

#[test]
fn parse_usize_follows_from_str() {
    assert_eq!(parse_usize(&chars("0")), Some(0));
    assert_eq!(parse_usize(&chars("+12")), Some(12));
    assert_eq!(parse_usize(&chars("+")), None);
    assert_eq!(parse_usize(&chars("-1")), None);
    assert_eq!(parse_usize(&chars("")), None);
    assert_eq!(parse_usize(&chars("99999999999999999999999")), None);
    assert_eq!(trim_chars(&chars(" \t x y \n")), chars("x y"));
}

#[test]
fn routing_decides_before_the_body() {
    let truths = vec![("openai".to_string(), truth())];
    let target = |m: &str, p: &str| RequestTarget { method: m.into(), path: p.into() };
    assert_eq!(route_request(&target("POST", "/evaluate/openai"), &truths, Some(10), 100), Ok((0, 10)));
    assert_eq!(route_request(&target("GET", "/evaluate/openai"), &truths, Some(10), 100).unwrap_err().status, 404);
    assert_eq!(
        route_request(&target("POST", "/evaluate/gemini"), &truths, Some(10), 100).unwrap_err().body,
        r#"{"error":"unknown provider"}"#
    );
    assert_eq!(route_request(&target("POST", "/evaluate/openai"), &truths, Some(101), 100).unwrap_err().status, 413);
    assert_eq!(route_request(&target("POST", "/evaluate/openai"), &truths, None, 100).unwrap_err().status, 400);
    assert_eq!(route_request(&target("POST", "/evaluate/openai"), &truths, Some(0), 0), Ok((0, 0)));
    assert_eq!(body_read_failure().body, r#"{"error":"failed to read body"}"#);
}

#[test]
fn evaluation_answers() {
    let t = truth();
    let accepted = evaluation_reply(&t, br#"{"type":"string"}"#);
    assert_eq!(accepted.status, 200);
    assert_eq!(accepted.body, r#"{"status":"accepted","transformed":{"type":"string"}}"#);
    let rejected = evaluation_reply(&t, br#"{"allOf":[]}"#);
    assert_eq!(rejected.status, 200);
    assert_eq!(
        rejected.body,
        r#"{"status":"rejected","errors":[{"message":"allOf is not supported","pointer":"/allOf","keyword":"allOf"}]}"#
    );
    let invalid = evaluation_reply(&t, b"");
    assert_eq!(invalid.status, 400);
    assert!(invalid.body.starts_with(r#"{"error":"invalid JSON: "#));
}

#[test]
fn response_counts_body_bytes() {
    let r = HttpReply { status: 404, body: "é".into() };
    assert_eq!(
        response_text(&r),
        "HTTP/1.1 404 Not Found\r\nContent-Type: application/json\r\nContent-Length: 2\r\nConnection: close\r\n\r\né"
    );
}
