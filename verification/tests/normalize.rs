use schemalint::json::parse_json_text;
use schemalint::normalize::arena::{Arena, Node, NodeId, NodeKind};
use schemalint::normalize::refs::tarjan_scc;
use schemalint::normalize::dialect::Dialect;
use schemalint::normalize::error::NormalizeError;
use schemalint::normalize::pipeline::normalize;
use schemalint::pointer::{escape_pointer_segment, is_defs_entry};

fn pointers(text: &str) -> Vec<String> {
    let v = parse_json_text(text).unwrap();
    let ns = normalize(&v).unwrap();
    (0..ns.arena.len()).map(|i| ns.arena.get(NodeId(i as u32)).json_pointer.clone()).collect()
}

#[test]
fn expands_depth_first_with_pointers() {
    let ps = pointers(
        r#"{"type": "object", "properties": {"a": {"type": "array", "items": {"type": "string"}}, "b/c": {"type": "integer"}}, "anyOf": [{"type": "null"}]}"#,
    );
    assert_eq!(
        ps,
        vec!["", "/properties/a", "/properties/b~1c", "/anyOf/0", "/properties/a/items"]
    );
}

#[test]
fn defs_refs_and_cycles() {
    let v = parse_json_text(
        r##"{"$schema": "https://json-schema.org/draft/2020-12/schema", "$defs": {"node": {"type": "object", "properties": {"next": {"$ref": "#/$defs/node"}}}}, "properties": {"root": {"$ref": "#/$defs/node"}}}"##,
    )
    .unwrap();
    let ns = normalize(&v).unwrap();
    assert_eq!(ns.dialect, Dialect::Draft2020_12);
    assert_eq!(ns.root_id, NodeId(0));
    let def = ns.arena.get(NodeId(1));
    assert_eq!(def.json_pointer, "/$defs/node");
    assert_eq!(def.depth, 1);
    assert_eq!(def.parent, Some(NodeId(0)));
    assert!(def.is_cyclic);
    let mut refs = 0;
    for i in 0..ns.arena.len() {
        let n = ns.arena.get(NodeId(i as u32));
        if n.json_pointer.ends_with("/next") || n.json_pointer == "/properties/root" {
            assert_eq!(n.ref_target, Some(NodeId(1)));
            assert_eq!(n.kind, NodeKind::Ref);
            refs += 1;
        }
    }
    assert_eq!(refs, 2);
    assert!(!ns.arena.get(NodeId(0)).is_cyclic);
}

#[test]
fn type_arrays_become_any_of() {
    let v = parse_json_text(r#"{"type": ["string", "null"]}"#).unwrap();
    let ns = normalize(&v).unwrap();
    assert_eq!(ns.arena.len(), 3);
    let root = ns.arena.get(NodeId(0));
    assert_eq!(root.kind, NodeKind::AnyOf);
    assert_eq!(root.children, vec![NodeId(1), NodeId(2)]);
    assert_eq!(ns.arena.get(NodeId(2)).json_pointer, "/type/1");
    assert_eq!(ns.arena.get(NodeId(2)).depth, 1);
}

#[test]
fn errors_are_reported() {
    let bad_items = parse_json_text(r#"{"items": 3}"#).unwrap();
    match normalize(&bad_items) {
        Err(NormalizeError::ParseError(m)) => {
            assert_eq!(m, "/items: expected object, boolean, or array, got number")
        }
        other => panic!("unexpected {other:?}"),
    }
    let unresolved = parse_json_text(r##"{"$ref": "#/$defs/missing"}"##).unwrap();
    match normalize(&unresolved) {
        Err(e @ NormalizeError::UnresolvedRef(_)) => {
            assert_eq!(e.message(), "unresolved internal $ref: #/$defs/missing")
        }
        other => panic!("unexpected {other:?}"),
    }
    let external = parse_json_text(r#"{"$ref": "https://example.com/s.json"}"#).unwrap();
    assert!(normalize(&external).is_ok());
    let not_schema = parse_json_text("[1]").unwrap();
    assert!(matches!(normalize(&not_schema), Err(NormalizeError::ParseError(_))));
}

#[test]
fn pointer_helpers() {
    assert_eq!(escape_pointer_segment("a/b~c"), "a~1b~0c");
    assert_eq!(escape_pointer_segment("plain"), "plain");
    assert!(is_defs_entry("/$defs/x"));
    assert!(is_defs_entry("/definitions/x"));
    assert!(!is_defs_entry("/$defs/x/properties/y"));
    assert!(!is_defs_entry("/$defs/"));
}

fn plain_node() -> Node {
    Node {
        kind: NodeKind::Object,
        keywords: Vec::new(),
        parent: None,
        children: Vec::new(),
        depth: 0,
        json_pointer: String::new(),
        ref_target: None,
        is_cyclic: false,
    }
}

#[test]
fn tarjan_marks_self_loops_and_cycles_only() {
    let mut arena = Arena::new();
    for _ in 0..5 {
        arena.allocate(plain_node());
    }
    let edges = vec![
        (NodeId(0), NodeId(0)),
        (NodeId(1), NodeId(2)),
        (NodeId(2), NodeId(1)),
        (NodeId(3), NodeId(4)),
        (NodeId(4), NodeId(9)),
    ];
    tarjan_scc(&mut arena, &edges);
    let marks: Vec<bool> = (0..5).map(|i| arena.get(NodeId(i)).is_cyclic).collect();
    assert_eq!(marks, vec![true, true, true, false, false]);
}

#[test]
fn tarjan_on_empty_arena_does_nothing() {
    let mut arena = Arena::new();
    tarjan_scc(&mut arena, &[(NodeId(0), NodeId(0))]);
    assert_eq!(arena.len(), 0);
}

#[test]
fn tarjan_marks_longer_cycles_but_not_what_leads_into_them() {
    let mut arena = Arena::new();
    for _ in 0..6 {
        arena.allocate(plain_node());
    }
    let edges = vec![
        (NodeId(0), NodeId(1)),
        (NodeId(1), NodeId(2)),
        (NodeId(2), NodeId(0)),
        (NodeId(3), NodeId(0)),
        (NodeId(4), NodeId(5)),
    ];
    tarjan_scc(&mut arena, &edges);
    let marks: Vec<bool> = (0..6).map(|i| arena.get(NodeId(i)).is_cyclic).collect();
    assert_eq!(marks, vec![true, true, true, false, false, false]);
}

#[test]
fn escaping_keeps_segments_apart() {
    assert_eq!(escape_pointer_segment("~1"), "~01");
    assert_eq!(escape_pointer_segment("a//b"), "a~1~1b");
    assert!(!escape_pointer_segment("x/y/z").contains('/'));
}
