//! Which JSON Schema dialect a schema is written in.
use vstd::prelude::*;

use crate::json::{json_get, object_get, JsonModel, JsonValue};
use crate::normalize::arena::{Node, NodeModel};
use crate::text::{chars_of, contains_exec, occurs_at};

verus! {

/// Detected JSON Schema dialect.
#[derive(Debug, Clone, Copy, PartialEq, Eq, Structural)]
pub enum Dialect {
    Draft2020_12,
    Draft2019_09,
    Draft07,
    Unknown,
}

/// `p` occurs in `s`.
pub open spec fn text_has(s: Seq<char>, p: Seq<char>) -> bool {
    exists|off: int| occurs_at(s, p, off)
}

/// The dialect a `$schema` URI names.
pub open spec fn dialect_of_uri(uri: Seq<char>) -> Option<Dialect> {
    if text_has(uri, "2020-12"@) {
        Some(Dialect::Draft2020_12)
    } else if text_has(uri, "2019-09"@) {
        Some(Dialect::Draft2019_09)
    } else if text_has(uri, "draft-07"@) || text_has(uri, "draft07"@) || text_has(uri, "http://json-schema.org/draft-07"@) {
        Some(Dialect::Draft07)
    } else {
        None
    }
}

/// The dialect of a root schema: named by its `$schema` URI, else
/// Draft 2020-12 when it uses `prefixItems`, else unknown.
pub open spec fn dialect_of(n: NodeModel) -> Dialect {
    match json_get(n.keywords, "$schema"@) {
        Some(JsonModel::Str(uri)) if dialect_of_uri(uri) is Some => dialect_of_uri(uri).unwrap(),
        _ => if json_get(n.keywords, "prefixItems"@) is Some {
            Dialect::Draft2020_12
        } else {
            Dialect::Unknown
        },
    }
}

fn has_text(s: &Vec<char>, p: &str) -> (r: bool)
    ensures
        r == text_has(s@, p@),
{
    contains_exec(s, &chars_of(p))
}

fn dialect_of_uri_exec(uri: &str) -> (r: Option<Dialect>)
    ensures
        r == dialect_of_uri(uri@),
{
    let u = chars_of(uri);
    if has_text(&u, "2020-12") {
        Some(Dialect::Draft2020_12)
    } else if has_text(&u, "2019-09") {
        Some(Dialect::Draft2019_09)
    } else if has_text(&u, "draft-07") || has_text(&u, "draft07") || has_text(&u, "http://json-schema.org/draft-07") {
        Some(Dialect::Draft07)
    } else {
        None
    }
}

/// Inspect the `$schema` keyword and keyword heuristics to determine dialect.
pub fn detect(node: &Node) -> (r: Dialect)
    ensures
        r == dialect_of(node@),
{
    let named = match object_get(&node.keywords, "$schema") {
        Some(JsonValue::String(uri)) => dialect_of_uri_exec(uri.as_str()),
        _ => None,
    };
    match named {
        Some(d) => d,
        None => if object_get(&node.keywords, "prefixItems").is_some() {
            Dialect::Draft2020_12
        } else {
            Dialect::Unknown
        },
    }
}

/// How a root's dialect follows from its keywords: a `$schema` URI that
/// mentions `2020-12` names Draft 2020-12; one that mentions `2019-09` (and
/// not `2020-12`) names Draft 2019-09; one that mentions `draft-07` or
/// `draft07` (and neither of those) names Draft-07. Without such a URI a
/// root that uses `prefixItems` is Draft 2020-12, and any other is unknown.
pub proof fn lemma_dialect_law(n: NodeModel)
    ensures
        json_get(n.keywords, "$schema"@) matches Some(JsonModel::Str(uri)) && text_has(uri, "2020-12"@)
            ==> dialect_of(n) == Dialect::Draft2020_12,
        json_get(n.keywords, "$schema"@) matches Some(JsonModel::Str(uri)) && !text_has(uri, "2020-12"@)
            && text_has(uri, "2019-09"@) ==> dialect_of(n) == Dialect::Draft2019_09,
        json_get(n.keywords, "$schema"@) matches Some(JsonModel::Str(uri)) && !text_has(uri, "2020-12"@)
            && !text_has(uri, "2019-09"@) && (text_has(uri, "draft-07"@) || text_has(uri, "draft07"@))
            ==> dialect_of(n) == Dialect::Draft07,
        !(json_get(n.keywords, "$schema"@) matches Some(JsonModel::Str(uri)) && (text_has(uri, "2020-12"@) || text_has(
            uri,
            "2019-09"@,
        ) || text_has(uri, "draft-07"@) || text_has(uri, "draft07"@))) ==> dialect_of(n) == if json_get(
            n.keywords,
            "prefixItems"@,
        ) is Some {
            Dialect::Draft2020_12
        } else {
            Dialect::Unknown
        },
{
    match json_get(n.keywords, "$schema"@) {
        Some(JsonModel::Str(uri)) => {
            if !text_has(uri, "2020-12"@) && !text_has(uri, "2019-09"@) && !text_has(uri, "draft-07"@) && !text_has(
                uri,
                "draft07"@,
            ) && text_has(uri, "http://json-schema.org/draft-07"@) {
                lemma_mention_draft07(uri);
            }
        },
        _ => {},
    }
}

/// A URI that mentions the Draft-07 meta-schema address mentions `draft-07`.
proof fn lemma_mention_draft07(uri: Seq<char>)
    requires
        text_has(uri, "http://json-schema.org/draft-07"@),
    ensures
        text_has(uri, "draft-07"@),
{
    reveal_strlit("http://json-schema.org/draft-07");
    reveal_strlit("draft-07");
    let long = "http://json-schema.org/draft-07"@;
    let short = "draft-07"@;
    let off = choose|off: int| occurs_at(uri, long, off);
    assert(long.len() == 31);
    assert(short.len() == 8);
    assert(long.subrange(23, 31) =~= short);
    assert(uri.subrange(off + 23, off + 31) =~= long.subrange(23, 31));
    assert(occurs_at(uri, short, off + 23));
}

} // verus!
