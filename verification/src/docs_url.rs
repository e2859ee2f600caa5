//! Documentation links for diagnostic codes.
use vstd::prelude::*;

use crate::text::{chars_of, concat2, concat3, ends_with_chars, first_pos, first_pos_from, str_eq, string_from_chars, sub_chars};

verus! {

/// Where the rule reference is published.
pub const DOCS_BASE_URL: &'static str = "https://1nder-labs.github.io/schemalint";

/// Semantic rules share the `-S-` infix with structural rules, so they
/// cannot be told apart by the code alone.
pub open spec fn semantic_rule(name: Seq<char>) -> bool {
    name == "empty-object"@ || name == "additional-properties-object"@ || name == "anyof-objects"@
}

/// The documentation category of a rule, from the code's kind letter and
/// rule name.
pub open spec fn rule_category(kind: Seq<char>, name: Seq<char>) -> Option<Seq<char>> {
    if kind == seq!['K'] {
        if name.len() >= 11 && name.skip(name.len() - 11) == "-restricted"@ {
            Some("restriction"@)
        } else {
            Some("keyword"@)
        }
    } else if kind == seq!['S'] {
        if semantic_rule(name) {
            Some("semantic"@)
        } else {
            Some("structural"@)
        }
    } else {
        None
    }
}

/// The `{category}/{name}` page of a code `{PREFIX}-{K|S}-{name}`; the
/// prefix holds no `-`, the name may.
pub open spec fn rule_page(code: Seq<char>) -> Option<Seq<char>> {
    let i = first_pos(code, '-');
    if i >= code.len() {
        None
    } else {
        let after = code.skip(i + 1);
        let j = first_pos(after, '-');
        if j >= after.len() {
            None
        } else {
            let kind = after.take(j);
            let name = after.skip(j + 1);
            if name.len() == 0 {
                None
            } else {
                match rule_category(kind, name) {
                    Some(cat) => Some(cat + seq!['/'] + name),
                    None => None,
                }
            }
        }
    }
}

/// The documentation URL of a code; unrecognized codes lead to the rule
/// index.
pub open spec fn rule_link(code: Seq<char>) -> Seq<char> {
    match rule_page(code) {
        Some(p) => DOCS_BASE_URL@ + "/rules/"@ + p,
        None => DOCS_BASE_URL@ + "/rules"@,
    }
}

/// Build the documentation URL for a diagnostic code.
///
/// Rule pages are published at `/rules/{category}/{name}`; a code that does
/// not have the `{prefix}-{S|K}-{name}` shape falls back to the rule index,
/// so the link never leads nowhere.
pub fn rule_url(code: &str) -> (r: String)
    ensures
        r@ == rule_link(code@),
{
    match rule_path(code) {
        Some(path) => concat3(DOCS_BASE_URL, "/rules/", path.as_str()),
        None => concat2(DOCS_BASE_URL, "/rules"),
    }
}

/// Translate a diagnostic code into its `{category}/{name}` doc path.
pub fn rule_path(code: &str) -> (r: Option<String>)
    ensures
        match r {
            Some(p) => rule_page(code@) == Some(p@),
            None => rule_page(code@) is None,
        },
{
    let c = chars_of(code);
    let i = first_pos_from(&c, 0, '-');
    assert(c@.skip(0) =~= c@);
    if i >= c.len() {
        return None;
    }
    let j = first_pos_from(&c, i + 1, '-');
    if j >= c.len() {
        return None;
    }
    let kind = sub_chars(&c, i + 1, j);
    let name = sub_chars(&c, j + 1, c.len());
    proof {
        let after = c@.skip(i + 1);
        assert(after.take(j - (i + 1)) =~= kind@);
        assert(after.skip(j - (i + 1) + 1) =~= name@);
    }
    if name.len() == 0 {
        return None;
    }
    let name_text = string_from_chars(&name);
    let category: &str = if kind.len() == 1 && kind[0] == 'K' {
        assert(kind@ =~= seq!['K']);
        let restricted = chars_of("-restricted");
        proof {
            reveal_strlit("-restricted");
        }
        if ends_with_chars(&name, &restricted) {
            "restriction"
        } else {
            "keyword"
        }
    } else if kind.len() == 1 && kind[0] == 'S' {
        assert(kind@ =~= seq!['S']);
        assert(kind@ != seq!['K']);
        let n = name_text.as_str();
        if str_eq(n, "empty-object") || str_eq(n, "additional-properties-object") || str_eq(n, "anyof-objects") {
            "semantic"
        } else {
            "structural"
        }
    } else {
        assert(kind@ != seq!['K'] && kind@ != seq!['S']);
        return None;
    };
    proof {
        reveal_strlit("/");
        assert("/"@ =~= seq!['/']);
    }
    Some(concat3(category, "/", name_text.as_str()))
}

/// How a code `{prefix}-{K|S}-{name}` maps to its page, for every prefix
/// without `-` and every non-empty name: a structural code (`S`) whose name
/// is `empty-object`, `additional-properties-object` or `anyof-objects` has
/// its page under `semantic/`, any other under `structural/`; a keyword code
/// (`K`) has its page under `restriction/` when the name ends in
/// `-restricted`, else under `keyword/`; and the page ends with the name.
pub proof fn lemma_rule_page_law(prefix: Seq<char>, name: Seq<char>)
    requires
        !prefix.contains('-'),
        name.len() > 0,
    ensures
        rule_page(prefix + "-S-"@ + name) == Some(
            if name == "empty-object"@ || name == "additional-properties-object"@ || name == "anyof-objects"@ {
                "semantic/"@ + name
            } else {
                "structural/"@ + name
            },
        ),
        rule_page(prefix + "-K-"@ + name) == Some(
            if name.len() >= 11 && name.skip(name.len() - 11) == "-restricted"@ {
                "restriction/"@ + name
            } else {
                "keyword/"@ + name
            },
        ),
{
    reveal_strlit("-S-");
    reveal_strlit("-K-");
    reveal_strlit("semantic/");
    reveal_strlit("structural/");
    reveal_strlit("restriction/");
    reveal_strlit("keyword/");
    reveal_strlit("semantic");
    reveal_strlit("structural");
    reveal_strlit("restriction");
    reveal_strlit("keyword");
    assert("-S-"@ =~= seq!['-', 'S', '-']);
    assert("-K-"@ =~= seq!['-', 'K', '-']);
    lemma_page_of(prefix, 'S', name);
    lemma_page_of(prefix, 'K', name);
    assert(seq!['S'] != seq!['K']) by {
        assert(seq!['S'][0] != seq!['K'][0]);
    }
    assert("semantic"@ + seq!['/'] + name =~= "semantic/"@ + name);
    assert("structural"@ + seq!['/'] + name =~= "structural/"@ + name);
    assert("restriction"@ + seq!['/'] + name =~= "restriction/"@ + name);
    assert("keyword"@ + seq!['/'] + name =~= "keyword/"@ + name);
}

proof fn lemma_page_of(prefix: Seq<char>, k: char, name: Seq<char>)
    requires
        !prefix.contains('-'),
        k != '-',
        name.len() > 0,
    ensures
        rule_page(prefix + seq!['-', k, '-'] + name) == match rule_category(seq![k], name) {
            Some(cat) => Some(cat + seq!['/'] + name),
            None => None,
        },
{
    let code = prefix + seq!['-', k, '-'] + name;
    assert forall|j: int| 0 <= j < prefix.len() implies code[j] != '-' by {
        assert(code[j] == prefix[j]);
        if code[j] == '-' {
            assert(prefix.contains('-'));
        }
    }
    assert(code[prefix.len() as int] == '-');
    crate::text::lemma_first_pos(code, '-', prefix.len() as int);
    let after = code.skip(prefix.len() as int + 1);
    assert(after =~= seq![k, '-'] + name);
    assert(after[0] == k);
    assert(after[1] == '-');
    crate::text::lemma_first_pos(after, '-', 1);
    assert(after.take(1) =~= seq![k]);
    assert(after.skip(2) =~= name);
}

} // verus!
