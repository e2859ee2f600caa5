//! The rule reference pages: one Markdown page per rule and an index
//! table of all rules with their code under each profile.
use vstd::prelude::*;

use crate::text::{chars_of, occurs_at, occurs_at_exec, owned, push_char, str_eq, string_from_chars};

verus! {

/// The kind of schema property a rule looks at.
#[derive(Debug, Clone, Copy, PartialEq, Eq, Structural)]
pub enum RuleCategory {
    Keyword,
    Restriction,
    Structure,
    Semantic,
}

/// The directory name of a category.
pub open spec fn category_name(c: RuleCategory) -> Seq<char> {
    match c {
        RuleCategory::Keyword => "keyword"@,
        RuleCategory::Restriction => "restriction"@,
        RuleCategory::Structure => "structural"@,
        RuleCategory::Semantic => "semantic"@,
    }
}

impl RuleCategory {
    /// The directory name of the category.
    pub fn as_str(self) -> (r: &'static str)
        ensures
            r@ == category_name(self),
    {
        match self {
            RuleCategory::Keyword => "keyword",
            RuleCategory::Restriction => "restriction",
            RuleCategory::Structure => "structural",
            RuleCategory::Semantic => "semantic",
        }
    }
}

/// Profile name and code prefix.
#[derive(Debug, Clone, PartialEq, Eq)]
pub struct ProfileInfo {
    pub name: String,
    pub code_prefix: String,
}

/// A rule, merged over the profiles that have it.
#[derive(Debug, Clone, PartialEq, Eq)]
pub struct DedupedRule {
    pub name: String,
    pub description: String,
    pub rationale: String,
    pub severity: String,
    pub category: RuleCategory,
    pub bad_example: String,
    pub good_example: String,
    pub see_also: Vec<String>,
    /// The rule's code under each profile, by profile name.
    pub profile_codes: Vec<(String, String)>,
    /// Profile names this rule is specific to (empty = universal).
    pub profiles: Vec<String>,
}

/// `s` with every occurrence of `pat` replaced by `rep`, matches taken
/// left to right without overlap, as `str::replace` does.
pub open spec fn replaced(s: Seq<char>, pat: Seq<char>, rep: Seq<char>) -> Seq<char>
    decreases s.len(),
{
    if s.len() == 0 {
        Seq::empty()
    } else if pat.len() > 0 && occurs_at(s, pat, 0) {
        rep + replaced(s.skip(pat.len() as int), pat, rep)
    } else {
        seq![s[0]] + replaced(s.skip(1), pat, rep)
    }
}

/// Expand a code template: `{prefix}` becomes the profile's code prefix.
pub fn expand_code(template: &str, prefix: &str) -> (r: String)
    ensures
        r@ == replaced(template@, "{prefix}"@, prefix@),
{
    let s = chars_of(template);
    let pat = chars_of("{prefix}");
    proof {
        reveal_strlit("{prefix}");
    }
    let rep = chars_of(prefix);
    let mut out: Vec<char> = Vec::new();
    let mut i: usize = 0;
    assert(s@.skip(0) =~= s@);
    while i < s.len()
        invariant
            i <= s.len(),
            pat@ == "{prefix}"@,
            pat@.len() == 8,
            rep@ == prefix@,
            out@ + replaced(s@.skip(i as int), pat@, rep@) == replaced(s@, pat@, rep@),
        decreases s.len() - i,
    {
        let ghost t = s@.skip(i as int);
        let found = occurs_at_exec(&s, &pat, i);
        proof {
            if i + 8 <= s.len() {
                assert(s@.subrange(i as int, i + 8) =~= t.subrange(0, 8));
            }
        }
        if found {
            proof {
                assert(occurs_at(t, pat@, 0));
                assert(t.skip(8) =~= s@.skip(i + 8));
            }
            let mut k: usize = 0;
            let ghost before = out@;
            while k < rep.len()
                invariant
                    k <= rep.len(),
                    out@ == before + rep@.take(k as int),
                decreases rep.len() - k,
            {
                out.push(rep[k]);
                assert(rep@.take(k + 1) =~= rep@.take(k as int).push(rep@[k as int]));
                k = k + 1;
            }
            assert(rep@.take(rep.len() as int) =~= rep@);
            assert(out@ + replaced(s@.skip(i + 8), pat@, rep@) =~= before + (rep@ + replaced(t.skip(8), pat@, rep@)));
            i = i + 8;
        } else {
            proof {
                assert(!occurs_at(t, pat@, 0));
                assert(t.skip(1) =~= s@.skip(i + 1));
                assert(t[0] == s@[i as int]);
            }
            let ghost before = out@;
            out.push(s[i]);
            assert(out@ + replaced(s@.skip(i + 1), pat@, rep@) =~= before + (seq![t[0]] + replaced(t.skip(1), pat@, rep@)));
            i = i + 1;
        }
    }
    assert(s@.skip(i as int) =~= Seq::<char>::empty());
    assert(out@ =~= out@ + replaced(s@.skip(i as int), pat@, rep@));
    string_from_chars(&out)
}

/// The line naming a category on a rule page.
pub open spec fn category_label(c: RuleCategory) -> Seq<char> {
    match c {
        RuleCategory::Keyword => "**Keyword** — presence of a specific JSON Schema keyword triggers this rule"@,
        RuleCategory::Restriction => "**Restriction** — a keyword value outside the allowed set triggers this rule"@,
        RuleCategory::Structure => "**Structural** — overall schema structure triggers this rule"@,
        RuleCategory::Semantic => "**Semantic** — schema semantics trigger this rule"@,
    }
}

/// The rows of the error-code table of a rule page.
pub open spec fn code_rows(codes: Seq<(String, String)>) -> Seq<char>
    decreases codes.len(),
{
    if codes.len() == 0 {
        Seq::empty()
    } else {
        code_rows(codes.drop_last()) + "| "@ + codes.last().0@ + " | `"@ + codes.last().1@ + "` |\n"@
    }
}

/// The list items of the see-also section.
pub open spec fn see_also_items(links: Seq<String>) -> Seq<char>
    decreases links.len(),
{
    if links.len() == 0 {
        Seq::empty()
    } else {
        see_also_items(links.drop_last()) + "- "@ + links.last()@ + "\n"@
    }
}

/// The Markdown page of a rule.
pub open spec fn rule_page(rule: DedupedRule) -> Seq<char> {
    "# "@ + rule.name@ + "\n\n"@ + "> Category: "@ + category_label(rule.category) + "\n"@ + "\n## Error Codes\n\n"@
        + "| Profile | Code |\n|---------|------|\n"@ + code_rows(rule.profile_codes@) + "\n## Description\n\n"@
        + rule.description@ + "\n\n"@ + "## Rationale\n\n"@ + rule.rationale@ + "\n\n"@ + (if rule.see_also@.len() == 0 {
        Seq::empty()
    } else {
        "## See Also\n\n"@ + see_also_items(rule.see_also@) + "\n"@
    }) + "## Bad Example\n\n"@ + "```json\n"@ + rule.bad_example@ + "\n```\n\n"@ + "## Good Example\n\n"@ + "```json\n"@
        + rule.good_example@ + "\n```\n"@
}

fn append(out: &mut String, s: &str)
    ensures
        final(out)@ == old(out)@ + s@,
{
    out.append(s);
}

/// Build the Markdown page of a rule.
pub fn build_rule_page(rule: &DedupedRule, _profiles: &Vec<ProfileInfo>) -> (r: String)
    ensures
        r@ == rule_page(*rule),
{
    let mut out = owned("# ");
    append(&mut out, rule.name.as_str());
    append(&mut out, "\n\n");
    append(&mut out, "> Category: ");
    let label: &str = match rule.category {
        RuleCategory::Keyword => "**Keyword** — presence of a specific JSON Schema keyword triggers this rule",
        RuleCategory::Restriction => "**Restriction** — a keyword value outside the allowed set triggers this rule",
        RuleCategory::Structure => "**Structural** — overall schema structure triggers this rule",
        RuleCategory::Semantic => "**Semantic** — schema semantics trigger this rule",
    };
    append(&mut out, label);
    append(&mut out, "\n");
    append(&mut out, "\n## Error Codes\n\n");
    append(&mut out, "| Profile | Code |\n|---------|------|\n");
    let ghost head = out@;
    let mut i: usize = 0;
    while i < rule.profile_codes.len()
        invariant
            i <= rule.profile_codes.len(),
            out@ == head + code_rows(rule.profile_codes@.take(i as int)),
        decreases rule.profile_codes.len() - i,
    {
        assert(rule.profile_codes@.take(i + 1).drop_last() =~= rule.profile_codes@.take(i as int));
        append(&mut out, "| ");
        append(&mut out, rule.profile_codes[i].0.as_str());
        append(&mut out, " | `");
        append(&mut out, rule.profile_codes[i].1.as_str());
        append(&mut out, "` |\n");
        i = i + 1;
    }
    assert(rule.profile_codes@.take(rule.profile_codes.len() as int) =~= rule.profile_codes@);
    append(&mut out, "\n## Description\n\n");
    append(&mut out, rule.description.as_str());
    append(&mut out, "\n\n");
    append(&mut out, "## Rationale\n\n");
    append(&mut out, rule.rationale.as_str());
    append(&mut out, "\n\n");
    let ghost mid = out@;
    if rule.see_also.len() > 0 {
        append(&mut out, "## See Also\n\n");
        let ghost head2 = out@;
        let mut j: usize = 0;
        while j < rule.see_also.len()
            invariant
                j <= rule.see_also.len(),
                out@ == head2 + see_also_items(rule.see_also@.take(j as int)),
            decreases rule.see_also.len() - j,
        {
            assert(rule.see_also@.take(j + 1).drop_last() =~= rule.see_also@.take(j as int));
            append(&mut out, "- ");
            append(&mut out, rule.see_also[j].as_str());
            append(&mut out, "\n");
            j = j + 1;
        }
        assert(rule.see_also@.take(rule.see_also.len() as int) =~= rule.see_also@);
        append(&mut out, "\n");
    }
    append(&mut out, "## Bad Example\n\n");
    append(&mut out, "```json\n");
    append(&mut out, rule.bad_example.as_str());
    append(&mut out, "\n```\n\n");
    append(&mut out, "## Good Example\n\n");
    append(&mut out, "```json\n");
    append(&mut out, rule.good_example.as_str());
    append(&mut out, "\n```\n");
    assert(out@ =~= rule_page(*rule));
    out
}

/// The code a rule has under a profile: the first code listed for that
/// profile name, `—` when there is none.
pub open spec fn code_for(codes: Seq<(String, String)>, profile: Seq<char>) -> Seq<char>
    decreases codes.len(),
{
    if codes.len() == 0 {
        "—"@
    } else if codes[0].0@ == profile {
        codes[0].1@
    } else {
        code_for(codes.drop_first(), profile)
    }
}

/// The cells of one index row, one per profile.
pub open spec fn code_cells(rule: DedupedRule, profiles: Seq<ProfileInfo>) -> Seq<char>
    decreases profiles.len(),
{
    if profiles.len() == 0 {
        Seq::empty()
    } else {
        code_cells(rule, profiles.drop_last()) + "`"@ + code_for(rule.profile_codes@, profiles.last().name@) + "` | "@
    }
}

/// One index row.
pub open spec fn index_row(rule: DedupedRule, profiles: Seq<ProfileInfo>) -> Seq<char> {
    "| ["@ + rule.name@ + "](./"@ + category_name(rule.category) + "/"@ + rule.name@ + ".md) | "@ + category_name(rule.category)
        + " | "@ + rule.severity@ + " | "@ + code_cells(rule, profiles) + "\n"@
}

/// The index rows.
pub open spec fn index_rows(rules: Seq<DedupedRule>, profiles: Seq<ProfileInfo>) -> Seq<char>
    decreases rules.len(),
{
    if rules.len() == 0 {
        Seq::empty()
    } else {
        index_rows(rules.drop_last(), profiles) + index_row(rules.last(), profiles)
    }
}

/// The header cells naming the profiles.
pub open spec fn profile_headers(profiles: Seq<ProfileInfo>) -> Seq<char>
    decreases profiles.len(),
{
    if profiles.len() == 0 {
        Seq::empty()
    } else {
        profile_headers(profiles.drop_last()) + profiles.last().name@ + " | "@
    }
}

/// The separator cells under the profile headers.
pub open spec fn profile_rules(n: nat) -> Seq<char>
    decreases n,
{
    if n == 0 {
        Seq::empty()
    } else {
        profile_rules((n - 1) as nat) + "------|"@
    }
}

/// The Markdown index of all rules, in the order given.
pub open spec fn index_page(rules: Seq<DedupedRule>, profiles: Seq<ProfileInfo>) -> Seq<char> {
    "# Rule Reference\n\n"@ + "This page lists all lint rules grouped by category.\n\n"@ + "| Rule | Category | Severity | "@
        + profile_headers(profiles) + "\n|------|----------|----------|"@ + profile_rules(profiles.len()) + "\n"@
        + index_rows(rules, profiles)
}

fn code_for_exec(codes: &Vec<(String, String)>, profile: &str) -> (r: String)
    ensures
        r@ == code_for(codes@, profile@),
{
    let mut i: usize = 0;
    assert(codes@.skip(0) =~= codes@);
    while i < codes.len()
        invariant
            i <= codes.len(),
            code_for(codes@, profile@) == code_for(codes@.skip(i as int), profile@),
        decreases codes.len() - i,
    {
        assert(codes@.skip(i as int)[0] == codes@[i as int]);
        if str_eq(codes[i].0.as_str(), profile) {
            return owned(codes[i].1.as_str());
        }
        assert(codes@.skip(i as int).drop_first() =~= codes@.skip(i + 1));
        i = i + 1;
    }
    owned("—")
}

/// Build the Markdown index of all rules; the rules come in the order
/// they are listed, which the caller keeps by name.
pub fn build_index(rules: &Vec<DedupedRule>, profiles: &Vec<ProfileInfo>) -> (r: String)
    ensures
        r@ == index_page(rules@, profiles@),
{
    let mut out = owned("# Rule Reference\n\n");
    append(&mut out, "This page lists all lint rules grouped by category.\n\n");
    append(&mut out, "| Rule | Category | Severity | ");
    let ghost h0 = out@;
    let mut i: usize = 0;
    while i < profiles.len()
        invariant
            i <= profiles.len(),
            out@ == h0 + profile_headers(profiles@.take(i as int)),
        decreases profiles.len() - i,
    {
        assert(profiles@.take(i + 1).drop_last() =~= profiles@.take(i as int));
        append(&mut out, profiles[i].name.as_str());
        append(&mut out, " | ");
        i = i + 1;
    }
    assert(profiles@.take(profiles.len() as int) =~= profiles@);
    append(&mut out, "\n|------|----------|----------|");
    let ghost h1 = out@;
    let mut j: usize = 0;
    while j < profiles.len()
        invariant
            j <= profiles.len(),
            out@ == h1 + profile_rules(j as nat),
        decreases profiles.len() - j,
    {
        append(&mut out, "------|");
        j = j + 1;
    }
    append(&mut out, "\n");
    let ghost h2 = out@;
    let mut k: usize = 0;
    while k < rules.len()
        invariant
            k <= rules.len(),
            out@ == h2 + index_rows(rules@.take(k as int), profiles@),
        decreases rules.len() - k,
    {
        assert(rules@.take(k + 1).drop_last() =~= rules@.take(k as int));
        let rule = &rules[k];
        let ghost before = out@;
        append(&mut out, "| [");
        append(&mut out, rule.name.as_str());
        append(&mut out, "](./");
        append(&mut out, rule.category.as_str());
        append(&mut out, "/");
        append(&mut out, rule.name.as_str());
        append(&mut out, ".md) | ");
        append(&mut out, rule.category.as_str());
        append(&mut out, " | ");
        append(&mut out, rule.severity.as_str());
        append(&mut out, " | ");
        let ghost cells_head = out@;
        let mut p: usize = 0;
        while p < profiles.len()
            invariant
                p <= profiles.len(),
                out@ == cells_head + code_cells(*rule, profiles@.take(p as int)),
            decreases profiles.len() - p,
        {
            assert(profiles@.take(p + 1).drop_last() =~= profiles@.take(p as int));
            let code = code_for_exec(&rule.profile_codes, profiles[p].name.as_str());
            append(&mut out, "`");
            append(&mut out, code.as_str());
            append(&mut out, "` | ");
            p = p + 1;
        }
        assert(profiles@.take(profiles.len() as int) =~= profiles@);
        append(&mut out, "\n");
        assert(out@ =~= before + index_row(*rule, profiles@));
        k = k + 1;
    }
    assert(rules@.take(rules.len() as int) =~= rules@);
    assert(out@ =~= index_page(rules@, profiles@));
    out
}

} // verus!
