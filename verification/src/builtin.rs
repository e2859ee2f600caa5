//! The built-in profiles: their IDs, the aliases that name them, and the
//! default chosen when none is given.
use vstd::prelude::*;

use crate::emit::sarif::{text_less, text_less_exec};
use crate::profile::parser::Profile;
use crate::text::{chars_of, concat3, has_char_in, owned, str_eq};

verus! {

/// The latest OpenAI Structured Outputs profile.
pub const OPENAI_PROFILE_ID: &'static str = "openai.so.2026-04-30";

/// The latest Anthropic tool-use profile.
pub const ANTHROPIC_PROFILE_ID: &'static str = "anthropic.so.2026-04-30";

/// Metadata for a built-in profile: its ID, provider alias, and a one-line
/// description.
#[derive(Debug, Clone, Copy, PartialEq, Eq)]
pub struct ProfileMeta {
    pub id: &'static str,
    pub provider: &'static str,
    pub description: &'static str,
}

/// The IDs and providers of the built-in profiles, in display order.
pub open spec fn builtin_entries() -> Seq<(Seq<char>, Seq<char>)> {
    seq![(OPENAI_PROFILE_ID@, "openai"@), (ANTHROPIC_PROFILE_ID@, "anthropic"@)]
}

/// All built-in profiles, in display order.
pub fn profiles() -> (r: Vec<ProfileMeta>)
    ensures
        r@.map_values(|m: ProfileMeta| (m.id@, m.provider@)) == builtin_entries(),
{
    let mut r: Vec<ProfileMeta> = Vec::new();
    r.push(ProfileMeta {
        id: OPENAI_PROFILE_ID,
        provider: "openai",
        description: "OpenAI Structured Outputs schema rules (additionalProperties:false, all fields required, no optional/anyOf-of-objects, unsupported keywords, size/nesting limits).",
    });
    r.push(ProfileMeta {
        id: ANTHROPIC_PROFILE_ID,
        provider: "anthropic",
        description: "Anthropic tool-use schema rules (additionalProperties:false; forbids numeric/string-length/array-size keywords; up to 24 optional properties and 16 union members; no allOf combined with $ref).",
    });
    assert(r@.map_values(|m: ProfileMeta| (m.id@, m.provider@)) =~= builtin_entries());
    r
}

/// Does `s` hold a path separator, `/` or `\`?
pub open spec fn looks_like_path(s: Seq<char>) -> bool {
    s.contains('/') || s.contains('\\')
}

/// The built-in profile an identifier names: the bare provider names and
/// the `.so.latest` aliases name the provider's latest profile; a dated ID
/// names itself.
pub open spec fn builtin_id_of(id: Seq<char>) -> Option<Seq<char>> {
    if id == "openai"@ || id == "openai.so.latest"@ || id == OPENAI_PROFILE_ID@ {
        Some(OPENAI_PROFILE_ID@)
    } else if id == "anthropic"@ || id == "anthropic.so.latest"@ || id == ANTHROPIC_PROFILE_ID@ {
        Some(ANTHROPIC_PROFILE_ID@)
    } else {
        None
    }
}

/// What resolving an identifier to a built-in profile gives: the profile's
/// ID, or the error for a path or an unknown name.
pub open spec fn builtin_resolution(id: Seq<char>) -> Result<Seq<char>, Seq<char>> {
    if looks_like_path(id) {
        Err("profile ID '"@ + id + "' must be a built-in name, not a filesystem path"@)
    } else {
        match builtin_id_of(id) {
            Some(b) => Ok(b),
            None => Err("unknown built-in profile '"@ + id + "'"@),
        }
    }
}

/// Resolve a profile identifier to a built-in profile, rejecting filesystem
/// paths: the result is the ID of the built-in profile whose TOML text is
/// then loaded.
pub fn resolve_builtin_profile(path_or_id: &str) -> (r: Result<&'static str, String>)
    ensures
        match (r, builtin_resolution(path_or_id@)) {
            (Ok(a), Ok(b)) => a@ == b,
            (Err(a), Err(b)) => a@ == b,
            _ => false,
        },
{
    let chars = chars_of(path_or_id);
    let n = chars.len();
    if has_char_in(&chars, 0, n, '/') || has_char_in(&chars, 0, n, '\\') {
        assert(chars@.subrange(0, n as int) =~= chars@);
        let message = concat3("profile ID '", path_or_id, "' must be a built-in name, not a filesystem path");
        return Err(message);
    }
    assert(chars@.subrange(0, n as int) =~= chars@);
    if str_eq(path_or_id, "openai") || str_eq(path_or_id, "openai.so.latest") || str_eq(path_or_id, OPENAI_PROFILE_ID) {
        Ok(OPENAI_PROFILE_ID)
    } else if str_eq(path_or_id, "anthropic") || str_eq(path_or_id, "anthropic.so.latest") || str_eq(
        path_or_id,
        ANTHROPIC_PROFILE_ID,
    ) {
        Ok(ANTHROPIC_PROFILE_ID)
    } else {
        Err(concat3("unknown built-in profile '", path_or_id, "'"))
    }
}

/// The profile ID of a detected provider: the built-in profile with that
/// provider, the OpenAI one otherwise.
pub open spec fn provider_profile_id(provider: Seq<char>) -> Seq<char> {
    if provider == "anthropic"@ {
        ANTHROPIC_PROFILE_ID@
    } else {
        OPENAI_PROFILE_ID@
    }
}

/// The profile IDs used when none is given: one per detected provider, in
/// order, or the OpenAI profile when none was detected.
pub open spec fn default_ids(providers: Seq<Seq<char>>) -> Seq<Seq<char>> {
    if providers.len() == 0 {
        seq![OPENAI_PROFILE_ID@]
    } else {
        providers.map_values(|p: Seq<char>| provider_profile_id(p))
    }
}

/// The default profile list is never empty, has one entry per detected
/// provider (or the single OpenAI entry), and names only built-in profiles.
pub proof fn lemma_default_ids_built_in(providers: Seq<Seq<char>>)
    ensures
        default_ids(providers).len() >= 1,
        default_ids(providers).len() == if providers.len() == 0 { 1 } else { providers.len() },
        forall|i: int| 0 <= i < default_ids(providers).len()
            ==> #[trigger] default_ids(providers)[i] == OPENAI_PROFILE_ID@ || default_ids(providers)[i] == ANTHROPIC_PROFILE_ID@,
{
}

/// The profile IDs used when none is given, from the providers detected in
/// the project's dependencies.
pub fn default_profile_ids(providers: &Vec<&str>) -> (r: Vec<String>)
    ensures
        r@.map_values(|s: String| s@) == default_ids(providers@.map_values(|p: &str| p@)),
{
    let mut r: Vec<String> = Vec::new();
    if providers.len() == 0 {
        r.push(owned(OPENAI_PROFILE_ID));
        assert(r@.map_values(|s: String| s@) =~= seq![OPENAI_PROFILE_ID@]);
        return r;
    }
    let ghost ps = providers@.map_values(|p: &str| p@);
    let mut i: usize = 0;
    while i < providers.len()
        invariant
            i <= providers.len(),
            ps == providers@.map_values(|p: &str| p@),
            r@.map_values(|s: String| s@) == ps.take(i as int).map_values(|p: Seq<char>| provider_profile_id(p)),
        decreases providers.len() - i,
    {
        let id = if str_eq(providers[i], "anthropic") {
            ANTHROPIC_PROFILE_ID
        } else {
            OPENAI_PROFILE_ID
        };
        let ghost before = r@;
        r.push(owned(id));
        proof {
            assert(ps.take(i + 1) =~= ps.take(i as int).push(ps[i as int]));
            assert(r@.map_values(|s: String| s@) =~= before.map_values(|s: String| s@).push(id@));
            assert(ps.take(i + 1).map_values(|p: Seq<char>| provider_profile_id(p)) =~= ps.take(i as int).map_values(
                |p: Seq<char>| provider_profile_id(p),
            ).push(provider_profile_id(ps[i as int])));
        }
        i = i + 1;
    }
    assert(ps.take(providers.len() as int) =~= ps);
    r
}


/// `x` put into `s` by a stable insertion from the back, by profile name.
pub open spec fn inserted_by_name(s: Seq<Profile>, x: Profile) -> Seq<Profile>
    decreases s.len(),
{
    if s.len() == 0 || !text_less(x.name@, s.last().name@) {
        s.push(x)
    } else {
        inserted_by_name(s.drop_last(), x).push(s.last())
    }
}

/// The profiles sorted by name, keeping the order of equal names.
pub open spec fn sorted_by_name(s: Seq<Profile>) -> Seq<Profile>
    decreases s.len(),
{
    if s.len() == 0 {
        Seq::empty()
    } else {
        inserted_by_name(sorted_by_name(s.drop_last()), s.last())
    }
}

/// The profiles with each run of equal names cut to its first.
pub open spec fn deduped_by_name(s: Seq<Profile>) -> Seq<Profile>
    decreases s.len(),
{
    if s.len() == 0 {
        Seq::empty()
    } else {
        let front = deduped_by_name(s.drop_last());
        if s.len() >= 2 && s[s.len() - 2].name@ == s.last().name@ {
            front
        } else {
            front.push(s.last())
        }
    }
}

proof fn lemma_name_insert_position(s: Seq<Profile>, x: Profile, j: int)
    requires
        0 <= j <= s.len(),
        forall|k: int| j <= k < s.len() ==> text_less(x.name@, #[trigger] s[k].name@),
        j == 0 || !text_less(x.name@, s[j - 1].name@),
    ensures
        inserted_by_name(s, x) == s.insert(j, x),
    decreases s.len() - j,
{
    if j < s.len() {
        assert(text_less(x.name@, s[s.len() - 1].name@));
        lemma_name_insert_position(s.drop_last(), x, j);
        assert(s.drop_last().insert(j, x).push(s.last()) =~= s.insert(j, x));
    } else {
        assert(s.push(x) =~= s.insert(j, x));
    }
}

/// The loaded profiles in name order, one per name: sorted stably by name,
/// then each run of equal names cut to its first.
pub fn order_profiles(profiles: Vec<Profile>) -> (r: Vec<Profile>)
    ensures
        r@ == deduped_by_name(sorted_by_name(profiles@)),
{
    let ghost all = profiles@;
    let mut ps = profiles;
    let mut out: Vec<Profile> = Vec::new();
    let n = ps.len();
    let mut i: usize = 0;
    assert(all.skip(0) =~= all);
    assert(all.take(0) =~= Seq::<Profile>::empty());
    while ps.len() > 0
        invariant
            ps@.len() + i == n,
            n == all.len(),
            ps@ == all.skip(i as int),
            out@ == sorted_by_name(all.take(i as int)),
        decreases ps.len(),
    {
        let x = ps.remove(0);
        proof {
            assert(x == all[i as int]);
            assert(all.skip(i as int).remove(0) =~= all.skip(i + 1));
            assert(all.take(i + 1).drop_last() =~= all.take(i as int));
        }
        let mut j = out.len();
        while j > 0 && text_less_exec(x.name.as_str(), out[j - 1].name.as_str())
            invariant
                j <= out.len(),
                forall|k: int| j <= k < out.len() ==> text_less(x.name@, #[trigger] out@[k].name@),
            decreases j,
        {
            j = j - 1;
        }
        proof {
            lemma_name_insert_position(out@, x, j as int);
        }
        out.insert(j, x);
        i = i + 1;
    }
    assert(all.take(n as int) =~= all);
    let ghost sorted = out@;
    let mut kept: Vec<Profile> = Vec::new();
    let mut rest = out;
    let m = rest.len();
    let mut k: usize = 0;
    assert(sorted.skip(0) =~= sorted);
    assert(sorted.take(0) =~= Seq::<Profile>::empty());
    while rest.len() > 0
        invariant
            rest@.len() + k == m,
            m == sorted.len(),
            rest@ == sorted.skip(k as int),
            kept@ == deduped_by_name(sorted.take(k as int)),
            k > 0 ==> kept@.len() > 0 && kept@.last().name@ == sorted[k - 1].name@,
        decreases rest.len(),
    {
        let x = rest.remove(0);
        proof {
            assert(x == sorted[k as int]);
            assert(sorted.skip(k as int).remove(0) =~= sorted.skip(k + 1));
            assert(sorted.take(k + 1).drop_last() =~= sorted.take(k as int));
            if k > 0 {
                assert(sorted.take(k + 1)[k - 1] == sorted[k - 1]);
            }
        }
        let repeat = kept.len() > 0 && str_eq(kept[kept.len() - 1].name.as_str(), x.name.as_str());
        proof {
            if k == 0 {
                assert(kept@.len() == 0);
            }
        }
        if !repeat {
            kept.push(x);
        }
        k = k + 1;
    }
    assert(sorted.take(m as int) =~= sorted);
    kept
}

} // verus!
