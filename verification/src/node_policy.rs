//! Which profile checks each discovered Zod target when none is given.
use vstd::prelude::*;

use crate::builtin::{ANTHROPIC_PROFILE_ID, OPENAI_PROFILE_ID};
use crate::ingest::{owned_provider_of, DiscoveredModel, Provider, ProviderCertainty, ProviderResolution};
use crate::text::{concat3, owned, str_eq};

verus! {

/// Does some model settle on `p`?
pub open spec fn some_owned(models: Seq<DiscoveredModel>, p: Provider) -> bool {
    exists|i: int| 0 <= i < models.len() && owned_provider_of(#[trigger] models[i].provider) == Some(p)
}

fn any_owned(models: &Vec<DiscoveredModel>, p: Provider) -> (r: bool)
    ensures
        r == some_owned(models@, p),
{
    let mut i: usize = 0;
    while i < models.len()
        invariant
            i <= models.len(),
            forall|j: int| 0 <= j < i ==> owned_provider_of(#[trigger] models@[j].provider) != Some(p),
        decreases models.len() - i,
    {
        if models[i].provider.owned_provider() == Some(p) {
            return true;
        }
        i = i + 1;
    }
    false
}

/// The profiles selected automatically: OpenAI's when some target settles
/// on OpenAI, then Anthropic's when some target settles on Anthropic.
pub open spec fn automatic_ids(models: Seq<DiscoveredModel>) -> Seq<Seq<char>> {
    (if some_owned(models, Provider::Openai) {
        seq![OPENAI_PROFILE_ID@]
    } else {
        Seq::empty()
    }) + (if some_owned(models, Provider::Anthropic) {
        seq![ANTHROPIC_PROFILE_ID@]
    } else {
        Seq::empty()
    })
}

/// The profile IDs the discovered targets call for.
pub fn automatic_profile_ids(models: &Vec<DiscoveredModel>) -> (r: Vec<String>)
    ensures
        r@.map_values(|s: String| s@) == automatic_ids(models@),
{
    let mut r: Vec<String> = Vec::new();
    let openai = any_owned(models, Provider::Openai);
    let anthropic = any_owned(models, Provider::Anthropic);
    if openai {
        r.push(owned(OPENAI_PROFILE_ID));
    }
    if anthropic {
        r.push(owned(ANTHROPIC_PROFILE_ID));
    }
    assert(r@.map_values(|s: String| s@) =~= automatic_ids(models@));
    r
}

/// The one provider the targets settle on, when exactly one is.
pub open spec fn single_owned(models: Seq<DiscoveredModel>) -> Option<Provider> {
    let o = some_owned(models, Provider::Openai);
    let a = some_owned(models, Provider::Anthropic);
    if o && !a {
        Some(Provider::Openai)
    } else if a && !o {
        Some(Provider::Anthropic)
    } else {
        None
    }
}

/// The one provider the targets settle on, when exactly one is.
pub fn single_owned_provider(models: &Vec<DiscoveredModel>) -> (r: Option<Provider>)
    ensures
        r == single_owned(models@),
{
    let o = any_owned(models, Provider::Openai);
    let a = any_owned(models, Provider::Anthropic);
    if o && !a {
        Some(Provider::Openai)
    } else if a && !o {
        Some(Provider::Anthropic)
    } else {
        None
    }
}

/// The built-in profile of a provider.
pub open spec fn provider_profile(p: Provider) -> Seq<char> {
    match p {
        Provider::Openai => OPENAI_PROFILE_ID@,
        Provider::Anthropic => ANTHROPIC_PROFILE_ID@,
    }
}

/// The profile that checks a target, with the resolution reported for it:
/// a settled provider's own profile; for an ambiguous target, the profile of
/// the one provider the other targets settle on, reported as inferred.
pub open spec fn effective(r: ProviderResolution, inferred: Option<Provider>) -> Option<(Seq<char>, ProviderResolution)> {
    match owned_provider_of(r) {
        Some(p) => Some((provider_profile(p), r)),
        None => if r.certainty == ProviderCertainty::Ambiguous {
            match inferred {
                Some(p) => Some(
                    (provider_profile(p), ProviderResolution { certainty: ProviderCertainty::Inferred, provider: Some(p) }),
                ),
                None => None,
            }
        } else {
            None
        },
    }
}

fn profile_of(p: Provider) -> (r: &'static str)
    ensures
        r@ == provider_profile(p),
{
    match p {
        Provider::Openai => OPENAI_PROFILE_ID,
        Provider::Anthropic => ANTHROPIC_PROFILE_ID,
    }
}

/// The profile that checks `model`, given the provider the targets settle
/// on; `None` when its provider stays ambiguous.
pub fn effective_provider(model: &DiscoveredModel, inferred_provider: Option<Provider>) -> (r: Option<(&'static str, ProviderResolution)>)
    ensures
        match (r, effective(model.provider, inferred_provider)) {
            (Some(a), Some(b)) => a.0@ == b.0 && a.1 == b.1,
            (None, None) => true,
            _ => false,
        },
{
    match model.provider.owned_provider() {
        Some(p) => Some((profile_of(p), model.provider)),
        None => match model.provider.certainty {
            ProviderCertainty::Ambiguous => match inferred_provider {
                Some(p) => Some(
                    (profile_of(p), ProviderResolution { certainty: ProviderCertainty::Inferred, provider: Some(p) }),
                ),
                None => None,
            },
            _ => None,
        },
    }
}


/// The position of the first `x` in `s`.
pub open spec fn first_index(s: Seq<Seq<char>>, x: Seq<char>) -> Option<int> {
    if exists|i: int| 0 <= i < s.len() && s[i] == x {
        Some(choose|i: int| 0 <= i < s.len() && s[i] == x && forall|j: int| 0 <= j < i ==> s[j] != x)
    } else {
        None
    }
}

/// Which loaded profile checks a discovered target when no profile was
/// given, with the resolution reported for it; or why none does: its
/// provider stays ambiguous, or its provider's profile is not loaded.
pub open spec fn target_plan(model: DiscoveredModel, inferred: Option<Provider>, names: Seq<Seq<char>>) -> Result<(int, ProviderResolution), Seq<char>> {
    match effective(model.provider, inferred) {
        None => Err("provider is ambiguous for target kind '"@ + model.canonical_kind@ + "'; pass --profile explicitly"@),
        Some((id, res)) => match first_index(names, id) {
            None => Err("no ruleset loaded for provider profile '"@ + id + "'"@),
            Some(i) => Ok((i, res)),
        },
    }
}

/// Which of the loaded profiles (by name) checks `model`.
pub fn node_target_plan(model: &DiscoveredModel, inferred_provider: Option<Provider>, profile_names: &Vec<String>) -> (r: Result<(usize, ProviderResolution), String>)
    ensures
        match (r, target_plan(*model, inferred_provider, profile_names@.map_values(|s: String| s@))) {
            (Ok(a), Ok(b)) => a.0 == b.0 && a.1 == b.1,
            (Err(a), Err(b)) => a@ == b,
            _ => false,
        },
{
    let ghost names = profile_names@.map_values(|s: String| s@);
    let (id, resolution) = match effective_provider(model, inferred_provider) {
        Some(pair) => pair,
        None => {
            return Err(concat3("provider is ambiguous for target kind '", model.canonical_kind.as_str(), "'; pass --profile explicitly"));
        },
    };
    assert(effective(model.provider, inferred_provider) == Some((id@, resolution)));
    let mut i: usize = 0;
    while i < profile_names.len()
        invariant
            i <= profile_names.len(),
            names == profile_names@.map_values(|s: String| s@),
            forall|j: int| 0 <= j < i ==> names[j] != id@,
            effective(model.provider, inferred_provider) == Some((id@, resolution)),
        decreases profile_names.len() - i,
    {
        if str_eq(profile_names[i].as_str(), id) {
            proof {
                assert(names[i as int] == id@);
                let c = choose|c: int| 0 <= c < names.len() && names[c] == id@ && forall|j: int| 0 <= j < c ==> names[j] != id@;
                if c > i {
                    assert(names[i as int] != id@);
                }
                assert(first_index(names, id@) == Some(i as int));
            }
            return Ok((i, resolution));
        }
        i = i + 1;
    }
    Err(concat3("no ruleset loaded for provider profile '", id, "'"))
}

} // verus!
