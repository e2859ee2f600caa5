//! Provider detection from a Node.js project's `package.json` dependencies.
use vstd::prelude::*;

use crate::json::{json_document, parse_json_text, JsonModel, JsonValue};
use crate::server::{get_member, member_of};
use crate::text::str_eq;

verus! {

/// Does the dependency table `deps` have a key among `names`?
pub open spec fn table_has(deps: Seq<(Seq<char>, JsonModel)>, names: Seq<Seq<char>>) -> bool {
    exists|i: int, j: int| #![trigger deps[i], names[j]] 0 <= i < deps.len() && 0 <= j < names.len() && deps[i].0 == names[j]
}

/// Does the dependency table `field` of `pkg` list one of `names`?
pub open spec fn lists_dependency(pkg: JsonModel, field: Seq<char>, names: Seq<Seq<char>>) -> bool {
    match member_of(pkg, field) {
        Some(JsonModel::Object(deps)) => table_has(deps, names),
        _ => false,
    }
}

/// Does `dependencies`, `devDependencies` or `peerDependencies` of `pkg`
/// list one of `names`?
pub open spec fn has_dependency(pkg: JsonModel, names: Seq<Seq<char>>) -> bool {
    lists_dependency(pkg, "dependencies"@, names) || lists_dependency(pkg, "devDependencies"@, names)
        || lists_dependency(pkg, "peerDependencies"@, names)
}

fn table_lists(pkg: &JsonValue, field: &str, names: &[&str]) -> (r: bool)
    ensures
        r == lists_dependency(pkg@, field@, names@.map_values(|n: &str| n@)),
{
    let ghost ns = names@.map_values(|n: &str| n@);
    match get_member(pkg, field) {
        Some(JsonValue::Object(deps)) => {
            proof {
                crate::json::lemma_object_model(*deps);
            }
            let ghost ms = crate::json::member_models(deps@);
            assert(member_of(pkg@, field@) == Some(JsonModel::Object(ms)));
            let mut i: usize = 0;
            while i < deps.len()
                invariant
                    i <= deps.len(),
                    ms == crate::json::member_models(deps@),
                    ns == names@.map_values(|n: &str| n@),
                    member_of(pkg@, field@) == Some(JsonModel::Object(ms)),
                    forall|a: int, b: int| #![trigger ms[a], ns[b]] 0 <= a < i && 0 <= b < ns.len() ==> ms[a].0 != ns[b],
                decreases deps.len() - i,
            {
                let mut j: usize = 0;
                while j < names.len()
                    invariant
                        i < deps.len(),
                        j <= names.len(),
                        ms == crate::json::member_models(deps@),
                        ns == names@.map_values(|n: &str| n@),
                        member_of(pkg@, field@) == Some(JsonModel::Object(ms)),
                        forall|a: int, b: int| #![trigger ms[a], ns[b]] 0 <= a < i && 0 <= b < ns.len() ==> ms[a].0 != ns[b],
                        forall|b: int| #![trigger ns[b]] 0 <= b < j ==> ms[i as int].0 != ns[b],
                    decreases names.len() - j,
                {
                    if str_eq(deps[i].0.as_str(), names[j]) {
                        assert(ms[i as int].0 == ns[j as int]);
                        assert(member_of(pkg@, field@) == Some(JsonModel::Object(ms)));
                        assert(table_has(ms, ns));
                        assert(lists_dependency(pkg@, field@, ns));
                        return true;
                    }
                    j = j + 1;
                }
                i = i + 1;
            }
            false
        },
        _ => false,
    }
}

/// Does any of the three dependency tables of `pkg` list one of `names`?
pub fn has_any_dependency(pkg: &JsonValue, names: &[&str]) -> (r: bool)
    ensures
        r == has_dependency(pkg@, names@.map_values(|n: &str| n@)),
{
    table_lists(pkg, "dependencies", names) || table_lists(pkg, "devDependencies", names) || table_lists(
        pkg,
        "peerDependencies",
        names,
    )
}

/// The package names of the OpenAI SDKs.
pub open spec fn openai_packages() -> Seq<Seq<char>> {
    seq!["openai"@, "@ai-sdk/openai"@]
}

/// The package names of the Anthropic SDKs.
pub open spec fn anthropic_packages() -> Seq<Seq<char>> {
    seq!["@anthropic-ai/sdk"@, "@ai-sdk/anthropic"@]
}

/// The providers a `package.json` text references: `openai`, then
/// `anthropic`, each when one of its SDKs is a dependency. No text, or a
/// text that is not JSON, references none.
pub open spec fn detected_providers(package_json: Option<Seq<char>>) -> Seq<Seq<char>> {
    match package_json {
        None => Seq::empty(),
        Some(text) => match json_document(text) {
            Err(_) => Seq::empty(),
            Ok(pkg) => (if has_dependency(pkg, openai_packages()) {
                seq!["openai"@]
            } else {
                Seq::empty()
            }) + (if has_dependency(pkg, anthropic_packages()) {
                seq!["anthropic"@]
            } else {
                Seq::empty()
            }),
        },
    }
}

/// Detect the LLM providers a project's `package.json` references, from the
/// text of the nearest one (`None` when there is none).
pub fn detect_providers_from_deps(package_json: Option<&str>) -> (r: Vec<&'static str>)
    ensures
        r@.map_values(|p: &str| p@) == detected_providers(
            match package_json {
                Some(t) => Some(t@),
                None => None,
            },
        ),
{
    let mut providers: Vec<&'static str> = Vec::new();
    let text = match package_json {
        Some(t) => t,
        None => {
            assert(providers@.map_values(|p: &str| p@) =~= Seq::<Seq<char>>::empty());
            return providers;
        },
    };
    let pkg = match parse_json_text(text) {
        Ok(v) => v,
        Err(_) => {
            assert(providers@.map_values(|p: &str| p@) =~= Seq::<Seq<char>>::empty());
            return providers;
        },
    };
    let openai: [&str; 2] = ["openai", "@ai-sdk/openai"];
    let anthropic: [&str; 2] = ["@anthropic-ai/sdk", "@ai-sdk/anthropic"];
    assert(openai@.map_values(|n: &str| n@) =~= openai_packages());
    assert(anthropic@.map_values(|n: &str| n@) =~= anthropic_packages());
    let o = has_any_dependency(&pkg, openai.as_slice());
    let a = has_any_dependency(&pkg, anthropic.as_slice());
    if o {
        providers.push("openai");
    }
    if a {
        providers.push("anthropic");
    }
    assert(providers@.map_values(|p: &str| p@) =~= detected_providers(Some(text@)));
    providers
}

} // verus!
