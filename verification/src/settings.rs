//! What a check runs with: the project configuration (`package.json` or
//! `pyproject.toml`) with the command-line flags on top.
use vstd::prelude::*;

use crate::args::OutputFormat;
use crate::text::owned;

verus! {

/// Configuration from the `"schemalint"` field in `package.json`.
#[derive(Debug, Clone, PartialEq, Eq)]
pub struct NodeConfig {
    pub profiles: Vec<String>,
    pub sources: Vec<String>,
    pub exclude: Vec<String>,
    /// Severity overrides by rule code.
    pub severity: Vec<(String, String)>,
}

/// Configuration from `[tool.schemalint]` in `pyproject.toml`.
#[derive(Debug, Clone, PartialEq, Eq)]
pub struct PyProjectConfig {
    pub profiles: Vec<String>,
    pub packages: Vec<String>,
    pub exclude: Vec<String>,
    /// Severity overrides by rule code.
    pub severity: Vec<(String, String)>,
}

/// The views of a vector of strings.
pub open spec fn texts(v: Seq<String>) -> Seq<Seq<char>> {
    v.map_values(|s: String| s@)
}

/// A copy of a vector of strings.
pub fn clone_strings(v: &Vec<String>) -> (r: Vec<String>)
    ensures
        texts(r@) == texts(v@),
{
    let mut r: Vec<String> = Vec::new();
    let mut i: usize = 0;
    while i < v.len()
        invariant
            i <= v.len(),
            texts(r@) == texts(v@).take(i as int),
        decreases v.len() - i,
    {
        let ghost before = r@;
        r.push(owned(v[i].as_str()));
        assert(texts(r@) =~= texts(before).push(v@[i as int]@));
        assert(texts(v@).take(i + 1) =~= texts(v@).take(i as int).push(v@[i as int]@));
        i = i + 1;
    }
    assert(texts(v@).take(v.len() as int) =~= texts(v@));
    r
}

/// A flag's values when given, else the configured ones, else none.
pub open spec fn layered(flag: Seq<Seq<char>>, configured: Option<Seq<Seq<char>>>) -> Seq<Seq<char>> {
    if flag.len() > 0 {
        flag
    } else {
        match configured {
            Some(c) => c,
            None => Seq::empty(),
        }
    }
}

fn layer(flag: &Vec<String>, configured: Option<&Vec<String>>) -> (r: Vec<String>)
    ensures
        texts(r@) == layered(
            texts(flag@),
            match configured {
                Some(c) => Some(texts(c@)),
                None => None,
            },
        ),
{
    if flag.len() > 0 {
        clone_strings(flag)
    } else {
        match configured {
            Some(c) => clone_strings(c),
            None => {
                let r: Vec<String> = Vec::new();
                assert(texts(r@) =~= Seq::<Seq<char>>::empty());
                r
            },
        }
    }
}

/// The targets, profiles and exclusions a check runs with.
#[derive(Debug, Clone, PartialEq, Eq)]
pub struct Settings {
    pub targets: Vec<String>,
    pub profiles: Vec<String>,
    pub excludes: Vec<String>,
}

/// The settings of `check-node`: each flag given wins over the
/// `package.json` configuration; without any source, the check cannot run.
pub fn node_settings(sources: &Vec<String>, profiles: &Vec<String>, excludes: &Vec<String>, config: Option<&NodeConfig>) -> (r: Result<Settings, String>)
    ensures
        ({
            let t = layered(texts(sources@), match config { Some(c) => Some(texts(c.sources@)), None => None });
            let p = layered(texts(profiles@), match config { Some(c) => Some(texts(c.profiles@)), None => None });
            let x = layered(texts(excludes@), match config { Some(c) => Some(texts(c.exclude@)), None => None });
            match r {
                Ok(s) => t.len() > 0 && texts(s.targets@) == t && texts(s.profiles@) == p && texts(s.excludes@) == x,
                Err(m) => t.len() == 0 && m@ == "no sources specified. Use --source or configure \"schemalint\" in package.json"@,
            }
        }),
{
    let targets = layer(sources, match config {
        Some(c) => Some(&c.sources),
        None => None,
    });
    let chosen_profiles = layer(profiles, match config {
        Some(c) => Some(&c.profiles),
        None => None,
    });
    let chosen_excludes = layer(excludes, match config {
        Some(c) => Some(&c.exclude),
        None => None,
    });
    if targets.len() == 0 {
        return Err(owned("no sources specified. Use --source or configure \"schemalint\" in package.json"));
    }
    Ok(Settings { targets, profiles: chosen_profiles, excludes: chosen_excludes })
}

/// The settings of `check-python`: each flag given wins over the
/// `pyproject.toml` configuration; without packages, or without profiles,
/// the check fails with the target and message given.
pub fn python_settings(packages: &Vec<String>, profiles: &Vec<String>, excludes: &Vec<String>, config: Option<&PyProjectConfig>) -> (r: Result<Settings, (String, String)>)
    ensures
        ({
            let t = layered(texts(packages@), match config { Some(c) => Some(texts(c.packages@)), None => None });
            let p = layered(texts(profiles@), match config { Some(c) => Some(texts(c.profiles@)), None => None });
            let x = layered(texts(excludes@), match config { Some(c) => Some(texts(c.exclude@)), None => None });
            match r {
                Ok(s) => t.len() > 0 && p.len() > 0 && texts(s.targets@) == t && texts(s.profiles@) == p && texts(s.excludes@) == x,
                Err((target, m)) => if t.len() == 0 {
                    target@ == "packages"@ && m@ == "no packages specified. Use --package or configure [tool.schemalint] in pyproject.toml"@
                } else {
                    p.len() == 0 && target@ == "profiles"@ && m@ == "no profiles specified. Use --profile or configure [tool.schemalint] in pyproject.toml"@
                },
            }
        }),
{
    let targets = layer(packages, match config {
        Some(c) => Some(&c.packages),
        None => None,
    });
    let chosen_profiles = layer(profiles, match config {
        Some(c) => Some(&c.profiles),
        None => None,
    });
    let chosen_excludes = layer(excludes, match config {
        Some(c) => Some(&c.exclude),
        None => None,
    });
    if targets.len() == 0 {
        return Err((owned("packages"), owned("no packages specified. Use --package or configure [tool.schemalint] in pyproject.toml")));
    }
    if chosen_profiles.len() == 0 {
        return Err((owned("profiles"), owned("no profiles specified. Use --profile or configure [tool.schemalint] in pyproject.toml")));
    }
    Ok(Settings { targets, profiles: chosen_profiles, excludes: chosen_excludes })
}

/// The output format: the one asked for, else human-readable on a terminal
/// and JSON otherwise.
pub fn choose_format(asked: Option<OutputFormat>, stdout_is_terminal: bool) -> (r: OutputFormat)
    ensures
        r == match asked {
            Some(f) => f,
            None => if stdout_is_terminal {
                OutputFormat::Human
            } else {
                OutputFormat::Json
            },
        },
{
    match asked {
        Some(f) => f,
        None => if stdout_is_terminal {
            OutputFormat::Human
        } else {
            OutputFormat::Json
        },
    }
}

} // verus!
