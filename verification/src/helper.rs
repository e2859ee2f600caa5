//! The ingestion helpers (the Node and Python discovery subprocesses): their
//! errors, how their stderr is attached to an error, and which command
//! starts them.
use vstd::prelude::*;

use crate::text::{concat2, concat3, decimal, decimal_text, owned};

verus! {

/// Errors produced by Node helper operations.
#[derive(Debug, Clone, PartialEq, Eq)]
pub enum NodeError {
    NotInstalled(String),
    SpawnFailed(String),
    RequestFailed(String),
    Timeout(u64),
    InvalidResponse(String),
    DiscoverFailed(String),
}

/// The text of a Node helper error.
pub open spec fn node_error_text(e: NodeError) -> Seq<char> {
    match e {
        NodeError::NotInstalled(s) => "npx not found; tried "@ + s@,
        NodeError::SpawnFailed(s) => "failed to spawn node helper: "@ + s@,
        NodeError::RequestFailed(s) => "failed to communicate with node helper: "@ + s@,
        NodeError::Timeout(n) => "discover request timed out after "@ + decimal(n as nat) + "s"@,
        NodeError::InvalidResponse(s) => "invalid response from node helper: "@ + s@,
        NodeError::DiscoverFailed(s) => "discovery failed: "@ + s@,
    }
}

impl NodeError {
    /// The error's text.
    pub fn message(&self) -> (r: String)
        ensures
            r@ == node_error_text(*self),
    {
        match self {
            NodeError::NotInstalled(s) => concat2("npx not found; tried ", s.as_str()),
            NodeError::SpawnFailed(s) => concat2("failed to spawn node helper: ", s.as_str()),
            NodeError::RequestFailed(s) => concat2("failed to communicate with node helper: ", s.as_str()),
            NodeError::Timeout(n) => {
                let digits = u64_text(*n);
                concat3("discover request timed out after ", digits.as_str(), "s")
            },
            NodeError::InvalidResponse(s) => concat2("invalid response from node helper: ", s.as_str()),
            NodeError::DiscoverFailed(s) => concat2("discovery failed: ", s.as_str()),
        }
    }
}

/// Errors produced by Python helper operations.
#[derive(Debug, Clone, PartialEq, Eq)]
pub enum PythonError {
    NotInstalled(String),
    SpawnFailed(String),
    RequestFailed(String),
    Timeout(u64),
    InvalidResponse(String),
    DiscoverFailed(String),
}

/// The text of a Python helper error.
pub open spec fn python_error_text(e: PythonError) -> Seq<char> {
    match e {
        PythonError::NotInstalled(s) => "python interpreter not found: tried "@ + s@,
        PythonError::SpawnFailed(s) => "failed to spawn python helper: "@ + s@,
        PythonError::RequestFailed(s) => "failed to communicate with python helper: "@ + s@,
        PythonError::Timeout(n) => "discover request timed out after "@ + decimal(n as nat) + "s"@,
        PythonError::InvalidResponse(s) => "invalid response from python helper: "@ + s@,
        PythonError::DiscoverFailed(s) => "discovery failed: "@ + s@,
    }
}

impl PythonError {
    /// The error's text.
    pub fn message(&self) -> (r: String)
        ensures
            r@ == python_error_text(*self),
    {
        match self {
            PythonError::NotInstalled(s) => concat2("python interpreter not found: tried ", s.as_str()),
            PythonError::SpawnFailed(s) => concat2("failed to spawn python helper: ", s.as_str()),
            PythonError::RequestFailed(s) => concat2("failed to communicate with python helper: ", s.as_str()),
            PythonError::Timeout(n) => {
                let digits = u64_text(*n);
                concat3("discover request timed out after ", digits.as_str(), "s")
            },
            PythonError::InvalidResponse(s) => concat2("invalid response from python helper: ", s.as_str()),
            PythonError::DiscoverFailed(s) => concat2("discovery failed: ", s.as_str()),
        }
    }
}

/// The decimal text of a `u64`.
fn u64_text(n: u64) -> (r: String)
    ensures
        r@ == decimal(n as nat),
    decreases n,
{
    if n < 10 {
        decimal_text(n as usize)
    } else {
        let mut r = u64_text(n / 10);
        let last = decimal_text((n % 10) as usize);
        r.append(last.as_str());
        proof {
            assert(decimal((n % 10) as nat) == seq![crate::text::digit((n % 10) as int)]);
        }
        r
    }
}

/// The texts joined with `sep` between them.
pub open spec fn joined(lines: Seq<Seq<char>>, sep: Seq<char>) -> Seq<char>
    decreases lines.len(),
{
    if lines.len() == 0 {
        Seq::empty()
    } else if lines.len() == 1 {
        lines[0]
    } else {
        joined(lines.drop_last(), sep) + sep + lines.last()
    }
}

/// The helper's stderr as it is attached to an error: all of it, or the
/// last ten lines when there are more.
pub open spec fn stderr_tail(runtime: Seq<char>, lines: Seq<Seq<char>>) -> Seq<char> {
    if lines.len() > 10 {
        "\n--- "@ + runtime + " stderr (last 10 of "@ + decimal(lines.len()) + " lines) ---\n"@
            + joined(lines.skip(lines.len() - 10), "\n"@) + "\n--- end stderr ---"@
    } else {
        "\n--- "@ + runtime + " stderr ---\n"@ + joined(lines, "\n"@) + "\n--- end stderr ---"@
    }
}

fn join_lines(lines: &Vec<String>, from: usize, sep: &str) -> (r: String)
    requires
        from <= lines.len(),
    ensures
        r@ == joined(lines@.skip(from as int).map_values(|s: String| s@), sep@),
{
    let ghost all = lines@.map_values(|s: String| s@);
    let mut r = String::new();
    let mut i: usize = from;
    while i < lines.len()
        invariant
            from <= i <= lines.len(),
            all == lines@.map_values(|s: String| s@),
            r@ == joined(all.subrange(from as int, i as int), sep@),
        decreases lines.len() - i,
    {
        let ghost before = r@;
        if i > from {
            r.append(sep);
        }
        r.append(lines[i].as_str());
        proof {
            let next = all.subrange(from as int, i + 1);
            assert(next.drop_last() =~= all.subrange(from as int, i as int));
            if i == from {
                assert(before == Seq::<char>::empty());
                assert(r@ =~= next[0]);
            } else {
                assert(r@ =~= before + sep@ + next.last());
            }
        }
        i = i + 1;
    }
    assert(all.subrange(from as int, lines.len() as int) =~= lines@.skip(from as int).map_values(|s: String| s@));
    r
}

/// The helper's stderr as it is attached to an error.
pub fn stderr_tail_text(runtime: &str, lines: &Vec<String>) -> (r: String)
    ensures
        r@ == stderr_tail(runtime@, lines@.map_values(|s: String| s@)),
{
    let ghost all = lines@.map_values(|s: String| s@);
    if lines.len() > 10 {
        let count = decimal_text(lines.len());
        let body = join_lines(lines, lines.len() - 10, "\n");
        let a = concat3("\n--- ", runtime, " stderr (last 10 of ");
        let b = concat3(a.as_str(), count.as_str(), " lines) ---\n");
        let r = concat3(b.as_str(), body.as_str(), "\n--- end stderr ---");
        assert(lines@.skip(lines.len() - 10).map_values(|s: String| s@) =~= all.skip(all.len() - 10));
        r
    } else {
        let body = join_lines(lines, 0, "\n");
        assert(lines@.skip(0) =~= lines@);
        let a = concat3("\n--- ", runtime, " stderr ---\n");
        concat3(a.as_str(), body.as_str(), "\n--- end stderr ---")
    }
}

/// Attach the helper's stderr `lines` to a Node error: the error, and the
/// line to log when the stderr is not part of the error.
pub fn augment_node_error(err: NodeError, lines: &Vec<String>) -> (r: (NodeError, Option<String>))
    ensures
        lines.len() == 0 ==> r.0 == err && r.1 is None,
        lines.len() > 0 ==> match err {
            NodeError::DiscoverFailed(m) => (r.0 matches NodeError::DiscoverFailed(n) && n@ == m@ + stderr_tail("Node"@, lines@.map_values(|s: String| s@))) && r.1 is None,
            NodeError::InvalidResponse(m) => (r.0 matches NodeError::InvalidResponse(n) && n@ == m@ + stderr_tail("Node"@, lines@.map_values(|s: String| s@))) && r.1 is None,
            NodeError::Timeout(_) => r.0 == err && (r.1 matches Some(l) && l@ == "[schemalint-zod] Node stderr during timeout:\n"@ + stderr_tail("Node"@, lines@.map_values(|s: String| s@))),
            _ => r.0 == err && (r.1 matches Some(l) && l@ == "[schemalint-zod] Node stderr during error:\n"@ + stderr_tail("Node"@, lines@.map_values(|s: String| s@))),
        },
{
    if lines.len() == 0 {
        return (err, None);
    }
    let tail = stderr_tail_text("Node", lines);
    match err {
        NodeError::DiscoverFailed(m) => (NodeError::DiscoverFailed(concat2(m.as_str(), tail.as_str())), None),
        NodeError::InvalidResponse(m) => (NodeError::InvalidResponse(concat2(m.as_str(), tail.as_str())), None),
        NodeError::Timeout(n) => (NodeError::Timeout(n), Some(concat2("[schemalint-zod] Node stderr during timeout:\n", tail.as_str()))),
        other => (other, Some(concat2("[schemalint-zod] Node stderr during error:\n", tail.as_str()))),
    }
}

/// Attach the helper's stderr `lines` to a Python error: appended to
/// discovery and response failures; other errors stay as they are.
pub fn augment_python_error(err: PythonError, lines: &Vec<String>) -> (r: PythonError)
    ensures
        lines.len() == 0 ==> r == err,
        lines.len() > 0 ==> match err {
            PythonError::DiscoverFailed(m) => (r matches PythonError::DiscoverFailed(n) && n@ == m@ + stderr_tail("Python"@, lines@.map_values(|s: String| s@))),
            PythonError::InvalidResponse(m) => (r matches PythonError::InvalidResponse(n) && n@ == m@ + stderr_tail("Python"@, lines@.map_values(|s: String| s@))),
            _ => r == err,
        },
{
    if lines.len() == 0 {
        return err;
    }
    let tail = stderr_tail_text("Python", lines);
    match err {
        PythonError::DiscoverFailed(m) => PythonError::DiscoverFailed(concat2(m.as_str(), tail.as_str())),
        PythonError::InvalidResponse(m) => PythonError::InvalidResponse(concat2(m.as_str(), tail.as_str())),
        other => other,
    }
}

/// The Python interpreter to start: the given one, else the first of
/// `python3` and `python` that answers the probe; the error lists the names
/// tried.
pub fn resolve_python<F: Fn(&str) -> bool>(python_path: Option<&str>, probe: F) -> (r: Result<String, PythonError>)
    requires
        forall|c: &str| probe.requires((c,)),
    ensures
        match python_path {
            Some(p) => (r matches Ok(s) && s@ == p@),
            None => match r {
                Ok(s) => (s@ == "python3"@ && probe.ensures(("python3",), true)) || (s@ == "python"@ && probe.ensures(("python3",), false) && probe.ensures(("python",), true)),
                Err(e) => (e matches PythonError::NotInstalled(t) && t@ == "python3, python"@) && probe.ensures(("python3",), false) && probe.ensures(("python",), false),
            },
        },
{
    if let Some(p) = python_path {
        return Ok(owned(p));
    }
    if probe("python3") {
        return Ok(owned("python3"));
    }
    if probe("python") {
        return Ok(owned("python"));
    }
    Err(PythonError::NotInstalled(owned("python3, python")))
}

/// The `tsx` runner: the workspace's own `tsx` when it answers the probe,
/// else `tsx`, else `npx tsx`.
pub fn resolve_tsx_cmd<F: Fn(&str) -> bool>(local_tsx: Option<&str>, probe: F) -> (r: Result<(String, Vec<String>), NodeError>)
    requires
        forall|c: &str| probe.requires((c,)),
    ensures
        match r {
            Ok((runner, args)) => {
                ||| (local_tsx matches Some(l) && (runner@ == l@ && args@.len() == 0 && probe.ensures((l,), true)))
                ||| (runner@ == "tsx"@ && args@.len() == 0 && probe.ensures(("tsx",), true))
                ||| (runner@ == "npx"@ && args@.len() == 1 && args@[0]@ == "tsx"@ && probe.ensures(("tsx",), false)
                    && probe.ensures(("npx",), true))
            },
            Err(e) => (e matches NodeError::NotInstalled(t) && t@ == "tsx or npx not found - install tsx via: npm install -g tsx"@)
                && probe.ensures(("tsx",), false) && probe.ensures(("npx",), false),
        },
{
    if let Some(l) = local_tsx {
        if probe(l) {
            return Ok((owned(l), Vec::new()));
        }
    }
    if probe("tsx") {
        return Ok((owned("tsx"), Vec::new()));
    }
    if probe("npx") {
        let mut args: Vec<String> = Vec::new();
        args.push(owned("tsx"));
        return Ok((owned("npx"), args));
    }
    Err(NodeError::NotInstalled(owned("tsx or npx not found - install tsx via: npm install -g tsx")))
}


/// The plain content of a runner answer.
pub open spec fn runner_view(r: Result<(String, Vec<String>), NodeError>) -> Result<(Seq<char>, Seq<Seq<char>>), NodeError> {
    match r {
        Ok((runner, args)) => Ok((runner@, args@.map_values(|a: String| a@))),
        Err(e) => Err(e),
    }
}

/// The command that starts the Node helper: an explicit executable runs
/// the compiled helper, else the source helper; otherwise `node` runs the
/// compiled helper, else the `tsx` runner runs the source helper.
/// `source_bin` and `tsx` look up the source helper and the `tsx` runner;
/// each is asked at most once, and only when needed.
pub fn node_command<S: Fn() -> Result<String, NodeError>, T: Fn() -> Result<(String, Vec<String>), NodeError>>(
    node_path: Option<&str>,
    compiled_bin: Option<&str>,
    source_bin: S,
    tsx: T,
) -> (r: Result<(String, Vec<String>), NodeError>)
    requires
        source_bin.requires(()),
        tsx.requires(()),
    ensures
        match compiled_bin {
            Some(c) => runner_view(r) == Ok::<(Seq<char>, Seq<Seq<char>>), NodeError>(
                (
                    match node_path {
                        Some(p) => p@,
                        None => "node"@,
                    },
                    seq![c@],
                ),
            ),
            None => exists|sb: Result<String, NodeError>|
                source_bin.ensures((), sb) && match sb {
                    Err(e) => r == Err::<(String, Vec<String>), NodeError>(e),
                    Ok(b) => match node_path {
                        Some(p) => runner_view(r) == Ok::<(Seq<char>, Seq<Seq<char>>), NodeError>((p@, seq![b@])),
                        None => exists|tr: Result<(String, Vec<String>), NodeError>|
                            tsx.ensures((), tr) && match tr {
                                Err(e) => r == Err::<(String, Vec<String>), NodeError>(e),
                                Ok((run, extra)) => runner_view(r) == Ok::<(Seq<char>, Seq<Seq<char>>), NodeError>(
                                    (run@, extra@.map_values(|a: String| a@).push(b@)),
                                ),
                            },
                    },
                },
        },
{
    match compiled_bin {
        Some(c) => {
            let runner = match node_path {
                Some(p) => owned(p),
                None => owned("node"),
            };
            let mut args: Vec<String> = Vec::new();
            args.push(owned(c));
            assert(args@.map_values(|a: String| a@) =~= seq![c@]);
            Ok((runner, args))
        },
        None => {
            let sb = source_bin();
            let ghost sb0 = sb;
            match sb {
                Err(e) => Err(e),
                Ok(b) => match node_path {
                    Some(p) => {
                        let mut args: Vec<String> = Vec::new();
                        args.push(owned(b.as_str()));
                        assert(args@.map_values(|a: String| a@) =~= seq![b@]);
                        Ok((owned(p), args))
                    },
                    None => {
                        let tr = tsx();
                        let ghost tr0 = tr;
                        match tr {
                            Err(e) => Err(e),
                            Ok((runner, extra)) => {
                                let mut args = extra;
                                let ghost before = args@;
                                args.push(owned(b.as_str()));
                                assert(args@.map_values(|a: String| a@) =~= before.map_values(|a: String| a@).push(b@));
                                let r = Ok((runner, args));
                                assert(tsx.ensures((), tr0));
                                r
                            },
                        }
                    },
                },
            }
        },
    }
}

/// The text of a failure to start a helper: the command line and the error.
pub fn spawn_failure_message(runner: &str, args: &Vec<String>, error: &str) -> (r: String)
    ensures
        r@ == "failed to start '"@ + runner@ + " "@ + joined(args@.map_values(|a: String| a@), " "@) + "': "@ + error@,
{
    let joined_args = join_lines(args, 0, " ");
    assert(args@.skip(0) =~= args@);
    let a = concat3("failed to start '", runner, " ");
    let b = concat3(a.as_str(), joined_args.as_str(), "': ");
    concat2(b.as_str(), error)
}

} // verus!
