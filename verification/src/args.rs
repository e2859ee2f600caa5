//! The command line of schemalint, as plain data.
use vstd::prelude::*;

use crate::text::str_eq;

verus! {

/// The output formats a check can write.
#[derive(Clone, Copy, Debug, PartialEq, Eq, Structural)]
pub enum OutputFormat {
    /// Human-readable rustc-style output
    Human,
    /// Structured JSON output
    Json,
    /// SARIF v2.1.0 output
    Sarif,
    /// GitHub Actions workflow commands
    Gha,
    /// JUnit XML output
    Junit,
}

impl OutputFormat {
    /// The format's name on the command line.
    pub open spec fn spec_name(self) -> Seq<char> {
        match self {
            OutputFormat::Human => "human"@,
            OutputFormat::Json => "json"@,
            OutputFormat::Sarif => "sarif"@,
            OutputFormat::Gha => "gha"@,
            OutputFormat::Junit => "junit"@,
        }
    }

    /// The format's name on the command line.
    pub fn name(self) -> (r: &'static str)
        ensures
            r@ == self.spec_name(),
    {
        match self {
            OutputFormat::Human => "human",
            OutputFormat::Json => "json",
            OutputFormat::Sarif => "sarif",
            OutputFormat::Gha => "gha",
            OutputFormat::Junit => "junit",
        }
    }

    /// The format with a given command-line name.
    pub fn from_name(name: &str) -> (r: Option<OutputFormat>)
        ensures
            match r {
                Some(f) => f.spec_name() == name@,
                None => forall|f: OutputFormat| f.spec_name() != name@,
            },
    {
        proof {
            reveal_strlit("human");
            reveal_strlit("json");
            reveal_strlit("sarif");
            reveal_strlit("gha");
            reveal_strlit("junit");
        }
        if str_eq(name, "human") {
            Some(OutputFormat::Human)
        } else if str_eq(name, "json") {
            Some(OutputFormat::Json)
        } else if str_eq(name, "sarif") {
            Some(OutputFormat::Sarif)
        } else if str_eq(name, "gha") {
            Some(OutputFormat::Gha)
        } else if str_eq(name, "junit") {
            Some(OutputFormat::Junit)
        } else {
            None
        }
    }
}

/// Arguments of `schemalint check`.
#[derive(Debug)]
pub struct CheckArgs {
    /// Built-in profile IDs, provider aliases or paths to TOML profiles.
    pub profiles: Vec<String>,
    pub format: Option<OutputFormat>,
    /// Write output to this file instead of stdout.
    pub output: Option<String>,
    /// Exclude matching files or directories before checking.
    pub excludes: Vec<String>,
    /// Schema files or directories to check.
    pub paths: Vec<String>,
}

/// Arguments of `schemalint profiles`.
#[derive(Debug)]
pub struct ProfilesArgs {}

/// Arguments of `schemalint server`.
#[derive(Debug)]
pub struct ServerArgs {}

/// Arguments of `schemalint check-python`.
#[derive(Debug)]
pub struct CheckPythonArgs {
    /// Python package names to discover Pydantic models from.
    pub packages: Vec<String>,
    pub profiles: Vec<String>,
    /// Path to pyproject.toml.
    pub config: Option<String>,
    /// Path to the Python executable.
    pub python_path: Option<String>,
    pub format: Option<OutputFormat>,
    pub output: Option<String>,
    /// Exclude matching packages or modules before importing them.
    pub excludes: Vec<String>,
    /// Continue discovering remaining packages after a discovery failure.
    pub continue_on_discovery_error: bool,
}

/// Arguments of `schemalint check-node`.
#[derive(Debug)]
pub struct CheckNodeArgs {
    /// TypeScript source globs to discover Zod schemas from.
    pub sources: Vec<String>,
    pub profiles: Vec<String>,
    /// Path to package.json.
    pub config: Option<String>,
    /// Path to the Node/tsx executable.
    pub node_path: Option<String>,
    pub format: Option<OutputFormat>,
    pub output: Option<String>,
    /// Exclude matching source files before importing them.
    pub excludes: Vec<String>,
    /// Continue discovering remaining source globs after a discovery failure.
    pub continue_on_discovery_error: bool,
}

/// The subcommands of schemalint.
#[derive(Debug)]
pub enum Commands {
    /// Check JSON Schemas against a capability profile
    Check(CheckArgs),
    /// Check Pydantic models via Python subprocess
    CheckPython(CheckPythonArgs),
    /// Check Zod schemas via Node.js subprocess
    CheckNode(CheckNodeArgs),
    /// List built-in capability profiles and their provider aliases
    Profiles(ProfilesArgs),
    /// Start JSON-RPC server mode
    Server(ServerArgs),
}

/// A parsed command line.
#[derive(Debug)]
pub struct Cli {
    pub command: Commands,
}

} // verus!
