//! The run's configuration and the exit status that its outcome gives.
use vstd::prelude::*;

verus! {

/// The version bump that a comparison recommends.
#[derive(Clone, Copy, Debug, PartialEq, Eq, Structural)]
pub enum BumpKind {
    /// No change to the public interface.
    NoChange,
    Patch,
    Minor,
    /// A breaking change.
    Major,
}

/// How a run ended.
#[derive(Clone, Copy, Debug, PartialEq, Eq, Structural)]
pub enum RunOutcome {
    /// The command line was refused before compiling.
    InvalidArguments,
    /// The old and new crates could not be told apart.
    NoCratePair,
    /// The comparison ran and recommended this bump.
    Compared(BumpKind),
}

pub open spec fn is_breaking(b: BumpKind) -> bool {
    b == BumpKind::Major
}

/// Exit status: zero exactly when a comparison ran and found nothing breaking.
pub open spec fn exit_code_spec(o: RunOutcome) -> i32 {
    match o {
        RunOutcome::Compared(b) => if is_breaking(b) { 1 } else { 0 },
        _ => 1,
    }
}

/// Whether the recommended bump marks a breaking change.
pub fn breaking(b: BumpKind) -> (r: bool)
    ensures
        r == is_breaking(b),
{
    match b {
        BumpKind::Major => true,
        _ => false,
    }
}

/// The process's exit status for a run that ended with `o`.
pub fn exit_code(o: RunOutcome) -> (r: i32)
    ensures
        r == exit_code_spec(o),
{
    match o {
        RunOutcome::Compared(b) => if breaking(b) { 1 } else { 0 },
        _ => 1,
    }
}

/// Settings read once from the environment.
#[derive(Debug)]
pub struct RunConfig {
    /// Report every change, not only the summary.
    pub verbose: bool,
    /// Also report changes that the API guidelines call noteworthy.
    pub api_guidelines: bool,
    /// The version of the old crate, shown in the report.
    pub version: String,
}

/// A switch is on when its variable holds exactly `true`.
pub open spec fn switch_on(v: Option<String>) -> bool {
    match v {
        Some(s) => s@ == "true"@,
        None => false,
    }
}

/// The version shown where none was given.
pub open spec fn default_version() -> Seq<char> {
    "no_version"@
}

fn switch(v: &Option<String>) -> (r: bool)
    ensures
        r == switch_on(*v),
{
    match v {
        Some(s) => *s == String::from_str("true"),
        None => false,
    }
}

impl RunConfig {
    /// Builds the configuration from the values of the verbosity switch,
    /// the API-guidelines switch and the version label, where set.
    pub fn from_env_values(verbose: Option<String>, api_guidelines: Option<String>, version: Option<String>) -> (r: RunConfig)
        ensures
            r.verbose == switch_on(verbose),
            r.api_guidelines == switch_on(api_guidelines),
            r.version@ == (match version {
                Some(v) => v@,
                None => default_version(),
            }),
    {
        let v = switch(&verbose);
        let g = switch(&api_guidelines);
        let label = match version {
            Some(s) => s,
            None => String::from_str("no_version"),
        };
        RunConfig { verbose: v, api_guidelines: g, version: label }
    }
}

} // verus!
