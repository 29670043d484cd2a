//! The command line of the parallel simulation:
//! `parallel <num_runs> <dt> <steps>`, each argument optional.

use vstd::prelude::*;
use crate::text::{parse_usize, parsed_usize};

verus! {

/// Position of the number of independent runs on the command line.
pub const RUNS_ARG: usize = 1;

/// Position of the time step on the command line.
pub const DT_ARG: usize = 2;

/// Position of the number of integration steps on the command line.
pub const STEPS_ARG: usize = 3;

/// Number of integration steps when the command line gives none.
pub const DEFAULT_STEPS: usize = 60000;

/// The `usize` at position `index` of `args`, or `default` where `args` has
/// no argument there or the argument does not parse as a `usize`.
pub open spec fn usize_arg_or_default(args: Seq<String>, index: int, default: usize) -> usize {
    if 0 <= index < args.len() {
        match parsed_usize(args[index]@) {
            Some(v) => v,
            None => default,
        }
    } else {
        default
    }
}

/// Reads the argument at position `index` as a `usize`, falling back to
/// `default` where it is missing or malformed.
pub fn usize_arg_or(args: &Vec<String>, index: usize, default: usize) -> (r: usize)
    ensures
        r == usize_arg_or_default(args@, index as int, default),
{
    if index < args.len() {
        match parse_usize(args[index].as_str()) {
            Some(v) => v,
            None => default,
        }
    } else {
        default
    }
}

/// The integer settings of a run of the parallel simulation.
pub struct RunSettings {
    /// How many independent simulations run, one thread each.
    pub num_runs: usize,
    /// How many integration steps each simulation takes.
    pub steps: usize,
}

/// The settings that `args` asks for, with `default_runs` simulations
/// where it names no valid count.
pub fn settings_with_default_runs(args: &Vec<String>, default_runs: usize) -> (s: RunSettings)
    ensures
        s.num_runs == usize_arg_or_default(args@, RUNS_ARG as int, default_runs),
        s.steps == usize_arg_or_default(args@, STEPS_ARG as int, DEFAULT_STEPS),
{
    RunSettings {
        num_runs: usize_arg_or(args, RUNS_ARG, default_runs),
        steps: usize_arg_or(args, STEPS_ARG, DEFAULT_STEPS),
    }
}

/// Where the run count is missing or malformed, the default is used,
/// whatever else the command line holds: two command lines without a valid
/// run count get the same number of runs, the default.
pub proof fn lemma_runs_fallback_ignores_malformed(a: Seq<String>, b: Seq<String>, default: usize)
    requires
        !(RUNS_ARG < a.len() && parsed_usize(a[RUNS_ARG as int]@) is Some),
        !(RUNS_ARG < b.len() && parsed_usize(b[RUNS_ARG as int]@) is Some),
    ensures
        usize_arg_or_default(a, RUNS_ARG as int, default) == default,
        usize_arg_or_default(b, RUNS_ARG as int, default) == default,
{
}

/// Wraps `num_cpus::get`: the number of logical CPUs available to this
/// process. Its documentation promises at least one; which number comes back
/// depends on the machine, so nothing more is stated.
#[verifier::external_body]
fn available_cpus() -> (n: usize)
    ensures
        n >= 1,
{
    num_cpus::get()
}

/// The settings that `args` asks for; where it names no valid run count,
/// one simulation per available CPU.
pub fn run_settings(args: &Vec<String>) -> (s: RunSettings)
    ensures
        s.steps == usize_arg_or_default(args@, STEPS_ARG as int, DEFAULT_STEPS),
        (RUNS_ARG < args@.len() && parsed_usize(args@[RUNS_ARG as int]@) is Some) ==> Some(
            s.num_runs,
        ) == parsed_usize(args@[RUNS_ARG as int]@),
        !(RUNS_ARG < args@.len() && parsed_usize(args@[RUNS_ARG as int]@) is Some) ==> s.num_runs
            >= 1,
{
    let cpus = available_cpus();
    settings_with_default_runs(args, cpus)
}

} // verus!
