//! The strong- and weak-scaling experiments: which program each
//! measurement runs, with which environment and arguments.

use vstd::prelude::*;
use vstd::string::StringExecFns;
use crate::naming::{
    lemma_runs_flag_reads_back, lemma_steps_flag_reads_back, runs_flag, runs_flag_text, steps_flag,
    steps_flag_text,
};
use crate::text::{decimal, decimal_string, lemma_decimal_numeral, lemma_numeral_parses, numeral_of, parsed_usize};

verus! {

/// Thread counts that both experiments measure.
pub open spec fn measured_thread_counts() -> Seq<usize> {
    seq![1usize, 2, 4, 8, 16]
}

/// Returns the thread counts that both experiments measure, in order.
pub fn thread_counts() -> (counts: Vec<usize>)
    ensures
        counts@ == measured_thread_counts(),
{
    let mut counts: Vec<usize> = Vec::new();
    counts.push(1);
    counts.push(2);
    counts.push(4);
    counts.push(8);
    counts.push(16);
    counts
}

/// Timed runs per thread count in the strong-scaling experiment: thirty
/// per configuration, for statistically meaningful means.
pub const STRONG_REPEATS: usize = 30;

/// Timed runs per thread count in the weak-scaling experiment.
pub const WEAK_REPEATS: usize = 30;

/// Simulations per thread in the weak-scaling experiment.
pub const WEAK_RUNS_PER_THREAD: usize = 1;

/// Integration steps of each simulation in the weak-scaling experiment.
pub const WEAK_STEPS: usize = 50000;

/// One run of a benchmark program: the program's path, the environment
/// variables set for it, and its arguments.
pub struct Invocation {
    pub program: String,
    pub env: Vec<(String, String)>,
    pub args: Vec<String>,
}

/// Path of the sequential program.
pub open spec fn sequential_program() -> Seq<char> {
    "./target/release/seq1"@
}

/// Path of the parallel program.
pub open spec fn parallel_program() -> Seq<char> {
    "./target/release/parallel1"@
}

/// The environment variable that bounds the parallel program's threads.
pub open spec fn thread_limit_variable() -> Seq<char> {
    "RAYON_NUM_THREADS"@
}

/// Whether `env` sets exactly one variable: the thread limit, to `threads`.
pub open spec fn sets_thread_limit(env: Seq<(String, String)>, threads: nat) -> bool {
    &&& env.len() == 1
    &&& env[0].0@ == thread_limit_variable()
    &&& env[0].1@ == decimal(threads)
}

/// An environment that sets the thread limit to `threads` sets exactly one
/// variable, `RAYON_NUM_THREADS`, to the shortest numeral of `threads`,
/// which the parallel program reads back as `threads`.
pub proof fn lemma_thread_limit_reads_back(env: Seq<(String, String)>, threads: nat)
    requires
        sets_thread_limit(env, threads),
    ensures
        env.len() == 1,
        env[0].0@ == "RAYON_NUM_THREADS"@,
        numeral_of(env[0].1@, threads, 1),
        threads <= usize::MAX ==> parsed_usize(env[0].1@) == Some(threads as usize),
{
    lemma_decimal_numeral(threads);
    if threads <= usize::MAX {
        lemma_numeral_parses(env[0].1@, threads, 1);
    }
}

/// Returns the environment that limits the parallel program to `threads` threads.
fn thread_limit_env(threads: usize) -> (env: Vec<(String, String)>)
    ensures
        sets_thread_limit(env@, threads as nat),
        env@.len() == 1,
        env@[0].0@ == "RAYON_NUM_THREADS"@,
        numeral_of(env@[0].1@, threads as nat, 1),
        parsed_usize(env@[0].1@) == Some(threads),
{
    let mut env: Vec<(String, String)> = Vec::new();
    env.push((String::from_str("RAYON_NUM_THREADS"), decimal_string(threads)));
    proof {
        lemma_thread_limit_reads_back(env@, threads as nat);
    }
    env
}

/// The invocation that the strong-scaling experiment times for `threads`
/// threads: the sequential program, with no settings, for one thread; the
/// parallel program, with its thread limit set, otherwise.
pub fn strong_scaling_invocation(threads: usize) -> (inv: Invocation)
    ensures
        threads == 1 ==> inv.program@ == sequential_program() && inv.env@.len() == 0,
        threads != 1 ==> inv.program@ == parallel_program() && sets_thread_limit(
            inv.env@,
            threads as nat,
        ),
        threads != 1 ==> inv.env@.len() == 1 && inv.env@[0].0@ == "RAYON_NUM_THREADS"@
            && numeral_of(inv.env@[0].1@, threads as nat, 1) && parsed_usize(inv.env@[0].1@)
            == Some(threads),
        inv.args@.len() == 0,
{
    if threads == 1 {
        Invocation {
            program: String::from_str("./target/release/seq1"),
            env: Vec::new(),
            args: Vec::new(),
        }
    } else {
        Invocation {
            program: String::from_str("./target/release/parallel1"),
            env: thread_limit_env(threads),
            args: Vec::new(),
        }
    }
}

/// Simulations that the weak-scaling experiment runs on `threads` threads:
/// the work grows with the threads.
pub open spec fn weak_scaling_runs(threads: nat, runs_per_thread: nat) -> nat {
    threads * runs_per_thread
}

/// Returns the number of simulations for `threads` threads.
pub fn weak_runs(threads: usize, runs_per_thread: usize) -> (runs: usize)
    requires
        threads * runs_per_thread <= usize::MAX,
    ensures
        runs == weak_scaling_runs(threads as nat, runs_per_thread as nat),
{
    threads * runs_per_thread
}

/// In the weak-scaling experiment the work per thread is the same for every
/// thread count.
pub proof fn lemma_weak_work_per_thread_constant(threads: nat, runs_per_thread: nat)
    requires
        threads > 0,
    ensures
        weak_scaling_runs(threads, runs_per_thread) / threads == runs_per_thread,
        weak_scaling_runs(threads, runs_per_thread) % threads == 0,
{
    vstd::arithmetic::div_mod::lemma_div_multiples_vanish(runs_per_thread as int, threads as int);
    vstd::arithmetic::div_mod::lemma_mod_multiples_basic(runs_per_thread as int, threads as int);
    vstd::arithmetic::mul::lemma_mul_is_commutative(threads as int, runs_per_thread as int);
}

/// In the weak-scaling experiment each thread integrates 50,000 steps: one
/// thread takes 50,000 steps in all, two take 100,000, four 200,000.
pub proof fn lemma_weak_steps_per_thread(threads: nat)
    ensures
        weak_scaling_runs(threads, WEAK_RUNS_PER_THREAD as nat) * WEAK_STEPS == threads * 50000,
{
}

/// The invocation that the weak-scaling experiment times for `threads`
/// threads: the parallel program, limited to `threads` threads, asked for
/// `threads * runs_per_thread` simulations of `steps` steps.
pub fn weak_scaling_invocation(threads: usize, runs_per_thread: usize, steps: usize) -> (inv: Invocation)
    requires
        threads * runs_per_thread <= usize::MAX,
    ensures
        inv.program@ == parallel_program(),
        sets_thread_limit(inv.env@, threads as nat),
        inv.args@.len() == 2,
        inv.args@[0]@ == runs_flag_text(weak_scaling_runs(threads as nat, runs_per_thread as nat)),
        inv.args@[1]@ == steps_flag_text(steps as nat),
        inv.env@.len() == 1,
        inv.env@[0].0@ == "RAYON_NUM_THREADS"@,
        numeral_of(inv.env@[0].1@, threads as nat, 1),
        parsed_usize(inv.env@[0].1@) == Some(threads),
        inv.args@[0]@.take(7) == "--runs="@,
        numeral_of(inv.args@[0]@.skip(7), (threads * runs_per_thread) as nat, 1),
        parsed_usize(inv.args@[0]@.skip(7)) == Some((threads * runs_per_thread) as usize),
        inv.args@[1]@.take(8) == "--steps="@,
        numeral_of(inv.args@[1]@.skip(8), steps as nat, 1),
        parsed_usize(inv.args@[1]@.skip(8)) == Some(steps),
{
    let runs = weak_runs(threads, runs_per_thread);
    let mut args: Vec<String> = Vec::new();
    args.push(runs_flag(runs));
    args.push(steps_flag(steps));
    Invocation {
        program: String::from_str("./target/release/parallel1"),
        env: thread_limit_env(threads),
        args,
    }
}

} // verus!
