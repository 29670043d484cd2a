//! Names that the simulation and its experiments write: trajectory files
//! and command-line flags.

use vstd::prelude::*;
use vstd::string::StringExecFns;
use crate::text::{
    decimal, decimal_string, lemma_decimal_numeral, lemma_numeral_parses, lemma_zero_pad_injective,
    lemma_zero_pad_numeral, numeral_of, parsed_usize, string_from_chars, zero_pad, zero_padded_decimal,
};

verus! {

/// The file name of the trajectory of run `i`: `traj_`, the run's number
/// padded with zeros to three digits, and `.csv` (as `format!("traj_{:03}.csv", i)`).
pub open spec fn trajectory_name(i: nat) -> Seq<char> {
    "traj_"@ + zero_pad(decimal(i), 3) + ".csv"@
}

/// Returns the file name under which run `i` writes its trajectory.
pub fn trajectory_file_name(i: usize) -> (name: String)
    ensures
        name@ == trajectory_name(i as nat),
        name@.len() >= 12,
        name@.take(5) == "traj_"@,
        name@.skip(name@.len() - 4) == ".csv"@,
        numeral_of(name@.subrange(5, name@.len() - 4), i as nat, 3),
        parsed_usize(name@.subrange(5, name@.len() - 4)) == Some(i),
{
    proof {
        lemma_trajectory_name_numeral(i as nat);
        let n = trajectory_name(i as nat);
        lemma_numeral_parses(n.subrange(5, n.len() - 4), i as nat, 3);
    }
    let number = string_from_chars(&zero_padded_decimal(i, 3));
    let mut name = String::from_str("traj_");
    name.append(number.as_str());
    name.append(".csv");
    name
}

/// The name of the trajectory of run `i` is `traj_`, then the number `i`
/// written with three digits or, where `i` needs more, with just the digits
/// it needs, then `.csv`.
pub proof fn lemma_trajectory_name_numeral(i: nat)
    ensures
        trajectory_name(i).len() >= 12,
        trajectory_name(i).take(5) == "traj_"@,
        trajectory_name(i).skip(trajectory_name(i).len() - 4) == ".csv"@,
        numeral_of(trajectory_name(i).subrange(5, trajectory_name(i).len() - 4), i, 3),
{
    reveal_strlit("traj_");
    reveal_strlit(".csv");
    lemma_zero_pad_numeral(i, 3);
    let a = zero_pad(decimal(i), 3);
    let n = trajectory_name(i);
    assert(n.take(5) =~= "traj_"@);
    assert(n.skip(n.len() - 4) =~= ".csv"@);
    assert(n.subrange(5, n.len() - 4) =~= a);
}

/// Different runs write different trajectory files.
pub proof fn lemma_trajectory_names_distinct(i: nat, j: nat)
    requires
        i != j,
    ensures
        trajectory_name(i) != trajectory_name(j),
{
    reveal_strlit("traj_");
    reveal_strlit(".csv");
    if trajectory_name(i) == trajectory_name(j) {
        let a = zero_pad(decimal(i), 3);
        let b = zero_pad(decimal(j), 3);
        let n = trajectory_name(i);
        assert(n.subrange(5, n.len() - 4) =~= a);
        assert(trajectory_name(j).subrange(5, n.len() - 4) =~= b);
        lemma_zero_pad_injective(i, j, 3);
    }
}

/// The flag that asks the parallel program for `runs` simulations.
pub open spec fn runs_flag_text(runs: nat) -> Seq<char> {
    "--runs="@ + decimal(runs)
}

/// The flag that asks the parallel program for `steps` steps per simulation.
pub open spec fn steps_flag_text(steps: nat) -> Seq<char> {
    "--steps="@ + decimal(steps)
}

/// The runs flag is `--runs=` followed by the shortest numeral of the number
/// of runs, which reads back as that number.
pub proof fn lemma_runs_flag_reads_back(runs: nat)
    ensures
        runs_flag_text(runs).len() >= 8,
        runs_flag_text(runs).take(7) == "--runs="@,
        numeral_of(runs_flag_text(runs).skip(7), runs, 1),
        runs <= usize::MAX ==> parsed_usize(runs_flag_text(runs).skip(7)) == Some(runs as usize),
{
    reveal_strlit("--runs=");
    lemma_decimal_numeral(runs);
    let f = runs_flag_text(runs);
    assert(f.take(7) =~= "--runs="@);
    assert(f.skip(7) =~= decimal(runs));
    if runs <= usize::MAX {
        lemma_numeral_parses(decimal(runs), runs, 1);
    }
}

/// The steps flag is `--steps=` followed by the shortest numeral of the
/// number of steps, which reads back as that number.
pub proof fn lemma_steps_flag_reads_back(steps: nat)
    ensures
        steps_flag_text(steps).len() >= 9,
        steps_flag_text(steps).take(8) == "--steps="@,
        numeral_of(steps_flag_text(steps).skip(8), steps, 1),
        steps <= usize::MAX ==> parsed_usize(steps_flag_text(steps).skip(8)) == Some(steps as usize),
{
    reveal_strlit("--steps=");
    lemma_decimal_numeral(steps);
    let f = steps_flag_text(steps);
    assert(f.take(8) =~= "--steps="@);
    assert(f.skip(8) =~= decimal(steps));
    if steps <= usize::MAX {
        lemma_numeral_parses(decimal(steps), steps, 1);
    }
}

/// Returns `--runs=` followed by `runs` (as `format!("--runs={runs}")`).
pub fn runs_flag(runs: usize) -> (flag: String)
    ensures
        flag@ == runs_flag_text(runs as nat),
        flag@.len() >= 8,
        flag@.take(7) == "--runs="@,
        numeral_of(flag@.skip(7), runs as nat, 1),
        parsed_usize(flag@.skip(7)) == Some(runs),
{
    proof {
        lemma_runs_flag_reads_back(runs as nat);
        lemma_numeral_parses(runs_flag_text(runs as nat).skip(7), runs as nat, 1);
    }
    let number = decimal_string(runs);
    let mut flag = String::from_str("--runs=");
    flag.append(number.as_str());
    flag
}

/// Returns `--steps=` followed by `steps` (as `format!("--steps={steps}")`).
pub fn steps_flag(steps: usize) -> (flag: String)
    ensures
        flag@ == steps_flag_text(steps as nat),
        flag@.len() >= 9,
        flag@.take(8) == "--steps="@,
        numeral_of(flag@.skip(8), steps as nat, 1),
        parsed_usize(flag@.skip(8)) == Some(steps),
{
    proof {
        lemma_steps_flag_reads_back(steps as nat);
        lemma_numeral_parses(steps_flag_text(steps as nat).skip(8), steps as nat, 1);
    }
    let number = decimal_string(steps);
    let mut flag = String::from_str("--steps=");
    flag.append(number.as_str());
    flag
}

} // verus!
