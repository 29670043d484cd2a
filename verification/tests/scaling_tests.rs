use double_pendulum::scaling::{
    strong_scaling_invocation, thread_counts, weak_runs, weak_scaling_invocation, STRONG_REPEATS,
    WEAK_REPEATS, WEAK_RUNS_PER_THREAD, WEAK_STEPS,
};

#[test]
fn measures_powers_of_two_threads() {
    assert_eq!(thread_counts(), vec![1, 2, 4, 8, 16]);
    assert_eq!(STRONG_REPEATS, 30);
    assert_eq!(WEAK_REPEATS, 30);
}

#[test]
fn strong_scaling_runs_sequential_program_on_one_thread() {
    let inv = strong_scaling_invocation(1);
    assert_eq!(inv.program, "./target/release/seq1");
    assert!(inv.env.is_empty());
    assert!(inv.args.is_empty());
}

#[test]
fn strong_scaling_limits_parallel_threads() {
    let inv = strong_scaling_invocation(8);
    assert_eq!(inv.program, "./target/release/parallel1");
    assert_eq!(inv.env, vec![("RAYON_NUM_THREADS".to_string(), "8".to_string())]);
    assert!(inv.args.is_empty());
}

#[test]
fn weak_scaling_grows_work_with_threads() {
    assert_eq!(weak_runs(1, WEAK_RUNS_PER_THREAD), 1);
    assert_eq!(weak_runs(16, WEAK_RUNS_PER_THREAD), 16);
    assert_eq!(weak_runs(4, 2), 8);
    for p in thread_counts() {
        assert_eq!(weak_runs(p, WEAK_RUNS_PER_THREAD) / p, WEAK_RUNS_PER_THREAD);
        assert_eq!(weak_runs(p, WEAK_RUNS_PER_THREAD) % p, 0);
    }
}

#[test]
fn weak_scaling_invocation_arguments() {
    let inv = weak_scaling_invocation(4, WEAK_RUNS_PER_THREAD, WEAK_STEPS);
    assert_eq!(inv.program, "./target/release/parallel1");
    assert_eq!(inv.env, vec![("RAYON_NUM_THREADS".to_string(), "4".to_string())]);
    assert_eq!(inv.args, vec!["--runs=4".to_string(), "--steps=50000".to_string()]);
    let inv = weak_scaling_invocation(4, 2, 600000);
    assert_eq!(inv.args, vec!["--runs=8".to_string(), "--steps=600000".to_string()]);
}

#[test]
fn weak_scaling_keeps_fifty_thousand_steps_per_thread() {
    assert_eq!(WEAK_STEPS, 50000);
    assert_eq!(WEAK_RUNS_PER_THREAD, 1);
    for p in thread_counts() {
        assert_eq!(weak_runs(p, WEAK_RUNS_PER_THREAD) * WEAK_STEPS, p * 50000);
    }
}
