use double_pendulum::args::{run_settings, settings_with_default_runs, usize_arg_or, DEFAULT_STEPS, RUNS_ARG, STEPS_ARG};

fn args(list: &[&str]) -> Vec<String> {
    list.iter().map(|s| s.to_string()).collect()
}

#[test]
fn reads_positional_integers() {
    let a = args(&["parallel", "8", "0.001", "1000"]);
    assert_eq!(usize_arg_or(&a, RUNS_ARG, 3), 8);
    assert_eq!(usize_arg_or(&a, STEPS_ARG, DEFAULT_STEPS), 1000);
    assert_eq!(usize_arg_or(&a, 2, 5), 5);
    assert_eq!(usize_arg_or(&a, 4, 11), 11);
}

#[test]
fn falls_back_on_missing_or_malformed_arguments() {
    let a = args(&["parallel", "x", "0.01", "-5"]);
    let s = settings_with_default_runs(&a, 6);
    assert_eq!(s.num_runs, 6);
    assert_eq!(s.steps, DEFAULT_STEPS);
    let b = args(&["parallel"]);
    let s = settings_with_default_runs(&b, 2);
    assert_eq!(s.num_runs, 2);
    assert_eq!(s.steps, 60000);
}

#[test]
fn given_settings_are_kept() {
    let a = args(&["parallel", "16", "0.001", "600000"]);
    let s = settings_with_default_runs(&a, 1);
    assert_eq!(s.num_runs, 16);
    assert_eq!(s.steps, 600000);
    let r = run_settings(&a);
    assert_eq!(r.num_runs, 16);
    assert_eq!(r.steps, 600000);
}

#[test]
fn default_run_count_is_the_cpu_count() {
    let a = args(&["parallel"]);
    let r = run_settings(&a);
    assert!(r.num_runs >= 1);
    assert_eq!(r.num_runs, num_cpus::get());
    assert_eq!(r.steps, DEFAULT_STEPS);
}
