use double_pendulum::naming::{runs_flag, steps_flag, trajectory_file_name};

#[test]
fn trajectory_files_are_numbered_with_three_digits() {
    assert_eq!(trajectory_file_name(0), "traj_000.csv");
    assert_eq!(trajectory_file_name(7), "traj_007.csv");
    assert_eq!(trajectory_file_name(15), "traj_015.csv");
    assert_eq!(trajectory_file_name(999), "traj_999.csv");
    assert_eq!(trajectory_file_name(1000), "traj_1000.csv");
}

#[test]
fn trajectory_file_names_match_format() {
    for i in [0usize, 1, 12, 123, 1234, 98765] {
        assert_eq!(trajectory_file_name(i), format!("traj_{:03}.csv", i));
    }
}

#[test]
fn different_runs_write_different_files() {
    let names: Vec<String> = (0..1100).map(trajectory_file_name).collect();
    for i in 0..names.len() {
        for j in (i + 1)..names.len().min(i + 20) {
            assert_ne!(names[i], names[j]);
        }
    }
    assert_ne!(trajectory_file_name(1), trajectory_file_name(10));
    assert_ne!(trajectory_file_name(100), trajectory_file_name(1000));
}

#[test]
fn experiment_flags() {
    assert_eq!(runs_flag(4), "--runs=4");
    assert_eq!(runs_flag(32), format!("--runs={}", 32));
    assert_eq!(steps_flag(600000), "--steps=600000");
    assert_eq!(steps_flag(0), "--steps=0");
}
