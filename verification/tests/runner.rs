use xtask::catalog::SnapshotCase;
use xtask::runner::{capture, cargo, judge_build, BuildFailure, Execution, Invocation};

fn words(list: &[&str]) -> Vec<String> {
    list.iter().map(|w| w.to_string()).collect()
}

#[test]
fn plain_case_builds_and_runs_quietly_in_its_fixture() {
    let case = SnapshotCase::new("basic-log", "snapshots/basic-log", "g");
    assert_eq!(
        case.build_command(),
        Invocation {
            tool: "cargo".to_string(),
            args: words(&["build", "--quiet"]),
            cwd: Some("snapshots/basic-log".to_string()),
            env: Vec::new(),
        }
    );
    assert_eq!(
        case.run_command(),
        Invocation {
            tool: "cargo".to_string(),
            args: words(&["run", "--quiet"]),
            cwd: Some("snapshots/basic-log".to_string()),
            env: Vec::new(),
        }
    );
}

#[test]
fn configuration_becomes_arguments() {
    let case = SnapshotCase::new("alloc", "snapshots/alloc", "g")
        .with_feature("alloc")
        .with_feature("ip_in_core")
        .with_target("thumbv7m-none-eabi");
    assert_eq!(
        case.run_command().args,
        words(&[
            "run",
            "--quiet",
            "--features",
            "alloc",
            "--features",
            "ip_in_core",
            "--target",
            "thumbv7m-none-eabi",
        ])
    );
    assert_eq!(
        cargo("check", &case).args,
        words(&[
            "check",
            "--quiet",
            "--features",
            "alloc",
            "--features",
            "ip_in_core",
            "--target",
            "thumbv7m-none-eabi",
        ])
    );
}

#[test]
fn a_build_that_exits_with_zero_is_no_failure() {
    let build = Execution::Completed { exit_status: 0, stdout: b"noise".to_vec() };
    assert_eq!(judge_build(&build), None);
}

#[test]
fn a_build_that_exits_otherwise_is_a_failure() {
    let build = Execution::Completed { exit_status: 101, stdout: Vec::new() };
    assert_eq!(judge_build(&build), Some(BuildFailure::Exited(101)));
    let negative = Execution::Completed { exit_status: -1, stdout: Vec::new() };
    assert_eq!(judge_build(&negative), Some(BuildFailure::Exited(-1)));
}

#[test]
fn a_build_that_did_not_start_is_a_failure() {
    let build = Execution::Failed { reason: "cargo: not found".to_string() };
    assert_eq!(
        judge_build(&build),
        Some(BuildFailure::NotStarted("cargo: not found".to_string()))
    );
}

#[test]
fn capture_takes_output_whatever_the_exit_status() {
    let run = Execution::Completed { exit_status: 101, stdout: b"ERROR panicked\n".to_vec() };
    let captured = capture(&run).expect("the fixture ran");
    assert_eq!(captured.exit_status(), 101);
    assert_eq!(captured.lines(), &vec![b"ERROR panicked\n".to_vec()]);
}

#[test]
fn capture_of_a_run_that_did_not_start_is_a_build_failure() {
    let run = Execution::Failed { reason: "no such file".to_string() };
    assert_eq!(
        capture(&run).err(),
        Some(BuildFailure::NotStarted("no such file".to_string()))
    );
}
