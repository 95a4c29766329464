use xtask::errors::{do_test, log_outcome, log_results};
use xtask::report::{Outcome, SnapshotResult};
use xtask::runner::BuildFailure;

#[test]
fn a_passing_test_logs_nothing() {
    let mut errors: Vec<String> = Vec::new();
    do_test(|| Ok(()), "host", &mut errors);
    assert!(errors.is_empty());
}

#[test]
fn a_failing_test_logs_context_and_message() {
    let mut errors: Vec<String> = Vec::new();
    do_test(|| Err("command exited with 101".to_string()), "host", &mut errors);
    assert_eq!(errors, vec!["host: command exited with 101".to_string()]);
}

#[test]
fn the_log_grows_in_order_and_the_run_goes_on() {
    let mut errors = vec!["earlier: failure".to_string()];
    do_test(|| Err("first".to_string()), "cross", &mut errors);
    do_test(|| Ok(()), "cross", &mut errors);
    do_test(|| Err("second".to_string()), "lint", &mut errors);
    assert_eq!(
        errors,
        vec![
            "earlier: failure".to_string(),
            "cross: first".to_string(),
            "lint: second".to_string(),
        ]
    );
}

#[test]
fn do_test_runs_the_test_once() {
    let mut errors: Vec<String> = Vec::new();
    let mut runs: u32 = 0;
    do_test(
        || {
            runs += 1;
            Ok(())
        },
        "ui",
        &mut errors,
    );
    assert_eq!(runs, 1);
}

#[test]
fn log_outcome_logs_failures_only() {
    let mut errors: Vec<String> = Vec::new();
    log_outcome(Ok(()), "book", &mut errors);
    log_outcome(Err(String::new()), "book", &mut errors);
    assert_eq!(errors, vec!["book: ".to_string()]);
}

#[test]
fn complaints_name_the_case_and_what_went_wrong() {
    let passed = SnapshotResult { name: "log".to_string(), outcome: Outcome::Pass };
    assert_eq!(passed.complaint(), Ok(()));
    let recorded = SnapshotResult { name: "log".to_string(), outcome: Outcome::Recorded };
    assert_eq!(recorded.complaint(), Ok(()));
    let missing = SnapshotResult { name: "log".to_string(), outcome: Outcome::MissingGolden };
    assert_eq!(
        missing.complaint(),
        Err("log: no golden yet; run with overwrite to make one".to_string())
    );
    let broken = SnapshotResult {
        name: "panic".to_string(),
        outcome: Outcome::BuildFailure(BuildFailure::Exited(101)),
    };
    assert_eq!(broken.complaint(), Err("panic: fixture could not be built or started".to_string()));
    let unwritten = SnapshotResult {
        name: "dbg".to_string(),
        outcome: Outcome::WriteFailure("disk full".to_string()),
    };
    assert_eq!(unwritten.complaint(), Err("dbg: golden could not be written".to_string()));
}

#[test]
fn results_log_one_entry_for_each_failure() {
    let results = vec![
        SnapshotResult { name: "log".to_string(), outcome: Outcome::Pass },
        SnapshotResult { name: "panic".to_string(), outcome: Outcome::MissingGolden },
        SnapshotResult { name: "dbg".to_string(), outcome: Outcome::Recorded },
        SnapshotResult {
            name: "hints".to_string(),
            outcome: Outcome::WriteFailure("read-only".to_string()),
        },
    ];
    let mut errors = vec!["host: earlier".to_string()];
    log_results(&results, "qemu/snapshot", &mut errors);
    assert_eq!(
        errors,
        vec![
            "host: earlier".to_string(),
            "qemu/snapshot: panic: no golden yet; run with overwrite to make one".to_string(),
            "qemu/snapshot: hints: golden could not be written".to_string(),
        ]
    );
}
