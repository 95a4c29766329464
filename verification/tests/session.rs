use std::collections::HashMap;

use xtask::catalog::{Catalog, SnapshotCase, SnapshotError};
use xtask::compare::LineDiff;
use xtask::normalize::{MaskRule, Normalizer};
use xtask::report::{Outcome, SnapshotResult, Tally};
use xtask::runner::{BuildFailure, Execution, Invocation};
use xtask::session::{Action, Event, Mode, Session};

/// An in-memory stand-in for the build tool and the disk.
struct Bench {
    /// Fixtures whose build exits with this status.
    broken_builds: HashMap<String, i32>,
    /// What each fixture prints, and how it exits.
    outputs: HashMap<String, (i32, Vec<u8>)>,
    goldens: HashMap<String, Vec<u8>>,
    read_only: Vec<String>,
    builds: Vec<String>,
    runs: Vec<String>,
    reads: Vec<String>,
}

impl Bench {
    fn new() -> Bench {
        Bench {
            broken_builds: HashMap::new(),
            outputs: HashMap::new(),
            goldens: HashMap::new(),
            read_only: Vec::new(),
            builds: Vec::new(),
            runs: Vec::new(),
            reads: Vec::new(),
        }
    }

    fn fixture(mut self, dir: &str, exit_status: i32, stdout: &[u8]) -> Bench {
        self.outputs.insert(dir.to_string(), (exit_status, stdout.to_vec()));
        self
    }

    fn golden(mut self, path: &str, text: &[u8]) -> Bench {
        self.goldens.insert(path.to_string(), text.to_vec());
        self
    }

    fn broken(mut self, dir: &str, exit_status: i32) -> Bench {
        self.broken_builds.insert(dir.to_string(), exit_status);
        self
    }

    fn build(&mut self, command: &Invocation) -> Execution {
        let dir = command.cwd.clone().unwrap_or_default();
        self.builds.push(dir.clone());
        match self.broken_builds.get(&dir) {
            Some(status) => Execution::Completed { exit_status: *status, stdout: Vec::new() },
            None => Execution::Completed { exit_status: 0, stdout: Vec::new() },
        }
    }

    fn run(&mut self, command: &Invocation) -> Execution {
        let dir = command.cwd.clone().unwrap_or_default();
        self.runs.push(dir.clone());
        match self.outputs.get(&dir) {
            Some((status, stdout)) => {
                Execution::Completed { exit_status: *status, stdout: stdout.clone() }
            }
            None => Execution::Failed { reason: format!("{dir}: no such fixture") },
        }
    }

    fn perform(&mut self, action: Action) -> Option<Event> {
        match action {
            Action::Build(command) => Some(Event::Executed(self.build(&command))),
            Action::Run(command) => Some(Event::Executed(self.run(&command))),
            Action::LoadGolden { path } => {
                self.reads.push(path.clone());
                Some(Event::GoldenLoaded(self.goldens.get(&path).cloned()))
            }
            Action::StoreGolden { path, contents } => {
                if self.read_only.contains(&path) {
                    Some(Event::GoldenStored(Err(format!("{path}: permission denied"))))
                } else {
                    self.goldens.insert(path, contents);
                    Some(Event::GoldenStored(Ok(())))
                }
            }
            Action::Finish => None,
        }
    }

    fn drive(&mut self, mut session: Session) -> Session {
        loop {
            match self.perform(session.next_action()) {
                Some(event) => {
                    assert!(session.accepts(&event));
                    session = session.handle(event);
                }
                None => return session,
            }
        }
    }
}

fn case(name: &str) -> SnapshotCase {
    SnapshotCase::new(name, &format!("snapshots/{name}"), &format!("snapshots/{name}/expected.out"))
}

fn catalog_of(names: &[&str]) -> Catalog {
    Catalog::new(names.iter().map(|n| case(n)).collect()).expect("distinct names")
}

fn path_masks() -> Normalizer {
    Normalizer::new().with_rule(MaskRule::new(b"/home/ann/defmt", b"<ROOT>").expect("a valid rule"))
}

fn outcomes(session: &Session) -> Vec<(&str, &Outcome)> {
    session.results().iter().map(|r| (r.name.as_str(), &r.outcome)).collect()
}

#[test]
fn basic_log_passes_against_its_golden() {
    let mut bench = Bench::new()
        .fixture("snapshots/basic-log", 0, b"INFO hello\n")
        .golden("snapshots/basic-log/expected.out", b"INFO hello\n");
    let catalog = catalog_of(&["basic-log"]);
    let session = Session::start(&catalog, Some("basic-log"), Mode::Check, Normalizer::new())
        .expect("a known name");
    let session = bench.drive(session);
    assert_eq!(
        session.results(),
        &vec![SnapshotResult { name: "basic-log".to_string(), outcome: Outcome::Pass }]
    );
    assert_eq!(bench.goldens["snapshots/basic-log/expected.out"], b"INFO hello\n".to_vec());
}

#[test]
fn overwrite_records_over_a_stale_golden() {
    let mut bench = Bench::new()
        .fixture("snapshots/basic-log", 0, b"INFO hello\n")
        .golden("snapshots/basic-log/expected.out", b"something stale\n");
    let catalog = catalog_of(&["basic-log"]);
    let session = Session::start(&catalog, Some("basic-log"), Mode::Overwrite, Normalizer::new())
        .expect("a known name");
    let session = bench.drive(session);
    assert_eq!(
        session.results(),
        &vec![SnapshotResult { name: "basic-log".to_string(), outcome: Outcome::Recorded }]
    );
    assert_eq!(bench.goldens["snapshots/basic-log/expected.out"], b"INFO hello\n".to_vec());
    assert!(bench.reads.is_empty());
}

#[test]
fn overwrite_makes_a_golden_where_there_was_none() {
    let mut bench = Bench::new().fixture("snapshots/basic-log", 0, b"INFO hello\n");
    let catalog = catalog_of(&["basic-log"]);
    let session =
        Session::start(&catalog, None, Mode::Overwrite, Normalizer::new()).expect("all cases");
    let session = bench.drive(session);
    assert_eq!(outcomes(&session), vec![("basic-log", &Outcome::Recorded)]);
    assert_eq!(bench.goldens["snapshots/basic-log/expected.out"], b"INFO hello\n".to_vec());
}

#[test]
fn panic_demo_passes_despite_its_exit_status() {
    let mut bench = Bench::new()
        .fixture("snapshots/panic-demo", 101, b"ERROR panicked at src/main.rs:PLACEHOLDER\n")
        .golden(
            "snapshots/panic-demo/expected.out",
            b"ERROR panicked at src/main.rs:PLACEHOLDER\n",
        );
    let catalog = catalog_of(&["panic-demo"]);
    let session = Session::start(&catalog, Some("panic-demo"), Mode::Check, path_masks())
        .expect("a known name");
    let session = bench.drive(session);
    assert_eq!(outcomes(&session), vec![("panic-demo", &Outcome::Pass)]);
}

#[test]
fn panic_demo_passes_after_path_masking() {
    let mut bench = Bench::new()
        .fixture(
            "snapshots/panic-demo",
            101,
            b"ERROR panicked at /home/ann/defmt/src/main.rs:PLACEHOLDER\n",
        )
        .golden(
            "snapshots/panic-demo/expected.out",
            b"ERROR panicked at <ROOT>/src/main.rs:PLACEHOLDER\n",
        );
    let masks = Normalizer::new()
        .with_rule(MaskRule::new(b"/home/ann/defmt", b"<ROOT>").expect("a valid rule"));
    let catalog = catalog_of(&["panic-demo"]);
    let session =
        Session::start(&catalog, Some("panic-demo"), Mode::Check, masks).expect("a known name");
    let session = bench.drive(session);
    assert_eq!(outcomes(&session), vec![("panic-demo", &Outcome::Pass)]);
}

#[test]
fn unknown_case_is_rejected_before_any_build() {
    let catalog = catalog_of(&["basic-log", "panic-demo"]);
    let started = Session::start(&catalog, Some("no-such-case"), Mode::Check, Normalizer::new());
    assert_eq!(started.err(), Some(SnapshotError::UnknownCase("no-such-case".to_string())));
    let overwriting =
        Session::start(&catalog, Some("no-such-case"), Mode::Overwrite, Normalizer::new());
    assert_eq!(overwriting.err(), Some(SnapshotError::UnknownCase("no-such-case".to_string())));
}

#[test]
fn a_broken_case_does_not_stop_the_others() {
    let mut bench = Bench::new()
        .fixture("snapshots/first", 0, b"1\n")
        .fixture("snapshots/second", 0, b"2\n")
        .fixture("snapshots/third", 0, b"3\n")
        .broken("snapshots/second", 101)
        .golden("snapshots/first/expected.out", b"1\n")
        .golden("snapshots/second/expected.out", b"2\n")
        .golden("snapshots/third/expected.out", b"3\n");
    let catalog = catalog_of(&["first", "second", "third"]);
    let session =
        Session::start(&catalog, None, Mode::Check, Normalizer::new()).expect("all cases");
    let session = bench.drive(session);
    assert!(session.is_finished());
    assert_eq!(
        outcomes(&session),
        vec![
            ("first", &Outcome::Pass),
            ("second", &Outcome::BuildFailure(BuildFailure::Exited(101))),
            ("third", &Outcome::Pass),
        ]
    );
    assert_eq!(bench.builds, vec!["snapshots/first", "snapshots/second", "snapshots/third"]);
    assert_eq!(bench.runs, vec!["snapshots/first", "snapshots/third"]);
    let tally = session.tally();
    assert_eq!(tally.passed(), 2);
    assert_eq!(tally.build_failures(), 1);
    assert_eq!(tally.total(), 3);
    assert_eq!(tally.failures(), 1);
    assert!(!tally.is_success());
}

#[test]
fn every_kind_of_failure_is_recorded_and_the_run_goes_on() {
    let mut bench = Bench::new()
        .fixture("snapshots/differs", 0, b"a\nB\n")
        .golden("snapshots/differs/expected.out", b"a\nb\n")
        .fixture("snapshots/new", 0, b"fresh\n")
        .fixture("snapshots/fine", 0, b"ok\n")
        .golden("snapshots/fine/expected.out", b"ok\n");
    let catalog = catalog_of(&["differs", "new", "gone", "fine"]);
    let session =
        Session::start(&catalog, None, Mode::Check, Normalizer::new()).expect("all cases");
    let session = bench.drive(session);
    let results = session.results();
    assert_eq!(results.len(), 4);
    match &results[0].outcome {
        Outcome::Mismatch(difference) => {
            assert_eq!(
                difference.first,
                LineDiff {
                    index: 1,
                    expected: Some(b"b\n".to_vec()),
                    actual: Some(b"B\n".to_vec()),
                }
            );
        }
        other => panic!("expected a mismatch, got {other:?}"),
    }
    assert_eq!(results[1].outcome, Outcome::MissingGolden);
    assert_eq!(
        results[2].outcome,
        Outcome::BuildFailure(BuildFailure::NotStarted("snapshots/gone: no such fixture".to_string()))
    );
    assert_eq!(results[3].outcome, Outcome::Pass);
    let tally = session.tally();
    assert_eq!(tally.mismatched(), 1);
    assert_eq!(tally.missing(), 1);
    assert_eq!(tally.build_failures(), 1);
    assert_eq!(tally.passed(), 1);
    assert_eq!(tally.recorded(), 0);
    assert_eq!(tally.write_failures(), 0);
    assert_eq!(tally.failures(), 3);
}

#[test]
fn a_golden_that_cannot_be_written_is_a_write_failure() {
    let mut bench = Bench::new()
        .fixture("snapshots/locked", 0, b"x\n")
        .fixture("snapshots/free", 0, b"y\n")
        .golden("snapshots/locked/expected.out", b"old\n");
    bench.read_only.push("snapshots/locked/expected.out".to_string());
    let catalog = catalog_of(&["locked", "free"]);
    let session =
        Session::start(&catalog, None, Mode::Overwrite, Normalizer::new()).expect("all cases");
    let session = bench.drive(session);
    assert_eq!(
        outcomes(&session),
        vec![
            (
                "locked",
                &Outcome::WriteFailure("snapshots/locked/expected.out: permission denied".to_string())
            ),
            ("free", &Outcome::Recorded),
        ]
    );
    assert_eq!(bench.goldens["snapshots/locked/expected.out"], b"old\n".to_vec());
    assert_eq!(bench.goldens["snapshots/free/expected.out"], b"y\n".to_vec());
    let tally = session.tally();
    assert_eq!(tally.write_failures(), 1);
    assert_eq!(tally.recorded(), 1);
}

#[test]
fn check_mode_twice_gives_the_same_results() {
    let mut bench = Bench::new()
        .fixture("snapshots/a", 0, b"1\n")
        .golden("snapshots/a/expected.out", b"1\n")
        .fixture("snapshots/b", 3, b"2\n")
        .golden("snapshots/b/expected.out", b"two\n")
        .fixture("snapshots/c", 0, b"3\n");
    let catalog = catalog_of(&["a", "b", "c"]);
    let before = bench.goldens.clone();
    let first = bench.drive(
        Session::start(&catalog, None, Mode::Check, Normalizer::new()).expect("all cases"),
    );
    let second = bench.drive(
        Session::start(&catalog, None, Mode::Check, Normalizer::new()).expect("all cases"),
    );
    assert_eq!(first.results(), second.results());
    assert_eq!(bench.goldens, before);
}

#[test]
fn overwrite_then_check_passes() {
    let mut bench = Bench::new()
        .fixture("snapshots/a", 0, b"at /home/ann/defmt/src/a.rs\nlast line without end")
        .golden("snapshots/a/expected.out", b"stale");
    let catalog = catalog_of(&["a"]);
    let masks = || {
        Normalizer::new()
            .with_rule(MaskRule::new(b"/home/ann/defmt", b"<ROOT>").expect("a valid rule"))
    };
    let recorded =
        bench.drive(Session::start(&catalog, Some("a"), Mode::Overwrite, masks()).expect("known"));
    assert_eq!(outcomes(&recorded), vec![("a", &Outcome::Recorded)]);
    assert_eq!(
        bench.goldens["snapshots/a/expected.out"],
        b"at <ROOT>/src/a.rs\nlast line without end".to_vec()
    );
    let checked =
        bench.drive(Session::start(&catalog, Some("a"), Mode::Check, masks()).expect("known"));
    assert_eq!(outcomes(&checked), vec![("a", &Outcome::Pass)]);
}

#[test]
fn single_selection_runs_only_that_case() {
    let mut bench = Bench::new()
        .fixture("snapshots/a", 0, b"1\n")
        .fixture("snapshots/b", 0, b"2\n")
        .golden("snapshots/b/expected.out", b"2\n");
    let catalog = catalog_of(&["a", "b"]);
    let session = bench.drive(
        Session::start(&catalog, Some("b"), Mode::Check, Normalizer::new()).expect("known"),
    );
    assert_eq!(outcomes(&session), vec![("b", &Outcome::Pass)]);
    assert_eq!(bench.builds, vec!["snapshots/b"]);
}

#[test]
fn actions_come_in_the_order_of_the_stages() {
    let catalog = catalog_of(&["a"]);
    let session =
        Session::start(&catalog, None, Mode::Check, Normalizer::new()).expect("all cases");
    assert_eq!(session.mode(), Mode::Check);
    assert!(!session.is_finished());
    assert_eq!(session.next_action(), Action::Build(case("a").build_command()));
    let session =
        session.handle(Event::Executed(Execution::Completed { exit_status: 0, stdout: Vec::new() }));
    assert_eq!(session.next_action(), Action::Run(case("a").run_command()));
    let session = session
        .handle(Event::Executed(Execution::Completed { exit_status: 7, stdout: b"x\n".to_vec() }));
    assert_eq!(
        session.next_action(),
        Action::LoadGolden { path: "snapshots/a/expected.out".to_string() }
    );
    let session = session.handle(Event::GoldenLoaded(Some(b"x\n".to_vec())));
    assert_eq!(session.next_action(), Action::Finish);
    assert!(session.is_finished());
    assert_eq!(outcomes(&session), vec![("a", &Outcome::Pass)]);
}

#[test]
fn overwrite_asks_to_store_the_masked_output() {
    let catalog = catalog_of(&["a"]);
    let masks = Normalizer::new().with_rule(MaskRule::new(b"12:00", b"<TIME>").expect("valid"));
    let session = Session::start(&catalog, None, Mode::Overwrite, masks).expect("all cases");
    let session =
        session.handle(Event::Executed(Execution::Completed { exit_status: 0, stdout: Vec::new() }));
    let session = session.handle(Event::Executed(Execution::Completed {
        exit_status: 0,
        stdout: b"12:00 INFO up\n".to_vec(),
    }));
    assert_eq!(
        session.next_action(),
        Action::StoreGolden {
            path: "snapshots/a/expected.out".to_string(),
            contents: b"<TIME> INFO up\n".to_vec(),
        }
    );
}

#[test]
fn an_event_that_was_not_asked_for_changes_nothing() {
    let catalog = catalog_of(&["a"]);
    let session =
        Session::start(&catalog, None, Mode::Check, Normalizer::new()).expect("all cases");
    let loaded = Event::GoldenLoaded(None);
    assert!(!session.accepts(&loaded));
    let session = session.handle(loaded);
    assert!(session.results().is_empty());
    assert_eq!(session.next_action(), Action::Build(case("a").build_command()));
    let stored = Event::GoldenStored(Ok(()));
    assert!(!session.accepts(&stored));
    let session = session.handle(stored);
    assert!(session.results().is_empty());
    let session =
        session.handle(Event::Executed(Execution::Completed { exit_status: 0, stdout: Vec::new() }));
    let session = session
        .handle(Event::Executed(Execution::Completed { exit_status: 0, stdout: b"x\n".to_vec() }));
    let session = session.handle(Event::GoldenStored(Ok(())));
    assert!(session.results().is_empty());
    let session = session.handle(Event::GoldenLoaded(None));
    assert_eq!(outcomes(&session), vec![("a", &Outcome::MissingGolden)]);
    let session = session.handle(Event::GoldenLoaded(None));
    assert_eq!(session.results().len(), 1);
}

#[test]
fn an_empty_catalog_is_finished_at_once() {
    let catalog = Catalog::new(Vec::new()).expect("nothing repeats");
    let session =
        Session::start(&catalog, None, Mode::Check, Normalizer::new()).expect("all cases");
    assert!(session.is_finished());
    assert_eq!(session.next_action(), Action::Finish);
    assert!(session.tally().is_success());
    assert_eq!(session.tally().total(), 0);
}

#[test]
fn tally_counts_each_outcome() {
    let results = vec![
        SnapshotResult { name: "a".to_string(), outcome: Outcome::Pass },
        SnapshotResult { name: "b".to_string(), outcome: Outcome::Recorded },
        SnapshotResult { name: "c".to_string(), outcome: Outcome::MissingGolden },
        SnapshotResult { name: "d".to_string(), outcome: Outcome::Pass },
        SnapshotResult { name: "e".to_string(), outcome: Outcome::WriteFailure("full".to_string()) },
    ];
    let tally = Tally::of(&results);
    assert_eq!(tally.passed(), 2);
    assert_eq!(tally.recorded(), 1);
    assert_eq!(tally.missing(), 1);
    assert_eq!(tally.write_failures(), 1);
    assert_eq!(tally.mismatched(), 0);
    assert_eq!(tally.build_failures(), 0);
    assert_eq!(tally.total(), 5);
    assert_eq!(tally.failures(), 2);
    assert!(!tally.is_success());
    assert!(Tally::of(&Vec::new()).is_success());
}

#[test]
fn outcomes_know_whether_they_fail() {
    assert!(!Outcome::Pass.is_failure());
    assert!(!Outcome::Recorded.is_failure());
    assert!(Outcome::MissingGolden.is_failure());
    assert!(Outcome::WriteFailure("x".to_string()).is_failure());
    assert!(Outcome::BuildFailure(BuildFailure::Exited(1)).is_failure());
    assert_eq!(Outcome::store(Ok(())), Outcome::Recorded);
    assert_eq!(
        Outcome::store(Err("disk full".to_string())),
        Outcome::WriteFailure("disk full".to_string())
    );
    let actual = Normalizer::new().normalize(&xtask::output::CapturedOutput::new(0, b"x\n"));
    assert_eq!(Outcome::check(&None, &actual), Outcome::MissingGolden);
    assert_eq!(Outcome::check(&Some(b"x\n".to_vec()), &actual), Outcome::Pass);
    assert!(matches!(Outcome::check(&Some(b"y\n".to_vec()), &actual), Outcome::Mismatch(_)));
}
