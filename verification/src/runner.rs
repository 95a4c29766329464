//! The commands that build and run a fixture, and what comes back from them.
//!
//! Nothing here starts a process. A command is a value that the caller hands
//! to whatever executes commands, and an execution is the value it hands back.

use vstd::prelude::*;
use crate::catalog::{optional_view, strings_view, CaseView, SnapshotCase};
use crate::output::CapturedOutput;
use crate::lines::split_lines;

verus! {

/// The mathematical content of a command.
pub struct InvocationView {
    pub tool: Seq<char>,
    pub args: Seq<Seq<char>>,
    pub cwd: Option<Seq<char>>,
    pub env: Seq<(Seq<char>, Seq<char>)>,
}

/// The variables held by a vector of pairs.
pub open spec fn env_view(env: Seq<(String, String)>) -> Seq<(Seq<char>, Seq<char>)> {
    Seq::new(env.len(), |i: int| (env[i].0@, env[i].1@))
}

/// A command for the collaborator that executes commands: a tool, its
/// arguments, the directory to run it in and extra environment variables.
#[derive(Debug, PartialEq, Eq)]
pub struct Invocation {
    pub tool: String,
    pub args: Vec<String>,
    pub cwd: Option<String>,
    pub env: Vec<(String, String)>,
}

impl View for Invocation {
    type V = InvocationView;

    open spec fn view(&self) -> InvocationView {
        InvocationView {
            tool: self.tool@,
            args: strings_view(self.args@),
            cwd: optional_view(self.cwd),
            env: env_view(self.env@),
        }
    }
}

/// The arguments that switch `features` on: each is passed by a flag of its own.
pub open spec fn feature_args(features: Seq<Seq<char>>) -> Seq<Seq<char>>
    decreases features.len(),
{
    if features.len() == 0 {
        Seq::empty()
    } else {
        feature_args(features.drop_last()) + seq!["--features"@, features.last()]
    }
}

/// The arguments that select `target`.
pub open spec fn target_args(target: Option<Seq<char>>) -> Seq<Seq<char>> {
    match target {
        Some(triple) => seq!["--target"@, triple],
        None => Seq::empty(),
    }
}

/// The build tool's subcommand `verb` for `case`, run quietly in the fixture's
/// directory with the case's features and target.
pub open spec fn cargo_command(verb: Seq<char>, case: CaseView) -> InvocationView {
    InvocationView {
        tool: "cargo"@,
        args: seq![verb, "--quiet"@] + feature_args(case.features) + target_args(case.target),
        cwd: Some(case.fixture),
        env: Seq::empty(),
    }
}

/// The command that builds the fixture of `case`.
pub open spec fn build_command(case: CaseView) -> InvocationView {
    cargo_command("build"@, case)
}

/// The command that runs the fixture of `case`.
pub open spec fn run_command(case: CaseView) -> InvocationView {
    cargo_command("run"@, case)
}

/// Makes the build tool's subcommand `verb` for `case`.
pub fn cargo(verb: &str, case: &SnapshotCase) -> (command: Invocation)
    ensures
        command@ == cargo_command(verb@, case@),
{
    let ghost features = strings_view(case.features@);
    let mut args: Vec<String> = Vec::new();
    args.push(String::from_str(verb));
    args.push(String::from_str("--quiet"));
    let ghost head = seq![verb@, "--quiet"@];
    proof {
        assert(strings_view(args@) =~= head + feature_args(features.take(0)));
    }
    let mut i: usize = 0;
    while i < case.features.len()
        invariant
            i <= case.features@.len(),
            features == strings_view(case.features@),
            head == seq![verb@, "--quiet"@],
            strings_view(args@) == head + feature_args(features.take(i as int)),
        decreases case.features@.len() - i,
    {
        let ghost before = strings_view(args@);
        args.push(String::from_str("--features"));
        args.push(case.features[i].clone());
        proof {
            let next = features.take(i + 1);
            assert(next.drop_last() == features.take(i as int));
            assert(next.last() == case.features@[i as int]@);
            assert(strings_view(args@) =~= before + seq!["--features"@, next.last()]);
            assert(feature_args(next) == feature_args(features.take(i as int)) + seq![
                "--features"@,
                next.last(),
            ]);
            assert(strings_view(args@) =~= head + feature_args(next));
        }
        i = i + 1;
    }
    proof {
        assert(features.take(i as int) == features);
    }
    match &case.target {
        Some(triple) => {
            args.push(String::from_str("--target"));
            args.push(triple.clone());
            proof {
                assert(strings_view(args@) =~= head + feature_args(features) + target_args(
                    case@.target,
                ));
            }
        },
        None => {
            proof {
                assert(strings_view(args@) =~= head + feature_args(features) + target_args(
                    case@.target,
                ));
            }
        },
    }
    let command = Invocation {
        tool: String::from_str("cargo"),
        args,
        cwd: Some(case.fixture.clone()),
        env: Vec::new(),
    };
    proof {
        assert(env_view(command.env@) =~= Seq::empty());
    }
    command
}

impl SnapshotCase {
    /// The command that builds the fixture.
    pub fn build_command(&self) -> (command: Invocation)
        ensures
            command@ == build_command(self@),
    {
        cargo("build", self)
    }

    /// The command that runs the fixture.
    pub fn run_command(&self) -> (command: Invocation)
        ensures
            command@ == run_command(self@),
    {
        cargo("run", self)
    }
}

/// The mathematical content of an execution.
pub enum ExecutionView {
    Completed { exit_status: i32, stdout: Seq<u8> },
    Failed { reason: Seq<char> },
}

/// What came of executing a command.
#[derive(Debug, PartialEq, Eq)]
pub enum Execution {
    /// The process ran to its end, with whatever exit status.
    Completed { exit_status: i32, stdout: Vec<u8> },
    /// The process could not be started at all.
    Failed { reason: String },
}

impl View for Execution {
    type V = ExecutionView;

    open spec fn view(&self) -> ExecutionView {
        match self {
            Execution::Completed { exit_status, stdout } => ExecutionView::Completed {
                exit_status: *exit_status,
                stdout: stdout@,
            },
            Execution::Failed { reason } => ExecutionView::Failed { reason: reason@ },
        }
    }
}

/// Why a fixture gave no output to compare.
#[derive(Debug, PartialEq, Eq)]
pub enum BuildFailure {
    /// The build ended with this exit status, which is not zero.
    Exited(i32),
    /// The build or the fixture could not be started.
    NotStarted(String),
}

/// The mathematical content of a build failure.
pub enum BuildFailureView {
    Exited(i32),
    NotStarted(Seq<char>),
}

impl View for BuildFailure {
    type V = BuildFailureView;

    open spec fn view(&self) -> BuildFailureView {
        match self {
            BuildFailure::Exited(status) => BuildFailureView::Exited(*status),
            BuildFailure::NotStarted(reason) => BuildFailureView::NotStarted(reason@),
        }
    }
}

/// What a build says about the fixture: nothing where it succeeded, and else
/// why the fixture cannot be run.
pub open spec fn build_verdict(build: ExecutionView) -> Option<BuildFailureView> {
    match build {
        ExecutionView::Completed { exit_status, stdout } => if exit_status == 0 {
            None
        } else {
            Some(BuildFailureView::Exited(exit_status))
        },
        ExecutionView::Failed { reason } => Some(BuildFailureView::NotStarted(reason)),
    }
}

/// Judges a finished build.
pub fn judge_build(build: &Execution) -> (failure: Option<BuildFailure>)
    ensures
        match failure {
            Some(f) => Some(f@),
            None => None,
        } == build_verdict(build@),
{
    match build {
        Execution::Completed { exit_status, stdout } => {
            if *exit_status == 0 {
                None
            } else {
                Some(BuildFailure::Exited(*exit_status))
            }
        },
        Execution::Failed { reason } => Some(BuildFailure::NotStarted(reason.clone())),
    }
}

/// Captures the output of a fixture that ran, whatever its exit status. A
/// fixture that could not be started gives a build failure instead.
pub fn capture(run: &Execution) -> (captured: Result<CapturedOutput, BuildFailure>)
    ensures
        match captured {
            Ok(output) => run@ matches ExecutionView::Completed { exit_status, stdout }
                && output@.exit_status == exit_status && output@.lines == split_lines(stdout),
            Err(failure) => run@ matches ExecutionView::Failed { reason } && failure@
                == BuildFailureView::NotStarted(reason),
        },
{
    match run {
        Execution::Completed { exit_status, stdout } => Ok(
            CapturedOutput::new(*exit_status, stdout.as_slice()),
        ),
        Execution::Failed { reason } => Err(BuildFailure::NotStarted(reason.clone())),
    }
}

} // verus!
