//! A run over the catalog, as a state machine.
//!
//! The session decides; the caller acts. The session names the next action
//! (build a fixture, run it, load a golden, store one), the caller performs it
//! and hands back what happened, and the session moves on. Cases are taken one
//! at a time in catalog order, and a case that fails never stops the run.

use vstd::prelude::*;
use crate::catalog::{
    cases_view, lemma_find_case, optional_name, selection, CaseView, Catalog, SnapshotCase,
    SnapshotError,
};
use crate::lines::{join_lines, lemma_split_well_formed, split_lines, well_formed};
use crate::normalize::{
    lemma_mask_keeps_lines, normalize_spec, valid_rules, NormalizedOutput, Normalizer, RuleView,
};
use crate::output::OutputView;
use crate::report::{
    check_outcome, golden_view, refusal_view, results_view, store_outcome, tally_of, Outcome,
    OutcomeView, ResultView, SnapshotResult, Tally,
};
use crate::runner::{
    build_command, build_verdict, capture, judge_build, run_command, BuildFailureView, Execution,
    ExecutionView, Invocation, InvocationView,
};

verus! {

/// Whether goldens are checked or written.
#[derive(Clone, Copy, PartialEq, Eq, Structural, Debug)]
pub enum Mode {
    /// Compare the output with the golden.
    Check,
    /// Make the output the new golden.
    Overwrite,
}

/// What the current case waits for.
pub enum StageView {
    Building,
    Running,
    Comparing(OutputView),
    Overwriting(OutputView),
}

/// The mathematical content of a session. The case in hand is the one at
/// index `results.len()`; the run is over when every case has a result.
pub struct SessionView {
    pub cases: Seq<CaseView>,
    pub rules: Seq<RuleView>,
    pub mode: Mode,
    pub stage: StageView,
    pub results: Seq<ResultView>,
}

/// The mathematical content of an action.
pub enum ActionView {
    Build(InvocationView),
    Run(InvocationView),
    LoadGolden { path: Seq<char> },
    StoreGolden { path: Seq<char>, contents: Seq<u8> },
    Finish,
}

/// The mathematical content of an event.
pub enum EventView {
    Executed(ExecutionView),
    GoldenLoaded(Option<Seq<u8>>),
    GoldenStored(Option<Seq<char>>),
}

/// The states that a session can be in: a result for each case that is done,
/// under that case's name, and well-formed lines in hand.
pub open spec fn valid(s: SessionView) -> bool {
    &&& s.results.len() <= s.cases.len()
    &&& forall|i: int|
        0 <= i < s.results.len() ==> (#[trigger] s.results[i]).name == s.cases[i].name
    &&& valid_rules(s.rules)
    &&& match s.stage {
        StageView::Comparing(output) => s.mode == Mode::Check && well_formed(output.lines),
        StageView::Overwriting(output) => s.mode == Mode::Overwrite && well_formed(output.lines),
        _ => true,
    }
}

/// Whether every case has its result.
pub open spec fn finished(s: SessionView) -> bool {
    s.results.len() >= s.cases.len()
}

/// The case in hand.
pub open spec fn current(s: SessionView) -> CaseView {
    s.cases[s.results.len() as int]
}

/// The session at the start of a run over `cases`.
pub open spec fn begin(cases: Seq<CaseView>, rules: Seq<RuleView>, mode: Mode) -> SessionView {
    SessionView { cases, rules, mode, stage: StageView::Building, results: Seq::empty() }
}

/// The session at the start of a run of `catalog`: over all cases, or over the
/// one that `single` names. There is none where that name is unknown.
pub open spec fn initial(
    catalog: Seq<CaseView>,
    single: Option<Seq<char>>,
    rules: Seq<RuleView>,
    mode: Mode,
) -> Option<SessionView> {
    match selection(catalog, single) {
        Some(cases) => Some(begin(cases, rules, mode)),
        None => None,
    }
}

/// Unknown-case rejection: a name that no case of the catalog bears starts no
/// session, whatever the mode, so that nothing is ever built for it. A name
/// that a case bears starts a session over that case alone.
pub proof fn lemma_unknown_case(
    catalog: Seq<CaseView>,
    name: Seq<char>,
    rules: Seq<RuleView>,
    mode: Mode,
)
    ensures
        initial(catalog, Some(name), rules, mode) is None <==> forall|i: int|
            0 <= i < catalog.len() ==> (#[trigger] catalog[i]).name != name,
        initial(catalog, Some(name), rules, mode) matches Some(s) ==> s.cases.len() == 1
            && s.cases[0].name == name && s.results.len() == 0,
{
    lemma_find_case(catalog, name);
}

/// What the session asks for next.
pub open spec fn next_action(s: SessionView) -> ActionView {
    if finished(s) {
        ActionView::Finish
    } else {
        match s.stage {
            StageView::Building => ActionView::Build(build_command(current(s))),
            StageView::Running => ActionView::Run(run_command(current(s))),
            StageView::Comparing(_) => ActionView::LoadGolden { path: current(s).golden },
            StageView::Overwriting(output) => ActionView::StoreGolden {
                path: current(s).golden,
                contents: join_lines(output.lines),
            },
        }
    }
}

/// Whether `event` answers the action that the session asked for.
pub open spec fn accepts(s: SessionView, event: EventView) -> bool {
    !finished(s) && match s.stage {
        StageView::Building => event is Executed,
        StageView::Running => event is Executed,
        StageView::Comparing(_) => event is GoldenLoaded,
        StageView::Overwriting(_) => event is GoldenStored,
    }
}

/// The session with the case in hand closed by `outcome`, ready for the next.
pub open spec fn conclude(s: SessionView, outcome: OutcomeView) -> SessionView {
    SessionView {
        stage: StageView::Building,
        results: s.results.push(ResultView { name: current(s).name, outcome }),
        ..s
    }
}

/// The session after an event that it accepts.
pub open spec fn step(s: SessionView, event: EventView) -> SessionView {
    match (s.stage, event) {
        (StageView::Building, EventView::Executed(build)) => match build_verdict(build) {
            None => SessionView { stage: StageView::Running, ..s },
            Some(failure) => conclude(s, OutcomeView::BuildFailure(failure)),
        },
        (StageView::Running, EventView::Executed(run)) => match run {
            ExecutionView::Completed { exit_status, stdout } => {
                let output = normalize_spec(
                    s.rules,
                    OutputView { lines: split_lines(stdout), exit_status },
                );
                match s.mode {
                    Mode::Check => SessionView { stage: StageView::Comparing(output), ..s },
                    Mode::Overwrite => SessionView { stage: StageView::Overwriting(output), ..s },
                }
            },
            ExecutionView::Failed { reason } => conclude(
                s,
                OutcomeView::BuildFailure(BuildFailureView::NotStarted(reason)),
            ),
        },
        (StageView::Comparing(output), EventView::GoldenLoaded(golden)) => conclude(
            s,
            check_outcome(golden, output.lines),
        ),
        (StageView::Overwriting(_), EventView::GoldenStored(refusal)) => conclude(
            s,
            store_outcome(refusal),
        ),
        _ => s,
    }
}

/// The session after any event: an event that does not answer the pending
/// action changes nothing.
pub open spec fn react(s: SessionView, event: EventView) -> SessionView {
    if accepts(s, event) {
        step(s, event)
    } else {
        s
    }
}

/// Events keep the session valid, and never take a result back: what is
/// reported stays reported.
pub proof fn lemma_react_valid(s: SessionView, event: EventView)
    requires
        valid(s),
    ensures
        valid(react(s, event)),
        react(s, event).cases == s.cases,
        react(s, event).rules == s.rules,
        react(s, event).mode == s.mode,
        s.results.is_prefix_of(react(s, event).results),
        react(s, event).results.len() <= s.results.len() + 1,
{
    let t = react(s, event);
    if accepts(s, event) {
        match (s.stage, event) {
            (StageView::Running, EventView::Executed(run)) => {
                if let ExecutionView::Completed { exit_status, stdout } = run {
                    lemma_split_well_formed(stdout);
                    lemma_mask_keeps_lines(s.rules, split_lines(stdout));
                }
            },
            _ => {},
        }
        assert forall|i: int| 0 <= i < t.results.len() implies (#[trigger] t.results[i]).name
            == t.cases[i].name by {
            if i < s.results.len() {
                assert(t.results[i] == s.results[i]);
            }
        }
    }
    assert(s.results =~= t.results.subrange(0, s.results.len() as int));
}

/// An action for the caller to perform.
#[derive(Debug, PartialEq, Eq)]
pub enum Action {
    /// Build the fixture of the case in hand with this command.
    Build(Invocation),
    /// Run the fixture of the case in hand with this command.
    Run(Invocation),
    /// Read the golden at `path`, if there is one.
    LoadGolden { path: String },
    /// Write `contents` to the golden at `path`, making its directories.
    StoreGolden { path: String, contents: Vec<u8> },
    /// Nothing is left to do.
    Finish,
}

impl View for Action {
    type V = ActionView;

    open spec fn view(&self) -> ActionView {
        match self {
            Action::Build(command) => ActionView::Build(command@),
            Action::Run(command) => ActionView::Run(command@),
            Action::LoadGolden { path } => ActionView::LoadGolden { path: path@ },
            Action::StoreGolden { path, contents } => ActionView::StoreGolden {
                path: path@,
                contents: contents@,
            },
            Action::Finish => ActionView::Finish,
        }
    }
}

/// What happened when the caller performed an action.
#[derive(Debug, PartialEq, Eq)]
pub enum Event {
    /// A build or a run came back.
    Executed(Execution),
    /// The golden was read; `None` where there is none.
    GoldenLoaded(Option<Vec<u8>>),
    /// The golden was written, or could not be.
    GoldenStored(Result<(), String>),
}

impl View for Event {
    type V = EventView;

    open spec fn view(&self) -> EventView {
        match self {
            Event::Executed(execution) => EventView::Executed(execution@),
            Event::GoldenLoaded(golden) => EventView::GoldenLoaded(golden_view(*golden)),
            Event::GoldenStored(stored) => EventView::GoldenStored(refusal_view(*stored)),
        }
    }
}

/// What the case in hand waits for, with the output where it has one.
#[derive(Debug)]
enum Stage {
    Building,
    Running,
    Comparing(NormalizedOutput),
    Overwriting(NormalizedOutput),
}

impl View for Stage {
    type V = StageView;

    closed spec fn view(&self) -> StageView {
        match self {
            Stage::Building => StageView::Building,
            Stage::Running => StageView::Running,
            Stage::Comparing(output) => StageView::Comparing(output@),
            Stage::Overwriting(output) => StageView::Overwriting(output@),
        }
    }
}

/// One run over the cases selected from a catalog.
#[derive(Debug)]
pub struct Session {
    cases: Vec<SnapshotCase>,
    normalizer: Normalizer,
    mode: Mode,
    stage: Stage,
    results: Vec<SnapshotResult>,
}

impl View for Session {
    type V = SessionView;

    closed spec fn view(&self) -> SessionView {
        SessionView {
            cases: cases_view(self.cases@),
            rules: self.normalizer@,
            mode: self.mode,
            stage: self.stage@,
            results: results_view(self.results@),
        }
    }
}

impl Session {
    #[verifier::type_invariant]
    spec fn inv(self) -> bool {
        valid(self@)
    }

    /// Starts a run of `catalog`: over all cases in their declared order, or
    /// over the single case that is named. An unknown name is refused here,
    /// before anything is built.
    pub fn start(
        catalog: &Catalog,
        single: Option<&str>,
        mode: Mode,
        normalizer: Normalizer,
    ) -> (started: Result<Session, SnapshotError>)
        ensures
            match started {
                Ok(session) => Some(session@) == initial(
                    catalog@,
                    optional_name(single),
                    normalizer@,
                    mode,
                ) && valid(session@),
                Err(error) => initial(catalog@, optional_name(single), normalizer@, mode) is None
                    && error@ is UnknownCase && optional_name(single) == Some(
                    error@->UnknownCase_0,
                ),
            },
    {
        match catalog.select(single) {
            Ok(cases) => {
                let _ = normalizer.rules();
                let session = Session {
                    cases,
                    normalizer,
                    mode,
                    stage: Stage::Building,
                    results: Vec::new(),
                };
                proof {
                    assert(session@.results =~= Seq::<ResultView>::empty());
                }
                Ok(session)
            },
            Err(error) => Err(error),
        }
    }

    /// Whether every case has its result.
    pub fn is_finished(&self) -> (done: bool)
        ensures
            done == finished(self@),
            valid(self@),
    {
        proof {
            use_type_invariant(self);
        }
        self.results.len() >= self.cases.len()
    }

    /// The mode of the run.
    pub fn mode(&self) -> (mode: Mode)
        ensures
            mode == self@.mode,
    {
        self.mode
    }

    /// The action that the session waits for.
    pub fn next_action(&self) -> (action: Action)
        ensures
            action@ == next_action(self@),
            valid(self@),
    {
        proof {
            use_type_invariant(self);
        }
        if self.results.len() >= self.cases.len() {
            return Action::Finish;
        }
        let case = &self.cases[self.results.len()];
        match &self.stage {
            Stage::Building => Action::Build(case.build_command()),
            Stage::Running => Action::Run(case.run_command()),
            Stage::Comparing(_) => Action::LoadGolden { path: case.golden.clone() },
            Stage::Overwriting(output) => Action::StoreGolden {
                path: case.golden.clone(),
                contents: output.to_bytes(),
            },
        }
    }

    /// Closes the case in hand with `outcome`.
    fn conclude(self, outcome: Outcome) -> (next: Session)
        requires
            !finished(self@),
        ensures
            next@ == conclude(self@, outcome@),
            valid(next@),
    {
        proof {
            use_type_invariant(&self);
        }
        let ghost before = self@;
        let name = self.cases[self.results.len()].name.clone();
        let mut results = self.results;
        results.push(SnapshotResult { name, outcome });
        proof {
            let after = results_view(results@);
            assert(after =~= before.results.push(
                ResultView { name: current(before).name, outcome: outcome@ },
            ));
            assert forall|i: int| 0 <= i < after.len() implies (#[trigger] after[i]).name
                == before.cases[i].name by {
                if i < before.results.len() {
                    assert(after[i] == before.results[i]);
                }
            }
        }
        Session {
            cases: self.cases,
            normalizer: self.normalizer,
            mode: self.mode,
            stage: Stage::Building,
            results,
        }
    }

    /// Moves the case in hand to `stage`.
    fn advance(self, stage: Stage) -> (next: Session)
        requires
            valid(SessionView { stage: stage@, ..self@ }),
        ensures
            next@ == (SessionView { stage: stage@, ..self@ }),
            valid(next@),
    {
        Session {
            cases: self.cases,
            normalizer: self.normalizer,
            mode: self.mode,
            stage,
            results: self.results,
        }
    }

    /// Whether `event` answers the action that the session waits for.
    pub fn accepts(&self, event: &Event) -> (accepted: bool)
        ensures
            accepted == accepts(self@, event@),
    {
        if self.results.len() >= self.cases.len() {
            return false;
        }
        match (&self.stage, event) {
            (Stage::Building, Event::Executed(_)) => true,
            (Stage::Running, Event::Executed(_)) => true,
            (Stage::Comparing(_), Event::GoldenLoaded(_)) => true,
            (Stage::Overwriting(_), Event::GoldenStored(_)) => true,
            _ => false,
        }
    }

    /// Takes in what happened and gives the session that follows. An event
    /// that does not answer the pending action changes nothing.
    pub fn handle(self, event: Event) -> (next: Session)
        ensures
            next@ == react(self@, event@),
            valid(next@),
    {
        proof {
            use_type_invariant(&self);
        }
        if !self.accepts(&event) {
            return self;
        }
        match event {
            Event::Executed(execution) => {
                match &self.stage {
                    Stage::Building => {
                        match judge_build(&execution) {
                            None => self.advance(Stage::Running),
                            Some(failure) => self.conclude(Outcome::BuildFailure(failure)),
                        }
                    },
                    _ => {
                        match capture(&execution) {
                            Ok(captured) => {
                                let output = self.normalizer.normalize(&captured);
                                match self.mode {
                                    Mode::Check => self.advance(Stage::Comparing(output)),
                                    Mode::Overwrite => self.advance(Stage::Overwriting(output)),
                                }
                            },
                            Err(failure) => self.conclude(Outcome::BuildFailure(failure)),
                        }
                    },
                }
            },
            Event::GoldenLoaded(golden) => {
                let outcome = match &self.stage {
                    Stage::Comparing(output) => Outcome::check(&golden, output),
                    _ => Outcome::MissingGolden,
                };
                self.conclude(outcome)
            },
            Event::GoldenStored(stored) => self.conclude(Outcome::store(stored)),
        }
    }

    /// The results so far, one for each case that is done, in catalog order.
    pub fn results(&self) -> (results: &Vec<SnapshotResult>)
        ensures
            results_view(results@) == self@.results,
            valid(self@),
    {
        proof {
            use_type_invariant(self);
        }
        &self.results
    }

    /// The tally of the results so far.
    pub fn tally(&self) -> (tally: Tally)
        ensures
            tally@ == tally_of(self@.results),
    {
        Tally::of(&self.results)
    }
}

} // verus!
