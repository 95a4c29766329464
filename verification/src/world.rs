//! A model of what surrounds a session, and what holds of whole runs.
//!
//! The world answers the session's actions: it says what each command gives,
//! which goldens are on disk, and which paths refuse to be written. Driving a
//! session against a world gives the results of a run and the world it leaves
//! behind. Nothing here runs: it is all statements and their proofs.

use vstd::prelude::*;
use crate::catalog::CaseView;
use crate::compare::lemma_compare_exact;
use crate::lines::{join_lines, lemma_split_well_formed, split_lines};
use crate::normalize::{lemma_mask_keeps_lines, normalize_spec, valid_rules, RuleView};
use crate::output::OutputView;
use crate::report::{check_outcome, store_outcome, OutcomeView, ResultView};
use crate::runner::{
    build_command, build_verdict, run_command, BuildFailureView, ExecutionView, InvocationView,
};
use crate::session::{
    accepts, begin, conclude, current, finished, lemma_react_valid, next_action, react, valid,
    ActionView, EventView, Mode, SessionView, StageView,
};

verus! {

/// The surroundings of a run.
pub struct World {
    /// What executing a command gives. Fixtures are deterministic: the same
    /// command gives the same execution.
    pub execute: spec_fn(InvocationView) -> ExecutionView,
    /// The goldens on disk, by path.
    pub goldens: Map<Seq<char>, Seq<u8>>,
    /// Why a path cannot be written; `None` for a path that can.
    pub refusal: spec_fn(Seq<char>) -> Option<Seq<char>>,
}

/// The golden at `path`, if there is one.
pub open spec fn golden_at(world: World, path: Seq<char>) -> Option<Seq<u8>> {
    if world.goldens.dom().contains(path) {
        Some(world.goldens[path])
    } else {
        None
    }
}

/// What the world hands back for an action.
pub open spec fn answer(world: World, action: ActionView) -> EventView {
    match action {
        ActionView::Build(command) => EventView::Executed((world.execute)(command)),
        ActionView::Run(command) => EventView::Executed((world.execute)(command)),
        ActionView::LoadGolden { path } => EventView::GoldenLoaded(golden_at(world, path)),
        ActionView::StoreGolden { path, contents } => EventView::GoldenStored(
            (world.refusal)(path),
        ),
        ActionView::Finish => EventView::GoldenLoaded(None),
    }
}

/// The world after an action: only storing a golden at a path that can be
/// written changes anything.
pub open spec fn effect(world: World, action: ActionView) -> World {
    match action {
        ActionView::StoreGolden { path, contents } => if (world.refusal)(path) is None {
            World { goldens: world.goldens.insert(path, contents), ..world }
        } else {
            world
        },
        _ => world,
    }
}

/// The session and the world after at most `steps` actions.
pub open spec fn drive(s: SessionView, world: World, steps: nat) -> (SessionView, World)
    decreases steps,
{
    if steps == 0 || finished(s) {
        (s, world)
    } else {
        let action = next_action(s);
        drive(react(s, answer(world, action)), effect(world, action), (steps - 1) as nat)
    }
}

/// An upper bound on the actions that a session still asks for: three for a
/// case that is not begun, fewer for the case in hand.
pub open spec fn remaining(s: SessionView) -> nat {
    if finished(s) {
        0
    } else {
        (3 * (s.cases.len() - s.results.len()) - match s.stage {
            StageView::Building => 0int,
            StageView::Running => 1int,
            _ => 2int,
        }) as nat
    }
}

/// A whole run: the session driven until every case has its result.
pub open spec fn run(s: SessionView, world: World) -> (SessionView, World) {
    drive(s, world, remaining(s))
}

/// The results of a run of `cases` from the start, and the world it leaves.
pub open spec fn run_cases(
    cases: Seq<CaseView>,
    rules: Seq<RuleView>,
    mode: Mode,
    world: World,
) -> (Seq<ResultView>, World) {
    let end = run(begin(cases, rules, mode), world);
    (end.0.results, end.1)
}

/// The world always answers what was asked, and each answer brings the
/// session nearer to its end.
pub proof fn lemma_progress(s: SessionView, world: World)
    requires
        valid(s),
        !finished(s),
    ensures
        accepts(s, answer(world, next_action(s))),
        remaining(react(s, answer(world, next_action(s)))) < remaining(s),
        valid(react(s, answer(world, next_action(s)))),
{
    lemma_react_valid(s, answer(world, next_action(s)));
}

/// Isolation of failures: whatever the world answers, a run ends with one
/// result for every case, in catalog order and under the case's name. A case
/// that fails to build, to match or to be written does not stop the others.
pub proof fn lemma_run_reports_all(s: SessionView, world: World, steps: nat)
    requires
        valid(s),
        steps >= remaining(s),
    ensures
        finished(drive(s, world, steps).0),
        valid(drive(s, world, steps).0),
        drive(s, world, steps).0.cases == s.cases,
        drive(s, world, steps).0.results.len() == s.cases.len(),
        forall|i: int|
            0 <= i < s.cases.len() ==> (#[trigger] drive(s, world, steps).0.results[i]).name
                == s.cases[i].name,
        s.results.is_prefix_of(drive(s, world, steps).0.results),
    decreases steps,
{
    if finished(s) {
        assert(s.results =~= s.results.subrange(0, s.results.len() as int));
    } else {
        let action = next_action(s);
        let t = react(s, answer(world, action));
        lemma_progress(s, world);
        lemma_react_valid(s, answer(world, action));
        lemma_run_reports_all(t, effect(world, action), (steps - 1) as nat);
        let end = drive(s, world, steps).0;
        assert(s.results =~= end.results.subrange(0, s.results.len() as int)) by {
            assert(s.results =~= t.results.subrange(0, s.results.len() as int));
            assert(t.results =~= end.results.subrange(0, t.results.len() as int));
        }
    }
}

/// Check mode writes nothing: it leaves the world as it found it.
pub proof fn lemma_check_keeps_world(s: SessionView, world: World, steps: nat)
    requires
        valid(s),
        s.mode == Mode::Check,
    ensures
        drive(s, world, steps).1 == world,
    decreases steps,
{
    if steps > 0 && !finished(s) {
        let action = next_action(s);
        lemma_react_valid(s, answer(world, action));
        lemma_check_keeps_world(react(s, answer(world, action)), world, (steps - 1) as nat);
    }
}

/// Idempotence: with nothing changed, running check mode twice in a row over
/// the same cases gives the same results both times.
pub proof fn lemma_check_twice(cases: Seq<CaseView>, rules: Seq<RuleView>, world: World)
    requires
        valid_rules(rules),
    ensures
        run_cases(cases, rules, Mode::Check, run_cases(cases, rules, Mode::Check, world).1).0
            == run_cases(cases, rules, Mode::Check, world).0,
{
    let s = begin(cases, rules, Mode::Check);
    lemma_check_keeps_world(s, world, remaining(s));
}

/// What running one case against a world gives, stated outright: the build
/// decides whether the fixture runs, the run gives the output whatever its
/// exit status, and the mode decides between comparing and storing.
pub open spec fn case_outcome(
    case: CaseView,
    rules: Seq<RuleView>,
    mode: Mode,
    world: World,
) -> (OutcomeView, World) {
    match build_verdict((world.execute)(build_command(case))) {
        Some(failure) => (OutcomeView::BuildFailure(failure), world),
        None => match (world.execute)(run_command(case)) {
            ExecutionView::Failed { reason } => (
                OutcomeView::BuildFailure(BuildFailureView::NotStarted(reason)),
                world,
            ),
            ExecutionView::Completed { exit_status, stdout } => {
                let output = normalize_spec(
                    rules,
                    OutputView { lines: split_lines(stdout), exit_status },
                );
                match mode {
                    Mode::Check => (
                        check_outcome(golden_at(world, case.golden), output.lines),
                        world,
                    ),
                    Mode::Overwrite => (
                        store_outcome((world.refusal)(case.golden)),
                        effect(
                            world,
                            ActionView::StoreGolden {
                                path: case.golden,
                                contents: join_lines(output.lines),
                            },
                        ),
                    ),
                }
            },
        },
    }
}

/// What running `cases` one after the other gives: each case meets the world
/// that the cases before it have left.
pub open spec fn outcomes(
    cases: Seq<CaseView>,
    rules: Seq<RuleView>,
    mode: Mode,
    world: World,
) -> (Seq<ResultView>, World)
    decreases cases.len(),
{
    if cases.len() == 0 {
        (Seq::empty(), world)
    } else {
        let first = case_outcome(cases[0], rules, mode, world);
        let rest = outcomes(cases.drop_first(), rules, mode, first.1);
        (seq![ResultView { name: cases[0].name, outcome: first.0 }] + rest.0, rest.1)
    }
}

/// A run goes on from the session that follows the world's answer.
pub proof fn lemma_run_step(s: SessionView, world: World)
    requires
        valid(s),
        !finished(s),
    ensures
        run(s, world) == run(
            react(s, answer(world, next_action(s))),
            effect(world, next_action(s)),
        ),
{
    let action = next_action(s);
    let t = react(s, answer(world, action));
    lemma_progress(s, world);
    lemma_enough_steps(t, effect(world, action), (remaining(s) - 1) as nat);
}

/// More steps than a session needs change nothing.
pub proof fn lemma_enough_steps(s: SessionView, world: World, steps: nat)
    requires
        valid(s),
        steps >= remaining(s),
    ensures
        drive(s, world, steps) == run(s, world),
    decreases steps,
{
    if !finished(s) {
        let action = next_action(s);
        let t = react(s, answer(world, action));
        lemma_progress(s, world);
        lemma_enough_steps(t, effect(world, action), (steps - 1) as nat);
        lemma_enough_steps(t, effect(world, action), (remaining(s) - 1) as nat);
    }
}

/// A valid session stays valid when the case in hand is closed.
pub proof fn lemma_conclude_valid(s: SessionView, outcome: OutcomeView)
    requires
        valid(s),
        !finished(s),
    ensures
        valid(conclude(s, outcome)),
{
    let t = conclude(s, outcome);
    assert forall|i: int| 0 <= i < t.results.len() implies (#[trigger] t.results[i]).name
        == t.cases[i].name by {
        if i < s.results.len() {
            assert(t.results[i] == s.results[i]);
        }
    }
}

/// From a case that is not begun, a run takes the case through its stages,
/// closes it with the outcome that `case_outcome` states, and goes on.
pub proof fn lemma_run_case(s: SessionView, world: World)
    requires
        valid(s),
        !finished(s),
        s.stage is Building,
    ensures
        run(s, world) == run(
            conclude(s, case_outcome(current(s), s.rules, s.mode, world).0),
            case_outcome(current(s), s.rules, s.mode, world).1,
        ),
{
    let case = current(s);
    lemma_run_step(s, world);
    let s1 = react(s, answer(world, next_action(s)));
    lemma_react_valid(s, answer(world, next_action(s)));
    if build_verdict((world.execute)(build_command(case))) is None {
        assert(s1 == SessionView { stage: StageView::Running, ..s });
        assert(current(s1) == case);
        lemma_run_step(s1, world);
        let s2 = react(s1, answer(world, next_action(s1)));
        lemma_react_valid(s1, answer(world, next_action(s1)));
        if (world.execute)(run_command(case)) is Completed {
            assert(current(s2) == case);
            assert(!finished(s2));
            lemma_run_step(s2, world);
        }
    }
}

/// A run is its cases one after the other: the results that a session has
/// stay, and each case left adds the result that `outcomes` states.
pub proof fn lemma_run_case_by_case(s: SessionView, world: World)
    requires
        valid(s),
        s.stage is Building,
    ensures
        run(s, world).0.results == s.results + outcomes(
            s.cases.skip(s.results.len() as int),
            s.rules,
            s.mode,
            world,
        ).0,
        run(s, world).1 == outcomes(
            s.cases.skip(s.results.len() as int),
            s.rules,
            s.mode,
            world,
        ).1,
    decreases s.cases.len() - s.results.len(),
{
    let left = s.cases.skip(s.results.len() as int);
    if finished(s) {
        assert(left.len() == 0);
        assert(s.results + Seq::<ResultView>::empty() =~= s.results);
    } else {
        let first = case_outcome(current(s), s.rules, s.mode, world);
        let t = conclude(s, first.0);
        lemma_run_case(s, world);
        lemma_conclude_valid(s, first.0);
        lemma_run_case_by_case(t, first.1);
        assert(left[0] == current(s));
        assert(left.drop_first() =~= t.cases.skip(t.results.len() as int));
        let rest = outcomes(left.drop_first(), s.rules, s.mode, first.1);
        assert(t.results + rest.0 =~= s.results + (seq![
            ResultView { name: current(s).name, outcome: first.0 },
        ] + rest.0));
    }
}

/// A run of a catalog from the start is its cases one after the other.
pub proof fn lemma_run_cases(cases: Seq<CaseView>, rules: Seq<RuleView>, mode: Mode, world: World)
    requires
        valid_rules(rules),
    ensures
        run_cases(cases, rules, mode, world) == outcomes(cases, rules, mode, world),
{
    let s = begin(cases, rules, mode);
    lemma_run_case_by_case(s, world);
    assert(cases.skip(0) =~= cases);
    assert(s.results + outcomes(cases, rules, mode, world).0 =~= outcomes(
        cases,
        rules,
        mode,
        world,
    ).0);
}

/// In check mode the cases do not touch each other: every case gets the
/// outcome that it would have if it were run alone.
pub proof fn lemma_check_outcomes(cases: Seq<CaseView>, rules: Seq<RuleView>, world: World)
    ensures
        outcomes(cases, rules, Mode::Check, world).1 == world,
        outcomes(cases, rules, Mode::Check, world).0.len() == cases.len(),
        forall|i: int|
            0 <= i < cases.len() ==> #[trigger] outcomes(cases, rules, Mode::Check, world).0[i]
                == (ResultView {
                name: cases[i].name,
                outcome: case_outcome(cases[i], rules, Mode::Check, world).0,
            }),
    decreases cases.len(),
{
    if cases.len() > 0 {
        let rest = cases.drop_first();
        lemma_check_outcomes(rest, rules, world);
        let all = outcomes(cases, rules, Mode::Check, world).0;
        let tail = outcomes(rest, rules, Mode::Check, world).0;
        assert forall|i: int| 0 <= i < cases.len() implies #[trigger] all[i] == (ResultView {
            name: cases[i].name,
            outcome: case_outcome(cases[i], rules, Mode::Check, world).0,
        }) by {
            if i > 0 {
                assert(all[i] == tail[i - 1]);
                assert(rest[i - 1] == cases[i]);
            }
        }
    }
}

/// Isolation of failures, case by case: in a check of the whole catalog every
/// case is attempted and reported with its own outcome, whatever became of the
/// cases before it.
pub proof fn lemma_check_isolates(cases: Seq<CaseView>, rules: Seq<RuleView>, world: World, i: int)
    requires
        valid_rules(rules),
        0 <= i < cases.len(),
    ensures
        run_cases(cases, rules, Mode::Check, world).0.len() == cases.len(),
        run_cases(cases, rules, Mode::Check, world).0[i] == (ResultView {
            name: cases[i].name,
            outcome: case_outcome(cases[i], rules, Mode::Check, world).0,
        }),
{
    lemma_run_cases(cases, rules, Mode::Check, world);
    lemma_check_outcomes(cases, rules, world);
}

/// What overwrite mode leaves behind is what the masked output spells out:
/// comparing the two finds nothing.
pub proof fn lemma_recorded_golden_passes(case: CaseView, rules: Seq<RuleView>, world: World)
    requires
        valid_rules(rules),
        case_outcome(case, rules, Mode::Overwrite, world).0 is Recorded,
    ensures
        case_outcome(
            case,
            rules,
            Mode::Check,
            case_outcome(case, rules, Mode::Overwrite, world).1,
        ).0 is Pass,
{
    let after = case_outcome(case, rules, Mode::Overwrite, world).1;
    assert(after.execute == world.execute);
    match (world.execute)(run_command(case)) {
        ExecutionView::Completed { exit_status, stdout } => {
            let output = normalize_spec(
                rules,
                OutputView { lines: split_lines(stdout), exit_status },
            );
            lemma_split_well_formed(stdout);
            lemma_mask_keeps_lines(rules, split_lines(stdout));
            lemma_compare_exact(join_lines(output.lines), output.lines);
            assert(golden_at(after, case.golden) == Some(join_lines(output.lines)));
        },
        _ => {},
    }
}

/// Round trip: where overwrite mode has recorded the golden of a case, check
/// mode run right after it on the same case passes.
pub proof fn lemma_overwrite_then_check(case: CaseView, rules: Seq<RuleView>, world: World)
    requires
        valid_rules(rules),
        run_cases(seq![case], rules, Mode::Overwrite, world).0[0].outcome is Recorded,
    ensures
        run_cases(
            seq![case],
            rules,
            Mode::Check,
            run_cases(seq![case], rules, Mode::Overwrite, world).1,
        ).0[0].outcome is Pass,
{
    let cases = seq![case];
    lemma_run_cases(cases, rules, Mode::Overwrite, world);
    let after = run_cases(cases, rules, Mode::Overwrite, world).1;
    lemma_run_cases(cases, rules, Mode::Check, after);
    assert(cases.drop_first().len() == 0);
    let first = case_outcome(case, rules, Mode::Overwrite, world);
    assert(outcomes(cases.drop_first(), rules, Mode::Overwrite, first.1).1 == first.1);
    assert(after == first.1);
    lemma_recorded_golden_passes(case, rules, world);
}

/// Overwrite mode always records where the fixture runs and the path can be
/// written, whatever golden was there before, and what it leaves at the path
/// is exactly the masked output.
pub proof fn lemma_overwrite_records(case: CaseView, rules: Seq<RuleView>, world: World)
    requires
        valid_rules(rules),
        build_verdict((world.execute)(build_command(case))) is None,
        (world.execute)(run_command(case)) is Completed,
        (world.refusal)(case.golden) is None,
    ensures
        run_cases(seq![case], rules, Mode::Overwrite, world).0[0].outcome is Recorded,
        golden_at(run_cases(seq![case], rules, Mode::Overwrite, world).1, case.golden) == Some(
            join_lines(
                normalize_spec(
                    rules,
                    OutputView {
                        lines: split_lines((world.execute)(run_command(case))->stdout),
                        exit_status: (world.execute)(run_command(case))->exit_status,
                    },
                ).lines,
            ),
        ),
{
    let cases = seq![case];
    lemma_run_cases(cases, rules, Mode::Overwrite, world);
    assert(cases.drop_first().len() == 0);
    let first = case_outcome(case, rules, Mode::Overwrite, world);
    assert(outcomes(cases.drop_first(), rules, Mode::Overwrite, first.1).1 == first.1);
}

/// Whether no two of `cases` keep their golden at the same path.
pub open spec fn distinct_goldens(cases: Seq<CaseView>) -> bool {
    forall|i: int, j: int|
        0 <= i < j < cases.len() ==> (#[trigger] cases[i]).golden != (#[trigger] cases[j]).golden
}

/// In overwrite mode every case gets the outcome that it would have if it
/// were run alone, commands and refusals stay what they were, and a path that
/// is no case's golden keeps what it held.
pub proof fn lemma_overwrite_outcomes(cases: Seq<CaseView>, rules: Seq<RuleView>, world: World)
    ensures
        outcomes(cases, rules, Mode::Overwrite, world).1.execute == world.execute,
        outcomes(cases, rules, Mode::Overwrite, world).1.refusal == world.refusal,
        outcomes(cases, rules, Mode::Overwrite, world).0.len() == cases.len(),
        forall|i: int|
            0 <= i < cases.len() ==> #[trigger] outcomes(
                cases,
                rules,
                Mode::Overwrite,
                world,
            ).0[i] == (ResultView {
                name: cases[i].name,
                outcome: case_outcome(cases[i], rules, Mode::Overwrite, world).0,
            }),
        forall|path: Seq<char>|
            (forall|i: int| 0 <= i < cases.len() ==> (#[trigger] cases[i]).golden != path)
                ==> golden_at(outcomes(cases, rules, Mode::Overwrite, world).1, path) == golden_at(
                world,
                path,
            ),
    decreases cases.len(),
{
    if cases.len() > 0 {
        let rest = cases.drop_first();
        let first = case_outcome(cases[0], rules, Mode::Overwrite, world);
        lemma_overwrite_outcomes(rest, rules, first.1);
        let all = outcomes(cases, rules, Mode::Overwrite, world);
        let tail = outcomes(rest, rules, Mode::Overwrite, first.1);
        assert forall|i: int| 0 <= i < cases.len() implies #[trigger] all.0[i] == (ResultView {
            name: cases[i].name,
            outcome: case_outcome(cases[i], rules, Mode::Overwrite, world).0,
        }) by {
            if i > 0 {
                assert(all.0[i] == tail.0[i - 1]);
                assert(rest[i - 1] == cases[i]);
            }
        }
        assert forall|path: Seq<char>|
            (forall|i: int|
                0 <= i < cases.len() ==> (#[trigger] cases[i]).golden != path) implies golden_at(
            all.1,
            path,
        ) == golden_at(world, path) by {
            assert(cases[0].golden != path);
            assert forall|i: int| 0 <= i < rest.len() implies (#[trigger] rest[i]).golden
                != path by {
                assert(rest[i] == cases[i + 1]);
            }
            assert(golden_at(tail.1, path) == golden_at(first.1, path));
            assert(golden_at(first.1, path) == golden_at(world, path));
            assert(all.1 == tail.1);
        }
    }
}

/// Where goldens lie at different paths, the golden of a case that was
/// recorded is still what that case recorded when the run is over.
pub proof fn lemma_recorded_stays(cases: Seq<CaseView>, rules: Seq<RuleView>, world: World, i: int)
    requires
        distinct_goldens(cases),
        0 <= i < cases.len(),
    ensures
        case_outcome(cases[i], rules, Mode::Overwrite, world).0 is Recorded ==> golden_at(
            outcomes(cases, rules, Mode::Overwrite, world).1,
            cases[i].golden,
        ) == golden_at(case_outcome(cases[i], rules, Mode::Overwrite, world).1, cases[i].golden),
    decreases cases.len(),
{
    let rest = cases.drop_first();
    let first = case_outcome(cases[0], rules, Mode::Overwrite, world);
    assert forall|a: int, b: int| 0 <= a < b < rest.len() implies (#[trigger] rest[a]).golden != (
    #[trigger] rest[b]).golden by {
        assert(rest[a] == cases[a + 1]);
        assert(rest[b] == cases[b + 1]);
    }
    lemma_overwrite_outcomes(rest, rules, first.1);
    if i == 0 {
        assert forall|j: int| 0 <= j < rest.len() implies (#[trigger] rest[j]).golden
            != cases[0].golden by {
            assert(rest[j] == cases[j + 1]);
        }
    } else {
        lemma_recorded_stays(rest, rules, first.1, i - 1);
        assert(rest[i - 1] == cases[i]);
        assert(first.1.execute == world.execute);
        assert(first.1.refusal == world.refusal);
        let case = cases[i];
        if case_outcome(case, rules, Mode::Overwrite, world).0 is Recorded {
            assert(case_outcome(case, rules, Mode::Overwrite, first.1).0 is Recorded);
            assert(golden_at(
                case_outcome(case, rules, Mode::Overwrite, first.1).1,
                case.golden,
            ) == golden_at(case_outcome(case, rules, Mode::Overwrite, world).1, case.golden));
        }
    }
}

/// Round trip over a whole catalog: where goldens lie at different paths,
/// every case that overwrite mode has recorded passes when the catalog is
/// checked right after.
pub proof fn lemma_overwrite_all_then_check_all(
    cases: Seq<CaseView>,
    rules: Seq<RuleView>,
    world: World,
    i: int,
)
    requires
        valid_rules(rules),
        distinct_goldens(cases),
        0 <= i < cases.len(),
        run_cases(cases, rules, Mode::Overwrite, world).0[i].outcome is Recorded,
    ensures
        run_cases(
            cases,
            rules,
            Mode::Check,
            run_cases(cases, rules, Mode::Overwrite, world).1,
        ).0[i].outcome is Pass,
{
    lemma_run_cases(cases, rules, Mode::Overwrite, world);
    let after = run_cases(cases, rules, Mode::Overwrite, world).1;
    lemma_run_cases(cases, rules, Mode::Check, after);
    lemma_overwrite_outcomes(cases, rules, world);
    lemma_check_outcomes(cases, rules, after);
    lemma_recorded_stays(cases, rules, world, i);
    lemma_recorded_golden_passes(cases[i], rules, world);
    let case = cases[i];
    let alone = case_outcome(case, rules, Mode::Overwrite, world).1;
    assert(after.execute == alone.execute);
    assert(golden_at(after, case.golden) == golden_at(alone, case.golden));
}

} // verus!
