//! The outcome of each case, and the tally over a run.

use vstd::prelude::*;
use crate::compare::{compare, compare_spec, Comparison, Difference, DifferenceView};
use crate::lines::join_lines;
use crate::normalize::NormalizedOutput;
use crate::runner::{BuildFailure, BuildFailureView};

verus! {

/// The mathematical content of an outcome.
pub enum OutcomeView {
    Pass,
    Mismatch(DifferenceView),
    MissingGolden,
    BuildFailure(BuildFailureView),
    Recorded,
    WriteFailure(Seq<char>),
}

/// How one case ended.
#[derive(Debug, PartialEq, Eq)]
pub enum Outcome {
    /// Check mode: the masked output is the golden.
    Pass,
    /// Check mode: the masked output departs from the golden.
    Mismatch(Difference),
    /// Check mode: there is no golden yet; overwrite mode makes one.
    MissingGolden,
    /// The fixture could not be built or started.
    BuildFailure(BuildFailure),
    /// Overwrite mode: the masked output is the new golden.
    Recorded,
    /// Overwrite mode: the golden could not be written.
    WriteFailure(String),
}

impl View for Outcome {
    type V = OutcomeView;

    open spec fn view(&self) -> OutcomeView {
        match self {
            Outcome::Pass => OutcomeView::Pass,
            Outcome::Mismatch(diff) => OutcomeView::Mismatch(diff@),
            Outcome::MissingGolden => OutcomeView::MissingGolden,
            Outcome::BuildFailure(failure) => OutcomeView::BuildFailure(failure@),
            Outcome::Recorded => OutcomeView::Recorded,
            Outcome::WriteFailure(reason) => OutcomeView::WriteFailure(reason@),
        }
    }
}

/// Whether an outcome counts as a failure of the run.
pub open spec fn is_failure(outcome: OutcomeView) -> bool {
    !(outcome is Pass || outcome is Recorded)
}

/// What check mode makes of the golden that was found (`None` where there is
/// none) and the masked lines.
pub open spec fn check_outcome(golden: Option<Seq<u8>>, actual: Seq<Seq<u8>>) -> OutcomeView {
    match golden {
        None => OutcomeView::MissingGolden,
        Some(text) => match compare_spec(text, actual) {
            None => OutcomeView::Pass,
            Some(diff) => OutcomeView::Mismatch(diff),
        },
    }
}

/// What overwrite mode makes of the attempt to write the golden (`None` where
/// it was written, else why it was not).
pub open spec fn store_outcome(refusal: Option<Seq<char>>) -> OutcomeView {
    match refusal {
        None => OutcomeView::Recorded,
        Some(reason) => OutcomeView::WriteFailure(reason),
    }
}

/// The content of an optional text.
pub open spec fn golden_view(golden: Option<Vec<u8>>) -> Option<Seq<u8>> {
    match golden {
        Some(text) => Some(text@),
        None => None,
    }
}

/// The refusal that an attempt to write holds.
pub open spec fn refusal_view(stored: Result<(), String>) -> Option<Seq<char>> {
    match stored {
        Ok(_) => None,
        Err(reason) => Some(reason@),
    }
}

impl Outcome {
    /// Whether the outcome counts as a failure of the run.
    pub fn is_failure(&self) -> (failed: bool)
        ensures
            failed == is_failure(self@),
    {
        match self {
            Outcome::Pass => false,
            Outcome::Recorded => false,
            _ => true,
        }
    }

    /// The outcome of check mode for the golden found and the masked output.
    pub fn check(golden: &Option<Vec<u8>>, actual: &NormalizedOutput) -> (outcome: Outcome)
        ensures
            outcome@ == check_outcome(golden_view(*golden), actual@.lines),
            outcome is Pass <==> golden_view(*golden) == Some(join_lines(actual@.lines)),
    {
        match golden {
            None => Outcome::MissingGolden,
            Some(text) => match compare(text.as_slice(), actual) {
                Comparison::Same => Outcome::Pass,
                Comparison::Different(diff) => Outcome::Mismatch(diff),
            },
        }
    }

    /// The outcome of overwrite mode for the attempt to write the golden.
    pub fn store(stored: Result<(), String>) -> (outcome: Outcome)
        ensures
            outcome@ == store_outcome(refusal_view(stored)),
    {
        match stored {
            Ok(_) => Outcome::Recorded,
            Err(reason) => Outcome::WriteFailure(reason),
        }
    }
}

/// The mathematical content of a result.
pub struct ResultView {
    pub name: Seq<char>,
    pub outcome: OutcomeView,
}

/// The outcome of one case, under the case's name.
#[derive(Debug, PartialEq, Eq)]
pub struct SnapshotResult {
    pub name: String,
    pub outcome: Outcome,
}

impl View for SnapshotResult {
    type V = ResultView;

    open spec fn view(&self) -> ResultView {
        ResultView { name: self.name@, outcome: self.outcome@ }
    }
}

/// The results held by a vector of results.
pub open spec fn results_view(results: Seq<SnapshotResult>) -> Seq<ResultView> {
    Seq::new(results.len(), |i: int| results[i]@)
}

/// The counts of a tally.
pub struct TallyView {
    pub passed: nat,
    pub mismatched: nat,
    pub missing: nat,
    pub build_failures: nat,
    pub recorded: nat,
    pub write_failures: nat,
}

/// The tally with nothing counted.
pub open spec fn empty_tally() -> TallyView {
    TallyView {
        passed: 0,
        mismatched: 0,
        missing: 0,
        build_failures: 0,
        recorded: 0,
        write_failures: 0,
    }
}

/// `tally` with one more outcome counted.
pub open spec fn count_outcome(tally: TallyView, outcome: OutcomeView) -> TallyView {
    match outcome {
        OutcomeView::Pass => TallyView { passed: tally.passed + 1, ..tally },
        OutcomeView::Mismatch(_) => TallyView { mismatched: tally.mismatched + 1, ..tally },
        OutcomeView::MissingGolden => TallyView { missing: tally.missing + 1, ..tally },
        OutcomeView::BuildFailure(_) => TallyView {
            build_failures: tally.build_failures + 1,
            ..tally
        },
        OutcomeView::Recorded => TallyView { recorded: tally.recorded + 1, ..tally },
        OutcomeView::WriteFailure(_) => TallyView {
            write_failures: tally.write_failures + 1,
            ..tally
        },
    }
}

/// The tally of `results`: how many cases ended in each way.
pub open spec fn tally_of(results: Seq<ResultView>) -> TallyView
    decreases results.len(),
{
    if results.len() == 0 {
        empty_tally()
    } else {
        count_outcome(tally_of(results.drop_last()), results.last().outcome)
    }
}

/// The number of outcomes that a tally counts.
pub open spec fn tally_total(tally: TallyView) -> nat {
    tally.passed + tally.mismatched + tally.missing + tally.build_failures + tally.recorded
        + tally.write_failures
}

/// The number of failures that a tally counts.
pub open spec fn tally_failures(tally: TallyView) -> nat {
    tally.mismatched + tally.missing + tally.build_failures + tally.write_failures
}

/// The number of failures among `results`.
pub open spec fn failures_in(results: Seq<ResultView>) -> nat
    decreases results.len(),
{
    if results.len() == 0 {
        0
    } else {
        failures_in(results.drop_last()) + if is_failure(results.last().outcome) {
            1nat
        } else {
            0nat
        }
    }
}

/// A tally counts every result once, and its failures are the failures among
/// the results.
pub proof fn lemma_tally_counts(results: Seq<ResultView>)
    ensures
        tally_total(tally_of(results)) == results.len(),
        tally_failures(tally_of(results)) == failures_in(results),
    decreases results.len(),
{
    if results.len() > 0 {
        lemma_tally_counts(results.drop_last());
    }
}

/// How many cases of a run ended in each way.
#[derive(Debug)]
pub struct Tally {
    passed: usize,
    mismatched: usize,
    missing: usize,
    build_failures: usize,
    recorded: usize,
    write_failures: usize,
}

impl View for Tally {
    type V = TallyView;

    closed spec fn view(&self) -> TallyView {
        TallyView {
            passed: self.passed as nat,
            mismatched: self.mismatched as nat,
            missing: self.missing as nat,
            build_failures: self.build_failures as nat,
            recorded: self.recorded as nat,
            write_failures: self.write_failures as nat,
        }
    }
}

impl Tally {
    #[verifier::type_invariant]
    spec fn inv(self) -> bool {
        self.passed + self.mismatched + self.missing + self.build_failures + self.recorded
            + self.write_failures <= usize::MAX
    }

    /// Counts the outcomes of `results`.
    pub fn of(results: &Vec<SnapshotResult>) -> (tally: Tally)
        ensures
            tally@ == tally_of(results_view(results@)),
    {
        let ghost all = results_view(results@);
        let mut tally = Tally {
            passed: 0,
            mismatched: 0,
            missing: 0,
            build_failures: 0,
            recorded: 0,
            write_failures: 0,
        };
        let mut i: usize = 0;
        while i < results.len()
            invariant
                i <= results@.len(),
                all == results_view(results@),
                tally@ == tally_of(all.take(i as int)),
                tally_total(tally@) == i,
            decreases results@.len() - i,
        {
            proof {
                let next = all.take(i + 1);
                assert(next.drop_last() == all.take(i as int));
                assert(next.last().outcome == results@[i as int].outcome@);
            }
            tally = match &results[i].outcome {
                Outcome::Pass => Tally { passed: tally.passed + 1, ..tally },
                Outcome::Mismatch(_) => Tally { mismatched: tally.mismatched + 1, ..tally },
                Outcome::MissingGolden => Tally { missing: tally.missing + 1, ..tally },
                Outcome::BuildFailure(_) => Tally {
                    build_failures: tally.build_failures + 1,
                    ..tally
                },
                Outcome::Recorded => Tally { recorded: tally.recorded + 1, ..tally },
                Outcome::WriteFailure(_) => Tally {
                    write_failures: tally.write_failures + 1,
                    ..tally
                },
            };
            i = i + 1;
        }
        proof {
            assert(all.take(i as int) == all);
        }
        tally
    }

    /// Cases whose output was the golden.
    pub fn passed(&self) -> (count: usize)
        ensures
            count == self@.passed,
    {
        self.passed
    }

    /// Cases whose output departed from the golden.
    pub fn mismatched(&self) -> (count: usize)
        ensures
            count == self@.mismatched,
    {
        self.mismatched
    }

    /// Cases that had no golden.
    pub fn missing(&self) -> (count: usize)
        ensures
            count == self@.missing,
    {
        self.missing
    }

    /// Cases whose fixture could not be built or started.
    pub fn build_failures(&self) -> (count: usize)
        ensures
            count == self@.build_failures,
    {
        self.build_failures
    }

    /// Cases whose golden was written anew.
    pub fn recorded(&self) -> (count: usize)
        ensures
            count == self@.recorded,
    {
        self.recorded
    }

    /// Cases whose golden could not be written.
    pub fn write_failures(&self) -> (count: usize)
        ensures
            count == self@.write_failures,
    {
        self.write_failures
    }

    /// The number of cases counted.
    pub fn total(&self) -> (count: usize)
        ensures
            count == tally_total(self@),
    {
        proof {
            use_type_invariant(self);
        }
        self.passed + self.mismatched + self.missing + self.build_failures + self.recorded
            + self.write_failures
    }

    /// The number of cases that failed.
    pub fn failures(&self) -> (count: usize)
        ensures
            count == tally_failures(self@),
    {
        proof {
            use_type_invariant(self);
        }
        self.mismatched + self.missing + self.build_failures + self.write_failures
    }

    /// Whether no case failed.
    pub fn is_success(&self) -> (ok: bool)
        ensures
            ok == (tally_failures(self@) == 0),
    {
        self.failures() == 0
    }
}

} // verus!
