//! The log of failures that a whole invocation collects.
//!
//! Every category writes into one list that the caller owns and passes along;
//! there is no shared state. The invocation has failed when the list is not
//! empty at the end.

use vstd::prelude::*;
use crate::catalog::strings_view;
use crate::report::{
    failures_in, is_failure, refusal_view, results_view, OutcomeView, ResultView, SnapshotResult,
    Outcome,
};

verus! {

/// The entry that a failure leaves in the log: the context, a colon and a
/// space, and the message.
pub open spec fn entry(context: Seq<char>, message: Seq<char>) -> Seq<char> {
    context + ": "@ + message
}

/// The log after one test: a failure adds its entry, a success adds nothing.
pub open spec fn log_after(
    log: Seq<Seq<char>>,
    context: Seq<char>,
    failure: Option<Seq<char>>,
) -> Seq<Seq<char>> {
    match failure {
        Some(message) => log.push(entry(context, message)),
        None => log,
    }
}

/// Logs the outcome of one test under `context`.
pub fn log_outcome(outcome: Result<(), String>, context: &str, errors: &mut Vec<String>)
    ensures
        strings_view(final(errors)@) == log_after(
            strings_view(old(errors)@),
            context@,
            refusal_view(outcome),
        ),
{
    match outcome {
        Ok(_) => {},
        Err(message) => {
            let mut line = String::from_str(context);
            line.append(": ");
            line.append(message.as_str());
            errors.push(line);
            proof {
                assert(strings_view(errors@) =~= strings_view(old(errors)@).push(
                    entry(context@, message@),
                ));
            }
        },
    }
}

/// Runs one test and logs its failure, if it fails, under `context`. The run
/// goes on either way.
pub fn do_test<F: FnOnce() -> Result<(), String>>(test: F, context: &str, errors: &mut Vec<String>)
    requires
        test.requires(()),
    ensures
        exists|outcome: Result<(), String>|
            #![trigger test.ensures((), outcome)]
            test.ensures((), outcome) && strings_view(final(errors)@) == log_after(
                strings_view(old(errors)@),
                context@,
                refusal_view(outcome),
            ),
{
    let outcome = test();
    let ghost seen = outcome;
    log_outcome(outcome, context, errors);
    proof {
        assert(test.ensures((), seen));
    }
}

/// What the log says of an outcome that is a failure.
pub open spec fn describe(outcome: OutcomeView) -> Seq<char> {
    match outcome {
        OutcomeView::Mismatch(_) => "output differs from the golden"@,
        OutcomeView::MissingGolden => "no golden yet; run with overwrite to make one"@,
        OutcomeView::BuildFailure(_) => "fixture could not be built or started"@,
        OutcomeView::WriteFailure(_) => "golden could not be written"@,
        OutcomeView::Pass => "passed"@,
        OutcomeView::Recorded => "recorded"@,
    }
}

/// The message that a result leaves in the log: none for a case that passed
/// or was recorded, else the case's name and what went wrong.
pub open spec fn complaint(result: ResultView) -> Option<Seq<char>> {
    if is_failure(result.outcome) {
        Some(entry(result.name, describe(result.outcome)))
    } else {
        None
    }
}

/// The log after the results of a run, taken in order.
pub open spec fn log_after_results(
    log: Seq<Seq<char>>,
    context: Seq<char>,
    results: Seq<ResultView>,
) -> Seq<Seq<char>>
    decreases results.len(),
{
    if results.len() == 0 {
        log
    } else {
        log_after(
            log_after_results(log, context, results.drop_last()),
            context,
            complaint(results.last()),
        )
    }
}

/// A run adds one entry for each of its failures and leaves what was logged
/// before in place.
pub proof fn lemma_log_grows(log: Seq<Seq<char>>, context: Seq<char>, results: Seq<ResultView>)
    ensures
        log_after_results(log, context, results).len() == log.len() + failures_in(results),
        log.is_prefix_of(log_after_results(log, context, results)),
    decreases results.len(),
{
    if results.len() > 0 {
        lemma_log_grows(log, context, results.drop_last());
        let before = log_after_results(log, context, results.drop_last());
        let after = log_after_results(log, context, results);
        assert(log =~= before.subrange(0, log.len() as int));
        assert(log =~= after.subrange(0, log.len() as int));
    } else {
        assert(log =~= log.subrange(0, log.len() as int));
    }
}

impl SnapshotResult {
    /// The message for the log, if the case failed.
    pub fn complaint(&self) -> (message: Result<(), String>)
        ensures
            refusal_view(message) == complaint(self@),
    {
        let what = match &self.outcome {
            Outcome::Pass => {
                return Ok(());
            },
            Outcome::Recorded => {
                return Ok(());
            },
            Outcome::Mismatch(_) => "output differs from the golden",
            Outcome::MissingGolden => "no golden yet; run with overwrite to make one",
            Outcome::BuildFailure(_) => "fixture could not be built or started",
            Outcome::WriteFailure(_) => "golden could not be written",
        };
        let mut line = self.name.clone();
        line.append(": ");
        line.append(what);
        Err(line)
    }
}

/// Logs the failures among `results` under `context`, in order.
pub fn log_results(results: &Vec<SnapshotResult>, context: &str, errors: &mut Vec<String>)
    ensures
        strings_view(final(errors)@) == log_after_results(
            strings_view(old(errors)@),
            context@,
            results_view(results@),
        ),
{
    let ghost all = results_view(results@);
    let ghost log = strings_view(errors@);
    let mut i: usize = 0;
    while i < results.len()
        invariant
            i <= results@.len(),
            all == results_view(results@),
            strings_view(errors@) == log_after_results(log, context@, all.take(i as int)),
        decreases results@.len() - i,
    {
        proof {
            let next = all.take(i + 1);
            assert(next.drop_last() == all.take(i as int));
            assert(next.last() == results@[i as int]@);
        }
        log_outcome(results[i].complaint(), context, errors);
        i = i + 1;
    }
    proof {
        assert(all.take(i as int) == all);
    }
}

} // verus!
