//! Ordered plans of external invocations. A plan says which commands to
//! issue and in what order; the caller issues them one at a time and
//! reports how each went. A plan stops at its first failure, but for the
//! steps that are marked as best effort.

use vstd::prelude::*;
use crate::runner::{ExitStatus, RunError, RunOptions};

verus! {

/// One external invocation: the tool, its arguments, and the run options.
#[derive(Debug, Clone)]
pub struct Invocation {
    pub command: String,
    pub args: Vec<String>,
    pub options: Option<RunOptions>,
}

/// One step of a plan. The failure of a best-effort step is ignored.
#[derive(Debug, Clone)]
pub struct Step {
    pub invocation: Invocation,
    pub best_effort: bool,
}

/// A plan and how far it has got: the steps, how many of them were issued
/// and reported, and the failure that stopped it, if one did.
#[derive(Debug)]
pub struct Plan {
    pub steps: Vec<Step>,
    pub done: usize,
    pub failure: Option<RunError>,
}

impl Plan {
    /// Whether a step is due: the plan has not failed and has steps left.
    pub open spec fn spec_pending(&self) -> bool {
        self.failure is None && self.done < self.steps@.len()
    }

    /// Whether the plan is over, by success or by failure.
    pub open spec fn spec_finished(&self) -> bool {
        !self.spec_pending()
    }

    /// A plan of the given steps, none of them issued yet.
    pub fn new(steps: Vec<Step>) -> (r: Plan)
        ensures
            r.steps == steps,
            r.done == 0,
            r.failure is None,
    {
        Plan { steps, done: 0, failure: None }
    }

    /// The invocation to issue next, or `None` once the plan is over.
    pub fn next(&self) -> (r: Option<&Invocation>)
        ensures
            self.spec_pending() ==> r == Some(&self.steps@[self.done as int].invocation),
            !self.spec_pending() ==> r is None,
    {
        if self.failure.is_none() && self.done < self.steps.len() {
            Some(&self.steps[self.done].invocation)
        } else {
            None
        }
    }

    /// Takes the result of the invocation that [`Plan::next`] handed out.
    /// The step counts as done. A failure stops the plan, unless the step is
    /// best effort. Where no step was due, nothing changes.
    pub fn report(&mut self, result: Result<ExitStatus, RunError>)
        ensures
            final(self).steps == old(self).steps,
            (final(self).done as nat, final(self).failure) == after_report(
                old(self).steps@,
                old(self).done as nat,
                old(self).failure,
                result,
            ),
    {
        if self.failure.is_none() && self.done < self.steps.len() {
            let best_effort = self.steps[self.done].best_effort;
            self.done = self.done + 1;
            match result {
                Err(e) => {
                    if !best_effort {
                        self.failure = Some(e);
                    }
                },
                Ok(_) => {},
            }
        }
    }

    /// Whether the plan is over.
    pub fn finished(&self) -> (r: bool)
        ensures
            r == self.spec_finished(),
    {
        !(self.failure.is_none() && self.done < self.steps.len())
    }

    /// The result of a plan that is over: the failure that stopped it, or
    /// success. `None` while a step is due.
    pub fn outcome(self) -> (r: Option<Result<(), RunError>>)
        ensures
            self.spec_pending() ==> r is None,
            !self.spec_pending() ==> r == Some(
                match self.failure {
                    Some(e) => Err::<(), RunError>(e),
                    None => Ok(()),
                },
            ),
    {
        if self.failure.is_none() && self.done < self.steps.len() {
            None
        } else {
            match self.failure {
                Some(e) => Some(Err(e)),
                None => Some(Ok(())),
            }
        }
    }
}

/// Where a plan of `steps` stands after one more result: nothing changes
/// where no step was due; else the step counts as done, and its failure
/// stops the plan unless the step is best effort.
pub open spec fn after_report(
    steps: Seq<Step>,
    done: nat,
    failure: Option<RunError>,
    result: Result<ExitStatus, RunError>,
) -> (nat, Option<RunError>) {
    if failure is None && done < steps.len() {
        match result {
            Err(e) if !steps[done as int].best_effort => (done + 1, Some(e)),
            _ => (done + 1, None),
        }
    } else {
        (done, failure)
    }
}

/// How far a plan of `steps` gets on the reported `results`, taken in
/// order: the number of steps issued, and the failure that stopped it.
pub open spec fn progress(steps: Seq<Step>, results: Seq<Result<ExitStatus, RunError>>) -> (
    nat,
    Option<RunError>,
)
    decreases results.len(),
{
    if results.len() == 0 {
        (0, None)
    } else {
        let (done, failure) = progress(steps, results.drop_last());
        after_report(steps, done, failure, results.last())
    }
}

/// While every result is a success, a plan issues its steps one by one in
/// their order: after `n` successes, `n` steps are done, up to the plan's
/// length, and nothing has failed.
pub proof fn successes_walk_the_plan(steps: Seq<Step>, results: Seq<Result<ExitStatus, RunError>>)
    requires
        forall|i: int| 0 <= i < results.len() ==> (#[trigger] results[i]) is Ok,
    ensures
        progress(steps, results).1 is None,
        progress(steps, results).0 == if results.len() <= steps.len() {
            results.len()
        } else {
            steps.len()
        },
    decreases results.len(),
{
    if results.len() > 0 {
        successes_walk_the_plan(steps, results.drop_last());
    }
}

/// A plan never goes on after a failure: once a step that is not best
/// effort has failed, no later result moves it.
pub proof fn failure_stops_the_plan(
    steps: Seq<Step>,
    results: Seq<Result<ExitStatus, RunError>>,
    later: Result<ExitStatus, RunError>,
)
    requires
        progress(steps, results).1 is Some,
    ensures
        progress(steps, results.push(later)) == progress(steps, results),
{
    assert(results.push(later).drop_last() =~= results);
}

} // verus!
