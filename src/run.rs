use vstd::prelude::*;
use crate::plan::{RemovalStep, StepView, steps_view};

verus! {

/// Progress of a tree deletion whose steps are performed one by one by the
/// caller. Each step's catalog deletion either succeeds, and the run moves on,
/// or fails, and the run stops for good: what was removed before stays removed.
pub struct DeletionRun {
    steps: Vec<RemovalStep>,
    total: usize,
    done: usize,
    failed: bool,
}

/// What the caller does next.
#[derive(Debug)]
pub enum RunAction<'a> {
    /// Delete this step's catalog row; on success, also its mirror file or
    /// asset directory, ignoring any failure of that cleanup.
    Perform(&'a RemovalStep),
    /// Every step succeeded.
    Succeeded,
    /// A step failed; nothing more is done.
    Failed,
}

impl DeletionRun {
    /// The planned steps.
    pub closed spec fn planned(&self) -> Seq<StepView> {
        steps_view(self.steps@)
    }

    /// How many steps have completed.
    pub closed spec fn completed(&self) -> nat {
        self.done as nat
    }

    /// Whether a step has failed.
    pub closed spec fn has_failed(&self) -> bool {
        self.failed
    }

    /// Completed steps never exceed the plan.
    pub closed spec fn wf(&self) -> bool {
        self.total == self.steps@.len() && self.done <= self.total
    }

    /// A run of `steps` with nothing performed yet.
    pub fn new(steps: Vec<RemovalStep>) -> (r: DeletionRun)
        ensures
            r.wf(),
            r.planned() == steps_view(steps@),
            r.completed() == 0,
            !r.has_failed(),
    {
        let total = steps.len();
        DeletionRun { steps, total, done: 0, failed: false }
    }

    /// The next thing to do: the first step not yet completed while no step
    /// has failed, else the outcome.
    pub fn next_action(&self) -> (r: RunAction<'_>)
        requires
            self.wf(),
        ensures
            self.has_failed() ==> r is Failed,
            !self.has_failed() && self.completed() == self.planned().len() ==> r is Succeeded,
            !self.has_failed() && self.completed() < self.planned().len() ==> (r matches RunAction::Perform(s)
                && s@ == self.planned()[self.completed() as int]),
    {
        if self.failed {
            RunAction::Failed
        } else if self.done == self.total {
            RunAction::Succeeded
        } else {
            proof {
                assert(steps_view(self.steps@)[self.done as int] == self.steps@[self.done as int]@);
            }
            RunAction::Perform(&self.steps[self.done])
        }
    }

    /// Records whether the catalog deletion of the step that `next_action`
    /// handed out succeeded.
    pub fn record(&mut self, catalog_ok: bool)
        requires
            old(self).wf(),
            !old(self).has_failed(),
            old(self).completed() < old(self).planned().len(),
        ensures
            final(self).wf(),
            final(self).planned() == old(self).planned(),
            catalog_ok ==> final(self).completed() == old(self).completed() + 1
                && !final(self).has_failed(),
            !catalog_ok ==> final(self).completed() == old(self).completed()
                && final(self).has_failed(),
    {
        assert(steps_view(self.steps@).len() == self.steps@.len());
        if catalog_ok {
            self.done = self.done + 1;
        } else {
            self.failed = true;
        }
    }
}

} // verus!
