//! A rate-limited, fail-fast drain of a planned rename sequence.
//!
//! The executor owns the operation list and the run's progress.  The caller
//! performs each remote rename itself and reports the result back; the
//! executor only decides, so every decision it makes is verified.  Pacing is
//! a fixed interval derived from an operations-per-minute rate; waiting out
//! that interval is the caller's work.

use vstd::prelude::*;

use crate::model::RenameOp;

verus! {

/// The rate the remote service is driven at, in operations per minute.
pub const OPS_PER_MINUTE: u64 = 100;

/// Where a run stands: still draining, drained completely, or stopped at the
/// first failed operation, whose index is carried along.
#[derive(Debug, Clone, Copy, PartialEq, Eq, Structural)]
pub enum RunOutcome {
    InProgress,
    Complete,
    Failed(usize),
}

/// One run over one operation list.  Operations are handed out strictly in
/// order; the first reported failure stops the run for good.
pub struct Executor {
    ops: Vec<RenameOp>,
    completed: usize,
    failed: bool,
}

impl Executor {
    /// The operation list the run drains.
    pub closed spec fn ops_of(self) -> Seq<RenameOp> {
        self.ops@
    }

    /// How many operations have been applied so far.
    pub closed spec fn done_count(self) -> int {
        self.completed as int
    }

    /// Whether a failure has been reported.
    pub closed spec fn has_failed(self) -> bool {
        self.failed
    }

    /// Progress never passes the end, and a failure leaves the failed
    /// operation inside the list.
    pub closed spec fn wf(self) -> bool {
        &&& self.completed <= self.ops@.len()
        &&& self.failed ==> self.completed < self.ops@.len()
    }

    /// A fresh run over `ops`: nothing applied, nothing failed.
    pub fn new(ops: Vec<RenameOp>) -> (e: Executor)
        ensures
            e.wf(),
            e.ops_of() == ops@,
            e.done_count() == 0,
            !e.has_failed(),
    {
        Executor { ops, completed: 0, failed: false }
    }

    /// The operation to perform next: the first not yet applied, or nothing
    /// once the list is drained or the run has failed.
    pub fn current_op(&self) -> (r: Option<&RenameOp>)
        requires
            self.wf(),
        ensures
            match r {
                Some(op) => {
                    &&& !self.has_failed()
                    &&& self.done_count() < self.ops_of().len()
                    &&& *op == self.ops_of()[self.done_count()]
                },
                None => self.has_failed() || self.done_count() == self.ops_of().len(),
            },
    {
        if self.failed || self.completed >= self.ops.len() {
            None
        } else {
            Some(&self.ops[self.completed])
        }
    }

    /// The current operation was applied remotely: progress moves forward by
    /// one and nothing else changes.
    pub fn record_success(&mut self)
        requires
            old(self).wf(),
            !old(self).has_failed(),
            old(self).done_count() < old(self).ops_of().len(),
        ensures
            final(self).wf(),
            final(self).ops_of() == old(self).ops_of(),
            final(self).done_count() == old(self).done_count() + 1,
            !final(self).has_failed(),
    {
        proof {
            vstd::std_specs::vec::axiom_spec_len(&self.ops);
        }
        self.completed = self.completed + 1;
    }

    /// The current operation failed remotely: the run stops here, and the
    /// index of the failed operation is exactly the number already applied.
    pub fn record_failure(&mut self)
        requires
            old(self).wf(),
            !old(self).has_failed(),
            old(self).done_count() < old(self).ops_of().len(),
        ensures
            final(self).wf(),
            final(self).ops_of() == old(self).ops_of(),
            final(self).done_count() == old(self).done_count(),
            final(self).has_failed(),
    {
        self.failed = true;
    }

    /// Cumulative progress: operations applied, out of the total.
    pub fn progress(&self) -> (p: (usize, usize))
        ensures
            p.0 == self.done_count(),
            p.1 == self.ops_of().len(),
    {
        (self.completed, self.ops.len())
    }

    /// Where the run stands.  A failed run names the index of the operation
    /// that failed; the operations before it, and only those, were applied.
    pub fn outcome(&self) -> (r: RunOutcome)
        requires
            self.wf(),
        ensures
            self.has_failed() ==> (r matches RunOutcome::Failed(k) && k == self.done_count()),
            !self.has_failed() && self.done_count() == self.ops_of().len() ==> r
                == RunOutcome::Complete,
            !self.has_failed() && self.done_count() < self.ops_of().len() ==> r
                == RunOutcome::InProgress,
    {
        if self.failed {
            RunOutcome::Failed(self.completed)
        } else if self.completed == self.ops.len() {
            RunOutcome::Complete
        } else {
            RunOutcome::InProgress
        }
    }
}

/// The pause owed between two consecutive operations, in milliseconds, for a
/// rate of `per_minute` operations per minute.
pub fn interval_millis(per_minute: u64) -> (r: u64)
    requires
        1 <= per_minute,
    ensures
        r == 60000u64 / per_minute,
{
    60000u64 / per_minute
}

} // verus!
