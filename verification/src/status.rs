//! Per-transaction statuses, dependency handles and the tasks handed to workers.

use vstd::prelude::*;
use crate::cursor::{Incarnation, Version, Wave};

verus! {

/// What a worker blocked on a dependency handle observes.
#[derive(Clone, Copy, Debug, PartialEq, Eq, Structural)]
pub enum DependencyStatus {
    /// The dependency is not resolved yet.
    Unresolved,
    /// The dependency is resolved: the blocked worker may go on.
    Resolved,
    /// The block is being torn down: the blocked worker must unwind.
    ExecutionHalted,
}

impl DependencyStatus {
    /// Whether `later` can follow this status: a handle that is resolved
    /// is never unresolved again, and one that tells of the halt stays so.
    pub open spec fn precedes(self, later: Self) -> bool {
        match self {
            DependencyStatus::Unresolved => true,
            DependencyStatus::Resolved => !(later is Unresolved),
            DependencyStatus::ExecutionHalted => later is ExecutionHalted,
        }
    }
}

/// Names one dependency slot of a scheduler. The caller pairs each handle
/// with whatever it blocks on; the scheduler keeps the status behind it.
#[derive(Clone, Copy, Debug, PartialEq, Eq, Structural)]
pub struct DependencyHandle {
    pub id: usize,
}

/// Outcome of `Scheduler::wait_for_dependency`.
#[derive(Clone, Copy, Debug, PartialEq, Eq, Structural)]
pub enum DependencyResult {
    /// The transaction is suspended: block on the handle.
    Dependency(DependencyHandle),
    /// The dependency has executed meanwhile: repeat the read.
    Resolved,
    /// The block is halted.
    ExecutionHalted,
}

/// A unit of work for a worker.
#[derive(Clone, Copy, Debug, PartialEq, Eq)]
pub enum SchedulerTask {
    /// Execute the version. A handle is present when an earlier, suspended
    /// execution of the same incarnation waits on it.
    ExecutionTask(Version, Option<DependencyHandle>),
    /// Validate the version in the given wave.
    ValidationTask(Version, Wave),
    /// Nothing to do right now.
    NoTask,
    /// The block is finished.
    Done,
}

/// Execution status of one transaction.
///
/// ```text
/// Ready(i) --try_incarnate--> Executing(i) --suspend--> Suspended(i) --resume--> Ready(i)
/// Executing(i) --finish_execution--> Executed(i) --try_commit--> Committed(i)
/// Executed(i) --try_abort--> Aborting(i) --finish_abort--> Ready(i + 1)
/// any --resolve_condvar--> ExecutionHalted
/// ```
#[derive(Clone, Copy, Debug)]
pub enum ExecutionStatus {
    ReadyToExecute(Incarnation, Option<DependencyHandle>),
    Executing(Incarnation),
    Suspended(Incarnation, DependencyHandle),
    Executed(Incarnation),
    Committed(Incarnation),
    Aborting(Incarnation),
    ExecutionHalted,
}

impl ExecutionStatus {
    /// The incarnation that the status carries, if it carries one.
    pub open spec fn incarnation(self) -> Option<Incarnation> {
        match self {
            ExecutionStatus::ReadyToExecute(i, _) => Some(i),
            ExecutionStatus::Executing(i) => Some(i),
            ExecutionStatus::Suspended(i, _) => Some(i),
            ExecutionStatus::Executed(i) => Some(i),
            ExecutionStatus::Committed(i) => Some(i),
            ExecutionStatus::Aborting(i) => Some(i),
            ExecutionStatus::ExecutionHalted => None,
        }
    }

    /// Two statuses are alike when they are the same stage of the same
    /// incarnation. Handles are not compared, and a halted status is alike
    /// to nothing, itself included.
    pub open spec fn alike(self, other: Self) -> bool {
        match (self, other) {
            (ExecutionStatus::ReadyToExecute(a, _), ExecutionStatus::ReadyToExecute(b, _)) => a == b,
            (ExecutionStatus::Executing(a), ExecutionStatus::Executing(b)) => a == b,
            (ExecutionStatus::Suspended(a, _), ExecutionStatus::Suspended(b, _)) => a == b,
            (ExecutionStatus::Executed(a), ExecutionStatus::Executed(b)) => a == b,
            (ExecutionStatus::Committed(a), ExecutionStatus::Committed(b)) => a == b,
            (ExecutionStatus::Aborting(a), ExecutionStatus::Aborting(b)) => a == b,
            _ => false,
        }
    }

    /// The handle on which a worker may be blocked for this transaction.
    pub open spec fn pending_handle(self) -> Option<DependencyHandle> {
        match self {
            ExecutionStatus::Suspended(_, h) => Some(h),
            ExecutionStatus::ReadyToExecute(_, Some(h)) => Some(h),
            _ => None,
        }
    }

    /// No incarnation of the transaction has finished executing yet.
    pub open spec fn never_executed(self) -> bool {
        match self {
            ExecutionStatus::ReadyToExecute(i, _) => i == 0,
            ExecutionStatus::Executing(i) => i == 0,
            ExecutionStatus::Suspended(i, _) => i == 0,
            _ => false,
        }
    }

    /// Whether `later` can follow this status in the life of one
    /// transaction: the incarnation never goes down, a committed
    /// transaction stays committed, and only halting ends either; a halted
    /// transaction stays halted.
    pub open spec fn precedes(self, later: Self) -> bool {
        match self {
            ExecutionStatus::ExecutionHalted => later is ExecutionHalted,
            ExecutionStatus::Committed(i) => later is ExecutionHalted || later == ExecutionStatus::Committed(i),
            _ => later is ExecutionHalted || (later.incarnation() matches Some(j) && self.incarnation().unwrap() <= j),
        }
    }

    /// Executed or committed: a reader that depends on the transaction can go on.
    pub open spec fn has_executed(self) -> bool {
        self is Executed || self is Committed
    }
}

impl PartialEq for ExecutionStatus {
    fn eq(&self, other: &Self) -> (r: bool) {
        match (*self, *other) {
            (ExecutionStatus::ReadyToExecute(a, _), ExecutionStatus::ReadyToExecute(b, _)) => a == b,
            (ExecutionStatus::Executing(a), ExecutionStatus::Executing(b)) => a == b,
            (ExecutionStatus::Suspended(a, _), ExecutionStatus::Suspended(b, _)) => a == b,
            (ExecutionStatus::Executed(a), ExecutionStatus::Executed(b)) => a == b,
            (ExecutionStatus::Committed(a), ExecutionStatus::Committed(b)) => a == b,
            (ExecutionStatus::Aborting(a), ExecutionStatus::Aborting(b)) => a == b,
            _ => false,
        }
    }
}

impl vstd::std_specs::cmp::PartialEqSpecImpl for ExecutionStatus {
    open spec fn obeys_eq_spec() -> bool {
        true
    }

    open spec fn eq_spec(&self, other: &Self) -> bool {
        self.alike(*other)
    }
}

/// Validation bookkeeping of one transaction.
#[derive(Clone, Copy, Debug, PartialEq, Eq, Structural)]
pub struct ValidationStatus {
    /// Highest wave that asked for validation of every transaction from this one on.
    pub max_triggered_wave: Wave,
    /// Wave that the current incarnation of this transaction must pass.
    pub required_wave: Wave,
    /// Highest wave in which this transaction was validated, if any.
    pub maybe_max_validated_wave: Option<Wave>,
}

impl ValidationStatus {
    pub fn new() -> (r: Self)
        ensures
            r.max_triggered_wave == 0,
            r.required_wave == 0,
            r.maybe_max_validated_wave.is_none(),
    {
        ValidationStatus { max_triggered_wave: 0, required_wave: 0, maybe_max_validated_wave: None }
    }

    /// Whether `later` can follow this status: no wave goes down.
    pub open spec fn precedes(self, later: Self) -> bool {
        &&& self.max_triggered_wave <= later.max_triggered_wave
        &&& self.required_wave <= later.required_wave
        &&& match self.maybe_max_validated_wave {
            Some(w) => later.maybe_max_validated_wave matches Some(v) && w <= v,
            None => true,
        }
    }

    /// Whether the validations recorded here allow a commit at `commit_wave`.
    pub open spec fn validated_for(self, commit_wave: Wave) -> bool {
        match self.maybe_max_validated_wave {
            Some(w) => w >= commit_wave && w >= self.required_wave,
            None => false,
        }
    }
}

impl Default for ValidationStatus {
    fn default() -> (r: Self)
        ensures
            r == (ValidationStatus { max_triggered_wave: 0, required_wave: 0, maybe_max_validated_wave: None }),
    {
        ValidationStatus::new()
    }
}

/// The larger of two waves.
pub open spec fn max_of(a: Wave, b: Wave) -> Wave {
    if a >= b { a } else { b }
}

/// The larger of two waves.
pub fn max_wave(a: Wave, b: Wave) -> (r: Wave)
    ensures
        r == max_of(a, b),
{
    if a >= b { a } else { b }
}

} // verus!
