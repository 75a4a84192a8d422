//! The scheduler as a state machine over mathematical values: its state,
//! its invariant, and one transition function per operation.

use vstd::prelude::*;
use crate::cursor::{Incarnation, TxnIndex, Wave};
use crate::provider::Block;
use crate::status::{max_of, DependencyHandle, DependencyResult, DependencyStatus, ExecutionStatus, SchedulerTask, ValidationStatus};

verus! {

/// The state of a scheduler. The tables `status`, `validation` and
/// `waiters` have one entry per transaction of the block, in slot order.
#[verifier::ext_equal]
pub struct SchedulerView {
    pub block: Block,
    pub status: Seq<ExecutionStatus>,
    pub validation: Seq<ValidationStatus>,
    /// Per transaction, the transactions suspended until it has executed.
    pub waiters: Seq<Seq<TxnIndex>>,
    /// What the holder of each dependency handle observes.
    pub handles: Seq<DependencyStatus>,
    /// Smallest index that may require execution.
    pub execution_idx: TxnIndex,
    /// Smallest index that may require validation.
    pub validation_idx: TxnIndex,
    /// Current validation wave.
    pub wave: Wave,
    /// Next index to commit.
    pub commit_idx: TxnIndex,
    /// Lower bound on the wave that the next commit must have passed.
    pub commit_wave: Wave,
    pub done: bool,
}

/// The smaller of two indices.
pub open spec fn min_idx(a: TxnIndex, b: TxnIndex) -> TxnIndex {
    if a <= b { a } else { b }
}

/// The smallest index of a list, if it has any.
pub open spec fn min_of(l: Seq<TxnIndex>) -> Option<TxnIndex>
    decreases l.len(),
{
    if l.len() == 0 {
        None
    } else {
        match min_of(l.drop_last()) {
            Some(m) => Some(min_idx(m, l.last())),
            None => Some(l.last()),
        }
    }
}

/// `min_of` is a lower bound of the list, and one of its elements.
pub proof fn lemma_min_of(l: Seq<TxnIndex>)
    ensures
        l.len() == 0 <==> min_of(l).is_none(),
        min_of(l) matches Some(m) ==> l.contains(m) && forall|k: int| 0 <= k < l.len() ==> m <= l[k],
    decreases l.len(),
{
    if l.len() > 0 {
        let front = l.drop_last();
        lemma_min_of(front);
        let m = min_of(l).unwrap();
        if m == l.last() {
            assert(l[l.len() - 1] == m);
        } else {
            let k = choose|k: int| 0 <= k < front.len() && front[k] == m;
            assert(l[k] == m);
        }
        assert forall|k: int| 0 <= k < l.len() implies m <= l[k] by {
            if k < l.len() - 1 {
                assert(front[k] == l[k]);
            }
        }
    }
}

impl SchedulerView {
    /// The state of a fresh scheduler over `block`.
    pub open spec fn init(block: Block) -> SchedulerView {
        SchedulerView {
            block,
            status: Seq::new(block.len() as nat, |p: int| ExecutionStatus::ReadyToExecute(0, None)),
            validation: Seq::new(
                block.len() as nat,
                |p: int| ValidationStatus { max_triggered_wave: 0, required_wave: 0, maybe_max_validated_wave: None },
            ),
            waiters: Seq::new(block.len() as nat, |p: int| Seq::<TxnIndex>::empty()),
            handles: Seq::empty(),
            execution_idx: block.first(),
            validation_idx: block.first(),
            wave: 0,
            commit_idx: block.first(),
            commit_wave: 0,
            done: false,
        }
    }

    /// Every waiter is a transaction of the block.
    pub open spec fn waiters_wf(self) -> bool {
        forall|p: int, k: int|
            0 <= p < self.waiters.len() && 0 <= k < self.waiters[p].len() ==> self.block.contains(
                #[trigger] self.waiters[p][k],
            )
    }

    /// Every waiter is suspended, unless it was halted since, and waits in
    /// one place only.
    pub open spec fn waiting_wf(self) -> bool {
        &&& forall|p: int, k: int|
            0 <= p < self.waiters.len() && 0 <= k < self.waiters[p].len() ==> self.may_wait(
                #[trigger] self.waiters[p][k],
            )
        &&& forall|p: int, k: int, q: int, j: int|
            0 <= p < self.waiters.len() && 0 <= k < self.waiters[p].len() && 0 <= q < self.waiters.len() && 0 <= j
                < self.waiters[q].len() && (p != q || k != j) ==> #[trigger] self.waiters[p][k]
                != #[trigger] self.waiters[q][j]
    }

    /// Whether the status of `t` is one that a waiter can have.
    pub open spec fn may_wait(self, t: TxnIndex) -> bool {
        &&& 0 <= self.block.slot(t) < self.status.len()
        &&& self.block.indices[self.block.slot(t)] == t
        &&& self.status_of(t) is Suspended || self.status_of(t) is ExecutionHalted
    }

    /// Whether `t` waits for some transaction.
    pub open spec fn is_waiting(self, t: TxnIndex) -> bool {
        exists|p: int, k: int|
            0 <= p < self.waiters.len() && 0 <= k < self.waiters[p].len() && #[trigger] self.waiters[p][k] == t
    }

    /// Every handle held in a status exists, no two statuses hold the same
    /// handle, and the handle of a suspended transaction is unresolved.
    pub open spec fn handles_wf(self) -> bool {
        &&& forall|p: int|
            0 <= p < self.status.len() ==> ((#[trigger] self.status[p]).pending_handle() matches Some(h)
                ==> h.id < self.handles.len())
        &&& forall|p: int|
            0 <= p < self.status.len() ==> ((#[trigger] self.status[p]) matches ExecutionStatus::Suspended(_, h)
                ==> self.handles[h.id as int] == DependencyStatus::Unresolved)
        &&& forall|p: int, q: int|
            0 <= p < q < self.status.len() && (#[trigger] self.status[p]).pending_handle().is_some() ==> (
            #[trigger] self.status[q]).pending_handle() != self.status[p].pending_handle()
    }

    /// The slot under the commit cursor; the number of slots where the
    /// cursor is at the end.
    pub open spec fn commit_slot(self) -> int {
        if self.commit_idx >= self.block.end {
            self.block.len()
        } else {
            self.block.slot(self.commit_idx)
        }
    }

    /// Exactly the transactions below the commit cursor have been
    /// committed, unless they were halted since; and a block is done only
    /// when the cursor is at the end or everything is halted.
    pub open spec fn commits_wf(self) -> bool {
        &&& forall|p: int|
            0 <= p < self.status.len() && (#[trigger] self.status[p]) is Committed ==> p < self.commit_slot()
        &&& forall|p: int|
            0 <= p < self.commit_slot() && p < self.status.len() ==> (#[trigger] self.status[p]) is Committed
                || self.status[p] is ExecutionHalted
        &&& self.done ==> self.commit_idx == self.block.end || forall|p: int|
            0 <= p < self.status.len() ==> (#[trigger] self.status[p]) is ExecutionHalted
    }

    /// No transaction records a wave beyond the current one.
    pub open spec fn waves_wf(self) -> bool {
        forall|p: int|
            0 <= p < self.validation.len() ==> (#[trigger] self.validation[p]).max_triggered_wave <= self.wave
                && self.validation[p].required_wave <= self.wave
    }

    /// No wake-up is lost: every suspended transaction waits in some list.
    pub open spec fn suspended_wf(self) -> bool {
        forall|p: int|
            0 <= p < self.status.len() && (#[trigger] self.status[p]) is Suspended ==> self.is_waiting(
                self.block.indices[p],
            )
    }

    /// The invariant of the scheduler.
    pub open spec fn wf(self) -> bool {
        &&& self.core_wf()
        &&& self.suspended_wf()
    }

    /// What holds of the scheduler also in the middle of an operation,
    /// while a transaction is suspended and not yet listed, or taken off
    /// its list and not yet resumed.
    pub open spec fn core_wf(self) -> bool {
        &&& self.block.wf()
        &&& self.status.len() == self.block.len()
        &&& self.validation.len() == self.block.len()
        &&& self.waiters.len() == self.block.len()
        &&& self.block.is_cursor(self.execution_idx)
        &&& self.block.is_cursor(self.validation_idx)
        &&& self.block.is_cursor(self.commit_idx)
        &&& self.waiters_wf()
        &&& self.waiting_wf()
        &&& self.handles_wf()
        &&& self.commits_wf()
        &&& self.waves_wf()
    }

    /// Whether `later` can be a later state of the same scheduler: the
    /// block is the same, every status and every wave has only moved
    /// forward, the commit cursor has not moved back, and a block that was
    /// done is still done.
    pub open spec fn advances_to(self, later: SchedulerView) -> bool {
        &&& later.block == self.block
        &&& later.status.len() == self.status.len()
        &&& later.validation.len() == self.validation.len()
        &&& forall|p: int| 0 <= p < self.status.len() ==> (#[trigger] self.status[p]).precedes(later.status[p])
        &&& forall|p: int|
            0 <= p < self.validation.len() ==> (#[trigger] self.validation[p]).precedes(later.validation[p])
        &&& self.handles.len() <= later.handles.len()
        &&& forall|i: int| 0 <= i < self.handles.len() ==> (#[trigger] self.handles[i]).precedes(later.handles[i])
        &&& self.wave <= later.wave
        &&& self.commit_wave <= later.commit_wave
        &&& self.commit_idx <= later.commit_idx
        &&& self.done ==> later.done
    }

    pub open spec fn status_of(self, t: TxnIndex) -> ExecutionStatus {
        self.status[self.block.slot(t)]
    }

    pub open spec fn validation_of(self, t: TxnIndex) -> ValidationStatus {
        self.validation[self.block.slot(t)]
    }

    pub open spec fn waiters_of(self, t: TxnIndex) -> Seq<TxnIndex> {
        self.waiters[self.block.slot(t)]
    }

    pub open spec fn with_status(self, t: TxnIndex, st: ExecutionStatus) -> SchedulerView {
        SchedulerView { status: self.status.update(self.block.slot(t), st), ..self }
    }

    pub open spec fn with_validation(self, t: TxnIndex, v: ValidationStatus) -> SchedulerView {
        SchedulerView { validation: self.validation.update(self.block.slot(t), v), ..self }
    }

    /// `Executed(inc)` becomes `Aborting(inc)`; any other status stays.
    pub open spec fn try_abort(self, t: TxnIndex, inc: Incarnation) -> (SchedulerView, bool) {
        if self.status_of(t) == ExecutionStatus::Executed(inc) {
            (self.with_status(t, ExecutionStatus::Aborting(inc)), true)
        } else {
            (self, false)
        }
    }

    /// `ReadyToExecute(inc, h)` becomes `Executing(inc)` and hands out
    /// `(inc, h)`; any other status stays.
    pub open spec fn try_incarnate(self, t: TxnIndex) -> (SchedulerView, Option<(Incarnation, Option<DependencyHandle>)>) {
        if t >= self.block.end {
            (self, None)
        } else {
            match self.status_of(t) {
                ExecutionStatus::ReadyToExecute(inc, h) => (
                    self.with_status(t, ExecutionStatus::Executing(inc)),
                    Some((inc, h)),
                ),
                _ => (self, None),
            }
        }
    }

    /// The execution cursor moves on, and the index it stood on is
    /// incarnated if it is ready.
    pub open spec fn try_execute_next_version(self) -> (SchedulerView, Option<((TxnIndex, Incarnation), Option<DependencyHandle>)>) {
        let idx = self.execution_idx;
        let moved = SchedulerView { execution_idx: self.block.next(idx), ..self };
        match moved.try_incarnate(idx).1 {
            Some((inc, h)) => (moved.try_incarnate(idx).0, Some(((idx, inc), h))),
            None => (moved, None),
        }
    }

    /// The validation cursor moves from `idx` to the next index, and `idx`
    /// is handed out for validation if it has executed and is not committed.
    pub open spec fn try_validate_next_version(self, idx: TxnIndex, wave: Wave) -> (SchedulerView, Option<((TxnIndex, Incarnation), Wave)>) {
        if self.validation_idx == idx && self.wave == wave {
            let moved = SchedulerView { validation_idx: self.block.next(idx), ..self };
            match self.status_of(idx) {
                ExecutionStatus::Executed(inc) => (moved, Some(((idx, inc), wave))),
                _ => (moved, None),
            }
        } else {
            (self, None)
        }
    }

    /// Whether a worker is sent to validate rather than to execute.
    pub open spec fn prefers_validation(self) -> bool {
        &&& self.validation_idx < min_idx(self.execution_idx, self.block.end)
        &&& !self.status_of(self.validation_idx).never_executed()
    }

    /// The cursors stand within the block or at its end.
    pub open spec fn cursors_bounded(self) -> bool {
        &&& self.block.wf()
        &&& self.validation_idx <= self.block.end
        &&& self.execution_idx <= self.block.end
    }

    /// The next task: validation below the execution cursor comes first,
    /// then execution; indices that offer neither are passed over.
    pub open spec fn next_task(self) -> (SchedulerView, SchedulerTask)
        decreases (self.block.end - self.validation_idx) + (self.block.end - self.execution_idx),
        when self.cursors_bounded()
        via Self::next_task_terminates
    {
        if self.done {
            (self, SchedulerTask::Done)
        } else if self.prefers_validation() {
            let (s, r) = self.try_validate_next_version(self.validation_idx, self.wave);
            match r {
                Some((version, wave)) => (s, SchedulerTask::ValidationTask(version, wave)),
                None => s.next_task(),
            }
        } else if self.execution_idx >= self.block.end {
            (self, SchedulerTask::NoTask)
        } else {
            let (s, r) = self.try_execute_next_version();
            match r {
                Some((version, h)) => (s, SchedulerTask::ExecutionTask(version, h)),
                None => s.next_task(),
            }
        }
    }

    #[via_fn]
    proof fn next_task_terminates(self) {
        self.block.lemma_next(self.validation_idx);
        self.block.lemma_next(self.execution_idx);
    }

    /// The handle that the next suspension creates.
    pub open spec fn fresh_handle(self) -> DependencyHandle {
        DependencyHandle { id: self.handles.len() as usize }
    }

    /// An executing transaction becomes suspended on a fresh, unresolved
    /// handle; any other status stays.
    pub open spec fn suspend(self, t: TxnIndex) -> (SchedulerView, Option<DependencyHandle>) {
        match self.status_of(t) {
            ExecutionStatus::Executing(inc) => (
                SchedulerView {
                    handles: self.handles.push(DependencyStatus::Unresolved),
                    ..self.with_status(t, ExecutionStatus::Suspended(inc, self.fresh_handle()))
                },
                Some(self.fresh_handle()),
            ),
            _ => (self, None),
        }
    }

    /// A suspended transaction becomes ready again, with its handle, and
    /// the handle is resolved; any other status stays.
    pub open spec fn resume(self, t: TxnIndex) -> SchedulerView {
        match self.status_of(t) {
            ExecutionStatus::Suspended(inc, h) => SchedulerView {
                status: self.status.update(self.block.slot(t), ExecutionStatus::ReadyToExecute(inc, Some(h))),
                handles: self.handles.update(h.id as int, DependencyStatus::Resolved),
                ..self
            },
            _ => self,
        }
    }

    /// Every transaction of the list is resumed, in the order of the list.
    pub open spec fn resume_all(self, l: Seq<TxnIndex>) -> SchedulerView
        decreases l.len(),
    {
        if l.len() == 0 {
            self
        } else {
            self.resume_all(l.drop_last()).resume(l.last())
        }
    }

    /// A transaction that reads from `dep` waits for it: it is suspended on
    /// a fresh handle and joins the waiters of `dep`, unless `dep` has
    /// executed already or the block is halted.
    pub open spec fn wait_for_dependency(self, t: TxnIndex, dep: TxnIndex) -> (SchedulerView, DependencyResult) {
        if self.status_of(dep).has_executed() {
            (self, DependencyResult::Resolved)
        } else {
            match self.suspend(t).1 {
                Some(h) => (
                    SchedulerView {
                        waiters: self.waiters.update(self.block.slot(dep), self.waiters_of(dep).push(t)),
                        ..self.suspend(t).0
                    },
                    DependencyResult::Dependency(h),
                ),
                None => (self, DependencyResult::ExecutionHalted),
            }
        }
    }

    /// The highest validated wave of `t` becomes at least `wave`.
    pub open spec fn finish_validation(self, t: TxnIndex, wave: Wave) -> SchedulerView {
        let v = self.validation_of(t);
        let validated = match v.maybe_max_validated_wave {
            Some(prev) => max_of(prev, wave),
            None => wave,
        };
        self.with_validation(t, ValidationStatus { maybe_max_validated_wave: Some(validated), ..v })
    }

    /// Whether lowering the validation cursor to `target` starts a new
    /// wave: `target` is in the block and the cursor stands above it.
    pub open spec fn starts_wave(self, target: TxnIndex) -> bool {
        target < self.block.end && self.validation_idx > target
    }

    /// Where the validation cursor stands above `target`, it drops to
    /// `target`, a new wave begins, and `target` records that wave as
    /// triggered. The new wave is handed out.
    pub open spec fn decrease_validation_idx(self, target: TxnIndex) -> (SchedulerView, Option<Wave>) {
        if self.starts_wave(target) {
            let wave = (self.wave + 1) as Wave;
            let v = self.validation_of(target);
            (
                SchedulerView {
                    validation_idx: target,
                    wave,
                    ..self.with_validation(
                        target,
                        ValidationStatus { max_triggered_wave: max_of(v.max_triggered_wave, wave), ..v },
                    )
                },
                Some(wave),
            )
        } else {
            (self, None)
        }
    }

    /// The waiters of `t` are taken off its list and resumed, and the
    /// execution cursor drops to the smallest of them if it stood above it.
    pub open spec fn wake_waiters(self, t: TxnIndex) -> SchedulerView {
        let l = self.waiters_of(t);
        let emptied = SchedulerView { waiters: self.waiters.update(self.block.slot(t), Seq::empty()), ..self };
        let resumed = emptied.resume_all(l);
        match min_of(l) {
            Some(m) => SchedulerView { execution_idx: min_idx(resumed.execution_idx, m), ..resumed },
            None => resumed,
        }
    }

    /// The state after an execution of `t` has finished, up to the point
    /// where validation is decided: `t` is executed and its waiters are awake.
    pub open spec fn executed_and_drained(self, t: TxnIndex, inc: Incarnation) -> SchedulerView {
        self.with_status(t, ExecutionStatus::Executed(inc)).wake_waiters(t)
    }

    /// An execution of `(t, inc)` has finished. In a halted block nothing
    /// happens. Otherwise, where the validation cursor has passed `t`, the
    /// caller gets the validation of `t` in the current wave, which is a
    /// new one if the suffix must be validated again.
    pub open spec fn finish_execution(self, t: TxnIndex, inc: Incarnation, revalidate_suffix: bool) -> (SchedulerView, SchedulerTask) {
        if self.status_of(t) is ExecutionHalted {
            (self, SchedulerTask::NoTask)
        } else {
            let s = self.executed_and_drained(t, inc);
            if s.validation_idx > t {
                let lowered = if revalidate_suffix {
                    s.decrease_validation_idx(s.block.next(t)).0
                } else {
                    s
                };
                let v = lowered.validation_of(t);
                (
                    lowered.with_validation(t, ValidationStatus { required_wave: lowered.wave, ..v }),
                    SchedulerTask::ValidationTask((t, inc), lowered.wave),
                )
            } else {
                (s, SchedulerTask::NoTask)
            }
        }
    }

    /// `Aborting(inc)` becomes `ReadyToExecute(inc + 1, None)`; a halted
    /// status stays.
    pub open spec fn set_aborted_status(self, t: TxnIndex, inc: Incarnation) -> SchedulerView {
        if self.status_of(t) is ExecutionHalted {
            self
        } else {
            self.with_status(t, ExecutionStatus::ReadyToExecute((inc + 1) as Incarnation, None))
        }
    }

    /// An abort of `(t, inc)` is completed: `t` is ready for its next
    /// incarnation, everything after it is validated again, and where the
    /// execution cursor has passed `t` the caller gets its execution.
    pub open spec fn finish_abort(self, t: TxnIndex, inc: Incarnation) -> (SchedulerView, SchedulerTask) {
        let s = self.set_aborted_status(t, inc).decrease_validation_idx(self.block.next(t)).0;
        if s.execution_idx > t {
            match s.try_incarnate(t).1 {
                Some((new_inc, h)) => (s.try_incarnate(t).0, SchedulerTask::ExecutionTask((t, new_inc), h)),
                None => (s, SchedulerTask::NoTask),
            }
        } else {
            (s, SchedulerTask::NoTask)
        }
    }

    /// The wave that a commit of the transaction under the commit cursor has to have passed.
    pub open spec fn next_commit_wave(self) -> Wave {
        max_of(self.commit_wave, self.validation_of(self.commit_idx).max_triggered_wave)
    }

    /// Whether the transaction under the commit cursor can be committed now.
    pub open spec fn can_commit(self) -> bool {
        &&& self.commit_idx < self.block.end
        &&& self.status_of(self.commit_idx) is Executed
        &&& self.validation_of(self.commit_idx).validated_for(self.next_commit_wave())
    }

    /// At most one commit. Where the transaction under the commit cursor
    /// has executed, the commit wave rises to its triggered wave; where it
    /// was also validated in a wave that is high enough, it is committed,
    /// the cursor moves on, and the block is done once the cursor is at the end.
    pub open spec fn try_commit(self) -> (SchedulerView, Option<TxnIndex>) {
        if self.commit_idx < self.block.end && self.status_of(self.commit_idx) is Executed {
            let risen = SchedulerView { commit_wave: self.next_commit_wave(), ..self };
            if self.can_commit() {
                let next = self.block.next(self.commit_idx);
                (
                    SchedulerView {
                        commit_idx: next,
                        done: self.done || next >= self.block.end,
                        ..risen.with_status(
                            self.commit_idx,
                            ExecutionStatus::Committed(self.status_of(self.commit_idx)->Executed_0),
                        )
                    },
                    Some(self.commit_idx),
                )
            } else {
                (risen, None)
            }
        } else {
            (self, None)
        }
    }

    /// The transaction in slot `p` is halted, and so is the handle that its status held.
    pub open spec fn resolve_slot(self, p: int) -> SchedulerView {
        let halted = self.status.update(p, ExecutionStatus::ExecutionHalted);
        match self.status[p].pending_handle() {
            Some(h) => SchedulerView {
                status: halted,
                handles: self.handles.update(h.id as int, DependencyStatus::ExecutionHalted),
                ..self
            },
            None => SchedulerView { status: halted, ..self },
        }
    }

    /// The transaction `t` is halted, and so is the handle that its status held.
    pub open spec fn resolve_condvar(self, t: TxnIndex) -> SchedulerView {
        self.resolve_slot(self.block.slot(t))
    }

    /// The transactions in the first `n` slots are halted.
    pub open spec fn resolve_prefix(self, n: int) -> SchedulerView
        decreases n,
    {
        if n <= 0 {
            self
        } else {
            self.resolve_prefix(n - 1).resolve_slot(n - 1)
        }
    }

    /// The block is done and every transaction halted. On a block that is
    /// done already nothing changes.
    pub open spec fn halt(self) -> SchedulerView {
        if self.done {
            self
        } else {
            SchedulerView { done: true, ..self.resolve_prefix(self.block.len()) }
        }
    }
}

} // verus!
