//! The scheduler: the tables and cursors of one block, and the operations
//! through which workers obtain tasks and report on them.

use vstd::prelude::*;
use crate::cursor::{pack_validation_idx, unpack_validation_idx, Incarnation, TxnIndex, Version, Wave};
use crate::laws::lemma_resume_all;
use crate::model::{lemma_min_of, min_of, SchedulerView};
use crate::provider::IndexProvider;
use crate::status::{max_wave, DependencyHandle, DependencyResult, DependencyStatus, ExecutionStatus, SchedulerTask, ValidationStatus};

verus! {

/// Scheduler of one block. Every operation is one atomic step; a caller
/// that shares the scheduler between workers serialises the steps.
pub struct Scheduler {
    provider: IndexProvider,
    /// Slot `p` holds the transactions that wait for the transaction in
    /// slot `p` to finish its execution.
    txn_dependency: Vec<Vec<TxnIndex>>,
    /// Slot `p` holds the execution status of the transaction in slot `p`.
    txn_status: Vec<ExecutionStatus>,
    /// Slot `p` holds the validation status of the transaction in slot `p`.
    val_status: Vec<ValidationStatus>,
    /// What the holder of each dependency handle observes.
    handles: Vec<DependencyStatus>,
    /// Next transaction to commit, and the lower bound on the wave of a
    /// validation that must have succeeded for it to be committed.
    commit_state: (TxnIndex, Wave),
    /// Smallest index that may require execution.
    execution_idx: TxnIndex,
    /// The validation wave in the high 32 bits, and in the low 32 bits the
    /// smallest index that may require validation.
    validation_idx: u64,
    /// Set when every transaction is committed, or the block is halted.
    done_marker: bool,
}

impl View for Scheduler {
    type V = SchedulerView;

    closed spec fn view(&self) -> SchedulerView {
        SchedulerView {
            block: self.provider@,
            status: self.txn_status@,
            validation: self.val_status@,
            waiters: Seq::new(self.txn_dependency@.len(), |p: int| self.txn_dependency@[p]@),
            handles: self.handles@,
            execution_idx: self.execution_idx,
            validation_idx: (self.validation_idx % 0x1_0000_0000) as TxnIndex,
            wave: (self.validation_idx / 0x1_0000_0000) as Wave,
            commit_idx: self.commit_state.0,
            commit_wave: self.commit_state.1,
            done: self.done_marker,
        }
    }
}

impl Scheduler {
    /// The invariant that every operation keeps.
    pub open spec fn wf(&self) -> bool {
        self@.wf()
    }

    /// A scheduler for the block of `provider`: every transaction is ready
    /// for its first incarnation, and all cursors stand on the first index.
    pub fn new(provider: IndexProvider) -> (r: Self)
        requires
            provider@.wf(),
        ensures
            r.wf(),
            r@ == SchedulerView::init(provider@),
    {
        let first = provider.get_first_tid();
        let n = provider.len();
        let mut txn_dependency: Vec<Vec<TxnIndex>> = Vec::new();
        let mut txn_status: Vec<ExecutionStatus> = Vec::new();
        let mut val_status: Vec<ValidationStatus> = Vec::new();
        let mut i: usize = 0;
        while i < n
            invariant
                0 <= i <= n,
                txn_dependency@.len() == i,
                txn_status@.len() == i,
                val_status@.len() == i,
                forall|p: int| 0 <= p < i ==> (#[trigger] txn_dependency@[p])@ == Seq::<TxnIndex>::empty(),
                forall|p: int| 0 <= p < i ==> #[trigger] txn_status@[p] == ExecutionStatus::ReadyToExecute(0, None),
                forall|p: int|
                    0 <= p < i ==> #[trigger] val_status@[p] == (ValidationStatus {
                        max_triggered_wave: 0,
                        required_wave: 0,
                        maybe_max_validated_wave: None,
                    }),
            decreases n - i,
        {
            txn_dependency.push(Vec::new());
            txn_status.push(ExecutionStatus::ReadyToExecute(0, None));
            val_status.push(ValidationStatus::new());
            i = i + 1;
        }
        let validation_idx = pack_validation_idx(first, 0);
        let r = Scheduler {
            provider,
            txn_dependency,
            txn_status,
            val_status,
            handles: Vec::new(),
            commit_state: (first, 0),
            execution_idx: first,
            validation_idx,
            done_marker: false,
        };
        proof {
            assert(r@ =~~= SchedulerView::init(provider@));
            if provider@.len() > 0 {
                provider@.lemma_slot_of_index(0);
            }
        }
        r
    }

    /// The slot of a transaction of the block.
    fn slot(&self, t: TxnIndex) -> (p: usize)
        requires
            self@.block.wf(),
            self@.block.contains(t),
        ensures
            p == self@.block.slot(t),
            p < self@.block.len(),
            self@.block.indices[p as int] == t,
    {
        match self.provider.slot_of(t) {
            Some(p) => p,
            None => 0,
        }
    }

    /// The provider that the scheduler was made with.
    pub fn provider(&self) -> (r: &IndexProvider)
        ensures
            r@ == self@.block,
    {
        &self.provider
    }

    /// The execution status of `t`.
    pub fn status(&self, t: TxnIndex) -> (r: ExecutionStatus)
        requires
            self.wf(),
            self@.block.contains(t),
        ensures
            r == self@.status_of(t),
    {
        let p = self.slot(t);
        self.txn_status[p]
    }

    /// The validation status of `t`.
    pub fn validation_status(&self, t: TxnIndex) -> (r: ValidationStatus)
        requires
            self.wf(),
            self@.block.contains(t),
        ensures
            r == self@.validation_of(t),
    {
        let p = self.slot(t);
        self.val_status[p]
    }

    /// The transactions that wait for `t`, in the order in which they were suspended.
    pub fn dependencies(&self, t: TxnIndex) -> (r: Vec<TxnIndex>)
        requires
            self.wf(),
            self@.block.contains(t),
        ensures
            r@ == self@.waiters_of(t),
    {
        let p = self.slot(t);
        self.txn_dependency[p].clone()
    }

    /// What the holder of `h` observes, if the scheduler has handed `h` out.
    pub fn handle_status(&self, h: DependencyHandle) -> (r: Option<DependencyStatus>)
        ensures
            r.is_some() <==> h.id < self@.handles.len(),
            r matches Some(s) ==> s == self@.handles[h.id as int],
    {
        if h.id < self.handles.len() {
            Some(self.handles[h.id])
        } else {
            None
        }
    }

    /// The next index to commit, and the wave that its validation must have reached.
    pub fn commit_state(&self) -> (r: (TxnIndex, Wave))
        ensures
            r == (self@.commit_idx, self@.commit_wave),
    {
        (self.commit_state.0, self.commit_state.1)
    }

    /// The execution cursor.
    pub fn execution_idx(&self) -> (r: TxnIndex)
        ensures
            r == self@.execution_idx,
    {
        self.execution_idx
    }

    /// The validation cursor and the current wave.
    pub fn validation_idx(&self) -> (r: (TxnIndex, Wave))
        ensures
            r == (self@.validation_idx, self@.wave),
    {
        unpack_validation_idx(self.validation_idx)
    }

    /// Whether the block is finished: committed to the end, or halted.
    pub fn done(&self) -> (r: bool)
        ensures
            r == self@.done,
    {
        self.done_marker
    }

    /// Tries to abort the version `(txn_idx, incarnation)` after a failed
    /// validation. Succeeds exactly when the status is
    /// `Executed(incarnation)`, which then becomes `Aborting(incarnation)`.
    pub fn try_abort(&mut self, txn_idx: TxnIndex, incarnation: Incarnation) -> (r: bool)
        requires
            old(self).wf(),
            old(self)@.block.contains(txn_idx),
        ensures
            final(self).wf(),
            old(self)@.advances_to(final(self)@),
            final(self)@ == old(self)@.try_abort(txn_idx, incarnation).0,
            r == old(self)@.try_abort(txn_idx, incarnation).1,
            r <==> old(self)@.status_of(txn_idx) == ExecutionStatus::Executed(incarnation),
    {
        let p = self.slot(txn_idx);
        if self.txn_status[p] == ExecutionStatus::Executed(incarnation) {
            self.txn_status[p] = ExecutionStatus::Aborting(incarnation);
            assert(self@ =~~= old(self)@.try_abort(txn_idx, incarnation).0);
            true
        } else {
            false
        }
    }

    /// Moves a ready transaction to `Executing` and hands out its
    /// incarnation and the handle left by an earlier suspension.
    fn try_incarnate(&mut self, txn_idx: TxnIndex) -> (r: Option<(Incarnation, Option<DependencyHandle>)>)
        requires
            old(self).wf(),
            old(self)@.block.is_cursor(txn_idx),
        ensures
            final(self).wf(),
            old(self)@.advances_to(final(self)@),
            final(self)@ == old(self)@.try_incarnate(txn_idx).0,
            r == old(self)@.try_incarnate(txn_idx).1,
    {
        if txn_idx >= self.provider.txn_end_index() {
            return None;
        }
        proof {
            if !self@.block.contains(txn_idx) {
            } else {
                self@.block.lemma_slot(txn_idx);
            }
        }
        let p = self.slot(txn_idx);
        match self.txn_status[p] {
            ExecutionStatus::ReadyToExecute(incarnation, maybe_handle) => {
                self.txn_status[p] = ExecutionStatus::Executing(incarnation);
                assert(self@ =~~= old(self)@.try_incarnate(txn_idx).0);
                Some((incarnation, maybe_handle))
            },
            _ => None,
        }
    }

    /// Records a successful validation of `txn_idx` in `wave`.
    pub fn finish_validation(&mut self, txn_idx: TxnIndex, wave: Wave)
        requires
            old(self).wf(),
            old(self)@.block.contains(txn_idx),
        ensures
            final(self).wf(),
            old(self)@.advances_to(final(self)@),
            final(self)@ == old(self)@.finish_validation(txn_idx, wave),
    {
        let p = self.slot(txn_idx);
        let prev = self.val_status[p];
        let validated = match prev.maybe_max_validated_wave {
            Some(prev_wave) => max_wave(prev_wave, wave),
            None => wave,
        };
        self.val_status[p] = ValidationStatus {
            max_triggered_wave: prev.max_triggered_wave,
            required_wave: prev.required_wave,
            maybe_max_validated_wave: Some(validated),
        };
        assert(self@ =~~= old(self)@.finish_validation(txn_idx, wave));
    }

    /// Lowers the validation cursor to `target_idx` and starts a new wave,
    /// where the cursor stands above it.
    fn decrease_validation_idx(&mut self, target_idx: TxnIndex) -> (r: Option<Wave>)
        requires
            old(self).wf(),
            old(self)@.block.is_cursor(target_idx),
            old(self)@.starts_wave(target_idx) ==> old(self)@.wave < Wave::MAX,
        ensures
            final(self).wf(),
            old(self)@.advances_to(final(self)@),
            final(self)@ == old(self)@.decrease_validation_idx(target_idx).0,
            r == old(self)@.decrease_validation_idx(target_idx).1,
    {
        if target_idx >= self.provider.txn_end_index() {
            return None;
        }
        proof {
            if self@.block.contains(target_idx) {
                self@.block.lemma_slot(target_idx);
            }
        }
        let (idx, wave) = unpack_validation_idx(self.validation_idx);
        if idx > target_idx {
            let p = self.slot(target_idx);
            let prev = self.val_status[p];
            self.val_status[p] = ValidationStatus {
                max_triggered_wave: max_wave(prev.max_triggered_wave, wave + 1),
                required_wave: prev.required_wave,
                maybe_max_validated_wave: prev.maybe_max_validated_wave,
            };
            self.validation_idx = pack_validation_idx(target_idx, wave + 1);
            assert(self@ =~~= old(self)@.decrease_validation_idx(target_idx).0);
            Some(wave + 1)
        } else {
            None
        }
    }

    /// The incarnation of `txn_idx` that has executed, if its status is
    /// `Executed`, or `Committed` where `include_committed` says so.
    fn is_executed(&self, txn_idx: TxnIndex, include_committed: bool) -> (r: Option<Incarnation>)
        requires
            self.wf(),
            self@.block.contains(txn_idx),
        ensures
            r == match self@.status_of(txn_idx) {
                ExecutionStatus::Executed(inc) => Some(inc),
                ExecutionStatus::Committed(inc) => if include_committed { Some(inc) } else { None },
                _ => None,
            },
    {
        let p = self.slot(txn_idx);
        match self.txn_status[p] {
            ExecutionStatus::Executed(incarnation) => Some(incarnation),
            ExecutionStatus::Committed(incarnation) => {
                if include_committed {
                    Some(incarnation)
                } else {
                    None
                }
            },
            _ => None,
        }
    }

    /// Whether no incarnation of `txn_idx` has finished executing yet.
    fn never_executed(&self, txn_idx: TxnIndex) -> (r: bool)
        requires
            self.wf(),
            self@.block.contains(txn_idx),
        ensures
            r == self@.status_of(txn_idx).never_executed(),
    {
        let p = self.slot(txn_idx);
        match self.txn_status[p] {
            ExecutionStatus::ReadyToExecute(incarnation, _) => incarnation == 0,
            ExecutionStatus::Executing(incarnation) => incarnation == 0,
            ExecutionStatus::Suspended(incarnation, _) => incarnation == 0,
            _ => false,
        }
    }

    /// Claims `idx_to_validate` for validation by moving the validation
    /// cursor past it, provided that the cursor still stands on it in `wave`.
    fn try_validate_next_version(&mut self, idx_to_validate: TxnIndex, wave: Wave) -> (r: Option<(Version, Wave)>)
        requires
            old(self).wf(),
            old(self)@.block.contains(idx_to_validate),
        ensures
            final(self).wf(),
            old(self)@.advances_to(final(self)@),
            final(self)@ == old(self)@.try_validate_next_version(idx_to_validate, wave).0,
            r == old(self)@.try_validate_next_version(idx_to_validate, wave).1,
    {
        let validation_idx = pack_validation_idx(idx_to_validate, wave);
        let new_validation_idx = pack_validation_idx(self.provider.txn_index_right_after(idx_to_validate), wave);
        if self.validation_idx == validation_idx {
            self.validation_idx = new_validation_idx;
            assert(self@ =~~= old(self)@.try_validate_next_version(idx_to_validate, wave).0);
            match self.is_executed(idx_to_validate, false) {
                Some(incarnation) => Some(((idx_to_validate, incarnation), wave)),
                None => None,
            }
        } else {
            None
        }
    }

    /// Claims the index under the execution cursor by moving the cursor
    /// past it, and incarnates it if it is ready.
    fn try_execute_next_version(&mut self) -> (r: Option<(Version, Option<DependencyHandle>)>)
        requires
            old(self).wf(),
        ensures
            final(self).wf(),
            old(self)@.advances_to(final(self)@),
            final(self)@ == old(self)@.try_execute_next_version().0,
            r == old(self)@.try_execute_next_version().1,
    {
        let idx_to_execute = self.execution_idx;
        self.execution_idx = self.provider.txn_index_right_after(idx_to_execute);
        assert(self@ =~~= (SchedulerView { execution_idx: old(self)@.block.next(idx_to_execute), ..old(self)@ }));
        if idx_to_execute >= self.provider.txn_end_index() {
            return None;
        }
        match self.try_incarnate(idx_to_execute) {
            Some((incarnation, maybe_handle)) => Some(((idx_to_execute, incarnation), maybe_handle)),
            None => None,
        }
    }

    /// Suspends an executing transaction on a fresh handle, which is handed
    /// out. Hands out nothing where the block is halted.
    fn suspend(&mut self, txn_idx: TxnIndex) -> (r: Option<DependencyHandle>)
        requires
            old(self)@.core_wf(),
            old(self)@.block.contains(txn_idx),
            old(self)@.status_of(txn_idx) is Executing || old(self)@.status_of(txn_idx) is ExecutionHalted,
        ensures
            final(self)@.core_wf(),
            old(self)@.advances_to(final(self)@),
            final(self)@ == old(self)@.suspend(txn_idx).0,
            r == old(self)@.suspend(txn_idx).1,
    {
        let p = self.slot(txn_idx);
        match self.txn_status[p] {
            ExecutionStatus::Executing(incarnation) => {
                let handle = DependencyHandle { id: self.handles.len() };
                self.handles.push(DependencyStatus::Unresolved);
                self.txn_status[p] = ExecutionStatus::Suspended(incarnation, handle);
                assert(self@ =~~= old(self)@.suspend(txn_idx).0);
                Some(handle)
            },
            _ => None,
        }
    }

    /// Makes a suspended transaction ready again and resolves its handle.
    /// A halted transaction is left as it is. The transaction has been
    /// taken off the list in which it waited.
    fn resume(&mut self, txn_idx: TxnIndex)
        requires
            old(self)@.core_wf(),
            old(self)@.block.contains(txn_idx),
            old(self)@.may_wait(txn_idx),
            !old(self)@.is_waiting(txn_idx),
        ensures
            final(self)@.core_wf(),
            old(self)@.advances_to(final(self)@),
            final(self)@ == old(self)@.resume(txn_idx),
    {
        let p = self.slot(txn_idx);
        match self.txn_status[p] {
            ExecutionStatus::Suspended(incarnation, handle) => {
                self.txn_status[p] = ExecutionStatus::ReadyToExecute(incarnation, Some(handle));
                self.handles[handle.id] = DependencyStatus::Resolved;
                assert(self@ =~~= old(self)@.resume(txn_idx));
            },
            _ => {},
        }
    }

    /// Halts the transaction in slot `p` and the handle that its status holds.
    fn resolve_slot(&mut self, p: usize)
        requires
            old(self).wf(),
            p < old(self)@.block.len(),
        ensures
            final(self).wf(),
            old(self)@.advances_to(final(self)@),
            final(self)@ == old(self)@.resolve_slot(p as int),
    {
        match self.txn_status[p] {
            ExecutionStatus::Suspended(_, handle) => {
                self.handles[handle.id] = DependencyStatus::ExecutionHalted;
            },
            ExecutionStatus::ReadyToExecute(_, Some(handle)) => {
                self.handles[handle.id] = DependencyStatus::ExecutionHalted;
            },
            _ => {},
        }
        self.txn_status[p] = ExecutionStatus::ExecutionHalted;
        assert(self@ =~~= old(self)@.resolve_slot(p as int));
    }

    /// Halts `txn_idx`: a worker blocked on the handle that its status
    /// holds observes `ExecutionHalted`, and the status becomes
    /// `ExecutionHalted` whatever it was.
    pub fn resolve_condvar(&mut self, txn_idx: TxnIndex)
        requires
            old(self).wf(),
            old(self)@.block.contains(txn_idx),
        ensures
            final(self).wf(),
            old(self)@.advances_to(final(self)@),
            final(self)@ == old(self)@.resolve_condvar(txn_idx),
    {
        let p = self.slot(txn_idx);
        self.resolve_slot(p);
    }

    /// Registers that `txn_idx`, while executing, read a value that
    /// `dep_txn_idx` has yet to write. Where `dep_txn_idx` has executed
    /// meanwhile, nothing changes and the caller repeats the read. Where
    /// the block is halted, nothing changes and the caller unwinds.
    /// Otherwise `txn_idx` is suspended on a fresh handle and joins the
    /// waiters of `dep_txn_idx`; the caller blocks on the handle until its
    /// status is no longer `Unresolved`.
    #[verifier::rlimit(40)]
    pub fn wait_for_dependency(&mut self, txn_idx: TxnIndex, dep_txn_idx: TxnIndex) -> (r: DependencyResult)
        requires
            old(self).wf(),
            old(self)@.block.contains(txn_idx),
            old(self)@.block.contains(dep_txn_idx),
            !old(self)@.status_of(dep_txn_idx).has_executed() ==> old(self)@.status_of(txn_idx) is Executing
                || old(self)@.status_of(txn_idx) is ExecutionHalted,
        ensures
            final(self).wf(),
            old(self)@.advances_to(final(self)@),
            final(self)@ == old(self)@.wait_for_dependency(txn_idx, dep_txn_idx).0,
            r == old(self)@.wait_for_dependency(txn_idx, dep_txn_idx).1,
    {
        let q = self.slot(dep_txn_idx);
        if self.is_executed(dep_txn_idx, true).is_some() {
            return DependencyResult::Resolved;
        }
        match self.suspend(txn_idx) {
            Some(handle) => {
                let ghost suspended = self@;
                proof {
                    assert forall|p: int, k: int|
                        0 <= p < suspended.waiters.len() && 0 <= k < suspended.waiters[p].len() implies #[trigger] suspended.waiters[p][k]
                        != txn_idx by {
                        assert(old(self)@.may_wait(old(self)@.waiters[p][k]));
                    }
                }
                self.txn_dependency[q].push(txn_idx);
                assert(self@ =~~= old(self)@.wait_for_dependency(txn_idx, dep_txn_idx).0);
                assert(self@.waiters[q as int] == suspended.waiters[q as int].push(txn_idx));
                assert forall|p: int, k: int|
                    0 <= p < self@.waiters.len() && 0 <= k < self@.waiters[p].len() && !(p == q && k
                        == suspended.waiters[q as int].len()) implies #[trigger] self@.waiters[p][k]
                    == suspended.waiters[p][k] by {}
                assert forall|p: int, k: int|
                    0 <= p < self@.waiters.len() && 0 <= k < self@.waiters[p].len() implies self@.may_wait(
                    #[trigger] self@.waiters[p][k],
                ) by {
                    if p == q && k == suspended.waiters[q as int].len() {
                        suspended.block.lemma_slot(txn_idx);
                    } else {
                        assert(suspended.may_wait(suspended.waiters[p][k]));
                    }
                }
                assert forall|p: int| 0 <= p < self@.status.len() && (#[trigger] self@.status[p]) is Suspended implies self@.is_waiting(
                    self@.block.indices[p],
                ) by {
                    let before = old(self)@;
                    before.block.lemma_slot(txn_idx);
                    if p == before.block.slot(txn_idx) {
                        assert(self@.waiters[q as int][suspended.waiters[q as int].len() as int] == txn_idx);
                    } else {
                        assert(before.status[p] is Suspended);
                        assert(before.is_waiting(before.block.indices[p]));
                        let (a, b) = choose|a: int, b: int|
                            0 <= a < before.waiters.len() && 0 <= b < before.waiters[a].len() && #[trigger] before.waiters[a][b]
                                == before.block.indices[p];
                        assert(self@.waiters[a][b] == before.block.indices[p]);
                    }
                }
                DependencyResult::Dependency(handle)
            },
            None => DependencyResult::ExecutionHalted,
        }
    }

    /// Marks `txn_idx` as ready for the incarnation after `incarnation`,
    /// unless the block is halted.
    fn set_aborted_status(&mut self, txn_idx: TxnIndex, incarnation: Incarnation)
        requires
            old(self).wf(),
            old(self)@.block.contains(txn_idx),
            old(self)@.status_of(txn_idx) == ExecutionStatus::Aborting(incarnation) || old(self)@.status_of(
                txn_idx,
            ) is ExecutionHalted,
            incarnation < Incarnation::MAX,
        ensures
            final(self).wf(),
            old(self)@.advances_to(final(self)@),
            final(self)@ == old(self)@.set_aborted_status(txn_idx, incarnation),
    {
        let p = self.slot(txn_idx);
        match self.txn_status[p] {
            ExecutionStatus::ExecutionHalted => {},
            _ => {
                self.txn_status[p] = ExecutionStatus::ReadyToExecute(incarnation + 1, None);
                assert(self@ =~~= old(self)@.set_aborted_status(txn_idx, incarnation));
            },
        }
    }

    /// Completes the abort of `(txn_idx, incarnation)` that a successful
    /// `try_abort` began.
    pub fn finish_abort(&mut self, txn_idx: TxnIndex, incarnation: Incarnation) -> (r: SchedulerTask)
        requires
            old(self).wf(),
            old(self)@.block.contains(txn_idx),
            old(self)@.status_of(txn_idx) == ExecutionStatus::Aborting(incarnation) || old(self)@.status_of(
                txn_idx,
            ) is ExecutionHalted,
            incarnation < Incarnation::MAX,
            old(self)@.starts_wave(old(self)@.block.next(txn_idx)) ==> old(self)@.wave < Wave::MAX,
        ensures
            final(self).wf(),
            old(self)@.advances_to(final(self)@),
            final(self)@ == old(self)@.finish_abort(txn_idx, incarnation).0,
            r == old(self)@.finish_abort(txn_idx, incarnation).1,
    {
        self.set_aborted_status(txn_idx, incarnation);
        let next = self.provider.txn_index_right_after(txn_idx);
        self.decrease_validation_idx(next);
        if self.execution_idx > txn_idx {
            match self.try_incarnate(txn_idx) {
                Some((new_incarnation, maybe_handle)) => {
                    return SchedulerTask::ExecutionTask((txn_idx, new_incarnation), maybe_handle);
                },
                None => {},
            }
        }
        SchedulerTask::NoTask
    }

    /// Marks `txn_idx` as executed. Says whether it did so: it does not
    /// where the block is halted.
    fn set_executed_status(&mut self, txn_idx: TxnIndex, incarnation: Incarnation) -> (r: bool)
        requires
            old(self).wf(),
            old(self)@.block.contains(txn_idx),
            old(self)@.status_of(txn_idx) == ExecutionStatus::Executing(incarnation) || old(self)@.status_of(
                txn_idx,
            ) is ExecutionHalted,
        ensures
            final(self).wf(),
            old(self)@.advances_to(final(self)@),
            r == !(old(self)@.status_of(txn_idx) is ExecutionHalted),
            !r ==> final(self)@ == old(self)@,
            r ==> final(self)@ == old(self)@.with_status(txn_idx, ExecutionStatus::Executed(incarnation)),
    {
        let p = self.slot(txn_idx);
        match self.txn_status[p] {
            ExecutionStatus::ExecutionHalted => false,
            _ => {
                self.txn_status[p] = ExecutionStatus::Executed(incarnation);
                assert(self@ =~~= old(self)@.with_status(txn_idx, ExecutionStatus::Executed(incarnation)));
                true
            },
        }
    }

    /// Takes the waiters of `txn_idx` out of the table.
    fn take_dependencies(&mut self, txn_idx: TxnIndex) -> (r: Vec<TxnIndex>)
        requires
            old(self)@.core_wf(),
            old(self)@.block.contains(txn_idx),
        ensures
            final(self)@.core_wf(),
            old(self)@.advances_to(final(self)@),
            r@ == old(self)@.waiters_of(txn_idx),
            forall|k: int| 0 <= k < r@.len() ==> old(self)@.block.contains(#[trigger] r@[k]),
            forall|k: int| 0 <= k < r@.len() ==> old(self)@.may_wait(#[trigger] r@[k]),
            forall|k: int| 0 <= k < r@.len() ==> !final(self)@.is_waiting(#[trigger] r@[k]),
            forall|k: int, j: int| 0 <= k < j < r@.len() ==> r@[k] != r@[j],
            final(self)@ == (SchedulerView {
                waiters: old(self)@.waiters.update(old(self)@.block.slot(txn_idx), Seq::empty()),
                ..old(self)@
            }),
    {
        let p = self.slot(txn_idx);
        let mut taken: Vec<TxnIndex> = Vec::new();
        std::mem::swap(&mut taken, &mut self.txn_dependency[p]);
        assert forall|k: int| 0 <= k < taken@.len() implies old(self)@.block.contains(#[trigger] taken@[k])
            && old(self)@.may_wait(taken@[k]) && !self@.is_waiting(taken@[k]) by {
            assert(taken@[k] == old(self)@.waiters[p as int][k]);
            assert forall|q: int, j: int|
                0 <= q < self@.waiters.len() && 0 <= j < self@.waiters[q].len() implies #[trigger] self@.waiters[q][j]
                != taken@[k] by {
                assert(self@.waiters[q][j] == old(self)@.waiters[q][j]);
            }
        }
        assert forall|k: int, j: int| 0 <= k < j < taken@.len() implies taken@[k] != taken@[j] by {
            assert(old(self)@.waiters[p as int][k] != old(self)@.waiters[p as int][j]);
        }
        assert(self@ =~~= (SchedulerView {
            waiters: old(self)@.waiters.update(old(self)@.block.slot(txn_idx), Seq::empty()),
            ..old(self)@
        }));
        taken
    }

    /// Resumes the transactions of a list that was taken off the table.
    /// Hands out the smallest of them.
    #[verifier::rlimit(40)]
    fn resume_taken(&mut self, txn_deps: &Vec<TxnIndex>) -> (min_dep: Option<TxnIndex>)
        requires
            old(self)@.core_wf(),
            forall|k: int| 0 <= k < txn_deps@.len() ==> old(self)@.block.contains(#[trigger] txn_deps@[k]),
            forall|k: int| 0 <= k < txn_deps@.len() ==> old(self)@.may_wait(#[trigger] txn_deps@[k]),
            forall|k: int| 0 <= k < txn_deps@.len() ==> !old(self)@.is_waiting(#[trigger] txn_deps@[k]),
            forall|k: int, j: int| 0 <= k < j < txn_deps@.len() ==> txn_deps@[k] != txn_deps@[j],
        ensures
            final(self)@.core_wf(),
            old(self)@.advances_to(final(self)@),
            final(self)@ == old(self)@.resume_all(txn_deps@),
            min_dep == min_of(txn_deps@),
    {
        let mut min_dep: Option<TxnIndex> = None;
        let mut i: usize = 0;
        while i < txn_deps.len()
            invariant
                0 <= i <= txn_deps@.len(),
                self@.core_wf(),
                forall|k: int| 0 <= k < txn_deps@.len() ==> old(self)@.block.contains(#[trigger] txn_deps@[k]),
                self@.block == old(self)@.block,
                self@.waiters == old(self)@.waiters,
                forall|k: int| i <= k < txn_deps@.len() ==> self@.may_wait(#[trigger] txn_deps@[k]),
                forall|k: int| 0 <= k < txn_deps@.len() ==> !old(self)@.is_waiting(#[trigger] txn_deps@[k]),
                forall|k: int, j: int| 0 <= k < j < txn_deps@.len() ==> txn_deps@[k] != txn_deps@[j],
                self@ == old(self)@.resume_all(txn_deps@.take(i as int)),
                old(self)@.advances_to(self@),
                min_dep == min_of(txn_deps@.take(i as int)),
            decreases txn_deps@.len() - i,
        {
            let dep = txn_deps[i];
            let ghost before = self@;
            proof {
                assert(!old(self)@.is_waiting(dep));
                assert(before.is_waiting(dep) == old(self)@.is_waiting(dep));
            }
            self.resume(dep);
            min_dep = match min_dep {
                Some(m) => Some(if m <= dep { m } else { dep }),
                None => Some(dep),
            };
            proof {
                assert(txn_deps@.take(i + 1).drop_last() =~= txn_deps@.take(i as int));
                assert forall|k: int| i < k < txn_deps@.len() implies self@.may_wait(#[trigger] txn_deps@[k]) by {
                    before.block.lemma_slot(txn_deps@[k]);
                    before.block.lemma_slot(dep);
                    assert(before.may_wait(txn_deps@[k]));
                }
            }
            i = i + 1;
        }
        proof {
            assert(txn_deps@.take(txn_deps@.len() as int) =~= txn_deps@);
        }
        min_dep
    }

    /// Wakes the transactions that wait for `txn_idx`: they are taken off
    /// its list and resumed, and the execution cursor is lowered to the
    /// smallest of them, so that they get their chance to execute again.
    #[verifier::rlimit(40)]
    fn wake_waiters(&mut self, txn_idx: TxnIndex)
        requires
            old(self).wf(),
            old(self)@.block.contains(txn_idx),
        ensures
            final(self).wf(),
            old(self)@.advances_to(final(self)@),
            final(self)@ == old(self)@.wake_waiters(txn_idx),
            final(self)@.wave == old(self)@.wave,
            final(self)@.validation_idx == old(self)@.validation_idx,
            final(self)@.validation == old(self)@.validation,
    {
        let txn_deps = self.take_dependencies(txn_idx);
        let ghost emptied = self@;
        let min_dep = self.resume_taken(&txn_deps);
        proof {
            lemma_min_of(txn_deps@);
        }
        match min_dep {
            Some(execution_target_idx) => {
                if execution_target_idx < self.execution_idx {
                    self.execution_idx = execution_target_idx;
                }
            },
            None => {},
        }
        assert(self@ =~~= old(self)@.wake_waiters(txn_idx));
        proof {
            let before = old(self)@;
            before.block.lemma_slot(txn_idx);
            lemma_resume_all(emptied, txn_deps@);
            assert forall|p: int| 0 <= p < self@.status.len() && (#[trigger] self@.status[p]) is Suspended implies self@.is_waiting(
                self@.block.indices[p],
            ) by {
                let t = before.block.indices[p];
                assert(!txn_deps@.contains(t));
                assert(before.status[p] is Suspended);
                assert(before.is_waiting(t));
                let (q, j) = choose|q: int, j: int|
                    0 <= q < before.waiters.len() && 0 <= j < before.waiters[q].len() && #[trigger] before.waiters[q][j]
                        == t;
                if q == before.block.slot(txn_idx) {
                    assert(txn_deps@[j] == t);
                }
                assert(self@.waiters[q][j] == t);
            }
        }
    }

    /// Reports that the execution of `(txn_idx, incarnation)` has
    /// finished. The transactions that waited for it are resumed.
    /// `revalidate_suffix` says that the incarnation wrote where the one
    /// before it had not, so that every later transaction must be
    /// validated again.
    #[verifier::rlimit(40)]
    pub fn finish_execution(&mut self, txn_idx: TxnIndex, incarnation: Incarnation, revalidate_suffix: bool) -> (r: SchedulerTask)
        requires
            old(self).wf(),
            old(self)@.block.contains(txn_idx),
            old(self)@.status_of(txn_idx) == ExecutionStatus::Executing(incarnation) || old(self)@.status_of(
                txn_idx,
            ) is ExecutionHalted,
            revalidate_suffix && old(self)@.starts_wave(old(self)@.block.next(txn_idx)) ==> old(self)@.wave
                < Wave::MAX,
        ensures
            final(self).wf(),
            old(self)@.advances_to(final(self)@),
            final(self)@ == old(self)@.finish_execution(txn_idx, incarnation, revalidate_suffix).0,
            r == old(self)@.finish_execution(txn_idx, incarnation, revalidate_suffix).1,
    {
        if !self.set_executed_status(txn_idx, incarnation) {
            return SchedulerTask::NoTask;
        }
        self.wake_waiters(txn_idx);
        let (cur_val_idx, cur_wave) = unpack_validation_idx(self.validation_idx);
        if cur_val_idx > txn_idx {
            let mut wave = cur_wave;
            if revalidate_suffix {
                let next = self.provider.txn_index_right_after(txn_idx);
                match self.decrease_validation_idx(next) {
                    Some(new_wave) => {
                        wave = new_wave;
                    },
                    None => {},
                }
            }
            let ghost lowered = self@;
            let p = self.slot(txn_idx);
            let prev = self.val_status[p];
            self.val_status[p] = ValidationStatus {
                max_triggered_wave: prev.max_triggered_wave,
                required_wave: wave,
                maybe_max_validated_wave: prev.maybe_max_validated_wave,
            };
            assert(self@ =~~= lowered.with_validation(
                txn_idx,
                ValidationStatus { required_wave: lowered.wave, ..lowered.validation_of(txn_idx) },
            ));
            return SchedulerTask::ValidationTask((txn_idx, incarnation), wave);
        }
        SchedulerTask::NoTask
    }

    /// Commits the transaction under the commit cursor if it has executed
    /// and was validated in a wave that is high enough. At most one
    /// transaction is committed per call; its index is returned.
    #[verifier::rlimit(40)]
    pub fn try_commit(&mut self) -> (r: Option<TxnIndex>)
        requires
            old(self).wf(),
        ensures
            final(self).wf(),
            old(self)@.advances_to(final(self)@),
            final(self)@ == old(self)@.try_commit().0,
            r == old(self)@.try_commit().1,
            r.is_some() <==> old(self)@.can_commit(),
    {
        let commit_idx = self.commit_state.0;
        let commit_wave = self.commit_state.1;
        if commit_idx >= self.provider.txn_end_index() {
            return None;
        }
        let p = self.slot(commit_idx);
        proof {
            self@.block.lemma_slot_of_index(p as int);
            if p + 1 < self@.block.len() {
                self@.block.lemma_slot_of_index(p + 1);
                self@.block.lemma_slot(self@.block.indices[p + 1]);
            }
        }
        let validation_status = self.val_status[p];
        match self.txn_status[p] {
            ExecutionStatus::Executed(incarnation) => {
                let wave = max_wave(commit_wave, validation_status.max_triggered_wave);
                self.commit_state = (commit_idx, wave);
                assert(self@ =~~= (SchedulerView { commit_wave: old(self)@.next_commit_wave(), ..old(self)@ }));
                match validation_status.maybe_max_validated_wave {
                    Some(validated_wave) => {
                        if validated_wave >= max_wave(wave, validation_status.required_wave) {
                            self.txn_status[p] = ExecutionStatus::Committed(incarnation);
                            let next = self.provider.txn_index_right_after(commit_idx);
                            self.commit_state = (next, wave);
                            if next >= self.provider.txn_end_index() {
                                self.done_marker = true;
                            }
                            assert(self@ =~~= old(self)@.try_commit().0);
                            return Some(commit_idx);
                        }
                    },
                    None => {},
                }
                None
            },
            _ => None,
        }
    }

    /// Ends the block early: the block is marked as done and every
    /// transaction is halted, so that every blocked worker wakes up and
    /// unwinds. In a block that is done already nothing changes.
    pub fn halt(&mut self)
        requires
            old(self).wf(),
        ensures
            final(self).wf(),
            old(self)@.advances_to(final(self)@),
            final(self)@ == old(self)@.halt(),
    {
        if !self.done_marker {
            let n = self.provider.len();
            let mut i: usize = 0;
            while i < n
                invariant
                    0 <= i <= n,
                    n == old(self)@.block.len(),
                    self.wf(),
                    self@.block == old(self)@.block,
                    self@ == old(self)@.resolve_prefix(i as int),
                    old(self)@.advances_to(self@),
                    forall|p: int| 0 <= p < i ==> (#[trigger] self@.status[p]) is ExecutionHalted,
                decreases n - i,
            {
                self.resolve_slot(i);
                i = i + 1;
            }
            self.done_marker = true;
            assert(self@ =~~= old(self)@.halt());
        }
    }

    /// The next task for a worker. `committing` says that the worker also
    /// drives the commits; a worker that does not is told to relax before
    /// it is sent away with `NoTask`.
    pub fn next_task(&mut self, committing: bool) -> (r: SchedulerTask)
        requires
            old(self).wf(),
        ensures
            final(self).wf(),
            old(self)@.advances_to(final(self)@),
            final(self)@ == old(self)@.next_task().0,
            r == old(self)@.next_task().1,
    {
        let end = self.provider.txn_end_index();
        proof {
            self.lemma_cursors_bounded();
        }
        loop
            invariant
                self.wf(),
                self@.cursors_bounded(),
                end == self@.block.end,
                self@.next_task() == old(self)@.next_task(),
                old(self)@.advances_to(self@),
            decreases (end - self@.validation_idx) + (end - self@.execution_idx),
        {
            if self.done() {
                return SchedulerTask::Done;
            }
            let (idx_to_validate, wave) = unpack_validation_idx(self.validation_idx);
            let idx_to_execute = self.execution_idx;
            let prefer_validate = idx_to_validate < idx_to_execute && idx_to_validate < end && !self.never_executed(
                idx_to_validate,
            );
            if !prefer_validate && idx_to_execute >= end {
                if !committing {
                    relax();
                }
                return SchedulerTask::NoTask;
            }
            let ghost before = self@;
            if prefer_validate {
                match self.try_validate_next_version(idx_to_validate, wave) {
                    Some((version_to_validate, wave)) => {
                        return SchedulerTask::ValidationTask(version_to_validate, wave);
                    },
                    None => {},
                }
            } else {
                match self.try_execute_next_version() {
                    Some((version_to_execute, maybe_handle)) => {
                        return SchedulerTask::ExecutionTask(version_to_execute, maybe_handle);
                    },
                    None => {},
                }
            }
            proof {
                before.block.lemma_next(before.validation_idx);
                before.block.lemma_next(before.execution_idx);
                self.lemma_cursors_bounded();
            }
        }
    }

    /// In a well-formed scheduler no cursor stands beyond the end.
    proof fn lemma_cursors_bounded(&self)
        requires
            self.wf(),
        ensures
            self@.cursors_bounded(),
            self@.commit_idx <= self@.block.end,
    {
        if self@.block.contains(self@.validation_idx) {
            self@.block.lemma_slot(self@.validation_idx);
        }
        if self@.block.contains(self@.execution_idx) {
            self@.block.lemma_slot(self@.execution_idx);
        }
        if self@.block.contains(self@.commit_idx) {
            self@.block.lemma_slot(self@.commit_idx);
        }
    }
}

/// Tells the processor that the caller is in a busy-wait loop, through
/// `std::hint::spin_loop`. Nothing is claimed of the call.
#[verifier::external_body]
fn relax() {
    std::hint::spin_loop()
}

} // verus!
