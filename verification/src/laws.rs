//! Laws of the scheduler's state machine that relate several operations.

use vstd::prelude::*;
use crate::cursor::{Incarnation, TxnIndex, Wave};
use crate::model::{lemma_min_of, SchedulerView};
use crate::status::{DependencyHandle, DependencyStatus, ExecutionStatus, SchedulerTask};

verus! {

/// Resuming a suspended transaction resolves its handle exactly once: the
/// handle was unresolved and no other status held it, after the resumption
/// it is resolved and the transaction is ready with that handle, nothing
/// else has changed, the next incarnation hands the handle out, and a
/// second resumption changes nothing.
pub proof fn lemma_resume_after_suspend(s: SchedulerView, t: TxnIndex, inc: Incarnation, h: DependencyHandle)
    requires
        s.wf(),
        s.block.contains(t),
        s.status_of(t) == ExecutionStatus::Suspended(inc, h),
    ensures
        s.handles[h.id as int] == DependencyStatus::Unresolved,
        forall|p: int|
            0 <= p < s.status.len() && p != s.block.slot(t) ==> (#[trigger] s.status[p]).pending_handle() != Some(h),
        !s.is_waiting(t) ==> s.resume(t).core_wf(),
        s.resume(t).handles[h.id as int] == DependencyStatus::Resolved,
        s.resume(t).status_of(t) == ExecutionStatus::ReadyToExecute(inc, Some(h)),
        s.resume(t) == (SchedulerView {
            status: s.status.update(s.block.slot(t), ExecutionStatus::ReadyToExecute(inc, Some(h))),
            handles: s.handles.update(h.id as int, DependencyStatus::Resolved),
            ..s
        }),
        s.resume(t).try_incarnate(t).1 == Some((inc, Some(h))),
        s.resume(t).resume(t) == s.resume(t),
{
    s.block.lemma_slot(t);
    let slot = s.block.slot(t);
    assert(s.status[slot].pending_handle() == Some(h));
    assert forall|p: int| 0 <= p < s.status.len() && p != slot implies (#[trigger] s.status[p]).pending_handle()
        != Some(h) by {
        if p < slot {
            assert(s.status[slot].pending_handle() != s.status[p].pending_handle());
        } else {
            assert(s.status[p].pending_handle() != s.status[slot].pending_handle());
        }
    }
}

/// The status that a resumption leaves behind.
pub open spec fn resumed(st: ExecutionStatus) -> ExecutionStatus {
    match st {
        ExecutionStatus::Suspended(inc, h) => ExecutionStatus::ReadyToExecute(inc, Some(h)),
        _ => st,
    }
}

/// Resuming a list of transactions resumes exactly the transactions of
/// the list and resolves the handles of those that were suspended;
/// nothing but statuses and handles changes.
#[verifier::rlimit(40)]
pub proof fn lemma_resume_all(s: SchedulerView, l: Seq<TxnIndex>)
    requires
        s.core_wf(),
        forall|k: int| 0 <= k < l.len() ==> s.block.contains(#[trigger] l[k]),
    ensures
        s.resume_all(l) == (SchedulerView {
            status: s.resume_all(l).status,
            handles: s.resume_all(l).handles,
            ..s
        }),
        s.resume_all(l).status.len() == s.status.len(),
        s.resume_all(l).handles.len() == s.handles.len(),
        forall|p: int|
            0 <= p < s.status.len() ==> #[trigger] s.resume_all(l).status[p] == if l.contains(s.block.indices[p]) {
                resumed(s.status[p])
            } else {
                s.status[p]
            },
        forall|k: int|
            0 <= k < l.len() ==> (s.status_of(#[trigger] l[k]) matches ExecutionStatus::Suspended(_, h)
                ==> s.resume_all(l).handles[h.id as int] == DependencyStatus::Resolved),
        forall|i: int|
            0 <= i < s.handles.len() ==> #[trigger] s.resume_all(l).handles[i] == s.handles[i] || s.resume_all(
                l,
            ).handles[i] == DependencyStatus::Resolved,
    decreases l.len(),
{
    if l.len() > 0 {
        let front = l.drop_last();
        let w = l.last();
        lemma_resume_all(s, front);
        let prev = s.resume_all(front);
        let next = s.resume_all(l);
        assert(next == prev.resume(w));
        assert(s.block.contains(l[l.len() - 1]));
        s.block.lemma_slot(w);
        let slot = s.block.slot(w);
        assert(s.status[slot].pending_handle().is_some() ==> s.status[slot].pending_handle().unwrap().id
            < s.handles.len());
        assert forall|p: int| 0 <= p < s.status.len() implies #[trigger] next.status[p] == if l.contains(
            s.block.indices[p],
        ) {
            resumed(s.status[p])
        } else {
            s.status[p]
        } by {
            if front.contains(s.block.indices[p]) {
                let k = choose|k: int| 0 <= k < front.len() && front[k] == s.block.indices[p];
                assert(l[k] == s.block.indices[p]);
            }
            if p == slot {
                assert(l[l.len() - 1] == s.block.indices[p]);
            } else if l.contains(s.block.indices[p]) {
                let k = choose|k: int| 0 <= k < l.len() && l[k] == s.block.indices[p];
                assert(k < l.len() - 1);
                assert(front[k] == s.block.indices[p]);
            }
        }
        assert forall|k: int| 0 <= k < l.len() implies (s.status_of(#[trigger] l[k]) matches ExecutionStatus::Suspended(
            _,
            h,
        ) ==> next.handles[h.id as int] == DependencyStatus::Resolved) by {
            s.block.lemma_slot(l[k]);
            let q = s.block.slot(l[k]);
            assert(s.status[q].pending_handle().is_some() ==> s.status[q].pending_handle().unwrap().id
                < s.handles.len());
            if k < l.len() - 1 {
                assert(front[k] == l[k]);
            } else {
                if !front.contains(w) {
                    assert(prev.status[slot] == s.status[slot]);
                } else {
                    let j = choose|j: int| 0 <= j < front.len() && front[j] == w;
                    assert(front[j] == l[k]);
                }
            }
        }
    }
}

/// When an execution finishes in a block that is not halted, the
/// transaction is executed, its list of waiters is empty, every waiter
/// that was suspended is ready again with its handle resolved, and the
/// execution cursor stands at or below every waiter.
#[verifier::rlimit(40)]
pub proof fn lemma_finish_execution_wakes_waiters(s: SchedulerView, t: TxnIndex, inc: Incarnation, revalidate_suffix: bool)
    requires
        s.wf(),
        s.block.contains(t),
        s.status_of(t) == ExecutionStatus::Executing(inc),
    ensures
        ({
            let after = s.finish_execution(t, inc, revalidate_suffix).0;
            &&& after.status_of(t) == ExecutionStatus::Executed(inc)
            &&& after.waiters_of(t) == Seq::<TxnIndex>::empty()
            &&& forall|k: int|
                0 <= k < s.waiters_of(t).len() ==> {
                    let w = #[trigger] s.waiters_of(t)[k];
                    &&& after.execution_idx <= w
                    &&& after.status_of(w) == resumed(s.status_of(w))
                    &&& s.status_of(w) matches ExecutionStatus::Suspended(_, h) ==> after.handles[h.id as int]
                        == DependencyStatus::Resolved
                }
        }),
{
    s.block.lemma_slot(t);
    let slot = s.block.slot(t);
    let l = s.waiters_of(t);
    let executed = s.with_status(t, ExecutionStatus::Executed(inc));
    let drained = SchedulerView { waiters: executed.waiters.update(slot, Seq::empty()), ..executed };
    assert forall|k: int| 0 <= k < l.len() implies s.block.contains(#[trigger] l[k]) && s.may_wait(l[k]) by {
        assert(l[k] == s.waiters[slot][k]);
    }
    assert(drained.core_wf()) by {
        assert forall|p: int, k: int|
            0 <= p < drained.waiters.len() && 0 <= k < drained.waiters[p].len() implies drained.may_wait(
            #[trigger] drained.waiters[p][k],
        ) && drained.block.contains(drained.waiters[p][k]) by {
            assert(drained.waiters[p][k] == s.waiters[p][k]);
            assert(s.may_wait(s.waiters[p][k]));
        }
        assert forall|p: int, k: int, q: int, j: int|
            0 <= p < drained.waiters.len() && 0 <= k < drained.waiters[p].len() && 0 <= q < drained.waiters.len()
                && 0 <= j < drained.waiters[q].len() && (p != q || k != j) implies #[trigger] drained.waiters[p][k]
            != #[trigger] drained.waiters[q][j] by {
            assert(drained.waiters[p][k] == s.waiters[p][k]);
            assert(drained.waiters[q][j] == s.waiters[q][j]);
        }
    }
    lemma_resume_all(drained, l);
    lemma_min_of(l);
    let resumed_all = drained.resume_all(l);
    let after = s.finish_execution(t, inc, revalidate_suffix).0;
    let mid = s.executed_and_drained(t, inc);
    assert(after.status == mid.status);
    assert(after.handles == mid.handles);
    assert(after.waiters == mid.waiters);
    assert(after.execution_idx == mid.execution_idx);
    assert(!l.contains(t)) by {
        if l.contains(t) {
            let k = choose|k: int| 0 <= k < l.len() && l[k] == t;
            assert(s.may_wait(l[k]));
        }
    }
    assert forall|k: int| 0 <= k < l.len() implies {
        let w = #[trigger] l[k];
        &&& after.execution_idx <= w
        &&& after.status_of(w) == resumed(s.status_of(w))
        &&& s.status_of(w) matches ExecutionStatus::Suspended(_, h) ==> after.handles[h.id as int]
            == DependencyStatus::Resolved
    } by {
        let w = l[k];
        s.block.lemma_slot(w);
        assert(l.contains(s.block.indices[s.block.slot(w)]));
        assert(drained.status_of(w) == s.status_of(w));
    }
}

/// What `next_task` hands out. `Done` only in a block that is done, and
/// `NoTask` only when the execution cursor is at the end and no validation
/// is due. A validation task is for a transaction at or above the
/// validation cursor that has executed, in the current wave. An execution
/// task is for a transaction at or above the execution cursor that was
/// ready, and it is executing afterwards. Only the two cursors move, and
/// only forward; no other status changes.
#[verifier::rlimit(40)]
pub proof fn lemma_next_task_outcome(s: SchedulerView)
    requires
        s.wf(),
    ensures
        ({
            let after = s.next_task().0;
            &&& after.wf()
            &&& s.validation_idx <= after.validation_idx <= s.block.end
            &&& s.execution_idx <= after.execution_idx <= s.block.end
            &&& match s.next_task().1 {
                SchedulerTask::Done => s.done && after == s,
                SchedulerTask::NoTask => {
                    &&& !s.done
                    &&& after.execution_idx == s.block.end
                    &&& !after.prefers_validation()
                    &&& after == (SchedulerView {
                        validation_idx: after.validation_idx,
                        execution_idx: after.execution_idx,
                        ..s
                    })
                },
                SchedulerTask::ValidationTask((i, inc), wave) => {
                    &&& !s.done
                    &&& wave == s.wave
                    &&& s.validation_idx <= i < s.block.end
                    &&& s.block.contains(i)
                    &&& s.status_of(i) == ExecutionStatus::Executed(inc)
                    &&& after.validation_idx == s.block.next(i)
                    &&& after == (SchedulerView {
                        validation_idx: after.validation_idx,
                        execution_idx: after.execution_idx,
                        ..s
                    })
                },
                SchedulerTask::ExecutionTask((i, inc), h) => {
                    &&& !s.done
                    &&& s.execution_idx <= i < s.block.end
                    &&& s.block.contains(i)
                    &&& s.status_of(i) == ExecutionStatus::ReadyToExecute(inc, h)
                    &&& after.execution_idx == s.block.next(i)
                    &&& after == (SchedulerView {
                        validation_idx: after.validation_idx,
                        execution_idx: after.execution_idx,
                        status: s.status.update(s.block.slot(i), ExecutionStatus::Executing(inc)),
                        ..s
                    })
                },
            }
        }),
    decreases (s.block.end - s.validation_idx) + (s.block.end - s.execution_idx),
{
    s.block.lemma_next(s.validation_idx);
    s.block.lemma_next(s.execution_idx);
    if s.block.contains(s.validation_idx) {
        s.block.lemma_slot(s.validation_idx);
    }
    if s.block.contains(s.execution_idx) {
        s.block.lemma_slot(s.execution_idx);
    }
    if s.done {
    } else if s.prefers_validation() {
        let (moved, r) = s.try_validate_next_version(s.validation_idx, s.wave);
        assert(moved.wf());
        if r.is_none() {
            lemma_next_task_outcome(moved);
        }
    } else if s.execution_idx >= s.block.end {
    } else {
        let (moved, r) = s.try_execute_next_version();
        assert(moved.wf());
        if r.is_none() {
            lemma_next_task_outcome(moved);
        }
    }
}

/// When an abort is completed in a block that is not halted, the
/// transaction gets its next incarnation: it is executing it where the
/// caller was handed the task, and ready for it otherwise. Where the
/// validation cursor stood above the index right after the transaction, it
/// stands on that index afterwards, in a new wave that the index records
/// as triggered; otherwise cursor and wave are as before.
pub proof fn lemma_finish_abort_outcome(s: SchedulerView, t: TxnIndex, inc: Incarnation)
    requires
        s.wf(),
        s.block.contains(t),
        s.status_of(t) == ExecutionStatus::Aborting(inc),
        inc < Incarnation::MAX,
        s.starts_wave(s.block.next(t)) ==> s.wave < Wave::MAX,
    ensures
        ({
            let after = s.finish_abort(t, inc).0;
            let next = s.block.next(t);
            &&& match s.finish_abort(t, inc).1 {
                SchedulerTask::ExecutionTask(version, h) => {
                    &&& s.execution_idx > t
                    &&& version == (t, (inc + 1) as Incarnation)
                    &&& h.is_none()
                    &&& after.status_of(t) == ExecutionStatus::Executing((inc + 1) as Incarnation)
                },
                SchedulerTask::NoTask => {
                    &&& s.execution_idx <= t
                    &&& after.status_of(t) == ExecutionStatus::ReadyToExecute((inc + 1) as Incarnation, None)
                },
                _ => false,
            }
            &&& after.execution_idx == s.execution_idx
            &&& if s.starts_wave(next) {
                &&& after.validation_idx == next
                &&& after.wave == s.wave + 1
                &&& after.validation_of(next).max_triggered_wave == s.wave + 1
            } else {
                &&& after.validation_idx == s.validation_idx
                &&& after.wave == s.wave
                &&& after.validation == s.validation
            }
        }),
{
    s.block.lemma_slot(t);
    s.block.lemma_next(t);
    let next = s.block.next(t);
    if next < s.block.end {
        s.block.lemma_slot(next);
    }
    assert(s.validation[s.block.slot(next)].max_triggered_wave <= s.wave || !s.starts_wave(next));
}

/// Halting twice is the same as halting once.
pub proof fn lemma_halt_idempotent(s: SchedulerView)
    ensures
        s.halt().done,
        s.halt().halt() == s.halt(),
{
}

/// Halting the first `n` slots halts exactly those statuses and the
/// handles they held, and leaves everything else as it was.
pub proof fn lemma_resolve_prefix(s: SchedulerView, n: int)
    requires
        s.wf(),
        0 <= n <= s.block.len(),
    ensures
        s.resolve_prefix(n).wf(),
        s.resolve_prefix(n) == (SchedulerView {
            status: s.resolve_prefix(n).status,
            handles: s.resolve_prefix(n).handles,
            ..s
        }),
        s.resolve_prefix(n).status.len() == s.status.len(),
        s.resolve_prefix(n).handles.len() == s.handles.len(),
        forall|p: int| 0 <= p < n ==> (#[trigger] s.resolve_prefix(n).status[p]) is ExecutionHalted,
        forall|p: int| n <= p < s.status.len() ==> #[trigger] s.resolve_prefix(n).status[p] == s.status[p],
        forall|p: int|
            0 <= p < n ==> ((#[trigger] s.status[p]).pending_handle() matches Some(h) ==> s.resolve_prefix(
                n,
            ).handles[h.id as int] == DependencyStatus::ExecutionHalted),
        forall|k: int|
            0 <= k < s.handles.len() ==> #[trigger] s.resolve_prefix(n).handles[k] == s.handles[k] || s.resolve_prefix(
                n,
            ).handles[k] == DependencyStatus::ExecutionHalted,
    decreases n,
{
    if n > 0 {
        lemma_resolve_prefix(s, n - 1);
        let prev = s.resolve_prefix(n - 1);
        assert(prev.status[n - 1] == s.status[n - 1]);
        assert(s.resolve_prefix(n) == prev.resolve_slot(n - 1));
    }
}

/// After a halt the block is done, every transaction is halted, and every
/// handle that a status held tells its holder so. Tables other than the
/// statuses and the handles, and all cursors, are as before.
pub proof fn lemma_halt_halts_everything(s: SchedulerView)
    requires
        s.wf(),
        !s.done,
    ensures
        s.halt().wf(),
        s.halt().done,
        s.halt() == (SchedulerView { done: true, status: s.halt().status, handles: s.halt().handles, ..s }),
        s.halt().status.len() == s.status.len(),
        s.halt().handles.len() == s.handles.len(),
        forall|p: int| 0 <= p < s.status.len() ==> (#[trigger] s.halt().status[p]) is ExecutionHalted,
        forall|p: int|
            0 <= p < s.status.len() ==> ((#[trigger] s.status[p]).pending_handle() matches Some(h)
                ==> s.halt().handles[h.id as int] == DependencyStatus::ExecutionHalted),
{
    lemma_resolve_prefix(s, s.block.len());
}

/// A version is aborted at most once: right after a successful
/// `try_abort`, the same call fails.
pub proof fn lemma_abort_once(s: SchedulerView, t: TxnIndex, inc: Incarnation)
    requires
        s.wf(),
        s.block.contains(t),
        s.try_abort(t, inc).1,
    ensures
        !s.try_abort(t, inc).0.try_abort(t, inc).1,
        s.try_abort(t, inc).0.status_of(t) == ExecutionStatus::Aborting(inc),
{
    s.block.lemma_slot(t);
}

/// A version is incarnated at most once: right after a successful
/// `try_incarnate`, the same call fails.
pub proof fn lemma_incarnate_once(s: SchedulerView, t: TxnIndex)
    requires
        s.wf(),
        s.block.contains(t),
        s.try_incarnate(t).1.is_some(),
    ensures
        s.try_incarnate(t).0.try_incarnate(t).1.is_none(),
        s.try_incarnate(t).0.status_of(t) == ExecutionStatus::Executing(s.try_incarnate(t).1.unwrap().0),
{
    s.block.lemma_slot(t);
}

/// Commits follow the order of traversal: a commit takes the index under
/// the commit cursor and moves the cursor to the index right after it.
pub proof fn lemma_commit_in_order(s: SchedulerView)
    requires
        s.wf(),
        s.try_commit().1.is_some(),
    ensures
        s.try_commit().1 == Some(s.commit_idx),
        s.try_commit().0.commit_idx == s.block.next(s.commit_idx),
        s.try_commit().0.commit_idx > s.commit_idx,
        s.try_commit().0.status_of(s.commit_idx) is Committed,
        s.validation_of(s.commit_idx).validated_for(s.try_commit().0.commit_wave),
{
    s.block.lemma_next(s.commit_idx);
    s.block.lemma_slot(s.commit_idx);
}

/// In a block that is done, every transaction is committed or halted.
pub proof fn lemma_done_means_settled(s: SchedulerView, t: TxnIndex)
    requires
        s.wf(),
        s.done,
        s.block.contains(t),
    ensures
        s.status_of(t) is Committed || s.status_of(t) is ExecutionHalted,
{
    s.block.lemma_slot(t);
}

/// Where a commit finishes a block in which no transaction was halted,
/// every transaction is committed.
pub proof fn lemma_done_by_commit(s: SchedulerView)
    requires
        s.wf(),
        !s.done,
        s.try_commit().0.done,
        forall|p: int| 0 <= p < s.status.len() ==> !((#[trigger] s.status[p]) is ExecutionHalted),
    ensures
        s.try_commit().0.commit_idx == s.block.end,
        forall|p: int| 0 <= p < s.status.len() ==> (#[trigger] s.try_commit().0.status[p]) is Committed,
{
    let c = s.commit_idx;
    s.block.lemma_next(c);
    s.block.lemma_slot(c);
    let slot = s.block.slot(c);
    s.block.lemma_slot_of_index(slot);
    let after = s.try_commit().0;
    assert(slot + 1 == s.block.len());
    assert forall|p: int| 0 <= p < s.status.len() implies (#[trigger] after.status[p]) is Committed by {
        if p != slot {
            assert(s.status[p] is Committed || s.status[p] is ExecutionHalted);
        }
    }
}

/// `advances_to` is a preorder: states only move forward.
pub proof fn lemma_advances_transitive(a: SchedulerView, b: SchedulerView, c: SchedulerView)
    requires
        a.advances_to(b),
        b.advances_to(c),
    ensures
        a.advances_to(a),
        a.advances_to(c),
{
    assert forall|p: int| 0 <= p < a.status.len() implies (#[trigger] a.status[p]).precedes(c.status[p]) by {
        assert(a.status[p].precedes(b.status[p]));
        assert(b.status[p].precedes(c.status[p]));
    }
    assert forall|i: int| 0 <= i < a.handles.len() implies (#[trigger] a.handles[i]).precedes(c.handles[i]) by {
        assert(a.handles[i].precedes(b.handles[i]));
        assert(b.handles[i].precedes(c.handles[i]));
    }
    assert forall|p: int| 0 <= p < a.validation.len() implies (#[trigger] a.validation[p]).precedes(
        c.validation[p],
    ) by {
        assert(a.validation[p].precedes(b.validation[p]));
        assert(b.validation[p].precedes(c.validation[p]));
    }
}

} // verus!
