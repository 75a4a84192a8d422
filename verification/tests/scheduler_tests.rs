use blockstm::cursor::{pack_validation_idx, unpack_validation_idx, TxnIndex};
use blockstm::provider::IndexProvider;
use blockstm::scheduler::Scheduler;
use blockstm::status::{
    max_wave, DependencyResult, DependencyStatus, ExecutionStatus, SchedulerTask, ValidationStatus,
};

fn contiguous(n: TxnIndex) -> Scheduler {
    Scheduler::new(IndexProvider::contiguous(n))
}

/// Executes, validates and commits every transaction of a contiguous block in order.
fn run_to_executed(s: &mut Scheduler, n: TxnIndex) {
    for i in 0..n {
        assert_eq!(s.next_task(false), SchedulerTask::ExecutionTask((i, 0), None));
    }
    for i in 0..n {
        assert_eq!(s.finish_execution(i, 0, false), SchedulerTask::NoTask);
    }
    for i in 0..n {
        assert_eq!(s.next_task(false), SchedulerTask::ValidationTask((i, 0), 0));
        s.finish_validation(i, 0);
    }
}

#[test]
fn pack_puts_wave_in_high_bits() {
    assert_eq!(pack_validation_idx(0, 0), 0);
    assert_eq!(pack_validation_idx(7, 0), 7);
    assert_eq!(pack_validation_idx(7, 1), 0x1_0000_0007);
    assert_eq!(pack_validation_idx(u32::MAX, u32::MAX), u64::MAX);
    assert_eq!(pack_validation_idx(0, 3), 3u64 << 32);
}

#[test]
fn unpack_inverts_pack() {
    assert_eq!(unpack_validation_idx(0x1_0000_0007), (7, 1));
    assert_eq!(unpack_validation_idx(u64::MAX), (u32::MAX, u32::MAX));
    for (i, w) in [(0u32, 0u32), (5, 9), (u32::MAX, 0), (0, u32::MAX), (123456, 654321)] {
        assert_eq!(unpack_validation_idx(pack_validation_idx(i, w)), (i, w));
    }
}

#[test]
fn max_wave_picks_larger() {
    assert_eq!(max_wave(3, 5), 5);
    assert_eq!(max_wave(5, 3), 5);
    assert_eq!(max_wave(4, 4), 4);
}

#[test]
fn validation_status_starts_empty() {
    let v = ValidationStatus::new();
    assert_eq!(v.max_triggered_wave, 0);
    assert_eq!(v.required_wave, 0);
    assert_eq!(v.maybe_max_validated_wave, None);
    assert_eq!(ValidationStatus::default(), v);
}

#[test]
fn execution_status_equality_ignores_handles() {
    let mut s = contiguous(2);
    assert_eq!(s.next_task(false), SchedulerTask::ExecutionTask((0, 0), None));
    assert_eq!(s.next_task(false), SchedulerTask::ExecutionTask((1, 0), None));
    let h = match s.wait_for_dependency(1, 0) {
        DependencyResult::Dependency(h) => h,
        other => panic!("unexpected {:?}", other),
    };
    assert!(s.status(1) == ExecutionStatus::Suspended(0, blockstm::status::DependencyHandle { id: h.id + 17 }));
    assert!(s.status(1) != ExecutionStatus::Suspended(1, h));
    assert!(ExecutionStatus::Executed(2) == ExecutionStatus::Executed(2));
    assert!(ExecutionStatus::Executed(2) != ExecutionStatus::Committed(2));
    assert!(ExecutionStatus::ReadyToExecute(1, None) == ExecutionStatus::ReadyToExecute(1, Some(h)));
    assert!(ExecutionStatus::ExecutionHalted != ExecutionStatus::ExecutionHalted);
}

#[test]
fn provider_rejects_unordered_indices() {
    assert!(IndexProvider::new(vec![1, 1], 5).is_none());
    assert!(IndexProvider::new(vec![2, 1], 5).is_none());
    assert!(IndexProvider::new(vec![1, 5], 5).is_none());
    assert!(IndexProvider::new(vec![], 0).is_some());
    assert!(IndexProvider::new(vec![1, 4], 5).is_some());
}

#[test]
fn provider_walks_sparse_block() {
    let p = IndexProvider::new(vec![3, 7, 20], 25).unwrap();
    assert_eq!(p.len(), 3);
    assert_eq!(p.get_first_tid(), 3);
    assert_eq!(p.txn_end_index(), 25);
    assert_eq!(p.txn_index_right_after(3), 7);
    assert_eq!(p.txn_index_right_after(7), 20);
    assert_eq!(p.txn_index_right_after(20), 25);
    assert_eq!(p.txn_index_right_after(25), 25);
    assert_eq!(p.txn_index_right_after(0), 3);
    assert_eq!(p.txn_index_right_after(10), 20);
    assert_eq!(p.slot_of(3), Some(0));
    assert_eq!(p.slot_of(7), Some(1));
    assert_eq!(p.slot_of(20), Some(2));
    assert_eq!(p.slot_of(8), None);
    assert_eq!(p.slot_of(25), None);
    assert_eq!(p.index_at(1), 7);
    assert_eq!(p.all_txn_indices(), vec![3, 7, 20]);
}

#[test]
fn provider_contiguous_counts_up() {
    let p = IndexProvider::contiguous(4);
    assert_eq!(p.all_txn_indices(), vec![0, 1, 2, 3]);
    assert_eq!(p.get_first_tid(), 0);
    assert_eq!(p.txn_end_index(), 4);
    assert_eq!(p.txn_index_right_after(2), 3);
    assert_eq!(p.txn_index_right_after(3), 4);
    let empty = IndexProvider::contiguous(0);
    assert_eq!(empty.get_first_tid(), 0);
    assert_eq!(empty.len(), 0);
}

#[test]
fn new_scheduler_is_ready_everywhere() {
    let s = contiguous(3);
    for i in 0..3 {
        assert!(matches!(s.status(i), ExecutionStatus::ReadyToExecute(0, None)));
        assert_eq!(s.validation_status(i), ValidationStatus::new());
        assert!(s.dependencies(i).is_empty());
    }
    assert_eq!(s.commit_state(), (0, 0));
    assert_eq!(s.execution_idx(), 0);
    assert_eq!(s.validation_idx(), (0, 0));
    assert!(!s.done());
    assert_eq!(s.provider().len(), 3);
}

#[test]
fn single_txn_no_conflict() {
    let mut s = contiguous(1);
    assert_eq!(s.next_task(false), SchedulerTask::ExecutionTask((0, 0), None));
    assert!(matches!(s.status(0), ExecutionStatus::Executing(0)));
    // The validation cursor has not passed the transaction, so its
    // validation comes from the cursor and not from the finish hook.
    assert_eq!(s.finish_execution(0, 0, false), SchedulerTask::NoTask);
    assert!(matches!(s.status(0), ExecutionStatus::Executed(0)));
    assert_eq!(s.try_commit(), None);
    assert_eq!(s.next_task(false), SchedulerTask::ValidationTask((0, 0), 0));
    s.finish_validation(0, 0);
    assert_eq!(s.validation_status(0).maybe_max_validated_wave, Some(0));
    assert_eq!(s.try_commit(), Some(0));
    assert!(matches!(s.status(0), ExecutionStatus::Committed(0)));
    assert_eq!(s.commit_state(), (1, 0));
    assert!(s.done());
    assert_eq!(s.next_task(false), SchedulerTask::Done);
    assert_eq!(s.next_task(true), SchedulerTask::Done);
    assert_eq!(s.try_commit(), None);
}

#[test]
fn finish_execution_hands_out_validation_behind_cursor() {
    let mut s = contiguous(2);
    assert_eq!(s.next_task(false), SchedulerTask::ExecutionTask((0, 0), None));
    assert_eq!(s.next_task(false), SchedulerTask::ExecutionTask((1, 0), None));
    assert_eq!(s.finish_execution(0, 0, false), SchedulerTask::NoTask);
    assert_eq!(s.next_task(false), SchedulerTask::ValidationTask((0, 0), 0));
    assert_eq!(s.validation_idx(), (1, 0));
    // Transaction 1 has never executed: nothing to validate or execute.
    assert_eq!(s.next_task(false), SchedulerTask::NoTask);
    assert_eq!(s.finish_execution(1, 0, false), SchedulerTask::NoTask);
    assert_eq!(s.next_task(true), SchedulerTask::ValidationTask((1, 0), 0));
    assert_eq!(s.validation_idx(), (2, 0));
    // Abort and re-execute 0: the cursor has passed it, so the finish hook validates.
    assert!(s.try_abort(0, 0));
    assert_eq!(s.finish_abort(0, 0), SchedulerTask::ExecutionTask((0, 1), None));
    assert_eq!(s.validation_idx(), (1, 1));
    assert_eq!(s.validation_status(1).max_triggered_wave, 1);
    assert_eq!(s.next_task(false), SchedulerTask::ValidationTask((1, 0), 1));
    assert_eq!(s.finish_execution(0, 1, false), SchedulerTask::ValidationTask((0, 1), 1));
    assert_eq!(s.validation_status(0).required_wave, 1);
    assert_eq!(s.validation_idx(), (2, 1));
}

#[test]
fn finish_execution_revalidates_suffix() {
    let mut s = contiguous(3);
    run_to_executed(&mut s, 3);
    assert_eq!(s.validation_idx(), (3, 0));
    assert!(s.try_abort(0, 0));
    assert_eq!(s.finish_abort(0, 0), SchedulerTask::ExecutionTask((0, 1), None));
    assert_eq!(s.validation_idx(), (1, 1));
    assert_eq!(s.next_task(false), SchedulerTask::ValidationTask((1, 0), 1));
    assert_eq!(s.next_task(false), SchedulerTask::ValidationTask((2, 0), 1));
    assert_eq!(s.validation_idx(), (3, 1));
    assert_eq!(s.finish_execution(0, 1, true), SchedulerTask::ValidationTask((0, 1), 2));
    assert_eq!(s.validation_idx(), (1, 2));
    assert_eq!(s.validation_status(0).required_wave, 2);
    assert_eq!(s.validation_status(1).max_triggered_wave, 2);
    assert_eq!(s.validation_status(2).max_triggered_wave, 0);
}

#[test]
fn dependency_resolved_before_suspend() {
    let mut s = contiguous(2);
    assert_eq!(s.next_task(false), SchedulerTask::ExecutionTask((0, 0), None));
    assert_eq!(s.next_task(false), SchedulerTask::ExecutionTask((1, 0), None));
    assert_eq!(s.finish_execution(0, 0, false), SchedulerTask::NoTask);
    assert_eq!(s.wait_for_dependency(1, 0), DependencyResult::Resolved);
    assert!(s.dependencies(0).is_empty());
    assert!(matches!(s.status(1), ExecutionStatus::Executing(0)));
}

#[test]
fn dependency_with_real_suspension() {
    let mut s = contiguous(2);
    assert_eq!(s.next_task(false), SchedulerTask::ExecutionTask((0, 0), None));
    assert_eq!(s.next_task(false), SchedulerTask::ExecutionTask((1, 0), None));
    let h = match s.wait_for_dependency(1, 0) {
        DependencyResult::Dependency(h) => h,
        other => panic!("unexpected {:?}", other),
    };
    assert_eq!(h.id, 0);
    assert_eq!(s.handle_status(h), Some(DependencyStatus::Unresolved));
    match s.status(1) {
        ExecutionStatus::Suspended(0, held) => assert_eq!(held, h),
        other => panic!("unexpected {:?}", other),
    }
    assert_eq!(s.dependencies(0), vec![1]);
    assert_eq!(s.execution_idx(), 2);

    assert_eq!(s.finish_execution(0, 0, false), SchedulerTask::NoTask);
    assert!(s.dependencies(0).is_empty());
    assert_eq!(s.handle_status(h), Some(DependencyStatus::Resolved));
    match s.status(1) {
        ExecutionStatus::ReadyToExecute(0, Some(held)) => assert_eq!(held, h),
        other => panic!("unexpected {:?}", other),
    }
    // The execution cursor went back to the resumed transaction.
    assert_eq!(s.execution_idx(), 1);
    assert_eq!(s.next_task(false), SchedulerTask::ValidationTask((0, 0), 0));
    assert_eq!(s.next_task(false), SchedulerTask::ExecutionTask((1, 0), Some(h)));
    assert_eq!(s.finish_execution(1, 0, false), SchedulerTask::NoTask);
    assert_eq!(s.next_task(false), SchedulerTask::ValidationTask((1, 0), 0));
}

#[test]
fn execution_cursor_drops_to_smallest_waiter() {
    let mut s = contiguous(4);
    for i in 0..4 {
        assert_eq!(s.next_task(false), SchedulerTask::ExecutionTask((i, 0), None));
    }
    let h3 = match s.wait_for_dependency(3, 0) {
        DependencyResult::Dependency(h) => h,
        other => panic!("unexpected {:?}", other),
    };
    let h2 = match s.wait_for_dependency(2, 0) {
        DependencyResult::Dependency(h) => h,
        other => panic!("unexpected {:?}", other),
    };
    assert_ne!(h2, h3);
    assert_eq!(s.dependencies(0), vec![3, 2]);
    assert_eq!(s.execution_idx(), 4);
    assert_eq!(s.finish_execution(0, 0, false), SchedulerTask::NoTask);
    assert_eq!(s.execution_idx(), 2);
    assert_eq!(s.handle_status(h2), Some(DependencyStatus::Resolved));
    assert_eq!(s.handle_status(h3), Some(DependencyStatus::Resolved));
    assert_eq!(s.next_task(false), SchedulerTask::ValidationTask((0, 0), 0));
    assert_eq!(s.next_task(false), SchedulerTask::ExecutionTask((2, 0), Some(h2)));
    assert_eq!(s.next_task(false), SchedulerTask::ExecutionTask((3, 0), Some(h3)));
}

#[test]
fn abort_cascades_a_new_wave() {
    let mut s = contiguous(3);
    run_to_executed(&mut s, 3);
    assert_eq!(s.try_commit(), Some(0));

    assert!(s.try_abort(1, 0));
    assert!(matches!(s.status(1), ExecutionStatus::Aborting(0)));
    assert_eq!(s.finish_abort(1, 0), SchedulerTask::ExecutionTask((1, 1), None));
    assert!(matches!(s.status(1), ExecutionStatus::Executing(1)));
    assert_eq!(s.validation_idx(), (2, 1));
    assert_eq!(s.validation_status(2).max_triggered_wave, 1);
    assert_eq!(s.validation_status(1).max_triggered_wave, 0);

    assert_eq!(s.finish_execution(1, 1, false), SchedulerTask::ValidationTask((1, 1), 1));
    s.finish_validation(1, 1);
    assert_eq!(s.try_commit(), Some(1));
    // Transaction 2 was validated in wave 0 only.
    assert_eq!(s.try_commit(), None);
    assert_eq!(s.commit_state(), (2, 1));
    assert_eq!(s.next_task(true), SchedulerTask::ValidationTask((2, 0), 1));
    s.finish_validation(2, 1);
    assert_eq!(s.try_commit(), Some(2));
    assert!(s.done());
    assert_eq!(s.next_task(false), SchedulerTask::Done);
}

#[test]
fn finish_abort_leaves_reexecution_to_cursor() {
    let mut s = contiguous(3);
    for i in 0..3 {
        assert_eq!(s.next_task(false), SchedulerTask::ExecutionTask((i, 0), None));
    }
    assert_eq!(s.finish_execution(0, 0, false), SchedulerTask::NoTask);
    assert_eq!(s.finish_execution(2, 0, false), SchedulerTask::NoTask);
    assert_eq!(s.next_task(false), SchedulerTask::ValidationTask((0, 0), 0));
    assert!(s.try_abort(0, 0));
    // The validation cursor stands on 1 already: no new wave.
    assert_eq!(s.finish_abort(0, 0), SchedulerTask::ExecutionTask((0, 1), None));
    assert_eq!(s.validation_idx(), (1, 0));
    let h = match s.wait_for_dependency(1, 0) {
        DependencyResult::Dependency(h) => h,
        other => panic!("unexpected {:?}", other),
    };
    assert!(s.try_abort(2, 0));
    assert_eq!(s.finish_execution(0, 1, false), SchedulerTask::ValidationTask((0, 1), 0));
    assert_eq!(s.execution_idx(), 1);
    // The execution cursor is below 2: the cursor will reach it.
    assert_eq!(s.finish_abort(2, 0), SchedulerTask::NoTask);
    assert!(matches!(s.status(2), ExecutionStatus::ReadyToExecute(1, None)));
    assert_eq!(s.next_task(false), SchedulerTask::ExecutionTask((1, 0), Some(h)));
    assert_eq!(s.next_task(false), SchedulerTask::ExecutionTask((2, 1), None));
    assert_eq!(s.next_task(false), SchedulerTask::NoTask);
}

#[test]
fn try_abort_succeeds_once_per_version() {
    let mut s = contiguous(1);
    assert!(!s.try_abort(0, 0));
    assert_eq!(s.next_task(false), SchedulerTask::ExecutionTask((0, 0), None));
    assert!(!s.try_abort(0, 0));
    assert_eq!(s.finish_execution(0, 0, false), SchedulerTask::NoTask);
    assert!(!s.try_abort(0, 1));
    assert!(s.try_abort(0, 0));
    assert!(!s.try_abort(0, 0));
    assert!(matches!(s.status(0), ExecutionStatus::Aborting(0)));
    assert_eq!(s.finish_abort(0, 0), SchedulerTask::ExecutionTask((0, 1), None));
    assert!(!s.try_abort(0, 0));
}

#[test]
fn finish_validation_keeps_the_maximum() {
    let mut s = contiguous(1);
    s.finish_validation(0, 3);
    assert_eq!(s.validation_status(0).maybe_max_validated_wave, Some(3));
    s.finish_validation(0, 1);
    assert_eq!(s.validation_status(0).maybe_max_validated_wave, Some(3));
    s.finish_validation(0, 8);
    assert_eq!(s.validation_status(0).maybe_max_validated_wave, Some(8));
}

#[test]
fn commit_needs_required_wave() {
    let mut s = contiguous(2);
    run_to_executed(&mut s, 2);
    assert!(s.try_abort(0, 0));
    assert_eq!(s.finish_abort(0, 0), SchedulerTask::ExecutionTask((0, 1), None));
    assert_eq!(s.finish_execution(0, 1, false), SchedulerTask::ValidationTask((0, 1), 1));
    // Validated in wave 0 only, but wave 1 is required.
    assert_eq!(s.try_commit(), None);
    assert_eq!(s.commit_state(), (0, 0));
    s.finish_validation(0, 1);
    assert_eq!(s.try_commit(), Some(0));
    assert_eq!(s.try_commit(), None);
    assert_eq!(s.commit_state(), (1, 1));
}

#[test]
fn commits_follow_sparse_order() {
    let mut s = Scheduler::new(IndexProvider::new(vec![2, 5, 9], 12).unwrap());
    assert_eq!(s.commit_state(), (2, 0));
    assert_eq!(s.next_task(false), SchedulerTask::ExecutionTask((2, 0), None));
    assert_eq!(s.next_task(false), SchedulerTask::ExecutionTask((5, 0), None));
    assert_eq!(s.next_task(false), SchedulerTask::ExecutionTask((9, 0), None));
    assert_eq!(s.execution_idx(), 12);
    assert_eq!(s.next_task(false), SchedulerTask::NoTask);
    for i in [9, 5, 2] {
        assert_eq!(s.finish_execution(i, 0, false), SchedulerTask::NoTask);
    }
    for i in [2, 5, 9] {
        assert_eq!(s.next_task(false), SchedulerTask::ValidationTask((i, 0), 0));
        s.finish_validation(i, 0);
    }
    assert_eq!(s.try_commit(), Some(2));
    assert!(!s.done());
    assert_eq!(s.try_commit(), Some(5));
    assert_eq!(s.try_commit(), Some(9));
    assert!(s.done());
    assert_eq!(s.commit_state(), (12, 0));
    assert_eq!(s.next_task(false), SchedulerTask::Done);
}

#[test]
fn empty_block_has_no_task() {
    let mut s = contiguous(0);
    assert_eq!(s.next_task(false), SchedulerTask::NoTask);
    assert_eq!(s.next_task(true), SchedulerTask::NoTask);
    assert_eq!(s.try_commit(), None);
    assert!(!s.done());
    s.halt();
    assert_eq!(s.next_task(false), SchedulerTask::Done);
}

#[test]
fn halt_with_pending_waiters() {
    let mut s = contiguous(2);
    assert_eq!(s.next_task(false), SchedulerTask::ExecutionTask((0, 0), None));
    assert_eq!(s.next_task(false), SchedulerTask::ExecutionTask((1, 0), None));
    let h = match s.wait_for_dependency(1, 0) {
        DependencyResult::Dependency(h) => h,
        other => panic!("unexpected {:?}", other),
    };
    s.halt();
    assert!(s.done());
    assert_eq!(s.handle_status(h), Some(DependencyStatus::ExecutionHalted));
    assert!(matches!(s.status(0), ExecutionStatus::ExecutionHalted));
    assert!(matches!(s.status(1), ExecutionStatus::ExecutionHalted));
    assert_eq!(s.next_task(false), SchedulerTask::Done);
    // A worker that finishes late is sent away without a task.
    assert_eq!(s.finish_execution(0, 0, true), SchedulerTask::NoTask);
    assert!(matches!(s.status(0), ExecutionStatus::ExecutionHalted));
    assert_eq!(s.dependencies(0), vec![1]);
    assert_eq!(s.wait_for_dependency(0, 1), DependencyResult::ExecutionHalted);
    assert!(!s.try_abort(1, 0));
    assert_eq!(s.try_commit(), None);
}

#[test]
fn halt_resolves_handle_of_resumed_transaction() {
    let mut s = contiguous(2);
    assert_eq!(s.next_task(false), SchedulerTask::ExecutionTask((0, 0), None));
    assert_eq!(s.next_task(false), SchedulerTask::ExecutionTask((1, 0), None));
    let h = match s.wait_for_dependency(1, 0) {
        DependencyResult::Dependency(h) => h,
        other => panic!("unexpected {:?}", other),
    };
    assert_eq!(s.finish_execution(0, 0, false), SchedulerTask::NoTask);
    assert_eq!(s.handle_status(h), Some(DependencyStatus::Resolved));
    s.halt();
    assert_eq!(s.handle_status(h), Some(DependencyStatus::ExecutionHalted));
}

#[test]
fn halt_twice_is_halt_once() {
    let mut s = contiguous(3);
    run_to_executed(&mut s, 3);
    assert_eq!(s.try_commit(), Some(0));
    s.halt();
    let snapshot = |s: &Scheduler| {
        (
            (0..3).map(|i| format!("{:?}", s.status(i))).collect::<Vec<_>>(),
            (0..3).map(|i| s.validation_status(i)).collect::<Vec<_>>(),
            s.commit_state(),
            s.execution_idx(),
            s.validation_idx(),
            s.done(),
        )
    };
    let once = snapshot(&s);
    s.halt();
    assert_eq!(snapshot(&s), once);
    assert!(matches!(s.status(0), ExecutionStatus::ExecutionHalted));
}

#[test]
fn halt_after_done_changes_nothing() {
    let mut s = contiguous(1);
    run_to_executed(&mut s, 1);
    assert_eq!(s.try_commit(), Some(0));
    assert!(s.done());
    s.halt();
    assert!(matches!(s.status(0), ExecutionStatus::Committed(0)));
}

#[test]
fn resolve_condvar_halts_one_transaction() {
    let mut s = contiguous(2);
    assert_eq!(s.next_task(false), SchedulerTask::ExecutionTask((0, 0), None));
    assert_eq!(s.next_task(false), SchedulerTask::ExecutionTask((1, 0), None));
    let h = match s.wait_for_dependency(1, 0) {
        DependencyResult::Dependency(h) => h,
        other => panic!("unexpected {:?}", other),
    };
    s.resolve_condvar(1);
    assert_eq!(s.handle_status(h), Some(DependencyStatus::ExecutionHalted));
    assert!(matches!(s.status(1), ExecutionStatus::ExecutionHalted));
    assert!(matches!(s.status(0), ExecutionStatus::Executing(0)));
    assert!(!s.done());
    // The halted waiter is passed over when its dependency finishes.
    assert_eq!(s.finish_execution(0, 0, false), SchedulerTask::NoTask);
    assert!(matches!(s.status(1), ExecutionStatus::ExecutionHalted));
    assert_eq!(s.handle_status(h), Some(DependencyStatus::ExecutionHalted));
}

#[test]
fn unknown_handle_has_no_status() {
    let s = contiguous(1);
    assert_eq!(s.handle_status(blockstm::status::DependencyHandle { id: 0 }), None);
}

#[test]
fn incarnations_never_decrease() {
    let mut s = contiguous(1);
    let mut last = 0;
    assert_eq!(s.next_task(false), SchedulerTask::ExecutionTask((0, 0), None));
    assert_eq!(s.finish_execution(0, 0, false), SchedulerTask::NoTask);
    assert_eq!(s.next_task(false), SchedulerTask::ValidationTask((0, 0), 0));
    for round in 0..5u32 {
        assert!(s.try_abort(0, round));
        let task = s.finish_abort(0, round);
        assert_eq!(task, SchedulerTask::ExecutionTask((0, round + 1), None));
        let inc = match s.status(0) {
            ExecutionStatus::Executing(i) => i,
            other => panic!("unexpected {:?}", other),
        };
        assert!(inc >= last);
        last = inc;
        // Nothing lies behind transaction 0, so no wave is started.
        assert_eq!(s.finish_execution(0, inc, true), SchedulerTask::ValidationTask((0, inc), 0));
    }
    assert_eq!(last, 5);
}
