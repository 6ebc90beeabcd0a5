use eq_oracle::schedule::{
    acquire_lock, tick_schedule, LockLog, LockStore, LockedExecResult, PersistFn, ScheduleStep,
    TaskFn,
};
use std::cell::Cell;

#[test]
fn lock_runs_task_once_and_releases() {
    let mut store = LockStore::new();
    let runs = Cell::new(0);
    let mut task = TaskFn::new(|| runs.set(runs.get() + 1));
    let mut log = LockLog::new();
    let id = Some(vec![1u8; 32]);
    let r = acquire_lock(&mut store, &id, &mut log, &mut task);
    assert_eq!(r, LockedExecResult::Executed);
    assert_eq!(runs.get(), 1);
    assert_eq!(store.locked, None);
    assert_eq!(store.exec_id, id);
    let written: Vec<Option<bool>> = log.states.iter().map(|s| s.locked).collect();
    assert_eq!(written, vec![Some(true), None]);
}

#[test]
fn held_lock_is_not_entered() {
    let mut store = LockStore { exec_id: Some(vec![1u8; 32]), locked: Some(true) };
    let runs = Cell::new(0);
    let mut task = TaskFn::new(|| runs.set(runs.get() + 1));
    let mut log = LockLog::new();
    let r = acquire_lock(&mut store, &Some(vec![1u8; 32]), &mut log, &mut task);
    assert_eq!(r, LockedExecResult::Locked);
    assert_eq!(runs.get(), 0);
    assert_eq!(store.locked, Some(true));
    assert!(log.states.is_empty());
}

#[test]
fn new_execution_id_clears_stale_lock() {
    let mut store = LockStore { exec_id: Some(vec![1u8; 32]), locked: Some(true) };
    let runs = Cell::new(0);
    let mut task = TaskFn::new(|| runs.set(runs.get() + 1));
    let mut log = LockLog::new();
    let r = acquire_lock(&mut store, &Some(vec![2u8; 32]), &mut log, &mut task);
    assert_eq!(r, LockedExecResult::Executed);
    assert_eq!(runs.get(), 1);
    assert_eq!(store.exec_id, Some(vec![2u8; 32]));
    let mut unfenced = LockStore { exec_id: None, locked: Some(true) };
    let mut idle = TaskFn::new(|| {});
    assert_eq!(acquire_lock(&mut unfenced, &None, &mut log, &mut idle), LockedExecResult::Locked);
}

#[test]
fn lost_race_does_not_run_task() {
    let mut store = LockStore::new();
    let runs = Cell::new(0);
    let mut task = TaskFn::new(|| runs.set(runs.get() + 1));
    // another run always takes the lock first
    let mut contended = PersistFn::new(|_: &LockStore| false, |_: &LockStore| {});
    let r = acquire_lock(&mut store, &Some(vec![4u8; 32]), &mut contended, &mut task);
    assert_eq!(r, LockedExecResult::Locked);
    assert_eq!(runs.get(), 0);
    assert_eq!(store.locked, None);
}

#[test]
fn scheduler_ticks() {
    assert_eq!(tick_schedule(Some(0), None), ScheduleStep { counter: None, fire: false });
    assert_eq!(tick_schedule(Some(0), Some(0)), ScheduleStep { counter: None, fire: false });
    assert_eq!(tick_schedule(None, Some(3)), ScheduleStep { counter: Some(1), fire: false });
    assert_eq!(tick_schedule(Some(1), Some(3)), ScheduleStep { counter: Some(2), fire: false });
    assert_eq!(tick_schedule(Some(2), Some(3)), ScheduleStep { counter: Some(0), fire: true });
    assert_eq!(tick_schedule(Some(5), Some(3)), ScheduleStep { counter: Some(0), fire: false });
    assert_eq!(tick_schedule(None, Some(1)), ScheduleStep { counter: Some(0), fire: true });
    assert_eq!(tick_schedule(Some(u32::MAX), Some(u32::MAX)), ScheduleStep { counter: Some(0), fire: false });
}
