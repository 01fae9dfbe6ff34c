//! Tests of the deadlock detector: admission verdicts, the no-refusal
//! guarantee with detection disabled, the semaphore handle limit, the
//! missing rollback on refusal, and the documented accounting drift.

use kernel_sync::detector::safety_check;
use kernel_sync::facade::{
    sys_enable_deadlock_detect, sys_mutex_create, sys_mutex_lock, sys_mutex_unlock,
    sys_semaphore_create, sys_semaphore_down, sys_semaphore_up,
};
use kernel_sync::primitives::{MutexObj, ThreadState};
use kernel_sync::process::ProcState;
use kernel_sync::DEADLOCK_RC;

/// With detection disabled, lock/unlock and up/down never return the
/// deadlock code: they block or succeed, whatever the handles' history.
#[test]
fn no_deadlock_code_when_detection_disabled() {
    let mut p = ProcState::new(2);
    assert_eq!(sys_mutex_create(&mut p, true), 0);
    for _ in 0..6 {
        assert!(sys_semaphore_create(&mut p, 0) >= 0);
    }

    assert_eq!(sys_mutex_lock(&mut p, 0, 0), 0);
    let contended = sys_mutex_lock(&mut p, 1, 0);
    assert_ne!(contended, DEADLOCK_RC);
    assert_eq!(contended, 0);
    assert_eq!(sys_mutex_unlock(&mut p, 0), 0);

    // A handle above the detector's semaphore limit is still served when
    // detection is off.
    let rc = sys_semaphore_down(&mut p, 0, 5);
    assert_ne!(rc, DEADLOCK_RC);
    assert_eq!(rc, 0);
    assert_ne!(sys_semaphore_up(&mut p, 1, 5), DEADLOCK_RC);
}

/// With detection enabled, a semaphore handle above the detector's limit is
/// refused outright, and the recorded need is not rolled back.
#[test]
fn semaphore_handle_above_detect_limit_refused() {
    let mut p = ProcState::new(1);
    assert_eq!(sys_enable_deadlock_detect(&mut p, 1), 0);
    for k in 0..4 {
        assert_eq!(sys_semaphore_create(&mut p, 1), k);
    }

    assert_eq!(sys_semaphore_down(&mut p, 0, 3), DEADLOCK_RC);
    // The refused request stays recorded: no rollback on rejection.
    assert_eq!(p.need_sm[0][3], 1);
    // The semaphore itself was never touched.
    assert_eq!(p.semaphores[3].as_ref().unwrap().count, 1);

    // The limit is inclusive: slot 2 is admitted and granted.
    assert_eq!(sys_semaphore_down(&mut p, 0, 2), 0);
    assert_eq!(p.allocation_sm[0][2], 1);
    assert_eq!(p.available_sm[2], 0);
    assert_eq!(p.need_sm[0][2], 0);
}

/// A thread re-requesting a mutex it already holds is refused: the single
/// pass starts it unfinished (it holds a unit) with a need no work can
/// cover, and the lock attempt never reaches the primitive.
#[test]
fn relock_refused_when_detection_enabled() {
    let mut p = ProcState::new(2);
    assert_eq!(sys_enable_deadlock_detect(&mut p, 1), 0);
    assert_eq!(sys_mutex_create(&mut p, true), 0);
    assert_eq!(sys_mutex_lock(&mut p, 0, 0), 0);

    assert_eq!(sys_mutex_lock(&mut p, 0, 0), DEADLOCK_RC);
    // The refused request stays recorded, the primitive is untouched, and
    // the caller was never suspended.
    assert_eq!(p.need[0][0], 1);
    assert_eq!(p.allocation[0][0], 1);
    assert_eq!(p.threads[0], ThreadState::Runnable);
    match &p.mutexes[0] {
        Some(MutexObj::Blocking { locked, queue }) => {
            assert!(*locked);
            assert!(queue.is_empty());
        },
        _ => panic!("expected a live blocking mutex"),
    }
}

/// Semaphore accounting releases on `up` (unlike the mutex kind): the unit
/// returns from the thread's allocation to `available`.
#[test]
fn semaphore_up_releases_accounting() {
    let mut p = ProcState::new(1);
    assert_eq!(sys_enable_deadlock_detect(&mut p, 1), 0);
    assert_eq!(sys_semaphore_create(&mut p, 1), 0);
    assert_eq!(sys_semaphore_down(&mut p, 0, 0), 0);
    assert_eq!(p.allocation_sm[0][0], 1);
    assert_eq!(p.available_sm[0], 0);
    assert_eq!(sys_semaphore_up(&mut p, 0, 0), 0);
    assert_eq!(p.allocation_sm[0][0], 0);
    assert_eq!(p.available_sm[0], 1);
}

/// The mutex-kind accounting drifts, deliberately: the admission commit
/// decrements `available` at the requesting thread's index, and unlock never
/// returns the unit.  After a lock/unlock cycle with detection enabled, the
/// thread's allocation still records the unit.
#[test]
fn mutex_accounting_drift_preserved() {
    let mut p = ProcState::new(2);
    assert_eq!(sys_enable_deadlock_detect(&mut p, 1), 0);
    assert_eq!(sys_mutex_create(&mut p, true), 0);
    assert_eq!(sys_mutex_create(&mut p, true), 1);

    // Thread 1 locks mutex 1: the commit decrements available at index 1
    // (the thread's id), not at the locked resource's column.
    assert_eq!(sys_mutex_lock(&mut p, 1, 1), 0);
    assert_eq!(p.allocation[1][1], 1);
    assert_eq!(p.available[0], 1);
    assert_eq!(p.available[1], 0);

    // Unlock returns nothing to the tables.
    assert_eq!(sys_mutex_unlock(&mut p, 1), 0);
    assert_eq!(p.allocation[1][1], 1);
    assert_eq!(p.available[0], 1);
    assert_eq!(p.available[1], 0);
}

/// The safety check is a function of the tables alone: re-running the
/// identical check gives the identical verdict, safe or unsafe.
#[test]
fn safety_check_deterministic() {
    // A column where thread 0 holds 1 unit and needs 2 more than the work
    // ever reaches: unsafe.
    let allocation = vec![vec![1usize], vec![0usize]];
    let need = vec![vec![3usize], vec![0usize]];
    let first = safety_check(0, &allocation, &need, 0);
    let second = safety_check(0, &allocation, &need, 0);
    assert!(!first);
    assert_eq!(first, second);

    // A satisfiable column: safe, and equally so on a re-run.
    let allocation2 = vec![vec![1usize], vec![0usize]];
    let need2 = vec![vec![1usize], vec![1usize]];
    let third = safety_check(1, &allocation2, &need2, 0);
    let fourth = safety_check(1, &allocation2, &need2, 0);
    assert!(third);
    assert_eq!(third, fourth);
}

/// The single pass sweeps in thread order only once: work freed by a later
/// thread does not reach an earlier one, so this state is declared unsafe
/// even though a fixed-point check would accept it.
#[test]
fn single_pass_misses_out_of_order_completion() {
    // Thread 0 needs 2 units; thread 1 holds 1 and needs 0.  A full
    // Banker's pass would finish thread 1 first, free its unit, and then
    // finish thread 0 with work 2.  The single pass reaches thread 0 first
    // with work 1 and leaves it unfinished.
    let allocation = vec![vec![1usize], vec![1usize]];
    let need = vec![vec![2usize], vec![0usize]];
    assert!(!safety_check(1, &allocation, &need, 0));
}

/// A thread holding no unit of the resource is trivially finishable, so a
/// fresh thread requesting a held mutex is admitted.
#[test]
fn zero_holder_is_admitted() {
    let allocation = vec![vec![1usize], vec![0usize]];
    let need = vec![vec![0usize], vec![1usize]];
    assert!(safety_check(0, &allocation, &need, 0));
}
