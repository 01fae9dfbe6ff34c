//! Tests of handle assignment: first-fit reuse, stability of live handles,
//! and rejection of dead handles.

use kernel_sync::facade::{
    sys_condvar_create, sys_condvar_signal, sys_condvar_wait, sys_mutex_create, sys_mutex_lock,
    sys_mutex_unlock, sys_semaphore_create, sys_semaphore_down, sys_semaphore_up,
};
use kernel_sync::process::ProcState;
use kernel_sync::INVALID_RC;

/// Creating a run of mutexes yields increasing handles; after slots are
/// cleared, creation reuses the lowest freed slot first, then appends.
#[test]
fn mutex_handles_increase_then_reuse_first_fit() {
    let mut p = ProcState::new(1);
    for k in 0..5 {
        assert_eq!(sys_mutex_create(&mut p, false), k);
    }
    p.clear_mutex_slot(3);
    p.clear_mutex_slot(1);
    assert_eq!(sys_mutex_create(&mut p, true), 1);
    assert_eq!(sys_mutex_create(&mut p, true), 3);
    assert_eq!(sys_mutex_create(&mut p, true), 5);
    // Live handles kept their objects throughout.
    assert_eq!(p.mutexes.len(), 6);
    assert!(p.mutexes.iter().all(|s| s.is_some()));
}

/// Semaphore and condition-variable registries follow the same first-fit
/// discipline, independently of each other.
#[test]
fn semaphore_and_condvar_handles_first_fit() {
    let mut p = ProcState::new(1);
    assert_eq!(sys_semaphore_create(&mut p, 4), 0);
    assert_eq!(sys_semaphore_create(&mut p, 2), 1);
    assert_eq!(sys_condvar_create(&mut p), 0);
    assert_eq!(sys_condvar_create(&mut p), 1);
    p.clear_sem_slot(0);
    assert_eq!(sys_semaphore_create(&mut p, 9), 0);
    assert_eq!(p.semaphores[0].as_ref().unwrap().count, 9);
    p.clear_cv_slot(1);
    assert_eq!(sys_condvar_create(&mut p), 1);
}

/// A handle aliasing a cleared slot is treated as dead until the slot is
/// issued again.
#[test]
fn stale_handles_rejected() {
    let mut p = ProcState::new(1);
    assert_eq!(sys_mutex_create(&mut p, true), 0);
    assert_eq!(sys_semaphore_create(&mut p, 1), 0);
    assert_eq!(sys_condvar_create(&mut p), 0);
    p.clear_mutex_slot(0);
    p.clear_sem_slot(0);
    p.clear_cv_slot(0);

    assert_eq!(sys_mutex_lock(&mut p, 0, 0), INVALID_RC);
    assert_eq!(sys_mutex_unlock(&mut p, 0), INVALID_RC);
    assert_eq!(sys_semaphore_down(&mut p, 0, 0), INVALID_RC);
    assert_eq!(sys_semaphore_up(&mut p, 0, 0), INVALID_RC);
    assert_eq!(sys_condvar_signal(&mut p, 0), INVALID_RC);
    assert_eq!(sys_condvar_wait(&mut p, 0, 0, 0), INVALID_RC);
}

/// Out-of-range handles are rejected with the invalid code on every entry
/// point that resolves a handle.
#[test]
fn out_of_range_handles_rejected() {
    let mut p = ProcState::new(1);
    assert_eq!(sys_mutex_lock(&mut p, 0, 7), INVALID_RC);
    assert_eq!(sys_mutex_unlock(&mut p, 7), INVALID_RC);
    assert_eq!(sys_semaphore_down(&mut p, 0, 7), INVALID_RC);
    assert_eq!(sys_semaphore_up(&mut p, 0, 7), INVALID_RC);
    assert_eq!(sys_condvar_signal(&mut p, 7), INVALID_RC);
    assert_eq!(sys_condvar_wait(&mut p, 0, 7, 0), INVALID_RC);
    // A wait whose condition variable is live but whose mutex is dead is
    // rejected too.
    assert_eq!(sys_condvar_create(&mut p), 0);
    assert_eq!(sys_condvar_wait(&mut p, 0, 0, 7), INVALID_RC);
}

/// Creating resources while detection bookkeeping runs appends one column
/// per creation, even when a slot is reused, so columns outnumber slots.
#[test]
fn accounting_columns_grow_per_creation() {
    let mut p = ProcState::new(1);
    assert_eq!(kernel_sync::facade::sys_enable_deadlock_detect(&mut p, 1), 0);
    assert_eq!(sys_mutex_create(&mut p, true), 0);
    assert_eq!(sys_mutex_create(&mut p, true), 1);
    p.clear_mutex_slot(0);
    assert_eq!(sys_mutex_create(&mut p, true), 0);
    assert_eq!(p.mutexes.len(), 2);
    assert_eq!(p.available.len(), 3);
    assert_eq!(p.allocation[0].len(), 3);
    assert_eq!(p.need[0].len(), 3);
}
