//! Scenario tests driving the facade the way the scheduler would.

use kernel_sync::facade::{
    mutex_lock_step, sys_condvar_create, sys_condvar_signal, sys_condvar_wait,
    sys_enable_deadlock_detect, sys_mutex_create, sys_mutex_lock, sys_mutex_unlock, sys_sleep,
    sys_semaphore_create, sys_semaphore_down, sys_semaphore_up,
};
use kernel_sync::primitives::{AcquireOutcome, MutexObj, ThreadState};
use kernel_sync::process::ProcState;

/// Detection enabled, two threads, one blocking mutex.  Thread 0 locks and
/// the tables record the grant; thread 1 is admitted by the detector (a
/// thread holding zero units is trivially finishable) and suspends on the
/// real lock until thread 0 unlocks.
#[test]
fn detection_enabled_contended_lock() {
    let mut p = ProcState::new(2);
    assert_eq!(sys_enable_deadlock_detect(&mut p, 1), 0);
    let m = sys_mutex_create(&mut p, true);
    assert_eq!(m, 0);

    // Thread 0 locks: admitted and granted.
    assert_eq!(sys_mutex_lock(&mut p, 0, 0), 0);
    assert_eq!(p.allocation[0][0], 1);
    assert_eq!(p.available[0], 0);
    assert_eq!(p.need[0][0], 0);
    match &p.mutexes[0] {
        Some(MutexObj::Blocking { locked, queue }) => {
            assert!(*locked);
            assert!(queue.is_empty());
        },
        _ => panic!("expected a live blocking mutex"),
    }

    // Thread 1 attempts the held mutex: the detector grants admission and
    // the thread suspends on the wait queue.
    assert_eq!(sys_mutex_lock(&mut p, 1, 0), 0);
    assert_eq!(p.threads[1], ThreadState::Blocked);
    match &p.mutexes[0] {
        Some(MutexObj::Blocking { locked, queue }) => {
            assert!(*locked);
            assert_eq!(queue, &vec![1usize]);
        },
        _ => panic!("expected a live blocking mutex"),
    }

    // Thread 0 unlocks: ownership passes to thread 1, which wakes.
    assert_eq!(sys_mutex_unlock(&mut p, 0), 0);
    assert_eq!(p.threads[1], ThreadState::Runnable);
    match &p.mutexes[0] {
        Some(MutexObj::Blocking { locked, queue }) => {
            assert!(*locked);
            assert!(queue.is_empty());
        },
        _ => panic!("expected a live blocking mutex"),
    }
}

/// A semaphore created with count 0: `down` must block, and a second
/// thread's `up` must wake the blocked thread, whose `down` returns 0.
#[test]
fn semaphore_zero_blocks_until_up() {
    let mut p = ProcState::new(2);
    let s = sys_semaphore_create(&mut p, 0);
    assert_eq!(s, 0);

    let rc = sys_semaphore_down(&mut p, 0, 0);
    assert_eq!(rc, 0);
    assert_eq!(p.threads[0], ThreadState::Blocked);
    assert_eq!(p.semaphores[0].as_ref().unwrap().count, -1);
    assert_eq!(p.semaphores[0].as_ref().unwrap().queue, vec![0usize]);

    assert_eq!(sys_semaphore_up(&mut p, 1, 0), 0);
    assert_eq!(p.threads[0], ThreadState::Runnable);
    assert_eq!(p.semaphores[0].as_ref().unwrap().count, 0);
    assert!(p.semaphores[0].as_ref().unwrap().queue.is_empty());
}

/// Semaphore wake order is FIFO by block order.
#[test]
fn semaphore_fifo_wakeup() {
    let mut p = ProcState::new(3);
    sys_semaphore_create(&mut p, 0);
    assert_eq!(sys_semaphore_down(&mut p, 1, 0), 0);
    assert_eq!(sys_semaphore_down(&mut p, 2, 0), 0);
    assert_eq!(p.semaphores[0].as_ref().unwrap().queue, vec![1usize, 2]);

    assert_eq!(sys_semaphore_up(&mut p, 0, 0), 0);
    assert_eq!(p.threads[1], ThreadState::Runnable);
    assert_eq!(p.threads[2], ThreadState::Blocked);
    assert_eq!(sys_semaphore_up(&mut p, 0, 0), 0);
    assert_eq!(p.threads[2], ThreadState::Runnable);
}

/// Condition-variable round trip: thread 0 holds the mutex and waits;
/// thread 1 acquires the mutex, signals, and unlocks; thread 0's wait
/// completes only once it has re-acquired the mutex.
#[test]
fn condvar_wait_signal_reacquire() {
    let mut p = ProcState::new(2);
    assert_eq!(sys_mutex_create(&mut p, true), 0);
    assert_eq!(sys_condvar_create(&mut p), 0);

    // Thread 0 takes the mutex and waits: the mutex is released and the
    // thread suspends on the condition variable's queue.
    assert_eq!(sys_mutex_lock(&mut p, 0, 0), 0);
    assert_eq!(sys_condvar_wait(&mut p, 0, 0, 0), 0);
    assert_eq!(p.threads[0], ThreadState::Blocked);
    assert_eq!(p.condvars[0].as_ref().unwrap().queue, vec![0usize]);
    match &p.mutexes[0] {
        Some(MutexObj::Blocking { locked, .. }) => assert!(!*locked),
        _ => panic!("expected a live blocking mutex"),
    }

    // Thread 1 acquires the mutex and signals: thread 0 wakes but has not
    // yet re-acquired the mutex.
    assert_eq!(sys_mutex_lock(&mut p, 1, 0), 0);
    assert_eq!(sys_condvar_signal(&mut p, 0), 0);
    assert_eq!(p.threads[0], ThreadState::Runnable);
    assert!(p.condvars[0].as_ref().unwrap().queue.is_empty());

    // Thread 0 resumes inside wait and re-attempts the lock: the mutex is
    // held by thread 1, so it queues and suspends again.
    assert_eq!(mutex_lock_step(&mut p, 0, 0), AcquireOutcome::Queued);
    assert_eq!(p.threads[0], ThreadState::Blocked);

    // Thread 1 unlocks: ownership passes to thread 0; its wait returns.
    assert_eq!(sys_mutex_unlock(&mut p, 0), 0);
    assert_eq!(p.threads[0], ThreadState::Runnable);
    match &p.mutexes[0] {
        Some(MutexObj::Blocking { locked, queue }) => {
            assert!(*locked);
            assert!(queue.is_empty());
        },
        _ => panic!("expected a live blocking mutex"),
    }
}

/// Signalling a condition variable nobody waits on is a no-op.
#[test]
fn condvar_signal_without_waiter() {
    let mut p = ProcState::new(1);
    assert_eq!(sys_condvar_create(&mut p), 0);
    assert_eq!(sys_condvar_signal(&mut p, 0), 0);
    assert!(p.condvars[0].as_ref().unwrap().queue.is_empty());
    assert_eq!(p.threads[0], ThreadState::Runnable);
}

/// A spin mutex never queues: a contended attempt changes nothing and the
/// caller keeps retrying until the holder releases.
#[test]
fn spin_mutex_busy_retry() {
    let mut p = ProcState::new(2);
    assert_eq!(sys_mutex_create(&mut p, false), 0);
    assert_eq!(sys_mutex_lock(&mut p, 0, 0), 0);
    match &p.mutexes[0] {
        Some(MutexObj::Spin { locked }) => assert!(*locked),
        _ => panic!("expected a live spin mutex"),
    }

    // Thread 1 spins: the call reports success-in-progress, the thread
    // stays runnable, and each retry step finds the mutex busy.
    assert_eq!(sys_mutex_lock(&mut p, 1, 0), 0);
    assert_eq!(p.threads[1], ThreadState::Runnable);
    assert_eq!(mutex_lock_step(&mut p, 1, 0), AcquireOutcome::Busy);

    assert_eq!(sys_mutex_unlock(&mut p, 0), 0);
    assert_eq!(mutex_lock_step(&mut p, 1, 0), AcquireOutcome::Acquired);
    match &p.mutexes[0] {
        Some(MutexObj::Spin { locked }) => assert!(*locked),
        _ => panic!("expected a live spin mutex"),
    }
}

/// A condition variable is not bound to one mutex: each wait call names
/// its own, and the queue serves them in FIFO order regardless.
#[test]
fn condvar_mutex_passed_per_call() {
    let mut p = ProcState::new(3);
    assert_eq!(sys_mutex_create(&mut p, true), 0);
    assert_eq!(sys_mutex_create(&mut p, true), 1);
    assert_eq!(sys_condvar_create(&mut p), 0);

    assert_eq!(sys_mutex_lock(&mut p, 0, 0), 0);
    assert_eq!(sys_condvar_wait(&mut p, 0, 0, 0), 0);
    assert_eq!(sys_mutex_lock(&mut p, 1, 1), 0);
    assert_eq!(sys_condvar_wait(&mut p, 1, 0, 1), 0);
    assert_eq!(p.condvars[0].as_ref().unwrap().queue, vec![0usize, 1]);

    // Two signals wake the waiters in block order; each then re-acquires
    // the mutex it named, both of which are free again.
    assert_eq!(sys_condvar_signal(&mut p, 0), 0);
    assert_eq!(p.threads[0], ThreadState::Runnable);
    assert_eq!(p.threads[1], ThreadState::Blocked);
    assert_eq!(sys_condvar_signal(&mut p, 0), 0);
    assert_eq!(p.threads[1], ThreadState::Runnable);
    assert_eq!(mutex_lock_step(&mut p, 0, 0), AcquireOutcome::Acquired);
    assert_eq!(mutex_lock_step(&mut p, 1, 1), AcquireOutcome::Acquired);
}

/// Blocking-mutex wake order is FIFO by block order.
#[test]
fn blocking_mutex_fifo_handover() {
    let mut p = ProcState::new(3);
    assert_eq!(sys_mutex_create(&mut p, true), 0);
    assert_eq!(sys_mutex_lock(&mut p, 0, 0), 0);
    assert_eq!(sys_mutex_lock(&mut p, 1, 0), 0);
    assert_eq!(sys_mutex_lock(&mut p, 2, 0), 0);
    match &p.mutexes[0] {
        Some(MutexObj::Blocking { queue, .. }) => assert_eq!(queue, &vec![1usize, 2]),
        _ => panic!("expected a live blocking mutex"),
    }

    assert_eq!(sys_mutex_unlock(&mut p, 0), 0);
    assert_eq!(p.threads[1], ThreadState::Runnable);
    assert_eq!(p.threads[2], ThreadState::Blocked);
    assert_eq!(sys_mutex_unlock(&mut p, 0), 0);
    assert_eq!(p.threads[2], ThreadState::Runnable);
}

/// Sleep blocks the caller and hands the timer the absolute deadline.
#[test]
fn sleep_blocks_with_deadline() {
    let mut p = ProcState::new(1);
    let (rc, deadline) = sys_sleep(&mut p, 0, 1200, 300);
    assert_eq!(rc, 0);
    assert_eq!(deadline, 1500);
    assert_eq!(p.threads[0], ThreadState::Blocked);
}
