//! The synchronization entry points a thread calls: create/lock/unlock for
//! mutexes, create/up/down for semaphores, create/signal/wait for condition
//! variables, sleep, and the deadlock-detection toggle.
//!
//! Each function takes the process's state and the calling thread's id and
//! returns a signed result code: a handle or `0` on success, [`INVALID_RC`]
//! for a handle that names no live object, [`DEADLOCK_RC`] when the detector
//! refuses an acquisition.  An operation that suspends the caller records the
//! thread as blocked; the value it returns is the one the thread receives
//! when the scheduler resumes it.

use crate::detector::{column, safety_check, seq_sum, single_pass_safe};
use crate::model::{first_free, lemma_first_free_bounds, lemma_first_free_is, CvModel, MutexModel, ProcModel, SemModel};
use crate::primitives::{AcquireOutcome, CondvarObj, MutexObj, SemObj, ThreadState};
use crate::process::{find_free_slot, ProcState};
use crate::{DEADLOCK_RC, INVALID_RC};
use vstd::prelude::*;

verus! {

/// Highest semaphore handle the deadlock detector will admit: a `down` on a
/// handle above this limit is refused outright whenever detection is
/// enabled.  Only the first three semaphore slots take part in detection.
pub const SEM_DETECT_LIMIT: usize = 2;

/// State and handle after creating a mutex: one accounting column (capacity
/// 1) is appended for the new resource, and the new object takes the
/// lowest-numbered empty slot, else a fresh one at the end.
pub open spec fn spec_sys_mutex_create(m: ProcModel, blocking: bool) -> (ProcModel, int) {
    let slot = first_free(m.mutexes);
    let fresh = MutexModel { blocking, locked: false, queue: Seq::empty() };
    let slots2 = if slot == m.mutexes.len() {
        m.mutexes.push(Some(fresh))
    } else {
        m.mutexes.update(slot, Some(fresh))
    };
    let m2 = ProcModel {
        mutexes: slots2,
        available: m.available.push(1usize),
        allocation: m.allocation.map_values(|row: Seq<usize>| row.push(0usize)),
        need: m.need.map_values(|row: Seq<usize>| row.push(0usize)),
        ..m
    };
    (m2, slot)
}

/// State and handle after creating a semaphore with `res_count` initial
/// units; the new accounting column starts at that capacity.
pub open spec fn spec_sys_semaphore_create(m: ProcModel, res_count: usize) -> (ProcModel, int) {
    let slot = first_free(m.semaphores);
    let fresh = SemModel { count: res_count as int, queue: Seq::empty() };
    let slots2 = if slot == m.semaphores.len() {
        m.semaphores.push(Some(fresh))
    } else {
        m.semaphores.update(slot, Some(fresh))
    };
    let m2 = ProcModel {
        semaphores: slots2,
        available_sm: m.available_sm.push(res_count),
        allocation_sm: m.allocation_sm.map_values(|row: Seq<usize>| row.push(0usize)),
        need_sm: m.need_sm.map_values(|row: Seq<usize>| row.push(0usize)),
        ..m
    };
    (m2, slot)
}

/// State and handle after creating a condition variable.  Condition
/// variables take part in no resource accounting.
pub open spec fn spec_sys_condvar_create(m: ProcModel) -> (ProcModel, int) {
    let slot = first_free(m.condvars);
    let fresh = CvModel { queue: Seq::empty() };
    let slots2 = if slot == m.condvars.len() {
        m.condvars.push(Some(fresh))
    } else {
        m.condvars.update(slot, Some(fresh))
    };
    (ProcModel { condvars: slots2, ..m }, slot)
}

/// Append a zeroed column to every row of an accounting table.
fn push_zero_column(table: &mut Vec<Vec<usize>>)
    ensures
        final(table)@.len() == old(table)@.len(),
        crate::model::table_view(final(table)@) == crate::model::table_view(
            old(table)@,
        ).map_values(|row: Seq<usize>| row.push(0usize)),
{
    let n = table.len();
    let mut t: usize = 0;
    while t < n
        invariant
            t <= n,
            n == table@.len(),
            forall|u: int| t <= u < n ==> table@[u] == old(table)@[u],
            forall|u: int| 0 <= u < t ==> (#[trigger] table@[u])@ == old(table)@[u]@.push(0usize),
        decreases n - t,
    {
        table[t].push(0);
        t = t + 1;
    }
    proof {
        assert(crate::model::table_view(table@) =~~= crate::model::table_view(
            old(table)@,
        ).map_values(|row: Seq<usize>| row.push(0usize)));
    }
}

/// Create a mutex: spin variant when `blocking` is false, suspending variant
/// when true.  Returns the new handle, the lowest-numbered free slot.  A
/// capacity-1 accounting column is appended whether or not detection is
/// currently enabled, so the tables always cover every created resource.
pub fn sys_mutex_create(p: &mut ProcState, blocking: bool) -> (r: isize)
    requires
        old(p).wf(),
        old(p)@.mutexes.len() < isize::MAX,
    ensures
        final(p).wf(),
        final(p)@ == spec_sys_mutex_create(old(p)@, blocking).0,
        r == spec_sys_mutex_create(old(p)@, blocking).1,
        0 <= r <= old(p)@.mutexes.len(),
        r < old(p)@.mutexes.len() ==> old(p)@.mutexes[r as int] is None,
{
    let ghost m0 = p@;
    p.available.push(1);
    push_zero_column(&mut p.allocation);
    push_zero_column(&mut p.need);
    let mutex = MutexObj::new(blocking);
    let id = find_free_slot(&p.mutexes);
    proof {
        assert forall|j: int| 0 <= j < id implies m0.mutexes[j] is Some by {
            assert(p.mutexes@[j] is Some);
        }
        lemma_first_free_is(m0.mutexes, id as int);
    }
    if id < p.mutexes.len() {
        p.mutexes.set(id, Some(mutex));
    } else {
        p.mutexes.push(Some(mutex));
    }
    proof {
        assert(p@ =~~= spec_sys_mutex_create(m0, blocking).0);
    }
    id as isize
}

/// Create a counting semaphore with `res_count` initial units and return its
/// handle, the lowest-numbered free slot.  An accounting column of capacity
/// `res_count` is appended whether or not detection is currently enabled.
pub fn sys_semaphore_create(p: &mut ProcState, res_count: usize) -> (r: isize)
    requires
        old(p).wf(),
        old(p)@.semaphores.len() < isize::MAX,
        res_count <= isize::MAX,
    ensures
        final(p).wf(),
        final(p)@ == spec_sys_semaphore_create(old(p)@, res_count).0,
        r == spec_sys_semaphore_create(old(p)@, res_count).1,
        0 <= r <= old(p)@.semaphores.len(),
        r < old(p)@.semaphores.len() ==> old(p)@.semaphores[r as int] is None,
{
    let ghost m0 = p@;
    p.available_sm.push(res_count);
    push_zero_column(&mut p.allocation_sm);
    push_zero_column(&mut p.need_sm);
    let sem = SemObj::new(res_count);
    let id = find_free_slot(&p.semaphores);
    proof {
        assert forall|j: int| 0 <= j < id implies m0.semaphores[j] is Some by {
            assert(p.semaphores@[j] is Some);
        }
        lemma_first_free_is(m0.semaphores, id as int);
    }
    if id < p.semaphores.len() {
        p.semaphores.set(id, Some(sem));
    } else {
        p.semaphores.push(Some(sem));
    }
    proof {
        assert(p@ =~~= spec_sys_semaphore_create(m0, res_count).0);
    }
    id as isize
}

/// Create a condition variable and return its handle, the lowest-numbered
/// free slot.
pub fn sys_condvar_create(p: &mut ProcState) -> (r: isize)
    requires
        old(p).wf(),
        old(p)@.condvars.len() < isize::MAX,
    ensures
        final(p).wf(),
        final(p)@ == spec_sys_condvar_create(old(p)@).0,
        r == spec_sys_condvar_create(old(p)@).1,
        0 <= r <= old(p)@.condvars.len(),
        r < old(p)@.condvars.len() ==> old(p)@.condvars[r as int] is None,
{
    let ghost m0 = p@;
    let cv = CondvarObj::new();
    let id = find_free_slot(&p.condvars);
    proof {
        assert forall|j: int| 0 <= j < id implies m0.condvars[j] is Some by {
            assert(p.condvars@[j] is Some);
        }
        lemma_first_free_is(m0.condvars, id as int);
    }
    if id < p.condvars.len() {
        p.condvars.set(id, Some(cv));
    } else {
        p.condvars.push(Some(cv));
    }
    proof {
        assert(p@ =~~= spec_sys_condvar_create(m0).0);
    }
    id as isize
}

/// State and result of toggling deadlock detection: `0` disables, `1`
/// enables, anything else is rejected with `-1` and changes nothing.
/// Toggling never reconciles the accounting tables with past history.
pub open spec fn spec_sys_enable_deadlock_detect(m: ProcModel, enabled: usize) -> (ProcModel, int) {
    if enabled == 0 {
        (ProcModel { detect: false, ..m }, 0)
    } else if enabled == 1 {
        (ProcModel { detect: true, ..m }, 0)
    } else {
        (m, INVALID_RC as int)
    }
}

/// Enable (`1`) or disable (`0`) deadlock detection for the process.  Any
/// other argument returns `-1` and leaves the flag unchanged.
pub fn sys_enable_deadlock_detect(p: &mut ProcState, enabled: usize) -> (r: isize)
    requires
        old(p).wf(),
    ensures
        final(p).wf(),
        final(p)@ == spec_sys_enable_deadlock_detect(old(p)@, enabled).0,
        r == spec_sys_enable_deadlock_detect(old(p)@, enabled).1,
        enabled != 0 && enabled != 1 ==> r == INVALID_RC && final(p)@ == old(p)@,
        enabled == 0 ==> r == 0 && !final(p)@.detect,
        enabled == 1 ==> r == 0 && final(p)@.detect,
{
    let ghost m0 = p@;
    if enabled == 0 {
        p.detect_enabled = false;
        proof {
            assert(p@ =~~= (ProcModel { detect: false, ..m0 }));
        }
        0
    } else if enabled == 1 {
        p.detect_enabled = true;
        proof {
            assert(p@ =~~= (ProcModel { detect: true, ..m0 }));
        }
        0
    } else {
        INVALID_RC
    }
}

/// No two simultaneously-live objects ever share a handle: under any
/// sequence of create calls interleaved with slot clearings, a create issues
/// a handle whose slot held no live mutex in the state before the call, and
/// every other slot keeps its occupant.  Since live handles are distinct
/// slot indices, the handle of a live object is never issued again while
/// that object lives.
pub proof fn lemma_mutex_create_fresh_handle(m: ProcModel, blocking: bool)
    ensures
        0 <= spec_sys_mutex_create(m, blocking).1 <= m.mutexes.len(),
        spec_sys_mutex_create(m, blocking).1 < m.mutexes.len() ==> m.mutexes[spec_sys_mutex_create(
            m,
            blocking,
        ).1] is None,
        spec_sys_mutex_create(m, blocking).0.mutexes[spec_sys_mutex_create(m, blocking).1]
            is Some,
        forall|j: int|
            0 <= j < m.mutexes.len() && j != spec_sys_mutex_create(m, blocking).1
                ==> spec_sys_mutex_create(m, blocking).0.mutexes[j] == m.mutexes[j],
{
    lemma_first_free_bounds(m.mutexes);
}

/// The semaphore registry issues handles under the same first-fit
/// discipline; see [`lemma_mutex_create_fresh_handle`].
pub proof fn lemma_semaphore_create_fresh_handle(m: ProcModel, res_count: usize)
    ensures
        0 <= spec_sys_semaphore_create(m, res_count).1 <= m.semaphores.len(),
        spec_sys_semaphore_create(m, res_count).1 < m.semaphores.len() ==> m.semaphores[
            spec_sys_semaphore_create(m, res_count).1] is None,
        spec_sys_semaphore_create(m, res_count).0.semaphores[spec_sys_semaphore_create(
            m,
            res_count,
        ).1] is Some,
        forall|j: int|
            0 <= j < m.semaphores.len() && j != spec_sys_semaphore_create(m, res_count).1
                ==> spec_sys_semaphore_create(m, res_count).0.semaphores[j] == m.semaphores[j],
{
    lemma_first_free_bounds(m.semaphores);
}

/// The condition-variable registry issues handles under the same first-fit
/// discipline; see [`lemma_mutex_create_fresh_handle`].
pub proof fn lemma_condvar_create_fresh_handle(m: ProcModel)
    ensures
        0 <= spec_sys_condvar_create(m).1 <= m.condvars.len(),
        spec_sys_condvar_create(m).1 < m.condvars.len() ==> m.condvars[spec_sys_condvar_create(
            m,
        ).1] is None,
        spec_sys_condvar_create(m).0.condvars[spec_sys_condvar_create(m).1] is Some,
        forall|j: int|
            0 <= j < m.condvars.len() && j != spec_sys_condvar_create(m).1
                ==> spec_sys_condvar_create(m).0.condvars[j] == m.condvars[j],
{
    lemma_first_free_bounds(m.condvars);
}

/// State after one acquisition attempt of mutex `id` by thread `tid`: a free
/// mutex is taken; a held blocking mutex queues and suspends the caller; a
/// held spin mutex changes nothing (the caller keeps spinning).
pub open spec fn spec_mutex_acquire(m: ProcModel, tid: int, id: int) -> ProcModel {
    let mx = m.mutex_at(id);
    if !mx.locked {
        m.with_mutex(id, MutexModel { locked: true, ..mx })
    } else if mx.blocking {
        m.with_mutex(id, MutexModel { queue: mx.queue.push(tid as usize), ..mx }).block(tid)
    } else {
        m
    }
}

/// State after releasing mutex `id`: with waiters on the blocking variant,
/// ownership passes to the first queued thread, which is woken and the mutex
/// stays held; otherwise the mutex becomes free.
pub open spec fn spec_mutex_release(m: ProcModel, id: int) -> ProcModel {
    let mx = m.mutex_at(id);
    if mx.blocking && mx.queue.len() > 0 {
        m.with_mutex(id, MutexModel { queue: mx.queue.drop_first(), ..mx }).wake(mx.queue[0] as int)
    } else {
        m.with_mutex(id, MutexModel { locked: false, ..mx })
    }
}

/// One acquisition attempt of mutex `mutex_id` by thread `tid`, with no
/// detector involvement: the primitive step the facade performs after
/// admission.  It is also the retry step the scheduler runs for a spinning
/// thread, and the re-acquisition step of a thread woken from a
/// condition-variable wait.
pub fn mutex_lock_step(p: &mut ProcState, tid: usize, mutex_id: usize) -> (outcome:
    AcquireOutcome)
    requires
        old(p).wf(),
        tid < old(p)@.threads.len(),
        old(p)@.valid_mutex(mutex_id as int),
    ensures
        final(p).wf(),
        final(p)@ == spec_mutex_acquire(old(p)@, tid as int, mutex_id as int),
        outcome == AcquireOutcome::Acquired <==> !old(p)@.mutex_at(mutex_id as int).locked,
        outcome == AcquireOutcome::Queued <==> old(p)@.mutex_at(mutex_id as int).locked && old(
            p,
        )@.mutex_at(mutex_id as int).blocking,
        outcome == AcquireOutcome::Busy <==> old(p)@.mutex_at(mutex_id as int).locked && !old(
            p,
        )@.mutex_at(mutex_id as int).blocking,
{
    let ghost m0 = p@;
    let outcome = match &mut p.mutexes[mutex_id] {
        Some(mx) => mx.acquire(tid),
        None => {
            proof {
                assert(false);
            }
            AcquireOutcome::Busy
        },
    };
    if outcome == AcquireOutcome::Queued {
        p.threads.set(tid, ThreadState::Blocked);
    }
    proof {
        let id = mutex_id as int;
        let mx = m0.mutex_at(id);
        if !mx.locked {
            assert(p@ =~~= m0.with_mutex(id, MutexModel { locked: true, ..mx }));
        } else if mx.blocking {
            assert(p@ =~~= m0.with_mutex(
                id,
                MutexModel { queue: mx.queue.push(tid), ..mx },
            ).block(tid as int));
        } else {
            assert(p@ =~~= m0);
        }
    }
    outcome
}

/// The primitive release step shared by unlock and condition-variable wait.
fn mutex_release_step(p: &mut ProcState, mutex_id: usize)
    requires
        old(p).wf(),
        old(p)@.valid_mutex(mutex_id as int),
    ensures
        final(p).wf(),
        final(p)@ == spec_mutex_release(old(p)@, mutex_id as int),
{
    let ghost m0 = p@;
    let woken = match &mut p.mutexes[mutex_id] {
        Some(mx) => mx.release(),
        None => {
            proof {
                assert(false);
            }
            None
        },
    };
    if let Some(w) = woken {
        proof {
            assert(m0.queue_wf(m0.mutex_at(mutex_id as int).queue));
        }
        p.threads.set(w, ThreadState::Runnable);
    }
    proof {
        let id = mutex_id as int;
        let mx = m0.mutex_at(id);
        if mx.blocking && mx.queue.len() > 0 {
            assert(p@ =~~= m0.with_mutex(
                id,
                MutexModel { queue: mx.queue.drop_first(), ..mx },
            ).wake(mx.queue[0] as int));
        } else {
            assert(p@ =~~= m0.with_mutex(id, MutexModel { locked: false, ..mx }));
        }
    }
}

/// The machine bounds under which the detector's mutex-kind arithmetic
/// cannot overflow.
pub open spec fn mutex_lock_arith_ok(m: ProcModel, tid: int, id: int) -> bool {
    m.detect && m.valid_mutex(id) ==> {
        &&& m.need[tid][id] < usize::MAX
        &&& m.allocation[tid][id] < usize::MAX
        &&& m.available[id] + seq_sum(column(m.allocation, id)) <= usize::MAX
    }
}

/// The detector's admission step for thread `tid` requesting one unit of
/// mutex `id`.  The request is first recorded in `need`; the single-pass
/// check then runs; on an unsafe verdict the request is refused and the
/// recorded need is NOT rolled back.  On a safe verdict the grant is
/// committed: the thread's allocation grows by one unit, the recorded need
/// is withdrawn, and `available` is decremented at the requesting thread's
/// index — not the resource's — and only when that entry exists and is
/// positive.  Together with the missing release on unlock, the accounting
/// drifts from the capacity invariant over lock/unlock cycles with detection
/// enabled; the drift is deliberate, observable behaviour of this layer.
pub open spec fn spec_mutex_admission(m: ProcModel, tid: int, id: int) -> (ProcModel, bool) {
    let need1 = m.need.update(tid, m.need[tid].update(id, (m.need[tid][id] + 1) as usize));
    let m1 = ProcModel { need: need1, ..m };
    if !single_pass_safe(
        column(m1.allocation, id),
        column(m1.need, id),
        m.available[id] as int,
        m.threads.len() as int,
    ) {
        (m1, false)
    } else {
        let alloc2 = m.allocation.update(
            tid,
            m.allocation[tid].update(id, (m.allocation[tid][id] + 1) as usize),
        );
        let avail2 = if 0 <= tid < m.available.len() && m.available[tid] > 0 {
            m.available.update(tid, (m.available[tid] - 1) as usize)
        } else {
            m.available
        };
        (ProcModel { allocation: alloc2, available: avail2, ..m }, true)
    }
}

/// State and result of a lock call: `-1` for a dead handle; with detection
/// enabled, the admission gate may refuse with the deadlock code and the
/// primitive is never touched; otherwise one acquisition attempt runs.
pub open spec fn spec_sys_mutex_lock(m: ProcModel, tid: int, id: int) -> (ProcModel, int) {
    if !m.valid_mutex(id) {
        (m, INVALID_RC as int)
    } else if m.detect {
        let gate = spec_mutex_admission(m, tid, id);
        if !gate.1 {
            (gate.0, DEADLOCK_RC as int)
        } else {
            (spec_mutex_acquire(gate.0, tid, id), 0)
        }
    } else {
        (spec_mutex_acquire(m, tid, id), 0)
    }
}

/// Lock mutex `mutex_id` as thread `tid`.  Returns `0` once the attempt is
/// made (the caller may have been suspended on the wait queue, or keep
/// spinning on the spin variant), [`DEADLOCK_RC`] when detection is enabled
/// and the admission check refuses, [`INVALID_RC`] for a dead handle.
pub fn sys_mutex_lock(p: &mut ProcState, tid: usize, mutex_id: usize) -> (r: isize)
    requires
        old(p).wf(),
        tid < old(p)@.threads.len(),
        old(p)@.threads[tid as int] is Runnable,
        mutex_lock_arith_ok(old(p)@, tid as int, mutex_id as int),
    ensures
        final(p).wf(),
        final(p)@ == spec_sys_mutex_lock(old(p)@, tid as int, mutex_id as int).0,
        r == spec_sys_mutex_lock(old(p)@, tid as int, mutex_id as int).1,
        !old(p)@.detect ==> r != DEADLOCK_RC,
        r == INVALID_RC <==> !old(p)@.valid_mutex(mutex_id as int),
{
    let ghost m0 = p@;
    let ghost id = mutex_id as int;
    if mutex_id >= p.mutexes.len() {
        return INVALID_RC;
    }
    if p.mutexes[mutex_id].is_none() {
        return INVALID_RC;
    }
    if p.detect_enabled {
        let cur_need = p.need[tid][mutex_id];
        p.need[tid][mutex_id] = cur_need + 1;
        let ghost m1 = p@;
        proof {
            assert(m1 =~~= (ProcModel {
                need: m0.need.update(
                    tid as int,
                    m0.need[tid as int].update(id, (m0.need[tid as int][id] + 1) as usize),
                ),
                ..m0
            }));
        }
        proof {
            assert forall|t: int| 0 <= t < p.allocation@.len() implies mutex_id < (
            #[trigger] p.allocation@[t])@.len() by {
                assert(m1.allocation[t].len() == m1.available.len());
            }
            assert forall|t: int| 0 <= t < p.need@.len() implies mutex_id < (
            #[trigger] p.need@[t])@.len() by {
                assert(m1.need[t].len() == m1.available.len());
            }
        }
        let safe = safety_check(p.available[mutex_id], &p.allocation, &p.need, mutex_id);
        if !safe {
            proof {
                assert(p@ =~~= spec_mutex_admission(m0, tid as int, id).0);
            }
            return DEADLOCK_RC;
        }
        let cur_alloc = p.allocation[tid][mutex_id];
        p.allocation[tid][mutex_id] = cur_alloc + 1;
        if tid < p.available.len() {
            let av = p.available[tid];
            if av > 0 {
                p.available[tid] = av - 1;
            }
        }
        let cur_need2 = p.need[tid][mutex_id];
        p.need[tid][mutex_id] = cur_need2 - 1;
        proof {
            assert(p@ =~~= spec_mutex_admission(m0, tid as int, id).0);
        }
    }
    let ghost m2 = p@;
    mutex_lock_step(p, tid, mutex_id);
    proof {
        assert(final(p)@ == spec_mutex_acquire(m2, tid as int, id));
    }
    0
}

/// State and result of an unlock call: `-1` for a dead handle, else the
/// release step.  No detector accounting is touched: mutex-kind units are
/// never returned to `available` (see [`spec_mutex_admission`]).
pub open spec fn spec_sys_mutex_unlock(m: ProcModel, id: int) -> (ProcModel, int) {
    if !m.valid_mutex(id) {
        (m, INVALID_RC as int)
    } else {
        (spec_mutex_release(m, id), 0)
    }
}

/// Unlock mutex `mutex_id`.  With waiters on the blocking variant, the first
/// of them is woken and receives ownership; otherwise the mutex becomes
/// free.  Unlocking a mutex the caller does not hold is not checked: it is a
/// documented misuse hazard of this layer.
pub fn sys_mutex_unlock(p: &mut ProcState, mutex_id: usize) -> (r: isize)
    requires
        old(p).wf(),
    ensures
        final(p).wf(),
        final(p)@ == spec_sys_mutex_unlock(old(p)@, mutex_id as int).0,
        r == spec_sys_mutex_unlock(old(p)@, mutex_id as int).1,
        r != DEADLOCK_RC,
        r == INVALID_RC <==> !old(p)@.valid_mutex(mutex_id as int),
{
    if mutex_id >= p.mutexes.len() {
        return INVALID_RC;
    }
    if p.mutexes[mutex_id].is_none() {
        return INVALID_RC;
    }
    mutex_release_step(p, mutex_id);
    0
}

/// The machine bounds under which a `down` call's arithmetic cannot
/// overflow.
pub open spec fn sem_down_arith_ok(m: ProcModel, tid: int, id: int) -> bool {
    m.valid_sem(id) ==> {
        &&& m.sem_at(id).count > isize::MIN
        &&& (m.detect ==> {
            &&& m.need_sm[tid][id] < usize::MAX
            &&& m.allocation_sm[tid][id] < usize::MAX
            &&& m.available_sm[id] + seq_sum(column(m.allocation_sm, id)) <= usize::MAX
        })
    }
}

/// The machine bounds under which an `up` call's arithmetic cannot overflow.
pub open spec fn sem_up_arith_ok(m: ProcModel, tid: int, id: int) -> bool {
    m.valid_sem(id) ==> {
        &&& m.sem_at(id).count < isize::MAX
        &&& (m.detect ==> m.available_sm[id] < usize::MAX)
    }
}

/// The detector's release step on `up`: one unit moves from the thread's
/// allocation back to `available` — but only when the thread is recorded as
/// holding one.  This is the semaphore-kind counterpart the mutex kind
/// lacks.
pub open spec fn spec_sem_release_accounting(m: ProcModel, tid: int, id: int) -> ProcModel {
    if m.detect && m.allocation_sm[tid][id] > 0 {
        ProcModel {
            allocation_sm: m.allocation_sm.update(
                tid,
                m.allocation_sm[tid].update(id, (m.allocation_sm[tid][id] - 1) as usize),
            ),
            available_sm: m.available_sm.update(id, (m.available_sm[id] + 1) as usize),
            ..m
        }
    } else {
        m
    }
}

/// State after the primitive `up` step on semaphore `id`: the count grows by
/// one, and when threads are waiting the first of them receives the unit and
/// is woken.
pub open spec fn spec_sem_up_prim(m: ProcModel, id: int) -> ProcModel {
    let s = m.sem_at(id);
    let c2 = s.count + 1;
    if c2 <= 0 && s.queue.len() > 0 {
        m.with_sem(id, SemModel { count: c2, queue: s.queue.drop_first() }).wake(
            s.queue[0] as int,
        )
    } else {
        m.with_sem(id, SemModel { count: c2, ..s })
    }
}

/// State and result of an `up` call: `-1` for a dead handle, else the
/// accounting release followed by the primitive step.
pub open spec fn spec_sys_semaphore_up(m: ProcModel, tid: int, id: int) -> (ProcModel, int) {
    if !m.valid_sem(id) {
        (m, INVALID_RC as int)
    } else {
        (spec_sem_up_prim(spec_sem_release_accounting(m, tid, id), id), 0)
    }
}

/// Release one unit of semaphore `sem_id` as thread `tid`, waking the first
/// waiter if any (FIFO by block order).
pub fn sys_semaphore_up(p: &mut ProcState, tid: usize, sem_id: usize) -> (r: isize)
    requires
        old(p).wf(),
        tid < old(p)@.threads.len(),
        sem_up_arith_ok(old(p)@, tid as int, sem_id as int),
    ensures
        final(p).wf(),
        final(p)@ == spec_sys_semaphore_up(old(p)@, tid as int, sem_id as int).0,
        r == spec_sys_semaphore_up(old(p)@, tid as int, sem_id as int).1,
        r != DEADLOCK_RC,
        r == INVALID_RC <==> !old(p)@.valid_sem(sem_id as int),
{
    let ghost m0 = p@;
    let ghost id = sem_id as int;
    if sem_id >= p.semaphores.len() {
        return INVALID_RC;
    }
    if p.semaphores[sem_id].is_none() {
        return INVALID_RC;
    }
    if p.detect_enabled {
        let held = p.allocation_sm[tid][sem_id];
        if held > 0 {
            p.allocation_sm[tid][sem_id] = held - 1;
            let av = p.available_sm[sem_id];
            p.available_sm[sem_id] = av + 1;
        }
    }
    proof {
        assert(p@ =~~= spec_sem_release_accounting(m0, tid as int, id));
    }
    let ghost m1 = p@;
    let woken = match &mut p.semaphores[sem_id] {
        Some(sem) => sem.up(),
        None => {
            proof {
                assert(false);
            }
            None
        },
    };
    if let Some(w) = woken {
        proof {
            assert(m1.queue_wf(m1.sem_at(id).queue));
        }
        p.threads.set(w, ThreadState::Runnable);
    }
    proof {
        let s = m1.sem_at(id);
        if s.count + 1 <= 0 && s.queue.len() > 0 {
            assert(p@ =~~= m1.with_sem(
                id,
                SemModel { count: s.count + 1, queue: s.queue.drop_first() },
            ).wake(s.queue[0] as int));
        } else {
            assert(p@ =~~= m1.with_sem(id, SemModel { count: s.count + 1, ..s }));
        }
    }
    0
}

/// The detector's admission step for thread `tid` requesting one unit of
/// semaphore `id`.  The request is first recorded in `need`; the single-pass
/// check runs; a handle above [`SEM_DETECT_LIMIT`] is refused outright.  On
/// refusal the recorded need is NOT rolled back.  On admission the grant is
/// committed only when a unit is actually available; otherwise the request
/// stays recorded and the thread proceeds to the primitive, where it blocks.
pub open spec fn spec_sem_admission(m: ProcModel, tid: int, id: int) -> (ProcModel, bool) {
    let need1 = m.need_sm.update(
        tid,
        m.need_sm[tid].update(id, (m.need_sm[tid][id] + 1) as usize),
    );
    let m1 = ProcModel { need_sm: need1, ..m };
    if !single_pass_safe(
        column(m1.allocation_sm, id),
        column(m1.need_sm, id),
        m.available_sm[id] as int,
        m.threads.len() as int,
    ) || id > SEM_DETECT_LIMIT {
        (m1, false)
    } else if m.available_sm[id] > 0 {
        (
            ProcModel {
                allocation_sm: m.allocation_sm.update(
                    tid,
                    m.allocation_sm[tid].update(id, (m.allocation_sm[tid][id] + 1) as usize),
                ),
                available_sm: m.available_sm.update(id, (m.available_sm[id] - 1) as usize),
                ..m
            },
            true,
        )
    } else {
        (m1, true)
    }
}

/// State after the primitive `down` step on semaphore `id` by thread `tid`:
/// the count drops by one, and when no unit was left the caller joins the
/// wait queue and suspends.
pub open spec fn spec_sem_down_prim(m: ProcModel, tid: int, id: int) -> ProcModel {
    let s = m.sem_at(id);
    let c2 = s.count - 1;
    if s.count <= 0 {
        m.with_sem(id, SemModel { count: c2, queue: s.queue.push(tid as usize) }).block(tid)
    } else {
        m.with_sem(id, SemModel { count: c2, ..s })
    }
}

/// State and result of a `down` call: `-1` for a dead handle; with detection
/// enabled the admission gate may refuse with the deadlock code and the
/// primitive is never touched; otherwise the primitive step runs.
pub open spec fn spec_sys_semaphore_down(m: ProcModel, tid: int, id: int) -> (ProcModel, int) {
    if !m.valid_sem(id) {
        (m, INVALID_RC as int)
    } else if m.detect {
        let gate = spec_sem_admission(m, tid, id);
        if !gate.1 {
            (gate.0, DEADLOCK_RC as int)
        } else {
            (spec_sem_down_prim(gate.0, tid, id), 0)
        }
    } else {
        (spec_sem_down_prim(m, tid, id), 0)
    }
}

/// Take one unit of semaphore `sem_id` as thread `tid`, suspending when no
/// unit is left.  Returns `0` once the attempt is made, [`DEADLOCK_RC`] when
/// detection is enabled and the admission check refuses, [`INVALID_RC`] for
/// a dead handle.
pub fn sys_semaphore_down(p: &mut ProcState, tid: usize, sem_id: usize) -> (r: isize)
    requires
        old(p).wf(),
        tid < old(p)@.threads.len(),
        old(p)@.threads[tid as int] is Runnable,
        sem_down_arith_ok(old(p)@, tid as int, sem_id as int),
    ensures
        final(p).wf(),
        final(p)@ == spec_sys_semaphore_down(old(p)@, tid as int, sem_id as int).0,
        r == spec_sys_semaphore_down(old(p)@, tid as int, sem_id as int).1,
        !old(p)@.detect ==> r != DEADLOCK_RC,
        r == INVALID_RC <==> !old(p)@.valid_sem(sem_id as int),
{
    let ghost m0 = p@;
    let ghost id = sem_id as int;
    if sem_id >= p.semaphores.len() {
        return INVALID_RC;
    }
    if p.semaphores[sem_id].is_none() {
        return INVALID_RC;
    }
    if p.detect_enabled {
        let cur_need = p.need_sm[tid][sem_id];
        p.need_sm[tid][sem_id] = cur_need + 1;
        let ghost m1 = p@;
        proof {
            assert(m1 =~~= (ProcModel {
                need_sm: m0.need_sm.update(
                    tid as int,
                    m0.need_sm[tid as int].update(id, (m0.need_sm[tid as int][id] + 1) as usize),
                ),
                ..m0
            }));
            assert forall|t: int| 0 <= t < p.allocation_sm@.len() implies sem_id < (
            #[trigger] p.allocation_sm@[t])@.len() by {
                assert(m1.allocation_sm[t].len() == m1.available_sm.len());
            }
            assert forall|t: int| 0 <= t < p.need_sm@.len() implies sem_id < (
            #[trigger] p.need_sm@[t])@.len() by {
                assert(m1.need_sm[t].len() == m1.available_sm.len());
            }
        }
        let safe = safety_check(p.available_sm[sem_id], &p.allocation_sm, &p.need_sm, sem_id);
        if !safe || sem_id > SEM_DETECT_LIMIT {
            proof {
                assert(p@ =~~= spec_sem_admission(m0, tid as int, id).0);
            }
            return DEADLOCK_RC;
        }
        let av = p.available_sm[sem_id];
        if av > 0 {
            let cur_alloc = p.allocation_sm[tid][sem_id];
            p.allocation_sm[tid][sem_id] = cur_alloc + 1;
            p.available_sm[sem_id] = av - 1;
            let cur_need2 = p.need_sm[tid][sem_id];
            p.need_sm[tid][sem_id] = cur_need2 - 1;
        }
        proof {
            assert(p@ =~~= spec_sem_admission(m0, tid as int, id).0);
        }
    }
    let ghost m2 = p@;
    let blocked = match &mut p.semaphores[sem_id] {
        Some(sem) => sem.down(tid),
        None => {
            proof {
                assert(false);
            }
            false
        },
    };
    if blocked {
        p.threads.set(tid, ThreadState::Blocked);
    }
    proof {
        let s = m2.sem_at(id);
        if s.count <= 0 {
            assert(p@ =~~= m2.with_sem(
                id,
                SemModel { count: s.count - 1, queue: s.queue.push(tid) },
            ).block(tid as int));
        } else {
            assert(p@ =~~= m2.with_sem(id, SemModel { count: s.count - 1, ..s }));
        }
    }
    0
}

/// State and result of a `signal` call: `-1` for a dead handle; else the
/// least-recently-blocked waiter, if any, is woken, and with no waiter the
/// call is a no-op.
pub open spec fn spec_sys_condvar_signal(m: ProcModel, id: int) -> (ProcModel, int) {
    if !m.valid_cv(id) {
        (m, INVALID_RC as int)
    } else {
        let c = m.cv_at(id);
        if c.queue.len() > 0 {
            (m.with_cv(id, CvModel { queue: c.queue.drop_first() }).wake(c.queue[0] as int), 0)
        } else {
            (m, 0)
        }
    }
}

/// Signal condition variable `condvar_id`: wake at most one waiter.
pub fn sys_condvar_signal(p: &mut ProcState, condvar_id: usize) -> (r: isize)
    requires
        old(p).wf(),
    ensures
        final(p).wf(),
        final(p)@ == spec_sys_condvar_signal(old(p)@, condvar_id as int).0,
        r == spec_sys_condvar_signal(old(p)@, condvar_id as int).1,
        r == INVALID_RC <==> !old(p)@.valid_cv(condvar_id as int),
{
    let ghost m0 = p@;
    let ghost id = condvar_id as int;
    if condvar_id >= p.condvars.len() {
        return INVALID_RC;
    }
    if p.condvars[condvar_id].is_none() {
        return INVALID_RC;
    }
    let woken = match &mut p.condvars[condvar_id] {
        Some(cv) => cv.signal_step(),
        None => {
            proof {
                assert(false);
            }
            None
        },
    };
    if let Some(w) = woken {
        proof {
            assert(m0.queue_wf(m0.cv_at(id).queue));
        }
        p.threads.set(w, ThreadState::Runnable);
    }
    proof {
        let c = m0.cv_at(id);
        if c.queue.len() > 0 {
            assert(p@ =~~= m0.with_cv(id, CvModel { queue: c.queue.drop_first() }).wake(
                c.queue[0] as int,
            ));
        } else {
            assert(p@ =~~= m0.with_cv(id, c));
            assert(m0.with_cv(id, c) =~~= m0);
        }
    }
    0
}

/// State and result of a `wait` call: `-1` when either handle is dead; else
/// the associated mutex is released (possibly waking a waiter of the mutex),
/// the caller joins the condition variable's wait queue, and suspends — one
/// atomic step with respect to signals, so no wakeup can fall between the
/// release and the enqueue.
pub open spec fn spec_sys_condvar_wait(m: ProcModel, tid: int, cv_id: int, mutex_id: int) -> (
    ProcModel,
    int,
) {
    if !m.valid_cv(cv_id) || !m.valid_mutex(mutex_id) {
        (m, INVALID_RC as int)
    } else {
        let m1 = spec_mutex_release(m, mutex_id);
        let c = m.cv_at(cv_id);
        (m1.with_cv(cv_id, CvModel { queue: c.queue.push(tid as usize) }).block(tid), 0)
    }
}

/// Wait on condition variable `condvar_id` as thread `tid`, releasing mutex
/// `mutex_id`, which the caller must hold (not checked: a documented misuse
/// hazard).  The caller suspends until signalled; once woken it re-acquires
/// the mutex through [`mutex_lock_step`] — driven by the scheduler — and
/// only then does its wait return.
pub fn sys_condvar_wait(p: &mut ProcState, tid: usize, condvar_id: usize, mutex_id: usize) -> (r:
    isize)
    requires
        old(p).wf(),
        tid < old(p)@.threads.len(),
        old(p)@.threads[tid as int] is Runnable,
    ensures
        final(p).wf(),
        final(p)@ == spec_sys_condvar_wait(
            old(p)@,
            tid as int,
            condvar_id as int,
            mutex_id as int,
        ).0,
        r == spec_sys_condvar_wait(old(p)@, tid as int, condvar_id as int, mutex_id as int).1,
        r == INVALID_RC <==> !(old(p)@.valid_cv(condvar_id as int) && old(p)@.valid_mutex(
            mutex_id as int,
        )),
{
    let ghost m0 = p@;
    if condvar_id >= p.condvars.len() {
        return INVALID_RC;
    }
    if p.condvars[condvar_id].is_none() {
        return INVALID_RC;
    }
    if mutex_id >= p.mutexes.len() {
        return INVALID_RC;
    }
    if p.mutexes[mutex_id].is_none() {
        return INVALID_RC;
    }
    mutex_release_step(p, mutex_id);
    let ghost m1 = p@;
    match &mut p.condvars[condvar_id] {
        Some(cv) => cv.enqueue(tid),
        None => {
            proof {
                assert(false);
            }
        },
    };
    p.threads.set(tid, ThreadState::Blocked);
    proof {
        let c = m0.cv_at(condvar_id as int);
        assert(m1.cv_at(condvar_id as int) == c);
        assert(p@ =~~= m1.with_cv(
            condvar_id as int,
            CvModel { queue: c.queue.push(tid) },
        ).block(tid as int));
    }
    0
}

/// Suspend thread `tid` for at least `ms` milliseconds, `now_ms` being the
/// current time.  The thread blocks; the returned pair carries the result
/// code `0` the thread receives when it resumes and the absolute deadline
/// the caller registers with the external one-shot timer, whose callback is
/// what wakes the thread — at or after the deadline, never earlier.
pub fn sys_sleep(p: &mut ProcState, tid: usize, now_ms: usize, ms: usize) -> (r: (isize, usize))
    requires
        old(p).wf(),
        tid < old(p)@.threads.len(),
        old(p)@.threads[tid as int] is Runnable,
        now_ms + ms <= usize::MAX,
    ensures
        final(p).wf(),
        final(p)@ == old(p)@.block(tid as int),
        r.0 == 0,
        r.1 == now_ms + ms,
{
    let expire_ms = now_ms + ms;
    p.threads.set(tid, ThreadState::Blocked);
    proof {
        assert(p@ =~~= old(p)@.block(tid as int));
    }
    (0, expire_ms)
}

} // verus!
