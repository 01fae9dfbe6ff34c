//! The wait-queue discipline: a wait queue of a live primitive only ever
//! holds threads of the process that do not hold the CPU, and a thread
//! waits on at most one primitive, at one queue position, at a time.
//!
//! The discipline is stated over [`ProcModel`] and shown to be preserved by
//! every facade transition, starting from a fresh process.  Since each
//! facade function's contract pins its final state to the corresponding
//! transition, the discipline holds of every state a well-formed call
//! sequence can reach.

use crate::facade::{
    spec_mutex_acquire, spec_mutex_admission, spec_mutex_release, spec_sem_admission,
    spec_sem_release_accounting, spec_sys_condvar_create,
    spec_sys_condvar_signal, spec_sys_condvar_wait, spec_sys_enable_deadlock_detect,
    spec_sys_mutex_create, spec_sys_mutex_lock, spec_sys_mutex_unlock, spec_sys_semaphore_create,
    spec_sys_semaphore_down, spec_sys_semaphore_up,
};
use crate::model::{CvModel, MutexModel, ProcModel, SemModel};
use crate::process::spec_new_proc;
use vstd::prelude::*;

verus! {

/// One position in one wait queue of one live primitive.
pub ghost enum WaitSpot {
    Mux { slot: int, pos: int },
    Sem { slot: int, pos: int },
    Cv { slot: int, pos: int },
}

/// Whether thread `t` occupies the wait spot `s` in state `m`.
pub open spec fn spot_holds(m: ProcModel, s: WaitSpot, t: usize) -> bool {
    match s {
        WaitSpot::Mux { slot, pos } => {
            &&& 0 <= slot < m.mutexes.len()
            &&& m.mutexes[slot] is Some
            &&& 0 <= pos < m.mutexes[slot]->0.queue.len()
            &&& m.mutexes[slot]->0.queue[pos] == t
        },
        WaitSpot::Sem { slot, pos } => {
            &&& 0 <= slot < m.semaphores.len()
            &&& m.semaphores[slot] is Some
            &&& 0 <= pos < m.semaphores[slot]->0.queue.len()
            &&& m.semaphores[slot]->0.queue[pos] == t
        },
        WaitSpot::Cv { slot, pos } => {
            &&& 0 <= slot < m.condvars.len()
            &&& m.condvars[slot] is Some
            &&& 0 <= pos < m.condvars[slot]->0.queue.len()
            &&& m.condvars[slot]->0.queue[pos] == t
        },
    }
}

/// The discipline itself: every queued thread is a thread of the process
/// that is suspended, and no thread occupies two wait spots.
pub open spec fn queues_disciplined(m: ProcModel) -> bool {
    &&& forall|s: WaitSpot, t: usize|
        spot_holds(m, s, t) ==> t < m.threads.len() && m.threads[t as int] is Blocked
    &&& forall|s1: WaitSpot, s2: WaitSpot, t: usize|
        #[trigger] spot_holds(m, s1, t) && #[trigger] spot_holds(m, s2, t) ==> s1 == s2
}

/// A fresh process has no primitives, hence no wait spots.
pub proof fn lemma_discipline_initial(n: nat)
    ensures
        queues_disciplined(spec_new_proc(n)),
{
}

/// Toggling detection touches no queue and no thread.
pub proof fn lemma_discipline_enable_detect(m: ProcModel, enabled: usize)
    requires
        queues_disciplined(m),
    ensures
        queues_disciplined(spec_sys_enable_deadlock_detect(m, enabled).0),
{
    let m2 = spec_sys_enable_deadlock_detect(m, enabled).0;
    assert forall|s: WaitSpot, t: usize| spot_holds(m2, s, t) implies spot_holds(m, s, t) by {}
}

/// Suspending a runnable thread that waits nowhere keeps the discipline:
/// this is the `sleep` transition.
pub proof fn lemma_discipline_block(m: ProcModel, tid: usize)
    requires
        queues_disciplined(m),
        (tid as int) < m.threads.len(),
        m.threads[tid as int] is Runnable,
    ensures
        queues_disciplined(m.block(tid as int)),
{
    let m2 = m.block(tid as int);
    assert forall|s: WaitSpot, t: usize| spot_holds(m2, s, t) implies spot_holds(m, s, t) by {}
    assert forall|s: WaitSpot, t: usize|
        spot_holds(m2, s, t) implies t < m2.threads.len() && m2.threads[t as int]
        is Blocked by {
        assert(spot_holds(m, s, t));
    }
}

/// Queuing a runnable thread on a live mutex and suspending it keeps the
/// discipline: the thread waited nowhere before, and it now occupies
/// exactly the new tail position.
proof fn lemma_discipline_mutex_push(m: ProcModel, tid: usize, id: int)
    requires
        queues_disciplined(m),
        (tid as int) < m.threads.len(),
        m.threads[tid as int] is Runnable,
        m.valid_mutex(id),
    ensures
        queues_disciplined(
            m.with_mutex(
                id,
                MutexModel { queue: m.mutex_at(id).queue.push(tid), ..m.mutex_at(id) },
            ).block(tid as int),
        ),
{
    let mx = m.mutex_at(id);
    let q = mx.queue;
    let fresh_spot = WaitSpot::Mux { slot: id, pos: q.len() as int };
    let m2 = m.with_mutex(id, MutexModel { queue: q.push(tid), ..mx }).block(tid as int);
    assert forall|s: WaitSpot| !#[trigger] spot_holds(m, s, tid) by {
        if spot_holds(m, s, tid) {
            assert(m.threads[tid as int] is Blocked);
        }
    }
    assert forall|s: WaitSpot, t: usize| #[trigger] spot_holds(m2, s, t) implies (spot_holds(
        m,
        s,
        t,
    ) || (t == tid && s == fresh_spot)) by {
        match s {
            WaitSpot::Mux { slot, pos } => {
                if slot == id && pos == q.len() {
                    assert(t == tid);
                } else {
                    assert(spot_holds(m, s, t));
                }
            },
            WaitSpot::Sem { slot, pos } => {
                assert(spot_holds(m, s, t));
            },
            WaitSpot::Cv { slot, pos } => {
                assert(spot_holds(m, s, t));
            },
        }
    }
    assert forall|s: WaitSpot, t: usize|
        spot_holds(m2, s, t) implies t < m2.threads.len() && m2.threads[t as int]
        is Blocked by {
        if spot_holds(m, s, t) {
            assert(t < m.threads.len() && m.threads[t as int] is Blocked);
        }
    }
    assert forall|s1: WaitSpot, s2: WaitSpot, t: usize|
        #[trigger] spot_holds(m2, s1, t) && #[trigger] spot_holds(m2, s2, t) implies s1
        == s2 by {
        if t == tid {
            assert(!spot_holds(m, s1, t) && !spot_holds(m, s2, t));
            assert(s1 == fresh_spot && s2 == fresh_spot);
        } else {
            assert(spot_holds(m, s1, t) && spot_holds(m, s2, t));
        }
    }
}

/// Releasing a mutex keeps the discipline: with waiters, the first queued
/// thread leaves its only wait spot and wakes; the remaining positions
/// shift down; nothing else changes.
proof fn lemma_discipline_mutex_pop(m: ProcModel, id: int)
    requires
        queues_disciplined(m),
        m.valid_mutex(id),
    ensures
        queues_disciplined(spec_mutex_release(m, id)),
{
    let mx = m.mutex_at(id);
    let q = mx.queue;
    let m2 = spec_mutex_release(m, id);
    if mx.blocking && q.len() > 0 {
        let w = q[0];
        assert(spot_holds(m, WaitSpot::Mux { slot: id, pos: 0 }, w));
        // Each spot of the new state maps to a spot of the old one, and the
        // mapped spot is never the head position that was popped.
        assert forall|s: WaitSpot, t: usize| #[trigger] spot_holds(m2, s, t) implies (spot_holds(
            m,
            shift_spot(s, id),
            t,
        ) && shift_spot(s, id) != (WaitSpot::Mux { slot: id, pos: 0 })) by {
            match s {
                WaitSpot::Mux { slot, pos } => {
                    if slot == id {
                        assert(m2.mutexes[slot]->0.queue[pos] == q[pos + 1]);
                        assert(spot_holds(m, WaitSpot::Mux { slot, pos: pos + 1 }, t));
                    } else {
                        assert(spot_holds(m, s, t));
                    }
                },
                WaitSpot::Sem { slot, pos } => {
                    assert(spot_holds(m, s, t));
                },
                WaitSpot::Cv { slot, pos } => {
                    assert(spot_holds(m, s, t));
                },
            }
        }
        assert forall|s: WaitSpot, t: usize|
            spot_holds(m2, s, t) implies t < m2.threads.len() && m2.threads[t as int]
            is Blocked by {
            assert(spot_holds(m, shift_spot(s, id), t));
            if t == w {
                assert(shift_spot(s, id) == (WaitSpot::Mux { slot: id, pos: 0 }));
            }
        }
        assert forall|s1: WaitSpot, s2: WaitSpot, t: usize|
            #[trigger] spot_holds(m2, s1, t) && #[trigger] spot_holds(m2, s2, t) implies s1
            == s2 by {
            assert(spot_holds(m, shift_spot(s1, id), t));
            assert(spot_holds(m, shift_spot(s2, id), t));
            assert(shift_spot(s1, id) == shift_spot(s2, id));
        }
    } else {
        assert forall|s: WaitSpot, t: usize| #[trigger] spot_holds(m2, s, t) implies spot_holds(
            m,
            s,
            t,
        ) by {}
    }
}

/// The old-state wait spot that a new-state spot came from after the head
/// of mutex `id`'s queue was popped: positions in that queue shift up by
/// one, every other spot is unchanged.
pub open spec fn shift_spot(s: WaitSpot, id: int) -> WaitSpot {
    match s {
        WaitSpot::Mux { slot, pos } => if slot == id {
            WaitSpot::Mux { slot, pos: pos + 1 }
        } else {
            s
        },
        _ => s,
    }
}

/// Two states with the same threads and the same occupied wait spots are
/// equally disciplined.
proof fn lemma_discipline_spot_equiv(a: ProcModel, b: ProcModel)
    requires
        queues_disciplined(a),
        b.threads == a.threads,
        forall|s: WaitSpot, t: usize| #[trigger] spot_holds(b, s, t) <==> spot_holds(a, s, t),
    ensures
        queues_disciplined(b),
{
    assert forall|s: WaitSpot, t: usize|
        spot_holds(b, s, t) implies t < b.threads.len() && b.threads[t as int] is Blocked by {
        assert(spot_holds(a, s, t));
    }
    assert forall|s1: WaitSpot, s2: WaitSpot, t: usize|
        #[trigger] spot_holds(b, s1, t) && #[trigger] spot_holds(b, s2, t) implies s1 == s2 by {
        assert(spot_holds(a, s1, t) && spot_holds(a, s2, t));
    }
}

/// Queuing a runnable thread on a live semaphore and suspending it keeps
/// the discipline; the count change is invisible to the wait spots.
proof fn lemma_discipline_sem_push(m: ProcModel, tid: usize, id: int, c2: int)
    requires
        queues_disciplined(m),
        (tid as int) < m.threads.len(),
        m.threads[tid as int] is Runnable,
        m.valid_sem(id),
    ensures
        queues_disciplined(
            m.with_sem(
                id,
                SemModel { count: c2, queue: m.sem_at(id).queue.push(tid) },
            ).block(tid as int),
        ),
{
    let q = m.sem_at(id).queue;
    let fresh_spot = WaitSpot::Sem { slot: id, pos: q.len() as int };
    let m2 = m.with_sem(id, SemModel { count: c2, queue: q.push(tid) }).block(tid as int);
    assert forall|s: WaitSpot| !#[trigger] spot_holds(m, s, tid) by {
        if spot_holds(m, s, tid) {
            assert(m.threads[tid as int] is Blocked);
        }
    }
    assert forall|s: WaitSpot, t: usize| #[trigger] spot_holds(m2, s, t) implies (spot_holds(
        m,
        s,
        t,
    ) || (t == tid && s == fresh_spot)) by {
        match s {
            WaitSpot::Sem { slot, pos } => {
                if slot == id && pos == q.len() {
                    assert(t == tid);
                } else {
                    assert(spot_holds(m, s, t));
                }
            },
            _ => {
                assert(spot_holds(m, s, t));
            },
        }
    }
    assert forall|s: WaitSpot, t: usize|
        spot_holds(m2, s, t) implies t < m2.threads.len() && m2.threads[t as int]
        is Blocked by {
        if spot_holds(m, s, t) {
            assert(t < m.threads.len() && m.threads[t as int] is Blocked);
        }
    }
    assert forall|s1: WaitSpot, s2: WaitSpot, t: usize|
        #[trigger] spot_holds(m2, s1, t) && #[trigger] spot_holds(m2, s2, t) implies s1
        == s2 by {
        if t == tid {
            assert(!spot_holds(m, s1, t) && !spot_holds(m, s2, t));
            assert(s1 == fresh_spot && s2 == fresh_spot);
        } else {
            assert(spot_holds(m, s1, t) && spot_holds(m, s2, t));
        }
    }
}

/// The old-state wait spot a new-state spot came from after the head of
/// semaphore `id`'s queue was popped.
pub open spec fn shift_spot_sem(s: WaitSpot, id: int) -> WaitSpot {
    match s {
        WaitSpot::Sem { slot, pos } => if slot == id {
            WaitSpot::Sem { slot, pos: pos + 1 }
        } else {
            s
        },
        _ => s,
    }
}

/// The old-state wait spot a new-state spot came from after the head of
/// condition variable `id`'s queue was popped.
pub open spec fn shift_spot_cv(s: WaitSpot, id: int) -> WaitSpot {
    match s {
        WaitSpot::Cv { slot, pos } => if slot == id {
            WaitSpot::Cv { slot, pos: pos + 1 }
        } else {
            s
        },
        _ => s,
    }
}

/// Popping the head waiter of a live semaphore's queue and waking it keeps
/// the discipline.
proof fn lemma_discipline_sem_pop(m: ProcModel, id: int, c2: int)
    requires
        queues_disciplined(m),
        m.valid_sem(id),
        m.sem_at(id).queue.len() > 0,
    ensures
        queues_disciplined(
            m.with_sem(id, SemModel { count: c2, queue: m.sem_at(id).queue.drop_first() }).wake(
                m.sem_at(id).queue[0] as int,
            ),
        ),
{
    let q = m.sem_at(id).queue;
    let w = q[0];
    let m2 = m.with_sem(id, SemModel { count: c2, queue: q.drop_first() }).wake(w as int);
    assert(spot_holds(m, WaitSpot::Sem { slot: id, pos: 0 }, w));
    assert forall|s: WaitSpot, t: usize| #[trigger] spot_holds(m2, s, t) implies (spot_holds(
        m,
        shift_spot_sem(s, id),
        t,
    ) && shift_spot_sem(s, id) != (WaitSpot::Sem { slot: id, pos: 0 })) by {
        match s {
            WaitSpot::Sem { slot, pos } => {
                if slot == id {
                    assert(m2.semaphores[slot]->0.queue[pos] == q[pos + 1]);
                    assert(spot_holds(m, WaitSpot::Sem { slot, pos: pos + 1 }, t));
                } else {
                    assert(spot_holds(m, s, t));
                }
            },
            _ => {
                assert(spot_holds(m, s, t));
            },
        }
    }
    assert forall|s: WaitSpot, t: usize|
        spot_holds(m2, s, t) implies t < m2.threads.len() && m2.threads[t as int]
        is Blocked by {
        assert(spot_holds(m, shift_spot_sem(s, id), t));
        if t == w {
            assert(shift_spot_sem(s, id) == (WaitSpot::Sem { slot: id, pos: 0 }));
        }
    }
    assert forall|s1: WaitSpot, s2: WaitSpot, t: usize|
        #[trigger] spot_holds(m2, s1, t) && #[trigger] spot_holds(m2, s2, t) implies s1
        == s2 by {
        assert(spot_holds(m, shift_spot_sem(s1, id), t));
        assert(spot_holds(m, shift_spot_sem(s2, id), t));
        assert(shift_spot_sem(s1, id) == shift_spot_sem(s2, id));
    }
}

/// Queuing a runnable thread on a live condition variable and suspending it
/// keeps the discipline.
proof fn lemma_discipline_cv_push(m: ProcModel, tid: usize, id: int)
    requires
        queues_disciplined(m),
        (tid as int) < m.threads.len(),
        m.threads[tid as int] is Runnable,
        m.valid_cv(id),
    ensures
        queues_disciplined(
            m.with_cv(id, CvModel { queue: m.cv_at(id).queue.push(tid) }).block(tid as int),
        ),
{
    let q = m.cv_at(id).queue;
    let fresh_spot = WaitSpot::Cv { slot: id, pos: q.len() as int };
    let m2 = m.with_cv(id, CvModel { queue: q.push(tid) }).block(tid as int);
    assert forall|s: WaitSpot| !#[trigger] spot_holds(m, s, tid) by {
        if spot_holds(m, s, tid) {
            assert(m.threads[tid as int] is Blocked);
        }
    }
    assert forall|s: WaitSpot, t: usize| #[trigger] spot_holds(m2, s, t) implies (spot_holds(
        m,
        s,
        t,
    ) || (t == tid && s == fresh_spot)) by {
        match s {
            WaitSpot::Cv { slot, pos } => {
                if slot == id && pos == q.len() {
                    assert(t == tid);
                } else {
                    assert(spot_holds(m, s, t));
                }
            },
            _ => {
                assert(spot_holds(m, s, t));
            },
        }
    }
    assert forall|s: WaitSpot, t: usize|
        spot_holds(m2, s, t) implies t < m2.threads.len() && m2.threads[t as int]
        is Blocked by {
        if spot_holds(m, s, t) {
            assert(t < m.threads.len() && m.threads[t as int] is Blocked);
        }
    }
    assert forall|s1: WaitSpot, s2: WaitSpot, t: usize|
        #[trigger] spot_holds(m2, s1, t) && #[trigger] spot_holds(m2, s2, t) implies s1
        == s2 by {
        if t == tid {
            assert(!spot_holds(m, s1, t) && !spot_holds(m, s2, t));
            assert(s1 == fresh_spot && s2 == fresh_spot);
        } else {
            assert(spot_holds(m, s1, t) && spot_holds(m, s2, t));
        }
    }
}

/// Popping the head waiter of a live condition variable's queue and waking
/// it keeps the discipline.
proof fn lemma_discipline_cv_pop(m: ProcModel, id: int)
    requires
        queues_disciplined(m),
        m.valid_cv(id),
        m.cv_at(id).queue.len() > 0,
    ensures
        queues_disciplined(
            m.with_cv(id, CvModel { queue: m.cv_at(id).queue.drop_first() }).wake(
                m.cv_at(id).queue[0] as int,
            ),
        ),
{
    let q = m.cv_at(id).queue;
    let w = q[0];
    let m2 = m.with_cv(id, CvModel { queue: q.drop_first() }).wake(w as int);
    assert(spot_holds(m, WaitSpot::Cv { slot: id, pos: 0 }, w));
    assert forall|s: WaitSpot, t: usize| #[trigger] spot_holds(m2, s, t) implies (spot_holds(
        m,
        shift_spot_cv(s, id),
        t,
    ) && shift_spot_cv(s, id) != (WaitSpot::Cv { slot: id, pos: 0 })) by {
        match s {
            WaitSpot::Cv { slot, pos } => {
                if slot == id {
                    assert(m2.condvars[slot]->0.queue[pos] == q[pos + 1]);
                    assert(spot_holds(m, WaitSpot::Cv { slot, pos: pos + 1 }, t));
                } else {
                    assert(spot_holds(m, s, t));
                }
            },
            _ => {
                assert(spot_holds(m, s, t));
            },
        }
    }
    assert forall|s: WaitSpot, t: usize|
        spot_holds(m2, s, t) implies t < m2.threads.len() && m2.threads[t as int]
        is Blocked by {
        assert(spot_holds(m, shift_spot_cv(s, id), t));
        if t == w {
            assert(shift_spot_cv(s, id) == (WaitSpot::Cv { slot: id, pos: 0 }));
        }
    }
    assert forall|s1: WaitSpot, s2: WaitSpot, t: usize|
        #[trigger] spot_holds(m2, s1, t) && #[trigger] spot_holds(m2, s2, t) implies s1
        == s2 by {
        assert(spot_holds(m, shift_spot_cv(s1, id), t));
        assert(spot_holds(m, shift_spot_cv(s2, id), t));
        assert(shift_spot_cv(s1, id) == shift_spot_cv(s2, id));
    }
}

/// Creating a mutex keeps the discipline: the new object's queue is empty,
/// and the slot it takes held no live object.
pub proof fn lemma_discipline_mutex_create(m: ProcModel, blocking: bool)
    requires
        queues_disciplined(m),
    ensures
        queues_disciplined(spec_sys_mutex_create(m, blocking).0),
{
    crate::model::lemma_first_free_bounds(m.mutexes);
    let b = spec_sys_mutex_create(m, blocking).0;
    assert forall|s: WaitSpot, t: usize| #[trigger] spot_holds(b, s, t) implies spot_holds(
        m,
        s,
        t,
    ) by {}
    lemma_discipline_spot_equiv(m, b);
}

/// Creating a semaphore keeps the discipline.
pub proof fn lemma_discipline_semaphore_create(m: ProcModel, res_count: usize)
    requires
        queues_disciplined(m),
    ensures
        queues_disciplined(spec_sys_semaphore_create(m, res_count).0),
{
    crate::model::lemma_first_free_bounds(m.semaphores);
    let b = spec_sys_semaphore_create(m, res_count).0;
    assert forall|s: WaitSpot, t: usize| #[trigger] spot_holds(b, s, t) implies spot_holds(
        m,
        s,
        t,
    ) by {}
    lemma_discipline_spot_equiv(m, b);
}

/// Creating a condition variable keeps the discipline.
pub proof fn lemma_discipline_condvar_create(m: ProcModel)
    requires
        queues_disciplined(m),
    ensures
        queues_disciplined(spec_sys_condvar_create(m).0),
{
    crate::model::lemma_first_free_bounds(m.condvars);
    let b = spec_sys_condvar_create(m).0;
    assert forall|s: WaitSpot, t: usize| #[trigger] spot_holds(b, s, t) implies spot_holds(
        m,
        s,
        t,
    ) by {}
    lemma_discipline_spot_equiv(m, b);
}

/// One acquisition attempt keeps the discipline, whichever way it goes.
proof fn lemma_discipline_acquire(m: ProcModel, tid: usize, id: int)
    requires
        queues_disciplined(m),
        (tid as int) < m.threads.len(),
        m.threads[tid as int] is Runnable,
        m.valid_mutex(id),
    ensures
        queues_disciplined(spec_mutex_acquire(m, tid as int, id)),
{
    let mx = m.mutex_at(id);
    if !mx.locked {
        let b = m.with_mutex(id, MutexModel { locked: true, ..mx });
        assert forall|s: WaitSpot, t: usize| #[trigger] spot_holds(b, s, t) implies spot_holds(
            m,
            s,
            t,
        ) by {}
        lemma_discipline_spot_equiv(m, b);
    } else if mx.blocking {
        lemma_discipline_mutex_push(m, tid, id);
    }
}

/// A lock call keeps the discipline: the admission gate rewrites only the
/// accounting tables, and the acquisition step either takes a free mutex,
/// queues and suspends the runnable caller, or leaves a busy spin mutex
/// unchanged.
pub proof fn lemma_discipline_mutex_lock(m: ProcModel, tid: usize, id: int)
    requires
        queues_disciplined(m),
        (tid as int) < m.threads.len(),
        m.threads[tid as int] is Runnable,
    ensures
        queues_disciplined(spec_sys_mutex_lock(m, tid as int, id).0),
{
    if m.valid_mutex(id) {
        if m.detect {
            let gate = spec_mutex_admission(m, tid as int, id);
            assert forall|s: WaitSpot, t: usize|
                #[trigger] spot_holds(gate.0, s, t) implies spot_holds(m, s, t) by {}
            assert forall|s: WaitSpot, t: usize|
                #[trigger] spot_holds(m, s, t) implies spot_holds(gate.0, s, t) by {}
            lemma_discipline_spot_equiv(m, gate.0);
            if gate.1 {
                lemma_discipline_acquire(gate.0, tid, id);
            }
        } else {
            lemma_discipline_acquire(m, tid, id);
        }
    }
}

/// An unlock call keeps the discipline.
pub proof fn lemma_discipline_mutex_unlock(m: ProcModel, id: int)
    requires
        queues_disciplined(m),
    ensures
        queues_disciplined(spec_sys_mutex_unlock(m, id).0),
{
    if m.valid_mutex(id) {
        lemma_discipline_mutex_pop(m, id);
    }
}

/// An `up` call keeps the discipline: the accounting release rewrites only
/// the tables, and the primitive step either hands the unit to the woken
/// head waiter or only raises the count.
pub proof fn lemma_discipline_semaphore_up(m: ProcModel, tid: usize, id: int)
    requires
        queues_disciplined(m),
    ensures
        queues_disciplined(spec_sys_semaphore_up(m, tid as int, id).0),
{
    if m.valid_sem(id) {
        let base = spec_sem_release_accounting(m, tid as int, id);
        assert forall|s: WaitSpot, t: usize| #[trigger] spot_holds(base, s, t) implies spot_holds(
            m,
            s,
            t,
        ) by {}
        assert forall|s: WaitSpot, t: usize| #[trigger] spot_holds(m, s, t) implies spot_holds(
            base,
            s,
            t,
        ) by {}
        lemma_discipline_spot_equiv(m, base);
        let sm = base.sem_at(id);
        if sm.count + 1 <= 0 && sm.queue.len() > 0 {
            lemma_discipline_sem_pop(base, id, sm.count + 1);
        } else {
            let b = base.with_sem(id, SemModel { count: sm.count + 1, ..sm });
            assert forall|s: WaitSpot, t: usize|
                #[trigger] spot_holds(b, s, t) implies spot_holds(base, s, t) by {}
            lemma_discipline_spot_equiv(base, b);
        }
    }
}

/// A `down` call keeps the discipline: the admission gate rewrites only the
/// tables, and the primitive step either queues and suspends the runnable
/// caller or only lowers the count.
pub proof fn lemma_discipline_semaphore_down(m: ProcModel, tid: usize, id: int)
    requires
        queues_disciplined(m),
        (tid as int) < m.threads.len(),
        m.threads[tid as int] is Runnable,
    ensures
        queues_disciplined(spec_sys_semaphore_down(m, tid as int, id).0),
{
    if m.valid_sem(id) {
        let base = if m.detect {
            spec_sem_admission(m, tid as int, id).0
        } else {
            m
        };
        assert forall|s: WaitSpot, t: usize| #[trigger] spot_holds(base, s, t) implies spot_holds(
            m,
            s,
            t,
        ) by {}
        assert forall|s: WaitSpot, t: usize| #[trigger] spot_holds(m, s, t) implies spot_holds(
            base,
            s,
            t,
        ) by {}
        lemma_discipline_spot_equiv(m, base);
        if !(m.detect && !spec_sem_admission(m, tid as int, id).1) {
            let sm = base.sem_at(id);
            if sm.count <= 0 {
                lemma_discipline_sem_push(base, tid, id, sm.count - 1);
            } else {
                let b = base.with_sem(id, SemModel { count: sm.count - 1, ..sm });
                assert forall|s: WaitSpot, t: usize|
                    #[trigger] spot_holds(b, s, t) implies spot_holds(base, s, t) by {}
                lemma_discipline_spot_equiv(base, b);
            }
        }
    }
}

/// A signal call keeps the discipline.
pub proof fn lemma_discipline_condvar_signal(m: ProcModel, id: int)
    requires
        queues_disciplined(m),
    ensures
        queues_disciplined(spec_sys_condvar_signal(m, id).0),
{
    if m.valid_cv(id) && m.cv_at(id).queue.len() > 0 {
        lemma_discipline_cv_pop(m, id);
    }
}

/// A wait call keeps the discipline: the mutex release wakes at most the
/// head waiter of the mutex — never the caller, which is runnable — and the
/// caller then takes a fresh spot at the tail of the condition variable's
/// queue as it suspends.
pub proof fn lemma_discipline_condvar_wait(m: ProcModel, tid: usize, cv_id: int, mutex_id: int)
    requires
        queues_disciplined(m),
        (tid as int) < m.threads.len(),
        m.threads[tid as int] is Runnable,
    ensures
        queues_disciplined(spec_sys_condvar_wait(m, tid as int, cv_id, mutex_id).0),
{
    if m.valid_cv(cv_id) && m.valid_mutex(mutex_id) {
        let m1 = spec_mutex_release(m, mutex_id);
        lemma_discipline_mutex_pop(m, mutex_id);
        let mx = m.mutex_at(mutex_id);
        if mx.blocking && mx.queue.len() > 0 {
            let w = mx.queue[0];
            assert(spot_holds(m, WaitSpot::Mux { slot: mutex_id, pos: 0 }, w));
            assert(m.threads[w as int] is Blocked);
            assert(w != tid);
        }
        assert(m1.threads[tid as int] is Runnable);
        assert(m1.cv_at(cv_id) == m.cv_at(cv_id));
        lemma_discipline_cv_push(m1, tid, cv_id);
    }
}

} // verus!
