//! Mathematical model of a process's synchronization state.
//!
//! Every executable type of the library has a view into the ghost structs of
//! this module, and every kernel operation is specified as a transition on
//! [`ProcModel`].

use crate::primitives::ThreadState;
use vstd::prelude::*;

verus! {

/// Model of one mutex: its variant, whether it is held, and the wait queue
/// (always empty for the spin variant, FIFO by block order for the blocking
/// variant).
#[verifier::ext_equal]
pub ghost struct MutexModel {
    pub blocking: bool,
    pub locked: bool,
    pub queue: Seq<usize>,
}

/// Model of one counting semaphore.  `count` may go negative: a negative
/// count means that many threads are waiting.
#[verifier::ext_equal]
pub ghost struct SemModel {
    pub count: int,
    pub queue: Seq<usize>,
}

/// Model of one condition variable: nothing but a FIFO wait queue.
#[verifier::ext_equal]
pub ghost struct CvModel {
    pub queue: Seq<usize>,
}

/// Model of the whole per-process synchronization state: the run state of
/// each thread, the three slot tables of live primitives, and the
/// resource-accounting tables of the deadlock detector (one independent set
/// for the mutex kind and one for the semaphore kind).
///
/// In the accounting tables, a row is a thread and a column is a resource;
/// a column is appended on every creation of a resource of that kind, so the
/// column count can exceed the slot-table length when slots are reused.
#[verifier::ext_equal]
pub ghost struct ProcModel {
    /// Whether deadlock detection is enabled for the process.
    pub detect: bool,
    /// Run state of each thread, indexed by thread id.
    pub threads: Seq<ThreadState>,
    pub mutexes: Seq<Option<MutexModel>>,
    pub semaphores: Seq<Option<SemModel>>,
    pub condvars: Seq<Option<CvModel>>,
    /// Units of each mutex-kind resource not allocated to any thread.
    pub available: Seq<usize>,
    /// allocation[t][r]: units of mutex-kind resource r held by thread t.
    pub allocation: Seq<Seq<usize>>,
    /// need[t][r]: units of mutex-kind resource r declared but not yet held.
    pub need: Seq<Seq<usize>>,
    pub available_sm: Seq<usize>,
    pub allocation_sm: Seq<Seq<usize>>,
    pub need_sm: Seq<Seq<usize>>,
}

impl ProcModel {
    /// Every thread id in a wait queue names a thread of the process.
    pub open spec fn queue_wf(self, q: Seq<usize>) -> bool {
        forall|k: int| 0 <= k < q.len() ==> (#[trigger] q[k]) < self.threads.len()
    }

    /// The mutex-kind accounting tables have a row per thread, equally long
    /// rows, and at least one column per live slot.
    pub open spec fn mutex_tables_wf(self) -> bool {
        &&& self.allocation.len() == self.threads.len()
        &&& self.need.len() == self.threads.len()
        &&& forall|t: int|
            0 <= t < self.threads.len() ==> (#[trigger] self.allocation[t]).len()
                == self.available.len()
        &&& forall|t: int|
            0 <= t < self.threads.len() ==> (#[trigger] self.need[t]).len()
                == self.available.len()
        &&& self.mutexes.len() <= self.available.len()
    }

    /// The semaphore-kind accounting tables, mirrored.
    pub open spec fn sem_tables_wf(self) -> bool {
        &&& self.allocation_sm.len() == self.threads.len()
        &&& self.need_sm.len() == self.threads.len()
        &&& forall|t: int|
            0 <= t < self.threads.len() ==> (#[trigger] self.allocation_sm[t]).len()
                == self.available_sm.len()
        &&& forall|t: int|
            0 <= t < self.threads.len() ==> (#[trigger] self.need_sm[t]).len()
                == self.available_sm.len()
        &&& self.semaphores.len() <= self.available_sm.len()
    }

    /// All wait queues of live primitives hold valid thread ids.
    pub open spec fn queues_wf(self) -> bool {
        &&& forall|i: int|
            0 <= i < self.mutexes.len() && self.mutexes[i] is Some ==> self.queue_wf(
                (#[trigger] self.mutexes[i])->0.queue,
            )
        &&& forall|i: int|
            0 <= i < self.semaphores.len() && self.semaphores[i] is Some ==> self.queue_wf(
                (#[trigger] self.semaphores[i])->0.queue,
            )
        &&& forall|i: int|
            0 <= i < self.condvars.len() && self.condvars[i] is Some ==> self.queue_wf(
                (#[trigger] self.condvars[i])->0.queue,
            )
    }

    pub open spec fn wf(self) -> bool {
        &&& self.mutex_tables_wf()
        &&& self.sem_tables_wf()
        &&& self.queues_wf()
    }

    /// `id` names a live mutex slot.
    pub open spec fn valid_mutex(self, id: int) -> bool {
        0 <= id < self.mutexes.len() && self.mutexes[id] is Some
    }

    pub open spec fn valid_sem(self, id: int) -> bool {
        0 <= id < self.semaphores.len() && self.semaphores[id] is Some
    }

    pub open spec fn valid_cv(self, id: int) -> bool {
        0 <= id < self.condvars.len() && self.condvars[id] is Some
    }

    pub open spec fn mutex_at(self, id: int) -> MutexModel {
        self.mutexes[id]->0
    }

    pub open spec fn sem_at(self, id: int) -> SemModel {
        self.semaphores[id]->0
    }

    pub open spec fn cv_at(self, id: int) -> CvModel {
        self.condvars[id]->0
    }

    /// The state with thread `t` suspended.
    pub open spec fn block(self, t: int) -> ProcModel {
        ProcModel { threads: self.threads.update(t, ThreadState::Blocked), ..self }
    }

    /// The state with thread `t` runnable again.
    pub open spec fn wake(self, t: int) -> ProcModel {
        ProcModel { threads: self.threads.update(t, ThreadState::Runnable), ..self }
    }

    pub open spec fn with_mutex(self, id: int, m: MutexModel) -> ProcModel {
        ProcModel { mutexes: self.mutexes.update(id, Some(m)), ..self }
    }

    pub open spec fn with_sem(self, id: int, s: SemModel) -> ProcModel {
        ProcModel { semaphores: self.semaphores.update(id, Some(s)), ..self }
    }

    pub open spec fn with_cv(self, id: int, c: CvModel) -> ProcModel {
        ProcModel { condvars: self.condvars.update(id, Some(c)), ..self }
    }
}

/// Mathematical view of a resource-accounting table.
pub open spec fn table_view(m: Seq<Vec<usize>>) -> Seq<Seq<usize>> {
    m.map_values(|row: Vec<usize>| row@)
}

/// Index of the lowest-numbered empty slot, or the table length when every
/// slot is occupied.  Handle assignment always prefers this slot.
pub open spec fn first_free<T>(s: Seq<Option<T>>) -> int
    decreases s.len(),
{
    if s.len() == 0 {
        0
    } else if s[0] is None {
        0
    } else {
        1 + first_free(s.drop_first())
    }
}

/// `first_free` lies within the table bounds, every slot below it is
/// occupied, and it names an empty slot whenever it lies inside the table.
pub proof fn lemma_first_free_bounds<T>(s: Seq<Option<T>>)
    ensures
        0 <= first_free(s) <= s.len(),
        forall|j: int| 0 <= j < first_free(s) ==> s[j] is Some,
        first_free(s) < s.len() ==> s[first_free(s)] is None,
    decreases s.len(),
{
    if s.len() > 0 && s[0] is Some {
        let d = s.drop_first();
        lemma_first_free_bounds(d);
        assert forall|j: int| 0 <= j < first_free(s) implies s[j] is Some by {
            if j > 0 {
                assert(d[j - 1] is Some);
            }
        }
    }
}

/// `first_free` is exactly the first-fit index: every slot below it is
/// occupied, and it is empty when it lies inside the table.
pub proof fn lemma_first_free_is<T>(s: Seq<Option<T>>, i: int)
    requires
        0 <= i <= s.len(),
        forall|j: int| 0 <= j < i ==> s[j] is Some,
        i < s.len() ==> s[i] is None,
    ensures
        first_free(s) == i,
    decreases s.len(),
{
    if i == 0 {
        if s.len() > 0 {
            assert(s[0] is None);
        }
    } else {
        assert(s[0] is Some);
        let d = s.drop_first();
        assert forall|j: int| 0 <= j < i - 1 implies d[j] is Some by {
            assert(d[j] == s[j + 1]);
        }
        assert(i - 1 < d.len() ==> d[i - 1] is None);
        lemma_first_free_is(d, i - 1);
    }
}

} // verus!
