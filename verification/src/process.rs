//! The per-process synchronization state: thread run states, the slot tables
//! of live primitives, and the deadlock detector's accounting tables.
//!
//! The state is owned exclusively by its process: every operation takes it by
//! mutable reference, mirroring the whole-process exclusive-access discipline
//! under which the kernel mutates it.

use crate::model::{first_free, lemma_first_free_is, table_view, ProcModel};
use crate::primitives::{CondvarObj, MutexObj, SemObj, ThreadState};
use vstd::prelude::*;

verus! {

/// Mathematical view of a slot table: each live slot maps to its model.
pub open spec fn slots_view<T: View>(s: Seq<Option<T>>) -> Seq<Option<T::V>> {
    s.map_values(
        |o: Option<T>|
            match o {
                Some(x) => Some(x@),
                None => None,
            },
    )
}

/// A row of zeroes, as appended to an accounting table for a new thread.
pub open spec fn zero_row(n: nat) -> Seq<usize> {
    Seq::new(n, |i: int| 0usize)
}

/// The synchronization state of one process.  See [`ProcModel`] for the
/// meaning of each field.
pub struct ProcState {
    pub detect_enabled: bool,
    pub threads: Vec<ThreadState>,
    pub mutexes: Vec<Option<MutexObj>>,
    pub semaphores: Vec<Option<SemObj>>,
    pub condvars: Vec<Option<CondvarObj>>,
    pub available: Vec<usize>,
    pub allocation: Vec<Vec<usize>>,
    pub need: Vec<Vec<usize>>,
    pub available_sm: Vec<usize>,
    pub allocation_sm: Vec<Vec<usize>>,
    pub need_sm: Vec<Vec<usize>>,
}

impl View for ProcState {
    type V = ProcModel;

    open spec fn view(&self) -> ProcModel {
        ProcModel {
            detect: self.detect_enabled,
            threads: self.threads@,
            mutexes: slots_view(self.mutexes@),
            semaphores: slots_view(self.semaphores@),
            condvars: slots_view(self.condvars@),
            available: self.available@,
            allocation: table_view(self.allocation@),
            need: table_view(self.need@),
            available_sm: self.available_sm@,
            allocation_sm: table_view(self.allocation_sm@),
            need_sm: table_view(self.need_sm@),
        }
    }
}

/// The model of a fresh process: `n` runnable threads, detection off, no
/// primitives yet, and an accounting row (still empty) per thread.
pub open spec fn spec_new_proc(n: nat) -> ProcModel {
    ProcModel {
        detect: false,
        threads: Seq::new(n, |i: int| ThreadState::Runnable),
        mutexes: Seq::empty(),
        semaphores: Seq::empty(),
        condvars: Seq::empty(),
        available: Seq::empty(),
        allocation: Seq::new(n, |i: int| Seq::empty()),
        need: Seq::new(n, |i: int| Seq::empty()),
        available_sm: Seq::empty(),
        allocation_sm: Seq::new(n, |i: int| Seq::empty()),
        need_sm: Seq::new(n, |i: int| Seq::empty()),
    }
}

impl ProcState {
    pub open spec fn wf(&self) -> bool {
        self@.wf()
    }

    /// A fresh process with `n_threads` runnable threads, detection
    /// disabled, and empty registries.
    pub fn new(n_threads: usize) -> (p: ProcState)
        ensures
            p@ == spec_new_proc(n_threads as nat),
            p.wf(),
    {
        let mut threads: Vec<ThreadState> = Vec::new();
        let mut rows_a: Vec<Vec<usize>> = Vec::new();
        let mut rows_n: Vec<Vec<usize>> = Vec::new();
        let mut rows_a_sm: Vec<Vec<usize>> = Vec::new();
        let mut rows_n_sm: Vec<Vec<usize>> = Vec::new();
        let mut i: usize = 0;
        while i < n_threads
            invariant
                i <= n_threads,
                threads@.len() == i,
                rows_a@.len() == i,
                rows_n@.len() == i,
                rows_a_sm@.len() == i,
                rows_n_sm@.len() == i,
                forall|t: int| 0 <= t < i ==> threads@[t] == ThreadState::Runnable,
                forall|t: int| 0 <= t < i ==> (#[trigger] rows_a@[t])@.len() == 0,
                forall|t: int| 0 <= t < i ==> (#[trigger] rows_n@[t])@.len() == 0,
                forall|t: int| 0 <= t < i ==> (#[trigger] rows_a_sm@[t])@.len() == 0,
                forall|t: int| 0 <= t < i ==> (#[trigger] rows_n_sm@[t])@.len() == 0,
            decreases n_threads - i,
        {
            threads.push(ThreadState::Runnable);
            rows_a.push(Vec::new());
            rows_n.push(Vec::new());
            rows_a_sm.push(Vec::new());
            rows_n_sm.push(Vec::new());
            i = i + 1;
        }
        let p = ProcState {
            detect_enabled: false,
            threads,
            mutexes: Vec::new(),
            semaphores: Vec::new(),
            condvars: Vec::new(),
            available: Vec::new(),
            allocation: rows_a,
            need: rows_n,
            available_sm: Vec::new(),
            allocation_sm: rows_a_sm,
            need_sm: rows_n_sm,
        };
        proof {
            assert(p@ =~~= spec_new_proc(n_threads as nat));
        }
        p
    }

    /// Register one newly spawned thread: a run-state entry and a zeroed row
    /// in every accounting table.  The rows are appended whether or not
    /// detection is currently enabled, so the tables always cover every
    /// thread of the process.
    pub fn add_thread(&mut self) -> (tid: usize)
        requires
            old(self).wf(),
        ensures
            final(self).wf(),
            tid == old(self)@.threads.len(),
            final(self)@ == (ProcModel {
                threads: old(self)@.threads.push(ThreadState::Runnable),
                allocation: old(self)@.allocation.push(
                    zero_row(old(self)@.available.len()),
                ),
                need: old(self)@.need.push(zero_row(old(self)@.available.len())),
                allocation_sm: old(self)@.allocation_sm.push(
                    zero_row(old(self)@.available_sm.len()),
                ),
                need_sm: old(self)@.need_sm.push(zero_row(old(self)@.available_sm.len())),
                ..old(self)@
            }),
    {
        let tid = self.threads.len();
        self.threads.push(ThreadState::Runnable);
        let row_a = zero_vec(self.available.len());
        let row_n = zero_vec(self.available.len());
        let row_a_sm = zero_vec(self.available_sm.len());
        let row_n_sm = zero_vec(self.available_sm.len());
        self.allocation.push(row_a);
        self.need.push(row_n);
        self.allocation_sm.push(row_a_sm);
        self.need_sm.push(row_n_sm);
        proof {
            assert(self@ =~~= (ProcModel {
                threads: old(self)@.threads.push(ThreadState::Runnable),
                allocation: old(self)@.allocation.push(zero_row(old(self)@.available.len())),
                need: old(self)@.need.push(zero_row(old(self)@.available.len())),
                allocation_sm: old(self)@.allocation_sm.push(
                    zero_row(old(self)@.available_sm.len()),
                ),
                need_sm: old(self)@.need_sm.push(zero_row(old(self)@.available_sm.len())),
                ..old(self)@
            }));
        }
        tid
    }

    /// Clear a mutex slot.  No destroy operation is exposed to threads: this
    /// is the hook through which the external lifecycle collaborator
    /// releases a dead primitive's slot, making its handle reusable.
    /// Accounting columns are never removed.
    pub fn clear_mutex_slot(&mut self, id: usize)
        requires
            old(self).wf(),
            id < old(self)@.mutexes.len(),
        ensures
            final(self).wf(),
            final(self)@ == (ProcModel {
                mutexes: old(self)@.mutexes.update(id as int, None),
                ..old(self)@
            }),
    {
        self.mutexes.set(id, None);
        proof {
            assert(self@ =~~= (ProcModel {
                mutexes: old(self)@.mutexes.update(id as int, None),
                ..old(self)@
            }));
        }
    }

    /// Clear a semaphore slot; see [`ProcState::clear_mutex_slot`].
    pub fn clear_sem_slot(&mut self, id: usize)
        requires
            old(self).wf(),
            id < old(self)@.semaphores.len(),
        ensures
            final(self).wf(),
            final(self)@ == (ProcModel {
                semaphores: old(self)@.semaphores.update(id as int, None),
                ..old(self)@
            }),
    {
        self.semaphores.set(id, None);
        proof {
            assert(self@ =~~= (ProcModel {
                semaphores: old(self)@.semaphores.update(id as int, None),
                ..old(self)@
            }));
        }
    }

    /// Clear a condition-variable slot; see [`ProcState::clear_mutex_slot`].
    pub fn clear_cv_slot(&mut self, id: usize)
        requires
            old(self).wf(),
            id < old(self)@.condvars.len(),
        ensures
            final(self).wf(),
            final(self)@ == (ProcModel {
                condvars: old(self)@.condvars.update(id as int, None),
                ..old(self)@
            }),
    {
        self.condvars.set(id, None);
        proof {
            assert(self@ =~~= (ProcModel {
                condvars: old(self)@.condvars.update(id as int, None),
                ..old(self)@
            }));
        }
    }
}

/// A vector of `n` zeroes.
fn zero_vec(n: usize) -> (v: Vec<usize>)
    ensures
        v@ == zero_row(n as nat),
{
    let mut v: Vec<usize> = Vec::new();
    let mut i: usize = 0;
    while i < n
        invariant
            i <= n,
            v@.len() == i,
            forall|t: int| 0 <= t < i ==> v@[t] == 0usize,
        decreases n - i,
    {
        v.push(0);
        i = i + 1;
    }
    proof {
        assert(v@ =~= zero_row(n as nat));
    }
    v
}

/// First-fit search: the lowest empty slot of the table, or its length when
/// every slot is occupied.
pub fn find_free_slot<T>(v: &Vec<Option<T>>) -> (i: usize)
    ensures
        i <= v@.len(),
        forall|j: int| 0 <= j < i ==> v@[j] is Some,
        i < v@.len() ==> v@[i as int] is None,
        i as int == first_free(v@),
{
    let n = v.len();
    let mut i: usize = 0;
    while i < n
        invariant
            i <= n,
            n == v@.len(),
            forall|j: int| 0 <= j < i ==> v@[j] is Some,
        decreases n - i,
    {
        if v[i].is_none() {
            proof {
                lemma_first_free_is(v@, i as int);
            }
            return i;
        }
        i = i + 1;
    }
    proof {
        lemma_first_free_is(v@, n as int);
    }
    n
}

} // verus!
