//! The leaf synchronization primitives: mutexes (spin and blocking variants),
//! counting semaphores, and condition variables.
//!
//! A primitive never suspends or wakes a thread itself.  Each step operation
//! transforms the primitive's own state and reports what the caller (the
//! facade) must ask of the scheduler: whether the calling thread blocks, and
//! which waiting thread, if any, is to be woken.

use crate::model::{CvModel, MutexModel, SemModel};
use vstd::prelude::*;

verus! {

/// Run state of one kernel thread, as the external scheduler sees it.
#[derive(Clone, Copy, PartialEq, Eq, Structural, Debug)]
pub enum ThreadState {
    /// Holds the CPU or sits in a run queue.
    Runnable,
    /// Suspended on a wait queue or a timer.
    Blocked,
}

/// What one acquisition attempt of a mutex did.
#[derive(Clone, Copy, PartialEq, Eq, Structural, Debug)]
pub enum AcquireOutcome {
    /// The caller now owns the mutex.
    Acquired,
    /// The mutex was held: the caller joined the wait queue and must
    /// suspend; ownership is handed over when `release` dequeues it.
    Queued,
    /// The mutex was held and is of the spin variant: nothing changed, and
    /// the caller keeps re-attempting (spinning) until it acquires.
    Busy,
}

/// A mutual-exclusion primitive, in one of its two variants.
pub enum MutexObj {
    /// Busy-waits: a contended acquire burns the caller's CPU, no wait queue.
    Spin { locked: bool },
    /// A contended acquire suspends the caller on a FIFO wait queue of
    /// thread ids; release hands ownership to the first queued thread.
    Blocking { locked: bool, queue: Vec<usize> },
}

impl View for MutexObj {
    type V = MutexModel;

    open spec fn view(&self) -> MutexModel {
        match self {
            MutexObj::Spin { locked } => MutexModel {
                blocking: false,
                locked: *locked,
                queue: Seq::empty(),
            },
            MutexObj::Blocking { locked, queue } => MutexModel {
                blocking: true,
                locked: *locked,
                queue: queue@,
            },
        }
    }
}

impl MutexObj {
    /// A fresh, unheld mutex of the requested variant.
    pub fn new(blocking: bool) -> (m: MutexObj)
        ensures
            m@ == (MutexModel { blocking, locked: false, queue: Seq::<usize>::empty() }),
    {
        if blocking {
            MutexObj::Blocking { locked: false, queue: Vec::new() }
        } else {
            MutexObj::Spin { locked: false }
        }
    }

    /// One acquisition attempt by thread `tid`.
    pub fn acquire(&mut self, tid: usize) -> (outcome: AcquireOutcome)
        ensures
            !old(self)@.locked ==> outcome == AcquireOutcome::Acquired && final(self)@ == (
            MutexModel { locked: true, ..old(self)@ }),
            old(self)@.locked && old(self)@.blocking ==> outcome == AcquireOutcome::Queued && final(self)@ == (MutexModel { queue: old(self)@.queue.push(tid), ..old(self)@ }),
            old(self)@.locked && !old(self)@.blocking ==> outcome == AcquireOutcome::Busy && final(self)@ == old(self)@,
    {
        match self {
            MutexObj::Spin { locked } => {
                if *locked {
                    AcquireOutcome::Busy
                } else {
                    *locked = true;
                    AcquireOutcome::Acquired
                }
            },
            MutexObj::Blocking { locked, queue } => {
                if *locked {
                    queue.push(tid);
                    AcquireOutcome::Queued
                } else {
                    *locked = true;
                    AcquireOutcome::Acquired
                }
            },
        }
    }

    /// Release the mutex.  On the blocking variant with waiters, ownership
    /// passes directly to the first queued thread, which is returned so the
    /// facade can wake it; the mutex stays held.  Otherwise it becomes free.
    ///
    /// Calling this on an unheld mutex is a caller misuse hazard: it is not
    /// rejected, and on a blocking mutex with waiters it hands ownership to
    /// the first waiter as if the caller had held the lock.
    pub fn release(&mut self) -> (woken: Option<usize>)
        ensures
            old(self)@.blocking && old(self)@.queue.len() > 0 ==> woken == Some(
                old(self)@.queue[0],
            ) && final(self)@ == (MutexModel { queue: old(self)@.queue.drop_first(), ..old(self)@ }),
            !(old(self)@.blocking && old(self)@.queue.len() > 0) ==> woken is None && final(self)@
                == (MutexModel { locked: false, ..old(self)@ }),
    {
        match self {
            MutexObj::Spin { locked } => {
                *locked = false;
                None
            },
            MutexObj::Blocking { locked, queue } => {
                if queue.len() > 0 {
                    let w = queue.remove(0);
                    proof {
                        assert(queue@ =~= old(self)@.queue.drop_first());
                    }
                    Some(w)
                } else {
                    *locked = false;
                    None
                }
            },
        }
    }
}

/// A counting semaphore.  The count may go negative: a count of `-k` means
/// `k` threads are suspended on the wait queue.
pub struct SemObj {
    pub count: isize,
    pub queue: Vec<usize>,
}

impl View for SemObj {
    type V = SemModel;

    open spec fn view(&self) -> SemModel {
        SemModel { count: self.count as int, queue: self.queue@ }
    }
}

impl SemObj {
    /// A fresh semaphore holding `res_count` units.
    pub fn new(res_count: usize) -> (s: SemObj)
        requires
            res_count <= isize::MAX,
        ensures
            s@ == (SemModel { count: res_count as int, queue: Seq::<usize>::empty() }),
    {
        SemObj { count: res_count as isize, queue: Vec::new() }
    }

    /// Take one unit.  When no unit is left the caller joins the wait queue
    /// and must suspend until an `up` hands its unit over.
    pub fn down(&mut self, tid: usize) -> (blocked: bool)
        requires
            old(self)@.count > isize::MIN,
        ensures
            final(self)@.count == old(self)@.count - 1,
            blocked <==> old(self)@.count <= 0,
            blocked ==> final(self)@.queue == old(self)@.queue.push(tid),
            !blocked ==> final(self)@.queue == old(self)@.queue,
    {
        self.count = self.count - 1;
        if self.count < 0 {
            self.queue.push(tid);
            true
        } else {
            false
        }
    }

    /// Return one unit; when threads are waiting, the first of them receives
    /// the unit and is returned so the facade can wake it.
    pub fn up(&mut self) -> (woken: Option<usize>)
        requires
            old(self)@.count < isize::MAX,
        ensures
            final(self)@.count == old(self)@.count + 1,
            old(self)@.count + 1 <= 0 && old(self)@.queue.len() > 0 ==> woken == Some(
                old(self)@.queue[0],
            ) && final(self)@.queue == old(self)@.queue.drop_first(),
            !(old(self)@.count + 1 <= 0 && old(self)@.queue.len() > 0) ==> woken is None && final(self)@.queue == old(self)@.queue,
    {
        self.count = self.count + 1;
        if self.count <= 0 && self.queue.len() > 0 {
            let w = self.queue.remove(0);
            proof {
                assert(self.queue@ =~= old(self)@.queue.drop_first());
            }
            Some(w)
        } else {
            None
        }
    }
}

/// A condition variable: a bare FIFO wait queue, decoupled from any count.
/// The associated mutex is passed per call, never stored.
pub struct CondvarObj {
    pub queue: Vec<usize>,
}

impl View for CondvarObj {
    type V = CvModel;

    open spec fn view(&self) -> CvModel {
        CvModel { queue: self.queue@ }
    }
}

impl CondvarObj {
    pub fn new() -> (c: CondvarObj)
        ensures
            c@ == (CvModel { queue: Seq::<usize>::empty() }),
    {
        CondvarObj { queue: Vec::new() }
    }

    /// Wake the least-recently-blocked waiter, if one exists; a no-op
    /// otherwise.
    pub fn signal_step(&mut self) -> (woken: Option<usize>)
        ensures
            old(self)@.queue.len() > 0 ==> woken == Some(old(self)@.queue[0]) && final(self)@.queue
                == old(self)@.queue.drop_first(),
            old(self)@.queue.len() == 0 ==> woken is None && final(self)@ == old(self)@,
    {
        if self.queue.len() > 0 {
            let w = self.queue.remove(0);
            proof {
                assert(self.queue@ =~= old(self)@.queue.drop_first());
            }
            Some(w)
        } else {
            None
        }
    }

    /// Join the wait queue; the caller must then suspend until signalled.
    pub fn enqueue(&mut self, tid: usize)
        ensures
            final(self)@.queue == old(self)@.queue.push(tid),
    {
        self.queue.push(tid);
    }
}

} // verus!
