//! Synchronization layer of a teaching operating-system kernel, as a verified
//! state-transition library.
//!
//! The kernel's per-process synchronization state (mutexes, counting
//! semaphores, condition variables, and the Banker's-algorithm deadlock
//! detector that gates acquisitions) is held in a [`process::ProcState`]
//! value.  Each kernel entry point is a function from that state, the calling
//! thread, and the call's arguments to the next state and a signed result
//! code.  Blocking and waking are modelled as transitions of the per-thread
//! run states; the external scheduler performs the actual context switches.

use vstd::prelude::*;

pub mod detector;
pub mod discipline;
pub mod facade;
pub mod fs_calls;
pub mod model;
pub mod primitives;
pub mod proc_calls;
pub mod process;

verus! {

/// Result code returned when the deadlock detector refuses an acquisition.
pub const DEADLOCK_RC: isize = -0xdead;

/// Result code returned when a handle does not name a live object.
pub const INVALID_RC: isize = -1;

} // verus!
