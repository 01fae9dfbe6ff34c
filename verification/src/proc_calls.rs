//! Process-management entry points whose decisions this layer owns: reaping
//! a zombie child and filling the time and task-information records.
//!
//! The external collaborators supply the raw inputs — the current time, the
//! task bookkeeping, the child table — and write the filled records back to
//! the calling thread's address space.

use vstd::prelude::*;

verus! {

/// Number of syscalls whose per-task call counts the kernel tracks.
pub const MAX_SYSCALL_NUM: usize = 500;

/// A second/microsecond split of a point in time.
#[derive(Clone, Copy, PartialEq, Eq, Structural, Debug)]
pub struct TimeVal {
    /// sec
    pub sec: usize,
    /// usec
    pub usec: usize,
}

/// Run state of a task as the task manager reports it.
#[derive(Clone, Copy, PartialEq, Eq, Structural, Debug)]
pub enum TaskStatus {
    Ready,
    Running,
    Blocked,
}

/// Task information as reported to the calling thread.
pub struct TaskInfo {
    /// Task status in its life cycle.
    pub status: TaskStatus,
    /// The number of calls of each syscall made by the task.
    pub syscall_times: [u32; MAX_SYSCALL_NUM],
    /// Total running time of the task, in milliseconds.
    pub time: usize,
}

/// Fill `ts` from a microsecond reading `us` of the external clock: whole
/// seconds and the microsecond remainder.  Returns `0`.
pub fn sys_get_time(ts: &mut TimeVal, us: usize) -> (r: isize)
    ensures
        final(ts).sec == us / 1_000_000,
        final(ts).usec == us % 1_000_000,
        r == 0,
{
    *ts = TimeVal { sec: us / 1_000_000, usec: us % 1_000_000 };
    0
}

/// Fill `ti` from the task manager's bookkeeping: the status and per-syscall
/// counts as reported, and the running time as the span from the task's
/// first dispatch `start_ms` to the current time `now_ms`.  Returns `0`.
pub fn sys_task_info(
    ti: &mut TaskInfo,
    now_ms: usize,
    start_ms: usize,
    syscall_times: [u32; MAX_SYSCALL_NUM],
    status: TaskStatus,
) -> (r: isize)
    requires
        start_ms <= now_ms,
    ensures
        final(ti).time == now_ms - start_ms,
        final(ti).syscall_times@ == syscall_times@,
        final(ti).status == status,
        r == 0,
{
    *ti = TaskInfo { status, syscall_times, time: now_ms - start_ms };
    0
}

/// One child process as the parent's table records it.
#[derive(Clone, Copy, PartialEq, Eq, Structural, Debug)]
pub struct ChildProc {
    pub pid: usize,
    /// Whether the child has exited and awaits reaping.
    pub zombie: bool,
    pub exit_code: i32,
}

/// Whether a child is named by a `waitpid` argument: `-1` names any child.
pub open spec fn child_matches(c: ChildProc, pid: isize) -> bool {
    pid == -1 || c.pid == pid as usize
}

/// Index of the first named zombie child, or the table length when none is
/// ready to reap.
pub open spec fn first_zombie(s: Seq<ChildProc>, pid: isize) -> int
    decreases s.len(),
{
    if s.len() == 0 {
        0
    } else if s[0].zombie && child_matches(s[0], pid) {
        0
    } else {
        1 + first_zombie(s.drop_first(), pid)
    }
}

/// `first_zombie` is exactly the first index whose child is a named zombie.
pub proof fn lemma_first_zombie_is(s: Seq<ChildProc>, pid: isize, i: int)
    requires
        0 <= i <= s.len(),
        forall|j: int| 0 <= j < i ==> !((#[trigger] s[j]).zombie && child_matches(s[j], pid)),
        i < s.len() ==> s[i].zombie && child_matches(s[i], pid),
    ensures
        first_zombie(s, pid) == i,
    decreases s.len(),
{
    if i == 0 {
    } else {
        let d = s.drop_first();
        assert forall|j: int|
            0 <= j < i - 1 implies !((#[trigger] d[j]).zombie && child_matches(d[j], pid)) by {
            assert(d[j] == s[j + 1]);
        }
        assert(i - 1 < d.len() ==> d[i - 1].zombie && child_matches(d[i - 1], pid));
        lemma_first_zombie_is(d, pid, i - 1);
    }
}

/// Whether any child of the table, zombie or not, is named by `pid`.
pub open spec fn has_named_child(s: Seq<ChildProc>, pid: isize) -> bool {
    exists|j: int| 0 <= j < s.len() && child_matches(#[trigger] s[j], pid)
}

/// Reap a child: `pid` names a child pid, or `-1` for any child.
///
/// When no child at all is named, returns `-1`.  When a named child exists
/// but none is a zombie yet, returns `-2`.  Otherwise the first named zombie
/// (in table order) is removed from the table, its exit code is written to
/// `exit_code` (the collaborator copies it to the caller's address space),
/// and its pid is returned.
#[verifier::loop_isolation(false)]
pub fn sys_waitpid(children: &mut Vec<ChildProc>, pid: isize, exit_code: &mut i32) -> (r: isize)
    requires
        forall|j: int|
            0 <= j < old(children)@.len() ==> (#[trigger] old(children)@[j]).pid <= isize::MAX,
    ensures
        !has_named_child(old(children)@, pid) ==> r == -1 && final(children)@ == old(children)@
            && *final(exit_code) == *old(exit_code),
        has_named_child(old(children)@, pid) && first_zombie(old(children)@, pid) == old(
            children,
        )@.len() ==> r == -2 && final(children)@ == old(children)@ && *final(exit_code) == *old(
            exit_code,
        ),
        has_named_child(old(children)@, pid) && first_zombie(old(children)@, pid) < old(
            children,
        )@.len() ==> {
            let k = first_zombie(old(children)@, pid);
            &&& r == old(children)@[k].pid
            &&& *final(exit_code) == old(children)@[k].exit_code
            &&& final(children)@ == old(children)@.remove(k)
        },
{
    let n = children.len();
    let mut any: bool = false;
    let mut j: usize = 0;
    while j < n
        invariant
            j <= n,
            children@ == old(children)@,
            *exit_code == *old(exit_code),
            n == children@.len(),
            any == (exists|u: int| 0 <= u < j && child_matches(#[trigger] children@[u], pid)),
        decreases n - j,
    {
        let c = children[j];
        if pid == -1 || (pid as usize) == c.pid {
            any = true;
        }
        j = j + 1;
    }
    if !any {
        return -1;
    }
    let mut k: usize = 0;
    while k < n
        invariant
            k <= n,
            children@ == old(children)@,
            *exit_code == *old(exit_code),
            n == children@.len(),
            forall|j: int|
                0 <= j < k ==> !((#[trigger] children@[j]).zombie && child_matches(
                    children@[j],
                    pid,
                )),
        decreases n - k,
    {
        let c = children[k];
        if c.zombie && (pid == -1 || (pid as usize) == c.pid) {
            proof {
                lemma_first_zombie_is(children@, pid, k as int);
            }
            let reaped = children.remove(k);
            *exit_code = reaped.exit_code;
            return reaped.pid as isize;
        }
        k = k + 1;
    }
    proof {
        lemma_first_zombie_is(children@, pid, n as int);
    }
    -2
}

} // verus!
