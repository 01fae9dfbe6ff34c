//! The deadlock detector's safety check: a single-pass Banker's algorithm
//! over one resource column.
//!
//! The check does one forward sweep over the threads in index order, never
//! iterating to a fixed point.  A classic Banker's algorithm would repeat the
//! sweep until no finish flag changes; the single pass under-detects safety
//! when a later thread's completion would free units an earlier thread
//! needed.  The sweep order is part of this library's documented behaviour.

use crate::model::table_view;
use vstd::prelude::*;

verus! {

/// Sum of a sequence of unit counts.
pub open spec fn seq_sum(s: Seq<usize>) -> int
    decreases s.len(),
{
    if s.len() == 0 {
        0
    } else {
        seq_sum(s.drop_last()) + s.last()
    }
}

pub proof fn lemma_seq_sum_nonneg(s: Seq<usize>)
    ensures
        seq_sum(s) >= 0,
    decreases s.len(),
{
    if s.len() > 0 {
        lemma_seq_sum_nonneg(s.drop_last());
    }
}

pub proof fn lemma_seq_sum_take_succ(s: Seq<usize>, i: int)
    requires
        0 <= i < s.len(),
    ensures
        seq_sum(s.take(i + 1)) == seq_sum(s.take(i)) + s[i],
{
    assert(s.take(i + 1).drop_last() =~= s.take(i));
    assert(s.take(i + 1).last() == s[i]);
}

pub proof fn lemma_seq_sum_take_le(s: Seq<usize>, i: int)
    requires
        0 <= i <= s.len(),
    ensures
        seq_sum(s.take(i)) <= seq_sum(s),
    decreases s.len() - i,
{
    if i == s.len() {
        assert(s.take(i) =~= s);
    } else {
        lemma_seq_sum_take_succ(s, i);
        lemma_seq_sum_take_le(s, i + 1);
    }
}

/// Column `r` of a resource-accounting table: one entry per thread.
pub open spec fn column(table: Seq<Seq<usize>>, r: int) -> Seq<usize> {
    table.map_values(|row: Seq<usize>| row[r])
}

/// The work counter after the single forward pass has processed threads
/// `0..i` of the column: starting from `w0`, the pass reclaims thread `t`'s
/// allocation exactly when `t` holds units and `t`'s declared need fits in
/// the work gathered so far.
pub open spec fn pass_work(alloc: Seq<usize>, need: Seq<usize>, w0: int, i: int) -> int
    decreases i,
{
    if i <= 0 {
        w0
    } else {
        let prev = pass_work(alloc, need, w0, i - 1);
        if alloc[i - 1] != 0 && need[i - 1] <= prev {
            prev + alloc[i - 1]
        } else {
            prev
        }
    }
}

/// Whether the single pass marks thread `t` finished: trivially when it
/// holds no unit of the resource, otherwise when its declared need fits in
/// the work available at the moment the pass reaches it.
pub open spec fn finishes(alloc: Seq<usize>, need: Seq<usize>, w0: int, t: int) -> bool {
    alloc[t] == 0 || need[t] <= pass_work(alloc, need, w0, t)
}

/// Verdict of the single-pass safety check: every thread finishes.
pub open spec fn single_pass_safe(alloc: Seq<usize>, need: Seq<usize>, w0: int, n: int) -> bool {
    forall|t: int| 0 <= t < n ==> finishes(alloc, need, w0, t)
}

/// The pass never gathers more work than the initial units plus everything
/// allocated in the processed prefix.
pub proof fn lemma_pass_work_le(alloc: Seq<usize>, need: Seq<usize>, w0: int, i: int)
    requires
        0 <= i <= alloc.len(),
    ensures
        pass_work(alloc, need, w0, i) <= w0 + seq_sum(alloc.take(i)),
    decreases i,
{
    if i > 0 {
        lemma_pass_work_le(alloc, need, w0, i - 1);
        lemma_seq_sum_take_succ(alloc, i - 1);
    }
}

/// The pass's work counter is monotonic in the initial units.
pub proof fn lemma_pass_work_monotonic(
    alloc: Seq<usize>,
    need: Seq<usize>,
    w0a: int,
    w0b: int,
    i: int,
)
    requires
        w0a <= w0b,
    ensures
        pass_work(alloc, need, w0a, i) <= pass_work(alloc, need, w0b, i),
    decreases i,
{
    if i > 0 {
        lemma_pass_work_monotonic(alloc, need, w0a, w0b, i - 1);
    }
}

/// The verdict is monotonic in `available`: a request deemed safe stays
/// safe when the check starts from at least as many unallocated units.
pub proof fn lemma_safety_check_monotonic(
    alloc: Seq<usize>,
    need: Seq<usize>,
    w0a: int,
    w0b: int,
    n: int,
)
    requires
        w0a <= w0b,
        single_pass_safe(alloc, need, w0a, n),
    ensures
        single_pass_safe(alloc, need, w0b, n),
{
    assert forall|t: int| 0 <= t < n implies finishes(alloc, need, w0b, t) by {
        assert(finishes(alloc, need, w0a, t));
        lemma_pass_work_monotonic(alloc, need, w0a, w0b, t);
    }
}

/// The check has no hidden state: the finish flag of every thread and the
/// verdict are functions of the accounting tables alone, so re-running the
/// identical check yields the identical finish vector and verdict.
pub proof fn lemma_safety_check_deterministic(
    alloc1: Seq<usize>,
    need1: Seq<usize>,
    w1: int,
    alloc2: Seq<usize>,
    need2: Seq<usize>,
    w2: int,
    n: int,
)
    requires
        alloc1 == alloc2,
        need1 == need2,
        w1 == w2,
    ensures
        forall|t: int|
            0 <= t < n ==> finishes(alloc1, need1, w1, t) == finishes(alloc2, need2, w2, t),
        single_pass_safe(alloc1, need1, w1, n) == single_pass_safe(alloc2, need2, w2, n),
{
}

/// Single-pass Banker's safety check for resource `rid`, with `avail_r`
/// units currently unallocated.  Returns whether granting the recorded
/// request leaves a state the single pass declares safe.
#[verifier::loop_isolation(false)]
pub fn safety_check(
    avail_r: usize,
    allocation: &Vec<Vec<usize>>,
    need: &Vec<Vec<usize>>,
    rid: usize,
) -> (safe: bool)
    requires
        allocation@.len() == need@.len(),
        forall|t: int| 0 <= t < allocation@.len() ==> rid < (#[trigger] allocation@[t])@.len(),
        forall|t: int| 0 <= t < need@.len() ==> rid < (#[trigger] need@[t])@.len(),
        avail_r + seq_sum(column(table_view(allocation@), rid as int)) <= usize::MAX,
    ensures
        safe == single_pass_safe(
            column(table_view(allocation@), rid as int),
            column(table_view(need@), rid as int),
            avail_r as int,
            allocation@.len() as int,
        ),
{
    let ghost acol = column(table_view(allocation@), rid as int);
    let ghost ncol = column(table_view(need@), rid as int);
    let n = allocation.len();
    let mut finish: Vec<bool> = Vec::new();
    let mut i: usize = 0;
    while i < n
        invariant
            i <= n,
            finish@.len() == i,
            forall|t: int| 0 <= t < i ==> finish@[t] == (acol[t] == 0),
        decreases n - i,
    {
        finish.push(allocation[i][rid] == 0);
        i = i + 1;
    }
    let mut work: usize = avail_r;
    let mut i: usize = 0;
    while i < n
        invariant
            i <= n,
            finish@.len() == n,
            work == pass_work(acol, ncol, avail_r as int, i as int),
            forall|t: int| 0 <= t < i ==> finish@[t] == finishes(acol, ncol, avail_r as int, t),
            forall|t: int| i <= t < n ==> finish@[t] == (acol[t] == 0),
        decreases n - i,
    {
        if !finish[i] && need[i][rid] <= work {
            proof {
                lemma_pass_work_le(acol, ncol, avail_r as int, i as int);
                lemma_seq_sum_take_succ(acol, i as int);
                lemma_seq_sum_take_le(acol, i as int + 1);
            }
            work = work + allocation[i][rid];
            finish.set(i, true);
        }
        i = i + 1;
    }
    let mut all_finished = true;
    let mut t: usize = 0;
    while t < n
        invariant
            t <= n,
            all_finished == (forall|u: int| 0 <= u < t ==> finish@[u] == true),
        decreases n - t,
    {
        if !finish[t] {
            all_finished = false;
        }
        t = t + 1;
    }
    proof {
        if all_finished {
            assert forall|u: int| 0 <= u < n implies finishes(
                acol,
                ncol,
                avail_r as int,
                u,
            ) by {
                assert(finish@[u] == true);
            }
        } else {
            assert(!(forall|u: int| 0 <= u < n ==> finish@[u] == true));
            let u = choose|u: int| 0 <= u < n && finish@[u] != true;
            assert(!finishes(acol, ncol, avail_r as int, u));
        }
    }
    all_finished
}

} // verus!
