//! Counters for diagnostics: who still refers to a thread, and how often a
//! process forks.

use vstd::prelude::*;

verus! {

/// How often `x` occurs in `s`.
pub open spec fn occurrences(s: Seq<usize>, x: usize) -> nat
    decreases s.len(),
{
    if s.len() == 0 {
        0
    } else {
        occurrences(s.drop_last(), x) + if s.last() == x {
            1nat
        } else {
            0nat
        }
    }
}

/// How often `x` occurs in the lists of `s`, all together.
pub open spec fn occurrences_in_all(s: Seq<Vec<usize>>, x: usize) -> nat
    decreases s.len(),
{
    if s.len() == 0 {
        0
    } else {
        occurrences_in_all(s.drop_last(), x) + occurrences(s.last()@, x)
    }
}

/// `n`, capped at the greatest value.
pub open spec fn capped(n: nat) -> usize {
    if n > usize::MAX {
        usize::MAX
    } else {
        n as usize
    }
}

/// The threads that one process refers to, by the place of the reference.
pub struct ProcessRefs {
    pub tasks: Vec<usize>,
    /// Waiters for the end of each thread.
    pub join_waiters: Vec<Vec<usize>>,
    pub wait_queue: Vec<usize>,
    pub vfork_wait_queue: Vec<usize>,
    /// Waiters of each semaphore, condition variable and mutex.
    pub sync_waiters: Vec<Vec<usize>>,
}

/// References to a thread, by place.
#[derive(Clone, Copy)]
pub struct TaskRefs {
    pub task_slots: usize,
    pub wait_queues: usize,
    pub join_waiters: usize,
    pub sync_waiters: usize,
}

pub open spec fn slot_refs(s: Seq<ProcessRefs>, x: usize) -> nat
    decreases s.len(),
{
    if s.len() == 0 {
        0
    } else {
        slot_refs(s.drop_last(), x) + occurrences(s.last().tasks@, x)
    }
}

/// Threads that wait for a child, or for a child of `vfork`, are counted
/// together.
pub open spec fn wait_refs(s: Seq<ProcessRefs>, x: usize) -> nat
    decreases s.len(),
{
    if s.len() == 0 {
        0
    } else {
        wait_refs(s.drop_last(), x) + occurrences(s.last().wait_queue@, x) + occurrences(
            s.last().vfork_wait_queue@,
            x,
        )
    }
}

pub open spec fn join_refs(s: Seq<ProcessRefs>, x: usize) -> nat
    decreases s.len(),
{
    if s.len() == 0 {
        0
    } else {
        join_refs(s.drop_last(), x) + occurrences_in_all(s.last().join_waiters@, x)
    }
}

pub open spec fn sync_refs(s: Seq<ProcessRefs>, x: usize) -> nat
    decreases s.len(),
{
    if s.len() == 0 {
        0
    } else {
        sync_refs(s.drop_last(), x) + occurrences_in_all(s.last().sync_waiters@, x)
    }
}

fn count_in(list: &Vec<usize>, x: usize) -> (r: usize)
    ensures
        r == occurrences(list@, x),
{
    let mut n: usize = 0;
    let mut i: usize = 0;
    assert(list@.take(0) =~= Seq::<usize>::empty());
    while i < list.len()
        invariant
            i <= list.len(),
            n <= i,
            n == occurrences(list@.take(i as int), x),
        decreases list.len() - i,
    {
        assert(list@.take(i + 1).drop_last() =~= list@.take(i as int));
        if list[i] == x {
            n += 1;
        }
        i += 1;
    }
    assert(list@.take(i as int) =~= list@);
    n
}

fn count_in_all(lists: &Vec<Vec<usize>>, x: usize) -> (r: usize)
    ensures
        r == capped(occurrences_in_all(lists@, x)),
{
    let mut n: usize = 0;
    let mut i: usize = 0;
    assert(lists@.take(0) =~= Seq::<Vec<usize>>::empty());
    while i < lists.len()
        invariant
            i <= lists.len(),
            n == capped(occurrences_in_all(lists@.take(i as int), x)),
        decreases lists.len() - i,
    {
        assert(lists@.take(i + 1).drop_last() =~= lists@.take(i as int));
        n = n.saturating_add(count_in(&lists[i], x));
        i += 1;
    }
    assert(lists@.take(i as int) =~= lists@);
    n
}

/// Counts the references of all processes to a thread, by place.
pub fn debug_task_ref_breakdown(processes: &Vec<ProcessRefs>, task: usize) -> (r: TaskRefs)
    ensures
        r.task_slots == capped(slot_refs(processes@, task)),
        r.wait_queues == capped(wait_refs(processes@, task)),
        r.join_waiters == capped(join_refs(processes@, task)),
        r.sync_waiters == capped(sync_refs(processes@, task)),
{
    let mut r = TaskRefs { task_slots: 0, wait_queues: 0, join_waiters: 0, sync_waiters: 0 };
    let mut i: usize = 0;
    assert(processes@.take(0) =~= Seq::<ProcessRefs>::empty());
    while i < processes.len()
        invariant
            i <= processes.len(),
            r.task_slots == capped(slot_refs(processes@.take(i as int), task)),
            r.wait_queues == capped(wait_refs(processes@.take(i as int), task)),
            r.join_waiters == capped(join_refs(processes@.take(i as int), task)),
            r.sync_waiters == capped(sync_refs(processes@.take(i as int), task)),
        decreases processes.len() - i,
    {
        assert(processes@.take(i + 1).drop_last() =~= processes@.take(i as int));
        let p = &processes[i];
        r.task_slots = r.task_slots.saturating_add(count_in(&p.tasks, task));
        r.wait_queues = r.wait_queues.saturating_add(count_in(&p.wait_queue, task));
        r.wait_queues = r.wait_queues.saturating_add(count_in(&p.vfork_wait_queue, task));
        r.join_waiters = r.join_waiters.saturating_add(count_in_all(&p.join_waiters, task));
        r.sync_waiters = r.sync_waiters.saturating_add(count_in_all(&p.sync_waiters, task));
        i += 1;
    }
    assert(processes@.take(i as int) =~= processes@);
    r
}

/// Every fork of a burst is reported at first, then one in 128.
pub open spec fn reports_fork(count: usize) -> bool {
    count <= 16 || count % 128 == 0
}

/// Tells whether the fork with this number is reported.
pub fn should_report_fork_diag(count: usize) -> (r: bool)
    ensures
        r == reports_fork(count),
{
    count <= 16 || count % 128 == 0
}

/// How often the same process forked in a row, and since when.
#[derive(Clone, Copy)]
pub struct ForkDiag {
    pub parent_pid: usize,
    pub start_ms: usize,
    pub count: usize,
}

/// Counts a fork of `parent_pid` at `now_ms`. Gives its number in the row and the
/// time since the first, if they are reported.
pub fn record_fork_diag(diag: &mut ForkDiag, parent_pid: usize, now_ms: usize) -> (r: Option<
    (usize, usize),
>)
    requires
        old(diag).count < usize::MAX,
    ensures
        ({
            let same = old(diag).parent_pid == parent_pid;
            let count = if same {
                (old(diag).count + 1) as usize
            } else {
                1
            };
            let start = if same {
                old(diag).start_ms
            } else {
                now_ms
            };
            &&& *final(diag) == (ForkDiag { parent_pid, start_ms: start, count })
            &&& r == if reports_fork(count) {
                Some(
                    (
                        count,
                        if now_ms >= start {
                            (now_ms - start) as usize
                        } else {
                            0
                        },
                    ),
                )
            } else {
                None
            }
        }),
{
    if diag.parent_pid != parent_pid {
        diag.parent_pid = parent_pid;
        diag.start_ms = now_ms;
        diag.count = 0;
    }
    diag.count += 1;
    let elapsed: usize = now_ms.saturating_sub(diag.start_ms);
    if should_report_fork_diag(diag.count) {
        Some((diag.count, elapsed))
    } else {
        None
    }
}

} // verus!
