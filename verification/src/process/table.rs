//! The process table: one record per process, found by process id.

use vstd::prelude::*;

verus! {

pub const SIGKILL_NUM: usize = 9;
pub const SIGCHLD_NUM: usize = 17;
pub const SIGCONT_NUM: usize = 18;
pub const SIGSTOP_NUM: usize = 19;
/// The greatest signal number, real-time signals counted.
pub const RT_SIG_MAX: usize = 64;

/// What the syscalls of this module read and change of one process.
#[derive(Clone, Copy)]
pub struct ProcRecord {
    pub pid: usize,
    pub pgid: usize,
    pub uid: u32,
    /// The real parent, while it is alive.
    pub parent: Option<usize>,
    /// The slot of this process in its parent's list of children.
    pub child_parent_index: Option<usize>,
    /// The parent whose queue of exited children holds this process.
    pub exit_queue_of: Option<usize>,
    /// The signal that the parent gets when this process exits.
    pub exit_signal: i32,
    /// Exit code, or the negated number of the signal that ended the process.
    pub exit_code: i32,
    pub dumped_core: bool,
    pub is_zombie: bool,
    pub exit_teardown: bool,
    pub wait_reaped: bool,
    pub stopped: bool,
    pub stop_pending: bool,
    pub stop_signal: i32,
    pub continued: bool,
    /// The process that traces this one.
    pub tracer: Option<usize>,
    /// How many processes this one traces.
    pub tracee_count: usize,
    pub cpu_time_ns: u64,
    /// CPU time of the descendants that were already waited for.
    pub child_cpu_time_ns: u64,
}

/// The first record at or after slot `i` that belongs to `pid`.
pub open spec fn find_from(procs: Seq<ProcRecord>, pid: usize, i: int) -> Option<int>
    decreases procs.len() - i,
{
    if i >= procs.len() {
        None
    } else if procs[i].pid == pid {
        Some(i)
    } else {
        find_from(procs, pid, i + 1)
    }
}

/// The slot of `pid` in the table.
pub open spec fn find(procs: Seq<ProcRecord>, pid: usize) -> Option<int> {
    find_from(procs, pid, 0)
}

/// No process id occurs twice, and every exit code can be negated.
pub open spec fn table_wf(procs: Seq<ProcRecord>) -> bool {
    &&& forall|i: int, j: int|
        0 <= i < j < procs.len() ==> #[trigger] procs[i].pid != #[trigger] procs[j].pid
    &&& forall|i: int| 0 <= i < procs.len() ==> #[trigger] procs[i].exit_code > i32::MIN
}

pub proof fn lemma_find_from(procs: Seq<ProcRecord>, pid: usize, i: int)
    requires
        0 <= i <= procs.len(),
    ensures
        match find_from(procs, pid, i) {
            Some(k) => i <= k < procs.len() && procs[k].pid == pid && (forall|j: int|
                i <= j < k ==> procs[j].pid != pid),
            None => forall|j: int| i <= j < procs.len() ==> procs[j].pid != pid,
        },
    decreases procs.len() - i,
{
    if i < procs.len() && procs[i].pid != pid {
        lemma_find_from(procs, pid, i + 1);
    }
}

/// A found slot holds the process; a process that is not found is in no slot.
pub proof fn lemma_find(procs: Seq<ProcRecord>, pid: usize)
    ensures
        match find(procs, pid) {
            Some(k) => 0 <= k < procs.len() && procs[k].pid == pid,
            None => forall|j: int| 0 <= j < procs.len() ==> procs[j].pid != pid,
        },
{
    lemma_find_from(procs, pid, 0);
}

/// In a well-formed table a process is found in the slot that holds it.
pub proof fn lemma_find_at(procs: Seq<ProcRecord>, k: int)
    requires
        table_wf(procs),
        0 <= k < procs.len(),
    ensures
        find(procs, procs[k].pid) == Some(k),
{
    lemma_find(procs, procs[k].pid);
}

/// Two tables with the same process ids in the same slots.
pub open spec fn same_pids(a: Seq<ProcRecord>, b: Seq<ProcRecord>) -> bool {
    &&& a.len() == b.len()
    &&& forall|i: int| 0 <= i < a.len() ==> #[trigger] a[i].pid == b[i].pid
}

pub proof fn lemma_find_same_pids(a: Seq<ProcRecord>, b: Seq<ProcRecord>, pid: usize, i: int)
    requires
        same_pids(a, b),
        0 <= i <= a.len(),
    ensures
        find_from(a, pid, i) == find_from(b, pid, i),
    decreases a.len() - i,
{
    if i < a.len() {
        assert(a[i].pid == b[i].pid);
        lemma_find_same_pids(a, b, pid, i + 1);
    }
}

/// A change that keeps process ids and exit codes keeps the table well-formed.
pub proof fn lemma_update_wf(a: Seq<ProcRecord>, b: Seq<ProcRecord>)
    requires
        table_wf(a),
        a.len() == b.len(),
        forall|i: int|
            0 <= i < a.len() ==> #[trigger] b[i].pid == a[i].pid && b[i].exit_code
                == a[i].exit_code,
    ensures
        table_wf(b),
        same_pids(a, b),
{
    assert forall|i: int, j: int| 0 <= i < j < b.len() implies #[trigger] b[i].pid
        != #[trigger] b[j].pid by {
        assert(a[i].pid != a[j].pid);
    }
    assert forall|i: int| 0 <= i < b.len() implies #[trigger] b[i].exit_code > i32::MIN by {
        assert(a[i].exit_code > i32::MIN);
        assert(b[i].pid == a[i].pid);
    }
    assert forall|i: int| 0 <= i < a.len() implies #[trigger] a[i].pid == b[i].pid by {
        assert(b[i].pid == a[i].pid);
    }
}

/// Looks a process up by its id.
pub fn pid2process(procs: &Vec<ProcRecord>, pid: usize) -> (r: Option<usize>)
    ensures
        match r {
            Some(i) => i < procs.len() && find(procs@, pid) == Some(i as int)
                && procs@[i as int].pid == pid,
            None => find(procs@, pid) is None,
        },
{
    let mut i: usize = 0;
    while i < procs.len()
        invariant
            i <= procs.len(),
            find(procs@, pid) == find_from(procs@, pid, i as int),
        decreases procs.len() - i,
    {
        if procs[i].pid == pid {
            return Some(i);
        }
        i += 1;
    }
    None
}

/// Takes a process out of the table.
pub fn remove_from_pid2process(procs: &mut Vec<ProcRecord>, pid: usize)
    requires
        table_wf(old(procs)@),
    ensures
        final(procs)@ == match find(old(procs)@, pid) {
            Some(k) => old(procs)@.remove(k),
            None => old(procs)@,
        },
        table_wf(final(procs)@),
        find(final(procs)@, pid) is None,
{
    match pid2process(procs, pid) {
        Some(i) => {
            let gone = procs.remove(i);
            proof {
                let before = old(procs)@;
                let after = procs@;
                lemma_find(after, pid);
                assert forall|a: int, b: int| 0 <= a < b < after.len() implies
                    #[trigger] after[a].pid != #[trigger] after[b].pid by {
                    let a0 = if a < i { a } else { a + 1 };
                    let b0 = if b < i { b } else { b + 1 };
                    assert(after[a] == before[a0] && after[b] == before[b0]);
                }
                assert forall|a: int| 0 <= a < after.len() implies
                    #[trigger] after[a].exit_code > i32::MIN && after[a].pid != pid by {
                    let a0 = if a < i { a } else { a + 1 };
                    assert(after[a] == before[a0]);
                    assert(before[i as int].pid == pid);
                }
            }
        },
        None => {},
    }
}

} // verus!
