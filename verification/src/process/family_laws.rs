//! Parents and children, and what is counted of them.

use vstd::prelude::*;
use crate::process::adoption::{adopted, adopter, rollback_actions, withdrawn, RollbackAction};
use crate::process::diagnostics::{
    capped, join_refs, occurrences, occurrences_in_all, reports_fork, slot_refs, sync_refs,
    wait_refs, ProcessRefs,
};
use crate::process::executing::{counted_down, counted_up, inode_from, ExecutingInodes};
use crate::process::family::{child_slot, detached, lemma_slot_from, reslotted};
use crate::process::table::{lemma_find_at, table_wf, ProcRecord};

verus! {

/// The parent of a process takes over a child if it has threads and is not on its way
/// out.
pub proof fn law_who_adopts(procs: Seq<ProcRecord>, k: int, m: int, live_threads: usize)
    requires
        table_wf(procs),
        0 <= k < procs.len(),
        0 <= m < procs.len(),
        procs[k].parent == Some(procs[m].pid),
    ensures
        ({
            let can = live_threads > 0 && !procs[m].is_zombie && !procs[m].exit_teardown;
            let r = adopter(procs, procs[k].pid, live_threads);
            &&& can ==> r == Some(procs[m].pid)
            &&& !can ==> r is None
        }),
{
    lemma_find_at(procs, k);
    lemma_find_at(procs, m);
}

/// A process without a parent has nobody to take over its children.
pub proof fn law_orphans_have_no_adopter(procs: Seq<ProcRecord>, k: int, live_threads: usize)
    requires
        table_wf(procs),
        0 <= k < procs.len(),
        procs[k].parent is None,
    ensures
        adopter(procs, procs[k].pid, live_threads) is None,
{
    lemma_find_at(procs, k);
}

/// An adopted child knows its new parent and its slot there; nothing else changes.
pub proof fn law_adopted_children(
    procs: Seq<ProcRecord>,
    k: int,
    parent: usize,
    slot: usize,
    j: int,
)
    requires
        table_wf(procs),
        0 <= k < procs.len(),
        0 <= j < procs.len(),
    ensures
        ({
            let t = adopted(procs, procs[k].pid, parent, slot);
            &&& t.len() == procs.len()
            &&& t[k].pid == procs[k].pid && t[k].parent == Some(parent) && t[k].child_parent_index
                == Some(slot)
            &&& t[k].exit_signal == procs[k].exit_signal && t[k].pgid == procs[k].pgid
                && t[k].tracer == procs[k].tracer && t[k].is_zombie == procs[k].is_zombie
            &&& j != k ==> t[j] == procs[j]
        }),
{
    lemma_find_at(procs, k);
}

/// A child that was taken back has no parent, cannot be waited for and is on its way out.
pub proof fn law_withdrawn_children(r: ProcRecord)
    ensures
        ({
            let w = withdrawn(r);
            &&& w.pid == r.pid && w.parent is None && w.child_parent_index is None
            &&& w.wait_reaped && w.exit_teardown
            &&& r.parent is Some ==> w.exit_queue_of is None
        }),
{
}

/// Taking a child back ends with its executable and its network namespace. What its own
/// address space holds is released only if it has one.
pub proof fn law_what_is_rolled_back(share_vm: bool, has_shm: bool)
    ensures
        ({
            let s = rollback_actions(share_vm, has_shm);
            let n = s.len() as int;
            &&& s[0] == RollbackAction::LeaveCgroup && s[1] == RollbackAction::ReleaseFiles
            &&& s[n - 2] == RollbackAction::UnregisterExecutable && s[n - 1]
                == RollbackAction::ReleaseNetNamespace
            &&& share_vm ==> n == 4
            &&& !share_vm ==> s[2] == RollbackAction::ClearPacketRings
            &&& !share_vm && has_shm ==> n == 6 && s[3] == RollbackAction::UndoShm
            &&& !share_vm && !has_shm ==> n == 5
        }),
{
}

/// A child is found in the slot that it remembers, and a wrong memory does no harm.
pub proof fn law_slots_of_children(procs: Seq<ProcRecord>, children: Seq<usize>, k: int, i: int)
    requires
        table_wf(procs),
        0 <= k < procs.len(),
        0 <= i < children.len() <= usize::MAX,
        children[i] == procs[k].pid,
        forall|j: int| 0 <= j < children.len() && j != i ==> children[j] != procs[k].pid,
    ensures
        child_slot(procs, children, procs[k].pid) == Some(i),
{
    lemma_find_at(procs, k);
    lemma_slot_from(children, procs[k].pid, 0);
}

/// The last child moves to the slot that becomes free; the others keep theirs.
pub proof fn law_children_move_up(children: Seq<usize>, i: int, j: int)
    requires
        0 <= i < children.len(),
        0 <= j < children.len() - 1,
    ensures
        detached(children, i).len() == children.len() - 1,
        j != i ==> detached(children, i)[j] == children[j],
        j == i ==> detached(children, i)[j] == children[children.len() - 1],
{
}

/// The child that moved remembers its new slot, and no other record changes.
pub proof fn law_moved_children_know_it(
    procs: Seq<ProcRecord>,
    children: Seq<usize>,
    i: int,
    k: int,
    j: int,
)
    requires
        table_wf(procs),
        0 <= i < children.len() <= usize::MAX,
        0 <= k < procs.len(),
        0 <= j < procs.len(),
        procs[k].pid == children[children.len() - 1],
    ensures
        ({
            let t = reslotted(procs, children, i);
            &&& t.len() == procs.len()
            &&& i < children.len() - 1 ==> t[k].child_parent_index == Some(i as usize) && t[k].pid
                == procs[k].pid && t[k].parent == procs[k].parent
            &&& i == children.len() - 1 ==> t == procs
            &&& j != k ==> t[j] == procs[j]
        }),
{
    lemma_find_at(procs, k);
}

/// Occurrences in a list add up, wherever the list is cut.
pub proof fn law_occurrences_add_up(s: Seq<usize>, t: Seq<usize>, x: usize)
    ensures
        occurrences(s + t, x) == occurrences(s, x) + occurrences(t, x),
        occurrences(Seq::empty(), x) == 0,
        occurrences(seq![x], x) == 1,
        forall|y: usize| y != x ==> occurrences(#[trigger] seq![y], x) == 0,
    decreases t.len(),
{
    reveal_with_fuel(occurrences, 2);
    assert forall|y: usize| occurrences(#[trigger] seq![y], x) == if y == x {
        1nat
    } else {
        0
    } by {
        assert(seq![y].drop_last() =~= Seq::empty());
    }
    if t.len() == 0 {
        assert(s + t =~= s);
    } else {
        law_occurrences_add_up(s, t.drop_last(), x);
        assert((s + t).drop_last() =~= s + t.drop_last());
    }
}

/// One process more adds the references that it holds: its threads, those that wait for
/// children or for a child of `vfork`, those that wait for the end of threads, and those
/// that wait for locks.
pub proof fn law_references(s: Seq<ProcessRefs>, p: ProcessRefs, x: usize)
    ensures
        slot_refs(s.push(p), x) == slot_refs(s, x) + occurrences(p.tasks@, x),
        wait_refs(s.push(p), x) == wait_refs(s, x) + occurrences(p.wait_queue@, x) + occurrences(
            p.vfork_wait_queue@,
            x,
        ),
        join_refs(s.push(p), x) == join_refs(s, x) + occurrences_in_all(p.join_waiters@, x),
        sync_refs(s.push(p), x) == sync_refs(s, x) + occurrences_in_all(p.sync_waiters@, x),
        slot_refs(Seq::empty(), x) == 0,
        wait_refs(Seq::empty(), x) == 0,
        join_refs(Seq::empty(), x) == 0,
        sync_refs(Seq::empty(), x) == 0,
{
    assert(s.push(p).drop_last() =~= s);
}

/// Lists are counted together.
pub proof fn law_lists_are_counted_together(s: Seq<Vec<usize>>, v: Vec<usize>, x: usize)
    ensures
        occurrences_in_all(s.push(v), x) == occurrences_in_all(s, x) + occurrences(v@, x),
        occurrences_in_all(Seq::empty(), x) == 0,
{
    assert(s.push(v).drop_last() =~= s);
}

/// Counts stop at the greatest number.
pub proof fn law_counts_stop(n: nat)
    ensures
        n <= usize::MAX ==> capped(n) == n,
        n >= usize::MAX ==> capped(n) == usize::MAX,
{
}

/// The first sixteen forks in a row are reported, and then every 128th.
pub proof fn law_reported_forks(count: usize, k: int, r: int)
    requires
        count == 128 * k + r,
        0 <= r < 128,
    ensures
        reports_fork(count) <==> count <= 16 || r == 0,
{
}

/// Starting a file counts one more execution of it and ending it one less; other files
/// are not touched, and what is no file is never counted.
pub proof fn law_executions_are_counted(
    a: ExecutingInodes,
    b: ExecutingInodes,
    dev: usize,
    ino: u32,
    d: usize,
    n: u32,
)
    requires
        a.count_of(dev, ino) < usize::MAX,
    ensures
        counted_up(a, b, dev, ino) ==> {
            &&& dev != 0 || ino != 0 ==> b.count_of(dev, ino) == a.count_of(dev, ino) + 1
            &&& d != dev || n != ino ==> b.count_of(d, n) == a.count_of(d, n)
            &&& b.count_of(0, 0) == a.count_of(0, 0)
        },
        counted_down(a, b, dev, ino) ==> {
            &&& dev != 0 || ino != 0 ==> (a.count_of(dev, ino) > 0 ==> b.count_of(dev, ino)
                == a.count_of(dev, ino) - 1) && (a.count_of(dev, ino) == 0 ==> b.count_of(dev, ino)
                == 0)
            &&& d != dev || n != ino ==> b.count_of(d, n) == a.count_of(d, n)
            &&& b.count_of(0, 0) == a.count_of(0, 0)
        },
{
}

/// The executions of a file stand in its entry.
pub proof fn law_entries_of_files(a: ExecutingInodes, i: int, dev: usize, ino: u32)
    requires
        a.wf(),
    ensures
        0 <= i < a.entries@.len() ==> a.count_of(a.entries@[i].dev, a.entries@[i].ino)
            == a.entries@[i].count,
        (forall|j: int|
            0 <= j < a.entries@.len() ==> (#[trigger] a.entries@[j]).dev != dev
                || a.entries@[j].ino != ino) ==> a.count_of(dev, ino) == 0,
{
    if 0 <= i < a.entries@.len() {
        lemma_entry(a, a.entries@[i].dev, a.entries@[i].ino, i, 0);
    }
    lemma_no_entry(a, dev, ino, 0);
}

proof fn lemma_entry(a: ExecutingInodes, dev: usize, ino: u32, i: int, k: int)
    requires
        a.wf(),
        0 <= k <= i < a.entries@.len(),
        a.entries@[i].dev == dev,
        a.entries@[i].ino == ino,
    ensures
        inode_from(a.entries@, dev, ino, k) == Some(i),
    decreases i - k,
{
    if k < i {
        assert(a.entries@[k].dev != a.entries@[i].dev || a.entries@[k].ino != a.entries@[i].ino);
        lemma_entry(a, dev, ino, i, k + 1);
    }
}

proof fn lemma_no_entry(a: ExecutingInodes, dev: usize, ino: u32, k: int)
    requires
        0 <= k,
    ensures
        (forall|j: int|
            0 <= j < a.entries@.len() ==> (#[trigger] a.entries@[j]).dev != dev
                || a.entries@[j].ino != ino) ==> inode_from(
            a.entries@,
            dev,
            ino,
            k,
        ) is None,
    decreases a.entries@.len() - k,
{
    if k < a.entries@.len() {
        assert(a.entries@[k] == a.entries@[k]);
        lemma_no_entry(a, dev, ino, k + 1);
    }
}

} // verus!
