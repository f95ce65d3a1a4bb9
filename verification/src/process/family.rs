//! The list of children of a process, and the slot that each child remembers.

use vstd::prelude::*;
use crate::process::queue::distinct;
use crate::process::table::{
    find, lemma_find, lemma_find_same_pids, pid2process, same_pids, table_wf, ProcRecord,
};

verus! {

/// The list after the child in slot `i` left: the last child takes its slot.
pub open spec fn detached(children: Seq<usize>, i: int) -> Seq<usize> {
    children.update(i, children.last()).drop_last()
}

/// The table after slot `i` was vacated: the child that moved there notes it.
pub open spec fn reslotted(procs: Seq<ProcRecord>, children: Seq<usize>, i: int) -> Seq<
    ProcRecord,
> {
    if i < children.len() - 1 {
        match find(procs, children.last()) {
            Some(k) => procs.update(
                k,
                ProcRecord { child_parent_index: Some(i as usize), ..procs[k] },
            ),
            None => procs,
        }
    } else {
        procs
    }
}

/// Every child is in the table and remembers its own slot.
pub open spec fn slots_ok(procs: Seq<ProcRecord>, children: Seq<usize>) -> bool {
    &&& distinct(children)
    &&& forall|i: int|
        0 <= i < children.len() ==> (#[trigger] find(procs, children[i])) is Some && procs[find(
            procs,
            children[i],
        )->0].child_parent_index == Some(i as usize)
}

/// The least slot of `child`, from `i` on.
pub open spec fn slot_from(children: Seq<usize>, child: usize, i: int) -> Option<int>
    decreases children.len() - i,
{
    if i >= children.len() {
        None
    } else if children[i] == child {
        Some(i)
    } else {
        slot_from(children, child, i + 1)
    }
}

/// The slot of `child`: the one that it remembers, if that is right, else the
/// first one that holds it.
pub open spec fn child_slot(procs: Seq<ProcRecord>, children: Seq<usize>, child: usize) -> Option<
    int,
> {
    let noted = match find(procs, child) {
        Some(k) => procs[k].child_parent_index,
        None => None,
    };
    match noted {
        Some(i) => if i < children.len() && children[i as int] == child {
            Some(i as int)
        } else {
            slot_from(children, child, 0)
        },
        None => slot_from(children, child, 0),
    }
}

pub proof fn lemma_slot_from(children: Seq<usize>, child: usize, i: int)
    requires
        0 <= i <= children.len(),
    ensures
        match slot_from(children, child, i) {
            Some(k) => i <= k < children.len() && children[k] == child,
            None => forall|j: int| i <= j < children.len() ==> children[j] != child,
        },
    decreases children.len() - i,
{
    if i < children.len() && children[i] != child {
        lemma_slot_from(children, child, i + 1);
    }
}

pub proof fn lemma_reslotted(procs: Seq<ProcRecord>, children: Seq<usize>, i: int)
    ensures
        same_pids(procs, reslotted(procs, children, i)),
        table_wf(procs) ==> table_wf(reslotted(procs, children, i)),
{
    let after = reslotted(procs, children, i);
    if i < children.len() - 1 {
        lemma_find(procs, children.last());
    }
    assert forall|j: int| 0 <= j < procs.len() implies #[trigger] procs[j].pid == after[j].pid
        && procs[j].exit_code == after[j].exit_code by {}
    if table_wf(procs) {
        assert forall|a: int, b: int| 0 <= a < b < after.len() implies #[trigger] after[a].pid
            != #[trigger] after[b].pid by {
            assert(procs[a].pid != procs[b].pid);
        }
        assert forall|a: int| 0 <= a < after.len() implies #[trigger] after[a].exit_code
            > i32::MIN by {
            assert(procs[a].exit_code > i32::MIN);
        }
    }
}

/// Taking a child out of the list keeps every other child's note right.
pub proof fn law_detach_keeps_slots(procs: Seq<ProcRecord>, children: Seq<usize>, i: int)
    requires
        table_wf(procs),
        slots_ok(procs, children),
        0 <= i < children.len() <= usize::MAX,
    ensures
        slots_ok(reslotted(procs, children, i), detached(children, i)),
        !detached(children, i).contains(children[i]),
{
    let after = reslotted(procs, children, i);
    let rest = detached(children, i);
    lemma_reslotted(procs, children, i);
    assert forall|j: int| 0 <= j < rest.len() implies (#[trigger] find(after, rest[j])) is Some
        && after[find(after, rest[j])->0].child_parent_index == Some(j as usize) && rest[j]
        != children[i] by {
        lemma_find_same_pids(procs, after, rest[j], 0);
        lemma_find(procs, rest[j]);
        let last = children.len() - 1;
        if j == i {
            assert(rest[j] == children[last]);
            assert(find(procs, children[last]) is Some);
            assert(children[i] != children[last]);
        } else {
            assert(rest[j] == children[j]);
            assert(find(procs, children[j]) is Some);
            assert(children[j] != children[i]);
            if i < last {
                assert(children[j] != children[last]);
                assert(find(procs, children[last]) is Some);
                lemma_find(procs, children[last]);
                lemma_find(procs, children[j]);
            }
        }
    }
    assert forall|a: int, b: int| 0 <= a < b < rest.len() implies #[trigger] rest[a]
        != #[trigger] rest[b] by {
        let last = children.len() - 1;
        let a0 = if a == i { last } else { a };
        let b0 = if b == i { last } else { b };
        assert(rest[a] == children[a0] && rest[b] == children[b0]);
    }
}

/// Finds the slot of a child.
pub fn find_child_slot(procs: &Vec<ProcRecord>, children: &Vec<usize>, child: usize) -> (r: Option<
    usize,
>)
    ensures
        match r {
            Some(i) => i < children.len() && children@[i as int] == child && child_slot(
                procs@,
                children@,
                child,
            ) == Some(i as int),
            None => child_slot(procs@, children@, child) is None && !children@.contains(child),
        },
{
    if let Some(k) = pid2process(procs, child) {
        if let Some(i) = procs[k].child_parent_index {
            if i < children.len() && children[i] == child {
                return Some(i);
            }
        }
    }
    let mut i: usize = 0;
    while i < children.len()
        invariant
            i <= children.len(),
            child_slot(procs@, children@, child) == slot_from(children@, child, 0),
            slot_from(children@, child, 0) == slot_from(children@, child, i as int),
        decreases children.len() - i,
    {
        if children[i] == child {
            return Some(i);
        }
        i += 1;
    }
    proof {
        lemma_slot_from(children@, child, 0);
    }
    None
}

/// Takes the child in slot `index` out of the list.
pub fn remove_child_at(
    children: &mut Vec<usize>,
    procs: &mut Vec<ProcRecord>,
    index: usize,
) -> (child: usize)
    requires
        index < old(children).len(),
        table_wf(old(procs)@),
    ensures
        child == old(children)@[index as int],
        final(children)@ == detached(old(children)@, index as int),
        final(procs)@ == reslotted(old(procs)@, old(children)@, index as int),
        table_wf(final(procs)@),
{
    let last: usize = children.len() - 1;
    let moved: usize = children[last];
    let child: usize = children.swap_remove(index);
    if index < last {
        if let Some(k) = pid2process(procs, moved) {
            procs[k].child_parent_index = Some(index);
        }
    }
    proof {
        lemma_reslotted(old(procs)@, old(children)@, index as int);
        assert(procs@ =~= reslotted(old(procs)@, old(children)@, index as int));
    }
    child
}

} // verus!
