//! Moving a new child to another parent, and taking back a child that was never
//! started.

use vstd::prelude::*;
use crate::process::family::{
    child_slot, detached, find_child_slot, law_detach_keeps_slots, lemma_reslotted,
    lemma_slot_from, remove_child_at, reslotted, slots_ok,
};
use crate::process::table::{
    find, lemma_find, lemma_find_at, lemma_find_same_pids, lemma_update_wf, pid2process,
    remove_from_pid2process, table_wf, ProcRecord,
};

verus! {

/// What is given back when a child is taken back, in this order.
#[derive(Clone, Copy, PartialEq, Eq, Structural)]
pub enum RollbackAction {
    LeaveCgroup,
    ReleaseFiles,
    /// Forget the packet rings that the child's own address space maps.
    ClearPacketRings,
    /// Detach the shared memory that the child inherited.
    UndoShm,
    UnregisterExecutable,
    ReleaseNetNamespace,
}

/// The parent of `caller` that can take another child: it is alive and not on
/// its way out.
pub open spec fn adopter(procs: Seq<ProcRecord>, caller: usize, live_threads: usize) -> Option<
    usize,
> {
    match find(procs, caller) {
        Some(k) => match procs[k].parent {
            Some(p) => match find(procs, p) {
                Some(m) => if !procs[m].is_zombie && !procs[m].exit_teardown && live_threads != 0 {
                    Some(p)
                } else {
                    None
                },
                None => None,
            },
            None => None,
        },
        None => None,
    }
}

/// The table after `child` was handed to `parent`, as its last child.
pub open spec fn adopted(
    procs: Seq<ProcRecord>,
    child: usize,
    parent: usize,
    slot: usize,
) -> Seq<ProcRecord> {
    match find(procs, child) {
        Some(k) => procs.update(
            k,
            ProcRecord { parent: Some(parent), child_parent_index: Some(slot), ..procs[k] },
        ),
        None => procs,
    }
}

proof fn lemma_adopted_slots(
    procs: Seq<ProcRecord>,
    list: Seq<usize>,
    child: usize,
    parent: usize,
    slot: usize,
)
    requires
        table_wf(procs),
        slots_ok(procs, list),
        !list.contains(child),
    ensures
        slots_ok(adopted(procs, child, parent, slot), list),
{
    let after = adopted(procs, child, parent, slot);
    lemma_find(procs, child);
    assert forall|i: int| 0 <= i < procs.len() implies #[trigger] procs[i].pid == after[i].pid by {}
    assert forall|i: int| 0 <= i < list.len() implies (#[trigger] find(after, list[i])) is Some
        && after[find(after, list[i])->0].child_parent_index == Some(i as usize) by {
        lemma_find_same_pids(procs, after, list[i], 0);
        lemma_find(procs, list[i]);
        assert(list.contains(list[i]));
        assert(find(procs, list[i]) is Some);
    }
}

proof fn lemma_reslotted_other(
    procs: Seq<ProcRecord>,
    children: Seq<usize>,
    index: int,
    list: Seq<usize>,
)
    requires
        table_wf(procs),
        slots_ok(procs, list),
        0 <= index < children.len(),
        !list.contains(children.last()),
    ensures
        slots_ok(reslotted(procs, children, index), list),
{
    let after = reslotted(procs, children, index);
    lemma_reslotted(procs, children, index);
    lemma_find(procs, children.last());
    assert forall|i: int| 0 <= i < list.len() implies (#[trigger] find(after, list[i])) is Some
        && after[find(after, list[i])->0].child_parent_index == Some(i as usize) by {
        lemma_find_same_pids(procs, after, list[i], 0);
        lemma_find(procs, list[i]);
        assert(list.contains(list[i]));
        assert(find(procs, list[i]) is Some);
    }
}

proof fn lemma_push_slot(procs: Seq<ProcRecord>, list: Seq<usize>, child: usize)
    requires
        slots_ok(procs, list),
        !list.contains(child),
        find(procs, child) is Some,
        procs[find(procs, child)->0].child_parent_index == Some(list.len() as usize),
        list.len() < usize::MAX,
    ensures
        slots_ok(procs, list.push(child)),
{
    let after = list.push(child);
    assert forall|i: int| 0 <= i < after.len() implies (#[trigger] find(procs, after[i])) is Some
        && procs[find(procs, after[i])->0].child_parent_index == Some(i as usize) by {
        if i < list.len() {
            assert(find(procs, list[i]) is Some);
        }
    }
    assert forall|i: int, j: int| 0 <= i < j < after.len() implies #[trigger] after[i]
        != #[trigger] after[j] by {
        if j == list.len() {
            assert(list.contains(list[i]));
        }
    }
}

/// Hands `child`, a new child of `caller`, to the parent of `caller`.
///
/// Fails, and changes nothing, if that parent is gone or on its way out, or if
/// `child` is no child of `caller`. `live_threads` counts the parent's threads.
pub fn reparent_child(
    procs: &mut Vec<ProcRecord>,
    caller_children: &mut Vec<usize>,
    parent_children: &mut Vec<usize>,
    caller: usize,
    child: usize,
    live_threads: usize,
) -> (done: bool)
    requires
        table_wf(old(procs)@),
        old(parent_children)@.len() < usize::MAX,
    ensures
        ({
            let p0 = old(procs)@;
            let slot = child_slot(p0, old(caller_children)@, child);
            let parent = adopter(p0, caller, live_threads);
            &&& done == (parent is Some && slot is Some)
            &&& done ==> {
                &&& final(caller_children)@ == detached(old(caller_children)@, slot->0)
                &&& final(parent_children)@ == old(parent_children)@.push(child)
                &&& final(procs)@ == adopted(
                    reslotted(p0, old(caller_children)@, slot->0),
                    child,
                    parent->0,
                    old(parent_children)@.len() as usize,
                )
            }
            &&& !done ==> final(procs)@ == p0 && final(caller_children)@
                == old(caller_children)@ && final(parent_children)@ == old(parent_children)@
        }),
        table_wf(final(procs)@),
        done && slots_ok(old(procs)@, old(caller_children)@) && slots_ok(
            old(procs)@,
            old(parent_children)@,
        ) && (forall|c: usize|
            old(caller_children)@.contains(c) ==> !(#[trigger] old(parent_children)@.contains(c)))
            ==> slots_ok(final(procs)@, final(caller_children)@) && slots_ok(
            final(procs)@,
            final(parent_children)@,
        ),
{
    let ghost p0 = procs@;
    let ghost c0 = caller_children@;
    let ghost l0 = parent_children@;
    let caller_slot = match pid2process(procs, caller) {
        Some(k) => k,
        None => {
            return false;
        },
    };
    let parent = match procs[caller_slot].parent {
        Some(p) => p,
        None => {
            return false;
        },
    };
    let parent_slot = match pid2process(procs, parent) {
        Some(m) => m,
        None => {
            return false;
        },
    };
    let can_adopt = !procs[parent_slot].is_zombie && !procs[parent_slot].exit_teardown
        && live_threads != 0;
    if !can_adopt {
        return false;
    }
    let index = match find_child_slot(procs, caller_children, child) {
        Some(i) => i,
        None => {
            return false;
        },
    };
    let gone: usize = remove_child_at(caller_children, procs, index);
    let ghost p1 = procs@;
    let slot: usize = parent_children.len();
    if let Some(k) = pid2process(procs, child) {
        procs[k].parent = Some(parent);
        procs[k].child_parent_index = Some(slot);
    }
    parent_children.push(child);
    proof {
        assert(procs@ =~= adopted(p1, child, parent, slot));
        lemma_find(p1, child);
        lemma_update_wf(p1, procs@);
        if slots_ok(p0, c0) && slots_ok(p0, l0) && (forall|c: usize|
            c0.contains(c) ==> !(#[trigger] l0.contains(c))) {
            assert(c0.contains(c0[index as int]) && c0.contains(c0.last()));
            assert(!l0.contains(child) && !l0.contains(c0.last()));
            law_detach_keeps_slots(p0, c0, index as int);
            lemma_reslotted(p0, c0, index as int);
            lemma_reslotted_other(p0, c0, index as int, l0);
            lemma_adopted_slots(p1, caller_children@, child, parent, slot);
            lemma_adopted_slots(p1, l0, child, parent, slot);
            assert(find(p0, c0[index as int]) is Some);
            lemma_find_same_pids(p0, p1, child, 0);
            lemma_find_same_pids(p1, procs@, child, 0);
            lemma_push_slot(procs@, l0, child);
        }
    }
    true
}

/// The record of a child that was taken back, as holders of it still see it:
/// nobody can wait for it or adopt it.
pub open spec fn withdrawn(r: ProcRecord) -> ProcRecord {
    ProcRecord {
        wait_reaped: true,
        exit_teardown: true,
        parent: None,
        exit_queue_of: if r.parent is Some {
            None
        } else {
            r.exit_queue_of
        },
        child_parent_index: None,
        ..r
    }
}

pub open spec fn rollback_actions(share_vm: bool, has_shm: bool) -> Seq<RollbackAction> {
    if share_vm {
        seq![
            RollbackAction::LeaveCgroup,
            RollbackAction::ReleaseFiles,
            RollbackAction::UnregisterExecutable,
            RollbackAction::ReleaseNetNamespace,
        ]
    } else if has_shm {
        seq![
            RollbackAction::LeaveCgroup,
            RollbackAction::ReleaseFiles,
            RollbackAction::ClearPacketRings,
            RollbackAction::UndoShm,
            RollbackAction::UnregisterExecutable,
            RollbackAction::ReleaseNetNamespace,
        ]
    } else {
        seq![
            RollbackAction::LeaveCgroup,
            RollbackAction::ReleaseFiles,
            RollbackAction::ClearPacketRings,
            RollbackAction::UnregisterExecutable,
            RollbackAction::ReleaseNetNamespace,
        ]
    }
}

proof fn lemma_removed_slots(procs: Seq<ProcRecord>, list: Seq<usize>, child: usize)
    requires
        table_wf(procs),
        slots_ok(procs, list),
        !list.contains(child),
    ensures
        find(procs, child) matches Some(k) ==> slots_ok(procs.remove(k), list),
{
    lemma_find(procs, child);
    if let Some(k) = find(procs, child) {
        let after = procs.remove(k);
        assert forall|i: int| 0 <= i < list.len() implies (#[trigger] find(after, list[i])) is Some
            && after[find(after, list[i])->0].child_parent_index == Some(i as usize) by {
            assert(find(procs, list[i]) is Some);
            assert(list.contains(list[i]));
            lemma_find(procs, list[i]);
            lemma_find(after, list[i]);
            let j = find(procs, list[i])->0;
            let at = if j < k {
                j
            } else {
                j - 1
            };
            assert(after[at] == procs[j]);
            let m = find(after, list[i])->0;
            let back = if m < k {
                m
            } else {
                m + 1
            };
            assert(after[m] == procs[back]);
            lemma_find_at(procs, back);
        }
    }
}

/// Takes back a child that was never started.
///
/// `parent_children` is the list of the child's parent, and empty if the child
/// has none; the child leaves it. Memory that the child only shares is left alone.
pub fn rollback_unstarted_child(
    procs: &mut Vec<ProcRecord>,
    parent_children: &mut Vec<usize>,
    child: usize,
    share_vm: bool,
    has_shm: bool,
) -> (r: (Option<ProcRecord>, Vec<RollbackAction>))
    requires
        table_wf(old(procs)@),
    ensures
        ({
            let p0 = old(procs)@;
            let c0 = old(parent_children)@;
            match find(p0, child) {
                Some(k) => {
                    let slot = if p0[k].parent is Some {
                        child_slot(p0, c0, child)
                    } else {
                        None
                    };
                    let moved = match slot {
                        Some(i) => reslotted(p0, c0, i),
                        None => p0,
                    };
                    &&& r.0 == Some(withdrawn(p0[k]))
                    &&& final(procs)@ == moved.remove(k)
                    &&& final(parent_children)@ == match slot {
                        Some(i) => detached(c0, i),
                        None => c0,
                    }
                },
                None => r.0 is None && final(procs)@ == p0 && final(parent_children)@ == c0,
            }
        }),
        r.1@ == rollback_actions(share_vm, has_shm),
        table_wf(final(procs)@),
        find(final(procs)@, child) is None,
        slots_ok(old(procs)@, old(parent_children)@) && (find(old(procs)@, child) matches Some(k)
            ==> old(procs)@[k].parent is Some) ==> !final(parent_children)@.contains(child)
            && slots_ok(final(procs)@, final(parent_children)@),
{
    let ghost p0 = procs@;
    let ghost c0 = parent_children@;
    let mut record: Option<ProcRecord> = None;
    if let Some(k) = pid2process(procs, child) {
        let before = procs[k];
        record =
        Some(
            ProcRecord {
                wait_reaped: true,
                exit_teardown: true,
                parent: None,
                exit_queue_of: if before.parent.is_some() {
                    None
                } else {
                    before.exit_queue_of
                },
                child_parent_index: None,
                ..before
            },
        );
        if before.parent.is_some() {
            if let Some(index) = find_child_slot(procs, parent_children, child) {
                let gone: usize = remove_child_at(parent_children, procs, index);
                proof {
                    lemma_reslotted(p0, c0, index as int);
                    lemma_find_same_pids(p0, procs@, child, 0);
                }
            }
        }
    }
    let ghost p1 = procs@;
    remove_from_pid2process(procs, child);
    proof {
        if slots_ok(p0, c0) && (find(p0, child) matches Some(k) ==> p0[k].parent is Some) {
            if let Some(i) = child_slot(p0, c0, child) {
                lemma_slot_from(c0, child, 0);
                assert(find(p0, c0[i]) is Some);
                law_detach_keeps_slots(p0, c0, i);
                assert(slots_ok(p1, parent_children@));
            } else {
                lemma_slot_from(c0, child, 0);
            }
            lemma_removed_slots(p1, parent_children@, child);
        }
    }
    let mut actions: Vec<RollbackAction> = Vec::new();
    actions.push(RollbackAction::LeaveCgroup);
    actions.push(RollbackAction::ReleaseFiles);
    if !share_vm {
        actions.push(RollbackAction::ClearPacketRings);
        if has_shm {
            actions.push(RollbackAction::UndoShm);
        }
    }
    actions.push(RollbackAction::UnregisterExecutable);
    actions.push(RollbackAction::ReleaseNetNamespace);
    assert(actions@ =~= rollback_actions(share_vm, has_shm));
    (record, actions)
}

} // verus!
