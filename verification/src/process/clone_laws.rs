//! What the steps of `clone` come to, flag by flag.

use vstd::prelude::*;
use crate::bytes::le64;
use crate::errno::{E2BIG, EAGAIN, EBADF, EFAULT, EINVAL, EPERM};
use crate::process::clone::{
    child_actions, clear_tid, clone_actions, clone_rejects, clone_request, failure_of,
    flagged, fork_actions, is_thread, namespace_actions, nonzero, process_actions,
    sets_parent_tid, step_if, thread_actions, CloneAbi, CloneAction, CloneCaller, CloneFailure,
    CloneRequest, CLONE_CHILD_SETTID, CLONE_DETACHED, CLONE_FILES, CLONE_FS, CLONE_NEWCGROUP, CLONE_NEWIPC,
    CLONE_NEWNET, CLONE_NEWNS, CLONE_NEWPID, CLONE_NEWUTS, CLONE_PARENT, CLONE_PARENT_SETTID,
    CLONE_SETTLS, CLONE_SIGNAL_MASK, CLONE_VFORK, CLONE_VM,
};
use crate::process::clone3::{
    args_error, clone3_rejects, clone3_request, decoded, CgroupLookup, Clone3Args,
    SUPPORTED_CLONE3_FLAGS,
};

verus! {

/// A list that grew by a step holds what it held before, and that step.
proof fn lemma_step(s: Seq<CloneAction>, c: bool, a: CloneAction, x: CloneAction)
    ensures
        step_if(s, c, a).contains(x) <==> s.contains(x) || (c && x == a),
        s.push(a).contains(x) <==> s.contains(x) || x == a,
{
    let p = s.push(a);
    if s.contains(x) {
        let i = choose|i: int| 0 <= i < s.len() && s[i] == x;
        assert(p[i] == x);
    }
    if x == a {
        assert(p[s.len() as int] == x);
    }
    if p.contains(x) {
        let i = choose|i: int| 0 <= i < p.len() && p[i] == x;
        if i < s.len() {
            assert(s[i] == x);
        }
    }
}

/// The steps of creating a process, one by one.
pub open spec fn process_holds(r: CloneRequest, x: CloneAction) -> bool {
    let fl = r.flags;
    let tid = if fl & 0x20_0000 != 0 && r.child_tid != 0 {
        Some(r.child_tid)
    } else {
        None
    };
    let tells = fl & 0x10_0000 != 0 && r.parent_tid != 0;
    match x {
        CloneAction::TouchParentTid(p) => tells && fl & 0x100 != 0 && p == r.parent_tid,
        CloneAction::PrecheckCgroup => true,
        CloneAction::Fork { share_files, share_vm, share_fs } => share_files == (fl & 0x400 != 0)
            && share_vm == (fl & 0x100 != 0) && share_fs == (fl & 0x200 != 0),
        CloneAction::NewIpcNamespace => fl & 0x800_0000 != 0,
        CloneAction::NewUtsNamespace => fl & 0x400_0000 != 0,
        CloneAction::NewMountNamespace => fl & 0x2_0000 != 0,
        CloneAction::NewNetNamespace => fl & 0x4000_0000 != 0,
        CloneAction::NewCgroupNamespace => fl & 0x200_0000 != 0,
        CloneAction::NewPidNamespace => fl & 0x2000_0000 != 0,
        CloneAction::SetExitSignal(sig) => sig == fl & 0xff,
        CloneAction::AttachProcessCgroup => r.into_cgroup,
        CloneAction::BuildProcess { sp, clear_tid } => sp == (if r.stack == 0 {
            None
        } else {
            Some(r.stack)
        }) && clear_tid == tid,
        CloneAction::Reparent => fl & 0x8000 != 0,
        CloneAction::WriteParentTid(p) => tells && p == r.parent_tid,
        CloneAction::WriteChildTid(p) => fl & 0x100_0000 != 0 && r.child_tid != 0 && p
            == r.child_tid,
        CloneAction::InstallPidfd(p) => r.pidfd_ptr == Some(p),
        CloneAction::RegisterSharedMm => fl & 0x100 != 0,
        CloneAction::StartProcess => true,
        CloneAction::WaitForChild => fl & 0x4000 != 0,
        _ => false,
    }
}

proof fn lemma_fork_part(r: CloneRequest, x: CloneAction)
    ensures
        fork_actions(r).contains(x) <==> (rank(x) <= 2 && process_holds(r, x)),
{
    let fl = r.flags;
    let e = Seq::<CloneAction>::empty();
    let touch = flagged(fl, CLONE_VM) && sets_parent_tid(r);
    lemma_step(e, touch, CloneAction::TouchParentTid(r.parent_tid), x);
    let a0 = step_if(e, touch, CloneAction::TouchParentTid(r.parent_tid));
    lemma_step(a0, true, CloneAction::PrecheckCgroup, x);
    let a1 = a0.push(CloneAction::PrecheckCgroup);
    let fork = CloneAction::Fork {
        share_files: flagged(fl, CLONE_FILES),
        share_vm: flagged(fl, CLONE_VM),
        share_fs: flagged(fl, CLONE_FS),
    };
    lemma_step(a1, true, fork, x);
}

proof fn lemma_namespace_part(s0: Seq<CloneAction>, r: CloneRequest, x: CloneAction)
    ensures
        namespace_actions(s0, r.flags).contains(x) <==> s0.contains(x) || (3 <= rank(x) <= 8
            && process_holds(r, x)),
{
    let fl = r.flags;
    lemma_step(s0, flagged(fl, CLONE_NEWIPC), CloneAction::NewIpcNamespace, x);
    let s1 = step_if(s0, flagged(fl, CLONE_NEWIPC), CloneAction::NewIpcNamespace);
    lemma_step(s1, flagged(fl, CLONE_NEWUTS), CloneAction::NewUtsNamespace, x);
    let s2 = step_if(s1, flagged(fl, CLONE_NEWUTS), CloneAction::NewUtsNamespace);
    lemma_step(s2, flagged(fl, CLONE_NEWNS), CloneAction::NewMountNamespace, x);
    let s3 = step_if(s2, flagged(fl, CLONE_NEWNS), CloneAction::NewMountNamespace);
    lemma_step(s3, flagged(fl, CLONE_NEWNET), CloneAction::NewNetNamespace, x);
    let s4 = step_if(s3, flagged(fl, CLONE_NEWNET), CloneAction::NewNetNamespace);
    lemma_step(s4, flagged(fl, CLONE_NEWCGROUP), CloneAction::NewCgroupNamespace, x);
    let s5 = step_if(s4, flagged(fl, CLONE_NEWCGROUP), CloneAction::NewCgroupNamespace);
    lemma_step(s5, flagged(fl, CLONE_NEWPID), CloneAction::NewPidNamespace, x);
}

proof fn lemma_child_part(n: Seq<CloneAction>, r: CloneRequest, x: CloneAction)
    ensures
        child_actions(n, r).contains(x) <==> n.contains(x) || (9 <= rank(x) <= 16
            && process_holds(r, x)),
{
    let fl = r.flags;
    let sig = CloneAction::SetExitSignal(fl & CLONE_SIGNAL_MASK);
    lemma_step(n, true, sig, x);
    let c1 = n.push(sig);
    lemma_step(c1, r.into_cgroup, CloneAction::AttachProcessCgroup, x);
    let c2 = step_if(c1, r.into_cgroup, CloneAction::AttachProcessCgroup);
    let build = CloneAction::BuildProcess { sp: nonzero(r.stack), clear_tid: clear_tid(r) };
    lemma_step(c2, true, build, x);
    let c3 = c2.push(build);
    lemma_step(c3, flagged(fl, CLONE_PARENT), CloneAction::Reparent, x);
    let c4 = step_if(c3, flagged(fl, CLONE_PARENT), CloneAction::Reparent);
    lemma_step(c4, sets_parent_tid(r), CloneAction::WriteParentTid(r.parent_tid), x);
    let c5 = step_if(c4, sets_parent_tid(r), CloneAction::WriteParentTid(r.parent_tid));
    let writes = flagged(fl, CLONE_CHILD_SETTID) && r.child_tid != 0;
    lemma_step(c5, writes, CloneAction::WriteChildTid(r.child_tid), x);
    let c6 = step_if(c5, writes, CloneAction::WriteChildTid(r.child_tid));
    let c7 = match r.pidfd_ptr {
        Some(p) => c6.push(CloneAction::InstallPidfd(p)),
        None => c6,
    };
    if let Some(p) = r.pidfd_ptr {
        lemma_step(c6, true, CloneAction::InstallPidfd(p), x);
    }
    lemma_step(c7, flagged(fl, CLONE_VM), CloneAction::RegisterSharedMm, x);
}

proof fn lemma_process(r: CloneRequest, x: CloneAction)
    ensures
        process_actions(r).contains(x) <==> process_holds(r, x),
{
    let s0 = fork_actions(r);
    let n = namespace_actions(s0, r.flags);
    let c8 = child_actions(n, r);
    lemma_fork_part(r, x);
    lemma_namespace_part(s0, r, x);
    lemma_child_part(n, r, x);
    lemma_step(c8, true, CloneAction::StartProcess, x);
    let c9 = c8.push(CloneAction::StartProcess);
    lemma_step(c9, flagged(r.flags, CLONE_VFORK), CloneAction::WaitForChild, x);
}

/// A request makes a thread if the bits 0x10000 and 0x100 of its flags are set,
/// and else a process: then exactly one child is forked, and started.
pub proof fn law_threads_and_processes(r: CloneRequest)
    ensures
        ({
            let all = clone_actions(r);
            let thread = r.flags & 0x1_0000 != 0 && r.flags & 0x100 != 0;
            &&& all.contains(CloneAction::CreateThread) <==> thread
            &&& all.contains(CloneAction::StartThread) <==> thread
            &&& all.contains(CloneAction::StartProcess) <==> !thread
            &&& (exists|i: int| 0 <= i < all.len() && (#[trigger] all[i]) is Fork) <==> !thread
        }),
{
    let all = clone_actions(r);
    let fork = CloneAction::Fork {
        share_files: r.flags & 0x400 != 0,
        share_vm: r.flags & 0x100 != 0,
        share_fs: r.flags & 0x200 != 0,
    };
    if is_thread(r.flags) {
        lemma_thread(r, CloneAction::CreateThread);
        lemma_thread(r, CloneAction::StartThread);
        lemma_thread(r, CloneAction::StartProcess);
        assert forall|i: int| 0 <= i < all.len() implies !((#[trigger] all[i]) is Fork) by {
            lemma_thread(r, all[i]);
            assert(all.contains(all[i]));
        }
    } else {
        lemma_process(r, CloneAction::CreateThread);
        lemma_process(r, CloneAction::StartThread);
        lemma_process(r, CloneAction::StartProcess);
        lemma_process(r, fork);
        assert(all.contains(fork));
    }
}

/// A child process gets a new namespace of a kind exactly if the flag of that kind
/// is set: 0x20000 for mounts, 0x2000000 for control groups, 0x4000000 for host
/// names, 0x8000000 for IPC, 0x20000000 for process ids, 0x40000000 for the network.
pub proof fn law_namespaces_follow_the_flags(r: CloneRequest)
    requires
        r.flags & 0x1_0000 == 0 || r.flags & 0x100 == 0,
    ensures
        ({
            let all = clone_actions(r);
            &&& all.contains(CloneAction::NewMountNamespace) <==> r.flags & 0x2_0000 != 0
            &&& all.contains(CloneAction::NewCgroupNamespace) <==> r.flags & 0x200_0000 != 0
            &&& all.contains(CloneAction::NewUtsNamespace) <==> r.flags & 0x400_0000 != 0
            &&& all.contains(CloneAction::NewIpcNamespace) <==> r.flags & 0x800_0000 != 0
            &&& all.contains(CloneAction::NewPidNamespace) <==> r.flags & 0x2000_0000 != 0
            &&& all.contains(CloneAction::NewNetNamespace) <==> r.flags & 0x4000_0000 != 0
        }),
{
    lemma_process(r, CloneAction::NewMountNamespace);
    lemma_process(r, CloneAction::NewCgroupNamespace);
    lemma_process(r, CloneAction::NewUtsNamespace);
    lemma_process(r, CloneAction::NewIpcNamespace);
    lemma_process(r, CloneAction::NewPidNamespace);
    lemma_process(r, CloneAction::NewNetNamespace);
    assert(clone_actions(r) == process_actions(r));
}

/// Whatever a process request asks for is a step of its own, and nothing else is:
/// what is shared, the exit signal, the stack, the places that the child's id is
/// written to, the descriptor, the new parent, and whether the caller waits.
pub proof fn law_each_flag_is_a_step(r: CloneRequest, x: CloneAction)
    requires
        r.flags & 0x1_0000 == 0 || r.flags & 0x100 == 0,
    ensures
        clone_actions(r).contains(x) <==> process_holds(r, x),
{
    lemma_process(r, x);
    assert(clone_actions(r) == process_actions(r));
}

/// A child process shares files, memory and the file system's view exactly if the
/// flags 0x400, 0x100 and 0x200 are set, and signals its end with the low byte.
pub proof fn law_fork_shares_what_was_asked(r: CloneRequest, i: int)
    requires
        r.flags & 0x1_0000 == 0 || r.flags & 0x100 == 0,
        0 <= i < clone_actions(r).len(),
    ensures
        clone_actions(r)[i] matches CloneAction::Fork { share_files, share_vm, share_fs } ==> (
        share_files <==> r.flags & 0x400 != 0) && (share_vm <==> r.flags & 0x100 != 0) && (share_fs
            <==> r.flags & 0x200 != 0),
        clone_actions(r)[i] matches CloneAction::SetExitSignal(sig) ==> sig == r.flags % 256,
{
    let all = clone_actions(r);
    lemma_process(r, all[i]);
    assert(all == process_actions(r));
    assert(all.contains(all[i]));
    let f = r.flags;
    assert(f & 0xff == f % 256) by (bit_vector);
}

/// When a step of creating a process is taken: what may fail without a child comes
/// before the fork, and the child is started once it is complete.
pub open spec fn rank(a: CloneAction) -> int {
    match a {
        CloneAction::TouchParentTid(_) => 0,
        CloneAction::PrecheckCgroup => 1,
        CloneAction::Fork { .. } => 2,
        CloneAction::NewIpcNamespace => 3,
        CloneAction::NewUtsNamespace => 4,
        CloneAction::NewMountNamespace => 5,
        CloneAction::NewNetNamespace => 6,
        CloneAction::NewCgroupNamespace => 7,
        CloneAction::NewPidNamespace => 8,
        CloneAction::SetExitSignal(_) => 9,
        CloneAction::AttachProcessCgroup => 10,
        CloneAction::BuildProcess { .. } => 11,
        CloneAction::Reparent => 12,
        CloneAction::WriteParentTid(_) => 13,
        CloneAction::WriteChildTid(_) => 14,
        CloneAction::InstallPidfd(_) => 15,
        CloneAction::RegisterSharedMm => 16,
        CloneAction::StartProcess => 17,
        CloneAction::WaitForChild => 18,
        _ => 19,
    }
}

/// The steps are in order, and all of them before `n`.
pub open spec fn before(s: Seq<CloneAction>, n: int) -> bool {
    &&& forall|i: int, j: int|
        0 <= i < j < s.len() ==> rank(#[trigger] s[i]) < rank(#[trigger] s[j])
    &&& forall|i: int| 0 <= i < s.len() ==> rank(#[trigger] s[i]) < n
}

proof fn lemma_rank(s: Seq<CloneAction>, n: int, c: bool, a: CloneAction)
    requires
        before(s, n),
        n == rank(a),
    ensures
        before(step_if(s, c, a), n + 1),
        before(s.push(a), n + 1),
{
    let p = s.push(a);
    assert forall|i: int| 0 <= i < p.len() implies rank(#[trigger] p[i]) < n + 1 by {
        if i < s.len() {
            assert(p[i] == s[i]);
        }
    }
    assert forall|i: int, j: int| 0 <= i < j < p.len() implies rank(#[trigger] p[i]) < rank(
        #[trigger] p[j],
    ) by {
        assert(p[i] == s[i]);
        if j < s.len() {
            assert(p[j] == s[j]);
        }
    }
}

proof fn lemma_fork_ranks(r: CloneRequest)
    ensures
        before(fork_actions(r), 3),
{
    let fl = r.flags;
    let e = Seq::<CloneAction>::empty();
    let touch = flagged(fl, CLONE_VM) && sets_parent_tid(r);
    assert(before(e, 0));
    lemma_rank(e, 0, touch, CloneAction::TouchParentTid(r.parent_tid));
    let a0 = step_if(e, touch, CloneAction::TouchParentTid(r.parent_tid));
    lemma_rank(a0, 1, true, CloneAction::PrecheckCgroup);
    let a1 = a0.push(CloneAction::PrecheckCgroup);
    let fork = CloneAction::Fork {
        share_files: flagged(fl, CLONE_FILES),
        share_vm: flagged(fl, CLONE_VM),
        share_fs: flagged(fl, CLONE_FS),
    };
    lemma_rank(a1, 2, true, fork);
}

proof fn lemma_namespace_ranks(s0: Seq<CloneAction>, fl: u64)
    requires
        before(s0, 3),
    ensures
        before(namespace_actions(s0, fl), 9),
{
    lemma_rank(s0, 3, flagged(fl, CLONE_NEWIPC), CloneAction::NewIpcNamespace);
    let s1 = step_if(s0, flagged(fl, CLONE_NEWIPC), CloneAction::NewIpcNamespace);
    lemma_rank(s1, 4, flagged(fl, CLONE_NEWUTS), CloneAction::NewUtsNamespace);
    let s2 = step_if(s1, flagged(fl, CLONE_NEWUTS), CloneAction::NewUtsNamespace);
    lemma_rank(s2, 5, flagged(fl, CLONE_NEWNS), CloneAction::NewMountNamespace);
    let s3 = step_if(s2, flagged(fl, CLONE_NEWNS), CloneAction::NewMountNamespace);
    lemma_rank(s3, 6, flagged(fl, CLONE_NEWNET), CloneAction::NewNetNamespace);
    let s4 = step_if(s3, flagged(fl, CLONE_NEWNET), CloneAction::NewNetNamespace);
    lemma_rank(s4, 7, flagged(fl, CLONE_NEWCGROUP), CloneAction::NewCgroupNamespace);
    let s5 = step_if(s4, flagged(fl, CLONE_NEWCGROUP), CloneAction::NewCgroupNamespace);
    lemma_rank(s5, 8, flagged(fl, CLONE_NEWPID), CloneAction::NewPidNamespace);
}

proof fn lemma_child_ranks(n: Seq<CloneAction>, r: CloneRequest)
    requires
        before(n, 9),
    ensures
        before(child_actions(n, r), 17),
{
    let fl = r.flags;
    let sig = CloneAction::SetExitSignal(fl & CLONE_SIGNAL_MASK);
    lemma_rank(n, 9, true, sig);
    let c1 = n.push(sig);
    lemma_rank(c1, 10, r.into_cgroup, CloneAction::AttachProcessCgroup);
    let c2 = step_if(c1, r.into_cgroup, CloneAction::AttachProcessCgroup);
    let build = CloneAction::BuildProcess { sp: nonzero(r.stack), clear_tid: clear_tid(r) };
    lemma_rank(c2, 11, true, build);
    let c3 = c2.push(build);
    lemma_rank(c3, 12, flagged(fl, CLONE_PARENT), CloneAction::Reparent);
    let c4 = step_if(c3, flagged(fl, CLONE_PARENT), CloneAction::Reparent);
    lemma_rank(c4, 13, sets_parent_tid(r), CloneAction::WriteParentTid(r.parent_tid));
    let c5 = step_if(c4, sets_parent_tid(r), CloneAction::WriteParentTid(r.parent_tid));
    let writes = flagged(fl, CLONE_CHILD_SETTID) && r.child_tid != 0;
    lemma_rank(c5, 14, writes, CloneAction::WriteChildTid(r.child_tid));
    let c6 = step_if(c5, writes, CloneAction::WriteChildTid(r.child_tid));
    let c7 = match r.pidfd_ptr {
        Some(p) => c6.push(CloneAction::InstallPidfd(p)),
        None => c6,
    };
    if let Some(p) = r.pidfd_ptr {
        lemma_rank(c6, 15, true, CloneAction::InstallPidfd(p));
    }
    lemma_rank(c7, 16, flagged(fl, CLONE_VM), CloneAction::RegisterSharedMm);
}

/// The child is forked before it is set up, gets its namespaces before it is
/// built, is built before its id is told, and is started last. No step is taken
/// twice.
pub proof fn law_steps_come_in_order(r: CloneRequest, i: int, j: int)
    requires
        r.flags & 0x1_0000 == 0 || r.flags & 0x100 == 0,
        0 <= i < j < clone_actions(r).len(),
    ensures
        rank(clone_actions(r)[i]) < rank(clone_actions(r)[j]),
{
    lemma_fork_ranks(r);
    let s0 = fork_actions(r);
    lemma_namespace_ranks(s0, r.flags);
    let n = namespace_actions(s0, r.flags);
    lemma_child_ranks(n, r);
    let c8 = child_actions(n, r);
    lemma_rank(c8, 17, true, CloneAction::StartProcess);
    let c9 = c8.push(CloneAction::StartProcess);
    lemma_rank(c9, 18, flagged(r.flags, CLONE_VFORK), CloneAction::WaitForChild);
    assert(clone_actions(r) == process_actions(r));
}

/// The steps of creating a thread, one by one.
pub open spec fn thread_holds(r: CloneRequest, x: CloneAction) -> bool {
    let fl = r.flags;
    match x {
        CloneAction::CheckGroup | CloneAction::CreateThread | CloneAction::PublishThread
        | CloneAction::StartThread => true,
        CloneAction::BuildThread { sp, tls, clear_tid } => {
            &&& sp == (if r.stack == 0 {
                None
            } else {
                Some(r.stack)
            })
            &&& tls == (if fl & 0x8_0000 != 0 {
                Some(r.tls)
            } else {
                None
            })
            &&& clear_tid == (if fl & 0x20_0000 != 0 && r.child_tid != 0 {
                Some(r.child_tid)
            } else {
                None
            })
        },
        CloneAction::AttachThreadCgroup { into } => into == r.into_cgroup,
        CloneAction::WriteThreadTid(p) => p != 0 && ((fl & 0x10_0000 != 0 && p == r.parent_tid) || (
        fl & 0x100_0000 != 0 && p == r.child_tid)),
        _ => false,
    }
}

proof fn lemma_thread(r: CloneRequest, x: CloneAction)
    ensures
        thread_actions(r).contains(x) <==> thread_holds(r, x),
{
    let build = CloneAction::BuildThread {
        sp: nonzero(r.stack),
        tls: if flagged(r.flags, CLONE_SETTLS) {
            Some(r.tls)
        } else {
            None
        },
        clear_tid: clear_tid(r),
    };
    let into = CloneAction::AttachThreadCgroup { into: r.into_cgroup };
    let e0 = Seq::<CloneAction>::empty();
    let e1 = e0.push(CloneAction::CheckGroup);
    let e2 = e1.push(CloneAction::CreateThread);
    let e3 = e2.push(build);
    let s0 = e3.push(into);
    assert(s0 =~= seq![CloneAction::CheckGroup, CloneAction::CreateThread, build, into]);
    lemma_step(e0, true, CloneAction::CheckGroup, x);
    lemma_step(e1, true, CloneAction::CreateThread, x);
    lemma_step(e2, true, build, x);
    lemma_step(e3, true, into, x);
    let tells = flagged(r.flags, CLONE_PARENT_SETTID) && r.parent_tid != 0;
    lemma_step(s0, tells, CloneAction::WriteThreadTid(r.parent_tid), x);
    let s1 = step_if(s0, tells, CloneAction::WriteThreadTid(r.parent_tid));
    let writes = flagged(r.flags, CLONE_CHILD_SETTID) && r.child_tid != 0;
    lemma_step(s1, writes, CloneAction::WriteThreadTid(r.child_tid), x);
    let s2 = step_if(s1, writes, CloneAction::WriteThreadTid(r.child_tid));
    lemma_step(s2, true, CloneAction::PublishThread, x);
    lemma_step(s2.push(CloneAction::PublishThread), true, CloneAction::StartThread, x);
}

/// Whatever a thread request asks for is a step of its own, and nothing else is.
pub proof fn law_each_thread_flag_is_a_step(r: CloneRequest, x: CloneAction)
    requires
        r.flags & 0x1_0000 != 0,
        r.flags & 0x100 != 0,
    ensures
        clone_actions(r).contains(x) <==> thread_holds(r, x),
        clone_actions(r)[0] is CheckGroup,
        clone_actions(r)[1] is CreateThread,
        clone_actions(r)[2] is BuildThread,
        clone_actions(r)[3] is AttachThreadCgroup,
        clone_actions(r).last() is StartThread,
        clone_actions(r)[clone_actions(r).len() - 2] is PublishThread,
{
    lemma_thread(r, x);
    assert(clone_actions(r) == thread_actions(r));
}

/// Requests that contradict themselves are refused with `EINVAL`; those that a
/// caller without privilege must not make with `EPERM`, unless they contradict
/// themselves; a null stack with `EINVAL` where the child needs one of its own.
/// Nothing else is refused.
pub proof fn law_refused_requests(r: CloneRequest, c: CloneCaller)
    ensures
        ({
            let f = r.flags;
            let handlers_without_memory = f & 0x800 != 0 && f & 0x100 == 0;
            let thread_without_handlers = f & 0x1_0000 != 0 && f & 0x800 == 0;
            let init_elsewhere = f & 0x2000_0000 != 0 && (f & 0x1_0000 != 0 || f & 0x8000 != 0);
            let sibling_of_init = f & 0x8000 != 0 && c.pid_namespace_init;
            let ipc_of_group = f & 0x800_0000 != 0 && (f & 0x1_0000 != 0 || f & 0x100 != 0);
            let mounts_and_shared = f & 0x2_0000 != 0 && f & 0x200 != 0;
            let contradicts = handlers_without_memory || thread_without_handlers || init_elsewhere
                || sibling_of_init || ipc_of_group || mounts_and_shared;
            let privileged = f & 0x2_0000 != 0 || f & 0x400_0000 != 0 || f & 0x200_0000 != 0;
            let no_stack = r.stack == 0 && (f & 0x1_0000 != 0 || f & 0x800 != 0 || f & 0x8_0000
                != 0 || (f & 0x100 != 0 && f & 0x4000 == 0) || (f % 256 == 0
                && !r.allow_detached_null_stack));
            let thread_pidfd = f & 0x1_0000 != 0 && f & 0x100 != 0 && r.pidfd_ptr is Some;
            &&& clone_rejects(r, c) == Some(EPERM) <==> !contradicts && privileged && c.euid != 0
            &&& clone_rejects(r, c) == Some(EINVAL) <==> contradicts || (!(privileged && c.euid
                != 0) && (no_stack || thread_pidfd))
            &&& clone_rejects(r, c) is Some ==> clone_rejects(r, c) == Some(EPERM)
                || clone_rejects(r, c) == Some(EINVAL)
        }),
{
    let f = r.flags;
    assert(f & 0xff == f % 256 && (f & (0x1_0000u64 | 0x800u64 | 0x8_0000u64) != 0) == (f & 0x1_0000
        != 0 || f & 0x800 != 0 || f & 0x8_0000 != 0) && (f & (0x1_0000u64 | 0x8000u64) != 0) == (f
        & 0x1_0000 != 0 || f & 0x8000 != 0) && (f & (0x2_0000u64 | 0x400_0000u64 | 0x200_0000u64)
        != 0) == (f & 0x2_0000 != 0 || f & 0x400_0000 != 0 || f & 0x200_0000 != 0))
        by (bit_vector);
}

/// The two orders of arguments differ in the last two only.
pub proof fn law_argument_orders(flags: u64, stack: u64, ptid: u64, tls: u64, ctid: u64)
    ensures
        clone_request(flags, stack, ptid, tls, ctid, CloneAbi::RiscV) == clone_request(
            flags,
            stack,
            ptid,
            ctid,
            tls,
            CloneAbi::LoongArch,
        ),
        ({
            let r = clone_request(flags, stack, ptid, tls, ctid, CloneAbi::RiscV);
            &&& r.flags == flags && r.stack == stack && r.parent_tid == ptid
            &&& r.tls == tls && r.child_tid == ctid
            &&& !r.into_cgroup && r.pidfd_ptr is None && !r.allow_detached_null_stack
        }),
{
}

/// A step that fails ends the call, with its own error unless the kind of the step
/// gives one; failures of the namespaces and of the last steps do not matter.
pub proof fn law_failures(a: CloneAction, e: isize)
    ensures
        failure_of(a, e) is Ignore <==> !(a is CheckGroup || a is CreateThread
            || a is AttachThreadCgroup || a is WriteThreadTid || a is PublishThread
            || a is PrecheckCgroup || a is Fork || a is AttachProcessCgroup || a is Reparent
            || a is WriteChildTid || a is InstallPidfd),
        a is CheckGroup ==> failure_of(a, e) == CloneFailure::Return(EAGAIN),
        a is PublishThread ==> failure_of(a, e) == CloneFailure::LeaveCgroup(EAGAIN),
        a is WriteThreadTid ==> failure_of(a, e) == CloneFailure::LeaveCgroup(EFAULT),
        a is Reparent ==> failure_of(a, e) == CloneFailure::Rollback(EAGAIN),
        a is WriteChildTid ==> failure_of(a, e) == CloneFailure::Rollback(EFAULT),
        a is AttachProcessCgroup || a is InstallPidfd ==> failure_of(a, e)
            == CloneFailure::Rollback(e),
        a is CreateThread || a is AttachThreadCgroup || a is PrecheckCgroup || a is Fork
            ==> failure_of(a, e) == CloneFailure::Return(e),
{
}

/// The word of eight bytes at a place, the lowest byte first.
pub open spec fn word_at(b: Seq<u8>, i: int) -> int {
    b[i] + 0x100 * b[i + 1] + 0x1_0000 * b[i + 2] + 0x100_0000 * b[i + 3] + 0x1_0000_0000 * b[i + 4]
        + 0x100_0000_0000 * b[i + 5] + 0x1_0000_0000_0000 * b[i + 6] + 0x100_0000_0000_0000 * b[i
        + 7]
}

/// The block of `clone3` is read word by word; a short block leaves the last
/// fields zero.
pub proof fn law_argument_block(raw: Seq<u8>)
    requires
        raw.len() >= 64,
    ensures
        decoded(raw).flags == word_at(raw, 0),
        decoded(raw).pidfd == word_at(raw, 8),
        decoded(raw).child_tid == word_at(raw, 16),
        decoded(raw).parent_tid == word_at(raw, 24),
        decoded(raw).exit_signal == word_at(raw, 32),
        decoded(raw).stack == word_at(raw, 40),
        decoded(raw).stack_size == word_at(raw, 48),
        decoded(raw).tls == word_at(raw, 56),
        raw.len() >= 72 ==> decoded(raw).set_tid == word_at(raw, 64),
        raw.len() >= 80 ==> decoded(raw).set_tid_size == word_at(raw, 72),
        raw.len() >= 88 ==> decoded(raw).cgroup == word_at(raw, 80),
        raw.len() == 64 ==> decoded(raw).set_tid == 0 && decoded(raw).set_tid_size == 0 && decoded(
            raw,
        ).cgroup == 0,
{
    reveal(le64);
}

/// Blocks of a wrong size or with unknown fields, and blocks that cannot be read,
/// are refused.
pub proof fn law_unreadable_blocks(ptr: u64, size: usize, raw: Option<Seq<u8>>)
    ensures
        ({
            let unknown = raw matches Some(b) && exists|i: int| 88 <= i < b.len() && b[i] != 0;
            let e = args_error(ptr, size, raw);
            &&& size < 64 ==> e == Some(EINVAL)
            &&& size > 4096 ==> e == Some(E2BIG)
            &&& 64 <= size <= 4096 && (ptr == 0 || raw is None) ==> e == Some(EFAULT)
            &&& 64 <= size <= 4096 && ptr != 0 && raw is Some ==> e == if unknown {
                Some(E2BIG)
            } else {
                None
            }
        }),
{
}

/// A block becomes the request with the same flags and places. The stack starts at
/// the end of the area that is given.
pub proof fn law_block_is_the_request(a: Clone3Args, size: usize, cgroup: CgroupLookup)
    requires
        clone3_rejects(a, size, cgroup) is None,
    ensures
        ({
            let r = clone3_request(a);
            &&& r.stack == a.stack + a.stack_size
            &&& r.parent_tid == a.parent_tid && r.child_tid == a.child_tid && r.tls == a.tls
            &&& r.pidfd_ptr == if a.flags & 0x1000 != 0 {
                Some(a.pidfd)
            } else {
                None
            }
            &&& r.into_cgroup <==> a.flags & 0x2_0000_0000 != 0
            &&& r.flags % 256 == a.exit_signal
            &&& r.flags / 256 == a.flags / 256
            &&& a.flags % 256 == 0
        }),
{
    let f = a.flags;
    let x = a.exit_signal;
    assert((f | x) % 256 == x && (f | x) / 256 == f / 256 && f % 256 == 0) by (bit_vector)
        requires
            f & 0xff == 0,
            x <= 64,
    ;
}

/// What `clone3` refuses by its block alone.
pub proof fn law_refused_blocks(a: Clone3Args, size: usize, cgroup: CgroupLookup)
    ensures
        ({
            let f = a.flags;
            let e = clone3_rejects(a, size, cgroup);
            let known: u64 = 0x2_6f3f_df00;
            let wrong = f % 256 != 0 || a.exit_signal > 64 || f & !known != 0 || ((f & 0x1_0000
                != 0 || f & 0x8000 != 0) && a.exit_signal != 0) || (a.stack == 0) != (a.stack_size
                == 0) || a.set_tid != 0 || a.set_tid_size != 0 || (f & 0x1000 != 0 && f & 0x10_0000
                != 0 && a.pidfd == a.parent_tid);
            let into = f & 0x2_0000_0000 != 0;
            &&& wrong ==> e == Some(EINVAL)
            &&& !wrong && f & 0x1000 != 0 && a.pidfd == 0 ==> e == Some(EFAULT)
            &&& !wrong && f & 0x1000 != 0 && a.pidfd != 0 && f & 0x1_0000 != 0 ==> e == Some(
                EINVAL,
            )
            &&& !wrong && f & 0x1000 == 0 && into ==> e == if size < 88 {
                Some(EINVAL)
            } else {
                match cgroup {
                    CgroupLookup::NoFile => Some(EBADF),
                    CgroupLookup::NotCgroup(x) => Some(x),
                    CgroupLookup::Target => if a.stack + a.stack_size > u64::MAX {
                        Some(EINVAL)
                    } else {
                        None
                    },
                }
            }
            &&& !wrong && f & 0x1000 == 0 && !into ==> e == if a.stack + a.stack_size > u64::MAX {
                Some(EINVAL)
            } else {
                None
            }
        }),
{
    let f = a.flags;
    assert(f & 0xff == f % 256 && (f & (0x1_0000u64 | 0x8000u64) != 0) == (f & 0x1_0000 != 0 || f
        & 0x8000 != 0) && (f & (0x1000u64 | 0x10_0000u64) == (0x1000u64 | 0x10_0000u64)) == (f
        & 0x1000 != 0 && f & 0x10_0000 != 0) && SUPPORTED_CLONE3_FLAGS == 0x2_6f3f_df00u64 && (f
        & CLONE_DETACHED != 0 ==> f & !0x2_6f3f_df00u64 != 0)) by (bit_vector);
}

/// A child process is handed to the caller's parent, waited for, entered into a control
/// group, or shares memory exactly if that was asked for.
pub proof fn law_other_steps_follow_the_flags(r: CloneRequest, p: u64)
    requires
        r.flags & 0x1_0000 == 0 || r.flags & 0x100 == 0,
    ensures
        ({
            let all = clone_actions(r);
            &&& all.contains(CloneAction::Reparent) <==> r.flags & 0x8000 != 0
            &&& all.contains(CloneAction::WaitForChild) <==> r.flags & 0x4000 != 0
            &&& all.contains(CloneAction::RegisterSharedMm) <==> r.flags & 0x100 != 0
            &&& all.contains(CloneAction::AttachProcessCgroup) <==> r.into_cgroup
            &&& all.contains(CloneAction::WriteParentTid(p)) <==> r.flags & 0x10_0000 != 0 && p != 0
                && p == r.parent_tid
            &&& all.contains(CloneAction::WriteChildTid(p)) <==> r.flags & 0x100_0000 != 0 && p != 0
                && p == r.child_tid
            &&& all.contains(CloneAction::InstallPidfd(p)) <==> r.pidfd_ptr == Some(p)
            &&& all.contains(CloneAction::SetExitSignal(p)) <==> p == r.flags % 256
        }),
{
    lemma_process(r, CloneAction::Reparent);
    lemma_process(r, CloneAction::WaitForChild);
    lemma_process(r, CloneAction::RegisterSharedMm);
    lemma_process(r, CloneAction::AttachProcessCgroup);
    lemma_process(r, CloneAction::WriteParentTid(p));
    lemma_process(r, CloneAction::WriteChildTid(p));
    lemma_process(r, CloneAction::InstallPidfd(p));
    lemma_process(r, CloneAction::SetExitSignal(p));
    assert(clone_actions(r) == process_actions(r));
    let f = r.flags;
    assert(f & 0xff == f % 256) by (bit_vector);
}

/// A child starts on the stack that was given, or on the caller's, and the address to
/// clear at its end is the one that was given.
pub proof fn law_registers_of_the_child(r: CloneRequest, i: int)
    requires
        0 <= i < clone_actions(r).len(),
    ensures
        clone_actions(r)[i] matches CloneAction::BuildProcess { sp, clear_tid } ==> (sp is None
            <==> r.stack == 0) && (sp matches Some(x) ==> x == r.stack) && (clear_tid is Some
            <==> r.flags & 0x20_0000 != 0 && r.child_tid != 0) && (clear_tid matches Some(x) ==> x
            == r.child_tid),
        clone_actions(r)[i] matches CloneAction::BuildThread { sp, tls, clear_tid } ==> (sp is None
            <==> r.stack == 0) && (sp matches Some(x) ==> x == r.stack) && (tls is Some <==> r.flags
            & 0x8_0000 != 0) && (tls matches Some(x) ==> x == r.tls) && (clear_tid is Some
            <==> r.flags & 0x20_0000 != 0 && r.child_tid != 0) && (clear_tid matches Some(x) ==> x
            == r.child_tid),
{
    let all = clone_actions(r);
    assert(all.contains(all[i]));
    if is_thread(r.flags) {
        lemma_thread(r, all[i]);
    } else {
        lemma_process(r, all[i]);
    }
}

} // verus!
