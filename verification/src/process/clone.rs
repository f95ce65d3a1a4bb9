//! `clone` and `vfork`: which requests are valid, and the steps that each takes.
//!
//! A valid request becomes a list of actions. They are carried out in order; if
//! one fails, [`clone_failure`] says what has to be undone and what is returned.

use vstd::prelude::*;
use crate::errno::{EAGAIN, EFAULT, EINVAL, EMFILE, EPERM};
use crate::process::queue::{enqueue_waiter_once, remove_wait_queue_entry, without};

verus! {

/// Share the address space.
pub const CLONE_VM: u64 = 0x0000_0100;
/// Share the working directory, the root and the umask.
pub const CLONE_FS: u64 = 0x0000_0200;
/// Share the file descriptors.
pub const CLONE_FILES: u64 = 0x0000_0400;
/// Share the signal handlers.
pub const CLONE_SIGHAND: u64 = 0x0000_0800;
/// Hand out a descriptor of the child.
pub const CLONE_PIDFD: u64 = 0x0000_1000;
/// The caller sleeps until the child runs a program or exits.
pub const CLONE_VFORK: u64 = 0x0000_4000;
/// The child becomes a sibling of the caller.
pub const CLONE_PARENT: u64 = 0x0000_8000;
/// The child is a thread of the caller.
pub const CLONE_THREAD: u64 = 0x0001_0000;
pub const CLONE_NEWNS: u64 = 0x0002_0000;
pub const CLONE_SYSVSEM: u64 = 0x0004_0000;
pub const CLONE_SETTLS: u64 = 0x0008_0000;
pub const CLONE_PARENT_SETTID: u64 = 0x0010_0000;
pub const CLONE_CHILD_CLEARTID: u64 = 0x0020_0000;
pub const CLONE_DETACHED: u64 = 0x0040_0000;
pub const CLONE_CHILD_SETTID: u64 = 0x0100_0000;
pub const CLONE_NEWCGROUP: u64 = 0x0200_0000;
pub const CLONE_NEWUTS: u64 = 0x0400_0000;
pub const CLONE_NEWIPC: u64 = 0x0800_0000;
pub const CLONE_NEWPID: u64 = 0x2000_0000;
pub const CLONE_NEWNET: u64 = 0x4000_0000;
/// Start the child in a given control group.
pub const CLONE_INTO_CGROUP: u64 = 0x0000_0002_0000_0000;
/// The bits of the flags that hold the exit signal.
pub const CLONE_SIGNAL_MASK: u64 = 0xff;
/// `CLONE_VM | CLONE_VFORK`, with `SIGCHLD` as the exit signal.
pub const VFORK_FLAGS: u64 = 0x0000_4111;

/// A request, with `stack` as the initial stack pointer (0 for the caller's).
#[derive(Clone, Copy)]
pub struct CloneRequest {
    pub flags: u64,
    pub stack: u64,
    pub parent_tid: u64,
    pub tls: u64,
    pub child_tid: u64,
    /// The child starts in a control group that was named.
    pub into_cgroup: bool,
    /// Where a descriptor of the child is written.
    pub pidfd_ptr: Option<u64>,
    /// An exit signal of 0 goes with a null stack.
    pub allow_detached_null_stack: bool,
}

/// What is known of the caller.
#[derive(Clone, Copy)]
pub struct CloneCaller {
    /// The caller is the first process of its PID namespace.
    pub pid_namespace_init: bool,
    pub euid: u32,
}

/// The order of the last two arguments of `clone`.
#[derive(Clone, Copy, PartialEq, Eq, Structural)]
pub enum CloneAbi {
    /// `clone(flags, stack, ptid, tls, ctid)`
    RiscV,
    /// `clone(flags, stack, ptid, ctid, tls)`
    LoongArch,
}

/// One step of creating a thread or a process.
#[derive(Clone, Copy, PartialEq, Eq, Structural)]
pub enum CloneAction {
    /// Fails while an exec or an exit of the whole group is under way.
    CheckGroup,
    CreateThread,
    /// The registers of a thread: result 0, and what is given here.
    BuildThread { sp: Option<u64>, tls: Option<u64>, clear_tid: Option<u64> },
    AttachThreadCgroup { into: bool },
    /// Write the new thread id.
    WriteThreadTid(u64),
    /// Makes the thread visible; fails as `CheckGroup` does.
    PublishThread,
    StartThread,
    /// Write 0, so that the page exists before it is shared.
    TouchParentTid(u64),
    PrecheckCgroup,
    Fork { share_files: bool, share_vm: bool, share_fs: bool },
    NewIpcNamespace,
    NewUtsNamespace,
    NewMountNamespace,
    NewNetNamespace,
    NewCgroupNamespace,
    NewPidNamespace,
    SetExitSignal(u64),
    AttachProcessCgroup,
    BuildProcess { sp: Option<u64>, clear_tid: Option<u64> },
    /// Hand the child to the caller's parent.
    Reparent,
    /// Write the child's id into the caller's memory.
    WriteParentTid(u64),
    /// Write the child's id into the child's memory.
    WriteChildTid(u64),
    InstallPidfd(u64),
    RegisterSharedMm,
    StartProcess,
    /// Sleep until the child ran a program or exited.
    WaitForChild,
}

/// What a failed step leads to.
#[derive(Clone, Copy, PartialEq, Eq, Structural)]
pub enum CloneFailure {
    /// The failure does not matter.
    Ignore,
    /// Nothing to undo; the call returns the value.
    Return(isize),
    /// The thread leaves its control group; the call returns the value.
    LeaveCgroup(isize),
    /// The child is taken back; the call returns the value.
    Rollback(isize),
}

/// `bit` is set in `flags`.
pub open spec fn flagged(flags: u64, bit: u64) -> bool {
    flags & bit != 0
}

pub open spec fn is_thread(flags: u64) -> bool {
    flagged(flags, CLONE_THREAD) && flagged(flags, CLONE_VM)
}

/// With a null stack, the request cannot be served: a child that shares memory
/// needs a stack of its own unless the caller sleeps, and a plain fork needs an
/// exit signal unless the caller may go without.
pub open spec fn needs_stack(r: CloneRequest) -> bool {
    ||| flagged(r.flags, CLONE_THREAD | CLONE_SIGHAND | CLONE_SETTLS)
    ||| flagged(r.flags, CLONE_VM) && !flagged(r.flags, CLONE_VFORK)
    ||| r.flags & CLONE_SIGNAL_MASK == 0 && !r.allow_detached_null_stack
}

/// Combinations of flags that contradict each other.
pub open spec fn flags_conflict(flags: u64, pid_namespace_init: bool) -> bool {
    ||| flagged(flags, CLONE_SIGHAND) && !flagged(flags, CLONE_VM)
    ||| flagged(flags, CLONE_THREAD) && !flagged(flags, CLONE_SIGHAND)
    ||| flagged(flags, CLONE_NEWPID) && flagged(flags, CLONE_THREAD | CLONE_PARENT)
    ||| flagged(flags, CLONE_PARENT) && pid_namespace_init
    ||| flagged(flags, CLONE_NEWIPC) && flagged(flags, CLONE_THREAD)
    ||| flagged(flags, CLONE_NEWIPC) && flagged(flags, CLONE_VM)
    ||| flagged(flags, CLONE_NEWNS) && flagged(flags, CLONE_FS)
}

/// Why a request is refused before anything is created.
pub open spec fn clone_rejects(r: CloneRequest, c: CloneCaller) -> Option<isize> {
    if flags_conflict(r.flags, c.pid_namespace_init) {
        Some(EINVAL)
    } else if flagged(r.flags, CLONE_NEWNS | CLONE_NEWUTS | CLONE_NEWCGROUP) && c.euid != 0 {
        Some(EPERM)
    } else if r.stack == 0 && needs_stack(r) {
        Some(EINVAL)
    } else if is_thread(r.flags) && r.pidfd_ptr is Some {
        Some(EINVAL)
    } else {
        None
    }
}

/// The list with one more step, if the condition holds.
pub open spec fn step_if(s: Seq<CloneAction>, c: bool, a: CloneAction) -> Seq<CloneAction> {
    if c {
        s.push(a)
    } else {
        s
    }
}

pub open spec fn nonzero(x: u64) -> Option<u64> {
    if x != 0 {
        Some(x)
    } else {
        None
    }
}

/// The address to clear when the child exits.
pub open spec fn clear_tid(r: CloneRequest) -> Option<u64> {
    if flagged(r.flags, CLONE_CHILD_CLEARTID) {
        nonzero(r.child_tid)
    } else {
        None
    }
}

/// The steps of creating a thread. It becomes visible once nothing before its
/// start can fail.
pub open spec fn thread_actions(r: CloneRequest) -> Seq<CloneAction> {
    let s = seq![
        CloneAction::CheckGroup,
        CloneAction::CreateThread,
        CloneAction::BuildThread {
            sp: nonzero(r.stack),
            tls: if flagged(r.flags, CLONE_SETTLS) {
                Some(r.tls)
            } else {
                None
            },
            clear_tid: clear_tid(r),
        },
        CloneAction::AttachThreadCgroup { into: r.into_cgroup },
    ];
    let s = step_if(
        s,
        flagged(r.flags, CLONE_PARENT_SETTID) && r.parent_tid != 0,
        CloneAction::WriteThreadTid(r.parent_tid),
    );
    let s = step_if(
        s,
        flagged(r.flags, CLONE_CHILD_SETTID) && r.child_tid != 0,
        CloneAction::WriteThreadTid(r.child_tid),
    );
    s.push(CloneAction::PublishThread).push(CloneAction::StartThread)
}

/// The child id is written for the caller.
pub open spec fn sets_parent_tid(r: CloneRequest) -> bool {
    flagged(r.flags, CLONE_PARENT_SETTID) && r.parent_tid != 0
}

/// The steps of creating a process up to the fork.
pub open spec fn fork_actions(r: CloneRequest) -> Seq<CloneAction> {
    let share_vm = flagged(r.flags, CLONE_VM);
    let s = step_if(
        Seq::empty(),
        share_vm && sets_parent_tid(r),
        CloneAction::TouchParentTid(r.parent_tid),
    );
    s.push(CloneAction::PrecheckCgroup).push(
        CloneAction::Fork {
            share_files: flagged(r.flags, CLONE_FILES),
            share_vm,
            share_fs: flagged(r.flags, CLONE_FS),
        },
    )
}

/// The list with the steps that set the child's namespaces up.
pub open spec fn namespace_actions(s: Seq<CloneAction>, flags: u64) -> Seq<CloneAction> {
    let s = step_if(s, flagged(flags, CLONE_NEWIPC), CloneAction::NewIpcNamespace);
    let s = step_if(s, flagged(flags, CLONE_NEWUTS), CloneAction::NewUtsNamespace);
    let s = step_if(s, flagged(flags, CLONE_NEWNS), CloneAction::NewMountNamespace);
    let s = step_if(s, flagged(flags, CLONE_NEWNET), CloneAction::NewNetNamespace);
    let s = step_if(s, flagged(flags, CLONE_NEWCGROUP), CloneAction::NewCgroupNamespace);
    step_if(s, flagged(flags, CLONE_NEWPID), CloneAction::NewPidNamespace)
}

/// The list with the steps that complete a forked child, in the order in which
/// they are taken.
pub open spec fn child_actions(s: Seq<CloneAction>, r: CloneRequest) -> Seq<CloneAction> {
    let s = s.push(CloneAction::SetExitSignal(r.flags & CLONE_SIGNAL_MASK));
    let s = step_if(s, r.into_cgroup, CloneAction::AttachProcessCgroup);
    let s = s.push(CloneAction::BuildProcess { sp: nonzero(r.stack), clear_tid: clear_tid(r) });
    let s = step_if(s, flagged(r.flags, CLONE_PARENT), CloneAction::Reparent);
    let s = step_if(s, sets_parent_tid(r), CloneAction::WriteParentTid(r.parent_tid));
    let s = step_if(
        s,
        flagged(r.flags, CLONE_CHILD_SETTID) && r.child_tid != 0,
        CloneAction::WriteChildTid(r.child_tid),
    );
    let s = match r.pidfd_ptr {
        Some(p) => s.push(CloneAction::InstallPidfd(p)),
        None => s,
    };
    step_if(s, flagged(r.flags, CLONE_VM), CloneAction::RegisterSharedMm)
}

/// The steps of creating a process.
pub open spec fn process_actions(r: CloneRequest) -> Seq<CloneAction> {
    let s = child_actions(namespace_actions(fork_actions(r), r.flags), r);
    step_if(
        s.push(CloneAction::StartProcess),
        flagged(r.flags, CLONE_VFORK),
        CloneAction::WaitForChild,
    )
}

pub open spec fn clone_actions(r: CloneRequest) -> Seq<CloneAction> {
    if is_thread(r.flags) {
        thread_actions(r)
    } else {
        process_actions(r)
    }
}

/// What the failure of a step leads to; `e` is the error that the step gave.
pub open spec fn failure_of(a: CloneAction, e: isize) -> CloneFailure {
    match a {
        CloneAction::CheckGroup => CloneFailure::Return(EAGAIN),
        CloneAction::CreateThread => CloneFailure::Return(e),
        CloneAction::AttachThreadCgroup { .. } => CloneFailure::Return(e),
        CloneAction::WriteThreadTid(_) => CloneFailure::LeaveCgroup(EFAULT),
        CloneAction::PublishThread => CloneFailure::LeaveCgroup(EAGAIN),
        CloneAction::PrecheckCgroup => CloneFailure::Return(e),
        CloneAction::Fork { .. } => CloneFailure::Return(e),
        CloneAction::AttachProcessCgroup => CloneFailure::Rollback(e),
        CloneAction::Reparent => CloneFailure::Rollback(EAGAIN),
        CloneAction::WriteChildTid(_) => CloneFailure::Rollback(EFAULT),
        CloneAction::InstallPidfd(_) => CloneFailure::Rollback(e),
        _ => CloneFailure::Ignore,
    }
}

/// A step whose failure ends the call.
pub open spec fn can_fail(a: CloneAction) -> bool {
    !(failure_of(a, 0) is Ignore)
}

/// The fork is in slot `f`; what follows it leaves no child behind if it fails,
/// and is no start of the child.
pub open spec fn safe_after(s: Seq<CloneAction>, f: int) -> bool {
    &&& 0 <= f < s.len()
    &&& s[f] is Fork
    &&& forall|j: int| 0 <= j < s.len() && j != f ==> !((#[trigger] s[j]) is Fork)
    &&& forall|j: int| 0 <= j < s.len() ==> !((#[trigger] s[j]) is StartProcess)
    &&& forall|j: int|
        f < j < s.len() ==> !can_fail(#[trigger] s[j]) || failure_of(s[j], 0) is Rollback
}

proof fn lemma_step_safe(s: Seq<CloneAction>, f: int, c: bool, a: CloneAction)
    requires
        safe_after(s, f),
        !(a is Fork),
        !(a is StartProcess),
        !can_fail(a) || failure_of(a, 0) is Rollback,
    ensures
        safe_after(step_if(s, c, a), f),
        safe_after(s.push(a), f),
{
    assert forall|j: int| 0 <= j < s.push(a).len() implies #[trigger] s.push(a)[j] == if j < s.len() {
        s[j]
    } else {
        a
    } by {}
}

proof fn lemma_process_actions_safe(r: CloneRequest) -> (f: int)
    ensures
        safe_after(child_actions(namespace_actions(fork_actions(r), r.flags), r), f),
{
    let s0 = fork_actions(r);
    let f = s0.len() - 1;
    assert(safe_after(s0, f));
    let fl = r.flags;
    lemma_step_safe(s0, f, flagged(fl, CLONE_NEWIPC), CloneAction::NewIpcNamespace);
    let s1 = step_if(s0, flagged(fl, CLONE_NEWIPC), CloneAction::NewIpcNamespace);
    lemma_step_safe(s1, f, flagged(fl, CLONE_NEWUTS), CloneAction::NewUtsNamespace);
    let s2 = step_if(s1, flagged(fl, CLONE_NEWUTS), CloneAction::NewUtsNamespace);
    lemma_step_safe(s2, f, flagged(fl, CLONE_NEWNS), CloneAction::NewMountNamespace);
    let s3 = step_if(s2, flagged(fl, CLONE_NEWNS), CloneAction::NewMountNamespace);
    lemma_step_safe(s3, f, flagged(fl, CLONE_NEWNET), CloneAction::NewNetNamespace);
    let s4 = step_if(s3, flagged(fl, CLONE_NEWNET), CloneAction::NewNetNamespace);
    lemma_step_safe(s4, f, flagged(fl, CLONE_NEWCGROUP), CloneAction::NewCgroupNamespace);
    let s5 = step_if(s4, flagged(fl, CLONE_NEWCGROUP), CloneAction::NewCgroupNamespace);
    lemma_step_safe(s5, f, flagged(fl, CLONE_NEWPID), CloneAction::NewPidNamespace);
    let n = namespace_actions(s0, fl);
    assert(safe_after(n, f));
    lemma_step_safe(n, f, true, CloneAction::SetExitSignal(fl & CLONE_SIGNAL_MASK));
    let c1 = n.push(CloneAction::SetExitSignal(fl & CLONE_SIGNAL_MASK));
    lemma_step_safe(c1, f, r.into_cgroup, CloneAction::AttachProcessCgroup);
    let c2 = step_if(c1, r.into_cgroup, CloneAction::AttachProcessCgroup);
    let build = CloneAction::BuildProcess { sp: nonzero(r.stack), clear_tid: clear_tid(r) };
    lemma_step_safe(c2, f, true, build);
    let c3 = c2.push(build);
    lemma_step_safe(c3, f, flagged(fl, CLONE_PARENT), CloneAction::Reparent);
    let c4 = step_if(c3, flagged(fl, CLONE_PARENT), CloneAction::Reparent);
    lemma_step_safe(c4, f, sets_parent_tid(r), CloneAction::WriteParentTid(r.parent_tid));
    let c5 = step_if(c4, sets_parent_tid(r), CloneAction::WriteParentTid(r.parent_tid));
    let writes = flagged(fl, CLONE_CHILD_SETTID) && r.child_tid != 0;
    lemma_step_safe(c5, f, writes, CloneAction::WriteChildTid(r.child_tid));
    let c6 = step_if(c5, writes, CloneAction::WriteChildTid(r.child_tid));
    let c7 = match r.pidfd_ptr {
        Some(p) => c6.push(CloneAction::InstallPidfd(p)),
        None => c6,
    };
    if let Some(p) = r.pidfd_ptr {
        lemma_step_safe(c6, f, true, CloneAction::InstallPidfd(p));
    }
    lemma_step_safe(c7, f, flagged(fl, CLONE_VM), CloneAction::RegisterSharedMm);
    f
}

/// Once a child process exists, every failure takes it back; and once it is
/// started, nothing can fail any more.
pub proof fn law_no_child_is_left_behind(r: CloneRequest, i: int, j: int, e: isize)
    requires
        !is_thread(r.flags),
        0 <= i < j < clone_actions(r).len(),
    ensures
        clone_actions(r)[i] is Fork && can_fail(clone_actions(r)[j]) ==> failure_of(
            clone_actions(r)[j],
            e,
        ) is Rollback,
        clone_actions(r)[i] is StartProcess ==> !can_fail(clone_actions(r)[j]),
{
    let f = lemma_process_actions_safe(r);
    let s = child_actions(namespace_actions(fork_actions(r), r.flags), r);
    let all = clone_actions(r);
    assert(forall|k: int| 0 <= k < s.len() ==> #[trigger] all[k] == s[k]);
    assert(all[s.len() as int] is StartProcess);
    if j < s.len() {
        assert(all[j] == s[j]);
    }
    if i < s.len() {
        assert(all[i] == s[i]);
    }
}

/// A thread becomes visible only when no step is left that can fail.
pub proof fn law_threads_are_published_last(r: CloneRequest, i: int, j: int)
    requires
        is_thread(r.flags),
        0 <= i < j < clone_actions(r).len(),
        clone_actions(r)[i] is PublishThread,
    ensures
        !can_fail(clone_actions(r)[j]),
        j == clone_actions(r).len() - 1,
{
}

/// A valid request makes either a thread of the caller or a process, and shares
/// signal handlers only where it shares memory.
pub proof fn law_valid_flags_agree(r: CloneRequest, c: CloneCaller)
    requires
        clone_rejects(r, c) is None,
    ensures
        flagged(r.flags, CLONE_SIGHAND) ==> flagged(r.flags, CLONE_VM),
        flagged(r.flags, CLONE_THREAD) == is_thread(r.flags),
        flagged(r.flags, CLONE_THREAD) ==> r.stack != 0,
{
    let f = r.flags;
    assert(f & CLONE_THREAD != 0 ==> f & (CLONE_THREAD | CLONE_SIGHAND | CLONE_SETTLS) != 0)
        by (bit_vector);
}

/// Refuses a request that cannot be served.
pub fn check_clone(r: &CloneRequest, c: &CloneCaller) -> (e: Option<isize>)
    ensures
        e == clone_rejects(*r, *c),
{
    let flags: u64 = r.flags;
    if (flags & CLONE_SIGHAND) != 0 && (flags & CLONE_VM) == 0 {
        return Some(EINVAL);
    }
    if (flags & CLONE_THREAD) != 0 && (flags & CLONE_SIGHAND) == 0 {
        return Some(EINVAL);
    }
    if (flags & CLONE_NEWPID) != 0 && (flags & (CLONE_THREAD | CLONE_PARENT)) != 0 {
        return Some(EINVAL);
    }
    if (flags & CLONE_PARENT) != 0 && c.pid_namespace_init {
        return Some(EINVAL);
    }
    if (flags & CLONE_NEWIPC) != 0 && (flags & CLONE_THREAD) != 0 {
        return Some(EINVAL);
    }
    if (flags & CLONE_NEWIPC) != 0 && (flags & CLONE_VM) != 0 {
        return Some(EINVAL);
    }
    if (flags & CLONE_NEWNS) != 0 && (flags & CLONE_FS) != 0 {
        return Some(EINVAL);
    }
    if (flags & (CLONE_NEWNS | CLONE_NEWUTS | CLONE_NEWCGROUP)) != 0 && c.euid != 0 {
        return Some(EPERM);
    }
    if r.stack == 0 {
        let exit_signal: u64 = flags & CLONE_SIGNAL_MASK;
        let requires_child_stack = (flags & (CLONE_THREAD | CLONE_SIGHAND | CLONE_SETTLS)) != 0
            || ((flags & CLONE_VM) != 0 && (flags & CLONE_VFORK) == 0);
        let detached_fork = r.allow_detached_null_stack && exit_signal == 0;
        if requires_child_stack || (exit_signal == 0 && !detached_fork) {
            return Some(EINVAL);
        }
    }
    if (flags & CLONE_THREAD) != 0 && (flags & CLONE_VM) != 0 && r.pidfd_ptr.is_some() {
        return Some(EINVAL);
    }
    None
}

fn push_when(out: &mut Vec<CloneAction>, c: bool, a: CloneAction)
    ensures
        final(out)@ == step_if(old(out)@, c, a),
{
    if c {
        out.push(a);
    }
}

fn some_nonzero(x: u64) -> (r: Option<u64>)
    ensures
        r == nonzero(x),
{
    if x != 0 {
        Some(x)
    } else {
        None
    }
}

fn tid_to_clear(r: &CloneRequest) -> (a: Option<u64>)
    ensures
        a == clear_tid(*r),
{
    if (r.flags & CLONE_CHILD_CLEARTID) != 0 {
        some_nonzero(r.child_tid)
    } else {
        None
    }
}

/// Lists the steps of creating a thread.
fn plan_thread(r: &CloneRequest) -> (plan: Vec<CloneAction>)
    ensures
        plan@ == thread_actions(*r),
{
    let tls: Option<u64> = if (r.flags & CLONE_SETTLS) != 0 {
        Some(r.tls)
    } else {
        None
    };
    let mut plan: Vec<CloneAction> = Vec::new();
    plan.push(CloneAction::CheckGroup);
    plan.push(CloneAction::CreateThread);
    plan.push(
        CloneAction::BuildThread { sp: some_nonzero(r.stack), tls, clear_tid: tid_to_clear(r) },
    );
    plan.push(CloneAction::AttachThreadCgroup { into: r.into_cgroup });
    assert(plan@ =~= seq![
        CloneAction::CheckGroup,
        CloneAction::CreateThread,
        CloneAction::BuildThread { sp: nonzero(r.stack), tls, clear_tid: clear_tid(*r) },
        CloneAction::AttachThreadCgroup { into: r.into_cgroup },
    ]);
    push_when(
        &mut plan,
        (r.flags & CLONE_PARENT_SETTID) != 0 && r.parent_tid != 0,
        CloneAction::WriteThreadTid(r.parent_tid),
    );
    push_when(
        &mut plan,
        (r.flags & CLONE_CHILD_SETTID) != 0 && r.child_tid != 0,
        CloneAction::WriteThreadTid(r.child_tid),
    );
    plan.push(CloneAction::PublishThread);
    plan.push(CloneAction::StartThread);
    plan
}

/// Lists the steps that set the namespaces of a child up.
fn plan_namespaces(plan: &mut Vec<CloneAction>, flags: u64)
    ensures
        final(plan)@ == namespace_actions(old(plan)@, flags),
{
    push_when(plan, (flags & CLONE_NEWIPC) != 0, CloneAction::NewIpcNamespace);
    push_when(plan, (flags & CLONE_NEWUTS) != 0, CloneAction::NewUtsNamespace);
    push_when(plan, (flags & CLONE_NEWNS) != 0, CloneAction::NewMountNamespace);
    push_when(plan, (flags & CLONE_NEWNET) != 0, CloneAction::NewNetNamespace);
    push_when(plan, (flags & CLONE_NEWCGROUP) != 0, CloneAction::NewCgroupNamespace);
    push_when(plan, (flags & CLONE_NEWPID) != 0, CloneAction::NewPidNamespace);
}

/// Lists the steps of creating a process.
fn plan_process(r: &CloneRequest) -> (plan: Vec<CloneAction>)
    ensures
        plan@ == process_actions(*r),
{
    let flags: u64 = r.flags;
    let share_vm = (flags & CLONE_VM) != 0;
    let parent_tid = (flags & CLONE_PARENT_SETTID) != 0 && r.parent_tid != 0;
    let mut plan: Vec<CloneAction> = Vec::new();
    push_when(&mut plan, share_vm && parent_tid, CloneAction::TouchParentTid(r.parent_tid));
    plan.push(CloneAction::PrecheckCgroup);
    plan.push(
        CloneAction::Fork {
            share_files: (flags & CLONE_FILES) != 0,
            share_vm,
            share_fs: (flags & CLONE_FS) != 0,
        },
    );
    plan_namespaces(&mut plan, flags);
    plan.push(CloneAction::SetExitSignal(flags & CLONE_SIGNAL_MASK));
    push_when(&mut plan, r.into_cgroup, CloneAction::AttachProcessCgroup);
    plan.push(
        CloneAction::BuildProcess { sp: some_nonzero(r.stack), clear_tid: tid_to_clear(r) },
    );
    push_when(&mut plan, (flags & CLONE_PARENT) != 0, CloneAction::Reparent);
    push_when(&mut plan, parent_tid, CloneAction::WriteParentTid(r.parent_tid));
    push_when(
        &mut plan,
        (flags & CLONE_CHILD_SETTID) != 0 && r.child_tid != 0,
        CloneAction::WriteChildTid(r.child_tid),
    );
    if let Some(p) = r.pidfd_ptr {
        plan.push(CloneAction::InstallPidfd(p));
    }
    push_when(&mut plan, share_vm, CloneAction::RegisterSharedMm);
    plan.push(CloneAction::StartProcess);
    push_when(&mut plan, (flags & CLONE_VFORK) != 0, CloneAction::WaitForChild);
    plan
}

/// Checks a request and lists its steps.
pub fn clone_from_parts(r: &CloneRequest, c: &CloneCaller) -> (plan: Result<
    Vec<CloneAction>,
    isize,
>)
    ensures
        match plan {
            Ok(actions) => clone_rejects(*r, *c) is None && actions@ == clone_actions(*r),
            Err(e) => clone_rejects(*r, *c) == Some(e),
        },
{
    if let Some(e) = check_clone(r, c) {
        return Err(e);
    }
    if (r.flags & CLONE_THREAD) != 0 && (r.flags & CLONE_VM) != 0 {
        Ok(plan_thread(r))
    } else {
        Ok(plan_process(r))
    }
}

/// Says what the failure of a step leads to.
pub fn clone_failure(a: CloneAction, e: isize) -> (f: CloneFailure)
    ensures
        f == failure_of(a, e),
{
    match a {
        CloneAction::CheckGroup => CloneFailure::Return(EAGAIN),
        CloneAction::CreateThread => CloneFailure::Return(e),
        CloneAction::AttachThreadCgroup { .. } => CloneFailure::Return(e),
        CloneAction::WriteThreadTid(_) => CloneFailure::LeaveCgroup(EFAULT),
        CloneAction::PublishThread => CloneFailure::LeaveCgroup(EAGAIN),
        CloneAction::PrecheckCgroup => CloneFailure::Return(e),
        CloneAction::Fork { .. } => CloneFailure::Return(e),
        CloneAction::AttachProcessCgroup => CloneFailure::Rollback(e),
        CloneAction::Reparent => CloneFailure::Rollback(EAGAIN),
        CloneAction::WriteChildTid(_) => CloneFailure::Rollback(EFAULT),
        CloneAction::InstallPidfd(_) => CloneFailure::Rollback(e),
        _ => CloneFailure::Ignore,
    }
}

/// The request that the arguments of `clone` make.
pub open spec fn clone_request(
    flags: u64,
    stack: u64,
    ptid: u64,
    tls: u64,
    ctid: u64,
    abi: CloneAbi,
) -> CloneRequest {
    CloneRequest {
        flags,
        stack,
        parent_tid: ptid,
        tls: if abi == CloneAbi::LoongArch {
            ctid
        } else {
            tls
        },
        child_tid: if abi == CloneAbi::LoongArch {
            tls
        } else {
            ctid
        },
        into_cgroup: false,
        pidfd_ptr: None,
        allow_detached_null_stack: false,
    }
}

/// `clone`: checks the arguments and lists the steps.
pub fn syscall_clone(
    flags: u64,
    stack: u64,
    ptid: u64,
    tls: u64,
    ctid: u64,
    abi: CloneAbi,
    c: &CloneCaller,
) -> (plan: Result<Vec<CloneAction>, isize>)
    ensures
        ({
            let r = clone_request(flags, stack, ptid, tls, ctid, abi);
            match plan {
                Ok(actions) => clone_rejects(r, *c) is None && actions@ == clone_actions(r),
                Err(e) => clone_rejects(r, *c) == Some(e),
            }
        }),
{
    let (tls, ctid) = match abi {
        CloneAbi::RiscV => (tls, ctid),
        CloneAbi::LoongArch => (ctid, tls),
    };
    clone_from_parts(
        &CloneRequest {
            flags,
            stack,
            parent_tid: ptid,
            tls,
            child_tid: ctid,
            into_cgroup: false,
            pidfd_ptr: None,
            allow_detached_null_stack: false,
        },
        c,
    )
}

/// `vfork`: a child on the caller's stack, while the caller sleeps. The request
/// is always valid.
pub fn syscall_vfork(c: &CloneCaller) -> (plan: Vec<CloneAction>)
    ensures
        plan@ == seq![
            CloneAction::PrecheckCgroup,
            CloneAction::Fork { share_files: false, share_vm: true, share_fs: false },
            CloneAction::SetExitSignal(17),
            CloneAction::BuildProcess { sp: None, clear_tid: None },
            CloneAction::RegisterSharedMm,
            CloneAction::StartProcess,
            CloneAction::WaitForChild,
        ],
{
    let r = CloneRequest {
        flags: VFORK_FLAGS,
        stack: 0,
        parent_tid: 0,
        tls: 0,
        child_tid: 0,
        into_cgroup: false,
        pidfd_ptr: None,
        allow_detached_null_stack: false,
    };
    let plan = clone_from_parts(&r, c);
    proof {
        let f = VFORK_FLAGS;
        assert(f & CLONE_VM != 0 && f & CLONE_VFORK != 0 && f & CLONE_SIGNAL_MASK == 17 && f & (
        CLONE_THREAD | CLONE_SIGHAND | CLONE_SETTLS) == 0 && f & CLONE_SIGHAND == 0 && f
            & CLONE_THREAD == 0 && f & CLONE_NEWPID == 0 && f & CLONE_PARENT == 0 && f
            & CLONE_NEWIPC == 0 && f & CLONE_NEWNS == 0 && f & CLONE_FS == 0 && f & CLONE_FILES
            == 0 && f & (CLONE_NEWNS | CLONE_NEWUTS | CLONE_NEWCGROUP) == 0 && f & CLONE_NEWUTS
            == 0 && f & CLONE_NEWCGROUP == 0 && f & CLONE_NEWNET == 0 && f & CLONE_CHILD_CLEARTID
            == 0) by (bit_vector)
            requires
                f == 0x0000_4111u64,
        ;
    }
    match plan {
        Ok(actions) => {
            assert(actions@ =~= process_actions(r));
            assert(process_actions(r) =~= seq![
                CloneAction::PrecheckCgroup,
                CloneAction::Fork { share_files: false, share_vm: true, share_fs: false },
                CloneAction::SetExitSignal(17),
                CloneAction::BuildProcess { sp: None, clear_tid: None },
                CloneAction::RegisterSharedMm,
                CloneAction::StartProcess,
                CloneAction::WaitForChild,
            ]);
            actions
        },
        Err(e) => Vec::new(),
    }
}

/// One round of the sleep of a caller of `vfork`: tells whether its thread
/// `task` has to sleep on, and keeps the queue accordingly.
pub fn vfork_wait_step(
    queue: &mut Vec<usize>,
    task: usize,
    is_zombie: bool,
    did_exec: bool,
) -> (sleeps: bool)
    ensures
        sleeps == !(is_zombie || did_exec),
        final(queue)@ == if !sleeps {
            without(old(queue)@, task)
        } else if old(queue)@.contains(task) {
            old(queue)@
        } else {
            old(queue)@.push(task)
        },
        final(queue)@.contains(task) == sleeps,
{
    if is_zombie || did_exec {
        remove_wait_queue_entry(queue, task);
        return false;
    }
    let inserted: bool = enqueue_waiter_once(queue, task);
    true
}

/// Puts a new thread into slot `tid` of the thread table, which grows as needed.
pub fn publish_thread(tasks: &mut Vec<Option<usize>>, tid: usize, task: usize)
    requires
        tid < usize::MAX,
    ensures
        final(tasks)@.len() == if tid < old(tasks)@.len() {
            old(tasks)@.len()
        } else {
            (tid + 1) as nat
        },
        final(tasks)@[tid as int] == Some(task),
        forall|i: int|
            0 <= i < final(tasks)@.len() && i != tid ==> #[trigger] final(tasks)@[i] == if i
                < old(tasks)@.len() {
                old(tasks)@[i]
            } else {
                None
            },
{
    let ghost before = tasks@;
    while tasks.len() < tid + 1
        invariant
            before == old(tasks)@,
            tid < usize::MAX,
            before.len() <= tasks@.len(),
            tasks@.len() > before.len() ==> tasks@.len() <= tid + 1,
            forall|i: int|
                0 <= i < tasks@.len() ==> #[trigger] tasks@[i] == if i < before.len() {
                    before[i]
                } else {
                    None
                },
        decreases tid + 1 - tasks.len(),
    {
        tasks.push(None);
    }
    tasks[tid] = Some(task);
}

/// The id under which a process is known in its own PID namespace.
pub open spec fn visible_pid(pid: usize, pid_ns_id: usize, pid_ns_vpid: usize) -> usize {
    if pid_ns_id == 0 {
        pid
    } else {
        pid_ns_vpid
    }
}

/// `getpid`: the id of the caller in its own PID namespace.
pub fn syscall_getpid(pid: usize, pid_ns_id: usize, pid_ns_vpid: usize) -> (r: isize)
    requires
        visible_pid(pid, pid_ns_id, pid_ns_vpid) <= isize::MAX,
    ensures
        r == visible_pid(pid, pid_ns_id, pid_ns_vpid),
{
    let visible: usize = if pid_ns_id == 0 {
        pid
    } else {
        pid_ns_vpid
    };
    visible as isize
}

/// What installing a descriptor for the child came to.
#[derive(Clone, Copy)]
pub struct PidfdOutcome {
    /// The descriptor, or why there is none.
    pub result: Result<i32, isize>,
    /// The descriptor is to be closed again.
    pub close: bool,
}

/// Decides what becomes of the descriptor for a child. `installed` is its number,
/// if there was room for it; `written` tells that the number reached the caller,
/// and `still_ours` that the number still stands for it. A descriptor whose
/// number the caller never learned is closed again.
pub fn install_child_pidfd(installed: Option<i32>, written: bool, still_ours: bool) -> (r:
    PidfdOutcome)
    ensures
        match installed {
            None => r.result == Err::<i32, isize>(EMFILE) && !r.close,
            Some(fd) => if written {
                r.result == Ok::<i32, isize>(fd) && !r.close
            } else {
                r.result == Err::<i32, isize>(EFAULT) && r.close == still_ours
            },
        },
{
    match installed {
        None => PidfdOutcome { result: Err(EMFILE), close: false },
        Some(fd) => if written {
            PidfdOutcome { result: Ok(fd), close: false }
        } else {
            PidfdOutcome { result: Err(EFAULT), close: still_ours }
        },
    }
}

} // verus!
