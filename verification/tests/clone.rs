//! Creating processes and threads.

use linux_syscalls::errno::{E2BIG, EAGAIN, EBADF, EFAULT, EINVAL, ENOTDIR, EPERM};
use linux_syscalls::process::adoption::{
    reparent_child, rollback_unstarted_child, RollbackAction,
};
use linux_syscalls::process::clone::{
    check_clone, clone_failure, clone_from_parts, install_child_pidfd, publish_thread,
    syscall_clone, syscall_getpid, syscall_vfork, vfork_wait_step, CloneAbi, CloneAction,
    CloneCaller, CloneFailure, CloneRequest, CLONE_CHILD_CLEARTID, CLONE_CHILD_SETTID, CLONE_FILES,
    CLONE_FS, CLONE_INTO_CGROUP, CLONE_NEWIPC, CLONE_NEWNS, CLONE_NEWPID, CLONE_NEWUTS,
    CLONE_PARENT, CLONE_PARENT_SETTID, CLONE_PIDFD, CLONE_SETTLS, CLONE_SIGHAND, CLONE_THREAD,
    CLONE_VFORK, CLONE_VM,
};
use linux_syscalls::process::clone3::{
    parse_clone3, read_clone3_args, syscall_clone3, CgroupLookup, Clone3Args,
};
use linux_syscalls::process::table::ProcRecord;

const ROOT: CloneCaller = CloneCaller { pid_namespace_init: false, euid: 0 };
const USER: CloneCaller = CloneCaller { pid_namespace_init: false, euid: 1000 };

fn request(flags: u64, stack: u64) -> CloneRequest {
    CloneRequest {
        flags,
        stack,
        parent_tid: 0x100,
        tls: 0x200,
        child_tid: 0x300,
        into_cgroup: false,
        pidfd_ptr: None,
        allow_detached_null_stack: false,
    }
}

fn record(pid: usize, parent: Option<usize>, slot: Option<usize>) -> ProcRecord {
    ProcRecord {
        pid,
        pgid: 1,
        uid: 0,
        parent,
        child_parent_index: slot,
        exit_queue_of: None,
        exit_signal: 17,
        exit_code: 0,
        dumped_core: false,
        is_zombie: false,
        exit_teardown: false,
        wait_reaped: false,
        stopped: false,
        stop_pending: false,
        stop_signal: 0,
        continued: false,
        tracer: None,
        tracee_count: 0,
        cpu_time_ns: 0,
        child_cpu_time_ns: 0,
    }
}

#[test]
fn contradicting_flags_are_refused() {
    let bad = [
        CLONE_SIGHAND | 17,
        CLONE_THREAD | CLONE_VM | 17,
        CLONE_NEWPID | CLONE_PARENT | 17,
        CLONE_NEWIPC | CLONE_VM | 17,
        CLONE_NEWNS | CLONE_FS | 17,
    ];
    for flags in bad {
        assert_eq!(check_clone(&request(flags, 0x9000), &ROOT), Some(EINVAL));
    }
    let init = CloneCaller { pid_namespace_init: true, euid: 0 };
    assert_eq!(check_clone(&request(CLONE_PARENT | 17, 0x9000), &init), Some(EINVAL));
    assert_eq!(check_clone(&request(CLONE_PARENT | 17, 0x9000), &ROOT), None);
    assert_eq!(check_clone(&request(CLONE_NEWUTS | 17, 0x9000), &USER), Some(EPERM));
    assert_eq!(check_clone(&request(CLONE_NEWUTS | 17, 0x9000), &ROOT), None);
}

#[test]
fn shared_memory_needs_a_stack() {
    assert_eq!(check_clone(&request(CLONE_VM | 17, 0), &USER), Some(EINVAL));
    assert_eq!(check_clone(&request(CLONE_VM | CLONE_VFORK | 17, 0), &USER), None);
    assert_eq!(check_clone(&request(17, 0), &USER), None);
    assert_eq!(check_clone(&request(0, 0), &USER), Some(EINVAL));
    let detached = CloneRequest { allow_detached_null_stack: true, ..request(0, 0) };
    assert_eq!(check_clone(&detached, &USER), None);
    let thread = CLONE_THREAD | CLONE_VM | CLONE_SIGHAND;
    let with_fd = CloneRequest { pidfd_ptr: Some(8), ..request(thread, 0x9000) };
    assert_eq!(check_clone(&with_fd, &USER), Some(EINVAL));
}

#[test]
fn threads_are_published_last() {
    let flags = CLONE_THREAD | CLONE_VM | CLONE_SIGHAND | CLONE_SETTLS | CLONE_PARENT_SETTID
        | CLONE_CHILD_CLEARTID;
    let plan = clone_from_parts(&request(flags, 0x9000), &USER).unwrap();
    assert!(
        plan
            == vec![
                CloneAction::CheckGroup,
                CloneAction::CreateThread,
                CloneAction::BuildThread {
                    sp: Some(0x9000),
                    tls: Some(0x200),
                    clear_tid: Some(0x300)
                },
                CloneAction::AttachThreadCgroup { into: false },
                CloneAction::WriteThreadTid(0x100),
                CloneAction::PublishThread,
                CloneAction::StartThread,
            ]
    );
}

#[test]
fn forked_children_are_taken_back_on_failure() {
    let flags = CLONE_PARENT_SETTID | CLONE_CHILD_SETTID | CLONE_FILES | 17;
    let r = CloneRequest { into_cgroup: true, pidfd_ptr: Some(0x400), ..request(flags, 0) };
    let plan = clone_from_parts(&r, &USER).unwrap();
    assert!(
        plan
            == vec![
                CloneAction::PrecheckCgroup,
                CloneAction::Fork { share_files: true, share_vm: false, share_fs: false },
                CloneAction::SetExitSignal(17),
                CloneAction::AttachProcessCgroup,
                CloneAction::BuildProcess { sp: None, clear_tid: None },
                CloneAction::WriteParentTid(0x100),
                CloneAction::WriteChildTid(0x300),
                CloneAction::InstallPidfd(0x400),
                CloneAction::StartProcess,
            ]
    );
    for a in &plan[2..] {
        match clone_failure(*a, EBADF) {
            CloneFailure::Ignore | CloneFailure::Rollback(_) => {},
            _ => panic!(),
        }
    }
    assert!(clone_failure(plan[1], EAGAIN) == CloneFailure::Return(EAGAIN));
    assert!(clone_failure(plan[6], EBADF) == CloneFailure::Rollback(EFAULT));
    assert!(
        clone_failure(CloneAction::WriteThreadTid(1), EBADF) == CloneFailure::LeaveCgroup(EFAULT)
    );
    assert!(clone_failure(CloneAction::PublishThread, 0) == CloneFailure::LeaveCgroup(EAGAIN));
}

#[test]
fn the_argument_order_depends_on_the_platform() {
    let flags = CLONE_CHILD_CLEARTID | 17;
    let build = |abi: CloneAbi| {
        let plan = syscall_clone(flags, 0x9000, 0, 0x200, 0x300, abi, &USER).unwrap();
        plan.iter().any(|a| {
            *a == CloneAction::BuildProcess { sp: Some(0x9000), clear_tid: Some(0x300) }
        })
    };
    assert!(build(CloneAbi::RiscV));
    assert!(!build(CloneAbi::LoongArch));
}

#[test]
fn vfork_waits_for_the_child() {
    let plan = syscall_vfork(&USER);
    assert!(plan[1] == CloneAction::Fork { share_files: false, share_vm: true, share_fs: false });
    assert!(plan[plan.len() - 1] == CloneAction::WaitForChild);
    let mut queue: Vec<usize> = vec![];
    assert!(vfork_wait_step(&mut queue, 3, false, false));
    assert_eq!(queue, vec![3]);
    assert!(!vfork_wait_step(&mut queue, 3, false, true));
    assert!(queue.is_empty());
    assert!(!vfork_wait_step(&mut queue, 3, true, false));
}

#[test]
fn threads_take_their_slot() {
    let mut tasks = vec![Some(1)];
    publish_thread(&mut tasks, 3, 9);
    assert_eq!(tasks, vec![Some(1), None, None, Some(9)]);
    publish_thread(&mut tasks, 1, 8);
    assert_eq!(tasks[1], Some(8));
}

#[test]
fn pids_are_those_of_the_namespace() {
    assert_eq!(syscall_getpid(42, 0, 1), 42);
    assert_eq!(syscall_getpid(42, 5, 1), 1);
}

#[test]
fn pidfds_that_cannot_be_told_are_closed() {
    let ok = install_child_pidfd(Some(5), true, true);
    assert!(ok.result == Ok(5) && !ok.close);
    let unread = install_child_pidfd(Some(5), false, true);
    assert!(unread.result == Err(EFAULT) && unread.close);
    let replaced = install_child_pidfd(Some(5), false, false);
    assert!(replaced.result == Err(EFAULT) && !replaced.close);
    assert!(install_child_pidfd(None, false, false).result.is_err());
}

fn block(fields: [u64; 11], size: usize) -> Option<Vec<u8>> {
    let mut v: Vec<u8> = vec![];
    for f in fields {
        v.extend_from_slice(&f.to_le_bytes());
    }
    v.resize(size, 0);
    Some(v)
}

#[test]
fn argument_blocks_are_read_in_every_size() {
    let f: [u64; 11] = [1, 2, 3, 4, 5, 6, 7, 8, 9, 10, 11];
    let a = read_clone3_args(1, 88, &block(f, 88)).unwrap();
    assert_eq!((a.flags, a.pidfd, a.child_tid, a.parent_tid), (1, 2, 3, 4));
    assert_eq!((a.exit_signal, a.stack, a.stack_size, a.tls), (5, 6, 7, 8));
    assert_eq!((a.set_tid, a.set_tid_size, a.cgroup), (9, 10, 11));
    let short = read_clone3_args(1, 64, &block(f, 64)).unwrap();
    assert_eq!((short.tls, short.set_tid, short.cgroup), (8, 0, 0));
    assert_eq!(read_clone3_args(1, 63, &block(f, 63)).err(), Some(EINVAL));
    assert_eq!(read_clone3_args(1, 4097, &block(f, 4097)).err(), Some(E2BIG));
    assert_eq!(read_clone3_args(0, 88, &block(f, 88)).err(), Some(EFAULT));
    assert_eq!(read_clone3_args(1, 88, &None).err(), Some(EFAULT));
    let mut long = block(f, 96);
    assert!(read_clone3_args(1, 96, &long).is_ok());
    long.as_mut().unwrap()[90] = 1;
    assert_eq!(read_clone3_args(1, 96, &long).err(), Some(E2BIG));
}

fn args3() -> Clone3Args {
    Clone3Args {
        flags: 0,
        pidfd: 0,
        child_tid: 0,
        parent_tid: 0,
        exit_signal: 17,
        stack: 0,
        stack_size: 0,
        tls: 0,
        set_tid: 0,
        set_tid_size: 0,
        cgroup: 0,
    }
}

#[test]
fn exit_signals_survive() {
    let r = parse_clone3(&Clone3Args { flags: CLONE_FILES, ..args3() }, 88, CgroupLookup::Target)
        .unwrap();
    assert_eq!(r.flags & 0xff, 17);
    assert_eq!(r.flags & !0xff, CLONE_FILES);
    let s = parse_clone3(
        &Clone3Args { stack: 0x1000, stack_size: 0x200, ..args3() },
        88,
        CgroupLookup::Target,
    )
    .unwrap();
    assert_eq!(s.stack, 0x1200);
}

#[test]
fn clone3_refusals() {
    let err = |a: Clone3Args, size: usize, g: CgroupLookup| parse_clone3(&a, size, g).err();
    let t = CgroupLookup::Target;
    assert_eq!(err(Clone3Args { flags: 17, ..args3() }, 88, t), Some(EINVAL));
    assert_eq!(err(Clone3Args { exit_signal: 65, ..args3() }, 88, t), Some(EINVAL));
    assert_eq!(err(Clone3Args { flags: 1 << 40, ..args3() }, 88, t), Some(EINVAL));
    assert_eq!(err(Clone3Args { flags: CLONE_PARENT, ..args3() }, 88, t), Some(EINVAL));
    assert_eq!(err(Clone3Args { stack: 8, ..args3() }, 88, t), Some(EINVAL));
    assert_eq!(err(Clone3Args { set_tid: 8, ..args3() }, 88, t), Some(EINVAL));
    let both = CLONE_PIDFD | CLONE_PARENT_SETTID;
    assert_eq!(err(Clone3Args { flags: both, ..args3() }, 88, t), Some(EINVAL));
    assert_eq!(err(Clone3Args { flags: CLONE_PIDFD, ..args3() }, 88, t), Some(EFAULT));
    let into = Clone3Args { flags: CLONE_INTO_CGROUP, ..args3() };
    assert_eq!(err(into, 80, t), Some(EINVAL));
    assert_eq!(err(into, 88, CgroupLookup::NoFile), Some(EBADF));
    assert_eq!(err(into, 88, CgroupLookup::NotCgroup(ENOTDIR)), Some(ENOTDIR));
    assert_eq!(err(into, 88, t), None);
    let huge = Clone3Args { stack: u64::MAX, stack_size: 1, ..args3() };
    assert_eq!(err(huge, 88, t), Some(EINVAL));
}

#[test]
fn clone3_makes_the_same_plan_as_clone() {
    let mut f = [0u64; 11];
    f[4] = 17;
    let a = syscall_clone3(1, 88, &block(f, 88), CgroupLookup::NoFile, &USER).unwrap();
    let b = syscall_clone(17, 0, 0, 0, 0, CloneAbi::RiscV, &USER).unwrap();
    assert!(a == b);
    assert_eq!(syscall_clone3(1, 8, &None, CgroupLookup::NoFile, &USER).err(), Some(EINVAL));
}

#[test]
fn children_move_to_the_parent() {
    let mut procs = vec![
        record(1, None, None),
        record(2, Some(1), Some(0)),
        record(3, Some(2), Some(0)),
        record(4, Some(2), Some(1)),
    ];
    let mut mine = vec![3, 4];
    let mut theirs = vec![2];
    assert!(reparent_child(&mut procs, &mut mine, &mut theirs, 2, 3, 1));
    assert_eq!(mine, vec![4]);
    assert_eq!(theirs, vec![2, 3]);
    assert_eq!(procs[2].parent, Some(1));
    assert_eq!(procs[2].child_parent_index, Some(1));
    assert_eq!(procs[3].child_parent_index, Some(0));
    procs[0].exit_teardown = true;
    assert!(!reparent_child(&mut procs, &mut mine, &mut theirs, 2, 4, 1));
    assert_eq!(mine, vec![4]);
}

#[test]
fn unstarted_children_leave_no_trace() {
    let mut procs = vec![record(2, None, None), record(3, Some(2), Some(0))];
    let mut children = vec![3];
    let (gone, actions) = rollback_unstarted_child(&mut procs, &mut children, 3, false, true);
    let gone = gone.unwrap();
    assert!(gone.wait_reaped && gone.exit_teardown && gone.parent.is_none());
    assert!(children.is_empty());
    assert_eq!(procs.len(), 1);
    assert!(actions[0] == RollbackAction::LeaveCgroup);
    assert!(actions.iter().any(|a| *a == RollbackAction::UndoShm));
    let (none, _) = rollback_unstarted_child(&mut procs, &mut children, 3, true, false);
    assert!(none.is_none());
}
