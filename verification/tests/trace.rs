//! Tracing, executing files and diagnostics.

use linux_syscalls::errno::{EINVAL, EIO, EPERM, ESRCH};
use linux_syscalls::process::diagnostics::{
    debug_task_ref_breakdown, record_fork_diag, should_report_fork_diag, ForkDiag, ProcessRefs,
};
use linux_syscalls::process::executing::{is_inode_open_for_write, ExecutingInodes, OpenInode};
use linux_syscalls::process::ptrace::{
    enter_ptrace_stop, maybe_stop_after_ptrace_exec, ptrace_target_for_current,
    release_ptrace_tracer, syscall_ptrace, wake_parent_waiters_for, wake_waiters_on, PtraceAction,
    TraceTask, PTRACE_ATTACH, PTRACE_CONT, PTRACE_DETACH, PTRACE_KILL,
    PTRACE_TRACEME,
};
use linux_syscalls::process::table::ProcRecord;

fn record(pid: usize, parent: Option<usize>) -> ProcRecord {
    ProcRecord {
        pid,
        pgid: 1,
        uid: 0,
        parent,
        child_parent_index: None,
        exit_queue_of: None,
        exit_signal: 17,
        exit_code: 0,
        dumped_core: false,
        is_zombie: false,
        exit_teardown: false,
        wait_reaped: false,
        stopped: false,
        stop_pending: false,
        stop_signal: 0,
        continued: false,
        tracer: None,
        tracee_count: 0,
        cpu_time_ns: 0,
        child_cpu_time_ns: 0,
    }
}

fn threads() -> Vec<TraceTask> {
    vec![
        TraceTask { id: 100, blocked: false, stopped_by_signal: false },
        TraceTask { id: 101, blocked: true, stopped_by_signal: false },
    ]
}

#[test]
fn attach_and_detach_keep_the_count() {
    let mut procs = vec![record(1, None), record(5, None), record(6, Some(1))];
    let mut tasks = threads();
    let r = syscall_ptrace(&mut procs, &mut tasks, 5, true, PTRACE_ATTACH, 6, 0);
    assert_eq!(r.ret, 0);
    assert!(r.actions == vec![PtraceAction::Notify(1), PtraceAction::Notify(5)]);
    assert_eq!(procs[2].tracer, Some(5));
    assert_eq!(procs[1].tracee_count, 1);
    assert!(procs[2].stopped && procs[2].stop_pending && procs[2].stop_signal == 19);
    assert!(tasks[0].blocked && tasks[0].stopped_by_signal);
    assert!(tasks[1].blocked && !tasks[1].stopped_by_signal);
    let r = syscall_ptrace(&mut procs, &mut tasks, 5, true, PTRACE_DETACH, 6, 2);
    assert_eq!(r.ret, 0);
    assert!(
        r.actions
            == vec![PtraceAction::Wake(100), PtraceAction::Signal(2), PtraceAction::Notify(1)]
    );
    assert_eq!(procs[1].tracee_count, 0);
    assert!(procs[2].tracer.is_none() && !procs[2].stopped && procs[2].continued);
}

#[test]
fn traceme_makes_the_parent_the_tracer() {
    let mut procs = vec![record(1, None), record(6, Some(1))];
    let mut tasks = threads();
    assert_eq!(syscall_ptrace(&mut procs, &mut tasks, 6, false, PTRACE_TRACEME, 0, 0).ret, 0);
    assert_eq!(procs[1].tracer, Some(1));
    assert_eq!(procs[0].tracee_count, 1);
    assert_eq!(syscall_ptrace(&mut procs, &mut tasks, 6, false, PTRACE_TRACEME, 0, 0).ret, EPERM);
    assert_eq!(syscall_ptrace(&mut procs, &mut tasks, 1, false, PTRACE_TRACEME, 0, 0).ret, EPERM);
    release_ptrace_tracer(&mut procs, 6);
    assert!(procs[1].tracer.is_none());
    assert_eq!(procs[0].tracee_count, 0);
}

#[test]
fn ptrace_refusals() {
    let mut procs = vec![record(5, None), record(6, None), record(7, None)];
    procs[2].is_zombie = true;
    let mut tasks = threads();
    let mut ret = |can: bool, request: usize, pid: usize, data: usize| {
        syscall_ptrace(&mut procs, &mut tasks, 5, can, request, pid, data).ret
    };
    assert_eq!(ret(true, PTRACE_ATTACH, 5, 0), EPERM);
    assert_eq!(ret(true, PTRACE_ATTACH, 99, 0), ESRCH);
    assert_eq!(ret(false, PTRACE_ATTACH, 6, 0), EPERM);
    assert_eq!(ret(true, PTRACE_ATTACH, 7, 0), ESRCH);
    assert_eq!(ret(true, PTRACE_CONT, 6, 65), EINVAL);
    assert_eq!(ret(true, PTRACE_CONT, 6, 0), EPERM);
    assert_eq!(ret(true, PTRACE_CONT, 0, 0), ESRCH);
    assert_eq!(ret(true, PTRACE_ATTACH, 6, 0), 0);
    assert_eq!(ret(true, PTRACE_ATTACH, 6, 0), EPERM);
    assert_eq!(ret(true, 1, 6, 0), EIO);
    assert_eq!(ret(true, PTRACE_KILL, 6, 0), 0);
}

#[test]
fn only_traced_processes_stop_for_a_tracer() {
    let mut procs = vec![record(5, None), record(6, Some(5))];
    let mut tasks = threads();
    assert!(enter_ptrace_stop(&mut procs, &mut tasks, 6, 5).is_none());
    procs[1].tracer = Some(5);
    assert_eq!(enter_ptrace_stop(&mut procs, &mut tasks, 6, 5), Some(vec![5]));
    assert_eq!(procs[1].stop_signal, 5);
    assert_eq!(ptrace_target_for_current(&procs, 5, 6), Ok(1));
    assert_eq!(ptrace_target_for_current(&procs, 4, 6), Err(EPERM));
    assert_eq!(wake_parent_waiters_for(&procs, &procs[1]), vec![5]);
}

#[test]
fn unregistering_undoes_registering() {
    let mut x = ExecutingInodes::new();
    assert!(!x.is_inode_currently_executed(1, 2));
    x.register_executing_inode(1, 2);
    x.register_executing_inode(1, 2);
    x.register_executing_inode(1, 3);
    assert!(x.is_inode_currently_executed(1, 2));
    x.unregister_executing_inode(1, 2);
    assert!(x.is_inode_currently_executed(1, 2));
    x.unregister_executing_inode(1, 2);
    assert!(!x.is_inode_currently_executed(1, 2));
    assert!(x.is_inode_currently_executed(1, 3));
    x.unregister_executing_inode(7, 7);
    x.register_executing_inode(0, 0);
    assert!(!x.is_inode_currently_executed(0, 0));
}

#[test]
fn files_open_for_writing_are_found() {
    let open = vec![
        OpenInode { ino: 4, writable: false },
        OpenInode { ino: 5, writable: true },
    ];
    assert!(!is_inode_open_for_write(&open, 4));
    assert!(is_inode_open_for_write(&open, 5));
    assert!(!is_inode_open_for_write(&open, 6));
}

#[test]
fn references_to_a_thread_are_counted_by_place() {
    let p = ProcessRefs {
        tasks: vec![1, 2, 1],
        join_waiters: vec![vec![1], vec![2, 1]],
        wait_queue: vec![1],
        vfork_wait_queue: vec![1],
        sync_waiters: vec![vec![], vec![1, 1, 1]],
    };
    let q = ProcessRefs {
        tasks: vec![1],
        join_waiters: vec![],
        wait_queue: vec![2],
        vfork_wait_queue: vec![],
        sync_waiters: vec![],
    };
    let r = debug_task_ref_breakdown(&vec![p, q], 1);
    assert_eq!((r.task_slots, r.wait_queues, r.join_waiters, r.sync_waiters), (3, 2, 2, 3));
}

#[test]
fn bursts_of_forks_are_reported() {
    assert!(should_report_fork_diag(16) && !should_report_fork_diag(17));
    assert!(should_report_fork_diag(256));
    let mut d = ForkDiag { parent_pid: 0, start_ms: 0, count: 9 };
    assert_eq!(record_fork_diag(&mut d, 7, 100), Some((1, 0)));
    assert_eq!(record_fork_diag(&mut d, 7, 130), Some((2, 30)));
    assert_eq!(d.start_ms, 100);
}

#[test]
fn killed_processes_are_woken_first() {
    let mut procs = vec![record(5, None), record(6, Some(1))];
    let mut tasks = threads();
    assert_eq!(syscall_ptrace(&mut procs, &mut tasks, 5, true, PTRACE_ATTACH, 6, 0).ret, 0);
    let r = syscall_ptrace(&mut procs, &mut tasks, 5, true, PTRACE_KILL, 6, 0);
    assert_eq!(r.ret, 0);
    assert!(r.actions == vec![PtraceAction::Wake(100), PtraceAction::Signal(9)]);
    assert!(!tasks[0].stopped_by_signal && !procs[1].stopped && !procs[1].continued);
}

#[test]
fn traced_processes_stop_after_exec() {
    let mut procs = vec![record(5, None), record(6, Some(5))];
    let mut tasks = threads();
    assert!(maybe_stop_after_ptrace_exec(&mut procs, &mut tasks, 6).is_none());
    procs[1].tracer = Some(5);
    assert_eq!(maybe_stop_after_ptrace_exec(&mut procs, &mut tasks, 6), Some(vec![5]));
    assert!(procs[1].stopped && procs[1].stop_signal == 5);
    let mut queue = vec![3, 4];
    assert_eq!(wake_waiters_on(&mut queue), (17, vec![3, 4]));
    assert!(queue.is_empty());
}
