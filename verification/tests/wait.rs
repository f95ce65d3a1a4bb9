//! Waiting for children.

use linux_syscalls::errno::{EAGAIN, EBADF, ECHILD, EFAULT, EINTR, EINVAL, ERESTARTSYS, ESRCH};
use linux_syscalls::process::family::{find_child_slot, remove_child_at};
use linux_syscalls::process::queue::{
    drain_queue, enqueue_waiter_once, queue_contains, remove_wait_queue_entry,
};
use linux_syscalls::process::signals::{
    signal_in, signal_reaction, wait4_pending_action, SigAction, WaitReaction, SA_RESTART, SIG_DFL,
    SIG_IGN,
};
use linux_syscalls::process::table::{pid2process, remove_from_pid2process, ProcRecord};
use linux_syscalls::process::wait::{
    encode_exit_status, encode_stop_status, reap_zombie_child, syscall_wait4, take_exited_child,
    wait4_signal_matches, ReapAction, ReapTask, Wait4Step, WaitCaller, WaitQuery, CONTINUED_STATUS,
    WALL, WCLONE, WCONTINUED, WNOHANG, WUNTRACED,
};
use linux_syscalls::process::waitid::{
    syscall_waitid, write_siginfo, PidfdLookup, WaitInfo, WaitidStep, CLD_CONTINUED, CLD_DUMPED,
    CLD_EXITED, CLD_KILLED, CLD_STOPPED, P_ALL, P_PGID, P_PID, P_PIDFD, WEXITED, WNOWAIT,
    WSTOPPED,
};

const ME: usize = 10;

fn child(pid: usize, slot: usize) -> ProcRecord {
    ProcRecord {
        pid,
        pgid: 10,
        uid: 1000,
        parent: Some(ME),
        child_parent_index: Some(slot),
        exit_queue_of: None,
        exit_signal: 17,
        exit_code: 0,
        dumped_core: false,
        is_zombie: false,
        exit_teardown: false,
        wait_reaped: false,
        stopped: false,
        stop_pending: false,
        stop_signal: 0,
        continued: false,
        tracer: None,
        tracee_count: 0,
        cpu_time_ns: 5,
        child_cpu_time_ns: 7,
    }
}

fn zombie(pid: usize, slot: usize, code: i32) -> ProcRecord {
    ProcRecord { is_zombie: true, exit_code: code, ..child(pid, slot) }
}

fn caller(children: Vec<usize>, exited: Vec<usize>) -> WaitCaller {
    WaitCaller {
        pid: ME,
        pgid: 10,
        tracee_count: 0,
        children,
        exited_children: exited,
        wait_queue: vec![],
        child_cpu_time_ns: 100,
    }
}

#[test]
fn status_words_decode() {
    let w = encode_exit_status(3, false);
    assert_eq!(w, 0x300);
    assert_eq!(w & 0x7f, 0);
    assert_eq!((w >> 8) & 0xff, 3);
    assert_eq!(encode_exit_status(256 + 7, false), 0x700);
    assert_eq!(encode_exit_status(-9, false), 9);
    assert_eq!(encode_exit_status(-11, true), 11 | 0x80);
    assert_eq!(encode_stop_status(19), 0x137f);
    assert_eq!(CONTINUED_STATUS, 0xffff);
}

#[test]
fn exited_child_is_reaped() {
    let mut me = caller(vec![20, 21, 22], vec![21]);
    let mut procs = vec![child(20, 0), zombie(21, 1, 3), child(22, 2)];
    procs[1].exit_queue_of = Some(ME);
    let step = syscall_wait4(&mut me, &mut procs, 1, -1, 0, false);
    assert!(matches!(step, Wait4Step::Event { pid: 21, status: 0x300, reaped: true }));
    assert_eq!(me.children, vec![20, 22]);
    assert!(me.exited_children.is_empty());
    assert_eq!(me.child_cpu_time_ns, 112);
    assert_eq!(pid2process(&procs, 21), None);
    let k = pid2process(&procs, 22).unwrap();
    assert_eq!(procs[k].child_parent_index, Some(1));
}

#[test]
fn wait4_asks_for_one_child_or_a_group() {
    let mut me = caller(vec![20, 21], vec![]);
    let mut procs = vec![zombie(20, 0, 1), zombie(21, 1, 2)];
    procs[1].pgid = 77;
    assert!(matches!(
        syscall_wait4(&mut me, &mut procs, 1, -77, 0, false),
        Wait4Step::Event { pid: 21, status: 0x200, reaped: true }
    ));
    assert!(matches!(
        syscall_wait4(&mut me, &mut procs, 1, 20, 0, false),
        Wait4Step::Event { pid: 20, status: 0x100, reaped: true }
    ));
    assert!(matches!(
        syscall_wait4(&mut me, &mut procs, 1, -1, 0, false),
        Wait4Step::Fail(e) if e == ECHILD
    ));
}

#[test]
fn wait4_refusals() {
    let mut me = caller(vec![20], vec![]);
    let mut procs = vec![child(20, 0)];
    assert!(matches!(
        syscall_wait4(&mut me, &mut procs, 1, -1, 0x100, false),
        Wait4Step::Fail(e) if e == EINVAL
    ));
    assert!(matches!(
        syscall_wait4(&mut me, &mut procs, 1, isize::MIN, 0, false),
        Wait4Step::Fail(e) if e == ESRCH
    ));
    assert!(matches!(
        syscall_wait4(&mut me, &mut procs, 1, 99, 0, false),
        Wait4Step::Fail(e) if e == ECHILD
    ));
}

#[test]
fn wnohang_returns_at_once() {
    let mut me = caller(vec![20], vec![]);
    let mut procs = vec![child(20, 0)];
    assert!(matches!(
        syscall_wait4(&mut me, &mut procs, 1, -1, WNOHANG, false),
        Wait4Step::NoEvent
    ));
    assert!(me.wait_queue.is_empty());
}

#[test]
fn a_wait_checks_signals_before_it_sleeps() {
    let mut me = caller(vec![20], vec![]);
    let mut procs = vec![child(20, 0)];
    assert!(matches!(
        syscall_wait4(&mut me, &mut procs, 5, -1, 0, false),
        Wait4Step::CheckSignals
    ));
    assert!(matches!(syscall_wait4(&mut me, &mut procs, 5, -1, 0, true), Wait4Step::Block));
    assert_eq!(me.wait_queue, vec![5]);
}

#[test]
fn stops_and_continuations_are_reported_once() {
    let mut me = caller(vec![20], vec![]);
    let mut procs = vec![child(20, 0)];
    procs[0].stopped = true;
    procs[0].stop_pending = true;
    procs[0].stop_signal = 20;
    assert!(matches!(
        syscall_wait4(&mut me, &mut procs, 1, -1, WNOHANG, false),
        Wait4Step::NoEvent
    ));
    assert!(matches!(
        syscall_wait4(&mut me, &mut procs, 1, -1, WUNTRACED | WNOHANG, false),
        Wait4Step::Event { pid: 20, status: 0x147f, reaped: false }
    ));
    assert!(matches!(
        syscall_wait4(&mut me, &mut procs, 1, -1, WUNTRACED | WNOHANG, false),
        Wait4Step::NoEvent
    ));
    procs[0].continued = true;
    assert!(matches!(
        syscall_wait4(&mut me, &mut procs, 1, -1, WCONTINUED | WNOHANG, false),
        Wait4Step::Event { pid: 20, status: 0xffff, reaped: false }
    ));
    assert!(matches!(
        syscall_wait4(&mut me, &mut procs, 1, -1, WCONTINUED | WNOHANG, false),
        Wait4Step::NoEvent
    ));
}

#[test]
fn tracers_see_stops_of_strangers() {
    let mut me = caller(vec![], vec![]);
    me.tracee_count = 1;
    let mut procs = vec![ProcRecord {
        parent: Some(3),
        tracer: Some(ME),
        stopped: true,
        stop_pending: true,
        stop_signal: 5,
        ..child(30, 0)
    }];
    assert!(matches!(
        syscall_wait4(&mut me, &mut procs, 1, -1, 0, false),
        Wait4Step::Event { pid: 30, status: 0x57f, reaped: false }
    ));
}

#[test]
fn clone_children_are_the_others() {
    assert!(wait4_signal_matches(17, 0));
    assert!(!wait4_signal_matches(0, 0));
    assert!(!wait4_signal_matches(17, WCLONE));
    assert!(wait4_signal_matches(0, WCLONE));
    assert!(wait4_signal_matches(0, WALL) && wait4_signal_matches(17, WALL));
}

#[test]
fn stale_entries_leave_the_exit_queue() {
    let mut queue = vec![19, 20, 21, 22];
    let mut procs = vec![child(20, 0), zombie(21, 1, 0), zombie(22, 2, 0)];
    procs[0].exit_queue_of = Some(ME);
    let q = WaitQuery { pid: -1, options: 0, caller: ME, caller_pgid: 10 };
    assert_eq!(take_exited_child(&mut queue, &mut procs, q), Some(21));
    assert_eq!(queue, vec![22]);
    assert_eq!(procs[0].exit_queue_of, None);
    assert_eq!(take_exited_child(&mut queue, &mut procs, q), Some(22));
    assert_eq!(take_exited_child(&mut queue, &mut procs, q), None);
}

#[test]
fn reaping_drops_what_still_refers_to_threads() {
    let tasks = vec![
        Some(ReapTask { id: 1, exit_cleaned: true }),
        None,
        Some(ReapTask { id: 2, exit_cleaned: false }),
    ];
    let (cpu, actions) = reap_zombie_child(&zombie(21, 0, 0), &tasks);
    assert_eq!(cpu, 12);
    assert!(actions == vec![ReapAction::DropTimerRefs(1), ReapAction::DropInactive(2)]);
    let busy = ProcRecord { cpu_time_ns: u64::MAX, ..zombie(21, 0, 0) };
    assert_eq!(reap_zombie_child(&busy, &vec![]).0, u64::MAX);
}

#[test]
fn waitid_refusals() {
    let mut me = caller(vec![20], vec![]);
    let mut procs = vec![child(20, 0)];
    let none = PidfdLookup::NotPidfd;
    let fail = |step: WaitidStep| match step {
        WaitidStep::Fail(e) => e,
        _ => 0,
    };
    assert_eq!(fail(syscall_waitid(&mut me, &mut procs, 1, P_ALL, 0, 8, 0, none, None)), EINVAL);
    assert_eq!(
        fail(syscall_waitid(&mut me, &mut procs, 1, P_ALL, 0, 8, WEXITED | 0x4000, none, None)),
        EINVAL
    );
    assert_eq!(
        fail(syscall_waitid(&mut me, &mut procs, 1, P_ALL, 0, 0, WEXITED, none, None)),
        EFAULT
    );
    assert_eq!(
        fail(syscall_waitid(&mut me, &mut procs, 1, P_PID, 0, 8, WEXITED, none, None)),
        EINVAL
    );
    assert_eq!(
        fail(syscall_waitid(&mut me, &mut procs, 1, P_PIDFD, 4, 8, WEXITED, none, None)),
        EBADF
    );
    assert_eq!(
        fail(syscall_waitid(&mut me, &mut procs, 1, P_PIDFD, 4, 8, WEXITED, PidfdLookup::Gone, None)),
        ECHILD
    );
    assert_eq!(
        fail(syscall_waitid(&mut me, &mut procs, 1, 4, 0, 8, WEXITED, none, None)),
        EINVAL
    );
    let fd = PidfdLookup::Target { pid: 20, nonblock: true };
    assert_eq!(
        fail(syscall_waitid(&mut me, &mut procs, 1, P_PIDFD, 4, 8, WEXITED, fd, None)),
        EAGAIN
    );
    assert_eq!(
        fail(syscall_waitid(&mut me, &mut procs, 1, P_ALL, 0, 8, WEXITED, none, Some(EINTR))),
        EINTR
    );
    assert_eq!(
        fail(syscall_waitid(&mut me, &mut procs, 1, P_PID, 99, 8, WEXITED, none, None)),
        ECHILD
    );
    assert!(matches!(
        syscall_waitid(&mut me, &mut procs, 1, P_ALL, 0, 8, WEXITED | WNOHANG, none, None),
        WaitidStep::NoEvent
    ));
    assert!(matches!(
        syscall_waitid(&mut me, &mut procs, 6, P_ALL, 0, 8, WEXITED, none, None),
        WaitidStep::Block
    ));
    assert_eq!(me.wait_queue, vec![6]);
}

#[test]
fn wnowait_leaves_the_event() {
    let mut me = caller(vec![20, 21], vec![21]);
    let mut procs = vec![child(20, 0), zombie(21, 1, -6)];
    procs[1].dumped_core = true;
    let none = PidfdLookup::NotPidfd;
    match syscall_waitid(&mut me, &mut procs, 1, P_ALL, 0, 8, WEXITED | WNOWAIT, none, None) {
        WaitidStep::Info { info, reaped } => {
            assert_eq!(reaped, None);
            assert_eq!((info.si_code, info.si_pid, info.si_status), (CLD_DUMPED, 21, 6));
            assert_eq!((info.si_signo, info.si_uid), (17, 1000));
        },
        _ => panic!(),
    }
    assert_eq!(me.children, vec![20, 21]);
    match syscall_waitid(&mut me, &mut procs, 1, P_ALL, 0, 8, WEXITED, none, None) {
        WaitidStep::Info { info, reaped } => {
            assert_eq!(reaped, Some(21));
            assert_eq!(info.si_pid, 21);
        },
        _ => panic!(),
    }
    assert_eq!(me.children, vec![20]);
    assert_eq!(me.child_cpu_time_ns, 112);
    assert!(me.exited_children.is_empty());
}

#[test]
fn waitid_tells_how_a_child_changed() {
    let none = PidfdLookup::NotPidfd;
    let code = |r: ProcRecord, options: usize| {
        let mut me = caller(vec![20], vec![]);
        let mut procs = vec![r];
        match syscall_waitid(&mut me, &mut procs, 1, P_PGID, 0, 8, options, none, None) {
            WaitidStep::Info { info, .. } => (info.si_code, info.si_status),
            _ => (0, 0),
        }
    };
    assert_eq!(code(zombie(20, 0, 0x1ff), WEXITED), (CLD_EXITED, 0xff));
    assert_eq!(code(zombie(20, 0, -9), WEXITED), (CLD_KILLED, 9));
    let stopped = ProcRecord { stopped: true, stop_pending: true, ..child(20, 0) };
    assert_eq!(code(stopped, WSTOPPED), (CLD_STOPPED, 19));
    let continued = ProcRecord { continued: true, ..child(20, 0) };
    assert_eq!(code(continued, WCONTINUED), (CLD_CONTINUED, 18));
}

#[test]
fn pending_signals_end_or_restart_a_wait() {
    let ignore = SigAction { handler: SIG_IGN, flags: 0 };
    let default = SigAction { handler: SIG_DFL, flags: 0 };
    let handled = SigAction { handler: 0x1000, flags: 0 };
    let restart = SigAction { handler: 0x1000, flags: SA_RESTART };
    let mut actions = vec![default; 65];
    let fatal: u64 = 1 << 14;
    assert!(signal_in(fatal, 15) && !signal_in(fatal, 14));
    assert!(signal_reaction(&actions, fatal, 15) == WaitReaction::Interrupt);
    assert_eq!(wait4_pending_action(0, &actions, fatal), (None, 0));
    actions[2] = handled;
    assert_eq!(wait4_pending_action(1 << 1, &actions, fatal).0, Some(EINTR));
    actions[2] = restart;
    assert_eq!(wait4_pending_action(1 << 1, &actions, fatal).0, Some(ERESTARTSYS));
    actions[2] = ignore;
    let (what, dropped) = wait4_pending_action(1 << 1, &actions, fatal);
    assert_eq!(what, None);
    assert_eq!(dropped, 1 << 1);
}

#[test]
fn wait_queues_hold_a_task_once() {
    let mut q: Vec<usize> = vec![];
    assert!(enqueue_waiter_once(&mut q, 4));
    assert!(enqueue_waiter_once(&mut q, 5));
    assert!(!enqueue_waiter_once(&mut q, 4));
    assert!(queue_contains(&q, 4));
    remove_wait_queue_entry(&mut q, 4);
    assert!(!queue_contains(&q, 4));
    assert_eq!(drain_queue(&mut q), vec![5]);
    assert!(q.is_empty());
}

#[test]
fn detaching_keeps_the_slots_of_the_other_children() {
    let mut children = vec![20, 21, 22];
    let mut procs = vec![child(20, 0), child(21, 1), child(22, 2)];
    assert_eq!(find_child_slot(&procs, &children, 22), Some(2));
    assert_eq!(remove_child_at(&mut children, &mut procs, 0), 20);
    assert_eq!(children, vec![22, 21]);
    assert_eq!(procs[2].child_parent_index, Some(0));
    assert_eq!(procs[1].child_parent_index, Some(1));
    assert_eq!(find_child_slot(&procs, &children, 22), Some(0));
    assert_eq!(find_child_slot(&procs, &children, 20), None);
    remove_from_pid2process(&mut procs, 20);
    assert_eq!(procs.len(), 2);
}

#[test]
fn siginfo_lies_in_memory_as_the_caller_expects() {
    let info = WaitInfo { si_signo: 17, si_code: 2, si_pid: 0x1234, si_uid: 1000, si_status: 9 };
    let bytes = write_siginfo(&info);
    assert_eq!(bytes.len(), 128);
    assert_eq!(bytes[0..4], [17, 0, 0, 0]);
    assert_eq!(bytes[8..12], [2, 0, 0, 0]);
    assert_eq!(bytes[16..20], [0x34, 0x12, 0, 0]);
    assert_eq!(bytes[20..24], [0xe8, 3, 0, 0]);
    assert_eq!(bytes[24..28], [9, 0, 0, 0]);
    assert!(bytes[28..].iter().all(|b| *b == 0));
    assert!(write_siginfo(&WaitInfo::default()).iter().all(|b| *b == 0));
}
