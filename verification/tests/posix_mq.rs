//! POSIX message queues.

use linux_syscalls::errno::{
    EACCES, EAGAIN, EBADF, EBUSY, EEXIST, EFAULT, EINTR, EINVAL, EMFILE, EMSGSIZE, ENAMETOOLONG,
    ENOENT, ENOSPC, ETIMEDOUT,
};
use linux_syscalls::posix_mq::abi::{
    arm_timeout_timer, parse_abs_timeout, read_queue_name, realtime_now_ns, timed_out,
    valid_realtime_signal, TimeSpec, O_CLOEXEC, O_CREAT, O_EXCL, O_NONBLOCK, O_RDONLY, O_RDWR,
    O_WRONLY,
};
use linux_syscalls::posix_mq::access::{check_access, current_cred, is_owner_or_root, Cred, MqPerm};
use linux_syscalls::posix_mq::manager::{
    close_descriptor, mq_queues_default_limit, namespace_slot, queues_max_limit_for_procfs,
    syscall_mq_open, syscall_mq_unlink, write_mqueue_sysctl, MqManager, MqOpenCall, MqSysctl,
};
use linux_syscalls::posix_mq::notify::{
    deliver_notification, parse_notify_registration, send_removed_if_thread, Notification,
    Sigevent, MQ_NOTIFY_REMOVED, MQ_NOTIFY_WOKENUP, SIGEV_NONE, SIGEV_SIGNAL, SIGEV_THREAD,
    SIGEV_THREAD_ID, SI_MESGQ,
};
use linux_syscalls::posix_mq::queue::{
    maybe_clear_notify_for_owner, received_result, syscall_mq_getsetattr, syscall_mq_notify,
    syscall_mq_timedreceive, syscall_mq_timedsend, wake_all_waiters, Attempt, MqAttr, MqDescriptor,
    MqQueue, ReceiveStep, SendStep, POLLIN, POLLOUT,
};

fn cred(uid: u32) -> Cred {
    current_cred(uid, uid, uid, &vec![50], 7)
}

fn open(name: &str, oflag: usize) -> MqOpenCall {
    let mut bytes = name.as_bytes().to_vec();
    bytes.push(0);
    MqOpenCall {
        name_ptr: 1,
        name: bytes,
        oflag,
        mode: 0o600,
        attr_ptr: 0,
        attr: None,
        free_fd: Some(3),
        queues_max: 4,
    }
}

fn attr(maxmsg: i64, msgsize: i64) -> MqAttr {
    MqAttr { mq_flags: 0, mq_maxmsg: maxmsg, mq_msgsize: msgsize, mq_curmsgs: 0 }
}

fn fresh(maxmsg: usize, msgsize: usize) -> MqQueue {
    MqQueue {
        id: 1,
        name: None,
        open_count: 1,
        perm: MqPerm { uid: 0, gid: 0, mode: 0o600 },
        maxmsg,
        msgsize,
        messages: vec![],
        recv_waiters: vec![],
        send_waiters: vec![],
        poll_waiters: vec![],
        notify: None,
    }
}

const BOTH: MqDescriptor =
    MqDescriptor { queue_id: 1, readable: true, writable: true, flags: 0, owner_pid: 7 };

const NOW: Attempt = Attempt {
    timeout_ptr: 0,
    timeout: None,
    now_ns: 1_000,
    signal_pending: false,
    task: Some(9),
    woken: false,
};

fn send(q: &mut MqQueue, data: &[u8], prio: usize) -> SendStep {
    let payload = Some(data.to_vec());
    syscall_mq_timedsend(q, Some(BOTH), data.len(), &payload, prio, NOW, &vec![], 5, 6)
}

fn receive(q: &mut MqQueue) -> (u32, Vec<u8>) {
    match syscall_mq_timedreceive(q, Some(BOTH), 64, NOW, &vec![]) {
        ReceiveStep::Received { message, .. } => (message.prio, message.data),
        _ => panic!(),
    }
}

fn send_error(step: SendStep) -> isize {
    match step {
        SendStep::Fail(e) => e,
        _ => 0,
    }
}

fn receive_error(step: ReceiveStep) -> isize {
    match step {
        ReceiveStep::Fail(e) => e,
        _ => 0,
    }
}

#[test]
fn times_are_read() {
    let ts = |s: i64, n: i64| Some(TimeSpec { tv_sec: s, tv_nsec: n });
    assert_eq!(parse_abs_timeout(0, None), Ok(None));
    assert_eq!(parse_abs_timeout(8, ts(2, 5)), Ok(Some(2_000_000_005)));
    assert_eq!(parse_abs_timeout(8, ts(i64::MAX, 0)), Ok(Some(u64::MAX)));
    assert_eq!(parse_abs_timeout(8, ts(-1, 0)), Err(EINVAL));
    assert_eq!(parse_abs_timeout(8, ts(0, 1_000_000_000)), Err(EINVAL));
    assert_eq!(parse_abs_timeout(8, None), Err(EFAULT));
    assert_eq!(realtime_now_ns(3, 7_000_000_001), 3_000_000_001);
    assert!(timed_out(Some(5), 5) && !timed_out(Some(5), 4) && !timed_out(None, 9));
}

#[test]
fn timers_are_not_early() {
    assert_eq!(arm_timeout_timer(2_000_001, 1_000_000), 2);
    assert_eq!(arm_timeout_timer(2_000_000, 1_000_000), 1);
    assert_eq!(arm_timeout_timer(5, 9), 1);
}

#[test]
fn queue_names_lose_one_slash() {
    assert_eq!(read_queue_name(1, b"/a\0"), Ok(b"a".to_vec()));
    assert_eq!(read_queue_name(1, b"a\0"), Ok(b"a".to_vec()));
    assert_eq!(read_queue_name(0, b"a\0"), Err(EFAULT));
    assert_eq!(read_queue_name(1, b"a"), Err(EFAULT));
    assert_eq!(read_queue_name(1, b"/\0"), Err(EINVAL));
    assert_eq!(read_queue_name(1, b"/a/b\0"), Err(EINVAL));
    assert_eq!(read_queue_name(1, &[0xff, 0]), Err(EINVAL));
    let mut long = vec![b'x'; 256];
    long.push(0);
    assert_eq!(read_queue_name(1, &long), Err(ENAMETOOLONG));
    long[0] = b'/';
    assert_eq!(read_queue_name(1, &long).map(|n| n.len()), Ok(255));
}

#[test]
fn one_class_of_permission_bits_counts() {
    let perm = MqPerm { uid: 1, gid: 50, mode: 0o046 };
    assert!(!check_access(&perm, &cred(1), true, false));
    assert!(check_access(&perm, &cred(2), true, false));
    assert!(!check_access(&perm, &cred(2), false, true));
    assert!(check_access(&perm, &cred(0), true, true));
    let other = current_cred(3, 3, 3, &vec![], 7);
    assert!(check_access(&perm, &other, true, true));
    assert!(is_owner_or_root(&perm, &cred(1)) && !is_owner_or_root(&perm, &cred(2)));
    let many: Vec<u32> = (0..12).collect();
    assert_eq!(current_cred(1, 1, 1, &many, 7).groups.len(), 8);
}

#[test]
fn queues_are_made_and_opened() {
    let mut m = MqManager::new();
    let made = syscall_mq_open(&mut m, &open("/q", O_RDWR | O_CREAT | O_CLOEXEC), &cred(1)).unwrap();
    assert_eq!((made.fd, made.fd_flags), (3, 1));
    assert_eq!((m.by_id[0].maxmsg, m.by_id[0].msgsize, m.by_id[0].perm.mode), (10, 8192, 0o600));
    let again = syscall_mq_open(&mut m, &open("q", O_RDONLY | O_NONBLOCK), &cred(1)).unwrap();
    assert_eq!(again.desc.queue_id, made.desc.queue_id);
    assert!(again.desc.readable && !again.desc.writable && again.desc.nonblock());
    assert_eq!(again.fd_flags, 0x800);
    assert_eq!(m.by_id[0].open_count, 2);
}

#[test]
fn open_refusals() {
    let mut m = MqManager::new();
    let mut err = |c: MqOpenCall, who: &Cred| syscall_mq_open(&mut m, &c, who).err();
    assert_eq!(err(open("/q", O_RDWR), &cred(1)), Some(ENOENT));
    assert_eq!(err(open("/q", 3), &cred(1)), Some(EINVAL));
    let asks = O_RDWR | O_CREAT;
    assert_eq!(err(MqOpenCall { attr_ptr: 8, ..open("/q", asks) }, &cred(1)), Some(EFAULT));
    let zero = MqOpenCall { attr_ptr: 8, attr: Some(attr(0, 1)), ..open("/q", asks) };
    assert_eq!(err(zero, &cred(1)), Some(EINVAL));
    assert_eq!(err(MqOpenCall { queues_max: 0, ..open("/q", asks) }, &cred(1)), Some(ENOSPC));
    assert_eq!(err(MqOpenCall { free_fd: None, ..open("/q", asks) }, &cred(1)), Some(EMFILE));
    assert_eq!(err(open("/q", asks), &cred(1)), None);
    assert_eq!(err(open("/q", asks | O_EXCL), &cred(1)), Some(EEXIST));
    assert_eq!(err(open("/q", O_WRONLY), &cred(2)), Some(EACCES));
    assert_eq!(err(MqOpenCall { name_ptr: 0, ..open("/q", asks) }, &cred(1)), Some(EFAULT));
    assert_eq!(m.by_id.len(), 1);
}

#[test]
fn open_queues_survive_unlink() {
    let mut m = MqManager::new();
    let name = b"/q\0".to_vec();
    let o = syscall_mq_open(&mut m, &open("/q", O_RDWR | O_CREAT), &cred(1)).unwrap();
    assert_eq!(syscall_mq_unlink(&mut m, 1, &name, &cred(2)), EACCES);
    assert_eq!(syscall_mq_unlink(&mut m, 1, &name, &cred(1)), 0);
    assert_eq!(syscall_mq_unlink(&mut m, 1, &name, &cred(1)), ENOENT);
    assert_eq!(syscall_mq_open(&mut m, &open("/q", O_RDWR), &cred(1)).err(), Some(ENOENT));
    assert_eq!(m.by_id.len(), 1);
    assert!(matches!(close_descriptor(&mut m, &o.desc), Notification::Nothing));
    assert!(m.by_id.is_empty());
}

#[test]
fn unlinking_a_closed_queue_removes_it() {
    let mut m = MqManager::new();
    let o = syscall_mq_open(&mut m, &open("/q", O_RDWR | O_CREAT), &cred(1)).unwrap();
    close_descriptor(&mut m, &o.desc);
    assert_eq!(m.by_id.len(), 1);
    assert_eq!(syscall_mq_unlink(&mut m, 1, &b"q\0".to_vec(), &cred(0)), 0);
    assert!(m.by_id.is_empty() && m.by_name.is_empty());
}

#[test]
fn messages_come_by_priority_and_in_order() {
    let mut q = fresh(10, 64);
    for (d, p) in [(b"a", 1), (b"b", 5), (b"c", 1), (b"d", 5)] {
        assert!(matches!(send(&mut q, d, p), SendStep::Sent { .. }));
    }
    assert_eq!(receive(&mut q), (5, b"b".to_vec()));
    assert_eq!(receive(&mut q), (5, b"d".to_vec()));
    assert_eq!(receive(&mut q), (1, b"a".to_vec()));
    assert_eq!(receive(&mut q), (1, b"c".to_vec()));
}

#[test]
fn sends_are_refused() {
    let mut q = fresh(1, 4);
    let p = Some(b"abc".to_vec());
    let none = vec![];
    let wr = MqDescriptor { writable: false, ..BOTH };
    assert_eq!(send_error(send(&mut q, b"abc", 32768)), EINVAL);
    assert_eq!(send_error(send(&mut q, b"abcde", 0)), EMSGSIZE);
    assert_eq!(
        send_error(syscall_mq_timedsend(&mut q, Some(wr), 3, &p, 0, NOW, &none, 5, 6)),
        EBADF
    );
    assert_eq!(send_error(syscall_mq_timedsend(&mut q, None, 3, &p, 0, NOW, &none, 5, 6)), EBADF);
    assert_eq!(
        send_error(syscall_mq_timedsend(&mut q, Some(BOTH), 3, &None, 0, NOW, &none, 5, 6)),
        EFAULT
    );
    let bad = Attempt { timeout_ptr: 8, ..NOW };
    assert_eq!(
        send_error(syscall_mq_timedsend(&mut q, Some(BOTH), 3, &p, 0, bad, &none, 5, 6)),
        EFAULT
    );
    assert!(matches!(send(&mut q, b"abc", 0), SendStep::Sent { .. }));
    let nb = MqDescriptor { flags: 0x800, ..BOTH };
    assert_eq!(
        send_error(syscall_mq_timedsend(&mut q, Some(nb), 3, &p, 0, NOW, &none, 5, 6)),
        EAGAIN
    );
    let late = Attempt {
        timeout_ptr: 8,
        timeout: Some(TimeSpec { tv_sec: 0, tv_nsec: 1 }),
        ..NOW
    };
    assert_eq!(
        send_error(syscall_mq_timedsend(&mut q, Some(BOTH), 3, &p, 0, late, &none, 5, 6)),
        ETIMEDOUT
    );
    let signal = Attempt { signal_pending: true, ..NOW };
    assert_eq!(
        send_error(syscall_mq_timedsend(&mut q, Some(BOTH), 3, &p, 0, signal, &none, 5, 6)),
        EINTR
    );
    let soon = Attempt {
        timeout_ptr: 8,
        timeout: Some(TimeSpec { tv_sec: 0, tv_nsec: 5_000_000 }),
        ..NOW
    };
    assert!(matches!(
        syscall_mq_timedsend(&mut q, Some(BOTH), 3, &p, 0, soon, &none, 5, 6),
        SendStep::Sleep { timer_ms: Some(5) }
    ));
    assert_eq!(q.send_waiters, vec![9]);
}

#[test]
fn receives_are_refused() {
    let mut q = fresh(4, 8);
    let none = vec![];
    assert_eq!(receive_error(syscall_mq_timedreceive(&mut q, None, 8, NOW, &none)), EBADF);
    let nb = MqDescriptor { flags: 0x800, ..BOTH };
    assert_eq!(receive_error(syscall_mq_timedreceive(&mut q, Some(nb), 8, NOW, &none)), EAGAIN);
    assert!(matches!(
        syscall_mq_timedreceive(&mut q, Some(BOTH), 8, NOW, &none),
        ReceiveStep::Sleep { timer_ms: None }
    ));
    assert_eq!(q.recv_waiters, vec![9]);
    let woken = Attempt { woken: true, signal_pending: true, ..NOW };
    assert_eq!(receive_error(syscall_mq_timedreceive(&mut q, Some(BOTH), 8, woken, &none)), EINTR);
    assert!(matches!(send(&mut q, b"abc", 0), SendStep::Sent { .. }));
    assert_eq!(receive_error(syscall_mq_timedreceive(&mut q, Some(BOTH), 2, NOW, &none)), EMSGSIZE);
    assert_eq!(q.messages.len(), 1);
}

#[test]
fn sleepers_are_woken() {
    let mut q = fresh(4, 8);
    q.recv_waiters = vec![1, 2];
    q.poll_waiters = vec![3];
    let p = Some(b"x".to_vec());
    match syscall_mq_timedsend(&mut q, Some(BOTH), 1, &p, 0, NOW, &vec![2], 5, 6) {
        SendStep::Sent { wake, poll_wake, .. } => {
            assert_eq!((wake, poll_wake), (vec![2], vec![3]));
        },
        _ => panic!(),
    }
    assert!(q.recv_waiters.is_empty() && q.poll_waiters.is_empty());
    let mut waiters = vec![4, 5];
    assert_eq!(wake_all_waiters(&mut waiters, &vec![5, 4]), vec![4, 5]);
    assert_eq!(received_result(3, true, 0, false), 3);
    assert_eq!(received_result(3, false, 0, false), EFAULT);
    assert_eq!(received_result(3, true, 8, false), EFAULT);
}

#[test]
fn descriptors_poll() {
    let mut q = fresh(1, 8);
    assert_eq!(BOTH.poll_mask(&q), POLLOUT);
    assert!(matches!(send(&mut q, b"x", 0), SendStep::Sent { .. }));
    assert_eq!(BOTH.poll_mask(&q), POLLIN);
    let reader = MqDescriptor { writable: false, ..BOTH };
    receive(&mut q);
    assert_eq!(reader.poll_mask(&q), 0);
    assert!(!reader.register_poll_waiter(&mut q, 4));
    assert_eq!(q.poll_waiters, vec![4]);
}

#[test]
fn attributes_are_read_then_set() {
    let mut q = fresh(4, 8);
    send(&mut q, b"x", 0);
    let mut d = BOTH;
    let wanted = MqAttr { mq_flags: 0x800, ..attr(99, 99) };
    let (before, ret) = syscall_mq_getsetattr(&q, &mut d, true, 8, Some(wanted), 16, true);
    let before = before.unwrap();
    assert_eq!(ret, 0);
    assert_eq!(
        (before.mq_flags, before.mq_maxmsg, before.mq_msgsize, before.mq_curmsgs),
        (0, 4, 8, 1)
    );
    assert!(d.nonblock());
    assert_eq!(syscall_mq_getsetattr(&q, &mut d, false, 0, None, 0, false).1, EBADF);
    assert_eq!(syscall_mq_getsetattr(&q, &mut d, true, 8, None, 0, false).1, EFAULT);
    assert_eq!(syscall_mq_getsetattr(&q, &mut d, true, 0, None, 16, false).1, EFAULT);
    d.set_nonblock(false);
    assert!(!d.nonblock());
}

fn event(notify: i32, signo: i32) -> Option<Sigevent> {
    Some(Sigevent { sigev_value: 77, sigev_signo: signo, sigev_notify: notify, sigev_tid: 12 })
}

#[test]
fn registrations_fire_once() {
    let mut q = fresh(4, 8);
    let ev = event(SIGEV_SIGNAL, 10);
    assert_eq!(syscall_mq_notify(&mut q, Some(BOTH), 8, ev, 7, 0, None).0, 0);
    assert_eq!(syscall_mq_notify(&mut q, Some(BOTH), 8, ev, 8, 0, None).0, EBUSY);
    match send(&mut q, b"x", 0) {
        SendStep::Sent { notification, .. } => match notification {
            Notification::Signal { pid, tid, signo, sender_pid, sender_uid, code, value } => {
                assert_eq!((pid, tid, signo, value), (7, None, 10, 77));
                assert_eq!((sender_pid, sender_uid, code), (5, 6, SI_MESGQ));
            },
            _ => panic!(),
        },
        _ => panic!(),
    }
    assert!(q.notify.is_none());
    assert_eq!(syscall_mq_notify(&mut q, Some(BOTH), 8, ev, 7, 0, None).0, 0);
    match send(&mut q, b"y", 0) {
        SendStep::Sent { notification, .. } => assert!(matches!(notification, Notification::Nothing)),
        _ => panic!(),
    }
}

#[test]
fn registration_refusals() {
    let err = |ev: Option<Sigevent>, sock: isize, cookie: Option<[u8; 32]>| {
        parse_notify_registration(8, ev, 7, sock, cookie).err()
    };
    assert_eq!(err(None, 0, None), Some(EFAULT));
    assert_eq!(err(event(SIGEV_SIGNAL, 0), 0, None), Some(EINVAL));
    assert_eq!(err(event(SIGEV_SIGNAL, 65), 0, None), Some(EINVAL));
    assert_eq!(err(event(3, 1), 0, None), Some(EINVAL));
    assert_eq!(err(event(SIGEV_THREAD, -1), 0, None), Some(EBADF));
    assert_eq!(err(event(SIGEV_THREAD, 4), EBADF, None), Some(EBADF));
    assert_eq!(err(event(SIGEV_THREAD, 4), 0, None), Some(EFAULT));
    let no_thread = Sigevent { sigev_tid: 0, ..event(SIGEV_THREAD_ID, 4).unwrap() };
    assert_eq!(err(Some(no_thread), 0, None), Some(EINVAL));
    let reg = parse_notify_registration(8, event(SIGEV_THREAD_ID, 4), 7, 0, None);
    assert_eq!(reg.ok().unwrap().unwrap().tid, Some(12));
    let mut q = fresh(1, 1);
    assert_eq!(syscall_mq_notify(&mut q, None, 8, event(SIGEV_NONE, 0), 7, 0, None).0, EBADF);
    assert!(valid_realtime_signal(64) && !valid_realtime_signal(65) && !valid_realtime_signal(0));
}

#[test]
fn silent_registrations_send_nothing() {
    let reg = parse_notify_registration(8, event(SIGEV_NONE, 9), 7, 0, None).ok().unwrap().unwrap();
    assert!(matches!(deliver_notification(&reg, 1, 1), Notification::Nothing));
    assert!(matches!(send_removed_if_thread(&reg), Notification::Nothing));
}

#[test]
fn sockets_learn_of_messages_and_of_the_end() {
    let mut q = fresh(4, 8);
    let cookie = Some([3u8; 32]);
    assert_eq!(syscall_mq_notify(&mut q, Some(BOTH), 8, event(SIGEV_THREAD, 4), 7, 0, cookie).0, 0);
    let reg = q.notify.unwrap();
    match deliver_notification(&reg, 1, 1) {
        Notification::Cookie { pid, sockfd, cookie, event } => {
            assert_eq!((pid, sockfd, cookie, event), (7, 4, [3u8; 32], MQ_NOTIFY_WOKENUP));
        },
        _ => panic!(),
    }
    assert!(matches!(maybe_clear_notify_for_owner(&mut q, 8), Notification::Nothing));
    assert!(q.notify.is_some());
    let (ret, sent) = syscall_mq_notify(&mut q, Some(BOTH), 0, None, 7, 0, None);
    assert_eq!(ret, 0);
    assert!(matches!(sent, Notification::Cookie { event: MQ_NOTIFY_REMOVED, .. }));
    assert!(q.notify.is_none());
}

#[test]
fn the_limit_on_queues_can_be_set() {
    let mut s = MqSysctl::new();
    let path = b"/proc/sys/fs/mqueue/queues_max";
    assert_eq!(queues_max_limit_for_procfs(&s), mq_queues_default_limit());
    assert_eq!(write_mqueue_sysctl(&mut s, path, Ok(1024)), Ok(b"1024\n".to_vec()));
    assert_eq!(queues_max_limit_for_procfs(&s), 1024);
    assert_eq!(write_mqueue_sysctl(&mut s, path, Ok(0)), Err(EINVAL));
    assert_eq!(write_mqueue_sysctl(&mut s, path, Ok(65537)), Err(EINVAL));
    assert_eq!(write_mqueue_sysctl(&mut s, path, Err(EFAULT)), Err(EFAULT));
    assert_eq!(write_mqueue_sysctl(&mut s, b"/proc/other", Ok(5)), Err(EINVAL));
    assert_eq!(queues_max_limit_for_procfs(&s), 1024);
}

#[test]
fn namespaces_hold_their_own_queues() {
    let mut spaces = vec![];
    let a = namespace_slot(&mut spaces, 5);
    let b = namespace_slot(&mut spaces, 6);
    assert_eq!(namespace_slot(&mut spaces, 5), a);
    let c = open("/q", O_RDWR | O_CREAT);
    assert!(syscall_mq_open(&mut spaces[a].manager, &c, &cred(1)).is_ok());
    assert!(spaces[b].manager.by_id.is_empty());
    assert_eq!(spaces[a].manager.alloc_id(), 2);
}

#[test]
fn empty_messages_need_no_memory() {
    let mut q = fresh(2, 8);
    let step = syscall_mq_timedsend(&mut q, Some(BOTH), 0, &None, 7, NOW, &vec![], 5, 6);
    assert!(matches!(step, SendStep::Sent { .. }));
    assert!(q.messages.len() == 1 && q.messages[0].prio == 7 && q.messages[0].data.is_empty());
}

#[test]
fn queues_stay_sound() {
    let mut m = MqManager::new();
    assert_eq!(m.next_id, 0);
    let mut c = open("/q", O_RDWR | O_CREAT);
    c.attr_ptr = 1;
    c.attr = Some(attr(2, 4));
    assert!(syscall_mq_open(&mut m, &c, &cred(0)).is_ok());
    for (prio, data) in [(1usize, "low"), (32767, "high"), (5, "full"), (0, "toolong")] {
        send(&mut m.by_id[0], data.as_bytes(), prio);
    }
    assert!(matches!(send(&mut m.by_id[0], b"x", 32768), SendStep::Fail(_)));
    let prios: Vec<u32> = m.by_id[0].messages.iter().map(|x| x.prio).collect();
    assert_eq!(prios, vec![32767, 1]);
    c.attr = Some(attr(9, 9));
    assert!(syscall_mq_open(&mut m, &c, &cred(0)).is_ok());
    assert_eq!((m.by_id[0].maxmsg, m.by_id[0].msgsize, m.by_id.len()), (2, 4, 1));
}
