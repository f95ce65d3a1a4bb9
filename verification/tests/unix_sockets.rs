//! Local sockets: names, connections and messages.

use linux_syscalls::errno::{
    EADDRINUSE, EAGAIN, ECONNREFUSED, EFAULT, EINTR, EINVAL, EISCONN, ENOENT, ENOTCONN, ENOTDIR,
    ENOTSOCK, EOPNOTSUPP, EPERM, EPIPE, EPROTONOSUPPORT,
};
use linux_syscalls::net::getsockopt::UCred;
use linux_syscalls::net::setsockopt::{SetAction, SockFlag, SocketKind};
use linux_syscalls::net::sockname::{
    syscall_getpeername, syscall_getsockname, syscall_shutdown, AddrChoice, EndFacts, Endpoint,
};
use linux_syscalls::net::unix_addr::{
    copy_name, parse_sockaddr_un, parse_unix_bound_addr, read_sockaddr_un_family, same_name,
    sockaddr_un_bytes, split_parent_and_name, write_msg_name_un, write_sockaddr_un, UnixAddr,
};
use linux_syscalls::net::unix_connect;
use linux_syscalls::net::unix_connect::{
    bind_unix_socket, check_bind_path, connect_unix, send_dgram, send_dgram_with_control,
    FilterVerdict, NewConnection, PathFacts, WriteStep,
};
use linux_syscalls::net::unix_socket::{
    apply_filter_snapshot_to_stream_end, arm_timeout_timer, detach_result, AcceptStep, EndFilter,
    EndPoll, EndStep, FilterState, ReadStep, RecvStep, TimerStep, UnixDatagram, UnixSocket,
    POLLERR, POLLHUP, POLLIN, POLLOUT,
};
use linux_syscalls::net::unix_table::UnixTable;

const ALICE: UCred = UCred { pid: 1, uid: 1000, gid: 100 };
const BOB: UCred = UCred { pid: 2, uid: 2000, gid: 200 };
const STREAM: u32 = 1;
const DGRAM: u32 = 2;
const UNFILTERED: FilterVerdict = FilterVerdict { classic: None, program: None };
const FREE: PathFacts = PathFacts {
    parent_found: true,
    parent_is_dir: true,
    name_exists: false,
    create_ok: true,
    exists_after: false,
};
const QUIET: EndPoll = EndPoll { mask: 0, readable: false, writable: false };

fn path(s: &str) -> UnixAddr {
    UnixAddr::Path(s.as_bytes().to_vec())
}

fn hidden(s: &str) -> UnixAddr {
    UnixAddr::Abstract(s.as_bytes().to_vec())
}

fn address(name: &[u8]) -> Vec<u8> {
    let mut v = vec![1, 0];
    v.extend_from_slice(name);
    v
}

fn table(types: &[u32]) -> UnixTable {
    let mut t = UnixTable::new();
    for (i, ty) in types.iter().enumerate() {
        let id = i as u64 + 1;
        t.add_socket(UnixSocket::new(id, *ty, 100 + id, 7, if i == 0 { ALICE } else { BOB }));
    }
    t
}

fn bind(t: &mut UnixTable, k: usize, name: UnixAddr) {
    assert_eq!(bind_unix_socket(t, k, Ok(name), &FREE).ret, 0);
}

fn message(step: RecvStep) -> UnixDatagram {
    match step {
        RecvStep::Message(m) => m,
        _ => panic!(),
    }
}

fn conn(id: u64) -> NewConnection {
    NewConnection { id, inode: 500 + id, client_end: 10 * id, server_end: 10 * id + 1 }
}

#[test]
fn addresses_are_read() {
    let mem = address(b"/tmp/s\0junk");
    assert!(same_name(&parse_sockaddr_un(1, mem.len(), &mem).unwrap(), &path("/tmp/s")));
    let mem = address(b"\0ab\0c\0\0");
    let name = parse_sockaddr_un(1, mem.len(), &mem).unwrap();
    assert!(same_name(&name, &hidden("ab\0c")));
    assert!(!same_name(&name, &path("ab\0c")));
    assert!(same_name(&copy_name(&name), &name));
}

#[test]
fn bad_addresses_are_refused() {
    let mem = address(b"/tmp/s");
    let err = |ptr: usize, len: usize, mem: &[u8]| parse_sockaddr_un(ptr, len, mem).err();
    assert_eq!(err(1, 129, &mem), Some(EINVAL));
    assert_eq!(err(0, 8, &mem), Some(EFAULT));
    assert_eq!(err(1, 9, &mem), Some(EFAULT));
    assert_eq!(err(0, 0, &mem), Some(EINVAL));
    assert_eq!(err(1, 2, &mem), Some(EINVAL));
    assert_eq!(err(1, 111, &vec![1; 111]), Some(EINVAL));
    assert_eq!(err(1, 4, &[2, 0, 47, 47]), Some(EINVAL));
    assert_eq!(err(1, 5, &[1, 0, 0, 0, 0]), Some(EINVAL));
    assert_eq!(parse_unix_bound_addr(1, 4, &[1, 0, 0xff, 0]).err(), Some(EINVAL));
    assert!(parse_unix_bound_addr(1, 4, &[1, 0, 0, 0xff]).is_ok());
    assert_eq!(read_sockaddr_un_family(1, 2, &[40, 0]), Ok(40));
    assert_eq!(read_sockaddr_un_family(0, 2, &[40, 0]), Err(EFAULT));
    assert_eq!(read_sockaddr_un_family(1, 1, &[40, 0]), Err(EINVAL));
    assert_eq!(read_sockaddr_un_family(1, 2, &[40]), Err(EFAULT));
}

#[test]
fn addresses_read_back() {
    for name in [path("/tmp/s"), hidden("xyz")] {
        let bytes = sockaddr_un_bytes(&Some(copy_name(&name)));
        assert_eq!(bytes.len(), 110);
        assert!(same_name(&parse_sockaddr_un(1, 110, &bytes).unwrap(), &name));
        assert_eq!(write_msg_name_un(&Some(name)), bytes);
    }
    let none = sockaddr_un_bytes(&None);
    assert_eq!((none[0], none[1], none[2]), (1, 0, 0));
    let cut = write_sockaddr_un(1, 1, Some(4), &Some(path("/tmp/s"))).ok().unwrap();
    assert_eq!((cut.bytes, cut.len), (vec![1, 0, 47, 116], 110));
    assert_eq!(write_sockaddr_un(0, 1, Some(4), &None).err(), Some(EFAULT));
    assert_eq!(write_sockaddr_un(1, 1, None, &None).err(), Some(EFAULT));
    assert_eq!(write_sockaddr_un(1, 1, Some(0x8000_0000), &None).err(), Some(EINVAL));
}

#[test]
fn paths_are_split() {
    let split = |p: &str| split_parent_and_name(p.as_bytes());
    assert_eq!(split("/a/b"), Some((b"/a".to_vec(), b"b".to_vec())));
    assert_eq!(split("/b"), Some((b"/".to_vec(), b"b".to_vec())));
    assert_eq!(split("/"), None);
}

#[test]
fn bound_names_are_found() {
    let mut t = table(&[STREAM]);
    bind(&mut t, 0, path("/s"));
    assert_eq!(t.lookup_unix_bound_socket(7, &path("/s")), Ok(0));
    assert_eq!(t.lookup_unix_bound_socket(8, &path("/s")), Ok(0));
    assert_eq!(t.lookup_unix_bound_socket(7, &hidden("/s")), Err(ENOENT));
    assert_eq!(t.sock_place(1), Some(0));
    assert_eq!(t.register_unix_bound_socket(7, &path("/s"), 9), EADDRINUSE);
}

#[test]
fn abstract_names_belong_to_their_namespace() {
    let mut t = table(&[STREAM]);
    bind(&mut t, 0, hidden("s"));
    assert_eq!(t.lookup_unix_bound_socket(7, &hidden("s")), Ok(0));
    assert_eq!(t.lookup_unix_bound_socket(8, &hidden("s")), Err(ENOENT));
}

#[test]
fn closing_frees_the_name() {
    let mut t = table(&[STREAM, STREAM]);
    bind(&mut t, 0, hidden("n"));
    assert_eq!(bind_unix_socket(&mut t, 1, Ok(hidden("n")), &FREE).ret, EADDRINUSE);
    t.close_socket(1);
    assert_eq!(t.sock_place(1), None);
    let k = t.sock_place(2).unwrap();
    bind(&mut t, k, hidden("n"));
    t.cleanup_net_namespace(7);
    assert_eq!(t.lookup_unix_bound_socket(7, &hidden("n")), Err(ENOENT));
}

#[test]
fn failed_binds_leave_no_file() {
    let mut t = table(&[STREAM, STREAM]);
    let mut ret = |f: PathFacts| {
        let r = bind_unix_socket(&mut t, 0, Ok(path("/d/s")), &f);
        assert_eq!(r.created, r.remove);
        r.ret
    };
    assert_eq!(ret(PathFacts { parent_found: false, ..FREE }), ENOENT);
    assert_eq!(ret(PathFacts { parent_is_dir: false, ..FREE }), ENOTDIR);
    assert_eq!(ret(PathFacts { name_exists: true, ..FREE }), EADDRINUSE);
    assert_eq!(ret(PathFacts { create_ok: false, exists_after: true, ..FREE }), EADDRINUSE);
    assert_eq!(ret(PathFacts { create_ok: false, ..FREE }), EINVAL);
    assert_eq!(bind_unix_socket(&mut t, 0, Err(EFAULT), &FREE).ret, EFAULT);
    let made = bind_unix_socket(&mut t, 0, Ok(path("/d/s")), &FREE);
    assert!(made.ret == 0 && made.created && !made.remove);
    assert_eq!(bind_unix_socket(&mut t, 0, Ok(path("/d/t")), &FREE).ret, EINVAL);
    let taken = bind_unix_socket(&mut t, 1, Ok(path("/d/s")), &FREE);
    assert!(taken.ret == EADDRINUSE && taken.created && taken.remove);
    assert_eq!(check_bind_path(&b"/".to_vec(), &FREE), Err(EINVAL));
}

#[test]
fn connections_are_accepted_in_order() {
    let mut t = table(&[STREAM, STREAM, STREAM]);
    bind(&mut t, 0, path("/s"));
    bind(&mut t, 1, hidden("client"));
    assert!(t.socks[0].set_listening(8, ALICE).is_ok());
    t.socks[0].opts.rcvtimeo = Some(50);
    t.socks[0].waiters = vec![4];
    let r = connect_unix(&mut t, 1, &path("/s"), conn(10), BOB);
    assert_eq!(r.ret, 0);
    assert_eq!(r.woken, vec![4]);
    assert_eq!(r.ends.unwrap().0.rcvtimeo, Some(50));
    assert_eq!(connect_unix(&mut t, 2, &path("/s"), conn(11), BOB).ret, 0);
    let server = &t.socks[t.sock_place(10).unwrap()];
    assert!(same_name(server.peer_addr.as_ref().unwrap(), &hidden("client")));
    assert!(server.peer_cred == Some(BOB) && server.local_cred == ALICE);
    assert_eq!(server.stream_end, Some(101));
    assert!(same_name(&t.socks[1].peer_name().unwrap(), &path("/s")));
    assert!(t.socks[1].peer_cred == Some(ALICE));
    assert_eq!(t.socks[0].poll_mask(&QUIET), POLLIN);
    assert!(t.socks[0].accept_stream(true) == AcceptStep::Taken(10));
    assert!(t.socks[0].accept_stream(true) == AcceptStep::Taken(11));
    assert!(t.socks[0].accept_stream(true) == AcceptStep::Fail(EAGAIN));
    assert!(t.socks[0].accept_stream(false) == AcceptStep::Wait);
    assert_eq!(connect_unix(&mut t, 1, &path("/s"), conn(12), BOB).ret, EISCONN);
}

#[test]
fn connect_refusals() {
    let mut t = table(&[STREAM, STREAM, DGRAM, 3]);
    assert_eq!(connect_unix(&mut t, 1, &path("/s"), conn(10), BOB).ret, ENOENT);
    bind(&mut t, 0, path("/s"));
    bind(&mut t, 2, path("/d"));
    assert_eq!(connect_unix(&mut t, 1, &path("/s"), conn(10), BOB).ret, ECONNREFUSED);
    assert_eq!(connect_unix(&mut t, 1, &path("/d"), conn(10), BOB).ret, EPROTONOSUPPORT);
    assert_eq!(connect_unix(&mut t, 2, &path("/s"), conn(10), BOB).ret, EPROTONOSUPPORT);
    assert_eq!(connect_unix(&mut t, 3, &path("/s"), conn(10), BOB).ret, EPROTONOSUPPORT);
    assert!(t.socks[0].set_listening(0, ALICE).is_ok());
    assert_eq!(t.socks[0].backlog, 1);
    assert_eq!(connect_unix(&mut t, 1, &path("/s"), conn(10), BOB).ret, 0);
    t.add_socket(UnixSocket::new(50, STREAM, 1, 7, BOB));
    let last = t.socks.len() - 1;
    assert_eq!(connect_unix(&mut t, last, &path("/s"), conn(11), BOB).ret, ECONNREFUSED);
    assert_eq!(t.socks[2].set_listening(1, BOB).err(), Some(EOPNOTSUPP));
    assert_eq!(t.socks[1].set_listening(1, BOB).err(), Some(EINVAL));
    assert!(t.socks[1].accept_stream(true) == AcceptStep::Fail(EINVAL));
    assert!(t.socks[2].accept_stream(true) == AcceptStep::Fail(EOPNOTSUPP));
}

#[test]
fn messages_keep_their_order() {
    let mut t = table(&[DGRAM, DGRAM]);
    bind(&mut t, 0, path("/a"));
    bind(&mut t, 1, path("/b"));
    assert_eq!(connect_unix(&mut t, 0, &path("/b"), conn(10), ALICE).ret, 0);
    t.socks[1].waiters = vec![9];
    let r = send_dgram(&mut t, 0, b"one".to_vec(), None, UNFILTERED);
    assert_eq!((r.ret, r.woken), (3, vec![9]));
    assert_eq!(send_dgram(&mut t, 0, b"two!".to_vec(), Some(path("/b")), UNFILTERED).ret, 4);
    assert_eq!(message(t.socks[1].recv_dgram(true, true, false, 0)).payload, b"one".to_vec());
    let first = message(t.socks[1].recv_dgram(true, false, false, 0));
    assert_eq!(first.payload, b"one".to_vec());
    assert!(same_name(&first.from.unwrap(), &path("/a")));
    assert_eq!(message(t.socks[1].recv_dgram(true, false, false, 0)).payload, b"two!".to_vec());
    assert!(matches!(t.socks[1].recv_dgram(true, false, false, 0), RecvStep::Fail(e) if e == EAGAIN));
    assert!(matches!(t.socks[1].recv_dgram(false, false, true, 0), RecvStep::Fail(e) if e == EINTR));
    assert!(matches!(t.socks[1].recv_dgram(false, false, false, 0), RecvStep::Wait));
}

fn bytes(step: ReadStep) -> Option<Vec<u8>> {
    match step {
        ReadStep::Data(b) => Some(b),
        _ => None,
    }
}

#[test]
fn what_is_written_is_read() {
    let mut t = table(&[DGRAM, DGRAM, STREAM, 3]);
    bind(&mut t, 1, path("/b"));
    assert!(unix_connect::write(&mut t, 0, b"x".to_vec(), UNFILTERED).0 == WriteStep::Done(0));
    connect_unix(&mut t, 0, &path("/b"), conn(10), ALICE);
    assert!(unix_connect::write(&mut t, 0, b"hello".to_vec(), UNFILTERED).0 == WriteStep::Done(5));
    assert!(unix_connect::write(&mut t, 0, vec![], UNFILTERED).0 == WriteStep::Done(0));
    assert_eq!(t.socks[1].socket_timestamp(Some(9)), None);
    assert_eq!(bytes(t.socks[1].read(3, false, 40)), Some(b"hel".to_vec()));
    assert_eq!(t.socks[1].socket_timestamp(None), Some(40));
    assert!(matches!(t.socks[1].read(3, false, 40), ReadStep::Wait));
    assert_eq!(bytes(t.socks[1].read(3, true, 40)), Some(vec![]));
    assert_eq!(bytes(t.socks[2].read(3, false, 40)), Some(vec![]));
    assert_eq!(t.socks[2].socket_timestamp(Some(9)), None);
    t.socks[2].stream_end = Some(4);
    assert!(matches!(t.socks[2].read(3, false, 40), ReadStep::Forward(4)));
    assert!(unix_connect::write(&mut t, 2, b"x".to_vec(), UNFILTERED).0 == WriteStep::Forward(4));
    assert_eq!(t.socks[2].socket_timestamp(Some(9)), Some(9));
    assert_eq!(bytes(t.socks[3].read(3, false, 40)), Some(vec![]));
}

#[test]
fn the_time_of_the_last_message_is_kept() {
    let mut t = table(&[DGRAM, DGRAM]);
    bind(&mut t, 1, path("/b"));
    for _ in 0..2 {
        send_dgram(&mut t, 0, b"m".to_vec(), Some(path("/b")), UNFILTERED);
    }
    message(t.socks[1].recv_dgram(true, true, false, 5));
    assert_eq!(t.socks[1].socket_timestamp(None), None);
    message(t.socks[1].recv_dgram(true, false, false, 6));
    assert_eq!(t.socks[1].socket_timestamp(None), Some(6));
    message(t.socks[1].recv_dgram(true, false, false, 8));
    assert!(matches!(t.socks[1].recv_dgram(true, false, false, 9), RecvStep::Fail(_)));
    assert_eq!(t.socks[1].socket_timestamp(None), Some(8));
}

#[test]
fn waiting_connections_go_with_their_listener() {
    let mut t = table(&[STREAM, STREAM, STREAM, STREAM]);
    bind(&mut t, 0, path("/s"));
    assert!(t.socks[0].set_listening(8, ALICE).is_ok());
    let mut server_ends = vec![];
    for (k, id) in [(1, 10), (2, 11), (3, 12)] {
        assert_eq!(connect_unix(&mut t, k, &path("/s"), conn(id), BOB).ret, 0);
        let place = t.sock_place(id).unwrap();
        server_ends.push(t.socks[place].stream_end.unwrap());
    }
    assert!(t.socks[0].accept_stream(true) == AcceptStep::Taken(10));
    assert_eq!(t.close_socket(1), server_ends[1..].to_vec());
    let left: Vec<u64> = t.socks.iter().map(|s| s.id).collect();
    assert_eq!(left, vec![2, 3, 4, 10]);
    assert_eq!(t.close_socket(10), server_ends[..1].to_vec());
    assert_eq!(t.close_socket(10), vec![]);
}

#[test]
fn filters_cut_and_drop_messages() {
    let mut t = table(&[DGRAM, DGRAM]);
    bind(&mut t, 1, path("/b"));
    assert!(t.socks[1].attach_filter(33) == EndStep::Return(0));
    let cut = FilterVerdict { classic: Some(2), program: None };
    assert_eq!(send_dgram(&mut t, 0, b"one".to_vec(), Some(path("/b")), cut).ret, 3);
    assert_eq!(send_dgram(&mut t, 0, b"two".to_vec(), Some(path("/b")), UNFILTERED).ret, 3);
    assert_eq!(t.socks[1].queue.len(), 1);
    assert_eq!(message(t.socks[1].recv_dgram(true, false, false, 0)).payload, b"on".to_vec());
}

#[test]
fn credentials_go_with_messages() {
    let mut t = table(&[DGRAM, DGRAM]);
    bind(&mut t, 1, path("/b"));
    let to = || Some(path("/b"));
    send_dgram(&mut t, 0, vec![], to(), UNFILTERED);
    send_dgram_with_control(&mut t, 0, vec![], to(), 5, true, UNFILTERED);
    assert_eq!(t.socks[1].set_option(SetAction::Flag(SockFlag::PassCred, true)), None);
    send_dgram(&mut t, 0, vec![], to(), UNFILTERED);
    let with: Vec<bool> = t.socks[1].queue.iter().map(|m| m.with_cred).collect();
    assert_eq!(with, vec![false, true, true]);
    assert_eq!(t.socks[1].queue[1].control, 5);
}

#[test]
fn send_errors_are_kept_once() {
    let mut t = table(&[DGRAM, STREAM]);
    bind(&mut t, 1, path("/s"));
    assert_eq!(send_dgram(&mut t, 0, vec![1], None, UNFILTERED).ret, ENOTCONN);
    assert_eq!(send_dgram(&mut t, 1, vec![1], None, UNFILTERED).ret, EOPNOTSUPP);
    assert_eq!(send_dgram(&mut t, 0, vec![1], Some(path("/s")), UNFILTERED).ret, EPROTONOSUPPORT);
    assert_eq!(t.socks[0].take_socket_error(), 0);
    assert_eq!(send_dgram(&mut t, 0, vec![1], Some(path("/x")), UNFILTERED).ret, ENOENT);
    assert_eq!(t.socks[0].poll_mask(&QUIET), POLLERR | POLLOUT);
    assert_eq!(t.socks[0].take_socket_error(), 2);
    assert_eq!(t.socks[0].take_socket_error(), 0);
    t.socks[0].shutdown(1);
    assert_eq!(send_dgram(&mut t, 0, vec![1], Some(path("/x")), UNFILTERED).ret, EPIPE);
    assert_eq!(t.socks[0].take_socket_error(), 32);
    t.socks[0].waiters = vec![3];
    assert_eq!(t.socks[0].set_socket_error(EPERM), vec![3]);
    assert!(t.socks[0].record_peer_error(EAGAIN).is_empty());
    assert_eq!(t.socks[0].error, 1);
}

#[test]
fn closed_directions_show() {
    let mut s = UnixSocket::new(1, DGRAM, 2, 3, ALICE);
    assert_eq!(s.poll_mask(&QUIET), POLLOUT);
    assert!(s.poll_writable(&QUIET) && !s.poll_readable(&QUIET));
    s.shutdown(2);
    assert_eq!(s.poll_mask(&QUIET), POLLIN | POLLHUP);
    assert!(message(s.recv_dgram(false, false, false, 0)).payload.is_empty());
    let mut stream = UnixSocket::new(1, STREAM, 2, 3, ALICE);
    assert_eq!(stream.poll_mask(&QUIET), 0);
    stream.stream_end = Some(4);
    let end = EndPoll { mask: POLLIN | POLLOUT, readable: false, writable: true };
    assert_eq!(stream.poll_mask(&end), POLLOUT);
    assert!(stream.poll_writable(&end));
    assert_eq!(stream.register_poll_waiter(6), Some(Some(4)));
    assert_eq!(stream.register_poll_waiter(6), Some(Some(4)));
    assert_eq!(stream.waiters, vec![6]);
    assert_eq!(UnixSocket::new(1, 9, 2, 3, ALICE).register_poll_waiter(6), None);
}

#[test]
fn destinations_are_forgotten() {
    let mut t = table(&[DGRAM, DGRAM]);
    bind(&mut t, 1, path("/b"));
    connect_unix(&mut t, 0, &path("/b"), conn(10), ALICE);
    assert!(t.socks[0].peer_name().is_some());
    assert!(t.socks[0].disconnect_unix().is_ok());
    assert!(t.socks[0].peer_name().is_none());
    let mut s = UnixSocket::new(1, STREAM, 2, 3, ALICE);
    assert_eq!(s.disconnect_unix().err(), Some(EOPNOTSUPP));
}

#[test]
fn locked_filters_stay() {
    let mut s = UnixSocket::new(1, STREAM, 2, 3, ALICE);
    assert!(s.detach_filter() == EndStep::Return(ENOENT));
    assert!(s.attach_bpf(5) == EndStep::Return(0));
    assert!(s.attach_filter(6) == EndStep::Return(0));
    assert_eq!((s.filters.classic, s.filters.ebpf), (Some(6), None));
    assert!(s.set_filter_locked(true) == EndStep::Return(0));
    assert!(s.set_filter_locked(false) == EndStep::Return(EPERM));
    assert!(s.attach_bpf(7) == EndStep::Return(EPERM));
    assert!(s.detach_filter() == EndStep::Return(EPERM));
    assert_eq!(s.filters.classic, Some(6));
    assert!(s.filter_locked(None) && !s.filter_locked(Some(false)));
    let mut c = UnixSocket::new(1, STREAM, 2, 3, ALICE);
    c.stream_end = Some(8);
    assert!(c.attach_filter(6) == EndStep::Forward(8));
    assert_eq!(detach_result(false, ENOENT), ENOENT);
    assert_eq!(detach_result(true, ENOENT), 0);
    let f = FilterState { locked: true, classic: None, ebpf: Some(3) };
    assert!(apply_filter_snapshot_to_stream_end(f) == (EndFilter::Program(3), true));
}

#[test]
fn sockets_are_listed() {
    let mut s = UnixSocket::new(1, STREAM, 42, 3, ALICE);
    assert_eq!(s.proc_net_snapshot(), (42, 1, 1, vec![]));
    s.bound = Some(hidden("ab"));
    s.listening = true;
    assert_eq!(s.proc_net_snapshot(), (42, 1, 10, b"@ab".to_vec()));
    s.bound = Some(UnixAddr::Abstract(vec![0xff, 0x0a]));
    s.stream_end = Some(1);
    assert_eq!(s.proc_net_snapshot(), (42, 1, 3, b"@ff0a".to_vec()));
}

#[test]
fn waits_end_in_time() {
    let mut s = UnixSocket::new(1, STREAM, 2, 3, ALICE);
    assert!(s.is_stream_like() && !s.is_dgram());
    assert_eq!(s.rcvtimeo_deadline_ms(10), None);
    assert_eq!(s.set_option(SetAction::RcvTimeout(Some(25))), None);
    assert_eq!(s.rcvtimeo_deadline_ms(10), Some(35));
    assert_eq!(s.rcvtimeo_deadline_ms(u64::MAX), Some(u64::MAX));
    assert!(arm_timeout_timer(None, 5) == TimerStep::Suspend);
    assert!(arm_timeout_timer(Some(9), 5) == TimerStep::SleepFor(4));
    assert!(arm_timeout_timer(Some(5), 5) == TimerStep::Expired);
    s.opts.rcvlowat = 0;
    assert_eq!(s.rcvlowat_bytes(), 1);
    s.opts.rcvlowat = 64;
    assert_eq!(s.rcvlowat_bytes(), 64);
}

fn facts(kind: SocketKind) -> EndFacts {
    EndFacts {
        kind,
        unix_connected: false,
        netlink_peer: false,
        raw_local: 0,
        raw_peer: None,
        tcp_own: None,
        tcp_listening: None,
        udp_own: None,
        tcp_peer: None,
        udp_peer: None,
    }
}

#[test]
fn both_ends_have_addresses() {
    let e = Endpoint { ip: 0x7f00_0001, port: 80 };
    let own = |f: EndFacts| syscall_getsockname(1, 1, Ok(()), &f);
    let peer = |f: EndFacts| syscall_getpeername(1, 1, Ok(()), &f);
    assert!(own(facts(SocketKind::Unix)) == Ok(AddrChoice::UnixOwn));
    assert!(own(EndFacts { udp_own: Some(e), ..facts(SocketKind::Net) }) == Ok(AddrChoice::InDomain(e)));
    assert!(own(facts(SocketKind::Net)) == Err(ENOTCONN));
    assert!(own(facts(SocketKind::Vsock)) == Err(ENOTSOCK));
    assert!(peer(facts(SocketKind::Unix)) == Err(ENOTCONN));
    assert!(peer(EndFacts { unix_connected: true, ..facts(SocketKind::Unix) }) == Ok(AddrChoice::UnixPeer));
    assert!(peer(EndFacts { tcp_peer: Some(e), ..facts(SocketKind::Net) }) == Ok(AddrChoice::InDomain(e)));
    assert!(peer(facts(SocketKind::Packet)) == Err(ENOTSOCK));
    assert!(syscall_getpeername(0, 1, Ok(()), &facts(SocketKind::Pair)) == Err(EFAULT));
    assert!(syscall_getsockname(1, 1, Err(EPERM), &facts(SocketKind::Pair)) == Err(EPERM));
}

#[test]
fn shutdown_refusals() {
    assert_eq!(syscall_shutdown(3, Ok(()), SocketKind::Unix), Err(EINVAL));
    assert_eq!(syscall_shutdown(0, Err(EPERM), SocketKind::Unix), Err(EPERM));
    assert_eq!(syscall_shutdown(0, Ok(()), SocketKind::Netlink), Err(EOPNOTSUPP));
    assert_eq!(syscall_shutdown(0, Ok(()), SocketKind::Vsock), Err(ENOTCONN));
    assert_eq!(syscall_shutdown(0, Ok(()), SocketKind::NotSocket), Err(ENOTSOCK));
    assert_eq!(syscall_shutdown(2, Ok(()), SocketKind::Unix), Ok(()));
}

#[test]
fn accepted_ends_without_a_named_peer_are_connected() {
    let mut t = table(&[STREAM, STREAM]);
    bind(&mut t, 0, path("/s"));
    assert!(t.socks[0].set_listening(1, ALICE).is_ok());
    assert!(!t.socks[1].is_connected());
    assert_eq!(connect_unix(&mut t, 1, &path("/s"), conn(10), BOB).ret, 0);
    let server = &t.socks[2];
    assert!(server.is_connected() && t.socks[1].is_connected());
    assert!(server.peer_name().is_none());
    let f = EndFacts { unix_connected: server.is_connected(), ..facts(SocketKind::Unix) };
    assert!(syscall_getpeername(1, 1, Ok(()), &f) == Ok(AddrChoice::UnixPeer));
    let reply = write_sockaddr_un(1, 1, Some(110), &server.peer_name()).ok().unwrap();
    assert_eq!((reply.len, reply.bytes[0], reply.bytes[2]), (110, 1, 0));
}
