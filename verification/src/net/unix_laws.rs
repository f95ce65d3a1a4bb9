//! What calls on local sockets come to, said with the numbers that programs use.

use vstd::prelude::*;
use crate::errno::{
    EADDRINUSE, EAGAIN, ECONNREFUSED, EFAULT, EINTR, EINVAL, EISCONN, ENOENT, ENOTCONN, ENOTDIR,
    ENOTSOCK, EOPNOTSUPP, EPIPE, EPROTONOSUPPORT,
};
use crate::net::setsockopt::SocketKind;
use crate::net::sockname::{
    own_address, peer_address, shutdown_error, AddrChoice, EndFacts, Endpoint,
};
use crate::net::unix_addr::{
    family_of, parsed, reply_error, sockaddr_un, split_path, trimmed, UnixName,
};
use crate::net::unix_connect::{
    after_filters, after_send, bind_outcome, connect_error, path_error, send_error, send_result,
    write_step, FilterVerdict, PathFacts, WriteStep,
};
use crate::net::unix_socket::{
    accept_step, after_recv, clamped, deadline_after, hex, kept_error, poll_events, read_step,
    recv_step, shown_name, shown_state, shut, timer_step, with_error, AcceptStep, EndPoll, FilterState,
    ReadView, RecvView, SockView, TimerStep,
};
use crate::net::unix_table::{
    closed, find_name_from, find_sock_from, lookup, without, BindingView, TableView,
};
use crate::text::{index_or_end, lemma_index_or_end};

verus! {

// ---------------------------------------------------------------------------
// Addresses.
// ---------------------------------------------------------------------------

/// An address of a path: the family 1 in two bytes, the path, and perhaps a zero with
/// anything behind it.
pub proof fn law_paths_are_read(ptr: usize, len: usize, n: Seq<u8>, more: Seq<u8>)
    requires
        ptr != 0,
        n.len() > 0,
        forall|i: int| 0 <= i < n.len() ==> #[trigger] n[i] != 0,
        3 <= len <= 110,
    ensures
        len == 2 + n.len() ==> parsed(ptr, len, seq![1u8, 0u8] + n + more) == Ok::<
            UnixName,
            isize,
        >(UnixName::Path(n)),
        2 + n.len() < len <= 3 + n.len() + more.len() ==> parsed(
            ptr,
            len,
            seq![1u8, 0u8] + n + seq![0u8] + more,
        ) == Ok::<UnixName, isize>(UnixName::Path(n)),
{
    let a = seq![1u8, 0u8] + n + more;
    let b = seq![1u8, 0u8] + n + seq![0u8] + more;
    if len == 2 + n.len() {
        let path = a.subrange(2, len as int);
        assert(path =~= n);
        lemma_index_or_end(n, 0, 0);
        let e = index_or_end(n, 0, 0);
        if e < n.len() {
            assert(n[e] != 0);
        }
        assert(n.take(e) =~= n);
        assert(n[0] != 0);
    }
    if 2 + n.len() < len <= 3 + n.len() + more.len() {
        let path = b.subrange(2, len as int);
        lemma_index_or_end(path, 0, 0);
        let e = index_or_end(path, 0, 0);
        assert(path[n.len() as int] == 0);
        assert forall|i: int| 0 <= i < n.len() implies #[trigger] path[i] == n[i] by {}
        if e < n.len() {
            assert(n[e] != 0);
        }
        assert(path.take(e) =~= n);
        assert(path[0] == n[0] && n[0] != 0);
    }
}

proof fn lemma_trimmed(n: Seq<u8>, z: Seq<u8>)
    requires
        n.len() > 0,
        n.last() != 0,
        forall|i: int| 0 <= i < z.len() ==> #[trigger] z[i] == 0,
    ensures
        trimmed(n + z) == n,
    decreases z.len(),
{
    if z.len() == 0 {
        assert(n + z =~= n);
    } else {
        let s = n + z;
        assert(s.last() == z[z.len() - 1]);
        assert(s.drop_last() =~= n + z.drop_last());
        lemma_trimmed(n, z.drop_last());
    }
}

/// An address of an abstract name: the family, a zero, and the name. Zeros at the end do
/// not belong to it.
pub proof fn law_abstract_names_are_read(ptr: usize, len: usize, n: Seq<u8>, z: Seq<u8>)
    requires
        ptr != 0,
        n.len() > 0,
        n.last() != 0,
        forall|i: int| 0 <= i < z.len() ==> #[trigger] z[i] == 0,
        len == 3 + n.len() + z.len(),
        len <= 110,
    ensures
        parsed(ptr, len, seq![1u8, 0u8, 0u8] + n + z) == Ok::<UnixName, isize>(
            UnixName::Abstract(n),
        ),
{
    let mem = seq![1u8, 0u8, 0u8] + n + z;
    let path = mem.subrange(2, len as int);
    assert(path.skip(1) =~= n + z);
    lemma_trimmed(n, z);
}

/// Addresses that are refused: too short, too long, of another family, or not to be
/// read.
pub proof fn law_refused_addresses(ptr: usize, len: usize, mem: Seq<u8>)
    ensures
        len > 128 ==> parsed(ptr, len, mem) == Err::<UnixName, isize>(EINVAL),
        0 < len <= 128 && (ptr == 0 || mem.len() < len) ==> parsed(ptr, len, mem) == Err::<
            UnixName,
            isize,
        >(EFAULT),
        ptr != 0 && mem.len() >= len && (len <= 2 || len > 110) ==> parsed(ptr, len, mem) == Err::<
            UnixName,
            isize,
        >(EINVAL),
        ptr != 0 && mem.len() >= len && 2 < len <= 110 && (mem[0] != 1 || mem[1] != 0) ==> parsed(
            ptr,
            len,
            mem,
        ) == Err::<UnixName, isize>(EINVAL),
{
}

/// A name is written as it is read: the family, then the path, or a zero and the
/// abstract name, and zeros up to 110 bytes.
pub proof fn law_written_addresses(p: Seq<u8>, i: int)
    requires
        p.len() <= 107,
        0 <= i < 108,
    ensures
        ({
            let a = sockaddr_un(Some(UnixName::Path(p)));
            let b = sockaddr_un(Some(UnixName::Abstract(p)));
            let c = sockaddr_un(None);
            &&& a.len() == 110 && b.len() == 110 && c.len() == 110
            &&& a[0] == 1 && a[1] == 0 && b[0] == 1 && b[1] == 0 && c[0] == 1 && c[1] == 0
            &&& a[2 + i] == if i < p.len() {
                p[i]
            } else {
                0
            }
            &&& b[2] == 0 && (i < 107 ==> b[3 + i] == if i < p.len() {
                p[i]
            } else {
                0
            })
            &&& c[2 + i] == 0
        }),
{
}

/// An address is handed out only to a place that is there and has room.
pub proof fn law_places_for_addresses(ptr: usize, len_ptr: usize, len: Option<u32>)
    ensures
        ptr == 0 || len_ptr == 0 || len is None ==> reply_error(ptr, len_ptr, len) == Some(EFAULT),
        ptr != 0 && len_ptr != 0 ==> (len matches Some(n) ==> reply_error(ptr, len_ptr, len) == if n
            > 0x7fff_ffff {
            Some(EINVAL)
        } else {
            None
        }),
{
}

// ---------------------------------------------------------------------------
// The two ends.
// ---------------------------------------------------------------------------

/// The own end of a socket: a connection comes before a place that it listens at, and
/// a network socket without either has no address.
pub proof fn law_own_ends(f: EndFacts)
    ensures
        f.kind == SocketKind::Unix ==> own_address(f) == Ok::<AddrChoice, isize>(
            AddrChoice::UnixOwn,
        ),
        f.kind == SocketKind::Pair ==> own_address(f) == Ok::<AddrChoice, isize>(
            AddrChoice::UnixNone,
        ),
        f.kind == SocketKind::Netlink ==> own_address(f) == Ok::<AddrChoice, isize>(
            AddrChoice::NetlinkOwn,
        ),
        f.kind == SocketKind::Raw ==> own_address(f) == Ok::<AddrChoice, isize>(
            AddrChoice::Inet(Endpoint { ip: f.raw_local, port: 0 }),
        ),
        f.kind == SocketKind::NotSocket ==> own_address(f) == Err::<AddrChoice, isize>(ENOTSOCK),
        f.kind == SocketKind::Net ==> match f.tcp_own {
            Some(e) => own_address(f) == Ok::<AddrChoice, isize>(AddrChoice::InDomain(e)),
            None => match f.tcp_listening {
                Some(e) => own_address(f) == Ok::<AddrChoice, isize>(AddrChoice::InDomain(e)),
                None => match f.udp_own {
                    Some(e) => own_address(f) == Ok::<AddrChoice, isize>(AddrChoice::InDomain(e)),
                    None => own_address(f) == Err::<AddrChoice, isize>(ENOTCONN),
                },
            },
        },
{
}

/// The other end of a socket: without a connection there is none.
pub proof fn law_other_ends(f: EndFacts)
    ensures
        f.kind == SocketKind::Unix ==> peer_address(f) == if f.unix_connected {
            Ok::<AddrChoice, isize>(AddrChoice::UnixPeer)
        } else {
            Err::<AddrChoice, isize>(ENOTCONN)
        },
        f.kind == SocketKind::Pair ==> peer_address(f) == Ok::<AddrChoice, isize>(
            AddrChoice::UnixNone,
        ),
        f.kind == SocketKind::Netlink ==> peer_address(f) == if f.netlink_peer {
            Ok::<AddrChoice, isize>(AddrChoice::NetlinkPeer)
        } else {
            Err::<AddrChoice, isize>(ENOTCONN)
        },
        f.kind == SocketKind::Raw ==> match f.raw_peer {
            Some(ip) => peer_address(f) == Ok::<AddrChoice, isize>(
                AddrChoice::Inet(Endpoint { ip, port: 0 }),
            ),
            None => peer_address(f) == Err::<AddrChoice, isize>(ENOTCONN),
        },
        f.kind == SocketKind::Net ==> match f.tcp_peer {
            Some(e) => peer_address(f) == Ok::<AddrChoice, isize>(AddrChoice::InDomain(e)),
            None => match f.udp_peer {
                Some(e) => peer_address(f) == Ok::<AddrChoice, isize>(AddrChoice::InDomain(e)),
                None => peer_address(f) == Err::<AddrChoice, isize>(ENOTCONN),
            },
        },
        f.kind == SocketKind::NotSocket ==> peer_address(f) == Err::<AddrChoice, isize>(ENOTSOCK),
{
}

/// Directions are 0, 1 and 2; some kinds of sockets cannot be shut down.
pub proof fn law_shutting_down(how: usize, file: Result<(), isize>, kind: SocketKind)
    ensures
        how > 2 ==> shutdown_error(how, file, kind) == Some(EINVAL),
        how <= 2 ==> (file matches Err(e) ==> shutdown_error(how, file, kind) == Some(e)),
        how <= 2 && file is Ok ==> shutdown_error(how, file, kind) == match kind {
            SocketKind::Netlink => Some(EOPNOTSUPP),
            SocketKind::Packet => Some(EOPNOTSUPP),
            SocketKind::Vsock => Some(ENOTCONN),
            SocketKind::NotSocket => Some(ENOTSOCK),
            _ => None,
        },
{
}

// ---------------------------------------------------------------------------
// Names.
// ---------------------------------------------------------------------------

/// Name `i` is the first that is meant: a path is the same everywhere, an abstract name
/// only in its own namespace.
pub open spec fn name_is(names: Seq<BindingView>, ns: u64, name: UnixName, i: int) -> bool {
    let meant = |j: int| names[j].name == name && (name is Path || names[j].ns == ns);
    &&& 0 <= i < names.len()
    &&& meant(i)
    &&& forall|j: int|
        0 <= j < i ==> !((#[trigger] names[j]).name == name && (name is Path || names[j].ns == ns))
}

/// Socket `k` is the first with a number.
pub open spec fn sock_is(socks: Seq<SockView>, id: u64, k: int) -> bool {
    &&& 0 <= k < socks.len()
    &&& socks[k].id == id
    &&& forall|j: int| 0 <= j < k ==> (#[trigger] socks[j]).id != id
}

proof fn lemma_name(names: Seq<BindingView>, ns: u64, name: UnixName, i: int, j: int)
    requires
        name_is(names, ns, name, i),
        0 <= j <= i,
    ensures
        find_name_from(names, ns, name, j) == Some(i),
    decreases i - j,
{
    if j < i {
        assert(!(names[j].name == name && (name is Path || names[j].ns == ns)));
        lemma_name(names, ns, name, i, j + 1);
    }
}

proof fn lemma_sock(socks: Seq<SockView>, id: u64, k: int, j: int)
    requires
        sock_is(socks, id, k),
        0 <= j <= k,
    ensures
        find_sock_from(socks, id, j) == Some(k),
    decreases k - j,
{
    if j < k {
        assert(socks[j].id != id);
        lemma_sock(socks, id, k, j + 1);
    }
}

/// A name leads to the socket that is bound to it.
pub proof fn law_names_lead_to_sockets(t: TableView, ns: u64, name: UnixName, i: int, k: int)
    requires
        name_is(t.names, ns, name, i),
        sock_is(t.socks, t.names[i].sock, k),
    ensures
        lookup(t, ns, name) == Some(k),
{
    lemma_name(t.names, ns, name, i, 0);
    lemma_sock(t.socks, t.names[i].sock, k, 0);
}

/// A socket is bound once, to a name that is free; for a path a file is made, and taken
/// back if the name turns out to be in use.
pub proof fn law_binding(t: TableView, k: int, name: UnixName, f: PathFacts)
    ensures
        ({
            let r = bind_outcome(t, k, Ok(name), f);
            let free = lookup(t, t.socks[k].ns, name) is None;
            &&& t.socks[k].bound is Some ==> r.ret == EINVAL && !r.created
            &&& t.socks[k].bound is None && name is Abstract ==> r.ret == (if free {
                0
            } else {
                EADDRINUSE
            }) && !r.created && !r.remove
            &&& t.socks[k].bound is None && name is Path && path_error(name->Path_0, f) is None
                ==> r.created && r.ret == (if free {
                0
            } else {
                EADDRINUSE
            }) && r.remove == !free
            &&& t.socks[k].bound is None && name is Path ==> (path_error(
                name->Path_0,
                f,
            ) matches Some(e) ==> r.ret == e && !r.created)
        }),
{
}

/// Why no file can be made for a path.
pub proof fn law_files_of_sockets(path: Seq<u8>, f: PathFacts)
    ensures
        split_path(path) is None ==> path_error(path, f) == Some(EINVAL),
        split_path(path) is Some ==> path_error(path, f) == if !f.parent_found {
            Some(ENOENT)
        } else if !f.parent_is_dir {
            Some(ENOTDIR)
        } else if f.name_exists || (!f.create_ok && f.exists_after) {
            Some(EADDRINUSE)
        } else if !f.create_ok {
            Some(EINVAL)
        } else {
            None
        },
{
}

// ---------------------------------------------------------------------------
// Connections and messages.
// ---------------------------------------------------------------------------

/// Types 1 and 5 are streams, type 2 is for messages. A stream is connected once, to a
/// stream that listens and has room.
pub proof fn law_connecting(t: TableView, k: int, name: UnixName, p: int)
    requires
        lookup(t, t.socks[k].ns, name) == Some(p),
    ensures
        ({
            let s = t.socks[k];
            let q = t.socks[p];
            let stream = |x: u32| x == 1 || x == 5;
            let e = connect_error(t, k, name);
            &&& stream(s.sock_type) && s.stream_end is Some ==> e == Some(EISCONN)
            &&& stream(s.sock_type) && s.stream_end is None && !stream(q.sock_type) ==> e == Some(
                EPROTONOSUPPORT,
            )
            &&& stream(s.sock_type) && s.stream_end is None && stream(q.sock_type) && !q.listening
                ==> e == Some(ECONNREFUSED)
            &&& stream(s.sock_type) && s.stream_end is None && stream(q.sock_type) && q.listening
                ==> e == if q.pending.len() < q.backlog {
                None
            } else {
                Some(ECONNREFUSED)
            }
            &&& s.sock_type == 2 ==> e == if q.sock_type == 2 {
                None
            } else {
                Some(EPROTONOSUPPORT)
            }
            &&& !stream(s.sock_type) && s.sock_type != 2 ==> e == Some(EPROTONOSUPPORT)
        }),
{
}

/// To connect to a name that leads nowhere fails.
pub proof fn law_connecting_to_nobody(t: TableView, k: int, name: UnixName)
    requires
        lookup(t, t.socks[k].ns, name) is None,
        t.socks[k].sock_type == 2 || t.socks[k].sock_type == 1,
        t.socks[k].stream_end is None,
    ensures
        connect_error(t, k, name) == Some(ENOENT),
{
}

/// At least 1 and at most 32 connections wait at a socket.
pub proof fn law_backlogs(n: usize)
    ensures
        1 <= n <= 32 ==> clamped(n) == n,
        n == 0 ==> clamped(n) == 1,
        n > 32 ==> clamped(n) == 32,
{
}

/// A message that is sent stands last in the queue of the socket that its name leads
/// to, whole and with the name of its sender, if no filter is in the way; the call
/// returns its length.
pub proof fn law_messages_arrive(
    t: TableView,
    k: int,
    payload: Seq<u8>,
    target: Option<UnixName>,
    control: u64,
    has_rights: bool,
    verdict: FilterVerdict,
    to: UnixName,
    p: int,
)
    requires
        0 <= k < t.socks.len(),
        0 <= p < t.socks.len(),
        t.socks[k].sock_type == 2,
        !t.socks[k].wr_shutdown,
        target == Some(to) || (target is None && t.socks[k].dgram_peer == Some(to)),
        lookup(t, t.socks[k].ns, to) == Some(p),
        t.socks[p].sock_type == 2,
        t.socks[p].filters.classic is None,
        t.socks[p].filters.ebpf is None,
        payload.len() <= isize::MAX,
    ensures
        ({
            let (u, woken) = after_send(t, k, payload, target, control, has_rights, verdict);
            let q = t.socks[p].queue;
            &&& u.socks.len() == t.socks.len()
            &&& u.socks[p].queue.len() == q.len() + 1
            &&& u.socks[p].queue.subrange(0, q.len() as int) == q
            &&& u.socks[p].queue.last().payload == payload
            &&& u.socks[p].queue.last().from == t.socks[k].bound
            &&& u.socks[p].queue.last().control == control
            &&& u.socks[p].queue.last().with_cred <==> t.socks[k].opts.passcred
                || t.socks[p].opts.passcred || has_rights
            &&& woken == t.socks[p].waiters
            &&& forall|j: int|
                0 <= j < t.socks.len() && j != p ==> #[trigger] u.socks[j] == t.socks[j]
            &&& send_result(t, k, payload, target) == payload.len()
        }),
{
    let (u, woken) = after_send(t, k, payload, target, control, has_rights, verdict);
    assert(u.socks[p].queue.subrange(0, t.socks[p].queue.len() as int) =~= t.socks[p].queue);
}

/// Why a message is not sent.
pub proof fn law_unsent_messages(t: TableView, k: int, target: Option<UnixName>)
    ensures
        ({
            let s = t.socks[k];
            let e = send_error(t, k, target);
            &&& s.sock_type != 2 ==> e == Some(EOPNOTSUPP)
            &&& s.sock_type == 2 && s.wr_shutdown ==> e == Some(EPIPE)
            &&& s.sock_type == 2 && !s.wr_shutdown && target is None && s.dgram_peer is None ==> e
                == Some(ENOTCONN)
            &&& s.sock_type == 2 && !s.wr_shutdown && (target matches Some(to) && lookup(
                t,
                s.ns,
                to,
            ) is None) ==> e == Some(ENOENT)
        }),
{
}

/// Filters cut a message to what they say, the list of instructions first, or drop it.
pub proof fn law_filters(payload: Seq<u8>, f: FilterState, v: FilterVerdict)
    ensures
        f.classic is Some && v.classic is None ==> after_filters(payload, f, v) is None,
        f.classic is Some && f.ebpf is None ==> (v.classic matches Some(n) ==> after_filters(
            payload,
            f,
            v,
        ) == Some(
            payload.subrange(
                0,
                if n < payload.len() {
                    n as int
                } else {
                    payload.len() as int
                },
            ),
        )),
        f.classic is None && f.ebpf is Some && v.program is None ==> after_filters(payload, f, v)
            is None,
        f.classic is None && f.ebpf is Some ==> (v.program matches Some(n) ==> after_filters(
            payload,
            f,
            v,
        ) == Some(
            payload.subrange(
                0,
                if n < payload.len() {
                    n as int
                } else {
                    payload.len() as int
                },
            ),
        )),
        f.classic is None && f.ebpf is None ==> after_filters(payload, f, v) == Some(payload),
{
    if let Some(n) = v.classic {
        if n < payload.len() {
            assert(payload.take(n as int) =~= payload.subrange(0, n as int));
        }
    }
    if let Some(n) = v.program {
        if n < payload.len() {
            assert(payload.take(n as int) =~= payload.subrange(0, n as int));
        }
    }
    assert(payload.subrange(0, payload.len() as int) =~= payload);
}

/// Reading gives the first message, as far as there is room; a socket that is shut down
/// gives nothing, and one with nothing to give waits unless it is interrupted.
pub proof fn law_reading(s: SockView, room: usize, interrupted: bool)
    ensures
        ({
            let r = read_step(s, room, interrupted);
            &&& s.sock_type == 1 || s.sock_type == 5 ==> r == match s.stream_end {
                Some(e) => ReadView::Forward(e),
                None => ReadView::Data(Seq::empty()),
            }
            &&& s.sock_type == 2 && s.rd_shutdown ==> r == ReadView::Data(Seq::empty())
            &&& s.sock_type == 2 && !s.rd_shutdown && s.queue.len() > 0 ==> r == ReadView::Data(
                s.queue[0].payload.subrange(
                    0,
                    if room < s.queue[0].payload.len() {
                        room as int
                    } else {
                        s.queue[0].payload.len() as int
                    },
                ),
            )
            &&& s.sock_type == 2 && !s.rd_shutdown && s.queue.len() == 0 && !interrupted ==> r
                is Wait
            &&& s.sock_type == 2 && !s.rd_shutdown && s.queue.len() == 0 && interrupted ==> r
                == ReadView::Data(Seq::empty())
        }),
{
    if s.queue.len() > 0 {
        let p = s.queue[0].payload;
        assert(p.take(room as int) =~= p.subrange(0, room as int));
        assert(p.subrange(0, p.len() as int) =~= p);
    }
}

/// Receiving gives the oldest message. It leaves the queue, and the time is kept, unless
/// the message is only looked at.
pub proof fn law_receiving(s: SockView, nonblock: bool, peek: bool, interrupted: bool, now: u64)
    ensures
        ({
            let r = recv_step(s, nonblock, interrupted);
            let t = after_recv(s, peek, now);
            &&& s.rd_shutdown ==> (r matches RecvView::Message(m) && m.payload.len() == 0) && t == s
            &&& !s.rd_shutdown && s.queue.len() > 0 ==> r == RecvView::Message(s.queue[0])
            &&& !s.rd_shutdown && s.queue.len() > 0 && peek ==> t == s
            &&& !s.rd_shutdown && s.queue.len() > 0 && !peek ==> t.queue == s.queue.subrange(
                1,
                s.queue.len() as int,
            ) && t.last_timestamp == Some(now) && t.pending == s.pending && t.error == s.error
            &&& !s.rd_shutdown && s.queue.len() == 0 ==> t == s && r == if nonblock {
                RecvView::Fail(EAGAIN)
            } else if interrupted {
                RecvView::Fail(EINTR)
            } else {
                RecvView::Wait
            }
        }),
{
    if s.queue.len() > 0 {
        assert(s.queue.skip(1) =~= s.queue.subrange(1, s.queue.len() as int));
    }
}

/// Direction 0 is reading, 1 writing, 2 both; what is closed stays closed.
pub proof fn law_closed_directions(s: SockView, how: usize)
    ensures
        shut(s, how).rd_shutdown <==> s.rd_shutdown || how == 0 || how == 2,
        shut(s, how).wr_shutdown <==> s.wr_shutdown || how == 1 || how == 2,
        shut(s, how).queue == s.queue,
        shut(s, how).stream_end == s.stream_end,
{
}

/// Connections are accepted in turn by a stream that listens.
pub proof fn law_accepting(s: SockView, nonblock: bool)
    ensures
        s.sock_type != 1 && s.sock_type != 5 ==> accept_step(s, nonblock) == AcceptStep::Fail(
            EOPNOTSUPP,
        ),
        (s.sock_type == 1 || s.sock_type == 5) && !s.listening ==> accept_step(s, nonblock)
            == AcceptStep::Fail(EINVAL),
        (s.sock_type == 1 || s.sock_type == 5) && s.listening ==> accept_step(s, nonblock)
            == if s.pending.len() > 0 {
            AcceptStep::Taken(s.pending[0])
        } else if nonblock {
            AcceptStep::Fail(EAGAIN)
        } else {
            AcceptStep::Wait
        },
{
}

/// The events of a socket for messages: 1 if there is something to read or it is shut
/// down for reading, 4 if it can be written to, 8 if there is an error, 16 if it is shut
/// down altogether.
pub proof fn law_events_of_messages(s: SockView, end: EndPoll)
    requires
        s.sock_type == 2,
    ensures
        ({
            let e = poll_events(s, end);
            &&& e & 1 != 0 <==> s.rd_shutdown || s.queue.len() > 0
            &&& e & 4 != 0 <==> !s.wr_shutdown
            &&& e & 8 != 0 <==> s.error != 0
            &&& e & 16 != 0 <==> s.rd_shutdown && s.wr_shutdown
        }),
{
    lemma_event_bits(
        s.error != 0,
        s.rd_shutdown || s.queue.len() > 0,
        !s.wr_shutdown,
        s.rd_shutdown && s.wr_shutdown,
    );
}

proof fn lemma_event_bits(err: bool, readable: bool, writable: bool, hup: bool)
    ensures
        ({
            let a: u16 = if err {
                8
            } else {
                0
            };
            let b: u16 = if readable {
                a | 1
            } else {
                a
            };
            let c: u16 = if writable {
                b | 4
            } else {
                b
            };
            let d: u16 = if hup {
                c | 16
            } else {
                c
            };
            (d & 1 != 0) == readable && (d & 4 != 0) == writable && (d & 8 != 0) == err && (d & 16
                != 0) == hup
        }),
{
    assert(({
        let a: u16 = if err {
            8u16
        } else {
            0u16
        };
        let b: u16 = if readable {
            a | 1u16
        } else {
            a
        };
        let c: u16 = if writable {
            b | 4u16
        } else {
            b
        };
        let d: u16 = if hup {
            c | 16u16
        } else {
            c
        };
        (d & 1 != 0) == readable && (d & 4 != 0) == writable && (d & 8 != 0) == err && (d & 16 != 0)
            == hup
    })) by (bit_vector);
}

/// A wait ends at its deadline.
pub proof fn law_waits_end(deadline: Option<u64>, now: u64, timeout: Option<u64>)
    ensures
        deadline is None ==> timer_step(deadline, now) == TimerStep::Suspend,
        deadline matches Some(d) ==> timer_step(deadline, now) == if now < d {
            TimerStep::SleepFor((d - now) as u64)
        } else {
            TimerStep::Expired
        },
        timeout is None ==> deadline_after(timeout, now) is None,
        timeout matches Some(ms) ==> (now + ms <= u64::MAX ==> deadline_after(timeout, now) == Some(
            (now + ms) as u64,
        )),
{
}

/// How a list shows the state of a socket: 3 if it is connected, 10 if it listens, else
/// 1.
pub proof fn law_states_are_shown(s: SockView)
    ensures
        s.stream_end is Some || s.peer_addr is Some ==> shown_state(s) == 3,
        s.stream_end is None && s.peer_addr is None ==> shown_state(s) == if s.listening {
            10u8
        } else {
            1u8
        },
{
}

/// Which errors of a send are kept for the next reading of the error, as positive
/// numbers.
pub proof fn law_kept_errors(s: SockView, e: isize)
    ensures
        kept_error(e) <==> e == EPIPE || e == ECONNREFUSED || e == ENOENT,
        -4096 < e < 0 ==> with_error(s, e).error == -e,
{
}

// ---------------------------------------------------------------------------
// Closing, writing and showing.
// ---------------------------------------------------------------------------

proof fn lemma_left(socks: Seq<SockView>, gone: Seq<u64>, x: SockView)
    ensures
        without(socks, gone).contains(x) <==> socks.contains(x) && !gone.contains(x.id),
    decreases socks.len(),
{
    if socks.len() > 0 {
        let t = socks.drop_last();
        lemma_left(t, gone, x);
        assert(socks[socks.len() - 1] == socks.last());
        let w = without(t, gone);
        if socks.contains(x) {
            let i = socks.index_of(x);
            if i < t.len() {
                assert(t[i] == x);
            }
        }
        if t.contains(x) {
            let i = t.index_of(x);
            assert(socks[i] == x);
        }
        let v = w.push(socks.last());
        assert(v[w.len() as int] == socks.last());
        if w.contains(x) {
            let i = w.index_of(x);
            assert(v[i] == x);
        }
        if v.contains(x) {
            let i = v.index_of(x);
            if i < w.len() {
                assert(w[i] == x);
            }
        }
    }
}

/// Closing a socket takes away the socket and the connections that wait for it, and
/// nothing else.
pub proof fn law_closing(t: TableView, id: u64, k: int, x: SockView)
    requires
        sock_is(t.socks, id, k),
    ensures
        closed(t, id).socks.contains(x) <==> t.socks.contains(x) && x.id != id
            && !t.socks[k].pending.contains(x.id),
        t.socks[k].bound is None ==> closed(t, id).names == t.names,
{
    lemma_sock(t.socks, id, k, 0);
    let p = t.socks[k].pending;
    let gone = p.push(id);
    lemma_left(t.socks, gone, x);
    assert(gone[p.len() as int] == id);
    if p.contains(x.id) {
        let i = p.index_of(x.id);
        assert(gone[i] == x.id);
    }
    if gone.contains(x.id) && x.id != id {
        let i = gone.index_of(x.id);
        assert(p[i] == x.id);
    }
}

/// Writing to a stream goes through its pipe; writing to a datagram socket sends to its
/// default destination, and comes to nothing if that fails.
pub proof fn law_writing(t: TableView, k: int, payload: Seq<u8>)
    requires
        0 <= k < t.socks.len(),
        payload.len() <= usize::MAX,
    ensures
        t.socks[k].sock_type == 1 ==> (t.socks[k].stream_end matches Some(e) ==> write_step(
            t,
            k,
            payload,
        ) == WriteStep::Forward(e)),
        t.socks[k].sock_type == 2 ==> {
            &&& payload.len() > 0 && send_error(t, k, None) is None ==> write_step(t, k, payload)
                == WriteStep::Done(payload.len() as usize)
            &&& payload.len() == 0 || send_error(t, k, None) is Some ==> write_step(t, k, payload)
                == WriteStep::Done(0)
        },
        t.socks[k].stream_end is None && t.socks[k].sock_type != 2 ==> write_step(t, k, payload)
            == WriteStep::Done(0),
{
}

/// Sixteen digits: those below ten, then the letters from `a` on.
pub open spec fn digit(n: int) -> int {
    if n < 10 {
        0x30 + n
    } else {
        0x61 + n - 10
    }
}

proof fn lemma_hex(s: Seq<u8>, i: int)
    requires
        0 <= i < s.len(),
    ensures
        hex(s).len() == 2 * s.len(),
        hex(s)[2 * i] == digit(s[i] as int / 16),
        hex(s)[2 * i + 1] == digit(s[i] as int % 16),
    decreases s.len(),
{
    let t = s.drop_last();
    if t.len() > 0 {
        lemma_hex(
            t,
            if i < t.len() {
                i
            } else {
                0
            },
        );
    } else {
        assert(hex(t).len() == 0);
    }
}

/// Paths are shown as they are; an abstract name is shown behind an `@`, as text if it is
/// text and else by two digits for each byte.
pub proof fn law_shown_names(p: Seq<u8>, i: int)
    requires
        0 <= i < p.len(),
    ensures
        shown_name(None) == Seq::<u8>::empty(),
        shown_name(Some(UnixName::Path(p))) == p,
        vstd::utf8::valid_utf8(p) ==> shown_name(Some(UnixName::Abstract(p))) == seq![0x40u8] + p,
        !vstd::utf8::valid_utf8(p) ==> {
            let s = shown_name(Some(UnixName::Abstract(p)));
            &&& s.len() == 1 + 2 * p.len() && s[0] == 0x40
            &&& s[1 + 2 * i] == digit(p[i] as int / 16)
            &&& s[2 + 2 * i] == digit(p[i] as int % 16)
        },
{
    lemma_hex(p, i);
}

/// Of a name that is too long the first 107 bytes are written.
pub proof fn law_long_names_are_cut(p: Seq<u8>, i: int)
    requires
        p.len() > 107,
        0 <= i < 107,
    ensures
        ({
            let a = sockaddr_un(Some(UnixName::Path(p)));
            let b = sockaddr_un(Some(UnixName::Abstract(p)));
            &&& a.len() == 110 && a[2 + i] == p[i] && a[109] == 0
            &&& b.len() == 110 && b[2] == 0 && b[3 + i] == p[i]
        }),
{
}

/// The family of an address is its first two bytes.
pub proof fn law_families_of_addresses(ptr: usize, len: usize, mem: Seq<u8>, n: u16)
    ensures
        ptr == 0 ==> family_of(ptr, len, mem) == Err::<u16, isize>(EFAULT),
        ptr != 0 && len < 2 ==> family_of(ptr, len, mem) == Err::<u16, isize>(EINVAL),
        ptr != 0 && len >= 2 && mem.len() < 2 ==> family_of(ptr, len, mem) == Err::<u16, isize>(
            EFAULT,
        ),
        ptr != 0 && len >= 2 && mem.len() >= 2 && n == mem[0] + 256 * mem[1] ==> family_of(
            ptr,
            len,
            mem,
        ) == Ok::<u16, isize>(n),
{
}

} // verus!
