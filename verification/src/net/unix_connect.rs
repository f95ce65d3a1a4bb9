//! Calls that join two local sockets, and binding.

use vstd::prelude::*;
use crate::errno::{
    EADDRINUSE, ECONNREFUSED, EINVAL, EISCONN, ENOENT, ENOTCONN, ENOTDIR, EOPNOTSUPP, EPIPE,
    EPROTONOSUPPORT,
};
use crate::net::getsockopt::UCred;
use crate::net::optval::SOCK_DGRAM;
use crate::net::unix_addr::{
    copy_name, copy_optional_name, name_view, split_parent_and_name, split_path, UnixAddr,
    UnixName,
};
use crate::net::unix_socket::{
    accept_step, accepted, has_peer, kept_error, queue_view, read_step, sock_wf, stream_like,
    with_error, AcceptStep, DgramView, FilterState, ReadView, SockView, UnixDatagram, UnixSocket,
};
use crate::net::unix_table::{
    find_sock, find_sock_from, forgotten, is_plain, lemma_lookup, lookup, plain, registered,
    table_wf, waiting_wf, TableView, UnixTable,
};
use crate::process::queue::drain_queue;

verus! {

/// What a new connection is made of: the number and inode of the server's side,
/// and the two ends of the pipe.
#[derive(Clone, Copy)]
pub struct NewConnection {
    pub id: u64,
    pub inode: u64,
    pub client_end: u64,
    pub server_end: u64,
}

/// What a new pipe end is set to.
#[derive(Clone, Copy)]
pub struct EndSetup {
    pub rcvtimeo: Option<u64>,
    pub sndtimeo: Option<u64>,
    pub passcred: bool,
    pub filters: FilterState,
}

/// What a connect call leads to.
pub struct ConnectOutcome {
    pub ret: isize,
    /// How the server's and the client's end are set up, if a pipe was made.
    pub ends: Option<(EndSetup, EndSetup)>,
    pub woken: Vec<usize>,
}

pub open spec fn setup_of(s: SockView) -> EndSetup {
    EndSetup {
        rcvtimeo: s.opts.rcvtimeo,
        sndtimeo: s.opts.sndtimeo,
        passcred: s.opts.passcred,
        filters: s.filters,
    }
}

/// Why socket `k` cannot be connected to a name.
pub open spec fn connect_error(t: TableView, k: int, name: UnixName) -> Option<isize> {
    let s = t.socks[k];
    if stream_like(s.sock_type) {
        if s.stream_end is Some {
            Some(EISCONN)
        } else {
            match lookup(t, s.ns, name) {
                None => Some(ENOENT),
                Some(p) => if !stream_like(t.socks[p].sock_type) {
                    Some(EPROTONOSUPPORT)
                } else if !t.socks[p].listening || t.socks[p].pending.len()
                    >= t.socks[p].backlog {
                    Some(ECONNREFUSED)
                } else {
                    None
                },
            }
        }
    } else if s.sock_type != SOCK_DGRAM {
        Some(EPROTONOSUPPORT)
    } else {
        match lookup(t, s.ns, name) {
            None => Some(ENOENT),
            Some(p) => if t.socks[p].sock_type != SOCK_DGRAM {
                Some(EPROTONOSUPPORT)
            } else {
                None
            },
        }
    }
}

/// The table once a name was looked up for socket `k`.
pub open spec fn looked_up(t: TableView, k: int, name: UnixName) -> TableView {
    let s = t.socks[k];
    if (stream_like(s.sock_type) && s.stream_end is Some) || (!stream_like(s.sock_type)
        && s.sock_type != SOCK_DGRAM) {
        t
    } else {
        TableView { names: forgotten(t, s.ns, name), ..t }
    }
}

/// The listening socket with one more connection to accept.
pub open spec fn with_pending(s: SockView, id: u64) -> SockView {
    SockView { pending: s.pending.push(id), waiters: Seq::empty(), ..s }
}

/// The client's side of a connection.
pub open spec fn with_connection(s: SockView, end: u64, name: UnixName, cred: UCred) -> SockView {
    SockView {
        stream_end: Some(end),
        peer_addr: Some(name),
        peer_cred: Some(cred),
        waiters: Seq::empty(),
        ..s
    }
}

/// The sockets after `k` was connected to `p`: the server's side is new.
pub open spec fn connected(
    socks: Seq<SockView>,
    k: int,
    p: int,
    name: UnixName,
    new: NewConnection,
    cred: UCred,
) -> Seq<SockView> {
    let s = socks[k];
    let peer = socks[p];
    let with_p = socks.update(p, with_pending(peer, new.id));
    with_p.update(k, with_connection(with_p[k], new.client_end, name, peer.local_cred)).push(
        accepted(
            new.id,
            s.sock_type,
            new.inode,
            peer.ns,
            new.server_end,
            s.bound,
            peer.local_cred,
            cred,
            peer.opts,
            peer.filters,
        ),
    )
}

/// A socket for messages with a default destination.
pub open spec fn with_destination(s: SockView, name: UnixName, cred: UCred) -> SockView {
    SockView { dgram_peer: Some(name), peer_addr: Some(name), peer_cred: Some(cred), ..s }
}

/// Connects a stream socket to a listening one.
fn connect_stream(
    t: &mut UnixTable,
    k: usize,
    p: usize,
    addr: &UnixAddr,
    new: NewConnection,
    cred: UCred,
) -> (r: ConnectOutcome)
    requires
        table_wf(old(t)@),
        k < old(t).socks@.len(),
        p < old(t).socks@.len(),
        find_sock(old(t)@.socks, new.id) is None,
        old(t)@.socks[p as int].pending.len() < old(t)@.socks[p as int].backlog,
        old(t)@.socks[p as int].listening,
    ensures
        table_wf(final(t)@),
        r.ret == 0,
        r.ends == Some((setup_of(old(t)@.socks[p as int]), setup_of(old(t)@.socks[k as int]))),
        r.woken@ == old(t)@.socks[p as int].waiters + (if k == p {
            Seq::empty()
        } else {
            old(t)@.socks[k as int].waiters
        }),
        final(t)@ == (TableView {
            socks: connected(old(t)@.socks, k as int, p as int, addr@, new, cred),
            ..old(t)@
        }),
{
    let ghost t0 = t@;
    let client_type: u32 = t.socks[k].sock_type;
    let client_bound = copy_optional_name(&t.socks[k].bound);
    let client = EndSetup {
        rcvtimeo: t.socks[k].opts.rcvtimeo,
        sndtimeo: t.socks[k].opts.sndtimeo,
        passcred: t.socks[k].opts.passcred,
        filters: t.socks[k].filters,
    };
    let listener = t.socks[p].opts;
    let filters = t.socks[p].filters;
    let server = EndSetup {
        rcvtimeo: listener.rcvtimeo,
        sndtimeo: listener.sndtimeo,
        passcred: listener.passcred,
        filters,
    };
    let peer_cred = t.socks[p].local_cred;
    let peer_ns: u64 = t.socks[p].ns;
    let made = UnixSocket::new_connected_stream(
        new.id,
        client_type,
        new.inode,
        peer_ns,
        new.server_end,
        client_bound,
        peer_cred,
        cred,
        &listener,
        filters,
    );
    t.socks[p].pending.push(new.id);
    let mut woken = drain_queue(&mut t.socks[p].waiters);
    assert(t.socks@[p as int]@ =~= with_pending(t0.socks[p as int], new.id));
    assert(t@.socks =~= t0.socks.update(p as int, with_pending(t0.socks[p as int], new.id)));
    let ghost t1 = t@;
    t.socks[k].stream_end = Some(new.client_end);
    t.socks[k].peer_addr = Some(copy_name(addr));
    t.socks[k].peer_cred = Some(peer_cred);
    let mut own = drain_queue(&mut t.socks[k].waiters);
    assert(t.socks@[k as int]@ =~= with_connection(
        t1.socks[k as int],
        new.client_end,
        addr@,
        peer_cred,
    ));
    assert(t@.socks =~= t1.socks.update(
        k as int,
        with_connection(t1.socks[k as int], new.client_end, addr@, peer_cred),
    ));
    woken.append(&mut own);
    let ghost t2 = t@;
    t.socks.push(made);
    assert(t@.socks =~= t2.socks.push(made@));
    assert(t@.names =~= t0.names);
    proof {
        lemma_fresh_id(t0.socks, new.id, 0);
        assert forall|i: int, j: int| 0 <= i < j < t@.socks.len() implies #[trigger] t@.socks[i].id
            != #[trigger] t@.socks[j].id by {
            assert(t@.socks[i].id == t0.socks[i].id);
            if j < t0.socks.len() {
                assert(t@.socks[j].id == t0.socks[j].id);
            }
        }
        assert forall|i: int| 0 <= i < t@.socks.len() implies sock_wf(#[trigger] t@.socks[i]) by {
            if i < t0.socks.len() {
                assert(sock_wf(t0.socks[i]));
            }
        }
    }
    ConnectOutcome { ret: 0, ends: Some((server, client)), woken }
}

proof fn lemma_fresh_id(socks: Seq<SockView>, id: u64, i: int)
    requires
        0 <= i <= socks.len(),
        find_sock_from(socks, id, i) is None,
    ensures
        forall|j: int| i <= j < socks.len() ==> (#[trigger] socks[j]).id != id,
    decreases socks.len() - i,
{
    if i < socks.len() {
        lemma_fresh_id(socks, id, i + 1);
    }
}

fn no_outcome(ret: isize) -> (r: ConnectOutcome)
    ensures
        r.ret == ret,
        r.ends is None,
        r.woken@.len() == 0,
{
    ConnectOutcome { ret, ends: None, woken: Vec::new() }
}

/// Connects a socket. For a stream a pipe is made, whose server's side waits to
/// be accepted; for messages the name becomes the default destination.
pub fn connect_unix(
    t: &mut UnixTable,
    k: usize,
    addr: &UnixAddr,
    new: NewConnection,
    cred: UCred,
) -> (r: ConnectOutcome)
    requires
        table_wf(old(t)@),
        k < old(t).socks@.len(),
        find_sock(old(t)@.socks, new.id) is None,
    ensures
        table_wf(final(t)@),
        match connect_error(old(t)@, k as int, addr@) {
            Some(e) => r.ret == e && r.ends is None && r.woken@.len() == 0 && final(t)@
                == looked_up(old(t)@, k as int, addr@),
            None => {
                let s = old(t)@.socks[k as int];
                let p = lookup(old(t)@, s.ns, addr@)->0;
                let peer = old(t)@.socks[p];
                &&& r.ret == 0
                &&& final(t)@.names == old(t)@.names
                &&& if stream_like(s.sock_type) {
                    &&& final(t)@.socks == connected(
                        old(t)@.socks,
                        k as int,
                        p,
                        addr@,
                        new,
                        cred,
                    )
                    &&& r.ends == Some((setup_of(peer), setup_of(s)))
                    &&& r.woken@ == peer.waiters + (if k == p {
                        Seq::empty()
                    } else {
                        s.waiters
                    })
                } else {
                    &&& final(t)@.socks == old(t)@.socks.update(
                        k as int,
                        with_destination(s, addr@, peer.local_cred),
                    )
                    &&& r.ends is None
                    &&& r.woken@.len() == 0
                }
            },
        },
{
    let ghost t0 = t@;
    let ns: u64 = t.socks[k].ns;
    if t.socks[k].is_stream_like() {
        if t.socks[k].stream_end.is_some() {
            return no_outcome(EISCONN);
        }
        let p: usize = match t.lookup_unix_bound_socket(ns, addr) {
            Ok(p) => p,
            Err(e) => {
                return no_outcome(e);
            },
        };
        assert(t@ == t0);
        if !t.socks[p].is_stream_like() {
            return no_outcome(EPROTONOSUPPORT);
        }
        if !t.socks[p].listening || t.socks[p].pending.len() >= t.socks[p].backlog {
            return no_outcome(ECONNREFUSED);
        }
        return connect_stream(t, k, p, addr, new, cred);
    }
    if !t.socks[k].is_dgram() {
        return no_outcome(EPROTONOSUPPORT);
    }
    let p: usize = match t.lookup_unix_bound_socket(ns, addr) {
        Ok(p) => p,
        Err(e) => {
            return no_outcome(e);
        },
    };
    assert(t@ == t0);
    if !t.socks[p].is_dgram() {
        return no_outcome(EPROTONOSUPPORT);
    }
    let peer_cred = t.socks[p].local_cred;
    t.socks[k].dgram_peer = Some(copy_name(addr));
    t.socks[k].peer_addr = Some(copy_name(addr));
    t.socks[k].peer_cred = Some(peer_cred);
    assert(t@.socks =~= t0.socks.update(
        k as int,
        with_destination(t0.socks[k as int], addr@, peer_cred),
    ));
    assert(t@.names =~= t0.names);
    proof {
        lemma_same_ids(t0, t@, k as int);
    }
    no_outcome(0)
}

proof fn lemma_same_ids(a: TableView, b: TableView, k: int)
    requires
        table_wf(a),
        0 <= k < a.socks.len(),
        b.names == a.names,
        b.socks.len() == a.socks.len(),
        forall|i: int| 0 <= i < a.socks.len() && i != k ==> #[trigger] b.socks[i] == a.socks[i],
        b.socks[k].id == a.socks[k].id,
        sock_wf(b.socks[k]),
    ensures
        table_wf(b),
{
    assert forall|i: int, j: int| 0 <= i < j < b.socks.len() implies #[trigger] b.socks[i].id
        != #[trigger] b.socks[j].id by {
        assert(a.socks[i].id != a.socks[j].id);
    }
}

// ---------------------------------------------------------------------------
// Messages.
// ---------------------------------------------------------------------------

/// What the receiver's filters say of a message: how much of it is kept, or
/// that it is dropped.
#[derive(Clone, Copy)]
pub struct FilterVerdict {
    pub classic: Option<usize>,
    pub program: Option<usize>,
}

/// What sending leads to.
pub struct SendOutcome {
    pub ret: isize,
    pub woken: Vec<usize>,
}

pub open spec fn cut_to(s: Seq<u8>, n: usize) -> Seq<u8> {
    if n < s.len() {
        s.take(n as int)
    } else {
        s
    }
}

/// What is left of a message after the filters of its receiver.
pub open spec fn after_filters(payload: Seq<u8>, f: FilterState, v: FilterVerdict) -> Option<
    Seq<u8>,
> {
    if f.classic is Some && v.classic is None {
        None
    } else {
        let a = if f.classic is Some {
            cut_to(payload, v.classic->0)
        } else {
            payload
        };
        if f.ebpf is Some && v.program is None {
            None
        } else if f.ebpf is Some {
            Some(cut_to(a, v.program->0))
        } else {
            Some(a)
        }
    }
}

/// Where a message of socket `s` goes.
pub open spec fn destination(s: SockView, target: Option<UnixName>) -> Option<UnixName> {
    if target is Some {
        target
    } else {
        s.dgram_peer
    }
}

/// Why a message is not sent.
pub open spec fn send_error(t: TableView, k: int, target: Option<UnixName>) -> Option<isize> {
    let s = t.socks[k];
    if s.sock_type != SOCK_DGRAM {
        Some(EOPNOTSUPP)
    } else if s.wr_shutdown {
        Some(EPIPE)
    } else {
        match destination(s, target) {
            None => Some(ENOTCONN),
            Some(to) => match lookup(t, s.ns, to) {
                None => Some(ENOENT),
                Some(p) => if t.socks[p].sock_type != SOCK_DGRAM {
                    Some(EPROTONOSUPPORT)
                } else {
                    None
                },
            },
        }
    }
}

/// The table after a message was not sent: some errors are kept by the sender,
/// and a name whose socket is gone is forgotten.
pub open spec fn unsent(t: TableView, k: int, target: Option<UnixName>, e: isize) -> TableView {
    let s = t.socks[k];
    let kept = if s.sock_type == SOCK_DGRAM && kept_error(e) {
        t.socks.update(k, with_error(s, e))
    } else {
        t.socks
    };
    if s.sock_type == SOCK_DGRAM && !s.wr_shutdown && destination(s, target) is Some {
        TableView { socks: kept, names: forgotten(t, s.ns, destination(s, target)->0) }
    } else {
        TableView { socks: kept, ..t }
    }
}

/// A receiver with one more message.
pub open spec fn with_message(s: SockView, m: DgramView) -> SockView {
    SockView { queue: s.queue.push(m), waiters: Seq::empty(), ..s }
}

/// What sending returns: the length of the message, also if it is dropped.
pub open spec fn send_result(
    t: TableView,
    k: int,
    payload: Seq<u8>,
    target: Option<UnixName>,
) -> isize {
    match send_error(t, k, target) {
        Some(e) => e,
        None => payload.len() as isize,
    }
}

/// The table after a message was sent, and the tasks that are woken.
pub open spec fn after_send(
    t: TableView,
    k: int,
    payload: Seq<u8>,
    target: Option<UnixName>,
    control: u64,
    has_rights: bool,
    verdict: FilterVerdict,
) -> (TableView, Seq<usize>) {
    let s = t.socks[k];
    match send_error(t, k, target) {
        Some(e) => (
            unsent(t, k, target, e),
            if s.sock_type == SOCK_DGRAM && kept_error(e) {
                s.waiters
            } else {
                Seq::empty()
            },
        ),
        None => {
            let p = lookup(t, s.ns, destination(s, target)->0)->0;
            let peer = t.socks[p];
            match after_filters(payload, peer.filters, verdict) {
                None => (t, Seq::empty()),
                Some(rest) => (
                    TableView {
                        socks: t.socks.update(
                            p,
                            with_message(
                                peer,
                                DgramView {
                                    from: s.bound,
                                    payload: rest,
                                    control,
                                    with_cred: s.opts.passcred || peer.opts.passcred || has_rights,
                                },
                            ),
                        ),
                        ..t
                    },
                    peer.waiters,
                ),
            }
        },
    }
}

fn cut_payload(payload: &mut Vec<u8>, n: usize)
    ensures
        final(payload)@ == cut_to(old(payload)@, n),
{
    if n < payload.len() {
        payload.truncate(n);
        assert(payload@ =~= old(payload)@.take(n as int));
    }
}

fn unsent_outcome(ret: isize) -> (r: SendOutcome)
    ensures
        r.ret == ret,
        r.woken@.len() == 0,
{
    SendOutcome { ret, woken: Vec::new() }
}

/// Sends a message. A filter of the receiver may cut it or drop it; the sender
/// is not told. Credentials go with the message if either side asked for them,
/// or if descriptors do.
pub fn send_dgram_with_control(
    t: &mut UnixTable,
    k: usize,
    payload: Vec<u8>,
    target: Option<UnixAddr>,
    control: u64,
    has_rights: bool,
    verdict: FilterVerdict,
) -> (r: SendOutcome)
    requires
        table_wf(old(t)@),
        k < old(t).socks@.len(),
        payload@.len() <= isize::MAX,
    ensures
        table_wf(final(t)@),
        r.ret == send_result(old(t)@, k as int, payload@, name_view(target)),
        (final(t)@, r.woken@) == after_send(
            old(t)@,
            k as int,
            payload@,
            name_view(target),
            control,
            has_rights,
            verdict,
        ),
{
    let ghost t0 = t@;
    let ghost want = name_view(target);
    if !t.socks[k].is_dgram() {
        return unsent_outcome(EOPNOTSUPP);
    }
    if t.socks[k].wr_shutdown {
        let woken = t.socks[k].set_socket_error(EPIPE);
        assert(t@.socks =~= t0.socks.update(k as int, with_error(t0.socks[k as int], EPIPE)));
        assert(t@.names =~= t0.names);
        proof {
            lemma_same_ids(t0, t@, k as int);
        }
        return SendOutcome { ret: EPIPE, woken };
    }
    let to = match target {
        Some(a) => a,
        None => match copy_optional_name(&t.socks[k].dgram_peer) {
            Some(a) => a,
            None => {
                return unsent_outcome(ENOTCONN);
            },
        },
    };
    assert(destination(t0.socks[k as int], want) == Some(to@));
    let ns: u64 = t.socks[k].ns;
    let from = copy_optional_name(&t.socks[k].bound);
    let passcred: bool = t.socks[k].opts.passcred;
    let p: usize = match t.lookup_unix_bound_socket(ns, &to) {
        Ok(p) => p,
        Err(e) => {
            let ghost t1 = t@;
            let woken = t.socks[k].record_peer_error(e);
            assert(t@.socks =~= t0.socks.update(k as int, with_error(t0.socks[k as int], e)));
            assert(t@.names =~= t1.names);
            proof {
                lemma_same_ids(t1, t@, k as int);
            }
            return SendOutcome { ret: e, woken };
        },
    };
    assert(t@ == t0);
    if !t.socks[p].is_dgram() {
        return unsent_outcome(EPROTONOSUPPORT);
    }
    let n: isize = payload.len() as isize;
    let with_cred: bool = passcred || t.socks[p].opts.passcred || has_rights;
    let mut rest = payload;
    if t.socks[p].filters.classic.is_some() {
        match verdict.classic {
            Some(len) => cut_payload(&mut rest, len),
            None => {
                return unsent_outcome(n);
            },
        }
    }
    if t.socks[p].filters.ebpf.is_some() {
        match verdict.program {
            Some(len) => cut_payload(&mut rest, len),
            None => {
                return unsent_outcome(n);
            },
        }
    }
    let m = UnixDatagram { from, payload: rest, control, with_cred };
    let ghost mv = m@;
    let ghost q0 = t.socks@[p as int].queue@;
    t.socks[p].queue.push(m);
    let woken = drain_queue(&mut t.socks[p].waiters);
    assert(queue_view(t.socks@[p as int].queue@) =~= queue_view(q0).push(mv));
    assert(t.socks@[p as int]@ =~= with_message(t0.socks[p as int], mv));
    assert(t@.socks =~= t0.socks.update(p as int, with_message(t0.socks[p as int], mv)));
    assert(t@.names =~= t0.names);
    proof {
        lemma_same_ids(t0, t@, p as int);
    }
    SendOutcome { ret: n, woken }
}

/// Sends a message without control data.
pub fn send_dgram(
    t: &mut UnixTable,
    k: usize,
    payload: Vec<u8>,
    target: Option<UnixAddr>,
    verdict: FilterVerdict,
) -> (r: SendOutcome)
    requires
        table_wf(old(t)@),
        k < old(t).socks@.len(),
        payload@.len() <= isize::MAX,
    ensures
        table_wf(final(t)@),
        r.ret == send_result(old(t)@, k as int, payload@, name_view(target)),
        (final(t)@, r.woken@) == after_send(
            old(t)@,
            k as int,
            payload@,
            name_view(target),
            0,
            false,
            verdict,
        ),
{
    send_dgram_with_control(t, k, payload, target, 0, false, verdict)
}

/// What writing leads to.
#[derive(Clone, Copy, PartialEq, Eq, Structural)]
pub enum WriteStep {
    /// The pipe end writes, and its answer is returned.
    Forward(u64),
    /// The call returns this many bytes; an error is none.
    Done(usize),
}

/// Writing to a socket sends a message to its default destination.
pub open spec fn sends_by_write(t: TableView, k: int, payload: Seq<u8>) -> bool {
    t.socks[k].sock_type == SOCK_DGRAM && payload.len() > 0
}

/// What writing leads to.
pub open spec fn write_step(t: TableView, k: int, payload: Seq<u8>) -> WriteStep {
    let s = t.socks[k];
    if stream_like(s.sock_type) && s.stream_end is Some {
        WriteStep::Forward(s.stream_end->0)
    } else if sends_by_write(t, k, payload) && send_error(t, k, None) is None {
        WriteStep::Done(payload.len() as usize)
    } else {
        WriteStep::Done(0)
    }
}

/// Writes to a socket. A message goes where [`send_dgram`] sends it without a
/// destination; those who are woken come back.
pub fn write(t: &mut UnixTable, k: usize, payload: Vec<u8>, verdict: FilterVerdict) -> (r: (
    WriteStep,
    Vec<usize>,
))
    requires
        table_wf(old(t)@),
        k < old(t).socks@.len(),
        payload@.len() <= isize::MAX,
    ensures
        table_wf(final(t)@),
        r.0 == write_step(old(t)@, k as int, payload@),
        (final(t)@, r.1@) == if sends_by_write(old(t)@, k as int, payload@) {
            after_send(old(t)@, k as int, payload@, None, 0, false, verdict)
        } else {
            (old(t)@, Seq::empty())
        },
{
    let none: Vec<usize> = Vec::new();
    if t.socks[k].is_stream_like() {
        return match t.socks[k].stream_end {
            Some(end) => (WriteStep::Forward(end), none),
            None => (WriteStep::Done(0), none),
        };
    }
    if !t.socks[k].is_dgram() || payload.len() == 0 {
        return (WriteStep::Done(0), none);
    }
    let n: usize = payload.len();
    let r = send_dgram(t, k, payload, None, verdict);
    if r.ret < 0 {
        (WriteStep::Done(0), r.woken)
    } else {
        (WriteStep::Done(n), r.woken)
    }
}

// ---------------------------------------------------------------------------
// Binding.
// ---------------------------------------------------------------------------

/// What the file system says of the place of a path.
#[derive(Clone, Copy)]
pub struct PathFacts {
    pub parent_found: bool,
    pub parent_is_dir: bool,
    pub name_exists: bool,
    pub create_ok: bool,
    /// The name exists after a file could not be created.
    pub exists_after: bool,
}

/// What binding leads to.
#[derive(Clone, Copy)]
pub struct BindOutcome {
    pub ret: isize,
    /// A file was created at the path.
    pub created: bool,
    /// That file is to be removed again.
    pub remove: bool,
}

/// Why a file cannot be created for a path.
pub open spec fn path_error(path: Seq<u8>, f: PathFacts) -> Option<isize> {
    if split_path(path) is None {
        Some(EINVAL)
    } else if !f.parent_found {
        Some(ENOENT)
    } else if !f.parent_is_dir {
        Some(ENOTDIR)
    } else if f.name_exists {
        Some(EADDRINUSE)
    } else if !f.create_ok {
        if f.exists_after {
            Some(EADDRINUSE)
        } else {
            Some(EINVAL)
        }
    } else {
        None
    }
}

/// What binding socket `k` to a name leads to. `addr` is the name, or why it
/// could not be read.
pub open spec fn bind_outcome(
    t: TableView,
    k: int,
    addr: Result<UnixName, isize>,
    f: PathFacts,
) -> BindOutcome {
    if t.socks[k].bound is Some {
        BindOutcome { ret: EINVAL, created: false, remove: false }
    } else {
        match addr {
            Err(e) => BindOutcome { ret: e, created: false, remove: false },
            Ok(name) => {
                let is_path = name is Path;
                let path_fail = match name {
                    UnixName::Path(p) => path_error(p, f),
                    UnixName::Abstract(_) => None,
                };
                match path_fail {
                    Some(e) => BindOutcome { ret: e, created: false, remove: false },
                    None => if lookup(t, t.socks[k].ns, name) is Some {
                        BindOutcome { ret: EADDRINUSE, created: is_path, remove: is_path }
                    } else {
                        BindOutcome { ret: 0, created: is_path, remove: false }
                    },
                }
            },
        }
    }
}

pub open spec fn name_of(addr: Result<UnixAddr, isize>) -> Result<UnixName, isize> {
    match addr {
        Ok(a) => Ok(a@),
        Err(e) => Err(e),
    }
}

/// Decides whether a file can be created for a path.
pub fn check_bind_path(path: &Vec<u8>, f: &PathFacts) -> (r: Result<(), isize>)
    ensures
        match r {
            Ok(_) => path_error(path@, *f) is None,
            Err(e) => path_error(path@, *f) == Some(e),
        },
{
    if split_parent_and_name(path.as_slice()).is_none() {
        return Err(EINVAL);
    }
    if !f.parent_found {
        return Err(ENOENT);
    }
    if !f.parent_is_dir {
        return Err(ENOTDIR);
    }
    if f.name_exists {
        return Err(EADDRINUSE);
    }
    if !f.create_ok {
        if f.exists_after {
            return Err(EADDRINUSE);
        }
        return Err(EINVAL);
    }
    Ok(())
}

/// Binds a socket. A path gets a file; it is removed again if the name turns out
/// to be taken.
pub fn bind_unix_socket(
    t: &mut UnixTable,
    k: usize,
    addr: Result<UnixAddr, isize>,
    f: &PathFacts,
) -> (r: BindOutcome)
    requires
        table_wf(old(t)@),
        k < old(t).socks@.len(),
        addr matches Err(e) ==> e != 0,
    ensures
        table_wf(final(t)@),
        r == bind_outcome(old(t)@, k as int, name_of(addr), *f),
        r.ret != 0 ==> final(t)@ == old(t)@,
        r.ret == 0 ==> {
            let s = old(t)@.socks[k as int];
            let name = name_of(addr)->Ok_0;
            &&& final(t)@.names == registered(old(t)@, s.ns, name, s.id).names
            &&& final(t)@.socks == old(t)@.socks.update(
                k as int,
                (SockView { bound: Some(name), ..s }),
            )
        },
{
    let ghost t0 = t@;
    if t.socks[k].bound.is_some() {
        return BindOutcome { ret: EINVAL, created: false, remove: false };
    }
    let name = match addr {
        Ok(a) => a,
        Err(e) => {
            return BindOutcome { ret: e, created: false, remove: false };
        },
    };
    let mut is_path: bool = false;
    if let UnixAddr::Path(p) = &name {
        if let Err(e) = check_bind_path(p, f) {
            return BindOutcome { ret: e, created: false, remove: false };
        }
        is_path = true;
    }
    let ns: u64 = t.socks[k].ns;
    let id: u64 = t.socks[k].id;
    let ret: isize = t.register_unix_bound_socket(ns, &name, id);
    if ret != 0 {
        return BindOutcome { ret, created: is_path, remove: is_path };
    }
    let ghost t1 = t@;
    let ghost nv = name@;
    t.socks[k].bound = Some(name);
    assert(t@.socks =~= t0.socks.update(
        k as int,
        (SockView { bound: Some(nv), ..t0.socks[k as int] }),
    ));
    assert(t@.names =~= t1.names);
    proof {
        lemma_same_ids(t1, t@, k as int);
    }
    BindOutcome { ret: 0, created: is_path, remove: false }
}

// ---------------------------------------------------------------------------
// Laws.
// ---------------------------------------------------------------------------

/// A failed bind leaves no file behind.
pub proof fn law_failed_bind_leaves_no_file(
    t: TableView,
    k: int,
    addr: Result<UnixName, isize>,
    f: PathFacts,
)
    ensures
        ({
            let r = bind_outcome(t, k, addr, f);
            r.ret != 0 ==> r.created == r.remove
        }),
{
}

/// The two sides of a new connection are connected and know each other: the server
/// sees the name that the client is bound to, if any, and the client's credentials,
/// and the client sees the name it connected to and the listener's credentials.
pub proof fn law_both_sides_agree(
    socks: Seq<SockView>,
    k: int,
    p: int,
    name: UnixName,
    new: NewConnection,
    cred: UCred,
)
    requires
        0 <= k < socks.len(),
        0 <= p < socks.len(),
    ensures
        ({
            let after = connected(socks, k, p, name, new, cred);
            let server = after.last();
            let client = after[k];
            &&& server.id == new.id
            &&& server.stream_end == Some(new.server_end)
            &&& client.stream_end == Some(new.client_end)
            &&& server.peer_addr == socks[k].bound
            &&& client.peer_addr == Some(name)
            &&& server.peer_cred == Some(cred)
            &&& client.peer_cred == Some(server.local_cred)
            &&& server.sock_type == client.sock_type
            &&& has_peer(server)
            &&& has_peer(client)
        }),
{
}

/// The connection that was made last is the last that will be accepted.
pub proof fn law_connections_queue_up(
    socks: Seq<SockView>,
    k: int,
    p: int,
    name: UnixName,
    new: NewConnection,
    cred: UCred,
)
    requires
        0 <= k < socks.len(),
        0 <= p < socks.len(),
    ensures
        connected(socks, k, p, name, new, cred)[p].pending == socks[p].pending.push(new.id),
{
}

/// A connection that was made is accepted: if none waited before it, the
/// listening socket hands out the server's side.
pub proof fn law_connections_are_accepted(
    socks: Seq<SockView>,
    k: int,
    p: int,
    name: UnixName,
    new: NewConnection,
    cred: UCred,
    nonblock: bool,
)
    requires
        0 <= k < socks.len(),
        0 <= p < socks.len(),
        stream_like(socks[p].sock_type),
        socks[p].listening,
        socks[p].pending.len() == 0,
        find_sock(socks, new.id) is None,
    ensures
        ({
            let after = connected(socks, k, p, name, new, cred);
            &&& accept_step(after[p], nonblock) == AcceptStep::Taken(new.id)
            &&& find_sock(after, new.id) == Some(socks.len() as int)
            &&& after[socks.len() as int].stream_end == Some(new.server_end)
        }),
{
    let after = connected(socks, k, p, name, new, cred);
    lemma_fresh_id(socks, new.id, 0);
    assert forall|j: int| 0 <= j < socks.len() implies (#[trigger] after[j]).id == socks[j].id by {}
    lemma_only_last(after, new.id, 0);
}

proof fn lemma_only_last(socks: Seq<SockView>, id: u64, i: int)
    requires
        0 <= i < socks.len(),
        forall|j: int| 0 <= j < socks.len() - 1 ==> (#[trigger] socks[j]).id != id,
        socks.last().id == id,
    ensures
        find_sock_from(socks, id, i) == Some(socks.len() - 1),
    decreases socks.len() - i,
{
    if i < socks.len() - 1 {
        lemma_only_last(socks, id, i + 1);
    }
}

/// Messages arrive whole and in the order in which they were sent: a message to
/// a socket without filters is behind those that wait there, with the name of
/// its sender, and nothing else changes.
pub proof fn law_messages_keep_their_order(
    t: TableView,
    k: int,
    payload: Seq<u8>,
    target: Option<UnixName>,
    verdict: FilterVerdict,
)
    requires
        table_wf(t),
        0 <= k < t.socks.len(),
        send_error(t, k, target) is None,
        ({
            let p = lookup(t, t.socks[k].ns, destination(t.socks[k], target)->0)->0;
            t.socks[p].filters.classic is None && t.socks[p].filters.ebpf is None
        }),
    ensures
        ({
            let s = t.socks[k];
            let p = lookup(t, s.ns, destination(s, target)->0)->0;
            let after = after_send(t, k, payload, target, 0, false, verdict).0;
            &&& after.socks[p].queue.len() == t.socks[p].queue.len() + 1
            &&& after.socks[p].queue.drop_last() == t.socks[p].queue
            &&& after.socks[p].queue.last().payload == payload
            &&& after.socks[p].queue.last().from == s.bound
            &&& forall|i: int|
                0 <= i < t.socks.len() && i != p ==> #[trigger] after.socks[i] == t.socks[i]
            &&& after.names == t.names
        }),
{
    let s = t.socks[k];
    let to = destination(s, target)->0;
    lemma_lookup(t, s.ns, to);
    let p = lookup(t, s.ns, to)->0;
    let after = after_send(t, k, payload, target, 0, false, verdict).0;
    assert(after.socks[p].queue.drop_last() =~= t.socks[p].queue);
}

/// What is sent to a socket with nothing else to read is what is read next, as
/// far as there is room for it.
pub proof fn law_what_is_sent_is_read(
    t: TableView,
    k: int,
    payload: Seq<u8>,
    target: Option<UnixName>,
    verdict: FilterVerdict,
    room: usize,
)
    requires
        table_wf(t),
        0 <= k < t.socks.len(),
        send_error(t, k, target) is None,
        ({
            let p = lookup(t, t.socks[k].ns, destination(t.socks[k], target)->0)->0;
            let peer = t.socks[p];
            peer.filters.classic is None && peer.filters.ebpf is None && peer.queue.len() == 0
                && !peer.rd_shutdown
        }),
        payload.len() <= room,
    ensures
        ({
            let p = lookup(t, t.socks[k].ns, destination(t.socks[k], target)->0)->0;
            let after = after_send(t, k, payload, target, 0, false, verdict).0;
            read_step(after.socks[p], room, false) == ReadView::Data(payload)
        }),
{
    law_messages_keep_their_order(t, k, payload, target, verdict);
    let s = t.socks[k];
    let to = destination(s, target)->0;
    lemma_lookup(t, s.ns, to);
    let p = lookup(t, s.ns, to)->0;
    let after = after_send(t, k, payload, target, 0, false, verdict).0;
    assert(after.socks[p].queue[0] == after.socks[p].queue.last());
}

/// Connecting keeps what waits in order: the new connection waits last.
pub proof fn law_connecting_keeps_what_waits(
    t: TableView,
    k: int,
    p: int,
    name: UnixName,
    new: NewConnection,
    cred: UCred,
)
    requires
        waiting_wf(t),
        0 <= k < t.socks.len(),
        0 <= p < t.socks.len(),
        find_sock(t.socks, new.id) is None,
    ensures
        ({
            let u = TableView { socks: connected(t.socks, k, p, name, new, cred), ..t };
            waiting_wf(u) && u.socks[p].pending == t.socks[p].pending.push(new.id)
        }),
{
    let u = TableView { socks: connected(t.socks, k, p, name, new, cred), ..t };
    let n = t.socks.len() as int;
    lemma_fresh_id(t.socks, new.id, 0);
    assert(is_plain(u.socks[n], new.id));
    assert forall|i: int, a: int|
        0 <= i < u.socks.len() && 0 <= a < u.socks[i].pending.len() implies plain(
        u.socks,
        #[trigger] u.socks[i].pending[a],
    ) && (u.socks[i].pending[a] == new.id <==> i == p && a == t.socks[p].pending.len()) && (
    u.socks[i].pending[a] != new.id ==> i < n && a < t.socks[i].pending.len()
        && t.socks[i].pending[a] == u.socks[i].pending[a]) by {
        let id = u.socks[i].pending[a];
        if !(i == p && a == t.socks[p].pending.len()) {
            assert(t.socks[i].pending[a] == id);
            let q = choose|q: int| 0 <= q < n && is_plain(#[trigger] t.socks[q], id);
            assert(is_plain(u.socks[q], id));
        }
    }
}

} // verus!
