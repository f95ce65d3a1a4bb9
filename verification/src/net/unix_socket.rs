//! One local socket: its state, and what it does on its own.

use vstd::prelude::*;
use vstd::utf8::valid_utf8;
use crate::errno::{
    EAGAIN, ECONNREFUSED, EINTR, EINVAL, ENOENT, EOPNOTSUPP, EPERM, EPIPE,
};
use crate::net::getsockopt::{BaseOptions, UCred};
use crate::net::optval::{TimestampMode, SOCK_DGRAM, SOCK_STREAM};
use crate::net::setsockopt::{SetAction, SockFlag};
use crate::net::unix_addr::{copy_optional_name, fitting, name_view, UnixAddr, UnixName};
use crate::process::queue::{drain_queue, enqueue_waiter_once};
use crate::text::{append_bytes, copy_range, is_utf8};

verus! {

pub const SOCK_SEQPACKET: u32 = 5;
pub const POLLIN: u16 = 1;
pub const POLLOUT: u16 = 4;
pub const POLLERR: u16 = 8;
pub const POLLHUP: u16 = 16;

/// A message that waits to be received. Its control data is kept by a handle,
/// and `with_cred` tells that the sender's credentials go with it.
pub struct UnixDatagram {
    pub from: Option<UnixAddr>,
    pub payload: Vec<u8>,
    pub control: u64,
    pub with_cred: bool,
}

/// A message as plain values.
#[verifier::ext_equal]
pub struct DgramView {
    pub from: Option<UnixName>,
    pub payload: Seq<u8>,
    pub control: u64,
    pub with_cred: bool,
}

impl View for UnixDatagram {
    type V = DgramView;

    open spec fn view(&self) -> DgramView {
        DgramView {
            from: name_view(self.from),
            payload: self.payload@,
            control: self.control,
            with_cred: self.with_cred,
        }
    }
}

/// The filters of a socket: a list of instructions, or a program. Each is kept
/// by a handle.
#[derive(Clone, Copy)]
pub struct FilterState {
    pub locked: bool,
    pub classic: Option<u64>,
    pub ebpf: Option<u64>,
}

/// A local socket.
pub struct UnixSocket {
    pub id: u64,
    pub sock_type: u32,
    pub inode: u64,
    pub ns: u64,
    pub bound: Option<UnixAddr>,
    pub listening: bool,
    pub backlog: usize,
    /// Connections that wait to be accepted.
    pub pending: Vec<u64>,
    /// The end of the pipe that a connection reads and writes.
    pub stream_end: Option<u64>,
    pub peer_addr: Option<UnixAddr>,
    pub local_cred: UCred,
    pub peer_cred: Option<UCred>,
    pub dgram_peer: Option<UnixAddr>,
    pub queue: Vec<UnixDatagram>,
    pub opts: BaseOptions,
    pub filters: FilterState,
    pub error: i32,
    pub rd_shutdown: bool,
    pub wr_shutdown: bool,
    /// When the last message was received, in nanoseconds.
    pub last_timestamp: Option<u64>,
    /// Tasks that poll the socket.
    pub waiters: Vec<usize>,
}

/// A socket as plain values.
#[verifier::ext_equal]
pub struct SockView {
    pub id: u64,
    pub sock_type: u32,
    pub inode: u64,
    pub ns: u64,
    pub bound: Option<UnixName>,
    pub listening: bool,
    pub backlog: usize,
    pub pending: Seq<u64>,
    pub stream_end: Option<u64>,
    pub peer_addr: Option<UnixName>,
    pub local_cred: UCred,
    pub peer_cred: Option<UCred>,
    pub dgram_peer: Option<UnixName>,
    pub queue: Seq<DgramView>,
    pub opts: BaseOptions,
    pub filters: FilterState,
    pub error: i32,
    pub rd_shutdown: bool,
    pub wr_shutdown: bool,
    pub last_timestamp: Option<u64>,
    pub waiters: Seq<usize>,
}

pub open spec fn queue_view(q: Seq<UnixDatagram>) -> Seq<DgramView> {
    Seq::new(q.len(), |i: int| q[i]@)
}

impl View for UnixSocket {
    type V = SockView;

    open spec fn view(&self) -> SockView {
        SockView {
            id: self.id,
            sock_type: self.sock_type,
            inode: self.inode,
            ns: self.ns,
            bound: name_view(self.bound),
            listening: self.listening,
            backlog: self.backlog,
            pending: self.pending@,
            stream_end: self.stream_end,
            peer_addr: name_view(self.peer_addr),
            local_cred: self.local_cred,
            peer_cred: self.peer_cred,
            dgram_peer: name_view(self.dgram_peer),
            queue: queue_view(self.queue@),
            opts: self.opts,
            filters: self.filters,
            error: self.error,
            rd_shutdown: self.rd_shutdown,
            wr_shutdown: self.wr_shutdown,
            last_timestamp: self.last_timestamp,
            waiters: self.waiters@,
        }
    }
}

pub open spec fn stream_like(sock_type: u32) -> bool {
    sock_type == SOCK_STREAM || sock_type == SOCK_SEQPACKET
}

/// What every socket keeps: it has at most one filter, and the number of waiting
/// connections is bounded while it listens.
pub open spec fn sock_wf(s: SockView) -> bool {
    &&& !(s.filters.classic is Some && s.filters.ebpf is Some)
    &&& 1 <= s.backlog <= 32
    &&& s.pending.len() <= 32
    &&& s.listening ==> s.bound is Some && stream_like(s.sock_type)
    &&& s.pending.len() > 0 ==> s.listening
}

/// The options of a new socket.
pub open spec fn default_options() -> BaseOptions {
    BaseOptions {
        filter_locked: false,
        reuseaddr: false,
        dontroute: false,
        broadcast: false,
        keepalive: false,
        oobinline: false,
        passcred: false,
        no_check: false,
        rcvmark: false,
        rcvpriority: false,
        rcvlowat: 1,
        sndbuf: 0,
        rcvbuf: 0,
        priority: 0,
        mark: 0,
        busy_poll: 0,
        timestamp: TimestampMode::Off,
        linger_on: false,
        linger_sec: 0,
        rcvtimeo: None,
        sndtimeo: None,
    }
}

/// A new socket.
pub open spec fn fresh(id: u64, sock_type: u32, inode: u64, ns: u64, cred: UCred) -> SockView {
    SockView {
        id,
        sock_type,
        inode,
        ns,
        bound: None,
        listening: false,
        backlog: 1,
        pending: Seq::empty(),
        stream_end: None,
        peer_addr: None,
        local_cred: cred,
        peer_cred: None,
        dgram_peer: None,
        queue: Seq::empty(),
        opts: default_options(),
        filters: FilterState { locked: false, classic: None, ebpf: None },
        error: 0,
        rd_shutdown: false,
        wr_shutdown: false,
        last_timestamp: None,
        waiters: Seq::empty(),
    }
}

fn new_options() -> (r: BaseOptions)
    ensures
        r == default_options(),
{
    BaseOptions {
        filter_locked: false,
        reuseaddr: false,
        dontroute: false,
        broadcast: false,
        keepalive: false,
        oobinline: false,
        passcred: false,
        no_check: false,
        rcvmark: false,
        rcvpriority: false,
        rcvlowat: 1,
        sndbuf: 0,
        rcvbuf: 0,
        priority: 0,
        mark: 0,
        busy_poll: 0,
        timestamp: TimestampMode::Off,
        linger_on: false,
        linger_sec: 0,
        rcvtimeo: None,
        sndtimeo: None,
    }
}

/// How a call that has nothing to do goes on.
#[derive(Clone, Copy, PartialEq, Eq, Structural)]
pub enum TimerStep {
    /// Sleep until woken.
    Suspend,
    /// Sleep until woken, or for a number of milliseconds.
    SleepFor(u64),
    /// The time is over.
    Expired,
}

/// The time that is left.
pub open spec fn timer_step(deadline: Option<u64>, now: u64) -> TimerStep {
    match deadline {
        None => TimerStep::Suspend,
        Some(d) => if now >= d {
            TimerStep::Expired
        } else {
            TimerStep::SleepFor((d - now) as u64)
        },
    }
}

/// Decides how to wait: a call whose time is over fails with `EAGAIN`.
pub fn arm_timeout_timer(deadline: Option<u64>, now: u64) -> (r: TimerStep)
    ensures
        r == timer_step(deadline, now),
        r matches TimerStep::SleepFor(ms) ==> ms >= 1,
{
    match deadline {
        None => TimerStep::Suspend,
        Some(d) => if now >= d {
            TimerStep::Expired
        } else {
            TimerStep::SleepFor(d - now)
        },
    }
}

/// The end of a wait that starts now.
pub open spec fn deadline_after(timeout: Option<u64>, now: u64) -> Option<u64> {
    match timeout {
        None => None,
        Some(ms) => Some(
            if now + ms > u64::MAX {
                u64::MAX
            } else {
                (now + ms) as u64
            },
        ),
    }
}

/// What happens to a pipe end when the filter of its socket changes.
#[derive(Clone, Copy, PartialEq, Eq, Structural)]
pub enum EndStep {
    /// Nothing is connected: the call returns this.
    Return(isize),
    /// The end does the same, and its answer is returned.
    Forward(u64),
}

/// One round of a call that may wait.
#[derive(Clone, Copy, PartialEq, Eq, Structural)]
pub enum AcceptStep {
    Taken(u64),
    Fail(isize),
    Wait,
}

/// One round of a call that receives a message.
pub enum RecvStep {
    Message(UnixDatagram),
    Fail(isize),
    Wait,
}

/// One round of reading.
pub enum ReadStep {
    /// The pipe end reads, and its answer is returned.
    Forward(u64),
    /// The call returns with these bytes; an error is no bytes.
    Data(Vec<u8>),
    Wait,
}

/// The events of the pipe end of a connection.
#[derive(Clone, Copy)]
pub struct EndPoll {
    pub mask: u16,
    /// There is at least as much to read as the low-water mark asks for.
    pub readable: bool,
    pub writable: bool,
}

/// The events of a socket.
pub open spec fn poll_events(s: SockView, end: EndPoll) -> u16 {
    let err: u16 = if s.error != 0 {
        POLLERR
    } else {
        0
    };
    if stream_like(s.sock_type) {
        if s.listening {
            err | (if s.pending.len() > 0 {
                POLLIN
            } else {
                0u16
            })
        } else if s.stream_end is Some {
            err | (end.mask & !POLLIN) | (if end.readable {
                POLLIN
            } else {
                0u16
            })
        } else {
            err
        }
    } else if s.sock_type == SOCK_DGRAM {
        let a: u16 = if s.rd_shutdown || s.queue.len() > 0 {
            err | POLLIN
        } else {
            err
        };
        let b: u16 = if !s.wr_shutdown {
            a | POLLOUT
        } else {
            a
        };
        if s.rd_shutdown && s.wr_shutdown {
            b | POLLHUP
        } else {
            b
        }
    } else {
        err
    }
}

/// The digits of a byte.
pub open spec fn hex_digit(n: int) -> u8 {
    if n < 10 {
        (48 + n) as u8
    } else {
        (87 + n) as u8
    }
}

pub open spec fn hex(s: Seq<u8>) -> Seq<u8>
    decreases s.len(),
{
    if s.len() == 0 {
        Seq::empty()
    } else {
        hex(s.drop_last()).push(hex_digit(s.last() as int / 16)).push(
            hex_digit(s.last() as int % 16),
        )
    }
}

/// How a list of sockets shows a name: an abstract one starts with `@`, and is
/// shown as digits if it is not text.
pub open spec fn shown_name(name: Option<UnixName>) -> Seq<u8> {
    match name {
        None => Seq::empty(),
        Some(UnixName::Path(p)) => p,
        Some(UnixName::Abstract(n)) => if valid_utf8(n) {
            seq![64u8] + n
        } else {
            seq![64u8] + hex(n)
        },
    }
}

/// How a list of sockets shows the state.
pub open spec fn shown_state(s: SockView) -> u8 {
    if s.stream_end is Some || s.peer_addr is Some {
        3
    } else if s.listening {
        10
    } else {
        1
    }
}

fn digit(n: u8) -> (r: u8)
    requires
        n < 16,
    ensures
        r == hex_digit(n as int),
{
    if n < 10 {
        48 + n
    } else {
        87 + n
    }
}

fn put_hex(out: &mut Vec<u8>, name: &Vec<u8>)
    ensures
        final(out)@ == old(out)@ + hex(name@),
{
    let ghost start = out@;
    let mut i: usize = 0;
    assert(out@ =~= start + hex(name@.take(0)));
    while i < name.len()
        invariant
            i <= name@.len(),
            out@ == start + hex(name@.take(i as int)),
        decreases name@.len() - i,
    {
        proof {
            let t = name@.take(i + 1);
            assert(t.drop_last() =~= name@.take(i as int));
            assert(t.last() == name@[i as int]);
        }
        out.push(digit(name[i] / 16));
        out.push(digit(name[i] % 16));
        i += 1;
        assert(out@ =~= start + hex(name@.take(i as int)));
    }
    assert(name@.take(i as int) =~= name@);
}

/// The socket has another end: a pipe, or a default destination.
pub open spec fn has_peer(s: SockView) -> bool {
    s.stream_end is Some || s.peer_addr is Some || s.dgram_peer is Some
}

/// What an error of a send does to the sender: some are kept for the next
/// reading of the error.
pub open spec fn kept_error(e: isize) -> bool {
    e == EPIPE || e == ECONNREFUSED || e == ENOENT
}

/// The events of an option change that the pipe end must follow.
pub open spec fn followed(a: SetAction) -> bool {
    match a {
        SetAction::RcvTimeout(_) => true,
        SetAction::SndTimeout(_) => true,
        SetAction::Flag(SockFlag::PassCred, _) => true,
        _ => false,
    }
}

impl UnixSocket {
    /// Makes a socket that is neither bound nor connected.
    pub fn new(id: u64, sock_type: u32, inode: u64, ns: u64, cred: UCred) -> (r: UnixSocket)
        ensures
            r@ == fresh(id, sock_type, inode, ns, cred),
            sock_wf(r@),
    {
        let r = UnixSocket {
            id,
            sock_type,
            inode,
            ns,
            bound: None,
            listening: false,
            backlog: 1,
            pending: Vec::new(),
            stream_end: None,
            peer_addr: None,
            local_cred: cred,
            peer_cred: None,
            dgram_peer: None,
            queue: Vec::new(),
            opts: new_options(),
            filters: FilterState { locked: false, classic: None, ebpf: None },
            error: 0,
            rd_shutdown: false,
            wr_shutdown: false,
            last_timestamp: None,
            waiters: Vec::new(),
        };
        assert(r@ =~= fresh(id, sock_type, inode, ns, cred));
        r
    }

    /// Makes the server's side of a connection. It takes over the timeouts, the
    /// credentials option and the filter of the listening socket.
    pub fn new_connected_stream(
        id: u64,
        sock_type: u32,
        inode: u64,
        ns: u64,
        stream_end: u64,
        peer_addr: Option<UnixAddr>,
        local_cred: UCred,
        peer_cred: UCred,
        listener: &BaseOptions,
        filters: FilterState,
    ) -> (r: UnixSocket)
        requires
            !(filters.classic is Some && filters.ebpf is Some),
        ensures
            r@ == accepted(
                id,
                sock_type,
                inode,
                ns,
                stream_end,
                name_view(peer_addr),
                local_cred,
                peer_cred,
                *listener,
                filters,
            ),
            sock_wf(r@),
    {
        let mut r = UnixSocket::new(id, sock_type, inode, ns, local_cred);
        r.stream_end = Some(stream_end);
        r.peer_addr = peer_addr;
        r.peer_cred = Some(peer_cred);
        r.opts.rcvtimeo = listener.rcvtimeo;
        r.opts.sndtimeo = listener.sndtimeo;
        r.opts.passcred = listener.passcred;
        r.filters = filters;
        r
    }

    pub fn is_stream_like(&self) -> (r: bool)
        ensures
            r == stream_like(self.sock_type),
    {
        self.sock_type == SOCK_STREAM || self.sock_type == SOCK_SEQPACKET
    }

    pub fn is_dgram(&self) -> (r: bool)
        ensures
            r == (self.sock_type == SOCK_DGRAM),
    {
        self.sock_type == SOCK_DGRAM
    }

    /// The low-water mark as a number of bytes.
    pub fn rcvlowat_bytes(&self) -> (r: usize)
        ensures
            r == if self.opts.rcvlowat < 1 {
                1
            } else {
                self.opts.rcvlowat as int
            },
    {
        if self.opts.rcvlowat < 1 {
            1
        } else {
            self.opts.rcvlowat as usize
        }
    }

    /// The end of a wait to receive that starts now.
    pub fn rcvtimeo_deadline_ms(&self, now: u64) -> (r: Option<u64>)
        ensures
            r == deadline_after(self.opts.rcvtimeo, now),
    {
        match self.opts.rcvtimeo {
            None => None,
            Some(ms) => Some(now.saturating_add(ms)),
        }
    }

    /// Stores an option. The pipe end that comes back, if any, must follow.
    pub fn set_option(&mut self, a: SetAction) -> (r: Option<u64>)
        ensures
            sock_wf(old(self)@) ==> sock_wf(final(self)@),
            final(self)@ == (SockView { opts: base_after(old(self).opts, a), ..old(self)@ }),
            r == if followed(a) {
                old(self).stream_end
            } else {
                None
            },
    {
        set_base_option(&mut self.opts, a);
        match a {
            SetAction::RcvTimeout(_) => self.stream_end,
            SetAction::SndTimeout(_) => self.stream_end,
            SetAction::Flag(SockFlag::PassCred, _) => self.stream_end,
            _ => None,
        }
    }

    /// Attaches a list of instructions, in place of what was attached.
    pub fn attach_filter(&mut self, filter: u64) -> (r: EndStep)
        ensures
            sock_wf(old(self)@) ==> sock_wf(final(self)@),
            final(self)@ == (SockView {
                filters: attached(old(self).filters, Some(filter), None),
                ..old(self)@
            }),
            r == filter_step(*old(self)),
    {
        if self.filters.locked {
            return EndStep::Return(EPERM);
        }
        self.filters = FilterState { locked: false, classic: Some(filter), ebpf: None };
        match self.stream_end {
            Some(end) => EndStep::Forward(end),
            None => EndStep::Return(0),
        }
    }

    /// Attaches a program, in place of what was attached.
    pub fn attach_bpf(&mut self, filter: u64) -> (r: EndStep)
        ensures
            sock_wf(old(self)@) ==> sock_wf(final(self)@),
            final(self)@ == (SockView {
                filters: attached(old(self).filters, None, Some(filter)),
                ..old(self)@
            }),
            r == filter_step(*old(self)),
    {
        if self.filters.locked {
            return EndStep::Return(EPERM);
        }
        self.filters = FilterState { locked: false, classic: None, ebpf: Some(filter) };
        match self.stream_end {
            Some(end) => EndStep::Forward(end),
            None => EndStep::Return(0),
        }
    }

    /// Detaches what is attached. With a pipe end its answer decides together
    /// with what was attached here: see [`detach_result`].
    pub fn detach_filter(&mut self) -> (r: EndStep)
        ensures
            sock_wf(old(self)@) ==> sock_wf(final(self)@),
            final(self)@ == (SockView {
                filters: attached(old(self).filters, None, None),
                ..old(self)@
            }),
            r == if old(self).filters.locked {
                EndStep::Return(EPERM)
            } else if old(self).stream_end is Some {
                EndStep::Forward(old(self).stream_end->0)
            } else if filtered(old(self).filters) {
                EndStep::Return(0)
            } else {
                EndStep::Return(ENOENT)
            },
    {
        if self.filters.locked {
            return EndStep::Return(EPERM);
        }
        let had: bool = self.filters.classic.is_some() || self.filters.ebpf.is_some();
        self.filters = FilterState { locked: false, classic: None, ebpf: None };
        match self.stream_end {
            Some(end) => EndStep::Forward(end),
            None => if had {
                EndStep::Return(0)
            } else {
                EndStep::Return(ENOENT)
            },
        }
    }

    /// Locks the filter. It cannot be unlocked.
    pub fn set_filter_locked(&mut self, locked: bool) -> (r: EndStep)
        ensures
            sock_wf(old(self)@) ==> sock_wf(final(self)@),
            final(self)@ == (SockView {
                filters: FilterState {
                    locked: old(self).filters.locked || locked,
                    ..old(self).filters
                },
                ..old(self)@
            }),
            r == if old(self).filters.locked && !locked {
                EndStep::Return(EPERM)
            } else if old(self).stream_end is Some {
                EndStep::Forward(old(self).stream_end->0)
            } else {
                EndStep::Return(0)
            },
    {
        if self.filters.locked && !locked {
            return EndStep::Return(EPERM);
        }
        self.filters.locked = locked;
        match self.stream_end {
            Some(end) => EndStep::Forward(end),
            None => EndStep::Return(0),
        }
    }

    /// Tells whether the filter is locked: a pipe end knows it better.
    pub fn filter_locked(&self, end_locked: Option<bool>) -> (r: bool)
        ensures
            r == match end_locked {
                Some(b) => b,
                None => self.filters.locked,
            },
    {
        match end_locked {
            Some(b) => b,
            None => self.filters.locked,
        }
    }

    /// The line of the socket in a list of sockets: its number, type, state and
    /// name.
    pub fn proc_net_snapshot(&self) -> (r: (u64, u32, u8, Vec<u8>))
        ensures
            r.0 == self.inode,
            r.1 == self.sock_type,
            r.2 == shown_state(self@),
            r.3@ == shown_name(self@.bound),
    {
        let state: u8 = if self.stream_end.is_some() || self.peer_addr.is_some() {
            3
        } else if self.listening {
            10
        } else {
            1
        };
        let mut out: Vec<u8> = Vec::new();
        match &self.bound {
            None => {
                assert(out@ =~= Seq::<u8>::empty());
            },
            Some(UnixAddr::Path(p)) => {
                append_bytes(&mut out, p.as_slice());
                assert(out@ =~= p@);
            },
            Some(UnixAddr::Abstract(n)) => {
                out.push(64);
                assert(out@ =~= seq![64u8]);
                if is_utf8(n.as_slice()) {
                    append_bytes(&mut out, n.as_slice());
                } else {
                    put_hex(&mut out, n);
                }
            },
        }
        (self.inode, self.sock_type, state, out)
    }

    /// Tells whether the socket is connected, whether or not the other end has a
    /// name.
    pub fn is_connected(&self) -> (r: bool)
        ensures
            r == has_peer(self@),
    {
        self.stream_end.is_some() || self.peer_addr.is_some() || self.dgram_peer.is_some()
    }

    /// The name of the other end: that of a connection comes first.
    pub fn peer_name(&self) -> (r: Option<UnixAddr>)
        ensures
            name_view(r) == if self.peer_addr is Some {
                self@.peer_addr
            } else {
                self@.dgram_peer
            },
    {
        if self.peer_addr.is_some() {
            copy_optional_name(&self.peer_addr)
        } else {
            copy_optional_name(&self.dgram_peer)
        }
    }

    /// Keeps an error for the next reading, and wakes those who poll.
    pub fn set_socket_error(&mut self, errno: isize) -> (woken: Vec<usize>)
        requires
            errno > i32::MIN,
        ensures
            sock_wf(old(self)@) ==> sock_wf(final(self)@),
            final(self)@ == with_error(old(self)@, errno),
            woken@ == if errno < 0 {
                old(self)@.waiters
            } else {
                Seq::empty()
            },
    {
        if errno >= 0 {
            let none: Vec<usize> = Vec::new();
            assert(none@ =~= Seq::<usize>::empty());
            return none;
        }
        self.error = (-errno) as i32;
        drain_queue(&mut self.waiters)
    }

    /// Keeps those errors of a send that tell something of the other end.
    pub fn record_peer_error(&mut self, errno: isize) -> (woken: Vec<usize>)
        ensures
            sock_wf(old(self)@) ==> sock_wf(final(self)@),
            final(self)@ == if kept_error(errno) {
                with_error(old(self)@, errno)
            } else {
                old(self)@
            },
            woken@ == if kept_error(errno) {
                old(self)@.waiters
            } else {
                Seq::empty()
            },
    {
        if errno == EPIPE || errno == ECONNREFUSED || errno == ENOENT {
            return self.set_socket_error(errno);
        }
        let none: Vec<usize> = Vec::new();
        assert(none@ =~= Seq::<usize>::empty());
        none
    }

    /// Takes the error that is kept. If there is none the error of the pipe end
    /// is to be taken in its place.
    pub fn take_socket_error(&mut self) -> (r: u32)
        ensures
            sock_wf(old(self)@) ==> sock_wf(final(self)@),
            r == if old(self).error > 0 {
                old(self).error as int
            } else {
                0
            },
            final(self)@ == (SockView {
                error: if old(self).error > 0 {
                    0
                } else {
                    old(self).error
                },
                ..old(self)@
            }),
    {
        if self.error > 0 {
            let e: u32 = self.error as u32;
            self.error = 0;
            e
        } else {
            0
        }
    }

    /// Closes one or both directions. It succeeds without a connection too; a
    /// pipe end follows, and those who poll are woken.
    pub fn shutdown(&mut self, how: usize) -> (woken: Vec<usize>)
        ensures
            sock_wf(old(self)@) ==> sock_wf(final(self)@),
            final(self)@ == shut(old(self)@, how),
            final(self)@ == (SockView {
                rd_shutdown: old(self).rd_shutdown || how == 0 || how == 2,
                wr_shutdown: old(self).wr_shutdown || how == 1 || how == 2,
                waiters: Seq::empty(),
                ..old(self)@
            }),
            woken@ == old(self)@.waiters,
    {
        if how == 0 || how == 2 {
            self.rd_shutdown = true;
        }
        if how == 1 || how == 2 {
            self.wr_shutdown = true;
        }
        drain_queue(&mut self.waiters)
    }

    /// Makes the socket listen. On success those who poll are woken.
    pub fn set_listening(&mut self, backlog: usize, cred: UCred) -> (r: Result<Vec<usize>, isize>)
        requires
            sock_wf(old(self)@),
        ensures
            sock_wf(final(self)@),
            match r {
                Err(e) => final(self)@ == old(self)@ && e == (if !stream_like(
                    old(self).sock_type,
                ) {
                    EOPNOTSUPP
                } else {
                    EINVAL
                }) && (!stream_like(old(self).sock_type) || old(self).bound is None),
                Ok(woken) => stream_like(old(self).sock_type) && old(self).bound is Some
                    && final(self)@ == (SockView {
                    local_cred: cred,
                    listening: true,
                    backlog: clamped(backlog),
                    waiters: Seq::empty(),
                    ..old(self)@
                }) && woken@ == old(self)@.waiters,
            },
    {
        if !self.is_stream_like() {
            return Err(EOPNOTSUPP);
        }
        if self.bound.is_none() {
            return Err(EINVAL);
        }
        self.local_cred = cred;
        self.listening = true;
        self.backlog = if backlog < 1 {
            1
        } else if backlog > 32 {
            32
        } else {
            backlog
        };
        Ok(drain_queue(&mut self.waiters))
    }

    /// One round of accepting a connection: they are taken in the order in which
    /// they came.
    pub fn accept_stream(&mut self, nonblock: bool) -> (r: AcceptStep)
        requires
            sock_wf(old(self)@),
        ensures
            sock_wf(final(self)@),
            r == accept_step(old(self)@, nonblock),
            final(self)@ == if r is Taken {
                (SockView { pending: old(self)@.pending.skip(1), ..old(self)@ })
            } else {
                old(self)@
            },
    {
        if !self.is_stream_like() {
            return AcceptStep::Fail(EOPNOTSUPP);
        }
        if !self.listening {
            return AcceptStep::Fail(EINVAL);
        }
        if self.pending.len() > 0 {
            let first: u64 = self.pending.remove(0);
            assert(self.pending@ =~= old(self)@.pending.skip(1));
            return AcceptStep::Taken(first);
        }
        if nonblock {
            AcceptStep::Fail(EAGAIN)
        } else {
            AcceptStep::Wait
        }
    }

    /// Forgets the other end. Only sockets for messages can.
    pub fn disconnect_unix(&mut self) -> (r: Result<Vec<usize>, isize>)
        ensures
            sock_wf(old(self)@) ==> sock_wf(final(self)@),
            match r {
                Err(e) => e == EOPNOTSUPP && old(self).sock_type != SOCK_DGRAM && final(self)@
                    == old(self)@,
                Ok(woken) => old(self).sock_type == SOCK_DGRAM && final(self)@ == (SockView {
                    dgram_peer: None,
                    peer_addr: None,
                    peer_cred: None,
                    waiters: Seq::empty(),
                    ..old(self)@
                }) && woken@ == old(self)@.waiters,
            },
    {
        if !self.is_dgram() {
            return Err(EOPNOTSUPP);
        }
        self.dgram_peer = None;
        self.peer_addr = None;
        self.peer_cred = None;
        Ok(drain_queue(&mut self.waiters))
    }

    /// One round of receiving a message. A closed socket receives empty
    /// messages; a peeked message stays. The time at which a message is taken is
    /// kept.
    pub fn recv_dgram(&mut self, nonblock: bool, peek: bool, interrupted: bool, now: u64) -> (r:
        RecvStep)
        ensures
            sock_wf(old(self)@) ==> sock_wf(final(self)@),
            match r {
                RecvStep::Message(m) => m@ == (if old(self).rd_shutdown {
                    empty_message()
                } else {
                    old(self)@.queue[0]
                }) && (old(self).rd_shutdown || old(self)@.queue.len() > 0),
                RecvStep::Fail(e) => !old(self).rd_shutdown && old(self)@.queue.len() == 0 && (
                nonblock || interrupted) && e == (if nonblock {
                    EAGAIN
                } else {
                    EINTR
                }),
                RecvStep::Wait => !old(self).rd_shutdown && old(self)@.queue.len() == 0 && !nonblock
                    && !interrupted,
            },
            recv_view(r) == recv_step(old(self)@, nonblock, interrupted),
            final(self)@ == after_recv(old(self)@, peek, now),
            final(self)@ == if r is Message && !old(self).rd_shutdown && !peek {
                (SockView {
                    queue: old(self)@.queue.skip(1),
                    last_timestamp: Some(now),
                    ..old(self)@
                })
            } else {
                old(self)@
            },
    {
        if self.rd_shutdown {
            let m = UnixDatagram {
                from: None,
                payload: Vec::new(),
                control: 0,
                with_cred: false,
            };
            assert(m@ =~= empty_message());
            return RecvStep::Message(m);
        }
        if self.queue.len() > 0 {
            if peek {
                let m = copy_datagram(&self.queue[0]);
                return RecvStep::Message(m);
            }
            let ghost q0 = self.queue@;
            let m = self.queue.remove(0);
            self.last_timestamp = Some(now);
            assert(queue_view(self.queue@) =~= queue_view(q0).skip(1));
            return RecvStep::Message(m);
        }
        if nonblock {
            return RecvStep::Fail(EAGAIN);
        }
        if interrupted {
            return RecvStep::Fail(EINTR);
        }
        RecvStep::Wait
    }

    /// One round of reading into a buffer of `room` bytes. What does not fit of
    /// a message is lost.
    pub fn read(&mut self, room: usize, interrupted: bool, now: u64) -> (r: ReadStep)
        ensures
            sock_wf(old(self)@) ==> sock_wf(final(self)@),
            read_view(r) == read_step(old(self)@, room, interrupted),
            final(self)@ == if takes_message(old(self)@) {
                (SockView {
                    queue: old(self)@.queue.skip(1),
                    last_timestamp: Some(now),
                    ..old(self)@
                })
            } else {
                old(self)@
            },
    {
        let ghost s0 = self@;
        let none: Vec<u8> = Vec::new();
        assert(none@ =~= Seq::<u8>::empty());
        if self.is_stream_like() {
            return match self.stream_end {
                Some(end) => ReadStep::Forward(end),
                None => ReadStep::Data(none),
            };
        }
        if !self.is_dgram() {
            return ReadStep::Data(none);
        }
        match self.recv_dgram(false, false, interrupted, now) {
            RecvStep::Message(m) => {
                let mut payload = m.payload;
                if payload.len() > room {
                    payload.truncate(room);
                }
                assert(payload@ =~= fitting(m@.payload, room as int));
                assert(s0.rd_shutdown ==> payload@ =~= Seq::<u8>::empty());
                ReadStep::Data(payload)
            },
            RecvStep::Fail(_) => ReadStep::Data(none),
            RecvStep::Wait => ReadStep::Wait,
        }
    }

    /// When the last message was received, if any was; of a connection its pipe
    /// end knows that.
    pub fn socket_timestamp(&self, end_timestamp: Option<u64>) -> (r: Option<u64>)
        ensures
            r == if self.sock_type == SOCK_DGRAM {
                self.last_timestamp
            } else if self.stream_end is Some {
                end_timestamp
            } else {
                None
            },
    {
        if self.sock_type == SOCK_DGRAM {
            self.last_timestamp
        } else if self.stream_end.is_some() {
            end_timestamp
        } else {
            None
        }
    }

    /// Tells whether there is something to read or to accept.
    pub fn poll_readable(&self, end: &EndPoll) -> (r: bool)
        ensures
            r == if stream_like(self.sock_type) {
                if self.listening {
                    self@.pending.len() > 0
                } else {
                    self.stream_end is Some && end.readable
                }
            } else {
                self.sock_type == SOCK_DGRAM && self@.queue.len() > 0
            },
    {
        if self.is_stream_like() {
            if self.listening {
                return self.pending.len() > 0;
            }
            return self.stream_end.is_some() && end.readable;
        }
        if self.is_dgram() {
            return self.queue.len() > 0;
        }
        false
    }

    /// Tells whether the socket can be written to.
    pub fn poll_writable(&self, end: &EndPoll) -> (r: bool)
        ensures
            r == if stream_like(self.sock_type) {
                !self.listening && self.stream_end is Some && end.writable
            } else {
                self.sock_type == SOCK_DGRAM && !self.wr_shutdown
            },
    {
        if self.is_stream_like() {
            if self.listening {
                return false;
            }
            return self.stream_end.is_some() && end.writable;
        }
        if self.is_dgram() {
            return !self.wr_shutdown;
        }
        false
    }

    /// The events of the socket.
    pub fn poll_mask(&self, end: &EndPoll) -> (r: u16)
        ensures
            r == poll_events(self@, *end),
    {
        let err: u16 = if self.error != 0 {
            POLLERR
        } else {
            0
        };
        if self.is_stream_like() {
            if self.listening {
                let accept: u16 = if self.pending.len() > 0 {
                    POLLIN
                } else {
                    0
                };
                return err | accept;
            }
            if self.stream_end.is_some() {
                let read: u16 = if end.readable {
                    POLLIN
                } else {
                    0
                };
                return err | (end.mask & !POLLIN) | read;
            }
            return err;
        }
        if self.is_dgram() {
            let mut mask: u16 = err;
            if self.rd_shutdown || self.queue.len() > 0 {
                mask = mask | POLLIN;
            }
            if !self.wr_shutdown {
                mask = mask | POLLOUT;
            }
            if self.rd_shutdown && self.wr_shutdown {
                mask = mask | POLLHUP;
            }
            return mask;
        }
        err
    }

    /// Registers a task that polls. The pipe end that comes back registers it
    /// too.
    pub fn register_poll_waiter(&mut self, task: usize) -> (r: Option<Option<u64>>)
        ensures
            sock_wf(old(self)@) ==> sock_wf(final(self)@),
            match r {
                None => !stream_like(old(self).sock_type) && old(self).sock_type != SOCK_DGRAM
                    && final(self)@ == old(self)@,
                Some(end) => (stream_like(old(self).sock_type) || old(self).sock_type
                    == SOCK_DGRAM) && final(self)@ == (SockView {
                    waiters: with_waiter(old(self)@.waiters, task),
                    ..old(self)@
                }) && end == (if stream_like(old(self).sock_type) && !old(self).listening {
                    old(self).stream_end
                } else {
                    None
                }),
            },
    {
        if self.is_stream_like() {
            let added: bool = enqueue_waiter_once(&mut self.waiters, task);
            if self.listening {
                return Some(None);
            }
            return Some(self.stream_end);
        }
        if self.is_dgram() {
            let added: bool = enqueue_waiter_once(&mut self.waiters, task);
            return Some(None);
        }
        None
    }
}

/// A round of reading as plain values.
#[verifier::ext_equal]
pub enum ReadView {
    Forward(u64),
    Data(Seq<u8>),
    Wait,
}

pub open spec fn read_view(r: ReadStep) -> ReadView {
    match r {
        ReadStep::Forward(end) => ReadView::Forward(end),
        ReadStep::Data(bytes) => ReadView::Data(bytes@),
        ReadStep::Wait => ReadView::Wait,
    }
}

/// Reading takes a message off the queue.
pub open spec fn takes_message(s: SockView) -> bool {
    s.sock_type == SOCK_DGRAM && !s.rd_shutdown && s.queue.len() > 0
}

/// What a round of reading comes to.
pub open spec fn read_step(s: SockView, room: usize, interrupted: bool) -> ReadView {
    if stream_like(s.sock_type) {
        match s.stream_end {
            Some(end) => ReadView::Forward(end),
            None => ReadView::Data(Seq::empty()),
        }
    } else if takes_message(s) {
        ReadView::Data(fitting(s.queue[0].payload, room as int))
    } else if s.sock_type != SOCK_DGRAM || s.rd_shutdown || interrupted {
        ReadView::Data(Seq::empty())
    } else {
        ReadView::Wait
    }
}

/// The server's side of a new connection.
pub open spec fn accepted(
    id: u64,
    sock_type: u32,
    inode: u64,
    ns: u64,
    stream_end: u64,
    peer_addr: Option<UnixName>,
    local_cred: UCred,
    peer_cred: UCred,
    listener: BaseOptions,
    filters: FilterState,
) -> SockView {
    SockView {
        stream_end: Some(stream_end),
        peer_addr,
        peer_cred: Some(peer_cred),
        opts: BaseOptions {
            rcvtimeo: listener.rcvtimeo,
            sndtimeo: listener.sndtimeo,
            passcred: listener.passcred,
            ..default_options()
        },
        filters,
        ..fresh(id, sock_type, inode, ns, local_cred)
    }
}

/// The options of a local socket after one was set.
pub open spec fn base_after(b: BaseOptions, a: SetAction) -> BaseOptions {
    match a {
        SetAction::RcvTimeout(t) => BaseOptions { rcvtimeo: t, ..b },
        SetAction::SndTimeout(t) => BaseOptions { sndtimeo: t, ..b },
        SetAction::Linger(on, sec) => BaseOptions { linger_on: on, linger_sec: sec, ..b },
        SetAction::RcvLowat(n) => BaseOptions { rcvlowat: n, ..b },
        SetAction::Flag(SockFlag::ReuseAddr, on) => BaseOptions { reuseaddr: on, ..b },
        SetAction::Flag(SockFlag::DontRoute, on) => BaseOptions { dontroute: on, ..b },
        SetAction::Flag(SockFlag::Broadcast, on) => BaseOptions { broadcast: on, ..b },
        SetAction::Flag(SockFlag::KeepAlive, on) => BaseOptions { keepalive: on, ..b },
        SetAction::Flag(SockFlag::OobInline, on) => BaseOptions { oobinline: on, ..b },
        SetAction::Flag(SockFlag::PassCred, on) => BaseOptions { passcred: on, ..b },
        _ => b,
    }
}

/// Stores an option of a local socket.
fn set_base_option(b: &mut BaseOptions, a: SetAction)
    ensures
        *final(b) == base_after(*old(b), a),
{
    *b = match a {
        SetAction::RcvTimeout(t) => BaseOptions { rcvtimeo: t, ..*b },
        SetAction::SndTimeout(t) => BaseOptions { sndtimeo: t, ..*b },
        SetAction::Linger(on, sec) => BaseOptions { linger_on: on, linger_sec: sec, ..*b },
        SetAction::RcvLowat(n) => BaseOptions { rcvlowat: n, ..*b },
        SetAction::Flag(SockFlag::ReuseAddr, on) => BaseOptions { reuseaddr: on, ..*b },
        SetAction::Flag(SockFlag::DontRoute, on) => BaseOptions { dontroute: on, ..*b },
        SetAction::Flag(SockFlag::Broadcast, on) => BaseOptions { broadcast: on, ..*b },
        SetAction::Flag(SockFlag::KeepAlive, on) => BaseOptions { keepalive: on, ..*b },
        SetAction::Flag(SockFlag::OobInline, on) => BaseOptions { oobinline: on, ..*b },
        SetAction::Flag(SockFlag::PassCred, on) => BaseOptions { passcred: on, ..*b },
        _ => *b,
    };
}

/// The filters after another one was attached, unless they are locked.
pub open spec fn attached(f: FilterState, classic: Option<u64>, ebpf: Option<u64>) -> FilterState {
    if f.locked {
        f
    } else {
        FilterState { locked: false, classic, ebpf }
    }
}

pub open spec fn filtered(f: FilterState) -> bool {
    f.classic is Some || f.ebpf is Some
}

/// How attaching goes on.
pub open spec fn filter_step(s: UnixSocket) -> EndStep {
    if s.filters.locked {
        EndStep::Return(EPERM)
    } else if s.stream_end is Some {
        EndStep::Forward(s.stream_end->0)
    } else {
        EndStep::Return(0)
    }
}

/// What detaching returns once the pipe end has answered.
pub fn detach_result(had_filter: bool, end_result: isize) -> (r: isize)
    ensures
        r == if end_result == 0 || had_filter {
            0
        } else {
            end_result as int
        },
{
    if end_result == 0 || had_filter {
        0
    } else {
        end_result
    }
}

/// A list of tasks after one more was registered.
pub open spec fn with_waiter(waiters: Seq<usize>, task: usize) -> Seq<usize> {
    if waiters.contains(task) {
        waiters
    } else {
        waiters.push(task)
    }
}

/// A socket that keeps an error.
pub open spec fn with_error(s: SockView, errno: isize) -> SockView {
    if errno >= 0 {
        s
    } else {
        SockView { error: (-errno) as i32, waiters: Seq::empty(), ..s }
    }
}

pub open spec fn clamped(backlog: usize) -> usize {
    if backlog < 1 {
        1
    } else if backlog > 32 {
        32
    } else {
        backlog
    }
}

pub open spec fn accept_step(s: SockView, nonblock: bool) -> AcceptStep {
    if !stream_like(s.sock_type) {
        AcceptStep::Fail(EOPNOTSUPP)
    } else if !s.listening {
        AcceptStep::Fail(EINVAL)
    } else if s.pending.len() > 0 {
        AcceptStep::Taken(s.pending[0])
    } else if nonblock {
        AcceptStep::Fail(EAGAIN)
    } else {
        AcceptStep::Wait
    }
}

/// One round of receiving, as plain values.
pub enum RecvView {
    Message(DgramView),
    Fail(isize),
    Wait,
}

pub open spec fn recv_view(r: RecvStep) -> RecvView {
    match r {
        RecvStep::Message(m) => RecvView::Message(m@),
        RecvStep::Fail(e) => RecvView::Fail(e),
        RecvStep::Wait => RecvView::Wait,
    }
}

/// What a round of receiving comes to.
pub open spec fn recv_step(s: SockView, nonblock: bool, interrupted: bool) -> RecvView {
    if s.rd_shutdown {
        RecvView::Message(empty_message())
    } else if s.queue.len() > 0 {
        RecvView::Message(s.queue[0])
    } else if nonblock {
        RecvView::Fail(EAGAIN)
    } else if interrupted {
        RecvView::Fail(EINTR)
    } else {
        RecvView::Wait
    }
}

/// The socket after a round of receiving: a message that is not only looked at leaves
/// the queue.
pub open spec fn after_recv(s: SockView, peek: bool, now: u64) -> SockView {
    if !s.rd_shutdown && s.queue.len() > 0 && !peek {
        SockView { queue: s.queue.skip(1), last_timestamp: Some(now), ..s }
    } else {
        s
    }
}

/// The socket after directions were closed.
pub open spec fn shut(s: SockView, how: usize) -> SockView {
    SockView {
        rd_shutdown: s.rd_shutdown || how == 0 || how == 2,
        wr_shutdown: s.wr_shutdown || how == 1 || how == 2,
        waiters: Seq::empty(),
        ..s
    }
}

pub open spec fn empty_message() -> DgramView {
    DgramView { from: None, payload: Seq::empty(), control: 0, with_cred: false }
}

fn copy_datagram(d: &UnixDatagram) -> (r: UnixDatagram)
    ensures
        r@ == d@,
{
    let payload = copy_range(d.payload.as_slice(), 0, d.payload.len());
    assert(payload@ =~= d.payload@);
    UnixDatagram {
        from: copy_optional_name(&d.from),
        payload,
        control: d.control,
        with_cred: d.with_cred,
    }
}

/// A snapshot of a filter on a new pipe end: what is attached, and whether it is
/// locked then.
#[derive(Clone, Copy, PartialEq, Eq, Structural)]
pub enum EndFilter {
    Nothing,
    Classic(u64),
    Program(u64),
}

/// What a pipe end gets of a socket's filters.
pub fn apply_filter_snapshot_to_stream_end(f: FilterState) -> (r: (EndFilter, bool))
    ensures
        r.0 == match f.classic {
            Some(c) => EndFilter::Classic(c),
            None => match f.ebpf {
                Some(p) => EndFilter::Program(p),
                None => EndFilter::Nothing,
            },
        },
        r.1 == f.locked,
{
    let what = match f.classic {
        Some(c) => EndFilter::Classic(c),
        None => match f.ebpf {
            Some(p) => EndFilter::Program(p),
            None => EndFilter::Nothing,
        },
    };
    (what, f.locked)
}

// ---------------------------------------------------------------------------
// Laws.
// ---------------------------------------------------------------------------

/// Once the filters are locked they stay as they are, whatever is asked.
pub proof fn law_locked_filters_stay(f: FilterState, classic: Option<u64>, ebpf: Option<u64>)
    requires
        f.locked,
    ensures
        attached(f, classic, ebpf) == f,
{
}

/// Connections are accepted in the order in which they were made: the one that
/// is behind the first is the next to be taken.
pub proof fn law_accept_in_order(s: SockView, t: SockView, nonblock: bool)
    requires
        accept_step(s, nonblock) is Taken,
        t == (SockView { pending: s.pending.skip(1), ..s }),
        s.pending.len() >= 2,
    ensures
        accept_step(t, nonblock) == AcceptStep::Taken(s.pending[1]),
{
}

/// A task that polls misses nothing: while a message waits, or a connection
/// waits to be accepted, the socket shows that it can be read.
pub proof fn law_poll_shows_what_waits(s: SockView, end: EndPoll)
    requires
        s.sock_type == SOCK_DGRAM && s.queue.len() > 0 || s.listening && stream_like(s.sock_type)
            && s.pending.len() > 0,
    ensures
        poll_events(s, end) & POLLIN != 0,
{
    assert(forall|a: u16| #[trigger] (a | 1u16) & 1u16 != 0) by (bit_vector);
    assert(forall|a: u16, b: u16| (a & 1u16 != 0) ==> (#[trigger] (a | b)) & 1u16 != 0)
        by (bit_vector);
}

} // verus!
