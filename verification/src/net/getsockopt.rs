//! Socket settings, and reading options back.

use vstd::prelude::*;
use crate::bytes::{
    be32_bytes, le16_bytes, le32_bytes, le64_bytes, lemma_le64_inverse, put_be32, put_le16,
    put_le32, put_le64,
};
use crate::errno::{EACCES, EFAULT, EINVAL, ENOPROTOOPT, ENOTCONN, ENOTSOCK, EOPNOTSUPP};
use crate::net::optval::{
    group_filter_head, ipv4_source_filter_mode_bits, is_timestamp, msfilter_head, named_mode,
    read_group_filter_query, read_ip_msfilter_query, timestamp_mode_getsockopt, timeval_value,
    unreadable, FilterHead, OptVal, SourceFilterMode, TimestampMode, AF_INET, AF_NETLINK, AF_PACKET,
    AF_UNIX, AF_VSOCK, SOCK_DGRAM, SOCK_STREAM, SO_ACCEPTCONN, SO_ATTACH_FILTER, SO_BINDTODEVICE,
    SO_BPF_EXTENSIONS, SO_BROADCAST, SO_BSDCOMPAT, SO_BUSY_POLL, SO_DOMAIN, SO_DONTROUTE, SO_ERROR,
    SO_KEEPALIVE, SO_LINGER, SO_LOCK_FILTER, SO_MARK, SO_NO_CHECK, SO_OOBINLINE, SO_PASSCRED,
    SO_PEERCRED, SO_PRIORITY, SO_PROTOCOL, SO_RCVBUF, SO_RCVLOWAT, SO_RCVMARK, SO_RCVPRIORITY,
    SO_RCVTIMEO_NEW, SO_RCVTIMEO_OLD, SO_REUSEADDR, SO_REUSEPORT, SO_SNDBUF, SO_SNDLOWAT,
    SO_SNDTIMEO_NEW, SO_SNDTIMEO_OLD, SO_TYPE,
};
use crate::net::setsockopt::{
    carries_packets, is_local, is_netlink_flag, is_rcvtimeo, is_sndtimeo, netlink_flag_option,
    set_action, SetAction, SetFacts, SockFlag, SocketKind, IP_HDRINCL, IP_MSFILTER, IP_MTU,
    IP_MTU_DISCOVER,
    IP_MULTICAST_IF, IP_MULTICAST_LOOP, IP_MULTICAST_TTL, IP_OPTIONS, IP_PKTINFO, IP_RECVERR,
    IP_RECVTOS, IP_RECVTTL, IP_TOS, IP_TTL, LEVEL_VSOCK, MCAST_MSFILTER, PACKET_AUXDATA,
    PACKET_COPY_THRESH, PACKET_FANOUT, PACKET_HDRLEN, PACKET_IGNORE_OUTGOING, PACKET_ORIGDEV,
    PACKET_QDISC_BYPASS, PACKET_RESERVE, PACKET_STATISTICS, PACKET_VERSION, PACKET_VNET_HDR,
    PACKET_VNET_HDR_SZ, SOL_IP, SOL_NETLINK, SOL_PACKET, SOL_SOCKET, SOL_TCP, SOL_UDP,
    SOL_UDPLITE, SOL_VSOCK, SO_VM_SOCKETS_BUFFER_MAX_SIZE, SO_VM_SOCKETS_BUFFER_MIN_SIZE,
    SO_VM_SOCKETS_BUFFER_SIZE, SO_VM_SOCKETS_CONNECT_TIMEOUT_NEW,
    SO_VM_SOCKETS_CONNECT_TIMEOUT_OLD, TCP_CORK, TCP_KEEPCNT, TCP_KEEPIDLE, TCP_KEEPINTVL,
    TCP_NODELAY, UDPLITE_RECV_CSCOV, UDPLITE_SEND_CSCOV,
};
use crate::text::{append_zeros, copy_range};

verus! {

/// What a network socket is.
#[derive(Clone, Copy, PartialEq, Eq, Structural)]
pub enum NetKind {
    TcpStream,
    TcpListener,
    Udp,
}

/// Who is at the other end of a local connection.
#[derive(Clone, Copy, PartialEq, Eq, Structural)]
pub struct UCred {
    pub pid: i32,
    pub uid: u32,
    pub gid: u32,
}

/// What a socket is, and who is at its other end.
#[derive(Clone, Copy)]
pub struct SocketIdentity {
    pub sock_type: u32,
    pub listening: bool,
    pub protocol: u32,
    pub domain: u32,
    pub net_kind: NetKind,
    pub peer_cred: Option<UCred>,
}

/// Settings at the socket level.
#[derive(Clone, Copy)]
pub struct BaseOptions {
    pub filter_locked: bool,
    pub reuseaddr: bool,
    pub dontroute: bool,
    pub broadcast: bool,
    pub keepalive: bool,
    pub oobinline: bool,
    pub passcred: bool,
    pub no_check: bool,
    pub rcvmark: bool,
    pub rcvpriority: bool,
    pub rcvlowat: i32,
    pub sndbuf: u32,
    pub rcvbuf: u32,
    pub priority: u32,
    pub mark: u32,
    pub busy_poll: u32,
    pub timestamp: TimestampMode,
    pub linger_on: bool,
    pub linger_sec: i32,
    pub rcvtimeo: Option<u64>,
    pub sndtimeo: Option<u64>,
}

/// Settings of sockets between virtual machines.
#[derive(Clone, Copy)]
pub struct VsockOptions {
    pub vsock_size: u64,
    pub vsock_min: u64,
    pub vsock_max: u64,
    pub vsock_timeout: Option<u64>,
}

/// Settings and counters of packet sockets.
#[derive(Clone, Copy)]
pub struct PacketOptions {
    pub packet_version: i32,
    pub packet_reserve: u32,
    pub copy_thresh: i32,
    pub auxdata: bool,
    pub origdev: bool,
    pub vnet_hdr: bool,
    pub qdisc_bypass: bool,
    pub ignore_outgoing: bool,
    pub fanout: u32,
    pub stat_packets: u32,
    pub stat_drops: u32,
    pub stats_v3: bool,
}

/// Settings at the IP level.
#[derive(Clone, Copy)]
pub struct IpSettings {
    pub tos: u32,
    pub ttl: i32,
    pub mtu_discover: i32,
    pub pktinfo: bool,
    pub recverr: bool,
    pub recvttl: bool,
    pub recvtos: bool,
    pub hdrincl: bool,
    pub multicast_ttl: u8,
    pub multicast_loop: bool,
    pub multicast_if: u32,
    pub path_mtu: Option<u32>,
}

/// What the transport shows of its settings, or why it shows nothing.
#[derive(Clone, Copy)]
pub struct TcpSettings {
    pub tcp_nodelay: Result<bool, isize>,
    pub tcp_cork: Result<bool, isize>,
    pub tcp_keepidle: Result<u32, isize>,
    pub tcp_keepintvl: Result<u32, isize>,
    pub tcp_keepcnt: Result<u32, isize>,
    pub udplite_send: Result<u32, isize>,
    pub udplite_recv: Result<u32, isize>,
}

/// The settings of a socket. Each kind uses those that it knows.
#[derive(Clone, Copy)]
pub struct SocketSettings {
    pub kind: SocketKind,
    pub error: u32,
    pub ident: SocketIdentity,
    pub base: BaseOptions,
    /// Bit `n` is the netlink setting with the option number `n`.
    pub netlink_flags: u64,
    pub vsock: VsockOptions,
    pub packet: PacketOptions,
    pub ip: IpSettings,
    pub tcp: TcpSettings,
}

/// A filter, as instructions.
pub struct FilterImage {
    pub count: u32,
    pub bytes: Vec<u8>,
}

/// What is read besides the settings.
pub struct GetFacts {
    /// The name of the device that the socket is bound to.
    pub bound_name: Option<Vec<u8>>,
    pub ip_options: Vec<u8>,
    pub filter: Option<FilterImage>,
    /// A program is attached that is not a list of instructions.
    pub has_ebpf: bool,
    /// The source filter of the group that the value names.
    pub sources: Result<(SourceFilterMode, Vec<u32>), isize>,
    /// The length of a header of the version that the value names.
    pub hdr_len: Result<u32, isize>,
}

// ---------------------------------------------------------------------------
// Storing a setting.
// ---------------------------------------------------------------------------

/// A switched flag.
pub open spec fn with_flag(s: SocketSettings, flag: SockFlag, on: bool) -> SocketSettings {
    match flag {
        SockFlag::ReuseAddr => SocketSettings {
            base: BaseOptions { reuseaddr: on, ..s.base },
            ..s
        },
        SockFlag::DontRoute => SocketSettings {
            base: BaseOptions { dontroute: on, ..s.base },
            ..s
        },
        SockFlag::Broadcast => SocketSettings {
            base: BaseOptions { broadcast: on, ..s.base },
            ..s
        },
        SockFlag::KeepAlive => SocketSettings {
            base: BaseOptions { keepalive: on, ..s.base },
            ..s
        },
        SockFlag::OobInline => SocketSettings {
            base: BaseOptions { oobinline: on, ..s.base },
            ..s
        },
        SockFlag::PassCred => SocketSettings { base: BaseOptions { passcred: on, ..s.base }, ..s },
        SockFlag::NoCheck => SocketSettings { base: BaseOptions { no_check: on, ..s.base }, ..s },
        SockFlag::RcvMark => SocketSettings { base: BaseOptions { rcvmark: on, ..s.base }, ..s },
        SockFlag::RcvPriority => SocketSettings {
            base: BaseOptions { rcvpriority: on, ..s.base },
            ..s
        },
        SockFlag::Auxdata => SocketSettings {
            packet: PacketOptions { auxdata: on, ..s.packet },
            ..s
        },
        SockFlag::Origdev => SocketSettings {
            packet: PacketOptions { origdev: on, ..s.packet },
            ..s
        },
        SockFlag::VnetHdr => SocketSettings {
            packet: PacketOptions { vnet_hdr: on, ..s.packet },
            ..s
        },
        SockFlag::QdiscBypass => SocketSettings {
            packet: PacketOptions { qdisc_bypass: on, ..s.packet },
            ..s
        },
        SockFlag::IgnoreOutgoing => SocketSettings {
            packet: PacketOptions { ignore_outgoing: on, ..s.packet },
            ..s
        },
        SockFlag::HdrIncl => SocketSettings { ip: IpSettings { hdrincl: on, ..s.ip }, ..s },
        SockFlag::Recverr => SocketSettings { ip: IpSettings { recverr: on, ..s.ip }, ..s },
        SockFlag::Pktinfo => SocketSettings { ip: IpSettings { pktinfo: on, ..s.ip }, ..s },
        SockFlag::Recvttl => SocketSettings { ip: IpSettings { recvttl: on, ..s.ip }, ..s },
        SockFlag::Recvtos => SocketSettings { ip: IpSettings { recvtos: on, ..s.ip }, ..s },
        SockFlag::MulticastLoop => SocketSettings {
            ip: IpSettings { multicast_loop: on, ..s.ip },
            ..s
        },
    }
}

/// The settings after an action that only records a value. An action on the
/// network stack leaves them as they are: what it does is seen in the next
/// snapshot.
pub open spec fn applied(s: SocketSettings, a: SetAction) -> SocketSettings {
    match a {
        SetAction::RcvTimeout(t) => SocketSettings {
            base: BaseOptions { rcvtimeo: t, ..s.base },
            ..s
        },
        SetAction::SndTimeout(t) => SocketSettings {
            base: BaseOptions { sndtimeo: t, ..s.base },
            ..s
        },
        SetAction::Linger(on, sec) => SocketSettings {
            base: BaseOptions { linger_on: on, linger_sec: sec, ..s.base },
            ..s
        },
        SetAction::SndBuf(n) => SocketSettings { base: BaseOptions { sndbuf: n, ..s.base }, ..s },
        SetAction::RcvBuf(n) => SocketSettings { base: BaseOptions { rcvbuf: n, ..s.base }, ..s },
        SetAction::Flag(flag, on) => with_flag(s, flag, on),
        SetAction::RcvLowat(n) => SocketSettings {
            base: BaseOptions { rcvlowat: n, ..s.base },
            ..s
        },
        SetAction::BusyPoll(n) => SocketSettings {
            base: BaseOptions { busy_poll: n, ..s.base },
            ..s
        },
        SetAction::Timestamp(m) => SocketSettings {
            base: BaseOptions { timestamp: m, ..s.base },
            ..s
        },
        SetAction::Priority(n) => SocketSettings {
            base: BaseOptions { priority: n, ..s.base },
            ..s
        },
        SetAction::Mark(n) => SocketSettings { base: BaseOptions { mark: n, ..s.base }, ..s },
        SetAction::VsockSize(n) => SocketSettings {
            vsock: VsockOptions { vsock_size: n, ..s.vsock },
            ..s
        },
        SetAction::VsockMinSize(n) => SocketSettings {
            vsock: VsockOptions { vsock_min: n, ..s.vsock },
            ..s
        },
        SetAction::VsockMaxSize(n) => SocketSettings {
            vsock: VsockOptions { vsock_max: n, ..s.vsock },
            ..s
        },
        SetAction::VsockTimeout(t) => SocketSettings {
            vsock: VsockOptions { vsock_timeout: t, ..s.vsock },
            ..s
        },
        SetAction::CopyThresh(n) => SocketSettings {
            packet: PacketOptions { copy_thresh: n, ..s.packet },
            ..s
        },
        SetAction::MulticastTtl(n) => SocketSettings {
            ip: IpSettings { multicast_ttl: n, ..s.ip },
            ..s
        },
        SetAction::MtuDiscover(n) => SocketSettings {
            ip: IpSettings { mtu_discover: n, ..s.ip },
            ..s
        },
        _ => s,
    }
}

/// Switches a flag.
pub fn set_flag(s: &mut SocketSettings, flag: SockFlag, on: bool)
    ensures
        *final(s) == with_flag(*old(s), flag, on),
{
    *s = match flag {
        SockFlag::ReuseAddr => SocketSettings {
            base: BaseOptions { reuseaddr: on, ..s.base },
            ..*s
        },
        SockFlag::DontRoute => SocketSettings {
            base: BaseOptions { dontroute: on, ..s.base },
            ..*s
        },
        SockFlag::Broadcast => SocketSettings {
            base: BaseOptions { broadcast: on, ..s.base },
            ..*s
        },
        SockFlag::KeepAlive => SocketSettings {
            base: BaseOptions { keepalive: on, ..s.base },
            ..*s
        },
        SockFlag::OobInline => SocketSettings {
            base: BaseOptions { oobinline: on, ..s.base },
            ..*s
        },
        SockFlag::PassCred => SocketSettings { base: BaseOptions { passcred: on, ..s.base }, ..*s },
        SockFlag::NoCheck => SocketSettings { base: BaseOptions { no_check: on, ..s.base }, ..*s },
        SockFlag::RcvMark => SocketSettings { base: BaseOptions { rcvmark: on, ..s.base }, ..*s },
        SockFlag::RcvPriority => SocketSettings {
            base: BaseOptions { rcvpriority: on, ..s.base },
            ..*s
        },
        SockFlag::Auxdata => SocketSettings {
            packet: PacketOptions { auxdata: on, ..s.packet },
            ..*s
        },
        SockFlag::Origdev => SocketSettings {
            packet: PacketOptions { origdev: on, ..s.packet },
            ..*s
        },
        SockFlag::VnetHdr => SocketSettings {
            packet: PacketOptions { vnet_hdr: on, ..s.packet },
            ..*s
        },
        SockFlag::QdiscBypass => SocketSettings {
            packet: PacketOptions { qdisc_bypass: on, ..s.packet },
            ..*s
        },
        SockFlag::IgnoreOutgoing => SocketSettings {
            packet: PacketOptions { ignore_outgoing: on, ..s.packet },
            ..*s
        },
        SockFlag::HdrIncl => SocketSettings { ip: IpSettings { hdrincl: on, ..s.ip }, ..*s },
        SockFlag::Recverr => SocketSettings { ip: IpSettings { recverr: on, ..s.ip }, ..*s },
        SockFlag::Pktinfo => SocketSettings { ip: IpSettings { pktinfo: on, ..s.ip }, ..*s },
        SockFlag::Recvttl => SocketSettings { ip: IpSettings { recvttl: on, ..s.ip }, ..*s },
        SockFlag::Recvtos => SocketSettings { ip: IpSettings { recvtos: on, ..s.ip }, ..*s },
        SockFlag::MulticastLoop => SocketSettings {
            ip: IpSettings { multicast_loop: on, ..s.ip },
            ..*s
        },
    };
}

/// Records the value of an action.
pub fn apply_action(s: &mut SocketSettings, a: SetAction)
    ensures
        *final(s) == applied(*old(s), a),
{
    *s = match a {
        SetAction::RcvTimeout(t) => SocketSettings {
            base: BaseOptions { rcvtimeo: t, ..s.base },
            ..*s
        },
        SetAction::SndTimeout(t) => SocketSettings {
            base: BaseOptions { sndtimeo: t, ..s.base },
            ..*s
        },
        SetAction::Linger(on, sec) => SocketSettings {
            base: BaseOptions { linger_on: on, linger_sec: sec, ..s.base },
            ..*s
        },
        SetAction::SndBuf(n) => SocketSettings { base: BaseOptions { sndbuf: n, ..s.base }, ..*s },
        SetAction::RcvBuf(n) => SocketSettings { base: BaseOptions { rcvbuf: n, ..s.base }, ..*s },
        SetAction::Flag(flag, on) => {
            set_flag(s, flag, on);
            *s
        },
        SetAction::RcvLowat(n) => SocketSettings {
            base: BaseOptions { rcvlowat: n, ..s.base },
            ..*s
        },
        SetAction::BusyPoll(n) => SocketSettings {
            base: BaseOptions { busy_poll: n, ..s.base },
            ..*s
        },
        SetAction::Timestamp(m) => SocketSettings {
            base: BaseOptions { timestamp: m, ..s.base },
            ..*s
        },
        SetAction::Priority(n) => SocketSettings {
            base: BaseOptions { priority: n, ..s.base },
            ..*s
        },
        SetAction::Mark(n) => SocketSettings { base: BaseOptions { mark: n, ..s.base }, ..*s },
        SetAction::VsockSize(n) => SocketSettings {
            vsock: VsockOptions { vsock_size: n, ..s.vsock },
            ..*s
        },
        SetAction::VsockMinSize(n) => SocketSettings {
            vsock: VsockOptions { vsock_min: n, ..s.vsock },
            ..*s
        },
        SetAction::VsockMaxSize(n) => SocketSettings {
            vsock: VsockOptions { vsock_max: n, ..s.vsock },
            ..*s
        },
        SetAction::VsockTimeout(t) => SocketSettings {
            vsock: VsockOptions { vsock_timeout: t, ..s.vsock },
            ..*s
        },
        SetAction::CopyThresh(n) => SocketSettings {
            packet: PacketOptions { copy_thresh: n, ..s.packet },
            ..*s
        },
        SetAction::MulticastTtl(n) => SocketSettings {
            ip: IpSettings { multicast_ttl: n, ..s.ip },
            ..*s
        },
        SetAction::MtuDiscover(n) => SocketSettings {
            ip: IpSettings { mtu_discover: n, ..s.ip },
            ..*s
        },
        _ => *s,
    };
}

// ---------------------------------------------------------------------------
// Values of several bytes.
// ---------------------------------------------------------------------------

pub open spec fn bit(b: bool) -> u32 {
    if b {
        1
    } else {
        0
    }
}

fn bit_of(b: bool) -> (r: u32)
    ensures
        r == bit(b),
{
    if b {
        1
    } else {
        0
    }
}

/// A timeout as seconds and microseconds: none is zero.
pub open spec fn timeval_bytes(t: Option<u64>) -> Seq<u8> {
    let ms: u64 = match t {
        Some(n) => n,
        None => 0,
    };
    le64_bytes((ms / 1000) as u64) + le64_bytes(((ms % 1000) * 1000) as u64)
}

pub open spec fn linger_bytes(on: bool, sec: i32) -> Seq<u8> {
    le32_bytes(bit(on)) + le32_bytes((sec as u32))
}

pub open spec fn cred_bytes(c: UCred) -> Seq<u8> {
    le32_bytes((c.pid as u32)) + le32_bytes(c.uid) + le32_bytes(c.gid)
}

/// The name of a device, cut to what fits and ended by a zero.
pub open spec fn ifname_out(name: Seq<u8>) -> Seq<u8> {
    if name.len() > 15 {
        name.take(15).push(0u8)
    } else {
        name.push(0u8)
    }
}

/// A timeout that was read back and is set again is the same timeout. No call
/// stores a timeout of zero milliseconds.
pub proof fn law_timeouts_read_back(t: Option<u64>, v: OptVal)
    requires
        t != Some(0u64),
        v.ptr != 0,
        v.len >= 16,
        v.mem@ == timeval_bytes(t),
    ensures
        timeval_value(v) == Ok::<Option<u64>, isize>(t),
{
    let ms: u64 = match t {
        Some(n) => n,
        None => 0,
    };
    let sec: u64 = (ms / 1000) as u64;
    let usec: u64 = ((ms % 1000) * 1000) as u64;
    let a = le64_bytes(sec);
    let b = le64_bytes(usec);
    lemma_le64_inverse(sec);
    lemma_le64_inverse(usec);
    assert(v.mem@.subrange(0, 8) =~= a);
    assert(v.mem@.subrange(8, 16) =~= b);
    assert(crate::bytes::le64(v.mem@, 0) == crate::bytes::le64(a, 0));
    assert(crate::bytes::le64(v.mem@, 8) == crate::bytes::le64(b, 0));
    assert((sec as i64) as int == sec as int);
    assert((usec as i64) as int == usec as int);
    assert(((usec + 999) / 1000) == ms % 1000) by (nonlinear_arith)
        requires
            usec == (ms % 1000) * 1000,
    ;
}

/// Builds a timeout.
pub fn write_socket_timeval_ms(t: Option<u64>) -> (r: Vec<u8>)
    ensures
        r@ == timeval_bytes(t),
{
    let ms: u64 = match t {
        Some(n) => n,
        None => 0,
    };
    let mut out: Vec<u8> = Vec::new();
    put_le64(&mut out, ms / 1000);
    put_le64(&mut out, (ms % 1000) * 1000);
    assert(out@ =~= timeval_bytes(t));
    out
}

/// Builds the linger value.
pub fn write_linger(on: bool, sec: i32) -> (r: Vec<u8>)
    ensures
        r@ == linger_bytes(on, sec),
{
    let mut out: Vec<u8> = Vec::new();
    put_le32(&mut out, bit_of(on));
    put_le32(&mut out, sec as u32);
    assert(out@ =~= linger_bytes(on, sec));
    out
}

fn write_cred(c: UCred) -> (r: Vec<u8>)
    ensures
        r@ == cred_bytes(c),
{
    let mut out: Vec<u8> = Vec::new();
    put_le32(&mut out, c.pid as u32);
    put_le32(&mut out, c.uid);
    put_le32(&mut out, c.gid);
    assert(out@ =~= cred_bytes(c));
    out
}

fn u32_bytes(v: u32) -> (r: Vec<u8>)
    ensures
        r@ == le32_bytes(v),
{
    let mut out: Vec<u8> = Vec::new();
    put_le32(&mut out, v);
    assert(out@ =~= le32_bytes(v));
    out
}

fn u64_bytes(v: u64) -> (r: Vec<u8>)
    ensures
        r@ == le64_bytes(v),
{
    let mut out: Vec<u8> = Vec::new();
    put_le64(&mut out, v);
    assert(out@ =~= le64_bytes(v));
    out
}

// ---------------------------------------------------------------------------
// Replies.
// ---------------------------------------------------------------------------

/// What a call hands back: the bytes that go to the value, and the length that
/// is written back.
pub struct GetReply {
    pub bytes: Vec<u8>,
    pub len: u32,
}

/// A reply as plain values.
pub struct Reply {
    pub bytes: Seq<u8>,
    pub len: int,
}

/// A value is cut to the room that the caller has, and its whole length is
/// written back.
pub open spec fn cut(value: Seq<u8>, room: int) -> Result<Reply, isize> {
    Ok(
        Reply {
            bytes: if value.len() > room {
                value.take(room)
            } else {
                value
            },
            len: value.len() as int,
        },
    )
}

/// A call returned what it should.
pub open spec fn replies(r: Result<GetReply, isize>, want: Result<Reply, isize>) -> bool {
    match (r, want) {
        (Ok(g), Ok(w)) => g.bytes@ == w.bytes && g.len == w.len,
        (Err(e), Err(x)) => e == x,
        _ => false,
    }
}

/// Cuts a value to the room that the caller has.
pub fn write_sockopt_bytes(room: usize, value: Vec<u8>) -> (r: Result<GetReply, isize>)
    requires
        value@.len() <= u32::MAX,
    ensures
        replies(r, cut(value@, room as int)),
{
    let len: u32 = value.len() as u32;
    if value.len() > room {
        let part = copy_range(value.as_slice(), 0, room);
        assert(part@ =~= value@.take(room as int));
        Ok(GetReply { bytes: part, len })
    } else {
        Ok(GetReply { bytes: value, len })
    }
}

/// The filter of a socket. Its length is a number of instructions.
pub open spec fn filter_reply(v: OptVal, g: GetFacts) -> Result<Reply, isize> {
    match g.filter {
        None => if g.has_ebpf {
            Err(EACCES)
        } else {
            Ok(Reply { bytes: Seq::empty(), len: 0 })
        },
        Some(f) => if v.len == 0 {
            Ok(Reply { bytes: Seq::empty(), len: f.count as int })
        } else if v.len < f.count {
            Err(EINVAL)
        } else if v.ptr == 0 {
            Err(EFAULT)
        } else {
            Ok(Reply { bytes: f.bytes@, len: f.count as int })
        },
    }
}

fn getsockopt_classic_filter(v: &OptVal, g: &GetFacts) -> (r: Result<GetReply, isize>)
    ensures
        replies(r, filter_reply(*v, *g)),
{
    let none: Vec<u8> = Vec::new();
    assert(none@ =~= Seq::<u8>::empty());
    match &g.filter {
        None => {
            if g.has_ebpf {
                Err(EACCES)
            } else {
                Ok(GetReply { bytes: none, len: 0 })
            }
        },
        Some(f) => {
            if v.len == 0 {
                return Ok(GetReply { bytes: none, len: f.count });
            }
            if v.len < f.count as usize {
                return Err(EINVAL);
            }
            if v.ptr == 0 {
                return Err(EFAULT);
            }
            let bytes = copy_range(f.bytes.as_slice(), 0, f.bytes.len());
            assert(bytes@ =~= f.bytes@);
            Ok(GetReply { bytes, len: f.count })
        },
    }
}

/// The device of a socket.
pub open spec fn ifname_reply(v: OptVal, name: Option<Vec<u8>>) -> Result<Reply, isize> {
    match name {
        None => cut(Seq::empty(), v.len as int),
        Some(n) => if v.len < 16 {
            Err(EINVAL)
        } else {
            cut(ifname_out(n@), v.len as int)
        },
    }
}

fn write_sockopt_ifname(v: &OptVal, name: &Option<Vec<u8>>) -> (r: Result<GetReply, isize>)
    ensures
        replies(r, ifname_reply(*v, *name)),
{
    match name {
        None => {
            let none: Vec<u8> = Vec::new();
            assert(none@ =~= Seq::<u8>::empty());
            write_sockopt_bytes(v.len, none)
        },
        Some(n) => {
            if v.len < 16 {
                return Err(EINVAL);
            }
            let end: usize = if n.len() > 15 {
                15
            } else {
                n.len()
            };
            let mut out = copy_range(n.as_slice(), 0, end);
            out.push(0);
            assert(out@ =~= ifname_out(n@));
            write_sockopt_bytes(v.len, out)
        },
    }
}

// ---------------------------------------------------------------------------
// Source filters.
// ---------------------------------------------------------------------------

/// As many sources as there is room for.
pub open spec fn listed(sources: Seq<u32>, room: u32) -> Seq<u32> {
    if sources.len() > room {
        sources.take(room as int)
    } else {
        sources
    }
}

/// Addresses one after the other.
pub open spec fn plain_sources(sources: Seq<u32>) -> Seq<u8>
    decreases sources.len(),
{
    if sources.len() == 0 {
        Seq::empty()
    } else {
        plain_sources(sources.drop_last()) + be32_bytes(sources.last())
    }
}

pub open spec fn zeros(n: int) -> Seq<u8> {
    Seq::new(n as nat, |i: int| 0u8)
}

/// An address as a socket address in a field of 128 bytes.
pub open spec fn storage_bytes(addr: u32) -> Seq<u8> {
    le16_bytes(AF_INET) + zeros(2) + be32_bytes(addr) + zeros(120)
}

/// Socket addresses one after the other.
pub open spec fn storage_sources(sources: Seq<u32>) -> Seq<u8>
    decreases sources.len(),
{
    if sources.len() == 0 {
        Seq::empty()
    } else {
        storage_sources(sources.drop_last()) + storage_bytes(sources.last())
    }
}

pub open spec fn mode_bits(mode: SourceFilterMode) -> u32 {
    match mode {
        SourceFilterMode::Exclude => 0,
        SourceFilterMode::Include => 1,
    }
}

/// A source filter. It tells how many sources there are, and lists those that
/// the caller has room for.
pub open spec fn msfilter_bytes(h: FilterHead, mode: SourceFilterMode, sources: Seq<u32>) -> Seq<
    u8,
> {
    be32_bytes(h.req.group) + be32_bytes(h.req.ifaddr) + le32_bytes(
        mode_bits(mode),
    ) + le32_bytes((sources.len() as u32)) + plain_sources(listed(sources, h.numsrc))
}

/// A source filter with socket addresses.
pub open spec fn group_filter_bytes(
    h: FilterHead,
    mode: SourceFilterMode,
    sources: Seq<u32>,
) -> Seq<u8> {
    le32_bytes((h.req.ifindex as u32)) + zeros(4) + storage_bytes(h.req.group) + le32_bytes(
        mode_bits(mode),
    ) + le32_bytes((sources.len() as u32)) + storage_sources(listed(sources, h.numsrc))
}

proof fn lemma_sources_len(sources: Seq<u32>)
    ensures
        plain_sources(sources).len() == 4 * sources.len(),
        storage_sources(sources).len() == 128 * sources.len(),
    decreases sources.len(),
{
    if sources.len() > 0 {
        lemma_sources_len(sources.drop_last());
    }
}

fn write_storage(out: &mut Vec<u8>, addr: u32)
    requires
        old(out)@.len() + 128 <= usize::MAX,
    ensures
        final(out)@ == old(out)@ + storage_bytes(addr),
{
    put_le16(out, AF_INET);
    append_zeros(out, 2);
    put_be32(out, addr);
    append_zeros(out, 120);
    assert(out@ =~= old(out)@ + storage_bytes(addr));
}

fn source_count(sources: &Vec<u32>, room: u32) -> (n: usize)
    ensures
        listed(sources@, room) == sources@.take(n as int),
        n <= sources@.len(),
{
    if sources.len() as u64 > room as u64 {
        room as usize
    } else {
        assert(sources@.take(sources@.len() as int) =~= sources@);
        sources.len()
    }
}

/// Builds a source filter.
pub fn write_ip_msfilter(h: &FilterHead, mode: SourceFilterMode, sources: &Vec<u32>) -> (r: Vec<u8>)
    requires
        16 + 4 * sources@.len() <= usize::MAX,
    ensures
        r@ == msfilter_bytes(*h, mode, sources@),
{
    let n: usize = source_count(sources, h.numsrc);
    let mut out: Vec<u8> = Vec::new();
    put_be32(&mut out, h.req.group);
    put_be32(&mut out, h.req.ifaddr);
    put_le32(&mut out, ipv4_source_filter_mode_bits(mode));
    put_le32(&mut out, sources.len() as u32);
    let ghost head = out@;
    assert(head =~= be32_bytes(h.req.group) + be32_bytes(h.req.ifaddr) + le32_bytes(
        mode_bits(mode),
    ) + le32_bytes((sources@.len() as u32)));
    let mut i: usize = 0;
    assert(out@ =~= head + plain_sources(sources@.take(0)));
    while i < n
        invariant
            i <= n <= sources@.len(),
            head.len() == 16,
            16 + 4 * sources@.len() <= usize::MAX,
            out@ == head + plain_sources(sources@.take(i as int)),
        decreases n - i,
    {
        proof {
            lemma_sources_len(sources@.take(i as int));
            let t = sources@.take(i + 1);
            assert(t.drop_last() =~= sources@.take(i as int));
            assert(t.last() == sources@[i as int]);
        }
        put_be32(&mut out, sources[i]);
        i += 1;
        assert(out@ =~= head + plain_sources(sources@.take(i as int)));
    }
    out
}

/// Builds a source filter with socket addresses.
pub fn write_group_filter(h: &FilterHead, mode: SourceFilterMode, sources: &Vec<u32>) -> (r: Vec<
    u8,
>)
    requires
        144 + 128 * sources@.len() <= usize::MAX,
    ensures
        r@ == group_filter_bytes(*h, mode, sources@),
{
    let n: usize = source_count(sources, h.numsrc);
    let mut out: Vec<u8> = Vec::new();
    put_le32(&mut out, h.req.ifindex as u32);
    append_zeros(&mut out, 4);
    write_storage(&mut out, h.req.group);
    put_le32(&mut out, ipv4_source_filter_mode_bits(mode));
    put_le32(&mut out, sources.len() as u32);
    let ghost head = out@;
    assert(head =~= le32_bytes((h.req.ifindex as u32)) + zeros(4) + storage_bytes(
        h.req.group,
    ) + le32_bytes(mode_bits(mode)) + le32_bytes((sources@.len() as u32)));
    let mut i: usize = 0;
    assert(out@ =~= head + storage_sources(sources@.take(0)));
    while i < n
        invariant
            i <= n <= sources@.len(),
            head.len() == 144,
            144 + 128 * sources@.len() <= usize::MAX,
            out@ == head + storage_sources(sources@.take(i as int)),
        decreases n - i,
    {
        proof {
            lemma_sources_len(sources@.take(i as int));
            let t = sources@.take(i + 1);
            assert(t.drop_last() =~= sources@.take(i as int));
            assert(t.last() == sources@[i as int]);
        }
        write_storage(&mut out, sources[i]);
        i += 1;
        assert(out@ =~= head + storage_sources(sources@.take(i as int)));
    }
    out
}

/// What a query for a source filter is answered.
pub open spec fn source_filter_reply(v: OptVal, g: GetFacts, optname: usize) -> Result<
    Reply,
    isize,
> {
    let head = if optname == IP_MSFILTER {
        msfilter_head(v)
    } else {
        group_filter_head(v)
    };
    match head {
        Err(e) => Err(e),
        Ok(h) => match g.sources {
            Err(e) => Err(e),
            Ok(s) => if optname == IP_MSFILTER {
                cut(msfilter_bytes(h, s.0, s.1@), v.len as int)
            } else {
                cut(group_filter_bytes(h, s.0, s.1@), v.len as int)
            },
        },
    }
}

/// A list of sources whose filter has a length that fits its field.
pub open spec fn sources_fit(g: GetFacts) -> bool {
    match g.sources {
        Ok(s) => 144 + 128 * s.1@.len() <= u32::MAX,
        Err(_) => true,
    }
}

fn get_source_filter(v: &OptVal, g: &GetFacts, optname: usize) -> (r: Result<GetReply, isize>)
    requires
        sources_fit(*g),
    ensures
        replies(r, source_filter_reply(*v, *g, optname)),
{
    let plain: bool = optname == IP_MSFILTER;
    let head = if plain {
        read_ip_msfilter_query(v)
    } else {
        read_group_filter_query(v)
    };
    let h = match head {
        Ok(h) => h,
        Err(e) => {
            return Err(e);
        },
    };
    match &g.sources {
        Err(e) => Err(*e),
        Ok(s) => {
            proof {
                lemma_sources_len(listed(s.1@, h.numsrc));
            }
            if plain {
                write_sockopt_bytes(v.len, write_ip_msfilter(&h, s.0, &s.1))
            } else {
                write_sockopt_bytes(v.len, write_group_filter(&h, s.0, &s.1))
            }
        },
    }
}

// ---------------------------------------------------------------------------
// Numbers.
// ---------------------------------------------------------------------------

pub open spec fn socket_type_of(s: SocketSettings) -> u32 {
    if s.kind != SocketKind::Net {
        s.ident.sock_type
    } else if s.ident.net_kind == NetKind::Udp {
        SOCK_DGRAM
    } else {
        SOCK_STREAM
    }
}

pub open spec fn domain_of(s: SocketSettings) -> u32 {
    match s.kind {
        SocketKind::Netlink => AF_NETLINK as u32,
        SocketKind::Vsock => AF_VSOCK as u32,
        SocketKind::Packet => AF_PACKET as u32,
        SocketKind::Raw => AF_INET as u32,
        SocketKind::Net => s.ident.domain,
        _ => AF_UNIX as u32,
    }
}

pub open spec fn accepting(s: SocketSettings) -> bool {
    (s.kind == SocketKind::Unix && s.ident.listening) || (s.kind == SocketKind::Net && s.ident.net_kind
        == NetKind::TcpListener)
}

/// What a socket-level option shows, for the kinds that know it.
pub open spec fn socket_number(s: SocketSettings, optname: usize) -> Option<u32> {
    if optname == SO_ERROR {
        Some(s.error)
    } else if optname == SO_TYPE {
        Some(socket_type_of(s))
    } else if optname == SO_ACCEPTCONN {
        Some(bit(accepting(s)))
    } else if optname == SO_PROTOCOL {
        Some(
            if carries_packets(s.kind) {
                s.ident.protocol
            } else {
                0
            },
        )
    } else if optname == SO_DOMAIN {
        Some(domain_of(s))
    } else if optname == SO_REUSEADDR {
        Some(bit(s.base.reuseaddr))
    } else if optname == SO_DONTROUTE {
        Some(bit(s.base.dontroute))
    } else if optname == SO_BROADCAST {
        Some(bit(s.base.broadcast))
    } else if optname == SO_KEEPALIVE {
        Some(bit(s.base.keepalive))
    } else if optname == SO_OOBINLINE {
        Some(bit(s.base.oobinline))
    } else if optname == SO_RCVLOWAT {
        Some(s.base.rcvlowat as u32)
    } else if optname == SO_SNDLOWAT {
        Some(1)
    } else if optname == SO_REUSEPORT || optname == SO_BSDCOMPAT {
        Some(0)
    } else if optname == SO_BPF_EXTENSIONS && !is_local(s.kind) {
        Some(0)
    } else if optname == SO_SNDBUF && !is_local(s.kind) {
        Some(s.base.sndbuf)
    } else if optname == SO_RCVBUF && !is_local(s.kind) {
        Some(s.base.rcvbuf)
    } else if optname == SO_LOCK_FILTER && s.kind != SocketKind::Netlink {
        Some(bit(s.base.filter_locked))
    } else if optname == SO_PASSCRED && is_local(s.kind) {
        Some(bit(s.base.passcred))
    } else if optname == SO_PRIORITY && carries_packets(s.kind) {
        Some(s.base.priority)
    } else if optname == SO_MARK && carries_packets(s.kind) {
        Some(s.base.mark)
    } else if optname == SO_RCVMARK && carries_packets(s.kind) {
        Some(bit(s.base.rcvmark))
    } else if optname == SO_RCVPRIORITY && carries_packets(s.kind) {
        Some(bit(s.base.rcvpriority))
    } else if is_timestamp(optname) && carries_packets(s.kind) {
        Some(bit(s.base.timestamp == named_mode(optname)))
    } else if optname == SO_NO_CHECK && s.kind == SocketKind::Net {
        Some(bit(s.base.no_check))
    } else if optname == SO_BUSY_POLL && s.kind == SocketKind::Net {
        Some(s.base.busy_poll)
    } else {
        None
    }
}

/// What a socket between virtual machines shows at the socket level.
pub open spec fn vsock_number(s: SocketSettings, optname: usize) -> Option<u32> {
    if optname == SO_ERROR || optname == SO_ACCEPTCONN {
        Some(0)
    } else if optname == SO_TYPE {
        Some(s.ident.sock_type)
    } else if optname == SO_PROTOCOL {
        Some(s.ident.protocol)
    } else if optname == SO_DOMAIN {
        Some(AF_VSOCK as u32)
    } else if optname == SO_SNDBUF || optname == SO_RCVBUF {
        Some(
            if s.vsock.vsock_size > u32::MAX {
                u32::MAX
            } else {
                s.vsock.vsock_size as u32
            },
        )
    } else if optname == SO_SNDLOWAT || optname == SO_RCVLOWAT {
        Some(1)
    } else {
        None
    }
}

fn get_socket_number(s: &SocketSettings, optname: usize) -> (r: Option<u32>)
    requires
        s.kind != SocketKind::Vsock && s.kind != SocketKind::NotSocket,
    ensures
        r == socket_number(*s, optname),
{
    let packets: bool = s.kind == SocketKind::Packet || s.kind == SocketKind::Raw || s.kind
        == SocketKind::Net;
    let local: bool = s.kind == SocketKind::Unix || s.kind == SocketKind::Pair;
    let net: bool = s.kind == SocketKind::Net;
    match optname {
        SO_ERROR => Some(s.error),
        SO_TYPE => if !net {
            Some(s.ident.sock_type)
        } else {
            match s.ident.net_kind {
                NetKind::Udp => Some(SOCK_DGRAM),
                _ => Some(SOCK_STREAM),
            }
        },
        SO_ACCEPTCONN => Some(
            bit_of(
                (s.kind == SocketKind::Unix && s.ident.listening) || (net && s.ident.net_kind
                    == NetKind::TcpListener),
            ),
        ),
        SO_PROTOCOL => Some(
            if packets {
                s.ident.protocol
            } else {
                0
            },
        ),
        SO_DOMAIN => Some(
            match s.kind {
                SocketKind::Netlink => AF_NETLINK as u32,
                SocketKind::Vsock => AF_VSOCK as u32,
                SocketKind::Packet => AF_PACKET as u32,
                SocketKind::Raw => AF_INET as u32,
                SocketKind::Net => s.ident.domain,
                _ => AF_UNIX as u32,
            },
        ),
        SO_REUSEADDR => Some(bit_of(s.base.reuseaddr)),
        SO_DONTROUTE => Some(bit_of(s.base.dontroute)),
        SO_BROADCAST => Some(bit_of(s.base.broadcast)),
        SO_KEEPALIVE => Some(bit_of(s.base.keepalive)),
        SO_OOBINLINE => Some(bit_of(s.base.oobinline)),
        SO_RCVLOWAT => Some(s.base.rcvlowat as u32),
        SO_SNDLOWAT => Some(1),
        SO_REUSEPORT | SO_BSDCOMPAT => Some(0),
        _ => {
            if optname == SO_BPF_EXTENSIONS && !local {
                Some(0)
            } else if optname == SO_SNDBUF && !local {
                Some(s.base.sndbuf)
            } else if optname == SO_RCVBUF && !local {
                Some(s.base.rcvbuf)
            } else if optname == SO_LOCK_FILTER && s.kind != SocketKind::Netlink {
                Some(bit_of(s.base.filter_locked))
            } else if optname == SO_PASSCRED && local {
                Some(bit_of(s.base.passcred))
            } else if optname == SO_PRIORITY && packets {
                Some(s.base.priority)
            } else if optname == SO_MARK && packets {
                Some(s.base.mark)
            } else if optname == SO_RCVMARK && packets {
                Some(bit_of(s.base.rcvmark))
            } else if optname == SO_RCVPRIORITY && packets {
                Some(bit_of(s.base.rcvpriority))
            } else if optname == SO_NO_CHECK && net {
                Some(bit_of(s.base.no_check))
            } else if optname == SO_BUSY_POLL && net {
                Some(s.base.busy_poll)
            } else if packets {
                timestamp_mode_getsockopt(s.base.timestamp, optname)
            } else {
                None
            }
        },
    }
}

fn get_vsock_number(s: &SocketSettings, optname: usize) -> (r: Option<u32>)
    ensures
        r == vsock_number(*s, optname),
{
    match optname {
        SO_ERROR | SO_ACCEPTCONN => Some(0),
        SO_TYPE => Some(s.ident.sock_type),
        SO_PROTOCOL => Some(s.ident.protocol),
        SO_DOMAIN => Some(AF_VSOCK as u32),
        SO_SNDBUF | SO_RCVBUF => if s.vsock.vsock_size > u32::MAX as u64 {
            Some(u32::MAX)
        } else {
            Some(s.vsock.vsock_size as u32)
        },
        SO_SNDLOWAT | SO_RCVLOWAT => Some(1),
        _ => None,
    }
}

/// What an IP option shows.
pub open spec fn ip_shown(s: SocketSettings, optname: usize) -> Result<u32, isize> {
    if optname == IP_MTU_DISCOVER {
        Ok(s.ip.mtu_discover as u32)
    } else if optname == IP_PKTINFO {
        Ok(bit(s.ip.pktinfo))
    } else if optname == IP_RECVERR {
        Ok(bit(s.ip.recverr))
    } else if optname == IP_RECVTTL {
        Ok(bit(s.ip.recvttl))
    } else if optname == IP_RECVTOS {
        Ok(bit(s.ip.recvtos))
    } else if optname == IP_TOS {
        Ok(s.ip.tos)
    } else if optname == IP_TTL {
        Ok(s.ip.ttl as u32)
    } else if optname == IP_MULTICAST_TTL {
        Ok(s.ip.multicast_ttl as u32)
    } else if optname == IP_MULTICAST_LOOP {
        Ok(bit(s.ip.multicast_loop))
    } else if optname == IP_MTU {
        match s.ip.path_mtu {
            Some(m) => Ok(m),
            None => Err(ENOTCONN),
        }
    } else if optname == IP_HDRINCL && s.kind == SocketKind::Raw {
        Ok(bit(s.ip.hdrincl))
    } else {
        Err(ENOPROTOOPT)
    }
}

fn get_ip_number(s: &SocketSettings, optname: usize) -> (r: Result<u32, isize>)
    ensures
        r == ip_shown(*s, optname),
{
    match optname {
        IP_MTU_DISCOVER => Ok(s.ip.mtu_discover as u32),
        IP_PKTINFO => Ok(bit_of(s.ip.pktinfo)),
        IP_RECVERR => Ok(bit_of(s.ip.recverr)),
        IP_RECVTTL => Ok(bit_of(s.ip.recvttl)),
        IP_RECVTOS => Ok(bit_of(s.ip.recvtos)),
        IP_TOS => Ok(s.ip.tos),
        IP_TTL => Ok(s.ip.ttl as u32),
        IP_MULTICAST_TTL => Ok(s.ip.multicast_ttl as u32),
        IP_MULTICAST_LOOP => Ok(bit_of(s.ip.multicast_loop)),
        IP_MTU => match s.ip.path_mtu {
            Some(m) => Ok(m),
            None => Err(ENOTCONN),
        },
        _ => if optname == IP_HDRINCL && s.kind == SocketKind::Raw {
            Ok(bit_of(s.ip.hdrincl))
        } else {
            Err(ENOPROTOOPT)
        },
    }
}

pub open spec fn flag_shown(r: Result<bool, isize>) -> Result<u32, isize> {
    match r {
        Ok(b) => Ok(bit(b)),
        Err(e) => Err(e),
    }
}

/// What a TCP option shows.
pub open spec fn tcp_shown(s: SocketSettings, optname: usize) -> Result<u32, isize> {
    if optname == TCP_NODELAY {
        flag_shown(s.tcp.tcp_nodelay)
    } else if optname == TCP_CORK {
        flag_shown(s.tcp.tcp_cork)
    } else if optname == TCP_KEEPIDLE {
        s.tcp.tcp_keepidle
    } else if optname == TCP_KEEPINTVL {
        s.tcp.tcp_keepintvl
    } else if optname == TCP_KEEPCNT {
        s.tcp.tcp_keepcnt
    } else {
        Err(ENOPROTOOPT)
    }
}

fn shown_flag(r: Result<bool, isize>) -> (o: Result<u32, isize>)
    ensures
        o == flag_shown(r),
{
    match r {
        Ok(b) => Ok(bit_of(b)),
        Err(e) => Err(e),
    }
}

fn get_tcp_number(s: &SocketSettings, optname: usize) -> (r: Result<u32, isize>)
    ensures
        r == tcp_shown(*s, optname),
{
    match optname {
        TCP_NODELAY => shown_flag(s.tcp.tcp_nodelay),
        TCP_CORK => shown_flag(s.tcp.tcp_cork),
        TCP_KEEPIDLE => s.tcp.tcp_keepidle,
        TCP_KEEPINTVL => s.tcp.tcp_keepintvl,
        TCP_KEEPCNT => s.tcp.tcp_keepcnt,
        _ => Err(ENOPROTOOPT),
    }
}

/// What a packet option shows.
pub open spec fn packet_shown(s: SocketSettings, optname: usize) -> Result<u32, isize> {
    if optname == PACKET_RESERVE {
        Ok(s.packet.packet_reserve)
    } else if optname == PACKET_VERSION {
        Ok(s.packet.packet_version as u32)
    } else if optname == PACKET_COPY_THRESH {
        Ok(s.packet.copy_thresh as u32)
    } else if optname == PACKET_AUXDATA {
        Ok(bit(s.packet.auxdata))
    } else if optname == PACKET_ORIGDEV {
        Ok(bit(s.packet.origdev))
    } else if optname == PACKET_VNET_HDR {
        Ok(bit(s.packet.vnet_hdr))
    } else if optname == PACKET_VNET_HDR_SZ {
        Ok(
            if s.packet.vnet_hdr {
                10u32
            } else {
                0u32
            },
        )
    } else if optname == PACKET_QDISC_BYPASS {
        Ok(bit(s.packet.qdisc_bypass))
    } else if optname == PACKET_IGNORE_OUTGOING {
        Ok(bit(s.packet.ignore_outgoing))
    } else if optname == PACKET_FANOUT {
        Ok(s.packet.fanout)
    } else {
        Err(ENOPROTOOPT)
    }
}

fn get_packet_number(s: &SocketSettings, optname: usize) -> (r: Result<u32, isize>)
    ensures
        r == packet_shown(*s, optname),
{
    match optname {
        PACKET_RESERVE => Ok(s.packet.packet_reserve),
        PACKET_VERSION => Ok(s.packet.packet_version as u32),
        PACKET_COPY_THRESH => Ok(s.packet.copy_thresh as u32),
        PACKET_AUXDATA => Ok(bit_of(s.packet.auxdata)),
        PACKET_ORIGDEV => Ok(bit_of(s.packet.origdev)),
        PACKET_VNET_HDR => Ok(bit_of(s.packet.vnet_hdr)),
        PACKET_VNET_HDR_SZ => if s.packet.vnet_hdr {
            Ok(10)
        } else {
            Ok(0)
        },
        PACKET_QDISC_BYPASS => Ok(bit_of(s.packet.qdisc_bypass)),
        PACKET_IGNORE_OUTGOING => Ok(bit_of(s.packet.ignore_outgoing)),
        PACKET_FANOUT => Ok(s.packet.fanout),
        _ => Err(ENOPROTOOPT),
    }
}

// ---------------------------------------------------------------------------
// Levels.
// ---------------------------------------------------------------------------

/// A number, or why there is none.
pub open spec fn number_reply(r: Result<u32, isize>, v: OptVal) -> Result<Reply, isize> {
    match r {
        Ok(n) => cut(le32_bytes(n), v.len as int),
        Err(e) => Err(e),
    }
}

fn write_number(r: Result<u32, isize>, v: &OptVal) -> (o: Result<GetReply, isize>)
    ensures
        replies(o, number_reply(r, *v)),
{
    match r {
        Ok(n) => write_sockopt_bytes(v.len, u32_bytes(n)),
        Err(e) => Err(e),
    }
}

/// Why an option that a kind does not know is refused.
pub open spec fn unknown_option(kind: SocketKind) -> isize {
    if kind == SocketKind::Netlink || kind == SocketKind::Packet || kind == SocketKind::Raw {
        ENOPROTOOPT
    } else {
        EOPNOTSUPP
    }
}

/// Replies at the socket level.
pub open spec fn socket_reply(s: SocketSettings, g: GetFacts, optname: usize, v: OptVal) -> Result<
    Reply,
    isize,
> {
    if s.kind == SocketKind::Vsock {
        match vsock_number(s, optname) {
            Some(n) => number_reply(Ok(n), v),
            None => Err(EOPNOTSUPP),
        }
    } else if optname == SO_LINGER {
        cut(linger_bytes(s.base.linger_on, s.base.linger_sec), v.len as int)
    } else if is_rcvtimeo(optname) {
        cut(timeval_bytes(s.base.rcvtimeo), v.len as int)
    } else if is_sndtimeo(optname) {
        cut(timeval_bytes(s.base.sndtimeo), v.len as int)
    } else if optname == SO_ATTACH_FILTER && s.kind != SocketKind::Netlink {
        filter_reply(v, g)
    } else if optname == SO_BINDTODEVICE && carries_packets(s.kind) {
        ifname_reply(v, g.bound_name)
    } else if optname == SO_PEERCRED && is_local(s.kind) {
        match s.ident.peer_cred {
            Some(c) => cut(cred_bytes(c), v.len as int),
            None => Err(ENOTCONN),
        }
    } else {
        match socket_number(s, optname) {
            Some(n) => number_reply(Ok(n), v),
            None => Err(unknown_option(s.kind)),
        }
    }
}

fn get_socket_level(s: &SocketSettings, g: &GetFacts, optname: usize, v: &OptVal) -> (r: Result<
    GetReply,
    isize,
>)
    requires
        s.kind != SocketKind::NotSocket,
    ensures
        replies(r, socket_reply(*s, *g, optname, *v)),
{
    if s.kind == SocketKind::Vsock {
        return match get_vsock_number(s, optname) {
            Some(n) => write_number(Ok(n), v),
            None => Err(EOPNOTSUPP),
        };
    }
    if optname == SO_LINGER {
        return write_sockopt_bytes(v.len, write_linger(s.base.linger_on, s.base.linger_sec));
    }
    if optname == SO_RCVTIMEO_OLD || optname == SO_RCVTIMEO_NEW {
        return write_sockopt_bytes(v.len, write_socket_timeval_ms(s.base.rcvtimeo));
    }
    if optname == SO_SNDTIMEO_OLD || optname == SO_SNDTIMEO_NEW {
        return write_sockopt_bytes(v.len, write_socket_timeval_ms(s.base.sndtimeo));
    }
    let packets: bool = s.kind == SocketKind::Packet || s.kind == SocketKind::Raw || s.kind
        == SocketKind::Net;
    let local: bool = s.kind == SocketKind::Unix || s.kind == SocketKind::Pair;
    if optname == SO_ATTACH_FILTER && s.kind != SocketKind::Netlink {
        return getsockopt_classic_filter(v, g);
    }
    if optname == SO_BINDTODEVICE && packets {
        return write_sockopt_ifname(v, &g.bound_name);
    }
    if optname == SO_PEERCRED && local {
        return match s.ident.peer_cred {
            Some(c) => write_sockopt_bytes(v.len, write_cred(c)),
            None => Err(ENOTCONN),
        };
    }
    match get_socket_number(s, optname) {
        Some(n) => write_number(Ok(n), v),
        None => if s.kind == SocketKind::Netlink || s.kind == SocketKind::Packet || s.kind
            == SocketKind::Raw {
            Err(ENOPROTOOPT)
        } else {
            Err(EOPNOTSUPP)
        },
    }
}

/// The netlink setting with an option number.
pub open spec fn netlink_flag(flags: u64, optname: usize) -> bool {
    flags & (1u64 << (optname as u64)) != 0
}

/// Replies of netlink sockets.
pub open spec fn netlink_reply(
    s: SocketSettings,
    g: GetFacts,
    level: usize,
    optname: usize,
    v: OptVal,
) -> Result<Reply, isize> {
    if level == SOL_SOCKET {
        socket_reply(s, g, optname, v)
    } else if level == SOL_NETLINK && is_netlink_flag(optname) {
        number_reply(Ok(bit(netlink_flag(s.netlink_flags, optname))), v)
    } else {
        Err(ENOPROTOOPT)
    }
}

fn getsockopt_netlink(
    s: &SocketSettings,
    g: &GetFacts,
    level: usize,
    optname: usize,
    v: &OptVal,
) -> (r: Result<GetReply, isize>)
    requires
        s.kind == SocketKind::Netlink,
    ensures
        replies(r, netlink_reply(*s, *g, level, optname, *v)),
{
    if level == SOL_SOCKET {
        return get_socket_level(s, g, optname, v);
    }
    if level == SOL_NETLINK && netlink_flag_option(optname) {
        let on: bool = s.netlink_flags & (1u64 << (optname as u64)) != 0;
        return write_number(Ok(bit_of(on)), v);
    }
    Err(ENOPROTOOPT)
}

/// Replies of sockets between virtual machines.
pub open spec fn vsock_reply(
    s: SocketSettings,
    g: GetFacts,
    level: usize,
    optname: usize,
    v: OptVal,
) -> Result<Reply, isize> {
    if level == LEVEL_VSOCK || level == SOL_VSOCK {
        if optname == SO_VM_SOCKETS_BUFFER_SIZE {
            cut(le64_bytes(s.vsock.vsock_size), v.len as int)
        } else if optname == SO_VM_SOCKETS_BUFFER_MIN_SIZE {
            cut(le64_bytes(s.vsock.vsock_min), v.len as int)
        } else if optname == SO_VM_SOCKETS_BUFFER_MAX_SIZE {
            cut(le64_bytes(s.vsock.vsock_max), v.len as int)
        } else if optname == SO_VM_SOCKETS_CONNECT_TIMEOUT_OLD || optname
            == SO_VM_SOCKETS_CONNECT_TIMEOUT_NEW {
            cut(timeval_bytes(s.vsock.vsock_timeout), v.len as int)
        } else {
            Err(ENOPROTOOPT)
        }
    } else if level == SOL_SOCKET {
        socket_reply(s, g, optname, v)
    } else {
        Err(EOPNOTSUPP)
    }
}

fn getsockopt_vsock(
    s: &SocketSettings,
    g: &GetFacts,
    level: usize,
    optname: usize,
    v: &OptVal,
) -> (r: Result<GetReply, isize>)
    requires
        s.kind == SocketKind::Vsock,
    ensures
        replies(r, vsock_reply(*s, *g, level, optname, *v)),
{
    if level == LEVEL_VSOCK || level == SOL_VSOCK {
        return match optname {
            SO_VM_SOCKETS_BUFFER_SIZE => write_sockopt_bytes(v.len, u64_bytes(s.vsock.vsock_size)),
            SO_VM_SOCKETS_BUFFER_MIN_SIZE => write_sockopt_bytes(v.len, u64_bytes(s.vsock.vsock_min)),
            SO_VM_SOCKETS_BUFFER_MAX_SIZE => write_sockopt_bytes(v.len, u64_bytes(s.vsock.vsock_max)),
            SO_VM_SOCKETS_CONNECT_TIMEOUT_OLD | SO_VM_SOCKETS_CONNECT_TIMEOUT_NEW => {
                write_sockopt_bytes(v.len, write_socket_timeval_ms(s.vsock.vsock_timeout))
            },
            _ => Err(ENOPROTOOPT),
        };
    }
    if level == SOL_SOCKET {
        return get_socket_level(s, g, optname, v);
    }
    Err(EOPNOTSUPP)
}

/// The counters of a packet socket.
pub open spec fn stats_bytes(s: SocketSettings) -> Seq<u8> {
    let two = le32_bytes(s.packet.stat_packets) + le32_bytes(s.packet.stat_drops);
    if s.packet.stats_v3 {
        two + zeros(4)
    } else {
        two
    }
}

/// Replies of packet sockets.
pub open spec fn packet_reply(
    s: SocketSettings,
    g: GetFacts,
    level: usize,
    optname: usize,
    v: OptVal,
) -> Result<Reply, isize> {
    if level == SOL_SOCKET {
        socket_reply(s, g, optname, v)
    } else if level != SOL_PACKET {
        Err(ENOPROTOOPT)
    } else if optname == PACKET_STATISTICS {
        cut(stats_bytes(s), v.len as int)
    } else if optname == PACKET_HDRLEN {
        if v.len < 4 {
            Err(EINVAL)
        } else if unreadable(v, 4) {
            Err(EFAULT)
        } else {
            number_reply(g.hdr_len, v)
        }
    } else {
        number_reply(packet_shown(s, optname), v)
    }
}

fn getsockopt_packet(
    s: &SocketSettings,
    g: &GetFacts,
    level: usize,
    optname: usize,
    v: &OptVal,
) -> (r: Result<GetReply, isize>)
    requires
        s.kind == SocketKind::Packet,
    ensures
        replies(r, packet_reply(*s, *g, level, optname, *v)),
{
    if level == SOL_SOCKET {
        return get_socket_level(s, g, optname, v);
    }
    if level != SOL_PACKET {
        return Err(ENOPROTOOPT);
    }
    if optname == PACKET_STATISTICS {
        let mut stats: Vec<u8> = Vec::new();
        put_le32(&mut stats, s.packet.stat_packets);
        put_le32(&mut stats, s.packet.stat_drops);
        if s.packet.stats_v3 {
            append_zeros(&mut stats, 4);
        }
        assert(stats@ =~= stats_bytes(*s));
        return write_sockopt_bytes(v.len, stats);
    }
    if optname == PACKET_HDRLEN {
        if v.len < 4 {
            return Err(EINVAL);
        }
        if v.ptr == 0 || v.mem.len() < 4 {
            return Err(EFAULT);
        }
        return write_number(g.hdr_len, v);
    }
    write_number(get_packet_number(s, optname), v)
}

/// Replies at the IP level.
pub open spec fn ip_reply(s: SocketSettings, g: GetFacts, optname: usize, v: OptVal) -> Result<
    Reply,
    isize,
> {
    if optname == IP_OPTIONS && s.kind == SocketKind::Raw {
        cut(g.ip_options@, v.len as int)
    } else if optname == IP_MULTICAST_IF {
        cut(be32_bytes(s.ip.multicast_if), v.len as int)
    } else if optname == IP_MSFILTER || optname == MCAST_MSFILTER {
        source_filter_reply(v, g, optname)
    } else {
        number_reply(ip_shown(s, optname), v)
    }
}

fn get_ip_level(s: &SocketSettings, g: &GetFacts, optname: usize, v: &OptVal) -> (r: Result<
    GetReply,
    isize,
>)
    requires
        sources_fit(*g),
        g.ip_options@.len() <= 40,
    ensures
        replies(r, ip_reply(*s, *g, optname, *v)),
{
    if optname == IP_OPTIONS && s.kind == SocketKind::Raw {
        let options = copy_range(g.ip_options.as_slice(), 0, g.ip_options.len());
        assert(options@ =~= g.ip_options@);
        return write_sockopt_bytes(v.len, options);
    }
    if optname == IP_MULTICAST_IF {
        let mut addr: Vec<u8> = Vec::new();
        put_be32(&mut addr, s.ip.multicast_if);
        assert(addr@ =~= be32_bytes(s.ip.multicast_if));
        return write_sockopt_bytes(v.len, addr);
    }
    if optname == IP_MSFILTER || optname == MCAST_MSFILTER {
        return get_source_filter(v, g, optname);
    }
    write_number(get_ip_number(s, optname), v)
}

/// Replies of network sockets.
pub open spec fn net_reply(
    s: SocketSettings,
    g: GetFacts,
    level: usize,
    optname: usize,
    v: OptVal,
) -> Result<Reply, isize> {
    if level == SOL_SOCKET {
        socket_reply(s, g, optname, v)
    } else if level == SOL_UDPLITE {
        if optname == UDPLITE_SEND_CSCOV {
            number_reply(s.tcp.udplite_send, v)
        } else if optname == UDPLITE_RECV_CSCOV {
            number_reply(s.tcp.udplite_recv, v)
        } else {
            Err(ENOPROTOOPT)
        }
    } else if level == SOL_IP {
        ip_reply(s, g, optname, v)
    } else if level == SOL_TCP {
        number_reply(tcp_shown(s, optname), v)
    } else {
        Err(EOPNOTSUPP)
    }
}

fn getsockopt_net(
    s: &SocketSettings,
    g: &GetFacts,
    level: usize,
    optname: usize,
    v: &OptVal,
) -> (r: Result<GetReply, isize>)
    requires
        s.kind == SocketKind::Net,
        sources_fit(*g),
        g.ip_options@.len() <= 40,
    ensures
        replies(r, net_reply(*s, *g, level, optname, *v)),
{
    match level {
        SOL_SOCKET => get_socket_level(s, g, optname, v),
        SOL_UDPLITE => match optname {
            UDPLITE_SEND_CSCOV => write_number(s.tcp.udplite_send, v),
            UDPLITE_RECV_CSCOV => write_number(s.tcp.udplite_recv, v),
            _ => Err(ENOPROTOOPT),
        },
        SOL_IP => get_ip_level(s, g, optname, v),
        SOL_TCP => write_number(get_tcp_number(s, optname), v),
        _ => Err(EOPNOTSUPP),
    }
}

// ---------------------------------------------------------------------------
// The call.
// ---------------------------------------------------------------------------

/// Why a call is refused before the socket is looked at: a missing pointer or a
/// length come before a descriptor that stands for nothing. Only a query for a
/// filter may have no room.
pub open spec fn early_error(
    optlen_ptr: usize,
    optlen_read: bool,
    file: Result<(), isize>,
    level: usize,
    optname: usize,
    v: OptVal,
) -> Option<isize> {
    let is_filter = level == SOL_SOCKET && optname == SO_ATTACH_FILTER;
    if optlen_ptr == 0 || !optlen_read {
        Some(EFAULT)
    } else if v.ptr == 0 && !is_filter {
        Some(EFAULT)
    } else if v.len > i32::MAX {
        Some(EINVAL)
    } else if v.len == 0 && !is_filter {
        Some(EINVAL)
    } else {
        match file {
            Err(e) => Some(e),
            Ok(_) => None,
        }
    }
}

/// What a socket replies.
pub open spec fn get_reply(
    s: SocketSettings,
    g: GetFacts,
    level: usize,
    optname: usize,
    v: OptVal,
) -> Result<Reply, isize> {
    match s.kind {
        SocketKind::Netlink => netlink_reply(s, g, level, optname, v),
        SocketKind::Vsock => vsock_reply(s, g, level, optname, v),
        SocketKind::Packet => packet_reply(s, g, level, optname, v),
        SocketKind::Raw => if level == SOL_SOCKET {
            socket_reply(s, g, optname, v)
        } else if level == SOL_IP {
            ip_reply(s, g, optname, v)
        } else if level == SOL_TCP || level == SOL_UDP {
            Err(ENOPROTOOPT)
        } else {
            Err(EOPNOTSUPP)
        },
        SocketKind::Unix => if level == SOL_SOCKET {
            socket_reply(s, g, optname, v)
        } else if level == SOL_IP || level == SOL_TCP {
            Err(ENOPROTOOPT)
        } else {
            Err(EOPNOTSUPP)
        },
        SocketKind::Pair => if level == SOL_SOCKET {
            socket_reply(s, g, optname, v)
        } else {
            Err(EOPNOTSUPP)
        },
        SocketKind::Net => net_reply(s, g, level, optname, v),
        SocketKind::NotSocket => Err(ENOTSOCK),
    }
}

/// A reading takes the pending error, and the counters of a packet socket.
pub open spec fn taken(s: SocketSettings, level: usize, optname: usize) -> SocketSettings {
    if level == SOL_SOCKET && optname == SO_ERROR && s.kind != SocketKind::Vsock && s.kind
        != SocketKind::NotSocket {
        SocketSettings { error: 0, ..s }
    } else if level == SOL_PACKET && optname == PACKET_STATISTICS && s.kind == SocketKind::Packet {
        SocketSettings { packet: PacketOptions { stat_packets: 0, stat_drops: 0, ..s.packet }, ..s }
    } else {
        s
    }
}

/// Answers a request to read an option. `file` is the answer to a lookup of the
/// descriptor.
pub fn syscall_getsockopt(
    s: &mut SocketSettings,
    g: &GetFacts,
    optlen_ptr: usize,
    optlen_read: bool,
    file: Result<(), isize>,
    level: usize,
    optname: usize,
    v: &OptVal,
) -> (r: Result<GetReply, isize>)
    requires
        sources_fit(*g),
        g.ip_options@.len() <= 40,
    ensures
        match early_error(optlen_ptr, optlen_read, file, level, optname, *v) {
            Some(e) => replies(r, Err(e)) && *final(s) == *old(s),
            None => replies(r, get_reply(*old(s), *g, level, optname, *v)) && *final(s) == taken(
                *old(s),
                level,
                optname,
            ),
        },
{
    let is_filter: bool = level == SOL_SOCKET && optname == SO_ATTACH_FILTER;
    if optlen_ptr == 0 || !optlen_read {
        return Err(EFAULT);
    }
    if v.ptr == 0 && !is_filter {
        return Err(EFAULT);
    }
    if v.len > i32::MAX as usize {
        return Err(EINVAL);
    }
    if v.len == 0 && !is_filter {
        return Err(EINVAL);
    }
    if let Err(e) = file {
        return Err(e);
    }
    let reply = match s.kind {
        SocketKind::Netlink => getsockopt_netlink(s, g, level, optname, v),
        SocketKind::Vsock => getsockopt_vsock(s, g, level, optname, v),
        SocketKind::Packet => getsockopt_packet(s, g, level, optname, v),
        SocketKind::Raw => match level {
            SOL_SOCKET => get_socket_level(s, g, optname, v),
            SOL_IP => get_ip_level(s, g, optname, v),
            SOL_TCP | SOL_UDP => Err(ENOPROTOOPT),
            _ => Err(EOPNOTSUPP),
        },
        SocketKind::Unix => match level {
            SOL_SOCKET => get_socket_level(s, g, optname, v),
            SOL_IP | SOL_TCP => Err(ENOPROTOOPT),
            _ => Err(EOPNOTSUPP),
        },
        SocketKind::Pair => if level == SOL_SOCKET {
            get_socket_level(s, g, optname, v)
        } else {
            Err(EOPNOTSUPP)
        },
        SocketKind::Net => getsockopt_net(s, g, level, optname, v),
        SocketKind::NotSocket => Err(ENOTSOCK),
    };
    if level == SOL_SOCKET && optname == SO_ERROR && s.kind != SocketKind::Vsock && s.kind
        != SocketKind::NotSocket {
        s.error = 0;
    } else if level == SOL_PACKET && optname == PACKET_STATISTICS && s.kind == SocketKind::Packet {
        s.packet.stat_packets = 0;
        s.packet.stat_drops = 0;
    }
    reply
}

// ---------------------------------------------------------------------------
// Laws.
// ---------------------------------------------------------------------------

/// A pending error is reported once: the next reading shows none.
pub proof fn law_errors_are_taken_once(s: SocketSettings, g: GetFacts, v: OptVal)
    requires
        s.kind != SocketKind::Vsock && s.kind != SocketKind::NotSocket,
    ensures
        get_reply(taken(s, SOL_SOCKET, SO_ERROR), g, SOL_SOCKET, SO_ERROR, v) == cut(
            le32_bytes(0),
            v.len as int,
        ),
{
}

/// The option that shows a flag.
pub open spec fn flag_option(flag: SockFlag) -> (usize, usize) {
    match flag {
        SockFlag::ReuseAddr => (SOL_SOCKET, SO_REUSEADDR),
        SockFlag::DontRoute => (SOL_SOCKET, SO_DONTROUTE),
        SockFlag::Broadcast => (SOL_SOCKET, SO_BROADCAST),
        SockFlag::KeepAlive => (SOL_SOCKET, SO_KEEPALIVE),
        SockFlag::OobInline => (SOL_SOCKET, SO_OOBINLINE),
        SockFlag::PassCred => (SOL_SOCKET, SO_PASSCRED),
        SockFlag::NoCheck => (SOL_SOCKET, SO_NO_CHECK),
        SockFlag::RcvMark => (SOL_SOCKET, SO_RCVMARK),
        SockFlag::RcvPriority => (SOL_SOCKET, SO_RCVPRIORITY),
        SockFlag::Auxdata => (SOL_PACKET, PACKET_AUXDATA),
        SockFlag::Origdev => (SOL_PACKET, PACKET_ORIGDEV),
        SockFlag::VnetHdr => (SOL_PACKET, PACKET_VNET_HDR),
        SockFlag::QdiscBypass => (SOL_PACKET, PACKET_QDISC_BYPASS),
        SockFlag::IgnoreOutgoing => (SOL_PACKET, PACKET_IGNORE_OUTGOING),
        SockFlag::HdrIncl => (SOL_IP, IP_HDRINCL),
        SockFlag::Recverr => (SOL_IP, IP_RECVERR),
        SockFlag::Pktinfo => (SOL_IP, IP_PKTINFO),
        SockFlag::Recvttl => (SOL_IP, IP_RECVTTL),
        SockFlag::Recvtos => (SOL_IP, IP_RECVTOS),
        SockFlag::MulticastLoop => (SOL_IP, IP_MULTICAST_LOOP),
    }
}

/// The kinds that have a flag.
pub open spec fn has_flag(kind: SocketKind, flag: SockFlag) -> bool {
    match flag {
        SockFlag::PassCred => is_local(kind),
        SockFlag::NoCheck => kind == SocketKind::Net,
        SockFlag::RcvMark | SockFlag::RcvPriority => carries_packets(kind),
        SockFlag::Auxdata | SockFlag::Origdev | SockFlag::VnetHdr | SockFlag::QdiscBypass
        | SockFlag::IgnoreOutgoing => kind == SocketKind::Packet,
        SockFlag::HdrIncl => kind == SocketKind::Raw,
        SockFlag::Recverr | SockFlag::Pktinfo | SockFlag::Recvttl | SockFlag::Recvtos
        | SockFlag::MulticastLoop => kind == SocketKind::Raw || kind == SocketKind::Net,
        _ => kind == SocketKind::Netlink || carries_packets(kind) || is_local(kind),
    }
}

proof fn lemma_flags_are_for_their_kinds(f: SetFacts, level: usize, optname: usize, w: OptVal)
    requires
        set_action(f, level, optname, w) matches Ok(SetAction::Flag(_, _)),
    ensures
        has_flag(f.kind, set_action(f, level, optname, w)->Ok_0->Flag_0),
{
}

/// A flag as it stands.
pub open spec fn flag_value(s: SocketSettings, flag: SockFlag) -> bool {
    match flag {
        SockFlag::ReuseAddr => s.base.reuseaddr,
        SockFlag::DontRoute => s.base.dontroute,
        SockFlag::Broadcast => s.base.broadcast,
        SockFlag::KeepAlive => s.base.keepalive,
        SockFlag::OobInline => s.base.oobinline,
        SockFlag::PassCred => s.base.passcred,
        SockFlag::NoCheck => s.base.no_check,
        SockFlag::RcvMark => s.base.rcvmark,
        SockFlag::RcvPriority => s.base.rcvpriority,
        SockFlag::Auxdata => s.packet.auxdata,
        SockFlag::Origdev => s.packet.origdev,
        SockFlag::VnetHdr => s.packet.vnet_hdr,
        SockFlag::QdiscBypass => s.packet.qdisc_bypass,
        SockFlag::IgnoreOutgoing => s.packet.ignore_outgoing,
        SockFlag::HdrIncl => s.ip.hdrincl,
        SockFlag::Recverr => s.ip.recverr,
        SockFlag::Pktinfo => s.ip.pktinfo,
        SockFlag::Recvttl => s.ip.recvttl,
        SockFlag::Recvtos => s.ip.recvtos,
        SockFlag::MulticastLoop => s.ip.multicast_loop,
    }
}

/// A flag that is switched stands as it was switched, and the socket stays what it is.
#[verifier::rlimit(40)]
pub proof fn lemma_flag_is_kept(s: SocketSettings, flag: SockFlag, on: bool)
    ensures
        flag_value(applied(s, SetAction::Flag(flag, on)), flag) == on,
        applied(s, SetAction::Flag(flag, on)).kind == s.kind,
{
    assert(applied(s, SetAction::Flag(flag, on)) == with_flag(s, flag, on));
}

proof fn lemma_number_is_the_reply(
    t: SocketSettings,
    g: GetFacts,
    level: usize,
    optname: usize,
    v: OptVal,
    n: u32,
)
    requires
        t.kind != SocketKind::Vsock && t.kind != SocketKind::NotSocket,
        level == SOL_SOCKET ==> socket_number(t, optname) == Some(n) && optname != SO_LINGER
            && !is_rcvtimeo(optname) && !is_sndtimeo(optname) && optname != SO_ATTACH_FILTER
            && optname != SO_BINDTODEVICE && optname != SO_PEERCRED,
        level == SOL_PACKET ==> t.kind == SocketKind::Packet && packet_shown(t, optname) == Ok::<
            u32,
            isize,
        >(n) && optname != PACKET_STATISTICS && optname != PACKET_HDRLEN,
        level == SOL_IP ==> (t.kind == SocketKind::Raw || t.kind == SocketKind::Net) && ip_shown(
            t,
            optname,
        ) == Ok::<u32, isize>(n) && optname != IP_OPTIONS && optname != IP_MULTICAST_IF && optname
            != IP_MSFILTER && optname != MCAST_MSFILTER,
        level == SOL_SOCKET || level == SOL_PACKET || level == SOL_IP,
    ensures
        get_reply(t, g, level, optname, v) == cut(le32_bytes(n), v.len as int),
{
}

proof fn lemma_flag_shown(t: SocketSettings, flag: SockFlag, g: GetFacts, v: OptVal)
    requires
        has_flag(t.kind, flag),
    ensures
        get_reply(t, g, flag_option(flag).0, flag_option(flag).1, v) == cut(
            le32_bytes(bit(flag_value(t, flag))),
            v.len as int,
        ),
{
    let o = flag_option(flag);
    lemma_number_is_the_reply(t, g, o.0, o.1, v, bit(flag_value(t, flag)));
}

/// A flag that a request switched is shown as it was set, on every kind that
/// accepts the request.
pub proof fn law_flags_read_back(
    f: SetFacts,
    level: usize,
    optname: usize,
    w: OptVal,
    s: SocketSettings,
    g: GetFacts,
    v: OptVal,
)
    requires
        s.kind == f.kind,
        set_action(f, level, optname, w) matches Ok(SetAction::Flag(_, _)),
    ensures
        ({
            let a = set_action(f, level, optname, w)->Ok_0;
            let o = flag_option(a->Flag_0);
            get_reply(applied(s, a), g, o.0, o.1, v) == cut(
                le32_bytes(bit(a->Flag_1)),
                v.len as int,
            )
        }),
{
    let a = set_action(f, level, optname, w)->Ok_0;
    lemma_flags_are_for_their_kinds(f, level, optname, w);
    lemma_flag_is_kept(s, a->Flag_0, a->Flag_1);
    lemma_flag_shown(applied(s, a), a->Flag_0, g, v);
}

/// Numbers that a request stored at the socket level are shown as they were
/// stored.
pub proof fn law_numbers_read_back(
    f: SetFacts,
    level: usize,
    optname: usize,
    w: OptVal,
    s: SocketSettings,
    g: GetFacts,
    v: OptVal,
)
    requires
        s.kind == f.kind,
        set_action(f, level, optname, w) is Ok,
    ensures
        ({
            let a = set_action(f, level, optname, w)->Ok_0;
            let t = applied(s, a);
            match a {
                SetAction::SndBuf(n) => get_reply(t, g, SOL_SOCKET, SO_SNDBUF, v) == cut(
                    le32_bytes(n),
                    v.len as int,
                ),
                SetAction::RcvBuf(n) => get_reply(t, g, SOL_SOCKET, SO_RCVBUF, v) == cut(
                    le32_bytes(n),
                    v.len as int,
                ),
                SetAction::RcvLowat(n) => get_reply(t, g, SOL_SOCKET, SO_RCVLOWAT, v) == cut(
                    le32_bytes(n as u32),
                    v.len as int,
                ),
                SetAction::Priority(n) => get_reply(t, g, SOL_SOCKET, SO_PRIORITY, v) == cut(
                    le32_bytes(n),
                    v.len as int,
                ),
                SetAction::Mark(n) => get_reply(t, g, SOL_SOCKET, SO_MARK, v) == cut(
                    le32_bytes(n),
                    v.len as int,
                ),
                SetAction::BusyPoll(n) => get_reply(t, g, SOL_SOCKET, SO_BUSY_POLL, v) == cut(
                    le32_bytes(n),
                    v.len as int,
                ),
                SetAction::Linger(on, sec) => get_reply(t, g, SOL_SOCKET, SO_LINGER, v) == cut(
                    linger_bytes(on, sec),
                    v.len as int,
                ),
                SetAction::RcvTimeout(d) => get_reply(t, g, SOL_SOCKET, SO_RCVTIMEO_NEW, v) == cut(
                    timeval_bytes(d),
                    v.len as int,
                ),
                SetAction::SndTimeout(d) => get_reply(t, g, SOL_SOCKET, SO_SNDTIMEO_NEW, v) == cut(
                    timeval_bytes(d),
                    v.len as int,
                ),
                _ => true,
            }
        }),
{
}

/// At most one way of reporting arrival times is on.
pub proof fn law_one_timestamp_mode(s: SocketSettings, a: usize, b: usize)
    requires
        carries_packets(s.kind),
        is_timestamp(a),
        is_timestamp(b),
        socket_number(s, a) == Some(1u32),
        socket_number(s, b) == Some(1u32),
    ensures
        a == b,
{
}

} // verus!
