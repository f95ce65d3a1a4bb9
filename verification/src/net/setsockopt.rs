//! Setting socket options: what a request asks of the socket, or why it is refused.

use vstd::prelude::*;
use crate::bytes::{le32, read_le32};
use crate::errno::{
    EBADF, EFAULT, EINVAL, ENODEV, ENOPROTOOPT, ENOTSOCK, EOPNOTSUPP,
};
use crate::net::optval::{
    exact_int_value, fanout_value, filter_mode, force_error, group_filter_head,
    group_filter_sources, group_req_value, group_source_value, ifname_value, int4_value, int_value,
    ipv4_source_filter_mode, is_sndbuf, is_timestamp, keepalive_of, linger_value,
    linux_rcvlowat_value, linux_sockbuf_value, mark_of, mreq_source_value, mreqn_value,
    msfilter_error, msfilter_head, msfilter_sources, multicast_if_value, named_mode,
    options_value, packet_mreq_value, priority_of, rcvlowat_of, read_exact_int, read_group_filter,
    read_group_req, read_group_source_req, read_int4, read_ip_mreq_source, read_ip_mreqn,
    read_ip_msfilter, read_ipv4_multicast_if, read_ipv4_options, read_linger, read_packet_fanout,
    read_packet_mreq, read_packet_ring_req, read_socket_timeval_ms, read_sockopt_ifname,
    read_sockopt_int, read_sockopt_u64, rebind_error, require_bound_device_rebind,
    require_cap_net_admin_for_sockbuf_force, ring_value, sockbuf_size, socket_mark_value,
    socket_priority_value, tcp_keepalive_sockopt_value, timestamp_mode_for_sockopt, timeval_value,
    u64_value, unreadable, GroupReq, OptVal, PacketMreq, RingReq, SourceFilterMode, TimestampMode,
    MAX_TCP_KEEPCNT, MAX_TCP_KEEPIDLE, MAX_TCP_KEEPINTVL, SO_ATTACH_BPF,
    SO_ATTACH_FILTER, SO_BINDTODEVICE, SO_BROADCAST, SO_BSDCOMPAT, SO_BUSY_POLL, SO_DETACH_FILTER,
    SO_DONTROUTE, SO_KEEPALIVE, SO_LINGER, SO_LOCK_FILTER, SO_MARK, SO_NO_CHECK, SO_OOBINLINE,
    SO_PASSCRED, SO_PRIORITY, SO_RCVBUF, SO_RCVBUFFORCE, SO_RCVLOWAT, SO_RCVMARK, SO_RCVPRIORITY,
    SO_RCVTIMEO_NEW, SO_RCVTIMEO_OLD, SO_REUSEADDR, SO_REUSEPORT, SO_SNDBUF, SO_SNDBUFFORCE,
    SO_SNDTIMEO_NEW, SO_SNDTIMEO_OLD, SO_TIMESTAMPNS_NEW, SO_TIMESTAMPNS_OLD, SO_TIMESTAMP_NEW,
    SO_TIMESTAMP_OLD, TPACKET_V3,
};

verus! {

pub const SOL_IP: usize = 0;
pub const SOL_SOCKET: usize = 1;
pub const SOL_TCP: usize = 6;
pub const SOL_UDP: usize = 17;
pub const SOL_UDPLITE: usize = 136;
pub const SOL_PACKET: usize = 263;
pub const SOL_NETLINK: usize = 270;
pub const SOL_VSOCK: usize = 287;
pub const LEVEL_VSOCK: usize = 40;

pub const NETLINK_ADD_MEMBERSHIP: usize = 1;
pub const NETLINK_DROP_MEMBERSHIP: usize = 2;
pub const NETLINK_PKTINFO: usize = 3;
pub const NETLINK_BROADCAST_ERROR: usize = 4;
pub const NETLINK_NO_ENOBUFS: usize = 5;
pub const NETLINK_LISTEN_ALL_NSID: usize = 8;
pub const NETLINK_CAP_ACK: usize = 10;
pub const NETLINK_EXT_ACK: usize = 11;
pub const NETLINK_GET_STRICT_CHK: usize = 12;

pub const SO_VM_SOCKETS_BUFFER_SIZE: usize = 0;
pub const SO_VM_SOCKETS_BUFFER_MIN_SIZE: usize = 1;
pub const SO_VM_SOCKETS_BUFFER_MAX_SIZE: usize = 2;
pub const SO_VM_SOCKETS_CONNECT_TIMEOUT_OLD: usize = 6;
pub const SO_VM_SOCKETS_CONNECT_TIMEOUT_NEW: usize = 8;

pub const PACKET_ADD_MEMBERSHIP: usize = 1;
pub const PACKET_DROP_MEMBERSHIP: usize = 2;
pub const PACKET_RX_RING: usize = 5;
pub const PACKET_STATISTICS: usize = 6;
pub const PACKET_COPY_THRESH: usize = 7;
pub const PACKET_AUXDATA: usize = 8;
pub const PACKET_ORIGDEV: usize = 9;
pub const PACKET_VERSION: usize = 10;
pub const PACKET_HDRLEN: usize = 11;
pub const PACKET_RESERVE: usize = 12;
pub const PACKET_TX_RING: usize = 13;
pub const PACKET_VNET_HDR: usize = 15;
pub const PACKET_FANOUT: usize = 18;
pub const PACKET_QDISC_BYPASS: usize = 20;
pub const PACKET_IGNORE_OUTGOING: usize = 23;
pub const PACKET_VNET_HDR_SZ: usize = 24;

pub const TCP_NODELAY: usize = 1;
pub const TCP_CORK: usize = 3;
pub const TCP_KEEPIDLE: usize = 4;
pub const TCP_KEEPINTVL: usize = 5;
pub const TCP_KEEPCNT: usize = 6;
pub const UDPLITE_SEND_CSCOV: usize = 10;
pub const UDPLITE_RECV_CSCOV: usize = 11;

pub const IP_TOS: usize = 1;
pub const IP_TTL: usize = 2;
pub const IP_HDRINCL: usize = 3;
pub const IP_OPTIONS: usize = 4;
pub const IP_PKTINFO: usize = 8;
pub const IP_MTU_DISCOVER: usize = 10;
pub const IP_RECVERR: usize = 11;
pub const IP_RECVTTL: usize = 12;
pub const IP_RECVTOS: usize = 13;
pub const IP_MTU: usize = 14;
pub const IP_MULTICAST_IF: usize = 32;
pub const IP_MULTICAST_TTL: usize = 33;
pub const IP_MULTICAST_LOOP: usize = 34;
pub const IP_ADD_MEMBERSHIP: usize = 35;
pub const IP_DROP_MEMBERSHIP: usize = 36;
pub const IP_UNBLOCK_SOURCE: usize = 37;
pub const IP_BLOCK_SOURCE: usize = 38;
pub const IP_ADD_SOURCE_MEMBERSHIP: usize = 39;
pub const IP_DROP_SOURCE_MEMBERSHIP: usize = 40;
pub const IP_MSFILTER: usize = 41;
pub const MCAST_JOIN_GROUP: usize = 42;
pub const MCAST_BLOCK_SOURCE: usize = 43;
pub const MCAST_UNBLOCK_SOURCE: usize = 44;
pub const MCAST_LEAVE_GROUP: usize = 45;
pub const MCAST_JOIN_SOURCE_GROUP: usize = 46;
pub const MCAST_LEAVE_SOURCE_GROUP: usize = 47;
pub const MCAST_MSFILTER: usize = 48;
pub const IP_PMTUDISC_OMIT: i32 = 5;

/// What a descriptor stands for.
#[derive(Clone, Copy, PartialEq, Eq, Structural)]
pub enum SocketKind {
    Netlink,
    Vsock,
    Packet,
    Raw,
    Unix,
    Pair,
    Net,
    NotSocket,
}

/// What the decision needs to know of the socket and of its owner.
#[derive(Clone, Copy)]
pub struct SetFacts {
    pub kind: SocketKind,
    /// Effective capabilities of the process.
    pub caps: u64,
    /// The socket is bound to a device.
    pub device_bound: bool,
    /// The interface that the value names, if there is one.
    pub named_ifindex: Option<i32>,
    pub packet_version: i32,
    /// A packet socket that carries link-level headers.
    pub raw_packets: bool,
    /// A TCP connection.
    pub tcp_stream: bool,
    /// The value is the descriptor of a program.
    pub prog_found: bool,
    /// Whether the value describes a filter.
    pub filter: Result<(), isize>,
}

/// Settings that are on or off.
#[derive(Clone, Copy, PartialEq, Eq, Structural)]
pub enum SockFlag {
    ReuseAddr,
    DontRoute,
    Broadcast,
    KeepAlive,
    OobInline,
    PassCred,
    NoCheck,
    RcvMark,
    RcvPriority,
    Auxdata,
    Origdev,
    VnetHdr,
    QdiscBypass,
    IgnoreOutgoing,
    HdrIncl,
    Recverr,
    Pktinfo,
    Recvttl,
    Recvtos,
    MulticastLoop,
}

/// What a request asks for. The name of a device and header options go with the
/// action as bytes, and the sources of a filter as a list.
#[derive(Clone, Copy)]
pub enum SetAction {
    Nothing,
    AttachBpf(u32),
    AttachFilter,
    DetachFilter,
    LockFilter(bool),
    RcvTimeout(Option<u64>),
    SndTimeout(Option<u64>),
    Linger(bool, i32),
    SndBuf(u32),
    RcvBuf(u32),
    Flag(SockFlag, bool),
    RcvLowat(i32),
    BusyPoll(u32),
    Timestamp(TimestampMode),
    Priority(u32),
    Mark(u32),
    BindDevice,
    BindIfindex(i32),
    NetlinkMembership(i32, bool),
    NetlinkFlag(usize, bool),
    VsockSize(u64),
    VsockMinSize(u64),
    VsockMaxSize(u64),
    VsockTimeout(Option<u64>),
    PacketMembership(PacketMreq, bool),
    PacketVersion(i32),
    PacketReserve(i32),
    CopyThresh(i32),
    RxRing(RingReq),
    Fanout(u32, u32),
    TcpNodelay(bool),
    TcpCork(bool),
    TcpKeepIdle(u32),
    TcpKeepIntvl(u32),
    TcpKeepCnt(u32),
    UdpliteCoverage(usize, i32),
    IpOptions,
    MulticastIf(i32, u32),
    MulticastTtl(u8),
    Tos(i32),
    Ttl(i32),
    MtuDiscover(i32),
    Membership(GroupReq, bool),
    GroupMembership(GroupReq, bool),
    SourceMembership(GroupReq, bool),
    SourceBlock(GroupReq, bool),
    SourceFilter(GroupReq, SourceFilterMode),
}

/// A decision, with the data that goes with it.
pub struct SetOutcome {
    pub action: Result<SetAction, isize>,
    pub bytes: Vec<u8>,
    pub sources: Vec<u32>,
}

// ---------------------------------------------------------------------------
// The socket level.
// ---------------------------------------------------------------------------

pub open spec fn is_rcvtimeo(optname: usize) -> bool {
    optname == SO_RCVTIMEO_OLD || optname == SO_RCVTIMEO_NEW
}

pub open spec fn is_sndtimeo(optname: usize) -> bool {
    optname == SO_SNDTIMEO_OLD || optname == SO_SNDTIMEO_NEW
}

pub open spec fn is_sockbuf(optname: usize) -> bool {
    optname == SO_SNDBUF || optname == SO_SNDBUFFORCE || optname == SO_RCVBUF || optname
        == SO_RCVBUFFORCE
}

/// The kinds that go through the packet layer.
pub open spec fn carries_packets(kind: SocketKind) -> bool {
    kind == SocketKind::Packet || kind == SocketKind::Raw || kind == SocketKind::Net
}

/// The kinds whose ends are on this machine.
pub open spec fn is_local(kind: SocketKind) -> bool {
    kind == SocketKind::Unix || kind == SocketKind::Pair
}

/// Options that a kind accepts at the socket level.
pub open spec fn accepts(kind: SocketKind, optname: usize) -> bool {
    if is_rcvtimeo(optname) || is_sndtimeo(optname) || optname == SO_LINGER || optname
        == SO_REUSEADDR || optname == SO_DONTROUTE || optname == SO_BROADCAST || optname
        == SO_KEEPALIVE || optname == SO_OOBINLINE || optname == SO_RCVLOWAT || optname
        == SO_BSDCOMPAT || optname == SO_REUSEPORT {
        true
    } else if is_sockbuf(optname) {
        kind == SocketKind::Netlink || carries_packets(kind)
    } else if optname == SO_ATTACH_FILTER || optname == SO_DETACH_FILTER || optname
        == SO_LOCK_FILTER {
        carries_packets(kind) || is_local(kind)
    } else if is_timestamp(optname) || optname == SO_PRIORITY || optname == SO_MARK || optname
        == SO_RCVMARK || optname == SO_RCVPRIORITY || optname == SO_BINDTODEVICE {
        carries_packets(kind)
    } else if optname == SO_PASSCRED {
        is_local(kind)
    } else if optname == SO_NO_CHECK || optname == SO_BUSY_POLL {
        kind == SocketKind::Net
    } else {
        false
    }
}

/// What an accepted number asks for.
pub open spec fn number_action(caps: u64, optname: usize, val: i32) -> Result<SetAction, isize> {
    if is_sockbuf(optname) {
        if let Some(e) = force_error(optname, caps) {
            Err(e)
        } else if is_sndbuf(optname) {
            Ok(SetAction::SndBuf(sockbuf_size(val, optname) as u32))
        } else {
            Ok(SetAction::RcvBuf(sockbuf_size(val, optname) as u32))
        }
    } else if optname == SO_REUSEADDR {
        Ok(SetAction::Flag(SockFlag::ReuseAddr, val != 0))
    } else if optname == SO_DONTROUTE {
        Ok(SetAction::Flag(SockFlag::DontRoute, val != 0))
    } else if optname == SO_BROADCAST {
        Ok(SetAction::Flag(SockFlag::Broadcast, val != 0))
    } else if optname == SO_KEEPALIVE {
        Ok(SetAction::Flag(SockFlag::KeepAlive, val != 0))
    } else if optname == SO_OOBINLINE {
        Ok(SetAction::Flag(SockFlag::OobInline, val != 0))
    } else if optname == SO_PASSCRED {
        Ok(SetAction::Flag(SockFlag::PassCred, val != 0))
    } else if optname == SO_NO_CHECK {
        Ok(SetAction::Flag(SockFlag::NoCheck, val != 0))
    } else if optname == SO_RCVMARK {
        Ok(SetAction::Flag(SockFlag::RcvMark, val != 0))
    } else if optname == SO_RCVPRIORITY {
        Ok(SetAction::Flag(SockFlag::RcvPriority, val != 0))
    } else if optname == SO_LOCK_FILTER {
        Ok(SetAction::LockFilter(val != 0))
    } else if optname == SO_RCVLOWAT {
        Ok(SetAction::RcvLowat(rcvlowat_of(val)))
    } else if optname == SO_REUSEPORT {
        if val != 0 {
            Err(EOPNOTSUPP)
        } else {
            Ok(SetAction::Nothing)
        }
    } else if optname == SO_BUSY_POLL {
        if val < 0 {
            Err(EINVAL)
        } else {
            Ok(SetAction::BusyPoll(val as u32))
        }
    } else if is_timestamp(optname) {
        Ok(
            SetAction::Timestamp(
                if val != 0 {
                    named_mode(optname)
                } else {
                    TimestampMode::Off
                },
            ),
        )
    } else if optname == SO_PRIORITY {
        match priority_of(val, caps) {
            Ok(p) => Ok(SetAction::Priority(p)),
            Err(e) => Err(e),
        }
    } else if optname == SO_MARK {
        match mark_of(val, caps) {
            Ok(m) => Ok(SetAction::Mark(m)),
            Err(e) => Err(e),
        }
    } else {
        Ok(SetAction::Nothing)
    }
}

/// What binding to a device asks for: some kinds take the name, one the number
/// of the interface.
pub open spec fn bind_action(f: SetFacts, v: OptVal) -> Result<SetAction, isize> {
    match ifname_value(v) {
        Err(e) => Err(e),
        Ok(name) => if f.kind == SocketKind::Net && name.len() > 0 && f.named_ifindex is None {
            Err(ENODEV)
        } else if let Some(e) = rebind_error(f.device_bound, f.caps) {
            Err(e)
        } else if f.kind != SocketKind::Net {
            Ok(SetAction::BindDevice)
        } else if name.len() == 0 {
            Ok(SetAction::BindIfindex(0))
        } else {
            Ok(SetAction::BindIfindex(f.named_ifindex->0))
        },
    }
}

/// Socket-level options. A network socket reads the number before it refuses an
/// option that it does not know.
pub open spec fn socket_action(f: SetFacts, optname: usize, v: OptVal) -> Result<
    SetAction,
    isize,
> {
    if !accepts(f.kind, optname) {
        match int4_value(v) {
            Err(e) => if f.kind == SocketKind::Net {
                Err(e)
            } else {
                Err(ENOPROTOOPT)
            },
            Ok(_) => Err(ENOPROTOOPT),
        }
    } else if is_rcvtimeo(optname) {
        match timeval_value(v) {
            Ok(t) => Ok(SetAction::RcvTimeout(t)),
            Err(e) => Err(e),
        }
    } else if is_sndtimeo(optname) {
        match timeval_value(v) {
            Ok(t) => Ok(SetAction::SndTimeout(t)),
            Err(e) => Err(e),
        }
    } else if optname == SO_LINGER {
        match linger_value(v) {
            Ok(l) => Ok(SetAction::Linger(l.0, l.1)),
            Err(e) => Err(e),
        }
    } else if optname == SO_ATTACH_FILTER {
        match f.filter {
            Ok(_) => Ok(SetAction::AttachFilter),
            Err(e) => Err(e),
        }
    } else if optname == SO_DETACH_FILTER {
        Ok(SetAction::DetachFilter)
    } else if optname == SO_BINDTODEVICE {
        bind_action(f, v)
    } else {
        match int4_value(v) {
            Ok(val) => number_action(f.caps, optname, val),
            Err(e) => Err(e),
        }
    }
}

fn is_so_rcvtimeo(optname: usize) -> (r: bool)
    ensures
        r == is_rcvtimeo(optname),
{
    optname == SO_RCVTIMEO_OLD || optname == SO_RCVTIMEO_NEW
}

fn is_so_sndtimeo(optname: usize) -> (r: bool)
    ensures
        r == is_sndtimeo(optname),
{
    optname == SO_SNDTIMEO_OLD || optname == SO_SNDTIMEO_NEW
}

fn is_timestamp_option(optname: usize) -> (r: bool)
    ensures
        r == is_timestamp(optname),
{
    optname == SO_TIMESTAMP_OLD || optname == SO_TIMESTAMPNS_OLD || optname == SO_TIMESTAMP_NEW
        || optname == SO_TIMESTAMPNS_NEW
}

/// Tells whether a kind accepts an option at the socket level.
pub fn accepts_option(kind: SocketKind, optname: usize) -> (r: bool)
    ensures
        r == accepts(kind, optname),
{
    let packets: bool = kind == SocketKind::Packet || kind == SocketKind::Raw || kind
        == SocketKind::Net;
    let local: bool = kind == SocketKind::Unix || kind == SocketKind::Pair;
    if is_so_rcvtimeo(optname) || is_so_sndtimeo(optname) || optname == SO_LINGER || optname
        == SO_REUSEADDR || optname == SO_DONTROUTE || optname == SO_BROADCAST || optname
        == SO_KEEPALIVE || optname == SO_OOBINLINE || optname == SO_RCVLOWAT || optname
        == SO_BSDCOMPAT || optname == SO_REUSEPORT {
        true
    } else if optname == SO_SNDBUF || optname == SO_SNDBUFFORCE || optname == SO_RCVBUF || optname
        == SO_RCVBUFFORCE {
        kind == SocketKind::Netlink || packets
    } else if optname == SO_ATTACH_FILTER || optname == SO_DETACH_FILTER || optname
        == SO_LOCK_FILTER {
        packets || local
    } else if is_timestamp_option(optname) || optname == SO_PRIORITY || optname == SO_MARK
        || optname == SO_RCVMARK || optname == SO_RCVPRIORITY || optname == SO_BINDTODEVICE {
        packets
    } else if optname == SO_PASSCRED {
        local
    } else if optname == SO_NO_CHECK || optname == SO_BUSY_POLL {
        kind == SocketKind::Net
    } else {
        false
    }
}

/// Decides on an option whose value is a number.
pub fn set_number(caps: u64, optname: usize, val: i32) -> (r: Result<SetAction, isize>)
    ensures
        r == number_action(caps, optname, val),
{
    if optname == SO_SNDBUF || optname == SO_SNDBUFFORCE || optname == SO_RCVBUF || optname
        == SO_RCVBUFFORCE {
        if let Err(e) = require_cap_net_admin_for_sockbuf_force(optname, caps) {
            return Err(e);
        }
        let size: u32 = linux_sockbuf_value(val, optname);
        if optname == SO_SNDBUF || optname == SO_SNDBUFFORCE {
            return Ok(SetAction::SndBuf(size));
        }
        return Ok(SetAction::RcvBuf(size));
    }
    if is_timestamp_option(optname) {
        return match timestamp_mode_for_sockopt(optname, val != 0) {
            Some(mode) => Ok(SetAction::Timestamp(mode)),
            None => Err(ENOPROTOOPT),
        };
    }
    match optname {
        SO_REUSEADDR => Ok(SetAction::Flag(SockFlag::ReuseAddr, val != 0)),
        SO_DONTROUTE => Ok(SetAction::Flag(SockFlag::DontRoute, val != 0)),
        SO_BROADCAST => Ok(SetAction::Flag(SockFlag::Broadcast, val != 0)),
        SO_KEEPALIVE => Ok(SetAction::Flag(SockFlag::KeepAlive, val != 0)),
        SO_OOBINLINE => Ok(SetAction::Flag(SockFlag::OobInline, val != 0)),
        SO_PASSCRED => Ok(SetAction::Flag(SockFlag::PassCred, val != 0)),
        SO_NO_CHECK => Ok(SetAction::Flag(SockFlag::NoCheck, val != 0)),
        SO_RCVMARK => Ok(SetAction::Flag(SockFlag::RcvMark, val != 0)),
        SO_RCVPRIORITY => Ok(SetAction::Flag(SockFlag::RcvPriority, val != 0)),
        SO_LOCK_FILTER => Ok(SetAction::LockFilter(val != 0)),
        SO_RCVLOWAT => Ok(SetAction::RcvLowat(linux_rcvlowat_value(val))),
        SO_REUSEPORT => if val != 0 {
            Err(EOPNOTSUPP)
        } else {
            Ok(SetAction::Nothing)
        },
        SO_BUSY_POLL => if val < 0 {
            Err(EINVAL)
        } else {
            Ok(SetAction::BusyPoll(val as u32))
        },
        SO_PRIORITY => match socket_priority_value(val, caps) {
            Ok(p) => Ok(SetAction::Priority(p)),
            Err(e) => Err(e),
        },
        SO_MARK => match socket_mark_value(val, caps) {
            Ok(m) => Ok(SetAction::Mark(m)),
            Err(e) => Err(e),
        },
        _ => Ok(SetAction::Nothing),
    }
}

/// Decides on binding to a device. On success the bytes are the name, for the
/// kinds that take it.
fn set_bound_device(f: &SetFacts, v: &OptVal, bytes: &mut Vec<u8>) -> (r: Result<SetAction, isize>)
    ensures
        r == bind_action(*f, *v),
        final(bytes)@ == match r {
            Ok(SetAction::BindDevice) => ifname_value(*v)->Ok_0,
            _ => old(bytes)@,
        },
{
    let name = match read_sockopt_ifname(v) {
        Ok(name) => name,
        Err(e) => {
            return Err(e);
        },
    };
    let mut target: i32 = 0;
    if f.kind == SocketKind::Net && name.len() > 0 {
        match f.named_ifindex {
            Some(ifindex) => {
                target = ifindex;
            },
            None => {
                return Err(ENODEV);
            },
        }
    }
    if let Err(e) = require_bound_device_rebind(f.device_bound, f.caps) {
        return Err(e);
    }
    if f.kind == SocketKind::Net {
        Ok(SetAction::BindIfindex(target))
    } else {
        *bytes = name;
        Ok(SetAction::BindDevice)
    }
}

/// Decides on a socket-level option.
fn set_socket_level(f: &SetFacts, optname: usize, v: &OptVal, bytes: &mut Vec<u8>) -> (r: Result<
    SetAction,
    isize,
>)
    ensures
        r == socket_action(*f, optname, *v),
        final(bytes)@ == match r {
            Ok(SetAction::BindDevice) => ifname_value(*v)->Ok_0,
            _ => old(bytes)@,
        },
{
    if !accepts_option(f.kind, optname) {
        if f.kind == SocketKind::Net {
            if let Err(e) = read_int4(v) {
                return Err(e);
            }
        }
        return Err(ENOPROTOOPT);
    }
    if is_so_rcvtimeo(optname) {
        return match read_socket_timeval_ms(v) {
            Ok(t) => Ok(SetAction::RcvTimeout(t)),
            Err(e) => Err(e),
        };
    }
    if is_so_sndtimeo(optname) {
        return match read_socket_timeval_ms(v) {
            Ok(t) => Ok(SetAction::SndTimeout(t)),
            Err(e) => Err(e),
        };
    }
    if optname == SO_LINGER {
        return match read_linger(v) {
            Ok(l) => Ok(SetAction::Linger(l.0, l.1)),
            Err(e) => Err(e),
        };
    }
    if optname == SO_ATTACH_FILTER {
        return match f.filter {
            Ok(_) => Ok(SetAction::AttachFilter),
            Err(e) => Err(e),
        };
    }
    if optname == SO_DETACH_FILTER {
        return Ok(SetAction::DetachFilter);
    }
    if optname == SO_BINDTODEVICE {
        return set_bound_device(f, v, bytes);
    }
    match read_int4(v) {
        Ok(val) => set_number(f.caps, optname, val),
        Err(e) => Err(e),
    }
}

// ---------------------------------------------------------------------------
// Netlink, virtual-machine and packet sockets.
// ---------------------------------------------------------------------------

pub open spec fn is_netlink_flag(optname: usize) -> bool {
    optname == NETLINK_PKTINFO || optname == NETLINK_BROADCAST_ERROR || optname
        == NETLINK_NO_ENOBUFS || optname == NETLINK_LISTEN_ALL_NSID || optname == NETLINK_CAP_ACK
        || optname == NETLINK_EXT_ACK || optname == NETLINK_GET_STRICT_CHK
}

/// Netlink options.
pub open spec fn netlink_action(f: SetFacts, level: usize, optname: usize, v: OptVal) -> Result<
    SetAction,
    isize,
> {
    if level == SOL_NETLINK {
        if optname == NETLINK_ADD_MEMBERSHIP || optname == NETLINK_DROP_MEMBERSHIP {
            match int4_value(v) {
                Ok(g) => Ok(SetAction::NetlinkMembership(g, optname == NETLINK_ADD_MEMBERSHIP)),
                Err(e) => Err(e),
            }
        } else if is_netlink_flag(optname) {
            match int4_value(v) {
                Ok(val) => Ok(SetAction::NetlinkFlag(optname, val != 0)),
                Err(e) => Err(e),
            }
        } else {
            Err(ENOPROTOOPT)
        }
    } else if level == SOL_SOCKET {
        socket_action(f, optname, v)
    } else {
        Err(ENOPROTOOPT)
    }
}

/// Tells whether an option is a netlink setting that is on or off.
pub fn netlink_flag_option(optname: usize) -> (r: bool)
    ensures
        r == is_netlink_flag(optname),
{
    optname == NETLINK_PKTINFO || optname == NETLINK_BROADCAST_ERROR || optname
        == NETLINK_NO_ENOBUFS || optname == NETLINK_LISTEN_ALL_NSID || optname == NETLINK_CAP_ACK
        || optname == NETLINK_EXT_ACK || optname == NETLINK_GET_STRICT_CHK
}

fn setsockopt_netlink(
    f: &SetFacts,
    level: usize,
    optname: usize,
    v: &OptVal,
    bytes: &mut Vec<u8>,
) -> (r: Result<SetAction, isize>)
    requires
        f.kind == SocketKind::Netlink,
    ensures
        r == netlink_action(*f, level, optname, *v),
        final(bytes)@ == old(bytes)@,
{
    if level == SOL_NETLINK {
        if optname == NETLINK_ADD_MEMBERSHIP || optname == NETLINK_DROP_MEMBERSHIP {
            return match read_int4(v) {
                Ok(g) => Ok(SetAction::NetlinkMembership(g, optname == NETLINK_ADD_MEMBERSHIP)),
                Err(e) => Err(e),
            };
        }
        if netlink_flag_option(optname) {
            return match read_int4(v) {
                Ok(val) => Ok(SetAction::NetlinkFlag(optname, val != 0)),
                Err(e) => Err(e),
            };
        }
        return Err(ENOPROTOOPT);
    }
    if level == SOL_SOCKET {
        return set_socket_level(f, optname, v, bytes);
    }
    Err(ENOPROTOOPT)
}

/// Options of sockets between virtual machines.
pub open spec fn vsock_action(level: usize, optname: usize, v: OptVal) -> Result<
    SetAction,
    isize,
> {
    if level != LEVEL_VSOCK && level != SOL_VSOCK {
        Err(EOPNOTSUPP)
    } else if optname == SO_VM_SOCKETS_BUFFER_SIZE || optname == SO_VM_SOCKETS_BUFFER_MIN_SIZE
        || optname == SO_VM_SOCKETS_BUFFER_MAX_SIZE {
        match u64_value(v) {
            Err(e) => Err(e),
            Ok(n) => if optname == SO_VM_SOCKETS_BUFFER_SIZE {
                Ok(SetAction::VsockSize(n))
            } else if optname == SO_VM_SOCKETS_BUFFER_MIN_SIZE {
                Ok(SetAction::VsockMinSize(n))
            } else {
                Ok(SetAction::VsockMaxSize(n))
            },
        }
    } else if optname == SO_VM_SOCKETS_CONNECT_TIMEOUT_OLD || optname
        == SO_VM_SOCKETS_CONNECT_TIMEOUT_NEW {
        match timeval_value(v) {
            Ok(t) => Ok(SetAction::VsockTimeout(t)),
            Err(e) => Err(e),
        }
    } else {
        Err(ENOPROTOOPT)
    }
}

fn setsockopt_vsock(level: usize, optname: usize, v: &OptVal) -> (r: Result<SetAction, isize>)
    ensures
        r == vsock_action(level, optname, *v),
{
    if level != LEVEL_VSOCK && level != SOL_VSOCK {
        return Err(EOPNOTSUPP);
    }
    match optname {
        SO_VM_SOCKETS_BUFFER_SIZE => match read_sockopt_u64(v) {
            Ok(n) => Ok(SetAction::VsockSize(n)),
            Err(e) => Err(e),
        },
        SO_VM_SOCKETS_BUFFER_MIN_SIZE => match read_sockopt_u64(v) {
            Ok(n) => Ok(SetAction::VsockMinSize(n)),
            Err(e) => Err(e),
        },
        SO_VM_SOCKETS_BUFFER_MAX_SIZE => match read_sockopt_u64(v) {
            Ok(n) => Ok(SetAction::VsockMaxSize(n)),
            Err(e) => Err(e),
        },
        SO_VM_SOCKETS_CONNECT_TIMEOUT_OLD | SO_VM_SOCKETS_CONNECT_TIMEOUT_NEW => {
            match read_socket_timeval_ms(v) {
                Ok(t) => Ok(SetAction::VsockTimeout(t)),
                Err(e) => Err(e),
            }
        },
        _ => Err(ENOPROTOOPT),
    }
}

/// What a ring request asks for. A block must have room for its private part,
/// and only an empty ring for sending is taken.
pub open spec fn ring_action(f: SetFacts, optname: usize, v: OptVal) -> Result<SetAction, isize> {
    match ring_value(v, f.packet_version) {
        Err(e) => Err(e),
        Ok(req) => if optname == PACKET_RX_RING {
            if f.packet_version == TPACKET_V3 && req.block_size != 0 && req.sizeof_priv
                >= req.block_size {
                Err(EINVAL)
            } else {
                Ok(SetAction::RxRing(req))
            }
        } else if req.block_size == 0 && req.block_nr == 0 && req.frame_size == 0 && req.frame_nr
            == 0 {
            Ok(SetAction::Nothing)
        } else {
            Err(EOPNOTSUPP)
        },
    }
}

/// Options of packet sockets whose value is a number of exactly four bytes.
pub open spec fn packet_number(optname: usize, val: i32) -> Result<SetAction, isize> {
    if optname == PACKET_VERSION {
        Ok(SetAction::PacketVersion(val))
    } else if optname == PACKET_RESERVE {
        Ok(SetAction::PacketReserve(val))
    } else if optname == PACKET_COPY_THRESH {
        if val != 0 {
            Err(EOPNOTSUPP)
        } else {
            Ok(SetAction::CopyThresh(val))
        }
    } else if optname == PACKET_QDISC_BYPASS {
        if val != 0 {
            Err(EOPNOTSUPP)
        } else {
            Ok(SetAction::Flag(SockFlag::QdiscBypass, false))
        }
    } else if val != 0 && val != 1 {
        Err(EINVAL)
    } else {
        Ok(SetAction::Flag(SockFlag::IgnoreOutgoing, val != 0))
    }
}

/// Options of packet sockets.
pub open spec fn packet_action(f: SetFacts, optname: usize, v: OptVal) -> Result<
    SetAction,
    isize,
> {
    if optname == PACKET_ADD_MEMBERSHIP || optname == PACKET_DROP_MEMBERSHIP {
        match packet_mreq_value(v) {
            Ok(m) => Ok(SetAction::PacketMembership(m, optname == PACKET_ADD_MEMBERSHIP)),
            Err(e) => Err(e),
        }
    } else if optname == PACKET_VERSION || optname == PACKET_RESERVE || optname
        == PACKET_COPY_THRESH || optname == PACKET_QDISC_BYPASS || optname
        == PACKET_IGNORE_OUTGOING {
        match exact_int_value(v) {
            Ok(val) => packet_number(optname, val),
            Err(e) => Err(e),
        }
    } else if optname == PACKET_VNET_HDR || optname == PACKET_VNET_HDR_SZ {
        if !f.raw_packets {
            Err(EINVAL)
        } else {
            match int4_value(v) {
                Err(e) => Err(e),
                Ok(val) => if optname == PACKET_VNET_HDR_SZ && val != 0 && val != 10 && val
                    != 12 {
                    Err(EINVAL)
                } else if val == 0 {
                    Ok(SetAction::Flag(SockFlag::VnetHdr, false))
                } else {
                    Err(EOPNOTSUPP)
                },
            }
        }
    } else if optname == PACKET_AUXDATA || optname == PACKET_ORIGDEV {
        match int4_value(v) {
            Err(e) => Err(e),
            Ok(val) => Ok(
                SetAction::Flag(
                    if optname == PACKET_AUXDATA {
                        SockFlag::Auxdata
                    } else {
                        SockFlag::Origdev
                    },
                    val != 0,
                ),
            ),
        }
    } else if optname == PACKET_RX_RING || optname == PACKET_TX_RING {
        ring_action(f, optname, v)
    } else if optname == PACKET_FANOUT {
        match fanout_value(v) {
            Ok(g) => Ok(SetAction::Fanout(g.0, g.1)),
            Err(e) => Err(e),
        }
    } else {
        Err(ENOPROTOOPT)
    }
}

fn packet_membership(optname: usize, v: &OptVal) -> (r: Result<SetAction, isize>)
    requires
        optname == PACKET_ADD_MEMBERSHIP || optname == PACKET_DROP_MEMBERSHIP,
    ensures
        r == match packet_mreq_value(*v) {
            Ok(m) => Ok::<SetAction, isize>(
                SetAction::PacketMembership(m, optname == PACKET_ADD_MEMBERSHIP),
            ),
            Err(e) => Err(e),
        },
{
    match read_packet_mreq(v) {
        Ok(m) => Ok(SetAction::PacketMembership(m, optname == PACKET_ADD_MEMBERSHIP)),
        Err(e) => Err(e),
    }
}

fn set_packet_ring(f: &SetFacts, optname: usize, v: &OptVal) -> (r: Result<SetAction, isize>)
    ensures
        r == ring_action(*f, optname, *v),
{
    let req = match read_packet_ring_req(v, f.packet_version) {
        Ok(req) => req,
        Err(e) => {
            return Err(e);
        },
    };
    if optname == PACKET_RX_RING {
        if f.packet_version == TPACKET_V3 && req.block_size != 0 && req.sizeof_priv
            >= req.block_size {
            return Err(EINVAL);
        }
        return Ok(SetAction::RxRing(req));
    }
    if req.block_size == 0 && req.block_nr == 0 && req.frame_size == 0 && req.frame_nr == 0 {
        return Ok(SetAction::Nothing);
    }
    Err(EOPNOTSUPP)
}

fn set_packet_number(optname: usize, val: i32) -> (r: Result<SetAction, isize>)
    ensures
        r == packet_number(optname, val),
{
    match optname {
        PACKET_VERSION => Ok(SetAction::PacketVersion(val)),
        PACKET_RESERVE => Ok(SetAction::PacketReserve(val)),
        PACKET_COPY_THRESH => if val != 0 {
            Err(EOPNOTSUPP)
        } else {
            Ok(SetAction::CopyThresh(val))
        },
        PACKET_QDISC_BYPASS => if val != 0 {
            Err(EOPNOTSUPP)
        } else {
            Ok(SetAction::Flag(SockFlag::QdiscBypass, false))
        },
        _ => if val != 0 && val != 1 {
            Err(EINVAL)
        } else {
            Ok(SetAction::Flag(SockFlag::IgnoreOutgoing, val != 0))
        },
    }
}

fn set_packet_level(f: &SetFacts, optname: usize, v: &OptVal) -> (r: Result<SetAction, isize>)
    ensures
        r == packet_action(*f, optname, *v),
{
    match optname {
        PACKET_ADD_MEMBERSHIP | PACKET_DROP_MEMBERSHIP => packet_membership(optname, v),
        PACKET_VERSION | PACKET_RESERVE | PACKET_COPY_THRESH | PACKET_QDISC_BYPASS
        | PACKET_IGNORE_OUTGOING => match read_exact_int(v) {
            Ok(val) => set_packet_number(optname, val),
            Err(e) => Err(e),
        },
        PACKET_VNET_HDR | PACKET_VNET_HDR_SZ => {
            if !f.raw_packets {
                return Err(EINVAL);
            }
            let val: i32 = match read_int4(v) {
                Ok(val) => val,
                Err(e) => {
                    return Err(e);
                },
            };
            if optname == PACKET_VNET_HDR_SZ && val != 0 && val != 10 && val != 12 {
                Err(EINVAL)
            } else if val == 0 {
                Ok(SetAction::Flag(SockFlag::VnetHdr, false))
            } else {
                Err(EOPNOTSUPP)
            }
        },
        PACKET_AUXDATA => match read_int4(v) {
            Ok(val) => Ok(SetAction::Flag(SockFlag::Auxdata, val != 0)),
            Err(e) => Err(e),
        },
        PACKET_ORIGDEV => match read_int4(v) {
            Ok(val) => Ok(SetAction::Flag(SockFlag::Origdev, val != 0)),
            Err(e) => Err(e),
        },
        PACKET_RX_RING | PACKET_TX_RING => set_packet_ring(f, optname, v),
        PACKET_FANOUT => match read_packet_fanout(v) {
            Ok(g) => Ok(SetAction::Fanout(g.0, g.1)),
            Err(e) => Err(e),
        },
        _ => Err(ENOPROTOOPT),
    }
}

// ---------------------------------------------------------------------------
// TCP and IP.
// ---------------------------------------------------------------------------

/// TCP options. The number is read before the name is looked at.
pub open spec fn tcp_action(optname: usize, v: OptVal) -> Result<SetAction, isize> {
    match int4_value(v) {
        Err(e) => Err(e),
        Ok(val) => if optname == TCP_NODELAY {
            Ok(SetAction::TcpNodelay(val != 0))
        } else if optname == TCP_CORK {
            Ok(SetAction::TcpCork(val != 0))
        } else if optname == TCP_KEEPIDLE {
            match keepalive_of(val, MAX_TCP_KEEPIDLE) {
                Ok(n) => Ok(SetAction::TcpKeepIdle(n)),
                Err(e) => Err(e),
            }
        } else if optname == TCP_KEEPINTVL {
            match keepalive_of(val, MAX_TCP_KEEPINTVL) {
                Ok(n) => Ok(SetAction::TcpKeepIntvl(n)),
                Err(e) => Err(e),
            }
        } else if optname == TCP_KEEPCNT {
            match keepalive_of(val, MAX_TCP_KEEPCNT) {
                Ok(n) => Ok(SetAction::TcpKeepCnt(n)),
                Err(e) => Err(e),
            }
        } else {
            Err(ENOPROTOOPT)
        },
    }
}

fn set_tcp_level(optname: usize, v: &OptVal) -> (r: Result<SetAction, isize>)
    ensures
        r == tcp_action(optname, *v),
{
    let val: i32 = match read_int4(v) {
        Ok(val) => val,
        Err(e) => {
            return Err(e);
        },
    };
    match optname {
        TCP_NODELAY => Ok(SetAction::TcpNodelay(val != 0)),
        TCP_CORK => Ok(SetAction::TcpCork(val != 0)),
        TCP_KEEPIDLE => match tcp_keepalive_sockopt_value(val, MAX_TCP_KEEPIDLE) {
            Ok(n) => Ok(SetAction::TcpKeepIdle(n)),
            Err(e) => Err(e),
        },
        TCP_KEEPINTVL => match tcp_keepalive_sockopt_value(val, MAX_TCP_KEEPINTVL) {
            Ok(n) => Ok(SetAction::TcpKeepIntvl(n)),
            Err(e) => Err(e),
        },
        TCP_KEEPCNT => match tcp_keepalive_sockopt_value(val, MAX_TCP_KEEPCNT) {
            Ok(n) => Ok(SetAction::TcpKeepCnt(n)),
            Err(e) => Err(e),
        },
        _ => Err(ENOPROTOOPT),
    }
}

/// IP settings whose value is a number of any length.
pub open spec fn is_ip_number(kind: SocketKind, optname: usize) -> bool {
    optname == IP_PKTINFO || optname == IP_MTU_DISCOVER || optname == IP_RECVERR || optname
        == IP_RECVTTL || optname == IP_RECVTOS || optname == IP_TOS || optname == IP_TTL || optname
        == IP_MULTICAST_TTL || optname == IP_MULTICAST_LOOP || (kind == SocketKind::Raw && optname
        == IP_HDRINCL)
}

/// What such a number asks for. The default time to live is filled in for raw
/// sockets only.
pub open spec fn ip_number(f: SetFacts, optname: usize, len: usize, val: i32) -> Result<
    SetAction,
    isize,
> {
    if optname == IP_PKTINFO {
        Ok(SetAction::Flag(SockFlag::Pktinfo, val != 0))
    } else if optname == IP_RECVERR {
        Ok(SetAction::Flag(SockFlag::Recverr, val != 0))
    } else if optname == IP_RECVTTL {
        Ok(SetAction::Flag(SockFlag::Recvttl, val != 0))
    } else if optname == IP_RECVTOS {
        Ok(SetAction::Flag(SockFlag::Recvtos, val != 0))
    } else if optname == IP_HDRINCL {
        Ok(SetAction::Flag(SockFlag::HdrIncl, val != 0))
    } else if optname == IP_TOS {
        Ok(SetAction::Tos(val))
    } else if optname == IP_MTU_DISCOVER {
        if 0 <= val <= IP_PMTUDISC_OMIT {
            Ok(SetAction::MtuDiscover(val))
        } else {
            Err(EINVAL)
        }
    } else if optname == IP_TTL {
        if len < 1 || (val != -1 && !(1 <= val <= 255)) {
            Err(EINVAL)
        } else if val == -1 && f.kind == SocketKind::Raw {
            Ok(SetAction::Ttl(64))
        } else {
            Ok(SetAction::Ttl(val))
        }
    } else if optname == IP_MULTICAST_TTL {
        if (f.kind != SocketKind::Raw && f.tcp_stream) || len < 1 {
            Err(EINVAL)
        } else if val == -1 {
            Ok(SetAction::MulticastTtl(1))
        } else if 0 <= val <= 255 {
            Ok(SetAction::MulticastTtl(val as u8))
        } else {
            Err(EINVAL)
        }
    } else if len < 1 {
        Err(EINVAL)
    } else {
        Ok(SetAction::Flag(SockFlag::MulticastLoop, val != 0))
    }
}

/// Requests about groups and their sources.
pub open spec fn group_action(optname: usize, v: OptVal) -> Result<SetAction, isize> {
    if optname == IP_ADD_MEMBERSHIP || optname == IP_DROP_MEMBERSHIP {
        match mreqn_value(v) {
            Ok(q) => Ok(SetAction::Membership(q, optname == IP_ADD_MEMBERSHIP)),
            Err(e) => Err(e),
        }
    } else if optname == MCAST_JOIN_GROUP || optname == MCAST_LEAVE_GROUP {
        match group_req_value(v) {
            Ok(q) => Ok(SetAction::GroupMembership(q, optname == MCAST_JOIN_GROUP)),
            Err(e) => Err(e),
        }
    } else if optname == IP_BLOCK_SOURCE || optname == IP_UNBLOCK_SOURCE {
        match mreq_source_value(v) {
            Ok(q) => Ok(SetAction::SourceBlock(q, optname == IP_BLOCK_SOURCE)),
            Err(e) => Err(e),
        }
    } else if optname == IP_ADD_SOURCE_MEMBERSHIP || optname == IP_DROP_SOURCE_MEMBERSHIP {
        match mreq_source_value(v) {
            Ok(q) => Ok(SetAction::SourceMembership(q, optname == IP_ADD_SOURCE_MEMBERSHIP)),
            Err(e) => Err(e),
        }
    } else if optname == MCAST_BLOCK_SOURCE || optname == MCAST_UNBLOCK_SOURCE {
        match group_source_value(v) {
            Ok(q) => Ok(SetAction::SourceBlock(q, optname == MCAST_BLOCK_SOURCE)),
            Err(e) => Err(e),
        }
    } else if optname == MCAST_JOIN_SOURCE_GROUP || optname == MCAST_LEAVE_SOURCE_GROUP {
        match group_source_value(v) {
            Ok(q) => Ok(SetAction::SourceMembership(q, optname == MCAST_JOIN_SOURCE_GROUP)),
            Err(e) => Err(e),
        }
    } else if optname == IP_MSFILTER {
        match msfilter_error(v) {
            Some(e) => Err(e),
            None => match filter_mode(msfilter_head(v)->Ok_0.fmode) {
                Ok(m) => Ok(SetAction::SourceFilter(msfilter_head(v)->Ok_0.req, m)),
                Err(e) => Err(e),
            },
        }
    } else if optname == MCAST_MSFILTER {
        match group_filter_sources(v) {
            Err(e) => Err(e),
            Ok(_) => match filter_mode(group_filter_head(v)->Ok_0.fmode) {
                Ok(m) => Ok(SetAction::SourceFilter(group_filter_head(v)->Ok_0.req, m)),
                Err(e) => Err(e),
            },
        }
    } else {
        Err(ENOPROTOOPT)
    }
}

/// IP options. Header options and the flag for whole headers exist on raw
/// sockets only.
pub open spec fn ip_action(f: SetFacts, optname: usize, v: OptVal) -> Result<SetAction, isize> {
    if optname == IP_OPTIONS && f.kind == SocketKind::Raw {
        match options_value(v) {
            Ok(_) => Ok(SetAction::IpOptions),
            Err(e) => Err(e),
        }
    } else if optname == IP_MULTICAST_IF {
        match multicast_if_value(v) {
            Ok(m) => Ok(SetAction::MulticastIf(m.0, m.1)),
            Err(e) => Err(e),
        }
    } else if is_ip_number(f.kind, optname) {
        match int_value(v) {
            Ok(val) => ip_number(f, optname, v.len, val),
            Err(e) => Err(e),
        }
    } else {
        group_action(optname, v)
    }
}

fn set_ip_number(f: &SetFacts, optname: usize, len: usize, val: i32) -> (r: Result<
    SetAction,
    isize,
>)
    ensures
        r == ip_number(*f, optname, len, val),
{
    match optname {
        IP_PKTINFO => Ok(SetAction::Flag(SockFlag::Pktinfo, val != 0)),
        IP_RECVERR => Ok(SetAction::Flag(SockFlag::Recverr, val != 0)),
        IP_RECVTTL => Ok(SetAction::Flag(SockFlag::Recvttl, val != 0)),
        IP_RECVTOS => Ok(SetAction::Flag(SockFlag::Recvtos, val != 0)),
        IP_HDRINCL => Ok(SetAction::Flag(SockFlag::HdrIncl, val != 0)),
        IP_TOS => Ok(SetAction::Tos(val)),
        IP_MTU_DISCOVER => if 0 <= val && val <= IP_PMTUDISC_OMIT {
            Ok(SetAction::MtuDiscover(val))
        } else {
            Err(EINVAL)
        },
        IP_TTL => if len < 1 || (val != -1 && (val < 1 || val > 255)) {
            Err(EINVAL)
        } else if val == -1 && f.kind == SocketKind::Raw {
            Ok(SetAction::Ttl(64))
        } else {
            Ok(SetAction::Ttl(val))
        },
        IP_MULTICAST_TTL => if (f.kind != SocketKind::Raw && f.tcp_stream) || len < 1 {
            Err(EINVAL)
        } else if val == -1 {
            Ok(SetAction::MulticastTtl(1))
        } else if 0 <= val && val <= 255 {
            Ok(SetAction::MulticastTtl(val as u8))
        } else {
            Err(EINVAL)
        },
        _ => if len < 1 {
            Err(EINVAL)
        } else {
            Ok(SetAction::Flag(SockFlag::MulticastLoop, val != 0))
        },
    }
}

/// The sources that go with an accepted filter.
pub open spec fn filter_sources(optname: usize, v: OptVal) -> Seq<u32> {
    if optname == IP_MSFILTER {
        msfilter_sources(v.mem@, msfilter_head(v)->Ok_0.numsrc as int)
    } else {
        group_filter_sources(v)->Ok_0
    }
}

fn set_source_filter(optname: usize, v: &OptVal, sources: &mut Vec<u32>) -> (r: Result<
    SetAction,
    isize,
>)
    requires
        optname == IP_MSFILTER || optname == MCAST_MSFILTER,
    ensures
        r == group_action(optname, *v),
        final(sources)@ == if r is Ok {
            filter_sources(optname, *v)
        } else {
            old(sources)@
        },
{
    let read = if optname == IP_MSFILTER {
        read_ip_msfilter(v)
    } else {
        read_group_filter(v)
    };
    let (head, list) = match read {
        Ok(h) => h,
        Err(e) => {
            return Err(e);
        },
    };
    match ipv4_source_filter_mode(head.fmode) {
        Ok(mode) => {
            *sources = list;
            Ok(SetAction::SourceFilter(head.req, mode))
        },
        Err(e) => Err(e),
    }
}

fn set_group(optname: usize, v: &OptVal, sources: &mut Vec<u32>) -> (r: Result<SetAction, isize>)
    ensures
        r == group_action(optname, *v),
        final(sources)@ == match r {
            Ok(SetAction::SourceFilter(_, _)) => filter_sources(optname, *v),
            _ => old(sources)@,
        },
{
    match optname {
        IP_ADD_MEMBERSHIP | IP_DROP_MEMBERSHIP => match read_ip_mreqn(v) {
            Ok(q) => Ok(SetAction::Membership(q, optname == IP_ADD_MEMBERSHIP)),
            Err(e) => Err(e),
        },
        MCAST_JOIN_GROUP | MCAST_LEAVE_GROUP => match read_group_req(v) {
            Ok(q) => Ok(SetAction::GroupMembership(q, optname == MCAST_JOIN_GROUP)),
            Err(e) => Err(e),
        },
        IP_BLOCK_SOURCE | IP_UNBLOCK_SOURCE => match read_ip_mreq_source(v) {
            Ok(q) => Ok(SetAction::SourceBlock(q, optname == IP_BLOCK_SOURCE)),
            Err(e) => Err(e),
        },
        IP_ADD_SOURCE_MEMBERSHIP | IP_DROP_SOURCE_MEMBERSHIP => match read_ip_mreq_source(v) {
            Ok(q) => Ok(SetAction::SourceMembership(q, optname == IP_ADD_SOURCE_MEMBERSHIP)),
            Err(e) => Err(e),
        },
        MCAST_BLOCK_SOURCE | MCAST_UNBLOCK_SOURCE => match read_group_source_req(v) {
            Ok(q) => Ok(SetAction::SourceBlock(q, optname == MCAST_BLOCK_SOURCE)),
            Err(e) => Err(e),
        },
        MCAST_JOIN_SOURCE_GROUP | MCAST_LEAVE_SOURCE_GROUP => match read_group_source_req(v) {
            Ok(q) => Ok(SetAction::SourceMembership(q, optname == MCAST_JOIN_SOURCE_GROUP)),
            Err(e) => Err(e),
        },
        IP_MSFILTER | MCAST_MSFILTER => set_source_filter(optname, v, sources),
        _ => Err(ENOPROTOOPT),
    }
}

fn set_ip_level(
    f: &SetFacts,
    optname: usize,
    v: &OptVal,
    bytes: &mut Vec<u8>,
    sources: &mut Vec<u32>,
) -> (r: Result<SetAction, isize>)
    ensures
        r == ip_action(*f, optname, *v),
        final(bytes)@ == match r {
            Ok(SetAction::IpOptions) => options_value(*v)->Ok_0,
            _ => old(bytes)@,
        },
        final(sources)@ == match r {
            Ok(SetAction::SourceFilter(_, _)) => filter_sources(optname, *v),
            _ => old(sources)@,
        },
{
    if optname == IP_OPTIONS && f.kind == SocketKind::Raw {
        return match read_ipv4_options(v) {
            Ok(options) => {
                *bytes = options;
                Ok(SetAction::IpOptions)
            },
            Err(e) => Err(e),
        };
    }
    if optname == IP_MULTICAST_IF {
        return match read_ipv4_multicast_if(v) {
            Ok(m) => Ok(SetAction::MulticastIf(m.0, m.1)),
            Err(e) => Err(e),
        };
    }
    if optname == IP_PKTINFO || optname == IP_MTU_DISCOVER || optname == IP_RECVERR || optname
        == IP_RECVTTL || optname == IP_RECVTOS || optname == IP_TOS || optname == IP_TTL || optname
        == IP_MULTICAST_TTL || optname == IP_MULTICAST_LOOP || (f.kind == SocketKind::Raw
        && optname == IP_HDRINCL) {
        return match read_sockopt_int(v) {
            Ok(val) => set_ip_number(f, optname, v.len, val),
            Err(e) => Err(e),
        };
    }
    set_group(optname, v, sources)
}

// ---------------------------------------------------------------------------
// The call.
// ---------------------------------------------------------------------------

/// Attaching a program: the value is its descriptor.
pub open spec fn bpf_action(f: SetFacts, v: OptVal) -> Result<SetAction, isize> {
    if f.kind == SocketKind::NotSocket {
        Err(ENOTSOCK)
    } else if v.len != 4 {
        Err(EINVAL)
    } else if unreadable(v, 4) {
        Err(EFAULT)
    } else if !f.prog_found {
        Err(EBADF)
    } else if f.kind == SocketKind::Netlink || f.kind == SocketKind::Vsock {
        Err(ENOPROTOOPT)
    } else {
        Ok(SetAction::AttachBpf(le32(v.mem@, 0) as u32))
    }
}

/// What a call asks of the socket.
pub open spec fn set_action(f: SetFacts, level: usize, optname: usize, v: OptVal) -> Result<
    SetAction,
    isize,
> {
    if level == SOL_SOCKET && optname == SO_ATTACH_BPF {
        bpf_action(f, v)
    } else {
        match f.kind {
            SocketKind::Netlink => netlink_action(f, level, optname, v),
            SocketKind::Vsock => vsock_action(level, optname, v),
            SocketKind::Packet => if level == SOL_SOCKET {
                socket_action(f, optname, v)
            } else if level == SOL_PACKET {
                packet_action(f, optname, v)
            } else {
                Err(ENOPROTOOPT)
            },
            SocketKind::Raw => if level == SOL_SOCKET {
                socket_action(f, optname, v)
            } else if level == SOL_IP {
                ip_action(f, optname, v)
            } else {
                Err(ENOPROTOOPT)
            },
            SocketKind::Unix | SocketKind::Pair => if level == SOL_SOCKET {
                socket_action(f, optname, v)
            } else {
                Err(ENOPROTOOPT)
            },
            SocketKind::Net => if level == SOL_TCP {
                tcp_action(optname, v)
            } else if level == SOL_UDPLITE {
                match int4_value(v) {
                    Ok(val) => Ok(SetAction::UdpliteCoverage(optname, val)),
                    Err(e) => Err(e),
                }
            } else if level == SOL_SOCKET {
                socket_action(f, optname, v)
            } else if level == SOL_IP {
                ip_action(f, optname, v)
            } else {
                Err(ENOPROTOOPT)
            },
            SocketKind::NotSocket => Err(ENOTSOCK),
        }
    }
}

/// The bytes that go with an action.
pub open spec fn action_bytes(a: Result<SetAction, isize>, v: OptVal) -> Seq<u8> {
    match a {
        Ok(SetAction::BindDevice) => ifname_value(v)->Ok_0,
        Ok(SetAction::IpOptions) => options_value(v)->Ok_0,
        _ => Seq::empty(),
    }
}

/// The sources that go with an action.
pub open spec fn action_sources(a: Result<SetAction, isize>, optname: usize, v: OptVal) -> Seq<
    u32,
> {
    match a {
        Ok(SetAction::SourceFilter(_, _)) => filter_sources(optname, v),
        _ => Seq::empty(),
    }
}

fn set_bpf(f: &SetFacts, v: &OptVal) -> (r: Result<SetAction, isize>)
    ensures
        r == bpf_action(*f, *v),
{
    if f.kind == SocketKind::NotSocket {
        return Err(ENOTSOCK);
    }
    if v.len != 4 {
        return Err(EINVAL);
    }
    if v.ptr == 0 || v.mem.len() < 4 {
        return Err(EFAULT);
    }
    if !f.prog_found {
        return Err(EBADF);
    }
    if f.kind == SocketKind::Netlink || f.kind == SocketKind::Vsock {
        return Err(ENOPROTOOPT);
    }
    Ok(SetAction::AttachBpf(read_le32(v.mem.as_slice(), 0)))
}

/// Decides on a request to set an option.
pub fn syscall_setsockopt(f: &SetFacts, level: usize, optname: usize, v: &OptVal) -> (r: SetOutcome)
    ensures
        r.action == set_action(*f, level, optname, *v),
        r.bytes@ == action_bytes(r.action, *v),
        r.sources@ == action_sources(r.action, optname, *v),
{
    let mut bytes: Vec<u8> = Vec::new();
    let mut sources: Vec<u32> = Vec::new();
    assert(bytes@ =~= Seq::<u8>::empty());
    assert(sources@ =~= Seq::<u32>::empty());
    let action = if level == SOL_SOCKET && optname == SO_ATTACH_BPF {
        set_bpf(f, v)
    } else {
        match f.kind {
            SocketKind::Netlink => setsockopt_netlink(f, level, optname, v, &mut bytes),
            SocketKind::Vsock => setsockopt_vsock(level, optname, v),
            SocketKind::Packet => if level == SOL_SOCKET {
                set_socket_level(f, optname, v, &mut bytes)
            } else if level == SOL_PACKET {
                set_packet_level(f, optname, v)
            } else {
                Err(ENOPROTOOPT)
            },
            SocketKind::Raw => if level == SOL_SOCKET {
                set_socket_level(f, optname, v, &mut bytes)
            } else if level == SOL_IP {
                set_ip_level(f, optname, v, &mut bytes, &mut sources)
            } else {
                Err(ENOPROTOOPT)
            },
            SocketKind::Unix | SocketKind::Pair => if level == SOL_SOCKET {
                set_socket_level(f, optname, v, &mut bytes)
            } else {
                Err(ENOPROTOOPT)
            },
            SocketKind::Net => if level == SOL_TCP {
                set_tcp_level(optname, v)
            } else if level == SOL_UDPLITE {
                match read_int4(v) {
                    Ok(val) => Ok(SetAction::UdpliteCoverage(optname, val)),
                    Err(e) => Err(e),
                }
            } else if level == SOL_SOCKET {
                set_socket_level(f, optname, v, &mut bytes)
            } else if level == SOL_IP {
                set_ip_level(f, optname, v, &mut bytes, &mut sources)
            } else {
                Err(ENOPROTOOPT)
            },
            SocketKind::NotSocket => Err(ENOTSOCK),
        }
    };
    SetOutcome { action, bytes, sources }
}

/// Without capabilities no request forces a buffer size, sets a mark or raises
/// the priority.
pub proof fn law_privileged_settings(f: SetFacts, level: usize, optname: usize, v: OptVal)
    requires
        f.caps == 0,
    ensures
        match set_action(f, level, optname, v) {
            Ok(SetAction::Mark(_)) => false,
            Ok(SetAction::Priority(p)) => p <= 6,
            Ok(SetAction::SndBuf(n)) => n <= 2 * crate::net::optval::SOCKBUF_MAX,
            Ok(SetAction::RcvBuf(n)) => n <= 2 * crate::net::optval::SOCKBUF_MAX,
            _ => true,
        },
{
    assert(0u64 & (1u64 << 12u64) == 0u64 && 0u64 & (1u64 << 13u64) == 0u64) by (bit_vector);
}

} // verus!
