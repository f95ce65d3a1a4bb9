//! What each socket option means, by its number.

use vstd::prelude::*;
use crate::bytes::{be32_bytes, le32, le32_bytes, le64, le64_bytes};
use crate::errno::{
    EACCES, EBADF, EDOM, EFAULT, EINVAL, ENODEV, ENOPROTOOPT, ENOTCONN, ENOTSOCK, EOPNOTSUPP, EPERM,
};
use crate::net::getsockopt::{
    applied, early_error, get_reply, lemma_flag_is_kept, linger_bytes, listed, msfilter_bytes,
    plain_sources, taken, timeval_bytes, GetFacts, NetKind, Reply, SocketSettings,
};
use crate::net::optval::{
    capable, exact_int_value, ifname_value, int4_value, int_value, options_value, timeval_ms,
    timeval_value, FilterHead, OptVal, SourceFilterMode, TimestampMode,
};
use crate::net::setsockopt::{filter_sources, set_action, SetAction, SetFacts, SockFlag, SocketKind};

verus! {

/// The four bytes of a number, the lowest first.
pub open spec fn word(n: int) -> Seq<u8> {
    seq![
        (n % 256) as u8,
        (n / 256 % 256) as u8,
        (n / 65536 % 256) as u8,
        (n / 16777216 % 256) as u8,
    ]
}

/// One for a setting that is on.
pub open spec fn on_off(b: bool) -> Seq<u8> {
    seq![
        if b {
            1u8
        } else {
            0u8
        },
        0u8,
        0u8,
        0u8,
    ]
}

/// The reply shows a value, as far as there is room, and tells its length.
pub open spec fn shows(r: Result<Reply, isize>, value: Seq<u8>, v: OptVal) -> bool {
    r matches Ok(x) && x.len == value.len() && x.bytes == value.take(
        if value.len() < v.len {
            value.len() as int
        } else {
            v.len as int
        },
    )
}

proof fn lemma_word(n: u32)
    ensures
        le32_bytes(n) =~= word(n as int),
        le32_bytes(n).len() == 4,
        le32_bytes(0u32) =~= on_off(false),
        le32_bytes(1u32) =~= on_off(true),
{
}

proof fn lemma_whole(value: Seq<u8>)
    ensures
        value.take(value.len() as int) =~= value,
{
}

/// The kinds that share the options of the socket level.
pub open spec fn plain_kind(kind: SocketKind) -> bool {
    kind != SocketKind::Vsock && kind != SocketKind::NotSocket
}

/// The kinds that send packets over devices.
pub open spec fn device_kind(kind: SocketKind) -> bool {
    kind == SocketKind::Packet || kind == SocketKind::Raw || kind == SocketKind::Net
}

/// The kinds that stay on the machine.
pub open spec fn local_kind(kind: SocketKind) -> bool {
    kind == SocketKind::Unix || kind == SocketKind::Pair
}

/// Option 3 tells the type of a socket: 2 for UDP, 1 for a TCP connection or a TCP
/// socket that listens.
pub proof fn law_types_of_network_sockets(s: SocketSettings, g: GetFacts, v: OptVal)
    requires
        s.kind == SocketKind::Net,
    ensures
        s.ident.net_kind == NetKind::Udp ==> shows(get_reply(s, g, 1, 3, v), word(2), v),
        s.ident.net_kind == NetKind::TcpStream ==> shows(get_reply(s, g, 1, 3, v), word(1), v),
        s.ident.net_kind == NetKind::TcpListener ==> shows(get_reply(s, g, 1, 3, v), word(1), v),
{
    lemma_word(1);
    lemma_word(2);
    lemma_whole(word(1));
    lemma_whole(word(2));
}

/// Other sockets tell the type that they were made with.
pub proof fn law_types_of_other_sockets(s: SocketSettings, g: GetFacts, v: OptVal)
    requires
        s.kind != SocketKind::Net,
        s.kind != SocketKind::NotSocket,
    ensures
        shows(get_reply(s, g, 1, 3, v), word(s.ident.sock_type as int), v),
{
    lemma_word(s.ident.sock_type);
    lemma_whole(word(s.ident.sock_type as int));
}

/// Option 39 tells the family: 1 for local sockets, 2 for raw IPv4, 16 for netlink,
/// 17 for packet sockets, 40 between virtual machines, and the one of its own for
/// a network socket.
pub proof fn law_families(s: SocketSettings, g: GetFacts, v: OptVal)
    requires
        s.kind != SocketKind::NotSocket,
    ensures
        ({
            let r = get_reply(s, g, 1, 39, v);
            &&& s.kind == SocketKind::Netlink ==> shows(r, word(16), v)
            &&& s.kind == SocketKind::Vsock ==> shows(r, word(40), v)
            &&& s.kind == SocketKind::Packet ==> shows(r, word(17), v)
            &&& s.kind == SocketKind::Raw ==> shows(r, word(2), v)
            &&& local_kind(s.kind) ==> shows(r, word(1), v)
            &&& s.kind == SocketKind::Net ==> shows(r, word(s.ident.domain as int), v)
        }),
{
    lemma_word(16);
    lemma_word(40);
    lemma_word(17);
    lemma_word(2);
    lemma_word(1);
    lemma_word(s.ident.domain);
    lemma_whole(word(16));
    lemma_whole(word(40));
    lemma_whole(word(17));
    lemma_whole(word(2));
    lemma_whole(word(1));
    lemma_whole(word(s.ident.domain as int));
}

/// Option 30 tells whether a socket listens, and option 38 its protocol.
pub proof fn law_listening_and_protocol(s: SocketSettings, g: GetFacts, v: OptVal)
    requires
        s.kind != SocketKind::NotSocket,
    ensures
        shows(
            get_reply(s, g, 1, 30, v),
            on_off(
                (s.kind == SocketKind::Unix && s.ident.listening) || (s.kind == SocketKind::Net
                    && s.ident.net_kind == NetKind::TcpListener),
            ),
            v,
        ),
        device_kind(s.kind) || s.kind == SocketKind::Vsock ==> shows(
            get_reply(s, g, 1, 38, v),
            word(s.ident.protocol as int),
            v,
        ),
        local_kind(s.kind) || s.kind == SocketKind::Netlink ==> shows(
            get_reply(s, g, 1, 38, v),
            word(0),
            v,
        ),
{
    lemma_word(0);
    lemma_word(1);
    lemma_word(s.ident.protocol);
    lemma_whole(on_off(true));
    lemma_whole(on_off(false));
    lemma_whole(word(0));
    lemma_whole(word(s.ident.protocol as int));
}

/// The switches of the socket level, by number.
pub proof fn law_switches_are_shown(s: SocketSettings, g: GetFacts, v: OptVal)
    requires
        plain_kind(s.kind),
    ensures
        shows(get_reply(s, g, 1, 2, v), on_off(s.base.reuseaddr), v),
        shows(get_reply(s, g, 1, 5, v), on_off(s.base.dontroute), v),
        shows(get_reply(s, g, 1, 6, v), on_off(s.base.broadcast), v),
        shows(get_reply(s, g, 1, 9, v), on_off(s.base.keepalive), v),
        shows(get_reply(s, g, 1, 10, v), on_off(s.base.oobinline), v),
        shows(get_reply(s, g, 1, 14, v), on_off(false), v),
        shows(get_reply(s, g, 1, 15, v), on_off(false), v),
        shows(get_reply(s, g, 1, 19, v), on_off(true), v),
{
    lemma_word(0);
    lemma_whole(on_off(true));
    lemma_whole(on_off(false));
}

/// The switches that only some kinds have.
pub proof fn law_special_switches_are_shown(s: SocketSettings, g: GetFacts, v: OptVal)
    ensures
        s.kind == SocketKind::Net ==> shows(get_reply(s, g, 1, 11, v), on_off(s.base.no_check), v),
        local_kind(s.kind) ==> shows(get_reply(s, g, 1, 16, v), on_off(s.base.passcred), v),
        device_kind(s.kind) || local_kind(s.kind) ==> shows(
            get_reply(s, g, 1, 44, v),
            on_off(s.base.filter_locked),
            v,
        ),
        device_kind(s.kind) ==> shows(get_reply(s, g, 1, 75, v), on_off(s.base.rcvmark), v),
        device_kind(s.kind) ==> shows(get_reply(s, g, 1, 82, v), on_off(s.base.rcvpriority), v),
{
    lemma_word(0);
    lemma_whole(on_off(true));
    lemma_whole(on_off(false));
}

/// The four ways to report arrival times: each option tells whether its own is on.
pub proof fn law_arrival_times_are_shown(s: SocketSettings, g: GetFacts, v: OptVal)
    requires
        device_kind(s.kind),
    ensures
        shows(get_reply(s, g, 1, 29, v), on_off(s.base.timestamp == TimestampMode::TimevalOld), v),
        shows(get_reply(s, g, 1, 35, v), on_off(s.base.timestamp == TimestampMode::TimespecOld), v),
        shows(get_reply(s, g, 1, 63, v), on_off(s.base.timestamp == TimestampMode::TimevalNew), v),
        shows(get_reply(s, g, 1, 64, v), on_off(s.base.timestamp == TimestampMode::TimespecNew), v),
{
    lemma_word(0);
    lemma_whole(on_off(true));
    lemma_whole(on_off(false));
}

/// The numbers of the socket level: the pending error, sizes of buffers, the least
/// that is worth waking for, priority, mark, and how long to poll.
pub proof fn law_numbers_are_shown(s: SocketSettings, g: GetFacts, v: OptVal)
    requires
        plain_kind(s.kind),
    ensures
        shows(get_reply(s, g, 1, 4, v), word(s.error as int), v),
        !local_kind(s.kind) ==> shows(get_reply(s, g, 1, 7, v), word(s.base.sndbuf as int), v),
        !local_kind(s.kind) ==> shows(get_reply(s, g, 1, 8, v), word(s.base.rcvbuf as int), v),
        device_kind(s.kind) ==> shows(get_reply(s, g, 1, 12, v), word(s.base.priority as int), v),
        device_kind(s.kind) ==> shows(get_reply(s, g, 1, 36, v), word(s.base.mark as int), v),
        s.base.rcvlowat >= 0 ==> shows(
            get_reply(s, g, 1, 18, v),
            word(s.base.rcvlowat as int),
            v,
        ),
        s.kind == SocketKind::Net ==> shows(
            get_reply(s, g, 1, 46, v),
            word(s.base.busy_poll as int),
            v,
        ),
{
    lemma_word(s.error);
    lemma_word(s.base.sndbuf);
    lemma_word(s.base.rcvbuf);
    lemma_word(s.base.priority);
    lemma_word(s.base.mark);
    lemma_word(s.base.rcvlowat as u32);
    lemma_word(s.base.busy_poll);
    lemma_whole(word(s.error as int));
    lemma_whole(word(s.base.sndbuf as int));
    lemma_whole(word(s.base.rcvbuf as int));
    lemma_whole(word(s.base.priority as int));
    lemma_whole(word(s.base.mark as int));
    lemma_whole(word(s.base.rcvlowat as int));
    lemma_whole(word(s.base.busy_poll as int));
}

/// Eight bytes of a number, the lowest first.
pub open spec fn long_word(n: int) -> Seq<u8> {
    word(n % 0x1_0000_0000) + word(n / 0x1_0000_0000)
}

/// A time of so many milliseconds, in seconds and microseconds; zero for none.
pub open spec fn time_of(t: Option<u64>) -> Seq<u8> {
    match t {
        Some(ms) => long_word(ms as int / 1000) + long_word(ms as int % 1000 * 1000),
        None => long_word(0) + long_word(0),
    }
}

proof fn lemma_long(n: u64)
    ensures
        le64_bytes(n) =~= long_word(n as int),
        long_word(n as int).len() == 8,
{
    lemma_word((n % 0x1_0000_0000) as u32);
    lemma_word((n / 0x1_0000_0000) as u32);
}

proof fn lemma_time(t: Option<u64>)
    ensures
        timeval_bytes(t) =~= time_of(t),
        time_of(t).len() == 16,
{
    let ms: u64 = match t {
        Some(n) => n,
        None => 0,
    };
    lemma_long((ms / 1000) as u64);
    lemma_long(((ms % 1000) * 1000) as u64);
    lemma_long(0);
}

/// Lingering and timeouts: the former as a switch and seconds, the latter as seconds
/// and microseconds, under the old and the new number.
pub proof fn law_times_are_shown(s: SocketSettings, g: GetFacts, v: OptVal)
    requires
        plain_kind(s.kind),
    ensures
        s.base.linger_sec >= 0 ==> shows(
            get_reply(s, g, 1, 13, v),
            on_off(s.base.linger_on) + word(s.base.linger_sec as int),
            v,
        ),
        shows(get_reply(s, g, 1, 20, v), time_of(s.base.rcvtimeo), v),
        shows(get_reply(s, g, 1, 66, v), time_of(s.base.rcvtimeo), v),
        shows(get_reply(s, g, 1, 21, v), time_of(s.base.sndtimeo), v),
        shows(get_reply(s, g, 1, 67, v), time_of(s.base.sndtimeo), v),
{
    lemma_time(s.base.rcvtimeo);
    lemma_time(s.base.sndtimeo);
    lemma_whole(time_of(s.base.rcvtimeo));
    lemma_whole(time_of(s.base.sndtimeo));
    lemma_word(s.base.linger_sec as u32);
    lemma_word(0);
    let l = on_off(s.base.linger_on) + word(s.base.linger_sec as int);
    if s.base.linger_sec >= 0 {
        assert(linger_bytes(s.base.linger_on, s.base.linger_sec) =~= l);
        lemma_whole(l);
    }
}

/// The other end of a local connection: process, user and group; without one there
/// is no answer.
pub proof fn law_peers_are_shown(s: SocketSettings, g: GetFacts, v: OptVal)
    requires
        local_kind(s.kind),
    ensures
        match s.ident.peer_cred {
            None => get_reply(s, g, 1, 17, v) == Err::<Reply, isize>(ENOTCONN),
            Some(c) => c.pid >= 0 ==> shows(
                get_reply(s, g, 1, 17, v),
                word(c.pid as int) + word(c.uid as int) + word(c.gid as int),
                v,
            ),
        },
{
    if let Some(c) = s.ident.peer_cred {
        lemma_word(c.pid as u32);
        lemma_word(c.uid);
        lemma_word(c.gid);
        lemma_whole(word(c.pid as int) + word(c.uid as int) + word(c.gid as int));
    }
}

/// The options of the IP level, by number.
pub proof fn law_ip_options_are_shown(s: SocketSettings, g: GetFacts, v: OptVal)
    requires
        s.kind == SocketKind::Raw || s.kind == SocketKind::Net,
    ensures
        shows(get_reply(s, g, 0, 1, v), word(s.ip.tos as int), v),
        s.ip.ttl >= 0 ==> shows(get_reply(s, g, 0, 2, v), word(s.ip.ttl as int), v),
        shows(get_reply(s, g, 0, 8, v), on_off(s.ip.pktinfo), v),
        s.ip.mtu_discover >= 0 ==> shows(
            get_reply(s, g, 0, 10, v),
            word(s.ip.mtu_discover as int),
            v,
        ),
        shows(get_reply(s, g, 0, 11, v), on_off(s.ip.recverr), v),
        shows(get_reply(s, g, 0, 12, v), on_off(s.ip.recvttl), v),
        shows(get_reply(s, g, 0, 13, v), on_off(s.ip.recvtos), v),
        shows(get_reply(s, g, 0, 33, v), word(s.ip.multicast_ttl as int), v),
        shows(get_reply(s, g, 0, 34, v), on_off(s.ip.multicast_loop), v),
{
    lemma_word(s.ip.tos);
    lemma_word(s.ip.ttl as u32);
    lemma_word(s.ip.mtu_discover as u32);
    lemma_word(s.ip.multicast_ttl as u32);
    lemma_whole(word(s.ip.tos as int));
    lemma_whole(word(s.ip.ttl as int));
    lemma_whole(word(s.ip.mtu_discover as int));
    lemma_whole(word(s.ip.multicast_ttl as int));
    lemma_whole(on_off(true));
    lemma_whole(on_off(false));
}

/// More options of the IP level: whole headers and header options on raw sockets,
/// the size of packets to a connected peer, and the address that multicast packets
/// leave from.
pub proof fn law_more_ip_options_are_shown(s: SocketSettings, g: GetFacts, v: OptVal)
    requires
        s.kind == SocketKind::Raw || s.kind == SocketKind::Net,
    ensures
        s.kind == SocketKind::Raw ==> shows(get_reply(s, g, 0, 3, v), on_off(s.ip.hdrincl), v),
        s.kind == SocketKind::Raw ==> shows(get_reply(s, g, 0, 4, v), g.ip_options@, v),
        s.kind == SocketKind::Net ==> get_reply(s, g, 0, 3, v) == Err::<Reply, isize>(ENOPROTOOPT)
            && get_reply(s, g, 0, 4, v) == Err::<Reply, isize>(ENOPROTOOPT),
        match s.ip.path_mtu {
            Some(m) => shows(get_reply(s, g, 0, 14, v), word(m as int), v),
            None => get_reply(s, g, 0, 14, v) == Err::<Reply, isize>(ENOTCONN),
        },
        shows(get_reply(s, g, 0, 32, v), word(s.ip.multicast_if as int).reverse(), v),
{
    lemma_word(0);
    if let Some(m) = s.ip.path_mtu {
        lemma_word(m);
        lemma_whole(word(m as int));
    }
    lemma_whole(on_off(true));
    lemma_whole(on_off(false));
    lemma_whole(g.ip_options@);
    let w = word(s.ip.multicast_if as int).reverse();
    assert(crate::bytes::be32_bytes(s.ip.multicast_if) =~= w);
    lemma_whole(w);
}

/// The options of TCP and of UDP-Lite, by number: what the transport says is shown.
pub proof fn law_transport_options_are_shown(s: SocketSettings, g: GetFacts, v: OptVal)
    requires
        s.kind == SocketKind::Net,
    ensures
        s.tcp.tcp_nodelay matches Ok(b) ==> shows(get_reply(s, g, 6, 1, v), on_off(b), v),
        s.tcp.tcp_cork matches Ok(b) ==> shows(get_reply(s, g, 6, 3, v), on_off(b), v),
        s.tcp.tcp_keepidle matches Ok(n) ==> shows(get_reply(s, g, 6, 4, v), word(n as int), v),
        s.tcp.tcp_keepintvl matches Ok(n) ==> shows(get_reply(s, g, 6, 5, v), word(n as int), v),
        s.tcp.tcp_keepcnt matches Ok(n) ==> shows(get_reply(s, g, 6, 6, v), word(n as int), v),
        s.tcp.udplite_send matches Ok(n) ==> shows(get_reply(s, g, 136, 10, v), word(n as int), v),
        s.tcp.udplite_recv matches Ok(n) ==> shows(get_reply(s, g, 136, 11, v), word(n as int), v),
        s.tcp.tcp_nodelay matches Err(e) ==> get_reply(s, g, 6, 1, v) == Err::<Reply, isize>(e),
        s.tcp.tcp_cork matches Err(e) ==> get_reply(s, g, 6, 3, v) == Err::<Reply, isize>(e),
        s.tcp.tcp_keepidle matches Err(e) ==> get_reply(s, g, 6, 4, v) == Err::<Reply, isize>(e),
        s.tcp.tcp_keepintvl matches Err(e) ==> get_reply(s, g, 6, 5, v) == Err::<Reply, isize>(e),
        s.tcp.tcp_keepcnt matches Err(e) ==> get_reply(s, g, 6, 6, v) == Err::<Reply, isize>(e),
        s.tcp.udplite_send matches Err(e) ==> get_reply(s, g, 136, 10, v) == Err::<Reply, isize>(e),
        s.tcp.udplite_recv matches Err(e) ==> get_reply(s, g, 136, 11, v) == Err::<Reply, isize>(e),
{
    lemma_word(0);
    lemma_whole(on_off(true));
    lemma_whole(on_off(false));
    if let Ok(n) = s.tcp.tcp_keepidle {
        lemma_word(n);
        lemma_whole(word(n as int));
    }
    if let Ok(n) = s.tcp.tcp_keepintvl {
        lemma_word(n);
        lemma_whole(word(n as int));
    }
    if let Ok(n) = s.tcp.tcp_keepcnt {
        lemma_word(n);
        lemma_whole(word(n as int));
    }
    if let Ok(n) = s.tcp.udplite_send {
        lemma_word(n);
        lemma_whole(word(n as int));
    }
    if let Ok(n) = s.tcp.udplite_recv {
        lemma_word(n);
        lemma_whole(word(n as int));
    }
}

/// The options of packet sockets, by number.
pub proof fn law_packet_options_are_shown(s: SocketSettings, g: GetFacts, v: OptVal)
    requires
        s.kind == SocketKind::Packet,
    ensures
        shows(get_reply(s, g, 263, 8, v), on_off(s.packet.auxdata), v),
        shows(get_reply(s, g, 263, 9, v), on_off(s.packet.origdev), v),
        s.packet.packet_version >= 0 ==> shows(
            get_reply(s, g, 263, 10, v),
            word(s.packet.packet_version as int),
            v,
        ),
        shows(get_reply(s, g, 263, 12, v), word(s.packet.packet_reserve as int), v),
        s.packet.copy_thresh >= 0 ==> shows(
            get_reply(s, g, 263, 7, v),
            word(s.packet.copy_thresh as int),
            v,
        ),
        shows(get_reply(s, g, 263, 15, v), on_off(s.packet.vnet_hdr), v),
        shows(
            get_reply(s, g, 263, 24, v),
            word(
                if s.packet.vnet_hdr {
                    10
                } else {
                    0
                },
            ),
            v,
        ),
        shows(get_reply(s, g, 263, 18, v), word(s.packet.fanout as int), v),
        shows(get_reply(s, g, 263, 20, v), on_off(s.packet.qdisc_bypass), v),
        shows(get_reply(s, g, 263, 23, v), on_off(s.packet.ignore_outgoing), v),
{
    lemma_word(10);
    lemma_word(0);
    lemma_word(s.packet.packet_version as u32);
    lemma_word(s.packet.packet_reserve);
    lemma_word(s.packet.copy_thresh as u32);
    lemma_word(s.packet.fanout);
    lemma_whole(word(10));
    lemma_whole(word(0));
    lemma_whole(word(s.packet.packet_version as int));
    lemma_whole(word(s.packet.packet_reserve as int));
    lemma_whole(word(s.packet.copy_thresh as int));
    lemma_whole(word(s.packet.fanout as int));
    lemma_whole(on_off(true));
    lemma_whole(on_off(false));
}

/// The counters of a packet socket are shown, and start again at zero.
pub proof fn law_counters_are_taken(s: SocketSettings, g: GetFacts, v: OptVal)
    requires
        s.kind == SocketKind::Packet,
    ensures
        shows(
            get_reply(s, g, 263, 6, v),
            word(s.packet.stat_packets as int) + word(s.packet.stat_drops as int) + (
            if s.packet.stats_v3 {
                word(0)
            } else {
                Seq::empty()
            }),
            v,
        ),
        taken(s, 263, 6).packet.stat_packets == 0,
        taken(s, 263, 6).packet.stat_drops == 0,
        taken(s, 263, 6).base == s.base,
{
    lemma_word(s.packet.stat_packets);
    lemma_word(s.packet.stat_drops);
    lemma_word(0);
    let w = word(s.packet.stat_packets as int) + word(s.packet.stat_drops as int) + (
    if s.packet.stats_v3 {
        word(0)
    } else {
        Seq::empty()
    });
    assert(crate::net::getsockopt::stats_bytes(s) =~= w);
    lemma_whole(w);
}

/// Nothing else is changed by reading, but a pending error is taken.
pub proof fn law_reading_changes_nothing_else(s: SocketSettings, level: usize, optname: usize)
    ensures
        !(level == 1 && optname == 4) && !(level == 263 && optname == 6) ==> taken(
            s,
            level,
            optname,
        ) == s,
        plain_kind(s.kind) ==> taken(s, 1, 4) == (SocketSettings { error: 0, ..s }),
{
}

/// The options of sockets between virtual machines, at both of their levels.
pub proof fn law_vsock_options_are_shown(s: SocketSettings, g: GetFacts, v: OptVal, level: usize)
    requires
        s.kind == SocketKind::Vsock,
        level == 40 || level == 287,
    ensures
        shows(get_reply(s, g, level, 0, v), long_word(s.vsock.vsock_size as int), v),
        shows(get_reply(s, g, level, 1, v), long_word(s.vsock.vsock_min as int), v),
        shows(get_reply(s, g, level, 2, v), long_word(s.vsock.vsock_max as int), v),
        shows(get_reply(s, g, level, 6, v), time_of(s.vsock.vsock_timeout), v),
        shows(get_reply(s, g, level, 8, v), time_of(s.vsock.vsock_timeout), v),
{
    lemma_long(s.vsock.vsock_size);
    lemma_long(s.vsock.vsock_min);
    lemma_long(s.vsock.vsock_max);
    lemma_time(s.vsock.vsock_timeout);
    lemma_whole(long_word(s.vsock.vsock_size as int));
    lemma_whole(long_word(s.vsock.vsock_min as int));
    lemma_whole(long_word(s.vsock.vsock_max as int));
    lemma_whole(time_of(s.vsock.vsock_timeout));
}

/// Levels that a socket does not have, and descriptors that are no sockets.
pub proof fn law_unknown_levels(s: SocketSettings, g: GetFacts, v: OptVal, level: usize, o: usize)
    ensures
        s.kind == SocketKind::NotSocket ==> get_reply(s, g, level, o, v) == Err::<Reply, isize>(
            ENOTSOCK,
        ),
        s.kind == SocketKind::Unix && (level == 0 || level == 6) ==> get_reply(s, g, level, o, v)
            == Err::<Reply, isize>(ENOPROTOOPT),
        s.kind == SocketKind::Unix && level != 0 && level != 1 && level != 6 ==> get_reply(
            s,
            g,
            level,
            o,
            v,
        ) == Err::<Reply, isize>(EOPNOTSUPP),
        s.kind == SocketKind::Pair && level != 1 ==> get_reply(s, g, level, o, v) == Err::<
            Reply,
            isize,
        >(EOPNOTSUPP),
        s.kind == SocketKind::Packet && level != 1 && level != 263 ==> get_reply(s, g, level, o, v)
            == Err::<Reply, isize>(ENOPROTOOPT),
        s.kind == SocketKind::Netlink && level != 1 && level != 270 ==> get_reply(s, g, level, o, v)
            == Err::<Reply, isize>(ENOPROTOOPT),
        s.kind == SocketKind::Raw && (level == 6 || level == 17) ==> get_reply(s, g, level, o, v)
            == Err::<Reply, isize>(ENOPROTOOPT),
        s.kind == SocketKind::Net && level != 0 && level != 1 && level != 6 && level != 136
            ==> get_reply(s, g, level, o, v) == Err::<Reply, isize>(EOPNOTSUPP),
{
}

/// A request to read is refused without a place for the length, without a place for
/// the value, with a length that is zero or negative, or on no file.
pub proof fn law_refused_readings(
    optlen_ptr: usize,
    optlen_read: bool,
    file: Result<(), isize>,
    level: usize,
    o: usize,
    v: OptVal,
)
    requires
        !(level == 1 && o == 26),
    ensures
        ({
            let e = early_error(optlen_ptr, optlen_read, file, level, o, v);
            &&& optlen_ptr == 0 || !optlen_read || v.ptr == 0 ==> e == Some(EFAULT)
            &&& optlen_ptr != 0 && optlen_read && v.ptr != 0 && (v.len == 0 || v.len > 0x7fff_ffff)
                ==> e == Some(EINVAL)
            &&& optlen_ptr != 0 && optlen_read && v.ptr != 0 && 0 < v.len <= 0x7fff_ffff ==> e
                == match file {
                Err(x) => Some(x),
                Ok(_) => None,
            }
        }),
{
}

// ---------------------------------------------------------------------------
// Setting.
// ---------------------------------------------------------------------------

/// The value is a number of four bytes that can be read.
pub open spec fn holds(v: OptVal, x: i32) -> bool {
    &&& v.len >= 4
    &&& v.ptr != 0
    &&& v.mem@.len() >= 4
    &&& v.mem@[0] + 256 * v.mem@[1] + 65536 * v.mem@[2] + 16777216 * v.mem@[3] == if x >= 0 {
        x as int
    } else {
        x + 0x1_0000_0000
    }
}

proof fn lemma_sign(u: u32)
    ensures
        u < 0x8000_0000 ==> (u as i32) == u,
        u >= 0x8000_0000 ==> (u as i32) == u - 0x1_0000_0000,
{
    assert(u >= 0x8000_0000u32 ==> (u as i32) as i64 == u as i64 - 0x1_0000_0000i64)
        by (bit_vector);
}

proof fn lemma_holds(v: OptVal, x: i32)
    requires
        holds(v, x),
    ensures
        int_value(v) == Ok::<i32, isize>(x),
        int4_value(v) == Ok::<i32, isize>(x),
        v.len == 4 ==> exact_int_value(v) == Ok::<i32, isize>(x),
{
    lemma_sign(le32(v.mem@, 0) as u32);
}

/// The value cannot be a number: too short, or not to be read.
pub proof fn law_values_that_are_no_numbers(f: SetFacts, o: usize, w: OptVal)
    requires
        plain_kind(f.kind),
        o == 2 || o == 5 || o == 6 || o == 9 || o == 10 || o == 18,
    ensures
        w.len < 4 ==> set_action(f, 1, o, w) == Err::<SetAction, isize>(EINVAL),
        w.len >= 4 && (w.ptr == 0 || w.mem@.len() < 4) ==> set_action(f, 1, o, w) == Err::<
            SetAction,
            isize,
        >(EFAULT),
{
}

/// A switch of the socket level and of the IP level, by level and number.
pub open spec fn switch(level: usize, o: usize) -> SockFlag {
    if level == 1 {
        if o == 2 {
            SockFlag::ReuseAddr
        } else if o == 5 {
            SockFlag::DontRoute
        } else if o == 6 {
            SockFlag::Broadcast
        } else if o == 9 {
            SockFlag::KeepAlive
        } else if o == 10 {
            SockFlag::OobInline
        } else if o == 11 {
            SockFlag::NoCheck
        } else if o == 16 {
            SockFlag::PassCred
        } else if o == 75 {
            SockFlag::RcvMark
        } else {
            SockFlag::RcvPriority
        }
    } else if o == 3 {
        SockFlag::HdrIncl
    } else if o == 8 {
        SockFlag::Pktinfo
    } else if o == 11 {
        SockFlag::Recverr
    } else if o == 12 {
        SockFlag::Recvttl
    } else if o == 13 {
        SockFlag::Recvtos
    } else {
        SockFlag::MulticastLoop
    }
}

/// The kinds that have a switch.
pub open spec fn has_switch(kind: SocketKind, level: usize, o: usize) -> bool {
    ||| level == 1 && plain_kind(kind) && (o == 2 || o == 5 || o == 6 || o == 9 || o == 10)
    ||| level == 1 && kind == SocketKind::Net && o == 11
    ||| level == 1 && local_kind(kind) && o == 16
    ||| level == 1 && device_kind(kind) && (o == 75 || o == 82)
    ||| level == 0 && (kind == SocketKind::Raw || kind == SocketKind::Net) && (o == 8 || o == 11
        || o == 12 || o == 13 || o == 34)
    ||| level == 0 && kind == SocketKind::Raw && o == 3
}

proof fn lemma_switch_set(f: SetFacts, level: usize, o: usize, w: OptVal, x: i32)
    requires
        holds(w, x),
        has_switch(f.kind, level, o),
    ensures
        set_action(f, level, o, w) == Ok::<SetAction, isize>(
            SetAction::Flag(switch(level, o), x != 0),
        ),
{
    lemma_holds(w, x);
}

/// The switch with a number is in this state.
pub open spec fn switch_is(s: SocketSettings, level: usize, o: usize, b: bool) -> bool {
    if level == 1 {
        b == if o == 2 {
            s.base.reuseaddr
        } else if o == 5 {
            s.base.dontroute
        } else if o == 6 {
            s.base.broadcast
        } else if o == 9 {
            s.base.keepalive
        } else if o == 10 {
            s.base.oobinline
        } else if o == 11 {
            s.base.no_check
        } else if o == 16 {
            s.base.passcred
        } else if o == 75 {
            s.base.rcvmark
        } else {
            s.base.rcvpriority
        }
    } else {
        b == if o == 3 {
            s.ip.hdrincl
        } else if o == 8 {
            s.ip.pktinfo
        } else if o == 11 {
            s.ip.recverr
        } else if o == 12 {
            s.ip.recvttl
        } else if o == 13 {
            s.ip.recvtos
        } else {
            s.ip.multicast_loop
        }
    }
}

proof fn lemma_switch_stored(s: SocketSettings, level: usize, o: usize, b: bool)
    requires
        has_switch(s.kind, level, o),
    ensures
        ({
            let t = applied(s, SetAction::Flag(switch(level, o), b));
            switch_is(t, level, o, b) && t.kind == s.kind
        }),
{
    lemma_flag_is_kept(s, switch(level, o), b);
}

proof fn lemma_switch_shown(
    s: SocketSettings,
    g: GetFacts,
    v: OptVal,
    level: usize,
    o: usize,
    b: bool,
)
    requires
        has_switch(s.kind, level, o),
        switch_is(s, level, o, b),
    ensures
        shows(get_reply(s, g, level, o, v), on_off(b), v),
{
    if level == 1 {
        law_switches_are_shown(s, g, v);
        law_special_switches_are_shown(s, g, v);
    } else {
        law_ip_options_are_shown(s, g, v);
        law_more_ip_options_are_shown(s, g, v);
    }
}

/// A switch that is set reads back under the same number: on for a value that is
/// not zero, else off.
pub proof fn law_switches_read_back(
    f: SetFacts,
    level: usize,
    o: usize,
    w: OptVal,
    x: i32,
    s: SocketSettings,
    g: GetFacts,
    v: OptVal,
)
    requires
        s.kind == f.kind,
        holds(w, x),
        has_switch(f.kind, level, o),
    ensures
        set_action(f, level, o, w) is Ok,
        shows(
            get_reply(applied(s, set_action(f, level, o, w)->Ok_0), g, level, o, v),
            on_off(x != 0),
            v,
        ),
{
    lemma_switch_set(f, level, o, w, x);
    lemma_switch_stored(s, level, o, x != 0);
    lemma_switch_shown(
        applied(s, SetAction::Flag(switch(level, o), x != 0)),
        g,
        v,
        level,
        o,
        x != 0,
    );
}

/// The process may administer the network, or send raw packets.
pub open spec fn privileged(f: SetFacts) -> bool {
    capable(f.caps, 12) || capable(f.caps, 13)
}

/// The least that is worth waking for is at least one, and without limit if the
/// value is negative.
pub proof fn law_low_water_marks(f: SetFacts, w: OptVal, x: i32, s: SocketSettings)
    requires
        plain_kind(f.kind),
        holds(w, x),
    ensures
        set_action(f, 1, 18, w) matches Ok(a) && applied(s, a).base.rcvlowat == if x < 0 {
            0x7fff_ffff
        } else if x == 0 {
            1
        } else {
            x as int
        } && applied(s, a).kind == s.kind,
{
    lemma_holds(w, x);
}

/// Priorities above 6 are for the privileged; others are kept as they are set.
pub proof fn law_priorities(f: SetFacts, w: OptVal, x: i32, s: SocketSettings)
    requires
        device_kind(f.kind),
        holds(w, x),
    ensures
        !privileged(f) && !(0 <= x <= 6) ==> set_action(f, 1, 12, w) == Err::<SetAction, isize>(
            EPERM,
        ),
        x >= 0 && (privileged(f) || x <= 6) ==> (set_action(f, 1, 12, w) matches Ok(a) && applied(
            s,
            a,
        ).base.priority == x && applied(s, a).kind == s.kind),
{
    lemma_holds(w, x);
}

/// Marks are for the privileged, and kept as they are set.
pub proof fn law_marks(f: SetFacts, w: OptVal, x: i32, s: SocketSettings)
    requires
        device_kind(f.kind),
        holds(w, x),
    ensures
        !privileged(f) ==> set_action(f, 1, 36, w) == Err::<SetAction, isize>(EPERM),
        x >= 0 && privileged(f) ==> (set_action(f, 1, 36, w) matches Ok(a) && applied(
            s,
            a,
        ).base.mark == x && applied(s, a).kind == s.kind),
{
    lemma_holds(w, x);
}

/// How long to poll cannot be negative.
pub proof fn law_polling(f: SetFacts, w: OptVal, x: i32, s: SocketSettings)
    requires
        f.kind == SocketKind::Net,
        holds(w, x),
    ensures
        x >= 0 ==> (set_action(f, 1, 46, w) matches Ok(a) && applied(s, a).base.busy_poll == x
            && applied(s, a).kind == s.kind),
        x < 0 ==> set_action(f, 1, 46, w) == Err::<SetAction, isize>(EINVAL),
{
    lemma_holds(w, x);
}

/// A buffer gets twice the size that is asked for, but at most twice 212992, and not
/// less than 4608 for sending and 2304 for receiving. A negative size is the limit.
pub proof fn law_buffer_sizes(f: SetFacts, w: OptVal, x: i32, s: SocketSettings)
    requires
        f.kind == SocketKind::Netlink || device_kind(f.kind),
        holds(w, x),
    ensures
        ({
            let asked = if x < 0 || x > 212992 {
                425984
            } else {
                2 * x
            };
            &&& set_action(f, 1, 7, w) matches Ok(a) && applied(s, a).base.sndbuf == (if asked
                < 4608 {
                4608
            } else {
                asked
            }) && applied(s, a).base.rcvbuf == s.base.rcvbuf
            &&& set_action(f, 1, 8, w) matches Ok(a) && applied(s, a).base.rcvbuf == (if asked
                < 2304 {
                2304
            } else {
                asked
            }) && applied(s, a).base.sndbuf == s.base.sndbuf
        }),
{
    lemma_holds(w, x);
}

/// Only who may administer the network can go beyond the limit.
pub proof fn law_forced_buffer_sizes(f: SetFacts, w: OptVal, x: i32, s: SocketSettings)
    requires
        f.kind == SocketKind::Netlink || device_kind(f.kind),
        holds(w, x),
    ensures
        !capable(f.caps, 12) ==> set_action(f, 1, 32, w) == Err::<SetAction, isize>(EPERM)
            && set_action(f, 1, 33, w) == Err::<SetAction, isize>(EPERM),
        capable(f.caps, 12) && 4608 <= x <= 0x3fff_ffff ==> {
            &&& set_action(f, 1, 32, w) matches Ok(a) && applied(s, a).base.sndbuf == 2 * x
                && applied(s, a).base.rcvbuf == s.base.rcvbuf
            &&& set_action(f, 1, 33, w) matches Ok(a) && applied(s, a).base.rcvbuf == 2 * x
                && applied(s, a).base.sndbuf == s.base.sndbuf
        },
{
    lemma_holds(w, x);
}

/// The number in eight bytes of the value, with its sign.
pub open spec fn long_at(v: OptVal, i: int) -> int {
    let n = le32(v.mem@, i) + 0x1_0000_0000 * le32(v.mem@, i + 4);
    if n < 0x8000_0000_0000_0000 {
        n
    } else {
        n - 0x1_0000_0000_0000_0000
    }
}

proof fn lemma_long_sign(u: u64)
    ensures
        u < 0x8000_0000_0000_0000 ==> (u as i64) == u,
        u >= 0x8000_0000_0000_0000 ==> (u as i64) == u - 0x1_0000_0000_0000_0000,
{
    assert(u >= 0x8000_0000_0000_0000u64 ==> (u as i64) as i128 == u as i128
        - 0x1_0000_0000_0000_0000i128) by (bit_vector);
}

/// Timeouts are set in seconds and microseconds, and kept in milliseconds, rounded up;
/// zero means to wait for ever. Times that make no sense are refused.
pub proof fn law_timeouts(f: SetFacts, w: OptVal)
    requires
        plain_kind(f.kind),
        w.len >= 16,
        w.ptr != 0,
        w.mem@.len() >= 16,
    ensures
        ({
            let sec = long_at(w, 0);
            let usec = long_at(w, 8);
            let ms = sec * 1000 + (usec + 999) / 1000;
            let bad = sec < 0 || usec < 0 || usec >= 1_000_000;
            let t: Option<u64> = if ms == 0 {
                None
            } else {
                Some(ms as u64)
            };
            &&& bad ==> set_action(f, 1, 20, w) == Err::<SetAction, isize>(EDOM) && set_action(
                f,
                1,
                21,
                w,
            ) == Err::<SetAction, isize>(EDOM)
            &&& !bad && ms <= u64::MAX ==> {
                &&& set_action(f, 1, 20, w) == Ok::<SetAction, isize>(SetAction::RcvTimeout(t))
                &&& set_action(f, 1, 66, w) == Ok::<SetAction, isize>(SetAction::RcvTimeout(t))
                &&& set_action(f, 1, 21, w) == Ok::<SetAction, isize>(SetAction::SndTimeout(t))
                &&& set_action(f, 1, 67, w) == Ok::<SetAction, isize>(SetAction::SndTimeout(t))
            }
        }),
{
    lemma_long_sign(le64(w.mem@, 0) as u64);
    lemma_long_sign(le64(w.mem@, 8) as u64);
    let sec = long_at(w, 0);
    let usec = long_at(w, 8);
    assert(le64(w.mem@, 0) as u64 as i64 == sec);
    assert(le64(w.mem@, 8) as u64 as i64 == usec);
    if sec >= 0 && 0 <= usec < 1_000_000 {
        assert(sec * 1000 + (usec + 999) / 1000 == 0 <==> sec == 0 && usec == 0);
    }
    assert(timeval_value(w) == if sec < 0 || usec < 0 || usec >= 1_000_000 {
        Err::<Option<u64>, isize>(EDOM)
    } else if sec == 0 && usec == 0 {
        Ok::<Option<u64>, isize>(None)
    } else {
        Ok::<Option<u64>, isize>(Some(timeval_ms(sec, usec)))
    });
}

/// What is set for timeouts and lingering is kept as it is, and nothing else moves.
pub proof fn law_stored_times(s: SocketSettings, t: Option<u64>, on: bool, sec: i32)
    ensures
        applied(s, SetAction::RcvTimeout(t)).base.rcvtimeo == t,
        applied(s, SetAction::RcvTimeout(t)).base.sndtimeo == s.base.sndtimeo,
        applied(s, SetAction::SndTimeout(t)).base.sndtimeo == t,
        applied(s, SetAction::SndTimeout(t)).base.rcvtimeo == s.base.rcvtimeo,
        applied(s, SetAction::Linger(on, sec)).base.linger_on == on,
        applied(s, SetAction::Linger(on, sec)).base.linger_sec == sec,
{
}

/// TCP settings: switches by any number, keepalive times and counts within their
/// ranges.
pub proof fn law_tcp_settings(f: SetFacts, w: OptVal, x: i32)
    requires
        f.kind == SocketKind::Net,
        holds(w, x),
    ensures
        set_action(f, 6, 1, w) == Ok::<SetAction, isize>(SetAction::TcpNodelay(x != 0)),
        set_action(f, 6, 3, w) == Ok::<SetAction, isize>(SetAction::TcpCork(x != 0)),
        1 <= x <= 32767 ==> set_action(f, 6, 4, w) == Ok::<SetAction, isize>(
            SetAction::TcpKeepIdle(x as u32),
        ) && set_action(f, 6, 5, w) == Ok::<SetAction, isize>(SetAction::TcpKeepIntvl(x as u32)),
        !(1 <= x <= 32767) ==> set_action(f, 6, 4, w) == Err::<SetAction, isize>(EINVAL)
            && set_action(f, 6, 5, w) == Err::<SetAction, isize>(EINVAL),
        1 <= x <= 127 ==> set_action(f, 6, 6, w) == Ok::<SetAction, isize>(
            SetAction::TcpKeepCnt(x as u32),
        ),
        !(1 <= x <= 127) ==> set_action(f, 6, 6, w) == Err::<SetAction, isize>(EINVAL),
        set_action(f, 136, 10, w) == Ok::<SetAction, isize>(SetAction::UdpliteCoverage(10, x)),
        set_action(f, 136, 11, w) == Ok::<SetAction, isize>(SetAction::UdpliteCoverage(11, x)),
{
    lemma_holds(w, x);
}

/// IP numbers: service, time to live from 1 to 255, how to discover the size of
/// packets from 0 to 5, and the time to live of multicast packets from 0 to 255.
pub proof fn law_ip_numbers(f: SetFacts, w: OptVal, x: i32)
    requires
        f.kind == SocketKind::Raw || f.kind == SocketKind::Net,
        holds(w, x),
    ensures
        set_action(f, 0, 1, w) == Ok::<SetAction, isize>(SetAction::Tos(x)),
        1 <= x <= 255 ==> set_action(f, 0, 2, w) == Ok::<SetAction, isize>(SetAction::Ttl(x)),
        x != -1 && !(1 <= x <= 255) ==> set_action(f, 0, 2, w) == Err::<SetAction, isize>(EINVAL),
        x == -1 ==> set_action(f, 0, 2, w) == Ok::<SetAction, isize>(
            SetAction::Ttl(
                if f.kind == SocketKind::Raw {
                    64
                } else {
                    x
                },
            ),
        ),
        0 <= x <= 5 ==> set_action(f, 0, 10, w) == Ok::<SetAction, isize>(
            SetAction::MtuDiscover(x),
        ),
        !(0 <= x <= 5) ==> set_action(f, 0, 10, w) == Err::<SetAction, isize>(EINVAL),
        f.kind == SocketKind::Net && f.tcp_stream ==> set_action(f, 0, 33, w) == Err::<
            SetAction,
            isize,
        >(EINVAL),
        (f.kind == SocketKind::Raw || !f.tcp_stream) ==> set_action(f, 0, 33, w) == if 0 <= x
            <= 255 {
            Ok::<SetAction, isize>(SetAction::MulticastTtl(x as u8))
        } else if x == -1 {
            Ok::<SetAction, isize>(SetAction::MulticastTtl(1))
        } else {
            Err::<SetAction, isize>(EINVAL)
        },
{
    lemma_holds(w, x);
}

/// The address in four bytes of the value.
pub open spec fn address_at(v: OptVal, i: int) -> int {
    16777216 * v.mem@[i] + 65536 * v.mem@[i + 1] + 256 * v.mem@[i + 2] + v.mem@[i + 3]
}

/// A group is joined with option 35 and left with option 36: the value holds the
/// group, then the address of the interface, then perhaps its number.
pub proof fn law_groups_are_joined_and_left(f: SetFacts, w: OptVal)
    requires
        f.kind == SocketKind::Raw || f.kind == SocketKind::Net,
        w.ptr != 0,
        w.len == 8 || w.len == 12,
        w.mem@.len() >= w.len,
    ensures
        ({
            let join = set_action(f, 0, 35, w);
            let leave = set_action(f, 0, 36, w);
            &&& join matches Ok(SetAction::Membership(q, true)) && q.group == address_at(w, 0)
                && q.ifaddr == address_at(w, 4) && (w.len == 8 ==> q.ifindex == 0)
            &&& leave == Ok::<SetAction, isize>(
                SetAction::Membership(join->Ok_0->Membership_0, false),
            )
        }),
{
}

/// One source of a group: joined with 39, left with 40, blocked with 38, let through
/// again with 37. The value holds the group, the interface and the source.
pub proof fn law_sources_of_groups(f: SetFacts, w: OptVal)
    requires
        f.kind == SocketKind::Raw || f.kind == SocketKind::Net,
        w.ptr != 0,
        w.len == 12,
        w.mem@.len() >= 12,
    ensures
        ({
            let join = set_action(f, 0, 39, w);
            let q = join->Ok_0->SourceMembership_0;
            &&& join == Ok::<SetAction, isize>(SetAction::SourceMembership(q, true))
            &&& set_action(f, 0, 40, w) == Ok::<SetAction, isize>(
                SetAction::SourceMembership(q, false),
            )
            &&& set_action(f, 0, 38, w) == Ok::<SetAction, isize>(SetAction::SourceBlock(q, true))
            &&& set_action(f, 0, 37, w) == Ok::<SetAction, isize>(SetAction::SourceBlock(q, false))
            &&& q.group == address_at(w, 0) && q.ifaddr == address_at(w, 4) && q.source
                == address_at(w, 8)
        }),
{
}

/// Packet sockets: option 1 joins and option 2 leaves; switches 8 and 9 by any
/// number; option 23 by 0 or 1.
pub proof fn law_packet_settings(f: SetFacts, w: OptVal, x: i32, s: SocketSettings)
    requires
        f.kind == SocketKind::Packet,
        holds(w, x),
    ensures
        applied(s, set_action(f, 263, 8, w)->Ok_0).packet.auxdata == (x != 0),
        applied(s, set_action(f, 263, 9, w)->Ok_0).packet.origdev == (x != 0),
        w.len == 4 ==> {
            &&& set_action(f, 263, 10, w) == Ok::<SetAction, isize>(SetAction::PacketVersion(x))
            &&& set_action(f, 263, 12, w) == Ok::<SetAction, isize>(SetAction::PacketReserve(x))
            &&& x == 0 || x == 1 ==> applied(
                s,
                set_action(f, 263, 23, w)->Ok_0,
            ).packet.ignore_outgoing == (x != 0)
            &&& x != 0 && x != 1 ==> set_action(f, 263, 23, w) == Err::<SetAction, isize>(EINVAL)
            &&& x != 0 ==> set_action(f, 263, 20, w) == Err::<SetAction, isize>(EOPNOTSUPP)
            &&& x != 0 ==> set_action(f, 263, 7, w) == Err::<SetAction, isize>(EOPNOTSUPP)
        },
        w.len != 4 ==> set_action(f, 263, 10, w) == Err::<SetAction, isize>(EINVAL) && set_action(
            f,
            263,
            12,
            w,
        ) == Err::<SetAction, isize>(EINVAL),
{
    lemma_holds(w, x);
}

/// Netlink: option 1 joins a group, option 2 leaves it, and the switches go by their
/// own numbers.
pub proof fn law_netlink_settings(f: SetFacts, w: OptVal, x: i32, o: usize)
    requires
        f.kind == SocketKind::Netlink,
        holds(w, x),
        o == 3 || o == 4 || o == 5 || o == 8 || o == 10 || o == 11 || o == 12,
    ensures
        set_action(f, 270, 1, w) == Ok::<SetAction, isize>(SetAction::NetlinkMembership(x, true)),
        set_action(f, 270, 2, w) == Ok::<SetAction, isize>(SetAction::NetlinkMembership(x, false)),
        set_action(f, 270, o, w) == Ok::<SetAction, isize>(SetAction::NetlinkFlag(o, x != 0)),
{
    lemma_holds(w, x);
}

/// Sockets between virtual machines: options 0, 1 and 2 set the size of the buffer and
/// its bounds.
pub proof fn law_vsock_settings(f: SetFacts, w: OptVal, n: u64, level: usize)
    requires
        f.kind == SocketKind::Vsock,
        level == 40 || level == 287,
        w.ptr != 0,
        w.len >= 8,
        w.mem@.len() >= 8,
        le32(w.mem@, 0) + 0x1_0000_0000 * le32(w.mem@, 4) == n,
    ensures
        set_action(f, level, 0, w) == Ok::<SetAction, isize>(SetAction::VsockSize(n)),
        set_action(f, level, 1, w) == Ok::<SetAction, isize>(SetAction::VsockMinSize(n)),
        set_action(f, level, 2, w) == Ok::<SetAction, isize>(SetAction::VsockMaxSize(n)),
{
}

/// Options that a kind does not have are refused.
pub proof fn law_refused_settings(f: SetFacts, o: usize, w: OptVal)
    ensures
        f.kind == SocketKind::NotSocket ==> set_action(f, 1, o, w) == Err::<SetAction, isize>(
            ENOTSOCK,
        ),
        (local_kind(f.kind) || f.kind == SocketKind::Netlink) && (o == 12 || o == 36 || o == 46 || o
            == 11 || o == 25) ==> set_action(f, 1, o, w) == Err::<SetAction, isize>(ENOPROTOOPT),
        local_kind(f.kind) && (o == 7 || o == 8) ==> set_action(f, 1, o, w) == Err::<
            SetAction,
            isize,
        >(ENOPROTOOPT),
        f.kind == SocketKind::Vsock && o != 50 ==> set_action(f, 1, o, w) == Err::<
            SetAction,
            isize,
        >(EOPNOTSUPP),
        device_kind(f.kind) && o == 26 ==> set_action(f, 1, o, w) == match f.filter {
            Ok(_) => Ok::<SetAction, isize>(SetAction::AttachFilter),
            Err(e) => Err::<SetAction, isize>(e),
        },
        device_kind(f.kind) && o == 27 ==> set_action(f, 1, o, w) == Ok::<SetAction, isize>(
            SetAction::DetachFilter,
        ),
{
}

// ---------------------------------------------------------------------------
// Values with parts.
// ---------------------------------------------------------------------------

/// The value can be read in full.
pub open spec fn readable(v: OptVal, n: int) -> bool {
    v.ptr != 0 && v.len >= n && v.mem@.len() >= n
}

/// Lingering is set by two numbers: whether, and for how many seconds.
pub proof fn law_lingering(f: SetFacts, w: OptVal, on: u32, sec: u32)
    requires
        plain_kind(f.kind),
        readable(w, 8),
        le32(w.mem@, 0) == on,
        le32(w.mem@, 4) == sec,
    ensures
        sec < 0x8000_0000 ==> set_action(f, 1, 13, w) == Ok::<SetAction, isize>(
            SetAction::Linger(on != 0, sec as i32),
        ),
        sec >= 0x8000_0000 ==> set_action(f, 1, 13, w) == Ok::<SetAction, isize>(
            SetAction::Linger(on != 0, 0x7fff_ffff),
        ),
{
    lemma_sign(on);
    lemma_sign(sec);
}

/// A socket is bound to a device by name: network sockets need a device of that name,
/// and one that is bound can be bound again by the privileged only.
pub proof fn law_devices(f: SetFacts, w: OptVal, name: Seq<u8>)
    requires
        device_kind(f.kind),
        ifname_value(w) == Ok::<Seq<u8>, isize>(name),
    ensures
        ({
            let a = set_action(f, 1, 25, w);
            let missing = f.kind == SocketKind::Net && name.len() > 0 && f.named_ifindex is None;
            let denied = f.device_bound && !capable(f.caps, 13);
            &&& missing ==> a == Err::<SetAction, isize>(ENODEV)
            &&& !missing && denied ==> a == Err::<SetAction, isize>(EPERM)
            &&& !missing && !denied && f.kind != SocketKind::Net ==> a == Ok::<SetAction, isize>(
                SetAction::BindDevice,
            )
            &&& !missing && !denied && f.kind == SocketKind::Net ==> a == Ok::<SetAction, isize>(
                SetAction::BindIfindex(
                    if name.len() == 0 {
                        0
                    } else {
                        f.named_ifindex->0
                    },
                ),
            )
        }),
{
}

/// The name of a device is at most sixteen bytes, up to a zero.
pub proof fn law_names_of_devices(w: OptVal, n: Seq<u8>)
    requires
        n.len() < 16,
        readable(w, n.len() as int + 1),
        w.mem@.subrange(0, n.len() as int) == n,
        w.mem@[n.len() as int] == 0,
        w.mem@.len() >= 16 || w.mem@.len() >= w.len,
        forall|i: int| 0 <= i < n.len() ==> 0 < #[trigger] n[i] < 0x80,
        vstd::utf8::valid_utf8(n),
    ensures
        ifname_value(w) == Ok::<Seq<u8>, isize>(n),
{
    let raw = w.mem@.take(crate::net::optval::ifname_len(w));
    crate::text::lemma_index_or_end(raw, 0, 0);
    let e = crate::text::index_or_end(raw, 0, 0);
    assert(raw[n.len() as int] == 0);
    assert forall|i: int| 0 <= i < n.len() implies #[trigger] raw[i] == n[i] by {
        assert(w.mem@.subrange(0, n.len() as int)[i] == w.mem@[i]);
    }
    if e < n.len() {
        assert(n[e] > 0);
    }
    assert(raw.take(e) =~= n);
}

/// The device that a socket is bound to is told by name with a zero at the end.
pub proof fn law_bound_devices_are_shown(s: SocketSettings, g: GetFacts, v: OptVal)
    requires
        device_kind(s.kind),
    ensures
        g.bound_name is None ==> shows(get_reply(s, g, 1, 25, v), Seq::empty(), v),
        g.bound_name is Some && v.len < 16 ==> get_reply(s, g, 1, 25, v) == Err::<Reply, isize>(
            EINVAL,
        ),
        v.len >= 16 ==> (g.bound_name matches Some(n) ==> (n@.len() <= 15 ==> shows(
            get_reply(s, g, 1, 25, v),
            n@.push(0u8),
            v,
        ))),
{
    lemma_whole(Seq::<u8>::empty());
    if let Some(n) = g.bound_name {
        lemma_whole(n@.push(0u8));
    }
}

/// A filter is told as the number of its instructions, and their bytes if there is room
/// for them; a program that is no list of instructions is not told.
pub proof fn law_filters_are_shown(s: SocketSettings, g: GetFacts, v: OptVal)
    requires
        device_kind(s.kind) || local_kind(s.kind),
    ensures
        ({
            let r = get_reply(s, g, 1, 26, v);
            &&& g.filter is None && g.has_ebpf ==> r == Err::<Reply, isize>(EACCES)
            &&& g.filter is None && !g.has_ebpf ==> (r matches Ok(x) && x.len == 0 && x.bytes.len()
                == 0)
            &&& g.filter matches Some(c) ==> {
                &&& v.len == 0 ==> (r matches Ok(x) && x.len == c.count && x.bytes.len() == 0)
                &&& 0 < v.len < c.count ==> r == Err::<Reply, isize>(EINVAL)
                &&& v.len > 0 && v.len >= c.count && v.ptr == 0 ==> r == Err::<Reply, isize>(EFAULT)
                &&& v.len > 0 && v.len >= c.count && v.ptr != 0 ==> (r matches Ok(x) && x.len
                    == c.count && x.bytes == c.bytes@)
            }
        }),
{
}

/// Header options of raw sockets are at most forty bytes, filled up with zeros to whole
/// words.
pub proof fn law_header_options(f: SetFacts, w: OptVal, i: int)
    requires
        f.kind == SocketKind::Raw,
    ensures
        w.len > 40 ==> set_action(f, 0, 4, w) == Err::<SetAction, isize>(EINVAL),
        0 < w.len <= 40 && readable(w, w.len as int) ==> {
            &&& set_action(f, 0, 4, w) == Ok::<SetAction, isize>(SetAction::IpOptions)
            &&& options_value(w) matches Ok(o) && o.len() % 4 == 0 && w.len <= o.len() < w.len + 4
                && (0 <= i < w.len ==> o[i] == w.mem@[i]) && (w.len <= i < o.len() ==> o[i] == 0)
        },
{
}

/// The interface of multicast packets is given by its address alone, behind a group, or
/// with its number.
pub proof fn law_multicast_interfaces(f: SetFacts, w: OptVal, n: u32)
    requires
        f.kind == SocketKind::Raw || f.kind == SocketKind::Net,
        n < 0x8000_0000,
    ensures
        w.len == 4 && readable(w, 4) ==> (set_action(f, 0, 32, w) matches Ok(
            SetAction::MulticastIf(i, a),
        ) && i == 0 && a == address_at(w, 0)),
        w.len == 8 && readable(w, 8) ==> (set_action(f, 0, 32, w) matches Ok(
            SetAction::MulticastIf(i, a),
        ) && i == 0 && a == address_at(w, 4)),
        w.len == 12 && readable(w, 12) && le32(w.mem@, 8) == n ==> (set_action(
            f,
            0,
            32,
            w,
        ) matches Ok(SetAction::MulticastIf(i, a)) && i == n && a == address_at(w, 4)),
        w.len < 4 ==> set_action(f, 0, 32, w) == Err::<SetAction, isize>(EINVAL),
{
    lemma_sign(n);
}

/// Groups by socket address: 42 joins, 45 leaves. The number of the interface is first,
/// the address follows.
pub proof fn law_groups_by_socket_address(f: SetFacts, w: OptVal, n: u32)
    requires
        f.kind == SocketKind::Raw || f.kind == SocketKind::Net,
        readable(w, 136),
        le32(w.mem@, 0) == n,
        n < 0x8000_0000,
    ensures
        ({
            let join = set_action(f, 0, 42, w);
            let leave = set_action(f, 0, 45, w);
            &&& w.mem@[8] == 2 && w.mem@[9] == 0 ==> (join matches Ok(
                SetAction::GroupMembership(q, true),
            ) && q.group == address_at(w, 12) && q.ifindex == n) && leave == Ok::<
                SetAction,
                isize,
            >(SetAction::GroupMembership(join->Ok_0->GroupMembership_0, false))
            &&& w.mem@[8] != 2 || w.mem@[9] != 0 ==> join == Err::<SetAction, isize>(EINVAL)
        }),
{
    lemma_sign(n);
}

/// Sources by socket address: 46 joins, 47 leaves, 43 blocks, 44 lets through again.
pub proof fn law_sources_by_socket_address(f: SetFacts, w: OptVal, n: u32)
    requires
        f.kind == SocketKind::Raw || f.kind == SocketKind::Net,
        w.len == 264,
        readable(w, 264),
        le32(w.mem@, 0) == n,
        n < 0x8000_0000,
        w.mem@[8] == 2,
        w.mem@[9] == 0,
        w.mem@[136] == 2,
        w.mem@[137] == 0,
    ensures
        ({
            let join = set_action(f, 0, 46, w);
            let q = join->Ok_0->SourceMembership_0;
            &&& join == Ok::<SetAction, isize>(SetAction::SourceMembership(q, true))
            &&& set_action(f, 0, 47, w) == Ok::<SetAction, isize>(
                SetAction::SourceMembership(q, false),
            )
            &&& set_action(f, 0, 43, w) == Ok::<SetAction, isize>(SetAction::SourceBlock(q, true))
            &&& set_action(f, 0, 44, w) == Ok::<SetAction, isize>(SetAction::SourceBlock(q, false))
            &&& q.group == address_at(w, 12) && q.source == address_at(w, 140) && q.ifindex == n
        }),
{
    lemma_sign(n);
}

/// A whole filter of sources: 41 takes plain addresses. Mode 0 shuts the sources out, 1
/// lets only them in; the sources follow in order.
pub proof fn law_source_filters(f: SetFacts, w: OptVal, mode: u32, n: u32, i: int)
    requires
        f.kind == SocketKind::Raw || f.kind == SocketKind::Net,
        readable(w, 16),
        le32(w.mem@, 8) == mode,
        le32(w.mem@, 12) == n,
        w.len >= 16 + 4 * n,
        w.mem@.len() >= 16 + 4 * n,
    ensures
        mode > 1 ==> set_action(f, 0, 41, w) == Err::<SetAction, isize>(EINVAL),
        mode <= 1 ==> (set_action(f, 0, 41, w) matches Ok(SetAction::SourceFilter(q, m)) && q.group
            == address_at(w, 0) && q.ifaddr == address_at(w, 4) && (m
            == SourceFilterMode::Include <==> mode == 1)),
        filter_sources(41, w).len() == n,
        0 <= i < n ==> filter_sources(41, w)[i] == address_at(w, 16 + 4 * i),
{
}

/// Packet sockets join a group with 1 and leave it with 2: the number of the device, the
/// type, the length of the address, and the address.
pub proof fn law_packet_memberships(f: SetFacts, w: OptVal, n: u32)
    requires
        f.kind == SocketKind::Packet,
        readable(w, 16),
        le32(w.mem@, 0) == n,
        n < 0x8000_0000,
    ensures
        w.mem@[6] + 256 * w.mem@[7] > 8 ==> set_action(f, 263, 1, w) == Err::<SetAction, isize>(
            EINVAL,
        ),
        w.mem@[6] + 256 * w.mem@[7] <= 8 ==> {
            let join = set_action(f, 263, 1, w);
            &&& join matches Ok(SetAction::PacketMembership(m, true)) && m.ifindex == n && m.mr_type
                == w.mem@[4] + 256 * w.mem@[5] && m.alen == w.mem@[6] + 256 * w.mem@[7] && m.addr
                == le64(w.mem@, 8)
            &&& set_action(f, 263, 2, w) == Ok::<SetAction, isize>(
                SetAction::PacketMembership(join->Ok_0->PacketMembership_0, false),
            )
        },
{
    lemma_sign(n);
}

/// Rings are set by 5: the size and number of blocks, then of frames. Versions 0 and 1
/// take sixteen bytes, version 2 twenty-eight.
pub proof fn law_rings(f: SetFacts, w: OptVal)
    requires
        f.kind == SocketKind::Packet,
    ensures
        f.packet_version < 0 || f.packet_version > 2 ==> set_action(f, 263, 5, w) == Err::<
            SetAction,
            isize,
        >(EINVAL),
        0 <= f.packet_version <= 1 && readable(w, 16) ==> (set_action(f, 263, 5, w) matches Ok(
            SetAction::RxRing(q),
        ) && q.block_size == le32(w.mem@, 0) && q.block_nr == le32(w.mem@, 4) && q.frame_size
            == le32(w.mem@, 8) && q.frame_nr == le32(w.mem@, 12)),
        f.packet_version == 2 && w.len < 28 ==> set_action(f, 263, 5, w) == Err::<
            SetAction,
            isize,
        >(EINVAL),
        f.packet_version == 2 && readable(w, 28) && le32(w.mem@, 20) < le32(w.mem@, 0) ==> (
        set_action(f, 263, 5, w) matches Ok(SetAction::RxRing(q)) && q.block_size == le32(
            w.mem@,
            0,
        ) && q.retire_blk_tov == le32(w.mem@, 16) && q.sizeof_priv == le32(w.mem@, 20)),
{
}

/// Packets are spread over a group with 18: four bytes name it, four more bound it.
pub proof fn law_fanout(f: SetFacts, w: OptVal)
    requires
        f.kind == SocketKind::Packet,
        w.ptr != 0,
        w.mem@.len() >= w.len,
    ensures
        w.len == 4 ==> (set_action(f, 263, 18, w) matches Ok(SetAction::Fanout(a, b)) && a == le32(
            w.mem@,
            0,
        ) && b == 0),
        w.len == 8 ==> (set_action(f, 263, 18, w) matches Ok(SetAction::Fanout(a, b)) && a == le32(
            w.mem@,
            0,
        ) && b == le32(w.mem@, 4)),
        w.len != 4 && w.len != 8 ==> set_action(f, 263, 18, w) == Err::<SetAction, isize>(EINVAL),
{
}

/// Attaching a program takes its descriptor in four bytes, on sockets that can have one.
pub proof fn law_programs(f: SetFacts, w: OptVal)
    requires
        f.kind != SocketKind::NotSocket,
    ensures
        w.len != 4 ==> set_action(f, 1, 50, w) == Err::<SetAction, isize>(EINVAL),
        w.len == 4 && readable(w, 4) && !f.prog_found ==> set_action(f, 1, 50, w) == Err::<
            SetAction,
            isize,
        >(EBADF),
        w.len == 4 && readable(w, 4) && f.prog_found && (device_kind(f.kind) || local_kind(f.kind))
            ==> (set_action(f, 1, 50, w) matches Ok(SetAction::AttachBpf(n)) && n == le32(
            w.mem@,
            0,
        )),
{
}

/// Locking the filters, and how arrival times are reported.
pub proof fn law_locks_and_arrival_times(f: SetFacts, w: OptVal, x: i32)
    requires
        device_kind(f.kind),
        holds(w, x),
    ensures
        set_action(f, 1, 44, w) == Ok::<SetAction, isize>(SetAction::LockFilter(x != 0)),
        x == 0 ==> set_action(f, 1, 29, w) == Ok::<SetAction, isize>(
            SetAction::Timestamp(TimestampMode::Off),
        ),
        x != 0 ==> {
            &&& set_action(f, 1, 29, w) == Ok::<SetAction, isize>(
                SetAction::Timestamp(TimestampMode::TimevalOld),
            )
            &&& set_action(f, 1, 35, w) == Ok::<SetAction, isize>(
                SetAction::Timestamp(TimestampMode::TimespecOld),
            )
            &&& set_action(f, 1, 63, w) == Ok::<SetAction, isize>(
                SetAction::Timestamp(TimestampMode::TimevalNew),
            )
            &&& set_action(f, 1, 64, w) == Ok::<SetAction, isize>(
                SetAction::Timestamp(TimestampMode::TimespecNew),
            )
        },
{
    lemma_holds(w, x);
}

/// A filter of sources is told as it is set: the group, the interface, the mode, how many
/// sources there are, and as many as there is room for.
pub proof fn law_source_filters_are_shown(
    h: FilterHead,
    mode: SourceFilterMode,
    sources: Seq<u32>,
    i: int,
)
    requires
        sources.len() <= u32::MAX,
        0 <= i < sources.len(),
        i < h.numsrc,
    ensures
        ({
            let b = msfilter_bytes(h, mode, sources);
            &&& b.subrange(0, 4) == word(h.req.group as int).reverse()
            &&& b.subrange(4, 8) == word(h.req.ifaddr as int).reverse()
            &&& b.subrange(8, 12) == on_off(mode == SourceFilterMode::Include)
            &&& b.subrange(12, 16) == word(sources.len() as int)
            &&& b.subrange(16 + 4 * i, 20 + 4 * i) == word(sources[i] as int).reverse()
        }),
{
    let b = msfilter_bytes(h, mode, sources);
    let list = listed(sources, h.numsrc);
    lemma_listed(list, i);
    lemma_word(sources.len() as u32);
    lemma_word(0);
    assert(b.subrange(0, 4) =~= word(h.req.group as int).reverse());
    assert(b.subrange(4, 8) =~= word(h.req.ifaddr as int).reverse());
    assert(b.subrange(8, 12) =~= on_off(mode == SourceFilterMode::Include));
    assert(b.subrange(12, 16) =~= word(sources.len() as int));
    assert(list[i] == sources[i]);
    assert(b.subrange(16 + 4 * i, 20 + 4 * i) =~= plain_sources(list).subrange(4 * i, 4 * i + 4));
}

proof fn lemma_listed(s: Seq<u32>, i: int)
    requires
        0 <= i < s.len(),
    ensures
        plain_sources(s).len() == 4 * s.len(),
        plain_sources(s).subrange(4 * i, 4 * i + 4) == word(s[i] as int).reverse(),
    decreases s.len(),
{
    let front = s.drop_last();
    lemma_sources_length(front);
    let p = plain_sources(s);
    let w = be32_bytes(s.last());
    if i < front.len() {
        lemma_listed(front, i);
        assert(p.subrange(4 * i, 4 * i + 4) =~= plain_sources(front).subrange(4 * i, 4 * i + 4));
    } else {
        assert(p.subrange(4 * i, 4 * i + 4) =~= w);
        assert(w =~= word(s[i] as int).reverse());
    }
}

proof fn lemma_sources_length(s: Seq<u32>)
    ensures
        plain_sources(s).len() == 4 * s.len(),
    decreases s.len(),
{
    if s.len() > 0 {
        lemma_sources_length(s.drop_last());
    }
}

/// An option that is not known at the socket level is refused: by name for netlink,
/// packet and raw sockets, as an operation for the others.
pub proof fn law_unknown_options(s: SocketSettings, g: GetFacts, v: OptVal, optname: usize)
    requires
        optname >= 1000,
        s.kind != SocketKind::NotSocket,
    ensures
        s.kind == SocketKind::Netlink || s.kind == SocketKind::Packet || s.kind == SocketKind::Raw
            ==> get_reply(s, g, 1, optname, v) == Err::<Reply, isize>(ENOPROTOOPT),
        !(s.kind == SocketKind::Netlink || s.kind == SocketKind::Packet || s.kind
            == SocketKind::Raw) ==> get_reply(s, g, 1, optname, v) == Err::<Reply, isize>(
            EOPNOTSUPP,
        ),
{
}

} // verus!
