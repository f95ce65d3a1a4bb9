//! Socket options.

use linux_syscalls::errno::{
    EACCES, EADDRNOTAVAIL, EBADF, EDOM, EFAULT, EINVAL, ENODEV, ENOPROTOOPT, ENOTCONN, ENOTSOCK,
    EOPNOTSUPP, EPERM,
};
use linux_syscalls::net::getsockopt::{
    apply_action, set_flag, syscall_getsockopt, write_group_filter, write_ip_msfilter,
    write_linger, write_socket_timeval_ms, write_sockopt_bytes, BaseOptions, FilterImage, GetFacts,
    IpSettings, NetKind, PacketOptions, SocketIdentity, SocketSettings, TcpSettings, UCred,
    VsockOptions,
};
use linux_syscalls::net::optval::{
    has_effective_cap, ipv4_source_filter_mode, ipv4_source_filter_mode_bits, linux_rcvlowat_value,
    linux_sockbuf_value, read_exact_int, read_group_filter, read_group_filter_query, read_group_req,
    read_group_source_req, read_int4, read_ip_mreq_source, read_ip_mreqn, read_ip_msfilter,
    read_ip_msfilter_query, read_ipv4_multicast_if, read_ipv4_options, read_linger,
    read_packet_fanout, read_packet_mreq, read_packet_ring_req, read_socket_timeval_ms,
    read_sockopt_ifname, read_sockopt_int, read_sockopt_u64, require_bound_device_rebind,
    require_cap_net_admin_for_sockbuf_force, socket_mark_allowed, socket_mark_value,
    socket_priority_value, tcp_keepalive_sockopt_value, timestamp_mode_for_sockopt,
    timestamp_mode_getsockopt, OptVal, SourceFilterMode, TimestampMode, SO_ATTACH_BPF,
    SO_ATTACH_FILTER, SO_BINDTODEVICE, SO_BROADCAST, SO_BUSY_POLL, SO_DETACH_FILTER, SO_DOMAIN,
    SO_ERROR, SO_KEEPALIVE, SO_LINGER, SO_LOCK_FILTER, SO_MARK, SO_PASSCRED, SO_PEERCRED,
    SO_PRIORITY, SO_RCVBUF, SO_RCVBUFFORCE, SO_RCVLOWAT, SO_RCVTIMEO_OLD, SO_REUSEADDR,
    SO_REUSEPORT, SO_SNDBUF, SO_SNDBUFFORCE, SO_TIMESTAMPNS_OLD, SO_TIMESTAMP_NEW,
    SO_TIMESTAMP_OLD, SO_TYPE,
};
use linux_syscalls::net::setsockopt::{
    accepts_option, netlink_flag_option, set_number, syscall_setsockopt, SetAction, SetFacts,
    SetOutcome, SockFlag, SocketKind, IP_ADD_MEMBERSHIP, IP_MSFILTER, IP_MTU, IP_MULTICAST_TTL,
    IP_OPTIONS, IP_TTL, LEVEL_VSOCK, MCAST_MSFILTER, NETLINK_ADD_MEMBERSHIP, NETLINK_CAP_ACK,
    PACKET_AUXDATA, PACKET_COPY_THRESH, PACKET_IGNORE_OUTGOING, PACKET_RX_RING, PACKET_STATISTICS,
    PACKET_TX_RING, PACKET_VERSION, PACKET_VNET_HDR, SOL_IP, SOL_NETLINK, SOL_PACKET, SOL_SOCKET,
    SOL_TCP, SO_VM_SOCKETS_BUFFER_SIZE, TCP_KEEPCNT, TCP_NODELAY,
};

fn val(mem: &[u8]) -> OptVal {
    OptVal { ptr: 1, len: mem.len(), mem: mem.to_vec() }
}

fn num(n: i32) -> OptVal {
    val(&n.to_le_bytes())
}

fn room(len: usize) -> OptVal {
    OptVal { ptr: 1, len, mem: vec![0; len] }
}

fn facts(kind: SocketKind) -> SetFacts {
    SetFacts {
        kind,
        caps: 0,
        device_bound: false,
        named_ifindex: None,
        packet_version: 0,
        raw_packets: true,
        tcp_stream: false,
        prog_found: false,
        filter: Ok(()),
    }
}

fn set(f: &SetFacts, level: usize, optname: usize, v: &OptVal) -> Result<SetAction, isize> {
    syscall_setsockopt(f, level, optname, v).action
}

fn settings(kind: SocketKind) -> SocketSettings {
    SocketSettings {
        kind,
        error: 0,
        ident: SocketIdentity {
            sock_type: 1,
            listening: false,
            protocol: 6,
            domain: 2,
            net_kind: NetKind::TcpStream,
            peer_cred: None,
        },
        base: BaseOptions {
            filter_locked: false,
            reuseaddr: false,
            dontroute: false,
            broadcast: false,
            keepalive: false,
            oobinline: false,
            passcred: false,
            no_check: false,
            rcvmark: false,
            rcvpriority: false,
            rcvlowat: 1,
            sndbuf: 0,
            rcvbuf: 0,
            priority: 0,
            mark: 0,
            busy_poll: 0,
            timestamp: TimestampMode::Off,
            linger_on: false,
            linger_sec: 0,
            rcvtimeo: None,
            sndtimeo: None,
        },
        netlink_flags: 0,
        vsock: VsockOptions { vsock_size: 0, vsock_min: 0, vsock_max: 0, vsock_timeout: None },
        packet: PacketOptions {
            packet_version: 0,
            packet_reserve: 0,
            copy_thresh: 0,
            auxdata: false,
            origdev: false,
            vnet_hdr: false,
            qdisc_bypass: false,
            ignore_outgoing: false,
            fanout: 0,
            stat_packets: 0,
            stat_drops: 0,
            stats_v3: false,
        },
        ip: IpSettings {
            tos: 0,
            ttl: 64,
            mtu_discover: 0,
            pktinfo: false,
            recverr: false,
            recvttl: false,
            recvtos: false,
            hdrincl: false,
            multicast_ttl: 1,
            multicast_loop: true,
            multicast_if: 0,
            path_mtu: None,
        },
        tcp: TcpSettings {
            tcp_nodelay: Ok(true),
            tcp_cork: Ok(false),
            tcp_keepidle: Ok(7200),
            tcp_keepintvl: Ok(75),
            tcp_keepcnt: Ok(9),
            udplite_send: Err(ENOPROTOOPT),
            udplite_recv: Err(ENOPROTOOPT),
        },
    }
}

fn nothing() -> GetFacts {
    GetFacts {
        bound_name: None,
        ip_options: vec![],
        filter: None,
        has_ebpf: false,
        sources: Err(EADDRNOTAVAIL),
        hdr_len: Err(EINVAL),
    }
}

fn get(s: &mut SocketSettings, level: usize, optname: usize, n: usize) -> Result<Vec<u8>, isize> {
    syscall_getsockopt(s, &nothing(), 1, true, Ok(()), level, optname, &room(n)).map(|r| r.bytes)
}

fn get_int(s: &mut SocketSettings, level: usize, optname: usize) -> Result<i32, isize> {
    get(s, level, optname, 4).map(|b| i32::from_le_bytes([b[0], b[1], b[2], b[3]]))
}

#[test]
fn numbers_are_read() {
    assert_eq!(read_sockopt_int(&num(-5)), Ok(-5));
    assert_eq!(read_sockopt_int(&val(&[7, 9])), Ok(7));
    assert_eq!(read_sockopt_int(&val(&[])), Ok(0));
    assert_eq!(read_sockopt_int(&OptVal { ptr: 0, len: 4, mem: vec![] }), Err(EFAULT));
    assert_eq!(read_sockopt_int(&OptVal { ptr: 1, len: 4, mem: vec![1, 2] }), Err(EFAULT));
    assert_eq!(read_int4(&val(&[7])), Err(EINVAL));
    assert_eq!(read_exact_int(&val(&[1, 0, 0, 0, 0])), Err(EINVAL));
    assert_eq!(read_sockopt_u64(&val(&[1, 0, 0, 0, 1, 0, 0, 0])), Ok(0x1_0000_0001));
    assert_eq!(read_sockopt_u64(&num(1)), Err(EINVAL));
    assert_eq!(read_linger(&val(&[1, 0, 0, 0, 5, 0, 0, 0])), Ok((true, 5)));
    assert_eq!(read_linger(&val(&[0, 0, 0, 0, 255, 255, 255, 255])), Ok((false, i32::MAX)));
    assert_eq!(read_linger(&num(1)), Err(EINVAL));
    assert_eq!(read_sockopt_ifname(&val(b"eth0\0xx")), Ok(b"eth0".to_vec()));
    assert_eq!(read_sockopt_ifname(&val(&[0xff])), Err(EINVAL));
}

fn timeval(sec: i64, usec: i64) -> OptVal {
    let mut m = sec.to_le_bytes().to_vec();
    m.extend_from_slice(&usec.to_le_bytes());
    val(&m)
}

#[test]
fn timeouts_read_back() {
    assert_eq!(read_socket_timeval_ms(&timeval(1, 1)), Ok(Some(1001)));
    assert_eq!(read_socket_timeval_ms(&timeval(0, 0)), Ok(None));
    assert_eq!(read_socket_timeval_ms(&timeval(-1, 0)), Err(EDOM));
    assert_eq!(read_socket_timeval_ms(&timeval(0, 1_000_000)), Err(EDOM));
    assert_eq!(read_socket_timeval_ms(&timeval(i64::MAX, 0)), Ok(Some(u64::MAX)));
    for t in [None, Some(1), Some(2500), Some(u64::MAX / 2)] {
        assert_eq!(read_socket_timeval_ms(&val(&write_socket_timeval_ms(t))), Ok(t));
    }
}

#[test]
fn buffers_have_bounds() {
    assert_eq!(linux_sockbuf_value(5000, SO_SNDBUF), 10_000);
    assert_eq!(linux_sockbuf_value(1, SO_SNDBUF), 4608);
    assert_eq!(linux_sockbuf_value(1, SO_RCVBUF), 2304);
    assert_eq!(linux_sockbuf_value(1_000_000, SO_RCVBUF), 425_984);
    assert_eq!(linux_sockbuf_value(-1, SO_RCVBUF), 425_984);
    assert_eq!(linux_sockbuf_value(1_000_000, SO_RCVBUFFORCE), 2_000_000);
    assert_eq!(linux_sockbuf_value(i32::MAX, SO_SNDBUFFORCE), 0x7fff_fffe);
    assert_eq!(linux_rcvlowat_value(-1), i32::MAX);
    assert_eq!((linux_rcvlowat_value(0), linux_rcvlowat_value(9)), (1, 9));
}

#[test]
fn privileged_settings_need_capabilities() {
    let admin: u64 = 1 << 12;
    let raw: u64 = 1 << 13;
    assert!(has_effective_cap(admin, 12) && !has_effective_cap(admin, 13));
    assert_eq!(socket_priority_value(6, 0), Ok(6));
    assert_eq!(socket_priority_value(7, 0), Err(EPERM));
    assert_eq!(socket_priority_value(7, raw), Ok(7));
    assert!(!socket_mark_allowed(0));
    assert_eq!(socket_mark_value(3, 0), Err(EPERM));
    assert_eq!(socket_mark_value(3, admin), Ok(3));
    assert_eq!(require_bound_device_rebind(true, admin), Err(EPERM));
    assert_eq!(require_bound_device_rebind(true, raw), Ok(()));
    assert_eq!(require_cap_net_admin_for_sockbuf_force(SO_SNDBUFFORCE, 0), Err(EPERM));
    assert_eq!(require_cap_net_admin_for_sockbuf_force(SO_SNDBUF, 0), Ok(()));
    assert!(matches!(set_number(0, SO_MARK, 1), Err(e) if e == EPERM));
    assert!(matches!(set_number(admin, SO_SNDBUFFORCE, 500_000), Ok(SetAction::SndBuf(1_000_000))));
}

#[test]
fn keepalive_values_have_a_range() {
    assert_eq!(tcp_keepalive_sockopt_value(1, 127), Ok(1));
    assert_eq!(tcp_keepalive_sockopt_value(0, 127), Err(EINVAL));
    assert_eq!(tcp_keepalive_sockopt_value(128, 127), Err(EINVAL));
    let f = facts(SocketKind::Net);
    assert!(matches!(set(&f, SOL_TCP, TCP_KEEPCNT, &num(127)), Ok(SetAction::TcpKeepCnt(127))));
    assert!(matches!(set(&f, SOL_TCP, TCP_KEEPCNT, &num(128)), Err(e) if e == EINVAL));
}

#[test]
fn one_timestamp_mode_is_on() {
    let mode = timestamp_mode_for_sockopt(SO_TIMESTAMPNS_OLD, true).unwrap();
    assert!(mode == TimestampMode::TimespecOld);
    assert_eq!(timestamp_mode_getsockopt(mode, SO_TIMESTAMPNS_OLD), Some(1));
    assert_eq!(timestamp_mode_getsockopt(mode, SO_TIMESTAMP_NEW), Some(0));
    assert_eq!(timestamp_mode_getsockopt(mode, SO_MARK), None);
    assert!(timestamp_mode_for_sockopt(SO_MARK, true).is_none());
    let mut s = settings(SocketKind::Net);
    apply_action(&mut s, SetAction::Timestamp(mode));
    assert_eq!(get_int(&mut s, SOL_SOCKET, SO_TIMESTAMPNS_OLD), Ok(1));
    assert_eq!(get_int(&mut s, SOL_SOCKET, SO_TIMESTAMP_OLD), Ok(0));
}

#[test]
fn packet_values_are_read() {
    let words: Vec<u8> = (1u32..8).flat_map(|n| n.to_le_bytes()).collect();
    let r = read_packet_ring_req(&val(&words), 2).ok().unwrap();
    assert_eq!((r.block_size, r.frame_nr, r.feature_req_word), (1, 4, 7));
    let r = read_packet_ring_req(&val(&words[..16]), 0).ok().unwrap();
    assert_eq!((r.frame_nr, r.retire_blk_tov), (4, 0));
    assert_eq!(read_packet_ring_req(&val(&words[..16]), 2).err(), Some(EINVAL));
    assert_eq!(read_packet_ring_req(&val(&words), 3).err(), Some(EINVAL));
    assert_eq!(read_packet_fanout(&val(&words[..8])), Ok((1, 2)));
    assert_eq!(read_packet_fanout(&num(9)), Ok((9, 0)));
    assert_eq!(read_packet_fanout(&val(&words[..5])), Err(EINVAL));
    let mut mreq = vec![3, 0, 0, 0, 1, 0, 6, 0, 1, 2, 3, 4, 5, 6, 0, 0];
    let m = read_packet_mreq(&val(&mreq)).ok().unwrap();
    assert_eq!((m.ifindex, m.mr_type, m.alen, m.addr), (3, 1, 6, 0x0605_0403_0201));
    mreq[6] = 9;
    assert_eq!(read_packet_mreq(&val(&mreq)).err(), Some(EINVAL));
}

#[test]
fn group_values_are_read() {
    let m = [224, 0, 0, 1, 10, 0, 0, 2, 5, 0, 0, 0];
    let q = read_ip_mreqn(&val(&m)).ok().unwrap();
    assert_eq!((q.group, q.ifaddr, q.ifindex), (0xe000_0001, 0x0a00_0002, 5));
    assert_eq!(read_ip_mreqn(&val(&m[..8])).ok().unwrap().ifindex, 0);
    assert_eq!(read_ip_mreqn(&val(&m[..7])).err(), Some(EINVAL));
    let q = read_ip_mreq_source(&val(&m)).ok().unwrap();
    assert_eq!((q.group, q.ifaddr, q.source), (0xe000_0001, 0x0a00_0002, 0x0500_0000));
    assert_eq!(read_ipv4_multicast_if(&val(&m)), Ok((5, 0x0a00_0002)));
    assert_eq!(read_ipv4_multicast_if(&val(&m[..4])), Ok((0, 0xe000_0001)));
    assert_eq!(read_ipv4_multicast_if(&val(&m[..3])), Err(EINVAL));
    assert_eq!(read_ipv4_options(&val(&[1, 2, 3, 4, 5])), Ok(vec![1, 2, 3, 4, 5, 0, 0, 0]));
    assert_eq!(read_ipv4_options(&val(&[0; 41])), Err(EINVAL));
    let mut g = vec![0u8; 264];
    g[0] = 7;
    g[8] = 2;
    g[12..16].copy_from_slice(&[224, 0, 0, 9]);
    let q = read_group_req(&val(&g)).ok().unwrap();
    assert_eq!((q.ifindex, q.group), (7, 0xe000_0009));
    assert_eq!(read_group_source_req(&val(&g)).err(), Some(EADDRNOTAVAIL));
    g[136] = 2;
    g[143] = 1;
    assert_eq!(read_group_source_req(&val(&g)).ok().unwrap().source, 1);
    g[8] = 10;
    assert_eq!(read_group_req(&val(&g)).err(), Some(EINVAL));
}

#[test]
fn source_filters_read_back() {
    let sources = vec![0x0102_0304u32, 0x0506_0708];
    let mut head = vec![224, 0, 0, 1, 10, 0, 0, 2, 1, 0, 0, 0, 2, 0, 0, 0];
    let h = read_ip_msfilter_query(&val(&head)).ok().unwrap();
    let bytes = write_ip_msfilter(&h, SourceFilterMode::Include, &sources);
    let (again, list) = read_ip_msfilter(&val(&bytes)).ok().unwrap();
    assert_eq!((again.req.group, again.fmode, list), (0xe000_0001, 1, sources.clone()));
    head[12] = 3;
    assert_eq!(read_ip_msfilter(&val(&head)).err(), Some(EINVAL));
    let mut g = vec![0u8; 144];
    g[0] = 4;
    g[8] = 2;
    g[12..16].copy_from_slice(&[224, 0, 0, 9]);
    g[140] = 1;
    let h = read_group_filter_query(&val(&g)).ok().unwrap();
    let bytes = write_group_filter(&h, SourceFilterMode::Exclude, &sources);
    assert_eq!(bytes.len(), 144 + 128);
    assert_eq!(bytes[140], 2);
    let mut one = bytes.clone();
    one[140] = 1;
    let (again, list) = read_group_filter(&val(&one)).ok().unwrap();
    assert_eq!((again.req.ifindex, again.fmode, list), (4, 0, vec![0x0102_0304]));
    one[144] = 10;
    assert_eq!(read_group_filter(&val(&one)).err(), Some(EADDRNOTAVAIL));
    assert!(ipv4_source_filter_mode(1) == Ok(SourceFilterMode::Include));
    assert!(ipv4_source_filter_mode(2) == Err(EINVAL));
    assert_eq!(ipv4_source_filter_mode_bits(SourceFilterMode::Exclude), 0);
}

#[test]
fn kinds_accept_their_options() {
    assert!(accepts_option(SocketKind::Unix, SO_PASSCRED));
    assert!(!accepts_option(SocketKind::Net, SO_PASSCRED));
    assert!(accepts_option(SocketKind::Net, SO_BUSY_POLL));
    assert!(!accepts_option(SocketKind::Unix, SO_SNDBUF));
    assert!(netlink_flag_option(NETLINK_CAP_ACK) && !netlink_flag_option(NETLINK_ADD_MEMBERSHIP));
    let unix = facts(SocketKind::Unix);
    assert!(matches!(set(&unix, SOL_SOCKET, SO_SNDBUF, &num(1)), Err(e) if e == ENOPROTOOPT));
    let net = facts(SocketKind::Net);
    assert!(matches!(set(&net, SOL_SOCKET, 999, &val(&[1])), Err(e) if e == EINVAL));
    assert!(matches!(set(&net, SOL_SOCKET, 999, &num(1)), Err(e) if e == ENOPROTOOPT));
    let none = facts(SocketKind::NotSocket);
    assert!(matches!(set(&none, SOL_SOCKET, SO_REUSEADDR, &num(1)), Err(e) if e == ENOTSOCK));
}

#[test]
fn socket_level_requests() {
    let f = facts(SocketKind::Net);
    let s = |o: usize, v: &OptVal| set(&f, SOL_SOCKET, o, v);
    assert!(matches!(s(SO_REUSEADDR, &num(1)), Ok(SetAction::Flag(SockFlag::ReuseAddr, true))));
    assert!(matches!(s(SO_REUSEPORT, &num(1)), Err(e) if e == EOPNOTSUPP));
    assert!(matches!(s(SO_REUSEPORT, &num(0)), Ok(SetAction::Nothing)));
    assert!(matches!(s(SO_BUSY_POLL, &num(-1)), Err(e) if e == EINVAL));
    assert!(matches!(s(SO_RCVTIMEO_OLD, &timeval(2, 0)), Ok(SetAction::RcvTimeout(Some(2000)))));
    assert!(matches!(s(SO_LOCK_FILTER, &num(1)), Ok(SetAction::LockFilter(true))));
    assert!(matches!(s(SO_DETACH_FILTER, &num(1)), Ok(SetAction::DetachFilter)));
    assert!(matches!(s(SO_ATTACH_FILTER, &num(1)), Ok(SetAction::AttachFilter)));
    let bad = SetFacts { filter: Err(EINVAL), ..f };
    assert!(matches!(set(&bad, SOL_SOCKET, SO_ATTACH_FILTER, &num(1)), Err(e) if e == EINVAL));
}

#[test]
fn devices_are_bound() {
    let f = facts(SocketKind::Net);
    let name = val(b"eth0\0");
    assert!(matches!(set(&f, SOL_SOCKET, SO_BINDTODEVICE, &name), Err(e) if e == ENODEV));
    let known = SetFacts { named_ifindex: Some(3), ..f };
    assert!(matches!(set(&known, SOL_SOCKET, SO_BINDTODEVICE, &name), Ok(SetAction::BindIfindex(3))));
    let bound = SetFacts { device_bound: true, ..known };
    assert!(matches!(set(&bound, SOL_SOCKET, SO_BINDTODEVICE, &name), Err(e) if e == EPERM));
    let raw = facts(SocketKind::Raw);
    let r: SetOutcome = syscall_setsockopt(&raw, SOL_SOCKET, SO_BINDTODEVICE, &name);
    assert!(matches!(r.action, Ok(SetAction::BindDevice)));
    assert_eq!(r.bytes, b"eth0".to_vec());
}

#[test]
fn programs_are_attached() {
    let f = SetFacts { prog_found: true, ..facts(SocketKind::Unix) };
    let bpf = |f: &SetFacts, v: &OptVal| set(f, SOL_SOCKET, SO_ATTACH_BPF, v);
    assert!(matches!(bpf(&f, &num(5)), Ok(SetAction::AttachBpf(5))));
    assert!(matches!(bpf(&f, &val(&[5])), Err(e) if e == EINVAL));
    let null = OptVal { ptr: 0, len: 4, mem: vec![] };
    assert!(matches!(bpf(&f, &null), Err(e) if e == EFAULT));
    assert!(matches!(bpf(&facts(SocketKind::Unix), &num(5)), Err(e) if e == EBADF));
    let netlink = SetFacts { prog_found: true, ..facts(SocketKind::Netlink) };
    assert!(matches!(bpf(&netlink, &num(5)), Err(e) if e == ENOPROTOOPT));
    assert!(matches!(bpf(&facts(SocketKind::NotSocket), &num(5)), Err(e) if e == ENOTSOCK));
}

#[test]
fn netlink_and_vsock_requests() {
    let n = facts(SocketKind::Netlink);
    assert!(matches!(
        set(&n, SOL_NETLINK, NETLINK_ADD_MEMBERSHIP, &num(4)),
        Ok(SetAction::NetlinkMembership(4, true))
    ));
    assert!(matches!(
        set(&n, SOL_NETLINK, NETLINK_CAP_ACK, &num(1)),
        Ok(SetAction::NetlinkFlag(NETLINK_CAP_ACK, true))
    ));
    assert!(matches!(set(&n, SOL_TCP, 1, &num(1)), Err(e) if e == ENOPROTOOPT));
    let mut s = settings(SocketKind::Netlink);
    s.netlink_flags = 1 << NETLINK_CAP_ACK;
    assert_eq!(get_int(&mut s, SOL_NETLINK, NETLINK_CAP_ACK), Ok(1));
    let v = facts(SocketKind::Vsock);
    let size = val(&77u64.to_le_bytes());
    let a = set(&v, LEVEL_VSOCK, SO_VM_SOCKETS_BUFFER_SIZE, &size).ok().unwrap();
    assert!(matches!(a, SetAction::VsockSize(77)));
    assert!(matches!(set(&v, SOL_SOCKET, SO_SNDBUF, &num(1)), Err(e) if e == EOPNOTSUPP));
    let mut s = settings(SocketKind::Vsock);
    apply_action(&mut s, a);
    assert_eq!(get(&mut s, LEVEL_VSOCK, SO_VM_SOCKETS_BUFFER_SIZE, 8), Ok(77u64.to_le_bytes().to_vec()));
    assert_eq!(get_int(&mut s, SOL_SOCKET, SO_DOMAIN), Ok(40));
}

#[test]
fn packet_requests() {
    let f = facts(SocketKind::Packet);
    let p = |o: usize, v: &OptVal| set(&f, SOL_PACKET, o, v);
    assert!(matches!(p(PACKET_VERSION, &num(1)), Ok(SetAction::PacketVersion(1))));
    assert!(matches!(p(PACKET_COPY_THRESH, &num(1)), Err(e) if e == EOPNOTSUPP));
    assert!(matches!(p(PACKET_IGNORE_OUTGOING, &num(2)), Err(e) if e == EINVAL));
    assert!(matches!(p(PACKET_AUXDATA, &num(1)), Ok(SetAction::Flag(SockFlag::Auxdata, true))));
    assert!(matches!(p(PACKET_TX_RING, &val(&[0; 16])), Ok(SetAction::Nothing)));
    assert!(matches!(p(PACKET_TX_RING, &val(&[1; 16])), Err(e) if e == EOPNOTSUPP));
    assert!(matches!(p(PACKET_RX_RING, &val(&[1; 16])), Ok(SetAction::RxRing(_))));
    let cooked = SetFacts { raw_packets: false, ..f };
    assert!(matches!(set(&cooked, SOL_PACKET, PACKET_VNET_HDR, &num(0)), Err(e) if e == EINVAL));
    let mut s = settings(SocketKind::Packet);
    s.packet.stat_packets = 9;
    s.packet.stat_drops = 2;
    let stats = get(&mut s, SOL_PACKET, PACKET_STATISTICS, 8).unwrap();
    assert_eq!(stats, vec![9, 0, 0, 0, 2, 0, 0, 0]);
    assert_eq!(get(&mut s, SOL_PACKET, PACKET_STATISTICS, 8).unwrap(), vec![0; 8]);
}

#[test]
fn ip_requests() {
    let raw = facts(SocketKind::Raw);
    let net = facts(SocketKind::Net);
    assert!(matches!(set(&raw, SOL_IP, IP_TTL, &num(-1)), Ok(SetAction::Ttl(64))));
    assert!(matches!(set(&net, SOL_IP, IP_TTL, &num(0)), Err(e) if e == EINVAL));
    assert!(matches!(set(&net, SOL_IP, IP_MULTICAST_TTL, &num(-1)), Ok(SetAction::MulticastTtl(1))));
    let tcp = SetFacts { tcp_stream: true, ..net };
    assert!(matches!(set(&tcp, SOL_IP, IP_MULTICAST_TTL, &num(1)), Err(e) if e == EINVAL));
    assert!(matches!(set(&net, SOL_IP, IP_OPTIONS, &num(1)), Err(e) if e == ENOPROTOOPT));
    let r = syscall_setsockopt(&raw, SOL_IP, IP_OPTIONS, &val(&[1, 2]));
    assert!(matches!(r.action, Ok(SetAction::IpOptions)));
    assert_eq!(r.bytes, vec![1, 2, 0, 0]);
    let m = val(&[224, 0, 0, 1, 10, 0, 0, 2]);
    match set(&net, SOL_IP, IP_ADD_MEMBERSHIP, &m) {
        Ok(SetAction::Membership(q, true)) => assert_eq!(q.group, 0xe000_0001),
        _ => panic!(),
    }
    let filter = val(&[224, 0, 0, 1, 10, 0, 0, 2, 1, 0, 0, 0, 1, 0, 0, 0, 9, 9, 9, 9]);
    let r = syscall_setsockopt(&net, SOL_IP, IP_MSFILTER, &filter);
    assert!(matches!(r.action, Ok(SetAction::SourceFilter(_, SourceFilterMode::Include))));
    assert_eq!(r.sources, vec![0x0909_0909]);
    assert!(matches!(set(&net, SOL_IP, MCAST_MSFILTER, &filter), Err(e) if e == EINVAL));
    assert!(matches!(set(&net, SOL_TCP, TCP_NODELAY, &num(1)), Ok(SetAction::TcpNodelay(true))));
    let mut s = settings(SocketKind::Net);
    assert_eq!(get_int(&mut s, SOL_IP, IP_MTU), Err(ENOTCONN));
    s.ip.path_mtu = Some(1500);
    assert_eq!(get_int(&mut s, SOL_IP, IP_MTU), Ok(1500));
    assert_eq!(get_int(&mut s, SOL_TCP, TCP_KEEPCNT), Ok(9));
}

#[test]
fn what_was_set_is_shown() {
    let f = SetFacts { caps: u64::MAX, ..facts(SocketKind::Net) };
    let mut s = settings(SocketKind::Net);
    for (o, n, shown) in [
        (SO_BROADCAST, 7, 1),
        (SO_KEEPALIVE, 0, 0),
        (SO_SNDBUF, 5000, 10_000),
        (SO_PRIORITY, 9, 9),
        (SO_RCVLOWAT, 0, 1),
    ] {
        let a = set(&f, SOL_SOCKET, o, &num(n)).ok().unwrap();
        apply_action(&mut s, a);
        assert_eq!(get_int(&mut s, SOL_SOCKET, o), Ok(shown));
    }
    set_flag(&mut s, SockFlag::KeepAlive, true);
    assert_eq!(get_int(&mut s, SOL_SOCKET, SO_KEEPALIVE), Ok(1));
    let a = set(&f, SOL_SOCKET, SO_LINGER, &val(&[1, 0, 0, 0, 5, 0, 0, 0])).ok().unwrap();
    apply_action(&mut s, a);
    assert_eq!(get(&mut s, SOL_SOCKET, SO_LINGER, 8), Ok(write_linger(true, 5)));
}

#[test]
fn errors_are_taken_once() {
    let mut s = settings(SocketKind::Net);
    s.error = 111;
    assert_eq!(get_int(&mut s, SOL_SOCKET, SO_ERROR), Ok(111));
    assert_eq!(get_int(&mut s, SOL_SOCKET, SO_ERROR), Ok(0));
}

#[test]
fn replies_are_cut_to_the_room() {
    let r = write_sockopt_bytes(2, vec![1, 2, 3]).ok().unwrap();
    assert_eq!((r.bytes, r.len), (vec![1, 2], 3));
    let mut s = settings(SocketKind::Unix);
    assert_eq!(get(&mut s, SOL_SOCKET, SO_TYPE, 2), Ok(vec![1, 0]));
    assert_eq!(get(&mut s, SOL_SOCKET, SO_PEERCRED, 12), Err(ENOTCONN));
    s.ident.peer_cred = Some(UCred { pid: 5, uid: 6, gid: 7 });
    assert_eq!(
        get(&mut s, SOL_SOCKET, SO_PEERCRED, 12),
        Ok(vec![5, 0, 0, 0, 6, 0, 0, 0, 7, 0, 0, 0])
    );
    assert_eq!(get(&mut s, SOL_SOCKET, 999, 4), Err(EOPNOTSUPP));
}

#[test]
fn attached_filters_are_shown() {
    let mut s = settings(SocketKind::Unix);
    let mut g = nothing();
    g.has_ebpf = true;
    let ask = |s: &mut SocketSettings, g: &GetFacts, n: usize| {
        syscall_getsockopt(s, g, 1, true, Ok(()), SOL_SOCKET, SO_ATTACH_FILTER, &room(n))
    };
    assert_eq!(ask(&mut s, &g, 4).err(), Some(EACCES));
    g.filter = Some(FilterImage { count: 2, bytes: vec![7; 16] });
    assert_eq!(ask(&mut s, &g, 0).ok().unwrap().len, 2);
    assert_eq!(ask(&mut s, &g, 1).err(), Some(EINVAL));
    assert_eq!(ask(&mut s, &g, 2).ok().unwrap().bytes, vec![7; 16]);
    let mut net = settings(SocketKind::Net);
    g.bound_name = Some(b"eth0".to_vec());
    let r = syscall_getsockopt(&mut net, &g, 1, true, Ok(()), SOL_SOCKET, SO_BINDTODEVICE, &room(16));
    assert_eq!(r.ok().unwrap().bytes, b"eth0\0".to_vec());
    let r = syscall_getsockopt(&mut net, &g, 0, true, Err(EBADF), SOL_SOCKET, SO_TYPE, &room(4));
    assert_eq!(r.err(), Some(EFAULT));
    let r = syscall_getsockopt(&mut net, &g, 1, true, Err(EBADF), SOL_SOCKET, SO_TYPE, &room(4));
    assert_eq!(r.err(), Some(EBADF));
}
