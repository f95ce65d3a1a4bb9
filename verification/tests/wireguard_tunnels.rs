//! Tunnels: their configuration, their sessions and the packets in them.

use linux_syscalls::errno::{EAFNOSUPPORT, EINVAL, ENODEV, EOPNOTSUPP, EPFNOSUPPORT};
use linux_syscalls::net::wireguard::config::{
    apply_allowed_ip_update, apply_peers, device_by_index, device_by_name, find_device, find_peer,
    new_device, parse_allowed_ips, parse_endpoint, parse_peer, precompute_static_static,
    read_key_attr, read_target, refresh_peer_precomputed_keys, same_allowed_ip, set_private_key,
    AllowedIp, Device, NetDevice,
};
use linux_syscalls::net::wireguard::handshakes::{
    decrypt_data_packet, encrypt_data_for_peer, handle_handshake_initiation,
    handle_handshake_response, prepare_handshake_initiation,
};
use linux_syscalls::net::wireguard::ip_packets::build_udp_ipv4_packet;
use linux_syscalls::net::wireguard::messages::tai64n_at;
use linux_syscalls::net::wireguard::noise::{public_key_from_private, x25519_shared_secret};
use linux_syscalls::net::wireguard::report::{
    build_device_msg, build_family_msg, handle_message, is_family_request, request_has_target,
};
use linux_syscalls::net::wireguard::routing::{
    has_private_key, lookup_peer_by_allowed_ip, narrowest_range, peer_allows_inner_ipv4_source,
    peer_allows_inner_ipv6_source, prefix_matches, route_for_inner, route_for_inner_ipv4,
    route_for_inner_ipv6, wireguard_ifindex_for_listen_port,
};
use linux_syscalls::net::wireguard::rtattr::{
    append_rtattr, build_done, build_genlmsg, find_attr, parse_rtattrs_checked,
    read_string_attr, read_u16_attr_checked, read_u32_attr_checked, read_u8_attr_checked, Attr,
};
use linux_syscalls::net::wireguard::sessions::{
    find_peer_session, find_ready_session, find_session, has_recent_pending_handshake,
    prune_sessions, queue_pending_data, remove_device_pending, remove_device_sessions,
    replace_session, settle_sessions, take_pending_data, Pending, Session,
};
use linux_syscalls::net::wireguard::state::{
    add_peer_bytes, apply_set_device, fresh_sender_index, prune_sessions_for_config, remove_config,
    Wireguard,
};
use linux_syscalls::net::wireguard::tunnel::{
    encapsulate_outbound_ipv4, encapsulate_outbound_ipv6, flush_pending_data,
    handle_inbound_ipv4_packet, FlushStep, Fresh, Outbound,
};

const A_PRIVATE: [u8; 32] = [11; 32];
const B_PRIVATE: [u8; 32] = [22; 32];

fn public(private: [u8; 32]) -> [u8; 32] {
    public_key_from_private(private).unwrap()
}

fn attr(kind: u16, data: &[u8]) -> Vec<u8> {
    let mut out = vec![];
    append_rtattr(&mut out, kind, data);
    out
}

fn join(parts: &[Vec<u8>]) -> Vec<u8> {
    parts.concat()
}

fn range(family: u16, addr: &[u8], cidr: u8) -> Vec<u8> {
    attr(0, &join(&[attr(1, &family.to_le_bytes()), attr(2, addr), attr(3, &[cidr])]))
}

fn endpoint(ip: [u8; 4], port: u16) -> Vec<u8> {
    let mut e = vec![2, 0];
    e.extend_from_slice(&port.to_be_bytes());
    e.extend_from_slice(&ip);
    e.extend_from_slice(&[0; 8]);
    e
}

fn peer(key: [u8; 32], ip: [u8; 4], port: u16, ranges: &[Vec<u8>]) -> Vec<u8> {
    attr(0, &join(&[attr(1, &key), attr(4, &endpoint(ip, port)), attr(9, &join(ranges))]))
}

fn device(ifindex: i32) -> NetDevice {
    NetDevice { ifindex, name: b"wg0".to_vec(), is_wireguard: true, is_up: true }
}

fn empty() -> Wireguard {
    Wireguard::new()
}

fn request(private: [u8; 32], port: u16, peers: &[Vec<u8>]) -> Vec<Attr> {
    let data = join(&[
        attr(1, &5u32.to_le_bytes()),
        attr(3, &private),
        attr(6, &port.to_le_bytes()),
        attr(8, &join(peers)),
    ]);
    parse_rtattrs_checked(&data).unwrap()
}

/// Two machines with a tunnel to each other.
fn pair() -> (Wireguard, Wireguard, Vec<NetDevice>) {
    let devices = vec![device(5)];
    let mut a = empty();
    let mut b = empty();
    let to_b = peer(public(B_PRIVATE), [1, 1, 1, 2], 2222, &[range(2, &[10, 0, 0, 2], 32)]);
    let to_a = peer(public(A_PRIVATE), [1, 1, 1, 1], 1111, &[range(2, &[10, 0, 0, 1], 32)]);
    assert_eq!(apply_set_device(&mut a, &request(A_PRIVATE, 1111, &[to_b]), &devices), Ok(()));
    assert_eq!(apply_set_device(&mut b, &request(B_PRIVATE, 2222, &[to_a]), &devices), Ok(()));
    (a, b, devices)
}

fn fresh(seed: u8, sec: i64) -> Fresh {
    Fresh { ephemeral_private: [seed; 32], timestamp: tai64n_at(sec, 0), now_ms: sec as u64 * 1000 }
}

fn inner(src: [u8; 4], dst: [u8; 4]) -> Vec<u8> {
    build_udp_ipv4_packet(src, dst, 7, 8, b"inside").unwrap()
}

fn sent(r: Outbound) -> (Vec<u8>, [u8; 4], u16, u16) {
    match r {
        Outbound::Send { payload, dst, dst_port, src_port } => (payload, dst, dst_port, src_port),
        _ => panic!(),
    }
}

#[test]
fn packets_travel_through_the_tunnel() {
    let (mut a, mut b, devices) = pair();
    let packet = inner([10, 0, 0, 1], [10, 0, 0, 2]);
    let (hello, dst, dport, sport) =
        sent(encapsulate_outbound_ipv4(&mut a, &devices, 3, &packet, &fresh(1, 10)));
    assert_eq!((hello.len(), dst, dport, sport), (148, [1, 1, 1, 2], 2222, 1111));
    assert_eq!(a.pending.len(), 1);
    let again = encapsulate_outbound_ipv4(&mut a, &devices, 3, &packet, &fresh(2, 10));
    assert!(matches!(again, Outbound::Consumed));
    let outer = build_udp_ipv4_packet([1, 1, 1, 1], [1, 1, 1, 2], sport, dport, &hello).unwrap();
    let got = handle_inbound_ipv4_packet(&mut b, &devices, &outer, &fresh(3, 11)).unwrap();
    let reply = got.reply.unwrap();
    let done = handle_inbound_ipv4_packet(&mut a, &devices, &reply, &fresh(4, 12)).unwrap();
    assert_eq!(done.flush.len(), 2);
    assert_eq!((done.flush[0].packet.clone(), done.flush[0].ns), (packet.clone(), 3));
    assert!(flush_pending_data(&packet) == FlushStep::Ipv4);
    let (data, _, _, _) =
        sent(encapsulate_outbound_ipv4(&mut a, &devices, 3, &packet, &fresh(5, 12)));
    let outer = build_udp_ipv4_packet([1, 1, 1, 1], [1, 1, 1, 2], sport, dport, &data).unwrap();
    let got = handle_inbound_ipv4_packet(&mut b, &devices, &outer, &fresh(6, 12)).unwrap();
    assert_eq!(got.inner, Some(packet.clone()));
    let replayed = handle_inbound_ipv4_packet(&mut b, &devices, &outer, &fresh(6, 12)).unwrap();
    assert_eq!(replayed.inner, None);
    let back = inner([10, 0, 0, 2], [10, 0, 0, 1]);
    let (data, _, _, _) = sent(encapsulate_outbound_ipv4(&mut b, &devices, 3, &back, &fresh(7, 13)));
    let outer = build_udp_ipv4_packet([1, 1, 1, 2], [1, 1, 1, 1], 2222, 1111, &data).unwrap();
    let got = handle_inbound_ipv4_packet(&mut a, &devices, &outer, &fresh(8, 13)).unwrap();
    assert_eq!(got.inner, Some(back));
}

#[test]
fn sources_are_checked() {
    let (mut a, mut b, devices) = pair();
    let packet = inner([10, 9, 9, 9], [10, 0, 0, 2]);
    let (hello, _, _, _) =
        sent(encapsulate_outbound_ipv4(&mut a, &devices, 3, &packet, &fresh(1, 10)));
    let answer = handle_handshake_initiation(&mut b, 5, &hello, [3; 32], 11).unwrap();
    assert!(handle_handshake_response(&mut a, 5, &answer, 12).is_some());
    let data = encrypt_data_for_peer(&mut a, 5, &public(B_PRIVATE), &packet).unwrap();
    let outer = build_udp_ipv4_packet([1, 1, 1, 1], [1, 1, 1, 2], 1111, 2222, &data).unwrap();
    let got = handle_inbound_ipv4_packet(&mut b, &devices, &outer, &fresh(4, 12)).unwrap();
    assert_eq!(got.inner, None);
}

#[test]
fn sealed_packets_are_opened() {
    let (mut a, mut b, _) = pair();
    let key = public(B_PRIVATE);
    assert!(encrypt_data_for_peer(&mut a, 5, &key, b"text").is_none());
    let hello = prepare_handshake_initiation(&mut a, 5, &key, [1; 32], tai64n_at(1, 0), 5).unwrap();
    assert!(has_recent_pending_handshake(&a.sessions, 5, &key, 6));
    let answer = handle_handshake_initiation(&mut b, 5, &hello, [3; 32], 11).unwrap();
    assert!(handle_handshake_initiation(&mut b, 5, &hello, [3; 32], 11).is_none());
    assert!(handle_handshake_response(&mut a, 5, &answer, 12).is_some());
    let data = encrypt_data_for_peer(&mut a, 5, &key, b"text").unwrap();
    let (from, text) = decrypt_data_packet(&mut b, 5, &data).unwrap();
    assert_eq!(from, public(A_PRIVATE));
    assert_eq!(text, b"text\0\0\0\0\0\0\0\0\0\0\0\0".to_vec());
    let received = b.configs[0].peers[0].rx_bytes;
    assert_eq!(received, 16);
    assert!(decrypt_data_packet(&mut b, 5, &data).is_none());
    assert_eq!(b.configs[0].peers[0].rx_bytes, received);
    let genuine = encrypt_data_for_peer(&mut a, 5, &key, b"more").unwrap();
    let mut forged = genuine.clone();
    forged[20] ^= 1;
    assert!(decrypt_data_packet(&mut b, 5, &forged).is_none());
    assert!(decrypt_data_packet(&mut b, 5, &genuine).is_some());
    assert!(prepare_handshake_initiation(&mut a, 6, &key, [1; 32], tai64n_at(1, 0), 5).is_none());
}

#[test]
fn packets_for_others_are_left_alone() {
    let (mut a, _, devices) = pair();
    let f = fresh(1, 10);
    let packet = inner([10, 0, 0, 1], [10, 0, 0, 3]);
    assert!(matches!(
        encapsulate_outbound_ipv4(&mut a, &devices, 3, &packet, &f),
        Outbound::NotOurs
    ));
    assert!(matches!(encapsulate_outbound_ipv4(&mut a, &devices, 3, &[1], &f), Outbound::NotOurs));
    assert!(matches!(encapsulate_outbound_ipv6(&mut a, &devices, 3, &[1], &f), Outbound::NotOurs));
    assert!(handle_inbound_ipv4_packet(&mut a, &devices, &packet, &f).is_none());
    a.configs[0].peers[0].endpoint = None;
    let packet = inner([10, 0, 0, 1], [10, 0, 0, 2]);
    assert!(matches!(
        encapsulate_outbound_ipv4(&mut a, &devices, 3, &packet, &f),
        Outbound::Consumed
    ));
    assert!(flush_pending_data(&[]) == FlushStep::Drop);
    assert!(flush_pending_data(&[0x60]) == FlushStep::Ipv6);
}

#[test]
fn ipv6_packets_take_the_tunnel_too() {
    let devices = vec![device(5)];
    let mut a = empty();
    let to_b = peer(public(B_PRIVATE), [1, 1, 1, 2], 2222, &[range(10, &[0xfd; 16], 8)]);
    assert_eq!(apply_set_device(&mut a, &request(A_PRIVATE, 1111, &[to_b]), &devices), Ok(()));
    let mut packet = vec![0u8; 40];
    packet[0] = 0x60;
    packet[24] = 0xfd;
    let r = sent(encapsulate_outbound_ipv6(&mut a, &devices, 3, &packet, &fresh(1, 10)));
    assert_eq!((r.0.len(), r.1), (148, [1, 1, 1, 2]));
    let mut dst = [0u8; 16];
    dst[0] = 0xfd;
    assert!(route_for_inner_ipv6(&a.configs, &devices, &dst).is_some());
    packet[8] = 0xfd;
    assert!(peer_allows_inner_ipv6_source(&a.configs, 5, &public(B_PRIVATE), &packet));
    packet[8] = 0xfc;
    assert!(!peer_allows_inner_ipv6_source(&a.configs, 5, &public(B_PRIVATE), &packet));
}

#[test]
fn attributes_read_back() {
    let data = join(&[attr(1, &[7]), attr(2, b"wg0\0"), attr(3, &[1, 2]), attr(4, &[1, 0, 0, 0])]);
    let attrs = parse_rtattrs_checked(&data).unwrap();
    assert_eq!(attrs.len(), 4);
    assert_eq!(find_attr(&attrs, 3), Some(2));
    assert_eq!(read_u8_attr_checked(&attrs, 1), Ok(Some(7)));
    assert_eq!(read_u16_attr_checked(&attrs, 3), Ok(Some(0x0201)));
    assert_eq!(read_u32_attr_checked(&attrs, 4), Ok(Some(1)));
    assert_eq!(read_u32_attr_checked(&attrs, 1), Err(EINVAL));
    assert_eq!(read_u32_attr_checked(&attrs, 9), Ok(None));
    assert_eq!(read_string_attr(&attrs, 2), Some(b"wg0".to_vec()));
    assert_eq!(parse_rtattrs_checked(&[9, 0, 1, 0]).err(), Some(EINVAL));
    let msg = build_genlmsg(19, 0, 1, 5, 2, 9, &data);
    assert_eq!(msg.len(), 20 + data.len());
    assert_eq!(msg[4..6], [19, 0]);
    assert_eq!(msg[8..12], [5, 0, 0, 0]);
    assert_eq!(build_done(5, 9)[4..6], [3, 0]);
}

#[test]
fn peers_are_read() {
    let key = public(B_PRIVATE);
    let body = |parts: &[Vec<u8>]| join(&[vec![attr(1, &key)], parts.to_vec()].concat());
    let (p, flags) = parse_peer(&body(&[
        attr(3, &2u32.to_le_bytes()),
        attr(4, &endpoint([1, 2, 3, 4], 500)),
        attr(5, &25u16.to_le_bytes()),
        attr(9, &range(2, &[10, 0, 0, 0], 8)),
    ]))
    .ok()
    .unwrap();
    assert_eq!((p.public_key, flags, p.persistent_keepalive), (key, 2, Some(25)));
    let e = p.endpoint.unwrap();
    assert_eq!(e.ipv4_addr_port(), Some(([1, 2, 3, 4], 500)));
    assert_eq!(e.as_sockaddr_bytes().len(), 16);
    assert_eq!(p.allowed_ips[0].cidr, 8);
    let err = |parts: &[Vec<u8>]| parse_peer(&body(parts)).err();
    assert_eq!(parse_peer(&vec![]).err(), Some(EINVAL));
    assert_eq!(err(&[attr(3, &8u32.to_le_bytes())]), Some(EINVAL));
    assert_eq!(err(&[attr(10, &2u32.to_le_bytes())]), Some(EPFNOSUPPORT));
    assert_eq!(err(&[attr(4, &[0; 8])]), Some(EINVAL));
    assert_eq!(err(&[attr(9, &range(3, &[10, 0, 0, 0], 8))]), Some(EAFNOSUPPORT));
    assert_eq!(err(&[attr(9, &range(2, &[10, 0, 0, 0], 33))]), Some(EINVAL));
    assert_eq!(err(&[attr(9, &range(2, &[10, 0], 8))]), Some(EINVAL));
    assert!(parse_endpoint(&endpoint([1, 2, 3, 4], 5)).ok().unwrap().is_some());
    assert!(parse_endpoint(&vec![9; 20]).ok().unwrap().is_none());
    let attrs = parse_rtattrs_checked(&attr(3, &[1; 31])).unwrap();
    assert_eq!(read_key_attr(&attrs, 3).err(), Some(EINVAL));
    assert_eq!(read_key_attr(&attrs, 4), Ok(None));
}

#[test]
fn ranges_are_added_once_and_removed() {
    let one = |remove: bool| AllowedIp { family: 2, addr: vec![10, 0, 0, 0], cidr: 8, remove };
    let mut list = vec![];
    apply_allowed_ip_update(&mut list, one(false));
    apply_allowed_ip_update(&mut list, one(false));
    assert_eq!(list.len(), 1);
    assert!(same_allowed_ip(&list[0], &one(true)));
    apply_allowed_ip_update(&mut list, one(true));
    assert!(list.is_empty());
    assert_eq!(parse_allowed_ips(&range(2, &[1, 2, 3, 4], 32)).ok().unwrap().len(), 1);
}

#[test]
fn no_tunnel_is_its_own_peer() {
    let mut d: Device = new_device(5, &b"wg0".to_vec());
    set_private_key(&mut d, A_PRIVATE);
    let own = peer(public(A_PRIVATE), [1, 1, 1, 1], 1, &[]);
    let other = peer(public(B_PRIVATE), [1, 1, 1, 1], 1, &[]);
    assert!(apply_peers(&mut d, &join(&[own, other])).is_ok());
    assert_eq!(d.peers.len(), 1);
    assert_eq!(find_peer(&d.peers, &public(B_PRIVATE)), Some(0));
    let shared = x25519_shared_secret(A_PRIVATE, public(B_PRIVATE));
    assert_eq!(d.peers[0].precomputed_static_static, shared);
    assert_eq!(precompute_static_static(Some(A_PRIVATE), public(B_PRIVATE)), shared);
    assert_eq!(precompute_static_static(None, public(B_PRIVATE)), None);
    set_private_key(&mut d, B_PRIVATE);
    assert!(d.peers.is_empty());
    assert_eq!(d.public_key, Some(public(B_PRIVATE)));
    refresh_peer_precomputed_keys(&mut d);
}

#[test]
fn targets_are_found() {
    let devices = vec![
        NetDevice { ifindex: 1, name: b"lo".to_vec(), is_wireguard: false, is_up: true },
        device(5),
    ];
    let by = |data: Vec<u8>| read_target(&parse_rtattrs_checked(&data).unwrap(), &devices);
    assert_eq!(by(attr(1, &5u32.to_le_bytes())), Ok(1));
    assert_eq!(by(attr(2, b"wg0\0")), Ok(1));
    assert_eq!(by(attr(2, b"wg9\0")), Err(ENODEV));
    assert_eq!(by(attr(1, &1u32.to_le_bytes())), Err(ENODEV));
    assert_eq!(by(vec![]), Err(ENODEV));
    assert_eq!(device_by_index(&devices, 5), Some(1));
    assert_eq!(device_by_name(&devices, &b"lo".to_vec()), Some(0));
}

#[test]
fn the_narrowest_range_wins() {
    let (mut a, _, devices) = pair();
    let wide = peer([7; 32], [2, 2, 2, 2], 9, &[range(2, &[10, 0, 0, 0], 8)]);
    let zero = peer([8; 32], [2, 2, 2, 2], 9, &[range(2, &[0, 0, 0, 0], 0)]);
    assert!(apply_peers(&mut a.configs[0], &join(&[wide, zero])).is_ok());
    let key = |dst: [u8; 4]| lookup_peer_by_allowed_ip(&a.configs, 5, 2, &dst).unwrap().public_key;
    assert_eq!(key([10, 0, 0, 2]), public(B_PRIVATE));
    assert_eq!(key([10, 0, 0, 3]), [7; 32]);
    assert_eq!(key([99, 0, 0, 3]), [8; 32]);
    let place = narrowest_range(&a.configs[0].peers, 2, &[10, 1, 1, 1]).unwrap();
    assert_eq!((place.peer, place.range), (1, 0));
    let route = route_for_inner_ipv4(&a.configs, &devices, &[10, 0, 0, 2]).unwrap();
    assert_eq!((route.device, route.place.peer), (0, 0));
    assert!(route_for_inner(&a.configs, &vec![], 2, &[10, 0, 0, 2]).is_none());
    assert!(prefix_matches(&[10, 128], &[10, 255], 9) && !prefix_matches(&[10, 128], &[10, 0], 9));
    assert!(prefix_matches(&[1, 2], &[9, 9], 0) && !prefix_matches(&[1], &[1, 1], 0));
    assert!(peer_allows_inner_ipv4_source(
        &a.configs,
        5,
        &public(B_PRIVATE),
        &inner([10, 0, 0, 2], [1, 1, 1, 1])
    ));
    assert!(!peer_allows_inner_ipv4_source(
        &a.configs,
        5,
        &[7; 32],
        &inner([11, 0, 0, 2], [1, 1, 1, 1])
    ));
    assert_eq!(wireguard_ifindex_for_listen_port(&a.configs, &devices, 1111), Some(5));
    assert_eq!(wireguard_ifindex_for_listen_port(&a.configs, &devices, 1112), None);
    assert!(has_private_key(&a.configs, 5) && !has_private_key(&a.configs, 6));
}

fn session(ifindex: i32, key: u8, index: u32) -> Session {
    Session {
        ifindex,
        peer_public_key: [key; 32],
        local_index: index,
        pending_state: None,
        pending_ephemeral_private: None,
        keypair: None,
        created_ms: 1,
    }
}

#[test]
fn sessions_are_kept_by_device_and_index() {
    let mut s = vec![];
    replace_session(&mut s, session(5, 1, 10));
    replace_session(&mut s, session(5, 2, 11));
    replace_session(&mut s, session(6, 1, 12));
    assert_eq!(find_session(&s, 5, 11), Some(1));
    assert_eq!(find_ready_session(&s, 5, 11), None);
    assert_eq!(find_peer_session(&s, 5, &[1; 32]), None);
    prune_sessions(&mut s, 5, &vec![[2; 32]]);
    assert_eq!(s.len(), 2);
    settle_sessions(&mut s, 5, &[2; 32], 11);
    remove_device_sessions(&mut s, 6);
    assert_eq!((s.len(), s[0].local_index), (1, 11));
    let d = new_device(5, &b"wg0".to_vec());
    prune_sessions_for_config(&mut s, &d);
    assert!(s.is_empty());
}

fn waiting(ifindex: i32, key: u8, n: u8) -> Pending {
    Pending { ifindex, peer_public_key: [key; 32], ns: 1, packet: vec![n] }
}

#[test]
fn waiting_packets_are_bounded() {
    let mut q = vec![];
    for n in 0..70 {
        queue_pending_data(&mut q, waiting(5, 1, n));
    }
    assert_eq!((q.len(), q[0].packet[0]), (64, 6));
    for key in 2..6 {
        for n in 0..60 {
            queue_pending_data(&mut q, waiting(5, key, n));
        }
    }
    assert_eq!(q.len(), 256);
    let taken = take_pending_data(&mut q, 5, &[5; 32]);
    assert_eq!((taken.len(), taken[0].packet[0], q.len()), (60, 0, 196));
    remove_device_pending(&mut q, 5);
    assert!(q.is_empty());
}

#[test]
fn removed_tunnels_are_gone() {
    let (mut a, _, devices) = pair();
    let packet = inner([10, 0, 0, 1], [10, 0, 0, 2]);
    sent(encapsulate_outbound_ipv4(&mut a, &devices, 3, &packet, &fresh(1, 10)));
    add_peer_bytes(&mut a.configs, 5, &public(B_PRIVATE), 7, 9);
    assert_eq!((a.configs[0].peers[0].rx_bytes, a.configs[0].peers[0].tx_bytes), (7, 9));
    remove_config(&mut a, 5);
    assert_eq!(find_device(&a.configs, 5), None);
    assert!(a.sessions.is_empty() && a.pending.is_empty());
    let mut next = u32::MAX;
    assert_eq!(fresh_sender_index(&mut next), u32::MAX);
    assert_ne!(fresh_sender_index(&mut next), 0);
}

#[test]
fn requests_are_answered() {
    let (mut a, _, devices) = pair();
    let all = handle_message(&mut a, &devices, 0, &vec![], 5, 9).unwrap();
    assert_eq!(all.len(), 2);
    assert_eq!(all[1], build_done(5, 9));
    let target = parse_rtattrs_checked(&attr(1, &5u32.to_le_bytes())).unwrap();
    assert!(request_has_target(&target));
    let one = handle_message(&mut a, &devices, 0, &target, 5, 9).unwrap();
    assert_eq!(one, vec![build_device_msg(&devices[0], &a.configs[0], 5, 9, 0)]);
    assert_eq!(handle_message(&mut a, &devices, 7, &vec![], 5, 9).err(), Some(EOPNOTSUPP));
    let bad = parse_rtattrs_checked(&join(&[
        attr(1, &5u32.to_le_bytes()),
        attr(5, &2u32.to_le_bytes()),
    ]))
    .unwrap();
    assert_eq!(handle_message(&mut a, &devices, 1, &bad, 5, 9).err(), Some(EINVAL));
}

#[test]
fn private_keys_are_not_told() {
    let (a, _, devices) = pair();
    let before = build_device_msg(&devices[0], &a.configs[0], 5, 9, 0);
    let mut d = new_device(5, &b"wg0".to_vec());
    d.private_key = Some([99; 32]);
    d.public_key = a.configs[0].public_key;
    d.listen_port = a.configs[0].listen_port;
    let mut config = a.configs;
    d.peers.append(&mut config[0].peers);
    assert_eq!(build_device_msg(&devices[0], &d, 5, 9, 0), before);
    assert!(!before.windows(32).any(|w| w == &A_PRIVATE[..]));
}

#[test]
fn the_family_is_announced() {
    let named = parse_rtattrs_checked(&attr(2, b"wireguard\0")).unwrap();
    assert!(is_family_request(&named));
    let other = parse_rtattrs_checked(&attr(2, b"nl80211\0")).unwrap();
    assert!(!is_family_request(&other));
    let msg = build_family_msg(5, 9);
    let attrs = parse_rtattrs_checked(&msg[20..]).unwrap();
    assert_eq!(read_u16_attr_checked(&attrs, 1), Ok(Some(19)));
    assert_eq!(read_string_attr(&attrs, 2), Some(b"wireguard".to_vec()));
}

#[test]
fn tunnels_stay_sound_when_a_request_fails() {
    let (mut a, _, devices) = pair();
    let known = peer(public(B_PRIVATE), [1, 1, 1, 2], 2222, &[range(2, &[10, 0, 0, 9], 32)]);
    let own = peer(public(A_PRIVATE), [1, 1, 1, 1], 1111, &[]);
    let bad = attr(1, &[1, 2, 3]);
    let request = request(A_PRIVATE, 1111, &[known, own, bad]);
    assert!(apply_set_device(&mut a, &request, &devices).is_err());
    let d = &a.configs[0];
    assert!(d.private_key.is_some() && d.public_key == Some(public(A_PRIVATE)));
    assert_eq!(d.peers.len(), 1);
    assert_eq!(d.peers[0].public_key, public(B_PRIVATE));
    assert_eq!(
        d.peers[0].precomputed_static_static,
        x25519_shared_secret(A_PRIVATE, public(B_PRIVATE))
    );
    assert!(d.peers[0].allowed_ips.iter().all(|r| !r.remove));
    assert_eq!(d.peers[0].allowed_ips.len(), 2);
}
