//! Which peer a packet goes to, and what a peer may send.

use vstd::prelude::*;
use crate::net::optval::AF_INET;
use crate::net::wireguard::config::{
    allowed_view, configs_view, device_by_index, device_place, devices_view, find_device,
    find_peer, netdev_at_from, peer_place, peers_view, AllowedIp, AllowedView, Device, DeviceView,
    NetDevice, NetDeviceView, Peer, PeerView, WireguardEndpoint, AF_INET6,
};
use crate::net::wireguard::ip_packets::{
    ipv4_in, ipv6_in, parse_ipv4_packet_info, parse_ipv6_packet_info,
};
use crate::text::copy_range;

verus! {

/// The upper `n` bits of a byte.
pub open spec fn upper_bits(b: u8, n: u8) -> u8 {
    b >> ((8 - n) as u8)
}

/// An address lies in a range: the first `cidr` bits agree.
pub open spec fn in_range(prefix: Seq<u8>, addr: Seq<u8>, cidr: u8) -> bool {
    let full = cidr as int / 8;
    let rest = (cidr % 8) as u8;
    &&& prefix.len() == addr.len()
    &&& forall|i: int| 0 <= i < full && i < prefix.len() ==> prefix[i] == addr[i]
    &&& rest == 0 || (full < prefix.len() && upper_bits(prefix[full], rest) == upper_bits(
        addr[full],
        rest,
    ))
}

/// Tells whether an address lies in a range.
pub fn prefix_matches(prefix: &[u8], addr: &[u8], cidr: u8) -> (r: bool)
    ensures
        r == in_range(prefix@, addr@, cidr),
{
    if prefix.len() != addr.len() {
        return false;
    }
    let full: usize = (cidr / 8) as usize;
    let rest: u8 = cidr % 8;
    let mut i: usize = 0;
    while i < full && i < prefix.len()
        invariant
            i <= full,
            i <= prefix@.len(),
            prefix@.len() == addr@.len(),
            full == cidr as int / 8,
            forall|j: int| 0 <= j < i ==> prefix@[j] == addr@[j],
        decreases full - i,
    {
        if prefix[i] != addr[i] {
            return false;
        }
        i += 1;
    }
    if rest == 0 {
        return true;
    }
    if full >= prefix.len() {
        return false;
    }
    let shift: u8 = 8 - rest;
    (prefix[full] >> shift) == (addr[full] >> shift)
}

/// A range of a peer that an address lies in.
pub open spec fn range_matches(a: AllowedView, family: u16, addr: Seq<u8>) -> bool {
    !a.remove && a.family == family && in_range(a.addr, addr, a.cidr)
}

fn allowed_matches(a: &AllowedIp, family: u16, addr: &[u8]) -> (r: bool)
    ensures
        r == range_matches(a@, family, addr@),
{
    !a.remove && a.family == family && prefix_matches(a.addr.as_slice(), addr, a.cidr)
}

// ---------------------------------------------------------------------------
// The narrowest range.
// ---------------------------------------------------------------------------

/// The place of a range: its peer, and its place there.
#[derive(Clone, Copy)]
pub struct RangePlace {
    pub peer: usize,
    pub range: usize,
}

/// Range `a` of peer `p` exists and the address lies in it.
pub open spec fn matches_at(
    peers: Seq<PeerView>,
    family: u16,
    addr: Seq<u8>,
    p: int,
    a: int,
) -> bool {
    0 <= p < peers.len() && 0 <= a < peers[p].allowed.len() && range_matches(
        peers[p].allowed[a],
        family,
        addr,
    )
}

pub open spec fn cidr_at(peers: Seq<PeerView>, p: int, a: int) -> u8 {
    peers[p].allowed[a].cidr
}

/// Place `(p, a)` comes before place `(q, b)`.
pub open spec fn earlier(p: int, a: int, q: int, b: int) -> bool {
    p < q || (p == q && a < b)
}

/// The best of the places before `(q, b)`: the narrowest range that the address
/// lies in, and of several the first.
pub open spec fn best_before(
    peers: Seq<PeerView>,
    family: u16,
    addr: Seq<u8>,
    best: Option<RangePlace>,
    q: int,
    b: int,
) -> bool {
    match best {
        None => forall|p: int, a: int|
            earlier(p, a, q, b) ==> !#[trigger] matches_at(peers, family, addr, p, a),
        Some(x) => {
            &&& earlier(x.peer as int, x.range as int, q, b)
            &&& matches_at(peers, family, addr, x.peer as int, x.range as int)
            &&& forall|p: int, a: int|
                earlier(p, a, q, b) && #[trigger] matches_at(peers, family, addr, p, a)
                    ==> cidr_at(peers, p, a) <= cidr_at(peers, x.peer as int, x.range as int) && (
                earlier(p, a, x.peer as int, x.range as int) ==> cidr_at(peers, p, a) < cidr_at(
                    peers,
                    x.peer as int,
                    x.range as int,
                ))
        },
    }
}

/// The best place of all.
pub open spec fn best_range(
    peers: Seq<PeerView>,
    family: u16,
    addr: Seq<u8>,
    best: Option<RangePlace>,
) -> bool {
    best_before(peers, family, addr, best, peers.len() as int, 0)
}

/// Finds the narrowest range of a tunnel's peers that an address lies in.
pub fn narrowest_range(peers: &Vec<Peer>, family: u16, addr: &[u8]) -> (r: Option<RangePlace>)
    ensures
        best_range(peers_view(peers@), family, addr@, r),
        r matches Some(x) ==> x.peer < peers@.len() && x.range
            < peers@[x.peer as int].allowed_ips@.len(),
{
    let ghost all = peers_view(peers@);
    let mut best: Option<RangePlace> = None;
    let mut p: usize = 0;
    while p < peers.len()
        invariant
            p <= peers@.len(),
            all == peers_view(peers@),
            best_before(all, family, addr@, best, p as int, 0),
            best matches Some(x) ==> x.peer < peers@.len() && x.range
                < peers@[x.peer as int].allowed_ips@.len(),
        decreases peers@.len() - p,
    {
        let ranges = &peers[p].allowed_ips;
        assert(all[p as int].allowed == allowed_view(ranges@));
        let mut a: usize = 0;
        while a < ranges.len()
            invariant
                a <= ranges@.len(),
                p < peers@.len(),
                all == peers_view(peers@),
                *ranges == peers@[p as int].allowed_ips,
                all[p as int].allowed == allowed_view(ranges@),
                best_before(all, family, addr@, best, p as int, a as int),
                best matches Some(x) ==> x.peer < peers@.len() && x.range
                    < peers@[x.peer as int].allowed_ips@.len(),
            decreases ranges@.len() - a,
        {
            assert(all[p as int].allowed[a as int] == ranges@[a as int]@);
            let fits: bool = allowed_matches(&ranges[a], family, addr);
            assert(fits == matches_at(all, family, addr@, p as int, a as int));
            if fits {
                let narrower: bool = match best {
                    None => true,
                    Some(x) => {
                        assert(all[x.peer as int].allowed == allowed_view(
                            peers@[x.peer as int].allowed_ips@,
                        ));
                        ranges[a].cidr > peers[x.peer].allowed_ips[x.range].cidr
                    },
                };
                if narrower {
                    best = Some(RangePlace { peer: p, range: a });
                }
            }
            a += 1;
        }
        p += 1;
    }
    best
}

/// A peer that an address leads to.
pub struct WireguardPeerRoute {
    pub public_key: [u8; 32],
    pub endpoint: Option<WireguardEndpoint>,
    pub allowed_family: u16,
    pub allowed_addr: Vec<u8>,
    pub allowed_cidr: u8,
}

/// The route to the peer and range at a place.
pub open spec fn route_at(peers: Seq<PeerView>, x: RangePlace, r: WireguardPeerRoute) -> bool {
    let p = peers[x.peer as int];
    let a = p.allowed[x.range as int];
    &&& r.public_key@ == p.public_key
    &&& crate::net::wireguard::config::endpoint_view(r.endpoint) == p.endpoint
    &&& r.allowed_family == a.family
    &&& r.allowed_addr@ == a.addr
    &&& r.allowed_cidr == a.cidr
}

/// Finds the peer of a tunnel that an address leads to. An address whose length
/// does not go with its family leads nowhere.
pub fn lookup_peer_by_allowed_ip(
    configs: &Vec<Device>,
    ifindex: i32,
    family: u16,
    addr: &[u8],
) -> (r: Option<WireguardPeerRoute>)
    ensures
        ({
            let wrong = (family == AF_INET && addr@.len() != 4) || (family == AF_INET6
                && addr@.len() != 16);
            let place = device_place(configs_view(configs@), ifindex);
            if wrong || place is None {
                r is None
            } else {
                let peers = configs_view(configs@)[place->0].peers;
                match r {
                    None => best_range(peers, family, addr@, None),
                    Some(route) => exists|x: RangePlace| #[trigger]
                        best_range(peers, family, addr@, Some(x)) && route_at(peers, x, route),
                }
            }
        }),
{
    if (family == AF_INET && addr.len() != 4) || (family == AF_INET6 && addr.len() != 16) {
        return None;
    }
    let k: usize = match find_device(configs, ifindex) {
        Some(k) => k,
        None => {
            return None;
        },
    };
    let peers = &configs[k].peers;
    let ghost all = peers_view(peers@);
    assert(configs_view(configs@)[k as int].peers == all);
    match narrowest_range(peers, family, addr) {
        None => None,
        Some(x) => {
            let peer = &peers[x.peer];
            let range = &peer.allowed_ips[x.range];
            let allowed_addr = copy_range(range.addr.as_slice(), 0, range.addr.len());
            assert(allowed_addr@ =~= range.addr@);
            let route = WireguardPeerRoute {
                public_key: peer.public_key,
                endpoint: peer.endpoint,
                allowed_family: range.family,
                allowed_addr,
                allowed_cidr: range.cidr,
            };
            assert(all[x.peer as int] == peer@);
            assert(allowed_view(peer.allowed_ips@)[x.range as int] == range@);
            assert(best_range(all, family, addr@, Some(x)) && route_at(all, x, route));
            Some(route)
        },
    }
}

// ---------------------------------------------------------------------------
// Routes over all tunnels.
// ---------------------------------------------------------------------------

/// A tunnel that is up.
pub open spec fn usable(devices: Seq<NetDeviceView>, ifindex: i32) -> bool {
    match netdev_at_from(devices, ifindex, 0) {
        Some(k) => devices[k].is_wireguard && devices[k].is_up,
        None => false,
    }
}

fn is_usable(devices: &Vec<NetDevice>, ifindex: i32) -> (r: bool)
    ensures
        r == usable(devices_view(devices@), ifindex),
{
    match device_by_index(devices, ifindex) {
        Some(k) => {
            assert(devices_view(devices@)[k as int] == devices@[k as int]@);
            devices[k].is_wireguard && devices[k].is_up
        },
        None => false,
    }
}

/// Where a packet goes: a tunnel, and a range of one of its peers.
#[derive(Clone, Copy)]
pub struct RoutePlace {
    pub device: usize,
    pub place: RangePlace,
}

pub open spec fn route_cidr(configs: Seq<DeviceView>, x: RoutePlace) -> u8 {
    cidr_at(configs[x.device as int].peers, x.place.peer as int, x.place.range as int)
}

/// The best of the first `n` tunnels: the narrowest range of a tunnel that is
/// up, and of several the one of the first tunnel.
pub open spec fn best_route(
    configs: Seq<DeviceView>,
    devices: Seq<NetDeviceView>,
    family: u16,
    addr: Seq<u8>,
    best: Option<RoutePlace>,
    n: int,
) -> bool {
    match best {
        None => forall|d: int, p: int, a: int|
            0 <= d < n && usable(devices, configs[d].ifindex) ==> !#[trigger] matches_at(
                configs[d].peers,
                family,
                addr,
                p,
                a,
            ),
        Some(x) => {
            &&& x.device < n
            &&& usable(devices, configs[x.device as int].ifindex)
            &&& best_range(configs[x.device as int].peers, family, addr, Some(x.place))
            &&& forall|d: int, p: int, a: int|
                0 <= d < n && usable(devices, configs[d].ifindex) && #[trigger] matches_at(
                    configs[d].peers,
                    family,
                    addr,
                    p,
                    a,
                ) ==> cidr_at(configs[d].peers, p, a) <= route_cidr(configs, x) && (d < x.device
                    ==> cidr_at(configs[d].peers, p, a) < route_cidr(configs, x))
        },
    }
}

/// Finds the tunnel and the peer that an address leads to.
pub fn route_for_inner(
    configs: &Vec<Device>,
    devices: &Vec<NetDevice>,
    family: u16,
    dst: &[u8],
) -> (r: Option<RoutePlace>)
    ensures
        best_route(
            configs_view(configs@),
            devices_view(devices@),
            family,
            dst@,
            r,
            configs@.len() as int,
        ),
        r matches Some(x) ==> x.device < configs@.len() && x.place.peer
            < configs@[x.device as int].peers@.len() && x.place.range
            < configs@[x.device as int].peers@[x.place.peer as int].allowed_ips@.len(),
{
    let ghost all = configs_view(configs@);
    let ghost devs = devices_view(devices@);
    let mut best: Option<RoutePlace> = None;
    let mut d: usize = 0;
    while d < configs.len()
        invariant
            d <= configs@.len(),
            all == configs_view(configs@),
            devs == devices_view(devices@),
            best_route(all, devs, family, dst@, best, d as int),
            best matches Some(x) ==> x.device < configs@.len() && x.place.peer
                < configs@[x.device as int].peers@.len() && x.place.range
                < configs@[x.device as int].peers@[x.place.peer as int].allowed_ips@.len(),
        decreases configs@.len() - d,
    {
        assert(all[d as int] == configs@[d as int]@);
        if is_usable(devices, configs[d].ifindex) {
            let found = narrowest_range(&configs[d].peers, family, dst);
            let ghost peers = all[d as int].peers;
            assert(best_range(peers, family, dst@, found));
            match found {
                None => {
                    assert(forall|p: int, a: int|
                        !#[trigger] matches_at(peers, family, dst@, p, a)) by {
                        assert forall|p: int, a: int|
                            !#[trigger] matches_at(peers, family, dst@, p, a) by {
                            if p < peers.len() {
                                assert(earlier(p, a, peers.len() as int, 0));
                            }
                        }
                    }
                },
                Some(place) => {
                    let cidr: u8 = configs[d].peers[place.peer].allowed_ips[place.range].cidr;
                    assert(peers[place.peer as int] == configs@[d as int].peers@[place.peer as int]@);
                    assert(cidr == cidr_at(peers, place.peer as int, place.range as int));
                    assert forall|p: int, a: int| #[trigger]
                        matches_at(peers, family, dst@, p, a) implies cidr_at(peers, p, a)
                        <= cidr by {
                        assert(earlier(p, a, peers.len() as int, 0));
                    }
                    let narrower: bool = match best {
                        None => true,
                        Some(x) => {
                            assert(all[x.device as int] == configs@[x.device as int]@);
                            assert(all[x.device as int].peers[x.place.peer as int]
                                == configs@[x.device as int].peers@[x.place.peer as int]@);
                            cidr
                                > configs[x.device].peers[x.place.peer].allowed_ips[x.place.range].cidr
                        },
                    };
                    if narrower {
                        best = Some(RoutePlace { device: d, place });
                    }
                },
            }
        }
        d += 1;
    }
    best
}

/// The tunnel and the peer of an IPv4 packet.
pub fn route_for_inner_ipv4(configs: &Vec<Device>, devices: &Vec<NetDevice>, dst: &[u8; 4]) -> (r:
    Option<RoutePlace>)
    ensures
        best_route(
            configs_view(configs@),
            devices_view(devices@),
            AF_INET,
            dst@,
            r,
            configs@.len() as int,
        ),
        r matches Some(x) ==> x.device < configs@.len() && x.place.peer
            < configs@[x.device as int].peers@.len() && x.place.range
            < configs@[x.device as int].peers@[x.place.peer as int].allowed_ips@.len(),
{
    route_for_inner(configs, devices, AF_INET, dst.as_slice())
}

/// The tunnel and the peer of an IPv6 packet.
pub fn route_for_inner_ipv6(configs: &Vec<Device>, devices: &Vec<NetDevice>, dst: &[u8; 16]) -> (r:
    Option<RoutePlace>)
    ensures
        best_route(
            configs_view(configs@),
            devices_view(devices@),
            AF_INET6,
            dst@,
            r,
            configs@.len() as int,
        ),
        r matches Some(x) ==> x.device < configs@.len() && x.place.peer
            < configs@[x.device as int].peers@.len() && x.place.range
            < configs@[x.device as int].peers@[x.place.peer as int].allowed_ips@.len(),
{
    route_for_inner(configs, devices, AF_INET6, dst.as_slice())
}

// ---------------------------------------------------------------------------
// What a peer may send.
// ---------------------------------------------------------------------------

/// An address lies in one of a peer's ranges.
pub open spec fn some_range(peers: Seq<PeerView>, family: u16, addr: Seq<u8>, p: int) -> bool {
    exists|a: int| #[trigger] matches_at(peers, family, addr, p, a)
}

/// A peer of a tunnel may use an address.
pub open spec fn may_use(
    configs: Seq<DeviceView>,
    ifindex: i32,
    key: Seq<u8>,
    family: u16,
    addr: Seq<u8>,
) -> bool {
    match device_place(configs, ifindex) {
        None => false,
        Some(k) => match peer_place(configs[k].peers, key) {
            None => false,
            Some(p) => some_range(configs[k].peers, family, addr, p),
        },
    }
}

fn peer_may_use(
    configs: &Vec<Device>,
    ifindex: i32,
    key: &[u8; 32],
    family: u16,
    addr: &[u8],
) -> (r: bool)
    ensures
        r == may_use(configs_view(configs@), ifindex, key@, family, addr@),
{
    let k: usize = match find_device(configs, ifindex) {
        Some(k) => k,
        None => {
            return false;
        },
    };
    assert(configs_view(configs@)[k as int] == configs@[k as int]@);
    let p: usize = match find_peer(&configs[k].peers, key) {
        Some(p) => p,
        None => {
            return false;
        },
    };
    let ghost peers = configs_view(configs@)[k as int].peers;
    let ranges = &configs[k].peers[p].allowed_ips;
    assert(peers[p as int] == configs@[k as int].peers@[p as int]@);
    let mut a: usize = 0;
    while a < ranges.len()
        invariant
            a <= ranges@.len(),
            p < peers.len(),
            peers[p as int].allowed == allowed_view(ranges@),
            k < configs@.len(),
            device_place(configs_view(configs@), ifindex) == Some(k as int),
            peers == configs_view(configs@)[k as int].peers,
            peer_place(peers, key@) == Some(p as int),
            forall|j: int|
                0 <= j < a ==> !#[trigger] matches_at(peers, family, addr@, p as int, j),
        decreases ranges@.len() - a,
    {
        assert(peers[p as int].allowed[a as int] == ranges@[a as int]@);
        if allowed_matches(&ranges[a], family, addr) {
            assert(matches_at(peers, family, addr@, p as int, a as int));
            assert(some_range(peers, family, addr@, p as int));
            return true;
        }
        a += 1;
    }
    false
}

/// Tells whether the source of a decrypted IPv4 packet is one that its peer may
/// use.
pub fn peer_allows_inner_ipv4_source(
    configs: &Vec<Device>,
    ifindex: i32,
    key: &[u8; 32],
    packet: &[u8],
) -> (r: bool)
    ensures
        r == match ipv4_in(packet@) {
            Some(i) => may_use(configs_view(configs@), ifindex, key@, AF_INET, i.src),
            None => false,
        },
{
    match parse_ipv4_packet_info(packet) {
        Some(info) => peer_may_use(configs, ifindex, key, AF_INET, info.src.as_slice()),
        None => false,
    }
}

/// Tells whether the source of a decrypted IPv6 packet is one that its peer may
/// use.
pub fn peer_allows_inner_ipv6_source(
    configs: &Vec<Device>,
    ifindex: i32,
    key: &[u8; 32],
    packet: &[u8],
) -> (r: bool)
    ensures
        r == match ipv6_in(packet@) {
            Some(i) => may_use(configs_view(configs@), ifindex, key@, AF_INET6, i.src),
            None => false,
        },
{
    match parse_ipv6_packet_info(packet) {
        Some(info) => peer_may_use(configs, ifindex, key, AF_INET6, info.src.as_slice()),
        None => false,
    }
}

/// A tunnel that takes packets at a port: it has a key and is up.
pub open spec fn listens(
    d: DeviceView,
    devices: Seq<NetDeviceView>,
    port: u16,
) -> bool {
    d.listen_port == Some(port) && d.private_key is Some && usable(devices, d.ifindex)
}

/// The first tunnel that takes packets at a port.
pub open spec fn listener_from(
    configs: Seq<DeviceView>,
    devices: Seq<NetDeviceView>,
    port: u16,
    i: int,
) -> Option<i32>
    decreases configs.len() - i,
{
    if i >= configs.len() {
        None
    } else if listens(configs[i], devices, port) {
        Some(configs[i].ifindex)
    } else {
        listener_from(configs, devices, port, i + 1)
    }
}

/// Finds the tunnel that takes packets at a port.
pub fn wireguard_ifindex_for_listen_port(
    configs: &Vec<Device>,
    devices: &Vec<NetDevice>,
    port: u16,
) -> (r: Option<i32>)
    ensures
        r == listener_from(configs_view(configs@), devices_view(devices@), port, 0),
{
    let ghost all = configs_view(configs@);
    let ghost devs = devices_view(devices@);
    let mut i: usize = 0;
    while i < configs.len()
        invariant
            i <= configs@.len(),
            all == configs_view(configs@),
            devs == devices_view(devices@),
            listener_from(all, devs, port, 0) == listener_from(all, devs, port, i as int),
        decreases configs@.len() - i,
    {
        assert(all[i as int] == configs@[i as int]@);
        let here: bool = match configs[i].listen_port {
            Some(p) => p == port,
            None => false,
        };
        if here && configs[i].private_key.is_some() && is_usable(devices, configs[i].ifindex) {
            return Some(configs[i].ifindex);
        }
        i += 1;
    }
    None
}

/// Tells whether a tunnel has a private key.
pub fn has_private_key(configs: &Vec<Device>, ifindex: i32) -> (r: bool)
    ensures
        r == match device_place(configs_view(configs@), ifindex) {
            Some(k) => configs_view(configs@)[k].private_key is Some,
            None => false,
        },
{
    match find_device(configs, ifindex) {
        Some(k) => {
            assert(configs_view(configs@)[k as int] == configs@[k as int]@);
            configs[k].private_key.is_some()
        },
        None => false,
    }
}

// ---------------------------------------------------------------------------
// Laws.
// ---------------------------------------------------------------------------

/// Every address of the family lies in a range of no bits.
pub proof fn law_default_range(prefix: Seq<u8>, addr: Seq<u8>)
    requires
        prefix.len() == addr.len(),
    ensures
        in_range(prefix, addr, 0),
{
}

/// An address lies in the range of all its bits only if it is that address.
pub proof fn law_host_range(prefix: Seq<u8>, addr: Seq<u8>)
    requires
        prefix.len() <= 16,
        in_range(prefix, addr, (8 * prefix.len()) as u8),
    ensures
        prefix == addr,
{
    assert(prefix =~= addr);
}

/// What an address leads to does not depend on how the question is put: two best
/// places are the same place.
pub proof fn law_best_range_is_one(
    peers: Seq<PeerView>,
    family: u16,
    addr: Seq<u8>,
    x: RangePlace,
    y: RangePlace,
)
    requires
        best_range(peers, family, addr, Some(x)),
        best_range(peers, family, addr, Some(y)),
    ensures
        x == y,
{
    assert(matches_at(peers, family, addr, x.peer as int, x.range as int));
    assert(matches_at(peers, family, addr, y.peer as int, y.range as int));
    if earlier(x.peer as int, x.range as int, y.peer as int, y.range as int) {
    } else if earlier(y.peer as int, y.range as int, x.peer as int, x.range as int) {
    }
}

} // verus!
