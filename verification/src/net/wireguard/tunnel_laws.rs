//! What tunnels do with packets, said of the bytes of the packets.

use vstd::prelude::*;
use crate::net::wireguard::config::{
    device_place, device_place_from, netdev_at_from, peer_place, peer_place_from, AllowedView,
    DeviceView, EndpointView, NetDeviceView, PeerView,
};
use crate::net::wireguard::handshakes::{can_send, keyed, receives, sends, window};
use crate::net::wireguard::ip_packets::{
    checksum, ipv4_in, ipv6_in, udp_in, word_sum, wrapped, UdpView,
};
use crate::net::wireguard::messages::{
    data_bytes, data_in, initiation_in, padded_len, padded_text, response_in, type_of,
    WireguardMessageType,
};
use crate::net::wireguard::noise::{hmac, kdf1, kdf2, kdf3, nonce_of, opened, sealed};
use crate::net::wireguard::replay::accepts;
use crate::net::wireguard::routing::{
    best_range, best_route, cidr_at, in_range, listener_from, listens, matches_at, may_use,
    range_matches, route_cidr, some_range, upper_bits, usable, RangePlace, RoutePlace,
};
use crate::net::wireguard::sessions::{
    first_from, queued, ready_numbered, ready_with, recently_started, waiting, PendingView, Session,
};
use crate::net::wireguard::state::{counted, index_after, new_index, WgView};
use crate::net::wireguard::tunnel::{
    allowed_inner, comes_in, flush_of, goes_through, routed, sent_view, some_text, FlushStep,
    Fresh, InboundView, Outbound,
};

verus! {

// ---------------------------------------------------------------------------
// Ranges of addresses.
// ---------------------------------------------------------------------------

/// Bit `k` of an address, the highest bit of the first byte first.
pub open spec fn bit(s: Seq<u8>, k: int) -> bool {
    (s[k / 8] >> ((7 - k % 8) as u8)) & 1 == 1
}

/// The first `n` bits of two addresses agree.
pub open spec fn agree(a: Seq<u8>, b: Seq<u8>, n: int) -> bool {
    a.len() == b.len() && forall|k: int|
        0 <= k < n && k < 8 * a.len() ==> #[trigger] bit(a, k) == bit(b, k)
}

proof fn lemma_bits(a: u8, b: u8, n: u8)
    requires
        1 <= n <= 8,
    ensures
        (a >> ((8 - n) as u8)) == (b >> ((8 - n) as u8)) <==> {
            &&& ((a >> 7u8) & 1 == 1) == ((b >> 7u8) & 1 == 1)
            &&& n <= 1 || ((a >> 6u8) & 1 == 1) == ((b >> 6u8) & 1 == 1)
            &&& n <= 2 || ((a >> 5u8) & 1 == 1) == ((b >> 5u8) & 1 == 1)
            &&& n <= 3 || ((a >> 4u8) & 1 == 1) == ((b >> 4u8) & 1 == 1)
            &&& n <= 4 || ((a >> 3u8) & 1 == 1) == ((b >> 3u8) & 1 == 1)
            &&& n <= 5 || ((a >> 2u8) & 1 == 1) == ((b >> 2u8) & 1 == 1)
            &&& n <= 6 || ((a >> 1u8) & 1 == 1) == ((b >> 1u8) & 1 == 1)
            &&& n <= 7 || ((a >> 0u8) & 1 == 1) == ((b >> 0u8) & 1 == 1)
        },
        n == 8 ==> (a >> ((8 - n) as u8)) == a && (b >> ((8 - n) as u8)) == b,
{
    assert(((a >> ((8 - n) as u8)) == (b >> ((8 - n) as u8)) <==> (((a >> 7u8) & 1 == 1) == ((b
        >> 7u8) & 1 == 1) && (n <= 1 || ((a >> 6u8) & 1 == 1) == ((b >> 6u8) & 1 == 1)) && (n <= 2
        || ((a >> 5u8) & 1 == 1) == ((b >> 5u8) & 1 == 1)) && (n <= 3 || ((a >> 4u8) & 1 == 1) == ((
    b >> 4u8) & 1 == 1)) && (n <= 4 || ((a >> 3u8) & 1 == 1) == ((b >> 3u8) & 1 == 1)) && (n <= 5
        || ((a >> 2u8) & 1 == 1) == ((b >> 2u8) & 1 == 1)) && (n <= 6 || ((a >> 1u8) & 1 == 1) == ((
    b >> 1u8) & 1 == 1)) && (n <= 7 || ((a >> 0u8) & 1 == 1) == ((b >> 0u8) & 1 == 1)))) && (n == 8 ==> (a >> ((8 - n) as u8)) == a && (b
        >> ((8 - n) as u8)) == b)) by (bit_vector)
        requires
            1 <= n <= 8,
    ;
}

/// The bits of one byte.
proof fn lemma_byte(a: Seq<u8>, b: Seq<u8>, i: int, n: u8)
    requires
        a.len() == b.len(),
        0 <= i < a.len(),
        1 <= n <= 8,
    ensures
        upper_bits(a[i], n) == upper_bits(b[i], n) <==> forall|k: int|
            8 * i <= k < 8 * i + n ==> #[trigger] bit(a, k) == bit(b, k),
        n == 8 ==> (upper_bits(a[i], n) == upper_bits(b[i], n) <==> a[i] == b[i]),
{
    lemma_bits(a[i], b[i], n);
    let same = upper_bits(a[i], n) == upper_bits(b[i], n);
    if same {
        assert forall|k: int| 8 * i <= k < 8 * i + n implies #[trigger] bit(a, k) == bit(b, k) by {
            assert(k / 8 == i);
            let j = k % 8;
            assert(j == 0 || j == 1 || j == 2 || j == 3 || j == 4 || j == 5 || j == 6 || j == 7);
        }
    }
    if forall|k: int| 8 * i <= k < 8 * i + n ==> #[trigger] bit(a, k) == bit(b, k) {
        assert(bit(a, 8 * i) == bit(b, 8 * i));
        assert(n <= 1 || bit(a, 8 * i + 1) == bit(b, 8 * i + 1));
        assert(n <= 2 || bit(a, 8 * i + 2) == bit(b, 8 * i + 2));
        assert(n <= 3 || bit(a, 8 * i + 3) == bit(b, 8 * i + 3));
        assert(n <= 4 || bit(a, 8 * i + 4) == bit(b, 8 * i + 4));
        assert(n <= 5 || bit(a, 8 * i + 5) == bit(b, 8 * i + 5));
        assert(n <= 6 || bit(a, 8 * i + 6) == bit(b, 8 * i + 6));
        assert(n <= 7 || bit(a, 8 * i + 7) == bit(b, 8 * i + 7));
    }
}

/// An address lies in a range exactly if its first bits, as many as the range says,
/// are those of the range.
pub proof fn law_ranges_go_by_bits(prefix: Seq<u8>, addr: Seq<u8>, cidr: u8)
    requires
        prefix.len() == addr.len(),
    ensures
        in_range(prefix, addr, cidr) ==> agree(prefix, addr, cidr as int),
        cidr <= 8 * prefix.len() && agree(prefix, addr, cidr as int) ==> in_range(
            prefix,
            addr,
            cidr,
        ),
{
    let full = cidr as int / 8;
    let rest = (cidr % 8) as u8;
    if in_range(prefix, addr, cidr) {
        assert forall|k: int| 0 <= k < cidr && k < 8 * prefix.len() implies #[trigger] bit(prefix, k)
            == bit(addr, k) by {
            let i = k / 8;
            if i < full {
                assert(prefix[i] == addr[i]);
            } else {
                assert(i == full && rest > 0);
                lemma_byte(prefix, addr, i, rest);
                assert(8 * i <= k < 8 * i + rest);
            }
        }
    }
    if cidr <= 8 * prefix.len() && agree(prefix, addr, cidr as int) {
        assert forall|i: int| 0 <= i < full && i < prefix.len() implies prefix[i] == addr[i] by {
            lemma_byte(prefix, addr, i, 8);
            assert forall|k: int| 8 * i <= k < 8 * i + 8 implies #[trigger] bit(prefix, k) == bit(
                addr,
                k,
            ) by {
                assert(0 <= k < cidr);
            }
        }
        if rest > 0 {
            lemma_byte(prefix, addr, full, rest);
            assert forall|k: int| 8 * full <= k < 8 * full + rest implies #[trigger] bit(prefix, k)
                == bit(addr, k) by {
                assert(0 <= k < cidr);
            }
        }
    }
}

// ---------------------------------------------------------------------------
// Places of tunnels and peers.
// ---------------------------------------------------------------------------

/// Tunnel `d` is the first with a number.
pub open spec fn tunnel_is(configs: Seq<DeviceView>, ifindex: i32, d: int) -> bool {
    &&& 0 <= d < configs.len()
    &&& configs[d].ifindex == ifindex
    &&& forall|e: int| 0 <= e < d ==> (#[trigger] configs[e]).ifindex != ifindex
}

/// Peer `p` is the first with a key.
pub open spec fn peer_is(peers: Seq<PeerView>, key: Seq<u8>, p: int) -> bool {
    &&& 0 <= p < peers.len()
    &&& peers[p].public_key == key
    &&& forall|q: int| 0 <= q < p ==> (#[trigger] peers[q]).public_key != key
}

proof fn lemma_tunnel(configs: Seq<DeviceView>, ifindex: i32, i: int)
    requires
        0 <= i <= configs.len(),
        forall|e: int| 0 <= e < i ==> (#[trigger] configs[e]).ifindex != ifindex,
    ensures
        match device_place_from(configs, ifindex, i) {
            Some(d) => tunnel_is(configs, ifindex, d),
            None => forall|e: int|
                0 <= e < configs.len() ==> (#[trigger] configs[e]).ifindex != ifindex,
        },
    decreases configs.len() - i,
{
    if i < configs.len() && configs[i].ifindex != ifindex {
        lemma_tunnel(configs, ifindex, i + 1);
    }
}

proof fn lemma_peer(peers: Seq<PeerView>, key: Seq<u8>, i: int)
    requires
        0 <= i <= peers.len(),
        forall|q: int| 0 <= q < i ==> (#[trigger] peers[q]).public_key != key,
    ensures
        match peer_place_from(peers, key, i) {
            Some(p) => peer_is(peers, key, p),
            None => forall|q: int|
                0 <= q < peers.len() ==> (#[trigger] peers[q]).public_key != key,
        },
    decreases peers.len() - i,
{
    if i < peers.len() && peers[i].public_key != key {
        lemma_peer(peers, key, i + 1);
    }
}

/// A tunnel is found by its number, and a peer by its key.
pub proof fn law_tunnels_and_peers_are_found(
    configs: Seq<DeviceView>,
    ifindex: i32,
    peers: Seq<PeerView>,
    key: Seq<u8>,
    d: int,
    p: int,
)
    ensures
        device_place(configs, ifindex) == Some(d) <==> tunnel_is(configs, ifindex, d),
        peer_place(peers, key) == Some(p) <==> peer_is(peers, key, p),
{
    lemma_tunnel(configs, ifindex, 0);
    lemma_peer(peers, key, 0);
    if tunnel_is(configs, ifindex, d) {
        let e = device_place(configs, ifindex)->0;
        assert(configs[d].ifindex == ifindex);
        if e < d {
            assert(configs[e].ifindex != ifindex);
        } else if d < e {
            assert(configs[d].ifindex != ifindex);
        }
    }
    if peer_is(peers, key, p) {
        let q = peer_place(peers, key)->0;
        assert(peers[p].public_key == key);
        if q < p {
            assert(peers[q].public_key != key);
        } else if p < q {
            assert(peers[p].public_key != key);
        }
    }
}

/// A range of a peer that holds an address.
pub open spec fn range_holds(a: AllowedView, family: u16, addr: Seq<u8>) -> bool {
    !a.remove && a.family == family && agree(a.addr, addr, a.cidr as int) && a.cidr <= 8
        * addr.len()
}

/// Range `a` of the peer with a key, of the tunnel with a number, holds an address.
pub open spec fn allows(
    configs: Seq<DeviceView>,
    ifindex: i32,
    key: Seq<u8>,
    family: u16,
    addr: Seq<u8>,
    d: int,
    p: int,
    a: int,
) -> bool {
    &&& tunnel_is(configs, ifindex, d)
    &&& peer_is(configs[d].peers, key, p)
    &&& 0 <= a < configs[d].peers[p].allowed.len()
    &&& range_holds(configs[d].peers[p].allowed[a], family, addr)
}

proof fn lemma_allows(
    configs: Seq<DeviceView>,
    ifindex: i32,
    key: Seq<u8>,
    family: u16,
    addr: Seq<u8>,
    d: int,
    p: int,
    a: int,
)
    requires
        allows(configs, ifindex, key, family, addr, d, p, a),
    ensures
        may_use(configs, ifindex, key, family, addr),
{
    law_tunnels_and_peers_are_found(configs, ifindex, configs[d].peers, key, d, p);
    let r = configs[d].peers[p].allowed[a];
    law_ranges_go_by_bits(r.addr, addr, r.cidr);
    assert(matches_at(configs[d].peers, family, addr, p, a));
    assert(some_range(configs[d].peers, family, addr, p));
}

// ---------------------------------------------------------------------------
// Packets in a tunnel.
// ---------------------------------------------------------------------------

/// A well-formed IPv6 packet, and its length.
pub open spec fn is_ipv6(text: Seq<u8>, total: int) -> bool {
    &&& text.len() >= 40
    &&& 0x60 <= text[0] <= 0x6f
    &&& total == 40 + 256 * text[4] + text[5]
    &&& total <= text.len()
}

/// A well-formed IPv4 packet, and its length.
pub open spec fn is_ipv4(text: Seq<u8>, total: int) -> bool {
    &&& text.len() >= 20
    &&& 0x45 <= text[0] <= 0x4f
    &&& total == 256 * text[2] + text[3]
    &&& 4 * (text[0] - 0x40) <= total <= text.len()
}

/// A packet whose source lies in a range of the peer that sent it comes out of the
/// tunnel, without what follows its end. This holds of IPv6 and of IPv4.
pub proof fn law_allowed_packets_come_out(
    configs: Seq<DeviceView>,
    ifindex: i32,
    key: Seq<u8>,
    text: Seq<u8>,
    total: int,
    d: int,
    p: int,
    a: int,
)
    ensures
        is_ipv6(text, total) && allows(
            configs,
            ifindex,
            key,
            10,
            text.subrange(8, 24),
            d,
            p,
            a,
        ) ==> allowed_inner(configs, ifindex, key, text) == Some(text.subrange(0, total)),
        is_ipv4(text, total) && allows(
            configs,
            ifindex,
            key,
            2,
            text.subrange(12, 16),
            d,
            p,
            a,
        ) ==> allowed_inner(configs, ifindex, key, text) == Some(text.subrange(0, total)),
{
    if is_ipv6(text, total) && allows(configs, ifindex, key, 10, text.subrange(8, 24), d, p, a) {
        lemma_allows(configs, ifindex, key, 10, text.subrange(8, 24), d, p, a);
        assert(text.subrange(0, total) =~= text.take(total));
    }
    if is_ipv4(text, total) && allows(configs, ifindex, key, 2, text.subrange(12, 16), d, p, a) {
        lemma_allows(configs, ifindex, key, 2, text.subrange(12, 16), d, p, a);
        assert(text.subrange(0, total) =~= text.take(total));
    }
}

/// Range `a` of the peer with a key, of the tunnel with a number, begins as an address
/// does.
pub open spec fn begins(
    configs: Seq<DeviceView>,
    ifindex: i32,
    key: Seq<u8>,
    family: u16,
    addr: Seq<u8>,
    d: int,
    p: int,
    a: int,
) -> bool {
    let r = configs[d].peers[p].allowed[a];
    &&& tunnel_is(configs, ifindex, d)
    &&& peer_is(configs[d].peers, key, p)
    &&& 0 <= a < configs[d].peers[p].allowed.len()
    &&& !r.remove
    &&& r.family == family
    &&& agree(r.addr, addr, r.cidr as int)
}

/// Only such packets come out: of what comes out the source lies in a range of the
/// peer, and it is the beginning of what was encrypted.
pub proof fn law_only_allowed_packets_come_out(
    configs: Seq<DeviceView>,
    ifindex: i32,
    key: Seq<u8>,
    text: Seq<u8>,
)
    ensures
        allowed_inner(configs, ifindex, key, text) matches Some(q) ==> {
            &&& q == text.subrange(0, q.len() as int)
            &&& {
                ||| is_ipv4(text, q.len() as int) && exists|d: int, p: int, a: int|
                    begins(configs, ifindex, key, 2, text.subrange(12, 16), d, p, a)
                ||| is_ipv6(text, q.len() as int) && exists|d: int, p: int, a: int|
                    begins(configs, ifindex, key, 10, text.subrange(8, 24), d, p, a)
            }
        },
{
    if let Some(q) = allowed_inner(configs, ifindex, key, text) {
        assert(q =~= text.subrange(0, q.len() as int));
        lemma_tunnel(configs, ifindex, 0);
        let d = device_place(configs, ifindex)->0;
        lemma_peer(configs[d].peers, key, 0);
        let p = peer_place(configs[d].peers, key)->0;
        let v4 = text[0] / 16 == 4;
        let src = if v4 {
            text.subrange(12, 16)
        } else {
            text.subrange(8, 24)
        };
        let family: u16 = if v4 {
            2
        } else {
            10
        };
        assert(some_range(configs[d].peers, family, src, p));
        let a = choose|a: int| #[trigger] matches_at(configs[d].peers, family, src, p, a);
        let r = configs[d].peers[p].allowed[a];
        law_ranges_go_by_bits(r.addr, src, r.cidr);
        assert(begins(configs, ifindex, key, family, src, d, p, a));
    }
}

proof fn lemma_counting_allows(
    configs: Seq<DeviceView>,
    ifindex: i32,
    key: Seq<u8>,
    rx: int,
    tx: int,
    family: u16,
    addr: Seq<u8>,
    d: int,
    p: int,
    a: int,
)
    requires
        allows(configs, ifindex, key, family, addr, d, p, a),
    ensures
        allows(counted(configs, ifindex, key, rx, tx), ifindex, key, family, addr, d, p, a),
{
    let t = counted(configs, ifindex, key, rx, tx);
    lemma_tunnel(configs, ifindex, 0);
    lemma_peer(configs[d].peers, key, 0);
    law_tunnels_and_peers_are_found(configs, ifindex, configs[d].peers, key, d, p);
    assert forall|e: int| 0 <= e < d implies (#[trigger] t[e]).ifindex != ifindex by {
        assert(configs[e].ifindex != ifindex);
    }
    assert forall|q: int| 0 <= q < p implies (#[trigger] t[d].peers[q]).public_key != key by {
        assert(configs[d].peers[q].public_key != key);
    }
}

/// A data message for a session that is ready, whose counter is new and which
/// decrypts to a packet from an address that its peer may use, puts that packet out
/// of the tunnel. Nothing else comes of it.
pub proof fn law_data_is_delivered(
    s: WgView,
    t: WgView,
    ifindex: i32,
    u: UdpView,
    f: Fresh,
    r: InboundView,
    i: int,
    text: Seq<u8>,
    total: int,
    d: int,
    p: int,
    a: int,
)
    requires
        comes_in(s, t, ifindex, u, f, r),
        u.payload.len() >= 32,
        u.payload[0] == 4,
        u.payload[1] == 0,
        u.payload[2] == 0,
        u.payload[3] == 0,
        session_named(
            s.sessions,
            ifindex,
            (u.payload[4] + 256 * u.payload[5] + 65536 * u.payload[6] + 16777216
                * u.payload[7]) as u32,
            i,
        ),
        ({
            let counter = (u.payload[8] + 0x100 * u.payload[9] + 0x1_0000 * u.payload[10]
                + 0x100_0000 * u.payload[11] + 0x1_0000_0000 * u.payload[12] + 0x100_0000_0000
                * u.payload[13] + 0x1_0000_0000_0000 * u.payload[14] + 0x100_0000_0000_0000
                * u.payload[15]) as u64;
            &&& opened(
                s.sessions[i].keypair->0.receiving.key@,
                counter,
                Seq::empty(),
                u.payload.skip(16),
            ) == Some(text)
            &&& accepts(window(s.sessions[i]), counter)
        }),
        (is_ipv6(text, total) && allows(
            s.configs,
            ifindex,
            s.sessions[i].peer_public_key@,
            10,
            text.subrange(8, 24),
            d,
            p,
            a,
        )) || (is_ipv4(text, total) && allows(
            s.configs,
            ifindex,
            s.sessions[i].peer_public_key@,
            2,
            text.subrange(12, 16),
            d,
            p,
            a,
        )),
    ensures
        r.inner == Some(text.subrange(0, total)),
        r.reply is None,
        r.flush.len() == 0,
{
    let pl = u.payload;
    let index = (pl[4] + 256 * pl[5] + 65536 * pl[6] + 16777216 * pl[7]) as u32;
    law_sessions_are_found(s.sessions, ifindex, Seq::empty(), index, i);
    assert(type_of(pl) == Some(WireguardMessageType::Data));
    let o = choose|o: Option<(Seq<u8>, Seq<u8>)>|
        {
            &&& #[trigger] receives(s, t, ifindex, pl, o)
            &&& r == (InboundView {
                inner: match o {
                    Some(o) => allowed_inner(t.configs, ifindex, o.0, o.1),
                    None => None,
                },
                ..crate::net::wireguard::tunnel::nothing()
            })
        };
    let key = s.sessions[i].peer_public_key@;
    assert(o == Some((key, text)));
    assert(t.configs == counted(s.configs, ifindex, key, text.len() as int, 0));
    let family: u16 = if is_ipv6(text, total) {
        10
    } else {
        2
    };
    let src = if is_ipv6(text, total) {
        text.subrange(8, 24)
    } else {
        text.subrange(12, 16)
    };
    lemma_counting_allows(
        s.configs,
        ifindex,
        key,
        text.len() as int,
        0,
        family,
        src,
        d,
        p,
        a,
    );
    law_allowed_packets_come_out(t.configs, ifindex, key, text, total, d, p, a);
}

/// A UDP packet is read by its bytes: the ports behind the IP header, and the text
/// behind the ports, as long as the UDP header says.
pub proof fn law_udp_packets_are_read(p: Seq<u8>, total: int, h: int, n: int)
    requires
        is_ipv4(p, total),
        h == 4 * (p[0] - 0x40),
        p[9] == 17,
        n == 256 * p[h + 4] + p[h + 5],
        8 <= n <= total - h,
    ensures
        udp_in(p) matches Some(u) && u.info.src == p.subrange(12, 16) && u.info.dst == p.subrange(
            16,
            20,
        ) && u.src_port == 256 * p[h] + p[h + 1] && u.dst_port == 256 * p[h + 2] + p[h + 3]
            && u.payload == p.subrange(h + 8, h + n),
{
    assert(ipv4_in(p) is Some);
    assert((p[0] % 16) * 4 == h);
}

/// Packets that are no UDP packets are not taken for tunnel messages.
pub proof fn law_other_packets_are_left(p: Seq<u8>)
    ensures
        udp_in(p) is Some ==> p[9] == 17 && is_ipv4(p, 256 * p[2] + p[3]),
{
}

/// A device that is there, is a tunnel and is up.
pub open spec fn is_up(devices: Seq<NetDeviceView>, ifindex: i32, k: int) -> bool {
    &&& 0 <= k < devices.len()
    &&& devices[k].ifindex == ifindex
    &&& forall|j: int| 0 <= j < k ==> (#[trigger] devices[j]).ifindex != ifindex
    &&& devices[k].is_wireguard
    &&& devices[k].is_up
}

proof fn lemma_netdev(devices: Seq<NetDeviceView>, ifindex: i32, i: int)
    requires
        0 <= i <= devices.len(),
        forall|j: int| 0 <= j < i ==> (#[trigger] devices[j]).ifindex != ifindex,
    ensures
        match netdev_at_from(devices, ifindex, i) {
            Some(k) => 0 <= k < devices.len() && devices[k].ifindex == ifindex && forall|j: int|
                0 <= j < k ==> (#[trigger] devices[j]).ifindex != ifindex,
            None => forall|j: int|
                0 <= j < devices.len() ==> (#[trigger] devices[j]).ifindex != ifindex,
        },
    decreases devices.len() - i,
{
    if i < devices.len() && devices[i].ifindex != ifindex {
        lemma_netdev(devices, ifindex, i + 1);
    }
}

/// A tunnel can be used exactly if its device is up.
pub proof fn law_tunnels_that_can_be_used(devices: Seq<NetDeviceView>, ifindex: i32)
    ensures
        usable(devices, ifindex) <==> exists|k: int| is_up(devices, ifindex, k),
{
    lemma_netdev(devices, ifindex, 0);
    if usable(devices, ifindex) {
        assert(is_up(devices, ifindex, netdev_at_from(devices, ifindex, 0)->0));
    }
    if exists|k: int| is_up(devices, ifindex, k) {
        let k = choose|k: int| is_up(devices, ifindex, k);
        let m = netdev_at_from(devices, ifindex, 0)->0;
        assert(devices[k].ifindex == ifindex);
        if m < k {
            assert(devices[m].ifindex != ifindex);
        } else if k < m {
            assert(devices[k].ifindex != ifindex);
        }
    }
}

/// A message is for the first tunnel that listens at its port, has a key and is up.
pub proof fn law_messages_go_by_port(
    configs: Seq<DeviceView>,
    devices: Seq<NetDeviceView>,
    port: u16,
    i: int,
)
    requires
        0 <= i <= configs.len(),
    ensures
        match listener_from(configs, devices, port, i) {
            Some(ifindex) => exists|d: int|
                i <= d < configs.len() && (#[trigger] configs[d]).ifindex == ifindex
                    && configs[d].listen_port == Some(port) && configs[d].private_key is Some
                    && usable(devices, ifindex),
            None => forall|d: int|
                i <= d < configs.len() ==> !((#[trigger] configs[d]).listen_port == Some(port)
                    && configs[d].private_key is Some && usable(devices, configs[d].ifindex)),
        },
    decreases configs.len() - i,
{
    if i < configs.len() {
        law_messages_go_by_port(configs, devices, port, i + 1);
        if listens(configs[i], devices, port) {
            assert(configs[i].ifindex == listener_from(configs, devices, port, i)->0);
        }
    }
}

// ---------------------------------------------------------------------------
// Packets into a tunnel.
// ---------------------------------------------------------------------------

/// Range `a` of peer `p` of tunnel `d`, which can be used, holds an address.
pub open spec fn leads(
    configs: Seq<DeviceView>,
    devices: Seq<NetDeviceView>,
    family: u16,
    addr: Seq<u8>,
    d: int,
    p: int,
    a: int,
) -> bool {
    &&& 0 <= d < configs.len()
    &&& usable(devices, configs[d].ifindex)
    &&& 0 <= p < configs[d].peers.len()
    &&& 0 <= a < configs[d].peers[p].allowed.len()
    &&& range_holds(configs[d].peers[p].allowed[a], family, addr)
}

/// A packet takes the way of the narrowest range that holds its destination, among
/// the tunnels that are up; without such a range no tunnel takes it.
pub proof fn law_the_narrowest_range_is_taken(
    configs: Seq<DeviceView>,
    devices: Seq<NetDeviceView>,
    family: u16,
    addr: Seq<u8>,
    best: Option<RoutePlace>,
    d: int,
    p: int,
    a: int,
)
    requires
        best_route(configs, devices, family, addr, best, configs.len() as int),
        leads(configs, devices, family, addr, d, p, a),
    ensures
        best matches Some(x) && x.device < configs.len() && usable(
            devices,
            configs[x.device as int].ifindex,
        ) && x.place.peer < configs[x.device as int].peers.len() && x.place.range
            < configs[x.device as int].peers[x.place.peer as int].allowed.len() && {
            let r =
                configs[x.device as int].peers[x.place.peer as int].allowed[x.place.range as int];
            &&& !r.remove && r.family == family && agree(r.addr, addr, r.cidr as int)
            &&& configs[d].peers[p].allowed[a].cidr <= r.cidr
        },
{
    let r = configs[d].peers[p].allowed[a];
    law_ranges_go_by_bits(r.addr, addr, r.cidr);
    assert(matches_at(configs[d].peers, family, addr, p, a));
    if let Some(x) = best {
        let peers = configs[x.device as int].peers;
        assert(matches_at(peers, family, addr, x.place.peer as int, x.place.range as int));
        let b = peers[x.place.peer as int].allowed[x.place.range as int];
        law_ranges_go_by_bits(b.addr, addr, b.cidr);
    }
}

/// A packet whose destination lies in a range of a tunnel that is up is taken by a
/// tunnel, and does not leave by another way; one that lies in none is left.
pub proof fn law_matching_packets_are_taken(
    s: WgView,
    t: WgView,
    devices: Seq<NetDeviceView>,
    family: u16,
    dst: Seq<u8>,
    ns: u64,
    inner: Seq<u8>,
    f: Fresh,
    r: Outbound,
)
    requires
        routed(s, t, devices, family, dst, ns, inner, f, r),
    ensures
        (exists|d: int, p: int, a: int| leads(s.configs, devices, family, dst, d, p, a))
            ==> !(r is NotOurs),
        (forall|d: int, p: int, a: int|
            #![trigger s.configs[d].peers[p].allowed[a]]
            0 <= d < s.configs.len() && 0 <= p < s.configs[d].peers.len() && 0 <= a
                < s.configs[d].peers[p].allowed.len() ==> s.configs[d].peers[p].allowed[a].family
                != family || !agree(
                s.configs[d].peers[p].allowed[a].addr,
                dst,
                s.configs[d].peers[p].allowed[a].cidr as int,
            )) ==> r is NotOurs && t == s,
{
    let best = choose|x: Option<RoutePlace>|
        {
            &&& #[trigger] best_route(
                s.configs,
                devices,
                family,
                dst,
                x,
                s.configs.len() as int,
            )
            &&& match x {
                None => r is NotOurs && t == s,
                Some(place) => goes_through(s, t, place, ns, inner, f, r),
            }
        };
    if exists|d: int, p: int, a: int| leads(s.configs, devices, family, dst, d, p, a) {
        let (d, p, a) = choose|d: int, p: int, a: int|
            leads(s.configs, devices, family, dst, d, p, a);
        law_the_narrowest_range_is_taken(s.configs, devices, family, dst, best, d, p, a);
    }
    if let Some(x) = best {
        let peers = s.configs[x.device as int].peers;
        assert(matches_at(peers, family, dst, x.place.peer as int, x.place.range as int));
        let b = s.configs[x.device as int].peers[x.place.peer as int].allowed[x.place.range as int];
        law_ranges_go_by_bits(b.addr, dst, b.cidr);
    }
}

/// The bytes of a data message: the number 4, the peer's number for the session, the
/// counter, and the encrypted text.
pub open spec fn is_data_message(m: Seq<u8>, index: u32, counter: u64, text: Seq<u8>) -> bool {
    &&& m.len() == 16 + text.len()
    &&& m[0] == 4 && m[1] == 0 && m[2] == 0 && m[3] == 0
    &&& m[4] + 256 * m[5] + 65536 * m[6] + 16777216 * m[7] == index
    &&& m[8] + 0x100 * m[9] + 0x1_0000 * m[10] + 0x100_0000 * m[11] + 0x1_0000_0000 * m[12]
        + 0x100_0000_0000 * m[13] + 0x1_0000_0000_0000 * m[14] + 0x100_0000_0000_0000 * m[15]
        == counter
    &&& m.skip(16) == text
}

/// Session `i` is the first of a tunnel with a peer that has keys.
pub open spec fn session_with(s: Seq<Session>, ifindex: i32, key: Seq<u8>, i: int) -> bool {
    &&& 0 <= i < s.len()
    &&& s[i].ifindex == ifindex && s[i].peer_public_key@ == key && s[i].keypair is Some
    &&& forall|j: int|
        0 <= j < i ==> !((#[trigger] s[j]).ifindex == ifindex && s[j].peer_public_key@ == key
            && s[j].keypair is Some)
}

/// Session `i` is the first of a tunnel with a number that has keys.
pub open spec fn session_named(s: Seq<Session>, ifindex: i32, index: u32, i: int) -> bool {
    &&& 0 <= i < s.len()
    &&& s[i].ifindex == ifindex && s[i].local_index == index && s[i].keypair is Some
    &&& forall|j: int|
        0 <= j < i ==> !((#[trigger] s[j]).ifindex == ifindex && s[j].local_index == index
            && s[j].keypair is Some)
}

proof fn lemma_first(s: Seq<Session>, p: spec_fn(Session) -> bool, i: int, j: int)
    requires
        0 <= j <= i < s.len(),
        p(s[i]),
        forall|m: int| 0 <= m < i ==> !p(#[trigger] s[m]),
    ensures
        first_from(s, p, j) == Some(i),
    decreases i - j,
{
    if j < i {
        lemma_first(s, p, i, j + 1);
    }
}

/// Sessions are found by their peer, to send, and by their number, to receive.
pub proof fn law_sessions_are_found(s: Seq<Session>, ifindex: i32, key: Seq<u8>, index: u32, i: int)
    ensures
        session_with(s, ifindex, key, i) ==> ready_with(s, ifindex, key) == Some(i),
        session_named(s, ifindex, index, i) ==> ready_numbered(s, ifindex, index) == Some(i),
{
    if session_with(s, ifindex, key, i) {
        assert forall|p: spec_fn(Session) -> bool|
            (forall|x: Session| #[trigger]
                p(x) <==> x.ifindex == ifindex && x.peer_public_key@ == key && x.keypair is Some)
                implies #[trigger] first_from(s, p, 0) == Some(i) by {
            lemma_first(s, p, i, 0);
        }
    }
    if session_named(s, ifindex, index, i) {
        lemma_first(
            s,
            |x: Session| x.ifindex == ifindex && x.local_index == index && x.keypair is Some,
            i,
            0,
        );
    }
}

/// With a session, a packet is encrypted under the session's key and the next counter,
/// and sent from the tunnel's port to the address and port of the peer. The bytes are
/// counted as sent, and the counter is used up.
pub proof fn law_packets_are_sent_to_the_peer(
    s: WgView,
    t: WgView,
    x: RoutePlace,
    ns: u64,
    inner: Seq<u8>,
    f: Fresh,
    r: Outbound,
    b: Seq<u8>,
    i: int,
)
    requires
        goes_through(s, t, x, ns, inner, f, r),
        ({
            let d = s.configs[x.device as int];
            let peer = d.peers[x.place.peer as int];
            &&& peer.endpoint == Some(EndpointView::Ipv4(b))
            &&& b.len() == 16
            &&& d.listen_port is Some
            &&& session_with(s.sessions, d.ifindex, peer.public_key, i)
            &&& s.sessions[i].keypair->0.sending.is_valid
            &&& s.sessions[i].keypair->0.sending_counter < 0xffff_ffff_ffff_e03e
        }),
    ensures
        ({
            let d = s.configs[x.device as int];
            let k = s.sessions[i].keypair->0;
            &&& sent_view(r) matches Some(o) && o.1 == b.subrange(4, 8) && o.2 == 256 * b[2] + b[3]
                && Some(o.3) == d.listen_port && is_data_message(
                o.0,
                k.remote_index,
                k.sending_counter,
                sealed(k.sending.key@, k.sending_counter, Seq::empty(), padded_text(inner)),
            )
            &&& t.sessions[i].keypair->0.sending_counter == k.sending_counter + 1
            &&& t.pending == s.pending
        }),
{
    let d = s.configs[x.device as int];
    let peer = d.peers[x.place.peer as int];
    let k = s.sessions[i].keypair->0;
    law_sessions_are_found(s.sessions, d.ifindex, peer.public_key, 0, i);
    assert(can_send(s.sessions[i]));
    assert forall|m: WgView| !(#[trigger] sends(s, m, d.ifindex, peer.public_key, inner, None)) by {
    }
    let text = choose|text: Seq<u8>|
        sends(s, t, d.ifindex, peer.public_key, inner, #[trigger] some_text(text)) && sent_view(r)
            == Some((text, b.subrange(4, 8), crate::bytes::be16(b, 2) as u16, d.listen_port->0));
    let cipher = sealed(k.sending.key@, k.sending_counter, Seq::empty(), padded_text(inner));
    law_data_messages(k.remote_index, k.sending_counter, cipher);
}

/// Data messages have their parts at fixed places.
pub proof fn law_data_messages(index: u32, counter: u64, text: Seq<u8>)
    ensures
        is_data_message(
            data_bytes(
                crate::net::wireguard::messages::DataView { key_idx: index, counter, payload: text },
            ),
            index,
            counter,
            text,
        ),
{
    let m = data_bytes(
        crate::net::wireguard::messages::DataView { key_idx: index, counter, payload: text },
    );
    assert(m.skip(16) =~= text);
    let lo = (counter % 0x1_0000_0000) as u32;
    let hi = (counter / 0x1_0000_0000) as u32;
    crate::bytes::lemma_le32_inverse(index);
    crate::bytes::lemma_le32_inverse(lo);
    crate::bytes::lemma_le32_inverse(hi);
    let a = crate::bytes::le32_bytes(index);
    let b = crate::bytes::le32_bytes(lo);
    let c = crate::bytes::le32_bytes(hi);
    assert(m[4] == a[0] && m[5] == a[1] && m[6] == a[2] && m[7] == a[3]);
    assert(m[8] == b[0] && m[9] == b[1] && m[10] == b[2] && m[11] == b[3]);
    assert(m[12] == c[0] && m[13] == c[1] && m[14] == c[2] && m[15] == c[3]);
}

/// Messages are told apart by their first four bytes and their length.
pub proof fn law_kinds_of_messages(p: Seq<u8>)
    ensures
        ({
            let number = |n: u8|
                p.len() >= 4 && p[0] == n && p[1] == 0 && p[2] == 0 && p[3] == 0;
            &&& type_of(p) == Some(WireguardMessageType::HandshakeInitiation) <==> number(1)
                && p.len() == 148
            &&& type_of(p) == Some(WireguardMessageType::HandshakeResponse) <==> number(2)
                && p.len() == 92
            &&& type_of(p) == Some(WireguardMessageType::HandshakeCookie) <==> number(3) && p.len()
                == 64
            &&& type_of(p) == Some(WireguardMessageType::Data) <==> number(4) && p.len() >= 32
        }),
{
}

/// The parts of the handshake messages are at fixed places.
pub proof fn law_parts_of_handshakes(p: Seq<u8>)
    ensures
        initiation_in(p) matches Some(m) ==> {
            &&& p.len() == 148
            &&& m.sender_index == p[4] + 256 * p[5] + 65536 * p[6] + 16777216 * p[7]
            &&& m.ephemeral == p.subrange(8, 40)
            &&& m.enc_static == p.subrange(40, 88)
            &&& m.enc_timestamp == p.subrange(88, 116)
            &&& m.mac1 == p.subrange(116, 132)
            &&& m.mac2 == p.subrange(132, 148)
        },
        response_in(p) matches Some(m) ==> {
            &&& p.len() == 92
            &&& m.sender_index == p[4] + 256 * p[5] + 65536 * p[6] + 16777216 * p[7]
            &&& m.receiver_index == p[8] + 256 * p[9] + 65536 * p[10] + 16777216 * p[11]
            &&& m.ephemeral == p.subrange(12, 44)
            &&& m.enc_nothing == p.subrange(44, 60)
            &&& m.mac1 == p.subrange(60, 76)
            &&& m.mac2 == p.subrange(76, 92)
        },
{
}

/// What is encrypted is the packet with zeros up to a multiple of sixteen bytes.
pub proof fn law_padding(s: Seq<u8>)
    ensures
        padded_text(s).len() % 16 == 0,
        s.len() <= padded_text(s).len() < s.len() + 16,
        padded_text(s).subrange(0, s.len() as int) == s,
        forall|i: int| s.len() <= i < padded_text(s).len() ==> #[trigger] padded_text(s)[i] == 0,
{
    assert(padded_len(s.len() as int) % 16 == 0);
    assert(padded_text(s).subrange(0, s.len() as int) =~= s);
}

/// The nonce of a message is its counter behind four zeros.
pub proof fn law_nonces(counter: u64)
    ensures
        nonce_of(counter).len() == 12,
        forall|i: int| 0 <= i < 4 ==> #[trigger] nonce_of(counter)[i] == 0,
        nonce_of(counter).skip(4) == crate::bytes::le64_bytes(counter),
{
    assert(nonce_of(counter).skip(4) =~= crate::bytes::le64_bytes(counter));
}

/// Derived keys form a chain: the first comes of the number 1, and each other of the
/// one before it and its own number.
pub proof fn law_derived_keys(ck: Seq<u8>, input: Seq<u8>)
    ensures
        ({
            let t = hmac(ck, input);
            &&& kdf1(ck, input) == hmac(t, seq![1u8])
            &&& kdf2(ck, input) == hmac(t, kdf1(ck, input) + seq![2u8])
            &&& kdf3(ck, input) == hmac(t, kdf2(ck, input) + seq![3u8])
        }),
{
    assert(kdf1(ck, input).push(2u8) =~= kdf1(ck, input) + seq![2u8]);
    assert(kdf2(ck, input).push(3u8) =~= kdf2(ck, input) + seq![3u8]);
}

/// A session with fresh keys: who started it sends with the first derived key and
/// receives with the second; the other side does the reverse.
pub proof fn law_keys_of_a_session(
    x: Session,
    ifindex: i32,
    key: Seq<u8>,
    index: u32,
    ck: Seq<u8>,
    remote_index: u32,
    initiator: bool,
    now: u64,
)
    requires
        keyed(x, ifindex, key, index, ck, remote_index, initiator, now),
    ensures
        ({
            let k = x.keypair->0;
            let first = kdf1(ck, Seq::empty());
            let second = kdf2(ck, Seq::empty());
            &&& x.keypair is Some && x.local_index == index && k.remote_index == remote_index
            &&& k.sending.key@ == if initiator {
                first
            } else {
                second
            }
            &&& k.receiving.key@ == if initiator {
                second
            } else {
                first
            }
            &&& k.sending_counter == 0
            &&& k.sending.is_valid && k.receiving.is_valid
        }),
{
}

// ---------------------------------------------------------------------------
// Waiting, counting and numbers.
// ---------------------------------------------------------------------------

/// A packet that has to wait is the last in the queue; while there is room nothing is
/// lost for it.
pub proof fn law_waiting_packets(q: Seq<PendingView>, x: PendingView)
    ensures
        queued(q, x).len() > 0,
        queued(q, x).last() == x,
        queued(q, x).len() <= 256,
        waiting(q, x.ifindex, x.peer) < 64 && q.len() < 256 ==> queued(q, x) == q.push(x),
{
}

/// A packet that waited goes the way of its version.
pub proof fn law_waiting_packets_go_their_way(p: Seq<u8>)
    ensures
        p.len() > 0 && 0x40 <= p[0] <= 0x4f ==> flush_of(p) == FlushStep::Ipv4,
        p.len() > 0 && 0x60 <= p[0] <= 0x6f ==> flush_of(p) == FlushStep::Ipv6,
        p.len() == 0 || !(0x40 <= p[0] <= 0x4f || 0x60 <= p[0] <= 0x6f) ==> flush_of(p)
            == FlushStep::Drop,
{
}

/// Bytes are counted for the peer that they came from or went to, and for no other.
pub proof fn law_bytes_are_counted(
    configs: Seq<DeviceView>,
    ifindex: i32,
    key: Seq<u8>,
    rx: int,
    tx: int,
    d: int,
    p: int,
)
    requires
        tunnel_is(configs, ifindex, d),
        peer_is(configs[d].peers, key, p),
        0 <= rx,
        0 <= tx,
        configs[d].peers[p].rx_bytes + rx <= u64::MAX,
        configs[d].peers[p].tx_bytes + tx <= u64::MAX,
    ensures
        ({
            let t = counted(configs, ifindex, key, rx, tx);
            let old = configs[d].peers[p];
            &&& t.len() == configs.len()
            &&& t[d].peers.len() == configs[d].peers.len()
            &&& t[d].peers[p].rx_bytes == old.rx_bytes + rx
            &&& t[d].peers[p].tx_bytes == old.tx_bytes + tx
            &&& t[d].peers[p].public_key == key && t[d].peers[p].allowed == old.allowed
                && t[d].peers[p].endpoint == old.endpoint
            &&& forall|e: int| 0 <= e < configs.len() && e != d ==> #[trigger] t[e] == configs[e]
            &&& forall|q: int|
                0 <= q < configs[d].peers.len() && q != p ==> #[trigger] t[d].peers[q]
                    == configs[d].peers[q]
        }),
{
    law_tunnels_and_peers_are_found(configs, ifindex, configs[d].peers, key, d, p);
}

/// A handshake counts as recent for one second.
pub proof fn law_recent_handshakes(x: Session, ifindex: i32, key: Seq<u8>, now: u64)
    requires
        x.ifindex == ifindex,
        x.peer_public_key@ == key,
        x.created_ms <= now,
    ensures
        recently_started(x, ifindex, key, now) <==> x.keypair is None && now < x.created_ms + 1000,
{
}

/// Sessions are numbered one after the other, and none is zero.
pub proof fn law_session_numbers(next: u32)
    ensures
        new_index(next) != 0,
        next != 0 ==> new_index(next) == next,
        0 < next < u32::MAX ==> new_index(index_after(next)) == next + 1,
        new_index(index_after(u32::MAX)) == 1,
{
}

/// A message is wrapped in a header of twenty bytes for UDP, with 64 hops to live, and a
/// header of eight with the ports, the lengths and no checksum.
pub proof fn law_wrapped_messages(
    src: Seq<u8>,
    dst: Seq<u8>,
    src_port: u16,
    dst_port: u16,
    payload: Seq<u8>,
)
    requires
        src.len() == 4,
        dst.len() == 4,
        payload.len() + 28 <= 65535,
    ensures
        ({
            let p = wrapped(src, dst, src_port, dst_port, payload);
            &&& p.len() == 28 + payload.len()
            &&& p[0] == 0x45 && p[1] == 0 && p[4] == 0 && p[5] == 0 && p[6] == 0 && p[7] == 0
            &&& 256 * p[2] + p[3] == p.len()
            &&& p[8] == 64 && p[9] == 17
            &&& p.subrange(12, 16) == src && p.subrange(16, 20) == dst
            &&& 256 * p[20] + p[21] == src_port && 256 * p[22] + p[23] == dst_port
            &&& 256 * p[24] + p[25] == 8 + payload.len() && p[26] == 0 && p[27] == 0
            &&& p.subrange(28, p.len() as int) == payload
        }),
{
    let p = wrapped(src, dst, src_port, dst_port, payload);
    assert(p.subrange(12, 16) =~= src);
    assert(p.subrange(16, 20) =~= dst);
    assert(p.subrange(28, p.len() as int) =~= payload);
}

/// The sum of a text, by pairs of bytes, the higher one first.
pub open spec fn sum_of(s: Seq<u8>, n: int) -> int
    decreases n,
{
    if n <= 0 {
        0
    } else {
        sum_of(s, n - 1) + (if n % 2 == 1 {
            256 * s[n - 1]
        } else {
            s[n - 1] as int
        })
    }
}

proof fn lemma_sum(s: Seq<u8>)
    ensures
        word_sum(s) == sum_of(s, s.len() as int),
    decreases s.len(),
{
    if s.len() > 0 {
        if s.len() % 2 == 1 {
            lemma_sum(s.drop_last());
            lemma_sum_local(s, s.drop_last(), s.len() - 1);
        } else {
            let t = s.take(s.len() - 2);
            lemma_sum(t);
            lemma_sum_local(s, t, s.len() - 2);
            reveal_with_fuel(sum_of, 3);
        }
    }
}

proof fn lemma_sum_local(a: Seq<u8>, b: Seq<u8>, n: int)
    requires
        n <= a.len(),
        n <= b.len(),
        forall|i: int| 0 <= i < n ==> a[i] == b[i],
    ensures
        sum_of(a, n) == sum_of(b, n),
    decreases n,
{
    if n > 0 {
        lemma_sum_local(a, b, n - 1);
    }
}

/// A checksum is what the sum of a text lacks to a multiple of 65535.
pub proof fn law_checksums(s: Seq<u8>)
    requires
        s.len() <= 65536,
        0 <= sum_of(s, s.len() as int) < 0x1_0000_0000,
    ensures
        0 <= checksum(s) <= 65535,
        (sum_of(s, s.len() as int) + checksum(s)) % 65535 == 0,
        checksum(s) == 65535 <==> sum_of(s, s.len() as int) == 0,
{
    lemma_sum(s);
}

/// Among the peers of one tunnel the narrowest range that holds an address is taken, and
/// of ranges that are equally narrow the first one.
pub proof fn law_the_first_of_equals(
    peers: Seq<PeerView>,
    family: u16,
    addr: Seq<u8>,
    best: Option<RangePlace>,
    p: int,
    a: int,
)
    requires
        best_range(peers, family, addr, best),
        0 <= p < peers.len(),
        0 <= a < peers[p].allowed.len(),
        range_holds(peers[p].allowed[a], family, addr),
    ensures
        best matches Some(x) && x.peer < peers.len() && x.range
            < peers[x.peer as int].allowed.len() && {
            let r = peers[x.peer as int].allowed[x.range as int];
            let c = peers[p].allowed[a].cidr;
            &&& r.family == family && agree(r.addr, addr, r.cidr as int)
            &&& c <= r.cidr
            &&& c == r.cidr ==> x.peer < p || (x.peer == p && x.range <= a)
        },
{
    let r = peers[p].allowed[a];
    law_ranges_go_by_bits(r.addr, addr, r.cidr);
    assert(matches_at(peers, family, addr, p, a));
    if let Some(x) = best {
        let b = peers[x.peer as int].allowed[x.range as int];
        law_ranges_go_by_bits(b.addr, addr, b.cidr);
    }
}

} // verus!
