//! What requests do to tunnels, and what is told of them.

use vstd::prelude::*;
use crate::bytes::{le16, le16_bytes, le32, le32_bytes, le64_bytes};
use crate::errno::{EAFNOSUPPORT, EINVAL, ENODEV, ENOENT, EPFNOSUPPORT};
use crate::net::wireguard::config::{
    blank_device, endpoint_in, ipv4_of, kept_ranges, merged, netdev_at_from, netdev_named_from,
    peer_in, peer_place, peers_without, range_in, range_of, ranges_in, refreshed, shared_with,
    target_of, updated_all, updated_ranges, with_peer, with_private_key, without_range,
    AllowedView, DeviceView, EndpointView, NetDeviceView, PeerView,
};
use crate::net::wireguard::noise::{all_zero, public_of, shared_of};
use crate::net::wireguard::primitives::{x25519_public, x25519_shared};
use crate::net::wireguard::report::{
    config_of, device_attrs, device_msg, endpoint_bytes, get_replies, has_target, peer_attrs,
    peers_attrs, range_attrs, ranges_attrs, u16_text, u32_text,
};
use crate::net::wireguard::rtattr::{
    align4, attr_bytes, attrs_in, done_bytes, genl_bytes, text_value, value_of, zero_bytes,
    AttrView,
};
use crate::net::wireguard::sessions::{keep, of_others, pruned, Session};
use crate::net::wireguard::state::{request_of, set_device, set_up, SetRequest, WgView};
use crate::net::wireguard::tunnel_laws::peer_is;

verus! {

// ---------------------------------------------------------------------------
// Attributes.
// ---------------------------------------------------------------------------

/// Attribute `i` is the first with a number.
pub open spec fn attr_is(attrs: Seq<AttrView>, kind: u16, i: int) -> bool {
    &&& 0 <= i < attrs.len()
    &&& attrs[i].kind == kind
    &&& forall|j: int| 0 <= j < i ==> (#[trigger] attrs[j]).kind != kind
}

/// The value of an attribute is that of the first one with its number.
pub proof fn law_first_attribute_counts(attrs: Seq<AttrView>, kind: u16, i: int)
    ensures
        attr_is(attrs, kind, i) ==> value_of(attrs, kind) == Some(attrs[i].data),
        (forall|j: int| 0 <= j < attrs.len() ==> (#[trigger] attrs[j]).kind != kind) ==> value_of(
            attrs,
            kind,
        ) is None,
    decreases attrs.len(),
{
    if attrs.len() > 0 {
        let rest = attrs.skip(1);
        law_first_attribute_counts(rest, kind, i - 1);
        assert forall|j: int| 0 <= j < rest.len() implies #[trigger] rest[j] == attrs[j + 1] by {}
        if attr_is(attrs, kind, i) {
            if i > 0 {
                assert(attrs[0].kind != kind);
                assert forall|j: int| 0 <= j < i - 1 implies (#[trigger] rest[j]).kind != kind by {
                    assert(attrs[j + 1].kind != kind);
                }
                assert(attr_is(rest, kind, i - 1));
            }
        }
        if forall|j: int| 0 <= j < attrs.len() ==> (#[trigger] attrs[j]).kind != kind {
            assert(attrs[0].kind != kind);
            assert forall|j: int| 0 <= j < rest.len() implies (#[trigger] rest[j]).kind != kind by {
                assert(attrs[j + 1].kind != kind);
            }
        }
    }
}

/// An attribute is written as its length, its number and its value, and filled up to
/// a multiple of four.
pub proof fn law_written_attributes(kind: u16, data: Seq<u8>)
    requires
        data.len() <= 65531,
    ensures
        ({
            let b = attr_bytes(kind, data);
            &&& b.len() % 4 == 0
            &&& 4 + data.len() <= b.len() < 8 + data.len()
            &&& b[0] + 256 * b[1] == 4 + data.len()
            &&& b[2] + 256 * b[3] == kind
            &&& b.subrange(4, 4 + data.len() as int) == data
        }),
{
    let b = attr_bytes(kind, data);
    crate::bytes::lemma_le16_inverse((4 + data.len()) as u16);
    crate::bytes::lemma_le16_inverse(kind);
    let x = le16_bytes((4 + data.len()) as u16);
    let y = le16_bytes(kind);
    assert(b[0] == x[0] && b[1] == x[1] && b[2] == y[0] && b[3] == y[1]);
    assert(b.subrange(4, 4 + data.len() as int) =~= data);
    assert(align4(data.len() as int) % 4 == 0);
}

/// A list of one attribute is read by its bytes: the number without its two highest
/// bits, and as much as the length says.
pub proof fn law_read_attributes(s: Seq<u8>)
    requires
        s.len() >= 4,
        4 <= s[0] + 256 * s[1] <= s.len(),
        s.len() < s[0] + 256 * s[1] + 4,
        s.len() % 4 == 0,
    ensures
        attrs_in(s) matches Ok(a) && a.len() == 1 && a[0].kind == (s[2] + 256 * s[3]) % 0x4000
            && a[0].data == s.subrange(4, s[0] + 256 * s[1]),
{
    reveal_with_fuel(crate::net::wireguard::rtattr::attrs_from, 3);
}

// ---------------------------------------------------------------------------
// The request for a tunnel.
// ---------------------------------------------------------------------------

/// A number in an attribute.
pub open spec fn number_in(attrs: Seq<AttrView>, kind: u16, len: int, n: int) -> bool {
    exists|i: int|
        #[trigger] attr_is(attrs, kind, i) && attrs[i].data.len() == len && n == if len == 2 {
            attrs[i].data[0] + 256 * attrs[i].data[1]
        } else {
            attrs[i].data[0] + 256 * attrs[i].data[1] + 65536 * attrs[i].data[2] + 16777216
                * attrs[i].data[3]
        }
}

pub open spec fn lacks(attrs: Seq<AttrView>, kind: u16) -> bool {
    forall|j: int| 0 <= j < attrs.len() ==> (#[trigger] attrs[j]).kind != kind
}

/// The port of a tunnel is attribute 6, two bytes; the mark is attribute 7, four
/// bytes; the private key is attribute 3, 32 bytes; the flags are attribute 5.
pub proof fn law_requests_are_read(attrs: Seq<AttrView>, port: int, mark: int, i: int)
    requires
        request_of(attrs) is Ok,
    ensures
        ({
            let q = request_of(attrs)->Ok_0;
            &&& number_in(attrs, 6, 2, port) ==> q.listen_port == Some(port as u16)
            &&& lacks(attrs, 6) ==> q.listen_port is None
            &&& number_in(attrs, 7, 4, mark) ==> q.fwmark == Some(mark as u32)
            &&& lacks(attrs, 7) ==> q.fwmark is None
            &&& attr_is(attrs, 3, i) ==> q.private_key == Some(attrs[i].data) && attrs[i].data.len()
                == 32
            &&& lacks(attrs, 3) ==> q.private_key is None
            &&& number_in(attrs, 5, 4, 1) ==> q.flags == 1
            &&& lacks(attrs, 5) ==> q.flags == 0
        }),
{
    law_first_attribute_counts(attrs, 3, i);
    law_first_attribute_counts(attrs, 5, 0);
    law_first_attribute_counts(attrs, 6, 0);
    law_first_attribute_counts(attrs, 7, 0);
    if number_in(attrs, 6, 2, port) {
        let j = choose|j: int|
            #[trigger] attr_is(attrs, 6, j) && attrs[j].data.len() == 2 && port == attrs[j].data[0]
                + 256 * attrs[j].data[1];
        law_first_attribute_counts(attrs, 6, j);
    }
    if number_in(attrs, 7, 4, mark) {
        let j = choose|j: int|
            #[trigger] attr_is(attrs, 7, j) && attrs[j].data.len() == 4 && mark == attrs[j].data[0]
                + 256 * attrs[j].data[1] + 65536 * attrs[j].data[2] + 16777216 * attrs[j].data[3];
        law_first_attribute_counts(attrs, 7, j);
    }
    if number_in(attrs, 5, 4, 1) {
        let j = choose|j: int|
            #[trigger] attr_is(attrs, 5, j) && attrs[j].data.len() == 4 && 1 == attrs[j].data[0]
                + 256 * attrs[j].data[1] + 65536 * attrs[j].data[2] + 16777216 * attrs[j].data[3];
        law_first_attribute_counts(attrs, 5, j);
    }
}

/// What a request sets is set, and what it leaves out stays. The flag drops all peers.
pub proof fn law_tunnels_are_set_up(d: DeviceView, name: Seq<u8>, q: SetRequest)
    ensures
        ({
            let t = set_up(d, name, q);
            &&& t.ifindex == d.ifindex && t.ifname == name
            &&& t.listen_port == match q.listen_port {
                Some(p) => Some(p),
                None => d.listen_port,
            }
            &&& t.fwmark == match q.fwmark {
                Some(m) => Some(m),
                None => d.fwmark,
            }
            &&& q.private_key is None ==> t.private_key == d.private_key && t.public_key
                == d.public_key && (q.flags != 1 ==> t.peers == d.peers)
            &&& q.flags == 1 ==> t.peers.len() == 0
        }),
{
}

/// A private key gives a tunnel its public key, and its peers their secrets; a key of
/// zeros takes them away.
pub proof fn law_keys_are_set(d: DeviceView, key: Seq<u8>, i: int)
    ensures
        ({
            let t = with_private_key(d, key);
            let zero = forall|j: int| 0 <= j < key.len() ==> key[j] == 0;
            &&& !zero ==> t.private_key == Some(key) && t.public_key == Some(x25519_public(key))
            &&& zero ==> t.private_key is None && t.public_key is None && t.peers.len()
                == d.peers.len()
            &&& 0 <= i < t.peers.len() ==> {
                let secret = x25519_shared(key, t.peers[i].public_key);
                &&& !zero ==> t.peers[i].public_key != x25519_public(key)
                &&& zero ==> t.peers[i].shared is None
                &&& !zero && !all_zero(secret) ==> t.peers[i].shared == Some(secret)
            }
        }),
{
    let t = with_private_key(d, key);
    if let Some(p) = public_of(key) {
        lemma_peers_without(d.peers, p);
    }
}

proof fn lemma_peers_without(peers: Seq<PeerView>, key: Seq<u8>)
    ensures
        forall|i: int|
            0 <= i < peers_without(peers, key).len() ==> (#[trigger] peers_without(
                peers,
                key,
            )[i]).public_key != key,
    decreases peers.len(),
{
    if peers.len() > 0 {
        lemma_peers_without(peers.drop_last(), key);
    }
}

/// A tunnel is named by its number, attribute 1, or else by its name, attribute 2; it
/// has to be a tunnel.
pub proof fn law_tunnels_are_named(attrs: Seq<AttrView>, devices: Seq<NetDeviceView>, n: int, k: int)
    requires
        0 <= n <= 0x7fff_ffff,
    ensures
        number_in(attrs, 1, 4, n) && netdev_at_from(devices, n as i32, 0) == Some(k) ==> target_of(
            attrs,
            devices,
        ) == if devices[k].is_wireguard {
            Ok::<int, isize>(k)
        } else {
            Err::<int, isize>(ENODEV)
        },
        lacks(attrs, 1) && text_value(attrs, 2) is Some && netdev_named_from(
            devices,
            text_value(attrs, 2)->0,
            0,
        ) == Some(k) ==> target_of(attrs, devices) == if devices[k].is_wireguard {
            Ok::<int, isize>(k)
        } else {
            Err::<int, isize>(ENODEV)
        },
        lacks(attrs, 1) && lacks(attrs, 2) ==> target_of(attrs, devices) == Err::<int, isize>(
            ENODEV,
        ),
{
    law_first_attribute_counts(attrs, 1, 0);
    law_first_attribute_counts(attrs, 2, 0);
    if number_in(attrs, 1, 4, n) {
        let j = choose|j: int|
            #[trigger] attr_is(attrs, 1, j) && attrs[j].data.len() == 4 && n == attrs[j].data[0]
                + 256 * attrs[j].data[1] + 65536 * attrs[j].data[2] + 16777216 * attrs[j].data[3];
        law_first_attribute_counts(attrs, 1, j);
    }
}

// ---------------------------------------------------------------------------
// Peers and their ranges.
// ---------------------------------------------------------------------------

/// A peer is read from attributes: 1 is its key, 2 the key given beforehand, 3 the
/// flags, 4 the endpoint, 5 the interval of keepalive messages, 9 the ranges.
pub proof fn law_peers_are_read(data: Seq<u8>, attrs: Seq<AttrView>, k: int, i: int, n: int)
    requires
        attrs_in(data) == Ok::<Seq<AttrView>, isize>(attrs),
        peer_in(data) is Ok,
    ensures
        ({
            let (p, flags) = peer_in(data)->Ok_0;
            &&& attr_is(attrs, 1, k) ==> p.public_key == attrs[k].data && p.public_key.len() == 32
            &&& !lacks(attrs, 1)
            &&& attr_is(attrs, 2, i) ==> p.preshared_key == Some(attrs[i].data)
            &&& lacks(attrs, 2) ==> p.preshared_key is None
            &&& number_in(attrs, 5, 2, n) ==> p.keepalive == Some(n as u16)
            &&& lacks(attrs, 5) ==> p.keepalive is None
            &&& lacks(attrs, 4) ==> p.endpoint is None
            &&& attr_is(attrs, 4, i) ==> Ok::<Option<EndpointView>, isize>(p.endpoint)
                == endpoint_in(attrs[i].data)
            &&& lacks(attrs, 9) ==> p.allowed.len() == 0
            &&& attr_is(attrs, 9, i) ==> Ok::<Seq<AllowedView>, isize>(p.allowed) == ranges_in(
                attrs[i].data,
            )
            &&& number_in(attrs, 3, 4, n) ==> flags == n
            &&& lacks(attrs, 3) ==> flags == 0
            &&& flags <= 7
        }),
{
    law_first_attribute_counts(attrs, 1, k);
    law_first_attribute_counts(attrs, 2, i);
    law_first_attribute_counts(attrs, 3, 0);
    law_first_attribute_counts(attrs, 4, i);
    law_first_attribute_counts(attrs, 5, 0);
    law_first_attribute_counts(attrs, 9, i);
    if number_in(attrs, 5, 2, n) {
        let j = choose|j: int|
            #[trigger] attr_is(attrs, 5, j) && attrs[j].data.len() == 2 && n == attrs[j].data[0]
                + 256 * attrs[j].data[1];
        law_first_attribute_counts(attrs, 5, j);
    }
    if number_in(attrs, 3, 4, n) {
        let j = choose|j: int|
            #[trigger] attr_is(attrs, 3, j) && attrs[j].data.len() == 4 && n == attrs[j].data[0]
                + 256 * attrs[j].data[1] + 65536 * attrs[j].data[2] + 16777216 * attrs[j].data[3];
        law_first_attribute_counts(attrs, 3, j);
    }
}

/// An endpoint is an IPv4 or IPv6 socket address; the port of the former is at 2 and
/// the address at 4.
pub proof fn law_endpoints_are_read(data: Seq<u8>)
    ensures
        data.len() < 16 ==> endpoint_in(data) == Err::<Option<EndpointView>, isize>(EINVAL),
        data.len() == 16 && data[0] == 2 && data[1] == 0 ==> endpoint_in(data) == Ok::<
            Option<EndpointView>,
            isize,
        >(Some(EndpointView::Ipv4(data))),
        data.len() == 28 && data[0] == 10 && data[1] == 0 ==> endpoint_in(data) == Ok::<
            Option<EndpointView>,
            isize,
        >(Some(EndpointView::Ipv6(data))),
        data.len() >= 16 ==> (ipv4_of(EndpointView::Ipv4(data)) matches Some(a) && a.0
            == data.subrange(4, 8) && a.1 == 256 * data[2] + data[3]),
        ipv4_of(EndpointView::Ipv6(data)) is None,
{
}

/// A range is read from attributes: 1 is the family, 2 the address, 3 the number of
/// bits, 4 the flags, whose first asks to drop the range.
pub proof fn law_ranges_are_read(
    entry: Seq<u8>,
    attrs: Seq<AttrView>,
    family: int,
    a: int,
    c: int,
    flags: int,
)
    requires
        attrs_in(entry) == Ok::<Seq<AttrView>, isize>(attrs),
        number_in(attrs, 1, 2, family),
        attr_is(attrs, 2, a),
        attr_is(attrs, 3, c),
        attrs[c].data.len() == 1,
        (lacks(attrs, 4) && flags == 0) || number_in(attrs, 4, 4, flags),
        flags <= 1,
        (family == 2 && attrs[a].data.len() == 4 && attrs[c].data[0] <= 32) || (family == 10
            && attrs[a].data.len() == 16 && attrs[c].data[0] <= 128),
    ensures
        range_in(entry) matches Ok(r) && r.family == family && r.addr == attrs[a].data && r.cidr
            == attrs[c].data[0] && r.remove == (flags == 1),
{
    law_first_attribute_counts(attrs, 2, a);
    law_first_attribute_counts(attrs, 3, c);
    law_first_attribute_counts(attrs, 4, 0);
    let j = choose|j: int|
        #[trigger] attr_is(attrs, 1, j) && attrs[j].data.len() == 2 && family == attrs[j].data[0]
            + 256 * attrs[j].data[1];
    law_first_attribute_counts(attrs, 1, j);
    if number_in(attrs, 4, 4, flags) {
        let m = choose|m: int|
            #[trigger] attr_is(attrs, 4, m) && attrs[m].data.len() == 4 && flags == attrs[m].data[0]
                + 256 * attrs[m].data[1] + 65536 * attrs[m].data[2] + 16777216 * attrs[m].data[3];
        law_first_attribute_counts(attrs, 4, m);
    }
}

/// Ranges that make no sense are refused.
pub proof fn law_refused_ranges(family: u16, addr: Seq<u8>, cidr: u8, flags: u32)
    ensures
        flags > 1 ==> range_of(family, addr, cidr, flags) == Err::<AllowedView, isize>(EINVAL),
        flags <= 1 && family != 2 && family != 10 ==> range_of(family, addr, cidr, flags) == Err::<
            AllowedView,
            isize,
        >(EAFNOSUPPORT),
        flags <= 1 && family == 2 && (addr.len() != 4 || cidr > 32) ==> range_of(
            family,
            addr,
            cidr,
            flags,
        ) == Err::<AllowedView, isize>(EINVAL),
        flags <= 1 && family == 10 && (addr.len() != 16 || cidr > 128) ==> range_of(
            family,
            addr,
            cidr,
            flags,
        ) == Err::<AllowedView, isize>(EINVAL),
{
}

/// Two ranges of the same addresses.
pub open spec fn equal_ranges(a: AllowedView, b: AllowedView) -> bool {
    a.family == b.family && a.addr == b.addr && a.cidr == b.cidr
}

/// A range that is asked for is there afterwards, and one that is to be dropped is
/// not; all others stay.
pub proof fn law_ranges_are_changed(s: Seq<AllowedView>, a: AllowedView, i: int)
    ensures
        ({
            let t = updated_ranges(s, a);
            &&& !a.remove ==> exists|j: int| 0 <= j < t.len() && equal_ranges(#[trigger] t[j], a)
            &&& a.remove ==> forall|j: int|
                0 <= j < t.len() ==> !equal_ranges(#[trigger] t[j], a)
            &&& 0 <= i < s.len() && !equal_ranges(s[i], a) ==> t.contains(s[i])
            &&& forall|j: int|
                0 <= j < t.len() ==> s.contains(#[trigger] t[j]) || (t[j] == a && !a.remove)
        }),
{
    let t = updated_ranges(s, a);
    lemma_without_range(s, a);
    if !a.remove {
        if crate::net::wireguard::config::has_range(s, a) {
            let j = choose|j: int|
                0 <= j < s.len() && crate::net::wireguard::config::same_range(#[trigger] s[j], a);
            assert(equal_ranges(t[j], a));
        } else {
            assert(equal_ranges(t[s.len() as int], a));
        }
        assert forall|j: int| 0 <= j < t.len() implies s.contains(#[trigger] t[j]) || t[j] == a by {
            if j < s.len() {
                assert(s[j] == t[j]);
            }
        }
        if 0 <= i < s.len() {
            assert(t[i] == s[i]);
        }
    }
}

proof fn lemma_without_range(s: Seq<AllowedView>, a: AllowedView)
    ensures
        forall|j: int|
            0 <= j < without_range(s, a).len() ==> !equal_ranges(
                #[trigger] without_range(s, a)[j],
                a,
            ) && s.contains(without_range(s, a)[j]),
        forall|i: int|
            0 <= i < s.len() && !equal_ranges(#[trigger] s[i], a) ==> without_range(s, a).contains(
                s[i],
            ),
    decreases s.len(),
{
    if s.len() > 0 {
        let front = s.drop_last();
        lemma_without_range(front, a);
        let w = without_range(s, a);
        let f = without_range(front, a);
        assert forall|j: int| 0 <= j < w.len() implies !equal_ranges(#[trigger] w[j], a)
            && s.contains(w[j]) by {
            if j < f.len() {
                assert(w[j] == f[j]);
                let k = choose|k: int| 0 <= k < front.len() && front[k] == f[j];
                assert(s[k] == w[j]);
            } else {
                assert(s[s.len() - 1] == w[j]);
            }
        }
        assert forall|i: int| 0 <= i < s.len() && !equal_ranges(#[trigger] s[i], a) implies w.contains(
            s[i],
        ) by {
            if i < front.len() {
                assert(front[i] == s[i]);
                let k = choose|k: int| 0 <= k < f.len() && f[k] == s[i];
                assert(w[k] == s[i]);
            } else {
                assert(w[f.len() as int] == s[i]);
            }
        }
    }
}

/// The keys of two peers differ wherever their places do.
pub open spec fn no_key_twice(peers: Seq<PeerView>) -> bool {
    forall|i: int, j: int|
        0 <= i < j < peers.len() ==> (#[trigger] peers[i]).public_key != (
        #[trigger] peers[j]).public_key
}

/// The first flag drops a peer: afterwards no peer has the key, and the others are as
/// they were. A peer that is not there is no error.
pub proof fn law_peers_are_dropped(d: DeviceView, p: PeerView, flags: u32, i: int)
    requires
        flags % 2 == 1,
        no_key_twice(d.peers),
    ensures
        with_peer(d, p, flags) matches Ok(t) && (forall|j: int|
            0 <= j < t.peers.len() ==> (#[trigger] t.peers[j]).public_key != p.public_key) && (0
            <= i < d.peers.len() && d.peers[i].public_key != p.public_key ==> t.peers.contains(
            d.peers[i],
        )),
{
    crate::net::wireguard::tunnel_laws::law_tunnels_and_peers_are_found(
        Seq::empty(),
        0,
        d.peers,
        p.public_key,
        0,
        0,
    );
    let t = with_peer(d, p, flags)->Ok_0;
    match peer_place(d.peers, p.public_key) {
        Some(k) => {
            crate::net::wireguard::tunnel_laws::law_tunnels_and_peers_are_found(
                Seq::empty(),
                0,
                d.peers,
                p.public_key,
                0,
                k,
            );
            assert forall|j: int| 0 <= j < t.peers.len() implies (#[trigger] t.peers[j]).public_key
                != p.public_key by {
                let b = if j < k {
                    j
                } else {
                    j + 1
                };
                assert(t.peers[j] == d.peers[b]);
                if b < k {
                    assert(d.peers[b].public_key != d.peers[k].public_key);
                } else {
                    assert(d.peers[k].public_key != d.peers[b].public_key);
                }
            }
            if 0 <= i < d.peers.len() && d.peers[i].public_key != p.public_key {
                let m = if i < k {
                    i
                } else {
                    i - 1
                };
                assert(t.peers[m] == d.peers[i]);
            }
        },
        None => {
            lemma_no_peer(d.peers, p.public_key, 0);
            if 0 <= i < d.peers.len() {
                assert(t.peers[i] == d.peers[i]);
            }
        },
    }
}

proof fn lemma_no_peer(peers: Seq<PeerView>, key: Seq<u8>, i: int)
    requires
        0 <= i <= peers.len(),
        crate::net::wireguard::config::peer_place_from(peers, key, i) is None,
    ensures
        forall|j: int| i <= j < peers.len() ==> (#[trigger] peers[j]).public_key != key,
    decreases peers.len() - i,
{
    if i < peers.len() {
        lemma_no_peer(peers, key, i + 1);
    }
}

/// A peer that is new is added behind the others, as it was asked for; with the third
/// flag that is an error. A tunnel does not become its own peer.
pub proof fn law_peers_are_added(d: DeviceView, p: PeerView, flags: u32)
    requires
        flags % 2 == 0,
        forall|j: int| 0 <= j < d.peers.len() ==> (#[trigger] d.peers[j]).public_key != p.public_key,
    ensures
        d.public_key == Some(p.public_key) ==> with_peer(d, p, flags) == Ok::<DeviceView, isize>(d),
        d.public_key != Some(p.public_key) && flags / 4 % 2 == 1 ==> with_peer(d, p, flags) == Err::<
            DeviceView,
            isize,
        >(ENOENT),
        d.public_key != Some(p.public_key) && flags / 4 % 2 == 0 ==> (with_peer(
            d,
            p,
            flags,
        ) matches Ok(t) && t.peers.len() == d.peers.len() + 1 && t.peers.subrange(
            0,
            d.peers.len() as int,
        ) == d.peers && {
            let n = t.peers.last();
            &&& n.public_key == p.public_key && n.preshared_key == p.preshared_key
            &&& n.endpoint == p.endpoint && n.keepalive == p.keepalive
            &&& forall|j: int|
                0 <= j < p.allowed.len() && !(#[trigger] p.allowed[j]).remove
                    ==> n.allowed.contains(p.allowed[j])
            &&& forall|j: int|
                0 <= j < n.allowed.len() ==> p.allowed.contains(#[trigger] n.allowed[j])
                    && !n.allowed[j].remove
        }),
{
    crate::net::wireguard::tunnel_laws::law_tunnels_and_peers_are_found(
        Seq::empty(),
        0,
        d.peers,
        p.public_key,
        0,
        0,
    );
    if let Some(k) = peer_place(d.peers, p.public_key) {
        crate::net::wireguard::tunnel_laws::law_tunnels_and_peers_are_found(
            Seq::empty(),
            0,
            d.peers,
            p.public_key,
            0,
            k,
        );
        assert(d.peers[k].public_key != p.public_key);
    }
    lemma_kept_ranges(p.allowed);
    if let Ok(t) = with_peer(d, p, flags) {
        assert(d.public_key != Some(p.public_key) && flags / 4 % 2 == 0 ==> t.peers.subrange(
            0,
            d.peers.len() as int,
        ) =~= d.peers);
    }
}

proof fn lemma_kept_ranges(s: Seq<AllowedView>)
    ensures
        forall|j: int|
            0 <= j < kept_ranges(s).len() ==> s.contains(#[trigger] kept_ranges(s)[j])
                && !kept_ranges(s)[j].remove,
        forall|i: int|
            0 <= i < s.len() && !(#[trigger] s[i]).remove ==> kept_ranges(s).contains(s[i]),
    decreases s.len(),
{
    if s.len() > 0 {
        let front = s.drop_last();
        lemma_kept_ranges(front);
        let w = kept_ranges(s);
        let f = kept_ranges(front);
        assert forall|j: int| 0 <= j < w.len() implies s.contains(#[trigger] w[j])
            && !w[j].remove by {
            if j < f.len() {
                assert(w[j] == f[j]);
                let k = choose|k: int| 0 <= k < front.len() && front[k] == f[j];
                assert(s[k] == w[j]);
            } else {
                assert(s[s.len() - 1] == w[j]);
            }
        }
        assert forall|i: int| 0 <= i < s.len() && !(#[trigger] s[i]).remove implies w.contains(
            s[i],
        ) by {
            if i < front.len() {
                assert(front[i] == s[i]);
                let k = choose|k: int| 0 <= k < f.len() && f[k] == s[i];
                assert(w[k] == s[i]);
            } else {
                assert(w[f.len() as int] == s[i]);
            }
        }
    }
}

/// A peer that is there is changed in place: what the request gives is taken, what it
/// leaves out stays, and its counts and the others are left alone. The second flag
/// starts its ranges anew.
pub proof fn law_peers_are_changed(d: DeviceView, p: PeerView, flags: u32, k: int, i: int)
    requires
        flags % 2 == 0,
        d.public_key != Some(p.public_key),
        peer_is(d.peers, p.public_key, k),
    ensures
        with_peer(d, p, flags) matches Ok(t) && t.peers.len() == d.peers.len() && (0 <= i
            < d.peers.len() && i != k ==> t.peers[i] == d.peers[i]) && {
            let old = d.peers[k];
            let n = t.peers[k];
            &&& n.public_key == old.public_key && n.rx_bytes == old.rx_bytes && n.tx_bytes
                == old.tx_bytes && n.latest == old.latest
            &&& n.preshared_key == match p.preshared_key {
                Some(x) => Some(x),
                None => old.preshared_key,
            }
            &&& n.endpoint == match p.endpoint {
                Some(x) => Some(x),
                None => old.endpoint,
            }
            &&& n.keepalive == match p.keepalive {
                Some(x) => Some(x),
                None => old.keepalive,
            }
            &&& p.allowed.len() == 0 && flags / 2 % 2 == 0 ==> n.allowed == old.allowed
            &&& p.allowed.len() == 0 && flags / 2 % 2 == 1 ==> n.allowed.len() == 0
            &&& p.allowed.len() == 1 ==> n.allowed == updated_ranges(
                if flags / 2 % 2 == 1 {
                    Seq::empty()
                } else {
                    old.allowed
                },
                p.allowed[0],
            )
        },
{
    crate::net::wireguard::tunnel_laws::law_tunnels_and_peers_are_found(
        Seq::empty(),
        0,
        d.peers,
        p.public_key,
        0,
        k,
    );
    reveal_with_fuel(updated_all, 3);
}

/// Versions of the protocol other than 1 are refused.
pub proof fn law_protocol_version(data: Seq<u8>, attrs: Seq<AttrView>, n: int)
    requires
        attrs_in(data) == Ok::<Seq<AttrView>, isize>(attrs),
        number_in(attrs, 10, 4, n),
        n != 1,
    ensures
        peer_in(data) is Err,
{
    let j = choose|j: int|
        #[trigger] attr_is(attrs, 10, j) && attrs[j].data.len() == 4 && n == attrs[j].data[0] + 256
            * attrs[j].data[1] + 65536 * attrs[j].data[2] + 16777216 * attrs[j].data[3];
    law_first_attribute_counts(attrs, 10, j);
}

proof fn lemma_kept(s: Seq<Session>, p: spec_fn(Session) -> bool)
    ensures
        forall|i: int|
            0 <= i < keep(s, p).len() ==> p(#[trigger] keep(s, p)[i]) && s.contains(keep(s, p)[i]),
        forall|i: int|
            0 <= i < s.len() && p(#[trigger] s[i]) ==> keep(s, p).contains(s[i]),
    decreases s.len(),
{
    if s.len() > 0 {
        let front = s.drop_last();
        lemma_kept(front, p);
        let w = keep(s, p);
        let f = keep(front, p);
        assert forall|j: int| 0 <= j < w.len() implies p(#[trigger] w[j]) && s.contains(w[j]) by {
            if j < f.len() {
                assert(w[j] == f[j]);
                let k = choose|k: int| 0 <= k < front.len() && front[k] == f[j];
                assert(s[k] == w[j]);
            } else {
                assert(s[s.len() - 1] == w[j]);
            }
        }
        assert forall|i: int| 0 <= i < s.len() && p(#[trigger] s[i]) implies w.contains(s[i]) by {
            if i < front.len() {
                assert(front[i] == s[i]);
                let k = choose|k: int| 0 <= k < f.len() && f[k] == s[i];
                assert(w[k] == s[i]);
            } else {
                assert(w[f.len() as int] == s[i]);
            }
        }
    }
}

/// Sessions with peers that are gone go, and those of other tunnels stay.
pub proof fn law_sessions_without_peers_go(
    s: Seq<Session>,
    ifindex: i32,
    keys: Seq<Seq<u8>>,
    i: int,
)
    ensures
        0 <= i < pruned(s, ifindex, keys).len() ==> pruned(s, ifindex, keys)[i].ifindex != ifindex
            || keys.contains(pruned(s, ifindex, keys)[i].peer_public_key@),
        0 <= i < s.len() && (s[i].ifindex != ifindex || keys.contains(s[i].peer_public_key@))
            ==> pruned(s, ifindex, keys).contains(s[i]),
        0 <= i < of_others(s, ifindex).len() ==> of_others(s, ifindex)[i].ifindex != ifindex,
        0 <= i < s.len() && s[i].ifindex != ifindex ==> of_others(s, ifindex).contains(s[i]),
{
    assert forall|p: spec_fn(Session) -> bool| #[trigger] keep(s, p) == keep(s, p) implies (forall|
        j: int,
    |
        0 <= j < keep(s, p).len() ==> p(#[trigger] keep(s, p)[j])) && (forall|j: int|
        0 <= j < s.len() && p(#[trigger] s[j]) ==> keep(s, p).contains(s[j])) by {
        lemma_kept(s, p);
    }
}

// ---------------------------------------------------------------------------
// What is told.
// ---------------------------------------------------------------------------

/// An attribute, if there is a value for it.
pub open spec fn told(kind: u16, value: Option<Seq<u8>>) -> Seq<u8> {
    match value {
        Some(v) => attr_bytes(kind, v),
        None => Seq::empty(),
    }
}

pub open spec fn told_list(kind: u16, list: Seq<u8>) -> Seq<u8> {
    if list.len() == 0 {
        Seq::empty()
    } else {
        attr_bytes(kind, list)
    }
}

proof fn lemma_nested()
    ensures
        0x8000u16 | 8u16 == 0x8008u16,
        0x8000u16 | 9u16 == 0x8009u16,
{
    assert(0x8000u16 | 8u16 == 0x8008u16 && 0x8000u16 | 9u16 == 0x8009u16) by (bit_vector);
}

/// A tunnel is told with its number, its name, its public key, its port, its mark and
/// its peers, each under its own attribute.
pub proof fn law_what_is_told_of_a_tunnel(dev: NetDeviceView, d: DeviceView)
    ensures
        device_attrs(dev, d) == attr_bytes(1, le32_bytes(dev.ifindex as u32)) + attr_bytes(
            2,
            dev.name.push(0u8),
        ) + told(4, d.public_key) + told(6, u16_text(d.listen_port)) + told(7, u32_text(d.fwmark))
            + told_list(0x8008, peers_attrs(d.peers, d.peers.len() as int)),
{
    lemma_nested();
    assert(device_attrs(dev, d) =~= attr_bytes(1, le32_bytes(dev.ifindex as u32)) + attr_bytes(
        2,
        dev.name.push(0u8),
    ) + told(4, d.public_key) + told(6, u16_text(d.listen_port)) + told(7, u32_text(d.fwmark))
        + told_list(0x8008, peers_attrs(d.peers, d.peers.len() as int)));
}

/// A peer is told with its key, the key given beforehand, its endpoint, its interval,
/// what it sent and received, and its ranges.
pub proof fn law_what_is_told_of_a_peer(p: PeerView)
    ensures
        peer_attrs(p) == attr_bytes(1, p.public_key) + told(2, p.preshared_key) + told(
            4,
            endpoint_bytes(p.endpoint),
        ) + told(5, u16_text(p.keepalive)) + attr_bytes(6, zero_bytes(16)) + attr_bytes(
            7,
            le64_bytes(p.rx_bytes),
        ) + attr_bytes(8, le64_bytes(p.tx_bytes)) + told_list(
            0x8009,
            ranges_attrs(p.allowed, p.allowed.len() as int),
        ),
{
    lemma_nested();
    assert(peer_attrs(p) =~= attr_bytes(1, p.public_key) + told(2, p.preshared_key) + told(
        4,
        endpoint_bytes(p.endpoint),
    ) + told(5, u16_text(p.keepalive)) + attr_bytes(6, zero_bytes(16)) + attr_bytes(
        7,
        le64_bytes(p.rx_bytes),
    ) + attr_bytes(8, le64_bytes(p.tx_bytes)) + told_list(
        0x8009,
        ranges_attrs(p.allowed, p.allowed.len() as int),
    ));
}

/// A range is told with its family, its address and its number of bits.
pub proof fn law_what_is_told_of_a_range(a: AllowedView)
    ensures
        range_attrs(a) == attr_bytes(1, le16_bytes(a.family)) + attr_bytes(2, a.addr) + attr_bytes(
            3,
            seq![a.cidr],
        ),
{
}

/// A message: its length, the family, flags, the number of the request and of its
/// sender, the command and its version, and the attributes.
pub proof fn law_messages_about_tunnels(
    family: u16,
    cmd: u8,
    version: u8,
    seq: u32,
    flags: u16,
    port_id: u32,
    a: Seq<u8>,
)
    requires
        a.len() < 0x1000_0000,
    ensures
        ({
            let m = genl_bytes(family, cmd, version, seq, flags, port_id, a);
            &&& m.len() == 20 + a.len()
            &&& m.subrange(0, 4) == le32_bytes((20 + a.len()) as u32)
            &&& m.subrange(4, 6) == le16_bytes(family)
            &&& m.subrange(6, 8) == le16_bytes(flags)
            &&& m.subrange(8, 12) == le32_bytes(seq)
            &&& m.subrange(12, 16) == le32_bytes(port_id)
            &&& m[16] == cmd && m[17] == version
            &&& m.skip(20) == a
        }),
{
    let m = genl_bytes(family, cmd, version, seq, flags, port_id, a);
    assert(m.subrange(0, 4) =~= le32_bytes((20 + a.len()) as u32));
    assert(m.subrange(4, 6) =~= le16_bytes(family));
    assert(m.subrange(6, 8) =~= le16_bytes(flags));
    assert(m.subrange(8, 12) =~= le32_bytes(seq));
    assert(m.subrange(12, 16) =~= le32_bytes(port_id));
    assert(m.skip(20) =~= a);
}

/// A tunnel is told of in a message of family 19 with command 0 in version 1.
pub proof fn law_tunnels_are_told_of(
    dev: NetDeviceView,
    d: DeviceView,
    seq: u32,
    port_id: u32,
    flags: u16,
)
    ensures
        device_msg(dev, d, seq, port_id, flags) == genl_bytes(
            19,
            0,
            1,
            seq,
            flags,
            port_id,
            device_attrs(dev, d),
        ),
{
}

/// A request that names a tunnel is answered with the one message about it, and the
/// configuration is that of the tunnel with its number.
pub proof fn law_one_tunnel_is_told(
    s: WgView,
    attrs: Seq<AttrView>,
    devices: Seq<NetDeviceView>,
    seq: u32,
    port_id: u32,
    i: int,
    k: int,
    d: int,
)
    requires
        0 <= i < attrs.len(),
        attrs[i].kind == 1 || attrs[i].kind == 2,
        target_of(attrs, devices) == Ok::<int, isize>(k),
        crate::net::wireguard::tunnel_laws::tunnel_is(s.configs, devices[k].ifindex, d),
    ensures
        get_replies(s, attrs, devices, seq, port_id) matches Ok(r) && r == seq![
            device_msg(devices[k], s.configs[d], seq, port_id, 0),
        ],
{
    assert(has_target(attrs));
    crate::net::wireguard::tunnel_laws::law_tunnels_and_peers_are_found(
        s.configs,
        devices[k].ifindex,
        Seq::empty(),
        Seq::empty(),
        d,
        0,
    );
}

/// Flags that are not known are refused.
pub proof fn law_refused_flags(attrs: Seq<AttrView>, flags: int, i: int)
    requires
        attr_is(attrs, 5, i),
        attrs[i].data.len() == 4,
        flags == attrs[i].data[0] + 256 * attrs[i].data[1] + 65536 * attrs[i].data[2] + 16777216
            * attrs[i].data[3],
        flags > 1,
    ensures
        request_of(attrs) == Err::<SetRequest, isize>(EINVAL),
{
    law_first_attribute_counts(attrs, 5, i);
}

/// A text goes up to its first zero.
pub proof fn law_texts_are_read(attrs: Seq<AttrView>, kind: u16, i: int, n: Seq<u8>, more: Seq<u8>)
    requires
        attr_is(attrs, kind, i),
        forall|j: int| 0 <= j < n.len() ==> #[trigger] n[j] != 0,
        vstd::utf8::valid_utf8(n),
        attrs[i].data == n + seq![0u8] + more || attrs[i].data == n,
    ensures
        text_value(attrs, kind) == Some(n),
{
    law_first_attribute_counts(attrs, kind, i);
    let d = attrs[i].data;
    crate::text::lemma_index_or_end(d, 0, 0);
    let e = crate::text::index_or_end(d, 0, 0);
    assert forall|j: int| 0 <= j < n.len() implies #[trigger] d[j] == n[j] by {}
    if e < n.len() {
        assert(n[e] != 0);
    }
    if d == n + seq![0u8] + more {
        assert(d[n.len() as int] == 0);
    }
    assert(e == n.len());
    assert(d.take(e) =~= n);
}

} // verus!
