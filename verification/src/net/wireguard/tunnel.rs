//! Packets on their way through the tunnels.

use vstd::prelude::*;
use crate::net::optval::AF_INET;
use crate::net::wireguard::config::{
    devices_view, ipv4_of, DeviceView, NetDevice, NetDeviceView, AF_INET6,
};
use crate::net::wireguard::handshakes::{
    answers, completes_with, decrypt_data_packet, encrypt_data_for_peer,
    handle_handshake_initiation, handle_handshake_response, packets_view,
    prepare_handshake_initiation, received_view, receives, sends, starts,
};
use crate::net::wireguard::ip_packets::{
    build_udp_ipv4_packet, ipv4_in, ipv6_in, parse_ipv4_packet_info, parse_ipv6_packet_info,
    parse_udp_ipv4_payload, trim_ipv4_packet, trim_ipv6_packet, udp_in, wrapped, UdpView,
};
use crate::net::wireguard::messages::{message_type, type_of, WireguardMessageType};
use crate::net::wireguard::primitives::text_view;
use crate::net::wireguard::routing::{
    best_route, listener_from, may_use, peer_allows_inner_ipv4_source,
    peer_allows_inner_ipv6_source, route_for_inner_ipv4, route_for_inner_ipv6,
    wireguard_ifindex_for_listen_port, RoutePlace,
};
use crate::net::wireguard::sessions::{
    has_recent_pending_handshake, pending_view, queue_pending_data, queued, recently_started,
    sessions_wf, Pending, PendingView, Session,
};
use crate::net::wireguard::state::{WgView, Wireguard};
use crate::text::copy_range;

verus! {

/// What a handshake that may become necessary is made of.
#[derive(Clone, Copy)]
pub struct Fresh {
    /// A private key for this handshake alone.
    pub ephemeral_private: [u8; 32],
    /// The time as a handshake tells it.
    pub timestamp: [u8; 12],
    pub now_ms: u64,
}

/// What becomes of a packet that is to be sent.
pub enum Outbound {
    /// No tunnel takes it.
    NotOurs,
    /// A tunnel took it, and there is nothing to send.
    Consumed,
    /// A tunnel took it; a message goes to the peer's address and port.
    Send { payload: Vec<u8>, dst: [u8; 4], dst_port: u16, src_port: u16 },
}

/// The message and where it goes, if there is one.
pub open spec fn sent_view(r: Outbound) -> Option<(Seq<u8>, Seq<u8>, u16, u16)> {
    match r {
        Outbound::Send { payload, dst, dst_port, src_port } => Some(
            (payload@, dst@, dst_port, src_port),
        ),
        _ => None,
    }
}

/// A handshake with a peer was started recently.
pub open spec fn recent(s: Seq<Session>, ifindex: i32, key: Seq<u8>, now: u64) -> bool {
    exists|i: int| 0 <= i < s.len() && recently_started(#[trigger] s[i], ifindex, key, now)
}

/// What becomes of a packet that a route leads into a tunnel: it is encrypted, or
/// it waits and a handshake is started, unless one was started recently. Without
/// an address of the peer or a port of the tunnel it is dropped: it must not
/// leave by another way.
pub open spec fn goes_through(
    s: WgView,
    t: WgView,
    x: RoutePlace,
    ns: u64,
    inner: Seq<u8>,
    f: Fresh,
    r: Outbound,
) -> bool {
    let d = s.configs[x.device as int];
    let peer = d.peers[x.place.peer as int];
    let address = match peer.endpoint {
        Some(e) => ipv4_of(e),
        None => None,
    };
    if address is None || d.listen_port is None {
        r is Consumed && t == s
    } else {
        let (ip, port) = address->0;
        ||| exists|text: Seq<u8>|
            sends(s, t, d.ifindex, peer.public_key, inner, #[trigger] some_text(text)) && sent_view(
                r,
            ) == Some((text, ip, port, d.listen_port->0))
        ||| exists|m: WgView|
            {
                let q = WgView {
                    pending: queued(
                        m.pending,
                        PendingView { ifindex: d.ifindex, peer: peer.public_key, ns, packet: inner },
                    ),
                    ..m
                };
                &&& #[trigger] sends(s, m, d.ifindex, peer.public_key, inner, None)
                &&& if recent(m.sessions, d.ifindex, peer.public_key, f.now_ms) {
                    r is Consumed && t == q
                } else {
                    &&& r is Consumed || r is Send
                    &&& starts(
                        q,
                        t,
                        d.ifindex,
                        peer.public_key,
                        f.ephemeral_private@,
                        f.timestamp@,
                        f.now_ms,
                        match sent_view(r) {
                            Some(o) => Some(o.0),
                            None => None,
                        },
                    )
                    &&& sent_view(r) matches Some(o) ==> o.1 == ip && o.2 == port && o.3
                        == d.listen_port->0
                }
            }
    }
}

pub open spec fn some_text(t: Seq<u8>) -> Option<Seq<u8>> {
    Some(t)
}

fn send_through(st: &mut Wireguard, x: RoutePlace, ns: u64, inner: &[u8], f: &Fresh) -> (r: Outbound)
    requires
        sessions_wf(old(st).sessions@),
        x.device < old(st).configs@.len(),
        x.place.peer < old(st).configs@[x.device as int].peers@.len(),
        inner@.len() <= 65_575,
    ensures
        sessions_wf(final(st).sessions@),
        goes_through(old(st)@, final(st)@, x, ns, inner@, *f, r),
        !(r is NotOurs),
{
    let ghost s0 = st@;
    let ifindex: i32 = st.configs[x.device].ifindex;
    let key: [u8; 32] = st.configs[x.device].peers[x.place.peer].public_key;
    assert(s0.configs[x.device as int] == st.configs@[x.device as int]@);
    assert(s0.configs[x.device as int].peers[x.place.peer as int]
        == st.configs@[x.device as int].peers@[x.place.peer as int]@);
    let address = match st.configs[x.device].peers[x.place.peer].endpoint {
        Some(e) => e.ipv4_addr_port(),
        None => None,
    };
    let (dst, dst_port) = match address {
        Some(a) => a,
        None => {
            return Outbound::Consumed;
        },
    };
    let src_port: u16 = match st.configs[x.device].listen_port {
        Some(p) => p,
        None => {
            return Outbound::Consumed;
        },
    };
    let encrypted = encrypt_data_for_peer(st, ifindex, &key, inner);
    if let Some(payload) = encrypted {
        let ghost pv = payload@;
        let r = Outbound::Send { payload, dst, dst_port, src_port };
        assert(sends(s0, st@, ifindex, key@, inner@, some_text(pv)));
        return r;
    }
    let ghost m = st@;
    assert(sends(s0, m, ifindex, key@, inner@, None));
    let packet = copy_range(inner, 0, inner.len());
    assert(packet@ =~= inner@);
    let item = Pending { ifindex, peer_public_key: key, ns, packet };
    assert(item@ =~= PendingView { ifindex, peer: key@, ns, packet: inner@ });
    queue_pending_data(&mut st.pending, item);
    let ghost q = st@;
    assert(q =~= WgView {
        pending: queued(
            m.pending,
            PendingView { ifindex, peer: key@, ns, packet: inner@ },
        ),
        ..m
    });
    if has_recent_pending_handshake(&st.sessions, ifindex, &key, f.now_ms) {
        assert(recent(m.sessions, ifindex, key@, f.now_ms));
        return Outbound::Consumed;
    }
    assert(!recent(m.sessions, ifindex, key@, f.now_ms));
    match prepare_handshake_initiation(
        st,
        ifindex,
        &key,
        f.ephemeral_private,
        f.timestamp,
        f.now_ms,
    ) {
        Some(payload) => Outbound::Send { payload, dst, dst_port, src_port },
        None => Outbound::Consumed,
    }
}

/// What becomes of a packet with a destination: it goes through the tunnel of the
/// narrowest range, or no tunnel takes it.
pub open spec fn routed(
    s: WgView,
    t: WgView,
    devices: Seq<NetDeviceView>,
    family: u16,
    dst: Seq<u8>,
    ns: u64,
    inner: Seq<u8>,
    f: Fresh,
    r: Outbound,
) -> bool {
    exists|x: Option<RoutePlace>|
        {
            &&& #[trigger] best_route(
                s.configs,
                devices,
                family,
                dst,
                x,
                s.configs.len() as int,
            )
            &&& match x {
                None => r is NotOurs && t == s,
                Some(place) => goes_through(s, t, place, ns, inner, f, r),
            }
        }
}

/// Takes an IPv4 packet that is to be sent. What follows the end that its header
/// gives is left out.
pub fn encapsulate_outbound_ipv4(
    st: &mut Wireguard,
    devices: &Vec<NetDevice>,
    ns: u64,
    packet: &[u8],
    f: &Fresh,
) -> (r: Outbound)
    requires
        sessions_wf(old(st).sessions@),
    ensures
        sessions_wf(final(st).sessions@),
        match ipv4_in(packet@) {
            None => r is NotOurs && final(st)@ == old(st)@,
            Some(i) => routed(
                old(st)@,
                final(st)@,
                devices_view(devices@),
                AF_INET,
                i.dst,
                ns,
                packet@.take(i.total_len),
                *f,
                r,
            ),
        },
{
    let ghost s0 = st@;
    let info = match parse_ipv4_packet_info(packet) {
        Some(i) => i,
        None => {
            return Outbound::NotOurs;
        },
    };
    let ghost devs = devices_view(devices@);
    let route = route_for_inner_ipv4(&st.configs, devices, &info.dst);
    assert(best_route(s0.configs, devs, AF_INET, info.dst@, route, s0.configs.len() as int));
    let x = match route {
        Some(x) => x,
        None => {
            return Outbound::NotOurs;
        },
    };
    let inner = copy_range(packet, 0, info.total_len);
    assert(inner@ =~= packet@.take(info.total_len as int));
    send_through(st, x, ns, inner.as_slice(), f)
}

/// Takes an IPv6 packet that is to be sent. The message itself goes by IPv4.
pub fn encapsulate_outbound_ipv6(
    st: &mut Wireguard,
    devices: &Vec<NetDevice>,
    ns: u64,
    packet: &[u8],
    f: &Fresh,
) -> (r: Outbound)
    requires
        sessions_wf(old(st).sessions@),
    ensures
        sessions_wf(final(st).sessions@),
        match ipv6_in(packet@) {
            None => r is NotOurs && final(st)@ == old(st)@,
            Some(i) => routed(
                old(st)@,
                final(st)@,
                devices_view(devices@),
                AF_INET6,
                i.dst,
                ns,
                packet@.take(i.total_len),
                *f,
                r,
            ),
        },
{
    let ghost s0 = st@;
    let info = match parse_ipv6_packet_info(packet) {
        Some(i) => i,
        None => {
            return Outbound::NotOurs;
        },
    };
    let ghost devs = devices_view(devices@);
    let route = route_for_inner_ipv6(&st.configs, devices, &info.dst);
    assert(best_route(s0.configs, devs, AF_INET6, info.dst@, route, s0.configs.len() as int));
    let x = match route {
        Some(x) => x,
        None => {
            return Outbound::NotOurs;
        },
    };
    let inner = copy_range(packet, 0, info.total_len);
    assert(inner@ =~= packet@.take(info.total_len as int));
    send_through(st, x, ns, inner.as_slice(), f)
}

/// How a packet that waited is sent once there is a session.
#[derive(Clone, Copy, PartialEq, Eq, Structural)]
pub enum FlushStep {
    Ipv4,
    Ipv6,
    Drop,
}

/// The way of a packet that waited, by its version.
pub open spec fn flush_of(packet: Seq<u8>) -> FlushStep {
    if packet.len() > 0 && packet[0] / 16 == 4 {
        FlushStep::Ipv4
    } else if packet.len() > 0 && packet[0] / 16 == 6 {
        FlushStep::Ipv6
    } else {
        FlushStep::Drop
    }
}

/// Decides how a packet that waited is sent.
pub fn flush_pending_data(packet: &[u8]) -> (r: FlushStep)
    ensures
        r == flush_of(packet@),
{
    if packet.len() > 0 && packet[0] / 16 == 4 {
        FlushStep::Ipv4
    } else if packet.len() > 0 && packet[0] / 16 == 6 {
        FlushStep::Ipv6
    } else {
        FlushStep::Drop
    }
}

/// What a packet that came in leads to.
pub struct Inbound {
    /// A packet to send back.
    pub reply: Option<Vec<u8>>,
    /// Packets that waited, and can be sent now.
    pub flush: Vec<Pending>,
    /// A packet that came out of the tunnel.
    pub inner: Option<Vec<u8>>,
}

/// What a packet that came in leads to, as plain values.
#[verifier::ext_equal]
pub struct InboundView {
    pub reply: Option<Seq<u8>>,
    pub flush: Seq<PendingView>,
    pub inner: Option<Seq<u8>>,
}

impl View for Inbound {
    type V = InboundView;

    open spec fn view(&self) -> InboundView {
        InboundView {
            reply: text_view(self.reply),
            flush: pending_view(self.flush@),
            inner: text_view(self.inner),
        }
    }
}

pub open spec fn nothing() -> InboundView {
    InboundView { reply: None, flush: Seq::empty(), inner: None }
}

/// The packet that a peer may hand out of the tunnel: its source must be one that
/// the peer may use.
pub open spec fn allowed_inner(
    configs: Seq<DeviceView>,
    ifindex: i32,
    key: Seq<u8>,
    text: Seq<u8>,
) -> Option<Seq<u8>> {
    if text.len() > 0 && text[0] / 16 == 4 {
        match ipv4_in(text) {
            Some(i) => if may_use(configs, ifindex, key, AF_INET, i.src) {
                Some(text.take(i.total_len))
            } else {
                None
            },
            None => None,
        }
    } else if text.len() > 0 && text[0] / 16 == 6 {
        match ipv6_in(text) {
            Some(i) => if may_use(configs, ifindex, key, AF_INET6, i.src) {
                Some(text.take(i.total_len))
            } else {
                None
            },
            None => None,
        }
    } else {
        None
    }
}

/// What becomes of a message for a tunnel.
pub open spec fn comes_in(
    s: WgView,
    t: WgView,
    ifindex: i32,
    u: UdpView,
    f: Fresh,
    r: InboundView,
) -> bool {
    match type_of(u.payload) {
        Some(WireguardMessageType::HandshakeInitiation) => exists|a: Option<Seq<u8>>|
            {
                &&& #[trigger] answers(
                    s,
                    t,
                    ifindex,
                    u.payload,
                    f.ephemeral_private@,
                    f.now_ms,
                    a,
                )
                &&& r == (InboundView {
                    reply: match a {
                        Some(p) => Some(
                            wrapped(u.info.dst, u.info.src, u.dst_port, u.src_port, p),
                        ),
                        None => None,
                    },
                    ..nothing()
                })
            },
        Some(WireguardMessageType::HandshakeResponse) => exists|w: Option<Seq<PendingView>>|
            {
                &&& #[trigger] completes_with(s, t, ifindex, u.payload, f.now_ms, w)
                &&& r == (InboundView {
                    flush: match w {
                        Some(q) => q,
                        None => Seq::empty(),
                    },
                    ..nothing()
                })
            },
        Some(WireguardMessageType::Data) => exists|d: Option<(Seq<u8>, Seq<u8>)>|
            {
                &&& #[trigger] receives(s, t, ifindex, u.payload, d)
                &&& r == (InboundView {
                    inner: match d {
                        Some(o) => allowed_inner(t.configs, ifindex, o.0, o.1),
                        None => None,
                    },
                    ..nothing()
                })
            },
        _ => t == s && r == nothing(),
    }
}

fn no_inbound() -> (r: Inbound)
    ensures
        r@ == nothing(),
{
    let r = Inbound { reply: None, flush: Vec::new(), inner: None };
    assert(r@ =~= nothing());
    r
}

fn handle_initiation(
    st: &mut Wireguard,
    ifindex: i32,
    u: &crate::net::wireguard::ip_packets::UdpPayload,
    f: &Fresh,
) -> (r: Inbound)
    requires
        sessions_wf(old(st).sessions@),
        type_of(u.payload@) == Some(WireguardMessageType::HandshakeInitiation),
    ensures
        sessions_wf(final(st).sessions@),
        exists|a: Option<Seq<u8>>|
            {
                &&& #[trigger] answers(
                    old(st)@,
                    final(st)@,
                    ifindex,
                    u.payload@,
                    f.ephemeral_private@,
                    f.now_ms,
                    a,
                )
                &&& r@ == (InboundView {
                    reply: match a {
                        Some(p) => Some(
                            wrapped(u.info@.dst, u.info@.src, u.dst_port, u.src_port, p),
                        ),
                        None => None,
                    },
                    ..nothing()
                })
            },
{
    let ghost s0 = st@;
    let answer = handle_handshake_initiation(
        st,
        ifindex,
        u.payload.as_slice(),
        f.ephemeral_private,
        f.now_ms,
    );
    let ghost a = text_view(answer);
    assert(answers(s0, st@, ifindex, u.payload@, f.ephemeral_private@, f.now_ms, a));
    let mut r = no_inbound();
    if let Some(p) = answer {
        r.reply = build_udp_ipv4_packet(
            u.info.dst,
            u.info.src,
            u.dst_port,
            u.src_port,
            p.as_slice(),
        );
        assert(p@.len() == 92);
    }
    assert(r@ =~= InboundView {
        reply: match a {
            Some(p) => Some(wrapped(u.info@.dst, u.info@.src, u.dst_port, u.src_port, p)),
            None => None,
        },
        ..nothing()
    });
    r
}

fn handle_data(st: &mut Wireguard, ifindex: i32, payload: &Vec<u8>) -> (r: Inbound)
    requires
        sessions_wf(old(st).sessions@),
        payload@.len() <= 65_535,
    ensures
        sessions_wf(final(st).sessions@),
        exists|d: Option<(Seq<u8>, Seq<u8>)>|
            {
                &&& #[trigger] receives(old(st)@, final(st)@, ifindex, payload@, d)
                &&& r@ == (InboundView {
                    inner: match d {
                        Some(o) => allowed_inner(final(st)@.configs, ifindex, o.0, o.1),
                        None => None,
                    },
                    ..nothing()
                })
            },
{
    let ghost s0 = st@;
    let got = decrypt_data_packet(st, ifindex, payload.as_slice());
    let ghost d = received_view(got);
    assert(receives(s0, st@, ifindex, payload@, d));
    let mut r = no_inbound();
    if let Some((key, text)) = got {
        if text.len() > 0 && text[0] / 16 == 4 {
            if peer_allows_inner_ipv4_source(&st.configs, ifindex, &key, text.as_slice()) {
                r.inner = trim_ipv4_packet(text.as_slice());
            }
        } else if text.len() > 0 && text[0] / 16 == 6 {
            if peer_allows_inner_ipv6_source(&st.configs, ifindex, &key, text.as_slice()) {
                r.inner = trim_ipv6_packet(text.as_slice());
            }
        }
        assert(text_view(r.inner) == allowed_inner(st@.configs, ifindex, key@, text@));
    }
    assert(r@ =~= InboundView {
        inner: match d {
            Some(o) => allowed_inner(st@.configs, ifindex, o.0, o.1),
            None => None,
        },
        ..nothing()
    });
    r
}

/// Takes a packet that came in, if it is for the port of a tunnel.
pub fn handle_inbound_ipv4_packet(
    st: &mut Wireguard,
    devices: &Vec<NetDevice>,
    packet: &[u8],
    f: &Fresh,
) -> (r: Option<Inbound>)
    requires
        sessions_wf(old(st).sessions@),
    ensures
        sessions_wf(final(st).sessions@),
        match udp_in(packet@) {
            None => r is None && final(st)@ == old(st)@,
            Some(u) => match listener_from(
                old(st)@.configs,
                devices_view(devices@),
                u.dst_port,
                0,
            ) {
                None => r is None && final(st)@ == old(st)@,
                Some(ifindex) => r is Some && comes_in(
                    old(st)@,
                    final(st)@,
                    ifindex,
                    u,
                    *f,
                    r->0@,
                ),
            },
        },
{
    let ghost s0 = st@;
    let u = match parse_udp_ipv4_payload(packet) {
        Some(u) => u,
        None => {
            return None;
        },
    };
    let ghost uv = udp_in(packet@)->0;
    assert(uv.payload == u.payload@ && uv.info == u.info@ && uv.src_port == u.src_port
        && uv.dst_port == u.dst_port);
    let ifindex: i32 = match wireguard_ifindex_for_listen_port(&st.configs, devices, u.dst_port) {
        Some(i) => i,
        None => {
            return None;
        },
    };
    match message_type(u.payload.as_slice()) {
        Some(WireguardMessageType::HandshakeInitiation) => {
            let r = handle_initiation(st, ifindex, &u, f);
            Some(r)
        },
        Some(WireguardMessageType::HandshakeResponse) => {
            let done = handle_handshake_response(st, ifindex, u.payload.as_slice(), f.now_ms);
            let ghost w = packets_view(done);
            assert(completes_with(s0, st@, ifindex, uv.payload, f.now_ms, w));
            let mut r = no_inbound();
            if let Some(q) = done {
                r.flush = q;
            }
            assert(r@ =~= InboundView {
                flush: match w {
                    Some(q) => q,
                    None => Seq::empty(),
                },
                ..nothing()
            });
            Some(r)
        },
        Some(WireguardMessageType::Data) => {
            let r = handle_data(st, ifindex, &u.payload);
            Some(r)
        },
        _ => Some(no_inbound()),
    }
}

/// Nothing comes out of a tunnel from a source that the peer may not use.
pub proof fn law_sources_are_checked(
    configs: Seq<DeviceView>,
    ifindex: i32,
    key: Seq<u8>,
    text: Seq<u8>,
)
    requires
        allowed_inner(configs, ifindex, key, text) is Some,
    ensures
        (ipv4_in(text) matches Some(i) && may_use(configs, ifindex, key, AF_INET, i.src)) || (
        ipv6_in(text) matches Some(i) && may_use(configs, ifindex, key, AF_INET6, i.src)),
{
}

} // verus!
