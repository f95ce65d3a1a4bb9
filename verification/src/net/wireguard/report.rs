//! Requests to the tunnels and what they are answered.

use vstd::prelude::*;
use vstd::string::StringSliceAdditionalSpecFns;
use crate::bytes::{
    le16, le16_bytes, le32_bytes, le64_bytes, put_le16, put_le32, put_le64, read_le16,
};
use crate::errno::EOPNOTSUPP;
use crate::net::wireguard::config::{
    allowed_view, blank_device, configs_view, device_place, devices_view, find_device,
    new_device, read_target, target_of, AllowedIp, AllowedView, Device, DeviceView,
    EndpointView, NetDevice, NetDeviceView, Peer, PeerView, WGALLOWEDIP_A_CIDR_MASK,
    WGALLOWEDIP_A_FAMILY, WGALLOWEDIP_A_IPADDR, WGDEVICE_A_FWMARK, WGDEVICE_A_IFINDEX,
    WGDEVICE_A_IFNAME, WGDEVICE_A_LISTEN_PORT, WGDEVICE_A_PEERS, WGDEVICE_A_PUBLIC_KEY,
    WGPEER_A_ALLOWEDIPS, WGPEER_A_ENDPOINT, WGPEER_A_LAST_HANDSHAKE_TIME,
    WGPEER_A_PERSISTENT_KEEPALIVE_INTERVAL, WGPEER_A_PRESHARED_KEY, WGPEER_A_PUBLIC_KEY,
    WGPEER_A_RX_BYTES, WGPEER_A_TX_BYTES,
};
use crate::net::wireguard::rtattr::{
    append_rtattr, attr_bytes, attrs_view, build_done, build_genlmsg, done_bytes, genl_bytes,
    read_string_attr, text_value, zero_bytes, Attr, AttrView, NLA_F_NESTED, NLM_F_MULTI,
};
use crate::net::wireguard::sessions::sessions_wf;
use crate::net::wireguard::state::{apply_set_device, set_device, WgView, Wireguard};
use crate::text::{append_zeros, bytes_eq, copy_range, txt};

verus! {

pub const GENL_FAMILY_ID: u16 = 19;
pub const GENL_ID_CTRL: u16 = 16;
pub const WG_CMD_GET_DEVICE: u8 = 0;
pub const WG_CMD_SET_DEVICE: u8 = 1;
pub const CTRL_ATTR_FAMILY_ID: u16 = 1;
pub const CTRL_ATTR_FAMILY_NAME: u16 = 2;
pub const CTRL_ATTR_VERSION: u16 = 3;
pub const CTRL_ATTR_HDRSIZE: u16 = 4;
pub const CTRL_ATTR_MAXATTR: u16 = 5;

// ---------------------------------------------------------------------------
// The family.
// ---------------------------------------------------------------------------

/// What the family of tunnels is said to be.
pub open spec fn family_attrs() -> Seq<u8> {
    let a = attr_bytes(CTRL_ATTR_FAMILY_ID, le16_bytes(GENL_FAMILY_ID));
    let b = a + attr_bytes(CTRL_ATTR_FAMILY_NAME, txt("wireguard").push(0u8));
    let c = b + attr_bytes(CTRL_ATTR_VERSION, le32_bytes(1));
    let d = c + attr_bytes(CTRL_ATTR_HDRSIZE, le32_bytes(0));
    d + attr_bytes(CTRL_ATTR_MAXATTR, le32_bytes(8))
}

fn u16_value_bytes(v: u16) -> (r: Vec<u8>)
    ensures
        r@ == le16_bytes(v),
{
    let mut out: Vec<u8> = Vec::new();
    put_le16(&mut out, v);
    assert(out@ =~= le16_bytes(v));
    out
}

fn u32_value_bytes(v: u32) -> (r: Vec<u8>)
    ensures
        r@ == le32_bytes(v),
{
    let mut out: Vec<u8> = Vec::new();
    put_le32(&mut out, v);
    assert(out@ =~= le32_bytes(v));
    out
}

fn u64_value_bytes(v: u64) -> (r: Vec<u8>)
    ensures
        r@ == le64_bytes(v),
{
    let mut out: Vec<u8> = Vec::new();
    put_le64(&mut out, v);
    assert(out@ =~= le64_bytes(v));
    out
}

fn text_with_zero(s: &[u8]) -> (r: Vec<u8>)
    ensures
        r@ == s@.push(0u8),
{
    let mut out = copy_range(s, 0, s.len());
    out.push(0);
    assert(out@ =~= s@.push(0u8));
    out
}

/// Answers the question for the family of tunnels.
pub fn build_family_msg(seq: u32, port_id: u32) -> (r: Vec<u8>)
    ensures
        r@ == genl_bytes(GENL_ID_CTRL, 1, 2, seq, 0, port_id, family_attrs()),
{
    let mut attrs: Vec<u8> = Vec::new();
    append_rtattr(&mut attrs, CTRL_ATTR_FAMILY_ID, u16_value_bytes(GENL_FAMILY_ID).as_slice());
    assert(attrs@ =~= attr_bytes(CTRL_ATTR_FAMILY_ID, le16_bytes(GENL_FAMILY_ID)));
    let name = text_with_zero("wireguard".as_bytes());
    append_rtattr(&mut attrs, CTRL_ATTR_FAMILY_NAME, name.as_slice());
    append_rtattr(&mut attrs, CTRL_ATTR_VERSION, u32_value_bytes(1).as_slice());
    append_rtattr(&mut attrs, CTRL_ATTR_HDRSIZE, u32_value_bytes(0).as_slice());
    append_rtattr(&mut attrs, CTRL_ATTR_MAXATTR, u32_value_bytes(8).as_slice());
    build_genlmsg(GENL_ID_CTRL, 1, 2, seq, 0, port_id, attrs.as_slice())
}

/// The first attribute with a family number of at least two bytes.
pub open spec fn family_number(attrs: Seq<AttrView>) -> Option<u16>
    decreases attrs.len(),
{
    if attrs.len() == 0 {
        None
    } else if attrs[0].kind == CTRL_ATTR_FAMILY_ID && attrs[0].data.len() >= 2 {
        Some(le16(attrs[0].data, 0) as u16)
    } else {
        family_number(attrs.skip(1))
    }
}

/// Tells whether a question is for the family of tunnels, by its name or its
/// number.
pub fn is_family_request(attrs: &Vec<Attr>) -> (r: bool)
    ensures
        r == (text_value(attrs_view(attrs@), CTRL_ATTR_FAMILY_NAME) == Some(txt("wireguard"))
            || family_number(attrs_view(attrs@)) == Some(GENL_FAMILY_ID)),
{
    if let Some(name) = read_string_attr(attrs, CTRL_ATTR_FAMILY_NAME) {
        if bytes_eq(name.as_slice(), "wireguard".as_bytes()) {
            return true;
        }
    }
    let ghost all = attrs_view(attrs@);
    let mut i: usize = 0;
    assert(all.skip(0) =~= all);
    while i < attrs.len()
        invariant
            i <= attrs@.len(),
            all == attrs_view(attrs@),
            text_value(all, CTRL_ATTR_FAMILY_NAME) != Some(txt("wireguard")),
            family_number(all) == family_number(all.skip(i as int)),
        decreases attrs@.len() - i,
    {
        assert(all.skip(i as int)[0] == attrs@[i as int]@);
        if attrs[i].kind == CTRL_ATTR_FAMILY_ID && attrs[i].data.len() >= 2 {
            return read_le16(attrs[i].data.as_slice(), 0) == GENL_FAMILY_ID;
        }
        assert(all.skip(i as int).skip(1) =~= all.skip(i + 1));
        i += 1;
    }
    false
}

// ---------------------------------------------------------------------------
// A tunnel as attributes.
// ---------------------------------------------------------------------------

/// Attributes with one more, if there is a value for it.
pub open spec fn with_optional(s: Seq<u8>, kind: u16, value: Option<Seq<u8>>) -> Seq<u8> {
    match value {
        Some(v) => s + attr_bytes(kind, v),
        None => s,
    }
}

/// The number of item `i` of a list.
pub open spec fn item_number(i: int) -> u16 {
    NLA_F_NESTED | ((i + 1) as u16)
}

/// A range as attributes.
pub open spec fn range_attrs(a: AllowedView) -> Seq<u8> {
    let x = attr_bytes(WGALLOWEDIP_A_FAMILY, le16_bytes(a.family));
    let y = x + attr_bytes(WGALLOWEDIP_A_IPADDR, a.addr);
    y + attr_bytes(WGALLOWEDIP_A_CIDR_MASK, seq![a.cidr])
}

/// The first `n` ranges of a list.
pub open spec fn ranges_attrs(s: Seq<AllowedView>, n: int) -> Seq<u8>
    decreases n,
{
    if n <= 0 {
        Seq::empty()
    } else {
        ranges_attrs(s, n - 1) + attr_bytes(item_number(n - 1), range_attrs(s[n - 1]))
    }
}

pub open spec fn endpoint_bytes(e: Option<EndpointView>) -> Option<Seq<u8>> {
    match e {
        Some(EndpointView::Ipv4(b)) => Some(b),
        Some(EndpointView::Ipv6(b)) => Some(b),
        None => None,
    }
}

pub open spec fn u16_text(v: Option<u16>) -> Option<Seq<u8>> {
    match v {
        Some(n) => Some(le16_bytes(n)),
        None => None,
    }
}

pub open spec fn u32_text(v: Option<u32>) -> Option<Seq<u8>> {
    match v {
        Some(n) => Some(le32_bytes(n)),
        None => None,
    }
}

/// A list, unless it is empty.
pub open spec fn unless_empty(s: Seq<u8>) -> Option<Seq<u8>> {
    if s.len() == 0 {
        None
    } else {
        Some(s)
    }
}

/// A peer as attributes. The time of the last handshake is not told.
pub open spec fn peer_attrs(p: PeerView) -> Seq<u8> {
    let a = attr_bytes(WGPEER_A_PUBLIC_KEY, p.public_key);
    let b = with_optional(a, WGPEER_A_PRESHARED_KEY, p.preshared_key);
    let c = with_optional(b, WGPEER_A_ENDPOINT, endpoint_bytes(p.endpoint));
    let d = with_optional(c, WGPEER_A_PERSISTENT_KEEPALIVE_INTERVAL, u16_text(p.keepalive));
    let e = d + attr_bytes(WGPEER_A_LAST_HANDSHAKE_TIME, zero_bytes(16));
    let f = e + attr_bytes(WGPEER_A_RX_BYTES, le64_bytes(p.rx_bytes));
    let g = f + attr_bytes(WGPEER_A_TX_BYTES, le64_bytes(p.tx_bytes));
    with_optional(
        g,
        NLA_F_NESTED | WGPEER_A_ALLOWEDIPS,
        unless_empty(ranges_attrs(p.allowed, p.allowed.len() as int)),
    )
}

/// The first `n` peers of a list.
pub open spec fn peers_attrs(s: Seq<PeerView>, n: int) -> Seq<u8>
    decreases n,
{
    if n <= 0 {
        Seq::empty()
    } else {
        peers_attrs(s, n - 1) + attr_bytes(item_number(n - 1), peer_attrs(s[n - 1]))
    }
}

/// A tunnel as attributes. Its private key is not told.
pub open spec fn device_attrs(dev: NetDeviceView, d: DeviceView) -> Seq<u8> {
    let a = attr_bytes(WGDEVICE_A_IFINDEX, le32_bytes(dev.ifindex as u32));
    let b = a + attr_bytes(WGDEVICE_A_IFNAME, dev.name.push(0u8));
    let c = with_optional(b, WGDEVICE_A_PUBLIC_KEY, d.public_key);
    let e = with_optional(c, WGDEVICE_A_LISTEN_PORT, u16_text(d.listen_port));
    let f = with_optional(e, WGDEVICE_A_FWMARK, u32_text(d.fwmark));
    with_optional(
        f,
        NLA_F_NESTED | WGDEVICE_A_PEERS,
        unless_empty(peers_attrs(d.peers, d.peers.len() as int)),
    )
}

/// A tunnel whose lists have numbers for all their items.
pub open spec fn listable(d: DeviceView) -> bool {
    d.peers.len() <= 65535 && forall|i: int|
        0 <= i < d.peers.len() ==> (#[trigger] d.peers[i]).allowed.len() <= 65535
}

fn range_to_attrs(a: &AllowedIp) -> (r: Vec<u8>)
    ensures
        r@ == range_attrs(a@),
{
    let mut out: Vec<u8> = Vec::new();
    append_rtattr(&mut out, WGALLOWEDIP_A_FAMILY, u16_value_bytes(a.family).as_slice());
    assert(out@ =~= attr_bytes(WGALLOWEDIP_A_FAMILY, le16_bytes(a.family)));
    append_rtattr(&mut out, WGALLOWEDIP_A_IPADDR, a.addr.as_slice());
    let mut cidr: Vec<u8> = Vec::new();
    cidr.push(a.cidr);
    assert(cidr@ =~= seq![a.cidr]);
    append_rtattr(&mut out, WGALLOWEDIP_A_CIDR_MASK, cidr.as_slice());
    out
}

fn ranges_to_attrs(s: &Vec<AllowedIp>) -> (r: Vec<u8>)
    requires
        s@.len() <= 65535,
    ensures
        r@ == ranges_attrs(allowed_view(s@), s@.len() as int),
{
    let ghost all = allowed_view(s@);
    let mut out: Vec<u8> = Vec::new();
    let mut i: usize = 0;
    assert(out@ =~= ranges_attrs(all, 0));
    while i < s.len()
        invariant
            i <= s@.len() <= 65535,
            all == allowed_view(s@),
            out@ == ranges_attrs(all, i as int),
        decreases s@.len() - i,
    {
        assert(all[i as int] == s@[i as int]@);
        let item = range_to_attrs(&s[i]);
        append_rtattr(&mut out, NLA_F_NESTED | ((i + 1) as u16), item.as_slice());
        i += 1;
    }
    out
}

fn append_optional_key(out: &mut Vec<u8>, kind: u16, key: &Option<[u8; 32]>)
    ensures
        final(out)@ == with_optional(
            old(out)@,
            kind,
            crate::net::wireguard::noise::key_view(*key),
        ),
{
    if let Some(k) = key {
        append_rtattr(out, kind, k.as_slice());
    }
}

fn append_optional_u16(out: &mut Vec<u8>, kind: u16, value: Option<u16>)
    ensures
        final(out)@ == with_optional(old(out)@, kind, u16_text(value)),
{
    if let Some(v) = value {
        append_rtattr(out, kind, u16_value_bytes(v).as_slice());
    }
}

fn append_optional_u32(out: &mut Vec<u8>, kind: u16, value: Option<u32>)
    ensures
        final(out)@ == with_optional(old(out)@, kind, u32_text(value)),
{
    if let Some(v) = value {
        append_rtattr(out, kind, u32_value_bytes(v).as_slice());
    }
}

fn append_list(out: &mut Vec<u8>, kind: u16, list: &Vec<u8>)
    ensures
        final(out)@ == with_optional(old(out)@, kind, unless_empty(list@)),
{
    if list.len() > 0 {
        append_rtattr(out, kind, list.as_slice());
    }
}

fn peer_to_attrs(p: &Peer) -> (r: Vec<u8>)
    requires
        p.allowed_ips@.len() <= 65535,
    ensures
        r@ == peer_attrs(p@),
{
    let mut out: Vec<u8> = Vec::new();
    append_rtattr(&mut out, WGPEER_A_PUBLIC_KEY, p.public_key.as_slice());
    assert(out@ =~= attr_bytes(WGPEER_A_PUBLIC_KEY, p.public_key@));
    append_optional_key(&mut out, WGPEER_A_PRESHARED_KEY, &p.preshared_key);
    if let Some(e) = &p.endpoint {
        append_rtattr(&mut out, WGPEER_A_ENDPOINT, e.as_sockaddr_bytes());
    }
    append_optional_u16(
        &mut out,
        WGPEER_A_PERSISTENT_KEEPALIVE_INTERVAL,
        p.persistent_keepalive,
    );
    let mut never: Vec<u8> = Vec::new();
    append_zeros(&mut never, 16);
    assert(never@ =~= zero_bytes(16));
    append_rtattr(&mut out, WGPEER_A_LAST_HANDSHAKE_TIME, never.as_slice());
    append_rtattr(&mut out, WGPEER_A_RX_BYTES, u64_value_bytes(p.rx_bytes).as_slice());
    append_rtattr(&mut out, WGPEER_A_TX_BYTES, u64_value_bytes(p.tx_bytes).as_slice());
    let ranges = ranges_to_attrs(&p.allowed_ips);
    append_list(&mut out, NLA_F_NESTED | WGPEER_A_ALLOWEDIPS, &ranges);
    out
}

fn peers_to_attrs(d: &Device) -> (r: Vec<u8>)
    requires
        listable(d@),
    ensures
        r@ == peers_attrs(d@.peers, d@.peers.len() as int),
{
    let ghost all = d@.peers;
    let mut out: Vec<u8> = Vec::new();
    let mut i: usize = 0;
    assert(out@ =~= peers_attrs(all, 0));
    while i < d.peers.len()
        invariant
            i <= d.peers@.len(),
            all == d@.peers,
            listable(d@),
            out@ == peers_attrs(all, i as int),
        decreases d.peers@.len() - i,
    {
        assert(all[i as int] == d.peers@[i as int]@);
        assert(d.peers@.len() <= 65535);
        assert(d@.peers[i as int].allowed.len() <= 65535);
        let item = peer_to_attrs(&d.peers[i]);
        append_rtattr(&mut out, NLA_F_NESTED | ((i + 1) as u16), item.as_slice());
        i += 1;
    }
    out
}

/// The message about a tunnel.
pub open spec fn device_msg(
    dev: NetDeviceView,
    d: DeviceView,
    seq: u32,
    port_id: u32,
    flags: u16,
) -> Seq<u8> {
    genl_bytes(GENL_FAMILY_ID, WG_CMD_GET_DEVICE, 1, seq, flags, port_id, device_attrs(dev, d))
}

/// Builds the message about a tunnel.
pub fn build_device_msg(dev: &NetDevice, d: &Device, seq: u32, port_id: u32, flags: u16) -> (r: Vec<
    u8,
>)
    requires
        listable(d@),
    ensures
        r@ == device_msg(dev@, d@, seq, port_id, flags),
{
    let mut attrs: Vec<u8> = Vec::new();
    append_rtattr(&mut attrs, WGDEVICE_A_IFINDEX, u32_value_bytes(dev.ifindex as u32).as_slice());
    assert(attrs@ =~= attr_bytes(WGDEVICE_A_IFINDEX, le32_bytes(dev.ifindex as u32)));
    let name = text_with_zero(dev.name.as_slice());
    append_rtattr(&mut attrs, WGDEVICE_A_IFNAME, name.as_slice());
    append_optional_key(&mut attrs, WGDEVICE_A_PUBLIC_KEY, &d.public_key);
    append_optional_u16(&mut attrs, WGDEVICE_A_LISTEN_PORT, d.listen_port);
    append_optional_u32(&mut attrs, WGDEVICE_A_FWMARK, d.fwmark);
    let peers = peers_to_attrs(d);
    append_list(&mut attrs, NLA_F_NESTED | WGDEVICE_A_PEERS, &peers);
    build_genlmsg(GENL_FAMILY_ID, WG_CMD_GET_DEVICE, 1, seq, flags, port_id, attrs.as_slice())
}

// ---------------------------------------------------------------------------
// Requests.
// ---------------------------------------------------------------------------

/// The configuration of a device: one that was never set up has a blank one.
pub open spec fn config_of(configs: Seq<DeviceView>, dev: NetDeviceView) -> DeviceView {
    match device_place(configs, dev.ifindex) {
        Some(k) => configs[k],
        None => blank_device(dev.ifindex, dev.name),
    }
}

/// Builds the message about the tunnel of a device.
fn device_reply(
    configs: &Vec<Device>,
    dev: &NetDevice,
    seq: u32,
    port_id: u32,
    flags: u16,
) -> (r: Vec<u8>)
    requires
        all_listable(configs_view(configs@)),
    ensures
        r@ == device_msg(dev@, config_of(configs_view(configs@), dev@), seq, port_id, flags),
{
    match find_device(configs, dev.ifindex) {
        Some(k) => {
            assert(configs_view(configs@)[k as int] == configs@[k as int]@);
            build_device_msg(dev, &configs[k], seq, port_id, flags)
        },
        None => {
            let blank = new_device(dev.ifindex, &dev.name);
            build_device_msg(dev, &blank, seq, port_id, flags)
        },
    }
}

pub open spec fn all_listable(configs: Seq<DeviceView>) -> bool {
    forall|i: int| 0 <= i < configs.len() ==> listable(#[trigger] configs[i])
}

/// A request names a device.
pub open spec fn has_target(attrs: Seq<AttrView>) -> bool {
    exists|i: int|
        0 <= i < attrs.len() && ((#[trigger] attrs[i]).kind == WGDEVICE_A_IFINDEX || attrs[i].kind
            == WGDEVICE_A_IFNAME)
}

pub fn request_has_target(attrs: &Vec<Attr>) -> (r: bool)
    ensures
        r == has_target(attrs_view(attrs@)),
{
    let ghost all = attrs_view(attrs@);
    let mut i: usize = 0;
    while i < attrs.len()
        invariant
            i <= attrs@.len(),
            all == attrs_view(attrs@),
            forall|j: int|
                0 <= j < i ==> (#[trigger] all[j]).kind != WGDEVICE_A_IFINDEX && all[j].kind
                    != WGDEVICE_A_IFNAME,
        decreases attrs@.len() - i,
    {
        assert(all[i as int] == attrs@[i as int]@);
        if attrs[i].kind == WGDEVICE_A_IFINDEX || attrs[i].kind == WGDEVICE_A_IFNAME {
            return true;
        }
        i += 1;
    }
    false
}

pub open spec fn texts(s: Seq<Vec<u8>>) -> Seq<Seq<u8>> {
    Seq::new(s.len(), |i: int| s[i]@)
}

/// The messages about the tunnels among the first `n` devices.
pub open spec fn dump_of(
    configs: Seq<DeviceView>,
    devices: Seq<NetDeviceView>,
    seq: u32,
    port_id: u32,
    n: int,
) -> Seq<Seq<u8>>
    decreases n,
{
    if n <= 0 {
        Seq::empty()
    } else if devices[n - 1].is_wireguard {
        dump_of(configs, devices, seq, port_id, n - 1).push(
            device_msg(
                devices[n - 1],
                config_of(configs, devices[n - 1]),
                seq,
                port_id,
                NLM_F_MULTI,
            ),
        )
    } else {
        dump_of(configs, devices, seq, port_id, n - 1)
    }
}

fn dump_devices(
    configs: &Vec<Device>,
    devices: &Vec<NetDevice>,
    seq: u32,
    port_id: u32,
) -> (r: Vec<Vec<u8>>)
    requires
        all_listable(configs_view(configs@)),
    ensures
        texts(r@) == dump_of(
            configs_view(configs@),
            devices_view(devices@),
            seq,
            port_id,
            devices@.len() as int,
        ).push(done_bytes(seq, port_id)),
{
    let ghost c = configs_view(configs@);
    let ghost d = devices_view(devices@);
    let mut out: Vec<Vec<u8>> = Vec::new();
    let mut i: usize = 0;
    assert(texts(out@) =~= dump_of(c, d, seq, port_id, 0));
    while i < devices.len()
        invariant
            i <= devices@.len(),
            c == configs_view(configs@),
            d == devices_view(devices@),
            all_listable(c),
            texts(out@) == dump_of(c, d, seq, port_id, i as int),
        decreases devices@.len() - i,
    {
        assert(d[i as int] == devices@[i as int]@);
        if devices[i].is_wireguard {
            let msg = device_reply(configs, &devices[i], seq, port_id, NLM_F_MULTI);
            let ghost before = out@;
            let ghost mv = msg@;
            out.push(msg);
            assert(texts(out@) =~= texts(before).push(mv));
        }
        i += 1;
    }
    let done = build_done(seq, port_id);
    let ghost before = out@;
    let ghost dv = done@;
    out.push(done);
    assert(texts(out@) =~= texts(before).push(dv));
    out
}

/// What a request to read is answered: one message for a device that is named,
/// else one for each tunnel and one that ends the list.
pub open spec fn get_replies(
    s: WgView,
    attrs: Seq<AttrView>,
    devices: Seq<NetDeviceView>,
    seq: u32,
    port_id: u32,
) -> Result<Seq<Seq<u8>>, isize> {
    if has_target(attrs) {
        match target_of(attrs, devices) {
            Err(e) => Err(e),
            Ok(k) => Ok(
                seq![
                    device_msg(devices[k], config_of(s.configs, devices[k]), seq, port_id, 0),
                ],
            ),
        }
    } else {
        Ok(
            dump_of(s.configs, devices, seq, port_id, devices.len() as int).push(
                done_bytes(seq, port_id),
            ),
        )
    }
}

/// Handles a request: set up a tunnel, or read what tunnels are set up to.
pub fn handle_message(
    st: &mut Wireguard,
    devices: &Vec<NetDevice>,
    cmd: u8,
    attrs: &Vec<Attr>,
    seq: u32,
    port_id: u32,
) -> (r: Result<Vec<Vec<u8>>, isize>)
    requires
        sessions_wf(old(st).sessions@),
        cmd == WG_CMD_GET_DEVICE ==> all_listable(old(st)@.configs),
    ensures
        sessions_wf(final(st).sessions@),
        ({
            let a = attrs_view(attrs@);
            let d = devices_view(devices@);
            if cmd == WG_CMD_SET_DEVICE {
                &&& final(st)@ == set_device(old(st)@, a, d).0
                &&& match r {
                    Ok(v) => set_device(old(st)@, a, d).1 is None && v@.len() == 0,
                    Err(e) => set_device(old(st)@, a, d).1 == Some(e),
                }
            } else if cmd == WG_CMD_GET_DEVICE {
                &&& final(st)@ == old(st)@
                &&& match r {
                    Ok(v) => get_replies(old(st)@, a, d, seq, port_id) == Ok::<
                        Seq<Seq<u8>>,
                        isize,
                    >(texts(v@)),
                    Err(e) => get_replies(old(st)@, a, d, seq, port_id) == Err::<
                        Seq<Seq<u8>>,
                        isize,
                    >(e),
                }
            } else {
                final(st)@ == old(st)@ && (r matches Err(e) && e == EOPNOTSUPP)
            }
        }),
{
    if cmd == WG_CMD_SET_DEVICE {
        return match apply_set_device(st, attrs, devices) {
            Ok(_) => Ok(Vec::new()),
            Err(e) => Err(e),
        };
    }
    if cmd != WG_CMD_GET_DEVICE {
        return Err(EOPNOTSUPP);
    }
    if request_has_target(attrs) {
        let k: usize = match read_target(attrs, devices) {
            Ok(k) => k,
            Err(e) => {
                return Err(e);
            },
        };
        assert(devices_view(devices@)[k as int] == devices@[k as int]@);
        let mut out: Vec<Vec<u8>> = Vec::new();
        let msg = device_reply(&st.configs, &devices[k], seq, port_id, 0);
        let ghost mv = msg@;
        out.push(msg);
        assert(texts(out@) =~= seq![mv]);
        return Ok(out);
    }
    Ok(dump_devices(&st.configs, devices, seq, port_id))
}

/// What may be told of a peer: not the secret that it shares, nor when it last
/// started a handshake.
pub open spec fn public_part(p: PeerView) -> PeerView {
    PeerView { shared: None, latest: Seq::empty(), ..p }
}

/// What may be told of a tunnel: not its private key, and of its peers what may be
/// told.
pub open spec fn public_device(d: DeviceView) -> DeviceView {
    DeviceView {
        private_key: None,
        peers: Seq::new(d.peers.len(), |i: int| public_part(d.peers[i])),
        ..d
    }
}

proof fn lemma_public_peers(d: DeviceView, n: int)
    requires
        0 <= n <= d.peers.len(),
    ensures
        peers_attrs(public_device(d).peers, n) == peers_attrs(d.peers, n),
    decreases n,
{
    if n > 0 {
        lemma_public_peers(d, n - 1);
        assert(public_device(d).peers[n - 1] == public_part(d.peers[n - 1]));
        assert(peer_attrs(public_part(d.peers[n - 1])) == peer_attrs(d.peers[n - 1]));
    }
}

proof fn lemma_public_device(dev: NetDeviceView, d: DeviceView)
    ensures
        device_attrs(dev, public_device(d)) == device_attrs(dev, d),
{
    let p = public_device(d);
    assert(p.peers.len() == d.peers.len());
    assert(p.public_key == d.public_key && p.listen_port == d.listen_port && p.fwmark == d.fwmark);
    lemma_public_peers(d, d.peers.len() as int);
}

/// Secrets are never told: what is said of a tunnel depends neither on its private key,
/// nor on the secrets that it shares with its peers, nor on the times of their
/// handshakes.
pub proof fn law_private_keys_are_not_told(
    dev: NetDeviceView,
    d: DeviceView,
    other: DeviceView,
    seq: u32,
    port_id: u32,
    flags: u16,
)
    requires
        public_device(other) == public_device(d),
    ensures
        device_msg(dev, d, seq, port_id, flags) == device_msg(dev, other, seq, port_id, flags),
{
    lemma_public_device(dev, d);
    lemma_public_device(dev, other);
}

} // verus!
