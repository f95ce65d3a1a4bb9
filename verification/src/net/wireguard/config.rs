//! What a tunnel is configured to, and requests that change it.

use vstd::prelude::*;
use crate::bytes::{le16, read_le16};
use crate::errno::{EAFNOSUPPORT, EINVAL, ENODEV, ENOENT, EPFNOSUPPORT};
use crate::net::optval::AF_INET;
use crate::net::wireguard::messages::read_array;
use crate::net::wireguard::noise::{
    key_view, public_key_from_private, public_of, shared_of, x25519_shared_secret,
};
use crate::net::wireguard::rtattr::{
    attrs_in, attrs_view, find_attr, parse_rtattrs_checked, read_string_attr,
    read_u16_attr_checked, read_u32_attr_checked, read_u8_attr_checked, sized_value, text_value,
    u16_value, u32_value, u8_value, value_of, Attr, AttrView,
};
use crate::text::{bytes_eq, copy_range};

verus! {

pub const AF_INET6: u16 = 10;
pub const WGDEVICE_A_IFINDEX: u16 = 1;
pub const WGDEVICE_A_IFNAME: u16 = 2;
pub const WGDEVICE_A_PRIVATE_KEY: u16 = 3;
pub const WGDEVICE_A_PUBLIC_KEY: u16 = 4;
pub const WGDEVICE_A_FLAGS: u16 = 5;
pub const WGDEVICE_A_LISTEN_PORT: u16 = 6;
pub const WGDEVICE_A_FWMARK: u16 = 7;
pub const WGDEVICE_A_PEERS: u16 = 8;
pub const WGPEER_A_PUBLIC_KEY: u16 = 1;
pub const WGPEER_A_PRESHARED_KEY: u16 = 2;
pub const WGPEER_A_FLAGS: u16 = 3;
pub const WGPEER_A_ENDPOINT: u16 = 4;
pub const WGPEER_A_PERSISTENT_KEEPALIVE_INTERVAL: u16 = 5;
pub const WGPEER_A_LAST_HANDSHAKE_TIME: u16 = 6;
pub const WGPEER_A_RX_BYTES: u16 = 7;
pub const WGPEER_A_TX_BYTES: u16 = 8;
pub const WGPEER_A_ALLOWEDIPS: u16 = 9;
pub const WGPEER_A_PROTOCOL_VERSION: u16 = 10;
pub const WGALLOWEDIP_A_FAMILY: u16 = 1;
pub const WGALLOWEDIP_A_IPADDR: u16 = 2;
pub const WGALLOWEDIP_A_CIDR_MASK: u16 = 3;
pub const WGALLOWEDIP_A_FLAGS: u16 = 4;

// ---------------------------------------------------------------------------
// Data.
// ---------------------------------------------------------------------------

/// A network device.
pub struct NetDevice {
    pub ifindex: i32,
    pub name: Vec<u8>,
    pub is_wireguard: bool,
    pub is_up: bool,
}

#[verifier::ext_equal]
pub struct NetDeviceView {
    pub ifindex: i32,
    pub name: Seq<u8>,
    pub is_wireguard: bool,
    pub is_up: bool,
}

impl View for NetDevice {
    type V = NetDeviceView;

    open spec fn view(&self) -> NetDeviceView {
        NetDeviceView {
            ifindex: self.ifindex,
            name: self.name@,
            is_wireguard: self.is_wireguard,
            is_up: self.is_up,
        }
    }
}

pub open spec fn devices_view(s: Seq<NetDevice>) -> Seq<NetDeviceView> {
    Seq::new(s.len(), |i: int| s[i]@)
}

/// Where a peer is reached: a socket address as it was given.
#[derive(Clone, Copy)]
pub enum WireguardEndpoint {
    Ipv4([u8; 16]),
    Ipv6([u8; 28]),
}

#[verifier::ext_equal]
pub enum EndpointView {
    Ipv4(Seq<u8>),
    Ipv6(Seq<u8>),
}

impl View for WireguardEndpoint {
    type V = EndpointView;

    open spec fn view(&self) -> EndpointView {
        match self {
            WireguardEndpoint::Ipv4(b) => EndpointView::Ipv4(b@),
            WireguardEndpoint::Ipv6(b) => EndpointView::Ipv6(b@),
        }
    }
}

pub open spec fn endpoint_view(e: Option<WireguardEndpoint>) -> Option<EndpointView> {
    match e {
        Some(e) => Some(e@),
        None => None,
    }
}

/// A range of addresses that a peer may use. `remove` marks a request to drop
/// the range.
pub struct AllowedIp {
    pub family: u16,
    pub addr: Vec<u8>,
    pub cidr: u8,
    pub remove: bool,
}

#[verifier::ext_equal]
pub struct AllowedView {
    pub family: u16,
    pub addr: Seq<u8>,
    pub cidr: u8,
    pub remove: bool,
}

impl View for AllowedIp {
    type V = AllowedView;

    open spec fn view(&self) -> AllowedView {
        AllowedView {
            family: self.family,
            addr: self.addr@,
            cidr: self.cidr,
            remove: self.remove,
        }
    }
}

pub open spec fn allowed_view(s: Seq<AllowedIp>) -> Seq<AllowedView> {
    Seq::new(s.len(), |i: int| s[i]@)
}

/// A peer.
pub struct Peer {
    pub public_key: [u8; 32],
    pub preshared_key: Option<[u8; 32]>,
    /// The secret shared with the peer.
    pub precomputed_static_static: Option<[u8; 32]>,
    /// The time of the last initiation that was taken.
    pub latest_handshake_timestamp: [u8; 12],
    pub endpoint: Option<WireguardEndpoint>,
    pub persistent_keepalive: Option<u16>,
    pub allowed_ips: Vec<AllowedIp>,
    pub rx_bytes: u64,
    pub tx_bytes: u64,
}

#[verifier::ext_equal]
pub struct PeerView {
    pub public_key: Seq<u8>,
    pub preshared_key: Option<Seq<u8>>,
    pub shared: Option<Seq<u8>>,
    pub latest: Seq<u8>,
    pub endpoint: Option<EndpointView>,
    pub keepalive: Option<u16>,
    pub allowed: Seq<AllowedView>,
    pub rx_bytes: u64,
    pub tx_bytes: u64,
}

impl View for Peer {
    type V = PeerView;

    open spec fn view(&self) -> PeerView {
        PeerView {
            public_key: self.public_key@,
            preshared_key: key_view(self.preshared_key),
            shared: key_view(self.precomputed_static_static),
            latest: self.latest_handshake_timestamp@,
            endpoint: endpoint_view(self.endpoint),
            keepalive: self.persistent_keepalive,
            allowed: allowed_view(self.allowed_ips@),
            rx_bytes: self.rx_bytes,
            tx_bytes: self.tx_bytes,
        }
    }
}

pub open spec fn peers_view(s: Seq<Peer>) -> Seq<PeerView> {
    Seq::new(s.len(), |i: int| s[i]@)
}

/// A tunnel.
pub struct Device {
    pub ifindex: i32,
    pub ifname: Vec<u8>,
    pub private_key: Option<[u8; 32]>,
    pub public_key: Option<[u8; 32]>,
    pub listen_port: Option<u16>,
    pub fwmark: Option<u32>,
    pub peers: Vec<Peer>,
}

#[verifier::ext_equal]
pub struct DeviceView {
    pub ifindex: i32,
    pub ifname: Seq<u8>,
    pub private_key: Option<Seq<u8>>,
    pub public_key: Option<Seq<u8>>,
    pub listen_port: Option<u16>,
    pub fwmark: Option<u32>,
    pub peers: Seq<PeerView>,
}

impl View for Device {
    type V = DeviceView;

    open spec fn view(&self) -> DeviceView {
        DeviceView {
            ifindex: self.ifindex,
            ifname: self.ifname@,
            private_key: key_view(self.private_key),
            public_key: key_view(self.public_key),
            listen_port: self.listen_port,
            fwmark: self.fwmark,
            peers: peers_view(self.peers@),
        }
    }
}

pub open spec fn configs_view(s: Seq<Device>) -> Seq<DeviceView> {
    Seq::new(s.len(), |i: int| s[i]@)
}

/// A tunnel that was not configured yet.
pub open spec fn blank_device(ifindex: i32, name: Seq<u8>) -> DeviceView {
    DeviceView {
        ifindex,
        ifname: name,
        private_key: None,
        public_key: None,
        listen_port: None,
        fwmark: None,
        peers: Seq::empty(),
    }
}

pub fn new_device(ifindex: i32, name: &Vec<u8>) -> (r: Device)
    ensures
        r@ == blank_device(ifindex, name@),
{
    let ifname = copy_range(name.as_slice(), 0, name.len());
    assert(ifname@ =~= name@);
    let r = Device {
        ifindex,
        ifname,
        private_key: None,
        public_key: None,
        listen_port: None,
        fwmark: None,
        peers: Vec::new(),
    };
    assert(r@ =~= blank_device(ifindex, name@));
    r
}

// ---------------------------------------------------------------------------
// Endpoints.
// ---------------------------------------------------------------------------

/// The IPv4 address and the port of an endpoint.
pub open spec fn ipv4_of(e: EndpointView) -> Option<(Seq<u8>, u16)> {
    match e {
        EndpointView::Ipv4(b) => Some(
            (b.subrange(4, 8), crate::bytes::be16(b, 2) as u16),
        ),
        EndpointView::Ipv6(_) => None,
    }
}

impl WireguardEndpoint {
    /// The socket address as it was given.
    pub fn as_sockaddr_bytes(&self) -> (r: &[u8])
        ensures
            r@ == match self@ {
                EndpointView::Ipv4(b) => b,
                EndpointView::Ipv6(b) => b,
            },
    {
        match self {
            WireguardEndpoint::Ipv4(b) => b.as_slice(),
            WireguardEndpoint::Ipv6(b) => b.as_slice(),
        }
    }

    pub fn ipv4_addr_port(&self) -> (r: Option<([u8; 4], u16)>)
        ensures
            match r {
                Some((a, p)) => ipv4_of(self@) == Some((a@, p)),
                None => ipv4_of(self@) is None,
            },
    {
        match self {
            WireguardEndpoint::Ipv4(b) => {
                let port: u16 = crate::bytes::read_be16(b.as_slice(), 2);
                match read_array::<4>(b.as_slice(), 4) {
                    Some(a) => Some((a, port)),
                    None => None,
                }
            },
            WireguardEndpoint::Ipv6(_) => None,
        }
    }
}

/// An endpoint as it is read. One of another family or length is ignored.
pub open spec fn endpoint_in(data: Seq<u8>) -> Result<Option<EndpointView>, isize> {
    if data.len() < 16 {
        Err(EINVAL)
    } else if data.len() == 16 && le16(data, 0) == AF_INET {
        Ok(Some(EndpointView::Ipv4(data)))
    } else if data.len() == 28 && le16(data, 0) == AF_INET6 {
        Ok(Some(EndpointView::Ipv6(data)))
    } else {
        Ok(None)
    }
}

pub fn parse_endpoint(data: &Vec<u8>) -> (r: Result<Option<WireguardEndpoint>, isize>)
    ensures
        match r {
            Ok(e) => endpoint_in(data@) == Ok::<Option<EndpointView>, isize>(endpoint_view(e)),
            Err(e) => endpoint_in(data@) == Err::<Option<EndpointView>, isize>(e),
        },
{
    if data.len() < 16 {
        return Err(EINVAL);
    }
    let family: u16 = read_le16(data.as_slice(), 0);
    if data.len() == 16 && family == AF_INET {
        assert(data@.subrange(0, 16) =~= data@);
        return match read_array::<16>(data.as_slice(), 0) {
            Some(b) => Ok(Some(WireguardEndpoint::Ipv4(b))),
            None => Err(EINVAL),
        };
    }
    if data.len() == 28 && family == AF_INET6 {
        assert(data@.subrange(0, 28) =~= data@);
        return match read_array::<28>(data.as_slice(), 0) {
            Some(b) => Ok(Some(WireguardEndpoint::Ipv6(b))),
            None => Err(EINVAL),
        };
    }
    Ok(None)
}

/// A key in an attribute.
pub open spec fn key_value(attrs: Seq<AttrView>, kind: u16) -> Result<Option<Seq<u8>>, isize> {
    sized_value(attrs, kind, 32)
}

pub fn read_key_attr(attrs: &Vec<Attr>, kind: u16) -> (r: Result<Option<[u8; 32]>, isize>)
    ensures
        match r {
            Ok(k) => key_value(attrs_view(attrs@), kind) == Ok::<Option<Seq<u8>>, isize>(
                key_view(k),
            ),
            Err(e) => key_value(attrs_view(attrs@), kind) == Err::<Option<Seq<u8>>, isize>(e),
        },
{
    match find_attr(attrs, kind) {
        None => Ok(None),
        Some(i) => {
            let d = &attrs[i].data;
            if d.len() != 32 {
                return Err(EINVAL);
            }
            assert(d@.subrange(0, 32) =~= d@);
            match read_array::<32>(d.as_slice(), 0) {
                Some(k) => Ok(Some(k)),
                None => Err(EINVAL),
            }
        },
    }
}

// ---------------------------------------------------------------------------
// Ranges of addresses.
// ---------------------------------------------------------------------------

/// One range as it is read.
pub open spec fn range_in(entry: Seq<u8>) -> Result<AllowedView, isize> {
    match attrs_in(entry) {
        Err(e) => Err(e),
        Ok(attrs) => match u16_value(attrs, WGALLOWEDIP_A_FAMILY) {
            Err(e) => Err(e),
            Ok(None) => Err(EINVAL),
            Ok(Some(family)) => match value_of(attrs, WGALLOWEDIP_A_IPADDR) {
                None => Err(EINVAL),
                Some(addr) => match u8_value(attrs, WGALLOWEDIP_A_CIDR_MASK) {
                    Err(e) => Err(e),
                    Ok(None) => Err(EINVAL),
                    Ok(Some(cidr)) => match u32_value(attrs, WGALLOWEDIP_A_FLAGS) {
                        Err(e) => Err(e),
                        Ok(flags) => range_of(
                            family,
                            addr,
                            cidr,
                            if flags is Some {
                                flags->0
                            } else {
                                0u32
                            },
                        ),
                    },
                },
            },
        },
    }
}

/// A range of an address family: the only flag asks to drop the range.
pub open spec fn range_of(family: u16, addr: Seq<u8>, cidr: u8, flags: u32) -> Result<
    AllowedView,
    isize,
> {
    if flags > 1 {
        Err(EINVAL)
    } else if family != AF_INET && family != AF_INET6 {
        Err(EAFNOSUPPORT)
    } else if (family == AF_INET && addr.len() != 4) || (family == AF_INET6 && addr.len() != 16) {
        Err(EINVAL)
    } else if (family == AF_INET && cidr > 32) || (family == AF_INET6 && cidr > 128) {
        Err(EINVAL)
    } else {
        Ok(AllowedView { family, addr, cidr, remove: flags == 1 })
    }
}

/// The ranges of a list, up to the first that cannot be read.
pub open spec fn ranges_from(entries: Seq<AttrView>, i: int, seen: Seq<AllowedView>) -> Result<
    Seq<AllowedView>,
    isize,
>
    decreases entries.len() - i,
{
    if i >= entries.len() {
        Ok(seen)
    } else {
        match range_in(entries[i].data) {
            Err(e) => Err(e),
            Ok(a) => ranges_from(entries, i + 1, seen.push(a)),
        }
    }
}

pub open spec fn ranges_in(data: Seq<u8>) -> Result<Seq<AllowedView>, isize> {
    match attrs_in(data) {
        Err(e) => Err(e),
        Ok(entries) => ranges_from(entries, 0, Seq::empty()),
    }
}

fn parse_allowed_ip(entry: &Vec<u8>) -> (r: Result<AllowedIp, isize>)
    ensures
        match r {
            Ok(a) => range_in(entry@) == Ok::<AllowedView, isize>(a@),
            Err(e) => range_in(entry@) == Err::<AllowedView, isize>(e),
        },
{
    let attrs = match parse_rtattrs_checked(entry.as_slice()) {
        Ok(a) => a,
        Err(e) => {
            return Err(e);
        },
    };
    let family: u16 = match read_u16_attr_checked(&attrs, WGALLOWEDIP_A_FAMILY) {
        Ok(Some(f)) => f,
        Ok(None) => {
            return Err(EINVAL);
        },
        Err(e) => {
            return Err(e);
        },
    };
    let addr = match find_attr(&attrs, WGALLOWEDIP_A_IPADDR) {
        Some(i) => {
            let d = &attrs[i].data;
            let a = copy_range(d.as_slice(), 0, d.len());
            assert(a@ =~= d@);
            a
        },
        None => {
            return Err(EINVAL);
        },
    };
    let cidr: u8 = match read_u8_attr_checked(&attrs, WGALLOWEDIP_A_CIDR_MASK) {
        Ok(Some(c)) => c,
        Ok(None) => {
            return Err(EINVAL);
        },
        Err(e) => {
            return Err(e);
        },
    };
    let flags: u32 = match read_u32_attr_checked(&attrs, WGALLOWEDIP_A_FLAGS) {
        Ok(Some(f)) => f,
        Ok(None) => 0,
        Err(e) => {
            return Err(e);
        },
    };
    if flags > 1 {
        return Err(EINVAL);
    }
    if family != AF_INET && family != AF_INET6 {
        return Err(EAFNOSUPPORT);
    }
    if (family == AF_INET && addr.len() != 4) || (family == AF_INET6 && addr.len() != 16) {
        return Err(EINVAL);
    }
    if (family == AF_INET && cidr > 32) || (family == AF_INET6 && cidr > 128) {
        return Err(EINVAL);
    }
    Ok(AllowedIp { family, addr, cidr, remove: flags == 1 })
}

/// Reads the ranges of a peer.
pub fn parse_allowed_ips(data: &Vec<u8>) -> (r: Result<Vec<AllowedIp>, isize>)
    ensures
        match r {
            Ok(v) => ranges_in(data@) == Ok::<Seq<AllowedView>, isize>(allowed_view(v@)),
            Err(e) => ranges_in(data@) == Err::<Seq<AllowedView>, isize>(e),
        },
{
    let entries = match parse_rtattrs_checked(data.as_slice()) {
        Ok(e) => e,
        Err(e) => {
            return Err(e);
        },
    };
    let mut out: Vec<AllowedIp> = Vec::new();
    let mut i: usize = 0;
    let ghost all = attrs_view(entries@);
    assert(allowed_view(out@) =~= Seq::<AllowedView>::empty());
    while i < entries.len()
        invariant
            i <= entries@.len(),
            all == attrs_view(entries@),
            attrs_in(data@) == Ok::<Seq<AttrView>, isize>(all),
            ranges_in(data@) == ranges_from(all, i as int, allowed_view(out@)),
        decreases entries@.len() - i,
    {
        assert(all[i as int].data == entries@[i as int].data@);
        match parse_allowed_ip(&entries[i].data) {
            Err(e) => {
                return Err(e);
            },
            Ok(a) => {
                let ghost before = out@;
                let ghost av = a@;
                out.push(a);
                assert(allowed_view(out@) =~= allowed_view(before).push(av));
            },
        }
        i += 1;
    }
    Ok(out)
}

/// Two ranges are the same range.
pub open spec fn same_range(a: AllowedView, b: AllowedView) -> bool {
    a.family == b.family && a.cidr == b.cidr && a.addr == b.addr
}

pub fn same_allowed_ip(a: &AllowedIp, b: &AllowedIp) -> (r: bool)
    ensures
        r == same_range(a@, b@),
{
    a.family == b.family && a.cidr == b.cidr && bytes_eq(a.addr.as_slice(), b.addr.as_slice())
}

/// The ranges other than one.
pub open spec fn without_range(s: Seq<AllowedView>, a: AllowedView) -> Seq<AllowedView>
    decreases s.len(),
{
    if s.len() == 0 {
        s
    } else if same_range(s.last(), a) {
        without_range(s.drop_last(), a)
    } else {
        without_range(s.drop_last(), a).push(s.last())
    }
}

pub open spec fn has_range(s: Seq<AllowedView>, a: AllowedView) -> bool {
    exists|i: int| 0 <= i < s.len() && same_range(#[trigger] s[i], a)
}

/// The ranges after a request: one is dropped, or added if it is new.
pub open spec fn updated_ranges(s: Seq<AllowedView>, a: AllowedView) -> Seq<AllowedView> {
    if a.remove {
        without_range(s, a)
    } else if has_range(s, a) {
        s
    } else {
        s.push(a)
    }
}

/// Applies a request to the ranges of a peer.
pub fn apply_allowed_ip_update(allowed_ips: &mut Vec<AllowedIp>, update: AllowedIp)
    ensures
        allowed_view(final(allowed_ips)@) == updated_ranges(
            allowed_view(old(allowed_ips)@),
            update@,
        ),
{
    let ghost all = allowed_view(allowed_ips@);
    if update.remove {
        let mut rest: Vec<AllowedIp> = Vec::new();
        rest.append(allowed_ips);
        assert(allowed_view(rest@) =~= all);
        let ghost mut i: int = 0;
        assert(all.skip(0) =~= all);
        assert(allowed_view(allowed_ips@) =~= without_range(all.take(0), update@));
        while rest.len() > 0
            invariant
                0 <= i <= all.len(),
                allowed_view(rest@) == all.skip(i),
                allowed_view(allowed_ips@) == without_range(all.take(i), update@),
            decreases rest@.len(),
        {
            let ghost r0 = rest@;
            let a = rest.remove(0);
            proof {
                assert(allowed_view(rest@) =~= allowed_view(r0).skip(1));
                assert(all.skip(i).skip(1) =~= all.skip(i + 1));
                assert(allowed_view(r0)[0] == all[i]);
                let t = all.take(i + 1);
                assert(t.drop_last() =~= all.take(i));
                assert(t.last() == a@);
            }
            if !same_allowed_ip(&a, &update) {
                let ghost before = allowed_ips@;
                let ghost av = a@;
                allowed_ips.push(a);
                assert(allowed_view(allowed_ips@) =~= allowed_view(before).push(av));
            }
            proof {
                i = i + 1;
            }
        }
        assert(all.take(i) =~= all);
        return;
    }
    let mut i: usize = 0;
    while i < allowed_ips.len()
        invariant
            i <= allowed_ips@.len(),
            all == allowed_view(allowed_ips@),
            forall|j: int| 0 <= j < i ==> !same_range(#[trigger] all[j], update@),
            !update.remove,
            all == allowed_view(old(allowed_ips)@),
        decreases allowed_ips@.len() - i,
    {
        if same_allowed_ip(&allowed_ips[i], &update) {
            assert(same_range(all[i as int], update@));
            return;
        }
        i += 1;
    }
    let ghost before = allowed_ips@;
    let ghost uv = update@;
    allowed_ips.push(update);
    assert(allowed_view(allowed_ips@) =~= allowed_view(before).push(uv));
}

/// The ranges after requests `i..`.
pub open spec fn updated_all(s: Seq<AllowedView>, updates: Seq<AllowedView>, i: int) -> Seq<
    AllowedView,
>
    decreases updates.len() - i,
{
    if i >= updates.len() {
        s
    } else {
        updated_all(updated_ranges(s, updates[i]), updates, i + 1)
    }
}

fn apply_allowed_updates(allowed_ips: &mut Vec<AllowedIp>, updates: Vec<AllowedIp>)
    ensures
        allowed_view(final(allowed_ips)@) == updated_all(
            allowed_view(old(allowed_ips)@),
            allowed_view(updates@),
            0,
        ),
{
    let ghost all = allowed_view(updates@);
    let ghost s0 = allowed_view(allowed_ips@);
    let mut rest = updates;
    let ghost mut i: int = 0;
    assert(all.skip(0) =~= all);
    while rest.len() > 0
        invariant
            0 <= i <= all.len(),
            allowed_view(rest@) == all.skip(i),
            updated_all(s0, all, 0) == updated_all(allowed_view(allowed_ips@), all, i),
        decreases rest@.len(),
    {
        let ghost r0 = rest@;
        let a = rest.remove(0);
        proof {
            assert(allowed_view(rest@) =~= allowed_view(r0).skip(1));
            assert(all.skip(i).skip(1) =~= all.skip(i + 1));
            assert(allowed_view(r0)[0] == all[i]);
        }
        apply_allowed_ip_update(allowed_ips, a);
        proof {
            i = i + 1;
        }
    }
}

/// The ranges that are no requests to drop one.
pub open spec fn kept_ranges(s: Seq<AllowedView>) -> Seq<AllowedView>
    decreases s.len(),
{
    if s.len() == 0 {
        s
    } else if s.last().remove {
        kept_ranges(s.drop_last())
    } else {
        kept_ranges(s.drop_last()).push(s.last())
    }
}

fn retain_ranges(updates: Vec<AllowedIp>) -> (r: Vec<AllowedIp>)
    ensures
        allowed_view(r@) == kept_ranges(allowed_view(updates@)),
{
    let ghost all = allowed_view(updates@);
    let mut rest = updates;
    let mut out: Vec<AllowedIp> = Vec::new();
    let ghost mut i: int = 0;
    assert(all.skip(0) =~= all);
    assert(allowed_view(out@) =~= kept_ranges(all.take(0)));
    while rest.len() > 0
        invariant
            0 <= i <= all.len(),
            allowed_view(rest@) == all.skip(i),
            allowed_view(out@) == kept_ranges(all.take(i)),
        decreases rest@.len(),
    {
        let ghost r0 = rest@;
        let a = rest.remove(0);
        proof {
            assert(allowed_view(rest@) =~= allowed_view(r0).skip(1));
            assert(all.skip(i).skip(1) =~= all.skip(i + 1));
            assert(allowed_view(r0)[0] == all[i]);
            let t = all.take(i + 1);
            assert(t.drop_last() =~= all.take(i));
            assert(t.last() == a@);
        }
        if !a.remove {
            let ghost before = out@;
            let ghost av = a@;
            out.push(a);
            assert(allowed_view(out@) =~= allowed_view(before).push(av));
        }
        proof {
            i = i + 1;
        }
    }
    assert(all.take(i) =~= all);
    out
}

// ---------------------------------------------------------------------------
// Peers.
// ---------------------------------------------------------------------------

/// A peer as it is read, and its flags: 1 to drop it, 2 to replace its ranges,
/// 4 to change it only if it is there.
pub open spec fn peer_in(data: Seq<u8>) -> Result<(PeerView, u32), isize> {
    match attrs_in(data) {
        Err(e) => Err(e),
        Ok(attrs) => match key_value(attrs, WGPEER_A_PUBLIC_KEY) {
            Err(e) => Err(e),
            Ok(None) => Err(EINVAL),
            Ok(Some(public_key)) => match key_value(attrs, WGPEER_A_PRESHARED_KEY) {
                Err(e) => Err(e),
                Ok(psk) => match u32_value(attrs, WGPEER_A_FLAGS) {
                    Err(e) => Err(e),
                    Ok(flags) => peer_rest(
                        attrs,
                        public_key,
                        psk,
                        if flags is Some {
                            flags->0
                        } else {
                            0u32
                        },
                    ),
                },
            },
        },
    }
}

pub open spec fn peer_rest(
    attrs: Seq<AttrView>,
    public_key: Seq<u8>,
    psk: Option<Seq<u8>>,
    flags: u32,
) -> Result<(PeerView, u32), isize> {
    let version = u32_value(attrs, WGPEER_A_PROTOCOL_VERSION);
    let endpoint = match value_of(attrs, WGPEER_A_ENDPOINT) {
        Some(d) => endpoint_in(d),
        None => Ok(None),
    };
    let keepalive = u16_value(attrs, WGPEER_A_PERSISTENT_KEEPALIVE_INTERVAL);
    let ranges = match value_of(attrs, WGPEER_A_ALLOWEDIPS) {
        Some(d) => ranges_in(d),
        None => Ok(Seq::empty()),
    };
    if flags > 7 {
        Err(EINVAL)
    } else if version is Err {
        Err(version->Err_0)
    } else if version->Ok_0 is Some && version->Ok_0 != Some(1u32) {
        Err(EPFNOSUPPORT)
    } else if endpoint is Err {
        Err(endpoint->Err_0)
    } else if keepalive is Err {
        Err(keepalive->Err_0)
    } else if ranges is Err {
        Err(ranges->Err_0)
    } else {
        Ok(
            (
                PeerView {
                    public_key,
                    preshared_key: psk,
                    shared: None,
                    latest: Seq::new(12, |i: int| 0u8),
                    endpoint: endpoint->Ok_0,
                    keepalive: keepalive->Ok_0,
                    allowed: ranges->Ok_0,
                    rx_bytes: 0,
                    tx_bytes: 0,
                },
                flags,
            ),
        )
    }
}

/// Reads a peer and its flags.
pub fn parse_peer(data: &Vec<u8>) -> (r: Result<(Peer, u32), isize>)
    ensures
        match r {
            Ok((p, f)) => peer_in(data@) == Ok::<(PeerView, u32), isize>((p@, f)),
            Err(e) => peer_in(data@) == Err::<(PeerView, u32), isize>(e),
        },
{
    let attrs = match parse_rtattrs_checked(data.as_slice()) {
        Ok(a) => a,
        Err(e) => {
            return Err(e);
        },
    };
    let public_key: [u8; 32] = match read_key_attr(&attrs, WGPEER_A_PUBLIC_KEY) {
        Ok(Some(k)) => k,
        Ok(None) => {
            return Err(EINVAL);
        },
        Err(e) => {
            return Err(e);
        },
    };
    let preshared_key = match read_key_attr(&attrs, WGPEER_A_PRESHARED_KEY) {
        Ok(k) => k,
        Err(e) => {
            return Err(e);
        },
    };
    let flags: u32 = match read_u32_attr_checked(&attrs, WGPEER_A_FLAGS) {
        Ok(Some(f)) => f,
        Ok(None) => 0,
        Err(e) => {
            return Err(e);
        },
    };
    if flags > 7 {
        return Err(EINVAL);
    }
    match read_u32_attr_checked(&attrs, WGPEER_A_PROTOCOL_VERSION) {
        Ok(Some(v)) => {
            if v != 1 {
                return Err(EPFNOSUPPORT);
            }
        },
        Ok(None) => {},
        Err(e) => {
            return Err(e);
        },
    }
    let endpoint = match find_attr(&attrs, WGPEER_A_ENDPOINT) {
        Some(i) => match parse_endpoint(&attrs[i].data) {
            Ok(e) => e,
            Err(e) => {
                return Err(e);
            },
        },
        None => None,
    };
    let keepalive = match read_u16_attr_checked(&attrs, WGPEER_A_PERSISTENT_KEEPALIVE_INTERVAL) {
        Ok(k) => k,
        Err(e) => {
            return Err(e);
        },
    };
    let allowed_ips = match find_attr(&attrs, WGPEER_A_ALLOWEDIPS) {
        Some(i) => match parse_allowed_ips(&attrs[i].data) {
            Ok(a) => a,
            Err(e) => {
                return Err(e);
            },
        },
        None => {
            let none: Vec<AllowedIp> = Vec::new();
            assert(allowed_view(none@) =~= Seq::<AllowedView>::empty());
            none
        },
    };
    let p = Peer {
        public_key,
        preshared_key,
        precomputed_static_static: None,
        latest_handshake_timestamp: [0;12],
        endpoint,
        persistent_keepalive: keepalive,
        allowed_ips,
        rx_bytes: 0,
        tx_bytes: 0,
    };
    assert(p@ =~= peer_in(data@)->Ok_0.0);
    Ok((p, flags))
}

/// The place of the peer with a key.
pub open spec fn peer_place_from(peers: Seq<PeerView>, key: Seq<u8>, i: int) -> Option<int>
    decreases peers.len() - i,
{
    if i >= peers.len() {
        None
    } else if peers[i].public_key == key {
        Some(i)
    } else {
        peer_place_from(peers, key, i + 1)
    }
}

pub open spec fn peer_place(peers: Seq<PeerView>, key: Seq<u8>) -> Option<int> {
    peer_place_from(peers, key, 0)
}

pub fn find_peer(peers: &Vec<Peer>, key: &[u8; 32]) -> (r: Option<usize>)
    ensures
        match r {
            Some(i) => i < peers@.len() && peer_place(peers_view(peers@), key@) == Some(i as int)
                && peers@[i as int].public_key@ == key@,
            None => peer_place(peers_view(peers@), key@) is None,
        },
{
    let ghost all = peers_view(peers@);
    let mut i: usize = 0;
    while i < peers.len()
        invariant
            i <= peers@.len(),
            all == peers_view(peers@),
            peer_place(all, key@) == peer_place_from(all, key@, i as int),
        decreases peers@.len() - i,
    {
        assert(all[i as int].public_key == peers@[i as int].public_key@);
        if bytes_eq(peers[i].public_key.as_slice(), key.as_slice()) {
            return Some(i);
        }
        i += 1;
    }
    None
}

/// The secret shared with a peer.
pub open spec fn shared_with(private: Option<Seq<u8>>, public: Seq<u8>) -> Option<Seq<u8>> {
    match private {
        Some(k) => shared_of(k, public),
        None => None,
    }
}

pub fn precompute_static_static(private_key: Option<[u8; 32]>, peer_public_key: [u8; 32]) -> (r:
    Option<[u8; 32]>)
    ensures
        key_view(r) == shared_with(key_view(private_key), peer_public_key@),
{
    match private_key {
        Some(key) => x25519_shared_secret(key, peer_public_key),
        None => None,
    }
}

pub open spec fn drops(flags: u32) -> bool {
    flags % 2 == 1
}

pub open spec fn replaces_ranges(flags: u32) -> bool {
    flags / 2 % 2 == 1
}

pub open spec fn updates_only(flags: u32) -> bool {
    flags / 4 % 2 == 1
}

/// A known peer after a request: what the request leaves out stays.
pub open spec fn merged(old: PeerView, p: PeerView, flags: u32, private: Option<Seq<u8>>) -> PeerView {
    PeerView {
        preshared_key: if p.preshared_key is Some {
            p.preshared_key
        } else {
            old.preshared_key
        },
        shared: shared_with(private, old.public_key),
        endpoint: if p.endpoint is Some {
            p.endpoint
        } else {
            old.endpoint
        },
        keepalive: if p.keepalive is Some {
            p.keepalive
        } else {
            old.keepalive
        },
        allowed: updated_all(
            if replaces_ranges(flags) {
                Seq::empty()
            } else {
                old.allowed
            },
            p.allowed,
            0,
        ),
        ..old
    }
}

/// A tunnel after a request about one peer. A tunnel is not its own peer.
pub open spec fn with_peer(d: DeviceView, p: PeerView, flags: u32) -> Result<DeviceView, isize> {
    let place = peer_place(d.peers, p.public_key);
    if drops(flags) {
        Ok(
            match place {
                Some(i) => DeviceView { peers: d.peers.remove(i), ..d },
                None => d,
            },
        )
    } else if d.public_key == Some(p.public_key) {
        Ok(d)
    } else {
        match place {
            Some(i) => Ok(
                DeviceView {
                    peers: d.peers.update(i, merged(d.peers[i], p, flags, d.private_key)),
                    ..d
                },
            ),
            None => if updates_only(flags) {
                Err(ENOENT)
            } else {
                Ok(
                    DeviceView {
                        peers: d.peers.push(
                            PeerView {
                                allowed: kept_ranges(p.allowed),
                                shared: shared_with(d.private_key, p.public_key),
                                ..p
                            },
                        ),
                        ..d
                    },
                )
            },
        }
    }
}

fn merge_peer(old_peer: &mut Peer, p: Peer, flags: u32, private_key: Option<[u8; 32]>)
    ensures
        final(old_peer)@ == merged(old(old_peer)@, p@, flags, key_view(private_key)),
{
    let ghost o = old_peer@;
    let ghost pv = p@;
    if p.preshared_key.is_some() {
        old_peer.preshared_key = p.preshared_key;
    }
    old_peer.precomputed_static_static = precompute_static_static(
        private_key,
        old_peer.public_key,
    );
    if p.endpoint.is_some() {
        old_peer.endpoint = p.endpoint;
    }
    if p.persistent_keepalive.is_some() {
        old_peer.persistent_keepalive = p.persistent_keepalive;
    }
    if flags / 2 % 2 == 1 {
        old_peer.allowed_ips = Vec::new();
        assert(allowed_view(old_peer.allowed_ips@) =~= Seq::<AllowedView>::empty());
    }
    apply_allowed_updates(&mut old_peer.allowed_ips, p.allowed_ips);
    assert(old_peer@ =~= merged(o, pv, flags, key_view(private_key)));
}

fn same_key(a: &Option<[u8; 32]>, b: &[u8; 32]) -> (r: bool)
    ensures
        r == (key_view(*a) == Some(b@)),
{
    match a {
        Some(k) => bytes_eq(k.as_slice(), b.as_slice()),
        None => false,
    }
}

/// Applies a request about one peer.
fn apply_peer(d: &mut Device, p: Peer, flags: u32) -> (r: Result<(), isize>)
    ensures
        match r {
            Ok(_) => with_peer(old(d)@, p@, flags) == Ok::<DeviceView, isize>(final(d)@),
            Err(e) => with_peer(old(d)@, p@, flags) == Err::<DeviceView, isize>(e) && final(d)@
                == old(d)@,
        },
{
    let ghost d0 = d@;
    let place = find_peer(&d.peers, &p.public_key);
    if flags % 2 == 1 {
        if let Some(i) = place {
            let ghost before = d.peers@;
            let gone = d.peers.remove(i);
            assert(peers_view(d.peers@) =~= peers_view(before).remove(i as int));
        }
        return Ok(());
    }
    if same_key(&d.public_key, &p.public_key) {
        return Ok(());
    }
    match place {
        Some(i) => {
            let private_key = d.private_key;
            let ghost pv = p@;
            merge_peer(&mut d.peers[i], p, flags, private_key);
            assert(peers_view(d.peers@) =~= d0.peers.update(
                i as int,
                merged(d0.peers[i as int], pv, flags, d0.private_key),
            ));
            Ok(())
        },
        None => {
            if flags / 4 % 2 == 1 {
                return Err(ENOENT);
            }
            let ghost pv = p@;
            let mut fresh = p;
            fresh.precomputed_static_static = precompute_static_static(
                d.private_key,
                fresh.public_key,
            );
            let Peer {
                public_key,
                preshared_key,
                precomputed_static_static,
                latest_handshake_timestamp,
                endpoint,
                persistent_keepalive,
                allowed_ips,
                rx_bytes,
                tx_bytes,
            } = fresh;
            let made = Peer {
                public_key,
                preshared_key,
                precomputed_static_static,
                latest_handshake_timestamp,
                endpoint,
                persistent_keepalive,
                allowed_ips: retain_ranges(allowed_ips),
                rx_bytes,
                tx_bytes,
            };
            let ghost before = d.peers@;
            let ghost mv = made@;
            d.peers.push(made);
            assert(peers_view(d.peers@) =~= peers_view(before).push(mv));
            assert(mv =~= PeerView {
                allowed: kept_ranges(pv.allowed),
                shared: shared_with(d0.private_key, pv.public_key),
                ..pv
            });
            Ok(())
        },
    }
}

/// A tunnel after requests about peers `i..`: the first that fails ends them, and
/// those before it stay.
pub open spec fn with_peers_from(d: DeviceView, entries: Seq<AttrView>, i: int) -> (
    DeviceView,
    Option<isize>,
)
    decreases entries.len() - i,
{
    if i >= entries.len() {
        (d, None)
    } else {
        match peer_in(entries[i].data) {
            Err(e) => (d, Some(e)),
            Ok(p) => match with_peer(d, p.0, p.1) {
                Err(e) => (d, Some(e)),
                Ok(next) => with_peers_from(next, entries, i + 1),
            },
        }
    }
}

pub open spec fn with_peers(d: DeviceView, data: Seq<u8>) -> (DeviceView, Option<isize>) {
    match attrs_in(data) {
        Err(e) => (d, Some(e)),
        Ok(entries) => with_peers_from(d, entries, 0),
    }
}

/// Applies requests about peers.
pub fn apply_peers(d: &mut Device, data: &Vec<u8>) -> (r: Result<(), isize>)
    ensures
        match r {
            Ok(_) => with_peers(old(d)@, data@) == (final(d)@, None::<isize>),
            Err(e) => with_peers(old(d)@, data@) == (final(d)@, Some(e)),
        },
{
    let entries = match parse_rtattrs_checked(data.as_slice()) {
        Ok(e) => e,
        Err(e) => {
            return Err(e);
        },
    };
    let ghost all = attrs_view(entries@);
    let ghost d0 = d@;
    let mut i: usize = 0;
    while i < entries.len()
        invariant
            i <= entries@.len(),
            all == attrs_view(entries@),
            attrs_in(data@) == Ok::<Seq<AttrView>, isize>(all),
            d0 == old(d)@,
            with_peers(d0, data@) == with_peers_from(d@, all, i as int),
        decreases entries@.len() - i,
    {
        assert(all[i as int].data == entries@[i as int].data@);
        let (peer, flags) = match parse_peer(&entries[i].data) {
            Ok(p) => p,
            Err(e) => {
                return Err(e);
            },
        };
        if let Err(e) = apply_peer(d, peer, flags) {
            return Err(e);
        }
        i += 1;
    }
    Ok(())
}

// ---------------------------------------------------------------------------
// Tunnels.
// ---------------------------------------------------------------------------

pub open spec fn device_place_from(configs: Seq<DeviceView>, ifindex: i32, i: int) -> Option<int>
    decreases configs.len() - i,
{
    if i >= configs.len() {
        None
    } else if configs[i].ifindex == ifindex {
        Some(i)
    } else {
        device_place_from(configs, ifindex, i + 1)
    }
}

/// The place of a tunnel.
pub open spec fn device_place(configs: Seq<DeviceView>, ifindex: i32) -> Option<int> {
    device_place_from(configs, ifindex, 0)
}

pub fn find_device(configs: &Vec<Device>, ifindex: i32) -> (r: Option<usize>)
    ensures
        match r {
            Some(i) => i < configs@.len() && device_place(configs_view(configs@), ifindex) == Some(
                i as int,
            ) && configs@[i as int].ifindex == ifindex,
            None => device_place(configs_view(configs@), ifindex) is None,
        },
{
    let ghost all = configs_view(configs@);
    let mut i: usize = 0;
    while i < configs.len()
        invariant
            i <= configs@.len(),
            all == configs_view(configs@),
            device_place(all, ifindex) == device_place_from(all, ifindex, i as int),
        decreases configs@.len() - i,
    {
        assert(all[i as int].ifindex == configs@[i as int].ifindex);
        if configs[i].ifindex == ifindex {
            return Some(i);
        }
        i += 1;
    }
    None
}

/// The peers other than one.
pub open spec fn peers_without(peers: Seq<PeerView>, key: Seq<u8>) -> Seq<PeerView>
    decreases peers.len(),
{
    if peers.len() == 0 {
        peers
    } else if peers.last().public_key == key {
        peers_without(peers.drop_last(), key)
    } else {
        peers_without(peers.drop_last(), key).push(peers.last())
    }
}

/// The peers with the secrets that a private key shares with them.
pub open spec fn refreshed(peers: Seq<PeerView>, private: Option<Seq<u8>>) -> Seq<PeerView> {
    Seq::new(
        peers.len(),
        |i: int| PeerView { shared: shared_with(private, peers[i].public_key), ..peers[i] },
    )
}

fn remove_peers_with(peers: &mut Vec<Peer>, key: &[u8; 32])
    ensures
        peers_view(final(peers)@) == peers_without(peers_view(old(peers)@), key@),
{
    let ghost all = peers_view(peers@);
    let mut rest: Vec<Peer> = Vec::new();
    rest.append(peers);
    assert(peers_view(rest@) =~= all);
    let ghost mut i: int = 0;
    assert(all.skip(0) =~= all);
    assert(peers_view(peers@) =~= peers_without(all.take(0), key@));
    while rest.len() > 0
        invariant
            0 <= i <= all.len(),
            peers_view(rest@) == all.skip(i),
            peers_view(peers@) == peers_without(all.take(i), key@),
        decreases rest@.len(),
    {
        let ghost r0 = rest@;
        let p = rest.remove(0);
        proof {
            assert(peers_view(rest@) =~= peers_view(r0).skip(1));
            assert(all.skip(i).skip(1) =~= all.skip(i + 1));
            assert(peers_view(r0)[0] == all[i]);
            let t = all.take(i + 1);
            assert(t.drop_last() =~= all.take(i));
            assert(t.last() == p@);
        }
        if !bytes_eq(p.public_key.as_slice(), key.as_slice()) {
            let ghost before = peers@;
            let ghost pv = p@;
            peers.push(p);
            assert(peers_view(peers@) =~= peers_view(before).push(pv));
        }
        proof {
            i = i + 1;
        }
    }
    assert(all.take(i) =~= all);
}

/// Computes the shared secrets anew.
pub fn refresh_peer_precomputed_keys(d: &mut Device)
    ensures
        final(d)@ == (DeviceView {
            peers: refreshed(old(d)@.peers, old(d)@.private_key),
            ..old(d)@
        }),
{
    let ghost all = peers_view(d.peers@);
    let ghost d0 = d@;
    let private_key = d.private_key;
    let mut i: usize = 0;
    while i < d.peers.len()
        invariant
            i <= d.peers@.len(),
            d.peers@.len() == all.len(),
            all == d0.peers,
            key_view(private_key) == d0.private_key,
            d@ == (DeviceView { peers: peers_view(d.peers@), ..d0 }),
            forall|j: int|
                0 <= j < i ==> #[trigger] d.peers@[j]@ == refreshed(all, d0.private_key)[j],
            forall|j: int| i <= j < all.len() ==> #[trigger] d.peers@[j]@ == all[j],
        decreases all.len() - i,
    {
        let ghost before = d.peers@;
        assert(before[i as int]@ == all[i as int]);
        let key: [u8; 32] = d.peers[i].public_key;
        d.peers[i].precomputed_static_static = precompute_static_static(private_key, key);
        assert(d.peers@[i as int]@ =~= refreshed(all, d0.private_key)[i as int]);
        assert(forall|j: int| 0 <= j < all.len() && j != i ==> d.peers@[j] == before[j]);
        i += 1;
    }
    assert(peers_view(d.peers@) =~= refreshed(all, d0.private_key));
}

/// A tunnel after its private key was set. An empty key takes its identity; the
/// tunnel is removed from its own peers.
pub open spec fn with_private_key(d: DeviceView, key: Seq<u8>) -> DeviceView {
    let public = public_of(key);
    let private = if public is Some {
        Some(key)
    } else {
        None
    };
    let others = match public {
        Some(p) => peers_without(d.peers, p),
        None => d.peers,
    };
    DeviceView {
        private_key: private,
        public_key: public,
        peers: refreshed(others, private),
        ..d
    }
}

/// Sets the private key of a tunnel.
pub fn set_private_key(d: &mut Device, key: [u8; 32])
    ensures
        final(d)@ == with_private_key(old(d)@, key@),
{
    let ghost d0 = d@;
    let public_key = public_key_from_private(key);
    d.public_key = public_key;
    d.private_key = match public_key {
        Some(_) => Some(key),
        None => None,
    };
    if let Some(p) = public_key {
        remove_peers_with(&mut d.peers, &p);
    }
    refresh_peer_precomputed_keys(d);
    assert(d@ =~= with_private_key(d0, key@));
}

// ---------------------------------------------------------------------------
// Which device a request is about.
// ---------------------------------------------------------------------------

pub open spec fn netdev_at_from(devices: Seq<NetDeviceView>, ifindex: i32, i: int) -> Option<int>
    decreases devices.len() - i,
{
    if i >= devices.len() {
        None
    } else if devices[i].ifindex == ifindex {
        Some(i)
    } else {
        netdev_at_from(devices, ifindex, i + 1)
    }
}

pub open spec fn netdev_named_from(devices: Seq<NetDeviceView>, name: Seq<u8>, i: int) -> Option<
    int,
>
    decreases devices.len() - i,
{
    if i >= devices.len() {
        None
    } else if devices[i].name == name {
        Some(i)
    } else {
        netdev_named_from(devices, name, i + 1)
    }
}

/// The device that a request is about: by its number, or if there is none with
/// that number by its name. It must be a tunnel.
pub open spec fn target_of(attrs: Seq<AttrView>, devices: Seq<NetDeviceView>) -> Result<
    int,
    isize,
> {
    match u32_value(attrs, WGDEVICE_A_IFINDEX) {
        Err(e) => Err(e),
        Ok(index) => {
            let by_index = match index {
                Some(n) => netdev_at_from(devices, n as i32, 0),
                None => None,
            };
            let found = match by_index {
                Some(k) => Some(k),
                None => match text_value(attrs, WGDEVICE_A_IFNAME) {
                    Some(name) => netdev_named_from(devices, name, 0),
                    None => None,
                },
            };
            match found {
                Some(k) => if devices[k].is_wireguard {
                    Ok(k)
                } else {
                    Err(ENODEV)
                },
                None => Err(ENODEV),
            }
        },
    }
}

pub fn device_by_index(devices: &Vec<NetDevice>, ifindex: i32) -> (r: Option<usize>)
    ensures
        match r {
            Some(i) => i < devices@.len() && netdev_at_from(devices_view(devices@), ifindex, 0)
                == Some(i as int),
            None => netdev_at_from(devices_view(devices@), ifindex, 0) is None,
        },
{
    let ghost all = devices_view(devices@);
    let mut i: usize = 0;
    while i < devices.len()
        invariant
            i <= devices@.len(),
            all == devices_view(devices@),
            netdev_at_from(all, ifindex, 0) == netdev_at_from(all, ifindex, i as int),
        decreases devices@.len() - i,
    {
        assert(all[i as int].ifindex == devices@[i as int].ifindex);
        if devices[i].ifindex == ifindex {
            return Some(i);
        }
        i += 1;
    }
    None
}

pub fn device_by_name(devices: &Vec<NetDevice>, name: &Vec<u8>) -> (r: Option<usize>)
    ensures
        match r {
            Some(i) => i < devices@.len() && netdev_named_from(devices_view(devices@), name@, 0)
                == Some(i as int),
            None => netdev_named_from(devices_view(devices@), name@, 0) is None,
        },
{
    let ghost all = devices_view(devices@);
    let mut i: usize = 0;
    while i < devices.len()
        invariant
            i <= devices@.len(),
            all == devices_view(devices@),
            netdev_named_from(all, name@, 0) == netdev_named_from(all, name@, i as int),
        decreases devices@.len() - i,
    {
        assert(all[i as int].name == devices@[i as int].name@);
        if bytes_eq(devices[i].name.as_slice(), name.as_slice()) {
            return Some(i);
        }
        i += 1;
    }
    None
}

/// Finds the device that a request is about.
pub fn read_target(attrs: &Vec<Attr>, devices: &Vec<NetDevice>) -> (r: Result<usize, isize>)
    ensures
        match r {
            Ok(k) => k < devices@.len() && target_of(
                attrs_view(attrs@),
                devices_view(devices@),
            ) == Ok::<int, isize>(k as int),
            Err(e) => target_of(attrs_view(attrs@), devices_view(devices@)) == Err::<int, isize>(
                e,
            ),
        },
{
    let mut found: Option<usize> = match read_u32_attr_checked(attrs, WGDEVICE_A_IFINDEX) {
        Ok(Some(n)) => device_by_index(devices, n as i32),
        Ok(None) => None,
        Err(e) => {
            return Err(e);
        },
    };
    if found.is_none() {
        found = match read_string_attr(attrs, WGDEVICE_A_IFNAME) {
            Some(name) => device_by_name(devices, &name),
            None => None,
        };
    }
    match found {
        Some(k) => {
            assert(devices_view(devices@)[k as int].is_wireguard
                == devices@[k as int].is_wireguard);
            if devices[k].is_wireguard {
                Ok(k)
            } else {
                Err(ENODEV)
            }
        },
        None => Err(ENODEV),
    }
}

} // verus!
