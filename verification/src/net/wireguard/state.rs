//! All tunnels: their configuration, sessions and waiting packets.

use vstd::prelude::*;
use crate::errno::EINVAL;
use crate::net::wireguard::config::{
    apply_peers, blank_device, configs_view, device_place, device_place_from, devices_view,
    find_device, find_peer, kept_ranges, key_value, new_device, peer_in, peer_place,
    peer_place_from, peers_view, peers_without, read_key_attr, read_target, set_private_key,
    shared_with, target_of, updated_all, updated_ranges, with_peer, with_peers, with_peers_from,
    with_private_key, without_range, AllowedView, Device, DeviceView, NetDevice, NetDeviceView,
    PeerView, WGDEVICE_A_FLAGS, WGDEVICE_A_FWMARK, WGDEVICE_A_LISTEN_PORT, WGDEVICE_A_PEERS,
    WGDEVICE_A_PRIVATE_KEY,
};
use crate::net::wireguard::noise::{key_view, public_of};
use crate::net::wireguard::rtattr::{
    attrs_in, attrs_view, find_attr, read_u16_attr_checked, read_u32_attr_checked, u16_value,
    u32_value, value_of, Attr, AttrView,
};
use crate::net::wireguard::sessions::{
    keep, keys_view, lemma_keep_step, of_others, pending_view, prune_sessions, pruned,
    remove_device_pending, remove_device_sessions, sessions_wf, Pending, PendingView, Session,
};
use crate::text::copy_range;

verus! {

/// All tunnels.
pub struct Wireguard {
    pub configs: Vec<Device>,
    pub sessions: Vec<Session>,
    pub pending: Vec<Pending>,
    /// The number of the next session.
    pub next_index: u32,
}

#[verifier::ext_equal]
pub struct WgView {
    pub configs: Seq<DeviceView>,
    pub sessions: Seq<Session>,
    pub pending: Seq<PendingView>,
    pub next_index: u32,
}

impl View for Wireguard {
    type V = WgView;

    open spec fn view(&self) -> WgView {
        WgView {
            configs: configs_view(self.configs@),
            sessions: self.sessions@,
            pending: pending_view(self.pending@),
            next_index: self.next_index,
        }
    }
}

impl Wireguard {
    /// No tunnels.
    pub fn new() -> (r: Wireguard)
        ensures
            sessions_wf(r.sessions@),
            r@.configs.len() == 0,
            r@.sessions.len() == 0,
            r@.pending.len() == 0,
            r.next_index == 1,
    {
        Wireguard {
            configs: Vec::new(),
            sessions: Vec::new(),
            pending: Vec::new(),
            next_index: 1,
        }
    }
}

/// The keys of a tunnel's peers.
pub open spec fn peer_keys(d: DeviceView) -> Seq<Seq<u8>> {
    Seq::new(d.peers.len(), |i: int| d.peers[i].public_key)
}

fn collect_keys(d: &Device) -> (r: Vec<[u8; 32]>)
    ensures
        keys_view(r@) == peer_keys(d@),
{
    let mut keys: Vec<[u8; 32]> = Vec::new();
    let mut i: usize = 0;
    while i < d.peers.len()
        invariant
            i <= d.peers@.len(),
            keys@.len() == i,
            forall|j: int| 0 <= j < i ==> (#[trigger] keys@[j])@ == d.peers@[j].public_key@,
        decreases d.peers@.len() - i,
    {
        keys.push(d.peers[i].public_key);
        i += 1;
    }
    assert(keys_view(keys@) =~= peer_keys(d@));
    keys
}

/// Removes the sessions with peers that a tunnel has no more.
pub fn prune_sessions_for_config(sessions: &mut Vec<Session>, d: &Device)
    requires
        sessions_wf(old(sessions)@),
    ensures
        final(sessions)@ == pruned(old(sessions)@, d.ifindex, peer_keys(d@)),
        sessions_wf(final(sessions)@),
{
    let keys = collect_keys(d);
    prune_sessions(sessions, d.ifindex, &keys);
}

// ---------------------------------------------------------------------------
// Requests.
// ---------------------------------------------------------------------------

/// What a request to set up a tunnel says.
pub struct SetRequest {
    pub flags: u32,
    pub private_key: Option<Seq<u8>>,
    pub listen_port: Option<u16>,
    pub fwmark: Option<u32>,
}

/// The request in a list of attributes. The only flag replaces all peers.
pub open spec fn request_of(attrs: Seq<AttrView>) -> Result<SetRequest, isize> {
    match u32_value(attrs, WGDEVICE_A_FLAGS) {
        Err(e) => Err(e),
        Ok(flags) => if flags is Some && flags->0 > 1 {
            Err(EINVAL)
        } else {
            match key_value(attrs, WGDEVICE_A_PRIVATE_KEY) {
                Err(e) => Err(e),
                Ok(private_key) => match u16_value(attrs, WGDEVICE_A_LISTEN_PORT) {
                    Err(e) => Err(e),
                    Ok(listen_port) => match u32_value(attrs, WGDEVICE_A_FWMARK) {
                        Err(e) => Err(e),
                        Ok(fwmark) => Ok(
                            SetRequest {
                                flags: if flags is Some {
                                    flags->0
                                } else {
                                    0u32
                                },
                                private_key,
                                listen_port,
                                fwmark,
                            },
                        ),
                    },
                },
            }
        },
    }
}

/// The tunnels with one for a device, and its place.
pub open spec fn with_device(configs: Seq<DeviceView>, dev: NetDeviceView) -> (
    Seq<DeviceView>,
    int,
) {
    match device_place(configs, dev.ifindex) {
        Some(k) => (configs, k),
        None => (configs.push(blank_device(dev.ifindex, dev.name)), configs.len() as int),
    }
}

/// A tunnel after a request, but for its peers.
pub open spec fn set_up(d: DeviceView, name: Seq<u8>, q: SetRequest) -> DeviceView {
    let named = DeviceView { ifname: name, ..d };
    let keyed = match q.private_key {
        Some(k) => with_private_key(named, k),
        None => named,
    };
    DeviceView {
        listen_port: if q.listen_port is Some {
            q.listen_port
        } else {
            keyed.listen_port
        },
        fwmark: if q.fwmark is Some {
            q.fwmark
        } else {
            keyed.fwmark
        },
        peers: if q.flags == 1 {
            Seq::empty()
        } else {
            keyed.peers
        },
        ..keyed
    }
}

/// Everything after a request to set up a tunnel, and why it failed. A tunnel
/// that loses its identity loses its sessions. If a peer cannot be read or
/// changed, what was done before stays, and no session is removed for a missing
/// peer.
pub open spec fn set_device(
    s: WgView,
    attrs: Seq<AttrView>,
    devices: Seq<NetDeviceView>,
) -> (WgView, Option<isize>) {
    match target_of(attrs, devices) {
        Err(e) => (s, Some(e)),
        Ok(k) => match request_of(attrs) {
            Err(e) => (s, Some(e)),
            Ok(q) => {
                let dev = devices[k];
                let (configs, at) = with_device(s.configs, dev);
                let d1 = set_up(configs[at], dev.name, q);
                let sessions = if q.private_key is Some && d1.private_key is None {
                    of_others(s.sessions, d1.ifindex)
                } else {
                    s.sessions
                };
                let (d2, error) = match value_of(attrs, WGDEVICE_A_PEERS) {
                    Some(data) => with_peers(d1, data),
                    None => (d1, None),
                };
                (
                    WgView {
                        configs: configs.update(at, d2),
                        sessions: if error is None {
                            pruned(sessions, d2.ifindex, peer_keys(d2))
                        } else {
                            sessions
                        },
                        ..s
                    },
                    error,
                )
            },
        },
    }
}

/// The request in a list of attributes, as plain values.
struct ReadRequest {
    flags: u32,
    private_key: Option<[u8; 32]>,
    listen_port: Option<u16>,
    fwmark: Option<u32>,
}

spec fn read_view(q: ReadRequest) -> SetRequest {
    SetRequest {
        flags: q.flags,
        private_key: key_view(q.private_key),
        listen_port: q.listen_port,
        fwmark: q.fwmark,
    }
}

fn read_request(attrs: &Vec<Attr>) -> (r: Result<ReadRequest, isize>)
    ensures
        match r {
            Ok(q) => request_of(attrs_view(attrs@)) == Ok::<SetRequest, isize>(read_view(q)),
            Err(e) => request_of(attrs_view(attrs@)) == Err::<SetRequest, isize>(e),
        },
{
    let flags: u32 = match read_u32_attr_checked(attrs, WGDEVICE_A_FLAGS) {
        Ok(Some(f)) => f,
        Ok(None) => 0,
        Err(e) => {
            return Err(e);
        },
    };
    if flags > 1 {
        return Err(EINVAL);
    }
    let private_key = match read_key_attr(attrs, WGDEVICE_A_PRIVATE_KEY) {
        Ok(k) => k,
        Err(e) => {
            return Err(e);
        },
    };
    let listen_port = match read_u16_attr_checked(attrs, WGDEVICE_A_LISTEN_PORT) {
        Ok(p) => p,
        Err(e) => {
            return Err(e);
        },
    };
    let fwmark = match read_u32_attr_checked(attrs, WGDEVICE_A_FWMARK) {
        Ok(m) => m,
        Err(e) => {
            return Err(e);
        },
    };
    Ok(ReadRequest { flags, private_key, listen_port, fwmark })
}

fn set_up_device(d: &mut Device, name: &Vec<u8>, q: &ReadRequest)
    ensures
        final(d)@ == set_up(old(d)@, name@, read_view(*q)),
{
    let ghost d0 = d@;
    let ifname = copy_range(name.as_slice(), 0, name.len());
    assert(ifname@ =~= name@);
    d.ifname = ifname;
    assert(d@ =~= DeviceView { ifname: name@, ..d0 });
    if let Some(key) = q.private_key {
        set_private_key(d, key);
    }
    if q.listen_port.is_some() {
        d.listen_port = q.listen_port;
    }
    if q.fwmark.is_some() {
        d.fwmark = q.fwmark;
    }
    if q.flags == 1 {
        d.peers = Vec::new();
        assert(peers_view(d.peers@) =~= Seq::<PeerView>::empty());
    }
    assert(d@ =~= set_up(d0, name@, read_view(*q)));
}

/// Sets up a tunnel.
pub fn apply_set_device(st: &mut Wireguard, attrs: &Vec<Attr>, devices: &Vec<NetDevice>) -> (r:
    Result<(), isize>)
    requires
        sessions_wf(old(st).sessions@),
    ensures
        sessions_wf(final(st).sessions@),
        final(st)@ == set_device(old(st)@, attrs_view(attrs@), devices_view(devices@)).0,
        match r {
            Ok(_) => set_device(old(st)@, attrs_view(attrs@), devices_view(devices@)).1 is None,
            Err(e) => set_device(old(st)@, attrs_view(attrs@), devices_view(devices@)).1 == Some(
                e,
            ),
        },
{
    let ghost s0 = st@;
    let k: usize = match read_target(attrs, devices) {
        Ok(k) => k,
        Err(e) => {
            return Err(e);
        },
    };
    let q = match read_request(attrs) {
        Ok(q) => q,
        Err(e) => {
            return Err(e);
        },
    };
    let dev = &devices[k];
    assert(devices_view(devices@)[k as int] == dev@);
    let ifindex: i32 = dev.ifindex;
    let at: usize = match find_device(&st.configs, ifindex) {
        Some(at) => at,
        None => {
            let ghost before = st.configs@;
            let blank = new_device(ifindex, &dev.name);
            let ghost bv = blank@;
            st.configs.push(blank);
            assert(configs_view(st.configs@) =~= configs_view(before).push(bv));
            st.configs.len() - 1
        },
    };
    let ghost c1 = configs_view(st.configs@);
    assert((c1, at as int) == with_device(s0.configs, dev@));
    assert(c1[at as int] == st.configs@[at as int]@);
    set_up_device(&mut st.configs[at], &dev.name, &q);
    let ghost d1 = st.configs@[at as int]@;
    assert(d1 == set_up(c1[at as int], dev@.name, read_view(q)));
    assert(configs_view(st.configs@) =~= c1.update(at as int, d1));
    if q.private_key.is_some() && st.configs[at].private_key.is_none() {
        let own: i32 = st.configs[at].ifindex;
        remove_device_sessions(&mut st.sessions, own);
    }
    let ghost sessions1 = st.sessions@;
    let result = match find_attr(attrs, WGDEVICE_A_PEERS) {
        Some(i) => apply_peers(&mut st.configs[at], &attrs[i].data),
        None => Ok(()),
    };
    let ghost d2 = st.configs@[at as int]@;
    assert(configs_view(st.configs@) =~= c1.update(at as int, d2));
    if result.is_err() {
        assert(st@ =~= set_device(s0, attrs_view(attrs@), devices_view(devices@)).0);
        return result;
    }
    prune_sessions_for_config(&mut st.sessions, &st.configs[at]);
    assert(st@ =~= set_device(s0, attrs_view(attrs@), devices_view(devices@)).0);
    Ok(())
}

/// Everything without a tunnel.
pub open spec fn without_device(s: WgView, ifindex: i32) -> WgView {
    WgView {
        configs: keep(s.configs, |d: DeviceView| d.ifindex != ifindex),
        sessions: of_others(s.sessions, ifindex),
        pending: keep(s.pending, |x: PendingView| x.ifindex != ifindex),
        ..s
    }
}

/// Removes a tunnel with all that belongs to it, so that nothing is left for
/// another device that gets its number.
pub fn remove_config(st: &mut Wireguard, ifindex: i32)
    requires
        sessions_wf(old(st).sessions@),
    ensures
        sessions_wf(final(st).sessions@),
        final(st)@ == without_device(old(st)@, ifindex),
{
    let ghost s0 = st@;
    let ghost all = configs_view(st.configs@);
    let ghost others = |d: DeviceView| d.ifindex != ifindex;
    let mut rest: Vec<Device> = Vec::new();
    rest.append(&mut st.configs);
    let mut kept: Vec<Device> = Vec::new();
    assert(configs_view(rest@) =~= all);
    let ghost mut i: int = 0;
    assert(all.skip(0) =~= all);
    assert(configs_view(kept@) =~= keep(all.take(0), others));
    while rest.len() > 0
        invariant
            0 <= i <= all.len(),
            others == (|d: DeviceView| d.ifindex != ifindex),
            configs_view(rest@) == all.skip(i),
            configs_view(kept@) == keep(all.take(i), others),
        decreases rest@.len(),
    {
        let ghost r0 = rest@;
        let d = rest.remove(0);
        proof {
            assert(configs_view(rest@) =~= configs_view(r0).skip(1));
            assert(all.skip(i).skip(1) =~= all.skip(i + 1));
            assert(configs_view(r0)[0] == all[i]);
            lemma_keep_step(all, others, i);
        }
        if d.ifindex != ifindex {
            let ghost dv = d@;
            let ghost before = kept@;
            kept.push(d);
            assert(configs_view(kept@) =~= configs_view(before).push(dv));
        }
        proof {
            i = i + 1;
        }
    }
    assert(all.take(i) =~= all);
    st.configs = kept;
    remove_device_sessions(&mut st.sessions, ifindex);
    remove_device_pending(&mut st.pending, ifindex);
    assert(st@ =~= without_device(s0, ifindex));
}

// ---------------------------------------------------------------------------
// Counters.
// ---------------------------------------------------------------------------

pub open spec fn added(a: u64, b: int) -> u64 {
    if a + b > u64::MAX {
        u64::MAX
    } else {
        (a + b) as u64
    }
}

/// The place of a peer of a tunnel.
pub open spec fn peer_at(configs: Seq<DeviceView>, ifindex: i32, key: Seq<u8>) -> Option<(int, int)> {
    match device_place(configs, ifindex) {
        None => None,
        Some(k) => match peer_place(configs[k].peers, key) {
            None => None,
            Some(p) => Some((k, p)),
        },
    }
}

/// The tunnels with one peer changed.
pub open spec fn with_peer_at(configs: Seq<DeviceView>, k: int, p: int, peer: PeerView) -> Seq<
    DeviceView,
> {
    configs.update(k, DeviceView { peers: configs[k].peers.update(p, peer), ..configs[k] })
}

/// The tunnels after a peer received and was sent so many bytes.
pub open spec fn counted(
    configs: Seq<DeviceView>,
    ifindex: i32,
    key: Seq<u8>,
    rx: int,
    tx: int,
) -> Seq<DeviceView> {
    match peer_at(configs, ifindex, key) {
        None => configs,
        Some((k, p)) => {
            let peer = configs[k].peers[p];
            with_peer_at(
                configs,
                k,
                p,
                PeerView {
                    rx_bytes: added(peer.rx_bytes, rx),
                    tx_bytes: added(peer.tx_bytes, tx),
                    ..peer
                },
            )
        },
    }
}

/// Counts bytes of a peer.
pub fn add_peer_bytes(configs: &mut Vec<Device>, ifindex: i32, key: &[u8; 32], rx: usize, tx: usize)
    ensures
        configs_view(final(configs)@) == counted(
            configs_view(old(configs)@),
            ifindex,
            key@,
            rx as int,
            tx as int,
        ),
{
    let ghost c0 = configs_view(configs@);
    let k: usize = match find_device(configs, ifindex) {
        Some(k) => k,
        None => {
            return;
        },
    };
    assert(c0[k as int] == configs@[k as int]@);
    let p: usize = match find_peer(&configs[k].peers, key) {
        Some(p) => p,
        None => {
            return;
        },
    };
    let ghost peers0 = configs@[k as int].peers@;
    assert(c0[k as int].peers[p as int] == peers0[p as int]@);
    count_peer(&mut configs[k], p, rx, tx);
    assert(configs_view(configs@) =~= counted(c0, ifindex, key@, rx as int, tx as int));
}

fn count_peer(d: &mut Device, p: usize, rx: usize, tx: usize)
    requires
        p < old(d).peers@.len(),
    ensures
        final(d)@ == (DeviceView {
            peers: old(d)@.peers.update(
                p as int,
                PeerView {
                    rx_bytes: added(old(d)@.peers[p as int].rx_bytes, rx as int),
                    tx_bytes: added(old(d)@.peers[p as int].tx_bytes, tx as int),
                    ..old(d)@.peers[p as int]
                },
            ),
            ..old(d)@
        }),
{
    let ghost d0 = d@;
    let more_rx: u64 = d.peers[p].rx_bytes.saturating_add(rx as u64);
    let more_tx: u64 = d.peers[p].tx_bytes.saturating_add(tx as u64);
    d.peers[p].rx_bytes = more_rx;
    d.peers[p].tx_bytes = more_tx;
    assert(d@.peers =~= d0.peers.update(
        p as int,
        PeerView {
            rx_bytes: added(d0.peers[p as int].rx_bytes, rx as int),
            tx_bytes: added(d0.peers[p as int].tx_bytes, tx as int),
            ..d0.peers[p as int]
        },
    ));
}

/// The number of a new session. None has the number zero.
pub open spec fn new_index(next: u32) -> u32 {
    if next == 0 {
        1
    } else {
        next
    }
}

/// The number after it.
pub open spec fn index_after(next: u32) -> u32 {
    if new_index(next) == u32::MAX {
        0
    } else {
        (new_index(next) + 1) as u32
    }
}

/// Takes the number of a new session.
pub fn fresh_sender_index(next: &mut u32) -> (r: u32)
    ensures
        r == new_index(*old(next)),
        *final(next) == index_after(*old(next)),
        r != 0,
{
    let index: u32 = if *next == 0 {
        1
    } else {
        *next
    };
    *next = index.wrapping_add(1);
    index
}

// ---------------------------------------------------------------------------
// Laws.
// ---------------------------------------------------------------------------

/// A tunnel is never its own peer: whatever a request about one peer says, if the
/// tunnel's own key was not among its peers it is not afterwards.
pub proof fn law_no_tunnel_is_its_own_peer(d: DeviceView, p: PeerView, flags: u32)
    requires
        d.public_key is Some,
        !peer_keys(d).contains(d.public_key->0),
        with_peer(d, p, flags) is Ok,
    ensures
        ({
            let n = with_peer(d, p, flags)->Ok_0;
            n.public_key == d.public_key && !peer_keys(n).contains(d.public_key->0)
        }),
{
    let n = with_peer(d, p, flags)->Ok_0;
    let own = d.public_key->0;
    lemma_peer_place(d.peers, p.public_key, 0);
    assert forall|i: int| 0 <= i < n.peers.len() implies n.peers[i].public_key != own by {
        if i < d.peers.len() {
            assert(peer_keys(d)[i] == d.peers[i].public_key);
            if i + 1 < d.peers.len() {
                assert(peer_keys(d)[i + 1] == d.peers[i + 1].public_key);
            }
        }
    }
    if peer_keys(n).contains(own) {
        let i = choose|i: int| 0 <= i < peer_keys(n).len() && peer_keys(n)[i] == own;
        assert(n.peers[i].public_key == own);
    }
}

proof fn lemma_peer_place(peers: Seq<PeerView>, key: Seq<u8>, i: int)
    requires
        0 <= i <= peers.len(),
    ensures
        match peer_place_from(peers, key, i) {
            Some(k) => i <= k < peers.len() && peers[k].public_key == key,
            None => forall|j: int| i <= j < peers.len() ==> (#[trigger] peers[j]).public_key != key,
        },
    decreases peers.len() - i,
{
    if i < peers.len() && peers[i].public_key != key {
        lemma_peer_place(peers, key, i + 1);
    }
}

/// Setting the private key removes the tunnel from its own peers.
pub proof fn law_own_key_leaves_the_peers(d: DeviceView, key: Seq<u8>)
    requires
        with_private_key(d, key).public_key is Some,
    ensures
        !peer_keys(with_private_key(d, key)).contains(with_private_key(d, key).public_key->0),
{
    let n = with_private_key(d, key);
    let own = n.public_key->0;
    lemma_peers_without(d.peers, own);
    if peer_keys(n).contains(own) {
        let i = choose|i: int| 0 <= i < peer_keys(n).len() && peer_keys(n)[i] == own;
        assert(n.peers[i].public_key == peers_without(
            d.peers,
            own,
        )[i].public_key);
    }
}

proof fn lemma_peers_without(peers: Seq<PeerView>, key: Seq<u8>)
    ensures
        forall|i: int|
            0 <= i < peers_without(peers, key).len() ==> (#[trigger] peers_without(
                peers,
                key,
            )[i]).public_key != key,
        forall|i: int|
            0 <= i < peers_without(peers, key).len() ==> peers.contains(
                #[trigger] peers_without(peers, key)[i],
            ),
        distinct_keys(peers) ==> distinct_keys(peers_without(peers, key)),
    decreases peers.len(),
{
    if peers.len() > 0 {
        let front = peers.drop_last();
        lemma_peers_without(front, key);
        let r = peers_without(peers, key);
        assert forall|i: int| 0 <= i < r.len() implies peers.contains(#[trigger] r[i]) by {
            if i < peers_without(front, key).len() {
                let x = peers_without(front, key)[i];
                let j = choose|j: int| 0 <= j < front.len() && front[j] == x;
                assert(peers[j] == x);
            } else {
                assert(peers[peers.len() - 1] == r[i]);
            }
        }
        if distinct_keys(peers) {
            assert(distinct_keys(front)) by {
                assert forall|i: int, j: int| 0 <= i < j < front.len() implies (
                #[trigger] front[i]).public_key != (#[trigger] front[j]).public_key by {
                    assert(peers[i].public_key != peers[j].public_key);
                }
            }
            assert forall|i: int, j: int| 0 <= i < j < r.len() implies (#[trigger] r[i]).public_key
                != (#[trigger] r[j]).public_key by {
                let f = peers_without(front, key);
                if j < f.len() {
                    assert(f[i].public_key != f[j].public_key);
                } else {
                    let x = f[i];
                    let n = choose|n: int| 0 <= n < front.len() && front[n] == x;
                    assert(peers[n].public_key != peers[peers.len() - 1].public_key);
                }
            }
        }
    }
}

/// No two peers have the same key.
pub open spec fn distinct_keys(peers: Seq<PeerView>) -> bool {
    forall|i: int, j: int|
        0 <= i < j < peers.len() ==> (#[trigger] peers[i]).public_key != (
        #[trigger] peers[j]).public_key
}

/// No range is a request to drop one.
pub open spec fn no_removals(s: Seq<AllowedView>) -> bool {
    forall|i: int| 0 <= i < s.len() ==> !(#[trigger] s[i]).remove
}

/// A peer of a tunnel is another than the tunnel, has the secret that the two keys
/// give, and its ranges are ranges.
pub open spec fn peer_sound(d: DeviceView, p: PeerView) -> bool {
    &&& d.public_key != Some(p.public_key)
    &&& p.shared == shared_with(d.private_key, p.public_key)
    &&& no_removals(p.allowed)
}

/// A tunnel has both keys or none, and its peers are sound and distinct.
pub open spec fn device_sound(d: DeviceView) -> bool {
    &&& d.public_key is Some == d.private_key is Some
    &&& forall|i: int| 0 <= i < d.peers.len() ==> peer_sound(d, #[trigger] d.peers[i])
    &&& distinct_keys(d.peers)
}

pub open spec fn configs_sound(configs: Seq<DeviceView>) -> bool {
    forall|i: int| 0 <= i < configs.len() ==> device_sound(#[trigger] configs[i])
}

proof fn lemma_ranges_stay(s: Seq<AllowedView>, a: AllowedView)
    requires
        no_removals(s),
    ensures
        no_removals(without_range(s, a)),
        no_removals(updated_ranges(s, a)),
    decreases s.len(),
{
    if s.len() > 0 {
        let front = s.drop_last();
        assert forall|i: int| 0 <= i < front.len() implies !(#[trigger] front[i]).remove by {
            assert(!s[i].remove);
        }
        lemma_ranges_stay(front, a);
        assert(!s[s.len() - 1].remove);
    }
}

proof fn lemma_updated_stay(s: Seq<AllowedView>, updates: Seq<AllowedView>, i: int)
    requires
        no_removals(s),
        0 <= i <= updates.len(),
    ensures
        no_removals(updated_all(s, updates, i)),
    decreases updates.len() - i,
{
    if i < updates.len() {
        lemma_ranges_stay(s, updates[i]);
        lemma_updated_stay(updated_ranges(s, updates[i]), updates, i + 1);
    }
}

proof fn lemma_kept_ranges(s: Seq<AllowedView>)
    ensures
        no_removals(kept_ranges(s)),
    decreases s.len(),
{
    if s.len() > 0 {
        lemma_kept_ranges(s.drop_last());
    }
}

proof fn lemma_with_peer_sound(d: DeviceView, p: PeerView, flags: u32)
    requires
        device_sound(d),
        with_peer(d, p, flags) is Ok,
    ensures
        device_sound(with_peer(d, p, flags)->Ok_0),
{
    let n = with_peer(d, p, flags)->Ok_0;
    lemma_peer_place(d.peers, p.public_key, 0);
    lemma_kept_ranges(p.allowed);
    if let Some(k) = peer_place(d.peers, p.public_key) {
        assert(peer_sound(d, d.peers[k]));
        lemma_updated_stay(d.peers[k].allowed, p.allowed, 0);
        lemma_updated_stay(Seq::empty(), p.allowed, 0);
    }
    assert forall|i: int| 0 <= i < n.peers.len() implies peer_sound(n, #[trigger] n.peers[i]) by {
        if i < d.peers.len() {
            assert(peer_sound(d, d.peers[i]));
            if i + 1 < d.peers.len() {
                assert(peer_sound(d, d.peers[i + 1]));
            }
        }
    }
}

proof fn lemma_with_peers_sound(d: DeviceView, entries: Seq<AttrView>, i: int)
    requires
        device_sound(d),
        0 <= i <= entries.len(),
    ensures
        device_sound(with_peers_from(d, entries, i).0),
    decreases entries.len() - i,
{
    if i < entries.len() {
        if let Ok(p) = peer_in(entries[i].data) {
            if let Ok(next) = with_peer(d, p.0, p.1) {
                lemma_with_peer_sound(d, p.0, p.1);
                lemma_with_peers_sound(next, entries, i + 1);
            }
        }
    }
}

proof fn lemma_private_key_sound(d: DeviceView, key: Seq<u8>)
    requires
        device_sound(d),
    ensures
        device_sound(with_private_key(d, key)),
{
    let n = with_private_key(d, key);
    let others = match public_of(key) {
        Some(p) => peers_without(d.peers, p),
        None => d.peers,
    };
    if let Some(p) = public_of(key) {
        lemma_peers_without(d.peers, p);
    }
    assert(distinct_keys(others));
    assert forall|i: int| 0 <= i < n.peers.len() implies peer_sound(n, #[trigger] n.peers[i]) by {
        let x = others[i];
        assert(d.peers.contains(x));
        let j = choose|j: int| 0 <= j < d.peers.len() && d.peers[j] == x;
        assert(peer_sound(d, d.peers[j]));
    }
    assert forall|i: int, j: int| 0 <= i < j < n.peers.len() implies (
    #[trigger] n.peers[i]).public_key != (#[trigger] n.peers[j]).public_key by {
        assert(others[i].public_key != others[j].public_key);
    }
}

proof fn lemma_set_up_sound(d: DeviceView, name: Seq<u8>, q: SetRequest)
    requires
        device_sound(d),
    ensures
        device_sound(set_up(d, name, q)),
{
    let named = DeviceView { ifname: name, ..d };
    assert forall|i: int| 0 <= i < named.peers.len() implies peer_sound(
        named,
        #[trigger] named.peers[i],
    ) by {
        assert(peer_sound(d, d.peers[i]));
    }
    assert(device_sound(named));
    let keyed = match q.private_key {
        Some(k) => with_private_key(named, k),
        None => named,
    };
    if let Some(k) = q.private_key {
        lemma_private_key_sound(named, k);
    }
    let n = set_up(d, name, q);
    assert forall|i: int| 0 <= i < n.peers.len() implies peer_sound(n, #[trigger] n.peers[i]) by {
        assert(peer_sound(keyed, keyed.peers[i]));
    }
}

/// Setting up a tunnel keeps all tunnels sound, whether it succeeds or not: no tunnel
/// is its own peer, the keys of its peers are distinct, no stored range is a request
/// to drop one, it has both keys or none, and each peer has the secret of its key.
pub proof fn law_set_up_keeps_tunnels_sound(
    s: WgView,
    attrs: Seq<AttrView>,
    devices: Seq<NetDeviceView>,
)
    requires
        configs_sound(s.configs),
    ensures
        configs_sound(set_device(s, attrs, devices).0.configs),
{
    if let Ok(k) = target_of(attrs, devices) {
        if let Ok(q) = request_of(attrs) {
            let dev = devices[k];
            let (configs, at) = with_device(s.configs, dev);
            lemma_device_place(s.configs, dev.ifindex, 0);
            assert(configs_sound(configs));
            assert(device_sound(configs[at]));
            lemma_set_up_sound(configs[at], dev.name, q);
            let d1 = set_up(configs[at], dev.name, q);
            if let Some(data) = value_of(attrs, WGDEVICE_A_PEERS) {
                if let Ok(entries) = attrs_in(data) {
                    lemma_with_peers_sound(d1, entries, 0);
                }
            }
        }
    }
}

/// Tunnels stay sound when the time of a handshake is kept or bytes are counted: only
/// the keys, the secret and the ranges of a peer matter.
pub proof fn law_traffic_keeps_tunnels_sound(
    configs: Seq<DeviceView>,
    k: int,
    p: int,
    peer: PeerView,
)
    requires
        configs_sound(configs),
        0 <= k < configs.len(),
        0 <= p < configs[k].peers.len(),
        peer.public_key == configs[k].peers[p].public_key,
        peer.shared == configs[k].peers[p].shared,
        peer.allowed == configs[k].peers[p].allowed,
    ensures
        configs_sound(with_peer_at(configs, k, p, peer)),
{
    let d = configs[k];
    let n = with_peer_at(configs, k, p, peer)[k];
    assert(device_sound(d));
    assert forall|i: int| 0 <= i < n.peers.len() implies peer_sound(n, #[trigger] n.peers[i]) by {
        assert(peer_sound(d, d.peers[i]));
    }
    assert forall|i: int, j: int| 0 <= i < j < n.peers.len() implies (
    #[trigger] n.peers[i]).public_key != (#[trigger] n.peers[j]).public_key by {
        assert(d.peers[i].public_key != d.peers[j].public_key);
    }
    assert(device_sound(n));
}

/// Tunnels stay sound when another is removed.
pub proof fn law_removing_keeps_tunnels_sound(s: WgView, ifindex: i32)
    requires
        configs_sound(s.configs),
    ensures
        configs_sound(without_device(s, ifindex).configs),
{
    let others = |d: DeviceView| d.ifindex != ifindex;
    let c = without_device(s, ifindex).configs;
    assert forall|i: int| 0 <= i < c.len() implies device_sound(#[trigger] c[i]) by {
        crate::net::wireguard::sessions::lemma_kept(s.configs, others, i);
        let j = choose|j: int| 0 <= j < s.configs.len() && s.configs[j] == c[i];
        assert(device_sound(s.configs[j]));
    }
}

/// The state after some requests, each with the devices that there were at its time.
pub open spec fn after_requests(
    s: WgView,
    requests: Seq<(Seq<AttrView>, Seq<NetDeviceView>)>,
) -> WgView
    decreases requests.len(),
{
    if requests.len() == 0 {
        s
    } else {
        set_device(
            after_requests(s, requests.drop_last()),
            requests.last().0,
            requests.last().1,
        ).0
    }
}

/// After any requests, from no tunnels on, all tunnels are sound.
pub proof fn law_tunnels_are_sound(
    s: WgView,
    requests: Seq<(Seq<AttrView>, Seq<NetDeviceView>)>,
)
    requires
        s.configs.len() == 0,
    ensures
        configs_sound(after_requests(s, requests).configs),
    decreases requests.len(),
{
    if requests.len() > 0 {
        law_tunnels_are_sound(s, requests.drop_last());
        law_set_up_keeps_tunnels_sound(
            after_requests(s, requests.drop_last()),
            requests.last().0,
            requests.last().1,
        );
    }
}

/// After a tunnel was removed nothing of it is found.
pub proof fn law_removed_tunnels_are_gone(s: WgView, ifindex: i32)
    ensures
        device_place(without_device(s, ifindex).configs, ifindex) is None,
{
    let c = without_device(s, ifindex).configs;
    lemma_device_place(c, ifindex, 0);
    if let Some(k) = device_place(c, ifindex) {
        crate::net::wireguard::sessions::lemma_kept(
            s.configs,
            |d: DeviceView| d.ifindex != ifindex,
            k,
        );
    }
}

proof fn lemma_device_place(configs: Seq<DeviceView>, ifindex: i32, i: int)
    requires
        0 <= i <= configs.len(),
    ensures
        match device_place_from(configs, ifindex, i) {
            Some(k) => i <= k < configs.len() && configs[k].ifindex == ifindex,
            None => true,
        },
    decreases configs.len() - i,
{
    if i < configs.len() && configs[i].ifindex != ifindex {
        lemma_device_place(configs, ifindex, i + 1);
    }
}

} // verus!
