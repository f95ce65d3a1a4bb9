//! Handshake packets and data packets of the tunnels.

use vstd::prelude::*;
use crate::net::wireguard::config::{
    configs_view, device_place, device_place_from, find_device, find_peer, Device, DeviceView, Peer,
    PeerView,
};
use crate::net::wireguard::messages::{
    apply_mac1, before, build_data_packet, build_handshake_initiation, build_handshake_response,
    data_bytes, data_in, initiation_in, law_data_packets_read_back, mac1_fits,
    pad_data_plaintext, padded_len, padded_text, parse_data_packet, parse_handshake_initiation,
    parse_handshake_response, response_in, validate_mac1, with_mac1, DataView,
    HandshakeInitiation, InitiationView, ResponseView,
};
use crate::net::wireguard::noise::{
    aead_decrypt, aead_encrypt, all_zero, completed_of, consume_handshake_initiation_for_peer,
    consume_handshake_response, consumed_of, create_handshake_initiation,
    create_handshake_response, derive_keypair, initiation_of, key_view,
    law_keys_mirror_each_other, message_mac1_key, opened, receiving_key, response_of, says,
    sealed, sending_key, zero_key, ConsumedInitiation, ConsumedView, NoiseKeypair,
};
use crate::net::wireguard::primitives::{
    blake2s_256, cipher_answers, text_view, x25519_public, CIPHER_MAX_LEN,
};
use crate::net::wireguard::replay::{
    accepts, law_new_packets_are_taken, law_no_packet_is_taken_twice, moved, replay_wf,
    NoiseReplayCounter, REJECT_AFTER_MESSAGES,
};
use crate::net::wireguard::sessions::{
    find_peer_session, find_ready_session, find_session, first_from, other_list, pending_view,
    ready_numbered, ready_with, replace_session, replaced, session_numbered, session_wf,
    sessions_wf, settle_sessions, settled, take_pending_data, waiting_list, Pending,
    PendingView, Session,
};
use crate::net::wireguard::state::{
    add_peer_bytes, counted, fresh_sender_index, index_after, new_index, peer_at, with_peer_at,
    WgView, Wireguard,
};
use crate::text::txt;

verus! {

/// The key of the first authentication field of packets to the owner of a public
/// key.
pub open spec fn mac1_key(public_key: Seq<u8>) -> Seq<u8> {
    blake2s_256(txt("mac1----") + public_key)
}

/// What a handshake with a peer is started with: the tunnel's own public key,
/// and the secret shared with the peer.
pub open spec fn start_keys(s: WgView, ifindex: i32, key: Seq<u8>) -> Option<(Seq<u8>, Seq<u8>)> {
    match peer_at(s.configs, ifindex, key) {
        None => None,
        Some((k, p)) => match (s.configs[k].public_key, s.configs[k].peers[p].shared) {
            (Some(local), Some(shared)) => Some((local, shared)),
            _ => None,
        },
    }
}

fn find_start_keys(configs: &Vec<Device>, ifindex: i32, key: &[u8; 32]) -> (r: Option<
    ([u8; 32], [u8; 32]),
>)
    ensures
        ({
            let c = configs_view(configs@);
            match r {
                None => match peer_at(c, ifindex, key@) {
                    None => true,
                    Some((k, p)) => c[k].public_key is None || c[k].peers[p].shared is None,
                },
                Some((local, shared)) => match peer_at(c, ifindex, key@) {
                    None => false,
                    Some((k, p)) => c[k].public_key == Some(local@) && c[k].peers[p].shared == Some(
                        shared@,
                    ),
                },
            }
        }),
{
    let k: usize = match find_device(configs, ifindex) {
        Some(k) => k,
        None => {
            return None;
        },
    };
    assert(configs_view(configs@)[k as int] == configs@[k as int]@);
    let p: usize = match find_peer(&configs[k].peers, key) {
        Some(p) => p,
        None => {
            return None;
        },
    };
    assert(configs_view(configs@)[k as int].peers[p as int] == configs@[k as int].peers@[p as int]@);
    match (configs[k].public_key, configs[k].peers[p].precomputed_static_static) {
        (Some(local), Some(shared)) => Some((local, shared)),
        _ => None,
    }
}

/// A stored session is a handshake that was started.
pub open spec fn started(
    x: Session,
    ifindex: i32,
    key: Seq<u8>,
    index: u32,
    state: crate::net::wireguard::noise::StateView,
    ephemeral: Seq<u8>,
    now: u64,
) -> bool {
    &&& x.ifindex == ifindex
    &&& x.peer_public_key@ == key
    &&& x.local_index == index
    &&& x.pending_state matches Some(s) && s@ == state
    &&& key_view(x.pending_ephemeral_private) == Some(ephemeral)
    &&& x.keypair is None
    &&& x.created_ms == now
}

/// A stored session with fresh keys.
pub open spec fn keyed(
    x: Session,
    ifindex: i32,
    key: Seq<u8>,
    index: u32,
    ck: Seq<u8>,
    remote_index: u32,
    initiator: bool,
    now: u64,
) -> bool {
    &&& x.ifindex == ifindex
    &&& x.peer_public_key@ == key
    &&& x.local_index == index
    &&& x.pending_state is None
    &&& x.pending_ephemeral_private is None
    &&& x.created_ms == now
    &&& x.keypair matches Some(k) && k.sending.key@ == sending_key(ck, initiator)
        && k.receiving.key@ == receiving_key(ck, initiator) && k.sending.is_valid
        && k.receiving.is_valid && k.sending.birth_ms == now && k.receiving.birth_ms == now
        && k.sending_counter == 0 && k.remote_index == remote_index && k.i_am_the_initiator
        == initiator && replay_wf(k.receiving_counter) && k.receiving_counter.counter == 0
}

/// What starting a handshake does: see [`prepare_handshake_initiation`].
pub open spec fn starts(
    s: WgView,
    t: WgView,
    ifindex: i32,
    key: Seq<u8>,
    ephemeral: Seq<u8>,
    time: Seq<u8>,
    now: u64,
    r: Option<Seq<u8>>,
) -> bool {
    &&& t.configs == s.configs
    &&& t.pending == s.pending
    &&& match start_keys(s, ifindex, key) {
        None => r is None && t == s,
        Some((local, shared)) => {
            let index = new_index(s.next_index);
            let made = initiation_of(
                local,
                key,
                shared,
                ephemeral,
                time,
            );
            &&& t.next_index == index_after(s.next_index)
            &&& match made {
                None => r is None && t.sessions == s.sessions,
                Some(i) => {
                    &&& r is Some
                    &&& initiation_in(r->0) matches Some(m) && m.sender_index == index
                        && m.ephemeral == i.ephemeral && m.enc_static == i.enc_static
                        && m.enc_timestamp == i.enc_timestamp && all_zero(m.mac2)
                    &&& mac1_fits(r->0, mac1_key(key))
                    &&& t.sessions == replaced(
                        s.sessions,
                        t.sessions.last(),
                    )
                    &&& started(
                        t.sessions.last(),
                        ifindex,
                        key,
                        index,
                        i.state,
                        ephemeral,
                        now,
                    )
                },
            }
        },
    }
}

/// Starts a handshake with a peer. The packet says what an initiation made of the
/// tunnel's keys says, and is authenticated for the peer; the state is kept for
/// the answer.
pub fn prepare_handshake_initiation(
    st: &mut Wireguard,
    ifindex: i32,
    peer_public_key: &[u8; 32],
    ephemeral_private: [u8; 32],
    timestamp: [u8; 12],
    now: u64,
) -> (r: Option<Vec<u8>>)
    requires
        sessions_wf(old(st).sessions@),
    ensures
        sessions_wf(final(st).sessions@),
        starts(
            old(st)@,
            final(st)@,
            ifindex,
            peer_public_key@,
            ephemeral_private@,
            timestamp@,
            now,
            text_view(r),
        ),
{
    let ghost s0 = st@;
    let (local_public, shared) = match find_start_keys(&st.configs, ifindex, peer_public_key) {
        Some(k) => k,
        None => {
            return None;
        },
    };
    let sender_index: u32 = fresh_sender_index(&mut st.next_index);
    let (initiation, state) = match create_handshake_initiation(
        local_public,
        *peer_public_key,
        shared,
        sender_index,
        ephemeral_private,
        timestamp,
    ) {
        Some(i) => i,
        None => {
            return None;
        },
    };
    let mut packet = build_handshake_initiation(&initiation);
    let ghost p0 = packet@;
    let key: [u8; 32] = message_mac1_key(peer_public_key);
    if apply_mac1(&mut packet, &key).is_none() {
        return None;
    }
    proof {
        lemma_mac1_keeps_initiation(p0, packet@, initiation@);
    }
    let session = Session {
        ifindex,
        peer_public_key: *peer_public_key,
        local_index: sender_index,
        pending_state: Some(state),
        pending_ephemeral_private: Some(ephemeral_private),
        keypair: None,
        created_ms: now,
    };
    replace_session(&mut st.sessions, session);
    assert(st.sessions@.last() == session);
    Some(packet)
}

proof fn lemma_mac1_keeps_initiation(p: Seq<u8>, q: Seq<u8>, m: InitiationView)
    requires
        initiation_in(p) == Some(m),
        exists|mac: Seq<u8>| q == #[trigger] with_mac1(p, 116, mac),
    ensures
        initiation_in(q) matches Some(n) && n.sender_index == m.sender_index && n.ephemeral
            == m.ephemeral && n.enc_static == m.enc_static && n.enc_timestamp == m.enc_timestamp
            && all_zero(n.mac2),
{
    assert(q.len() == 148);
    assert(forall|i: int| 0 <= i < 116 ==> q[i] == p[i]);
    assert(q.subrange(8, 40) =~= p.subrange(8, 40));
    assert(q.subrange(40, 88) =~= p.subrange(40, 88));
    assert(q.subrange(88, 116) =~= p.subrange(88, 116));
}

proof fn lemma_mac1_keeps_response(p: Seq<u8>, q: Seq<u8>, m: ResponseView)
    requires
        response_in(p) == Some(m),
        exists|mac: Seq<u8>| q == #[trigger] with_mac1(p, 60, mac),
    ensures
        response_in(q) matches Some(n) && n.sender_index == m.sender_index && n.receiver_index
            == m.receiver_index && n.ephemeral == m.ephemeral && n.enc_nothing == m.enc_nothing
            && all_zero(n.mac2),
{
    assert(q.len() == 92);
    assert(forall|i: int| 0 <= i < 60 ==> q[i] == p[i]);
    assert(q.subrange(12, 44) =~= p.subrange(12, 44));
    assert(q.subrange(44, 60) =~= p.subrange(44, 60));
}

// ---------------------------------------------------------------------------
// Answering a handshake.
// ---------------------------------------------------------------------------

/// What an initiation is taken as from one peer.
pub open spec fn taken_from(d: DeviceView, p: int, m: InitiationView) -> Option<ConsumedView> {
    match (d.private_key, d.public_key, d.peers[p].shared) {
        (Some(private), Some(public), Some(shared)) => consumed_of(
            m,
            private,
            public,
            d.peers[p].public_key,
            shared,
            d.peers[p].latest,
        ),
        _ => None,
    }
}

/// The first peer, from `i` on, that an initiation is taken from.
pub open spec fn sender_from(d: DeviceView, m: InitiationView, i: int) -> Option<int>
    decreases d.peers.len() - i,
{
    if i >= d.peers.len() {
        None
    } else if taken_from(d, i, m) is Some {
        Some(i)
    } else {
        sender_from(d, m, i + 1)
    }
}

/// The tunnel and the peer that a packet starts a handshake with: the packet must
/// be authenticated for the tunnel.
pub open spec fn initiator_of(s: WgView, ifindex: i32, packet: Seq<u8>) -> Option<(int, int)> {
    match (initiation_in(packet), device_place(s.configs, ifindex)) {
        (Some(m), Some(k)) => {
            let d = s.configs[k];
            if d.private_key is None || d.public_key is None || !mac1_fits(
                packet,
                mac1_key(d.public_key->0),
            ) {
                None
            } else {
                match sender_from(d, m, 0) {
                    Some(p) => Some((k, p)),
                    None => None,
                }
            }
        },
        _ => None,
    }
}

/// The message says what peer `p` says to start a handshake with this tunnel, with
/// the private key `e` for the handshake and at time `time`, which is later than
/// the last one seen.
pub open spec fn says_peer(
    d: DeviceView,
    m: InitiationView,
    p: int,
    e: Seq<u8>,
    time: Seq<u8>,
) -> bool {
    &&& 0 <= p < d.peers.len()
    &&& e.len() == 32
    &&& time.len() == 12
    &&& d.private_key is Some && d.public_key == Some(x25519_public(d.private_key->0))
    &&& d.peers[p].shared is Some
    &&& before(d.peers[p].latest, time)
    &&& initiation_of(
        d.peers[p].public_key,
        d.public_key->0,
        d.peers[p].shared->0,
        e,
        time,
    ) matches Some(i) && says(m, i)
}

/// What a message that peer `p` made is taken as: the state is that of the peer.
pub open spec fn as_meant(
    d: DeviceView,
    m: InitiationView,
    p: int,
    e: Seq<u8>,
    time: Seq<u8>,
) -> ConsumedView {
    let made = initiation_of(
        d.peers[p].public_key,
        d.public_key->0,
        d.peers[p].shared->0,
        e,
        time,
    )->0;
    ConsumedView {
        state: made.state,
        remote_static: d.peers[p].public_key,
        remote_ephemeral: x25519_public(e),
        remote_index: m.sender_index,
        timestamp: time,
    }
}

/// A packet that peer `p` of a tunnel made to start a handshake with it.
pub open spec fn made_by_peer(
    s: WgView,
    ifindex: i32,
    packet: Seq<u8>,
    p: int,
    e: Seq<u8>,
    time: Seq<u8>,
) -> bool {
    match (initiation_in(packet), device_place(s.configs, ifindex)) {
        (Some(m), Some(k)) => mac1_fits(packet, mac1_key(s.configs[k].public_key->0)) && says_peer(
            s.configs[k],
            m,
            p,
            e,
            time,
        ),
        _ => false,
    }
}

/// The key given beforehand, or none.
pub open spec fn psk_of(p: PeerView) -> Seq<u8> {
    match p.preshared_key {
        Some(k) => k,
        None => zero_key(),
    }
}

fn preshared_or_zero(p: &Peer) -> (r: [u8; 32])
    ensures
        r@ == psk_of(p@),
{
    match p.preshared_key {
        Some(k) => k,
        None => {
            let z: [u8; 32] = [0;32];
            assert(z@ =~= zero_key());
            z
        },
    }
}

fn find_sender(
    d: &Device,
    msg: &HandshakeInitiation,
    local_private: [u8; 32],
    local_public: [u8; 32],
) -> (r: Option<(usize, ConsumedInitiation)>)
    requires
        d@.private_key == Some(local_private@),
        d@.public_key == Some(local_public@),
    ensures
        match r {
            None => sender_from(d@, msg@, 0) is None && forall|p: int, e: Seq<u8>, time: Seq<u8>|
                !#[trigger] says_peer(d@, msg@, p, e, time),
            Some((p, c)) => p < d.peers@.len() && sender_from(d@, msg@, 0) == Some(p as int)
                && taken_from(d@, p as int, msg@) == Some(c@) && c.remote_index
                == msg.sender_index && forall|q: int, e: Seq<u8>, time: Seq<u8>| #[trigger]
                says_peer(d@, msg@, q, e, time) ==> p <= q && (p == q ==> c@ == as_meant(
                    d@,
                    msg@,
                    q,
                    e,
                    time,
                )),
        },
{
    let mut i: usize = 0;
    while i < d.peers.len()
        invariant
            i <= d.peers@.len(),
            d@.private_key == Some(local_private@),
            d@.public_key == Some(local_public@),
            sender_from(d@, msg@, 0) == sender_from(d@, msg@, i as int),
            forall|p: int, e: Seq<u8>, time: Seq<u8>| #[trigger]
                says_peer(d@, msg@, p, e, time) ==> p >= i,
        decreases d.peers@.len() - i,
    {
        let peer = &d.peers[i];
        assert(d@.peers[i as int] == peer@);
        if let Some(shared) = peer.precomputed_static_static {
            let taken = consume_handshake_initiation_for_peer(
                msg,
                local_private,
                local_public,
                peer.public_key,
                shared,
                &peer.latest_handshake_timestamp,
            );
            if let Some(c) = taken {
                return Some((i, c));
            }
            assert forall|e: Seq<u8>, time: Seq<u8>| !#[trigger] says_peer(
                d@,
                msg@,
                i as int,
                e,
                time,
            ) by {
                let made = initiation_of(peer.public_key@, local_public@, shared@, e, time);
            }
        }
        i += 1;
    }
    None
}

fn set_latest(d: &mut Device, p: usize, timestamp: [u8; 12])
    requires
        p < old(d).peers@.len(),
    ensures
        final(d)@ == (DeviceView {
            peers: old(d)@.peers.update(
                p as int,
                PeerView { latest: timestamp@, ..old(d)@.peers[p as int] },
            ),
            ..old(d)@
        }),
        final(d).peers@.len() == old(d).peers@.len(),
{
    let ghost d0 = d@;
    d.peers[p].latest_handshake_timestamp = timestamp;
    assert(d@.peers =~= d0.peers.update(
        p as int,
        PeerView { latest: timestamp@, ..d0.peers[p as int] },
    ));
}

/// What answering a handshake does: see [`handle_handshake_initiation`].
pub open spec fn answers(
    s: WgView,
    t: WgView,
    ifindex: i32,
    packet: Seq<u8>,
    ephemeral: Seq<u8>,
    now: u64,
    r: Option<Seq<u8>>,
) -> bool {
    &&& t.pending == s.pending
    &&& match initiator_of(s, ifindex, packet) {
        None => r is None && t == s,
        Some((k, p)) => {
            let d = s.configs[k];
            let m = initiation_in(packet)->0;
            let c = taken_from(d, p, m)->0;
            let index = new_index(s.next_index);
            let made = response_of(c, psk_of(d.peers[p]), ephemeral);
            &&& t.configs == with_peer_at(
                s.configs,
                k,
                p,
                PeerView { latest: c.timestamp, ..d.peers[p] },
            )
            &&& t.next_index == index_after(s.next_index)
            &&& match made {
                None => r is None && t.sessions == s.sessions,
                Some(a) => {
                    &&& r is Some
                    &&& response_in(r->0) matches Some(n) && n.sender_index == index
                        && n.receiver_index == m.sender_index && n.ephemeral == a.ephemeral
                        && n.enc_nothing == a.enc_nothing && all_zero(n.mac2)
                    &&& mac1_fits(r->0, mac1_key(d.peers[p].public_key))
                    &&& t.sessions == replaced(
                        s.sessions,
                        t.sessions.last(),
                    )
                    &&& keyed(
                        t.sessions.last(),
                        ifindex,
                        d.peers[p].public_key,
                        index,
                        a.state.ck,
                        m.sender_index,
                        false,
                        now,
                    )
                },
            }
        },
    }
}

/// Answers a packet that starts a handshake. The time of the packet is kept, so
/// that it is not taken again; with the answer the session is complete on this
/// side. A packet that a peer of the tunnel made is taken, and taken as the peer
/// meant it unless an earlier peer's key opens it too.
pub fn handle_handshake_initiation(
    st: &mut Wireguard,
    ifindex: i32,
    packet: &[u8],
    ephemeral_private: [u8; 32],
    now: u64,
) -> (r: Option<Vec<u8>>)
    requires
        sessions_wf(old(st).sessions@),
    ensures
        sessions_wf(final(st).sessions@),
        answers(
            old(st)@,
            final(st)@,
            ifindex,
            packet@,
            ephemeral_private@,
            now,
            text_view(r),
        ),
        forall|p: int, e: Seq<u8>, time: Seq<u8>| #[trigger]
            made_by_peer(old(st)@, ifindex, packet@, p, e, time) ==> (initiator_of(
                old(st)@,
                ifindex,
                packet@,
            ) matches Some((k, q)) && q <= p && (q == p ==> taken_from(
                old(st)@.configs[k],
                p,
                initiation_in(packet@)->0,
            ) == Some(
                as_meant(old(st)@.configs[k], initiation_in(packet@)->0, p, e, time),
            ))),
{
    let ghost s0 = st@;
    let msg = match parse_handshake_initiation(packet) {
        Some(m) => m,
        None => {
            return None;
        },
    };
    assert(initiation_in(packet@) == Some(msg@));
    let k: usize = match find_device(&st.configs, ifindex) {
        Some(k) => k,
        None => {
            return None;
        },
    };
    assert(s0.configs[k as int] == st.configs@[k as int]@);
    let (local_private, local_public) = match (st.configs[k].private_key, st.configs[k].public_key) {
        (Some(a), Some(b)) => (a, b),
        _ => {
            return None;
        },
    };
    let local_key: [u8; 32] = message_mac1_key(&local_public);
    if !validate_mac1(packet, &local_key) {
        return None;
    }
    let (p, initiation) = match find_sender(&st.configs[k], &msg, local_private, local_public) {
        Some(f) => f,
        None => {
            return None;
        },
    };
    let ghost d0 = st.configs@[k as int]@;
    let psk: [u8; 32] = preshared_or_zero(&st.configs[k].peers[p]);
    let peer_key: [u8; 32] = st.configs[k].peers[p].public_key;
    assert(d0.peers[p as int] == st.configs@[k as int].peers@[p as int]@);
    set_latest(&mut st.configs[k], p, initiation.timestamp);
    assert(configs_view(st.configs@) =~= with_peer_at(
        s0.configs,
        k as int,
        p as int,
        PeerView { latest: initiation.timestamp@, ..d0.peers[p as int] },
    ));
    let sender_index: u32 = fresh_sender_index(&mut st.next_index);
    let (response, state) = match create_handshake_response(
        &initiation,
        psk,
        sender_index,
        ephemeral_private,
    ) {
        Some(x) => x,
        None => {
            return None;
        },
    };
    let keypair = derive_keypair(&state.chaining_key, msg.sender_index, false, now);
    let mut answer = build_handshake_response(&response);
    let ghost a0 = answer@;
    let key: [u8; 32] = message_mac1_key(&peer_key);
    if apply_mac1(&mut answer, &key).is_none() {
        return None;
    }
    proof {
        lemma_mac1_keeps_response(a0, answer@, response@);
    }
    let session = Session {
        ifindex,
        peer_public_key: peer_key,
        local_index: sender_index,
        pending_state: None,
        pending_ephemeral_private: None,
        keypair: Some(keypair),
        created_ms: now,
    };
    replace_session(&mut st.sessions, session);
    assert(st.sessions@.last() == session);
    Some(answer)
}

// ---------------------------------------------------------------------------
// Completing a handshake.
// ---------------------------------------------------------------------------

/// The session that a response completes, and the chaining key it ends with.
pub open spec fn completion_of(s: WgView, ifindex: i32, packet: Seq<u8>) -> Option<(int, Seq<u8>)> {
    match response_in(packet) {
        None => None,
        Some(m) => match session_numbered(s.sessions, ifindex, m.receiver_index) {
            None => None,
            Some(i) => {
                let x = s.sessions[i];
                match peer_at(s.configs, ifindex, x.peer_public_key@) {
                    None => None,
                    Some((k, p)) => {
                        let d = s.configs[k];
                        if d.private_key is None || d.public_key is None || !mac1_fits(
                            packet,
                            mac1_key(d.public_key->0),
                        ) || x.pending_state is None || x.pending_ephemeral_private is None {
                            None
                        } else {
                            match completed_of(
                                m,
                                x.pending_state->0@,
                                d.private_key->0,
                                x.pending_ephemeral_private->0@,
                                psk_of(d.peers[p]),
                            ) {
                                Some(done) => Some((i, done.ck)),
                                None => None,
                            }
                        }
                    },
                }
            },
        },
    }
}

/// Session `i` was completed by a response and is the only one left with its
/// peer.
pub open spec fn completes(
    before: Seq<Session>,
    after: Seq<Session>,
    i: int,
    ifindex: i32,
    m: ResponseView,
    ck: Seq<u8>,
    now: u64,
) -> bool {
    let key = before[i].peer_public_key@;
    exists|y: Session| #[trigger]
        keyed(y, ifindex, key, m.receiver_index, ck, m.sender_index, true, now) && after
            == settled(before.update(i, y), ifindex, key, m.receiver_index)
}

pub open spec fn packets_view(r: Option<Vec<Pending>>) -> Option<Seq<PendingView>> {
    match r {
        Some(v) => Some(pending_view(v@)),
        None => None,
    }
}

/// What completing a handshake does: see [`handle_handshake_response`].
pub open spec fn completes_with(
    s: WgView,
    t: WgView,
    ifindex: i32,
    packet: Seq<u8>,
    now: u64,
    r: Option<Seq<PendingView>>,
) -> bool {
    &&& t.configs == s.configs
    &&& t.next_index == s.next_index
    &&& match completion_of(s, ifindex, packet) {
        None => r is None && t == s,
        Some((i, ck)) => {
            let x = s.sessions[i];
            let m = response_in(packet)->0;
            &&& r is Some
            &&& completes(
                s.sessions,
                t.sessions,
                i,
                ifindex,
                m,
                ck,
                now,
            )
            &&& r->0 == waiting_list(
                s.pending,
                ifindex,
                x.peer_public_key@,
            )
            &&& t.pending == other_list(
                s.pending,
                ifindex,
                x.peer_public_key@,
            )
        },
    }
}

/// A packet is the answer `e` leads to, on the side of a peer that took the
/// initiation as `c`: the same state as here, the keys of this side, and the same
/// key given beforehand.
pub open spec fn answers_ours(
    s: WgView,
    ifindex: i32,
    packet: Seq<u8>,
    c: ConsumedView,
    e: Seq<u8>,
) -> bool {
    match response_in(packet) {
        None => false,
        Some(m) => match session_numbered(s.sessions, ifindex, m.receiver_index) {
            None => false,
            Some(i) => {
                let x = s.sessions[i];
                match peer_at(s.configs, ifindex, x.peer_public_key@) {
                    None => false,
                    Some((k, p)) => {
                        let d = s.configs[k];
                        &&& e.len() == 32
                        &&& d.private_key is Some && d.public_key is Some
                        &&& mac1_fits(packet, mac1_key(d.public_key->0))
                        &&& x.pending_state is Some && x.pending_ephemeral_private is Some
                        &&& c.state == x.pending_state->0@
                        &&& c.remote_ephemeral == x25519_public(x.pending_ephemeral_private->0@)
                        &&& c.remote_static == x25519_public(d.private_key->0)
                        &&& response_of(c, psk_of(d.peers[p]), e) matches Some(a) && a.ephemeral
                            == m.ephemeral && a.enc_nothing == m.enc_nothing
                    },
                }
            },
        },
    }
}

/// The chaining key that an answer ends with on the side that made it.
pub open spec fn answered_key(
    s: WgView,
    ifindex: i32,
    packet: Seq<u8>,
    c: ConsumedView,
    e: Seq<u8>,
) -> Seq<u8> {
    let i = session_numbered(s.sessions, ifindex, response_in(packet)->0.receiver_index)->0;
    let (k, p) = peer_at(s.configs, ifindex, s.sessions[i].peer_public_key@)->0;
    response_of(c, psk_of(s.configs[k].peers[p]), e)->0.state.ck
}

/// Completes a handshake that this side started. The session gets its keys,
/// other sessions with the peer go, and the packets that waited for it are
/// handed out to be sent. An answer that the peer made to this side's initiation
/// is taken, and both sides have the same chaining key then.
pub fn handle_handshake_response(st: &mut Wireguard, ifindex: i32, packet: &[u8], now: u64) -> (r:
    Option<Vec<Pending>>)
    requires
        sessions_wf(old(st).sessions@),
    ensures
        sessions_wf(final(st).sessions@),
        completes_with(old(st)@, final(st)@, ifindex, packet@, now, packets_view(r)),
        forall|c: ConsumedView, e: Seq<u8>| #[trigger]
            answers_ours(old(st)@, ifindex, packet@, c, e) ==> (completion_of(
                old(st)@,
                ifindex,
                packet@,
            ) matches Some(done) && done.1 == answered_key(old(st)@, ifindex, packet@, c, e)),
{
    let ghost s0 = st@;
    let msg = match parse_handshake_response(packet) {
        Some(m) => m,
        None => {
            return None;
        },
    };
    assert(response_in(packet@) == Some(msg@));
    let i: usize = match find_session(&st.sessions, ifindex, msg.receiver_index) {
        Some(i) => i,
        None => {
            return None;
        },
    };
    let session = st.sessions[i];
    proof {
        lemma_numbered(s0.sessions, ifindex, msg.receiver_index, 0);
    }
    let k: usize = match find_device(&st.configs, ifindex) {
        Some(k) => k,
        None => {
            return None;
        },
    };
    assert(s0.configs[k as int] == st.configs@[k as int]@);
    let p: usize = match find_peer(&st.configs[k].peers, &session.peer_public_key) {
        Some(p) => p,
        None => {
            return None;
        },
    };
    assert(s0.configs[k as int].peers[p as int] == st.configs@[k as int].peers@[p as int]@);
    let (local_private, local_public) = match (st.configs[k].private_key, st.configs[k].public_key) {
        (Some(a), Some(b)) => (a, b),
        _ => {
            return None;
        },
    };
    let psk: [u8; 32] = preshared_or_zero(&st.configs[k].peers[p]);
    let local_key: [u8; 32] = message_mac1_key(&local_public);
    if !validate_mac1(packet, &local_key) {
        return None;
    }
    let (state, ephemeral_private) = match (
        session.pending_state,
        session.pending_ephemeral_private,
    ) {
        (Some(a), Some(b)) => (a, b),
        _ => {
            return None;
        },
    };
    let consumed = match consume_handshake_response(
        &msg,
        state,
        local_private,
        ephemeral_private,
        psk,
    ) {
        Some(c) => c,
        None => {
            return None;
        },
    };
    let keypair = derive_keypair(&consumed.state.chaining_key, msg.sender_index, true, now);
    let done = Session {
        keypair: Some(keypair),
        pending_state: None,
        pending_ephemeral_private: None,
        created_ms: now,
        ..session
    };
    st.sessions[i] = done;
    assert(st.sessions@ =~= s0.sessions.update(i as int, done));
    assert(session_wf(done));
    settle_sessions(&mut st.sessions, ifindex, &session.peer_public_key, msg.receiver_index);
    let waiting = take_pending_data(&mut st.pending, ifindex, &session.peer_public_key);
    assert(keyed(
        done,
        ifindex,
        s0.sessions[i as int].peer_public_key@,
        msg@.receiver_index,
        consumed.state@.ck,
        msg@.sender_index,
        true,
        now,
    ));
    assert(st.sessions@ == settled(
        s0.sessions.update(i as int, done),
        ifindex,
        s0.sessions[i as int].peer_public_key@,
        msg@.receiver_index,
    ));
    assert(completes(
        s0.sessions,
        st.sessions@,
        i as int,
        ifindex,
        msg@,
        consumed.state@.ck,
        now,
    ));
    Some(waiting)
}

proof fn lemma_numbered(s: Seq<Session>, ifindex: i32, index: u32, i: int)
    requires
        0 <= i <= s.len(),
    ensures
        crate::net::wireguard::sessions::first_from(
            s,
            |x: Session| x.ifindex == ifindex && x.local_index == index,
            i,
        ) matches Some(k) ==> i <= k < s.len() && s[k].ifindex == ifindex && s[k].local_index
            == index,
    decreases s.len() - i,
{
    let p = |x: Session| x.ifindex == ifindex && x.local_index == index;
    if i < s.len() && !p(s[i]) {
        lemma_numbered(s, ifindex, index, i + 1);
    }
}

// ---------------------------------------------------------------------------
// Data.
// ---------------------------------------------------------------------------

/// A session that can send.
pub open spec fn can_send(x: Session) -> bool {
    x.keypair matches Some(k) && k.sending.is_valid && k.sending_counter < REJECT_AFTER_MESSAGES
}

/// A session after it sent one packet.
pub open spec fn after_sending(x: Session) -> Session {
    Session {
        keypair: Some(
            NoiseKeypair {
                sending_counter: (x.keypair->0.sending_counter + 1) as u64,
                ..x.keypair->0
            },
        ),
        ..x
    }
}

/// What encrypting a packet does: see [`encrypt_data_for_peer`].
pub open spec fn sends(
    s: WgView,
    t: WgView,
    ifindex: i32,
    key: Seq<u8>,
    text: Seq<u8>,
    r: Option<Seq<u8>>,
) -> bool {
    &&& t.pending == s.pending
    &&& t.next_index == s.next_index
    &&& match ready_with(s.sessions, ifindex, key) {
        None => r is None && t == s,
        Some(i) => {
            let x = s.sessions[i];
            let k = x.keypair->0;
            if !can_send(x) {
                r is None && t == s
            } else {
                &&& r is Some
                &&& r->0 == data_bytes(
                    DataView {
                        key_idx: k.remote_index,
                        counter: k.sending_counter,
                        payload: sealed(
                            k.sending.key@,
                            k.sending_counter,
                            Seq::empty(),
                            padded_text(text),
                        ),
                    },
                )
                &&& t.sessions == s.sessions.update(i, after_sending(x))
                &&& t.configs == counted(
                    s.configs,
                    ifindex,
                    key,
                    0,
                    text.len() as int,
                )
            }
        },
    }
}

/// The session that `b` finds by the number that `a`'s session with a peer sends
/// to receives with the key that the latter sends with, and has not taken the
/// next counter.
pub open spec fn hears(
    a: Seq<Session>,
    ifindex: i32,
    key: Seq<u8>,
    b: Seq<Session>,
    other: i32,
) -> bool {
    match ready_with(a, ifindex, key) {
        None => false,
        Some(i) => {
            let k = a[i].keypair->0;
            match ready_numbered(b, other, k.remote_index) {
                None => false,
                Some(j) => b[j].keypair->0.receiving.key@ == k.sending.key@ && accepts(
                    window(b[j]),
                    k.sending_counter,
                ),
            }
        },
    }
}

/// Encrypts a packet for a peer. Each packet has its own counter. The bytes are
/// counted. Whoever has the other end of the session can decrypt it, unless it is
/// too long for the cipher.
pub fn encrypt_data_for_peer(
    st: &mut Wireguard,
    ifindex: i32,
    peer_public_key: &[u8; 32],
    plaintext: &[u8],
) -> (r: Option<Vec<u8>>)
    requires
        sessions_wf(old(st).sessions@),
        plaintext@.len() <= usize::MAX - 15,
        cipher_answers(padded_len(plaintext@.len() as int)),
    ensures
        sessions_wf(final(st).sessions@),
        sends(old(st)@, final(st)@, ifindex, peer_public_key@, plaintext@, text_view(r)),
        padded_len(plaintext@.len() as int) <= CIPHER_MAX_LEN ==> (r matches Some(packet)
            ==> forall|b: Seq<Session>, other: i32| #[trigger]
            hears(old(st).sessions@, ifindex, peer_public_key@, b, other) ==> sealed_for(
                b,
                other,
                packet@,
                padded_text(plaintext@),
            )),
{
    let ghost s0 = st@;
    let i: usize = match find_peer_session(&st.sessions, ifindex, peer_public_key) {
        Some(i) => i,
        None => {
            return None;
        },
    };
    let session = st.sessions[i];
    let mut keypair = match session.keypair {
        Some(k) => k,
        None => {
            return None;
        },
    };
    let counter: u64 = match keypair.next_sending_counter() {
        Some(c) => c,
        None => {
            return None;
        },
    };
    let padded = pad_data_plaintext(plaintext);
    let none: Vec<u8> = Vec::new();
    assert(none@ =~= Seq::<u8>::empty());
    let encrypted = aead_encrypt(padded.as_slice(), none.as_slice(), counter, &keypair.sending.key);
    let packet = build_data_packet(keypair.remote_index, counter, encrypted.as_slice());
    proof {
        if padded@.len() <= CIPHER_MAX_LEN {
            law_data_packets_read_back(
                DataView { key_idx: keypair.remote_index, counter, payload: encrypted@ },
            );
        }
    }
    let next = Session { keypair: Some(keypair), ..session };
    assert(session_wf(session));
    st.sessions[i] = next;
    assert(st.sessions@ =~= s0.sessions.update(i as int, after_sending(session)));
    add_peer_bytes(&mut st.configs, ifindex, peer_public_key, 0, plaintext.len());
    Some(packet)
}

/// What is in a data packet for a session.
pub open spec fn data_for(x: Session, d: DataView) -> Option<Seq<u8>> {
    opened(x.keypair->0.receiving.key@, d.counter, Seq::empty(), d.payload)
}

/// The window of a session.
pub open spec fn window(x: Session) -> NoiseReplayCounter {
    x.keypair->0.receiving_counter
}

/// Session `y` is session `x` but for its window.
pub open spec fn same_but_window(x: Session, y: Session) -> bool {
    y.keypair is Some && y == (Session {
        keypair: Some(
            NoiseKeypair { receiving_counter: window(y), ..x.keypair->0 },
        ),
        ..x
    })
}

/// What decrypting a packet does: see [`decrypt_data_packet`].
pub open spec fn receives(
    s: WgView,
    t: WgView,
    ifindex: i32,
    packet: Seq<u8>,
    r: Option<(Seq<u8>, Seq<u8>)>,
) -> bool {
    &&& t.pending == s.pending
    &&& t.next_index == s.next_index
    &&& match data_in(packet) {
        None => r is None && t == s,
        Some(d) => match ready_numbered(s.sessions, ifindex, d.key_idx) {
            None => r is None && t == s,
            Some(i) => {
                let x = s.sessions[i];
                match data_for(x, d) {
                    None => r is None && t == s,
                    Some(text) => if accepts(window(x), d.counter) {
                        let y = t.sessions[i];
                        &&& t.sessions == s.sessions.update(i, y)
                        &&& same_but_window(x, y)
                        &&& moved(window(x), window(y), d.counter + 1)
                        &&& r matches Some(o) && o.0 == x.peer_public_key@ && o.1 == text
                        &&& t.configs == counted(
                            s.configs,
                            ifindex,
                            x.peer_public_key@,
                            text.len() as int,
                            0,
                        )
                    } else {
                        r is None && t == s
                    },
                }
            },
        },
    }
}

pub open spec fn received_view(r: Option<([u8; 32], Vec<u8>)>) -> Option<(Seq<u8>, Seq<u8>)> {
    match r {
        Some(o) => Some((o.0@, o.1@)),
        None => None,
    }
}

/// A packet holds text `t`, encrypted with the key that the session it names
/// receives with, and has a new counter.
pub open spec fn sealed_for(s: Seq<Session>, ifindex: i32, packet: Seq<u8>, t: Seq<u8>) -> bool {
    match data_in(packet) {
        None => false,
        Some(d) => match ready_numbered(s, ifindex, d.key_idx) {
            None => false,
            Some(i) => t.len() + 16 == d.payload.len() && sealed(
                s[i].keypair->0.receiving.key@,
                d.counter,
                Seq::empty(),
                t,
            ) == d.payload && accepts(window(s[i]), d.counter),
        },
    }
}

/// Decrypts a data packet. It is taken only if it was encrypted for the session
/// that it names, and its counter is new; the bytes are counted. A packet that
/// was encrypted with the session's key is taken.
pub fn decrypt_data_packet(st: &mut Wireguard, ifindex: i32, packet: &[u8]) -> (r: Option<
    ([u8; 32], Vec<u8>),
>)
    requires
        sessions_wf(old(st).sessions@),
        data_in(packet@) matches Some(d) ==> cipher_answers(d.payload.len() - 16),
    ensures
        sessions_wf(final(st).sessions@),
        receives(old(st)@, final(st)@, ifindex, packet@, received_view(r)),
        forall|t: Seq<u8>| #[trigger]
            sealed_for(old(st).sessions@, ifindex, packet@, t) ==> (r matches Some(o) && o.1@
                == t),
{
    let ghost s0 = st@;
    let data = match parse_data_packet(packet) {
        Some(d) => d,
        None => {
            return None;
        },
    };
    let i: usize = match find_ready_session(&st.sessions, ifindex, data.key_idx) {
        Some(i) => i,
        None => {
            return None;
        },
    };
    let session = st.sessions[i];
    assert(session_wf(session));
    let mut keypair = match session.keypair {
        Some(k) => k,
        None => {
            return None;
        },
    };
    let none: Vec<u8> = Vec::new();
    assert(none@ =~= Seq::<u8>::empty());
    let plaintext = match aead_decrypt(
        data.encrypted_payload.as_slice(),
        none.as_slice(),
        data.counter,
        &keypair.receiving.key,
    ) {
        Some(t) => t,
        None => {
            return None;
        },
    };
    if !keypair.receiving_counter.validate(data.counter) {
        return None;
    }
    let next = Session { keypair: Some(keypair), ..session };
    st.sessions[i] = next;
    assert(st.sessions@ =~= s0.sessions.update(i as int, next));
    let peer_key: [u8; 32] = session.peer_public_key;
    add_peer_bytes(&mut st.configs, ifindex, &peer_key, plaintext.len(), 0);
    Some((peer_key, plaintext))
}

// ---------------------------------------------------------------------------
// Laws.
// ---------------------------------------------------------------------------

/// Two sides that end a handshake with the same chaining key hear each other: what
/// the one encrypts, the other can decrypt, whichever of them started.
pub proof fn law_fresh_sessions_hear_each_other(
    a: Seq<Session>,
    ifindex: i32,
    key: Seq<u8>,
    i: int,
    b: Seq<Session>,
    other: i32,
    own: Seq<u8>,
    j: int,
    ck: Seq<u8>,
    initiator: bool,
    now: u64,
    later: u64,
)
    requires
        ready_with(a, ifindex, key) == Some(i),
        ready_numbered(b, other, b[j].local_index) == Some(j),
        keyed(a[i], ifindex, key, a[i].local_index, ck, b[j].local_index, initiator, now),
        keyed(b[j], other, own, b[j].local_index, ck, a[i].local_index, !initiator, later),
    ensures
        hears(a, ifindex, key, b, other),
{
    law_keys_mirror_each_other(ck, initiator);
    law_new_packets_are_taken(window(b[j]), 0);
}

proof fn lemma_same_place(s: Seq<Session>, p: spec_fn(Session) -> bool, k: int, y: Session, i: int)
    requires
        0 <= k < s.len(),
        p(s[k]) == p(y),
        0 <= i <= s.len(),
    ensures
        first_from(s.update(k, y), p, i) == first_from(s, p, i),
    decreases s.len() - i,
{
    if i < s.len() {
        lemma_same_place(s, p, k, y, i + 1);
    }
}

proof fn lemma_first(s: Seq<Session>, p: spec_fn(Session) -> bool, i: int)
    requires
        0 <= i <= s.len(),
    ensures
        first_from(s, p, i) matches Some(j) ==> i <= j < s.len() && p(s[j]),
    decreases s.len() - i,
{
    if i < s.len() {
        lemma_first(s, p, i + 1);
    }
}

/// What receiving a packet comes to at the session that the packet names.
proof fn lemma_received(
    s: WgView,
    t: WgView,
    ifindex: i32,
    packet: Seq<u8>,
    r: Option<(Seq<u8>, Seq<u8>)>,
)
    requires
        receives(s, t, ifindex, packet, r),
        r is Some,
    ensures
        ({
            let d = data_in(packet)->0;
            let i = ready_numbered(s.sessions, ifindex, d.key_idx)->0;
            &&& data_in(packet) is Some
            &&& ready_numbered(s.sessions, ifindex, d.key_idx) is Some
            &&& t.sessions == s.sessions.update(i, t.sessions[i])
            &&& same_but_window(s.sessions[i], t.sessions[i])
            &&& moved(window(s.sessions[i]), window(t.sessions[i]), d.counter + 1)
            &&& accepts(window(s.sessions[i]), d.counter)
        }),
{
}

/// A packet that the window of its session refuses gives nothing and changes
/// nothing.
proof fn lemma_not_received(
    s: WgView,
    t: WgView,
    ifindex: i32,
    packet: Seq<u8>,
    r: Option<(Seq<u8>, Seq<u8>)>,
    i: int,
)
    requires
        receives(s, t, ifindex, packet, r),
        data_in(packet) is Some,
        ready_numbered(s.sessions, ifindex, data_in(packet)->0.key_idx) == Some(i),
        !accepts(window(s.sessions[i]), data_in(packet)->0.counter),
    ensures
        r is None,
        t == s,
{
}

/// Once a session has taken a packet, it is still the one that the packet names,
/// and refuses it.
proof fn lemma_taken_is_refused(s: Seq<Session>, t: Seq<Session>, ifindex: i32, d: DataView, i: int)
    requires
        ready_numbered(s, ifindex, d.key_idx) == Some(i),
        t == s.update(i, t[i]),
        same_but_window(s[i], t[i]),
        moved(window(s[i]), window(t[i]), d.counter + 1),
        accepts(window(s[i]), d.counter),
    ensures
        ready_numbered(t, ifindex, d.key_idx) == Some(i),
        !accepts(window(t[i]), d.counter),
{
    let p = |x: Session|
        x.ifindex == ifindex && x.local_index == d.key_idx && x.keypair is Some;
    lemma_first(s, p, 0);
    lemma_same_place(s, p, i, t[i], 0);
    law_no_packet_is_taken_twice(window(s[i]), window(t[i]), d.counter);
}

/// A packet whose text was handed out is not handed out again: the second time it
/// is dropped, and nothing changes, the counts of bytes included.
pub proof fn law_packets_are_received_once(
    s: WgView,
    t: WgView,
    u: WgView,
    ifindex: i32,
    packet: Seq<u8>,
    first: Option<(Seq<u8>, Seq<u8>)>,
    second: Option<(Seq<u8>, Seq<u8>)>,
)
    requires
        receives(s, t, ifindex, packet, first),
        first is Some,
        receives(t, u, ifindex, packet, second),
    ensures
        second is None,
        u == t,
{
    let d = data_in(packet)->0;
    let i = ready_numbered(s.sessions, ifindex, d.key_idx)->0;
    lemma_received(s, t, ifindex, packet, first);
    lemma_taken_is_refused(s.sessions, t.sessions, ifindex, d, i);
    lemma_not_received(t, u, ifindex, packet, second, i);
}

/// A packet that fails authentication gives nothing and changes nothing; so a
/// genuine packet with the same counter is received afterwards as before.
pub proof fn law_forged_packets_change_nothing(
    s: WgView,
    t: WgView,
    ifindex: i32,
    packet: Seq<u8>,
    r: Option<(Seq<u8>, Seq<u8>)>,
)
    requires
        receives(s, t, ifindex, packet, r),
        data_in(packet) matches Some(d) ==> (ready_numbered(s.sessions, ifindex, d.key_idx)
            matches Some(i) ==> data_for(s.sessions[i], d) is None),
    ensures
        r is None,
        t == s,
{
}

proof fn lemma_sender(d: DeviceView, m: InitiationView, i: int)
    requires
        0 <= i <= d.peers.len(),
    ensures
        sender_from(d, m, i) matches Some(p) ==> i <= p < d.peers.len() && taken_from(d, p, m)
            is Some,
    decreases d.peers.len() - i,
{
    if i < d.peers.len() {
        lemma_sender(d, m, i + 1);
    }
}

proof fn lemma_place(configs: Seq<DeviceView>, ifindex: i32, i: int)
    requires
        0 <= i <= configs.len(),
    ensures
        device_place_from(configs, ifindex, i) matches Some(k) ==> i <= k < configs.len(),
    decreases configs.len() - i,
{
    if i < configs.len() {
        lemma_place(configs, ifindex, i + 1);
    }
}

/// A packet that started a handshake with a peer does not start another with it.
pub proof fn law_initiations_are_taken_once(
    s: WgView,
    t: WgView,
    ifindex: i32,
    packet: Seq<u8>,
    ephemeral: Seq<u8>,
    now: u64,
    r: Option<Seq<u8>>,
)
    requires
        answers(s, t, ifindex, packet, ephemeral, now, r),
        initiator_of(s, ifindex, packet) is Some,
    ensures
        initiator_of(t, ifindex, packet) != initiator_of(s, ifindex, packet),
{
    let (k, p) = initiator_of(s, ifindex, packet)->0;
    let m = initiation_in(packet)->0;
    lemma_place(s.configs, ifindex, 0);
    lemma_sender(s.configs[k], m, 0);
    lemma_sender(t.configs[k], m, 0);
    let time = taken_from(s.configs[k], p, m)->0.timestamp;
    assert(t.configs[k].peers[p].latest == time);
    assert(!before(time, time));
}

} // verus!
