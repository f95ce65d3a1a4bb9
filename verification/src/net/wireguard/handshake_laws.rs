//! How sessions come about, said of keys, hashes and the bytes of the messages.

use vstd::prelude::*;
use crate::bytes::{be32_bytes, be64_bytes, le64_bytes};
use crate::net::wireguard::config::DeviceView;
use crate::net::wireguard::handshakes::{
    after_sending, answers, can_send, completes_with, keyed, mac1_key, psk_of, sender_from, starts,
    taken_from,
};
use crate::net::wireguard::messages::{
    before, cookie_in, initiation_in, mac1_fits, response_in, tai64n, with_mac1, InitiationView,
    ResponseView,
};
use crate::net::wireguard::noise::{
    completed_of, consumed_of, hmac, initial_state, initiation_of, kdf1, kdf2, kdf3, key_block,
    opened, public_of, response_of, sealed, shared_of, xored, ConsumedView, StateView,
};
use crate::net::wireguard::primitives::{
    blake2s_256, blake2s_mac_128, chacha_opened, chacha_sealed, x25519_public, x25519_shared,
};
use crate::net::wireguard::replay::{
    accepts, law_counters_are_taken_once, stands_for, NoiseReplayCounter,
};
use crate::net::wireguard::sessions::{
    first_from, keep, other_list, replaced, session_numbered, settled, stays, waiting_list,
    waits_for, PendingView, Session,
};
use crate::net::wireguard::state::{peer_at, WgView};
use crate::net::wireguard::tunnel_laws::{
    law_kinds_of_messages, law_parts_of_handshakes, law_tunnels_and_peers_are_found, peer_is,
    tunnel_is,
};
use crate::text::txt;

verus! {

// ---------------------------------------------------------------------------
// Hashes, keys and encrypted texts.
// ---------------------------------------------------------------------------

/// Every byte is zero.
pub open spec fn blank(s: Seq<u8>) -> bool {
    forall|i: int| 0 <= i < s.len() ==> s[i] == 0
}

/// A key in a block of 64 bytes, with `pad` mixed into each.
pub open spec fn block(key: Seq<u8>, pad: u8) -> Seq<u8> {
    Seq::new(
        64,
        |i: int|
            if i < key.len() {
                key[i] ^ pad
            } else {
                pad
            },
    )
}

/// A keyed hash is the hash of an outer block and of the hash of an inner block and the
/// text. A key that does not fit in a block counts as its hash.
pub proof fn law_keyed_hashes(key: Seq<u8>, data: Seq<u8>)
    ensures
        key.len() <= 64 ==> hmac(key, data) == blake2s_256(
            block(key, 0x5c) + blake2s_256(block(key, 0x36) + data),
        ),
        key.len() > 64 && blake2s_256(key).len() <= 64 ==> hmac(key, data) == hmac(
            blake2s_256(key),
            data,
        ),
{
    assert(0u8 ^ 0x5c == 0x5c && 0u8 ^ 0x36 == 0x36) by (bit_vector);
    if key.len() <= 64 {
        assert(xored(key_block(key), 0x5c) =~= block(key, 0x5c));
        assert(xored(key_block(key), 0x36) =~= block(key, 0x36));
    } else if blake2s_256(key).len() <= 64 {
        assert(key_block(key) =~= key_block(blake2s_256(key)));
    }
}

/// What is encrypted has its tag at the end, and is decrypted with the tag split off.
pub proof fn law_encrypted_texts(key: Seq<u8>, n: u64, ad: Seq<u8>, text: Seq<u8>)
    requires
        text.len() <= 274_877_906_816,
    ensures
        ({
            let nonce = seq![0u8, 0u8, 0u8, 0u8] + le64_bytes(n);
            let s = chacha_sealed(key, nonce, ad, text);
            let k = text.len() - 16;
            &&& sealed(key, n, ad, text) == s.0 + s.1
            &&& text.len() < 16 ==> opened(key, n, ad, text) is None
            &&& text.len() >= 16 ==> opened(key, n, ad, text) == chacha_opened(
                key,
                nonce,
                ad,
                text.subrange(0, k),
                text.subrange(k, text.len() as int),
            )
        }),
{
    if text.len() >= 16 {
        let k = text.len() - 16;
        assert(text.take(k) =~= text.subrange(0, k));
        assert(text.skip(k) =~= text.subrange(k, text.len() as int));
    }
}

/// A private key of zeros has no public key, and a secret of zeros is no secret.
pub proof fn law_empty_keys(private: Seq<u8>, public: Seq<u8>)
    ensures
        blank(private) ==> public_of(private) is None,
        !blank(private) ==> public_of(private) == Some(x25519_public(private)),
        blank(x25519_shared(private, public)) ==> shared_of(private, public) is None,
        !blank(x25519_shared(private, public)) ==> shared_of(private, public) == Some(
            x25519_shared(private, public),
        ),
{
}

// ---------------------------------------------------------------------------
// The state of a handshake.
// ---------------------------------------------------------------------------

/// A handshake starts with the name of the protocol, then the identifier and the public
/// key of who answers are hashed.
pub proof fn law_start_of_a_handshake(responder: Seq<u8>)
    ensures
        initial_state(responder).ck == blake2s_256(txt("Noise_IKpsk2_25519_ChaChaPoly_BLAKE2s\0")),
        initial_state(responder).h == blake2s_256(
            blake2s_256(
                blake2s_256(txt("Noise_IKpsk2_25519_ChaChaPoly_BLAKE2s\0")) + txt(
                    "WireGuard v1 zx2c4 Jason@zx2c4.com\0",
                ),
            ) + responder,
        ),
{
}

/// The first message: the public key of the handshake is said and mixed in; the secret of
/// that key and the remote one encrypts the sender's public key; the secret of the two
/// peers encrypts the time. Each encrypted text goes with the hash of what came before it.
pub proof fn law_initiations(
    local: Seq<u8>,
    remote: Seq<u8>,
    secret: Seq<u8>,
    private: Seq<u8>,
    time: Seq<u8>,
)
    ensures
        ({
            let ck0 = blake2s_256(txt("Noise_IKpsk2_25519_ChaChaPoly_BLAKE2s\0"));
            let h0 = blake2s_256(
                blake2s_256(ck0 + txt("WireGuard v1 zx2c4 Jason@zx2c4.com\0")) + remote,
            );
            let e = x25519_public(private);
            let es = x25519_shared(private, remote);
            let h1 = blake2s_256(h0 + e);
            let ck1 = kdf1(ck0, e);
            let a = sealed(kdf2(ck1, es), 0, h1, local);
            let h2 = blake2s_256(h1 + a);
            let ck2 = kdf1(ck1, es);
            let b = sealed(kdf2(ck2, secret), 0, h2, time);
            let made = initiation_of(local, remote, secret, private, time);
            &&& made is Some <==> !blank(private) && !blank(es) && !blank(secret)
            &&& made matches Some(i) ==> {
                &&& i.ephemeral == e && i.enc_static == a && i.enc_timestamp == b
                &&& i.state.ck == kdf1(ck2, secret) && i.state.h == blake2s_256(h2 + b)
            }
        }),
{
}

/// The first message is taken only from the peer it is expected of, and only with a time
/// that is later than the last one. What is taken is what the message says.
pub proof fn law_taken_initiations(
    m: InitiationView,
    private: Seq<u8>,
    public: Seq<u8>,
    expected: Seq<u8>,
    secret: Seq<u8>,
    latest: Seq<u8>,
)
    ensures
        ({
            let ck0 = blake2s_256(txt("Noise_IKpsk2_25519_ChaChaPoly_BLAKE2s\0"));
            let h0 = blake2s_256(
                blake2s_256(ck0 + txt("WireGuard v1 zx2c4 Jason@zx2c4.com\0")) + public,
            );
            let es = x25519_shared(private, m.ephemeral);
            let h1 = blake2s_256(h0 + m.ephemeral);
            let ck1 = kdf1(ck0, m.ephemeral);
            let sender = opened(kdf2(ck1, es), 0, h1, m.enc_static);
            let h2 = blake2s_256(h1 + m.enc_static);
            let ck2 = kdf1(ck1, es);
            let time = opened(kdf2(ck2, secret), 0, h2, m.enc_timestamp);
            let r = consumed_of(m, private, public, expected, secret, latest);
            &&& r is Some <==> !blank(es) && sender == Some(expected) && !blank(secret) && time
                is Some && before(latest, time->0)
            &&& r matches Some(c) ==> {
                &&& c.remote_static == expected && c.remote_ephemeral == m.ephemeral
                &&& c.remote_index == m.sender_index && Some(c.timestamp) == time
                &&& c.state.ck == kdf1(ck2, secret) && c.state.h == blake2s_256(
                    h2 + m.enc_timestamp,
                )
            }
        }),
{
}

/// The second message: a fresh public key is said and mixed in, then the secrets of it
/// with the two keys of the other side, then the key given beforehand; and nothing is
/// encrypted.
pub proof fn law_responses(c: ConsumedView, psk: Seq<u8>, private: Seq<u8>)
    ensures
        ({
            let e = x25519_public(private);
            let ee = x25519_shared(private, c.remote_ephemeral);
            let se = x25519_shared(private, c.remote_static);
            let ck = kdf1(kdf1(kdf1(c.state.ck, e), ee), se);
            let h = blake2s_256(blake2s_256(c.state.h + e) + kdf2(ck, psk));
            let nothing = sealed(kdf3(ck, psk), 0, h, Seq::empty());
            let made = response_of(c, psk, private);
            &&& made is Some <==> !blank(private) && !blank(ee) && !blank(se)
            &&& made matches Some(a) ==> {
                &&& a.ephemeral == e && a.enc_nothing == nothing
                &&& a.state.ck == kdf1(ck, psk) && a.state.h == blake2s_256(h + nothing)
            }
        }),
{
}

/// The second message is taken if what it encrypts is nothing; the state is then the one
/// of the side that made it.
pub proof fn law_taken_responses(
    m: ResponseView,
    s: StateView,
    private: Seq<u8>,
    ephemeral: Seq<u8>,
    psk: Seq<u8>,
)
    ensures
        ({
            let ee = x25519_shared(ephemeral, m.ephemeral);
            let se = x25519_shared(private, m.ephemeral);
            let ck = kdf1(kdf1(kdf1(s.ck, m.ephemeral), ee), se);
            let h = blake2s_256(blake2s_256(s.h + m.ephemeral) + kdf2(ck, psk));
            let r = completed_of(m, s, private, ephemeral, psk);
            &&& r is Some <==> !blank(ee) && !blank(se) && (opened(
                kdf3(ck, psk),
                0,
                h,
                m.enc_nothing,
            ) matches Some(t) && t.len() == 0)
            &&& r matches Some(x) ==> x.ck == kdf1(ck, psk) && x.h == blake2s_256(
                h + m.enc_nothing,
            )
        }),
{
}

// ---------------------------------------------------------------------------
// Authentication and times.
// ---------------------------------------------------------------------------

/// A handshake message is authenticated by a keyed hash of all that is in front of the
/// hash; the key comes of the public key of who gets the message. No other message is.
pub proof fn law_authentication(p: Seq<u8>, public: Seq<u8>)
    ensures
        ({
            let key = blake2s_256(txt("mac1----") + public);
            let number = |n: u8|
                p.len() >= 4 && p[0] == n && p[1] == 0 && p[2] == 0 && p[3] == 0;
            let first = number(1) && p.len() == 148;
            let second = number(2) && p.len() == 92;
            &&& mac1_key(public) == key
            &&& first ==> (mac1_fits(p, key) <==> p.subrange(116, 132) == blake2s_mac_128(
                key,
                p.subrange(0, 116),
            ))
            &&& second ==> (mac1_fits(p, key) <==> p.subrange(60, 76) == blake2s_mac_128(
                key,
                p.subrange(0, 60),
            ))
            &&& !first && !second ==> !mac1_fits(p, key)
        }),
{
    if p.len() == 148 {
        assert(p.take(116) =~= p.subrange(0, 116));
    } else if p.len() == 92 {
        assert(p.take(60) =~= p.subrange(0, 60));
    }
}

/// Authenticating a message fills in the hash and clears the field behind it, and touches
/// nothing else.
pub proof fn law_authenticated_messages(p: Seq<u8>, a: int, mac: Seq<u8>, i: int)
    requires
        0 <= a,
        a + 32 <= p.len(),
        mac.len() == 16,
        0 <= i < p.len(),
    ensures
        with_mac1(p, a, mac).len() == p.len(),
        with_mac1(p, a, mac).subrange(a, a + 16) == mac,
        a + 16 <= i < a + 32 ==> with_mac1(p, a, mac)[i] == 0,
        i < a || a + 32 <= i ==> with_mac1(p, a, mac)[i] == p[i],
{
    assert(with_mac1(p, a, mac).subrange(a, a + 16) =~= mac);
}

/// The parts of a cookie message are at fixed places.
pub proof fn law_parts_of_cookies(p: Seq<u8>)
    requires
        p.len() == 64,
        p[0] == 3 && p[1] == 0 && p[2] == 0 && p[3] == 0,
    ensures
        cookie_in(p) matches Some(m) && m.receiver_index == p[4] + 256 * p[5] + 65536 * p[6]
            + 16777216 * p[7] && m.nonce == p.subrange(8, 32) && m.enc_cookie == p.subrange(32, 64),
{
}

/// A time is eight bytes of seconds, counted from a fixed origin, and four of nanoseconds,
/// the highest byte first. What is before the epoch counts as the epoch.
pub proof fn law_times(sec: i64, nsec: i64)
    ensures
        tai64n(sec, nsec).len() == 12,
        sec >= 0 && 0 <= nsec < 1_000_000_000 ==> {
            &&& tai64n(sec, nsec).subrange(0, 8) == be64_bytes(
                (4_611_686_018_427_387_914 + sec) as u64,
            )
            &&& tai64n(sec, nsec).subrange(8, 12) == be32_bytes(nsec as u32)
        },
        sec < 0 ==> tai64n(sec, nsec) == tai64n(0, nsec),
        nsec < 0 ==> tai64n(sec, nsec) == tai64n(sec, 0),
{
    let b = tai64n(sec, nsec);
    if sec >= 0 && 0 <= nsec < 1_000_000_000 {
        assert(b.subrange(0, 8) =~= be64_bytes((4_611_686_018_427_387_914 + sec) as u64));
        assert(b.subrange(8, 12) =~= be32_bytes(nsec as u32));
    }
}

/// A time is later if, where the two first differ, its byte is greater; no time is later
/// than itself.
pub proof fn law_later_times(a: Seq<u8>, b: Seq<u8>, i: int)
    requires
        a.len() == b.len(),
        0 <= i < a.len(),
        a.subrange(0, i) == b.subrange(0, i),
    ensures
        a[i] < b[i] ==> before(a, b),
        a[i] > b[i] ==> !before(a, b),
        !before(a, a),
{
    assert(a.take(i) =~= a.subrange(0, i));
    assert(b.take(i) =~= b.subrange(0, i));
    if a[i] > b[i] && before(a, b) {
        let j = choose|j: int|
            0 <= j < a.len() && j < b.len() && a.take(j) == b.take(j) && #[trigger] a[j] < b[j];
        assert(a.take(j) == b.take(j) && a[j] < b[j]);
        if j < i {
            assert(a.take(i)[j] == a[j] && b.take(i)[j] == b[j]);
        } else if i < j {
            assert(a.take(j)[i] == a[i] && b.take(j)[i] == b[i]);
        }
    }
}

/// Of the counters that a session has not taken, it takes those that are below the limit
/// and at most 8128 behind the greatest one.
pub proof fn law_counters(s: NoiseReplayCounter, taken: Set<u64>, c: u64)
    requires
        stands_for(s, taken),
        s.counter > 0,
    ensures
        accepts(s, c) <==> c < 0xffff_ffff_ffff_e03e && !taken.contains(c) && c + 8128 >= s.counter
            - 1,
{
    law_counters_are_taken_once(s, taken, c, s);
}

/// A session can send up to the limit, and counts what it sends.
pub proof fn law_sending_counters(x: Session)
    requires
        x.keypair is Some,
    ensures
        can_send(x) <==> x.keypair->0.sending.is_valid && x.keypair->0.sending_counter
            < 0xffff_ffff_ffff_e03e,
        can_send(x) ==> {
            let y = after_sending(x);
            &&& y.keypair is Some && y.keypair->0.sending_counter == x.keypair->0.sending_counter
                + 1
            &&& y.keypair->0.sending == x.keypair->0.sending && y.keypair->0.receiving
                == x.keypair->0.receiving && y.keypair->0.remote_index
                == x.keypair->0.remote_index
            &&& y.local_index == x.local_index && y.ifindex == x.ifindex && y.peer_public_key
                == x.peer_public_key
        },
{
}

// ---------------------------------------------------------------------------
// Sessions that are kept, and packets that wait.
// ---------------------------------------------------------------------------

proof fn lemma_kept<A>(s: Seq<A>, p: spec_fn(A) -> bool, x: A)
    ensures
        keep(s, p).contains(x) <==> s.contains(x) && p(x),
        keep(s, p).len() <= s.len(),
    decreases s.len(),
{
    if s.len() > 0 {
        let t = s.drop_last();
        lemma_kept(t, p, x);
        assert(s =~= t.push(s.last()));
        let k = keep(t, p);
        if s.contains(x) {
            let i = s.index_of(x);
            if i < t.len() {
                assert(t[i] == x);
            }
        }
        if t.contains(x) {
            let i = t.index_of(x);
            assert(s[i] == x);
        }
        assert(s[s.len() - 1] == s.last());
        if p(s.last()) {
            let q = k.push(s.last());
            assert(q[k.len() as int] == s.last());
            if k.contains(x) {
                let i = k.index_of(x);
                assert(q[i] == x);
            }
            if q.contains(x) {
                let i = q.index_of(x);
                if i < k.len() {
                    assert(k[i] == x);
                }
            }
        }
    }
}

/// A stored session is the last one. It takes the place of those with the same peer of
/// the same tunnel: of all of them if it has keys, else of those with its number.
pub proof fn law_stored_sessions(s: Seq<Session>, new: Session, x: Session)
    ensures
        replaced(s, new).len() > 0,
        replaced(s, new).last() == new,
        x != new ==> (replaced(s, new).contains(x) <==> s.contains(x) && !(x.ifindex == new.ifindex
            && x.peer_public_key@ == new.peer_public_key@ && (new.keypair is Some || x.local_index
            == new.local_index))),
{
    let k = keep(s, |old: Session| stays(old, new));
    lemma_kept(s, |old: Session| stays(old, new), x);
    let r = replaced(s, new);
    assert(r == k.push(new));
    if k.contains(x) {
        let i = k.index_of(x);
        assert(r[i] == x);
    }
    if x != new && r.contains(x) {
        let i = r.index_of(x);
        assert(k[i] == x);
    }
}

/// Once a handshake is completed, the other sessions with that peer are gone and all
/// others are left.
pub proof fn law_settled_sessions(
    s: Seq<Session>,
    ifindex: i32,
    key: Seq<u8>,
    index: u32,
    y: Session,
)
    ensures
        settled(s, ifindex, key, index).contains(y) <==> s.contains(y) && !(y.ifindex == ifindex
            && y.peer_public_key@ == key && y.local_index != index),
{
    assert forall|p: spec_fn(Session) -> bool| #[trigger]
        keep(s, p).contains(y) <==> s.contains(y) && p(y) by {
        lemma_kept(s, p, y);
    }
}

/// The packets that wait are told apart by their tunnel and peer.
pub proof fn law_waiting_packets_are_sorted(
    q: Seq<PendingView>,
    ifindex: i32,
    key: Seq<u8>,
    x: PendingView,
)
    ensures
        waiting_list(q, ifindex, key).contains(x) <==> q.contains(x) && x.ifindex == ifindex
            && x.peer == key,
        other_list(q, ifindex, key).contains(x) <==> q.contains(x) && !(x.ifindex == ifindex
            && x.peer == key),
{
    lemma_kept(
        q,
        |x: PendingView| waits_for(x, ifindex, key),
        x,
    );
    lemma_kept(
        q,
        |x: PendingView| !waits_for(x, ifindex, key),
        x,
    );
}

// ---------------------------------------------------------------------------
// Handshakes as a whole.
// ---------------------------------------------------------------------------

/// Message `b` ends with the hash that authenticates it for the owner of a public key, at
/// `a`, and sixteen zeros.
pub open spec fn authentic(b: Seq<u8>, a: int, public: Seq<u8>) -> bool {
    &&& b.len() == a + 32
    &&& b.subrange(a, a + 16) == blake2s_mac_128(
        blake2s_256(txt("mac1----") + public),
        b.subrange(0, a),
    )
    &&& forall|i: int| a + 16 <= i < a + 32 ==> b[i] == 0
}

/// The number at a place, the lowest byte first.
pub open spec fn number_at(b: Seq<u8>, i: int) -> int {
    b[i] + 256 * b[i + 1] + 65536 * b[i + 2] + 16777216 * b[i + 3]
}

/// Session `x` waits for the answer of a peer.
pub open spec fn waits_for_answer(
    x: Session,
    ifindex: i32,
    key: Seq<u8>,
    e: Seq<u8>,
    now: u64,
) -> bool {
    &&& x.ifindex == ifindex && x.peer_public_key@ == key && x.created_ms == now
    &&& x.keypair is None
    &&& x.pending_ephemeral_private matches Some(k) && k@ == e
    &&& x.pending_state is Some
}

/// Session `x` sends with one key and receives with another, and has done neither yet.
pub open spec fn has_keys(
    x: Session,
    ifindex: i32,
    key: Seq<u8>,
    sends: Seq<u8>,
    receives: Seq<u8>,
    remote: int,
    now: u64,
) -> bool {
    &&& x.ifindex == ifindex && x.peer_public_key@ == key && x.created_ms == now
    &&& x.pending_state is None && x.pending_ephemeral_private is None
    &&& x.keypair matches Some(k) && k.sending.key@ == sends && k.receiving.key@ == receives
        && k.remote_index == remote && k.sending_counter == 0 && k.receiving_counter.counter == 0
        && k.sending.is_valid && k.receiving.is_valid
}

/// A handshake with a peer is started by a message to it, under a number that is not zero,
/// and a session waits for the answer. Without keys nothing is started.
pub proof fn law_handshakes_are_started(
    s: WgView,
    t: WgView,
    ifindex: i32,
    key: Seq<u8>,
    e: Seq<u8>,
    time: Seq<u8>,
    now: u64,
    r: Option<Seq<u8>>,
    d: int,
    p: int,
)
    requires
        starts(s, t, ifindex, key, e, time, now, r),
        tunnel_is(s.configs, ifindex, d),
        peer_is(s.configs[d].peers, key, p),
    ensures
        ({
            let local = s.configs[d].public_key;
            let secret = s.configs[d].peers[p].shared;
            let x = t.sessions.last();
            &&& t.configs == s.configs && t.pending == s.pending
            &&& local is None || secret is None ==> r is None && t == s
            &&& local is Some && secret is Some && !blank(e) && !blank(x25519_shared(e, key))
                && !blank(secret->0) ==> {
                &&& r is Some && authentic(r->0, 116, key)
                &&& number_at(r->0, 0) == 1 && number_at(r->0, 4) == x.local_index
                    && x.local_index != 0
                &&& r->0.subrange(8, 40) == x25519_public(e)
                &&& initiation_of(local->0, key, secret->0, e, time) matches Some(i)
                    && r->0.subrange(40, 88) == i.enc_static && r->0.subrange(88, 116)
                    == i.enc_timestamp && x.pending_state->0@ == i.state
                &&& t.sessions.len() > 0 && waits_for_answer(x, ifindex, key, e, now)
            }
        }),
{
    law_tunnels_and_peers_are_found(s.configs, ifindex, s.configs[d].peers, key, d, p);
    let local = s.configs[d].public_key;
    let secret = s.configs[d].peers[p].shared;
    assert(peer_at(s.configs, ifindex, key) == Some((d, p)));
    if local is Some && secret is Some && !blank(e) && !blank(x25519_shared(e, key)) && !blank(
        secret->0,
    ) {
        law_initiations(local->0, key, secret->0, e, time);
        law_authentication(r->0, key);
        law_parts_of_handshakes(r->0);
        law_kinds_of_messages(r->0);
        law_stored_sessions(s.sessions, t.sessions.last(), t.sessions.last());
        let m = initiation_in(r->0)->0;
        assert forall|i: int| 132 <= i < 148 implies r->0[i] == 0 by {
            assert(m.mac2[i - 132] == r->0[i]);
        }
    }
}

proof fn lemma_first_sender(d: DeviceView, m: InitiationView, p: int, i: int)
    requires
        0 <= i <= p < d.peers.len(),
        taken_from(d, p, m) is Some,
        forall|q: int| 0 <= q < p ==> #[trigger] taken_from(d, q, m) is None,
    ensures
        sender_from(d, m, i) == Some(p),
    decreases p - i,
{
    if i < p {
        assert(taken_from(d, i, m) is None);
        lemma_first_sender(d, m, p, i + 1);
    }
}

/// An authentic first message is taken from the first peer it fits. Its time becomes the
/// last one seen of that peer, the answer goes to the number that the message names, and
/// the new session sends with the second of the keys and receives with the first.
pub proof fn law_handshakes_are_answered(
    s: WgView,
    t: WgView,
    ifindex: i32,
    packet: Seq<u8>,
    e: Seq<u8>,
    now: u64,
    r: Option<Seq<u8>>,
    d: int,
    p: int,
    m: InitiationView,
)
    requires
        answers(s, t, ifindex, packet, e, now, r),
        tunnel_is(s.configs, ifindex, d),
        s.configs[d].private_key is Some,
        s.configs[d].public_key is Some,
        initiation_in(packet) == Some(m),
        mac1_fits(packet, blake2s_256(txt("mac1----") + s.configs[d].public_key->0)),
        0 <= p < s.configs[d].peers.len(),
        taken_from(s.configs[d], p, m) is Some,
        forall|q: int| 0 <= q < p ==> #[trigger] taken_from(s.configs[d], q, m) is None,
    ensures
        ({
            let peer = s.configs[d].peers[p];
            let c = taken_from(s.configs[d], p, m)->0;
            let x = t.sessions.last();
            let psk = match peer.preshared_key {
                Some(k) => k,
                None => Seq::new(32, |i: int| 0u8),
            };
            &&& t.pending == s.pending && t.configs.len() == s.configs.len()
            &&& t.configs[d].peers[p].latest == c.timestamp && t.configs[d].peers[p].public_key
                == peer.public_key && t.configs[d].peers[p].allowed == peer.allowed
            &&& forall|q: int|
                0 <= q < s.configs[d].peers.len() && q != p ==> #[trigger] t.configs[d].peers[q]
                    == s.configs[d].peers[q]
            &&& forall|k: int|
                0 <= k < s.configs.len() && k != d ==> #[trigger] t.configs[k] == s.configs[k]
            &&& response_of(c, psk, e) is None ==> r is None && t.sessions == s.sessions
            &&& response_of(c, psk, e) matches Some(a) ==> {
                &&& r is Some && authentic(r->0, 60, peer.public_key)
                &&& number_at(r->0, 0) == 2 && number_at(r->0, 4) == x.local_index && number_at(
                    r->0,
                    8,
                ) == number_at(packet, 4)
                &&& r->0.subrange(12, 44) == a.ephemeral && r->0.subrange(44, 60) == a.enc_nothing
                &&& t.sessions.len() > 0 && has_keys(
                    x,
                    ifindex,
                    peer.public_key,
                    kdf2(a.state.ck, Seq::empty()),
                    kdf1(a.state.ck, Seq::empty()),
                    number_at(packet, 4),
                    now,
                )
            }
        }),
{
    let peer = s.configs[d].peers[p];
    law_tunnels_and_peers_are_found(s.configs, ifindex, s.configs[d].peers, peer.public_key, d, p);
    lemma_first_sender(s.configs[d], m, p, 0);
    law_authentication(packet, s.configs[d].public_key->0);
    law_parts_of_handshakes(packet);
    let c = taken_from(s.configs[d], p, m)->0;
    let psk = match peer.preshared_key {
        Some(k) => k,
        None => Seq::new(32, |i: int| 0u8),
    };
    assert(psk_of(peer) =~= psk);
    if response_of(c, psk, e) is Some {
        law_authentication(r->0, peer.public_key);
        law_parts_of_handshakes(r->0);
        law_kinds_of_messages(r->0);
        law_stored_sessions(s.sessions, t.sessions.last(), t.sessions.last());
        let n = response_in(r->0)->0;
        assert forall|i: int| 76 <= i < 92 implies r->0[i] == 0 by {
            assert(n.mac2[i - 76] == r->0[i]);
        }
    }
}

/// A first message is tried with the keys of the tunnel, and the key, the secret and the
/// last time of the peer.
pub proof fn law_what_a_peer_is_tried_with(
    d: DeviceView,
    p: int,
    m: InitiationView,
    private: Seq<u8>,
    public: Seq<u8>,
    secret: Seq<u8>,
)
    requires
        0 <= p < d.peers.len(),
        d.private_key == Some(private),
        d.public_key == Some(public),
        d.peers[p].shared == Some(secret),
    ensures
        taken_from(d, p, m) == consumed_of(
            m,
            private,
            public,
            d.peers[p].public_key,
            secret,
            d.peers[p].latest,
        ),
{
}

/// What is no authentic first message for the tunnel changes nothing and is not answered.
pub proof fn law_unauthentic_handshakes(
    s: WgView,
    t: WgView,
    ifindex: i32,
    packet: Seq<u8>,
    e: Seq<u8>,
    now: u64,
    r: Option<Seq<u8>>,
    d: int,
)
    requires
        answers(s, t, ifindex, packet, e, now, r),
        tunnel_is(s.configs, ifindex, d),
        s.configs[d].public_key is Some,
        packet.len() != 148 || number_at(packet, 0) != 1 || packet.subrange(116, 132)
            != blake2s_mac_128(
            blake2s_256(txt("mac1----") + s.configs[d].public_key->0),
            packet.subrange(0, 116),
        ),
    ensures
        r is None,
        t == s,
{
    law_tunnels_and_peers_are_found(s.configs, ifindex, s.configs[d].peers, Seq::empty(), d, 0);
    law_authentication(packet, s.configs[d].public_key->0);
    law_kinds_of_messages(packet);
}

/// An authentic second message completes the handshake whose number it names: the session
/// sends with the first of the keys and receives with the second, other sessions with the
/// peer are gone, and the packets that waited for the peer are handed out.
pub proof fn law_handshakes_are_completed(
    s: WgView,
    t: WgView,
    ifindex: i32,
    packet: Seq<u8>,
    now: u64,
    r: Option<Seq<PendingView>>,
    i: int,
    d: int,
    p: int,
    m: ResponseView,
    done: StateView,
    x: PendingView,
) -> (y: Session)
    requires
        completes_with(s, t, ifindex, packet, now, r),
        response_in(packet) == Some(m),
        0 <= i < s.sessions.len(),
        s.sessions[i].ifindex == ifindex,
        s.sessions[i].local_index == m.receiver_index,
        forall|j: int|
            0 <= j < i ==> (#[trigger] s.sessions[j]).ifindex != ifindex
                || s.sessions[j].local_index != m.receiver_index,
        s.sessions[i].pending_state is Some,
        s.sessions[i].pending_ephemeral_private is Some,
        tunnel_is(s.configs, ifindex, d),
        peer_is(s.configs[d].peers, s.sessions[i].peer_public_key@, p),
        s.configs[d].private_key is Some,
        s.configs[d].public_key is Some,
        mac1_fits(packet, blake2s_256(txt("mac1----") + s.configs[d].public_key->0)),
        completed_of(
            m,
            s.sessions[i].pending_state->0@,
            s.configs[d].private_key->0,
            s.sessions[i].pending_ephemeral_private->0@,
            match s.configs[d].peers[p].preshared_key {
                Some(k) => k,
                None => Seq::new(32, |j: int| 0u8),
            },
        ) == Some(done),
    ensures
        ({
            let key = s.sessions[i].peer_public_key@;
            &&& t.configs == s.configs
            &&& t.sessions.contains(y) && y.local_index == m.receiver_index && has_keys(
                y,
                ifindex,
                key,
                kdf1(done.ck, Seq::empty()),
                kdf2(done.ck, Seq::empty()),
                m.sender_index as int,
                now,
            )
            &&& forall|z: Session| #[trigger]
                t.sessions.contains(z) && z.ifindex == ifindex && z.peer_public_key@ == key
                    ==> z.local_index == m.receiver_index
            &&& r matches Some(q) && (q.contains(x) <==> s.pending.contains(x) && x.ifindex
                == ifindex && x.peer == key)
            &&& t.pending.contains(x) <==> s.pending.contains(x) && !(x.ifindex == ifindex && x.peer
                == key)
        }),
{
    let key = s.sessions[i].peer_public_key@;
    let peer = s.configs[d].peers[p];
    law_tunnels_and_peers_are_found(s.configs, ifindex, s.configs[d].peers, key, d, p);
    law_authentication(packet, s.configs[d].public_key->0);
    let psk = match peer.preshared_key {
        Some(k) => k,
        None => Seq::new(32, |j: int| 0u8),
    };
    assert(psk_of(peer) =~= psk);
    assert forall|f: spec_fn(Session) -> bool|
        f(s.sessions[i]) && (forall|j: int| 0 <= j < i ==> !f(#[trigger] s.sessions[j])) implies (
    #[trigger] first_from(s.sessions, f, 0)) == Some(i) by {
        lemma_first_session(s.sessions, f, i, 0);
    }
    assert(session_numbered(
        s.sessions,
        ifindex,
        m.receiver_index,
    ) == Some(i));
    let y = choose|y: Session| #[trigger]
        keyed(
            y,
            ifindex,
            key,
            m.receiver_index,
            done.ck,
            m.sender_index,
            true,
            now,
        ) && t.sessions == settled(s.sessions.update(i, y), ifindex, key, m.receiver_index);
    let u = s.sessions.update(i, y);
    assert(u[i] == y);
    law_settled_sessions(u, ifindex, key, m.receiver_index, y);
    assert forall|z: Session| #[trigger]
        t.sessions.contains(z) && z.ifindex == ifindex && z.peer_public_key@
            == key implies z.local_index == m.receiver_index by {
        law_settled_sessions(u, ifindex, key, m.receiver_index, z);
    }
    law_waiting_packets_are_sorted(s.pending, ifindex, key, x);
    y
}

proof fn lemma_first_session(s: Seq<Session>, f: spec_fn(Session) -> bool, i: int, k: int)
    requires
        0 <= k <= i < s.len(),
        f(s[i]),
        forall|j: int| k <= j < i ==> !f(#[trigger] s[j]),
    ensures
        first_from(s, f, k) == Some(i),
    decreases i - k,
{
    if k < i {
        assert(!f(s[k]));
        lemma_first_session(s, f, i, k + 1);
    }
}

} // verus!
