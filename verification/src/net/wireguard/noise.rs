//! The handshake: how two peers come to share keys.

use vstd::prelude::*;
use vstd::string::StringSliceAdditionalSpecFns;
use crate::bytes::{le64_bytes, put_le64};
use crate::net::wireguard::messages::{
    before, read_array, time_before, vec_to_array, HandshakeInitiation, HandshakeResponse,
    InitiationView, ResponseView,
};
use crate::net::wireguard::primitives::{
    blake2s_256, blake2s_digest, chacha_open, chacha_opened, chacha_seal, chacha_sealed,
    cipher_answers, dh_public, dh_shared, joined, text_view, x25519_public, x25519_shared,
    CIPHER_MAX_LEN,
};
use crate::net::wireguard::replay::{replay_wf, NoiseReplayCounter, REJECT_AFTER_MESSAGES};
use crate::text::{append_bytes, append_zeros, bytes_eq, copy_range, txt};

verus! {

pub const REKEY_AFTER_MESSAGES: u64 = 0x1000_0000_0000_0000;

// ---------------------------------------------------------------------------
// Hashing.
// ---------------------------------------------------------------------------

/// Hashes two texts behind one another.
pub fn blake2s_hash(first: &[u8], second: &[u8]) -> (r: [u8; 32])
    ensures
        r@ == blake2s_256(first@ + second@),
{
    let mut data: Vec<u8> = Vec::new();
    append_bytes(&mut data, first);
    append_bytes(&mut data, second);
    assert(data@ =~= first@ + second@);
    blake2s_digest(data.as_slice())
}

/// A key as a block of 64 bytes: a longer one is hashed.
pub open spec fn key_block(key: Seq<u8>) -> Seq<u8> {
    let k = if key.len() > 64 {
        blake2s_256(key)
    } else {
        key
    };
    Seq::new(
        64,
        |i: int|
            if i < k.len() {
                k[i]
            } else {
                0u8
            },
    )
}

pub open spec fn xored(s: Seq<u8>, b: u8) -> Seq<u8> {
    Seq::new(s.len(), |i: int| s[i] ^ b)
}

/// The keyed hash of a text.
pub open spec fn hmac(key: Seq<u8>, data: Seq<u8>) -> Seq<u8> {
    blake2s_256(
        xored(key_block(key), 0x5c) + blake2s_256(xored(key_block(key), 0x36) + data),
    )
}

fn xor_block(block: &Vec<u8>, b: u8) -> (r: Vec<u8>)
    ensures
        r@ == xored(block@, b),
{
    let mut out: Vec<u8> = Vec::new();
    let mut i: usize = 0;
    while i < block.len()
        invariant
            i <= block@.len(),
            out@.len() == i,
            forall|j: int| 0 <= j < i ==> out@[j] == block@[j] ^ b,
        decreases block@.len() - i,
    {
        out.push(block[i] ^ b);
        i += 1;
    }
    assert(out@ =~= xored(block@, b));
    out
}

/// Computes the keyed hash of a text.
pub fn hmac_blake2s(key: &[u8], data: &[u8]) -> (r: [u8; 32])
    ensures
        r@ == hmac(key@, data@),
{
    let mut block: Vec<u8> = Vec::new();
    if key.len() > 64 {
        let h: [u8; 32] = blake2s_digest(key);
        append_bytes(&mut block, h.as_slice());
    } else {
        append_bytes(&mut block, key);
    }
    let used: usize = block.len();
    append_zeros(&mut block, 64 - used);
    assert(block@ =~= key_block(key@));
    let inner_key = xor_block(&block, 0x36);
    let inner: [u8; 32] = blake2s_hash(inner_key.as_slice(), data);
    let outer_key = xor_block(&block, 0x5c);
    blake2s_hash(outer_key.as_slice(), inner.as_slice())
}

/// The first derived key.
pub open spec fn kdf1(ck: Seq<u8>, input: Seq<u8>) -> Seq<u8> {
    hmac(hmac(ck, input), seq![1u8])
}

/// The second derived key.
pub open spec fn kdf2(ck: Seq<u8>, input: Seq<u8>) -> Seq<u8> {
    hmac(hmac(ck, input), kdf1(ck, input).push(2u8))
}

/// The third derived key.
pub open spec fn kdf3(ck: Seq<u8>, input: Seq<u8>) -> Seq<u8> {
    hmac(hmac(ck, input), kdf2(ck, input).push(3u8))
}

/// No key.
pub open spec fn zero_key() -> Seq<u8> {
    Seq::new(32, |i: int| 0u8)
}

fn hmac_with_label(secret: &[u8; 32], text: &[u8; 32], label: u8) -> (r: [u8; 32])
    ensures
        r@ == hmac(secret@, text@.push(label)),
{
    let mut data: Vec<u8> = Vec::new();
    append_bytes(&mut data, text.as_slice());
    data.push(label);
    assert(data@ =~= text@.push(label));
    hmac_blake2s(secret.as_slice(), data.as_slice())
}

/// Derives up to three keys; those that were not asked for are zero.
pub fn kdf(chaining_key: &[u8; 32], input: &[u8], outputs: usize) -> (r: (
    [u8; 32],
    [u8; 32],
    [u8; 32],
))
    requires
        1 <= outputs <= 3,
    ensures
        r.0@ == kdf1(chaining_key@, input@),
        r.1@ == if outputs >= 2 {
            kdf2(chaining_key@, input@)
        } else {
            zero_key()
        },
        r.2@ == if outputs >= 3 {
            kdf3(chaining_key@, input@)
        } else {
            zero_key()
        },
{
    let secret: [u8; 32] = hmac_blake2s(chaining_key.as_slice(), input);
    let mut one: Vec<u8> = Vec::new();
    one.push(1);
    assert(one@ =~= seq![1u8]);
    let first: [u8; 32] = hmac_blake2s(secret.as_slice(), one.as_slice());
    let zero: [u8; 32] = [0;32];
    assert(zero@ =~= zero_key());
    let second: [u8; 32] = if outputs >= 2 {
        hmac_with_label(&secret, &first, 2)
    } else {
        zero
    };
    let third: [u8; 32] = if outputs >= 3 {
        hmac_with_label(&secret, &second, 3)
    } else {
        zero
    };
    (first, second, third)
}

/// The hash of what was said so far, with more said.
pub open spec fn mixed_hash(h: Seq<u8>, data: Seq<u8>) -> Seq<u8> {
    blake2s_256(h + data)
}

pub fn mix_hash(hash: &mut [u8; 32], data: &[u8])
    ensures
        final(hash)@ == mixed_hash(old(hash)@, data@),
{
    let h: [u8; 32] = *hash;
    *hash = blake2s_hash(h.as_slice(), data);
}

/// Mixes a secret into the chaining key, and derives a key from both.
pub fn mix_key(chaining_key: &mut [u8; 32], input: &[u8]) -> (r: [u8; 32])
    ensures
        final(chaining_key)@ == kdf1(old(chaining_key)@, input@),
        r@ == kdf2(old(chaining_key)@, input@),
{
    let ck: [u8; 32] = *chaining_key;
    let (next, key, _) = kdf(&ck, input, 2);
    *chaining_key = next;
    key
}

/// Mixes in the key that both peers were given beforehand.
pub fn mix_psk(chaining_key: &mut [u8; 32], hash: &mut [u8; 32], psk: &[u8; 32]) -> (r: [u8; 32])
    ensures
        final(chaining_key)@ == kdf1(old(chaining_key)@, psk@),
        final(hash)@ == mixed_hash(old(hash)@, kdf2(old(chaining_key)@, psk@)),
        r@ == kdf3(old(chaining_key)@, psk@),
{
    let ck: [u8; 32] = *chaining_key;
    let (next, temp, key) = kdf(&ck, psk.as_slice(), 3);
    *chaining_key = next;
    mix_hash(hash, temp.as_slice());
    key
}

// ---------------------------------------------------------------------------
// Encryption.
// ---------------------------------------------------------------------------

/// The nonce of a counter: four zeros, then the counter.
pub open spec fn nonce_of(counter: u64) -> Seq<u8> {
    seq![0u8, 0u8, 0u8, 0u8] + le64_bytes(counter)
}

/// An encrypted text with its tag at the end. One that is too long for the cipher
/// comes to nothing.
pub open spec fn sealed(key: Seq<u8>, counter: u64, ad: Seq<u8>, text: Seq<u8>) -> Seq<u8> {
    if text.len() <= CIPHER_MAX_LEN {
        joined(chacha_sealed(key, nonce_of(counter), ad, text))
    } else {
        Seq::empty()
    }
}

/// What an encrypted text with its tag at the end is decrypted to.
pub open spec fn opened(key: Seq<u8>, counter: u64, ad: Seq<u8>, text: Seq<u8>) -> Option<
    Seq<u8>,
> {
    if text.len() < 16 || text.len() - 16 > CIPHER_MAX_LEN {
        None
    } else {
        chacha_opened(
            key,
            nonce_of(counter),
            ad,
            text.take(text.len() - 16),
            text.skip(text.len() - 16),
        )
    }
}

fn nonce_from_counter(counter: u64) -> (r: [u8; 12])
    ensures
        r@ == nonce_of(counter),
{
    let mut v: Vec<u8> = Vec::new();
    append_zeros(&mut v, 4);
    put_le64(&mut v, counter);
    assert(v@ =~= nonce_of(counter));
    let mut out: [u8; 12] = [0;12];
    let mut i: usize = 0;
    while i < 12
        invariant
            i <= 12,
            v@.len() == 12,
            forall|j: int| 0 <= j < i ==> out@[j] == v@[j],
        decreases 12 - i,
    {
        out[i] = v[i];
        i += 1;
    }
    assert(out@ =~= v@);
    out
}

/// Encrypts a text; its tag stands at the end. A text that is too long gives
/// nothing.
pub fn aead_encrypt(plaintext: &[u8], associated_data: &[u8], counter: u64, key: &[u8; 32]) -> (r:
    Vec<u8>)
    requires
        cipher_answers(plaintext@.len() as int),
    ensures
        r@ == sealed(key@, counter, associated_data@, plaintext@),
        plaintext@.len() <= CIPHER_MAX_LEN ==> r@.len() == plaintext@.len() + 16,
{
    let nonce: [u8; 12] = nonce_from_counter(counter);
    match chacha_seal(key, &nonce, associated_data, plaintext) {
        Some((text, tag)) => {
            let mut out = text;
            append_bytes(&mut out, tag.as_slice());
            out
        },
        None => Vec::new(),
    }
}

/// Decrypts a text whose tag stands at the end. What was encrypted with the same
/// key, counter and associated data comes back.
pub fn aead_decrypt(ciphertext: &[u8], associated_data: &[u8], counter: u64, key: &[u8; 32]) -> (r:
    Option<Vec<u8>>)
    requires
        cipher_answers(ciphertext@.len() - 16),
    ensures
        text_view(r) == opened(key@, counter, associated_data@, ciphertext@),
        r matches Some(p) ==> p@.len() + 16 == ciphertext@.len(),
        forall|t: Seq<u8>|
            t.len() + 16 == ciphertext@.len() && #[trigger] sealed(
                key@,
                counter,
                associated_data@,
                t,
            ) == ciphertext@ ==> text_view(r) == Some(t),
{
    if ciphertext.len() < 16 {
        return None;
    }
    let text_len: usize = ciphertext.len() - 16;
    let text = copy_range(ciphertext, 0, text_len);
    assert(text@ =~= ciphertext@.take(text_len as int));
    let nonce: [u8; 12] = nonce_from_counter(counter);
    match read_array::<16>(ciphertext, text_len) {
        None => None,
        Some(tag) => {
            assert(tag@ =~= ciphertext@.skip(text_len as int));
            assert(text@ + tag@ =~= ciphertext@);
            chacha_open(key, &nonce, associated_data, text.as_slice(), &tag)
        },
    }
}

/// Encrypts a part of a handshake: it is bound to what was said before, and
/// becomes part of it.
pub fn message_encrypt_and_hash(plaintext: &[u8], key: &[u8; 32], hash: &mut [u8; 32]) -> (r: Vec<
    u8,
>)
    requires
        cipher_answers(plaintext@.len() as int),
    ensures
        r@ == sealed(key@, 0, old(hash)@, plaintext@),
        plaintext@.len() <= CIPHER_MAX_LEN ==> r@.len() == plaintext@.len() + 16,
        final(hash)@ == mixed_hash(old(hash)@, r@),
{
    let ad: [u8; 32] = *hash;
    let ciphertext = aead_encrypt(plaintext, ad.as_slice(), 0, key);
    mix_hash(hash, ciphertext.as_slice());
    ciphertext
}

/// Decrypts a part of a handshake, which becomes part of what was said.
pub fn message_decrypt_and_hash(ciphertext: &[u8], key: &[u8; 32], hash: &mut [u8; 32]) -> (r:
    Option<Vec<u8>>)
    requires
        cipher_answers(ciphertext@.len() - 16),
    ensures
        text_view(r) == opened(key@, 0, old(hash)@, ciphertext@),
        r matches Some(p) ==> p@.len() + 16 == ciphertext@.len(),
        forall|t: Seq<u8>|
            t.len() + 16 == ciphertext@.len() && #[trigger] sealed(key@, 0, old(hash)@, t)
                == ciphertext@ ==> text_view(r) == Some(t),
        final(hash)@ == if r is Some {
            mixed_hash(old(hash)@, ciphertext@)
        } else {
            old(hash)@
        },
{
    let ad: [u8; 32] = *hash;
    match aead_decrypt(ciphertext, ad.as_slice(), 0, key) {
        Some(plaintext) => {
            mix_hash(hash, ciphertext);
            Some(plaintext)
        },
        None => None,
    }
}

// ---------------------------------------------------------------------------
// Keys.
// ---------------------------------------------------------------------------

/// A key that is no key.
pub open spec fn all_zero(s: Seq<u8>) -> bool {
    forall|i: int| 0 <= i < s.len() ==> s[i] == 0
}

/// Tells whether a key is no key.
pub fn is_zero_key(key: &[u8; 32]) -> (r: bool)
    ensures
        r == all_zero(key@),
{
    let mut i: usize = 0;
    while i < 32
        invariant
            i <= 32,
            forall|j: int| 0 <= j < i ==> key@[j] == 0,
        decreases 32 - i,
    {
        if key[i] != 0 {
            return false;
        }
        i += 1;
    }
    true
}

pub open spec fn key_view(r: Option<[u8; 32]>) -> Option<Seq<u8>> {
    match r {
        Some(k) => Some(k@),
        None => None,
    }
}

/// The public key of a private key, unless that is empty.
pub open spec fn public_of(private: Seq<u8>) -> Option<Seq<u8>> {
    if all_zero(private) {
        None
    } else {
        Some(x25519_public(private))
    }
}

/// The secret that two keys share, unless it is empty.
pub open spec fn shared_of(private: Seq<u8>, public: Seq<u8>) -> Option<Seq<u8>> {
    if all_zero(x25519_shared(private, public)) {
        None
    } else {
        Some(x25519_shared(private, public))
    }
}

pub fn public_key_from_private(private_key: [u8; 32]) -> (r: Option<[u8; 32]>)
    ensures
        key_view(r) == public_of(private_key@),
{
    if is_zero_key(&private_key) {
        return None;
    }
    Some(dh_public(private_key))
}

/// Computes the secret that two keys share. The owners of two key pairs compute
/// the same secret.
pub fn x25519_shared_secret(private_key: [u8; 32], public_key: [u8; 32]) -> (r: Option<[u8; 32]>)
    ensures
        key_view(r) == shared_of(private_key@, public_key@),
        forall|p: Seq<u8>|
            p.len() == 32 && public_key@ == #[trigger] x25519_public(p) ==> key_view(r)
                == shared_of(p, x25519_public(private_key@)),
{
    let shared: [u8; 32] = dh_shared(private_key, public_key);
    if is_zero_key(&shared) {
        None
    } else {
        Some(shared)
    }
}

/// Tries to make a private key out of random bytes.
pub fn random_private_key(bytes: [u8; 32]) -> (r: Option<[u8; 32]>)
    ensures
        key_view(r) == if public_of(bytes@) is Some {
            Some(bytes@)
        } else {
            None
        },
{
    if public_key_from_private(bytes).is_some() {
        Some(bytes)
    } else {
        None
    }
}

/// The key of the first authentication field of packets to a peer.
pub fn message_mac1_key(public_key: &[u8; 32]) -> (r: [u8; 32])
    ensures
        r@ == blake2s_256(txt("mac1----") + public_key@),
{
    blake2s_hash("mac1----".as_bytes(), public_key.as_slice())
}

/// The key of cookies of a peer.
pub fn cookie_encryption_key(public_key: &[u8; 32]) -> (r: [u8; 32])
    ensures
        r@ == blake2s_256(txt("cookie--") + public_key@),
{
    blake2s_hash("cookie--".as_bytes(), public_key.as_slice())
}

// ---------------------------------------------------------------------------
// Handshakes.
// ---------------------------------------------------------------------------

/// What a handshake has come to: the chaining key, and the hash of what was
/// said.
#[derive(Clone, Copy)]
pub struct NoiseHandshakeState {
    pub chaining_key: [u8; 32],
    pub hash: [u8; 32],
}

#[verifier::ext_equal]
pub struct StateView {
    pub ck: Seq<u8>,
    pub h: Seq<u8>,
}

impl View for NoiseHandshakeState {
    type V = StateView;

    open spec fn view(&self) -> StateView {
        StateView { ck: self.chaining_key@, h: self.hash@ }
    }
}

/// The start of a handshake with the owner of a public key.
pub open spec fn initial_state(responder: Seq<u8>) -> StateView {
    let ck = blake2s_256(txt("Noise_IKpsk2_25519_ChaChaPoly_BLAKE2s\0"));
    let h = blake2s_256(ck + txt("WireGuard v1 zx2c4 Jason@zx2c4.com\0"));
    StateView { ck, h: mixed_hash(h, responder) }
}

pub fn initial_handshake_state(remote_static: &[u8; 32]) -> (r: NoiseHandshakeState)
    ensures
        r@ == initial_state(remote_static@),
{
    let name = "Noise_IKpsk2_25519_ChaChaPoly_BLAKE2s\0".as_bytes();
    let identifier = "WireGuard v1 zx2c4 Jason@zx2c4.com\0".as_bytes();
    let chaining_key: [u8; 32] = blake2s_digest(name);
    let mut hash: [u8; 32] = blake2s_hash(chaining_key.as_slice(), identifier);
    mix_hash(&mut hash, remote_static.as_slice());
    NoiseHandshakeState { chaining_key, hash }
}

/// A state with a public key said and mixed in.
pub open spec fn with_ephemeral(s: StateView, e: Seq<u8>) -> StateView {
    StateView { ck: kdf1(s.ck, e), h: mixed_hash(s.h, e) }
}

/// A state with a secret mixed in.
pub open spec fn with_secret(s: StateView, secret: Seq<u8>) -> StateView {
    StateView { ck: kdf1(s.ck, secret), h: s.h }
}

/// A state with an encrypted text said.
pub open spec fn with_said(s: StateView, text: Seq<u8>) -> StateView {
    StateView { ck: s.ck, h: mixed_hash(s.h, text) }
}

/// A state with the key mixed in that was given beforehand.
pub open spec fn with_psk(s: StateView, psk: Seq<u8>) -> StateView {
    StateView { ck: kdf1(s.ck, psk), h: mixed_hash(s.h, kdf2(s.ck, psk)) }
}

/// What an initiation says, and what the handshake has come to after it.
#[verifier::ext_equal]
pub struct Initiated {
    pub ephemeral: Seq<u8>,
    pub enc_static: Seq<u8>,
    pub enc_timestamp: Seq<u8>,
    pub state: StateView,
}

/// An initiation to the owner of `remote`: the sender's public key and the time,
/// each encrypted under the secrets mixed in so far. It needs a private key for
/// the handshake, a secret with the remote key, and one between the peers.
pub open spec fn initiation_of(
    local: Seq<u8>,
    remote: Seq<u8>,
    static_secret: Seq<u8>,
    ephemeral_private: Seq<u8>,
    timestamp: Seq<u8>,
) -> Option<Initiated> {
    match public_of(ephemeral_private) {
        None => None,
        Some(e) => {
            let s1 = with_ephemeral(initial_state(remote), e);
            match shared_of(ephemeral_private, remote) {
                None => None,
                Some(es) => if all_zero(static_secret) {
                    None
                } else {
                    let enc_static = sealed(kdf2(s1.ck, es), 0, s1.h, local);
                    let s2 = with_said(with_secret(s1, es), enc_static);
                    let enc_timestamp = sealed(kdf2(s2.ck, static_secret), 0, s2.h, timestamp);
                    let s3 = with_said(with_secret(s2, static_secret), enc_timestamp);
                    Some(Initiated { ephemeral: e, enc_static, enc_timestamp, state: s3 })
                },
            }
        },
    }
}

/// Makes an initiation. Its authentication fields are empty.
pub fn create_handshake_initiation(
    local_public: [u8; 32],
    remote_public: [u8; 32],
    precomputed_static_static: [u8; 32],
    sender_index: u32,
    ephemeral_private: [u8; 32],
    timestamp: [u8; 12],
) -> (r: Option<(HandshakeInitiation, NoiseHandshakeState)>)
    ensures
        ({
            let made = initiation_of(
                local_public@,
                remote_public@,
                precomputed_static_static@,
                ephemeral_private@,
                timestamp@,
            );
            match r {
                None => made is None,
                Some((m, s)) => made == Some(
                    Initiated {
                        ephemeral: m@.ephemeral,
                        enc_static: m@.enc_static,
                        enc_timestamp: m@.enc_timestamp,
                        state: s@,
                    },
                ) && m@.sender_index == sender_index && all_zero(m@.mac1) && all_zero(m@.mac2),
            }
        }),
{
    let mut state = initial_handshake_state(&remote_public);
    let ephemeral_public: [u8; 32] = match public_key_from_private(ephemeral_private) {
        Some(e) => e,
        None => {
            return None;
        },
    };
    mix_hash(&mut state.hash, ephemeral_public.as_slice());
    let unused: [u8; 32] = mix_key(&mut state.chaining_key, ephemeral_public.as_slice());
    let es: [u8; 32] = match x25519_shared_secret(ephemeral_private, remote_public) {
        Some(s) => s,
        None => {
            return None;
        },
    };
    let key: [u8; 32] = mix_key(&mut state.chaining_key, es.as_slice());
    let static_text = message_encrypt_and_hash(local_public.as_slice(), &key, &mut state.hash);
    let encrypted_static: [u8; 48] = match vec_to_array::<48>(&static_text) {
        Some(a) => a,
        None => {
            return None;
        },
    };
    if is_zero_key(&precomputed_static_static) {
        return None;
    }
    let key2: [u8; 32] = mix_key(&mut state.chaining_key, precomputed_static_static.as_slice());
    let time_text = message_encrypt_and_hash(timestamp.as_slice(), &key2, &mut state.hash);
    let encrypted_timestamp: [u8; 28] = match vec_to_array::<28>(&time_text) {
        Some(a) => a,
        None => {
            return None;
        },
    };
    let m = HandshakeInitiation {
        sender_index,
        unencrypted_ephemeral: ephemeral_public,
        encrypted_static,
        encrypted_timestamp,
        mac1: [0;16],
        mac2: [0;16],
    };
    Some((m, state))
}

/// What the receiver of an initiation knows.
#[derive(Clone, Copy)]
pub struct ConsumedInitiation {
    pub state: NoiseHandshakeState,
    pub remote_static: [u8; 32],
    pub remote_ephemeral: [u8; 32],
    pub remote_index: u32,
    pub timestamp: [u8; 12],
}

#[verifier::ext_equal]
pub struct ConsumedView {
    pub state: StateView,
    pub remote_static: Seq<u8>,
    pub remote_ephemeral: Seq<u8>,
    pub remote_index: u32,
    pub timestamp: Seq<u8>,
}

impl View for ConsumedInitiation {
    type V = ConsumedView;

    open spec fn view(&self) -> ConsumedView {
        ConsumedView {
            state: self.state@,
            remote_static: self.remote_static@,
            remote_ephemeral: self.remote_ephemeral@,
            remote_index: self.remote_index,
            timestamp: self.timestamp@,
        }
    }
}

pub open spec fn consumed_view(r: Option<ConsumedInitiation>) -> Option<ConsumedView> {
    match r {
        Some(c) => Some(c@),
        None => None,
    }
}

/// What an initiation is taken as by a peer that expects it of `expected`: the
/// sender must be that peer, and the time later than the last one seen.
pub open spec fn consumed_of(
    m: InitiationView,
    local_private: Seq<u8>,
    local_public: Seq<u8>,
    expected: Seq<u8>,
    static_secret: Seq<u8>,
    latest: Seq<u8>,
) -> Option<ConsumedView> {
    let s1 = with_ephemeral(initial_state(local_public), m.ephemeral);
    match shared_of(local_private, m.ephemeral) {
        None => None,
        Some(es) => match opened(kdf2(s1.ck, es), 0, s1.h, m.enc_static) {
            None => None,
            Some(sender) => if sender != expected || all_zero(static_secret) {
                None
            } else {
                let s2 = with_said(with_secret(s1, es), m.enc_static);
                match opened(kdf2(s2.ck, static_secret), 0, s2.h, m.enc_timestamp) {
                    None => None,
                    Some(time) => if !before(latest, time) {
                        None
                    } else {
                        Some(
                            ConsumedView {
                                state: with_said(with_secret(s2, static_secret), m.enc_timestamp),
                                remote_static: sender,
                                remote_ephemeral: m.ephemeral,
                                remote_index: m.sender_index,
                                timestamp: time,
                            },
                        )
                    },
                }
            },
        },
    }
}

/// The message says what an initiation says.
pub open spec fn says(m: InitiationView, i: Initiated) -> bool {
    m.ephemeral == i.ephemeral && m.enc_static == i.enc_static && m.enc_timestamp
        == i.enc_timestamp
}

/// Takes an initiation. One that the expected peer made for this key, at a later
/// time than the last one seen, is taken, and leaves both peers with the same
/// state.
pub fn consume_handshake_initiation_for_peer(
    msg: &HandshakeInitiation,
    local_private: [u8; 32],
    local_public: [u8; 32],
    expected_peer_public: [u8; 32],
    precomputed_static_static: [u8; 32],
    latest_timestamp: &[u8; 12],
) -> (r: Option<ConsumedInitiation>)
    ensures
        consumed_view(r) == consumed_of(
            msg@,
            local_private@,
            local_public@,
            expected_peer_public@,
            precomputed_static_static@,
            latest_timestamp@,
        ),
        forall|e: Seq<u8>, time: Seq<u8>|
            e.len() == 32 && time.len() == 12 && local_public@ == x25519_public(local_private@)
                && before(latest_timestamp@, time) && (#[trigger] initiation_of(
                expected_peer_public@,
                local_public@,
                precomputed_static_static@,
                e,
                time,
            ) matches Some(i) && says(msg@, i)) ==> {
                let i = initiation_of(
                    expected_peer_public@,
                    local_public@,
                    precomputed_static_static@,
                    e,
                    time,
                )->0;
                consumed_view(r) == Some(
                    ConsumedView {
                        state: i.state,
                        remote_static: expected_peer_public@,
                        remote_ephemeral: x25519_public(e),
                        remote_index: msg.sender_index,
                        timestamp: time,
                    },
                )
            },
{
    let mut state = initial_handshake_state(&local_public);
    let remote_ephemeral: [u8; 32] = msg.unencrypted_ephemeral;
    mix_hash(&mut state.hash, remote_ephemeral.as_slice());
    let unused: [u8; 32] = mix_key(&mut state.chaining_key, remote_ephemeral.as_slice());
    let es: [u8; 32] = match x25519_shared_secret(local_private, remote_ephemeral) {
        Some(s) => s,
        None => {
            return None;
        },
    };
    let key: [u8; 32] = mix_key(&mut state.chaining_key, es.as_slice());
    let peer_text = match message_decrypt_and_hash(
        msg.encrypted_static.as_slice(),
        &key,
        &mut state.hash,
    ) {
        Some(t) => t,
        None => {
            return None;
        },
    };
    let peer_static: [u8; 32] = match vec_to_array::<32>(&peer_text) {
        Some(a) => a,
        None => {
            return None;
        },
    };
    if !bytes_eq(peer_static.as_slice(), expected_peer_public.as_slice()) {
        return None;
    }
    if is_zero_key(&precomputed_static_static) {
        return None;
    }
    let key2: [u8; 32] = mix_key(&mut state.chaining_key, precomputed_static_static.as_slice());
    let time_text = match message_decrypt_and_hash(
        msg.encrypted_timestamp.as_slice(),
        &key2,
        &mut state.hash,
    ) {
        Some(t) => t,
        None => {
            return None;
        },
    };
    let timestamp: [u8; 12] = match vec_to_array::<12>(&time_text) {
        Some(a) => a,
        None => {
            return None;
        },
    };
    if !time_before(latest_timestamp, &timestamp) {
        return None;
    }
    Some(
        ConsumedInitiation {
            state,
            remote_static: peer_static,
            remote_ephemeral,
            remote_index: msg.sender_index,
            timestamp,
        },
    )
}

/// What a response says, and what the handshake has come to after it.
#[verifier::ext_equal]
pub struct Responded {
    pub ephemeral: Seq<u8>,
    pub enc_nothing: Seq<u8>,
    pub state: StateView,
}

/// A response to an initiation.
pub open spec fn response_of(c: ConsumedView, psk: Seq<u8>, ephemeral_private: Seq<u8>) -> Option<
    Responded,
> {
    match public_of(ephemeral_private) {
        None => None,
        Some(e) => {
            let s1 = with_ephemeral(c.state, e);
            match (
                shared_of(ephemeral_private, c.remote_ephemeral),
                shared_of(ephemeral_private, c.remote_static),
            ) {
                (Some(ee), Some(se)) => {
                    let s2 = with_secret(with_secret(s1, ee), se);
                    let s3 = with_psk(s2, psk);
                    let enc_nothing = sealed(kdf3(s2.ck, psk), 0, s3.h, Seq::empty());
                    Some(
                        Responded {
                            ephemeral: e,
                            enc_nothing,
                            state: with_said(s3, enc_nothing),
                        },
                    )
                },
                _ => None,
            }
        },
    }
}

/// Makes a response. Its authentication fields are empty.
pub fn create_handshake_response(
    initiation: &ConsumedInitiation,
    preshared_key: [u8; 32],
    sender_index: u32,
    ephemeral_private: [u8; 32],
) -> (r: Option<(HandshakeResponse, NoiseHandshakeState)>)
    ensures
        ({
            let made = response_of(initiation@, preshared_key@, ephemeral_private@);
            match r {
                None => made is None,
                Some((m, s)) => made == Some(
                    Responded {
                        ephemeral: m@.ephemeral,
                        enc_nothing: m@.enc_nothing,
                        state: s@,
                    },
                ) && m@.sender_index == sender_index && m@.receiver_index
                    == initiation.remote_index && all_zero(m@.mac1) && all_zero(m@.mac2),
            }
        }),
{
    let mut state = initiation.state;
    let ephemeral_public: [u8; 32] = match public_key_from_private(ephemeral_private) {
        Some(e) => e,
        None => {
            return None;
        },
    };
    mix_hash(&mut state.hash, ephemeral_public.as_slice());
    let unused: [u8; 32] = mix_key(&mut state.chaining_key, ephemeral_public.as_slice());
    let ee: [u8; 32] = match x25519_shared_secret(ephemeral_private, initiation.remote_ephemeral) {
        Some(s) => s,
        None => {
            return None;
        },
    };
    let unused_ee: [u8; 32] = mix_key(&mut state.chaining_key, ee.as_slice());
    let se: [u8; 32] = match x25519_shared_secret(ephemeral_private, initiation.remote_static) {
        Some(s) => s,
        None => {
            return None;
        },
    };
    let unused_se: [u8; 32] = mix_key(&mut state.chaining_key, se.as_slice());
    let key: [u8; 32] = mix_psk(&mut state.chaining_key, &mut state.hash, &preshared_key);
    let nothing: Vec<u8> = Vec::new();
    assert(nothing@ =~= Seq::<u8>::empty());
    let text = message_encrypt_and_hash(nothing.as_slice(), &key, &mut state.hash);
    let encrypted_nothing: [u8; 16] = match vec_to_array::<16>(&text) {
        Some(a) => a,
        None => {
            return None;
        },
    };
    let m = HandshakeResponse {
        sender_index,
        receiver_index: initiation.remote_index,
        unencrypted_ephemeral: ephemeral_public,
        encrypted_nothing,
        mac1: [0;16],
        mac2: [0;16],
    };
    Some((m, state))
}

/// What the receiver of a response knows.
#[derive(Clone, Copy)]
pub struct ConsumedResponse {
    pub state: NoiseHandshakeState,
    pub remote_ephemeral: [u8; 32],
    pub remote_index: u32,
}

/// The state that a response leads to: what it encrypts must be nothing.
pub open spec fn completed_of(
    m: ResponseView,
    s: StateView,
    local_private: Seq<u8>,
    ephemeral_private: Seq<u8>,
    psk: Seq<u8>,
) -> Option<StateView> {
    let s1 = with_ephemeral(s, m.ephemeral);
    match (
        shared_of(ephemeral_private, m.ephemeral),
        shared_of(local_private, m.ephemeral),
    ) {
        (Some(ee), Some(se)) => {
            let s2 = with_secret(with_secret(s1, ee), se);
            let s3 = with_psk(s2, psk);
            match opened(kdf3(s2.ck, psk), 0, s3.h, m.enc_nothing) {
                Some(t) => if t.len() == 0 {
                    Some(with_said(s3, m.enc_nothing))
                } else {
                    None
                },
                None => None,
            }
        },
        _ => None,
    }
}

/// Takes a response. One that answers this peer's initiation with the same key
/// given beforehand is taken, and leaves both peers with the same state.
pub fn consume_handshake_response(
    msg: &HandshakeResponse,
    state: NoiseHandshakeState,
    local_private: [u8; 32],
    ephemeral_private: [u8; 32],
    preshared_key: [u8; 32],
) -> (r: Option<ConsumedResponse>)
    ensures
        ({
            let done = completed_of(
                msg@,
                state@,
                local_private@,
                ephemeral_private@,
                preshared_key@,
            );
            match r {
                None => done is None,
                Some(c) => done == Some(c.state@) && c.remote_ephemeral@ == msg@.ephemeral
                    && c.remote_index == msg.sender_index,
            }
        }),
        forall|c: ConsumedView, e: Seq<u8>|
            e.len() == 32 && c.state == state@ && c.remote_ephemeral == x25519_public(
                ephemeral_private@,
            ) && c.remote_static == x25519_public(local_private@) && (#[trigger] response_of(
                c,
                preshared_key@,
                e,
            ) matches Some(d) && d.ephemeral == msg@.ephemeral && d.enc_nothing
                == msg@.enc_nothing) ==> r is Some && r->0.state@ == response_of(
                c,
                preshared_key@,
                e,
            )->0.state,
{
    let mut st = state;
    let remote_ephemeral: [u8; 32] = msg.unencrypted_ephemeral;
    mix_hash(&mut st.hash, remote_ephemeral.as_slice());
    let unused: [u8; 32] = mix_key(&mut st.chaining_key, remote_ephemeral.as_slice());
    let ee: [u8; 32] = match x25519_shared_secret(ephemeral_private, remote_ephemeral) {
        Some(s) => s,
        None => {
            return None;
        },
    };
    let unused_ee: [u8; 32] = mix_key(&mut st.chaining_key, ee.as_slice());
    let se: [u8; 32] = match x25519_shared_secret(local_private, remote_ephemeral) {
        Some(s) => s,
        None => {
            return None;
        },
    };
    let unused_se: [u8; 32] = mix_key(&mut st.chaining_key, se.as_slice());
    let key: [u8; 32] = mix_psk(&mut st.chaining_key, &mut st.hash, &preshared_key);
    let text = match message_decrypt_and_hash(
        msg.encrypted_nothing.as_slice(),
        &key,
        &mut st.hash,
    ) {
        Some(t) => t,
        None => {
            return None;
        },
    };
    if text.len() != 0 {
        return None;
    }
    Some(ConsumedResponse { state: st, remote_ephemeral, remote_index: msg.sender_index })
}

// ---------------------------------------------------------------------------
// Sessions.
// ---------------------------------------------------------------------------

/// A key for one direction.
#[derive(Clone, Copy)]
pub struct NoiseSymmetricKey {
    pub key: [u8; 32],
    pub birth_ms: u64,
    pub is_valid: bool,
}

/// The keys of a session, and where its counters stand.
#[derive(Clone, Copy)]
pub struct NoiseKeypair {
    pub sending: NoiseSymmetricKey,
    pub receiving: NoiseSymmetricKey,
    pub sending_counter: u64,
    pub receiving_counter: NoiseReplayCounter,
    pub remote_index: u32,
    pub i_am_the_initiator: bool,
}

/// The key that one side sends with: the initiator has the first.
pub open spec fn sending_key(ck: Seq<u8>, initiator: bool) -> Seq<u8> {
    if initiator {
        kdf1(ck, Seq::empty())
    } else {
        kdf2(ck, Seq::empty())
    }
}

/// The key that one side receives with.
pub open spec fn receiving_key(ck: Seq<u8>, initiator: bool) -> Seq<u8> {
    sending_key(ck, !initiator)
}

/// Derives the keys of a session from the end of a handshake.
pub fn derive_keypair(
    chaining_key: &[u8; 32],
    remote_index: u32,
    i_am_the_initiator: bool,
    now_ms: u64,
) -> (r: NoiseKeypair)
    ensures
        r.sending.key@ == sending_key(chaining_key@, i_am_the_initiator),
        r.receiving.key@ == receiving_key(chaining_key@, i_am_the_initiator),
        r.sending.is_valid && r.receiving.is_valid,
        r.sending.birth_ms == now_ms && r.receiving.birth_ms == now_ms,
        r.sending_counter == 0,
        r.remote_index == remote_index,
        r.i_am_the_initiator == i_am_the_initiator,
        replay_wf(r.receiving_counter),
        forall|n: int|
            n >= 0 ==> !#[trigger] crate::net::wireguard::replay::taken(r.receiving_counter, n),
        r.receiving_counter.counter == 0,
{
    let none: Vec<u8> = Vec::new();
    assert(none@ =~= Seq::<u8>::empty());
    let (first, second, _) = kdf(chaining_key, none.as_slice(), 2);
    let first_key = NoiseSymmetricKey { key: first, birth_ms: now_ms, is_valid: true };
    let second_key = NoiseSymmetricKey { key: second, birth_ms: now_ms, is_valid: true };
    let (sending, receiving) = if i_am_the_initiator {
        (first_key, second_key)
    } else {
        (second_key, first_key)
    };
    NoiseKeypair {
        sending,
        receiving,
        sending_counter: 0,
        receiving_counter: NoiseReplayCounter::new(),
        remote_index,
        i_am_the_initiator,
    }
}

impl NoiseKeypair {
    /// Takes the next counter to send with. There is none once the key is not
    /// valid or used up.
    pub fn next_sending_counter(&mut self) -> (r: Option<u64>)
        ensures
            match r {
                Some(n) => old(self).sending.is_valid && old(self).sending_counter
                    < REJECT_AFTER_MESSAGES && n == old(self).sending_counter && *final(self) == (
                NoiseKeypair { sending_counter: (n + 1) as u64, ..*old(self) }),
                None => (!old(self).sending.is_valid || old(self).sending_counter
                    >= REJECT_AFTER_MESSAGES) && *final(self) == *old(self),
            },
    {
        if !self.sending.is_valid || self.sending_counter >= REJECT_AFTER_MESSAGES {
            return None;
        }
        let counter: u64 = self.sending_counter;
        self.sending_counter = counter + 1;
        Some(counter)
    }

    /// Tells whether it is time for a new handshake.
    pub fn needs_rekey(&self) -> (r: bool)
        ensures
            r == (self.sending_counter > REKEY_AFTER_MESSAGES),
    {
        self.sending_counter > REKEY_AFTER_MESSAGES
    }
}

/// What one side sends with, the other receives with.
pub proof fn law_keys_mirror_each_other(ck: Seq<u8>, initiator: bool)
    ensures
        sending_key(ck, initiator) == receiving_key(ck, !initiator),
        receiving_key(ck, initiator) == sending_key(ck, !initiator),
{
}

} // verus!
