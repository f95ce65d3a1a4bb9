//! The cryptographic functions that tunnels rest on. What they compute is left
//! to the crates that provide them: here each result has a name.

use blake2::digest::consts::U16;
use blake2::digest::{FixedOutput, Update};
use blake2::{Blake2s256, Blake2sMac, Digest};
use chacha20poly1305::aead::{AeadInPlace, KeyInit};
use chacha20poly1305::{ChaCha20Poly1305, Key, Nonce, Tag};
use vstd::prelude::*;
use x25519_dalek::{PublicKey, StaticSecret};

verus! {

/// The longest text that the cipher takes: as many blocks as its counter leaves
/// after the first.
pub const CIPHER_MAX_LEN: u64 = 274_877_906_816;

/// From this length on the cipher refuses a text.
pub const CIPHER_REFUSED_LEN: u64 = 274_877_906_880;

/// The cipher answers on a text of this length: it takes the text, or refuses it.
/// Between the two lengths its counter runs out.
pub open spec fn cipher_answers(len: int) -> bool {
    len <= CIPHER_MAX_LEN || len >= CIPHER_REFUSED_LEN
}

/// The BLAKE2s digest of 32 bytes.
pub uninterp spec fn blake2s_256(data: Seq<u8>) -> Seq<u8>;

/// The keyed BLAKE2s digest of 16 bytes.
pub uninterp spec fn blake2s_mac_128(key: Seq<u8>, data: Seq<u8>) -> Seq<u8>;

/// ChaCha20-Poly1305: the encrypted text, and its tag.
pub uninterp spec fn chacha_sealed(
    key: Seq<u8>,
    nonce: Seq<u8>,
    ad: Seq<u8>,
    text: Seq<u8>,
) -> (Seq<u8>, Seq<u8>);

/// ChaCha20-Poly1305: the decrypted text, if the tag fits.
pub uninterp spec fn chacha_opened(
    key: Seq<u8>,
    nonce: Seq<u8>,
    ad: Seq<u8>,
    text: Seq<u8>,
    tag: Seq<u8>,
) -> Option<Seq<u8>>;

/// The public key of a private key.
pub uninterp spec fn x25519_public(private: Seq<u8>) -> Seq<u8>;

/// The secret that a private and a public key share.
pub uninterp spec fn x25519_shared(private: Seq<u8>, public: Seq<u8>) -> Seq<u8>;

pub open spec fn text_view(r: Option<Vec<u8>>) -> Option<Seq<u8>> {
    match r {
        Some(v) => Some(v@),
        None => None,
    }
}

/// An encrypted text, followed by its tag.
pub open spec fn joined(s: (Seq<u8>, Seq<u8>)) -> Seq<u8> {
    s.0 + s.1
}

pub open spec fn sealed_view(r: Option<(Vec<u8>, [u8; 16])>) -> Option<(Seq<u8>, Seq<u8>)> {
    match r {
        Some(s) => Some((s.0@, s.1@)),
        None => None,
    }
}

/// `blake2::Blake2s256`, by `Digest::digest`: the digest is a function of the
/// bytes alone.
#[verifier::external_body]
pub(crate) fn blake2s_digest(data: &[u8]) -> (r: [u8; 32])
    ensures
        r@ == blake2s_256(data@),
{
    Blake2s256::digest(data).into()
}

/// `blake2::Blake2sMac` with an output of 16 bytes, made from a key, fed the
/// bytes and finished: the result is a function of the key and the bytes alone.
/// The key has the length that the crate asks for, so that making it does not
/// fail.
#[verifier::external_body]
pub(crate) fn blake2s_mac(key: &[u8; 32], data: &[u8]) -> (r: [u8; 16])
    ensures
        r@ == blake2s_mac_128(key@, data@),
{
    let mut mac = <Blake2sMac<U16> as blake2::digest::KeyInit>::new_from_slice(key).unwrap();
    Update::update(&mut mac, data);
    FixedOutput::finalize_fixed(mac).into()
}

/// `chacha20poly1305::ChaCha20Poly1305::encrypt_in_place_detached`. The result
/// is a function of the arguments alone; the encrypted text is as long as the
/// text. The call succeeds on every text that is not longer than the cipher's
/// counter allows, and fails on one that is longer by a block or more.
#[verifier::external_body]
pub(crate) fn chacha_seal(key: &[u8; 32], nonce: &[u8; 12], ad: &[u8], text: &[u8]) -> (r: Option<
    (Vec<u8>, [u8; 16]),
>)
    requires
        cipher_answers(text@.len() as int),
    ensures
        sealed_view(r) == if text@.len() <= CIPHER_MAX_LEN {
            Some(chacha_sealed(key@, nonce@, ad@, text@))
        } else {
            None
        },
        r matches Some(s) ==> s.0@.len() == text@.len(),
{
    let cipher = ChaCha20Poly1305::new(Key::from_slice(key));
    let mut out = text.to_vec();
    match cipher.encrypt_in_place_detached(Nonce::from_slice(nonce), ad, &mut out) {
        Ok(tag) => Some((out, tag.into())),
        Err(_) => None,
    }
}

/// `chacha20poly1305::ChaCha20Poly1305::decrypt_in_place_detached`. The result
/// is a function of the arguments alone; a decrypted text is as long as the
/// encrypted one. What was encrypted with the same key, nonce and associated
/// data, and is followed by its tag, is given back. The call fails on a text
/// that is longer than the cipher's counter allows by a block or more. Nothing is
/// said of texts that were not encrypted so: that they are refused is a matter of
/// probability.
#[verifier::external_body]
pub(crate) fn chacha_open(
    key: &[u8; 32],
    nonce: &[u8; 12],
    ad: &[u8],
    text: &[u8],
    tag: &[u8; 16],
) -> (r: Option<Vec<u8>>)
    requires
        cipher_answers(text@.len() as int),
    ensures
        text_view(r) == if text@.len() <= CIPHER_MAX_LEN {
            chacha_opened(key@, nonce@, ad@, text@, tag@)
        } else {
            None
        },
        r matches Some(p) ==> p@.len() == text@.len(),
        forall|t: Seq<u8>|
            t.len() == text@.len() <= CIPHER_MAX_LEN && joined(
                #[trigger] chacha_sealed(key@, nonce@, ad@, t),
            ) == text@ + tag@ ==> text_view(r) == Some(t),
{
    let cipher = ChaCha20Poly1305::new(Key::from_slice(key));
    let mut out = text.to_vec();
    let tag = Tag::from_slice(tag);
    match cipher.decrypt_in_place_detached(Nonce::from_slice(nonce), ad, &mut out, tag) {
        Ok(()) => Some(out),
        Err(_) => None,
    }
}

/// `x25519_dalek::PublicKey::from` on a `StaticSecret`: the public key is a
/// function of the private one.
#[verifier::external_body]
pub(crate) fn dh_public(private: [u8; 32]) -> (r: [u8; 32])
    ensures
        r@ == x25519_public(private@),
{
    PublicKey::from(&StaticSecret::from(private)).to_bytes()
}

/// `x25519_dalek::StaticSecret::diffie_hellman`: the shared secret is a function
/// of the two keys. If the public key was made from a private key, the owner of
/// that key shares the same secret with the public key of this one.
#[verifier::external_body]
pub(crate) fn dh_shared(private: [u8; 32], public: [u8; 32]) -> (r: [u8; 32])
    ensures
        r@ == x25519_shared(private@, public@),
        forall|p: Seq<u8>|
            p.len() == 32 && public@ == #[trigger] x25519_public(p) ==> r@ == x25519_shared(
                p,
                x25519_public(private@),
            ),
{
    StaticSecret::from(private).diffie_hellman(&PublicKey::from(public)).to_bytes()
}

} // verus!
