//! Packets of a tunnel as bytes.

use vstd::prelude::*;
use crate::bytes::{
    be32, be32_bytes, be64_bytes, le32, le32_bytes, le64, le64_bytes, lemma_be32_inverse,
    lemma_le32_inverse,
    lemma_le64_inverse, lemma_le_local, put_be32, put_be64, put_le32, put_le64, read_le32,
    read_le64,
};
use crate::net::wireguard::primitives::{blake2s_mac, blake2s_mac_128};
use crate::text::{append_bytes, append_zeros, copy_range};

verus! {

pub const NOISE_AUTHTAG_LEN: usize = 16;
pub const MESSAGE_DATA_HEADER_LEN: usize = 16;
pub const MESSAGE_DATA_MIN_LEN: usize = 32;
pub const MESSAGE_HANDSHAKE_INITIATION_LEN: usize = 148;
pub const MESSAGE_HANDSHAKE_RESPONSE_LEN: usize = 92;
pub const MESSAGE_HANDSHAKE_COOKIE_LEN: usize = 64;
pub const TAI64_EPOCH_OFFSET: u64 = 0x4000_0000_0000_000a;

const INITIATION: u32 = 1;
const RESPONSE: u32 = 2;
const COOKIE: u32 = 3;
const DATA: u32 = 4;

#[derive(Clone, Copy, PartialEq, Eq, Structural)]
pub enum WireguardMessageType {
    HandshakeInitiation,
    HandshakeResponse,
    HandshakeCookie,
    Data,
}

/// The type of a packet: a number, and the length that goes with it.
pub open spec fn type_of(p: Seq<u8>) -> Option<WireguardMessageType> {
    if p.len() < 4 {
        None
    } else if le32(p, 0) == 1 && p.len() == 148 {
        Some(WireguardMessageType::HandshakeInitiation)
    } else if le32(p, 0) == 2 && p.len() == 92 {
        Some(WireguardMessageType::HandshakeResponse)
    } else if le32(p, 0) == 3 && p.len() == 64 {
        Some(WireguardMessageType::HandshakeCookie)
    } else if le32(p, 0) == 4 && p.len() >= 32 {
        Some(WireguardMessageType::Data)
    } else {
        None
    }
}

/// Tells the type of a packet.
pub fn message_type(packet: &[u8]) -> (r: Option<WireguardMessageType>)
    ensures
        r == type_of(packet@),
{
    if packet.len() < 4 {
        return None;
    }
    let kind: u32 = read_le32(packet, 0);
    if kind == INITIATION && packet.len() == MESSAGE_HANDSHAKE_INITIATION_LEN {
        Some(WireguardMessageType::HandshakeInitiation)
    } else if kind == RESPONSE && packet.len() == MESSAGE_HANDSHAKE_RESPONSE_LEN {
        Some(WireguardMessageType::HandshakeResponse)
    } else if kind == COOKIE && packet.len() == MESSAGE_HANDSHAKE_COOKIE_LEN {
        Some(WireguardMessageType::HandshakeCookie)
    } else if kind == DATA && packet.len() >= MESSAGE_DATA_MIN_LEN {
        Some(WireguardMessageType::Data)
    } else {
        None
    }
}

/// Copies `N` bytes out of a packet.
pub fn read_array<const N: usize>(packet: &[u8], start: usize) -> (r: Option<[u8; N]>)
    ensures
        match r {
            Some(a) => start + N <= packet@.len() && a@ == packet@.subrange(
                start as int,
                start + N,
            ),
            None => start + N > packet@.len(),
        },
{
    if start > packet.len() || packet.len() - start < N {
        return None;
    }
    let mut out: [u8; N] = [0;N];
    let mut i: usize = 0;
    while i < N
        invariant
            i <= N,
            start + N <= packet@.len(),
            packet@.len() <= usize::MAX,
            forall|j: int| 0 <= j < i ==> out@[j] == packet@[start + j],
        decreases N - i,
    {
        out[i] = packet[start + i];
        i += 1;
    }
    assert(out@ =~= packet@.subrange(start as int, start + N));
    Some(out)
}

/// Makes an array of as many bytes.
pub fn vec_to_array<const N: usize>(data: &Vec<u8>) -> (r: Option<[u8; N]>)
    ensures
        match r {
            Some(a) => a@ == data@,
            None => data@.len() != N,
        },
{
    if data.len() != N {
        return None;
    }
    let r = read_array::<N>(data.as_slice(), 0);
    assert(data@.subrange(0, N as int) =~= data@);
    r
}

// ---------------------------------------------------------------------------
// Handshakes.
// ---------------------------------------------------------------------------

/// The packet that starts a handshake.
#[derive(Clone, Copy)]
pub struct HandshakeInitiation {
    pub sender_index: u32,
    pub unencrypted_ephemeral: [u8; 32],
    pub encrypted_static: [u8; 48],
    pub encrypted_timestamp: [u8; 28],
    pub mac1: [u8; 16],
    pub mac2: [u8; 16],
}

#[verifier::ext_equal]
pub struct InitiationView {
    pub sender_index: u32,
    pub ephemeral: Seq<u8>,
    pub enc_static: Seq<u8>,
    pub enc_timestamp: Seq<u8>,
    pub mac1: Seq<u8>,
    pub mac2: Seq<u8>,
}

impl View for HandshakeInitiation {
    type V = InitiationView;

    open spec fn view(&self) -> InitiationView {
        InitiationView {
            sender_index: self.sender_index,
            ephemeral: self.unencrypted_ephemeral@,
            enc_static: self.encrypted_static@,
            enc_timestamp: self.encrypted_timestamp@,
            mac1: self.mac1@,
            mac2: self.mac2@,
        }
    }
}

/// The packet that answers it.
#[derive(Clone, Copy)]
pub struct HandshakeResponse {
    pub sender_index: u32,
    pub receiver_index: u32,
    pub unencrypted_ephemeral: [u8; 32],
    pub encrypted_nothing: [u8; 16],
    pub mac1: [u8; 16],
    pub mac2: [u8; 16],
}

#[verifier::ext_equal]
pub struct ResponseView {
    pub sender_index: u32,
    pub receiver_index: u32,
    pub ephemeral: Seq<u8>,
    pub enc_nothing: Seq<u8>,
    pub mac1: Seq<u8>,
    pub mac2: Seq<u8>,
}

impl View for HandshakeResponse {
    type V = ResponseView;

    open spec fn view(&self) -> ResponseView {
        ResponseView {
            sender_index: self.sender_index,
            receiver_index: self.receiver_index,
            ephemeral: self.unencrypted_ephemeral@,
            enc_nothing: self.encrypted_nothing@,
            mac1: self.mac1@,
            mac2: self.mac2@,
        }
    }
}

/// The packet that asks for a proof of address.
#[derive(Clone, Copy)]
pub struct HandshakeCookie {
    pub receiver_index: u32,
    pub nonce: [u8; 24],
    pub encrypted_cookie: [u8; 32],
}

#[verifier::ext_equal]
pub struct CookieView {
    pub receiver_index: u32,
    pub nonce: Seq<u8>,
    pub enc_cookie: Seq<u8>,
}

impl View for HandshakeCookie {
    type V = CookieView;

    open spec fn view(&self) -> CookieView {
        CookieView {
            receiver_index: self.receiver_index,
            nonce: self.nonce@,
            enc_cookie: self.encrypted_cookie@,
        }
    }
}

/// The fields of an initiation, at their places.
pub open spec fn initiation_in(p: Seq<u8>) -> Option<InitiationView> {
    if type_of(p) != Some(WireguardMessageType::HandshakeInitiation) {
        None
    } else {
        Some(
            InitiationView {
                sender_index: le32(p, 4) as u32,
                ephemeral: p.subrange(8, 40),
                enc_static: p.subrange(40, 88),
                enc_timestamp: p.subrange(88, 116),
                mac1: p.subrange(116, 132),
                mac2: p.subrange(132, 148),
            },
        )
    }
}

/// The fields of a response, at their places.
pub open spec fn response_in(p: Seq<u8>) -> Option<ResponseView> {
    if type_of(p) != Some(WireguardMessageType::HandshakeResponse) {
        None
    } else {
        Some(
            ResponseView {
                sender_index: le32(p, 4) as u32,
                receiver_index: le32(p, 8) as u32,
                ephemeral: p.subrange(12, 44),
                enc_nothing: p.subrange(44, 60),
                mac1: p.subrange(60, 76),
                mac2: p.subrange(76, 92),
            },
        )
    }
}

/// The fields of a cookie, at their places.
pub open spec fn cookie_in(p: Seq<u8>) -> Option<CookieView> {
    if type_of(p) != Some(WireguardMessageType::HandshakeCookie) {
        None
    } else {
        Some(
            CookieView {
                receiver_index: le32(p, 4) as u32,
                nonce: p.subrange(8, 32),
                enc_cookie: p.subrange(32, 64),
            },
        )
    }
}

pub open spec fn initiation_view(r: Option<HandshakeInitiation>) -> Option<InitiationView> {
    match r {
        Some(m) => Some(m@),
        None => None,
    }
}

pub open spec fn response_view(r: Option<HandshakeResponse>) -> Option<ResponseView> {
    match r {
        Some(m) => Some(m@),
        None => None,
    }
}

pub open spec fn cookie_view(r: Option<HandshakeCookie>) -> Option<CookieView> {
    match r {
        Some(m) => Some(m@),
        None => None,
    }
}

pub fn parse_handshake_initiation(packet: &[u8]) -> (r: Option<HandshakeInitiation>)
    ensures
        initiation_view(r) == initiation_in(packet@),
{
    match message_type(packet) {
        Some(WireguardMessageType::HandshakeInitiation) => {},
        _ => {
            return None;
        },
    }
    let r = match (
        read_array::<32>(packet, 8),
        read_array::<48>(packet, 40),
        read_array::<28>(packet, 88),
        read_array::<16>(packet, 116),
        read_array::<16>(packet, 132),
    ) {
        (Some(e), Some(s), Some(t), Some(m1), Some(m2)) => Some(
            HandshakeInitiation {
                sender_index: read_le32(packet, 4),
                unencrypted_ephemeral: e,
                encrypted_static: s,
                encrypted_timestamp: t,
                mac1: m1,
                mac2: m2,
            },
        ),
        _ => None,
    };
    assert(initiation_view(r)->0 =~= initiation_in(packet@)->0);
    r
}

pub fn parse_handshake_response(packet: &[u8]) -> (r: Option<HandshakeResponse>)
    ensures
        response_view(r) == response_in(packet@),
{
    match message_type(packet) {
        Some(WireguardMessageType::HandshakeResponse) => {},
        _ => {
            return None;
        },
    }
    let r = match (
        read_array::<32>(packet, 12),
        read_array::<16>(packet, 44),
        read_array::<16>(packet, 60),
        read_array::<16>(packet, 76),
    ) {
        (Some(e), Some(n), Some(m1), Some(m2)) => Some(
            HandshakeResponse {
                sender_index: read_le32(packet, 4),
                receiver_index: read_le32(packet, 8),
                unencrypted_ephemeral: e,
                encrypted_nothing: n,
                mac1: m1,
                mac2: m2,
            },
        ),
        _ => None,
    };
    assert(response_view(r)->0 =~= response_in(packet@)->0);
    r
}

pub fn parse_handshake_cookie(packet: &[u8]) -> (r: Option<HandshakeCookie>)
    ensures
        cookie_view(r) == cookie_in(packet@),
{
    match message_type(packet) {
        Some(WireguardMessageType::HandshakeCookie) => {},
        _ => {
            return None;
        },
    }
    let r = match (read_array::<24>(packet, 8), read_array::<32>(packet, 32)) {
        (Some(n), Some(c)) => Some(
            HandshakeCookie {
                receiver_index: read_le32(packet, 4),
                nonce: n,
                encrypted_cookie: c,
            },
        ),
        _ => None,
    };
    assert(cookie_view(r)->0 =~= cookie_in(packet@)->0);
    r
}

proof fn lemma_number_at(p: Seq<u8>, o: int, x: u32)
    requires
        0 <= o,
        o + 4 <= p.len(),
        p.subrange(o, o + 4) == le32_bytes(x),
    ensures
        le32(p, o) == x,
{
    lemma_le32_inverse(x);
    let b = le32_bytes(x);
    assert(p[o] == b[0] && p[o + 1] == b[1] && p[o + 2] == b[2] && p[o + 3] == b[3]) by {
        assert(p.subrange(o, o + 4)[0] == p[o]);
        assert(p.subrange(o, o + 4)[1] == p[o + 1]);
        assert(p.subrange(o, o + 4)[2] == p[o + 2]);
        assert(p.subrange(o, o + 4)[3] == p[o + 3]);
    }
}

/// Builds an initiation: the packet that is read as the message.
pub fn build_handshake_initiation(msg: &HandshakeInitiation) -> (r: Vec<u8>)
    ensures
        initiation_in(r@) == Some(msg@),
{
    let mut packet: Vec<u8> = Vec::new();
    put_le32(&mut packet, INITIATION);
    let ghost a = packet@;
    put_le32(&mut packet, msg.sender_index);
    let ghost b = packet@;
    append_bytes(&mut packet, msg.unencrypted_ephemeral.as_slice());
    let ghost c = packet@;
    append_bytes(&mut packet, msg.encrypted_static.as_slice());
    let ghost d = packet@;
    append_bytes(&mut packet, msg.encrypted_timestamp.as_slice());
    let ghost e = packet@;
    append_bytes(&mut packet, msg.mac1.as_slice());
    let ghost f = packet@;
    append_bytes(&mut packet, msg.mac2.as_slice());
    proof {
        let p = packet@;
        assert(p.len() == 148);
        assert(p.take(132) =~= f && f.take(116) =~= e && e.take(88) =~= d && d.take(40) =~= c
            && c.take(8) =~= b && b.take(4) =~= a);
        assert(a =~= le32_bytes(INITIATION));
        assert(p.subrange(0, 4) =~= le32_bytes(INITIATION));
        assert(b.subrange(4, 8) =~= le32_bytes(msg.sender_index));
        assert(p.subrange(4, 8) =~= b.subrange(4, 8));
        lemma_number_at(p, 0, INITIATION);
        lemma_number_at(p, 4, msg.sender_index);
        assert(p.subrange(8, 40) =~= msg.unencrypted_ephemeral@);
        assert(p.subrange(40, 88) =~= msg.encrypted_static@);
        assert(p.subrange(88, 116) =~= msg.encrypted_timestamp@);
        assert(p.subrange(116, 132) =~= msg.mac1@);
        assert(p.subrange(132, 148) =~= msg.mac2@);
    }
    packet
}

/// Builds a response: the packet that is read as the message.
pub fn build_handshake_response(msg: &HandshakeResponse) -> (r: Vec<u8>)
    ensures
        response_in(r@) == Some(msg@),
{
    let mut packet: Vec<u8> = Vec::new();
    put_le32(&mut packet, RESPONSE);
    let ghost a = packet@;
    put_le32(&mut packet, msg.sender_index);
    let ghost b = packet@;
    put_le32(&mut packet, msg.receiver_index);
    let ghost c = packet@;
    append_bytes(&mut packet, msg.unencrypted_ephemeral.as_slice());
    let ghost d = packet@;
    append_bytes(&mut packet, msg.encrypted_nothing.as_slice());
    let ghost e = packet@;
    append_bytes(&mut packet, msg.mac1.as_slice());
    let ghost f = packet@;
    append_bytes(&mut packet, msg.mac2.as_slice());
    proof {
        let p = packet@;
        assert(p.len() == 92);
        assert(p.take(76) =~= f && f.take(60) =~= e && e.take(44) =~= d && d.take(12) =~= c
            && c.take(8) =~= b && b.take(4) =~= a);
        assert(a =~= le32_bytes(RESPONSE));
        assert(p.subrange(0, 4) =~= le32_bytes(RESPONSE));
        assert(b.subrange(4, 8) =~= le32_bytes(msg.sender_index));
        assert(p.subrange(4, 8) =~= b.subrange(4, 8));
        assert(c.subrange(8, 12) =~= le32_bytes(msg.receiver_index));
        assert(p.subrange(8, 12) =~= c.subrange(8, 12));
        lemma_number_at(p, 0, RESPONSE);
        lemma_number_at(p, 4, msg.sender_index);
        lemma_number_at(p, 8, msg.receiver_index);
        assert(p.subrange(12, 44) =~= msg.unencrypted_ephemeral@);
        assert(p.subrange(44, 60) =~= msg.encrypted_nothing@);
        assert(p.subrange(60, 76) =~= msg.mac1@);
        assert(p.subrange(76, 92) =~= msg.mac2@);
    }
    packet
}

/// Builds a cookie: the packet that is read as the message.
pub fn build_handshake_cookie(msg: &HandshakeCookie) -> (r: Vec<u8>)
    ensures
        cookie_in(r@) == Some(msg@),
{
    let mut packet: Vec<u8> = Vec::new();
    put_le32(&mut packet, COOKIE);
    let ghost a = packet@;
    put_le32(&mut packet, msg.receiver_index);
    let ghost b = packet@;
    append_bytes(&mut packet, msg.nonce.as_slice());
    let ghost c = packet@;
    append_bytes(&mut packet, msg.encrypted_cookie.as_slice());
    proof {
        let p = packet@;
        assert(p.len() == 64);
        assert(p.take(32) =~= c && c.take(8) =~= b && b.take(4) =~= a);
        assert(a =~= le32_bytes(COOKIE));
        assert(p.subrange(0, 4) =~= le32_bytes(COOKIE));
        assert(b.subrange(4, 8) =~= le32_bytes(msg.receiver_index));
        assert(p.subrange(4, 8) =~= b.subrange(4, 8));
        lemma_number_at(p, 0, COOKIE);
        lemma_number_at(p, 4, msg.receiver_index);
        assert(p.subrange(8, 32) =~= msg.nonce@);
        assert(p.subrange(32, 64) =~= msg.encrypted_cookie@);
    }
    packet
}

// ---------------------------------------------------------------------------
// Authentication of handshakes.
// ---------------------------------------------------------------------------

/// Where the two authentication fields of a handshake stand.
pub open spec fn mac_places(p: Seq<u8>) -> Option<(int, int)> {
    match type_of(p) {
        Some(WireguardMessageType::HandshakeInitiation) => Some((116, 132)),
        Some(WireguardMessageType::HandshakeResponse) => Some((60, 76)),
        _ => None,
    }
}

/// The first authentication field: it covers everything in front of it.
pub open spec fn mac1_of(p: Seq<u8>, key: Seq<u8>) -> Option<Seq<u8>> {
    match mac_places(p) {
        Some((a, _)) => Some(blake2s_mac_128(key, p.take(a))),
        None => None,
    }
}

/// A handshake with the right first authentication field.
pub open spec fn mac1_fits(p: Seq<u8>, key: Seq<u8>) -> bool {
    match mac_places(p) {
        Some((a, _)) => p.subrange(a, a + 16) == blake2s_mac_128(key, p.take(a)),
        None => false,
    }
}

pub open spec fn array_of(r: Option<[u8; 16]>) -> Option<Seq<u8>> {
    match r {
        Some(a) => Some(a@),
        None => None,
    }
}

fn handshake_mac_offsets(packet: &[u8]) -> (r: Option<(usize, usize)>)
    ensures
        match r {
            Some((a, b)) => mac_places(packet@) == Some((a as int, b as int)) && b == a + 16 && b
                + 16 == packet@.len(),
            None => mac_places(packet@) is None,
        },
{
    match message_type(packet) {
        Some(WireguardMessageType::HandshakeInitiation) => Some((116, 132)),
        Some(WireguardMessageType::HandshakeResponse) => Some((60, 76)),
        _ => None,
    }
}

/// Computes the first authentication field of a handshake.
pub fn compute_mac1(packet: &[u8], mac1_key: &[u8; 32]) -> (r: Option<[u8; 16]>)
    ensures
        array_of(r) == mac1_of(packet@, mac1_key@),
{
    match handshake_mac_offsets(packet) {
        None => None,
        Some((a, _)) => {
            let head = copy_range(packet, 0, a);
            assert(head@ =~= packet@.take(a as int));
            Some(blake2s_mac(mac1_key, head.as_slice()))
        },
    }
}

/// Compares two texts, in a time that does not depend on where they differ.
pub fn constant_time_eq(left: &[u8], right: &[u8]) -> (r: bool)
    ensures
        r == (left@ == right@),
{
    if left.len() != right.len() {
        return false;
    }
    let mut acc: u8 = 0;
    let mut i: usize = 0;
    while i < left.len()
        invariant
            i <= left@.len(),
            left@.len() == right@.len(),
            acc == 0 <==> forall|j: int| 0 <= j < i ==> left@[j] == right@[j],
        decreases left@.len() - i,
    {
        let a: u8 = left[i];
        let b: u8 = right[i];
        assert((acc | (a ^ b)) == 0 <==> (acc == 0 && a == b)) by (bit_vector);
        acc = acc | (a ^ b);
        i += 1;
    }
    assert(acc == 0 <==> left@ =~= right@);
    acc == 0
}

/// Tells whether the first authentication field of a handshake is right.
pub fn validate_mac1(packet: &[u8], mac1_key: &[u8; 32]) -> (r: bool)
    ensures
        r == mac1_fits(packet@, mac1_key@),
{
    let (a, _) = match handshake_mac_offsets(packet) {
        Some(o) => o,
        None => {
            return false;
        },
    };
    match compute_mac1(packet, mac1_key) {
        None => false,
        Some(expected) => {
            let actual = copy_range(packet, a, a + 16);
            assert(actual@ =~= packet@.subrange(a as int, a + 16));
            constant_time_eq(expected.as_slice(), actual.as_slice())
        },
    }
}

/// A handshake with its authentication fields filled in: the second one is
/// empty.
pub open spec fn with_mac1(p: Seq<u8>, a: int, mac: Seq<u8>) -> Seq<u8> {
    Seq::new(
        p.len(),
        |i: int|
            if a <= i < a + 16 {
                mac[i - a]
            } else if a + 16 <= i < a + 32 {
                0u8
            } else {
                p[i]
            },
    )
}

/// Fills in the first authentication field of a handshake and empties the second
/// one. A packet of another type stays as it is.
pub fn apply_mac1(packet: &mut Vec<u8>, mac1_key: &[u8; 32]) -> (r: Option<[u8; 16]>)
    ensures
        array_of(r) == mac1_of(old(packet)@, mac1_key@),
        match mac_places(old(packet)@) {
            None => final(packet)@ == old(packet)@,
            Some((a, _)) => final(packet)@ == with_mac1(
                old(packet)@,
                a,
                mac1_of(old(packet)@, mac1_key@)->0,
            ) && mac1_fits(final(packet)@, mac1_key@),
        },
{
    let ghost p0 = packet@;
    let (a, b) = match handshake_mac_offsets(packet.as_slice()) {
        Some(o) => o,
        None => {
            return None;
        },
    };
    let mac1: [u8; 16] = match compute_mac1(packet.as_slice(), mac1_key) {
        Some(m) => m,
        None => {
            return None;
        },
    };
    let mut i: usize = 0;
    while i < 16
        invariant
            i <= 16,
            packet@.len() == p0.len(),
            a == 116 || a == 60,
            a + 32 == p0.len(),
            forall|j: int|
                0 <= j < p0.len() ==> packet@[j] == if a <= j < a + i {
                    mac1@[j - a]
                } else if a + 16 <= j < a + 16 + i {
                    0u8
                } else {
                    p0[j]
                },
        decreases 16 - i,
    {
        packet[a + i] = mac1[i];
        packet[a + 16 + i] = 0;
        i += 1;
    }
    proof {
        assert(packet@ =~= with_mac1(p0, a as int, mac1@));
        assert(packet@.take(a as int) =~= p0.take(a as int));
        assert(le32(packet@, 0) == le32(p0, 0));
        assert(packet@.subrange(a as int, a + 16) =~= mac1@);
    }
    Some(mac1)
}

// ---------------------------------------------------------------------------
// Data.
// ---------------------------------------------------------------------------

/// A packet that carries data.
pub struct WireguardDataPacket {
    pub key_idx: u32,
    pub counter: u64,
    pub encrypted_payload: Vec<u8>,
}

#[verifier::ext_equal]
pub struct DataView {
    pub key_idx: u32,
    pub counter: u64,
    pub payload: Seq<u8>,
}

impl View for WireguardDataPacket {
    type V = DataView;

    open spec fn view(&self) -> DataView {
        DataView {
            key_idx: self.key_idx,
            counter: self.counter,
            payload: self.encrypted_payload@,
        }
    }
}

pub open spec fn data_view(r: Option<WireguardDataPacket>) -> Option<DataView> {
    match r {
        Some(d) => Some(d@),
        None => None,
    }
}

/// The fields of a data packet, at their places.
pub open spec fn data_in(p: Seq<u8>) -> Option<DataView> {
    if type_of(p) != Some(WireguardMessageType::Data) {
        None
    } else {
        Some(
            DataView {
                key_idx: le32(p, 4) as u32,
                counter: le64(p, 8) as u64,
                payload: p.skip(16),
            },
        )
    }
}

pub fn parse_data_packet(packet: &[u8]) -> (r: Option<WireguardDataPacket>)
    ensures
        data_view(r) == data_in(packet@),
{
    match message_type(packet) {
        Some(WireguardMessageType::Data) => {},
        _ => {
            return None;
        },
    }
    let payload = copy_range(packet, 16, packet.len());
    assert(payload@ =~= packet@.skip(16));
    Some(
        WireguardDataPacket {
            key_idx: read_le32(packet, 4),
            counter: read_le64(packet, 8),
            encrypted_payload: payload,
        },
    )
}

/// A data packet as bytes.
pub open spec fn data_bytes(d: DataView) -> Seq<u8> {
    le32_bytes(4) + le32_bytes(d.key_idx) + le64_bytes(d.counter) + d.payload
}

/// Builds a data packet. The payload has its tag at the end.
pub fn build_data_packet(key_idx: u32, counter: u64, encrypted_payload: &[u8]) -> (r: Vec<u8>)
    ensures
        r@ == data_bytes(DataView { key_idx, counter, payload: encrypted_payload@ }),
        encrypted_payload@.len() >= 16 ==> data_in(r@) == Some(
            DataView { key_idx, counter, payload: encrypted_payload@ },
        ),
{
    let mut packet: Vec<u8> = Vec::new();
    put_le32(&mut packet, DATA);
    put_le32(&mut packet, key_idx);
    put_le64(&mut packet, counter);
    append_bytes(&mut packet, encrypted_payload);
    proof {
        let d = DataView { key_idx, counter, payload: encrypted_payload@ };
        assert(packet@ =~= data_bytes(d));
        if encrypted_payload@.len() >= 16 {
            law_data_packets_read_back(d);
        }
    }
    packet
}

/// A data packet is read as what it was built of.
pub proof fn law_data_packets_read_back(d: DataView)
    requires
        d.payload.len() >= 16,
    ensures
        data_in(data_bytes(d)) == Some(d),
{
    let p = data_bytes(d);
    let n = le64_bytes(d.counter);
    assert(p.subrange(0, 4) =~= le32_bytes(4));
    assert(p.subrange(4, 8) =~= le32_bytes(d.key_idx));
    lemma_number_at(p, 0, 4);
    lemma_number_at(p, 4, d.key_idx);
    lemma_le64_inverse(d.counter);
    assert(p.subrange(8, 16) =~= n.subrange(0, 8));
    lemma_le_local(p, n, 8, 0, 8);
    assert(p.skip(16) =~= d.payload);
}

/// The length after padding.
pub open spec fn padded_len(n: int) -> int {
    (n + 15) / 16 * 16
}

/// The length of a text after padding.
pub fn padded_data_len(plain_len: usize) -> (r: usize)
    requires
        plain_len <= usize::MAX - 15,
    ensures
        r == padded_len(plain_len as int),
        r % 16 == 0,
        plain_len <= r < plain_len + 16,
{
    (plain_len + 15) / 16 * 16
}

/// A text with zeros up to the next multiple of sixteen bytes.
pub open spec fn padded_text(s: Seq<u8>) -> Seq<u8> {
    Seq::new(
        padded_len(s.len() as int) as nat,
        |i: int|
            if i < s.len() {
                s[i]
            } else {
                0u8
            },
    )
}

/// Pads a text.
pub fn pad_data_plaintext(plaintext: &[u8]) -> (r: Vec<u8>)
    requires
        plaintext@.len() <= usize::MAX - 15,
    ensures
        r@ == padded_text(plaintext@),
        r@.len() % 16 == 0,
        r@.take(plaintext@.len() as int) == plaintext@,
{
    let n: usize = padded_data_len(plaintext.len());
    let mut padded = copy_range(plaintext, 0, plaintext.len());
    append_zeros(&mut padded, n - plaintext.len());
    assert(padded@ =~= padded_text(plaintext@));
    padded
}

/// The length of an encrypted text.
pub fn encrypted_len(plain_len: usize) -> (r: usize)
    ensures
        r == if plain_len + 16 > usize::MAX {
            usize::MAX as int
        } else {
            plain_len + 16
        },
{
    plain_len.saturating_add(NOISE_AUTHTAG_LEN)
}

/// The length of a data packet that carries a text: the header, the padded text,
/// and the tag.
pub fn message_data_len(plain_len: usize) -> (r: usize)
    ensures
        r == if 16 + padded_len(plain_len as int) + 16 > usize::MAX {
            usize::MAX as int
        } else {
            16 + padded_len(plain_len as int) + 16
        },
{
    if plain_len > usize::MAX - 15 {
        return usize::MAX;
    }
    MESSAGE_DATA_HEADER_LEN.saturating_add(encrypted_len(padded_data_len(plain_len)))
}

// ---------------------------------------------------------------------------
// Time and chance.
// ---------------------------------------------------------------------------

/// A time as twelve bytes: seconds from a fixed origin, then nanoseconds. Times
/// before the epoch count as the epoch.
pub open spec fn tai64n(sec: i64, nsec: i64) -> Seq<u8> {
    let s: int = if sec < 0 {
        0
    } else {
        sec as int
    };
    let n: int = if nsec < 0 {
        0
    } else {
        nsec as int
    };
    be64_bytes((TAI64_EPOCH_OFFSET + s) as u64) + be32_bytes((n % 0x1_0000_0000) as u32)
}

/// Writes the time of an initiation.
pub fn tai64n_at(sec: i64, nsec: i64) -> (r: [u8; 12])
    ensures
        r@ == tai64n(sec, nsec),
{
    let s: u64 = if sec < 0 {
        0
    } else {
        sec as u64
    };
    let n: u64 = if nsec < 0 {
        0
    } else {
        nsec as u64
    };
    let mut out: Vec<u8> = Vec::new();
    put_be64(&mut out, TAI64_EPOCH_OFFSET + s);
    put_be32(&mut out, (n % 0x1_0000_0000) as u32);
    assert(out@ =~= tai64n(sec, nsec));
    let mut a: [u8; 12] = [0;12];
    let mut i: usize = 0;
    while i < 12
        invariant
            i <= 12,
            out@.len() == 12,
            forall|j: int| 0 <= j < i ==> a@[j] == out@[j],
        decreases 12 - i,
    {
        a[i] = out[i];
        i += 1;
    }
    assert(a@ =~= out@);
    a
}

/// `a` comes before `b`: at the first place where they differ, it is smaller.
pub open spec fn before(a: Seq<u8>, b: Seq<u8>) -> bool {
    exists|i: int|
        0 <= i < a.len() && i < b.len() && a.take(i) == b.take(i) && #[trigger] a[i] < b[i]
}

/// Tells whether one time of an initiation comes before another.
pub fn time_before(a: &[u8; 12], b: &[u8; 12]) -> (r: bool)
    ensures
        r == before(a@, b@),
{
    let mut i: usize = 0;
    while i < 12
        invariant
            i <= 12,
            forall|j: int| 0 <= j < i ==> a@[j] == b@[j],
        decreases 12 - i,
    {
        if a[i] != b[i] {
            assert(a@.take(i as int) =~= b@.take(i as int));
            if !(a[i] < b[i]) {
                assert forall|k: int| 0 <= k < 12 && a@.take(k) == b@.take(k) implies !(
                #[trigger] a@[k] < b@[k]) by {
                    if k > i {
                        assert(a@.take(k)[i as int] == b@.take(k)[i as int]);
                    }
                }
            }
            return a[i] < b[i];
        }
        i += 1;
    }
    false
}

proof fn lemma_first_difference(a: Seq<u8>, b: Seq<u8>)
    requires
        a.len() == 4,
        b.len() == 4,
        be32(a, 0) < be32(b, 0),
    ensures
        before(a, b),
{
    if a[0] != b[0] {
        assert(a.take(0) =~= b.take(0));
        assert(a[0] < b[0]);
    } else if a[1] != b[1] {
        assert(a.take(1) =~= b.take(1));
        assert(a[1] < b[1]);
    } else if a[2] != b[2] {
        assert(a.take(2) =~= b.take(2));
        assert(a[2] < b[2]);
    } else {
        assert(a.take(3) =~= b.take(3));
        assert(a[3] < b[3]);
    }
}

proof fn lemma_be32_order(x: u32, y: u32)
    requires
        x < y,
    ensures
        before(be32_bytes(x), be32_bytes(y)),
{
    lemma_be32_inverse(x);
    lemma_be32_inverse(y);
    lemma_first_difference(be32_bytes(x), be32_bytes(y));
}

proof fn lemma_be64_order(x: u64, y: u64)
    requires
        x < y,
    ensures
        before(be64_bytes(x), be64_bytes(y)),
{
    let xh = (x / 0x1_0000_0000) as u32;
    let yh = (y / 0x1_0000_0000) as u32;
    let xl = (x % 0x1_0000_0000) as u32;
    let yl = (y % 0x1_0000_0000) as u32;
    assert(xh < yh || (xh == yh && xl < yl));
    if xh < yh {
        lemma_be32_order(xh, yh);
        lemma_before_extends(be32_bytes(xh), be32_bytes(yh), be32_bytes(xl), be32_bytes(yl));
    } else {
        lemma_be32_order(xl, yl);
        lemma_before_behind(be32_bytes(xh), be32_bytes(xl), be32_bytes(yl));
    }
}

proof fn lemma_before_extends(a: Seq<u8>, b: Seq<u8>, x: Seq<u8>, y: Seq<u8>)
    requires
        before(a, b),
        a.len() == b.len(),
    ensures
        before(a + x, b + y),
{
    let i = choose|i: int|
        0 <= i < a.len() && i < b.len() && a.take(i) == b.take(i) && #[trigger] a[i] < b[i];
    assert((a + x).take(i) =~= a.take(i));
    assert((b + y).take(i) =~= b.take(i));
    assert((a + x)[i] == a[i] && (b + y)[i] == b[i]);
}

proof fn lemma_before_behind(p: Seq<u8>, a: Seq<u8>, b: Seq<u8>)
    requires
        before(a, b),
    ensures
        before(p + a, p + b),
{
    let i = choose|i: int|
        0 <= i < a.len() && i < b.len() && a.take(i) == b.take(i) && #[trigger] a[i] < b[i];
    assert((p + a).take(p.len() + i) =~= p + a.take(i));
    assert((p + b).take(p.len() + i) =~= p + b.take(i));
    assert((p + a)[p.len() + i] == a[i] && (p + b)[p.len() + i] == b[i]);
}

/// A later time is written as a later one: an initiation that is made later is
/// never taken for a repeated one.
pub proof fn law_times_keep_their_order(s: i64, n: i64, t: i64, m: i64)
    requires
        0 <= s <= t,
        0 <= n < 1_000_000_000,
        0 <= m < 1_000_000_000,
        s < t || n < m,
    ensures
        before(tai64n(s, n), tai64n(t, m)),
{
    let x = (TAI64_EPOCH_OFFSET + s) as u64;
    let y = (TAI64_EPOCH_OFFSET + t) as u64;
    lemma_tai_parts(s, n);
    lemma_tai_parts(t, m);
    lemma_be64_len(x);
    lemma_be64_len(y);
    if s < t {
        lemma_be64_order(x, y);
    } else {
        lemma_be32_order(n as u32, m as u32);
    }
    lemma_before_joined(
        be64_bytes(x),
        be64_bytes(y),
        be32_bytes(n as u32),
        be32_bytes(m as u32),
    );
}

proof fn lemma_be64_len(x: u64)
    ensures
        be64_bytes(x).len() == 8,
{
}

proof fn lemma_tai_parts(s: i64, n: i64)
    requires
        0 <= s,
        0 <= n < 1_000_000_000,
    ensures
        tai64n(s, n) == be64_bytes((TAI64_EPOCH_OFFSET + s) as u64) + be32_bytes(n as u32),
{
    assert(n as int % 0x1_0000_0000 == n);
}

proof fn lemma_before_joined(a: Seq<u8>, b: Seq<u8>, u: Seq<u8>, v: Seq<u8>)
    requires
        a.len() == b.len(),
        before(a, b) || (a == b && before(u, v)),
    ensures
        before(a + u, b + v),
{
    if before(a, b) {
        lemma_before_extends(a, b, u, v);
    } else {
        lemma_before_behind(a, u, v);
    }
}

/// One step of the generator.
pub open spec fn rng_step(seed: u64) -> u64 {
    let a = seed ^ (seed >> 12);
    let b = a ^ (a << 25);
    let c = b ^ (b >> 27);
    c.wrapping_mul(0x2545_f491_4f6c_dd1d)
}

/// The seed after some steps.
pub open spec fn rng_after(seed: u64, n: nat) -> u64
    decreases n,
{
    if n == 0 {
        seed
    } else {
        rng_step(rng_after(seed, (n - 1) as nat))
    }
}

/// The bytes that a seed gives: the lowest byte of each step.
pub open spec fn rng_bytes(seed: u64, n: nat) -> Seq<u8> {
    Seq::new(n, |i: int| rng_after(seed, (i + 1) as nat) as u8)
}

/// The state at the start.
pub const RNG_START: u64 = 0x6d5a_56da_1b2c_3d4e;

/// Makes bytes out of a state and the time; the state moves on. They are for
/// short-lived keys of test setups only: nothing here is hard to guess.
pub fn random_bytes(state: &mut u64, now_ns: u64) -> (r: [u8; 32])
    ensures
        r@ == rng_bytes(*old(state) ^ now_ns, 32),
        *final(state) == rng_after(*old(state) ^ now_ns, 32),
{
    let start: u64 = *state ^ now_ns;
    let mut seed: u64 = start;
    let mut out: [u8; 32] = [0;32];
    let mut i: usize = 0;
    while i < 32
        invariant
            i <= 32,
            seed == rng_after(start, i as nat),
            forall|j: int| 0 <= j < i ==> out@[j] == rng_bytes(start, 32)[j],
        decreases 32 - i,
    {
        let a: u64 = seed ^ (seed >> 12);
        let b: u64 = a ^ (a << 25);
        let c: u64 = b ^ (b >> 27);
        seed = c.wrapping_mul(0x2545_f491_4f6c_dd1d);
        out[i] = seed as u8;
        i += 1;
    }
    assert(out@ =~= rng_bytes(start, 32));
    *state = seed;
    out
}

// ---------------------------------------------------------------------------
// Laws.
// ---------------------------------------------------------------------------

proof fn lemma_lowest_byte(x: u8, a: int, y: u8, b: int)
    requires
        x + 0x100 * a == y + 0x100 * b,
    ensures
        x == y,
        a == b,
{
}

proof fn lemma_four_bytes(p: Seq<u8>, q: Seq<u8>, o: int)
    requires
        0 <= o,
        o + 4 <= p.len(),
        o + 4 <= q.len(),
        le32(p, o) == le32(q, o),
    ensures
        forall|i: int| o <= i < o + 4 ==> p[i] == q[i],
{
    let (p1, q1) = (p[o + 1], q[o + 1]);
    let (p2, q2) = (p[o + 2], q[o + 2]);
    let (p3, q3) = (p[o + 3], q[o + 3]);
    lemma_lowest_byte(p[o], p1 + 0x100 * (p2 + 0x100 * p3), q[o], q1 + 0x100 * (q2 + 0x100 * q3));
    lemma_lowest_byte(p1, p2 + 0x100 * p3, q1, q2 + 0x100 * q3);
    lemma_lowest_byte(p2, p3 as int, q2, q3 as int);
    assert forall|i: int| o <= i < o + 4 implies p[i] == q[i] by {
        assert(i == o || i == o + 1 || i == o + 2 || i == o + 3);
    }
}

/// One initiation has one packet: two packets with the same fields are the same.
pub proof fn law_one_packet_per_initiation(p: Seq<u8>, q: Seq<u8>)
    requires
        initiation_in(p) is Some,
        initiation_in(p) == initiation_in(q),
    ensures
        p == q,
{
    lemma_four_bytes(p, q, 0);
    lemma_four_bytes(p, q, 4);
    assert forall|i: int| 0 <= i < 148 implies p[i] == q[i] by {
        if 8 <= i < 40 {
            assert(p.subrange(8, 40)[i - 8] == q.subrange(8, 40)[i - 8]);
        } else if 40 <= i < 88 {
            assert(p.subrange(40, 88)[i - 40] == q.subrange(40, 88)[i - 40]);
        } else if 88 <= i < 116 {
            assert(p.subrange(88, 116)[i - 88] == q.subrange(88, 116)[i - 88]);
        } else if 116 <= i < 132 {
            assert(p.subrange(116, 132)[i - 116] == q.subrange(116, 132)[i - 116]);
        } else if 132 <= i {
            assert(p.subrange(132, 148)[i - 132] == q.subrange(132, 148)[i - 132]);
        }
    }
    assert(p =~= q);
}

/// One response has one packet.
pub proof fn law_one_packet_per_response(p: Seq<u8>, q: Seq<u8>)
    requires
        response_in(p) is Some,
        response_in(p) == response_in(q),
    ensures
        p == q,
{
    lemma_four_bytes(p, q, 0);
    lemma_four_bytes(p, q, 4);
    lemma_four_bytes(p, q, 8);
    assert forall|i: int| 0 <= i < 92 implies p[i] == q[i] by {
        if 12 <= i < 44 {
            assert(p.subrange(12, 44)[i - 12] == q.subrange(12, 44)[i - 12]);
        } else if 44 <= i < 60 {
            assert(p.subrange(44, 60)[i - 44] == q.subrange(44, 60)[i - 44]);
        } else if 60 <= i < 76 {
            assert(p.subrange(60, 76)[i - 60] == q.subrange(60, 76)[i - 60]);
        } else if 76 <= i {
            assert(p.subrange(76, 92)[i - 76] == q.subrange(76, 92)[i - 76]);
        }
    }
    assert(p =~= q);
}

/// One cookie has one packet.
pub proof fn law_one_packet_per_cookie(p: Seq<u8>, q: Seq<u8>)
    requires
        cookie_in(p) is Some,
        cookie_in(p) == cookie_in(q),
    ensures
        p == q,
{
    lemma_four_bytes(p, q, 0);
    lemma_four_bytes(p, q, 4);
    assert forall|i: int| 0 <= i < 64 implies p[i] == q[i] by {
        if 8 <= i < 32 {
            assert(p.subrange(8, 32)[i - 8] == q.subrange(8, 32)[i - 8]);
        } else if 32 <= i {
            assert(p.subrange(32, 64)[i - 32] == q.subrange(32, 64)[i - 32]);
        }
    }
    assert(p =~= q);
}

} // verus!
