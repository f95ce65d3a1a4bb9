//! IP packets: what a tunnel reads of them, and the packets it wraps its own
//! messages in.

use vstd::arithmetic::div_mod::lemma_mod_multiples_vanish;
use vstd::prelude::*;
use crate::bytes::{be16, read_be16};
use crate::net::wireguard::messages::read_array;
use crate::text::{append_bytes, copy_range};

verus! {

pub const IPPROTO_UDP: u8 = 17;

/// What is read of an IPv4 header.
#[derive(Clone, Copy)]
pub struct Ipv4PacketInfo {
    pub src: [u8; 4],
    pub dst: [u8; 4],
    pub header_len: usize,
    pub total_len: usize,
    pub protocol: u8,
}

#[verifier::ext_equal]
pub struct Ipv4View {
    pub src: Seq<u8>,
    pub dst: Seq<u8>,
    pub header_len: int,
    pub total_len: int,
    pub protocol: u8,
}

impl View for Ipv4PacketInfo {
    type V = Ipv4View;

    open spec fn view(&self) -> Ipv4View {
        Ipv4View {
            src: self.src@,
            dst: self.dst@,
            header_len: self.header_len as int,
            total_len: self.total_len as int,
            protocol: self.protocol,
        }
    }
}

/// What is read of an IPv6 header.
#[derive(Clone, Copy)]
pub struct Ipv6PacketInfo {
    pub src: [u8; 16],
    pub dst: [u8; 16],
    pub total_len: usize,
}

#[verifier::ext_equal]
pub struct Ipv6View {
    pub src: Seq<u8>,
    pub dst: Seq<u8>,
    pub total_len: int,
}

impl View for Ipv6PacketInfo {
    type V = Ipv6View;

    open spec fn view(&self) -> Ipv6View {
        Ipv6View { src: self.src@, dst: self.dst@, total_len: self.total_len as int }
    }
}

/// An IPv4 packet: the header and the whole must fit in the bytes.
pub open spec fn ipv4_in(p: Seq<u8>) -> Option<Ipv4View> {
    let header_len = (p[0] % 16) * 4;
    let total_len = be16(p, 2);
    if p.len() < 20 || p[0] / 16 != 4 {
        None
    } else if header_len < 20 || header_len > p.len() {
        None
    } else if total_len < header_len || total_len > p.len() {
        None
    } else {
        Some(
            Ipv4View {
                src: p.subrange(12, 16),
                dst: p.subrange(16, 20),
                header_len,
                total_len,
                protocol: p[9],
            },
        )
    }
}

/// An IPv6 packet without further headers.
pub open spec fn ipv6_in(p: Seq<u8>) -> Option<Ipv6View> {
    if p.len() < 40 || p[0] / 16 != 6 || 40 + be16(p, 4) > p.len() {
        None
    } else {
        Some(
            Ipv6View {
                src: p.subrange(8, 24),
                dst: p.subrange(24, 40),
                total_len: 40 + be16(p, 4),
            },
        )
    }
}

pub open spec fn ipv4_view(r: Option<Ipv4PacketInfo>) -> Option<Ipv4View> {
    match r {
        Some(i) => Some(i@),
        None => None,
    }
}

pub open spec fn ipv6_view(r: Option<Ipv6PacketInfo>) -> Option<Ipv6View> {
    match r {
        Some(i) => Some(i@),
        None => None,
    }
}

pub fn parse_ipv4_packet_info(packet: &[u8]) -> (r: Option<Ipv4PacketInfo>)
    ensures
        ipv4_view(r) == ipv4_in(packet@),
        r matches Some(i) ==> 20 <= i.header_len <= i.total_len <= packet@.len(),
{
    if packet.len() < 20 || packet[0] / 16 != 4 {
        return None;
    }
    let header_len: usize = (packet[0] % 16) as usize * 4;
    if header_len < 20 || header_len > packet.len() {
        return None;
    }
    let total_len: usize = read_be16(packet, 2) as usize;
    if total_len < header_len || total_len > packet.len() {
        return None;
    }
    match (read_array::<4>(packet, 12), read_array::<4>(packet, 16)) {
        (Some(src), Some(dst)) => {
            let i = Ipv4PacketInfo { src, dst, header_len, total_len, protocol: packet[9] };
            assert(i@ =~= ipv4_in(packet@)->0);
            Some(i)
        },
        _ => None,
    }
}

pub fn parse_ipv6_packet_info(packet: &[u8]) -> (r: Option<Ipv6PacketInfo>)
    ensures
        ipv6_view(r) == ipv6_in(packet@),
        r matches Some(i) ==> 40 <= i.total_len <= packet@.len(),
{
    if packet.len() < 40 || packet[0] / 16 != 6 {
        return None;
    }
    let total_len: usize = 40 + read_be16(packet, 4) as usize;
    if total_len > packet.len() {
        return None;
    }
    match (read_array::<16>(packet, 8), read_array::<16>(packet, 24)) {
        (Some(src), Some(dst)) => {
            let i = Ipv6PacketInfo { src, dst, total_len };
            assert(i@ =~= ipv6_in(packet@)->0);
            Some(i)
        },
        _ => None,
    }
}

/// A message in a UDP packet.
pub struct UdpPayload {
    pub info: Ipv4PacketInfo,
    pub src_port: u16,
    pub dst_port: u16,
    pub payload: Vec<u8>,
}

#[verifier::ext_equal]
pub struct UdpView {
    pub info: Ipv4View,
    pub src_port: u16,
    pub dst_port: u16,
    pub payload: Seq<u8>,
}

pub open spec fn udp_view(r: Option<UdpPayload>) -> Option<UdpView> {
    match r {
        Some(u) => Some(
            UdpView {
                info: u.info@,
                src_port: u.src_port,
                dst_port: u.dst_port,
                payload: u.payload@,
            },
        ),
        None => None,
    }
}

/// The message in an IPv4 packet that carries UDP.
pub open spec fn udp_in(p: Seq<u8>) -> Option<UdpView> {
    match ipv4_in(p) {
        None => None,
        Some(i) => {
            let udp_len = be16(p, i.header_len + 4);
            if i.protocol != IPPROTO_UDP || i.total_len - i.header_len < 8 || udp_len < 8
                || udp_len > i.total_len - i.header_len {
                None
            } else {
                Some(
                    UdpView {
                        info: i,
                        src_port: be16(p, i.header_len) as u16,
                        dst_port: be16(p, i.header_len + 2) as u16,
                        payload: p.subrange(i.header_len + 8, i.header_len + udp_len),
                    },
                )
            }
        },
    }
}

pub fn parse_udp_ipv4_payload(packet: &[u8]) -> (r: Option<UdpPayload>)
    ensures
        udp_view(r) == udp_in(packet@),
        r matches Some(u) ==> u.payload@.len() <= 65535,
{
    let info = match parse_ipv4_packet_info(packet) {
        Some(i) => i,
        None => {
            return None;
        },
    };
    if info.protocol != IPPROTO_UDP {
        return None;
    }
    let start: usize = info.header_len;
    let room: usize = info.total_len - start;
    if room < 8 {
        return None;
    }
    let udp_len: usize = read_be16(packet, start + 4) as usize;
    if udp_len < 8 || udp_len > room {
        return None;
    }
    let payload = copy_range(packet, start + 8, start + udp_len);
    assert(payload@ =~= packet@.subrange(start + 8, start + udp_len));
    Some(
        UdpPayload {
            info,
            src_port: read_be16(packet, start),
            dst_port: read_be16(packet, start + 2),
            payload,
        },
    )
}

/// Without what follows the end that the header gives.
pub fn trim_ipv4_packet(packet: &[u8]) -> (r: Option<Vec<u8>>)
    ensures
        match r {
            Some(t) => ipv4_in(packet@) is Some && t@ == packet@.take(
                ipv4_in(packet@)->0.total_len,
            ),
            None => ipv4_in(packet@) is None,
        },
{
    match parse_ipv4_packet_info(packet) {
        None => None,
        Some(i) => {
            let t = copy_range(packet, 0, i.total_len);
            assert(t@ =~= packet@.take(i.total_len as int));
            Some(t)
        },
    }
}

/// Without what follows the end that the header gives.
pub fn trim_ipv6_packet(packet: &[u8]) -> (r: Option<Vec<u8>>)
    ensures
        match r {
            Some(t) => ipv6_in(packet@) is Some && t@ == packet@.take(
                ipv6_in(packet@)->0.total_len,
            ),
            None => ipv6_in(packet@) is None,
        },
{
    match parse_ipv6_packet_info(packet) {
        None => None,
        Some(i) => {
            let t = copy_range(packet, 0, i.total_len);
            assert(t@ =~= packet@.take(i.total_len as int));
            Some(t)
        },
    }
}

// ---------------------------------------------------------------------------
// The checksum.
// ---------------------------------------------------------------------------

/// The sum of the 16-bit words; a last byte alone is the upper half of a word.
pub open spec fn word_sum(data: Seq<u8>) -> int
    decreases data.len(),
{
    if data.len() == 0 {
        0
    } else if data.len() % 2 == 1 {
        word_sum(data.drop_last()) + 0x100 * data.last()
    } else {
        word_sum(data.take(data.len() - 2)) + be16(data, data.len() - 2)
    }
}

/// A sum with its carries added in again, as often as there are any.
pub open spec fn folded(x: int) -> int {
    if x == 0 {
        0
    } else if x % 65535 == 0 {
        65535
    } else {
        x % 65535
    }
}

/// The checksum of a text. Sums are kept in 32 bits.
pub open spec fn checksum(data: Seq<u8>) -> int {
    65535 - folded(word_sum(data) % 0x1_0000_0000)
}

proof fn lemma_fold_step(s: int)
    requires
        s > 65535,
    ensures
        folded(s % 65536 + s / 65536) == folded(s),
        0 < s % 65536 + s / 65536 < s,
{
    let h = s / 65536;
    let t = s % 65536 + h;
    assert(t == s - 65535 * h);
    lemma_mod_multiples_vanish(h, t, 65535);
    assert(65535 * h + t == s);
}

proof fn lemma_word_sum_bounds(data: Seq<u8>)
    ensures
        0 <= word_sum(data) <= 65535 * ((data.len() + 1) / 2),
    decreases data.len(),
{
    if data.len() > 0 {
        if data.len() % 2 == 1 {
            lemma_word_sum_bounds(data.drop_last());
        } else {
            lemma_word_sum_bounds(data.take(data.len() - 2));
        }
    }
}

/// Computes the checksum of a header.
pub fn internet_checksum(data: &[u8]) -> (r: u16)
    ensures
        r == checksum(data@),
{
    let mut sum: u32 = 0;
    let mut i: usize = 0;
    assert(data@.take(0) =~= Seq::<u8>::empty());
    while data.len() - i >= 2
        invariant
            i <= data@.len(),
            i % 2 == 0,
            sum == word_sum(data@.take(i as int)) % 0x1_0000_0000,
        decreases data@.len() - i,
    {
        let word: u16 = read_be16(data, i);
        proof {
            let t = data@.take(i + 2);
            assert(t.take(t.len() - 2) =~= data@.take(i as int));
            assert(be16(t, i as int) == word);
            lemma_word_sum_bounds(data@.take(i as int));
        }
        sum = sum.wrapping_add(word as u32);
        i += 2;
    }
    if i < data.len() {
        let last: u8 = data[i];
        proof {
            let t = data@.take(i + 1);
            assert(t.drop_last() =~= data@.take(i as int));
            assert(t.last() == last);
            lemma_word_sum_bounds(data@.take(i as int));
        }
        sum = sum.wrapping_add(last as u32 * 0x100);
        i += 1;
    }
    assert(data@.take(i as int) =~= data@);
    let ghost whole = sum as int;
    while sum > 0xffff
        invariant
            folded(sum as int) == folded(whole),
        decreases sum,
    {
        proof {
            lemma_fold_step(sum as int);
        }
        sum = sum % 0x1_0000 + sum / 0x1_0000;
    }
    0xffff - (sum as u16)
}

// ---------------------------------------------------------------------------
// Wrapping.
// ---------------------------------------------------------------------------

/// An IPv4 header of twenty bytes for a UDP packet.
pub open spec fn ipv4_header(src: Seq<u8>, dst: Seq<u8>, total: int, sum: int) -> Seq<u8> {
    seq![
        0x45u8,
        0u8,
        (total / 256) as u8,
        (total % 256) as u8,
        0u8,
        0u8,
        0u8,
        0u8,
        64u8,
        17u8,
        (sum / 256) as u8,
        (sum % 256) as u8,
        src[0],
        src[1],
        src[2],
        src[3],
        dst[0],
        dst[1],
        dst[2],
        dst[3],
    ]
}

/// A UDP header without a checksum.
pub open spec fn udp_header(src_port: u16, dst_port: u16, len: int) -> Seq<u8> {
    seq![
        (src_port / 256) as u8,
        (src_port % 256) as u8,
        (dst_port / 256) as u8,
        (dst_port % 256) as u8,
        (len / 256) as u8,
        (len % 256) as u8,
        0u8,
        0u8,
    ]
}

/// A message in a UDP packet. The header's checksum is that of the header with
/// an empty checksum.
pub open spec fn wrapped(
    src: Seq<u8>,
    dst: Seq<u8>,
    src_port: u16,
    dst_port: u16,
    payload: Seq<u8>,
) -> Seq<u8> {
    let total = 28 + payload.len() as int;
    let sum = checksum(ipv4_header(src, dst, total, 0));
    ipv4_header(src, dst, total, sum) + udp_header(src_port, dst_port, total - 20) + payload
}

fn put_ipv4_header(src: &[u8; 4], dst: &[u8; 4], total: u16, sum: u16) -> (r: Vec<u8>)
    ensures
        r@ == ipv4_header(src@, dst@, total as int, sum as int),
{
    let mut h: Vec<u8> = Vec::new();
    h.push(0x45);
    h.push(0);
    h.push((total / 256) as u8);
    h.push((total % 256) as u8);
    h.push(0);
    h.push(0);
    h.push(0);
    h.push(0);
    h.push(64);
    h.push(IPPROTO_UDP);
    h.push((sum / 256) as u8);
    h.push((sum % 256) as u8);
    h.push(src[0]);
    h.push(src[1]);
    h.push(src[2]);
    h.push(src[3]);
    h.push(dst[0]);
    h.push(dst[1]);
    h.push(dst[2]);
    h.push(dst[3]);
    assert(h@ =~= ipv4_header(src@, dst@, total as int, sum as int));
    h
}

fn put_udp_header(out: &mut Vec<u8>, src_port: u16, dst_port: u16, len: u16)
    ensures
        final(out)@ == old(out)@ + udp_header(src_port, dst_port, len as int),
{
    out.push((src_port / 256) as u8);
    out.push((src_port % 256) as u8);
    out.push((dst_port / 256) as u8);
    out.push((dst_port % 256) as u8);
    out.push((len / 256) as u8);
    out.push((len % 256) as u8);
    out.push(0);
    out.push(0);
    assert(out@ =~= old(out)@ + udp_header(src_port, dst_port, len as int));
}

/// Wraps a message in a UDP packet, if it fits in one.
pub fn build_udp_ipv4_packet(
    src: [u8; 4],
    dst: [u8; 4],
    src_port: u16,
    dst_port: u16,
    payload: &[u8],
) -> (r: Option<Vec<u8>>)
    ensures
        match r {
            Some(p) => 28 + payload@.len() <= 65535 && p@ == wrapped(
                src@,
                dst@,
                src_port,
                dst_port,
                payload@,
            ),
            None => 28 + payload@.len() > 65535,
        },
{
    if payload.len() > 65535 - 28 {
        return None;
    }
    let udp_len: u16 = 8 + payload.len() as u16;
    let total: u16 = 20 + udp_len;
    let blank = put_ipv4_header(&src, &dst, total, 0);
    let sum: u16 = internet_checksum(blank.as_slice());
    let mut packet = put_ipv4_header(&src, &dst, total, sum);
    put_udp_header(&mut packet, src_port, dst_port, udp_len);
    append_bytes(&mut packet, payload);
    Some(packet)
}

// ---------------------------------------------------------------------------
// Laws.
// ---------------------------------------------------------------------------

/// A wrapped message is read back, with its addresses and ports.
pub proof fn law_wrapped_messages_read_back(
    src: Seq<u8>,
    dst: Seq<u8>,
    src_port: u16,
    dst_port: u16,
    payload: Seq<u8>,
)
    requires
        src.len() == 4,
        dst.len() == 4,
        28 + payload.len() <= 65535,
    ensures
        udp_in(wrapped(src, dst, src_port, dst_port, payload)) == Some(
            UdpView {
                info: Ipv4View {
                    src,
                    dst,
                    header_len: 20,
                    total_len: 28 + payload.len() as int,
                    protocol: IPPROTO_UDP,
                },
                src_port,
                dst_port,
                payload,
            },
        ),
{
    let p = wrapped(src, dst, src_port, dst_port, payload);
    let total = 28 + payload.len();
    let sum = checksum(ipv4_header(src, dst, total as int, 0));
    let h = ipv4_header(src, dst, total as int, sum);
    let u = udp_header(src_port, dst_port, 8 + payload.len() as int);
    assert(forall|i: int| 0 <= i < 20 ==> p[i] == #[trigger] h[i]);
    assert(forall|i: int| 0 <= i < 8 ==> p[20 + i] == #[trigger] u[i]);
    assert(p[0] == h[0] && p[2] == h[2] && p[3] == h[3] && p[9] == h[9]);
    assert(p[20] == u[0] && p[21] == u[1] && p[22] == u[2] && p[23] == u[3] && p[24] == u[4]
        && p[25] == u[5]);
    assert(p.subrange(12, 16) =~= src) by {
        assert(p[12] == h[12] && p[13] == h[13] && p[14] == h[14] && p[15] == h[15]);
    }
    assert(p.subrange(16, 20) =~= dst) by {
        assert(p[16] == h[16] && p[17] == h[17] && p[18] == h[18] && p[19] == h[19]);
    }
    assert(p.subrange(28, total as int) =~= payload);
}

proof fn lemma_header_sum(src: Seq<u8>, dst: Seq<u8>, total: int, sum: int)
    requires
        0 <= total < 65536,
        0 <= sum < 65536,
    ensures
        word_sum(ipv4_header(src, dst, total, sum)) == word_sum(ipv4_header(src, dst, total, 0))
            + sum,
{
    let a = ipv4_header(src, dst, total, sum);
    let b = ipv4_header(src, dst, total, 0);
    lemma_sum_shift(a, b, 20, sum);
    assert(a.take(20) =~= a);
    assert(b.take(20) =~= b);
}

proof fn lemma_sum_shift(a: Seq<u8>, b: Seq<u8>, n: int, d: int)
    requires
        a.len() == 20,
        b.len() == 20,
        0 <= n <= 20,
        n % 2 == 0,
        forall|i: int| 0 <= i < 20 && i != 10 && i != 11 ==> a[i] == b[i],
        be16(a, 10) == be16(b, 10) + d,
    ensures
        word_sum(a.take(n)) == word_sum(b.take(n)) + (if n >= 12 {
            d
        } else {
            0
        }),
    decreases n,
{
    if n > 0 {
        lemma_sum_shift(a, b, n - 2, d);
        let x = a.take(n);
        let y = b.take(n);
        assert(x.take(n - 2) =~= a.take(n - 2));
        assert(y.take(n - 2) =~= b.take(n - 2));
        assert(be16(x, n - 2) == be16(a, n - 2));
        assert(be16(y, n - 2) == be16(b, n - 2));
    }
}

/// Whoever checks the header of a wrapped message finds it in order: its own
/// checksum comes out as zero.
pub proof fn law_wrapped_headers_check(
    src: Seq<u8>,
    dst: Seq<u8>,
    src_port: u16,
    dst_port: u16,
    payload: Seq<u8>,
)
    requires
        28 + payload.len() <= 65535,
    ensures
        checksum(wrapped(src, dst, src_port, dst_port, payload).take(20)) == 0,
{
    let total = 28 + payload.len() as int;
    let blank = ipv4_header(src, dst, total, 0);
    let s = word_sum(blank);
    lemma_word_sum_bounds(blank);
    let c = checksum(blank);
    let h = ipv4_header(src, dst, total, c);
    lemma_header_sum(src, dst, total, c);
    assert(wrapped(src, dst, src_port, dst_port, payload).take(20) =~= h);
    let f = folded(s);
    assert(s > 0) by {
        lemma_header_starts(blank);
    }
    assert(f == s % 65535 || f == 65535);
    let q = s / 65535;
    if s % 65535 == 0 {
        assert((s + c) % 65535 == 0);
    } else {
        assert(s + c == 65535 * (q + 1)) by {
            assert(s == 65535 * q + s % 65535);
        }
        lemma_mod_multiples_vanish(q + 1, 0, 65535);
    }
}

proof fn lemma_header_starts(h: Seq<u8>)
    requires
        h.len() == 20,
        h[0] == 0x45,
    ensures
        word_sum(h) > 0,
{
    lemma_sum_from_start(h, 20);
    assert(h.take(20) =~= h);
}

proof fn lemma_sum_from_start(h: Seq<u8>, n: int)
    requires
        h.len() == 20,
        h[0] == 0x45,
        2 <= n <= 20,
        n % 2 == 0,
    ensures
        word_sum(h.take(n)) > 0,
    decreases n,
{
    let x = h.take(n);
    if n > 2 {
        lemma_sum_from_start(h, n - 2);
        assert(x.take(n - 2) =~= h.take(n - 2));
    } else {
        lemma_word_sum_bounds(x.take(0));
        assert(be16(x, 0) >= 0x4500);
    }
}

} // verus!
