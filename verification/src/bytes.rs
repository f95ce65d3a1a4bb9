//! Integers in byte strings, least or most significant byte first.

use vstd::prelude::*;

verus! {

/// The 16-bit number at offset `o`, least significant byte first.
pub open spec fn le16(s: Seq<u8>, o: int) -> int {
    s[o] + 0x100 * s[o + 1]
}

/// The 32-bit number at offset `o`, least significant byte first.
pub open spec fn le32(s: Seq<u8>, o: int) -> int {
    s[o] + 0x100 * s[o + 1] + 0x1_0000 * s[o + 2] + 0x100_0000 * s[o + 3]
}

/// The 64-bit number at offset `o`, least significant byte first.
pub open spec fn le64(s: Seq<u8>, o: int) -> int {
    le32(s, o) + 0x1_0000_0000 * le32(s, o + 4)
}

/// The 16-bit number at offset `o`, most significant byte first.
pub open spec fn be16(s: Seq<u8>, o: int) -> int {
    0x100 * s[o] + s[o + 1]
}

/// The 32-bit number at offset `o`, most significant byte first.
pub open spec fn be32(s: Seq<u8>, o: int) -> int {
    0x100_0000 * s[o] + 0x1_0000 * s[o + 1] + 0x100 * s[o + 2] + s[o + 3]
}

pub open spec fn le16_bytes(x: u16) -> Seq<u8> {
    seq![(x % 0x100) as u8, (x / 0x100) as u8]
}

pub open spec fn le32_bytes(x: u32) -> Seq<u8> {
    seq![
        (x % 0x100) as u8,
        (x / 0x100 % 0x100) as u8,
        (x / 0x1_0000 % 0x100) as u8,
        (x / 0x100_0000) as u8,
    ]
}

pub open spec fn le64_bytes(x: u64) -> Seq<u8> {
    le32_bytes((x % 0x1_0000_0000) as u32) + le32_bytes((x / 0x1_0000_0000) as u32)
}

pub open spec fn be32_bytes(x: u32) -> Seq<u8> {
    seq![
        (x / 0x100_0000) as u8,
        (x / 0x1_0000 % 0x100) as u8,
        (x / 0x100 % 0x100) as u8,
        (x % 0x100) as u8,
    ]
}

pub open spec fn be64_bytes(x: u64) -> Seq<u8> {
    be32_bytes((x / 0x1_0000_0000) as u32) + be32_bytes((x % 0x1_0000_0000) as u32)
}

/// Reading back a written 16-bit number gives the number.
pub proof fn lemma_le16_inverse(x: u16)
    ensures
        le16(le16_bytes(x), 0) == x,
        le16_bytes(x).len() == 2,
{
}

/// Reading back a written 32-bit number gives the number.
pub proof fn lemma_le32_inverse(x: u32)
    ensures
        le32(le32_bytes(x), 0) == x,
        le32_bytes(x).len() == 4,
{
}

/// Reading back a written 64-bit number gives the number.
pub proof fn lemma_le64_inverse(x: u64)
    ensures
        le64(le64_bytes(x), 0) == x,
        le64_bytes(x).len() == 8,
{
    let lo = (x % 0x1_0000_0000) as u32;
    let hi = (x / 0x1_0000_0000) as u32;
    lemma_le32_inverse(lo);
    lemma_le32_inverse(hi);
    let s = le64_bytes(x);
    assert(s.subrange(0, 4) =~= le32_bytes(lo));
    assert(s.subrange(4, 8) =~= le32_bytes(hi));
    assert(le32(s, 0) == le32(s.subrange(0, 4), 0));
    assert(le32(s, 4) == le32(s.subrange(4, 8), 0));
}

/// Reading back a written 32-bit number gives the number.
pub proof fn lemma_be32_inverse(x: u32)
    ensures
        be32(be32_bytes(x), 0) == x,
        be32_bytes(x).len() == 4,
{
}

/// A number depends on its own bytes only.
pub proof fn lemma_le_local(s: Seq<u8>, t: Seq<u8>, o: int, p: int, n: int)
    requires
        n == 2 || n == 4 || n == 8,
        0 <= o && o + n <= s.len(),
        0 <= p && p + n <= t.len(),
        s.subrange(o, o + n) == t.subrange(p, p + n),
    ensures
        n == 2 ==> le16(s, o) == le16(t, p) && be16(s, o) == be16(t, p),
        n == 4 ==> le32(s, o) == le32(t, p) && be32(s, o) == be32(t, p),
        n == 8 ==> le64(s, o) == le64(t, p),
{
    let x = s.subrange(o, o + n);
    let y = t.subrange(p, p + n);
    assert(x[0] == s[o] && x[1] == s[o + 1]);
    assert(y[0] == t[p] && y[1] == t[p + 1]);
    if n >= 4 {
        assert(x[2] == s[o + 2] && x[3] == s[o + 3]);
        assert(y[2] == t[p + 2] && y[3] == t[p + 3]);
    }
    if n == 8 {
        assert(x[4] == s[o + 4] && x[5] == s[o + 5] && x[6] == s[o + 6] && x[7] == s[o + 7]);
        assert(y[4] == t[p + 4] && y[5] == t[p + 5] && y[6] == t[p + 6] && y[7] == t[p + 7]);
    }
}

pub fn read_le16(s: &[u8], o: usize) -> (r: u16)
    requires
        o + 2 <= s.len(),
    ensures
        r == le16(s@, o as int),
{
    s[o] as u16 + 0x100 * s[o + 1] as u16
}

pub fn read_le32(s: &[u8], o: usize) -> (r: u32)
    requires
        o + 4 <= s.len(),
    ensures
        r == le32(s@, o as int),
{
    s[o] as u32 + 0x100 * s[o + 1] as u32 + 0x1_0000 * s[o + 2] as u32 + 0x100_0000 * s[o
        + 3] as u32
}

pub fn read_le64(s: &[u8], o: usize) -> (r: u64)
    requires
        o + 8 <= s.len(),
    ensures
        r == le64(s@, o as int),
{
    let lo: u64 = read_le32(s, o) as u64;
    let hi: u64 = read_le32(s, o + 4) as u64;
    lo + 0x1_0000_0000 * hi
}

pub fn read_be16(s: &[u8], o: usize) -> (r: u16)
    requires
        o + 2 <= s.len(),
    ensures
        r == be16(s@, o as int),
{
    0x100 * s[o] as u16 + s[o + 1] as u16
}

pub fn read_be32(s: &[u8], o: usize) -> (r: u32)
    requires
        o + 4 <= s.len(),
    ensures
        r == be32(s@, o as int),
{
    0x100_0000 * s[o] as u32 + 0x1_0000 * s[o + 1] as u32 + 0x100 * s[o + 2] as u32 + s[o
        + 3] as u32
}

pub fn put_le16(out: &mut Vec<u8>, x: u16)
    ensures
        final(out)@ == old(out)@ + le16_bytes(x),
{
    out.push((x % 0x100) as u8);
    out.push((x / 0x100) as u8);
    assert(out@ =~= old(out)@ + le16_bytes(x));
}

pub fn put_le32(out: &mut Vec<u8>, x: u32)
    ensures
        final(out)@ == old(out)@ + le32_bytes(x),
{
    out.push((x % 0x100) as u8);
    out.push((x / 0x100 % 0x100) as u8);
    out.push((x / 0x1_0000 % 0x100) as u8);
    out.push((x / 0x100_0000) as u8);
    assert(out@ =~= old(out)@ + le32_bytes(x));
}

pub fn put_le64(out: &mut Vec<u8>, x: u64)
    ensures
        final(out)@ == old(out)@ + le64_bytes(x),
{
    put_le32(out, (x % 0x1_0000_0000) as u32);
    put_le32(out, (x / 0x1_0000_0000) as u32);
    assert(out@ =~= old(out)@ + le64_bytes(x));
}

pub fn put_be32(out: &mut Vec<u8>, x: u32)
    ensures
        final(out)@ == old(out)@ + be32_bytes(x),
{
    out.push((x / 0x100_0000) as u8);
    out.push((x / 0x1_0000 % 0x100) as u8);
    out.push((x / 0x100 % 0x100) as u8);
    out.push((x % 0x100) as u8);
    assert(out@ =~= old(out)@ + be32_bytes(x));
}

pub fn put_be64(out: &mut Vec<u8>, x: u64)
    ensures
        final(out)@ == old(out)@ + be64_bytes(x),
{
    put_be32(out, (x / 0x1_0000_0000) as u32);
    put_be32(out, (x % 0x1_0000_0000) as u32);
    assert(out@ =~= old(out)@ + be64_bytes(x));
}

} // verus!
