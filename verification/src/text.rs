//! Byte strings: comparison, searching and copying.
//!
//! Paths and argument strings are handled as UTF-8 bytes, so that a length is
//! the number of bytes that the string takes in memory.

use vstd::prelude::*;
use vstd::string::StringSliceAdditionalSpecFns;
use vstd::utf8::valid_utf8;

verus! {

/// The UTF-8 bytes of a string literal.
pub open spec fn txt(s: &str) -> Seq<u8> {
    s.spec_bytes()
}

/// `s` begins with `prefix`.
pub open spec fn starts_with(s: Seq<u8>, prefix: Seq<u8>) -> bool {
    prefix.len() <= s.len() && s.take(prefix.len() as int) == prefix
}

/// `s` ends with `suffix`.
pub open spec fn ends_with(s: Seq<u8>, suffix: Seq<u8>) -> bool {
    suffix.len() <= s.len() && s.skip(s.len() - suffix.len()) == suffix
}

/// `needle` occurs in `s` at some offset.
pub open spec fn contains_text(s: Seq<u8>, needle: Seq<u8>) -> bool {
    exists|i: int| 0 <= i <= s.len() - needle.len() && #[trigger] occurs_at(s, needle, i)
}

pub open spec fn occurs_at(s: Seq<u8>, needle: Seq<u8>, i: int) -> bool {
    s.subrange(i, i + needle.len()) == needle
}

/// The least index at or after `from` that holds `b`, or the length.
pub open spec fn index_or_end(s: Seq<u8>, b: u8, from: int) -> int
    decreases s.len() - from,
{
    if from >= s.len() {
        s.len() as int
    } else if s[from] == b {
        from
    } else {
        index_or_end(s, b, from + 1)
    }
}

pub proof fn lemma_index_or_end(s: Seq<u8>, b: u8, from: int)
    requires
        0 <= from <= s.len(),
    ensures
        from <= index_or_end(s, b, from) <= s.len(),
        index_or_end(s, b, from) < s.len() ==> s[index_or_end(s, b, from)] == b,
        forall|j: int| from <= j < index_or_end(s, b, from) ==> s[j] != b,
    decreases s.len() - from,
{
    if from < s.len() && s[from] != b {
        lemma_index_or_end(s, b, from + 1);
    }
}

/// `core::str::from_utf8`: it succeeds exactly on well-formed UTF-8.
#[verifier::external_body]
fn std_from_utf8(bytes: &[u8]) -> (r: bool)
    ensures
        r == valid_utf8(bytes@),
{
    core::str::from_utf8(bytes).is_ok()
}

/// Tells whether the bytes are well-formed UTF-8.
pub fn is_utf8(bytes: &[u8]) -> (r: bool)
    ensures
        r == valid_utf8(bytes@),
{
    std_from_utf8(bytes)
}

/// Byte-for-byte equality.
pub fn bytes_eq(a: &[u8], b: &[u8]) -> (r: bool)
    ensures
        r == (a@ == b@),
{
    if a.len() != b.len() {
        return false;
    }
    let mut i: usize = 0;
    while i < a.len()
        invariant
            i <= a.len(),
            a.len() == b.len(),
            forall|j: int| 0 <= j < i ==> a@[j] == b@[j],
        decreases a.len() - i,
    {
        if a[i] != b[i] {
            return false;
        }
        i += 1;
    }
    assert(a@ =~= b@);
    true
}

/// Copies `src[from..to]` into a new vector.
pub fn copy_range(src: &[u8], from: usize, to: usize) -> (r: Vec<u8>)
    requires
        from <= to <= src.len(),
    ensures
        r@ == src@.subrange(from as int, to as int),
{
    let mut out: Vec<u8> = Vec::with_capacity(to - from);
    let mut i: usize = from;
    while i < to
        invariant
            from <= i <= to <= src.len(),
            out@ == src@.subrange(from as int, i as int),
        decreases to - i,
    {
        out.push(src[i]);
        i += 1;
        assert(out@ =~= src@.subrange(from as int, i as int));
    }
    out
}

/// Copies a whole slice.
pub fn to_vec(src: &[u8]) -> (r: Vec<u8>)
    ensures
        r@ == src@,
{
    let r = copy_range(src, 0, src.len());
    assert(r@ =~= src@);
    r
}

/// Appends `src` to `dst`.
pub fn append_bytes(dst: &mut Vec<u8>, src: &[u8])
    ensures
        final(dst)@ == old(dst)@ + src@,
{
    let mut i: usize = 0;
    while i < src.len()
        invariant
            i <= src.len(),
            dst@ == old(dst)@ + src@.take(i as int),
        decreases src.len() - i,
    {
        dst.push(src[i]);
        i += 1;
        assert(dst@ =~= old(dst)@ + src@.take(i as int));
    }
    assert(src@.take(src.len() as int) =~= src@);
    assert(dst@ =~= old(dst)@ + src@);
}

/// Appends `count` zero bytes.
pub fn append_zeros(dst: &mut Vec<u8>, count: usize)
    ensures
        final(dst)@ == old(dst)@ + Seq::new(count as nat, |i: int| 0u8),
{
    let mut i: usize = 0;
    while i < count
        invariant
            i <= count,
            dst@ == old(dst)@ + Seq::new(i as nat, |j: int| 0u8),
        decreases count - i,
    {
        dst.push(0);
        i += 1;
        assert(dst@ =~= old(dst)@ + Seq::new(i as nat, |j: int| 0u8));
    }
}

/// Finds `b` at or after `from`.
pub fn find_byte(s: &[u8], b: u8, from: usize) -> (r: usize)
    requires
        from <= s.len(),
    ensures
        r == index_or_end(s@, b, from as int),
        from <= r <= s.len(),
{
    let mut i: usize = from;
    while i < s.len()
        invariant
            from <= i <= s.len(),
            index_or_end(s@, b, from as int) == index_or_end(s@, b, i as int),
        decreases s.len() - i,
    {
        if s[i] == b {
            return i;
        }
        i += 1;
    }
    i
}

/// Tells whether `s` begins with `prefix`.
pub fn has_prefix(s: &[u8], prefix: &[u8]) -> (r: bool)
    ensures
        r == starts_with(s@, prefix@),
{
    if prefix.len() > s.len() {
        return false;
    }
    let head = vstd::slice::slice_subrange(s, 0, prefix.len());
    assert(head@ =~= s@.take(prefix.len() as int));
    bytes_eq(head, prefix)
}

/// Tells whether `s` ends with `suffix`.
pub fn has_suffix(s: &[u8], suffix: &[u8]) -> (r: bool)
    ensures
        r == ends_with(s@, suffix@),
{
    if suffix.len() > s.len() {
        return false;
    }
    let tail = vstd::slice::slice_subrange(s, s.len() - suffix.len(), s.len());
    assert(tail@ =~= s@.skip(s.len() - suffix.len()));
    bytes_eq(tail, suffix)
}

/// Tells whether `needle` occurs anywhere in `s`.
pub fn has_text(s: &[u8], needle: &[u8]) -> (r: bool)
    ensures
        r == contains_text(s@, needle@),
{
    if needle.len() > s.len() {
        return false;
    }
    let last: usize = s.len() - needle.len();
    let mut i: usize = 0;
    while i <= last
        invariant
            i <= last + 1,
            last == s.len() - needle.len(),
            forall|j: int| 0 <= j < i ==> !occurs_at(s@, needle@, j),
        decreases last + 1 - i,
    {
        let part = vstd::slice::slice_subrange(s, i, i + needle.len());
        if bytes_eq(part, needle) {
            assert(occurs_at(s@, needle@, i as int));
            return true;
        }
        assert(!occurs_at(s@, needle@, i as int));
        if i == last {
            return false;
        }
        i += 1;
    }
    false
}

} // verus!
