//! Attributes and messages of the netlink protocol.

use vstd::prelude::*;
use vstd::utf8::valid_utf8;
use crate::bytes::{
    le16, le16_bytes, le32, le32_bytes, lemma_le16_inverse, put_le16, put_le32, read_le16,
    read_le32,
};
use crate::errno::EINVAL;
use crate::text::{
    append_bytes, append_zeros, copy_range, find_byte, index_or_end, is_utf8,
};

verus! {

pub const NLA_F_NESTED: u16 = 0x8000;
pub const NLM_F_MULTI: u16 = 2;
pub const NLMSG_DONE: u16 = 3;

/// An attribute: its number, without flags, and its value.
pub struct Attr {
    pub kind: u16,
    pub data: Vec<u8>,
}

#[verifier::ext_equal]
pub struct AttrView {
    pub kind: u16,
    pub data: Seq<u8>,
}

impl View for Attr {
    type V = AttrView;

    open spec fn view(&self) -> AttrView {
        AttrView { kind: self.kind, data: self.data@ }
    }
}

pub open spec fn attrs_view(s: Seq<Attr>) -> Seq<AttrView> {
    Seq::new(s.len(), |i: int| s[i]@)
}

// ---------------------------------------------------------------------------
// Reading.
// ---------------------------------------------------------------------------

/// Rounded up to a multiple of four.
pub open spec fn align4(n: int) -> int {
    (n + 3) / 4 * 4
}

/// Where the attribute behind the one at offset `o` starts.
pub open spec fn next_attr(s: Seq<u8>, o: int) -> int {
    if o + align4(le16(s, o)) > s.len() {
        s.len() as int
    } else {
        o + align4(le16(s, o))
    }
}

/// The attributes from offset `o` on, behind those seen before. Each has a
/// length, a number and a value; the next one starts at a multiple of four.
pub open spec fn attrs_from(s: Seq<u8>, o: int, seen: Seq<AttrView>) -> Result<
    Seq<AttrView>,
    isize,
>
    decreases s.len() - o,
{
    if o >= s.len() {
        Ok(seen)
    } else if s.len() - o < 4 || le16(s, o) < 4 || le16(s, o) > s.len() - o {
        Err(EINVAL)
    } else {
        attrs_from(
            s,
            next_attr(s, o),
            seen.push(
                AttrView {
                    kind: (le16(s, o + 2) % 0x4000) as u16,
                    data: s.subrange(o + 4, o + le16(s, o)),
                },
            ),
        )
    }
}

/// The attributes in a text.
pub open spec fn attrs_in(s: Seq<u8>) -> Result<Seq<AttrView>, isize> {
    attrs_from(s, 0, Seq::empty())
}

/// A list was read as it should.
pub open spec fn reads_as(r: Result<Vec<Attr>, isize>, want: Result<Seq<AttrView>, isize>) -> bool {
    match (r, want) {
        (Ok(v), Ok(w)) => attrs_view(v@) == w,
        (Err(e), Err(x)) => e == x,
        _ => false,
    }
}

/// Reads the attributes in a text.
pub fn parse_rtattrs_checked(data: &[u8]) -> (r: Result<Vec<Attr>, isize>)
    ensures
        reads_as(r, attrs_in(data@)),
{
    let mut out: Vec<Attr> = Vec::new();
    let mut o: usize = 0;
    assert(attrs_view(out@) =~= Seq::<AttrView>::empty());
    while o < data.len()
        invariant
            attrs_in(data@) == attrs_from(data@, o as int, attrs_view(out@)),
        decreases data@.len() - o,
    {
        let rest: usize = data.len() - o;
        if rest < 4 {
            return Err(EINVAL);
        }
        let len: usize = read_le16(data, o) as usize;
        if len < 4 || len > rest {
            return Err(EINVAL);
        }
        let kind: u16 = read_le16(data, o + 2) % 0x4000;
        let value = copy_range(data, o + 4, o + len);
        assert(value@ =~= data@.subrange(o + 4, o + len));
        let ghost before = out@;
        out.push(Attr { kind, data: value });
        assert(attrs_view(out@) =~= attrs_view(before).push(AttrView { kind, data: value@ }));
        let step: usize = (len + 3) / 4 * 4;
        if step >= rest {
            assert(next_attr(data@, o as int) == data@.len());
            assert(attrs_from(data@, data@.len() as int, attrs_view(out@)) == Ok::<
                Seq<AttrView>,
                isize,
            >(attrs_view(out@)));
            return Ok(out);
        }
        o = o + step;
    }
    Ok(out)
}

/// The value of the first attribute with a number.
pub open spec fn value_of(attrs: Seq<AttrView>, kind: u16) -> Option<Seq<u8>>
    decreases attrs.len(),
{
    if attrs.len() == 0 {
        None
    } else if attrs[0].kind == kind {
        Some(attrs[0].data)
    } else {
        value_of(attrs.skip(1), kind)
    }
}

/// Finds the first attribute with a number.
pub fn find_attr(attrs: &Vec<Attr>, kind: u16) -> (r: Option<usize>)
    ensures
        match r {
            Some(i) => i < attrs@.len() && value_of(attrs_view(attrs@), kind) == Some(
                attrs@[i as int].data@,
            ),
            None => value_of(attrs_view(attrs@), kind) is None,
        },
{
    let ghost all = attrs_view(attrs@);
    let mut i: usize = 0;
    assert(all.skip(0) =~= all);
    while i < attrs.len()
        invariant
            i <= attrs@.len(),
            all == attrs_view(attrs@),
            value_of(all, kind) == value_of(all.skip(i as int), kind),
        decreases attrs@.len() - i,
    {
        assert(all.skip(i as int)[0] == all[i as int]);
        if attrs[i].kind == kind {
            return Some(i);
        }
        assert(all.skip(i as int).skip(1) =~= all.skip(i + 1));
        i += 1;
    }
    None
}

/// The value of an attribute that must have a given length.
pub open spec fn sized_value(attrs: Seq<AttrView>, kind: u16, n: int) -> Result<
    Option<Seq<u8>>,
    isize,
> {
    match value_of(attrs, kind) {
        None => Ok(None),
        Some(d) => if d.len() == n {
            Ok(Some(d))
        } else {
            Err(EINVAL)
        },
    }
}

pub open spec fn u8_value(attrs: Seq<AttrView>, kind: u16) -> Result<Option<u8>, isize> {
    match sized_value(attrs, kind, 1) {
        Ok(Some(d)) => Ok(Some(d[0])),
        Ok(None) => Ok(None),
        Err(e) => Err(e),
    }
}

pub open spec fn u16_value(attrs: Seq<AttrView>, kind: u16) -> Result<Option<u16>, isize> {
    match sized_value(attrs, kind, 2) {
        Ok(Some(d)) => Ok(Some(le16(d, 0) as u16)),
        Ok(None) => Ok(None),
        Err(e) => Err(e),
    }
}

pub open spec fn u32_value(attrs: Seq<AttrView>, kind: u16) -> Result<Option<u32>, isize> {
    match sized_value(attrs, kind, 4) {
        Ok(Some(d)) => Ok(Some(le32(d, 0) as u32)),
        Ok(None) => Ok(None),
        Err(e) => Err(e),
    }
}

pub fn read_u8_attr_checked(attrs: &Vec<Attr>, kind: u16) -> (r: Result<Option<u8>, isize>)
    ensures
        r == u8_value(attrs_view(attrs@), kind),
{
    match find_attr(attrs, kind) {
        None => Ok(None),
        Some(i) => {
            let d = &attrs[i].data;
            if d.len() != 1 {
                return Err(EINVAL);
            }
            Ok(Some(d[0]))
        },
    }
}

pub fn read_u16_attr_checked(attrs: &Vec<Attr>, kind: u16) -> (r: Result<Option<u16>, isize>)
    ensures
        r == u16_value(attrs_view(attrs@), kind),
{
    match find_attr(attrs, kind) {
        None => Ok(None),
        Some(i) => {
            let d = &attrs[i].data;
            if d.len() != 2 {
                return Err(EINVAL);
            }
            Ok(Some(read_le16(d.as_slice(), 0)))
        },
    }
}

pub fn read_u32_attr_checked(attrs: &Vec<Attr>, kind: u16) -> (r: Result<Option<u32>, isize>)
    ensures
        r == u32_value(attrs_view(attrs@), kind),
{
    match find_attr(attrs, kind) {
        None => Ok(None),
        Some(i) => {
            let d = &attrs[i].data;
            if d.len() != 4 {
                return Err(EINVAL);
            }
            Ok(Some(read_le32(d.as_slice(), 0)))
        },
    }
}

/// The text of an attribute, up to a zero.
pub open spec fn text_value(attrs: Seq<AttrView>, kind: u16) -> Option<Seq<u8>> {
    match value_of(attrs, kind) {
        None => None,
        Some(d) => {
            let t = d.take(index_or_end(d, 0, 0));
            if valid_utf8(t) {
                Some(t)
            } else {
                None
            }
        },
    }
}

pub fn read_string_attr(attrs: &Vec<Attr>, kind: u16) -> (r: Option<Vec<u8>>)
    ensures
        match r {
            Some(t) => text_value(attrs_view(attrs@), kind) == Some(t@),
            None => text_value(attrs_view(attrs@), kind) is None,
        },
{
    match find_attr(attrs, kind) {
        None => None,
        Some(i) => {
            let d = &attrs[i].data;
            let end: usize = find_byte(d.as_slice(), 0, 0);
            let t = copy_range(d.as_slice(), 0, end);
            assert(t@ =~= d@.take(index_or_end(d@, 0, 0)));
            if is_utf8(t.as_slice()) {
                Some(t)
            } else {
                None
            }
        },
    }
}

// ---------------------------------------------------------------------------
// Writing.
// ---------------------------------------------------------------------------

pub open spec fn zero_bytes(n: int) -> Seq<u8> {
    Seq::new(n as nat, |i: int| 0u8)
}

/// An attribute as bytes, up to a multiple of four. The length field has room
/// for 16 bits.
pub open spec fn attr_bytes(kind: u16, data: Seq<u8>) -> Seq<u8> {
    le16_bytes(((4 + data.len()) % 0x1_0000) as u16) + le16_bytes(kind) + data + zero_bytes(
        align4(data.len() as int) - data.len(),
    )
}

/// Appends an attribute.
pub fn append_rtattr(out: &mut Vec<u8>, kind: u16, data: &[u8])
    ensures
        final(out)@ == old(out)@ + attr_bytes(kind, data@),
{
    let len: u16 = ((data.len() % 0x1_0000 + 4) % 0x1_0000) as u16;
    assert(len == (4 + data@.len()) % 0x1_0000);
    let pad: usize = (4 - data.len() % 4) % 4;
    assert(pad == align4(data@.len() as int) - data@.len());
    let ghost front = out@;
    put_le16(out, len);
    put_le16(out, kind);
    assert(out@ =~= front + (le16_bytes(len) + le16_bytes(kind)));
    append_bytes(out, data);
    assert(out@ =~= front + (le16_bytes(len) + le16_bytes(kind) + data@));
    append_zeros(out, pad);
    assert(out@ =~= front + attr_bytes(kind, data@));
}

/// The header of a message.
pub open spec fn message_head(len: u32, kind: u16, flags: u16, seq: u32, port_id: u32) -> Seq<u8> {
    le32_bytes(len) + (le16_bytes(kind) + le16_bytes(flags)) + (le32_bytes(seq) + le32_bytes(
        port_id,
    ))
}

fn put_message_head(len: u32, kind: u16, flags: u16, seq: u32, port_id: u32) -> (r: Vec<u8>)
    ensures
        r@ == message_head(len, kind, flags, seq, port_id),
{
    let mut out: Vec<u8> = Vec::new();
    put_le32(&mut out, len);
    assert(out@ =~= le32_bytes(len));
    put_le16(&mut out, kind);
    put_le16(&mut out, flags);
    assert(out@ =~= le32_bytes(len) + (le16_bytes(kind) + le16_bytes(flags)));
    let ghost half = out@;
    put_le32(&mut out, seq);
    put_le32(&mut out, port_id);
    assert(out@ =~= half + (le32_bytes(seq) + le32_bytes(port_id)));
    out
}

fn message_len(attrs_len: usize) -> (r: u32)
    ensures
        r == (20 + attrs_len) % 0x1_0000_0000,
{
    ((attrs_len as u64 % 0x1_0000_0000 + 20) % 0x1_0000_0000) as u32
}

fn append_command(out: &mut Vec<u8>, cmd: u8, version: u8)
    ensures
        final(out)@ == old(out)@ + seq![cmd, version, 0u8, 0u8],
{
    out.push(cmd);
    out.push(version);
    out.push(0);
    out.push(0);
    assert(out@ =~= old(out)@ + seq![cmd, version, 0u8, 0u8]);
}

/// A generic message: a header, the command and its version, and attributes.
pub open spec fn genl_bytes(
    family: u16,
    cmd: u8,
    version: u8,
    seq: u32,
    flags: u16,
    port_id: u32,
    attrs: Seq<u8>,
) -> Seq<u8> {
    let len = ((20 + attrs.len()) % 0x1_0000_0000) as u32;
    message_head(len, family, flags, seq, port_id) + seq![cmd, version, 0u8, 0u8] + attrs
}

/// Builds a generic message.
pub fn build_genlmsg(
    family: u16,
    cmd: u8,
    version: u8,
    seq: u32,
    flags: u16,
    port_id: u32,
    attrs: &[u8],
) -> (r: Vec<u8>)
    ensures
        r@ == genl_bytes(family, cmd, version, seq, flags, port_id, attrs@),
{
    let len: u32 = message_len(attrs.len());
    let mut out = put_message_head(len, family, flags, seq, port_id);
    append_command(&mut out, cmd, version);
    append_bytes(&mut out, attrs);
    out
}

/// The message that ends a list of messages.
pub open spec fn done_bytes(seq: u32, port_id: u32) -> Seq<u8> {
    message_head(20, NLMSG_DONE, NLM_F_MULTI, seq, port_id) + le32_bytes(0)
}

/// Builds the message that ends a list of messages.
pub fn build_done(seq: u32, port_id: u32) -> (r: Vec<u8>)
    ensures
        r@ == done_bytes(seq, port_id),
{
    let mut out = put_message_head(20, NLMSG_DONE, NLM_F_MULTI, seq, port_id);
    put_le32(&mut out, 0);
    out
}

// ---------------------------------------------------------------------------
// Laws.
// ---------------------------------------------------------------------------

/// Attributes behind one another.
pub open spec fn all_bytes(attrs: Seq<AttrView>) -> Seq<u8>
    decreases attrs.len(),
{
    if attrs.len() == 0 {
        Seq::empty()
    } else {
        attr_bytes(attrs[0].kind, attrs[0].data) + all_bytes(attrs.skip(1))
    }
}

/// An attribute that can be written and read: its number has no flags, and its
/// length fits.
pub open spec fn attr_fits(a: AttrView) -> bool {
    a.kind < 0x4000 && a.data.len() <= 65531
}

proof fn lemma_attr_fields(kind: u16, data: Seq<u8>)
    requires
        data.len() <= 65531,
    ensures
        ({
            let a = attr_bytes(kind, data);
            &&& a.len() == 4 + align4(data.len() as int)
            &&& le16(a, 0) == 4 + data.len()
            &&& le16(a, 2) == kind
            &&& a.subrange(4, 4 + data.len() as int) == data
        }),
{
    let a = attr_bytes(kind, data);
    let n = ((4 + data.len()) % 0x1_0000) as u16;
    lemma_le16_inverse(n);
    lemma_le16_inverse(kind);
    let x = le16_bytes(n);
    let y = le16_bytes(kind);
    let z = data + zero_bytes(align4(data.len() as int) - data.len());
    assert(a =~= (x + y) + z);
    assert((x + y)[0] == x[0] && (x + y)[1] == x[1] && (x + y)[2] == y[0] && (x + y)[3] == y[1]);
    assert(a[0] == x[0] && a[1] == x[1] && a[2] == y[0] && a[3] == y[1]);
    assert(a.subrange(4, 4 + data.len() as int) =~= data);
}

proof fn lemma_attr_head(kind: u16, data: Seq<u8>, rest: Seq<u8>, front: Seq<u8>)
    requires
        data.len() <= 65531,
    ensures
        ({
            let s = front + attr_bytes(kind, data) + rest;
            let o = front.len() as int;
            &&& le16(s, o) == 4 + data.len()
            &&& le16(s, o + 2) == kind
            &&& s.subrange(o + 4, o + 4 + data.len()) == data
            &&& attr_bytes(kind, data).len() == 4 + align4(data.len() as int)
        }),
{
    let a = attr_bytes(kind, data);
    lemma_attr_fields(kind, data);
    let s = front + a + rest;
    let o = front.len() as int;
    assert(forall|i: int| 0 <= i < a.len() ==> s[o + i] == #[trigger] a[i]);
    assert(s[o] == a[0] && s[o + 1] == a[1] && s[o + 2] == a[2] && s[o + 3] == a[3]);
    assert(s.subrange(o + 4, o + 4 + data.len()) =~= a.subrange(4, 4 + data.len() as int));
}

proof fn lemma_read_back(front: Seq<u8>, attrs: Seq<AttrView>, seen: Seq<AttrView>)
    requires
        forall|i: int| 0 <= i < attrs.len() ==> attr_fits(#[trigger] attrs[i]),
    ensures
        attrs_from(front + all_bytes(attrs), front.len() as int, seen) == Ok::<
            Seq<AttrView>,
            isize,
        >(seen + attrs),
    decreases attrs.len(),
{
    let s = front + all_bytes(attrs);
    if attrs.len() == 0 {
        assert(s =~= front);
        assert(seen + attrs =~= seen);
    } else {
        let a = attrs[0];
        let rest = attrs.skip(1);
        let b = attr_bytes(a.kind, a.data);
        assert(s =~= front + b + all_bytes(rest));
        lemma_attr_head(a.kind, a.data, all_bytes(rest), front);
        let o = front.len() as int;
        assert(align4(4 + a.data.len() as int) == 4 + align4(a.data.len() as int));
        assert(b.len() == align4(4 + a.data.len() as int));
        assert forall|i: int| 0 <= i < rest.len() implies attr_fits(#[trigger] rest[i]) by {
            assert(rest[i] == attrs[i + 1]);
        }
        lemma_read_back(front + b, rest, seen.push(a));
        assert((front + b) + all_bytes(rest) =~= s);
        assert(s.subrange(o + 4, o + 4 + a.data.len()) == a.data);
        assert(AttrView { kind: (le16(s, o + 2) % 0x4000) as u16, data: a.data } == a);
        assert(seen.push(a) + rest =~= seen + attrs);
    }
}

/// Attributes that were written are read back, in their order.
pub proof fn law_attributes_read_back(attrs: Seq<AttrView>)
    requires
        forall|i: int| 0 <= i < attrs.len() ==> attr_fits(#[trigger] attrs[i]),
    ensures
        attrs_in(all_bytes(attrs)) == Ok::<Seq<AttrView>, isize>(attrs),
{
    lemma_read_back(Seq::empty(), attrs, Seq::empty());
    assert(Seq::<u8>::empty() + all_bytes(attrs) =~= all_bytes(attrs));
    assert(Seq::<AttrView>::empty() + attrs =~= attrs);
}

} // verus!
