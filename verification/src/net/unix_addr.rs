//! Addresses of local sockets.

use vstd::prelude::*;
use vstd::utf8::valid_utf8;
use crate::bytes::{le16, le16_bytes, put_le16, read_le16};
use crate::errno::{EFAULT, EINVAL};
use crate::net::optval::AF_UNIX;
use crate::text::{
    append_bytes, append_zeros, bytes_eq, copy_range, find_byte, index_or_end, is_utf8,
    lemma_index_or_end,
};

verus! {

pub const SOCKADDR_STORAGE_SIZE: usize = 128;
pub const SOCKADDR_UN_SIZE: usize = 110;

/// The name of a local socket: a path of the file system, or a name that only
/// sockets see.
pub enum UnixAddr {
    Path(Vec<u8>),
    Abstract(Vec<u8>),
}

/// A name as plain values.
#[verifier::ext_equal]
pub enum UnixName {
    Path(Seq<u8>),
    Abstract(Seq<u8>),
}

impl View for UnixAddr {
    type V = UnixName;

    open spec fn view(&self) -> UnixName {
        match self {
            UnixAddr::Path(p) => UnixName::Path(p@),
            UnixAddr::Abstract(n) => UnixName::Abstract(n@),
        }
    }
}

/// A name that may be missing.
pub open spec fn name_view(a: Option<UnixAddr>) -> Option<UnixName> {
    match a {
        Some(a) => Some(a@),
        None => None,
    }
}

/// Copies a name.
pub fn copy_name(a: &UnixAddr) -> (r: UnixAddr)
    ensures
        r@ == a@,
{
    match a {
        UnixAddr::Path(p) => {
            let q = copy_range(p.as_slice(), 0, p.len());
            assert(q@ =~= p@);
            UnixAddr::Path(q)
        },
        UnixAddr::Abstract(n) => {
            let q = copy_range(n.as_slice(), 0, n.len());
            assert(q@ =~= n@);
            UnixAddr::Abstract(q)
        },
    }
}

/// Copies a name that may be missing.
pub fn copy_optional_name(a: &Option<UnixAddr>) -> (r: Option<UnixAddr>)
    ensures
        name_view(r) == name_view(*a),
{
    match a {
        Some(a) => Some(copy_name(a)),
        None => None,
    }
}

/// Compares two names.
pub fn same_name(a: &UnixAddr, b: &UnixAddr) -> (r: bool)
    ensures
        r == (a@ == b@),
{
    match (a, b) {
        (UnixAddr::Path(p), UnixAddr::Path(q)) => bytes_eq(p.as_slice(), q.as_slice()),
        (UnixAddr::Abstract(p), UnixAddr::Abstract(q)) => bytes_eq(p.as_slice(), q.as_slice()),
        _ => false,
    }
}

// ---------------------------------------------------------------------------
// Reading an address.
// ---------------------------------------------------------------------------

/// Without the zeros at its end.
pub open spec fn trimmed(s: Seq<u8>) -> Seq<u8>
    decreases s.len(),
{
    if s.len() > 0 && s.last() == 0 {
        trimmed(s.drop_last())
    } else {
        s
    }
}

/// The name in an address field. A field that starts with a zero holds an
/// abstract name, which the zeros at its end do not belong to.
pub open spec fn name_in(path: Seq<u8>) -> Option<UnixName> {
    if path.len() == 0 {
        None
    } else if path[0] == 0 {
        let name = trimmed(path.skip(1));
        if name.len() == 0 {
            None
        } else {
            Some(UnixName::Abstract(name))
        }
    } else {
        Some(UnixName::Path(path.take(index_or_end(path, 0, 0))))
    }
}

/// What an address of `len` bytes is read as. `mem` are the bytes that can be
/// read from `ptr` on.
pub open spec fn parsed(ptr: usize, len: usize, mem: Seq<u8>) -> Result<UnixName, isize> {
    if len > SOCKADDR_STORAGE_SIZE {
        Err(EINVAL)
    } else if len != 0 && (ptr == 0 || mem.len() < len) {
        Err(EFAULT)
    } else if len <= 2 || len > SOCKADDR_UN_SIZE {
        Err(EINVAL)
    } else if le16(mem, 0) != AF_UNIX {
        Err(EINVAL)
    } else {
        match name_in(mem.subrange(2, len as int)) {
            Some(n) => Ok(n),
            None => Err(EINVAL),
        }
    }
}

/// Removes the zeros at the end.
fn trim_zeros(s: &mut Vec<u8>)
    ensures
        final(s)@ == trimmed(old(s)@),
{
    let ghost s0 = s@;
    while s.len() > 0 && s[s.len() - 1] == 0
        invariant
            trimmed(s@) == trimmed(s0),
        decreases s@.len(),
    {
        let ghost before = s@;
        s.pop();
        assert(s@ =~= before.drop_last());
    }
}

/// Reads an address. A path is taken as it stands.
pub fn parse_sockaddr_un(ptr: usize, len: usize, mem: &[u8]) -> (r: Result<UnixAddr, isize>)
    ensures
        match r {
            Ok(a) => parsed(ptr, len, mem@) == Ok::<UnixName, isize>(a@),
            Err(e) => parsed(ptr, len, mem@) == Err::<UnixName, isize>(e),
        },
{
    if len > SOCKADDR_STORAGE_SIZE {
        return Err(EINVAL);
    }
    if len != 0 && (ptr == 0 || mem.len() < len) {
        return Err(EFAULT);
    }
    if len <= 2 || len > SOCKADDR_UN_SIZE {
        return Err(EINVAL);
    }
    if read_le16(mem, 0) != AF_UNIX {
        return Err(EINVAL);
    }
    let ghost path = mem@.subrange(2, len as int);
    if mem[2] == 0 {
        let mut name = copy_range(mem, 3, len);
        assert(name@ =~= path.skip(1));
        trim_zeros(&mut name);
        if name.len() == 0 {
            return Err(EINVAL);
        }
        return Ok(UnixAddr::Abstract(name));
    }
    let raw = copy_range(mem, 2, len);
    assert(raw@ =~= path);
    let end: usize = find_byte(raw.as_slice(), 0, 0);
    let text = copy_range(raw.as_slice(), 0, end);
    assert(text@ =~= path.take(index_or_end(path, 0, 0)));
    Ok(UnixAddr::Path(text))
}

/// The family of an address.
pub open spec fn family_of(ptr: usize, len: usize, mem: Seq<u8>) -> Result<u16, isize> {
    if ptr == 0 {
        Err(EFAULT)
    } else if len < 2 {
        Err(EINVAL)
    } else if mem.len() < 2 {
        Err(EFAULT)
    } else {
        Ok(le16(mem, 0) as u16)
    }
}

pub fn read_sockaddr_un_family(ptr: usize, len: usize, mem: &[u8]) -> (r: Result<u16, isize>)
    ensures
        r == family_of(ptr, len, mem@),
{
    if ptr == 0 {
        return Err(EFAULT);
    }
    if len < 2 {
        return Err(EINVAL);
    }
    if mem.len() < 2 {
        return Err(EFAULT);
    }
    Ok(read_le16(mem, 0))
}

/// The name that an address binds to. A path must be text; what directory it is
/// relative to is not part of the address.
pub open spec fn bound_name(ptr: usize, len: usize, mem: Seq<u8>) -> Result<UnixName, isize> {
    match parsed(ptr, len, mem) {
        Ok(UnixName::Path(p)) => if valid_utf8(p) {
            Ok(UnixName::Path(p))
        } else {
            Err(EINVAL)
        },
        r => r,
    }
}

/// Reads the name that a call speaks of.
pub fn parse_unix_bound_addr(ptr: usize, len: usize, mem: &[u8]) -> (r: Result<UnixAddr, isize>)
    ensures
        match r {
            Ok(a) => bound_name(ptr, len, mem@) == Ok::<UnixName, isize>(a@),
            Err(e) => bound_name(ptr, len, mem@) == Err::<UnixName, isize>(e),
        },
{
    match parse_sockaddr_un(ptr, len, mem) {
        Ok(UnixAddr::Path(p)) => {
            if is_utf8(p.as_slice()) {
                Ok(UnixAddr::Path(p))
            } else {
                Err(EINVAL)
            }
        },
        Ok(UnixAddr::Abstract(n)) => Ok(UnixAddr::Abstract(n)),
        Err(e) => Err(e),
    }
}

// ---------------------------------------------------------------------------
// Writing an address.
// ---------------------------------------------------------------------------

/// As much of a name as the field has room for.
pub open spec fn cut_name(name: Seq<u8>) -> Seq<u8> {
    if name.len() > 107 {
        name.take(107)
    } else {
        name
    }
}

/// Filled up with zeros.
pub open spec fn padded(s: Seq<u8>, n: int) -> Seq<u8> {
    Seq::new(
        n as nat,
        |i: int|
            if i < s.len() {
                s[i]
            } else {
                0u8
            },
    )
}

/// The name field of an address.
pub open spec fn path_field(name: Option<UnixName>) -> Seq<u8> {
    match name {
        None => padded(Seq::empty(), 108),
        Some(UnixName::Path(p)) => padded(cut_name(p), 108),
        Some(UnixName::Abstract(n)) => padded(seq![0u8] + cut_name(n), 108),
    }
}

/// A whole address.
pub open spec fn sockaddr_un(name: Option<UnixName>) -> Seq<u8> {
    le16_bytes(AF_UNIX) + path_field(name)
}

fn put_cut_name(out: &mut Vec<u8>, name: &Vec<u8>)
    ensures
        final(out)@ == old(out)@ + cut_name(name@),
{
    let end: usize = if name.len() > 107 {
        107
    } else {
        name.len()
    };
    let part = copy_range(name.as_slice(), 0, end);
    assert(part@ =~= cut_name(name@));
    append_bytes(out, part.as_slice());
}

/// Builds an address.
pub fn sockaddr_un_bytes(name: &Option<UnixAddr>) -> (r: Vec<u8>)
    ensures
        r@ == sockaddr_un(name_view(*name)),
        r@.len() == SOCKADDR_UN_SIZE,
{
    let mut out: Vec<u8> = Vec::new();
    put_le16(&mut out, AF_UNIX);
    let ghost head = out@;
    assert(head =~= le16_bytes(AF_UNIX));
    match name {
        None => {},
        Some(UnixAddr::Path(p)) => {
            put_cut_name(&mut out, p);
        },
        Some(UnixAddr::Abstract(n)) => {
            out.push(0);
            put_cut_name(&mut out, n);
        },
    }
    let used: usize = out.len();
    append_zeros(&mut out, SOCKADDR_UN_SIZE - used);
    assert(out@ =~= sockaddr_un(name_view(*name)));
    out
}

/// An address for a caller: the bytes that fit, and the length that is written
/// back.
pub struct AddrReply {
    pub bytes: Vec<u8>,
    pub len: u32,
}

/// Why an address cannot be handed out. `len` is the room that the caller gave,
/// or `None` if it cannot be read.
pub open spec fn reply_error(ptr: usize, len_ptr: usize, len: Option<u32>) -> Option<isize> {
    if ptr == 0 || len_ptr == 0 {
        Some(EFAULT)
    } else {
        match len {
            None => Some(EFAULT),
            Some(n) => if n > i32::MAX {
                Some(EINVAL)
            } else {
                None
            },
        }
    }
}

/// The part of a value that fits.
pub open spec fn fitting(value: Seq<u8>, room: int) -> Seq<u8> {
    if value.len() > room {
        value.take(room)
    } else {
        value
    }
}

/// Hands an address to the caller. The length that is written back is that of a
/// whole address, so that the caller sees what was cut.
pub fn write_sockaddr_un(ptr: usize, len_ptr: usize, len: Option<u32>, name: &Option<UnixAddr>) -> (
r: Result<AddrReply, isize>)
    ensures
        match r {
            Err(e) => reply_error(ptr, len_ptr, len) == Some(e),
            Ok(a) => reply_error(ptr, len_ptr, len) is None && a.len == SOCKADDR_UN_SIZE
                && a.bytes@ == fitting(sockaddr_un(name_view(*name)), len->0 as int),
        },
{
    if ptr == 0 || len_ptr == 0 {
        return Err(EFAULT);
    }
    let room: u32 = match len {
        Some(n) => n,
        None => {
            return Err(EFAULT);
        },
    };
    if room > i32::MAX as u32 {
        return Err(EINVAL);
    }
    let whole = sockaddr_un_bytes(name);
    if whole.len() > room as usize {
        let part = copy_range(whole.as_slice(), 0, room as usize);
        assert(part@ =~= fitting(whole@, room as int));
        Ok(AddrReply { bytes: part, len: 110 })
    } else {
        Ok(AddrReply { bytes: whole, len: 110 })
    }
}

/// Builds the sender's address of a received message.
pub fn write_msg_name_un(name: &Option<UnixAddr>) -> (r: Vec<u8>)
    ensures
        r@ == sockaddr_un(name_view(*name)),
        r@.len() == SOCKADDR_UN_SIZE,
{
    sockaddr_un_bytes(name)
}

/// A name that an address can hold.
pub open spec fn writable(name: UnixName) -> bool {
    match name {
        UnixName::Path(p) => 0 < p.len() <= 107 && !p.contains(0u8),
        UnixName::Abstract(n) => 0 < n.len() <= 107 && n.last() != 0,
    }
}

proof fn lemma_trimmed_padding(name: Seq<u8>, n: int)
    requires
        n >= name.len(),
        name.len() > 0 ==> name.last() != 0,
    ensures
        trimmed(padded(name, n)) == name,
    decreases n,
{
    let p = padded(name, n);
    if n > name.len() {
        assert(p.drop_last() =~= padded(name, n - 1));
        lemma_trimmed_padding(name, n - 1);
    } else {
        assert(p =~= name);
    }
}

/// An address that was written is read as the name that it was made of.
pub proof fn law_addresses_read_back(name: UnixName, ptr: usize)
    requires
        writable(name),
        ptr != 0,
    ensures
        parsed(ptr, SOCKADDR_UN_SIZE, sockaddr_un(Some(name))) == Ok::<UnixName, isize>(name),
{
    let whole = sockaddr_un(Some(name));
    let field = path_field(Some(name));
    assert(whole.subrange(2, 110) =~= field);
    crate::bytes::lemma_le16_inverse(AF_UNIX);
    assert(whole[0] == le16_bytes(AF_UNIX)[0] && whole[1] == le16_bytes(AF_UNIX)[1]);
    match name {
        UnixName::Path(p) => {
            assert(field[0] == p[0]);
            assert(p.contains(p[0]));
            lemma_index_or_end(field, 0, 0);
            assert(field[p.len() as int] == 0);
            assert forall|j: int| 0 <= j < p.len() implies field[j] != 0 by {
                assert(p.contains(p[j]));
            }
            assert(field.take(p.len() as int) =~= p);
        },
        UnixName::Abstract(n) => {
            assert(field.skip(1) =~= padded(n, 107));
            lemma_trimmed_padding(n, 107);
        },
    }
}

/// A name that was read from an address is written as an address that reads the
/// same. One name is left out: a path that fills the whole field loses its last
/// byte when it is written.
pub proof fn law_names_survive_a_round(ptr: usize, len: usize, mem: Seq<u8>)
    requires
        parsed(ptr, len, mem) is Ok,
        parsed(ptr, len, mem)->Ok_0 matches UnixName::Path(p) ==> p.len() <= 107,
    ensures
        parsed(ptr, SOCKADDR_UN_SIZE, sockaddr_un(Some(parsed(ptr, len, mem)->Ok_0))) == parsed(
            ptr,
            len,
            mem,
        ),
{
    let path = mem.subrange(2, len as int);
    let name = parsed(ptr, len, mem)->Ok_0;
    if path[0] == 0 {
        lemma_trimmed(path.skip(1));
    } else {
        lemma_first_zero(path);
    }
    law_addresses_read_back(name, ptr);
}

proof fn lemma_trimmed(s: Seq<u8>)
    ensures
        trimmed(s).len() <= s.len(),
        trimmed(s).len() > 0 ==> trimmed(s).last() != 0,
    decreases s.len(),
{
    if s.len() > 0 && s.last() == 0 {
        lemma_trimmed(s.drop_last());
    }
}

proof fn lemma_first_zero(path: Seq<u8>)
    requires
        path.len() > 0,
        path[0] != 0,
    ensures
        0 < index_or_end(path, 0, 0) <= path.len(),
        !path.take(index_or_end(path, 0, 0)).contains(0u8),
{
    lemma_index_or_end(path, 0, 0);
}

// ---------------------------------------------------------------------------
// Paths.
// ---------------------------------------------------------------------------

/// Without the slashes at its end.
pub open spec fn without_slashes(s: Seq<u8>) -> Seq<u8>
    decreases s.len(),
{
    if s.len() > 0 && s.last() == 47 {
        without_slashes(s.drop_last())
    } else {
        s
    }
}

/// The place of the last slash.
pub open spec fn last_slash(s: Seq<u8>) -> Option<int>
    decreases s.len(),
{
    if s.len() == 0 {
        None
    } else if s.last() == 47 {
        Some(s.len() - 1)
    } else {
        last_slash(s.drop_last())
    }
}

/// The directory of a path, and its name in it.
pub open spec fn split_path(path: Seq<u8>) -> Option<(Seq<u8>, Seq<u8>)> {
    let t = without_slashes(path);
    match last_slash(t) {
        None => None,
        Some(k) => Some(
            (
                if k == 0 {
                    seq![47u8]
                } else {
                    t.take(k)
                },
                t.skip(k + 1),
            ),
        ),
    }
}

/// Splits a path into its directory and its name. A path without a directory,
/// and the root, cannot be split.
pub fn split_parent_and_name(path: &[u8]) -> (r: Option<(Vec<u8>, Vec<u8>)>)
    ensures
        match r {
            Some((d, n)) => split_path(path@) == Some((d@, n@)),
            None => split_path(path@) is None,
        },
{
    let mut end: usize = path.len();
    assert(path@.take(end as int) =~= path@);
    while end > 0 && path[end - 1] == 47
        invariant
            end <= path@.len(),
            without_slashes(path@.take(end as int)) == without_slashes(path@),
        ensures
            end <= path@.len(),
            without_slashes(path@) == path@.take(end as int),
        decreases end,
    {
        assert(path@.take(end as int).drop_last() =~= path@.take(end - 1));
        end -= 1;
    }
    let ghost t = path@.take(end as int);
    let mut k: usize = end;
    assert(t.take(k as int) =~= t);
    while k > 0 && path[k - 1] != 47
        invariant
            k <= end <= path@.len(),
            t == path@.take(end as int),
            last_slash(t.take(k as int)) == last_slash(t),
        ensures
            k <= end,
            k == 0 ==> last_slash(t) is None,
            k > 0 ==> last_slash(t) == Some(k - 1),
        decreases k,
    {
        assert(t.take(k as int).drop_last() =~= t.take(k - 1));
        k -= 1;
    }
    if k == 0 {
        return None;
    }
    let name = copy_range(path, k, end);
    assert(name@ =~= t.skip(k as int));
    let dir = if k == 1 {
        let mut root: Vec<u8> = Vec::new();
        root.push(47);
        assert(root@ =~= seq![47u8]);
        root
    } else {
        let d = copy_range(path, 0, k - 1);
        assert(d@ =~= t.take(k - 1));
        d
    };
    Some((dir, name))
}

/// The name that a path ends in is not empty and has no slash.
pub proof fn law_split_names(path: Seq<u8>)
    requires
        split_path(path) is Some,
    ensures
        ({
            let (dir, name) = split_path(path)->0;
            name.len() > 0 && !name.contains(47u8)
        }),
{
    let t = without_slashes(path);
    lemma_without_slashes(path);
    lemma_last_slash(t);
}

proof fn lemma_without_slashes(s: Seq<u8>)
    ensures
        without_slashes(s).len() > 0 ==> without_slashes(s).last() != 47,
    decreases s.len(),
{
    if s.len() > 0 && s.last() == 47 {
        lemma_without_slashes(s.drop_last());
    }
}

proof fn lemma_last_slash(s: Seq<u8>)
    ensures
        match last_slash(s) {
            Some(k) => 0 <= k < s.len() && s[k] == 47 && forall|i: int| k < i < s.len() ==> s[i]
                != 47,
            None => forall|i: int| 0 <= i < s.len() ==> s[i] != 47,
        },
    decreases s.len(),
{
    if s.len() > 0 && s.last() != 47 {
        lemma_last_slash(s.drop_last());
        assert forall|i: int| 0 <= i < s.len() - 1 implies s[i] == s.drop_last()[i] by {}
    }
}

} // verus!
