//! Option values in user memory, and the rules that turn them into settings.

use vstd::prelude::*;
use vstd::utf8::valid_utf8;
use crate::bytes::{
    be32, le16, le32, le64, read_be32, read_le16, read_le32, read_le64,
};
use crate::errno::{EADDRNOTAVAIL, EDOM, EFAULT, EINVAL, EPERM};
use crate::text::{append_zeros, copy_range, find_byte, index_or_end, is_utf8};

verus! {

pub const AF_UNIX: u16 = 1;
pub const AF_INET: u16 = 2;
pub const AF_NETLINK: u16 = 16;
pub const AF_PACKET: u16 = 17;
pub const AF_VSOCK: u16 = 40;
pub const SOCK_STREAM: u32 = 1;
pub const SOCK_DGRAM: u32 = 2;

pub const SO_REUSEADDR: usize = 2;
pub const SO_TYPE: usize = 3;
pub const SO_ERROR: usize = 4;
pub const SO_DONTROUTE: usize = 5;
pub const SO_BROADCAST: usize = 6;
pub const SO_SNDBUF: usize = 7;
pub const SO_RCVBUF: usize = 8;
pub const SO_KEEPALIVE: usize = 9;
pub const SO_OOBINLINE: usize = 10;
pub const SO_NO_CHECK: usize = 11;
pub const SO_PRIORITY: usize = 12;
pub const SO_LINGER: usize = 13;
pub const SO_BSDCOMPAT: usize = 14;
pub const SO_REUSEPORT: usize = 15;
pub const SO_PASSCRED: usize = 16;
pub const SO_PEERCRED: usize = 17;
pub const SO_RCVLOWAT: usize = 18;
pub const SO_SNDLOWAT: usize = 19;
pub const SO_RCVTIMEO_OLD: usize = 20;
pub const SO_SNDTIMEO_OLD: usize = 21;
pub const SO_BINDTODEVICE: usize = 25;
pub const SO_ATTACH_FILTER: usize = 26;
pub const SO_DETACH_FILTER: usize = 27;
pub const SO_TIMESTAMP_OLD: usize = 29;
pub const SO_ACCEPTCONN: usize = 30;
pub const SO_SNDBUFFORCE: usize = 32;
pub const SO_RCVBUFFORCE: usize = 33;
pub const SO_TIMESTAMPNS_OLD: usize = 35;
pub const SO_MARK: usize = 36;
pub const SO_PROTOCOL: usize = 38;
pub const SO_DOMAIN: usize = 39;
pub const SO_LOCK_FILTER: usize = 44;
pub const SO_BUSY_POLL: usize = 46;
pub const SO_BPF_EXTENSIONS: usize = 48;
pub const SO_ATTACH_BPF: usize = 50;
pub const SO_TIMESTAMP_NEW: usize = 63;
pub const SO_TIMESTAMPNS_NEW: usize = 64;
pub const SO_RCVTIMEO_NEW: usize = 66;
pub const SO_SNDTIMEO_NEW: usize = 67;
pub const SO_RCVMARK: usize = 75;
pub const SO_RCVPRIORITY: usize = 82;

pub const SOCKBUF_MAX: u32 = 212_992;
pub const SOCK_MIN_RCVBUF: u32 = 2_304;
pub const SOCK_MIN_SNDBUF: u32 = SOCK_MIN_RCVBUF * 2;
pub const CAP_NET_ADMIN: u64 = 12;
pub const CAP_NET_RAW: u64 = 13;
pub const TC_PRIO_INTERACTIVE: i32 = 6;
pub const MAX_TCP_KEEPIDLE: i32 = 32_767;
pub const MAX_TCP_KEEPINTVL: i32 = 32_767;
pub const MAX_TCP_KEEPCNT: i32 = 127;
pub const TPACKET_V1: i32 = 0;
pub const TPACKET_V2: i32 = 1;
pub const TPACKET_V3: i32 = 2;

/// An option value: its address, its length, and the bytes that can be read from
/// the address on.
pub struct OptVal {
    pub ptr: usize,
    pub len: usize,
    pub mem: Vec<u8>,
}

/// The value cannot be read as `n` bytes.
pub open spec fn unreadable(v: OptVal, n: int) -> bool {
    v.ptr == 0 || v.mem@.len() < n
}

// ---------------------------------------------------------------------------
// Values.
// ---------------------------------------------------------------------------

/// A number of any length: none counts as zero, and a short one as a byte.
pub open spec fn int_value(v: OptVal) -> Result<i32, isize> {
    if v.len == 0 {
        Ok(0)
    } else if v.len >= 4 {
        if unreadable(v, 4) {
            Err(EFAULT)
        } else {
            Ok((le32(v.mem@, 0) as u32) as i32)
        }
    } else if unreadable(v, 1) {
        Err(EFAULT)
    } else {
        Ok(v.mem@[0] as i32)
    }
}

/// A number of at least four bytes.
pub open spec fn int4_value(v: OptVal) -> Result<i32, isize> {
    if v.len < 4 {
        Err(EINVAL)
    } else {
        int_value(v)
    }
}

/// A number of four bytes.
pub open spec fn exact_int_value(v: OptVal) -> Result<i32, isize> {
    if v.len != 4 {
        Err(EINVAL)
    } else {
        int_value(v)
    }
}

/// A number of at least eight bytes.
pub open spec fn u64_value(v: OptVal) -> Result<u64, isize> {
    if v.len < 8 {
        Err(EINVAL)
    } else if unreadable(v, 8) {
        Err(EFAULT)
    } else {
        Ok(le64(v.mem@, 0) as u64)
    }
}

/// Whether to linger, and for how many seconds: a negative time is the longest.
pub open spec fn linger_value(v: OptVal) -> Result<(bool, i32), isize> {
    if v.len < 8 {
        Err(EINVAL)
    } else if unreadable(v, 8) {
        Err(EFAULT)
    } else {
        let sec = (le32(v.mem@, 4) as u32) as i32;
        Ok(
            (
                (le32(v.mem@, 0) as u32) as i32 != 0,
                if sec < 0 {
                    i32::MAX
                } else {
                    sec
                },
            ),
        )
    }
}

/// Milliseconds of a time in seconds and microseconds, rounded up and capped.
pub open spec fn timeval_ms(sec: int, usec: int) -> u64 {
    let ms = sec * 1000 + (usec + 999) / 1000;
    if ms > u64::MAX {
        u64::MAX
    } else {
        ms as u64
    }
}

/// A timeout: zero means none.
pub open spec fn timeval_value(v: OptVal) -> Result<Option<u64>, isize> {
    let sec = (le64(v.mem@, 0) as u64) as i64;
    let usec = (le64(v.mem@, 8) as u64) as i64;
    if v.len < 16 {
        Err(EINVAL)
    } else if unreadable(v, 16) {
        Err(EFAULT)
    } else if sec < 0 || usec < 0 || usec >= 1_000_000 {
        Err(EDOM)
    } else if sec == 0 && usec == 0 {
        Ok(None)
    } else {
        Ok(Some(timeval_ms(sec as int, usec as int)))
    }
}

/// How many bytes of an interface name are read.
pub open spec fn ifname_len(v: OptVal) -> int {
    if v.len < 16 {
        v.len as int
    } else {
        16
    }
}

/// The bytes of an interface name.
pub open spec fn ifname_bytes(v: OptVal) -> Seq<u8> {
    let raw = v.mem@.take(ifname_len(v));
    raw.take(index_or_end(raw, 0, 0))
}

/// An interface name.
pub open spec fn ifname_value(v: OptVal) -> Result<Seq<u8>, isize> {
    if v.len == 0 {
        Ok(Seq::empty())
    } else if unreadable(v, ifname_len(v)) {
        Err(EFAULT)
    } else if valid_utf8(ifname_bytes(v)) {
        Ok(ifname_bytes(v))
    } else {
        Err(EINVAL)
    }
}

pub fn read_sockopt_int(v: &OptVal) -> (r: Result<i32, isize>)
    ensures
        r == int_value(*v),
{
    if v.len == 0 {
        return Ok(0);
    }
    if v.ptr == 0 {
        return Err(EFAULT);
    }
    if v.len >= 4 {
        if v.mem.len() < 4 {
            return Err(EFAULT);
        }
        return Ok(read_le32(v.mem.as_slice(), 0) as i32);
    }
    if v.mem.len() < 1 {
        return Err(EFAULT);
    }
    Ok(v.mem[0] as i32)
}

/// Reads a number of at least four bytes.
pub fn read_int4(v: &OptVal) -> (r: Result<i32, isize>)
    ensures
        r == int4_value(*v),
{
    if v.len < 4 {
        return Err(EINVAL);
    }
    read_sockopt_int(v)
}

/// Reads a number of four bytes.
pub fn read_exact_int(v: &OptVal) -> (r: Result<i32, isize>)
    ensures
        r == exact_int_value(*v),
{
    if v.len != 4 {
        return Err(EINVAL);
    }
    read_sockopt_int(v)
}

pub fn read_sockopt_u64(v: &OptVal) -> (r: Result<u64, isize>)
    ensures
        r == u64_value(*v),
{
    if v.len < 8 {
        return Err(EINVAL);
    }
    if v.ptr == 0 || v.mem.len() < 8 {
        return Err(EFAULT);
    }
    Ok(read_le64(v.mem.as_slice(), 0))
}

pub fn read_linger(v: &OptVal) -> (r: Result<(bool, i32), isize>)
    ensures
        r == linger_value(*v),
{
    if v.len < 8 {
        return Err(EINVAL);
    }
    if v.ptr == 0 || v.mem.len() < 8 {
        return Err(EFAULT);
    }
    let on: i32 = read_le32(v.mem.as_slice(), 0) as i32;
    let sec: i32 = read_le32(v.mem.as_slice(), 4) as i32;
    let capped: i32 = if sec < 0 {
        i32::MAX
    } else {
        sec
    };
    Ok((on != 0, capped))
}

pub fn read_socket_timeval_ms(v: &OptVal) -> (r: Result<Option<u64>, isize>)
    ensures
        r == timeval_value(*v),
{
    if v.len < 16 {
        return Err(EINVAL);
    }
    if v.ptr == 0 || v.mem.len() < 16 {
        return Err(EFAULT);
    }
    let sec: i64 = read_le64(v.mem.as_slice(), 0) as i64;
    let usec: i64 = read_le64(v.mem.as_slice(), 8) as i64;
    if sec < 0 || usec < 0 || usec >= 1_000_000 {
        return Err(EDOM);
    }
    if sec == 0 && usec == 0 {
        return Ok(None);
    }
    let ms: u128 = sec as u128 * 1000 + (usec as u128 + 999) / 1000;
    if ms > u64::MAX as u128 {
        Ok(Some(u64::MAX))
    } else {
        Ok(Some(ms as u64))
    }
}

pub fn read_sockopt_ifname(v: &OptVal) -> (r: Result<Vec<u8>, isize>)
    ensures
        match r {
            Ok(name) => ifname_value(*v) == Ok::<Seq<u8>, isize>(name@),
            Err(e) => ifname_value(*v) == Err::<Seq<u8>, isize>(e),
        },
{
    if v.len == 0 {
        let empty: Vec<u8> = Vec::new();
        assert(empty@ =~= Seq::<u8>::empty());
        return Ok(empty);
    }
    let n: usize = if v.len < 16 {
        v.len
    } else {
        16
    };
    if v.ptr == 0 || v.mem.len() < n {
        return Err(EFAULT);
    }
    let raw = copy_range(v.mem.as_slice(), 0, n);
    assert(raw@ =~= v.mem@.take(n as int));
    let end: usize = find_byte(raw.as_slice(), 0, 0);
    let name = copy_range(raw.as_slice(), 0, end);
    assert(name@ =~= ifname_bytes(*v));
    if is_utf8(name.as_slice()) {
        Ok(name)
    } else {
        Err(EINVAL)
    }
}

// ---------------------------------------------------------------------------
// Packet sockets.
// ---------------------------------------------------------------------------

/// The seven fields of a ring request; the last three exist in one version only.
#[derive(Clone, Copy)]
pub struct RingReq {
    pub block_size: u32,
    pub block_nr: u32,
    pub frame_size: u32,
    pub frame_nr: u32,
    pub retire_blk_tov: u32,
    pub sizeof_priv: u32,
    pub feature_req_word: u32,
}

/// The size of a ring request.
pub open spec fn ring_req_len(version: i32) -> Option<int> {
    if version == TPACKET_V1 || version == TPACKET_V2 {
        Some(16)
    } else if version == TPACKET_V3 {
        Some(28)
    } else {
        None
    }
}

/// A ring request.
pub open spec fn ring_value(v: OptVal, version: i32) -> Result<RingReq, isize> {
    match ring_req_len(version) {
        None => Err(EINVAL),
        Some(n) => if v.len < n || unreadable(v, n) {
            Err(EINVAL)
        } else {
            Ok(
                RingReq {
                    block_size: le32(v.mem@, 0) as u32,
                    block_nr: le32(v.mem@, 4) as u32,
                    frame_size: le32(v.mem@, 8) as u32,
                    frame_nr: le32(v.mem@, 12) as u32,
                    retire_blk_tov: if n == 28 {
                        le32(v.mem@, 16) as u32
                    } else {
                        0
                    },
                    sizeof_priv: if n == 28 {
                        le32(v.mem@, 20) as u32
                    } else {
                        0
                    },
                    feature_req_word: if n == 28 {
                        le32(v.mem@, 24) as u32
                    } else {
                        0
                    },
                },
            )
        },
    }
}

pub fn read_packet_ring_req(v: &OptVal, version: i32) -> (r: Result<RingReq, isize>)
    ensures
        r == ring_value(*v, version),
{
    let n: usize = if version == TPACKET_V1 || version == TPACKET_V2 {
        16
    } else if version == TPACKET_V3 {
        28
    } else {
        return Err(EINVAL);
    };
    if v.len < n || v.ptr == 0 || v.mem.len() < n {
        return Err(EINVAL);
    }
    let m = v.mem.as_slice();
    let mut req = RingReq {
        block_size: read_le32(m, 0),
        block_nr: read_le32(m, 4),
        frame_size: read_le32(m, 8),
        frame_nr: read_le32(m, 12),
        retire_blk_tov: 0,
        sizeof_priv: 0,
        feature_req_word: 0,
    };
    if n == 28 {
        req.retire_blk_tov = read_le32(m, 16);
        req.sizeof_priv = read_le32(m, 20);
        req.feature_req_word = read_le32(m, 24);
    }
    Ok(req)
}

/// A fanout group, and how many members it may have.
pub open spec fn fanout_value(v: OptVal) -> Result<(u32, u32), isize> {
    if v.len != 4 && v.len != 8 {
        Err(EINVAL)
    } else if unreadable(v, v.len as int) {
        Err(EFAULT)
    } else {
        Ok(
            (
                le32(v.mem@, 0) as u32,
                if v.len == 8 {
                    le32(v.mem@, 4) as u32
                } else {
                    0
                },
            ),
        )
    }
}

pub fn read_packet_fanout(v: &OptVal) -> (r: Result<(u32, u32), isize>)
    ensures
        r == fanout_value(*v),
{
    if v.len != 4 && v.len != 8 {
        return Err(EINVAL);
    }
    if v.ptr == 0 || v.mem.len() < v.len {
        return Err(EFAULT);
    }
    let group: u32 = read_le32(v.mem.as_slice(), 0);
    let members: u32 = if v.len == 8 {
        read_le32(v.mem.as_slice(), 4)
    } else {
        0
    };
    Ok((group, members))
}

/// A membership of a packet socket: the interface, the type, and the address,
/// of which the first `alen` bytes count.
#[derive(Clone, Copy)]
pub struct PacketMreq {
    pub ifindex: i32,
    pub mr_type: u16,
    pub alen: u16,
    pub addr: u64,
}

pub open spec fn packet_mreq_value(v: OptVal) -> Result<PacketMreq, isize> {
    if v.len < 16 {
        Err(EINVAL)
    } else if unreadable(v, 16) {
        Err(EFAULT)
    } else if le16(v.mem@, 6) > 8 {
        Err(EINVAL)
    } else {
        Ok(
            PacketMreq {
                ifindex: (le32(v.mem@, 0) as u32) as i32,
                mr_type: le16(v.mem@, 4) as u16,
                alen: le16(v.mem@, 6) as u16,
                addr: le64(v.mem@, 8) as u64,
            },
        )
    }
}

pub fn read_packet_mreq(v: &OptVal) -> (r: Result<PacketMreq, isize>)
    ensures
        r == packet_mreq_value(*v),
{
    if v.len < 16 {
        return Err(EINVAL);
    }
    if v.ptr == 0 || v.mem.len() < 16 {
        return Err(EFAULT);
    }
    let m = v.mem.as_slice();
    let alen: u16 = read_le16(m, 6);
    if alen > 8 {
        return Err(EINVAL);
    }
    Ok(
        PacketMreq {
            ifindex: read_le32(m, 0) as i32,
            mr_type: read_le16(m, 4),
            alen,
            addr: read_le64(m, 8),
        },
    )
}

// ---------------------------------------------------------------------------
// IPv4. Addresses are numbers, the first byte being the most significant.
// ---------------------------------------------------------------------------

/// A group, and where it is joined: an interface by number and by address, and
/// for some requests a source.
#[derive(Clone, Copy)]
pub struct GroupReq {
    pub group: u32,
    pub ifindex: i32,
    pub ifaddr: u32,
    pub source: u32,
}

/// The interface of outgoing multicast packets.
pub open spec fn multicast_if_value(v: OptVal) -> Result<(i32, u32), isize> {
    let n = if v.len >= 12 {
        12int
    } else if v.len >= 8 {
        8
    } else {
        4
    };
    if v.len < 4 {
        Err(EINVAL)
    } else if unreadable(v, n) {
        Err(EFAULT)
    } else if n == 12 {
        Ok(((le32(v.mem@, 8) as u32) as i32, be32(v.mem@, 4) as u32))
    } else if n == 8 {
        Ok((0, be32(v.mem@, 4) as u32))
    } else {
        Ok((0, be32(v.mem@, 0) as u32))
    }
}

pub fn read_ipv4_multicast_if(v: &OptVal) -> (r: Result<(i32, u32), isize>)
    ensures
        r == multicast_if_value(*v),
{
    if v.len < 4 {
        return Err(EINVAL);
    }
    let n: usize = if v.len >= 12 {
        12
    } else if v.len >= 8 {
        8
    } else {
        4
    };
    if v.ptr == 0 || v.mem.len() < n {
        return Err(EFAULT);
    }
    let m = v.mem.as_slice();
    if n == 12 {
        Ok((read_le32(m, 8) as i32, read_be32(m, 4)))
    } else if n == 8 {
        Ok((0, read_be32(m, 4)))
    } else {
        Ok((0, read_be32(m, 0)))
    }
}

/// IP header options, filled up with zeros to whole words.
pub open spec fn options_value(v: OptVal) -> Result<Seq<u8>, isize> {
    if v.len > 40 {
        Err(EINVAL)
    } else if v.len == 0 {
        Ok(Seq::empty())
    } else if unreadable(v, v.len as int) {
        Err(EFAULT)
    } else {
        Ok(v.mem@.take(v.len as int) + Seq::new(((4 - v.len % 4) % 4) as nat, |i: int| 0u8))
    }
}

pub fn read_ipv4_options(v: &OptVal) -> (r: Result<Vec<u8>, isize>)
    ensures
        match r {
            Ok(o) => options_value(*v) == Ok::<Seq<u8>, isize>(o@) && o@.len() % 4 == 0 && o@.len()
                <= 40,
            Err(e) => options_value(*v) == Err::<Seq<u8>, isize>(e),
        },
{
    if v.len > 40 {
        return Err(EINVAL);
    }
    if v.len == 0 {
        let empty: Vec<u8> = Vec::new();
        assert(empty@ =~= Seq::<u8>::empty());
        return Ok(empty);
    }
    if v.ptr == 0 || v.mem.len() < v.len {
        return Err(EFAULT);
    }
    let mut options = copy_range(v.mem.as_slice(), 0, v.len);
    append_zeros(&mut options, (4 - v.len % 4) % 4);
    assert(options@ =~= v.mem@.take(v.len as int) + Seq::new(
        ((4 - v.len % 4) % 4) as nat,
        |i: int| 0u8,
    ));
    Ok(options)
}

/// A membership request.
pub open spec fn mreqn_value(v: OptVal) -> Result<GroupReq, isize> {
    let n = if v.len >= 12 {
        12int
    } else {
        8
    };
    if v.len < 8 {
        Err(EINVAL)
    } else if unreadable(v, n) {
        Err(EFAULT)
    } else {
        Ok(
            GroupReq {
                group: be32(v.mem@, 0) as u32,
                ifindex: if n == 12 {
                    (le32(v.mem@, 8) as u32) as i32
                } else {
                    0
                },
                ifaddr: be32(v.mem@, 4) as u32,
                source: 0,
            },
        )
    }
}

pub fn read_ip_mreqn(v: &OptVal) -> (r: Result<GroupReq, isize>)
    ensures
        r == mreqn_value(*v),
{
    if v.len < 8 {
        return Err(EINVAL);
    }
    let n: usize = if v.len >= 12 {
        12
    } else {
        8
    };
    if v.ptr == 0 || v.mem.len() < n {
        return Err(EFAULT);
    }
    let m = v.mem.as_slice();
    let ifindex: i32 = if n == 12 {
        read_le32(m, 8) as i32
    } else {
        0
    };
    Ok(GroupReq { group: read_be32(m, 0), ifindex, ifaddr: read_be32(m, 4), source: 0 })
}

/// A membership request with a socket address.
pub open spec fn group_req_value(v: OptVal) -> Result<GroupReq, isize> {
    if v.len < 136 {
        Err(EINVAL)
    } else if unreadable(v, 136) {
        Err(EFAULT)
    } else if le16(v.mem@, 8) != AF_INET {
        Err(EINVAL)
    } else {
        Ok(
            GroupReq {
                group: be32(v.mem@, 12) as u32,
                ifindex: (le32(v.mem@, 0) as u32) as i32,
                ifaddr: 0,
                source: 0,
            },
        )
    }
}

pub fn read_group_req(v: &OptVal) -> (r: Result<GroupReq, isize>)
    ensures
        r == group_req_value(*v),
{
    if v.len < 136 {
        return Err(EINVAL);
    }
    if v.ptr == 0 || v.mem.len() < 136 {
        return Err(EFAULT);
    }
    let m = v.mem.as_slice();
    if read_le16(m, 8) != AF_INET {
        return Err(EINVAL);
    }
    Ok(
        GroupReq {
            group: read_be32(m, 12),
            ifindex: read_le32(m, 0) as i32,
            ifaddr: 0,
            source: 0,
        },
    )
}

/// A request for one source of a group.
pub open spec fn mreq_source_value(v: OptVal) -> Result<GroupReq, isize> {
    if v.len != 12 {
        Err(EINVAL)
    } else if unreadable(v, 12) {
        Err(EFAULT)
    } else {
        Ok(
            GroupReq {
                group: be32(v.mem@, 0) as u32,
                ifindex: 0,
                ifaddr: be32(v.mem@, 4) as u32,
                source: be32(v.mem@, 8) as u32,
            },
        )
    }
}

pub fn read_ip_mreq_source(v: &OptVal) -> (r: Result<GroupReq, isize>)
    ensures
        r == mreq_source_value(*v),
{
    if v.len != 12 {
        return Err(EINVAL);
    }
    if v.ptr == 0 || v.mem.len() < 12 {
        return Err(EFAULT);
    }
    let m = v.mem.as_slice();
    Ok(
        GroupReq {
            group: read_be32(m, 0),
            ifindex: 0,
            ifaddr: read_be32(m, 4),
            source: read_be32(m, 8),
        },
    )
}

/// A request for one source of a group, with socket addresses.
pub open spec fn group_source_value(v: OptVal) -> Result<GroupReq, isize> {
    if v.len != 264 {
        Err(EINVAL)
    } else if unreadable(v, 264) {
        Err(EFAULT)
    } else if le16(v.mem@, 8) != AF_INET || le16(v.mem@, 136) != AF_INET {
        Err(EADDRNOTAVAIL)
    } else {
        Ok(
            GroupReq {
                group: be32(v.mem@, 12) as u32,
                ifindex: (le32(v.mem@, 0) as u32) as i32,
                ifaddr: 0,
                source: be32(v.mem@, 140) as u32,
            },
        )
    }
}

pub fn read_group_source_req(v: &OptVal) -> (r: Result<GroupReq, isize>)
    ensures
        r == group_source_value(*v),
{
    if v.len != 264 {
        return Err(EINVAL);
    }
    if v.ptr == 0 || v.mem.len() < 264 {
        return Err(EFAULT);
    }
    let m = v.mem.as_slice();
    if read_le16(m, 8) != AF_INET || read_le16(m, 136) != AF_INET {
        return Err(EADDRNOTAVAIL);
    }
    Ok(
        GroupReq {
            group: read_be32(m, 12),
            ifindex: read_le32(m, 0) as i32,
            ifaddr: 0,
            source: read_be32(m, 140),
        },
    )
}

/// A filter on the sources of a group: its mode, and how many sources it lists.
#[derive(Clone, Copy)]
pub struct FilterHead {
    pub req: GroupReq,
    pub fmode: u32,
    pub numsrc: u32,
}

/// The fixed part of a source filter.
pub open spec fn msfilter_head(v: OptVal) -> Result<FilterHead, isize> {
    if v.len < 16 {
        Err(EINVAL)
    } else if unreadable(v, 16) {
        Err(EFAULT)
    } else {
        Ok(
            FilterHead {
                req: GroupReq {
                    group: be32(v.mem@, 0) as u32,
                    ifindex: 0,
                    ifaddr: be32(v.mem@, 4) as u32,
                    source: 0,
                },
                fmode: le32(v.mem@, 8) as u32,
                numsrc: le32(v.mem@, 12) as u32,
            },
        )
    }
}

/// The sources of a filter.
pub open spec fn msfilter_sources(mem: Seq<u8>, n: int) -> Seq<u32> {
    Seq::new(n as nat, |i: int| be32(mem, 16 + 4 * i) as u32)
}

/// Why a source filter cannot be read.
pub open spec fn msfilter_error(v: OptVal) -> Option<isize> {
    match msfilter_head(v) {
        Err(e) => Some(e),
        Ok(h) => if v.len < 16 + 4 * h.numsrc {
            Some(EINVAL)
        } else if v.mem@.len() < 16 + 4 * h.numsrc {
            Some(EFAULT)
        } else {
            None
        },
    }
}

/// Reads the fixed part of a source filter.
pub fn read_ip_msfilter_query(v: &OptVal) -> (r: Result<FilterHead, isize>)
    ensures
        r == msfilter_head(*v),
{
    if v.len < 16 {
        return Err(EINVAL);
    }
    if v.ptr == 0 || v.mem.len() < 16 {
        return Err(EFAULT);
    }
    let m = v.mem.as_slice();
    Ok(
        FilterHead {
            req: GroupReq {
                group: read_be32(m, 0),
                ifindex: 0,
                ifaddr: read_be32(m, 4),
                source: 0,
            },
            fmode: read_le32(m, 8),
            numsrc: read_le32(m, 12),
        },
    )
}

/// Reads a source filter.
pub fn read_ip_msfilter(v: &OptVal) -> (r: Result<(FilterHead, Vec<u32>), isize>)
    ensures
        match r {
            Ok((h, s)) => msfilter_error(*v) is None && msfilter_head(*v) == Ok::<
                FilterHead,
                isize,
            >(h) && s@ == msfilter_sources(v.mem@, h.numsrc as int),
            Err(e) => msfilter_error(*v) == Some(e),
        },
{
    let h = match read_ip_msfilter_query(v) {
        Ok(h) => h,
        Err(e) => {
            return Err(e);
        },
    };
    let needed: u64 = 16 + 4 * h.numsrc as u64;
    if (v.len as u64) < needed {
        return Err(EINVAL);
    }
    if (v.mem.len() as u64) < needed {
        return Err(EFAULT);
    }
    let mut sources: Vec<u32> = Vec::new();
    let mut i: u32 = 0;
    while i < h.numsrc
        invariant
            i <= h.numsrc,
            v.mem@.len() >= 16 + 4 * h.numsrc,
            sources@ == msfilter_sources(v.mem@, i as int),
        decreases h.numsrc - i,
    {
        assert(v.mem.len() >= 16 + 4 * h.numsrc);
        let o: usize = 16 + 4 * (i as usize);
        sources.push(read_be32(v.mem.as_slice(), o));
        i += 1;
        assert(sources@ =~= msfilter_sources(v.mem@, i as int));
    }
    Ok((h, sources))
}

/// The fixed part of a source filter with socket addresses.
pub open spec fn group_filter_head(v: OptVal) -> Result<FilterHead, isize> {
    if v.len < 144 {
        Err(EINVAL)
    } else if unreadable(v, 144) {
        Err(EFAULT)
    } else if le16(v.mem@, 8) != AF_INET {
        Err(EADDRNOTAVAIL)
    } else {
        Ok(
            FilterHead {
                req: GroupReq {
                    group: be32(v.mem@, 12) as u32,
                    ifindex: (le32(v.mem@, 0) as u32) as i32,
                    ifaddr: 0,
                    source: 0,
                },
                fmode: le32(v.mem@, 136) as u32,
                numsrc: le32(v.mem@, 140) as u32,
            },
        )
    }
}

/// Sources `i..n` of a filter: the first that cannot be read, or is no IPv4
/// address, decides.
pub open spec fn group_sources_from(mem: Seq<u8>, i: int, n: int, seen: Seq<u32>) -> Result<
    Seq<u32>,
    isize,
>
    decreases n - i,
{
    if i >= n {
        Ok(seen)
    } else if mem.len() < 144 + 128 * (i + 1) {
        Err(EFAULT)
    } else if le16(mem, 144 + 128 * i) != AF_INET {
        Err(EADDRNOTAVAIL)
    } else {
        group_sources_from(mem, i + 1, n, seen.push(be32(mem, 144 + 128 * i + 4) as u32))
    }
}

/// The sources of a filter with socket addresses.
pub open spec fn group_filter_sources(v: OptVal) -> Result<Seq<u32>, isize> {
    match group_filter_head(v) {
        Err(e) => Err(e),
        Ok(h) => if v.len < 144 + 128 * h.numsrc {
            Err(EINVAL)
        } else {
            group_sources_from(v.mem@, 0, h.numsrc as int, Seq::empty())
        },
    }
}

/// Reads the fixed part of a source filter with socket addresses.
pub fn read_group_filter_query(v: &OptVal) -> (r: Result<FilterHead, isize>)
    ensures
        r == group_filter_head(*v),
{
    if v.len < 144 {
        return Err(EINVAL);
    }
    if v.ptr == 0 || v.mem.len() < 144 {
        return Err(EFAULT);
    }
    let m = v.mem.as_slice();
    if read_le16(m, 8) != AF_INET {
        return Err(EADDRNOTAVAIL);
    }
    Ok(
        FilterHead {
            req: GroupReq {
                group: read_be32(m, 12),
                ifindex: read_le32(m, 0) as i32,
                ifaddr: 0,
                source: 0,
            },
            fmode: read_le32(m, 136),
            numsrc: read_le32(m, 140),
        },
    )
}

/// Reads a source filter with socket addresses.
pub fn read_group_filter(v: &OptVal) -> (r: Result<(FilterHead, Vec<u32>), isize>)
    ensures
        match r {
            Ok((h, s)) => group_filter_head(*v) == Ok::<FilterHead, isize>(h)
                && group_filter_sources(*v) == Ok::<Seq<u32>, isize>(s@),
            Err(e) => group_filter_sources(*v) == Err::<Seq<u32>, isize>(e),
        },
{
    let h = match read_group_filter_query(v) {
        Ok(h) => h,
        Err(e) => {
            return Err(e);
        },
    };
    let needed: u64 = 144 + 128 * h.numsrc as u64;
    if (v.len as u64) < needed {
        return Err(EINVAL);
    }
    let mut sources: Vec<u32> = Vec::new();
    let mut i: u32 = 0;
    assert(sources@ =~= Seq::<u32>::empty());
    while i < h.numsrc
        invariant
            i <= h.numsrc,
            group_filter_head(*v) == Ok::<FilterHead, isize>(h),
            v.len >= 144 + 128 * h.numsrc,
            group_sources_from(v.mem@, 0, h.numsrc as int, Seq::empty()) == group_sources_from(
                v.mem@,
                i as int,
                h.numsrc as int,
                sources@,
            ),
        decreases h.numsrc - i,
    {
        let end: u64 = 144 + 128 * (i as u64 + 1);
        if (v.mem.len() as u64) < end {
            return Err(EFAULT);
        }
        let o: usize = 144 + 128 * (i as usize);
        if read_le16(v.mem.as_slice(), o) != AF_INET {
            return Err(EADDRNOTAVAIL);
        }
        sources.push(read_be32(v.mem.as_slice(), o + 4));
        i += 1;
    }
    Ok((h, sources))
}

// ---------------------------------------------------------------------------
// Rules.
// ---------------------------------------------------------------------------

/// The process has a capability.
pub open spec fn capable(caps: u64, cap: u64) -> bool {
    caps & (1u64 << cap) != 0
}

pub fn has_effective_cap(caps: u64, cap: u64) -> (r: bool)
    requires
        cap < 64,
    ensures
        r == capable(caps, cap),
{
    (caps & (1u64 << cap)) != 0
}

pub open spec fn is_force(optname: usize) -> bool {
    optname == SO_SNDBUFFORCE || optname == SO_RCVBUFFORCE
}

pub open spec fn is_sndbuf(optname: usize) -> bool {
    optname == SO_SNDBUF || optname == SO_SNDBUFFORCE
}

/// The size of a buffer that `val` asks for: twice the value, within the limit
/// (which a forced size ignores) and not below the least size. A negative value
/// stands for the limit, or if forced for nothing.
pub open spec fn sockbuf_size(val: i32, optname: usize) -> int {
    let raw = if val >= 0 {
        val as int
    } else if is_force(optname) {
        0
    } else {
        SOCKBUF_MAX as int
    };
    let limited = if !is_force(optname) && raw > SOCKBUF_MAX {
        SOCKBUF_MAX as int
    } else {
        raw
    };
    let halved = if limited > 0x3fff_ffff {
        0x3fff_ffff
    } else {
        limited
    };
    let least = if is_sndbuf(optname) {
        SOCK_MIN_SNDBUF as int
    } else {
        SOCK_MIN_RCVBUF as int
    };
    if 2 * halved < least {
        least
    } else {
        2 * halved
    }
}

/// A buffer is never below its least size, and only a forced one is above twice
/// the limit.
pub proof fn law_sockbuf_bounds(val: i32, optname: usize)
    ensures
        sockbuf_size(val, optname) >= SOCK_MIN_RCVBUF,
        is_sndbuf(optname) ==> sockbuf_size(val, optname) >= SOCK_MIN_SNDBUF,
        !is_force(optname) ==> sockbuf_size(val, optname) <= 2 * SOCKBUF_MAX,
        sockbuf_size(val, optname) <= i32::MAX,
{
}

pub fn linux_sockbuf_value(val: i32, optname: usize) -> (r: u32)
    ensures
        r == sockbuf_size(val, optname),
{
    let force: bool = optname == SO_SNDBUFFORCE || optname == SO_RCVBUFFORCE;
    let raw: u32 = if val < 0 {
        if force {
            0
        } else {
            SOCKBUF_MAX
        }
    } else {
        val as u32
    };
    let limited: u32 = if !force && raw > SOCKBUF_MAX {
        SOCKBUF_MAX
    } else {
        raw
    };
    let halved: u32 = if limited > 0x3fff_ffff {
        0x3fff_ffff
    } else {
        limited
    };
    let least: u32 = if optname == SO_SNDBUF || optname == SO_SNDBUFFORCE {
        SOCK_MIN_SNDBUF
    } else {
        SOCK_MIN_RCVBUF
    };
    let doubled: u32 = halved * 2;
    if doubled < least {
        least
    } else {
        doubled
    }
}

/// The low-water mark for receiving: at least one, and a negative value is the
/// greatest.
pub open spec fn rcvlowat_of(val: i32) -> i32 {
    if val < 0 {
        i32::MAX
    } else if val < 1 {
        1
    } else {
        val
    }
}

pub fn linux_rcvlowat_value(val: i32) -> (r: i32)
    ensures
        r == rcvlowat_of(val),
{
    if val < 0 {
        i32::MAX
    } else if val < 1 {
        1
    } else {
        val
    }
}

/// A keepalive parameter within its range.
pub open spec fn keepalive_of(val: i32, max: i32) -> Result<u32, isize> {
    if 1 <= val <= max {
        Ok(val as u32)
    } else {
        Err(EINVAL)
    }
}

pub fn tcp_keepalive_sockopt_value(val: i32, max: i32) -> (r: Result<u32, isize>)
    ensures
        r == keepalive_of(val, max),
{
    if val < 1 || val > max {
        Err(EINVAL)
    } else {
        Ok(val as u32)
    }
}

/// The priorities above the interactive one are for the privileged.
pub open spec fn priority_of(val: i32, caps: u64) -> Result<u32, isize> {
    if 0 <= val <= TC_PRIO_INTERACTIVE || capable(caps, CAP_NET_RAW) || capable(
        caps,
        CAP_NET_ADMIN,
    ) {
        Ok(val as u32)
    } else {
        Err(EPERM)
    }
}

pub fn socket_priority_value(val: i32, caps: u64) -> (r: Result<u32, isize>)
    ensures
        r == priority_of(val, caps),
{
    if (0 <= val && val <= TC_PRIO_INTERACTIVE) || has_effective_cap(caps, CAP_NET_RAW)
        || has_effective_cap(caps, CAP_NET_ADMIN) {
        Ok(val as u32)
    } else {
        Err(EPERM)
    }
}

/// Marks are for the privileged.
pub open spec fn mark_of(val: i32, caps: u64) -> Result<u32, isize> {
    if capable(caps, CAP_NET_RAW) || capable(caps, CAP_NET_ADMIN) {
        Ok(val as u32)
    } else {
        Err(EPERM)
    }
}

pub fn socket_mark_allowed(caps: u64) -> (r: bool)
    ensures
        r == (capable(caps, CAP_NET_RAW) || capable(caps, CAP_NET_ADMIN)),
{
    has_effective_cap(caps, CAP_NET_RAW) || has_effective_cap(caps, CAP_NET_ADMIN)
}

pub fn socket_mark_value(val: i32, caps: u64) -> (r: Result<u32, isize>)
    ensures
        r == mark_of(val, caps),
{
    if socket_mark_allowed(caps) {
        Ok(val as u32)
    } else {
        Err(EPERM)
    }
}

/// How arrival times are reported.
#[derive(Clone, Copy, PartialEq, Eq, Structural)]
pub enum TimestampMode {
    Off,
    TimevalOld,
    TimespecOld,
    TimevalNew,
    TimespecNew,
}

pub open spec fn is_timestamp(optname: usize) -> bool {
    optname == SO_TIMESTAMP_OLD || optname == SO_TIMESTAMPNS_OLD || optname == SO_TIMESTAMP_NEW
        || optname == SO_TIMESTAMPNS_NEW
}

/// The mode that an option name stands for.
pub open spec fn named_mode(optname: usize) -> TimestampMode {
    if optname == SO_TIMESTAMP_OLD {
        TimestampMode::TimevalOld
    } else if optname == SO_TIMESTAMPNS_OLD {
        TimestampMode::TimespecOld
    } else if optname == SO_TIMESTAMP_NEW {
        TimestampMode::TimevalNew
    } else {
        TimestampMode::TimespecNew
    }
}

/// The mode after an option was switched; `None` if the option is another one.
pub fn timestamp_mode_for_sockopt(optname: usize, enabled: bool) -> (r: Option<TimestampMode>)
    ensures
        r == if !enabled {
            Some(TimestampMode::Off)
        } else if is_timestamp(optname) {
            Some(named_mode(optname))
        } else {
            None
        },
{
    if !enabled {
        return Some(TimestampMode::Off);
    }
    if optname == SO_TIMESTAMP_OLD {
        Some(TimestampMode::TimevalOld)
    } else if optname == SO_TIMESTAMPNS_OLD {
        Some(TimestampMode::TimespecOld)
    } else if optname == SO_TIMESTAMP_NEW {
        Some(TimestampMode::TimevalNew)
    } else if optname == SO_TIMESTAMPNS_NEW {
        Some(TimestampMode::TimespecNew)
    } else {
        None
    }
}

/// What an option shows of the mode.
pub fn timestamp_mode_getsockopt(mode: TimestampMode, optname: usize) -> (r: Option<u32>)
    ensures
        r == if is_timestamp(optname) {
            Some(
                if mode == named_mode(optname) {
                    1u32
                } else {
                    0u32
                },
            )
        } else {
            None
        },
{
    let on: bool = if optname == SO_TIMESTAMP_OLD {
        mode == TimestampMode::TimevalOld
    } else if optname == SO_TIMESTAMPNS_OLD {
        mode == TimestampMode::TimespecOld
    } else if optname == SO_TIMESTAMP_NEW {
        mode == TimestampMode::TimevalNew
    } else if optname == SO_TIMESTAMPNS_NEW {
        mode == TimestampMode::TimespecNew
    } else {
        return None;
    };
    if on {
        Some(1)
    } else {
        Some(0)
    }
}

/// A device that is bound can be changed by the privileged only.
pub open spec fn rebind_error(already_bound: bool, caps: u64) -> Option<isize> {
    if already_bound && !capable(caps, CAP_NET_RAW) {
        Some(EPERM)
    } else {
        None
    }
}

pub fn require_bound_device_rebind(already_bound: bool, caps: u64) -> (r: Result<(), isize>)
    ensures
        match r {
            Ok(_) => rebind_error(already_bound, caps) is None,
            Err(e) => rebind_error(already_bound, caps) == Some(e),
        },
{
    if !already_bound || has_effective_cap(caps, CAP_NET_RAW) {
        Ok(())
    } else {
        Err(EPERM)
    }
}

/// A forced buffer size is for the privileged.
pub open spec fn force_error(optname: usize, caps: u64) -> Option<isize> {
    if is_force(optname) && !capable(caps, CAP_NET_ADMIN) {
        Some(EPERM)
    } else {
        None
    }
}

pub fn require_cap_net_admin_for_sockbuf_force(optname: usize, caps: u64) -> (r: Result<(), isize>)
    ensures
        match r {
            Ok(_) => force_error(optname, caps) is None,
            Err(e) => force_error(optname, caps) == Some(e),
        },
{
    if (optname != SO_SNDBUFFORCE && optname != SO_RCVBUFFORCE) || has_effective_cap(
        caps,
        CAP_NET_ADMIN,
    ) {
        Ok(())
    } else {
        Err(EPERM)
    }
}

/// The two modes of a source filter.
#[derive(Clone, Copy, PartialEq, Eq, Structural)]
pub enum SourceFilterMode {
    Exclude,
    Include,
}

pub open spec fn filter_mode(fmode: u32) -> Result<SourceFilterMode, isize> {
    if fmode == 0 {
        Ok(SourceFilterMode::Exclude)
    } else if fmode == 1 {
        Ok(SourceFilterMode::Include)
    } else {
        Err(EINVAL)
    }
}

/// Reads the mode of a source filter.
pub fn ipv4_source_filter_mode(fmode: u32) -> (r: Result<SourceFilterMode, isize>)
    ensures
        r == filter_mode(fmode),
{
    if fmode == 0 {
        Ok(SourceFilterMode::Exclude)
    } else if fmode == 1 {
        Ok(SourceFilterMode::Include)
    } else {
        Err(EINVAL)
    }
}

/// The number of a mode; reading it gives the mode back.
pub fn ipv4_source_filter_mode_bits(mode: SourceFilterMode) -> (r: u32)
    ensures
        filter_mode(r) == Ok::<SourceFilterMode, isize>(mode),
{
    match mode {
        SourceFilterMode::Exclude => 0,
        SourceFilterMode::Include => 1,
    }
}

} // verus!
