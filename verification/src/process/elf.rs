//! The parts of an ELF file that starting a program looks at.
//!
//! Headers are read with the `xmas-elf` crate. It panics on a program header that
//! is out of the file, or not aligned; files come from users, so each header is
//! looked at first, and a file with such a header names no linker.

use vstd::prelude::*;
use vstd::slice::slice_subrange;
use vstd::utf8::valid_utf8;
use xmas_elf::header::HeaderPt2;
use xmas_elf::program::Type;
use xmas_elf::ElfFile;
use crate::bytes::{le16, le32, le64};
use crate::text::{copy_range, find_byte, index_or_end, is_utf8};

verus! {

/// The type of the segment that names the dynamic linker.
pub const PT_INTERP: u32 = 3;

/// The file begins with the ELF magic number.
pub open spec fn has_elf_magic(data: Seq<u8>) -> bool {
    data.len() >= 4 && data[0] == 0x7f && data[1] == 0x45 && data[2] == 0x4c && data[3] == 0x46
}

/// Tells whether a file begins with the ELF magic number.
pub fn is_elf(data: &[u8]) -> (r: bool)
    ensures
        r == has_elf_magic(data@),
{
    data.len() >= 4 && data[0] == 0x7f && data[1] == 0x45 && data[2] == 0x4c && data[3] == 0x46
}

/// Where the program headers are.
#[derive(Clone, Copy)]
pub struct PhTable {
    /// 64-bit layout.
    pub wide: bool,
    pub offset: u64,
    pub entry_size: u16,
    pub count: u16,
}

/// The table of program headers that the file header announces.
pub open spec fn ph_table(data: Seq<u8>) -> Option<PhTable> {
    if !has_elf_magic(data) || data.len() < 16 {
        None
    } else if data[4] == 1 && data.len() >= 52 {
        Some(
            PhTable {
                wide: false,
                offset: le32(data, 28) as u64,
                entry_size: le16(data, 42) as u16,
                count: le16(data, 44) as u16,
            },
        )
    } else if data[4] == 2 && data.len() >= 64 {
        Some(
            PhTable {
                wide: true,
                offset: le64(data, 32) as u64,
                entry_size: le16(data, 54) as u16,
                count: le16(data, 56) as u16,
            },
        )
    } else {
        None
    }
}

/// The size of one program header.
pub open spec fn ph_size(wide: bool) -> int {
    if wide {
        56
    } else {
        32
    }
}

/// Where program header `i` begins.
pub open spec fn ph_start(t: PhTable, i: int) -> int {
    t.offset + i * t.entry_size
}

/// Program header `i` can be read: it is in the file, and aligned.
pub open spec fn ph_readable(data: Seq<u8>, t: PhTable, i: int) -> bool {
    &&& t.offset > 0
    &&& t.entry_size >= ph_size(t.wide)
    &&& ph_start(t, i) + t.entry_size <= data.len()
    &&& if t.wide {
        ph_start(t, i) % 8 == 0
    } else {
        ph_start(t, i) % 4 == 0
    }
}

/// A segment type that is defined, or left to systems and processors.
pub open spec fn known_type(t: int) -> bool {
    t <= 7 || 0x6000_0000 <= t <= 0x7fff_ffff
}

/// The place of a segment in the file.
pub open spec fn ph_extent(data: Seq<u8>, t: PhTable, i: int) -> (int, int) {
    let s = ph_start(t, i);
    if t.wide {
        (le64(data, s + 8), le64(data, s + 32))
    } else {
        (le32(data, s + 4), le32(data, s + 16))
    }
}

/// The name in a segment: its bytes up to the first null byte.
pub open spec fn segment_name(data: Seq<u8>, off: int, size: int) -> Option<Seq<u8>> {
    if off + size > data.len() {
        None
    } else {
        let raw = data.subrange(off, off + size);
        let name = raw.take(index_or_end(raw, 0, 0));
        if valid_utf8(name) {
            Some(name)
        } else {
            None
        }
    }
}

/// The name in the first linker segment, from header `i` on. A header that
/// cannot be read, or of an unknown type, ends the search.
pub open spec fn interp_from(data: Seq<u8>, t: PhTable, i: int) -> Option<Seq<u8>>
    decreases t.count - i,
{
    if i >= t.count || !ph_readable(data, t, i) || !known_type(le32(data, ph_start(t, i))) {
        None
    } else if le32(data, ph_start(t, i)) == PT_INTERP {
        let (off, size) = ph_extent(data, t, i);
        segment_name(data, off, size)
    } else {
        interp_from(data, t, i + 1)
    }
}

/// The dynamic linker that a file asks for.
pub open spec fn interp_of(data: Seq<u8>) -> Option<Seq<u8>> {
    match ph_table(data) {
        Some(t) => interp_from(data, t, 0),
        None => None,
    }
}

/// `xmas_elf::ElfFile::new`, and what the header of the file that it gives says of
/// the program headers. It succeeds exactly on a file with the magic number and a
/// known class that is long enough for its header.
///
/// The crate reads headers where they stand, and wants them aligned in memory: it
/// is given a copy that begins at a multiple of eight. It takes numbers in the
/// byte order of the machine, which is little endian here.
#[verifier::external_body]
fn elf_header(data: &[u8]) -> (r: Option<PhTable>)
    ensures
        r == ph_table(data@),
{
    let mut room = [0u8; 8].to_vec();
    room.extend_from_slice(data);
    let at: usize = room.as_ptr().align_offset(8);
    room.copy_within(8.., at);
    let elf = ElfFile::new(&room[at..][..data.len()]).ok()?;
    let h = elf.header.pt2;
    let wide = matches!(h, HeaderPt2::Header64(_));
    Some(PhTable { wide, offset: h.ph_offset(), entry_size: h.ph_entry_size(), count: h.ph_count() })
}

/// `xmas_elf::ElfFile::program_header`: whether the segment names the dynamic
/// linker, and its place, or nothing if its type is unknown. The header is in the
/// file and aligned, so that reading it does not panic. The file is copied as for
/// [`elf_header`].
#[verifier::external_body]
fn elf_segment(data: &[u8], i: u16) -> (r: Option<(bool, u64, u64)>)
    requires
        ph_table(data@) matches Some(t) && i < t.count && ph_readable(data@, t, i as int),
    ensures
        ({
            let t = ph_table(data@)->0;
            let kind = le32(data@, ph_start(t, i as int));
            match r {
                Some((interp, off, size)) => known_type(kind) && interp == (kind == PT_INTERP)
                    && ph_extent(data@, t, i as int) == (off as int, size as int),
                None => !known_type(kind),
            }
        }),
{
    let mut room = [0u8; 8].to_vec();
    room.extend_from_slice(data);
    let at: usize = room.as_ptr().align_offset(8);
    room.copy_within(8.., at);
    let elf = ElfFile::new(&room[at..][..data.len()]).ok()?;
    let ph = elf.program_header(i).ok()?;
    let interp = ph.get_type().ok()? == Type::Interp;
    Some((interp, ph.offset(), ph.file_size()))
}

/// The file header lies in the first bytes.
proof fn lemma_table_in_front(data: Seq<u8>, n: int)
    requires
        n == data.len() || 64 <= n <= data.len(),
    ensures
        ph_table(data.take(n)) == ph_table(data),
{
    if n == data.len() {
        assert(data.take(n) =~= data);
    }
}

fn read_ph_table(data: &[u8]) -> (r: Option<PhTable>)
    ensures
        r == ph_table(data@),
{
    let n: usize = if data.len() < 64 {
        data.len()
    } else {
        64
    };
    proof {
        lemma_table_in_front(data@, n as int);
    }
    assert(data@.subrange(0, n as int) =~= data@.take(n as int));
    elf_header(slice_subrange(data, 0, n))
}

fn read_segment_name(data: &[u8], off: u64, size: u64) -> (r: Option<Vec<u8>>)
    ensures
        match r {
            Some(name) => segment_name(data@, off as int, size as int) == Some(name@),
            None => segment_name(data@, off as int, size as int) is None,
        },
{
    let total: u64 = data.len() as u64;
    let end: u64 = match off.checked_add(size) {
        Some(end) => end,
        None => {
            return None;
        },
    };
    if end > total {
        return None;
    }
    let raw = copy_range(data, off as usize, end as usize);
    let name_len: usize = find_byte(raw.as_slice(), 0, 0);
    let name = copy_range(raw.as_slice(), 0, name_len);
    assert(name@ =~= raw@.take(index_or_end(raw@, 0, 0)));
    if is_utf8(name.as_slice()) {
        Some(name)
    } else {
        None
    }
}

/// Where program header `i` ends, if it can be read.
fn ph_end(data: &[u8], t: &PhTable, i: u16) -> (r: Option<usize>)
    ensures
        match r {
            Some(end) => ph_readable(data@, *t, i as int) && end == ph_start(*t, i as int)
                + t.entry_size,
            None => !ph_readable(data@, *t, i as int),
        },
{
    let total: u64 = data.len() as u64;
    let (size, align): (u16, u64) = if t.wide {
        (56, 8)
    } else {
        (32, 4)
    };
    if t.offset == 0 || t.entry_size < size {
        return None;
    }
    assert(0 <= i as int * t.entry_size as int <= 0xffff * 0xffff) by (nonlinear_arith)
        requires
            i <= 0xffff,
            t.entry_size <= 0xffff,
    ;
    let skip: u64 = i as u64 * t.entry_size as u64;
    let start: u64 = match t.offset.checked_add(skip) {
        Some(start) => start,
        None => {
            return None;
        },
    };
    let end: u64 = match start.checked_add(t.entry_size as u64) {
        Some(end) => end,
        None => {
            return None;
        },
    };
    if end > total || start % align != 0 {
        return None;
    }
    Some(end as usize)
}

/// Reads program header `i`: whether its segment names the dynamic linker, and the
/// place of the segment. Only the bytes up to the end of the header are handed
/// over.
fn read_ph(data: &[u8], t: &PhTable, i: u16) -> (r: Option<(bool, u64, u64)>)
    requires
        ph_table(data@) == Some(*t),
        i < t.count,
    ensures
        ({
            let kind = le32(data@, ph_start(*t, i as int));
            match r {
                Some((interp, off, size)) => ph_readable(data@, *t, i as int) && known_type(kind)
                    && interp == (kind == PT_INTERP) && ph_extent(data@, *t, i as int) == (
                    off as int,
                    size as int,
                ),
                None => !ph_readable(data@, *t, i as int) || !known_type(kind),
            }
        }),
{
    let end: usize = match ph_end(data, t, i) {
        Some(end) => end,
        None => {
            return None;
        },
    };
    let n: usize = if end >= 64 {
        end
    } else if data.len() < 64 {
        data.len()
    } else {
        64
    };
    let ghost front = data@.take(n as int);
    proof {
        lemma_table_in_front(data@, n as int);
        assert(data@.subrange(0, n as int) =~= front);
    }
    elf_segment(slice_subrange(data, 0, n), i)
}

/// Reads the name of the dynamic linker that a file asks for. A static program,
/// and a malformed file, have none.
pub fn elf_interp_path(data: &[u8]) -> (r: Option<Vec<u8>>)
    ensures
        match r {
            Some(name) => interp_of(data@) == Some(name@),
            None => interp_of(data@) is None,
        },
{
    let t = match read_ph_table(data) {
        Some(t) => t,
        None => {
            return None;
        },
    };
    let mut i: u16 = 0;
    while i < t.count
        invariant
            i <= t.count,
            ph_table(data@) == Some(t),
            interp_from(data@, t, 0) == interp_from(data@, t, i as int),
        decreases t.count - i,
    {
        match read_ph(data, &t, i) {
            Some((interp, off, size)) => {
                if interp {
                    return read_segment_name(data, off, size);
                }
            },
            None => {
                return None;
            },
        }
        i += 1;
    }
    None
}

} // verus!
