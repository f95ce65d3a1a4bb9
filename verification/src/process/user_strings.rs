//! Strings and pointer arrays in user memory.
//!
//! User memory is handed in as the bytes (or words) that can be read from an
//! address on: the list ends where the first unreadable one would come, or
//! where the reader has to stop anyway.

use vstd::prelude::*;
use crate::errno::{E2BIG, EFAULT, ENAMETOOLONG};
use crate::text::{find_byte, index_or_end, lemma_index_or_end};

verus! {

/// The size of a memory page.
pub const PAGE_SIZE: usize = 4096;
/// How far a path or another plain string is read.
pub const MAX_USER_CSTR: usize = 256 * 1024;
/// The greatest size of one argument or environment string, terminator counted.
pub const EXEC_MAX_ARG_STRLEN: usize = PAGE_SIZE * 32;
/// The size of a pointer.
pub const WORD: usize = 8;

/// The UTF-8 form of the character whose number is `b`.
pub open spec fn char_bytes(b: u8) -> Seq<u8> {
    if b < 0x80 {
        seq![b]
    } else {
        seq![(0xc0 + b / 64) as u8, (0x80 + b % 64) as u8]
    }
}

/// The UTF-8 form of a string of characters, one per byte.
pub open spec fn chars_of(s: Seq<u8>) -> Seq<u8>
    decreases s.len(),
{
    if s.len() == 0 {
        Seq::empty()
    } else {
        chars_of(s.drop_last()) + char_bytes(s.last())
    }
}

/// Where the string in `mem` ends: the index of its terminator.
pub open spec fn cstr_end(mem: Seq<u8>) -> int {
    index_or_end(mem, 0, 0)
}

/// Why no string can be read: the terminator does not come within `max_len`
/// bytes, or memory ends before it.
pub open spec fn cstr_error(mem: Seq<u8>, max_len: int, too_long: isize) -> Option<isize> {
    if cstr_end(mem) < max_len && cstr_end(mem) < mem.len() {
        None
    } else if mem.len() >= max_len {
        Some(too_long)
    } else {
        Some(EFAULT)
    }
}

/// The string in `mem`.
pub open spec fn cstr_value(mem: Seq<u8>) -> Seq<u8> {
    chars_of(mem.take(cstr_end(mem)))
}

/// A string without bytes above 0x7f is read as it stands.
pub proof fn law_ascii_is_read_as_it_stands(s: Seq<u8>)
    requires
        forall|i: int| 0 <= i < s.len() ==> #[trigger] s[i] < 0x80,
    ensures
        chars_of(s) == s,
    decreases s.len(),
{
    if s.len() > 0 {
        let front = s.drop_last();
        assert forall|i: int| 0 <= i < front.len() implies #[trigger] front[i] < 0x80 by {
            assert(s[i] < 0x80);
        }
        law_ascii_is_read_as_it_stands(front);
        assert(s[s.len() - 1] < 0x80);
        assert(s =~= front + seq![s.last()]);
    }
}

/// Reads a string of at most `max_len` bytes, terminator counted; a longer one
/// is answered with `too_long`.
pub fn try_read_user_cstr_limited(mem: &[u8], max_len: usize, too_long: isize) -> (r: Result<
    Vec<u8>,
    isize,
>)
    ensures
        match r {
            Ok(s) => cstr_error(mem@, max_len as int, too_long) is None && s@ == cstr_value(mem@),
            Err(e) => cstr_error(mem@, max_len as int, too_long) == Some(e),
        },
{
    let end: usize = find_byte(mem, 0, 0);
    proof {
        lemma_index_or_end(mem@, 0, 0);
    }
    if end >= max_len || end >= mem.len() {
        if mem.len() >= max_len {
            return Err(too_long);
        }
        return Err(EFAULT);
    }
    let mut out: Vec<u8> = Vec::new();
    let mut i: usize = 0;
    while i < end
        invariant
            i <= end <= mem.len(),
            out@ == chars_of(mem@.take(i as int)),
        decreases end - i,
    {
        let b: u8 = mem[i];
        assert(mem@.take(i + 1).drop_last() =~= mem@.take(i as int));
        if b < 0x80 {
            out.push(b);
        } else {
            out.push(0xc0 + b / 64);
            out.push(0x80 + b % 64);
        }
        i += 1;
        assert(out@ =~= chars_of(mem@.take(i as int)));
    }
    Ok(out)
}

/// Reads a path or another plain string.
pub fn try_read_user_cstr(mem: &[u8]) -> (r: Result<Vec<u8>, isize>)
    ensures
        match r {
            Ok(s) => cstr_error(mem@, MAX_USER_CSTR as int, ENAMETOOLONG) is None && s@
                == cstr_value(mem@),
            Err(e) => cstr_error(mem@, MAX_USER_CSTR as int, ENAMETOOLONG) == Some(e),
        },
{
    try_read_user_cstr_limited(mem, MAX_USER_CSTR, ENAMETOOLONG)
}

/// Reads an argument or environment string.
pub fn try_read_user_exec_cstr(mem: &[u8]) -> (r: Result<Vec<u8>, isize>)
    ensures
        match r {
            Ok(s) => cstr_error(mem@, EXEC_MAX_ARG_STRLEN as int, E2BIG) is None && s@
                == cstr_value(mem@),
            Err(e) => cstr_error(mem@, EXEC_MAX_ARG_STRLEN as int, E2BIG) == Some(e),
        },
{
    try_read_user_cstr_limited(mem, EXEC_MAX_ARG_STRLEN, E2BIG)
}

/// The first null word at or after `i`, or the length.
pub open spec fn null_or_end(words: Seq<u64>, i: int) -> int
    decreases words.len() - i,
{
    if i >= words.len() {
        words.len() as int
    } else if words[i] == 0 {
        i
    } else {
        null_or_end(words, i + 1)
    }
}

pub proof fn lemma_null_or_end(words: Seq<u64>, i: int)
    requires
        0 <= i <= words.len(),
    ensures
        i <= null_or_end(words, i) <= words.len(),
    decreases words.len() - i,
{
    if i < words.len() && words[i] != 0 {
        lemma_null_or_end(words, i + 1);
    }
}

/// Why no pointer array can be read: its null word does not come among the
/// first `limit` words, or memory ends before it.
pub open spec fn array_error(vec_ptr: u64, words: Seq<u64>, limit: int) -> Option<isize> {
    if vec_ptr == 0 {
        None
    } else if null_or_end(words, 0) < limit && null_or_end(words, 0) < words.len() {
        None
    } else if words.len() >= limit {
        Some(E2BIG)
    } else {
        Some(EFAULT)
    }
}

/// The pointers before the null word; a null array is an empty one.
pub open spec fn array_value(vec_ptr: u64, words: Seq<u64>) -> Seq<u64> {
    if vec_ptr == 0 {
        Seq::empty()
    } else {
        words.take(null_or_end(words, 0))
    }
}

/// Reads a pointer array of fewer than `limit` pointers.
pub fn read_user_ptr_array(vec_ptr: u64, words: &[u64], limit: usize) -> (r: Result<
    Vec<u64>,
    isize,
>)
    ensures
        match r {
            Ok(v) => array_error(vec_ptr, words@, limit as int) is None && v@ == array_value(
                vec_ptr,
                words@,
            ),
            Err(e) => array_error(vec_ptr, words@, limit as int) == Some(e),
        },
{
    let mut out: Vec<u64> = Vec::new();
    if vec_ptr == 0 {
        return Ok(out);
    }
    proof {
        lemma_null_or_end(words@, 0);
        assert(out@ =~= words@.take(0));
    }
    let mut i: usize = 0;
    while i < limit && i < words.len()
        invariant
            vec_ptr != 0,
            i <= words.len(),
            i <= limit,
            null_or_end(words@, 0) == null_or_end(words@, i as int),
            out@ == words@.take(i as int),
        decreases words.len() - i,
    {
        if words[i] == 0 {
            return Ok(out);
        }
        out.push(words[i]);
        i += 1;
        assert(out@ =~= words@.take(i as int));
    }
    proof {
        lemma_null_or_end(words@, i as int);
    }
    if words.len() >= limit {
        Err(E2BIG)
    } else {
        Err(EFAULT)
    }
}

} // verus!
