//! Scripts: the `#!` line, and which shell runs a script.

use vstd::prelude::*;
use vstd::string::StringSliceAdditionalSpecFns;
use vstd::utf8::valid_utf8;
use crate::text::{
    bytes_eq, copy_range, find_byte, has_suffix, index_or_end, is_utf8, lemma_index_or_end, to_vec,
    txt,
};

verus! {

// ---------------------------------------------------------------------------
// White space.
// ---------------------------------------------------------------------------

/// The length of the white-space character at offset `i` of UTF-8 text, or 0 if
/// another character stands there.
pub open spec fn space_len(s: Seq<u8>, i: int) -> int {
    let b0 = s[i];
    let b1 = if i + 1 < s.len() {
        s[i + 1]
    } else {
        0
    };
    let b2 = if i + 2 < s.len() {
        s[i + 2]
    } else {
        0
    };
    if 9 <= b0 <= 13 || b0 == 0x20 {
        1
    } else if b0 == 0xc2 && (b1 == 0x85 || b1 == 0xa0) {
        2
    } else if b0 == 0xe1 && b1 == 0x9a && b2 == 0x80 {
        3
    } else if b0 == 0xe2 && b1 == 0x80 && (0x80 <= b2 <= 0x8a || b2 == 0xa8 || b2 == 0xa9 || b2
        == 0xaf) {
        3
    } else if b0 == 0xe2 && b1 == 0x81 && b2 == 0x9f {
        3
    } else if b0 == 0xe3 && b1 == 0x80 && b2 == 0x80 {
        3
    } else {
        0
    }
}

/// The first offset, from `i` on, that is past white space.
pub open spec fn skip_space(s: Seq<u8>, i: int) -> int
    decreases s.len() - i,
{
    if i >= s.len() || space_len(s, i) == 0 {
        i
    } else {
        skip_space(s, i + space_len(s, i))
    }
}

/// The first offset, from `i` on, where white space stands, or the length.
pub open spec fn word_end(s: Seq<u8>, i: int) -> int
    decreases s.len() - i,
{
    if i >= s.len() {
        s.len() as int
    } else if space_len(s, i) != 0 {
        i
    } else {
        word_end(s, i + 1)
    }
}

proof fn lemma_word_end(s: Seq<u8>, i: int)
    requires
        0 <= i <= s.len(),
    ensures
        i <= word_end(s, i) <= s.len(),
    decreases s.len() - i,
{
    if i < s.len() && space_len(s, i) == 0 {
        lemma_word_end(s, i + 1);
    }
}

fn read_space_len(s: &[u8], i: usize) -> (r: usize)
    requires
        i < s.len(),
    ensures
        r == space_len(s@, i as int),
        r <= 3,
        i + r <= s.len(),
{
    let b0: u8 = s[i];
    let b1: u8 = if s.len() - i > 1 {
        s[i + 1]
    } else {
        0
    };
    let b2: u8 = if s.len() - i > 2 {
        s[i + 2]
    } else {
        0
    };
    if (9 <= b0 && b0 <= 13) || b0 == 0x20 {
        return 1;
    }
    if b0 == 0xc2 && (b1 == 0x85 || b1 == 0xa0) {
        return 2;
    }
    if (b0 == 0xe1 && b1 == 0x9a && b2 == 0x80) || (b0 == 0xe2 && b1 == 0x80 && ((0x80 <= b2 && b2
        <= 0x8a) || b2 == 0xa8 || b2 == 0xa9 || b2 == 0xaf)) || (b0 == 0xe2 && b1 == 0x81 && b2
        == 0x9f) || (b0 == 0xe3 && b1 == 0x80 && b2 == 0x80) {
        return 3;
    }
    0
}

fn after_space(s: &[u8], from: usize) -> (r: usize)
    requires
        from <= s.len(),
    ensures
        r == skip_space(s@, from as int),
        from <= r <= s.len(),
{
    let mut i: usize = from;
    while i < s.len()
        invariant
            from <= i <= s.len(),
            skip_space(s@, from as int) == skip_space(s@, i as int),
        decreases s.len() - i,
    {
        let n: usize = read_space_len(s, i);
        if n == 0 {
            return i;
        }
        i += n;
    }
    i
}

fn end_of_word(s: &[u8], from: usize) -> (r: usize)
    requires
        from <= s.len(),
    ensures
        r == word_end(s@, from as int),
        from <= r <= s.len(),
{
    let mut i: usize = from;
    while i < s.len()
        invariant
            from <= i <= s.len(),
            word_end(s@, from as int) == word_end(s@, i as int),
        decreases s.len() - i,
    {
        if read_space_len(s, i) != 0 {
            return i;
        }
        i += 1;
    }
    i
}

// ---------------------------------------------------------------------------
// The `#!` line.
// ---------------------------------------------------------------------------

/// The first offset, from `i` on, of something else than a blank or a tab.
pub open spec fn past_blanks(s: Seq<u8>, i: int) -> int
    decreases s.len() - i,
{
    if i < s.len() && (s[i] == 0x20 || s[i] == 0x09) {
        past_blanks(s, i + 1)
    } else {
        i
    }
}

/// The least end of `s[..n]` once carriage returns and blanks at its end, but
/// none before `from`, are cut off.
pub open spec fn before_blanks(s: Seq<u8>, from: int, n: int) -> int
    decreases n - from,
{
    if n > from && (s[n - 1] == 0x0d || s[n - 1] == 0x20) {
        before_blanks(s, from, n - 1)
    } else {
        n
    }
}

/// The text of the `#!` line: without the two marks, and trimmed.
pub open spec fn script_line(data: Seq<u8>) -> Seq<u8> {
    let line = data.subrange(2, index_or_end(data, 0x0a, 0));
    let from = past_blanks(line, 0);
    line.subrange(from, before_blanks(line, from, line.len() as int))
}

/// The interpreter of a script, and the argument that its line gives.
pub open spec fn shebang_of(data: Seq<u8>) -> Option<(Seq<u8>, Option<Seq<u8>>)> {
    if data.len() < 2 || data[0] != 0x23 || data[1] != 0x21 {
        None
    } else {
        let s = script_line(data);
        let a = skip_space(s, 0);
        let b = word_end(s, a);
        let c = skip_space(s, b);
        if !valid_utf8(s) || a >= s.len() {
            None
        } else {
            Some(
                (
                    s.subrange(a, b),
                    if c < s.len() {
                        Some(s.subrange(c, word_end(s, c)))
                    } else {
                        None
                    },
                ),
            )
        }
    }
}

/// The two parts of a `#!` line.
pub struct Shebang {
    pub interp: Vec<u8>,
    pub arg: Option<Vec<u8>>,
}

pub open spec fn arg_view(arg: Option<Vec<u8>>) -> Option<Seq<u8>> {
    match arg {
        Some(a) => Some(a@),
        None => None,
    }
}

fn trimmed_line(data: &[u8]) -> (r: Vec<u8>)
    requires
        data.len() >= 2,
        data@[0] == 0x23,
        data@[1] == 0x21,
    ensures
        r@ == script_line(data@),
{
    let end: usize = find_byte(data, 0x0a, 0);
    proof {
        lemma_index_or_end(data@, 0x0a, 0);
        if end < 2 {
            assert(data@[end as int] == 0x0a);
        }
    }
    let line = copy_range(data, 2, end);
    let mut from: usize = 0;
    while from < line.len() && (line[from] == 0x20 || line[from] == 0x09)
        invariant
            from <= line.len(),
            past_blanks(line@, 0) == past_blanks(line@, from as int),
        decreases line.len() - from,
    {
        from += 1;
    }
    let mut n: usize = line.len();
    while n > from && (line[n - 1] == 0x0d || line[n - 1] == 0x20)
        invariant
            from <= n <= line.len(),
            before_blanks(line@, from as int, line@.len() as int) == before_blanks(
                line@,
                from as int,
                n as int,
            ),
        decreases n - from,
    {
        n -= 1;
    }
    copy_range(line.as_slice(), from, n)
}

/// Reads the `#!` line at the beginning of a script.
pub fn parse_shebang(data: &[u8]) -> (r: Option<Shebang>)
    ensures
        match r {
            Some(x) => shebang_of(data@) == Some((x.interp@, arg_view(x.arg))),
            None => shebang_of(data@) is None,
        },
{
    if data.len() < 2 || data[0] != 0x23 || data[1] != 0x21 {
        return None;
    }
    let line = trimmed_line(data);
    let s = line.as_slice();
    if !is_utf8(s) {
        return None;
    }
    let a: usize = after_space(s, 0);
    if a >= s.len() {
        return None;
    }
    let b: usize = end_of_word(s, a);
    let interp = copy_range(s, a, b);
    let c: usize = after_space(s, b);
    let arg: Option<Vec<u8>> = if c < s.len() {
        let d: usize = end_of_word(s, c);
        Some(copy_range(s, c, d))
    } else {
        None
    };
    Some(Shebang { interp, arg })
}

// ---------------------------------------------------------------------------
// Names.
// ---------------------------------------------------------------------------

/// The index after the last slash before `n`, or 0.
pub open spec fn after_slash(path: Seq<u8>, n: int) -> int
    decreases n,
{
    if n <= 0 {
        0
    } else if path[n - 1] == 0x2f {
        n
    } else {
        after_slash(path, n - 1)
    }
}

/// What follows the last slash.
pub open spec fn basename(path: Seq<u8>) -> Seq<u8> {
    path.skip(after_slash(path, path.len() as int))
}

/// A basename holds no slash, and the path ends with it.
pub proof fn law_basename(path: Seq<u8>, n: int)
    requires
        0 <= n <= path.len(),
    ensures
        0 <= after_slash(path, n) <= n,
        forall|i: int| after_slash(path, n) <= i < n ==> #[trigger] path[i] != 0x2f,
        after_slash(path, n) > 0 ==> path[after_slash(path, n) - 1] == 0x2f,
    decreases n,
{
    if n > 0 && path[n - 1] != 0x2f {
        law_basename(path, n - 1);
    }
}

/// Cuts a path down to what follows its last slash.
pub fn path_basename(path: &[u8]) -> (r: Vec<u8>)
    ensures
        r@ == basename(path@),
{
    let mut n: usize = path.len();
    while n > 0 && path[n - 1] != 0x2f
        invariant
            n <= path.len(),
            after_slash(path@, path@.len() as int) == after_slash(path@, n as int),
        decreases n,
    {
        n -= 1;
    }
    let r = copy_range(path, n, path.len());
    assert(r@ =~= path@.skip(n as int));
    r
}

/// A standard place of a POSIX shell.
pub open spec fn system_shell(path: Seq<u8>) -> bool {
    path == txt("/bin/sh") || path == txt("/bin/dash") || path == txt("/usr/bin/sh") || path == txt(
        "/usr/bin/dash",
    )
}

/// Tells whether a path is a standard place of a POSIX shell.
pub fn is_system_shell_path(path: &[u8]) -> (r: bool)
    ensures
        r == system_shell(path@),
{
    bytes_eq(path, "/bin/sh".as_bytes()) || bytes_eq(path, "/bin/dash".as_bytes()) || bytes_eq(
        path,
        "/usr/bin/sh".as_bytes(),
    ) || bytes_eq(path, "/usr/bin/dash".as_bytes())
}

/// The argument names a shell.
pub open spec fn names_shell(arg: Option<Seq<u8>>) -> bool {
    arg == Some(txt("sh")) || arg == Some(txt("dash"))
}

fn arg_names_shell(arg: &Option<Vec<u8>>) -> (r: bool)
    ensures
        r == names_shell(arg_view(*arg)),
{
    match arg {
        Some(a) => bytes_eq(a.as_slice(), "sh".as_bytes()) || bytes_eq(
            a.as_slice(),
            "dash".as_bytes(),
        ),
        None => false,
    }
}

/// A script asks for a shell: by name, or through `env` or `busybox`.
pub open spec fn wants_shell(name: Seq<u8>, arg: Option<Seq<u8>>) -> bool {
    ||| name == txt("sh")
    ||| name == txt("dash")
    ||| name == txt("env") && names_shell(arg)
    ||| name == txt("busybox") && names_shell(arg)
}

/// Tells whether a script asks for a shell.
pub fn script_wants_shell(name: &[u8], arg: &Option<Vec<u8>>) -> (r: bool)
    ensures
        r == wants_shell(name@, arg_view(*arg)),
{
    bytes_eq(name, "sh".as_bytes()) || bytes_eq(name, "dash".as_bytes()) || (bytes_eq(
        name,
        "env".as_bytes(),
    ) && arg_names_shell(arg)) || (bytes_eq(name, "busybox".as_bytes()) && arg_names_shell(arg))
}

/// A script asks for a shell through `env`.
pub open spec fn env_shell(name: Seq<u8>, arg: Option<Seq<u8>>) -> bool {
    name == txt("env") && names_shell(arg)
}

/// Tells whether a script asks for a shell through `env`.
pub fn is_env_shell(name: &[u8], arg: &Option<Vec<u8>>) -> (r: bool)
    ensures
        r == env_shell(name@, arg_view(*arg)),
{
    bytes_eq(name, "env".as_bytes()) && arg_names_shell(arg)
}

/// The applet of busybox that runs a script: there is one shell.
pub fn busybox_shell_applet() -> (r: Vec<u8>)
    ensures
        r@ == txt("sh"),
{
    to_vec("sh".as_bytes())
}

/// The argument of the `#!` line that is handed on to the shell: one that only
/// named the shell is not repeated.
pub open spec fn extra_arg(name: Seq<u8>, arg: Option<Seq<u8>>) -> Option<Seq<u8>> {
    if (name == txt("busybox") || name == txt("env")) && names_shell(arg) {
        None
    } else {
        arg
    }
}

/// Decides which argument of the `#!` line is handed on to the shell.
pub fn shebang_shell_extra_arg(name: &[u8], arg: &Option<Vec<u8>>) -> (r: Option<Vec<u8>>)
    ensures
        arg_view(r) == extra_arg(name@, arg_view(*arg)),
{
    if (bytes_eq(name, "busybox".as_bytes()) || bytes_eq(name, "env".as_bytes()))
        && arg_names_shell(arg) {
        return None;
    }
    match arg {
        Some(a) => Some(to_vec(a.as_slice())),
        None => None,
    }
}

/// The applet that a path stands for by its last part, if busybox may run it.
pub open spec fn applet_of(path: Seq<u8>, allowed: Seq<Seq<u8>>) -> Option<Seq<u8>> {
    let name = basename(path);
    if name.len() == 0 || name == txt("busybox") || crate::text::ends_with(name, txt(".sh"))
        || !allowed.contains(name) {
        None
    } else {
        Some(name)
    }
}

/// Finds the applet that a path stands for; `allowed` lists the applets that may
/// be run in place of a missing program.
pub fn find_applet(path: &Vec<u8>, allowed: &Vec<Vec<u8>>) -> (r: Option<Vec<u8>>)
    ensures
        arg_view(r) == applet_of(path@, crate::process::exec_args::views(allowed@)),
{
    let ghost names = crate::process::exec_args::views(allowed@);
    let name = path_basename(path.as_slice());
    if name.len() == 0 || bytes_eq(name.as_slice(), "busybox".as_bytes()) {
        return None;
    }
    if has_suffix(name.as_slice(), ".sh".as_bytes()) {
        return None;
    }
    let mut i: usize = 0;
    while i < allowed.len()
        invariant
            i <= allowed.len(),
            names == crate::process::exec_args::views(allowed@),
            forall|j: int| 0 <= j < i ==> names[j] != name@,
            name.len() != 0,
            name@ != txt("busybox"),
            !crate::text::ends_with(name@, txt(".sh")),
            name@ == basename(path@),
        decreases allowed.len() - i,
    {
        if bytes_eq(allowed[i].as_slice(), name.as_slice()) {
            assert(names[i as int] == name@);
            assert(names.contains(name@));
            return Some(name);
        }
        i += 1;
    }
    None
}

} // verus!
