//! What is started for a file, said of its bytes and names.

use vstd::prelude::*;
use vstd::utf8::{valid_first_scalar, valid_utf8};
use crate::errno::{E2BIG, EACCES, EFAULT, ENAMETOOLONG, ENOENT, ENOEXEC};
use crate::process::elf::{
    has_elf_magic, interp_from, interp_of, ph_extent, ph_readable, ph_start, ph_table, PhTable,
};
use crate::bytes::le32;
use crate::process::exec::{
    applet_plan, file_plan, head_of, path_plan, plain_script_plan, read_error,
    resolved_plan, run_plan, script_plan, ExecCall, ExecMemory, Plan,
};
use crate::process::exec_args::{
    args_fit, args_value, string_room, strings_of, total_room, views, ExecLimits, StackAbi,
};
use crate::process::exec_files::{
    answer, answer_from, busybox_places, first_answer, first_loaded, linker_at, linker_for,
    linker_search, loaded, path_candidates, resolved, shell_places, Access, FileTable,
};
use crate::process::shebang::{
    after_slash, basename, before_blanks, law_basename, past_blanks, script_line, shebang_of,
    skip_space, space_len, word_end,
};
use crate::process::user_strings::{
    array_error, array_value, cstr_error, cstr_value, law_ascii_is_read_as_it_stands, null_or_end,
};
use crate::text::{ends_with, index_or_end, lemma_index_or_end, txt};

verus! {

// ---------------------------------------------------------------------------
// The first line of a script.
// ---------------------------------------------------------------------------

/// A word of printable characters.
pub open spec fn is_word(s: Seq<u8>) -> bool {
    s.len() > 0 && forall|i: int| 0 <= i < s.len() ==> 0x21 <= #[trigger] s[i] <= 0x7e
}

/// Blanks and tabs.
pub open spec fn is_gap(s: Seq<u8>) -> bool {
    forall|i: int| 0 <= i < s.len() ==> #[trigger] s[i] == 0x20 || s[i] == 0x09
}

/// Blanks, tabs and carriage returns.
pub open spec fn is_trail(s: Seq<u8>) -> bool {
    forall|i: int| 0 <= i < s.len() ==> #[trigger] s[i] == 0x20 || s[i] == 0x09 || s[i] == 0x0d
}

/// A second word, if there is one, and the gap before it.
pub open spec fn second_word(gap: Seq<u8>, arg: Option<Seq<u8>>) -> Seq<u8> {
    match arg {
        Some(a) => gap + a,
        None => Seq::empty(),
    }
}

proof fn lemma_ascii_is_text(s: Seq<u8>)
    requires
        forall|i: int| 0 <= i < s.len() ==> #[trigger] s[i] <= 0x7f,
    ensures
        valid_utf8(s),
    decreases s.len(),
{
    if s.len() > 0 {
        assert(s[0] <= 0x7f);
        assert(valid_first_scalar(s));
        let t = vstd::utf8::pop_first_scalar(s);
        assert(t =~= s.subrange(1, s.len() as int));
        assert forall|i: int| 0 <= i < t.len() implies #[trigger] t[i] <= 0x7f by {
            assert(t[i] == s[i + 1]);
        }
        lemma_ascii_is_text(t);
    }
}

proof fn lemma_past_blanks(s: Seq<u8>, i: int, k: int)
    requires
        0 <= i <= k < s.len(),
        forall|j: int| i <= j < k ==> #[trigger] s[j] == 0x20 || s[j] == 0x09,
        s[k] != 0x20,
        s[k] != 0x09,
    ensures
        past_blanks(s, i) == k,
    decreases k - i,
{
    if i < k {
        assert(s[i] == 0x20 || s[i] == 0x09);
        lemma_past_blanks(s, i + 1, k);
    }
}

proof fn lemma_before_blanks(s: Seq<u8>, from: int, k: int, n: int)
    requires
        0 <= from < k <= n <= s.len(),
        s[k - 1] != 0x0d,
        s[k - 1] != 0x20,
    ensures
        k <= before_blanks(s, from, n) <= n,
    decreases n - from,
{
    if n > k && (s[n - 1] == 0x0d || s[n - 1] == 0x20) {
        lemma_before_blanks(s, from, k, n - 1);
    }
}

proof fn lemma_skip_space(s: Seq<u8>, i: int, k: int)
    requires
        0 <= i <= k <= s.len(),
        forall|j: int| i <= j < k ==> #[trigger] s[j] == 0x20 || s[j] == 0x09 || s[j] == 0x0d,
        k < s.len() ==> 0x21 <= s[k] <= 0x7e,
    ensures
        skip_space(s, i) == k,
    decreases k - i,
{
    if i < k {
        assert(s[i] == 0x20 || s[i] == 0x09 || s[i] == 0x0d);
        assert(space_len(s, i) == 1);
        lemma_skip_space(s, i + 1, k);
    }
}

proof fn lemma_word_stops(s: Seq<u8>, i: int, k: int)
    requires
        0 <= i <= k <= s.len(),
        forall|j: int| i <= j < k ==> 0x21 <= #[trigger] s[j] <= 0x7e,
        k < s.len() ==> s[k] == 0x20 || s[k] == 0x09 || s[k] == 0x0d,
    ensures
        word_end(s, i) == k,
    decreases k - i,
{
    if i < k {
        assert(0x21 <= s[i] <= 0x7e);
        assert(space_len(s, i) == 0);
        lemma_word_stops(s, i + 1, k);
    } else if k < s.len() {
        assert(space_len(s, k) == 1);
    }
}

/// The text that is left of the first line begins with its first word.
proof fn lemma_words(s: Seq<u8>, w: Seq<u8>, gap: Seq<u8>, arg: Option<Seq<u8>>, trail: Seq<u8>)
    requires
        s == w + second_word(gap, arg) + trail,
        is_word(w),
        is_gap(gap),
        is_trail(trail),
        arg matches Some(a) ==> is_word(a) && gap.len() > 0,
    ensures
        valid_utf8(s),
        skip_space(s, 0) == 0,
        word_end(s, 0) == w.len(),
        s.subrange(0, w.len() as int) == w,
        match arg {
            None => skip_space(s, w.len() as int) == s.len(),
            Some(a) => {
                let c = (w.len() + gap.len()) as int;
                &&& skip_space(s, w.len() as int) == c
                &&& c < s.len()
                &&& word_end(s, c) == c + a.len()
                &&& s.subrange(c, c + a.len()) == a
            },
        },
{
    let n = w.len() as int;
    let second = second_word(gap, arg);
    assert forall|i: int| 0 <= i < s.len() implies #[trigger] s[i] == if i < n {
        w[i]
    } else if i < n + second.len() {
        second[i - n]
    } else {
        trail[i - n - second.len()]
    } by {}
    assert forall|i: int| 0 <= i < n implies 0x21 <= #[trigger] s[i] <= 0x7e by {
        assert(s[i] == w[i]);
    }
    assert(s.subrange(0, n) =~= w);
    match arg {
        None => {
            assert forall|j: int| n <= j < s.len() implies #[trigger] s[j] == 0x20 || s[j] == 0x09
                || s[j] == 0x0d by {
                assert(s[j] == trail[j - n]);
            }
            assert forall|i: int| 0 <= i < s.len() implies #[trigger] s[i] <= 0x7f by {}
            lemma_ascii_is_text(s);
            lemma_skip_space(s, 0, 0);
            lemma_word_stops(s, 0, n);
            lemma_skip_space(s, n, s.len() as int);
        },
        Some(a) => {
            let c = n + gap.len() as int;
            let d = c + a.len();
            assert forall|j: int| n <= j < c implies #[trigger] s[j] == 0x20 || s[j] == 0x09 by {
                assert(s[j] == gap[j - n]);
            }
            assert forall|j: int| c <= j < d implies 0x21 <= #[trigger] s[j] <= 0x7e by {
                assert(s[j] == a[j - c]);
            }
            assert forall|j: int| d <= j < s.len() implies #[trigger] s[j] == 0x20 || s[j] == 0x09
                || s[j] == 0x0d by {
                assert(s[j] == trail[j - d]);
            }
            assert forall|i: int| 0 <= i < s.len() implies #[trigger] s[i] <= 0x7f by {}
            lemma_ascii_is_text(s);
            lemma_skip_space(s, 0, 0);
            assert(s[n] == 0x20 || s[n] == 0x09);
            lemma_word_stops(s, 0, n);
            assert(0x21 <= s[c] <= 0x7e);
            lemma_skip_space(s, n, c);
            lemma_word_stops(s, c, d);
            assert(s.subrange(c, d) =~= a);
        },
    }
}

/// A file that begins with `#!`, a word, perhaps a second one, and a newline within
/// the first 256 bytes names the first word as its interpreter and the second as
/// the argument, whatever follows the newline.
pub proof fn law_script_lines_are_read(
    lead: Seq<u8>,
    w: Seq<u8>,
    gap: Seq<u8>,
    arg: Option<Seq<u8>>,
    trail: Seq<u8>,
    more: Seq<u8>,
)
    requires
        is_gap(lead),
        is_word(w),
        is_gap(gap),
        is_trail(trail),
        arg matches Some(a) ==> is_word(a) && gap.len() > 0,
        2 + lead.len() + w.len() + second_word(gap, arg).len() + trail.len() < 256,
    ensures
        shebang_of(
            head_of(
                seq![0x23u8, 0x21u8] + (lead + w + second_word(gap, arg) + trail) + seq![0x0au8]
                    + more,
            ),
        ) == Some((w, arg)),
{
    let line = lead + w + second_word(gap, arg) + trail;
    let data = seq![0x23u8, 0x21u8] + line + seq![0x0au8] + more;
    let head = head_of(data);
    let n = 2 + line.len() as int;
    assert(head.len() > n);
    assert forall|i: int| 0 <= i < n implies head[i] == #[trigger] data[i] by {}
    assert(head[n] == 0x0a);
    assert(head[0] == 0x23 && head[1] == 0x21);
    let second = second_word(gap, arg);
    let l = lead.len() as int;
    assert forall|i: int| 0 <= i < line.len() implies #[trigger] line[i] != 0x0a by {
        if i < l {
            assert(line[i] == lead[i]);
        } else if i < l + w.len() {
            assert(line[i] == w[i - l]);
        } else if i < l + w.len() + second.len() {
            let j = i - l - w.len();
            assert(line[i] == second[j]);
            if j < gap.len() {
                assert(second[j] == gap[j]);
            } else {
                assert(second[j] == arg->0[j - gap.len()]);
            }
        } else {
            assert(line[i] == trail[i - l - w.len() - second.len()]);
        }
    }
    lemma_index_or_end(head, 0x0a, 0);
    let end = index_or_end(head, 0x0a, 0);
    if end < n {
        assert(head[end] == data[end]);
        if end >= 2 {
            assert(data[end] == line[end - 2]);
        }
    }
    assert(end == n);
    assert(head.subrange(2, n) =~= line);
    assert forall|j: int| 0 <= j < l implies #[trigger] line[j] == 0x20 || line[j] == 0x09 by {
        assert(line[j] == lead[j]);
    }
    assert(line[l] == w[0]);
    lemma_past_blanks(line, 0, l);
    let k = l + w.len() + second.len();
    match arg {
        Some(a) => {
            assert(line[k - 1] == second[second.len() - 1]);
            assert(second[second.len() - 1] == a[a.len() - 1]);
        },
        None => {
            assert(line[k - 1] == w[w.len() - 1]);
        },
    }
    lemma_before_blanks(line, l, k, line.len() as int);
    let e = before_blanks(line, l, line.len() as int);
    let s = line.subrange(l, e);
    assert(script_line(head) == s);
    let left = trail.take(e - k);
    assert(is_trail(left)) by {
        assert forall|i: int| 0 <= i < left.len() implies #[trigger] left[i] == 0x20 || left[i]
            == 0x09 || left[i] == 0x0d by {
            assert(left[i] == trail[i]);
        }
    }
    assert(s =~= w + second + left);
    lemma_words(s, w, gap, arg, left);
}

/// Only the first line of a file counts: two files that agree up to a newline within
/// the first 256 bytes have the same interpreter and argument.
pub proof fn law_only_the_first_line_counts(a: Seq<u8>, b: Seq<u8>, n: int)
    requires
        0 <= n < 256,
        n < a.len(),
        n < b.len(),
        a[n] == 0x0a,
        forall|i: int| 0 <= i <= n ==> #[trigger] a[i] == b[i],
    ensures
        shebang_of(head_of(a)) == shebang_of(head_of(b)),
{
    let x = head_of(a);
    let y = head_of(b);
    assert forall|i: int| 0 <= i <= n implies #[trigger] x[i] == y[i] by {
        assert(a[i] == b[i]);
    }
    assert(x[n] == 0x0a);
    lemma_index_or_end(x, 0x0a, 0);
    lemma_index_or_end(y, 0x0a, 0);
    let p = index_or_end(x, 0x0a, 0);
    let q = index_or_end(y, 0x0a, 0);
    if p < q {
        assert(x[p] == y[p]);
    } else if q < p {
        assert(x[q] == y[q]);
    }
    if n >= 1 {
        assert(x[0] == y[0] && x[1] == y[1]);
        if p >= 2 {
            assert(x.subrange(2, p) =~= y.subrange(2, p));
        } else {
            assert(x[0] == 0x0a || x[1] == 0x0a);
        }
    } else {
        assert(x[0] == y[0]);
    }
}

/// A file that does not begin with `#!` names no interpreter.
pub proof fn law_other_files_are_no_scripts(data: Seq<u8>)
    requires
        data.len() < 2 || data[0] != 0x23 || data[1] != 0x21,
    ensures
        shebang_of(head_of(data)) is None,
{
}

// ---------------------------------------------------------------------------
// Finding files.
// ---------------------------------------------------------------------------

/// The first entry for a path is entry `i`.
pub open spec fn listed_at(files: FileTable, path: Seq<u8>, i: int) -> bool {
    &&& 0 <= i < files.entries@.len()
    &&& files.entries@[i].path@ == path
    &&& forall|j: int| 0 <= j < i ==> (#[trigger] files.entries@[j]).path@ != path
}

proof fn lemma_answer(files: FileTable, path: Seq<u8>, how: Access, i: int, j: int)
    requires
        listed_at(files, path, i),
        0 <= j <= i,
    ensures
        answer_from(files.entries@, path, how, j) == answer_from(files.entries@, path, how, i),
    decreases i - j,
{
    if j < i {
        assert(files.entries@[j].path@ != path);
        lemma_answer(files, path, how, i, j + 1);
    }
}

/// What the file system says of a path is what its first entry says, for each way
/// to ask; a path that is not listed does not exist.
pub proof fn law_answers_are_those_listed(files: FileTable, path: Seq<u8>, i: int)
    requires
        listed_at(files, path, i),
    ensures
        answer(files, path, Access::Load) == files.entries@[i].load,
        answer(files, path, Access::Resolve) == files.entries@[i].resolve,
        answer(files, path, Access::Read) == files.entries@[i].read,
{
    lemma_answer(files, path, Access::Load, i, 0);
    lemma_answer(files, path, Access::Resolve, i, 0);
    lemma_answer(files, path, Access::Read, i, 0);
}

proof fn lemma_absent(files: FileTable, path: Seq<u8>, how: Access, j: int)
    requires
        0 <= j <= files.entries@.len(),
        forall|k: int| 0 <= k < files.entries@.len() ==> (#[trigger] files.entries@[k]).path@ != path,
    ensures
        answer_from(files.entries@, path, how, j) == Err::<usize, isize>(ENOENT),
    decreases files.entries@.len() - j,
{
    if j < files.entries@.len() {
        assert(files.entries@[j].path@ != path);
        lemma_absent(files, path, how, j + 1);
    }
}

/// A path that is not listed does not exist.
pub proof fn law_unlisted_paths_do_not_exist(files: FileTable, path: Seq<u8>, how: Access)
    requires
        forall|k: int| 0 <= k < files.entries@.len() ==> (#[trigger] files.entries@[k]).path@ != path,
    ensures
        answer(files, path, how) == Err::<usize, isize>(ENOENT),
{
    lemma_absent(files, path, how, 0);
}

/// A program is the file under its own name, if that exists or there is trouble
/// with it; else the one under its name with `.bin`, unless it ends so already.
pub proof fn law_names_that_are_tried(files: FileTable, path: Seq<u8>)
    requires
        path != txt("busybox"),
        path != txt("./busybox"),
    ensures
        answer(files, path, Access::Load) != Err::<usize, isize>(ENOENT) ==> loaded(files, path)
            == answer(files, path, Access::Load),
        answer(files, path, Access::Load) == Err::<usize, isize>(ENOENT) ==> loaded(files, path)
            == if ends_with(path, txt(".bin")) {
            Err::<usize, isize>(ENOENT)
        } else {
            answer(files, path + txt(".bin"), Access::Load)
        },
        answer(files, path, Access::Resolve) != Err::<usize, isize>(ENOENT) ==> resolved(
            files,
            path,
        ) == answer(files, path, Access::Resolve),
        answer(files, path, Access::Resolve) == Err::<usize, isize>(ENOENT) ==> resolved(
            files,
            path,
        ) == if ends_with(path, txt(".bin")) {
            Err::<usize, isize>(ENOENT)
        } else {
            answer(files, path + txt(".bin"), Access::Resolve)
        },
{
    reveal_with_fuel(first_answer, 4);
    let c = path_candidates(path);
    assert(c[0] == path);
    if !ends_with(path, txt(".bin")) {
        assert(c.len() == 2 && c[1] == path + txt(".bin"));
    }
}

/// Busybox is tried under its own name, and then in the places where it is put.
pub proof fn law_busybox_names(files: FileTable, path: Seq<u8>, i: int)
    requires
        path == txt("busybox") || path == txt("./busybox"),
        !ends_with(path, txt(".bin")),
        0 <= i < 6,
    ensures
        ({
            let names = seq![
                path,
                txt("/musl/busybox"),
                txt("/glibc/busybox"),
                txt("/bin/busybox"),
                txt("/busybox"),
                path + txt(".bin"),
            ];
            (forall|j: int|
                0 <= j < i ==> answer(files, #[trigger] names[j], Access::Load) == Err::<
                    usize,
                    isize,
                >(ENOENT)) && answer(files, names[i], Access::Load) != Err::<usize, isize>(ENOENT)
                ==> loaded(files, path) == answer(files, names[i], Access::Load)
        }),
{
    let names = seq![
        path,
        txt("/musl/busybox"),
        txt("/glibc/busybox"),
        txt("/bin/busybox"),
        txt("/busybox"),
        path + txt(".bin"),
    ];
    assert(path_candidates(path) =~= names);
    if answer(files, names[i], Access::Load) != Err::<usize, isize>(ENOENT) && forall|j: int|
        0 <= j < i ==> answer(files, #[trigger] names[j], Access::Load) == Err::<usize, isize>(
            ENOENT,
        ) {
        lemma_first_answer(files, names, i, 0);
    }
}

proof fn lemma_first_answer(files: FileTable, names: Seq<Seq<u8>>, i: int, j: int)
    requires
        0 <= j <= i < names.len(),
        forall|k: int|
            0 <= k < i ==> answer(files, #[trigger] names[k], Access::Load) == Err::<usize, isize>(
                ENOENT,
            ),
        answer(files, names[i], Access::Load) != Err::<usize, isize>(ENOENT),
    ensures
        first_answer(files, names, Access::Load, j) == answer(files, names[i], Access::Load),
    decreases i - j,
{
    if j < i {
        assert(answer(files, names[j], Access::Load) == Err::<usize, isize>(ENOENT));
        lemma_first_answer(files, names, i, j + 1);
    }
}

/// A shell is looked for in place after place: the first that has one gives it, and
/// trouble with a place that exists ends the search.
pub proof fn law_first_place_counts(files: FileTable, places: Seq<Seq<u8>>, i: int, j: int)
    requires
        0 <= j <= i <= places.len(),
        forall|k: int|
            j <= k < i ==> loaded(files, #[trigger] places[k]) == Err::<usize, isize>(ENOENT),
    ensures
        i == places.len() ==> first_loaded(files, places, j) == Ok::<Option<(int, usize)>, isize>(
            None,
        ),
        i < places.len() ==> (loaded(files, places[i]) matches Ok(f) ==> first_loaded(
            files,
            places,
            j,
        ) == Ok::<Option<(int, usize)>, isize>(Some((i, f)))),
        i < places.len() ==> (loaded(files, places[i]) matches Err(e) ==> (e != ENOENT
            ==> first_loaded(files, places, j) == Err::<Option<(int, usize)>, isize>(e))),
    decreases i - j,
{
    if j < i {
        assert(loaded(files, places[j]) == Err::<usize, isize>(ENOENT));
        law_first_place_counts(files, places, i, j + 1);
    }
}

/// The places of busybox and of shells. The first eight places of shells hold
/// busybox, which has to be told that it is one.
pub proof fn law_places()
    ensures
        busybox_places() == seq![
            txt("./busybox"),
            txt("busybox"),
            txt("/musl/busybox"),
            txt("/glibc/busybox"),
            txt("/riscv/musl/busybox"),
            txt("/riscv/glibc/busybox"),
            txt("/extra/riscv/musl/busybox"),
            txt("/extra/riscv/glibc/busybox"),
            txt("/bin/busybox"),
            txt("/busybox"),
        ],
        shell_places().len() == 10,
        forall|i: int|
            0 <= i < 6 ==> #[trigger] shell_places()[i] == busybox_places()[i],
        shell_places()[6] == txt("/bin/busybox"),
        shell_places()[7] == txt("/busybox"),
        shell_places()[8] == txt("/bin/sh"),
        shell_places()[9] == txt("/sh"),
{
}

// ---------------------------------------------------------------------------
// Dynamic linkers.
// ---------------------------------------------------------------------------

/// A program gets the linker that it names, if that is there, whether or not it may
/// be executed; one of another architecture is refused.
pub proof fn law_programs_get_the_linker_they_name(
    files: FileTable,
    interp: Seq<u8>,
    abi: Option<u32>,
    f: usize,
)
    requires
        loaded(files, interp) == Ok::<usize, isize>(f) || (loaded(files, interp) == Err::<
            usize,
            isize,
        >(EACCES) && answer(files, interp, Access::Read) == Ok::<usize, isize>(f)),
    ensures
        abi is None || files.images@[f as int].abi == Ok::<u32, isize>(abi->0) ==> linker_for(
            files,
            interp,
            abi,
        ) == Ok::<usize, isize>(f),
        abi is Some ==> (files.images@[f as int].abi matches Ok(a) && a != abi->0 ==> linker_for(
            files,
            interp,
            abi,
        ) == Err::<usize, isize>(ENOEXEC)),
        abi is Some ==> (files.images@[f as int].abi matches Err(e) ==> linker_for(
            files,
            interp,
            abi,
        ) == Err::<usize, isize>(e)),
{
}

/// Trouble with the linker that is named, other than that it is absent or may not be
/// executed, is reported.
pub proof fn law_linker_trouble(files: FileTable, interp: Seq<u8>, abi: Option<u32>, e: isize)
    requires
        loaded(files, interp) == Err::<usize, isize>(e),
        e != ENOENT,
        e != EACCES,
    ensures
        linker_for(files, interp, abi) == Err::<usize, isize>(e),
{
}

/// Other places of a linker are searched in turn, and one of another architecture is
/// passed over.
pub proof fn law_linkers_elsewhere(
    files: FileTable,
    places: Seq<Seq<u8>>,
    abi: u32,
    i: int,
    j: int,
    wrong: bool,
    f: usize,
)
    requires
        0 <= j <= i < places.len(),
        forall|k: int|
            j <= k < i ==> (linker_at(files, #[trigger] places[k]) matches Ok(x) && (x matches Some(
                g,
            ) ==> (files.images@[g as int].abi matches Ok(b) && b != abi))),
        linker_at(files, places[i]) == Ok::<Option<usize>, isize>(Some(f)),
        files.images@[f as int].abi == Ok::<u32, isize>(abi),
    ensures
        linker_search(files, places, Some(abi), j, wrong) == Ok::<usize, isize>(f),
    decreases i - j,
{
    if j < i {
        assert(linker_at(files, places[j]) is Ok);
        law_linkers_elsewhere(files, places, abi, i, j + 1, wrong, f);
        law_linkers_elsewhere(files, places, abi, i, j + 1, true, f);
    }
}

// ---------------------------------------------------------------------------
// What is started.
// ---------------------------------------------------------------------------

/// File `f` is started with these arguments: they have to fit, and a file that asks
/// for a dynamic linker has to get one.
pub open spec fn starts_with_args(
    files: FileTable,
    f: usize,
    args: Seq<Seq<u8>>,
    call: ExecCall,
    plan: Plan,
) -> bool {
    let envs = views(call.envs@);
    let image = files.images@[f as int];
    let abi = match image.abi {
        Ok(a) => Some(a),
        Err(_) => None,
    };
    if !args_fit(args, envs, call.limits) {
        plan == Plan::Fail(E2BIG)
    } else {
        match interp_of(image.data@) {
            None => plan == Plan::Run { file: f, linker: None, args, envs },
            Some(name) => match linker_for(files, name, abi) {
                Ok(l) => plan == Plan::Run { file: f, linker: Some(l), args, envs },
                Err(e) => plan == Plan::Fail(e),
            },
        }
    }
}

/// A list of one string, or of none.
pub open spec fn opt(s: Option<Seq<u8>>) -> Seq<Seq<u8>> {
    match s {
        Some(x) => seq![x],
        None => Seq::empty(),
    }
}

/// All arguments but the first.
pub open spec fn tail(args: Seq<Seq<u8>>) -> Seq<Seq<u8>> {
    args.subrange(
        if args.len() == 0 {
            0
        } else {
            1
        },
        args.len() as int,
    )
}

/// The file begins as ELF files do.
pub open spec fn elf_file(files: FileTable, f: usize) -> bool {
    let d = files.images@[f as int].data@;
    d.len() >= 4 && d.subrange(0, 4) == seq![0x7fu8, 0x45u8, 0x4cu8, 0x46u8]
}

proof fn lemma_elf(files: FileTable, f: usize)
    ensures
        elf_file(files, f) == has_elf_magic(files.images@[f as int].data@),
{
    let d = files.images@[f as int].data@;
    if d.len() >= 4 {
        let m = seq![0x7fu8, 0x45u8, 0x4cu8, 0x46u8];
        if has_elf_magic(d) {
            assert(d.subrange(0, 4) =~= m);
        }
        if d.subrange(0, 4) == m {
            assert(d[0] == d.subrange(0, 4)[0] && d[1] == d.subrange(0, 4)[1] && d[2] == d.subrange(
                0,
                4,
            )[2] && d[3] == d.subrange(0, 4)[3]);
        }
    }
}

proof fn lemma_run(
    files: FileTable,
    f: usize,
    a: Seq<Seq<u8>>,
    b: Seq<Seq<u8>>,
    call: ExecCall,
    plan: Plan,
)
    requires
        plan == run_plan(files, f, a, views(call.envs@), call.limits),
        a == b,
    ensures
        starts_with_args(files, f, b, call, plan),
{
}

/// A script whose interpreter is an ELF file runs it with the word of its first
/// line, if there is one, the path of the script, and the arguments after the
/// first. However long the script is, only its first line matters.
pub proof fn law_scripts_run_their_interpreter(
    files: FileTable,
    call: ExecCall,
    file: usize,
    lead: Seq<u8>,
    w: Seq<u8>,
    gap: Seq<u8>,
    arg: Option<Seq<u8>>,
    trail: Seq<u8>,
    more: Seq<u8>,
    f: usize,
)
    requires
        is_gap(lead),
        is_word(w),
        is_gap(gap),
        is_trail(trail),
        arg matches Some(a) ==> is_word(a) && gap.len() > 0,
        2 + lead.len() + w.len() + second_word(gap, arg).len() + trail.len() < 256,
        files.images@[file as int].data@ == seq![0x23u8, 0x21u8] + (lead + w + second_word(gap, arg)
            + trail) + seq![0x0au8] + more,
        !files.images@[file as int].is_program,
        files.images@[file as int].probe_error is None,
        args_fit(views(call.args@), views(call.envs@), call.limits),
        loaded(files, w) == Ok::<usize, isize>(f),
        elf_file(files, f),
    ensures
        starts_with_args(
            files,
            f,
            seq![w] + opt(arg) + seq![call.path@] + tail(views(call.args@)),
            call,
            file_plan(files, call, file),
        ),
{
    law_script_lines_are_read(lead, w, gap, arg, trail, more);
    law_interpreters_are_run(files, call, w, arg, f);
    assert(file_plan(files, call, file) == script_plan(files, call, w, arg));
}

/// An interpreter that is an ELF file is run with the word of the script's line, the
/// script, and the arguments after the first.
pub proof fn law_interpreters_are_run(
    files: FileTable,
    call: ExecCall,
    w: Seq<u8>,
    arg: Option<Seq<u8>>,
    f: usize,
)
    requires
        loaded(files, w) == Ok::<usize, isize>(f),
        elf_file(files, f),
    ensures
        starts_with_args(
            files,
            f,
            seq![w] + opt(arg) + seq![call.path@] + tail(views(call.args@)),
            call,
            script_plan(files, call, w, arg),
        ),
{
    lemma_elf(files, f);
    let args = views(call.args@);
    let expected = seq![w] + opt(arg) + seq![call.path@] + tail(args);
    let given = crate::process::exec::script_args(w, arg, None, call.path@, args);
    assert(given =~= expected);
    lemma_run(files, f, given, expected, call, script_plan(files, call, w, arg));
}

/// The line of a script asks for a shell.
pub open spec fn asks_for_shell(name: Seq<u8>, arg: Option<Seq<u8>>) -> bool {
    let shell = |x: Seq<u8>| x == txt("sh") || x == txt("dash");
    shell(name) || ((name == txt("env") || name == txt("busybox")) && arg is Some && shell(arg->0))
}

/// A script whose interpreter is not there, or is no ELF file, cannot be started,
/// unless it asks for a shell; other trouble with the interpreter is reported in
/// any case.
pub proof fn law_missing_interpreters(
    files: FileTable,
    call: ExecCall,
    w: Seq<u8>,
    arg: Option<Seq<u8>>,
)
    ensures
        loaded(files, w) matches Err(e) ==> (e != ENOENT ==> script_plan(files, call, w, arg)
            == Plan::Fail(e)),
        loaded(files, w) == Err::<usize, isize>(ENOENT) && !asks_for_shell(basename(w), arg)
            ==> script_plan(files, call, w, arg) == Plan::Fail(ENOENT),
        loaded(files, w) matches Ok(f) && !elf_file(files, f) && !asks_for_shell(basename(w), arg)
            ==> script_plan(files, call, w, arg) == Plan::Fail(ENOEXEC),
{
    if let Ok(f) = loaded(files, w) {
        lemma_elf(files, f);
    }
}

/// The word of the line that a stand-in shell gets: not the name of the shell.
pub open spec fn word_for_shell(name: Seq<u8>, arg: Option<Seq<u8>>) -> Option<Seq<u8>> {
    if (name == txt("env") || name == txt("busybox")) && (arg == Some(txt("sh")) || arg == Some(
        txt("dash"),
    )) {
        None
    } else {
        arg
    }
}

/// A script that asks for a standard shell which is not there is run by busybox as
/// `sh`.
pub proof fn law_busybox_stands_in_for_shells(
    files: FileTable,
    call: ExecCall,
    w: Seq<u8>,
    arg: Option<Seq<u8>>,
    i: int,
    f: usize,
)
    requires
        loaded(files, w) == Err::<usize, isize>(ENOENT) || (loaded(files, w) matches Ok(g)
            && !elf_file(files, g)),
        w == txt("/bin/sh") || w == txt("/bin/dash") || w == txt("/usr/bin/sh") || w == txt(
            "/usr/bin/dash",
        ),
        asks_for_shell(basename(w), arg),
        first_loaded(files, busybox_places(), 0) == Ok::<Option<(int, usize)>, isize>(
            Some((i, f)),
        ),
    ensures
        starts_with_args(
            files,
            f,
            seq![busybox_places()[i], txt("sh")] + opt(word_for_shell(basename(w), arg)) + seq![
                call.path@,
            ] + tail(views(call.args@)),
            call,
            script_plan(files, call, w, arg),
        ),
{
    if let Ok(g) = loaded(files, w) {
        lemma_elf(files, g);
    }
    let args = views(call.args@);
    let extra = word_for_shell(basename(w), arg);
    let place = busybox_places()[i];
    let expected = seq![place, txt("sh")] + opt(extra) + seq![call.path@] + tail(args);
    let given = crate::process::exec::script_args(
        place,
        Some(txt("sh")),
        extra,
        call.path@,
        args,
    );
    assert(given =~= expected);
    lemma_run(files, f, given, expected, call, script_plan(files, call, w, arg));
}

/// A script that asks for a shell in another way is run by the first shell that is
/// found; busybox is told to be `sh`.
pub proof fn law_any_shell_stands_in(
    files: FileTable,
    call: ExecCall,
    w: Seq<u8>,
    arg: Option<Seq<u8>>,
    i: int,
    f: usize,
)
    requires
        loaded(files, w) == Err::<usize, isize>(ENOENT) || (loaded(files, w) matches Ok(g)
            && !elf_file(files, g)),
        asks_for_shell(basename(w), arg),
        !(w == txt("/bin/sh") || w == txt("/bin/dash") || w == txt("/usr/bin/sh") || w == txt(
            "/usr/bin/dash",
        )) || !(first_loaded(files, busybox_places(), 0) matches Ok(Some(_))),
        first_loaded(files, shell_places(), 0) == Ok::<Option<(int, usize)>, isize>(Some((i, f))),
    ensures
        !elf_file(files, f) ==> script_plan(files, call, w, arg) == Plan::Fail(ENOEXEC),
        elf_file(files, f) ==> starts_with_args(
            files,
            f,
            seq![shell_places()[i]] + (if i < 8 {
                seq![txt("sh")]
            } else {
                Seq::empty()
            }) + opt(word_for_shell(basename(w), arg)) + seq![call.path@] + tail(views(call.args@)),
            call,
            script_plan(files, call, w, arg),
        ),
{
    if let Ok(g) = loaded(files, w) {
        lemma_elf(files, g);
    }
    lemma_elf(files, f);
    let args = views(call.args@);
    let extra = word_for_shell(basename(w), arg);
    let sh = if i < 8 {
        Some(txt("sh"))
    } else {
        None
    };
    let expected = seq![shell_places()[i]] + (if i < 8 {
        seq![txt("sh")]
    } else {
        Seq::empty()
    }) + opt(extra) + seq![call.path@] + tail(args);
    let given = crate::process::exec::script_args(
        shell_places()[i],
        sh,
        extra,
        call.path@,
        args,
    );
    assert(given =~= expected);
    if elf_file(files, f) {
        lemma_run(files, f, given, expected, call, script_plan(files, call, w, arg));
    }
}

/// A script that asks for a shell fails if none is found.
pub proof fn law_no_shell_at_all(files: FileTable, call: ExecCall, w: Seq<u8>, arg: Option<Seq<u8>>)
    requires
        loaded(files, w) == Err::<usize, isize>(ENOENT) || (loaded(files, w) matches Ok(g)
            && !elf_file(files, g)),
        asks_for_shell(basename(w), arg),
        !(first_loaded(files, busybox_places(), 0) matches Ok(Some(_))),
    ensures
        first_loaded(files, shell_places(), 0) matches Err(e) ==> script_plan(files, call, w, arg)
            == Plan::Fail(e),
        first_loaded(files, shell_places(), 0) matches Ok(None) ==> script_plan(
            files,
            call,
            w,
            arg,
        ) == Plan::Fail(ENOENT),
{
    if let Ok(g) = loaded(files, w) {
        lemma_elf(files, g);
    }
}

/// A file that is neither a program nor a script is run by the first shell if its
/// name ends in `.sh`, and else cannot be started.
pub proof fn law_plain_scripts(files: FileTable, call: ExecCall, file: usize)
    requires
        !files.images@[file as int].is_program,
        files.images@[file as int].probe_error is None,
        args_fit(views(call.args@), views(call.envs@), call.limits),
        shebang_of(head_of(files.images@[file as int].data@)) is None,
    ensures
        !ends_with(call.path@, txt(".sh")) ==> file_plan(files, call, file) == Plan::Fail(ENOEXEC),
        ends_with(call.path@, txt(".sh")) ==> match first_loaded(files, shell_places(), 0) {
            Err(e) => file_plan(files, call, file) == Plan::Fail(e),
            Ok(None) => file_plan(files, call, file) == Plan::Fail(ENOENT),
            Ok(Some((i, f))) => if elf_file(files, f) {
                starts_with_args(
                    files,
                    f,
                    seq![shell_places()[i]] + (if i < 8 {
                        seq![txt("sh")]
                    } else {
                        Seq::empty()
                    }) + seq![call.path@] + tail(views(call.args@)),
                    call,
                    file_plan(files, call, file),
                )
            } else {
                file_plan(files, call, file) == Plan::Fail(ENOEXEC)
            },
        },
{
    if let Ok(Some((i, f))) = first_loaded(files, shell_places(), 0) {
        lemma_elf(files, f);
        let args = views(call.args@);
        let sh = if i < 8 {
            Some(txt("sh"))
        } else {
            None
        };
        let expected = seq![shell_places()[i]] + (if i < 8 {
            seq![txt("sh")]
        } else {
            Seq::empty()
        }) + seq![call.path@] + tail(args);
        let given = crate::process::exec::script_args(
            shell_places()[i],
            sh,
            None,
            call.path@,
            args,
        );
        assert(given =~= expected);
        if elf_file(files, f) && ends_with(call.path@, txt(".sh")) {
            assert(file_plan(files, call, file) == plain_script_plan(files, call));
            lemma_run(files, f, given, expected, call, plain_script_plan(files, call));
        }
    }
}

/// Arguments that do not fit, and files that cannot be taken as programs, are
/// refused before anything is started.
pub proof fn law_refused_starts(files: FileTable, call: ExecCall, file: usize)
    ensures
        !args_fit(views(call.args@), views(call.envs@), call.limits) ==> file_plan(
            files,
            call,
            file,
        ) == Plan::Fail(E2BIG),
        args_fit(views(call.args@), views(call.envs@), call.limits) ==> (
        files.images@[file as int].probe_error matches Some(e) ==> file_plan(files, call, file)
            == Plan::Fail(e)),
{
}

/// An ELF program is started itself, with the arguments and the environment that
/// were given, through the linker that it asks for.
pub proof fn law_programs_are_started(files: FileTable, call: ExecCall, file: usize)
    requires
        files.images@[file as int].is_program,
        files.images@[file as int].probe_error is None,
        args_fit(views(call.args@), views(call.envs@), call.limits),
    ensures
        ({
            let image = files.images@[file as int];
            let plan = file_plan(files, call, file);
            let args = views(call.args@);
            let envs = views(call.envs@);
            match image.program_interp {
                None => plan == Plan::Run { file, linker: None, args, envs },
                Some(name) => {
                    let abi = match image.abi {
                        Ok(a) => Some(a),
                        Err(_) => None,
                    };
                    match linker_for(files, name@, abi) {
                        Err(e) => plan == Plan::Fail(e),
                        Ok(l) => plan == if elf_file(files, l) {
                            Plan::Run { file, linker: Some(l), args, envs }
                        } else {
                            Plan::Fail(ENOEXEC)
                        },
                    }
                },
            }
        }),
{
    let image = files.images@[file as int];
    if let Some(name) = image.program_interp {
        let abi = match image.abi {
            Ok(a) => Some(a),
            Err(_) => None,
        };
        if let Ok(l) = linker_for(files, name@, abi) {
            lemma_elf(files, l);
        }
    }
}

/// The path of a standard shell starts busybox as `sh`, if there is busybox.
pub proof fn law_shell_paths_start_busybox(
    files: FileTable,
    call: ExecCall,
    allowed: Seq<Seq<u8>>,
    i: int,
    f: usize,
)
    requires
        call.path@ == txt("/bin/sh") || call.path@ == txt("/bin/dash") || call.path@ == txt(
            "/usr/bin/sh",
        ) || call.path@ == txt("/usr/bin/dash"),
        first_loaded(files, busybox_places(), 0) == Ok::<Option<(int, usize)>, isize>(
            Some((i, f)),
        ),
    ensures
        starts_with_args(
            files,
            f,
            seq![busybox_places()[i], txt("sh")] + tail(views(call.args@)),
            call,
            path_plan(files, call, allowed),
        ),
{
    let args = views(call.args@);
    let given = seq![busybox_places()[i], txt("sh")] + crate::process::exec::rest(args);
    let expected = seq![busybox_places()[i], txt("sh")] + tail(args);
    assert(given =~= expected);
    lemma_run(files, f, given, expected, call, path_plan(files, call, allowed));
}

/// Any other path starts the file that it leads to, unless that is reserved.
pub proof fn law_paths_start_their_files(
    files: FileTable,
    call: ExecCall,
    allowed: Seq<Seq<u8>>,
    file: usize,
)
    requires
        !(call.path@ == txt("/bin/sh") || call.path@ == txt("/bin/dash") || call.path@ == txt(
            "/usr/bin/sh",
        ) || call.path@ == txt("/usr/bin/dash")) || !(first_loaded(
            files,
            busybox_places(),
            0,
        ) matches Ok(Some(_))),
        resolved(files, call.path@) == Ok::<usize, isize>(file),
    ensures
        path_plan(files, call, allowed) == match files.images@[file as int].reserve_error {
            Some(e) => Plan::Fail(e),
            None => file_plan(files, call, file),
        },
{
}

/// A path that leads nowhere starts the applet of busybox that has the name of its
/// last part, if that is allowed and busybox is there; else it fails.
pub proof fn law_missing_programs(
    files: FileTable,
    call: ExecCall,
    allowed: Seq<Seq<u8>>,
    e: isize,
)
    requires
        !(call.path@ == txt("/bin/sh") || call.path@ == txt("/bin/dash") || call.path@ == txt(
            "/usr/bin/sh",
        ) || call.path@ == txt("/usr/bin/dash")) || !(first_loaded(
            files,
            busybox_places(),
            0,
        ) matches Ok(Some(_))),
        resolved(files, call.path@) == Err::<usize, isize>(e),
    ensures
        ({
            let name = basename(call.path@);
            let applet = allowed.contains(name) && name.len() > 0 && name != txt("busybox")
                && !ends_with(name, txt(".sh"));
            let plan = path_plan(files, call, allowed);
            match first_loaded(files, busybox_places(), 0) {
                Ok(Some((i, f))) => if e == ENOENT && applet {
                    starts_with_args(
                        files,
                        f,
                        seq![busybox_places()[i], name] + tail(views(call.args@)),
                        call,
                        plan,
                    )
                } else {
                    plan == Plan::Fail(e)
                },
                _ => plan == Plan::Fail(e),
            }
        }),
{
    let args = views(call.args@);
    let name = basename(call.path@);
    if let Ok(Some((i, f))) = first_loaded(files, busybox_places(), 0) {
        let given = seq![busybox_places()[i], name] + crate::process::exec::rest(args);
        let expected = seq![busybox_places()[i], name] + tail(args);
        assert(given =~= expected);
        if let Some(plan) = applet_plan(files, call, allowed) {
            assert(plan == run_plan(files, f, given, views(call.envs@), call.limits));
            lemma_run(files, f, given, expected, call, plan);
        }
    }
    assert(path_plan(files, call, allowed) == resolved_plan(files, call, allowed));
}

// ---------------------------------------------------------------------------
// Room for the arguments.
// ---------------------------------------------------------------------------

/// A string takes its bytes and a terminator; on one platform it is rounded up to a
/// word.
pub proof fn law_room_of_a_string(list: Seq<Seq<u8>>, s: Seq<u8>, abi: StackAbi)
    ensures
        total_room(Seq::empty(), abi) == 0,
        ({
            let more = total_room(list.push(s), abi) - total_room(list, abi);
            match abi {
                StackAbi::RiscV => more == s.len() + 1,
                StackAbi::LoongArch => more % 8 == 0 && s.len() + 1 <= more < s.len() + 9,
            }
        }),
{
    assert(list.push(s).drop_last() =~= list);
    let n = s.len() as int;
    assert(string_room(n, StackAbi::LoongArch) == (n + 8) / 8 * 8);
}

/// Arguments fit exactly if there are not too many, none is longer than 128 KiB, and
/// with eight bytes for each pointer they stay within 128 KiB, three quarters of 8
/// MiB, a quarter of the stack limit, and the stack less what is reserved.
pub proof fn law_when_arguments_fit(args: Seq<Seq<u8>>, envs: Seq<Seq<u8>>, l: ExecLimits)
    requires
        args.len() + envs.len() < 0x1000_0000,
        args.len() > 0,
    ensures
        ({
            let used = 8 * (args.len() + envs.len()) + total_room(args + envs, l.abi);
            let reserve = 131072 + 320 + 16 + 24 + 16 + 8 + match l.abi {
                StackAbi::RiscV => 9 + (if args[0].len() > 0 {
                    args[0].len() + 1
                } else {
                    0
                }),
                StackAbi::LoongArch => 16,
            };
            args_fit(args, envs, l) <==> {
                &&& args.len() <= l.user_stack_size / 8
                &&& envs.len() <= l.user_stack_size / 8
                &&& forall|i: int| 0 <= i < args.len() ==> (#[trigger] args[i]).len() < 131072
                &&& forall|i: int| 0 <= i < envs.len() ==> (#[trigger] envs[i]).len() < 131072
                &&& used <= 131072
                &&& 4 * used <= l.rlimit_stack
                &&& used + reserve <= l.user_stack_size
            }
        }),
{
    let all = args + envs;
    lemma_room_is_positive(all, l.abi);
    if crate::process::exec_args::all_short(all) {
        assert forall|i: int| 0 <= i < args.len() implies (#[trigger] args[i]).len() < 131072 by {
            assert(all[i] == args[i]);
        }
        assert forall|i: int| 0 <= i < envs.len() implies (#[trigger] envs[i]).len() < 131072 by {
            assert(all[args.len() + i] == envs[i]);
        }
    }
    assert(string_room(11, StackAbi::LoongArch) == 16);
}

proof fn lemma_room_is_positive(list: Seq<Seq<u8>>, abi: StackAbi)
    ensures
        total_room(list, abi) >= list.len(),
    decreases list.len(),
{
    if list.len() > 0 {
        lemma_room_is_positive(list.drop_last(), abi);
        let n = list.last().len() as int;
        assert(string_room(n, StackAbi::LoongArch) == (n + 8) / 8 * 8);
    }
}

// ---------------------------------------------------------------------------
// Reading the call.
// ---------------------------------------------------------------------------

/// A string in memory ends at its first zero; without bytes above 127 it is read as it
/// stands.
pub proof fn law_strings_are_read(n: Seq<u8>, more: Seq<u8>, max: int, too_long: isize)
    requires
        forall|i: int| 0 <= i < n.len() ==> 0 < #[trigger] n[i] < 0x80,
    ensures
        n.len() < max ==> cstr_error(n + seq![0u8] + more, max, too_long) is None,
        cstr_value(n + seq![0u8] + more) == n,
        n.len() >= max ==> cstr_error(n + seq![0u8] + more, max, too_long) == Some(too_long),
        n.len() < max ==> cstr_error(n, max, too_long) == Some(EFAULT),
{
    let mem = n + seq![0u8] + more;
    lemma_index_or_end(mem, 0, 0);
    let e = index_or_end(mem, 0, 0);
    assert(mem[n.len() as int] == 0);
    assert forall|i: int| 0 <= i < n.len() implies #[trigger] mem[i] == n[i] by {}
    if e < n.len() {
        assert(n[e] > 0);
    }
    assert(mem.take(e) =~= n);
    law_ascii_is_read_as_it_stands(n);
    lemma_index_or_end(n, 0, 0);
    let d = index_or_end(n, 0, 0);
    if d < n.len() {
        assert(n[d] > 0);
    }
}

/// A list of pointers ends at its first null pointer; a null list is an empty one.
pub proof fn law_lists_are_read(ptr: u64, words: Seq<u64>, k: int, limit: int)
    ensures
        ptr == 0 ==> array_error(ptr, words, limit) is None && array_value(ptr, words).len() == 0,
        ptr != 0 && 0 <= k < words.len() && words[k] == 0 && (forall|i: int|
            0 <= i < k ==> #[trigger] words[i] != 0) ==> array_value(ptr, words) == words.subrange(
            0,
            k,
        ) && array_error(ptr, words, limit) == if k < limit {
            None
        } else {
            Some(E2BIG)
        },
{
    if ptr != 0 && 0 <= k < words.len() && words[k] == 0 && (forall|i: int|
        0 <= i < k ==> #[trigger] words[i] != 0) {
        lemma_null(words, k, 0);
        assert(words.take(k) =~= words.subrange(0, k));
    }
}

proof fn lemma_null(words: Seq<u64>, k: int, i: int)
    requires
        0 <= i <= k < words.len(),
        words[k] == 0,
        forall|j: int| 0 <= j < k ==> #[trigger] words[j] != 0,
    ensures
        null_or_end(words, i) == k,
    decreases k - i,
{
    if i < k {
        assert(words[i] != 0);
        lemma_null(words, k, i + 1);
    }
}

/// The arguments are the strings that are given, in order; without any the first is the
/// path.
pub proof fn law_arguments_are_read(path: Seq<u8>, argv: Seq<Seq<u8>>, i: int)
    ensures
        argv.len() == 0 ==> args_value(path, argv) == seq![path],
        argv.len() > 0 ==> args_value(path, argv).len() == argv.len(),
        0 <= i < argv.len() ==> args_value(path, argv)[i] == cstr_value(argv[i]),
        strings_of(argv).len() == argv.len(),
        0 <= i < argv.len() ==> strings_of(argv)[i] == cstr_value(argv[i]),
{
}

/// A call is refused without a path, and with one that does not end within 256 KiB.
pub proof fn law_refused_calls(m: ExecMemory, l: ExecLimits)
    ensures
        m.path_ptr == 0 ==> read_error(m, l) == Some(EFAULT),
        m.path_ptr != 0 && m.path@.len() >= 262144 && (forall|i: int|
            0 <= i < 262144 ==> #[trigger] m.path@[i] != 0) ==> read_error(m, l) == Some(
            ENAMETOOLONG,
        ),
{
    if m.path@.len() >= 262144 && (forall|i: int| 0 <= i < 262144 ==> #[trigger] m.path@[i] != 0) {
        lemma_index_or_end(m.path@, 0, 0);
        let e = index_or_end(m.path@, 0, 0);
        if e < 262144 {
            assert(m.path@[e] != 0);
        }
    }
}

/// The last part of a path is what follows its last slash.
pub proof fn law_last_parts(dir: Seq<u8>, name: Seq<u8>)
    requires
        forall|i: int| 0 <= i < name.len() ==> #[trigger] name[i] != 0x2f,
    ensures
        basename(dir + seq![0x2fu8] + name) == name,
        basename(name) == name,
{
    let p = dir + seq![0x2fu8] + name;
    let a = after_slash(p, p.len() as int);
    law_basename(p, p.len() as int);
    assert(p[dir.len() as int] == 0x2f);
    if a <= dir.len() {
        assert(p[dir.len() as int] != 0x2f);
    } else if a > dir.len() + 1 {
        assert(p[a - 1] == name[a - 1 - dir.len() - 1]);
    }
    assert(p.skip(a) =~= name);
    law_basename(name, name.len() as int);
    let b = after_slash(name, name.len() as int);
    if b > 0 {
        assert(name[b - 1] == 0x2f);
    }
    assert(name.skip(0) =~= name);
}

/// The header of a 64-bit ELF file gives the place, the size and the number of its
/// program headers; so does that of a 32-bit file, elsewhere.
pub proof fn law_program_headers(d: Seq<u8>)
    requires
        d.len() >= 64,
        d[0] == 0x7f,
        d[1] == 0x45,
        d[2] == 0x4c,
        d[3] == 0x46,
    ensures
        d[4] == 2 ==> (ph_table(d) matches Some(t) && t.wide && t.entry_size == d[54] + 256 * d[55]
            && t.count == d[56] + 256 * d[57] && t.offset == d[32] + 0x100 * d[33] + 0x1_0000
            * d[34] + 0x100_0000 * d[35] + 0x1_0000_0000 * d[36] + 0x100_0000_0000 * d[37]
            + 0x1_0000_0000_0000 * d[38] + 0x100_0000_0000_0000 * d[39]),
        d[4] == 1 ==> (ph_table(d) matches Some(t) && !t.wide && t.entry_size == d[42] + 256 * d[43]
            && t.count == d[44] + 256 * d[45] && t.offset == d[28] + 0x100 * d[29] + 0x1_0000
            * d[30] + 0x100_0000 * d[31]),
        d[4] != 1 && d[4] != 2 ==> ph_table(d) is None,
{
}

/// The linker of a program is the name in its first segment of type 3, up to a zero.
pub proof fn law_linker_segments(d: Seq<u8>, t: PhTable, off: int, size: int, name: Seq<u8>)
    requires
        t.count > 0,
        ph_readable(d, t, 0),
        le32(d, t.offset as int) == 3,
        ph_extent(d, t, 0) == (off, size),
        0 <= off,
        name.len() < size,
        off + size <= d.len(),
        d.subrange(off, off + name.len()) == name,
        d[off + name.len()] == 0,
        is_word(name),
    ensures
        interp_from(d, t, 0) == Some(name),
{
    let raw = d.subrange(off, off + size);
    lemma_index_or_end(raw, 0, 0);
    let e = index_or_end(raw, 0, 0);
    assert(raw[name.len() as int] == 0);
    assert forall|i: int| 0 <= i < name.len() implies #[trigger] raw[i] == name[i] by {
        assert(d.subrange(off, off + name.len())[i] == d[off + i]);
    }
    if e < name.len() {
        assert(name[e] >= 0x21);
    }
    assert(raw.take(e) =~= name);
    assert forall|i: int| 0 <= i < name.len() implies #[trigger] name[i] <= 0x7f by {}
    lemma_ascii_is_text(name);
    assert(ph_start(t, 0) == t.offset);
}

/// Segments of other types that are known are passed over.
pub proof fn law_other_segments(d: Seq<u8>, t: PhTable, i: int)
    requires
        0 <= i < t.count,
        ph_readable(d, t, i),
        le32(d, ph_start(t, i)) != 3,
        le32(d, ph_start(t, i)) <= 7,
    ensures
        interp_from(d, t, i) == interp_from(d, t, i + 1),
{
}

} // verus!
