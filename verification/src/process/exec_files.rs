//! Looking programs up: fallback names, shells and dynamic linkers.
//!
//! What the file system answers for a path is handed in as a table. A path that
//! the table does not list does not exist.

use vstd::prelude::*;
use vstd::string::StringSliceAdditionalSpecFns;
use crate::errno::{EACCES, ENOENT, ENOEXEC};
use crate::process::exec_args::views;
use crate::text::{
    append_bytes, bytes_eq, contains_text, ends_with, has_prefix, has_suffix, has_text, starts_with,
    to_vec, txt,
};

verus! {

/// A file that can be started or loaded.
pub struct FileImage {
    pub data: Vec<u8>,
    /// The architecture and ABI of an ELF file, or why there is none.
    pub abi: Result<u32, isize>,
    /// Why the file cannot be taken as a program, other than that it is no ELF
    /// file.
    pub probe_error: Option<isize>,
    /// The file was recognised as an ELF program.
    pub is_program: bool,
    /// The dynamic linker that the program asks for.
    pub program_interp: Option<Vec<u8>>,
    /// Why the file cannot be reserved for execution.
    pub reserve_error: Option<isize>,
}

/// What the file system answers for one path: a file, by its number, or an
/// error.
pub struct FileEntry {
    pub path: Vec<u8>,
    /// To a search for a program.
    pub resolve: Result<usize, isize>,
    /// To loading a program.
    pub load: Result<usize, isize>,
    /// To loading a file without execute permission.
    pub read: Result<usize, isize>,
}

/// What the file system answers.
pub struct FileTable {
    pub entries: Vec<FileEntry>,
    pub images: Vec<FileImage>,
}

pub open spec fn file_ok(r: Result<usize, isize>, images: int) -> bool {
    r matches Ok(i) ==> i < images
}

impl FileTable {
    /// Every answer names an image that is there, and every program has an ABI.
    pub open spec fn wf(&self) -> bool {
        &&& forall|i: int|
            0 <= i < self.entries@.len() ==> file_ok(
                (#[trigger] self.entries@[i]).resolve,
                self.images@.len() as int,
            ) && file_ok(self.entries@[i].load, self.images@.len() as int) && file_ok(
                self.entries@[i].read,
                self.images@.len() as int,
            )
        &&& forall|i: int|
            0 <= i < self.images@.len() ==> ((#[trigger] self.images@[i]).is_program
                ==> self.images@[i].abi is Ok)
    }
}

/// The three ways to ask for a file.
#[derive(Clone, Copy, PartialEq, Eq, Structural)]
pub enum Access {
    Resolve,
    Load,
    Read,
}

pub open spec fn entry_answer(e: FileEntry, how: Access) -> Result<usize, isize> {
    match how {
        Access::Resolve => e.resolve,
        Access::Load => e.load,
        Access::Read => e.read,
    }
}

/// The answer of the first entry for `path`, from entry `i` on.
pub open spec fn answer_from(
    entries: Seq<FileEntry>,
    path: Seq<u8>,
    how: Access,
    i: int,
) -> Result<usize, isize>
    decreases entries.len() - i,
{
    if i >= entries.len() {
        Err(ENOENT)
    } else if entries[i].path@ == path {
        entry_answer(entries[i], how)
    } else {
        answer_from(entries, path, how, i + 1)
    }
}

/// What the file system answers for `path`.
pub open spec fn answer(files: FileTable, path: Seq<u8>, how: Access) -> Result<usize, isize> {
    answer_from(files.entries@, path, how, 0)
}

fn copy_answer(r: &Result<usize, isize>) -> (c: Result<usize, isize>)
    ensures
        c == *r,
{
    match r {
        Ok(i) => Ok(*i),
        Err(e) => Err(*e),
    }
}

fn ask(files: &FileTable, path: &[u8], how: Access) -> (r: Result<usize, isize>)
    requires
        files.wf(),
    ensures
        r == answer(*files, path@, how),
        file_ok(r, files.images@.len() as int),
{
    let mut i: usize = 0;
    while i < files.entries.len()
        invariant
            files.wf(),
            i <= files.entries.len(),
            answer(*files, path@, how) == answer_from(files.entries@, path@, how, i as int),
        decreases files.entries.len() - i,
    {
        let e = &files.entries[i];
        if bytes_eq(e.path.as_slice(), path) {
            assert(file_ok(files.entries@[i as int].resolve, files.images@.len() as int));
            return match how {
                Access::Resolve => copy_answer(&e.resolve),
                Access::Load => copy_answer(&e.load),
                Access::Read => copy_answer(&e.read),
            };
        }
        i += 1;
    }
    Err(ENOENT)
}

// ---------------------------------------------------------------------------
// Fallback names.
// ---------------------------------------------------------------------------

/// The names under which a program is looked for, in order.
pub open spec fn path_candidates(path: Seq<u8>) -> Seq<Seq<u8>> {
    let own = seq![path];
    let with_busybox = if path == txt("busybox") || path == txt("./busybox") {
        own.push(txt("/musl/busybox")).push(txt("/glibc/busybox")).push(txt("/bin/busybox")).push(
            txt("/busybox"),
        )
    } else {
        own
    };
    if ends_with(path, txt(".bin")) {
        with_busybox
    } else {
        with_busybox.push(path + txt(".bin"))
    }
}

/// The answer for the first of the names, from `i` on, that exists: the file,
/// or the error that is not about its absence.
pub open spec fn first_answer(
    files: FileTable,
    names: Seq<Seq<u8>>,
    how: Access,
    i: int,
) -> Result<usize, isize>
    decreases names.len() - i,
{
    if i >= names.len() {
        Err(ENOENT)
    } else {
        match answer(files, names[i], how) {
            Err(e) if e == ENOENT => first_answer(files, names, how, i + 1),
            r => r,
        }
    }
}

/// The file that is loaded for a path.
pub open spec fn loaded(files: FileTable, path: Seq<u8>) -> Result<usize, isize> {
    first_answer(files, path_candidates(path), Access::Load, 0)
}

/// The file that a path resolves to.
pub open spec fn resolved(files: FileTable, path: Seq<u8>) -> Result<usize, isize> {
    first_answer(files, path_candidates(path), Access::Resolve, 0)
}

fn push_text(list: &mut Vec<Vec<u8>>, s: &str)
    ensures
        views(final(list)@) == views(old(list)@).push(txt(s)),
{
    let v = to_vec(s.as_bytes());
    list.push(v);
    assert(views(list@) =~= views(old(list)@).push(txt(s)));
}

/// Lists the names under which a program is looked for.
pub fn exec_path_candidates(path: &[u8]) -> (r: Vec<Vec<u8>>)
    ensures
        views(r@) == path_candidates(path@),
{
    let mut names: Vec<Vec<u8>> = Vec::new();
    names.push(to_vec(path));
    assert(views(names@) =~= seq![path@]);
    if bytes_eq(path, "busybox".as_bytes()) || bytes_eq(path, "./busybox".as_bytes()) {
        push_text(&mut names, "/musl/busybox");
        push_text(&mut names, "/glibc/busybox");
        push_text(&mut names, "/bin/busybox");
        push_text(&mut names, "/busybox");
    }
    if !has_suffix(path, ".bin".as_bytes()) {
        let ghost before = views(names@);
        let mut with_bin = to_vec(path);
        append_bytes(&mut with_bin, ".bin".as_bytes());
        names.push(with_bin);
        assert(views(names@) =~= before.push(path@ + txt(".bin")));
    }
    names
}

fn find_first(files: &FileTable, path: &[u8], how: Access) -> (r: Result<usize, isize>)
    requires
        files.wf(),
    ensures
        r == first_answer(*files, path_candidates(path@), how, 0),
        file_ok(r, files.images@.len() as int),
{
    let names = exec_path_candidates(path);
    let ghost n = views(names@);
    let mut i: usize = 0;
    while i < names.len()
        invariant
            files.wf(),
            n == views(names@),
            n == path_candidates(path@),
            i <= names.len(),
            first_answer(*files, n, how, 0) == first_answer(*files, n, how, i as int),
        decreases names.len() - i,
    {
        assert(n[i as int] == names@[i as int]@);
        match ask(files, names[i].as_slice(), how) {
            Ok(f) => {
                return Ok(f);
            },
            Err(e) => {
                if e != ENOENT {
                    return Err(e);
                }
            },
        }
        i += 1;
    }
    Err(ENOENT)
}

/// Loads a program, under its own or a fallback name.
pub fn load_file_from_path(files: &FileTable, path: &[u8]) -> (r: Result<usize, isize>)
    requires
        files.wf(),
    ensures
        r == loaded(*files, path@),
        file_ok(r, files.images@.len() as int),
{
    find_first(files, path, Access::Load)
}

/// Finds a program, under its own or a fallback name.
pub fn resolve_exec_inode_with_fallback(files: &FileTable, path: &[u8]) -> (r: Result<usize, isize>)
    requires
        files.wf(),
    ensures
        r == resolved(*files, path@),
        file_ok(r, files.images@.len() as int),
{
    find_first(files, path, Access::Resolve)
}

/// Loads a file that need not be executable.
pub fn load_file_readonly(files: &FileTable, path: &[u8]) -> (r: Result<usize, isize>)
    requires
        files.wf(),
    ensures
        r == answer(*files, path@, Access::Read),
        file_ok(r, files.images@.len() as int),
{
    ask(files, path, Access::Read)
}

// ---------------------------------------------------------------------------
// Shells.
// ---------------------------------------------------------------------------

/// Where busybox may be, in order.
pub open spec fn busybox_places() -> Seq<Seq<u8>> {
    seq![
        txt("./busybox"),
        txt("busybox"),
        txt("/musl/busybox"),
        txt("/glibc/busybox"),
        txt("/riscv/musl/busybox"),
        txt("/riscv/glibc/busybox"),
        txt("/extra/riscv/musl/busybox"),
        txt("/extra/riscv/glibc/busybox"),
        txt("/bin/busybox"),
        txt("/busybox"),
    ]
}

/// Where a shell may be, in order: the first eight are busybox.
pub open spec fn shell_places() -> Seq<Seq<u8>> {
    seq![
        txt("./busybox"),
        txt("busybox"),
        txt("/musl/busybox"),
        txt("/glibc/busybox"),
        txt("/riscv/musl/busybox"),
        txt("/riscv/glibc/busybox"),
        txt("/bin/busybox"),
        txt("/busybox"),
        txt("/bin/sh"),
        txt("/sh"),
    ]
}

/// The first place, from `i` on, where something can be loaded. Anything but an
/// absent file ends the search.
pub open spec fn first_loaded(files: FileTable, places: Seq<Seq<u8>>, i: int) -> Result<
    Option<(int, usize)>,
    isize,
>
    decreases places.len() - i,
{
    if i >= places.len() {
        Ok(None)
    } else {
        match loaded(files, places[i]) {
            Ok(f) => Ok(Some((i, f))),
            Err(e) => if e == ENOENT {
                first_loaded(files, places, i + 1)
            } else {
                Err(e)
            },
        }
    }
}

fn search_places(files: &FileTable, places: &Vec<Vec<u8>>) -> (r: Result<
    Option<(usize, usize)>,
    isize,
>)
    requires
        files.wf(),
    ensures
        match r {
            Ok(Some((i, f))) => first_loaded(*files, views(places@), 0) == Ok::<
                Option<(int, usize)>,
                isize,
            >(Some((i as int, f))) && i < places.len() && f < files.images@.len(),
            Ok(None) => first_loaded(*files, views(places@), 0) == Ok::<
                Option<(int, usize)>,
                isize,
            >(None),
            Err(e) => first_loaded(*files, views(places@), 0) == Err::<
                Option<(int, usize)>,
                isize,
            >(e),
        },
{
    let ghost p = views(places@);
    let mut i: usize = 0;
    while i < places.len()
        invariant
            files.wf(),
            p == views(places@),
            i <= places.len(),
            first_loaded(*files, p, 0) == first_loaded(*files, p, i as int),
        decreases places.len() - i,
    {
        assert(p[i as int] == places@[i as int]@);
        match load_file_from_path(files, places[i].as_slice()) {
            Ok(f) => {
                return Ok(Some((i, f)));
            },
            Err(e) => {
                if e != ENOENT {
                    return Err(e);
                }
            },
        }
        i += 1;
    }
    Ok(None)
}

/// A shell that was found.
pub struct FoundShell {
    pub path: Vec<u8>,
    pub file: usize,
    /// It is busybox, and has to be told to be a shell.
    pub needs_sh_arg: bool,
}

/// Lists where busybox is looked for.
pub fn list_busybox_places() -> (r: Vec<Vec<u8>>)
    ensures
        views(r@) == busybox_places(),
{
    let mut places: Vec<Vec<u8>> = Vec::new();
    push_text(&mut places, "./busybox");
    push_text(&mut places, "busybox");
    push_text(&mut places, "/musl/busybox");
    push_text(&mut places, "/glibc/busybox");
    push_text(&mut places, "/riscv/musl/busybox");
    push_text(&mut places, "/riscv/glibc/busybox");
    push_text(&mut places, "/extra/riscv/musl/busybox");
    push_text(&mut places, "/extra/riscv/glibc/busybox");
    push_text(&mut places, "/bin/busybox");
    push_text(&mut places, "/busybox");
    assert(views(places@) =~= busybox_places());
    places
}

/// Looks for busybox.
pub fn find_busybox_shell(files: &FileTable) -> (r: Result<Option<FoundShell>, isize>)
    requires
        files.wf(),
    ensures
        match r {
            Ok(Some(s)) => first_loaded(*files, busybox_places(), 0) matches Ok(Some((i, f)))
                && s.file == f && s.path@ == busybox_places()[i] && s.needs_sh_arg && f
                < files.images@.len(),
            Ok(None) => first_loaded(*files, busybox_places(), 0) == Ok::<
                Option<(int, usize)>,
                isize,
            >(None),
            Err(e) => first_loaded(*files, busybox_places(), 0) == Err::<
                Option<(int, usize)>,
                isize,
            >(e),
        },
{
    let places = list_busybox_places();
    match search_places(files, &places) {
        Ok(Some((i, f))) => {
            assert(views(places@)[i as int] == places@[i as int]@);
            Ok(Some(FoundShell { path: to_vec(places[i].as_slice()), file: f, needs_sh_arg: true }))
        },
        Ok(None) => Ok(None),
        Err(e) => Err(e),
    }
}

/// Lists where a shell is looked for.
pub fn list_shell_places() -> (r: Vec<Vec<u8>>)
    ensures
        views(r@) == shell_places(),
{
    let mut places: Vec<Vec<u8>> = Vec::new();
    push_text(&mut places, "./busybox");
    push_text(&mut places, "busybox");
    push_text(&mut places, "/musl/busybox");
    push_text(&mut places, "/glibc/busybox");
    push_text(&mut places, "/riscv/musl/busybox");
    push_text(&mut places, "/riscv/glibc/busybox");
    push_text(&mut places, "/bin/busybox");
    push_text(&mut places, "/busybox");
    push_text(&mut places, "/bin/sh");
    push_text(&mut places, "/sh");
    assert(views(places@) =~= shell_places());
    places
}

/// Looks for a shell: busybox first, then a plain shell.
pub fn find_shell_interpreter(files: &FileTable) -> (r: Result<Option<FoundShell>, isize>)
    requires
        files.wf(),
    ensures
        match r {
            Ok(Some(s)) => first_loaded(*files, shell_places(), 0) matches Ok(Some((i, f)))
                && s.file == f && s.path@ == shell_places()[i] && s.needs_sh_arg == (i < 8) && f
                < files.images@.len(),
            Ok(None) => first_loaded(*files, shell_places(), 0) == Ok::<
                Option<(int, usize)>,
                isize,
            >(None),
            Err(e) => first_loaded(*files, shell_places(), 0) == Err::<
                Option<(int, usize)>,
                isize,
            >(e),
        },
{
    let places = list_shell_places();
    match search_places(files, &places) {
        Ok(Some((i, f))) => {
            assert(views(places@)[i as int] == places@[i as int]@);
            Ok(
                Some(
                    FoundShell {
                        path: to_vec(places[i].as_slice()),
                        file: f,
                        needs_sh_arg: i < 8,
                    },
                ),
            )
        },
        Ok(None) => Ok(None),
        Err(e) => Err(e),
    }
}

// ---------------------------------------------------------------------------
// Dynamic linkers.
// ---------------------------------------------------------------------------

/// Why a linker does not suit a program: its ABI is unknown, or another one.
/// A program of unknown ABI takes any linker.
pub open spec fn abi_error(abi: Result<u32, isize>, expected: Option<u32>) -> Option<isize> {
    match expected {
        None => None,
        Some(main) => match abi {
            Err(e) => Some(e),
            Ok(a) => if a == main {
                None
            } else {
                Some(ENOEXEC)
            },
        },
    }
}

/// Holds the ABI of a linker against that of the program.
pub fn check_interp_abi(abi: &Result<u32, isize>, expected: Option<u32>) -> (r: Result<(), isize>)
    ensures
        match r {
            Ok(_) => abi_error(*abi, expected) is None,
            Err(e) => abi_error(*abi, expected) == Some(e),
        },
{
    match expected {
        None => Ok(()),
        Some(main) => match abi {
            Err(e) => Err(*e),
            Ok(a) => if *a == main {
                Ok(())
            } else {
                Err(ENOEXEC)
            },
        },
    }
}

/// Where a linker of this name may be instead, in order.
pub open spec fn linker_places(interp: Seq<u8>) -> Seq<Seq<u8>> {
    if starts_with(interp, txt("/lib/ld-musl")) {
        seq![txt("/lib/libc.so"), txt("/musl/lib/libc.so"), txt("/riscv/musl/lib/libc.so")]
    } else if starts_with(interp, txt("/lib/ld-linux")) || starts_with(
        interp,
        txt("/lib64/ld-linux"),
    ) {
        if contains_text(interp, txt("loongarch")) {
            seq![
                txt("/glibc/lib/ld-linux-loongarch-lp64d.so.1"),
                txt("/lib64/ld-linux-loongarch-lp64d.so.1"),
                txt("/glibc/lib/libc.so.6"),
                txt("/glibc/lib/libc.so"),
            ]
        } else {
            seq![
                txt("/glibc/lib/ld-linux-riscv64-lp64d.so.1"),
                txt("/glibc/lib/ld-linux-riscv64-lp64.so.1"),
                txt("/glibc/lib/libc.so.6"),
                txt("/glibc/lib/libc.so"),
            ]
        }
    } else {
        seq![
            txt("/musl/lib/libc.so"),
            txt("/glibc/lib/ld-linux-loongarch-lp64d.so.1"),
            txt("/glibc/lib/ld-linux-riscv64-lp64d.so.1"),
            txt("/glibc/lib/libc.so.6"),
        ]
    }
}

/// One place of a linker: a file, nothing, or an error. A file that may not be
/// executed is read instead.
pub open spec fn linker_at(files: FileTable, path: Seq<u8>) -> Result<Option<usize>, isize> {
    match loaded(files, path) {
        Ok(f) => Ok(Some(f)),
        Err(e) => if e == EACCES {
            match answer(files, path, Access::Read) {
                Ok(f) => Ok(Some(f)),
                Err(_) => Err(e),
            }
        } else if e == ENOENT {
            Ok(None)
        } else {
            Err(e)
        },
    }
}

/// The first place, from `i` on, that holds a linker of the right ABI. `wrong`
/// says that one of another ABI was seen.
pub open spec fn linker_search(
    files: FileTable,
    places: Seq<Seq<u8>>,
    expected: Option<u32>,
    i: int,
    wrong: bool,
) -> Result<usize, isize>
    decreases places.len() - i,
{
    if i >= places.len() {
        if wrong {
            Err(ENOEXEC)
        } else {
            Err(ENOENT)
        }
    } else {
        match linker_at(files, places[i]) {
            Err(e) => Err(e),
            Ok(None) => linker_search(files, places, expected, i + 1, wrong),
            Ok(Some(f)) => match abi_error(files.images@[f as int].abi, expected) {
                None => Ok(f),
                Some(e) => if e == ENOEXEC {
                    linker_search(files, places, expected, i + 1, true)
                } else {
                    Err(e)
                },
            },
        }
    }
}

/// What is found under the linker's own name: a file, an error, or `None` if the
/// other places have to be searched.
pub open spec fn own_linker(files: FileTable, interp: Seq<u8>) -> Option<Result<usize, isize>> {
    match loaded(files, interp) {
        Ok(f) => Some(Ok(f)),
        Err(e) => if e == EACCES {
            match answer(files, interp, Access::Read) {
                Ok(f) => Some(Ok(f)),
                Err(_) => None,
            }
        } else if e == ENOENT {
            None
        } else {
            Some(Err(e))
        },
    }
}

/// The linker for a program of ABI `expected` that asks for `interp`.
pub open spec fn linker_for(files: FileTable, interp: Seq<u8>, expected: Option<u32>) -> Result<
    usize,
    isize,
> {
    match own_linker(files, interp) {
        Some(Ok(f)) => match abi_error(files.images@[f as int].abi, expected) {
            Some(e) => Err(e),
            None => Ok(f),
        },
        Some(Err(e)) => Err(e),
        None => linker_search(files, linker_places(interp), expected, 0, false),
    }
}

/// A linker that is found suits the program.
pub proof fn law_linker_suits(
    files: FileTable,
    places: Seq<Seq<u8>>,
    expected: Option<u32>,
    i: int,
    wrong: bool,
)
    requires
        0 <= i <= places.len(),
    ensures
        linker_search(files, places, expected, i, wrong) matches Ok(f) ==> abi_error(
            files.images@[f as int].abi,
            expected,
        ) is None,
    decreases places.len() - i,
{
    if i < places.len() {
        law_linker_suits(files, places, expected, i + 1, wrong);
        law_linker_suits(files, places, expected, i + 1, true);
    }
}

/// Lists where a linker of this name may be instead.
pub fn list_linker_places(interp: &[u8]) -> (r: Vec<Vec<u8>>)
    ensures
        views(r@) == linker_places(interp@),
{
    let mut places: Vec<Vec<u8>> = Vec::new();
    if has_prefix(interp, "/lib/ld-musl".as_bytes()) {
        push_text(&mut places, "/lib/libc.so");
        push_text(&mut places, "/musl/lib/libc.so");
        push_text(&mut places, "/riscv/musl/lib/libc.so");
    } else if has_prefix(interp, "/lib/ld-linux".as_bytes()) || has_prefix(
        interp,
        "/lib64/ld-linux".as_bytes(),
    ) {
        if has_text(interp, "loongarch".as_bytes()) {
            push_text(&mut places, "/glibc/lib/ld-linux-loongarch-lp64d.so.1");
            push_text(&mut places, "/lib64/ld-linux-loongarch-lp64d.so.1");
        } else {
            push_text(&mut places, "/glibc/lib/ld-linux-riscv64-lp64d.so.1");
            push_text(&mut places, "/glibc/lib/ld-linux-riscv64-lp64.so.1");
        }
        push_text(&mut places, "/glibc/lib/libc.so.6");
        push_text(&mut places, "/glibc/lib/libc.so");
    } else {
        push_text(&mut places, "/musl/lib/libc.so");
        push_text(&mut places, "/glibc/lib/ld-linux-loongarch-lp64d.so.1");
        push_text(&mut places, "/glibc/lib/ld-linux-riscv64-lp64d.so.1");
        push_text(&mut places, "/glibc/lib/libc.so.6");
    }
    assert(views(places@) =~= linker_places(interp@));
    places
}

/// Tries one place of a linker.
pub fn load_interp_candidate(files: &FileTable, path: &[u8]) -> (r: Result<Option<usize>, isize>)
    requires
        files.wf(),
    ensures
        r == linker_at(*files, path@),
        r matches Ok(Some(f)) ==> f < files.images@.len(),
{
    match load_file_from_path(files, path) {
        Ok(f) => Ok(Some(f)),
        Err(e) => {
            if e == EACCES {
                match load_file_readonly(files, path) {
                    Ok(f) => Ok(Some(f)),
                    Err(_) => Err(e),
                }
            } else if e == ENOENT {
                Ok(None)
            } else {
                Err(e)
            }
        },
    }
}

/// Finds the linker for a program.
pub fn load_interp_data(files: &FileTable, interp: &[u8], expected: Option<u32>) -> (r: Result<
    usize,
    isize,
>)
    requires
        files.wf(),
    ensures
        r == linker_for(*files, interp@, expected),
        file_ok(r, files.images@.len() as int),
{
    match load_file_from_path(files, interp) {
        Ok(f) => {
            return match check_interp_abi(&files.images[f].abi, expected) {
                Ok(_) => Ok(f),
                Err(e) => Err(e),
            };
        },
        Err(e) => {
            if e == EACCES {
                if let Ok(f) = load_file_readonly(files, interp) {
                    return match check_interp_abi(&files.images[f].abi, expected) {
                        Ok(_) => Ok(f),
                        Err(e) => Err(e),
                    };
                }
            } else if e != ENOENT {
                return Err(e);
            }
        },
    }
    let places = list_linker_places(interp);
    let ghost p = views(places@);
    let mut wrong: bool = false;
    let mut i: usize = 0;
    while i < places.len()
        invariant
            files.wf(),
            p == views(places@),
            i <= places.len(),
            linker_search(*files, p, expected, 0, false) == linker_search(
                *files,
                p,
                expected,
                i as int,
                wrong,
            ),
            linker_for(*files, interp@, expected) == linker_search(*files, p, expected, 0, false),
        decreases places.len() - i,
    {
        assert(p[i as int] == places@[i as int]@);
        match load_interp_candidate(files, places[i].as_slice()) {
            Err(e) => {
                return Err(e);
            },
            Ok(None) => {},
            Ok(Some(f)) => {
                match check_interp_abi(&files.images[f].abi, expected) {
                    Ok(_) => {
                        return Ok(f);
                    },
                    Err(e) => {
                        if e != ENOEXEC {
                            return Err(e);
                        }
                        wrong = true;
                    },
                }
            },
        }
        i += 1;
    }
    if wrong {
        return Err(ENOEXEC);
    }
    Err(ENOENT)
}

} // verus!
