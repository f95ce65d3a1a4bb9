//! Starting programs.

use linux_syscalls::errno::{E2BIG, EACCES, EFAULT, ENAMETOOLONG, ENOENT, ENOEXEC, ETXTBSY};
use linux_syscalls::process::elf::{elf_interp_path, is_elf};
use linux_syscalls::process::exec::{
    exec_path, execve_with_inode, read_exec_call, syscall_execve, syscall_execveat, ExecCall,
    ExecMemory, ExecPlan,
};
use linux_syscalls::process::exec_args::{
    exec_arg_string_stack_len, exec_stack_fixed_reserve, exec_string_limit_for_counts,
    read_exec_args_envs, rlimit_stack_quarter, validate_exec_stack_args, ExecLimits, StackAbi,
};
use linux_syscalls::process::exec_files::{
    check_interp_abi, exec_path_candidates, find_busybox_shell, find_shell_interpreter,
    load_file_from_path, load_file_readonly, load_interp_candidate, load_interp_data,
    resolve_exec_inode_with_fallback, FileEntry, FileImage, FileTable,
};
use linux_syscalls::process::shebang::{
    busybox_shell_applet, find_applet, is_env_shell, is_system_shell_path, parse_shebang,
    path_basename, script_wants_shell, shebang_shell_extra_arg,
};
use linux_syscalls::process::user_strings::{
    read_user_ptr_array, try_read_user_cstr, try_read_user_cstr_limited, try_read_user_exec_cstr,
    EXEC_MAX_ARG_STRLEN,
};

fn b(s: &str) -> Vec<u8> {
    s.as_bytes().to_vec()
}

fn list(items: &[&str]) -> Vec<Vec<u8>> {
    items.iter().map(|s| b(s)).collect()
}

const LIMITS: ExecLimits =
    ExecLimits { abi: StackAbi::RiscV, user_stack_size: 8 << 20, rlimit_stack: 8 << 20 };

/// A 64-bit ELF file with one program header per given type; the linker's name
/// follows the headers.
fn elf64(types: &[u32], name: &str) -> Vec<u8> {
    let mut v = vec![0u8; 64];
    v[0..4].copy_from_slice(&[0x7f, 0x45, 0x4c, 0x46]);
    v[4] = 2;
    v[5] = 1;
    v[6] = 1;
    v[16..18].copy_from_slice(&2u16.to_le_bytes());
    v[32..40].copy_from_slice(&64u64.to_le_bytes());
    v[54..56].copy_from_slice(&56u16.to_le_bytes());
    v[56..58].copy_from_slice(&(types.len() as u16).to_le_bytes());
    let end = 64 + 56 * types.len();
    for t in types {
        let mut ph = vec![0u8; 56];
        ph[0..4].copy_from_slice(&t.to_le_bytes());
        ph[8..16].copy_from_slice(&(end as u64).to_le_bytes());
        ph[32..40].copy_from_slice(&(name.len() as u64 + 1).to_le_bytes());
        v.extend_from_slice(&ph);
    }
    v.extend_from_slice(name.as_bytes());
    v.push(0);
    v
}

fn program(interp: Option<&str>, abi: u32) -> FileImage {
    FileImage {
        data: elf64(&[1], ""),
        abi: Ok(abi),
        probe_error: None,
        is_program: true,
        program_interp: interp.map(b),
        reserve_error: None,
    }
}

fn text_file(text: &str) -> FileImage {
    FileImage {
        data: b(text),
        abi: Err(ENOEXEC),
        probe_error: None,
        is_program: false,
        program_interp: None,
        reserve_error: None,
    }
}

fn at(path: &str, file: usize) -> FileEntry {
    FileEntry { path: b(path), resolve: Ok(file), load: Ok(file), read: Ok(file) }
}

fn call(path: &str, args: &[&str]) -> ExecCall {
    ExecCall { path: b(path), args: list(args), envs: list(&["A=1"]), limits: LIMITS }
}

fn run(plan: ExecPlan) -> (usize, Option<usize>, Vec<Vec<u8>>, Vec<Vec<u8>>) {
    match plan {
        ExecPlan::Run { file, linker, args, envs } => (file, linker, args, envs),
        ExecPlan::Fail(_) => panic!(),
    }
}

fn fail(plan: ExecPlan) -> isize {
    match plan {
        ExecPlan::Fail(e) => e,
        ExecPlan::Run { .. } => 0,
    }
}

#[test]
fn user_strings_end_at_the_terminator() {
    assert_eq!(try_read_user_cstr(b"abc\0def"), Ok(b("abc")));
    assert_eq!(try_read_user_cstr(b"abc"), Err(EFAULT));
    assert_eq!(try_read_user_cstr_limited(b"abcd\0", 4, ENAMETOOLONG), Err(ENAMETOOLONG));
    assert_eq!(try_read_user_cstr(&[0xe9, 0]), Ok(vec![0xc3, 0xa9]));
    let long = vec![b'x'; EXEC_MAX_ARG_STRLEN];
    assert_eq!(try_read_user_exec_cstr(&long), Err(E2BIG));
}

#[test]
fn pointer_arrays_end_at_null() {
    assert_eq!(read_user_ptr_array(8, &[5, 6, 0, 7], 10), Ok(vec![5, 6]));
    assert_eq!(read_user_ptr_array(0, &[], 10), Ok(vec![]));
    assert_eq!(read_user_ptr_array(8, &[5, 6], 10), Err(EFAULT));
    assert_eq!(read_user_ptr_array(8, &[5, 6, 0], 1), Err(E2BIG));
}

#[test]
fn strings_take_room() {
    assert_eq!(exec_arg_string_stack_len(7, StackAbi::RiscV), Ok(8));
    assert_eq!(exec_arg_string_stack_len(8, StackAbi::LoongArch), Ok(16));
    assert_eq!(exec_arg_string_stack_len(131_071, StackAbi::RiscV), Ok(131_072));
    assert_eq!(exec_arg_string_stack_len(131_072, StackAbi::RiscV), Err(E2BIG));
    assert_eq!(exec_stack_fixed_reserve(0, StackAbi::RiscV), Some(131_465));
    assert_eq!(exec_stack_fixed_reserve(4, StackAbi::RiscV), Some(131_470));
    assert_eq!(exec_stack_fixed_reserve(4, StackAbi::LoongArch), Some(131_472));
    assert_eq!(rlimit_stack_quarter(u64::MAX), usize::MAX);
    assert_eq!(rlimit_stack_quarter(4096), 1024);
}

#[test]
fn arguments_have_a_budget() {
    assert_eq!(exec_string_limit_for_counts(2, 1, 0, &LIMITS), Ok(131_072 - 24));
    let unlimited = ExecLimits { rlimit_stack: u64::MAX, ..LIMITS };
    assert_eq!(exec_string_limit_for_counts(2, 1, 0, &unlimited), Ok(131_072 - 24));
    let small = ExecLimits { rlimit_stack: 4096, ..LIMITS };
    assert_eq!(exec_string_limit_for_counts(0, 0, 0, &small), Ok(1024 - 8));
    assert_eq!(exec_string_limit_for_counts(20_000, 0, 0, &small), Err(E2BIG));
    assert_eq!(validate_exec_stack_args(&list(&["a", "b"]), &list(&[]), &LIMITS), Ok(()));
    let many: Vec<Vec<u8>> = (0..20).map(|_| vec![b'x'; 120_000]).collect();
    assert_eq!(validate_exec_stack_args(&many, &list(&[]), &LIMITS), Err(E2BIG));
}

#[test]
fn argument_lists_are_read() {
    let (args, envs) =
        read_exec_args_envs(&b("/bin/x"), &list(&["a\0", "b\0"]), &list(&["E=1\0"]), &LIMITS)
            .unwrap();
    assert_eq!(args, list(&["a", "b"]));
    assert_eq!(envs, list(&["E=1"]));
    let (args, _) = read_exec_args_envs(&b("/bin/x"), &list(&[]), &list(&[]), &LIMITS).unwrap();
    assert_eq!(args, list(&["/bin/x"]));
    assert_eq!(
        read_exec_args_envs(&b("x"), &list(&["a"]), &list(&[]), &LIMITS).err(),
        Some(EFAULT)
    );
}

#[test]
fn linkers_are_read_from_elf_files() {
    let data = elf64(&[6, 3], "/lib/ld.so");
    assert!(is_elf(&data));
    assert_eq!(elf_interp_path(&data), Some(b("/lib/ld.so")));
    assert_eq!(elf_interp_path(&elf64(&[1, 2], "/lib/ld.so")), None);
    assert_eq!(elf_interp_path(&data[..120]), None);
    assert_eq!(elf_interp_path(b"#!/bin/sh\n"), None);
    assert!(!is_elf(b"\x7fEL"));
}

#[test]
fn elf_files_are_read_at_any_address() {
    let data = elf64(&[6, 0x6474_e551, 3, 1], "/lib/ld-musl-riscv64.so.1");
    for skip in 0..8 {
        let mut room = vec![0xffu8; skip];
        room.extend_from_slice(&data);
        assert_eq!(elf_interp_path(&room[skip..]), Some(b("/lib/ld-musl-riscv64.so.1")));
    }
}

#[test]
fn malformed_elf_files_name_no_linker() {
    let data = elf64(&[6, 3], "/lib/ld.so");
    let mut odd = data.clone();
    odd[32] += 4;
    assert_eq!(elf_interp_path(&odd), None);
    let mut far = data.clone();
    far[39] = 0xff;
    assert_eq!(elf_interp_path(&far), None);
    let mut nowhere = data.clone();
    nowhere[32..40].copy_from_slice(&[0; 8]);
    assert_eq!(elf_interp_path(&nowhere), None);
    let mut class = data.clone();
    class[4] = 3;
    assert_eq!(elf_interp_path(&class), None);
    assert_eq!(elf_interp_path(&elf64(&[0x5000_0000, 3], "/lib/ld.so")), None);
    assert_eq!(elf_interp_path(&data[..20]), None);
}

#[test]
fn narrow_elf_files_are_read_too() {
    let mut data = vec![0u8; 52 + 32];
    data[..5].copy_from_slice(&[0x7f, b'E', b'L', b'F', 1]);
    data[28] = 52;
    data[42] = 32;
    data[44] = 1;
    data[52] = 3;
    data[56] = 84;
    data[68] = 8;
    data.extend_from_slice(b"/ld.so\0x");
    assert_eq!(elf_interp_path(&data), Some(b("/ld.so")));
    data[68] = 9;
    assert_eq!(elf_interp_path(&data), None);
}

#[test]
fn script_lines_are_split() {
    let s = parse_shebang(b"#! /bin/sh -e more\nrest").unwrap();
    assert_eq!(s.interp, b("/bin/sh"));
    assert_eq!(s.arg, Some(b("-e")));
    let s = parse_shebang(b"#!/bin/sh\r\n").unwrap();
    assert_eq!((s.interp, s.arg), (b("/bin/sh"), None));
    assert!(parse_shebang(b"#!   \n").is_none());
    assert!(parse_shebang(b"#").is_none());
    assert!(parse_shebang(&[0x23, 0x21, 0xff, 0x0a]).is_none());
}

#[test]
fn shells_are_recognised() {
    assert_eq!(path_basename(b"/usr/bin/env"), b("env"));
    assert_eq!(path_basename(b"sh"), b("sh"));
    assert!(is_system_shell_path(b"/bin/sh"));
    assert!(!is_system_shell_path(b"/opt/zsh"));
    assert!(script_wants_shell(b"dash", &None));
    assert!(script_wants_shell(b"env", &Some(b("sh"))));
    assert!(!script_wants_shell(b"bash", &None));
    assert!(is_env_shell(b"env", &Some(b("dash"))));
    assert_eq!(busybox_shell_applet(), b("sh"));
    assert_eq!(shebang_shell_extra_arg(b"sh", &Some(b("-x"))), Some(b("-x")));
    assert_eq!(shebang_shell_extra_arg(b"env", &Some(b("sh"))), None);
    let allowed = list(&["ls"]);
    assert_eq!(find_applet(&b("/bin/ls"), &allowed), Some(b("ls")));
    assert_eq!(find_applet(&b("/bin/vi"), &allowed), None);
}

#[test]
fn programs_have_fallback_names() {
    assert_eq!(exec_path_candidates(b"/x"), list(&["/x", "/x.bin"]));
    assert_eq!(exec_path_candidates(b"/x.bin"), list(&["/x.bin"]));
    assert_eq!(exec_path_candidates(b"busybox").len(), 6);
    let files = FileTable { entries: vec![at("/x.bin", 0)], images: vec![program(None, 1)] };
    assert_eq!(load_file_from_path(&files, b"/x"), Ok(0));
    assert_eq!(resolve_exec_inode_with_fallback(&files, b"/x"), Ok(0));
    assert_eq!(load_file_readonly(&files, b"/x"), Err(ENOENT));
    assert_eq!(load_file_from_path(&files, b"/y"), Err(ENOENT));
}

#[test]
fn elf_programs_keep_their_arguments() {
    let files = FileTable {
        entries: vec![at("/app", 0), at("/lib/ld-musl-riscv64.so.1", 1)],
        images: vec![program(Some("/lib/ld-musl-riscv64.so.1"), 1), program(None, 1)],
    };
    let (file, linker, args, envs) = run(exec_path(&files, &call("/app", &["/app", "x"]), &vec![]));
    assert_eq!((file, linker), (0, Some(1)));
    assert_eq!(args, list(&["/app", "x"]));
    assert_eq!(envs, list(&["A=1"]));
}

#[test]
fn linkers_have_to_suit() {
    assert_eq!(check_interp_abi(&Ok(1), Some(1)), Ok(()));
    assert_eq!(check_interp_abi(&Ok(2), Some(1)), Err(ENOEXEC));
    assert_eq!(check_interp_abi(&Err(EACCES), Some(1)), Err(EACCES));
    assert_eq!(check_interp_abi(&Ok(2), None), Ok(()));
    let files = FileTable {
        entries: vec![at("/lib/libc.so", 0), at("/musl/lib/libc.so", 1)],
        images: vec![program(None, 2), program(None, 1)],
    };
    assert_eq!(load_interp_data(&files, b"/lib/ld-musl-riscv64.so.1", Some(1)), Ok(1));
    assert_eq!(load_interp_data(&files, b"/lib/ld-musl-riscv64.so.1", Some(3)), Err(ENOEXEC));
    assert_eq!(load_interp_data(&files, b"/lib/ld-linux-riscv64.so.1", Some(1)), Err(ENOENT));
    let guarded = FileTable {
        entries: vec![FileEntry {
            path: b("/l"),
            resolve: Err(EACCES),
            load: Err(EACCES),
            read: Ok(0),
        }],
        images: vec![program(None, 1)],
    };
    assert_eq!(load_interp_candidate(&guarded, b"/l"), Ok(Some(0)));
    assert_eq!(load_interp_candidate(&guarded, b"/m"), Ok(None));
}

#[test]
fn scripts_run_their_interpreter() {
    let files = FileTable {
        entries: vec![at("/s", 0), at("/bin/python", 1)],
        images: vec![text_file("#!/bin/python -u\nprint"), program(None, 1)],
    };
    let (file, linker, args, _) = run(exec_path(&files, &call("/s", &["s", "q"]), &vec![]));
    assert_eq!((file, linker), (1, None));
    assert_eq!(args, list(&["/bin/python", "-u", "/s", "q"]));
}

#[test]
fn scripts_without_their_shell_run_busybox() {
    let files = FileTable {
        entries: vec![at("/s", 0), at("/bin/busybox", 1)],
        images: vec![text_file("#!/bin/sh -e\n"), program(None, 1)],
    };
    assert!(find_busybox_shell(&files).unwrap().unwrap().needs_sh_arg);
    assert_eq!(find_shell_interpreter(&files).unwrap().unwrap().path, b("./busybox"));
    let (file, _, args, _) = run(exec_path(&files, &call("/s", &["s", "q"]), &vec![]));
    assert_eq!(file, 1);
    assert_eq!(args, list(&["./busybox", "sh", "-e", "/s", "q"]));
    let (_, _, args, _) = run(exec_path(&files, &call("/bin/sh", &["sh", "-c"]), &vec![]));
    assert_eq!(args, list(&["./busybox", "sh", "-c"]));
    let allowed = list(&["ls"]);
    let (_, _, args, _) = run(exec_path(&files, &call("/bin/ls", &["ls", "-l"]), &allowed));
    assert_eq!(args, list(&["./busybox", "ls", "-l"]));
    let other_name = call("/bin/ls", &["cat", "-l"]);
    let (_, _, args, _) = run(exec_path(&files, &other_name, &list(&["ls", "cat"])));
    assert_eq!(args, list(&["./busybox", "ls", "-l"]));
}

#[test]
fn files_that_cannot_start() {
    let mut busy = program(None, 1);
    busy.reserve_error = Some(ETXTBSY);
    let mut odd = program(None, 1);
    odd.probe_error = Some(EACCES);
    let files = FileTable {
        entries: vec![at("/plain", 0), at("/busy", 1), at("/odd", 2), at("/x.sh", 0)],
        images: vec![text_file("hello"), busy, odd],
    };
    assert_eq!(fail(exec_path(&files, &call("/none", &["n"]), &vec![])), ENOENT);
    assert_eq!(fail(exec_path(&files, &call("/plain", &["n"]), &vec![])), ENOEXEC);
    assert_eq!(fail(exec_path(&files, &call("/busy", &["n"]), &vec![])), ETXTBSY);
    assert_eq!(fail(exec_path(&files, &call("/odd", &["n"]), &vec![])), EACCES);
    assert_eq!(fail(exec_path(&files, &call("/x.sh", &["n"]), &vec![])), ENOENT);
    let big = "x".repeat(131_072);
    assert_eq!(fail(execve_with_inode(&files, &call("/odd", &[&big]), 2)), E2BIG);
}

#[test]
fn the_calls_read_user_memory() {
    let m = ExecMemory {
        path_ptr: 8,
        path: b("/app\0"),
        argv_ptr: 16,
        argv_words: vec![100, 200, 0],
        argv: list(&["app\0", "x\0"]),
        envp_ptr: 0,
        envp_words: vec![],
        envp: vec![],
    };
    let c = read_exec_call(&m, &LIMITS).unwrap();
    assert_eq!((c.path, c.args), (b("/app"), list(&["app", "x"])));
    let files = FileTable { entries: vec![at("/app", 0)], images: vec![program(None, 1)] };
    let (file, _, args, envs) = run(syscall_execve(&files, &m, &LIMITS, &vec![]));
    assert_eq!((file, args, envs), (0, list(&["app", "x"]), vec![]));
    let (file, _, _, _) = run(syscall_execveat(&files, &m, &LIMITS, Ok(0)));
    assert_eq!(file, 0);
    assert_eq!(fail(syscall_execveat(&files, &m, &LIMITS, Err(EACCES))), EACCES);
    let null = ExecMemory { path_ptr: 0, path: vec![], ..m };
    assert_eq!(fail(syscall_execve(&files, &null, &LIMITS, &vec![])), EFAULT);
}
