//! `execve` and `execveat`: from a path and arguments to the program that is
//! started, with the arguments that it gets.

use vstd::prelude::*;
use vstd::string::StringSliceAdditionalSpecFns;
use crate::errno::{E2BIG, EFAULT, ENAMETOOLONG, ENOENT, ENOEXEC};
use crate::process::elf::{elf_interp_path, has_elf_magic, interp_of, is_elf};
use crate::process::exec_args::{
    args_fit, args_value, lists_error, ptr_limit, read_exec_args_envs, strings_of,
    validate_exec_stack_args, views, ExecLimits,
};
use crate::process::exec_files::{
    busybox_places, find_busybox_shell, find_shell_interpreter, first_loaded, linker_for,
    load_file_from_path, load_interp_data, loaded, resolve_exec_inode_with_fallback, resolved,
    shell_places, FileTable, FoundShell,
};
use crate::process::shebang::{
    applet_of, arg_view, basename, busybox_shell_applet, env_shell, extra_arg, find_applet,
    is_env_shell, is_system_shell_path, parse_shebang, path_basename, script_wants_shell,
    shebang_of, shebang_shell_extra_arg, system_shell, wants_shell, Shebang,
};
use crate::process::user_strings::{
    array_error, array_value, cstr_error, cstr_value, read_user_ptr_array, try_read_user_cstr,
    MAX_USER_CSTR, WORD,
};
use crate::text::{copy_range, ends_with, has_suffix, to_vec, txt};

verus! {

/// How much of a script is read to find its `#!` line.
pub const SCRIPT_HEAD: usize = 256;

/// The program that is started.
pub enum ExecPlan {
    /// Nothing is started.
    Fail(isize),
    /// File `file` is started with these arguments and this environment,
    /// through file `linker` if there is one.
    Run { file: usize, linker: Option<usize>, args: Vec<Vec<u8>>, envs: Vec<Vec<u8>> },
}

/// The mathematical counterpart of [`ExecPlan`].
pub enum Plan {
    Fail(isize),
    Run { file: usize, linker: Option<usize>, args: Seq<Seq<u8>>, envs: Seq<Seq<u8>> },
}

impl ExecPlan {
    pub open spec fn view(&self) -> Plan {
        match self {
            ExecPlan::Fail(e) => Plan::Fail(*e),
            ExecPlan::Run { file, linker, args, envs } => Plan::Run {
                file: *file,
                linker: *linker,
                args: views(args@),
                envs: views(envs@),
            },
        }
    }
}

/// What is asked of an exec: the arguments, the environment and the limits.
pub struct ExecCall {
    pub path: Vec<u8>,
    pub args: Vec<Vec<u8>>,
    pub envs: Vec<Vec<u8>>,
    pub limits: ExecLimits,
}

/// The arguments without the first.
pub open spec fn rest(args: Seq<Seq<u8>>) -> Seq<Seq<u8>> {
    if args.len() == 0 {
        args
    } else {
        args.skip(1)
    }
}

/// A list with one more string, if there is one.
pub open spec fn with_arg(list: Seq<Seq<u8>>, arg: Option<Seq<u8>>) -> Seq<Seq<u8>> {
    match arg {
        Some(a) => list.push(a),
        None => list,
    }
}

// ---------------------------------------------------------------------------
// Starting an interpreter.
// ---------------------------------------------------------------------------

/// Starting file `file` with other arguments: they must fit, and the file may
/// ask for a dynamic linker.
pub open spec fn run_plan(
    files: FileTable,
    file: usize,
    args: Seq<Seq<u8>>,
    envs: Seq<Seq<u8>>,
    limits: ExecLimits,
) -> Plan {
    let image = files.images@[file as int];
    let abi = match image.abi {
        Ok(a) => Some(a),
        Err(_) => None,
    };
    if !args_fit(args, envs, limits) {
        Plan::Fail(E2BIG)
    } else {
        match interp_of(image.data@) {
            None => Plan::Run { file, linker: None, args, envs },
            Some(interp) => match linker_for(files, interp, abi) {
                Ok(l) => Plan::Run { file, linker: Some(l), args, envs },
                Err(e) => Plan::Fail(e),
            },
        }
    }
}

/// Starts an interpreter in place of a script.
pub fn exec_interpreter(
    files: &FileTable,
    file: usize,
    args: Vec<Vec<u8>>,
    envs: &Vec<Vec<u8>>,
    limits: &ExecLimits,
) -> (r: ExecPlan)
    requires
        files.wf(),
        file < files.images@.len(),
    ensures
        r.view() == run_plan(*files, file, views(args@), views(envs@), *limits),
{
    if let Err(e) = validate_exec_stack_args(&args, envs, limits) {
        return ExecPlan::Fail(e);
    }
    let image = &files.images[file];
    let abi: Option<u32> = match &image.abi {
        Ok(a) => Some(*a),
        Err(_) => None,
    };
    match elf_interp_path(image.data.as_slice()) {
        Some(interp) => match load_interp_data(files, interp.as_slice(), abi) {
            Ok(l) => ExecPlan::Run { file, linker: Some(l), args, envs: copy_args(envs) },
            Err(e) => ExecPlan::Fail(e),
        },
        None => ExecPlan::Run { file, linker: None, args, envs: copy_args(envs) },
    }
}

fn copy_list(list: &Vec<Vec<u8>>, from: usize, out: &mut Vec<Vec<u8>>)
    requires
        from <= list.len(),
    ensures
        views(final(out)@) == views(old(out)@) + views(list@).skip(from as int),
{
    let ghost before = views(out@);
    let ghost l = views(list@);
    let mut i: usize = from;
    assert(views(out@) =~= before + l.subrange(from as int, from as int));
    while i < list.len()
        invariant
            before == views(old(out)@),
            l == views(list@),
            from <= i <= list.len(),
            views(out@) == before + l.subrange(from as int, i as int),
        decreases list.len() - i,
    {
        let ghost prev = out@;
        let s = to_vec(list[i].as_slice());
        out.push(s);
        i += 1;
        assert(views(out@) =~= views(prev).push(l[i - 1]));
        assert(views(out@) =~= before + l.subrange(from as int, i as int));
    }
    assert(l.subrange(from as int, i as int) =~= l.skip(from as int));
}

fn push_copy(out: &mut Vec<Vec<u8>>, s: &[u8])
    ensures
        views(final(out)@) == views(old(out)@).push(s@),
{
    out.push(to_vec(s));
    assert(views(out@) =~= views(old(out)@).push(s@));
}

fn push_opt(out: &mut Vec<Vec<u8>>, s: &Option<Vec<u8>>)
    ensures
        views(final(out)@) == with_arg(views(old(out)@), arg_view(*s)),
{
    if let Some(a) = s {
        push_copy(out, a.as_slice());
    }
}

fn push_rest(out: &mut Vec<Vec<u8>>, args: &Vec<Vec<u8>>)
    ensures
        views(final(out)@) == views(old(out)@) + rest(views(args@)),
{
    if args.len() > 0 {
        copy_list(args, 1, out);
    }
    assert(views(out@) =~= views(old(out)@) + rest(views(args@)));
}

// ---------------------------------------------------------------------------
// Scripts.
// ---------------------------------------------------------------------------

/// The arguments of an interpreter: itself, up to two words, the script, and
/// the script's own arguments.
pub open spec fn script_args(
    interp: Seq<u8>,
    word1: Option<Seq<u8>>,
    word2: Option<Seq<u8>>,
    path: Seq<u8>,
    args: Seq<Seq<u8>>,
) -> Seq<Seq<u8>> {
    with_arg(with_arg(seq![interp], word1), word2).push(path) + rest(args)
}

fn make_script_args(
    interp: &[u8],
    word1: &Option<Vec<u8>>,
    word2: &Option<Vec<u8>>,
    call: &ExecCall,
) -> (r: Vec<Vec<u8>>)
    ensures
        views(r@) == script_args(
            interp@,
            arg_view(*word1),
            arg_view(*word2),
            call.path@,
            views(call.args@),
        ),
{
    let mut out: Vec<Vec<u8>> = Vec::new();
    out.push(to_vec(interp));
    assert(views(out@) =~= seq![interp@]);
    push_opt(&mut out, word1);
    push_opt(&mut out, word2);
    push_copy(&mut out, call.path.as_slice());
    push_rest(&mut out, &call.args);
    out
}

/// Starting the shell that was found for a script: it must be an ELF file.
pub open spec fn shell_plan(
    files: FileTable,
    call: ExecCall,
    i: int,
    file: usize,
    word: Option<Seq<u8>>,
    extra: Option<Seq<u8>>,
) -> Plan {
    if !has_elf_magic(files.images@[file as int].data@) {
        Plan::Fail(ENOEXEC)
    } else {
        run_plan(
            files,
            file,
            script_args(shell_places()[i], word, extra, call.path@, views(call.args@)),
            views(call.envs@),
            call.limits,
        )
    }
}

/// The last resort for a script that wants a shell whose interpreter could not
/// be used: any shell.
pub open spec fn any_shell_plan(
    files: FileTable,
    call: ExecCall,
    extra: Option<Seq<u8>>,
) -> Plan {
    match first_loaded(files, shell_places(), 0) {
        Err(e) => Plan::Fail(e),
        Ok(None) => Plan::Fail(ENOENT),
        Ok(Some((i, file))) => shell_plan(
            files,
            call,
            i,
            file,
            if i < 8 && extra != Some(txt("sh")) {
                Some(txt("sh"))
            } else {
                None
            },
            extra,
        ),
    }
}

/// A script is started through its interpreter.
pub open spec fn own_interp_plan(
    files: FileTable,
    call: ExecCall,
    interp: Seq<u8>,
    arg: Option<Seq<u8>>,
    file: usize,
) -> Plan {
    run_plan(
        files,
        file,
        script_args(interp, arg, None, call.path@, views(call.args@)),
        views(call.envs@),
        call.limits,
    )
}

/// What is done with a script whose interpreter is absent or no ELF file, if it
/// wants a shell: busybox if a standard shell was named, else any shell, if
/// they can be found without trouble.
pub open spec fn shell_instead(
    files: FileTable,
    call: ExecCall,
    interp: Seq<u8>,
    arg: Option<Seq<u8>>,
) -> Option<Plan> {
    let name = basename(interp);
    let extra = extra_arg(name, arg);
    let busybox = first_loaded(files, busybox_places(), 0);
    let shell = first_loaded(files, shell_places(), 0);
    if !wants_shell(name, arg) {
        None
    } else if system_shell(interp) && busybox matches Ok(Some(_)) {
        let (i, file) = busybox->Ok_0->0;
        Some(
            run_plan(
                files,
                file,
                script_args(
                    busybox_places()[i],
                    Some(txt("sh")),
                    extra,
                    call.path@,
                    views(call.args@),
                ),
                views(call.envs@),
                call.limits,
            ),
        )
    } else if shell matches Ok(Some(_)) {
        let (i, file) = shell->Ok_0->0;
        Some(
            shell_plan(
                files,
                call,
                i,
                file,
                if i < 8 {
                    Some(txt("sh"))
                } else {
                    None
                },
                extra,
            ),
        )
    } else {
        None
    }
}

/// Starting a script with a `#!` line.
pub open spec fn script_plan(
    files: FileTable,
    call: ExecCall,
    interp: Seq<u8>,
    arg: Option<Seq<u8>>,
) -> Plan {
    let own = loaded(files, interp);
    let wants = wants_shell(basename(interp), arg);
    let last_extra = if env_shell(basename(interp), arg) {
        None
    } else {
        arg
    };
    match own {
        Ok(f) if has_elf_magic(files.images@[f as int].data@) => own_interp_plan(
            files,
            call,
            interp,
            arg,
            f,
        ),
        Err(e) if e != ENOENT => Plan::Fail(e),
        _ => match shell_instead(files, call, interp, arg) {
            Some(plan) => plan,
            None => if wants {
                any_shell_plan(files, call, last_extra)
            } else if own is Ok {
                Plan::Fail(ENOEXEC)
            } else {
                Plan::Fail(ENOENT)
            },
        },
    }
}

spec fn place_index(r: Result<Option<(int, usize)>, isize>) -> int {
    match r {
        Ok(Some((i, _))) => i,
        _ => 0,
    }
}

fn use_shell(
    files: &FileTable,
    call: &ExecCall,
    shell: &FoundShell,
    with_sh: bool,
    extra: &Option<Vec<u8>>,
    Ghost(i): Ghost<int>,
) -> (r: ExecPlan)
    requires
        files.wf(),
        shell.file < files.images@.len(),
        shell.path@ == shell_places()[i],
    ensures
        r.view() == shell_plan(
            *files,
            *call,
            i,
            shell.file,
            if with_sh {
                Some(txt("sh"))
            } else {
                None
            },
            arg_view(*extra),
        ),
{
    if !is_elf(files.images[shell.file].data.as_slice()) {
        return ExecPlan::Fail(ENOEXEC);
    }
    let word: Option<Vec<u8>> = if with_sh {
        Some(busybox_shell_applet())
    } else {
        None
    };
    let args = make_script_args(shell.path.as_slice(), &word, extra, call);
    exec_interpreter(files, shell.file, args, &call.envs, &call.limits)
}

/// Starts a script with any shell that can be found.
fn exec_any_shell(files: &FileTable, call: &ExecCall, extra: &Option<Vec<u8>>) -> (r: ExecPlan)
    requires
        files.wf(),
    ensures
        r.view() == any_shell_plan(*files, *call, arg_view(*extra)),
{
    let names_sh: bool = match extra {
        Some(a) => crate::text::bytes_eq(a.as_slice(), "sh".as_bytes()),
        None => false,
    };
    match find_shell_interpreter(files) {
        Err(e) => ExecPlan::Fail(e),
        Ok(None) => ExecPlan::Fail(ENOENT),
        Ok(Some(shell)) => {
            let ghost i = place_index(first_loaded(*files, shell_places(), 0));
            use_shell(files, call, &shell, shell.needs_sh_arg && !names_sh, extra, Ghost(i))
        },
    }
}

/// Looks for a shell in place of an interpreter that cannot be used.
fn try_shell_instead(files: &FileTable, call: &ExecCall, line: &Shebang, name: &[u8]) -> (r: Option<
    ExecPlan,
>)
    requires
        files.wf(),
        name@ == basename(line.interp@),
    ensures
        match r {
            Some(plan) => shell_instead(*files, *call, line.interp@, arg_view(line.arg)) == Some(
                plan.view(),
            ),
            None => shell_instead(*files, *call, line.interp@, arg_view(line.arg)) is None,
        },
{
    if !script_wants_shell(name, &line.arg) {
        return None;
    }
    let extra = shebang_shell_extra_arg(name, &line.arg);
    if is_system_shell_path(line.interp.as_slice()) {
        if let Ok(Some(shell)) = find_busybox_shell(files) {
            let word: Option<Vec<u8>> = Some(busybox_shell_applet());
            let args = make_script_args(shell.path.as_slice(), &word, &extra, call);
            return Some(exec_interpreter(files, shell.file, args, &call.envs, &call.limits));
        }
    }
    if let Ok(Some(shell)) = find_shell_interpreter(files) {
        let ghost i = place_index(first_loaded(*files, shell_places(), 0));
        return Some(use_shell(files, call, &shell, shell.needs_sh_arg, &extra, Ghost(i)));
    }
    None
}

/// Starts a script with a `#!` line.
pub fn exec_script(files: &FileTable, call: &ExecCall, line: &Shebang) -> (r: ExecPlan)
    requires
        files.wf(),
    ensures
        r.view() == script_plan(*files, *call, line.interp@, arg_view(line.arg)),
{
    let name = path_basename(line.interp.as_slice());
    let own = load_file_from_path(files, line.interp.as_slice());
    match &own {
        Ok(f) => {
            if is_elf(files.images[*f].data.as_slice()) {
                let args = make_script_args(line.interp.as_slice(), &line.arg, &None, call);
                return exec_interpreter(files, *f, args, &call.envs, &call.limits);
            }
        },
        Err(e) => {
            if *e != ENOENT {
                return ExecPlan::Fail(*e);
            }
        },
    }
    if let Some(plan) = try_shell_instead(files, call, line, name.as_slice()) {
        return plan;
    }
    if script_wants_shell(name.as_slice(), &line.arg) {
        if is_env_shell(name.as_slice(), &line.arg) {
            return exec_any_shell(files, call, &None);
        }
        return exec_any_shell(files, call, &line.arg);
    }
    match own {
        Ok(_) => ExecPlan::Fail(ENOEXEC),
        Err(_) => ExecPlan::Fail(ENOENT),
    }
}

// ---------------------------------------------------------------------------
// Programs.
// ---------------------------------------------------------------------------

/// The beginning of a file, as far as it is read for a `#!` line.
pub open spec fn head_of(data: Seq<u8>) -> Seq<u8> {
    if data.len() <= SCRIPT_HEAD {
        data
    } else {
        data.take(SCRIPT_HEAD as int)
    }
}

/// Starting the file that was found: an ELF program, a script, or a file whose
/// name ends in `.sh`.
pub open spec fn file_plan(files: FileTable, call: ExecCall, file: usize) -> Plan {
    let image = files.images@[file as int];
    let args = views(call.args@);
    let envs = views(call.envs@);
    let abi = match image.abi {
        Ok(a) => Some(a),
        Err(_) => None,
    };
    if !args_fit(args, envs, call.limits) {
        Plan::Fail(E2BIG)
    } else if image.probe_error is Some {
        Plan::Fail(image.probe_error->0)
    } else if image.is_program {
        match image.program_interp {
            None => Plan::Run { file, linker: None, args, envs },
            Some(interp) => match linker_for(files, interp@, abi) {
                Err(e) => Plan::Fail(e),
                Ok(l) => if has_elf_magic(files.images@[l as int].data@) {
                    Plan::Run { file, linker: Some(l), args, envs }
                } else {
                    Plan::Fail(ENOEXEC)
                },
            },
        }
    } else {
        match shebang_of(head_of(image.data@)) {
            Some((interp, arg)) => script_plan(files, call, interp, arg),
            None => if ends_with(call.path@, txt(".sh")) {
                plain_script_plan(files, call)
            } else {
                Plan::Fail(ENOEXEC)
            },
        }
    }
}

/// Starting a script without a `#!` line.
pub open spec fn plain_script_plan(files: FileTable, call: ExecCall) -> Plan {
    match first_loaded(files, shell_places(), 0) {
        Err(e) => Plan::Fail(e),
        Ok(None) => Plan::Fail(ENOENT),
        Ok(Some((i, file))) => shell_plan(
            files,
            call,
            i,
            file,
            if i < 8 {
                Some(txt("sh"))
            } else {
                None
            },
            None,
        ),
    }
}

fn copy_args(args: &Vec<Vec<u8>>) -> (r: Vec<Vec<u8>>)
    ensures
        views(r@) == views(args@),
{
    let mut out: Vec<Vec<u8>> = Vec::new();
    copy_list(args, 0, &mut out);
    assert(views(out@) =~= views(args@));
    out
}

/// Starts the file that was found for an exec.
pub fn execve_with_inode(files: &FileTable, call: &ExecCall, file: usize) -> (r: ExecPlan)
    requires
        files.wf(),
        file < files.images@.len(),
    ensures
        r.view() == file_plan(*files, *call, file),
{
    if let Err(e) = validate_exec_stack_args(&call.args, &call.envs, &call.limits) {
        return ExecPlan::Fail(e);
    }
    let image = &files.images[file];
    if let Some(e) = image.probe_error {
        return ExecPlan::Fail(e);
    }
    if image.is_program {
        let abi: Option<u32> = match &image.abi {
            Ok(a) => Some(*a),
            Err(_) => None,
        };
        return match &image.program_interp {
            None => ExecPlan::Run {
                file,
                linker: None,
                args: copy_args(&call.args),
                envs: copy_args(&call.envs),
            },
            Some(interp) => match load_interp_data(files, interp.as_slice(), abi) {
                Err(e) => ExecPlan::Fail(e),
                Ok(l) => {
                    if is_elf(files.images[l].data.as_slice()) {
                        ExecPlan::Run {
                            file,
                            linker: Some(l),
                            args: copy_args(&call.args),
                            envs: copy_args(&call.envs),
                        }
                    } else {
                        ExecPlan::Fail(ENOEXEC)
                    }
                },
            },
        };
    }
    let head_len: usize = if image.data.len() <= SCRIPT_HEAD {
        image.data.len()
    } else {
        SCRIPT_HEAD
    };
    let head = copy_range(image.data.as_slice(), 0, head_len);
    assert(head@ =~= head_of(image.data@));
    match parse_shebang(head.as_slice()) {
        Some(line) => exec_script(files, call, &line),
        None => {
            if has_suffix(call.path.as_slice(), ".sh".as_bytes()) {
                exec_plain_script(files, call)
            } else {
                ExecPlan::Fail(ENOEXEC)
            }
        },
    }
}

/// Starts a script without a `#!` line.
fn exec_plain_script(files: &FileTable, call: &ExecCall) -> (r: ExecPlan)
    requires
        files.wf(),
    ensures
        r.view() == plain_script_plan(*files, *call),
{
    match find_shell_interpreter(files) {
        Err(e) => ExecPlan::Fail(e),
        Ok(None) => ExecPlan::Fail(ENOENT),
        Ok(Some(shell)) => {
            let ghost i = place_index(first_loaded(*files, shell_places(), 0));
            use_shell(files, call, &shell, shell.needs_sh_arg, &None, Ghost(i))
        },
    }
}

// ---------------------------------------------------------------------------
// The calls.
// ---------------------------------------------------------------------------

/// Running an applet of busybox in place of a program that does not exist.
pub open spec fn applet_plan(files: FileTable, call: ExecCall, allowed: Seq<Seq<u8>>) -> Option<
    Plan,
> {
    match (
        applet_of(call.path@, allowed),
        first_loaded(files, busybox_places(), 0),
    ) {
        (Some(applet), Ok(Some((i, file)))) => Some(
            run_plan(
                files,
                file,
                seq![busybox_places()[i], applet] + rest(views(call.args@)),
                views(call.envs@),
                call.limits,
            ),
        ),
        _ => None,
    }
}

/// Runs an applet of busybox in place of a program that does not exist, if the
/// path stands for one.
pub fn try_exec_busybox_applet(
    files: &FileTable,
    call: &ExecCall,
    allowed: &Vec<Vec<u8>>,
) -> (r: Option<ExecPlan>)
    requires
        files.wf(),
    ensures
        match r {
            Some(plan) => applet_plan(*files, *call, views(allowed@)) == Some(plan.view()),
            None => applet_plan(*files, *call, views(allowed@)) is None,
        },
{
    let applet = match find_applet(&call.path, allowed) {
        Some(a) => a,
        None => {
            return None;
        },
    };
    match find_busybox_shell(files) {
        Ok(Some(shell)) => {
            let mut args: Vec<Vec<u8>> = Vec::new();
            args.push(shell.path);
            push_copy(&mut args, applet.as_slice());
            assert(views(args@) =~= seq![shell.path@, applet@]);
            push_rest(&mut args, &call.args);
            Some(exec_interpreter(files, shell.file, args, &call.envs, &call.limits))
        },
        _ => None,
    }
}

/// Starting what a path resolves to; an applet may stand in for a program that does
/// not exist.
pub open spec fn resolved_plan(files: FileTable, call: ExecCall, allowed: Seq<Seq<u8>>) -> Plan {
    match resolved(files, call.path@) {
        Err(e) => if e == ENOENT && applet_plan(files, call, allowed) is Some {
            applet_plan(files, call, allowed)->0
        } else {
            Plan::Fail(e)
        },
        Ok(file) => match files.images@[file as int].reserve_error {
            Some(e) => Plan::Fail(e),
            None => file_plan(files, call, file),
        },
    }
}

/// Starting the program at a path.
pub open spec fn path_plan(files: FileTable, call: ExecCall, allowed: Seq<Seq<u8>>) -> Plan {
    let busybox = first_loaded(files, busybox_places(), 0);
    if system_shell(call.path@) && busybox matches Ok(Some(_)) {
        let (i, file) = busybox->Ok_0->0;
        run_plan(
            files,
            file,
            seq![busybox_places()[i], txt("sh")] + rest(views(call.args@)),
            views(call.envs@),
            call.limits,
        )
    } else {
        resolved_plan(files, call, allowed)
    }
}

/// A program is started only with arguments that fit on its stack, and always
/// with the environment that was asked for.
#[verifier::rlimit(40)]
pub proof fn law_started_programs_fit(files: FileTable, call: ExecCall, allowed: Seq<Seq<u8>>)
    ensures
        path_plan(files, call, allowed) matches Plan::Run { file, linker, args, envs } ==> args_fit(
            args,
            envs,
            call.limits,
        ) && envs == views(call.envs@),
{
}

/// An ELF program is started itself, with the arguments that were given.
pub proof fn law_elf_programs_keep_their_arguments(
    files: FileTable,
    call: ExecCall,
    file: usize,
)
    requires
        files.images@[file as int].is_program,
    ensures
        file_plan(files, call, file) matches Plan::Run { file: started, linker, args, envs }
            ==> started == file && args == views(call.args@) && envs == views(call.envs@),
{
}

/// Starts what a path resolves to.
fn exec_resolved(files: &FileTable, call: &ExecCall, allowed: &Vec<Vec<u8>>) -> (r: ExecPlan)
    requires
        files.wf(),
    ensures
        r.view() == resolved_plan(*files, *call, views(allowed@)),
{
    match resolve_exec_inode_with_fallback(files, call.path.as_slice()) {
        Err(e) => {
            if e == ENOENT {
                if let Some(plan) = try_exec_busybox_applet(files, call, allowed) {
                    return plan;
                }
            }
            ExecPlan::Fail(e)
        },
        Ok(file) => {
            if let Some(e) = files.images[file].reserve_error {
                return ExecPlan::Fail(e);
            }
            execve_with_inode(files, call, file)
        },
    }
}

/// Starts the program at a path: a standard shell is busybox, if there is one.
pub fn exec_path(files: &FileTable, call: &ExecCall, allowed: &Vec<Vec<u8>>) -> (r: ExecPlan)
    requires
        files.wf(),
    ensures
        r.view() == path_plan(*files, *call, views(allowed@)),
{
    if is_system_shell_path(call.path.as_slice()) {
        if let Ok(Some(shell)) = find_busybox_shell(files) {
            let mut args: Vec<Vec<u8>> = Vec::new();
            args.push(shell.path);
            push_copy(&mut args, "sh".as_bytes());
            assert(views(args@) =~= seq![shell.path@, txt("sh")]);
            push_rest(&mut args, &call.args);
            return exec_interpreter(files, shell.file, args, &call.envs, &call.limits);
        }
    }
    exec_resolved(files, call, allowed)
}

/// The user memory that the arguments of an exec point to.
pub struct ExecMemory {
    /// The address of the path.
    pub path_ptr: u64,
    /// The bytes that can be read there.
    pub path: Vec<u8>,
    /// The address of the argument list, and the words that can be read there.
    pub argv_ptr: u64,
    pub argv_words: Vec<u64>,
    /// The memory behind each pointer of the argument list.
    pub argv: Vec<Vec<u8>>,
    /// The address of the environment list, and the words that can be read there.
    pub envp_ptr: u64,
    pub envp_words: Vec<u64>,
    /// The memory behind each pointer of the environment list.
    pub envp: Vec<Vec<u8>>,
}

/// There is memory for each pointer of a list that can be read.
pub open spec fn memory_ok(m: ExecMemory, l: ExecLimits) -> bool {
    &&& array_error(m.argv_ptr, m.argv_words@, ptr_limit(l)) is None ==> m.argv@.len()
        == array_value(m.argv_ptr, m.argv_words@).len()
    &&& array_error(m.envp_ptr, m.envp_words@, ptr_limit(l)) is None ==> m.envp@.len()
        == array_value(m.envp_ptr, m.envp_words@).len()
}

/// Why the path or the lists cannot be read.
pub open spec fn read_error(m: ExecMemory, l: ExecLimits) -> Option<isize> {
    if m.path_ptr == 0 {
        Some(EFAULT)
    } else {
        match cstr_error(m.path@, MAX_USER_CSTR as int, ENAMETOOLONG) {
            Some(e) => Some(e),
            None => match array_error(m.argv_ptr, m.argv_words@, ptr_limit(l)) {
                Some(e) => Some(e),
                None => match array_error(m.envp_ptr, m.envp_words@, ptr_limit(l)) {
                    Some(e) => Some(e),
                    None => lists_error(cstr_value(m.path@), views(m.argv@), views(m.envp@), l),
                },
            },
        }
    }
}

/// The call that the arguments make.
pub open spec fn is_call(m: ExecMemory, l: ExecLimits, call: ExecCall) -> bool {
    &&& call.path@ == cstr_value(m.path@)
    &&& views(call.args@) == args_value(cstr_value(m.path@), views(m.argv@))
    &&& views(call.envs@) == strings_of(views(m.envp@))
    &&& call.limits == l
}

/// Reads the path and the lists.
pub fn read_exec_call(m: &ExecMemory, l: &ExecLimits) -> (r: Result<ExecCall, isize>)
    requires
        memory_ok(*m, *l),
    ensures
        match r {
            Ok(call) => read_error(*m, *l) is None && is_call(*m, *l, call),
            Err(e) => read_error(*m, *l) == Some(e),
        },
{
    if m.path_ptr == 0 {
        return Err(EFAULT);
    }
    let path = match try_read_user_cstr(m.path.as_slice()) {
        Ok(p) => p,
        Err(e) => {
            return Err(e);
        },
    };
    let limit: usize = l.user_stack_size / WORD;
    if let Err(e) = read_user_ptr_array(m.argv_ptr, m.argv_words.as_slice(), limit) {
        return Err(e);
    }
    if let Err(e) = read_user_ptr_array(m.envp_ptr, m.envp_words.as_slice(), limit) {
        return Err(e);
    }
    match read_exec_args_envs(&path, &m.argv, &m.envp, l) {
        Ok((args, envs)) => Ok(ExecCall { path, args, envs, limits: *l }),
        Err(e) => Err(e),
    }
}

/// `execve`: reads the arguments and finds the program to start.
///
/// `allowed` lists the applets of busybox that stand in for missing programs.
pub fn syscall_execve(
    files: &FileTable,
    m: &ExecMemory,
    l: &ExecLimits,
    allowed: &Vec<Vec<u8>>,
) -> (r: ExecPlan)
    requires
        files.wf(),
        memory_ok(*m, *l),
    ensures
        match read_error(*m, *l) {
            Some(e) => r.view() == Plan::Fail(e),
            None => exists|call: ExecCall|
                is_call(*m, *l, call) && r.view() == #[trigger] path_plan(
                    *files,
                    call,
                    views(allowed@),
                ),
        },
{
    match read_exec_call(m, l) {
        Ok(call) => exec_path(files, &call, allowed),
        Err(e) => ExecPlan::Fail(e),
    }
}

/// `execveat`: reads the arguments and starts the file that the directory and
/// the path name; `found` is that file, or why there is none.
pub fn syscall_execveat(
    files: &FileTable,
    m: &ExecMemory,
    l: &ExecLimits,
    found: Result<usize, isize>,
) -> (r: ExecPlan)
    requires
        files.wf(),
        memory_ok(*m, *l),
        found matches Ok(file) ==> file < files.images@.len(),
    ensures
        match read_error(*m, *l) {
            Some(e) => r.view() == Plan::Fail(e),
            None => match found {
                Err(e) => r.view() == Plan::Fail(e),
                Ok(file) => match files.images@[file as int].reserve_error {
                    Some(e) => r.view() == Plan::Fail(e),
                    None => exists|call: ExecCall|
                        is_call(*m, *l, call) && r.view() == #[trigger] file_plan(
                            *files,
                            call,
                            file,
                        ),
                },
            },
        },
{
    let call = match read_exec_call(m, l) {
        Ok(call) => call,
        Err(e) => {
            return ExecPlan::Fail(e);
        },
    };
    let file = match found {
        Ok(file) => file,
        Err(e) => {
            return ExecPlan::Fail(e);
        },
    };
    if let Some(e) = files.images[file].reserve_error {
        return ExecPlan::Fail(e);
    }
    execve_with_inode(files, &call, file)
}

} // verus!
