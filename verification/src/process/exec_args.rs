//! How much room the arguments and the environment of a program take on its
//! initial stack, and how much they may take.

use vstd::prelude::*;
use crate::errno::E2BIG;
use crate::process::user_strings::{
    cstr_error, cstr_value, try_read_user_exec_cstr, EXEC_MAX_ARG_STRLEN, PAGE_SIZE, WORD,
};
use crate::text::to_vec;

verus! {

pub const LINUX_STK_LIM: usize = 8 * 1024 * 1024;
/// What pointers and strings take at most, however large the stack limit is.
pub const LINUX_ARG_MAX: usize = EXEC_MAX_ARG_STRLEN;
pub const EXEC_AUXV_ENTRIES_MAX: usize = 19;
pub const EXEC_STACK_RUNTIME_RESERVE: usize = PAGE_SIZE * 32;

/// The layout of the initial stack.
#[derive(Clone, Copy, PartialEq, Eq, Structural)]
pub enum StackAbi {
    /// Strings are packed; the program name is stored once more.
    RiscV,
    /// Every string starts on a word boundary.
    LoongArch,
}

/// What limits the arguments of a program.
#[derive(Clone, Copy)]
pub struct ExecLimits {
    pub abi: StackAbi,
    /// The size of the stack that the program gets.
    pub user_stack_size: usize,
    /// The soft limit on the stack size; the greatest value means no limit.
    pub rlimit_stack: u64,
}

/// The greatest number of pointers in an argument list.
pub open spec fn ptr_limit(l: ExecLimits) -> int {
    (l.user_stack_size / WORD) as int
}

/// The room that a string of `len` bytes takes, terminator counted.
pub open spec fn string_room(len: int, abi: StackAbi) -> int {
    match abi {
        StackAbi::RiscV => len + 1,
        StackAbi::LoongArch => (len + 1 + WORD - 1) / (WORD as int) * (WORD as int),
    }
}

/// A string is short enough for an argument.
pub open spec fn string_ok(len: int) -> bool {
    len + 1 <= EXEC_MAX_ARG_STRLEN
}

/// The length of the platform name that the program is told.
pub open spec fn platform_len(abi: StackAbi) -> int {
    match abi {
        StackAbi::RiscV => 8,
        StackAbi::LoongArch => 11,
    }
}

/// The room that every program start takes besides its strings and pointers:
/// a reserve, the platform name, 16 random bytes, the auxiliary vector with its
/// end, three words for the count and the two terminators, alignment, and on
/// one platform the program name.
pub open spec fn fixed_reserve(execfn_len: int, abi: StackAbi) -> int {
    EXEC_STACK_RUNTIME_RESERVE + string_room(platform_len(abi), abi) + 16 + (EXEC_AUXV_ENTRIES_MAX
        + 1) * 2 * WORD + 3 * WORD + 16 + WORD + match abi {
        StackAbi::RiscV => if execfn_len != 0 {
            execfn_len + 1
        } else {
            0
        },
        StackAbi::LoongArch => 0,
    }
}

/// A quarter of the stack limit.
pub open spec fn rlimit_quarter(rlimit: u64) -> int {
    if rlimit == u64::MAX {
        usize::MAX as int
    } else {
        (if rlimit > usize::MAX {
            usize::MAX as int
        } else {
            rlimit as int
        }) / 4
    }
}

pub open spec fn max_int(a: int, b: int) -> int {
    if a >= b {
        a
    } else {
        b
    }
}

pub open spec fn min_int(a: int, b: int) -> int {
    if a <= b {
        a
    } else {
        b
    }
}

/// The bytes that pointers and strings may take together: the least of three
/// quarters of the default stack, a quarter of the stack limit, and a fixed bound.
pub open spec fn pointer_and_string_limit(l: ExecLimits) -> int {
    min_int(
        min_int(LINUX_STK_LIM / 4 * 3, rlimit_quarter(l.rlimit_stack)),
        LINUX_ARG_MAX as int,
    )
}

/// The bytes that the pointers take; the argument list has at least one.
pub open spec fn pointer_room(argc: int, envc: int) -> int {
    (max_int(argc, 1) + envc) * WORD
}

/// The bytes that the strings may take, or `None` if not even the pointers fit.
pub open spec fn string_limit(argc: int, envc: int, execfn_len: int, l: ExecLimits) -> Option<int> {
    let ptrs = pointer_room(argc, envc);
    let usable = l.user_stack_size - fixed_reserve(execfn_len, l.abi);
    if ptrs > usize::MAX || pointer_and_string_limit(l) <= ptrs || usable <= ptrs {
        None
    } else {
        Some(min_int(pointer_and_string_limit(l) - ptrs, usable - ptrs))
    }
}

/// Strings and pointers together are within each of the bounds, and fit on the stack
/// with what every program start takes.
pub proof fn law_budget_is_the_least(argc: int, envc: int, execfn_len: int, l: ExecLimits)
    requires
        argc >= 0,
        envc >= 0,
    ensures
        string_limit(argc, envc, execfn_len, l) matches Some(n) ==> {
            let ptrs = pointer_room(argc, envc);
            &&& n + ptrs <= LINUX_STK_LIM / 4 * 3
            &&& n + ptrs <= rlimit_quarter(l.rlimit_stack)
            &&& n + ptrs <= LINUX_ARG_MAX
            &&& n + ptrs + fixed_reserve(execfn_len, l.abi) <= l.user_stack_size
            &&& n > 0
        },
{
}

/// The byte strings of a list.
pub open spec fn views(list: Seq<Vec<u8>>) -> Seq<Seq<u8>> {
    Seq::new(list.len(), |i: int| list[i]@)
}

/// The room that the strings of a list take.
pub open spec fn total_room(list: Seq<Seq<u8>>, abi: StackAbi) -> int
    decreases list.len(),
{
    if list.len() == 0 {
        0
    } else {
        total_room(list.drop_last(), abi) + string_room(list.last().len() as int, abi)
    }
}

pub open spec fn all_short(list: Seq<Seq<u8>>) -> bool {
    forall|i: int| 0 <= i < list.len() ==> string_ok((#[trigger] list[i]).len() as int)
}

/// The arguments and the environment fit.
pub open spec fn args_fit(args: Seq<Seq<u8>>, envs: Seq<Seq<u8>>, l: ExecLimits) -> bool {
    let execfn_len = if args.len() > 0 {
        args[0].len() as int
    } else {
        0
    };
    &&& args.len() <= ptr_limit(l)
    &&& envs.len() <= ptr_limit(l)
    &&& string_limit(args.len() as int, envs.len() as int, execfn_len, l) matches Some(limit)
    &&& all_short(args + envs)
    &&& total_room(args + envs, l.abi) <= limit
}

/// The room of one string; too long a string is refused.
pub fn exec_arg_string_stack_len(len: usize, abi: StackAbi) -> (r: Result<usize, isize>)
    ensures
        match r {
            Ok(n) => string_ok(len as int) && n == string_room(len as int, abi),
            Err(e) => !string_ok(len as int) && e == E2BIG,
        },
{
    if len >= EXEC_MAX_ARG_STRLEN {
        return Err(E2BIG);
    }
    let raw_len: usize = len + 1;
    match abi {
        StackAbi::RiscV => Ok(raw_len),
        StackAbi::LoongArch => Ok((raw_len + WORD - 1) / WORD * WORD),
    }
}

/// The room that every program start takes; `None` if it exceeds the address
/// space.
pub fn exec_stack_fixed_reserve(execfn_len: usize, abi: StackAbi) -> (r: Option<usize>)
    ensures
        match r {
            Some(n) => n == fixed_reserve(execfn_len as int, abi),
            None => fixed_reserve(execfn_len as int, abi) > usize::MAX,
        },
{
    match abi {
        StackAbi::RiscV => {
            let base: usize = EXEC_STACK_RUNTIME_RESERVE + 9 + 16 + (EXEC_AUXV_ENTRIES_MAX + 1) * 2
                * WORD + 3 * WORD + 16 + WORD;
            if execfn_len != 0 {
                match base.checked_add(execfn_len) {
                    Some(n) => n.checked_add(1),
                    None => None,
                }
            } else {
                Some(base)
            }
        },
        StackAbi::LoongArch => Some(
            EXEC_STACK_RUNTIME_RESERVE + 16 + 16 + (EXEC_AUXV_ENTRIES_MAX + 1) * 2 * WORD + 3 * WORD
                + 16 + WORD,
        ),
    }
}

/// A quarter of the stack limit.
pub fn rlimit_stack_quarter(rlimit: u64) -> (r: usize)
    ensures
        r == rlimit_quarter(rlimit),
{
    if rlimit == u64::MAX {
        usize::MAX
    } else if rlimit > usize::MAX as u64 {
        usize::MAX / 4
    } else {
        rlimit as usize / 4
    }
}

/// The budget for strings, given the numbers of arguments and of environment
/// strings.
pub fn exec_string_limit_for_counts(
    argc: usize,
    envc: usize,
    execfn_len: usize,
    l: &ExecLimits,
) -> (r: Result<usize, isize>)
    ensures
        match r {
            Ok(n) => string_limit(argc as int, envc as int, execfn_len as int, *l) == Some(
                n as int,
            ),
            Err(e) => string_limit(argc as int, envc as int, execfn_len as int, *l) is None && e
                == E2BIG,
        },
{
    let at_least_one: usize = if argc > 1 {
        argc
    } else {
        1
    };
    let ptr_count: usize = match at_least_one.checked_add(envc) {
        Some(n) => n,
        None => {
            return Err(E2BIG);
        },
    };
    let ptr_size: usize = match ptr_count.checked_mul(WORD) {
        Some(n) => n,
        None => {
            return Err(E2BIG);
        },
    };
    let three_quarters: usize = LINUX_STK_LIM / 4 * 3;
    let quarter: usize = rlimit_stack_quarter(l.rlimit_stack);
    let lesser: usize = if three_quarters <= quarter {
        three_quarters
    } else {
        quarter
    };
    let limit: usize = if lesser <= LINUX_ARG_MAX {
        lesser
    } else {
        LINUX_ARG_MAX
    };
    if limit <= ptr_size {
        return Err(E2BIG);
    }
    let fixed: usize = match exec_stack_fixed_reserve(execfn_len, l.abi) {
        Some(n) => n,
        None => {
            return Err(E2BIG);
        },
    };
    let usable: usize = match l.user_stack_size.checked_sub(fixed) {
        Some(n) => n,
        None => {
            return Err(E2BIG);
        },
    };
    if usable <= ptr_size {
        return Err(E2BIG);
    }
    let by_limit: usize = limit - ptr_size;
    let by_stack: usize = usable - ptr_size;
    if by_limit <= by_stack {
        Ok(by_limit)
    } else {
        Ok(by_stack)
    }
}

proof fn lemma_total_nonneg(list: Seq<Seq<u8>>, abi: StackAbi)
    ensures
        total_room(list, abi) >= 0,
    decreases list.len(),
{
    if list.len() > 0 {
        lemma_total_nonneg(list.drop_last(), abi);
    }
}

proof fn lemma_total_step(list: Seq<Seq<u8>>, abi: StackAbi, i: int)
    requires
        0 <= i < list.len(),
    ensures
        total_room(list.take(i + 1), abi) == total_room(list.take(i), abi) + string_room(
            list[i].len() as int,
            abi,
        ),
        string_room(list[i].len() as int, abi) > 0,
{
    assert(list.take(i + 1).drop_last() =~= list.take(i));
}

proof fn lemma_total_monotone(list: Seq<Seq<u8>>, abi: StackAbi, i: int)
    requires
        0 <= i <= list.len(),
    ensures
        total_room(list.take(i), abi) <= total_room(list, abi),
    decreases list.len() - i,
{
    if i < list.len() {
        lemma_total_step(list, abi, i);
        lemma_total_monotone(list, abi, i + 1);
    } else {
        assert(list.take(i) =~= list);
    }
}

/// Checks arguments and environment of a program that is about to start.
pub fn validate_exec_stack_args(
    args: &Vec<Vec<u8>>,
    envs: &Vec<Vec<u8>>,
    l: &ExecLimits,
) -> (r: Result<(), isize>)
    ensures
        r is Ok == args_fit(views(args@), views(envs@), *l),
        r matches Err(e) ==> e == E2BIG,
{
    let limit_count: usize = l.user_stack_size / WORD;
    if args.len() > limit_count || envs.len() > limit_count {
        return Err(E2BIG);
    }
    let ghost all = views(args@) + views(envs@);
    let execfn_len: usize = if args.len() > 0 {
        args[0].len()
    } else {
        0
    };
    let limit: usize = match exec_string_limit_for_counts(args.len(), envs.len(), execfn_len, l) {
        Ok(n) => n,
        Err(e) => {
            return Err(e);
        },
    };
    let mut string_bytes: usize = 0;
    let mut i: usize = 0;
    assert(all.take(0) =~= Seq::<Seq<u8>>::empty());
    assert(args.len() + envs.len() <= 2 * (usize::MAX / 8));
    let total: usize = args.len() + envs.len();
    while i < total
        invariant
            i <= total,
            total == args.len() + envs.len(),
            all == views(args@) + views(envs@),
            string_bytes == total_room(all.take(i as int), l.abi),
            string_bytes <= limit,
            args_fit(views(args@), views(envs@), *l) ==> all_short(all) && total_room(all, l.abi)
                <= limit,
            forall|j: int| 0 <= j < i ==> string_ok((#[trigger] all[j]).len() as int),
        decreases total - i,
    {
        let len: usize = if i < args.len() {
            args[i].len()
        } else {
            envs[i - args.len()].len()
        };
        assert(len == all[i as int].len());
        let room: usize = match exec_arg_string_stack_len(len, l.abi) {
            Ok(n) => n,
            Err(e) => {
                return Err(e);
            },
        };
        proof {
            lemma_total_step(all, l.abi, i as int);
            lemma_total_monotone(all, l.abi, i + 1);
        }
        match string_bytes.checked_add(room) {
            Some(n) => {
                if n > limit {
                    return Err(E2BIG);
                }
                string_bytes = n;
            },
            None => {
                return Err(E2BIG);
            },
        }
        i += 1;
    }
    assert(all.take(total as int) =~= all);
    Ok(())
}

// ---------------------------------------------------------------------------
// Reading the lists.
// ---------------------------------------------------------------------------

/// Reads strings `i..` of a list and charges each to the budget as it comes.
/// Gives what is left of the budget, or the first error.
pub open spec fn charge_from(
    mem: Seq<Seq<u8>>,
    i: int,
    remaining: int,
    abi: StackAbi,
) -> Result<int, isize>
    decreases mem.len() - i,
{
    if i >= mem.len() {
        Ok(remaining)
    } else {
        match cstr_error(mem[i], EXEC_MAX_ARG_STRLEN as int, E2BIG) {
            Some(e) => Err(e),
            None => {
                let s = cstr_value(mem[i]);
                if !string_ok(s.len() as int) || string_room(s.len() as int, abi) > remaining {
                    Err(E2BIG)
                } else {
                    charge_from(mem, i + 1, remaining - string_room(s.len() as int, abi), abi)
                }
            },
        }
    }
}

/// The strings of a list.
pub open spec fn strings_of(mem: Seq<Seq<u8>>) -> Seq<Seq<u8>> {
    Seq::new(mem.len(), |i: int| cstr_value(mem[i]))
}

/// Appends strings `from..` of a list to `out`, and gives what is left of the
/// budget.
fn charge_strings(
    mem: &Vec<Vec<u8>>,
    from: usize,
    budget: usize,
    abi: StackAbi,
    out: &mut Vec<Vec<u8>>,
) -> (r: Result<usize, isize>)
    requires
        from <= mem.len(),
    ensures
        match r {
            Ok(n) => charge_from(views(mem@), from as int, budget as int, abi) == Ok::<int, isize>(
                n as int,
            ) && views(final(out)@) == views(old(out)@) + strings_of(views(mem@)).skip(from as int),
            Err(e) => charge_from(views(mem@), from as int, budget as int, abi) == Err::<
                int,
                isize,
            >(e),
        },
{
    let ghost m = views(mem@);
    let ghost before = views(out@);
    let mut remaining: usize = budget;
    let mut i: usize = from;
    assert(views(out@) =~= before + strings_of(m).subrange(from as int, from as int));
    while i < mem.len()
        invariant
            m == views(mem@),
            before == views(old(out)@),
            from <= i <= mem.len(),
            views(out@) == before + strings_of(m).subrange(from as int, i as int),
            charge_from(m, from as int, budget as int, abi) == charge_from(
                m,
                i as int,
                remaining as int,
                abi,
            ),
        decreases mem.len() - i,
    {
        assert(m[i as int] == mem@[i as int]@);
        let s = match try_read_user_exec_cstr(mem[i].as_slice()) {
            Ok(s) => s,
            Err(e) => {
                return Err(e);
            },
        };
        let room: usize = match exec_arg_string_stack_len(s.len(), abi) {
            Ok(n) => n,
            Err(e) => {
                return Err(e);
            },
        };
        if room > remaining {
            return Err(E2BIG);
        }
        remaining = remaining - room;
        let ghost prev = out@;
        out.push(s);
        i += 1;
        assert(views(out@) =~= views(prev).push(s@));
        assert(views(out@) =~= before + strings_of(m).subrange(from as int, i as int));
    }
    assert(strings_of(m).subrange(from as int, i as int) =~= strings_of(m).skip(from as int));
    Ok(remaining)
}

/// The outcome of reading the argument and environment lists: the first error,
/// or nothing.
pub open spec fn lists_error(
    path: Seq<u8>,
    argv: Seq<Seq<u8>>,
    envp: Seq<Seq<u8>>,
    l: ExecLimits,
) -> Option<isize> {
    let first_error = if argv.len() > 0 {
        cstr_error(argv[0], EXEC_MAX_ARG_STRLEN as int, E2BIG)
    } else {
        None
    };
    let first = if argv.len() > 0 {
        cstr_value(argv[0])
    } else {
        path
    };
    let flen = first.len() as int;
    match first_error {
        Some(e) => Some(e),
        None => match string_limit(argv.len() as int, envp.len() as int, flen, l) {
            None => Some(E2BIG),
            Some(limit) => if !string_ok(flen) || string_room(flen, l.abi) > limit {
                Some(E2BIG)
            } else {
                match charge_from(argv, 1, limit - string_room(flen, l.abi), l.abi) {
                    Err(e) => Some(e),
                    Ok(rest) => match charge_from(envp, 0, rest, l.abi) {
                        Err(e) => Some(e),
                        Ok(_) => None,
                    },
                }
            },
        },
    }
}

/// The argument list: an empty one holds the program path.
pub open spec fn args_value(path: Seq<u8>, argv: Seq<Seq<u8>>) -> Seq<Seq<u8>> {
    if argv.len() > 0 {
        strings_of(argv)
    } else {
        seq![path]
    }
}

proof fn lemma_total_concat(a: Seq<Seq<u8>>, b: Seq<Seq<u8>>, abi: StackAbi)
    ensures
        total_room(a + b, abi) == total_room(a, abi) + total_room(b, abi),
    decreases b.len(),
{
    if b.len() == 0 {
        assert(a + b =~= a);
    } else {
        assert((a + b).drop_last() =~= a + b.drop_last());
        lemma_total_concat(a, b.drop_last(), abi);
    }
}

proof fn lemma_charge_total(mem: Seq<Seq<u8>>, i: int, budget: int, abi: StackAbi)
    requires
        0 <= i <= mem.len(),
        budget >= 0,
        charge_from(mem, i, budget, abi) is Ok,
    ensures
        charge_from(mem, i, budget, abi)->Ok_0 >= 0,
        charge_from(mem, i, budget, abi)->Ok_0 == budget - total_room(
            strings_of(mem).skip(i),
            abi,
        ),
        forall|j: int|
            i <= j < mem.len() ==> string_ok((#[trigger] strings_of(mem)[j]).len() as int),
    decreases mem.len() - i,
{
    let all = strings_of(mem);
    if i < mem.len() {
        let room = string_room(all[i].len() as int, abi);
        lemma_charge_total(mem, i + 1, budget - room, abi);
        assert(all.skip(i) =~= seq![all[i]] + all.skip(i + 1));
        lemma_total_concat(seq![all[i]], all.skip(i + 1), abi);
        assert(seq![all[i]].drop_last() =~= Seq::<Seq<u8>>::empty());
        assert(total_room(Seq::<Seq<u8>>::empty(), abi) == 0);
        assert(total_room(seq![all[i]], abi) == room);
    } else {
        assert(all.skip(i) =~= Seq::<Seq<u8>>::empty());
    }
}

/// Lists that were read within the budget are never found too large later.
pub proof fn law_read_lists_fit(
    path: Seq<u8>,
    argv: Seq<Seq<u8>>,
    envp: Seq<Seq<u8>>,
    l: ExecLimits,
)
    requires
        lists_error(path, argv, envp, l) is None,
        argv.len() <= ptr_limit(l),
        envp.len() <= ptr_limit(l),
    ensures
        args_fit(args_value(path, argv), strings_of(envp), l),
{
    let args = args_value(path, argv);
    let envs = strings_of(envp);
    let first = args[0];
    let flen = first.len() as int;
    let room = string_room(flen, l.abi);
    let limit = string_limit(argv.len() as int, envp.len() as int, flen, l)->0;
    let rest = charge_from(argv, 1, limit - room, l.abi)->Ok_0;
    if argv.len() > 0 {
        lemma_charge_total(argv, 1, limit - room, l.abi);
        assert(strings_of(argv) =~= seq![first] + strings_of(argv).skip(1));
        lemma_total_concat(seq![first], strings_of(argv).skip(1), l.abi);
    }
    lemma_charge_total(envp, 0, rest, l.abi);
    assert(seq![first].drop_last() =~= Seq::<Seq<u8>>::empty());
    assert(total_room(Seq::<Seq<u8>>::empty(), l.abi) == 0);
    assert(total_room(seq![first], l.abi) == room);
    assert(envs.skip(0) =~= envs);
    lemma_total_concat(args, envs, l.abi);
    assert forall|i: int| 0 <= i < (args + envs).len() implies string_ok(
        (#[trigger] (args + envs)[i]).len() as int,
    ) by {
        if i < args.len() {
            assert((args + envs)[i] == args[i]);
            if argv.len() > 0 && i >= 1 {
                assert(args[i] == strings_of(argv)[i]);
            }
        } else {
            assert((args + envs)[i] == strings_of(envp)[i - args.len()]);
        }
    }
    assert(args.len() >= 1);
    assert(ptr_limit(l) >= 1) by {
        assert(l.user_stack_size > fixed_reserve(flen, l.abi));
    }
}

/// Reads the argument and environment lists, each string charged to the stack
/// budget as it is read.
///
/// `argv` and `envp` hold, for each pointer of the lists, the memory that it
/// points to.
pub fn read_exec_args_envs(
    path: &Vec<u8>,
    argv: &Vec<Vec<u8>>,
    envp: &Vec<Vec<u8>>,
    l: &ExecLimits,
) -> (r: Result<(Vec<Vec<u8>>, Vec<Vec<u8>>), isize>)
    ensures
        match r {
            Ok((args, envs)) => lists_error(path@, views(argv@), views(envp@), *l) is None && views(
                args@,
            ) == args_value(path@, views(argv@)) && views(envs@) == strings_of(views(envp@)),
            Err(e) => lists_error(path@, views(argv@), views(envp@), *l) == Some(e),
        },
{
    let ghost a = views(argv@);
    let first: Vec<u8> = if argv.len() > 0 {
        assert(a[0] == argv@[0]@);
        match try_read_user_exec_cstr(argv[0].as_slice()) {
            Ok(s) => s,
            Err(e) => {
                return Err(e);
            },
        }
    } else {
        to_vec(path.as_slice())
    };
    let limit: usize = match exec_string_limit_for_counts(
        argv.len(),
        envp.len(),
        first.len(),
        l,
    ) {
        Ok(n) => n,
        Err(e) => {
            return Err(e);
        },
    };
    let room: usize = match exec_arg_string_stack_len(first.len(), l.abi) {
        Ok(n) => n,
        Err(e) => {
            return Err(e);
        },
    };
    if room > limit {
        return Err(E2BIG);
    }
    let mut args: Vec<Vec<u8>> = Vec::new();
    let ghost first_view = first@;
    args.push(first);
    assert(views(args@) =~= seq![first_view]);
    let after_args: usize = if argv.len() > 0 {
        match charge_strings(argv, 1, limit - room, l.abi, &mut args) {
            Ok(n) => n,
            Err(e) => {
                return Err(e);
            },
        }
    } else {
        limit - room
    };
    assert(views(args@) =~= args_value(path@, a));
    let mut envs: Vec<Vec<u8>> = Vec::new();
    match charge_strings(envp, 0, after_args, l.abi, &mut envs) {
        Ok(n) => {},
        Err(e) => {
            return Err(e);
        },
    }
    assert(views(envs@) =~= strings_of(views(envp@)));
    Ok((args, envs))
}

} // verus!
