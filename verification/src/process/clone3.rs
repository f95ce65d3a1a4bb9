//! `clone3`: the extensible argument block of `clone`.

use vstd::prelude::*;
use crate::bytes::{le64, read_le64};
use crate::errno::{E2BIG, EBADF, EFAULT, EINVAL};
use crate::process::clone::{
    clone_actions, clone_from_parts, clone_rejects, flagged, CloneAction, CloneCaller, CloneRequest,
    CLONE_CHILD_CLEARTID, CLONE_CHILD_SETTID, CLONE_DETACHED, CLONE_FILES, CLONE_FS,
    CLONE_INTO_CGROUP, CLONE_NEWCGROUP, CLONE_NEWIPC, CLONE_NEWNET, CLONE_NEWNS, CLONE_NEWPID,
    CLONE_NEWUTS, CLONE_PARENT, CLONE_PARENT_SETTID, CLONE_PIDFD, CLONE_SETTLS, CLONE_SIGHAND,
    CLONE_SIGNAL_MASK, CLONE_SYSVSEM, CLONE_THREAD, CLONE_VFORK, CLONE_VM,
};
use crate::process::table::RT_SIG_MAX;
use crate::text::{append_zeros, copy_range};

verus! {

/// The least size of an argument block.
pub const CLONE_ARGS_MIN_SIZE: usize = 64;
/// The greatest size of an argument block that is read.
pub const CLONE_ARGS_MAX_COPY: usize = 4096;
/// The size of the block with all the fields that are known.
pub const CLONE_ARGS_SIZE: usize = 88;

pub const SUPPORTED_CLONE3_FLAGS: u64 = CLONE_VM | CLONE_FS | CLONE_FILES | CLONE_SIGHAND
    | CLONE_PIDFD | CLONE_VFORK | CLONE_PARENT | CLONE_THREAD | CLONE_NEWNS | CLONE_SYSVSEM
    | CLONE_SETTLS | CLONE_PARENT_SETTID | CLONE_CHILD_CLEARTID | CLONE_CHILD_SETTID
    | CLONE_NEWCGROUP | CLONE_NEWUTS | CLONE_NEWIPC | CLONE_NEWPID | CLONE_NEWNET
    | CLONE_INTO_CGROUP;

/// The argument block of `clone3`.
#[derive(Clone, Copy)]
pub struct Clone3Args {
    pub flags: u64,
    pub pidfd: u64,
    pub child_tid: u64,
    pub parent_tid: u64,
    pub exit_signal: u64,
    pub stack: u64,
    pub stack_size: u64,
    pub tls: u64,
    pub set_tid: u64,
    pub set_tid_size: u64,
    pub cgroup: u64,
}

/// What the descriptor in the `cgroup` field refers to.
#[derive(Clone, Copy)]
pub enum CgroupLookup {
    NoFile,
    /// A file that names no control group, with the error to report.
    NotCgroup(isize),
    Target,
}

/// The block as a whole: a shorter one is filled up with zeros.
pub open spec fn padded(raw: Seq<u8>) -> Seq<u8> {
    if raw.len() >= CLONE_ARGS_SIZE {
        raw.take(CLONE_ARGS_SIZE as int)
    } else {
        raw + Seq::new((CLONE_ARGS_SIZE - raw.len()) as nat, |i: int| 0u8)
    }
}

/// The fields of a block, in order.
pub open spec fn decoded(raw: Seq<u8>) -> Clone3Args {
    let b = padded(raw);
    Clone3Args {
        flags: le64(b, 0) as u64,
        pidfd: le64(b, 8) as u64,
        child_tid: le64(b, 16) as u64,
        parent_tid: le64(b, 24) as u64,
        exit_signal: le64(b, 32) as u64,
        stack: le64(b, 40) as u64,
        stack_size: le64(b, 48) as u64,
        tls: le64(b, 56) as u64,
        set_tid: le64(b, 64) as u64,
        set_tid_size: le64(b, 72) as u64,
        cgroup: le64(b, 80) as u64,
    }
}

/// A field that is not known is used.
pub open spec fn uses_unknown(raw: Seq<u8>) -> bool {
    exists|i: int| CLONE_ARGS_SIZE <= i < raw.len() && #[trigger] raw[i] != 0
}

/// Why no block can be read. `raw` is the memory at the pointer, as far as it
/// could be read.
pub open spec fn args_error(args_ptr: u64, size: usize, raw: Option<Seq<u8>>) -> Option<isize> {
    if size < CLONE_ARGS_MIN_SIZE {
        Some(EINVAL)
    } else if size > CLONE_ARGS_MAX_COPY {
        Some(E2BIG)
    } else if args_ptr == 0 {
        Some(EFAULT)
    } else {
        match raw {
            None => Some(EFAULT),
            Some(bytes) => if uses_unknown(bytes) {
                Some(E2BIG)
            } else {
                None
            },
        }
    }
}

pub open spec fn opt_view(raw: Option<Vec<u8>>) -> Option<Seq<u8>> {
    match raw {
        Some(v) => Some(v@),
        None => None,
    }
}

/// Reads the argument block; `raw` holds the `size` bytes at `args_ptr`, unless
/// they cannot be read.
pub fn read_clone3_args(args_ptr: u64, size: usize, raw: &Option<Vec<u8>>) -> (r: Result<
    Clone3Args,
    isize,
>)
    requires
        raw matches Some(v) ==> v.len() == size,
    ensures
        match r {
            Ok(args) => args_error(args_ptr, size, opt_view(*raw)) is None && args == decoded(
                raw->0@,
            ),
            Err(e) => args_error(args_ptr, size, opt_view(*raw)) == Some(e),
        },
{
    if size < CLONE_ARGS_MIN_SIZE {
        return Err(EINVAL);
    }
    if size > CLONE_ARGS_MAX_COPY {
        return Err(E2BIG);
    }
    if args_ptr == 0 {
        return Err(EFAULT);
    }
    let bytes = match raw {
        Some(v) => v,
        None => {
            return Err(EFAULT);
        },
    };
    let copy_len: usize = if size < CLONE_ARGS_SIZE {
        size
    } else {
        CLONE_ARGS_SIZE
    };
    let mut b: Vec<u8> = copy_range(bytes.as_slice(), 0, copy_len);
    append_zeros(&mut b, CLONE_ARGS_SIZE - copy_len);
    assert(b@ =~= padded(bytes@));
    let mut i: usize = CLONE_ARGS_SIZE;
    while i < bytes.len()
        invariant
            raw == Some(*bytes),
            CLONE_ARGS_MIN_SIZE <= size <= CLONE_ARGS_MAX_COPY,
            args_ptr != 0,
            CLONE_ARGS_SIZE <= i,
            forall|j: int| CLONE_ARGS_SIZE <= j < i && j < bytes.len() ==> bytes@[j] == 0,
        decreases bytes.len() - i,
    {
        if bytes[i] != 0 {
            assert(CLONE_ARGS_SIZE <= i < bytes@.len() && bytes@[i as int] != 0);
            return Err(E2BIG);
        }
        i += 1;
    }
    assert(!uses_unknown(bytes@));
    let s = b.as_slice();
    Ok(
        Clone3Args {
            flags: read_le64(s, 0),
            pidfd: read_le64(s, 8),
            child_tid: read_le64(s, 16),
            parent_tid: read_le64(s, 24),
            exit_signal: read_le64(s, 32),
            stack: read_le64(s, 40),
            stack_size: read_le64(s, 48),
            tls: read_le64(s, 56),
            set_tid: read_le64(s, 64),
            set_tid_size: read_le64(s, 72),
            cgroup: read_le64(s, 80),
        },
    )
}

/// Why an argument block is refused.
pub open spec fn clone3_rejects(a: Clone3Args, size: usize, cgroup: CgroupLookup) -> Option<
    isize,
> {
    if flagged(a.flags, CLONE_SIGNAL_MASK) || a.exit_signal > RT_SIG_MAX {
        Some(EINVAL)
    } else if flagged(a.flags, CLONE_DETACHED) || flagged(a.flags, !SUPPORTED_CLONE3_FLAGS) {
        Some(EINVAL)
    } else if flagged(a.flags, CLONE_THREAD | CLONE_PARENT) && a.exit_signal != 0 {
        Some(EINVAL)
    } else if (a.stack == 0) != (a.stack_size == 0) {
        Some(EINVAL)
    } else if a.set_tid != 0 || a.set_tid_size != 0 {
        Some(EINVAL)
    } else if a.flags & (CLONE_PIDFD | CLONE_PARENT_SETTID) == CLONE_PIDFD | CLONE_PARENT_SETTID
        && a.pidfd == a.parent_tid {
        Some(EINVAL)
    } else if flagged(a.flags, CLONE_PIDFD) && a.pidfd == 0 {
        Some(EFAULT)
    } else if flagged(a.flags, CLONE_PIDFD) && flagged(a.flags, CLONE_THREAD) {
        Some(EINVAL)
    } else if flagged(a.flags, CLONE_INTO_CGROUP) && size < CLONE_ARGS_SIZE {
        Some(EINVAL)
    } else if flagged(a.flags, CLONE_INTO_CGROUP) && cgroup is NoFile {
        Some(EBADF)
    } else if flagged(a.flags, CLONE_INTO_CGROUP) && cgroup is NotCgroup {
        Some(cgroup->NotCgroup_0)
    } else if a.stack + a.stack_size > u64::MAX {
        Some(EINVAL)
    } else {
        None
    }
}

/// The request that an argument block makes. The stack pointer starts at the
/// end of the given area.
pub open spec fn clone3_request(a: Clone3Args) -> CloneRequest {
    CloneRequest {
        flags: a.flags | a.exit_signal,
        stack: if a.stack == 0 {
            0
        } else {
            (a.stack + a.stack_size) as u64
        },
        parent_tid: a.parent_tid,
        tls: a.tls,
        child_tid: a.child_tid,
        into_cgroup: flagged(a.flags, CLONE_INTO_CGROUP),
        pidfd_ptr: if flagged(a.flags, CLONE_PIDFD) {
            Some(a.pidfd)
        } else {
            None
        },
        allow_detached_null_stack: true,
    }
}

/// The exit signal of a valid block arrives unchanged in the low byte of the
/// flags, and the other flags are those of the block.
pub proof fn law_exit_signal_survives(a: Clone3Args, size: usize, cgroup: CgroupLookup)
    requires
        clone3_rejects(a, size, cgroup) is None,
    ensures
        clone3_request(a).flags & CLONE_SIGNAL_MASK == a.exit_signal,
        clone3_request(a).flags & !CLONE_SIGNAL_MASK == a.flags,
{
    let f = a.flags;
    let x = a.exit_signal;
    assert((f | x) & 0xff == x && (f | x) & !0xffu64 == f) by (bit_vector)
        requires
            f & 0xff == 0,
            x <= 64,
    ;
}

/// Checks an argument block and makes the request.
pub fn parse_clone3(a: &Clone3Args, size: usize, cgroup: CgroupLookup) -> (r: Result<
    CloneRequest,
    isize,
>)
    ensures
        match r {
            Ok(req) => clone3_rejects(*a, size, cgroup) is None && req == clone3_request(*a),
            Err(e) => clone3_rejects(*a, size, cgroup) == Some(e),
        },
{
    let flags: u64 = a.flags;
    if (flags & CLONE_SIGNAL_MASK) != 0 || a.exit_signal > RT_SIG_MAX as u64 {
        return Err(EINVAL);
    }
    if (flags & CLONE_DETACHED) != 0 || (flags & !SUPPORTED_CLONE3_FLAGS) != 0 {
        return Err(EINVAL);
    }
    if (flags & (CLONE_THREAD | CLONE_PARENT)) != 0 && a.exit_signal != 0 {
        return Err(EINVAL);
    }
    if (a.stack == 0) != (a.stack_size == 0) {
        return Err(EINVAL);
    }
    if a.set_tid != 0 || a.set_tid_size != 0 {
        return Err(EINVAL);
    }
    if (flags & (CLONE_PIDFD | CLONE_PARENT_SETTID)) == (CLONE_PIDFD | CLONE_PARENT_SETTID)
        && a.pidfd == a.parent_tid {
        return Err(EINVAL);
    }
    let mut pidfd_ptr: Option<u64> = None;
    if (flags & CLONE_PIDFD) != 0 {
        if a.pidfd == 0 {
            return Err(EFAULT);
        }
        if (flags & CLONE_THREAD) != 0 {
            return Err(EINVAL);
        }
        pidfd_ptr = Some(a.pidfd);
    }
    let into_cgroup = (flags & CLONE_INTO_CGROUP) != 0;
    if into_cgroup {
        if size < CLONE_ARGS_SIZE {
            return Err(EINVAL);
        }
        match cgroup {
            CgroupLookup::NoFile => {
                return Err(EBADF);
            },
            CgroupLookup::NotCgroup(e) => {
                return Err(e);
            },
            CgroupLookup::Target => {},
        }
    }
    let stack: u64 = if a.stack == 0 {
        0
    } else {
        match a.stack.checked_add(a.stack_size) {
            Some(sp) => sp,
            None => {
                return Err(EINVAL);
            },
        }
    };
    Ok(
        CloneRequest {
            flags: flags | a.exit_signal,
            stack,
            parent_tid: a.parent_tid,
            tls: a.tls,
            child_tid: a.child_tid,
            into_cgroup,
            pidfd_ptr,
            allow_detached_null_stack: true,
        },
    )
}

/// `clone3`: reads and checks the argument block and lists the steps.
///
/// `cgroup` is what the descriptor in the block refers to; it matters only if
/// the block asks for a control group.
pub fn syscall_clone3(
    args_ptr: u64,
    size: usize,
    raw: &Option<Vec<u8>>,
    cgroup: CgroupLookup,
    c: &CloneCaller,
) -> (plan: Result<Vec<CloneAction>, isize>)
    requires
        raw matches Some(v) ==> v.len() == size,
    ensures
        ({
            let bad = args_error(args_ptr, size, opt_view(*raw));
            let a = decoded(raw->0@);
            match bad {
                Some(e) => plan == Err::<Vec<CloneAction>, isize>(e),
                None => match clone3_rejects(a, size, cgroup) {
                    Some(e) => plan == Err::<Vec<CloneAction>, isize>(e),
                    None => match plan {
                        Ok(actions) => clone_rejects(clone3_request(a), *c) is None && actions@
                            == clone_actions(clone3_request(a)),
                        Err(e) => clone_rejects(clone3_request(a), *c) == Some(e),
                    },
                },
            }
        }),
{
    let args = match read_clone3_args(args_ptr, size, raw) {
        Ok(args) => args,
        Err(e) => {
            return Err(e);
        },
    };
    let request = match parse_clone3(&args, size, cgroup) {
        Ok(request) => request,
        Err(e) => {
            return Err(e);
        },
    };
    clone_from_parts(&request, c)
}

} // verus!
