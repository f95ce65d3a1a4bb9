//! Negative errno values, as the syscall entry points return them.

use vstd::prelude::*;

verus! {

pub const EPERM: isize = -1;
pub const ENOENT: isize = -2;
pub const ESRCH: isize = -3;
pub const EINTR: isize = -4;
pub const EIO: isize = -5;
pub const E2BIG: isize = -7;
pub const ENOEXEC: isize = -8;
pub const EBADF: isize = -9;
pub const ECHILD: isize = -10;
pub const EAGAIN: isize = -11;
pub const EACCES: isize = -13;
pub const EFAULT: isize = -14;
pub const EBUSY: isize = -16;
pub const EEXIST: isize = -17;
pub const ENODEV: isize = -19;
pub const ENOTDIR: isize = -20;
pub const EINVAL: isize = -22;
pub const EMFILE: isize = -24;
pub const ETXTBSY: isize = -26;
pub const ENOSPC: isize = -28;
pub const EPIPE: isize = -32;
pub const EDOM: isize = -33;
pub const ENAMETOOLONG: isize = -36;
pub const ENOTSOCK: isize = -88;
pub const EMSGSIZE: isize = -90;
pub const ENOPROTOOPT: isize = -92;
pub const EPROTONOSUPPORT: isize = -93;
pub const EOPNOTSUPP: isize = -95;
pub const EPFNOSUPPORT: isize = -96;
pub const EAFNOSUPPORT: isize = -97;
pub const EADDRINUSE: isize = -98;
pub const EADDRNOTAVAIL: isize = -99;
pub const EISCONN: isize = -106;
pub const ENOTCONN: isize = -107;
pub const ETIMEDOUT: isize = -110;
pub const ECONNREFUSED: isize = -111;
/// Asks the trap path to run the syscall again after the handler returns.
pub const ERESTARTSYS: isize = -512;

} // verus!
