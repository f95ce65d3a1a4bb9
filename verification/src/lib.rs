//! Syscall-layer logic of a small Unix-like kernel.

pub mod errno;
pub mod bytes;
pub mod text;
pub mod process;
pub mod posix_mq;
pub mod robust_list;
pub mod robust_laws;
pub mod net;
