//! Process creation, program execution, waiting and tracing.

pub mod table;
pub mod queue;
pub mod family;
pub mod signals;
pub mod wait;
pub mod waitid;
pub mod wait_laws;
pub mod ptrace;
pub mod trace_laws;
pub mod clone;
pub mod clone3;
pub mod clone_laws;
pub mod adoption;
pub mod user_strings;
pub mod exec_args;
pub mod elf;
pub mod shebang;
pub mod exec_files;
pub mod exec;
pub mod exec_laws;
pub mod executing;
pub mod diagnostics;
pub mod family_laws;
