//! Sockets.

pub mod optval;
pub mod setsockopt;
pub mod getsockopt;
pub mod sockopt_laws;
pub mod unix_addr;
pub mod unix_socket;
pub mod unix_table;
pub mod unix_connect;
pub mod unix_laws;
pub mod sockname;
pub mod wireguard;
