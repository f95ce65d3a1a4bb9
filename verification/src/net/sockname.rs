//! Addresses of a socket's two ends, and closing its directions.

use vstd::prelude::*;
use crate::errno::{EFAULT, EINVAL, ENOTCONN, ENOTSOCK, EOPNOTSUPP};
use crate::net::setsockopt::SocketKind;

verus! {

pub const SHUT_RD: usize = 0;
pub const SHUT_WR: usize = 1;
pub const SHUT_RDWR: usize = 2;

/// An IPv4 address and a port.
#[derive(Clone, Copy, PartialEq, Eq, Structural)]
pub struct Endpoint {
    pub ip: u32,
    pub port: u16,
}

/// What is known of the ends of a socket.
#[derive(Clone, Copy)]
pub struct EndFacts {
    pub kind: SocketKind,
    /// A local socket is connected; its other end need not have a name.
    pub unix_connected: bool,
    /// A netlink socket was connected.
    pub netlink_peer: bool,
    pub raw_local: u32,
    pub raw_peer: Option<u32>,
    /// The local end of a TCP connection.
    pub tcp_own: Option<Endpoint>,
    /// The local end of a TCP socket that listens.
    pub tcp_listening: Option<Endpoint>,
    pub udp_own: Option<Endpoint>,
    /// The other end of a TCP connection that is established.
    pub tcp_peer: Option<Endpoint>,
    pub udp_peer: Option<Endpoint>,
}

/// Which address a call hands out.
#[derive(Clone, Copy, PartialEq, Eq, Structural)]
pub enum AddrChoice {
    /// The name that a local socket is bound to, or none.
    UnixOwn,
    /// The name of the other end of a local socket, or none.
    UnixPeer,
    /// A local address without a name.
    UnixNone,
    NetlinkOwn,
    NetlinkPeer,
    Link,
    /// An IPv4 address.
    Inet(Endpoint),
    /// An address in the family of the socket.
    InDomain(Endpoint),
}

/// The address of a socket's own end. Of a TCP socket the connection comes
/// before the place it listens at.
pub open spec fn own_address(f: EndFacts) -> Result<AddrChoice, isize> {
    match f.kind {
        SocketKind::Unix => Ok(AddrChoice::UnixOwn),
        SocketKind::Pair => Ok(AddrChoice::UnixNone),
        SocketKind::Netlink => Ok(AddrChoice::NetlinkOwn),
        SocketKind::Raw => Ok(AddrChoice::Inet(Endpoint { ip: f.raw_local, port: 0 })),
        SocketKind::Packet => Ok(AddrChoice::Link),
        SocketKind::Net => match (f.tcp_own, f.tcp_listening, f.udp_own) {
            (Some(e), _, _) => Ok(AddrChoice::InDomain(e)),
            (None, Some(e), _) => Ok(AddrChoice::InDomain(e)),
            (None, None, Some(e)) => Ok(AddrChoice::InDomain(e)),
            (None, None, None) => Err(ENOTCONN),
        },
        _ => Err(ENOTSOCK),
    }
}

/// The address of a socket's other end.
pub open spec fn peer_address(f: EndFacts) -> Result<AddrChoice, isize> {
    match f.kind {
        SocketKind::Unix => if f.unix_connected {
            Ok(AddrChoice::UnixPeer)
        } else {
            Err(ENOTCONN)
        },
        SocketKind::Pair => Ok(AddrChoice::UnixNone),
        SocketKind::Netlink => if f.netlink_peer {
            Ok(AddrChoice::NetlinkPeer)
        } else {
            Err(ENOTCONN)
        },
        SocketKind::Raw => match f.raw_peer {
            Some(ip) => Ok(AddrChoice::Inet(Endpoint { ip, port: 0 })),
            None => Err(ENOTCONN),
        },
        SocketKind::Net => match (f.tcp_peer, f.udp_peer) {
            (Some(e), _) => Ok(AddrChoice::InDomain(e)),
            (None, Some(e)) => Ok(AddrChoice::InDomain(e)),
            (None, None) => Err(ENOTCONN),
        },
        _ => Err(ENOTSOCK),
    }
}

/// Why a call fails before the socket is looked at, in this order: a missing
/// pointer, then a descriptor that stands for nothing.
pub open spec fn early_failure(addr: usize, addrlen: usize, file: Result<(), isize>) -> Option<
    isize,
> {
    if addr == 0 || addrlen == 0 {
        Some(EFAULT)
    } else {
        match file {
            Err(e) => Some(e),
            Ok(_) => None,
        }
    }
}

/// Chooses the address of a socket's own end.
pub fn syscall_getsockname(
    addr: usize,
    addrlen: usize,
    file: Result<(), isize>,
    f: &EndFacts,
) -> (r: Result<AddrChoice, isize>)
    ensures
        r == match early_failure(addr, addrlen, file) {
            Some(e) => Err(e),
            None => own_address(*f),
        },
{
    if addr == 0 || addrlen == 0 {
        return Err(EFAULT);
    }
    if let Err(e) = file {
        return Err(e);
    }
    match f.kind {
        SocketKind::Unix => Ok(AddrChoice::UnixOwn),
        SocketKind::Pair => Ok(AddrChoice::UnixNone),
        SocketKind::Netlink => Ok(AddrChoice::NetlinkOwn),
        SocketKind::Raw => Ok(AddrChoice::Inet(Endpoint { ip: f.raw_local, port: 0 })),
        SocketKind::Packet => Ok(AddrChoice::Link),
        SocketKind::Net => {
            if let Some(e) = f.tcp_own {
                return Ok(AddrChoice::InDomain(e));
            }
            if let Some(e) = f.tcp_listening {
                return Ok(AddrChoice::InDomain(e));
            }
            if let Some(e) = f.udp_own {
                return Ok(AddrChoice::InDomain(e));
            }
            Err(ENOTCONN)
        },
        _ => Err(ENOTSOCK),
    }
}

/// Chooses the address of a socket's other end.
pub fn syscall_getpeername(
    addr: usize,
    addrlen: usize,
    file: Result<(), isize>,
    f: &EndFacts,
) -> (r: Result<AddrChoice, isize>)
    ensures
        r == match early_failure(addr, addrlen, file) {
            Some(e) => Err(e),
            None => peer_address(*f),
        },
{
    if addr == 0 || addrlen == 0 {
        return Err(EFAULT);
    }
    if let Err(e) = file {
        return Err(e);
    }
    match f.kind {
        SocketKind::Unix => if f.unix_connected {
            Ok(AddrChoice::UnixPeer)
        } else {
            Err(ENOTCONN)
        },
        SocketKind::Pair => Ok(AddrChoice::UnixNone),
        SocketKind::Netlink => if f.netlink_peer {
            Ok(AddrChoice::NetlinkPeer)
        } else {
            Err(ENOTCONN)
        },
        SocketKind::Raw => match f.raw_peer {
            Some(ip) => Ok(AddrChoice::Inet(Endpoint { ip, port: 0 })),
            None => Err(ENOTCONN),
        },
        SocketKind::Net => {
            if let Some(e) = f.tcp_peer {
                return Ok(AddrChoice::InDomain(e));
            }
            if let Some(e) = f.udp_peer {
                return Ok(AddrChoice::InDomain(e));
            }
            Err(ENOTCONN)
        },
        _ => Err(ENOTSOCK),
    }
}

/// Why a socket is not shut down: the direction is looked at first, then the
/// descriptor, then what it stands for.
pub open spec fn shutdown_error(how: usize, file: Result<(), isize>, kind: SocketKind) -> Option<
    isize,
> {
    if how > SHUT_RDWR {
        Some(EINVAL)
    } else {
        match file {
            Err(e) => Some(e),
            Ok(_) => match kind {
                SocketKind::Netlink | SocketKind::Packet => Some(EOPNOTSUPP),
                SocketKind::Vsock => Some(ENOTCONN),
                SocketKind::NotSocket => Some(ENOTSOCK),
                _ => None,
            },
        }
    }
}

/// Decides whether a socket is shut down. If so, the socket does it and its
/// answer is returned.
pub fn syscall_shutdown(how: usize, file: Result<(), isize>, kind: SocketKind) -> (r: Result<
    (),
    isize,
>)
    ensures
        match r {
            Ok(_) => shutdown_error(how, file, kind) is None,
            Err(e) => shutdown_error(how, file, kind) == Some(e),
        },
{
    if how != SHUT_RD && how != SHUT_WR && how != SHUT_RDWR {
        return Err(EINVAL);
    }
    if let Err(e) = file {
        return Err(e);
    }
    match kind {
        SocketKind::Netlink | SocketKind::Packet => Err(EOPNOTSUPP),
        SocketKind::Vsock => Err(ENOTCONN),
        SocketKind::NotSocket => Err(ENOTSOCK),
        _ => Ok(()),
    }
}

} // verus!
