//! Asking for a notification when a message arrives at an empty queue.

use vstd::prelude::*;
use crate::errno::{EBADF, EFAULT, EINVAL};
use crate::posix_mq::abi::valid_realtime_signal;
use crate::process::table::RT_SIG_MAX;

verus! {

pub const SIGEV_SIGNAL: i32 = 0;
/// Nothing is sent; the registration only keeps others out.
pub const SIGEV_NONE: i32 = 1;
/// A cookie is sent to a socket.
pub const SIGEV_THREAD: i32 = 2;
/// A signal is sent to one thread.
pub const SIGEV_THREAD_ID: i32 = 4;
/// The code of a signal that a message queue sends.
pub const SI_MESGQ: i32 = -3;
/// The socket learns of a message.
pub const MQ_NOTIFY_WOKENUP: u8 = 1;
/// The socket learns that the registration ended.
pub const MQ_NOTIFY_REMOVED: u8 = 2;

/// How a process wants to be notified, as user memory holds it.
#[derive(Clone, Copy)]
pub struct Sigevent {
    pub sigev_value: usize,
    pub sigev_signo: i32,
    pub sigev_notify: i32,
    pub sigev_tid: usize,
}

/// A registered notification.
#[derive(Clone, Copy)]
pub struct NotifyRegistration {
    pub owner_pid: usize,
    pub notify: i32,
    /// A signal, or for a socket its descriptor.
    pub signo: i32,
    pub sig_value: usize,
    pub tid: Option<usize>,
    pub thread_sockfd: usize,
    pub thread_cookie: [u8; 32],
}

/// What is sent when a registration fires or ends.
#[derive(Clone, Copy)]
pub enum Notification {
    Nothing,
    /// A cookie and an event number, to a socket of a process.
    Cookie { pid: usize, sockfd: usize, cookie: [u8; 32], event: u8 },
    /// A signal with its information, to a process or one of its threads.
    Signal {
        pid: usize,
        tid: Option<usize>,
        signo: usize,
        sender_pid: i32,
        sender_uid: u32,
        code: i32,
        value: usize,
    },
}

pub open spec fn signal_ok(signo: i32) -> bool {
    0 < signo <= RT_SIG_MAX
}

/// The thread that a request names.
pub open spec fn requested_tid(ev: Sigevent) -> usize {
    ev.sigev_tid & 0x3fff_ffff
}

/// Why a request is refused; `sock` is 0 if the socket that it names can be
/// used, and `cookie` is what its value points to.
pub open spec fn notify_error(ev: Sigevent, sock: isize, cookie: Option<[u8; 32]>) -> Option<
    isize,
> {
    if ev.sigev_notify == SIGEV_NONE {
        None
    } else if ev.sigev_notify == SIGEV_SIGNAL {
        if signal_ok(ev.sigev_signo) {
            None
        } else {
            Some(EINVAL)
        }
    } else if ev.sigev_notify == SIGEV_THREAD {
        if ev.sigev_signo < 0 {
            Some(EBADF)
        } else if sock != 0 {
            Some(sock)
        } else if cookie is None {
            Some(EFAULT)
        } else {
            None
        }
    } else if ev.sigev_notify == SIGEV_THREAD_ID {
        if signal_ok(ev.sigev_signo) && requested_tid(ev) != 0 {
            None
        } else {
            Some(EINVAL)
        }
    } else {
        Some(EINVAL)
    }
}

/// The 32 zero bytes of a registration without a cookie.
pub open spec fn no_cookie(c: [u8; 32]) -> bool {
    forall|i: int| 0 <= i < 32 ==> #[trigger] c@[i] == 0
}

/// `reg` is the registration that a request of process `pid` makes.
pub open spec fn registers(
    ev: Sigevent,
    pid: usize,
    cookie: Option<[u8; 32]>,
    reg: NotifyRegistration,
) -> bool {
    let thread = ev.sigev_notify == SIGEV_THREAD;
    &&& reg.owner_pid == pid
    &&& reg.notify == ev.sigev_notify
    &&& reg.signo == if ev.sigev_notify == SIGEV_NONE {
        0
    } else {
        ev.sigev_signo
    }
    &&& reg.sig_value == ev.sigev_value
    &&& reg.tid == if ev.sigev_notify == SIGEV_THREAD_ID {
        Some(requested_tid(ev))
    } else {
        None
    }
    &&& reg.thread_sockfd == if thread {
        ev.sigev_signo as usize
    } else {
        0
    }
    &&& if thread {
        Some(reg.thread_cookie) == cookie
    } else {
        no_cookie(reg.thread_cookie)
    }
}

/// Reads a request for a notification. `None` asks for the end of one.
///
/// `ev` is the request in memory, `sock` the answer of the socket that it names
/// (0 if it can be used), and `cookie` what its value points to; each as far as
/// it could be had.
pub fn parse_notify_registration(
    notification: usize,
    ev: Option<Sigevent>,
    pid: usize,
    sock: isize,
    cookie: Option<[u8; 32]>,
) -> (r: Result<Option<NotifyRegistration>, isize>)
    ensures
        match r {
            Ok(None) => notification == 0,
            Ok(Some(reg)) => notification != 0 && (ev matches Some(e) && notify_error(
                e,
                sock,
                cookie,
            ) is None && registers(e, pid, cookie, reg)),
            Err(e) => notification != 0 && match ev {
                None => e == EFAULT,
                Some(x) => notify_error(x, sock, cookie) == Some(e),
            },
        },
{
    if notification == 0 {
        return Ok(None);
    }
    let ev = match ev {
        Some(ev) => ev,
        None => {
            return Err(EFAULT);
        },
    };
    let mut reg = NotifyRegistration {
        owner_pid: pid,
        notify: ev.sigev_notify,
        signo: ev.sigev_signo,
        sig_value: ev.sigev_value,
        tid: None,
        thread_sockfd: 0,
        thread_cookie: [0;32],
    };
    if ev.sigev_notify == SIGEV_NONE {
        reg.signo = 0;
        return Ok(Some(reg));
    }
    if ev.sigev_notify == SIGEV_SIGNAL || ev.sigev_notify == SIGEV_THREAD_ID {
        if ev.sigev_signo <= 0 || ev.sigev_signo as usize > RT_SIG_MAX {
            return Err(EINVAL);
        }
        if ev.sigev_notify == SIGEV_THREAD_ID {
            let tid: usize = ev.sigev_tid & 0x3fff_ffff;
            if tid == 0 {
                return Err(EINVAL);
            }
            reg.tid = Some(tid);
        }
        return Ok(Some(reg));
    }
    if ev.sigev_notify == SIGEV_THREAD {
        if ev.sigev_signo < 0 {
            return Err(EBADF);
        }
        if sock != 0 {
            return Err(sock);
        }
        match cookie {
            Some(c) => {
                reg.thread_sockfd = ev.sigev_signo as usize;
                reg.thread_cookie = c;
                return Ok(Some(reg));
            },
            None => {
                return Err(EFAULT);
            },
        }
    }
    Err(EINVAL)
}

/// What is sent when a registration ends without having fired.
pub open spec fn removal_of(reg: NotifyRegistration) -> Notification {
    if reg.notify == SIGEV_THREAD {
        Notification::Cookie {
            pid: reg.owner_pid,
            sockfd: reg.thread_sockfd,
            cookie: reg.thread_cookie,
            event: MQ_NOTIFY_REMOVED,
        }
    } else {
        Notification::Nothing
    }
}

/// What is sent when a registration fires.
pub open spec fn delivery_of(reg: NotifyRegistration, sender_pid: i32, sender_uid: u32) -> Notification {
    if reg.notify == SIGEV_THREAD {
        Notification::Cookie {
            pid: reg.owner_pid,
            sockfd: reg.thread_sockfd,
            cookie: reg.thread_cookie,
            event: MQ_NOTIFY_WOKENUP,
        }
    } else if signal_ok(reg.signo) {
        Notification::Signal {
            pid: reg.owner_pid,
            tid: reg.tid,
            signo: reg.signo as usize,
            sender_pid,
            sender_uid,
            code: SI_MESGQ,
            value: reg.sig_value,
        }
    } else {
        Notification::Nothing
    }
}

/// A registration that only keeps others out never sends anything.
pub proof fn law_none_sends_nothing(
    ev: Sigevent,
    pid: usize,
    cookie: Option<[u8; 32]>,
    reg: NotifyRegistration,
    sender_pid: i32,
    sender_uid: u32,
)
    requires
        ev.sigev_notify == SIGEV_NONE,
        registers(ev, pid, cookie, reg),
    ensures
        delivery_of(reg, sender_pid, sender_uid) is Nothing,
        removal_of(reg) is Nothing,
{
}

/// Says what is sent when a registration ends without having fired.
pub fn send_removed_if_thread(reg: &NotifyRegistration) -> (r: Notification)
    ensures
        r == removal_of(*reg),
{
    if reg.notify == SIGEV_THREAD {
        Notification::Cookie {
            pid: reg.owner_pid,
            sockfd: reg.thread_sockfd,
            cookie: reg.thread_cookie,
            event: MQ_NOTIFY_REMOVED,
        }
    } else {
        Notification::Nothing
    }
}

/// Says what is sent when a registration fires.
pub fn deliver_notification(
    reg: &NotifyRegistration,
    sender_pid: i32,
    sender_uid: u32,
) -> (r: Notification)
    ensures
        r == delivery_of(*reg, sender_pid, sender_uid),
{
    if reg.notify == SIGEV_THREAD {
        return Notification::Cookie {
            pid: reg.owner_pid,
            sockfd: reg.thread_sockfd,
            cookie: reg.thread_cookie,
            event: MQ_NOTIFY_WOKENUP,
        };
    }
    if reg.signo <= 0 {
        return Notification::Nothing;
    }
    let signo: usize = reg.signo as usize;
    if !valid_realtime_signal(signo) {
        return Notification::Nothing;
    }
    Notification::Signal {
        pid: reg.owner_pid,
        tid: reg.tid,
        signo,
        sender_pid,
        sender_uid,
        code: SI_MESGQ,
        value: reg.sig_value,
    }
}

} // verus!
