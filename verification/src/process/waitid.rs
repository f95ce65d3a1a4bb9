//! `waitid`: like `wait4`, with a structured result and a choice of events.

use vstd::prelude::*;
use crate::bytes::{le32_bytes, put_le32};
use crate::errno::{EAGAIN, EBADF, ECHILD, EFAULT, EINVAL};
use crate::process::family::{detached, lemma_reslotted, remove_child_at, reslotted};
use crate::process::queue::{enqueue_waiter_once, remove_wait_queue_entry, without};
use crate::process::table::{
    find, lemma_find, lemma_find_same_pids, lemma_update_wf, pid2process, remove_from_pid2process,
    table_wf, ProcRecord, SIGCHLD_NUM, SIGCONT_NUM, SIGSTOP_NUM,
};
use crate::process::wait::{
    reaped_cpu, reported_stop, sat_sum, WaitCaller, WaitEvent, WCONTINUED, WNOHANG,
};

verus! {

pub const P_ALL: usize = 0;
pub const P_PID: usize = 1;
pub const P_PGID: usize = 2;
/// The process is named by a file descriptor.
pub const P_PIDFD: usize = 3;
pub const WSTOPPED: usize = 0x0000_0002;
pub const WEXITED: usize = 0x0000_0004;
/// Report the event and leave it in place.
pub const WNOWAIT: usize = 0x0100_0000;
pub const WAITID_ALLOWED: usize = 0x0100_000f;
pub const CLD_EXITED: i32 = 1;
pub const CLD_KILLED: i32 = 2;
pub const CLD_DUMPED: i32 = 3;
pub const CLD_STOPPED: i32 = 5;
pub const CLD_CONTINUED: i32 = 6;

/// What the descriptor of a `P_PIDFD` call refers to.
#[derive(Clone, Copy)]
pub enum PidfdLookup {
    /// No file, or a file of another type.
    NotPidfd,
    /// The process was already released.
    Gone,
    Target { pid: usize, nonblock: bool },
}

/// The fields of `siginfo_t` that a wait fills in; all others are zero.
#[derive(Clone, Copy)]
pub struct WaitInfo {
    pub si_signo: i32,
    pub si_code: i32,
    pub si_pid: i32,
    pub si_uid: u32,
    pub si_status: i32,
}

impl Default for WaitInfo {
    fn default() -> (r: WaitInfo)
        ensures
            r == (WaitInfo { si_signo: 0, si_code: 0, si_pid: 0, si_uid: 0, si_status: 0 }),
    {
        WaitInfo { si_signo: 0, si_code: 0, si_pid: 0, si_uid: 0, si_status: 0 }
    }
}

/// The size of `siginfo_t`.
pub const SIGINFO_SIZE: usize = 128;

/// `siginfo_t` as it lies in memory: the numbers are little endian, and what a
/// wait does not fill in is zero.
pub open spec fn siginfo_bytes(i: WaitInfo) -> Seq<u8> {
    le32_bytes(i.si_signo as u32) + le32_bytes(0) + le32_bytes(i.si_code as u32) + le32_bytes(0)
        + le32_bytes(i.si_pid as u32) + le32_bytes(i.si_uid) + le32_bytes(i.si_status as u32)
        + Seq::new(100, |k: int| 0u8)
}

/// The bytes that are written for the caller.
pub fn write_siginfo(i: &WaitInfo) -> (out: Vec<u8>)
    ensures
        out@ == siginfo_bytes(*i),
        out@.len() == SIGINFO_SIZE,
{
    let mut out: Vec<u8> = Vec::new();
    put_le32(&mut out, i.si_signo as u32);
    put_le32(&mut out, 0);
    put_le32(&mut out, i.si_code as u32);
    put_le32(&mut out, 0);
    put_le32(&mut out, i.si_pid as u32);
    put_le32(&mut out, i.si_uid);
    put_le32(&mut out, i.si_status as u32);
    let ghost head = out@;
    let mut k: usize = 0;
    while k < 100
        invariant
            k <= 100,
            out@ == head + Seq::new(k as nat, |j: int| 0u8),
        decreases 100 - k,
    {
        out.push(0);
        k += 1;
        assert(out@ =~= head + Seq::new(k as nat, |j: int| 0u8));
    }
    assert(out@ =~= siginfo_bytes(*i));
    out
}

/// Which children a call of `waitid` asks for.
#[derive(Clone, Copy)]
pub struct IdQuery {
    pub idtype: usize,
    pub id: usize,
    pub options: usize,
    pub pidfd_pid: usize,
    pub caller_pgid: usize,
}

/// What one round of `waitid` came to.
pub enum WaitidStep {
    Fail(isize),
    /// The call returns 0 with this information.
    Info { info: WaitInfo, reaped: Option<usize> },
    /// The call returns 0 with zeroed information.
    NoEvent,
    /// The task is queued: sleep, then start over.
    Block,
}

/// The rejection of a call before any child is looked at.
pub open spec fn waitid_rejects(
    idtype: usize,
    id: usize,
    infop: usize,
    options: usize,
    pidfd: PidfdLookup,
) -> Option<isize> {
    if options & !WAITID_ALLOWED != 0 || options & (WEXITED | WSTOPPED | WCONTINUED) == 0 {
        Some(EINVAL)
    } else if infop == 0 {
        Some(EFAULT)
    } else if idtype == P_PID && id == 0 {
        Some(EINVAL)
    } else if idtype == P_PIDFD {
        match pidfd {
            PidfdLookup::NotPidfd => Some(EBADF),
            PidfdLookup::Gone => Some(ECHILD),
            PidfdLookup::Target { .. } => None,
        }
    } else {
        None
    }
}

/// Tells why a call is rejected before any signal or child is looked at.
pub fn waitid_refusal(
    idtype: usize,
    id: usize,
    infop: usize,
    options: usize,
    pidfd: PidfdLookup,
) -> (r: Option<isize>)
    ensures
        r == waitid_rejects(idtype, id, infop, options, pidfd),
{
    if (options & !WAITID_ALLOWED) != 0 {
        return Some(EINVAL);
    }
    if (options & (WEXITED | WSTOPPED | WCONTINUED)) == 0 {
        return Some(EINVAL);
    }
    if infop == 0 {
        return Some(EFAULT);
    }
    if idtype == P_PID && id == 0 {
        return Some(EINVAL);
    }
    if idtype == P_PIDFD {
        return match pidfd {
            PidfdLookup::NotPidfd => Some(EBADF),
            PidfdLookup::Gone => Some(ECHILD),
            PidfdLookup::Target { .. } => None,
        };
    }
    None
}

/// The id picks the process.
pub open spec fn id_matches(r: ProcRecord, q: IdQuery) -> bool {
    if q.idtype == P_ALL {
        true
    } else if q.idtype == P_PID {
        r.pid == q.id
    } else if q.idtype == P_PGID {
        r.pgid == if q.id == 0 {
            q.caller_pgid
        } else {
            q.id
        }
    } else {
        r.pid == q.pidfd_pid
    }
}

/// The event that a child offers, among those asked for.
pub open spec fn id_event(r: ProcRecord, q: IdQuery) -> Option<WaitEvent> {
    if !id_matches(r, q) {
        None
    } else if q.options & WEXITED != 0 && r.is_zombie {
        Some(WaitEvent::Exited)
    } else if q.options & WSTOPPED != 0 && r.stopped && r.stop_pending {
        Some(WaitEvent::Stopped(reported_stop(r)))
    } else if q.options & WCONTINUED != 0 && r.continued {
        Some(WaitEvent::Continued)
    } else {
        None
    }
}

/// The first child, from slot `i` on, that has an event.
pub open spec fn first_id_event(
    procs: Seq<ProcRecord>,
    children: Seq<usize>,
    q: IdQuery,
    i: int,
) -> Option<(int, WaitEvent)>
    decreases children.len() - i,
{
    if i >= children.len() {
        None
    } else {
        let e = match find(procs, children[i]) {
            Some(k) => id_event(procs[k], q),
            None => None,
        };
        match e {
            Some(e) => Some((i, e)),
            None => first_id_event(procs, children, q, i + 1),
        }
    }
}

/// Some child is what the query asks for.
pub open spec fn any_id(procs: Seq<ProcRecord>, children: Seq<usize>, q: IdQuery) -> bool {
    exists|i: int|
        0 <= i < children.len() && (#[trigger] find(procs, children[i])) is Some && id_matches(
            procs[find(procs, children[i])->0],
            q,
        )
}

/// The information about an event.
pub open spec fn wait_info(r: ProcRecord, e: WaitEvent) -> WaitInfo {
    let (code, status) = match e {
        WaitEvent::Exited => if r.exit_code < 0 {
            (
                if r.dumped_core {
                    CLD_DUMPED
                } else {
                    CLD_KILLED
                },
                (-r.exit_code) as i32,
            )
        } else {
            (CLD_EXITED, r.exit_code & 0xff)
        },
        WaitEvent::Stopped(sig) => (CLD_STOPPED, sig),
        WaitEvent::Continued => (CLD_CONTINUED, SIGCONT_NUM as i32),
    };
    WaitInfo {
        si_signo: SIGCHLD_NUM as i32,
        si_code: code,
        si_pid: r.pid as i32,
        si_uid: r.uid,
        si_status: status,
    }
}

/// What a round comes to if the call is not rejected: what the signals ask for, an
/// event, or why there is none.
pub open spec fn waitid_step(
    procs: Seq<ProcRecord>,
    children: Seq<usize>,
    q: IdQuery,
    nonblock: bool,
    signal: Option<isize>,
) -> WaitidStep {
    match signal {
        Some(action) => WaitidStep::Fail(action),
        None => if q.idtype > P_PIDFD && children.len() > 0 {
            WaitidStep::Fail(EINVAL)
        } else {
            match first_id_event(procs, children, q, 0) {
                Some((i, e)) => WaitidStep::Info {
                    info: wait_info(procs[find(procs, children[i])->0], e),
                    reaped: if e is Exited && q.options & WNOWAIT == 0 {
                        Some(children[i])
                    } else {
                        None
                    },
                },
                None => if !any_id(procs, children, q) {
                    WaitidStep::Fail(ECHILD)
                } else if q.options & WNOHANG != 0 {
                    WaitidStep::NoEvent
                } else if q.idtype == P_PIDFD && nonblock {
                    WaitidStep::Fail(EAGAIN)
                } else {
                    WaitidStep::Block
                },
            }
        },
    }
}

/// The table after an event of the child in slot `i` was consumed.
pub open spec fn id_procs_after(
    procs: Seq<ProcRecord>,
    children: Seq<usize>,
    i: int,
    e: WaitEvent,
) -> Seq<ProcRecord> {
    let k = find(procs, children[i])->0;
    match e {
        WaitEvent::Exited => {
            let moved = reslotted(procs, children, i);
            moved.remove(find(moved, children[i])->0)
        },
        WaitEvent::Stopped(sig) => procs.update(
            k,
            ProcRecord { stop_pending: false, ..procs[k] },
        ),
        WaitEvent::Continued => procs.update(k, ProcRecord { continued: false, ..procs[k] }),
    }
}

/// The table after a round that is not rejected: an event that is reported is consumed,
/// unless it is to be left.
pub open spec fn waitid_procs(
    procs: Seq<ProcRecord>,
    children: Seq<usize>,
    q: IdQuery,
    signal: Option<isize>,
) -> Seq<ProcRecord> {
    match first_id_event(procs, children, q, 0) {
        Some((i, e)) => if signal is None && !(q.idtype > P_PIDFD && children.len() > 0) && q.options
            & WNOWAIT == 0 {
            id_procs_after(procs, children, i, e)
        } else {
            procs
        },
        None => procs,
    }
}

/// A call that leaves its event in place picks the same event as the call that
/// will consume it.
pub proof fn law_wnowait_picks_the_same_event(
    procs: Seq<ProcRecord>,
    children: Seq<usize>,
    q: IdQuery,
    i: int,
)
    requires
        0 <= i <= children.len(),
    ensures
        first_id_event(procs, children, IdQuery { options: q.options | WNOWAIT, ..q }, i)
            == first_id_event(procs, children, IdQuery { options: q.options & !WNOWAIT, ..q }, i),
    decreases children.len() - i,
{
    let o = q.options;
    assert((o | WNOWAIT) & WEXITED == (o & !WNOWAIT) & WEXITED && (o | WNOWAIT) & WSTOPPED == (o
        & !WNOWAIT) & WSTOPPED && (o | WNOWAIT) & WCONTINUED == (o & !WNOWAIT) & WCONTINUED)
        by (bit_vector);
    if i < children.len() {
        law_wnowait_picks_the_same_event(procs, children, q, i + 1);
    }
}

/// Looks through the children for an event.
fn scan_ids(procs: &Vec<ProcRecord>, children: &Vec<usize>, q: IdQuery) -> (r: (
    Option<(usize, usize, WaitEvent)>,
    bool,
))
    ensures
        match r.0 {
            Some((i, k, e)) => i < children.len() && k < procs.len() && first_id_event(
                procs@,
                children@,
                q,
                0,
            ) == Some((i as int, e)) && find(procs@, children@[i as int]) == Some(k as int),
            None => first_id_event(procs@, children@, q, 0) is None,
        },
        r.0 is None ==> r.1 == any_id(procs@, children@, q),
{
    let mut found: bool = false;
    let mut i: usize = 0;
    while i < children.len()
        invariant
            i <= children.len(),
            first_id_event(procs@, children@, q, 0) == first_id_event(
                procs@,
                children@,
                q,
                i as int,
            ),
            found == (exists|j: int|
                0 <= j < i && (#[trigger] find(procs@, children@[j])) is Some && id_matches(
                    procs@[find(procs@, children@[j])->0],
                    q,
                )),
        decreases children.len() - i,
    {
        if let Some(k) = pid2process(procs, children[i]) {
            let r = &procs[k];
            assert(find(procs@, children@[i as int]) == Some(k as int));
            let hit: bool = if q.idtype == P_ALL {
                true
            } else if q.idtype == P_PID {
                r.pid == q.id
            } else if q.idtype == P_PGID {
                let target: usize = if q.id == 0 {
                    q.caller_pgid
                } else {
                    q.id
                };
                r.pgid == target
            } else {
                r.pid == q.pidfd_pid
            };
            if hit {
                found = true;
                if (q.options & WEXITED) != 0 && r.is_zombie {
                    return (Some((i, k, WaitEvent::Exited)), true);
                }
                if (q.options & WSTOPPED) != 0 && r.stopped && r.stop_pending {
                    let sig: i32 = if r.stop_signal != 0 {
                        r.stop_signal
                    } else {
                        SIGSTOP_NUM as i32
                    };
                    return (Some((i, k, WaitEvent::Stopped(sig))), true);
                }
                if (q.options & WCONTINUED) != 0 && r.continued {
                    return (Some((i, k, WaitEvent::Continued)), true);
                }
            }
        }
        i += 1;
    }
    (None, found)
}

/// Fills in the information about an event.
fn make_info(r: &ProcRecord, e: WaitEvent) -> (info: WaitInfo)
    requires
        r.exit_code > i32::MIN,
    ensures
        info == wait_info(*r, e),
{
    let (code, status): (i32, i32) = match e {
        WaitEvent::Exited => {
            if r.exit_code < 0 {
                let sig: i32 = -r.exit_code;
                if r.dumped_core {
                    (CLD_DUMPED, sig)
                } else {
                    (CLD_KILLED, sig)
                }
            } else {
                (CLD_EXITED, r.exit_code & 0xff)
            }
        },
        WaitEvent::Stopped(sig) => (CLD_STOPPED, sig),
        WaitEvent::Continued => (CLD_CONTINUED, SIGCONT_NUM as i32),
    };
    WaitInfo {
        si_signo: SIGCHLD_NUM as i32,
        si_code: code,
        si_pid: r.pid as i32,
        si_uid: r.uid,
        si_status: status,
    }
}

/// One round of `waitid` for the process `caller`, on behalf of its thread
/// `task`.
///
/// `signal` is what the pending signals ask of the wait; they are looked at
/// before the children.
pub fn syscall_waitid(
    caller: &mut WaitCaller,
    procs: &mut Vec<ProcRecord>,
    task: usize,
    idtype: usize,
    id: usize,
    infop: usize,
    options: usize,
    pidfd: PidfdLookup,
    signal: Option<isize>,
) -> (r: WaitidStep)
    requires
        table_wf(old(procs)@),
    ensures
        ({
            let p0 = old(procs)@;
            let children = old(caller).children@;
            let idle = without(old(caller).wait_queue@, task);
            let (pidfd_pid, pidfd_nonblock) = match pidfd {
                PidfdLookup::Target { pid, nonblock } => (pid, nonblock),
                _ => (0usize, false),
            };
            let q = IdQuery { idtype, id, options, pidfd_pid, caller_pgid: old(caller).pgid };
            let event = first_id_event(p0, children, q, 0);
            let consumes = event is Some && options & WNOWAIT == 0;
            let rejected = waitid_rejects(idtype, id, infop, options, pidfd);
            let bad_type = idtype > P_PIDFD && children.len() > 0;
            if let Some(e) = rejected {
                &&& r == WaitidStep::Fail(e)
                &&& *final(caller) == *old(caller)
                &&& final(procs)@ == p0
            } else if signal is Some || bad_type || event is None {
                &&& r == if let Some(action) = signal {
                    WaitidStep::Fail(action)
                } else if bad_type {
                    WaitidStep::Fail(EINVAL)
                } else if !any_id(p0, children, q) {
                    WaitidStep::Fail(ECHILD)
                } else if options & WNOHANG != 0 {
                    WaitidStep::NoEvent
                } else if idtype == P_PIDFD && pidfd_nonblock {
                    WaitidStep::Fail(EAGAIN)
                } else {
                    WaitidStep::Block
                }
                &&& final(procs)@ == p0
                &&& final(caller).children@ == children
                &&& final(caller).exited_children@ == old(caller).exited_children@
                &&& final(caller).wait_queue@ == if r is Block {
                    idle.push(task)
                } else {
                    idle
                }
                &&& final(caller).child_cpu_time_ns == old(caller).child_cpu_time_ns
            } else {
                let (i, e) = event->0;
                let rec = p0[find(p0, children[i])->0];
                let reaps = consumes && e is Exited;
                &&& r == (WaitidStep::Info {
                    info: wait_info(rec, e),
                    reaped: if reaps {
                        Some(children[i])
                    } else {
                        None
                    },
                })
                &&& final(procs)@ == if consumes {
                    id_procs_after(p0, children, i, e)
                } else {
                    p0
                }
                &&& final(caller).children@ == if reaps {
                    detached(children, i)
                } else {
                    children
                }
                &&& final(caller).exited_children@ == if reaps {
                    without(old(caller).exited_children@, children[i])
                } else {
                    old(caller).exited_children@
                }
                &&& final(caller).wait_queue@ == idle
                &&& final(caller).child_cpu_time_ns == if reaps {
                    sat_sum(old(caller).child_cpu_time_ns, reaped_cpu(rec))
                } else {
                    old(caller).child_cpu_time_ns
                }
            }
        }),
        ({
            let (pidfd_pid, nonblock) = match pidfd {
                PidfdLookup::Target { pid, nonblock } => (pid, nonblock),
                _ => (0usize, false),
            };
            let q = IdQuery { idtype, id, options, pidfd_pid, caller_pgid: old(caller).pgid };
            waitid_rejects(idtype, id, infop, options, pidfd) is None ==> {
                &&& r == waitid_step(old(procs)@, old(caller).children@, q, nonblock, signal)
                &&& final(procs)@ == waitid_procs(old(procs)@, old(caller).children@, q, signal)
            }
        }),
        table_wf(final(procs)@),
        final(caller).pid == old(caller).pid,
        final(caller).pgid == old(caller).pgid,
        final(caller).tracee_count == old(caller).tracee_count,
{
    if let Some(e) = waitid_refusal(idtype, id, infop, options, pidfd) {
        return WaitidStep::Fail(e);
    }
    let (pidfd_pid, pidfd_nonblock): (usize, bool) = match pidfd {
        PidfdLookup::Target { pid, nonblock } => (pid, nonblock),
        _ => (0, false),
    };
    remove_wait_queue_entry(&mut caller.wait_queue, task);
    if let Some(action) = signal {
        return WaitidStep::Fail(action);
    }
    if idtype > P_PIDFD && caller.children.len() > 0 {
        return WaitidStep::Fail(EINVAL);
    }
    let ghost p0 = procs@;
    let ghost c0 = caller.children@;
    let q = IdQuery { idtype, id, options, pidfd_pid, caller_pgid: caller.pgid };
    let (event, any) = scan_ids(procs, &caller.children, q);
    if let Some((i, k, e)) = event {
        proof {
            lemma_find(p0, c0[i as int]);
        }
        let rec = procs[k];
        let info = make_info(&rec, e);
        if (options & WNOWAIT) != 0 {
            return WaitidStep::Info { info, reaped: None };
        }
        match e {
            WaitEvent::Exited => {
                let child: usize = remove_child_at(&mut caller.children, procs, i);
                remove_wait_queue_entry(&mut caller.exited_children, child);
                proof {
                    lemma_reslotted(p0, c0, i as int);
                    lemma_find_same_pids(p0, procs@, child, 0);
                }
                let cpu_ns: u64 = rec.cpu_time_ns.saturating_add(rec.child_cpu_time_ns);
                remove_from_pid2process(procs, child);
                caller.child_cpu_time_ns = caller.child_cpu_time_ns.saturating_add(cpu_ns);
                return WaitidStep::Info { info, reaped: Some(child) };
            },
            WaitEvent::Stopped(sig) => {
                procs[k].stop_pending = false;
                proof {
                    lemma_update_wf(p0, procs@);
                }
                return WaitidStep::Info { info, reaped: None };
            },
            WaitEvent::Continued => {
                procs[k].continued = false;
                proof {
                    lemma_update_wf(p0, procs@);
                }
                return WaitidStep::Info { info, reaped: None };
            },
        }
    }
    if !any {
        return WaitidStep::Fail(ECHILD);
    }
    if (options & WNOHANG) != 0 {
        return WaitidStep::NoEvent;
    }
    if idtype == P_PIDFD && pidfd_nonblock {
        return WaitidStep::Fail(EAGAIN);
    }
    let inserted: bool = enqueue_waiter_once(&mut caller.wait_queue, task);
    WaitidStep::Block
}

} // verus!
