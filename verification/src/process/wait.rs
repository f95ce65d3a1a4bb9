//! `wait4`: picking a child whose state changed, and consuming the change.
//!
//! One call of [`syscall_wait4`] is one round: it looks at the children, and
//! either consumes an event, fails, or says that the caller has to look at its
//! pending signals or to sleep. The round is repeated after each of the latter
//! two.

use vstd::prelude::*;
use crate::errno::{ECHILD, EINVAL, ESRCH};
use crate::process::family::{
    child_slot, detached, find_child_slot, lemma_reslotted, remove_child_at, reslotted,
};
use crate::process::queue::{enqueue_waiter_once, remove_wait_queue_entry, without};
use crate::process::table::{
    find, lemma_find, lemma_find_at, lemma_find_same_pids, lemma_update_wf, pid2process,
    remove_from_pid2process, same_pids, table_wf, ProcRecord, SIGCHLD_NUM, SIGSTOP_NUM,
};

verus! {

pub const WNOHANG: usize = 0x0000_0001;
pub const WUNTRACED: usize = 0x0000_0002;
pub const WCONTINUED: usize = 0x0000_0008;
/// Wait for children that exit with another signal than `SIGCHLD`.
pub const WCLONE: usize = 0x8000_0000;
/// Wait for every child, whatever its exit signal.
pub const WALL: usize = 0x4000_0000;
pub const WNOTHREAD: usize = 0x2000_0000;
pub const WAIT4_ALLOWED: usize = 0xc000_000b;

/// The process that waits.
pub struct WaitCaller {
    pub pid: usize,
    pub pgid: usize,
    /// How many processes it traces.
    pub tracee_count: usize,
    /// Its children, by process id.
    pub children: Vec<usize>,
    /// Children that exited, in order of exit; entries can be out of date.
    pub exited_children: Vec<usize>,
    /// Tasks that sleep until a child changes its state.
    pub wait_queue: Vec<usize>,
    pub child_cpu_time_ns: u64,
}

/// Which children a call of `wait4` asks for.
#[derive(Clone, Copy)]
pub struct WaitQuery {
    pub pid: isize,
    pub options: usize,
    pub caller: usize,
    pub caller_pgid: usize,
}

/// A state change that a wait can report.
#[derive(Clone, Copy, PartialEq, Eq, Structural)]
pub enum WaitEvent {
    Exited,
    Stopped(i32),
    Continued,
}

/// What one round of `wait4` came to.
pub enum Wait4Step {
    /// The call fails.
    Fail(isize),
    /// An event of `pid` was consumed; `reaped` is set if the process is gone.
    Event { pid: usize, status: i32, reaped: bool },
    /// Nothing happened yet and the caller does not want to sleep: returns 0.
    NoEvent,
    /// Look at the pending signals, then start over with `checked` set.
    CheckSignals,
    /// The task is queued: sleep, then start over.
    Block,
}

// ---------------------------------------------------------------------------
// Status words.
// ---------------------------------------------------------------------------

/// The status word of a process that exited, or that signal `-exit_code` ended.
pub open spec fn exit_status(exit_code: i32, dumped_core: bool) -> i32 {
    if exit_code < 0 {
        let sig = (-exit_code) as i32;
        if dumped_core {
            (sig & 0x7f) | 0x80
        } else {
            sig & 0x7f
        }
    } else {
        (exit_code & 0xff) << 8
    }
}

/// The status word of a process that `sig` stopped.
pub open spec fn stop_status(sig: i32) -> i32 {
    ((sig & 0xff) << 8) | 0x7f
}

/// The status word of a process that was continued.
pub const CONTINUED_STATUS: i32 = 0xffff;

/// An exited process reads back as exited, with its code.
pub proof fn law_exit_status_decodes(exit_code: i32, dumped_core: bool)
    requires
        0 <= exit_code,
    ensures
        exit_status(exit_code, dumped_core) & 0x7f == 0,
        (exit_status(exit_code, dumped_core) >> 8) & 0xff == exit_code & 0xff,
{
    assert(((exit_code & 0xff) << 8) & 0x7f == 0) by (bit_vector);
    assert((((exit_code & 0xff) << 8) >> 8) & 0xff == exit_code & 0xff) by (bit_vector);
}

/// A killed process reads back as killed by that signal, with the core flag.
pub proof fn law_kill_status_decodes(exit_code: i32, dumped_core: bool)
    requires
        -126 <= exit_code < 0,
    ensures
        exit_status(exit_code, dumped_core) & 0x7f == -exit_code,
        (exit_status(exit_code, dumped_core) & 0x80 != 0) == dumped_core,
{
    let sig = (-exit_code) as i32;
    assert(((sig & 0x7f) | 0x80) & 0x7f == sig) by (bit_vector)
        requires
            0 < sig <= 126,
    ;
    assert((sig & 0x7f) & 0x7f == sig) by (bit_vector)
        requires
            0 < sig <= 126,
    ;
    assert(((sig & 0x7f) | 0x80) & 0x80 != 0 && (sig & 0x7f) & 0x80 == 0) by (bit_vector);
}

/// A stopped process reads back as stopped by that signal.
pub proof fn law_stop_status_decodes(sig: i32)
    requires
        0 <= sig <= 255,
    ensures
        stop_status(sig) & 0xff == 0x7f,
        (stop_status(sig) >> 8) & 0xff == sig,
{
    assert((((sig & 0xff) << 8) | 0x7f) & 0xff == 0x7f) by (bit_vector);
    assert(((((sig & 0xff) << 8) | 0x7f) >> 8) & 0xff == sig) by (bit_vector)
        requires
            0 <= sig <= 255,
    ;
}

/// Encodes how a process ended.
pub fn encode_exit_status(exit_code: i32, dumped_core: bool) -> (r: i32)
    requires
        exit_code > i32::MIN,
    ensures
        r == exit_status(exit_code, dumped_core),
{
    if exit_code < 0 {
        let sig: i32 = -exit_code;
        if dumped_core {
            (sig & 0x7f) | 0x80
        } else {
            sig & 0x7f
        }
    } else {
        (exit_code & 0xff) << 8
    }
}

/// Encodes which signal stopped a process.
pub fn encode_stop_status(sig: i32) -> (r: i32)
    ensures
        r == stop_status(sig),
{
    ((sig & 0xff) << 8) | 0x7f
}

// ---------------------------------------------------------------------------
// Which child, and which event.
// ---------------------------------------------------------------------------

/// Without `WALL`, `WCLONE` picks the children that exit with another signal
/// than `SIGCHLD`, and its absence picks the others.
pub open spec fn signal_matches(exit_signal: i32, options: usize) -> bool {
    options & WALL != 0 || ((options & WCLONE != 0) == (exit_signal != SIGCHLD_NUM as i32))
}

/// The `pid` argument picks the process: any, one of a group, or one.
pub open spec fn pid_matches(r: ProcRecord, q: WaitQuery) -> bool {
    if q.pid == -1 {
        true
    } else if q.pid == 0 {
        r.pgid == q.caller_pgid
    } else if q.pid > 0 {
        r.pid as int == q.pid as int
    } else {
        r.pgid as int == -(q.pid as int)
    }
}

pub open spec fn child_matches(r: ProcRecord, q: WaitQuery) -> bool {
    pid_matches(r, q) && signal_matches(r.exit_signal, q.options)
}

/// The signal that a stop is reported with.
pub open spec fn reported_stop(r: ProcRecord) -> i32 {
    if r.stop_signal != 0 {
        r.stop_signal
    } else {
        SIGSTOP_NUM as i32
    }
}

/// The event that a child offers to this query: an exit before a stop, a stop
/// before a continuation. A tracer sees stops that it did not ask for.
pub open spec fn child_event(r: ProcRecord, q: WaitQuery) -> Option<WaitEvent> {
    if !child_matches(r, q) {
        None
    } else if r.is_zombie {
        Some(WaitEvent::Exited)
    } else if r.stopped && r.stop_pending && (q.options & WUNTRACED != 0 || r.tracer == Some(
        q.caller,
    )) {
        Some(WaitEvent::Stopped(reported_stop(r)))
    } else if q.options & WCONTINUED != 0 && r.continued {
        Some(WaitEvent::Continued)
    } else {
        None
    }
}

/// A process that the caller traces and that the query asks for. Groups are not
/// matched here.
pub open spec fn tracee_matches(r: ProcRecord, q: WaitQuery) -> bool {
    &&& r.pid != q.caller
    &&& r.tracer == Some(q.caller)
    &&& q.pid == -1 || (q.pid > 0 && r.pid as int == q.pid as int)
}

/// The event that a traced process offers to its tracer.
pub open spec fn tracee_event(r: ProcRecord, q: WaitQuery) -> Option<WaitEvent> {
    if !tracee_matches(r, q) {
        None
    } else if r.stopped && r.stop_pending {
        Some(WaitEvent::Stopped(reported_stop(r)))
    } else if q.options & WCONTINUED != 0 && r.continued {
        Some(WaitEvent::Continued)
    } else {
        None
    }
}

/// The event of the child in slot `i` of `children`.
pub open spec fn event_at(
    procs: Seq<ProcRecord>,
    children: Seq<usize>,
    q: WaitQuery,
    i: int,
) -> Option<WaitEvent> {
    match find(procs, children[i]) {
        Some(k) => child_event(procs[k], q),
        None => None,
    }
}

/// The first child, from slot `i` on, that has an event.
pub open spec fn first_event_from(
    procs: Seq<ProcRecord>,
    children: Seq<usize>,
    q: WaitQuery,
    i: int,
) -> Option<(int, WaitEvent)>
    decreases children.len() - i,
{
    if i >= children.len() {
        None
    } else {
        match event_at(procs, children, q, i) {
            Some(e) => Some((i, e)),
            None => first_event_from(procs, children, q, i + 1),
        }
    }
}

/// The first record, from slot `i` on, of a traced process that has an event.
pub open spec fn first_tracee_from(procs: Seq<ProcRecord>, q: WaitQuery, i: int) -> Option<
    (int, WaitEvent),
>
    decreases procs.len() - i,
{
    if i >= procs.len() {
        None
    } else {
        match tracee_event(procs[i], q) {
            Some(e) => Some((i, e)),
            None => first_tracee_from(procs, q, i + 1),
        }
    }
}

/// Some child is what the query asks for.
pub open spec fn any_child(procs: Seq<ProcRecord>, children: Seq<usize>, q: WaitQuery) -> bool {
    exists|i: int|
        0 <= i < children.len() && (#[trigger] find(procs, children[i])) is Some && child_matches(
            procs[find(procs, children[i])->0],
            q,
        )
}

/// Some traced process is what the query asks for.
pub open spec fn any_tracee(procs: Seq<ProcRecord>, q: WaitQuery) -> bool {
    exists|i: int| 0 <= i < procs.len() && tracee_matches(#[trigger] procs[i], q)
}

// ---------------------------------------------------------------------------
// The queue of exited children.
// ---------------------------------------------------------------------------

/// The query can be answered from the queue of exited children.
pub open spec fn uses_exit_queue(q: WaitQuery) -> bool {
    q.pid == -1 && q.options & (WUNTRACED | WCONTINUED) == 0
}

/// An entry of the queue that is no zombie child of the caller any more.
pub open spec fn stale(procs: Seq<ProcRecord>, entry: usize, caller: usize) -> bool {
    match find(procs, entry) {
        Some(k) => procs[k].parent != Some(caller) || !procs[k].is_zombie,
        None => true,
    }
}

/// An entry of the queue that answers the query.
pub open spec fn ready(procs: Seq<ProcRecord>, entry: usize, q: WaitQuery) -> bool {
    !stale(procs, entry, q.caller) && signal_matches(
        procs[find(procs, entry)->0].exit_signal,
        q.options,
    )
}

/// The first entry, from `i` on, that answers the query, or the length.
pub open spec fn first_ready(
    procs: Seq<ProcRecord>,
    queue: Seq<usize>,
    q: WaitQuery,
    i: int,
) -> int
    decreases queue.len() - i,
{
    if i >= queue.len() {
        queue.len() as int
    } else if ready(procs, queue[i], q) {
        i
    } else {
        first_ready(procs, queue, q, i + 1)
    }
}

/// The entries that are not out of date, in order.
pub open spec fn live(procs: Seq<ProcRecord>, queue: Seq<usize>, caller: usize) -> Seq<usize>
    decreases queue.len(),
{
    if queue.len() == 0 {
        queue
    } else if stale(procs, queue.last(), caller) {
        live(procs, queue.drop_last(), caller)
    } else {
        live(procs, queue.drop_last(), caller).push(queue.last())
    }
}

/// Record `r` is out of date in the queue `seen` of `caller`.
pub open spec fn was_dropped(
    procs: Seq<ProcRecord>,
    seen: Seq<usize>,
    caller: usize,
    r: ProcRecord,
) -> bool {
    seen.contains(r.pid) && stale(procs, r.pid, caller)
}

/// The table after the out-of-date entries of `seen` lost their queue mark.
pub open spec fn unmarked(procs: Seq<ProcRecord>, seen: Seq<usize>, caller: usize) -> Seq<
    ProcRecord,
> {
    Seq::new(
        procs.len(),
        |j: int|
            if was_dropped(procs, seen, caller, procs[j]) && procs[j].exit_queue_of == Some(
                caller,
            ) {
                ProcRecord { exit_queue_of: None, ..procs[j] }
            } else {
                procs[j]
            },
    )
}

/// What remains of the queue once its first `n` entries were looked at and the
/// entry after them, if any, was taken.
pub open spec fn queue_after(
    procs: Seq<ProcRecord>,
    queue: Seq<usize>,
    caller: usize,
    n: int,
) -> Seq<usize> {
    if n < queue.len() {
        live(procs, queue.take(n), caller) + queue.skip(n + 1)
    } else {
        live(procs, queue, caller)
    }
}

/// Two tables that differ in queue marks and child slots only.
pub open spec fn same_but_marks(a: Seq<ProcRecord>, b: Seq<ProcRecord>) -> bool {
    &&& a.len() == b.len()
    &&& forall|i: int|
        0 <= i < a.len() ==> (#[trigger] b[i]) == (ProcRecord {
            exit_queue_of: b[i].exit_queue_of,
            ..a[i]
        })
}

proof fn lemma_unmarked_same(procs: Seq<ProcRecord>, seen: Seq<usize>, caller: usize)
    ensures
        same_but_marks(procs, unmarked(procs, seen, caller)),
        same_pids(procs, unmarked(procs, seen, caller)),
        table_wf(procs) ==> table_wf(unmarked(procs, seen, caller)),
{
    let b = unmarked(procs, seen, caller);
    assert forall|i: int| 0 <= i < procs.len() implies #[trigger] procs[i].pid == b[i].pid by {}
    if table_wf(procs) {
        assert forall|i: int, j: int| 0 <= i < j < b.len() implies #[trigger] b[i].pid
            != #[trigger] b[j].pid by {
            assert(procs[i].pid != procs[j].pid);
        }
        assert forall|i: int| 0 <= i < b.len() implies #[trigger] b[i].exit_code > i32::MIN by {
            assert(procs[i].exit_code > i32::MIN);
        }
    }
}

proof fn lemma_marks_irrelevant(a: Seq<ProcRecord>, b: Seq<ProcRecord>, pid: usize)
    requires
        same_but_marks(a, b),
    ensures
        same_pids(a, b),
        find(a, pid) == find(b, pid),
        find(a, pid) matches Some(k) ==> 0 <= k < a.len() && b[k] == (ProcRecord {
            exit_queue_of: b[k].exit_queue_of,
            ..a[k]
        }),
{
    assert forall|i: int| 0 <= i < a.len() implies #[trigger] a[i].pid == b[i].pid by {
        assert(b[i].pid == a[i].pid);
    }
    lemma_find_same_pids(a, b, pid, 0);
    lemma_find(a, pid);
}

proof fn lemma_events_ignore_marks(
    a: Seq<ProcRecord>,
    b: Seq<ProcRecord>,
    children: Seq<usize>,
    q: WaitQuery,
    i: int,
)
    requires
        same_but_marks(a, b),
        0 <= i <= children.len(),
    ensures
        first_event_from(a, children, q, i) == first_event_from(b, children, q, i),
    decreases children.len() - i,
{
    if i < children.len() {
        lemma_marks_irrelevant(a, b, children[i]);
        lemma_events_ignore_marks(a, b, children, q, i + 1);
    }
}

proof fn lemma_any_child_ignores_marks(
    a: Seq<ProcRecord>,
    b: Seq<ProcRecord>,
    children: Seq<usize>,
    q: WaitQuery,
)
    requires
        same_but_marks(a, b),
    ensures
        any_child(a, children, q) == any_child(b, children, q),
        any_tracee(a, q) == any_tracee(b, q),
{
    assert forall|i: int| 0 <= i < children.len() implies find(a, #[trigger] children[i]) == find(
        b,
        children[i],
    ) && (find(a, children[i]) matches Some(k) ==> child_matches(a[k], q) == child_matches(
        b[k],
        q,
    )) by {
        lemma_marks_irrelevant(a, b, children[i]);
    }
    if any_child(a, children, q) {
        let i = choose|i: int|
            0 <= i < children.len() && (#[trigger] find(a, children[i])) is Some && child_matches(
                a[find(a, children[i])->0],
                q,
            );
        let c = children[i];
        assert(find(b, c) is Some && child_matches(b[find(b, c)->0], q));
    }
    if any_child(b, children, q) {
        let i = choose|i: int|
            0 <= i < children.len() && (#[trigger] find(b, children[i])) is Some && child_matches(
                b[find(b, children[i])->0],
                q,
            );
        let c = children[i];
        assert(find(a, c) is Some && child_matches(a[find(a, c)->0], q));
    }
    if any_tracee(a, q) {
        let i = choose|i: int| 0 <= i < a.len() && tracee_matches(#[trigger] a[i], q);
        assert(tracee_matches(b[i], q));
    }
    if any_tracee(b, q) {
        let i = choose|i: int| 0 <= i < b.len() && tracee_matches(#[trigger] b[i], q);
        assert(tracee_matches(a[i], q));
    }
}

proof fn lemma_tracees_ignore_marks(
    a: Seq<ProcRecord>,
    b: Seq<ProcRecord>,
    q: WaitQuery,
    i: int,
)
    requires
        same_but_marks(a, b),
        0 <= i <= a.len(),
    ensures
        first_tracee_from(a, q, i) == first_tracee_from(b, q, i),
    decreases a.len() - i,
{
    if i < a.len() {
        assert(b[i].pid == a[i].pid);
        lemma_tracees_ignore_marks(a, b, q, i + 1);
    }
}

proof fn lemma_live_step(procs: Seq<ProcRecord>, queue: Seq<usize>, caller: usize, g: int)
    requires
        0 <= g < queue.len(),
    ensures
        live(procs, queue.take(g + 1), caller) == if stale(procs, queue[g], caller) {
            live(procs, queue.take(g), caller)
        } else {
            live(procs, queue.take(g), caller).push(queue[g])
        },
{
    assert(queue.take(g + 1).drop_last() =~= queue.take(g));
}

/// Takes the first exited child that answers the query off the queue.
///
/// Entries before it that are out of date leave the queue on the way, and their
/// records lose the mark that names this queue.
pub fn take_exited_child(
    queue: &mut Vec<usize>,
    procs: &mut Vec<ProcRecord>,
    q: WaitQuery,
) -> (r: Option<usize>)
    requires
        table_wf(old(procs)@),
    ensures
        ({
            let n = first_ready(old(procs)@, old(queue)@, q, 0);
            &&& 0 <= n <= old(queue)@.len()
            &&& r == if n < old(queue)@.len() {
                Some(old(queue)@[n])
            } else {
                None
            }
            &&& final(queue)@ == queue_after(old(procs)@, old(queue)@, q.caller, n)
            &&& final(procs)@ == unmarked(old(procs)@, old(queue)@.take(n), q.caller)
        }),
        r matches Some(c) ==> ready(old(procs)@, c, q),
{
    let ghost p0 = procs@;
    let ghost q0 = queue@;
    let mut index: usize = 0;
    let ghost mut g: int = 0;
    proof {
        assert(q0.take(0) =~= Seq::<usize>::empty());
        assert(unmarked(p0, q0.take(0), q.caller) =~= p0);
        assert(queue@ =~= live(p0, q0.take(0), q.caller) + q0.skip(0));
    }
    while index < queue.len()
        invariant
            p0 == old(procs)@,
            q0 == old(queue)@,
            table_wf(p0),
            0 <= g <= q0.len(),
            queue@ == live(p0, q0.take(g), q.caller) + q0.skip(g),
            index == live(p0, q0.take(g), q.caller).len(),
            procs@ == unmarked(p0, q0.take(g), q.caller),
            first_ready(p0, q0, q, 0) == first_ready(p0, q0, q, g),
        decreases q0.len() - g,
    {
        let entry: usize = queue[index];
        proof {
            assert(entry == q0[g]);
            lemma_unmarked_same(p0, q0.take(g), q.caller);
            lemma_marks_irrelevant(p0, procs@, entry);
            lemma_live_step(p0, q0, q.caller, g);
        }
        let slot = pid2process(procs, entry);
        let mut is_stale: bool = true;
        let mut is_ready: bool = false;
        if let Some(k) = slot {
            is_stale = procs[k].parent != Some(q.caller) || !procs[k].is_zombie;
            is_ready = !is_stale && wait4_signal_matches(procs[k].exit_signal, q.options);
        }
        assert(is_stale == stale(p0, entry, q.caller));
        assert(is_ready == ready(p0, entry, q));
        if is_stale {
            if let Some(k) = slot {
                if procs[k].exit_queue_of == Some(q.caller) {
                    procs[k].exit_queue_of = None;
                }
            }
            let gone: usize = queue.remove(index);
            proof {
                let seen = q0.take(g);
                let more = q0.take(g + 1);
                let target = unmarked(p0, more, q.caller);
                assert(more =~= seen.push(entry));
                assert forall|j: int| 0 <= j < p0.len() implies #[trigger] procs@[j]
                    == target[j] by {
                    let p = p0[j].pid;
                    if seen.contains(p) {
                        let x = choose|x: int| 0 <= x < seen.len() && seen[x] == p;
                        assert(more[x] == p);
                    }
                    if more.contains(p) && p != entry {
                        let x = choose|x: int| 0 <= x < more.len() && more[x] == p;
                        assert(seen[x] == p);
                    }
                    if p == entry {
                        assert(more[g] == p);
                        lemma_find_at(p0, j);
                    }
                    if let Some(k) = slot {
                        lemma_find(p0, entry);
                        if j != k {
                            assert(p != entry);
                        }
                    } else {
                        lemma_find(p0, entry);
                    }
                }
                assert(procs@ =~= target);
                assert(queue@ =~= live(p0, q0.take(g + 1), q.caller) + q0.skip(g + 1));
                g = g + 1;
            }
            continue;
        }
        if is_ready {
            let taken: usize = queue.remove(index);
            assert(queue@ =~= live(p0, q0.take(g), q.caller) + q0.skip(g + 1));
            return Some(taken);
        }
        proof {
            let seen = q0.take(g);
            let more = q0.take(g + 1);
            assert(more =~= seen.push(entry));
            assert forall|j: int| 0 <= j < p0.len() implies #[trigger] unmarked(
                p0,
                seen,
                q.caller,
            )[j] == unmarked(p0, more, q.caller)[j] by {
                let p = p0[j].pid;
                if seen.contains(p) {
                    let x = choose|x: int| 0 <= x < seen.len() && seen[x] == p;
                    assert(more[x] == p);
                }
                if more.contains(p) && p != entry {
                    let x = choose|x: int| 0 <= x < more.len() && more[x] == p;
                    assert(seen[x] == p);
                }
            }
            assert(unmarked(p0, seen, q.caller) =~= unmarked(p0, more, q.caller));
            assert(queue@ =~= live(p0, q0.take(g + 1), q.caller) + q0.skip(g + 1));
            g = g + 1;
        }
        index += 1;
    }
    proof {
        assert(queue@.len() == live(p0, q0.take(g), q.caller).len() + (q0.len() - g));
        assert(g == q0.len());
        assert(q0.take(g) =~= q0);
        assert(q0.skip(g) =~= Seq::<usize>::empty());
        assert(queue@ =~= live(p0, q0, q.caller));
    }
    None
}

/// Tells whether a child with this exit signal is waited for.
pub fn wait4_signal_matches(exit_signal: i32, options: usize) -> (r: bool)
    ensures
        r == signal_matches(exit_signal, options),
{
    let is_clone_child = exit_signal != SIGCHLD_NUM as i32;
    (options & WALL) != 0 || ((options & WCLONE) != 0) == is_clone_child
}

// ---------------------------------------------------------------------------
// Reaping.
// ---------------------------------------------------------------------------

/// `a + b`, capped at the greatest value.
pub open spec fn sat_sum(a: u64, b: u64) -> u64 {
    if a + b > u64::MAX {
        u64::MAX
    } else {
        (a + b) as u64
    }
}

/// The CPU time that a reaped child hands to its parent: its own and that of
/// the descendants that it waited for.
pub open spec fn reaped_cpu(r: ProcRecord) -> u64 {
    sat_sum(r.cpu_time_ns, r.child_cpu_time_ns)
}

/// A thread of a process that is being reaped.
#[derive(Clone, Copy)]
pub struct ReapTask {
    pub id: usize,
    /// Its resources were already released when it exited.
    pub exit_cleaned: bool,
}

/// What is left to do for one thread of a reaped process.
#[derive(Clone, Copy, PartialEq, Eq, Structural)]
pub enum ReapAction {
    /// Only timers can still refer to the thread.
    DropTimerRefs(usize),
    /// Queues of the scheduler can still refer to the thread.
    DropInactive(usize),
}

pub open spec fn reap_action(t: ReapTask) -> ReapAction {
    if t.exit_cleaned {
        ReapAction::DropTimerRefs(t.id)
    } else {
        ReapAction::DropInactive(t.id)
    }
}

/// One action per occupied slot of the thread table, in order.
pub open spec fn reap_actions(tasks: Seq<Option<ReapTask>>) -> Seq<ReapAction>
    decreases tasks.len(),
{
    if tasks.len() == 0 {
        Seq::empty()
    } else {
        let front = reap_actions(tasks.drop_last());
        match tasks.last() {
            Some(t) => front.push(reap_action(t)),
            None => front,
        }
    }
}

/// Releases what a zombie still holds, and gives its total CPU time.
pub fn reap_zombie_child(child: &ProcRecord, tasks: &Vec<Option<ReapTask>>) -> (r: (
    u64,
    Vec<ReapAction>,
))
    ensures
        r.0 == reaped_cpu(*child),
        r.1@ == reap_actions(tasks@),
{
    let cpu_ns: u64 = child.cpu_time_ns.saturating_add(child.child_cpu_time_ns);
    let mut actions: Vec<ReapAction> = Vec::new();
    let mut i: usize = 0;
    while i < tasks.len()
        invariant
            i <= tasks.len(),
            actions@ == reap_actions(tasks@.take(i as int)),
        decreases tasks.len() - i,
    {
        assert(tasks@.take(i + 1).drop_last() =~= tasks@.take(i as int));
        if let Some(task) = tasks[i] {
            if task.exit_cleaned {
                actions.push(ReapAction::DropTimerRefs(task.id));
            } else {
                actions.push(ReapAction::DropInactive(task.id));
            }
        }
        i += 1;
    }
    assert(tasks@.take(i as int) =~= tasks@);
    (cpu_ns, actions)
}

// ---------------------------------------------------------------------------
// One round of wait4.
// ---------------------------------------------------------------------------

/// What the children and the traced processes offer to a query.
pub enum Wait4Choice {
    /// A zombie child to reap, with its slot; `queued` if the exit queue named
    /// it.
    Reap { pid: usize, slot: Option<int>, queued: bool },
    Stop { pid: usize, sig: i32 },
    Continue { pid: usize },
    /// There is somebody to wait for, with nothing to report.
    Waiting,
    NoChild,
}

/// The rejection of a call by its arguments alone.
pub open spec fn wait4_rejects(pid: isize, options: usize) -> Option<isize> {
    if options & WNOTHREAD != 0 || options & !WAIT4_ALLOWED != 0 {
        Some(EINVAL)
    } else if pid == isize::MIN || pid as int == i32::MIN as int {
        Some(ESRCH)
    } else {
        None
    }
}

/// The exit queue names a zombie that answers the query.
pub open spec fn queue_hit(procs: Seq<ProcRecord>, exited: Seq<usize>, q: WaitQuery) -> bool {
    uses_exit_queue(q) && first_ready(procs, exited, q, 0) < exited.len()
}

pub open spec fn wait4_choice(
    procs: Seq<ProcRecord>,
    children: Seq<usize>,
    exited: Seq<usize>,
    traces: bool,
    q: WaitQuery,
) -> Wait4Choice {
    let own = first_event_from(procs, children, q, 0);
    let tracee = if traces {
        first_tracee_from(procs, q, 0)
    } else {
        None
    };
    if queue_hit(procs, exited, q) {
        let pid = exited[first_ready(procs, exited, q, 0)];
        Wait4Choice::Reap { pid, slot: child_slot(procs, children, pid), queued: true }
    } else {
        match (own, tracee) {
            (Some((i, WaitEvent::Exited)), _) => Wait4Choice::Reap {
                pid: children[i],
                slot: Some(i),
                queued: false,
            },
            (Some((i, WaitEvent::Stopped(sig))), _) => Wait4Choice::Stop { pid: children[i], sig },
            (_, Some((k, WaitEvent::Stopped(sig)))) => Wait4Choice::Stop {
                pid: procs[k].pid,
                sig,
            },
            (_, Some((k, _))) => Wait4Choice::Continue { pid: procs[k].pid },
            (Some((i, WaitEvent::Continued)), None) => Wait4Choice::Continue { pid: children[i] },
            (None, None) => if any_child(procs, children, q) || (traces && any_tracee(procs, q)) {
                Wait4Choice::Waiting
            } else {
                Wait4Choice::NoChild
            },
        }
    }
}

/// The step that a choice leads to.
pub open spec fn wait4_step(
    choice: Wait4Choice,
    procs: Seq<ProcRecord>,
    options: usize,
    checked: bool,
) -> Wait4Step {
    match choice {
        Wait4Choice::Reap { pid, slot, queued } => {
            let r = procs[find(procs, pid)->0];
            Wait4Step::Event { pid, status: exit_status(r.exit_code, r.dumped_core), reaped: true }
        },
        Wait4Choice::Stop { pid, sig } => Wait4Step::Event {
            pid,
            status: stop_status(sig),
            reaped: false,
        },
        Wait4Choice::Continue { pid } => Wait4Step::Event {
            pid,
            status: CONTINUED_STATUS,
            reaped: false,
        },
        Wait4Choice::NoChild => Wait4Step::Fail(ECHILD),
        Wait4Choice::Waiting => if options & WNOHANG != 0 {
            Wait4Step::NoEvent
        } else if !checked {
            Wait4Step::CheckSignals
        } else {
            Wait4Step::Block
        },
    }
}

/// The exit queue once the round looked through it.
pub open spec fn exited_seen(procs: Seq<ProcRecord>, exited: Seq<usize>, q: WaitQuery) -> Seq<
    usize,
> {
    if uses_exit_queue(q) {
        queue_after(procs, exited, q.caller, first_ready(procs, exited, q, 0))
    } else {
        exited
    }
}

/// The table once the round looked through the exit queue.
pub open spec fn procs_seen(procs: Seq<ProcRecord>, exited: Seq<usize>, q: WaitQuery) -> Seq<
    ProcRecord,
> {
    if uses_exit_queue(q) {
        unmarked(procs, exited.take(first_ready(procs, exited, q, 0)), q.caller)
    } else {
        procs
    }
}

/// The children after a choice was consumed: a reaped child left its slot.
pub open spec fn children_after(choice: Wait4Choice, children: Seq<usize>) -> Seq<usize> {
    match choice {
        Wait4Choice::Reap { slot: Some(i), .. } => detached(children, i),
        _ => children,
    }
}

/// The table after a choice was consumed: a reaped child is gone, a reported
/// stop or continuation is not reported again.
pub open spec fn procs_after(
    choice: Wait4Choice,
    procs: Seq<ProcRecord>,
    children: Seq<usize>,
) -> Seq<ProcRecord> {
    match choice {
        Wait4Choice::Reap { pid, slot, queued } => {
            let moved = match slot {
                Some(i) => reslotted(procs, children, i),
                None => procs,
            };
            moved.remove(find(moved, pid)->0)
        },
        Wait4Choice::Stop { pid, sig } => {
            let k = find(procs, pid)->0;
            procs.update(k, ProcRecord { stop_pending: false, stop_signal: sig, ..procs[k] })
        },
        Wait4Choice::Continue { pid } => {
            let k = find(procs, pid)->0;
            procs.update(k, ProcRecord { continued: false, ..procs[k] })
        },
        _ => procs,
    }
}

/// The exit queue after a choice was consumed.
pub open spec fn exited_after(choice: Wait4Choice, exited: Seq<usize>) -> Seq<usize> {
    match choice {
        Wait4Choice::Reap { pid, slot, queued } => if queued {
            exited
        } else {
            without(exited, pid)
        },
        _ => exited,
    }
}

/// A caller that does not want to sleep is never asked to.
pub proof fn law_wnohang_never_sleeps(
    choice: Wait4Choice,
    procs: Seq<ProcRecord>,
    options: usize,
    checked: bool,
)
    requires
        options & WNOHANG != 0,
    ensures
        !(wait4_step(choice, procs, options, checked) is Block),
        !(wait4_step(choice, procs, options, checked) is CheckSignals),
{
}

/// A stop that was reported offers no event any more.
pub proof fn law_stop_is_reported_once(
    procs: Seq<ProcRecord>,
    children: Seq<usize>,
    pid: usize,
    sig: i32,
    q: WaitQuery,
)
    requires
        find(procs, pid) is Some,
        !procs[find(procs, pid)->0].is_zombie,
        !procs[find(procs, pid)->0].continued,
    ensures
        ({
            let after = procs_after(Wait4Choice::Stop { pid, sig }, procs, children);
            &&& find(after, pid) == find(procs, pid)
            &&& child_event(after[find(after, pid)->0], q) is None
            &&& tracee_event(after[find(after, pid)->0], q) is None
        }),
{
    let after = procs_after(Wait4Choice::Stop { pid, sig }, procs, children);
    lemma_find(procs, pid);
    assert forall|i: int| 0 <= i < procs.len() implies #[trigger] procs[i].pid == after[i].pid by {}
    lemma_find_same_pids(procs, after, pid, 0);
}

/// A continuation that was reported offers no event any more.
pub proof fn law_continue_is_reported_once(
    procs: Seq<ProcRecord>,
    children: Seq<usize>,
    pid: usize,
    q: WaitQuery,
)
    requires
        find(procs, pid) is Some,
        !procs[find(procs, pid)->0].is_zombie,
        !procs[find(procs, pid)->0].stop_pending,
    ensures
        ({
            let after = procs_after(Wait4Choice::Continue { pid }, procs, children);
            &&& find(after, pid) == find(procs, pid)
            &&& child_event(after[find(after, pid)->0], q) is None
            &&& tracee_event(after[find(after, pid)->0], q) is None
        }),
{
    let after = procs_after(Wait4Choice::Continue { pid }, procs, children);
    lemma_find(procs, pid);
    assert forall|i: int| 0 <= i < procs.len() implies #[trigger] procs[i].pid == after[i].pid by {}
    lemma_find_same_pids(procs, after, pid, 0);
}

/// `WALL` picks every child, and without it `WCLONE` picks exactly the children
/// that its absence leaves out.
pub proof fn law_clone_children_are_the_others(exit_signal: i32, options: usize)
    requires
        options & WALL == 0,
    ensures
        signal_matches(exit_signal, options | WCLONE) == !signal_matches(
            exit_signal,
            options & !WCLONE,
        ),
        signal_matches(exit_signal, options | WALL),
{
    assert((options | WCLONE) & WCLONE != 0 && (options & !WCLONE) & WCLONE == 0 && (options
        | WCLONE) & WALL == options & WALL && (options & !WCLONE) & WALL == options & WALL && (
    options | WALL) & WALL != 0) by (bit_vector);
}

/// Looks through the children for an event.
fn scan_children(procs: &Vec<ProcRecord>, children: &Vec<usize>, q: WaitQuery) -> (r: (
    Option<(usize, WaitEvent)>,
    bool,
))
    requires
        q.pid > isize::MIN,
    ensures
        match r.0 {
            Some((i, e)) => i < children.len() && first_event_from(procs@, children@, q, 0)
                == Some((i as int, e)) && find(procs@, children@[i as int]) is Some,
            None => first_event_from(procs@, children@, q, 0) is None,
        },
        r.0 is None ==> r.1 == any_child(procs@, children@, q),
{
    let mut found: bool = false;
    let mut i: usize = 0;
    while i < children.len()
        invariant
            i <= children.len(),
            q.pid > isize::MIN,
            first_event_from(procs@, children@, q, 0) == first_event_from(
                procs@,
                children@,
                q,
                i as int,
            ),
            found == (exists|j: int|
                0 <= j < i && (#[trigger] find(procs@, children@[j])) is Some && child_matches(
                    procs@[find(procs@, children@[j])->0],
                    q,
                )),
        decreases children.len() - i,
    {
        if let Some(k) = pid2process(procs, children[i]) {
            let r = &procs[k];
            assert(find(procs@, children@[i as int]) == Some(k as int));
            let pid_ok: bool = if q.pid == -1 {
                true
            } else if q.pid == 0 {
                r.pgid == q.caller_pgid
            } else if q.pid > 0 {
                r.pid == q.pid as usize
            } else {
                r.pgid == (-q.pid) as usize
            };
            let matches_query = pid_ok && wait4_signal_matches(r.exit_signal, q.options);
            if matches_query {
                found = true;
                if r.is_zombie {
                    return (Some((i, WaitEvent::Exited)), true);
                }
                if r.stopped && r.stop_pending && ((q.options & WUNTRACED) != 0 || r.tracer == Some(
                    q.caller,
                )) {
                    let sig: i32 = if r.stop_signal != 0 {
                        r.stop_signal
                    } else {
                        SIGSTOP_NUM as i32
                    };
                    return (Some((i, WaitEvent::Stopped(sig))), true);
                }
                if (q.options & WCONTINUED) != 0 && r.continued {
                    return (Some((i, WaitEvent::Continued)), true);
                }
            }
        }
        i += 1;
    }
    (None, found)
}

/// Looks through the traced processes for an event.
fn scan_tracees(procs: &Vec<ProcRecord>, q: WaitQuery) -> (r: (Option<(usize, WaitEvent)>, bool))
    ensures
        match r.0 {
            Some((i, e)) => i < procs.len() && first_tracee_from(procs@, q, 0) == Some(
                (i as int, e),
            ) && e != WaitEvent::Exited,
            None => first_tracee_from(procs@, q, 0) is None,
        },
        r.0 is None ==> r.1 == any_tracee(procs@, q),
{
    let mut found: bool = false;
    let mut i: usize = 0;
    while i < procs.len()
        invariant
            i <= procs.len(),
            first_tracee_from(procs@, q, 0) == first_tracee_from(procs@, q, i as int),
            found == (exists|j: int| 0 <= j < i && tracee_matches(#[trigger] procs@[j], q)),
        decreases procs.len() - i,
    {
        let r = &procs[i];
        let pid_ok: bool = q.pid == -1 || (q.pid > 0 && r.pid == q.pid as usize);
        if r.pid != q.caller && r.tracer == Some(q.caller) && pid_ok {
            assert(tracee_matches(procs@[i as int], q));
            found = true;
            if r.stopped && r.stop_pending {
                let sig: i32 = if r.stop_signal != 0 {
                    r.stop_signal
                } else {
                    SIGSTOP_NUM as i32
                };
                return (Some((i, WaitEvent::Stopped(sig))), true);
            }
            if (q.options & WCONTINUED) != 0 && r.continued {
                return (Some((i, WaitEvent::Continued)), true);
            }
        }
        i += 1;
    }
    (None, found)
}

/// Consumes an exit: the child leaves its slot and the table, and its CPU time
/// goes to the caller.
fn consume_exit(
    caller: &mut WaitCaller,
    procs: &mut Vec<ProcRecord>,
    pid: usize,
    slot: Option<usize>,
) -> (status: i32)
    requires
        table_wf(old(procs)@),
        find(old(procs)@, pid) is Some,
        slot matches Some(i) ==> i < old(caller).children.len(),
    ensures
        ({
            let r = old(procs)@[find(old(procs)@, pid)->0];
            let at = match slot {
                Some(i) => Some(i as int),
                None => None,
            };
            let choice = Wait4Choice::Reap { pid, slot: at, queued: false };
            &&& status == exit_status(r.exit_code, r.dumped_core)
            &&& final(caller).children@ == children_after(choice, old(caller).children@)
            &&& final(procs)@ == procs_after(choice, old(procs)@, old(caller).children@)
            &&& final(caller).child_cpu_time_ns == sat_sum(
                old(caller).child_cpu_time_ns,
                reaped_cpu(r),
            )
        }),
        final(caller).exited_children@ == old(caller).exited_children@,
        final(caller).wait_queue@ == old(caller).wait_queue@,
        final(caller).pid == old(caller).pid,
        final(caller).pgid == old(caller).pgid,
        final(caller).tracee_count == old(caller).tracee_count,
        table_wf(final(procs)@),
        find(final(procs)@, pid) is None,
{
    let ghost p0 = procs@;
    let ghost c0 = caller.children@;
    proof {
        lemma_find(p0, pid);
    }
    if let Some(i) = slot {
        let gone: usize = remove_child_at(&mut caller.children, procs, i);
        proof {
            lemma_reslotted(p0, c0, i as int);
            lemma_find_same_pids(p0, procs@, pid, 0);
            if i < c0.len() - 1 {
                lemma_find(p0, c0.last());
            }
        }
    }
    let mut status: i32 = 0;
    if let Some(k) = pid2process(procs, pid) {
        let r = procs[k];
        assert(r.exit_code == p0[k as int].exit_code && r.dumped_core == p0[k as int].dumped_core
            && r.cpu_time_ns == p0[k as int].cpu_time_ns && r.child_cpu_time_ns
            == p0[k as int].child_cpu_time_ns);
        status = encode_exit_status(r.exit_code, r.dumped_core);
        let cpu_ns: u64 = r.cpu_time_ns.saturating_add(r.child_cpu_time_ns);
        caller.child_cpu_time_ns = caller.child_cpu_time_ns.saturating_add(cpu_ns);
    }
    remove_from_pid2process(procs, pid);
    status
}

/// One round of `wait4` for the process `caller`, on behalf of its thread `task`.
///
/// `checked` says that the pending signals were looked at since the last sleep.
pub fn syscall_wait4(
    caller: &mut WaitCaller,
    procs: &mut Vec<ProcRecord>,
    task: usize,
    pid: isize,
    options: usize,
    checked: bool,
) -> (r: Wait4Step)
    requires
        table_wf(old(procs)@),
    ensures
        wait4_rejects(pid, options) matches Some(e) ==> r == Wait4Step::Fail(e) && *final(caller)
            == *old(caller) && final(procs)@ == old(procs)@,
        wait4_rejects(pid, options) is None ==> ({
            let q = WaitQuery {
                pid,
                options,
                caller: old(caller).pid,
                caller_pgid: old(caller).pgid,
            };
            let p0 = old(procs)@;
            let children = old(caller).children@;
            let exited = old(caller).exited_children@;
            let choice = wait4_choice(p0, children, exited, old(caller).tracee_count != 0, q);
            let idle = without(old(caller).wait_queue@, task);
            &&& r == wait4_step(choice, p0, options, checked)
            &&& final(procs)@ == procs_after(choice, procs_seen(p0, exited, q), children)
            &&& final(caller).children@ == children_after(choice, children)
            &&& final(caller).exited_children@ == exited_after(choice, exited_seen(p0, exited, q))
            &&& final(caller).wait_queue@ == if r is Block {
                idle.push(task)
            } else {
                idle
            }
            &&& final(caller).child_cpu_time_ns == match choice {
                Wait4Choice::Reap { pid, slot, queued } => sat_sum(
                    old(caller).child_cpu_time_ns,
                    reaped_cpu(p0[find(p0, pid)->0]),
                ),
                _ => old(caller).child_cpu_time_ns,
            }
        }),
        final(caller).pid == old(caller).pid,
        final(caller).pgid == old(caller).pgid,
        final(caller).tracee_count == old(caller).tracee_count,
        table_wf(final(procs)@),
        r matches Wait4Step::Event { pid: gone, reaped: true, .. } ==> find(final(procs)@, gone)
            is None,
{
    if (options & WNOTHREAD) != 0 {
        return Wait4Step::Fail(EINVAL);
    }
    if (options & !WAIT4_ALLOWED) != 0 {
        return Wait4Step::Fail(EINVAL);
    }
    if pid == isize::MIN || pid == i32::MIN as isize {
        return Wait4Step::Fail(ESRCH);
    }
    let ghost p0 = procs@;
    let ghost children = caller.children@;
    let ghost exited = caller.exited_children@;
    let q = WaitQuery { pid, options, caller: caller.pid, caller_pgid: caller.pgid };
    let traces: bool = caller.tracee_count != 0;
    remove_wait_queue_entry(&mut caller.wait_queue, task);
    if pid == -1 && (options & (WUNTRACED | WCONTINUED)) == 0 {
        let taken = take_exited_child(&mut caller.exited_children, procs, q);
        proof {
            lemma_unmarked_same(p0, exited.take(first_ready(p0, exited, q, 0)), q.caller);
        }
        if let Some(c) = taken {
            proof {
                lemma_marks_irrelevant(p0, procs@, c);
                lemma_find(p0, c);
            }
            let slot = find_child_slot(procs, &caller.children, c);
            let status: i32 = consume_exit(caller, procs, c, slot);
            return Wait4Step::Event { pid: c, status, reaped: true };
        }
    }
    let ghost p1 = procs@;
    proof {
        assert(p1 == procs_seen(p0, exited, q));
        assert(same_but_marks(p0, p1));
        lemma_events_ignore_marks(p0, p1, children, q, 0);
        lemma_tracees_ignore_marks(p0, p1, q, 0);
        lemma_any_child_ignores_marks(p0, p1, children, q);
    }
    let (own, any_own) = scan_children(procs, &caller.children, q);
    if let Some((i, WaitEvent::Exited)) = own {
        let c: usize = caller.children[i];
        proof {
            lemma_marks_irrelevant(p0, p1, c);
            lemma_find(p0, c);
        }
        remove_wait_queue_entry(&mut caller.exited_children, c);
        let status: i32 = consume_exit(caller, procs, c, Some(i));
        return Wait4Step::Event { pid: c, status, reaped: true };
    }
    if let Some((i, WaitEvent::Stopped(sig))) = own {
        let c: usize = caller.children[i];
        proof {
            lemma_marks_irrelevant(p0, p1, c);
        }
        report_stop(procs, c, sig);
        return Wait4Step::Event { pid: c, status: encode_stop_status(sig), reaped: false };
    }
    let (tracee, any_traced) = if traces {
        scan_tracees(procs, q)
    } else {
        (None, false)
    };
    if let Some((k, e)) = tracee {
        let c: usize = procs[k].pid;
        proof {
            lemma_find_at(p1, k as int);
            assert(p1[k as int].pid == p0[k as int].pid);
        }
        match e {
            WaitEvent::Stopped(sig) => {
                report_stop(procs, c, sig);
                return Wait4Step::Event { pid: c, status: encode_stop_status(sig), reaped: false };
            },
            _ => {
                report_continue(procs, c);
                return Wait4Step::Event { pid: c, status: CONTINUED_STATUS, reaped: false };
            },
        }
    }
    if let Some((i, e)) = own {
        let c: usize = caller.children[i];
        proof {
            lemma_marks_irrelevant(p0, p1, c);
        }
        report_continue(procs, c);
        return Wait4Step::Event { pid: c, status: CONTINUED_STATUS, reaped: false };
    }
    if !any_own && !any_traced {
        return Wait4Step::Fail(ECHILD);
    }
    if (options & WNOHANG) != 0 {
        return Wait4Step::NoEvent;
    }
    if !checked {
        return Wait4Step::CheckSignals;
    }
    let inserted: bool = enqueue_waiter_once(&mut caller.wait_queue, task);
    Wait4Step::Block
}

/// Marks a stop as reported.
fn report_stop(procs: &mut Vec<ProcRecord>, pid: usize, sig: i32)
    requires
        table_wf(old(procs)@),
        find(old(procs)@, pid) is Some,
    ensures
        final(procs)@ == procs_after(Wait4Choice::Stop { pid, sig }, old(procs)@, Seq::empty()),
        table_wf(final(procs)@),
{
    if let Some(k) = pid2process(procs, pid) {
        procs[k].stop_pending = false;
        procs[k].stop_signal = sig;
        proof {
            lemma_update_wf(old(procs)@, procs@);
        }
    }
}

/// Marks a continuation as reported.
fn report_continue(procs: &mut Vec<ProcRecord>, pid: usize)
    requires
        table_wf(old(procs)@),
        find(old(procs)@, pid) is Some,
    ensures
        final(procs)@ == procs_after(Wait4Choice::Continue { pid }, old(procs)@, Seq::empty()),
        table_wf(final(procs)@),
{
    if let Some(k) = pid2process(procs, pid) {
        procs[k].continued = false;
        proof {
            lemma_update_wf(old(procs)@, procs@);
        }
    }
}

} // verus!
