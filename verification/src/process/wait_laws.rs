//! Whom a wait reports, and what it says of them.

use vstd::prelude::*;
use crate::bytes::le32_bytes;
use crate::errno::{EAGAIN, EBADF, ECHILD, EFAULT, EINTR, EINVAL, ERESTARTSYS, ESRCH};
use crate::process::family::{
    detached, law_detach_keeps_slots, lemma_reslotted, reslotted, slots_ok,
};
use crate::process::queue::without;
use crate::process::signals::{action_of, has_signal, reaction, wait_outcome, SigAction};
use crate::process::table::{
    find, lemma_find, lemma_find_at, lemma_find_same_pids, same_pids, table_wf, ProcRecord,
};
use crate::process::wait::{
    any_child, any_tracee, child_event, child_matches, children_after, event_at, exit_status, exited_after,
    exited_seen, first_event_from, first_ready, first_tracee_from, procs_after, procs_seen, ready,
    reaped_cpu, sat_sum, stop_status, tracee_event, tracee_matches, uses_exit_queue,
    wait4_choice, wait4_rejects, wait4_step, Wait4Choice, Wait4Step, WaitEvent, WaitQuery,
    CONTINUED_STATUS,
};
use crate::process::waitid::{
    any_id, first_id_event, id_event, id_matches, id_procs_after, siginfo_bytes, waitid_procs,
    waitid_rejects, waitid_step, IdQuery, PidfdLookup, WaitInfo, WaitidStep,
};

verus! {

// ---------------------------------------------------------------------------
// Status words.
// ---------------------------------------------------------------------------

/// The word for a process that exited holds its code in the second byte; that of a
/// killed one the signal in the low seven bits, and bit 7 if it left an image.
pub open spec fn says_how_it_ended(r: ProcRecord, status: i32) -> bool {
    if r.exit_code >= 0 {
        status == (r.exit_code % 256) * 256
    } else {
        status == (-r.exit_code) % 128 + (if r.dumped_core {
            128int
        } else {
            0
        })
    }
}

/// The signal that stopped a process; 19 if it is not known.
pub open spec fn stopper(r: ProcRecord) -> int {
    if r.stop_signal == 0 {
        19
    } else {
        r.stop_signal as int
    }
}

/// The words that a wait gives are those that programs take apart.
pub proof fn law_status_words(exit_code: i32, dumped_core: bool, sig: i32)
    requires
        exit_code > i32::MIN,
        sig >= 0,
    ensures
        exit_code >= 0 ==> exit_status(exit_code, dumped_core) == (exit_code % 256) * 256,
        exit_code < 0 ==> exit_status(exit_code, dumped_core) == (-exit_code) % 128 + (
        if dumped_core {
            128int
        } else {
            0
        }),
        stop_status(sig) == (sig % 256) * 256 + 127,
        CONTINUED_STATUS == 65535,
{
    let s = (-exit_code) as i32;
    assert((exit_code >= 0 ==> (exit_code & 0xff) << 8 == (exit_code % 256) * 256) && (s >= 0 ==> s
        & 0x7f == s % 128 && ((s & 0x7f) | 0x80) == s % 128 + 128) && (sig >= 0 ==> ((sig & 0xff)
        << 8) | 0x7f == (sig % 256) * 256 + 127)) by (bit_vector);
}

// ---------------------------------------------------------------------------
// wait4.
// ---------------------------------------------------------------------------

/// The first argument picks the process: -1 any, 0 the caller's group, a positive
/// number one process, another negative one a group.
pub open spec fn picked(r: ProcRecord, pid: int, caller_pgid: usize) -> bool {
    ||| pid == -1
    ||| pid == 0 && r.pgid == caller_pgid
    ||| pid > 0 && r.pid == pid
    ||| pid < -1 && r.pgid == -pid
}

/// With bit 30 of the options any exit signal will do; else bit 31 asks for one that
/// is not 17.
pub open spec fn signal_fits(r: ProcRecord, options: usize) -> bool {
    options & 0x4000_0000 != 0 || (options & 0x8000_0000 != 0 <==> r.exit_signal != 17)
}

/// Process `k` is a child in slot `i`, and asked for.
pub open spec fn asked(
    procs: Seq<ProcRecord>,
    children: Seq<usize>,
    q: WaitQuery,
    i: int,
    k: int,
) -> bool {
    &&& 0 <= i < children.len()
    &&& 0 <= k < procs.len()
    &&& procs[k].pid == children[i]
    &&& picked(procs[k], q.pid as int, q.caller_pgid)
    &&& signal_fits(procs[k], q.options)
}

/// Process `k` is traced by the caller, and asked for.
pub open spec fn asked_tracee(procs: Seq<ProcRecord>, q: WaitQuery, k: int) -> bool {
    &&& 0 <= k < procs.len()
    &&& procs[k].pid != q.caller
    &&& procs[k].tracer == Some(q.caller)
    &&& q.pid == -1 || q.pid == procs[k].pid
}

proof fn lemma_asked(
    procs: Seq<ProcRecord>,
    children: Seq<usize>,
    q: WaitQuery,
    i: int,
    k: int,
)
    requires
        table_wf(procs),
        asked(procs, children, q, i, k),
    ensures
        find(procs, children[i]) == Some(k),
        child_matches(procs[k], q),
        any_child(procs, children, q),
{
    lemma_find_at(procs, k);
    assert(find(procs, children[i]) is Some);
}

proof fn lemma_first_event(
    procs: Seq<ProcRecord>,
    children: Seq<usize>,
    q: WaitQuery,
    i: int,
)
    requires
        0 <= i <= children.len(),
    ensures
        match first_event_from(procs, children, q, i) {
            Some((j, e)) => i <= j < children.len() && event_at(procs, children, q, j) == Some(e)
                && forall|m: int|
                i <= m < j ==> #[trigger] event_at(procs, children, q, m) is None,
            None => forall|m: int|
                i <= m < children.len() ==> #[trigger] event_at(procs, children, q, m) is None,
        },
    decreases children.len() - i,
{
    if i < children.len() {
        lemma_first_event(procs, children, q, i + 1);
    }
}

proof fn lemma_first_tracee(procs: Seq<ProcRecord>, q: WaitQuery, i: int)
    requires
        0 <= i <= procs.len(),
    ensures
        match first_tracee_from(procs, q, i) {
            Some((j, e)) => i <= j < procs.len() && tracee_event(procs[j], q) == Some(e),
            None => forall|m: int|
                i <= m < procs.len() ==> tracee_event(#[trigger] procs[m], q) is None,
        },
    decreases procs.len() - i,
{
    if i < procs.len() {
        lemma_first_tracee(procs, q, i + 1);
    }
}

proof fn lemma_first_ready(procs: Seq<ProcRecord>, queue: Seq<usize>, q: WaitQuery, i: int)
    requires
        0 <= i <= queue.len(),
    ensures
        i <= first_ready(procs, queue, q, i) <= queue.len(),
        first_ready(procs, queue, q, i) < queue.len() ==> ready(
            procs,
            queue[first_ready(procs, queue, q, i)],
            q,
        ),
        forall|m: int|
            i <= m < first_ready(procs, queue, q, i) ==> !ready(procs, #[trigger] queue[m], q),
    decreases queue.len() - i,
{
    if i < queue.len() && !ready(procs, queue[i], q) {
        lemma_first_ready(procs, queue, q, i + 1);
    }
}

/// What is said of process `k` is true of it, and it was asked for.
pub open spec fn true_report(
    procs: Seq<ProcRecord>,
    children: Seq<usize>,
    q: WaitQuery,
    pid: usize,
    status: i32,
    reaped: bool,
    k: int,
) -> bool {
    let r = procs[k];
    let sig = stopper(r);
    &&& 0 <= k < procs.len()
    &&& r.pid == pid
    &&& picked(r, q.pid as int, q.caller_pgid)
    &&& reaped ==> {
        &&& r.is_zombie
        &&& signal_fits(r, q.options)
        &&& children.contains(pid) || r.parent == Some(q.caller)
        &&& says_how_it_ended(r, status)
    }
    &&& !reaped ==> {
        &&& (children.contains(pid) && signal_fits(r, q.options)) || r.tracer == Some(q.caller)
        &&& {
            ||| status == 65535 && r.continued && q.options & 8 != 0
            ||| r.stopped && r.stop_pending && (q.options & 2 != 0 || r.tracer == Some(q.caller))
                && (0 <= sig ==> status == (sig % 256) * 256 + 127)
        }
    }
}

/// A wait reports only processes that were asked for, and of each what became of
/// it: that it exited, stopped or went on.
pub proof fn law_reports_are_true(
    procs: Seq<ProcRecord>,
    children: Seq<usize>,
    exited: Seq<usize>,
    traces: bool,
    q: WaitQuery,
    checked: bool,
)
    requires
        table_wf(procs),
        q.pid > isize::MIN,
    ensures
        wait4_step(wait4_choice(procs, children, exited, traces, q), procs, q.options, checked)
            matches Wait4Step::Event { pid, status, reaped } ==> exists|k: int|
            true_report(procs, children, q, pid, status, reaped, k),
{
    let choice = wait4_choice(procs, children, exited, traces, q);
    lemma_first_ready(procs, exited, q, 0);
    lemma_first_event(procs, children, q, 0);
    lemma_first_tracee(procs, q, 0);
    if let Wait4Step::Event { pid, status, reaped } = wait4_step(
        choice,
        procs,
        q.options,
        checked,
    ) {
        lemma_find(procs, pid);
        let own = first_event_from(procs, children, q, 0);
        if let Some((i, e)) = own {
            lemma_find(procs, children[i]);
            assert(children.contains(children[i]));
        }
        let tracee = first_tracee_from(procs, q, 0);
        if let Some((t, e)) = tracee {
            lemma_find_at(procs, t);
        }
        let k = find(procs, pid)->0;
        assert(find(procs, pid) is Some);
        let r = procs[k];
        let sig = if r.stop_signal != 0 {
            r.stop_signal
        } else {
            19
        };
        if sig >= 0 {
            law_status_words(r.exit_code, r.dumped_core, sig);
        } else {
            law_status_words(r.exit_code, r.dumped_core, 0);
        }
        assert(true_report(procs, children, q, pid, status, reaped, k));
    }
}

/// A child that was asked for is waited for: the call does not fail; and if it
/// exited, or stopped or went on in a way that was asked for, something is
/// reported.
pub proof fn law_children_are_waited_for(
    procs: Seq<ProcRecord>,
    children: Seq<usize>,
    exited: Seq<usize>,
    traces: bool,
    q: WaitQuery,
    checked: bool,
    i: int,
    k: int,
)
    requires
        table_wf(procs),
        asked(procs, children, q, i, k),
    ensures
        ({
            let r = procs[k];
            let step = wait4_step(
                wait4_choice(procs, children, exited, traces, q),
                procs,
                q.options,
                checked,
            );
            &&& !(step is Fail)
            &&& r.is_zombie ==> step is Event
            &&& r.stopped && r.stop_pending && (q.options & 2 != 0 || r.tracer == Some(q.caller))
                ==> step is Event
            &&& r.continued && q.options & 8 != 0 ==> step is Event
        }),
{
    lemma_asked(procs, children, q, i, k);
    lemma_first_event(procs, children, q, 0);
    let e = event_at(procs, children, q, i);
    assert(e == child_event(procs[k], q));
}

/// A traced process that was asked for is waited for, and its stops are reported.
pub proof fn law_tracees_are_waited_for(
    procs: Seq<ProcRecord>,
    children: Seq<usize>,
    exited: Seq<usize>,
    q: WaitQuery,
    checked: bool,
    k: int,
)
    requires
        table_wf(procs),
        asked_tracee(procs, q, k),
        q.pid == -1 || q.pid > 0,
    ensures
        ({
            let r = procs[k];
            let step = wait4_step(
                wait4_choice(procs, children, exited, true, q),
                procs,
                q.options,
                checked,
            );
            &&& !(step is Fail)
            &&& r.stopped && r.stop_pending ==> step is Event
            &&& r.continued && q.options & 8 != 0 ==> step is Event
        }),
{
    lemma_first_tracee(procs, q, 0);
    assert(tracee_matches(procs[k], q));
    assert(any_tracee(procs, q));
}

/// Without anybody to wait for, a wait fails with `ECHILD`.
pub proof fn law_nobody_to_wait_for(
    procs: Seq<ProcRecord>,
    children: Seq<usize>,
    exited: Seq<usize>,
    traces: bool,
    q: WaitQuery,
    checked: bool,
)
    requires
        table_wf(procs),
        q.pid > isize::MIN,
        forall|k: int|
            0 <= k < procs.len() && (#[trigger] procs[k]).parent == Some(q.caller)
                ==> children.contains(procs[k].pid),
        forall|i: int, k: int| !asked(procs, children, q, i, k),
        forall|k: int| !asked_tracee(procs, q, k),
    ensures
        wait4_step(wait4_choice(procs, children, exited, traces, q), procs, q.options, checked)
            == Wait4Step::Fail(ECHILD),
{
    lemma_first_ready(procs, exited, q, 0);
    lemma_first_event(procs, children, q, 0);
    lemma_first_tracee(procs, q, 0);
    let n = first_ready(procs, exited, q, 0);
    if n < exited.len() && uses_exit_queue(q) {
        lemma_find(procs, exited[n]);
        let k = find(procs, exited[n])->0;
        let i = choose|i: int| 0 <= i < children.len() && children[i] == procs[k].pid;
        assert(asked(procs, children, q, i, k));
    }
    if let Some((i, e)) = first_event_from(procs, children, q, 0) {
        lemma_find(procs, children[i]);
        assert(asked(procs, children, q, i, find(procs, children[i])->0));
    }
    if let Some((k, e)) = first_tracee_from(procs, q, 0) {
        assert(asked_tracee(procs, q, k));
    }
    if any_child(procs, children, q) {
        let i = choose|i: int|
            0 <= i < children.len() && (#[trigger] find(procs, children[i])) is Some
                && child_matches(procs[find(procs, children[i])->0], q);
        lemma_find(procs, children[i]);
        assert(asked(procs, children, q, i, find(procs, children[i])->0));
    }
    if any_tracee(procs, q) {
        let k = choose|k: int| 0 <= k < procs.len() && tracee_matches(#[trigger] procs[k], q);
        assert(asked_tracee(procs, q, k));
    }
}

/// While nothing happened to anybody, a wait for a child that is there sleeps, after
/// a look at the signals, or returns at once with bit 0 of the options.
pub proof fn law_nothing_happened_yet(
    procs: Seq<ProcRecord>,
    children: Seq<usize>,
    exited: Seq<usize>,
    traces: bool,
    q: WaitQuery,
    checked: bool,
    i: int,
    k: int,
)
    requires
        table_wf(procs),
        asked(procs, children, q, i, k),
        forall|j: int|
            0 <= j < procs.len() ==> !(#[trigger] procs[j]).is_zombie && !procs[j].stop_pending
                && !procs[j].continued,
    ensures
        wait4_step(wait4_choice(procs, children, exited, traces, q), procs, q.options, checked)
            == if q.options & 1 != 0 {
            Wait4Step::NoEvent
        } else if !checked {
            Wait4Step::CheckSignals
        } else {
            Wait4Step::Block
        },
{
    lemma_asked(procs, children, q, i, k);
    lemma_first_ready(procs, exited, q, 0);
    lemma_first_event(procs, children, q, 0);
    lemma_first_tracee(procs, q, 0);
    let n = first_ready(procs, exited, q, 0);
    if n < exited.len() {
        lemma_find(procs, exited[n]);
    }
    if let Some((j, e)) = first_event_from(procs, children, q, 0) {
        lemma_find(procs, children[j]);
        let r = procs[find(procs, children[j])->0];
        assert(!r.is_zombie);
    }
}

/// Children are looked at in order: the first one that was asked for and exited is
/// reaped, if those before it have nothing to tell.
pub proof fn law_first_exit_is_reaped(
    procs: Seq<ProcRecord>,
    children: Seq<usize>,
    exited: Seq<usize>,
    traces: bool,
    q: WaitQuery,
    checked: bool,
    i: int,
    k: int,
)
    requires
        table_wf(procs),
        asked(procs, children, q, i, k),
        procs[k].is_zombie,
        q.pid != -1 || q.options & 0xa != 0,
        forall|j: int, m: int|
            0 <= j < i && asked(procs, children, q, j, m) ==> !procs[m].is_zombie
                && !procs[m].stop_pending && !procs[m].continued,
    ensures
        ({
            let choice = wait4_choice(procs, children, exited, traces, q);
            &&& choice == Wait4Choice::Reap { pid: children[i], slot: Some(i), queued: false }
            &&& wait4_step(choice, procs, q.options, checked) matches Wait4Step::Event {
                pid,
                status,
                reaped,
            } && pid == procs[k].pid && reaped && says_how_it_ended(procs[k], status)
        }),
{
    lemma_asked(procs, children, q, i, k);
    lemma_first_event(procs, children, q, 0);
    law_status_words(procs[k].exit_code, procs[k].dumped_core, 0);
    let o = q.options;
    assert(o & 0xa != 0 ==> o & (2usize | 8usize) != 0) by (bit_vector);
    assert(event_at(procs, children, q, i) == Some(WaitEvent::Exited));
    let (j, e) = first_event_from(procs, children, q, 0)->0;
    if j < i {
        lemma_find(procs, children[j]);
        let m = find(procs, children[j])->0;
        assert(asked(procs, children, q, j, m));
    }
}

/// To wait for the caller's own group is to wait for the group by its number.
pub proof fn law_own_group_by_zero_or_by_number(
    procs: Seq<ProcRecord>,
    children: Seq<usize>,
    exited: Seq<usize>,
    traces: bool,
    q: WaitQuery,
    checked: bool,
)
    requires
        q.pid == 0,
        1 < q.caller_pgid <= isize::MAX,
    ensures
        ({
            let g = WaitQuery { pid: (-(q.caller_pgid as int)) as isize, ..q };
            let zero = wait4_choice(procs, children, exited, traces, q);
            let named = wait4_choice(procs, children, exited, traces, g);
            &&& zero == named
            &&& wait4_step(zero, procs, q.options, checked) == wait4_step(
                named,
                procs,
                g.options,
                checked,
            )
            &&& procs_after(zero, procs_seen(procs, exited, q), children) == procs_after(
                named,
                procs_seen(procs, exited, g),
                children,
            )
            &&& exited_after(zero, exited_seen(procs, exited, q)) == exited_after(
                named,
                exited_seen(procs, exited, g),
            )
        }),
{
    let g = WaitQuery { pid: (-(q.caller_pgid as int)) as isize, ..q };
    assert(g.pid < -1);
    lemma_same_group(procs, children, q, g, 0);
    lemma_no_tracees_by_group(procs, q, 0);
    lemma_no_tracees_by_group(procs, g, 0);
    assert forall|r: ProcRecord| #[trigger] child_matches(r, q) == child_matches(r, g) by {}
    if any_child(procs, children, q) {
        let i = choose|i: int|
            0 <= i < children.len() && (#[trigger] find(procs, children[i])) is Some
                && child_matches(procs[find(procs, children[i])->0], q);
        assert(find(procs, children[i]) is Some && child_matches(
            procs[find(procs, children[i])->0],
            g,
        ));
    }
    if any_child(procs, children, g) {
        let i = choose|i: int|
            0 <= i < children.len() && (#[trigger] find(procs, children[i])) is Some
                && child_matches(procs[find(procs, children[i])->0], g);
        assert(find(procs, children[i]) is Some && child_matches(
            procs[find(procs, children[i])->0],
            q,
        ));
    }
}

proof fn lemma_same_group(
    procs: Seq<ProcRecord>,
    children: Seq<usize>,
    q: WaitQuery,
    g: WaitQuery,
    i: int,
)
    requires
        q.pid == 0,
        g.pid == -(q.caller_pgid as int),
        g.pid < -1,
        g.options == q.options,
        g.caller == q.caller,
        0 <= i <= children.len(),
    ensures
        first_event_from(procs, children, q, i) == first_event_from(procs, children, g, i),
    decreases children.len() - i,
{
    if i < children.len() {
        lemma_same_group(procs, children, q, g, i + 1);
    }
}

proof fn lemma_no_tracees_by_group(procs: Seq<ProcRecord>, q: WaitQuery, i: int)
    requires
        q.pid == 0 || q.pid < -1,
        0 <= i <= procs.len(),
    ensures
        first_tracee_from(procs, q, i) is None,
        !any_tracee(procs, q),
    decreases procs.len() - i,
{
    if i < procs.len() {
        lemma_no_tracees_by_group(procs, q, i + 1);
    }
}

/// A reaped child leaves the table, and all other processes stay as they are, but
/// for the notes of their places in lists.
pub proof fn law_reaping_touches_no_other(
    procs: Seq<ProcRecord>,
    children: Seq<usize>,
    pid: usize,
    slot: Option<int>,
    queued: bool,
    other: int,
)
    requires
        table_wf(procs),
        find(procs, pid) is Some,
        0 <= other < procs.len(),
        procs[other].pid != pid,
    ensures
        ({
            let after = procs_after(Wait4Choice::Reap { pid, slot, queued }, procs, children);
            &&& after.len() == procs.len() - 1
            &&& exists|m: int|
                0 <= m < after.len() && #[trigger] after[m] == (ProcRecord {
                    child_parent_index: after[m].child_parent_index,
                    ..procs[other]
                })
            &&& forall|m: int| 0 <= m < after.len() ==> (#[trigger] after[m]).pid != pid
        }),
{
    let moved = match slot {
        Some(i) => reslotted(procs, children, i),
        None => procs,
    };
    if let Some(i) = slot {
        lemma_reslotted(procs, children, i);
        if i < children.len() - 1 {
            lemma_find(procs, children.last());
        }
    }
    assert(table_wf(moved) && same_pids(procs, moved));
    lemma_find_same_pids(procs, moved, pid, 0);
    lemma_find(moved, pid);
    let k = find(moved, pid)->0;
    let after = moved.remove(k);
    assert(moved[other].pid == procs[other].pid);
    let m = if other < k {
        other
    } else {
        other - 1
    };
    assert(after[m] == moved[other]);
    assert(after[m] == (ProcRecord {
        child_parent_index: after[m].child_parent_index,
        ..procs[other]
    }));
    assert forall|n: int| 0 <= n < after.len() implies (#[trigger] after[n]).pid != pid by {
        let b = if n < k {
            n
        } else {
            n + 1
        };
        assert(after[n] == moved[b]);
        assert(moved[k].pid == pid);
        if b < k {
            assert(moved[b].pid != moved[k].pid);
        } else {
            assert(moved[k].pid != moved[b].pid);
        }
    }
}

/// The parent's count of time grows by what the child and its own children used.
pub proof fn law_time_of_children_adds_up(before: u64, r: ProcRecord)
    requires
        before + r.cpu_time_ns + r.child_cpu_time_ns <= u64::MAX,
    ensures
        sat_sum(before, reaped_cpu(r)) == before + r.cpu_time_ns + r.child_cpu_time_ns,
{
}

/// Options other than the bits 0, 1, 3, 30 and 31, and numbers that cannot be
/// negated, are refused.
pub proof fn law_refused_waits(pid: isize, options: usize)
    ensures
        options & !0xc000_000b != 0 ==> wait4_rejects(pid, options) == Some(EINVAL),
        options & !0xc000_000b == 0 ==> wait4_rejects(pid, options) == if pid == isize::MIN || pid
            == -0x8000_0000 {
            Some(ESRCH)
        } else {
            None
        },
{
    assert(options & 0x2000_0000 != 0 ==> options & !0xc000_000b != 0) by (bit_vector);
}

// ---------------------------------------------------------------------------
// waitid.
// ---------------------------------------------------------------------------

/// The kind of id and the id pick the process: 0 any, 1 one process, 2 a group (0 for
/// the caller's own), 3 the process of a descriptor.
pub open spec fn id_picked(r: ProcRecord, q: IdQuery) -> bool {
    ||| q.idtype == 0
    ||| q.idtype == 1 && r.pid == q.id
    ||| q.idtype == 2 && q.id == 0 && r.pgid == q.caller_pgid
    ||| q.idtype == 2 && q.id != 0 && r.pgid == q.id
    ||| q.idtype == 3 && r.pid == q.pidfd_pid
}

/// What is said of process `k` is true of it, and it was asked for.
pub open spec fn true_info(
    procs: Seq<ProcRecord>,
    children: Seq<usize>,
    q: IdQuery,
    info: WaitInfo,
    reaped: Option<usize>,
    k: int,
) -> bool {
    let r = procs[k];
    &&& 0 <= k < procs.len()
    &&& children.contains(r.pid)
    &&& id_picked(r, q)
    &&& info.si_signo == 17
    &&& info.si_pid == r.pid as i32
    &&& info.si_uid == r.uid
    &&& {
        ||| {
            &&& q.options & 4 != 0 && r.is_zombie
            &&& r.exit_code >= 0 ==> info.si_code == 1 && info.si_status == r.exit_code % 256
            &&& r.exit_code < 0 ==> info.si_status == -r.exit_code && info.si_code == if r.dumped_core {
                3int
            } else {
                2
            }
            &&& reaped == if q.options & 0x100_0000 == 0 {
                Some(r.pid)
            } else {
                None
            }
        }
        ||| {
            &&& q.options & 2 != 0 && r.stopped && r.stop_pending
            &&& info.si_code == 5 && info.si_status == stopper(r)
            &&& reaped is None
        }
        ||| {
            &&& q.options & 8 != 0 && r.continued
            &&& info.si_code == 6 && info.si_status == 18
            &&& reaped is None
        }
    }
}

proof fn lemma_first_id_event(procs: Seq<ProcRecord>, children: Seq<usize>, q: IdQuery, i: int)
    requires
        0 <= i <= children.len(),
    ensures
        match first_id_event(procs, children, q, i) {
            Some((j, e)) => i <= j < children.len() && (find(procs, children[j]) matches Some(k)
                && id_event(procs[k], q) == Some(e)),
            None => forall|m: int|
                i <= m < children.len() ==> (find(procs, #[trigger] children[m]) matches Some(k)
                    ==> id_event(procs[k], q) is None),
        },
    decreases children.len() - i,
{
    if i < children.len() {
        lemma_first_id_event(procs, children, q, i + 1);
    }
}

/// `waitid` reports only children that were asked for, and of each what became of
/// it. The child is gone only if it exited and the report was not to be left.
pub proof fn law_infos_are_true(
    procs: Seq<ProcRecord>,
    children: Seq<usize>,
    q: IdQuery,
    nonblock: bool,
    signal: Option<isize>,
)
    requires
        table_wf(procs),
    ensures
        waitid_step(procs, children, q, nonblock, signal) matches WaitidStep::Info { info, reaped }
            ==> exists|k: int| true_info(procs, children, q, info, reaped, k),
{
    lemma_first_id_event(procs, children, q, 0);
    if let WaitidStep::Info { info, reaped } = waitid_step(procs, children, q, nonblock, signal) {
        let (i, e) = first_id_event(procs, children, q, 0)->0;
        lemma_find(procs, children[i]);
        let k = find(procs, children[i])->0;
        let r = procs[k];
        let c = r.exit_code;
        assert(c >= 0 ==> c & 0xff == c % 256) by (bit_vector);
        assert(children.contains(children[i]));
        assert(true_info(procs, children, q, info, reaped, k));
    }
}

/// A child that was asked for is waited for, and what happened to it is reported if
/// such events were asked for.
pub proof fn law_children_are_waited_for_by_id(
    procs: Seq<ProcRecord>,
    children: Seq<usize>,
    q: IdQuery,
    nonblock: bool,
    i: int,
    k: int,
)
    requires
        table_wf(procs),
        0 <= i < children.len(),
        0 <= k < procs.len(),
        procs[k].pid == children[i],
        id_picked(procs[k], q),
    ensures
        ({
            let r = procs[k];
            let step = waitid_step(procs, children, q, nonblock, None);
            &&& step != WaitidStep::Fail(ECHILD)
            &&& step != WaitidStep::Fail(EINVAL)
            &&& r.is_zombie && q.options & 4 != 0 ==> step is Info
            &&& r.stopped && r.stop_pending && q.options & 2 != 0 ==> step is Info
            &&& r.continued && q.options & 8 != 0 ==> step is Info
            &&& step is NoEvent ==> q.options & 1 != 0
            &&& step is Block ==> q.options & 1 == 0 && !(q.idtype == 3 && nonblock)
            &&& step is Fail ==> step == WaitidStep::Fail(EAGAIN) && q.idtype == 3 && nonblock
                && q.options & 1 == 0
        }),
{
    lemma_find_at(procs, k);
    lemma_first_id_event(procs, children, q, 0);
    assert(find(procs, children[i]) is Some);
    assert(id_matches(procs[k], q));
    assert(any_id(procs, children, q));
    if first_id_event(procs, children, q, 0) is None {
        assert(find(procs, children[i]) matches Some(k) ==> id_event(procs[k], q) is None);
    }
}

/// Without a child that was asked for, `waitid` fails; and a signal comes first.
pub proof fn law_nobody_to_wait_for_by_id(
    procs: Seq<ProcRecord>,
    children: Seq<usize>,
    q: IdQuery,
    nonblock: bool,
    signal: Option<isize>,
)
    requires
        table_wf(procs),
        q.idtype <= 3,
        forall|i: int, k: int|
            0 <= i < children.len() && 0 <= k < procs.len() && #[trigger] procs[k].pid
                == #[trigger] children[i] ==> !id_picked(procs[k], q),
    ensures
        waitid_step(procs, children, q, nonblock, signal) == match signal {
            Some(a) => WaitidStep::Fail(a),
            None => WaitidStep::Fail(ECHILD),
        },
{
    lemma_first_id_event(procs, children, q, 0);
    if let Some((i, e)) = first_id_event(procs, children, q, 0) {
        lemma_find(procs, children[i]);
        let k = find(procs, children[i])->0;
        assert(procs[k].pid == children[i]);
    }
    if any_id(procs, children, q) {
        let i = choose|i: int|
            0 <= i < children.len() && (#[trigger] find(procs, children[i])) is Some && id_matches(
                procs[find(procs, children[i])->0],
                q,
            );
        lemma_find(procs, children[i]);
        let k = find(procs, children[i])->0;
        assert(procs[k].pid == children[i]);
    }
}

/// What `waitid` reports is consumed unless it is to be left: a child that exited leaves
/// the table, a stop or a continuation is not reported again. Nothing else changes but
/// the notes of places in lists.
pub proof fn law_reports_are_consumed_by_id(
    procs: Seq<ProcRecord>,
    children: Seq<usize>,
    q: IdQuery,
    nonblock: bool,
    other: int,
)
    requires
        table_wf(procs),
        0 <= other < procs.len(),
    ensures
        ({
            let t = waitid_procs(procs, children, q, None);
            let step = waitid_step(procs, children, q, nonblock, None);
            &&& !(step is Info) || q.options & 0x100_0000 != 0 ==> t == procs
            &&& step matches WaitidStep::Info { info, reaped } ==> (q.options & 0x100_0000 == 0
                ==> match reaped {
                Some(pid) => {
                    &&& t.len() == procs.len() - 1
                    &&& forall|m: int| 0 <= m < t.len() ==> (#[trigger] t[m]).pid != pid
                    &&& procs[other].pid != pid ==> exists|m: int|
                        0 <= m < t.len() && #[trigger] t[m] == (ProcRecord {
                            child_parent_index: t[m].child_parent_index,
                            ..procs[other]
                        })
                },
                None => {
                    &&& t.len() == procs.len()
                    &&& t[other].pid == procs[other].pid
                    &&& procs[other].pid as i32 == info.si_pid || t[other] == procs[other]
                },
            })
        }),
{
    lemma_first_id_event(procs, children, q, 0);
    let step = waitid_step(procs, children, q, nonblock, None);
    if let WaitidStep::Info { info, reaped } = step {
        let (i, e) = first_id_event(procs, children, q, 0)->0;
        lemma_find(procs, children[i]);
        if q.options & 0x100_0000 == 0 {
            if let Some(pid) = reaped {
                if procs[other].pid != pid {
                    law_reaping_touches_no_other(procs, children, pid, Some(i), false, other);
                } else {
                    lemma_reslotted(procs, children, i);
                    let moved = reslotted(procs, children, i);
                    lemma_find_same_pids(procs, moved, pid, 0);
                    lemma_find(moved, pid);
                    let k = find(moved, pid)->0;
                    let t = moved.remove(k);
                    assert forall|m: int| 0 <= m < t.len() implies (#[trigger] t[m]).pid != pid by {
                        let b = if m < k {
                            m
                        } else {
                            m + 1
                        };
                        assert(t[m] == moved[b]);
                        if b < k {
                            assert(moved[b].pid != moved[k].pid);
                        } else {
                            assert(moved[k].pid != moved[b].pid);
                        }
                    }
                }
            }
        }
    }
}

/// A stop or a continuation that `waitid` reported is gone from the record.
pub proof fn law_events_are_reported_once_by_id(
    procs: Seq<ProcRecord>,
    children: Seq<usize>,
    i: int,
    k: int,
    sig: i32,
)
    requires
        table_wf(procs),
        0 <= i < children.len(),
        0 <= k < procs.len(),
        procs[k].pid == children[i],
    ensures
        !id_procs_after(procs, children, i, WaitEvent::Stopped(sig))[k].stop_pending,
        id_procs_after(procs, children, i, WaitEvent::Stopped(sig))[k].stopped == procs[k].stopped,
        !id_procs_after(procs, children, i, WaitEvent::Continued)[k].continued,
{
    lemma_find_at(procs, k);
}

/// What `waitid` refuses before it looks at any child.
pub proof fn law_refused_waits_by_id(
    idtype: usize,
    id: usize,
    infop: usize,
    options: usize,
    pidfd: PidfdLookup,
)
    ensures
        ({
            let e = waitid_rejects(idtype, id, infop, options, pidfd);
            let bad = options & !0x100_000f != 0 || (options & 4 == 0 && options & 2 == 0 && options
                & 8 == 0);
            &&& bad ==> e == Some(EINVAL)
            &&& !bad && infop == 0 ==> e == Some(EFAULT)
            &&& !bad && infop != 0 && idtype == 1 ==> e == if id == 0 {
                Some(EINVAL)
            } else {
                None
            }
            &&& !bad && infop != 0 && idtype == 3 ==> e == match pidfd {
                PidfdLookup::NotPidfd => Some(EBADF),
                PidfdLookup::Gone => Some(ECHILD),
                PidfdLookup::Target { .. } => None,
            }
            &&& !bad && infop != 0 && idtype != 1 && idtype != 3 ==> e is None
        }),
{
    assert((options & (4usize | 2usize | 8usize) == 0) == (options & 4 == 0 && options & 2 == 0
        && options & 8 == 0)) by (bit_vector);
}

/// The information lies in memory as programs read it: the signal at 0, the kind of
/// event at 8, the process at 16, its owner at 20 and the status at 24; the rest is
/// zero.
pub proof fn law_where_the_information_lies(i: WaitInfo)
    ensures
        ({
            let b = siginfo_bytes(i);
            &&& b.len() == 128
            &&& b.subrange(0, 4) == le32_bytes(i.si_signo as u32)
            &&& b.subrange(8, 12) == le32_bytes(i.si_code as u32)
            &&& b.subrange(16, 20) == le32_bytes(i.si_pid as u32)
            &&& b.subrange(20, 24) == le32_bytes(i.si_uid)
            &&& b.subrange(24, 28) == le32_bytes(i.si_status as u32)
            &&& forall|j: int| 28 <= j < 128 ==> #[trigger] b[j] == 0
        }),
{
    let b = siginfo_bytes(i);
    assert(b.subrange(0, 4) =~= le32_bytes(i.si_signo as u32));
    assert(b.subrange(8, 12) =~= le32_bytes(i.si_code as u32));
    assert(b.subrange(16, 20) =~= le32_bytes(i.si_pid as u32));
    assert(b.subrange(20, 24) =~= le32_bytes(i.si_uid));
    assert(b.subrange(24, 28) =~= le32_bytes(i.si_status as u32));
}

// ---------------------------------------------------------------------------
// Signals.
// ---------------------------------------------------------------------------

/// A pending signal that ends a wait: it has a handler that does not ask for the wait
/// to start over, or its default ends the process.
pub open spec fn ends_wait(bits: u64, actions: Seq<SigAction>, fatal: u64, s: int) -> bool {
    let a = action_of(actions, s);
    &&& 1 <= s <= 64
    &&& has_signal(bits, s)
    &&& (a.handler > 1 && a.flags & 0x1000_0000 == 0) || (a.handler == 0 && has_signal(fatal, s))
}

/// A pending signal whose handler runs before the wait starts over.
pub open spec fn restarts_wait(bits: u64, actions: Seq<SigAction>, s: int) -> bool {
    let a = action_of(actions, s);
    &&& 1 <= s <= 64
    &&& has_signal(bits, s)
    &&& a.handler > 1 && a.flags & 0x1000_0000 != 0
}

/// One pending signal that ends a wait is enough; without such, one that restarts it
/// is. Ignored signals do not matter.
pub proof fn law_signals_end_waits(bits: u64, actions: Seq<SigAction>, fatal: u64)
    ensures
        ({
            let ends = exists|s: int| ends_wait(bits, actions, fatal, s);
            let again = exists|s: int| restarts_wait(bits, actions, s);
            wait_outcome(bits, actions, fatal) == if ends {
                Some(EINTR)
            } else if again {
                Some(ERESTARTSYS)
            } else {
                None
            }
        }),
{
    assert forall|s: int| 1 <= s <= 64 && #[trigger] has_signal(bits, s) implies (ends_wait(
        bits,
        actions,
        fatal,
        s,
    ) <==> reaction(actions, fatal, s) is Interrupt) && (restarts_wait(bits, actions, s)
        <==> reaction(actions, fatal, s) is Restart) by {}
    if exists|s: int| ends_wait(bits, actions, fatal, s) {
        let s = choose|s: int| ends_wait(bits, actions, fatal, s);
        assert(has_signal(bits, s));
    }
    if exists|s: int| restarts_wait(bits, actions, s) {
        let s = choose|s: int| restarts_wait(bits, actions, s);
        assert(has_signal(bits, s));
    }
}

// ---------------------------------------------------------------------------
// Lists.
// ---------------------------------------------------------------------------

/// A reaped child leaves the list of children, and the others stay in it.
pub proof fn law_reaped_children_leave_the_list(
    procs: Seq<ProcRecord>,
    children: Seq<usize>,
    i: int,
    j: int,
    queued: bool,
)
    requires
        table_wf(procs),
        slots_ok(procs, children),
        children.len() <= usize::MAX,
        0 <= i < children.len(),
        0 <= j < children.len(),
    ensures
        ({
            let c = children_after(
                Wait4Choice::Reap { pid: children[i], slot: Some(i), queued },
                children,
            );
            &&& c.len() == children.len() - 1
            &&& !c.contains(children[i])
            &&& j != i ==> c.contains(children[j])
        }),
{
    law_detach_keeps_slots(procs, children, i);
    let c = detached(children, i);
    if j != i {
        if j == children.len() - 1 {
            assert(c[i] == children[j]);
        } else {
            assert(c[j] == children[j]);
        }
    }
}

/// A reaped child leaves the queue of exited children, and the others stay in it; other
/// reports do not touch the queue or the children.
pub proof fn law_reaped_children_leave_the_queue(
    exited: Seq<usize>,
    children: Seq<usize>,
    pid: usize,
    slot: Option<int>,
    other: usize,
    sig: i32,
)
    ensures
        !exited_after(Wait4Choice::Reap { pid, slot, queued: false }, exited).contains(pid),
        other != pid && exited.contains(other) ==> exited_after(
            Wait4Choice::Reap { pid, slot, queued: false },
            exited,
        ).contains(other),
        exited_after(Wait4Choice::Stop { pid, sig }, exited) == exited,
        exited_after(Wait4Choice::Continue { pid }, exited) == exited,
        children_after(Wait4Choice::Stop { pid, sig }, children) == children,
        children_after(Wait4Choice::Continue { pid }, children) == children,
        children_after(Wait4Choice::Waiting, children) == children,
{
    lemma_without(exited, pid, pid);
    lemma_without(exited, pid, other);
}

proof fn lemma_without(s: Seq<usize>, x: usize, y: usize)
    ensures
        without(s, x).contains(y) <==> s.contains(y) && y != x,
    decreases s.len(),
{
    if s.len() > 0 {
        let f = s.drop_last();
        lemma_without(f, x, y);
        let w = without(s, x);
        let v = without(f, x);
        if v.contains(y) {
            let i = choose|i: int| 0 <= i < v.len() && v[i] == y;
            assert(w[i] == y);
        }
        if w.contains(y) {
            let i = choose|i: int| 0 <= i < w.len() && w[i] == y;
            if i < v.len() {
                assert(v[i] == y);
            }
        }
        if f.contains(y) {
            let i = choose|i: int| 0 <= i < f.len() && f[i] == y;
            assert(s[i] == y);
        }
        if s.contains(y) {
            let i = choose|i: int| 0 <= i < s.len() && s[i] == y;
            if i < f.len() {
                assert(f[i] == y);
            }
        }
        if s.last() == y {
            assert(s[s.len() - 1] == y);
            if y != x {
                assert(w[v.len() as int] == y);
            }
        }
    }
}

/// A stop that is reported is marked as reported, and the signal is kept; a continuation
/// likewise. No other process is touched.
pub proof fn law_reports_are_marked(
    procs: Seq<ProcRecord>,
    children: Seq<usize>,
    pid: usize,
    sig: i32,
    k: int,
    j: int,
)
    requires
        table_wf(procs),
        0 <= k < procs.len(),
        0 <= j < procs.len(),
        procs[k].pid == pid,
    ensures
        ({
            let s = procs_after(Wait4Choice::Stop { pid, sig }, procs, children);
            let c = procs_after(Wait4Choice::Continue { pid }, procs, children);
            &&& s.len() == procs.len() && c.len() == procs.len()
            &&& !s[k].stop_pending && s[k].stop_signal == sig && s[k].stopped == procs[k].stopped
                && s[k].pid == pid
            &&& !c[k].continued && c[k].stopped == procs[k].stopped && c[k].pid == pid
            &&& j != k ==> s[j] == procs[j] && c[j] == procs[j]
        }),
{
    lemma_find_at(procs, k);
}

} // verus!
