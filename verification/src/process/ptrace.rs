//! `ptrace`: who traces whom, and stopping and resuming a traced process.

use vstd::prelude::*;
use crate::errno::{EINVAL, EIO, EPERM, ESRCH};
use crate::process::queue::drain_queue;
use crate::process::table::{
    find, lemma_find, lemma_find_same_pids, lemma_update_wf, pid2process, table_wf, ProcRecord,
    RT_SIG_MAX, SIGCHLD_NUM, SIGKILL_NUM, SIGSTOP_NUM,
};

verus! {

pub const PTRACE_TRACEME: usize = 0;
pub const PTRACE_CONT: usize = 7;
pub const PTRACE_KILL: usize = 8;
pub const PTRACE_ATTACH: usize = 16;
pub const PTRACE_DETACH: usize = 17;

/// What tracing reads and changes of one thread.
#[derive(Clone, Copy)]
pub struct TraceTask {
    pub id: usize,
    pub blocked: bool,
    /// The thread is blocked by a stop, and by nothing else.
    pub stopped_by_signal: bool,
}

/// The signal that a traced process stops with after it started a program.
pub const PTRACE_SIGTRAP: i32 = 5;

/// What a tracing request has done to others.
#[derive(Clone, Copy, PartialEq, Eq, Structural)]
pub enum PtraceAction {
    /// A thread of the target is woken.
    Wake(usize),
    /// A signal is queued for the target.
    Signal(usize),
    /// The waiters of a process learn of a state change: see [`wake_waiters_on`].
    Notify(usize),
}

/// The outcome of a tracing request: what it returns, and what is to be done, in
/// this order.
pub struct PtraceOutcome {
    pub ret: isize,
    pub actions: Vec<PtraceAction>,
}

pub open spec fn wakes(tasks: Seq<usize>) -> Seq<PtraceAction> {
    Seq::new(tasks.len(), |i: int| PtraceAction::Wake(tasks[i]))
}

pub open spec fn notices(pids: Seq<usize>) -> Seq<PtraceAction> {
    Seq::new(pids.len(), |i: int| PtraceAction::Notify(pids[i]))
}

/// Threads are woken first, so that the signal finds them; the waiters learn of it
/// last.
pub open spec fn in_order(wake: Seq<usize>, signal: Option<usize>, notify: Seq<usize>) -> Seq<
    PtraceAction,
> {
    let sent = match signal {
        Some(s) => seq![PtraceAction::Signal(s)],
        None => Seq::empty(),
    };
    wakes(wake) + sent + notices(notify)
}

fn put_in_order(wake: &Vec<usize>, signal: Option<usize>, notify: &Vec<usize>) -> (r: Vec<
    PtraceAction,
>)
    ensures
        r@ == in_order(wake@, signal, notify@),
{
    let mut actions: Vec<PtraceAction> = Vec::new();
    let mut i: usize = 0;
    while i < wake.len()
        invariant
            i <= wake.len(),
            actions@ == wakes(wake@.take(i as int)),
        decreases wake.len() - i,
    {
        actions.push(PtraceAction::Wake(wake[i]));
        i += 1;
        assert(actions@ =~= wakes(wake@.take(i as int)));
    }
    assert(wake@.take(i as int) =~= wake@);
    if let Some(s) = signal {
        actions.push(PtraceAction::Signal(s));
    }
    let ghost front = actions@;
    assert(front =~= in_order(wake@, signal, Seq::empty()));
    let mut j: usize = 0;
    while j < notify.len()
        invariant
            j <= notify.len(),
            actions@ == front + notices(notify@.take(j as int)),
        decreases notify.len() - j,
    {
        actions.push(PtraceAction::Notify(notify[j]));
        j += 1;
        assert(actions@ =~= front + notices(notify@.take(j as int)));
    }
    assert(notify@.take(j as int) =~= notify@);
    assert(actions@ =~= in_order(wake@, signal, notify@));
    actions
}

// ---------------------------------------------------------------------------
// Threads.
// ---------------------------------------------------------------------------

/// The threads after a stop: those that ran are blocked by it.
pub open spec fn stopped_tasks(tasks: Seq<TraceTask>) -> Seq<TraceTask> {
    Seq::new(
        tasks.len(),
        |i: int|
            if tasks[i].blocked {
                tasks[i]
            } else {
                TraceTask { blocked: true, stopped_by_signal: true, ..tasks[i] }
            },
    )
}

/// The threads after the stop was lifted.
pub open spec fn resumed_tasks(tasks: Seq<TraceTask>) -> Seq<TraceTask> {
    Seq::new(tasks.len(), |i: int| TraceTask { stopped_by_signal: false, ..tasks[i] })
}

/// The threads that a stop holds, in order.
pub open spec fn held_tasks(tasks: Seq<TraceTask>) -> Seq<usize>
    decreases tasks.len(),
{
    if tasks.len() == 0 {
        Seq::empty()
    } else if tasks.last().stopped_by_signal {
        held_tasks(tasks.drop_last()).push(tasks.last().id)
    } else {
        held_tasks(tasks.drop_last())
    }
}

/// The threads that are not blocked, in order.
pub open spec fn running_tasks(tasks: Seq<TraceTask>) -> Seq<usize>
    decreases tasks.len(),
{
    if tasks.len() == 0 {
        Seq::empty()
    } else if tasks.last().blocked {
        running_tasks(tasks.drop_last())
    } else {
        running_tasks(tasks.drop_last()).push(tasks.last().id)
    }
}

/// Lifting a stop wakes exactly the threads that the stop blocked: one that
/// slept for another reason sleeps on.
pub proof fn law_resume_undoes_stop(tasks: Seq<TraceTask>)
    requires
        forall|i: int| 0 <= i < tasks.len() ==> !(#[trigger] tasks[i]).stopped_by_signal,
    ensures
        held_tasks(stopped_tasks(tasks)) == running_tasks(tasks),
    decreases tasks.len(),
{
    if tasks.len() > 0 {
        let front = tasks.drop_last();
        assert forall|i: int| 0 <= i < front.len() implies !(
        #[trigger] front[i]).stopped_by_signal by {
            assert(front[i] == tasks[i]);
        }
        law_resume_undoes_stop(front);
        assert(stopped_tasks(tasks).drop_last() =~= stopped_tasks(front));
        assert(!tasks[tasks.len() - 1].stopped_by_signal);
    }
}

/// Blocks every thread that is not blocked yet.
fn stop_tasks(tasks: &mut Vec<TraceTask>)
    ensures
        final(tasks)@ == stopped_tasks(old(tasks)@),
{
    let ghost before = tasks@;
    let mut i: usize = 0;
    while i < tasks.len()
        invariant
            before == old(tasks)@,
            i <= tasks.len(),
            tasks@.len() == before.len(),
            forall|j: int| 0 <= j < i ==> #[trigger] tasks@[j] == stopped_tasks(before)[j],
            forall|j: int| i <= j < before.len() ==> #[trigger] tasks@[j] == before[j],
        decreases tasks.len() - i,
    {
        if !tasks[i].blocked {
            tasks[i].blocked = true;
            tasks[i].stopped_by_signal = true;
        }
        i += 1;
    }
    assert(tasks@ =~= stopped_tasks(before));
}

/// Lifts the stop of every thread, and names the threads to wake.
fn resume_tasks(tasks: &mut Vec<TraceTask>) -> (wake: Vec<usize>)
    ensures
        final(tasks)@ == resumed_tasks(old(tasks)@),
        wake@ == held_tasks(old(tasks)@),
{
    let ghost before = tasks@;
    let mut wake: Vec<usize> = Vec::new();
    let mut i: usize = 0;
    while i < tasks.len()
        invariant
            before == old(tasks)@,
            i <= tasks.len(),
            tasks@.len() == before.len(),
            wake@ == held_tasks(before.take(i as int)),
            forall|j: int| 0 <= j < i ==> #[trigger] tasks@[j] == resumed_tasks(before)[j],
            forall|j: int| i <= j < before.len() ==> #[trigger] tasks@[j] == before[j],
        decreases tasks.len() - i,
    {
        assert(before.take(i + 1).drop_last() =~= before.take(i as int));
        assert(tasks@[i as int] == before[i as int]);
        if tasks[i].stopped_by_signal {
            tasks[i].stopped_by_signal = false;
            wake.push(tasks[i].id);
        }
        i += 1;
    }
    assert(before.take(i as int) =~= before);
    assert(tasks@ =~= resumed_tasks(before));
    wake
}

// ---------------------------------------------------------------------------
// Who learns of a state change, and who traces whom.
// ---------------------------------------------------------------------------

/// The processes whose waiters learn of a state change of `r`: its parent, and
/// its tracer if that is another process that still exists.
pub open spec fn observers(procs: Seq<ProcRecord>, r: ProcRecord) -> Seq<usize> {
    let own = match r.parent {
        Some(p) => seq![p],
        None => Seq::empty(),
    };
    match r.tracer {
        Some(t) => if r.parent != Some(t) && find(procs, t) is Some {
            own.push(t)
        } else {
            own
        },
        None => own,
    }
}

/// Nobody is notified twice of one state change.
pub proof fn law_observers_distinct(procs: Seq<ProcRecord>, r: ProcRecord)
    ensures
        observers(procs, r).len() <= 2,
        observers(procs, r).len() == 2 ==> observers(procs, r)[0] != observers(procs, r)[1],
{
}

/// The table after the tracer `t` gained one tracee.
pub open spec fn attached(procs: Seq<ProcRecord>, t: usize) -> Seq<ProcRecord> {
    match find(procs, t) {
        Some(k) => procs.update(
            k,
            ProcRecord {
                tracee_count: if procs[k].tracee_count == usize::MAX {
                    usize::MAX
                } else {
                    (procs[k].tracee_count + 1) as usize
                },
                ..procs[k]
            },
        ),
        None => procs,
    }
}

/// The table after the tracer `t` lost one tracee.
pub open spec fn detached_from(procs: Seq<ProcRecord>, t: usize) -> Seq<ProcRecord> {
    match find(procs, t) {
        Some(k) => procs.update(
            k,
            ProcRecord {
                tracee_count: if procs[k].tracee_count == 0 {
                    0
                } else {
                    (procs[k].tracee_count - 1) as usize
                },
                ..procs[k]
            },
        ),
        None => procs,
    }
}

/// How many processes of the table `t` traces.
pub open spec fn tracees_of(procs: Seq<ProcRecord>, t: usize) -> nat
    decreases procs.len(),
{
    if procs.len() == 0 {
        0
    } else {
        tracees_of(procs.drop_last(), t) + if procs.last().tracer == Some(t) {
            1nat
        } else {
            0nat
        }
    }
}

/// Every process counts its tracees right.
pub open spec fn counts_ok(procs: Seq<ProcRecord>) -> bool {
    forall|i: int|
        0 <= i < procs.len() ==> (#[trigger] procs[i]).tracee_count == tracees_of(
            procs,
            procs[i].pid,
        )
}

proof fn lemma_tracees_update(procs: Seq<ProcRecord>, k: int, r: ProcRecord, t: usize)
    requires
        0 <= k < procs.len(),
    ensures
        tracees_of(procs.update(k, r), t) + (if procs[k].tracer == Some(t) {
            1int
        } else {
            0int
        }) == tracees_of(procs, t) + (if r.tracer == Some(t) {
            1int
        } else {
            0int
        }),
    decreases procs.len(),
{
    let after = procs.update(k, r);
    if k == procs.len() - 1 {
        assert(after.drop_last() =~= procs.drop_last());
    } else {
        lemma_tracees_update(procs.drop_last(), k, r, t);
        assert(after.drop_last() =~= procs.drop_last().update(k, r));
    }
}

proof fn lemma_tracees_bound(procs: Seq<ProcRecord>, t: usize)
    ensures
        tracees_of(procs, t) <= procs.len(),
    decreases procs.len(),
{
    if procs.len() > 0 {
        lemma_tracees_bound(procs.drop_last(), t);
    }
}

/// Starting a trace and counting it on the tracer keeps all counts right.
pub proof fn law_attach_keeps_counts(procs: Seq<ProcRecord>, k: int, r: ProcRecord, t: usize)
    requires
        table_wf(procs),
        counts_ok(procs),
        procs.len() < usize::MAX,
        0 <= k < procs.len(),
        procs[k].tracer is None,
        r.tracer == Some(t),
        r.pid == procs[k].pid,
        r.tracee_count == procs[k].tracee_count,
        r.exit_code == procs[k].exit_code,
    ensures
        counts_ok(attached(procs.update(k, r), t)),
{
    let mid = procs.update(k, r);
    lemma_update_wf(procs, mid);
    let after = attached(mid, t);
    lemma_find(mid, t);
    assert forall|i: int| 0 <= i < after.len() implies (#[trigger] after[i]).tracee_count
        == tracees_of(after, after[i].pid) by {
        let p = mid[i].pid;
        assert(p == procs[i].pid);
        assert(procs[i].tracee_count == tracees_of(procs, p));
        lemma_tracees_update(procs, k, r, p);
        lemma_tracees_bound(procs, p);
        if let Some(m) = find(mid, t) {
            lemma_tracees_update(mid, m, after[m], p);
            if i == m {
                assert(p == t);
            } else {
                assert(mid[i].pid != mid[m].pid);
                assert(p != t);
            }
        } else {
            assert(p != t);
        }
    }
}

/// Ending a trace and counting it off the tracer keeps all counts right.
pub proof fn law_detach_keeps_counts(procs: Seq<ProcRecord>, k: int, r: ProcRecord, t: usize)
    requires
        table_wf(procs),
        counts_ok(procs),
        0 <= k < procs.len(),
        procs[k].tracer == Some(t),
        r.tracer is None,
        r.pid == procs[k].pid,
        r.tracee_count == procs[k].tracee_count,
        r.exit_code == procs[k].exit_code,
    ensures
        counts_ok(detached_from(procs.update(k, r), t)),
{
    let mid = procs.update(k, r);
    lemma_update_wf(procs, mid);
    let after = detached_from(mid, t);
    lemma_find(mid, t);
    assert forall|i: int| 0 <= i < after.len() implies (#[trigger] after[i]).tracee_count
        == tracees_of(after, after[i].pid) by {
        let p = mid[i].pid;
        assert(p == procs[i].pid);
        assert(procs[i].tracee_count == tracees_of(procs, p));
        lemma_tracees_update(procs, k, r, p);
        if let Some(m) = find(mid, t) {
            lemma_tracees_update(mid, m, after[m], p);
            if i == m {
                assert(p == t);
            } else {
                assert(mid[i].pid != mid[m].pid);
                assert(p != t);
            }
        } else {
            assert(p != t);
        }
    }
}

/// Names the processes whose waiters learn of a state change.
pub fn wake_parent_waiters_for(procs: &Vec<ProcRecord>, r: &ProcRecord) -> (notify: Vec<usize>)
    ensures
        notify@ == observers(procs@, *r),
{
    let mut notify: Vec<usize> = Vec::new();
    if let Some(parent) = r.parent {
        notify.push(parent);
    }
    if let Some(tracer) = r.tracer {
        if r.parent != Some(tracer) {
            if pid2process(procs, tracer).is_some() {
                notify.push(tracer);
            }
        }
    }
    assert(notify@ =~= observers(procs@, *r));
    notify
}

/// Lets the waiters of a process know of a state change: the process gets the
/// signal that is returned, and every task of its wait queue is woken once.
pub fn wake_waiters_on(queue: &mut Vec<usize>) -> (r: (usize, Vec<usize>))
    ensures
        r.0 == SIGCHLD_NUM,
        r.1@ == old(queue)@,
        final(queue)@.len() == 0,
{
    (SIGCHLD_NUM, drain_queue(queue))
}

/// Counts one tracee more on the tracer.
fn note_ptrace_attach_to(procs: &mut Vec<ProcRecord>, tracer: usize)
    requires
        table_wf(old(procs)@),
    ensures
        final(procs)@ == attached(old(procs)@, tracer),
        table_wf(final(procs)@),
{
    if let Some(k) = pid2process(procs, tracer) {
        procs[k].tracee_count = procs[k].tracee_count.saturating_add(1);
        proof {
            lemma_update_wf(old(procs)@, procs@);
        }
    }
}

/// Counts one tracee less on the tracer.
fn note_ptrace_detach_from(procs: &mut Vec<ProcRecord>, tracer: usize)
    requires
        table_wf(old(procs)@),
    ensures
        final(procs)@ == detached_from(old(procs)@, tracer),
        table_wf(final(procs)@),
{
    if let Some(k) = pid2process(procs, tracer) {
        procs[k].tracee_count = procs[k].tracee_count.saturating_sub(1);
        proof {
            lemma_update_wf(old(procs)@, procs@);
        }
    }
}

/// Ends the trace of `pid`, if there is one.
pub fn release_ptrace_tracer(procs: &mut Vec<ProcRecord>, pid: usize)
    requires
        table_wf(old(procs)@),
    ensures
        ({
            let p0 = old(procs)@;
            final(procs)@ == match find(p0, pid) {
                Some(k) => match p0[k].tracer {
                    Some(t) => detached_from(
                        p0.update(k, ProcRecord { tracer: None, ..p0[k] }),
                        t,
                    ),
                    None => p0,
                },
                None => p0,
            }
        }),
        table_wf(final(procs)@),
        counts_ok(old(procs)@) ==> counts_ok(final(procs)@),
{
    let ghost p0 = procs@;
    if let Some(k) = pid2process(procs, pid) {
        if let Some(t) = procs[k].tracer {
            procs[k].tracer = None;
            proof {
                lemma_update_wf(p0, procs@);
                if counts_ok(p0) {
                    law_detach_keeps_counts(p0, k as int, procs@[k as int], t);
                }
            }
            note_ptrace_detach_from(procs, t);
        }
    }
}

// ---------------------------------------------------------------------------
// The requests.
// ---------------------------------------------------------------------------

/// The record of a process that enters a stop with signal `sig`.
pub open spec fn in_stop(r: ProcRecord, sig: i32) -> ProcRecord {
    ProcRecord { stopped: true, stop_signal: sig, stop_pending: true, continued: false, ..r }
}

/// The record of a process that runs again; `continued` is what waiters see.
pub open spec fn out_of_stop(r: ProcRecord, continued: bool) -> ProcRecord {
    ProcRecord { stopped: false, stop_pending: false, stop_signal: 0, continued, ..r }
}

/// A traced process enters a stop: its threads are blocked and its observers
/// are named. A process that nobody traces is left alone.
pub fn enter_ptrace_stop(
    procs: &mut Vec<ProcRecord>,
    tasks: &mut Vec<TraceTask>,
    pid: usize,
    signum: i32,
) -> (r: Option<Vec<usize>>)
    requires
        table_wf(old(procs)@),
    ensures
        ({
            let p0 = old(procs)@;
            match find(p0, pid) {
                Some(k) if p0[k].tracer is Some => {
                    &&& r matches Some(notify)
                    &&& notify@ == observers(p0, p0[k])
                    &&& final(procs)@ == p0.update(k, in_stop(p0[k], signum))
                    &&& final(tasks)@ == stopped_tasks(old(tasks)@)
                },
                _ => r is None && final(procs)@ == p0 && final(tasks)@ == old(tasks)@,
            }
        }),
        table_wf(final(procs)@),
{
    let ghost p0 = procs@;
    match pid2process(procs, pid) {
        Some(k) => {
            if procs[k].tracer.is_none() {
                return None;
            }
            procs[k].stopped = true;
            procs[k].stop_signal = signum;
            procs[k].stop_pending = true;
            procs[k].continued = false;
            proof {
                lemma_update_wf(p0, procs@);
            }
            stop_tasks(tasks);
            let rec = procs[k];
            let notify = wake_parent_waiters_for(procs, &rec);
            proof {
                if let Some(t) = rec.tracer {
                    lemma_find_same_pids(p0, procs@, t, 0);
                }
            }
            Some(notify)
        },
        None => None,
    }
}

/// After process `pid` started a program: if it is traced, it stops before the
/// program runs.
pub fn maybe_stop_after_ptrace_exec(
    procs: &mut Vec<ProcRecord>,
    tasks: &mut Vec<TraceTask>,
    pid: usize,
) -> (r: Option<Vec<usize>>)
    requires
        table_wf(old(procs)@),
    ensures
        ({
            let p0 = old(procs)@;
            match find(p0, pid) {
                Some(k) if p0[k].tracer is Some => {
                    &&& r matches Some(notify)
                    &&& notify@ == observers(p0, p0[k])
                    &&& final(procs)@ == p0.update(k, in_stop(p0[k], PTRACE_SIGTRAP))
                    &&& final(tasks)@ == stopped_tasks(old(tasks)@)
                },
                _ => r is None && final(procs)@ == p0 && final(tasks)@ == old(tasks)@,
            }
        }),
        table_wf(final(procs)@),
{
    enter_ptrace_stop(procs, tasks, pid, PTRACE_SIGTRAP)
}

/// Why `me` may not act on `pid` as its tracer.
pub open spec fn target_error(procs: Seq<ProcRecord>, me: usize, pid: usize) -> Option<isize> {
    if pid == 0 {
        Some(ESRCH)
    } else {
        match find(procs, pid) {
            None => Some(ESRCH),
            Some(k) => if procs[k].is_zombie {
                Some(ESRCH)
            } else if procs[k].tracer != Some(me) {
                Some(EPERM)
            } else {
                None
            },
        }
    }
}

/// Finds the tracee `pid` of `me`.
pub fn ptrace_target_for_current(procs: &Vec<ProcRecord>, me: usize, pid: usize) -> (r: Result<
    usize,
    isize,
>)
    ensures
        match r {
            Ok(k) => target_error(procs@, me, pid) is None && k < procs.len() && find(procs@, pid)
                == Some(k as int),
            Err(e) => target_error(procs@, me, pid) == Some(e),
        },
{
    if pid == 0 {
        return Err(ESRCH);
    }
    match pid2process(procs, pid) {
        None => Err(ESRCH),
        Some(k) => {
            if procs[k].is_zombie {
                return Err(ESRCH);
            }
            if procs[k].tracer != Some(me) {
                return Err(EPERM);
            }
            Ok(k)
        },
    }
}

/// What a request returns.
pub open spec fn ptrace_ret(
    procs: Seq<ProcRecord>,
    me: usize,
    can_signal: bool,
    request: usize,
    pid: usize,
    data: usize,
) -> isize {
    if request == PTRACE_TRACEME {
        match find(procs, me) {
            Some(k) => if procs[k].tracer is Some || procs[k].parent is None {
                EPERM
            } else {
                0
            },
            None => EPERM,
        }
    } else if request == PTRACE_ATTACH {
        if pid == me {
            EPERM
        } else {
            match find(procs, pid) {
                None => ESRCH,
                Some(k) => if !can_signal {
                    EPERM
                } else if procs[k].is_zombie {
                    ESRCH
                } else if procs[k].tracer is Some {
                    EPERM
                } else {
                    0
                },
            }
        }
    } else if (request == PTRACE_DETACH || request == PTRACE_CONT) && data > RT_SIG_MAX {
        EINVAL
    } else {
        match target_error(procs, me, pid) {
            Some(e) => e,
            None => if request == PTRACE_DETACH || request == PTRACE_CONT || request
                == PTRACE_KILL {
                0
            } else {
                EIO
            },
        }
    }
}

/// The table after a request that succeeded.
pub open spec fn ptrace_procs(procs: Seq<ProcRecord>, me: usize, request: usize, pid: usize) -> Seq<
    ProcRecord,
> {
    if request == PTRACE_TRACEME {
        let k = find(procs, me)->0;
        let parent = procs[k].parent;
        attached(procs.update(k, ProcRecord { tracer: parent, ..procs[k] }), parent->0)
    } else {
        let k = find(procs, pid)->0;
        if request == PTRACE_ATTACH {
            attached(
                procs.update(
                    k,
                    ProcRecord { tracer: Some(me), ..in_stop(procs[k], SIGSTOP_NUM as i32) },
                ),
                me,
            )
        } else if request == PTRACE_DETACH {
            detached_from(
                procs.update(k, ProcRecord { tracer: None, ..out_of_stop(procs[k], true) }),
                me,
            )
        } else if request == PTRACE_CONT {
            procs.update(k, out_of_stop(procs[k], true))
        } else {
            procs.update(k, out_of_stop(procs[k], false))
        }
    }
}

/// The request lets the target run again.
pub open spec fn resumes(request: usize) -> bool {
    request == PTRACE_DETACH || request == PTRACE_CONT || request == PTRACE_KILL
}

/// What a request that succeeded does to others, in order.
pub open spec fn ptrace_actions(
    procs: Seq<ProcRecord>,
    tasks: Seq<TraceTask>,
    me: usize,
    request: usize,
    pid: usize,
    data: usize,
) -> Seq<PtraceAction> {
    let target = procs[find(procs, pid)->0];
    let wake = if resumes(request) {
        held_tasks(tasks)
    } else {
        Seq::empty()
    };
    let signal = if request == PTRACE_KILL {
        Some(SIGKILL_NUM)
    } else if resumes(request) && data != 0 {
        Some(data)
    } else {
        None
    };
    let notify = if request == PTRACE_ATTACH {
        observers(procs, ProcRecord { tracer: Some(me), ..target })
    } else if request == PTRACE_DETACH {
        observers(procs, ProcRecord { tracer: None, ..target })
    } else if request == PTRACE_CONT {
        observers(procs, target)
    } else {
        Seq::empty()
    };
    in_order(wake, signal, notify)
}

/// A process that is killed is woken first: the last action is the signal, and all
/// before it wake threads.
pub proof fn law_killed_processes_are_woken_first(
    procs: Seq<ProcRecord>,
    tasks: Seq<TraceTask>,
    me: usize,
    pid: usize,
    data: usize,
)
    ensures
        ({
            let actions = ptrace_actions(procs, tasks, me, PTRACE_KILL, pid, data);
            let held = held_tasks(tasks);
            &&& actions.len() == held.len() + 1
            &&& actions.last() == PtraceAction::Signal(SIGKILL_NUM)
            &&& forall|i: int|
                0 <= i < held.len() ==> #[trigger] actions[i] == PtraceAction::Wake(held[i])
        }),
{
}

fn outcome(ret: isize) -> (r: PtraceOutcome)
    ensures
        r.ret == ret,
        r.actions@.len() == 0,
{
    PtraceOutcome { ret, actions: Vec::new() }
}

/// A tracing request of process `me`.
///
/// `tasks` are the threads of the process `pid`, and `can_signal` says whether
/// `me` may send it `SIGSTOP`.
pub fn syscall_ptrace(
    procs: &mut Vec<ProcRecord>,
    tasks: &mut Vec<TraceTask>,
    me: usize,
    can_signal: bool,
    request: usize,
    pid: usize,
    data: usize,
) -> (r: PtraceOutcome)
    requires
        table_wf(old(procs)@),
    ensures
        r.ret == ptrace_ret(old(procs)@, me, can_signal, request, pid, data),
        r.ret != 0 ==> final(procs)@ == old(procs)@ && final(tasks)@ == old(tasks)@
            && r.actions@.len() == 0,
        r.ret == 0 ==> ({
            let p0 = old(procs)@;
            &&& final(procs)@ == ptrace_procs(p0, me, request, pid)
            &&& final(tasks)@ == if request == PTRACE_ATTACH {
                stopped_tasks(old(tasks)@)
            } else if resumes(request) {
                resumed_tasks(old(tasks)@)
            } else {
                old(tasks)@
            }
            &&& r.actions@ == ptrace_actions(p0, old(tasks)@, me, request, pid, data)
        }),
        table_wf(final(procs)@),
        counts_ok(old(procs)@) && old(procs)@.len() < usize::MAX ==> counts_ok(final(procs)@),
{
    let ghost p0 = procs@;
    if request == PTRACE_TRACEME {
        let k = match pid2process(procs, me) {
            Some(k) => k,
            None => {
                return outcome(EPERM);
            },
        };
        if procs[k].tracer.is_some() {
            return outcome(EPERM);
        }
        let parent = match procs[k].parent {
            Some(p) => p,
            None => {
                return outcome(EPERM);
            },
        };
        procs[k].tracer = Some(parent);
        proof {
            lemma_update_wf(p0, procs@);
            if counts_ok(p0) && p0.len() < usize::MAX {
                law_attach_keeps_counts(p0, k as int, procs@[k as int], parent);
            }
        }
        note_ptrace_attach_to(procs, parent);
        let done = outcome(0);
        assert(done.actions@ =~= ptrace_actions(p0, tasks@, me, request, pid, data));
        return done;
    }
    if request == PTRACE_ATTACH {
        if pid == me {
            return outcome(EPERM);
        }
        let k = match pid2process(procs, pid) {
            Some(k) => k,
            None => {
                return outcome(ESRCH);
            },
        };
        if !can_signal {
            return outcome(EPERM);
        }
        if procs[k].is_zombie {
            return outcome(ESRCH);
        }
        if procs[k].tracer.is_some() {
            return outcome(EPERM);
        }
        procs[k].tracer = Some(me);
        procs[k].stopped = true;
        procs[k].stop_pending = true;
        procs[k].stop_signal = SIGSTOP_NUM as i32;
        procs[k].continued = false;
        let rec = procs[k];
        let ghost p1 = procs@;
        proof {
            assert(p1 =~= p0.update(
                k as int,
                ProcRecord {
                    tracer: Some(me),
                    ..in_stop(p0[k as int], SIGSTOP_NUM as i32)
                },
            ));
            lemma_update_wf(p0, p1);
            if counts_ok(p0) && p0.len() < usize::MAX {
                law_attach_keeps_counts(p0, k as int, p1[k as int], me);
            }
        }
        note_ptrace_attach_to(procs, me);
        stop_tasks(tasks);
        let notify = wake_parent_waiters_for(procs, &rec);
        proof {
            lemma_find(p1, me);
            lemma_update_wf(p1, procs@);
            lemma_find_same_pids(p0, p1, me, 0);
            lemma_find_same_pids(p1, procs@, me, 0);
        }
        return PtraceOutcome { ret: 0, actions: put_in_order(&Vec::new(), None, &notify) };
    }
    if (request == PTRACE_DETACH || request == PTRACE_CONT) && data > RT_SIG_MAX {
        return outcome(EINVAL);
    }
    let k = match ptrace_target_for_current(procs, me, pid) {
        Ok(k) => k,
        Err(e) => {
            return outcome(e);
        },
    };
    if request != PTRACE_DETACH && request != PTRACE_CONT && request != PTRACE_KILL {
        return outcome(EIO);
    }
    procs[k].stopped = false;
    procs[k].stop_pending = false;
    procs[k].stop_signal = 0;
    if request == PTRACE_DETACH {
        procs[k].tracer = None;
        procs[k].continued = true;
        let rec = procs[k];
        let ghost p1 = procs@;
        proof {
            assert(p1 =~= p0.update(
                k as int,
                ProcRecord { tracer: None, ..out_of_stop(p0[k as int], true) },
            ));
            lemma_update_wf(p0, p1);
            if counts_ok(p0) {
                law_detach_keeps_counts(p0, k as int, p1[k as int], me);
            }
        }
        note_ptrace_detach_from(procs, me);
        let wake = resume_tasks(tasks);
        let notify = wake_parent_waiters_for(procs, &rec);
        let signal: Option<usize> = if data != 0 {
            Some(data)
        } else {
            None
        };
        return PtraceOutcome { ret: 0, actions: put_in_order(&wake, signal, &notify) };
    }
    proof {
        assert forall|c: bool| counts_ok(p0) implies counts_ok(
            #[trigger] p0.update(k as int, out_of_stop(p0[k as int], c)),
        ) by {
            lemma_same_counts(p0, k as int, out_of_stop(p0[k as int], c));
        }
    }
    if request == PTRACE_CONT {
        procs[k].continued = true;
        let rec = procs[k];
        proof {
            lemma_update_wf(p0, procs@);
            lemma_find_same_pids(p0, procs@, me, 0);
            assert(procs@ =~= p0.update(k as int, out_of_stop(p0[k as int], true)));
        }
        let wake = resume_tasks(tasks);
        let notify = wake_parent_waiters_for(procs, &rec);
        let signal: Option<usize> = if data != 0 {
            Some(data)
        } else {
            None
        };
        return PtraceOutcome { ret: 0, actions: put_in_order(&wake, signal, &notify) };
    }
    procs[k].continued = false;
    proof {
        lemma_update_wf(p0, procs@);
        assert(procs@ =~= p0.update(k as int, out_of_stop(p0[k as int], false)));
    }
    let wake = resume_tasks(tasks);
    PtraceOutcome { ret: 0, actions: put_in_order(&wake, Some(SIGKILL_NUM), &Vec::new()) }
}

proof fn lemma_same_counts(procs: Seq<ProcRecord>, k: int, r: ProcRecord)
    requires
        counts_ok(procs),
        0 <= k < procs.len(),
        r.tracer == procs[k].tracer,
        r.pid == procs[k].pid,
        r.tracee_count == procs[k].tracee_count,
    ensures
        counts_ok(procs.update(k, r)),
{
    let after = procs.update(k, r);
    assert forall|i: int| 0 <= i < after.len() implies (#[trigger] after[i]).tracee_count
        == tracees_of(after, after[i].pid) by {
        lemma_tracees_update(procs, k, r, after[i].pid);
        assert(procs[i].tracee_count == tracees_of(procs, procs[i].pid));
    }
}

} // verus!
