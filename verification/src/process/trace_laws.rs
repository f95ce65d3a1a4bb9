//! What tracing requests do, by their numbers.

use vstd::prelude::*;
use crate::errno::{EINVAL, EIO, EPERM, ESRCH};
use crate::process::ptrace::{
    attached, detached_from, held_tasks, in_order, observers, ptrace_actions, ptrace_procs, ptrace_ret, resumed_tasks,
    running_tasks, stopped_tasks, PtraceAction, TraceTask,
};
use crate::process::table::{
    find, lemma_find, lemma_find_at, lemma_find_same_pids, same_pids, table_wf, ProcRecord,
};

verus! {

/// Request 0: a process asks its parent to trace it. That needs a parent, and nobody
/// who traces it already.
pub proof fn law_being_traced_by_the_parent(
    procs: Seq<ProcRecord>,
    me: usize,
    k: int,
    can_signal: bool,
    pid: usize,
    data: usize,
)
    requires
        table_wf(procs),
        0 <= k < procs.len(),
        procs[k].pid == me,
    ensures
        ({
            let refused = procs[k].tracer is Some || procs[k].parent is None;
            &&& ptrace_ret(procs, me, can_signal, 0, pid, data) == if refused {
                EPERM
            } else {
                0
            }
            &&& !refused && procs[k].parent != Some(me) ==> {
                let t = ptrace_procs(procs, me, 0, pid);
                t[k].tracer == procs[k].parent && t[k].stopped == procs[k].stopped
            }
        }),
{
    lemma_find_at(procs, k);
    if let Some(p) = procs[k].parent {
        let mid = procs.update(k, ProcRecord { tracer: procs[k].parent, ..procs[k] });
        lemma_find(mid, p);
    }
}

/// Request 16: a process is traced by another one that may send it signals, if it is
/// alive and nobody traces it yet. It stops with signal 19.
pub proof fn law_attaching(
    procs: Seq<ProcRecord>,
    me: usize,
    can_signal: bool,
    pid: usize,
    data: usize,
    k: int,
)
    requires
        table_wf(procs),
        0 <= k < procs.len(),
        procs[k].pid == pid,
    ensures
        ({
            let r = ptrace_ret(procs, me, can_signal, 16, pid, data);
            &&& pid == me ==> r == EPERM
            &&& pid != me && !can_signal ==> r == EPERM
            &&& pid != me && can_signal && procs[k].is_zombie ==> r == ESRCH
            &&& pid != me && can_signal && !procs[k].is_zombie && procs[k].tracer is Some ==> r
                == EPERM
            &&& pid != me && can_signal && !procs[k].is_zombie && procs[k].tracer is None ==> {
                let t = ptrace_procs(procs, me, 16, pid)[k];
                &&& r == 0
                &&& t.tracer == Some(me)
                &&& t.stopped && t.stop_pending && t.stop_signal == 19 && !t.continued
            }
        }),
{
    lemma_find_at(procs, k);
    let mid = ptrace_procs(procs, me, 16, pid);
    lemma_find(procs, me);
    let stopped = procs.update(
        k,
        ProcRecord {
            tracer: Some(me),
            ..crate::process::ptrace::in_stop(procs[k], 19)
        },
    );
    lemma_find(stopped, me);
}

/// The requests that need a tracer are refused for processes that are not there, are
/// no more, or are traced by somebody else.
pub proof fn law_only_tracers_act(
    procs: Seq<ProcRecord>,
    me: usize,
    can_signal: bool,
    request: usize,
    pid: usize,
    data: usize,
    k: int,
)
    requires
        table_wf(procs),
        request == 7 || request == 8 || request == 17,
        data <= 64,
        pid != 0,
    ensures
        (forall|j: int| 0 <= j < procs.len() ==> (#[trigger] procs[j]).pid != pid) ==> ptrace_ret(
            procs,
            me,
            can_signal,
            request,
            pid,
            data,
        ) == ESRCH,
        0 <= k < procs.len() && procs[k].pid == pid ==> ptrace_ret(
            procs,
            me,
            can_signal,
            request,
            pid,
            data,
        ) == if procs[k].is_zombie {
            ESRCH
        } else if procs[k].tracer == Some(me) {
            0
        } else {
            EPERM
        },
{
    lemma_find(procs, pid);
    if 0 <= k < procs.len() && procs[k].pid == pid {
        lemma_find_at(procs, k);
    }
}

/// Signals above 64 cannot be passed on, and other requests are not known.
pub proof fn law_bad_requests(
    procs: Seq<ProcRecord>,
    me: usize,
    can_signal: bool,
    request: usize,
    pid: usize,
    data: usize,
    k: int,
)
    requires
        table_wf(procs),
        0 <= k < procs.len(),
        procs[k].pid == pid,
        pid != 0,
        !procs[k].is_zombie,
        procs[k].tracer == Some(me),
    ensures
        (request == 7 || request == 17) && data > 64 ==> ptrace_ret(
            procs,
            me,
            can_signal,
            request,
            pid,
            data,
        ) == EINVAL,
        request != 0 && request != 7 && request != 8 && request != 16 && request != 17
            ==> ptrace_ret(procs, me, can_signal, request, pid, data) == EIO,
{
    lemma_find_at(procs, k);
}

/// A process that goes on (7), is let go (17) or killed (8) is not stopped any more.
/// Waiters learn that it went on, but not of one that is killed. One that is let go has
/// no tracer, and the others keep theirs.
pub proof fn law_going_on(
    procs: Seq<ProcRecord>,
    me: usize,
    request: usize,
    pid: usize,
    k: int,
)
    requires
        table_wf(procs),
        0 <= k < procs.len(),
        procs[k].pid == pid,
        pid != me,
        request == 7 || request == 8 || request == 17,
    ensures
        ({
            let t = ptrace_procs(procs, me, request, pid);
            &&& t.len() == procs.len()
            &&& !t[k].stopped && !t[k].stop_pending && t[k].stop_signal == 0
            &&& t[k].continued <==> request != 8
            &&& request == 17 ==> t[k].tracer is None
            &&& request != 17 ==> t[k].tracer == procs[k].tracer
            &&& forall|j: int|
                0 <= j < procs.len() && j != k ==> (#[trigger] t[j]) == (ProcRecord {
                    tracee_count: t[j].tracee_count,
                    ..procs[j]
                })
        }),
{
    lemma_find_at(procs, k);
    let mid = procs.update(
        k,
        ProcRecord { tracer: None, ..crate::process::ptrace::out_of_stop(procs[k], true) },
    );
    lemma_find(mid, me);
}

/// A signal that is passed on with a request reaches the process; 8 kills it with
/// signal 9. Nothing else sends a signal.
pub proof fn law_signals_of_requests(
    procs: Seq<ProcRecord>,
    tasks: Seq<TraceTask>,
    me: usize,
    request: usize,
    pid: usize,
    data: usize,
    s: usize,
)
    ensures
        ptrace_actions(procs, tasks, me, request, pid, data).contains(PtraceAction::Signal(s))
            <==> (request == 8 && s == 9) || ((request == 7 || request == 17) && data != 0 && s
            == data),
{
    let all = ptrace_actions(procs, tasks, me, request, pid, data);
    let wake = if request == 7 || request == 8 || request == 17 {
        held_tasks(tasks)
    } else {
        Seq::empty()
    };
    let n = wake.len() as int;
    let sent = (request == 8) || ((request == 7 || request == 17) && data != 0);
    let sig = if request == 8 {
        9usize
    } else {
        data
    };
    if sent {
        assert(all[n] == PtraceAction::Signal(sig));
    }
    if all.contains(PtraceAction::Signal(s)) {
        let i = choose|i: int| 0 <= i < all.len() && all[i] == PtraceAction::Signal(s);
        if i < n {
            assert(all[i] is Wake);
        } else if sent && i == n {
        } else {
            assert(all[i] is Notify);
        }
    }
}

/// The threads that a stop holds are woken, each of them, by requests that let the
/// process run, and by no other.
pub proof fn law_threads_of_requests(
    procs: Seq<ProcRecord>,
    tasks: Seq<TraceTask>,
    me: usize,
    request: usize,
    pid: usize,
    data: usize,
    i: int,
)
    requires
        0 <= i < tasks.len(),
    ensures
        (request == 7 || request == 8 || request == 17) && tasks[i].stopped_by_signal
            ==> ptrace_actions(procs, tasks, me, request, pid, data).contains(
            PtraceAction::Wake(tasks[i].id),
        ),
        !(request == 7 || request == 8 || request == 17) ==> !ptrace_actions(
            procs,
            tasks,
            me,
            request,
            pid,
            data,
        ).contains(PtraceAction::Wake(tasks[i].id)),
{
    let all = ptrace_actions(procs, tasks, me, request, pid, data);
    if request == 7 || request == 8 || request == 17 {
        lemma_held(tasks, tasks[i].id);
        if tasks[i].stopped_by_signal {
            let held = held_tasks(tasks);
            let j = choose|j: int| 0 <= j < held.len() && held[j] == tasks[i].id;
            assert(all[j] == PtraceAction::Wake(tasks[i].id));
        }
    } else {
        if all.contains(PtraceAction::Wake(tasks[i].id)) {
            let j = choose|j: int|
                0 <= j < all.len() && all[j] == PtraceAction::Wake(tasks[i].id);
            assert(all[j] is Notify);
        }
    }
}

proof fn lemma_held(tasks: Seq<TraceTask>, id: usize)
    ensures
        held_tasks(tasks).contains(id) <==> exists|i: int|
            0 <= i < tasks.len() && (#[trigger] tasks[i]).stopped_by_signal && tasks[i].id == id,
    decreases tasks.len(),
{
    if tasks.len() > 0 {
        let front = tasks.drop_last();
        lemma_held(front, id);
        let h = held_tasks(tasks);
        let f = held_tasks(front);
        if f.contains(id) {
            let j = choose|j: int| 0 <= j < f.len() && f[j] == id;
            assert(h[j] == id);
            let i = choose|i: int|
                0 <= i < front.len() && (#[trigger] front[i]).stopped_by_signal && front[i].id == id;
            assert(tasks[i].stopped_by_signal && tasks[i].id == id);
        }
        if h.contains(id) {
            let j = choose|j: int| 0 <= j < h.len() && h[j] == id;
            if j < f.len() {
                assert(f[j] == id);
            } else {
                assert(tasks[tasks.len() - 1].stopped_by_signal);
            }
        }
        if exists|i: int|
            0 <= i < tasks.len() && (#[trigger] tasks[i]).stopped_by_signal && tasks[i].id == id {
            let i = choose|i: int|
                0 <= i < tasks.len() && (#[trigger] tasks[i]).stopped_by_signal && tasks[i].id == id;
            if i < front.len() {
                assert(front[i].stopped_by_signal && front[i].id == id);
            } else {
                assert(h[f.len() as int] == id);
            }
        }
    }
}

/// The parent and the tracer of a process learn of its changes, each once.
pub proof fn law_who_is_told(procs: Seq<ProcRecord>, r: ProcRecord, p: usize)
    ensures
        observers(procs, r).contains(p) <==> r.parent == Some(p) || (r.tracer == Some(p) && find(
            procs,
            p,
        ) is Some),
        observers(procs, r).no_duplicates(),
{
    let o = observers(procs, r);
    if o.contains(p) {
        let i = choose|i: int| 0 <= i < o.len() && o[i] == p;
    }
    if r.parent == Some(p) {
        assert(o[0] == p);
    }
    if r.tracer == Some(p) && find(procs, p) is Some && r.parent != Some(p) {
        assert(o[o.len() - 1] == p);
    }
}

/// A stop blocks the threads that run, and remembers which; the others keep the reason
/// that they sleep for.
pub proof fn law_stops_hold_running_threads(tasks: Seq<TraceTask>, i: int)
    requires
        0 <= i < tasks.len(),
    ensures
        stopped_tasks(tasks).len() == tasks.len(),
        stopped_tasks(tasks)[i].blocked,
        stopped_tasks(tasks)[i].id == tasks[i].id,
        !tasks[i].blocked ==> stopped_tasks(tasks)[i].stopped_by_signal,
        tasks[i].blocked ==> stopped_tasks(tasks)[i] == tasks[i],
        resumed_tasks(tasks).len() == tasks.len(),
        !resumed_tasks(tasks)[i].stopped_by_signal,
        resumed_tasks(tasks)[i].id == tasks[i].id,
{
}

/// Who traces one process more is counted up by one, who traces one less down, and no
/// other record changes.
pub proof fn law_tracees_are_counted(procs: Seq<ProcRecord>, k: int, j: int)
    requires
        table_wf(procs),
        0 <= k < procs.len(),
        0 <= j < procs.len(),
        procs[k].tracee_count < usize::MAX,
    ensures
        ({
            let up = attached(procs, procs[k].pid);
            let down = detached_from(procs, procs[k].pid);
            &&& up.len() == procs.len() && up[k].tracee_count == procs[k].tracee_count + 1
                && up[k].pid == procs[k].pid
            &&& down.len() == procs.len() && down[k].pid == procs[k].pid
            &&& procs[k].tracee_count > 0 ==> down[k].tracee_count == procs[k].tracee_count - 1
            &&& procs[k].tracee_count == 0 ==> down[k].tracee_count == 0
            &&& j != k ==> up[j] == procs[j] && down[j] == procs[j]
        }),
{
    lemma_find_at(procs, k);
}

} // verus!
