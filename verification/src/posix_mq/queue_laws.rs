//! What calls on message queues come to, said with the numbers that programs use.

use vstd::prelude::*;
use vstd::utf8::valid_utf8;
use crate::errno::{
    EACCES, EAGAIN, EBADF, EBUSY, EEXIST, EFAULT, EINTR, EINVAL, EMSGSIZE, ENAMETOOLONG, ENOENT, ENOSPC,
    ETIMEDOUT,
};
use crate::posix_mq::abi::{
    deadline_of, expired, name_error, name_value, timer_ms, TimeSpec,
};
use crate::posix_mq::access::{may_access, owns, Cred, MqPerm};
use crate::posix_mq::manager::{
    closed_once, decimal, is_new_queue, is_opened, named, nameless, open_error, unlink_error,
    wants_read, wants_write, MqManager, MqOpenCall,
    MqOpened,
};
use crate::posix_mq::notify::{
    delivery_of, notify_error, registers, removal_of, Notification, NotifyRegistration, Sigevent,
};
use crate::posix_mq::queue::{
    asks_to_be_told, asleep, attributes, deadline, own_registration, put, receive_error,
    send_error, sends, sleep_error, slot_from, takes, Attempt, MqDescriptor, MqQueue, ReceiveStep,
    SendStep,
};
use crate::text::{index_or_end, lemma_index_or_end};

verus! {

// ---------------------------------------------------------------------------
// Names.
// ---------------------------------------------------------------------------

/// Bytes that can be a queue's name.
pub open spec fn good_name(n: Seq<u8>) -> bool {
    &&& 1 <= n.len() <= 255
    &&& forall|i: int| 0 <= i < n.len() ==> #[trigger] n[i] != 0 && n[i] != 0x2f
    &&& valid_utf8(n)
}

proof fn lemma_end(mem: Seq<u8>, k: int)
    requires
        0 <= k < mem.len(),
        mem[k] == 0,
        forall|i: int| 0 <= i < k ==> #[trigger] mem[i] != 0,
    ensures
        index_or_end(mem, 0, 0) == k,
{
    lemma_index_or_end(mem, 0, 0);
    let e = index_or_end(mem, 0, 0);
    if e < k {
        assert(mem[e] != 0);
    }
}

/// A queue is meant by its name with or without a slash in front, up to the zero.
pub proof fn law_names_are_read(ptr: usize, n: Seq<u8>, more: Seq<u8>)
    requires
        ptr != 0,
        good_name(n),
    ensures
        name_error(ptr, seq![0x2fu8] + n + seq![0u8] + more) is None,
        name_value(seq![0x2fu8] + n + seq![0u8] + more) == n,
        name_error(ptr, n + seq![0u8] + more) is None,
        name_value(n + seq![0u8] + more) == n,
{
    let a = seq![0x2fu8] + n + seq![0u8] + more;
    let b = n + seq![0u8] + more;
    assert forall|i: int| 0 <= i < n.len() + 1 implies #[trigger] a[i] != 0 by {
        if i > 0 {
            assert(a[i] == n[i - 1]);
        }
    }
    assert forall|i: int| 0 <= i < n.len() implies #[trigger] b[i] != 0 by {
        assert(b[i] == n[i]);
    }
    lemma_end(a, n.len() as int + 1);
    lemma_end(b, n.len() as int);
    assert(a.take(n.len() as int + 1).skip(1) =~= n);
    assert(b.take(n.len() as int) =~= n);
    assert(n[0] != 0x2f);
    if n.contains(0x2fu8) {
        let i = choose|i: int| 0 <= i < n.len() && n[i] == 0x2fu8;
        assert(n[i] != 0x2f);
    }
}

/// Names that are refused: none at all, too long ones, those with a slash inside, and
/// those that cannot be read to their end.
pub proof fn law_refused_names(ptr: usize, mem: Seq<u8>, k: int)
    ensures
        ptr == 0 ==> name_error(ptr, mem) == Some(EFAULT),
        ptr != 0 && mem.len() <= 256 && (forall|i: int|
            0 <= i < mem.len() ==> #[trigger] mem[i] != 0) ==> name_error(ptr, mem) == Some(EFAULT),
        ptr != 0 && mem.len() > 256 && (forall|i: int| 0 <= i <= 256 ==> #[trigger] mem[i] != 0)
            ==> name_error(ptr, mem) == Some(ENAMETOOLONG),
        ptr != 0 && mem.len() > 0 && mem[0] == 0 ==> name_error(ptr, mem) == Some(EINVAL),
        ptr != 0 && mem.len() > 1 && mem[0] == 0x2f && mem[1] == 0 ==> name_error(ptr, mem) == Some(
            EINVAL,
        ),
        ptr != 0 && 0 < k < 255 && k + 1 < mem.len() && mem[k] == 0x2f && mem[k + 1] == 0 && (
        forall|i: int| 0 <= i < k ==> #[trigger] mem[i] != 0) ==> name_error(ptr, mem) == Some(
            EINVAL,
        ),
{
    lemma_index_or_end(mem, 0, 0);
    let e = index_or_end(mem, 0, 0);
    if mem.len() > 256 && (forall|i: int| 0 <= i <= 256 ==> #[trigger] mem[i] != 0) && e <= 256 {
        assert(mem[e] != 0);
    }
    if mem.len() > 0 && mem[0] == 0 {
        lemma_end(mem, 0);
        assert(mem.take(0).len() == 0);
    }
    if mem.len() > 1 && mem[0] == 0x2f && mem[1] == 0 {
        lemma_end(mem, 1);
    }
    if 0 < k < 255 && k + 1 < mem.len() && mem[k] == 0x2f && mem[k + 1] == 0 && (forall|i: int|
        0 <= i < k ==> #[trigger] mem[i] != 0) {
        assert forall|i: int| 0 <= i < k + 1 implies #[trigger] mem[i] != 0 by {}
        lemma_end(mem, k + 1);
        let name = name_value(mem);
        assert(name.last() == 0x2f);
        assert(name[name.len() - 1] == 0x2f);
    }
}

// ---------------------------------------------------------------------------
// Who may do what.
// ---------------------------------------------------------------------------

/// Root may do everything; the owner goes by the first three bits, the group by the
/// next, all others by the last.
pub proof fn law_permissions(perm: MqPerm, cred: Cred, need_read: bool, need_write: bool)
    ensures
        ({
            let member = cred.egid == perm.gid || exists|i: int|
                0 <= i < cred.groups@.len() && #[trigger] cred.groups@[i] == perm.gid;
            let r = may_access(perm, cred, need_read, need_write);
            &&& cred.euid == 0 ==> r
            &&& cred.euid != 0 && cred.euid == perm.uid ==> (r <==> (!need_read || perm.mode & 256
                != 0) && (!need_write || perm.mode & 128 != 0))
            &&& cred.euid != 0 && cred.euid != perm.uid && member ==> (r <==> (!need_read
                || perm.mode & 32 != 0) && (!need_write || perm.mode & 16 != 0))
            &&& cred.euid != 0 && cred.euid != perm.uid && !member ==> (r <==> (!need_read
                || perm.mode & 4 != 0) && (!need_write || perm.mode & 2 != 0))
            &&& owns(perm, cred) <==> cred.euid == 0 || cred.euid == perm.uid
        }),
{
    if cred.groups@.contains(perm.gid) {
        let i = choose|i: int| 0 <= i < cred.groups@.len() && cred.groups@[i] == perm.gid;
        assert(cred.groups@[i] == perm.gid);
    }
}

// ---------------------------------------------------------------------------
// Opening and removing.
// ---------------------------------------------------------------------------

/// The two low bits say how a queue is opened: 0 to receive, 1 to send, 2 for both; 3
/// is refused.
pub proof fn law_ways_to_open(oflag: usize)
    ensures
        wants_read(oflag) <==> oflag % 4 == 0 || oflag % 4 == 2,
        wants_write(oflag) <==> oflag % 4 == 1 || oflag % 4 == 2,
{
    assert(oflag & 3 == oflag % 4) by (bit_vector);
}

/// Opening a queue that is there fails if it was to be new, or may not be opened in
/// this way.
pub proof fn law_opening_what_is_there(m: MqManager, c: MqOpenCall, cred: Cred, k: int)
    requires
        name_error(c.name_ptr, c.name@) is None,
        c.oflag % 4 != 3,
        named(m, name_value(c.name@)) == Some(k),
    ensures
        open_error(m, c, cred) == if c.oflag & 0x40 != 0 && c.oflag & 0x80 != 0 {
            Some(EEXIST)
        } else if may_access(
            m.by_id@[k].perm,
            cred,
            c.oflag % 4 == 0 || c.oflag % 4 == 2,
            c.oflag % 4 == 1 || c.oflag % 4 == 2,
        ) {
            None
        } else {
            Some(EACCES)
        },
{
    law_ways_to_open(c.oflag);
}

/// A queue that is not there is made only on request, with sensible sizes, and while
/// there is room for one more.
pub proof fn law_making_a_queue(m: MqManager, c: MqOpenCall, cred: Cred)
    requires
        name_error(c.name_ptr, c.name@) is None,
        c.oflag % 4 != 3,
        named(m, name_value(c.name@)) is None,
    ensures
        ({
            let e = open_error(m, c, cred);
            let sized = c.attr_ptr == 0 || (c.attr matches Some(a) && a.mq_maxmsg > 0
                && a.mq_msgsize > 0);
            &&& c.oflag & 0x40 == 0 ==> e == Some(ENOENT)
            &&& c.oflag & 0x40 != 0 && c.attr_ptr != 0 && c.attr is None ==> e == Some(EFAULT)
            &&& c.oflag & 0x40 != 0 && c.attr_ptr != 0 && c.attr is Some && !sized ==> e == Some(
                EINVAL,
            )
            &&& c.oflag & 0x40 != 0 && sized ==> e == if m.by_id@.len() < c.queues_max {
                None
            } else {
                Some(ENOSPC)
            }
        }),
{
    law_ways_to_open(c.oflag);
}

/// A new queue belongs to who made it, is empty, and has the sizes that were asked for:
/// without any, ten messages of 8192 bytes.
pub proof fn law_new_queues(q: MqQueue, id: usize, c: MqOpenCall, cred: Cred, opens: int)
    requires
        is_new_queue(q, id, c, cred, opens),
    ensures
        q.id == id,
        q.perm.uid == cred.euid,
        q.perm.gid == cred.egid,
        c.mode <= 0o777 ==> q.perm.mode == c.mode,
        q.messages@.len() == 0,
        q.notify is None,
        c.attr_ptr == 0 ==> q.maxmsg == 10 && q.msgsize == 8192,
        c.attr_ptr != 0 ==> (c.attr matches Some(a) ==> (0 < a.mq_maxmsg <= usize::MAX ==> q.maxmsg
            == a.mq_maxmsg) && (0 < a.mq_msgsize <= usize::MAX ==> q.msgsize == a.mq_msgsize)),
        q.name matches Some(n) && n@ == name_value(c.name@),
{
    let m = c.mode as u16;
    assert(m <= 0o777 ==> m & 0o777 == m) by (bit_vector);
}

/// A descriptor does what it was opened for.
pub proof fn law_descriptors(o: MqOpened, fd: usize, id: usize, c: MqOpenCall, cred: Cred)
    requires
        is_opened(o, fd, id, c, cred),
    ensures
        o.fd == fd,
        o.desc.queue_id == id,
        o.desc.readable <==> c.oflag % 4 == 0 || c.oflag % 4 == 2,
        o.desc.writable <==> c.oflag % 4 == 1 || c.oflag % 4 == 2,
        o.desc.flags & 0x800 != 0 <==> c.oflag & 0x800 != 0,
        o.fd_flags == (if c.oflag & 0x80000 != 0 {
            1int
        } else {
            0
        }) + (if c.oflag & 0x800 != 0 {
            2048int
        } else {
            0
        }),
        o.desc.owner_pid == cred.pid,
{
    law_ways_to_open(c.oflag);
}

/// A name is removed by the owner or root, and only if it is there.
pub proof fn law_removing_names(m: MqManager, ptr: usize, mem: Seq<u8>, cred: Cred)
    requires
        name_error(ptr, mem) is None,
    ensures
        named(m, name_value(mem)) is None ==> unlink_error(m, ptr, mem, cred) == Some(ENOENT),
        named(m, name_value(mem)) matches Some(k) ==> unlink_error(m, ptr, mem, cred) == if cred.euid
            == 0 || cred.euid == m.by_id@[k].perm.uid {
            None
        } else {
            Some(EACCES)
        },
{
}

/// A queue without its name is gone if nobody has it open; else it stays as it was.
pub proof fn law_queues_without_names(s: Seq<MqQueue>, k: int, i: int)
    requires
        0 <= k < s.len(),
        0 <= i < s.len(),
    ensures
        s[k].open_count == 0 ==> nameless(s, k).len() == s.len() - 1 && (i != k ==> nameless(
            s,
            k,
        ).contains(s[i])),
        s[k].open_count > 0 ==> nameless(s, k).len() == s.len() && nameless(s, k)[k].name is None
            && nameless(s, k)[k].messages == s[k].messages && nameless(s, k)[k].open_count
            == s[k].open_count && (i != k ==> nameless(s, k)[i] == s[i]),
{
    if s[k].open_count == 0 && i != k {
        let j = if i < k {
            i
        } else {
            i - 1
        };
        assert(nameless(s, k)[j] == s[i]);
    }
}

/// Closing takes one descriptor away and ends the caller's own registration, and no
/// other.
pub proof fn law_closing(q: MqQueue, pid: usize)
    requires
        q.open_count > 0,
    ensures
        closed_once(q, pid).open_count == q.open_count - 1,
        closed_once(q, pid).messages == q.messages,
        closed_once(q, pid).name == q.name,
        q.notify matches Some(reg) ==> closed_once(q, pid).notify == if reg.owner_pid == pid {
            None
        } else {
            q.notify
        },
        q.notify is None ==> closed_once(q, pid).notify is None,
{
}

// ---------------------------------------------------------------------------
// Sending and receiving.
// ---------------------------------------------------------------------------

/// A message stands behind all that are as urgent and before all that are less so, and
/// the order of the others does not change.
pub proof fn law_place_of_a_message(m: Seq<(u32, Seq<u8>)>, prio: u32, data: Seq<u8>, s: int)
    requires
        0 <= s <= m.len(),
        forall|i: int| 0 <= i < s ==> (#[trigger] m[i]).0 >= prio,
        s < m.len() ==> m[s].0 < prio,
    ensures
        put(m, prio, data) == m.subrange(0, s) + seq![(prio, data)] + m.subrange(s, m.len() as int),
{
    lemma_place(m, prio, s, 0);
    assert(put(m, prio, data) =~= m.subrange(0, s) + seq![(prio, data)] + m.subrange(
        s,
        m.len() as int,
    ));
}

proof fn lemma_place(m: Seq<(u32, Seq<u8>)>, prio: u32, s: int, i: int)
    requires
        0 <= i <= s <= m.len(),
        forall|j: int| 0 <= j < s ==> (#[trigger] m[j]).0 >= prio,
        s < m.len() ==> m[s].0 < prio,
    ensures
        slot_from(m, prio, i) == s,
    decreases s - i,
{
    if i < s {
        assert(m[i].0 >= prio);
        lemma_place(m, prio, s, i + 1);
    }
}

/// A deadline is a time of day in nanoseconds; one that makes no sense is refused.
pub proof fn law_deadlines(ptr: usize, ts: Option<TimeSpec>)
    ensures
        ptr == 0 ==> deadline_of(ptr, ts) == Ok::<Option<u64>, isize>(None),
        ptr != 0 && ts is None ==> deadline_of(ptr, ts) == Err::<Option<u64>, isize>(EFAULT),
        ptr != 0 ==> (ts matches Some(t) ==> {
            let good = t.tv_sec >= 0 && 0 <= t.tv_nsec < 1_000_000_000;
            &&& !good ==> deadline_of(ptr, ts) == Err::<Option<u64>, isize>(EINVAL)
            &&& good && t.tv_sec * 1_000_000_000 + t.tv_nsec <= u64::MAX ==> deadline_of(ptr, ts)
                == Ok::<Option<u64>, isize>(Some((t.tv_sec * 1_000_000_000 + t.tv_nsec) as u64))
        }),
{
}

/// The timer runs out at the deadline or less than a millisecond later.
pub proof fn law_timers(deadline: u64, now: u64)
    requires
        now < deadline,
    ensures
        deadline <= now + timer_ms(deadline, now) * 1_000_000 < deadline + 1_000_000,
        expired(Some(deadline), deadline),
        !expired(Some(deadline), now),
        !expired(None, now),
{
}

/// Why a message is refused: a priority of 32768 or more, a bad deadline, a descriptor
/// that cannot send, a message that is too long, or memory that cannot be read.
pub proof fn law_refused_messages(
    desc: Option<MqDescriptor>,
    msgsize: usize,
    len: usize,
    payload: Option<Seq<u8>>,
    prio: usize,
    a: Attempt,
)
    ensures
        ({
            let e = send_error(desc, msgsize, len, payload, prio, a);
            let timed = a.timeout_ptr == 0 || (a.timeout matches Some(t) && t.tv_sec >= 0 && 0
                <= t.tv_nsec < 1_000_000_000);
            let can = desc matches Some(d) && d.writable;
            let held = len == 0 || payload is Some;
            &&& prio >= 32768 ==> e == Some(EINVAL)
            &&& prio < 32768 && !timed ==> e is Some
            &&& prio < 32768 && timed && !can ==> e == Some(EBADF)
            &&& prio < 32768 && timed && can && len > msgsize ==> e == Some(EMSGSIZE)
            &&& prio < 32768 && timed && can && len <= msgsize && !held ==> e == Some(EFAULT)
            &&& prio < 32768 && timed && can && len <= msgsize && held && !a.woken ==> e is None
            &&& prio < 32768 && timed && can && len <= msgsize && held && a.woken
                && a.signal_pending ==> e == Some(EINTR)
            &&& prio < 32768 && timed && can && len <= msgsize && held && a.woken
                && !a.signal_pending && a.timeout_ptr == 0 ==> e is None
        }),
{
}

/// Why receiving is refused.
pub proof fn law_refused_receipts(desc: Option<MqDescriptor>, a: Attempt)
    ensures
        ({
            let e = receive_error(desc, a);
            let timed = a.timeout_ptr == 0 || (a.timeout matches Some(t) && t.tv_sec >= 0 && 0
                <= t.tv_nsec < 1_000_000_000);
            let can = desc matches Some(d) && d.readable;
            &&& !timed ==> e is Some
            &&& timed && !can ==> e == Some(EBADF)
            &&& timed && can && !a.woken ==> e is None
            &&& timed && can && a.woken && a.signal_pending ==> e == Some(EINTR)
        }),
{
}

/// A call that cannot go on does not sleep if it must not, if its time is over, or if a
/// signal is pending, in this order.
pub proof fn law_when_calls_sleep(a: Attempt, nonblock: bool)
    ensures
        nonblock ==> sleep_error(a, nonblock) == Some(EAGAIN),
        !nonblock && (deadline(a) matches Some(d) && d <= a.now_ns) ==> sleep_error(a, nonblock)
            == Some(ETIMEDOUT),
        !nonblock && deadline(a) is None && a.signal_pending ==> sleep_error(a, nonblock) == Some(
            EINTR,
        ),
        !nonblock && deadline(a) is None && !a.signal_pending && a.task is Some ==> sleep_error(
            a,
            nonblock,
        ) is None,
{
}

/// Whoever still sleeps is woken, in order, and nobody else.
pub proof fn law_sleepers_are_woken(waiters: Seq<usize>, blocked: Seq<usize>, t: usize)
    ensures
        asleep(waiters, blocked).contains(t) <==> waiters.contains(t) && blocked.contains(t),
    decreases waiters.len(),
{
    if waiters.len() > 0 {
        let front = waiters.drop_last();
        let last = waiters.last();
        law_sleepers_are_woken(front, blocked, t);
        let f = asleep(front, blocked);
        let w = asleep(waiters, blocked);
        if f.contains(t) {
            let i = choose|i: int| 0 <= i < f.len() && f[i] == t;
            assert(w[i] == t);
        }
        if w.contains(t) {
            let i = choose|i: int| 0 <= i < w.len() && w[i] == t;
            if i < f.len() {
                assert(f[i] == t);
            }
        }
        if t == last && blocked.contains(t) {
            assert(w[f.len() as int] == t);
        }
        if front.contains(t) {
            let i = choose|i: int| 0 <= i < front.len() && front[i] == t;
            assert(waiters[i] == t);
        }
        if waiters.contains(t) {
            let i = choose|i: int| 0 <= i < waiters.len() && waiters[i] == t;
            if i < front.len() {
                assert(front[i] == t);
            }
        }
        if t == last {
            assert(waiters[waiters.len() - 1] == t);
        }
    }
}

/// The message of an attempt that is not refused.
pub open spec fn sendable(
    desc: Option<MqDescriptor>,
    q: MqQueue,
    payload: Option<Vec<u8>>,
    len: usize,
    prio: usize,
    a: Attempt,
) -> bool {
    &&& prio < 32768
    &&& a.timeout_ptr == 0 && !a.woken
    &&& desc matches Some(d) && d.writable
    &&& payload matches Some(p) && p@.len() == len && len <= q.msgsize
}

/// A message that is sent while there is room is in the queue, behind those that are as
/// urgent and before the others. Who waits for one is woken. A process that asked to be
/// told is told of a message in an empty queue, once.
pub proof fn law_sending(
    q: MqQueue,
    t: MqQueue,
    desc: Option<MqDescriptor>,
    len: usize,
    payload: Option<Vec<u8>>,
    prio: usize,
    a: Attempt,
    blocked: Seq<usize>,
    sender_pid: i32,
    sender_uid: u32,
    r: SendStep,
    s: int,
)
    requires
        sends(q, t, desc, len, payload, prio, a, blocked, sender_pid, sender_uid, r),
        sendable(desc, q, payload, len, prio, a),
        q.messages@.len() < q.maxmsg,
        0 <= s <= q.msgs().len(),
        forall|i: int| 0 <= i < s ==> (#[trigger] q.msgs()[i]).0 >= prio,
        s < q.msgs().len() ==> q.msgs()[s].0 < prio,
    ensures
        t.msgs() == q.msgs().subrange(0, s) + seq![(prio as u32, payload->0@)] + q.msgs().subrange(
            s,
            q.msgs().len() as int,
        ),
        r matches SendStep::Sent { wake, poll_wake, notification } && poll_wake@ == q.poll_waiters@
            && (forall|w: usize| #[trigger]
            wake@.contains(w) <==> q.recv_waiters@.contains(w) && blocked.contains(w)) && (
        q.messages@.len() > 0 || q.notify is None ==> notification is Nothing && t.notify
            == q.notify) && (q.messages@.len() == 0 && q.notify is Some ==> t.notify is None
            && notification == delivery_of(q.notify->0, sender_pid, sender_uid)),
{
    law_refused_messages(
        desc,
        q.msgsize,
        len,
        crate::posix_mq::queue::bytes_of(payload),
        prio,
        a,
    );
    law_place_of_a_message(q.msgs(), prio as u32, payload->0@, s);
    assert forall|w: usize| #[trigger]
        asleep(q.recv_waiters@, blocked).contains(w) <==> q.recv_waiters@.contains(w)
            && blocked.contains(w) by {
        law_sleepers_are_woken(q.recv_waiters@, blocked, w);
    }
}

/// A message for a full queue is not sent: a call that must not sleep fails, another one
/// waits among the senders. The queue does not change.
pub proof fn law_sending_to_a_full_queue(
    q: MqQueue,
    t: MqQueue,
    desc: Option<MqDescriptor>,
    len: usize,
    payload: Option<Vec<u8>>,
    prio: usize,
    a: Attempt,
    blocked: Seq<usize>,
    sender_pid: i32,
    sender_uid: u32,
    r: SendStep,
)
    requires
        sends(q, t, desc, len, payload, prio, a, blocked, sender_pid, sender_uid, r),
        sendable(desc, q, payload, len, prio, a),
        q.messages@.len() >= q.maxmsg,
    ensures
        t.msgs() == q.msgs(),
        t.notify == q.notify,
        desc->0.flags & 0x800 != 0 ==> r == SendStep::Fail(EAGAIN),
        desc->0.flags & 0x800 == 0 && a.signal_pending ==> r == SendStep::Fail(EINTR),
        desc->0.flags & 0x800 == 0 && !a.signal_pending ==> (a.task matches Some(w) ==> r is Sleep
            && t.send_waiters@.contains(w)),
{
    law_refused_messages(
        desc,
        q.msgsize,
        len,
        crate::posix_mq::queue::bytes_of(payload),
        prio,
        a,
    );
    if let Some(w) = a.task {
        let p = q.send_waiters@.push(w);
        assert(p[q.send_waiters@.len() as int] == w);
    }
}

/// Receiving takes the first message out of the queue, if the caller has room for it;
/// who waits to send is woken.
pub proof fn law_receiving(
    q: MqQueue,
    t: MqQueue,
    desc: Option<MqDescriptor>,
    len: usize,
    a: Attempt,
    blocked: Seq<usize>,
    r: ReceiveStep,
)
    requires
        takes(q, t, desc, len, a, blocked, r),
        a.timeout_ptr == 0,
        !a.woken,
        desc matches Some(d) && d.readable,
        q.messages@.len() > 0,
    ensures
        len < q.msgs()[0].1.len() ==> r == ReceiveStep::Fail(EMSGSIZE) && t == q,
        len >= q.msgs()[0].1.len() ==> (r matches ReceiveStep::Received {
            message,
            wake,
            poll_wake,
        } && message.prio == q.msgs()[0].0 && message.data@ == q.msgs()[0].1 && t.msgs()
            == q.msgs().subrange(1, q.msgs().len() as int) && poll_wake@ == q.poll_waiters@ && (
        forall|w: usize| #[trigger]
            wake@.contains(w) <==> q.send_waiters@.contains(w) && blocked.contains(w))),
{
    law_refused_receipts(desc, a);
    assert(q.msgs().skip(1) =~= q.msgs().subrange(1, q.msgs().len() as int));
    assert forall|w: usize| #[trigger]
        asleep(q.send_waiters@, blocked).contains(w) <==> q.send_waiters@.contains(w)
            && blocked.contains(w) by {
        law_sleepers_are_woken(q.send_waiters@, blocked, w);
    }
}

/// An empty queue gives nothing: a call that must not sleep fails, another one waits
/// among the receivers.
pub proof fn law_receiving_from_an_empty_queue(
    q: MqQueue,
    t: MqQueue,
    desc: Option<MqDescriptor>,
    len: usize,
    a: Attempt,
    blocked: Seq<usize>,
    r: ReceiveStep,
)
    requires
        takes(q, t, desc, len, a, blocked, r),
        a.timeout_ptr == 0,
        !a.woken,
        desc matches Some(d) && d.readable,
        q.messages@.len() == 0,
    ensures
        t.msgs().len() == 0,
        desc->0.flags & 0x800 != 0 ==> r == ReceiveStep::Fail(EAGAIN),
        desc->0.flags & 0x800 == 0 && a.signal_pending ==> r == ReceiveStep::Fail(EINTR),
        desc->0.flags & 0x800 == 0 && !a.signal_pending ==> (a.task matches Some(w) ==> r is Sleep
            && t.recv_waiters@.contains(w)),
{
    law_refused_receipts(desc, a);
    if let Some(w) = a.task {
        let p = q.recv_waiters@.push(w);
        assert(p[q.recv_waiters@.len() as int] == w);
    }
}

/// A message that is sent to an empty queue is what the next call receives.
pub proof fn law_what_is_sent_is_received(
    q: MqQueue,
    t: MqQueue,
    u: MqQueue,
    desc: Option<MqDescriptor>,
    len: usize,
    payload: Option<Vec<u8>>,
    prio: usize,
    a: Attempt,
    blocked: Seq<usize>,
    sender_pid: i32,
    sender_uid: u32,
    sent: SendStep,
    room: usize,
    b: Attempt,
    got: ReceiveStep,
)
    requires
        sends(q, t, desc, len, payload, prio, a, blocked, sender_pid, sender_uid, sent),
        sendable(desc, q, payload, len, prio, a),
        q.messages@.len() == 0,
        q.maxmsg > 0,
        takes(t, u, desc, room, b, blocked, got),
        b.timeout_ptr == 0,
        !b.woken,
        desc matches Some(d) && d.readable,
        room >= len,
    ensures
        got matches ReceiveStep::Received { message, wake, poll_wake } && message.prio == prio
            && message.data@ == payload->0@ && u.msgs().len() == 0,
{
    law_sending(
        q,
        t,
        desc,
        len,
        payload,
        prio,
        a,
        blocked,
        sender_pid,
        sender_uid,
        sent,
        0,
    );
    assert(t.msgs().len() == 1);
    assert(t.msgs()[0] == (prio as u32, payload->0@));
    law_receiving(t, u, desc, room, b, blocked, got);
}

/// The attributes of a queue: whether calls sleep, its limits, and how many messages
/// wait.
pub proof fn law_attributes(desc: MqDescriptor, q: MqQueue)
    requires
        q.maxmsg <= i64::MAX,
        q.msgsize <= i64::MAX,
        q.messages@.len() <= i64::MAX,
    ensures
        attributes(desc, q).mq_flags == if desc.flags & 0x800 != 0 {
            2048int
        } else {
            0
        },
        attributes(desc, q).mq_maxmsg == q.maxmsg,
        attributes(desc, q).mq_msgsize == q.msgsize,
        attributes(desc, q).mq_curmsgs == q.messages@.len(),
{
}

// ---------------------------------------------------------------------------
// Notifications.
// ---------------------------------------------------------------------------

/// The ways to be told: 0 by a signal, 1 not at all, 2 by a cookie, 4 by a signal to
/// one thread. Signals are from 1 to 64.
pub proof fn law_requests_for_notification(ev: Sigevent, sock: isize, cookie: Option<[u8; 32]>)
    ensures
        ({
            let e = notify_error(ev, sock, cookie);
            let signal = 1 <= ev.sigev_signo <= 64;
            &&& ev.sigev_notify == 1 ==> e is None
            &&& ev.sigev_notify == 0 ==> e == if signal {
                None
            } else {
                Some(EINVAL)
            }
            &&& ev.sigev_notify == 2 && ev.sigev_signo < 0 ==> e == Some(EBADF)
            &&& ev.sigev_notify == 2 && ev.sigev_signo >= 0 && sock != 0 ==> e == Some(sock)
            &&& ev.sigev_notify == 2 && ev.sigev_signo >= 0 && sock == 0 ==> e == if cookie is None {
                Some(EFAULT)
            } else {
                None
            }
            &&& ev.sigev_notify == 4 && !signal ==> e == Some(EINVAL)
            &&& ev.sigev_notify == 4 && signal ==> e == if ev.sigev_tid & 0x3fff_ffff == 0 {
                Some(EINVAL)
            } else {
                None
            }
            &&& ev.sigev_notify != 0 && ev.sigev_notify != 1 && ev.sigev_notify != 2
                && ev.sigev_notify != 4 ==> e == Some(EINVAL)
        }),
{
}

/// A registration that fires sends what it asked for to the process that made it, and
/// says who sent the message.
pub proof fn law_notifications(
    ev: Sigevent,
    pid: usize,
    cookie: Option<[u8; 32]>,
    reg: NotifyRegistration,
    sender_pid: i32,
    sender_uid: u32,
)
    requires
        registers(ev, pid, cookie, reg),
        notify_error(ev, 0, cookie) is None,
    ensures
        ev.sigev_notify == 1 ==> delivery_of(reg, sender_pid, sender_uid) is Nothing,
        ev.sigev_notify == 0 || ev.sigev_notify == 4 ==> (delivery_of(
            reg,
            sender_pid,
            sender_uid,
        ) matches Notification::Signal {
            pid: to,
            tid,
            signo,
            sender_pid: by,
            sender_uid: user,
            code,
            value,
        } && to == pid && signo == ev.sigev_signo && by == sender_pid && user == sender_uid && code
            == -3 && value == ev.sigev_value && (tid is Some <==> ev.sigev_notify == 4)),
        ev.sigev_notify == 2 ==> (delivery_of(
            reg,
            sender_pid,
            sender_uid,
        ) matches Notification::Cookie { pid: to, sockfd, cookie: c, event } && to == pid && sockfd
            == ev.sigev_signo && Some(c) == cookie && event == 1),
        ev.sigev_notify == 2 ==> (removal_of(reg) matches Notification::Cookie {
            pid: to,
            sockfd,
            cookie: c,
            event,
        } && to == pid && sockfd == ev.sigev_signo && Some(c) == cookie && event == 2),
        ev.sigev_notify != 2 ==> removal_of(reg) is Nothing,
{
}

/// One process at a time is told: a second request is refused, and only the process
/// itself ends its registration.
pub proof fn law_one_process_is_told(
    q: MqQueue,
    t: MqQueue,
    desc: Option<MqDescriptor>,
    notification: usize,
    ev: Option<Sigevent>,
    pid: usize,
    sock: isize,
    cookie: Option<[u8; 32]>,
    r: (isize, Notification),
)
    requires
        asks_to_be_told(q, t, desc, notification, ev, pid, sock, cookie, r),
        desc is Some,
    ensures
        notification != 0 ==> (ev matches Some(e) ==> (notify_error(e, sock, cookie) is None ==> if q.notify
            is Some {
            r.0 == EBUSY && t.notify == q.notify
        } else {
            r.0 == 0 && (t.notify matches Some(reg) && reg.owner_pid == pid && reg.notify
                == e.sigev_notify && reg.sig_value == e.sigev_value)
        })),
        notification == 0 ==> r.0 == 0,
        notification == 0 ==> (q.notify matches Some(reg) ==> if reg.owner_pid == pid {
            t.notify is None
        } else {
            t.notify == q.notify && r.1 is Nothing
        }),
{
}

/// Only the process that made a registration can end it.
pub proof fn law_own_registrations(q: MqQueue, pid: usize)
    ensures
        own_registration(q, pid) is Some <==> (q.notify matches Some(reg) && reg.owner_pid == pid),
        own_registration(q, pid) is Some ==> own_registration(q, pid) == q.notify,
{
}

/// The digits of a number have its value.
pub open spec fn value(s: Seq<u8>) -> int
    decreases s.len(),
{
    if s.len() == 0 {
        0
    } else {
        10 * value(s.drop_last()) + (s.last() - 48)
    }
}

/// A setting is shown in decimal digits, without zeros in front.
pub proof fn law_decimal(n: nat)
    ensures
        value(decimal(n)) == n,
        decimal(n).len() > 0,
        forall|i: int| 0 <= i < decimal(n).len() ==> 48 <= #[trigger] decimal(n)[i] <= 57,
        n > 0 ==> decimal(n)[0] != 48,
    decreases n,
{
    reveal_with_fuel(value, 2);
    if n >= 10 {
        law_decimal(n / 10);
        assert(decimal(n).drop_last() =~= decimal(n / 10));
    } else {
        assert(decimal(n).drop_last() =~= Seq::<u8>::empty());
    }
}

} // verus!
