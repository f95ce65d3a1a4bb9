//! One message queue: sending and receiving, one attempt at a time.
//!
//! A call that has to wait is told to sleep; it is made again after the sleep,
//! with `woken` set.

use vstd::prelude::*;
use crate::errno::{EAGAIN, EBADF, EBUSY, EFAULT, EINTR, EINVAL, EMSGSIZE, ETIMEDOUT};
use crate::posix_mq::abi::{
    arm_timeout_timer, deadline_of, expired, parse_abs_timeout, timed_out, timer_ms, TimeSpec,
    MQ_PRIO_MAX, O_NONBLOCK,
};
use crate::posix_mq::access::MqPerm;
use crate::posix_mq::notify::{
    deliver_notification, delivery_of, notify_error, parse_notify_registration, registers,
    removal_of, send_removed_if_thread, Notification, NotifyRegistration, Sigevent,
};
use crate::process::queue::{enqueue_waiter_once, queue_contains};
use crate::text::to_vec;

verus! {

pub const POLLIN: i16 = 0x1;
pub const POLLOUT: i16 = 0x4;

/// A message in a queue.
pub struct MqMessage {
    pub prio: u32,
    pub data: Vec<u8>,
}

/// A message queue.
pub struct MqQueue {
    pub id: usize,
    /// The name, until the queue is unlinked.
    pub name: Option<Vec<u8>>,
    /// How many descriptors refer to the queue.
    pub open_count: usize,
    pub perm: MqPerm,
    pub maxmsg: usize,
    pub msgsize: usize,
    pub messages: Vec<MqMessage>,
    pub recv_waiters: Vec<usize>,
    pub send_waiters: Vec<usize>,
    pub poll_waiters: Vec<usize>,
    pub notify: Option<NotifyRegistration>,
}

/// An open description of a queue.
#[derive(Clone, Copy)]
pub struct MqDescriptor {
    pub queue_id: usize,
    pub readable: bool,
    pub writable: bool,
    pub flags: u32,
    pub owner_pid: usize,
}

/// The messages as pairs of a priority and a content.
pub open spec fn contents(q: Seq<MqMessage>) -> Seq<(u32, Seq<u8>)> {
    Seq::new(q.len(), |i: int| (q[i].prio, q[i].data@))
}

/// Higher priorities come first.
pub open spec fn by_priority(m: Seq<(u32, Seq<u8>)>) -> bool {
    forall|i: int, j: int| 0 <= i < j < m.len() ==> (#[trigger] m[i]).0 >= (#[trigger] m[j]).0
}

impl MqQueue {
    pub open spec fn msgs(&self) -> Seq<(u32, Seq<u8>)> {
        contents(self.messages@)
    }

    /// Messages are in order, no more than allowed, of valid priorities, and none is
    /// too long.
    pub open spec fn wf(&self) -> bool {
        &&& by_priority(self.msgs())
        &&& self.messages@.len() <= self.maxmsg
        &&& forall|i: int|
            0 <= i < self.msgs().len() ==> (#[trigger] self.msgs()[i]).0 < MQ_PRIO_MAX
                && self.msgs()[i].1.len() <= self.msgsize
    }

    /// What sending, receiving and registering never change.
    pub open spec fn same_identity(&self, other: &MqQueue) -> bool {
        &&& self.id == other.id
        &&& self.name == other.name
        &&& self.open_count == other.open_count
        &&& self.perm == other.perm
        &&& self.maxmsg == other.maxmsg
        &&& self.msgsize == other.msgsize
    }
}

// ---------------------------------------------------------------------------
// Descriptors.
// ---------------------------------------------------------------------------

impl MqDescriptor {
    /// Calls on this descriptor do not sleep.
    pub open spec fn is_nonblock(&self) -> bool {
        self.flags & O_NONBLOCK as u32 != 0
    }

    /// A description of queue `queue_id`.
    pub fn new(
        queue_id: usize,
        readable: bool,
        writable: bool,
        nonblock: bool,
        owner_pid: usize,
    ) -> (r: MqDescriptor)
        ensures
            r.queue_id == queue_id,
            r.readable == readable,
            r.writable == writable,
            r.is_nonblock() == nonblock,
            r.owner_pid == owner_pid,
    {
        let flags: u32 = if nonblock {
            O_NONBLOCK as u32
        } else {
            0
        };
        assert(0x800u32 & 0x800u32 != 0 && 0u32 & 0x800u32 == 0) by (bit_vector);
        MqDescriptor { queue_id, readable, writable, flags, owner_pid }
    }

    /// Tells whether calls on this descriptor do not sleep.
    pub fn nonblock(&self) -> (r: bool)
        ensures
            r == self.is_nonblock(),
    {
        (self.flags & O_NONBLOCK as u32) != 0
    }

    /// Chooses whether calls on this descriptor sleep.
    pub fn set_nonblock(&mut self, enabled: bool)
        ensures
            final(self).is_nonblock() == enabled,
            final(self).queue_id == old(self).queue_id,
            final(self).readable == old(self).readable,
            final(self).writable == old(self).writable,
            final(self).owner_pid == old(self).owner_pid,
    {
        let f: u32 = self.flags;
        assert((f | 0x800) & 0x800 != 0 && (f & !0x800u32) & 0x800 == 0) by (bit_vector);
        if enabled {
            self.flags = f | O_NONBLOCK as u32;
        } else {
            self.flags = f & !(O_NONBLOCK as u32);
        }
    }

    /// Which of reading and writing would not sleep.
    pub fn poll_mask(&self, q: &MqQueue) -> (r: i16)
        ensures
            r == self.ready_mask(q),
    {
        let mut mask: i16 = 0;
        if self.readable && q.messages.len() > 0 {
            mask += POLLIN;
        }
        if self.writable && q.messages.len() < q.maxmsg {
            mask += POLLOUT;
        }
        mask
    }

    pub open spec fn ready_mask(&self, q: &MqQueue) -> int {
        (if self.readable && q.msgs().len() > 0 {
            POLLIN as int
        } else {
            0
        }) + (if self.writable && q.msgs().len() < q.maxmsg {
            POLLOUT as int
        } else {
            0
        })
    }

    /// Registers a task that waits for readiness. Tells whether it need not
    /// sleep, because the queue is ready.
    pub fn register_poll_waiter(&self, q: &mut MqQueue, task: usize) -> (ready: bool)
        ensures
            ready == (self.ready_mask(old(q)) != 0),
            final(q).same_identity(old(q)),
            final(q).msgs() == old(q).msgs(),
            final(q).recv_waiters@ == old(q).recv_waiters@,
            final(q).send_waiters@ == old(q).send_waiters@,
            final(q).notify == old(q).notify,
            final(q).poll_waiters@ == if ready || old(q).poll_waiters@.contains(task) {
                old(q).poll_waiters@
            } else {
                old(q).poll_waiters@.push(task)
            },
    {
        if self.poll_mask(q) != 0 {
            return true;
        }
        let inserted: bool = enqueue_waiter_once(&mut q.poll_waiters, task);
        false
    }
}

// ---------------------------------------------------------------------------
// Waiters.
// ---------------------------------------------------------------------------

/// The waiters that are still asleep, in order.
pub open spec fn asleep(waiters: Seq<usize>, blocked: Seq<usize>) -> Seq<usize>
    decreases waiters.len(),
{
    if waiters.len() == 0 {
        waiters
    } else if blocked.contains(waiters.last()) {
        asleep(waiters.drop_last(), blocked).push(waiters.last())
    } else {
        asleep(waiters.drop_last(), blocked)
    }
}

/// Empties a list of waiters; those that are still asleep have to be woken.
/// `blocked` lists the tasks that are asleep.
pub fn wake_all_waiters(waiters: &mut Vec<usize>, blocked: &Vec<usize>) -> (wake: Vec<usize>)
    ensures
        wake@ == asleep(old(waiters)@, blocked@),
        final(waiters)@.len() == 0,
{
    let ghost before = waiters@;
    let mut wake: Vec<usize> = Vec::new();
    let mut i: usize = 0;
    assert(before.take(0) =~= Seq::<usize>::empty());
    while i < waiters.len()
        invariant
            before == old(waiters)@,
            waiters@ == before,
            i <= waiters.len(),
            wake@ == asleep(before.take(i as int), blocked@),
        decreases waiters.len() - i,
    {
        assert(before.take(i + 1).drop_last() =~= before.take(i as int));
        if queue_contains(blocked, waiters[i]) {
            wake.push(waiters[i]);
        }
        i += 1;
    }
    assert(before.take(i as int) =~= before);
    waiters.clear();
    wake
}

/// Empties the list of tasks that wait for readiness; all have to be woken.
fn wake_poll_waiters(waiters: &mut Vec<usize>) -> (wake: Vec<usize>)
    ensures
        wake@ == old(waiters)@,
        final(waiters)@.len() == 0,
{
    let mut wake: Vec<usize> = Vec::new();
    wake.append(waiters);
    assert(wake@ =~= old(waiters)@);
    wake
}

// ---------------------------------------------------------------------------
// Sending.
// ---------------------------------------------------------------------------

/// The slot of a new message: before the first one of a lower priority.
pub open spec fn slot_from(m: Seq<(u32, Seq<u8>)>, prio: u32, i: int) -> int
    decreases m.len() - i,
{
    if i >= m.len() {
        m.len() as int
    } else if m[i].0 < prio {
        i
    } else {
        slot_from(m, prio, i + 1)
    }
}

/// The queue after a message was put in.
pub open spec fn put(m: Seq<(u32, Seq<u8>)>, prio: u32, data: Seq<u8>) -> Seq<(u32, Seq<u8>)> {
    m.insert(slot_from(m, prio, 0), (prio, data))
}

proof fn lemma_slot(m: Seq<(u32, Seq<u8>)>, prio: u32, i: int)
    requires
        0 <= i <= m.len(),
    ensures
        i <= slot_from(m, prio, i) <= m.len(),
        forall|j: int| i <= j < slot_from(m, prio, i) ==> (#[trigger] m[j]).0 >= prio,
        slot_from(m, prio, i) < m.len() ==> m[slot_from(m, prio, i)].0 < prio,
    decreases m.len() - i,
{
    if i < m.len() && m[i].0 >= prio {
        lemma_slot(m, prio, i + 1);
    }
}

/// A new message is placed behind all messages of its own or a higher priority
/// and before all of a lower one, and the queue stays in order.
pub proof fn law_put_keeps_order(m: Seq<(u32, Seq<u8>)>, prio: u32, data: Seq<u8>)
    requires
        by_priority(m),
    ensures
        by_priority(put(m, prio, data)),
        put(m, prio, data).len() == m.len() + 1,
        forall|i: int|
            0 <= i < m.len() ==> ((#[trigger] m[i]).0 >= prio <==> i < slot_from(m, prio, 0)),
{
    lemma_slot(m, prio, 0);
    let s = slot_from(m, prio, 0);
    let after = put(m, prio, data);
    assert forall|i: int| 0 <= i < m.len() implies ((#[trigger] m[i]).0 >= prio <==> i < s) by {
        if i >= s && s < m.len() {
            assert(m[s].0 >= m[i].0 || s == i);
        }
    }
    assert forall|i: int, j: int| 0 <= i < j < after.len() implies (#[trigger] after[i]).0 >= (
    #[trigger] after[j]).0 by {
        let i0 = if i < s {
            i
        } else {
            i - 1
        };
        let j0 = if j < s {
            j
        } else {
            j - 1
        };
        if i != s && j != s {
            assert(after[i] == m[i0] && after[j] == m[j0]);
            assert(m[i0].0 >= m[j0].0);
        } else if i == s {
            assert(after[j] == m[j0]);
            assert(m[j0].0 < prio);
        } else {
            assert(after[i] == m[i0]);
            assert(m[i0].0 >= prio);
        }
    }
}

/// Messages of one priority are received in the order in which they were sent:
/// of two messages put in one after the other, the second is behind the first
/// if its priority is not higher.
pub proof fn law_fifo_within_priority(
    m: Seq<(u32, Seq<u8>)>,
    p1: u32,
    d1: Seq<u8>,
    p2: u32,
    d2: Seq<u8>,
)
    requires
        by_priority(m),
        p2 <= p1,
    ensures
        ({
            let after = put(put(m, p1, d1), p2, d2);
            let s1 = slot_from(m, p1, 0);
            let s2 = slot_from(put(m, p1, d1), p2, 0);
            s1 < s2 && after[s1] == (p1, d1) && after[s2] == (p2, d2)
        }),
{
    let once = put(m, p1, d1);
    let s1 = slot_from(m, p1, 0);
    lemma_slot(m, p1, 0);
    law_put_keeps_order(m, p1, d1);
    law_put_keeps_order(once, p2, d2);
    lemma_slot(once, p2, 0);
    assert(once[s1] == (p1, d1));
    assert(once[s1].0 >= p2);
}

/// What is received is what was sent: a message that is put in stands in the
/// queue as it is, the others are untouched, and it is the next one received if
/// no other is as urgent.
pub proof fn law_receive_gives_back_what_was_sent(m: Seq<(u32, Seq<u8>)>, prio: u32, data: Seq<u8>)
    requires
        by_priority(m),
    ensures
        ({
            let s = slot_from(m, prio, 0);
            &&& 0 <= s < put(m, prio, data).len()
            &&& put(m, prio, data)[s] == (prio, data)
            &&& put(m, prio, data).remove(s) == m
            &&& (m.len() == 0 || m[0].0 < prio) ==> s == 0 && put(m, prio, data).skip(1) == m
        }),
{
    lemma_slot(m, prio, 0);
    let s = slot_from(m, prio, 0);
    assert(put(m, prio, data).remove(s) =~= m);
    if m.len() == 0 || m[0].0 < prio {
        assert(put(m, prio, data).skip(1) =~= m);
    }
}

/// What is known of a call that can sleep.
#[derive(Clone, Copy)]
pub struct Attempt {
    /// The pointer to the deadline, and the time found there.
    pub timeout_ptr: usize,
    pub timeout: Option<TimeSpec>,
    pub now_ns: u64,
    /// A signal that interrupts a wait is pending.
    pub signal_pending: bool,
    /// The calling task.
    pub task: Option<usize>,
    /// The call slept before and is made again.
    pub woken: bool,
}

/// What one attempt to send came to.
pub enum SendStep {
    Fail(isize),
    /// The message is in the queue.
    Sent { wake: Vec<usize>, poll_wake: Vec<usize>, notification: Notification },
    /// The task is queued: set the timer, if there is one, and sleep.
    Sleep { timer_ms: Option<u64> },
}

/// The deadline of an attempt whose time is valid.
pub open spec fn deadline(a: Attempt) -> Option<u64> {
    match deadline_of(a.timeout_ptr, a.timeout) {
        Ok(d) => d,
        Err(_) => None,
    }
}

/// Why a call that slept does not try again.
pub open spec fn woken_error(a: Attempt) -> Option<isize> {
    if a.woken && a.signal_pending {
        Some(EINTR)
    } else if a.woken && expired(deadline(a), a.now_ns) {
        Some(ETIMEDOUT)
    } else {
        None
    }
}

/// Why a call that cannot proceed does not sleep.
pub open spec fn sleep_error(a: Attempt, nonblock: bool) -> Option<isize> {
    if nonblock {
        Some(EAGAIN)
    } else if expired(deadline(a), a.now_ns) {
        Some(ETIMEDOUT)
    } else if a.signal_pending {
        Some(EINTR)
    } else if a.task is None {
        Some(EINVAL)
    } else {
        None
    }
}

/// The delay of the timer of a sleeping call.
pub open spec fn sleep_timer(a: Attempt) -> Option<u64> {
    match deadline(a) {
        Some(d) => Some(timer_ms(d, a.now_ns)),
        None => None,
    }
}

/// Why a message is refused: its priority, the deadline, the descriptor, its
/// length, or the memory that holds it.
pub open spec fn send_error(
    desc: Option<MqDescriptor>,
    msgsize: usize,
    msg_len: usize,
    payload: Option<Seq<u8>>,
    prio: usize,
    a: Attempt,
) -> Option<isize> {
    if prio >= MQ_PRIO_MAX {
        Some(EINVAL)
    } else if deadline_of(a.timeout_ptr, a.timeout) is Err {
        Some(deadline_of(a.timeout_ptr, a.timeout)->Err_0)
    } else if desc is None || !desc->0.writable {
        Some(EBADF)
    } else if msg_len > msgsize {
        Some(EMSGSIZE)
    } else if msg_len > 0 && payload is None {
        Some(EFAULT)
    } else {
        woken_error(a)
    }
}

pub open spec fn bytes_of(p: Option<Vec<u8>>) -> Option<Seq<u8>> {
    match p {
        Some(v) => Some(v@),
        None => None,
    }
}

/// The message that is sent. For an empty one no memory is read.
pub open spec fn message_bytes(p: Option<Vec<u8>>) -> Seq<u8> {
    match p {
        Some(v) => v@,
        None => Seq::empty(),
    }
}

fn insertion_slot(messages: &Vec<MqMessage>, prio: u32) -> (r: usize)
    ensures
        r == slot_from(contents(messages@), prio, 0),
        r <= messages.len(),
{
    let ghost m = contents(messages@);
    let mut i: usize = 0;
    while i < messages.len()
        invariant
            m == contents(messages@),
            i <= messages.len(),
            slot_from(m, prio, 0) == slot_from(m, prio, i as int),
        decreases messages.len() - i,
    {
        assert(m[i as int].0 == messages@[i as int].prio);
        if messages[i].prio < prio {
            return i;
        }
        i += 1;
    }
    i
}

/// What one attempt to send makes of queue `q`: see [`syscall_mq_timedsend`].
pub open spec fn sends(
    q: MqQueue,
    t: MqQueue,
    desc: Option<MqDescriptor>,
    msg_len: usize,
    payload: Option<Vec<u8>>,
    prio: usize,
    a: Attempt,
    blocked: Seq<usize>,
    sender_pid: i32,
    sender_uid: u32,
    r: SendStep,
) -> bool {
    let refused = send_error(desc, q.msgsize, msg_len, bytes_of(payload), prio, a);
    let room = q.msgs().len() < q.maxmsg;
    let idle = sleep_error(a, desc->0.is_nonblock());
    match refused {
        Some(e) => r == SendStep::Fail(e) && t == q,
        None => if room {
            &&& r matches SendStep::Sent { wake, poll_wake, notification }
            &&& t.msgs() == put(
                q.msgs(),
                prio as u32,
                message_bytes(payload),
            )
            &&& wake@ == asleep(q.recv_waiters@, blocked)
            &&& poll_wake@ == q.poll_waiters@
            &&& t.recv_waiters@.len() == 0
            &&& t.poll_waiters@.len() == 0
            &&& t.send_waiters@ == q.send_waiters@
            &&& if q.msgs().len() == 0 && q.notify is Some {
                &&& notification == delivery_of(q.notify->0, sender_pid, sender_uid)
                &&& t.notify is None
            } else {
                &&& notification is Nothing
                &&& t.notify == q.notify
            }
        } else {
            &&& t.msgs() == q.msgs()
            &&& t.notify == q.notify
            &&& t.recv_waiters@ == q.recv_waiters@
            &&& t.poll_waiters@ == q.poll_waiters@
            &&& match idle {
                Some(e) => r == SendStep::Fail(e) && t.send_waiters@
                    == q.send_waiters@,
                None => r == (SendStep::Sleep { timer_ms: sleep_timer(a) })
                    && t.send_waiters@ == if q.send_waiters@.contains(
                    a.task->0,
                ) {
                    q.send_waiters@
                } else {
                    q.send_waiters@.push(a.task->0)
                },
            }
        },
    }
}

/// One attempt to send a message.
///
/// `desc` is the descriptor, if the number names one; `payload` the message, if
/// it can be read; `blocked` lists the tasks that are asleep. `sender_pid` and
/// `sender_uid` go into a notification.
pub fn syscall_mq_timedsend(
    q: &mut MqQueue,
    desc: Option<MqDescriptor>,
    msg_len: usize,
    payload: &Option<Vec<u8>>,
    prio: usize,
    a: Attempt,
    blocked: &Vec<usize>,
    sender_pid: i32,
    sender_uid: u32,
) -> (r: SendStep)
    requires
        old(q).wf(),
        payload matches Some(p) ==> p.len() == msg_len,
    ensures
        final(q).wf(),
        final(q).same_identity(old(q)),
        sends(
            *old(q),
            *final(q),
            desc,
            msg_len,
            *payload,
            prio,
            a,
            blocked@,
            sender_pid,
            sender_uid,
            r,
        ),
{
    if prio >= MQ_PRIO_MAX {
        return SendStep::Fail(EINVAL);
    }
    let deadline_ns = match parse_abs_timeout(a.timeout_ptr, a.timeout) {
        Ok(d) => d,
        Err(e) => {
            return SendStep::Fail(e);
        },
    };
    let desc = match desc {
        Some(d) => d,
        None => {
            return SendStep::Fail(EBADF);
        },
    };
    if !desc.writable {
        return SendStep::Fail(EBADF);
    }
    if msg_len > q.msgsize {
        return SendStep::Fail(EMSGSIZE);
    }
    let data: Vec<u8> = match payload {
        Some(p) => to_vec(p.as_slice()),
        None => {
            if msg_len > 0 {
                return SendStep::Fail(EFAULT);
            }
            Vec::new()
        },
    };
    assert(data@ =~= message_bytes(*payload));
    let ghost sent = data@;
    if a.woken {
        if a.signal_pending {
            return SendStep::Fail(EINTR);
        }
        if timed_out(deadline_ns, a.now_ns) {
            return SendStep::Fail(ETIMEDOUT);
        }
    }
    let ghost before = q.msgs();
    if q.messages.len() < q.maxmsg {
        let was_empty: bool = q.messages.len() == 0;
        let at: usize = insertion_slot(&q.messages, prio as u32);
        let message = MqMessage { prio: prio as u32, data };
        q.messages.insert(at, message);
        proof {
            assert(q.msgs() =~= put(before, prio as u32, sent));
            law_put_keeps_order(before, prio as u32, sent);
            assert forall|i: int| 0 <= i < q.msgs().len() implies (#[trigger] q.msgs()[i]).0
                < MQ_PRIO_MAX && q.msgs()[i].1.len() <= q.msgsize by {
                if i < at {
                    assert(q.msgs()[i] == before[i]);
                } else if i > at {
                    assert(q.msgs()[i] == before[i - 1]);
                }
            }
        }
        let wake = wake_all_waiters(&mut q.recv_waiters, blocked);
        let poll_wake = wake_poll_waiters(&mut q.poll_waiters);
        let mut notification = Notification::Nothing;
        if was_empty {
            if let Some(reg) = q.notify {
                notification = deliver_notification(&reg, sender_pid, sender_uid);
                q.notify = None;
            }
        }
        return SendStep::Sent { wake, poll_wake, notification };
    }
    if desc.nonblock() {
        return SendStep::Fail(EAGAIN);
    }
    if timed_out(deadline_ns, a.now_ns) {
        return SendStep::Fail(ETIMEDOUT);
    }
    if a.signal_pending {
        return SendStep::Fail(EINTR);
    }
    let task = match a.task {
        Some(t) => t,
        None => {
            return SendStep::Fail(EINVAL);
        },
    };
    let inserted: bool = enqueue_waiter_once(&mut q.send_waiters, task);
    let timer_ms: Option<u64> = match deadline_ns {
        Some(d) => Some(arm_timeout_timer(d, a.now_ns)),
        None => None,
    };
    SendStep::Sleep { timer_ms }
}

// ---------------------------------------------------------------------------
// Receiving.
// ---------------------------------------------------------------------------

/// What one attempt to receive came to.
pub enum ReceiveStep {
    Fail(isize),
    /// The message was taken out of the queue.
    Received { message: MqMessage, wake: Vec<usize>, poll_wake: Vec<usize> },
    /// The task is queued: set the timer, if there is one, and sleep.
    Sleep { timer_ms: Option<u64> },
}

/// Why a call to receive is refused.
pub open spec fn receive_error(desc: Option<MqDescriptor>, a: Attempt) -> Option<isize> {
    if deadline_of(a.timeout_ptr, a.timeout) is Err {
        Some(deadline_of(a.timeout_ptr, a.timeout)->Err_0)
    } else if desc is None || !desc->0.readable {
        Some(EBADF)
    } else {
        woken_error(a)
    }
}

/// What one attempt to receive makes of queue `q`: see [`syscall_mq_timedreceive`].
pub open spec fn takes(
    q: MqQueue,
    t: MqQueue,
    desc: Option<MqDescriptor>,
    msg_len: usize,
    a: Attempt,
    blocked: Seq<usize>,
    r: ReceiveStep,
) -> bool {
    let refused = receive_error(desc, a);
    let idle = sleep_error(a, desc->0.is_nonblock());
    match refused {
        Some(e) => r == ReceiveStep::Fail(e) && t == q,
        None => if q.msgs().len() > 0 {
            if msg_len < q.msgs()[0].1.len() {
                r == ReceiveStep::Fail(EMSGSIZE) && t == q
            } else {
                &&& r matches ReceiveStep::Received { message, wake, poll_wake }
                &&& (message.prio, message.data@) == q.msgs()[0]
                &&& t.msgs() == q.msgs().skip(1)
                &&& wake@ == asleep(q.send_waiters@, blocked)
                &&& poll_wake@ == q.poll_waiters@
                &&& t.send_waiters@.len() == 0
                &&& t.poll_waiters@.len() == 0
                &&& t.recv_waiters@ == q.recv_waiters@
            }
        } else {
            &&& t.msgs() == q.msgs()
            &&& t.send_waiters@ == q.send_waiters@
            &&& t.poll_waiters@ == q.poll_waiters@
            &&& match idle {
                Some(e) => r == ReceiveStep::Fail(e) && t.recv_waiters@
                    == q.recv_waiters@,
                None => r == (ReceiveStep::Sleep { timer_ms: sleep_timer(a) })
                    && t.recv_waiters@ == if q.recv_waiters@.contains(
                    a.task->0,
                ) {
                    q.recv_waiters@
                } else {
                    q.recv_waiters@.push(a.task->0)
                },
            }
        },
    }
}

/// One attempt to receive the message of the highest priority that came first,
/// into a buffer of `msg_len` bytes.
pub fn syscall_mq_timedreceive(
    q: &mut MqQueue,
    desc: Option<MqDescriptor>,
    msg_len: usize,
    a: Attempt,
    blocked: &Vec<usize>,
) -> (r: ReceiveStep)
    requires
        old(q).wf(),
    ensures
        final(q).wf(),
        final(q).same_identity(old(q)),
        final(q).notify == old(q).notify,
        takes(*old(q), *final(q), desc, msg_len, a, blocked@, r),
{
    let deadline_ns = match parse_abs_timeout(a.timeout_ptr, a.timeout) {
        Ok(d) => d,
        Err(e) => {
            return ReceiveStep::Fail(e);
        },
    };
    let desc = match desc {
        Some(d) => d,
        None => {
            return ReceiveStep::Fail(EBADF);
        },
    };
    if !desc.readable {
        return ReceiveStep::Fail(EBADF);
    }
    if a.woken {
        if a.signal_pending {
            return ReceiveStep::Fail(EINTR);
        }
        if timed_out(deadline_ns, a.now_ns) {
            return ReceiveStep::Fail(ETIMEDOUT);
        }
    }
    let ghost before = q.msgs();
    if q.messages.len() > 0 {
        assert(before[0] == (q.messages@[0].prio, q.messages@[0].data@));
        if msg_len < q.messages[0].data.len() {
            return ReceiveStep::Fail(EMSGSIZE);
        }
        let message = q.messages.remove(0);
        proof {
            assert(q.msgs() =~= before.skip(1));
            assert forall|i: int, j: int| 0 <= i < j < q.msgs().len() implies (
            #[trigger] q.msgs()[i]).0 >= (#[trigger] q.msgs()[j]).0 by {
                assert(before[i + 1].0 >= before[j + 1].0);
            }
            assert forall|i: int| 0 <= i < q.msgs().len() implies (#[trigger] q.msgs()[i]).0
                < MQ_PRIO_MAX && q.msgs()[i].1.len() <= q.msgsize by {
                assert(q.msgs()[i] == before[i + 1]);
            }
        }
        let wake = wake_all_waiters(&mut q.send_waiters, blocked);
        let poll_wake = wake_poll_waiters(&mut q.poll_waiters);
        return ReceiveStep::Received { message, wake, poll_wake };
    }
    if desc.nonblock() {
        return ReceiveStep::Fail(EAGAIN);
    }
    if timed_out(deadline_ns, a.now_ns) {
        return ReceiveStep::Fail(ETIMEDOUT);
    }
    if a.signal_pending {
        return ReceiveStep::Fail(EINTR);
    }
    let task = match a.task {
        Some(t) => t,
        None => {
            return ReceiveStep::Fail(EINVAL);
        },
    };
    let inserted: bool = enqueue_waiter_once(&mut q.recv_waiters, task);
    let timer_ms: Option<u64> = match deadline_ns {
        Some(d) => Some(arm_timeout_timer(d, a.now_ns)),
        None => None,
    };
    ReceiveStep::Sleep { timer_ms }
}

/// What a call that received a message of `len` bytes returns: `copied` and
/// `prio_written` tell whether the message and its priority could be written.
pub fn received_result(
    len: usize,
    copied: bool,
    prio_ptr: usize,
    prio_written: bool,
) -> (r: isize)
    requires
        len <= isize::MAX,
    ensures
        r == if (len > 0 && !copied) || (prio_ptr != 0 && !prio_written) {
            EFAULT as int
        } else {
            len as int
        },
{
    if len > 0 && !copied {
        return EFAULT;
    }
    if prio_ptr != 0 && !prio_written {
        return EFAULT;
    }
    len as isize
}

// ---------------------------------------------------------------------------
// Attributes and notifications.
// ---------------------------------------------------------------------------

/// The attributes of an open queue.
#[derive(Clone, Copy)]
pub struct MqAttr {
    pub mq_flags: i64,
    pub mq_maxmsg: i64,
    pub mq_msgsize: i64,
    pub mq_curmsgs: i64,
}

/// The attributes that a descriptor shows.
pub open spec fn attributes(desc: MqDescriptor, q: MqQueue) -> MqAttr {
    MqAttr {
        mq_flags: if desc.is_nonblock() {
            0x800
        } else {
            0
        },
        mq_maxmsg: q.maxmsg as i64,
        mq_msgsize: q.msgsize as i64,
        mq_curmsgs: q.msgs().len() as i64,
    }
}

/// Reads the attributes of a queue, then sets new ones. Only whether calls sleep
/// can be set.
///
/// `found` tells whether the number names a descriptor of a queue,
/// `old_written` whether the attributes could be written back, and `new_attr` is
/// what was asked for, if it can be read; a null pointer asks for neither. Gives
/// the attributes as they were, and the value of the call.
pub fn syscall_mq_getsetattr(
    q: &MqQueue,
    desc: &mut MqDescriptor,
    found: bool,
    newattr: usize,
    new_attr: Option<MqAttr>,
    oldattr: usize,
    old_written: bool,
) -> (r: (Option<MqAttr>, isize))
    ensures
        ({
            let fails = (oldattr != 0 && !old_written) || (newattr != 0 && new_attr is None);
            &&& r.0 == if found {
                Some(attributes(*old(desc), *q))
            } else {
                None
            }
            &&& r.1 == if !found {
                EBADF
            } else if fails {
                EFAULT
            } else {
                0
            }
            &&& final(desc).is_nonblock() == if found && !fails && newattr != 0 {
                new_attr->0.mq_flags as usize & O_NONBLOCK != 0
            } else {
                old(desc).is_nonblock()
            }
        }),
        final(desc).queue_id == old(desc).queue_id,
        final(desc).readable == old(desc).readable,
        final(desc).writable == old(desc).writable,
        final(desc).owner_pid == old(desc).owner_pid,
{
    if !found {
        return (None, EBADF);
    }
    let before = MqAttr {
        mq_flags: if desc.nonblock() {
            0x800
        } else {
            0
        },
        mq_maxmsg: q.maxmsg as i64,
        mq_msgsize: q.msgsize as i64,
        mq_curmsgs: q.messages.len() as i64,
    };
    if oldattr != 0 && !old_written {
        return (Some(before), EFAULT);
    }
    if newattr != 0 {
        match new_attr {
            None => {
                return (Some(before), EFAULT);
            },
            Some(n) => {
                desc.set_nonblock((n.mq_flags as usize & O_NONBLOCK) != 0);
            },
        }
    }
    (Some(before), 0)
}

/// The queue after process `pid` gave its registration up.
pub open spec fn own_registration(q: MqQueue, pid: usize) -> Option<NotifyRegistration> {
    match q.notify {
        Some(reg) => if reg.owner_pid == pid {
            Some(reg)
        } else {
            None
        },
        None => None,
    }
}

/// Ends the registration of process `pid`, if it has one, and says what is sent.
pub fn maybe_clear_notify_for_owner(q: &mut MqQueue, pid: usize) -> (r: Notification)
    ensures
        old(q).wf() ==> final(q).wf(),
        final(q).same_identity(old(q)),
        final(q).messages == old(q).messages,
        final(q).recv_waiters == old(q).recv_waiters,
        final(q).send_waiters == old(q).send_waiters,
        final(q).poll_waiters == old(q).poll_waiters,
        match own_registration(*old(q), pid) {
            Some(reg) => final(q).notify is None && r == removal_of(reg),
            None => final(q).notify == old(q).notify && r is Nothing,
        },
{
    match q.notify {
        Some(reg) => {
            if reg.owner_pid == pid {
                q.notify = None;
                return send_removed_if_thread(&reg);
            }
            Notification::Nothing
        },
        None => Notification::Nothing,
    }
}

/// What a request for a notification makes of queue `q`: see [`syscall_mq_notify`].
pub open spec fn asks_to_be_told(
    q: MqQueue,
    t: MqQueue,
    desc: Option<MqDescriptor>,
    notification: usize,
    ev: Option<Sigevent>,
    pid: usize,
    sock: isize,
    cookie: Option<[u8; 32]>,
    r: (isize, Notification),
) -> bool {
    if notification != 0 {
        let bad = match ev {
            None => Some(EFAULT),
            Some(e) => notify_error(e, sock, cookie),
        };
        &&& r.1 is Nothing
        &&& match bad {
            Some(e) => r.0 == e && t.notify == q.notify,
            None => if desc is None {
                r.0 == EBADF && t.notify == q.notify
            } else if q.notify is Some {
                r.0 == EBUSY && t.notify == q.notify
            } else {
                r.0 == 0 && (t.notify matches Some(reg) && registers(
                    ev->0,
                    pid,
                    cookie,
                    reg,
                ))
            },
        }
    } else if desc is None {
        r.0 == EBADF && r.1 is Nothing && t.notify == q.notify
    } else {
        &&& r.0 == 0
        &&& match own_registration(q, pid) {
            Some(reg) => t.notify is None && r.1 == removal_of(reg),
            None => t.notify == q.notify && r.1 is Nothing,
        }
    }
}

/// Registers for a notification, or ends the caller's own registration.
///
/// Only one registration is held at a time. To end one that another process
/// holds does nothing. `ev`, `sock` and `cookie` are as in
/// [`parse_notify_registration`].
pub fn syscall_mq_notify(
    q: &mut MqQueue,
    desc: Option<MqDescriptor>,
    notification: usize,
    ev: Option<Sigevent>,
    pid: usize,
    sock: isize,
    cookie: Option<[u8; 32]>,
) -> (r: (isize, Notification))
    ensures
        old(q).wf() ==> final(q).wf(),
        final(q).same_identity(old(q)),
        final(q).messages == old(q).messages,
        final(q).recv_waiters == old(q).recv_waiters,
        final(q).send_waiters == old(q).send_waiters,
        final(q).poll_waiters == old(q).poll_waiters,
        asks_to_be_told(*old(q), *final(q), desc, notification, ev, pid, sock, cookie, r),
{
    let parsed = match parse_notify_registration(notification, ev, pid, sock, cookie) {
        Ok(p) => p,
        Err(e) => {
            return (e, Notification::Nothing);
        },
    };
    if desc.is_none() {
        return (EBADF, Notification::Nothing);
    }
    match parsed {
        Some(reg) => {
            if q.notify.is_some() {
                return (EBUSY, Notification::Nothing);
            }
            q.notify = Some(reg);
            (0, Notification::Nothing)
        },
        None => {
            let sent = maybe_clear_notify_for_owner(q, pid);
            (0, sent)
        },
    }
}

} // verus!
