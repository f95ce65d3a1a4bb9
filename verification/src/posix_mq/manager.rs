//! The queues of one IPC namespace: opening, unlinking and closing.

use vstd::prelude::*;
use vstd::string::StringSliceAdditionalSpecFns;
use crate::errno::{EACCES, EEXIST, EFAULT, EINVAL, EMFILE, ENOENT, ENOSPC};
use crate::posix_mq::abi::{
    name_error, name_value, read_queue_name, FD_CLOEXEC, MQ_DEFAULT_MAXMSG, MQ_DEFAULT_MSGSIZE,
    MQ_DEFAULT_QUEUES_MAX, MQ_HARD_QUEUES_MAX, O_ACCMODE, O_CLOEXEC, O_CREAT, O_EXCL, O_NONBLOCK,
    O_RDONLY, O_RDWR, O_WRONLY,
};
use crate::posix_mq::access::{
    check_access, is_owner_or_root, may_access, owns, Cred, MqPerm,
};
use crate::posix_mq::notify::{removal_of, Notification};
use crate::posix_mq::queue::{
    maybe_clear_notify_for_owner, own_registration, MqAttr, MqDescriptor, MqQueue,
};
use crate::text::{bytes_eq, to_vec, txt};

verus! {

/// A name and the queue that it stands for.
pub struct NameEntry {
    pub name: Vec<u8>,
    pub id: usize,
}

/// The queues of one IPC namespace.
pub struct MqManager {
    pub next_id: usize,
    pub by_id: Vec<MqQueue>,
    pub by_name: Vec<NameEntry>,
}

/// The first queue, from `i` on, with this id.
pub open spec fn queue_from(s: Seq<MqQueue>, id: usize, i: int) -> Option<int>
    decreases s.len() - i,
{
    if i >= s.len() {
        None
    } else if s[i].id == id {
        Some(i)
    } else {
        queue_from(s, id, i + 1)
    }
}

/// The first entry, from `i` on, of this name.
pub open spec fn name_from(s: Seq<NameEntry>, name: Seq<u8>, i: int) -> Option<int>
    decreases s.len() - i,
{
    if i >= s.len() {
        None
    } else if s[i].name@ == name {
        Some(i)
    } else {
        name_from(s, name, i + 1)
    }
}

proof fn lemma_queue_from(s: Seq<MqQueue>, id: usize, i: int)
    requires
        0 <= i <= s.len(),
    ensures
        match queue_from(s, id, i) {
            Some(k) => i <= k < s.len() && s[k].id == id,
            None => forall|j: int| i <= j < s.len() ==> (#[trigger] s[j]).id != id,
        },
    decreases s.len() - i,
{
    if i < s.len() && s[i].id != id {
        lemma_queue_from(s, id, i + 1);
    }
}

proof fn lemma_name_from(s: Seq<NameEntry>, name: Seq<u8>, i: int)
    requires
        0 <= i <= s.len(),
    ensures
        match name_from(s, name, i) {
            Some(k) => i <= k < s.len() && s[k].name@ == name,
            None => forall|j: int| i <= j < s.len() ==> (#[trigger] s[j]).name@ != name,
        },
    decreases s.len() - i,
{
    if i < s.len() && s[i].name@ != name {
        lemma_name_from(s, name, i + 1);
    }
}

/// The queue that a name stands for.
pub open spec fn named(m: MqManager, name: Seq<u8>) -> Option<int> {
    match name_from(m.by_name@, name, 0) {
        Some(k) => queue_from(m.by_id@, m.by_name@[k].id, 0),
        None => None,
    }
}

/// The queue is named `name`.
pub open spec fn has_name(q: MqQueue, name: Seq<u8>) -> bool {
    q.name matches Some(n) && n@ == name
}

/// A queue is among others, with the same limits.
pub open spec fn limits_of(s: Seq<MqQueue>, q: MqQueue) -> bool {
    exists|i: int|
        0 <= i < s.len() && (#[trigger] s[i]).id == q.id && s[i].maxmsg == q.maxmsg && s[i].msgsize
            == q.msgsize
}

impl MqManager {
    /// Ids and names are unique, ids were handed out before, every name stands
    /// for a queue that bears it, and every queue has a name or is open.
    pub open spec fn wf(&self) -> bool {
        &&& forall|i: int, j: int|
            0 <= i < j < self.by_id@.len() ==> (#[trigger] self.by_id@[i]).id != (
            #[trigger] self.by_id@[j]).id
        &&& forall|i: int|
            0 <= i < self.by_id@.len() ==> 1 <= (#[trigger] self.by_id@[i]).id < self.next_id
                && self.by_id@[i].wf() && (self.by_id@[i].name is Some || self.by_id@[i].open_count
                > 0)
        &&& forall|i: int, j: int|
            0 <= i < j < self.by_name@.len() ==> (#[trigger] self.by_name@[i]).name@ != (
            #[trigger] self.by_name@[j]).name@
        &&& forall|i: int|
            0 <= i < self.by_name@.len() ==> (queue_from(
                self.by_id@,
                (#[trigger] self.by_name@[i]).id,
                0,
            ) matches Some(k) && has_name(self.by_id@[k], self.by_name@[i].name@))
    }

    /// What a call leaves of the queues: all is well-formed, and a queue that was
    /// there before has the limits that it was made with. Ids are not used again.
    pub open spec fn follows(&self, before: &MqManager) -> bool {
        &&& self.wf()
        &&& before.next_id <= self.next_id
        &&& forall|j: int|
            0 <= j < self.by_id@.len() ==> (#[trigger] self.by_id@[j]).id >= before.next_id
                || limits_of(before.by_id@, self.by_id@[j])
    }

    /// A namespace without queues.
    pub fn new() -> (r: MqManager)
        ensures
            r.wf(),
            r.next_id == 0,
            r.by_id@.len() == 0,
            r.by_name@.len() == 0,
    {
        MqManager { next_id: 0, by_id: Vec::new(), by_name: Vec::new() }
    }

    /// Hands out an id that no queue has.
    pub fn alloc_id(&mut self) -> (id: usize)
        requires
            old(self).wf(),
            old(self).next_id < usize::MAX,
        ensures
            id >= 1,
            id == if old(self).next_id == 0 {
                1
            } else {
                old(self).next_id
            },
            queue_from(old(self).by_id@, id, 0) is None,
            final(self).next_id == id + 1,
            final(self).by_id == old(self).by_id,
            final(self).by_name == old(self).by_name,
            final(self).wf(),
    {
        if self.next_id == 0 {
            self.next_id = 1;
        }
        let id: usize = self.next_id;
        proof {
            lemma_queue_from(self.by_id@, id, 0);
        }
        self.next_id = self.next_id + 1;
        id
    }

    fn find_id(&self, id: usize) -> (r: Option<usize>)
        ensures
            match r {
                Some(i) => i < self.by_id.len() && queue_from(self.by_id@, id, 0) == Some(i as int)
                    && self.by_id@[i as int].id == id,
                None => queue_from(self.by_id@, id, 0) is None,
            },
    {
        let mut i: usize = 0;
        while i < self.by_id.len()
            invariant
                i <= self.by_id.len(),
                queue_from(self.by_id@, id, 0) == queue_from(self.by_id@, id, i as int),
            decreases self.by_id.len() - i,
        {
            if self.by_id[i].id == id {
                return Some(i);
            }
            i += 1;
        }
        None
    }

    fn find_name(&self, name: &[u8]) -> (r: Option<usize>)
        ensures
            match r {
                Some(i) => i < self.by_name.len() && name_from(self.by_name@, name@, 0) == Some(
                    i as int,
                ) && self.by_name@[i as int].name@ == name@,
                None => name_from(self.by_name@, name@, 0) is None,
            },
    {
        let mut i: usize = 0;
        while i < self.by_name.len()
            invariant
                i <= self.by_name.len(),
                name_from(self.by_name@, name@, 0) == name_from(self.by_name@, name@, i as int),
            decreases self.by_name.len() - i,
        {
            if bytes_eq(self.by_name[i].name.as_slice(), name) {
                return Some(i);
            }
            i += 1;
        }
        None
    }
}

// ---------------------------------------------------------------------------
// Changes of the two lists.
// ---------------------------------------------------------------------------

/// Queues with the same ids in the same places are found in the same places.
proof fn lemma_same_ids(s: Seq<MqQueue>, t: Seq<MqQueue>, id: usize, i: int)
    requires
        s.len() == t.len(),
        forall|j: int| 0 <= j < s.len() ==> (#[trigger] t[j]).id == s[j].id,
        0 <= i <= s.len(),
    ensures
        queue_from(s, id, i) == queue_from(t, id, i),
    decreases s.len() - i,
{
    if i < s.len() {
        assert(t[i].id == s[i].id);
        lemma_same_ids(s, t, id, i + 1);
    }
}

proof fn lemma_queue_push(s: Seq<MqQueue>, q: MqQueue, id: usize, i: int)
    requires
        0 <= i <= s.len(),
    ensures
        queue_from(s.push(q), id, i) == match queue_from(s, id, i) {
            Some(k) => Some(k),
            None => if q.id == id {
                Some(s.len() as int)
            } else {
                None
            },
        },
    decreases s.len() - i,
{
    if i < s.len() {
        lemma_queue_push(s, q, id, i + 1);
    } else {
        assert(queue_from(s.push(q), id, i + 1) is None);
    }
}

/// A queue other than the removed one is still found, and is the same.
proof fn lemma_queue_remove(s: Seq<MqQueue>, k: int, id: usize, i: int)
    requires
        0 <= k < s.len(),
        0 <= i <= s.len(),
        s[k].id != id,
    ensures
        ({
            let t = s.remove(k);
            let i1 = if i <= k {
                i
            } else {
                i - 1
            };
            match queue_from(s, id, i) {
                Some(j) => queue_from(t, id, i1) matches Some(j1) && 0 <= j < s.len() && 0 <= j1
                    < t.len() && t[j1] == s[j],
                None => queue_from(t, id, i1) is None,
            }
        }),
    decreases s.len() - i,
{
    let t = s.remove(k);
    if i < s.len() {
        lemma_queue_remove(s, k, id, i + 1);
        let i1 = if i <= k {
            i
        } else {
            i - 1
        };
        if i != k {
            assert(t[i1] == s[i]);
        }
    }
}

/// Removing one entry of a list without duplicate names removes its name only.
proof fn lemma_name_removed(s: Seq<NameEntry>, k: int, name: Seq<u8>)
    requires
        0 <= k < s.len(),
        forall|i: int, j: int|
            0 <= i < j < s.len() ==> (#[trigger] s[i]).name@ != (#[trigger] s[j]).name@,
        s[k].name@ == name,
    ensures
        name_from(s.remove(k), name, 0) is None,
{
    let t = s.remove(k);
    lemma_name_from(t, name, 0);
    if let Some(j) = name_from(t, name, 0) {
        let j0 = if j < k {
            j
        } else {
            j + 1
        };
        assert(t[j] == s[j0]);
    }
}

/// Replacing one queue by another with its id and name keeps a namespace
/// well-formed.
proof fn lemma_replace_wf(m: MqManager, after: MqManager, k: int)
    requires
        m.wf(),
        0 <= k < m.by_id@.len(),
        after.next_id == m.next_id,
        after.by_name@ == m.by_name@,
        after.by_id@.len() == m.by_id@.len(),
        forall|j: int| 0 <= j < m.by_id@.len() && j != k ==> (#[trigger] after.by_id@[j]) == m.by_id@[j],
        after.by_id@[k].id == m.by_id@[k].id,
        after.by_id@[k].name == m.by_id@[k].name,
        after.by_id@[k].wf(),
        after.by_id@[k].name is Some || after.by_id@[k].open_count > 0,
    ensures
        after.wf(),
{
    let s = m.by_id@;
    let t = after.by_id@;
    assert forall|j: int| 0 <= j < s.len() implies (#[trigger] t[j]).id == s[j].id && t[j].name
        == s[j].name by {}
    assert forall|i: int, j: int| 0 <= i < j < t.len() implies (#[trigger] t[i]).id != (
    #[trigger] t[j]).id by {
        assert(s[i].id != s[j].id);
    }
    assert forall|i: int| 0 <= i < t.len() implies 1 <= (#[trigger] t[i]).id < after.next_id
        && t[i].wf() && (t[i].name is Some || t[i].open_count > 0) by {
        assert(1 <= s[i].id < m.next_id);
    }
    assert forall|i: int| 0 <= i < after.by_name@.len() implies (queue_from(
        t,
        (#[trigger] after.by_name@[i]).id,
        0,
    ) matches Some(x) && has_name(t[x], after.by_name@[i].name@)) by {
        lemma_same_ids(s, t, m.by_name@[i].id, 0);
        lemma_queue_from(s, m.by_name@[i].id, 0);
        assert(queue_from(s, m.by_name@[i].id, 0) is Some);
    }
}

// ---------------------------------------------------------------------------
// Opening.
// ---------------------------------------------------------------------------

/// Reading is asked for.
pub open spec fn wants_read(oflag: usize) -> bool {
    oflag & O_ACCMODE == O_RDONLY || oflag & O_ACCMODE == O_RDWR
}

/// Writing is asked for.
pub open spec fn wants_write(oflag: usize) -> bool {
    oflag & O_ACCMODE == O_WRONLY || oflag & O_ACCMODE == O_RDWR
}

/// A queue that was opened.
pub struct MqOpened {
    pub fd: usize,
    pub fd_flags: u32,
    pub desc: MqDescriptor,
}

/// What is asked of an open.
pub struct MqOpenCall {
    /// The address of the name, and the bytes that can be read there.
    pub name_ptr: usize,
    pub name: Vec<u8>,
    pub oflag: usize,
    pub mode: usize,
    /// The address of the attributes of a new queue, and what is found there.
    pub attr_ptr: usize,
    pub attr: Option<MqAttr>,
    /// The descriptor number that would be given, if one is left.
    pub free_fd: Option<usize>,
    /// How many queues there may be.
    pub queues_max: usize,
}

/// Why a new queue cannot be made.
pub open spec fn create_error(c: MqOpenCall, count: int) -> Option<isize> {
    if c.oflag & O_CREAT == 0 {
        Some(ENOENT)
    } else if c.attr_ptr != 0 && c.attr is None {
        Some(EFAULT)
    } else if c.attr_ptr != 0 && (c.attr->0.mq_maxmsg <= 0 || c.attr->0.mq_msgsize <= 0) {
        Some(EINVAL)
    } else if count >= c.queues_max {
        Some(ENOSPC)
    } else {
        None
    }
}

/// Why an open fails, before a descriptor is asked for.
pub open spec fn open_error(m: MqManager, c: MqOpenCall, cred: Cred) -> Option<isize> {
    match name_error(c.name_ptr, c.name@) {
        Some(e) => Some(e),
        None => if !wants_read(c.oflag) && !wants_write(c.oflag) {
            Some(EINVAL)
        } else {
            match named(m, name_value(c.name@)) {
                Some(k) => if c.oflag & O_CREAT != 0 && c.oflag & O_EXCL != 0 {
                    Some(EEXIST)
                } else if !may_access(
                    m.by_id@[k].perm,
                    cred,
                    wants_read(c.oflag),
                    wants_write(c.oflag),
                ) {
                    Some(EACCES)
                } else {
                    None
                },
                None => create_error(c, m.by_id@.len() as int),
            }
        },
    }
}

/// `q` is the queue that an open by `cred` makes, with `opens` descriptors.
pub open spec fn is_new_queue(q: MqQueue, id: usize, c: MqOpenCall, cred: Cred, opens: int) -> bool {
    &&& q.id == id
    &&& has_name(q, name_value(c.name@))
    &&& q.open_count == opens
    &&& q.perm == (MqPerm { uid: cred.euid, gid: cred.egid, mode: (c.mode as u16) & 0o777 })
    &&& q.maxmsg == if c.attr_ptr != 0 {
        c.attr->0.mq_maxmsg as usize
    } else {
        MQ_DEFAULT_MAXMSG
    }
    &&& q.msgsize == if c.attr_ptr != 0 {
        c.attr->0.mq_msgsize as usize
    } else {
        MQ_DEFAULT_MSGSIZE
    }
    &&& q.messages@.len() == 0
    &&& q.recv_waiters@.len() == 0
    &&& q.send_waiters@.len() == 0
    &&& q.poll_waiters@.len() == 0
    &&& q.notify is None
}

/// `o` is what an open of queue `id` by `cred` gives.
pub open spec fn is_opened(o: MqOpened, fd: usize, id: usize, c: MqOpenCall, cred: Cred) -> bool {
    &&& o.fd == fd
    &&& o.fd_flags == fd_flags(c.oflag)
    &&& o.desc.queue_id == id
    &&& o.desc.readable == wants_read(c.oflag)
    &&& o.desc.writable == wants_write(c.oflag)
    &&& o.desc.is_nonblock() == (c.oflag & O_NONBLOCK != 0)
    &&& o.desc.owner_pid == cred.pid
}

/// The flags of the descriptor number.
pub open spec fn fd_flags(oflag: usize) -> u32 {
    let cloexec = oflag & O_CLOEXEC != 0;
    let nonblock = oflag & O_NONBLOCK != 0;
    if cloexec && nonblock {
        0x801
    } else if cloexec {
        0x1
    } else if nonblock {
        0x800
    } else {
        0
    }
}

fn descriptor_flags(oflag: usize) -> (r: u32)
    ensures
        r == fd_flags(oflag),
{
    let mut flags: u32 = 0;
    if (oflag & O_CLOEXEC) != 0 {
        flags += FD_CLOEXEC;
    }
    if (oflag & O_NONBLOCK) != 0 {
        flags += O_NONBLOCK as u32;
    }
    flags
}

fn copy_name(name: &Vec<u8>) -> (r: Vec<u8>)
    ensures
        r@ == name@,
{
    to_vec(name.as_slice())
}

/// Opens a queue, or makes one.
///
/// If no descriptor is left, nothing is opened, and a queue that was made for
/// this call is gone again.
pub fn syscall_mq_open(m: &mut MqManager, c: &MqOpenCall, cred: &Cred) -> (r: Result<
    MqOpened,
    isize,
>)
    requires
        old(m).wf(),
        old(m).next_id < usize::MAX,
        forall|i: int|
            0 <= i < old(m).by_id@.len() ==> (#[trigger] old(m).by_id@[i]).open_count < usize::MAX,
    ensures
        final(m).follows(old(m)),
        final(m).next_id == if open_error(*old(m), *c, *cred) is None && named(
            *old(m),
            name_value(c.name@),
        ) is None {
            if old(m).next_id == 0 {
                2
            } else {
                old(m).next_id + 1
            }
        } else {
            old(m).next_id as int
        },
        match open_error(*old(m), *c, *cred) {
            Some(e) => r == Err::<MqOpened, isize>(e) && *final(m) == *old(m),
            None => match (c.free_fd, named(*old(m), name_value(c.name@))) {
                (None, existing) => {
                    &&& r == Err::<MqOpened, isize>(EMFILE)
                    &&& final(m).by_id@ == old(m).by_id@
                    &&& final(m).by_name@ == old(m).by_name@
                },
                (Some(fd), Some(k)) => {
                    let q = old(m).by_id@[k];
                    &&& r matches Ok(o)
                    &&& is_opened(o, fd, q.id, *c, *cred)
                    &&& final(m).by_id@ == old(m).by_id@.update(
                        k,
                        MqQueue { open_count: (q.open_count + 1) as usize, ..q },
                    )
                    &&& final(m).by_name@ == old(m).by_name@
                },
                (Some(fd), None) => {
                    let id = if old(m).next_id == 0 {
                        1
                    } else {
                        old(m).next_id
                    };
                    &&& r matches Ok(o)
                    &&& is_opened(o, fd, id, *c, *cred)
                    &&& final(m).by_id@.len() == old(m).by_id@.len() + 1
                    &&& final(m).by_id@.drop_last() == old(m).by_id@
                    &&& is_new_queue(final(m).by_id@.last(), id, *c, *cred, 1)
                    &&& final(m).by_name@.len() == old(m).by_name@.len() + 1
                    &&& final(m).by_name@.drop_last() == old(m).by_name@
                    &&& final(m).by_name@.last().id == id
                    &&& final(m).by_name@.last().name@ == name_value(c.name@)
                },
            },
        },
{
    let name = match read_queue_name(c.name_ptr, c.name.as_slice()) {
        Ok(n) => n,
        Err(e) => {
            return Err(e);
        },
    };
    let accmode: usize = c.oflag & O_ACCMODE;
    let (readable, writable): (bool, bool) = if accmode == O_RDONLY {
        (true, false)
    } else if accmode == O_WRONLY {
        (false, true)
    } else if accmode == O_RDWR {
        (true, true)
    } else {
        return Err(EINVAL);
    };
    let nonblock: bool = (c.oflag & O_NONBLOCK) != 0;
    let ghost before = *m;
    if let Some(e) = m.find_name(name.as_slice()) {
        let id: usize = m.by_name[e].id;
        assert(queue_from(m.by_id@, m.by_name@[e as int].id, 0) is Some);
        if (c.oflag & O_CREAT) != 0 && (c.oflag & O_EXCL) != 0 {
            return Err(EEXIST);
        }
        let k = match m.find_id(id) {
            Some(k) => k,
            None => {
                return Err(ENOENT);
            },
        };
        if !check_access(&m.by_id[k].perm, cred, readable, writable) {
            return Err(EACCES);
        }
        return match c.free_fd {
            None => Err(EMFILE),
            Some(fd) => {
                m.by_id[k].open_count = m.by_id[k].open_count + 1;
                proof {
                    lemma_replace_wf(before, *m, k as int);
                }
                Ok(
                    MqOpened {
                        fd,
                        fd_flags: descriptor_flags(c.oflag),
                        desc: MqDescriptor::new(id, readable, writable, nonblock, cred.pid),
                    },
                )
            },
        };
    }
    if (c.oflag & O_CREAT) == 0 {
        return Err(ENOENT);
    }
    let mut maxmsg: usize = MQ_DEFAULT_MAXMSG;
    let mut msgsize: usize = MQ_DEFAULT_MSGSIZE;
    if c.attr_ptr != 0 {
        match c.attr {
            None => {
                return Err(EFAULT);
            },
            Some(a) => {
                if a.mq_maxmsg <= 0 || a.mq_msgsize <= 0 {
                    return Err(EINVAL);
                }
                maxmsg = a.mq_maxmsg as usize;
                msgsize = a.mq_msgsize as usize;
            },
        }
    }
    if m.by_id.len() >= c.queues_max {
        return Err(ENOSPC);
    }
    let id: usize = m.alloc_id();
    let ghost allocated = *m;
    let queue = MqQueue {
        id,
        name: Some(copy_name(&name)),
        open_count: 1,
        perm: MqPerm { uid: cred.euid, gid: cred.egid, mode: (c.mode as u16) & 0o777 },
        maxmsg,
        msgsize,
        messages: Vec::new(),
        recv_waiters: Vec::new(),
        send_waiters: Vec::new(),
        poll_waiters: Vec::new(),
        notify: None,
    };
    let ghost q = queue;
    m.by_name.push(NameEntry { name, id });
    m.by_id.push(queue);
    match c.free_fd {
        Some(fd) => {
            proof {
                let s = before.by_id@;
                let t = m.by_id@;
                assert(t.drop_last() =~= s);
                assert(m.by_name@.drop_last() =~= before.by_name@);
                lemma_queue_from(s, id, 0);
                lemma_name_from(before.by_name@, name_value(c.name@), 0);
                assert forall|i: int, j: int| 0 <= i < j < t.len() implies (#[trigger] t[i]).id != (
                #[trigger] t[j]).id by {
                    if j == s.len() {
                        assert(s[i].id != id);
                    }
                }
                assert forall|i: int| 0 <= i < t.len() implies 1 <= (#[trigger] t[i]).id < m.next_id
                    && t[i].wf() && (t[i].name is Some || t[i].open_count > 0) by {
                    if i < s.len() {
                        assert(1 <= s[i].id < before.next_id);
                    }
                }
                assert forall|i: int, j: int| 0 <= i < j < m.by_name@.len() implies (
                #[trigger] m.by_name@[i]).name@ != (#[trigger] m.by_name@[j]).name@ by {
                    if j == before.by_name@.len() {
                        assert(before.by_name@[i].name@ != name_value(c.name@));
                    }
                }
                assert forall|i: int| 0 <= i < m.by_name@.len() implies (queue_from(
                    t,
                    (#[trigger] m.by_name@[i]).id,
                    0,
                ) matches Some(x) && has_name(t[x], m.by_name@[i].name@)) by {
                    lemma_queue_push(s, q, m.by_name@[i].id, 0);
                    if i < before.by_name@.len() {
                        assert(m.by_name@[i] == before.by_name@[i]);
                        assert(queue_from(s, before.by_name@[i].id, 0) is Some);
                        lemma_queue_from(s, before.by_name@[i].id, 0);
                    }
                }
            }
            Ok(
                MqOpened {
                    fd,
                    fd_flags: descriptor_flags(c.oflag),
                    desc: MqDescriptor::new(id, readable, writable, nonblock, cred.pid),
                },
            )
        },
        None => {
            let gone = m.by_id.pop();
            let gone_name = m.by_name.pop();
            proof {
                assert(m.by_id@ =~= before.by_id@);
                assert(m.by_name@ =~= before.by_name@);
                assert(allocated.wf());
                assert(m.by_id@ == allocated.by_id@ && m.by_name@ == allocated.by_name@);
            }
            Err(EMFILE)
        },
    }
}

// ---------------------------------------------------------------------------
// Unlinking and closing.
// ---------------------------------------------------------------------------

/// Why a name cannot be removed.
pub open spec fn unlink_error(m: MqManager, name_ptr: usize, mem: Seq<u8>, cred: Cred) -> Option<
    isize,
> {
    match name_error(name_ptr, mem) {
        Some(e) => Some(e),
        None => match named(m, name_value(mem)) {
            None => Some(ENOENT),
            Some(k) => if owns(m.by_id@[k].perm, cred) {
                None
            } else {
                Some(EACCES)
            },
        },
    }
}

/// The queues after queue `k` lost its name: one that is not open is gone.
pub open spec fn nameless(s: Seq<MqQueue>, k: int) -> Seq<MqQueue> {
    if s[k].open_count == 0 {
        s.remove(k)
    } else {
        s.update(k, MqQueue { name: None, ..s[k] })
    }
}

/// Taking one queue out, together with every name that stood for it, keeps a
/// namespace well-formed.
proof fn lemma_remove_wf(m: MqManager, after: MqManager, k: int)
    requires
        m.wf(),
        0 <= k < m.by_id@.len(),
        after.next_id == m.next_id,
        after.by_id@ == m.by_id@.remove(k),
        after.by_name@ == m.by_name@,
        forall|i: int| 0 <= i < m.by_name@.len() ==> (#[trigger] m.by_name@[i]).id != m.by_id@[k].id,
    ensures
        after.wf(),
{
    let s = m.by_id@;
    let t = after.by_id@;
    assert forall|j: int| 0 <= j < t.len() implies #[trigger] t[j] == s[if j < k {
        j
    } else {
        j + 1
    }] by {}
    assert forall|i: int, j: int| 0 <= i < j < t.len() implies (#[trigger] t[i]).id != (
    #[trigger] t[j]).id by {
        let i0 = if i < k {
            i
        } else {
            i + 1
        };
        let j0 = if j < k {
            j
        } else {
            j + 1
        };
        assert(s[i0].id != s[j0].id);
    }
    assert forall|i: int| 0 <= i < t.len() implies 1 <= (#[trigger] t[i]).id < after.next_id
        && t[i].wf() && (t[i].name is Some || t[i].open_count > 0) by {
        let i0 = if i < k {
            i
        } else {
            i + 1
        };
        assert(1 <= s[i0].id < m.next_id);
    }
    assert forall|i: int| 0 <= i < after.by_name@.len() implies (queue_from(
        t,
        (#[trigger] after.by_name@[i]).id,
        0,
    ) matches Some(x) && has_name(t[x], after.by_name@[i].name@)) by {
        assert(m.by_name@[i].id != s[k].id);
        assert(queue_from(s, m.by_name@[i].id, 0) is Some);
        lemma_queue_remove(s, k, m.by_name@[i].id, 0);
    }
}

/// The namespace between the two steps of an unlink: the name is gone and the
/// queue still bears it.
proof fn lemma_unnamed_wf(m: MqManager, after: MqManager, e: int, k: int)
    requires
        m.wf(),
        0 <= e < m.by_name@.len(),
        queue_from(m.by_id@, m.by_name@[e].id, 0) == Some(k),
        after.next_id == m.next_id,
        after.by_id@ == m.by_id@,
        after.by_name@ == m.by_name@.remove(e),
    ensures
        0 <= k < m.by_id@.len(),
        after.wf(),
        forall|i: int|
            0 <= i < after.by_name@.len() ==> (#[trigger] after.by_name@[i]).id != m.by_id@[k].id,
{
    let s = m.by_name@;
    let t = after.by_name@;
    lemma_queue_from(m.by_id@, s[e].id, 0);
    assert forall|j: int| 0 <= j < t.len() implies #[trigger] t[j] == s[if j < e {
        j
    } else {
        j + 1
    }] by {}
    assert forall|i: int, j: int| 0 <= i < j < t.len() implies (#[trigger] t[i]).name@ != (
    #[trigger] t[j]).name@ by {
        let i0 = if i < e {
            i
        } else {
            i + 1
        };
        let j0 = if j < e {
            j
        } else {
            j + 1
        };
        assert(s[i0].name@ != s[j0].name@);
    }
    assert forall|i: int| 0 <= i < t.len() implies (queue_from(
        after.by_id@,
        (#[trigger] t[i]).id,
        0,
    ) matches Some(x) && has_name(after.by_id@[x], t[i].name@)) && t[i].id != m.by_id@[k].id by {
        let i0 = if i < e {
            i
        } else {
            i + 1
        };
        assert(queue_from(m.by_id@, s[i0].id, 0) is Some);
        assert(s[i0].name@ != s[e].name@);
        if s[i0].id == m.by_id@[k].id {
            assert(has_name(m.by_id@[k], s[i0].name@));
            assert(has_name(m.by_id@[k], s[e].name@));
        }
    }
}

/// Removes a name. The queue lives on while it is open.
///
/// `name` is what can be read at `name_ptr`.
pub fn syscall_mq_unlink(m: &mut MqManager, name_ptr: usize, name: &Vec<u8>, cred: &Cred) -> (r:
    isize)
    requires
        old(m).wf(),
    ensures
        final(m).follows(old(m)),
        match unlink_error(*old(m), name_ptr, name@, *cred) {
            Some(e) => r == e && *final(m) == *old(m),
            None => {
                let e = name_from(old(m).by_name@, name_value(name@), 0)->0;
                let k = named(*old(m), name_value(name@))->0;
                &&& r == 0
                &&& final(m).by_name@ == old(m).by_name@.remove(e)
                &&& final(m).by_id@ == nameless(old(m).by_id@, k)
                &&& final(m).next_id == old(m).next_id
                &&& named(*final(m), name_value(name@)) is None
            },
        },
{
    let qname = match read_queue_name(name_ptr, name.as_slice()) {
        Ok(n) => n,
        Err(e) => {
            return e;
        },
    };
    let ghost before = *m;
    let e = match m.find_name(qname.as_slice()) {
        Some(e) => e,
        None => {
            return ENOENT;
        },
    };
    let id: usize = m.by_name[e].id;
    assert(queue_from(m.by_id@, m.by_name@[e as int].id, 0) is Some);
    let k = match m.find_id(id) {
        Some(k) => k,
        None => {
            return ENOENT;
        },
    };
    if !is_owner_or_root(&m.by_id[k].perm, cred) {
        return EACCES;
    }
    let gone = m.by_name.remove(e);
    let ghost unnamed = *m;
    proof {
        lemma_unnamed_wf(before, *m, e as int, k as int);
        lemma_name_removed(before.by_name@, e as int, name_value(name@));
    }
    if m.by_id[k].open_count == 0 {
        let dropped = m.by_id.remove(k);
        proof {
            lemma_remove_wf(unnamed, *m, k as int);
        }
    } else {
        m.by_id[k].name = None;
        proof {
            lemma_rename_wf(unnamed, *m, k as int);
        }
    }
    0
}

/// Taking the name off a queue that no name stands for keeps a namespace
/// well-formed.
proof fn lemma_rename_wf(m: MqManager, after: MqManager, k: int)
    requires
        m.wf(),
        0 <= k < m.by_id@.len(),
        after.next_id == m.next_id,
        after.by_name@ == m.by_name@,
        after.by_id@.len() == m.by_id@.len(),
        forall|j: int| 0 <= j < m.by_id@.len() && j != k ==> (#[trigger] after.by_id@[j]) == m.by_id@[j],
        after.by_id@[k].id == m.by_id@[k].id,
        after.by_id@[k].wf(),
        after.by_id@[k].open_count > 0,
        forall|i: int| 0 <= i < m.by_name@.len() ==> (#[trigger] m.by_name@[i]).id != m.by_id@[k].id,
    ensures
        after.wf(),
{
    let s = m.by_id@;
    let t = after.by_id@;
    assert forall|j: int| 0 <= j < s.len() implies (#[trigger] t[j]).id == s[j].id by {}
    assert forall|i: int, j: int| 0 <= i < j < t.len() implies (#[trigger] t[i]).id != (
    #[trigger] t[j]).id by {
        assert(s[i].id != s[j].id);
    }
    assert forall|i: int| 0 <= i < t.len() implies 1 <= (#[trigger] t[i]).id < after.next_id
        && t[i].wf() && (t[i].name is Some || t[i].open_count > 0) by {
        assert(1 <= s[i].id < m.next_id);
    }
    assert forall|i: int| 0 <= i < after.by_name@.len() implies (queue_from(
        t,
        (#[trigger] after.by_name@[i]).id,
        0,
    ) matches Some(x) && has_name(t[x], after.by_name@[i].name@)) by {
        assert(m.by_name@[i].id != s[k].id);
        lemma_same_ids(s, t, m.by_name@[i].id, 0);
        lemma_queue_from(s, m.by_name@[i].id, 0);
        assert(queue_from(s, m.by_name@[i].id, 0) is Some);
    }
}

/// The queue after one descriptor of process `pid` was closed: its registration
/// ends.
pub open spec fn closed_once(q: MqQueue, pid: usize) -> MqQueue {
    MqQueue {
        open_count: (q.open_count - 1) as usize,
        notify: if own_registration(q, pid) is Some {
            None
        } else {
            q.notify
        },
        ..q
    }
}

/// Closes a descriptor. A queue without a name is gone with its last one.
pub fn close_descriptor(m: &mut MqManager, desc: &MqDescriptor) -> (r: Notification)
    requires
        old(m).wf(),
        queue_from(old(m).by_id@, desc.queue_id, 0) matches Some(k) && old(m).by_id@[k].open_count
            > 0,
    ensures
        final(m).follows(old(m)),
        ({
            let s = old(m).by_id@;
            let k = queue_from(s, desc.queue_id, 0)->0;
            let q = closed_once(s[k], desc.owner_pid);
            &&& final(m).by_id@ == if s[k].name is None && q.open_count == 0 {
                s.remove(k)
            } else {
                s.update(k, q)
            }
            &&& r == match own_registration(s[k], desc.owner_pid) {
                Some(reg) => removal_of(reg),
                None => Notification::Nothing,
            }
        }),
        final(m).by_name@ == old(m).by_name@,
        final(m).next_id == old(m).next_id,
{
    let ghost before = *m;
    proof {
        lemma_queue_from(m.by_id@, desc.queue_id, 0);
    }
    match m.find_id(desc.queue_id) {
        None => Notification::Nothing,
        Some(k) => {
            let last: bool = m.by_id[k].name.is_none() && m.by_id[k].open_count == 1;
            if last {
                let mut gone = m.by_id.remove(k);
                let sent = maybe_clear_notify_for_owner(&mut gone, desc.owner_pid);
                proof {
                    assert forall|i: int| 0 <= i < before.by_name@.len() implies (
                    #[trigger] before.by_name@[i]).id != before.by_id@[k as int].id by {
                        assert(queue_from(before.by_id@, before.by_name@[i].id, 0) is Some);
                        lemma_queue_from(before.by_id@, before.by_name@[i].id, 0);
                    }
                    lemma_remove_wf(before, *m, k as int);
                }
                return sent;
            }
            let mut sent = Notification::Nothing;
            if let Some(reg) = m.by_id[k].notify {
                if reg.owner_pid == desc.owner_pid {
                    m.by_id[k].notify = None;
                    sent = crate::posix_mq::notify::send_removed_if_thread(&reg);
                }
            }
            m.by_id[k].open_count = m.by_id[k].open_count - 1;
            proof {
                let q = closed_once(before.by_id@[k as int], desc.owner_pid);
                assert(m.by_id@[k as int] == q);
                assert(m.by_id@ =~= before.by_id@.update(k as int, q));
                assert(q.msgs() == before.by_id@[k as int].msgs());
                lemma_replace_wf(before, *m, k as int);
            }
            sent
        },
    }
}

/// A name that was removed leads nowhere until it is made anew: to open it
/// without asking for a new queue fails.
pub proof fn law_unlinked_names_are_gone(m: MqManager, c: MqOpenCall, cred: Cred)
    requires
        named(m, name_value(c.name@)) is None,
        name_error(c.name_ptr, c.name@) is None,
        wants_read(c.oflag) || wants_write(c.oflag),
        c.oflag & O_CREAT == 0,
    ensures
        open_error(m, c, cred) == Some(ENOENT),
{
}

/// A queue that is open survives the removal of its name, with its messages.
pub proof fn law_open_queues_survive_unlink(s: Seq<MqQueue>, k: int)
    requires
        0 <= k < s.len(),
        s[k].open_count > 0,
    ensures
        queue_from(nameless(s, k), s[k].id, 0) == queue_from(s, s[k].id, 0),
        nameless(s, k)[k].msgs() == s[k].msgs(),
{
    let t = nameless(s, k);
    assert forall|j: int| 0 <= j < s.len() implies (#[trigger] t[j]).id == s[j].id by {}
    lemma_same_ids(s, t, s[k].id, 0);
}

/// Sending, receiving, reading attributes and registering keep the queues sound: the
/// queue in place `k` is replaced by what the call made of it.
pub proof fn law_queue_calls_keep_the_rest(m: MqManager, after: MqManager, k: int)
    requires
        m.wf(),
        0 <= k < m.by_id@.len(),
        after.next_id == m.next_id,
        after.by_name@ == m.by_name@,
        after.by_id@ == m.by_id@.update(k, after.by_id@[k]),
        after.by_id@[k].same_identity(&m.by_id@[k]),
        after.by_id@[k].wf(),
    ensures
        after.follows(&m),
{
    lemma_replace_wf(m, after, k);
    assert forall|j: int| 0 <= j < after.by_id@.len() implies limits_of(
        m.by_id@,
        #[trigger] after.by_id@[j],
    ) by {
        assert(m.by_id@[j].id == after.by_id@[j].id);
    }
}

proof fn lemma_follows_transitive(a: MqManager, b: MqManager, c: MqManager)
    requires
        b.follows(&a),
        c.follows(&b),
    ensures
        c.follows(&a),
{
    assert forall|j: int| 0 <= j < c.by_id@.len() implies (#[trigger] c.by_id@[j]).id >= a.next_id
        || limits_of(a.by_id@, c.by_id@[j]) by {
        let q = c.by_id@[j];
        if q.id < a.next_id {
            assert(limits_of(b.by_id@, q));
            let i = choose|i: int|
                0 <= i < b.by_id@.len() && (#[trigger] b.by_id@[i]).id == q.id
                    && b.by_id@[i].maxmsg == q.maxmsg && b.by_id@[i].msgsize == q.msgsize;
            assert(limits_of(a.by_id@, b.by_id@[i]));
        }
    }
}

proof fn lemma_follows_from(trace: Seq<MqManager>, i: int, j: int)
    requires
        0 <= i < j < trace.len(),
        forall|n: int| 0 <= n < trace.len() - 1 ==> (#[trigger] trace[n + 1]).follows(&trace[n]),
    ensures
        trace[j].follows(&trace[i]),
    decreases j - i,
{
    assert(trace[(j - 1) + 1].follows(&trace[j - 1]));
    if i < j - 1 {
        lemma_follows_from(trace, i, j - 1);
        lemma_follows_transitive(trace[i], trace[j - 1], trace[j]);
    }
}

/// Whatever calls are made, from a namespace without queues on: the messages of every
/// queue are in order of priority, no more than allowed, of valid priorities and none
/// too long, and a queue keeps the limits that it was made with.
pub proof fn law_queues_stay_sound(trace: Seq<MqManager>, i: int, x: int, j: int, y: int)
    requires
        0 <= i <= j < trace.len(),
        trace[0].by_id@.len() == 0,
        trace[0].by_name@.len() == 0,
        forall|n: int| 0 <= n < trace.len() - 1 ==> (#[trigger] trace[n + 1]).follows(&trace[n]),
        0 <= x < trace[i].by_id@.len(),
        0 <= y < trace[j].by_id@.len(),
    ensures
        trace[j].wf(),
        trace[j].by_id@[y].wf(),
        trace[j].by_id@[y].id == trace[i].by_id@[x].id ==> trace[j].by_id@[y].maxmsg
            == trace[i].by_id@[x].maxmsg && trace[j].by_id@[y].msgsize
            == trace[i].by_id@[x].msgsize,
{
    assert(i > 0);
    lemma_follows_from(trace, 0, i);
    lemma_follows_from(trace, 0, j);
    let q = trace[j].by_id@[y];
    let p = trace[i].by_id@[x];
    if q.id == p.id {
        assert(p.id < trace[i].next_id);
        if i < j {
            lemma_follows_from(trace, i, j);
            assert(limits_of(trace[i].by_id@, q));
            let z = choose|z: int|
                0 <= z < trace[i].by_id@.len() && (#[trigger] trace[i].by_id@[z]).id == q.id
                    && trace[i].by_id@[z].maxmsg == q.maxmsg && trace[i].by_id@[z].msgsize
                    == q.msgsize;
            assert(trace[i].by_id@[z].id == trace[i].by_id@[x].id);
        }
    }
}

// ---------------------------------------------------------------------------
// The limit on the number of queues.
// ---------------------------------------------------------------------------

/// The decimal digits of a number.
pub open spec fn decimal(n: nat) -> Seq<u8>
    decreases n,
{
    if n < 10 {
        seq![(n + 48) as u8]
    } else {
        decimal(n / 10).push((n % 10 + 48) as u8)
    }
}

fn to_decimal(n: usize) -> (r: Vec<u8>)
    ensures
        r@ == decimal(n as nat),
    decreases n,
{
    if n < 10 {
        let mut out: Vec<u8> = Vec::new();
        out.push((n + 48) as u8);
        assert(out@ =~= decimal(n as nat));
        out
    } else {
        let mut out = to_decimal(n / 10);
        out.push((n % 10 + 48) as u8);
        out
    }
}

/// The limit that is in force until it is changed.
pub fn mq_queues_default_limit() -> (r: usize)
    ensures
        r == 256,
{
    MQ_DEFAULT_QUEUES_MAX
}

/// The limit on the number of queues.
pub struct MqSysctl {
    pub queues_max: usize,
}

impl MqSysctl {
    /// The limit can be set.
    pub open spec fn wf(&self) -> bool {
        1 <= self.queues_max <= MQ_HARD_QUEUES_MAX
    }

    pub fn new() -> (r: MqSysctl)
        ensures
            r.wf(),
            r.queues_max == MQ_DEFAULT_QUEUES_MAX,
    {
        MqSysctl { queues_max: MQ_DEFAULT_QUEUES_MAX }
    }
}

/// The limit that is in force.
pub fn queues_max_limit_for_procfs(s: &MqSysctl) -> (r: usize)
    ensures
        r == s.queues_max,
{
    s.queues_max
}

/// Sets the limit. `parsed` is the number that was written to `path`. Gives the
/// text that the file shows afterwards.
pub fn write_mqueue_sysctl(s: &mut MqSysctl, path: &[u8], parsed: Result<usize, isize>) -> (r:
    Result<Vec<u8>, isize>)
    requires
        old(s).wf(),
    ensures
        final(s).wf(),
        match r {
            Ok(text) => path@ == txt("/proc/sys/fs/mqueue/queues_max") && (parsed matches Ok(v) && 1
                <= v <= MQ_HARD_QUEUES_MAX && final(s).queues_max == v && text@ == decimal(
                v as nat,
            ).push(10u8)),
            Err(e) => final(s).queues_max == old(s).queues_max && if path@ != txt(
                "/proc/sys/fs/mqueue/queues_max",
            ) {
                e == EINVAL
            } else {
                match parsed {
                    Err(p) => e == p,
                    Ok(v) => e == EINVAL && !(1 <= v <= MQ_HARD_QUEUES_MAX),
                }
            },
        },
{
    if !bytes_eq(path, "/proc/sys/fs/mqueue/queues_max".as_bytes()) {
        return Err(EINVAL);
    }
    let value: usize = match parsed {
        Ok(v) => v,
        Err(e) => {
            return Err(e);
        },
    };
    if value < 1 || value > MQ_HARD_QUEUES_MAX {
        return Err(EINVAL);
    }
    s.queues_max = value;
    let mut text = to_decimal(value);
    text.push(10);
    Ok(text)
}

// ---------------------------------------------------------------------------
// Namespaces.
// ---------------------------------------------------------------------------

/// The queues of one IPC namespace, with the id of the namespace.
pub struct MqNamespace {
    pub id: usize,
    pub manager: MqManager,
}

/// The first namespace, from `i` on, with this id.
pub open spec fn space_from(s: Seq<MqNamespace>, id: usize, i: int) -> Option<int>
    decreases s.len() - i,
{
    if i >= s.len() {
        None
    } else if s[i].id == id {
        Some(i)
    } else {
        space_from(s, id, i + 1)
    }
}

/// Finds the queues of a namespace; one that has none yet starts empty. No
/// other namespace is touched.
pub fn namespace_slot(spaces: &mut Vec<MqNamespace>, id: usize) -> (r: usize)
    ensures
        match space_from(old(spaces)@, id, 0) {
            Some(i) => r == i && i < old(spaces)@.len() && final(spaces)@ == old(spaces)@,
            None => {
                &&& r == old(spaces)@.len()
                &&& final(spaces)@.len() == old(spaces)@.len() + 1
                &&& final(spaces)@.drop_last() == old(spaces)@
                &&& final(spaces)@.last().manager.wf()
                &&& final(spaces)@.last().manager.next_id == 0
                &&& final(spaces)@.last().manager.by_id@.len() == 0
                &&& final(spaces)@.last().manager.by_name@.len() == 0
            },
        },
        final(spaces)@[r as int].id == id,
{
    let mut i: usize = 0;
    while i < spaces.len()
        invariant
            spaces@ == old(spaces)@,
            i <= spaces.len(),
            space_from(spaces@, id, 0) == space_from(spaces@, id, i as int),
        decreases spaces.len() - i,
    {
        if spaces[i].id == id {
            return i;
        }
        i += 1;
    }
    spaces.push(MqNamespace { id, manager: MqManager::new() });
    assert(spaces@.drop_last() =~= old(spaces)@);
    i
}

} // verus!
