//! Robust futexes: giving up the locks that an exiting thread still holds.

use vstd::prelude::*;

verus! {

/// How many entries of the list are looked at.
pub const ROBUST_LIST_LIMIT: usize = 2048;
/// The size of the list head in memory.
pub const ROBUST_LIST_HEAD_LEN: usize = 24;
/// Somebody waits for the lock.
pub const FUTEX_WAITERS: u32 = 0x8000_0000;
/// The owner of the lock exited without releasing it.
pub const FUTEX_OWNER_DIED: u32 = 0x4000_0000;
/// The bits of a lock word that hold its owner.
pub const FUTEX_TID_MASK: u32 = 0x3fff_ffff;

/// The head of the list, as user memory holds it.
#[derive(Clone, Copy)]
pub struct RobustListHead {
    /// The first entry.
    pub list: u64,
    /// Where the lock word is, seen from its entry.
    pub futex_offset: i64,
    /// The entry of a lock that is being taken or released.
    pub list_op_pending: u64,
}

/// An entry of the list in memory: its address, and the next entry.
#[derive(Clone, Copy)]
pub struct ListNode {
    pub addr: u64,
    pub next: u64,
}

/// A lock word in memory.
#[derive(Clone, Copy)]
pub struct FutexWord {
    pub addr: u64,
    pub value: u32,
}

/// The next entry behind the entry at `addr`, if it can be read; entries are
/// searched from `i` on.
pub open spec fn next_from(nodes: Seq<ListNode>, addr: u64, i: int) -> Option<u64>
    decreases nodes.len() - i,
{
    if i >= nodes.len() {
        None
    } else if nodes[i].addr == addr {
        Some(nodes[i].next)
    } else {
        next_from(nodes, addr, i + 1)
    }
}

/// The slot of the lock word at `addr`, if it can be read; from `i` on.
pub open spec fn word_from(words: Seq<FutexWord>, addr: u64, i: int) -> Option<int>
    decreases words.len() - i,
{
    if i >= words.len() {
        None
    } else if words[i].addr == addr {
        Some(i)
    } else {
        word_from(words, addr, i + 1)
    }
}

proof fn lemma_word_from(words: Seq<FutexWord>, addr: u64, i: int)
    requires
        0 <= i <= words.len(),
    ensures
        word_from(words, addr, i) matches Some(k) ==> i <= k < words.len() && words[k].addr == addr,
    decreases words.len() - i,
{
    if i < words.len() {
        lemma_word_from(words, addr, i + 1);
    }
}

/// The address without its lowest bit, which marks a lock with priority
/// inheritance.
pub open spec fn plain_addr(entry: u64) -> u64 {
    entry & !1u64
}

/// The lock has priority inheritance.
pub open spec fn is_pi(entry: u64) -> bool {
    entry & 1 != 0
}

/// The address of the lock word of an entry.
pub open spec fn futex_addr(entry: u64, offset: i64) -> u64 {
    plain_addr(entry).wrapping_add(offset as u64)
}

/// The owner of a lock.
pub open spec fn owner(word: u32) -> u32 {
    word & FUTEX_TID_MASK
}

/// The lock word after its owner died: it has no owner, is marked, and still
/// knows of its waiters.
pub open spec fn died(word: u32) -> u32 {
    (word & FUTEX_WAITERS) | FUTEX_OWNER_DIED
}

/// What is done with the lock of an exiting thread.
#[derive(Clone, Copy, PartialEq, Eq, Structural)]
pub enum DeathStep {
    /// The lock is not the thread's.
    Leave,
    /// The lock was just released: wake a waiter.
    Wake,
    /// Store the value, and wake a waiter if asked to.
    Store { value: u32, wake: bool },
}

/// The step for a lock word. A lock without an owner that was being released
/// gets a waiter woken, without a mark.
pub open spec fn death_step(word: u32, tid: u32, pi: bool, pending: bool) -> DeathStep {
    if pending && !pi && owner(word) == 0 {
        DeathStep::Wake
    } else if owner(word) != tid {
        DeathStep::Leave
    } else {
        DeathStep::Store { value: died(word), wake: !pi && word & FUTEX_WAITERS != 0 }
    }
}

/// Decides what is done with the lock word of an exiting thread.
pub fn futex_death_step(word: u32, tid: u32, pi: bool, pending: bool) -> (r: DeathStep)
    ensures
        r == death_step(word, tid, pi, pending),
{
    let who: u32 = word & FUTEX_TID_MASK;
    if pending && !pi && who == 0 {
        return DeathStep::Wake;
    }
    if who != tid {
        return DeathStep::Leave;
    }
    DeathStep::Store {
        value: (word & FUTEX_WAITERS) | FUTEX_OWNER_DIED,
        wake: !pi && (word & FUTEX_WAITERS) != 0,
    }
}

/// The words and the wake-ups after the lock of `entry` was given up, or `None`
/// if its word is misaligned or cannot be read.
pub open spec fn after_death(
    words: Seq<FutexWord>,
    wakes: Seq<u64>,
    entry: u64,
    offset: i64,
    tid: u32,
    pending: bool,
) -> Option<(Seq<FutexWord>, Seq<u64>)> {
    let addr = futex_addr(entry, offset);
    match word_from(words, addr, 0) {
        Some(k) if addr % 4 == 0 => Some(
            match death_step(words[k].value, tid, is_pi(entry), pending) {
                DeathStep::Leave => (words, wakes),
                DeathStep::Wake => (words, wakes.push(addr)),
                DeathStep::Store { value, wake } => (
                    words.update(k, FutexWord { addr, value }),
                    if wake {
                        wakes.push(addr)
                    } else {
                        wakes
                    },
                ),
            },
        ),
        _ => None,
    }
}

/// Gives up the lock of one entry. Fails if its word is misaligned or cannot be
/// read; `wakes` collects the addresses whose waiters are woken.
pub fn handle_futex_death(
    words: &mut Vec<FutexWord>,
    wakes: &mut Vec<u64>,
    entry: u64,
    offset: i64,
    tid: u32,
    pending: bool,
) -> (r: Result<(), ()>)
    ensures
        match after_death(old(words)@, old(wakes)@, entry, offset, tid, pending) {
            Some((w, k)) => r is Ok && final(words)@ == w && final(wakes)@ == k,
            None => r is Err && final(words)@ == old(words)@ && final(wakes)@ == old(wakes)@,
        },
{
    let pi: bool = (entry & 1) != 0;
    let addr: u64 = (entry & !1u64).wrapping_add(offset as u64);
    if addr % 4 != 0 {
        return Err(());
    }
    let mut i: usize = 0;
    while i < words.len()
        invariant
            words@ == old(words)@,
            wakes@ == old(wakes)@,
            addr == futex_addr(entry, offset),
            pi == is_pi(entry),
            addr % 4 == 0,
            i <= words.len(),
            word_from(words@, addr, 0) == word_from(words@, addr, i as int),
        decreases words.len() - i,
    {
        if words[i].addr == addr {
            match futex_death_step(words[i].value, tid, pi, pending) {
                DeathStep::Leave => {},
                DeathStep::Wake => {
                    wakes.push(addr);
                },
                DeathStep::Store { value, wake } => {
                    words[i].value = value;
                    assert(words@ =~= old(words)@.update(i as int, FutexWord { addr, value }));
                    if wake {
                        wakes.push(addr);
                    }
                },
            }
            return Ok(());
        }
        i += 1;
    }
    Err(())
}

/// The words and the wake-ups after the entries from `entry` on were looked at,
/// and whether a fault ended the walk for good. `count` entries came before.
pub open spec fn walk(
    nodes: Seq<ListNode>,
    words: Seq<FutexWord>,
    wakes: Seq<u64>,
    head_addr: u64,
    head: RobustListHead,
    tid: u32,
    entry: u64,
    count: int,
) -> (Seq<FutexWord>, Seq<u64>, bool)
    decreases ROBUST_LIST_LIMIT - count,
{
    if entry == 0 || plain_addr(entry) == head_addr || count >= ROBUST_LIST_LIMIT {
        (words, wakes, false)
    } else {
        match next_from(nodes, plain_addr(entry), 0) {
            None => (words, wakes, false),
            Some(next) => if plain_addr(entry) == plain_addr(head.list_op_pending) {
                walk(nodes, words, wakes, head_addr, head, tid, next, count + 1)
            } else {
                match after_death(words, wakes, entry, head.futex_offset, tid, false) {
                    None => (words, wakes, true),
                    Some((w, k)) => walk(nodes, w, k, head_addr, head, tid, next, count + 1),
                }
            },
        }
    }
}

/// The words and the wake-ups after the whole list was looked at: the entry that
/// was pending comes last, once.
pub open spec fn after_exit(
    nodes: Seq<ListNode>,
    words: Seq<FutexWord>,
    head_addr: u64,
    head: RobustListHead,
    tid: u32,
) -> (Seq<FutexWord>, Seq<u64>) {
    let (w, k, faulted) = walk(nodes, words, Seq::empty(), head_addr, head, tid, head.list, 0);
    if faulted || head.list_op_pending == 0 || plain_addr(head.list_op_pending) == head_addr {
        (w, k)
    } else {
        match after_death(w, k, head.list_op_pending, head.futex_offset, tid, true) {
            Some((w2, k2)) => (w2, k2),
            None => (w, k),
        }
    }
}

/// `after` differs from `before` only in locks that `tid` owned, and those are
/// marked.
pub open spec fn only_own_locks(before: Seq<FutexWord>, after: Seq<FutexWord>, tid: u32) -> bool {
    &&& before.len() == after.len()
    &&& forall|i: int|
        0 <= i < before.len() ==> (#[trigger] after[i]).addr == before[i].addr && (after[i].value
            == before[i].value || (owner(before[i].value) == tid && after[i].value == died(
            before[i].value,
        )))
}

proof fn lemma_died(word: u32)
    ensures
        owner(died(word)) == 0,
        died(word) & FUTEX_WAITERS == word & FUTEX_WAITERS,
        died(word) & FUTEX_OWNER_DIED != 0,
{
    assert(((word & 0x8000_0000) | 0x4000_0000) & 0x3fff_ffff == 0 && ((word & 0x8000_0000)
        | 0x4000_0000) & 0x8000_0000 == word & 0x8000_0000 && ((word & 0x8000_0000)
        | 0x4000_0000) & 0x4000_0000 != 0) by (bit_vector);
}

proof fn lemma_death_only_own(
    before: Seq<FutexWord>,
    words: Seq<FutexWord>,
    wakes: Seq<u64>,
    entry: u64,
    offset: i64,
    tid: u32,
    pending: bool,
)
    requires
        tid != 0,
        only_own_locks(before, words, tid),
    ensures
        after_death(words, wakes, entry, offset, tid, pending) matches Some((w, k))
            ==> only_own_locks(before, w, tid),
{
    let addr = futex_addr(entry, offset);
    lemma_word_from(words, addr, 0);
    if let Some(k) = word_from(words, addr, 0) {
        lemma_died(before[k].value);
        assert(words[k].addr == before[k].addr);
    }
}

proof fn lemma_walk_only_own(
    before: Seq<FutexWord>,
    nodes: Seq<ListNode>,
    words: Seq<FutexWord>,
    wakes: Seq<u64>,
    head_addr: u64,
    head: RobustListHead,
    tid: u32,
    entry: u64,
    count: int,
)
    requires
        tid != 0,
        only_own_locks(before, words, tid),
    ensures
        only_own_locks(
            before,
            walk(nodes, words, wakes, head_addr, head, tid, entry, count).0,
            tid,
        ),
    decreases ROBUST_LIST_LIMIT - count,
{
    if !(entry == 0 || plain_addr(entry) == head_addr || count >= ROBUST_LIST_LIMIT) {
        if let Some(next) = next_from(nodes, plain_addr(entry), 0) {
            if plain_addr(entry) == plain_addr(head.list_op_pending) {
                lemma_walk_only_own(
                    before,
                    nodes,
                    words,
                    wakes,
                    head_addr,
                    head,
                    tid,
                    next,
                    count + 1,
                );
            } else {
                lemma_death_only_own(before, words, wakes, entry, head.futex_offset, tid, false);
                if let Some((w, k)) = after_death(
                    words,
                    wakes,
                    entry,
                    head.futex_offset,
                    tid,
                    false,
                ) {
                    lemma_walk_only_own(
                        before,
                        nodes,
                        w,
                        k,
                        head_addr,
                        head,
                        tid,
                        next,
                        count + 1,
                    );
                }
            }
        }
    }
}

/// An exiting thread changes only locks that it owned. Each of those that it
/// changes has no owner afterwards, is marked, and still knows of its waiters.
pub proof fn law_exit_touches_own_locks_only(
    nodes: Seq<ListNode>,
    words: Seq<FutexWord>,
    head_addr: u64,
    head: RobustListHead,
    tid: u32,
)
    requires
        tid != 0,
    ensures
        only_own_locks(words, after_exit(nodes, words, head_addr, head, tid).0, tid),
        forall|w: u32|
            owner(#[trigger] died(w)) == 0 && died(w) & FUTEX_WAITERS == w & FUTEX_WAITERS && died(
                w,
            ) & FUTEX_OWNER_DIED != 0,
{
    lemma_walk_only_own(
        words,
        nodes,
        words,
        Seq::empty(),
        head_addr,
        head,
        tid,
        head.list,
        0,
    );
    let (w, k, faulted) = walk(nodes, words, Seq::empty(), head_addr, head, tid, head.list, 0);
    lemma_death_only_own(words, w, k, head.list_op_pending, head.futex_offset, tid, true);
    assert forall|w: u32|
        owner(#[trigger] died(w)) == 0 && died(w) & FUTEX_WAITERS == w & FUTEX_WAITERS && died(w)
            & FUTEX_OWNER_DIED != 0 by {
        lemma_died(w);
    }
}

fn read_next(nodes: &Vec<ListNode>, addr: u64) -> (r: Option<u64>)
    ensures
        r == next_from(nodes@, addr, 0),
{
    let mut i: usize = 0;
    while i < nodes.len()
        invariant
            i <= nodes.len(),
            next_from(nodes@, addr, 0) == next_from(nodes@, addr, i as int),
        decreases nodes.len() - i,
    {
        if nodes[i].addr == addr {
            return Some(nodes[i].next);
        }
        i += 1;
    }
    None
}

/// Gives up the locks that the exiting thread `tid` still holds.
///
/// `head` is the list head at `head_addr`, if it can be read; `nodes` and `words`
/// are the entries and the lock words in memory. Gives the addresses whose
/// waiters are woken, in order.
pub fn exit_robust_list(
    nodes: &Vec<ListNode>,
    words: &mut Vec<FutexWord>,
    head_addr: u64,
    head: Option<RobustListHead>,
    tid: u32,
) -> (wakes: Vec<u64>)
    ensures
        if head_addr == 0 || head is None {
            final(words)@ == old(words)@ && wakes@.len() == 0
        } else {
            let (w, k) = after_exit(nodes@, old(words)@, head_addr, head->0, tid);
            final(words)@ == w && wakes@ == k
        },
{
    let mut wakes: Vec<u64> = Vec::new();
    if head_addr == 0 {
        return wakes;
    }
    let h = match head {
        Some(h) => h,
        None => {
            return wakes;
        },
    };
    let ghost w0 = words@;
    let ghost whole = walk(nodes@, w0, Seq::empty(), head_addr, h, tid, h.list, 0);
    let pending: u64 = h.list_op_pending & !1u64;
    let mut entry: u64 = h.list;
    let mut count: usize = 0;
    let mut more: bool = true;
    assert(wakes@ =~= Seq::<u64>::empty());
    while more && entry != 0 && (entry & !1u64) != head_addr && count < ROBUST_LIST_LIMIT
        invariant
            w0 == old(words)@,
            head == Some(h),
            whole == walk(nodes@, w0, Seq::empty(), head_addr, h, tid, h.list, 0),
            pending == plain_addr(h.list_op_pending),
            count <= ROBUST_LIST_LIMIT,
            head_addr != 0,
            more ==> whole == walk(
                nodes@,
                words@,
                wakes@,
                head_addr,
                h,
                tid,
                entry,
                count as int,
            ),
            !more ==> whole == (words@, wakes@, false),
        decreases ROBUST_LIST_LIMIT - count,
    {
        let addr: u64 = entry & !1u64;
        match read_next(nodes, addr) {
            None => {
                more = false;
            },
            Some(next) => {
                if addr != pending {
                    if handle_futex_death(
                        words,
                        &mut wakes,
                        entry,
                        h.futex_offset,
                        tid,
                        false,
                    ).is_err() {
                        return wakes;
                    }
                }
                entry = next;
            },
        }
        count += 1;
    }
    if h.list_op_pending != 0 && (h.list_op_pending & !1u64) != head_addr {
        let last = handle_futex_death(
            words,
            &mut wakes,
            h.list_op_pending,
            h.futex_offset,
            tid,
            true,
        );
    }
    wakes
}

} // verus!
