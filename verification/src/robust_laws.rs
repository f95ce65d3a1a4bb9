//! What becomes of the locks of a thread that exits.

use vstd::prelude::*;
use crate::robust_list::{
    after_death, after_exit, death_step, died, futex_addr, is_pi, next_from, owner, plain_addr,
    walk, word_from, DeathStep, FutexWord, ListNode, RobustListHead,
};

verus! {

/// The parts of a lock word: the owner in the low 30 bits, then whether an owner died,
/// then whether somebody waits.
pub open spec fn lock_word(waiters: bool, owner_died: bool, tid: u32) -> int {
    (if waiters {
        0x8000_0000int
    } else {
        0
    }) + (if owner_died {
        0x4000_0000int
    } else {
        0
    }) + tid
}

/// A lock of the thread that exits loses its owner and is marked; if somebody waits,
/// one waiter is woken, unless the lock has priority inheritance. A lock of somebody
/// else is left alone.
pub proof fn law_locks_of_the_dead(
    word: u32,
    waiters: bool,
    owner_died: bool,
    holder: u32,
    tid: u32,
    pi: bool,
)
    requires
        holder <= 0x3fff_ffff,
        0 < tid <= 0x3fff_ffff,
        word == lock_word(waiters, owner_died, holder),
    ensures
        holder == tid ==> death_step(word, tid, pi, false) == (DeathStep::Store {
            value: lock_word(waiters, true, 0) as u32,
            wake: waiters && !pi,
        }),
        holder != tid ==> death_step(word, tid, pi, false) == DeathStep::Leave,
        holder == tid ==> death_step(word, tid, pi, true) == death_step(word, tid, pi, false),
        holder == 0 && !pi ==> death_step(word, tid, pi, true) == DeathStep::Wake,
        holder == 0 && pi ==> death_step(word, tid, pi, true) == DeathStep::Leave,
{
    assert(word & 0x3fff_ffff == word % 0x4000_0000 && ((word & 0x8000_0000) | 0x4000_0000) == (
    if word >= 0x8000_0000 {
        0xc000_0000u32
    } else {
        0x4000_0000u32
    }) && (word & 0x8000_0000 != 0) == (word >= 0x8000_0000)) by (bit_vector);
}

/// The lowest bit of an entry marks priority inheritance and is no part of its address;
/// the lock word is at a fixed distance from the entry.
pub proof fn law_entries(entry: u64, offset: i64)
    requires
        0 <= offset,
        entry + offset <= u64::MAX,
    ensures
        is_pi(entry) <==> entry % 2 == 1,
        plain_addr(entry) == entry - entry % 2,
        futex_addr(entry, offset) == entry - entry % 2 + offset,
{
    assert((entry & 1 != 0) == (entry % 2 == 1) && entry & !1u64 == entry - entry % 2)
        by (bit_vector);
}

/// Slot `k` is the first with the word at an address.
pub open spec fn word_at(words: Seq<FutexWord>, addr: u64, k: int) -> bool {
    &&& 0 <= k < words.len()
    &&& words[k].addr == addr
    &&& forall|j: int| 0 <= j < k ==> (#[trigger] words[j]).addr != addr
}

proof fn lemma_word(words: Seq<FutexWord>, addr: u64, k: int, i: int)
    requires
        word_at(words, addr, k),
        0 <= i <= k,
    ensures
        word_from(words, addr, i) == Some(k),
    decreases k - i,
{
    if i < k {
        assert(words[i].addr != addr);
        lemma_word(words, addr, k, i + 1);
    }
}

/// Giving up a lock of the thread changes its word and no other. A word at an address
/// that is no multiple of four, or that cannot be read, ends the walk.
pub proof fn law_giving_up_a_lock(
    words: Seq<FutexWord>,
    wakes: Seq<u64>,
    entry: u64,
    offset: i64,
    tid: u32,
    k: int,
)
    requires
        word_at(words, futex_addr(entry, offset), k),
        owner(words[k].value) == tid,
        tid != 0,
    ensures
        futex_addr(entry, offset) % 4 != 0 ==> after_death(
            words,
            wakes,
            entry,
            offset,
            tid,
            false,
        ) is None,
        futex_addr(entry, offset) % 4 == 0 ==> (after_death(
            words,
            wakes,
            entry,
            offset,
            tid,
            false,
        ) matches Some(r) && r.0.len() == words.len() && r.0[k].value == died(words[k].value)
            && r.0[k].addr == words[k].addr && (forall|j: int|
            0 <= j < words.len() && j != k ==> #[trigger] r.0[j] == words[j]) && (r.1 == wakes
            || r.1 == wakes.push(words[k].addr))),
{
    lemma_word(words, futex_addr(entry, offset), k, 0);
}

/// The walk starts at the head's first entry, goes from entry to entry, and ends at the
/// head. A list of one entry of a lock that the thread owns gives up that lock.
pub proof fn law_a_list_of_one(
    words: Seq<FutexWord>,
    head_addr: u64,
    head: RobustListHead,
    tid: u32,
    k: int,
)
    requires
        head.list != 0,
        plain_addr(head.list) != head_addr,
        plain_addr(head_addr) == head_addr,
        head.list_op_pending == 0,
        plain_addr(head.list) != 0,
        futex_addr(head.list, head.futex_offset) % 4 == 0,
        word_at(words, futex_addr(head.list, head.futex_offset), k),
        owner(words[k].value) == tid,
        tid != 0,
    ensures
        ({
            let nodes = seq![ListNode { addr: plain_addr(head.list), next: head_addr }];
            let r = after_exit(nodes, words, head_addr, head, tid);
            &&& r.0[k].value == died(words[k].value)
            &&& forall|j: int| 0 <= j < words.len() && j != k ==> #[trigger] r.0[j] == words[j]
        }),
{
    let nodes = seq![ListNode { addr: plain_addr(head.list), next: head_addr }];
    law_giving_up_a_lock(words, Seq::empty(), head.list, head.futex_offset, tid, k);
    assert(0u64 & !1u64 == 0) by (bit_vector);
    reveal_with_fuel(walk, 3);
    assert(next_from(nodes, plain_addr(head.list), 0) == Some(head_addr)) by {
        assert(nodes[0].addr == plain_addr(head.list));
    }
}

/// Entry `e` is followed by `next` in memory.
pub open spec fn follows(nodes: Seq<ListNode>, e: u64, next: u64, i: int) -> bool {
    &&& 0 <= i < nodes.len()
    &&& nodes[i].addr == plain_addr(e) && nodes[i].next == next
    &&& forall|j: int| 0 <= j < i ==> (#[trigger] nodes[j]).addr != plain_addr(e)
}

proof fn lemma_next(nodes: Seq<ListNode>, e: u64, next: u64, i: int, k: int)
    requires
        follows(nodes, e, next, i),
        0 <= k <= i,
    ensures
        next_from(nodes, plain_addr(e), k) == Some(next),
    decreases i - k,
{
    if k < i {
        assert(nodes[k].addr != plain_addr(e));
        lemma_next(nodes, e, next, i, k + 1);
    }
}

/// The walk gives up the lock of an entry and goes on with the next, up to 2048 entries.
/// It ends at zero and at the head; the entry that is pending is passed over.
pub proof fn law_the_walk(
    nodes: Seq<ListNode>,
    words: Seq<FutexWord>,
    wakes: Seq<u64>,
    head_addr: u64,
    head: RobustListHead,
    tid: u32,
    entry: u64,
    count: int,
    next: u64,
    i: int,
)
    requires
        0 <= count,
        follows(nodes, entry, next, i),
    ensures
        ({
            let r = walk(nodes, words, wakes, head_addr, head, tid, entry, count);
            let ends = entry == 0 || plain_addr(entry) == head_addr || count >= 2048;
            let pending = plain_addr(entry) == plain_addr(head.list_op_pending);
            let given = after_death(words, wakes, entry, head.futex_offset, tid, false);
            let now = given->0;
            &&& ends ==> r == (words, wakes, false)
            &&& !ends && pending ==> r == walk(
                nodes,
                words,
                wakes,
                head_addr,
                head,
                tid,
                next,
                count + 1,
            )
            &&& !ends && !pending && given is Some ==> r == walk(
                nodes,
                now.0,
                now.1,
                head_addr,
                head,
                tid,
                next,
                count + 1,
            )
            &&& !ends && !pending && given is None ==> r == (words, wakes, true)
        }),
{
    lemma_next(nodes, entry, next, i, 0);
}

/// The entry that is pending comes last, unless a fault ended the walk or it is the head.
pub proof fn law_the_pending_entry(
    nodes: Seq<ListNode>,
    words: Seq<FutexWord>,
    head_addr: u64,
    head: RobustListHead,
    tid: u32,
)
    ensures
        ({
            let w = walk(nodes, words, Seq::empty(), head_addr, head, tid, head.list, 0);
            let r = after_exit(nodes, words, head_addr, head, tid);
            let pending = head.list_op_pending;
            let given = after_death(w.0, w.1, pending, head.futex_offset, tid, true);
            &&& w.2 || pending == 0 || plain_addr(pending) == head_addr ==> r == (w.0, w.1)
            &&& !w.2 && pending != 0 && plain_addr(pending) != head_addr && given is Some ==> r
                == given->0
        }),
{
}

} // verus!
