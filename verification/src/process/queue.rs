//! Wait queues: lists of task ids in order of arrival, without duplicates.

use vstd::prelude::*;

verus! {

/// `s` without the entries equal to `x`, the rest in order.
pub open spec fn without(s: Seq<usize>, x: usize) -> Seq<usize>
    decreases s.len(),
{
    if s.len() == 0 {
        s
    } else if s.last() == x {
        without(s.drop_last(), x)
    } else {
        without(s.drop_last(), x).push(s.last())
    }
}

/// Nothing occurs twice.
pub open spec fn distinct(s: Seq<usize>) -> bool {
    forall|i: int, j: int| 0 <= i < j < s.len() ==> #[trigger] s[i] != #[trigger] s[j]
}

/// Removing an entry leaves exactly the other entries.
pub proof fn law_without_removes(s: Seq<usize>, x: usize, y: usize)
    ensures
        without(s, x).contains(y) <==> (s.contains(y) && y != x),
        without(s, x).len() <= s.len(),
    decreases s.len(),
{
    if s.len() > 0 {
        let front = s.drop_last();
        law_without_removes(front, x, y);
        assert(s =~= front.push(s.last()));
        assert(s.contains(y) <==> (front.contains(y) || s.last() == y)) by {
            if front.contains(y) {
                let i = choose|i: int| 0 <= i < front.len() && front[i] == y;
                assert(s[i] == y);
            }
            if s.contains(y) && s.last() != y {
                let i = choose|i: int| 0 <= i < s.len() && s[i] == y;
                assert(front[i] == y);
            }
            if s.last() == y {
                assert(s[s.len() - 1] == y);
            }
        }
        if s.last() != x {
            let r = without(front, x);
            let t = r.push(s.last());
            if r.contains(y) {
                let i = choose|i: int| 0 <= i < r.len() && r[i] == y;
                assert(t[i] == y);
            }
            if s.last() == y {
                assert(t[t.len() - 1] == y);
            }
            if t.contains(y) && y != s.last() {
                let i = choose|i: int| 0 <= i < t.len() && t[i] == y;
                assert(r[i] == y);
            }
        }
    }
}

/// Removal keeps a queue free of duplicates.
pub proof fn law_without_distinct(s: Seq<usize>, x: usize)
    requires
        distinct(s),
    ensures
        distinct(without(s, x)),
    decreases s.len(),
{
    if s.len() > 0 {
        let front = s.drop_last();
        assert(distinct(front));
        law_without_distinct(front, x);
        if s.last() != x {
            let r = without(front, x);
            assert forall|i: int, j: int| 0 <= i < j < r.push(s.last()).len() implies
                #[trigger] r.push(s.last())[i] != #[trigger] r.push(s.last())[j] by {
                if j == r.len() {
                    law_without_removes(front, x, r[i]);
                    assert(r.contains(r[i]));
                    let k = choose|k: int| 0 <= k < front.len() && front[k] == r[i];
                    assert(s[k] != s[s.len() - 1]);
                }
            }
        }
    }
}

proof fn lemma_without_step(s: Seq<usize>, x: usize, i: int)
    requires
        0 <= i < s.len(),
    ensures
        without(s.take(i + 1), x) == if s[i] == x {
            without(s.take(i), x)
        } else {
            without(s.take(i), x).push(s[i])
        },
{
    assert(s.take(i + 1).drop_last() =~= s.take(i));
}

/// Drops every entry of `task` from a wait queue.
pub fn remove_wait_queue_entry(queue: &mut Vec<usize>, task: usize)
    ensures
        final(queue)@ == without(old(queue)@, task),
        !final(queue)@.contains(task),
        distinct(old(queue)@) ==> distinct(final(queue)@),
{
    let ghost before = queue@;
    let mut kept: Vec<usize> = Vec::new();
    let mut i: usize = 0;
    while i < queue.len()
        invariant
            i <= queue.len(),
            queue@ == before,
            kept@ == without(before.take(i as int), task),
        decreases queue.len() - i,
    {
        proof {
            lemma_without_step(before, task, i as int);
        }
        if queue[i] != task {
            kept.push(queue[i]);
        }
        i += 1;
    }
    proof {
        assert(before.take(i as int) =~= before);
        law_without_removes(before, task, task);
        if distinct(before) {
            law_without_distinct(before, task);
        }
    }
    *queue = kept;
}

/// Tells whether a queue holds `task`.
pub fn queue_contains(queue: &Vec<usize>, task: usize) -> (r: bool)
    ensures
        r == queue@.contains(task),
{
    let mut i: usize = 0;
    while i < queue.len()
        invariant
            i <= queue.len(),
            forall|j: int| 0 <= j < i ==> queue@[j] != task,
        decreases queue.len() - i,
    {
        if queue[i] == task {
            return true;
        }
        i += 1;
    }
    false
}

/// Appends `task` unless the queue already holds it; tells whether it was
/// appended.
pub fn enqueue_waiter_once(queue: &mut Vec<usize>, task: usize) -> (inserted: bool)
    ensures
        inserted == !old(queue)@.contains(task),
        final(queue)@ == if inserted {
            old(queue)@.push(task)
        } else {
            old(queue)@
        },
        final(queue)@.contains(task),
        distinct(old(queue)@) ==> distinct(final(queue)@),
{
    if queue_contains(queue, task) {
        return false;
    }
    queue.push(task);
    proof {
        assert(queue@[queue@.len() - 1] == task);
        let before = old(queue)@;
        if distinct(before) {
            assert forall|i: int, j: int| 0 <= i < j < queue@.len() implies
                #[trigger] queue@[i] != #[trigger] queue@[j] by {
                if j == before.len() {
                    assert(before[i] == queue@[i]);
                    assert(before.contains(before[i]));
                }
            }
        }
    }
    true
}

/// Empties a wait queue and hands out its tasks in order of arrival.
pub fn drain_queue(queue: &mut Vec<usize>) -> (woken: Vec<usize>)
    ensures
        woken@ == old(queue)@,
        final(queue)@.len() == 0,
{
    let mut woken: Vec<usize> = Vec::new();
    woken.append(queue);
    assert(woken@ =~= old(queue)@);
    woken
}

} // verus!
