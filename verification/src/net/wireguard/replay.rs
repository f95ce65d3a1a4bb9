//! The window that tells new packets from repeated ones.

use vstd::prelude::*;

verus! {

/// How far behind the newest counter a packet may be.
pub const COUNTER_WINDOW_SIZE: u64 = 8128;
/// From this counter on no packet is taken.
pub const REJECT_AFTER_MESSAGES: u64 = 0xffff_ffff_ffff_e03e;

/// The counters of received packets. Counter `c` is kept as the number `c + 1`,
/// in bit `(c + 1) % 64` of word `(c + 1) / 64 % 128`.
#[derive(Clone, Copy)]
pub struct NoiseReplayCounter {
    /// The greatest number that was taken.
    pub counter: u64,
    pub backtrack: [u64; 128],
}

/// Bit `b` of a word.
pub open spec fn bit_at(word: u64, b: u64) -> bool {
    word & (1u64 << b) != 0
}

/// The bit of number `n` is set.
pub open spec fn marked(s: NoiseReplayCounter, n: int) -> bool {
    bit_at(s.backtrack@[(n / 64) % 128], (n % 64) as u64)
}

/// The word of number `n` is one of those that the window covers.
pub open spec fn covered(s: NoiseReplayCounter, n: int) -> bool {
    0 <= n && s.counter as int / 64 - 127 <= n / 64 <= s.counter as int / 64
}

/// No number above the greatest is marked.
pub open spec fn replay_wf(s: NoiseReplayCounter) -> bool {
    forall|n: int| n > s.counter && covered(s, n) ==> !#[trigger] marked(s, n)
}

/// Number `n` is too old to be looked up.
pub open spec fn too_old(s: NoiseReplayCounter, n: int) -> bool {
    n + COUNTER_WINDOW_SIZE < s.counter
}

/// Number `n` was taken before.
pub open spec fn taken(s: NoiseReplayCounter, n: int) -> bool {
    n <= s.counter && marked(s, n)
}

/// A packet with this counter is taken.
pub open spec fn accepts(s: NoiseReplayCounter, their_counter: u64) -> bool {
    their_counter < REJECT_AFTER_MESSAGES && !too_old(s, their_counter + 1) && !taken(
        s,
        their_counter + 1,
    )
}

/// What a packet changes: the window moves up to it, and what the window still
/// covers is kept, with the packet's own number added.
pub open spec fn moved(s: NoiseReplayCounter, t: NoiseReplayCounter, n: int) -> bool {
    &&& t.counter == if n > s.counter {
        n
    } else {
        s.counter as int
    }
    &&& forall|m: int|
        covered(t, m) && m <= t.counter ==> (#[trigger] taken(t, m) <==> taken(s, m) || m == n)
}

proof fn lemma_bits(w: u64, b: u64, k: u64)
    requires
        b < 64,
        k < 64,
    ensures
        bit_at(w | (1u64 << b), k) <==> (bit_at(w, k) || k == b),
        !bit_at(0, k),
{
    assert((w | (1u64 << b)) & (1u64 << k) != 0 <==> (w & (1u64 << k) != 0 || k == b))
        by (bit_vector)
        requires
            b < 64,
            k < 64,
    ;
    assert(0u64 & (1u64 << k) == 0) by (bit_vector);
}

impl NoiseReplayCounter {
    /// A window in which nothing was taken.
    pub fn new() -> (r: NoiseReplayCounter)
        ensures
            replay_wf(r),
            forall|n: int| n >= 0 ==> !#[trigger] taken(r, n),
            r.counter == 0,
            stands_for(r, Set::empty()),
    {
        let r = NoiseReplayCounter { counter: 0, backtrack: [0;128] };
        assert forall|n: int| n >= 0 implies !#[trigger] marked(r, n) by {
            lemma_bits(0, 0, (n % 64) as u64);
        }
        r
    }

    /// Clears the words that the window moves into.
    fn advance(&mut self, n: u64)
        requires
            replay_wf(*old(self)),
            n > old(self).counter,
        ensures
            replay_wf(*final(self)),
            final(self).counter == n,
            forall|m: int|
                covered(*final(self), m) ==> (#[trigger] marked(*final(self), m) <==> (m
                    <= old(self).counter && marked(*old(self), m))),
    {
        let ghost s0 = *self;
        let index: u64 = n / 64;
        let index_current: u64 = self.counter / 64;
        if index - index_current >= 128 {
            self.backtrack = [0;128];
            self.counter = n;
            assert forall|m: int| covered(*self, m) implies !#[trigger] marked(*self, m) by {
                lemma_bits(0, 0, (m % 64) as u64);
            }
            return;
        }
        let mut w: u64 = index_current;
        while w < index
            invariant
                index_current <= w <= index,
                index - index_current < 128,
                index_current == s0.counter / 64,
                index == n / 64,
                self.counter == s0.counter,
                forall|k: int|
                    index_current < k <= w ==> #[trigger] self.backtrack@[k % 128] == 0,
                forall|k: int|
                    w < k <= index_current + 128 ==> #[trigger] self.backtrack@[k % 128]
                        == s0.backtrack@[k % 128],
            decreases index - w,
        {
            let ghost before = self.backtrack@;
            w = w + 1;
            let slot: usize = (w % 128) as usize;
            self.backtrack[slot] = 0;
            assert forall|k: int| index_current < k <= w implies #[trigger] self.backtrack@[k % 128]
                == 0 by {
                if k < w {
                    assert(before[k % 128] == 0);
                }
            }
            assert forall|k: int| w < k <= index_current + 128 implies
                #[trigger] self.backtrack@[k % 128] == s0.backtrack@[k % 128] by {
                assert(k % 128 != w as int % 128);
                assert(before[k % 128] == s0.backtrack@[k % 128]);
            }
        }
        self.counter = n;
        let ghost ic = index_current as int;
        assert forall|m: int| covered(*self, m) implies (#[trigger] marked(*self, m) <==> (m
            <= s0.counter && marked(s0, m))) by {
            let k = m / 64;
            lemma_bits(0, 0, (m % 64) as u64);
            if k > ic {
                assert(self.backtrack@[k % 128] == 0);
            } else {
                assert((k + 128) % 128 == k % 128);
                assert(self.backtrack@[(k + 128) % 128] == s0.backtrack@[(k + 128) % 128]);
                if m > s0.counter {
                    assert(covered(s0, m));
                    assert(!marked(s0, m));
                }
            }
        }
    }

    /// Takes a packet with this counter, unless it is too old or was taken
    /// before. A packet that is refused changes nothing.
    pub fn validate(&mut self, their_counter: u64) -> (r: bool)
        requires
            replay_wf(*old(self)),
        ensures
            replay_wf(*final(self)),
            r == accepts(*old(self), their_counter),
            r ==> moved(*old(self), *final(self), their_counter + 1),
            !r ==> *final(self) == *old(self),
    {
        if their_counter >= REJECT_AFTER_MESSAGES {
            return false;
        }
        let nonce: u64 = their_counter + 1;
        if COUNTER_WINDOW_SIZE.saturating_add(nonce) < self.counter {
            return false;
        }
        let ghost s0 = *self;
        if nonce > self.counter {
            self.advance(nonce);
        }
        let ghost s1 = *self;
        let word: usize = ((nonce / 64) % 128) as usize;
        let bit: u64 = nonce % 64;
        let mask: u64 = 1u64 << bit;
        assert(covered(s1, nonce as int));
        assert(marked(s1, nonce as int) <==> taken(s0, nonce as int));
        if (self.backtrack[word] & mask) != 0 {
            return false;
        }
        let old_word: u64 = self.backtrack[word];
        self.backtrack[word] = old_word | mask;
        assert forall|m: int| covered(*self, m) implies (#[trigger] marked(*self, m) <==> marked(
            s1,
            m,
        ) || m == nonce) by {
            lemma_bits(old_word, bit, (m % 64) as u64);
            if (m / 64) % 128 == word {
                lemma_same_word(s1, m, nonce as int);
            }
        }
        assert forall|m: int| m > self.counter && covered(*self, m) implies !#[trigger] marked(
            *self,
            m,
        ) by {
            assert(covered(s1, m));
        }
        assert forall|m: int| covered(*self, m) && m <= self.counter implies (#[trigger] taken(
            *self,
            m,
        ) <==> taken(s0, m) || m == nonce) by {
            assert(marked(*self, m) <==> marked(s1, m) || m == nonce);
        }
        true
    }
}

proof fn lemma_same_word(s: NoiseReplayCounter, m: int, n: int)
    requires
        covered(s, m),
        covered(s, n),
        (m / 64) % 128 == (n / 64) % 128,
    ensures
        m / 64 == n / 64,
        m % 64 == n % 64 ==> m == n,
{
    let a = m / 64;
    let b = n / 64;
    assert(-128 < a - b < 128);
    assert(a == b) by (nonlinear_arith)
        requires
            a % 128 == b % 128,
            -128 < a - b < 128,
    ;
}

// ---------------------------------------------------------------------------
// Laws.
// ---------------------------------------------------------------------------

/// A packet that was taken is not taken again.
pub proof fn law_no_packet_is_taken_twice(
    s: NoiseReplayCounter,
    t: NoiseReplayCounter,
    their_counter: u64,
)
    requires
        accepts(s, their_counter),
        moved(s, t, their_counter + 1),
    ensures
        !accepts(t, their_counter),
{
    let n = their_counter + 1;
    assert(covered(t, n));
    assert(taken(t, n));
}

/// What is refused once is refused for ever: no other packet makes it acceptable
/// again.
pub proof fn law_refused_stays_refused(
    s: NoiseReplayCounter,
    t: NoiseReplayCounter,
    refused: u64,
    other: u64,
)
    requires
        !accepts(s, refused),
        accepts(s, other),
        moved(s, t, other + 1),
    ensures
        !accepts(t, refused),
{
    let n = refused + 1;
    if refused < REJECT_AFTER_MESSAGES && !too_old(t, n) {
        assert(covered(t, n));
        assert(taken(s, n));
        assert(taken(t, n));
    }
}

/// A counter above all that were taken is taken, up to the limit.
pub proof fn law_new_packets_are_taken(s: NoiseReplayCounter, their_counter: u64)
    requires
        their_counter >= s.counter,
        their_counter < REJECT_AFTER_MESSAGES,
    ensures
        accepts(s, their_counter),
{
}

/// The window stands for a set of counters that were taken: it knows the greatest,
/// and those that it covers.
pub open spec fn stands_for(s: NoiseReplayCounter, a: Set<u64>) -> bool {
    &&& replay_wf(s)
    &&& forall|c: u64| #[trigger] a.contains(c) ==> c < s.counter
    &&& s.counter > 0 ==> a.contains((s.counter - 1) as u64)
    &&& forall|m: int|
        1 <= m <= s.counter && covered(s, m) ==> (#[trigger] taken(s, m) <==> a.contains(
            (m - 1) as u64,
        ))
}

/// After any packets, a counter is taken exactly if it is below the limit, was not
/// taken before, and is not too far behind the greatest that was taken; and then
/// the window stands for one counter more. At the start it stands for none.
pub proof fn law_counters_are_taken_once(
    s: NoiseReplayCounter,
    a: Set<u64>,
    c: u64,
    t: NoiseReplayCounter,
)
    requires
        stands_for(s, a),
        replay_wf(t),
    ensures
        accepts(s, c) <==> c < REJECT_AFTER_MESSAGES && !a.contains(c) && (s.counter == 0 || c
            + COUNTER_WINDOW_SIZE >= s.counter - 1),
        accepts(s, c) && moved(s, t, c + 1) ==> stands_for(t, a.insert(c)),
{
    let n = c + 1;
    if !too_old(s, n) && n <= s.counter {
        assert(covered(s, n));
    }
    if accepts(s, c) && moved(s, t, n) {
        let b = a.insert(c);
        assert forall|m: int| 1 <= m <= t.counter && covered(t, m) implies (#[trigger] taken(t, m)
            <==> b.contains((m - 1) as u64)) by {
            assert(taken(t, m) <==> taken(s, m) || m == n);
            if m <= s.counter {
                assert(covered(s, m));
            } else {
                assert(!a.contains((m - 1) as u64));
            }
        }
    }
}

} // verus!
