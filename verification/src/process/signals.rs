//! How a pending signal acts on a process that is about to wait.

use vstd::prelude::*;
use crate::errno::{EINTR, ERESTARTSYS};

verus! {

pub const SIG_DFL: usize = 0;
pub const SIG_IGN: usize = 1;
pub const SA_RESTART: usize = 0x1000_0000;

/// One entry of the table of signal actions.
#[derive(Clone, Copy)]
pub struct SigAction {
    pub handler: usize,
    pub flags: usize,
}

/// What one pending signal asks of a wait.
#[derive(Clone, Copy, PartialEq, Eq, Structural)]
pub enum WaitReaction {
    /// Nobody will see the signal: it is dropped and the wait goes on.
    Drop,
    /// The handler runs and the wait starts over.
    Restart,
    /// The wait ends.
    Interrupt,
}

/// Signal `signum` (from 1 on) is in the set `bits`.
pub open spec fn has_signal(bits: u64, signum: int) -> bool {
    1 <= signum <= 64 && bits & (1u64 << ((signum - 1) as u64)) != 0
}

/// The action of `signum`; a signal without an entry has the default one.
pub open spec fn action_of(actions: Seq<SigAction>, signum: int) -> SigAction {
    if 0 <= signum < actions.len() {
        actions[signum]
    } else {
        SigAction { handler: SIG_DFL, flags: 0 }
    }
}

/// The reaction to `signum`; `fatal` is the set of signals whose default action
/// interrupts a wait.
pub open spec fn reaction(actions: Seq<SigAction>, fatal: u64, signum: int) -> WaitReaction {
    let a = action_of(actions, signum);
    if a.handler == SIG_IGN {
        WaitReaction::Drop
    } else if a.handler == SIG_DFL {
        if has_signal(fatal, signum) {
            WaitReaction::Interrupt
        } else {
            WaitReaction::Drop
        }
    } else if a.flags & SA_RESTART != 0 {
        WaitReaction::Restart
    } else {
        WaitReaction::Interrupt
    }
}

/// Some signal up to `limit` that is in `bits` gets the reaction `what`.
pub open spec fn some_reaction(
    bits: u64,
    actions: Seq<SigAction>,
    fatal: u64,
    what: WaitReaction,
    limit: int,
) -> bool {
    exists|s: int|
        1 <= s <= limit && #[trigger] has_signal(bits, s) && reaction(actions, fatal, s) == what
}

/// The value that the wait returns, or `None` if it may go on.
pub open spec fn wait_outcome(bits: u64, actions: Seq<SigAction>, fatal: u64) -> Option<isize> {
    if some_reaction(bits, actions, fatal, WaitReaction::Interrupt, 64) {
        Some(EINTR)
    } else if some_reaction(bits, actions, fatal, WaitReaction::Restart, 64) {
        Some(ERESTARTSYS)
    } else {
        None
    }
}

proof fn lemma_set_bit(c: u64, k: u64, j: u64)
    by (bit_vector)
    requires
        k < 64,
        j < 64,
    ensures
        ((c | (1u64 << k)) & (1u64 << j) != 0) <==> (j == k || c & (1u64 << j) != 0),
{
}

proof fn lemma_no_bits(j: u64)
    by (bit_vector)
    ensures
        0u64 & (1u64 << j) == 0,
{
}

/// Tells whether signal `signum` is in the set `bits`.
pub fn signal_in(bits: u64, signum: usize) -> (r: bool)
    requires
        1 <= signum <= 64,
    ensures
        r == has_signal(bits, signum as int),
{
    bits & (1u64 << ((signum - 1) as u64)) != 0
}

/// The reaction to one pending signal.
pub fn signal_reaction(actions: &Vec<SigAction>, fatal: u64, signum: usize) -> (r: WaitReaction)
    requires
        1 <= signum <= 64,
    ensures
        r == reaction(actions@, fatal, signum as int),
{
    let action = if signum < actions.len() {
        actions[signum]
    } else {
        SigAction { handler: SIG_DFL, flags: 0 }
    };
    if action.handler == SIG_IGN {
        return WaitReaction::Drop;
    }
    if action.handler == SIG_DFL {
        if signal_in(fatal, signum) {
            return WaitReaction::Interrupt;
        }
        return WaitReaction::Drop;
    }
    if (action.flags & SA_RESTART) != 0 {
        WaitReaction::Restart
    } else {
        WaitReaction::Interrupt
    }
}

/// Decides how the pending unmasked signals `bits` act on a wait.
///
/// Signals are looked at from the least number up, and the first one that
/// interrupts ends the search. The second result is the set of signals that
/// were found to concern nobody and are taken off the pending set.
pub fn wait4_pending_action(bits: u64, actions: &Vec<SigAction>, fatal: u64) -> (r: (
    Option<isize>,
    u64,
))
    ensures
        r.0 == wait_outcome(bits, actions@, fatal),
        forall|s: int|
            1 <= s <= 64 ==> (#[trigger] has_signal(r.1, s) <==> has_signal(bits, s) && reaction(
                actions@,
                fatal,
                s,
            ) == WaitReaction::Drop && !some_reaction(
                bits,
                actions@,
                fatal,
                WaitReaction::Interrupt,
                s - 1,
            )),
{
    let mut clear: u64 = 0;
    let mut restart: bool = false;
    let mut signum: usize = 1;
    proof {
        assert forall|s: int| 1 <= s <= 64 implies !(#[trigger] has_signal(0u64, s)) by {
            lemma_no_bits((s - 1) as u64);
        }
    }
    while signum <= 64
        invariant
            1 <= signum <= 65,
            restart == some_reaction(
                bits,
                actions@,
                fatal,
                WaitReaction::Restart,
                signum - 1,
            ),
            !some_reaction(bits, actions@, fatal, WaitReaction::Interrupt, signum - 1),
            forall|s: int|
                1 <= s <= 64 ==> (#[trigger] has_signal(clear, s) <==> s < signum && has_signal(
                    bits,
                    s,
                ) && reaction(actions@, fatal, s) == WaitReaction::Drop),
        decreases 65 - signum,
    {
        let ghost old_clear = clear;
        if signal_in(bits, signum) {
            match signal_reaction(actions, fatal, signum) {
                WaitReaction::Drop => {
                    let bit: u64 = 1u64 << ((signum - 1) as u64);
                    clear = clear | bit;
                    proof {
                        assert forall|s: int| 1 <= s <= 64 implies (#[trigger] has_signal(clear, s)
                            <==> s == signum || has_signal(old_clear, s)) by {
                            lemma_set_bit(old_clear, (signum - 1) as u64, (s - 1) as u64);
                        }
                    }
                },
                WaitReaction::Restart => {
                    restart = true;
                },
                WaitReaction::Interrupt => {
                    assert(some_reaction(bits, actions@, fatal, WaitReaction::Interrupt, 64));
                    assert forall|s: int| 1 <= s <= 64 implies (#[trigger] has_signal(clear, s)
                        <==> has_signal(bits, s) && reaction(actions@, fatal, s)
                        == WaitReaction::Drop && !some_reaction(
                        bits,
                        actions@,
                        fatal,
                        WaitReaction::Interrupt,
                        s - 1,
                    )) by {
                        if s > signum {
                            assert(has_signal(bits, signum as int));
                            assert(some_reaction(
                                bits,
                                actions@,
                                fatal,
                                WaitReaction::Interrupt,
                                s - 1,
                            ));
                        }
                    }
                    return (Some(EINTR), clear);
                },
            }
        }
        signum += 1;
    }
    if restart {
        (Some(ERESTARTSYS), clear)
    } else {
        (None, clear)
    }
}

} // verus!
