//! Sessions with peers, and packets that wait for one.

use vstd::prelude::*;
use crate::net::wireguard::noise::{NoiseHandshakeState, NoiseKeypair};
use crate::net::wireguard::replay::replay_wf;
use crate::text::bytes_eq;

verus! {

pub const WG_PENDING_DATA_PER_PEER_LIMIT: usize = 64;
pub const WG_PENDING_DATA_GLOBAL_LIMIT: usize = 256;
pub const WG_HANDSHAKE_RETRY_MS: u64 = 1_000;

/// A session with a peer: a handshake that was started, or its keys.
#[derive(Clone, Copy)]
pub struct Session {
    pub ifindex: i32,
    pub peer_public_key: [u8; 32],
    /// The number by which the peer names the session.
    pub local_index: u32,
    pub pending_state: Option<NoiseHandshakeState>,
    pub pending_ephemeral_private: Option<[u8; 32]>,
    pub keypair: Option<NoiseKeypair>,
    pub created_ms: u64,
}

/// A packet that waits for a session.
pub struct Pending {
    pub ifindex: i32,
    pub peer_public_key: [u8; 32],
    pub ns: u64,
    pub packet: Vec<u8>,
}

#[verifier::ext_equal]
pub struct PendingView {
    pub ifindex: i32,
    pub peer: Seq<u8>,
    pub ns: u64,
    pub packet: Seq<u8>,
}

impl View for Pending {
    type V = PendingView;

    open spec fn view(&self) -> PendingView {
        PendingView {
            ifindex: self.ifindex,
            peer: self.peer_public_key@,
            ns: self.ns,
            packet: self.packet@,
        }
    }
}

pub open spec fn pending_view(s: Seq<Pending>) -> Seq<PendingView> {
    Seq::new(s.len(), |i: int| s[i]@)
}

/// The windows of all sessions are in order.
pub open spec fn sessions_wf(s: Seq<Session>) -> bool {
    forall|i: int| 0 <= i < s.len() ==> session_wf(#[trigger] s[i])
}

pub open spec fn session_wf(x: Session) -> bool {
    x.keypair matches Some(k) ==> replay_wf(k.receiving_counter)
}

/// The items for which `p` holds, in their order.
pub open spec fn keep<A>(s: Seq<A>, p: spec_fn(A) -> bool) -> Seq<A>
    decreases s.len(),
{
    if s.len() == 0 {
        s
    } else if p(s.last()) {
        keep(s.drop_last(), p).push(s.last())
    } else {
        keep(s.drop_last(), p)
    }
}

pub proof fn lemma_keep_step<A>(s: Seq<A>, p: spec_fn(A) -> bool, i: int)
    requires
        0 <= i < s.len(),
    ensures
        keep(s.take(i + 1), p) == if p(s[i]) {
            keep(s.take(i), p).push(s[i])
        } else {
            keep(s.take(i), p)
        },
{
    let t = s.take(i + 1);
    assert(t.drop_last() =~= s.take(i));
}

/// What is kept was there, and holds.
pub proof fn lemma_kept<A>(s: Seq<A>, p: spec_fn(A) -> bool, i: int)
    requires
        0 <= i < keep(s, p).len(),
    ensures
        p(keep(s, p)[i]),
        s.contains(keep(s, p)[i]),
        keep(s, p).len() <= s.len(),
    decreases s.len(),
{
    if s.len() > 0 {
        let front = s.drop_last();
        let k = keep(front, p);
        if i < k.len() {
            lemma_kept(front, p, i);
            let j = choose|j: int| 0 <= j < front.len() && front[j] == k[i];
            assert(s[j] == k[i]);
        } else {
            assert(s[s.len() - 1] == keep(s, p)[i]);
        }
        lemma_keep_len(front, p);
    }
}

pub proof fn lemma_keep_len<A>(s: Seq<A>, p: spec_fn(A) -> bool)
    ensures
        keep(s, p).len() <= s.len(),
    decreases s.len(),
{
    if s.len() > 0 {
        lemma_keep_len(s.drop_last(), p);
    }
}

proof fn lemma_keep_wf(s: Seq<Session>, p: spec_fn(Session) -> bool)
    requires
        sessions_wf(s),
    ensures
        sessions_wf(keep(s, p)),
{
    assert forall|i: int| 0 <= i < keep(s, p).len() implies session_wf(
        #[trigger] keep(s, p)[i],
    ) by {
        lemma_kept(s, p, i);
        let j = choose|j: int| 0 <= j < s.len() && s[j] == keep(s, p)[i];
        assert(session_wf(s[j]));
    }
}

// ---------------------------------------------------------------------------
// Lists of sessions.
// ---------------------------------------------------------------------------

/// The sessions of other tunnels.
pub open spec fn of_others(s: Seq<Session>, ifindex: i32) -> Seq<Session> {
    keep(s, |x: Session| x.ifindex != ifindex)
}

/// Removes the sessions of a tunnel.
pub fn remove_device_sessions(sessions: &mut Vec<Session>, ifindex: i32)
    requires
        sessions_wf(old(sessions)@),
    ensures
        final(sessions)@ == of_others(old(sessions)@, ifindex),
        sessions_wf(final(sessions)@),
{
    let ghost s0 = sessions@;
    let ghost p = |x: Session| x.ifindex != ifindex;
    let mut kept: Vec<Session> = Vec::new();
    let mut i: usize = 0;
    assert(kept@ =~= keep(s0.take(0), p));
    while i < sessions.len()
        invariant
            i <= sessions@.len(),
            sessions@ == s0,
            p == (|x: Session| x.ifindex != ifindex),
            kept@ == keep(s0.take(i as int), p),
        decreases sessions@.len() - i,
    {
        proof {
            lemma_keep_step(s0, p, i as int);
        }
        if sessions[i].ifindex != ifindex {
            kept.push(sessions[i]);
        }
        i += 1;
    }
    proof {
        assert(s0.take(i as int) =~= s0);
        lemma_keep_wf(s0, p);
    }
    *sessions = kept;
}

/// A session that stays when another one is stored.
pub open spec fn stays(old: Session, new: Session) -> bool {
    old.ifindex != new.ifindex || old.peer_public_key@ != new.peer_public_key@ || (new.keypair
        is None && old.local_index != new.local_index)
}

/// The sessions after one was stored: one with keys takes the place of all
/// others with the peer, a started handshake that of the same number only.
pub open spec fn replaced(s: Seq<Session>, new: Session) -> Seq<Session> {
    keep(s, |old: Session| stays(old, new)).push(new)
}

/// Stores a session.
pub fn replace_session(sessions: &mut Vec<Session>, session: Session)
    requires
        sessions_wf(old(sessions)@),
        session_wf(session),
    ensures
        final(sessions)@ == replaced(old(sessions)@, session),
        sessions_wf(final(sessions)@),
{
    let ghost s0 = sessions@;
    let ghost p = |x: Session| stays(x, session);
    let mut kept: Vec<Session> = Vec::new();
    let mut i: usize = 0;
    assert(kept@ =~= keep(s0.take(0), p));
    while i < sessions.len()
        invariant
            i <= sessions@.len(),
            sessions@ == s0,
            p == (|x: Session| stays(x, session)),
            kept@ == keep(s0.take(i as int), p),
        decreases sessions@.len() - i,
    {
        proof {
            lemma_keep_step(s0, p, i as int);
        }
        let x = sessions[i];
        let other: bool = x.ifindex != session.ifindex || !bytes_eq(
            x.peer_public_key.as_slice(),
            session.peer_public_key.as_slice(),
        );
        if other || (session.keypair.is_none() && x.local_index != session.local_index) {
            kept.push(x);
        }
        i += 1;
    }
    proof {
        assert(s0.take(i as int) =~= s0);
        lemma_keep_wf(s0, p);
    }
    kept.push(session);
    *sessions = kept;
}

/// A handshake with a peer was started less than a second ago.
pub open spec fn recently_started(x: Session, ifindex: i32, key: Seq<u8>, now: u64) -> bool {
    x.ifindex == ifindex && x.peer_public_key@ == key && x.keypair is None && (now
        <= x.created_ms || now - x.created_ms < WG_HANDSHAKE_RETRY_MS)
}

/// Tells whether a handshake was started so recently that no other is due.
pub fn has_recent_pending_handshake(
    sessions: &Vec<Session>,
    ifindex: i32,
    peer_public_key: &[u8; 32],
    now: u64,
) -> (r: bool)
    ensures
        r == exists|i: int|
            0 <= i < sessions@.len() && recently_started(
                #[trigger] sessions@[i],
                ifindex,
                peer_public_key@,
                now,
            ),
{
    let mut i: usize = 0;
    while i < sessions.len()
        invariant
            i <= sessions@.len(),
            forall|j: int|
                0 <= j < i ==> !recently_started(
                    #[trigger] sessions@[j],
                    ifindex,
                    peer_public_key@,
                    now,
                ),
        decreases sessions@.len() - i,
    {
        let x = &sessions[i];
        if x.ifindex == ifindex && bytes_eq(
            x.peer_public_key.as_slice(),
            peer_public_key.as_slice(),
        ) && x.keypair.is_none() && now.saturating_sub(x.created_ms) < WG_HANDSHAKE_RETRY_MS {
            assert(recently_started(sessions@[i as int], ifindex, peer_public_key@, now));
            return true;
        }
        i += 1;
    }
    false
}

/// The sessions with peers that are still configured, and those of other
/// tunnels.
pub open spec fn pruned(s: Seq<Session>, ifindex: i32, keys: Seq<Seq<u8>>) -> Seq<Session> {
    keep(s, |x: Session| x.ifindex != ifindex || keys.contains(x.peer_public_key@))
}

pub open spec fn keys_view(s: Seq<[u8; 32]>) -> Seq<Seq<u8>> {
    Seq::new(s.len(), |i: int| s[i]@)
}

fn holds_key(keys: &Vec<[u8; 32]>, key: &[u8; 32]) -> (r: bool)
    ensures
        r == keys_view(keys@).contains(key@),
{
    let mut i: usize = 0;
    while i < keys.len()
        invariant
            i <= keys@.len(),
            forall|j: int| 0 <= j < i ==> #[trigger] keys_view(keys@)[j] != key@,
        decreases keys@.len() - i,
    {
        if bytes_eq(keys[i].as_slice(), key.as_slice()) {
            assert(keys_view(keys@)[i as int] == key@);
            return true;
        }
        i += 1;
    }
    false
}

/// Removes the sessions of a tunnel with peers that it has no more.
pub fn prune_sessions(sessions: &mut Vec<Session>, ifindex: i32, keys: &Vec<[u8; 32]>)
    requires
        sessions_wf(old(sessions)@),
    ensures
        final(sessions)@ == pruned(old(sessions)@, ifindex, keys_view(keys@)),
        sessions_wf(final(sessions)@),
{
    let ghost s0 = sessions@;
    let ghost kv = keys_view(keys@);
    let ghost p = |x: Session| x.ifindex != ifindex || kv.contains(x.peer_public_key@);
    let mut kept: Vec<Session> = Vec::new();
    let mut i: usize = 0;
    assert(kept@ =~= keep(s0.take(0), p));
    while i < sessions.len()
        invariant
            i <= sessions@.len(),
            sessions@ == s0,
            kv == keys_view(keys@),
            p == (|x: Session| x.ifindex != ifindex || kv.contains(x.peer_public_key@)),
            kept@ == keep(s0.take(i as int), p),
        decreases sessions@.len() - i,
    {
        proof {
            lemma_keep_step(s0, p, i as int);
        }
        let x = sessions[i];
        if x.ifindex != ifindex || holds_key(keys, &x.peer_public_key) {
            kept.push(x);
        }
        i += 1;
    }
    proof {
        assert(s0.take(i as int) =~= s0);
        lemma_keep_wf(s0, p);
    }
    *sessions = kept;
}

/// The place of the first session for which `p` holds.
pub open spec fn first_from(s: Seq<Session>, p: spec_fn(Session) -> bool, i: int) -> Option<int>
    decreases s.len() - i,
{
    if i >= s.len() {
        None
    } else if p(s[i]) {
        Some(i)
    } else {
        first_from(s, p, i + 1)
    }
}

/// The session of a tunnel with a number.
pub open spec fn session_numbered(s: Seq<Session>, ifindex: i32, index: u32) -> Option<int> {
    first_from(s, |x: Session| x.ifindex == ifindex && x.local_index == index, 0)
}

/// The session of a tunnel with a number, if it has keys.
pub open spec fn ready_numbered(s: Seq<Session>, ifindex: i32, index: u32) -> Option<int> {
    first_from(
        s,
        |x: Session| x.ifindex == ifindex && x.local_index == index && x.keypair is Some,
        0,
    )
}

/// The session of a tunnel with a peer that has keys.
pub open spec fn ready_with(s: Seq<Session>, ifindex: i32, key: Seq<u8>) -> Option<int> {
    first_from(
        s,
        |x: Session| x.ifindex == ifindex && x.peer_public_key@ == key && x.keypair is Some,
        0,
    )
}

pub fn find_session(sessions: &Vec<Session>, ifindex: i32, index: u32) -> (r: Option<usize>)
    ensures
        match r {
            Some(i) => i < sessions@.len() && session_numbered(sessions@, ifindex, index) == Some(
                i as int,
            ),
            None => session_numbered(sessions@, ifindex, index) is None,
        },
{
    let ghost p = |x: Session| x.ifindex == ifindex && x.local_index == index;
    let mut i: usize = 0;
    while i < sessions.len()
        invariant
            i <= sessions@.len(),
            p == (|x: Session| x.ifindex == ifindex && x.local_index == index),
            session_numbered(sessions@, ifindex, index) == first_from(sessions@, p, i as int),
        decreases sessions@.len() - i,
    {
        if sessions[i].ifindex == ifindex && sessions[i].local_index == index {
            return Some(i);
        }
        i += 1;
    }
    None
}

pub fn find_ready_session(sessions: &Vec<Session>, ifindex: i32, index: u32) -> (r: Option<usize>)
    ensures
        match r {
            Some(i) => i < sessions@.len() && ready_numbered(sessions@, ifindex, index) == Some(
                i as int,
            ) && sessions@[i as int].keypair is Some,
            None => ready_numbered(sessions@, ifindex, index) is None,
        },
{
    let ghost p = |x: Session|
        x.ifindex == ifindex && x.local_index == index && x.keypair is Some;
    let mut i: usize = 0;
    while i < sessions.len()
        invariant
            i <= sessions@.len(),
            p == (|x: Session|
                x.ifindex == ifindex && x.local_index == index && x.keypair is Some),
            ready_numbered(sessions@, ifindex, index) == first_from(sessions@, p, i as int),
        decreases sessions@.len() - i,
    {
        if sessions[i].ifindex == ifindex && sessions[i].local_index == index
            && sessions[i].keypair.is_some() {
            return Some(i);
        }
        i += 1;
    }
    None
}

pub fn find_peer_session(sessions: &Vec<Session>, ifindex: i32, key: &[u8; 32]) -> (r: Option<
    usize,
>)
    ensures
        match r {
            Some(i) => i < sessions@.len() && ready_with(sessions@, ifindex, key@) == Some(
                i as int,
            ) && sessions@[i as int].keypair is Some,
            None => ready_with(sessions@, ifindex, key@) is None,
        },
{
    let ghost p = |x: Session|
        x.ifindex == ifindex && x.peer_public_key@ == key@ && x.keypair is Some;
    let mut i: usize = 0;
    while i < sessions.len()
        invariant
            i <= sessions@.len(),
            p == (|x: Session|
                x.ifindex == ifindex && x.peer_public_key@ == key@ && x.keypair is Some),
            ready_with(sessions@, ifindex, key@) == first_from(sessions@, p, i as int),
        decreases sessions@.len() - i,
    {
        if sessions[i].ifindex == ifindex && bytes_eq(
            sessions[i].peer_public_key.as_slice(),
            key.as_slice(),
        ) && sessions[i].keypair.is_some() {
            return Some(i);
        }
        i += 1;
    }
    None
}

/// The sessions once a handshake was completed: those with the same peer and
/// other numbers go.
pub open spec fn settled(s: Seq<Session>, ifindex: i32, key: Seq<u8>, index: u32) -> Seq<Session> {
    keep(
        s,
        |x: Session|
            x.ifindex != ifindex || x.peer_public_key@ != key || x.local_index == index,
    )
}

/// Removes the other sessions with a peer.
pub fn settle_sessions(sessions: &mut Vec<Session>, ifindex: i32, key: &[u8; 32], index: u32)
    requires
        sessions_wf(old(sessions)@),
    ensures
        final(sessions)@ == settled(old(sessions)@, ifindex, key@, index),
        sessions_wf(final(sessions)@),
{
    let ghost s0 = sessions@;
    let ghost p = |x: Session|
        x.ifindex != ifindex || x.peer_public_key@ != key@ || x.local_index == index;
    let mut kept: Vec<Session> = Vec::new();
    let mut i: usize = 0;
    assert(kept@ =~= keep(s0.take(0), p));
    while i < sessions.len()
        invariant
            i <= sessions@.len(),
            sessions@ == s0,
            p == (|x: Session|
                x.ifindex != ifindex || x.peer_public_key@ != key@ || x.local_index == index),
            kept@ == keep(s0.take(i as int), p),
        decreases sessions@.len() - i,
    {
        proof {
            lemma_keep_step(s0, p, i as int);
        }
        let x = sessions[i];
        if x.ifindex != ifindex || x.local_index == index || !bytes_eq(
            x.peer_public_key.as_slice(),
            key.as_slice(),
        ) {
            kept.push(x);
        }
        i += 1;
    }
    proof {
        assert(s0.take(i as int) =~= s0);
        lemma_keep_wf(s0, p);
    }
    *sessions = kept;
}

// ---------------------------------------------------------------------------
// Packets that wait.
// ---------------------------------------------------------------------------

/// A packet waits for a session with this peer.
pub open spec fn waits_for(x: PendingView, ifindex: i32, key: Seq<u8>) -> bool {
    x.ifindex == ifindex && x.peer == key
}

/// How many packets wait for a peer.
pub open spec fn waiting(q: Seq<PendingView>, ifindex: i32, key: Seq<u8>) -> int
    decreases q.len(),
{
    if q.len() == 0 {
        0
    } else {
        waiting(q.drop_last(), ifindex, key) + (if waits_for(q.last(), ifindex, key) {
            1int
        } else {
            0
        })
    }
}

pub open spec fn first_waiting_from(q: Seq<PendingView>, ifindex: i32, key: Seq<u8>, i: int) -> int
    decreases q.len() - i,
{
    if i >= q.len() {
        q.len() as int
    } else if waits_for(q[i], ifindex, key) {
        i
    } else {
        first_waiting_from(q, ifindex, key, i + 1)
    }
}

/// The newest `n` packets.
pub open spec fn newest(q: Seq<PendingView>, n: int) -> Seq<PendingView> {
    if q.len() > n {
        q.skip(q.len() - n)
    } else {
        q
    }
}

/// The packets after one more has come: a peer with too many loses its oldest,
/// and if there are too many in all the oldest go.
pub open spec fn queued(q: Seq<PendingView>, x: PendingView) -> Seq<PendingView> {
    let a = if waiting(q, x.ifindex, x.peer) >= 64 {
        q.remove(first_waiting_from(q, x.ifindex, x.peer, 0))
    } else {
        q
    };
    newest(a, 255).push(x)
}

proof fn lemma_first_waiting(q: Seq<PendingView>, ifindex: i32, key: Seq<u8>, i: int)
    requires
        0 <= i <= q.len(),
    ensures
        i <= first_waiting_from(q, ifindex, key, i) <= q.len(),
        first_waiting_from(q, ifindex, key, i) < q.len() ==> waits_for(
            q[first_waiting_from(q, ifindex, key, i)],
            ifindex,
            key,
        ),
        first_waiting_from(q, ifindex, key, i) == q.len() ==> forall|j: int|
            i <= j < q.len() ==> !waits_for(#[trigger] q[j], ifindex, key),
    decreases q.len() - i,
{
    if i < q.len() && !waits_for(q[i], ifindex, key) {
        lemma_first_waiting(q, ifindex, key, i + 1);
    }
}

proof fn lemma_none_waiting(q: Seq<PendingView>, ifindex: i32, key: Seq<u8>)
    requires
        forall|j: int| 0 <= j < q.len() ==> !waits_for(#[trigger] q[j], ifindex, key),
    ensures
        waiting(q, ifindex, key) == 0,
    decreases q.len(),
{
    if q.len() > 0 {
        let front = q.drop_last();
        assert(forall|j: int| 0 <= j < front.len() ==> front[j] == q[j]);
        lemma_none_waiting(front, ifindex, key);
    }
}

fn count_waiting(q: &Vec<Pending>, ifindex: i32, key: &[u8; 32]) -> (r: usize)
    ensures
        r == waiting(pending_view(q@), ifindex, key@),
{
    let ghost all = pending_view(q@);
    let mut n: usize = 0;
    let mut i: usize = 0;
    while i < q.len()
        invariant
            i <= q@.len(),
            all == pending_view(q@),
            n <= i,
            n == waiting(all.take(i as int), ifindex, key@),
        decreases q@.len() - i,
    {
        proof {
            let t = all.take(i + 1);
            assert(t.drop_last() =~= all.take(i as int));
            assert(t.last() == q@[i as int]@);
        }
        if q[i].ifindex == ifindex && bytes_eq(q[i].peer_public_key.as_slice(), key.as_slice()) {
            n += 1;
        }
        i += 1;
    }
    assert(all.take(i as int) =~= all);
    n
}

fn first_waiting(q: &Vec<Pending>, ifindex: i32, key: &[u8; 32]) -> (r: usize)
    ensures
        r == first_waiting_from(pending_view(q@), ifindex, key@, 0),
        r <= q@.len(),
{
    let ghost all = pending_view(q@);
    let mut i: usize = 0;
    while i < q.len()
        invariant
            i <= q@.len(),
            all == pending_view(q@),
            first_waiting_from(all, ifindex, key@, 0) == first_waiting_from(
                all,
                ifindex,
                key@,
                i as int,
            ),
        decreases q@.len() - i,
    {
        assert(all[i as int] == q@[i as int]@);
        if q[i].ifindex == ifindex && bytes_eq(q[i].peer_public_key.as_slice(), key.as_slice()) {
            return i;
        }
        i += 1;
    }
    i
}

/// Keeps a packet until there is a session.
pub fn queue_pending_data(q: &mut Vec<Pending>, item: Pending)
    ensures
        pending_view(final(q)@) == queued(pending_view(old(q)@), item@),
{
    let ghost q0 = pending_view(q@);
    let n: usize = count_waiting(q, item.ifindex, &item.peer_public_key);
    if n >= WG_PENDING_DATA_PER_PEER_LIMIT {
        let pos: usize = first_waiting(q, item.ifindex, &item.peer_public_key);
        proof {
            lemma_first_waiting(q0, item.ifindex, item@.peer, 0);
            if pos == q0.len() {
                lemma_none_waiting(q0, item.ifindex, item@.peer);
            }
        }
        let ghost before = q@;
        let gone = q.remove(pos);
        assert(pending_view(q@) =~= pending_view(before).remove(pos as int));
    }
    let ghost a = pending_view(q@);
    assert(a.skip(0) =~= a);
    let ghost mut k: int = 0;
    while q.len() >= WG_PENDING_DATA_GLOBAL_LIMIT
        invariant
            0 <= k <= a.len(),
            pending_view(q@) == a.skip(k),
            k > 0 ==> a.len() - k >= 255,
        decreases q@.len(),
    {
        let ghost before = q@;
        let gone = q.remove(0);
        proof {
            assert(pending_view(q@) =~= pending_view(before).skip(1));
            assert(a.skip(k).skip(1) =~= a.skip(k + 1));
            k = k + 1;
        }
    }
    assert(pending_view(q@) =~= newest(a, 255));
    let ghost before = q@;
    let ghost iv = item@;
    q.push(item);
    assert(pending_view(q@) =~= pending_view(before).push(iv));
}

/// The packets that wait for a peer.
pub open spec fn waiting_list(q: Seq<PendingView>, ifindex: i32, key: Seq<u8>) -> Seq<
    PendingView,
> {
    keep(q, |x: PendingView| waits_for(x, ifindex, key))
}

/// The packets that wait for other peers.
pub open spec fn other_list(q: Seq<PendingView>, ifindex: i32, key: Seq<u8>) -> Seq<PendingView> {
    keep(q, |x: PendingView| !waits_for(x, ifindex, key))
}

/// Takes the packets that wait for a peer; the others stay, in their order.
pub fn take_pending_data(q: &mut Vec<Pending>, ifindex: i32, key: &[u8; 32]) -> (r: Vec<Pending>)
    ensures
        pending_view(r@) == waiting_list(pending_view(old(q)@), ifindex, key@),
        pending_view(final(q)@) == other_list(pending_view(old(q)@), ifindex, key@),
{
    let ghost all = pending_view(q@);
    let ghost mine = |x: PendingView| waits_for(x, ifindex, key@);
    let ghost others = |x: PendingView| !waits_for(x, ifindex, key@);
    let mut rest: Vec<Pending> = Vec::new();
    rest.append(q);
    assert(pending_view(rest@) =~= all);
    let mut selected: Vec<Pending> = Vec::new();
    let ghost mut i: int = 0;
    assert(all.skip(0) =~= all);
    assert(pending_view(q@) =~= keep(all.take(0), others));
    assert(pending_view(selected@) =~= keep(all.take(0), mine));
    while rest.len() > 0
        invariant
            0 <= i <= all.len(),
            mine == (|x: PendingView| waits_for(x, ifindex, key@)),
            others == (|x: PendingView| !waits_for(x, ifindex, key@)),
            pending_view(rest@) == all.skip(i),
            pending_view(q@) == keep(all.take(i), others),
            pending_view(selected@) == keep(all.take(i), mine),
        decreases rest@.len(),
    {
        let ghost r0 = rest@;
        let x = rest.remove(0);
        proof {
            assert(pending_view(rest@) =~= pending_view(r0).skip(1));
            assert(all.skip(i).skip(1) =~= all.skip(i + 1));
            assert(pending_view(r0)[0] == all[i]);
            lemma_keep_step(all, mine, i);
            lemma_keep_step(all, others, i);
        }
        let ghost xv = x@;
        if x.ifindex == ifindex && bytes_eq(x.peer_public_key.as_slice(), key.as_slice()) {
            let ghost before = selected@;
            selected.push(x);
            assert(pending_view(selected@) =~= pending_view(before).push(xv));
        } else {
            let ghost before = q@;
            q.push(x);
            assert(pending_view(q@) =~= pending_view(before).push(xv));
        }
        proof {
            i = i + 1;
        }
    }
    assert(all.take(i) =~= all);
    selected
}

/// Removes the packets that wait for peers of a tunnel.
pub fn remove_device_pending(q: &mut Vec<Pending>, ifindex: i32)
    ensures
        pending_view(final(q)@) == keep(
            pending_view(old(q)@),
            |x: PendingView| x.ifindex != ifindex,
        ),
{
    let ghost all = pending_view(q@);
    let ghost others = |x: PendingView| x.ifindex != ifindex;
    let mut rest: Vec<Pending> = Vec::new();
    rest.append(q);
    assert(pending_view(rest@) =~= all);
    let ghost mut i: int = 0;
    assert(all.skip(0) =~= all);
    assert(pending_view(q@) =~= keep(all.take(0), others));
    while rest.len() > 0
        invariant
            0 <= i <= all.len(),
            others == (|x: PendingView| x.ifindex != ifindex),
            pending_view(rest@) == all.skip(i),
            pending_view(q@) == keep(all.take(i), others),
        decreases rest@.len(),
    {
        let ghost r0 = rest@;
        let x = rest.remove(0);
        proof {
            assert(pending_view(rest@) =~= pending_view(r0).skip(1));
            assert(all.skip(i).skip(1) =~= all.skip(i + 1));
            assert(pending_view(r0)[0] == all[i]);
            lemma_keep_step(all, others, i);
        }
        if x.ifindex != ifindex {
            let ghost xv = x@;
            let ghost before = q@;
            q.push(x);
            assert(pending_view(q@) =~= pending_view(before).push(xv));
        }
        proof {
            i = i + 1;
        }
    }
    assert(all.take(i) =~= all);
}

// ---------------------------------------------------------------------------
// Laws.
// ---------------------------------------------------------------------------

proof fn lemma_waiting_removed(q: Seq<PendingView>, ifindex: i32, key: Seq<u8>, k: int)
    requires
        0 <= k < q.len(),
    ensures
        waiting(q.remove(k), ifindex, key) == waiting(q, ifindex, key) - (if waits_for(
            q[k],
            ifindex,
            key,
        ) {
            1int
        } else {
            0
        }),
    decreases q.len(),
{
    let r = q.remove(k);
    if k == q.len() - 1 {
        assert(r =~= q.drop_last());
    } else {
        assert(r.drop_last() =~= q.drop_last().remove(k));
        assert(r.last() == q.last());
        lemma_waiting_removed(q.drop_last(), ifindex, key, k);
    }
}

proof fn lemma_waiting_skipped(q: Seq<PendingView>, ifindex: i32, key: Seq<u8>, n: int)
    requires
        0 <= n <= q.len(),
    ensures
        waiting(q.skip(n), ifindex, key) <= waiting(q, ifindex, key),
        0 <= waiting(q, ifindex, key),
    decreases q.len(),
{
    if q.len() > 0 {
        let s = q.skip(n);
        if n < q.len() {
            assert(s.drop_last() =~= q.drop_last().skip(n));
            assert(s.last() == q.last());
            lemma_waiting_skipped(q.drop_last(), ifindex, key, n);
        } else {
            lemma_waiting_skipped(q.drop_last(), ifindex, key, 0);
            assert(s =~= Seq::<PendingView>::empty());
        }
    }
}

/// A misconfigured tunnel does not fill the memory: at most 256 packets wait in
/// all, and at most 64 for one peer.
pub proof fn law_waiting_packets_are_bounded(
    q: Seq<PendingView>,
    x: PendingView,
    ifindex: i32,
    key: Seq<u8>,
)
    requires
        waiting(q, ifindex, key) <= 64,
        waiting(q, x.ifindex, x.peer) <= 64,
    ensures
        queued(q, x).len() <= 256,
        waiting(queued(q, x), ifindex, key) <= 64,
{
    let full = waiting(q, x.ifindex, x.peer) >= 64;
    lemma_first_waiting(q, x.ifindex, x.peer, 0);
    let k = first_waiting_from(q, x.ifindex, x.peer, 0);
    if full && k == q.len() {
        lemma_none_waiting(q, x.ifindex, x.peer);
    }
    let a = if full {
        q.remove(k)
    } else {
        q
    };
    if full {
        lemma_waiting_removed(q, ifindex, key, k);
        lemma_waiting_removed(q, x.ifindex, x.peer, k);
    }
    if a.len() > 255 {
        lemma_waiting_skipped(a, ifindex, key, a.len() - 255);
        lemma_waiting_skipped(a, x.ifindex, x.peer, a.len() - 255);
    }
    let b = newest(a, 255);
    let c = b.push(x);
    assert(c.drop_last() =~= b);
    assert(waiting(c, ifindex, key) == waiting(b, ifindex, key) + (if waits_for(
        x,
        ifindex,
        key,
    ) {
        1int
    } else {
        0
    }));
}

/// Taking the packets of a peer loses none: each goes to one of the two lists.
pub proof fn law_taking_loses_nothing(q: Seq<PendingView>, ifindex: i32, key: Seq<u8>)
    ensures
        waiting_list(q, ifindex, key).len() + other_list(q, ifindex, key).len() == q.len(),
    decreases q.len(),
{
    if q.len() > 0 {
        law_taking_loses_nothing(q.drop_last(), ifindex, key);
    }
}

/// A completed handshake leaves one session with the peer, the new one.
pub proof fn law_one_session_with_keys(s: Seq<Session>, new: Session, i: int)
    requires
        new.keypair is Some,
        0 <= i < replaced(s, new).len() - 1,
    ensures
        replaced(s, new)[i].ifindex != new.ifindex || replaced(s, new)[i].peer_public_key@
            != new.peer_public_key@,
        replaced(s, new).last() == new,
{
    let p = |old: Session| stays(old, new);
    lemma_kept(s, p, i);
}

/// No session of a removed tunnel is left.
pub proof fn law_removed_tunnels_have_no_sessions(s: Seq<Session>, ifindex: i32, i: int)
    requires
        0 <= i < of_others(s, ifindex).len(),
    ensures
        of_others(s, ifindex)[i].ifindex != ifindex,
{
    lemma_kept(s, |x: Session| x.ifindex != ifindex, i);
}

} // verus!
