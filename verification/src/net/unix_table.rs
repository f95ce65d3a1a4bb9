//! All local sockets and the names that they are bound to.

use vstd::prelude::*;
use crate::errno::{EADDRINUSE, ENOENT};
use crate::net::unix_addr::{copy_name, copy_optional_name, same_name, UnixAddr, UnixName};
use crate::net::unix_socket::{sock_wf, SockView, UnixSocket};

verus! {

/// A name and the socket that is bound to it. Abstract names belong to a
/// network namespace; paths are seen by all.
pub struct Binding {
    pub ns: u64,
    pub addr: UnixAddr,
    pub sock: u64,
}

#[verifier::ext_equal]
pub struct BindingView {
    pub ns: u64,
    pub name: UnixName,
    pub sock: u64,
}

impl View for Binding {
    type V = BindingView;

    open spec fn view(&self) -> BindingView {
        BindingView { ns: self.ns, name: self.addr@, sock: self.sock }
    }
}

/// The sockets that are open, and the names. A name may outlive its socket; it
/// is free then.
pub struct UnixTable {
    pub socks: Vec<UnixSocket>,
    pub names: Vec<Binding>,
}

#[verifier::ext_equal]
pub struct TableView {
    pub socks: Seq<SockView>,
    pub names: Seq<BindingView>,
}

pub open spec fn socks_view(s: Seq<UnixSocket>) -> Seq<SockView> {
    Seq::new(s.len(), |i: int| s[i]@)
}

pub open spec fn names_view(s: Seq<Binding>) -> Seq<BindingView> {
    Seq::new(s.len(), |i: int| s[i]@)
}

impl View for UnixTable {
    type V = TableView;

    open spec fn view(&self) -> TableView {
        TableView { socks: socks_view(self.socks@), names: names_view(self.names@) }
    }
}

/// Two names are the same name.
pub open spec fn same_key(a_ns: u64, a: UnixName, b_ns: u64, b: UnixName) -> bool {
    a == b && (a is Abstract ==> a_ns == b_ns)
}

pub open spec fn find_name_from(names: Seq<BindingView>, ns: u64, name: UnixName, i: int) -> Option<
    int,
>
    decreases names.len() - i,
{
    if i >= names.len() {
        None
    } else if same_key(names[i].ns, names[i].name, ns, name) {
        Some(i)
    } else {
        find_name_from(names, ns, name, i + 1)
    }
}

/// The place of a name.
pub open spec fn find_name(names: Seq<BindingView>, ns: u64, name: UnixName) -> Option<int> {
    find_name_from(names, ns, name, 0)
}

pub open spec fn find_sock_from(socks: Seq<SockView>, id: u64, i: int) -> Option<int>
    decreases socks.len() - i,
{
    if i >= socks.len() {
        None
    } else if socks[i].id == id {
        Some(i)
    } else {
        find_sock_from(socks, id, i + 1)
    }
}

/// The place of a socket.
pub open spec fn find_sock(socks: Seq<SockView>, id: u64) -> Option<int> {
    find_sock_from(socks, id, 0)
}

/// No socket and no name is listed twice, and each socket keeps what sockets
/// keep.
pub open spec fn table_wf(t: TableView) -> bool {
    &&& forall|i: int, j: int|
        0 <= i < j < t.socks.len() ==> #[trigger] t.socks[i].id != #[trigger] t.socks[j].id
    &&& forall|i: int, j: int|
        0 <= i < j < t.names.len() ==> !same_key(
            (#[trigger] t.names[i]).ns,
            t.names[i].name,
            (#[trigger] t.names[j]).ns,
            t.names[j].name,
        )
    &&& forall|i: int| 0 <= i < t.socks.len() ==> sock_wf(#[trigger] t.socks[i])
}

proof fn lemma_find_name(names: Seq<BindingView>, ns: u64, name: UnixName, i: int)
    requires
        0 <= i <= names.len(),
    ensures
        match find_name_from(names, ns, name, i) {
            Some(k) => i <= k < names.len() && same_key(names[k].ns, names[k].name, ns, name)
                && forall|j: int|
                i <= j < k ==> !same_key(
                    (#[trigger] names[j]).ns,
                    names[j].name,
                    ns,
                    name,
                ),
            None => forall|j: int|
                i <= j < names.len() ==> !same_key(
                    (#[trigger] names[j]).ns,
                    names[j].name,
                    ns,
                    name,
                ),
        },
    decreases names.len() - i,
{
    if i < names.len() && !same_key(names[i].ns, names[i].name, ns, name) {
        lemma_find_name(names, ns, name, i + 1);
    }
}

/// A socket that is found has the number, and one that is not has it nowhere.
pub proof fn lemma_find_sock(socks: Seq<SockView>, id: u64, i: int)
    requires
        0 <= i <= socks.len(),
    ensures
        match find_sock_from(socks, id, i) {
            Some(k) => i <= k < socks.len() && socks[k].id == id,
            None => forall|j: int| i <= j < socks.len() ==> (#[trigger] socks[j]).id != id,
        },
    decreases socks.len() - i,
{
    if i < socks.len() && socks[i].id != id {
        lemma_find_sock(socks, id, i + 1);
    }
}

// ---------------------------------------------------------------------------
// Names.
// ---------------------------------------------------------------------------

/// What a name leads to.
pub open spec fn lookup(t: TableView, ns: u64, name: UnixName) -> Option<int> {
    match find_name(t.names, ns, name) {
        None => None,
        Some(i) => find_sock(t.socks, t.names[i].sock),
    }
}

/// A socket that is found by name is one of the sockets.
pub proof fn lemma_lookup(t: TableView, ns: u64, name: UnixName)
    ensures
        lookup(t, ns, name) matches Some(p) ==> 0 <= p < t.socks.len(),
{
    if let Some(i) = find_name(t.names, ns, name) {
        lemma_find_sock(t.socks, t.names[i].sock, 0);
    }
}

/// The names without one that no socket is bound to any more.
pub open spec fn forgotten(t: TableView, ns: u64, name: UnixName) -> Seq<BindingView> {
    match find_name(t.names, ns, name) {
        None => t.names,
        Some(i) => if find_sock(t.socks, t.names[i].sock) is None {
            t.names.remove(i)
        } else {
            t.names
        },
    }
}

/// The table after a socket was bound.
pub open spec fn registered(t: TableView, ns: u64, name: UnixName, sock: u64) -> TableView {
    TableView {
        names: forgotten(t, ns, name).push(BindingView { ns, name, sock }),
        ..t
    }
}

/// The names that are left when a namespace goes away.
pub open spec fn outside(names: Seq<BindingView>, ns: u64) -> Seq<BindingView>
    decreases names.len(),
{
    if names.len() == 0 {
        names
    } else if names.last().name is Abstract && names.last().ns == ns {
        outside(names.drop_last(), ns)
    } else {
        outside(names.drop_last(), ns).push(names.last())
    }
}

impl UnixTable {
    pub fn new() -> (r: UnixTable)
        ensures
            r@.socks.len() == 0,
            r@.names.len() == 0,
            table_wf(r@),
    {
        UnixTable { socks: Vec::new(), names: Vec::new() }
    }

    /// Adds a new socket, under an id that no other has. Gives its place.
    pub fn add_socket(&mut self, sock: UnixSocket) -> (k: usize)
        requires
            table_wf(old(self)@),
            sock_wf(sock@),
            find_sock(old(self)@.socks, sock.id) is None,
            old(self).socks@.len() < usize::MAX,
        ensures
            k == old(self).socks@.len(),
            final(self)@ == (TableView { socks: old(self)@.socks.push(sock@), ..old(self)@ }),
            table_wf(final(self)@),
    {
        let ghost t0 = self@;
        proof {
            lemma_find_sock(t0.socks, sock.id, 0);
        }
        let k: usize = self.socks.len();
        self.socks.push(sock);
        assert(self@.socks =~= t0.socks.push(sock@));
        k
    }

    /// The place of a socket.
    pub fn sock_place(&self, id: u64) -> (r: Option<usize>)
        ensures
            match r {
                Some(i) => find_sock(self@.socks, id) == Some(i as int) && i < self.socks@.len()
                    && self@.socks[i as int].id == id,
                None => find_sock(self@.socks, id) is None,
            },
    {
        let mut i: usize = 0;
        while i < self.socks.len()
            invariant
                i <= self.socks@.len(),
                find_sock(self@.socks, id) == find_sock_from(self@.socks, id, i as int),
            decreases self.socks@.len() - i,
        {
            if self.socks[i].id == id {
                return Some(i);
            }
            i += 1;
        }
        None
    }

    /// The place of a name.
    fn name_place(&self, ns: u64, addr: &UnixAddr) -> (r: Option<usize>)
        ensures
            match r {
                Some(i) => find_name(self@.names, ns, addr@) == Some(i as int) && i
                    < self.names@.len(),
                None => find_name(self@.names, ns, addr@) is None,
            },
    {
        let mut i: usize = 0;
        while i < self.names.len()
            invariant
                i <= self.names@.len(),
                find_name(self@.names, ns, addr@) == find_name_from(
                    self@.names,
                    ns,
                    addr@,
                    i as int,
                ),
            decreases self.names@.len() - i,
        {
            let b = &self.names[i];
            let abstract_name: bool = match addr {
                UnixAddr::Path(_) => false,
                UnixAddr::Abstract(_) => true,
            };
            if same_name(&b.addr, addr) && (!abstract_name || b.ns == ns) {
                return Some(i);
            }
            i += 1;
        }
        None
    }

    /// Forgets a name that no socket is bound to any more.
    fn forget_stale(&mut self, ns: u64, addr: &UnixAddr)
        requires
            table_wf(old(self)@),
        ensures
            table_wf(final(self)@),
            final(self)@ == (TableView { names: forgotten(old(self)@, ns, addr@), ..old(self)@ }),
            final(self).socks == old(self).socks,
    {
        if let Some(i) = self.name_place(ns, addr) {
            if self.sock_place(self.names[i].sock).is_none() {
                let ghost before = self.names@;
                let gone = self.names.remove(i);
                assert(names_view(self.names@) =~= names_view(before).remove(i as int));
                proof {
                    lemma_remove_keeps(old(self)@, i as int);
                }
            }
        }
    }

    /// Finds the socket that a name is bound to. A name whose socket is gone is
    /// forgotten.
    pub fn lookup_unix_bound_socket(&mut self, ns: u64, addr: &UnixAddr) -> (r: Result<
        usize,
        isize,
    >)
        requires
            table_wf(old(self)@),
        ensures
            table_wf(final(self)@),
            final(self)@ == (TableView { names: forgotten(old(self)@, ns, addr@), ..old(self)@ }),
            final(self).socks == old(self).socks,
            match r {
                Ok(k) => lookup(old(self)@, ns, addr@) == Some(k as int) && k
                    < old(self).socks@.len(),
                Err(e) => lookup(old(self)@, ns, addr@) is None && e == ENOENT,
            },
    {
        match self.name_place(ns, addr) {
            None => Err(ENOENT),
            Some(i) => {
                let found = self.sock_place(self.names[i].sock);
                self.forget_stale(ns, addr);
                match found {
                    Some(k) => Ok(k),
                    None => Err(ENOENT),
                }
            },
        }
    }

    /// Binds a socket to a name that no open socket is bound to.
    pub fn register_unix_bound_socket(&mut self, ns: u64, addr: &UnixAddr, sock: u64) -> (r: isize)
        requires
            table_wf(old(self)@),
        ensures
            table_wf(final(self)@),
            final(self).socks == old(self).socks,
            r == if lookup(old(self)@, ns, addr@) is Some {
                EADDRINUSE as int
            } else {
                0
            },
            final(self)@ == if r == 0 {
                registered(old(self)@, ns, addr@, sock)
            } else {
                old(self)@
            },
    {
        if let Some(i) = self.name_place(ns, addr) {
            if self.sock_place(self.names[i].sock).is_some() {
                return EADDRINUSE;
            }
        }
        self.forget_stale(ns, addr);
        let ghost before = self.names@;
        proof {
            lemma_forgotten_is_free(old(self)@, ns, addr@);
            lemma_find_name(self@.names, ns, addr@, 0);
        }
        self.names.push(Binding { ns, addr: copy_name(addr), sock });
        assert(names_view(self.names@) =~= names_view(before).push(
            BindingView { ns, name: addr@, sock },
        ));
        0
    }

    /// Forgets the abstract names of a namespace that goes away.
    pub fn cleanup_net_namespace(&mut self, ns: u64)
        ensures
            final(self)@ == (TableView { names: outside(old(self)@.names, ns), ..old(self)@ }),
            final(self).socks == old(self).socks,
            table_wf(old(self)@) ==> table_wf(final(self)@),
    {
        proof {
            if table_wf(old(self)@) {
                lemma_outside_keys(old(self)@.names, ns);
            }
        }
        let ghost names0 = self@.names;
        let mut kept: Vec<Binding> = Vec::new();
        let mut i: usize = 0;
        assert(names_view(kept@) =~= outside(names0.take(0), ns));
        while i < self.names.len()
            invariant
                i <= self.names@.len(),
                names0 == names_view(self.names@),
                names_view(kept@) == outside(names0.take(i as int), ns),
            decreases self.names@.len() - i,
        {
            proof {
                let t = names0.take(i + 1);
                assert(t.drop_last() =~= names0.take(i as int));
                assert(t.last() == self.names@[i as int]@);
            }
            let b = &self.names[i];
            let gone: bool = match &b.addr {
                UnixAddr::Path(_) => false,
                UnixAddr::Abstract(_) => b.ns == ns,
            };
            if !gone {
                let ghost before = kept@;
                kept.push(Binding { ns: b.ns, addr: copy_name(&b.addr), sock: b.sock });
                assert(names_view(kept@) =~= names_view(before).push(self.names@[i as int]@));
            }
            i += 1;
        }
        assert(names0.take(i as int) =~= names0);
        self.names = kept;
    }

    /// Takes sockets out of the table. Gives their pipe ends.
    fn take_out(&mut self, gone: &Vec<u64>) -> (ends: Vec<u64>)
        ensures
            final(self).names == old(self).names,
            final(self)@.socks == without(old(self)@.socks, gone@),
            ends@ == ends_of(old(self)@.socks, gone@),
    {
        let mut ends: Vec<u64> = Vec::new();
        let ghost s0 = self@.socks;
        let ghost mut seen: int = 0;
        let mut i: usize = 0;
        assert(s0.take(0) =~= Seq::empty());
        assert(socks_view(self.socks@) =~= without(s0.take(0), gone@) + s0.skip(0));
        while i < self.socks.len()
            invariant
                0 <= seen <= s0.len(),
                self.names == old(self).names,
                i == without(s0.take(seen), gone@).len(),
                socks_view(self.socks@) == without(s0.take(seen), gone@) + s0.skip(seen),
                ends@ == ends_of(s0.take(seen), gone@),
            decreases s0.len() - seen,
        {
            let ghost w = without(s0.take(seen), gone@);
            let ghost now = self.socks@;
            proof {
                assert(socks_view(now).len() == w.len() + s0.len() - seen);
                assert(s0.take(seen + 1).drop_last() =~= s0.take(seen));
                assert(s0.take(seen + 1).last() == s0[seen]);
                assert(socks_view(now)[i as int] == s0.skip(seen)[0]);
                assert(now[i as int]@ == s0[seen]);
            }
            if has_id(gone, self.socks[i].id) {
                let sock = self.socks.remove(i);
                if let Some(end) = sock.stream_end {
                    ends.push(end);
                }
                proof {
                    assert(socks_view(self.socks@) =~= socks_view(now).remove(i as int));
                    assert((w + s0.skip(seen)).remove(i as int) =~= w + s0.skip(seen + 1));
                }
            } else {
                i += 1;
                assert(w + s0.skip(seen) =~= w.push(s0[seen]) + s0.skip(seen + 1));
            }
            proof {
                seen = seen + 1;
            }
        }
        proof {
            assert(socks_view(self.socks@).len() == i + s0.len() - seen);
            assert(s0.take(seen) =~= s0);
            assert(socks_view(self.socks@) =~= without(s0, gone@));
        }
        ends
    }

    /// Closes a socket: it leaves the table, and its name is free. Connections
    /// that wait to be accepted by it go with it. Gives the pipe ends of what
    /// left, which are closed too.
    pub fn close_socket(&mut self, id: u64) -> (ends: Vec<u64>)
        requires
            table_wf(old(self)@),
        ensures
            table_wf(final(self)@),
            final(self)@ == closed(old(self)@, id),
            ends@ == closed_ends(old(self)@, id),
    {
        let ghost t0 = self@;
        let mut ends: Vec<u64> = Vec::new();
        if let Some(k) = self.sock_place(id) {
            let ns: u64 = self.socks[k].ns;
            let bound = copy_optional_name(&self.socks[k].bound);
            if let Some(addr) = &bound {
                if let Some(i) = self.name_place(ns, addr) {
                    let ghost before = self.names@;
                    let gone = self.names.remove(i);
                    assert(names_view(self.names@) =~= names_view(before).remove(i as int));
                    proof {
                        lemma_remove_keeps(t0, i as int);
                    }
                }
            }
            let mut gone: Vec<u64> = Vec::new();
            append_ids(&mut gone, &self.socks[k].pending);
            gone.push(id);
            assert(gone@ =~= closing(t0, k as int));
            ends = self.take_out(&gone);
            proof {
                lemma_without_keeps(t0.socks, gone@);
            }
        }
        ends
    }
}

/// Tells whether a number is in a list.
fn has_id(ids: &Vec<u64>, id: u64) -> (r: bool)
    ensures
        r == ids@.contains(id),
{
    let mut i: usize = 0;
    while i < ids.len()
        invariant
            i <= ids@.len(),
            forall|j: int| 0 <= j < i ==> ids@[j] != id,
        decreases ids@.len() - i,
    {
        if ids[i] == id {
            return true;
        }
        i += 1;
    }
    false
}

/// Appends numbers to a list.
fn append_ids(ids: &mut Vec<u64>, more: &Vec<u64>)
    ensures
        final(ids)@ == old(ids)@ + more@,
{
    let mut i: usize = 0;
    while i < more.len()
        invariant
            i <= more@.len(),
            ids@ == old(ids)@ + more@.take(i as int),
        decreases more@.len() - i,
    {
        ids.push(more[i]);
        i += 1;
        assert(ids@ =~= old(ids)@ + more@.take(i as int));
    }
    assert(more@.take(i as int) =~= more@);
}

/// The sockets whose numbers are not in a list.
pub open spec fn without(socks: Seq<SockView>, gone: Seq<u64>) -> Seq<SockView>
    decreases socks.len(),
{
    if socks.len() == 0 {
        socks
    } else if gone.contains(socks.last().id) {
        without(socks.drop_last(), gone)
    } else {
        without(socks.drop_last(), gone).push(socks.last())
    }
}

/// The pipe ends of the sockets whose numbers are in a list.
pub open spec fn ends_of(socks: Seq<SockView>, gone: Seq<u64>) -> Seq<u64>
    decreases socks.len(),
{
    if socks.len() == 0 {
        Seq::empty()
    } else {
        match socks.last().stream_end {
            Some(end) if gone.contains(socks.last().id) => ends_of(socks.drop_last(), gone).push(
                end,
            ),
            _ => ends_of(socks.drop_last(), gone),
        }
    }
}

/// The sockets that leave when socket `k` is closed: the connections that wait to
/// be accepted by it, and itself.
pub open spec fn closing(t: TableView, k: int) -> Seq<u64> {
    t.socks[k].pending.push(t.socks[k].id)
}

/// The table without a socket, the connections that wait for it, and its name.
pub open spec fn closed(t: TableView, id: u64) -> TableView {
    match find_sock(t.socks, id) {
        None => t,
        Some(k) => TableView {
            socks: without(t.socks, closing(t, k)),
            names: match t.socks[k].bound {
                None => t.names,
                Some(n) => match find_name(t.names, t.socks[k].ns, n) {
                    None => t.names,
                    Some(i) => t.names.remove(i),
                },
            },
        },
    }
}

/// The pipe ends that are closed with a socket.
pub open spec fn closed_ends(t: TableView, id: u64) -> Seq<u64> {
    match find_sock(t.socks, id) {
        None => Seq::empty(),
        Some(k) => ends_of(t.socks, closing(t, k)),
    }
}

/// What stays is as it was, and what is not in the list stays.
proof fn lemma_without(socks: Seq<SockView>, gone: Seq<u64>)
    ensures
        forall|i: int| #![trigger without(socks, gone)[i]]
            0 <= i < without(socks, gone).len() ==> socks.contains(without(socks, gone)[i])
                && !gone.contains(without(socks, gone)[i].id),
        forall|i: int| #![trigger socks[i]]
            0 <= i < socks.len() && !gone.contains(socks[i].id) ==> without(
                socks,
                gone,
            ).contains(socks[i]),
    decreases socks.len(),
{
    if socks.len() > 0 {
        let front = socks.drop_last();
        lemma_without(front, gone);
        let w = without(socks, gone);
        let f = without(front, gone);
        assert forall|i: int| 0 <= i < w.len() implies socks.contains(#[trigger] w[i])
            && !gone.contains(w[i].id) by {
            if i < f.len() {
                assert(w[i] == f[i]);
                let j = choose|j: int| 0 <= j < front.len() && front[j] == f[i];
                assert(socks[j] == w[i]);
            } else {
                assert(socks[socks.len() - 1] == w[i]);
            }
        }
        assert forall|i: int| 0 <= i < socks.len() && !gone.contains(
            (#[trigger] socks[i]).id,
        ) implies w.contains(socks[i]) by {
            if i < front.len() {
                assert(front[i] == socks[i]);
                let j = choose|j: int| 0 <= j < f.len() && f[j] == socks[i];
                assert(w[j] == socks[i]);
            } else {
                assert(w[f.len() as int] == socks[i]);
            }
        }
    }
}

proof fn lemma_without_keeps(socks: Seq<SockView>, gone: Seq<u64>)
    requires
        forall|i: int, j: int|
            0 <= i < j < socks.len() ==> #[trigger] socks[i].id != #[trigger] socks[j].id,
        forall|i: int| 0 <= i < socks.len() ==> sock_wf(#[trigger] socks[i]),
    ensures
        forall|i: int, j: int|
            0 <= i < j < without(socks, gone).len() ==> #[trigger] without(socks, gone)[i].id
                != #[trigger] without(socks, gone)[j].id,
        forall|i: int|
            0 <= i < without(socks, gone).len() ==> sock_wf(#[trigger] without(socks, gone)[i]),
    decreases socks.len(),
{
    if socks.len() > 0 {
        let front = socks.drop_last();
        assert forall|i: int, j: int| 0 <= i < j < front.len() implies #[trigger] front[i].id
            != #[trigger] front[j].id by {
            assert(front[i] == socks[i] && front[j] == socks[j]);
        }
        lemma_without_keeps(front, gone);
        lemma_without(front, gone);
        let w = without(socks, gone);
        let f = without(front, gone);
        assert forall|i: int, j: int| 0 <= i < j < w.len() implies #[trigger] w[i].id
            != #[trigger] w[j].id by {
            assert(w[i] == f[i]);
            if j < f.len() {
                assert(w[j] == f[j]);
            } else {
                let k = choose|k: int| 0 <= k < front.len() && front[k] == f[i];
                assert(socks[k] == w[i] && socks[socks.len() - 1] == w[j]);
            }
        }
        assert forall|i: int| 0 <= i < w.len() implies sock_wf(#[trigger] w[i]) by {
            if i < f.len() {
                assert(w[i] == f[i]);
            } else {
                assert(w[i] == socks[socks.len() - 1]);
            }
        }
    }
}

proof fn lemma_outside_keys(names: Seq<BindingView>, ns: u64)
    requires
        forall|i: int, j: int|
            0 <= i < j < names.len() ==> !same_key(
                (#[trigger] names[i]).ns,
                names[i].name,
                (#[trigger] names[j]).ns,
                names[j].name,
            ),
    ensures
        forall|i: int| 0 <= i < outside(names, ns).len() ==> names.contains(
            #[trigger] outside(names, ns)[i],
        ),
        forall|i: int, j: int|
            0 <= i < j < outside(names, ns).len() ==> !same_key(
                (#[trigger] outside(names, ns)[i]).ns,
                outside(names, ns)[i].name,
                (#[trigger] outside(names, ns)[j]).ns,
                outside(names, ns)[j].name,
            ),
    decreases names.len(),
{
    if names.len() > 0 {
        let front = names.drop_last();
        assert forall|i: int, j: int| 0 <= i < j < front.len() implies !same_key(
            (#[trigger] front[i]).ns,
            front[i].name,
            (#[trigger] front[j]).ns,
            front[j].name,
        ) by {
            assert(front[i] == names[i] && front[j] == names[j]);
        }
        lemma_outside_keys(front, ns);
        let o = outside(names, ns);
        let f = outside(front, ns);
        assert forall|i: int| 0 <= i < o.len() implies names.contains(#[trigger] o[i]) by {
            if i < f.len() {
                assert(f[i] == o[i]);
                let k = choose|k: int| 0 <= k < front.len() && front[k] == f[i];
                assert(names[k] == o[i]);
            } else {
                assert(names[names.len() - 1] == o[i]);
            }
        }
        assert forall|i: int, j: int| 0 <= i < j < o.len() implies !same_key(
            (#[trigger] o[i]).ns,
            o[i].name,
            (#[trigger] o[j]).ns,
            o[j].name,
        ) by {
            assert(o[i] == f[i]);
            if j < f.len() {
                assert(o[j] == f[j]);
            } else {
                let k = choose|k: int| 0 <= k < front.len() && front[k] == f[i];
                assert(names[k] == o[i] && names[names.len() - 1] == o[j]);
            }
        }
    }
}

proof fn lemma_remove_keeps(t: TableView, i: int)
    requires
        table_wf(t),
        0 <= i < t.names.len(),
    ensures
        table_wf(TableView { names: t.names.remove(i), ..t }),
{
    let n = t.names.remove(i);
    assert forall|a: int, b: int| 0 <= a < b < n.len() implies !same_key(
        (#[trigger] n[a]).ns,
        n[a].name,
        (#[trigger] n[b]).ns,
        n[b].name,
    ) by {
        let x = if a < i {
            a
        } else {
            a + 1
        };
        let y = if b < i {
            b
        } else {
            b + 1
        };
        assert(n[a] == t.names[x] && n[b] == t.names[y]);
    }
}

proof fn lemma_forgotten_is_free(t: TableView, ns: u64, name: UnixName)
    requires
        table_wf(t),
        lookup(t, ns, name) is None,
    ensures
        find_name(forgotten(t, ns, name), ns, name) is None,
{
    lemma_find_name(t.names, ns, name, 0);
    let n = forgotten(t, ns, name);
    lemma_find_name(n, ns, name, 0);
    if let Some(k) = find_name(n, ns, name) {
        let i = find_name(t.names, ns, name)->0;
        let y = if k < i {
            k
        } else {
            k + 1
        };
        assert(n[k] == t.names[y]);
        if y < i {
            assert(!same_key(t.names[y].ns, t.names[y].name, t.names[i].ns, t.names[i].name));
        } else {
            assert(!same_key(t.names[i].ns, t.names[i].name, t.names[y].ns, t.names[y].name));
        }
    }
}

// ---------------------------------------------------------------------------
// Laws on names.
// ---------------------------------------------------------------------------

/// A name that was bound leads to the socket that was bound to it.
pub proof fn law_bound_names_are_found(t: TableView, ns: u64, name: UnixName, k: int)
    requires
        table_wf(t),
        lookup(t, ns, name) is None,
        0 <= k < t.socks.len(),
    ensures
        lookup(registered(t, ns, name, t.socks[k].id), ns, name) == Some(k),
{
    let id = t.socks[k].id;
    let r = registered(t, ns, name, id);
    lemma_forgotten_is_free(t, ns, name);
    let n = forgotten(t, ns, name);
    lemma_find_name(n, ns, name, 0);
    lemma_find_name(r.names, ns, name, 0);
    assert(same_key(r.names[n.len() as int].ns, r.names[n.len() as int].name, ns, name));
    let i = find_name(r.names, ns, name)->0;
    if i < n.len() {
        assert(r.names[i] == n[i]);
    }
    lemma_find_sock(t.socks, id, 0);
}

/// An abstract name of one namespace is not seen in another.
pub proof fn law_namespaces_are_apart(
    t: TableView,
    ns: u64,
    other: u64,
    name: Seq<u8>,
    sock: u64,
)
    requires
        table_wf(t),
        ns != other,
        lookup(t, ns, UnixName::Abstract(name)) is None,
    ensures
        lookup(registered(t, ns, UnixName::Abstract(name), sock), other, UnixName::Abstract(name))
            == lookup(t, other, UnixName::Abstract(name)),
{
    let a = UnixName::Abstract(name);
    let r = registered(t, ns, a, sock);
    let n = forgotten(t, ns, a);
    lemma_find_name(t.names, other, a, 0);
    lemma_find_name(t.names, ns, a, 0);
    lemma_find_name(r.names, other, a, 0);
    if let Some(k) = find_name(r.names, other, a) {
        assert(k < n.len());
        assert(r.names[k] == n[k]);
        let y = if n == t.names {
            k
        } else if k < find_name(t.names, ns, a)->0 {
            k
        } else {
            k + 1
        };
        assert(n[k] == t.names[y]);
        let z = find_name(t.names, other, a)->0;
        if z < y {
            assert(!same_key(t.names[z].ns, t.names[z].name, t.names[y].ns, t.names[y].name));
        } else if y < z {
            assert(!same_key(t.names[y].ns, t.names[y].name, t.names[z].ns, t.names[z].name));
        }
    } else if let Some(z) = find_name(t.names, other, a) {
        let y = if n == t.names {
            z
        } else if z < find_name(t.names, ns, a)->0 {
            z
        } else {
            z - 1
        };
        assert(n[y] == t.names[z]);
        assert(r.names[y] == n[y]);
    }
}

/// A name is free once its socket is closed.
pub proof fn law_closing_frees_the_name(t: TableView, id: u64, k: int, ns: u64, name: UnixName)
    requires
        table_wf(t),
        find_sock(t.socks, id) == Some(k),
        t.socks[k].bound == Some(name),
        t.socks[k].ns == ns,
    ensures
        lookup(closed(t, id), ns, name) is None,
{
    lemma_find_name(t.names, ns, name, 0);
    let c = closed(t, id);
    lemma_find_name(c.names, ns, name, 0);
    if let Some(j) = find_name(c.names, ns, name) {
        let i = find_name(t.names, ns, name);
        if let Some(i) = i {
            let y = if j < i {
                j
            } else {
                j + 1
            };
            assert(c.names[j] == t.names[y]);
            if y < i {
                assert(!same_key(t.names[y].ns, t.names[y].name, t.names[i].ns, t.names[i].name));
            } else {
                assert(!same_key(t.names[i].ns, t.names[i].name, t.names[y].ns, t.names[y].name));
            }
        } else {
            assert(c.names == t.names);
        }
    }
}

/// Connections that wait to be accepted are open, have no name and do not listen,
/// and each waits in one place.
pub open spec fn waiting_wf(t: TableView) -> bool {
    &&& forall|i: int, a: int|
        0 <= i < t.socks.len() && 0 <= a < t.socks[i].pending.len() ==> plain(
            t.socks,
            #[trigger] t.socks[i].pending[a],
        )
    &&& forall|i: int, a: int, j: int, b: int|
        0 <= i < t.socks.len() && 0 <= a < t.socks[i].pending.len() && 0 <= j < t.socks.len() && 0
            <= b < t.socks[j].pending.len() && #[trigger] t.socks[i].pending[a]
            == #[trigger] t.socks[j].pending[b] ==> i == j && a == b
}

/// A number is that of a socket without a name that does not listen.
pub open spec fn plain(socks: Seq<SockView>, id: u64) -> bool {
    exists|q: int| 0 <= q < socks.len() && is_plain(#[trigger] socks[q], id)
}

pub open spec fn is_plain(s: SockView, id: u64) -> bool {
    s.id == id && !s.listening && s.bound is None
}

/// A connection waits to be accepted.
pub open spec fn waiting(t: TableView, id: u64) -> bool {
    exists|i: int, a: int|
        0 <= i < t.socks.len() && 0 <= a < t.socks[i].pending.len()
            && #[trigger] t.socks[i].pending[a] == id
}

/// The table once the first connection that waits for socket `k` was accepted.
pub open spec fn accepting(t: TableView, k: int) -> TableView {
    let s = t.socks[k];
    TableView { socks: t.socks.update(k, SockView { pending: s.pending.skip(1), ..s }), ..t }
}

proof fn lemma_ends(socks: Seq<SockView>, gone: Seq<u64>)
    ensures
        forall|q: int| #![trigger socks[q]]
            0 <= q < socks.len() && gone.contains(socks[q].id) && socks[q].stream_end is Some
                ==> ends_of(socks, gone).contains(socks[q].stream_end->0),
    decreases socks.len(),
{
    if socks.len() > 0 {
        let front = socks.drop_last();
        lemma_ends(front, gone);
        let e = ends_of(socks, gone);
        let f = ends_of(front, gone);
        assert forall|q: int|
            0 <= q < socks.len() && gone.contains((#[trigger] socks[q]).id)
                && socks[q].stream_end is Some implies e.contains(socks[q].stream_end->0) by {
            if q < front.len() {
                assert(front[q] == socks[q]);
                let j = choose|j: int| 0 <= j < f.len() && f[j] == socks[q].stream_end->0;
                assert(e[j] == f[j]);
            } else {
                assert(e[f.len() as int] == socks[q].stream_end->0);
            }
        }
    }
}

/// With a socket go the connections that wait to be accepted by it, and their
/// pipe ends are closed, so that their clients see the end. All other sockets stay
/// as they are.
pub proof fn law_closing_drops_waiting_connections(t: TableView, id: u64, k: int)
    requires
        table_wf(t),
        find_sock(t.socks, id) == Some(k),
    ensures
        find_sock(closed(t, id).socks, id) is None,
        forall|a: int|
            0 <= a < t.socks[k].pending.len() ==> find_sock(
                closed(t, id).socks,
                #[trigger] t.socks[k].pending[a],
            ) is None,
        forall|q: int| #![trigger t.socks[q]]
            0 <= q < t.socks.len() && t.socks[k].pending.contains(t.socks[q].id)
                && t.socks[q].stream_end is Some ==> closed_ends(t, id).contains(
                t.socks[q].stream_end->0,
            ),
        forall|q: int| #![trigger t.socks[q]]
            0 <= q < t.socks.len() && q != k && !t.socks[k].pending.contains(t.socks[q].id)
                ==> closed(t, id).socks.contains(t.socks[q]),
{
    lemma_find_sock(t.socks, id, 0);
    let gone = closing(t, k);
    let pending = t.socks[k].pending;
    let c = closed(t, id).socks;
    lemma_without(t.socks, gone);
    lemma_ends(t.socks, gone);
    assert(gone[pending.len() as int] == id);
    lemma_find_sock(c, id, 0);
    assert forall|a: int| 0 <= a < pending.len() implies find_sock(
        c,
        #[trigger] pending[a],
    ) is None by {
        assert(gone[a] == pending[a]);
        lemma_find_sock(c, pending[a], 0);
    }
    assert forall|q: int| #![trigger t.socks[q]]
        0 <= q < t.socks.len() && pending.contains(t.socks[q].id) && t.socks[q].stream_end is Some
            implies closed_ends(t, id).contains(t.socks[q].stream_end->0) by {
        let a = choose|a: int| 0 <= a < pending.len() && pending[a] == t.socks[q].id;
        assert(gone[a] == t.socks[q].id);
    }
    assert forall|q: int| #![trigger t.socks[q]]
        0 <= q < t.socks.len() && q != k && !pending.contains(t.socks[q].id) implies c.contains(
        t.socks[q],
    ) by {
        if gone.contains(t.socks[q].id) {
            let a = choose|a: int| 0 <= a < gone.len() && gone[a] == t.socks[q].id;
            if a < pending.len() {
                assert(pending[a] == gone[a]);
            } else if q < k {
                assert(t.socks[q].id != t.socks[k].id);
            } else {
                assert(t.socks[k].id != t.socks[q].id);
            }
        }
    }
}

/// A connection that was accepted stays open when the listening socket is closed.
pub proof fn law_accepted_connections_outlive_the_listener(t: TableView, k: int, q: int)
    requires
        table_wf(t),
        waiting_wf(t),
        0 <= k < t.socks.len(),
        t.socks[k].pending.len() > 0,
        find_sock(t.socks, t.socks[k].pending[0]) == Some(q),
    ensures
        closed(accepting(t, k), t.socks[k].id).socks.contains(t.socks[q]),
{
    let u = accepting(t, k);
    let id = t.socks[k].id;
    let first = t.socks[k].pending[0];
    lemma_find_sock(t.socks, first, 0);
    assert(plain(t.socks, first));
    let p = choose|p: int| 0 <= p < t.socks.len() && is_plain(#[trigger] t.socks[p], first);
    assert(sock_wf(t.socks[k]));
    assert(p != k);
    if p < q {
        assert(t.socks[p].id != t.socks[q].id);
    } else if q < p {
        assert(t.socks[q].id != t.socks[p].id);
    }
    lemma_find_sock(u.socks, id, 0);
    assert(u.socks[k].id == id);
    let m = find_sock(u.socks, id)->0;
    assert(u.socks[m].id == t.socks[m].id);
    if m < k {
        assert(t.socks[m].id != t.socks[k].id);
    } else if k < m {
        assert(t.socks[k].id != t.socks[m].id);
    }
    let gone = closing(u, k);
    lemma_without(u.socks, gone);
    assert(u.socks[q] == t.socks[q]);
    if gone.contains(first) {
        let a = choose|a: int| 0 <= a < gone.len() && gone[a] == first;
        if a < u.socks[k].pending.len() {
            assert(t.socks[k].pending[a + 1] == gone[a]);
        } else if q < k {
            assert(t.socks[q].id != t.socks[k].id);
        } else {
            assert(t.socks[k].id != t.socks[q].id);
        }
    }
}

/// Accepting keeps what waits in order.
pub proof fn law_accepting_keeps_what_waits(t: TableView, k: int)
    requires
        waiting_wf(t),
        0 <= k < t.socks.len(),
        t.socks[k].pending.len() > 0,
    ensures
        waiting_wf(accepting(t, k)),
        !waiting(accepting(t, k), t.socks[k].pending[0]),
{
    let u = accepting(t, k);
    let first = t.socks[k].pending[0];
    assert forall|i: int, a: int|
        0 <= i < u.socks.len() && 0 <= a < u.socks[i].pending.len() implies plain(
        u.socks,
        #[trigger] u.socks[i].pending[a],
    ) && u.socks[i].pending[a] != first && u.socks[i].pending[a] == t.socks[i].pending[if i == k {
        a + 1
    } else {
        a
    }] by {
        let b = if i == k {
            a + 1
        } else {
            a
        };
        let id = u.socks[i].pending[a];
        assert(t.socks[i].pending[b] == id);
        let q = choose|q: int| 0 <= q < t.socks.len() && is_plain(#[trigger] t.socks[q], id);
        assert(is_plain(u.socks[q], id));
    }
}

/// Closing keeps what waits elsewhere in order. A connection that waits itself has
/// no descriptor and is not closed on its own.
pub proof fn law_closing_keeps_what_waits(t: TableView, id: u64)
    requires
        table_wf(t),
        waiting_wf(t),
        !waiting(t, id),
    ensures
        waiting_wf(closed(t, id)),
{
    lemma_find_sock(t.socks, id, 0);
    if let Some(k) = find_sock(t.socks, id) {
        let gone = closing(t, k);
        let c = closed(t, id).socks;
        lemma_without(t.socks, gone);
        lemma_without_keeps(t.socks, gone);
        assert forall|i: int, a: int|
            0 <= i < c.len() && 0 <= a < c[i].pending.len() implies plain(
            c,
            #[trigger] c[i].pending[a],
        ) by {
            let w = c[i].pending[a];
            let j = choose|j: int| 0 <= j < t.socks.len() && t.socks[j] == c[i];
            assert(t.socks[j].pending[a] == w);
            let q = choose|q: int| 0 <= q < t.socks.len() && is_plain(#[trigger] t.socks[q], w);
            if gone.contains(w) {
                let b = choose|b: int| 0 <= b < gone.len() && gone[b] == w;
                if b < t.socks[k].pending.len() {
                    assert(t.socks[k].pending[b] == w);
                    assert(j == k);
                    assert(gone[t.socks[k].pending.len() as int] == t.socks[k].id);
                    assert(gone.contains(c[i].id));
                } else {
                    assert(waiting(t, id));
                }
            }
            assert(c.contains(t.socks[q]));
            let m = choose|m: int| 0 <= m < c.len() && c[m] == t.socks[q];
            assert(is_plain(c[m], w));
        }
        assert forall|i: int, a: int, j: int, b: int|
            0 <= i < c.len() && 0 <= a < c[i].pending.len() && 0 <= j < c.len() && 0 <= b
                < c[j].pending.len() && #[trigger] c[i].pending[a]
                == #[trigger] c[j].pending[b] implies i == j && a == b by {
            let x = choose|x: int| 0 <= x < t.socks.len() && t.socks[x] == c[i];
            let y = choose|y: int| 0 <= y < t.socks.len() && t.socks[y] == c[j];
            assert(t.socks[x].pending[a] == t.socks[y].pending[b]);
            assert(x == y && a == b);
            if i < j {
                assert(c[i].id != c[j].id);
            } else if j < i {
                assert(c[j].id != c[i].id);
            }
        }
    }
}

/// A namespace that goes away takes its abstract names with it, and no path.
pub proof fn law_cleanup(names: Seq<BindingView>, ns: u64, name: UnixName)
    ensures
        name is Abstract ==> find_name(outside(names, ns), ns, name) is None,
        name is Path ==> (find_name(outside(names, ns), ns, name) is Some <==> find_name(
            names,
            ns,
            name,
        ) is Some),
    decreases names.len(),
{
    let o = outside(names, ns);
    lemma_find_name(names, ns, name, 0);
    lemma_find_name(o, ns, name, 0);
    if names.len() > 0 {
        let front = names.drop_last();
        law_cleanup(front, ns, name);
        let of = outside(front, ns);
        lemma_find_name(front, ns, name, 0);
        lemma_find_name(of, ns, name, 0);
        if let Some(k) = find_name(front, ns, name) {
            assert(names[k] == front[k]);
        }
        if let Some(k) = find_name(names, ns, name) {
            if k < front.len() {
                assert(front[k] == names[k]);
            }
        }
        if let Some(k) = find_name(of, ns, name) {
            assert(o[k] == of[k]);
        }
        if let Some(k) = find_name(o, ns, name) {
            if k < of.len() {
                assert(of[k] == o[k]);
            }
        }
        if !(names.last().name is Abstract && names.last().ns == ns) {
            assert(o[of.len() as int] == names.last());
            if same_key(names.last().ns, names.last().name, ns, name) {
                assert(find_name(o, ns, name) is Some);
                assert(names[names.len() - 1] == names.last());
            }
        }
    }
}

} // verus!
