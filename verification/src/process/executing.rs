//! The registry of files that are being executed: how often each one is.

use vstd::prelude::*;

verus! {

/// A file, by device and number, and how many processes execute it.
#[derive(Clone, Copy)]
pub struct ExecutingInode {
    pub dev: usize,
    pub ino: u32,
    pub count: usize,
}

/// The files that are being executed.
pub struct ExecutingInodes {
    pub entries: Vec<ExecutingInode>,
}

/// The first entry of a file, from `i` on.
pub open spec fn inode_from(s: Seq<ExecutingInode>, dev: usize, ino: u32, i: int) -> Option<int>
    decreases s.len() - i,
{
    if i >= s.len() {
        None
    } else if s[i].dev == dev && s[i].ino == ino {
        Some(i)
    } else {
        inode_from(s, dev, ino, i + 1)
    }
}

/// How often a file is executed.
pub open spec fn executions(s: Seq<ExecutingInode>, dev: usize, ino: u32) -> nat {
    match inode_from(s, dev, ino, 0) {
        Some(i) => s[i].count as nat,
        None => 0,
    }
}

/// The number of a file that stands for none.
pub open spec fn no_file(dev: usize, ino: u32) -> bool {
    dev == 0 && ino == 0
}

proof fn lemma_inode_from(s: Seq<ExecutingInode>, dev: usize, ino: u32, i: int)
    requires
        0 <= i <= s.len(),
    ensures
        match inode_from(s, dev, ino, i) {
            Some(k) => i <= k < s.len() && s[k].dev == dev && s[k].ino == ino,
            None => forall|j: int| i <= j < s.len() ==> s[j].dev != dev || s[j].ino != ino,
        },
    decreases s.len() - i,
{
    if i < s.len() {
        lemma_inode_from(s, dev, ino, i + 1);
    }
}

/// Entries that have the same keys in the same places have the same index.
proof fn lemma_same_keys(
    s: Seq<ExecutingInode>,
    t: Seq<ExecutingInode>,
    dev: usize,
    ino: u32,
    i: int,
)
    requires
        s.len() == t.len(),
        forall|j: int| 0 <= j < s.len() ==> (#[trigger] t[j]).dev == s[j].dev && t[j].ino == s[j].ino,
        0 <= i <= s.len(),
    ensures
        inode_from(s, dev, ino, i) == inode_from(t, dev, ino, i),
    decreases s.len() - i,
{
    if i < s.len() {
        assert(t[i].dev == s[i].dev);
        lemma_same_keys(s, t, dev, ino, i + 1);
    }
}

proof fn lemma_push_other(s: Seq<ExecutingInode>, e: ExecutingInode, dev: usize, ino: u32, i: int)
    requires
        0 <= i <= s.len(),
    ensures
        inode_from(s.push(e), dev, ino, i) == match inode_from(s, dev, ino, i) {
            Some(k) => Some(k),
            None => if e.dev == dev && e.ino == ino {
                Some(s.len() as int)
            } else {
                None
            },
        },
    decreases s.len() - i,
{
    if i < s.len() {
        lemma_push_other(s, e, dev, ino, i + 1);
    } else {
        assert(inode_from(s.push(e), dev, ino, i + 1) is None);
    }
}

proof fn lemma_remove_other(s: Seq<ExecutingInode>, k: int, dev: usize, ino: u32, i: int)
    requires
        0 <= k < s.len(),
        0 <= i < s.len(),
        unique(s),
        s[k].dev != dev || s[k].ino != ino,
    ensures
        executions_from(s.remove(k), dev, ino, i) == executions_from(
            s,
            dev,
            ino,
            if i <= k {
                i
            } else {
                i + 1
            },
        ),
    decreases s.len() - i,
{
    let t = s.remove(k);
    let i0 = if i < k {
        i
    } else {
        i + 1
    };
    if i < t.len() {
        assert(t[i] == s[i0]);
        if i + 1 < s.len() {
            lemma_remove_other(s, k, dev, ino, i + 1);
        }
    }
}

/// How often a file is executed, by the entries from `i` on.
pub open spec fn executions_from(s: Seq<ExecutingInode>, dev: usize, ino: u32, i: int) -> nat {
    match inode_from(s, dev, ino, i) {
        Some(k) => s[k].count as nat,
        None => 0,
    }
}

/// No file has two entries.
pub open spec fn unique(s: Seq<ExecutingInode>) -> bool {
    forall|i: int, j: int|
        0 <= i < j < s.len() ==> (#[trigger] s[i]).dev != (#[trigger] s[j]).dev || s[i].ino
            != s[j].ino
}

impl ExecutingInodes {
    /// No file has two entries, none has an entry for no process, and the
    /// number that stands for no file has none.
    pub open spec fn wf(&self) -> bool {
        &&& unique(self.entries@)
        &&& forall|i: int| 0 <= i < self.entries@.len() ==> (#[trigger] self.entries@[i]).count > 0
        &&& executions(self.entries@, 0, 0) == 0
    }

    /// How often a file is executed.
    pub open spec fn count_of(&self, dev: usize, ino: u32) -> nat {
        executions(self.entries@, dev, ino)
    }

    /// An empty registry.
    pub fn new() -> (r: ExecutingInodes)
        ensures
            r.wf(),
            forall|dev: usize, ino: u32| #[trigger] r.count_of(dev, ino) == 0,
    {
        ExecutingInodes { entries: Vec::new() }
    }

    fn slot(&self, dev: usize, ino: u32) -> (r: Option<usize>)
        ensures
            match r {
                Some(i) => i < self.entries.len() && inode_from(self.entries@, dev, ino, 0) == Some(
                    i as int,
                ) && self.entries@[i as int].dev == dev && self.entries@[i as int].ino == ino,
                None => inode_from(self.entries@, dev, ino, 0) is None,
            },
    {
        let mut i: usize = 0;
        while i < self.entries.len()
            invariant
                i <= self.entries.len(),
                inode_from(self.entries@, dev, ino, 0) == inode_from(
                    self.entries@,
                    dev,
                    ino,
                    i as int,
                ),
            decreases self.entries.len() - i,
        {
            if self.entries[i].dev == dev && self.entries[i].ino == ino {
                return Some(i);
            }
            i += 1;
        }
        None
    }

    /// Tells whether a file is being executed.
    pub fn is_inode_currently_executed(&self, dev: usize, ino: u32) -> (r: bool)
        requires
            self.wf(),
        ensures
            r == (self.count_of(dev, ino) > 0),
    {
        if dev == 0 && ino == 0 {
            return false;
        }
        match self.slot(dev, ino) {
            Some(i) => self.entries[i].count > 0,
            None => false,
        }
    }

    /// Counts one more execution of a file.
    pub fn register_executing_inode(&mut self, dev: usize, ino: u32)
        requires
            old(self).wf(),
        ensures
            final(self).wf(),
            counted_up(*old(self), *final(self), dev, ino),
    {
        if dev == 0 && ino == 0 {
            return;
        }
        let ghost before = self.entries@;
        match self.slot(dev, ino) {
            Some(i) => {
                self.entries[i].count = self.entries[i].count.saturating_add(1);
                proof {
                    let after = self.entries@;
                    assert forall|d: usize, n: u32| inode_from(before, d, n, 0) == #[trigger]
                        inode_from(after, d, n, 0) by {
                        lemma_same_keys(before, after, d, n, 0);
                    }
                    assert forall|a: int, b: int| 0 <= a < b < after.len() implies (
                    #[trigger] after[a]).dev != (#[trigger] after[b]).dev || after[a].ino
                        != after[b].ino by {
                        assert(before[a].dev != before[b].dev || before[a].ino != before[b].ino);
                    }
                    assert forall|d: usize, n: u32|
                        d != dev || n != ino implies #[trigger] executions(after, d, n)
                        == executions(before, d, n) by {
                        lemma_inode_from(before, d, n, 0);
                        lemma_same_keys(before, after, d, n, 0);
                    }
                }
            },
            None => {
                self.entries.push(ExecutingInode { dev, ino, count: 1 });
                proof {
                    let e = ExecutingInode { dev, ino, count: 1 };
                    let after = self.entries@;
                    lemma_inode_from(before, dev, ino, 0);
                    assert forall|d: usize, n: u32| #[trigger]
                        executions(after, d, n) == if d == dev && n == ino {
                        1
                    } else {
                        executions(before, d, n)
                    } by {
                        lemma_push_other(before, e, d, n, 0);
                        lemma_inode_from(before, d, n, 0);
                    }
                }
            },
        }
    }

    /// Counts one execution of a file less; the last one takes its entry away.
    pub fn unregister_executing_inode(&mut self, dev: usize, ino: u32)
        requires
            old(self).wf(),
        ensures
            final(self).wf(),
            counted_down(*old(self), *final(self), dev, ino),
    {
        if dev == 0 && ino == 0 {
            return;
        }
        let ghost before = self.entries@;
        if let Some(i) = self.slot(dev, ino) {
            if self.entries[i].count > 1 {
                self.entries[i].count = self.entries[i].count - 1;
                proof {
                    let after = self.entries@;
                    assert forall|a: int, b: int| 0 <= a < b < after.len() implies (
                    #[trigger] after[a]).dev != (#[trigger] after[b]).dev || after[a].ino
                        != after[b].ino by {
                        assert(before[a].dev != before[b].dev || before[a].ino != before[b].ino);
                    }
                    assert forall|d: usize, n: u32| #[trigger]
                        executions(after, d, n) == if d == dev && n == ino {
                        (executions(before, d, n) - 1) as nat
                    } else {
                        executions(before, d, n)
                    } by {
                        lemma_inode_from(before, d, n, 0);
                        lemma_same_keys(before, after, d, n, 0);
                    }
                }
            } else {
                let gone = self.entries.remove(i);
                proof {
                    let after = self.entries@;
                    assert forall|a: int, b: int| 0 <= a < b < after.len() implies (
                    #[trigger] after[a]).dev != (#[trigger] after[b]).dev || after[a].ino
                        != after[b].ino by {
                        let a0 = if a < i { a } else { a + 1 };
                        let b0 = if b < i { b } else { b + 1 };
                        assert(after[a] == before[a0] && after[b] == before[b0]);
                    }
                    assert forall|a: int| 0 <= a < after.len() implies (#[trigger] after[a]).count
                        > 0 by {
                        let a0 = if a < i { a } else { a + 1 };
                        assert(after[a] == before[a0]);
                    }
                    lemma_inode_from(after, dev, ino, 0);
                    if let Some(k) = inode_from(after, dev, ino, 0) {
                        let k0 = if k < i { k } else { k + 1 };
                        assert(after[k] == before[k0]);
                        assert(before[i as int].dev == dev && before[i as int].ino == ino);
                    }
                    assert forall|d: usize, n: u32|
                        d != dev || n != ino implies #[trigger] executions(after, d, n)
                        == executions(before, d, n) by {
                        lemma_remove_other(before, i as int, d, n, 0);
                    }
                }
            }
        }
    }
}

/// `b` is `a` with one more execution of a file, if the count can hold it.
pub open spec fn counted_up(a: ExecutingInodes, b: ExecutingInodes, dev: usize, ino: u32) -> bool {
    forall|d: usize, n: u32|
        #[trigger] b.count_of(d, n) == if d == dev && n == ino && !no_file(dev, ino) && a.count_of(
            d,
            n,
        ) < usize::MAX {
            a.count_of(d, n) + 1
        } else {
            a.count_of(d, n)
        }
}

/// `b` is `a` with one execution of a file less, if there is one.
pub open spec fn counted_down(a: ExecutingInodes, b: ExecutingInodes, dev: usize, ino: u32) -> bool {
    forall|d: usize, n: u32|
        #[trigger] b.count_of(d, n) == if d == dev && n == ino && !no_file(dev, ino) && a.count_of(
            d,
            n,
        ) > 0 {
            (a.count_of(d, n) - 1) as nat
        } else {
            a.count_of(d, n)
        }
}

/// Ending an execution that was counted leaves every count as it was.
pub proof fn law_unregister_undoes_register(
    a: ExecutingInodes,
    b: ExecutingInodes,
    c: ExecutingInodes,
    dev: usize,
    ino: u32,
)
    requires
        counted_up(a, b, dev, ino),
        counted_down(b, c, dev, ino),
        a.count_of(dev, ino) < usize::MAX,
    ensures
        forall|d: usize, n: u32| #[trigger] c.count_of(d, n) == a.count_of(d, n),
{
    assert forall|d: usize, n: u32| #[trigger] c.count_of(d, n) == a.count_of(d, n) by {
        assert(b.count_of(d, n) == b.count_of(d, n));
    }
}

/// A file that some process has open.
#[derive(Clone, Copy)]
pub struct OpenInode {
    pub ino: u32,
    pub writable: bool,
}

/// Tells whether a process has a file open for writing.
pub fn is_inode_open_for_write(open: &Vec<OpenInode>, ino: u32) -> (r: bool)
    ensures
        r == exists|i: int|
            0 <= i < open@.len() && (#[trigger] open@[i]).writable && open@[i].ino == ino,
{
    let mut i: usize = 0;
    while i < open.len()
        invariant
            i <= open@.len(),
            forall|j: int| 0 <= j < i ==> !((#[trigger] open@[j]).writable && open@[j].ino == ino),
        decreases open@.len() - i,
    {
        if open[i].writable && open[i].ino == ino {
            return true;
        }
        i += 1;
    }
    false
}

} // verus!
