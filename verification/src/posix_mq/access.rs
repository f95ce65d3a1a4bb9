//! Who may read, write and remove a queue.

use vstd::prelude::*;

verus! {

/// How many supplementary groups are looked at.
pub const CRED_GROUPS: usize = 8;

/// Who asks.
pub struct Cred {
    pub uid: u32,
    pub euid: u32,
    pub egid: u32,
    pub groups: Vec<u32>,
    pub pid: usize,
}

/// Who owns a queue, and what its permission bits are.
#[derive(Clone, Copy)]
pub struct MqPerm {
    pub uid: u32,
    pub gid: u32,
    pub mode: u16,
}

/// The first groups of a list.
pub open spec fn leading_groups(gids: Seq<u32>) -> Seq<u32> {
    if gids.len() <= CRED_GROUPS {
        gids
    } else {
        gids.take(CRED_GROUPS as int)
    }
}

/// Takes note of who asks.
pub fn current_cred(uid: u32, euid: u32, egid: u32, gids: &Vec<u32>, pid: usize) -> (r: Cred)
    ensures
        r.uid == uid,
        r.euid == euid,
        r.egid == egid,
        r.groups@ == leading_groups(gids@),
        r.pid == pid,
{
    let mut groups: Vec<u32> = Vec::new();
    let mut i: usize = 0;
    assert(groups@ =~= gids@.take(0));
    while i < gids.len() && i < CRED_GROUPS
        invariant
            i <= gids.len(),
            i <= CRED_GROUPS,
            groups@ == gids@.take(i as int),
        decreases gids.len() - i,
    {
        groups.push(gids[i]);
        i += 1;
        assert(groups@ =~= gids@.take(i as int));
    }
    assert(groups@ =~= leading_groups(gids@));
    Cred { uid, euid, egid, groups, pid }
}

/// The caller belongs to the queue's group.
pub open spec fn in_group(perm: MqPerm, cred: Cred) -> bool {
    cred.egid == perm.gid || cred.groups@.contains(perm.gid)
}

/// The permission bit for reading that applies to the caller.
pub open spec fn read_bit(perm: MqPerm, cred: Cred) -> u16 {
    if cred.euid == perm.uid {
        0o400
    } else if in_group(perm, cred) {
        0o040
    } else {
        0o004
    }
}

/// The permission bit for writing that applies to the caller.
pub open spec fn write_bit(perm: MqPerm, cred: Cred) -> u16 {
    if cred.euid == perm.uid {
        0o200
    } else if in_group(perm, cred) {
        0o020
    } else {
        0o002
    }
}

/// The caller may open the queue in this way. Exactly one class of bits counts:
/// the owner's, the group's or that of all others; and root may do everything.
pub open spec fn may_access(perm: MqPerm, cred: Cred, need_read: bool, need_write: bool) -> bool {
    cred.euid == 0 || ((need_read ==> perm.mode & read_bit(perm, cred) != 0) && (need_write
        ==> perm.mode & write_bit(perm, cred) != 0))
}

/// The caller owns the queue, or is root.
pub open spec fn owns(perm: MqPerm, cred: Cred) -> bool {
    cred.euid == 0 || cred.euid == perm.uid
}

/// Tells whether the caller owns the queue, or is root.
pub fn is_owner_or_root(perm: &MqPerm, cred: &Cred) -> (r: bool)
    ensures
        r == owns(*perm, *cred),
{
    cred.euid == 0 || cred.euid == perm.uid
}

fn belongs_to_group(perm: &MqPerm, cred: &Cred) -> (r: bool)
    ensures
        r == in_group(*perm, *cred),
{
    if cred.egid == perm.gid {
        return true;
    }
    let mut i: usize = 0;
    while i < cred.groups.len()
        invariant
            i <= cred.groups.len(),
            forall|j: int| 0 <= j < i ==> cred.groups@[j] != perm.gid,
            cred.egid != perm.gid,
        decreases cred.groups.len() - i,
    {
        if cred.groups[i] == perm.gid {
            return true;
        }
        i += 1;
    }
    false
}

/// Tells whether the caller may open the queue in this way.
pub fn check_access(perm: &MqPerm, cred: &Cred, need_read: bool, need_write: bool) -> (r: bool)
    ensures
        r == may_access(*perm, *cred, need_read, need_write),
{
    if cred.euid == 0 {
        return true;
    }
    let (rbit, wbit): (u16, u16) = if cred.euid == perm.uid {
        (0o400, 0o200)
    } else if belongs_to_group(perm, cred) {
        (0o040, 0o020)
    } else {
        (0o004, 0o002)
    };
    (!need_read || (perm.mode & rbit) != 0) && (!need_write || (perm.mode & wbit) != 0)
}

} // verus!
