//! Identifiers that the parts of the window manager share.
use vstd::prelude::*;

use crate::ordered::Key;

verus! {

/// A process id.
pub type Pid = i32;

/// A window, by the process that owns it and its number within that process.
///
/// Windows are ordered by process first.
#[derive(Clone, Copy, Debug, PartialEq, Eq, PartialOrd, Ord, Hash, Structural)]
pub struct WindowId {
    pub pid: Pid,
    pub idx: u32,
}

impl WindowId {
    pub fn new(pid: Pid, idx: u32) -> (wid: WindowId)
        ensures
            wid == (WindowId { pid, idx }),
    {
        WindowId { pid, idx }
    }
}

impl Key for WindowId {
    open spec fn rank(self) -> int {
        (self.pid + 0x8000_0000) * 0x1_0000_0000 + self.idx
    }

    proof fn rank_is_injective(a: Self, b: Self) {
    }

    fn rank_of(self) -> (r: u64) {
        (self.pid as i64 + 0x8000_0000) as u64 * 0x1_0000_0000 + self.idx as u64
    }
}

impl Key for Pid {
    open spec fn rank(self) -> int {
        self + 0x8000_0000
    }

    proof fn rank_is_injective(a: Self, b: Self) {
    }

    fn rank_of(self) -> (r: u64) {
        (self as i64 + 0x8000_0000) as u64
    }
}

/// A window, by the number that the window server gave it.
#[derive(Clone, Copy, Debug, PartialEq, Eq, PartialOrd, Ord, Hash, Structural)]
pub struct WindowServerId(pub u32);

impl WindowServerId {
    pub fn new(id: u32) -> (wsid: WindowServerId)
        ensures
            wsid == WindowServerId(id),
    {
        WindowServerId(id)
    }

    pub fn as_u32(self) -> (id: u32)
        ensures
            id == self.0,
    {
        self.0
    }
}

impl Key for WindowServerId {
    open spec fn rank(self) -> int {
        self.0 as int
    }

    proof fn rank_is_injective(a: Self, b: Self) {
    }

    fn rank_of(self) -> (r: u64) {
        self.0 as u64
    }
}

/// A copy of the list.
pub(crate) fn copy_wsids(wsids: &Vec<WindowServerId>) -> (copy: Vec<WindowServerId>)
    ensures
        copy@ == wsids@,
{
    let mut copy: Vec<WindowServerId> = Vec::new();
    let mut i: usize = 0;
    while i < wsids.len()
        invariant
            i <= wsids.len(),
            copy@ == wsids@.take(i as int),
        decreases wsids.len() - i,
    {
        copy.push(wsids[i]);
        proof {
            assert(copy@ =~= wsids@.take(i + 1));
        }
        i += 1;
    }
    proof {
        assert(wsids@.take(i as int) =~= wsids@);
    }
    copy
}

/// Whether the window is in the list.
pub fn is_among(wids: &Vec<WindowId>, wid: WindowId) -> (b: bool)
    ensures
        b == wids@.contains(wid),
{
    let mut i: usize = 0;
    while i < wids.len()
        invariant
            i <= wids.len(),
            forall|j: int| 0 <= j < i ==> wids@[j] != wid,
        decreases wids.len() - i,
    {
        if wids[i] == wid {
            return true;
        }
        i += 1;
    }
    false
}

/// Windows are ordered by their process first, and then by their number.
pub proof fn windows_are_ordered_by_process(a: WindowId, b: WindowId)
    ensures
        a.pid < b.pid ==> a.rank() < b.rank(),
        a.pid == b.pid ==> (a.rank() < b.rank() <==> a.idx < b.idx),
        a.rank() == b.rank() ==> a == b,
{
}

/// Processes, and windows of the window server, are ordered by their numbers.
pub proof fn numbers_give_the_order(a: Pid, b: Pid, x: WindowServerId, y: WindowServerId)
    ensures
        a.rank() < b.rank() <==> a < b,
        x.rank() < y.rank() <==> x.0 < y.0,
{
}

} // verus!
