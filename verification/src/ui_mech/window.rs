//! Window identity. Windows are keyed, never singular: every window-facing call
//! takes a [`WindowId`].
use vstd::prelude::*;

verus! {

/// Opaque handle to an open window. Stable for the window's lifetime; never
/// reused within a run.
#[derive(Debug, Clone, Copy, PartialEq, Eq, Hash, PartialOrd, Ord, Structural)]
pub struct WindowId(pub(crate) u32);

impl WindowId {
    pub closed spec fn number(self) -> u32 {
        self.0
    }
}

/// What a window is *for*. The role decides how the platform treats it.
#[derive(Debug, Clone, Copy, PartialEq, Eq, Default)]
pub enum WindowRole {
    /// An ordinary window: takes focus, appears in the taskbar.
    #[default]
    Document,
    /// A floating palette: never activates, stays above its owner.
    Palette,
}

/// Hands out window ids: each new window gets the next number, so an id is never
/// reused within a run.
pub struct WindowIds {
    next_id: u32,
}

impl WindowIds {
    /// The number the next window will get.
    pub closed spec fn next(self) -> u32 {
        self.next_id
    }

    /// A fresh allocator; the first window is number 1.
    pub fn new() -> (r: WindowIds)
        ensures
            r.next() == 1,
    {
        WindowIds { next_id: 1 }
    }

    /// Have the ids run out? Once they have, no further window can open.
    pub fn exhausted(&self) -> (r: bool)
        ensures
            r == (self.next() == u32::MAX),
    {
        self.next_id == u32::MAX
    }

    /// Allocate the id for a window about to open.
    pub fn open_window(&mut self) -> (id: WindowId)
        requires
            old(self).next() < u32::MAX,
        ensures
            id.number() == old(self).next(),
            final(self).next() == old(self).next() + 1,
    {
        let id = WindowId(self.next_id);
        self.next_id = self.next_id + 1;
        id
    }
}

/// Ids are never reused: every id allocated before is smaller than every id
/// allocated after.
pub proof fn lemma_ids_are_never_reused(earlier: WindowId, before: WindowIds, later: WindowId)
    requires
        earlier.number() < before.next(),
        later.number() >= before.next(),
    ensures
        earlier != later,
{
}

} // verus!
