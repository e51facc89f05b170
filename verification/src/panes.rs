//! Shared state of the workspace's side panels: the divider position that
//! all tabs share, and the counter of image loads still running.

use vstd::prelude::*;

verus! {

/// Narrowest width (px) left to the page grid: room for one column.
pub const MIN_GRID_W: i32 = 175;

/// Divider position every tab starts with.
pub const INITIAL_DIVIDER: i32 = 560;

/// The position a divider dragged to `pos` in a paned `total_w` wide is
/// held to: no further right than leaves [`MIN_GRID_W`] for the grid, once
/// the paned is wider than that.
pub open spec fn clamped_divider(pos: i32, total_w: i32) -> i32 {
    if total_w > MIN_GRID_W && pos > total_w - MIN_GRID_W {
        (total_w - MIN_GRID_W) as i32
    } else {
        pos
    }
}

/// What to do after a divider moved.
#[derive(Copy, Clone, Debug, PartialEq, Eq, Structural)]
pub enum DividerUpdate {
    /// A move caused by this group's own update: nothing to do.
    Ignore,
    /// Put `position` on every paned of the group; the moved one needs it
    /// too when `correct_moved` is set (it was dragged too far).
    Propagate { position: i32, correct_moved: bool },
}

/// The divider position shared by the import, crop and colour tabs.
/// While an update is being spread to the other tabs, the moves that it
/// causes are ignored.
pub struct PanedSync {
    position: i32,
    updating: bool,
}

impl PanedSync {
    /// The shared position.
    pub closed spec fn position_spec(&self) -> i32 {
        self.position
    }

    /// Whether an update is being spread to the group.
    pub closed spec fn is_updating(&self) -> bool {
        self.updating
    }

    pub fn new() -> (s: PanedSync)
        ensures
            s.position_spec() == INITIAL_DIVIDER,
            !s.is_updating(),
    {
        PanedSync { position: INITIAL_DIVIDER, updating: false }
    }

    /// The position a newly registered paned starts at.
    pub fn position(&self) -> (p: i32)
        ensures
            p == self.position_spec(),
    {
        self.position
    }

    /// A divider of a paned `total_w` wide moved to `pos`. Outside an
    /// update, the clamped position becomes the shared one and an update
    /// starts; call [`PanedSync::finish_update`] once it has been applied.
    pub fn divider_moved(&mut self, pos: i32, total_w: i32) -> (u: DividerUpdate)
        ensures
            old(self).is_updating() ==> u == DividerUpdate::Ignore && *final(self) == *old(self),
            !old(self).is_updating() ==> {
                &&& u == (DividerUpdate::Propagate {
                    position: clamped_divider(pos, total_w),
                    correct_moved: clamped_divider(pos, total_w) != pos,
                })
                &&& final(self).position_spec() == clamped_divider(pos, total_w)
                &&& final(self).is_updating()
            },
    {
        if self.updating {
            return DividerUpdate::Ignore;
        }
        self.updating = true;
        let clamped = if total_w > MIN_GRID_W && pos > total_w - MIN_GRID_W {
            total_w - MIN_GRID_W
        } else {
            pos
        };
        self.position = clamped;
        DividerUpdate::Propagate { position: clamped, correct_moved: clamped != pos }
    }

    /// The update has been applied to every paned of the group.
    pub fn finish_update(&mut self)
        ensures
            final(self).position_spec() == old(self).position_spec(),
            !final(self).is_updating(),
    {
        self.updating = false;
    }

    /// A paned showing `current` became visible: the position to move it
    /// to, if it drifted from the shared one.
    pub fn on_map(&self, current: i32) -> (r: Option<i32>)
        ensures
            r == (if current != self.position_spec() {
                Some(self.position_spec())
            } else {
                None
            }),
    {
        if current != self.position {
            Some(self.position)
        } else {
            None
        }
    }
}

/// A shared position always leaves the grid its minimum width: clamping is
/// idempotent, and a clamped divider sits no further right than
/// `total_w - MIN_GRID_W` in a paned wider than [`MIN_GRID_W`].
pub proof fn lemma_clamped_divider_leaves_grid(pos: i32, total_w: i32)
    ensures
        clamped_divider(clamped_divider(pos, total_w), total_w) == clamped_divider(pos, total_w),
        total_w > MIN_GRID_W ==> clamped_divider(pos, total_w) <= total_w - MIN_GRID_W,
        clamped_divider(pos, total_w) <= pos,
{
}

/// One background load finished: the count of running loads drops by one
/// (never below zero); the result says whether none is left, so that the
/// busy indicator can stop.
pub fn decrement_pending(counter: &mut usize) -> (idle: bool)
    ensures
        *final(counter) == (if *old(counter) > 0 {
            (*old(counter) - 1) as usize
        } else {
            0
        }),
        idle <==> *final(counter) == 0,
{
    if *counter > 0 {
        *counter = *counter - 1;
    }
    *counter == 0
}

} // verus!
