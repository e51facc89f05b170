//! The handles of the crop editor: which one a press or a hover selects,
//! whether a locked preset lets it be dragged, and the cursor it shows.

use vstd::prelude::*;

verus! {

#[derive(Copy, Clone, Debug, PartialEq, Eq, Structural)]
pub enum Corner {
    NW,
    NE,
    SW,
    SE,
}

#[derive(Copy, Clone, Debug, PartialEq, Eq, Structural)]
pub enum Edge {
    N,
    S,
    E,
    W,
}

/// What a drag in the crop editor does.
#[derive(Copy, Clone, Debug, PartialEq, Eq, Structural)]
pub enum Handle {
    /// Draw a new box from the press point.
    NewBox,
    /// Move the whole box.
    Move,
    /// Resize from a corner, the opposite corner staying put.
    Corner(Corner),
    /// Resize one side.
    Edge(Edge),
}

/// The cursor shown over each handle.
pub open spec fn cursor_of(h: Handle) -> Seq<char> {
    match h {
        Handle::Corner(Corner::NW) | Handle::Corner(Corner::SE) => "nwse-resize"@,
        Handle::Corner(Corner::NE) | Handle::Corner(Corner::SW) => "nesw-resize"@,
        Handle::Edge(Edge::N) | Handle::Edge(Edge::S) => "ns-resize"@,
        Handle::Edge(Edge::E) | Handle::Edge(Edge::W) => "ew-resize"@,
        Handle::Move => "move"@,
        Handle::NewBox => "crosshair"@,
    }
}

impl Handle {
    /// The name of the cursor shown over this handle.
    pub fn cursor_name(self) -> (s: &'static str)
        ensures
            s@ == cursor_of(self),
    {
        match self {
            Handle::Corner(Corner::NW) | Handle::Corner(Corner::SE) => "nwse-resize",
            Handle::Corner(Corner::NE) | Handle::Corner(Corner::SW) => "nesw-resize",
            Handle::Edge(Edge::N) | Handle::Edge(Edge::S) => "ns-resize",
            Handle::Edge(Edge::E) | Handle::Edge(Edge::W) => "ew-resize",
            Handle::Move => "move",
            Handle::NewBox => "crosshair",
        }
    }
}

/// The handle a press selects. `picked` is the corner or edge handle within
/// reach of the press, if any; `has_crop` whether a box is shown; `inside`
/// whether the press lies in it. With no box, a press draws a new one;
/// otherwise a handle in reach wins, then moving (inside) or drawing anew.
pub open spec fn press_handle_of(picked: Option<Handle>, has_crop: bool, inside: bool) -> Handle {
    if !has_crop {
        Handle::NewBox
    } else {
        match picked {
            Some(h) => h,
            None => if inside {
                Handle::Move
            } else {
                Handle::NewBox
            },
        }
    }
}

/// The drag a press starts, if any: a box held by a locked preset can only
/// be moved.
pub open spec fn drag_of(picked: Option<Handle>, has_crop: bool, inside: bool, locked: bool) -> Option<Handle> {
    if locked && press_handle_of(picked, has_crop, inside) != Handle::Move {
        None
    } else {
        Some(press_handle_of(picked, has_crop, inside))
    }
}

/// The drag a press starts (see [`drag_of`]).
pub fn drag_on_press(picked: Option<Handle>, has_crop: bool, inside: bool, locked: bool) -> (r: Option<Handle>)
    ensures
        r == drag_of(picked, has_crop, inside, locked),
{
    let handle = if !has_crop {
        Handle::NewBox
    } else {
        match picked {
            Some(h) => h,
            None => if inside {
                Handle::Move
            } else {
                Handle::NewBox
            },
        }
    };
    if locked && handle != Handle::Move {
        None
    } else {
        Some(handle)
    }
}

/// The handle the pointer hovers over a shown box (its cursor is then
/// shown): a locked box offers only moving, from inside; otherwise a handle
/// in reach wins, then moving from inside.
pub open spec fn hover_of(picked: Option<Handle>, inside: bool, locked: bool) -> Option<Handle> {
    if locked {
        if inside {
            Some(Handle::Move)
        } else {
            None
        }
    } else {
        match picked {
            Some(h) => Some(h),
            None => if inside {
                Some(Handle::Move)
            } else {
                None
            },
        }
    }
}

/// The handle under the pointer (see [`hover_of`]).
pub fn hover_handle(picked: Option<Handle>, inside: bool, locked: bool) -> (r: Option<Handle>)
    ensures
        r == hover_of(picked, inside, locked),
{
    if locked {
        if inside {
            Some(Handle::Move)
        } else {
            None
        }
    } else {
        match picked {
            Some(h) => Some(h),
            None => if inside {
                Some(Handle::Move)
            } else {
                None
            },
        }
    }
}

/// A locked preset's box can be moved but never resized or redrawn: a
/// press on it starts no other drag, and hovering offers no other handle.
/// Unlocked, a press on a shown box always starts some drag.
pub proof fn lemma_locked_only_moves(picked: Option<Handle>, has_crop: bool, inside: bool, h: Handle)
    ensures
        drag_of(picked, has_crop, inside, true) == Some(h) ==> h == Handle::Move,
        hover_of(picked, inside, true) == Some(h) ==> h == Handle::Move,
        drag_of(picked, has_crop, inside, false) is Some,
{
}

} // verus!
