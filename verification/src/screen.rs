//! Windows, the events that move them, and the screen positions that the
//! grid cells stand for.
use vstd::prelude::*;
use vstd::string::StringExecFns;
use crate::grid::{Pos, SCALE};
use crate::text::{decimal, usize_to_string};

verus! {

/// A position on the screen, in pixels.
#[derive(Clone, Copy, Debug, PartialEq, Eq, Structural)]
pub struct ScreenPos {
    pub x: u32,
    pub y: u32,
}

/// The size of the screen, in pixels.
#[derive(Clone, Copy, Debug, PartialEq, Eq, Structural)]
pub struct ScreenSize {
    pub width: u32,
    pub height: u32,
}

/// The window that an event is about.
#[derive(Clone, Copy, Debug, PartialEq, Eq, Hash, Structural)]
pub enum WindowId {
    Head,
    Apple,
    Tail(usize),
}

impl WindowId {
    /// The name of the window.
    pub open spec fn text(self) -> Seq<char> {
        match self {
            WindowId::Head => "head"@,
            WindowId::Apple => "apple"@,
            WindowId::Tail(i) => "tail#"@ + decimal(i as nat),
        }
    }

    /// The name of the window, as a `String`.
    pub fn to_string(&self) -> (s: String)
        ensures
            s@ == self.text(),
    {
        match self {
            WindowId::Head => String::from_str("head"),
            WindowId::Apple => String::from_str("apple"),
            WindowId::Tail(i) => {
                let mut s = String::from_str("tail#");
                let n = usize_to_string(*i);
                s.append(n.as_str());
                s
            },
        }
    }
}

/// An event that the game sends to the loop that owns the windows.
#[derive(Clone, Copy, Debug, PartialEq, Eq, Structural)]
pub enum UserEvent {
    /// Move `window` so that its corner is at `pos`.
    Move { pos: ScreenPos, window: WindowId },
    ExtendTail(ScreenPos),
    /// End the window loop.
    Kill,
}

/// Whether the screen position of `p` is a `u32` position: the grid is
/// laid out from the screen's corner, shifted by what the screen has over a
/// whole number of cells.
pub open spec fn screen_fits(p: Pos, size: ScreenSize) -> bool {
    &&& p.x * SCALE + size.width % SCALE <= u32::MAX
    &&& p.y * SCALE + size.height % SCALE <= u32::MAX
}

/// The screen position of the window that shows cell `p`.
pub open spec fn screen_of(p: Pos, size: ScreenSize) -> ScreenPos {
    ScreenPos {
        x: (p.x * SCALE + size.width % SCALE) as u32,
        y: (p.y * SCALE + size.height % SCALE) as u32,
    }
}

/// Converts a grid cell to the screen position of the window that shows it.
pub fn to_screen(p: Pos, size: ScreenSize) -> (r: ScreenPos)
    requires
        screen_fits(p, size),
    ensures
        r == screen_of(p, size),
{
    ScreenPos { x: (p.x * SCALE) + (size.width % SCALE), y: (p.y * SCALE) + (size.height % SCALE) }
}

/// A cell that lies on the screen's grid fits on the screen.
pub proof fn lemma_grid_cell_fits(p: Pos, size: ScreenSize)
    requires
        p.x < size.width / SCALE,
        p.y < size.height / SCALE,
    ensures
        screen_fits(p, size),
        screen_of(p, size).x < size.width,
        screen_of(p, size).y < size.height,
{
    assert(p.x * SCALE + size.width % SCALE < size.width) by (nonlinear_arith)
        requires p.x < size.width / SCALE, SCALE == 100;
    assert(p.y * SCALE + size.height % SCALE < size.height) by (nonlinear_arith)
        requires p.y < size.height / SCALE, SCALE == 100;
}

/// The number of whole cells that fit on a screen of `size`, which is the
/// number of tail windows the game may need.
pub fn tail_window_count(size: ScreenSize) -> (n: u32)
    requires
        (size.width / SCALE) * (size.height / SCALE) <= u32::MAX,
    ensures
        n == (size.width / SCALE) * (size.height / SCALE),
{
    (size.width / SCALE) * (size.height / SCALE)
}

/// Where each window stands: the screen after one event.
pub open spec fn apply_event(screen: Map<WindowId, ScreenPos>, e: UserEvent) -> Map<WindowId, ScreenPos> {
    match e {
        UserEvent::Move { pos, window } => screen.insert(window, pos),
        _ => screen,
    }
}

/// Where each window stands after the events `evs`, in order.
pub open spec fn apply_events(screen: Map<WindowId, ScreenPos>, evs: Seq<UserEvent>) -> Map<WindowId, ScreenPos>
    decreases evs.len(),
{
    if evs.len() == 0 {
        screen
    } else {
        apply_event(apply_events(screen, evs.drop_last()), evs.last())
    }
}

/// Applying one more event is applying it to what the earlier ones left.
pub proof fn lemma_apply_events_push(screen: Map<WindowId, ScreenPos>, evs: Seq<UserEvent>, e: UserEvent)
    ensures
        apply_events(screen, evs.push(e)) == apply_event(apply_events(screen, evs), e),
{
    assert(evs.push(e).drop_last() =~= evs);
}

} // verus!
