//! Moving, resizing, focusing and scrolling windows with the mouse.
//!
//! A left press on a window's border starts a resize (only the corners of
//! the top border resize; the rest of it is the title bar, which starts a
//! move), a press inside a window focuses it, dragging resizes or moves
//! by the distance the pointer travelled since the last step, and
//! releasing ends either. The windows are given by where each is drawn
//! (in window order; `None` for a window that is not drawn). The step
//! decides; the caller carries out the action.

use vstd::prelude::*;
use crate::app_core::WindowRect;

verus! {

/// The border of a window being dragged.
#[derive(Debug, Clone, Copy, PartialEq, Eq, Structural)]
pub enum ResizeEdge {
    Top,
    Bottom,
    Left,
    Right,
}

/// A resize in progress: the window, its border, and where the pointer
/// was at the last step.
#[derive(Debug, Clone, Copy, PartialEq, Eq, Structural)]
pub struct Resizing {
    pub window: usize,
    pub edge: ResizeEdge,
    pub col: u16,
    pub row: u16,
}

/// A move in progress: the window, where the pointer was at the last
/// step, and where the window was when the move began.
#[derive(Debug, Clone, Copy, PartialEq, Eq, Structural)]
pub struct Moving {
    pub window: usize,
    pub col: u16,
    pub row: u16,
    pub start_x: u16,
    pub start_y: u16,
}

/// The mouse state between events.
#[derive(Debug, Clone, Copy, PartialEq, Eq, Structural)]
pub struct DragState {
    pub resize: Option<Resizing>,
    pub moving: Option<Moving>,
    pub focused: usize,
}

/// What the mouse did.
#[derive(Debug, Clone, Copy, PartialEq, Eq, Structural)]
pub enum MouseKind {
    LeftDown,
    LeftUp,
    LeftDrag,
    ScrollUp,
    ScrollDown,
    /// Any other button or motion.
    Other,
}

/// A mouse event at a terminal cell.
#[derive(Debug, Clone, Copy, PartialEq, Eq, Structural)]
pub struct MouseInput {
    pub kind: MouseKind,
    pub col: u16,
    pub row: u16,
}

/// What the caller is to do after a mouse event.
#[derive(Debug, Clone, Copy, PartialEq, Eq, Structural)]
pub enum MouseAction {
    Nothing,
    /// Resize the window at this index by rows or columns on this border.
    Resize(usize, ResizeEdge, i16, i16),
    /// Move the window at this index by columns and rows.
    Move(usize, i16, i16),
    /// Scroll the window at this index up three lines.
    ScrollUp(usize),
    /// Scroll the window at this index down three lines.
    ScrollDown(usize),
}

/// `w - 1`, or 0.
pub open spec fn less_one(w: u16) -> int {
    if w >= 1 {
        w - 1
    } else {
        0
    }
}

/// The last column of a window.
pub open spec fn right_col(r: WindowRect) -> int {
    r.x + less_one(r.width)
}

/// The last row of a window.
pub open spec fn bottom_row(r: WindowRect) -> int {
    r.y + less_one(r.height)
}

/// The border a press at (`col`, `row`) grabs for resizing: the corners
/// of the top border, the bottom border, or the left or right border
/// between top and bottom.
pub open spec fn edge_at(r: WindowRect, col: int, row: int) -> Option<ResizeEdge> {
    if row == r.y && (col == r.x || col == right_col(r)) {
        Some(ResizeEdge::Top)
    } else if row == bottom_row(r) && r.x <= col < r.x + r.width {
        Some(ResizeEdge::Bottom)
    } else if col == r.x && r.y < row < bottom_row(r) {
        Some(ResizeEdge::Left)
    } else if col == right_col(r) && r.y < row < bottom_row(r) {
        Some(ResizeEdge::Right)
    } else {
        None
    }
}

/// Whether (`col`, `row`) is on a window's title bar: its top border
/// without the corners.
pub open spec fn on_title(r: WindowRect, col: int, row: int) -> bool {
    row == r.y && r.x < col < right_col(r)
}

/// Whether (`col`, `row`) is inside a window.
pub open spec fn inside(r: WindowRect, col: int, row: int) -> bool {
    r.x <= col < r.x + r.width && r.y <= row < r.y + r.height
}

/// The first drawn window, from `i` on, with a border under the pointer.
pub open spec fn first_edge(rects: Seq<Option<WindowRect>>, col: int, row: int, i: int) -> Option<(int, ResizeEdge)>
    decreases rects.len() - i,
{
    if i < 0 || i >= rects.len() {
        None
    } else {
        match rects[i] {
            Some(r) => match edge_at(r, col, row) {
                Some(e) => Some((i, e)),
                None => first_edge(rects, col, row, i + 1),
            },
            None => first_edge(rects, col, row, i + 1),
        }
    }
}

/// The first drawn window, from `i` on, whose title bar is under the
/// pointer.
pub open spec fn first_title(rects: Seq<Option<WindowRect>>, col: int, row: int, i: int) -> Option<int>
    decreases rects.len() - i,
{
    if i < 0 || i >= rects.len() {
        None
    } else {
        match rects[i] {
            Some(r) => if on_title(r, col, row) {
                Some(i)
            } else {
                first_title(rects, col, row, i + 1)
            },
            None => first_title(rects, col, row, i + 1),
        }
    }
}

/// The first drawn window, from `i` on, under the pointer.
pub open spec fn first_inside(rects: Seq<Option<WindowRect>>, col: int, row: int, i: int) -> Option<int>
    decreases rects.len() - i,
{
    if i < 0 || i >= rects.len() {
        None
    } else {
        match rects[i] {
            Some(r) => if inside(r, col, row) {
                Some(i)
            } else {
                first_inside(rects, col, row, i + 1)
            },
            None => first_inside(rects, col, row, i + 1),
        }
    }
}

/// Every drawn window lies within the coordinates a terminal cell can
/// have.
pub open spec fn rects_fit(rects: Seq<Option<WindowRect>>) -> bool {
    forall|i: int| 0 <= i < rects.len() ==> (#[trigger] rects[i] matches Some(r) ==> r.x + r.width
        <= u16::MAX && r.y + r.height <= u16::MAX)
}

/// The pointer positions the state remembers are in the range of signed
/// 16-bit cells.
pub open spec fn positions_fit(s: DragState) -> bool {
    &&& (s.resize matches Some(rs) ==> rs.col <= i16::MAX && rs.row <= i16::MAX)
    &&& (s.moving matches Some(ms) ==> ms.col <= i16::MAX && ms.row <= i16::MAX)
}

/// The state and action after a mouse event.
pub open spec fn mouse_spec(s: DragState, ev: MouseInput, rects: Seq<Option<WindowRect>>) -> (DragState, MouseAction) {
    let col = ev.col as int;
    let row = ev.row as int;
    match ev.kind {
        MouseKind::LeftDown => match first_edge(rects, col, row, 0) {
            Some((i, e)) => (DragState { resize: Some(Resizing { window: i as usize, edge: e, col: ev.col, row: ev.row }), ..s }, MouseAction::Nothing),
            None => match first_title(rects, col, row, 0) {
                Some(i) => {
                    let r = rects[i]->0;
                    (DragState {
                        moving: Some(Moving { window: i as usize, col: ev.col, row: ev.row, start_x: r.x, start_y: r.y }),
                        ..s
                    }, MouseAction::Nothing)
                },
                None => match first_inside(rects, col, row, 0) {
                    Some(i) => (DragState { focused: i as usize, ..s }, MouseAction::Nothing),
                    None => (s, MouseAction::Nothing),
                },
            },
        },
        MouseKind::LeftUp => (DragState { resize: None, moving: None, ..s }, MouseAction::Nothing),
        MouseKind::LeftDrag => match s.resize {
            Some(rs) => {
                let dc = col - rs.col;
                let dr = row - rs.row;
                match rs.edge {
                    ResizeEdge::Top | ResizeEdge::Bottom => if dr != 0 {
                        (DragState { resize: Some(Resizing { row: ev.row, ..rs }), ..s }, MouseAction::Resize(rs.window, rs.edge, dr as i16, 0))
                    } else {
                        (s, MouseAction::Nothing)
                    },
                    _ => if dc != 0 {
                        (DragState { resize: Some(Resizing { col: ev.col, ..rs }), ..s }, MouseAction::Resize(rs.window, rs.edge, 0, dc as i16))
                    } else {
                        (s, MouseAction::Nothing)
                    },
                }
            },
            None => match s.moving {
                Some(ms) => {
                    let dc = col - ms.col;
                    let dr = row - ms.row;
                    if dc != 0 || dr != 0 {
                        (DragState { moving: Some(Moving { col: ev.col, row: ev.row, ..ms }), ..s }, MouseAction::Move(ms.window, dc as i16, dr as i16))
                    } else {
                        (s, MouseAction::Nothing)
                    }
                },
                None => (s, MouseAction::Nothing),
            },
        },
        MouseKind::ScrollUp => match first_inside(rects, col, row, 0) {
            Some(i) => (s, MouseAction::ScrollUp(i as usize)),
            None => (s, MouseAction::Nothing),
        },
        MouseKind::ScrollDown => match first_inside(rects, col, row, 0) {
            Some(i) => (s, MouseAction::ScrollDown(i as usize)),
            None => (s, MouseAction::Nothing),
        },
        MouseKind::Other => (s, MouseAction::Nothing),
    }
}

fn edge_at_exec(r: WindowRect, col: u16, row: u16) -> (e: Option<ResizeEdge>)
    requires
        r.x + r.width <= u16::MAX,
        r.y + r.height <= u16::MAX,
    ensures
        e == edge_at(r, col as int, row as int),
{
    let right: u16 = r.x + if r.width >= 1 { r.width - 1 } else { 0 };
    let bottom: u16 = r.y + if r.height >= 1 { r.height - 1 } else { 0 };
    if row == r.y && (col == r.x || col == right) {
        Some(ResizeEdge::Top)
    } else if row == bottom && col >= r.x && col < r.x + r.width {
        Some(ResizeEdge::Bottom)
    } else if col == r.x && row > r.y && row < bottom {
        Some(ResizeEdge::Left)
    } else if col == right && row > r.y && row < bottom {
        Some(ResizeEdge::Right)
    } else {
        None
    }
}

fn find_edge(rects: &Vec<Option<WindowRect>>, col: u16, row: u16) -> (r: Option<(usize, ResizeEdge)>)
    requires
        rects_fit(rects@),
    ensures
        match r {
            Some((i, e)) => first_edge(rects@, col as int, row as int, 0) == Some((i as int, e)),
            None => first_edge(rects@, col as int, row as int, 0) is None,
        },
{
    let mut i: usize = 0;
    while i < rects.len()
        invariant
            i <= rects@.len(),
            rects_fit(rects@),
            first_edge(rects@, col as int, row as int, i as int) == first_edge(rects@, col as int, row as int, 0),
        decreases rects@.len() - i,
    {
        if let Some(r) = rects[i] {
            assert(rects@[i as int] matches Some(r));
            if let Some(e) = edge_at_exec(r, col, row) {
                return Some((i, e));
            }
        }
        i = i + 1;
    }
    None
}

fn find_title(rects: &Vec<Option<WindowRect>>, col: u16, row: u16) -> (r: Option<usize>)
    requires
        rects_fit(rects@),
    ensures
        match r {
            Some(i) => first_title(rects@, col as int, row as int, 0) == Some(i as int) && i < rects@.len()
                && rects@[i as int] is Some,
            None => first_title(rects@, col as int, row as int, 0) is None,
        },
{
    let mut i: usize = 0;
    while i < rects.len()
        invariant
            i <= rects@.len(),
            rects_fit(rects@),
            first_title(rects@, col as int, row as int, i as int) == first_title(rects@, col as int, row as int, 0),
        decreases rects@.len() - i,
    {
        if let Some(r) = rects[i] {
            assert(rects@[i as int] matches Some(r));
            let right: u16 = r.x + if r.width >= 1 { r.width - 1 } else { 0 };
            if row == r.y && col > r.x && col < right {
                return Some(i);
            }
        }
        i = i + 1;
    }
    None
}

fn find_inside(rects: &Vec<Option<WindowRect>>, col: u16, row: u16) -> (r: Option<usize>)
    requires
        rects_fit(rects@),
    ensures
        match r {
            Some(i) => first_inside(rects@, col as int, row as int, 0) == Some(i as int),
            None => first_inside(rects@, col as int, row as int, 0) is None,
        },
{
    let mut i: usize = 0;
    while i < rects.len()
        invariant
            i <= rects@.len(),
            rects_fit(rects@),
            first_inside(rects@, col as int, row as int, i as int) == first_inside(rects@, col as int, row as int, 0),
        decreases rects@.len() - i,
    {
        if let Some(r) = rects[i] {
            assert(rects@[i as int] matches Some(r));
            if col >= r.x && col < r.x + r.width && row >= r.y && row < r.y + r.height {
                return Some(i);
            }
        }
        i = i + 1;
    }
    None
}

/// The mouse state and the action after a mouse event, the windows drawn
/// at `rects`.
pub fn mouse_step(s: DragState, ev: MouseInput, rects: &Vec<Option<WindowRect>>) -> (r: (DragState, MouseAction))
    requires
        rects_fit(rects@),
        positions_fit(s),
        ev.col <= i16::MAX,
        ev.row <= i16::MAX,
    ensures
        r == mouse_spec(s, ev, rects@),
        positions_fit(r.0),
{
    match ev.kind {
        MouseKind::LeftDown => {
            if let Some((i, e)) = find_edge(rects, ev.col, ev.row) {
                (DragState { resize: Some(Resizing { window: i, edge: e, col: ev.col, row: ev.row }), ..s }, MouseAction::Nothing)
            } else if let Some(i) = find_title(rects, ev.col, ev.row) {
                let r = match rects[i] {
                    Some(r) => r,
                    None => {
                        return (s, MouseAction::Nothing);
                    },
                };
                (DragState {
                    moving: Some(Moving { window: i, col: ev.col, row: ev.row, start_x: r.x, start_y: r.y }),
                    ..s
                }, MouseAction::Nothing)
            } else if let Some(i) = find_inside(rects, ev.col, ev.row) {
                (DragState { focused: i, ..s }, MouseAction::Nothing)
            } else {
                (s, MouseAction::Nothing)
            }
        },
        MouseKind::LeftUp => (DragState { resize: None, moving: None, ..s }, MouseAction::Nothing),
        MouseKind::LeftDrag => {
            if let Some(rs) = s.resize {
                let dc: i16 = ev.col as i16 - rs.col as i16;
                let dr: i16 = ev.row as i16 - rs.row as i16;
                match rs.edge {
                    ResizeEdge::Top | ResizeEdge::Bottom => {
                        if dr != 0 {
                            (DragState { resize: Some(Resizing { row: ev.row, ..rs }), ..s }, MouseAction::Resize(rs.window, rs.edge, dr, 0))
                        } else {
                            (s, MouseAction::Nothing)
                        }
                    },
                    _ => {
                        if dc != 0 {
                            (DragState { resize: Some(Resizing { col: ev.col, ..rs }), ..s }, MouseAction::Resize(rs.window, rs.edge, 0, dc))
                        } else {
                            (s, MouseAction::Nothing)
                        }
                    },
                }
            } else if let Some(ms) = s.moving {
                let dc: i16 = ev.col as i16 - ms.col as i16;
                let dr: i16 = ev.row as i16 - ms.row as i16;
                if dc != 0 || dr != 0 {
                    (DragState { moving: Some(Moving { col: ev.col, row: ev.row, ..ms }), ..s }, MouseAction::Move(ms.window, dc, dr))
                } else {
                    (s, MouseAction::Nothing)
                }
            } else {
                (s, MouseAction::Nothing)
            }
        },
        MouseKind::ScrollUp => match find_inside(rects, ev.col, ev.row) {
            Some(i) => (s, MouseAction::ScrollUp(i)),
            None => (s, MouseAction::Nothing),
        },
        MouseKind::ScrollDown => match find_inside(rects, ev.col, ev.row) {
            Some(i) => (s, MouseAction::ScrollDown(i)),
            None => (s, MouseAction::Nothing),
        },
        MouseKind::Other => (s, MouseAction::Nothing),
    }
}

proof fn lemma_first_inside_is(rects: Seq<Option<WindowRect>>, col: int, row: int, from: int, i: int)
    requires
        0 <= from <= i < rects.len(),
        rects[i] matches Some(r) && inside(r, col, row),
        forall|j: int| from <= j < i ==> !(#[trigger] rects[j] matches Some(r) && inside(r, col, row)),
    ensures
        first_inside(rects, col, row, from) == Some(i),
    decreases i - from,
{
    if from < i {
        assert(!(rects[from] matches Some(r) && inside(r, col, row)));
        lemma_first_inside_is(rects, col, row, from + 1, i);
    }
}

/// The wheel scrolls the window under the pointer in the wheel's own
/// direction: scrolling down over the first drawn window that holds the
/// pointer scrolls that window down (and up likewise), leaving the state as
/// it was; a wheel turn never scrolls the other way.
pub proof fn the_wheel_scrolls_the_window_under_the_pointer_its_own_way(
    s: DragState,
    ev: MouseInput,
    rects: Seq<Option<WindowRect>>,
    i: int,
)
    requires
        0 <= i < rects.len(),
        rects[i] matches Some(r) && inside(r, ev.col as int, ev.row as int),
        forall|j: int| 0 <= j < i ==> !(#[trigger] rects[j] matches Some(r) && inside(r, ev.col as int, ev.row as int)),
    ensures
        ev.kind == MouseKind::ScrollDown ==> mouse_spec(s, ev, rects) == (s, MouseAction::ScrollDown(i as usize)),
        ev.kind == MouseKind::ScrollUp ==> mouse_spec(s, ev, rects) == (s, MouseAction::ScrollUp(i as usize)),
{
    lemma_first_inside_is(rects, ev.col as int, ev.row as int, 0, i);
}

/// A wheel turn down never scrolls up, and a wheel turn up never scrolls
/// down; neither changes the mouse state.
pub proof fn a_wheel_turn_never_scrolls_the_other_way(s: DragState, ev: MouseInput, rects: Seq<Option<WindowRect>>)
    ensures
        ev.kind == MouseKind::ScrollDown ==> !(mouse_spec(s, ev, rects).1 is ScrollUp) && mouse_spec(s, ev, rects).0 == s,
        ev.kind == MouseKind::ScrollUp ==> !(mouse_spec(s, ev, rects).1 is ScrollDown) && mouse_spec(s, ev, rects).0 == s,
{
}

} // verus!
