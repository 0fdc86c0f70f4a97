//! Decisions the client core makes around layouts on screen.

use vstd::prelude::*;
use crate::config::layout::{normalize_spec, sat_sub, BaseView, Layout, LayoutView, with_base, base_of, WindowView};
use crate::named::{Duplicate, NamedMap};
use crate::text::owned;

verus! {

/// Where a window is drawn on screen, in terminal cells.
#[derive(Debug, Clone, Copy, PartialEq, Eq, Structural)]
pub struct WindowRect {
    pub x: u16,
    pub y: u16,
    pub width: u16,
    pub height: u16,
}

pub open spec fn min16(a: u16, b: u16) -> u16 {
    if a <= b {
        a
    } else {
        b
    }
}

pub open spec fn max16(a: u16, b: u16) -> u16 {
    if a >= b {
        a
    } else {
        b
    }
}

/// The geometry saved for a window drawn at `r` on a `tw` x `th`
/// terminal: the position is kept on screen, and the size is cut to the
/// room left but never below the window's minimum (1 when unset).
pub open spec fn captured(b: BaseView, r: WindowRect, tw: u16, th: u16) -> BaseView {
    let x = min16(r.x, sat_sub(tw, 1));
    let y = min16(r.y, sat_sub(th, 1));
    let min_w: u16 = match b.min_cols {
        Some(m) => m,
        None => 1,
    };
    let min_h: u16 = match b.min_rows {
        Some(m) => m,
        None => 1,
    };
    BaseView {
        col: x,
        row: y,
        cols: max16(min16(r.width, sat_sub(tw, x)), min_w),
        rows: max16(min16(r.height, sat_sub(th, y)), min_h),
        ..b
    }
}

/// A window after capture: windows drawn on screen take their drawn
/// geometry; the rest keep theirs.
pub open spec fn capture_window(w: WindowView, drawn: Map<Seq<char>, WindowRect>, tw: u16, th: u16) -> WindowView {
    if drawn.dom().contains(base_of(w).name) {
        with_base(w, captured(base_of(w), drawn[base_of(w).name], tw, th))
    } else {
        w
    }
}

fn min_u16(a: u16, b: u16) -> (r: u16)
    ensures
        r == min16(a, b),
{
    if a <= b {
        a
    } else {
        b
    }
}

fn max_u16(a: u16, b: u16) -> (r: u16)
    ensures
        r == max16(a, b),
{
    if a >= b {
        a
    } else {
        b
    }
}

/// Prepare a layout to be saved by name: each window drawn on screen
/// takes the geometry it is drawn with (kept within the terminal), the
/// active theme is recorded, the terminal size becomes the design size and
/// the windows are normalized. The caller writes the file.
pub fn save_layout(
    layout: &mut Layout,
    drawn: &NamedMap<WindowRect>,
    active_theme: &str,
    terminal_width: u16,
    terminal_height: u16,
)
    ensures
        final(layout)@ == (LayoutView {
            windows: normalize_spec(
                old(layout)@.windows.map_values(
                    |w: WindowView| capture_window(w, drawn@, terminal_width, terminal_height),
                ),
            ),
            terminal_width: Some(terminal_width),
            terminal_height: Some(terminal_height),
            theme: Some(active_theme@),
            ..old(layout)@
        }),
{
    let ghost ws0 = layout@.windows;
    let mut i: usize = 0;
    while i < layout.windows.len()
        invariant
            i <= layout.windows@.len(),
            layout.windows@.len() == ws0.len(),
            ws0 == old(layout)@.windows,
            layout.terminal_width == old(layout).terminal_width,
            layout.terminal_height == old(layout).terminal_height,
            layout.base_layout == old(layout).base_layout,
            layout.theme == old(layout).theme,
            forall|j: int|
                0 <= j < i ==> #[trigger] layout@.windows[j] == capture_window(
                    ws0[j],
                    drawn@,
                    terminal_width,
                    terminal_height,
                ),
            forall|j: int| i <= j < ws0.len() ==> #[trigger] layout@.windows[j] == ws0[j],
        decreases ws0.len() - i,
    {
        assert(layout@.windows[i as int] == ws0[i as int]);
        let found = drawn.get(layout.windows[i].name());
        if let Some(r) = found {
            let ob = layout.windows[i].base();
            let x = min_u16(r.x, terminal_width.saturating_sub(1));
            let y = min_u16(r.y, terminal_height.saturating_sub(1));
            let min_w: u16 = match ob.min_cols {
                Some(m) => m,
                None => 1,
            };
            let min_h: u16 = match ob.min_rows {
                Some(m) => m,
                None => 1,
            };
            let mut nb = ob.duplicate();
            nb.col = x;
            nb.row = y;
            nb.cols = max_u16(min_u16(r.width, terminal_width.saturating_sub(x)), min_w);
            nb.rows = max_u16(min_u16(r.height, terminal_height.saturating_sub(y)), min_h);
            let w = layout.windows[i].rebased(nb);
            let ghost before = layout.windows@;
            let ghost wv = layout@.windows;
            layout.windows.set(i, w);
            proof {
                assert forall|j: int| 0 <= j < wv.len() && j != i implies #[trigger] layout@.windows[j]
                    == wv[j] by {
                    assert(layout.windows@[j] == before[j]);
                }
                assert(layout@.windows[i as int] == w@);
            }
        }
        i = i + 1;
    }
    proof {
        let m = ws0.map_values(|w: WindowView| capture_window(w, drawn@, terminal_width, terminal_height));
        assert forall|j: int| 0 <= j < ws0.len() implies #[trigger] layout@.windows[j] == m[j] by {}
        assert(layout@.windows =~= m);
    }
    layout.theme = Some(owned(active_theme));
    layout.save(Some((terminal_width, terminal_height)), true);
}

/// A captured window starts on screen, and its size only exceeds the room
/// left when its minimum demands it.
pub proof fn captured_windows_fit_the_terminal(b: BaseView, r: WindowRect, tw: u16, th: u16)
    requires
        tw > 0,
        th > 0,
    ensures
        captured(b, r, tw, th).col < tw,
        captured(b, r, tw, th).row < th,
        captured(b, r, tw, th).col + captured(b, r, tw, th).cols <= tw || captured(b, r, tw, th).cols
            == match b.min_cols {
            Some(m) => m,
            None => 1u16,
        },
        captured(b, r, tw, th).row + captured(b, r, tw, th).rows <= th || captured(b, r, tw, th).rows
            == match b.min_rows {
            Some(m) => m,
            None => 1u16,
        },
{
}

/// A name for a new spacer in `layout` (see `Layout::generate_spacer_name`).
pub fn generate_spacer_name(layout: &Layout) -> (r: String)
    requires
        crate::config::layout::max_spacer(layout@.windows) < u32::MAX,
    ensures
        r@ == crate::config::layout::spacer_name(layout@.windows),
{
    layout.generate_spacer_name()
}

/// How long the layout must stay unchanged before it is saved
/// automatically, in milliseconds.
pub const LAYOUT_AUTOSAVE_DEBOUNCE_MS: u64 = 3000;

/// The automatic layout save's bookkeeping: when the layout last changed
/// (while a save is pending), and whether it changed since it was last
/// saved by name. Times are milliseconds on a monotonic clock.
#[derive(Debug, Clone, Copy, PartialEq, Eq, Structural)]
pub struct LayoutAutosave {
    pub pending_since: Option<u64>,
    pub modified_since_save: bool,
}

impl LayoutAutosave {
    /// Nothing pending, nothing modified.
    pub fn new() -> (r: Self)
        ensures
            r.pending_since is None,
            !r.modified_since_save,
    {
        LayoutAutosave { pending_since: None, modified_since_save: false }
    }

    /// The layout changed at `now_ms`: mark it modified and restart the
    /// wait before the automatic save.
    pub fn schedule_layout_autosave(&mut self, now_ms: u64)
        ensures
            final(self).pending_since == Some(now_ms),
            final(self).modified_since_save,
    {
        self.modified_since_save = true;
        self.pending_since = Some(now_ms);
    }

    /// Whether the automatic save is due: one is pending and the layout
    /// has not changed for the debounce time.
    pub fn is_due(&self, now_ms: u64) -> (r: bool)
        ensures
            r == match self.pending_since {
                Some(t) => crate::alerts::elapsed(now_ms, t) >= LAYOUT_AUTOSAVE_DEBOUNCE_MS,
                None => false,
            },
    {
        match self.pending_since {
            Some(t) => {
                let e = if now_ms >= t {
                    now_ms - t
                } else {
                    0
                };
                e >= LAYOUT_AUTOSAVE_DEBOUNCE_MS
            },
            None => false,
        }
    }
}

/// The profile a character's files live under: its name, else "default".
pub open spec fn profile_of(character: Option<Seq<char>>) -> Seq<char> {
    match character {
        Some(c) => c,
        None => "default"@,
    }
}

/// The terminal size a layout was designed for, when both sides are known.
pub open spec fn design_size(l: LayoutView) -> Option<(u16, u16)> {
    match (l.terminal_width, l.terminal_height) {
        (Some(w), Some(h)) => Some((w, h)),
        _ => None,
    }
}

/// The layout the automatic save derives from: the one in use, else the
/// layout's own record, else "default".
pub open spec fn autosave_base(in_use: Option<Seq<char>>, recorded: Option<Seq<char>>) -> Seq<char> {
    match in_use {
        Some(n) => n,
        None => match recorded {
            Some(n) => n,
            None => "default"@,
        },
    }
}

/// Prepares the profile's automatic layout save: the pending save is
/// done, the theme in use is recorded, and the layout is made ready with
/// the layout it derives from and its design size (see
/// `Layout::save_auto`). Returns the profile to save it under; the caller
/// writes the file.
pub fn autosave_layout(
    layout: &mut Layout,
    autosave: &mut LayoutAutosave,
    character: Option<&str>,
    base_layout_name: Option<&str>,
    active_theme: &str,
) -> (profile: String)
    ensures
        profile@ == profile_of(crate::config::paths::opt_view(character)),
        final(autosave).pending_since is None,
        final(autosave).modified_since_save == old(autosave).modified_since_save,
        final(layout)@ == (LayoutView {
            windows: normalize_spec(old(layout)@.windows),
            base_layout: Some(
                autosave_base(crate::config::paths::opt_view(base_layout_name), old(layout)@.base_layout),
            ),
            theme: Some(active_theme@),
            ..old(layout)@
        }),
{
    autosave.pending_since = None;
    let profile = match character {
        Some(c) => owned(c),
        None => owned("default"),
    };
    let terminal_size = match (layout.terminal_width, layout.terminal_height) {
        (Some(w), Some(h)) => Some((w, h)),
        _ => None,
    };
    let base = match base_layout_name {
        Some(n) => owned(n),
        None => match &layout.base_layout {
            Some(n) => n.clone(),
            None => owned("default"),
        },
    };
    layout.theme = Some(owned(active_theme));
    layout.save_auto(base.as_str(), terminal_size);
    profile
}


/// What follows a successful save of the layout under `name`: the layout
/// is no longer modified since its save, `name` becomes the layout it
/// derives from, and the arrangement is mirrored at once into the
/// profile's automatic save (see `autosave_layout`). Returns the profile to
/// write the automatic save under.
pub fn finish_layout_save(
    layout: &mut Layout,
    autosave: &mut LayoutAutosave,
    base_layout_name: &mut Option<String>,
    name: &str,
    character: Option<&str>,
    active_theme: &str,
) -> (profile: String)
    ensures
        profile@ == profile_of(crate::config::paths::opt_view(character)),
        !final(autosave).modified_since_save,
        final(autosave).pending_since is None,
        *final(base_layout_name) matches Some(n) && n@ == name@,
        final(layout)@ == (LayoutView {
            windows: normalize_spec(old(layout)@.windows),
            base_layout: Some(name@),
            theme: Some(active_theme@),
            ..old(layout)@
        }),
{
    autosave.modified_since_save = false;
    *base_layout_name = Some(owned(name));
    autosave_layout(layout, autosave, character, Some(name), active_theme)
}

} // verus!
