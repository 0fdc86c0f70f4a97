//! Layouts: the windows on screen, their geometry, and how they scale with
//! the terminal and get their names.

use vstd::prelude::*;
use crate::config::{Config, TimestampPosition};
use crate::config::colors::opt_view;
use crate::config::single_precision::{
    lemma_single_scaled_monotone, lemma_whole_scaling_is_exact, scale_single, single_scaled,
};
use crate::named::{dup_opt, Duplicate};
use crate::seqs::{first_index, lemma_filter_step, lemma_first_index, lemma_first_index_step};
use crate::text::{
    chars_of, concat2, decimal, lemma_decimal_reads_back, decimal_exec, ends_with, ends_with_exec, owned, parse_u32,
    parse_u32_spec, starts_with, starts_with_exec, str_eq, string_from_chars, subrange_chars,
    to_lowercase, unicode_lowercase,
};

verus! {

/// Which sides of a window's border are drawn.
#[derive(Debug, Clone, Copy, PartialEq, Eq, Structural)]
pub struct BorderSides {
    pub top: bool,
    pub bottom: bool,
    pub left: bool,
    pub right: bool,
}

impl Default for BorderSides {
    fn default() -> (r: Self)
        ensures
            r.top && r.bottom && r.left && r.right,
    {
        BorderSides { top: true, bottom: true, left: true, right: true }
    }
}

/// What every window has: its name, geometry and frame.
#[derive(Debug, Clone, PartialEq)]
pub struct WindowBase {
    pub name: String,
    pub row: u16,
    pub col: u16,
    pub rows: u16,
    pub cols: u16,
    pub show_border: bool,
    pub border_style: String,
    pub border_sides: BorderSides,
    pub border_color: Option<String>,
    pub show_title: bool,
    pub title: Option<String>,
    pub background_color: Option<String>,
    pub text_color: Option<String>,
    pub transparent_background: bool,
    pub locked: bool,
    pub min_rows: Option<u16>,
    pub max_rows: Option<u16>,
    pub min_cols: Option<u16>,
    pub max_cols: Option<u16>,
    pub visible: bool,
    pub content_align: Option<String>,
    pub title_position: String,
}

/// A window base with its strings taken by their views.
pub struct BaseView {
    pub name: Seq<char>,
    pub row: u16,
    pub col: u16,
    pub rows: u16,
    pub cols: u16,
    pub show_border: bool,
    pub border_style: Seq<char>,
    pub border_sides: BorderSides,
    pub border_color: Option<Seq<char>>,
    pub show_title: bool,
    pub title: Option<Seq<char>>,
    pub background_color: Option<Seq<char>>,
    pub text_color: Option<Seq<char>>,
    pub transparent_background: bool,
    pub locked: bool,
    pub min_rows: Option<u16>,
    pub max_rows: Option<u16>,
    pub min_cols: Option<u16>,
    pub max_cols: Option<u16>,
    pub visible: bool,
    pub content_align: Option<Seq<char>>,
    pub title_position: Seq<char>,
}

impl View for WindowBase {
    type V = BaseView;

    open spec fn view(&self) -> BaseView {
        BaseView {
            name: self.name@,
            row: self.row,
            col: self.col,
            rows: self.rows,
            cols: self.cols,
            show_border: self.show_border,
            border_style: self.border_style@,
            border_sides: self.border_sides,
            border_color: opt_view(self.border_color),
            show_title: self.show_title,
            title: opt_view(self.title),
            background_color: opt_view(self.background_color),
            text_color: opt_view(self.text_color),
            transparent_background: self.transparent_background,
            locked: self.locked,
            min_rows: self.min_rows,
            max_rows: self.max_rows,
            min_cols: self.min_cols,
            max_cols: self.max_cols,
            visible: self.visible,
            content_align: opt_view(self.content_align),
            title_position: self.title_position@,
        }
    }
}

impl Duplicate for WindowBase {
    fn duplicate(&self) -> (r: Self) {
        WindowBase {
            name: self.name.clone(),
            row: self.row,
            col: self.col,
            rows: self.rows,
            cols: self.cols,
            show_border: self.show_border,
            border_style: self.border_style.clone(),
            border_sides: self.border_sides,
            border_color: dup_opt(&self.border_color),
            show_title: self.show_title,
            title: dup_opt(&self.title),
            background_color: dup_opt(&self.background_color),
            text_color: dup_opt(&self.text_color),
            transparent_background: self.transparent_background,
            locked: self.locked,
            min_rows: self.min_rows,
            max_rows: self.max_rows,
            min_cols: self.min_cols,
            max_cols: self.max_cols,
            visible: self.visible,
            content_align: dup_opt(&self.content_align),
            title_position: self.title_position.clone(),
        }
    }
}

/// Settings of a text window.
#[derive(Debug, Clone, PartialEq)]
pub struct TextWidgetData {
    /// Streams routed to the window.
    pub streams: Vec<String>,
    pub buffer_size: usize,
    pub wordwrap: bool,
    pub show_timestamps: bool,
    pub timestamp_position: Option<TimestampPosition>,
    pub compact: bool,
}

impl TextWidgetData {
    /// A copy with the same view.
    pub fn duplicate(&self) -> (r: Self)
        ensures
            r@ == self@,
    {
        let mut streams: Vec<String> = Vec::new();
        let mut i: usize = 0;
        while i < self.streams.len()
            invariant
                i <= self.streams@.len(),
                streams@ == self.streams@.take(i as int),
            decreases self.streams@.len() - i,
        {
            streams.push(self.streams[i].clone());
            i = i + 1;
            assert(streams@ =~= self.streams@.take(i as int));
        }
        assert(streams@ =~= self.streams@);
        assert(streams@.map_values(|s: String| s@) =~= self.streams@.map_values(|s: String| s@));
        TextWidgetData {
            streams,
            buffer_size: self.buffer_size,
            wordwrap: self.wordwrap,
            show_timestamps: self.show_timestamps,
            timestamp_position: self.timestamp_position,
            compact: self.compact,
        }
    }
}

/// A text window's settings with strings taken by their views.
pub struct TextView {
    pub streams: Seq<Seq<char>>,
    pub buffer_size: usize,
    pub wordwrap: bool,
    pub show_timestamps: bool,
    pub timestamp_position: Option<TimestampPosition>,
    pub compact: bool,
}

impl View for TextWidgetData {
    type V = TextView;

    open spec fn view(&self) -> TextView {
        TextView {
            streams: self.streams@.map_values(|s: String| s@),
            buffer_size: self.buffer_size,
            wordwrap: self.wordwrap,
            show_timestamps: self.show_timestamps,
            timestamp_position: self.timestamp_position,
            compact: self.compact,
        }
    }
}

/// A spacer holds no settings of its own.
#[derive(Debug, Clone, Copy, PartialEq, Eq, Structural)]
pub struct SpacerWidgetData {}

/// A window of the layout: its kind, with the settings that kind has.
#[derive(Debug, Clone, PartialEq)]
pub enum WindowDef {
    Text { base: WindowBase, data: TextWidgetData },
    Spacer { base: WindowBase, data: SpacerWidgetData },
}

/// A window with its strings taken by their views.
pub enum WindowView {
    Text { base: BaseView, data: TextView },
    Spacer { base: BaseView },
}

impl View for WindowDef {
    type V = WindowView;

    open spec fn view(&self) -> WindowView {
        match self {
            WindowDef::Text { base, data } => WindowView::Text { base: base@, data: data@ },
            WindowDef::Spacer { base, .. } => WindowView::Spacer { base: base@ },
        }
    }
}

impl WindowDef {
    /// A copy with the same view.
    pub fn duplicate(&self) -> (r: Self)
        ensures
            r@ == self@,
    {
        match self {
            WindowDef::Text { base, data } => WindowDef::Text {
                base: base.duplicate(),
                data: data.duplicate(),
            },
            WindowDef::Spacer { base, data } => WindowDef::Spacer { base: base.duplicate(), data: *data },
        }
    }
}

/// The base of any window.
pub open spec fn base_of(w: WindowView) -> BaseView {
    match w {
        WindowView::Text { base, .. } => base,
        WindowView::Spacer { base } => base,
    }
}

/// The window with its base replaced.
pub open spec fn with_base(w: WindowView, b: BaseView) -> WindowView {
    match w {
        WindowView::Text { data, .. } => WindowView::Text { base: b, data },
        WindowView::Spacer { .. } => WindowView::Spacer { base: b },
    }
}

/// The widget type name of a window.
pub open spec fn kind_name(w: WindowView) -> Seq<char> {
    match w {
        WindowView::Text { .. } => "text"@,
        WindowView::Spacer { .. } => "spacer"@,
    }
}

impl WindowDef {
    pub fn base(&self) -> (r: &WindowBase)
        ensures
            r@ == base_of(self@),
    {
        match self {
            WindowDef::Text { base, .. } => base,
            WindowDef::Spacer { base, .. } => base,
        }
    }

    pub fn name(&self) -> (r: &str)
        ensures
            r@ == base_of(self@).name,
    {
        self.base().name.as_str()
    }

    pub fn widget_type(&self) -> (r: &'static str)
        ensures
            r@ == kind_name(self@),
    {
        match self {
            WindowDef::Text { .. } => "text",
            WindowDef::Spacer { .. } => "spacer",
        }
    }

    /// This window with `b` as its base; the settings are kept.
    pub(crate) fn rebased(&self, b: WindowBase) -> (r: WindowDef)
        ensures
            r@ == with_base(self@, b@),
    {
        match self {
            WindowDef::Text { data, .. } => WindowDef::Text { base: b, data: data.duplicate() },
            WindowDef::Spacer { data, .. } => WindowDef::Spacer { base: b, data: *data },
        }
    }
}

/// A saved arrangement of windows.
#[derive(Debug, Clone, PartialEq)]
pub struct Layout {
    pub windows: Vec<WindowDef>,
    /// The terminal width the layout was designed for.
    pub terminal_width: Option<u16>,
    /// The terminal height the layout was designed for.
    pub terminal_height: Option<u16>,
    /// The layout this one was derived from.
    pub base_layout: Option<String>,
    /// Theme in use when the layout was saved.
    pub theme: Option<String>,
}

/// A layout with its strings taken by their views.
pub struct LayoutView {
    pub windows: Seq<WindowView>,
    pub terminal_width: Option<u16>,
    pub terminal_height: Option<u16>,
    pub base_layout: Option<Seq<char>>,
    pub theme: Option<Seq<char>>,
}

impl View for Layout {
    type V = LayoutView;

    open spec fn view(&self) -> LayoutView {
        LayoutView {
            windows: self.windows@.map_values(|w: WindowDef| w@),
            terminal_width: self.terminal_width,
            terminal_height: self.terminal_height,
            base_layout: opt_view(self.base_layout),
            theme: opt_view(self.theme),
        }
    }
}

/// Layout settings of the settings file (all geometry lives in layouts).
#[derive(Debug, Clone, Copy, PartialEq, Eq, Structural)]
pub struct LayoutConfig {}

/// Why a layout change was refused.
#[derive(Debug, Clone, Copy, PartialEq, Eq, Structural)]
pub enum LayoutError {
    /// No window template has the requested name.
    UnknownTemplate,
    /// No window of the layout has the requested name.
    WindowNotFound,
}

/// `v` scaled by `new_size / base` in single precision and rounded to a
/// whole number (halves away from zero), saturating at the largest `u16`.
pub open spec fn scale_dim(v: u16, new_size: u16, base: u16) -> u16 {
    let q = single_scaled(v as nat, new_size as nat, base as nat);
    if q > 65535 {
        65535
    } else {
        q as u16
    }
}

/// A scaled size: at least 1, then raised to `min` and lowered to `max`
/// where set.
pub open spec fn clamp_size(v: u16, min: Option<u16>, max: Option<u16>) -> u16 {
    let a: u16 = if v < 1 {
        1
    } else {
        v
    };
    let b: u16 = match min {
        Some(m) => if a < m {
            m
        } else {
            a
        },
        None => a,
    };
    match max {
        Some(m) => if b > m {
            m
        } else {
            b
        },
        None => b,
    }
}

/// A window base scaled from a `base_w` x `base_h` terminal to
/// `new_w` x `new_h`.
pub open spec fn scaled(b: BaseView, new_w: u16, new_h: u16, base_w: u16, base_h: u16) -> BaseView {
    BaseView {
        col: scale_dim(b.col, new_w, base_w),
        row: scale_dim(b.row, new_h, base_h),
        cols: clamp_size(scale_dim(b.cols, new_w, base_w), b.min_cols, b.max_cols),
        rows: clamp_size(scale_dim(b.rows, new_h, base_h), b.min_rows, b.max_rows),
        ..b
    }
}

fn scale_dim_exec(v: u16, new_size: u16, base: u16) -> (r: u16)
    requires
        base > 0,
    ensures
        r == scale_dim(v, new_size, base),
{
    let q = scale_single(v, new_size, base);
    if q > 65535 {
        65535
    } else {
        q as u16
    }
}

fn clamp_size_exec(v: u16, min: Option<u16>, max: Option<u16>) -> (r: u16)
    ensures
        r == clamp_size(v, min, max),
{
    let mut x: u16 = if v < 1 {
        1
    } else {
        v
    };
    if let Some(m) = min {
        if x < m {
            x = m;
        }
    }
    if let Some(m) = max {
        if x > m {
            x = m;
        }
    }
    x
}

/// The number in a spacer's name `spacer_N`, if it is a spacer so named.
pub open spec fn spacer_number(w: WindowView) -> Option<u32> {
    match w {
        WindowView::Spacer { base } => if starts_with(base.name, "spacer_"@) {
            parse_u32_spec(base.name.skip(7))
        } else {
            None
        },
        WindowView::Text { .. } => None,
    }
}

/// The number after `prefix` in a window's name, if it has one.
pub open spec fn suffix_number(w: WindowView, prefix: Seq<char>) -> Option<u32> {
    let name = base_of(w).name;
    if starts_with(name, prefix) {
        parse_u32_spec(name.skip(prefix.len() as int))
    } else {
        None
    }
}

/// The largest of the numbers, 0 when there is none.
pub open spec fn max_number(s: Seq<WindowView>, num: spec_fn(WindowView) -> Option<u32>) -> nat
    decreases s.len(),
{
    if s.len() == 0 {
        0
    } else {
        let rest = max_number(s.drop_last(), num);
        match num(s.last()) {
            Some(n) => if n > rest {
                n as nat
            } else {
                rest
            },
            None => rest,
        }
    }
}

/// `spacer_number` as a function value.
pub open spec fn spacer_num() -> spec_fn(WindowView) -> Option<u32> {
    |w: WindowView| spacer_number(w)
}

/// The largest spacer number.
pub open spec fn max_spacer(s: Seq<WindowView>) -> nat {
    max_number(s, spacer_num())
}

/// The name a new spacer gets: one past the largest spacer number.
pub open spec fn spacer_name(s: Seq<WindowView>) -> Seq<char> {
    "spacer_"@ + decimal(max_spacer(s) + 1)
}

/// A lowercased widget type without a trailing `_custom`.
pub open spec fn strip_custom(lower: Seq<char>) -> Seq<char> {
    if ends_with(lower, "_custom"@) {
        lower.take(lower.len() - 7)
    } else {
        lower
    }
}

/// A widget type lowercased, without a trailing `_custom`.
pub open spec fn normalized_type(widget_type: Seq<char>) -> Seq<char> {
    strip_custom(unicode_lowercase(widget_type))
}

/// The name prefix of custom widgets of a lowercased type.
pub open spec fn prefix_for(lower: Seq<char>) -> Seq<char> {
    "custom-"@ + strip_custom(lower) + "-"@
}

/// The name prefix of custom widgets of a type.
pub open spec fn custom_prefix(widget_type: Seq<char>) -> Seq<char> {
    prefix_for(unicode_lowercase(widget_type))
}

/// `suffix_number` after a prefix, as a function value.
pub open spec fn suffix_num(prefix: Seq<char>) -> spec_fn(WindowView) -> Option<u32> {
    |w: WindowView| suffix_number(w, prefix)
}

/// The largest number any window carries after the prefix of a
/// lowercased type.
pub open spec fn max_custom_lowered(s: Seq<WindowView>, lower: Seq<char>) -> nat {
    max_number(s, suffix_num(prefix_for(lower)))
}

/// The largest number any window carries after the type's prefix.
pub open spec fn max_custom(s: Seq<WindowView>, widget_type: Seq<char>) -> nat {
    max_custom_lowered(s, unicode_lowercase(widget_type))
}

/// The name a new custom widget of a lowercased type gets.
pub open spec fn widget_name_lowered(s: Seq<WindowView>, lower: Seq<char>) -> Seq<char> {
    prefix_for(lower) + decimal(max_custom_lowered(s, lower) + 1)
}

/// The name a new custom widget gets: one past that largest number.
pub open spec fn widget_name(s: Seq<WindowView>, widget_type: Seq<char>) -> Seq<char> {
    widget_name_lowered(s, unicode_lowercase(widget_type))
}

proof fn lemma_max_number_step(s: Seq<WindowView>, num: spec_fn(WindowView) -> Option<u32>, i: int)
    requires
        0 <= i < s.len(),
    ensures
        max_number(s.take(i + 1), num) == match num(s[i]) {
            Some(n) => if n > max_number(s.take(i), num) {
                n as nat
            } else {
                max_number(s.take(i), num)
            },
            None => max_number(s.take(i), num),
        },
{
    assert(s.take(i + 1).drop_last() =~= s.take(i));
    assert(s.take(i + 1).last() == s[i]);
}

proof fn lemma_max_number_bound(s: Seq<WindowView>, num: spec_fn(WindowView) -> Option<u32>)
    ensures
        max_number(s, num) <= u32::MAX,
    decreases s.len(),
{
    if s.len() > 0 {
        lemma_max_number_bound(s.drop_last(), num);
    }
}

/// Windows named `name`.
pub open spec fn named(name: Seq<char>) -> spec_fn(WindowView) -> bool {
    |w: WindowView| base_of(w).name == name
}

/// The spacer template: unnamed (the layout names it), 2 x 2, no border
/// or title, drawn on the theme background, visible.
pub open spec fn spacer_template() -> WindowView {
    WindowView::Spacer {
        base: BaseView {
            name: Seq::empty(),
            row: 0,
            col: 0,
            rows: 2,
            cols: 2,
            show_border: false,
            border_style: "single"@,
            border_sides: BorderSides { top: true, bottom: true, left: true, right: true },
            border_color: None,
            show_title: false,
            title: None,
            background_color: None,
            text_color: None,
            transparent_background: false,
            locked: false,
            min_rows: None,
            max_rows: None,
            min_cols: None,
            max_cols: None,
            visible: true,
            content_align: None,
            title_position: "top-left"@,
        },
    }
}

/// The built-in template of a window, by template name.
pub open spec fn template_of(name: Seq<char>) -> Option<WindowView> {
    if name == "spacer"@ {
        Some(spacer_template())
    } else {
        None
    }
}

impl Config {
    /// The built-in template with this name.
    pub fn get_window_template(name: &str) -> (r: Option<WindowDef>)
        ensures
            match r {
                Some(w) => template_of(name@) == Some(w@),
                None => template_of(name@) is None,
            },
    {
        if str_eq(name, "spacer") {
            let base = WindowBase {
                name: String::new(),
                row: 0,
                col: 0,
                rows: 2,
                cols: 2,
                show_border: false,
                border_style: owned("single"),
                border_sides: BorderSides::default(),
                border_color: None,
                show_title: false,
                title: None,
                background_color: None,
                text_color: None,
                transparent_background: false,
                locked: false,
                min_rows: None,
                max_rows: None,
                min_cols: None,
                max_cols: None,
                visible: true,
                content_align: None,
                title_position: owned("top-left"),
            };
            Some(WindowDef::Spacer { base, data: SpacerWidgetData {} })
        } else {
            None
        }
    }

    /// Names of all built-in templates.
    pub fn list_window_templates() -> (r: Vec<String>)
        ensures
            r@.map_values(|s: String| s@) == seq!["spacer"@],
    {
        let mut r: Vec<String> = Vec::new();
        r.push(owned("spacer"));
        assert(r@.map_values(|s: String| s@) =~= seq!["spacer"@]);
        r
    }
}

/// The window with its visibility set.
pub open spec fn set_visible(w: WindowView, visible: bool) -> WindowView {
    with_base(w, BaseView { visible, ..base_of(w) })
}

/// The windows after `add_window(name)`: an existing window of that name
/// is made visible; otherwise the template of that name is added, visible,
/// and named automatically if the template has no name of its own.
pub open spec fn add_window_spec(ws: Seq<WindowView>, name: Seq<char>) -> Result<
    Seq<WindowView>,
    LayoutError,
> {
    match first_index(ws, named(name)) {
        Some(i) => Ok(ws.update(i, set_visible(ws[i], true))),
        None => match template_of(name) {
            None => Err(LayoutError::UnknownTemplate),
            Some(t) => {
                let t2 = if base_of(t).name.len() == 0 {
                    with_base(
                        t,
                        BaseView {
                            name: if name == "spacer"@ {
                                spacer_name(ws)
                            } else {
                                widget_name(ws, name)
                            },
                            ..base_of(t)
                        },
                    )
                } else {
                    t
                };
                Ok(ws.push(set_visible(t2, true)))
            },
        },
    }
}

/// The windows after `hide_window(name)`.
pub open spec fn hide_window_spec(ws: Seq<WindowView>, name: Seq<char>) -> Result<
    Seq<WindowView>,
    LayoutError,
> {
    match first_index(ws, named(name)) {
        Some(i) => Ok(ws.update(i, set_visible(ws[i], false))),
        None => Err(LayoutError::WindowNotFound),
    }
}

/// The windows after scaling every one from `base_w` x `base_h` to
/// `new_w` x `new_h`.
pub open spec fn scale_windows(
    ws: Seq<WindowView>,
    new_w: u16,
    new_h: u16,
    base_w: u16,
    base_h: u16,
) -> Seq<WindowView> {
    ws.map_values(|w: WindowView| with_base(w, scaled(base_of(w), new_w, new_h, base_w, base_h)))
}

/// A layout scaled to a new terminal size, from the size it was designed
/// for (the new size where unknown); a zero design size leaves it as it is.
pub open spec fn scale_layout(l: LayoutView, new_w: u16, new_h: u16) -> LayoutView {
    let bw = match l.terminal_width {
        Some(w) => w,
        None => new_w,
    };
    let bh = match l.terminal_height {
        Some(h) => h,
        None => new_h,
    };
    if bw == 0 || bh == 0 {
        l
    } else {
        LayoutView {
            windows: scale_windows(l.windows, new_w, new_h, bw, bh),
            terminal_width: Some(new_w),
            terminal_height: Some(new_h),
            ..l
        }
    }
}

/// The number after `prefix` in `name`, parsed as `u32`.
fn number_after(name: &Vec<char>, prefix: &Vec<char>) -> (r: Option<u32>)
    ensures
        r == if starts_with(name@, prefix@) {
            parse_u32_spec(name@.skip(prefix@.len() as int))
        } else {
            None
        },
{
    if starts_with_exec(name, prefix) {
        let rest = subrange_chars(name, prefix.len(), name.len());
        assert(rest@ =~= name@.skip(prefix@.len() as int));
        parse_u32(&rest)
    } else {
        None
    }
}


/// Equality of optional strings by view.
fn opt_str_eq(a: &Option<String>, b: &Option<String>) -> (r: bool)
    ensures
        r == (opt_view(*a) == opt_view(*b)),
{
    match (a, b) {
        (Some(x), Some(y)) => str_eq(x.as_str(), y.as_str()),
        (None, None) => true,
        _ => false,
    }
}

fn base_eq(a: &WindowBase, b: &WindowBase) -> (r: bool)
    ensures
        r == (a@ == b@),
{
    str_eq(a.name.as_str(), b.name.as_str()) && a.row == b.row && a.col == b.col && a.rows
        == b.rows && a.cols == b.cols && a.show_border == b.show_border && str_eq(
        a.border_style.as_str(),
        b.border_style.as_str(),
    ) && a.border_sides == b.border_sides && opt_str_eq(&a.border_color, &b.border_color)
        && a.show_title == b.show_title && opt_str_eq(&a.title, &b.title) && opt_str_eq(
        &a.background_color,
        &b.background_color,
    ) && opt_str_eq(&a.text_color, &b.text_color) && a.transparent_background
        == b.transparent_background && a.locked == b.locked && a.min_rows == b.min_rows
        && a.max_rows == b.max_rows && a.min_cols == b.min_cols && a.max_cols == b.max_cols
        && a.visible == b.visible && opt_str_eq(&a.content_align, &b.content_align) && str_eq(
        a.title_position.as_str(),
        b.title_position.as_str(),
    )
}

fn strings_eq(a: &Vec<String>, b: &Vec<String>) -> (r: bool)
    ensures
        r == (a@.map_values(|s: String| s@) == b@.map_values(|s: String| s@)),
{
    if a.len() != b.len() {
        proof {
            assert(a@.map_values(|s: String| s@).len() != b@.map_values(|s: String| s@).len());
        }
        return false;
    }
    let mut i: usize = 0;
    while i < a.len()
        invariant
            a@.len() == b@.len(),
            i <= a@.len(),
            forall|j: int| 0 <= j < i ==> (#[trigger] a@[j])@ == b@[j]@,
        decreases a@.len() - i,
    {
        if !str_eq(a[i].as_str(), b[i].as_str()) {
            proof {
                assert(a@.map_values(|s: String| s@)[i as int] != b@.map_values(|s: String| s@)[i as int]);
            }
            return false;
        }
        i = i + 1;
    }
    assert(a@.map_values(|s: String| s@) =~= b@.map_values(|s: String| s@));
    true
}

fn window_eq(a: &WindowDef, b: &WindowDef) -> (r: bool)
    ensures
        r == (a@ == b@),
{
    match (a, b) {
        (WindowDef::Text { base: ba, data: da }, WindowDef::Text { base: bb, data: db }) => {
            base_eq(ba, bb) && strings_eq(&da.streams, &db.streams) && da.buffer_size
                == db.buffer_size && da.wordwrap == db.wordwrap && da.show_timestamps
                == db.show_timestamps && da.timestamp_position == db.timestamp_position
                && da.compact == db.compact
        },
        (WindowDef::Spacer { base: ba, .. }, WindowDef::Spacer { base: bb, .. }) => base_eq(ba, bb),
        _ => false,
    }
}

/// A window that is exactly the template it was made from.
pub open spec fn is_unmodified(w: WindowView, name: Seq<char>, t: WindowView) -> bool {
    base_of(w).name == name && w == t
}

/// Windows other than unmodified copies of the template `t` named `name`.
pub open spec fn keep_modified(name: Seq<char>, t: WindowView) -> spec_fn(WindowView) -> bool {
    |w: WindowView| !is_unmodified(w, name, t)
}

/// The windows after `remove_window_if_default(name)`.
pub open spec fn remove_default_spec(ws: Seq<WindowView>, name: Seq<char>) -> Seq<WindowView> {
    match template_of(name) {
        Some(t) => ws.filter(keep_modified(name, t)),
        None => ws,
    }
}

/// "-" (no color) where a color is unset.
pub open spec fn dash_if_none(o: Option<Seq<char>>) -> Option<Seq<char>> {
    match o {
        Some(c) => Some(c),
        None => Some("-"@),
    }
}

/// A window as saved: unset background, border and text colors written as
/// "-" so transparency survives a reload.
pub open spec fn normalized(w: WindowView) -> WindowView {
    let b = base_of(w);
    with_base(
        w,
        BaseView {
            background_color: dash_if_none(b.background_color),
            border_color: dash_if_none(b.border_color),
            text_color: dash_if_none(b.text_color),
            ..b
        },
    )
}

/// The window is a spacer.
pub open spec fn is_spacer(w: WindowView) -> bool {
    w is Spacer
}

/// Windows that are not spacers.
pub open spec fn not_spacer() -> spec_fn(WindowView) -> bool {
    |w: WindowView| !is_spacer(w)
}

/// Spacer windows.
pub open spec fn spacer_only() -> spec_fn(WindowView) -> bool {
    |w: WindowView| is_spacer(w)
}

/// The windows as saved: normalized, spacers moved last, otherwise in
/// their order.
pub open spec fn normalize_spec(ws: Seq<WindowView>) -> Seq<WindowView> {
    let m = ws.map_values(|w: WindowView| normalized(w));
    m.filter(not_spacer()) + m.filter(spacer_only())
}

/// The design size a save records.
pub open spec fn saved_size(
    l: LayoutView,
    terminal_size: Option<(u16, u16)>,
    force_terminal_size: bool,
) -> (Option<u16>, Option<u16>) {
    if force_terminal_size || l.terminal_width is None || l.terminal_height is None {
        match terminal_size {
            Some((w, h)) => (Some(w), Some(h)),
            None => (l.terminal_width, l.terminal_height),
        }
    } else {
        (l.terminal_width, l.terminal_height)
    }
}

/// The custom-widget prefix of a lowercased type, as characters.
fn custom_prefix_chars(lower_type: &str) -> (r: Vec<char>)
    ensures
        r@ == prefix_for(lower_type@),
{
    let lower = chars_of(lower_type);
    let suffix = chars_of("_custom");
    proof {
        reveal_strlit("_custom");
    }
    let normalized = if ends_with_exec(&lower, &suffix) {
        subrange_chars(&lower, 0, lower.len() - 7)
    } else {
        lower
    };
    assert(normalized@ == strip_custom(lower_type@));
    concat2(&concat2(&chars_of("custom-"), &normalized), &chars_of("-"))
}

impl Layout {
    /// Index of the first window named `name`.
    fn find_window(&self, name: &str) -> (r: Option<usize>)
        ensures
            match r {
                Some(i) => i < self.windows@.len() && first_index(self@.windows, named(name@))
                    == Some(i as int),
                None => first_index(self@.windows, named(name@)) is None,
            },
    {
        let ghost p = named(name@);
        let mut i: usize = 0;
        while i < self.windows.len()
            invariant
                i <= self.windows@.len(),
                p == named(name@),
                first_index(self@.windows.take(i as int), p) is None,
            decreases self.windows@.len() - i,
        {
            proof {
                lemma_first_index_step(self@.windows, p, i as int);
            }
            if str_eq(self.windows[i].name(), name) {
                return Some(i);
            }
            i = i + 1;
        }
        proof {
            assert(self@.windows.take(i as int) =~= self@.windows);
        }
        None
    }

    /// The first window named `name`.
    pub fn get_window(&self, name: &str) -> (r: Option<&WindowDef>)
        ensures
            match first_index(self@.windows, named(name@)) {
                Some(i) => r matches Some(w) && w@ == self@.windows[i],
                None => r is None,
            },
    {
        match self.find_window(name) {
            Some(i) => Some(&self.windows[i]),
            None => None,
        }
    }

    /// A name for a new spacer: `spacer_N` with N one past the largest
    /// spacer number in use (hidden spacers included).
    pub fn generate_spacer_name(&self) -> (r: String)
        requires
            max_spacer(self@.windows) < u32::MAX,
        ensures
            r@ == spacer_name(self@.windows),
    {
        let prefix = chars_of("spacer_");
        let mut max: u32 = 0;
        let mut i: usize = 0;
        while i < self.windows.len()
            invariant
                i <= self.windows@.len(),
                prefix@ == "spacer_"@,
                max == max_number(self@.windows.take(i as int), spacer_num()),
            decreases self.windows@.len() - i,
        {
            proof {
                lemma_max_number_step(self@.windows, spacer_num(), i as int);
                reveal_strlit("spacer_");
            }
            let n = match &self.windows[i] {
                WindowDef::Spacer { base, .. } => number_after(&chars_of(base.name.as_str()), &prefix),
                WindowDef::Text { .. } => None,
            };
            if let Some(v) = n {
                if v > max {
                    max = v;
                }
            }
            i = i + 1;
        }
        proof {
            assert(self@.windows.take(i as int) =~= self@.windows);
        }
        let digits = decimal_exec((max as u64) + 1);
        let name = concat2(&prefix, &digits);
        string_from_chars(name.as_slice())
    }

    /// A name for a new custom widget of a type: `custom-{type}-N`, the
    /// type lowercased without a `_custom` suffix, N one past the largest
    /// number any window carries after that prefix.
    pub fn generate_widget_name(&self, widget_type: &str) -> (r: String)
        requires
            max_custom(self@.windows, widget_type@) < u32::MAX,
        ensures
            r@ == widget_name(self@.windows, widget_type@),
    {
        let lower = to_lowercase(widget_type);
        self.generate_widget_name_lowered(lower.as_str())
    }

    /// `generate_widget_name` for a widget type already lowercased.
    pub fn generate_widget_name_lowered(&self, lower_type: &str) -> (r: String)
        requires
            max_custom_lowered(self@.windows, lower_type@) < u32::MAX,
        ensures
            r@ == widget_name_lowered(self@.windows, lower_type@),
    {
        let prefix = custom_prefix_chars(lower_type);
        let max = self.custom_number_in_use(lower_type);
        let digits = decimal_exec((max as u64) + 1);
        let name = concat2(&prefix, &digits);
        string_from_chars(name.as_slice())
    }

    /// The largest number a window carries after the custom-widget prefix
    /// of a lowercased type (0 when none does).
    pub fn custom_number_in_use(&self, lower_type: &str) -> (r: u32)
        ensures
            r == max_custom_lowered(self@.windows, lower_type@),
    {
        let prefix = custom_prefix_chars(lower_type);
        let ghost num = suffix_num(prefix_for(lower_type@));
        let mut max: u32 = 0;
        let mut i: usize = 0;
        while i < self.windows.len()
            invariant
                i <= self.windows@.len(),
                prefix@ == prefix_for(lower_type@),
                num == suffix_num(prefix_for(lower_type@)),
                max == max_number(self@.windows.take(i as int), num),
            decreases self.windows@.len() - i,
        {
            proof {
                lemma_max_number_step(self@.windows, num, i as int);
            }
            let n = number_after(&chars_of(self.windows[i].name()), &prefix);
            if let Some(v) = n {
                if v > max {
                    max = v;
                }
            }
            i = i + 1;
        }
        proof {
            assert(self@.windows.take(i as int) =~= self@.windows);
        }
        max
    }

    /// A name for a new custom widget of a type (see
    /// `generate_widget_name`), or `None` when the numbers in use leave no
    /// next one.
    pub fn try_generate_widget_name(&self, widget_type: &str) -> (r: Option<String>)
        ensures
            r is None <==> max_custom(self@.windows, widget_type@) >= u32::MAX,
            r matches Some(n) ==> n@ == widget_name(self@.windows, widget_type@),
    {
        let lower = to_lowercase(widget_type);
        if self.custom_number_in_use(lower.as_str()) == u32::MAX {
            return None;
        }
        Some(self.generate_widget_name_lowered(lower.as_str()))
    }

    /// The window at `i` with its visibility set.
    fn set_window_visible(&mut self, i: usize, visible: bool)
        requires
            i < old(self).windows@.len(),
        ensures
            final(self)@ == (LayoutView {
                windows: old(self)@.windows.update(
                    i as int,
                    set_visible(old(self)@.windows[i as int], visible),
                ),
                ..old(self)@
            }),
    {
        let mut b = self.windows[i].base().duplicate();
        b.visible = visible;
        let w = self.windows[i].rebased(b);
        self.windows.set(i, w);
        proof {
            assert(self@.windows =~= old(self)@.windows.update(
                i as int,
                set_visible(old(self)@.windows[i as int], visible),
            ));
        }
    }

    /// Add a window: show the window of that name if the layout has one,
    /// else add it from its template, visible, naming unnamed templates
    /// automatically (spacers by number, other widgets by type).
    pub fn add_window(&mut self, name: &str) -> (r: Result<(), LayoutError>)
        requires
            name@ == "spacer"@ ==> max_spacer(old(self)@.windows) < u32::MAX,
        ensures
            match add_window_spec(old(self)@.windows, name@) {
                Ok(ws) => r is Ok && final(self)@ == (LayoutView { windows: ws, ..old(self)@ }),
                Err(e) => r == Err::<(), LayoutError>(e) && final(self)@ == old(self)@,
            },
    {
        match self.find_window(name) {
            Some(i) => {
                self.set_window_visible(i, true);
                Ok(())
            },
            None => {
                let template = match Config::get_window_template(name) {
                    Some(t) => t,
                    None => return Err(LayoutError::UnknownTemplate),
                };
                let mut b = template.base().duplicate();
                if b.name.as_str().is_empty() {
                    let auto_name = if str_eq(name, "spacer") {
                        self.generate_spacer_name()
                    } else {
                        self.generate_widget_name(name)
                    };
                    b.name = auto_name;
                }
                b.visible = true;
                let w = template.rebased(b);
                self.windows.push(w);
                proof {
                    assert(self@.windows =~= add_window_spec(old(self)@.windows, name@)->Ok_0);
                }
                Ok(())
            },
        }
    }

    /// Hide the window of that name.
    pub fn hide_window(&mut self, name: &str) -> (r: Result<(), LayoutError>)
        ensures
            match hide_window_spec(old(self)@.windows, name@) {
                Ok(ws) => r is Ok && final(self)@ == (LayoutView { windows: ws, ..old(self)@ }),
                Err(e) => r == Err::<(), LayoutError>(e) && final(self)@ == old(self)@,
            },
    {
        match self.find_window(name) {
            Some(i) => {
                self.set_window_visible(i, false);
                Ok(())
            },
            None => Err(LayoutError::WindowNotFound),
        }
    }

    /// Scale every window proportionally to a new terminal size, from the
    /// size the layout was designed for (the new size when unknown).
    /// Positions and sizes are multiplied by the single-precision ratio of
    /// new to old size and rounded (see `scale_dim`); sizes are at least 1
    /// and respect each window's limits. A zero design size leaves the layout as it is.
    pub fn scale_to_terminal_size(&mut self, new_width: u16, new_height: u16)
        ensures
            final(self)@ == scale_layout(old(self)@, new_width, new_height),
    {
        let bw: u16 = match self.terminal_width {
            Some(w) => w,
            None => new_width,
        };
        let bh: u16 = match self.terminal_height {
            Some(h) => h,
            None => new_height,
        };
        if bw == 0 || bh == 0 {
            return;
        }
        let ghost ws0 = self@.windows;
        let mut i: usize = 0;
        while i < self.windows.len()
            invariant
                bw > 0 && bh > 0,
                i <= self.windows@.len(),
                self.windows@.len() == ws0.len(),
                self.terminal_width == old(self).terminal_width,
                self.terminal_height == old(self).terminal_height,
                self.base_layout == old(self).base_layout,
                self.theme == old(self).theme,
                ws0 == old(self)@.windows,
                forall|j: int|
                    0 <= j < i ==> #[trigger] self@.windows[j] == with_base(
                        ws0[j],
                        scaled(base_of(ws0[j]), new_width, new_height, bw, bh),
                    ),
                forall|j: int| i <= j < ws0.len() ==> #[trigger] self@.windows[j] == ws0[j],
            decreases ws0.len() - i,
        {
            assert(self@.windows[i as int] == ws0[i as int]);
            let ob = self.windows[i].base();
            assert(ob@ == base_of(ws0[i as int]));
            let mut nb = ob.duplicate();
            nb.col = scale_dim_exec(ob.col, new_width, bw);
            nb.row = scale_dim_exec(ob.row, new_height, bh);
            nb.cols = clamp_size_exec(scale_dim_exec(ob.cols, new_width, bw), ob.min_cols, ob.max_cols);
            nb.rows = clamp_size_exec(scale_dim_exec(ob.rows, new_height, bh), ob.min_rows, ob.max_rows);
            let w = self.windows[i].rebased(nb);
            let ghost before = self.windows@;
            let ghost wv = self@.windows;
            self.windows.set(i, w);
            proof {
                assert forall|j: int| 0 <= j < wv.len() && j != i implies #[trigger] self@.windows[j]
                    == wv[j] by {
                    assert(self.windows@[j] == before[j]);
                }
                assert(self@.windows[i as int] == w@);
            }
            i = i + 1;
        }
        proof {
            assert forall|j: int| 0 <= j < ws0.len() implies #[trigger] self@.windows[j]
                == scale_windows(ws0, new_width, new_height, bw, bh)[j] by {}
            assert(self@.windows =~= scale_windows(ws0, new_width, new_height, bw, bh));
        }
        self.terminal_width = Some(new_width);
        self.terminal_height = Some(new_height);
    }

    /// Remove the window named `name` if it is exactly its template, so
    /// the layout file keeps only windows that differ from their defaults.
    pub fn remove_window_if_default(&mut self, name: &str)
        ensures
            final(self)@ == (LayoutView {
                windows: remove_default_spec(old(self)@.windows, name@),
                ..old(self)@
            }),
    {
        let template = match Config::get_window_template(name) {
            Some(t) => t,
            None => return,
        };
        let ghost p = keep_modified(name@, template@);
        let ghost ws0 = self@.windows;
        let mut kept: Vec<WindowDef> = Vec::new();
        let mut i: usize = 0;
        while i < self.windows.len()
            invariant
                i <= self.windows@.len(),
                self@ == old(self)@,
                ws0 == self@.windows,
                p == keep_modified(name@, template@),
                kept@.map_values(|w: WindowDef| w@) == ws0.take(i as int).filter(p),
            decreases self.windows@.len() - i,
        {
            proof {
                lemma_filter_step(ws0, p, i as int);
            }
            let w = &self.windows[i];
            let unmodified = str_eq(w.name(), name) && window_eq(w, &template);
            if !unmodified {
                let ghost kv = kept@.map_values(|w: WindowDef| w@);
                kept.push(w.duplicate());
                assert(kept@.map_values(|w: WindowDef| w@) =~= kv.push(ws0[i as int]));
            }
            i = i + 1;
        }
        proof {
            assert(ws0.take(i as int) =~= ws0);
        }
        self.windows = kept;
    }

    /// Normalize the windows for saving (see `normalize_spec`).
    pub fn normalize_windows_for_save(&mut self)
        ensures
            final(self)@ == (LayoutView { windows: normalize_spec(old(self)@.windows), ..old(self)@ }),
    {
        let ghost ws0 = self@.windows;
        let ghost m = ws0.map_values(|w: WindowView| normalized(w));
        let mut normal: Vec<WindowDef> = Vec::new();
        let mut i: usize = 0;
        while i < self.windows.len()
            invariant
                i <= self.windows@.len(),
                self@ == old(self)@,
                ws0 == self@.windows,
                m == ws0.map_values(|w: WindowView| normalized(w)),
                normal@.map_values(|w: WindowDef| w@) == m.take(i as int),
            decreases self.windows@.len() - i,
        {
            let w = &self.windows[i];
            let mut b = w.base().duplicate();
            if b.background_color.is_none() {
                b.background_color = Some(owned("-"));
            }
            if b.border_color.is_none() {
                b.border_color = Some(owned("-"));
            }
            if b.text_color.is_none() {
                b.text_color = Some(owned("-"));
            }
            let nw = w.rebased(b);
            let ghost nv = normal@.map_values(|w: WindowDef| w@);
            normal.push(nw);
            proof {
                assert(m[i as int] == normalized(ws0[i as int]));
                assert(normal@.map_values(|w: WindowDef| w@) =~= nv.push(m[i as int]));
                assert(m.take(i as int + 1) =~= m.take(i as int).push(m[i as int]));
            }
            i = i + 1;
        }
        proof {
            assert(m.take(i as int) =~= m);
        }
        let ghost nv = normal@.map_values(|w: WindowDef| w@);
        let mut out: Vec<WindowDef> = Vec::new();
        let mut j: usize = 0;
        while j < normal.len()
            invariant
                j <= normal@.len(),
                nv == normal@.map_values(|w: WindowDef| w@),
                nv == m,
                out@.map_values(|w: WindowDef| w@) == m.take(j as int).filter(not_spacer()),
            decreases normal@.len() - j,
        {
            proof {
                lemma_filter_step(m, not_spacer(), j as int);
            }
            if let WindowDef::Text { .. } = &normal[j] {
                let ghost ov = out@.map_values(|w: WindowDef| w@);
                out.push(normal[j].duplicate());
                assert(out@.map_values(|w: WindowDef| w@) =~= ov.push(m[j as int]));
            }
            j = j + 1;
        }
        proof {
            assert(m.take(j as int) =~= m);
        }
        let ghost first = out@.map_values(|w: WindowDef| w@);
        let mut k: usize = 0;
        while k < normal.len()
            invariant
                k <= normal@.len(),
                nv == normal@.map_values(|w: WindowDef| w@),
                nv == m,
                first == m.filter(not_spacer()),
                out@.map_values(|w: WindowDef| w@) == first + m.take(k as int).filter(spacer_only()),
            decreases normal@.len() - k,
        {
            proof {
                lemma_filter_step(m, spacer_only(), k as int);
            }
            if let WindowDef::Spacer { .. } = &normal[k] {
                let ghost ov = out@.map_values(|w: WindowDef| w@);
                out.push(normal[k].duplicate());
                assert(out@.map_values(|w: WindowDef| w@) =~= ov.push(m[k as int]));
                assert(first + m.take(k as int + 1).filter(spacer_only()) =~= (first + m.take(
                    k as int,
                ).filter(spacer_only())).push(m[k as int]));
            }
            k = k + 1;
        }
        proof {
            assert(m.take(k as int) =~= m);
        }
        self.windows = out;
    }

    /// Prepare the layout for saving by name: record the terminal size as
    /// the design size (always when forced, else only if none is recorded)
    /// and normalize the windows. The caller writes the file.
    pub fn save(&mut self, terminal_size: Option<(u16, u16)>, force_terminal_size: bool)
        ensures
            final(self)@ == (LayoutView {
                windows: normalize_spec(old(self)@.windows),
                terminal_width: saved_size(old(self)@, terminal_size, force_terminal_size).0,
                terminal_height: saved_size(old(self)@, terminal_size, force_terminal_size).1,
                ..old(self)@
            }),
    {
        if force_terminal_size || self.terminal_width.is_none() || self.terminal_height.is_none() {
            if let Some((width, height)) = terminal_size {
                self.terminal_width = Some(width);
                self.terminal_height = Some(height);
            }
        }
        self.normalize_windows_for_save();
    }

    /// Prepare the layout for the character's automatic save: record the
    /// layout it derives from and the current terminal size, and normalize
    /// the windows. The caller writes the file.
    pub fn save_auto(&mut self, base_layout_name: &str, terminal_size: Option<(u16, u16)>)
        ensures
            final(self)@ == (LayoutView {
                windows: normalize_spec(old(self)@.windows),
                terminal_width: match terminal_size {
                    Some((w, _)) => Some(w),
                    None => old(self)@.terminal_width,
                },
                terminal_height: match terminal_size {
                    Some((_, h)) => Some(h),
                    None => old(self)@.terminal_height,
                },
                base_layout: Some(base_layout_name@),
                ..old(self)@
            }),
    {
        self.base_layout = Some(owned(base_layout_name));
        if let Some((width, height)) = terminal_size {
            self.terminal_width = Some(width);
            self.terminal_height = Some(height);
        }
        self.normalize_windows_for_save();
    }


    /// Choose the layout to start with: the character's automatic save
    /// (scaled to the terminal when its size changed, and named after the
    /// layout it derives from, "default" when none), else the default
    /// profile's automatic save, else the built-in layout, both named
    /// "layout". The caller reads the files.
    pub fn load_with_terminal_size(
        auto_layout: Option<Layout>,
        default_layout: Option<Layout>,
        embedded: Layout,
        terminal_size: Option<(u16, u16)>,
    ) -> (r: (Layout, Option<String>))
        ensures
            match auto_layout {
                Some(l) => {
                    &&& opt_view(r.1) == Some(
                        match l@.base_layout {
                            Some(b) => b,
                            None => "default"@,
                        },
                    )
                    &&& r.0@ == match terminal_size {
                        Some((w, h)) => match (l.terminal_width, l.terminal_height) {
                            (Some(lw), Some(lh)) => if w != lw || h != lh {
                                scale_layout(l@, w, h)
                            } else {
                                l@
                            },
                            _ => l@,
                        },
                        None => l@,
                    }
                },
                None => {
                    &&& opt_view(r.1) == Some("layout"@)
                    &&& r.0@ == match default_layout {
                        Some(d) => d@,
                        None => embedded@,
                    }
                },
            },
    {
        match auto_layout {
            Some(l) => {
                let mut layout = l;
                let base_name = match &layout.base_layout {
                    Some(b) => b.clone(),
                    None => owned("default"),
                };
                if let Some((w, h)) = terminal_size {
                    if let (Some(lw), Some(lh)) = (layout.terminal_width, layout.terminal_height) {
                        if w != lw || h != lh {
                            layout.scale_to_terminal_size(w, h);
                        }
                    }
                }
                (layout, Some(base_name))
            },
            None => match default_layout {
                Some(d) => (d, Some(owned("layout"))),
                None => (embedded, Some(owned("layout"))),
            },
        }
    }

    /// `load_with_terminal_size` without a terminal size, keeping the layout.
    pub fn load(auto_layout: Option<Layout>, default_layout: Option<Layout>, embedded: Layout) -> (r:
        Layout)
        ensures
            r@ == match auto_layout {
                Some(l) => l@,
                None => match default_layout {
                    Some(d) => d@,
                    None => embedded@,
                },
            },
    {
        Self::load_with_terminal_size(auto_layout, default_layout, embedded, None).0
    }

}

proof fn lemma_max_number_covers(s: Seq<WindowView>, num: spec_fn(WindowView) -> Option<u32>)
    ensures
        forall|j: int|
            0 <= j < s.len() && (#[trigger] num(s[j])) is Some ==> num(s[j])->0 <= max_number(
                s,
                num,
            ),
    decreases s.len(),
{
    if s.len() > 0 {
        lemma_max_number_covers(s.drop_last(), num);
        assert forall|j: int|
            0 <= j < s.len() && (#[trigger] num(s[j])) is Some implies num(s[j])->0 <= max_number(
            s,
            num,
        ) by {
            if j < s.len() - 1 {
                assert(s[j] == s.drop_last()[j]);
            }
        }
    }
}

/// A generated spacer name is free: no spacer of the layout has it.
pub proof fn spacer_names_are_fresh(ws: Seq<WindowView>)
    requires
        max_spacer(ws) < u32::MAX,
    ensures
        forall|j: int|
            0 <= j < ws.len() && is_spacer(ws[j]) ==> #[trigger] base_of(ws[j]).name != spacer_name(ws),
{
    let n = max_spacer(ws) + 1;
    lemma_decimal_reads_back(n);
    lemma_max_number_covers(ws, spacer_num());
    reveal_strlit("spacer_");
    let name = spacer_name(ws);
    assert(name.subrange(0, 7) =~= "spacer_"@);
    assert(name.skip(7) =~= decimal(n));
    assert forall|j: int| 0 <= j < ws.len() && is_spacer(ws[j]) implies #[trigger] base_of(ws[j]).name
        != name by {
        if base_of(ws[j]).name == name {
            assert(spacer_num()(ws[j]) == Some(n as u32));
        }
    }
}

/// A generated widget name is free: no window of the layout has it.
pub proof fn widget_names_are_fresh(ws: Seq<WindowView>, widget_type: Seq<char>)
    requires
        max_custom(ws, widget_type) < u32::MAX,
    ensures
        forall|j: int| 0 <= j < ws.len() ==> #[trigger] base_of(ws[j]).name != widget_name(ws, widget_type),
{
    let n = max_custom(ws, widget_type) + 1;
    let prefix = custom_prefix(widget_type);
    lemma_decimal_reads_back(n);
    lemma_max_number_covers(ws, suffix_num(prefix));
    let name = widget_name(ws, widget_type);
    assert(name.subrange(0, prefix.len() as int) =~= prefix);
    assert(name.skip(prefix.len() as int) =~= decimal(n));
    assert forall|j: int| 0 <= j < ws.len() implies #[trigger] base_of(ws[j]).name != name by {
        if base_of(ws[j]).name == name {
            assert(suffix_num(prefix)(ws[j]) == Some(n as u32));
        }
    }
}

proof fn lemma_scale_whole_factor(v: u16, k: u16, base: u16)
    requires
        base > 0,
        k >= 1,
        base * k <= 65535,
        v * k <= 65535,
    ensures
        scale_dim(v, (base * k) as u16, base) == v * k,
{
    assert(base * k > 0) by (nonlinear_arith)
        requires
            base > 0,
            k >= 1,
    ;
    assert((base * k) as nat == (k as nat) * (base as nat)) by (nonlinear_arith)
        requires
            base * k <= 65535,
    ;
    lemma_whole_scaling_is_exact(v as nat, (base * k) as nat, base as nat, k as nat);
}

/// Scaling a layout by a whole factor is exact, so windows that touch
/// before (the first ends where the second starts) still touch after, as
/// long as nothing saturates and the first window's width has no limits.
pub proof fn whole_factor_scaling_keeps_touching_windows_touching(
    a: BaseView,
    b: BaseView,
    k: u16,
    m: u16,
    base_w: u16,
    base_h: u16,
)
    requires
        base_w > 0,
        base_h > 0,
        k >= 1,
        m >= 1,
        base_w * k <= 65535,
        base_h * m <= 65535,
        a.col + a.cols == b.col,
        a.cols >= 1,
        a.min_cols is None,
        a.max_cols is None,
        b.col * k <= 65535,
    ensures
        scaled(a, (base_w * k) as u16, (base_h * m) as u16, base_w, base_h).col + scaled(
            a,
            (base_w * k) as u16,
            (base_h * m) as u16,
            base_w,
            base_h,
        ).cols == scaled(b, (base_w * k) as u16, (base_h * m) as u16, base_w, base_h).col,
{
    assert(a.col * k <= 65535 && a.cols * k <= 65535) by (nonlinear_arith)
        requires
            a.col + a.cols == b.col,
            b.col * k <= 65535,
            k >= 1,
    ;
    assert(a.cols * k >= 1) by (nonlinear_arith)
        requires
            a.cols >= 1,
            k >= 1,
    ;
    assert(a.col * k + a.cols * k == b.col * k) by (nonlinear_arith)
        requires
            a.col + a.cols == b.col,
    ;
    lemma_scale_whole_factor(a.col, k, base_w);
    lemma_scale_whole_factor(a.cols, k, base_w);
    lemma_scale_whole_factor(b.col, k, base_w);
}

/// Scaling keeps windows in order: a window left of (or above) another
/// stays so.
pub proof fn scaling_keeps_window_order(v1: u16, v2: u16, new_size: u16, base: u16)
    requires
        base > 0,
        v1 <= v2,
    ensures
        scale_dim(v1, new_size, base) <= scale_dim(v2, new_size, base),
{
    lemma_single_scaled_monotone(v1 as nat, v2 as nat, new_size as nat, base as nat);
}

proof fn lemma_first_index_same_tests(
    s1: Seq<WindowView>,
    s2: Seq<WindowView>,
    p: spec_fn(WindowView) -> bool,
)
    requires
        s1.len() == s2.len(),
        forall|j: int| 0 <= j < s1.len() ==> p(#[trigger] s1[j]) == p(s2[j]),
    ensures
        first_index(s1, p) == first_index(s2, p),
    decreases s1.len(),
{
    if s1.len() > 0 {
        assert forall|j: int| 0 <= j < s1.len() - 1 implies p(#[trigger] s1.drop_last()[j]) == p(
            s2.drop_last()[j],
        ) by {
            assert(s1.drop_last()[j] == s1[j]);
            assert(s2.drop_last()[j] == s2[j]);
        }
        lemma_first_index_same_tests(s1.drop_last(), s2.drop_last(), p);
        assert(p(s1.last()) == p(s2.last()));
    }
}

/// Hiding a visible window and adding it again gives back the layout's
/// windows unchanged.
pub proof fn hiding_then_adding_restores_a_window(ws: Seq<WindowView>, name: Seq<char>)
    requires
        first_index(ws, named(name)) matches Some(i) && base_of(ws[i]).visible,
    ensures
        hide_window_spec(ws, name) matches Ok(hidden) && add_window_spec(hidden, name) == Ok::<
            Seq<WindowView>,
            LayoutError,
        >(ws),
{
    lemma_first_index(ws, named(name));
    let i = first_index(ws, named(name))->0;
    let hidden = ws.update(i, set_visible(ws[i], false));
    assert forall|j: int| 0 <= j < ws.len() implies named(name)(#[trigger] ws[j]) == named(name)(
        hidden[j],
    ) by {}
    lemma_first_index_same_tests(ws, hidden, named(name));
    assert(set_visible(hidden[i], true) == ws[i]);
    assert(hidden.update(i, set_visible(hidden[i], true)) =~= ws);
}

/// Where content sits inside a larger area (used when borders are off).
#[derive(Debug, Clone, Copy, PartialEq, Eq, Structural)]
pub enum ContentAlign {
    TopLeft,
    Top,
    TopRight,
    Left,
    Center,
    Right,
    BottomLeft,
    Bottom,
    BottomRight,
}

/// The alignment a setting names, after Unicode lowercasing; unknown
/// names mean top-left.
pub open spec fn align_named(lower: Seq<char>) -> ContentAlign {
    if lower == "top-left"@ || lower == "topleft"@ {
        ContentAlign::TopLeft
    } else if lower == "top"@ || lower == "top-center"@ || lower == "topcenter"@ {
        ContentAlign::Top
    } else if lower == "top-right"@ || lower == "topright"@ {
        ContentAlign::TopRight
    } else if lower == "left"@ || lower == "center-left"@ || lower == "centerleft"@ {
        ContentAlign::Left
    } else if lower == "center"@ {
        ContentAlign::Center
    } else if lower == "right"@ || lower == "center-right"@ || lower == "centerright"@ {
        ContentAlign::Right
    } else if lower == "bottom-left"@ || lower == "bottomleft"@ {
        ContentAlign::BottomLeft
    } else if lower == "bottom"@ || lower == "bottom-center"@ || lower == "bottomcenter"@ {
        ContentAlign::Bottom
    } else if lower == "bottom-right"@ || lower == "bottomright"@ {
        ContentAlign::BottomRight
    } else {
        ContentAlign::TopLeft
    }
}

/// A window base whose size already meets its limits: at least one cell
/// each way, and within its minimum and maximum where set.
pub open spec fn size_in_limits(b: BaseView) -> bool {
    &&& b.cols >= 1
    &&& b.rows >= 1
    &&& (b.min_cols matches Some(m) ==> b.cols >= m)
    &&& (b.max_cols matches Some(m) ==> b.cols <= m)
    &&& (b.min_rows matches Some(m) ==> b.rows >= m)
    &&& (b.max_rows matches Some(m) ==> b.rows <= m)
}

proof fn lemma_scale_dim_same(v: u16, size: u16)
    requires
        size > 0,
    ensures
        scale_dim(v, size, size) == v,
{
    lemma_whole_scaling_is_exact(v as nat, size as nat, size as nat, 1);
}

/// Scaling a layout to the size it was designed for changes nothing,
/// provided each window's size already meets its limits.
pub proof fn scaling_to_the_design_size_changes_nothing(l: LayoutView, w: u16, h: u16)
    requires
        l.terminal_width == Some(w),
        l.terminal_height == Some(h),
        w > 0,
        h > 0,
        forall|i: int| 0 <= i < l.windows.len() ==> size_in_limits(#[trigger] base_of(l.windows[i])),
    ensures
        scale_layout(l, w, h) == l,
{
    let s = scale_windows(l.windows, w, h, w, h);
    assert forall|i: int| 0 <= i < l.windows.len() implies #[trigger] s[i] == l.windows[i] by {
        let b = base_of(l.windows[i]);
        lemma_scale_dim_same(b.col, w);
        lemma_scale_dim_same(b.row, h);
        lemma_scale_dim_same(b.cols, w);
        lemma_scale_dim_same(b.rows, h);
        assert(scaled(b, w, h, w, h) == b);
    }
    assert(s =~= l.windows);
}

/// `a - b`, or 0 when `b` is larger.
pub open spec fn sat_sub(a: u16, b: u16) -> u16 {
    if a >= b {
        (a - b) as u16
    } else {
        0
    }
}

/// The (row, column) offset of content of the given size in an area of
/// the given size.
pub open spec fn offset_of(
    align: ContentAlign,
    content_width: u16,
    content_height: u16,
    area_width: u16,
    area_height: u16,
) -> (u16, u16) {
    let free_rows = sat_sub(area_height, content_height);
    let free_cols = sat_sub(area_width, content_width);
    let row: u16 = match align {
        ContentAlign::TopLeft | ContentAlign::Top | ContentAlign::TopRight => 0,
        ContentAlign::Left | ContentAlign::Center | ContentAlign::Right => free_rows / 2,
        ContentAlign::BottomLeft | ContentAlign::Bottom | ContentAlign::BottomRight => free_rows,
    };
    let col: u16 = match align {
        ContentAlign::TopLeft | ContentAlign::Left | ContentAlign::BottomLeft => 0,
        ContentAlign::Top | ContentAlign::Center | ContentAlign::Bottom => free_cols / 2,
        ContentAlign::TopRight | ContentAlign::Right | ContentAlign::BottomRight => free_cols,
    };
    (row, col)
}

impl ContentAlign {
    /// The alignment a setting names (case-insensitive; top-left when
    /// unknown).
    pub fn from_str(s: &str) -> (r: Self)
        ensures
            r == align_named(unicode_lowercase(s@)),
    {
        let lower = to_lowercase(s);
        Self::from_lowercase(lower.as_str())
    }

    /// The alignment a lowercased setting names (top-left when unknown).
    pub fn from_lowercase(l: &str) -> (r: Self)
        ensures
            r == align_named(l@),
    {
        if str_eq(l, "top-left") || str_eq(l, "topleft") {
            ContentAlign::TopLeft
        } else if str_eq(l, "top") || str_eq(l, "top-center") || str_eq(l, "topcenter") {
            ContentAlign::Top
        } else if str_eq(l, "top-right") || str_eq(l, "topright") {
            ContentAlign::TopRight
        } else if str_eq(l, "left") || str_eq(l, "center-left") || str_eq(l, "centerleft") {
            ContentAlign::Left
        } else if str_eq(l, "center") {
            ContentAlign::Center
        } else if str_eq(l, "right") || str_eq(l, "center-right") || str_eq(l, "centerright") {
            ContentAlign::Right
        } else if str_eq(l, "bottom-left") || str_eq(l, "bottomleft") {
            ContentAlign::BottomLeft
        } else if str_eq(l, "bottom") || str_eq(l, "bottom-center") || str_eq(l, "bottomcenter") {
            ContentAlign::Bottom
        } else if str_eq(l, "bottom-right") || str_eq(l, "bottomright") {
            ContentAlign::BottomRight
        } else {
            ContentAlign::TopLeft
        }
    }

    /// Offset for drawing content within a larger area: (row, column).
    pub fn calculate_offset(
        &self,
        content_width: u16,
        content_height: u16,
        area_width: u16,
        area_height: u16,
    ) -> (r: (u16, u16))
        ensures
            r == offset_of(*self, content_width, content_height, area_width, area_height),
    {
        let free_rows = area_height.saturating_sub(content_height);
        let free_cols = area_width.saturating_sub(content_width);
        let row: u16 = match self {
            ContentAlign::TopLeft | ContentAlign::Top | ContentAlign::TopRight => 0,
            ContentAlign::Left | ContentAlign::Center | ContentAlign::Right => free_rows / 2,
            ContentAlign::BottomLeft | ContentAlign::Bottom | ContentAlign::BottomRight => free_rows,
        };
        let col: u16 = match self {
            ContentAlign::TopLeft | ContentAlign::Left | ContentAlign::BottomLeft => 0,
            ContentAlign::Top | ContentAlign::Center | ContentAlign::Bottom => free_cols / 2,
            ContentAlign::TopRight | ContentAlign::Right | ContentAlign::BottomRight => free_cols,
        };
        (row, col)
    }
}

} // verus!
