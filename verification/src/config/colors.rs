//! Color configuration: named palette colors, presets, prompt colors, UI
//! defaults and spell bar colors, with the rules by which a character's
//! colors override the global ones.

use vstd::prelude::*;
use crate::named::{dup_opt, Duplicate, NamedMap};
use crate::seqs::{first_index, lemma_filter_step, lemma_first_index, lemma_first_index_step};
use crate::text::{chars_of, owned, str_eq, trim, trim_chars};

verus! {

/// A named color in the user's palette.
///
/// `slot` is an optional terminal palette slot (16-231 is the color cube)
/// used in slot color mode.
#[derive(Debug, Clone, PartialEq)]
pub struct PaletteColor {
    pub name: String,
    /// Hex color code.
    pub color: String,
    /// Color family: "red", "blue", ...
    pub category: String,
    pub favorite: bool,
    pub slot: Option<u8>,
}

impl PaletteColor {
    pub fn new(name: &str, color: &str, category: &str) -> (r: Self)
        ensures
            r.name@ == name@,
            r.color@ == color@,
            r.category@ == category@,
            !r.favorite,
            r.slot is None,
    {
        PaletteColor {
            name: owned(name),
            color: owned(color),
            category: owned(category),
            favorite: false,
            slot: None,
        }
    }

    /// A palette color assigned to a terminal slot.
    pub fn with_slot(name: &str, color: &str, category: &str, slot: u8) -> (r: Self)
        ensures
            r.name@ == name@,
            r.color@ == color@,
            r.category@ == category@,
            !r.favorite,
            r.slot == Some(slot),
    {
        PaletteColor {
            name: owned(name),
            color: owned(color),
            category: owned(category),
            favorite: false,
            slot: Some(slot),
        }
    }
}

impl Duplicate for PaletteColor {
    fn duplicate(&self) -> (r: Self) {
        PaletteColor {
            name: self.name.clone(),
            color: self.color.clone(),
            category: self.category.clone(),
            favorite: self.favorite,
            slot: self.slot,
        }
    }
}

/// Foreground and background of a named preset.
#[derive(Debug, Clone, PartialEq)]
pub struct PresetColor {
    pub fg: Option<String>,
    pub bg: Option<String>,
}

impl Duplicate for PresetColor {
    fn duplicate(&self) -> (r: Self) {
        PresetColor { fg: dup_opt(&self.fg), bg: dup_opt(&self.bg) }
    }
}

/// Colors for one prompt character.
#[derive(Debug, Clone, PartialEq)]
pub struct PromptColor {
    /// The prompt character matched, e.g. "R" or ">".
    pub character: String,
    pub fg: Option<String>,
    pub bg: Option<String>,
    /// Older name for `fg`.
    pub color: Option<String>,
}

/// Bar colors for a group of spells.
#[derive(Debug, Clone, PartialEq)]
pub struct SpellColorRange {
    pub spells: Vec<u32>,
    /// Older name for the bar color.
    pub color: String,
    pub bar_color: Option<String>,
    pub text_color: Option<String>,
    pub bg_color: Option<String>,
}

/// The colors a spell bar is drawn with.
#[derive(Debug, Clone, PartialEq)]
pub struct SpellColorStyle {
    pub bar_color: Option<String>,
    pub text_color: Option<String>,
}

/// The view of an optional string.
pub open spec fn opt_view(o: Option<String>) -> Option<Seq<char>> {
    match o {
        Some(s) => Some(s@),
        None => None,
    }
}

/// The string has something besides whitespace.
pub open spec fn not_blank(s: Seq<char>) -> bool {
    trim(s).len() > 0
}

/// A set, non-blank option.
pub open spec fn non_blank_opt(o: Option<Seq<char>>) -> Option<Seq<char>> {
    match o {
        Some(s) => if not_blank(s) {
            Some(s)
        } else {
            None
        },
        None => None,
    }
}

/// The bar color of a range: its `bar_color` when set and non-blank, else
/// the older `color` field when non-blank, else none.
pub open spec fn bar_color_of(r: SpellColorRange) -> Option<Seq<char>> {
    match non_blank_opt(opt_view(r.bar_color)) {
        Some(c) => Some(c),
        None => if not_blank(r.color@) {
            Some(r.color@)
        } else {
            None
        },
    }
}

fn is_blank(s: &str) -> (r: bool)
    ensures
        r == !not_blank(s@),
{
    trim_chars(&chars_of(s)).len() == 0
}

fn non_blank_clone(o: &Option<String>) -> (r: Option<String>)
    ensures
        opt_view(r) == non_blank_opt(opt_view(*o)),
{
    match o {
        Some(s) => if is_blank(s.as_str()) {
            None
        } else {
            Some(s.clone())
        },
        None => None,
    }
}

impl SpellColorRange {
    /// The colors this range draws with; blank entries count as unset.
    pub fn style(&self) -> (r: SpellColorStyle)
        ensures
            opt_view(r.bar_color) == bar_color_of(*self),
            opt_view(r.text_color) == non_blank_opt(opt_view(self.text_color)),
    {
        let bar_color = match non_blank_clone(&self.bar_color) {
            Some(c) => Some(c),
            None => if is_blank(self.color.as_str()) {
                None
            } else {
                Some(self.color.clone())
            },
        };
        SpellColorStyle { bar_color, text_color: non_blank_clone(&self.text_color) }
    }
}

/// Global UI colors shared by all widgets.
#[derive(Debug, Clone, PartialEq)]
pub struct UiColors {
    pub command_echo_color: String,
    /// Default border color.
    pub border_color: String,
    /// Border color of the focused window.
    pub focused_border_color: String,
    pub text_color: String,
    /// "-" means transparent.
    pub background_color: String,
    pub selection_bg_color: String,
    /// Background of text inputs in forms and browsers; "-" means none.
    pub textarea_background: String,
}

/// The built-in UI colors, field by field.
pub open spec fn default_ui() -> (
    Seq<char>,
    Seq<char>,
    Seq<char>,
    Seq<char>,
    Seq<char>,
    Seq<char>,
    Seq<char>,
) {
    ("#ffffff"@, "#00ffff"@, "#ffff00"@, "#ffffff"@, "-"@, "#4a4a4a"@, "-"@)
}

/// The view of UI colors, field by field.
pub open spec fn ui_view(u: UiColors) -> (
    Seq<char>,
    Seq<char>,
    Seq<char>,
    Seq<char>,
    Seq<char>,
    Seq<char>,
    Seq<char>,
) {
    (
        u.command_echo_color@,
        u.border_color@,
        u.focused_border_color@,
        u.text_color@,
        u.background_color@,
        u.selection_bg_color@,
        u.textarea_background@,
    )
}

impl Default for UiColors {
    fn default() -> (r: Self)
        ensures
            ui_view(r) == default_ui(),
    {
        UiColors {
            command_echo_color: owned("#ffffff"),
            border_color: owned("#00ffff"),
            focused_border_color: owned("#ffff00"),
            text_color: owned("#ffffff"),
            background_color: owned("-"),
            selection_bg_color: owned("#4a4a4a"),
            textarea_background: owned("-"),
        }
    }
}

/// A character's UI color wins over the global one only where it differs
/// from the built-in default.
pub open spec fn override_ui(
    global: Seq<char>,
    character: Seq<char>,
    builtin: Seq<char>,
) -> Seq<char> {
    if character != builtin {
        character
    } else {
        global
    }
}

/// All color configuration (the colors file).
pub struct ColorConfig {
    pub presets: NamedMap<PresetColor>,
    pub prompt_colors: Vec<PromptColor>,
    pub ui: UiColors,
    pub spell_colors: Vec<SpellColorRange>,
    pub color_palette: Vec<PaletteColor>,
}

/// `character` when it holds anything, otherwise `global`.
pub open spec fn replace_if_nonempty<T>(global: Seq<T>, character: Seq<T>) -> Seq<T> {
    if character.len() > 0 {
        character
    } else {
        global
    }
}

/// The palette after saving `c`: the first color with the same name is
/// replaced, or `c` is appended.
pub open spec fn palette_upsert(s: Seq<PaletteColor>, c: PaletteColor) -> Seq<PaletteColor> {
    match first_index(s, |p: PaletteColor| p.name@ == c.name@) {
        Some(i) => s.update(i, c),
        None => s.push(c),
    }
}

/// The palette after deleting every color named `name`.
pub open spec fn palette_without(s: Seq<PaletteColor>, name: Seq<char>) -> Seq<PaletteColor> {
    s.filter(|p: PaletteColor| p.name@ != name)
}

impl ColorConfig {
    /// A color configuration with nothing set and the built-in UI colors.
    pub fn empty() -> (r: Self)
        ensures
            r.presets@ == Map::<Seq<char>, PresetColor>::empty(),
            r.prompt_colors@.len() == 0,
            ui_view(r.ui) == default_ui(),
            r.spell_colors@.len() == 0,
            r.color_palette@.len() == 0,
    {
        ColorConfig {
            presets: NamedMap::new(),
            prompt_colors: Vec::new(),
            ui: UiColors::default(),
            spell_colors: Vec::new(),
            color_palette: Vec::new(),
        }
    }

    /// Global colors completed from the built-in defaults: presets the
    /// global file lacks are added, and an empty palette takes the
    /// default palette.
    pub fn fill_from_defaults(colors: ColorConfig, defaults: &ColorConfig) -> (r: ColorConfig)
        ensures
            r.presets@ == defaults.presets@.union_prefer_right(colors.presets@),
            r.prompt_colors@ == colors.prompt_colors@,
            r.ui == colors.ui,
            r.spell_colors@ == colors.spell_colors@,
            r.color_palette@ == replace_if_nonempty(defaults.color_palette@, colors.color_palette@),
    {
        let mut colors = colors;
        colors.presets.fill_missing_from(&defaults.presets);
        if colors.color_palette.len() == 0 {
            let mut palette: Vec<PaletteColor> = Vec::new();
            let mut i: usize = 0;
            while i < defaults.color_palette.len()
                invariant
                    i <= defaults.color_palette@.len(),
                    palette@ == defaults.color_palette@.take(i as int),
                decreases defaults.color_palette@.len() - i,
            {
                palette.push(defaults.color_palette[i].duplicate());
                i = i + 1;
                assert(palette@ =~= defaults.color_palette@.take(i as int));
            }
            assert(palette@ =~= defaults.color_palette@);
            colors.color_palette = palette;
        }
        colors
    }

    /// The colors in effect: the global colors with the character's on
    /// top. Character presets override global ones by name; the character's
    /// prompt colors, spell colors and palette replace the global lists
    /// when not empty; each UI color is the character's only where it
    /// differs from the built-in default.
    pub fn load_with_merge(global: ColorConfig, character: ColorConfig) -> (r: ColorConfig)
        ensures
            r.presets@ == global.presets@.union_prefer_right(character.presets@),
            r.prompt_colors@ == replace_if_nonempty(global.prompt_colors@, character.prompt_colors@),
            r.spell_colors@ == replace_if_nonempty(global.spell_colors@, character.spell_colors@),
            r.color_palette@ == replace_if_nonempty(global.color_palette@, character.color_palette@),
            ui_view(r.ui).0 == override_ui(ui_view(global.ui).0, ui_view(character.ui).0, default_ui().0),
            ui_view(r.ui).1 == override_ui(ui_view(global.ui).1, ui_view(character.ui).1, default_ui().1),
            ui_view(r.ui).2 == override_ui(ui_view(global.ui).2, ui_view(character.ui).2, default_ui().2),
            ui_view(r.ui).3 == override_ui(ui_view(global.ui).3, ui_view(character.ui).3, default_ui().3),
            ui_view(r.ui).4 == override_ui(ui_view(global.ui).4, ui_view(character.ui).4, default_ui().4),
            ui_view(r.ui).5 == override_ui(ui_view(global.ui).5, ui_view(character.ui).5, default_ui().5),
            ui_view(r.ui).6 == override_ui(ui_view(global.ui).6, ui_view(character.ui).6, default_ui().6),
    {
        let mut colors = global;
        let ch = character;
        colors.presets.extend_from(&ch.presets);
        if ch.prompt_colors.len() > 0 {
            colors.prompt_colors = ch.prompt_colors;
        }
        let d = UiColors::default();
        if !str_eq(ch.ui.command_echo_color.as_str(), d.command_echo_color.as_str()) {
            colors.ui.command_echo_color = ch.ui.command_echo_color;
        }
        if !str_eq(ch.ui.border_color.as_str(), d.border_color.as_str()) {
            colors.ui.border_color = ch.ui.border_color;
        }
        if !str_eq(ch.ui.focused_border_color.as_str(), d.focused_border_color.as_str()) {
            colors.ui.focused_border_color = ch.ui.focused_border_color;
        }
        if !str_eq(ch.ui.text_color.as_str(), d.text_color.as_str()) {
            colors.ui.text_color = ch.ui.text_color;
        }
        if !str_eq(ch.ui.background_color.as_str(), d.background_color.as_str()) {
            colors.ui.background_color = ch.ui.background_color;
        }
        if !str_eq(ch.ui.selection_bg_color.as_str(), d.selection_bg_color.as_str()) {
            colors.ui.selection_bg_color = ch.ui.selection_bg_color;
        }
        if !str_eq(ch.ui.textarea_background.as_str(), d.textarea_background.as_str()) {
            colors.ui.textarea_background = ch.ui.textarea_background;
        }
        if ch.spell_colors.len() > 0 {
            colors.spell_colors = ch.spell_colors;
        }
        if ch.color_palette.len() > 0 {
            colors.color_palette = ch.color_palette;
        }
        colors
    }

    /// The colors in effect for a character: the same merge as
    /// `load_with_merge`.
    pub fn load(global: ColorConfig, character: ColorConfig) -> (r: ColorConfig)
        ensures
            r.presets@ == global.presets@.union_prefer_right(character.presets@),
            r.prompt_colors@ == replace_if_nonempty(global.prompt_colors@, character.prompt_colors@),
            r.spell_colors@ == replace_if_nonempty(global.spell_colors@, character.spell_colors@),
            r.color_palette@ == replace_if_nonempty(global.color_palette@, character.color_palette@),
            ui_view(r.ui).0 == override_ui(ui_view(global.ui).0, ui_view(character.ui).0, default_ui().0),
            ui_view(r.ui).1 == override_ui(ui_view(global.ui).1, ui_view(character.ui).1, default_ui().1),
            ui_view(r.ui).2 == override_ui(ui_view(global.ui).2, ui_view(character.ui).2, default_ui().2),
            ui_view(r.ui).3 == override_ui(ui_view(global.ui).3, ui_view(character.ui).3, default_ui().3),
            ui_view(r.ui).4 == override_ui(ui_view(global.ui).4, ui_view(character.ui).4, default_ui().4),
            ui_view(r.ui).5 == override_ui(ui_view(global.ui).5, ui_view(character.ui).5, default_ui().5),
            ui_view(r.ui).6 == override_ui(ui_view(global.ui).6, ui_view(character.ui).6, default_ui().6),
    {
        Self::load_with_merge(global, character)
    }

    /// Save one palette color into a colors file's contents (the global
    /// or the character's, as the caller chose): replaces the first color
    /// of the same name, or appends it.
    pub fn save_single_palette_color(colors: &mut ColorConfig, color: &PaletteColor)
        ensures
            final(colors).color_palette@ == palette_upsert(old(colors).color_palette@, *color),
            final(colors).presets@ == old(colors).presets@,
            final(colors).prompt_colors@ == old(colors).prompt_colors@,
            final(colors).ui == old(colors).ui,
            final(colors).spell_colors@ == old(colors).spell_colors@,
    {
        let ghost p = |q: PaletteColor| q.name@ == color.name@;
        let mut i: usize = 0;
        let mut found: Option<usize> = None;
        while i < colors.color_palette.len()
            invariant
                i <= colors.color_palette@.len(),
                colors.color_palette@ == old(colors).color_palette@,
                p == (|q: PaletteColor| q.name@ == color.name@),
                found is None ==> first_index(colors.color_palette@.take(i as int), p) is None,
                found matches Some(k) ==> first_index(colors.color_palette@, p) == Some(k as int),
            decreases colors.color_palette@.len() - i,
        {
            if found.is_none() {
                proof {
                    lemma_first_index_step(colors.color_palette@, p, i as int);
                }
                if str_eq(colors.color_palette[i].name.as_str(), color.name.as_str()) {
                    found = Some(i);
                }
            }
            i = i + 1;
        }
        proof {
            assert(colors.color_palette@.take(i as int) =~= colors.color_palette@);
            lemma_first_index(colors.color_palette@, p);
        }
        match found {
            Some(k) => {
                colors.color_palette.set(k, color.duplicate());
            },
            None => {
                colors.color_palette.push(color.duplicate());
            },
        }
    }

    /// Delete every palette color named `name` from a colors file's
    /// contents. Returns whether any was removed (the caller saves only
    /// then).
    pub fn delete_single_palette_color(colors: &mut ColorConfig, name: &str) -> (removed: bool)
        ensures
            final(colors).color_palette@ == palette_without(old(colors).color_palette@, name@),
            removed == (final(colors).color_palette@.len() < old(colors).color_palette@.len()),
            final(colors).presets@ == old(colors).presets@,
            final(colors).prompt_colors@ == old(colors).prompt_colors@,
            final(colors).ui == old(colors).ui,
            final(colors).spell_colors@ == old(colors).spell_colors@,
    {
        let ghost p = |q: PaletteColor| q.name@ != name@;
        let mut kept: Vec<PaletteColor> = Vec::new();
        let mut i: usize = 0;
        while i < colors.color_palette.len()
            invariant
                i <= colors.color_palette@.len(),
                colors.color_palette@ == old(colors).color_palette@,
                p == (|q: PaletteColor| q.name@ != name@),
                kept@ == colors.color_palette@.take(i as int).filter(p),
            decreases colors.color_palette@.len() - i,
        {
            proof {
                lemma_filter_step(colors.color_palette@, p, i as int);
            }
            if !str_eq(colors.color_palette[i].name.as_str(), name) {
                kept.push(colors.color_palette[i].duplicate());
            }
            i = i + 1;
        }
        proof {
            assert(colors.color_palette@.take(i as int) =~= colors.color_palette@);
            colors.color_palette@.lemma_filter_len(p);
        }
        let removed = kept.len() < colors.color_palette.len();
        colors.color_palette = kept;
        removed
    }
}

/// A character with no colors of its own sees exactly the global colors:
/// no presets, empty lists and built-in UI colors change nothing in the
/// merge.
pub proof fn character_without_colors_sees_the_global_ones<T>(
    global_presets: Map<Seq<char>, PresetColor>,
    global_list: Seq<T>,
    global_ui: UiColors,
)
    ensures
        global_presets.union_prefer_right(Map::<Seq<char>, PresetColor>::empty()) == global_presets,
        replace_if_nonempty(global_list, Seq::<T>::empty()) == global_list,
        override_ui(ui_view(global_ui).0, default_ui().0, default_ui().0) == ui_view(global_ui).0,
        override_ui(ui_view(global_ui).1, default_ui().1, default_ui().1) == ui_view(global_ui).1,
        override_ui(ui_view(global_ui).2, default_ui().2, default_ui().2) == ui_view(global_ui).2,
        override_ui(ui_view(global_ui).3, default_ui().3, default_ui().3) == ui_view(global_ui).3,
        override_ui(ui_view(global_ui).4, default_ui().4, default_ui().4) == ui_view(global_ui).4,
        override_ui(ui_view(global_ui).5, default_ui().5, default_ui().5) == ui_view(global_ui).5,
        override_ui(ui_view(global_ui).6, default_ui().6, default_ui().6) == ui_view(global_ui).6,
{
    assert(global_presets.union_prefer_right(Map::<Seq<char>, PresetColor>::empty())
        =~= global_presets);
}

/// Saving a palette color and then deleting its name leaves no color of
/// that name, and deleting twice is the same as deleting once.
pub proof fn deleting_a_saved_palette_color_removes_it(s: Seq<PaletteColor>, c: PaletteColor)
    ensures
        forall|k: int|
            0 <= k < palette_without(palette_upsert(s, c), c.name@).len() ==> (
            #[trigger] palette_without(palette_upsert(s, c), c.name@)[k]).name@ != c.name@,
        palette_without(palette_without(s, c.name@), c.name@) == palette_without(s, c.name@),
{
    broadcast use vstd::seq_lib::group_filter_ensures;
    let p = |q: PaletteColor| q.name@ != c.name@;
    let t = palette_upsert(s, c);
    let r = palette_without(t, c.name@);
    assert forall|k: int| 0 <= k < r.len() implies (#[trigger] r[k]).name@ != c.name@ by {
        t.lemma_filter_pred(p, k);
    }
    let once = palette_without(s, c.name@);
    assert forall|k: int| 0 <= k < once.len() implies p(#[trigger] once[k]) by {
        s.lemma_filter_pred(p, k);
    }
    crate::seqs::lemma_filter_all(once, p);
}

} // verus!
