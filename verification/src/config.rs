//! Configuration: typed settings, layouts, colors, and the rule sources
//! (highlights and alert packs) the client runs.
//!
//! Reading and writing the settings files is left to the caller; this
//! module holds the values and the rules that combine them: how a
//! character's settings override the global ones, how colors resolve, how
//! layouts scale and name their windows, and where each file lives.

pub mod highlights;
pub mod alertpacks;
pub mod window_registry;
pub mod paths;
pub mod colors;
pub mod layout;
pub mod single_precision;
pub mod layout_check;
pub mod settings;
pub mod macros;
pub mod room_images;
pub mod sparse;
pub mod settings_text;

use vstd::prelude::*;
use crate::config::colors::{
    bar_color_of, non_blank_opt, opt_view, replace_if_nonempty, ColorConfig, PaletteColor,
    SpellColorRange, SpellColorStyle,
};
use crate::config::highlights::RuleMap;
use crate::config::settings::{ConnectionConfig, UiConfig};
use crate::config::sparse::{empty_table, SettingValue};
use crate::named::NamedMap;
use crate::seqs::{first_index, lemma_first_index, lemma_first_index_step};
use crate::text::{
    ascii_lower, ascii_lower_exec, chars_of, eq_ignore_ascii_case, eq_ignore_ascii_case_exec,
    owned, starts_with, starts_with_exec, str_eq, string_from_chars, to_lowercase, trim,
    trim_chars, unicode_lowercase,
};

verus! {

/// Widget category for organizing windows in menus.
#[derive(Debug, Clone, Copy, PartialEq, Eq, Hash, PartialOrd, Ord, Structural)]
pub enum WidgetCategory {
    ActiveEffects,
    Countdown,
    Entity,
    Hand,
    Other,
    ProgressBar,
    Status,
    TextWindow,
}

/// The menu heading of each category.
pub open spec fn category_name(c: WidgetCategory) -> Seq<char> {
    match c {
        WidgetCategory::ActiveEffects => "Active Effects"@,
        WidgetCategory::Countdown => "Countdowns"@,
        WidgetCategory::Entity => "Entities"@,
        WidgetCategory::Hand => "Hands"@,
        WidgetCategory::Other => "Other"@,
        WidgetCategory::ProgressBar => "Progress Bars"@,
        WidgetCategory::Status => "Status"@,
        WidgetCategory::TextWindow => "Text Windows"@,
    }
}

/// The category a widget type belongs to; unknown types are `Other`.
pub open spec fn category_of(widget_type: Seq<char>) -> WidgetCategory {
    if widget_type == "countdown"@ {
        WidgetCategory::Countdown
    } else if widget_type == "hand"@ {
        WidgetCategory::Hand
    } else if widget_type == "active_effects"@ {
        WidgetCategory::ActiveEffects
    } else if widget_type == "indicator"@ || widget_type == "dashboard"@ {
        WidgetCategory::Status
    } else if widget_type == "progress"@ {
        WidgetCategory::ProgressBar
    } else if widget_type == "text"@ || widget_type == "tabbedtext"@ {
        WidgetCategory::TextWindow
    } else if widget_type == "targets"@ || widget_type == "players"@ || widget_type == "items"@ {
        WidgetCategory::Entity
    } else {
        WidgetCategory::Other
    }
}

impl WidgetCategory {
    pub fn display_name(&self) -> (r: &'static str)
        ensures
            r@ == category_name(*self),
    {
        match self {
            WidgetCategory::ActiveEffects => "Active Effects",
            WidgetCategory::Countdown => "Countdowns",
            WidgetCategory::Entity => "Entities",
            WidgetCategory::Hand => "Hands",
            WidgetCategory::Other => "Other",
            WidgetCategory::ProgressBar => "Progress Bars",
            WidgetCategory::Status => "Status",
            WidgetCategory::TextWindow => "Text Windows",
        }
    }

    pub fn from_widget_type(widget_type: &str) -> (r: Self)
        ensures
            r == category_of(widget_type@),
    {
        if str_eq(widget_type, "countdown") {
            WidgetCategory::Countdown
        } else if str_eq(widget_type, "hand") {
            WidgetCategory::Hand
        } else if str_eq(widget_type, "active_effects") {
            WidgetCategory::ActiveEffects
        } else if str_eq(widget_type, "indicator") || str_eq(widget_type, "dashboard") {
            WidgetCategory::Status
        } else if str_eq(widget_type, "progress") {
            WidgetCategory::ProgressBar
        } else if str_eq(widget_type, "text") || str_eq(widget_type, "tabbedtext") {
            WidgetCategory::TextWindow
        } else if str_eq(widget_type, "targets") || str_eq(widget_type, "players") || str_eq(
            widget_type,
            "items",
        ) {
            WidgetCategory::Entity
        } else {
            WidgetCategory::Other
        }
    }
}

/// Which game a connection is to.
#[derive(Debug, Clone, Copy, PartialEq, Eq, Hash, Structural)]
pub enum GameType {
    /// GemStone IV (prime, platinum, shattered, test).
    GS4,
    /// DragonRealms (dr, drplatinum, drfallen, drtest).
    DR,
}

/// The game string names a DragonRealms instance: it starts with "dr",
/// ignoring ASCII case.
pub open spec fn is_dr_game(g: Seq<char>) -> bool {
    g.len() >= 2 && ascii_lower(g[0]) == 'd' && ascii_lower(g[1]) == 'r'
}

impl GameType {
    /// The game type of a game string; GemStone IV unless the string
    /// names a DragonRealms instance (also when there is no string).
    pub fn from_game_string(game: Option<&str>) -> (r: Option<Self>)
        ensures
            r == match game {
                Some(g) => if is_dr_game(g@) {
                    Some(GameType::DR)
                } else {
                    Some(GameType::GS4)
                },
                None => Some(GameType::GS4),
            },
    {
        match game {
            Some(g) => {
                let c = chars_of(g);
                if c.len() >= 2 && ascii_lower_exec(c[0]) == 'd' && ascii_lower_exec(c[1]) == 'r' {
                    Some(GameType::DR)
                } else {
                    Some(GameType::GS4)
                }
            },
            None => Some(GameType::GS4),
        }
    }
}

/// How colors are sent to the terminal.
#[derive(Debug, Clone, Copy, PartialEq, Eq, Structural)]
pub enum ColorMode {
    /// 24-bit RGB escapes.
    Direct,
    /// 256-color escapes with a customizable palette.
    Slot,
    /// 256-color escapes with the standard palette.
    Indexed,
}

impl Default for ColorMode {
    fn default() -> (r: Self)
        ensures
            r == ColorMode::Direct,
    {
        ColorMode::Direct
    }
}

impl ColorMode {
    /// The lowercase name used in the settings file.
    pub fn as_str(&self) -> (r: &'static str)
        ensures
            r@ == match *self {
                ColorMode::Direct => "direct"@,
                ColorMode::Slot => "slot"@,
                ColorMode::Indexed => "indexed"@,
            },
    {
        match self {
            ColorMode::Direct => "direct",
            ColorMode::Slot => "slot",
            ColorMode::Indexed => "indexed",
        }
    }
}

/// Where a timestamp goes on a line.
#[derive(Debug, Clone, Copy, PartialEq, Eq, Structural)]
pub enum TimestampPosition {
    /// After the text.
    End,
    /// Before the text.
    Start,
}

impl Default for TimestampPosition {
    fn default() -> (r: Self)
        ensures
            r == TimestampPosition::End,
    {
        TimestampPosition::End
    }
}

impl TimestampPosition {
    /// The lowercase name used in the settings file.
    pub fn as_str(&self) -> (r: &'static str)
        ensures
            r@ == match *self {
                TimestampPosition::End => "end"@,
                TimestampPosition::Start => "start"@,
            },
    {
        match self {
            TimestampPosition::End => "end",
            TimestampPosition::Start => "start",
        }
    }
}

/// A terminal size range and the layout to use within it.
#[derive(Debug, Clone, PartialEq)]
pub struct LayoutMapping {
    pub min_width: u16,
    pub min_height: u16,
    pub max_width: u16,
    pub max_height: u16,
    /// Layout name, e.g. "compact1".
    pub layout: String,
}

/// The size lies within the mapping's range, bounds included.
pub open spec fn mapping_matches(m: LayoutMapping, width: u16, height: u16) -> bool {
    m.min_width <= width <= m.max_width && m.min_height <= height <= m.max_height
}

impl LayoutMapping {
    /// Does the terminal size fall in this mapping's range?
    pub fn matches(&self, width: u16, height: u16) -> (r: bool)
        ensures
            r == mapping_matches(*self, width, height),
    {
        width >= self.min_width && width <= self.max_width && height >= self.min_height && height
            <= self.max_height
    }
}

/// Top-level configuration aggregated from the settings files.
pub struct Config {
    pub connection: ConnectionConfig,
    pub ui: UiConfig,
    /// The user's own highlight rules, by name.
    pub highlights: RuleMap,
    pub layout_mappings: Vec<LayoutMapping>,
    /// The character the configuration was loaded for.
    pub character: Option<String>,
    pub colors: ColorConfig,
    pub active_theme: String,
    /// Sections whose settings this library does not interpret, each held
    /// as the settings tree its file states.
    pub sound: SettingValue,
    pub tts: SettingValue,
    pub target_list: SettingValue,
    pub logging: SettingValue,
    pub menu_keybinds: SettingValue,
    pub streams: SettingValue,
    /// The `[highlights]` section: toggles of the highlight engine.
    pub highlight_settings: SettingValue,
    pub quickbars: SettingValue,
    /// Named event patterns, each as its settings tree.
    pub event_patterns: NamedMap<SettingValue>,
    /// Key bindings by key, each action as its settings tree.
    pub keybinds: NamedMap<SettingValue>,
    /// The `[app]` bindings of the keybinds file.
    pub app_keybinds: SettingValue,
}

impl Default for Config {
    /// Built-in settings: default connection and interface, no highlights,
    /// no layout mappings, no character, the "dark" theme, and colors with
    /// nothing set but the built-in interface colors; the sections held as
    /// settings trees state nothing, and there are no event patterns or key
    /// bindings.
    fn default() -> (r: Self)
        ensures
            r.connection.host@ == "127.0.0.1"@,
            r.connection.port == 8000,
            r.connection.character is None && r.connection.account is None,
            r.connection.password is None && r.connection.game is None,
            r.ui.buffer_size == 1000,
            r.ui.border_style@ == "single"@,
            r.ui.countdown_icon@ == "\u{f0c8}"@,
            r.ui.selection_enabled && r.ui.selection_respect_window_boundaries
                && r.ui.selection_auto_copy,
            r.ui.drag_modifier_key@ == "ctrl"@,
            r.ui.min_command_length == 3,
            r.ui.color_mode == ColorMode::Direct,
            r.ui.timestamp_position == TimestampPosition::End,
            r.ui.command_echo,
            r.ui.terminal_title@ == Seq::<char>::empty(),
            r.highlights@ == Map::<Seq<char>, crate::config::highlights::HighlightPattern>::empty(),
            r.layout_mappings@.len() == 0,
            r.character is None,
            r.active_theme@ == "dark"@,
            r.colors.presets@ == Map::<Seq<char>, crate::config::colors::PresetColor>::empty(),
            r.colors.color_palette@.len() == 0,
            r.colors.spell_colors@.len() == 0,
            r.colors.prompt_colors@.len() == 0,
            crate::config::colors::ui_view(r.colors.ui) == crate::config::colors::default_ui(),
            r.sound@ == empty_table() && r.tts@ == empty_table() && r.target_list@ == empty_table(),
            r.logging@ == empty_table() && r.menu_keybinds@ == empty_table(),
            r.streams@ == empty_table() && r.highlight_settings@ == empty_table(),
            r.quickbars@ == empty_table() && r.app_keybinds@ == empty_table(),
            r.event_patterns@ == Map::<Seq<char>, SettingValue>::empty(),
            r.keybinds@ == Map::<Seq<char>, SettingValue>::empty(),
    {
        Config {
            connection: ConnectionConfig::default(),
            ui: UiConfig::default(),
            highlights: crate::named::NamedMap::new(),
            layout_mappings: Vec::new(),
            character: None,
            colors: ColorConfig::empty(),
            active_theme: owned("dark"),
            sound: SettingValue::Table(Vec::new()),
            tts: SettingValue::Table(Vec::new()),
            target_list: SettingValue::Table(Vec::new()),
            logging: SettingValue::Table(Vec::new()),
            menu_keybinds: SettingValue::Table(Vec::new()),
            streams: SettingValue::Table(Vec::new()),
            highlight_settings: SettingValue::Table(Vec::new()),
            quickbars: SettingValue::Table(Vec::new()),
            event_patterns: NamedMap::new(),
            keybinds: NamedMap::new(),
            app_keybinds: SettingValue::Table(Vec::new()),
        }
    }
}

/// Where a single changed setting is written.
#[derive(Debug, Clone, Copy, PartialEq, Eq, Structural)]
pub enum SettingScope {
    /// The global settings file shared by all characters.
    Global,
    /// The character's own settings file.
    Character,
}

/// Palette entries whose name equals `name` after Unicode lowercasing of
/// both.
pub open spec fn same_name(name: Seq<char>) -> spec_fn(PaletteColor) -> bool {
    |c: PaletteColor| unicode_lowercase(c.name@) == unicode_lowercase(name)
}

/// The color of the first palette entry whose name equals `name` after
/// Unicode lowercasing of both.
pub open spec fn palette_lookup(palette: Seq<PaletteColor>, name: Seq<char>) -> Option<Seq<char>> {
    match first_index(palette, same_name(name)) {
        Some(i) => Some(palette[i].color@),
        None => None,
    }
}

/// `resolve_color`: a seven-byte string starting with '#' is a hex code
/// and passes through; an empty string, "none" (any ASCII case) and "-"
/// mean no color; a palette name resolves to its color; a name the
/// palette does not hold resolves to nothing.
pub open spec fn resolve_color_spec(input: Seq<char>, byte_len: nat, palette: Seq<PaletteColor>) -> Option<
    Seq<char>,
> {
    if input.len() > 0 && input[0] == '#' && byte_len == 7 {
        Some(input)
    } else if input.len() == 0 || eq_ignore_ascii_case(input, "none"@) || input == "-"@ {
        None
    } else {
        palette_lookup(palette, input)
    }
}

/// `resolve_palette_color`: the input is trimmed; a hex code (leading
/// '#') passes through, a palette name resolves to its color, anything
/// else passes through.
pub open spec fn resolve_palette_spec(input: Seq<char>, palette: Seq<PaletteColor>) -> Seq<char> {
    let t = trim(input);
    if t.len() > 0 && t[0] == '#' {
        t
    } else {
        match palette_lookup(palette, t) {
            Some(c) => c,
            None => t,
        }
    }
}

/// The setting keys `copy_setting` knows.
pub open spec fn is_known_setting(key: Seq<char>) -> bool {
    ||| key == "connection.host"@
    ||| key == "connection.port"@
    ||| key == "connection.character"@
    ||| key == "connection.account"@
    ||| key == "connection.password"@
    ||| key == "connection.game"@
    ||| key == "ui.buffer_size"@
    ||| key == "ui.border_style"@
    ||| key == "ui.countdown_icon"@
    ||| key == "ui.selection_enabled"@
    ||| key == "ui.selection_respect_window_boundaries"@
    ||| key == "ui.selection_auto_copy"@
    ||| key == "ui.drag_modifier_key"@
    ||| key == "ui.min_command_length"@
    ||| key == "active_theme"@
}

/// `dest` with the one setting named `key` taken from `src`; unknown keys
/// change nothing.
pub open spec fn copy_setting_spec(dest: Config, src: Config, key: Seq<char>) -> Config {
    let c = dest.connection;
    let u = dest.ui;
    if key == "connection.host"@ {
        Config { connection: ConnectionConfig { host: src.connection.host, ..c }, ..dest }
    } else if key == "connection.port"@ {
        Config { connection: ConnectionConfig { port: src.connection.port, ..c }, ..dest }
    } else if key == "connection.character"@ {
        Config { connection: ConnectionConfig { character: src.connection.character, ..c }, ..dest }
    } else if key == "connection.account"@ {
        Config { connection: ConnectionConfig { account: src.connection.account, ..c }, ..dest }
    } else if key == "connection.password"@ {
        Config { connection: ConnectionConfig { password: src.connection.password, ..c }, ..dest }
    } else if key == "connection.game"@ {
        Config { connection: ConnectionConfig { game: src.connection.game, ..c }, ..dest }
    } else if key == "ui.buffer_size"@ {
        Config { ui: UiConfig { buffer_size: src.ui.buffer_size, ..u }, ..dest }
    } else if key == "ui.border_style"@ {
        Config { ui: UiConfig { border_style: src.ui.border_style, ..u }, ..dest }
    } else if key == "ui.countdown_icon"@ {
        Config { ui: UiConfig { countdown_icon: src.ui.countdown_icon, ..u }, ..dest }
    } else if key == "ui.selection_enabled"@ {
        Config { ui: UiConfig { selection_enabled: src.ui.selection_enabled, ..u }, ..dest }
    } else if key == "ui.selection_respect_window_boundaries"@ {
        Config {
            ui: UiConfig {
                selection_respect_window_boundaries: src.ui.selection_respect_window_boundaries,
                ..u
            },
            ..dest
        }
    } else if key == "ui.selection_auto_copy"@ {
        Config { ui: UiConfig { selection_auto_copy: src.ui.selection_auto_copy, ..u }, ..dest }
    } else if key == "ui.drag_modifier_key"@ {
        Config { ui: UiConfig { drag_modifier_key: src.ui.drag_modifier_key, ..u }, ..dest }
    } else if key == "ui.min_command_length"@ {
        Config { ui: UiConfig { min_command_length: src.ui.min_command_length, ..u }, ..dest }
    } else if key == "active_theme"@ {
        Config { active_theme: src.active_theme, ..dest }
    } else {
        dest
    }
}

/// The position of the first of `names` equal to `target`.
pub fn first_name_match(names: &Vec<String>, target: &str) -> (r: Option<usize>)
    ensures
        match r {
            Some(i) => i < names@.len() && names@[i as int]@ == target@ && forall|j: int|
                0 <= j < i ==> (#[trigger] names@[j])@ != target@,
            None => forall|j: int| 0 <= j < names@.len() ==> (#[trigger] names@[j])@ != target@,
        },
{
    let mut i: usize = 0;
    while i < names.len()
        invariant
            i <= names@.len(),
            forall|j: int| 0 <= j < i ==> (#[trigger] names@[j])@ != target@,
        decreases names@.len() - i,
    {
        if str_eq(names[i].as_str(), target) {
            return Some(i);
        }
        i = i + 1;
    }
    None
}

/// The first palette entry named `name`, ignoring case.
fn palette_find(palette: &Vec<PaletteColor>, name: &str) -> (r: Option<usize>)
    ensures
        match r {
            Some(i) => i < palette@.len() && first_index(palette@, same_name(name@)) == Some(
                i as int,
            ),
            None => first_index(palette@, same_name(name@)) is None,
        },
{
    let ghost p = same_name(name@);
    let lower = to_lowercase(name);
    let mut lowered: Vec<String> = Vec::new();
    let mut i: usize = 0;
    while i < palette.len()
        invariant
            i <= palette@.len(),
            lowered@.len() == i,
            forall|j: int| 0 <= j < i ==> (#[trigger] lowered@[j])@ == unicode_lowercase(palette@[j].name@),
        decreases palette@.len() - i,
    {
        lowered.push(to_lowercase(palette[i].name.as_str()));
        i = i + 1;
    }
    let r = first_name_match(&lowered, lower.as_str());
    proof {
        lemma_first_index(palette@, p);
        assert forall|j: int| 0 <= j < palette@.len() implies p(#[trigger] palette@[j]) == (lowered@[j]@
            == lower@) by {}
        match first_index(palette@, p) {
            Some(k) => {
                assert(p(palette@[k]));
                assert(lowered@[k]@ == lower@);
                if let Some(i) = r {
                    if (i as int) < k {
                        assert(p(palette@[i as int]));
                    } else if (i as int) > k {
                        assert(lowered@[k]@ != lower@);
                    }
                }
            },
            None => {
                if let Some(i) = r {
                    assert(!p(palette@[i as int]));
                }
            },
        }
    }
    r
}

impl Config {
    /// The layout mapped to this terminal size: the first mapping whose
    /// range holds it.
    pub fn find_layout_for_size(&self, width: u16, height: u16) -> (r: Option<String>)
        ensures
            match first_index(
                self.layout_mappings@,
                |m: LayoutMapping| mapping_matches(m, width, height),
            ) {
                Some(i) => r == Some(self.layout_mappings@[i].layout),
                None => r is None,
            },
    {
        let ghost p = |m: LayoutMapping| mapping_matches(m, width, height);
        let mut i: usize = 0;
        while i < self.layout_mappings.len()
            invariant
                i <= self.layout_mappings@.len(),
                p == (|m: LayoutMapping| mapping_matches(m, width, height)),
                first_index(self.layout_mappings@.take(i as int), p) is None,
            decreases self.layout_mappings@.len() - i,
        {
            proof {
                lemma_first_index_step(self.layout_mappings@, p, i as int);
            }
            if self.layout_mappings[i].matches(width, height) {
                return Some(self.layout_mappings[i].layout.clone());
            }
            i = i + 1;
        }
        proof {
            assert(self.layout_mappings@.take(i as int) =~= self.layout_mappings@);
        }
        None
    }

    /// Resolve a color name to a hex code (see `resolve_color_spec`).
    pub fn resolve_color(&self, color_input: &str) -> (r: Option<String>)
        ensures
            opt_view(r) == resolve_color_spec(
                color_input@,
                color_input.len() as nat,
                self.colors.color_palette@,
            ),
    {
        let c = chars_of(color_input);
        if c.len() > 0 && c[0] == '#' && color_input.len() == 7 {
            return Some(owned(color_input));
        }
        let none_word = chars_of("none");
        if c.len() == 0 || eq_ignore_ascii_case_exec(&c, &none_word) || str_eq(color_input, "-") {
            return None;
        }
        match palette_find(&self.colors.color_palette, color_input) {
            Some(i) => Some(self.colors.color_palette[i].color.clone()),
            None => None,
        }
    }

    /// Resolve a palette color name, or pass a hex code or an unknown name
    /// through (trimmed).
    pub fn resolve_palette_color(&self, input: &str) -> (r: String)
        ensures
            r@ == resolve_palette_spec(input@, self.colors.color_palette@),
    {
        let t = trim_chars(&chars_of(input));
        let trimmed = string_from_chars(t.as_slice());
        if t.len() > 0 && t[0] == '#' {
            return trimmed;
        }
        match palette_find(&self.colors.color_palette, trimmed.as_str()) {
            Some(i) => self.colors.color_palette[i].color.clone(),
            None => trimmed,
        }
    }

    /// The bar and text colors configured for a spell: the style of the
    /// first spell color range listing it.
    pub fn get_spell_color_style(&self, spell_id: u32) -> (r: Option<SpellColorStyle>)
        ensures
            match first_index(
                self.colors.spell_colors@,
                |s: SpellColorRange| s.spells@.contains(spell_id),
            ) {
                Some(i) => r matches Some(st) && opt_view(st.bar_color) == bar_color_of(
                    self.colors.spell_colors@[i],
                ) && opt_view(st.text_color) == non_blank_opt(
                    opt_view(self.colors.spell_colors@[i].text_color),
                ),
                None => r is None,
            },
    {
        let ghost p = |s: SpellColorRange| s.spells@.contains(spell_id);
        let ranges = &self.colors.spell_colors;
        let mut i: usize = 0;
        while i < ranges.len()
            invariant
                i <= ranges@.len(),
                ranges@ == self.colors.spell_colors@,
                p == (|s: SpellColorRange| s.spells@.contains(spell_id)),
                first_index(ranges@.take(i as int), p) is None,
            decreases ranges@.len() - i,
        {
            proof {
                lemma_first_index_step(ranges@, p, i as int);
            }
            let spells = &ranges[i].spells;
            let mut j: usize = 0;
            let mut listed = false;
            while j < spells.len()
                invariant
                    j <= spells@.len(),
                    listed == spells@.take(j as int).contains(spell_id),
                decreases spells@.len() - j,
            {
                if spells[j] == spell_id {
                    listed = true;
                }
                proof {
                    let t0 = spells@.take(j as int);
                    let t1 = spells@.take(j as int + 1);
                    if t0.contains(spell_id) {
                        let k = choose|k: int| 0 <= k < t0.len() && t0[k] == spell_id;
                        assert(t1[k] == spell_id);
                    }
                    if spells@[j as int] == spell_id {
                        assert(t1[j as int] == spell_id);
                    }
                    if t1.contains(spell_id) && spells@[j as int] != spell_id {
                        let k = choose|k: int| 0 <= k < t1.len() && t1[k] == spell_id;
                        assert(t0[k] == spell_id);
                    }
                }
                j = j + 1;
            }
            proof {
                assert(spells@.take(j as int) =~= spells@);
            }
            if listed {
                return Some(ranges[i].style());
            }
            i = i + 1;
        }
        proof {
            assert(ranges@.take(i as int) =~= ranges@);
        }
        None
    }

    /// Merge a character's settings onto these global ones. The connection
    /// always comes from the character; so do the UI, sound, speech, target
    /// list, logging, menu key, stream, highlight-toggle and quickbar
    /// sections and the active theme; the character's event patterns are
    /// added over the global ones; its layout mappings replace the global
    /// ones when it has any. Highlights, key bindings, colors and the
    /// character stay as they are.
    pub fn merge_with(&mut self, character_config: Config)
        ensures
            final(self).connection == character_config.connection,
            final(self).ui == character_config.ui,
            final(self).sound == character_config.sound,
            final(self).tts == character_config.tts,
            final(self).target_list == character_config.target_list,
            final(self).logging == character_config.logging,
            final(self).event_patterns@ == old(self).event_patterns@.union_prefer_right(
                character_config.event_patterns@,
            ),
            final(self).menu_keybinds == character_config.menu_keybinds,
            final(self).streams == character_config.streams,
            final(self).highlight_settings == character_config.highlight_settings,
            final(self).quickbars == character_config.quickbars,
            final(self).keybinds == old(self).keybinds,
            final(self).app_keybinds == old(self).app_keybinds,
            final(self).layout_mappings@ == replace_if_nonempty(
                old(self).layout_mappings@,
                character_config.layout_mappings@,
            ),
            final(self).active_theme == character_config.active_theme,
            final(self).highlights == old(self).highlights,
            final(self).colors == old(self).colors,
            final(self).character == old(self).character,
    {
        let cc = character_config;
        self.connection = cc.connection;
        self.ui = cc.ui;
        self.sound = cc.sound;
        self.tts = cc.tts;
        self.target_list = cc.target_list;
        self.logging = cc.logging;
        self.event_patterns.absorb(cc.event_patterns);
        if cc.layout_mappings.len() > 0 {
            self.layout_mappings = cc.layout_mappings;
        }
        self.menu_keybinds = cc.menu_keybinds;
        self.active_theme = cc.active_theme;
        self.streams = cc.streams;
        self.highlight_settings = cc.highlight_settings;
        self.quickbars = cc.quickbars;
    }

    /// The configuration in effect: the global settings, with the
    /// character's merged on top when it has a settings file, the port
    /// overridden when one was given, and the character recorded.
    pub fn load_with_options(
        global: Config,
        character_config: Option<Config>,
        character: Option<&str>,
        port_override: Option<u16>,
    ) -> (r: Config)
        ensures
            ({
                let merged_conn = match character_config {
                    Some(c) => c.connection,
                    None => global.connection,
                };
                r.connection == ConnectionConfig {
                    port: match port_override {
                        Some(p) => p,
                        None => merged_conn.port,
                    },
                    ..merged_conn
                }
            }),
            r.ui == match character_config {
                Some(c) => c.ui,
                None => global.ui,
            },
            r.layout_mappings@ == match character_config {
                Some(c) => replace_if_nonempty(global.layout_mappings@, c.layout_mappings@),
                None => global.layout_mappings@,
            },
            r.active_theme == match character_config {
                Some(c) => c.active_theme,
                None => global.active_theme,
            },
            r.highlights == global.highlights,
            r.colors == global.colors,
            opt_view(r.character) == match character {
                Some(c) => Some(c@),
                None => None::<Seq<char>>,
            },
    {
        let mut config = global;
        if let Some(cc) = character_config {
            config.merge_with(cc);
        }
        if let Some(p) = port_override {
            config.connection.port = p;
        }
        config.character = match character {
            Some(c) => Some(owned(c)),
            None => None,
        };
        config
    }

    /// `load_with_options` with no character and no port override.
    pub fn load(global: Config, character_config: Option<Config>) -> (r: Config)
        ensures
            r.connection == match character_config {
                Some(c) => c.connection,
                None => global.connection,
            },
            r.ui == match character_config {
                Some(c) => c.ui,
                None => global.ui,
            },
            r.layout_mappings@ == match character_config {
                Some(c) => replace_if_nonempty(global.layout_mappings@, c.layout_mappings@),
                None => global.layout_mappings@,
            },
            r.active_theme == match character_config {
                Some(c) => c.active_theme,
                None => global.active_theme,
            },
            r.highlights == global.highlights,
            r.colors == global.colors,
            r.character is None,
    {
        Self::load_with_options(global, character_config, None, None)
    }

    /// Where a single changed setting is saved: connection settings always
    /// go to the character's file; the rest where the user chose.
    pub fn save_single_setting(&self, key: &str, is_global: bool) -> (r: SettingScope)
        ensures
            r == if starts_with(key@, "connection."@) {
                SettingScope::Character
            } else if is_global {
                SettingScope::Global
            } else {
                SettingScope::Character
            },
    {
        if starts_with_exec(&chars_of(key), &chars_of("connection.")) {
            SettingScope::Character
        } else if is_global {
            SettingScope::Global
        } else {
            SettingScope::Character
        }
    }

    /// Copy the one setting named `key` from `src` into `dest`. Returns
    /// whether the key is known; an unknown key changes nothing.
    pub fn copy_setting(dest: &mut Config, src: &Config, key: &str) -> (known: bool)
        ensures
            known == is_known_setting(key@),
            *final(dest) == copy_setting_spec(*old(dest), *src, key@),
    {
        if str_eq(key, "connection.host") {
            dest.connection.host = src.connection.host.clone();
        } else if str_eq(key, "connection.port") {
            dest.connection.port = src.connection.port;
        } else if str_eq(key, "connection.character") {
            dest.connection.character = src.connection.character.clone();
        } else if str_eq(key, "connection.account") {
            dest.connection.account = src.connection.account.clone();
        } else if str_eq(key, "connection.password") {
            dest.connection.password = src.connection.password.clone();
        } else if str_eq(key, "connection.game") {
            dest.connection.game = src.connection.game.clone();
        } else if str_eq(key, "ui.buffer_size") {
            dest.ui.buffer_size = src.ui.buffer_size;
        } else if str_eq(key, "ui.border_style") {
            dest.ui.border_style = src.ui.border_style.clone();
        } else if str_eq(key, "ui.countdown_icon") {
            dest.ui.countdown_icon = src.ui.countdown_icon.clone();
        } else if str_eq(key, "ui.selection_enabled") {
            dest.ui.selection_enabled = src.ui.selection_enabled;
        } else if str_eq(key, "ui.selection_respect_window_boundaries") {
            dest.ui.selection_respect_window_boundaries = src.ui.selection_respect_window_boundaries;
        } else if str_eq(key, "ui.selection_auto_copy") {
            dest.ui.selection_auto_copy = src.ui.selection_auto_copy;
        } else if str_eq(key, "ui.drag_modifier_key") {
            dest.ui.drag_modifier_key = src.ui.drag_modifier_key.clone();
        } else if str_eq(key, "ui.min_command_length") {
            dest.ui.min_command_length = src.ui.min_command_length;
        } else if str_eq(key, "active_theme") {
            dest.active_theme = src.active_theme.clone();
        } else {
            return false;
        }
        true
    }
}

/// A dialog's saved position and size.
#[derive(Debug, Clone, Copy, PartialEq, Eq, Structural)]
pub struct DialogPosition {
    pub x: u16,
    pub y: u16,
    pub width: Option<u16>,
    pub height: Option<u16>,
}

impl crate::named::Duplicate for DialogPosition {
    fn duplicate(&self) -> (r: Self) {
        *self
    }
}

/// Saved dialog positions (the widget state file): by dialog id, and by
/// container title for ephemeral container windows.
pub struct SavedDialogPositions {
    pub dialogs: crate::named::NamedMap<DialogPosition>,
    pub containers: crate::named::NamedMap<DialogPosition>,
}

impl Default for SavedDialogPositions {
    fn default() -> (r: Self)
        ensures
            r.dialogs@ == Map::<Seq<char>, DialogPosition>::empty(),
            r.containers@ == Map::<Seq<char>, DialogPosition>::empty(),
    {
        SavedDialogPositions {
            dialogs: crate::named::NamedMap::new(),
            containers: crate::named::NamedMap::new(),
        }
    }
}

/// Copying a setting twice is the same as copying it once, and copying
/// any key leaves every setting `copy_setting` does not name as it was.
pub proof fn copying_a_setting_is_idempotent(dest: Config, src: Config, key: Seq<char>)
    ensures
        copy_setting_spec(copy_setting_spec(dest, src, key), src, key) == copy_setting_spec(
            dest,
            src,
            key,
        ),
        copy_setting_spec(dest, src, key).highlights == dest.highlights,
        copy_setting_spec(dest, src, key).colors == dest.colors,
        copy_setting_spec(dest, src, key).layout_mappings == dest.layout_mappings,
        copy_setting_spec(dest, src, key).character == dest.character,
        !is_known_setting(key) ==> copy_setting_spec(dest, src, key) == dest,
{
}

} // verus!
