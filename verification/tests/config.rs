use vellum_fe::config::colors::{ColorConfig, PaletteColor, PresetColor, SpellColorRange, UiColors};
use vellum_fe::config::layout::{
    BorderSides, ContentAlign, Layout, LayoutError, SpacerWidgetData, TextWidgetData, WindowBase,
    WindowDef,
};
use vellum_fe::config::layout_check::{count_errors, IssueKind};
use vellum_fe::config::paths::{ConfigLocation, PathError};
use vellum_fe::config::settings::{ConnectionConfig, UiConfig};
use vellum_fe::config::{
    first_name_match, ColorMode, Config, GameType, LayoutMapping, SettingScope, TimestampPosition,
    WidgetCategory,
};
use vellum_fe::config::single_precision::scale_single;
use vellum_fe::config::sparse::SettingValue;
use vellum_fe::named::NamedMap;

fn window_base(name: &str, row: u16, col: u16, rows: u16, cols: u16, show_border: bool) -> WindowBase {
    WindowBase {
        name: name.to_string(),
        row,
        col,
        rows,
        cols,
        show_border,
        border_style: "single".to_string(),
        border_sides: BorderSides::default(),
        border_color: None,
        show_title: false,
        title: None,
        background_color: None,
        text_color: None,
        transparent_background: false,
        locked: false,
        min_rows: None,
        max_rows: None,
        min_cols: None,
        max_cols: None,
        visible: true,
        content_align: None,
        title_position: "top-left".to_string(),
    }
}

fn text_data(stream: &str, buffer_size: usize) -> TextWidgetData {
    TextWidgetData {
        streams: vec![stream.to_string()],
        buffer_size,
        wordwrap: true,
        show_timestamps: false,
        timestamp_position: None,
        compact: false,
    }
}

fn layout_of(windows: Vec<WindowDef>, width: Option<u16>, height: Option<u16>) -> Layout {
    Layout {
        windows,
        terminal_width: width,
        terminal_height: height,
        base_layout: None,
        theme: None,
    }
}

fn spacer(name: &str) -> WindowDef {
    WindowDef::Spacer { base: window_base(name, 0, 0, 2, 2, false), data: SpacerWidgetData {} }
}

fn text(name: &str) -> WindowDef {
    WindowDef::Text { base: window_base(name, 0, 0, 10, 10, true), data: text_data("main", 1000) }
}

#[test]
fn test_spacer_template_exists() {
    let template = Config::get_window_template("spacer");
    assert!(template.is_some(), "Spacer template should exist");
}

#[test]
fn test_spacer_template_returns_spacer_widget() {
    let template = Config::get_window_template("spacer");
    assert!(template.is_some());

    match template.unwrap() {
        WindowDef::Spacer { .. } => {}
        _ => {
            panic!("Expected WindowDef::Spacer variant");
        }
    }
}

#[test]
fn test_spacer_template_widget_type() {
    let template = Config::get_window_template("spacer").expect("Spacer template exists");
    assert_eq!(template.widget_type(), "spacer");
}

#[test]
fn test_spacer_template_defaults() {
    let template = Config::get_window_template("spacer").expect("Spacer template exists");

    if let WindowDef::Spacer { base, .. } = template {
        assert_eq!(base.name, "");
        assert_eq!(base.rows, 2);
        assert_eq!(base.cols, 2);
        assert!(!base.show_border);
        assert!(!base.show_title);
        assert!(!base.transparent_background);
        assert!(base.visible);
    } else {
        panic!("Expected WindowDef::Spacer variant");
    }
}

#[test]
fn test_spacer_in_templates_list() {
    let templates = Config::list_window_templates();
    assert!(
        templates.contains(&"spacer".to_string()),
        "Spacer should be in available templates list"
    );
}

#[test]
fn test_spacer_widget_category() {
    let category = WidgetCategory::from_widget_type("spacer");
    assert_eq!(category, WidgetCategory::Other);
}

#[test]
fn test_spacer_data_structure() {
    let template = Config::get_window_template("spacer").expect("Spacer template exists");

    if let WindowDef::Spacer { data, .. } = template {
        let _data = SpacerWidgetData {};
        assert_eq!(data, SpacerWidgetData {});
    } else {
        panic!("Expected WindowDef::Spacer variant");
    }
}

#[test]
fn test_spacer_resize_scales_proportionally() {
    let widget_a = WindowDef::Text {
        base: window_base("widget_a", 0, 0, 10, 10, true),
        data: text_data("main", 1000),
    };
    let spacer = WindowDef::Spacer {
        base: window_base("spacer_1", 0, 10, 10, 5, false),
        data: SpacerWidgetData {},
    };
    let widget_b = WindowDef::Text {
        base: window_base("widget_b", 0, 15, 10, 10, true),
        data: text_data("main", 1000),
    };
    let mut layout = layout_of(vec![widget_a, spacer, widget_b], Some(50), Some(20));

    layout.scale_to_terminal_size(100, 40);

    let spacer_base = layout.windows[1].base();
    assert_eq!(spacer_base.col, 20);
    assert_eq!(spacer_base.cols, 10);
    assert_eq!(spacer_base.row, 0);
    assert_eq!(spacer_base.rows, 20);
}

#[test]
fn test_spacer_maintains_gap_after_resize() {
    let widget_a = WindowDef::Text {
        base: window_base("a", 0, 0, 10, 10, true),
        data: text_data("main", 1000),
    };
    let spacer = WindowDef::Spacer {
        base: window_base("spacer_1", 0, 10, 10, 5, false),
        data: SpacerWidgetData {},
    };
    let widget_b = WindowDef::Text {
        base: window_base("b", 0, 15, 10, 10, true),
        data: text_data("main", 1000),
    };
    let mut layout = layout_of(vec![widget_a, spacer, widget_b], Some(50), Some(20));

    assert_eq!(layout.windows[0].base().col + layout.windows[0].base().cols, 10);
    assert_eq!(layout.windows[1].base().col, 10);
    assert_eq!(layout.windows[2].base().col, 15);

    layout.scale_to_terminal_size(100, 40);

    let a_end = layout.windows[0].base().col + layout.windows[0].base().cols;
    let spacer_start = layout.windows[1].base().col;
    let b_start = layout.windows[2].base().col;

    assert_eq!(a_end, spacer_start);
    assert_eq!(spacer_start + layout.windows[1].base().cols, b_start);
}

#[test]
fn test_spacer_no_widget_collision_after_resize() {
    let mut main_base = window_base("main", 0, 0, 20, 30, true);
    main_base.show_title = true;
    main_base.title = Some("Main".to_string());
    let widget_a = WindowDef::Text { base: main_base, data: text_data("main", 5000) };
    let spacer = WindowDef::Spacer {
        base: window_base("spacer_1", 0, 30, 20, 2, false),
        data: SpacerWidgetData {},
    };
    let mut status_base = window_base("status", 0, 32, 20, 20, true);
    status_base.show_title = true;
    status_base.title = Some("Status".to_string());
    let widget_b = WindowDef::Text { base: status_base, data: text_data("status", 100) };
    let mut layout = layout_of(vec![widget_a, spacer, widget_b], Some(100), Some(25));

    let a_end = layout.windows[0].base().col + layout.windows[0].base().cols;
    let spacer_start = layout.windows[1].base().col;
    assert_eq!(a_end, spacer_start, "Initial state: A should end where spacer starts");

    layout.scale_to_terminal_size(200, 50);

    let a_end = layout.windows[0].base().col + layout.windows[0].base().cols;
    let spacer_start = layout.windows[1].base().col;
    let spacer_end = layout.windows[1].base().col + layout.windows[1].base().cols;
    let b_start = layout.windows[2].base().col;

    assert!(a_end <= spacer_start, "A should not overlap spacer");
    assert!(spacer_end <= b_start, "Spacer should not overlap B");
}

#[test]
fn scaling_rounds_halves_up_and_respects_limits() {
    let mut base = window_base("w", 3, 3, 3, 3, true);
    base.min_cols = Some(5);
    base.max_rows = Some(2);
    let mut layout = layout_of(
        vec![WindowDef::Text { base, data: text_data("main", 10) }],
        Some(2),
        Some(2),
    );
    layout.scale_to_terminal_size(3, 3);
    let b = layout.windows[0].base();
    // 3 * 3 / 2 = 4.5 rounds to 5.
    assert_eq!(b.col, 5);
    assert_eq!(b.row, 5);
    assert_eq!(b.cols, 5);
    assert_eq!(b.rows, 2);
    assert_eq!(layout.terminal_width, Some(3));
    assert_eq!(layout.terminal_height, Some(3));
}

#[test]
fn scaling_multiplies_by_the_single_precision_ratio() {
    // 70 / 60 is 1.1666666 in single precision, so 27 scales to
    // 31.499998 and rounds down, not to 32.
    let base = window_base("gap", 27, 27, 6, 6, false);
    let mut layout = layout_of(
        vec![WindowDef::Spacer { base, data: SpacerWidgetData {} }],
        Some(60),
        Some(60),
    );
    layout.scale_to_terminal_size(70, 60);
    let b = layout.windows[0].base();
    assert_eq!(b.col, 31);
    assert_eq!(b.row, 27);
    assert_eq!(b.cols, 7);
    assert_eq!(b.rows, 6);
}

#[test]
fn scaled_coordinates_match_single_precision_arithmetic() {
    let sizes: Vec<u16> = (1u16..=400).step_by(3).chain([1024u16, 4096, 65535].into_iter()).collect();
    let mut v: u32 = 0;
    while v <= 65535 {
        let vv = v as u16;
        for &n in sizes.iter() {
            for &d in sizes.iter() {
                let expected = ((vv as f32) * (n as f32 / d as f32)).round() as u16;
                let got = scale_single(vv, n, d);
                let got16 = if got > 65535 { 65535 } else { got as u16 };
                assert_eq!(got16, expected, "v={} n={} d={}", vv, n, d);
            }
        }
        v += 251;
    }
    for d in 1u16..=300 {
        for n in 1u16..=300 {
            for vv in [0u16, 1, 7, 27, 99, 119, 333, 1001] {
                let expected = ((vv as f32) * (n as f32 / d as f32)).round() as u16;
                let got = scale_single(vv, n, d).min(65535) as u16;
                assert_eq!(got, expected, "v={} n={} d={}", vv, n, d);
            }
        }
    }
}

#[test]
fn scaling_without_a_design_size_keeps_geometry_and_a_zero_one_does_nothing() {
    let mut layout = layout_of(vec![text("main")], None, None);
    layout.scale_to_terminal_size(80, 24);
    assert_eq!(layout.windows[0].base().cols, 10);
    assert_eq!(layout.terminal_width, Some(80));

    let mut zero = layout_of(vec![text("main")], Some(0), Some(24));
    zero.scale_to_terminal_size(80, 24);
    assert_eq!(zero.terminal_width, Some(0));
    assert_eq!(zero.windows[0].base().cols, 10);
}

#[test]
fn spacer_names_go_one_past_the_largest_number() {
    assert_eq!(layout_of(vec![], None, None).generate_spacer_name(), "spacer_1");
    let layout = layout_of(vec![spacer("spacer_2"), spacer("spacer_5"), text("spacer_9")], None, None);
    assert_eq!(layout.generate_spacer_name(), "spacer_6");
    let layout = layout_of(vec![spacer("spacer_99")], None, None);
    assert_eq!(layout.generate_spacer_name(), "spacer_100");
    let layout = layout_of(vec![spacer("spacer_x"), spacer("other")], None, None);
    assert_eq!(layout.generate_spacer_name(), "spacer_1");
}

#[test]
fn widget_names_strip_the_custom_suffix_and_count_every_window() {
    let layout = layout_of(vec![text("custom-text-2"), spacer("custom-text-7")], None, None);
    assert_eq!(layout.generate_widget_name("Text_Custom"), "custom-text-8");
    assert_eq!(layout.generate_widget_name("tabbedtext_custom"), "custom-tabbedtext-1");
}

#[test]
fn widget_names_are_refused_when_no_next_number_is_left() {
    let layout = layout_of(vec![text("custom-text-2"), spacer("custom-text-7")], None, None);
    assert_eq!(layout.try_generate_widget_name("Text_Custom"), Some("custom-text-8".to_string()));
    assert_eq!(layout.custom_number_in_use("text"), 7);
    let full = layout_of(vec![spacer("custom-text-4294967295")], None, None);
    assert_eq!(full.custom_number_in_use("text"), u32::MAX);
    assert_eq!(full.try_generate_widget_name("TEXT"), None);
    assert_eq!(full.try_generate_widget_name("bar"), Some("custom-bar-1".to_string()));
}

#[test]
fn adding_a_spacer_names_it_and_adding_an_existing_window_shows_it() {
    let mut layout = layout_of(vec![spacer("spacer_1"), text("main")], None, None);
    assert_eq!(layout.add_window("spacer"), Ok(()));
    assert_eq!(layout.windows.len(), 3);
    assert_eq!(layout.windows[2].name(), "spacer_2");
    assert!(layout.windows[2].base().visible);

    assert_eq!(layout.hide_window("main"), Ok(()));
    assert!(!layout.windows[1].base().visible);
    assert_eq!(layout.add_window("main"), Ok(()));
    assert!(layout.windows[1].base().visible);
    assert_eq!(layout.windows.len(), 3);

    assert_eq!(layout.add_window("no_such_template"), Err(LayoutError::UnknownTemplate));
    assert_eq!(layout.hide_window("ghost"), Err(LayoutError::WindowNotFound));
}

#[test]
fn get_window_finds_the_first_of_a_name() {
    let layout = layout_of(vec![text("main"), spacer("spacer_1")], None, None);
    assert_eq!(layout.get_window("spacer_1").unwrap().widget_type(), "spacer");
    assert!(layout.get_window("missing").is_none());
}

#[test]
fn saving_normalizes_colors_and_puts_spacers_last() {
    let mut layout = layout_of(vec![spacer("spacer_1"), text("main"), text("side")], None, None);
    layout.save(Some((120, 40)), false);
    assert_eq!(layout.windows[0].name(), "main");
    assert_eq!(layout.windows[1].name(), "side");
    assert_eq!(layout.windows[2].name(), "spacer_1");
    assert_eq!(layout.windows[0].base().background_color.as_deref(), Some("-"));
    assert_eq!(layout.windows[2].base().text_color.as_deref(), Some("-"));
    assert_eq!(layout.terminal_width, Some(120));
    layout.save(Some((80, 24)), false);
    assert_eq!(layout.terminal_width, Some(120), "a recorded size is kept unless forced");
    layout.save(Some((80, 24)), true);
    assert_eq!(layout.terminal_width, Some(80));
}

#[test]
fn remove_window_if_default_keeps_modified_windows() {
    let template = Config::get_window_template("spacer").unwrap();
    let mut layout = layout_of(vec![template, text("main")], None, None);
    layout.remove_window_if_default("spacer");
    assert_eq!(layout.windows.len(), 2, "the template is unnamed, so no window named spacer matches it");
    let mut unnamed = Config::get_window_template("spacer").unwrap();
    if let WindowDef::Spacer { base, .. } = &mut unnamed {
        base.name = "spacer".to_string();
    }
    let mut layout = layout_of(vec![unnamed, text("main")], None, None);
    layout.remove_window_if_default("spacer");
    assert_eq!(layout.windows.len(), 2);
}

#[test]
fn loading_prefers_the_auto_layout_and_scales_it() {
    let mut auto = layout_of(vec![text("main")], Some(50), Some(20));
    auto.base_layout = Some("wide".to_string());
    let embedded = layout_of(vec![], None, None);
    let (layout, name) = Layout::load_with_terminal_size(Some(auto), None, embedded, Some((100, 40)));
    assert_eq!(name.as_deref(), Some("wide"));
    assert_eq!(layout.windows[0].base().cols, 20);

    let embedded = layout_of(vec![spacer("spacer_1")], None, None);
    let (layout, name) = Layout::load_with_terminal_size(None, None, embedded, Some((100, 40)));
    assert_eq!(name.as_deref(), Some("layout"));
    assert_eq!(layout.windows.len(), 1);
}

#[test]
fn widget_categories_and_names() {
    assert_eq!(WidgetCategory::from_widget_type("countdown"), WidgetCategory::Countdown);
    assert_eq!(WidgetCategory::from_widget_type("dashboard"), WidgetCategory::Status);
    assert_eq!(WidgetCategory::from_widget_type("tabbedtext"), WidgetCategory::TextWindow);
    assert_eq!(WidgetCategory::from_widget_type("items"), WidgetCategory::Entity);
    assert_eq!(WidgetCategory::ProgressBar.display_name(), "Progress Bars");
    assert_eq!(WidgetCategory::ActiveEffects.display_name(), "Active Effects");
}

#[test]
fn game_type_defaults_to_gemstone() {
    assert_eq!(GameType::from_game_string(Some("DRplatinum")), Some(GameType::DR));
    assert_eq!(GameType::from_game_string(Some("dr")), Some(GameType::DR));
    assert_eq!(GameType::from_game_string(Some("prime")), Some(GameType::GS4));
    assert_eq!(GameType::from_game_string(Some("d")), Some(GameType::GS4));
    assert_eq!(GameType::from_game_string(None), Some(GameType::GS4));
}

#[test]
fn enum_names_and_defaults() {
    assert_eq!(ColorMode::default(), ColorMode::Direct);
    assert_eq!(ColorMode::Indexed.as_str(), "indexed");
    assert_eq!(TimestampPosition::default(), TimestampPosition::End);
    assert_eq!(TimestampPosition::Start.as_str(), "start");
}

#[test]
fn content_alignment_parses_and_offsets() {
    assert_eq!(ContentAlign::from_str("Bottom-Right"), ContentAlign::BottomRight);
    assert_eq!(ContentAlign::from_str("centerleft"), ContentAlign::Left);
    assert_eq!(ContentAlign::from_str("nonsense"), ContentAlign::TopLeft);
    assert_eq!(ContentAlign::Center.calculate_offset(10, 4, 21, 9), (2, 5));
    assert_eq!(ContentAlign::BottomRight.calculate_offset(10, 4, 21, 9), (5, 11));
    assert_eq!(ContentAlign::Center.calculate_offset(30, 20, 21, 9), (0, 0));
}

#[test]
fn layout_mappings_match_inclusive_ranges() {
    let m = LayoutMapping {
        min_width: 80,
        min_height: 24,
        max_width: 120,
        max_height: 40,
        layout: "compact".to_string(),
    };
    assert!(m.matches(80, 24));
    assert!(m.matches(120, 40));
    assert!(!m.matches(121, 30));
}

fn base_config() -> Config {
    Config {
        connection: ConnectionConfig::default(),
        ui: UiConfig::default(),
        highlights: NamedMap::new(),
        layout_mappings: Vec::new(),
        character: None,
        colors: ColorConfig::empty(),
        active_theme: "dark".to_string(),
        sound: SettingValue::Table(Vec::new()),
        tts: SettingValue::Table(Vec::new()),
        target_list: SettingValue::Table(Vec::new()),
        logging: SettingValue::Table(Vec::new()),
        menu_keybinds: SettingValue::Table(Vec::new()),
        streams: SettingValue::Table(Vec::new()),
        highlight_settings: SettingValue::Table(Vec::new()),
        quickbars: SettingValue::Table(Vec::new()),
        event_patterns: NamedMap::new(),
        keybinds: NamedMap::new(),
        app_keybinds: SettingValue::Table(Vec::new()),
    }
}

fn table(entries: Vec<(&str, SettingValue)>) -> SettingValue {
    SettingValue::Table(entries.into_iter().map(|(k, v)| (k.to_string(), v)).collect())
}

#[test]
fn merging_a_character_takes_its_sections_and_adds_its_event_patterns() {
    let mut global = base_config();
    global.sound = table(vec![("volume", SettingValue::Integer(5))]);
    global.logging = table(vec![("enabled", SettingValue::Boolean(true))]);
    global.event_patterns.insert("stun".to_string(), SettingValue::Integer(1));
    global.event_patterns.insert("web".to_string(), SettingValue::Integer(2));
    global.keybinds.insert("f1".to_string(), SettingValue::Text("look".to_string()));
    global.layout_mappings = vec![LayoutMapping {
        min_width: 0,
        min_height: 0,
        max_width: 10,
        max_height: 10,
        layout: "tiny".to_string(),
    }];

    let mut character = base_config();
    character.sound = table(vec![("volume", SettingValue::Integer(9))]);
    character.event_patterns.insert("web".to_string(), SettingValue::Integer(20));
    character.event_patterns.insert("roundtime".to_string(), SettingValue::Integer(3));
    character.active_theme = "light".to_string();

    global.merge_with(character);
    assert_eq!(global.sound, table(vec![("volume", SettingValue::Integer(9))]));
    assert_eq!(global.logging, table(vec![]));
    assert_eq!(global.event_patterns.len(), 3);
    assert_eq!(global.event_patterns.get("stun"), Some(&SettingValue::Integer(1)));
    assert_eq!(global.event_patterns.get("web"), Some(&SettingValue::Integer(20)));
    assert_eq!(global.event_patterns.get("roundtime"), Some(&SettingValue::Integer(3)));
    assert_eq!(global.keybinds.get("f1"), Some(&SettingValue::Text("look".to_string())));
    assert_eq!(global.layout_mappings.len(), 1);
    assert_eq!(global.active_theme, "light");
}

#[test]
fn find_layout_for_size_takes_the_first_matching_mapping() {
    let mut config = base_config();
    config.layout_mappings = vec![
        LayoutMapping { min_width: 0, min_height: 0, max_width: 99, max_height: 99, layout: "small".to_string() },
        LayoutMapping { min_width: 50, min_height: 0, max_width: 500, max_height: 500, layout: "big".to_string() },
    ];
    assert_eq!(config.find_layout_for_size(60, 30).as_deref(), Some("small"));
    assert_eq!(config.find_layout_for_size(200, 30).as_deref(), Some("big"));
    assert_eq!(config.find_layout_for_size(600, 30), None);
}

#[test]
fn colors_resolve_through_the_palette() {
    let mut config = base_config();
    config.colors.color_palette.push(PaletteColor::new("Primary Blue", "#0066cc", "blue"));
    assert_eq!(config.resolve_palette_color("  primary blue "), "#0066cc");
    assert_eq!(config.resolve_palette_color("#ff0000"), "#ff0000");
    assert_eq!(config.resolve_palette_color(" Unknown Name "), "Unknown Name");

    assert_eq!(config.resolve_color("#abcdef").as_deref(), Some("#abcdef"));
    assert_eq!(config.resolve_color("PRIMARY BLUE").as_deref(), Some("#0066cc"));
    assert_eq!(config.resolve_color("None"), None);
    assert_eq!(config.resolve_color("-"), None);
    assert_eq!(config.resolve_color(""), None);
    assert_eq!(config.resolve_color("abcdef"), None);
    assert_eq!(config.resolve_color("Mystery"), None);
    assert_eq!(config.resolve_color("#abc"), None);
}

#[test]
fn spell_styles_skip_blank_colors() {
    let range = SpellColorRange {
        spells: vec![101, 107],
        color: "#111111".to_string(),
        bar_color: Some("   ".to_string()),
        text_color: Some("#222222".to_string()),
        bg_color: None,
    };
    let style = range.style();
    assert_eq!(style.bar_color.as_deref(), Some("#111111"));
    assert_eq!(style.text_color.as_deref(), Some("#222222"));

    let mut config = base_config();
    config.colors.spell_colors.push(range);
    assert!(config.get_spell_color_style(107).is_some());
    assert!(config.get_spell_color_style(999).is_none());
}

#[test]
fn palette_colors_carry_their_slot() {
    let c = PaletteColor::with_slot("Red", "#ff0000", "red", 196);
    assert_eq!(c.slot, Some(196));
    assert!(!c.favorite);
    assert_eq!(PaletteColor::new("Red", "#ff0000", "red").slot, None);
}

#[test]
fn character_colors_override_global_ones() {
    let mut global = ColorConfig::empty();
    global.presets.insert("speech".to_string(), PresetColor { fg: Some("#aaaaaa".to_string()), bg: None });
    global.presets.insert("whisper".to_string(), PresetColor { fg: Some("#bbbbbb".to_string()), bg: None });
    global.color_palette.push(PaletteColor::new("A", "#000001", "x"));
    global.ui.border_color = "#123456".to_string();
    let mut character = ColorConfig::empty();
    character.presets.insert("speech".to_string(), PresetColor { fg: Some("#cccccc".to_string()), bg: None });
    character.ui.text_color = "#654321".to_string();

    let merged = ColorConfig::load_with_merge(global, character);
    assert_eq!(merged.presets.get("speech").unwrap().fg.as_deref(), Some("#cccccc"));
    assert_eq!(merged.presets.get("whisper").unwrap().fg.as_deref(), Some("#bbbbbb"));
    assert_eq!(merged.color_palette.len(), 1, "an empty character palette keeps the global one");
    assert_eq!(merged.ui.border_color, "#123456", "a default character color does not override");
    assert_eq!(merged.ui.text_color, "#654321");
    assert_eq!(UiColors::default().selection_bg_color, "#4a4a4a");
}

#[test]
fn palette_upsert_and_delete() {
    let mut colors = ColorConfig::empty();
    ColorConfig::save_single_palette_color(&mut colors, &PaletteColor::new("A", "#000001", "x"));
    ColorConfig::save_single_palette_color(&mut colors, &PaletteColor::new("B", "#000002", "x"));
    ColorConfig::save_single_palette_color(&mut colors, &PaletteColor::new("A", "#0000ff", "y"));
    assert_eq!(colors.color_palette.len(), 2);
    assert_eq!(colors.color_palette[0].color, "#0000ff");
    assert!(ColorConfig::delete_single_palette_color(&mut colors, "A"));
    assert!(!ColorConfig::delete_single_palette_color(&mut colors, "A"));
    assert_eq!(colors.color_palette.len(), 1);
}

#[test]
fn missing_global_presets_come_from_the_defaults() {
    let mut defaults = ColorConfig::empty();
    defaults.presets.insert("speech".to_string(), PresetColor { fg: Some("#d".to_string()), bg: None });
    defaults.presets.insert("links".to_string(), PresetColor { fg: Some("#l".to_string()), bg: None });
    defaults.color_palette.push(PaletteColor::new("D", "#dddddd", "x"));
    let mut global = ColorConfig::empty();
    global.presets.insert("speech".to_string(), PresetColor { fg: Some("#g".to_string()), bg: None });
    let filled = ColorConfig::fill_from_defaults(global, &defaults);
    assert_eq!(filled.presets.get("speech").unwrap().fg.as_deref(), Some("#g"));
    assert_eq!(filled.presets.get("links").unwrap().fg.as_deref(), Some("#l"));
    assert_eq!(filled.color_palette.len(), 1);
}

#[test]
fn character_settings_merge_over_global_ones() {
    let mut global = base_config();
    global.layout_mappings.push(LayoutMapping {
        min_width: 0, min_height: 0, max_width: 10, max_height: 10, layout: "g".to_string(),
    });
    global.active_theme = "light".to_string();
    let mut character = base_config();
    character.connection.port = 9000;
    character.connection.game = Some("dr".to_string());
    let merged = Config::load_with_options(global, Some(character), Some("Hero"), Some(7777));
    assert_eq!(merged.connection.port, 7777);
    assert_eq!(merged.connection.game.as_deref(), Some("dr"));
    assert_eq!(merged.layout_mappings.len(), 1, "an empty list keeps the global mappings");
    assert_eq!(merged.active_theme, "dark");
    assert_eq!(merged.character.as_deref(), Some("Hero"));
}

#[test]
fn connection_settings_always_save_to_the_character() {
    let config = base_config();
    assert_eq!(config.save_single_setting("connection.port", true), SettingScope::Character);
    assert_eq!(config.save_single_setting("ui.buffer_size", true), SettingScope::Global);
    assert_eq!(config.save_single_setting("ui.buffer_size", false), SettingScope::Character);

    let mut dest = base_config();
    let mut src = base_config();
    src.ui.buffer_size = 42;
    src.active_theme = "neon".to_string();
    assert!(Config::copy_setting(&mut dest, &src, "ui.buffer_size"));
    assert_eq!(dest.ui.buffer_size, 42);
    assert_eq!(dest.active_theme, "dark");
    assert!(!Config::copy_setting(&mut dest, &src, "ui.unknown"));
    assert!(Config::copy_setting(&mut dest, &src, "active_theme"));
    assert_eq!(dest.active_theme, "neon");
}

#[test]
fn paths_live_under_the_profile_or_global_directories() {
    let base = Config::base_dir(None, Some("/home/me")).unwrap();
    assert_eq!(base.root, "/home/me");
    assert_eq!(base.parts, vec![".vellum-fe".to_string()]);
    let custom = Config::base_dir(Some("/tmp/vf"), Some("/home/me")).unwrap();
    assert!(custom.parts.is_empty());
    assert_eq!(Config::base_dir(None, None), Err(PathError::NoHomeDirectory));

    let p = Config::config_path(&base, None);
    assert_eq!(p.parts, vec![".vellum-fe", "profiles", "default", "config.toml"]);
    let p = Config::window_registry_path(&base, Some("Hero"));
    assert_eq!(p.parts, vec![".vellum-fe", "profiles", "Hero", "window_registry.toml"]);
    let p = Config::layout_path(&base, "wide");
    assert_eq!(p.parts, vec![".vellum-fe", "layouts", "wide.toml"]);
    let p = Config::sounds_dir(&base);
    assert_eq!(p.parts, vec![".vellum-fe", "global", "sounds"]);
    let _: ConfigLocation = Config::common_config_path(&base);
}

#[test]
fn layout_check_reports_errors_and_warnings_window_by_window() {
    let windows = vec![
        WindowDef::Text { base: window_base("main", 0, 0, 20, 80, true), data: text_data("main", 1000) },
        WindowDef::Text { base: window_base("flat", 0, 0, 0, 0, true), data: text_data("x", 10) },
        WindowDef::Text { base: window_base("", 1, 1, 1, 5, true), data: text_data("y", 10) },
    ];
    let layout = layout_of(windows, None, None);
    let issues = layout.validate();
    let kinds: Vec<IssueKind> = issues.iter().map(|i| i.kind).collect();
    assert_eq!(
        kinds,
        vec![IssueKind::ZeroHeight, IssueKind::ZeroWidth, IssueKind::EmptyName, IssueKind::VerySmall]
    );
    assert_eq!(issues[0].window, "flat");
    assert_eq!((issues[3].cols, issues[3].rows), (5, 1));
    assert_eq!(count_errors(&issues), 3);
    assert!(!issues[3].is_error());
}

#[test]
fn a_sound_layout_passes_the_check() {
    let layout = layout_of(vec![text("main"), spacer("spacer_1")], None, None);
    let issues = layout.validate();
    assert!(issues.is_empty());
    assert_eq!(count_errors(&issues), 0);
}

#[test]
fn default_config_has_builtin_settings() {
    let config = Config::default();
    assert_eq!(config.connection.host, "127.0.0.1");
    assert_eq!(config.connection.port, 8000);
    assert!(config.connection.character.is_none());
    assert_eq!(config.ui.buffer_size, 1000);
    assert_eq!(config.active_theme, "dark");
    assert_eq!(config.highlights.len(), 0);
    assert!(config.layout_mappings.is_empty());
    assert!(config.character.is_none());
    assert!(config.colors.color_palette.is_empty());
}

#[test]
fn saved_layouts_are_the_toml_stems_in_order() {
    let names: Vec<String> = ["zeta.toml", "notes.txt", ".toml", "alpha.toml", "a.b.toml", "Beta.toml", "toml"]
        .iter()
        .map(|s| s.to_string())
        .collect();
    assert_eq!(Config::list_layouts(&names), vec!["Beta", "a.b", "alpha", "zeta"]);
    assert_eq!(Config::list_saved_keybinds(&vec![]), Vec::<String>::new());
}

#[test]
fn shared_directories_sit_under_the_root() {
    let root = ConfigLocation { root: "/home/u/.vellum-fe".to_string(), parts: vec![] };
    assert_eq!(Config::layouts_dir(&root).parts, vec!["layouts"]);
    assert_eq!(Config::highlights_dir(&root).parts, vec!["highlights"]);
    assert_eq!(Config::keybinds_dir(&root).parts, vec!["keybinds"]);
    assert_eq!(Config::global_dir(&root).parts, vec!["global"]);
}

#[test]
fn lowercased_inputs_take_the_same_paths() {
    let names = vec!["primary blue".to_string(), "red".to_string(), "red".to_string()];
    assert_eq!(first_name_match(&names, "red"), Some(1));
    assert_eq!(first_name_match(&names, "Red"), None);
    assert_eq!(ContentAlign::from_lowercase("bottomright"), ContentAlign::BottomRight);
    assert_eq!(ContentAlign::from_lowercase("BottomRight"), ContentAlign::TopLeft);
    let layout = layout_of(vec![text("custom-text-3")], None, None);
    assert_eq!(layout.generate_widget_name_lowered("text_custom"), "custom-text-4");
    assert_eq!(layout.generate_widget_name_lowered("Text"), "custom-Text-1");
}

#[test]
fn scaling_to_the_design_size_keeps_every_window() {
    let mut layout = layout_of(vec![text("main"), spacer("spacer_1")], Some(80), Some(24));
    let before = layout.clone();
    layout.scale_to_terminal_size(80, 24);
    assert_eq!(layout, before);
}
