use vellum_fe::app_core::{autosave_layout, finish_layout_save, save_layout, LayoutAutosave, WindowRect};
use vellum_fe::config::layout::{BorderSides, Layout, SpacerWidgetData, WindowBase, WindowDef};
use vellum_fe::named::NamedMap;

fn base(name: &str) -> WindowBase {
    WindowBase {
        name: name.to_string(),
        row: 0,
        col: 0,
        rows: 5,
        cols: 5,
        show_border: false,
        border_style: "single".to_string(),
        border_sides: BorderSides::default(),
        border_color: None,
        show_title: false,
        title: None,
        background_color: None,
        text_color: None,
        transparent_background: false,
        locked: false,
        min_rows: None,
        max_rows: None,
        min_cols: Some(10),
        max_cols: None,
        visible: true,
        content_align: None,
        title_position: "top-left".to_string(),
    }
}

#[test]
fn saving_captures_drawn_geometry_within_the_terminal() {
    let mut layout = Layout {
        windows: vec![
            WindowDef::Spacer { base: base("drawn"), data: SpacerWidgetData {} },
            WindowDef::Spacer { base: base("hidden"), data: SpacerWidgetData {} },
        ],
        terminal_width: Some(40),
        terminal_height: Some(20),
        base_layout: None,
        theme: None,
    };
    let mut drawn = NamedMap::new();
    drawn.insert("drawn".to_string(), WindowRect { x: 95, y: 3, width: 50, height: 30 });
    save_layout(&mut layout, &drawn, "dark", 100, 24);

    let b = layout.windows[0].base();
    assert_eq!(b.col, 95);
    assert_eq!(b.row, 3);
    assert_eq!(b.cols, 10, "cut to the room left, but not below the minimum");
    assert_eq!(b.rows, 21);
    assert_eq!(layout.windows[1].base().col, 0, "windows not drawn keep their geometry");
    assert_eq!(layout.theme.as_deref(), Some("dark"));
    assert_eq!(layout.terminal_width, Some(100));
    assert_eq!(layout.terminal_height, Some(24));
    assert_eq!(b.background_color.as_deref(), Some("-"));
}

fn spacer(name: &str) -> WindowDef {
    WindowDef::Spacer { base: base(name), data: SpacerWidgetData {} }
}

fn layout_of(windows: Vec<WindowDef>) -> Layout {
    Layout { windows, terminal_width: None, terminal_height: None, base_layout: None, theme: None }
}

#[test]
fn test_generate_spacer_name_empty_layout() {
    assert_eq!(vellum_fe::app_core::generate_spacer_name(&layout_of(vec![])), "spacer_1");
}

#[test]
fn test_generate_spacer_name_single_spacer() {
    assert_eq!(vellum_fe::app_core::generate_spacer_name(&layout_of(vec![spacer("spacer_1")])), "spacer_2");
}

#[test]
fn test_generate_spacer_name_multiple_spacers() {
    let layout = layout_of(vec![spacer("spacer_1"), spacer("spacer_2"), spacer("spacer_3")]);
    assert_eq!(vellum_fe::app_core::generate_spacer_name(&layout), "spacer_4");
}

#[test]
fn test_generate_spacer_name_with_gaps() {
    let layout = layout_of(vec![spacer("spacer_1"), spacer("spacer_3")]);
    assert_eq!(vellum_fe::app_core::generate_spacer_name(&layout), "spacer_4");
}

#[test]
fn test_generate_spacer_name_with_hidden_spacers() {
    let mut hidden = base("spacer_2");
    hidden.visible = false;
    let layout = layout_of(vec![spacer("spacer_1"), WindowDef::Spacer { base: hidden, data: SpacerWidgetData {} }]);
    assert_eq!(vellum_fe::app_core::generate_spacer_name(&layout), "spacer_3");
}

#[test]
fn test_generate_spacer_name_non_sequential() {
    let layout = layout_of(vec![spacer("spacer_2"), spacer("spacer_5")]);
    assert_eq!(vellum_fe::app_core::generate_spacer_name(&layout), "spacer_6");
}

#[test]
fn test_generate_spacer_name_large_numbers() {
    let layout = layout_of(vec![spacer("spacer_99")]);
    assert_eq!(vellum_fe::app_core::generate_spacer_name(&layout), "spacer_100");
}

#[test]
fn the_autosave_waits_for_the_layout_to_settle() {
    let mut autosave = LayoutAutosave::new();
    assert!(!autosave.is_due(10_000));
    autosave.schedule_layout_autosave(10_000);
    assert!(autosave.modified_since_save);
    assert!(!autosave.is_due(12_999));
    assert!(autosave.is_due(13_000));
    // Another change restarts the wait.
    autosave.schedule_layout_autosave(12_500);
    assert!(!autosave.is_due(13_000));
}

#[test]
fn an_autosave_records_theme_base_and_design_size() {
    let mut layout = Layout {
        windows: vec![],
        terminal_width: Some(120),
        terminal_height: None,
        base_layout: Some("wide".to_string()),
        theme: None,
    };
    let mut autosave = LayoutAutosave::new();
    autosave.schedule_layout_autosave(5);
    let profile = autosave_layout(&mut layout, &mut autosave, None, None, "dark");
    assert_eq!(profile, "default");
    assert!(autosave.pending_since.is_none());
    assert_eq!(layout.base_layout.as_deref(), Some("wide"));
    assert_eq!(layout.theme.as_deref(), Some("dark"));
    assert_eq!((layout.terminal_width, layout.terminal_height), (Some(120), None));
    let profile = autosave_layout(&mut layout, &mut autosave, Some("Hero"), Some("compact"), "light");
    assert_eq!(profile, "Hero");
    assert_eq!(layout.base_layout.as_deref(), Some("compact"));
}

#[test]
fn a_named_save_clears_the_modified_mark_and_becomes_the_base_layout() {
    let mut layout = Layout {
        windows: vec![],
        terminal_width: Some(100),
        terminal_height: Some(40),
        base_layout: Some("wide".to_string()),
        theme: None,
    };
    let mut autosave = LayoutAutosave::new();
    autosave.schedule_layout_autosave(7);
    let mut base_name: Option<String> = None;
    let profile = finish_layout_save(&mut layout, &mut autosave, &mut base_name, "hunting", Some("Hero"), "dark");
    assert_eq!(profile, "Hero");
    assert!(!autosave.modified_since_save);
    assert!(autosave.pending_since.is_none());
    assert_eq!(base_name.as_deref(), Some("hunting"));
    assert_eq!(layout.base_layout.as_deref(), Some("hunting"));
    assert_eq!(layout.theme.as_deref(), Some("dark"));
}
