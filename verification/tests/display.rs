use vellum_fe::display::{cycle_focused_window, parse_hex_color, stance_percentage_to_text};

#[test]
fn stance_names_follow_the_percentage_bands() {
    assert_eq!(stance_percentage_to_text(100), "defensive");
    assert_eq!(stance_percentage_to_text(81), "defensive");
    assert_eq!(stance_percentage_to_text(80), "guarded");
    assert_eq!(stance_percentage_to_text(50), "neutral");
    assert_eq!(stance_percentage_to_text(21), "forward");
    assert_eq!(stance_percentage_to_text(1), "advance");
    assert_eq!(stance_percentage_to_text(0), "offensive");
    assert_eq!(stance_percentage_to_text(101), "unknown");
}

#[test]
fn hex_colors_parse_into_components() {
    assert_eq!(parse_hex_color("#ff8000"), Some((255, 128, 0)));
    assert_eq!(parse_hex_color("00FF7f"), Some((0, 255, 127)));
    assert_eq!(parse_hex_color("##0a0b0c"), Some((10, 11, 12)));
    assert_eq!(parse_hex_color("#+f+f+f"), Some((15, 15, 15)));
    assert_eq!(parse_hex_color("#fff"), None);
    assert_eq!(parse_hex_color("#gg0000"), None);
    assert_eq!(parse_hex_color("#ff80001"), None);
}

#[test]
fn focus_cycles_through_the_windows() {
    assert_eq!(cycle_focused_window(0, 3), 1);
    assert_eq!(cycle_focused_window(2, 3), 0);
    assert_eq!(cycle_focused_window(5, 0), 5);
}
