use vellum_fe::config::macros::{MacroButton, MacroGroup, MacroOption, MacrosConfig};

fn option(label: &str, command: &str, confirm: bool) -> MacroOption {
    MacroOption { label: label.to_string(), command: command.to_string(), confirm }
}

fn sample() -> MacrosConfig {
    MacrosConfig {
        groups: vec![MacroGroup {
            name: "Town".to_string(),
            buttons: vec![
                MacroButton {
                    label: "Look".to_string(),
                    command: Some("look".to_string()),
                    color: None,
                    confirm: false,
                    options: Vec::new(),
                },
                MacroButton {
                    label: "Travel".to_string(),
                    command: None,
                    color: Some("#d9b44f".to_string()),
                    confirm: false,
                    options: vec![option("Bank", ";go2 bank", false), option("Gate", ";go2 gate", true)],
                },
            ],
        }],
        floating: vec![MacroButton {
            label: "Atk".to_string(),
            command: Some(";bigshot".to_string()),
            color: None,
            confirm: false,
            options: Vec::new(),
        }],
    }
}

#[test]
fn resolve_by_index_path() {
    let macros = sample();
    assert_eq!(macros.resolve("g:0:b:0"), Some("look"));
    assert_eq!(macros.resolve("g:0:b:1:o:1"), Some(";go2 gate"));
    assert_eq!(macros.resolve("f:0"), Some(";bigshot"));
    assert_eq!(macros.resolve("g:0:b:1"), None);
    assert_eq!(macros.resolve("g:9:b:0"), None);
    assert_eq!(macros.resolve("bogus"), None);
    assert_eq!(macros.resolve("g:0:b:0:o:5"), None);
}

#[test]
fn malformed_macro_ids_resolve_to_nothing() {
    let macros = sample();
    assert_eq!(macros.resolve(""), None);
    assert_eq!(macros.resolve("f"), None);
    assert_eq!(macros.resolve("f:x"), None);
    assert_eq!(macros.resolve("f:0:o"), None);
    assert_eq!(macros.resolve("g:0:x:0"), None);
    assert_eq!(macros.resolve("f:+0"), Some(";bigshot"));
    assert_eq!(macros.resolve("g:0:b:1:o:0:extra"), None);
    assert_eq!(MacrosConfig::default().resolve("f:0"), None);
    assert!(!MacroOption::default().confirm);
}

#[test]
fn the_profile_file_wins_wholesale_over_the_global_one() {
    let profile = sample();
    let mut global = sample();
    global.floating.clear();
    assert_eq!(MacrosConfig::load(Some(profile.clone()), Some(global.clone())), profile);
    assert_eq!(MacrosConfig::load(None, Some(global.clone())), global);
    assert_eq!(MacrosConfig::load(None, None), MacrosConfig::default());
}
