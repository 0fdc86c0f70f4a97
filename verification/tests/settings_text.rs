use vellum_fe::config::settings_text::{layer_config_text, sparse_config_text, SettingsError};
use vellum_fe::config::sparse::SettingValue;

fn text(s: &str) -> SettingValue {
    SettingValue::Text(s.to_string())
}

fn integer(i: i64) -> SettingValue {
    SettingValue::Integer(i)
}

fn table(entries: Vec<(&str, SettingValue)>) -> SettingValue {
    SettingValue::Table(entries.into_iter().map(|(k, v)| (k.to_string(), v)).collect())
}

fn get<'a>(v: &'a SettingValue, path: &str) -> Option<&'a SettingValue> {
    let mut cur = v;
    for key in path.split('.') {
        cur = match cur {
            SettingValue::Table(entries) => entries.iter().find(|(k, _)| k == key).map(|(_, v)| v)?,
            _ => return None,
        };
    }
    Some(cur)
}

fn set(v: &mut SettingValue, path: &str, value: Option<SettingValue>) {
    let keys: Vec<&str> = path.split('.').collect();
    let mut cur = v;
    for key in &keys[..keys.len() - 1] {
        cur = match cur {
            SettingValue::Table(entries) => &mut entries.iter_mut().find(|(k, _)| k == key).unwrap().1,
            _ => panic!("not a table"),
        };
    }
    let last = keys[keys.len() - 1];
    if let SettingValue::Table(entries) = cur {
        entries.retain(|(k, _)| k != last);
        if let Some(value) = value {
            entries.push((last.to_string(), value));
            entries.sort_by(|a, b| a.0.cmp(&b.0));
        }
    }
}

/// Built-in settings, keys ascending as the `toml` crate reads them.
fn defaults() -> SettingValue {
    table(vec![
        ("connection", table(vec![("host", text("127.0.0.1")), ("port", integer(8000))])),
        ("logging", table(vec![("level", text("info"))])),
        ("sound", table(vec![("volume", SettingValue::Float("1.0".to_string()))])),
        ("tts", table(vec![("enabled", SettingValue::Boolean(false))])),
        ("ui", table(vec![("buffer_size", integer(1000))])),
        ("web", table(vec![("bind", text("127.0.0.1"))])),
    ])
}

fn registered() -> Vec<String> {
    vec!["logging.dir".to_string(), "tts.voice".to_string()]
}

const FULL_DUMP: &str = "[connection]\nhost = \"127.0.0.1\"\nport = 8000\n\n[logging]\nlevel = \"info\"\n\n[sound]\nvolume = 1.0\n\n[tts]\nenabled = false\n\n[ui]\nbuffer_size = 1000\n\n[web]\nbind = \"127.0.0.1\"\n";

#[test]
fn layering_is_per_leaf_not_per_section() {
    let global = "[ui]\nbuffer_size = 5000\n";
    let profile = "[connection]\nhost = \"10.0.0.5\"\n";
    let layered = layer_config_text(&defaults(), Some(global), Some(profile), &registered()).unwrap();
    assert_eq!(get(&layered, "ui.buffer_size"), Some(&integer(5000)));
    assert_eq!(get(&layered, "connection.host"), Some(&text("10.0.0.5")));
    assert_eq!(get(&layered, "connection.port"), Some(&integer(8000)));
}

#[test]
fn profile_layer_wins_over_global() {
    let global = "[ui]\nbuffer_size = 5000\n";
    let profile = "[ui]\nbuffer_size = 200\n";
    let layered = layer_config_text(&defaults(), Some(global), Some(profile), &registered()).unwrap();
    assert_eq!(get(&layered, "ui.buffer_size"), Some(&integer(200)));
}

#[test]
fn a_layer_that_is_not_toml_is_refused() {
    let r = layer_config_text(&defaults(), Some("[ui\nbuffer_size ="), None, &registered());
    assert_eq!(r, Err(SettingsError::NotToml));
    let r = layer_config_text(&defaults(), None, Some("= 1"), &registered());
    assert_eq!(r, Err(SettingsError::NotToml));
    assert_eq!(layer_config_text(&defaults(), None, None, &registered()), Ok(defaults()));
}

#[test]
fn layered_floats_and_dates_keep_their_written_form() {
    let profile = "when = 1979-05-27T07:32:00Z\n[sound]\nvolume = 0.25\n";
    let layered = layer_config_text(&defaults(), None, Some(profile), &registered()).unwrap();
    assert_eq!(get(&layered, "sound.volume"), Some(&SettingValue::Float("0.25".to_string())));
    assert_eq!(get(&layered, "when"), Some(&SettingValue::Datetime("1979-05-27T07:32:00Z".to_string())));
}

#[test]
fn sparse_save_writes_only_divergences() {
    let base = defaults();
    let mut config = defaults();
    set(&mut config, "ui.buffer_size", Some(integer(4321)));
    let out = sparse_config_text("", &config, &base, &registered()).unwrap();
    assert!(out.contains("buffer_size = 4321"), "{}", out);
    assert!(!out.contains("[sound]"), "{}", out);
    assert!(!out.contains("[connection]"), "{}", out);
}

#[test]
fn sparse_save_thins_full_dumps_and_keeps_foreign_keys() {
    let base = defaults();
    let existing = format!("# my notes\ncustom_key = \"mine\"\n{}", FULL_DUMP);
    let mut config = defaults();
    set(&mut config, "sound.volume", Some(SettingValue::Float("0.25".to_string())));
    let out = sparse_config_text(&existing, &config, &base, &registered()).unwrap();
    assert!(!out.contains("buffer_size"), "{}", out);
    assert!(!out.contains("[connection]"), "{}", out);
    assert!(out.contains("volume = 0.25"), "{}", out);
    assert!(out.contains("# my notes"), "{}", out);
    assert!(out.contains("custom_key = \"mine\""), "{}", out);
}

#[test]
fn sparse_save_removes_override_reset_to_inherited() {
    let mut base = defaults();
    set(&mut base, "ui.buffer_size", Some(integer(5000)));
    let existing = "[ui]\nbuffer_size = 200\n";
    let mut config = defaults();
    set(&mut config, "ui.buffer_size", Some(integer(5000)));
    let out = sparse_config_text(existing, &config, &base, &registered()).unwrap();
    assert!(!out.contains("buffer_size"), "{}", out);
}

#[test]
fn cleared_option_round_trips_through_save_and_load() {
    let mut base = defaults();
    set(&mut base, "logging.dir", Some(text("global-dir")));
    let config = defaults();
    let existing = "[logging]\ndir = \"global-dir\"\n";
    let saved = sparse_config_text(existing, &config, &base, &registered()).unwrap();
    assert!(saved.contains("dir = \"\""), "{}", saved);

    let global = "[logging]\ndir = \"global-dir\"\n";
    let layered = layer_config_text(&defaults(), Some(global), Some(&saved), &registered()).unwrap();
    assert_eq!(get(&layered, "logging.dir"), None);
}

#[test]
fn sparse_then_layer_round_trips() {
    let base = defaults();
    let mut config = defaults();
    set(&mut config, "ui.buffer_size", Some(integer(777)));
    set(&mut config, "tts.enabled", Some(SettingValue::Boolean(true)));
    set(&mut config, "web.bind", Some(text("0.0.0.0")));
    let saved = sparse_config_text("", &config, &base, &registered()).unwrap();
    let reloaded = layer_config_text(&base, None, Some(&saved), &registered()).unwrap();
    assert_eq!(get(&reloaded, "ui.buffer_size"), Some(&integer(777)));
    assert_eq!(get(&reloaded, "tts.enabled"), Some(&SettingValue::Boolean(true)));
    assert_eq!(get(&reloaded, "web.bind"), Some(&text("0.0.0.0")));
}

#[test]
fn comments_on_entries_that_stay_survive_a_save() {
    let base = defaults();
    let existing = "# about the client\n[ui]\n# my own setting\nextra = 1 # keep this\nbuffer_size = 200\n";
    let mut config = defaults();
    set(&mut config, "ui.buffer_size", Some(integer(300)));
    let out = sparse_config_text(existing, &config, &base, &registered()).unwrap();
    assert!(out.contains("# about the client"), "{}", out);
    assert!(out.contains("# my own setting\nextra = 1 # keep this"), "{}", out);
    assert!(out.contains("buffer_size = 300"), "{}", out);
    assert!(!out.contains("200"), "{}", out);
}

#[test]
fn nested_tables_and_arrays_are_written_in_full() {
    let base = defaults();
    let mut config = defaults();
    set(
        &mut config,
        "ui.colors",
        Some(table(vec![("accent", text("#ff0000")), ("list", SettingValue::Array(vec![integer(1), table(vec![("a", integer(2))])]))])),
    );
    let saved = sparse_config_text("", &config, &base, &registered()).unwrap();
    let reloaded = layer_config_text(&base, None, Some(&saved), &registered()).unwrap();
    assert_eq!(get(&reloaded, "ui.colors.accent"), Some(&text("#ff0000")));
    assert_eq!(
        get(&reloaded, "ui.colors.list"),
        Some(&SettingValue::Array(vec![integer(1), table(vec![("a", integer(2))])]))
    );
}

#[test]
fn saves_refuse_what_cannot_be_written() {
    let base = defaults();
    assert_eq!(sparse_config_text("[ui", &base, &base, &registered()), Err(SettingsError::NotToml));
    let mut config = defaults();
    set(&mut config, "sound.volume", Some(SettingValue::Float("half".to_string())));
    assert_eq!(sparse_config_text("", &config, &base, &registered()), Err(SettingsError::Unwritable));
    assert_eq!(sparse_config_text("", &integer(3), &base, &registered()), Err(SettingsError::NotATable));
    assert_eq!(sparse_config_text("# nothing\n", &base, &base, &registered()), Ok("# nothing\n".to_string()));
}

#[test]
fn cleared_option_sentinel_loads_as_none() {
    let base = defaults();
    let mut with_dir = defaults();
    set(&mut with_dir, "logging.dir", Some(text("mylogs")));
    let global = sparse_config_text("", &with_dir, &base, &registered()).unwrap();
    assert!(global.contains("mylogs"), "{}", global);

    let profile = "[logging]\ndir = \"\"\n";
    let layered = layer_config_text(&defaults(), Some(&global), Some(profile), &registered()).unwrap();
    assert_eq!(get(&layered, "logging.dir"), None, "the \"\" sentinel must clear the option");

    let layered = layer_config_text(&defaults(), None, Some("[tts]\nvoice = \"\"\n"), &registered()).unwrap();
    assert_eq!(get(&layered, "tts.voice"), None);
}
