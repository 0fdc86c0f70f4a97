use vellum_fe::config::sparse::{
    deep_merge, diff_value, layer_settings, merge_items, prune_inherited, scrub_cleared_options,
    sparse_config, table_get, values_equal, SettingValue,
};

fn text(s: &str) -> SettingValue {
    SettingValue::Text(s.to_string())
}

fn table(entries: Vec<(&str, SettingValue)>) -> SettingValue {
    SettingValue::Table(entries.into_iter().map(|(k, v)| (k.to_string(), v)).collect())
}

fn get<'a>(v: &'a SettingValue, key: &str) -> Option<&'a SettingValue> {
    match v {
        SettingValue::Table(entries) => entries.iter().find(|(k, _)| k == key).map(|(_, v)| v),
        _ => None,
    }
}

fn defaults() -> SettingValue {
    table(vec![
        (
            "connection",
            table(vec![("host", text("127.0.0.1")), ("port", SettingValue::Integer(8000))]),
        ),
        ("logging", table(vec![("level", text("info"))])),
        ("ui", table(vec![("buffer_size", SettingValue::Integer(1000)), ("command_echo", SettingValue::Boolean(true))])),
    ])
}

#[test]
fn layers_override_only_the_keys_they_state() {
    let global = table(vec![("ui", table(vec![("buffer_size", SettingValue::Integer(5000))]))]);
    let profile = table(vec![("connection", table(vec![("host", text("10.0.0.5"))]))]);
    let layered = layer_settings(&defaults(), Some(&global), Some(&profile), &vec![]);
    let ui = get(&layered, "ui").unwrap();
    assert_eq!(get(ui, "buffer_size"), Some(&SettingValue::Integer(5000)));
    assert_eq!(get(ui, "command_echo"), Some(&SettingValue::Boolean(true)));
    let connection = get(&layered, "connection").unwrap();
    assert_eq!(get(connection, "host"), Some(&text("10.0.0.5")));
    assert_eq!(get(connection, "port"), Some(&SettingValue::Integer(8000)));
}

#[test]
fn the_profile_layer_wins_over_the_global_one() {
    let global = table(vec![("ui", table(vec![("buffer_size", SettingValue::Integer(5000))]))]);
    let profile = table(vec![("ui", table(vec![("buffer_size", SettingValue::Integer(200))]))]);
    let layered = layer_settings(&defaults(), Some(&global), Some(&profile), &vec![]);
    assert_eq!(get(get(&layered, "ui").unwrap(), "buffer_size"), Some(&SettingValue::Integer(200)));
}

#[test]
fn a_value_that_is_not_a_table_replaces_the_base_whole() {
    let mut base = table(vec![("list", SettingValue::Array(vec![text("a"), text("b")]))]);
    let overlay = table(vec![("list", SettingValue::Array(vec![text("c")]))]);
    deep_merge(&mut base, &overlay);
    assert_eq!(get(&base, "list"), Some(&SettingValue::Array(vec![text("c")])));
    let mut scalar = SettingValue::Integer(3);
    deep_merge(&mut scalar, &table(vec![("x", SettingValue::Integer(1))]));
    assert_eq!(scalar, table(vec![("x", SettingValue::Integer(1))]));
}

#[test]
fn a_save_states_only_the_divergences() {
    let base = defaults();
    let config = table(vec![
        (
            "connection",
            table(vec![("host", text("127.0.0.1")), ("port", SettingValue::Integer(8000))]),
        ),
        ("logging", table(vec![("level", text("info"))])),
        ("ui", table(vec![("buffer_size", SettingValue::Integer(4321)), ("command_echo", SettingValue::Boolean(true))])),
    ]);
    let diff = diff_value(&config, &base, "", &vec![]).unwrap();
    assert_eq!(diff, table(vec![("ui", table(vec![("buffer_size", SettingValue::Integer(4321))]))]));
}

#[test]
fn unchanged_settings_diff_to_nothing() {
    assert!(diff_value(&defaults(), &defaults(), "", &vec!["logging.level".to_string()]).is_none());
    assert!(values_equal(&defaults(), &defaults()));
    assert!(!values_equal(&defaults(), &table(vec![])));
}

#[test]
fn a_cleared_registered_setting_is_saved_as_empty_text() {
    let base = table(vec![("logging", table(vec![("dir", text("global-dir")), ("level", text("info"))]))]);
    let config = table(vec![("logging", table(vec![("level", text("info"))]))]);
    let registered = vec!["logging.dir".to_string()];
    let diff = diff_value(&config, &base, "", &registered).unwrap();
    assert_eq!(diff, table(vec![("logging", table(vec![("dir", text(""))]))]));
    // An unregistered omission is not written at all.
    assert!(diff_value(&config, &base, "", &vec![]).is_none());
}

#[test]
fn the_cleared_mark_loads_as_unset_for_optional_text_only() {
    let optional = vec!["logging.dir".to_string()];
    let mut value = table(vec![("logging", table(vec![("dir", text("")), ("prefix", text(""))]))]);
    scrub_cleared_options(&mut value, "", &optional);
    assert_eq!(value, table(vec![("logging", table(vec![("prefix", text(""))]))]));
}

#[test]
fn saving_then_loading_gives_the_settings_back() {
    let registered = vec!["logging.dir".to_string()];
    let optional = vec!["logging.dir".to_string()];
    let base = table(vec![
        ("logging", table(vec![("dir", text("global-dir")), ("level", text("info"))])),
        ("ui", table(vec![("buffer_size", SettingValue::Integer(1000))])),
    ]);
    let config = table(vec![
        ("logging", table(vec![("level", text("debug"))])),
        ("tts", table(vec![("enabled", SettingValue::Boolean(true))])),
        ("ui", table(vec![("buffer_size", SettingValue::Integer(777))])),
    ]);
    let saved = diff_value(&config, &base, "", &registered).unwrap();
    let reloaded = layer_settings(&base, None, Some(&saved), &optional);
    assert_eq!(reloaded, config);
}

#[test]
fn a_save_drops_restatements_and_keeps_foreign_keys() {
    let base = table(vec![("ui", table(vec![("buffer_size", SettingValue::Integer(5000)), ("command_echo", SettingValue::Boolean(true))]))]);
    let config = table(vec![("ui", table(vec![("buffer_size", SettingValue::Integer(5000)), ("command_echo", SettingValue::Boolean(false))]))]);
    let existing = vec![
        ("custom_key".to_string(), text("mine")),
        ("ui".to_string(), table(vec![("buffer_size", SettingValue::Integer(200))])),
    ];
    let saved = sparse_config(&existing, &config, &base, &vec![]);
    assert_eq!(
        saved,
        table(vec![
            ("custom_key", text("mine")),
            ("ui", table(vec![("command_echo", SettingValue::Boolean(false))])),
        ])
    );
}

#[test]
fn a_save_over_a_file_clears_a_registered_setting() {
    let registered = vec!["logging.dir".to_string()];
    let base = table(vec![("logging", table(vec![("dir", text("global-dir"))]))]);
    let config = table(vec![("logging", table(vec![]))]);
    let existing = vec![("logging".to_string(), table(vec![("dir", text("global-dir"))]))];
    let saved = sparse_config(&existing, &config, &base, &registered);
    assert_eq!(saved, table(vec![("logging", table(vec![("dir", text(""))]))]));
    let reloaded = layer_settings(&base, None, Some(&saved), &registered);
    assert_eq!(reloaded, config);
}

#[test]
fn pruning_in_place_removes_what_the_base_already_states() {
    let base = table(vec![("ui", table(vec![("buffer_size", SettingValue::Integer(5000))]))]);
    let config = table(vec![("ui", table(vec![("buffer_size", SettingValue::Integer(5000))]))]);
    let mut doc = vec![("ui".to_string(), table(vec![("buffer_size", SettingValue::Integer(5000))]))];
    prune_inherited(&mut doc, &config, &base, "", &vec![]);
    assert!(doc.is_empty());
    assert_eq!(table_get(&base, "ui"), Some(&table(vec![("buffer_size", SettingValue::Integer(5000))])));
    assert_eq!(table_get(&base, "missing"), None);
}

#[test]
fn merging_items_keeps_sibling_keys_and_recurses_into_tables() {
    let mut doc = vec![
        ("a".to_string(), SettingValue::Integer(1)),
        ("ui".to_string(), table(vec![("keep", SettingValue::Boolean(true)), ("size", SettingValue::Integer(1))])),
    ];
    let src = vec![
        ("b".to_string(), SettingValue::Integer(2)),
        ("ui".to_string(), table(vec![("size", SettingValue::Integer(9))])),
    ];
    merge_items(&mut doc, &src);
    assert_eq!(
        SettingValue::Table(doc),
        table(vec![
            ("a", SettingValue::Integer(1)),
            ("b", SettingValue::Integer(2)),
            ("ui", table(vec![("keep", SettingValue::Boolean(true)), ("size", SettingValue::Integer(9))])),
        ])
    );
}
