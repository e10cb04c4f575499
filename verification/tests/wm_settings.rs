use coconut::wm_config::{at, bool_at, int_at, put, str_at};

fn document() -> toml::Value {
    toml::from_str(
        "[general]\ngaps_in = 5\nlayout = \"dwindle\"\nanimate = true\n[decoration.blur]\nenabled = false\nsize = 8\n",
    )
    .expect("valid TOML")
}

#[test]
fn settings_are_read_by_key_path() {
    let doc = document();
    assert_eq!(int_at(&doc, &["general", "gaps_in"], 0), 5);
    assert_eq!(str_at(&doc, &["general", "layout"], "master"), "dwindle");
    assert!(bool_at(&doc, &["general", "animate"], false));
    assert!(!bool_at(&doc, &["decoration", "blur", "enabled"], true));
    assert_eq!(int_at(&doc, &["decoration", "blur", "size"], 1), 8);
    assert!(at(&doc, &[]).is_some());
}

#[test]
fn missing_or_mistyped_settings_fall_back() {
    let doc = document();
    assert_eq!(int_at(&doc, &["general", "gaps_out"], 10), 10);
    assert_eq!(int_at(&doc, &["general", "layout"], 3), 3);
    assert_eq!(str_at(&doc, &["general", "gaps_in"], "x"), "x");
    assert!(bool_at(&doc, &["general", "layout", "deeper"], true));
    assert!(at(&doc, &["nothing"]).is_none());
    assert!(!bool_at(&doc, &["decoration"], false));
}

#[test]
fn a_written_setting_reads_back() {
    let mut doc = document();
    put(&mut doc, &["general", "animate"], toml::Value::Boolean(false));
    assert!(!bool_at(&doc, &["general", "animate"], true));
    put(&mut doc, &["general", "gaps_in"], toml::Value::Integer(12));
    assert_eq!(int_at(&doc, &["general", "gaps_in"], 0), 12);
}

#[test]
fn writing_creates_the_missing_tables() {
    let mut doc = document();
    put(&mut doc, &["input", "touchpad", "tap_to_click"], toml::Value::Boolean(true));
    assert!(at(&doc, &["input"]).is_some_and(toml::Value::is_table));
    assert!(at(&doc, &["input", "touchpad"]).is_some_and(toml::Value::is_table));
    assert!(bool_at(&doc, &["input", "touchpad", "tap_to_click"], false));

    let mut empty = toml::Value::Table(toml::map::Map::new());
    put(&mut empty, &["workspaces", "wrap"], toml::Value::Boolean(true));
    assert_eq!(empty, toml::from_str::<toml::Value>("[workspaces]\nwrap = true\n").unwrap());
}

#[test]
fn writing_leaves_the_other_settings_alone() {
    let mut doc = document();
    put(&mut doc, &["decoration", "blur", "size"], toml::Value::Integer(3));
    assert_eq!(int_at(&doc, &["decoration", "blur", "size"], 1), 3);
    assert!(!bool_at(&doc, &["decoration", "blur", "enabled"], true));
    assert_eq!(int_at(&doc, &["general", "gaps_in"], 0), 5);
    assert_eq!(str_at(&doc, &["general", "layout"], "master"), "dwindle");
    assert!(bool_at(&doc, &["general", "animate"], false));
}

#[test]
fn a_top_level_setting_is_written_in_the_document_itself() {
    let mut doc = document();
    put(&mut doc, &["version"], toml::Value::Integer(2));
    assert_eq!(int_at(&doc, &["version"], 0), 2);
    assert_eq!(int_at(&doc, &["general", "gaps_in"], 0), 5);
}
