use std::path::Path;

use poe_wayfinder_app::config_store::{default_dir, resolve_dir, ConfigStore, APP_DIR};

#[test]
fn a_configured_directory_is_used_as_given() {
    let fallback = default_dir(None, None, Some("/home/me".to_string()));

    assert_eq!(resolve_dir("/somewhere", fallback.clone()), "/somewhere");
    assert_eq!(resolve_dir("  ", fallback.clone()), fallback);
    assert_eq!(resolve_dir("", fallback.clone()), fallback);
}

#[test]
fn the_default_directory_is_named_after_the_app_and_is_not_the_working_directory() {
    for dir in [
        default_dir(Some("/appdata".to_string()), None, None),
        default_dir(None, Some("/xdg".to_string()), None),
        default_dir(None, None, Some("/home/me".to_string())),
        default_dir(None, None, None),
    ] {
        let dir = Path::new(&dir);

        assert_eq!(dir.file_name().and_then(|n| n.to_str()), Some(APP_DIR));
        assert!(dir.parent().is_some(), "{}", dir.display());
    }
}

#[test]
fn the_first_variable_that_is_set_wins() {
    let appdata = default_dir(
        Some("/appdata".to_string()),
        Some("/xdg".to_string()),
        Some("/home/me".to_string()),
    );
    let xdg = default_dir(
        Some(String::new()),
        Some("/xdg".to_string()),
        Some("/home/me".to_string()),
    );
    let home = default_dir(None, Some(String::new()), Some("/home/me".to_string()));

    assert_eq!(Path::new(&appdata), Path::new("/appdata").join(APP_DIR));
    assert_eq!(Path::new(&xdg), Path::new("/xdg").join(APP_DIR));
    assert_eq!(
        Path::new(&home),
        Path::new("/home/me").join(".config").join(APP_DIR)
    );
}

#[test]
fn the_store_keeps_its_settings_in_the_directory_it_was_given() {
    let store = ConfigStore::new("/cfg");

    assert_eq!(Path::new(store.path()), Path::new("/cfg").join("settings.json"));
}
