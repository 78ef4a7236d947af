use muharrir::prefs::config_dir_from;

#[test]
fn config_dir_prefers_xdg_config_home() {
    let dir = config_dir_from(Some("/xdg"), Some("/home/user"), "muharrir");
    assert_eq!(dir, "/xdg/muharrir");
}

#[test]
fn config_dir_falls_back_to_home_config() {
    let dir = config_dir_from(None, Some("/home/user"), "muharrir");
    assert_eq!(dir, "/home/user/.config/muharrir");
}

#[test]
fn config_dir_falls_back_to_current_dir() {
    let dir = config_dir_from(None, None, "muharrir");
    assert_eq!(dir, "./muharrir");
}

#[test]
fn config_dir_has_app_name() {
    let dir = config_dir_from(Some("/tmp/cfg"), None, "muharrir");
    assert!(std::path::Path::new(&dir).ends_with("muharrir"));
}
