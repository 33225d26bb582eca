use zsm::config::Config;

#[test]
fn missing_settings_fall_back_to_defaults() {
    let config = Config::from_settings(None, None, None, None);
    assert_eq!(config.session_separator, ".");
    assert!(config.base_paths.is_empty());
    assert_eq!(config.default_layout, None);
    assert!(!config.show_resurrectable_sessions);
}

#[test]
fn base_paths_split_on_colons_and_semicolons() {
    let config = Config::from_settings(Some("-"), Some(" /work : ;/home/me/src;"), Some("compact"), Some("true"));
    assert_eq!(config.session_separator, "-");
    assert_eq!(config.base_paths, vec!["/work".to_string(), "/home/me/src".to_string()]);
    assert_eq!(config.default_layout.as_deref(), Some("compact"));
    assert!(config.show_resurrectable_sessions);
    assert!(!Config::from_settings(None, None, None, Some("yes")).show_resurrectable_sessions);
}
