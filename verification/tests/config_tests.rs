use valve_server_manager::config::{ConfigManager, Settings};

#[test]
fn with_path_takes_parent_directory() {
    let manager = ConfigManager::with_path("/tmp/vsm/settings.toml".to_string());
    assert_eq!(manager.config_dir(), "/tmp/vsm");
    assert_eq!(manager.config_file(), "/tmp/vsm/settings.toml");
}

#[test]
fn with_path_of_bare_file_name_has_empty_directory() {
    let manager = ConfigManager::with_path("settings.toml".to_string());
    assert_eq!(manager.config_dir(), "");
}

#[test]
fn with_path_of_root_keeps_the_path() {
    let manager = ConfigManager::with_path("/".to_string());
    assert_eq!(manager.config_dir(), "/");
}

#[test]
fn default_settings_block_nothing() {
    let settings = Settings::default();
    assert!(!settings.persist_rules_on_exit);
    assert!(settings.blocked_pops.is_empty());
}
