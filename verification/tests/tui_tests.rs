use valve_server_manager::config::{ConfigManager, Settings};
use valve_server_manager::firewall::linux::LinuxFirewall;
use valve_server_manager::firewall::windows::WindowsFirewall;
use valve_server_manager::firewall::MockCommandExecutor;
use valve_server_manager::sdr::{get_fallback_sdr_config, PoP, PopMap, Relay};
use valve_server_manager::tui::ui::{
    decimal_text, details_panel, latency_bar, latency_bar_count, latency_level, list_entry_text, list_rows, location_text,
    persist_marker, popup_split, short_description, status_text, LatencyLevel,
};
use valve_server_manager::tui::{AppState, KeyAction, KeyCode, KeyPress};

type TestApp = AppState<LinuxFirewall<MockCommandExecutor>>;

fn pop(desc: &str, subnet: &str) -> PoP {
    PoP {
        desc: desc.to_string(),
        aliases: None,
        relays: Some(vec![Relay { ipv4: subnet.to_string(), port_range: None }]),
    }
}

fn make_test_app() -> TestApp {
    let mut pops = PopMap::new();
    pops.insert("sea".to_string(), pop("Seattle (Washington)", "192.69.96.0/22"));
    let firewall = LinuxFirewall::with_executor(MockCommandExecutor::new());
    let config_manager = ConfigManager::with_path("/tmp/vsm_test_tui_config.toml".to_string());
    let settings = Settings::default();
    AppState::with_components(pops, firewall, config_manager, settings)
}

fn key(code: KeyCode) -> KeyPress {
    KeyPress { code, ctrl: false }
}

#[test]
fn test_tui_state_toggle_and_reset() {
    let mut app = make_test_app();
    assert!(app.blocked_pops.is_empty());

    // Toggle selected (sea)
    app.toggle_selected();
    assert!(app.blocked_pops.contains(&"sea".to_string()));

    // Toggle again (unblock)
    app.toggle_selected();
    assert!(app.blocked_pops.is_empty());

    // Block and reset
    app.toggle_selected();
    assert!(app.blocked_pops.contains(&"sea".to_string()));
    app.unblock_all();
    assert!(app.blocked_pops.is_empty());
}

#[test]
fn toggle_keeps_settings_in_sync() {
    let mut app = make_test_app();
    app.toggle_selected();
    assert_eq!(app.settings.blocked_pops, vec!["sea".to_string()]);
    app.toggle_selected();
    assert!(app.settings.blocked_pops.is_empty());
}

#[test]
fn failed_block_leaves_pop_allowed() {
    let mut app = make_test_app();
    let mut mock = MockCommandExecutor::new();
    mock.mock_success = false;
    app.firewall = LinuxFirewall::with_executor(mock);
    app.toggle_selected();
    assert!(app.blocked_pops.is_empty());
}

#[test]
fn test_app_state_new() {
    let mut mock = MockCommandExecutor::new();
    mock.mock_stdout = "Rule Name: VSM_Block_fra\n".to_string();
    let firewall = WindowsFirewall::with_executor(mock);
    let mut settings = Settings::default();
    settings.blocked_pops = vec!["sea".to_string(), "fra".to_string()];
    let app = AppState::new(
        get_fallback_sdr_config(),
        firewall,
        ConfigManager::with_path("/tmp/vsm_test_new.toml".to_string()),
        settings,
    );
    assert_eq!(app.blocked_pops, vec!["fra".to_string(), "sea".to_string()]);
    assert_eq!(app.selectable_pops.len(), 2);
    assert_eq!(app.selected_index, 0);
    // both known PoPs were blocked again
    let cmds = &app.firewall.executor().commands;
    assert!(cmds.iter().any(|c| c.contains("add rule name=VSM_Block_fra")));
    assert!(cmds.iter().any(|c| c.contains("add rule name=VSM_Block_sea")));
}

#[test]
fn selectable_list_is_grouped_by_region_then_code() {
    let mut pops = PopMap::new();
    for (code, desc) in [("sea", "Seattle"), ("fra", "Frankfurt"), ("ams", "Amsterdam"), ("xyz", "Unknown"), ("hkg", "Hong Kong"), ("atl", "Atlanta")] {
        pops.insert(code.to_string(), pop(desc, "10.0.0.0/8"));
    }
    let app = AppState::with_components(
        pops,
        WindowsFirewall::with_executor(MockCommandExecutor::new()),
        ConfigManager::with_path("/tmp/x.toml".to_string()),
        Settings::default(),
    );
    let list: Vec<(String, &str)> = app.selectable_pops.clone();
    assert_eq!(
        list,
        vec![
            ("hkg".to_string(), "Asia"),
            ("ams".to_string(), "Europe"),
            ("fra".to_string(), "Europe"),
            ("atl".to_string(), "North America"),
            ("sea".to_string(), "North America"),
            ("xyz".to_string(), "Other / Unknown"),
        ]
    );
}

#[test]
fn saved_blocks_become_the_blocked_set() {
    let mut settings = Settings::default();
    settings.blocked_pops = vec!["sea".to_string(), "fra".to_string(), "sea".to_string()];
    let app = AppState::with_components(
        get_fallback_sdr_config(),
        WindowsFirewall::with_executor(MockCommandExecutor::new()),
        ConfigManager::with_path("/tmp/x.toml".to_string()),
        settings,
    );
    assert_eq!(app.blocked_pops, vec!["sea".to_string(), "fra".to_string()]);
}

#[test]
fn navigation_stays_on_the_list() {
    let mut app = AppState::with_components(
        get_fallback_sdr_config(),
        WindowsFirewall::with_executor(MockCommandExecutor::new()),
        ConfigManager::with_path("/tmp/x.toml".to_string()),
        Settings::default(),
    );
    assert_eq!(app.handle_key(key(KeyCode::Up)), KeyAction::Moved);
    assert_eq!(app.selected_index, 0);
    assert_eq!(app.handle_key(key(KeyCode::Char('j'))), KeyAction::Moved);
    assert_eq!(app.selected_index, 1);
    assert_eq!(app.handle_key(key(KeyCode::Down)), KeyAction::Moved);
    assert_eq!(app.selected_index, 1);
    assert_eq!(app.handle_key(key(KeyCode::Char('k'))), KeyAction::Moved);
    assert_eq!(app.selected_index, 0);
}

#[test]
fn settings_overlay_keys() {
    let mut app = make_test_app();
    assert_eq!(app.handle_key(key(KeyCode::Char('S'))), KeyAction::SettingsToggled);
    assert!(app.show_settings);
    // navigation and reset are ignored while the overlay is open
    assert_eq!(app.handle_key(key(KeyCode::Down)), KeyAction::Ignored);
    assert_eq!(app.handle_key(key(KeyCode::Char('r'))), KeyAction::Ignored);
    // space toggles the persistence setting
    assert_eq!(app.handle_key(key(KeyCode::Char(' '))), KeyAction::PersistToggled);
    assert!(app.settings.persist_rules_on_exit);
    assert!(app.blocked_pops.is_empty());
    // q closes the overlay without quitting
    assert_eq!(app.handle_key(key(KeyCode::Char('q'))), KeyAction::SettingsClosed);
    assert!(!app.show_settings);
    assert!(!app.should_quit);
    // enter now toggles the selected PoP
    assert_eq!(app.handle_key(key(KeyCode::Enter)), KeyAction::PopToggled);
    assert_eq!(app.blocked_pops, vec!["sea".to_string()]);
    assert_eq!(app.handle_key(key(KeyCode::Char('R'))), KeyAction::AllUnblocked);
    assert!(app.blocked_pops.is_empty());
    assert_eq!(app.handle_key(key(KeyCode::Esc)), KeyAction::Quit);
    assert!(app.should_quit);
}

#[test]
fn control_c_quits_and_plain_c_does_nothing() {
    let mut app = make_test_app();
    assert_eq!(app.handle_key(key(KeyCode::Char('c'))), KeyAction::Ignored);
    assert!(!app.should_quit);
    assert_eq!(app.handle_key(KeyPress { code: KeyCode::Char('c'), ctrl: true }), KeyAction::Quit);
    assert!(app.should_quit);
}

#[test]
fn clean_up_depends_on_persistence() {
    let mut app = make_test_app();
    assert!(app.clean_up_on_exit());
    app.toggle_persist_setting();
    assert!(!app.clean_up_on_exit());
}

#[test]
fn latency_display() {
    assert_eq!(latency_level(59), LatencyLevel::Good);
    assert_eq!(latency_level(60), LatencyLevel::Fair);
    assert_eq!(latency_level(149), LatencyLevel::Fair);
    assert_eq!(latency_level(150), LatencyLevel::Poor);
    assert_eq!(latency_bar_count(42), 4);
    assert_eq!(latency_bar_count(999), 30);
    assert_eq!(latency_bar(42), format!("{}{}", "|".repeat(4), " ".repeat(26)));
    assert_eq!(latency_bar(65535), "|".repeat(30));
    assert_eq!(status_text(true), "BLOCKED");
    assert_eq!(status_text(false), "ALLOWED");
}

#[test]
fn list_entry_formatting() {
    let short: String = short_description("Seattle (Washington)").into_iter().collect();
    assert_eq!(short, "Seattle");
    assert_eq!(list_entry_text("sea", "Seattle (Washington)"), format!("{:<3} - {:<20}", "sea", "Seattle"));
    assert_eq!(list_entry_text("a", "Hong Kong"), format!("{:<3} - {:<20}", "a", "Hong Kong"));
    let long = "A very long description that exceeds twenty";
    assert_eq!(list_entry_text("ams2", long), format!("{:<3} - {:<20}", "ams2", long));
    assert_eq!(popup_split(60), (20, 60, 20));
    assert_eq!(popup_split(40), (30, 40, 30));
}

#[test]
fn numbers_and_markers() {
    assert_eq!(decimal_text(0), "0");
    assert_eq!(decimal_text(7), "7");
    assert_eq!(decimal_text(42), "42");
    assert_eq!(decimal_text(100), "100");
    assert_eq!(decimal_text(65535), "65535");
    assert_eq!(persist_marker(true), "[x]");
    assert_eq!(persist_marker(false), "[ ]");
    assert_eq!(location_text("Seattle (Washington)", "sea"), "Seattle (Washington) (sea)");
}

#[test]
fn list_rows_show_selection_blocking_and_latency() {
    let mut pops = PopMap::new();
    pops.insert("sea".to_string(), pop("Seattle (Washington)", "192.69.96.0/22"));
    pops.insert("fra".to_string(), pop("Frankfurt (Germany)", "155.133.226.0/24"));
    let firewall = LinuxFirewall::with_executor(MockCommandExecutor::new());
    let config_manager = ConfigManager::with_path("/tmp/vsm_test_rows_config.toml".to_string());
    let mut app: TestApp = AppState::with_components(pops, firewall, config_manager, Settings::default());
    // Europe comes before North America, so the list is fra, sea.
    assert_eq!(app.selectable_pops[0].0, "fra");
    app.handle_key(key(KeyCode::Down));
    app.toggle_selected();
    let latencies = vec![("fra".to_string(), Some(31u16)), ("sea".to_string(), None)];
    let rows = list_rows(&app, &latencies);
    assert_eq!(rows.len(), 2);
    assert_eq!(rows[0].code, "fra");
    assert!(!rows[0].selected);
    assert!(!rows[0].blocked);
    assert_eq!(rows[0].label, format!("{:<3} - {:<20}", "fra", "Frankfurt"));
    assert_eq!(rows[0].latency, Some(31));
    assert_eq!(rows[1].code, "sea");
    assert!(rows[1].selected);
    assert!(rows[1].blocked);
    assert_eq!(rows[1].latency, None);
    let none_measured = list_rows(&app, &Vec::new());
    assert_eq!(none_measured[0].latency, None);
}

#[test]
fn settings_changing_actions() {
    assert!(KeyAction::PopToggled.changes_settings());
    assert!(KeyAction::PersistToggled.changes_settings());
    assert!(KeyAction::AllUnblocked.changes_settings());
    assert!(!KeyAction::Moved.changes_settings());
    assert!(!KeyAction::SettingsToggled.changes_settings());
    assert!(!KeyAction::Quit.changes_settings());
    assert!(!KeyAction::Ignored.changes_settings());
}

#[test]
fn toggling_twice_blocks_then_unblocks_the_relays() {
    let mut app = make_test_app();
    app.toggle_selected();
    let rule = "VSM_BLOCKS -d 192.69.96.0/22 -j DROP -m comment --comment VSM_Block_sea";
    let after_block = app.firewall.executor().commands.clone();
    assert_eq!(after_block.last().unwrap(), &format!("iptables -A {}", rule));
    app.toggle_selected();
    let after_unblock = app.firewall.executor().commands.clone();
    // the recording executor reports no rule, so unblocking checks once
    assert_eq!(after_unblock[after_block.len()..].to_vec(), vec![format!("iptables -C {}", rule)]);
    assert!(app.blocked_pops.is_empty());
    assert!(app.settings.blocked_pops.is_empty());
}

#[test]
fn toggle_key_on_an_empty_list_is_ignored() {
    let mut app: TestApp = AppState::with_components(
        PopMap::new(),
        LinuxFirewall::with_executor(MockCommandExecutor::new()),
        ConfigManager::with_path("/tmp/vsm_test_empty.toml".to_string()),
        Settings::default(),
    );
    assert_eq!(app.handle_key(key(KeyCode::Char(' '))), KeyAction::Ignored);
    assert_eq!(app.handle_key(key(KeyCode::Enter)), KeyAction::Ignored);
    assert_eq!(app.handle_key(key(KeyCode::Down)), KeyAction::Ignored);
    assert!(app.blocked_pops.is_empty());
    assert_eq!(app.selected_index, 0);
}

#[test]
fn shift_q_closes_the_overlay_then_quits() {
    let mut app = make_test_app();
    app.handle_key(key(KeyCode::Char('s')));
    assert_eq!(app.handle_key(key(KeyCode::Char('Q'))), KeyAction::SettingsClosed);
    assert!(!app.show_settings);
    assert!(!app.should_quit);
    assert_eq!(app.handle_key(key(KeyCode::Char('Q'))), KeyAction::Quit);
    assert!(app.should_quit);
}

#[test]
fn details_panel_shows_the_selected_pop() {
    let mut app = make_test_app();
    app.toggle_selected();
    let latencies = vec![("sea".to_string(), Some(12u16))];
    let panel = details_panel(&app, &latencies).unwrap();
    assert_eq!(panel.region, "North America");
    assert_eq!(panel.location, "Seattle (Washington) (sea)");
    assert!(panel.blocked);
    assert_eq!(panel.subnets, vec!["192.69.96.0/22".to_string()]);
    assert_eq!(panel.latency, Some(12));
    assert_eq!(details_panel(&app, &Vec::new()).unwrap().latency, None);

    let empty: TestApp = AppState::with_components(
        PopMap::new(),
        LinuxFirewall::with_executor(MockCommandExecutor::new()),
        ConfigManager::with_path("/tmp/vsm_test_panel.toml".to_string()),
        Settings::default(),
    );
    assert!(details_panel(&empty, &latencies).is_none());
}
