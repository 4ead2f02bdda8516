use valve_server_manager::firewall::linux::{iptables_codes, LinuxFirewall};
use valve_server_manager::firewall::windows::{join_with_commas, netsh_codes, WindowsFirewall};
use valve_server_manager::firewall::{
    driver_for, CommandExecutor, CommandOutput, FirewallDriver, MockCommandExecutor, PlatformDriver,
};

#[test]
fn test_linux_block_pop() {
    let mock_exec = MockCommandExecutor::new();
    let mut firewall = LinuxFirewall::with_executor(mock_exec);

    let res = firewall.block_pop("sea", &["192.69.96.0/22".to_string()]);
    assert!(res.is_ok());

    let cmds = &firewall.executor().commands;
    assert!(cmds.iter().any(|c| c.contains("-N VSM_BLOCKS")));
    assert!(cmds.iter().any(|c| c.contains("-A VSM_BLOCKS -d 192.69.96.0/22 -j DROP -m comment --comment VSM_Block_sea")));
}

#[test]
fn test_linux_get_blocked_pops() {
    let mut mock_exec = MockCommandExecutor::new();
    mock_exec.mock_stdout = "-N VSM_BLOCKS\n-A VSM_BLOCKS -d 192.69.96.0/22 -j DROP -m comment --comment \"VSM_Block_sea\"\n-A VSM_BLOCKS -d 155.133.226.0/24 -j DROP -m comment --comment \"VSM_Block_fra\"\n".to_string();

    let mut firewall = LinuxFirewall::with_executor(mock_exec);
    let blocked = firewall.get_blocked_pops().unwrap();

    assert_eq!(blocked.len(), 2);
    assert!(blocked.contains(&"sea".to_string()));
    assert!(blocked.contains(&"fra".to_string()));
}

#[test]
fn test_linux_clear_all() {
    let mock_exec = MockCommandExecutor::new();
    let mut firewall = LinuxFirewall::with_executor(mock_exec);
    let _ = firewall.clear_all();

    let cmds = &firewall.executor().commands;
    assert!(cmds.iter().any(|c| c.contains("-F VSM_BLOCKS")));
    assert!(cmds.iter().any(|c| c.contains("-D OUTPUT -j VSM_BLOCKS")));
    assert!(cmds.iter().any(|c| c.contains("-X VSM_BLOCKS")));
}

#[test]
fn linux_setup_inserts_the_jump_when_missing() {
    let firewall = LinuxFirewall::with_executor(MockCommandExecutor::new());
    assert_eq!(
        firewall.executor().commands,
        vec![
            "iptables -N VSM_BLOCKS".to_string(),
            "iptables -C OUTPUT -j VSM_BLOCKS".to_string(),
            "iptables -I OUTPUT 1 -j VSM_BLOCKS".to_string(),
        ]
    );
}

#[test]
fn linux_block_reports_a_failed_append() {
    let mut mock = MockCommandExecutor::new();
    mock.mock_success = false;
    let mut firewall = LinuxFirewall::with_executor(mock);
    let res = firewall.block_pop("sea", &["1.2.3.0/24".to_string(), "5.6.7.0/24".to_string()]);
    assert_eq!(res, Err("iptables block failed for 1.2.3.0/24".to_string()));
    let cmds = &firewall.executor().commands;
    assert!(!cmds.iter().any(|c| c.contains("5.6.7.0/24")));
}

#[test]
fn linux_setup_failure_is_reported() {
    let mut mock = MockCommandExecutor::new();
    mock.mock_success = false;
    let mut firewall = LinuxFirewall::with_executor(mock);
    assert_eq!(firewall.init_chain(), Err("Failed to insert jump in OUTPUT chain".to_string()));
}

#[test]
fn linux_remove_rule_once_deletes_only_present_rules() {
    let mut firewall = LinuxFirewall::with_executor(MockCommandExecutor::new());
    // the recording executor fails every check, so there is nothing to delete
    assert!(!firewall.remove_rule_once("sea", "192.69.96.0/22"));
    let last = firewall.executor().commands.last().unwrap().clone();
    assert_eq!(last, "iptables -C VSM_BLOCKS -d 192.69.96.0/22 -j DROP -m comment --comment VSM_Block_sea");
}

/// An executor that holds a number of copies of one DROP rule: checks
/// succeed while a copy is left, and each delete removes one.
struct RuleCopies {
    copies: usize,
    commands: Vec<String>,
}

impl CommandExecutor for RuleCopies {
    fn execute(&mut self, cmd: &str, args: &[&str]) -> Result<CommandOutput, String> {
        self.commands.push(format!("{} {}", cmd, args.join(" ")));
        let on_chain = args.len() > 1 && args[1] == "VSM_BLOCKS";
        let success = match args.first() {
            Some(&"-C") if on_chain => self.copies > 0,
            Some(&"-D") if on_chain => {
                self.copies = self.copies.saturating_sub(1);
                true
            }
            _ => true,
        };
        Ok(CommandOutput { success, stdout: String::new() })
    }
}

#[test]
fn linux_unblock_deletes_every_copy_of_the_rule() {
    let mut firewall = LinuxFirewall::with_executor(RuleCopies { copies: 2, commands: Vec::new() });
    let before = firewall.executor().commands.len();
    assert_eq!(firewall.unblock_pop("sea", &["192.69.96.0/22".to_string()]), Ok(()));
    let rule = "VSM_BLOCKS -d 192.69.96.0/22 -j DROP -m comment --comment VSM_Block_sea";
    let check = format!("iptables -C {}", rule);
    let delete = format!("iptables -D {}", rule);
    assert_eq!(firewall.executor().commands[before..].to_vec(), vec![check.clone(), delete.clone(), check.clone(), delete, check]);
    assert_eq!(firewall.executor().copies, 0);
}

#[test]
fn linux_unblock_checks_each_subnet_once_when_nothing_is_blocked() {
    let mut firewall = LinuxFirewall::with_executor(MockCommandExecutor::new());
    let before = firewall.executor().commands.len();
    assert_eq!(firewall.unblock_pop("fra", &["1.0.0.0/8".to_string(), "2.0.0.0/8".to_string()]), Ok(()));
    assert_eq!(
        firewall.executor().commands[before..].to_vec(),
        vec![
            "iptables -C VSM_BLOCKS -d 1.0.0.0/8 -j DROP -m comment --comment VSM_Block_fra".to_string(),
            "iptables -C VSM_BLOCKS -d 2.0.0.0/8 -j DROP -m comment --comment VSM_Block_fra".to_string(),
        ]
    );
}

#[test]
fn linux_listing_failure_means_nothing_blocked() {
    let mut mock = MockCommandExecutor::new();
    mock.mock_success = false;
    mock.mock_stdout = "-A VSM_BLOCKS -d 1.2.3.0/24 -j DROP -m comment --comment \"VSM_Block_sea\"".to_string();
    let mut firewall = LinuxFirewall::with_executor(mock);
    assert_eq!(firewall.get_blocked_pops(), Ok(Vec::new()));
}

#[test]
fn iptables_listing_parsing() {
    let rules = "-N VSM_BLOCKS\r\n-A VSM_BLOCKS -d 1.0.0.0/8 -j DROP -m comment --comment \"VSM_Block_ams2\"\r\n\
                 -A VSM_BLOCKS -d 2.0.0.0/8 -j DROP -m comment --comment \"VSM_Block_ams2\"\n\
                 -A VSM_BLOCKS -d 3.0.0.0/8 -j DROP -m comment --comment VSM_Block_lax\n\
                 -A VSM_BLOCKS -d 4.0.0.0/8 -j DROP -m comment --comment \"VSM_Block_\"\n\
                 -A VSM_BLOCKS -d 5.0.0.0/8 -j DROP -m comment --comment \"VSM_Block_ sto \"";
    assert_eq!(iptables_codes(rules), vec!["ams2".to_string(), "sto".to_string()]);
}

#[test]
fn test_windows_block_pop() {
    let mock_exec = MockCommandExecutor::new();
    let mut firewall = WindowsFirewall::with_executor(mock_exec);

    let res = firewall.block_pop("sea", &["192.69.96.0/22".to_string(), "155.133.242.0/24".to_string()]);
    assert!(res.is_ok());

    let cmds = &firewall.executor().commands;
    // Verify delete first then add
    assert!(cmds.iter().any(|c| c.contains("delete rule name=VSM_Block_sea")));
    assert!(cmds.iter().any(|c| c.contains("add rule name=VSM_Block_sea dir=out action=block remoteip=192.69.96.0/22,155.133.242.0/24 enable=yes")));
}

#[test]
fn test_windows_get_blocked_pops() {
    let mut mock_exec = MockCommandExecutor::new();
    mock_exec.mock_stdout = "Rule Name: VSM_Block_sea\nRule Name: VSM_Block_fra\n".to_string();

    let mut firewall = WindowsFirewall::with_executor(mock_exec);
    let blocked = firewall.get_blocked_pops().unwrap();

    assert_eq!(blocked.len(), 2);
    assert!(blocked.contains(&"sea".to_string()));
    assert!(blocked.contains(&"fra".to_string()));
}

#[test]
fn windows_block_without_subnets_only_deletes() {
    let mut firewall = WindowsFirewall::with_executor(MockCommandExecutor::new());
    assert!(firewall.block_pop("sea", &[]).is_ok());
    assert_eq!(
        firewall.executor().commands,
        vec!["netsh advfirewall firewall delete rule name=VSM_Block_sea".to_string()]
    );
}

#[test]
fn windows_block_reports_a_failed_add() {
    let mut mock = MockCommandExecutor::new();
    mock.mock_success = false;
    let mut firewall = WindowsFirewall::with_executor(mock);
    let res = firewall.block_pop("fra", &["155.133.226.0/24".to_string()]);
    assert_eq!(res, Err("netsh failed to create rule VSM_Block_fra".to_string()));
}

#[test]
fn windows_clear_all_deletes_each_listed_rule() {
    let mut mock = MockCommandExecutor::new();
    mock.mock_stdout = "Rule Name: VSM_Block_sea\nEnabled: Yes\nRule Name: VSM_Block_fra\nRule Name: VSM_Block_sea\n".to_string();
    let mut firewall = WindowsFirewall::with_executor(mock);
    assert!(firewall.clear_all().is_ok());
    assert_eq!(
        firewall.executor().commands,
        vec![
            "netsh advfirewall firewall show rule name=all".to_string(),
            "netsh advfirewall firewall delete rule name=VSM_Block_sea".to_string(),
            "netsh advfirewall firewall delete rule name=VSM_Block_fra".to_string(),
        ]
    );
}

#[test]
fn netsh_listing_parsing() {
    let listing = "Rule Name:                            VSM_Block_ams2\r\n----\nDescription: VSM_Block_-x\nRule Name: VSM_Block_lax (copy)\n";
    assert_eq!(netsh_codes(listing), vec!["ams2".to_string(), "lax".to_string()]);
}

#[test]
fn comma_join_of_subnets() {
    assert_eq!(join_with_commas(&[]), "");
    assert_eq!(join_with_commas(&["a".to_string()]), "a");
    assert_eq!(join_with_commas(&["a".to_string(), "b".to_string(), "c".to_string()]), "a,b,c");
}

#[test]
fn mock_records_commands_and_fails_checks() {
    let mut mock = MockCommandExecutor::new();
    mock.mock_stdout = "out".to_string();
    let ok = mock.execute("iptables", &["-S", "VSM_BLOCKS"]).unwrap();
    assert!(ok.success);
    assert_eq!(ok.stdout, "out");
    let check = mock.execute("iptables", &["-C", "X"]).unwrap();
    assert!(!check.success);
    assert_eq!(mock.commands, vec!["iptables -S VSM_BLOCKS".to_string(), "iptables -C X".to_string()]);
}

#[test]
fn platform_driver_dispatches_to_its_driver() {
    let mut linux = PlatformDriver::Linux(LinuxFirewall::with_executor(MockCommandExecutor::new()));
    assert_eq!(linux.block_pop("sea", &["192.69.96.0/22".to_string()]), Ok(()));
    match &linux {
        PlatformDriver::Linux(d) => assert!(d
            .executor()
            .commands
            .iter()
            .any(|c| c == "iptables -A VSM_BLOCKS -d 192.69.96.0/22 -j DROP -m comment --comment VSM_Block_sea")),
        PlatformDriver::Windows(_) => panic!("expected the Linux driver"),
    }
    let mut windows = PlatformDriver::Windows(WindowsFirewall::with_executor(MockCommandExecutor::new()));
    assert_eq!(windows.unblock_pop("fra", &[]), Ok(()));
    match &windows {
        PlatformDriver::Windows(d) => assert_eq!(
            d.executor().commands,
            vec!["netsh advfirewall firewall delete rule name=VSM_Block_fra".to_string()]
        ),
        PlatformDriver::Linux(_) => panic!("expected the Windows driver"),
    }
}

#[test]
fn iptables_final_line_keeps_its_carriage_return() {
    // `str::lines` drops `\r` only before `\n`; here the last line has none,
    // so the closing quote stays and ends up in the code
    let rules = "-A VSM_BLOCKS -d 1.0.0.0/8 -j DROP -m comment --comment \"VSM_Block_sea\"\r";
    assert_eq!(iptables_codes(rules), vec!["sea\"".to_string()]);
    let ended = "-A VSM_BLOCKS -d 1.0.0.0/8 -j DROP -m comment --comment \"VSM_Block_sea\"\r\n";
    assert_eq!(iptables_codes(ended), vec!["sea".to_string()]);
}

#[test]
fn driver_for_picks_the_platform_driver() {
    match driver_for(true, MockCommandExecutor::new()) {
        PlatformDriver::Windows(d) => assert!(d.executor().commands.is_empty()),
        PlatformDriver::Linux(_) => panic!("expected the Windows driver"),
    }
    match driver_for(false, MockCommandExecutor::new()) {
        PlatformDriver::Linux(d) => assert_eq!(d.executor().commands[0], "iptables -N VSM_BLOCKS"),
        PlatformDriver::Windows(_) => panic!("expected the Linux driver"),
    }
}
