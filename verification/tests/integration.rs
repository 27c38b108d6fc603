use edgesteer::integration::{
    disable_system_dns, enable_system_dns, gui_domain, is_loopback_dns, launch_agent_path_for,
    launch_agent_plist, loopback_listener_server, parse_macos_dns_servers,
    parse_macos_network_service_order, parse_user_id, privileged_result, privileged_script,
    legacy_daemon_labels, remove_legacy_service, shell_quote_text, startup_service,
    system_dns_is_managed, DisablePlan, DnsGuard,
    EnableDnsError, LegacyServicePlan, ListenerError, StartupService, SystemDnsService,
};
use edgesteer::net::{IpAddress, SocketAddress};

fn v4(a: u8, b: u8, c: u8, d: u8, port: u16) -> SocketAddress {
    SocketAddress { ip: IpAddress::v4(a, b, c, d), port }
}

fn service(name: &str, enabled: bool, servers: &[&str]) -> SystemDnsService {
    SystemDnsService {
        name: name.to_owned(),
        device: "en0".to_owned(),
        enabled,
        servers: servers.iter().map(|s| (*s).to_owned()).collect(),
    }
}

#[test]
fn recognises_only_loopback_dns_servers() {
    assert!(is_loopback_dns("127.0.0.1"));
    assert!(is_loopback_dns("::1"));
    assert!(!is_loopback_dns("192.168.1.1"));
}

#[test]
fn system_dns_requires_port_53_loopback_listener() {
    assert!(loopback_listener_server(v4(127, 0, 0, 1, 53)).is_ok());
    assert!(loopback_listener_server(v4(127, 0, 0, 1, 53535)).is_err());
    assert!(loopback_listener_server(v4(192, 168, 1, 10, 53)).is_err());
}

#[test]
fn only_an_exact_edge_steer_listener_counts_as_managed() {
    let service = SystemDnsService {
        name: "Wi-Fi".to_owned(),
        device: "en0".to_owned(),
        enabled: true,
        servers: vec!["127.0.0.1".to_owned()],
    };
    assert!(service.uses_dns_server("127.0.0.1"));
    assert!(!service.uses_dns_server("::1"));
}

#[test]
fn parses_macos_physical_network_services() {
    let services = parse_macos_network_service_order(
        "(1) USB Ethernet\n(Hardware Port: USB, Device: en7)\n(2) VPN\n(Hardware Port: VPN, Device: utun2)\n(3) Wi-Fi\n(Hardware Port: Wi-Fi, Device: en0)\n",
    );
    assert_eq!(
        services,
        vec![
            ("USB Ethernet".to_owned(), "en7".to_owned()),
            ("Wi-Fi".to_owned(), "en0".to_owned()),
        ]
    );
}

#[test]
fn launch_agent_opens_the_app_bundle_without_a_cli_service() {
    let plist = launch_agent_plist("/Applications/Edge & Steer.app");
    assert!(plist.contains("/usr/bin/open"));
    assert!(plist.contains("Edge &amp; Steer.app"));
    assert!(!plist.contains("KeepAlive"));
    assert!(!plist.contains("edgesteer-ui"));
}

#[test]
fn launch_agent_path_has_no_whitespace_or_extra_component() {
    assert_eq!(
        launch_agent_path_for("/Users/example"),
        "/Users/example/Library/LaunchAgents/io.edgesteer.app.plist"
    );
}

#[test]
fn the_listener_server_is_the_loopback_address_it_listens_on() {
    assert_eq!(loopback_listener_server(v4(127, 0, 0, 1, 53)), Ok("127.0.0.1"));
    let v6 = SocketAddress { ip: IpAddress::V6(1), port: 53 };
    assert_eq!(loopback_listener_server(v6), Ok("::1"));
    assert_eq!(
        loopback_listener_server(v4(127, 0, 0, 1, 5353)),
        Err(ListenerError::NotPort53)
    );
    assert_eq!(
        loopback_listener_server(v4(10, 0, 0, 1, 53)),
        Err(ListenerError::NotLoopback)
    );
}

#[test]
fn dns_servers_of_a_service_are_read_from_networksetup() {
    assert!(parse_macos_dns_servers("There aren't any DNS Servers set on Wi-Fi.\n").is_empty());
    assert_eq!(
        parse_macos_dns_servers("192.168.1.1\n  ::1 \n\n"),
        vec!["192.168.1.1".to_owned(), "::1".to_owned()]
    );
}

#[test]
fn service_descriptions_name_automatic_and_explicit_dns() {
    let automatic = service("Wi-Fi", true, &[]);
    assert!(automatic.uses_automatic_dns());
    assert!(!automatic.uses_loopback_dns());
    assert_eq!(automatic.dns_description(), "Automatic (DHCP)");
    let manual = service("Ethernet", true, &["1.1.1.1", "8.8.8.8"]);
    assert_eq!(manual.dns_description(), "1.1.1.1, 8.8.8.8");
    assert!(service("Lo", true, &["127.0.0.1", " ::1 "]).uses_loopback_dns());
}

#[test]
fn startup_service_descriptions() {
    assert_eq!(
        StartupService::Registered { label: "x".to_owned() }.description(),
        "Open at login enabled"
    );
    assert_eq!(
        StartupService::NotRegistered.description(),
        "Open at login is disabled"
    );
    assert_eq!(
        StartupService::Unsupported { reason: "elsewhere".to_owned() }.description(),
        "elsewhere"
    );
}

#[test]
fn shell_quoting_survives_single_quotes() {
    assert_eq!(shell_quote_text("Wi-Fi"), "'Wi-Fi'");
    assert_eq!(shell_quote_text("Bob's Wi-Fi"), "'Bob'\"'\"'s Wi-Fi'");
}

#[test]
fn enabling_takes_over_automatic_services_and_writes_one_command() {
    let services = vec![
        service("Wi-Fi", true, &[]),
        service("Ethernet", true, &["127.0.0.1"]),
        service("Off", false, &[]),
    ];
    let plan = match enable_system_dns(v4(127, 0, 0, 1, 53), true, &services) {
        Ok(plan) => plan,
        Err(_) => panic!("the plan is accepted"),
    };
    assert_eq!(plan.guard.listener, "127.0.0.1");
    assert_eq!(plan.guard.services, vec!["Wi-Fi".to_owned(), "Ethernet".to_owned()]);
    assert_eq!(
        plan.command.as_deref(),
        Some("/usr/sbin/networksetup -setdnsservers 'Wi-Fi' '127.0.0.1' && /usr/bin/dscacheutil -flushcache >/dev/null 2>&1 || true; /usr/bin/killall -HUP mDNSResponder >/dev/null 2>&1 || true")
    );
}

#[test]
fn enabling_when_already_pointed_runs_nothing() {
    let services = vec![service("Wi-Fi", true, &["127.0.0.1"])];
    let plan = match enable_system_dns(v4(127, 0, 0, 1, 53), true, &services) {
        Ok(plan) => plan,
        Err(_) => panic!("the plan is accepted"),
    };
    assert!(plan.command.is_none());
    assert_eq!(plan.guard.services, vec!["Wi-Fi".to_owned()]);
}

#[test]
fn enabling_refuses_explicit_dns_and_unready_listeners() {
    let services = vec![service("Wi-Fi", true, &["1.1.1.1"])];
    match enable_system_dns(v4(127, 0, 0, 1, 53), true, &services) {
        Err(EnableDnsError::ExplicitDns { services }) => {
            assert_eq!(services, vec!["Wi-Fi (1.1.1.1)".to_owned()])
        }
        _ => panic!("explicit DNS is refused"),
    }
    assert!(matches!(
        enable_system_dns(v4(127, 0, 0, 1, 53), false, &services),
        Err(EnableDnsError::ListenerNotReady)
    ));
    assert!(matches!(
        enable_system_dns(v4(127, 0, 0, 1, 5353), true, &services),
        Err(EnableDnsError::Listener(ListenerError::NotPort53))
    ));
    assert!(matches!(
        enable_system_dns(v4(127, 0, 0, 1, 53), true, &vec![service("Off", false, &[])]),
        Err(EnableDnsError::NoEnabledService)
    ));
    assert!(matches!(
        enable_system_dns(v4(127, 0, 0, 1, 53), true, &vec![service("Wi-Fi", true, &["::1"])]),
        Err(EnableDnsError::NoUsableService)
    ));
}

#[test]
fn disabling_restores_only_recorded_services_still_on_the_listener() {
    let guard = DnsGuard {
        listener: "127.0.0.1".to_owned(),
        services: vec!["Wi-Fi".to_owned(), "Ethernet".to_owned()],
    };
    let services = vec![
        service("Wi-Fi", false, &["127.0.0.1"]),
        service("Ethernet", true, &["192.168.1.1"]),
        service("USB", true, &["127.0.0.1"]),
    ];
    match disable_system_dns(&Some(guard), &services) {
        DisablePlan::Restore { command } => assert_eq!(
            command,
            "/usr/sbin/networksetup -setdnsservers 'Wi-Fi' Empty && /usr/bin/dscacheutil -flushcache >/dev/null 2>&1 || true; /usr/bin/killall -HUP mDNSResponder >/dev/null 2>&1 || true"
        ),
        _ => panic!("Wi-Fi is restored"),
    }
    assert!(matches!(disable_system_dns(&None, &services), DisablePlan::NotManaged));
    let restored = DnsGuard { listener: "127.0.0.1".to_owned(), services: vec!["Ethernet".to_owned()] };
    assert!(system_dns_is_managed(&Some(DnsGuard {
        listener: "127.0.0.1".to_owned(),
        services: Vec::new()
    })));
    assert!(!system_dns_is_managed(&None));
    assert!(matches!(
        disable_system_dns(&Some(restored), &services),
        DisablePlan::AlreadyRestored
    ));
}

#[test]
fn enable_then_disable_hands_the_same_services_back() {
    let before = vec![service("Wi-Fi", true, &[]), service("Ethernet", true, &["127.0.0.1"])];
    let plan = match enable_system_dns(v4(127, 0, 0, 1, 53), true, &before) {
        Ok(plan) => plan,
        Err(_) => panic!("the plan is accepted"),
    };
    let after = vec![
        service("Wi-Fi", true, &["127.0.0.1"]),
        service("Ethernet", true, &["127.0.0.1"]),
    ];
    match disable_system_dns(&Some(plan.guard), &after) {
        DisablePlan::Restore { command } => assert!(command.starts_with(
            "/usr/sbin/networksetup -setdnsservers 'Wi-Fi' Empty && /usr/sbin/networksetup -setdnsservers 'Ethernet' Empty && "
        )),
        _ => panic!("both services are restored"),
    }
}

#[test]
fn privileged_commands_are_wrapped_for_osascript() {
    assert_eq!(
        privileged_script("echo \"hi\"\n"),
        "do shell script \"echo \\\"hi\\\"\\n\" with administrator privileges"
    );
    assert_eq!(privileged_result("  \n"), "Completed");
    assert_eq!(privileged_result(" done\n"), "done");
}

#[test]
fn legacy_cleanup_removes_both_old_daemons() {
    assert!(matches!(remove_legacy_service(false), LegacyServicePlan::NothingRegistered));
    match remove_legacy_service(true) {
        LegacyServicePlan::Remove { command } => assert_eq!(
            command,
            "/bin/launchctl bootout system/io.edgesteer.dns >/dev/null 2>&1 || true; /bin/rm -f /Library/LaunchDaemons/io.edgesteer.dns.plist; /bin/launchctl bootout system/com.fuxuxiang.edgesteer >/dev/null 2>&1 || true; /bin/rm -f /Library/LaunchDaemons/com.fuxuxiang.edgesteer.plist"
        ),
        _ => panic!("the legacy service is removed"),
    }
}

#[test]
fn the_gui_domain_comes_from_the_user_id() {
    assert_eq!(parse_user_id("501\n"), Some(501));
    assert_eq!(parse_user_id("x"), None);
    assert_eq!(gui_domain(501), "gui/501");
}

#[test]
fn the_launch_agent_wins_over_a_legacy_service() {
    assert!(matches!(
        startup_service(true, Some("io.edgesteer.dns".to_owned())),
        StartupService::Registered { label } if label == "io.edgesteer.app"
    ));
    assert!(matches!(
        startup_service(false, Some("io.edgesteer.dns".to_owned())),
        StartupService::LegacyDaemon { label } if label == "io.edgesteer.dns"
    ));
    assert!(matches!(startup_service(false, None), StartupService::NotRegistered));
    assert_eq!(
        legacy_daemon_labels(),
        vec!["io.edgesteer.dns".to_owned(), "com.fuxuxiang.edgesteer".to_owned()]
    );
}
