use edgesteer::agent::{
    agent_stopped_message, authorize_request, empty_presentation, engine_command,
    engine_stopped_message, launch_starts_engine, plan_command, random_token, start_or_open,
    status_from, tray_event_command, tray_language, tray_presentation, AgentClient, AgentCommand,
    AgentFacts, AgentResponse, AgentStatus, CommandPlan, StartAction, TrayLanguage,
};
use edgesteer::integration::{IntegrationStatus, StartupService, SystemDnsService};
use edgesteer::net::{parse_socket_address, IpAddress, SocketAddress};
use edgesteer::tray::{tray_event_for_id, TrayEvent};

fn loopback(port: u16) -> SocketAddress {
    SocketAddress { ip: IpAddress::v4(127, 0, 0, 1), port }
}

#[test]
fn control_token_is_hex_and_unpredictable_length() {
    let token = random_token();
    assert_eq!(token.len(), 64);
    assert!(token.bytes().all(|byte| byte.is_ascii_hexdigit()));
}

#[test]
fn tray_presentation_requires_an_active_loopback_listener_for_system_dns() {
    let status = AgentStatus {
        engine_running: true,
        listener: "127.0.0.1:53".to_owned(),
        listener_ready: true,
        system_dns_enabled: false,
        autostart_enabled: false,
        configuration_error: None,
    };
    assert!(tray_presentation(&status, TrayLanguage::Chinese).system_dns_action_enabled);

    let status = AgentStatus { listener: "127.0.0.1:53535".to_owned(), ..status };
    assert!(!tray_presentation(&status, TrayLanguage::Chinese).system_dns_action_enabled);
}

#[test]
fn menu_labels_follow_the_window_language() {
    assert_eq!(tray_language(Some("english")), TrayLanguage::English);
    assert_eq!(tray_language(Some("chinese")), TrayLanguage::Chinese);
    assert_eq!(tray_language(None), TrayLanguage::Chinese);
    let status = AgentStatus::unavailable("x".to_owned());
    let english = tray_presentation(&status, TrayLanguage::English);
    assert_eq!(english.labels.quit, "Quit EdgeSteer");
    assert_eq!(english.status_text(), "DNS: Stopped - Unavailable");
    assert_eq!(english.engine_text(), "Start DNS engine");
    let empty = empty_presentation();
    assert_eq!(empty.labels.open, "打开 EdgeSteer");
    assert!(!empty.engine_action_enabled);
}

#[test]
fn tray_choices_toggle_the_reported_state() {
    let mut status = AgentStatus::unavailable("x".to_owned());
    assert_eq!(tray_event_command(TrayEvent::ToggleEngine, &status), AgentCommand::StartEngine);
    status.engine_running = true;
    status.system_dns_enabled = true;
    assert_eq!(tray_event_command(TrayEvent::ToggleEngine, &status), AgentCommand::StopEngine);
    assert_eq!(
        tray_event_command(TrayEvent::ToggleSystemDns, &status),
        AgentCommand::DisableSystemDns
    );
    assert_eq!(
        tray_event_command(TrayEvent::ToggleAutostart, &status),
        AgentCommand::EnableAutoStart
    );
    assert_eq!(tray_event_command(TrayEvent::Quit, &status), AgentCommand::Quit);
    assert_eq!(tray_event_for_id("edgesteer-quit"), Some(TrayEvent::Quit));
    assert_eq!(tray_event_for_id("other"), None);
}

#[test]
fn status_reports_loopback_services_and_login_item() {
    let integration = IntegrationStatus {
        listener: loopback(53),
        listener_ready: true,
        startup_service: StartupService::Registered { label: "io.edgesteer.app".to_owned() },
        dns_services: vec![SystemDnsService {
            name: "Wi-Fi".to_owned(),
            device: "en0".to_owned(),
            enabled: true,
            servers: vec!["127.0.0.1".to_owned()],
        }],
    };
    let status = status_from(Some("127.0.0.1:53".to_owned()), true, None, Some(&integration), false);
    assert!(status.listener_ready);
    assert!(status.system_dns_enabled);
    assert!(status.autostart_enabled);
    assert_eq!(status.listener, "127.0.0.1:53");
    let status = status_from(None, false, Some("bad".to_owned()), None, true);
    assert_eq!(status.listener, "Invalid configuration");
    assert!(status.system_dns_enabled);
    assert!(!status.listener_ready);
}

#[test]
fn only_one_agent_runs() {
    assert_eq!(start_or_open(true, true), StartAction::Request(AgentCommand::OpenUi));
    assert_eq!(start_or_open(true, false), StartAction::Request(AgentCommand::Status));
    assert_eq!(start_or_open(false, true), StartAction::RunAgent);
    assert!(launch_starts_engine(Some(loopback(5353)), false));
    assert!(!launch_starts_engine(Some(loopback(53)), false));
    assert!(launch_starts_engine(Some(loopback(53)), true));
    assert!(!launch_starts_engine(None, true));
}

#[test]
fn control_requests_need_the_token() {
    assert!(authorize_request(1, "abc", "abc").is_ok());
    match authorize_request(1, "abd", "abc") {
        Err(response) => {
            assert!(!response.ok);
            assert_eq!(response.message, "EdgeSteer Agent rejected an unauthenticated request");
        }
        Ok(()) => panic!("a wrong token is refused"),
    }
    assert!(authorize_request(2, "abc", "abc").is_err());
    assert!(AgentClient::check_protocol(2).is_err());
    let response = AgentResponse::from_result(Err("down".to_owned()), AgentStatus::unavailable("y".to_owned()));
    assert!(matches!(AgentClient::status(response), Err(message) if message == "down"));
    let client = AgentClient::current_user("/tmp/state".to_owned());
    assert_eq!(client.state_dir, "/tmp/state");
}

#[test]
fn the_privileged_engine_command_quotes_its_paths() {
    assert_eq!(
        engine_command("/Users/o'neil", "/Applications/EdgeSteer.app/Contents/MacOS/edgesteer-ui", "/tmp/engine.stop", 42),
        "export HOME='/Users/o'\"'\"'neil'; export RUST_LOG=info; exec '/Applications/EdgeSteer.app/Contents/MacOS/edgesteer-ui' --engine --stop-file '/tmp/engine.stop' --parent-pid 42"
    );
}

fn facts(listener: Option<SocketAddress>, engine_running: bool) -> AgentFacts {
    AgentFacts { listener, engine_running, window_open: false, app_bundle: None }
}

#[test]
fn system_dns_needs_a_listener_and_a_running_engine() {
    let listener = SocketAddress { ip: IpAddress::V4(0x7f00_0001), port: 53 };
    match plan_command(AgentCommand::EnableSystemDns, &facts(None, true)) {
        CommandPlan::Answer(Err(message)) => assert_eq!(message, "configuration has no listener"),
        _ => panic!("no listener, no system DNS"),
    }
    match plan_command(AgentCommand::EnableSystemDns, &facts(Some(listener), false)) {
        CommandPlan::Answer(Err(message)) => {
            assert_eq!(message, "start the DNS engine before enabling system DNS")
        },
        _ => panic!("no engine, no system DNS"),
    }
    match plan_command(AgentCommand::EnableSystemDns, &facts(Some(listener), true)) {
        CommandPlan::EnableSystemDns(address) => assert_eq!(address, listener),
        _ => panic!("a running engine takes over system DNS"),
    }
}

#[test]
fn the_agent_answers_status_and_an_open_window_at_once() {
    match plan_command(AgentCommand::Status, &facts(None, false)) {
        CommandPlan::Answer(Ok(message)) => assert_eq!(message, "EdgeSteer Agent is running"),
        _ => panic!("status is answered at once"),
    }
    let open = AgentFacts { window_open: true, ..facts(None, false) };
    match plan_command(AgentCommand::OpenUi, &open) {
        CommandPlan::Answer(Ok(message)) => assert_eq!(message, "EdgeSteer window is already open"),
        _ => panic!("an open window is not opened twice"),
    }
    assert!(matches!(plan_command(AgentCommand::OpenUi, &facts(None, false)), CommandPlan::OpenWindow));
    match plan_command(AgentCommand::EnableAutoStart, &facts(None, false)) {
        CommandPlan::Answer(Err(message)) => {
            assert_eq!(message, "install and open EdgeSteer.app before enabling open at login")
        },
        _ => panic!("open at login needs the installed app"),
    }
    let bundled = AgentFacts { app_bundle: Some("/Applications/EdgeSteer.app".to_owned()), ..facts(None, false) };
    match plan_command(AgentCommand::EnableAutoStart, &bundled) {
        CommandPlan::EnableAutoStart(bundle) => assert_eq!(bundle, "/Applications/EdgeSteer.app"),
        _ => panic!("the installed app opens at login"),
    }
    assert_eq!(
        engine_stopped_message("Restored automatic DNS for Wi-Fi"),
        "Restored automatic DNS for Wi-Fi; DNS engine stopped"
    );
    assert_eq!(agent_stopped_message("Nothing to restore"), "Nothing to restore; EdgeSteer stopped");
}

#[test]
fn control_failures_are_answered_with_an_unavailable_status() {
    let invalid = AgentResponse::invalid_request("parse request: EOF while parsing");
    assert!(!invalid.ok);
    assert_eq!(invalid.message, "EdgeSteer Agent rejected the request: parse request: EOF while parsing");
    assert_eq!(invalid.status.configuration_error.as_deref(), Some("Invalid request"));
    let leaving = AgentResponse::shutting_down();
    assert_eq!(leaving.message, "EdgeSteer Agent is shutting down");
    assert_eq!(leaving.status.configuration_error.as_deref(), Some("Agent is shutting down"));
    let late = AgentResponse::timed_out();
    assert_eq!(late.message, "EdgeSteer Agent did not finish the requested operation");
    assert_eq!(late.status.configuration_error.as_deref(), Some("Agent operation timed out"));
    assert!(!late.status.engine_running);
}

#[test]
fn listener_text_reads_as_a_socket_address() {
    assert_eq!(parse_socket_address("127.0.0.1:53"), Some(loopback(53)));
    assert_eq!(
        parse_socket_address("[::1]:5353"),
        Some(SocketAddress { ip: IpAddress::V6(1), port: 5353 })
    );
    assert_eq!(
        parse_socket_address("[::1%2]:53"),
        Some(SocketAddress { ip: IpAddress::V6(1), port: 53 })
    );
    assert_eq!(parse_socket_address("127.0.0.1"), None);
    assert_eq!(parse_socket_address("::1:53"), None);
    assert_eq!(parse_socket_address("127.0.0.1:65536"), None);
    assert_eq!(parse_socket_address("[127.0.0.1]:53"), None);
    assert_eq!(parse_socket_address("Unavailable"), None);
}

#[test]
fn an_ipv6_loopback_listener_on_port_53_supports_system_dns() {
    let status = AgentStatus {
        engine_running: true,
        listener: "[::1]:53".to_owned(),
        listener_ready: true,
        system_dns_enabled: false,
        autostart_enabled: false,
        configuration_error: None,
    };
    assert!(tray_presentation(&status, TrayLanguage::English).system_dns_action_enabled);
}
