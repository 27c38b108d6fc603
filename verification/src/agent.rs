use vstd::prelude::*;

use crate::integration::{shell_quote_text, spec_shell_quote, IntegrationStatus, StartupService};
use crate::net::{parse_socket_address, spec_parse_socket_address, SocketAddress};
use crate::text::{chars_of, decimal_chars, extend_chars, spec_decimal, str_equal, string_from_chars};
use crate::tray::{Labels, Presentation, TrayEvent};

verus! {

broadcast use vstd::string::group_string_axioms;

/// Version of the control protocol between the agent and its clients.
pub const CONTROL_PROTOCOL: u8 = 1;

/// How the menu-bar agent was started.
pub struct AgentOptions {
    pub config_path: String,
    pub app_bundle: Option<String>,
    pub app_executable: String,
}

/// A request to the agent.
#[derive(Debug, Clone, Copy, PartialEq, Eq, Structural)]
pub enum AgentCommand {
    Status,
    OpenUi,
    StartEngine,
    StopEngine,
    RestartEngine,
    EnableSystemDns,
    DisableSystemDns,
    EnableAutoStart,
    DisableAutoStart,
    RemoveLegacyService,
    Refresh,
    Quit,
}

/// What the agent reports of itself.
pub struct AgentStatus {
    pub engine_running: bool,
    pub listener: String,
    pub listener_ready: bool,
    pub system_dns_enabled: bool,
    pub autostart_enabled: bool,
    pub configuration_error: Option<String>,
}

impl AgentStatus {
    /// The status of an agent that cannot report: nothing running, nothing
    /// enabled, and the reason as the configuration error.
    pub fn unavailable(message: String) -> (r: AgentStatus)
        ensures
            !r.engine_running,
            r.listener@ == "Unavailable"@,
            !r.listener_ready,
            !r.system_dns_enabled,
            !r.autostart_enabled,
            r.configuration_error == Some(message),
    {
        AgentStatus {
            engine_running: false,
            listener: String::from_str("Unavailable"),
            listener_ready: false,
            system_dns_enabled: false,
            autostart_enabled: false,
            configuration_error: Some(message),
        }
    }

    /// An equal copy.
    pub fn duplicate(&self) -> (r: AgentStatus)
        ensures
            r == *self,
    {
        AgentStatus {
            engine_running: self.engine_running,
            listener: self.listener.clone(),
            listener_ready: self.listener_ready,
            system_dns_enabled: self.system_dns_enabled,
            autostart_enabled: self.autostart_enabled,
            configuration_error: match &self.configuration_error {
                Some(e) => Some(e.clone()),
                None => None,
            },
        }
    }
}

/// The agent's answer to a request.
pub struct AgentResponse {
    pub ok: bool,
    pub message: String,
    pub status: AgentStatus,
}

impl AgentResponse {
    /// The answer to a request that succeeded with a message or failed with
    /// an error, with the status after it.
    pub fn from_result(result: Result<String, String>, status: AgentStatus) -> (r: AgentResponse)
        ensures
            r.ok == result is Ok,
            r.message == (match result {
                Ok(m) => m,
                Err(e) => e,
            }),
            r.status == status,
    {
        match result {
            Ok(message) => AgentResponse { ok: true, message, status },
            Err(message) => AgentResponse { ok: false, message, status },
        }
    }

    /// The answer to a control request that could not be read or parsed.
    pub fn invalid_request(error: &str) -> (r: AgentResponse)
        ensures
            !r.ok,
            r.message@ == "EdgeSteer Agent rejected the request: "@ + error@,
            r.status.configuration_error matches Some(m) && m@ == "Invalid request"@,
            !r.status.engine_running && !r.status.system_dns_enabled && !r.status.autostart_enabled,
    {
        let mut out = chars_of("EdgeSteer Agent rejected the request: ");
        let detail = chars_of(error);
        extend_chars(&mut out, detail.as_slice());
        AgentResponse {
            ok: false,
            message: string_from_chars(&out),
            status: AgentStatus::unavailable("Invalid request".to_owned()),
        }
    }

    /// The answer to a request that reached an agent on its way out.
    pub fn shutting_down() -> (r: AgentResponse)
        ensures
            !r.ok,
            r.message@ == "EdgeSteer Agent is shutting down"@,
            r.status.configuration_error matches Some(m) && m@ == "Agent is shutting down"@,
            !r.status.engine_running && !r.status.system_dns_enabled && !r.status.autostart_enabled,
    {
        AgentResponse {
            ok: false,
            message: "EdgeSteer Agent is shutting down".to_owned(),
            status: AgentStatus::unavailable("Agent is shutting down".to_owned()),
        }
    }

    /// The answer to a request the agent did not finish in time.
    pub fn timed_out() -> (r: AgentResponse)
        ensures
            !r.ok,
            r.message@ == "EdgeSteer Agent did not finish the requested operation"@,
            r.status.configuration_error matches Some(m) && m@ == "Agent operation timed out"@,
            !r.status.engine_running && !r.status.system_dns_enabled && !r.status.autostart_enabled,
    {
        AgentResponse {
            ok: false,
            message: "EdgeSteer Agent did not finish the requested operation".to_owned(),
            status: AgentStatus::unavailable("Agent operation timed out".to_owned()),
        }
    }
}

/// A client of the agent of one user, found through that user's state
/// directory.
pub struct AgentClient {
    pub state_dir: String,
}

impl AgentClient {
    /// The client of the agent whose control record lies in `state_dir`
    /// (the current user's state directory).
    pub fn current_user(state_dir: String) -> (r: AgentClient)
        ensures
            r.state_dir == state_dir,
    {
        AgentClient { state_dir }
    }

    /// A control record written by an agent of another protocol version is
    /// refused before anything is sent.
    pub fn check_protocol(protocol: u8) -> (r: Result<(), String>)
        ensures
            (r is Ok) == (protocol == CONTROL_PROTOCOL),
            r matches Err(e) ==> e@ == "EdgeSteer Agent uses an incompatible control protocol"@,
    {
        if protocol != CONTROL_PROTOCOL {
            return Err(String::from_str("EdgeSteer Agent uses an incompatible control protocol"));
        }
        Ok(())
    }

    /// The agent's status out of its answer to a status request: the status
    /// where it answered `ok`, else its message as the error.
    pub fn status(response: AgentResponse) -> (r: Result<AgentStatus, String>)
        ensures
            response.ok ==> r == Ok::<AgentStatus, String>(response.status),
            !response.ok ==> r == Err::<AgentStatus, String>(response.message),
    {
        if response.ok {
            Ok(response.status)
        } else {
            Err(response.message)
        }
    }
}

/// What a newly started process does.
#[derive(Debug, Clone, Copy, PartialEq, Eq, Structural)]
pub enum StartAction {
    /// An agent is already running: send it this request.
    Request(AgentCommand),
    /// This process becomes the agent.
    RunAgent,
}

/// Only one agent runs per user: where one already holds the lock, the new
/// process asks it to open the window (or only for its status) instead.
pub fn start_or_open(agent_running: bool, open_ui: bool) -> (r: StartAction)
    ensures
        agent_running && open_ui ==> r == StartAction::Request(AgentCommand::OpenUi),
        agent_running && !open_ui ==> r == StartAction::Request(AgentCommand::Status),
        !agent_running ==> r == StartAction::RunAgent,
{
    if agent_running {
        if open_ui {
            StartAction::Request(AgentCommand::OpenUi)
        } else {
            StartAction::Request(AgentCommand::Status)
        }
    } else {
        StartAction::RunAgent
    }
}

/// The outcome of a request sent to a running agent: success where it
/// answered `ok`, else its message.
pub fn request_outcome(response: AgentResponse) -> (r: Result<(), String>)
    ensures
        response.ok ==> r is Ok,
        !response.ok ==> r == Err::<(), String>(response.message),
{
    if response.ok {
        Ok(())
    } else {
        Err(response.message)
    }
}

/// A control request is served only with the current protocol and the
/// agent's own token; any other is answered with a refusal.
pub fn authorize_request(protocol: u8, token: &str, expected: &str) -> (r: Result<(), AgentResponse>)
    ensures
        (r is Ok) == (protocol == CONTROL_PROTOCOL && token@ == expected@),
        r matches Err(response) ==> {
            &&& !response.ok
            &&& response.message@ == "EdgeSteer Agent rejected an unauthenticated request"@
            &&& response.status.configuration_error matches Some(m) && m@
                == "Unauthenticated request"@
        },
{
    if protocol == CONTROL_PROTOCOL && str_equal(token, expected) {
        Ok(())
    } else {
        Err(
            AgentResponse {
                ok: false,
                message: String::from_str("EdgeSteer Agent rejected an unauthenticated request"),
                status: AgentStatus::unavailable(String::from_str("Unauthenticated request")),
            },
        )
    }
}

/// At launch the agent starts the engine by itself only where that needs no
/// authorisation (the listener is not on port 53) or where system DNS is
/// already managed and so depends on the engine.
pub fn launch_starts_engine(listener: Option<SocketAddress>, dns_managed: bool) -> (r: bool)
    ensures
        r == (listener matches Some(l) && (l.port != 53 || dns_managed)),
{
    match listener {
        Some(l) => l.port != 53 || dns_managed,
        None => false,
    }
}

/// The request a menu choice stands for: each toggle asks for the opposite
/// of the state the status reports.
pub open spec fn spec_tray_event_command(event: TrayEvent, status: AgentStatus) -> AgentCommand {
    match event {
        TrayEvent::Open => AgentCommand::OpenUi,
        TrayEvent::ToggleEngine => if status.engine_running {
            AgentCommand::StopEngine
        } else {
            AgentCommand::StartEngine
        },
        TrayEvent::ToggleSystemDns => if status.system_dns_enabled {
            AgentCommand::DisableSystemDns
        } else {
            AgentCommand::EnableSystemDns
        },
        TrayEvent::ToggleAutostart => if status.autostart_enabled {
            AgentCommand::DisableAutoStart
        } else {
            AgentCommand::EnableAutoStart
        },
        TrayEvent::Quit => AgentCommand::Quit,
    }
}

pub fn tray_event_command(event: TrayEvent, status: &AgentStatus) -> (r: AgentCommand)
    ensures
        r == spec_tray_event_command(event, *status),
{
    match event {
        TrayEvent::Open => AgentCommand::OpenUi,
        TrayEvent::ToggleEngine => if status.engine_running {
            AgentCommand::StopEngine
        } else {
            AgentCommand::StartEngine
        },
        TrayEvent::ToggleSystemDns => if status.system_dns_enabled {
            AgentCommand::DisableSystemDns
        } else {
            AgentCommand::EnableSystemDns
        },
        TrayEvent::ToggleAutostart => if status.autostart_enabled {
            AgentCommand::DisableAutoStart
        } else {
            AgentCommand::EnableAutoStart
        },
        TrayEvent::Quit => AgentCommand::Quit,
    }
}

/// Some service of the inspection uses the loopback address for DNS.
pub open spec fn spec_any_loopback_service(status: IntegrationStatus) -> bool {
    exists|i: int|
        0 <= i < status.dns_services@.len() && (#[trigger] status.dns_services@[i]).spec_uses_loopback_dns()
}

/// The agent's status from what it knows: the listener as text (`None`
/// where the configuration is invalid), whether the engine runs, the
/// configuration error, the inspection of the system (`None` where it
/// failed) and whether an ownership record of system DNS exists. System DNS
/// counts as enabled where some service uses the loopback address or the
/// record exists; open at login where the login item is registered.
pub fn status_from(
    listener: Option<String>,
    engine_running: bool,
    configuration_error: Option<String>,
    integration_status: Option<&IntegrationStatus>,
    dns_managed: bool,
) -> (r: AgentStatus)
    ensures
        r.engine_running == engine_running,
        r.listener@ == (match listener {
            Some(l) => l@,
            None => "Invalid configuration"@,
        }),
        r.listener_ready == (integration_status matches Some(s) && s.listener_ready),
        r.system_dns_enabled == ((integration_status matches Some(s) && spec_any_loopback_service(
            *s,
        )) || dns_managed),
        r.autostart_enabled == (integration_status matches Some(s) && s.startup_service is Registered),
        r.configuration_error == configuration_error,
{
    let (listener_ready, any_loopback, autostart_enabled) = match integration_status {
        Some(status) => {
            let mut any = false;
            let mut i: usize = 0;
            while i < status.dns_services.len()
                invariant
                    i <= status.dns_services@.len(),
                    any == (exists|k: int|
                        0 <= k < i && (#[trigger] status.dns_services@[k]).spec_uses_loopback_dns()),
                decreases status.dns_services@.len() - i,
            {
                if status.dns_services[i].uses_loopback_dns() {
                    any = true;
                }
                i += 1;
            }
            let registered = match &status.startup_service {
                StartupService::Registered { .. } => true,
                _ => false,
            };
            (status.listener_ready, any, registered)
        },
        None => (false, false, false),
    };
    AgentStatus {
        engine_running,
        listener: match listener {
            Some(l) => l,
            None => String::from_str("Invalid configuration"),
        },
        listener_ready,
        system_dns_enabled: any_loopback || dns_managed,
        autostart_enabled,
        configuration_error,
    }
}

/// The language of the menu.
#[derive(Debug, Clone, Copy, PartialEq, Eq, Structural)]
pub enum TrayLanguage {
    Chinese,
    English,
}

/// The menu is in English only where the window's preferences say
/// `"english"` (`language`: their `language` value, where it is a string);
/// Chinese otherwise.
pub fn tray_language(language: Option<&str>) -> (r: TrayLanguage)
    ensures
        (r == TrayLanguage::English) == (language matches Some(l) && l@ == "english"@),
{
    match language {
        Some(l) => if str_equal(l, "english") {
            TrayLanguage::English
        } else {
            TrayLanguage::Chinese
        },
        None => TrayLanguage::Chinese,
    }
}

/// The menu texts of a language.
pub open spec fn spec_labels(labels: Labels, language: TrayLanguage) -> bool {
    match language {
        TrayLanguage::Chinese => {
            &&& labels.open@ == "打开 EdgeSteer"@
            &&& labels.dns@ == "DNS"@
            &&& labels.running@ == "运行中"@
            &&& labels.stopped@ == "已停止"@
            &&& labels.start_engine@ == "启动 DNS 引擎"@
            &&& labels.stop_engine@ == "停止 DNS 引擎"@
            &&& labels.system_dns@ == "系统 DNS"@
            &&& labels.open_at_login@ == "登录时打开"@
            &&& labels.quit@ == "退出 EdgeSteer"@
        },
        TrayLanguage::English => {
            &&& labels.open@ == "Open EdgeSteer"@
            &&& labels.dns@ == "DNS"@
            &&& labels.running@ == "Running"@
            &&& labels.stopped@ == "Stopped"@
            &&& labels.start_engine@ == "Start DNS engine"@
            &&& labels.stop_engine@ == "Stop DNS engine"@
            &&& labels.system_dns@ == "System DNS"@
            &&& labels.open_at_login@ == "Open at login"@
            &&& labels.quit@ == "Quit EdgeSteer"@
        },
    }
}

fn labels_for(language: TrayLanguage) -> (r: Labels)
    ensures
        spec_labels(r, language),
{
    match language {
        TrayLanguage::Chinese => Labels {
            open: String::from_str("打开 EdgeSteer"),
            dns: String::from_str("DNS"),
            running: String::from_str("运行中"),
            stopped: String::from_str("已停止"),
            start_engine: String::from_str("启动 DNS 引擎"),
            stop_engine: String::from_str("停止 DNS 引擎"),
            system_dns: String::from_str("系统 DNS"),
            open_at_login: String::from_str("登录时打开"),
            quit: String::from_str("退出 EdgeSteer"),
        },
        TrayLanguage::English => Labels {
            open: String::from_str("Open EdgeSteer"),
            dns: String::from_str("DNS"),
            running: String::from_str("Running"),
            stopped: String::from_str("Stopped"),
            start_engine: String::from_str("Start DNS engine"),
            stop_engine: String::from_str("Stop DNS engine"),
            system_dns: String::from_str("System DNS"),
            open_at_login: String::from_str("Open at login"),
            quit: String::from_str("Quit EdgeSteer"),
        },
    }
}

/// What the menu shows for a status, its listener read as a socket address
/// (`None` where it is not one). Every action needs a valid configuration;
/// making the listener the system resolver also needs the engine running,
/// the listener accepting connections and a loopback listener on port 53.
pub fn tray_presentation(status: &AgentStatus, language: TrayLanguage) -> (r: Presentation)
    ensures
        spec_labels(r.labels, language),
        r.listener@ == status.listener@,
        r.engine_running == status.engine_running,
        r.engine_action_enabled == status.configuration_error is None,
        r.system_dns_enabled == status.system_dns_enabled,
        r.system_dns_action_enabled == (status.configuration_error is None && status.engine_running
            && status.listener_ready && (spec_parse_socket_address(status.listener@) matches Some(a)
            && a.port == 53 && a.ip.spec_is_loopback())),
        r.autostart_enabled == status.autostart_enabled,
        r.autostart_action_enabled == status.configuration_error is None,
{
    let listener_address = parse_socket_address(status.listener.as_str());
    presentation_for_listener(status, language, listener_address)
}

/// What the menu shows for a status whose listener reads as
/// `listener_address`.
pub fn presentation_for_listener(
    status: &AgentStatus,
    language: TrayLanguage,
    listener_address: Option<SocketAddress>,
) -> (r: Presentation)
    ensures
        spec_labels(r.labels, language),
        r.listener@ == status.listener@,
        r.engine_running == status.engine_running,
        r.engine_action_enabled == status.configuration_error is None,
        r.system_dns_enabled == status.system_dns_enabled,
        r.system_dns_action_enabled == (status.configuration_error is None && status.engine_running
            && status.listener_ready && (listener_address matches Some(a) && a.port == 53
            && a.ip.spec_is_loopback())),
        r.autostart_enabled == status.autostart_enabled,
        r.autostart_action_enabled == status.configuration_error is None,
{
    let supports_system_dns = match listener_address {
        Some(a) => a.port == 53 && a.ip.is_loopback(),
        None => false,
    };
    let valid = status.configuration_error.is_none();
    Presentation {
        labels: labels_for(language),
        listener: status.listener.clone(),
        engine_running: status.engine_running,
        engine_action_enabled: valid,
        system_dns_enabled: status.system_dns_enabled,
        system_dns_action_enabled: valid && status.engine_running && status.listener_ready
            && supports_system_dns,
        autostart_enabled: status.autostart_enabled,
        autostart_action_enabled: valid,
    }
}

/// What the menu shows before the agent has checked anything: an
/// unavailable agent, in Chinese.
pub fn empty_presentation() -> (r: Presentation)
    ensures
        spec_labels(r.labels, TrayLanguage::Chinese),
        r.listener@ == "Unavailable"@,
        !r.engine_running,
        !r.engine_action_enabled,
        !r.system_dns_enabled,
        !r.system_dns_action_enabled,
        !r.autostart_enabled,
        !r.autostart_action_enabled,
{
    let status = AgentStatus::unavailable(String::from_str("Starting EdgeSteer Agent"));
    presentation_for_listener(&status, TrayLanguage::Chinese, None)
}

/// The lower-case hexadecimal digit of a value below sixteen.
pub open spec fn spec_hex_digit(n: nat) -> char {
    if n < 10 {
        ((n + 48) as u32) as char
    } else {
        ((n + 87) as u32) as char
    }
}

/// Each byte as two lower-case hexadecimal digits, high half first.
pub open spec fn spec_hex(bytes: Seq<u8>) -> Seq<char>
    decreases bytes.len(),
{
    if bytes.len() == 0 {
        Seq::empty()
    } else {
        spec_hex(bytes.drop_last()) + seq![
            spec_hex_digit((bytes.last() / 16) as nat),
            spec_hex_digit((bytes.last() % 16) as nat),
        ]
    }
}

fn hex_digit(n: u8) -> (c: char)
    requires
        n < 16,
    ensures
        c == spec_hex_digit(n as nat),
{
    let code: u8 = if n < 10 {
        n + 48
    } else {
        n + 87
    };
    code as char
}

/// The bytes as lower-case hexadecimal text.
pub fn hex_text(bytes: &[u8]) -> (r: String)
    ensures
        r@ == spec_hex(bytes@),
        r@.len() == 2 * bytes@.len(),
{
    let mut out: Vec<char> = Vec::new();
    let mut i: usize = 0;
    while i < bytes.len()
        invariant
            i <= bytes@.len(),
            out@ == spec_hex(bytes@.take(i as int)),
            out@.len() == 2 * i,
        decreases bytes@.len() - i,
    {
        let b = bytes[i];
        assert(bytes@.take(i + 1).drop_last() =~= bytes@.take(i as int));
        out.push(hex_digit(b / 16));
        out.push(hex_digit(b % 16));
        i += 1;
    }
    assert(bytes@.take(bytes@.len() as int) =~= bytes@);
    string_from_chars(&out)
}

/// Thirty-two random bytes from `rand::random` (the thread-local
/// generator); nothing is claimed of their values.
#[verifier::external_body]
fn random_bytes() -> (r: Vec<u8>)
    ensures
        r@.len() == 32,
{
    rand::random::<[u8; 32]>().to_vec()
}

/// A fresh control token: thirty-two random bytes in lower-case
/// hexadecimal, so sixty-four hexadecimal digits.
pub fn random_token() -> (r: String)
    ensures
        r@.len() == 64,
        exists|bytes: Seq<u8>| bytes.len() == 32 && r@ == spec_hex(bytes),
{
    let bytes = random_bytes();
    hex_text(bytes.as_slice())
}

/// The shell command that runs the engine with administrator rights for a
/// listener on port 53: the user's home kept, info logging, and the stop
/// file and the agent's process ID handed over.
pub open spec fn spec_engine_command(
    home: Seq<char>,
    executable: Seq<char>,
    stop_file: Seq<char>,
    parent_pid: u32,
) -> Seq<char> {
    "export HOME="@ + spec_shell_quote(home) + "; export RUST_LOG=info; exec "@ + spec_shell_quote(
        executable,
    ) + " --engine --stop-file "@ + spec_shell_quote(stop_file) + " --parent-pid "@ + spec_decimal(
        parent_pid as nat,
    )
}

pub fn engine_command(home: &str, executable: &str, stop_file: &str, parent_pid: u32) -> (r: String)
    ensures
        r@ == spec_engine_command(home@, executable@, stop_file@, parent_pid),
{
    let mut out = chars_of("export HOME=");
    let h = shell_quote_text(home);
    extend_chars(&mut out, chars_of(h.as_str()).as_slice());
    extend_chars(&mut out, chars_of("; export RUST_LOG=info; exec ").as_slice());
    let e = shell_quote_text(executable);
    extend_chars(&mut out, chars_of(e.as_str()).as_slice());
    extend_chars(&mut out, chars_of(" --engine --stop-file ").as_slice());
    let s = shell_quote_text(stop_file);
    extend_chars(&mut out, chars_of(s.as_str()).as_slice());
    extend_chars(&mut out, chars_of(" --parent-pid ").as_slice());
    extend_chars(&mut out, decimal_chars(parent_pid as u64).as_slice());
    assert(out@ =~= spec_engine_command(home@, executable@, stop_file@, parent_pid));
    string_from_chars(&out)
}

/// What the agent knows when it acts on a request.
pub struct AgentFacts {
    /// The listener of the configuration last read, if it passed the check.
    pub listener: Option<SocketAddress>,
    pub engine_running: bool,
    /// The configuration window the agent opened is still running.
    pub window_open: bool,
    /// The installed app bundle, where the agent runs from one.
    pub app_bundle: Option<String>,
}

/// The work a request asks of the agent.
pub enum CommandPlan {
    /// Answered at once, with no work.
    Answer(Result<String, String>),
    OpenWindow,
    StartEngine,
    StopEngine,
    RestartEngine,
    EnableSystemDns(SocketAddress),
    DisableSystemDns,
    EnableAutoStart(String),
    DisableAutoStart,
    RemoveLegacyService,
    Refresh,
    Quit,
}

/// The plan for a request: the status is answered at once; an open window
/// is not opened twice; system DNS is taken over only with a listener and
/// a running engine; open at login needs the installed app; every other
/// request is work of its own kind.
pub fn plan_command(command: AgentCommand, facts: &AgentFacts) -> (r: CommandPlan)
    ensures
        match command {
            AgentCommand::Status => r matches CommandPlan::Answer(Ok(m)) && m@
                == "EdgeSteer Agent is running"@,
            AgentCommand::OpenUi => if facts.window_open {
                r matches CommandPlan::Answer(Ok(m)) && m@ == "EdgeSteer window is already open"@
            } else {
                r is OpenWindow
            },
            AgentCommand::StartEngine => r is StartEngine,
            AgentCommand::StopEngine => r is StopEngine,
            AgentCommand::RestartEngine => r is RestartEngine,
            AgentCommand::EnableSystemDns => match facts.listener {
                None => r matches CommandPlan::Answer(Err(m)) && m@
                    == "configuration has no listener"@,
                Some(l) => if facts.engine_running {
                    r == CommandPlan::EnableSystemDns(l)
                } else {
                    r matches CommandPlan::Answer(Err(m)) && m@
                        == "start the DNS engine before enabling system DNS"@
                },
            },
            AgentCommand::DisableSystemDns => r is DisableSystemDns,
            AgentCommand::EnableAutoStart => match facts.app_bundle {
                None => r matches CommandPlan::Answer(Err(m)) && m@
                    == "install and open EdgeSteer.app before enabling open at login"@,
                Some(b) => r matches CommandPlan::EnableAutoStart(p) && p@ == b@,
            },
            AgentCommand::DisableAutoStart => r is DisableAutoStart,
            AgentCommand::RemoveLegacyService => r is RemoveLegacyService,
            AgentCommand::Refresh => r is Refresh,
            AgentCommand::Quit => r is Quit,
        },
{
    match command {
        AgentCommand::Status => CommandPlan::Answer(Ok("EdgeSteer Agent is running".to_owned())),
        AgentCommand::OpenUi => if facts.window_open {
            CommandPlan::Answer(Ok("EdgeSteer window is already open".to_owned()))
        } else {
            CommandPlan::OpenWindow
        },
        AgentCommand::StartEngine => CommandPlan::StartEngine,
        AgentCommand::StopEngine => CommandPlan::StopEngine,
        AgentCommand::RestartEngine => CommandPlan::RestartEngine,
        AgentCommand::EnableSystemDns => match facts.listener {
            None => CommandPlan::Answer(Err("configuration has no listener".to_owned())),
            Some(l) => if facts.engine_running {
                CommandPlan::EnableSystemDns(l)
            } else {
                CommandPlan::Answer(
                    Err("start the DNS engine before enabling system DNS".to_owned()),
                )
            },
        },
        AgentCommand::DisableSystemDns => CommandPlan::DisableSystemDns,
        AgentCommand::EnableAutoStart => match &facts.app_bundle {
            None => CommandPlan::Answer(
                Err("install and open EdgeSteer.app before enabling open at login".to_owned()),
            ),
            Some(b) => CommandPlan::EnableAutoStart(b.clone()),
        },
        AgentCommand::DisableAutoStart => CommandPlan::DisableAutoStart,
        AgentCommand::RemoveLegacyService => CommandPlan::RemoveLegacyService,
        AgentCommand::Refresh => CommandPlan::Refresh,
        AgentCommand::Quit => CommandPlan::Quit,
    }
}

/// `restored` followed by `suffix`, for the messages of work that restores
/// DNS first.
fn after_restore(restored: &str, suffix: &str) -> (r: String)
    ensures
        r@ == restored@ + suffix@,
{
    let mut out = chars_of(restored);
    let tail = chars_of(suffix);
    extend_chars(&mut out, tail.as_slice());
    string_from_chars(&out)
}

/// The answer to a stop: how DNS was restored, then that the engine
/// stopped.
pub fn engine_stopped_message(restored: &str) -> (r: String)
    ensures
        r@ == restored@ + "; DNS engine stopped"@,
{
    after_restore(restored, "; DNS engine stopped")
}

/// The answer to a quit: how DNS was restored, then that EdgeSteer
/// stopped.
pub fn agent_stopped_message(restored: &str) -> (r: String)
    ensures
        r@ == restored@ + "; EdgeSteer stopped"@,
{
    after_restore(restored, "; EdgeSteer stopped")
}

} // verus!
