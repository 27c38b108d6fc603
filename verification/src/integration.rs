use vstd::prelude::*;

use crate::net::{IpAddress, SocketAddress};
use crate::text::{
    chars_equal, chars_of, extend_chars, find_from, join_chars, pieces, replace_char, slice_chars,
    spec_char_lists, spec_find_from, spec_join, spec_pieces, spec_replace_char, spec_starts_with,
    spec_trim, starts_with, str_equal, string_from_chars, trim, parse_unsigned, spec_parse_unsigned,
    decimal_chars, spec_decimal,
};

verus! {

broadcast use vstd::string::group_string_axioms;

/// Per-user launchd label that opens the packaged application at login.
pub const AUTOSTART_LABEL: &'static str = "io.edgesteer.app";

/// Where system DNS registration and login start stand.
pub struct IntegrationStatus {
    pub listener: SocketAddress,
    pub listener_ready: bool,
    pub startup_service: StartupService,
    pub dns_services: Vec<SystemDnsService>,
}

/// How the application is started at login.
pub enum StartupService {
    Registered { label: String },
    LegacyDaemon { label: String },
    NotRegistered,
    Unsupported { reason: String },
}

impl StartupService {
    /// What the registration page shows.
    pub open spec fn spec_description(&self) -> Seq<char> {
        match self {
            StartupService::Registered { .. } => "Open at login enabled"@,
            StartupService::LegacyDaemon { .. } => "Legacy command-line service detected"@,
            StartupService::NotRegistered => "Open at login is disabled"@,
            StartupService::Unsupported { reason } => reason@,
        }
    }

    pub fn description(&self) -> (r: String)
        ensures
            r@ == self.spec_description(),
    {
        match self {
            StartupService::Registered { .. } => String::from_str("Open at login enabled"),
            StartupService::LegacyDaemon { .. } => String::from_str(
                "Legacy command-line service detected",
            ),
            StartupService::NotRegistered => String::from_str("Open at login is disabled"),
            StartupService::Unsupported { reason } => reason.clone(),
        }
    }
}

/// A DNS server setting names the loopback address (`127.0.0.1` or `::1`,
/// surrounding whitespace ignored).
pub open spec fn spec_is_loopback_dns(server: Seq<char>) -> bool {
    spec_trim(server) == "127.0.0.1"@ || spec_trim(server) == "::1"@
}

pub fn is_loopback_dns(server: &str) -> (r: bool)
    ensures
        r == spec_is_loopback_dns(server@),
{
    let chars = chars_of(server);
    let trimmed = trim(chars.as_slice());
    let v4 = chars_of("127.0.0.1");
    let v6 = chars_of("::1");
    chars_equal(trimmed.as_slice(), v4.as_slice()) || chars_equal(trimmed.as_slice(), v6.as_slice())
}

/// A network service of the system and its DNS servers (none: automatic).
pub struct SystemDnsService {
    pub name: String,
    pub device: String,
    pub enabled: bool,
    pub servers: Vec<String>,
}

/// The characters of each string.
pub open spec fn spec_strings(v: Seq<String>) -> Seq<Seq<char>> {
    v.map_values(|x: String| x@)
}

impl SystemDnsService {
    pub open spec fn spec_uses_loopback_dns(&self) -> bool {
        self.servers@.len() > 0 && forall|i: int|
            0 <= i < self.servers@.len() ==> spec_is_loopback_dns(#[trigger] self.servers@[i]@)
    }

    pub open spec fn spec_uses_automatic_dns(&self) -> bool {
        self.servers@.len() == 0
    }

    pub open spec fn spec_dns_description(&self) -> Seq<char> {
        if self.spec_uses_automatic_dns() {
            "Automatic (DHCP)"@
        } else {
            spec_join(spec_strings(self.servers@), ", "@)
        }
    }

    pub open spec fn spec_uses_dns_server(&self, server: Seq<char>) -> bool {
        self.servers@.len() == 1 && self.servers@[0]@ == server
    }

    /// Every DNS server of the service is the loopback address (and there is one).
    pub fn uses_loopback_dns(&self) -> (r: bool)
        ensures
            r == self.spec_uses_loopback_dns(),
    {
        if self.servers.len() == 0 {
            return false;
        }
        let mut i: usize = 0;
        while i < self.servers.len()
            invariant
                i <= self.servers@.len(),
                forall|k: int| 0 <= k < i ==> spec_is_loopback_dns(#[trigger] self.servers@[k]@),
            decreases self.servers@.len() - i,
        {
            if !is_loopback_dns(self.servers[i].as_str()) {
                return false;
            }
            i += 1;
        }
        true
    }

    /// The service takes its DNS servers from DHCP.
    pub fn uses_automatic_dns(&self) -> (r: bool)
        ensures
            r == self.spec_uses_automatic_dns(),
    {
        self.servers.len() == 0
    }

    /// The servers as the registration page shows them.
    pub fn dns_description(&self) -> (r: String)
        ensures
            r@ == self.spec_dns_description(),
    {
        if self.uses_automatic_dns() {
            return String::from_str("Automatic (DHCP)");
        }
        let mut parts: Vec<Vec<char>> = Vec::new();
        let mut i: usize = 0;
        while i < self.servers.len()
            invariant
                i <= self.servers@.len(),
                spec_char_lists(parts@) == spec_strings(self.servers@).take(i as int),
            decreases self.servers@.len() - i,
        {
            let ghost before = spec_char_lists(parts@);
            let c = chars_of(self.servers[i].as_str());
            assert(c@ == self.servers@[i as int]@);
            parts.push(c);
            assert(spec_char_lists(parts@) =~= before.push(c@));
            assert(spec_strings(self.servers@).take(i + 1) =~= spec_strings(self.servers@).take(
                i as int,
            ).push(self.servers@[i as int]@));
            i += 1;
        }
        assert(spec_strings(self.servers@).take(self.servers@.len() as int) =~= spec_strings(
            self.servers@,
        ));
        let sep = chars_of(", ");
        let joined = join_chars(&parts, sep.as_slice());
        string_from_chars(&joined)
    }

    /// The service's only DNS server is exactly `server`: only then is it
    /// counted as pointing at the listener.
    pub fn uses_dns_server(&self, server: &str) -> (r: bool)
        ensures
            r == self.spec_uses_dns_server(server@),
    {
        self.servers.len() == 1 && crate::text::str_equal(self.servers[0].as_str(), server)
    }
}

/// Why a listener cannot serve as the system resolver.
#[derive(Debug, Clone, Copy, PartialEq, Eq, Structural)]
pub enum ListenerError {
    /// System DNS has no port setting: the listener must be on port 53.
    NotPort53,
    /// The listener is not on a loopback address.
    NotLoopback,
}

/// The DNS server setting that points the system at the listener: the
/// loopback address it listens on, on port 53.
pub fn loopback_listener_server(listener: SocketAddress) -> (r: Result<&'static str, ListenerError>)
    ensures
        listener.port != 53 ==> r == Err::<&'static str, ListenerError>(ListenerError::NotPort53),
        listener.port == 53 ==> match listener.ip {
            IpAddress::V4(_) => if listener.ip.spec_is_loopback() {
                r matches Ok(s) && s@ == "127.0.0.1"@
            } else {
                r == Err::<&'static str, ListenerError>(ListenerError::NotLoopback)
            },
            IpAddress::V6(_) => if listener.ip.spec_is_loopback() {
                r matches Ok(s) && s@ == "::1"@
            } else {
                r == Err::<&'static str, ListenerError>(ListenerError::NotLoopback)
            },
        },
{
    if listener.port != 53 {
        return Err(ListenerError::NotPort53);
    }
    match listener.ip {
        IpAddress::V4(_) => if listener.ip.is_loopback() {
            Ok("127.0.0.1")
        } else {
            Err(ListenerError::NotLoopback)
        },
        IpAddress::V6(_) => if listener.ip.is_loopback() {
            Ok("::1")
        } else {
            Err(ListenerError::NotLoopback)
        },
    }
}

/// A value quoted for the shell: in single quotes, each single quote
/// written as `'"'"'`.
pub open spec fn spec_shell_quote(value: Seq<char>) -> Seq<char> {
    seq!['\''] + spec_replace_char(value, '\'', "'\"'\"'"@) + seq!['\'']
}

pub fn shell_quote_text(value: &str) -> (r: String)
    ensures
        r@ == spec_shell_quote(value@),
{
    let chars = chars_of(value);
    let rep = chars_of("'\"'\"'");
    let replaced = replace_char(chars.as_slice(), '\'', rep.as_slice());
    let mut out: Vec<char> = Vec::new();
    out.push('\'');
    extend_chars(&mut out, replaced.as_slice());
    out.push('\'');
    assert(out@ =~= spec_shell_quote(value@));
    string_from_chars(&out)
}

/// A value escaped for an AppleScript string literal: backslash, double
/// quote, newline and carriage return escaped, in that order.
pub open spec fn spec_escape_applescript(value: Seq<char>) -> Seq<char> {
    spec_replace_char(
        spec_replace_char(
            spec_replace_char(spec_replace_char(value, '\\', "\\\\"@), '"', "\\\""@),
            '\n',
            "\\n"@,
        ),
        '\r',
        "\\r"@,
    )
}

pub fn escape_applescript_string(value: &str) -> (r: String)
    ensures
        r@ == spec_escape_applescript(value@),
{
    let chars = chars_of(value);
    let a = replace_char(chars.as_slice(), '\\', chars_of("\\\\").as_slice());
    let b = replace_char(a.as_slice(), '"', chars_of("\\\"").as_slice());
    let c = replace_char(b.as_slice(), '\n', chars_of("\\n").as_slice());
    let d = replace_char(c.as_slice(), '\r', chars_of("\\r").as_slice());
    string_from_chars(&d)
}

/// A value escaped for XML text: `&`, `<`, `>`, `"` and `'` as entities,
/// the ampersand first.
pub open spec fn spec_xml_escape(value: Seq<char>) -> Seq<char> {
    spec_replace_char(
        spec_replace_char(
            spec_replace_char(
                spec_replace_char(spec_replace_char(value, '&', "&amp;"@), '<', "&lt;"@),
                '>',
                "&gt;"@,
            ),
            '"',
            "&quot;"@,
        ),
        '\'',
        "&apos;"@,
    )
}

pub fn xml_escape(value: &str) -> (r: String)
    ensures
        r@ == spec_xml_escape(value@),
{
    let chars = chars_of(value);
    let a = replace_char(chars.as_slice(), '&', chars_of("&amp;").as_slice());
    let b = replace_char(a.as_slice(), '<', chars_of("&lt;").as_slice());
    let c = replace_char(b.as_slice(), '>', chars_of("&gt;").as_slice());
    let d = replace_char(c.as_slice(), '"', chars_of("&quot;").as_slice());
    let e = replace_char(d.as_slice(), '\'', chars_of("&apos;").as_slice());
    string_from_chars(&e)
}

/// The text of a launch agent before the bundle path.
pub const PLIST_HEAD: &'static str = "<?xml version=\"1.0\" encoding=\"UTF-8\"?>\n<!DOCTYPE plist PUBLIC \"-//Apple//DTD PLIST 1.0//EN\" \"http://www.apple.com/DTDs/PropertyList-1.0.dtd\">\n<plist version=\"1.0\">\n<dict>\n  <key>Label</key><string>io.edgesteer.app</string>\n  <key>ProgramArguments</key>\n  <array>\n    <string>/usr/bin/open</string>\n    <string>-g</string>\n    <string>-j</string>\n    <string>-a</string>\n    <string>";

/// The text of a launch agent after the bundle path.
pub const PLIST_TAIL: &'static str = "</string>\n  </array>\n  <key>RunAtLoad</key><true/>\n  <key>ProcessType</key><string>Interactive</string>\n</dict>\n</plist>\n";

/// A per-user launch agent that opens the application bundle (in the
/// background, hidden) at login; no command-line service is registered.
pub open spec fn spec_launch_agent_plist(app_bundle: Seq<char>) -> Seq<char> {
    PLIST_HEAD@ + spec_xml_escape(app_bundle) + PLIST_TAIL@
}

pub fn launch_agent_plist(app_bundle: &str) -> (r: String)
    ensures
        r@ == spec_launch_agent_plist(app_bundle@),
{
    let mut out = String::from_str(PLIST_HEAD);
    let escaped = xml_escape(app_bundle);
    out.append(escaped.as_str());
    out.append(PLIST_TAIL);
    out
}

/// A path with one more component (`Path::join` of a relative component):
/// a separator goes between unless the path is empty or already ends with one.
pub open spec fn spec_join_path(base: Seq<char>, component: Seq<char>) -> Seq<char> {
    if base.len() == 0 || base.last() == '/' {
        base + component
    } else {
        base + seq!['/'] + component
    }
}

pub fn join_path(base: &Vec<char>, component: &str) -> (r: Vec<char>)
    ensures
        r@ == spec_join_path(base@, component@),
{
    let mut out: Vec<char> = Vec::new();
    extend_chars(&mut out, base.as_slice());
    if base.len() > 0 && base[base.len() - 1] != '/' {
        out.push('/');
    }
    let c = chars_of(component);
    extend_chars(&mut out, c.as_slice());
    assert(out@ =~= spec_join_path(base@, component@));
    out
}

/// Where the login launch agent lives in a home directory.
pub open spec fn spec_launch_agent_path(home: Seq<char>) -> Seq<char> {
    spec_join_path(spec_join_path(spec_join_path(home, "Library"@), "LaunchAgents"@), "io.edgesteer.app.plist"@)
}

pub fn launch_agent_path_for(home: &str) -> (r: String)
    ensures
        r@ == spec_launch_agent_path(home@),
{
    let h = chars_of(home);
    let a = join_path(&h, "Library");
    let b = join_path(&a, "LaunchAgents");
    let c = join_path(&b, "io.edgesteer.app.plist");
    string_from_chars(&c)
}


/// The device named in a `(Hardware Port: ..., Device: en0)` line: the text
/// after the first `Device: ` up to any next one, which must end with `)`.
pub open spec fn spec_device(line: Seq<char>) -> Option<Seq<char>> {
    match spec_find_from(line, "Device: "@, 0) {
        None => None,
        Some(k) => {
            let rest = line.subrange(k + 8, line.len() as int);
            let piece = match spec_find_from(rest, "Device: "@, 0) {
                Some(k2) => rest.subrange(0, k2),
                None => rest,
            };
            if piece.len() > 0 && piece.last() == ')' {
                Some(piece.drop_last())
            } else {
                None
            }
        },
    }
}

/// The service a `(1) Wi-Fi` line names: the text after the first `) `.
pub open spec fn spec_service_name(line: Seq<char>) -> Option<Seq<char>> {
    if line.len() > 0 && line[0] == '(' {
        let rest = line.drop_first();
        match spec_find_from(rest, ") "@, 0) {
            Some(k) => Some(rest.subrange(k + 2, rest.len() as int)),
            None => None,
        }
    } else {
        None
    }
}

/// The services found and the service name waiting for its device line,
/// after the given lines of `networksetup -listnetworkserviceorder`: a
/// service counts where the line right after its name names a device whose
/// name starts with `en` (a physical interface).
pub open spec fn spec_service_scan(lines: Seq<Seq<char>>) -> (Seq<(Seq<char>, Seq<char>)>, Option<
    Seq<char>,
>)
    decreases lines.len(),
{
    if lines.len() == 0 {
        (Seq::empty(), None)
    } else {
        let (services, pending) = spec_service_scan(lines.drop_last());
        let line = spec_trim(lines.last());
        match spec_service_name(line) {
            Some(name) => (services, Some(name)),
            None => match pending {
                None => (services, None),
                Some(service) => match spec_device(line) {
                    Some(d) => if spec_starts_with(d, "en"@) {
                        (services.push((service, d)), None)
                    } else {
                        (services, None)
                    },
                    None => (services, None),
                },
            },
        }
    }
}

/// The physical network services, with their devices, in service order.
pub open spec fn spec_network_service_order(output: Seq<char>) -> Seq<(Seq<char>, Seq<char>)> {
    spec_service_scan(spec_pieces(output, '\n')).0
}

fn service_name(line: &Vec<char>) -> (r: Option<Vec<char>>)
    ensures
        match spec_service_name(line@) {
            Some(n) => r matches Some(v) && v@ == n,
            None => r is None,
        },
{
    if line.len() == 0 || line[0] != '(' {
        return None;
    }
    let rest = slice_chars(line.as_slice(), 1, line.len());
    assert(rest@ =~= line@.drop_first());
    let sep = chars_of(") ");
    proof {
        reveal_strlit(") ");
    }
    match find_from(rest.as_slice(), sep.as_slice(), 0) {
        Some(k) => Some(slice_chars(rest.as_slice(), k + 2, rest.len())),
        None => None,
    }
}

fn device(line: &Vec<char>) -> (r: Option<Vec<char>>)
    ensures
        match spec_device(line@) {
            Some(d) => r matches Some(v) && v@ == d,
            None => r is None,
        },
{
    let marker = chars_of("Device: ");
    proof {
        reveal_strlit("Device: ");
    }
    match find_from(line.as_slice(), marker.as_slice(), 0) {
        None => None,
        Some(k) => {
            let n = line.len();
            assert(k + 8 <= n);
            let rest = slice_chars(line.as_slice(), k + 8, n);
            let piece = match find_from(rest.as_slice(), marker.as_slice(), 0) {
                Some(k2) => slice_chars(rest.as_slice(), 0, k2),
                None => rest,
            };
            if piece.len() > 0 && piece[piece.len() - 1] == ')' {
                let d = slice_chars(piece.as_slice(), 0, piece.len() - 1);
                assert(d@ =~= piece@.drop_last());
                Some(d)
            } else {
                None
            }
        },
    }
}

/// The physical network services of `networksetup -listnetworkserviceorder`
/// output, with their devices.
pub fn parse_macos_network_service_order(output: &str) -> (r: Vec<(String, String)>)
    ensures
        r@.map_values(|p: (String, String)| (p.0@, p.1@)) == spec_network_service_order(output@),
{
    let chars = chars_of(output);
    let lines = pieces(chars.as_slice(), '\n');
    let ghost lv = spec_char_lists(lines@);
    let mut services: Vec<(String, String)> = Vec::new();
    let mut pending: Option<Vec<char>> = None;
    let mut i: usize = 0;
    while i < lines.len()
        invariant
            i <= lines@.len(),
            lv == spec_char_lists(lines@),
            services@.map_values(|p: (String, String)| (p.0@, p.1@)) == spec_service_scan(
                lv.take(i as int),
            ).0,
            match spec_service_scan(lv.take(i as int)).1 {
                Some(n) => pending matches Some(v) && v@ == n,
                None => pending is None,
            },
        decreases lines@.len() - i,
    {
        assert(lv.take(i + 1).drop_last() =~= lv.take(i as int));
        assert(lv.take(i + 1).last() == lines@[i as int]@);
        let line = trim(lines[i].as_slice());
        match service_name(&line) {
            Some(name) => {
                pending = Some(name);
            },
            None => {
                match pending {
                    None => {},
                    Some(service) => {
                        pending = None;
                        match device(&line) {
                            Some(d) => {
                                let en = chars_of("en");
                                if starts_with(d.as_slice(), en.as_slice()) {
                                    let ghost before = services@.map_values(
                                        |p: (String, String)| (p.0@, p.1@),
                                    );
                                    let entry = (string_from_chars(&service), string_from_chars(&d));
                                    services.push(entry);
                                    assert(services@.map_values(|p: (String, String)| (p.0@, p.1@))
                                        =~= before.push((service@, d@)));
                                }
                            },
                            None => {},
                        }
                    },
                }
            },
        }
        i += 1;
    }
    assert(lv.take(lv.len() as int) =~= lv);
    services
}

/// The answer of `networksetup -getdnsservers` for a service set to automatic DNS.
pub const NO_DNS_SERVERS: &'static str = "There aren't any DNS Servers set on";

/// The non-empty trimmed lines, in order.
pub open spec fn spec_nonblank_lines(lines: Seq<Seq<char>>) -> Seq<Seq<char>>
    decreases lines.len(),
{
    if lines.len() == 0 {
        Seq::empty()
    } else {
        let before = spec_nonblank_lines(lines.drop_last());
        let t = spec_trim(lines.last());
        if t.len() > 0 {
            before.push(t)
        } else {
            before
        }
    }
}

/// The DNS servers of `networksetup -getdnsservers` output: none where it
/// says none are set, else each non-empty line, trimmed.
pub open spec fn spec_macos_dns_servers(output: Seq<char>) -> Seq<Seq<char>> {
    if spec_starts_with(output, NO_DNS_SERVERS@) {
        Seq::empty()
    } else {
        spec_nonblank_lines(spec_pieces(output, '\n'))
    }
}

pub fn parse_macos_dns_servers(output: &str) -> (r: Vec<String>)
    ensures
        spec_strings(r@) == spec_macos_dns_servers(output@),
{
    let chars = chars_of(output);
    let marker = chars_of(NO_DNS_SERVERS);
    if starts_with(chars.as_slice(), marker.as_slice()) {
        let empty: Vec<String> = Vec::new();
        assert(spec_strings(empty@) =~= Seq::<Seq<char>>::empty());
        return empty;
    }
    let lines = pieces(chars.as_slice(), '\n');
    let ghost lv = spec_char_lists(lines@);
    let mut out: Vec<String> = Vec::new();
    let mut i: usize = 0;
    assert(spec_strings(out@) =~= Seq::<Seq<char>>::empty());
    while i < lines.len()
        invariant
            i <= lines@.len(),
            lv == spec_char_lists(lines@),
            spec_strings(out@) == spec_nonblank_lines(lv.take(i as int)),
        decreases lines@.len() - i,
    {
        assert(lv.take(i + 1).drop_last() =~= lv.take(i as int));
        assert(lv.take(i + 1).last() == lines@[i as int]@);
        let t = trim(lines[i].as_slice());
        if t.len() > 0 {
            let ghost before = spec_strings(out@);
            let value = string_from_chars(&t);
            out.push(value);
            assert(spec_strings(out@) =~= before.push(t@));
        }
        i += 1;
    }
    assert(lv.take(lv.len() as int) =~= lv);
    out
}

/// What follows every privileged DNS change: the resolver caches are
/// flushed, whether or not the change itself succeeded.
pub const DNS_FLUSH_SUFFIX: &'static str = " && /usr/bin/dscacheutil -flushcache >/dev/null 2>&1 || true; /usr/bin/killall -HUP mDNSResponder >/dev/null 2>&1 || true";

/// The ownership record: which services were pointed at which listener
/// address. Only those services are ever restored.
pub struct DnsGuard {
    pub listener: String,
    pub services: Vec<String>,
}

/// The DNS server setting for a listener, as `loopback_listener_server`
/// finds it.
pub open spec fn spec_listener_server(listener: SocketAddress) -> Result<Seq<char>, ListenerError> {
    if listener.port != 53 {
        Err(ListenerError::NotPort53)
    } else if !listener.ip.spec_is_loopback() {
        Err(ListenerError::NotLoopback)
    } else {
        match listener.ip {
            IpAddress::V4(_) => Ok("127.0.0.1"@),
            IpAddress::V6(_) => Ok("::1"@),
        }
    }
}

/// The enabled services.
pub open spec fn spec_enabled_services(services: Seq<SystemDnsService>) -> Seq<SystemDnsService> {
    services.filter(|s: SystemDnsService| s.enabled)
}

/// An enabled service with DNS servers set by hand that are not the loopback
/// address: enabling would overwrite them with nothing to restore them from.
pub open spec fn spec_is_manual_dns(s: SystemDnsService) -> bool {
    s.enabled && !s.spec_uses_automatic_dns() && !s.spec_uses_loopback_dns()
}

/// How a refused service is named: its name and its DNS servers.
pub open spec fn spec_manual_entry(s: SystemDnsService) -> Seq<char> {
    s.name@ + " ("@ + s.spec_dns_description() + ")"@
}

/// The entries of the services whose explicit DNS blocks enabling.
pub open spec fn spec_manual_entries(services: Seq<SystemDnsService>) -> Seq<Seq<char>> {
    services.filter(|s: SystemDnsService| spec_is_manual_dns(s)).map_values(
        |s: SystemDnsService| spec_manual_entry(s),
    )
}

/// An enabled service that takes automatic DNS or already points at `server`.
pub open spec fn spec_is_enable_target(s: SystemDnsService, server: Seq<char>) -> bool {
    s.enabled && (s.spec_uses_automatic_dns() || s.spec_uses_dns_server(server))
}

/// The services that enabling takes over, in order.
pub open spec fn spec_enable_targets(services: Seq<SystemDnsService>, server: Seq<char>) -> Seq<
    SystemDnsService,
> {
    services.filter(|s: SystemDnsService| spec_is_enable_target(s, server))
}

/// The names of services.
pub open spec fn spec_names(services: Seq<SystemDnsService>) -> Seq<Seq<char>> {
    services.map_values(|s: SystemDnsService| s.name@)
}

/// The command that points one service at `server`.
pub open spec fn spec_set_dns_command(name: Seq<char>, server: Seq<char>) -> Seq<char> {
    "/usr/sbin/networksetup -setdnsservers "@ + spec_shell_quote(name) + " "@ + spec_shell_quote(
        server,
    )
}

/// The commands for the targets that do not point at `server` yet.
pub open spec fn spec_set_dns_commands(services: Seq<SystemDnsService>, server: Seq<char>) -> Seq<
    Seq<char>,
> {
    services.filter(
        |s: SystemDnsService| spec_is_enable_target(s, server) && !s.spec_uses_dns_server(server),
    ).map_values(|s: SystemDnsService| spec_set_dns_command(s.name@, server))
}

/// One privileged shell command: the commands joined by `&&`, then the
/// cache flush.
pub open spec fn spec_privileged_batch(commands: Seq<Seq<char>>) -> Seq<char> {
    spec_join(commands, " && "@) + DNS_FLUSH_SUFFIX@
}

/// What enabling the listener as system DNS does: the ownership record to
/// write first, and the privileged command to run (none where every target
/// already points at the listener).
pub struct EnablePlan {
    pub guard: DnsGuard,
    pub command: Option<String>,
}

/// Why the listener cannot be made the system resolver.
pub enum EnableDnsError {
    /// The listener is not a loopback address on port 53.
    Listener(ListenerError),
    /// No TCP connection to the listener was accepted.
    ListenerNotReady,
    /// No network service is enabled.
    NoEnabledService,
    /// These services have explicit DNS servers, which would be overwritten
    /// with no record to restore them from.
    ExplicitDns { services: Vec<String> },
    /// No enabled service takes automatic DNS or points at the listener.
    NoUsableService,
}

proof fn lemma_enabled_push(p: Seq<SystemDnsService>, x: SystemDnsService)
    ensures
        spec_enabled_services(p.push(x)) == if x.enabled {
            spec_enabled_services(p).push(x)
        } else {
            spec_enabled_services(p)
        },
{
    broadcast use Seq::lemma_filter_push;

}

proof fn lemma_manual_push(p: Seq<SystemDnsService>, x: SystemDnsService)
    ensures
        spec_manual_entries(p.push(x)) == if spec_is_manual_dns(x) {
            spec_manual_entries(p).push(spec_manual_entry(x))
        } else {
            spec_manual_entries(p)
        },
{
    broadcast use Seq::lemma_filter_push;

    let pred = |s: SystemDnsService| spec_is_manual_dns(s);
    let g = |s: SystemDnsService| spec_manual_entry(s);
    let f = p.filter(pred);
    assert(f.push(x).map_values(g) =~= f.map_values(g).push(g(x)));
}

proof fn lemma_restore_push(
    p: Seq<SystemDnsService>,
    x: SystemDnsService,
    owned: Seq<Seq<char>>,
    listener: Seq<char>,
)
    ensures
        spec_names(spec_restore_targets(p.push(x), owned, listener)) == if spec_is_restore_target(
            x,
            owned,
            listener,
        ) {
            spec_names(spec_restore_targets(p, owned, listener)).push(x.name@)
        } else {
            spec_names(spec_restore_targets(p, owned, listener))
        },
{
    broadcast use Seq::lemma_filter_push;

    let f = spec_restore_targets(p, owned, listener);
    assert(spec_names(f.push(x)) =~= spec_names(f).push(x.name@));
}

proof fn lemma_enable_push(p: Seq<SystemDnsService>, x: SystemDnsService, server: Seq<char>)
    ensures
        spec_names(spec_enable_targets(p.push(x), server)) == if spec_is_enable_target(x, server) {
            spec_names(spec_enable_targets(p, server)).push(x.name@)
        } else {
            spec_names(spec_enable_targets(p, server))
        },
        spec_set_dns_commands(p.push(x), server) == if spec_is_enable_target(x, server)
            && !x.spec_uses_dns_server(server) {
            spec_set_dns_commands(p, server).push(spec_set_dns_command(x.name@, server))
        } else {
            spec_set_dns_commands(p, server)
        },
{
    broadcast use Seq::lemma_filter_push;

    let f = spec_enable_targets(p, server);
    assert(spec_names(f.push(x)) =~= spec_names(f).push(x.name@));
    let pred = |s: SystemDnsService|
        spec_is_enable_target(s, server) && !s.spec_uses_dns_server(server);
    let g = |s: SystemDnsService| spec_set_dns_command(s.name@, server);
    let h = p.filter(pred);
    assert(h.push(x).map_values(g) =~= h.map_values(g).push(g(x)));
}

/// `name (servers)` of a service.
fn manual_entry(s: &SystemDnsService) -> (r: String)
    ensures
        r@ == spec_manual_entry(*s),
{
    let mut out = chars_of(s.name.as_str());
    let open = chars_of(" (");
    extend_chars(&mut out, open.as_slice());
    let description = s.dns_description();
    let d = chars_of(description.as_str());
    extend_chars(&mut out, d.as_slice());
    let close = chars_of(")");
    extend_chars(&mut out, close.as_slice());
    assert(out@ =~= spec_manual_entry(*s));
    string_from_chars(&out)
}

/// `networksetup -setdnsservers` for one service and one server.
fn set_dns_command(name: &str, server: &str) -> (r: Vec<char>)
    ensures
        r@ == spec_set_dns_command(name@, server@),
{
    let mut out = chars_of("/usr/sbin/networksetup -setdnsservers ");
    let q = shell_quote_text(name);
    let qc = chars_of(q.as_str());
    extend_chars(&mut out, qc.as_slice());
    out.push(' ');
    let s = shell_quote_text(server);
    let sc = chars_of(s.as_str());
    extend_chars(&mut out, sc.as_slice());
    proof {
        reveal_strlit(" ");
    }
    assert(out@ =~= spec_set_dns_command(name@, server@));
    out
}

/// The commands joined by `&&`, then the cache flush.
fn privileged_batch(commands: &Vec<Vec<char>>) -> (r: String)
    ensures
        r@ == spec_privileged_batch(spec_char_lists(commands@)),
{
    let sep = chars_of(" && ");
    let mut out = join_chars(commands, sep.as_slice());
    let suffix = chars_of(DNS_FLUSH_SUFFIX);
    extend_chars(&mut out, suffix.as_slice());
    string_from_chars(&out)
}

/// Decides how to make the listener the system resolver, from the listener,
/// whether it accepts connections and the network services found: the
/// listener must be a loopback address on port 53 and ready; some service
/// must be enabled; no enabled service may have explicit DNS servers other
/// than the loopback address; then every enabled service on automatic DNS or
/// already on the listener is taken over, and only those not yet on it are
/// changed.
pub fn enable_system_dns(
    listener: SocketAddress,
    listener_ready: bool,
    services: &Vec<SystemDnsService>,
) -> (r: Result<EnablePlan, EnableDnsError>)
    ensures
        match spec_listener_server(listener) {
            Err(e) => r matches Err(EnableDnsError::Listener(f)) && f == e,
            Ok(server) => if !listener_ready {
                r matches Err(EnableDnsError::ListenerNotReady)
            } else if spec_enabled_services(services@).len() == 0 {
                r matches Err(EnableDnsError::NoEnabledService)
            } else if spec_manual_entries(services@).len() > 0 {
                r matches Err(EnableDnsError::ExplicitDns { services: m }) && spec_strings(m@)
                    == spec_manual_entries(services@)
            } else if spec_enable_targets(services@, server).len() == 0 {
                r matches Err(EnableDnsError::NoUsableService)
            } else {
                &&& r matches Ok(plan)
                &&& plan.guard.listener@ == server
                &&& spec_strings(plan.guard.services@) == spec_names(
                    spec_enable_targets(services@, server),
                )
                &&& match plan.command {
                    None => spec_set_dns_commands(services@, server).len() == 0,
                    Some(c) => spec_set_dns_commands(services@, server).len() > 0 && c@
                        == spec_privileged_batch(spec_set_dns_commands(services@, server)),
                }
            },
        },
{
    let server = match loopback_listener_server(listener) {
        Ok(s) => s,
        Err(e) => {
            return Err(EnableDnsError::Listener(e));
        },
    };
    let ghost sv = server@;
    assert(spec_listener_server(listener) == Ok::<Seq<char>, ListenerError>(sv));
    if !listener_ready {
        return Err(EnableDnsError::ListenerNotReady);
    }
    let mut enabled_count: usize = 0;
    let mut manual: Vec<String> = Vec::new();
    let mut targets: Vec<String> = Vec::new();
    let mut commands: Vec<Vec<char>> = Vec::new();
    let mut i: usize = 0;
    assert(services@.take(0) =~= Seq::<SystemDnsService>::empty());
    assert(spec_strings(manual@) =~= Seq::<Seq<char>>::empty());
    assert(spec_strings(targets@) =~= Seq::<Seq<char>>::empty());
    assert(spec_char_lists(commands@) =~= Seq::<Seq<char>>::empty());
    while i < services.len()
        invariant
            i <= services@.len(),
            sv == server@,
            enabled_count <= i,
            enabled_count == spec_enabled_services(services@.take(i as int)).len(),
            spec_strings(manual@) == spec_manual_entries(services@.take(i as int)),
            spec_strings(targets@) == spec_names(spec_enable_targets(services@.take(i as int), sv)),
            spec_char_lists(commands@) == spec_set_dns_commands(services@.take(i as int), sv),
        decreases services@.len() - i,
    {
        let s = &services[i];
        let ghost t = services@.take(i + 1);
        let ghost p = services@.take(i as int);
        assert(t =~= p.push(*s));
        proof {
            lemma_enabled_push(p, *s);
            lemma_manual_push(p, *s);
            lemma_enable_push(p, *s, sv);
        }
        if s.enabled {
            enabled_count += 1;
        }
        let automatic = s.uses_automatic_dns();
        let loopback = s.uses_loopback_dns();
        let points = s.uses_dns_server(server);
        if s.enabled && !automatic && !loopback {
            let ghost before = spec_strings(manual@);
            let entry = manual_entry(s);
            manual.push(entry);
            assert(spec_strings(manual@) =~= before.push(spec_manual_entry(*s)));
        }
        if s.enabled && (automatic || points) {
            let ghost before = spec_strings(targets@);
            targets.push(s.name.clone());
            assert(spec_strings(targets@) =~= before.push(s.name@));
            if !points {
                let ghost cbefore = spec_char_lists(commands@);
                let c = set_dns_command(s.name.as_str(), server);
                commands.push(c);
                assert(spec_char_lists(commands@) =~= cbefore.push(spec_set_dns_command(s.name@, sv)));
            }
        }
        i += 1;
    }
    assert(services@.take(services@.len() as int) =~= services@);
    if enabled_count == 0 {
        return Err(EnableDnsError::NoEnabledService);
    }
    if manual.len() > 0 {
        return Err(EnableDnsError::ExplicitDns { services: manual });
    }
    if targets.len() == 0 {
        return Err(EnableDnsError::NoUsableService);
    }
    let command = if commands.len() == 0 {
        None
    } else {
        Some(privileged_batch(&commands))
    };
    Ok(EnablePlan { guard: DnsGuard { listener: String::from_str(server), services: targets }, command })
}

/// A service listed in the ownership record that still points at the
/// recorded listener address.
pub open spec fn spec_is_restore_target(
    s: SystemDnsService,
    owned: Seq<Seq<char>>,
    listener: Seq<char>,
) -> bool {
    owned.contains(s.name@) && s.spec_uses_dns_server(listener)
}

/// The services to hand back to automatic DNS, in order.
pub open spec fn spec_restore_targets(
    services: Seq<SystemDnsService>,
    owned: Seq<Seq<char>>,
    listener: Seq<char>,
) -> Seq<SystemDnsService> {
    services.filter(|s: SystemDnsService| spec_is_restore_target(s, owned, listener))
}

/// The command that hands one service back to automatic DNS.
pub open spec fn spec_restore_dns_command(name: Seq<char>) -> Seq<char> {
    "/usr/sbin/networksetup -setdnsservers "@ + spec_shell_quote(name) + " Empty"@
}

/// The string is one of the strings.
fn contains_string(v: &Vec<String>, s: &str) -> (r: bool)
    ensures
        r == spec_strings(v@).contains(s@),
{
    let mut i: usize = 0;
    while i < v.len()
        invariant
            i <= v@.len(),
            forall|k: int| 0 <= k < i ==> v@[k]@ != s@,
        decreases v@.len() - i,
    {
        if str_equal(v[i].as_str(), s) {
            assert(spec_strings(v@)[i as int] == s@);
            return true;
        }
        i += 1;
    }
    assert forall|k: int| 0 <= k < spec_strings(v@).len() implies spec_strings(v@)[k] != s@ by {
        assert(spec_strings(v@)[k] == v@[k]@);
    }
    false
}

/// The names of the services that the ownership record says EdgeSteer
/// pointed at its listener and that still point there. A service is
/// handed back even where it has been disabled meanwhile; no other
/// service is ever touched.
pub fn managed_dns_targets(guard: &DnsGuard, services: &Vec<SystemDnsService>) -> (r: Vec<String>)
    ensures
        spec_strings(r@) == spec_names(
            spec_restore_targets(services@, spec_strings(guard.services@), guard.listener@),
        ),
{
    let ghost owned = spec_strings(guard.services@);
    let mut out: Vec<String> = Vec::new();
    let mut i: usize = 0;
    assert(services@.take(0) =~= Seq::<SystemDnsService>::empty());
    assert(spec_strings(out@) =~= Seq::<Seq<char>>::empty());
    while i < services.len()
        invariant
            i <= services@.len(),
            owned == spec_strings(guard.services@),
            spec_strings(out@) == spec_names(
                spec_restore_targets(services@.take(i as int), owned, guard.listener@),
            ),
        decreases services@.len() - i,
    {
        let s = &services[i];
        assert(services@.take(i + 1) =~= services@.take(i as int).push(*s));
        proof {
            lemma_restore_push(services@.take(i as int), *s, owned, guard.listener@);
        }
        if contains_string(&guard.services, s.name.as_str()) && s.uses_dns_server(
            guard.listener.as_str(),
        ) {
            let ghost before = spec_strings(out@);
            out.push(s.name.clone());
            assert(spec_strings(out@) =~= before.push(s.name@));
        }
        i += 1;
    }
    assert(services@.take(services@.len() as int) =~= services@);
    out
}

/// No two services share a name.
pub open spec fn spec_distinct_names(services: Seq<SystemDnsService>) -> bool {
    forall|i: int, j: int|
        0 <= i < j < services.len() ==> (#[trigger] services[i]).name@ != (#[trigger] services[j]).name@
}

/// `after` is `before` once the enable plan has run: every service it took
/// over points at `server`, every other keeps its DNS servers, and names and
/// enabled states are as they were.
pub open spec fn spec_enable_applied(
    before: Seq<SystemDnsService>,
    after: Seq<SystemDnsService>,
    server: Seq<char>,
) -> bool {
    &&& after.len() == before.len()
    &&& forall|k: int|
        #![trigger after[k]]
        0 <= k < before.len() ==> {
            &&& after[k].name@ == before[k].name@
            &&& after[k].enabled == before[k].enabled
            &&& if spec_is_enable_target(before[k], server) {
                after[k].spec_uses_dns_server(server)
            } else {
                spec_strings(after[k].servers@) == spec_strings(before[k].servers@)
            }
        }
}

proof fn lemma_target_names(before: Seq<SystemDnsService>, server: Seq<char>, n: Seq<char>)
    ensures
        spec_names(spec_enable_targets(before, server)).contains(n) <==> exists|m: int|
            0 <= m < before.len() && spec_is_enable_target(#[trigger] before[m], server)
                && before[m].name@ == n,
{
    broadcast use Seq::lemma_filter_pred, Seq::lemma_filter_contains, Seq::lemma_filter_contains_rev;

    let f = spec_enable_targets(before, server);
    if spec_names(f).contains(n) {
        let j = choose|j: int| 0 <= j < spec_names(f).len() && spec_names(f)[j] == n;
        assert(f.contains(f[j]));
        assert(spec_is_enable_target(f[j], server));
        let m = choose|m: int| 0 <= m < before.len() && before[m] == f[j];
        assert(spec_is_enable_target(before[m], server) && before[m].name@ == n);
    }
    if exists|m: int|
        0 <= m < before.len() && spec_is_enable_target(#[trigger] before[m], server)
            && before[m].name@ == n {
        let m = choose|m: int|
            0 <= m < before.len() && spec_is_enable_target(#[trigger] before[m], server)
                && before[m].name@ == n;
        assert(f.contains(before[m]));
        let j = choose|j: int| 0 <= j < f.len() && f[j] == before[m];
        assert(spec_names(f)[j] == n);
    }
}

proof fn lemma_restore_prefix(
    before: Seq<SystemDnsService>,
    after: Seq<SystemDnsService>,
    server: Seq<char>,
    n: int,
)
    requires
        0 <= n <= before.len(),
        spec_distinct_names(before),
        spec_enable_applied(before, after, server),
    ensures
        spec_names(
            spec_restore_targets(
                after.take(n),
                spec_names(spec_enable_targets(before, server)),
                server,
            ),
        ) == spec_names(spec_enable_targets(before.take(n), server)),
    decreases n,
{
    let owned = spec_names(spec_enable_targets(before, server));
    if n == 0 {
        assert(after.take(0) =~= Seq::<SystemDnsService>::empty());
        assert(before.take(0) =~= Seq::<SystemDnsService>::empty());
    } else {
        let p = n - 1;
        lemma_restore_prefix(before, after, server, p);
        assert(after.take(n) =~= after.take(p).push(after[p]));
        assert(before.take(n) =~= before.take(p).push(before[p]));
        lemma_restore_push(after.take(p), after[p], owned, server);
        lemma_enable_push(before.take(p), before[p], server);
        lemma_target_names(before, server, after[p].name@);
        if spec_is_enable_target(before[p], server) {
            assert(spec_is_restore_target(after[p], owned, server));
        } else {
            if spec_is_restore_target(after[p], owned, server) {
                let m = choose|m: int|
                    0 <= m < before.len() && spec_is_enable_target(#[trigger] before[m], server)
                        && before[m].name@ == after[p].name@;
                if m < p {
                    assert(before[m].name@ != before[p].name@);
                } else if m > p {
                    assert(before[p].name@ != before[m].name@);
                }
                assert(before[p].spec_uses_dns_server(server));
            }
        }
    }
}

/// Handing system DNS back undoes enabling it: once the enable plan has
/// run, the ownership record it wrote leads the restore to exactly the
/// services it took over, in the same order (where no two services share a
/// name).
pub proof fn law_disable_restores_what_enable_took(
    before: Seq<SystemDnsService>,
    after: Seq<SystemDnsService>,
    server: Seq<char>,
)
    requires
        spec_distinct_names(before),
        spec_enable_applied(before, after, server),
    ensures
        spec_names(
            spec_restore_targets(after, spec_names(spec_enable_targets(before, server)), server),
        ) == spec_names(spec_enable_targets(before, server)),
{
    lemma_restore_prefix(before, after, server, before.len() as int);
    assert(after.take(after.len() as int) =~= after);
    assert(before.take(before.len() as int) =~= before);
}

/// What handing system DNS back does.
pub enum DisablePlan {
    /// There is no ownership record: nothing is managed.
    NotManaged,
    /// No recorded service points at the listener any more: only the record
    /// is removed.
    AlreadyRestored,
    /// Run this privileged command, then remove the record.
    Restore { command: String },
}

/// The restore commands for the services named.
pub open spec fn spec_restore_commands(names: Seq<Seq<char>>) -> Seq<Seq<char>> {
    names.map_values(|n: Seq<char>| spec_restore_dns_command(n))
}

/// Decides how to return the services that EdgeSteer took over to automatic
/// DNS, from the ownership record (`None` where there is none) and the
/// services found: only the recorded services that still point at the
/// recorded listener are changed, in one privileged command.
pub fn disable_system_dns(guard: &Option<DnsGuard>, services: &Vec<SystemDnsService>) -> (r:
    DisablePlan)
    ensures
        match guard {
            None => r is NotManaged,
            Some(g) => {
                let names = spec_names(
                    spec_restore_targets(services@, spec_strings(g.services@), g.listener@),
                );
                if names.len() == 0 {
                    r is AlreadyRestored
                } else {
                    r matches DisablePlan::Restore { command } && command@ == spec_privileged_batch(
                        spec_restore_commands(names),
                    )
                }
            },
        },
{
    match guard {
        None => DisablePlan::NotManaged,
        Some(g) => {
            let names = managed_dns_targets(g, services);
            if names.len() == 0 {
                return DisablePlan::AlreadyRestored;
            }
            let ghost nv = spec_strings(names@);
            let mut commands: Vec<Vec<char>> = Vec::new();
            let mut i: usize = 0;
            while i < names.len()
                invariant
                    i <= names@.len(),
                    nv == spec_strings(names@),
                    spec_char_lists(commands@) == spec_restore_commands(nv.take(i as int)),
                decreases names@.len() - i,
            {
                let ghost before = spec_char_lists(commands@);
                let mut c = chars_of("/usr/sbin/networksetup -setdnsservers ");
                let q = shell_quote_text(names[i].as_str());
                let qc = chars_of(q.as_str());
                extend_chars(&mut c, qc.as_slice());
                let tail = chars_of(" Empty");
                extend_chars(&mut c, tail.as_slice());
                assert(c@ =~= spec_restore_dns_command(names@[i as int]@));
                commands.push(c);
                assert(spec_char_lists(commands@) =~= before.push(spec_restore_dns_command(nv[i as int])));
                assert(spec_restore_commands(nv.take(i + 1)) =~= spec_restore_commands(nv.take(i as int)).push(spec_restore_dns_command(nv[i as int])));
                i += 1;
            }
            assert(nv.take(nv.len() as int) =~= nv);
            DisablePlan::Restore { command: privileged_batch(&commands) }
        },
    }
}

/// Whether an ownership record is in place (`guard` is the record as read,
/// `None` where it is missing or unreadable).
pub fn system_dns_is_managed(guard: &Option<DnsGuard>) -> (r: bool)
    ensures
        r == guard.is_some(),
{
    guard.is_some()
}

/// The AppleScript that runs a shell command with administrator
/// privileges (macOS asks the user to authorise it).
pub open spec fn spec_privileged_script(shell_command: Seq<char>) -> Seq<char> {
    "do shell script \""@ + spec_escape_applescript(shell_command)
        + "\" with administrator privileges"@
}

pub fn privileged_script(shell_command: &str) -> (r: String)
    ensures
        r@ == spec_privileged_script(shell_command@),
{
    let mut out = chars_of("do shell script \"");
    let escaped = escape_applescript_string(shell_command);
    let e = chars_of(escaped.as_str());
    extend_chars(&mut out, e.as_slice());
    let tail = chars_of("\" with administrator privileges");
    extend_chars(&mut out, tail.as_slice());
    assert(out@ =~= spec_privileged_script(shell_command@));
    string_from_chars(&out)
}

/// What a successful privileged command reports: its output trimmed, or
/// `Completed` where it printed nothing.
pub open spec fn spec_privileged_result(output: Seq<char>) -> Seq<char> {
    if spec_trim(output).len() == 0 {
        "Completed"@
    } else {
        spec_trim(output)
    }
}

pub fn privileged_result(output: &str) -> (r: String)
    ensures
        r@ == spec_privileged_result(output@),
{
    let chars = chars_of(output);
    let t = trim(chars.as_slice());
    if t.len() == 0 {
        String::from_str("Completed")
    } else {
        string_from_chars(&t)
    }
}

/// The launchd labels of the services that earlier releases installed.
pub open spec fn spec_legacy_daemon_labels() -> Seq<Seq<char>> {
    seq!["io.edgesteer.dns"@, "com.fuxuxiang.edgesteer"@]
}

/// The two commands that unload and delete one legacy service.
pub open spec fn spec_legacy_label_commands(label: Seq<char>) -> Seq<Seq<char>> {
    seq![
        "/bin/launchctl bootout system/"@ + label + " >/dev/null 2>&1 || true"@,
        "/bin/rm -f /Library/LaunchDaemons/"@ + label + ".plist"@,
    ]
}

/// The privileged command that removes every legacy service: the commands
/// of each label in turn, joined by `; ` so that one failure stops nothing.
pub open spec fn spec_legacy_cleanup_command() -> Seq<char> {
    let labels = spec_legacy_daemon_labels();
    spec_join(
        spec_legacy_label_commands(labels[0]) + spec_legacy_label_commands(labels[1]),
        "; "@,
    )
}

fn legacy_label_commands(label: &str, out: &mut Vec<Vec<char>>)
    ensures
        spec_char_lists(final(out)@) == spec_char_lists(old(out)@) + spec_legacy_label_commands(
            label@,
        ),
{
    let ghost before = spec_char_lists(out@);
    let mut bootout = chars_of("/bin/launchctl bootout system/");
    let l = chars_of(label);
    extend_chars(&mut bootout, l.as_slice());
    let quiet = chars_of(" >/dev/null 2>&1 || true");
    extend_chars(&mut bootout, quiet.as_slice());
    let mut remove = chars_of("/bin/rm -f /Library/LaunchDaemons/");
    extend_chars(&mut remove, l.as_slice());
    let ext = chars_of(".plist");
    extend_chars(&mut remove, ext.as_slice());
    out.push(bootout);
    out.push(remove);
    assert(spec_char_lists(out@) =~= before + spec_legacy_label_commands(label@));
}

/// What removing the legacy service does.
pub enum LegacyServicePlan {
    /// No legacy service is registered: nothing to do.
    NothingRegistered,
    /// Run this privileged command.
    Remove { command: String },
}

/// Decides whether the legacy command-line service has to be removed
/// (`registered`: its plist exists or launchd has it loaded).
pub fn remove_legacy_service(registered: bool) -> (r: LegacyServicePlan)
    ensures
        !registered ==> r is NothingRegistered,
        registered ==> (r matches LegacyServicePlan::Remove { command } && command@
            == spec_legacy_cleanup_command()),
{
    if !registered {
        return LegacyServicePlan::NothingRegistered;
    }
    let mut commands: Vec<Vec<char>> = Vec::new();
    assert(spec_char_lists(commands@) =~= Seq::<Seq<char>>::empty());
    legacy_label_commands("io.edgesteer.dns", &mut commands);
    legacy_label_commands("com.fuxuxiang.edgesteer", &mut commands);
    assert(spec_char_lists(commands@) =~= spec_legacy_label_commands(spec_legacy_daemon_labels()[0])
        + spec_legacy_label_commands(spec_legacy_daemon_labels()[1]));
    let sep = chars_of("; ");
    let joined = join_chars(&commands, sep.as_slice());
    LegacyServicePlan::Remove { command: string_from_chars(&joined) }
}

/// The user ID in the output of `id -u`: its trimmed text parsed as a `u32`.
pub fn parse_user_id(output: &str) -> (r: Option<u32>)
    ensures
        match spec_parse_unsigned(spec_trim(output@), u32::MAX as nat) {
            Some(v) => r == Some(v as u32),
            None => r is None,
        },
{
    let chars = chars_of(output);
    let t = trim(chars.as_slice());
    match parse_unsigned(t.as_slice(), u32::MAX as u64) {
        Some(v) => Some(v as u32),
        None => None,
    }
}

/// The launchd domain of a user's login session: `gui/` and the user ID.
pub open spec fn spec_gui_domain(uid: u32) -> Seq<char> {
    "gui/"@ + spec_decimal(uid as nat)
}

pub fn gui_domain(uid: u32) -> (r: String)
    ensures
        r@ == spec_gui_domain(uid),
{
    let mut out = chars_of("gui/");
    let d = decimal_chars(uid as u64);
    extend_chars(&mut out, d.as_slice());
    string_from_chars(&out)
}

/// The launchd service target of the login item in a domain.
pub open spec fn spec_autostart_target(domain: Seq<char>) -> Seq<char> {
    domain + "/"@ + AUTOSTART_LABEL@
}

pub fn autostart_target(domain: &str) -> (r: String)
    ensures
        r@ == spec_autostart_target(domain@),
{
    let mut out = chars_of(domain);
    out.push('/');
    let label = chars_of(AUTOSTART_LABEL);
    extend_chars(&mut out, label.as_slice());
    proof {
        reveal_strlit("/");
    }
    assert(out@ =~= spec_autostart_target(domain@));
    string_from_chars(&out)
}

/// Where the ownership record lives in a home directory.
pub open spec fn spec_dns_guard_path(home: Seq<char>) -> Seq<char> {
    spec_join_path(home, "Library/Application Support/EdgeSteer/system-dns.json"@)
}

pub fn dns_guard_path(home: &str) -> (r: String)
    ensures
        r@ == spec_dns_guard_path(home@),
{
    let h = chars_of(home);
    let p = join_path(&h, "Library/Application Support/EdgeSteer/system-dns.json");
    string_from_chars(&p)
}

/// The privileged command that writes the launch agent where the user may
/// not write it: print the contents into the file, give it to the user and
/// make it readable.
pub open spec fn spec_launch_agent_write_command(
    path: Seq<char>,
    contents: Seq<char>,
    uid: u32,
    gid: u32,
) -> Seq<char> {
    let target = spec_shell_quote(path);
    "/usr/bin/printf %s "@ + spec_shell_quote(contents) + " > "@ + target + "; /usr/sbin/chown "@
        + spec_decimal(uid as nat) + ":"@ + spec_decimal(gid as nat) + " "@ + target
        + "; /bin/chmod 644 "@ + target
}

pub fn launch_agent_write_command(path: &str, contents: &str, uid: u32, gid: u32) -> (r: String)
    ensures
        r@ == spec_launch_agent_write_command(path@, contents@, uid, gid),
{
    let target = shell_quote_text(path);
    let t = chars_of(target.as_str());
    let mut out = chars_of("/usr/bin/printf %s ");
    let quoted = shell_quote_text(contents);
    let q = chars_of(quoted.as_str());
    extend_chars(&mut out, q.as_slice());
    let redirect = chars_of(" > ");
    extend_chars(&mut out, redirect.as_slice());
    extend_chars(&mut out, t.as_slice());
    let chown = chars_of("; /usr/sbin/chown ");
    extend_chars(&mut out, chown.as_slice());
    let u = decimal_chars(uid as u64);
    extend_chars(&mut out, u.as_slice());
    out.push(':');
    let g = decimal_chars(gid as u64);
    extend_chars(&mut out, g.as_slice());
    out.push(' ');
    extend_chars(&mut out, t.as_slice());
    let chmod = chars_of("; /bin/chmod 644 ");
    extend_chars(&mut out, chmod.as_slice());
    extend_chars(&mut out, t.as_slice());
    proof {
        reveal_strlit(":");
        reveal_strlit(" ");
    }
    assert(out@ =~= spec_launch_agent_write_command(path@, contents@, uid, gid));
    string_from_chars(&out)
}

/// The privileged command that deletes the launch agent.
pub open spec fn spec_launch_agent_remove_command(path: Seq<char>) -> Seq<char> {
    "/bin/rm -f "@ + spec_shell_quote(path)
}

pub fn launch_agent_remove_command(path: &str) -> (r: String)
    ensures
        r@ == spec_launch_agent_remove_command(path@),
{
    let mut out = chars_of("/bin/rm -f ");
    let quoted = shell_quote_text(path);
    let q = chars_of(quoted.as_str());
    extend_chars(&mut out, q.as_slice());
    string_from_chars(&out)
}

/// The labels a legacy command-line service was registered under, in the
/// order they are looked for.
pub fn legacy_daemon_labels() -> (r: Vec<String>)
    ensures
        r@.map_values(|s: String| s@) == spec_legacy_daemon_labels(),
{
    let mut labels: Vec<String> = Vec::new();
    labels.push("io.edgesteer.dns".to_owned());
    labels.push("com.fuxuxiang.edgesteer".to_owned());
    assert(labels@.map_values(|s: String| s@) =~= spec_legacy_daemon_labels());
    labels
}

/// How the application starts at login: its own launch agent first, else
/// a legacy service found under one of the legacy labels, else nothing.
pub fn startup_service(agent_registered: bool, legacy_label: Option<String>) -> (r: StartupService)
    ensures
        agent_registered ==> (r matches StartupService::Registered { label } && label@
            == AUTOSTART_LABEL@),
        !agent_registered ==> match legacy_label {
            Some(l) => r matches StartupService::LegacyDaemon { label } && label@ == l@,
            None => r is NotRegistered,
        },
{
    if agent_registered {
        return StartupService::Registered { label: AUTOSTART_LABEL.to_owned() };
    }
    match legacy_label {
        Some(label) => StartupService::LegacyDaemon { label },
        None => StartupService::NotRegistered,
    }
}

} // verus!
