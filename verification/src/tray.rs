use vstd::prelude::*;

use crate::text::{chars_of, extend_chars, str_equal, string_from_chars};

verus! {

broadcast use vstd::string::group_string_axioms;

/// Menu item identifier of "open the window".
pub const OPEN_ID: &'static str = "edgesteer-open";

/// Menu item identifier of the engine toggle.
pub const ENGINE_ID: &'static str = "edgesteer-engine";

/// Menu item identifier of the system DNS toggle.
pub const SYSTEM_DNS_ID: &'static str = "edgesteer-system-dns";

/// Menu item identifier of the open-at-login toggle.
pub const AUTOSTART_ID: &'static str = "edgesteer-autostart";

/// Menu item identifier of "quit".
pub const QUIT_ID: &'static str = "edgesteer-quit";

/// What the user chose in the menu bar.
#[derive(Debug, Clone, Copy, PartialEq, Eq, Structural)]
pub enum TrayEvent {
    Open,
    ToggleEngine,
    ToggleSystemDns,
    ToggleAutostart,
    Quit,
}

/// The menu event of a menu item identifier (none for an unknown item).
pub open spec fn spec_tray_event_for_id(id: Seq<char>) -> Option<TrayEvent> {
    if id == OPEN_ID@ {
        Some(TrayEvent::Open)
    } else if id == ENGINE_ID@ {
        Some(TrayEvent::ToggleEngine)
    } else if id == SYSTEM_DNS_ID@ {
        Some(TrayEvent::ToggleSystemDns)
    } else if id == AUTOSTART_ID@ {
        Some(TrayEvent::ToggleAutostart)
    } else if id == QUIT_ID@ {
        Some(TrayEvent::Quit)
    } else {
        None
    }
}

pub fn tray_event_for_id(id: &str) -> (r: Option<TrayEvent>)
    ensures
        r == spec_tray_event_for_id(id@),
{
    if str_equal(id, OPEN_ID) {
        Some(TrayEvent::Open)
    } else if str_equal(id, ENGINE_ID) {
        Some(TrayEvent::ToggleEngine)
    } else if str_equal(id, SYSTEM_DNS_ID) {
        Some(TrayEvent::ToggleSystemDns)
    } else if str_equal(id, AUTOSTART_ID) {
        Some(TrayEvent::ToggleAutostart)
    } else if str_equal(id, QUIT_ID) {
        Some(TrayEvent::Quit)
    } else {
        None
    }
}

/// The texts of the menu, in one language.
pub struct Labels {
    pub open: String,
    pub dns: String,
    pub running: String,
    pub stopped: String,
    pub start_engine: String,
    pub stop_engine: String,
    pub system_dns: String,
    pub open_at_login: String,
    pub quit: String,
}

/// Everything the menu shows.
pub struct Presentation {
    pub labels: Labels,
    pub listener: String,
    pub engine_running: bool,
    pub engine_action_enabled: bool,
    pub system_dns_enabled: bool,
    pub system_dns_action_enabled: bool,
    pub autostart_enabled: bool,
    pub autostart_action_enabled: bool,
}

impl Presentation {
    /// The status line: `DNS: <running or stopped> - <listener>`.
    pub open spec fn spec_status_text(&self) -> Seq<char> {
        self.labels.dns@ + ": "@ + (if self.engine_running {
            self.labels.running@
        } else {
            self.labels.stopped@
        }) + " - "@ + self.listener@
    }

    pub fn status_text(&self) -> (r: String)
        ensures
            r@ == self.spec_status_text(),
    {
        let mut out = chars_of(self.labels.dns.as_str());
        let colon = chars_of(": ");
        extend_chars(&mut out, colon.as_slice());
        let state = if self.engine_running {
            chars_of(self.labels.running.as_str())
        } else {
            chars_of(self.labels.stopped.as_str())
        };
        extend_chars(&mut out, state.as_slice());
        let dash = chars_of(" - ");
        extend_chars(&mut out, dash.as_slice());
        let listener = chars_of(self.listener.as_str());
        extend_chars(&mut out, listener.as_slice());
        assert(out@ =~= self.spec_status_text());
        string_from_chars(&out)
    }

    /// The engine item offers the opposite of the engine's state.
    pub fn engine_text(&self) -> (r: String)
        ensures
            r@ == (if self.engine_running {
                self.labels.stop_engine@
            } else {
                self.labels.start_engine@
            }),
    {
        if self.engine_running {
            self.labels.stop_engine.clone()
        } else {
            self.labels.start_engine.clone()
        }
    }
}

} // verus!
