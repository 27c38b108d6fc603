use vstd::prelude::*;

use crate::integration::{join_path, spec_join_path};
use crate::text::{chars_of, parse_unsigned, spec_parse_unsigned, str_equal, string_from_chars};

verus! {

broadcast use vstd::string::group_string_axioms;

/// The name of the configuration file in the user's home directory.
pub const DEFAULT_CONFIG_FILE_NAME: &'static str = "edgesteer.json";

/// The command line of the engine binary.
pub struct Args {
    /// Validate the configuration and exit.
    pub check_config: bool,
}

/// The first of the home directories given (`HOME`, then `USERPROFILE`)
/// that is set and not empty.
pub open spec fn spec_home(home: Option<Seq<char>>, user_profile: Option<Seq<char>>) -> Option<
    Seq<char>,
> {
    match home {
        Some(h) if h.len() > 0 => Some(h),
        _ => match user_profile {
            Some(p) if p.len() > 0 => Some(p),
            _ => None,
        },
    }
}

/// The one configuration file of the user: `edgesteer.json` in the home
/// directory, or in the working directory where there is no home.
pub open spec fn spec_default_config_path(
    home: Option<Seq<char>>,
    user_profile: Option<Seq<char>>,
) -> Seq<char> {
    match spec_home(home, user_profile) {
        Some(h) => spec_join_path(h, DEFAULT_CONFIG_FILE_NAME@),
        None => DEFAULT_CONFIG_FILE_NAME@,
    }
}

/// The characters of an optional string slice.
pub open spec fn spec_opt_chars(o: Option<&str>) -> Option<Seq<char>> {
    match o {
        Some(s) => Some(s@),
        None => None,
    }
}

pub fn default_config_path(home: Option<&str>, user_profile: Option<&str>) -> (r: String)
    ensures
        r@ == spec_default_config_path(spec_opt_chars(home), spec_opt_chars(user_profile)),
{
    let chosen: Option<&str> = match home {
        Some(h) if h.unicode_len() > 0 => Some(h),
        _ => match user_profile {
            Some(p) if p.unicode_len() > 0 => Some(p),
            _ => None,
        },
    };
    match chosen {
        Some(h) => {
            let base = chars_of(h);
            let path = join_path(&base, DEFAULT_CONFIG_FILE_NAME);
            string_from_chars(&path)
        },
        None => String::from_str(DEFAULT_CONFIG_FILE_NAME),
    }
}

/// The value after the first occurrence of `name` that has one.
pub open spec fn spec_argument_value(arguments: Seq<Seq<char>>, name: Seq<char>, from: int) -> Option<
    Seq<char>,
>
    decreases arguments.len() - from,
{
    if from < 0 || from + 1 >= arguments.len() {
        None
    } else if arguments[from] == name {
        Some(arguments[from + 1])
    } else {
        spec_argument_value(arguments, name, from + 1)
    }
}

/// The characters of each argument.
pub open spec fn spec_arguments(arguments: Seq<String>) -> Seq<Seq<char>> {
    arguments.map_values(|a: String| a@)
}

/// The value that follows the option `name` on the command line.
pub fn argument_value(arguments: &Vec<String>, name: &str) -> (r: Option<String>)
    ensures
        match spec_argument_value(spec_arguments(arguments@), name@, 0) {
            Some(v) => r matches Some(s) && s@ == v,
            None => r is None,
        },
{
    let ghost args = spec_arguments(arguments@);
    let mut i: usize = 0;
    while i < arguments.len() && i + 1 < arguments.len()
        invariant
            i <= arguments@.len(),
            args == spec_arguments(arguments@),
            spec_argument_value(args, name@, 0) == spec_argument_value(args, name@, i as int),
        decreases arguments@.len() - i,
    {
        assert(args[i as int] == arguments@[i as int]@);
        if str_equal(arguments[i].as_str(), name) {
            assert(args[i + 1] == arguments@[i + 1]@);
            return Some(arguments[i + 1].clone());
        }
        i += 1;
    }
    None
}

/// The argument occurs on the command line.
pub open spec fn spec_has_argument(arguments: Seq<Seq<char>>, flag: Seq<char>) -> bool {
    arguments.contains(flag)
}

fn has_argument(arguments: &Vec<String>, flag: &str) -> (r: bool)
    ensures
        r == spec_has_argument(spec_arguments(arguments@), flag@),
{
    let mut i: usize = 0;
    while i < arguments.len()
        invariant
            i <= arguments@.len(),
            forall|k: int| 0 <= k < i ==> arguments@[k]@ != flag@,
        decreases arguments@.len() - i,
    {
        if str_equal(arguments[i].as_str(), flag) {
            assert(spec_arguments(arguments@)[i as int] == flag@);
            return true;
        }
        i += 1;
    }
    assert forall|k: int| 0 <= k < spec_arguments(arguments@).len() implies spec_arguments(
        arguments@,
    )[k] != flag@ by {
        assert(spec_arguments(arguments@)[k] == arguments@[k]@);
    }
    false
}

/// What the application binary runs as.
pub enum LaunchMode {
    /// The DNS engine alone, stopped by a stop file or by the agent's exit.
    Engine { stop_file: Option<String>, parent_pid: Option<u32> },
    /// The window, served by a running agent.
    Ui,
    /// The menu-bar agent, opening the window unless asked not to.
    Agent { open_ui: bool },
}

/// `--engine` runs the engine (with `--stop-file` and `--parent-pid`, the
/// latter only where it is a valid `u32`); else `--ui` opens the window;
/// else the agent runs, and opens the window unless `--agent` is given.
pub fn launch_mode(arguments: &Vec<String>) -> (r: LaunchMode)
    ensures
        ({
            let args = spec_arguments(arguments@);
            if spec_has_argument(args, "--engine"@) {
                &&& r matches LaunchMode::Engine { stop_file, parent_pid }
                &&& match spec_argument_value(args, "--stop-file"@, 0) {
                    Some(v) => stop_file matches Some(s) && s@ == v,
                    None => stop_file is None,
                }
                &&& parent_pid == match spec_argument_value(args, "--parent-pid"@, 0) {
                    Some(v) => match spec_parse_unsigned(v, u32::MAX as nat) {
                        Some(n) => Some(n as u32),
                        None => None,
                    },
                    None => None,
                }
            } else if spec_has_argument(args, "--ui"@) {
                r is Ui
            } else {
                r == LaunchMode::Agent { open_ui: !spec_has_argument(args, "--agent"@) }
            }
        }),
{
    if has_argument(arguments, "--engine") {
        let stop_file = argument_value(arguments, "--stop-file");
        let parent_pid = match argument_value(arguments, "--parent-pid") {
            Some(v) => {
                let c = chars_of(v.as_str());
                match parse_unsigned(c.as_slice(), u32::MAX as u64) {
                    Some(n) => Some(n as u32),
                    None => None,
                }
            },
            None => None,
        };
        return LaunchMode::Engine { stop_file, parent_pid };
    }
    if has_argument(arguments, "--ui") {
        return LaunchMode::Ui;
    }
    LaunchMode::Agent { open_ui: !has_argument(arguments, "--agent") }
}

/// The operating system whose conventions the per-user paths follow.
#[derive(Debug, Clone, Copy, PartialEq, Eq, Structural)]
pub enum Platform {
    MacOs,
    Windows,
    /// Linux and the other Unix systems (the XDG layout).
    Other,
}

/// A value that is set and not empty.
pub open spec fn spec_set(value: Option<Seq<char>>) -> Option<Seq<char>> {
    match value {
        Some(v) if v.len() > 0 => Some(v),
        _ => None,
    }
}

/// The per-user directory of EdgeSteer's own state, where the environment
/// gives one: under Application Support on macOS, under `APPDATA` (else the
/// roaming profile of the home directory) on Windows, under
/// `XDG_CONFIG_HOME` (else `~/.config`) elsewhere.
pub open spec fn spec_state_base(
    platform: Platform,
    home: Option<Seq<char>>,
    user_profile: Option<Seq<char>>,
    app_data: Option<Seq<char>>,
    xdg_config_home: Option<Seq<char>>,
) -> Option<Seq<char>> {
    let h = spec_home(home, user_profile);
    match platform {
        Platform::MacOs => match h {
            Some(h) => Some(spec_join_path(h, "Library/Application Support/EdgeSteer"@)),
            None => None,
        },
        Platform::Windows => match spec_set(app_data) {
            Some(a) => Some(spec_join_path(a, "EdgeSteer"@)),
            None => match h {
                Some(h) => Some(spec_join_path(h, "AppData/Roaming/EdgeSteer"@)),
                None => None,
            },
        },
        Platform::Other => match spec_set(xdg_config_home) {
            Some(x) => Some(spec_join_path(x, "edgesteer"@)),
            None => match h {
                Some(h) => Some(spec_join_path(h, ".config/edgesteer"@)),
                None => None,
            },
        },
    }
}

fn set_value(value: Option<&str>) -> (r: Option<&str>)
    ensures
        spec_opt_chars(r) == spec_set(spec_opt_chars(value)),
{
    match value {
        Some(v) if v.unicode_len() > 0 => Some(v),
        _ => None,
    }
}

fn joined(base: &str, component: &str) -> (r: String)
    ensures
        r@ == spec_join_path(base@, component@),
{
    let b = chars_of(base);
    string_from_chars(&join_path(&b, component))
}

fn state_base(
    platform: Platform,
    home: Option<&str>,
    user_profile: Option<&str>,
    app_data: Option<&str>,
    xdg_config_home: Option<&str>,
) -> (r: Option<String>)
    ensures
        match r {
            Some(s) => spec_state_base(
                platform,
                spec_opt_chars(home),
                spec_opt_chars(user_profile),
                spec_opt_chars(app_data),
                spec_opt_chars(xdg_config_home),
            ) == Some(s@),
            None => spec_state_base(
                platform,
                spec_opt_chars(home),
                spec_opt_chars(user_profile),
                spec_opt_chars(app_data),
                spec_opt_chars(xdg_config_home),
            ) is None,
        },
{
    let h = match set_value(home) {
        Some(h) => Some(h),
        None => set_value(user_profile),
    };
    match platform {
        Platform::MacOs => match h {
            Some(h) => Some(joined(h, "Library/Application Support/EdgeSteer")),
            None => None,
        },
        Platform::Windows => match set_value(app_data) {
            Some(a) => Some(joined(a, "EdgeSteer")),
            None => match h {
                Some(h) => Some(joined(h, "AppData/Roaming/EdgeSteer")),
                None => None,
            },
        },
        Platform::Other => match set_value(xdg_config_home) {
            Some(x) => Some(joined(x, "edgesteer")),
            None => match h {
                Some(h) => Some(joined(h, ".config/edgesteer")),
                None => None,
            },
        },
    }
}

/// The directory of the agent's lock and control record; `edgesteer` in
/// the working directory where the environment names no home.
pub fn state_directory(
    platform: Platform,
    home: Option<&str>,
    user_profile: Option<&str>,
    app_data: Option<&str>,
    xdg_config_home: Option<&str>,
) -> (r: String)
    ensures
        r@ == match spec_state_base(
            platform,
            spec_opt_chars(home),
            spec_opt_chars(user_profile),
            spec_opt_chars(app_data),
            spec_opt_chars(xdg_config_home),
        ) {
            Some(d) => d,
            None => "edgesteer"@,
        },
{
    match state_base(platform, home, user_profile, app_data, xdg_config_home) {
        Some(d) => d,
        None => "edgesteer".to_owned(),
    }
}

/// The window's preferences file: `ui.json` in the state directory, or
/// `edgesteer-ui.json` in the working directory where the environment
/// names no home.
pub fn ui_preferences_path(
    platform: Platform,
    home: Option<&str>,
    user_profile: Option<&str>,
    app_data: Option<&str>,
    xdg_config_home: Option<&str>,
) -> (r: String)
    ensures
        r@ == match spec_state_base(
            platform,
            spec_opt_chars(home),
            spec_opt_chars(user_profile),
            spec_opt_chars(app_data),
            spec_opt_chars(xdg_config_home),
        ) {
            Some(d) => spec_join_path(d, "ui.json"@),
            None => "edgesteer-ui.json"@,
        },
{
    match state_base(platform, home, user_profile, app_data, xdg_config_home) {
        Some(d) => joined(d.as_str(), "ui.json"),
        None => "edgesteer-ui.json".to_owned(),
    }
}

} // verus!
