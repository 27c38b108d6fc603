use vstd::prelude::*;

use crate::agent::{AgentCommand, AgentResponse, AgentStatus};
use crate::text::{chars_of, extend_chars, string_from_chars};
use crate::ui::{Language, RegistrationAction};

verus! {

broadcast use vstd::string::group_string_axioms;

/// A confirmation the window is showing.
#[derive(Debug, Clone, Copy, PartialEq, Eq, Structural)]
pub enum PendingAction {
    Registration(RegistrationAction),
    Quit,
}

/// What the window is doing with the agent: the confirmation it shows, and
/// whether an action or the quit is under way.
#[derive(Debug, Clone, Copy, PartialEq, Eq, Structural)]
pub struct ActionState {
    pub pending: Option<PendingAction>,
    pub registration_in_progress: bool,
    pub quit_in_progress: bool,
}

impl ActionState {
    /// Nothing shown, nothing under way.
    pub fn new() -> (r: ActionState)
        ensures
            r == (ActionState { pending: None, registration_in_progress: false, quit_in_progress: false }),
    {
        ActionState { pending: None, registration_in_progress: false, quit_in_progress: false }
    }
}

/// The agent's answer to a request, or why it could not be asked.
pub enum AgentReply {
    Answered(AgentResponse),
    Failed(String),
}

/// What happens to the window.
pub enum WindowEvent {
    /// A button asks for an action; it is confirmed first.
    RequestAction(RegistrationAction),
    Confirm,
    Cancel,
    ActionFinished(AgentReply),
    CloseRequested,
    QuitFinished(AgentReply),
}

/// What the window does after an event.
pub struct WindowStep {
    pub state: ActionState,
    /// A request to send to the agent.
    pub send: Option<AgentCommand>,
    /// A notice to show.
    pub notice: Option<String>,
    /// The agent's status, where a reply carried one.
    pub status: Option<AgentStatus>,
    /// Check the listener and the registration again.
    pub reinspect: bool,
    pub close_window: bool,
}

impl RegistrationAction {
    /// The action changes the engine or the system and needs a
    /// configuration that passes the check.
    pub open spec fn spec_requires_valid_configuration(self) -> bool {
        self is StartEngine || self is EnableAutoStart || self is Restart || self is EnableSystemDns
    }

    pub open spec fn spec_command(self) -> AgentCommand {
        match self {
            RegistrationAction::StartEngine => AgentCommand::StartEngine,
            RegistrationAction::StopEngine => AgentCommand::StopEngine,
            RegistrationAction::EnableAutoStart => AgentCommand::EnableAutoStart,
            RegistrationAction::DisableAutoStart => AgentCommand::DisableAutoStart,
            RegistrationAction::RemoveLegacyService => AgentCommand::RemoveLegacyService,
            RegistrationAction::Restart => AgentCommand::RestartEngine,
            RegistrationAction::EnableSystemDns => AgentCommand::EnableSystemDns,
            RegistrationAction::DisableSystemDns => AgentCommand::DisableSystemDns,
        }
    }

    pub fn requires_valid_configuration(self) -> (r: bool)
        ensures
            r == self.spec_requires_valid_configuration(),
    {
        match self {
            RegistrationAction::StartEngine | RegistrationAction::EnableAutoStart
            | RegistrationAction::Restart | RegistrationAction::EnableSystemDns => true,
            _ => false,
        }
    }

    /// The request the action sends to the agent.
    pub fn command(self) -> (r: AgentCommand)
        ensures
            r == self.spec_command(),
    {
        match self {
            RegistrationAction::StartEngine => AgentCommand::StartEngine,
            RegistrationAction::StopEngine => AgentCommand::StopEngine,
            RegistrationAction::EnableAutoStart => AgentCommand::EnableAutoStart,
            RegistrationAction::DisableAutoStart => AgentCommand::DisableAutoStart,
            RegistrationAction::RemoveLegacyService => AgentCommand::RemoveLegacyService,
            RegistrationAction::Restart => AgentCommand::RestartEngine,
            RegistrationAction::EnableSystemDns => AgentCommand::EnableSystemDns,
            RegistrationAction::DisableSystemDns => AgentCommand::DisableSystemDns,
        }
    }
}

/// The notice shown while an action runs.
pub open spec fn spec_in_progress(action: RegistrationAction, language: Language) -> Seq<char> {
    let label = language.spec_text(action.spec_title());
    match language {
        Language::Chinese => label + "正在执行..."@,
        Language::English => label + " in progress..."@,
    }
}

fn in_progress_notice(action: RegistrationAction, language: Language) -> (r: String)
    ensures
        r@ == spec_in_progress(action, language),
{
    let mut out = chars_of(action.label(language));
    let tail = match language {
        Language::Chinese => chars_of("正在执行..."),
        Language::English => chars_of(" in progress..."),
    };
    extend_chars(&mut out, tail.as_slice());
    string_from_chars(&out)
}

/// Why an action that changes the engine or the system is refused.
pub open spec fn spec_fix_first() -> Seq<char> {
    "Fix the configuration validation errors before changing the DNS engine or system DNS."@
}

/// What the window shows while it restores DNS to quit.
pub open spec fn spec_quitting() -> Seq<char> {
    "Restoring automatic DNS before closing EdgeSteer..."@
}

/// Why the window stays open after a quit that could not be carried out.
pub open spec fn spec_stays_open(error: Seq<char>) -> Seq<char> {
    "EdgeSteer remains open because automatic DNS could not be restored: "@ + error
}

/// The reply's text: the agent's message, or why it could not be asked.
pub open spec fn spec_reply_text(reply: AgentReply) -> Seq<char> {
    match reply {
        AgentReply::Answered(response) => response.message@,
        AgentReply::Failed(error) => error@,
    }
}

/// The reply carries a successful response.
pub open spec fn spec_reply_ok(reply: AgentReply) -> bool {
    reply matches AgentReply::Answered(response) && response.ok
}

pub open spec fn spec_reply_status(reply: AgentReply) -> Option<AgentStatus> {
    match reply {
        AgentReply::Answered(response) => Some(response.status),
        AgentReply::Failed(_) => None,
    }
}

pub open spec fn spec_notice(notice: Option<String>) -> Option<Seq<char>> {
    match notice {
        Some(n) => Some(n@),
        None => None,
    }
}

/// The window's answer to an event about its actions. An action is
/// confirmed before it runs, at most one request to the agent is under way
/// at a time, an action that changes the engine or the system needs a
/// configuration that passes the check, and the window closes on a quit
/// only once the agent has restored DNS.
pub fn window_step(
    state: ActionState,
    event: WindowEvent,
    document_valid: bool,
    close_to_menu_bar: bool,
    language: Language,
) -> (r: WindowStep)
    ensures
        match event {
            WindowEvent::RequestAction(action) => {
                &&& r.state == (if state.registration_in_progress {
                    state
                } else {
                    ActionState { pending: Some(PendingAction::Registration(action)), ..state }
                })
                &&& r.send is None && r.notice is None && r.status is None
                &&& !r.reinspect && !r.close_window
            },
            WindowEvent::Confirm => if state.registration_in_progress || state.quit_in_progress
                || state.pending is None {
                &&& r.state == state
                &&& r.send is None && r.notice is None && r.status is None
                &&& !r.reinspect && !r.close_window
            } else {
                &&& r.status is None && !r.reinspect && !r.close_window
                &&& match state.pending {
                    Some(PendingAction::Registration(action)) => if action.spec_requires_valid_configuration()
                        && !document_valid {
                        &&& r.state == ActionState { pending: None, ..state }
                        &&& r.send is None
                        &&& spec_notice(r.notice) == Some(spec_fix_first())
                    } else {
                        &&& r.state == ActionState {
                            pending: None,
                            registration_in_progress: true,
                            ..state
                        }
                        &&& r.send == Some(action.spec_command())
                        &&& spec_notice(r.notice) == Some(spec_in_progress(action, language))
                    },
                    _ => {
                        &&& r.state == ActionState { pending: None, quit_in_progress: true, ..state }
                        &&& r.send == Some(AgentCommand::Quit)
                        &&& spec_notice(r.notice) == Some(spec_quitting())
                    },
                }
            },
            WindowEvent::Cancel => {
                &&& r.state == ActionState { pending: None, ..state }
                &&& r.send is None && r.notice is None && r.status is None
                &&& !r.reinspect && !r.close_window
            },
            WindowEvent::ActionFinished(reply) => {
                &&& r.state == ActionState { registration_in_progress: false, ..state }
                &&& r.send is None && !r.close_window && r.reinspect
                &&& spec_notice(r.notice) == Some(spec_reply_text(reply))
                &&& r.status == spec_reply_status(reply)
            },
            WindowEvent::CloseRequested => {
                &&& r.state == (if close_to_menu_bar || state.quit_in_progress {
                    state
                } else {
                    ActionState { pending: Some(PendingAction::Quit), ..state }
                })
                &&& r.close_window == close_to_menu_bar
                &&& r.send is None && r.notice is None && r.status is None && !r.reinspect
            },
            WindowEvent::QuitFinished(reply) => {
                &&& r.send is None && !r.reinspect
                &&& r.status == spec_reply_status(reply)
                &&& r.close_window == spec_reply_ok(reply)
                &&& r.state == (if spec_reply_ok(reply) {
                    state
                } else {
                    ActionState { quit_in_progress: false, ..state }
                })
                &&& spec_notice(r.notice) == match reply {
                    AgentReply::Answered(response) => if response.ok {
                        None
                    } else {
                        Some(response.message@)
                    },
                    AgentReply::Failed(error) => Some(spec_stays_open(error@)),
                }
            },
        },
        // One request at a time: a request goes out only when none is under
        // way, and the window then waits for its answer.
        r.send is Some ==> !state.registration_in_progress && !state.quit_in_progress && (
        r.state.registration_in_progress || r.state.quit_in_progress),
        // Nothing that changes the engine or the system goes out for a
        // configuration that fails the check.
        r.send matches Some(c) ==> document_valid || !(c is StartEngine || c is EnableAutoStart
            || c is RestartEngine || c is EnableSystemDns),
{
    let idle = WindowStep {
        state,
        send: None,
        notice: None,
        status: None,
        reinspect: false,
        close_window: false,
    };
    match event {
        WindowEvent::RequestAction(action) => {
            if state.registration_in_progress {
                idle
            } else {
                WindowStep {
                    state: ActionState { pending: Some(PendingAction::Registration(action)), ..state },
                    ..idle
                }
            }
        },
        WindowEvent::Confirm => {
            if state.registration_in_progress || state.quit_in_progress {
                return idle;
            }
            match state.pending {
                None => idle,
                Some(PendingAction::Registration(action)) => {
                    let cleared = ActionState { pending: None, ..state };
                    if action.requires_valid_configuration() && !document_valid {
                        WindowStep {
                            state: cleared,
                            notice: Some(
                                "Fix the configuration validation errors before changing the DNS engine or system DNS.".to_owned(),
                            ),
                            ..idle
                        }
                    } else {
                        WindowStep {
                            state: ActionState { registration_in_progress: true, ..cleared },
                            send: Some(action.command()),
                            notice: Some(in_progress_notice(action, language)),
                            ..idle
                        }
                    }
                },
                Some(PendingAction::Quit) => WindowStep {
                    state: ActionState { pending: None, quit_in_progress: true, ..state },
                    send: Some(AgentCommand::Quit),
                    notice: Some("Restoring automatic DNS before closing EdgeSteer...".to_owned()),
                    ..idle
                },
            }
        },
        WindowEvent::Cancel => WindowStep { state: ActionState { pending: None, ..state }, ..idle },
        WindowEvent::ActionFinished(reply) => {
            let next = ActionState { registration_in_progress: false, ..state };
            match reply {
                AgentReply::Answered(response) => WindowStep {
                    state: next,
                    notice: Some(response.message),
                    status: Some(response.status),
                    reinspect: true,
                    ..idle
                },
                AgentReply::Failed(error) => WindowStep {
                    state: next,
                    notice: Some(error),
                    reinspect: true,
                    ..idle
                },
            }
        },
        WindowEvent::CloseRequested => {
            if close_to_menu_bar {
                WindowStep { close_window: true, ..idle }
            } else if !state.quit_in_progress {
                WindowStep { state: ActionState { pending: Some(PendingAction::Quit), ..state }, ..idle }
            } else {
                idle
            }
        },
        WindowEvent::QuitFinished(reply) => match reply {
            AgentReply::Answered(response) => {
                if response.ok {
                    WindowStep { status: Some(response.status), close_window: true, ..idle }
                } else {
                    WindowStep {
                        state: ActionState { quit_in_progress: false, ..state },
                        notice: Some(response.message),
                        status: Some(response.status),
                        ..idle
                    }
                }
            },
            AgentReply::Failed(error) => {
                let mut out = chars_of(
                    "EdgeSteer remains open because automatic DNS could not be restored: ",
                );
                let detail = chars_of(error.as_str());
                extend_chars(&mut out, detail.as_slice());
                WindowStep {
                    state: ActionState { quit_in_progress: false, ..state },
                    notice: Some(string_from_chars(&out)),
                    ..idle
                }
            },
        },
    }
}

} // verus!
