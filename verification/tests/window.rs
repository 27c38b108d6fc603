use edgesteer::agent::{AgentCommand, AgentResponse, AgentStatus};
use edgesteer::ui::{Language, RegistrationAction};
use edgesteer::window::{window_step, ActionState, AgentReply, PendingAction, WindowEvent};

fn response(ok: bool, message: &str) -> AgentResponse {
    AgentResponse {
        ok,
        message: message.to_owned(),
        status: AgentStatus::unavailable("not checked".to_owned()),
    }
}

#[test]
fn an_action_runs_only_after_confirmation_and_one_at_a_time() {
    let idle = ActionState::new();
    let asked = window_step(
        idle,
        WindowEvent::RequestAction(RegistrationAction::StartEngine),
        true,
        true,
        Language::English,
    );
    assert_eq!(asked.send, None);
    assert_eq!(
        asked.state.pending,
        Some(PendingAction::Registration(RegistrationAction::StartEngine))
    );

    let confirmed = window_step(asked.state, WindowEvent::Confirm, true, true, Language::English);
    assert_eq!(confirmed.send, Some(AgentCommand::StartEngine));
    assert_eq!(confirmed.notice.as_deref(), Some("Start DNS engine in progress..."));
    assert!(confirmed.state.registration_in_progress);
    assert_eq!(confirmed.state.pending, None);

    let second = window_step(
        confirmed.state,
        WindowEvent::RequestAction(RegistrationAction::StopEngine),
        true,
        true,
        Language::English,
    );
    assert_eq!(second.state, confirmed.state);
    let again = window_step(second.state, WindowEvent::Confirm, true, true, Language::English);
    assert_eq!(again.send, None);

    let finished = window_step(
        again.state,
        WindowEvent::ActionFinished(AgentReply::Answered(response(true, "DNS engine starting"))),
        true,
        true,
        Language::English,
    );
    assert!(!finished.state.registration_in_progress);
    assert_eq!(finished.notice.as_deref(), Some("DNS engine starting"));
    assert!(finished.reinspect);
    assert!(finished.status.is_some());
}

#[test]
fn an_invalid_configuration_refuses_engine_changes_but_not_stops() {
    let asked = window_step(
        ActionState::new(),
        WindowEvent::RequestAction(RegistrationAction::EnableSystemDns),
        false,
        true,
        Language::English,
    );
    let refused = window_step(asked.state, WindowEvent::Confirm, false, true, Language::English);
    assert_eq!(refused.send, None);
    assert_eq!(
        refused.notice.as_deref(),
        Some("Fix the configuration validation errors before changing the DNS engine or system DNS.")
    );
    assert_eq!(refused.state, ActionState::new());

    let asked = window_step(
        ActionState::new(),
        WindowEvent::RequestAction(RegistrationAction::StopEngine),
        false,
        true,
        Language::Chinese,
    );
    let stopping = window_step(asked.state, WindowEvent::Confirm, false, true, Language::Chinese);
    assert_eq!(stopping.send, Some(AgentCommand::StopEngine));
    assert!(stopping.notice.as_deref().is_some_and(|n| n.ends_with("正在执行...")));
}

#[test]
fn closing_goes_to_the_menu_bar_or_asks_to_quit() {
    let hidden = window_step(ActionState::new(), WindowEvent::CloseRequested, true, true, Language::English);
    assert!(hidden.close_window);
    assert_eq!(hidden.state, ActionState::new());

    let asked = window_step(ActionState::new(), WindowEvent::CloseRequested, true, false, Language::English);
    assert!(!asked.close_window);
    assert_eq!(asked.state.pending, Some(PendingAction::Quit));

    let cancelled = window_step(asked.state, WindowEvent::Cancel, true, false, Language::English);
    assert_eq!(cancelled.state, ActionState::new());
}

#[test]
fn the_window_closes_on_quit_only_after_dns_is_restored() {
    let asked = window_step(ActionState::new(), WindowEvent::CloseRequested, true, false, Language::English);
    let quitting = window_step(asked.state, WindowEvent::Confirm, true, false, Language::English);
    assert_eq!(quitting.send, Some(AgentCommand::Quit));
    assert!(quitting.state.quit_in_progress);
    assert_eq!(
        quitting.notice.as_deref(),
        Some("Restoring automatic DNS before closing EdgeSteer...")
    );

    let failed = window_step(
        quitting.state,
        WindowEvent::QuitFinished(AgentReply::Failed("agent unreachable".to_owned())),
        true,
        false,
        Language::English,
    );
    assert!(!failed.close_window);
    assert!(!failed.state.quit_in_progress);
    assert_eq!(
        failed.notice.as_deref(),
        Some("EdgeSteer remains open because automatic DNS could not be restored: agent unreachable")
    );

    let refused = window_step(
        quitting.state,
        WindowEvent::QuitFinished(AgentReply::Answered(response(false, "networksetup failed"))),
        true,
        false,
        Language::English,
    );
    assert!(!refused.close_window);
    assert_eq!(refused.notice.as_deref(), Some("networksetup failed"));

    let done = window_step(
        quitting.state,
        WindowEvent::QuitFinished(AgentReply::Answered(response(true, "stopped"))),
        true,
        false,
        Language::English,
    );
    assert!(done.close_window);
    assert_eq!(done.notice, None);
}
