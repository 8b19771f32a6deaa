use mprocs::proc::{
    CmdError, ExitInfo, ProcAction, ProcCore, ProcEvent, ProcState, StopPolicy, StopSignal,
};

fn policy() -> StopPolicy {
    StopPolicy { signal: StopSignal::Interrupt, grace_ms: 5000 }
}

#[test]
fn start_from_not_started_spawns() {
    let mut c = ProcCore::new();
    let out = c.apply(&policy(), ProcEvent::CmdStart);
    assert_eq!(c.state, ProcState::Running);
    assert_eq!(out.actions, vec![ProcAction::Spawn]);
    assert_eq!(out.announce, vec![ProcState::Running]);
    assert!(out.error.is_none());
}

#[test]
fn second_start_rejected_without_spawn() {
    let mut c = ProcCore::new();
    let _ = c.apply(&policy(), ProcEvent::CmdStart);
    let out = c.apply(&policy(), ProcEvent::CmdStart);
    assert_eq!(out.error, Some(CmdError::InvalidTransition));
    assert!(out.actions.is_empty());
    assert!(out.announce.is_empty());
    assert_eq!(c.state, ProcState::Running);
}

#[test]
fn stop_escalates_past_grace_to_kill_then_stopped() {
    let mut c = ProcCore::new();
    let _ = c.apply(&policy(), ProcEvent::CmdStart);
    let out = c.apply(&policy(), ProcEvent::CmdStop);
    assert_eq!(c.state, ProcState::Stopping);
    assert_eq!(
        out.actions,
        vec![
            ProcAction::SendSignal(StopSignal::Interrupt),
            ProcAction::StartGraceTimer(5000),
        ]
    );
    let out = c.apply(&policy(), ProcEvent::GraceExpired);
    assert_eq!(out.actions, vec![ProcAction::Kill]);
    assert_eq!(c.state, ProcState::Stopping);
    let out = c.apply(&policy(), ProcEvent::ChildExited(ExitInfo::Signaled(9)));
    assert_eq!(c.state, ProcState::Stopped(ExitInfo::Signaled(9)));
    assert_eq!(out.announce, vec![ProcState::Stopped(ExitInfo::Signaled(9))]);
    assert!(out.actions.is_empty());
}

#[test]
fn stop_when_not_running_is_invalid() {
    let mut c = ProcCore::new();
    let out = c.apply(&policy(), ProcEvent::CmdStop);
    assert_eq!(out.error, Some(CmdError::InvalidTransition));
    assert_eq!(c.state, ProcState::NotStarted);
}

#[test]
fn restart_arms_and_respawns_after_exit() {
    let mut c = ProcCore::new();
    let _ = c.apply(&policy(), ProcEvent::CmdStart);
    let out = c.apply(&policy(), ProcEvent::CmdRestart);
    assert_eq!(c.state, ProcState::Stopping);
    assert_eq!(out.actions.len(), 2);
    // a second restart while stopping collapses into the armed one
    let out = c.apply(&policy(), ProcEvent::CmdRestart);
    assert!(out.actions.is_empty());
    assert!(out.error.is_none());
    let out = c.apply(&policy(), ProcEvent::ChildExited(ExitInfo::Exited(0)));
    assert_eq!(c.state, ProcState::Running);
    assert_eq!(out.actions, vec![ProcAction::Spawn]);
    assert_eq!(
        out.announce,
        vec![ProcState::Stopped(ExitInfo::Exited(0)), ProcState::Running]
    );
}

#[test]
fn resize_same_size_is_noop() {
    let mut c = ProcCore::new();
    let _ = c.apply(&policy(), ProcEvent::CmdStart);
    let out = c.apply(&policy(), ProcEvent::CmdResize(80, 24));
    assert_eq!(out.actions, vec![ProcAction::Resize(80, 24)]);
    let out = c.apply(&policy(), ProcEvent::CmdResize(80, 24));
    assert!(out.actions.is_empty());
    assert!(out.error.is_none());
}

#[test]
fn spawn_failure_records_reason() {
    let mut c = ProcCore::new();
    let _ = c.apply(&policy(), ProcEvent::CmdStart);
    let out = c.apply(&policy(), ProcEvent::SpawnFailed("no such file".to_string()));
    assert_eq!(
        c.state,
        ProcState::Stopped(ExitInfo::SpawnFailed("no such file".to_string()))
    );
    assert_eq!(out.announce.len(), 1);
}

#[test]
fn send_input_only_while_running() {
    let mut c = ProcCore::new();
    let out = c.apply(&policy(), ProcEvent::CmdSendInput(vec![1, 2]));
    assert_eq!(out.error, Some(CmdError::InvalidTransition));
    let _ = c.apply(&policy(), ProcEvent::CmdStart);
    let out = c.apply(&policy(), ProcEvent::CmdSendInput(vec![1, 2]));
    assert_eq!(out.actions, vec![ProcAction::WriteInput(vec![1, 2])]);
}
