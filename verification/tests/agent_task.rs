use co_scientist::agent_loop::runner::TurnOutcome;
use co_scientist::tui::agent_task::{begin_turn, end_session, end_turn, on_rebuild_failed};
use co_scientist::tui::app::{AppState, Busy, ChatMsg};
use co_scientist::tui::ipc::AgentToUi;

#[test]
fn a_turn_begins_with_its_model() {
    match begin_turn("ranking".into(), Ok("sonnet".into())) {
        Ok((agent, AgentToUi::TurnStarted { model })) => {
            assert_eq!(agent.name, "ranking");
            assert_eq!(model, "sonnet");
        }
        other => panic!("{other:?}"),
    }
}

#[test]
fn a_turn_fails_without_runner_or_agent() {
    match begin_turn("ranking".into(), Err("disk full".into())) {
        Err(AgentToUi::TurnFailed { error, agent_name }) => {
            assert_eq!(error, "runner init failed: disk full");
            assert_eq!(agent_name, "ranking");
        }
        other => panic!("{other:?}"),
    }
    match begin_turn("nobody".into(), Ok("sonnet".into())) {
        Err(AgentToUi::TurnFailed { error, agent_name }) => {
            assert_eq!(error, "unknown agent");
            assert_eq!(agent_name, "nobody");
        }
        other => panic!("{other:?}"),
    }
}

#[test]
fn a_turn_ends_once() {
    let done = TurnOutcome { cleaned_text: "hi".into(), markers: vec![], dispatched: 0 };
    match end_turn("ranking", Ok(done)) {
        AgentToUi::TurnDone { cleaned_text, markers, agent_name } => {
            assert_eq!((cleaned_text.as_str(), agent_name.as_str()), ("hi", "ranking"));
            assert!(markers.is_empty());
        }
        other => panic!("{other:?}"),
    }
    match end_turn("ranking", Err("eof".into())) {
        AgentToUi::TurnFailed { error, agent_name } => {
            assert_eq!((error.as_str(), agent_name.as_str()), ("eof", "ranking"));
        }
        other => panic!("{other:?}"),
    }
}

#[test]
fn a_failed_rebuild_frees_the_input() {
    let mut s = AppState::new("r".into());
    s.busy = Busy::Running;
    on_rebuild_failed(&mut s, "disk full");
    assert_eq!(s.busy, Busy::Idle);
    assert!(matches!(&s.log[0], ChatMsg::System(t) if t == "rebuild failed: disk full"));
}

#[test]
fn a_session_ends_with_its_reason() {
    match end_session("s".into(), Ok(Ok(()))) {
        AgentToUi::SupervisorFinished { reason, session_id } => {
            assert_eq!((reason.as_str(), session_id.as_str()), ("ok", "s"));
        }
        other => panic!("{other:?}"),
    }
    match end_session("s".into(), Ok(Err("budget".into()))) {
        AgentToUi::SupervisorFinished { reason, .. } => assert_eq!(reason, "error: budget"),
        other => panic!("{other:?}"),
    }
    match end_session("s".into(), Err("no client".into())) {
        AgentToUi::SupervisorFailed { error } => assert_eq!(error, "no client"),
        other => panic!("{other:?}"),
    }
}
