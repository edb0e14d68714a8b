//! What the task that drives the agents tells the front end.

use vstd::prelude::*;

use super::app::{logged, AppState, AppView, Busy, ChatMsg, ChatView};
use super::ipc::AgentToUi;
use crate::agent_loop::runner::TurnOutcome;
use crate::agents::{all_agents, find_agent, Agent};

verus! {

/// Whether a message says that a turn of the agent failed with the error.
pub open spec fn says_failed(msg: AgentToUi, agent: Seq<char>, error: Seq<char>) -> bool {
    msg matches AgentToUi::TurnFailed { error: e, agent_name } && e@ == error && agent_name@
        == agent
}

/// Whether an agent has the name.
pub open spec fn is_agent(name: Seq<char>) -> bool {
    exists|i: int| 0 <= i < all_agents().len() && (#[trigger] all_agents()[i]).name == name
}

/// Begins a turn of the agent `agent_name`, given the model of the runner or why
/// there is no runner: the agent and the message that the turn has begun, or the
/// message that it failed.
pub fn begin_turn(agent_name: String, runner: Result<String, String>) -> (r: Result<
    (Agent, AgentToUi),
    AgentToUi,
>)
    ensures
        match runner {
            Err(e) => r matches Err(msg) && says_failed(
                msg,
                agent_name@,
                "runner init failed: "@ + e@,
            ),
            Ok(model) => if is_agent(agent_name@) {
                r matches Ok(begun) && all_agents().contains(begun.0@) && begun.0@.name
                    == agent_name@ && (begun.1 matches AgentToUi::TurnStarted { model: m } && m@
                    == model@)
            } else {
                r matches Err(msg) && says_failed(msg, agent_name@, "unknown agent"@)
            },
        },
{
    match runner {
        Err(e) => {
            let mut error = "runner init failed: ".to_owned();
            error.append(e.as_str());
            Err(AgentToUi::TurnFailed { error, agent_name })
        },
        Ok(model) => match find_agent(agent_name.as_str()) {
            Some(agent) => {
                proof {
                    let i = choose|i: int|
                        0 <= i < all_agents().len() && all_agents()[i] == agent@;
                    assert(all_agents()[i].name == agent_name@);
                }
                Ok((agent, AgentToUi::TurnStarted { model }))
            },
            None => Err(AgentToUi::TurnFailed { error: "unknown agent".to_owned(), agent_name }),
        },
    }
}

/// Ends a turn of the agent `agent_name`: its text and markers, or its error.
pub fn end_turn(agent_name: &str, result: Result<TurnOutcome, String>) -> (r: AgentToUi)
    ensures
        match result {
            Ok(outcome) => r matches AgentToUi::TurnDone { cleaned_text, markers, agent_name: name }
                && cleaned_text@ == outcome.cleaned_text@ && markers@ == outcome.markers@ && name@
                == agent_name@,
            Err(e) => says_failed(r, agent_name@, e@),
        },
{
    match result {
        Ok(outcome) => AgentToUi::TurnDone {
            cleaned_text: outcome.cleaned_text,
            markers: outcome.markers,
            agent_name: agent_name.to_owned(),
        },
        Err(error) => AgentToUi::TurnFailed { error, agent_name: agent_name.to_owned() },
    }
}

/// Tells the user that no runner could be made for a new run.
pub fn on_rebuild_failed(state: &mut AppState, error: &str)
    ensures
        final(state)@ == (AppView {
            busy: Busy::Idle,
            ..logged(old(state)@, ChatView::System("rebuild failed: "@ + error@))
        }),
{
    let mut line = "rebuild failed: ".to_owned();
    line.append(error);
    state.push_log(ChatMsg::System(line));
    state.busy = Busy::Idle;
}

/// Ends a supervised session: `outcome` is an error where the session could not
/// be set up, and holds the supervisor's own result where it could.
pub fn end_session(session_id: String, outcome: Result<Result<(), String>, String>) -> (r:
    AgentToUi)
    ensures
        match outcome {
            Ok(Ok(_)) => r matches AgentToUi::SupervisorFinished { reason, session_id: id } && id@
                == session_id@ && reason@ == "ok"@,
            Ok(Err(e)) => r matches AgentToUi::SupervisorFinished { reason, session_id: id } && id@
                == session_id@ && reason@ == "error: "@ + e@,
            Err(e) => r matches AgentToUi::SupervisorFailed { error } && error@ == e@,
        },
{
    match outcome {
        Ok(Ok(_)) => AgentToUi::SupervisorFinished { reason: "ok".to_owned(), session_id },
        Ok(Err(e)) => {
            let mut reason = "error: ".to_owned();
            reason.append(e.as_str());
            AgentToUi::SupervisorFinished { reason, session_id }
        },
        Err(error) => AgentToUi::SupervisorFailed { error },
    }
}

/// The agents that a turn can be given to are the seven, by name.
pub proof fn law_who_is_an_agent(name: Seq<char>)
    ensures
        is_agent(name) <==> name == "supervisor"@ || name == "generation"@ || name
            == "reflection"@ || name == "ranking"@ || name == "evolution"@ || name
            == "metareview"@ || name == "experiment"@,
{
    let all = all_agents();
    assert(all[0].name == "supervisor"@ && all[1].name == "generation"@ && all[2].name
        == "reflection"@ && all[3].name == "ranking"@ && all[4].name == "evolution"@ && all[5].name
        == "metareview"@ && all[6].name == "experiment"@);
}

} // verus!
