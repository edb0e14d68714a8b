//! Messages between the front end and the task that drives the agents.

use vstd::prelude::*;

use crate::lifecycle::bus::MemoryEvent;
use crate::marker::skill::Marker;

verus! {

/// From the front end to the agent task.
#[derive(Debug)]
pub enum UiToAgent {
    /// Run one turn of an agent.
    Turn { agent_name: String, user_text: String },
    /// Start a supervised session.
    StartSupervisor { goal: String },
    /// Drop the current runner.
    Shutdown,
}

/// What a [`UiToAgent`] holds.
pub enum RequestView {
    Turn { agent_name: Seq<char>, user_text: Seq<char> },
    StartSupervisor { goal: Seq<char> },
    Shutdown,
}

impl View for UiToAgent {
    type V = RequestView;

    open spec fn view(&self) -> RequestView {
        match *self {
            UiToAgent::Turn { agent_name, user_text } => RequestView::Turn {
                agent_name: agent_name@,
                user_text: user_text@,
            },
            UiToAgent::StartSupervisor { goal } => RequestView::StartSupervisor { goal: goal@ },
            UiToAgent::Shutdown => RequestView::Shutdown,
        }
    }
}

/// From the agent task to the front end.
#[derive(Debug)]
pub enum AgentToUi {
    /// A turn has begun, with the model that the runner uses.
    TurnStarted { model: String },
    /// Raw text of the answer has arrived.
    TurnDelta { agent_name: String, delta: String },
    /// The answer is complete: its text without markers, and the markers.
    TurnDone { cleaned_text: String, markers: Vec<Marker>, agent_name: String },
    TurnFailed { error: String, agent_name: String },
    /// A supervised session runs and can be stopped.
    SupervisorStarted { session_id: String },
    /// An event of the session.
    SupervisorEvent(MemoryEvent),
    SupervisorFinished { reason: String, session_id: String },
    /// The session could not be started.
    SupervisorFailed { error: String },
}

} // verus!
