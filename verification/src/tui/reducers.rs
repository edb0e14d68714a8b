//! How each message of the agent task changes the state.

use vstd::prelude::*;

use super::app::{
    agent_name, capped, dropped, log_view, logged, memory_added, shortened, should_drop_bus_event,
    sidebar_entry, sidebar_of, task_added, truncate, AppState, AppView, Busy, ChatMsg, ChatView,
    SidebarEvent, SidebarView, TaskStatus,
};
use super::ipc::AgentToUi;
use super::marker_scrubber::{kept, scrub, shown};
use crate::lifecycle::bus::MemoryEvent;
use crate::marker::skill::{markers_view, Marker, MarkerView};
use crate::text::{join, joined, views};

verus! {

/// A turn has begun: an empty answer is opened, into which the stream goes.
pub open spec fn turn_started(s: AppView, model: Seq<char>) -> AppView {
    let log = capped(
        s.log.push(ChatView::Assistant { agent: agent_name(s), text: Seq::empty() }),
    );
    AppView {
        busy: Busy::Running,
        status: "calling "@ + s.client + " CLI…"@,
        model,
        partial_marker_carry: Seq::empty(),
        log,
        streaming_assistant: Some((log.len() - 1) as usize),
        ..s
    }
}

/// Text has arrived: what it shows outside markers is appended to the answer.
pub open spec fn turn_delta(s: AppView, agent: Seq<char>, delta: Seq<char>) -> AppView {
    let all = s.partial_marker_carry + delta;
    let s = AppView { partial_marker_carry: kept(all), ..s };
    match s.streaming_assistant {
        Some(i) => if i < s.log.len() {
            match s.log[i as int] {
                ChatView::Assistant { agent: name, text } => AppView {
                    log: s.log.update(
                        i as int,
                        ChatView::Assistant {
                            agent: if name.len() == 0 {
                                agent
                            } else {
                                name
                            },
                            text: text + shown(all),
                        },
                    ),
                    follow_tail: true,
                    ..s
                },
                _ => s,
            }
        } else {
            s
        },
        None => s,
    }
}

/// The operations of the markers.
pub open spec fn op_names(markers: Seq<MarkerView>) -> Seq<Seq<char>> {
    markers.map_values(|m: MarkerView| m.op)
}

/// The tool calls that the markers make.
pub open spec fn tool_calls(markers: Seq<MarkerView>, agent: Seq<char>) -> Seq<ChatView> {
    markers.map_values(
        |m: MarkerView| ChatView::ToolCall { agent, tool: m.op, args: m.payload },
    )
}

/// The final text of an answer: its own, and the operations that it called.
pub open spec fn final_text(text: Seq<char>, markers: Seq<MarkerView>) -> Seq<char> {
    if markers.len() == 0 {
        text
    } else {
        text + "\n  ⚙ "@ + joined(op_names(markers), ", "@)
    }
}

/// The answer is complete: it takes the place of what was streamed, and every
/// marker becomes a tool call.
pub open spec fn turn_done(
    s: AppView,
    text: Seq<char>,
    markers: Seq<MarkerView>,
    agent: Seq<char>,
) -> AppView {
    let log = s.log + tool_calls(markers, agent);
    let answer = ChatView::Assistant { agent, text: final_text(text, markers) };
    AppView {
        log: match s.streaming_assistant {
            Some(i) => if i < log.len() && log[i as int] is Assistant {
                log.update(i as int, answer)
            } else {
                log
            },
            None => capped(log.push(answer)),
        },
        streaming_assistant: None,
        partial_marker_carry: Seq::empty(),
        busy: Busy::Idle,
        status: "ready"@,
        follow_tail: true,
        ..s
    }
}

/// The turn failed: an answer that is still empty is taken back.
pub open spec fn turn_failed(s: AppView, error: Seq<char>, agent: Seq<char>) -> AppView {
    let log = match s.streaming_assistant {
        Some(i) => if i < s.log.len() && (s.log[i as int] matches ChatView::Assistant { text, .. }
            && text.len() == 0) {
            s.log.remove(i as int)
        } else {
            s.log
        },
        None => s.log,
    };
    AppView {
        log: capped(log.push(ChatView::System("["@ + agent + "] turn failed: "@ + error))),
        streaming_assistant: None,
        partial_marker_carry: Seq::empty(),
        busy: Busy::Idle,
        status: "error"@,
        follow_tail: true,
        ..s
    }
}

/// A session runs.
pub open spec fn supervisor_started(s: AppView, session: Seq<char>, now: u64) -> AppView {
    logged(
        AppView {
            supervisor_running: true,
            supervisor_session: Some(session),
            supervisor_started_at: Some(now),
            supervisor_stoppable: true,
            tasks_done: 0,
            tasks_failed: 0,
            tasks: Seq::empty(),
            status: "supervisor session "@ + session,
            input: Seq::empty(),
            follow_tail: true,
            ..s
        },
        ChatView::System("supervisor session started: "@ + session),
    )
}

/// An event as a line of the chat log.
pub open spec fn bus_line(ev: MemoryEvent) -> Seq<char> {
    match ev {
        MemoryEvent::EventLogged { agent, type_, payload, .. } => match payload {
            Some(p) => "· "@ + agent@ + " "@ + type_@ + " "@ + shortened(p@, 80),
            None => "· "@ + agent@ + " "@ + type_@,
        },
        MemoryEvent::MarkerFailed { agent, op, error } => "! marker "@ + op@ + " from "@ + agent@
            + ": "@ + error@,
        _ => Seq::empty(),
    }
}

/// The sidebars after an event.
pub open spec fn routed(s: AppView, entry: Option<SidebarView>) -> AppView {
    match entry {
        Some(SidebarView::Task(t)) => AppView {
            tasks: task_added(s.tasks, t),
            tasks_done: if t.status == TaskStatus::Done {
                (s.tasks_done + 1) as usize
            } else {
                s.tasks_done
            },
            tasks_failed: if t.status == TaskStatus::Failed {
                (s.tasks_failed + 1) as usize
            } else {
                s.tasks_failed
            },
            ..s
        },
        Some(SidebarView::Memory(m)) => AppView { memory: memory_added(s.memory, m), ..s },
        None => s,
    }
}

/// An event of the session goes to the sidebars and, unless it is scaffolding,
/// to the chat log.
pub open spec fn supervisor_event(s: AppView, ev: MemoryEvent, now: u64) -> AppView {
    let s = routed(s, sidebar_of(ev, now));
    if dropped(ev) {
        s
    } else {
        AppView { follow_tail: true, ..logged(s, ChatView::System(bus_line(ev))) }
    }
}

/// The session is over.
pub open spec fn supervisor_finished(s: AppView, reason: Seq<char>, session: Seq<char>) -> AppView {
    logged(
        AppView {
            supervisor_running: false,
            supervisor_started_at: None,
            supervisor_stoppable: false,
            status: "session "@ + session + " done: "@ + reason,
            ..s
        },
        ChatView::System("supervisor finished: "@ + reason),
    )
}

/// The session could not be started.
pub open spec fn supervisor_failed(s: AppView, error: Seq<char>) -> AppView {
    logged(
        AppView {
            supervisor_running: false,
            supervisor_started_at: None,
            supervisor_stoppable: false,
            status: "supervisor failed"@,
            ..s
        },
        ChatView::System("supervisor failed: "@ + error),
    )
}

/// The state after a message that arrives at the time `now`.
pub open spec fn reduced(s: AppView, msg: AgentToUi, now: u64) -> AppView {
    match msg {
        AgentToUi::TurnStarted { model } => turn_started(s, model@),
        AgentToUi::TurnDelta { agent_name, delta } => turn_delta(s, agent_name@, delta@),
        AgentToUi::TurnDone { cleaned_text, markers, agent_name } => turn_done(
            s,
            cleaned_text@,
            markers_view(markers@),
            agent_name@,
        ),
        AgentToUi::TurnFailed { error, agent_name } => turn_failed(s, error@, agent_name@),
        AgentToUi::SupervisorStarted { session_id } => supervisor_started(s, session_id@, now),
        AgentToUi::SupervisorEvent(ev) => supervisor_event(s, ev, now),
        AgentToUi::SupervisorFinished { reason, session_id } => supervisor_finished(
            s,
            reason@,
            session_id@,
        ),
        AgentToUi::SupervisorFailed { error } => supervisor_failed(s, error@),
    }
}

/// Whether one more task can be counted.
pub open spec fn countable(s: AppView) -> bool {
    s.tasks_done < usize::MAX && s.tasks_failed < usize::MAX
}

/// Changes the state by a message that arrives at the time `now`.
pub fn reduce(msg: AgentToUi, state: &mut AppState, now: u64)
    requires
        countable(old(state)@),
    ensures
        final(state)@ == reduced(old(state)@, msg, now),
{
    match msg {
        AgentToUi::TurnStarted { model } => on_turn_started(state, model),
        AgentToUi::TurnDelta { agent_name, delta } => on_turn_delta(state, agent_name, delta),
        AgentToUi::TurnDone { cleaned_text, markers, agent_name } => on_turn_done(
            state,
            cleaned_text,
            markers,
            agent_name,
        ),
        AgentToUi::TurnFailed { error, agent_name } => on_turn_failed(state, error, agent_name),
        AgentToUi::SupervisorStarted { session_id } => on_supervisor_started(
            state,
            session_id,
            now,
        ),
        AgentToUi::SupervisorEvent(ev) => on_supervisor_event(state, ev, now),
        AgentToUi::SupervisorFinished { reason, session_id } => on_supervisor_finished(
            state,
            reason,
            session_id,
        ),
        AgentToUi::SupervisorFailed { error } => on_supervisor_failed(state, error),
    }
}

/// A turn has begun.
pub fn on_turn_started(state: &mut AppState, model: String)
    ensures
        final(state)@ == turn_started(old(state)@, model@),
{
    state.busy = Busy::Running;
    let mut status: String = "calling ".to_owned();
    status.append(state.client.as_str());
    status.append(" CLI…");
    state.status = status;
    state.model = model;
    state.partial_marker_carry = String::new();
    let agent = state.current_agent_name().to_owned();
    state.push_log(ChatMsg::Assistant { agent, text: String::new() });
    proof {
        assert(old(state)@.log.push(
            ChatView::Assistant { agent: agent_name(old(state)@), text: Seq::empty() },
        ).len() > 0);
        assert(state.log@.len() == state@.log.len());
    }
    state.streaming_assistant = Some(state.log.len() - 1);
    proof {
        assert(state@ =~= turn_started(old(state)@, model@));
    }
}

/// Text has arrived.
pub fn on_turn_delta(state: &mut AppState, agent_name: String, delta: String)
    ensures
        final(state)@ == turn_delta(old(state)@, agent_name@, delta@),
{
    let text_out = scrub(&mut state.partial_marker_carry, delta.as_str());
    let ghost mid = state@;
    match state.streaming_assistant {
        Some(i) => {
            if i < state.log.len() {
                let ghost log = state.log@;
                let entry: Option<(String, String)> = match &state.log[i] {
                    ChatMsg::Assistant { agent, text } => Some((agent.clone(), text.clone())),
                    _ => None,
                };
                match entry {
                    Some((agent, text)) => {
                        let name = if agent.as_str().is_empty() {
                            agent_name
                        } else {
                            agent
                        };
                        let mut text = text;
                        text.append(text_out.as_str());
                        let msg = ChatMsg::Assistant { agent: name, text };
                        let ghost shown_msg = msg@;
                        state.log.set(i, msg);
                        state.follow_tail = true;
                        proof {
                            assert(log_view(state.log@) =~= log_view(log).update(
                                i as int,
                                shown_msg,
                            ));
                        }
                    },
                    None => {},
                }
            }
        },
        None => {},
    }
    proof {
        assert(state@ =~= turn_delta(old(state)@, agent_name@, delta@));
    }
}

/// The operations of the markers.
fn ops_of(markers: &Vec<Marker>) -> (r: Vec<String>)
    ensures
        views(r@) == op_names(markers_view(markers@)),
{
    let mut ops: Vec<String> = Vec::new();
    let mut i: usize = 0;
    while i < markers.len()
        invariant
            i <= markers@.len(),
            views(ops@) == op_names(markers_view(markers@)).take(i as int),
        decreases markers.len() - i,
    {
        let ghost had = ops@;
        ops.push(markers[i].op.clone());
        proof {
            let all = op_names(markers_view(markers@));
            assert(all.take(i + 1) =~= all.take(i as int).push(all[i as int]));
            assert(views(ops@) =~= views(had).push(markers@[i as int].op@));
        }
        i += 1;
    }
    proof {
        let all = op_names(markers_view(markers@));
        assert(all.take(all.len() as int) =~= all);
    }
    ops
}

/// The answer is complete.
pub fn on_turn_done(
    state: &mut AppState,
    cleaned_text: String,
    markers: Vec<Marker>,
    agent_name: String,
)
    ensures
        final(state)@ == turn_done(
            old(state)@,
            cleaned_text@,
            markers_view(markers@),
            agent_name@,
        ),
{
    let ghost calls = tool_calls(markers_view(markers@), agent_name@);
    let ghost start = state@;
    let mut text = cleaned_text;
    if markers.len() > 0 {
        let ops = ops_of(&markers);
        text.append("\n  ⚙ ");
        text.append(join(&ops, ", ").as_str());
    }
    let ghost want_text = final_text(cleaned_text@, markers_view(markers@));
    proof {
        assert(text@ == want_text);
        assert(state@.log + calls.take(0) =~= state@.log);
    }
    let mut i: usize = 0;
    while i < markers.len()
        invariant
            i <= markers@.len(),
            calls == tool_calls(markers_view(markers@), agent_name@),
            state@ == (AppView { log: start.log + calls.take(i as int), ..start }),
        decreases markers.len() - i,
    {
        let ghost had = state.log@;
        let msg = ChatMsg::ToolCall {
            agent: agent_name.clone(),
            tool: markers[i].op.clone(),
            args: markers[i].payload.clone(),
        };
        let ghost shown_msg = msg@;
        state.log.push(msg);
        proof {
            assert(shown_msg == calls[i as int]);
            assert(log_view(state.log@) =~= log_view(had).push(shown_msg));
            assert(start.log + calls.take(i + 1) =~= (start.log + calls.take(i as int)).push(
                calls[i as int],
            ));
        }
        i += 1;
    }
    proof {
        assert(calls.take(calls.len() as int) =~= calls);
    }
    let ghost full = state.log@;
    match state.streaming_assistant {
        Some(at) => {
            state.streaming_assistant = None;
            if at < state.log.len() && is_assistant(&state.log[at]) {
                let msg = ChatMsg::Assistant { agent: agent_name, text };
                let ghost shown_msg = msg@;
                state.log.set(at, msg);
                proof {
                    assert(log_view(state.log@) =~= log_view(full).update(at as int, shown_msg));
                }
            }
        },
        None => {
            state.push_log(ChatMsg::Assistant { agent: agent_name, text });
        },
    }
    state.partial_marker_carry = String::new();
    state.busy = Busy::Idle;
    state.status = "ready".to_owned();
    state.follow_tail = true;
    proof {
        assert(state@ =~= turn_done(
            old(state)@,
            cleaned_text@,
            markers_view(markers@),
            agent_name@,
        ));
    }
}

/// Whether an entry is an answer.
fn is_assistant(m: &ChatMsg) -> (r: bool)
    ensures
        r == (m@ is Assistant),
{
    match m {
        ChatMsg::Assistant { .. } => true,
        _ => false,
    }
}

/// Whether an entry is an answer without text.
fn is_empty_answer(m: &ChatMsg) -> (r: bool)
    ensures
        r == (m@ matches ChatView::Assistant { text, .. } && text.len() == 0),
{
    match m {
        ChatMsg::Assistant { agent: _, text } => text.as_str().is_empty(),
        _ => false,
    }
}

/// The turn failed.
pub fn on_turn_failed(state: &mut AppState, error: String, agent_name: String)
    ensures
        final(state)@ == turn_failed(old(state)@, error@, agent_name@),
{
    let ghost log = state.log@;
    match state.streaming_assistant {
        Some(at) => {
            state.streaming_assistant = None;
            if at < state.log.len() && is_empty_answer(&state.log[at]) {
                state.log.remove(at);
                proof {
                    assert(log_view(state.log@) =~= log_view(log).remove(at as int));
                }
            }
        },
        None => {},
    }
    let mut line = "[".to_owned();
    line.append(agent_name.as_str());
    line.append("] turn failed: ");
    line.append(error.as_str());
    state.push_log(ChatMsg::System(line));
    state.partial_marker_carry = String::new();
    state.busy = Busy::Idle;
    state.status = "error".to_owned();
    state.follow_tail = true;
    proof {
        assert(state@ =~= turn_failed(old(state)@, error@, agent_name@));
    }
}

/// A session runs.
pub fn on_supervisor_started(state: &mut AppState, session_id: String, now: u64)
    ensures
        final(state)@ == supervisor_started(old(state)@, session_id@, now),
{
    let mut status = "supervisor session ".to_owned();
    status.append(session_id.as_str());
    let mut line = "supervisor session started: ".to_owned();
    line.append(session_id.as_str());
    state.supervisor_running = true;
    state.supervisor_session = Some(session_id);
    state.supervisor_started_at = Some(now);
    state.supervisor_stoppable = true;
    state.tasks_done = 0;
    state.tasks_failed = 0;
    state.tasks.clear();
    state.status = status;
    state.input = String::new();
    state.follow_tail = true;
    proof {
        assert(state@.tasks =~= Seq::empty());
        assert(state@.input =~= Seq::empty());
    }
    state.push_log(ChatMsg::System(line));
}

/// An event of the session has arrived.
pub fn on_supervisor_event(state: &mut AppState, ev: MemoryEvent, now: u64)
    requires
        countable(old(state)@),
    ensures
        final(state)@ == supervisor_event(old(state)@, ev, now),
{
    match sidebar_entry(&ev, now) {
        Some(SidebarEvent::Task(t)) => {
            match t.status {
                TaskStatus::Done => {
                    state.tasks_done = state.tasks_done + 1;
                },
                TaskStatus::Failed => {
                    state.tasks_failed = state.tasks_failed + 1;
                },
                _ => {},
            }
            state.push_task(t);
        },
        Some(SidebarEvent::Memory(m)) => {
            state.push_memory(m);
        },
        None => {},
    }
    if should_drop_bus_event(&ev) {
        return;
    }
    state.push_log(ChatMsg::System(render_bus_event(&ev)));
    state.follow_tail = true;
}

/// The session is over.
pub fn on_supervisor_finished(state: &mut AppState, reason: String, session_id: String)
    ensures
        final(state)@ == supervisor_finished(old(state)@, reason@, session_id@),
{
    let mut status = "session ".to_owned();
    status.append(session_id.as_str());
    status.append(" done: ");
    status.append(reason.as_str());
    let mut line = "supervisor finished: ".to_owned();
    line.append(reason.as_str());
    state.supervisor_running = false;
    state.supervisor_started_at = None;
    state.supervisor_stoppable = false;
    state.status = status;
    state.push_log(ChatMsg::System(line));
}

/// The session could not be started.
pub fn on_supervisor_failed(state: &mut AppState, error: String)
    ensures
        final(state)@ == supervisor_failed(old(state)@, error@),
{
    let mut line = "supervisor failed: ".to_owned();
    line.append(error.as_str());
    state.supervisor_running = false;
    state.supervisor_started_at = None;
    state.supervisor_stoppable = false;
    state.status = "supervisor failed".to_owned();
    state.push_log(ChatMsg::System(line));
}

/// An event as a line of the chat log.
pub fn render_bus_event(ev: &MemoryEvent) -> (r: String)
    ensures
        r@ == bus_line(*ev),
{
    match ev {
        MemoryEvent::EventLogged { agent, type_, payload, .. } => {
            let mut s = "· ".to_owned();
            s.append(agent.as_str());
            s.append(" ");
            s.append(type_.as_str());
            match payload {
                Some(p) => {
                    s.append(" ");
                    s.append(truncate(p.as_str(), 80).as_str());
                },
                None => {},
            }
            s
        },
        MemoryEvent::MarkerFailed { agent, op, error } => {
            let mut s = "! marker ".to_owned();
            s.append(op.as_str());
            s.append(" from ");
            s.append(agent.as_str());
            s.append(": ");
            s.append(error.as_str());
            s
        },
        _ => {
            let s = String::new();
            proof {
                assert(s@ =~= Seq::empty());
            }
            s
        },
    }
}

// --------------------------------------------------------------------- laws

/// The streamed answer is where the stream looks for it: after a turn has begun
/// the last entry of the log is an empty answer and the stream points at it.
pub proof fn law_stream_points_at_open_answer(s: AppView, model: Seq<char>)
    ensures
        ({
            let t = turn_started(s, model);
            &&& t.streaming_assistant == Some((t.log.len() - 1) as usize)
            &&& t.log.last() == (ChatView::Assistant { agent: agent_name(s), text: Seq::empty() })
            &&& t.log.len() <= super::app::LOG_CAP
        }),
{
}

/// A turn that fails before any text came leaves no blank answer behind: the log
/// is what it was before the turn, followed by the failure.
pub proof fn law_failed_turn_leaves_no_blank(
    s: AppView,
    model: Seq<char>,
    error: Seq<char>,
    agent: Seq<char>,
)
    requires
        s.log.len() < super::app::LOG_CAP,
    ensures
        turn_failed(turn_started(s, model), error, agent).log == s.log.push(
            ChatView::System("["@ + agent + "] turn failed: "@ + error),
        ),
{
    let t = turn_started(s, model);
    assert(t.log.remove(t.log.len() - 1) =~= s.log);
}

/// A completed turn leaves nothing open: no stream, no carried text, not busy.
pub proof fn law_turn_end_closes_stream(
    s: AppView,
    text: Seq<char>,
    markers: Seq<MarkerView>,
    agent: Seq<char>,
    error: Seq<char>,
)
    ensures
        ({
            let d = turn_done(s, text, markers, agent);
            &&& d.streaming_assistant is None && d.partial_marker_carry.len() == 0
            &&& d.busy == Busy::Idle
            &&& d.supervisor_running == s.supervisor_running
        }),
        ({
            let f = turn_failed(s, error, agent);
            &&& f.streaming_assistant is None && f.partial_marker_carry.len() == 0
            &&& f.busy == Busy::Idle
            &&& f.supervisor_running == s.supervisor_running
        }),
{
}

/// However the answer was streamed, its final form depends on the turn's result
/// alone: a delta before the end changes nothing of what the end leaves.
pub proof fn law_final_answer_replaces_stream(
    s: AppView,
    agent: Seq<char>,
    delta: Seq<char>,
    text: Seq<char>,
    markers: Seq<MarkerView>,
)
    requires
        s.streaming_assistant matches Some(i) && i < s.log.len() && s.log[i as int] is Assistant,
    ensures
        turn_done(turn_delta(s, agent, delta), text, markers, agent).log == turn_done(
            s,
            text,
            markers,
            agent,
        ).log,
{
    let a = turn_done(turn_delta(s, agent, delta), text, markers, agent).log;
    let b = turn_done(s, text, markers, agent).log;
    assert(a =~= b);
}

/// A session that starts can be stopped, and one that ends or fails cannot.
pub proof fn law_only_running_sessions_stop(
    s: AppView,
    session: Seq<char>,
    now: u64,
    reason: Seq<char>,
)
    ensures
        supervisor_started(s, session, now).supervisor_running,
        supervisor_started(s, session, now).supervisor_stoppable,
        !supervisor_finished(s, reason, session).supervisor_running,
        !supervisor_finished(s, reason, session).supervisor_stoppable,
        !supervisor_failed(s, reason).supervisor_running,
        !supervisor_failed(s, reason).supervisor_stoppable,
{
}

/// Text that arrives is put behind what the open answer holds, without its markers; no
/// other entry of the log changes.
pub proof fn law_deltas_extend_the_open_answer(
    s: AppView,
    agent: Seq<char>,
    delta: Seq<char>,
    i: usize,
)
    requires
        s.streaming_assistant == Some(i),
        i < s.log.len(),
        s.log[i as int] is Assistant,
    ensures
        ({
            let t = turn_delta(s, agent, delta);
            &&& t.log.len() == s.log.len()
            &&& t.log[i as int] is Assistant
            &&& t.log[i as int]->Assistant_text == s.log[i as int]->Assistant_text + shown(
                s.partial_marker_carry + delta,
            )
            &&& s.log[i as int]->Assistant_agent.len() > 0 ==> t.log[i as int]->Assistant_agent
                == s.log[i as int]->Assistant_agent
            &&& forall|j: int| 0 <= j < s.log.len() && j != i ==> #[trigger] t.log[j] == s.log[j]
            &&& t.partial_marker_carry == kept(s.partial_marker_carry + delta)
            &&& t.streaming_assistant == s.streaming_assistant
            &&& t.busy == s.busy
            &&& t.status == s.status
        }),
{
}

/// Without an open answer text changes nothing that is shown.
pub proof fn law_deltas_without_an_answer_show_nothing(
    s: AppView,
    agent: Seq<char>,
    delta: Seq<char>,
)
    requires
        s.streaming_assistant is None,
    ensures
        turn_delta(s, agent, delta).log == s.log,
{
}

/// A finished turn puts its text in the place of what was streamed, with the names of the
/// tools it called behind it, and lists each call with its tool and arguments, in order,
/// behind what was there. Everything else in the log stays.
pub proof fn law_finished_turn_lists_its_calls(
    s: AppView,
    text: Seq<char>,
    markers: Seq<MarkerView>,
    agent: Seq<char>,
    i: usize,
    k: int,
)
    requires
        s.streaming_assistant == Some(i),
        i < s.log.len(),
        s.log[i as int] is Assistant,
    ensures
        ({
            let d = turn_done(s, text, markers, agent);
            let n = s.log.len();
            &&& d.log.len() == n + markers.len()
            &&& d.log[i as int] is Assistant
            &&& d.log[i as int]->Assistant_agent == agent
            &&& markers.len() == 0 ==> d.log[i as int]->Assistant_text == text
            &&& markers.len() == 1 ==> d.log[i as int]->Assistant_text == text + "\n  ⚙ "@
                + markers[0].op
            &&& forall|j: int| 0 <= j < n && j != i ==> #[trigger] d.log[j] == s.log[j]
            &&& 0 <= k < markers.len() ==> d.log[n + k] == (ChatView::ToolCall {
                agent,
                tool: markers[k].op,
                args: markers[k].payload,
            })
            &&& d.busy == Busy::Idle
            &&& d.status == "ready"@
        }),
{
    let d = turn_done(s, text, markers, agent);
    let n = s.log.len();
    if markers.len() == 1 {
        assert(op_names(markers) =~= seq![markers[0].op]);
        assert(joined(op_names(markers), ", "@) == markers[0].op);
    }
    if 0 <= k < markers.len() {
        assert(tool_calls(markers, agent)[k] == (ChatView::ToolCall {
            agent,
            tool: markers[k].op,
            args: markers[k].payload,
        }));
    }
}

/// A failed turn says so at the end of the log, with its agent and its error; an answer that
/// already holds text stays.
pub proof fn law_failed_turn_is_reported(s: AppView, error: Seq<char>, agent: Seq<char>, i: usize)
    requires
        s.streaming_assistant == Some(i),
        i < s.log.len() < super::app::LOG_CAP,
    ensures
        ({
            let f = turn_failed(s, error, agent);
            &&& f.log.last() == ChatView::System("["@ + agent + "] turn failed: "@ + error)
            &&& f.status == "error"@
            &&& s.log[i as int] is Assistant && s.log[i as int]->Assistant_text.len() > 0
                ==> f.log == s.log.push(f.log.last())
        }),
{
}

/// A session that starts is named and timed and counts its tasks from zero; what was in the
/// chat stays.
pub proof fn law_started_session_counts_anew(s: AppView, session: Seq<char>, now: u64)
    requires
        s.log.len() < super::app::LOG_CAP,
    ensures
        ({
            let t = supervisor_started(s, session, now);
            &&& t.supervisor_session == Some(session)
            &&& t.supervisor_started_at == Some(now)
            &&& t.tasks_done == 0 && t.tasks_failed == 0 && t.tasks.len() == 0
            &&& t.log == s.log.push(ChatView::System("supervisor session started: "@ + session))
            &&& t.memory == s.memory
            &&& t.busy == s.busy
        }),
{
}

/// A completed task counts once as done and a failed one once as failed; no other event
/// counts. An event that is no scaffolding gives one line of the chat.
pub proof fn law_tasks_count_once(s: AppView, ev: MemoryEvent, now: u64)
    requires
        countable(s),
        s.log.len() < super::app::LOG_CAP,
    ensures
        ({
            let t = supervisor_event(s, ev, now);
            &&& t.tasks_done == s.tasks_done + (if ev is TaskCompleted {
                1int
            } else {
                0
            })
            &&& t.tasks_failed == s.tasks_failed + (if ev is TaskFailed {
                1int
            } else {
                0
            })
            &&& dropped(ev) ==> t.log == s.log
            &&& !dropped(ev) ==> t.log == s.log.push(ChatView::System(bus_line(ev)))
            &&& t.supervisor_running == s.supervisor_running
        }),
{
}

/// The end of a session is told with its reason, a failure with its error.
pub proof fn law_end_of_a_session_is_told(
    s: AppView,
    reason: Seq<char>,
    session: Seq<char>,
    error: Seq<char>,
)
    requires
        s.log.len() < super::app::LOG_CAP,
    ensures
        supervisor_finished(s, reason, session).log == s.log.push(
            ChatView::System("supervisor finished: "@ + reason),
        ),
        supervisor_failed(s, error).log == s.log.push(
            ChatView::System("supervisor failed: "@ + error),
        ),
        supervisor_finished(s, reason, session).supervisor_started_at is None,
        supervisor_failed(s, error).supervisor_started_at is None,
{
}

/// A message about a turn or a session shows in the part of the state that it is about: a
/// turn that starts opens an empty answer, one that ends closes it, a failure is told last,
/// and only the messages about a session touch the sidebars and the counts.
pub proof fn law_where_messages_show(s: AppView, msg: AgentToUi, now: u64)
    requires
        s.log.len() < super::app::LOG_CAP,
        s.streaming_assistant is None,
    ensures
        ({
            let t = reduced(s, msg, now);
            &&& match msg {
                AgentToUi::TurnStarted { model } => t.model == model@ && t.log == s.log.push(
                    ChatView::Assistant { agent: agent_name(s), text: Seq::empty() },
                ) && t.busy == Busy::Running && t.streaming_assistant == Some(s.log.len() as usize),
                AgentToUi::TurnDelta { .. } => t.log == s.log && t.busy == s.busy,
                AgentToUi::TurnDone { .. } => t.busy == Busy::Idle && t.status == "ready"@,
                AgentToUi::TurnFailed { error, agent_name } => t.log == s.log.push(
                    ChatView::System("["@ + agent_name@ + "] turn failed: "@ + error@),
                ) && t.busy == Busy::Idle && t.status == "error"@,
                AgentToUi::SupervisorStarted { session_id } => t.supervisor_session == Some(
                    session_id@,
                ) && t.supervisor_started_at == Some(now),
                AgentToUi::SupervisorEvent(ev) => dropped(ev) ==> t.log == s.log,
                AgentToUi::SupervisorFinished { reason, .. } => t.log == s.log.push(
                    ChatView::System("supervisor finished: "@ + reason@),
                ),
                AgentToUi::SupervisorFailed { error } => t.log == s.log.push(
                    ChatView::System("supervisor failed: "@ + error@),
                ),
            }
            &&& msg is TurnStarted || msg is TurnDelta || msg is TurnDone || msg is TurnFailed ==> {
                &&& t.tasks == s.tasks
                &&& t.memory == s.memory
                &&& t.tasks_done == s.tasks_done
                &&& t.tasks_failed == s.tasks_failed
                &&& t.supervisor_session == s.supervisor_session
            }
            &&& !(msg is SupervisorStarted) && !(msg is SupervisorEvent) ==> t.tasks_done
                == s.tasks_done && t.tasks_failed == s.tasks_failed
            &&& msg is SupervisorStarted ==> t.input.len() == 0
            &&& !(msg is SupervisorStarted) ==> t.input == s.input
            &&& t.run_id == s.run_id
        }),
{
}

/// The chat tells of an event its agent, its kind and what it carries, up to 80 characters;
/// of a marker that failed its tool, its agent and its error; of anything else nothing.
pub proof fn law_what_the_chat_tells_of_events(ev: MemoryEvent)
    ensures
        match ev {
            MemoryEvent::EventLogged { agent, type_, payload, .. } => {
                let head = seq!['·', ' '] + agent@ + seq![' '] + type_@;
                &&& payload is None ==> bus_line(ev) == head
                &&& payload matches Some(p) ==> {
                    &&& p@.len() <= 80 ==> bus_line(ev) == head + seq![' '] + p@
                    &&& p@.len() > 80 ==> bus_line(ev) == head + seq![' '] + p@.take(80).push('…')
                }
            },
            MemoryEvent::MarkerFailed { agent, op, error } => bus_line(ev) == "! marker "@ + op@
                + " from "@ + agent@ + ": "@ + error@,
            _ => bus_line(ev).len() == 0,
        },
{
    reveal_strlit("· ");
    reveal_strlit(" ");
    assert("· "@ =~= seq!['·', ' ']);
    assert(" "@ =~= seq![' ']);
}

} // verus!
