use co_scientist::lifecycle::bus::MemoryEvent;
use co_scientist::marker::skill::Marker;
use co_scientist::tui::app::{
    should_drop_bus_event, sidebar_entry, truncate, AppState, Busy, ChatMsg, Focus, MemoryEntry,
    SidebarEvent, TaskEntry, TaskStatus, LOG_CAP, SIDEBAR_CAP,
};
use co_scientist::tui::ipc::{AgentToUi, UiToAgent};
use co_scientist::tui::keys::{
    handle_key, handle_key_agents, handle_key_chat, handle_key_input, handle_key_sidebar, on_tick,
    split_command, ChatMetrics, KeyAction, KeyCode, KeyEvent,
};
use co_scientist::tui::reducers::{reduce, render_bus_event};

fn state_with_metrics(max_scroll: u16, visible_h: u16) -> (AppState, ChatMetrics) {
    let mut s = AppState::new("test-run".into());
    for i in 0..50 {
        s.log.push(ChatMsg::User(format!("message {i}")));
    }
    let metrics = ChatMetrics {
        total: 50,
        visible_h: visible_h as usize,
        max_scroll: max_scroll as usize,
    };
    (s, metrics)
}

fn key(code: KeyCode) -> KeyEvent {
    KeyEvent { code, ctrl: false, alt: false }
}

fn ctrl(c: char) -> KeyEvent {
    KeyEvent { code: KeyCode::Char(c), ctrl: true, alt: false }
}

fn ready() -> AppState {
    let mut s = AppState::new("run-1".into());
    s.show_splash = false;
    s
}

const NO_METRICS: ChatMetrics = ChatMetrics { total: 0, visible_h: 0, max_scroll: 0 };

#[test]
fn turn_started_pre_creates_streaming_entry() {
    let mut s = AppState::new("test-run".into());
    reduce(AgentToUi::TurnStarted { model: "sonnet".into() }, &mut s, 0);

    assert_eq!(s.busy, Busy::Running);
    assert_eq!(s.model, "sonnet");
    assert!(s.partial_marker_carry.is_empty());
    assert_eq!(s.log.len(), 1);
    assert!(matches!(&s.log[0], ChatMsg::Assistant { text, .. } if text.is_empty()));
    assert_eq!(s.streaming_assistant, Some(0));
}

#[test]
fn turn_delta_scrubs_markers_before_appending() {
    let mut s = AppState::new("test-run".into());
    reduce(AgentToUi::TurnStarted { model: "sonnet".into() }, &mut s, 0);
    reduce(
        AgentToUi::TurnDelta {
            agent_name: "supervisor".into(),
            delta: "before [[MEMORY_OP:noop:{}]] after".into(),
        },
        &mut s,
        0,
    );
    if let ChatMsg::Assistant { text, .. } = &s.log[0] {
        assert!(!text.contains("MEMORY_OP"), "raw marker leaked: {text:?}");
        assert!(text.contains("before"));
        assert!(text.contains("after"));
    } else {
        panic!("expected Assistant entry at idx 0");
    }
}

#[test]
fn turn_done_replaces_streamed_text_and_pushes_tool_call_per_marker() {
    let mut s = AppState::new("test-run".into());
    reduce(AgentToUi::TurnStarted { model: "sonnet".into() }, &mut s, 0);
    reduce(
        AgentToUi::TurnDelta {
            agent_name: "supervisor".into(),
            delta: "streamed draft".into(),
        },
        &mut s,
        0,
    );
    reduce(
        AgentToUi::TurnDone {
            cleaned_text: "final cleaned".into(),
            markers: vec![
                Marker {
                    op: "save_semantic".into(),
                    payload: r#"{"scope": "x"}"#.into(),
                },
                Marker {
                    op: "save_behavior".into(),
                    payload: r#"{"agent": "a"}"#.into(),
                },
            ],
            agent_name: "supervisor".into(),
        },
        &mut s,
        0,
    );

    assert_eq!(s.log.len(), 3);
    if let ChatMsg::Assistant { text, .. } = &s.log[0] {
        assert!(text.starts_with("final cleaned"));
        assert!(text.contains("⚙ save_semantic, save_behavior"));
    } else {
        panic!("expected Assistant at idx 0");
    }
    assert!(matches!(&s.log[1], ChatMsg::ToolCall { tool, .. } if tool == "save_semantic"));
    assert!(matches!(&s.log[2], ChatMsg::ToolCall { tool, .. } if tool == "save_behavior"));
    assert_eq!(s.streaming_assistant, None);
    assert_eq!(s.busy, Busy::Idle);
}

#[test]
fn turn_failed_drops_empty_streaming_entry() {
    let mut s = AppState::new("test-run".into());
    reduce(AgentToUi::TurnStarted { model: "sonnet".into() }, &mut s, 0);
    assert_eq!(s.log.len(), 1);
    reduce(
        AgentToUi::TurnFailed {
            error: "client CLI exited 1".into(),
            agent_name: "supervisor".into(),
        },
        &mut s,
        0,
    );
    assert_eq!(s.log.len(), 1);
    assert!(matches!(&s.log[0], ChatMsg::System(t) if t.contains("turn failed")));
    assert_eq!(s.busy, Busy::Idle);
}

#[test]
fn g_goes_to_top() {
    let (mut s, m) = state_with_metrics(100, 20);
    s.chat_scroll = 80;
    s.follow_tail = false;
    handle_key_chat(&mut s, key(KeyCode::Char('g')), &m);
    assert!(!s.follow_tail, "g should leave tail mode");
    assert_eq!(s.chat_scroll, 0, "g should pin scroll to top");
}

#[test]
fn capital_g_goes_to_bottom_and_enters_tail_mode() {
    let (mut s, m) = state_with_metrics(100, 20);
    s.chat_scroll = 0;
    s.follow_tail = false;
    handle_key_chat(&mut s, key(KeyCode::Char('G')), &m);
    assert!(s.follow_tail, "G should enter tail mode");
    assert_eq!(s.chat_scroll, 100, "G should pin scroll to max_scroll");
}

#[test]
fn j_after_tail_mode_anchors_before_incrementing() {
    let (mut s, m) = state_with_metrics(100, 20);
    s.follow_tail = true;
    s.chat_scroll = 0;
    handle_key_chat(&mut s, key(KeyCode::Char('j')), &m);
    assert!(!s.follow_tail, "j should leave tail mode");
    assert_eq!(s.chat_scroll, 100, "j should anchor to max_scroll then clamp");
}

#[test]
fn j_from_middle_of_log_moves_down_one() {
    let (mut s, m) = state_with_metrics(100, 20);
    s.follow_tail = false;
    s.chat_scroll = 40;
    handle_key_chat(&mut s, key(KeyCode::Char('j')), &m);
    assert_eq!(s.chat_scroll, 41);
}

#[test]
fn page_down_unit_equals_visible_h_minus_one() {
    let (mut s, m) = state_with_metrics(200, 30);
    s.chat_scroll = 0;
    s.follow_tail = false;
    handle_key_chat(&mut s, key(KeyCode::PageDown), &m);
    assert_eq!(s.chat_scroll, 29);
}

#[test]
fn page_down_clamps_at_max_scroll() {
    let (mut s, m) = state_with_metrics(50, 20);
    s.chat_scroll = 45;
    s.follow_tail = false;
    for _ in 0..100 {
        handle_key_chat(&mut s, key(KeyCode::PageDown), &m);
    }
    assert_eq!(s.chat_scroll, 50, "PageDown should clamp at max_scroll, not saturate");
}

#[test]
fn j_clamps_at_max_scroll() {
    let (mut s, m) = state_with_metrics(50, 20);
    s.chat_scroll = 50;
    s.follow_tail = false;
    handle_key_chat(&mut s, key(KeyCode::Char('j')), &m);
    assert_eq!(s.chat_scroll, 50, "j should not exceed max_scroll");
}

#[test]
fn k_clamps_at_zero() {
    let (mut s, m) = state_with_metrics(50, 20);
    s.chat_scroll = 0;
    s.follow_tail = false;
    handle_key_chat(&mut s, key(KeyCode::Char('k')), &m);
    assert_eq!(s.chat_scroll, 0, "k should not underflow");
}

#[test]
fn f_toggles_follow_tail_and_anchors_when_entering() {
    let (mut s, m) = state_with_metrics(100, 20);
    s.chat_scroll = 5;
    s.follow_tail = false;
    handle_key_chat(&mut s, key(KeyCode::Char('f')), &m);
    assert!(s.follow_tail, "f should enter tail mode");
    assert_eq!(s.chat_scroll, 100, "entering tail should pin to max_scroll");

    handle_key_chat(&mut s, key(KeyCode::Char('f')), &m);
    assert!(!s.follow_tail, "second f should leave tail mode");
    assert_eq!(
        s.chat_scroll, 100,
        "leaving tail should preserve the anchor so next j works"
    );
}

#[test]
fn home_end_keys_match_vim_conventions() {
    let (mut s, m) = state_with_metrics(100, 20);
    s.chat_scroll = 50;
    s.follow_tail = false;
    handle_key_chat(&mut s, key(KeyCode::Home), &m);
    assert_eq!(s.chat_scroll, 0);
    assert!(!s.follow_tail);

    handle_key_chat(&mut s, key(KeyCode::End), &m);
    assert!(s.follow_tail);
    assert_eq!(s.chat_scroll, 100);
}

#[test]
fn page_down_with_zero_visible_h_falls_back_to_one() {
    let (mut s, m) = state_with_metrics(100, 0);
    s.chat_scroll = 0;
    s.follow_tail = false;
    handle_key_chat(&mut s, key(KeyCode::PageDown), &m);
    assert_eq!(s.chat_scroll, 1, "fallback page unit should be 1, not 0");
}

#[test]
fn enter_sends_a_turn_and_clears_the_input() {
    let mut s = ready();
    s.focus = Focus::Input;
    s.input = "  hello  ".into();
    let action = handle_key_input(&mut s, key(KeyCode::Enter));
    match action {
        KeyAction::Send(UiToAgent::Turn { agent_name, user_text }) => {
            assert_eq!(agent_name, s.current_agent_name());
            assert_eq!(user_text, "  hello  ");
        }
        other => panic!("expected a turn, got {other:?}"),
    }
    assert!(s.input.is_empty());
    assert_eq!(s.busy, Busy::Running);
}

#[test]
fn enter_while_busy_keeps_the_input() {
    let mut s = ready();
    s.busy = Busy::Running;
    s.input = "hello".into();
    assert!(matches!(handle_key_input(&mut s, key(KeyCode::Enter)), KeyAction::Nothing));
    assert_eq!(s.input, "hello");
}

#[test]
fn start_command_asks_for_a_session() {
    let mut s = ready();
    s.input = "/start cure the common cold".into();
    match handle_key_input(&mut s, key(KeyCode::Enter)) {
        KeyAction::Send(UiToAgent::StartSupervisor { goal }) => {
            assert_eq!(goal, "cure the common cold");
        }
        other => panic!("expected a session, got {other:?}"),
    }
}

#[test]
fn stop_command_stops_a_running_session() {
    let mut s = ready();
    reduce(AgentToUi::SupervisorStarted { session_id: "sess-1".into() }, &mut s, 5);
    assert!(s.supervisor_running);
    assert_eq!(s.supervisor_started_at, Some(5));
    s.input = "/stop".into();
    assert!(matches!(handle_key_input(&mut s, key(KeyCode::Enter)), KeyAction::StopSession));
}

#[test]
fn stop_without_a_session_does_nothing_outside() {
    let mut s = ready();
    s.input = "/stop".into();
    assert!(matches!(handle_key_input(&mut s, key(KeyCode::Enter)), KeyAction::Nothing));
}

#[test]
fn ctrl_c_quits_and_any_key_leaves_the_splash() {
    let mut s = AppState::new("run-1".into());
    assert!(s.show_splash);
    handle_key(&mut s, key(KeyCode::Char('x')), "id".into(), &NO_METRICS);
    assert!(!s.show_splash);
    assert!(s.input.is_empty());
    assert!(matches!(
        handle_key(&mut s, ctrl('c'), "id".into(), &NO_METRICS),
        KeyAction::Quit
    ));
}

#[test]
fn ctrl_n_starts_a_new_run() {
    let mut s = ready();
    s.push_log(ChatMsg::User("old".into()));
    let action = handle_key(&mut s, ctrl('n'), "fresh".into(), &NO_METRICS);
    assert_eq!(s.run_id, "fresh");
    assert!(matches!(action, KeyAction::Send(UiToAgent::Shutdown)));
    assert!(!s.log.iter().any(|m| matches!(m, ChatMsg::User(t) if t == "old")));
}

#[test]
fn help_closes_on_escape_and_question_mark_only() {
    let mut s = ready();
    handle_key(&mut s, key(KeyCode::Char('?')), "id".into(), &NO_METRICS);
    assert!(s.show_help);
    handle_key(&mut s, key(KeyCode::Char('x')), "id".into(), &NO_METRICS);
    assert!(s.show_help);
    handle_key(&mut s, key(KeyCode::Esc), "id".into(), &NO_METRICS);
    assert!(!s.show_help);
}

#[test]
fn tab_cycles_the_focus_and_back() {
    let mut s = ready();
    let first = s.focus;
    handle_key(&mut s, key(KeyCode::Tab), "id".into(), &NO_METRICS);
    assert_ne!(s.focus, first);
    handle_key(&mut s, key(KeyCode::BackTab), "id".into(), &NO_METRICS);
    assert_eq!(s.focus, first);
}

#[test]
fn agents_are_cycled_around_the_end() {
    let mut s = ready();
    assert_eq!(s.current_agent_name(), "supervisor");
    s.cycle_agent(-1);
    assert_eq!(s.current_agent_name(), "experiment");
    s.cycle_agent(1);
    assert_eq!(s.current_agent_name(), "supervisor");
    handle_key_agents(&mut s, key(KeyCode::Down));
    assert_eq!(s.current_agent_name(), "generation");
}

#[test]
fn sidebar_selection_moves_within_the_list() {
    let mut s = ready();
    handle_key_sidebar(&mut s, key(KeyCode::Up));
    assert_eq!(s.sidebar_selected, 0);
}

#[test]
fn ticks_pin_the_tail() {
    let (mut s, m) = state_with_metrics(30, 10);
    s.follow_tail = true;
    let before = s.tick;
    on_tick(&mut s, &m);
    assert_eq!(s.tick, before + 1);
    assert_eq!(s.chat_scroll, 30);
}

#[test]
fn pages_up_and_down_cancel_in_the_middle() {
    let (mut s, m) = state_with_metrics(200, 30);
    s.follow_tail = false;
    s.chat_scroll = 100;
    handle_key_chat(&mut s, key(KeyCode::PageUp), &m);
    assert_eq!(s.chat_scroll, 71);
    handle_key_chat(&mut s, key(KeyCode::PageDown), &m);
    assert_eq!(s.chat_scroll, 100);
}

#[test]
fn commands_split_at_the_first_blank() {
    assert_eq!(split_command("/start a b"), ("/start".to_string(), "a b".to_string()));
    assert_eq!(split_command("/help"), ("/help".to_string(), String::new()));
}

#[test]
fn the_log_keeps_its_latest_entries() {
    let mut s = ready();
    let start = s.log.len();
    for i in 0..LOG_CAP + 10 {
        s.push_log(ChatMsg::User(format!("m{i}")));
    }
    assert_eq!(s.log.len(), LOG_CAP);
    assert!(matches!(s.log.last(), Some(ChatMsg::User(t)) if *t == format!("m{}", LOG_CAP + 9)));
    assert!(start <= LOG_CAP);
}

#[test]
fn tasks_are_updated_in_place_and_bounded() {
    let mut s = ready();
    let entry = |id: &str, status: TaskStatus| TaskEntry {
        id: id.into(),
        worker: Some("w".into()),
        action: Some("run_agent".into()),
        status,
        at: 1,
    };
    s.push_task(entry("t1", TaskStatus::Running));
    s.push_task(entry("t1", TaskStatus::Done));
    assert_eq!(s.tasks.len(), 1);
    assert_eq!(s.tasks[0].status, TaskStatus::Done);
    for i in 0..SIDEBAR_CAP + 5 {
        s.push_task(entry(&format!("x{i}"), TaskStatus::Running));
    }
    assert_eq!(s.tasks.len(), SIDEBAR_CAP);
}

#[test]
fn memory_entries_are_bounded() {
    let mut s = ready();
    for i in 0..SIDEBAR_CAP + 5 {
        s.push_memory(MemoryEntry::Behavior { agent: "a".into(), pattern: format!("p{i}") });
    }
    assert_eq!(s.memory.len(), SIDEBAR_CAP);
}

#[test]
fn long_texts_are_cut_with_an_ellipsis() {
    assert_eq!(truncate("abcdef", 3), "abc…");
    assert_eq!(truncate("äöü", 3), "äöü");
    assert_eq!(truncate("äöüß", 3), "äöü…");
}

#[test]
fn session_events_reach_the_sidebar() {
    let ev = MemoryEvent::SemanticSaved {
        id: 1,
        run_id: "r".into(),
        scope: "insight".into(),
        summary: "s".into(),
    };
    assert!(!should_drop_bus_event(&ev));
    assert!(matches!(sidebar_entry(&ev, 7), Some(SidebarEvent::Memory(_))));
    assert_eq!(render_bus_event(&ev), "");
    assert_eq!(
        render_bus_event(&MemoryEvent::MarkerFailed {
            agent: "ranking".into(),
            op: "save".into(),
            error: "no scope".into(),
        }),
        "! marker save from ranking: no scope"
    );
    let mut s = ready();
    reduce(AgentToUi::SupervisorEvent(ev), &mut s, 7);
    assert_eq!(s.memory.len(), 1);
}

#[test]
fn a_session_that_ends_stops_running() {
    let mut s = ready();
    reduce(AgentToUi::SupervisorStarted { session_id: "sess-1".into() }, &mut s, 5);
    reduce(
        AgentToUi::SupervisorFinished { reason: "ok".into(), session_id: "sess-1".into() },
        &mut s,
        9,
    );
    assert!(!s.supervisor_running);
    assert!(!s.supervisor_stoppable);
    reduce(AgentToUi::SupervisorFailed { error: "no client".into() }, &mut s, 9);
    assert!(matches!(s.log.last(), Some(ChatMsg::System(t)) if t.contains("no client")));
}
