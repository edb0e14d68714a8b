use co_scientist::agents::AGENT_COUNT;
use co_scientist::tui::app::{
    AppState, Busy, ChatMsg, Focus, MemoryEntry, TaskEntry, TaskStatus,
};
use co_scientist::tui::keys::ChatMetrics;
use co_scientist::tui::theme::{bold, fg, italic, plain, styled, Color, Span};
use co_scientist::tui::ui::{
    agents_lines, blanks, border_style, build_footer_left, build_footer_right, busy_frame, chat_title,
    compose_answer, compute_chat_metrics, focus_label, footer_line, help_area, help_lines,
    input_cursor, input_line, memory_lines, metrics_from, mini_bar, panel_title, pick_chat_scroll,
    publish_metrics, quiet_frame, render_chat_lines, render_memory_line, render_task_line,
    role_one_liner, screen, short_id, show_args, shows_agents, status_line, tasks_lines, title_style,
    too_small_lines, Area,
    Screen, MIN_HEIGHT, MIN_WIDTH, WIDE,
};

fn ready() -> AppState {
    let mut s = AppState::new("run-1234567890".into());
    s.show_splash = false;
    s
}

fn text(line: &[Span]) -> String {
    line.iter().map(|s| s.text.as_str()).collect()
}

fn texts(lines: &[Vec<Span>]) -> Vec<String> {
    lines.iter().map(|l| text(l)).collect()
}

fn task(id: &str, worker: Option<&str>, action: Option<&str>, status: TaskStatus) -> TaskEntry {
    TaskEntry {
        id: id.into(),
        worker: worker.map(|w| w.to_string()),
        at: 1,
        action: action.map(|a| a.to_string()),
        status,
    }
}

#[test]
fn a_small_terminal_hides_everything_else() {
    let mut s = AppState::new("r".into());
    s.show_help = true;
    assert_eq!(screen(MIN_WIDTH - 1, MIN_HEIGHT, &s), Screen::TooSmall);
    assert_eq!(screen(MIN_WIDTH, MIN_HEIGHT - 1, &s), Screen::TooSmall);
    assert_eq!(screen(MIN_WIDTH, MIN_HEIGHT, &s), Screen::Help);
    s.show_help = false;
    assert_eq!(screen(MIN_WIDTH, MIN_HEIGHT, &s), Screen::Splash);
    s.show_splash = false;
    assert_eq!(screen(MIN_WIDTH, MIN_HEIGHT, &s), Screen::Main);
}

#[test]
fn agents_have_a_column_on_wide_terminals() {
    assert!(!shows_agents(WIDE - 1));
    assert!(shows_agents(WIDE));
}

#[test]
fn the_small_screen_names_both_sizes() {
    let mut s = ready();
    let lines = texts(&too_small_lines(40, 12, &s));
    assert_eq!(
        lines,
        vec![
            "",
            "terminal too small: 40×12 (need 60×20)",
            "",
            "resize the window and the UI will recover.",
            "",
        ]
    );
    s.model = "sonnet".into();
    let lines = texts(&too_small_lines(40, 12, &s));
    assert_eq!(lines.last().unwrap(), "model · sonnet");
}

#[test]
fn help_stands_in_the_middle() {
    let a = help_area(Area { x: 0, y: 0, width: 120, height: 40 });
    assert_eq!(a, Area { x: 24, y: 9, width: 72, height: 22 });
    let a = help_area(Area { x: 2, y: 1, width: 60, height: 20 });
    assert_eq!(a, Area { x: 6, y: 3, width: 52, height: 16 });
    let a = help_area(Area { x: 0, y: 0, width: 3, height: 2 });
    assert_eq!((a.width, a.height), (0, 0));
}

#[test]
fn help_lists_the_keys_by_group() {
    let lines = texts(&help_lines());
    assert_eq!(lines[0], "always");
    assert_eq!(lines[1], format!("  {:<18}  cycle focus", "Tab / Shift+Tab"));
    assert_eq!(lines[2], format!("  {:<18}  scroll chat / sidebar", "↑/↓ or j/k"));
    assert!(lines.iter().any(|l| l == "slash commands"));
    assert_eq!(lines.last().unwrap(), "");
    assert_eq!(lines.len(), 24);
    assert_eq!(
        lines[22],
        format!("  {:<18}  load chat-log fixture showing every style", "/test")
    );
}

#[test]
fn spinners_turn() {
    assert_eq!(busy_frame(0), "⠋");
    assert_eq!(busy_frame(9), "⠏");
    assert_eq!(quiet_frame(3), "✦");
    assert_eq!(quiet_frame(6), "✧");
    assert_eq!(quiet_frame(7), "·");
}

#[test]
fn ids_are_cut_to_eight_bytes() {
    assert_eq!(short_id("0123456789"), "01234567");
    assert_eq!(short_id("01234567"), "01234567");
    assert_eq!(short_id("abc"), "abc");
    assert_eq!(short_id("äöüäö"), "äöüä");
    assert_eq!(short_id("abcdefgü"), "abcdefg");
}

#[test]
fn labels() {
    assert_eq!(role_one_liner("ranking"), "pairwise ELO");
    assert_eq!(role_one_liner("experiment"), "");
    assert_eq!(focus_label(Focus::SidebarTasks), "tasks");
    assert_eq!(focus_label(Focus::Agents), "agents");
    assert_eq!(panel_title("agents", Some(3)), " agents · 3 ");
    assert_eq!(panel_title("agents", Some(0)), " agents ");
    assert_eq!(panel_title("tasks", None), " tasks ");
}

#[test]
fn bars_fill_by_tenths() {
    assert_eq!(mini_bar(0, 20), "[░░░░░░░░░░]");
    assert_eq!(mini_bar(5, 20), "[██░░░░░░░░]");
    assert_eq!(mini_bar(19, 20), "[█████████░]");
    assert_eq!(mini_bar(20, 20), "[██████████]");
    assert_eq!(mini_bar(99, 20), "[██████████]");
    assert_eq!(mini_bar(3, 0), "[░░░░░░░░░░]");
    assert_eq!(mini_bar(1, usize::MAX), "[░░░░░░░░░░]");
}

#[test]
fn the_status_names_run_agent_and_activity() {
    let mut s = ready();
    assert_eq!(
        text(&status_line(&s)),
        "co_scientist  ·  run-1234  ·  supervisor  ·  idle"
    );
    s.model = "opus".into();
    s.busy = Busy::Running;
    s.tick = 11;
    assert_eq!(
        text(&status_line(&s)),
        "co_scientist  ·  opus  ·  run-1234  ·  supervisor  ·  ✦ running"
    );
    assert_eq!(status_line(&s).last().unwrap().style, fg(Color::Warning));
}

#[test]
fn agents_show_roles_where_there_is_room() {
    let mut s = ready();
    s.agent_idx = 1;
    let short = texts(&agents_lines(&s, AGENT_COUNT as u16 + 1));
    assert_eq!(short.len(), 2 * AGENT_COUNT);
    assert_eq!(short[0], "   supervisor");
    assert_eq!(short[2], " › generation");
    let tall = texts(&agents_lines(&s, AGENT_COUNT as u16 + 2));
    assert_eq!(tall.len(), 3 * AGENT_COUNT);
    assert_eq!(tall[4], "   novel hypotheses");
}

#[test]
fn metrics_count_wrapped_rows() {
    let m = metrics_from(&vec![0, 10, 11, 30], 10, 3);
    assert_eq!((m.total, m.visible_h, m.max_scroll), (7, 3, 4));
    let m = metrics_from(&vec![4], 0, 0);
    assert_eq!((m.total, m.max_scroll), (4, 4));
    let m = metrics_from(&vec![], 10, 3);
    assert_eq!((m.total, m.max_scroll), (0, 0));
}

#[test]
fn wide_characters_take_two_columns() {
    let lines = vec![
        vec![styled("研究者", plain()), styled("ab", plain())],
        vec![styled("abcdefgh", plain())],
        vec![styled("e\u{301}", plain())],
    ];
    let m = compute_chat_metrics(&lines, 6, 1);
    assert_eq!(m.total, 2 + 2 + 1);
    let m = compute_chat_metrics(&lines, 8, 1);
    assert_eq!(m.total, 3);
    assert_eq!(m.max_scroll, 2);
}

#[test]
fn the_scroll_follows_the_tail_or_is_brought_back() {
    let mut s = ready();
    let m = ChatMetrics { total: 50, visible_h: 10, max_scroll: 40 };
    assert_eq!(pick_chat_scroll(&s, m), 40);
    s.follow_tail = false;
    s.chat_scroll = 7;
    assert_eq!(pick_chat_scroll(&s, m), 7);
    s.chat_scroll = 700;
    assert_eq!(pick_chat_scroll(&s, m), 40);
    publish_metrics(&mut s, m);
    assert_eq!((s.chat_max_scroll, s.chat_visible_h), (40, 10));
}

#[test]
fn the_chat_title_counts_a_session() {
    let mut s = ready();
    assert_eq!(chat_title(&s, 99), " chat ");
    s.supervisor_running = true;
    s.tasks_done = 4;
    s.tasks_failed = 1;
    assert_eq!(chat_title(&s, 99), " chat · sup [██░░░░░░░░] 4✓ 1✗ 0s ");
    s.supervisor_started_at = Some(1_000);
    assert_eq!(chat_title(&s, 13_999), " chat · sup [██░░░░░░░░] 4✓ 1✗ 12s ");
}

#[test]
fn arguments_are_shown_in_compact_form() {
    assert_eq!(show_args("{ }", Some("{}".into())), "{}");
    assert_eq!(show_args("no json", None), "no json");
}

#[test]
fn every_kind_of_entry_has_its_marker() {
    let mut s = ready();
    s.log.push(ChatMsg::User("hi".into()));
    s.log.push(ChatMsg::ToolCall {
        agent: "ranking".into(),
        tool: "save_semantic".into(),
        args: "{ \"b\" : [1, 2],\n  \"a\": 1 }".into(),
    });
    s.log.push(ChatMsg::Assistant { agent: "ranking".into(), text: "one\n\n- two".into() });
    s.log.push(ChatMsg::System("done".into()));
    assert_eq!(
        texts(&render_chat_lines(&s)),
        vec![
            "",
            "› you",
            "   hi",
            "",
            "╴ save_semantic · ranking",
            "   {\"a\":1,\"b\":[1,2]}",
            "",
            "✓ rankingone",
            "› two",
            "",
            " · done",
        ]
    );
}

#[test]
fn an_entry_under_way_spins() {
    let mut s = ready();
    s.log.push(ChatMsg::Assistant { agent: "ranking".into(), text: "".into() });
    s.streaming_assistant = Some(0);
    s.tick = 12;
    let lines = render_chat_lines(&s);
    assert_eq!(texts(&lines), vec!["", "⠹ ranking…"]);
    assert_eq!(lines[1][0].style, fg(Color::Teal));
}

#[test]
fn an_answer_without_lines_shows_an_ellipsis() {
    let r = compose_answer(vec![styled("✓", fg(Color::Success))], vec![]);
    assert_eq!(texts(&r), vec!["", "✓", " …"]);
    let r = compose_answer(
        vec![styled("✓", fg(Color::Success))],
        vec![vec![styled("   ", plain()), styled("", plain()), styled("a", plain())]],
    );
    assert_eq!(texts(&r), vec!["", "✓a"]);
    assert_eq!(r[1].len(), 2);
}

#[test]
fn the_input_says_why_it_is_closed() {
    let mut s = ready();
    s.input = "häl".into();
    assert_eq!(text(&input_line(&s)), " › häl");
    assert_eq!(input_cursor(&s), Some(6));
    s.busy = Busy::Running;
    assert_eq!(text(&input_line(&s)), " › agent thinking…");
    assert_eq!(input_cursor(&s), None);
    s.supervisor_running = true;
    s.tasks_done = 2;
    assert_eq!(
        text(&input_line(&s)),
        "   supervisor running · 2 done / 0 failed — /stop to end"
    );
    assert_eq!(input_cursor(&s), None);
    let mut s = ready();
    s.focus = Focus::Chat;
    assert_eq!(input_cursor(&s), None);
}

#[test]
fn the_footer_fills_its_row() {
    let mut s = ready();
    assert!(text(&build_footer_left(&s)).starts_with("focus input  ·  Enter send  / command"));
    assert!(text(&build_footer_left(&s)).ends_with("? help  Ctrl-N new  Ctrl-L clear  Ctrl-C quit"));
    assert_eq!(text(&build_footer_right(&s)), "·  co_scientist");
    assert_eq!(text(&footer_line(&s, 160)).chars().count(), 160);
    s.focus = Focus::Chat;
    assert!(text(&build_footer_left(&s)).contains("G/g end/beg  f follow"));
    s.busy = Busy::Running;
    let right = build_footer_right(&s);
    assert_eq!(right[0].text, "⠋");
    assert_eq!(right[0].style, fg(Color::Teal));
    s.supervisor_running = true;
    assert_eq!(build_footer_right(&s)[0].style, fg(Color::Success));
    let narrow = text(&footer_line(&s, 10));
    assert_eq!(
        narrow,
        text(&build_footer_left(&s)) + &text(&build_footer_right(&s))
    );
    assert_eq!(blanks(3), "   ");
}

#[test]
fn tasks_are_listed_newest_first() {
    let mut s = ready();
    assert_eq!(texts(&tasks_lines(&s, 5)), vec![" (idle)"]);
    s.supervisor_running = true;
    assert_eq!(texts(&tasks_lines(&s, 5)), vec![" waiting…"]);
    s.tasks.push_back(task("1", Some("worker-12345"), Some("run_agent"), TaskStatus::Done));
    s.tasks.push_back(task("2", None, None, TaskStatus::Failed));
    s.tasks.push_back(task("3", Some("w"), Some("x"), TaskStatus::Running));
    assert_eq!(texts(&tasks_lines(&s, 2)), vec!["› w x", "✗ ? "]);
    assert_eq!(texts(&tasks_lines(&s, 9)).len(), 3);
    let line = render_task_line(&s.tasks[0]);
    assert_eq!(text(&line), "✓ worker-1 run_agent");
    assert_eq!(line[0].style, fg(Color::Success));
}

#[test]
fn memory_is_listed_newest_first() {
    let mut s = ready();
    assert_eq!(texts(&memory_lines(&s, 5)), vec![" (none yet)"]);
    s.memory.push_back(MemoryEntry::Semantic { scope: "hyp".into(), summary: "carbon".into() });
    s.memory.push_back(MemoryEntry::Behavior { agent: "ranking".into(), pattern: "ties".into() });
    assert_eq!(texts(&memory_lines(&s, 5)), vec!["· ranking: ties", "+ [hyp] carbon"]);
    assert_eq!(texts(&memory_lines(&s, 1)), vec!["· ranking: ties"]);
    assert_eq!(render_memory_line(&s.memory[1])[2].style, italic(Color::Muted));
}

#[test]
fn the_focused_panel_is_accented() {
    assert_eq!(border_style(true), fg(Color::Teal));
    assert_eq!(border_style(false), fg(Color::Muted));
    assert_eq!(title_style(true), bold(Color::Teal));
    assert_eq!(title_style(false), bold(Color::Fg));
    assert_eq!(Color::Teal.rgb(), (0x5f, 0xb3, 0xb3));
}
