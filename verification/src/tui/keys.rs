//! What each key does.
//!
//! A key changes the state and may ask for something outside it: to quit, to
//! send a request to the agent task, or to tell the running session to stop.

use vstd::prelude::*;

use super::app::{
    agent_moved, agent_name, focus_moved, logged, AppState, AppView, Busy, ChatMsg, ChatView, Focus,
};
use super::ipc::{RequestView, UiToAgent};
use crate::text::{chars_of, is_white_space, slice_of, str_eq, trim, trimmed, white_space};

verus! {

/// A key of the keyboard.
#[derive(Clone, Copy, Debug, PartialEq, Eq, Structural)]
pub enum KeyCode {
    Tab,
    BackTab,
    Enter,
    Backspace,
    Esc,
    Up,
    Down,
    PageUp,
    PageDown,
    Home,
    End,
    Char(char),
    Other,
}

/// A key with the modifiers that were held.
#[derive(Clone, Copy, Debug, PartialEq, Eq, Structural)]
pub struct KeyEvent {
    pub code: KeyCode,
    pub ctrl: bool,
    pub alt: bool,
}

/// How much of the chat there is and how much of it is seen.
#[derive(Clone, Copy, Debug, PartialEq, Eq, Structural)]
pub struct ChatMetrics {
    /// How many rows the wrapped chat takes.
    pub total: usize,
    /// How many rows of it are seen.
    pub visible_h: usize,
    /// The highest scroll position.
    pub max_scroll: usize,
}

/// What a key asks for outside the state.
#[derive(Debug)]
pub enum KeyAction {
    Nothing,
    Quit,
    /// Send a request to the agent task.
    Send(UiToAgent),
    /// Tell the running session to stop.
    StopSession,
}

/// What a [`KeyAction`] holds.
pub enum ActionView {
    Nothing,
    Quit,
    Send(RequestView),
    StopSession,
}

impl View for KeyAction {
    type V = ActionView;

    open spec fn view(&self) -> ActionView {
        match *self {
            KeyAction::Nothing => ActionView::Nothing,
            KeyAction::Quit => ActionView::Quit,
            KeyAction::Send(r) => ActionView::Send(r@),
            KeyAction::StopSession => ActionView::StopSession,
        }
    }
}

// ----------------------------------------------------------------- commands

/// An answer that holds every piece of markup.
pub const FIXTURE_TEXT: &'static str =
    "# Test fixture\n\nThis entry covers the full markdown surface: `inline code`, **bold**, *italic*, ~~strike~~.\n\n## Bullets\n\n- alpha\n- beta\n- gamma\n\n## Numbered\n\n1. one\n2. two\n\n## Code fence\n\n```rust\nfn main() {\n    println!(\"hi\");\n}\n```\n\n## Quote\n\n> blockquote line\n\nEnd of fixture.";

/// The arguments of a tool call that shows how tool calls look.
pub const FIXTURE_ARGS: &'static str =
    "{\"scope\":\"hyp_3\",\"summary\":\"porous carbon cathode with hierarchical pores\"}";

/// Where the first white space at or after `from` stands; the length where
/// there is none.
pub open spec fn first_space(s: Seq<char>, from: int) -> int
    decreases s.len() - from,
{
    if from < 0 || from >= s.len() {
        s.len() as int
    } else if white_space(s[from]) {
        from
    } else {
        first_space(s, from + 1)
    }
}

/// The name of a command: what stands before the first white space.
pub open spec fn command_name(cmd: Seq<char>) -> Seq<char> {
    cmd.take(first_space(cmd, 0))
}

/// The argument of a command: what follows, without white space around it.
pub open spec fn command_arg(cmd: Seq<char>) -> Seq<char> {
    let i = first_space(cmd, 0);
    if i < cmd.len() {
        trimmed(cmd.skip(i + 1))
    } else {
        Seq::empty()
    }
}

/// Name and argument of a command.
pub fn split_command(cmd: &str) -> (r: (String, String))
    ensures
        r.0@ == command_name(cmd@),
        r.1@ == command_arg(cmd@),
{
    let v = chars_of(cmd);
    let mut i: usize = 0;
    while i < v.len() && !is_white_space(v[i])
        invariant
            i <= v@.len(),
            v@ == cmd@,
            first_space(cmd@, 0) == first_space(cmd@, i as int),
        decreases v.len() - i,
    {
        i += 1;
    }
    let name = slice_of(&v, 0, i);
    proof {
        assert(v@.subrange(0, i as int) =~= cmd@.take(i as int));
    }
    if i < v.len() {
        let rest = slice_of(&v, i + 1, v.len());
        proof {
            assert(v@.subrange(i + 1, v@.len() as int) =~= cmd@.skip(i + 1));
        }
        (name, trim(rest.as_str()))
    } else {
        let none = String::new();
        proof {
            assert(none@ =~= Seq::empty());
        }
        (name, none)
    }
}

/// The log with one entry of every look.
pub open spec fn fixture_loaded(s: AppView) -> AppView {
    let supervisor = "supervisor"@;
    let s = logged(s, ChatView::User("/test fixture"@));
    let s = logged(s, ChatView::Assistant { agent: supervisor, text: FIXTURE_TEXT@ });
    let s = logged(
        s,
        ChatView::ToolCall { agent: supervisor, tool: "save_semantic"@, args: FIXTURE_ARGS@ },
    );
    let s = logged(
        s,
        ChatView::Assistant { agent: supervisor, text: "follow-up after the tool call"@ },
    );
    let s = logged(s, ChatView::System("test fixture loaded"@));
    AppView { follow_tail: true, ..s }
}

/// What a command does.
pub open spec fn commanded(s: AppView, name: Seq<char>, arg: Seq<char>) -> (AppView, ActionView) {
    if name == "start"@ {
        if arg.len() == 0 {
            (logged(s, ChatView::System("usage: /start <goal>"@)), ActionView::Nothing)
        } else if s.supervisor_running {
            (
                logged(s, ChatView::System("session already running; /stop first"@)),
                ActionView::Nothing,
            )
        } else {
            (
                logged(s, ChatView::User("/start "@ + arg)),
                ActionView::Send(RequestView::StartSupervisor { goal: arg }),
            )
        }
    } else if name == "stop"@ {
        if !s.supervisor_running {
            (logged(s, ChatView::System("no session running"@)), ActionView::Nothing)
        } else if s.supervisor_stoppable {
            (
                logged(s, ChatView::System("stop signal sent; draining…"@)),
                ActionView::StopSession,
            )
        } else {
            (s, ActionView::Nothing)
        }
    } else if name == "help"@ {
        (AppView { show_help: true, ..s }, ActionView::Nothing)
    } else if name == "test"@ {
        (fixture_loaded(s), ActionView::Nothing)
    } else {
        (
            logged(s, ChatView::System("unknown command: /"@ + name + " (try /help)"@)),
            ActionView::Nothing,
        )
    }
}

/// What sending the input does. What cannot be sent now stays in the input.
pub open spec fn submitted(s: AppView) -> (AppView, ActionView) {
    let raw = s.input;
    let text = trimmed(raw);
    let emptied = AppView { input: Seq::empty(), ..s };
    if text.len() == 0 {
        (emptied, ActionView::Nothing)
    } else if text[0] == '/' {
        commanded(emptied, command_name(text.skip(1)), command_arg(text.skip(1)))
    } else if s.supervisor_running {
        (
            logged(s, ChatView::System("supervisor running; /stop to end before chatting"@)),
            ActionView::Nothing,
        )
    } else if s.busy == Busy::Idle {
        (
            AppView {
                busy: Busy::Running,
                status: "queued"@,
                follow_tail: true,
                ..logged(emptied, ChatView::User(raw))
            },
            ActionView::Send(RequestView::Turn { agent_name: agent_name(s), user_text: raw }),
        )
    } else {
        (s, ActionView::Nothing)
    }
}

/// What a command does.
fn run_command(s: &mut AppState, name: &str, arg: String) -> (r: KeyAction)
    ensures
        (final(s)@, r@) == commanded(old(s)@, name@, arg@),
{
    if str_eq(name, "start") {
        if arg.as_str().is_empty() {
            s.push_log(ChatMsg::System("usage: /start <goal>".to_owned()));
            KeyAction::Nothing
        } else if s.supervisor_running {
            s.push_log(ChatMsg::System("session already running; /stop first".to_owned()));
            KeyAction::Nothing
        } else {
            let mut line = "/start ".to_owned();
            line.append(arg.as_str());
            s.push_log(ChatMsg::User(line));
            KeyAction::Send(UiToAgent::StartSupervisor { goal: arg })
        }
    } else if str_eq(name, "stop") {
        if !s.supervisor_running {
            s.push_log(ChatMsg::System("no session running".to_owned()));
            KeyAction::Nothing
        } else if s.supervisor_stoppable {
            s.push_log(ChatMsg::System("stop signal sent; draining…".to_owned()));
            KeyAction::StopSession
        } else {
            KeyAction::Nothing
        }
    } else if str_eq(name, "help") {
        s.show_help = true;
        KeyAction::Nothing
    } else if str_eq(name, "test") {
        s.push_log(ChatMsg::User("/test fixture".to_owned()));
        s.push_log(
            ChatMsg::Assistant { agent: "supervisor".to_owned(), text: FIXTURE_TEXT.to_owned() },
        );
        s.push_log(
            ChatMsg::ToolCall {
                agent: "supervisor".to_owned(),
                tool: "save_semantic".to_owned(),
                args: FIXTURE_ARGS.to_owned(),
            },
        );
        s.push_log(
            ChatMsg::Assistant {
                agent: "supervisor".to_owned(),
                text: "follow-up after the tool call".to_owned(),
            },
        );
        s.push_log(ChatMsg::System("test fixture loaded".to_owned()));
        s.follow_tail = true;
        KeyAction::Nothing
    } else {
        let mut line = "unknown command: /".to_owned();
        line.append(name);
        line.append(" (try /help)");
        s.push_log(ChatMsg::System(line));
        KeyAction::Nothing
    }
}

/// What sending the input does.
fn submit(s: &mut AppState) -> (r: KeyAction)
    ensures
        (final(s)@, r@) == submitted(old(s)@),
{
    let raw = s.input.clone();
    let text = trim(raw.as_str());
    let v = chars_of(text.as_str());
    if v.len() == 0 {
        s.input = String::new();
        proof {
            assert(s@ =~= submitted(old(s)@).0);
        }
        return KeyAction::Nothing;
    }
    if v[0] == '/' {
        let cmd = slice_of(&v, 1, v.len());
        proof {
            assert(v@.subrange(1, v@.len() as int) =~= text@.skip(1));
        }
        let (name, arg) = split_command(cmd.as_str());
        s.input = String::new();
        proof {
            assert(s@ =~= (AppView { input: Seq::empty(), ..old(s)@ }));
        }
        return run_command(s, name.as_str(), arg);
    }
    if s.supervisor_running {
        s.push_log(
            ChatMsg::System("supervisor running; /stop to end before chatting".to_owned()),
        );
        KeyAction::Nothing
    } else if s.busy == Busy::Idle {
        let agent = s.current_agent_name().to_owned();
        s.input = String::new();
        proof {
            assert(s@ =~= (AppView { input: Seq::empty(), ..old(s)@ }));
        }
        s.push_log(ChatMsg::User(raw.clone()));
        s.busy = Busy::Running;
        s.status = "queued".to_owned();
        s.follow_tail = true;
        KeyAction::Send(UiToAgent::Turn { agent_name: agent, user_text: raw })
    } else {
        KeyAction::Nothing
    }
}

// -------------------------------------------------------------------- input

/// What a key does while the input has the focus.
pub open spec fn input_key(s: AppView, key: KeyEvent) -> (AppView, ActionView) {
    match key.code {
        KeyCode::Tab => (AppView { focus: focus_moved(s.focus, 1), ..s }, ActionView::Nothing),
        KeyCode::BackTab => (AppView { focus: focus_moved(s.focus, -1), ..s }, ActionView::Nothing),
        KeyCode::Enter => submitted(s),
        KeyCode::Backspace => (
            AppView {
                input: if s.input.len() > 0 {
                    s.input.drop_last()
                } else {
                    s.input
                },
                ..s
            },
            ActionView::Nothing,
        ),
        KeyCode::Esc => if s.input.len() == 0 {
            (s, ActionView::Quit)
        } else {
            (AppView { input: Seq::empty(), ..s }, ActionView::Nothing)
        },
        KeyCode::Char(c) => if key.ctrl || key.alt {
            (s, ActionView::Nothing)
        } else {
            (AppView { input: s.input.push(c), ..s }, ActionView::Nothing)
        },
        _ => (s, ActionView::Nothing),
    }
}

/// What a key does while the input has the focus.
pub fn handle_key_input(s: &mut AppState, key: KeyEvent) -> (r: KeyAction)
    ensures
        (final(s)@, r@) == input_key(old(s)@, key),
{
    match key.code {
        KeyCode::Tab => {
            s.cycle_focus(1);
            KeyAction::Nothing
        },
        KeyCode::BackTab => {
            s.cycle_focus(-1);
            KeyAction::Nothing
        },
        KeyCode::Enter => submit(s),
        KeyCode::Backspace => {
            let v = chars_of(s.input.as_str());
            if v.len() > 0 {
                s.input = slice_of(&v, 0, v.len() - 1);
                proof {
                    assert(s@ =~= input_key(old(s)@, key).0);
                }
            }
            KeyAction::Nothing
        },
        KeyCode::Esc => {
            if s.input.as_str().is_empty() {
                KeyAction::Quit
            } else {
                s.input = String::new();
                proof {
                    assert(s@ =~= input_key(old(s)@, key).0);
                }
                KeyAction::Nothing
            }
        },
        KeyCode::Char(c) => {
            if !key.ctrl && !key.alt {
                s.input.push(c);
            }
            KeyAction::Nothing
        },
        _ => KeyAction::Nothing,
    }
}

// --------------------------------------------------------------------- chat

/// A page: what is seen, less one row, but one row at least.
pub open spec fn page(m: ChatMetrics) -> int {
    if m.visible_h <= 1 {
        1
    } else {
        m.visible_h - 1
    }
}

/// The state with the chat no longer stuck to its end, where it was, and the
/// position anchored there.
pub open spec fn tail_left(s: AppView, max: u16) -> AppView {
    if s.follow_tail {
        AppView { chat_scroll: max, follow_tail: false, ..s }
    } else {
        s
    }
}

/// The position `rows` further down, but not below the end.
pub open spec fn scrolled_down(s: AppView, rows: int, max: u16) -> AppView {
    let t = tail_left(s, max);
    AppView {
        chat_scroll: if t.chat_scroll + rows <= max {
            (t.chat_scroll + rows) as u16
        } else {
            max
        },
        ..t
    }
}

/// The position `rows` further up, but not above the top.
pub open spec fn scrolled_up(s: AppView, rows: int, max: u16) -> AppView {
    let t = tail_left(s, max);
    AppView {
        chat_scroll: if t.chat_scroll >= rows {
            (t.chat_scroll - rows) as u16
        } else {
            0
        },
        ..t
    }
}

/// What a key does while the chat has the focus.
pub open spec fn chat_key(s: AppView, key: KeyEvent, m: ChatMetrics) -> AppView {
    let max = m.max_scroll as u16;
    match key.code {
        KeyCode::Tab => AppView { focus: focus_moved(s.focus, 1), ..s },
        KeyCode::BackTab => AppView { focus: focus_moved(s.focus, -1), ..s },
        KeyCode::Char('j') | KeyCode::Down => scrolled_down(s, 1, max),
        KeyCode::Char('k') | KeyCode::Up => scrolled_up(s, 1, max),
        KeyCode::PageDown => scrolled_down(s, page(m), max),
        KeyCode::PageUp => scrolled_up(s, page(m), max),
        KeyCode::Char('G') | KeyCode::End => AppView { follow_tail: true, chat_scroll: max, ..s },
        KeyCode::Char('g') | KeyCode::Home => AppView { follow_tail: false, chat_scroll: 0, ..s },
        KeyCode::Char('f') => if s.follow_tail {
            AppView { follow_tail: false, ..s }
        } else {
            AppView { follow_tail: true, chat_scroll: max, ..s }
        },
        _ => s,
    }
}

/// Moves down by `rows`, at most to the end.
fn scroll_down(s: &mut AppState, rows: usize, max: u16)
    ensures
        final(s)@ == scrolled_down(old(s)@, rows as int, max),
{
    if s.follow_tail {
        s.chat_scroll = max;
        s.follow_tail = false;
    }
    if s.chat_scroll <= max && rows <= (max - s.chat_scroll) as usize {
        s.chat_scroll = s.chat_scroll + rows as u16;
    } else {
        s.chat_scroll = max;
    }
}

/// Moves up by `rows`, at most to the top.
fn scroll_up(s: &mut AppState, rows: usize, max: u16)
    ensures
        final(s)@ == scrolled_up(old(s)@, rows as int, max),
{
    if s.follow_tail {
        s.chat_scroll = max;
        s.follow_tail = false;
    }
    if rows <= s.chat_scroll as usize {
        s.chat_scroll = s.chat_scroll - rows as u16;
    } else {
        s.chat_scroll = 0;
    }
}

/// What a key does while the chat has the focus.
pub fn handle_key_chat(s: &mut AppState, key: KeyEvent, metrics: &ChatMetrics)
    ensures
        final(s)@ == chat_key(old(s)@, key, *metrics),
{
    let rows: usize = if metrics.visible_h <= 1 {
        1
    } else {
        metrics.visible_h - 1
    };
    let max: u16 = metrics.max_scroll as u16;
    match key.code {
        KeyCode::Tab => s.cycle_focus(1),
        KeyCode::BackTab => s.cycle_focus(-1),
        KeyCode::Char('j') | KeyCode::Down => scroll_down(s, 1, max),
        KeyCode::Char('k') | KeyCode::Up => scroll_up(s, 1, max),
        KeyCode::PageDown => scroll_down(s, rows, max),
        KeyCode::PageUp => scroll_up(s, rows, max),
        KeyCode::Char('G') | KeyCode::End => {
            s.follow_tail = true;
            s.chat_scroll = max;
        },
        KeyCode::Char('g') | KeyCode::Home => {
            s.follow_tail = false;
            s.chat_scroll = 0;
        },
        KeyCode::Char('f') => {
            s.follow_tail = !s.follow_tail;
            if s.follow_tail {
                s.chat_scroll = max;
            }
        },
        _ => {},
    }
}

// ------------------------------------------------------------- other panels

/// What a key does while the list of agents has the focus.
pub open spec fn agents_key(s: AppView, key: KeyEvent) -> AppView {
    match key.code {
        KeyCode::Tab => AppView { focus: focus_moved(s.focus, 1), ..s },
        KeyCode::BackTab => AppView { focus: focus_moved(s.focus, -1), ..s },
        KeyCode::Char('j') | KeyCode::Down => AppView {
            agent_idx: agent_moved(s.agent_idx, 1),
            ..s
        },
        KeyCode::Char('k') | KeyCode::Up => AppView {
            agent_idx: agent_moved(s.agent_idx, -1),
            ..s
        },
        _ => s,
    }
}

/// What a key does while the list of agents has the focus.
pub fn handle_key_agents(s: &mut AppState, key: KeyEvent)
    ensures
        final(s)@ == agents_key(old(s)@, key),
{
    match key.code {
        KeyCode::Tab => s.cycle_focus(1),
        KeyCode::BackTab => s.cycle_focus(-1),
        KeyCode::Char('j') | KeyCode::Down => s.cycle_agent(1),
        KeyCode::Char('k') | KeyCode::Up => s.cycle_agent(-1),
        _ => {},
    }
}

/// What a key does while a sidebar has the focus.
pub open spec fn sidebar_key(s: AppView, key: KeyEvent) -> AppView {
    match key.code {
        KeyCode::Tab => AppView { focus: focus_moved(s.focus, 1), ..s },
        KeyCode::BackTab => AppView { focus: focus_moved(s.focus, -1), ..s },
        KeyCode::Char('k') | KeyCode::Up => AppView {
            sidebar_selected: if s.sidebar_selected > 0 {
                (s.sidebar_selected - 1) as usize
            } else {
                0
            },
            ..s
        },
        KeyCode::Char('j') | KeyCode::Down => AppView {
            sidebar_selected: if s.sidebar_selected < usize::MAX {
                (s.sidebar_selected + 1) as usize
            } else {
                usize::MAX
            },
            ..s
        },
        _ => s,
    }
}

/// What a key does while a sidebar has the focus.
pub fn handle_key_sidebar(s: &mut AppState, key: KeyEvent)
    ensures
        final(s)@ == sidebar_key(old(s)@, key),
{
    match key.code {
        KeyCode::Tab => s.cycle_focus(1),
        KeyCode::BackTab => s.cycle_focus(-1),
        KeyCode::Char('k') | KeyCode::Up => {
            if s.sidebar_selected > 0 {
                s.sidebar_selected = s.sidebar_selected - 1;
            }
        },
        KeyCode::Char('j') | KeyCode::Down => {
            if s.sidebar_selected < usize::MAX {
                s.sidebar_selected = s.sidebar_selected + 1;
            }
        },
        _ => {},
    }
}

// ---------------------------------------------------------------- every key

/// What a key does. `fresh_id` names the run that a new run would get.
pub open spec fn key_step(
    s: AppView,
    key: KeyEvent,
    fresh_id: Seq<char>,
    m: ChatMetrics,
) -> (AppView, ActionView) {
    if key.ctrl && key.code == KeyCode::Char('c') {
        (s, ActionView::Quit)
    } else if s.show_help {
        (
            AppView {
                show_help: key.code != KeyCode::Esc && key.code != KeyCode::Char('?'),
                ..s
            },
            ActionView::Nothing,
        )
    } else if s.show_splash {
        (AppView { show_splash: false, ..s }, ActionView::Nothing)
    } else if key.code == KeyCode::Char('?') {
        (AppView { show_help: true, ..s }, ActionView::Nothing)
    } else if key.ctrl && key.code == KeyCode::Char('n') {
        (
            AppView {
                run_id: fresh_id,
                log: Seq::empty(),
                status: "new run"@,
                follow_tail: true,
                ..s
            },
            ActionView::Send(RequestView::Shutdown),
        )
    } else if key.ctrl && key.code == KeyCode::Char('l') {
        (
            AppView { log: Seq::empty(), status: "log cleared"@, follow_tail: true, ..s },
            ActionView::Nothing,
        )
    } else if key.ctrl && key.code == KeyCode::Char('p') {
        (AppView { show_profile: !s.show_profile, ..s }, ActionView::Nothing)
    } else {
        match s.focus {
            Focus::Input => input_key(s, key),
            Focus::Chat => (chat_key(s, key, m), ActionView::Nothing),
            Focus::Agents => (agents_key(s, key), ActionView::Nothing),
            Focus::SidebarTasks | Focus::SidebarMemory => (
                sidebar_key(s, key),
                ActionView::Nothing,
            ),
        }
    }
}

/// Whether a key is the character `c` with Ctrl held.
fn is_ctrl(key: KeyEvent, c: char) -> (r: bool)
    ensures
        r == (key.ctrl && key.code == KeyCode::Char(c)),
{
    match key.code {
        KeyCode::Char(k) => key.ctrl && k == c,
        _ => false,
    }
}

/// What a key does. `fresh_id` names the run that a new run would get.
pub fn handle_key(
    s: &mut AppState,
    key: KeyEvent,
    fresh_id: String,
    metrics: &ChatMetrics,
) -> (r: KeyAction)
    ensures
        (final(s)@, r@) == key_step(old(s)@, key, fresh_id@, *metrics),
{
    if is_ctrl(key, 'c') {
        return KeyAction::Quit;
    }
    if s.show_help {
        match key.code {
            KeyCode::Esc | KeyCode::Char('?') => {
                s.show_help = false;
            },
            _ => {},
        }
        return KeyAction::Nothing;
    }
    if s.show_splash {
        s.show_splash = false;
        return KeyAction::Nothing;
    }
    match key.code {
        KeyCode::Char('?') => {
            s.show_help = true;
            return KeyAction::Nothing;
        },
        _ => {},
    }
    if is_ctrl(key, 'n') {
        s.run_id = fresh_id;
        s.log.clear();
        s.status = "new run".to_owned();
        s.follow_tail = true;
        proof {
            assert(s@ =~= key_step(old(s)@, key, fresh_id@, *metrics).0);
        }
        return KeyAction::Send(UiToAgent::Shutdown);
    }
    if is_ctrl(key, 'l') {
        s.log.clear();
        s.status = "log cleared".to_owned();
        s.follow_tail = true;
        proof {
            assert(s@ =~= key_step(old(s)@, key, fresh_id@, *metrics).0);
        }
        return KeyAction::Nothing;
    }
    if is_ctrl(key, 'p') {
        s.show_profile = !s.show_profile;
        return KeyAction::Nothing;
    }
    match s.focus {
        Focus::Input => handle_key_input(s, key),
        Focus::Chat => {
            handle_key_chat(s, key, metrics);
            KeyAction::Nothing
        },
        Focus::Agents => {
            handle_key_agents(s, key);
            KeyAction::Nothing
        },
        Focus::SidebarTasks | Focus::SidebarMemory => {
            handle_key_sidebar(s, key);
            KeyAction::Nothing
        },
    }
}

/// One frame further: the frame counter goes on, and a chat that follows its end
/// is put there.
pub open spec fn ticked(s: AppView, m: ChatMetrics) -> AppView {
    AppView {
        tick: if s.tick == u64::MAX {
            0
        } else {
            (s.tick + 1) as u64
        },
        chat_scroll: if s.follow_tail {
            m.max_scroll as u16
        } else {
            s.chat_scroll
        },
        ..s
    }
}

/// One frame further.
pub fn on_tick(s: &mut AppState, metrics: &ChatMetrics)
    ensures
        final(s)@ == ticked(old(s)@, *metrics),
{
    s.tick = if s.tick == u64::MAX {
        0
    } else {
        s.tick + 1
    };
    if s.follow_tail {
        s.chat_scroll = metrics.max_scroll as u16;
    }
}

// --------------------------------------------------------------------- laws

/// No key of the chat moves a position that is within the chat out of it.
pub proof fn law_scroll_stays_within(s: AppView, key: KeyEvent, m: ChatMetrics)
    requires
        s.chat_scroll <= m.max_scroll as u16,
    ensures
        chat_key(s, key, m).chat_scroll <= m.max_scroll as u16,
{
}

/// Every key that moves down ends at or below where it began and every key that
/// moves up at or above, counted from the end where the chat followed it.
pub proof fn law_scroll_direction(s: AppView, rows: int, max: u16)
    requires
        0 <= rows,
        s.chat_scroll <= max,
    ensures
        scrolled_down(s, rows, max).chat_scroll >= tail_left(s, max).chat_scroll,
        scrolled_up(s, rows, max).chat_scroll <= tail_left(s, max).chat_scroll,
        !scrolled_down(s, rows, max).follow_tail,
        !scrolled_up(s, rows, max).follow_tail,
{
}

/// A page down from a place that has a page below it is undone by a page up.
pub proof fn law_pages_cancel(s: AppView, m: ChatMetrics)
    requires
        !s.follow_tail,
        s.chat_scroll + page(m) <= m.max_scroll as u16,
    ensures
        scrolled_up(
            scrolled_down(s, page(m), m.max_scroll as u16),
            page(m),
            m.max_scroll as u16,
        ) == s,
{
}

/// Ctrl-C quits from everywhere, and nothing else quits but Esc on an empty
/// input.
pub proof fn law_what_quits(s: AppView, key: KeyEvent, fresh_id: Seq<char>, m: ChatMetrics)
    ensures
        key_step(s, key, fresh_id, m).1 is Quit <==> {
            ||| key.ctrl && key.code == KeyCode::Char('c')
            ||| {
                &&& key.code == KeyCode::Esc && s.input.len() == 0 && s.focus == Focus::Input
                &&& !s.show_help && !s.show_splash
            }
        },
{
}

/// A turn is only asked for while nothing else runs, and then the front end
/// counts as busy, so that no second turn can be asked for.
pub proof fn law_one_turn_at_a_time(s: AppView, key: KeyEvent, fresh_id: Seq<char>, m: ChatMetrics)
    ensures
        key_step(s, key, fresh_id, m).1 matches ActionView::Send(RequestView::Turn { .. }) ==> {
            &&& s.busy == Busy::Idle && !s.supervisor_running
            &&& key_step(s, key, fresh_id, m).0.busy == Busy::Running
            &&& key_step(s, key, fresh_id, m).0.input.len() == 0
        },
{
}

/// A session is only asked for while none runs, and only a running one is told
/// to stop.
pub proof fn law_one_session_at_a_time(
    s: AppView,
    key: KeyEvent,
    fresh_id: Seq<char>,
    m: ChatMetrics,
)
    ensures
        key_step(s, key, fresh_id, m).1 matches ActionView::Send(
            RequestView::StartSupervisor { .. },
        ) ==> !s.supervisor_running,
        key_step(s, key, fresh_id, m).1 is StopSession ==> s.supervisor_running
            && s.supervisor_stoppable,
{
}

/// What the user typed is never lost by sending it at the wrong time: while a
/// turn or a session runs, a message stays in the input.
pub proof fn law_input_is_kept_while_busy(s: AppView)
    requires
        trimmed(s.input).len() > 0,
        trimmed(s.input)[0] != '/',
        s.supervisor_running || s.busy == Busy::Running,
    ensures
        submitted(s).0.input == s.input,
        submitted(s).1 is Nothing,
{
}

/// What is typed goes to the end of the input, a backspace takes the last character away
/// again, and Esc empties it; none of them sends anything.
pub proof fn law_typing_goes_to_the_input(s: AppView, c: char)
    ensures
        ({
            let typed = input_key(s, KeyEvent { code: KeyCode::Char(c), ctrl: false, alt: false });
            let back = input_key(
                typed.0,
                KeyEvent { code: KeyCode::Backspace, ctrl: false, alt: false },
            );
            let cleared = input_key(
                typed.0,
                KeyEvent { code: KeyCode::Esc, ctrl: false, alt: false },
            );
            &&& typed.0.input == s.input.push(c)
            &&& typed.0.log == s.log
            &&& typed.1 is Nothing
            &&& back.0 == s
            &&& back.1 is Nothing
            &&& cleared.0.input.len() == 0
            &&& cleared.1 is Nothing
        }),
{
    let typed = input_key(s, KeyEvent { code: KeyCode::Char(c), ctrl: false, alt: false });
    assert(typed.0.input.drop_last() =~= s.input);
    let back = input_key(typed.0, KeyEvent { code: KeyCode::Backspace, ctrl: false, alt: false });
    assert(back.0 =~= s);
}

/// A message that is sent while nothing runs becomes a turn of the active agent with just
/// that text, stands in the log as the user's, and leaves the input empty.
pub proof fn law_message_becomes_a_turn(s: AppView)
    requires
        s.input.len() > 0,
        !white_space(s.input[0]),
        !white_space(s.input.last()),
        s.input[0] != '/',
        !s.supervisor_running,
        s.busy == Busy::Idle,
        s.log.len() < super::app::LOG_CAP,
    ensures
        ({
            let (t, action) = submitted(s);
            &&& action matches ActionView::Send(RequestView::Turn { agent_name: a, user_text })
                && a == agent_name(s) && user_text == s.input
            &&& t.log == s.log.push(ChatView::User(s.input))
            &&& t.input.len() == 0
            &&& t.busy == Busy::Running
        }),
{
    crate::text::law_trimming_takes_white_space(Seq::empty(), s.input, Seq::empty());
    assert(Seq::<char>::empty() + s.input + Seq::<char>::empty() =~= s.input);
}

proof fn lemma_first_space(s: Seq<char>, from: int, k: int)
    requires
        0 <= from <= k <= s.len(),
        forall|i: int| from <= i < k ==> !white_space(s[i]),
        k < s.len() ==> white_space(s[k]),
    ensures
        first_space(s, from) == k,
    decreases k - from,
{
    if from < k {
        lemma_first_space(s, from + 1, k);
    }
}

/// A command is its name up to the first white space, and its argument what stands behind
/// that, without white space around it.
pub proof fn law_commands_have_a_name_and_an_argument(
    name: Seq<char>,
    gap: char,
    left: Seq<char>,
    arg: Seq<char>,
    right: Seq<char>,
)
    requires
        forall|i: int| 0 <= i < name.len() ==> !white_space(name[i]),
        white_space(gap),
        forall|i: int| 0 <= i < left.len() ==> white_space(left[i]),
        forall|i: int| 0 <= i < right.len() ==> white_space(right[i]),
        arg.len() > 0 ==> !white_space(arg[0]) && !white_space(arg.last()),
    ensures
        command_name(name) == name,
        command_arg(name) == Seq::<char>::empty(),
        command_name(name + seq![gap] + (left + arg + right)) == name,
        command_arg(name + seq![gap] + (left + arg + right)) == arg,
{
    let n = name.len() as int;
    lemma_first_space(name, 0, n);
    assert(name.take(n) =~= name);
    let cmd = name + seq![gap] + (left + arg + right);
    assert(cmd[n] == gap);
    assert forall|i: int| 0 <= i < n implies !white_space(cmd[i]) by {
        assert(cmd[i] == name[i]);
    }
    lemma_first_space(cmd, 0, n);
    assert(cmd.take(n) =~= name);
    assert(cmd.skip(n + 1) =~= left + arg + right);
    crate::text::law_trimming_takes_white_space(left, arg, right);
}

/// `/start` with a goal asks for a session on that goal where none runs, and for nothing
/// where one does or where the goal is missing. `/stop` tells a running session to stop.
/// `/help` shows the help. No other command asks for anything.
pub proof fn law_what_commands_ask_for(s: AppView, name: Seq<char>, arg: Seq<char>)
    ensures
        ({
            let (t, action) = commanded(s, name, arg);
            &&& name == "start"@ && arg.len() > 0 && !s.supervisor_running ==> (
            action matches ActionView::Send(RequestView::StartSupervisor { goal }) && goal == arg)
            &&& name == "start"@ && (arg.len() == 0 || s.supervisor_running) ==> action is Nothing
            &&& name == "stop"@ && s.supervisor_running && s.supervisor_stoppable
                ==> action is StopSession
            &&& name == "stop"@ && !s.supervisor_running ==> action is Nothing
            &&& name == "help"@ ==> t.show_help && action is Nothing && t.log == s.log
            &&& name != "start"@ && name != "stop"@ ==> action is Nothing
            &&& name != "start"@ && name != "stop"@ && name != "help"@ && name != "test"@
                && s.log.len() < super::app::LOG_CAP ==> t.log == s.log.push(
                ChatView::System("unknown command: /"@ + name + " (try /help)"@),
            )
        }),
{
    reveal_strlit("start");
    reveal_strlit("stop");
    reveal_strlit("help");
    reveal_strlit("test");
    assert("start"@.len() == 5 && "stop"@.len() == 4 && "help"@.len() == 4 && "test"@.len() == 4);
    assert("stop"@[0] == 's' && "help"@[0] == 'h' && "test"@[0] == 't');
}

/// A chat that does not follow its end moves by just the rows asked for as far as there are
/// so many, and stops at the end and at the top; one that followed it starts at the end.
pub proof fn law_chat_moves_by_rows(s: AppView, rows: int, max: u16)
    requires
        0 <= rows,
        s.chat_scroll <= max,
    ensures
        !s.follow_tail && s.chat_scroll + rows <= max ==> scrolled_down(s, rows, max).chat_scroll
            == s.chat_scroll + rows,
        !s.follow_tail && s.chat_scroll + rows > max ==> scrolled_down(s, rows, max).chat_scroll
            == max,
        !s.follow_tail && s.chat_scroll >= rows ==> scrolled_up(s, rows, max).chat_scroll
            == s.chat_scroll - rows,
        !s.follow_tail && s.chat_scroll < rows ==> scrolled_up(s, rows, max).chat_scroll == 0,
        s.follow_tail && max >= rows ==> scrolled_up(s, rows, max).chat_scroll == max - rows,
        s.follow_tail ==> scrolled_down(s, rows, max).chat_scroll == max,
{
}

/// Which key does what in the chat: `j` and Down a row down, `k` and Up a row up, the page
/// keys a page, which is what is seen less one row; `G` and End go to the end and stay
/// there, `g` and Home to the top; `f` turns following on and off.
pub proof fn law_keys_of_the_chat(s: AppView, m: ChatMetrics, ctrl: bool, alt: bool)
    ensures
        ({
            let max = m.max_scroll as u16;
            let key = |code: KeyCode| KeyEvent { code, ctrl, alt };
            &&& chat_key(s, key(KeyCode::Down), m) == scrolled_down(s, 1, max)
            &&& chat_key(s, key(KeyCode::Char('j')), m) == scrolled_down(s, 1, max)
            &&& chat_key(s, key(KeyCode::Up), m) == scrolled_up(s, 1, max)
            &&& chat_key(s, key(KeyCode::Char('k')), m) == scrolled_up(s, 1, max)
            &&& m.visible_h > 1 ==> chat_key(s, key(KeyCode::PageDown), m) == scrolled_down(
                s,
                m.visible_h - 1,
                max,
            )
            &&& m.visible_h > 1 ==> chat_key(s, key(KeyCode::PageUp), m) == scrolled_up(
                s,
                m.visible_h - 1,
                max,
            )
            &&& chat_key(s, key(KeyCode::End), m).follow_tail && chat_key(
                s,
                key(KeyCode::End),
                m,
            ).chat_scroll == max
            &&& chat_key(s, key(KeyCode::Char('G')), m) == chat_key(s, key(KeyCode::End), m)
            &&& !chat_key(s, key(KeyCode::Home), m).follow_tail && chat_key(
                s,
                key(KeyCode::Home),
                m,
            ).chat_scroll == 0
            &&& chat_key(s, key(KeyCode::Char('g')), m) == chat_key(s, key(KeyCode::Home), m)
            &&& chat_key(s, key(KeyCode::Char('f')), m).follow_tail == !s.follow_tail
        }),
{
}

/// While the help is shown only Esc and `?` close it and no key does anything else; any key
/// closes the first screen; `?` opens the help from everywhere else. Ctrl-N empties the log
/// and opens a new run, Ctrl-L only empties the log, Ctrl-P shows or hides the profile.
pub proof fn law_keys_that_count_everywhere(
    s: AppView,
    key: KeyEvent,
    fresh_id: Seq<char>,
    m: ChatMetrics,
)
    requires
        !(key.ctrl && key.code == KeyCode::Char('c')),
    ensures
        ({
            let (t, action) = key_step(s, key, fresh_id, m);
            let open = !s.show_help && !s.show_splash;
            &&& s.show_help ==> t == (AppView { show_help: t.show_help, ..s }) && action is Nothing
                && (t.show_help <==> key.code != KeyCode::Esc && key.code != KeyCode::Char('?'))
            &&& !s.show_help && s.show_splash ==> t == (AppView { show_splash: false, ..s })
                && action is Nothing
            &&& open && key.code == KeyCode::Char('?') ==> t.show_help && action is Nothing
                && t.input == s.input
            &&& open && key.ctrl && key.code == KeyCode::Char('n') ==> t.run_id == fresh_id
                && t.log.len() == 0 && action == ActionView::Send(RequestView::Shutdown)
            &&& open && key.ctrl && key.code == KeyCode::Char('l') ==> t.run_id == s.run_id
                && t.log.len() == 0 && action is Nothing
            &&& open && key.ctrl && key.code == KeyCode::Char('p') ==> t.show_profile
                == !s.show_profile && t.log == s.log && action is Nothing
        }),
{
}

/// A frame moves the chat to its end where it follows it, and not otherwise; nothing but the
/// frame count changes besides.
pub proof fn law_frames_follow_the_end(s: AppView, m: ChatMetrics)
    ensures
        s.follow_tail ==> ticked(s, m).chat_scroll == m.max_scroll as u16,
        !s.follow_tail ==> ticked(s, m).chat_scroll == s.chat_scroll,
        s.tick < u64::MAX ==> ticked(s, m).tick == s.tick + 1,
        ticked(s, m) == (AppView {
            tick: ticked(s, m).tick,
            chat_scroll: ticked(s, m).chat_scroll,
            ..s
        }),
{
}

/// In the list of agents a step down makes the next agent the active one and a step up the
/// one before; in a sidebar it selects the next entry or the one before, and not beyond the
/// first.
pub proof fn law_keys_of_the_lists(s: AppView, ctrl: bool, alt: bool)
    ensures
        ({
            let down = KeyEvent { code: KeyCode::Down, ctrl, alt };
            let up = KeyEvent { code: KeyCode::Up, ctrl, alt };
            &&& s.agent_idx < 6 ==> agents_key(s, down).agent_idx == s.agent_idx + 1
            &&& 0 < s.agent_idx < 7 ==> agents_key(s, up).agent_idx == s.agent_idx - 1
            &&& s.sidebar_selected < usize::MAX ==> sidebar_key(s, down).sidebar_selected
                == s.sidebar_selected + 1
            &&& s.sidebar_selected > 0 ==> sidebar_key(s, up).sidebar_selected
                == s.sidebar_selected - 1
            &&& s.sidebar_selected == 0 ==> sidebar_key(s, up).sidebar_selected == 0
            &&& agents_key(s, KeyEvent { code: KeyCode::Char('j'), ctrl, alt }) == agents_key(
                s,
                down,
            )
            &&& agents_key(s, KeyEvent { code: KeyCode::Char('k'), ctrl, alt }) == agents_key(s, up)
        }),
{
}

/// In every panel Tab gives the focus to the next panel and Shift-Tab to the one before,
/// and nothing else happens.
pub proof fn law_tab_moves_the_focus(
    s: AppView,
    ctrl: bool,
    alt: bool,
    fresh_id: Seq<char>,
    m: ChatMetrics,
)
    requires
        !s.show_help,
        !s.show_splash,
    ensures
        ({
            let (t, a) = key_step(s, KeyEvent { code: KeyCode::Tab, ctrl, alt }, fresh_id, m);
            let (u, b) = key_step(s, KeyEvent { code: KeyCode::BackTab, ctrl, alt }, fresh_id, m);
            &&& a is Nothing && b is Nothing
            &&& t == (AppView { focus: t.focus, ..s })
            &&& u == (AppView { focus: u.focus, ..s })
            &&& t.focus == (match s.focus {
                Focus::Input => Focus::Chat,
                Focus::Chat => Focus::Agents,
                Focus::Agents => Focus::SidebarTasks,
                Focus::SidebarTasks => Focus::SidebarMemory,
                Focus::SidebarMemory => Focus::Input,
            })
            &&& u.focus == (match s.focus {
                Focus::Input => Focus::SidebarMemory,
                Focus::Chat => Focus::Input,
                Focus::Agents => Focus::Chat,
                Focus::SidebarTasks => Focus::Agents,
                Focus::SidebarMemory => Focus::SidebarTasks,
            })
        }),
{
}

/// Esc on an empty input quits; a character with Ctrl or Alt held is not typed; a key goes to
/// the panel that has the focus and to no other one.
pub proof fn law_keys_go_to_the_focus(
    s: AppView,
    key: KeyEvent,
    fresh_id: Seq<char>,
    m: ChatMetrics,
)
    requires
        !s.show_help,
        !s.show_splash,
        key.code is Char ==> !key.ctrl,
        key.code != KeyCode::Char('?'),
    ensures
        ({
            let (t, action) = key_step(s, key, fresh_id, m);
            &&& s.focus == Focus::Input && key.code == KeyCode::Esc && s.input.len() == 0
                ==> action is Quit && t == s
            &&& s.focus == Focus::Input && key.code is Char && key.alt ==> t == s
                && action is Nothing
            &&& s.focus == Focus::Input && key.code is Char && !key.alt ==> t.input
                == s.input.push(key.code->Char_0) && t.chat_scroll == s.chat_scroll
            &&& s.focus != Focus::Input ==> t.input == s.input && t.log == s.log
                && action is Nothing
            &&& s.focus != Focus::Agents && s.focus != Focus::Input ==> t.agent_idx == s.agent_idx
            &&& s.focus == Focus::Chat || s.focus == Focus::Agents ==> t.sidebar_selected
                == s.sidebar_selected
            &&& s.focus == Focus::Agents || s.focus == Focus::SidebarTasks || s.focus
                == Focus::SidebarMemory ==> t.chat_scroll == s.chat_scroll && t.follow_tail
                == s.follow_tail
        }),
{
}

/// The count of frames begins anew behind its largest number.
pub proof fn law_frame_count_begins_anew(s: AppView, m: ChatMetrics)
    requires
        s.tick == u64::MAX,
    ensures
        ticked(s, m).tick == 0,
{
}

} // verus!
