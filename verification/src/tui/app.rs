//! The state of the front end.

use std::collections::VecDeque;

use vstd::prelude::*;

use crate::agents::{agent_at, all_agents, AGENT_COUNT};
use crate::lifecycle::bus::MemoryEvent;
use crate::text::{chars_of, opt_view, slice_of, str_eq};

verus! {

/// How many entries the chat log keeps.
pub const LOG_CAP: usize = 1000;

/// How many entries each sidebar keeps.
pub const SIDEBAR_CAP: usize = 64;

/// The panel that has the keyboard.
#[derive(Clone, Copy, Debug, PartialEq, Eq, Structural)]
pub enum Focus {
    Input,
    Chat,
    SidebarTasks,
    SidebarMemory,
    Agents,
}

/// Whether a turn is under way.
#[derive(Clone, Copy, Debug, PartialEq, Eq, Structural)]
pub enum Busy {
    Idle,
    Running,
}

/// An entry of the chat log. The arguments of a tool call are JSON text.
#[derive(Debug)]
pub enum ChatMsg {
    User(String),
    Assistant { agent: String, text: String },
    ToolCall { agent: String, tool: String, args: String },
    System(String),
}

/// What a [`ChatMsg`] holds.
pub enum ChatView {
    User(Seq<char>),
    Assistant { agent: Seq<char>, text: Seq<char> },
    ToolCall { agent: Seq<char>, tool: Seq<char>, args: Seq<char> },
    System(Seq<char>),
}

impl View for ChatMsg {
    type V = ChatView;

    open spec fn view(&self) -> ChatView {
        match *self {
            ChatMsg::User(t) => ChatView::User(t@),
            ChatMsg::Assistant { agent, text } => ChatView::Assistant {
                agent: agent@,
                text: text@,
            },
            ChatMsg::ToolCall { agent, tool, args } => ChatView::ToolCall {
                agent: agent@,
                tool: tool@,
                args: args@,
            },
            ChatMsg::System(t) => ChatView::System(t@),
        }
    }
}

/// What a chat log holds.
pub open spec fn log_view(log: Seq<ChatMsg>) -> Seq<ChatView> {
    log.map_values(|m: ChatMsg| m@)
}

/// How far a task of the session has come.
#[derive(Clone, Copy, Debug, PartialEq, Eq, Structural)]
pub enum TaskStatus {
    Claimed,
    Running,
    Done,
    Failed,
}

/// A task in the sidebar.
#[derive(Debug)]
pub struct TaskEntry {
    pub id: String,
    pub worker: Option<String>,
    /// When the latest status arrived, in milliseconds of the front end's clock.
    pub at: u64,
    pub action: Option<String>,
    pub status: TaskStatus,
}

/// What a [`TaskEntry`] holds.
pub struct TaskView {
    pub id: Seq<char>,
    pub worker: Option<Seq<char>>,
    pub at: u64,
    pub action: Option<Seq<char>>,
    pub status: TaskStatus,
}

impl View for TaskEntry {
    type V = TaskView;

    open spec fn view(&self) -> TaskView {
        TaskView {
            id: self.id@,
            worker: opt_view(self.worker),
            at: self.at,
            action: opt_view(self.action),
            status: self.status,
        }
    }
}

/// What a list of tasks holds.
pub open spec fn tasks_view(v: Seq<TaskEntry>) -> Seq<TaskView> {
    v.map_values(|t: TaskEntry| t@)
}

/// A memory write in the sidebar.
#[derive(Debug)]
pub enum MemoryEntry {
    Semantic { scope: String, summary: String },
    Behavior { agent: String, pattern: String },
}

/// What a [`MemoryEntry`] holds.
pub enum MemoryView {
    Semantic { scope: Seq<char>, summary: Seq<char> },
    Behavior { agent: Seq<char>, pattern: Seq<char> },
}

impl View for MemoryEntry {
    type V = MemoryView;

    open spec fn view(&self) -> MemoryView {
        match *self {
            MemoryEntry::Semantic { scope, summary } => MemoryView::Semantic {
                scope: scope@,
                summary: summary@,
            },
            MemoryEntry::Behavior { agent, pattern } => MemoryView::Behavior {
                agent: agent@,
                pattern: pattern@,
            },
        }
    }
}

/// What a list of memory writes holds.
pub open spec fn memory_view(v: Seq<MemoryEntry>) -> Seq<MemoryView> {
    v.map_values(|m: MemoryEntry| m@)
}

/// What an event adds to a sidebar.
#[derive(Debug)]
pub enum SidebarEvent {
    Task(TaskEntry),
    Memory(MemoryEntry),
}

/// What a [`SidebarEvent`] holds.
pub enum SidebarView {
    Task(TaskView),
    Memory(MemoryView),
}

impl View for SidebarEvent {
    type V = SidebarView;

    open spec fn view(&self) -> SidebarView {
        match *self {
            SidebarEvent::Task(t) => SidebarView::Task(t@),
            SidebarEvent::Memory(m) => SidebarView::Memory(m@),
        }
    }
}

// ------------------------------------------------------------------- events

/// The text, or its first `n` characters and an ellipsis where it has more.
pub open spec fn shortened(s: Seq<char>, n: nat) -> Seq<char> {
    if s.len() <= n {
        s
    } else {
        s.take(n as int).push('…')
    }
}

/// The text, or its first `n` characters and an ellipsis where it has more.
pub fn truncate(s: &str, n: usize) -> (r: String)
    ensures
        r@ == shortened(s@, n as nat),
{
    let v = chars_of(s);
    if v.len() <= n {
        s.to_owned()
    } else {
        let mut cut = slice_of(&v, 0, n);
        proof {
            assert(v@.subrange(0, n as int) =~= v@.take(n as int));
        }
        cut.push('…');
        cut
    }
}

/// Kinds of logged events that are pure scaffolding.
pub open spec fn is_scaffolding(kind: Seq<char>) -> bool {
    kind == "turn_started"@ || kind == "turn_completed"@ || kind == "task_scheduled"@ || kind
        == "task_enqueued"@ || kind == "tournament_recorded"@
}

/// Whether an event is kept out of the chat log.
pub open spec fn dropped(ev: MemoryEvent) -> bool {
    match ev {
        MemoryEvent::EventLogged { type_, .. } => is_scaffolding(type_@),
        _ => false,
    }
}

/// Whether an event is kept out of the chat log.
pub fn should_drop_bus_event(ev: &MemoryEvent) -> (r: bool)
    ensures
        r == dropped(*ev),
{
    match ev {
        MemoryEvent::EventLogged { type_, .. } => {
            let kind = type_.as_str();
            str_eq(kind, "turn_started") || str_eq(kind, "turn_completed") || str_eq(
                kind,
                "task_scheduled",
            ) || str_eq(kind, "task_enqueued") || str_eq(kind, "tournament_recorded")
        },
        _ => false,
    }
}

/// What an event adds to a sidebar at the time `now`.
pub open spec fn sidebar_of(ev: MemoryEvent, now: u64) -> Option<SidebarView> {
    match ev {
        MemoryEvent::TaskClaimed { task_id, worker_id, action } => Some(
            SidebarView::Task(
                TaskView {
                    id: task_id@,
                    worker: Some(worker_id@),
                    at: now,
                    action: Some(action@),
                    status: TaskStatus::Claimed,
                },
            ),
        ),
        MemoryEvent::TaskCompleted { task_id, worker_id } => Some(
            SidebarView::Task(
                TaskView {
                    id: task_id@,
                    worker: Some(worker_id@),
                    at: now,
                    action: None,
                    status: TaskStatus::Done,
                },
            ),
        ),
        MemoryEvent::TaskFailed { task_id, worker_id, error } => Some(
            SidebarView::Task(
                TaskView {
                    id: task_id@,
                    worker: Some(worker_id@),
                    at: now,
                    action: Some("failed: "@ + shortened(error@, 40)),
                    status: TaskStatus::Failed,
                },
            ),
        ),
        MemoryEvent::SemanticSaved { scope, summary, .. } => Some(
            SidebarView::Memory(
                MemoryView::Semantic { scope: scope@, summary: shortened(summary@, 80) },
            ),
        ),
        MemoryEvent::BehaviorSaved { agent, pattern, .. } => Some(
            SidebarView::Memory(
                MemoryView::Behavior { agent: agent@, pattern: shortened(pattern@, 80) },
            ),
        ),
        _ => None,
    }
}

/// What an event adds to a sidebar at the time `now`.
pub fn sidebar_entry(ev: &MemoryEvent, now: u64) -> (r: Option<SidebarEvent>)
    ensures
        match r {
            Some(e) => sidebar_of(*ev, now) == Some(e@),
            None => sidebar_of(*ev, now) is None,
        },
{
    match ev {
        MemoryEvent::TaskClaimed { task_id, worker_id, action } => Some(
            SidebarEvent::Task(
                TaskEntry {
                    id: task_id.clone(),
                    worker: Some(worker_id.clone()),
                    at: now,
                    action: Some(action.clone()),
                    status: TaskStatus::Claimed,
                },
            ),
        ),
        MemoryEvent::TaskCompleted { task_id, worker_id } => Some(
            SidebarEvent::Task(
                TaskEntry {
                    id: task_id.clone(),
                    worker: Some(worker_id.clone()),
                    at: now,
                    action: None,
                    status: TaskStatus::Done,
                },
            ),
        ),
        MemoryEvent::TaskFailed { task_id, worker_id, error } => {
            let mut action = "failed: ".to_owned();
            action.append(truncate(error.as_str(), 40).as_str());
            Some(
                SidebarEvent::Task(
                    TaskEntry {
                        id: task_id.clone(),
                        worker: Some(worker_id.clone()),
                        at: now,
                        action: Some(action),
                        status: TaskStatus::Failed,
                    },
                ),
            )
        },
        MemoryEvent::SemanticSaved { scope, summary, .. } => Some(
            SidebarEvent::Memory(
                MemoryEntry::Semantic {
                    scope: scope.clone(),
                    summary: truncate(summary.as_str(), 80),
                },
            ),
        ),
        MemoryEvent::BehaviorSaved { agent, pattern, .. } => Some(
            SidebarEvent::Memory(
                MemoryEntry::Behavior {
                    agent: agent.clone(),
                    pattern: truncate(pattern.as_str(), 80),
                },
            ),
        ),
        _ => None,
    }
}

// -------------------------------------------------------------------- state

/// Everything that the front end shows.
#[derive(Debug)]
pub struct AppState {
    pub run_id: String,
    pub agent_idx: usize,
    pub busy: Busy,
    pub log: Vec<ChatMsg>,
    pub status: String,
    pub input: String,
    /// Whether the chat sticks to its end.
    pub follow_tail: bool,
    /// How many frames were drawn.
    pub tick: u64,
    pub focus: Focus,
    pub chat_scroll: u16,
    /// The highest scroll position of the last frame.
    pub chat_max_scroll: u16,
    /// How many rows of the chat the last frame showed.
    pub chat_visible_h: u16,
    pub show_help: bool,
    pub show_profile: bool,
    pub show_splash: bool,
    pub sidebar_selected: usize,
    /// The log entry into which the current answer streams.
    pub streaming_assistant: Option<usize>,
    /// The undecided tail of the stream.
    pub partial_marker_carry: String,
    /// The model that the runner uses.
    pub model: String,
    /// The name of the command-line client that the runner asks.
    pub client: String,
    pub supervisor_running: bool,
    pub supervisor_session: Option<String>,
    /// When the session began, in milliseconds of the front end's clock.
    pub supervisor_started_at: Option<u64>,
    /// Whether the session can be told to stop.
    pub supervisor_stoppable: bool,
    /// The latest tasks, the newest at the back.
    pub tasks: VecDeque<TaskEntry>,
    /// The latest memory writes, the newest at the back.
    pub memory: VecDeque<MemoryEntry>,
    pub tasks_done: usize,
    pub tasks_failed: usize,
}

/// What an [`AppState`] holds.
#[verifier::ext_equal]
pub struct AppView {
    pub run_id: Seq<char>,
    pub agent_idx: usize,
    pub busy: Busy,
    pub log: Seq<ChatView>,
    pub status: Seq<char>,
    pub input: Seq<char>,
    pub follow_tail: bool,
    pub tick: u64,
    pub focus: Focus,
    pub chat_scroll: u16,
    pub chat_max_scroll: u16,
    pub chat_visible_h: u16,
    pub show_help: bool,
    pub show_profile: bool,
    pub show_splash: bool,
    pub sidebar_selected: usize,
    pub streaming_assistant: Option<usize>,
    pub partial_marker_carry: Seq<char>,
    pub model: Seq<char>,
    pub client: Seq<char>,
    pub supervisor_running: bool,
    pub supervisor_session: Option<Seq<char>>,
    pub supervisor_started_at: Option<u64>,
    pub supervisor_stoppable: bool,
    pub tasks: Seq<TaskView>,
    pub memory: Seq<MemoryView>,
    pub tasks_done: usize,
    pub tasks_failed: usize,
}

impl View for AppState {
    type V = AppView;

    open spec fn view(&self) -> AppView {
        AppView {
            run_id: self.run_id@,
            agent_idx: self.agent_idx,
            busy: self.busy,
            log: log_view(self.log@),
            status: self.status@,
            input: self.input@,
            follow_tail: self.follow_tail,
            tick: self.tick,
            focus: self.focus,
            chat_scroll: self.chat_scroll,
            chat_max_scroll: self.chat_max_scroll,
            chat_visible_h: self.chat_visible_h,
            show_help: self.show_help,
            show_profile: self.show_profile,
            show_splash: self.show_splash,
            sidebar_selected: self.sidebar_selected,
            streaming_assistant: self.streaming_assistant,
            partial_marker_carry: self.partial_marker_carry@,
            model: self.model@,
            client: self.client@,
            supervisor_running: self.supervisor_running,
            supervisor_session: opt_view(self.supervisor_session),
            supervisor_started_at: self.supervisor_started_at,
            supervisor_stoppable: self.supervisor_stoppable,
            tasks: tasks_view(self.tasks@),
            memory: memory_view(self.memory@),
            tasks_done: self.tasks_done,
            tasks_failed: self.tasks_failed,
        }
    }
}

/// The state at the start of a run.
pub open spec fn fresh(run_id: Seq<char>) -> AppView {
    AppView {
        run_id,
        agent_idx: 0,
        busy: Busy::Idle,
        log: Seq::empty(),
        status: "ready"@,
        input: Seq::empty(),
        follow_tail: true,
        tick: 0,
        focus: Focus::Input,
        chat_scroll: 0,
        chat_max_scroll: 0,
        chat_visible_h: 0,
        show_help: false,
        show_profile: false,
        show_splash: true,
        sidebar_selected: 0,
        streaming_assistant: None,
        partial_marker_carry: Seq::empty(),
        model: Seq::empty(),
        client: Seq::empty(),
        supervisor_running: false,
        supervisor_session: None,
        supervisor_started_at: None,
        supervisor_stoppable: false,
        tasks: Seq::empty(),
        memory: Seq::empty(),
        tasks_done: 0,
        tasks_failed: 0,
    }
}

/// The newest [`LOG_CAP`] entries.
pub open spec fn capped(log: Seq<ChatView>) -> Seq<ChatView> {
    if log.len() > LOG_CAP {
        log.skip(log.len() - LOG_CAP)
    } else {
        log
    }
}

/// The state with one more entry in its log.
pub open spec fn logged(s: AppView, msg: ChatView) -> AppView {
    AppView { log: capped(s.log.push(msg)), ..s }
}

/// Where the task `id` stands.
pub open spec fn task_place(tasks: Seq<TaskView>, id: Seq<char>, from: int) -> Option<int>
    decreases tasks.len() - from,
{
    if from < 0 || from >= tasks.len() {
        None
    } else if tasks[from].id == id {
        Some(from)
    } else {
        task_place(tasks, id, from + 1)
    }
}

/// The tasks with a status added: in the place of the same task's last one, or
/// else at the back, where the oldest one makes room.
pub open spec fn task_added(tasks: Seq<TaskView>, t: TaskView) -> Seq<TaskView> {
    match task_place(tasks, t.id, 0) {
        Some(i) => tasks.update(i, t),
        None => if tasks.len() >= SIDEBAR_CAP {
            tasks.skip(1).push(t)
        } else {
            tasks.push(t)
        },
    }
}

/// The memory writes with one added at the back, where the oldest one makes room.
pub open spec fn memory_added(memory: Seq<MemoryView>, m: MemoryView) -> Seq<MemoryView> {
    if memory.len() >= SIDEBAR_CAP {
        memory.skip(1).push(m)
    } else {
        memory.push(m)
    }
}

/// The place of a panel in the order in which the focus moves.
pub open spec fn focus_index(f: Focus) -> int {
    match f {
        Focus::Input => 0,
        Focus::Chat => 1,
        Focus::Agents => 2,
        Focus::SidebarTasks => 3,
        Focus::SidebarMemory => 4,
    }
}

/// The panel at a place of that order.
pub open spec fn focus_at(i: int) -> Focus {
    if i == 0 {
        Focus::Input
    } else if i == 1 {
        Focus::Chat
    } else if i == 2 {
        Focus::Agents
    } else if i == 3 {
        Focus::SidebarTasks
    } else {
        Focus::SidebarMemory
    }
}

/// The panel `dir` steps further on, round and round.
pub open spec fn focus_moved(f: Focus, dir: int) -> Focus {
    focus_at((focus_index(f) + dir) % 5)
}

/// The agent `dir` steps further on, round and round.
pub open spec fn agent_moved(idx: usize, dir: int) -> usize {
    (((idx as i32) + dir) % 7) as usize
}

/// The remainder of `i` by `n` that is not negative.
fn wrapped(i: i64, n: i64) -> (r: i64)
    requires
        n > 0,
    ensures
        r == (i as int) % (n as int),
        0 <= r < n,
{
    match i.checked_rem_euclid(n) {
        Some(r) => r,
        None => 0,
    }
}

impl AppState {
    /// The state at the start of a run.
    pub fn new(run_id: String) -> (r: AppState)
        ensures
            r@ == fresh(run_id@),
    {
        let r = AppState {
            run_id,
            agent_idx: 0,
            busy: Busy::Idle,
            log: Vec::new(),
            status: "ready".to_owned(),
            input: String::new(),
            follow_tail: true,
            tick: 0,
            focus: Focus::Input,
            chat_scroll: 0,
            chat_max_scroll: 0,
            chat_visible_h: 0,
            show_help: false,
            show_profile: false,
            show_splash: true,
            sidebar_selected: 0,
            streaming_assistant: None,
            partial_marker_carry: String::new(),
            model: String::new(),
            client: String::new(),
            supervisor_running: false,
            supervisor_session: None,
            supervisor_started_at: None,
            supervisor_stoppable: false,
            tasks: VecDeque::new(),
            memory: VecDeque::new(),
            tasks_done: 0,
            tasks_failed: 0,
        };
        proof {
            assert(r@ =~= fresh(run_id@));
        }
        r
    }

    /// The name of the active agent.
    pub fn current_agent_name(&self) -> (r: &'static str)
        ensures
            r@ == agent_name(self@),
    {
        agent_at(self.agent_idx % AGENT_COUNT).name
    }

    /// Makes the agent `dir` steps further on the active one.
    pub fn cycle_agent(&mut self, dir: i32)
        ensures
            final(self)@ == (AppView {
                agent_idx: agent_moved(old(self).agent_idx, dir as int),
                ..old(self)@
            }),
    {
        let cur: i64 = (self.agent_idx as i32) as i64;
        let next: i64 = wrapped(cur + dir as i64, 7);
        self.agent_idx = next as usize;
    }

    /// Moves the focus `dir` panels further on.
    pub fn cycle_focus(&mut self, dir: i32)
        ensures
            final(self)@ == (AppView {
                focus: focus_moved(old(self).focus, dir as int),
                ..old(self)@
            }),
    {
        let cur: i64 = match self.focus {
            Focus::Input => 0,
            Focus::Chat => 1,
            Focus::Agents => 2,
            Focus::SidebarTasks => 3,
            Focus::SidebarMemory => 4,
        };
        let next: i64 = wrapped(cur + dir as i64, 5);
        self.focus = if next == 0 {
            Focus::Input
        } else if next == 1 {
            Focus::Chat
        } else if next == 2 {
            Focus::Agents
        } else if next == 3 {
            Focus::SidebarTasks
        } else {
            Focus::SidebarMemory
        };
    }

    /// Drops the oldest entries of the log until it fits.
    pub(crate) fn cap_log(&mut self)
        ensures
            final(self)@ == (AppView { log: capped(old(self)@.log), ..old(self)@ }),
    {
        let ghost all = self.log@;
        if self.log.len() > LOG_CAP {
            let rest = self.log.split_off(self.log.len() - LOG_CAP);
            self.log = rest;
            proof {
                assert(log_view(self.log@) =~= log_view(all).skip(all.len() - LOG_CAP));
            }
        }
    }

    /// Appends an entry to the log and drops the oldest ones that no longer fit.
    pub fn push_log(&mut self, msg: ChatMsg)
        ensures
            final(self)@ == logged(old(self)@, msg@),
    {
        let ghost all = self.log@;
        let ghost shown = msg@;
        self.log.push(msg);
        proof {
            assert(log_view(self.log@) =~= log_view(all).push(shown));
        }
        self.cap_log();
    }

    /// Adds the status of a task.
    pub fn push_task(&mut self, t: TaskEntry)
        ensures
            final(self)@ == (AppView { tasks: task_added(old(self)@.tasks, t@), ..old(self)@ }),
    {
        let ghost all = self.tasks@;
        let ghost shown = t@;
        let n: usize = self.tasks.len();
        let mut i: usize = 0;
        while i < n
            invariant
                n == self.tasks@.len(),
                i <= n,
                *self == *old(self),
                self.tasks@ == all,
                t@ == shown,
                task_place(tasks_view(all), shown.id, 0) == task_place(
                    tasks_view(all),
                    shown.id,
                    i as int,
                ),
            decreases n - i,
        {
            if str_eq(self.tasks[i].id.as_str(), t.id.as_str()) {
                self.tasks.remove(i);
                self.tasks.insert(i, t);
                proof {
                    assert(tasks_view(self.tasks@) =~= tasks_view(all).update(i as int, shown));
                }
                return;
            }
            i += 1;
        }
        if self.tasks.len() >= SIDEBAR_CAP {
            self.tasks.pop_front();
            proof {
                assert(tasks_view(self.tasks@) =~= tasks_view(all).skip(1));
            }
        }
        let ghost rest = self.tasks@;
        self.tasks.push_back(t);
        proof {
            assert(tasks_view(self.tasks@) =~= tasks_view(rest).push(shown));
        }
    }

    /// Adds a memory write.
    pub fn push_memory(&mut self, m: MemoryEntry)
        ensures
            final(self)@ == (AppView { memory: memory_added(old(self)@.memory, m@), ..old(self)@ }),
    {
        let ghost all = self.memory@;
        let ghost shown = m@;
        if self.memory.len() >= SIDEBAR_CAP {
            self.memory.pop_front();
            proof {
                assert(memory_view(self.memory@) =~= memory_view(all).skip(1));
            }
        }
        let ghost rest = self.memory@;
        self.memory.push_back(m);
        proof {
            assert(memory_view(self.memory@) =~= memory_view(rest).push(shown));
        }
    }
}

/// The name of the active agent.
pub open spec fn agent_name(s: AppView) -> Seq<char> {
    all_agents()[(s.agent_idx % AGENT_COUNT) as int].name
}

// --------------------------------------------------------------------- laws

/// Whether no two tasks share an id, and the sidebars are not overfull.
pub open spec fn sidebars_ok(s: AppView) -> bool {
    &&& s.tasks.len() <= SIDEBAR_CAP
    &&& s.memory.len() <= SIDEBAR_CAP
    &&& forall|i: int, j: int| 0 <= i < j < s.tasks.len() ==> s.tasks[i].id != s.tasks[j].id
}

/// The log never holds more than [`LOG_CAP`] entries after an entry was added,
/// and the newest one is always the one that was added.
pub proof fn law_log_is_bounded(s: AppView, msg: ChatView)
    ensures
        logged(s, msg).log.len() <= LOG_CAP,
        logged(s, msg).log.last() == msg,
{
}

proof fn lemma_task_place(tasks: Seq<TaskView>, id: Seq<char>, from: int)
    requires
        0 <= from,
    ensures
        match task_place(tasks, id, from) {
            Some(i) => from <= i < tasks.len() && tasks[i].id == id,
            None => forall|j: int| from <= j < tasks.len() ==> (#[trigger] tasks[j]).id != id,
        },
    decreases tasks.len() - from,
{
    if from < tasks.len() && tasks[from].id != id {
        lemma_task_place(tasks, id, from + 1);
    }
}

/// Adding a task keeps every id once, keeps the list within its bounds, and shows
/// the latest status of the task.
pub proof fn law_tasks_stay_unique(s: AppView, t: TaskView)
    requires
        sidebars_ok(s),
    ensures
        sidebars_ok(AppView { tasks: task_added(s.tasks, t), ..s }),
        task_added(s.tasks, t).contains(t),
{
    lemma_task_place(s.tasks, t.id, 0);
    let after = task_added(s.tasks, t);
    match task_place(s.tasks, t.id, 0) {
        Some(i) => {
            assert(after[i] == t);
        },
        None => {
            assert(after[after.len() - 1] == t);
        },
    }
}

/// Adding a memory write keeps the list within its bounds and shows the write.
pub proof fn law_memory_is_bounded(s: AppView, m: MemoryView)
    requires
        sidebars_ok(s),
    ensures
        sidebars_ok(AppView { memory: memory_added(s.memory, m), ..s }),
        memory_added(s.memory, m).last() == m,
{
}

/// As many steps back as forward bring the focus to where it was.
pub proof fn law_focus_steps_cancel(f: Focus, dir: int)
    ensures
        focus_moved(focus_moved(f, dir), -dir) == f,
{
}

/// As many steps back as forward bring back the agent.
pub proof fn law_agent_steps_cancel(idx: usize, dir: int)
    requires
        idx < AGENT_COUNT,
    ensures
        agent_moved(idx, dir) < AGENT_COUNT,
        agent_moved(agent_moved(idx, dir), -dir) == idx,
{
}

/// The active agent is always one of the agents.
pub proof fn law_active_agent_is_known(s: AppView)
    ensures
        exists|i: int|
            0 <= i < all_agents().len() && (#[trigger] all_agents()[i]).name == agent_name(s),
{
    let i = (s.agent_idx % AGENT_COUNT) as int;
    assert(all_agents()[i].name == agent_name(s));
}

/// A text that fits stays as it is; of a longer one the beginning is kept, as much as asked
/// for, with an ellipsis behind it.
pub proof fn law_short_texts_stay(s: Seq<char>, n: nat)
    ensures
        s.len() <= n ==> shortened(s, n) == s,
        s.len() > n ==> shortened(s, n).len() == n + 1 && shortened(s, n).last() == '…'
            && shortened(s, n).drop_last() == s.take(n as int),
{
    if s.len() > n {
        assert(s.take(n as int).push('…').drop_last() =~= s.take(n as int));
    }
}

/// An entry goes behind all others. Up to a thousand entries all are kept; beyond that the
/// oldest one goes, and the others stay in order.
pub proof fn law_log_keeps_the_newest(s: AppView, msg: ChatView)
    ensures
        s.log.len() < 1000 ==> logged(s, msg).log == s.log.push(msg),
        s.log.len() == 1000 ==> logged(s, msg).log == s.log.skip(1).push(msg),
{
    if s.log.len() == 1000 {
        assert(s.log.push(msg).skip(1) =~= s.log.skip(1).push(msg));
    }
}

/// A status of a task that is listed takes the place of its last one, and the other tasks
/// stay; one of a new task goes to the back, and only where the list of 64 is full does
/// the oldest task make room.
pub proof fn law_where_a_task_goes(tasks: Seq<TaskView>, t: TaskView, i: int)
    requires
        forall|a: int, b: int| 0 <= a < b < tasks.len() ==> tasks[a].id != tasks[b].id,
    ensures
        0 <= i < tasks.len() && tasks[i].id == t.id ==> task_added(tasks, t) == tasks.update(i, t),
        (forall|j: int| 0 <= j < tasks.len() ==> (#[trigger] tasks[j]).id != t.id)
            ==> task_added(tasks, t) == (if tasks.len() < 64 {
            tasks.push(t)
        } else {
            tasks.skip(1).push(t)
        }),
{
    lemma_task_place(tasks, t.id, 0);
    if 0 <= i < tasks.len() && tasks[i].id == t.id {
        match task_place(tasks, t.id, 0) {
            Some(k) => {
                if k < i {
                    assert(tasks[k].id != tasks[i].id);
                } else if i < k {
                    assert(tasks[i].id != tasks[k].id);
                }
            },
            None => {
                assert(tasks[i].id != t.id);
            },
        }
    }
}

/// A memory write goes to the back; only where the list of 64 is full does the oldest one
/// make room.
pub proof fn law_where_a_memory_write_goes(memory: Seq<MemoryView>, m: MemoryView)
    ensures
        memory.len() < 64 ==> memory_added(memory, m) == memory.push(m),
        memory.len() >= 64 ==> memory_added(memory, m) == memory.skip(1).push(m),
{
}

/// The focus goes from the input to the chat, the agents, the tasks, the memory and back to
/// the input, and the other way round with a step back.
pub proof fn law_order_of_the_panels(f: Focus)
    ensures
        focus_moved(Focus::Input, 1) == Focus::Chat,
        focus_moved(Focus::Chat, 1) == Focus::Agents,
        focus_moved(Focus::Agents, 1) == Focus::SidebarTasks,
        focus_moved(Focus::SidebarTasks, 1) == Focus::SidebarMemory,
        focus_moved(Focus::SidebarMemory, 1) == Focus::Input,
        focus_moved(focus_moved(f, 1), -1) == f,
{
}

/// A step goes to the next agent of the seven, and from the last to the first; a step back
/// the other way.
pub proof fn law_order_of_the_agents(idx: usize)
    requires
        idx < 7,
    ensures
        idx < 6 ==> agent_moved(idx, 1) == idx + 1,
        agent_moved(6, 1) == 0,
        idx > 0 ==> agent_moved(idx, -1) == idx - 1,
        agent_moved(0, -1) == 6,
{
}

/// Which events reach which sidebar: a claimed, completed or failed task is listed under
/// its id and worker with that status; a saved note or behaviour is listed as a memory
/// write; nothing else is listed.
pub proof fn law_what_the_sidebars_list(ev: MemoryEvent, now: u64)
    ensures
        match ev {
            MemoryEvent::TaskClaimed { task_id, worker_id, action } => sidebar_of(
                ev,
                now,
            ) matches Some(SidebarView::Task(t)) && t.id == task_id@ && t.worker == Some(
                worker_id@,
            ) && t.action == Some(action@) && t.at == now && t.status == TaskStatus::Claimed,
            MemoryEvent::TaskCompleted { task_id, worker_id } => sidebar_of(ev, now) matches Some(
                SidebarView::Task(t),
            ) && t.id == task_id@ && t.worker == Some(worker_id@) && t.at == now && t.status
                == TaskStatus::Done,
            MemoryEvent::TaskFailed { task_id, worker_id, error } => sidebar_of(
                ev,
                now,
            ) matches Some(SidebarView::Task(t)) && t.id == task_id@ && t.worker == Some(
                worker_id@,
            ) && t.at == now && t.status == TaskStatus::Failed && (error@.len() <= 40 ==> t.action
                == Some("failed: "@ + error@)),
            MemoryEvent::SemanticSaved { scope, summary, .. } => sidebar_of(ev, now) matches Some(
                SidebarView::Memory(MemoryView::Semantic { scope: sc, summary: su }),
            ) && sc == scope@ && (summary@.len() <= 80 ==> su == summary@),
            MemoryEvent::BehaviorSaved { agent, pattern, .. } => sidebar_of(ev, now) matches Some(
                SidebarView::Memory(MemoryView::Behavior { agent: a, pattern: p }),
            ) && a == agent@ && (pattern@.len() <= 80 ==> p == pattern@),
            _ => sidebar_of(ev, now) is None,
        },
{
}

/// Only the events that a turn or the queue logs for itself are kept out of the chat.
pub proof fn law_what_is_kept_out_of_the_chat(ev: MemoryEvent)
    ensures
        dropped(ev) <==> ev is EventLogged && (ev->type_@ == "turn_started"@ || ev->type_@
            == "turn_completed"@ || ev->type_@ == "task_scheduled"@ || ev->type_@
            == "task_enqueued"@ || ev->type_@ == "tournament_recorded"@),
{
}

/// A new run shows the first screen with nothing behind it: no entry, no task, no count, no
/// session, nothing typed, the first agent chosen, and the chat at its end.
pub proof fn law_new_run_is_empty(run_id: Seq<char>)
    ensures
        ({
            let s = fresh(run_id);
            &&& s.run_id == run_id
            &&& s.log.len() == 0 && s.tasks.len() == 0 && s.memory.len() == 0
            &&& s.input.len() == 0 && s.partial_marker_carry.len() == 0
            &&& s.tasks_done == 0 && s.tasks_failed == 0
            &&& s.busy == Busy::Idle && s.status == "ready"@
            &&& !s.supervisor_running && s.supervisor_session is None && s.streaming_assistant
                is None
            &&& s.show_splash && !s.show_help && !s.show_profile
            &&& s.focus == Focus::Input && s.follow_tail
            &&& agent_name(s) == "supervisor"@
        }),
{
}

/// What is too long for a sidebar is cut: the error of a task behind its first 40 characters,
/// what a memory write says behind its first 80, with an ellipsis for the rest.
pub proof fn law_sidebars_cut_long_texts(ev: MemoryEvent, now: u64)
    ensures
        match ev {
            MemoryEvent::TaskFailed { error, .. } => error@.len() > 40 ==> sidebar_of(
                ev,
                now,
            )->0->Task_0.action == Some("failed: "@ + error@.take(40).push('…')),
            MemoryEvent::SemanticSaved { summary, .. } => summary@.len() > 80 ==> sidebar_of(
                ev,
                now,
            )->0->Memory_0->Semantic_summary == summary@.take(80).push('…'),
            MemoryEvent::BehaviorSaved { pattern, .. } => pattern@.len() > 80 ==> sidebar_of(
                ev,
                now,
            )->0->Memory_0->Behavior_pattern == pattern@.take(80).push('…'),
            _ => true,
        },
{
}

} // verus!
