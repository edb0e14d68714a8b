//! The turns of one agent in one session.
//!
//! A turn starts with a prompt, asks the model for an answer, hands the markers
//! of the answer to the tools and ends with the text that is left. What happens
//! outside (the model, the store, the clock) is given in as plain values.

use vstd::prelude::*;

use crate::agent_loop::system_prompt::{BehaviorMemory, SkillCard, SkillShelf, TurnPhase};
use crate::claude_cli::{ClaudeOptions, PermissionMode};
use crate::json::{is_flat, leaves, push_count, push_text, push_whole, Json, Leaf};
use crate::lifecycle::bus::MemoryEvent;
use crate::lifecycle::policies::Nanos;
use crate::llm_io::llm_query::{
    is_transient_error, jitter, passing, scattered, BASE_BACKOFF_MS,
};
use crate::marker::skill::{Marker, ParsedResponse};
use crate::text::{
    begins, matches_at, occurs, byte_len, byte_length, decimal, lowercase, show_u64, starts_with, str_eq, trim_start,
    trimmed_start,
};

verus! {

// -------------------------------------------------------------------- config

/// How a runner works.
#[derive(Debug)]
pub struct RunnerConfig {
    pub model: String,
    pub max_turns: u32,
    /// How much of each kind the context block recalls.
    pub context_events: usize,
    pub context_semantic: usize,
    pub context_behavior: usize,
    /// How long starting the client may take; no limit where it is zero.
    pub connect_timeout: Nanos,
    /// How long one answer may take; no limit where it is zero.
    pub query_timeout: Nanos,
    /// How much of earlier sessions is told.
    pub prior_semantic_limit: usize,
    pub prior_behavior_limit: usize,
    pub prior_max_chars: usize,
    /// The directory of skills, where there is one.
    pub skills_dir: Option<String>,
}

impl RunnerConfig {
    /// The usual settings, for the model that was chosen or else `sonnet`.
    pub fn for_model(chosen: Option<String>) -> (r: RunnerConfig)
        ensures
            r.model@ == (match chosen {
                Some(m) => m@,
                None => "sonnet"@,
            }),
            r.max_turns == 3,
            r.context_events == 20,
            r.context_semantic == 8,
            r.context_behavior == 5,
            r.connect_timeout.nanos == 30_000_000_000,
            r.query_timeout.nanos == 300_000_000_000,
            r.prior_semantic_limit == 10,
            r.prior_behavior_limit == 5,
            r.prior_max_chars == 4000,
            r.skills_dir is None,
    {
        RunnerConfig {
            model: match chosen {
                Some(m) => m,
                None => "sonnet".to_owned(),
            },
            max_turns: 3,
            context_events: 20,
            context_semantic: 8,
            context_behavior: 5,
            connect_timeout: Nanos::from_secs(30),
            query_timeout: Nanos::from_secs(300),
            prior_semantic_limit: 10,
            prior_behavior_limit: 5,
            prior_max_chars: 4000,
            skills_dir: None,
        }
    }
}

/// How many notes of an agent about itself its system prompt shows.
pub const PRIOR_NOTES_SHOWN: usize = 5;

/// How many failed calls of an agent its system prompt shows.
pub const MARKER_ERRORS_SHOWN: usize = 3;

/// How the client is started for an agent with the system prompt `system`.
pub fn connect_options(config: &RunnerConfig, system: String) -> (r: ClaudeOptions)
    ensures
        r.cli_path is None,
        r.system_prompt == Some(system),
        r.model matches Some(m) && m@ == config.model@,
        r.max_turns == Some(config.max_turns),
        r.permission_mode == Some(PermissionMode::BypassPermissions),
        crate::text::views(r.allowed_tools@) == seq!["Bash"@, "Read"@],
{
    let mut r = ClaudeOptions::default();
    r.system_prompt = Some(system);
    r.model = Some(config.model.as_str().to_owned());
    r.max_turns = Some(config.max_turns);
    r.permission_mode = Some(PermissionMode::BypassPermissions);
    r.allowed_tools = vec!["Bash".to_owned(), "Read".to_owned()];
    proof {
        assert(crate::text::views(r.allowed_tools@) =~= seq!["Bash"@, "Read"@]);
    }
    r
}

// --------------------------------------------------------------------- cache

/// What a system prompt needs from the store, read at one step.
#[derive(Debug)]
pub struct CachedPromptBlocks {
    pub prior_behavior: Vec<BehaviorMemory>,
    pub prior_session: String,
    pub marker_errors: Vec<(String, String)>,
    pub step_index: i64,
}

/// What was last read from the store for a system prompt, as long as nothing was
/// written since.
#[derive(Debug)]
pub struct PromptContextCache {
    inner: Option<CachedPromptBlocks>,
}

impl View for PromptContextCache {
    type V = Option<CachedPromptBlocks>;

    closed spec fn view(&self) -> Option<CachedPromptBlocks> {
        self.inner
    }
}

/// What a listener reads from the bus.
#[derive(Debug)]
pub enum BusReading {
    Event(MemoryEvent),
    /// Events were lost.
    Lagged,
    /// No event will come any more.
    Closed,
}

/// Whether a reading may change what a runner of the session `run_id` would read
/// from the store.
pub open spec fn outdates(reading: BusReading, run_id: Seq<char>) -> bool {
    match reading {
        BusReading::Event(MemoryEvent::SemanticSaved { run_id: r, .. }) => r@ == run_id,
        BusReading::Event(MemoryEvent::BehaviorSaved { .. }) => true,
        BusReading::Lagged => true,
        _ => false,
    }
}

impl PromptContextCache {
    /// An empty cache.
    pub fn new() -> (r: PromptContextCache)
        ensures
            r@ is None,
    {
        PromptContextCache { inner: None }
    }

    /// What was read at this very step.
    pub fn get(&self, step_index: i64) -> (r: Option<&CachedPromptBlocks>)
        ensures
            match r {
                Some(b) => self@ == Some(*b) && b.step_index == step_index,
                None => match self@ {
                    Some(b) => b.step_index != step_index,
                    None => true,
                },
            },
    {
        match &self.inner {
            Some(b) => if b.step_index == step_index {
                Some(b)
            } else {
                None
            },
            None => None,
        }
    }

    /// Keeps what was just read, in place of what was kept before.
    pub fn put(&mut self, blocks: CachedPromptBlocks)
        ensures
            final(self)@ == Some(blocks),
    {
        self.inner = Some(blocks);
    }

    /// Forgets what was kept.
    pub fn invalidate(&mut self)
        ensures
            final(self)@ is None,
    {
        self.inner = None;
    }

    /// How many readings are kept.
    pub fn _len(&self) -> (r: usize)
        ensures
            r == (if self@ is Some {
                1usize
            } else {
                0usize
            }),
    {
        match &self.inner {
            Some(_) => 1,
            None => 0,
        }
    }

    /// Takes in one reading from the bus: forgets what was kept where the
    /// reading outdates it. Says whether to go on listening.
    pub fn hear(&mut self, reading: &BusReading, run_id: &str) -> (on: bool)
        ensures
            on == !(reading is Closed),
            final(self)@ == (if outdates(*reading, run_id@) {
                None
            } else {
                old(self)@
            }),
    {
        match reading {
            BusReading::Event(MemoryEvent::SemanticSaved { run_id: r, .. }) => {
                if str_eq(r.as_str(), run_id) {
                    self.invalidate();
                }
                true
            },
            BusReading::Event(MemoryEvent::BehaviorSaved { .. }) => {
                self.invalidate();
                true
            },
            BusReading::Event(_) => true,
            BusReading::Lagged => {
                self.invalidate();
                true
            },
            BusReading::Closed => false,
        }
    }
}

// -------------------------------------------------------------------- prompt

/// What every user prompt ends with.
pub const CLOSING_REMINDER: &'static str =
    "\n\n---\nIMPORTANT: When you have your answer, emit exactly ONE marker line:\n[[MEMORY_OP:<tool_name>:{<required JSON fields>}]]\nDo NOT just describe your answer in prose. The marker IS your tool call.\n---";

/// The prompt of a turn. `context` is what the memory recalls for it, which
/// counts at the first step alone.
pub open spec fn user_prompt(user_text: Seq<char>, step: i64, context: Seq<char>) -> Seq<char> {
    if step == 0 && !begins(trimmed_start(context), "(no prior context)"@) {
        context + "\n\n"@ + user_text + CLOSING_REMINDER@
    } else {
        user_text + CLOSING_REMINDER@
    }
}

/// The prompt of a turn: the recalled context at the first step, unless there is
/// none, then the text, then the reminder.
pub fn prepare_user_prompt(user_text: &str, step_index: i64, context: &str) -> (r: String)
    ensures
        r@ == user_prompt(user_text@, step_index, context@),
{
    let bare = trim_start(context);
    if step_index == 0 && !starts_with(bare.as_str(), "(no prior context)") {
        let mut out: String = context.to_owned();
        out.append("\n\n");
        out.append(user_text);
        out.append(CLOSING_REMINDER);
        out
    } else {
        let mut out: String = user_text.to_owned();
        out.append(CLOSING_REMINDER);
        out
    }
}

// -------------------------------------------------------------------- runner

/// What a turn brought about.
#[derive(Debug)]
pub struct TurnOutcome {
    pub cleaned_text: String,
    pub markers: Vec<Marker>,
    /// How many of the markers were carried out.
    pub dispatched: u32,
}

/// The state of a runner between turns.
#[derive(Debug)]
pub struct Runner {
    pub run_id: String,
    pub config: RunnerConfig,
    pub shelf: Option<SkillShelf>,
    pub prompt_cache: PromptContextCache,
    pub turns_completed: u32,
    pub step_index: i64,
}

/// What a [`Runner`] has counted and kept.
pub struct RunnerView {
    pub turns_completed: u32,
    pub step_index: i64,
    pub cached: Option<CachedPromptBlocks>,
}

impl View for Runner {
    type V = RunnerView;

    open spec fn view(&self) -> RunnerView {
        RunnerView {
            turns_completed: self.turns_completed,
            step_index: self.step_index,
            cached: self.prompt_cache@,
        }
    }
}

impl TurnPhase {
    /// The phase after so many finished turns.
    pub open spec fn of(turns_completed: u32) -> TurnPhase {
        if turns_completed == 0 {
            TurnPhase::FirstTurn
        } else {
            TurnPhase::Subsequent
        }
    }

    /// The phase of a runner's next turn.
    pub fn from_runner(runner: &Runner) -> (r: TurnPhase)
        ensures
            r == TurnPhase::of(runner@.turns_completed),
    {
        if runner.turns_completed == 0 {
            TurnPhase::FirstTurn
        } else {
            TurnPhase::Subsequent
        }
    }
}

/// What is noted when a turn starts.
#[derive(Debug)]
pub struct TurnStart {
    /// The step of the turn.
    pub step: i64,
    pub prompt: String,
    pub details: Json,
}

impl Runner {
    /// A runner of the session `run_id` before its first turn.
    pub fn new(run_id: &str, config: RunnerConfig) -> (r: Runner)
        ensures
            r.run_id@ == run_id@,
            r.config == config,
            r@.turns_completed == 0,
            r@.step_index == 0,
            r@.cached is None,
            match config.skills_dir {
                Some(dir) => r.shelf matches Some(s) && s.path@ == dir@ && s.skills@.len() == 0,
                None => r.shelf is None,
            },
    {
        let shelf = match &config.skills_dir {
            Some(dir) => Some(SkillShelf { path: dir.as_str().to_owned(), skills: Vec::new() }),
            None => None,
        };
        Runner {
            run_id: run_id.to_owned(),
            config,
            shelf,
            prompt_cache: PromptContextCache::new(),
            turns_completed: 0,
            step_index: 0,
        }
    }

    /// The model that answers.
    pub fn model(&self) -> (r: &str)
        ensures
            r@ == self.config.model@,
    {
        self.config.model.as_str()
    }

    /// Sets the directory of skills. What was found there before is kept where
    /// the directory stays the same.
    pub fn set_skills_dir(&mut self, dir: &str)
        ensures
            final(self)@ == old(self)@,
            final(self).run_id == old(self).run_id,
            final(self).config == old(self).config,
            match old(self).shelf {
                Some(s) if s.path@ == dir@ => final(self).shelf == old(self).shelf,
                _ => final(self).shelf matches Some(s) && s.path@ == dir@ && s.skills@.len() == 0,
            },
    {
        let same = match &self.shelf {
            Some(s) => str_eq(s.path.as_str(), dir),
            None => false,
        };
        if !same {
            let skills: Vec<SkillCard> = Vec::new();
            self.shelf = Some(SkillShelf { path: dir.to_owned(), skills });
        }
    }

    /// Starts a turn: its step is taken, its prompt and what is noted of it are
    /// made. `context` is what the memory recalls, which counts at the first
    /// step alone.
    pub fn begin_turn(&mut self, user_text: &str, context: &str) -> (r: TurnStart)
        requires
            old(self)@.step_index < i64::MAX,
        ensures
            r.step == old(self)@.step_index,
            r.prompt@ == user_prompt(user_text@, r.step, context@),
            is_flat(
                r.details,
                seq![
                    ("user_text"@, Leaf::Text(user_text@)),
                    ("prompt_len"@, Leaf::Whole(byte_len(r.prompt@) as int)),
                ],
            ),
            final(self)@ == (RunnerView {
                step_index: (old(self)@.step_index + 1) as i64,
                ..old(self)@
            }),
            final(self).run_id == old(self).run_id,
            final(self).config == old(self).config,
            final(self).shelf == old(self).shelf,
    {
        let step: i64 = self.step_index;
        self.step_index = step + 1;
        let prompt = prepare_user_prompt(user_text, step, context);
        let mut fields: Vec<(String, Json)> = Vec::new();
        push_text(&mut fields, "user_text", user_text);
        push_count(&mut fields, "prompt_len", byte_length(prompt.as_str()));
        proof {
            assert(leaves(fields@) =~= seq![
                ("user_text"@, Leaf::Text(user_text@)),
                ("prompt_len"@, Leaf::Whole(byte_len(prompt@) as int)),
            ]);
        }
        TurnStart { step, prompt, details: Json::Object(fields) }
    }

    /// Whether the memory's context is recalled for the next turn.
    pub fn wants_context(&self) -> (r: bool)
        ensures
            r == (self@.step_index == 0),
    {
        self.step_index == 0
    }

    /// The step under which a running turn is traced and its markers noted.
    pub fn trace_step(&self) -> (r: i64)
        ensures
            r == self@.step_index,
    {
        self.step_index
    }

    /// Takes in how one marker fared. A marker that was carried out may have
    /// changed the store, so what was read from it is forgotten.
    pub fn note_dispatch(&mut self, carried_out: bool, dispatched: u32) -> (r: u32)
        requires
            dispatched < u32::MAX,
        ensures
            r == dispatched + (if carried_out {
                1int
            } else {
                0int
            }),
            final(self)@ == (RunnerView {
                cached: if carried_out {
                    None
                } else {
                    old(self)@.cached
                },
                ..old(self)@
            }),
            final(self).run_id == old(self).run_id,
            final(self).config == old(self).config,
            final(self).shelf == old(self).shelf,
    {
        if carried_out {
            self.prompt_cache.invalidate();
            dispatched + 1
        } else {
            dispatched
        }
    }

    /// Ends a turn that was answered.
    pub fn end_turn(&mut self, parsed: ParsedResponse, dispatched: u32) -> (r: TurnOutcome)
        requires
            old(self)@.turns_completed < u32::MAX,
        ensures
            r.cleaned_text == parsed.cleaned_text,
            r.markers == parsed.markers,
            r.dispatched == dispatched,
            final(self)@ == (RunnerView {
                turns_completed: (old(self)@.turns_completed + 1) as u32,
                ..old(self)@
            }),
            final(self).run_id == old(self).run_id,
            final(self).config == old(self).config,
            final(self).shelf == old(self).shelf,
    {
        self.turns_completed = self.turns_completed + 1;
        TurnOutcome { cleaned_text: parsed.cleaned_text, markers: parsed.markers, dispatched }
    }

    /// How many readings of the store are kept.
    pub fn _prompt_cache_len(&self) -> (r: usize)
        ensures
            r == (if self@.cached is Some {
                1usize
            } else {
                0usize
            }),
    {
        self.prompt_cache._len()
    }

    /// Forgets what was read from the store.
    pub fn _invalidate_prompt_cache(&mut self)
        ensures
            final(self)@ == (RunnerView { cached: None, ..old(self)@ }),
            final(self).run_id == old(self).run_id,
            final(self).config == old(self).config,
            final(self).shelf == old(self).shelf,
    {
        self.prompt_cache.invalidate();
    }

    /// How many turns were finished.
    pub fn _turns_completed(&self) -> (r: u32)
        ensures
            r == self@.turns_completed,
    {
        self.turns_completed
    }

    /// Counts a turn as finished.
    pub fn _bump_turns_completed(&mut self)
        requires
            old(self)@.turns_completed < u32::MAX,
        ensures
            final(self)@ == (RunnerView {
                turns_completed: (old(self)@.turns_completed + 1) as u32,
                ..old(self)@
            }),
            final(self).run_id == old(self).run_id,
            final(self).config == old(self).config,
            final(self).shelf == old(self).shelf,
    {
        self.turns_completed = self.turns_completed + 1;
    }
}

/// What is noted when a turn has ended. `raw` is the answer as it came.
pub fn turn_completed_details(raw: &str, parsed: &ParsedResponse, dispatched: u32, streamed: bool) -> (r:
    Json)
    ensures
        r matches Json::Object(fields) && fields@.len() == 5 && leaves(fields@.take(4)) == seq![
            ("raw_len"@, Leaf::Whole(byte_len(raw@) as int)),
            ("cleaned_len"@, Leaf::Whole(byte_len(parsed.cleaned_text@) as int)),
            ("markers"@, Leaf::Whole(parsed.markers@.len() as int)),
            ("dispatched"@, Leaf::Whole(dispatched as int)),
        ] && fields@[4].0@ == "streamed"@ && fields@[4].1 == Json::Bool(streamed),
{
    let mut fields: Vec<(String, Json)> = Vec::new();
    push_count(&mut fields, "raw_len", byte_length(raw));
    push_count(&mut fields, "cleaned_len", byte_length(parsed.cleaned_text.as_str()));
    push_count(&mut fields, "markers", parsed.markers.len());
    push_whole(&mut fields, "dispatched", dispatched as i64);
    let ghost four = fields@;
    proof {
        assert(leaves(four) =~= seq![
            ("raw_len"@, Leaf::Whole(byte_len(raw@) as int)),
            ("cleaned_len"@, Leaf::Whole(byte_len(parsed.cleaned_text@) as int)),
            ("markers"@, Leaf::Whole(parsed.markers@.len() as int)),
            ("dispatched"@, Leaf::Whole(dispatched as int)),
        ]);
        assert(leaves(four).len() == four.len());
    }
    fields.push(("streamed".to_owned(), Json::Bool(streamed)));
    proof {
        assert(fields@.take(4) =~= four);
    }
    Json::Object(fields)
}

// ------------------------------------------------------------------ dispatch

/// What is noted of a marker that was handed to a tool.
#[derive(Debug)]
pub struct DispatchRecord {
    /// The type of the logged event.
    pub kind: &'static str,
    pub details: Json,
    /// What is announced besides.
    pub announced: Option<MemoryEvent>,
}

/// Whether a value is the list of the keys of an object, or nothing where
/// `payload` is no object.
pub open spec fn lists_keys(v: Json, payload: Json) -> bool {
    match payload {
        Json::Object(fields) => v matches Json::Array(items) && items@.len() == fields@.len()
            && forall|i: int|
            0 <= i < fields@.len() ==> (#[trigger] items@[i]).text() == Some(fields@[i].0@),
        _ => v is Null,
    }
}

fn key_list(payload: &Json) -> (r: Json)
    ensures
        lists_keys(r, *payload),
{
    match payload {
        Json::Object(fields) => {
            let n: usize = fields.len();
            let mut items: Vec<Json> = Vec::new();
            let mut i: usize = 0;
            while i < n
                invariant
                    n == fields@.len(),
                    i <= n,
                    items@.len() == i,
                    forall|k: int|
                        0 <= k < i ==> (#[trigger] items@[k]).text() == Some(fields@[k].0@),
                decreases n - i,
            {
                items.push(Json::Str(fields[i].0.as_str().to_owned()));
                i += 1;
            }
            Json::Array(items)
        },
        _ => Json::Null,
    }
}

/// What is noted of a marker with the operation `op` that was handed to `tool`
/// with the arguments `payload`: a failure is announced too, with the names of
/// the arguments but not their values.
pub fn dispatch_record(agent: &str, op: &str, tool: &str, payload: &Json, error: Option<&str>) -> (r:
    DispatchRecord)
    ensures
        match error {
            None => {
                &&& r.kind@ == "memory_op"@
                &&& is_flat(
                    r.details,
                    seq![("op"@, Leaf::Text(op@)), ("aliased_to"@, Leaf::Text(tool@))],
                )
                &&& r.announced is None
            },
            Some(e) => {
                &&& r.kind@ == "memory_op_failed"@
                &&& r.details matches Json::Object(fields) && fields@.len() == 4 && leaves(
                    fields@.take(3),
                ) == seq![
                    ("op"@, Leaf::Text(op@)),
                    ("aliased_to"@, Leaf::Text(tool@)),
                    ("error"@, Leaf::Text(e@)),
                ] && fields@[3].0@ == "payload_keys"@ && lists_keys(fields@[3].1, *payload)
                &&& r.announced matches Some(MemoryEvent::MarkerFailed { agent: a, op: o, error: x })
                    && a@ == agent@ && o@ == op@ && x@ == e@
            },
        },
{
    let mut fields: Vec<(String, Json)> = Vec::new();
    push_text(&mut fields, "op", op);
    push_text(&mut fields, "aliased_to", tool);
    match error {
        None => {
            proof {
                assert(leaves(fields@) =~= seq![
                    ("op"@, Leaf::Text(op@)),
                    ("aliased_to"@, Leaf::Text(tool@)),
                ]);
            }
            DispatchRecord { kind: "memory_op", details: Json::Object(fields), announced: None }
        },
        Some(e) => {
            push_text(&mut fields, "error", e);
            let ghost three = fields@;
            proof {
                assert(leaves(three) =~= seq![
                    ("op"@, Leaf::Text(op@)),
                    ("aliased_to"@, Leaf::Text(tool@)),
                    ("error"@, Leaf::Text(e@)),
                ]);
                assert(leaves(three).len() == three.len());
            }
            fields.push(("payload_keys".to_owned(), key_list(payload)));
            proof {
                assert(fields@.take(3) =~= three);
            }
            let announced = MemoryEvent::MarkerFailed {
                agent: agent.to_owned(),
                op: op.to_owned(),
                error: e.to_owned(),
            };
            DispatchRecord {
                kind: "memory_op_failed",
                details: Json::Object(fields),
                announced: Some(announced),
            }
        },
    }
}

// ------------------------------------------------------------------- retries

/// How often the model is asked for one answer.
pub const MAX_ATTEMPTS: u32 = 3;

/// How an attempt to get an answer failed.
#[derive(Debug)]
pub enum QueryFailure {
    Error(String),
    TimedOut,
}

/// The base of the wait after an attempt, in milliseconds.
pub open spec fn base_wait(attempt: u32) -> int {
    BASE_BACKOFF_MS@[attempt as int] as int
}

/// How many milliseconds to wait before the next attempt; nothing where there
/// is none: after the last attempt, and after an error that will not pass.
pub open spec fn wait_after(failure: QueryFailure, step: i64, attempt: u32) -> Option<int> {
    if attempt + 1 >= MAX_ATTEMPTS {
        None
    } else {
        match failure {
            QueryFailure::Error(e) => if passing(lowercase(e@)) {
                Some(base_wait(attempt) + scattered(step as u64, attempt as u64) % 250)
            } else {
                None
            },
            QueryFailure::TimedOut => Some(
                base_wait(attempt) + scattered(step as u64, attempt as u64) % 500,
            ),
        }
    }
}

/// How many milliseconds to wait before the next attempt; nothing where the
/// failure is final. Attempts count from zero.
pub fn retry_wait(failure: &QueryFailure, step_index: i64, attempt: u32) -> (r: Option<u64>)
    ensures
        match r {
            Some(ms) => wait_after(*failure, step_index, attempt) == Some(ms as int),
            None => wait_after(*failure, step_index, attempt) is None,
        },
{
    if attempt >= MAX_ATTEMPTS - 1 {
        return None;
    }
    let spread: u64 = match failure {
        QueryFailure::Error(e) => {
            if !is_transient_error(e.as_str()) {
                return None;
            }
            250
        },
        QueryFailure::TimedOut => 500,
    };
    let extra: u64 = jitter(step_index as u64, attempt as u64, spread);
    let base: u64 = BASE_BACKOFF_MS[attempt as usize];
    proof {
        assert(base <= 3000);
    }
    Some(base + extra)
}

/// How a final failure is reported. `client` is the name of the client, `limit`
/// the time limit as it is shown.
pub open spec fn failure_text(
    failure: QueryFailure,
    client: Seq<char>,
    streamed: bool,
    limit: Seq<char>,
) -> Seq<char> {
    client + (if streamed {
        " stream query "@
    } else {
        " query "@
    }) + match failure {
        QueryFailure::Error(_) => "failed"@,
        QueryFailure::TimedOut => "timed out after "@ + limit + " ("@ + decimal(
            MAX_ATTEMPTS as nat,
        ) + " attempts)"@,
    }
}

/// How a final failure is reported. `client` is the name of the client, `limit`
/// the time limit as it is shown.
pub fn failure_report(failure: &QueryFailure, client: &str, streamed: bool, limit: &str) -> (r: String)
    ensures
        r@ == failure_text(*failure, client@, streamed, limit@),
{
    let mut out: String = client.to_owned();
    if streamed {
        out.append(" stream query ");
    } else {
        out.append(" query ");
    }
    match failure {
        QueryFailure::Error(_) => {
            out.append("failed");
        },
        QueryFailure::TimedOut => {
            let mut tail: String = "timed out after ".to_owned();
            tail.append(limit);
            tail.append(" (");
            tail.append(show_u64(MAX_ATTEMPTS as u64).as_str());
            tail.append(" attempts)");
            out.append(tail.as_str());
        },
    }
    out
}

// ---------------------------------------------------------------------- laws

/// Whatever the text, the step and the context, a prompt ends with the reminder,
/// and the text stands unchanged right in front of it.
pub proof fn law_prompt_ends_with_text_and_reminder(
    user_text: Seq<char>,
    step: i64,
    context: Seq<char>,
)
    ensures
        ({
            let p = user_prompt(user_text, step, context);
            let tail = user_text + CLOSING_REMINDER@;
            p.len() >= tail.len() && p.skip(p.len() - tail.len()) == tail
        }),
{
    let p = user_prompt(user_text, step, context);
    let tail = user_text + CLOSING_REMINDER@;
    assert(p.skip(p.len() - tail.len()) =~= tail);
}

/// Whether no line feed at one of the places from `lo` up to `hi` is followed by
/// another one.
pub open spec fn no_blank_line(s: Seq<char>, lo: int, hi: int) -> bool
    decreases hi - lo,
{
    if lo >= hi {
        true
    } else if lo + 1 == hi {
        !(s[lo] == '\n' && s[lo + 1] == '\n')
    } else {
        let mid = (lo + hi) / 2;
        no_blank_line(s, lo, mid) && no_blank_line(s, mid, hi)
    }
}

proof fn lemma_no_blank_line(s: Seq<char>, lo: int, hi: int, i: int)
    requires
        no_blank_line(s, lo, hi),
        lo <= i < hi,
    ensures
        !(s[i] == '\n' && s[i + 1] == '\n'),
    decreases hi - lo,
{
    if lo + 1 < hi {
        let mid = (lo + hi) / 2;
        if i < mid {
            lemma_no_blank_line(s, lo, mid, i);
        } else {
            lemma_no_blank_line(s, mid, hi, i);
        }
    }
}

/// The reminder begins with a blank line, holds no other and does not end with a
/// line feed, so no two copies of it overlap.
proof fn lemma_reminder_shape()
    ensures
        CLOSING_REMINDER@.len() > 2,
        CLOSING_REMINDER@[0] == '\n',
        CLOSING_REMINDER@[1] == '\n',
        CLOSING_REMINDER@.last() != '\n',
        no_blank_line(CLOSING_REMINDER@, 1, CLOSING_REMINDER@.len() - 1),
{
    reveal_strlit(
        "\n\n---\nIMPORTANT: When you have your answer, emit exactly ONE marker line:\n[[MEMORY_OP:<tool_name>:{<required JSON fields>}]]\nDo NOT just describe your answer in prose. The marker IS your tool call.\n---",
    );
    reveal_with_fuel(no_blank_line, 10);
}

/// A prompt whose text and context are free of the reminder holds it exactly
/// once, at its end.
pub proof fn law_reminder_appears_once(user_text: Seq<char>, step: i64, context: Seq<char>, i: int)
    requires
        ({
            let p = user_prompt(user_text, step, context);
            !occurs(p.take(p.len() - CLOSING_REMINDER@.len()), CLOSING_REMINDER@)
        }),
    ensures
        ({
            let p = user_prompt(user_text, step, context);
            matches_at(p, CLOSING_REMINDER@, i) <==> i == p.len() - CLOSING_REMINDER@.len()
        }),
{
    lemma_reminder_shape();
    let r = CLOSING_REMINDER@;
    let p = user_prompt(user_text, step, context);
    let n = p.len() - r.len();
    assert(p.skip(n) =~= r);
    assert(p.subrange(n, n + r.len()) =~= r);
    if matches_at(p, r, i) && i != n {
        assert(0 <= i < n);
        let there = p.subrange(i, i + r.len());
        if i + r.len() <= n {
            assert(p.take(n).subrange(i, i + r.len()) =~= there);
            assert(matches_at(p.take(n), r, i));
        } else {
            let d = n - i;
            assert(there[d] == p[n] && p[n] == p.skip(n)[0]);
            assert(r[d] == r[0]);
            if d + 1 < r.len() {
                assert(there[d + 1] == p[n + 1] && p[n + 1] == p.skip(n)[1]);
                lemma_no_blank_line(r, 1, r.len() - 1, d);
            }
        }
    }
}

/// After the first step the context changes nothing.
pub proof fn law_context_counts_once(
    user_text: Seq<char>,
    step: i64,
    a: Seq<char>,
    b: Seq<char>,
)
    requires
        step != 0,
    ensures
        user_prompt(user_text, step, a) == user_prompt(user_text, step, b),
{
}

/// An attempt is followed by another one only before the third, after a wait of
/// the base for that attempt and less than half a second more.
pub proof fn law_attempts_and_waits_are_bounded(failure: QueryFailure, step: i64, attempt: u32)
    ensures
        wait_after(failure, step, attempt) matches Some(ms) ==> attempt < 2 && base_wait(attempt)
            <= ms < base_wait(attempt) + 500,
        attempt < 2 ==> (wait_after(failure, step, attempt) is None <==> (failure matches QueryFailure::Error(
            e,
        ) && !passing(lowercase(e@)))),
{
}

/// Nothing that another session saves makes a runner forget what it read.
pub proof fn law_other_sessions_outdate_nothing(ev: MemoryEvent, run_id: Seq<char>)
    requires
        ev matches MemoryEvent::SemanticSaved { run_id: r, .. } && r@ != run_id,
    ensures
        !outdates(BusReading::Event(ev), run_id),
{
}

/// The first prompt of a runner opens with what the memory recalls, a blank line and the
/// text, unless the memory says that it recalls nothing; every other prompt opens with
/// the text.
pub proof fn law_recalled_context_opens_the_first_prompt(
    user_text: Seq<char>,
    step: i64,
    context: Seq<char>,
    rest: Seq<char>,
)
    ensures
        step != 0 ==> user_prompt(user_text, step, context) == user_text + CLOSING_REMINDER@,
        context == "(no prior context)"@ + rest ==> user_prompt(user_text, 0, context)
            == user_text + CLOSING_REMINDER@,
        context.len() > 0 && context[0] != '(' && !crate::text::white_space(context[0])
            ==> user_prompt(user_text, 0, context) == context + "\n\n"@ + user_text
            + CLOSING_REMINDER@,
{
    reveal_strlit("(no prior context)");
    let mark = "(no prior context)"@;
    if context == mark + rest {
        assert(context[0] == '(');
        assert(trimmed_start(context) == context);
        assert(context.subrange(0, mark.len() as int) =~= mark);
    }
    if context.len() > 0 && context[0] != '(' && !crate::text::white_space(context[0]) {
        assert(trimmed_start(context) == context);
        if begins(context, mark) {
            assert(context.subrange(0, mark.len() as int)[0] == mark[0]);
        }
    }
}

/// An answer is asked for three times at most. Between the first two attempts there is
/// less than half a second, before the third one a second more; after an error that will
/// pass less than a quarter of a second is added, after a time-out less than a half.
pub proof fn law_how_long_a_retry_waits(failure: QueryFailure, step: i64, attempt: u32)
    ensures
        attempt >= 2 ==> wait_after(failure, step, attempt) is None,
        attempt < 2 && failure is TimedOut ==> wait_after(failure, step, attempt) is Some,
        wait_after(failure, step, attempt) matches Some(ms) ==> ({
            let base = if attempt == 0 {
                0int
            } else {
                1000
            };
            base <= ms < base + (if failure is TimedOut {
                500int
            } else {
                250
            })
        }),
{
}

/// What a runner read from the store is forgotten after a note of its own session, after
/// any note on behaviour, and after events were lost; and after nothing else.
pub proof fn law_what_outdates_a_reading(reading: BusReading, run_id: Seq<char>)
    ensures
        outdates(reading, run_id) <==> {
            ||| reading is Lagged
            ||| reading matches BusReading::Event(ev) && ev is BehaviorSaved
            ||| reading matches BusReading::Event(ev) && ev is SemanticSaved
                && ev->SemanticSaved_run_id@ == run_id
        },
{
}

/// Only a turn with none before it is a first turn.
pub proof fn law_which_turn_is_the_first(n: u32)
    ensures
        TurnPhase::of(n) == TurnPhase::FirstTurn <==> n == 0,
{
}

/// A failure is told under the name of the client; a time limit that ran out is told with
/// the limit, and never as an error would be.
pub proof fn law_failures_are_told(
    failure: QueryFailure,
    client: Seq<char>,
    streamed: bool,
    limit: Seq<char>,
)
    ensures
        failure_text(failure, client, streamed, limit).len() > client.len(),
        failure_text(failure, client, streamed, limit).take(client.len() as int) == client,
        failure is Error ==> failure_text(failure, client, streamed, limit) == client + (
        if streamed {
            " stream query failed"@
        } else {
            " query failed"@
        }),
        failure is TimedOut ==> failure_text(failure, client, streamed, limit) == client + (
        if streamed {
            " stream query timed out after "@
        } else {
            " query timed out after "@
        }) + limit + " (3 attempts)"@,
{
    reveal_strlit(" stream query ");
    reveal_strlit(" query ");
    reveal_strlit(" stream query failed");
    reveal_strlit(" query failed");
    reveal_strlit("failed");
    reveal_strlit("timed out after ");
    reveal_strlit(" stream query timed out after ");
    reveal_strlit(" query timed out after ");
    reveal_strlit(" (");
    reveal_strlit(" attempts)");
    reveal_strlit(" (3 attempts)");
    reveal_with_fuel(decimal, 2);
    assert(decimal(3) =~= seq!['3']);
    let f = failure_text(failure, client, streamed, limit);
    assert(f.take(client.len() as int) =~= client);
    assert(" stream query "@ + "failed"@ =~= " stream query failed"@);
    assert(" query "@ + "failed"@ =~= " query failed"@);
    if failure is Error {
        assert(f =~= client + (if streamed {
            " stream query failed"@
        } else {
            " query failed"@
        }));
    } else {
        assert(" stream query "@ + "timed out after "@ =~= " stream query timed out after "@);
        assert(" query "@ + "timed out after "@ =~= " query timed out after "@);
        assert(" ("@ + decimal(3) + " attempts)"@ =~= " (3 attempts)"@);
        assert(f =~= client + (if streamed {
            " stream query "@ + "timed out after "@
        } else {
            " query "@ + "timed out after "@
        }) + limit + (" ("@ + decimal(3) + " attempts)"@));
    }
}

/// What is told of a payload is the names of its members, each at its place.
pub proof fn law_payload_keys_are_told(v: Json, payload: Json, i: int)
    requires
        lists_keys(v, payload),
    ensures
        !(payload is Object) ==> v is Null,
        payload is Object ==> v is Array && v->Array_0@.len() == payload->Object_0@.len(),
        payload is Object && 0 <= i < payload->Object_0@.len() ==> v->Array_0@[i].text() == Some(
            payload->Object_0@[i].0@,
        ),
{
    if payload is Object && 0 <= i < payload->Object_0@.len() {
        assert(v->Array_0@[i].text() == Some(payload->Object_0@[i].0@));
    }
}

} // verus!
