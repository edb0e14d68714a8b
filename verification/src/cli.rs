//! The command line: which command was asked for, and with what options.

use vstd::prelude::*;

use crate::agents::{self, all_agents, Agent};
use crate::marker::skill::{is_json, json_valid};
use crate::text::{
    chars_of, decimal_int, join, join_from, joined, line_one, first_line, pad_left, pad_right, padded_left,
    padded_right, parse_i64, parse_u64, parsed_i64, parsed_u64, show_i64, slice_of, starts_with,
    begins, str_eq, trim, trimmed, views,
};

verus! {

// ------------------------------------------------------------------- options

/// The first place from `i` on that holds `flag` with something behind it.
pub open spec fn flag_from(args: Seq<Seq<char>>, flag: Seq<char>, i: int) -> Option<int>
    decreases args.len() - i,
{
    if i < 0 || i + 1 >= args.len() {
        None
    } else if args[i] == flag {
        Some(i)
    } else {
        flag_from(args, flag, i + 1)
    }
}

/// What stands behind the first `flag` that has anything behind it.
pub open spec fn flag_value(args: Seq<Seq<char>>, flag: Seq<char>) -> Option<Seq<char>> {
    match flag_from(args, flag, 0) {
        Some(i) => Some(args[i + 1]),
        None => None,
    }
}

/// What stands behind the first `flag` that has anything behind it.
pub fn arg_value(args: &Vec<String>, flag: &str) -> (r: Option<String>)
    ensures
        match r {
            Some(s) => flag_value(views(args@), flag@) == Some(s@),
            None => flag_value(views(args@), flag@) is None,
        },
{
    let n: usize = args.len();
    let mut i: usize = 0;
    while i < n && i + 1 < n
        invariant
            n == args@.len(),
            i <= n,
            flag_from(views(args@), flag@, 0) == flag_from(views(args@), flag@, i as int),
        decreases n - i,
    {
        if str_eq(args[i].as_str(), flag) {
            proof {
                assert(views(args@)[i as int] == flag@);
                assert(views(args@)[i + 1] == args@[i + 1]@);
            }
            return Some(args[i + 1].as_str().to_owned());
        }
        proof {
            assert(views(args@)[i as int] == args@[i as int]@);
        }
        i += 1;
    }
    None
}

/// The first place from `i` on that holds `--`.
pub open spec fn separator_from(args: Seq<Seq<char>>, i: int) -> Option<int>
    decreases args.len() - i,
{
    if i < 0 || i >= args.len() {
        None
    } else if args[i] == "--"@ {
        Some(i)
    } else {
        separator_from(args, i + 1)
    }
}

/// One place behind the value of the last flag among the first `n` arguments;
/// a flag begins with two dashes.
pub open spec fn past_flags(args: Seq<Seq<char>>, n: nat) -> int
    decreases n,
{
    if n == 0 {
        0
    } else if begins(args[n - 1], "--"@) {
        (n + 1) as int
    } else {
        past_flags(args, (n - 1) as nat)
    }
}

/// Whether a word is an option of `start`, which may stand behind its goal.
pub open spec fn is_start_option(word: Seq<char>) -> bool {
    ||| word == "--preferences"@
    ||| word == "--budget"@
    ||| word == "--deadline"@
    ||| word == "--concurrency"@
    ||| word == "--initial"@
}

/// Whether the free text ends before the word at `i`: the command is `start` and
/// the word is one of its options.
pub open spec fn ends_text(args: Seq<Seq<char>>, i: int) -> bool {
    args.len() > 1 && args[1] == "start"@ && is_start_option(args[i])
}

/// Where the free text that begins at `i` ends.
pub open spec fn text_end(args: Seq<Seq<char>>, i: int) -> int
    decreases args.len() - i,
{
    if i < 0 || i >= args.len() || ends_text(args, i) {
        i
    } else {
        text_end(args, i + 1)
    }
}

/// The free text of a command line, its words joined by spaces: what stands
/// behind `--`, for `start` up to its options, or without it what stands behind
/// the last flag and its value.
pub open spec fn free_text(args: Seq<Seq<char>>) -> Option<Seq<char>> {
    match separator_from(args, 0) {
        Some(sep) if sep + 1 < text_end(args, sep + 1) => Some(
            joined(args.subrange(sep + 1, text_end(args, sep + 1)), " "@),
        ),
        _ => {
            let end = past_flags(args, args.len());
            if end < args.len() {
                Some(joined(args.skip(end), " "@))
            } else {
                None
            }
        },
    }
}

/// Whether a word is an option of `start`.
fn start_option(word: &str) -> (r: bool)
    ensures
        r == is_start_option(word@),
{
    str_eq(word, "--preferences") || str_eq(word, "--budget") || str_eq(word, "--deadline")
        || str_eq(word, "--concurrency") || str_eq(word, "--initial")
}

/// The words of the free text that begins at `from`.
fn text_words(args: &Vec<String>, from: usize) -> (r: Vec<String>)
    requires
        from <= args@.len(),
    ensures
        from <= text_end(views(args@), from as int) <= args@.len(),
        views(r@) == views(args@).subrange(
            from as int,
            text_end(views(args@), from as int),
        ),
{
    let n: usize = args.len();
    let ghost all = views(args@);
    let starts = n > 1 && str_eq(args[1].as_str(), "start");
    let mut r: Vec<String> = Vec::new();
    let mut i: usize = from;
    proof {
        assert(views(r@) =~= all.subrange(from as int, from as int));
        if n > 1 {
            assert(all[1] == args@[1]@);
        }
    }
    while i < n && !(starts && start_option(args[i].as_str()))
        invariant
            n == args@.len(),
            all == views(args@),
            from <= i <= n,
            starts == (all.len() > 1 && all[1] == "start"@),
            views(r@) == all.subrange(from as int, i as int),
            text_end(all, from as int) == text_end(all, i as int),
        decreases n - i,
    {
        let ghost before = r@;
        let word = args[i].as_str().to_owned();
        let ghost text = word@;
        r.push(word);
        proof {
            assert(all[i as int] == args@[i as int]@);
            assert(views(r@) =~= views(before).push(text));
            assert(all.subrange(from as int, i + 1) =~= all.subrange(from as int, i as int).push(
                text,
            ));
        }
        i += 1;
    }
    proof {
        if i < n {
            assert(all[i as int] == args@[i as int]@);
        }
    }
    r
}

proof fn lemma_views_skip(v: Seq<String>, n: int)
    requires
        0 <= n <= v.len(),
    ensures
        views(v.skip(n)) == views(v).skip(n),
{
    assert(views(v.skip(n)) =~= views(v).skip(n));
}

/// The free text of a command line, its words joined by spaces: what stands
/// behind `--`, for `start` up to its options, or without it what stands behind
/// the last flag and its value.
pub fn positional_after_flags(args: &Vec<String>) -> (r: Option<String>)
    ensures
        match r {
            Some(s) => free_text(views(args@)) == Some(s@),
            None => free_text(views(args@)) is None,
        },
{
    let n: usize = args.len();
    let ghost all = views(args@);
    let mut i: usize = 0;
    while i < n && !str_eq(args[i].as_str(), "--")
        invariant
            n == args@.len(),
            all == views(args@),
            i <= n,
            separator_from(all, 0) == separator_from(all, i as int),
        decreases n - i,
    {
        proof {
            assert(all[i as int] == args@[i as int]@);
        }
        i += 1;
    }
    if i < n {
        proof {
            assert(all[i as int] == args@[i as int]@);
        }
        let words = text_words(args, i + 1);
        if words.len() > 0 {
            proof {
                assert(views(words@).len() == words@.len());
            }
            return Some(join(&words, " "));
        }
        proof {
            assert(views(words@).len() == words@.len());
        }
    }
    let mut k: usize = n;
    while k > 0 && !starts_with(args[k - 1].as_str(), "--")
        invariant
            n == args@.len(),
            all == views(args@),
            k <= n,
            past_flags(all, n as nat) == past_flags(all, k as nat),
        decreases k,
    {
        proof {
            assert(all[k - 1] == args@[k - 1]@);
        }
        k -= 1;
    }
    if k > 0 {
        proof {
            assert(all[k - 1] == args@[k - 1]@);
        }
        if k < n && k + 1 < n {
            proof {
                lemma_views_skip(args@, k + 1);
            }
            Some(join_from(args, k + 1, " "))
        } else {
            None
        }
    } else if n > 0 {
        proof {
            lemma_views_skip(args@, 0);
        }
        Some(join_from(args, 0, " "))
    } else {
        None
    }
}

// ----------------------------------------------------------------- durations

/// How many seconds the unit at the end of a duration stands for, and the text
/// in front of it; without a unit the text counts seconds.
pub open spec fn duration_parts(s: Seq<char>) -> (Seq<char>, int) {
    let t = trimmed(s);
    if t.len() > 0 && t.last() == 'h' {
        (trimmed(t.drop_last()), 3600)
    } else if t.len() > 0 && t.last() == 'm' {
        (trimmed(t.drop_last()), 60)
    } else if t.len() > 0 && t.last() == 's' {
        (trimmed(t.drop_last()), 1)
    } else {
        (t, 1)
    }
}

/// The seconds that a duration such as `2h`, `90m`, `45s` or `30` stands for.
pub open spec fn duration_secs(s: Seq<char>) -> Option<int> {
    let (digits, unit) = duration_parts(s);
    match parsed_u64(digits) {
        Some(n) => Some(n * unit),
        None => None,
    }
}

/// Whether the seconds of a duration fit in 64 bits.
pub open spec fn duration_fits(s: Seq<char>) -> bool {
    match duration_secs(s) {
        Some(n) => n <= u64::MAX,
        None => true,
    }
}

/// The number in front of the unit of a duration, and the unit in seconds.
fn duration_split(s: &str) -> (r: (Option<u64>, u64))
    ensures
        r.0 == parsed_u64(duration_parts(s@).0),
        r.1 == duration_parts(s@).1,
        r.1 == 1 || r.1 == 60 || r.1 == 3600,
{
    let t = trim(s);
    let v = chars_of(t.as_str());
    let n: usize = v.len();
    if n == 0 {
        return (parse_u64(t.as_str()), 1);
    }
    let last = v[n - 1];
    if last == 'h' || last == 'm' || last == 's' {
        let unit: u64 = if last == 'h' {
            3600
        } else if last == 'm' {
            60
        } else {
            1
        };
        let head = slice_of(&v, 0, n - 1);
        proof {
            assert(v@.subrange(0, n - 1) =~= t@.drop_last());
        }
        let digits = trim(head.as_str());
        (parse_u64(digits.as_str()), unit)
    } else {
        (parse_u64(t.as_str()), 1)
    }
}

/// Whether the seconds of a duration fit in 64 bits.
pub fn duration_in_range(s: &str) -> (r: bool)
    ensures
        r == duration_fits(s@),
{
    let (digits, unit) = duration_split(s);
    match digits {
        Some(n) => n.checked_mul(unit).is_some(),
        None => true,
    }
}

/// The seconds that a duration such as `2h`, `90m`, `45s` or `30` stands for.
pub fn parse_duration_secs(s: &str) -> (r: Option<u64>)
    requires
        duration_fits(s@),
    ensures
        match r {
            Some(n) => duration_secs(s@) == Some(n as int),
            None => duration_secs(s@) is None,
        },
{
    let (digits, unit) = duration_split(s);
    match digits {
        Some(n) => Some(n * unit),
        None => None,
    }
}

// ------------------------------------------------------------------ commands

/// The commands of the program.
#[derive(Clone, Copy, Debug, PartialEq, Eq, Structural)]
pub enum Command {
    Init,
    Run,
    Memory,
    Tools,
    Skills,
    Enqueue,
    Serve,
    Start,
    Promote,
}

impl Command {
    /// The word that asks for the command.
    pub open spec fn word(self) -> Seq<char> {
        match self {
            Command::Init => "init"@,
            Command::Run => "run"@,
            Command::Memory => "memory"@,
            Command::Tools => "tools"@,
            Command::Skills => "skills"@,
            Command::Enqueue => "enqueue"@,
            Command::Serve => "serve"@,
            Command::Start => "start"@,
            Command::Promote => "promote"@,
        }
    }
}

/// What the first argument behind the program's name asks for.
#[derive(Debug)]
pub enum Request {
    /// A command of the program.
    Known(Command),
    /// A word that names no command.
    Unknown(String),
    /// No argument at all.
    Nothing,
}

/// Two commands are not asked for by the same word.
pub proof fn law_command_words_are_distinct(a: Command, b: Command)
    requires
        a.word() == b.word(),
    ensures
        a == b,
{
    reveal_strlit("init");
    reveal_strlit("run");
    reveal_strlit("memory");
    reveal_strlit("tools");
    reveal_strlit("skills");
    reveal_strlit("enqueue");
    reveal_strlit("serve");
    reveal_strlit("start");
    reveal_strlit("promote");
    let s = a.word();
    let t = b.word();
    assert(s.len() == t.len() && s[0] == t[0] && s[1] == t[1]);
}

fn command_of(word: &str) -> (r: Option<Command>)
    ensures
        match r {
            Some(c) => c.word() == word@,
            None => forall|c: Command| #[trigger] c.word() != word@,
        },
{
    if str_eq(word, "init") {
        Some(Command::Init)
    } else if str_eq(word, "run") {
        Some(Command::Run)
    } else if str_eq(word, "memory") {
        Some(Command::Memory)
    } else if str_eq(word, "tools") {
        Some(Command::Tools)
    } else if str_eq(word, "skills") {
        Some(Command::Skills)
    } else if str_eq(word, "enqueue") {
        Some(Command::Enqueue)
    } else if str_eq(word, "serve") {
        Some(Command::Serve)
    } else if str_eq(word, "start") {
        Some(Command::Start)
    } else if str_eq(word, "promote") {
        Some(Command::Promote)
    } else {
        None
    }
}

/// What a command line asks for; its first word is the program's name.
pub fn requested(args: &Vec<String>) -> (r: Request)
    ensures
        match r {
            Request::Known(c) => args@.len() >= 2 && c.word() == args@[1]@,
            Request::Unknown(w) => {
                &&& args@.len() >= 2
                &&& w@ == args@[1]@
                &&& forall|c: Command| #[trigger] c.word() != args@[1]@
            },
            Request::Nothing => args@.len() < 2,
        },
{
    if args.len() < 2 {
        return Request::Nothing;
    }
    match command_of(args[1].as_str()) {
        Some(c) => Request::Known(c),
        None => Request::Unknown(args[1].as_str().to_owned()),
    }
}

/// An option or a text that a command needs and did not get.
#[derive(Clone, Copy, Debug, PartialEq, Eq, Structural)]
pub enum Missing {
    RunAgent,
    RunText,
    StartGoal,
    EnqueueAction,
    EnqueuePayload,
    ContextAgent,
    ContextQuery,
}

impl Missing {
    /// How the missing part is reported.
    pub open spec fn spec_message(self) -> Seq<char> {
        match self {
            Missing::RunAgent => "--agent NAME is required"@,
            Missing::RunText => "missing user text"@,
            Missing::StartGoal => "-- \"goal text\" is required"@,
            Missing::EnqueueAction => "--action NAME is required"@,
            Missing::EnqueuePayload => "missing JSON payload"@,
            Missing::ContextAgent => "--agent NAME required"@,
            Missing::ContextQuery => "missing query"@,
        }
    }

    /// How the missing part is reported.
    pub fn message(self) -> (r: &'static str)
        ensures
            r@ == self.spec_message(),
    {
        match self {
            Missing::RunAgent => "--agent NAME is required",
            Missing::RunText => "missing user text",
            Missing::StartGoal => "-- \"goal text\" is required",
            Missing::EnqueueAction => "--action NAME is required",
            Missing::EnqueuePayload => "missing JSON payload",
            Missing::ContextAgent => "--agent NAME required",
            Missing::ContextQuery => "missing query",
        }
    }
}

/// An agent's name and the text for it.
#[derive(Debug)]
pub struct AgentText {
    pub agent: String,
    pub text: String,
}

/// The agent and the text of a command line; what is missing first is reported.
fn agent_and_text(args: &Vec<String>, no_agent: Missing, no_text: Missing) -> (r: Result<
    AgentText,
    Missing,
>)
    ensures
        match r {
            Ok(o) => {
                &&& flag_value(views(args@), "--agent"@) == Some(o.agent@)
                &&& free_text(views(args@)) == Some(o.text@)
            },
            Err(m) => if flag_value(views(args@), "--agent"@) is None {
                m == no_agent
            } else {
                m == no_text && free_text(views(args@)) is None
            },
        },
{
    match arg_value(args, "--agent") {
        Some(agent) => match positional_after_flags(args) {
            Some(text) => Ok(AgentText { agent, text }),
            None => Err(no_text),
        },
        None => Err(no_agent),
    }
}

/// The options of `run`: the agent, and the text of its turn.
pub fn run_options(args: &Vec<String>) -> (r: Result<AgentText, Missing>)
    ensures
        match r {
            Ok(o) => {
                &&& flag_value(views(args@), "--agent"@) == Some(o.agent@)
                &&& free_text(views(args@)) == Some(o.text@)
            },
            Err(m) => if flag_value(views(args@), "--agent"@) is None {
                m == Missing::RunAgent
            } else {
                m == Missing::RunText && free_text(views(args@)) is None
            },
        },
{
    agent_and_text(args, Missing::RunAgent, Missing::RunText)
}

/// The options of `memory context`: the agent, and the query.
pub fn context_options(args: &Vec<String>) -> (r: Result<AgentText, Missing>)
    ensures
        match r {
            Ok(o) => {
                &&& flag_value(views(args@), "--agent"@) == Some(o.agent@)
                &&& free_text(views(args@)) == Some(o.text@)
            },
            Err(m) => if flag_value(views(args@), "--agent"@) is None {
                m == Missing::ContextAgent
            } else {
                m == Missing::ContextQuery && free_text(views(args@)) is None
            },
        },
{
    agent_and_text(args, Missing::ContextAgent, Missing::ContextQuery)
}

/// The options of `enqueue`. A session that was not given is opened anew.
#[derive(Debug)]
pub struct EnqueueOptions {
    pub action: String,
    pub session: Option<String>,
    pub agent: String,
    pub payload: String,
}

impl EnqueueOptions {
    /// Whether the payload is JSON.
    pub fn check_payload(&self) -> (r: Result<(), String>)
        ensures
            match r {
                Ok(_) => json_valid(self.payload@),
                Err(e) => {
                    &&& e@ == "payload is not valid JSON: "@ + self.payload@
                    &&& !json_valid(self.payload@)
                },
            },
    {
        if is_json(self.payload.as_str()) {
            Ok(())
        } else {
            let mut e: String = "payload is not valid JSON: ".to_owned();
            e.append(self.payload.as_str());
            Err(e)
        }
    }
}

/// The text of an option, or `default` without it.
pub open spec fn option_or(given: Option<Seq<char>>, default: Seq<char>) -> Seq<char> {
    match given {
        Some(s) => s,
        None => default,
    }
}

/// The text of the option `flag`, or `default` without it.
fn value_or(args: &Vec<String>, flag: &str, default: &str) -> (r: String)
    ensures
        r@ == option_or(flag_value(views(args@), flag@), default@),
{
    match arg_value(args, flag) {
        Some(s) => s,
        None => default.to_owned(),
    }
}

/// The options of `enqueue`.
pub fn enqueue_options(args: &Vec<String>) -> (r: Result<EnqueueOptions, Missing>)
    ensures
        match r {
            Ok(o) => {
                &&& flag_value(views(args@), "--action"@) == Some(o.action@)
                &&& flag_value(views(args@), "--session"@) == crate::text::opt_view(o.session)
                &&& o.agent@ == option_or(flag_value(views(args@), "--agent"@), "experiment"@)
                &&& free_text(views(args@)) == Some(o.payload@)
            },
            Err(m) => if flag_value(views(args@), "--action"@) is None {
                m == Missing::EnqueueAction
            } else {
                m == Missing::EnqueuePayload && free_text(views(args@)) is None
            },
        },
{
    match arg_value(args, "--action") {
        Some(action) => {
            let session = arg_value(args, "--session");
            let agent = value_or(args, "--agent", "experiment");
            match positional_after_flags(args) {
                Some(payload) => Ok(EnqueueOptions { action, session, agent, payload }),
                None => Err(Missing::EnqueuePayload),
            }
        },
        None => Err(Missing::EnqueueAction),
    }
}

/// The options of `start`. The budget stands as it was written.
#[derive(Debug)]
pub struct StartOptions {
    pub goal: String,
    pub preferences: String,
    pub budget: Option<String>,
    pub deadline_secs: u64,
    pub concurrency: usize,
    pub n_initial: usize,
}

/// The count that an option states, or `default` where it states none.
pub open spec fn count_or(given: Option<Seq<char>>, default: usize) -> usize {
    match given {
        Some(s) => match parsed_u64(s) {
            Some(n) => if n <= usize::MAX {
                n as usize
            } else {
                default
            },
            None => default,
        },
        None => default,
    }
}

fn count_option(args: &Vec<String>, flag: &str, default: usize) -> (r: usize)
    ensures
        r == count_or(flag_value(views(args@), flag@), default),
{
    match arg_value(args, flag) {
        Some(s) => match parse_u64(s.as_str()) {
            Some(n) => if n <= usize::MAX as u64 {
                n as usize
            } else {
                default
            },
            None => default,
        },
        None => default,
    }
}

/// The deadline of a command line in seconds; zero without one.
pub open spec fn deadline_of(args: Seq<Seq<char>>) -> int {
    match flag_value(args, "--deadline"@) {
        Some(s) => match duration_secs(s) {
            Some(n) => n,
            None => 0,
        },
        None => 0,
    }
}

/// Whether the deadline of a command line fits in 64 bits of seconds.
pub fn deadline_in_range(args: &Vec<String>) -> (r: bool)
    ensures
        r == (deadline_of(views(args@)) <= u64::MAX),
{
    match arg_value(args, "--deadline") {
        Some(s) => duration_in_range(s.as_str()),
        None => true,
    }
}

/// The options of `start`: without a deadline none is kept, four tasks run side
/// by side and three hypotheses are asked for at first.
pub fn start_options(args: &Vec<String>) -> (r: Result<StartOptions, Missing>)
    requires
        deadline_of(views(args@)) <= u64::MAX,
    ensures
        match r {
            Ok(o) => {
                &&& free_text(views(args@)) == Some(o.goal@)
                &&& o.preferences@ == option_or(flag_value(views(args@), "--preferences"@), ""@)
                &&& crate::text::opt_view(o.budget) == flag_value(views(args@), "--budget"@)
                &&& o.deadline_secs == deadline_of(views(args@))
                &&& o.concurrency == count_or(flag_value(views(args@), "--concurrency"@), 4)
                &&& o.n_initial == count_or(flag_value(views(args@), "--initial"@), 3)
            },
            Err(m) => m == Missing::StartGoal && free_text(views(args@)) is None,
        },
{
    match positional_after_flags(args) {
        Some(goal) => {
            let preferences = value_or(args, "--preferences", "");
            let budget = arg_value(args, "--budget");
            let deadline_secs: u64 = match arg_value(args, "--deadline") {
                Some(s) => match parse_duration_secs(s.as_str()) {
                    Some(n) => n,
                    None => 0,
                },
                None => 0,
            };
            let concurrency: usize = count_option(args, "--concurrency", 4);
            let n_initial: usize = count_option(args, "--initial", 3);
            Ok(StartOptions { goal, preferences, budget, deadline_secs, concurrency, n_initial })
        },
        None => Err(Missing::StartGoal),
    }
}

/// What `memory` is asked to show.
#[derive(Debug)]
pub enum MemoryRequest {
    /// How many rows each table holds.
    Count,
    /// The last events, and how many of them.
    Recent(i64),
    /// The context block of an agent.
    Context,
    /// A word that `memory` does not know.
    Unknown(String),
}

/// The word behind `memory`; empty without one.
pub open spec fn memory_word(args: Seq<Seq<char>>) -> Seq<char> {
    if args.len() > 2 {
        args[2]
    } else {
        ""@
    }
}

/// How many of the last events are asked for; ten unless a number says so.
pub open spec fn recent_count(args: Seq<Seq<char>>) -> i64 {
    if args.len() > 3 {
        match parsed_i64(args[3]) {
            Some(n) => n,
            None => 10,
        }
    } else {
        10
    }
}

/// What `memory` is asked to show.
pub fn memory_request(args: &Vec<String>) -> (r: MemoryRequest)
    ensures
        ({
            let word = memory_word(views(args@));
            match r {
                MemoryRequest::Count => word == "count"@,
                MemoryRequest::Recent(n) => word == "recent"@ && n == recent_count(views(args@)),
                MemoryRequest::Context => word == "context"@,
                MemoryRequest::Unknown(w) => {
                    &&& w@ == word
                    &&& word != "count"@
                    &&& word != "recent"@
                    &&& word != "context"@
                },
            }
        }),
{
    let word: &str = if args.len() > 2 {
        args[2].as_str()
    } else {
        ""
    };
    proof {
        if args@.len() > 2 {
            assert(views(args@)[2] == args@[2]@);
        }
    }
    if str_eq(word, "count") {
        MemoryRequest::Count
    } else if str_eq(word, "recent") {
        let mut n: i64 = 10;
        if args.len() > 3 {
            proof {
                assert(views(args@)[3] == args@[3]@);
            }
            if let Some(k) = parse_i64(args[3].as_str()) {
                n = k;
            }
        }
        MemoryRequest::Recent(n)
    } else if str_eq(word, "context") {
        MemoryRequest::Context
    } else {
        MemoryRequest::Unknown(word.to_owned())
    }
}

// -------------------------------------------------------------------- output

/// A line of `memory count`: the name of a table and how many rows it holds.
pub fn count_line(table: &str, n: i64) -> (r: String)
    ensures
        r@ == padded_right(table@, 20) + " "@ + decimal_int(n as int),
{
    let mut out = pad_right(table, 20);
    out.append(" ");
    out.append(show_i64(n).as_str());
    out
}

/// The last line of `memory count`: the file that was read.
pub fn file_line(path: &str) -> (r: String)
    ensures
        r@ == padded_right(path@, 20) + " (file)"@,
{
    let mut out = pad_right(path, 20);
    out.append(" (file)");
    out
}

/// A line of `memory recent`.
pub fn event_line(id: i64, step: i64, agent: &str, kind: &str, at: &str) -> (r: String)
    ensures
        r@ == "#"@ + padded_left(decimal_int(id as int), 5) + " step="@ + padded_right(
            decimal_int(step as int),
            3,
        ) + " agent="@ + padded_right(agent@, 12) + " type="@ + padded_right(kind@, 20) + " "@
            + at@,
{
    let mut out: String = "#".to_owned();
    out.append(pad_left(show_i64(id).as_str(), 5).as_str());
    out.append(" step=");
    out.append(pad_right(show_i64(step).as_str(), 3).as_str());
    out.append(" agent=");
    out.append(pad_right(agent, 12).as_str());
    out.append(" type=");
    out.append(pad_right(kind, 20).as_str());
    out.append(" ");
    out.append(at);
    out
}

/// A line of `tools list`: the name of a tool and the first line about it.
pub fn tool_line(name: &str, description: &str) -> (r: String)
    ensures
        r@ == padded_right(name@, 20) + " "@ + first_line(description@),
{
    let mut out = pad_right(name, 20);
    out.append(" ");
    out.append(line_one(description).as_str());
    out
}

/// A line of `skills list`.
pub fn skill_line(name: &str, description: &str, entrypoint: &str) -> (r: String)
    ensures
        r@ == padded_right(name@, 24) + " "@ + first_line(description@) + " (entrypoint: "@
            + entrypoint@ + ")"@,
{
    let mut out = pad_right(name, 24);
    out.append(" ");
    out.append(line_one(description).as_str());
    out.append(" (entrypoint: ");
    out.append(entrypoint);
    out.append(")");
    out
}

/// The agent with the name `name`, or what to say where there is none.
pub fn find_agent(name: &str) -> (r: Result<Agent, String>)
    ensures
        match r {
            Ok(a) => a@.name == name@ && all_agents().contains(a@),
            Err(e) => {
                &&& e@ == "unknown agent: "@ + name@
                &&& forall|i: int|
                    0 <= i < all_agents().len() ==> (#[trigger] all_agents()[i]).name != name@
            },
        },
{
    match agents::find_agent(name) {
        Some(a) => Ok(a),
        None => {
            let mut e: String = "unknown agent: ".to_owned();
            e.append(name);
            Err(e)
        },
    }
}

// ---------------------------------------------------------------------- laws

/// A flag's value is the argument behind it, whatever flag stands further on.
pub proof fn law_first_flag_counts(args: Seq<Seq<char>>, flag: Seq<char>, i: int)
    requires
        0 <= i,
        i + 1 < args.len(),
        args[i] == flag,
        forall|j: int| 0 <= j < i ==> args[j] != flag,
    ensures
        flag_value(args, flag) == Some(args[i + 1]),
{
    lemma_flag_from(args, flag, 0, i);
}

proof fn lemma_flag_from(args: Seq<Seq<char>>, flag: Seq<char>, from: int, i: int)
    requires
        0 <= from <= i,
        i + 1 < args.len(),
        args[i] == flag,
        forall|j: int| 0 <= j < i ==> args[j] != flag,
    ensures
        flag_from(args, flag, from) == Some(i),
    decreases i - from,
{
    if from < i {
        lemma_flag_from(args, flag, from + 1, i);
    }
}

/// Behind the first `--` everything up to the options of `start` is free text,
/// other flags too.
pub proof fn law_all_is_text_behind_separator(args: Seq<Seq<char>>, i: int, k: int)
    requires
        0 <= i,
        i + 1 < k <= args.len(),
        args[i] == "--"@,
        forall|j: int| 0 <= j < i ==> args[j] != "--"@,
        forall|j: int| i < j < k ==> !ends_text(args, j),
        k < args.len() ==> ends_text(args, k),
    ensures
        free_text(args) == Some(joined(args.subrange(i + 1, k), " "@)),
{
    lemma_separator_from(args, 0, i);
    lemma_text_end(args, i + 1, k);
}

proof fn lemma_text_end(args: Seq<Seq<char>>, from: int, k: int)
    requires
        0 <= from <= k <= args.len(),
        forall|j: int| from <= j < k ==> !ends_text(args, j),
        k < args.len() ==> ends_text(args, k),
    ensures
        text_end(args, from) == k,
    decreases k - from,
{
    if from < k {
        lemma_text_end(args, from + 1, k);
    }
}

/// No command but `start` has options behind its text: there all that stands
/// behind the first `--` is text.
pub proof fn law_other_commands_keep_all_text(args: Seq<Seq<char>>, i: int)
    requires
        0 <= i,
        i + 1 < args.len(),
        args[i] == "--"@,
        forall|j: int| 0 <= j < i ==> args[j] != "--"@,
        args[1] != "start"@,
    ensures
        free_text(args) == Some(joined(args.skip(i + 1), " "@)),
{
    law_all_is_text_behind_separator(args, i, args.len() as int);
    assert(args.subrange(i + 1, args.len() as int) =~= args.skip(i + 1));
}

proof fn lemma_separator_from(args: Seq<Seq<char>>, from: int, i: int)
    requires
        0 <= from <= i < args.len(),
        args[i] == "--"@,
        forall|j: int| 0 <= j < i ==> args[j] != "--"@,
    ensures
        separator_from(args, from) == Some(i),
    decreases i - from,
{
    if from < i {
        lemma_separator_from(args, from + 1, i);
    }
}

proof fn lemma_no_flag(args: Seq<Seq<char>>, flag: Seq<char>, from: int)
    requires
        0 <= from,
        forall|j: int| from <= j < args.len() - 1 ==> args[j] != flag,
    ensures
        flag_from(args, flag, from) is None,
    decreases args.len() - from,
{
    if from + 1 < args.len() {
        lemma_no_flag(args, flag, from + 1);
    }
}

/// A flag that does not stand on the command line, or only at its very end, has no value.
pub proof fn law_absent_flags_have_no_value(args: Seq<Seq<char>>, flag: Seq<char>)
    requires
        forall|j: int| 0 <= j < args.len() - 1 ==> args[j] != flag,
    ensures
        flag_value(args, flag) is None,
{
    lemma_no_flag(args, flag, 0);
}

/// Behind its goal `start` takes five options, and these alone end the text.
pub proof fn law_which_words_end_the_goal(args: Seq<Seq<char>>, i: int)
    requires
        0 <= i < args.len(),
        args.len() > 1,
    ensures
        ends_text(args, i) <==> args[1] == "start"@ && (args[i] == "--preferences"@ || args[i]
            == "--budget"@ || args[i] == "--deadline"@ || args[i] == "--concurrency"@ || args[i]
            == "--initial"@),
{
}

proof fn lemma_no_separator(args: Seq<Seq<char>>, from: int)
    requires
        0 <= from,
        forall|j: int| from <= j < args.len() ==> args[j] != "--"@,
    ensures
        separator_from(args, from) is None,
    decreases args.len() - from,
{
    if from < args.len() {
        lemma_no_separator(args, from + 1);
    }
}

proof fn lemma_past_flags(args: Seq<Seq<char>>, n: nat, k: int)
    requires
        0 <= k < n <= args.len(),
        begins(args[k], "--"@),
        forall|j: int| k < j < n ==> !begins(#[trigger] args[j], "--"@),
    ensures
        past_flags(args, n) == k + 2,
    decreases n,
{
    if n - 1 > k {
        assert(!begins(args[n - 1], "--"@));
        lemma_past_flags(args, (n - 1) as nat, k);
    }
}

/// Without `--` the text is what stands behind the last flag and its value; where nothing
/// stands there, there is no text.
pub proof fn law_text_without_separator(args: Seq<Seq<char>>, k: int)
    requires
        0 <= k < args.len(),
        forall|j: int| 0 <= j < args.len() ==> args[j] != "--"@,
        begins(args[k], "--"@),
        forall|j: int| k < j < args.len() ==> !begins(#[trigger] args[j], "--"@),
    ensures
        k + 2 < args.len() ==> free_text(args) == Some(joined(args.skip(k + 2), " "@)),
        k + 2 >= args.len() ==> free_text(args) is None,
{
    lemma_no_separator(args, 0);
    lemma_past_flags(args, args.len(), k);
}

proof fn lemma_digits_are_bare(n: nat)
    ensures
        crate::text::decimal(n).len() > 0,
        forall|i: int|
            0 <= i < crate::text::decimal(n).len() ==> '0' <= #[trigger] crate::text::decimal(
                n,
            )[i] <= '9',
    decreases n,
{
    if n >= 10 {
        lemma_digits_are_bare(n / 10);
    }
}

/// A duration is a number of hours, minutes or seconds by its last letter, and of seconds
/// without one; white space around it does not matter.
pub proof fn law_durations_go_by_their_unit(n: u64, left: Seq<char>, right: Seq<char>)
    requires
        forall|i: int| 0 <= i < left.len() ==> crate::text::white_space(left[i]),
        forall|i: int| 0 <= i < right.len() ==> crate::text::white_space(right[i]),
    ensures
        ({
            let d = crate::text::decimal(n as nat);
            &&& duration_secs(left + d.push('h') + right) == Some(n * 3600)
            &&& duration_secs(left + d.push('m') + right) == Some(n * 60)
            &&& duration_secs(left + d.push('s') + right) == Some(n as int)
            &&& duration_secs(left + d + right) == Some(n as int)
        }),
{
    let d = crate::text::decimal(n as nat);
    lemma_digits_are_bare(n as nat);
    crate::text::law_numbers_are_read_back(n, 0);
    crate::text::law_trimming_takes_white_space(left, d, right);
    crate::text::law_trimming_takes_white_space(Seq::empty(), d, Seq::empty());
    assert(Seq::<char>::empty() + d + Seq::<char>::empty() =~= d);
    assert('0' <= d[0] <= '9' && '0' <= d[d.len() - 1] <= '9');
    assert(d.push('h')[0] == d[0] && d.push('m')[0] == d[0] && d.push('s')[0] == d[0]);
    crate::text::law_trimming_takes_white_space(left, d.push('h'), right);
    crate::text::law_trimming_takes_white_space(left, d.push('m'), right);
    crate::text::law_trimming_takes_white_space(left, d.push('s'), right);
    assert(d.push('h').drop_last() =~= d);
    assert(d.push('m').drop_last() =~= d);
    assert(d.push('s').drop_last() =~= d);
    assert(trimmed(d) == d);
    assert(duration_parts(left + d.push('h') + right) == (d, 3600int));
    assert(duration_parts(left + d.push('m') + right) == (d, 60int));
    assert(duration_parts(left + d.push('s') + right) == (d, 1int));
    assert(duration_parts(left + d + right) == (d, 1int));
    let h = duration_parts(left + d.push('h') + right).1;
    let m = duration_parts(left + d.push('m') + right).1;
    let one = duration_parts(left + d + right).1;
    assert(n * h == n * 3600) by (nonlinear_arith)
        requires
            h == 3600,
    ;
    assert(n * m == n * 60) by (nonlinear_arith)
        requires
            m == 60,
    ;
    assert(n * one == n) by (nonlinear_arith)
        requires
            one == 1,
    ;
}

/// A count is the number that was written, and the usual one where none was or where it is
/// no number.
pub proof fn law_counts_are_as_written(n: u32, usual: usize, s: Seq<char>, i: int)
    ensures
        count_or(Some(crate::text::decimal(n as nat)), usual) == n,
        count_or(None, usual) == usual,
        0 < i < s.len() && !('0' <= s[i] <= '9') ==> count_or(Some(s), usual) == usual,
        option_or(Some(s), Seq::empty()) == s,
        option_or(None, s) == s,
{
    crate::text::law_numbers_are_read_back(n as u64, 0);
    if 0 < i < s.len() && !('0' <= s[i] <= '9') {
        crate::text::law_only_digits_make_a_number(s, i);
    }
}

/// The last events are as many as the number behind `recent` says, and ten without one.
pub proof fn law_how_many_events_are_shown(args: Seq<Seq<char>>, n: i64)
    ensures
        args.len() <= 3 ==> recent_count(args) == 10,
        args.len() > 3 && args[3] == decimal_int(n as int) ==> recent_count(args) == n,
{
    crate::text::law_numbers_are_read_back(0, n);
}

/// A deadline counts as it is written, by its unit; without one, or with one that is no
/// duration, there is none.
pub proof fn law_deadline_is_as_written(args: Seq<Seq<char>>, n: u64)
    ensures
        flag_value(args, "--deadline"@) == Some(crate::text::decimal(n as nat).push('h'))
            ==> deadline_of(args) == n * 3600,
        flag_value(args, "--deadline"@) == Some(crate::text::decimal(n as nat).push('m'))
            ==> deadline_of(args) == n * 60,
        flag_value(args, "--deadline"@) == Some(crate::text::decimal(n as nat)) ==> deadline_of(
            args,
        ) == n,
        flag_value(args, "--deadline"@) is None ==> deadline_of(args) == 0,
        (flag_value(args, "--deadline"@) matches Some(s) && duration_secs(s) is None)
            ==> deadline_of(args) == 0,
{
    law_durations_go_by_their_unit(n, Seq::empty(), Seq::empty());
    let d = crate::text::decimal(n as nat);
    assert(Seq::<char>::empty() + d + Seq::<char>::empty() =~= d);
    assert(Seq::<char>::empty() + d.push('h') + Seq::<char>::empty() =~= d.push('h'));
    assert(Seq::<char>::empty() + d.push('m') + Seq::<char>::empty() =~= d.push('m'));
}

/// The word behind `memory` is the third of the line, whatever follows it.
pub proof fn law_memory_word_is_the_third(
    a: Seq<char>,
    b: Seq<char>,
    word: Seq<char>,
    rest: Seq<Seq<char>>,
)
    ensures
        memory_word(seq![a, b, word] + rest) == word,
        memory_word(seq![a, b]) == ""@,
{
}

/// A number of events that cannot be read counts as the usual ten.
pub proof fn law_unreadable_count_is_ten(args: Seq<Seq<char>>)
    requires
        args.len() > 3,
        parsed_i64(args[3]) is None,
    ensures
        recent_count(args) == 10,
{
}

} // verus!
