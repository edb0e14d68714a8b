//! The protocol of the command-line client.
//!
//! The client talks in JSON lines. Here is what goes onto its command line, the
//! frames that are sent to it, and how its frames make up the answer of a turn.

use vstd::prelude::*;

use crate::json::Json;
use crate::text::{begins, chars_of, join, joined, show_u64, slice_of, starts_with, str_eq, views};

verus! {

/// How the client asks for permissions.
#[derive(Clone, Copy, Debug, PartialEq, Eq, Structural)]
pub enum PermissionMode {
    BypassPermissions,
}

impl PermissionMode {
    /// The mode as it is written on the command line.
    pub open spec fn name(self) -> Seq<char> {
        match self {
            PermissionMode::BypassPermissions => "bypassPermissions"@,
        }
    }

    /// The mode as it is written on the command line.
    pub fn as_arg(self) -> (r: &'static str)
        ensures
            r@ == self.name(),
    {
        match self {
            PermissionMode::BypassPermissions => "bypassPermissions",
        }
    }
}

/// How the client is started.
#[derive(Debug)]
pub struct ClaudeOptions {
    /// Where the client is; it is looked up where this is not given.
    pub cli_path: Option<String>,
    pub system_prompt: Option<String>,
    pub model: Option<String>,
    pub max_turns: Option<u32>,
    pub permission_mode: Option<PermissionMode>,
    pub allowed_tools: Vec<String>,
}

impl Default for ClaudeOptions {
    /// Nothing but what is always given.
    fn default() -> (r: ClaudeOptions)
        ensures
            r.cli_path is None,
            r.system_prompt is None,
            r.model is None,
            r.max_turns is None,
            r.permission_mode is None,
            r.allowed_tools@.len() == 0,
    {
        ClaudeOptions {
            cli_path: None,
            system_prompt: None,
            model: None,
            max_turns: None,
            permission_mode: None,
            allowed_tools: Vec::new(),
        }
    }
}

/// A flag with its value, where there is one.
pub open spec fn flag(name: Seq<char>, value: Option<Seq<char>>) -> Seq<Seq<char>> {
    match value {
        Some(v) => seq![name, v],
        None => Seq::empty(),
    }
}

/// The command line of the client.
pub open spec fn args_of(o: ClaudeOptions) -> Seq<Seq<char>> {
    seq![
        "--output-format"@,
        "stream-json"@,
        "--input-format"@,
        "stream-json"@,
        "--verbose"@,
        "--include-partial-messages"@,
    ] + flag(
        "--system-prompt"@,
        match o.system_prompt {
            Some(p) => Some(p@),
            None => None,
        },
    ) + flag(
        "--allowedTools"@,
        if o.allowed_tools@.len() > 0 {
            Some(joined(views(o.allowed_tools@), ","@))
        } else {
            None
        },
    ) + flag(
        "--max-turns"@,
        match o.max_turns {
            Some(t) => Some(crate::text::decimal(t as nat)),
            None => None,
        },
    ) + flag(
        "--model"@,
        match o.model {
            Some(m) => Some(m@),
            None => None,
        },
    ) + flag(
        "--permission-mode"@,
        match o.permission_mode {
            Some(m) => Some(m.name()),
            None => None,
        },
    )
}

/// Appends an argument.
fn push_arg(args: &mut Vec<String>, arg: &str)
    ensures
        views(final(args)@) == views(old(args)@).push(arg@),
{
    let ghost had = args@;
    args.push(arg.to_owned());
    proof {
        assert(views(args@) =~= views(had).push(arg@));
    }
}

/// Appends a flag with its value.
fn push_flag(args: &mut Vec<String>, name: &str, value: &str)
    ensures
        views(final(args)@) == views(old(args)@) + flag(name@, Some(value@)),
{
    let ghost had = views(args@);
    push_arg(args, name);
    push_arg(args, value);
    proof {
        assert(views(args@) =~= had + flag(name@, Some(value@)));
    }
}

/// The command line of the client.
pub fn build_args(options: &ClaudeOptions) -> (r: Vec<String>)
    ensures
        views(r@) == args_of(*options),
{
    let mut args: Vec<String> = Vec::new();
    push_arg(&mut args, "--output-format");
    push_arg(&mut args, "stream-json");
    push_arg(&mut args, "--input-format");
    push_arg(&mut args, "stream-json");
    push_arg(&mut args, "--verbose");
    push_arg(&mut args, "--include-partial-messages");
    match &options.system_prompt {
        Some(p) => push_flag(&mut args, "--system-prompt", p.as_str()),
        None => {},
    }
    if options.allowed_tools.len() > 0 {
        push_flag(&mut args, "--allowedTools", join(&options.allowed_tools, ",").as_str());
    }
    match options.max_turns {
        Some(t) => push_flag(&mut args, "--max-turns", show_u64(t as u64).as_str()),
        None => {},
    }
    match &options.model {
        Some(m) => push_flag(&mut args, "--model", m.as_str()),
        None => {},
    }
    match options.permission_mode {
        Some(m) => push_flag(&mut args, "--permission-mode", m.as_arg()),
        None => {},
    }
    proof {
        assert(views(args@) =~= args_of(*options));
    }
    args
}

// -------------------------------------------------------------------- frames

/// The id of the first request.
pub const INIT_REQUEST_ID: &'static str = "req_1";

/// How long the client may take to answer it, in seconds.
pub const INIT_TIMEOUT_SECS: u64 = 30;

/// The session that frames of the user name.
pub const USER_FRAME_SESSION_TAG: &'static str = "default";

/// A text in a frame.
fn text_value(s: &str) -> (r: Json)
    ensures
        r.text() == Some(s@),
{
    Json::Str(s.to_owned())
}

/// How many fields an object has.
pub open spec fn field_count(v: Json) -> nat {
    match v {
        Json::Object(fields) => fields@.len(),
        _ => 0,
    }
}

/// The frame that opens the conversation.
pub fn init_frame() -> (r: Json)
    ensures
        r.text_at("type"@) == Some("control_request"@),
        r.text_at("request_id"@) == Some(INIT_REQUEST_ID@),
        r.spec_get("request"@) matches Some(q) && q.text_at("subtype"@) == Some("initialize"@)
            && q.spec_get("hooks"@) == Some(Json::Null) && field_count(q) == 2,
        field_count(r) == 3,
{
    proof {
        reveal_strlit("type");
        reveal_strlit("request_id");
        reveal_strlit("request");
        reveal_strlit("subtype");
        reveal_strlit("hooks");
        assert("type"@.len() == 4 && "request_id"@.len() == 10 && "request"@.len() == 7);
        assert("subtype"@.len() == 7 && "hooks"@.len() == 5);
        reveal_with_fuel(crate::json::member_from, 4);
    }
    let request = Json::Object(
        vec![("subtype".to_owned(), text_value("initialize")), ("hooks".to_owned(), Json::Null)],
    );
    Json::Object(
        vec![
            ("type".to_owned(), text_value("control_request")),
            ("request_id".to_owned(), text_value(INIT_REQUEST_ID)),
            ("request".to_owned(), request),
        ],
    )
}

/// The frame that carries a prompt.
pub fn user_frame(prompt: &str) -> (r: Json)
    ensures
        r.text_at("type"@) == Some("user"@),
        r.spec_get("message"@) matches Some(m) && m.text_at("role"@) == Some("user"@) && m.text_at(
            "content"@,
        ) == Some(prompt@) && field_count(m) == 2,
        r.spec_get("parent_tool_use_id"@) == Some(Json::Null),
        r.text_at("session_id"@) == Some(USER_FRAME_SESSION_TAG@),
        field_count(r) == 4,
{
    proof {
        reveal_strlit("type");
        reveal_strlit("message");
        reveal_strlit("role");
        reveal_strlit("content");
        reveal_strlit("parent_tool_use_id");
        reveal_strlit("session_id");
        assert("type"@.len() == 4 && "message"@.len() == 7);
        assert("parent_tool_use_id"@.len() == 18 && "session_id"@.len() == 10);
        assert("role"@.len() == 4 && "content"@.len() == 7);
        reveal_with_fuel(crate::json::member_from, 5);
    }
    let message = Json::Object(
        vec![("role".to_owned(), text_value("user")), ("content".to_owned(), text_value(prompt))],
    );
    Json::Object(
        vec![
            ("type".to_owned(), text_value("user")),
            ("message".to_owned(), message),
            ("parent_tool_use_id".to_owned(), Json::Null),
            ("session_id".to_owned(), text_value(USER_FRAME_SESSION_TAG)),
        ],
    )
}

/// Whether a value has the text `s` under `key`.
pub open spec fn says(v: Json, key: Seq<char>, s: Seq<char>) -> bool {
    v.text_at(key) == Some(s)
}

/// Whether a value has the text `s` under `key`.
fn field_is(v: &Json, key: &str, s: &str) -> (r: bool)
    ensures
        r == says(*v, key@, s@),
{
    match v.str_at(key) {
        Some(t) => str_eq(t.as_str(), s),
        None => false,
    }
}

/// Whether a frame answers the first request with success.
pub open spec fn init_ok(v: Json) -> bool {
    &&& says(v, "type"@, "control_response"@)
    &&& v.spec_get("response"@) matches Some(r) && says(r, "request_id"@, INIT_REQUEST_ID@) && says(
        r,
        "subtype"@,
        "success"@,
    )
}

/// Whether a frame answers the first request with success.
pub fn is_init_success(v: &Json) -> (r: bool)
    ensures
        r == init_ok(*v),
{
    if !field_is(v, "type", "control_response") {
        return false;
    }
    match v.get("response") {
        Some(r) => field_is(r, "request_id", INIT_REQUEST_ID) && field_is(r, "subtype", "success"),
        None => false,
    }
}

/// The text of a block of an answer, if it is a text block.
pub open spec fn block_text(block: Json) -> Option<Seq<char>> {
    if says(block, "type"@, "text"@) {
        block.text_at("text"@)
    } else {
        None
    }
}

/// The texts of the first `n` blocks.
pub open spec fn block_texts(blocks: Seq<Json>, n: nat) -> Seq<Seq<char>>
    decreases n,
{
    if n == 0 {
        Seq::empty()
    } else {
        let head = block_texts(blocks, (n - 1) as nat);
        match block_text(blocks[n - 1]) {
            Some(t) => head.push(t),
            None => head,
        }
    }
}

/// The text of an answer: its text blocks, one line each. None where there is no
/// text block.
pub open spec fn assistant_text(v: Json) -> Option<Seq<char>> {
    match v.spec_get("message"@) {
        None => None,
        Some(m) => match m.spec_get("content"@) {
            Some(Json::Array(blocks)) => {
                let parts = block_texts(blocks@, blocks@.len());
                if parts.len() == 0 {
                    None
                } else {
                    Some(joined(parts, "\n"@))
                }
            },
            _ => None,
        },
    }
}

/// The text of an answer.
pub fn extract_assistant_text(v: &Json) -> (r: Option<String>)
    ensures
        match r {
            Some(s) => assistant_text(*v) == Some(s@),
            None => assistant_text(*v) is None,
        },
{
    let message = match v.get("message") {
        Some(m) => m,
        None => {
            return None;
        },
    };
    let blocks = match message.get("content") {
        Some(Json::Array(b)) => b,
        _ => {
            return None;
        },
    };
    let mut parts: Vec<String> = Vec::new();
    let mut i: usize = 0;
    proof {
        assert(views(parts@) =~= block_texts(blocks@, 0));
    }
    while i < blocks.len()
        invariant
            i <= blocks@.len(),
            views(parts@) == block_texts(blocks@, i as nat),
        decreases blocks.len() - i,
    {
        if field_is(&blocks[i], "type", "text") {
            match blocks[i].str_at("text") {
                Some(t) => {
                    let ghost had = parts@;
                    let ghost text = t@;
                    parts.push(t);
                    proof {
                        assert(views(parts@) =~= views(had).push(text));
                    }
                },
                None => {},
            }
        }
        i += 1;
    }
    if parts.len() == 0 {
        None
    } else {
        Some(join(&parts, "\n"))
    }
}

/// The text that a streaming frame adds.
pub open spec fn stream_delta(v: Json) -> Option<Seq<char>> {
    match v.spec_get("event"@) {
        None => None,
        Some(event) => if !says(event, "type"@, "content_block_delta"@) {
            None
        } else {
            match event.spec_get("delta"@) {
                None => None,
                Some(delta) => if says(delta, "type"@, "text_delta"@) {
                    delta.text_at("text"@)
                } else {
                    None
                },
            }
        },
    }
}

/// The text that a streaming frame adds. Only text deltas count; those of tool
/// calls and of thinking are not for the reader.
pub fn extract_stream_delta(v: &Json) -> (r: Option<String>)
    ensures
        match r {
            Some(s) => stream_delta(*v) == Some(s@),
            None => stream_delta(*v) is None,
        },
{
    let event = match v.get("event") {
        Some(e) => e,
        None => {
            return None;
        },
    };
    if !field_is(event, "type", "content_block_delta") {
        return None;
    }
    let delta = match event.get("delta") {
        Some(d) => d,
        None => {
            return None;
        },
    };
    if !field_is(delta, "type", "text_delta") {
        return None;
    }
    delta.str_at("text")
}

// --------------------------------------------------------------------- turns

/// The answer of a turn.
#[derive(Debug)]
pub struct TurnResponse {
    pub assistant_text: String,
}

/// The text after a frame of a turn that is not streamed. An answer that begins
/// with the text so far is a snapshot of the whole and takes its place; any other
/// goes on a line of its own.
pub open spec fn text_after(text: Seq<char>, v: Json) -> Seq<char> {
    if says(v, "type"@, "assistant"@) {
        match assistant_text(v) {
            Some(t) => if begins(t, text) {
                t
            } else {
                text.push('\n') + t
            },
            None => text,
        }
    } else {
        text
    }
}

/// Whether a frame ends the turn.
pub open spec fn ends_turn(v: Json) -> bool {
    says(v, "type"@, "result"@)
}

/// Collects the answer of a turn.
#[derive(Debug)]
pub struct TurnReader {
    pub text: String,
}

impl TurnReader {
    /// Nothing has been read.
    pub fn new() -> (r: TurnReader)
        ensures
            r.text@ == Seq::<char>::empty(),
    {
        let r = TurnReader { text: String::new() };
        proof {
            assert(r.text@ =~= Seq::<char>::empty());
        }
        r
    }

    /// Takes in a frame, and says whether the turn is over.
    pub fn step(&mut self, v: &Json) -> (done: bool)
        ensures
            done == ends_turn(*v),
            final(self).text@ == text_after(old(self).text@, *v),
    {
        if field_is(v, "type", "assistant") {
            match extract_assistant_text(v) {
                Some(t) => {
                    if starts_with(t.as_str(), self.text.as_str()) {
                        self.text = t;
                    } else {
                        self.text.push('\n');
                        self.text.append(t.as_str());
                    }
                },
                None => {},
            }
            proof {
                reveal_strlit("assistant");
                reveal_strlit("result");
                assert("assistant"@.len() != "result"@.len());
            }
            false
        } else {
            field_is(v, "type", "result")
        }
    }
}

/// What a streamed turn has come to: its text, all of which was handed on, and
/// whether any of it came as a delta.
pub struct StreamView {
    pub text: Seq<char>,
    pub streamed: bool,
}

/// The start of a streamed turn.
pub open spec fn stream_start() -> StreamView {
    StreamView { text: Seq::empty(), streamed: false }
}

/// What an answer with the text `t` hands on. Where it begins with the text so far
/// it is a snapshot of the whole, and its tail is new. Otherwise it goes on a line
/// of its own, unless deltas came: then at most what lies beyond their length is
/// new.
pub open spec fn answer_tail(s: StreamView, t: Seq<char>) -> Seq<char> {
    if begins(t, s.text) {
        t.skip(s.text.len() as int)
    } else if !s.streamed {
        seq!['\n'] + t
    } else if t.len() > s.text.len() {
        t.skip(s.text.len() as int)
    } else {
        Seq::empty()
    }
}

/// What a frame of a streamed turn hands on.
pub open spec fn handed_on(s: StreamView, v: Json) -> Seq<char> {
    if says(v, "type"@, "stream_event"@) {
        match stream_delta(v) {
            Some(d) => d,
            None => Seq::empty(),
        }
    } else if says(v, "type"@, "assistant"@) {
        match assistant_text(v) {
            Some(t) => answer_tail(s, t),
            None => Seq::empty(),
        }
    } else {
        Seq::empty()
    }
}

/// A streamed turn after a frame.
pub open spec fn streamed_after(s: StreamView, v: Json) -> StreamView {
    StreamView { text: s.text + handed_on(s, v), streamed: s.streamed || is_delta(v) }
}

/// Whether a frame is an answer with text in it.
pub open spec fn is_answer(v: Json) -> bool {
    says(v, "type"@, "assistant"@) && assistant_text(v) is Some
}

/// Whether a frame is a delta with text in it.
pub open spec fn is_delta(v: Json) -> bool {
    says(v, "type"@, "stream_event"@) && stream_delta(v) is Some
}

/// Collects the answer of a streamed turn.
#[derive(Debug)]
pub struct StreamReader {
    /// All that was handed on.
    pub text: String,
    /// Whether any of it came as a delta.
    pub streamed: bool,
}

impl View for StreamReader {
    type V = StreamView;

    open spec fn view(&self) -> StreamView {
        StreamView { text: self.text@, streamed: self.streamed }
    }
}

/// What a frame of a streamed turn leads to.
#[derive(Debug)]
pub struct StreamStep {
    /// The text to hand on; nothing where there is none.
    pub delta: Option<String>,
    pub done: bool,
}

impl StreamReader {
    /// Nothing has been read.
    pub fn new() -> (r: StreamReader)
        ensures
            r@ == stream_start(),
    {
        let r = StreamReader { text: String::new(), streamed: false };
        proof {
            assert(r.text@ =~= Seq::<char>::empty());
        }
        r
    }

    /// What an answer with the text `t` hands on.
    fn tail_of(&self, t: String) -> (r: String)
        ensures
            r@ == answer_tail(self@, t@),
    {
        let chars = chars_of(t.as_str());
        let n: usize = chars.len();
        let emitted: usize = chars_of(self.text.as_str()).len();
        if starts_with(t.as_str(), self.text.as_str()) {
            proof {
                assert(t@.subrange(emitted as int, n as int) =~= t@.skip(emitted as int));
            }
            slice_of(&chars, emitted, n)
        } else if !self.streamed {
            let mut line: String = "\n".to_owned();
            proof {
                reveal_strlit("\n");
                assert(line@ =~= seq!['\n']);
            }
            line.append(t.as_str());
            line
        } else if n > emitted {
            proof {
                assert(t@.subrange(emitted as int, n as int) =~= t@.skip(emitted as int));
            }
            slice_of(&chars, emitted, n)
        } else {
            let none = String::new();
            proof {
                assert(none@ =~= Seq::<char>::empty());
            }
            none
        }
    }

    /// Takes in a frame, and says what to hand on and whether the turn is over.
    pub fn step(&mut self, v: &Json) -> (r: StreamStep)
        ensures
            final(self)@ == streamed_after(old(self)@, *v),
            r.done == ends_turn(*v),
            r.delta is Some == (is_delta(*v) || handed_on(old(self)@, *v).len() > 0),
            r.delta matches Some(d) ==> d@ == handed_on(old(self)@, *v),
    {
        let ghost start = self@;
        proof {
            reveal_strlit("assistant");
            reveal_strlit("result");
            reveal_strlit("stream_event");
            assert("assistant"@.len() != "result"@.len());
            assert("stream_event"@.len() != "result"@.len());
            assert("stream_event"@.len() != "assistant"@.len());
            assert(start.text + Seq::<char>::empty() =~= start.text);
        }
        if field_is(v, "type", "stream_event") {
            match extract_stream_delta(v) {
                Some(d) => {
                    self.text.append(d.as_str());
                    self.streamed = true;
                    StreamStep { delta: Some(d), done: false }
                },
                None => StreamStep { delta: None, done: false },
            }
        } else if field_is(v, "type", "assistant") {
            match extract_assistant_text(v) {
                Some(t) => {
                    let tail = self.tail_of(t);
                    if tail.as_str().is_empty() {
                        proof {
                            assert(tail@ =~= Seq::<char>::empty());
                        }
                        return StreamStep { delta: None, done: false };
                    }
                    self.text.append(tail.as_str());
                    StreamStep { delta: Some(tail), done: false }
                },
                None => StreamStep { delta: None, done: false },
            }
        } else {
            StreamStep { delta: None, done: field_is(v, "type", "result") }
        }
    }
}

/// A streamed turn after all the frames.
pub open spec fn streamed_all(frames: Seq<Json>) -> StreamView
    decreases frames.len(),
{
    if frames.len() == 0 {
        stream_start()
    } else {
        streamed_after(streamed_all(frames.drop_last()), frames.last())
    }
}

/// All that a streamed turn hands on.
pub open spec fn handed_on_all(frames: Seq<Json>) -> Seq<char>
    decreases frames.len(),
{
    if frames.len() == 0 {
        Seq::empty()
    } else {
        handed_on_all(frames.drop_last()) + handed_on(
            streamed_all(frames.drop_last()),
            frames.last(),
        )
    }
}

/// What is handed on piece by piece is, put together, the text of the turn.
pub proof fn law_deltas_make_up_text(frames: Seq<Json>)
    ensures
        handed_on_all(frames) == streamed_all(frames).text,
    decreases frames.len(),
{
    if frames.len() > 0 {
        law_deltas_make_up_text(frames.drop_last());
    }
}

/// The snapshot of an answer that was handed on in full, or up to some point,
/// completes it without repeating anything: the text is then the snapshot's, as it
/// is for a turn that is not streamed.
pub proof fn law_snapshot_completes_stream(s: StreamView, v: Json)
    requires
        says(v, "type"@, "assistant"@),
        assistant_text(v) matches Some(t) && begins(t, s.text),
    ensures
        Some(streamed_after(s, v).text) == assistant_text(v),
        streamed_after(s, v).text == text_after(s.text, v),
{
    reveal_strlit("assistant");
    reveal_strlit("stream_event");
    assert("stream_event"@.len() != "assistant"@.len());
    let t = assistant_text(v)->0;
    assert(t.subrange(0, s.text.len() as int) == s.text);
    assert(t.subrange(0, s.text.len() as int) + t.skip(s.text.len() as int) =~= t);
}

/// Where deltas came, a snapshot that is no longer than what was handed on changes
/// nothing of it.
pub proof fn law_shorter_snapshot_is_dropped(s: StreamView, v: Json)
    requires
        s.streamed,
        says(v, "type"@, "assistant"@),
        assistant_text(v) matches Some(t) && t.len() <= s.text.len(),
    ensures
        streamed_after(s, v).text == s.text,
        handed_on(s, v).len() == 0,
{
    reveal_strlit("assistant");
    reveal_strlit("stream_event");
    assert("stream_event"@.len() != "assistant"@.len());
    assert(s.text + Seq::<char>::empty() =~= s.text);
    assert(handed_on(s, v) =~= Seq::<char>::empty());
}

/// The text of a turn that is not streamed after all the frames.
pub open spec fn text_all(frames: Seq<Json>) -> Seq<char>
    decreases frames.len(),
{
    if frames.len() == 0 {
        Seq::empty()
    } else {
        text_after(text_all(frames.drop_last()), frames.last())
    }
}

/// Whether every answer behind a delta is a snapshot: it begins with all that was
/// handed on before it.
pub open spec fn answers_are_snapshots(frames: Seq<Json>) -> bool {
    forall|i: int|
        0 <= i < frames.len() && is_answer(#[trigger] frames[i]) && streamed_all(
            frames.take(i),
        ).streamed ==> begins(assistant_text(frames[i])->0, streamed_all(frames.take(i)).text)
}

/// Whether an answer follows every delta.
pub open spec fn deltas_are_answered(frames: Seq<Json>) -> bool {
    forall|i: int|
        0 <= i < frames.len() && is_delta(#[trigger] frames[i]) ==> exists|k: int|
            i < k < frames.len() && is_answer(#[trigger] frames[k])
}

/// Streamed or not, a turn comes to the same text, however many answers it has.
/// Where deltas came, the answers behind them are snapshots of the whole, and one
/// comes behind the last delta.
pub proof fn law_streamed_turn_is_as_collected(frames: Seq<Json>)
    requires
        answers_are_snapshots(frames),
        deltas_are_answered(frames),
    ensures
        streamed_all(frames).text == text_all(frames),
        handed_on_all(frames) == text_all(frames),
{
    law_deltas_make_up_text(frames);
    lemma_as_collected(frames);
}

/// Without deltas a turn hands on what it would collect, whatever its answers are.
pub proof fn law_turn_without_deltas_is_as_collected(frames: Seq<Json>)
    requires
        forall|i: int| 0 <= i < frames.len() ==> !is_delta(#[trigger] frames[i]),
    ensures
        handed_on_all(frames) == text_all(frames),
{
    assert forall|i: int| 0 <= i < frames.len() implies !streamed_all(
        #[trigger] frames.take(i),
    ).streamed by {
        lemma_not_streamed(frames.take(i));
    }
    law_streamed_turn_is_as_collected(frames);
}

proof fn lemma_not_streamed(frames: Seq<Json>)
    requires
        forall|i: int| 0 <= i < frames.len() ==> !is_delta(#[trigger] frames[i]),
    ensures
        !streamed_all(frames).streamed,
    decreases frames.len(),
{
    if frames.len() > 0 {
        let before = frames.drop_last();
        assert forall|i: int| 0 <= i < before.len() implies !is_delta(#[trigger] before[i]) by {
            assert(before[i] == frames[i]);
        }
        lemma_not_streamed(before);
        assert(!is_delta(frames[frames.len() - 1]));
    }
}

/// What was collected is how what was handed on begins. It is all of it before the
/// first delta, and where an answer follows every delta.
proof fn lemma_as_collected(frames: Seq<Json>)
    requires
        answers_are_snapshots(frames),
    ensures
        begins(streamed_all(frames).text, text_all(frames)),
        !streamed_all(frames).streamed || deltas_are_answered(frames) ==> streamed_all(frames).text
            == text_all(frames),
    decreases frames.len(),
{
    reveal_strlit("assistant");
    reveal_strlit("stream_event");
    assert("stream_event"@.len() != "assistant"@.len());
    if frames.len() == 0 {
        assert(Seq::<char>::empty().subrange(0, 0) =~= Seq::<char>::empty());
    } else {
        let before = frames.drop_last();
        let v = frames.last();
        let last = frames.len() - 1;
        let s = streamed_all(before);
        let c = text_all(before);
        assert forall|i: int|
            0 <= i < before.len() && is_answer(#[trigger] before[i]) && streamed_all(
                before.take(i),
            ).streamed implies begins(assistant_text(before[i])->0, streamed_all(before.take(i)).text) by {
            assert(before[i] == frames[i]);
            assert(before.take(i) =~= frames.take(i));
        }
        lemma_as_collected(before);
        assert(s.text + Seq::<char>::empty() =~= s.text);
        assert(s.text.subrange(0, c.len() as int) == c);
        if is_answer(v) {
            let t = assistant_text(v)->0;
            assert(frames[last] == v);
            assert(frames.take(last) =~= before);
            if begins(t, s.text) {
                law_snapshot_completes_stream(s, v);
                assert(t.subrange(0, s.text.len() as int) == s.text);
                assert(t.subrange(0, c.len() as int) =~= c) by {
                    assert forall|i: int| 0 <= i < c.len() implies t[i] == c[i] by {
                        assert(t.subrange(0, s.text.len() as int)[i] == t[i]);
                        assert(s.text.subrange(0, c.len() as int)[i] == s.text[i]);
                    }
                }
                assert(begins(t, c));
            } else {
                assert(!s.streamed);
                assert(s.text == c);
                assert(s.text + (seq!['\n'] + t) =~= s.text.push('\n') + t);
            }
            let all = text_all(frames);
            assert(all.subrange(0, all.len() as int) =~= all);
        } else {
            assert(text_all(frames) == c);
            let now = streamed_all(frames);
            assert(now.text.subrange(0, c.len() as int) =~= s.text.subrange(0, c.len() as int));
            if !is_delta(v) && deltas_are_answered(frames) {
                assert forall|i: int| 0 <= i < before.len() && is_delta(
                    #[trigger] before[i],
                ) implies exists|k: int| i < k < before.len() && is_answer(#[trigger] before[k]) by {
                    assert(is_delta(frames[i]));
                    let k = choose|k: int| i < k < frames.len() && is_answer(#[trigger] frames[k]);
                    assert(k != last);
                    assert(is_answer(before[k]));
                }
                assert(deltas_are_answered(before));
            }
            if is_delta(v) {
                assert(is_delta(frames[last]));
                assert(!deltas_are_answered(frames));
            }
        }
    }
}

proof fn lemma_block_texts_same(a: Seq<Json>, b: Seq<Json>, n: nat)
    requires
        n <= a.len(),
        n <= b.len(),
        forall|i: int| 0 <= i < n ==> a[i] == b[i],
    ensures
        block_texts(a, n) == block_texts(b, n),
    decreases n,
{
    if n > 0 {
        lemma_block_texts_same(a, b, (n - 1) as nat);
    }
}

/// The blocks of an answer are read one by one and in order: a text block gives its
/// text, and every other block nothing.
pub proof fn law_blocks_are_read_one_by_one(blocks: Seq<Json>, block: Json)
    ensures
        block_texts(Seq::empty(), 0) == Seq::<Seq<char>>::empty(),
        block_texts(blocks.push(block), blocks.len() + 1) == (if block.text_at("type"@) == Some(
            "text"@,
        ) && block.text_at("text"@) is Some {
            block_texts(blocks, blocks.len()).push(block.text_at("text"@)->0)
        } else {
            block_texts(blocks, blocks.len())
        }),
{
    lemma_block_texts_same(blocks.push(block), blocks, blocks.len());
}

/// The text of an answer is that of its text blocks, one line each; an answer without
/// one has no text.
pub proof fn law_text_of_an_answer(v: Json, m: Json, blocks: Vec<Json>)
    requires
        v.spec_get("message"@) == Some(m),
        m.spec_get("content"@) == Some(Json::Array(blocks)),
    ensures
        ({
            let texts = block_texts(blocks@, blocks@.len());
            &&& texts.len() == 0 <==> assistant_text(v) is None
            &&& texts.len() == 1 ==> assistant_text(v) == Some(texts[0])
            &&& texts.len() > 1 ==> assistant_text(v) == Some(
                joined(texts.drop_last(), "\n"@) + "\n"@ + texts.last(),
            )
        }),
{
}

/// A frame adds text to a stream exactly where it is a text delta of a content block.
pub proof fn law_only_text_deltas_count(v: Json)
    ensures
        stream_delta(v) is Some <==> {
            &&& v.spec_get("event"@) is Some
            &&& v.spec_get("event"@)->0.text_at("type"@) == Some("content_block_delta"@)
            &&& v.spec_get("event"@)->0.spec_get("delta"@) is Some
            &&& v.spec_get("event"@)->0.spec_get("delta"@)->0.text_at("type"@) == Some(
                "text_delta"@,
            )
            &&& v.spec_get("event"@)->0.spec_get("delta"@)->0.text_at("text"@) is Some
        },
        stream_delta(v) is Some ==> stream_delta(v) == v.spec_get("event"@)->0.spec_get(
            "delta"@,
        )->0.text_at("text"@),
{
}

/// A delta is handed on as it is and put behind the text; an answer that is no snapshot
/// goes on a line of its own where nothing was streamed; frames of any other type
/// change nothing. Only the frame of type `result` ends a turn.
pub proof fn law_what_a_frame_adds(s: StreamView, v: Json)
    ensures
        ({
            let kind = v.text_at("type"@);
            let after = streamed_after(s, v);
            &&& kind == Some("stream_event"@) && stream_delta(v) is Some ==> handed_on(s, v)
                == stream_delta(v)->0 && after.text == s.text + stream_delta(v)->0
                && after.streamed
            &&& kind == Some("stream_event"@) && stream_delta(v) is None ==> after.text == s.text
            &&& kind == Some("assistant"@) && assistant_text(v) is Some && !s.streamed && s.text.len()
                == 0 ==> after.text == assistant_text(v)->0
            &&& kind == Some("assistant"@) && assistant_text(v) is Some && !s.streamed && !begins(
                assistant_text(v)->0,
                s.text,
            ) ==> after.text == s.text + "\n"@ + assistant_text(v)->0
            &&& kind == Some("assistant"@) && assistant_text(v) is None ==> after.text == s.text
            &&& kind != Some("stream_event"@) && kind != Some("assistant"@) ==> after.text
                == s.text && after.streamed == s.streamed && text_after(s.text, v) == s.text
            &&& kind == Some("assistant"@) ==> after.streamed == s.streamed
            &&& ends_turn(v) <==> kind == Some("result"@)
        }),
{
    reveal_strlit("assistant");
    reveal_strlit("stream_event");
    reveal_strlit("\n");
    assert("stream_event"@.len() != "assistant"@.len());
    assert(s.text + Seq::<char>::empty() =~= s.text);
    if says(v, "type"@, "assistant"@) && assistant_text(v) is Some {
        let t = assistant_text(v)->0;
        if s.text.len() == 0 {
            assert(t.subrange(0, 0) =~= s.text);
            assert(begins(t, s.text));
            assert(s.text + t.skip(0) =~= t);
        }
        assert(s.text + (seq!['\n'] + t) =~= s.text + "\n"@ + t);
    }
}

/// A turn that is not streamed: an answer that repeats the text so far and goes on takes
/// its place, as a first answer does, and one that is shorter than the text is put on a
/// line of its own behind it.
pub proof fn law_what_an_answer_adds(text: Seq<char>, more: Seq<char>, v: Json)
    requires
        v.text_at("type"@) == Some("assistant"@),
        assistant_text(v) is Some,
    ensures
        assistant_text(v)->0 == text + more ==> text_after(text, v) == text + more,
        assistant_text(v)->0.len() < text.len() ==> text_after(text, v) == text + "\n"@
            + assistant_text(v)->0,
{
    reveal_strlit("\n");
    assert((text + more).subrange(0, text.len() as int) =~= text);
    assert(text.push('\n') + assistant_text(v)->0 =~= text + "\n"@ + assistant_text(v)->0);
}

/// The client is always asked for streaming JSON with partial messages, and each option
/// that is set stands on the command line as a flag with its value behind it.
pub proof fn law_options_reach_the_client(o: ClaudeOptions)
    ensures
        ({
            let a = args_of(o);
            let set = |name: Seq<char>, value: Seq<char>|
                exists|i: int|
                    6 <= i < a.len() - 1 && #[trigger] a[i] == name && a[i + 1] == value;
            &&& a.len() >= 6
            &&& a[0] == "--output-format"@ && a[1] == "stream-json"@
            &&& a[2] == "--input-format"@ && a[3] == "stream-json"@
            &&& a[4] == "--verbose"@ && a[5] == "--include-partial-messages"@
            &&& o.system_prompt is Some ==> set("--system-prompt"@, o.system_prompt->0@)
            &&& o.allowed_tools@.len() > 0 ==> set(
                "--allowedTools"@,
                joined(views(o.allowed_tools@), ","@),
            )
            &&& o.max_turns is Some ==> set(
                "--max-turns"@,
                crate::text::decimal(o.max_turns->0 as nat),
            )
            &&& o.model is Some ==> set("--model"@, o.model->0@)
            &&& o.permission_mode == Some(PermissionMode::BypassPermissions) ==> set(
                "--permission-mode"@,
                "bypassPermissions"@,
            )
            &&& a.len() == 6 + 2 * ((if o.system_prompt is Some {
                1int
            } else {
                0
            }) + (if o.allowed_tools@.len() > 0 {
                1int
            } else {
                0
            }) + (if o.max_turns is Some {
                1int
            } else {
                0
            }) + (if o.model is Some {
                1int
            } else {
                0
            }) + (if o.permission_mode is Some {
                1int
            } else {
                0
            }))
        }),
{
    let a = args_of(o);
    let p1: int = 6;
    let p2 = p1 + (if o.system_prompt is Some {
        2int
    } else {
        0
    });
    let p3 = p2 + (if o.allowed_tools@.len() > 0 {
        2int
    } else {
        0
    });
    let p4 = p3 + (if o.max_turns is Some {
        2int
    } else {
        0
    });
    let p5 = p4 + (if o.model is Some {
        2int
    } else {
        0
    });
    if o.system_prompt is Some {
        assert(a[p1] == "--system-prompt"@);
    }
    if o.allowed_tools@.len() > 0 {
        assert(a[p2] == "--allowedTools"@);
    }
    if o.max_turns is Some {
        assert(a[p3] == "--max-turns"@);
    }
    if o.model is Some {
        assert(a[p4] == "--model"@);
    }
    if o.permission_mode is Some {
        assert(a[p5] == "--permission-mode"@);
    }
}

/// A frame opens the conversation exactly where it is a response to the first request
/// and says success.
pub proof fn law_which_frame_opens(v: Json, r: Json)
    requires
        v.spec_get("response"@) == Some(r),
    ensures
        init_ok(v) <==> v.text_at("type"@) == Some("control_response"@) && r.text_at(
            "request_id"@,
        ) == Some("req_1"@) && r.text_at("subtype"@) == Some("success"@),
{
}

} // verus!
