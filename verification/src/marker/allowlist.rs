//! Holds the prompt templates against what their agents may call.
//!
//! A template names tools in markers and in backticks. Every tool that it names
//! must be one that its agent can dispatch, so that a model is never told to
//! call what would be refused.

use vstd::prelude::*;

use super::normalizer::{alias_target, canonicalize};
use super::skill::{
    body_ok, law_object_ends_at_its_brace, lemma_braces_shift, lemma_brackets_passed,
    lemma_brackets_shift, lemma_char_shift, lemma_first_char_is, object_text, Body,
};
use super::scan::{
    closing_brackets, count_braces, count_closing, first_char, lemma_closing_brackets_bounds,
    lemma_count_braces_bounds, lemma_first_char_bounds, lemma_prefixes, lower_prefix, scan_braces, search_char,
    upper_prefix,
};
use crate::prompts::{all_modes, lemma_every_mode_is_listed, mode_index, prompt_modes, AgentMode};
use crate::registry::{allowlist, default_allowlist};
use crate::text::{
    all_name_chars, byte_len, bytes_to, chars_of, insert_sorted, is_name, join, joined, list_has,
    match_at, matches_at, show_u64, slice_of, str_eq, strictly_sorted, views,
};
use crate::tool_catalog::{is_known, known_tools, sentinels};

verus! {

// -------------------------------------------------------------- references

/// Why the markers of a template cannot be read. `at` is the byte where the
/// marker begins.
#[derive(Debug)]
pub enum RefError {
    NoSeparator { at: usize },
    EmptyName { at: usize },
    NotAName { at: usize, name: String },
    Unclosed { at: usize, name: String },
}

/// What a [`RefError`] holds, with the place in characters.
pub enum RefErrorView {
    NoSeparator { at: int },
    EmptyName { at: int },
    NotAName { at: int, name: Seq<char> },
    Unclosed { at: int, name: Seq<char> },
}

/// Whether an error reports what went wrong in `t`.
pub open spec fn reports(t: Seq<char>, e: RefError, v: RefErrorView) -> bool {
    match (e, v) {
        (RefError::NoSeparator { at }, RefErrorView::NoSeparator { at: i }) => at == byte_len(
            t.take(i),
        ),
        (RefError::EmptyName { at }, RefErrorView::EmptyName { at: i }) => at == byte_len(
            t.take(i),
        ),
        (RefError::NotAName { at, name }, RefErrorView::NotAName { at: i, name: n }) => at
            == byte_len(t.take(i)) && name@ == n,
        (RefError::Unclosed { at, name }, RefErrorView::Unclosed { at: i, name: n }) => at
            == byte_len(t.take(i)) && name@ == n,
        _ => false,
    }
}

/// Whether a marker prefix, all in upper or all in lower case, stands at `i`.
pub open spec fn prefix_at(t: Seq<char>, i: int) -> bool {
    matches_at(t, upper_prefix(), i) || matches_at(t, lower_prefix(), i)
}

/// The tools that the markers of `t` name from `i` on, in order, or what is wrong
/// with the first marker that cannot be read.
pub open spec fn marker_refs(t: Seq<char>, i: int) -> Result<Seq<Seq<char>>, RefErrorView>
    decreases t.len() - i,
{
    if i >= t.len() || i < 0 {
        Ok(Seq::empty())
    } else if !prefix_at(t, i) {
        marker_refs(t, i + 1)
    } else {
        match first_char(t, ':', i + 12) {
            None => Err(RefErrorView::NoSeparator { at: i }),
            Some(colon) => {
                let name = t.subrange(i + 12, colon);
                let (end, depth) = count_braces(t, colon + 1, 0, false, false);
                let next = end + closing_brackets(t, end, 10);
                if name.len() == 0 {
                    Err(RefErrorView::EmptyName { at: i })
                } else if !is_name(name) {
                    Err(RefErrorView::NotAName { at: i, name })
                } else if depth != 0 {
                    Err(RefErrorView::Unclosed { at: i, name })
                } else {
                    proof {
                        lemma_first_char_bounds(t, ':', i + 12);
                        lemma_count_braces_bounds(t, colon + 1, 0, false, false);
                        lemma_closing_brackets_bounds(t, end, 10);
                    }
                    match marker_refs(t, next) {
                        Ok(rest) => Ok(seq![name] + rest),
                        Err(e) => Err(e),
                    }
                }
            },
        }
    }
}

/// The tools that the markers of a template name, in order.
pub fn extract_marker_refs(body: &str) -> (r: Result<Vec<String>, RefError>)
    ensures
        match (r, marker_refs(body@, 0)) {
            (Ok(names), Ok(want)) => views(names@) == want,
            (Err(e), Err(v)) => reports(body@, e, v),
            _ => false,
        },
{
    let total = crate::text::byte_length(body);
    let t = chars_of(body);
    let upper = chars_of("[[MEMORY_OP:");
    let lower = chars_of("[[memory_op:");
    let n: usize = t.len();
    let ghost want = marker_refs(body@, 0);
    let mut out: Vec<String> = Vec::new();
    let mut i: usize = 0;
    // How many bytes the characters before `i` take.
    let mut offset: usize = 0;
    proof {
        lemma_prefixes();
        assert(t@.take(0) =~= Seq::<char>::empty());
        if let Ok(w) = want {
            assert(views(out@) + w =~= w);
        }
    }
    while i < n
        invariant
            i <= n,
            n == t@.len(),
            t@ == body@,
            total == byte_len(body@),
            offset == byte_len(t@.take(i as int)),
            upper@ == upper_prefix(),
            lower@ == lower_prefix(),
            upper_prefix().len() == 12,
            lower_prefix().len() == 12,
            want == marker_refs(body@, 0),
            match (want, marker_refs(t@, i as int)) {
                (Ok(w), Ok(rest)) => views(out@) + rest == w,
                (Err(e), Err(f)) => e == f,
                _ => false,
            },
        decreases n - i,
    {
        let ghost before = out@;
        if match_at(&t, &upper, i) || match_at(&t, &lower, i) {
            let colon: usize = match search_char(&t, ':', i + 12) {
                Some(c) => c,
                None => {
                    return Err(RefError::NoSeparator { at: offset });
                },
            };
            let name = slice_of(&t, i + 12, colon);
            if name.as_str().is_empty() {
                return Err(RefError::EmptyName { at: offset });
            }
            if !all_name_chars(name.as_str()) {
                return Err(RefError::NotAName { at: offset, name });
            }
            let (end, depth) = scan_braces(&t, colon + 1);
            if depth != 0 {
                return Err(RefError::Unclosed { at: offset, name });
            }
            let closing = count_closing(&t, end, 10);
            let next: usize = end + closing;
            let ghost word = name@;
            out.push(name);
            proof {
                assert(views(out@) =~= views(before).push(word));
                if let Ok(rest) = marker_refs(t@, next as int) {
                    assert(views(before) + (seq![word] + rest) =~= views(out@) + rest);
                }
            }
            offset = bytes_to(&t, i, offset, next, total);
            i = next;
        } else {
            offset = bytes_to(&t, i, offset, i + 1, total);
            i += 1;
        }
    }
    proof {
        assert(marker_refs(t@, i as int) == Ok::<Seq<Seq<char>>, RefErrorView>(Seq::empty()));
        assert(views(out@) + Seq::<Seq<char>>::empty() =~= views(out@));
    }
    Ok(out)
}

/// The known tools that `t` names in backticks from `i` on, in order.
pub open spec fn backtick_refs(t: Seq<char>, i: int) -> Seq<Seq<char>>
    decreases t.len() - i,
{
    match first_char(t, '`', i) {
        None => Seq::empty(),
        Some(open) => match first_char(t, '`', open + 1) {
            None => Seq::empty(),
            Some(close) => {
                proof {
                    lemma_first_char_bounds(t, '`', i);
                    lemma_first_char_bounds(t, '`', open + 1);
                }
                let token = t.subrange(open + 1, close);
                let rest = backtick_refs(t, close + 1);
                if token.len() > 0 && is_name(token) && known_tools().contains(token) {
                    seq![token] + rest
                } else {
                    rest
                }
            },
        },
    }
}

/// The known tools that a template names in backticks, in order.
pub fn extract_backtick_refs(body: &str) -> (r: Vec<String>)
    ensures
        views(r@) == backtick_refs(body@, 0),
{
    let t = chars_of(body);
    let n: usize = t.len();
    let ghost want = backtick_refs(body@, 0);
    let mut out: Vec<String> = Vec::new();
    let mut i: usize = 0;
    proof {
        assert(views(out@) + want =~= want);
    }
    loop
        invariant
            i <= n,
            n == t@.len(),
            t@ == body@,
            want == backtick_refs(body@, 0),
            views(out@) + backtick_refs(t@, i as int) == want,
        ensures
            views(out@) == want,
        decreases n - i,
    {
        let ghost before = out@;
        let found: Option<(usize, usize)> = match search_char(&t, '`', i) {
            None => None,
            Some(open) => match search_char(&t, '`', open + 1) {
                None => None,
                Some(close) => Some((open, close)),
            },
        };
        let (open, close) = match found {
            Some(p) => p,
            None => {
                proof {
                    assert(views(out@) + Seq::<Seq<char>>::empty() =~= views(out@));
                }
                break;
            },
        };
        let token = slice_of(&t, open + 1, close);
        let ghost word = token@;
        if !token.as_str().is_empty() && all_name_chars(token.as_str()) && is_known(
            token.as_str(),
        ) {
            out.push(token);
            proof {
                assert(views(out@) =~= views(before).push(word));
                let rest = backtick_refs(t@, close + 1);
                assert(views(before) + (seq![word] + rest) =~= views(out@) + rest);
            }
        }
        i = close + 1;
    }
    out
}

/// The tools that a template names: first in markers, then in backticks.
pub open spec fn tool_refs(t: Seq<char>) -> Result<Seq<Seq<char>>, RefErrorView> {
    match marker_refs(t, 0) {
        Ok(names) => Ok(names + backtick_refs(t, 0)),
        Err(e) => Err(e),
    }
}

/// The tools that a template names: first in markers, then in backticks.
pub fn extract_tool_refs(body: &str) -> (r: Result<Vec<String>, RefError>)
    ensures
        match (r, tool_refs(body@)) {
            (Ok(names), Ok(want)) => views(names@) == want,
            (Err(e), Err(v)) => reports(body@, e, v),
            _ => false,
        },
{
    let mut out = match extract_marker_refs(body) {
        Ok(names) => names,
        Err(e) => {
            return Err(e);
        },
    };
    let mut more = extract_backtick_refs(body);
    let ghost a = out@;
    let ghost b = more@;
    out.append(&mut more);
    proof {
        assert(views(out@) =~= views(a) + views(b));
    }
    Ok(out)
}

impl RefError {
    /// What went wrong, in words.
    pub open spec fn text(self) -> Seq<char> {
        match self {
            RefError::NoSeparator { at } => "marker at byte "@ + crate::text::decimal(at as nat)
                + " has no `:` separator after tool name"@,
            RefError::EmptyName { at } => "marker at byte "@ + crate::text::decimal(at as nat)
                + " has empty tool name"@,
            RefError::NotAName { at, name } => "marker at byte "@ + crate::text::decimal(
                at as nat,
            ) + " has non-identifier tool name `"@ + name@ + "`"@,
            RefError::Unclosed { at, name } => "marker at byte "@ + crate::text::decimal(
                at as nat,
            ) + " has unclosed JSON body (tool `"@ + name@ + "`)"@,
        }
    }

    /// What went wrong, in words.
    pub fn message(&self) -> (r: String)
        ensures
            r@ == self.text(),
    {
        let mut s = "marker at byte ".to_owned();
        match self {
            RefError::NoSeparator { at } => {
                s.append(show_u64(*at as u64).as_str());
                s.append(" has no `:` separator after tool name");
            },
            RefError::EmptyName { at } => {
                s.append(show_u64(*at as u64).as_str());
                s.append(" has empty tool name");
            },
            RefError::NotAName { at, name } => {
                s.append(show_u64(*at as u64).as_str());
                s.append(" has non-identifier tool name `");
                s.append(name.as_str());
                s.append("`");
            },
            RefError::Unclosed { at, name } => {
                s.append(show_u64(*at as u64).as_str());
                s.append(" has unclosed JSON body (tool `");
                s.append(name.as_str());
                s.append("`)");
            },
        }
        s
    }
}

// ------------------------------------------------------------------- table

/// The tools that the template of one mode names, sorted, each once.
#[derive(Debug)]
pub struct ModeTools {
    pub mode: AgentMode,
    pub tools: Vec<String>,
}

impl ModeTools {
    /// Sorts the names and keeps each once.
    pub fn new(mode: AgentMode, tools: Vec<String>) -> (r: ModeTools)
        ensures
            r.mode == mode,
            strictly_sorted(views(r.tools@)),
            forall|x: Seq<char>| views(r.tools@).contains(x) <==> views(tools@).contains(x),
    {
        let mut sorted: Vec<String> = Vec::new();
        let mut i: usize = 0;
        let ghost all = views(tools@);
        while i < tools.len()
            invariant
                i <= tools@.len(),
                all == views(tools@),
                strictly_sorted(views(sorted@)),
                forall|x: Seq<char>|
                    views(sorted@).contains(x) <==> all.take(i as int).contains(x),
            decreases tools.len() - i,
        {
            insert_sorted(&mut sorted, tools[i].clone());
            proof {
                let part = all.take(i as int);
                let more = all.take(i + 1);
                assert(more =~= part.push(all[i as int]));
                assert forall|x: Seq<char>|
                    more.contains(x) <==> part.contains(x) || x == all[i as int] by {
                    if part.contains(x) {
                        let k = choose|k: int| 0 <= k < part.len() && part[k] == x;
                        assert(more[k] == x);
                    }
                    if x == all[i as int] {
                        assert(more[i as int] == x);
                    }
                }
            }
            i += 1;
        }
        proof {
            assert(all.take(all.len() as int) =~= all);
        }
        ModeTools { mode, tools: sorted }
    }
}

/// Which template could not be read, and why.
#[derive(Debug)]
pub struct TemplateError {
    pub mode: AgentMode,
    pub cause: RefError,
}

impl TemplateError {
    /// Which template could not be read.
    pub fn message(&self) -> (r: String)
        ensures
            r@ == "parsing "@ + self.mode.spec_filename(),
    {
        let mut s = "parsing ".to_owned();
        s.append(self.mode.filename());
        s
    }
}

/// The tools that each template names.
#[derive(Debug)]
pub struct PromptToolTable {
    by_mode: Vec<ModeTools>,
}

impl PromptToolTable {
    /// The table has one entry per mode, each sorted.
    pub closed spec fn wf(self) -> bool {
        &&& self.by_mode@.len() == all_modes().len()
        &&& forall|i: int|
            0 <= i < self.by_mode@.len() ==> {
                &&& (#[trigger] self.by_mode@[i]).mode == all_modes()[i]
                &&& strictly_sorted(views(self.by_mode@[i].tools@))
            }
    }

    /// The tools that the template of a mode names.
    pub closed spec fn tools(self, mode: AgentMode) -> Seq<Seq<char>> {
        views(self.by_mode@[mode_index(mode)].tools@)
    }

    /// The names that every agent can dispatch.
    pub fn always_allowed() -> (r: Vec<String>)
        ensures
            views(r@) == sentinels(),
    {
        crate::tool_catalog::always_allowed()
    }

    /// Reads the templates, which stand in the order of the modes.
    pub fn build(bodies: &Vec<String>) -> (r: Result<PromptToolTable, TemplateError>)
        requires
            bodies@.len() == all_modes().len(),
        ensures
            match r {
                Ok(table) => {
                    &&& table.wf()
                    &&& forall|m: AgentMode|
                        {
                            &&& tool_refs(bodies@[mode_index(m)]@) is Ok
                            &&& strictly_sorted(#[trigger] table.tools(m))
                            &&& forall|x: Seq<char>| #[trigger]
                                table.tools(m).contains(x) <==> (tool_refs(
                                    bodies@[mode_index(m)]@,
                                )->Ok_0).contains(x)
                        }
                },
                Err(e) => {
                    &&& tool_refs(bodies@[mode_index(e.mode)]@) is Err
                    &&& reports(
                        bodies@[mode_index(e.mode)]@,
                        e.cause,
                        tool_refs(bodies@[mode_index(e.mode)]@)->Err_0,
                    )
                    &&& forall|j: int|
                        0 <= j < mode_index(e.mode) ==> tool_refs((#[trigger] bodies@[j])@) is Ok
                },
            },
    {
        let modes = prompt_modes();
        let mut by_mode: Vec<ModeTools> = Vec::new();
        let mut i: usize = 0;
        while i < modes.len()
            invariant
                i <= modes@.len(),
                modes@ == all_modes(),
                bodies@.len() == all_modes().len(),
                by_mode@.len() == i,
                forall|j: int| 0 <= j < i ==> tool_refs((#[trigger] bodies@[j])@) is Ok,
                forall|j: int|
                    0 <= j < i ==> {
                        &&& (#[trigger] by_mode@[j]).mode == all_modes()[j]
                        &&& strictly_sorted(views(by_mode@[j].tools@))
                        &&& forall|x: Seq<char>| #[trigger]
                            views(by_mode@[j].tools@).contains(x) <==> (tool_refs(
                                bodies@[j]@,
                            )->Ok_0).contains(x)
                    },
            decreases modes.len() - i,
        {
            let mode = modes[i];
            proof {
                assert(mode_index(all_modes()[i as int]) == i);
            }
            let tools = match extract_tool_refs(bodies[i].as_str()) {
                Ok(names) => names,
                Err(cause) => {
                    return Err(TemplateError { mode, cause });
                },
            };
            by_mode.push(ModeTools::new(mode, tools));
            i += 1;
        }
        let table = PromptToolTable { by_mode };
        proof {
            assert forall|m: AgentMode| strictly_sorted(#[trigger] table.tools(m)) && tool_refs(
                bodies@[mode_index(m)]@,
            ) is Ok && forall|x: Seq<char>| #[trigger]
                table.tools(m).contains(x) <==> (tool_refs(
                    bodies@[mode_index(m)]@,
                )->Ok_0).contains(x) by {
                lemma_every_mode_is_listed(m);
                let k = mode_index(m);
                assert(by_mode@[k].mode == all_modes()[k]);
                assert(tool_refs(bodies@[k]@) is Ok);
                assert(table.tools(m) == views(by_mode@[k].tools@));
            }
        }
        Ok(table)
    }

    /// The tools that the template of a mode names, sorted, each once.
    pub fn tools_for(&self, mode: AgentMode) -> (r: &Vec<String>)
        requires
            self.wf(),
        ensures
            views(r@) == self.tools(mode),
            strictly_sorted(views(r@)),
    {
        let mut i: usize = 0;
        proof {
            lemma_every_mode_is_listed(mode);
        }
        while i < self.by_mode.len() && self.by_mode[i].mode != mode
            invariant
                self.wf(),
                i <= mode_index(mode) < self.by_mode@.len(),
                all_modes()[mode_index(mode)] == mode,
                self.by_mode@[mode_index(mode)].mode == mode,
            decreases self.by_mode.len() - i,
        {
            i += 1;
        }
        proof {
            assert(self.by_mode@[i as int].mode == all_modes()[i as int]);
            assert(mode_index(all_modes()[i as int]) == i);
        }
        &self.by_mode[i].tools
    }

    /// Holds every template against the allowlist of the agent that owns it.
    pub fn validate(&self) -> (r: Result<(), Vec<String>>)
        requires
            self.wf(),
        ensures
            match r {
                Ok(_) => self.faults(all_modes()) =~= Seq::<Seq<char>>::empty(),
                Err(errors) => errors@.len() > 0 && views(errors@) == self.faults(all_modes()),
            },
    {
        let modes = prompt_modes();
        let mut errors: Vec<String> = Vec::new();
        let mut i: usize = 0;
        proof {
            assert(modes@.take(0) =~= Seq::<AgentMode>::empty());
        }
        while i < modes.len()
            invariant
                self.wf(),
                i <= modes@.len(),
                modes@ == all_modes(),
                views(errors@) == self.faults(modes@.take(i as int)),
            decreases modes.len() - i,
        {
            let mode = modes[i];
            let ghost before = views(errors@);
            let mut found = self.check_mode(mode);
            let ghost a = errors@;
            let ghost b = found@;
            errors.append(&mut found);
            proof {
                assert(views(errors@) =~= views(a) + views(b));
                let next = modes@.take(i + 1);
                assert(next.drop_last() =~= modes@.take(i as int));
                assert(next.last() == mode);
            }
            i += 1;
        }
        proof {
            assert(modes@.take(modes@.len() as int) =~= modes@);
        }
        if errors.len() == 0 {
            Ok(())
        } else {
            Err(errors)
        }
    }

    /// What is wrong with the templates of the given modes.
    pub open spec fn faults(self, modes: Seq<AgentMode>) -> Seq<Seq<char>>
        decreases modes.len(),
    {
        if modes.len() == 0 {
            Seq::empty()
        } else {
            self.faults(modes.drop_last()) + mode_faults(modes.last(), self.tools(modes.last()))
        }
    }

    /// What is wrong with the template of one mode.
    fn check_mode(&self, mode: AgentMode) -> (r: Vec<String>)
        requires
            self.wf(),
        ensures
            views(r@) == mode_faults(mode, self.tools(mode)),
    {
        let mut errors: Vec<String> = Vec::new();
        let agent = mode.agent();
        let allow = match default_allowlist(agent) {
            Some(a) => a,
            None => {
                let mut s = "agent `".to_owned();
                s.append(agent);
                s.append("` (owns mode `");
                s.append(mode.filename());
                s.append("`) has no default_allowlist entry");
                errors.push(s);
                proof {
                    assert(views(errors@) =~= mode_faults(mode, self.tools(mode)));
                }
                return errors;
            },
        };
        let tools = self.tools_for(mode);
        let mut i: usize = 0;
        let ghost all = views(tools@);
        let ghost permits = views(allow@);
        proof {
            assert(all.take(0) =~= Seq::<Seq<char>>::empty());
        }
        while i < tools.len()
            invariant
                i <= tools@.len(),
                all == views(tools@),
                permits == views(allow@),
                agent@ == mode.spec_agent(),
                views(errors@) == refused(mode, permits, all.take(i as int)),
            decreases tools.len() - i,
        {
            let ghost before = views(errors@);
            proof {
                assert(all.take(i + 1).drop_last() =~= all.take(i as int));
            }
            if !is_permitted(&allow, tools[i].as_str()) {
                let mut s = agent.to_owned();
                s.append("/");
                s.append(mode.filename());
                s.append(" prompt references `");
                s.append(tools[i].as_str());
                s.append("` but the agent's allowlist does not include it");
                let ghost text = s@;
                errors.push(s);
                proof {
                    assert(views(errors@) =~= before.push(text));
                }
            }
            i += 1;
        }
        proof {
            assert(all.take(all.len() as int) =~= all);
        }
        errors
    }

    /// Whether a task may run `mode` as the agent `agent_name`.
    pub fn validate_pair(&self, agent_name: &str, mode: AgentMode) -> (r: Result<(), PairError>)
        requires
            self.wf(),
        ensures
            match r {
                Ok(_) => pair_fault(agent_name@, mode, self.tools(mode)) is None,
                Err(e) => pair_fault(agent_name@, mode, self.tools(mode)) == Some(e@),
            },
    {
        if !str_eq(mode.agent(), agent_name) {
            return Err(PairError::NotOwner { agent: agent_name.to_owned(), mode });
        }
        let allow = match default_allowlist(agent_name) {
            Some(a) => a,
            None => {
                return Err(PairError::NoAllowlist { agent: agent_name.to_owned() });
            },
        };
        let tools = self.tools_for(mode);
        let mut i: usize = 0;
        let ghost all = views(tools@);
        let ghost permits = views(allow@);
        while i < tools.len()
            invariant
                i <= tools@.len(),
                all == views(tools@),
                all == self.tools(mode),
                permits == views(allow@),
                allowlist(agent_name@) == Some(permits),
                mode.spec_agent() == agent_name@,
                first_refused(permits, all, 0) == first_refused(permits, all, i as int),
            decreases tools.len() - i,
        {
            if !is_permitted(&allow, tools[i].as_str()) {
                return Err(
                    PairError::NotAllowed {
                        agent: agent_name.to_owned(),
                        mode,
                        tool: tools[i].clone(),
                    },
                );
            }
            i += 1;
        }
        Ok(())
    }
}

/// Whether an agent with the tools `allow` can dispatch `tool`, by its own name,
/// by the tool behind an alias, or because every agent can.
pub open spec fn permitted(allow: Seq<Seq<char>>, tool: Seq<char>) -> bool {
    sentinels().contains(tool) || allow.contains(tool) || (match alias_target(tool) {
        Some(to) => allow.contains(to),
        None => false,
    })
}

/// Whether an agent with the tools `allow` can dispatch `tool`.
pub fn is_permitted(allow: &Vec<String>, tool: &str) -> (r: bool)
    ensures
        r == permitted(views(allow@), tool@),
{
    if list_has(&PromptToolTable::always_allowed(), tool) || list_has(allow, tool) {
        return true;
    }
    match canonicalize(tool) {
        Some(to) => list_has(allow, to),
        None => false,
    }
}

/// One line for each tool that is not permitted.
pub open spec fn refused(mode: AgentMode, allow: Seq<Seq<char>>, tools: Seq<Seq<char>>) -> Seq<
    Seq<char>,
>
    decreases tools.len(),
{
    if tools.len() == 0 {
        Seq::empty()
    } else {
        let rest = refused(mode, allow, tools.drop_last());
        if permitted(allow, tools.last()) {
            rest
        } else {
            rest.push(
                mode.spec_agent() + "/"@ + mode.spec_filename() + " prompt references `"@
                    + tools.last() + "` but the agent's allowlist does not include it"@,
            )
        }
    }
}

/// What is wrong with a template that names `tools`.
pub open spec fn mode_faults(mode: AgentMode, tools: Seq<Seq<char>>) -> Seq<Seq<char>> {
    match allowlist(mode.spec_agent()) {
        Some(allow) => refused(mode, allow, tools),
        None => seq![
            "agent `"@ + mode.spec_agent() + "` (owns mode `"@ + mode.spec_filename()
                + "`) has no default_allowlist entry"@,
        ],
    }
}

/// All mismatches in one message.
pub fn mismatch_report(errors: &Vec<String>) -> (r: String)
    ensures
        r@ == "prompt ↔ allowlist mismatches found ("@ + crate::text::decimal(errors@.len())
            + "):\n  - "@ + joined(views(errors@), "\n  - "@),
{
    let mut s = "prompt ↔ allowlist mismatches found (".to_owned();
    s.append(show_u64(errors.len() as u64).as_str());
    s.append("):\n  - ");
    s.append(join(errors, "\n  - ").as_str());
    s
}

/// Why a task must not run.
#[derive(Debug)]
pub enum PairError {
    NotOwner { agent: String, mode: AgentMode },
    NoAllowlist { agent: String },
    NotAllowed { agent: String, mode: AgentMode, tool: String },
}

/// What a [`PairError`] holds.
pub enum PairErrorView {
    NotOwner { agent: Seq<char>, mode: AgentMode },
    NoAllowlist { agent: Seq<char> },
    NotAllowed { agent: Seq<char>, mode: AgentMode, tool: Seq<char> },
}

impl View for PairError {
    type V = PairErrorView;

    open spec fn view(&self) -> PairErrorView {
        match *self {
            PairError::NotOwner { agent, mode } => PairErrorView::NotOwner { agent: agent@, mode },
            PairError::NoAllowlist { agent } => PairErrorView::NoAllowlist { agent: agent@ },
            PairError::NotAllowed { agent, mode, tool } => PairErrorView::NotAllowed {
                agent: agent@,
                mode,
                tool: tool@,
            },
        }
    }
}

impl PairErrorView {
    /// Why a task must not run, in words.
    pub open spec fn text(self) -> Seq<char> {
        match self {
            PairErrorView::NotOwner { agent, mode } => "agent `"@ + agent + "` does not own mode `"@
                + mode.spec_filename() + "` (owned by `"@ + mode.spec_agent() + "`)"@,
            PairErrorView::NoAllowlist { agent } => "agent `"@ + agent
                + "` has no default_allowlist entry"@,
            PairErrorView::NotAllowed { agent, mode, tool } => "prompt `"@ + mode.spec_filename()
                + "` references tool `"@ + tool + "` which is not in `"@ + agent
                + "`'s allowlist"@,
        }
    }
}

impl PairError {
    /// Why a task must not run, in words.
    pub fn message(&self) -> (r: String)
        ensures
            r@ == self@.text(),
    {
        match self {
            PairError::NotOwner { agent, mode } => {
                let mut s = "agent `".to_owned();
                s.append(agent.as_str());
                s.append("` does not own mode `");
                s.append(mode.filename());
                s.append("` (owned by `");
                s.append(mode.agent());
                s.append("`)");
                s
            },
            PairError::NoAllowlist { agent } => {
                let mut s = "agent `".to_owned();
                s.append(agent.as_str());
                s.append("` has no default_allowlist entry");
                s
            },
            PairError::NotAllowed { agent, mode, tool } => {
                let mut s = "prompt `".to_owned();
                s.append(mode.filename());
                s.append("` references tool `");
                s.append(tool.as_str());
                s.append("` which is not in `");
                s.append(agent.as_str());
                s.append("`'s allowlist");
                s
            },
        }
    }
}

/// The first tool from `i` on that is not permitted.
pub open spec fn first_refused(allow: Seq<Seq<char>>, tools: Seq<Seq<char>>, i: int) -> Option<
    Seq<char>,
>
    decreases tools.len() - i,
{
    if i < 0 || i >= tools.len() {
        None
    } else if !permitted(allow, tools[i]) {
        Some(tools[i])
    } else {
        first_refused(allow, tools, i + 1)
    }
}

/// Why a task for `mode`, whose template names `tools`, must not run as `agent`.
pub open spec fn pair_fault(agent: Seq<char>, mode: AgentMode, tools: Seq<Seq<char>>) -> Option<
    PairErrorView,
> {
    if mode.spec_agent() != agent {
        Some(PairErrorView::NotOwner { agent, mode })
    } else {
        match allowlist(agent) {
            None => Some(PairErrorView::NoAllowlist { agent }),
            Some(allow) => match first_refused(allow, tools, 0) {
                Some(tool) => Some(PairErrorView::NotAllowed { agent, mode, tool }),
                None => None,
            },
        }
    }
}

/// A table that validates as a whole lets every agent run each of its modes, and
/// a table in which every agent can run each of its modes validates.
pub proof fn law_valid_table_accepts_owners(table: PromptToolTable)
    ensures
        table.faults(all_modes()) =~= Seq::<Seq<char>>::empty() <==> forall|m: AgentMode|
            pair_fault(m.spec_agent(), m, #[trigger] table.tools(m)) is None,
{
    lemma_faults_empty(table, all_modes());
    assert forall|m: AgentMode|
        mode_faults(m, table.tools(m)).len() == 0 <==> pair_fault(
            m.spec_agent(),
            m,
            #[trigger] table.tools(m),
        ) is None by {
        match allowlist(m.spec_agent()) {
            Some(allow) => lemma_refused_empty(m, allow, table.tools(m)),
            None => {},
        }
    }
    if table.faults(all_modes()).len() == 0 {
        assert forall|m: AgentMode| pair_fault(
            m.spec_agent(),
            m,
            #[trigger] table.tools(m),
        ) is None by {
            lemma_every_mode_is_listed(m);
            assert(mode_faults(
                all_modes()[mode_index(m)],
                table.tools(all_modes()[mode_index(m)]),
            ).len() == 0);
        }
    }
}

/// A task that is let through runs a mode of its own agent, whose template asks
/// for no tool that the agent cannot call; every such task is let through.
pub proof fn law_passed_tasks_ask_for_allowed_tools(
    agent: Seq<char>,
    mode: AgentMode,
    tools: Seq<Seq<char>>,
)
    ensures
        pair_fault(agent, mode, tools) is None <==> mode.spec_agent() == agent && (allowlist(
            agent,
        ) matches Some(allow) && forall|i: int|
            0 <= i < tools.len() ==> permitted(allow, #[trigger] tools[i])),
{
    match allowlist(agent) {
        Some(allow) => lemma_first_refused_all(allow, tools, 0),
        None => {},
    }
}

proof fn lemma_faults_empty(table: PromptToolTable, modes: Seq<AgentMode>)
    ensures
        table.faults(modes).len() == 0 <==> forall|i: int|
            0 <= i < modes.len() ==> mode_faults(
                #[trigger] modes[i],
                table.tools(modes[i]),
            ).len() == 0,
    decreases modes.len(),
{
    if modes.len() > 0 {
        lemma_faults_empty(table, modes.drop_last());
        assert(forall|i: int| 0 <= i < modes.len() - 1 ==> modes.drop_last()[i] == modes[i]);
        if table.faults(modes).len() == 0 {
            assert forall|i: int| 0 <= i < modes.len() implies mode_faults(
                #[trigger] modes[i],
                table.tools(modes[i]),
            ).len() == 0 by {
                if i < modes.len() - 1 {
                    assert(modes.drop_last()[i] == modes[i]);
                }
            }
        }
    }
}

proof fn lemma_refused_empty(mode: AgentMode, allow: Seq<Seq<char>>, tools: Seq<Seq<char>>)
    ensures
        refused(mode, allow, tools).len() == 0 <==> first_refused(allow, tools, 0) is None,
{
    lemma_refused_all(mode, allow, tools);
    lemma_first_refused_all(allow, tools, 0);
}

proof fn lemma_refused_all(mode: AgentMode, allow: Seq<Seq<char>>, tools: Seq<Seq<char>>)
    ensures
        refused(mode, allow, tools).len() == 0 <==> forall|i: int|
            0 <= i < tools.len() ==> permitted(allow, #[trigger] tools[i]),
    decreases tools.len(),
{
    if tools.len() > 0 {
        lemma_refused_all(mode, allow, tools.drop_last());
        assert(forall|i: int| 0 <= i < tools.len() - 1 ==> tools.drop_last()[i] == tools[i]);
        if refused(mode, allow, tools).len() == 0 {
            assert forall|i: int| 0 <= i < tools.len() implies permitted(
                allow,
                #[trigger] tools[i],
            ) by {
                if i < tools.len() - 1 {
                    assert(tools.drop_last()[i] == tools[i]);
                }
            }
        }
    }
}

proof fn lemma_first_refused_all(allow: Seq<Seq<char>>, tools: Seq<Seq<char>>, from: int)
    requires
        0 <= from,
    ensures
        first_refused(allow, tools, from) is None <==> forall|i: int|
            from <= i < tools.len() ==> permitted(allow, #[trigger] tools[i]),
    decreases tools.len() - from,
{
    if from < tools.len() {
        lemma_first_refused_all(allow, tools, from + 1);
    }
}

/// A tool can be dispatched where it is on the list, where it is `noop` or `none`, and
/// where it is an alias of one on the list; and nowhere else.
pub proof fn law_what_can_be_dispatched(allow: Seq<Seq<char>>, tool: Seq<char>)
    ensures
        permitted(allow, tool) <==> {
            ||| allow.contains(tool)
            ||| tool == "noop"@
            ||| tool == "none"@
            ||| tool == "record_system_feedback"@ && allow.contains("save_behavior"@)
            ||| tool == "record_research_plan"@ && allow.contains("save_semantic"@)
        },
{
    super::normalizer::law_what_aliases_stand_for(tool);
    assert(sentinels()[0] == "noop"@);
    assert(sentinels()[1] == "none"@);
    reveal_strlit("record_system_feedback");
    reveal_strlit("record_research_plan");
    assert("record_system_feedback"@.len() != "record_research_plan"@.len());
}

/// A task that is turned away for a tool is turned away for the first tool of its
/// template that its agent cannot call.
pub proof fn law_which_tool_is_named(
    agent: Seq<char>,
    mode: AgentMode,
    tools: Seq<Seq<char>>,
    allow: Seq<Seq<char>>,
    k: int,
)
    requires
        mode.spec_agent() == agent,
        allowlist(agent) == Some(allow),
        0 <= k < tools.len(),
        !permitted(allow, tools[k]),
        forall|j: int| 0 <= j < k ==> permitted(allow, #[trigger] tools[j]),
    ensures
        pair_fault(agent, mode, tools) == Some(
            PairErrorView::NotAllowed { agent, mode, tool: tools[k] },
        ),
{
    lemma_first_refused_is(allow, tools, 0, k);
}

proof fn lemma_first_refused_is(
    allow: Seq<Seq<char>>,
    tools: Seq<Seq<char>>,
    from: int,
    k: int,
)
    requires
        0 <= from <= k < tools.len(),
        !permitted(allow, tools[k]),
        forall|j: int| from <= j < k ==> permitted(allow, #[trigger] tools[j]),
    ensures
        first_refused(allow, tools, from) == Some(tools[k]),
    decreases k - from,
{
    if from < k {
        assert(permitted(allow, tools[from]));
        lemma_first_refused_is(allow, tools, from + 1, k);
    }
}

/// Templates are held against the allowlist tool by tool: each tool that its agent cannot
/// call gives a line that names it, and no other does.
pub proof fn law_each_refused_tool_gives_a_line(
    mode: AgentMode,
    allow: Seq<Seq<char>>,
    tools: Seq<Seq<char>>,
    tool: Seq<char>,
)
    ensures
        refused(mode, allow, Seq::empty()) == Seq::<Seq<char>>::empty(),
        permitted(allow, tool) ==> refused(mode, allow, tools.push(tool)) == refused(
            mode,
            allow,
            tools,
        ),
        !permitted(allow, tool) ==> ({
            let lines = refused(mode, allow, tools.push(tool));
            &&& lines.drop_last() == refused(mode, allow, tools)
            &&& lines.len() == refused(mode, allow, tools).len() + 1
            &&& crate::text::occurs(lines.last(), tool)
        }),
{
    assert(tools.push(tool).drop_last() =~= tools);
    if !permitted(allow, tool) {
        let lines = refused(mode, allow, tools.push(tool));
        assert(lines.drop_last() =~= refused(mode, allow, tools));
        let head = mode.spec_agent() + "/"@ + mode.spec_filename() + " prompt references `"@;
        let tail = "` but the agent's allowlist does not include it"@;
        assert(lines.last() =~= head + tool + tail);
        crate::text::law_occurring_is_character_by_character(head, tool, tail, lines.last());
    }
}

proof fn lemma_ticks_shift(t: Seq<char>, k: int, i: int)
    requires
        0 <= k <= t.len(),
        0 <= i,
        k + i <= t.len(),
    ensures
        backtick_refs(t.skip(k), i) == backtick_refs(t, k + i),
    decreases t.len() - k - i,
{
    let u = t.skip(k);
    lemma_tick_shift(t, k, i);
    lemma_first_char_bounds(t, '`', k + i);
    match first_char(t, '`', k + i) {
        None => {},
        Some(open) => {
            lemma_tick_shift(t, k, open - k + 1);
            lemma_first_char_bounds(t, '`', open + 1);
            match first_char(t, '`', open + 1) {
                None => {},
                Some(close) => {
                    lemma_ticks_shift(t, k, close - k + 1);
                    assert(u.subrange(open - k + 1, close - k) =~= t.subrange(open + 1, close));
                },
            }
        },
    }
}

proof fn lemma_tick_shift(t: Seq<char>, k: int, i: int)
    requires
        0 <= k <= t.len(),
        0 <= i,
    ensures
        first_char(t.skip(k), '`', i) == (match first_char(t, '`', k + i) {
            Some(j) => Some(j - k),
            None => None,
        }),
    decreases t.len() - k - i,
{
    if k + i < t.len() && t[k + i] != '`' {
        lemma_tick_shift(t, k, i + 1);
    }
}

proof fn lemma_tick_is(t: Seq<char>, from: int, i: int)
    requires
        0 <= from <= i <= t.len(),
        forall|j: int| from <= j < i ==> t[j] != '`',
        i < t.len() ==> t[i] == '`',
    ensures
        first_char(t, '`', from) == (if i < t.len() {
            Some(i)
        } else {
            None
        }),
    decreases i - from,
{
    if from < i {
        lemma_tick_is(t, from + 1, i);
    }
}

/// What stands between two backticks is named where it is a tool that is known; what
/// follows is read on, and text without backticks names nothing.
pub proof fn law_known_tools_in_backticks_are_named(
    before: Seq<char>,
    token: Seq<char>,
    after: Seq<char>,
)
    requires
        forall|i: int| 0 <= i < before.len() ==> before[i] != '`',
        forall|i: int| 0 <= i < token.len() ==> token[i] != '`',
    ensures
        backtick_refs(before, 0) == Seq::<Seq<char>>::empty(),
        backtick_refs(before + seq!['`'] + token + seq!['`'] + after, 0) == (if token.len() > 0
            && is_name(token) && known_tools().contains(token) {
            seq![token]
        } else {
            Seq::empty()
        }) + backtick_refs(after, 0),
{
    lemma_tick_is(before, 0, before.len() as int);
    let t = before + seq!['`'] + token + seq!['`'] + after;
    let open = before.len() as int;
    let close = open + 1 + token.len();
    assert(t[open] == '`' && t[close] == '`');
    lemma_tick_is(t, 0, open);
    assert forall|j: int| open + 1 <= j < close implies t[j] != '`' by {
        assert(t[j] == token[j - open - 1]);
    }
    lemma_tick_is(t, open + 1, close);
    assert(t.subrange(open + 1, close) =~= token);
    lemma_ticks_shift(t, close + 1, 0);
    assert(t.skip(close + 1) =~= after);
    assert(Seq::<Seq<char>>::empty() + backtick_refs(after, 0) =~= backtick_refs(after, 0));
}

proof fn lemma_refs_shift(t: Seq<char>, k: int, i: int)
    requires
        0 <= k <= t.len(),
        0 <= i,
        k + i <= t.len(),
    ensures
        match (marker_refs(t.skip(k), i), marker_refs(t, k + i)) {
            (Ok(a), Ok(b)) => a == b,
            (Err(_), Err(_)) => true,
            _ => false,
        },
    decreases t.len() - k - i,
{
    let u = t.skip(k);
    lemma_prefixes();
    if k + i < t.len() {
        if i + 12 <= u.len() {
            assert(u.subrange(i, i + 12) =~= t.subrange(k + i, k + i + 12));
        }
        if !prefix_at(t, k + i) {
            lemma_refs_shift(t, k, i + 1);
        } else {
            lemma_char_shift(t, ':', k, i + 12);
            lemma_first_char_bounds(t, ':', k + i + 12);
            match first_char(t, ':', k + i + 12) {
                None => {},
                Some(colon) => {
                    assert(u.subrange(i + 12, colon - k) =~= t.subrange(k + i + 12, colon));
                    lemma_braces_shift(t, k, colon - k + 1, 0, false, false);
                    let (end, depth) = count_braces(t, colon + 1, 0, false, false);
                    lemma_count_braces_bounds(t, colon + 1, 0, false, false);
                    lemma_brackets_shift(t, k, end - k, 10);
                    lemma_closing_brackets_bounds(t, end, 10);
                    let next = end + closing_brackets(t, end, 10);
                    lemma_refs_shift(t, k, next - k);
                },
            }
        }
    }
}

proof fn lemma_refs_skip_prose(t: Seq<char>, i: int, m: int)
    requires
        0 <= i <= m <= t.len(),
        forall|j: int| i <= j < m ==> t[j] != '[',
    ensures
        marker_refs(t, i) == marker_refs(t, m),
    decreases m - i,
{
    lemma_prefixes();
    if i < m {
        if i + 12 <= t.len() {
            assert(t.subrange(i, i + 12)[0] == t[i]);
        }
        assert(!prefix_at(t, i));
        lemma_refs_skip_prose(t, i + 1, m);
    }
}

/// A marker that is written out names its tool, what follows is read on, and text without
/// brackets names nothing.
pub proof fn law_written_markers_are_named(
    before: Seq<char>,
    small: bool,
    name: Seq<char>,
    body: Body,
    closing: nat,
    after: Seq<char>,
)
    requires
        forall|i: int| 0 <= i < before.len() ==> before[i] != '[',
        name.len() > 0,
        is_name(name),
        body_ok(body),
        closing <= 10,
        after.len() > 0 ==> after[0] != ']',
    ensures
        marker_refs(before, 0) == Ok::<Seq<Seq<char>>, RefErrorView>(Seq::empty()),
        ({
            let prefix = if small {
                "[[memory_op:"@
            } else {
                "[[MEMORY_OP:"@
            };
            let brackets = Seq::new(closing, |i: int| ']');
            let t = before + prefix + name + seq![':'] + object_text(body) + brackets + after;
            match (marker_refs(t, 0), marker_refs(after, 0)) {
                (Ok(all), Ok(rest)) => all == seq![name] + rest,
                (Err(_), Err(_)) => true,
                _ => false,
            }
        }),
{
    lemma_prefixes();
    lemma_refs_skip_prose(before, 0, before.len() as int);
    let prefix = if small {
        "[[memory_op:"@
    } else {
        "[[MEMORY_OP:"@
    };
    let brackets = Seq::new(closing, |i: int| ']');
    let payload = object_text(body);
    let t = before + prefix + name + seq![':'] + payload + brackets + after;
    let m = before.len() as int;
    let colon = m + 12 + name.len();
    let k = colon + 1;
    let e = k + payload.len();
    let end = e + closing;
    assert forall|j: int| 0 <= j < m implies t[j] != '[' by {
        assert(t[j] == before[j]);
    }
    lemma_refs_skip_prose(t, 0, m);
    assert(t.subrange(m, m + 12) =~= prefix);
    assert(prefix_at(t, m));
    assert(t[colon] == ':');
    assert forall|j: int| m + 12 <= j < colon implies t[j] != ':' by {
        assert(t[j] == name[j - m - 12]);
    }
    lemma_first_char_is(t, ':', m + 12, colon);
    assert(t.subrange(m + 12, colon) =~= name);
    assert(t.subrange(k, e) =~= payload);
    law_object_ends_at_its_brace(t, k, body);
    assert forall|j: int| e <= j < end implies t[j] == ']' by {
        assert(t[j] == brackets[j - e]);
    }
    if after.len() > 0 {
        assert(t[end] == after[0]);
    }
    lemma_brackets_passed(t, e, closing, 10);
    lemma_refs_shift(t, end, 0);
    assert(t.skip(end) =~= after);
}

proof fn lemma_brace_stays_open(t: Seq<char>, i: int)
    requires
        0 <= i <= t.len(),
        forall|j: int| i <= j < t.len() ==> t[j] != '"' && t[j] != '{' && t[j] != '}',
    ensures
        count_braces(t, i, 1, false, false).1 == 1,
    decreases t.len() - i,
{
    if i < t.len() {
        lemma_brace_stays_open(t, i + 1);
    }
}

/// A marker that cannot be read is reported at its first character: one without a colon,
/// one without a name, one whose name is none, and one whose object does not close.
pub proof fn law_broken_markers_are_reported(
    before: Seq<char>,
    small: bool,
    name: Seq<char>,
    after: Seq<char>,
)
    requires
        forall|i: int| 0 <= i < before.len() ==> before[i] != '[',
        forall|i: int| 0 <= i < name.len() ==> name[i] != ':',
    ensures
        ({
            let prefix = if small {
                "[[memory_op:"@
            } else {
                "[[MEMORY_OP:"@
            };
            let at = before.len() as int;
            let head = before + prefix + name;
            let full = head + seq![':'] + after;
            let open = forall|j: int|
                0 <= j < after.len() - 1 ==> (#[trigger] after[j + 1]) != '"' && after[j + 1] != '{'
                    && after[j + 1] != '}';
            &&& marker_refs(head, 0) == Err::<Seq<Seq<char>>, RefErrorView>(
                RefErrorView::NoSeparator { at },
            )
            &&& name.len() == 0 ==> marker_refs(full, 0) == Err::<Seq<Seq<char>>, RefErrorView>(
                RefErrorView::EmptyName { at },
            )
            &&& !is_name(name) ==> marker_refs(full, 0) == Err::<Seq<Seq<char>>, RefErrorView>(
                RefErrorView::NotAName { at, name },
            )
            &&& name.len() > 0 && is_name(name) && after.len() > 0 && after[0] == '{' && open
                ==> marker_refs(full, 0) == Err::<Seq<Seq<char>>, RefErrorView>(
                RefErrorView::Unclosed { at, name },
            )
        }),
{
    lemma_prefixes();
    let prefix = if small {
        "[[memory_op:"@
    } else {
        "[[MEMORY_OP:"@
    };
    let m = before.len() as int;
    let head = before + prefix + name;
    let full = head + seq![':'] + after;
    let colon = head.len() as int;
    assert forall|j: int| 0 <= j < m implies head[j] != '[' && full[j] != '[' by {
        assert(head[j] == before[j] && full[j] == before[j]);
    }
    lemma_refs_skip_prose(head, 0, m);
    lemma_refs_skip_prose(full, 0, m);
    assert(head.subrange(m, m + 12) =~= prefix);
    assert(full.subrange(m, m + 12) =~= prefix);
    assert(prefix_at(head, m) && prefix_at(full, m));
    assert forall|j: int| m + 12 <= j < colon implies head[j] != ':' && full[j] != ':' by {
        assert(head[j] == name[j - m - 12] && full[j] == name[j - m - 12]);
    }
    lemma_first_char_bounds(head, ':', m + 12);
    assert(full[colon] == ':');
    lemma_first_char_is(full, ':', m + 12, colon);
    assert(full.subrange(m + 12, colon) =~= name);
    if after.len() > 0 && after[0] == '{' && (forall|j: int|
        0 <= j < after.len() - 1 ==> (#[trigger] after[j + 1]) != '"' && after[j + 1] != '{'
            && after[j + 1] != '}') {
        assert(full[colon + 1] == '{');
        assert forall|j: int| colon + 2 <= j < full.len() implies full[j] != '"' && full[j] != '{'
            && full[j] != '}' by {
            assert(full[j] == after[(j - colon - 2) + 1]);
        }
        lemma_brace_stays_open(full, colon + 2);
    }
}

/// A template names the tools of its markers first and those in backticks behind them; one
/// whose markers cannot be read names nothing.
pub proof fn law_markers_are_named_before_backticks(t: Seq<char>, a: Seq<Seq<char>>)
    requires
        marker_refs(t, 0) == Ok::<Seq<Seq<char>>, RefErrorView>(a),
    ensures
        tool_refs(t) matches Ok(all) && all.len() == a.len() + backtick_refs(t, 0).len()
            && all.take(a.len() as int) == a && all.skip(a.len() as int) == backtick_refs(t, 0),
{
    let all = a + backtick_refs(t, 0);
    assert(all.take(a.len() as int) =~= a);
    assert(all.skip(a.len() as int) =~= backtick_refs(t, 0));
}

} // verus!
