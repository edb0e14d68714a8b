//! The system prompt of an agent.
//!
//! It says who the agent is, what it noted about itself before, which tools it
//! may call and how, and which of its last calls failed.

use vstd::prelude::*;

use crate::agents::{
    all_agents, Agent, AgentView, GENERATION_PERSONALITY, GENERATION_ROLE, RANKING_PERSONALITY,
    RANKING_ROLE, REFLECTION_PERSONALITY, REFLECTION_ROLE, SUPERVISOR_PERSONALITY, SUPERVISOR_ROLE,
};
use crate::json::Json;
use crate::prompts::AgentMode;
use crate::registry::{allowlist, default_allowlist};
use crate::text::{
    begins, contains_str, first_line, join, joined, line_one, matches_at, occurs, str_eq, trim,
    trimmed, views,
};

verus! {

/// Which turn of a runner it is.
#[derive(Clone, Copy, Debug, PartialEq, Eq, Structural)]
pub enum TurnPhase {
    /// The first one: personality and skills are introduced.
    FirstTurn,
    /// A later one: they are left out.
    Subsequent,
}

/// A note of an agent about its own behaviour.
#[derive(Debug)]
pub struct BehaviorMemory {
    pub id: i64,
    pub agent_id: i64,
    pub pattern: String,
    pub notes: String,
    pub evidence: Option<String>,
    pub created_at: String,
}

/// A tool as the prompt describes it.
#[derive(Debug)]
pub struct ToolInfo {
    pub name: String,
    pub description: String,
    pub schema: Json,
}

/// A skill as the prompt introduces it.
#[derive(Debug)]
pub struct SkillCard {
    pub name: String,
    pub description: String,
}

/// The skills that were found in a directory.
#[derive(Debug)]
pub struct SkillShelf {
    pub path: String,
    pub skills: Vec<SkillCard>,
}

// --------------------------------------------------------------- prior notes

/// The lines of the first `n` notes.
pub open spec fn note_lines(notes: Seq<BehaviorMemory>, n: nat) -> Seq<char>
    decreases n,
{
    if n == 0 {
        Seq::empty()
    } else {
        note_lines(notes, (n - 1) as nat) + ("- "@ + notes[n - 1].pattern@ + ": "@ + notes[n
            - 1].notes@ + "\n"@)
    }
}

/// The block of an agent's notes about itself; empty without notes.
pub open spec fn prior_block(notes: Seq<BehaviorMemory>) -> Seq<char> {
    if notes.len() == 0 {
        Seq::empty()
    } else {
        "\n\n## Your prior self-critique\n"@ + note_lines(notes, notes.len())
    }
}

/// The block of an agent's notes about itself; empty without notes.
pub fn format_prior_block(notes: &[BehaviorMemory]) -> (r: String)
    ensures
        r@ == prior_block(notes@),
{
    if notes.len() == 0 {
        let r = String::new();
        proof {
            assert(r@ =~= Seq::<char>::empty());
        }
        return r;
    }
    let mut out: String = "\n\n## Your prior self-critique\n".to_owned();
    let ghost head = out@;
    let n: usize = notes.len();
    let mut i: usize = 0;
    proof {
        assert(head + note_lines(notes@, 0) =~= head);
    }
    while i < n
        invariant
            n == notes@.len(),
            i <= n,
            head == "\n\n## Your prior self-critique\n"@,
            out@ == head + note_lines(notes@, i as nat),
        decreases n - i,
    {
        let ghost before = out@;
        out.append("- ");
        out.append(notes[i].pattern.as_str());
        out.append(": ");
        out.append(notes[i].notes.as_str());
        out.append("\n");
        proof {
            assert(out@ =~= head + note_lines(notes@, (i + 1) as nat));
        }
        i += 1;
    }
    out
}

/// The block of earlier sessions; empty where there is nothing to tell.
pub open spec fn session_block(prior: Seq<char>) -> Seq<char> {
    if trimmed(prior).len() == 0 || occurs(prior, "(no prior sessions)"@) {
        Seq::empty()
    } else {
        "\n\n"@ + prior
    }
}

fn render_session(prior: &str) -> (r: String)
    ensures
        r@ == session_block(prior@),
{
    let mut out = String::new();
    proof {
        assert(out@ =~= Seq::<char>::empty());
    }
    let bare = trim(prior);
    if !bare.as_str().is_empty() && !contains_str(prior, "(no prior sessions)") {
        out.append("\n\n");
        out.append(prior);
        proof {
            assert(out@ =~= session_block(prior@));
        }
    }
    out
}

// --------------------------------------------------------------------- tools

/// The first tool of a registry with the name `name`, from place `i` on.
pub open spec fn tool_from(registry: Seq<ToolInfo>, name: Seq<char>, i: int) -> Option<int>
    decreases registry.len() - i,
{
    if i < 0 || i >= registry.len() {
        None
    } else if registry[i].name@ == name {
        Some(i)
    } else {
        tool_from(registry, name, i + 1)
    }
}

/// The registered tools behind the first `n` names, in the order of the names.
pub open spec fn tools_behind(registry: Seq<ToolInfo>, names: Seq<Seq<char>>, n: nat) -> Seq<ToolInfo>
    decreases n,
{
    if n == 0 {
        Seq::empty()
    } else {
        let before = tools_behind(registry, names, (n - 1) as nat);
        match tool_from(registry, names[n - 1], 0) {
            Some(i) => before.push(registry[i]),
            None => before,
        }
    }
}

/// The tools that an agent may call, in the order of its allowlist; none for an
/// agent that is not known.
pub open spec fn agent_tools(registry: Seq<ToolInfo>, agent: Seq<char>) -> Seq<ToolInfo> {
    match allowlist(agent) {
        Some(names) => tools_behind(registry, names, names.len()),
        None => Seq::empty(),
    }
}

/// The tools that a list of references stands for.
pub open spec fn tools_at(tools: Seq<&ToolInfo>) -> Seq<ToolInfo> {
    tools.map_values(|t: &ToolInfo| *t)
}

fn find_tool<'a>(registry: &'a Vec<ToolInfo>, name: &str) -> (r: Option<&'a ToolInfo>)
    ensures
        match r {
            Some(t) => tool_from(registry@, name@, 0) matches Some(i) && *t == registry@[i],
            None => tool_from(registry@, name@, 0) is None,
        },
{
    let n: usize = registry.len();
    let mut i: usize = 0;
    while i < n
        invariant
            n == registry@.len(),
            i <= n,
            tool_from(registry@, name@, 0) == tool_from(registry@, name@, i as int),
        decreases n - i,
    {
        if str_eq(registry[i].name.as_str(), name) {
            return Some(&registry[i]);
        }
        i += 1;
    }
    None
}

/// The tools that an agent may call, in the order of its allowlist; none for an
/// agent that is not known.
pub fn tools_for_agent<'a>(registry: &'a Vec<ToolInfo>, agent: &str) -> (r: Vec<&'a ToolInfo>)
    ensures
        tools_at(r@) == agent_tools(registry@, agent@),
{
    let mut out: Vec<&'a ToolInfo> = Vec::new();
    proof {
        assert(tools_at(out@) =~= Seq::<ToolInfo>::empty());
    }
    match default_allowlist(agent) {
        None => {},
        Some(names) => {
            let n: usize = names.len();
            let mut i: usize = 0;
            while i < n
                invariant
                    n == names@.len(),
                    i <= n,
                    tools_at(out@) == tools_behind(registry@, views(names@), i as nat),
                decreases n - i,
            {
                let ghost before = out@;
                proof {
                    assert(views(names@)[i as int] == names@[i as int]@);
                }
                if let Some(t) = find_tool(registry, names[i].as_str()) {
                    out.push(t);
                    proof {
                        assert(tools_at(out@) =~= tools_at(before).push(*t));
                    }
                }
                i += 1;
            }
        },
    }
    out
}

/// The tools among the first `n` whose name is one of the skills.
pub open spec fn named_tools(tools: Seq<ToolInfo>, skills: Seq<Seq<char>>, n: nat) -> Seq<ToolInfo>
    decreases n,
{
    if n == 0 {
        Seq::empty()
    } else {
        let before = named_tools(tools, skills, (n - 1) as nat);
        if skills.contains(tools[n - 1].name@) {
            before.push(tools[n - 1])
        } else {
            before
        }
    }
}

/// The tools that the prompt of an agent describes: all that it may call, or,
/// where it has skills, those of them that are named there.
pub open spec fn visible(registry: Seq<ToolInfo>, agent: AgentView) -> Seq<ToolInfo> {
    let allowed = agent_tools(registry, agent.name);
    if agent.skills.len() == 0 {
        allowed
    } else {
        named_tools(allowed, agent.skills, allowed.len())
    }
}

fn has_skill(agent: &Agent, name: &str) -> (r: bool)
    ensures
        r == agent@.skills.contains(name@),
{
    let n: usize = agent.skills.len();
    let mut i: usize = 0;
    while i < n
        invariant
            n == agent.skills@.len(),
            i <= n,
            forall|j: int| 0 <= j < i ==> agent@.skills[j] != name@,
        decreases n - i,
    {
        if str_eq(agent.skills[i], name) {
            proof {
                assert(agent@.skills[i as int] == name@);
            }
            return true;
        }
        i += 1;
    }
    false
}

/// The tools that the prompt of an agent describes.
pub fn visible_tools<'a>(registry: &'a Vec<ToolInfo>, agent: &Agent) -> (r: Vec<&'a ToolInfo>)
    ensures
        tools_at(r@) == visible(registry@, agent@),
{
    let allowed = tools_for_agent(registry, agent.name);
    if agent.skills.len() == 0 {
        return allowed;
    }
    let ghost all = tools_at(allowed@);
    let n: usize = allowed.len();
    let mut out: Vec<&'a ToolInfo> = Vec::new();
    let mut i: usize = 0;
    proof {
        assert(tools_at(out@) =~= Seq::<ToolInfo>::empty());
    }
    while i < n
        invariant
            n == allowed@.len(),
            i <= n,
            all == tools_at(allowed@),
            tools_at(out@) == named_tools(all, agent@.skills, i as nat),
        decreases n - i,
    {
        let ghost before = out@;
        let t = allowed[i];
        proof {
            assert(all[i as int] == *t);
        }
        if has_skill(agent, t.name.as_str()) {
            out.push(t);
            proof {
                assert(tools_at(out@) =~= tools_at(before).push(*t));
            }
        }
        i += 1;
    }
    out
}

/// The texts among the first `n` values.
pub open spec fn texts_upto(items: Seq<Json>, n: nat) -> Seq<Seq<char>>
    decreases n,
{
    if n == 0 {
        Seq::empty()
    } else {
        let before = texts_upto(items, (n - 1) as nat);
        match items[n - 1].text() {
            Some(s) => before.push(s),
            None => before,
        }
    }
}

/// The names of the arguments that a tool needs.
pub open spec fn required_of(schema: Json) -> Seq<Seq<char>> {
    match schema.spec_get("required"@) {
        Some(Json::Array(items)) => texts_upto(items@, items@.len()),
        _ => Seq::empty(),
    }
}

fn required_names(schema: &Json) -> (r: Vec<String>)
    ensures
        views(r@) == required_of(*schema),
{
    let mut out: Vec<String> = Vec::new();
    proof {
        assert(views(out@) =~= Seq::<Seq<char>>::empty());
    }
    match schema.get("required") {
        Some(Json::Array(items)) => {
            let n: usize = items.len();
            let mut i: usize = 0;
            while i < n
                invariant
                    n == items@.len(),
                    i <= n,
                    views(out@) == texts_upto(items@, i as nat),
                decreases n - i,
            {
                let ghost before = out@;
                if let Some(s) = items[i].as_str() {
                    out.push(s.to_owned());
                    proof {
                        assert(views(out@) =~= views(before).push(s@));
                    }
                }
                i += 1;
            }
        },
        _ => {},
    }
    out
}

/// The text under `key` of what a schema says of an argument.
pub open spec fn property_text(schema: Json, name: Seq<char>, key: Seq<char>) -> Option<Seq<char>> {
    match schema.spec_get("properties"@) {
        Some(properties) => match properties.spec_get(name) {
            Some(property) => property.text_at(key),
            None => None,
        },
        None => None,
    }
}

fn find_property_text(schema: &Json, name: &str, key: &str) -> (r: Option<String>)
    ensures
        match r {
            Some(s) => property_text(*schema, name@, key@) == Some(s@),
            None => property_text(*schema, name@, key@) is None,
        },
{
    match schema.get("properties") {
        Some(properties) => match properties.get(name) {
            Some(property) => property.str_at(key),
            None => None,
        },
        None => None,
    }
}

/// One required argument: its name, its type and the first line about it.
pub open spec fn field_text(schema: Json, name: Seq<char>) -> Seq<char> {
    let kind = match property_text(schema, name, "type"@) {
        Some(s) => s,
        None => "any"@,
    };
    let about = match property_text(schema, name, "description"@) {
        Some(s) => s,
        None => ""@,
    };
    if about.len() == 0 {
        "`"@ + name + "`: "@ + kind
    } else {
        "`"@ + name + "`: "@ + kind + " — "@ + first_line(about)
    }
}

fn render_field(schema: &Json, name: &str) -> (r: String)
    ensures
        r@ == field_text(*schema, name@),
{
    let kind = match find_property_text(schema, name, "type") {
        Some(s) => s,
        None => "any".to_owned(),
    };
    let about = match find_property_text(schema, name, "description") {
        Some(s) => s,
        None => "".to_owned(),
    };
    let mut out: String = "`".to_owned();
    out.append(name);
    out.append("`: ");
    out.append(kind.as_str());
    if !about.as_str().is_empty() {
        out.append(" — ");
        out.append(line_one(about.as_str()).as_str());
    }
    out
}

/// The required arguments of a schema, each described.
pub open spec fn field_texts(schema: Json, names: Seq<Seq<char>>) -> Seq<Seq<char>> {
    names.map_values(|name: Seq<char>| field_text(schema, name))
}

/// What the prompt says of one tool.
pub open spec fn tool_entry(t: ToolInfo) -> Seq<char> {
    let required = required_of(t.schema);
    "**"@ + t.name@ + "** — "@ + first_line(t.description@) + "\n"@ + (if required.len() == 0 {
        "  (no required fields)\n"@
    } else {
        "  Required: "@ + joined(field_texts(t.schema, required), ", "@) + "\n"@
    }) + "  Example: `[[MEMORY_OP:"@ + t.name@ + ":{...}]]`\n\n"@
}

fn render_tool(t: &ToolInfo) -> (r: String)
    ensures
        r@ == tool_entry(*t),
{
    let required = required_names(&t.schema);
    let mut out: String = "**".to_owned();
    out.append(t.name.as_str());
    out.append("** — ");
    out.append(line_one(t.description.as_str()).as_str());
    out.append("\n");
    let mut middle = String::new();
    let n: usize = required.len();
    if n == 0 {
        middle.append("  (no required fields)\n");
        proof {
            assert(middle@ =~= "  (no required fields)\n"@);
        }
    } else {
        let mut fields: Vec<String> = Vec::new();
        let ghost names = views(required@);
        let mut i: usize = 0;
        while i < n
            invariant
                n == required@.len(),
                i <= n,
                names == views(required@),
                views(fields@) == field_texts(t.schema, names).take(i as int),
            decreases n - i,
        {
            let ghost before = fields@;
            proof {
                assert(names[i as int] == required@[i as int]@);
            }
            let f = render_field(&t.schema, required[i].as_str());
            let ghost text = f@;
            fields.push(f);
            proof {
                assert(views(fields@) =~= views(before).push(text));
                assert(field_texts(t.schema, names).take(i + 1) =~= field_texts(
                    t.schema,
                    names,
                ).take(i as int).push(text));
            }
            i += 1;
        }
        proof {
            assert(field_texts(t.schema, names).take(n as int) =~= field_texts(t.schema, names));
        }
        middle.append("  Required: ");
        middle.append(join(&fields, ", ").as_str());
        middle.append("\n");
        proof {
            assert(middle@ =~= "  Required: "@ + joined(field_texts(t.schema, names), ", "@)
                + "\n"@);
        }
    }
    out.append(middle.as_str());
    out.append("  Example: `[[MEMORY_OP:");
    out.append(t.name.as_str());
    out.append(":{...}]]`\n\n");
    out
}

/// How memory is recalled and how tools are called, up to the tools' names.
pub const TOOLS_HEAD: &'static str =
    "\n\n### Memory recall workflow (token-efficient)\nFor targeted recall, use the 3-layer pattern instead of get_context:\n1. `peek_context` — scan compact one-liners (id + summary), ~10x cheaper\n2. `get_timeline` — get events around a relevant memory\n3. `get_observation` — fetch full detail for a specific id\n\n## How to call tools\n\nYou MUST call tools by emitting this exact marker format in your response:\n\n```\n[[MEMORY_OP:<tool_name>:{<json args>}]]\n```\n\nThe marker must appear on its own line. The JSON args must match the tool's required fields EXACTLY.\nFailure to emit a valid marker means your work is NOT saved.\n\nYou may ONLY use these tool names (exact match, no synonyms, no prefixes): ";

/// What stands between the tools' names and their descriptions.
pub const TOOLS_MIDDLE: &'static str =
    ".\nIf you write any other name (e.g. `add_memory`, `note`, `Write`, `Edit`) the call is silently dropped — your work is lost.\n\n### Tools you can call (REQUIRED fields shown)\n\n";

/// What the prompt says of the first `n` tools.
pub open spec fn tool_entries(tools: Seq<ToolInfo>, n: nat) -> Seq<char>
    decreases n,
{
    if n == 0 {
        Seq::empty()
    } else {
        tool_entries(tools, (n - 1) as nat) + tool_entry(tools[n - 1])
    }
}

/// The names of a list of tools.
pub open spec fn names_of(tools: Seq<ToolInfo>) -> Seq<Seq<char>> {
    tools.map_values(|t: ToolInfo| t.name@)
}

/// Whether an agent works through memory tools; two agents do not.
pub open spec fn uses_tools(agent: Seq<char>) -> bool {
    agent != "supervisor"@ && agent != "ranking"@
}

/// The block that describes an agent's tools; empty without tools.
pub open spec fn tools_block(agent: Seq<char>, tools: Seq<ToolInfo>) -> Seq<char> {
    if !uses_tools(agent) || tools.len() == 0 {
        Seq::empty()
    } else {
        TOOLS_HEAD@ + joined(names_of(tools), ", "@) + TOOLS_MIDDLE@ + tool_entries(
            tools,
            tools.len(),
        )
    }
}

fn name_list(tools: &Vec<&ToolInfo>) -> (r: Vec<String>)
    ensures
        views(r@) == names_of(tools_at(tools@)),
{
    let ghost all = names_of(tools_at(tools@));
    let n: usize = tools.len();
    let mut out: Vec<String> = Vec::new();
    let mut i: usize = 0;
    while i < n
        invariant
            n == tools@.len(),
            i <= n,
            all == names_of(tools_at(tools@)),
            views(out@) == all.take(i as int),
        decreases n - i,
    {
        let ghost before = out@;
        let name = tools[i].name.as_str().to_owned();
        let ghost text = name@;
        out.push(name);
        proof {
            assert(views(out@) =~= views(before).push(text));
            assert(all.take(i + 1) =~= all.take(i as int).push(text));
        }
        i += 1;
    }
    proof {
        assert(all.take(n as int) =~= all);
    }
    out
}

fn render_tools(agent: &str, tools: &Vec<&ToolInfo>) -> (r: String)
    ensures
        r@ == tools_block(agent@, tools_at(tools@)),
{
    let mut out = String::new();
    proof {
        assert(out@ =~= Seq::<char>::empty());
    }
    let n: usize = tools.len();
    if str_eq(agent, "supervisor") || str_eq(agent, "ranking") || n == 0 {
        return out;
    }
    let ghost all = tools_at(tools@);
    let names = name_list(tools);
    out.append(TOOLS_HEAD);
    out.append(join(&names, ", ").as_str());
    out.append(TOOLS_MIDDLE);
    let ghost head = TOOLS_HEAD@ + joined(names_of(all), ", "@) + TOOLS_MIDDLE@;
    proof {
        assert(out@ =~= head);
        assert(head + tool_entries(all, 0) =~= head);
    }
    let mut i: usize = 0;
    while i < n
        invariant
            n == tools@.len(),
            i <= n,
            all == tools_at(tools@),
            out@ == head + tool_entries(all, i as nat),
        decreases n - i,
    {
        proof {
            assert(all[i as int] == *tools@[i as int]);
        }
        let entry = render_tool(tools[i]);
        out.append(entry.as_str());
        proof {
            assert(out@ =~= head + tool_entries(all, (i + 1) as nat));
        }
        i += 1;
    }
    out
}

// -------------------------------------------------------------------- skills

/// The last skill with the name `name` among the first `n`.
pub open spec fn skill_named(skills: Seq<SkillCard>, name: Seq<char>, n: nat) -> Option<int>
    decreases n,
{
    if n == 0 {
        None
    } else if skills[n - 1].name@ == name {
        Some(n - 1)
    } else {
        skill_named(skills, name, (n - 1) as nat)
    }
}

/// The line that introduces a skill of an agent.
pub open spec fn skill_entry(shelf: SkillShelf, name: Seq<char>) -> Seq<char> {
    match skill_named(shelf.skills@, name, shelf.skills@.len()) {
        Some(i) => {
            let about = trimmed(first_line(shelf.skills@[i].description@));
            if about.len() == 0 {
                "- `"@ + shelf.skills@[i].name@ + "`\n"@
            } else {
                "- `"@ + shelf.skills@[i].name@ + "` — "@ + about + "\n"@
            }
        },
        None => "- `"@ + name + "` (not found at "@ + shelf.path@ + ")\n"@,
    }
}

/// The lines that introduce the first `n` skills.
pub open spec fn skill_entries(shelf: SkillShelf, names: Seq<Seq<char>>, n: nat) -> Seq<char>
    decreases n,
{
    if n == 0 {
        Seq::empty()
    } else {
        skill_entries(shelf, names, (n - 1) as nat) + skill_entry(shelf, names[n - 1])
    }
}

/// Whether a skill of the agent was found.
pub open spec fn any_found(shelf: SkillShelf, names: Seq<Seq<char>>) -> bool {
    exists|i: int|
        0 <= i < names.len() && skill_named(
            shelf.skills@,
            #[trigger] names[i],
            shelf.skills@.len(),
        ) is Some
}

/// What stands in front of the skills.
pub const SKILLS_HEAD: &'static str =
    "\n\n## Your callable skills\nCall any of these by name when relevant. Each is a real tool in your registry.\n";

/// The block that introduces an agent's skills; empty where none was found.
pub open spec fn skills_block(agent: AgentView, shelf: Option<SkillShelf>) -> Seq<char> {
    match shelf {
        None => Seq::empty(),
        Some(s) => if any_found(s, agent.skills) {
            SKILLS_HEAD@ + skill_entries(s, agent.skills, agent.skills.len())
        } else {
            Seq::empty()
        },
    }
}

fn find_skill(skills: &Vec<SkillCard>, name: &str) -> (r: Option<usize>)
    ensures
        match r {
            Some(i) => i < skills@.len() && skill_named(skills@, name@, skills@.len()) == Some(
                i as int,
            ),
            None => skill_named(skills@, name@, skills@.len()) is None,
        },
{
    let n: usize = skills.len();
    let mut k: usize = n;
    while k > 0
        invariant
            n == skills@.len(),
            k <= n,
            skill_named(skills@, name@, n as nat) == skill_named(skills@, name@, k as nat),
        decreases k,
    {
        if str_eq(skills[k - 1].name.as_str(), name) {
            return Some(k - 1);
        }
        k -= 1;
    }
    None
}

/// The block that introduces an agent's skills, one line each; empty where none
/// of them was found.
pub fn render_agent_skills(agent: &Agent, shelf: &Option<SkillShelf>) -> (r: String)
    ensures
        r@ == skills_block(agent@, *shelf),
{
    let empty = String::new();
    proof {
        assert(empty@ =~= Seq::<char>::empty());
    }
    let s = match shelf {
        Some(s) => s,
        None => {
            return empty;
        },
    };
    let ghost names = agent@.skills;
    let ghost head = SKILLS_HEAD@;
    let mut out: String = SKILLS_HEAD.to_owned();
    let mut rendered_any = false;
    let n: usize = agent.skills.len();
    let mut i: usize = 0;
    proof {
        assert(head + skill_entries(*s, names, 0) =~= head);
    }
    while i < n
        invariant
            n == agent.skills@.len(),
            i <= n,
            names == agent@.skills,
            head == SKILLS_HEAD@,
            out@ == head + skill_entries(*s, names, i as nat),
            rendered_any == exists|j: int|
                0 <= j < i && skill_named(s.skills@, #[trigger] names[j], s.skills@.len()) is Some,
        decreases n - i,
    {
        let name = agent.skills[i];
        let ghost before = out@;
        let ghost was = rendered_any;
        proof {
            assert(names[i as int] == name@);
        }
        match find_skill(&s.skills, name) {
            Some(k) => {
                let about = trim(line_one(s.skills[k].description.as_str()).as_str());
                out.append("- `");
                out.append(s.skills[k].name.as_str());
                if about.as_str().is_empty() {
                    out.append("`\n");
                } else {
                    out.append("` — ");
                    out.append(about.as_str());
                    out.append("\n");
                }
                rendered_any = true;
                proof {
                    assert(out@ =~= before + skill_entry(*s, name@));
                    assert(skill_named(s.skills@, names[i as int], s.skills@.len()) is Some);
                }
            },
            None => {
                out.append("- `");
                out.append(name);
                out.append("` (not found at ");
                out.append(s.path.as_str());
                out.append(")\n");
                proof {
                    assert(out@ =~= before + skill_entry(*s, name@));
                    if was {
                        let j = choose|j: int|
                            0 <= j < i && skill_named(
                                s.skills@,
                                #[trigger] names[j],
                                s.skills@.len(),
                            ) is Some;
                        assert(0 <= j < i + 1);
                    }
                }
            },
        }
        proof {
            assert(out@ =~= head + skill_entries(*s, names, (i + 1) as nat));
        }
        i += 1;
    }
    if rendered_any {
        out
    } else {
        empty
    }
}

// ---------------------------------------------------------- identity, errors

/// The file names of a list of modes.
pub open spec fn mode_names(modes: Seq<AgentMode>) -> Seq<Seq<char>> {
    modes.map_values(|m: AgentMode| m.spec_filename())
}

fn mode_list(modes: &Vec<AgentMode>) -> (r: String)
    ensures
        r@ == joined(mode_names(modes@), ", "@),
{
    let ghost all = mode_names(modes@);
    let n: usize = modes.len();
    let mut names: Vec<String> = Vec::new();
    let mut i: usize = 0;
    while i < n
        invariant
            n == modes@.len(),
            i <= n,
            all == mode_names(modes@),
            views(names@) == all.take(i as int),
        decreases n - i,
    {
        let ghost before = names@;
        let name = modes[i].filename().to_owned();
        let ghost text = name@;
        names.push(name);
        proof {
            assert(views(names@) =~= views(before).push(text));
            assert(all.take(i + 1) =~= all.take(i as int).push(text));
        }
        i += 1;
    }
    proof {
        assert(all.take(n as int) =~= all);
    }
    join(&names, ", ")
}

/// What an agent is told about itself.
pub open spec fn role_block(agent: AgentView) -> Seq<char> {
    "You are the `"@ + agent.name + "` agent.\n\nRole: "@ + agent.role + "\n\nModes owned: "@
        + joined(mode_names(agent.modes), ", "@) + "\n"@
}

fn render_role(agent: &Agent) -> (r: String)
    ensures
        r@ == role_block(agent@),
{
    let mut out: String = "You are the `".to_owned();
    out.append(agent.name);
    out.append("` agent.\n\nRole: ");
    out.append(agent.role);
    out.append("\n\nModes owned: ");
    out.append(mode_list(&agent.modes).as_str());
    out.append("\n");
    out
}

/// How an agent is described in the list of agents.
pub open spec fn summary_text(agent: AgentView) -> Seq<char> {
    "Agent: "@ + agent.name + "\nRole: "@ + agent.role + "\nModes: "@ + joined(
        mode_names(agent.modes),
        ", "@,
    )
}

/// How an agent is described in the list of agents.
pub fn agent_summary(agent: &Agent) -> (r: String)
    ensures
        r@ == summary_text(agent@),
{
    let mut out: String = "Agent: ".to_owned();
    out.append(agent.name);
    out.append("\nRole: ");
    out.append(agent.role);
    out.append("\nModes: ");
    out.append(mode_list(&agent.modes).as_str());
    out
}

/// The personality of an agent, on the first turn.
pub open spec fn personality_block(agent: AgentView, phase: TurnPhase) -> Seq<char> {
    if phase == TurnPhase::FirstTurn && agent.personality.len() > 0 {
        "\nPersonality: "@ + agent.personality + "\n"@
    } else {
        Seq::empty()
    }
}

/// The lines of the first `n` failed calls.
pub open spec fn error_lines(errors: Seq<(String, String)>, n: nat) -> Seq<char>
    decreases n,
{
    if n == 0 {
        Seq::empty()
    } else {
        error_lines(errors, (n - 1) as nat) + ("- `"@ + errors[n - 1].0@ + "`: "@ + errors[n - 1].1@
            + "\n"@)
    }
}

/// What stands in front of the failed calls.
pub const ERRORS_HEAD: &'static str =
    "\n\n## Previous turn marker errors\nYour recent tool calls had errors. Review and fix your marker format:\n";

/// What stands behind the failed calls.
pub const ERRORS_TAIL: &'static str =
    "\nMake sure your marker is on its own line and JSON args match the required fields.\n";

/// The block of failed calls; empty without any.
pub open spec fn errors_block(errors: Seq<(String, String)>) -> Seq<char> {
    if errors.len() == 0 {
        Seq::empty()
    } else {
        ERRORS_HEAD@ + error_lines(errors, errors.len()) + ERRORS_TAIL@
    }
}

fn render_errors(errors: &Vec<(String, String)>) -> (r: String)
    ensures
        r@ == errors_block(errors@),
{
    let n: usize = errors.len();
    let mut out = String::new();
    proof {
        assert(out@ =~= Seq::<char>::empty());
    }
    if n == 0 {
        return out;
    }
    out.append(ERRORS_HEAD);
    let ghost head = ERRORS_HEAD@;
    proof {
        assert(out@ =~= head + error_lines(errors@, 0));
    }
    let mut i: usize = 0;
    while i < n
        invariant
            n == errors@.len(),
            i <= n,
            out@ == head + error_lines(errors@, i as nat),
        decreases n - i,
    {
        out.append("- `");
        out.append(errors[i].0.as_str());
        out.append("`: ");
        out.append(errors[i].1.as_str());
        out.append("\n");
        proof {
            assert(out@ =~= head + error_lines(errors@, (i + 1) as nat));
        }
        i += 1;
    }
    out.append(ERRORS_TAIL);
    out
}

// -------------------------------------------------------------------- prompt

/// What the system prompt of an agent is made from.
#[derive(Debug)]
pub struct PromptSources {
    /// The registered tools.
    pub registry: Vec<ToolInfo>,
    /// The guide to the memory operations.
    pub guide: String,
    /// The agent's notes about itself.
    pub prior: Vec<BehaviorMemory>,
    /// What is told of earlier sessions.
    pub prior_session: String,
    /// The skills that were found, where a directory of skills is set.
    pub shelf: Option<SkillShelf>,
    /// The operations of the last failed calls, each with its error.
    pub marker_errors: Vec<(String, String)>,
}

/// The guide to the memory operations, for agents that work through them.
pub open spec fn guide_block(agent: Seq<char>, guide: Seq<char>) -> Seq<char> {
    if uses_tools(agent) {
        "\n\n"@ + guide
    } else {
        Seq::empty()
    }
}

/// The skills of an agent, on the first turn.
pub open spec fn first_skills(
    agent: AgentView,
    phase: TurnPhase,
    shelf: Option<SkillShelf>,
) -> Seq<char> {
    if phase == TurnPhase::FirstTurn {
        skills_block(agent, shelf)
    } else {
        Seq::empty()
    }
}

/// The system prompt of an agent.
pub open spec fn system_prompt(agent: AgentView, phase: TurnPhase, s: PromptSources) -> Seq<char> {
    role_block(agent) + personality_block(agent, phase) + first_skills(agent, phase, s.shelf)
        + guide_block(agent.name, s.guide@) + prior_block(s.prior@) + session_block(
        s.prior_session@,
    ) + tools_block(agent.name, visible(s.registry@, agent)) + errors_block(s.marker_errors@)
}

/// The system prompt of an agent: who it is, on the first turn its personality
/// and skills, the guide to the memory operations, what it noted before, its
/// tools, and its last failed calls.
pub fn build_system_prompt(agent: &Agent, phase: TurnPhase, s: &PromptSources) -> (r: String)
    ensures
        r@ == system_prompt(agent@, phase, *s),
{
    let tools = visible_tools(&s.registry, agent);
    let mut out = render_role(agent);
    let mut personality = String::new();
    let mut skills = String::new();
    let mut guide = String::new();
    proof {
        assert(personality@ =~= Seq::<char>::empty());
        assert(skills@ =~= Seq::<char>::empty());
        assert(guide@ =~= Seq::<char>::empty());
    }
    if phase == TurnPhase::FirstTurn {
        if !agent.personality.is_empty() {
            personality.append("\nPersonality: ");
            personality.append(agent.personality);
            personality.append("\n");
            proof {
                assert(personality@ =~= personality_block(agent@, phase));
            }
        }
        skills = render_agent_skills(agent, &s.shelf);
    }
    if !str_eq(agent.name, "supervisor") && !str_eq(agent.name, "ranking") {
        guide.append("\n\n");
        guide.append(s.guide.as_str());
        proof {
            assert(guide@ =~= guide_block(agent@.name, s.guide@));
        }
    }
    out.append(personality.as_str());
    out.append(skills.as_str());
    out.append(guide.as_str());
    out.append(format_prior_block(s.prior.as_slice()).as_str());
    out.append(render_session(s.prior_session.as_str()).as_str());
    out.append(render_tools(agent.name, &tools).as_str());
    out.append(render_errors(&s.marker_errors).as_str());
    out
}

// ---------------------------------------------------------------------- laws

/// After the first turn the prompt does not depend on personality or skills
/// found on disk.
pub proof fn law_later_prompts_drop_preamble(a: AgentView, b: AgentView, s: PromptSources, t: PromptSources)
    requires
        b == (AgentView { personality: b.personality, ..a }),
        t == (PromptSources { shelf: t.shelf, ..s }),
    ensures
        system_prompt(a, TurnPhase::Subsequent, s) == system_prompt(b, TurnPhase::Subsequent, t),
{
}

/// An agent without memory tools is told nothing of tools, whatever is
/// registered and whatever the guide says.
pub proof fn law_toolless_agents_see_no_tools(
    agent: AgentView,
    phase: TurnPhase,
    s: PromptSources,
    t: PromptSources,
)
    requires
        agent.name == "supervisor"@ || agent.name == "ranking"@,
        t == (PromptSources { registry: t.registry, guide: t.guide, ..s }),
    ensures
        system_prompt(agent, phase, s) == system_prompt(agent, phase, t),
{
}

/// Whether a text stands on one line.
pub open spec fn one_line(w: Seq<char>) -> bool {
    forall|i: int| 0 <= i < w.len() ==> w[i] != '\n'
}

/// A text on one line that neither of two pieces holds is not made by putting them
/// together, where a line ends between them.
proof fn lemma_absent(a: Seq<char>, b: Seq<char>, w: Seq<char>)
    requires
        w.len() > 0,
        one_line(w),
        !occurs(a, w),
        !occurs(b, w),
        a.len() == 0 || b.len() == 0 || a.last() == '\n' || b[0] == '\n',
    ensures
        !occurs(a + b, w),
{
    let n = w.len() as int;
    assert forall|i: int| !matches_at(a + b, w, i) by {
        if matches_at(a + b, w, i) {
            if i + n <= a.len() {
                assert(a.subrange(i, i + n) =~= (a + b).subrange(i, i + n));
                assert(matches_at(a, w, i));
            } else if i >= a.len() {
                assert(b.subrange(i - a.len(), i - a.len() + n) =~= (a + b).subrange(i, i + n));
                assert(matches_at(b, w, i - a.len()));
            } else {
                let k = a.len() - i;
                assert((a + b).subrange(i, i + n)[k - 1] == a.last());
                assert((a + b).subrange(i, i + n)[k] == b[0]);
                assert(w[k - 1] == a.last() && w[k] == b[0]);
            }
            assert(false);
        }
    }
}

proof fn lemma_absent_short(a: Seq<char>, w: Seq<char>)
    requires
        a.len() < w.len(),
    ensures
        !occurs(a, w),
{
}

/// Whether the parts of a prompt that come from elsewhere are free of `w`: the
/// guide, the notes, what is told of earlier sessions, the tools and the failed
/// calls.
pub open spec fn sources_free_of(agent: AgentView, s: PromptSources, w: Seq<char>) -> bool {
    &&& !occurs(s.guide@, w)
    &&& !occurs(prior_block(s.prior@), w)
    &&& !occurs(session_block(s.prior_session@), w)
    &&& !occurs(tools_block(agent.name, visible(s.registry@, agent)), w)
    &&& !occurs(errors_block(s.marker_errors@), w)
}

/// Every block behind the first begins a line of its own, so a text on one line
/// that no block holds is not in the prompt.
proof fn lemma_prompt_free_of(agent: AgentView, phase: TurnPhase, s: PromptSources, w: Seq<char>)
    requires
        w.len() > 0,
        one_line(w),
        !occurs(role_block(agent), w),
        !occurs(personality_block(agent, phase), w),
        !occurs(first_skills(agent, phase, s.shelf), w),
        sources_free_of(agent, s, w),
    ensures
        !occurs(system_prompt(agent, phase, s), w),
{
    let personality = personality_block(agent, phase);
    let skills = first_skills(agent, phase, s.shelf);
    let guide = guide_block(agent.name, s.guide@);
    let notes = prior_block(s.prior@);
    let session = session_block(s.prior_session@);
    let tools = tools_block(agent.name, visible(s.registry@, agent));
    let errors = errors_block(s.marker_errors@);
    lemma_blocks_begin_lines(agent, phase, s);
    assert(!occurs(guide, w)) by {
        reveal_strlit("\n\n");
        let gap = "\n\n"@;
        assert forall|i: int| !matches_at(gap, w, i) by {
            if matches_at(gap, w, i) {
                assert(gap.subrange(i, i + w.len())[0] == '\n');
                assert(w[0] == '\n');
            }
        }
        lemma_absent(gap, s.guide@, w);
        lemma_absent_short(Seq::empty(), w);
    }
    let p0 = role_block(agent);
    let p1 = p0 + personality;
    let p2 = p1 + skills;
    let p3 = p2 + guide;
    let p4 = p3 + notes;
    let p5 = p4 + session;
    let p6 = p5 + tools;
    lemma_absent(p0, personality, w);
    lemma_absent(p1, skills, w);
    lemma_absent(p2, guide, w);
    lemma_absent(p3, notes, w);
    lemma_absent(p4, session, w);
    lemma_absent(p5, tools, w);
    lemma_absent(p6, errors, w);
}

spec fn begins_line(block: Seq<char>) -> bool {
    block.len() == 0 || block[0] == '\n'
}

proof fn lemma_blocks_begin_lines(agent: AgentView, phase: TurnPhase, s: PromptSources)
    ensures
        begins_line(personality_block(agent, phase)),
        begins_line(first_skills(agent, phase, s.shelf)),
        begins_line(guide_block(agent.name, s.guide@)),
        begins_line(prior_block(s.prior@)),
        begins_line(session_block(s.prior_session@)),
        begins_line(tools_block(agent.name, visible(s.registry@, agent))),
        begins_line(errors_block(s.marker_errors@)),
{
    reveal_strlit("\nPersonality: ");
    reveal_strlit("\n\n");
    reveal_strlit("\n\n## Your prior self-critique\n");
    lemma_heads();
}

proof fn lemma_heads()
    ensures
        SKILLS_HEAD@.len() > 0 && SKILLS_HEAD@[0] == '\n',
        TOOLS_HEAD@.len() > 0 && TOOLS_HEAD@[0] == '\n',
        ERRORS_HEAD@.len() > 0 && ERRORS_HEAD@[0] == '\n',
{
    reveal_strlit(
        "\n\n## Your callable skills\nCall any of these by name when relevant. Each is a real tool in your registry.\n",
    );
    reveal_strlit(
        "\n\n### Memory recall workflow (token-efficient)\nFor targeted recall, use the 3-layer pattern instead of get_context:\n1. `peek_context` — scan compact one-liners (id + summary), ~10x cheaper\n2. `get_timeline` — get events around a relevant memory\n3. `get_observation` — fetch full detail for a specific id\n\n## How to call tools\n\nYou MUST call tools by emitting this exact marker format in your response:\n\n```\n[[MEMORY_OP:<tool_name>:{<json args>}]]\n```\n\nThe marker must appear on its own line. The JSON args must match the tool's required fields EXACTLY.\nFailure to emit a valid marker means your work is NOT saved.\n\nYou may ONLY use these tool names (exact match, no synonyms, no prefixes): ",
    );
    reveal_strlit(
        "\n\n## Previous turn marker errors\nYour recent tool calls had errors. Review and fix your marker format:\n",
    );
}

/// The personality of an agent, and any line `w` out of it, is in the prompt of the
/// first turn and in none that follows. Both say first which agent it is. Nothing
/// else that goes into the prompt holds `w`.
pub proof fn law_personality_is_shown_once(agent: AgentView, s: PromptSources, w: Seq<char>)
    requires
        w.len() > 0,
        one_line(w),
        occurs(agent.personality, w),
        !occurs(role_block(agent), w),
        sources_free_of(agent, s, w),
    ensures
        occurs(system_prompt(agent, TurnPhase::FirstTurn, s), w),
        !occurs(system_prompt(agent, TurnPhase::Subsequent, s), w),
        begins(system_prompt(agent, TurnPhase::FirstTurn, s), role_block(agent)),
        begins(system_prompt(agent, TurnPhase::Subsequent, s), role_block(agent)),
{
    lemma_absent_short(Seq::empty(), w);
    lemma_prompt_free_of(agent, TurnPhase::Subsequent, s, w);
    lemma_begins_with_role(agent, TurnPhase::FirstTurn, s);
    lemma_begins_with_role(agent, TurnPhase::Subsequent, s);
    let (before, behind) = lemma_holds_personality(agent, s);
    lemma_present(before, agent.personality, behind, w);
}

/// What stands before and behind the personality in the prompt of the first turn.
proof fn lemma_holds_personality(agent: AgentView, s: PromptSources) -> (r: (Seq<char>, Seq<char>))
    requires
        agent.personality.len() > 0,
    ensures
        system_prompt(agent, TurnPhase::FirstTurn, s) == r.0 + agent.personality + r.1,
{
    let first = TurnPhase::FirstTurn;
    let before = role_block(agent) + "\nPersonality: "@;
    let behind = "\n"@ + first_skills(agent, first, s.shelf) + guide_block(agent.name, s.guide@)
        + prior_block(s.prior@) + session_block(s.prior_session@) + tools_block(
        agent.name,
        visible(s.registry@, agent),
    ) + errors_block(s.marker_errors@);
    assert(system_prompt(agent, first, s) =~= before + agent.personality + behind);
    (before, behind)
}

proof fn lemma_present(a: Seq<char>, p: Seq<char>, b: Seq<char>, w: Seq<char>)
    requires
        occurs(p, w),
    ensures
        occurs(a + p + b, w),
{
    let at = choose|i: int| matches_at(p, w, i);
    let k = a.len() + at;
    assert((a + p + b).subrange(k, k + w.len()) =~= p.subrange(at, at + w.len()));
    assert(matches_at(a + p + b, w, k));
}

/// No agent's personality is repeated where its role and modes are told, so of the
/// agents that there are each has its personality shown once, as long as the
/// guide, the notes and the texts of the tools do not hold it.
pub proof fn law_listed_personalities_are_shown_once(i: int, s: PromptSources)
    requires
        0 <= i < all_agents().len(),
        all_agents()[i].personality.len() > 0,
        sources_free_of(all_agents()[i], s, all_agents()[i].personality),
    ensures
        occurs(
            system_prompt(all_agents()[i], TurnPhase::FirstTurn, s),
            all_agents()[i].personality,
        ),
        !occurs(
            system_prompt(all_agents()[i], TurnPhase::Subsequent, s),
            all_agents()[i].personality,
        ),
{
    let agent = all_agents()[i];
    let w = agent.personality;
    reveal_strlit("");
    assert(i == 0 || i == 1 || i == 2 || i == 3);
    lemma_listed_personality(i);
    lemma_role_free_of(agent, w);
    assert(w.subrange(0, w.len() as int) =~= w);
    assert(matches_at(w, w, 0));
    law_personality_is_shown_once(agent, s, w);
}

/// The parts of the role block that stand on lines of their own are each shorter
/// than `w`.
proof fn lemma_role_free_of(agent: AgentView, w: Seq<char>)
    requires
        w.len() > 40,
        one_line(w),
        agent.name.len() < 20,
        agent.role.len() + 6 < w.len(),
        joined(mode_names(agent.modes), ", "@).len() + 14 < w.len(),
    ensures
        !occurs(role_block(agent), w),
{
    let modes = joined(mode_names(agent.modes), ", "@);
    reveal_strlit("You are the `");
    reveal_strlit("` agent.\n\nRole: ");
    reveal_strlit("\n\nModes owned: ");
    reveal_strlit("\n");
    let middle = "` agent.\n\nRole: "@;
    let gap = "\n\nModes owned: "@;
    let line1 = "You are the `"@ + agent.name + middle.subrange(0, 8);
    let line2 = seq!['\n', '\n'];
    let line3 = middle.subrange(10, 16) + agent.role;
    let line4 = gap.subrange(0, 2);
    let line5 = gap.subrange(2, 15) + modes + "\n"@;
    lemma_absent_short(line1, w);
    lemma_absent_short(line2, w);
    lemma_absent_short(line3, w);
    lemma_absent_short(line4, w);
    lemma_absent_short(line5, w);
    lemma_absent(line1, line2, w);
    lemma_absent(line1 + line2, line3, w);
    lemma_absent(line1 + line2 + line3, line4, w);
    lemma_absent(line1 + line2 + line3 + line4, line5, w);
    assert(role_block(agent) =~= line1 + line2 + line3 + line4 + line5);
}

/// Whether no line ends between `lo` and `hi`.
spec fn unbroken(s: Seq<char>, lo: int, hi: int) -> bool
    decreases hi - lo,
{
    if lo >= hi {
        true
    } else if lo + 1 == hi {
        s[lo] != '\n'
    } else {
        unbroken(s, lo, (lo + hi) / 2) && unbroken(s, (lo + hi) / 2, hi)
    }
}

proof fn lemma_unbroken(s: Seq<char>, lo: int, hi: int)
    requires
        unbroken(s, lo, hi),
    ensures
        forall|i: int| lo <= i < hi ==> s[i] != '\n',
    decreases hi - lo,
{
    if lo + 1 < hi {
        lemma_unbroken(s, lo, (lo + hi) / 2);
        lemma_unbroken(s, (lo + hi) / 2, hi);
    }
}

/// What the personalities of the agents need to stand apart from their roles.
proof fn lemma_listed_personality(i: int)
    requires
        0 <= i < 4,
    ensures
        one_line(all_agents()[i].personality),
        all_agents()[i].personality.len() > 40,
        all_agents()[i].name.len() < 20,
        all_agents()[i].role.len() + 6 < all_agents()[i].personality.len(),
        joined(mode_names(all_agents()[i].modes), ", "@).len() + 14
            < all_agents()[i].personality.len(),
{
    let agent = all_agents()[i];
    reveal_with_fuel(joined, 4);
    reveal_strlit(", ");
    if i == 0 {
        lemma_supervisor_texts();
        reveal_strlit("supervisor");
    } else if i == 1 {
        lemma_generation_texts();
        reveal_strlit("generation");
    } else if i == 2 {
        lemma_reflection_texts();
        reveal_strlit("reflection");
    } else {
        lemma_ranking_texts();
        reveal_strlit("ranking");
    }
    lemma_modes_short(agent.modes);
    lemma_unbroken(agent.personality, 0, agent.personality.len() as int);
}

proof fn lemma_filename_short(mode: AgentMode)
    ensures
        mode.spec_filename().len() <= 28,
{
    reveal_strlit("parse_goal");
    reveal_strlit("generation_literature");
    reveal_strlit("generation_debate");
    reveal_strlit("reflection_review");
    reveal_strlit("reflection_observation");
    reveal_strlit("reflection_verification");
    reveal_strlit("reflection_on_result");
    reveal_strlit("ranking_pairwise");
    reveal_strlit("ranking_debate");
    reveal_strlit("evolution_combine");
    reveal_strlit("evolution_simplify");
    reveal_strlit("evolution_feasibility");
    reveal_strlit("evolution_out_of_box");
    reveal_strlit("metareview_system");
    reveal_strlit("metareview_final");
    reveal_strlit("experiment_design");
    reveal_strlit("experiment_execute");
    reveal_strlit("experiment_evaluate");
}

/// The names of at most three modes take at most ninety-six characters.
proof fn lemma_modes_short(modes: Seq<AgentMode>)
    requires
        modes.len() <= 3,
    ensures
        joined(mode_names(modes), ", "@).len() <= 30 * modes.len() + 6,
    decreases modes.len(),
{
    reveal_strlit(", ");
    if modes.len() == 1 {
        lemma_filename_short(modes[0]);
    } else if modes.len() > 1 {
        lemma_modes_short(modes.drop_last());
        lemma_filename_short(modes.last());
        assert(mode_names(modes).drop_last() =~= mode_names(modes.drop_last()));
    }
}

proof fn lemma_supervisor_texts()
    ensures
        unbroken(SUPERVISOR_PERSONALITY@, 0, SUPERVISOR_PERSONALITY@.len() as int),
        SUPERVISOR_PERSONALITY@.len() > 120,
        SUPERVISOR_ROLE@.len() + 6 < SUPERVISOR_PERSONALITY@.len(),
{
    reveal_strlit(
        "Smart router, not a leader. Dispatch tasks; do not plan or evaluate downstream output. Pass through the agent's own 'good enough' signals — only block on a task that genuinely fails to complete.",
    );
    reveal_strlit(
        "Parses the goal into a research plan and dispatches generation / reflection / ranking / evolution / metareview tasks through the durable queue.",
    );
    reveal_with_fuel(unbroken, 11);
}

proof fn lemma_generation_texts()
    ensures
        unbroken(GENERATION_PERSONALITY@, 0, GENERATION_PERSONALITY@.len() as int),
        GENERATION_PERSONALITY@.len() > 120,
        GENERATION_ROLE@.len() + 6 < GENERATION_PERSONALITY@.len(),
{
    reveal_strlit(
        "Cross-domain hunter. Recast one concept from an unrelated field per hypothesis — the analogy IS the mechanism, not decoration. Name the entities, the transfer rule, and the predicted outcome. Iterate one idea across multiple drafts; don't proliferate. Generate early, ship rough — let reflection and ranking filter.",
    );
    reveal_strlit(
        "Proposes novel hypotheses via literature review and simulated multi-expert debate.",
    );
    reveal_with_fuel(unbroken, 11);
}

proof fn lemma_reflection_texts()
    ensures
        unbroken(REFLECTION_PERSONALITY@, 0, REFLECTION_PERSONALITY@.len() as int),
        REFLECTION_PERSONALITY@.len() > 120,
        REFLECTION_ROLE@.len() + 6 < REFLECTION_PERSONALITY@.len(),
{
    reveal_strlit(
        "Analyst, not critic. Decompose the hypothesis into its claims, judge each on its own evidence. State findings plainly — strength, weakness, what's missing. Move to the next claim; don't wrap up with an overall judgment the parts don't jointly support.",
    );
    reveal_strlit(
        "Reviews hypotheses for novelty, correctness, and testability; runs observation-based and deep-verification passes.",
    );
    reveal_with_fuel(unbroken, 11);
}

proof fn lemma_ranking_texts()
    ensures
        unbroken(RANKING_PERSONALITY@, 0, RANKING_PERSONALITY@.len() as int),
        RANKING_PERSONALITY@.len() > 120,
        RANKING_ROLE@.len() + 6 < RANKING_PERSONALITY@.len(),
{
    reveal_strlit(
        "Adaptive evaluator. Each pair rewards different traits — read the two hypotheses before applying any rule. Pick a winner; state the single load-bearing reason and stop.",
    );
    reveal_strlit(
        "Runs the Elo tournament: pairwise comparisons and multi-turn debates between competing hypotheses.",
    );
    reveal_with_fuel(unbroken, 11);
}

proof fn lemma_begins_with_role(agent: AgentView, phase: TurnPhase, s: PromptSources)
    ensures
        begins(system_prompt(agent, phase, s), role_block(agent)),
{
    let role = role_block(agent);
    assert(system_prompt(agent, phase, s).subrange(0, role.len() as int) =~= role);
}

/// Where nothing is known of earlier sessions the prompt does not say so, unless
/// another part of it does.
pub proof fn law_absent_sessions_are_not_mentioned(
    agent: AgentView,
    phase: TurnPhase,
    s: PromptSources,
)
    requires
        ({
            let w = "(no prior sessions)"@;
            &&& !occurs(role_block(agent), w)
            &&& !occurs(personality_block(agent, phase), w)
            &&& !occurs(first_skills(agent, phase, s.shelf), w)
            &&& !occurs(s.guide@, w)
            &&& !occurs(prior_block(s.prior@), w)
            &&& !occurs(tools_block(agent.name, visible(s.registry@, agent)), w)
            &&& !occurs(errors_block(s.marker_errors@), w)
        }),
    ensures
        !occurs(system_prompt(agent, phase, s), "(no prior sessions)"@),
{
    let w = "(no prior sessions)"@;
    reveal_strlit("(no prior sessions)");
    reveal_strlit("\n\n");
    assert(one_line(w));
    lemma_absent_short(Seq::empty(), w);
    lemma_absent_short("\n\n"@, w);
    if !occurs(s.prior_session@, w) {
        lemma_absent("\n\n"@, s.prior_session@, w);
    }
    lemma_prompt_free_of(agent, phase, s, w);
}

/// The prompt of an agent describes only tools that it may call.
pub proof fn law_only_allowed_tools_are_shown(registry: Seq<ToolInfo>, agent: AgentView, i: int)
    requires
        0 <= i < visible(registry, agent).len(),
    ensures
        allowlist(agent.name) matches Some(names) && names.contains(
            visible(registry, agent)[i].name@,
        ),
        registry.contains(visible(registry, agent)[i]),
{
    let allowed = agent_tools(registry, agent.name);
    if agent.skills.len() > 0 {
        lemma_named_tools(allowed, agent.skills, allowed.len(), i);
    }
    let t = visible(registry, agent)[i];
    assert(allowed.contains(t));
    let k = choose|k: int| 0 <= k < allowed.len() && allowed[k] == t;
    match allowlist(agent.name) {
        Some(names) => {
            lemma_tools_behind(registry, names, names.len(), k);
        },
        None => {},
    }
}

proof fn lemma_named_tools(tools: Seq<ToolInfo>, skills: Seq<Seq<char>>, n: nat, i: int)
    requires
        n <= tools.len(),
        0 <= i < named_tools(tools, skills, n).len(),
    ensures
        tools.contains(named_tools(tools, skills, n)[i]),
    decreases n,
{
    let before = named_tools(tools, skills, (n - 1) as nat);
    if i < before.len() {
        lemma_named_tools(tools, skills, (n - 1) as nat, i);
    } else {
        assert(named_tools(tools, skills, n)[i] == tools[n - 1]);
    }
}

proof fn lemma_tool_from(registry: Seq<ToolInfo>, name: Seq<char>, i: int)
    requires
        0 <= i,
    ensures
        tool_from(registry, name, i) matches Some(k) ==> i <= k < registry.len()
            && registry[k].name@ == name,
    decreases registry.len() - i,
{
    if i < registry.len() && registry[i].name@ != name {
        lemma_tool_from(registry, name, i + 1);
    }
}

proof fn lemma_tools_behind(registry: Seq<ToolInfo>, names: Seq<Seq<char>>, n: nat, k: int)
    requires
        n <= names.len(),
        0 <= k < tools_behind(registry, names, n).len(),
    ensures
        names.contains(tools_behind(registry, names, n)[k].name@),
        registry.contains(tools_behind(registry, names, n)[k]),
    decreases n,
{
    let before = tools_behind(registry, names, (n - 1) as nat);
    lemma_tool_from(registry, names[n - 1], 0);
    if k < before.len() {
        lemma_tools_behind(registry, names, (n - 1) as nat, k);
    } else {
        assert(names.contains(names[n - 1]));
    }
}

proof fn lemma_occurs_sum(a: Seq<char>, b: Seq<char>, w: Seq<char>)
    ensures
        occurs(a, w) || occurs(b, w) ==> occurs(a + b, w),
{
    if occurs(a, w) {
        lemma_present(Seq::empty(), a, b, w);
        assert(Seq::<char>::empty() + a + b =~= a + b);
    }
    if occurs(b, w) {
        lemma_present(a, b, Seq::empty(), w);
        assert(a + b + Seq::<char>::empty() =~= a + b);
    }
}

/// A text that one of the blocks of a prompt holds is in the prompt.
proof fn lemma_block_in_prompt(
    agent: AgentView,
    phase: TurnPhase,
    s: PromptSources,
    w: Seq<char>,
)
    requires
        occurs(role_block(agent), w) || occurs(personality_block(agent, phase), w) || occurs(
            first_skills(agent, phase, s.shelf),
            w,
        ) || occurs(guide_block(agent.name, s.guide@), w) || occurs(prior_block(s.prior@), w)
            || occurs(session_block(s.prior_session@), w) || occurs(
            tools_block(agent.name, visible(s.registry@, agent)),
            w,
        ) || occurs(errors_block(s.marker_errors@), w),
    ensures
        occurs(system_prompt(agent, phase, s), w),
{
    let p0 = role_block(agent);
    let p1 = p0 + personality_block(agent, phase);
    let p2 = p1 + first_skills(agent, phase, s.shelf);
    let p3 = p2 + guide_block(agent.name, s.guide@);
    let p4 = p3 + prior_block(s.prior@);
    let p5 = p4 + session_block(s.prior_session@);
    let p6 = p5 + tools_block(agent.name, visible(s.registry@, agent));
    lemma_occurs_sum(p0, personality_block(agent, phase), w);
    lemma_occurs_sum(p1, first_skills(agent, phase, s.shelf), w);
    lemma_occurs_sum(p2, guide_block(agent.name, s.guide@), w);
    lemma_occurs_sum(p3, prior_block(s.prior@), w);
    lemma_occurs_sum(p4, session_block(s.prior_session@), w);
    lemma_occurs_sum(p5, tools_block(agent.name, visible(s.registry@, agent)), w);
    lemma_occurs_sum(p6, errors_block(s.marker_errors@), w);
}

proof fn lemma_whole(a: Seq<char>, w: Seq<char>, b: Seq<char>)
    ensures
        occurs(a + w + b, w),
{
    crate::text::law_occurring_is_character_by_character(a, w, b, w);
}

proof fn lemma_note_in(notes: Seq<BehaviorMemory>, n: nat, i: int)
    requires
        0 <= i < n <= notes.len(),
    ensures
        occurs(
            note_lines(notes, n),
            "- "@ + notes[i].pattern@ + ": "@ + notes[i].notes@ + "\n"@,
        ),
    decreases n,
{
    let line = "- "@ + notes[i].pattern@ + ": "@ + notes[i].notes@ + "\n"@;
    let before = note_lines(notes, (n - 1) as nat);
    if i == n - 1 {
        lemma_whole(before, line, Seq::empty());
        assert(before + line + Seq::<char>::empty() =~= note_lines(notes, n));
    } else {
        lemma_note_in(notes, (n - 1) as nat, i);
        let last = "- "@ + notes[n - 1].pattern@ + ": "@ + notes[n - 1].notes@ + "\n"@;
        lemma_occurs_sum(before, last, line);
    }
}

proof fn lemma_error_in(errors: Seq<(String, String)>, n: nat, i: int)
    requires
        0 <= i < n <= errors.len(),
    ensures
        occurs(error_lines(errors, n), "- `"@ + errors[i].0@ + "`: "@ + errors[i].1@ + "\n"@),
    decreases n,
{
    let line = "- `"@ + errors[i].0@ + "`: "@ + errors[i].1@ + "\n"@;
    let before = error_lines(errors, (n - 1) as nat);
    if i == n - 1 {
        lemma_whole(before, line, Seq::empty());
        assert(before + line + Seq::<char>::empty() =~= error_lines(errors, n));
    } else {
        lemma_error_in(errors, (n - 1) as nat, i);
        let last = "- `"@ + errors[n - 1].0@ + "`: "@ + errors[n - 1].1@ + "\n"@;
        lemma_occurs_sum(before, last, line);
    }
}

/// A prompt tells an agent its name, its role, and on the first turn its personality.
pub proof fn law_prompt_tells_who_the_agent_is(
    agent: AgentView,
    phase: TurnPhase,
    s: PromptSources,
)
    ensures
        begins(
            system_prompt(agent, phase, s),
            "You are the `"@ + agent.name + "` agent.\n\nRole: "@ + agent.role
                + "\n\nModes owned: "@,
        ),
        phase == TurnPhase::FirstTurn && agent.personality.len() > 0 ==> occurs(
            system_prompt(agent, phase, s),
            "\nPersonality: "@ + agent.personality + "\n"@,
        ),
{
    let head = "You are the `"@ + agent.name + "` agent.\n\nRole: "@ + agent.role
        + "\n\nModes owned: "@;
    let p = system_prompt(agent, phase, s);
    assert(p.subrange(0, head.len() as int) =~= head);
    if phase == TurnPhase::FirstTurn && agent.personality.len() > 0 {
        let w = "\nPersonality: "@ + agent.personality + "\n"@;
        lemma_whole(Seq::empty(), w, Seq::empty());
        assert(Seq::<char>::empty() + w + Seq::<char>::empty() =~= personality_block(
            agent,
            phase,
        ));
        lemma_block_in_prompt(agent, phase, s, w);
    }
}

/// Every note that an agent left about itself, and every call of it that failed, is in its
/// prompt on a line of its own, on the first turn and on every later one.
pub proof fn law_notes_and_failures_are_told(
    agent: AgentView,
    phase: TurnPhase,
    s: PromptSources,
    i: int,
    j: int,
)
    ensures
        0 <= i < s.prior@.len() ==> occurs(
            system_prompt(agent, phase, s),
            "- "@ + s.prior@[i].pattern@ + ": "@ + s.prior@[i].notes@ + "\n"@,
        ),
        0 <= j < s.marker_errors@.len() ==> occurs(
            system_prompt(agent, phase, s),
            "- `"@ + s.marker_errors@[j].0@ + "`: "@ + s.marker_errors@[j].1@ + "\n"@,
        ),
{
    if 0 <= i < s.prior@.len() {
        let line = "- "@ + s.prior@[i].pattern@ + ": "@ + s.prior@[i].notes@ + "\n"@;
        lemma_note_in(s.prior@, s.prior@.len(), i);
        lemma_occurs_sum(
            "\n\n## Your prior self-critique\n"@,
            note_lines(s.prior@, s.prior@.len()),
            line,
        );
        lemma_block_in_prompt(agent, phase, s, line);
    }
    if 0 <= j < s.marker_errors@.len() {
        let line = "- `"@ + s.marker_errors@[j].0@ + "`: "@ + s.marker_errors@[j].1@ + "\n"@;
        lemma_error_in(s.marker_errors@, s.marker_errors@.len(), j);
        let lines = error_lines(s.marker_errors@, s.marker_errors@.len());
        lemma_present(ERRORS_HEAD@, lines, ERRORS_TAIL@, line);
        lemma_block_in_prompt(agent, phase, s, line);
    }
}

/// What is known of earlier sessions is told where there is anything to tell, and an agent
/// that works through memory tools is given the guide.
pub proof fn law_sessions_and_guide_are_told(
    agent: AgentView,
    phase: TurnPhase,
    s: PromptSources,
)
    ensures
        s.prior_session@.len() > 0 && !crate::text::white_space(s.prior_session@[0])
            && !crate::text::white_space(s.prior_session@.last()) && !occurs(
            s.prior_session@,
            "(no prior sessions)"@,
        ) ==> occurs(system_prompt(agent, phase, s), s.prior_session@),
        agent.name != "supervisor"@ && agent.name != "ranking"@ ==> occurs(
            system_prompt(agent, phase, s),
            s.guide@,
        ),
{
    let w = s.prior_session@;
    if w.len() > 0 && !crate::text::white_space(w[0]) && !crate::text::white_space(w.last())
        && !occurs(w, "(no prior sessions)"@) {
        crate::text::law_trimming_takes_white_space(Seq::empty(), w, Seq::empty());
        assert(Seq::<char>::empty() + w + Seq::<char>::empty() =~= w);
        lemma_whole("\n\n"@, w, Seq::empty());
        assert("\n\n"@ + w + Seq::<char>::empty() =~= session_block(w));
        lemma_block_in_prompt(agent, phase, s, w);
    }
    if uses_tools(agent.name) {
        let g = s.guide@;
        lemma_whole("\n\n"@, g, Seq::empty());
        assert("\n\n"@ + g + Seq::<char>::empty() =~= guide_block(agent.name, g));
        lemma_block_in_prompt(agent, phase, s, g);
    }
}

proof fn lemma_tool_first(registry: Seq<ToolInfo>, name: Seq<char>, from: int, k: int)
    requires
        0 <= from <= k < registry.len(),
        registry[k].name@ == name,
        forall|j: int| from <= j < k ==> (#[trigger] registry[j]).name@ != name,
    ensures
        tool_from(registry, name, from) == Some(k),
    decreases k - from,
{
    if from < k {
        assert(registry[from].name@ != name);
        lemma_tool_first(registry, name, from + 1, k);
    }
}

proof fn lemma_behind_has(registry: Seq<ToolInfo>, names: Seq<Seq<char>>, n: nat, i: int, k: int)
    requires
        0 <= i < n <= names.len(),
        tool_from(registry, names[i], 0) == Some(k),
    ensures
        tools_behind(registry, names, n).contains(registry[k]),
    decreases n,
{
    let before = tools_behind(registry, names, (n - 1) as nat);
    let all = tools_behind(registry, names, n);
    if i == n - 1 {
        assert(all.last() == registry[k]);
    } else {
        lemma_behind_has(registry, names, (n - 1) as nat, i, k);
        let j = choose|j: int| 0 <= j < before.len() && before[j] == registry[k];
        assert(all[j] == registry[k]);
    }
}

proof fn lemma_named_has(tools: Seq<ToolInfo>, skills: Seq<Seq<char>>, n: nat, i: int)
    requires
        0 <= i < n <= tools.len(),
        skills.contains(tools[i].name@),
    ensures
        named_tools(tools, skills, n).contains(tools[i]),
    decreases n,
{
    let before = named_tools(tools, skills, (n - 1) as nat);
    let all = named_tools(tools, skills, n);
    if i == n - 1 {
        assert(all.last() == tools[i]);
    } else {
        lemma_named_has(tools, skills, (n - 1) as nat, i);
        let j = choose|j: int| 0 <= j < before.len() && before[j] == tools[i];
        assert(all[j] == tools[i]);
    }
}

/// Every registered tool that an agent may call is shown to it: all of them where the
/// agent has no skills, and else those among its skills.
pub proof fn law_allowed_tools_are_shown(
    registry: Seq<ToolInfo>,
    agent: AgentView,
    names: Seq<Seq<char>>,
    i: int,
    k: int,
)
    requires
        allowlist(agent.name) == Some(names),
        0 <= i < names.len(),
        0 <= k < registry.len(),
        registry[k].name@ == names[i],
        forall|j: int| 0 <= j < k ==> (#[trigger] registry[j]).name@ != names[i],
        agent.skills.len() == 0 || agent.skills.contains(names[i]),
    ensures
        visible(registry, agent).contains(registry[k]),
{
    lemma_tool_first(registry, names[i], 0, k);
    lemma_behind_has(registry, names, names.len(), i, k);
    let allowed = agent_tools(registry, agent.name);
    if agent.skills.len() > 0 {
        let j = choose|j: int| 0 <= j < allowed.len() && allowed[j] == registry[k];
        lemma_named_has(allowed, agent.skills, allowed.len(), j);
    }
}

proof fn lemma_named_are_skills(tools: Seq<ToolInfo>, skills: Seq<Seq<char>>, n: nat, i: int)
    requires
        n <= tools.len(),
        0 <= i < named_tools(tools, skills, n).len(),
    ensures
        skills.contains(named_tools(tools, skills, n)[i].name@),
    decreases n,
{
    let before = named_tools(tools, skills, (n - 1) as nat);
    if i < before.len() {
        lemma_named_are_skills(tools, skills, (n - 1) as nat, i);
    }
}

/// Where an agent has skills, no tool but these is shown to it.
pub proof fn law_only_skills_are_shown(registry: Seq<ToolInfo>, agent: AgentView, i: int)
    requires
        agent.skills.len() > 0,
        0 <= i < visible(registry, agent).len(),
    ensures
        agent.skills.contains(visible(registry, agent)[i].name@),
{
    let allowed = agent_tools(registry, agent.name);
    lemma_named_are_skills(allowed, agent.skills, allowed.len(), i);
}

proof fn lemma_entry_in(tools: Seq<ToolInfo>, n: nat, i: int, w: Seq<char>)
    requires
        0 <= i < n <= tools.len(),
        occurs(tool_entry(tools[i]), w),
    ensures
        occurs(tool_entries(tools, n), w),
    decreases n,
{
    let before = tool_entries(tools, (n - 1) as nat);
    if i < n - 1 {
        lemma_entry_in(tools, (n - 1) as nat, i, w);
    }
    lemma_occurs_sum(before, tool_entry(tools[n - 1]), w);
}

/// The prompt of an agent that works through memory tools names each tool that it is shown
/// and how to call it.
pub proof fn law_shown_tools_can_be_called(
    agent: AgentView,
    phase: TurnPhase,
    s: PromptSources,
    i: int,
)
    requires
        agent.name != "supervisor"@,
        agent.name != "ranking"@,
        0 <= i < visible(s.registry@, agent).len(),
    ensures
        ({
            let name = visible(s.registry@, agent)[i].name@;
            &&& occurs(system_prompt(agent, phase, s), "**"@ + name + "** — "@)
            &&& occurs(
                system_prompt(agent, phase, s),
                "  Example: `[[MEMORY_OP:"@ + name + ":{...}]]`\n\n"@,
            )
        }),
{
    let tools = visible(s.registry@, agent);
    let t = tools[i];
    let a = "**"@ + t.name@ + "** — "@;
    let b = "  Example: `[[MEMORY_OP:"@ + t.name@ + ":{...}]]`\n\n"@;
    let required = required_of(t.schema);
    let middle = first_line(t.description@) + "\n"@ + (if required.len() == 0 {
        "  (no required fields)\n"@
    } else {
        "  Required: "@ + joined(field_texts(t.schema, required), ", "@) + "\n"@
    });
    assert(tool_entry(t) =~= a + middle + b);
    lemma_whole(Seq::empty(), a, middle + b);
    assert(Seq::<char>::empty() + a + (middle + b) =~= tool_entry(t));
    lemma_whole(a + middle, b, Seq::empty());
    assert(a + middle + b + Seq::<char>::empty() =~= tool_entry(t));
    lemma_entry_in(tools, tools.len(), i, a);
    lemma_entry_in(tools, tools.len(), i, b);
    let head = TOOLS_HEAD@ + joined(names_of(tools), ", "@) + TOOLS_MIDDLE@;
    lemma_occurs_sum(head, tool_entries(tools, tools.len()), a);
    lemma_occurs_sum(head, tool_entries(tools, tools.len()), b);
    lemma_block_in_prompt(agent, phase, s, a);
    lemma_block_in_prompt(agent, phase, s, b);
}

proof fn lemma_last_card(skills: Seq<SkillCard>, name: Seq<char>, n: nat, k: int)
    requires
        n <= skills.len(),
        -1 <= k < n,
        k >= 0 ==> skills[k].name@ == name,
        forall|j: int| k < j < n ==> (#[trigger] skills[j]).name@ != name,
    ensures
        skill_named(skills, name, n) == (if k >= 0 {
            Some(k)
        } else {
            None
        }),
    decreases n,
{
    if n > 0 && k < n - 1 {
        assert(skills[n - 1].name@ != name);
        lemma_last_card(skills, name, (n - 1) as nat, k);
    }
}

/// A skill is told by its name and the first line of what its own card says, the last card
/// of that name where there are several; one without a card is told as not found, with the
/// place where it was looked for.
pub proof fn law_skills_are_told_by_their_cards(shelf: SkillShelf, name: Seq<char>, k: int)
    requires
        -1 <= k < shelf.skills@.len(),
        k >= 0 ==> shelf.skills@[k].name@ == name,
        forall|j: int| k < j < shelf.skills@.len() ==> (#[trigger] shelf.skills@[j]).name@ != name,
    ensures
        k < 0 ==> skill_entry(shelf, name) == "- `"@ + name + "` (not found at "@ + shelf.path@
            + ")\n"@,
        k >= 0 ==> ({
            let about = trimmed(first_line(shelf.skills@[k].description@));
            &&& about.len() == 0 ==> skill_entry(shelf, name) == "- `"@ + name + "`\n"@
            &&& about.len() > 0 ==> skill_entry(shelf, name) == "- `"@ + name + "` — "@ + about
                + "\n"@
        }),
{
    lemma_last_card(shelf.skills@, name, shelf.skills@.len(), k);
}

/// Every skill of an agent has its line, in order; the block is left out just where there is
/// no shelf or none of the skills has a card.
pub proof fn law_every_skill_has_its_line(agent: AgentView, shelf: SkillShelf, n: nat, i: int, k: int)
    ensures
        skill_entries(shelf, agent.skills, 0).len() == 0,
        skill_entries(shelf, agent.skills, n + 1) == skill_entries(shelf, agent.skills, n)
            + skill_entry(shelf, agent.skills[n as int]),
        skills_block(agent, None).len() == 0,
        0 <= i < agent.skills.len() && 0 <= k < shelf.skills@.len() && shelf.skills@[k].name@
            == agent.skills[i] ==> skills_block(agent, Some(shelf)) == SKILLS_HEAD@
            + skill_entries(shelf, agent.skills, agent.skills.len()),
        (forall|a: int, b: int|
            0 <= a < agent.skills.len() && 0 <= b < shelf.skills@.len()
                ==> #[trigger] shelf.skills@[b].name@ != #[trigger] agent.skills[a])
            ==> skills_block(agent, Some(shelf)).len() == 0,
{
    let cards = shelf.skills@;
    if 0 <= i < agent.skills.len() && 0 <= k < cards.len() && cards[k].name@ == agent.skills[i] {
        lemma_card_found(cards, agent.skills[i], cards.len(), k);
        assert(any_found(shelf, agent.skills));
    }
    if forall|a: int, b: int|
        0 <= a < agent.skills.len() && 0 <= b < cards.len() ==> #[trigger] cards[b].name@
            != #[trigger] agent.skills[a] {
        assert forall|a: int| 0 <= a < agent.skills.len() implies skill_named(
            cards,
            #[trigger] agent.skills[a],
            cards.len(),
        ) is None by {
            assert forall|j: int| -1 < j < cards.len() implies (#[trigger] cards[j]).name@
                != agent.skills[a] by {}
            lemma_last_card(cards, agent.skills[a], cards.len(), -1);
        }
    }
}

proof fn lemma_card_found(skills: Seq<SkillCard>, name: Seq<char>, n: nat, k: int)
    requires
        n <= skills.len(),
        0 <= k < n,
        skills[k].name@ == name,
    ensures
        skill_named(skills, name, n) is Some,
    decreases n,
{
    if skills[n - 1].name@ != name {
        lemma_card_found(skills, name, (n - 1) as nat, k);
    }
}

/// Every tool has its entry, in order, under its own name, with the first line of what it is
/// for and each field that it must be given.
pub proof fn law_every_tool_has_its_entry(tools: Seq<ToolInfo>, n: nat, t: ToolInfo)
    ensures
        tool_entries(tools, 0).len() == 0,
        tool_entries(tools, n + 1) == tool_entries(tools, n) + tool_entry(tools[n as int]),
        exists|middle: Seq<char>|
            tool_entry(t) == #[trigger] ("**"@ + t.name@ + "** — "@ + first_line(t.description@)
                + "\n"@ + middle) + "  Example: `[[MEMORY_OP:"@ + t.name@ + ":{...}]]`\n\n"@
                && (required_of(t.schema).len() == 0 ==> middle == "  (no required fields)\n"@) && (
            required_of(t.schema).len() > 0 ==> middle == "  Required: "@ + joined(
                field_texts(t.schema, required_of(t.schema)),
                ", "@,
            ) + "\n"@),
{
    let middle = if required_of(t.schema).len() == 0 {
        "  (no required fields)\n"@
    } else {
        "  Required: "@ + joined(field_texts(t.schema, required_of(t.schema)), ", "@) + "\n"@
    };
    assert(tool_entry(t) =~= ("**"@ + t.name@ + "** — "@ + first_line(t.description@) + "\n"@
        + middle) + "  Example: `[[MEMORY_OP:"@ + t.name@ + ":{...}]]`\n\n"@);
}

/// A field is told by its name and its kind, `any` where none is given, with the first line
/// of what is said of it; the fields that must be given are the texts of the list, in order.
pub proof fn law_how_fields_are_told(
    schema: Json,
    name: Seq<char>,
    items: Seq<Json>,
    item: Json,
    names: Seq<Seq<char>>,
    i: int,
)
    ensures
        ({
            let kind = property_text(schema, name, "type"@);
            let about = property_text(schema, name, "description"@);
            let head = "`"@ + name + "`: "@ + (if kind is Some {
                kind->0
            } else {
                "any"@
            });
            &&& about is None ==> field_text(schema, name) == head
            &&& about is Some && about->0.len() == 0 ==> field_text(schema, name) == head
            &&& about is Some && about->0.len() > 0 ==> field_text(schema, name) == head + " — "@
                + first_line(about->0)
        }),
        texts_upto(items, 0).len() == 0,
        item.text() is Some ==> texts_upto(items.push(item), items.len() + 1) == texts_upto(
            items,
            items.len(),
        ).push(item.text()->0),
        item.text() is None ==> texts_upto(items.push(item), items.len() + 1) == texts_upto(
            items,
            items.len(),
        ),
        0 <= i < names.len() ==> field_texts(schema, names)[i] == field_text(schema, names[i]),
        field_texts(schema, names).len() == names.len(),
{
    reveal_strlit("");
    lemma_texts_same(items.push(item), items, items.len());
}

proof fn lemma_texts_same(a: Seq<Json>, b: Seq<Json>, n: nat)
    requires
        n <= a.len(),
        n <= b.len(),
        forall|j: int| 0 <= j < n ==> a[j] == b[j],
    ensures
        texts_upto(a, n) == texts_upto(b, n),
    decreases n,
{
    if n > 0 {
        lemma_texts_same(a, b, (n - 1) as nat);
    }
}

/// A property is looked up by its name among the properties of a schema, and nowhere else.
pub proof fn law_where_properties_stand(schema: Json, name: Seq<char>, key: Seq<char>)
    ensures
        schema.spec_get("properties"@) is None ==> property_text(schema, name, key) is None,
        (schema.spec_get("properties"@) matches Some(p) && p.spec_get(name) is None)
            ==> property_text(schema, name, key) is None,
        (schema.spec_get("properties"@) matches Some(p) && p.spec_get(name) is Some)
            ==> property_text(schema, name, key) == schema.spec_get("properties"@)->0.spec_get(
            name,
        )->0.text_at(key),
{
}

} // verus!
