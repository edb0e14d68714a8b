//! The agents of the research loop.
//!
//! Each has a role, the prompt modes that it owns, a short preamble that sets
//! its tone, and the names of extra skills that it may call.

use vstd::prelude::*;

use crate::prompts::AgentMode;
use crate::text::str_eq;

verus! {

/// An agent.
#[derive(Debug)]
pub struct Agent {
    pub name: &'static str,
    pub role: &'static str,
    pub modes: Vec<AgentMode>,
    /// Sets tone and posture only; empty where the agent has none of its own.
    pub personality: &'static str,
    /// Names of skills that the agent may call besides the built-in tools.
    pub skills: Vec<&'static str>,
}

/// What an [`Agent`] holds.
pub struct AgentView {
    pub name: Seq<char>,
    pub role: Seq<char>,
    pub modes: Seq<AgentMode>,
    pub personality: Seq<char>,
    pub skills: Seq<Seq<char>>,
}

impl View for Agent {
    type V = AgentView;

    open spec fn view(&self) -> AgentView {
        AgentView {
            name: self.name@,
            role: self.role@,
            modes: self.modes@,
            personality: self.personality@,
            skills: str_views(self.skills@),
        }
    }
}

/// The contents of a list of string slices.
pub open spec fn str_views(v: Seq<&'static str>) -> Seq<Seq<char>> {
    v.map_values(|s: &'static str| s@)
}

pub const SUPERVISOR_ROLE: &'static str =
    "Parses the goal into a research plan and dispatches generation / reflection / ranking / evolution / metareview tasks through the durable queue.";

pub const SUPERVISOR_PERSONALITY: &'static str =
    "Smart router, not a leader. Dispatch tasks; do not plan or evaluate downstream output. Pass through the agent's own 'good enough' signals — only block on a task that genuinely fails to complete.";

pub const GENERATION_ROLE: &'static str =
    "Proposes novel hypotheses via literature review and simulated multi-expert debate.";

pub const GENERATION_PERSONALITY: &'static str =
    "Cross-domain hunter. Recast one concept from an unrelated field per hypothesis — the analogy IS the mechanism, not decoration. Name the entities, the transfer rule, and the predicted outcome. Iterate one idea across multiple drafts; don't proliferate. Generate early, ship rough — let reflection and ranking filter.";

pub const REFLECTION_ROLE: &'static str =
    "Reviews hypotheses for novelty, correctness, and testability; runs observation-based and deep-verification passes.";

pub const REFLECTION_PERSONALITY: &'static str =
    "Analyst, not critic. Decompose the hypothesis into its claims, judge each on its own evidence. State findings plainly — strength, weakness, what's missing. Move to the next claim; don't wrap up with an overall judgment the parts don't jointly support.";

pub const RANKING_ROLE: &'static str =
    "Runs the Elo tournament: pairwise comparisons and multi-turn debates between competing hypotheses.";

pub const RANKING_PERSONALITY: &'static str =
    "Adaptive evaluator. Each pair rewards different traits — read the two hypotheses before applying any rule. Pick a winner; state the single load-bearing reason and stop.";

pub const EVOLUTION_ROLE: &'static str =
    "Improves top-ranked hypotheses via combine / simplify / feasibility / out-of-box re-imagination strategies.";

pub const METAREVIEW_ROLE: &'static str =
    "Synthesizes system-wide feedback for future generations and produces the final research overview.";

pub const EXPERIMENT_ROLE: &'static str =
    "Closes the empirical loop: writes Python code that tests a hypothesis, runs it in a sandbox, and interprets the metric. Results feed back into the tournament via reflection_on_result.";

/// How many agents there are.
pub const AGENT_COUNT: usize = 7;

/// The agents, in the order in which they are listed.
pub open spec fn all_agents() -> Seq<AgentView> {
    seq![
        AgentView {
            name: "supervisor"@,
            role: SUPERVISOR_ROLE@,
            modes: seq![AgentMode::ParseGoal],
            personality: SUPERVISOR_PERSONALITY@,
            skills: Seq::empty(),
        },
        AgentView {
            name: "generation"@,
            role: GENERATION_ROLE@,
            modes: seq![AgentMode::GenerationLiterature, AgentMode::GenerationDebate],
            personality: GENERATION_PERSONALITY@,
            skills: Seq::empty(),
        },
        AgentView {
            name: "reflection"@,
            role: REFLECTION_ROLE@,
            modes: seq![
                AgentMode::ReflectionReview,
                AgentMode::ReflectionObservation,
                AgentMode::ReflectionVerification,
            ],
            personality: REFLECTION_PERSONALITY@,
            skills: Seq::empty(),
        },
        AgentView {
            name: "ranking"@,
            role: RANKING_ROLE@,
            modes: seq![AgentMode::RankingPairwise, AgentMode::RankingDebate],
            personality: RANKING_PERSONALITY@,
            skills: Seq::empty(),
        },
        AgentView {
            name: "evolution"@,
            role: EVOLUTION_ROLE@,
            modes: seq![
                AgentMode::EvolutionCombine,
                AgentMode::EvolutionSimplify,
                AgentMode::EvolutionFeasibility,
                AgentMode::EvolutionOutOfBox,
            ],
            personality: ""@,
            skills: Seq::empty(),
        },
        AgentView {
            name: "metareview"@,
            role: METAREVIEW_ROLE@,
            modes: seq![AgentMode::MetaReviewSystem, AgentMode::MetaReviewFinal],
            personality: ""@,
            skills: Seq::empty(),
        },
        AgentView {
            name: "experiment"@,
            role: EXPERIMENT_ROLE@,
            modes: seq![
                AgentMode::ExperimentDesign,
                AgentMode::ExperimentExecute,
                AgentMode::ExperimentEvaluate,
            ],
            personality: ""@,
            skills: Seq::empty(),
        },
    ]
}

fn make_agent(
    name: &'static str,
    role: &'static str,
    modes: Vec<AgentMode>,
    personality: &'static str,
) -> (a: Agent)
    ensures
        a@ == (AgentView {
            name: name@,
            role: role@,
            modes: modes@,
            personality: personality@,
            skills: Seq::empty(),
        }),
{
    let a = Agent { name, role, modes, personality, skills: Vec::new() };
    proof {
        assert(a@.skills =~= Seq::<Seq<char>>::empty());
    }
    a
}

/// The agent at place `i` of the list.
pub fn agent_at(i: usize) -> (a: Agent)
    requires
        i < AGENT_COUNT,
    ensures
        a@ == all_agents()[i as int],
{
    let a = if i == 0 {
        make_agent(
            "supervisor",
            SUPERVISOR_ROLE,
            vec![AgentMode::ParseGoal],
            SUPERVISOR_PERSONALITY,
        )
    } else if i == 1 {
        make_agent(
            "generation",
            GENERATION_ROLE,
            vec![AgentMode::GenerationLiterature, AgentMode::GenerationDebate],
            GENERATION_PERSONALITY,
        )
    } else if i == 2 {
        make_agent(
            "reflection",
            REFLECTION_ROLE,
            vec![
                AgentMode::ReflectionReview,
                AgentMode::ReflectionObservation,
                AgentMode::ReflectionVerification,
            ],
            REFLECTION_PERSONALITY,
        )
    } else if i == 3 {
        make_agent(
            "ranking",
            RANKING_ROLE,
            vec![AgentMode::RankingPairwise, AgentMode::RankingDebate],
            RANKING_PERSONALITY,
        )
    } else if i == 4 {
        make_agent(
            "evolution",
            EVOLUTION_ROLE,
            vec![
                AgentMode::EvolutionCombine,
                AgentMode::EvolutionSimplify,
                AgentMode::EvolutionFeasibility,
                AgentMode::EvolutionOutOfBox,
            ],
            "",
        )
    } else if i == 5 {
        make_agent(
            "metareview",
            METAREVIEW_ROLE,
            vec![AgentMode::MetaReviewSystem, AgentMode::MetaReviewFinal],
            "",
        )
    } else {
        make_agent(
            "experiment",
            EXPERIMENT_ROLE,
            vec![
                AgentMode::ExperimentDesign,
                AgentMode::ExperimentExecute,
                AgentMode::ExperimentEvaluate,
            ],
            "",
        )
    };
    proof {
        assert(a@.modes =~= all_agents()[i as int].modes);
    }
    a
}

/// What a list of agents holds.
pub open spec fn agents_view(v: Seq<Agent>) -> Seq<AgentView> {
    v.map_values(|a: Agent| a@)
}

/// The agents, in the order in which they are listed.
pub fn agents() -> (r: Vec<Agent>)
    ensures
        agents_view(r@) == all_agents(),
{
    let mut out: Vec<Agent> = Vec::new();
    let mut i: usize = 0;
    while i < AGENT_COUNT
        invariant
            i <= AGENT_COUNT,
            agents_view(out@) == all_agents().take(i as int),
        decreases AGENT_COUNT - i,
    {
        let ghost before = out@;
        let a = agent_at(i);
        let ghost view = a@;
        out.push(a);
        proof {
            assert(agents_view(out@) =~= agents_view(before).push(view));
            assert(all_agents().take(i + 1) =~= all_agents().take(i as int).push(
                all_agents()[i as int],
            ));
        }
        i += 1;
    }
    proof {
        assert(all_agents().take(7) =~= all_agents());
    }
    out
}

/// The first agent with the name `name`.
pub fn find_agent(name: &str) -> (r: Option<Agent>)
    ensures
        match r {
            Some(a) => a@.name == name@ && all_agents().contains(a@),
            None => forall|i: int|
                0 <= i < all_agents().len() ==> (#[trigger] all_agents()[i]).name != name@,
        },
{
    let mut i: usize = 0;
    while i < AGENT_COUNT
        invariant
            i <= AGENT_COUNT,
            forall|j: int| 0 <= j < i ==> (#[trigger] all_agents()[j]).name != name@,
        decreases AGENT_COUNT - i,
    {
        let a = agent_at(i);
        if str_eq(a.name, name) {
            return Some(a);
        }
        i += 1;
    }
    None
}

/// No two agents share a name, so a name that is found resolves to one agent.
pub proof fn law_agent_names_are_distinct(i: int, j: int)
    requires
        0 <= i < all_agents().len(),
        0 <= j < all_agents().len(),
        all_agents()[i].name == all_agents()[j].name,
    ensures
        i == j,
{
    reveal_strlit("supervisor");
    reveal_strlit("generation");
    reveal_strlit("reflection");
    reveal_strlit("ranking");
    reveal_strlit("evolution");
    reveal_strlit("metareview");
    reveal_strlit("experiment");
    let s = all_agents()[i].name;
    let t = all_agents()[j].name;
    assert(i == 0 || i == 1 || i == 2 || i == 3 || i == 4 || i == 5 || i == 6);
    assert(j == 0 || j == 1 || j == 2 || j == 3 || j == 4 || j == 5 || j == 6);
    assert(s.len() == t.len() && s[0] == t[0]);
}

/// Every mode that an agent lists belongs to it.
pub proof fn law_agents_own_their_modes(i: int, k: int)
    requires
        0 <= i < all_agents().len(),
        0 <= k < all_agents()[i].modes.len(),
    ensures
        all_agents()[i].modes[k].spec_agent() == all_agents()[i].name,
{
}

} // verus!
