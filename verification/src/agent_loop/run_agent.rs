//! One task of an agent, from its arguments to the tasks that follow it.

use vstd::prelude::*;

use crate::agents::{self, all_agents, Agent};
use crate::agent_loop::prompt_build::{mode_of, task_mode};
use crate::agent_loop::runner::TurnOutcome;
use crate::hypothesis::{
    drafted, hyps_view, inserts, lists_in_order, wanted, Hypothesis, HypothesisRepo, HypothesisView, Ordered,
    RepoView, Wanted,
};
use crate::json::{is_flat, leaves, push_text, push_whole, Json, Leaf, Number};
use crate::marker::allowlist::{pair_fault, PairError, PromptToolTable};
use crate::marker::skill::Marker;
use crate::prompts::AgentMode;
use crate::text::{decimal, opt_view, show_u64, str_eq};

verus! {

// ---------------------------------------------------------------- follow-ups

/// An edge of the research pipeline: which task follows a finished one.
#[derive(Clone, Copy, Debug)]
pub struct FollowUpSpec {
    pub from_agent: &'static str,
    /// The mode of the finished task; any mode where it is missing.
    pub from_mode: Option<&'static str>,
    pub next_agent: &'static str,
    pub next_mode: &'static str,
    pub priority: i64,
    /// Whether one task follows for each hypothesis.
    pub requires_hypothesis: bool,
}

/// What a [`FollowUpSpec`] holds.
pub struct FollowUpView {
    pub from_agent: Seq<char>,
    pub from_mode: Option<Seq<char>>,
    pub next_agent: Seq<char>,
    pub next_mode: Seq<char>,
    pub priority: i64,
    pub requires_hypothesis: bool,
}

impl View for FollowUpSpec {
    type V = FollowUpView;

    open spec fn view(&self) -> FollowUpView {
        FollowUpView {
            from_agent: self.from_agent@,
            from_mode: match self.from_mode {
                Some(m) => Some(m@),
                None => None,
            },
            next_agent: self.next_agent@,
            next_mode: self.next_mode@,
            priority: self.priority,
            requires_hypothesis: self.requires_hypothesis,
        }
    }
}

/// The edges of the pipeline, in the order in which they are tried.
pub open spec fn pipeline() -> Seq<FollowUpView> {
    seq![
        FollowUpView {
            from_agent: "generation"@,
            from_mode: None,
            next_agent: "reflection"@,
            next_mode: "reflection_review"@,
            priority: 100,
            requires_hypothesis: true,
        },
        FollowUpView {
            from_agent: "evolution"@,
            from_mode: None,
            next_agent: "reflection"@,
            next_mode: "reflection_review"@,
            priority: 100,
            requires_hypothesis: true,
        },
        FollowUpView {
            from_agent: "reflection"@,
            from_mode: None,
            next_agent: "ranking"@,
            next_mode: "ranking_pairwise"@,
            priority: 100,
            requires_hypothesis: false,
        },
        FollowUpView {
            from_agent: "experiment"@,
            from_mode: Some("experiment_design"@),
            next_agent: "experiment"@,
            next_mode: "experiment_execute"@,
            priority: 110,
            requires_hypothesis: false,
        },
        FollowUpView {
            from_agent: "experiment"@,
            from_mode: Some("experiment_execute"@),
            next_agent: "experiment"@,
            next_mode: "experiment_evaluate"@,
            priority: 120,
            requires_hypothesis: false,
        },
        FollowUpView {
            from_agent: "experiment"@,
            from_mode: Some("experiment_evaluate"@),
            next_agent: "reflection"@,
            next_mode: "reflection_on_result"@,
            priority: 130,
            requires_hypothesis: false,
        },
    ]
}

/// What a list of edges holds.
pub open spec fn edges_view(v: Seq<FollowUpSpec>) -> Seq<FollowUpView> {
    v.map_values(|e: FollowUpSpec| e@)
}

/// The edges of the pipeline, in the order in which they are tried.
pub fn follow_up_specs() -> (r: Vec<FollowUpSpec>)
    ensures
        edges_view(r@) == pipeline(),
{
    let r: Vec<FollowUpSpec> = vec![
        FollowUpSpec {
            from_agent: "generation",
            from_mode: None,
            next_agent: "reflection",
            next_mode: "reflection_review",
            priority: 100,
            requires_hypothesis: true,
        },
        FollowUpSpec {
            from_agent: "evolution",
            from_mode: None,
            next_agent: "reflection",
            next_mode: "reflection_review",
            priority: 100,
            requires_hypothesis: true,
        },
        FollowUpSpec {
            from_agent: "reflection",
            from_mode: None,
            next_agent: "ranking",
            next_mode: "ranking_pairwise",
            priority: 100,
            requires_hypothesis: false,
        },
        FollowUpSpec {
            from_agent: "experiment",
            from_mode: Some("experiment_design"),
            next_agent: "experiment",
            next_mode: "experiment_execute",
            priority: 110,
            requires_hypothesis: false,
        },
        FollowUpSpec {
            from_agent: "experiment",
            from_mode: Some("experiment_execute"),
            next_agent: "experiment",
            next_mode: "experiment_evaluate",
            priority: 120,
            requires_hypothesis: false,
        },
        FollowUpSpec {
            from_agent: "experiment",
            from_mode: Some("experiment_evaluate"),
            next_agent: "reflection",
            next_mode: "reflection_on_result",
            priority: 130,
            requires_hypothesis: false,
        },
    ];
    proof {
        assert(edges_view(r@) =~= pipeline());
    }
    r
}

/// Whether an edge leaves from a task of `agent` in the mode `mode`.
pub open spec fn leaves_from(e: FollowUpView, agent: Seq<char>, mode: Seq<char>) -> bool {
    e.from_agent == agent && match e.from_mode {
        Some(m) => m == mode,
        None => true,
    }
}

/// The first edge from `i` on that leaves from such a task.
pub open spec fn edge_from(agent: Seq<char>, mode: Seq<char>, i: int) -> Option<FollowUpView>
    decreases pipeline().len() - i,
{
    if i < 0 || i >= pipeline().len() {
        None
    } else if leaves_from(pipeline()[i], agent, mode) {
        Some(pipeline()[i])
    } else {
        edge_from(agent, mode, i + 1)
    }
}

/// The edge that leaves from a task of `agent` in the mode `mode`.
pub open spec fn edge_of(agent: Seq<char>, mode: Seq<char>) -> Option<FollowUpView> {
    edge_from(agent, mode, 0)
}

/// The edge that leaves from a task of `agent` in the mode `mode`; nothing where
/// the supervisor decides what comes next.
pub fn spec_for(agent: &str, mode: &str) -> (r: Option<FollowUpSpec>)
    ensures
        match r {
            Some(e) => edge_of(agent@, mode@) == Some(e@),
            None => edge_of(agent@, mode@) is None,
        },
{
    let table = follow_up_specs();
    let n: usize = table.len();
    let mut i: usize = 0;
    while i < n
        invariant
            n == table@.len(),
            i <= n,
            edges_view(table@) == pipeline(),
            edge_from(agent@, mode@, i as int) == edge_of(agent@, mode@),
        decreases n - i,
    {
        let e = table[i];
        proof {
            assert(edges_view(table@)[i as int] == e@);
        }
        let mode_fits = match e.from_mode {
            Some(m) => str_eq(m, mode),
            None => true,
        };
        if mode_fits && str_eq(e.from_agent, agent) {
            return Some(e);
        }
        i += 1;
    }
    None
}

/// A task to queue. Its payload becomes JSON text.
#[derive(Debug)]
pub struct FollowUpTask {
    pub session_id: String,
    pub agent: String,
    pub action: String,
    pub payload: Json,
    pub priority: i64,
    pub max_attempts: i64,
}

/// What follows a finished task.
#[derive(Debug)]
pub enum FollowUpPlan {
    /// Nothing; the supervisor decides.
    Nothing,
    /// One task for each hypothesis, along this edge.
    PerHypothesis(FollowUpSpec),
    /// One task, along this edge.
    Single(FollowUpSpec),
    /// One task along this edge, for the latest experiment of the hypothesis.
    SingleLatest(FollowUpSpec, i64),
}

/// Whether `plan` is what follows a task of `agent` with the arguments `args`
/// that brought up `n` hypotheses.
pub open spec fn plan_follows(plan: FollowUpPlan, agent: Seq<char>, args: Json, n: nat) -> bool {
    match edge_of(agent, mode_of(args)) {
        None => plan is Nothing,
        Some(e) => if e.requires_hypothesis {
            if n == 0 {
                plan is Nothing
            } else {
                plan matches FollowUpPlan::PerHypothesis(s) && s@ == e
            }
        } else if e.from_mode == Some("experiment_design"@) && args.integer_at("experiment_id"@)
            is None {
            match args.integer_at("hypothesis_id"@) {
                None => plan is Nothing,
                Some(id) => plan matches FollowUpPlan::SingleLatest(s, h) && s@ == e && h == id,
            }
        } else {
            plan matches FollowUpPlan::Single(s) && s@ == e
        },
    }
}

/// What follows a task of `agent` with the arguments `args` that brought up the
/// hypotheses `hypothesis_ids`.
pub fn plan_follow_ups(agent: &str, args: &Json, hypothesis_ids: &Vec<i64>) -> (r: FollowUpPlan)
    ensures
        plan_follows(r, agent@, *args, hypothesis_ids@.len()),
{
    let mode = task_mode(args);
    match spec_for(agent, mode.as_str()) {
        None => FollowUpPlan::Nothing,
        Some(e) => {
            if e.requires_hypothesis {
                if hypothesis_ids.len() == 0 {
                    return FollowUpPlan::Nothing;
                }
                return FollowUpPlan::PerHypothesis(e);
            }
            let from_design = match e.from_mode {
                Some(m) => str_eq(m, "experiment_design"),
                None => false,
            };
            if from_design && args.i64_at("experiment_id").is_none() {
                return match args.i64_at("hypothesis_id") {
                    None => FollowUpPlan::Nothing,
                    Some(id) => FollowUpPlan::SingleLatest(e, id),
                };
            }
            FollowUpPlan::Single(e)
        },
    }
}

/// The members that every follow-up task has.
pub open spec fn base_payload(
    e: FollowUpView,
    prompt: Seq<char>,
    goal: Seq<char>,
    preferences: Seq<char>,
) -> Seq<(Seq<char>, Leaf)> {
    seq![
        ("agent"@, Leaf::Text(e.next_agent)),
        ("mode"@, Leaf::Text(e.next_mode)),
        ("prompt"@, Leaf::Text(prompt)),
        ("goal"@, Leaf::Text(goal)),
        ("preferences"@, Leaf::Text(preferences)),
    ]
}

fn base_fields(e: &FollowUpSpec, prompt: &str, goal: &str, preferences: &str) -> (r: Vec<
    (String, Json),
>)
    ensures
        leaves(r@) == base_payload(e@, prompt@, goal@, preferences@),
{
    let mut r: Vec<(String, Json)> = Vec::new();
    proof {
        assert(leaves(r@) =~= Seq::<(Seq<char>, Leaf)>::empty());
    }
    push_text(&mut r, "agent", e.next_agent);
    push_text(&mut r, "mode", e.next_mode);
    push_text(&mut r, "prompt", prompt);
    push_text(&mut r, "goal", goal);
    push_text(&mut r, "preferences", preferences);
    proof {
        assert(leaves(r@) =~= base_payload(e@, prompt@, goal@, preferences@));
    }
    r
}

/// Whether `t` goes along the edge `e` with the payload `members`.
pub open spec fn task_along(
    t: FollowUpTask,
    e: FollowUpView,
    session: Seq<char>,
    members: Seq<(Seq<char>, Leaf)>,
) -> bool {
    &&& t.session_id@ == session
    &&& t.agent@ == e.next_agent
    &&& t.action@ == "run_agent"@
    &&& is_flat(t.payload, members)
    &&& t.priority == e.priority
    &&& t.max_attempts == 3
}

fn task_with(e: &FollowUpSpec, session: &str, fields: Vec<(String, Json)>) -> (r: FollowUpTask)
    ensures
        task_along(r, e@, session@, leaves(fields@)),
{
    FollowUpTask {
        session_id: session.to_owned(),
        agent: e.next_agent.to_owned(),
        action: "run_agent".to_owned(),
        payload: Json::Object(fields),
        priority: e.priority,
        max_attempts: 3,
    }
}

/// The task that follows for one hypothesis, with its prompt.
pub fn hypothesis_task(
    e: &FollowUpSpec,
    session: &str,
    goal: &str,
    preferences: &str,
    hypothesis_id: i64,
    prompt: &str,
) -> (r: FollowUpTask)
    ensures
        task_along(
            r,
            e@,
            session@,
            base_payload(e@, prompt@, goal@, preferences@).push(
                ("hypothesis_id"@, Leaf::Whole(hypothesis_id as int)),
            ),
        ),
{
    let mut fields = base_fields(e, prompt, goal, preferences);
    push_whole(&mut fields, "hypothesis_id", hypothesis_id);
    task_with(e, session, fields)
}

/// A member with an integer, where there is one.
pub open spec fn whole_member(key: Seq<char>, n: Option<i64>) -> Seq<(Seq<char>, Leaf)> {
    match n {
        Some(k) => seq![(key, Leaf::Whole(k as int))],
        None => Seq::empty(),
    }
}

fn push_whole_if(fields: &mut Vec<(String, Json)>, key: &str, n: Option<i64>)
    ensures
        leaves(final(fields)@) == leaves(old(fields)@) + whole_member(key@, n),
{
    let ghost before = leaves(fields@);
    if let Some(k) = n {
        push_whole(fields, key, k);
    }
    proof {
        assert(leaves(fields@) =~= before + whole_member(key@, n));
    }
}

/// The one task that follows, with the experiment and the hypothesis that the
/// finished task named. Its prompt is built when it runs.
pub fn single_task(
    e: &FollowUpSpec,
    session: &str,
    goal: &str,
    preferences: &str,
    experiment_id: Option<i64>,
    hypothesis_id: Option<i64>,
) -> (r: FollowUpTask)
    ensures
        task_along(
            r,
            e@,
            session@,
            base_payload(e@, ""@, goal@, preferences@) + whole_member(
                "experiment_id"@,
                experiment_id,
            ) + whole_member("hypothesis_id"@, hypothesis_id),
        ),
{
    let mut fields = base_fields(e, "", goal, preferences);
    push_whole_if(&mut fields, "experiment_id", experiment_id);
    push_whole_if(&mut fields, "hypothesis_id", hypothesis_id);
    task_with(e, session, fields)
}

/// The tasks that follow along an edge, one for each hypothesis.
pub open spec fn fan_out(
    tasks: Seq<FollowUpTask>,
    e: FollowUpView,
    session: Seq<char>,
    goal: Seq<char>,
    preferences: Seq<char>,
    ids: Seq<i64>,
    prompts: Seq<String>,
) -> bool {
    &&& tasks.len() == ids.len()
    &&& forall|i: int|
        0 <= i < tasks.len() ==> task_along(
            #[trigger] tasks[i],
            e,
            session,
            base_payload(e, prompts[i]@, goal, preferences).push(
                ("hypothesis_id"@, Leaf::Whole(ids[i] as int)),
            ),
        )
}

/// The tasks that follow a finished one, in the order in which they are queued.
/// `prompts` holds the review prompt of each hypothesis, and `latest` the latest
/// experiment of the hypothesis where the plan asks for it.
pub fn follow_up_tasks(
    plan: &FollowUpPlan,
    session: &str,
    goal: &str,
    preferences: &str,
    args: &Json,
    hypothesis_ids: &Vec<i64>,
    prompts: &Vec<String>,
    latest: Option<i64>,
) -> (r: Vec<FollowUpTask>)
    requires
        plan is PerHypothesis ==> prompts@.len() == hypothesis_ids@.len(),
    ensures
        match *plan {
            FollowUpPlan::Nothing => r@.len() == 0,
            FollowUpPlan::PerHypothesis(e) => fan_out(
                r@,
                e@,
                session@,
                goal@,
                preferences@,
                hypothesis_ids@,
                prompts@,
            ),
            FollowUpPlan::Single(e) => r@.len() == 1 && task_along(
                r@[0],
                e@,
                session@,
                base_payload(e@, ""@, goal@, preferences@) + whole_member(
                    "experiment_id"@,
                    args.integer_at("experiment_id"@),
                ) + whole_member("hypothesis_id"@, args.integer_at("hypothesis_id"@)),
            ),
            FollowUpPlan::SingleLatest(e, hypothesis) => match latest {
                None => r@.len() == 0,
                Some(experiment) => r@.len() == 1 && task_along(
                    r@[0],
                    e@,
                    session@,
                    base_payload(e@, ""@, goal@, preferences@) + whole_member(
                        "experiment_id"@,
                        Some(experiment),
                    ) + whole_member("hypothesis_id"@, Some(hypothesis)),
                ),
            },
        },
{
    match plan {
        FollowUpPlan::Nothing => Vec::new(),
        FollowUpPlan::PerHypothesis(e) => {
            let mut out: Vec<FollowUpTask> = Vec::new();
            let mut i: usize = 0;
            while i < hypothesis_ids.len()
                invariant
                    i <= hypothesis_ids@.len(),
                    prompts@.len() == hypothesis_ids@.len(),
                    fan_out(
                        out@,
                        e@,
                        session@,
                        goal@,
                        preferences@,
                        hypothesis_ids@.take(i as int),
                        prompts@,
                    ),
                decreases hypothesis_ids.len() - i,
            {
                let ghost before = out@;
                let t = hypothesis_task(
                    e,
                    session,
                    goal,
                    preferences,
                    hypothesis_ids[i],
                    prompts[i].as_str(),
                );
                out.push(t);
                proof {
                    assert forall|k: int| 0 <= k < out@.len() implies task_along(
                        #[trigger] out@[k],
                        e@,
                        session@,
                        base_payload(e@, prompts@[k]@, goal@, preferences@).push(
                            ("hypothesis_id"@, Leaf::Whole(hypothesis_ids@.take(i + 1)[k] as int)),
                        ),
                    ) by {
                        if k < i {
                            assert(out@[k] == before[k]);
                        }
                    }
                }
                i += 1;
            }
            proof {
                assert(hypothesis_ids@.take(i as int) =~= hypothesis_ids@);
            }
            out
        },
        FollowUpPlan::Single(e) => {
            let t = single_task(
                e,
                session,
                goal,
                preferences,
                args.i64_at("experiment_id"),
                args.i64_at("hypothesis_id"),
            );
            let mut out: Vec<FollowUpTask> = Vec::new();
            out.push(t);
            out
        },
        FollowUpPlan::SingleLatest(e, hypothesis) => match latest {
            None => Vec::new(),
            Some(experiment) => {
                let t = single_task(
                    e,
                    session,
                    goal,
                    preferences,
                    Some(experiment),
                    Some(*hypothesis),
                );
                let mut out: Vec<FollowUpTask> = Vec::new();
                out.push(t);
                out
            },
        },
    }
}

// ----------------------------------------------------------------- idle edges

/// What the supervisor knows of a session when its queue has run dry.
#[derive(Debug)]
pub struct IdleState {
    pub session_id: String,
    pub goal: String,
    pub preferences: String,
    pub total_hypotheses: i64,
    pub mature_hypotheses: usize,
    pub match_count: usize,
    pub last_meta_review_at: usize,
    pub meta_review_interval: usize,
    pub min_hypotheses: usize,
    pub min_mature: usize,
    pub top_hypotheses_empty: bool,
    pub hypothesis_needing_experiment: Option<i64>,
}

/// What a task that fills an idle queue is for.
#[derive(Clone, Copy, Debug, PartialEq, Eq, Structural)]
pub enum IdlePurpose {
    RunTournamentBatch,
    EvolveTopHypotheses,
    GenerateSystemFeedback,
    DesignForHypothesis,
}

/// A task that may be queued when nothing else is.
#[derive(Clone, Copy, Debug)]
pub struct IdleSpec {
    pub label: &'static str,
    pub next_agent: &'static str,
    pub next_mode: &'static str,
    pub priority: i64,
    pub purpose: IdlePurpose,
}

impl IdlePurpose {
    /// The purposes in the order in which they are tried.
    pub open spec fn all() -> Seq<IdlePurpose> {
        seq![
            IdlePurpose::RunTournamentBatch,
            IdlePurpose::EvolveTopHypotheses,
            IdlePurpose::GenerateSystemFeedback,
            IdlePurpose::DesignForHypothesis,
        ]
    }

    /// Label, agent, mode and priority of the task.
    pub open spec fn terms(self) -> (Seq<char>, Seq<char>, Seq<char>, i64) {
        match self {
            IdlePurpose::RunTournamentBatch => (
                "ranking/RunTournamentBatch"@,
                "ranking"@,
                "ranking_pairwise"@,
                120,
            ),
            IdlePurpose::EvolveTopHypotheses => (
                "evolution/EvolveTopHypotheses"@,
                "evolution"@,
                "evolution_combine"@,
                150,
            ),
            IdlePurpose::GenerateSystemFeedback => (
                "metareview/GenerateSystemFeedback"@,
                "metareview"@,
                "metareview_system"@,
                180,
            ),
            IdlePurpose::DesignForHypothesis => (
                "experiment/DesignForHypothesis"@,
                "experiment"@,
                "experiment_design"@,
                90,
            ),
        }
    }

    /// The members that the task's payload gets besides the usual ones, where
    /// the task is due.
    pub open spec fn due(self, s: IdleState) -> Option<Seq<(Seq<char>, Leaf)>> {
        match self {
            IdlePurpose::RunTournamentBatch => if s.total_hypotheses >= s.min_hypotheses as i64 {
                Some(Seq::empty())
            } else {
                None
            },
            IdlePurpose::EvolveTopHypotheses => if s.mature_hypotheses >= s.min_mature
                && !s.top_hypotheses_empty {
                Some(Seq::empty())
            } else {
                None
            },
            IdlePurpose::GenerateSystemFeedback => if s.match_count > 0 && s.match_count
                - s.last_meta_review_at >= s.meta_review_interval {
                Some(Seq::empty())
            } else {
                None
            },
            IdlePurpose::DesignForHypothesis => match s.hypothesis_needing_experiment {
                Some(id) => Some(seq![("hypothesis_id"@, Leaf::Whole(id as int))]),
                None => None,
            },
        }
    }
}

impl IdleSpec {
    /// The purpose with its label, agent, mode and priority.
    pub open spec fn wf(self) -> bool {
        (self.label@, self.next_agent@, self.next_mode@, self.priority) == self.purpose.terms()
    }

    /// The members that the task's payload gets besides the usual ones; nothing
    /// where the task is not due.
    pub fn predicate(&self, s: &IdleState) -> (r: Option<Json>)
        requires
            self.purpose is GenerateSystemFeedback && s.match_count > 0 ==> s.last_meta_review_at
                <= s.match_count,
        ensures
            match (self.purpose.due(*s), r) {
                (Some(members), Some(v)) => is_flat(v, members),
                (None, None) => true,
                _ => false,
            },
    {
        let mut fields: Vec<(String, Json)> = Vec::new();
        proof {
            assert(leaves(fields@) =~= Seq::<(Seq<char>, Leaf)>::empty());
        }
        let is_due = match self.purpose {
            IdlePurpose::RunTournamentBatch => s.total_hypotheses >= s.min_hypotheses as i64,
            IdlePurpose::EvolveTopHypotheses => s.mature_hypotheses >= s.min_mature
                && !s.top_hypotheses_empty,
            IdlePurpose::GenerateSystemFeedback => s.match_count > 0 && s.match_count
                - s.last_meta_review_at >= s.meta_review_interval,
            IdlePurpose::DesignForHypothesis => match s.hypothesis_needing_experiment {
                Some(id) => {
                    push_whole(&mut fields, "hypothesis_id", id);
                    proof {
                        assert(leaves(fields@) =~= seq![("hypothesis_id"@, Leaf::Whole(id as int))]);
                    }
                    true
                },
                None => false,
            },
        };
        if is_due {
            Some(Json::Object(fields))
        } else {
            None
        }
    }
}

/// The tasks that may be queued when nothing else is, in the order in which
/// they are tried.
pub fn idle_specs() -> (r: Vec<IdleSpec>)
    ensures
        r@.len() == IdlePurpose::all().len(),
        forall|i: int|
            0 <= i < r@.len() ==> (#[trigger] r@[i]).wf() && r@[i].purpose
                == IdlePurpose::all()[i],
{
    vec![
        IdleSpec {
            label: "ranking/RunTournamentBatch",
            next_agent: "ranking",
            next_mode: "ranking_pairwise",
            priority: 120,
            purpose: IdlePurpose::RunTournamentBatch,
        },
        IdleSpec {
            label: "evolution/EvolveTopHypotheses",
            next_agent: "evolution",
            next_mode: "evolution_combine",
            priority: 150,
            purpose: IdlePurpose::EvolveTopHypotheses,
        },
        IdleSpec {
            label: "metareview/GenerateSystemFeedback",
            next_agent: "metareview",
            next_mode: "metareview_system",
            priority: 180,
            purpose: IdlePurpose::GenerateSystemFeedback,
        },
        IdleSpec {
            label: "experiment/DesignForHypothesis",
            next_agent: "experiment",
            next_mode: "experiment_design",
            priority: 90,
            purpose: IdlePurpose::DesignForHypothesis,
        },
    ]
}

// --------------------------------------------------------------------- slots

/// Which runner serves which agent of which session: each pair has a slot of its
/// own, handed out in the order in which the pairs come up.
#[derive(Debug)]
pub struct SessionRunners {
    keys: Vec<(String, String)>,
}

/// Sessions and agents of a list of pairs.
pub open spec fn key_views(keys: Seq<(String, String)>) -> Seq<(Seq<char>, Seq<char>)> {
    keys.map_values(|k: (String, String)| (k.0@, k.1@))
}

impl View for SessionRunners {
    type V = Seq<(Seq<char>, Seq<char>)>;

    closed spec fn view(&self) -> Seq<(Seq<char>, Seq<char>)> {
        key_views(self.keys@)
    }
}

impl SessionRunners {
    /// No pair has two slots.
    pub open spec fn wf(self) -> bool {
        forall|i: int, j: int| 0 <= i < j < self@.len() ==> self@[i] != self@[j]
    }

    /// No slot is taken.
    pub fn new() -> (r: SessionRunners)
        ensures
            r.wf(),
            r@ == Seq::<(Seq<char>, Seq<char>)>::empty(),
    {
        let r = SessionRunners { keys: Vec::new() };
        proof {
            assert(r@ =~= Seq::<(Seq<char>, Seq<char>)>::empty());
        }
        r
    }

    /// The slot of the agent in the session, and whether it was taken just now.
    pub fn get_or_build(&mut self, session_id: &str, agent_name: &str) -> (r: (usize, bool))
        requires
            old(self).wf(),
        ensures
            final(self).wf(),
            r.0 < final(self)@.len(),
            final(self)@[r.0 as int] == (session_id@, agent_name@),
            r.1 == !old(self)@.contains((session_id@, agent_name@)),
            final(self)@ == (if r.1 {
                old(self)@.push((session_id@, agent_name@))
            } else {
                old(self)@
            }),
    {
        let ghost key = (session_id@, agent_name@);
        let n: usize = self.keys.len();
        let mut i: usize = 0;
        while i < n
            invariant
                n == self.keys@.len(),
                i <= n,
                key == (session_id@, agent_name@),
                self@ == old(self)@,
                self.wf(),
                forall|j: int| 0 <= j < i ==> self@[j] != key,
            decreases n - i,
        {
            if str_eq(self.keys[i].0.as_str(), session_id) && str_eq(
                self.keys[i].1.as_str(),
                agent_name,
            ) {
                proof {
                    assert(self@[i as int] == key);
                }
                return (i, false);
            }
            i += 1;
        }
        self.keys.push((session_id.to_owned(), agent_name.to_owned()));
        proof {
            assert(self@ =~= old(self)@.push(key));
        }
        (n, true)
    }

    /// How many slots are taken.
    pub fn _len(&self) -> (r: usize)
        ensures
            r == self@.len(),
    {
        self.keys.len()
    }

    /// Gives up all slots.
    pub fn _clear(&mut self)
        ensures
            final(self).wf(),
            final(self)@ == Seq::<(Seq<char>, Seq<char>)>::empty(),
    {
        self.keys = Vec::new();
        proof {
            assert(self@ =~= Seq::<(Seq<char>, Seq<char>)>::empty());
        }
    }
}

// ----------------------------------------------------------------- admission

/// Why a task is turned away before any turn.
#[derive(Debug)]
pub enum TaskError {
    NoAgent,
    NoPrompt,
    UnknownAgent(String),
    UnknownMode(String),
    Mismatch { agent: String, mode: String, cause: PairError },
}

impl TaskError {
    /// The reason in words.
    pub open spec fn text(self) -> Seq<char> {
        match self {
            TaskError::NoAgent => "run_agent: missing 'agent'"@,
            TaskError::NoPrompt => "run_agent: missing 'prompt'"@,
            TaskError::UnknownAgent(name) => "unknown agent: "@ + name@,
            TaskError::UnknownMode(mode) => "run_agent: unknown mode `"@ + mode@ + "`"@,
            TaskError::Mismatch { agent, mode, .. } => "prompt ↔ allowlist mismatch (agent="@ + agent@
                + ", mode="@ + mode@ + ")"@,
        }
    }

    /// The reason in words.
    pub fn message(&self) -> (r: String)
        ensures
            r@ == self.text(),
    {
        match self {
            TaskError::NoAgent => "run_agent: missing 'agent'".to_owned(),
            TaskError::NoPrompt => "run_agent: missing 'prompt'".to_owned(),
            TaskError::UnknownAgent(name) => {
                let mut r: String = "unknown agent: ".to_owned();
                r.append(name.as_str());
                r
            },
            TaskError::UnknownMode(mode) => {
                let mut r: String = "run_agent: unknown mode `".to_owned();
                r.append(mode.as_str());
                r.append("`");
                r
            },
            TaskError::Mismatch { agent, mode, .. } => {
                let mut r: String = "prompt ↔ allowlist mismatch (agent=".to_owned();
                r.append(agent.as_str());
                r.append(", mode=");
                r.append(mode.as_str());
                r.append(")");
                r
            },
        }
    }
}

/// A task that may run. Where its prompt is empty, it is built from what is
/// known of the session.
#[derive(Debug)]
pub struct AcceptedTask {
    pub agent: Agent,
    pub prompt: String,
}

/// Whether an agent has the name `name`.
pub open spec fn agent_known(name: Seq<char>) -> bool {
    exists|i: int| 0 <= i < all_agents().len() && (#[trigger] all_agents()[i]).name == name
}

/// Whether some mode has the name `name`.
pub open spec fn mode_known(name: Seq<char>) -> bool {
    exists|m: AgentMode| #[trigger] m.spec_filename() == name
}

/// The mode with the name `name`.
pub open spec fn mode_named(name: Seq<char>) -> AgentMode {
    choose|m: AgentMode| #[trigger] m.spec_filename() == name
}

/// Decides whether a task may run: it names a known agent and holds a prompt,
/// and the mode, where it names one, is a mode of that agent whose template asks
/// only for tools of that agent.
pub fn accept_task(args: &Json, table: &PromptToolTable) -> (r: Result<AcceptedTask, TaskError>)
    requires
        table.wf(),
    ensures
        match (args.text_at("agent"@), args.text_at("prompt"@)) {
            (None, _) => r matches Err(TaskError::NoAgent),
            (Some(_), None) => r matches Err(TaskError::NoPrompt),
            (Some(agent), Some(prompt)) => {
                let mode = mode_of(*args);
                if !agent_known(agent) {
                    r matches Err(TaskError::UnknownAgent(name)) && name@ == agent
                } else if mode.len() > 0 && !mode_known(mode) {
                    r matches Err(TaskError::UnknownMode(name)) && name@ == mode
                } else if mode.len() > 0 && pair_fault(
                    agent,
                    mode_named(mode),
                    table.tools(mode_named(mode)),
                ) is Some {
                    r matches Err(TaskError::Mismatch { agent: a, mode: m, cause }) && a@ == agent
                        && m@ == mode && pair_fault(
                        agent,
                        mode_named(mode),
                        table.tools(mode_named(mode)),
                    ) == Some(cause@)
                } else {
                    r matches Ok(t) && t.agent@.name == agent && all_agents().contains(t.agent@)
                        && t.prompt@ == prompt
                }
            },
        },
{
    let agent_name = match args.str_at("agent") {
        Some(s) => s,
        None => {
            return Err(TaskError::NoAgent);
        },
    };
    let prompt = match args.str_at("prompt") {
        Some(s) => s,
        None => {
            return Err(TaskError::NoPrompt);
        },
    };
    let agent = match agents::find_agent(agent_name.as_str()) {
        Some(a) => a,
        None => {
            return Err(TaskError::UnknownAgent(agent_name));
        },
    };
    proof {
        let k = choose|k: int| 0 <= k < all_agents().len() && all_agents()[k] == agent@;
        assert(all_agents()[k].name == agent_name@);
        assert(agent_known(agent_name@));
    }
    let mode_name = task_mode(args);
    if mode_name.as_str().is_empty() {
        return Ok(AcceptedTask { agent, prompt });
    }
    let mode = match AgentMode::from_filename(mode_name.as_str()) {
        Some(m) => m,
        None => {
            return Err(TaskError::UnknownMode(mode_name));
        },
    };
    proof {
        assert(mode.spec_filename() == mode_name@);
        crate::prompts::law_filenames_are_distinct(mode, mode_named(mode_name@));
    }
    match table.validate_pair(agent_name.as_str(), mode) {
        Ok(_) => Ok(AcceptedTask { agent, prompt }),
        Err(cause) => Err(TaskError::Mismatch { agent: agent_name, mode: mode_name, cause }),
    }
}

// ------------------------------------------------------------------- retries

/// How often a ranking turn without a recorded match is tried again.
pub const RANKING_MAX_RETRIES: u32 = 2;

/// Which retry comes next, after `retries` of them, when the turns so far
/// dispatched `dispatched` calls.
pub open spec fn retry_after(agent: Seq<char>, dispatched: u32, retries: u32) -> Option<u32> {
    if agent == "ranking"@ && dispatched == 0 && retries < RANKING_MAX_RETRIES {
        Some((retries + 1) as u32)
    } else {
        None
    }
}

/// Which retry comes next, after `retries` of them; nothing where the turn is
/// done.
pub fn next_retry(agent: &str, dispatched: u32, retries: u32) -> (r: Option<u32>)
    ensures
        r == retry_after(agent@, dispatched, retries),
{
    if str_eq(agent, "ranking") && dispatched == 0 && retries < RANKING_MAX_RETRIES {
        Some(retries + 1)
    } else {
        None
    }
}

/// The outcome of a turn together with that of a retry: it counts only where it
/// dispatched something.
pub fn absorb_retry(outcome: TurnOutcome, retry: TurnOutcome) -> (r: TurnOutcome)
    requires
        outcome.dispatched + retry.dispatched <= u32::MAX,
    ensures
        retry.dispatched == 0 ==> r == outcome,
        retry.dispatched > 0 ==> {
            &&& r.cleaned_text@ == outcome.cleaned_text@ + "\n"@ + retry.cleaned_text@
            &&& r.markers@ == outcome.markers@ + retry.markers@
            &&& r.dispatched == outcome.dispatched + retry.dispatched
        },
{
    if retry.dispatched == 0 {
        return outcome;
    }
    let mut cleaned_text = outcome.cleaned_text;
    cleaned_text.append("\n");
    cleaned_text.append(retry.cleaned_text.as_str());
    let mut markers = outcome.markers;
    let mut more = retry.markers;
    markers.append(&mut more);
    TurnOutcome { cleaned_text, markers, dispatched: outcome.dispatched + retry.dispatched }
}

/// The text of a retry behind the prompt of the first turn, up to its number.
pub const RETRY_HEAD: &'static str = "\n\n---\n\n## Retry ";

/// The text of a retry from its number on.
pub const RETRY_TAIL: &'static str =
    " — your previous marker was rejected\n\nThe marker you emitted in your last response was not accepted. The most likely reasons, in order of observed frequency:\n\n1. **Wrong op name.** The op name slot must be exactly `record_tournament_match`. It must NOT be `memory_op`, `MEMORY_OP`, or any other name. `MEMORY_OP` is the marker prefix that already appears in the syntax — putting it in the op name slot is the most common mistake.\n2. **Wrong payload schema.** The payload must be a JSON object with EXACTLY these four fields and no others:\n- `hypothesis_a` (integer) — the first hypothesis ID from the prompt above\n- `hypothesis_b` (integer) — the second hypothesis ID from the prompt above\n- `winner` (integer) — `1` if hypothesis_a wins, `2` if hypothesis_b wins, `0` for a draw. Must be an integer, not a string.\n- `rationale` (string) — your reasoning explaining the decision.\n3. **Wrapped the marker.** Do not put the marker inside code fences, quotes, or any other delimiter. Just emit it as a line on its own.\n\nPlease re-emit ONE marker, on its own line, in exactly this shape (substituting the actual hypothesis IDs from the prompt above):\n\n```\n[[MEMORY_OP:record_tournament_match:{\"hypothesis_a\":<ID1>,\"hypothesis_b\":<ID2>,\"winner\":<1 or 2>,\"rationale\":\"<your reasoning>\"}]]\n```";

/// The prompt of a ranking retry: the prompt of the first turn, and how the
/// marker has to be written.
pub fn build_ranking_retry_prompt(first_prompt: &str, attempt: u32) -> (r: String)
    ensures
        r@ == first_prompt@ + RETRY_HEAD@ + decimal(attempt as nat) + "/"@ + decimal(
            RANKING_MAX_RETRIES as nat,
        ) + RETRY_TAIL@,
{
    let mut out: String = first_prompt.to_owned();
    out.append(RETRY_HEAD);
    out.append(show_u64(attempt as u64).as_str());
    out.append("/");
    out.append(show_u64(RANKING_MAX_RETRIES as u64).as_str());
    out.append(RETRY_TAIL);
    out
}

// ------------------------------------------------------------------------ ids

/// What the markers of a turn brought up.
#[derive(Debug)]
pub struct MarkerIds {
    pub hypotheses: Vec<i64>,
    pub reviews: Vec<i64>,
    /// Semantic notes that may stand for a hypothesis.
    pub saved: Vec<i64>,
}

impl MarkerIds {
    /// Nothing yet.
    pub fn new() -> (r: MarkerIds)
        ensures
            r.hypotheses@.len() == 0,
            r.reviews@.len() == 0,
            r.saved@.len() == 0,
    {
        MarkerIds { hypotheses: Vec::new(), reviews: Vec::new(), saved: Vec::new() }
    }

    /// Takes in one marker. `latest` is the latest hypothesis of the session,
    /// which a marker that records a hypothesis stands for.
    pub fn note(&mut self, op: &str, payload: &Json, latest: Option<i64>)
        ensures
            final(self).hypotheses@ == with_id(old(self).hypotheses@, recorded(op@, latest)),
            final(self).saved@ == with_id(old(self).saved@, saved_note(op@, *payload)),
            final(self).reviews@ == with_id(old(self).reviews@, reviewed(op@, *payload)),
    {
        proof {
            reveal_strlit("record_hypothesis");
            reveal_strlit("save_semantic");
            reveal_strlit("record_review");
            assert("record_hypothesis"@.len() == 17 && "save_semantic"@.len() == 13);
            assert("record_review"@[0] == 'r' && "save_semantic"@[0] == 's');
            assert("record_review"@.len() == 13);
        }
        if str_eq(op, "record_hypothesis") {
            if let Some(id) = latest {
                self.hypotheses.push(id);
            }
        } else if str_eq(op, "save_semantic") {
            if let Some(id) = payload.i64_at("id") {
                self.saved.push(id);
            }
        } else if str_eq(op, "record_review") {
            if let Some(id) = payload.i64_at("hypothesis_id") {
                self.reviews.push(id);
            }
        }
    }

    /// What the markers of a turn brought up, in their order. `payloads` holds
    /// the arguments of each.
    pub fn gather(markers: &Vec<Marker>, payloads: &Vec<Json>, latest: Option<i64>) -> (r: MarkerIds)
        requires
            payloads@.len() == markers@.len(),
        ensures
            r.hypotheses@ == recorded_upto(markers@, latest, markers@.len()),
            r.saved@ == saved_upto(markers@, payloads@, markers@.len()),
            r.reviews@ == reviewed_upto(markers@, payloads@, markers@.len()),
    {
        let mut r = MarkerIds::new();
        let n: usize = markers.len();
        let mut i: usize = 0;
        while i < n
            invariant
                n == markers@.len(),
                n == payloads@.len(),
                i <= n,
                r.hypotheses@ == recorded_upto(markers@, latest, i as nat),
                r.saved@ == saved_upto(markers@, payloads@, i as nat),
                r.reviews@ == reviewed_upto(markers@, payloads@, i as nat),
            decreases n - i,
        {
            r.note(markers[i].op.as_str(), &payloads[i], latest);
            i += 1;
        }
        r
    }

    /// Takes in the hypotheses that the saved notes stand for.
    pub fn take_links(&mut self, links: &Vec<SemanticLink>)
        ensures
            final(self).hypotheses@ == old(self).hypotheses@ + linked_ids(links@, links@.len()),
            final(self).saved@ == old(self).saved@,
            final(self).reviews@ == old(self).reviews@,
    {
        let ghost before = self.hypotheses@;
        let n: usize = links.len();
        let mut i: usize = 0;
        proof {
            assert(before + linked_ids(links@, 0) =~= before);
        }
        while i < n
            invariant
                n == links@.len(),
                i <= n,
                self.hypotheses@ == before + linked_ids(links@, i as nat),
                self.saved@ == old(self).saved@,
                self.reviews@ == old(self).reviews@,
            decreases n - i,
        {
            if let Some(id) = links[i].hypothesis() {
                self.hypotheses.push(id);
            }
            proof {
                assert(self.hypotheses@ =~= before + linked_ids(links@, (i + 1) as nat));
            }
            i += 1;
        }
    }

    /// Whether the semantic notes of a turn are to be looked at as hypotheses:
    /// a generation turn recorded none, but saved notes.
    pub fn looks_at_saved(&self, agent: &str) -> (r: bool)
        ensures
            r == (agent@ == "generation"@ && self.hypotheses@.len() == 0 && self.saved@.len() > 0),
    {
        str_eq(agent, "generation") && self.hypotheses.len() == 0 && self.saved.len() > 0
    }
}

/// The hypothesis that a marker records.
pub open spec fn recorded(op: Seq<char>, latest: Option<i64>) -> Option<i64> {
    if op == "record_hypothesis"@ {
        latest
    } else {
        None
    }
}

/// The semantic note that a marker saved.
pub open spec fn saved_note(op: Seq<char>, payload: Json) -> Option<i64> {
    if op == "save_semantic"@ {
        payload.integer_at("id"@)
    } else {
        None
    }
}

/// The hypothesis that a marker reviews.
pub open spec fn reviewed(op: Seq<char>, payload: Json) -> Option<i64> {
    if op == "record_review"@ {
        payload.integer_at("hypothesis_id"@)
    } else {
        None
    }
}

/// The hypotheses that the first `n` markers record.
pub open spec fn recorded_upto(markers: Seq<Marker>, latest: Option<i64>, n: nat) -> Seq<i64>
    decreases n,
{
    if n == 0 {
        Seq::empty()
    } else {
        with_id(
            recorded_upto(markers, latest, (n - 1) as nat),
            recorded(markers[n - 1].op@, latest),
        )
    }
}

/// The semantic notes that the first `n` markers saved.
pub open spec fn saved_upto(markers: Seq<Marker>, payloads: Seq<Json>, n: nat) -> Seq<i64>
    decreases n,
{
    if n == 0 {
        Seq::empty()
    } else {
        with_id(
            saved_upto(markers, payloads, (n - 1) as nat),
            saved_note(markers[n - 1].op@, payloads[n - 1]),
        )
    }
}

/// The hypotheses that the first `n` markers review.
pub open spec fn reviewed_upto(markers: Seq<Marker>, payloads: Seq<Json>, n: nat) -> Seq<i64>
    decreases n,
{
    if n == 0 {
        Seq::empty()
    } else {
        with_id(
            reviewed_upto(markers, payloads, (n - 1) as nat),
            reviewed(markers[n - 1].op@, payloads[n - 1]),
        )
    }
}

/// The hypotheses that the first `n` notes stand for.
pub open spec fn linked_ids(links: Seq<SemanticLink>, n: nat) -> Seq<i64>
    decreases n,
{
    if n == 0 {
        Seq::empty()
    } else {
        with_id(linked_ids(links, (n - 1) as nat), links[n - 1].id())
    }
}

/// A list with one more entry, where there is one.
pub open spec fn with_id(ids: Seq<i64>, id: Option<i64>) -> Seq<i64> {
    match id {
        Some(n) => ids.push(n),
        None => ids,
    }
}

/// What became of a semantic note of a generation turn.
#[derive(Clone, Copy, Debug, PartialEq, Eq, Structural)]
pub enum SemanticLink {
    /// It is no hypothesis.
    Skip,
    /// This hypothesis was made from it before.
    Existing(i64),
    /// This hypothesis was made from it now; the scope of the note becomes that
    /// of a hypothesis.
    Promoted(i64),
    /// There is no id left for a hypothesis.
    NoRoom,
}

impl SemanticLink {
    /// The hypothesis that the note stands for.
    pub open spec fn id(self) -> Option<i64> {
        match self {
            SemanticLink::Existing(id) => Some(id),
            SemanticLink::Promoted(id) => Some(id),
            _ => None,
        }
    }

    /// The hypothesis that the note stands for.
    pub fn hypothesis(&self) -> (r: Option<i64>)
        ensures
            r == self.id(),
    {
        match self {
            SemanticLink::Existing(id) => Some(*id),
            SemanticLink::Promoted(id) => Some(*id),
            _ => None,
        }
    }
}

/// The first hypothesis from `i` on that was made from the note.
pub open spec fn linked_from(hyps: Seq<HypothesisView>, note: i64, i: int) -> Option<i64>
    decreases hyps.len() - i,
{
    if i < 0 || i >= hyps.len() {
        None
    } else if hyps[i].semantic_id == Some(note) {
        Some(hyps[i].id)
    } else {
        linked_from(hyps, note, i + 1)
    }
}

/// Whether notes of this scope can stand for a hypothesis.
pub open spec fn may_be_hypothesis(scope: Option<Seq<char>>) -> bool {
    scope == Some("hypothesis"@) || scope == Some("insight"@)
}

/// Whether the note stands for the hypothesis `id` of the session: in a list of
/// its hypotheses by rating it is the first one made from the note; `None` where
/// there is none.
pub open spec fn stands_for(
    rows: Seq<HypothesisView>,
    session: Seq<char>,
    note: i64,
    id: Option<i64>,
) -> bool {
    exists|out: Seq<HypothesisView>| #[trigger]
        lists_in_order(wanted(rows, session, Wanted::All), Ordered::ByRating, out) && linked_from(
            out,
            note,
            0,
        ) == id
}

/// The first of these hypotheses that was made from the note.
fn linked(hyps: &Vec<Hypothesis>, note: i64) -> (r: Option<i64>)
    ensures
        r == linked_from(hyps_view(hyps@), note, 0),
{
    let n: usize = hyps.len();
    let mut i: usize = 0;
    while i < n
        invariant
            n == hyps@.len(),
            i <= n,
            linked_from(hyps_view(hyps@), note, i as int) == linked_from(
                hyps_view(hyps@),
                note,
                0,
            ),
        decreases n - i,
    {
        proof {
            assert(hyps_view(hyps@)[i as int] == hyps@[i as int]@);
        }
        if let Some(sid) = hyps[i].semantic_id {
            if sid == note {
                return Some(hyps[i].id);
            }
        }
        i += 1;
    }
    None
}

/// Whether `link` is what becomes of the note `note` with the scope `scope`, and
/// `after` what the hypotheses `before` become. A new hypothesis has the rating
/// `elo`.
pub open spec fn links(
    before: RepoView,
    after: RepoView,
    scope: Option<Seq<char>>,
    note: i64,
    session: Seq<char>,
    elo: i64,
    at: Seq<char>,
    link: SemanticLink,
) -> bool {
    match link {
        SemanticLink::Skip => !may_be_hypothesis(scope) && after == before,
        SemanticLink::Existing(id) => {
            &&& may_be_hypothesis(scope)
            &&& stands_for(before.rows, session, note, Some(id))
            &&& after == before
        },
        SemanticLink::Promoted(id) => {
            &&& may_be_hypothesis(scope)
            &&& stands_for(before.rows, session, note, None)
            &&& id == before.last_id + 1
            &&& after == (RepoView {
                rows: before.rows.push(
                    drafted(id, session, Some(note), Seq::empty(), elo, at),
                ),
                last_id: id,
            })
        },
        SemanticLink::NoRoom => {
            &&& may_be_hypothesis(scope)
            &&& stands_for(before.rows, session, note, None)
            &&& before.last_id == i64::MAX
            &&& after == before
        },
    }
}

/// Whether this is what becomes of the note at some time.
pub open spec fn links_now(
    before: RepoView,
    after: RepoView,
    scope: Option<Seq<char>>,
    note: i64,
    session: Seq<char>,
    elo: i64,
    link: SemanticLink,
) -> bool {
    exists|at: Seq<char>| #[trigger] links(before, after, scope, note, session, elo, at, link)
}

/// Sees to it that the semantic note `note` of the session stands for a
/// hypothesis, where its scope allows that. A new hypothesis has the rating
/// `initial_elo`.
pub fn ensure_hypothesis_for_semantic(
    repo: &mut HypothesisRepo,
    scope: &Option<String>,
    note: i64,
    session_id: &str,
    initial_elo: i64,
) -> (r: SemanticLink)
    ensures
        links_now(
            old(repo)@,
            final(repo)@,
            opt_view(*scope),
            note,
            session_id@,
            initial_elo,
            r,
        ),
{
    let ghost before = repo@;
    let ghost kind = opt_view(*scope);
    let ghost never = Seq::<char>::empty();
    let fits = match scope {
        Some(s) => str_eq(s.as_str(), "hypothesis") || str_eq(s.as_str(), "insight"),
        None => false,
    };
    if !fits {
        let r = SemanticLink::Skip;
        proof {
            assert(links(before, repo@, kind, note, session_id@, initial_elo, never, r));
        }
        return r;
    }
    let hyps = repo.list_by_session(session_id);
    match linked(&hyps, note) {
        Some(id) => {
            let r = SemanticLink::Existing(id);
            proof {
                assert(links(before, repo@, kind, note, session_id@, initial_elo, never, r));
            }
            r
        },
        None => {
            let none: [i64; 0] = [];
            proof {
                assert(none@ =~= Seq::<i64>::empty());
            }
            let added = repo.insert(session_id, Some(note), none.as_slice(), initial_elo);
            let r = match added {
                Some(id) => SemanticLink::Promoted(id),
                None => SemanticLink::NoRoom,
            };
            proof {
                let at = choose|at: Seq<char>| #[trigger]
                    inserts(
                        before,
                        session_id@,
                        Some(note),
                        Seq::empty(),
                        initial_elo,
                        at,
                        repo@,
                        added,
                    );
                assert(links(before, repo@, kind, note, session_id@, initial_elo, at, r));
            }
            r
        },
    }
}

/// Whether the hypotheses went through `states` while the saved notes were
/// looked at one after the other, and `found` is what became of each.
pub open spec fn links_through(
    states: Seq<RepoView>,
    saved: Seq<i64>,
    scopes: Seq<Option<String>>,
    session: Seq<char>,
    elo: i64,
    found: Seq<SemanticLink>,
) -> bool {
    &&& states.len() == found.len() + 1
    &&& found.len() <= saved.len()
    &&& found.len() <= scopes.len()
    &&& forall|i: int|
        0 <= i < found.len() ==> links_now(
            states[i],
            states[i + 1],
            opt_view(scopes[i]),
            saved[i],
            session,
            elo,
            #[trigger] found[i],
        )
}

/// Looks at the saved notes one after the other, and says what became of each.
/// `scopes` holds the scope of each note.
pub fn link_saved(
    repo: &mut HypothesisRepo,
    saved: &Vec<i64>,
    scopes: &Vec<Option<String>>,
    session_id: &str,
    initial_elo: i64,
) -> (r: Vec<SemanticLink>)
    requires
        scopes@.len() == saved@.len(),
    ensures
        r@.len() == saved@.len(),
        exists|states: Seq<RepoView>| #[trigger]
            links_through(
                states,
                saved@,
                scopes@,
                session_id@,
                initial_elo,
                r@,
            ) && states[0] == old(repo)@ && states.last() == final(repo)@,
{
    let mut r: Vec<SemanticLink> = Vec::new();
    let ghost mut states = seq![repo@];
    let n: usize = saved.len();
    let mut i: usize = 0;
    while i < n
        invariant
            n == saved@.len(),
            n == scopes@.len(),
            i <= n,
            r@.len() == i,
            links_through(
                states,
                saved@,
                scopes@,
                session_id@,
                initial_elo,
                r@,
            ),
            states[0] == old(repo)@,
            states.last() == repo@,
        decreases n - i,
    {
        let ghost before = states;
        let ghost found = r@;
        let link = ensure_hypothesis_for_semantic(
            repo,
            &scopes[i],
            saved[i],
            session_id,
            initial_elo,
        );
        r.push(link);
        proof {
            states = states.push(repo@);
            assert forall|k: int| 0 <= k < r@.len() implies links_now(
                states[k],
                states[k + 1],
                opt_view(scopes@[k]),
                saved@[k],
                session_id@,
                initial_elo,
                #[trigger] r@[k],
            ) by {
                if k < i {
                    assert(r@[k] == found[k]);
                    assert(states[k] == before[k] && states[k + 1] == before[k + 1]);
                }
            }
        }
        i += 1;
    }
    r
}

/// A note becomes a hypothesis only once: where no hypothesis of the session was
/// made from it, and one is made, the note stands for that one from then on.
pub proof fn law_note_is_promoted_once(
    rows: Seq<HypothesisView>,
    session: Seq<char>,
    note: i64,
    row: HypothesisView,
    id: Option<i64>,
)
    requires
        row.session_id == session,
        row.semantic_id == Some(note),
        stands_for(rows, session, note, None),
        stands_for(rows.push(row), session, note, id),
    ensures
        id == Some(row.id),
{
    let own = wanted(rows, session, Wanted::All);
    let now = wanted(rows.push(row), session, Wanted::All);
    assert(rows.push(row).drop_last() =~= rows);
    assert(now == own.push(row));
    let before = choose|out: Seq<HypothesisView>| #[trigger]
        lists_in_order(own, Ordered::ByRating, out) && linked_from(out, note, 0) is None;
    let out = choose|out: Seq<HypothesisView>| #[trigger]
        lists_in_order(now, Ordered::ByRating, out) && linked_from(out, note, 0) == id;
    own.to_multiset_ensures();
    now.to_multiset_ensures();
    before.to_multiset_ensures();
    out.to_multiset_ensures();
    assert(now[now.len() - 1] == row);
    assert(now.contains(row));
    assert(now.to_multiset().count(row) > 0);
    assert(out.contains(row));
    let k = choose|k: int| 0 <= k < out.len() && out[k] == row;
    lemma_linked(out, note, 0, k);
    let at = lemma_linked_at(out, note, 0);
    let x = out[at];
    assert(out.contains(x));
    assert(out.to_multiset().count(x) > 0);
    assert(now.contains(x));
    let j = choose|j: int| 0 <= j < now.len() && now[j] == x;
    if j < own.len() {
        assert(own[j] == x);
        assert(own.contains(x));
        assert(own.to_multiset().count(x) > 0);
        assert(before.contains(x));
        let b = choose|b: int| 0 <= b < before.len() && before[b] == x;
        lemma_linked(before, note, 0, b);
    }
}

/// A note that stands for a hypothesis stands for one of its session that was
/// made from it.
pub proof fn law_linked_note_has_hypothesis(
    before: RepoView,
    after: RepoView,
    scope: Option<Seq<char>>,
    note: i64,
    session: Seq<char>,
    elo: i64,
    at: Seq<char>,
    link: SemanticLink,
)
    requires
        links(before, after, scope, note, session, elo, at, link),
    ensures
        link.id() matches Some(id) ==> exists|i: int|
            0 <= i < after.rows.len() && (#[trigger] after.rows[i]).id == id
                && after.rows[i].session_id == session && after.rows[i].semantic_id == Some(note),
{
    match link {
        SemanticLink::Existing(id) => {
            let own = wanted(before.rows, session, Wanted::All);
            let out = choose|out: Seq<HypothesisView>| #[trigger]
                lists_in_order(own, Ordered::ByRating, out) && linked_from(out, note, 0) == Some(
                    id,
                );
            let k = lemma_linked_at(out, note, 0);
            own.to_multiset_ensures();
            out.to_multiset_ensures();
            assert(out.contains(out[k]));
            assert(own.to_multiset().count(out[k]) > 0);
            assert(own.contains(out[k]));
            let j = choose|j: int| 0 <= j < own.len() && own[j] == out[k];
            lemma_wanted_are_rows(before.rows, session, j);
        },
        SemanticLink::Promoted(id) => {
            assert(after.rows[after.rows.len() - 1].id == id);
        },
        _ => {},
    }
}

proof fn lemma_wanted_are_rows(rows: Seq<HypothesisView>, session: Seq<char>, j: int)
    requires
        0 <= j < wanted(rows, session, Wanted::All).len(),
    ensures
        exists|i: int|
            0 <= i < rows.len() && #[trigger] rows[i] == wanted(rows, session, Wanted::All)[j],
        wanted(rows, session, Wanted::All)[j].session_id == session,
    decreases rows.len(),
{
    let rest = wanted(rows.drop_last(), session, Wanted::All);
    if j < rest.len() {
        lemma_wanted_are_rows(rows.drop_last(), session, j);
        let i = choose|i: int|
            0 <= i < rows.drop_last().len() && #[trigger] rows.drop_last()[i] == rest[j];
        assert(rows[i] == rest[j]);
    } else {
        assert(rows[rows.len() - 1] == wanted(rows, session, Wanted::All)[j]);
    }
}

proof fn lemma_linked(hyps: Seq<HypothesisView>, note: i64, i: int, k: int)
    requires
        0 <= i <= k < hyps.len(),
        hyps[k].semantic_id == Some(note),
    ensures
        linked_from(hyps, note, i) is Some,
    decreases hyps.len() - i,
{
    if hyps[i].semantic_id != Some(note) {
        lemma_linked(hyps, note, i + 1, k);
    }
}

proof fn lemma_linked_at(hyps: Seq<HypothesisView>, note: i64, i: int) -> (k: int)
    requires
        0 <= i,
        linked_from(hyps, note, i) is Some,
    ensures
        i <= k < hyps.len(),
        hyps[k].semantic_id == Some(note),
        linked_from(hyps, note, i) == Some(hyps[k].id),
    decreases hyps.len() - i,
{
    if hyps[i].semantic_id == Some(note) {
        i
    } else {
        lemma_linked_at(hyps, note, i + 1)
    }
}

// --------------------------------------------------------------------- report

/// Whether a value is the list of these integers.
pub open spec fn lists(v: Json, ids: Seq<i64>) -> bool {
    match v {
        Json::Array(items) => items@.len() == ids.len() && forall|i: int|
            0 <= i < ids.len() ==> (#[trigger] items@[i]).integer() == Some(ids[i]),
        _ => false,
    }
}

fn id_list(ids: &Vec<i64>) -> (r: Json)
    ensures
        lists(r, ids@),
{
    let mut items: Vec<Json> = Vec::new();
    let mut i: usize = 0;
    while i < ids.len()
        invariant
            i <= ids@.len(),
            items@.len() == i,
            forall|k: int| 0 <= k < i ==> (#[trigger] items@[k]).integer() == Some(ids@[k]),
        decreases ids.len() - i,
    {
        let n: i64 = ids[i];
        let number = if n >= 0 {
            Number::PosInt(n as u64)
        } else {
            Number::NegInt(n)
        };
        items.push(Json::Number(number));
        i += 1;
    }
    Json::Array(items)
}

/// What a finished task reports.
pub fn call_report(outcome: &TurnOutcome, hypothesis_ids: &Vec<i64>, review_ids: &Vec<i64>) -> (r: Json)
    ensures
        r.text_at("cleaned_text"@) == Some(outcome.cleaned_text@),
        r.spec_get("markers_dispatched"@) == Some(
            Json::Number(Number::PosInt(outcome.markers@.len() as u64)),
        ),
        r.spec_get("hypothesis_ids"@) matches Some(v) && lists(v, hypothesis_ids@),
        r.spec_get("review_ids"@) matches Some(v) && lists(v, review_ids@),
        r matches Json::Object(fields) && fields@.len() == 4,
{
    proof {
        reveal_strlit("cleaned_text");
        reveal_strlit("markers_dispatched");
        reveal_strlit("hypothesis_ids");
        reveal_strlit("review_ids");
        assert("cleaned_text"@.len() == 12 && "markers_dispatched"@.len() == 18);
        assert("hypothesis_ids"@.len() == 14 && "review_ids"@.len() == 10);
        reveal_with_fuel(crate::json::member_from, 5);
    }
    Json::Object(
        vec![
            ("cleaned_text".to_owned(), Json::Str(outcome.cleaned_text.as_str().to_owned())),
            (
                "markers_dispatched".to_owned(),
                Json::Number(Number::PosInt(outcome.markers.len() as u64)),
            ),
            ("hypothesis_ids".to_owned(), id_list(hypothesis_ids)),
            ("review_ids".to_owned(), id_list(review_ids)),
        ],
    )
}

// ------------------------------------------------------------------- the tool

/// The name under which tasks run an agent.
pub const RUN_AGENT_NAME: &'static str = "run_agent";

/// What the tool does.
pub const RUN_AGENT_DESCRIPTION: &'static str =
    "Execute an agent turn: call the LLM with the agent's system prompt, parse tool markers from the response, dispatch them, and enqueue follow-up tasks for the next pipeline stage.";

/// Name, type and description of each argument of the tool.
pub open spec fn arguments() -> Seq<(Seq<char>, Seq<char>, Seq<char>)> {
    seq![
        (
            "agent"@,
            "string"@,
            "Agent name (supervisor, generation, reflection, ranking, evolution, metareview)."@,
        ),
        (
            "mode"@,
            "string"@,
            "Prompt mode filename (e.g. generation_literature, reflection_review)."@,
        ),
        ("prompt"@, "string"@, "The rendered user prompt for this turn."@),
        ("hypothesis_id"@, "integer"@, "Optional hypothesis ID for review/ranking tasks."@),
        ("goal"@, "string"@, "The research goal."@),
        ("preferences"@, "string"@, "User preferences/criteria."@),
    ]
}

/// Whether a member of a schema describes this argument.
pub open spec fn describes(
    entry: (String, Json),
    argument: (Seq<char>, Seq<char>, Seq<char>),
) -> bool {
    &&& entry.0@ == argument.0
    &&& is_flat(
        entry.1,
        seq![("type"@, Leaf::Text(argument.1)), ("description"@, Leaf::Text(argument.2))],
    )
}

fn argument(name: &str, kind: &str, description: &str) -> (r: (String, Json))
    ensures
        describes(r, (name@, kind@, description@)),
{
    let mut fields: Vec<(String, Json)> = Vec::new();
    push_text(&mut fields, "type", kind);
    push_text(&mut fields, "description", description);
    proof {
        assert(leaves(fields@) =~= seq![
            ("type"@, Leaf::Text(kind@)),
            ("description"@, Leaf::Text(description@)),
        ]);
    }
    (name.to_owned(), Json::Object(fields))
}

/// The schema of the tool's arguments; an agent and a prompt are required.
pub fn input_schema() -> (r: Json)
    ensures
        r.text_at("type"@) == Some("object"@),
        r.spec_get("properties"@) matches Some(Json::Object(fields)) && fields@.len()
            == arguments().len() && forall|i: int|
            0 <= i < fields@.len() ==> describes(#[trigger] fields@[i], arguments()[i]),
        r.spec_get("required"@) matches Some(Json::Array(names)) && names@.len() == 2
            && names@[0].text() == Some("agent"@) && names@[1].text() == Some("prompt"@),
        r matches Json::Object(fields) && fields@.len() == 3,
{
    proof {
        reveal_strlit("type");
        reveal_strlit("properties");
        reveal_strlit("required");
        assert("type"@.len() == 4 && "properties"@.len() == 10 && "required"@.len() == 8);
        reveal_with_fuel(crate::json::member_from, 4);
    }
    let properties = vec![
        argument(
            "agent",
            "string",
            "Agent name (supervisor, generation, reflection, ranking, evolution, metareview).",
        ),
        argument(
            "mode",
            "string",
            "Prompt mode filename (e.g. generation_literature, reflection_review).",
        ),
        argument("prompt", "string", "The rendered user prompt for this turn."),
        argument("hypothesis_id", "integer", "Optional hypothesis ID for review/ranking tasks."),
        argument("goal", "string", "The research goal."),
        argument("preferences", "string", "User preferences/criteria."),
    ];
    let required = vec![Json::Str("agent".to_owned()), Json::Str("prompt".to_owned())];
    Json::Object(
        vec![
            ("type".to_owned(), Json::Str("object".to_owned())),
            ("properties".to_owned(), Json::Object(properties)),
            ("required".to_owned(), Json::Array(required)),
        ],
    )
}

// ----------------------------------------------------------------------- laws

/// Two edges never leave from the same agent in the same mode, so the order of
/// the edges does not matter.
pub proof fn law_edges_do_not_overlap(i: int, j: int, agent: Seq<char>, mode: Seq<char>)
    requires
        0 <= i < pipeline().len(),
        0 <= j < pipeline().len(),
        leaves_from(pipeline()[i], agent, mode),
        leaves_from(pipeline()[j], agent, mode),
    ensures
        i == j,
{
    lemma_pipeline_names();
}

proof fn lemma_pipeline_names()
    ensures
        "generation"@[0] == 'g',
        "evolution"@.len() == 9,
        "reflection"@[0] == 'r' && "reflection"@.len() == 10,
        "ranking"@.len() == 7,
        "experiment"@[0] == 'e' && "experiment"@.len() == 10,
        "generation"@.len() == 10,
        "experiment_design"@.len() == 17,
        "experiment_execute"@.len() == 18 && "experiment_execute"@[12] == 'x',
        "experiment_evaluate"@.len() == 19,
{
    reveal_strlit("generation");
    reveal_strlit("evolution");
    reveal_strlit("reflection");
    reveal_strlit("ranking");
    reveal_strlit("experiment");
    reveal_strlit("experiment_design");
    reveal_strlit("experiment_execute");
    reveal_strlit("experiment_evaluate");
}

/// Every edge leads to a mode of the agent that it leads to.
pub proof fn law_edges_lead_to_owned_modes(i: int)
    requires
        0 <= i < pipeline().len(),
    ensures
        mode_known(pipeline()[i].next_mode),
        mode_named(pipeline()[i].next_mode).spec_agent() == pipeline()[i].next_agent,
{
    let m = if i == 0 || i == 1 {
        AgentMode::ReflectionReview
    } else if i == 2 {
        AgentMode::RankingPairwise
    } else if i == 3 {
        AgentMode::ExperimentExecute
    } else if i == 4 {
        AgentMode::ExperimentEvaluate
    } else {
        AgentMode::ReflectionOnResult
    };
    assert(m.spec_filename() == pipeline()[i].next_mode);
    crate::prompts::law_filenames_are_distinct(m, mode_named(pipeline()[i].next_mode));
}

/// The agent and mode that are reached from a task after `n` edges.
pub open spec fn reached(agent: Seq<char>, mode: Seq<char>, n: nat) -> Option<(Seq<char>, Seq<char>)>
    decreases n,
{
    if n == 0 {
        Some((agent, mode))
    } else {
        match edge_of(agent, mode) {
            Some(e) => reached(e.next_agent, e.next_mode, (n - 1) as nat),
            None => None,
        }
    }
}

/// The pipeline ends: from any task no more than four edges follow one another.
pub proof fn law_pipeline_ends(agent: Seq<char>, mode: Seq<char>)
    ensures
        reached(agent, mode, 5) is None,
{
    lemma_pipeline_names();
    reveal_with_fuel(reached, 6);
    reveal_with_fuel(edge_from, 7);
}

/// Two pairs share a slot only where session and agent are the same, so what one
/// session runs never reaches another.
pub proof fn law_slots_tell_pairs_apart(s: SessionRunners, i: int, j: int)
    requires
        s.wf(),
        0 <= i < s@.len(),
        0 <= j < s@.len(),
    ensures
        s@[i] == s@[j] <==> i == j,
{
}

/// A ranking turn is tried at most three times in all, and a turn of another
/// agent once.
pub proof fn law_retries_are_bounded(agent: Seq<char>, dispatched: u32, retries: u32)
    ensures
        retry_after(agent, dispatched, retries) matches Some(n) ==> agent == "ranking"@ && n
            == retries + 1 && n <= RANKING_MAX_RETRIES,
        dispatched > 0 ==> retry_after(agent, dispatched, retries) is None,
{
}

/// A retry keeps the whole prompt of the first turn in front.
pub proof fn law_retry_keeps_prompt(first_prompt: Seq<char>, attempt: u32)
    ensures
        (first_prompt + RETRY_HEAD@ + decimal(attempt as nat) + "/"@ + decimal(
            RANKING_MAX_RETRIES as nat,
        ) + RETRY_TAIL@).take(first_prompt.len() as int) == first_prompt,
{
    assert((first_prompt + RETRY_HEAD@ + decimal(attempt as nat) + "/"@ + decimal(
        RANKING_MAX_RETRIES as nat,
    ) + RETRY_TAIL@).take(first_prompt.len() as int) =~= first_prompt);
}

/// What follows what: reviews follow generation and evolution, one for each hypothesis;
/// a ranking follows a reflection; a designed experiment is executed, an executed one
/// evaluated, and an evaluated one reflected on. Nothing follows any other task.
pub proof fn law_what_follows_what(agent: Seq<char>, mode: Seq<char>)
    ensures
        ({
            let to = |next: Seq<char>, next_mode: Seq<char>, priority: i64, each: bool|
                {
                    &&& edge_of(agent, mode) is Some
                    &&& edge_of(agent, mode)->0.next_agent == next
                    &&& edge_of(agent, mode)->0.next_mode == next_mode
                    &&& edge_of(agent, mode)->0.priority == priority
                    &&& edge_of(agent, mode)->0.requires_hypothesis == each
                };
            if agent == "generation"@ || agent == "evolution"@ {
                to("reflection"@, "reflection_review"@, 100, true)
            } else if agent == "reflection"@ {
                to("ranking"@, "ranking_pairwise"@, 100, false)
            } else if agent == "experiment"@ && mode == "experiment_design"@ {
                to("experiment"@, "experiment_execute"@, 110, false)
            } else if agent == "experiment"@ && mode == "experiment_execute"@ {
                to("experiment"@, "experiment_evaluate"@, 120, false)
            } else if agent == "experiment"@ && mode == "experiment_evaluate"@ {
                to("reflection"@, "reflection_on_result"@, 130, false)
            } else {
                edge_of(agent, mode) is None
            }
        }),
{
    lemma_pipeline_names();
    reveal_with_fuel(edge_from, 7);
}

/// A generation or evolution that brought up hypotheses is followed by a task for each
/// of them, and by nothing where it brought up none. A reflection, and an experiment
/// that names itself, is followed by one task. A design that names only its hypothesis
/// is followed by one task for the latest experiment of it, and one that names neither
/// by nothing. Nothing else is followed.
pub proof fn law_what_is_planned(plan: FollowUpPlan, agent: Seq<char>, args: Json, n: nat)
    requires
        plan_follows(plan, agent, args, n),
    ensures
        ({
            let mode = mode_of(args);
            let fresh = agent == "generation"@ || agent == "evolution"@;
            let design = agent == "experiment"@ && mode == "experiment_design"@;
            let lone = agent == "reflection"@ || (agent == "experiment"@ && (mode
                == "experiment_execute"@ || mode == "experiment_evaluate"@)) || (design
                && args.integer_at("experiment_id"@) is Some);
            &&& plan is PerHypothesis <==> fresh && n > 0
            &&& plan is Single <==> lone
            &&& plan is SingleLatest <==> design && args.integer_at("experiment_id"@) is None
                && args.integer_at("hypothesis_id"@) is Some
            &&& plan matches FollowUpPlan::SingleLatest(_, h) ==> args.integer_at(
                "hypothesis_id"@,
            ) == Some(h)
            &&& plan matches FollowUpPlan::PerHypothesis(s) ==> s.next_agent@ == "reflection"@
                && s.next_mode@ == "reflection_review"@
        }),
{
    law_what_follows_what(agent, mode_of(args));
    lemma_pipeline_names();
    reveal_with_fuel(edge_from, 7);
}

/// A task along an edge can be read: it is for the agent and the mode that the edge leads
/// to, with the priority of the edge, and carries the prompt, the goal and the
/// preferences, and the hypothesis that it is for.
pub proof fn law_task_for_a_hypothesis_can_be_read(
    t: FollowUpTask,
    e: FollowUpView,
    session: Seq<char>,
    prompt: Seq<char>,
    goal: Seq<char>,
    preferences: Seq<char>,
    id: i64,
)
    requires
        task_along(
            t,
            e,
            session,
            base_payload(e, prompt, goal, preferences).push(
                ("hypothesis_id"@, Leaf::Whole(id as int)),
            ),
        ),
    ensures
        t.session_id@ == session,
        t.agent@ == e.next_agent,
        t.action@ == "run_agent"@,
        t.priority == e.priority,
        t.max_attempts == 3,
        t.payload.text_at("agent"@) == Some(e.next_agent),
        t.payload.text_at("mode"@) == Some(e.next_mode),
        t.payload.text_at("prompt"@) == Some(prompt),
        t.payload.text_at("goal"@) == Some(goal),
        t.payload.text_at("preferences"@) == Some(preferences),
        t.payload.integer_at("hypothesis_id"@) == Some(id),
{
    lemma_payload_keys();
    let members = base_payload(e, prompt, goal, preferences).push(
        ("hypothesis_id"@, Leaf::Whole(id as int)),
    );
    lemma_flat_member(t.payload, members, 0);
    lemma_flat_member(t.payload, members, 1);
    lemma_flat_member(t.payload, members, 2);
    lemma_flat_member(t.payload, members, 3);
    lemma_flat_member(t.payload, members, 4);
    lemma_flat_member(t.payload, members, 5);
}

proof fn lemma_payload_keys()
    ensures
        "agent"@.len() == 5,
        "mode"@.len() == 4 && "mode"@[0] == 'm',
        "prompt"@.len() == 6,
        "goal"@.len() == 4 && "goal"@[0] == 'g',
        "preferences"@.len() == 11,
        "hypothesis_id"@.len() == 13 && "hypothesis_id"@[0] == 'h',
        "experiment_id"@.len() == 13 && "experiment_id"@[0] == 'e',
{
    reveal_strlit("agent");
    reveal_strlit("mode");
    reveal_strlit("prompt");
    reveal_strlit("goal");
    reveal_strlit("preferences");
    reveal_strlit("hypothesis_id");
    reveal_strlit("experiment_id");
}

proof fn lemma_flat_member(v: Json, members: Seq<(Seq<char>, Leaf)>, i: int)
    requires
        is_flat(v, members),
        0 <= i < members.len(),
        forall|j: int| 0 <= j < i ==> (#[trigger] members[j]).0 != members[i].0,
    ensures
        members[i].1 matches Leaf::Text(s) ==> v.text_at(members[i].0) == Some(s),
        members[i].1 matches Leaf::Whole(n) ==> (i64::MIN <= n <= i64::MAX ==> v.integer_at(
            members[i].0,
        ) is Some && v.integer_at(members[i].0)->0 == n),
{
    match v {
        Json::Object(fields) => {
            assert(leaves(fields@)[i] == members[i]);
            assert forall|j: int| 0 <= j < i implies (#[trigger] fields@[j]).0@ != members[i].0 by {
                assert(leaves(fields@)[j] == members[j]);
            }
            crate::json::law_first_member_counts(fields@, members[i].0, i);
        },
        _ => {},
    }
}

/// The one task that follows names the experiment and the hypothesis where they are
/// known, and the goal and the preferences of the session.
pub proof fn law_single_task_can_be_read(
    t: FollowUpTask,
    e: FollowUpView,
    session: Seq<char>,
    goal: Seq<char>,
    preferences: Seq<char>,
    experiment: Option<i64>,
    hypothesis: Option<i64>,
)
    requires
        task_along(
            t,
            e,
            session,
            base_payload(e, ""@, goal, preferences) + whole_member("experiment_id"@, experiment)
                + whole_member("hypothesis_id"@, hypothesis),
        ),
    ensures
        t.session_id@ == session,
        t.agent@ == e.next_agent,
        t.priority == e.priority,
        t.payload.text_at("agent"@) == Some(e.next_agent),
        t.payload.text_at("mode"@) == Some(e.next_mode),
        t.payload.text_at("goal"@) == Some(goal),
        t.payload.text_at("preferences"@) == Some(preferences),
        experiment is Some ==> t.payload.integer_at("experiment_id"@) == experiment,
        hypothesis is Some ==> t.payload.integer_at("hypothesis_id"@) == hypothesis,
{
    lemma_payload_keys();
    let members = base_payload(e, ""@, goal, preferences) + whole_member(
        "experiment_id"@,
        experiment,
    ) + whole_member("hypothesis_id"@, hypothesis);
    lemma_flat_member(t.payload, members, 0);
    lemma_flat_member(t.payload, members, 1);
    lemma_flat_member(t.payload, members, 3);
    lemma_flat_member(t.payload, members, 4);
    if experiment is Some {
        assert(members[5] == ("experiment_id"@, Leaf::Whole(experiment->0 as int)));
        lemma_flat_member(t.payload, members, 5);
        if hypothesis is Some {
            assert(members[6] == ("hypothesis_id"@, Leaf::Whole(hypothesis->0 as int)));
            lemma_flat_member(t.payload, members, 6);
        }
    } else if hypothesis is Some {
        assert(members[5] == ("hypothesis_id"@, Leaf::Whole(hypothesis->0 as int)));
        lemma_flat_member(t.payload, members, 5);
    }
}

/// When an idle queue is filled, and with what: a tournament as soon as there are enough
/// hypotheses; evolution as soon as enough are mature and there is a best one; feedback
/// once enough matches were played since the last; and a design where a hypothesis needs
/// an experiment, which it names.
pub proof fn law_when_idle_tasks_are_due(s: IdleState)
    requires
        s.min_hypotheses <= i64::MAX,
    ensures
        IdlePurpose::RunTournamentBatch.due(s) is Some <==> s.min_hypotheses
            <= s.total_hypotheses,
        IdlePurpose::EvolveTopHypotheses.due(s) is Some <==> s.min_mature <= s.mature_hypotheses
            && !s.top_hypotheses_empty,
        IdlePurpose::GenerateSystemFeedback.due(s) is Some <==> s.match_count > 0
            && s.last_meta_review_at + s.meta_review_interval <= s.match_count,
        IdlePurpose::DesignForHypothesis.due(s) is Some <==> s.hypothesis_needing_experiment
            is Some,
        s.hypothesis_needing_experiment is Some ==> IdlePurpose::DesignForHypothesis.due(s)->0
            == seq![
            ("hypothesis_id"@, Leaf::Whole(s.hypothesis_needing_experiment->0 as int)),
        ],
{
}

/// A ranking turn that dispatched nothing is tried again, twice and no more; a turn that
/// dispatched something, or of another agent, is not.
pub proof fn law_when_a_turn_is_tried_again(agent: Seq<char>, dispatched: u32, retries: u32)
    ensures
        retry_after(agent, dispatched, retries) is Some <==> agent == "ranking"@ && dispatched == 0
            && retries < 2,
        retry_after(agent, dispatched, retries) is Some ==> retry_after(
            agent,
            dispatched,
            retries,
        )->0 == retries + 1,
{
}

proof fn lemma_ids_same(
    a: Seq<Marker>,
    b: Seq<Marker>,
    pa: Seq<Json>,
    pb: Seq<Json>,
    latest: Option<i64>,
    n: nat,
)
    requires
        n <= a.len(),
        n <= b.len(),
        n <= pa.len(),
        n <= pb.len(),
        forall|i: int| 0 <= i < n ==> a[i] == b[i] && pa[i] == pb[i],
    ensures
        recorded_upto(a, latest, n) == recorded_upto(b, latest, n),
        saved_upto(a, pa, n) == saved_upto(b, pb, n),
        reviewed_upto(a, pa, n) == reviewed_upto(b, pb, n),
    decreases n,
{
    if n > 0 {
        lemma_ids_same(a, b, pa, pb, latest, (n - 1) as nat);
    }
}

/// Each marker of a turn brings up its own: one that records a hypothesis the latest of
/// the session, one that saves a note the note by its `id`, one that records a review the
/// hypothesis that it names, and every other nothing. What earlier ones brought up stays.
pub proof fn law_each_marker_brings_up_its_own(
    markers: Seq<Marker>,
    payloads: Seq<Json>,
    m: Marker,
    p: Json,
    latest: Option<i64>,
)
    requires
        markers.len() == payloads.len(),
    ensures
        ({
            let n = markers.len();
            let more = markers.push(m);
            let args = payloads.push(p);
            &&& recorded_upto(more, latest, n + 1) == (if m.op@ == "record_hypothesis"@ && latest
                is Some {
                recorded_upto(markers, latest, n).push(latest->0)
            } else {
                recorded_upto(markers, latest, n)
            })
            &&& saved_upto(more, args, n + 1) == (if m.op@ == "save_semantic"@ && p.integer_at(
                "id"@,
            ) is Some {
                saved_upto(markers, payloads, n).push(p.integer_at("id"@)->0)
            } else {
                saved_upto(markers, payloads, n)
            })
            &&& reviewed_upto(more, args, n + 1) == (if m.op@ == "record_review"@ && p.integer_at(
                "hypothesis_id"@,
            ) is Some {
                reviewed_upto(markers, payloads, n).push(p.integer_at("hypothesis_id"@)->0)
            } else {
                reviewed_upto(markers, payloads, n)
            })
            &&& recorded_upto(markers, latest, 0) == Seq::<i64>::empty()
            &&& saved_upto(markers, payloads, 0) == Seq::<i64>::empty()
            &&& reviewed_upto(markers, payloads, 0) == Seq::<i64>::empty()
        }),
{
    lemma_ids_same(markers.push(m), markers, payloads.push(p), payloads, latest, markers.len());
}

proof fn lemma_link_ids_same(a: Seq<SemanticLink>, b: Seq<SemanticLink>, n: nat)
    requires
        n <= a.len(),
        n <= b.len(),
        forall|i: int| 0 <= i < n ==> a[i] == b[i],
    ensures
        linked_ids(a, n) == linked_ids(b, n),
    decreases n,
{
    if n > 0 {
        lemma_link_ids_same(a, b, (n - 1) as nat);
    }
}

/// A note that stands for a hypothesis, old or new, gives that hypothesis, and every other
/// note gives none.
pub proof fn law_notes_give_their_hypotheses(found: Seq<SemanticLink>, id: i64)
    ensures
        linked_ids(found, 0) == Seq::<i64>::empty(),
        linked_ids(found.push(SemanticLink::Existing(id)), found.len() + 1) == linked_ids(
            found,
            found.len(),
        ).push(id),
        linked_ids(found.push(SemanticLink::Promoted(id)), found.len() + 1) == linked_ids(
            found,
            found.len(),
        ).push(id),
        linked_ids(found.push(SemanticLink::Skip), found.len() + 1) == linked_ids(
            found,
            found.len(),
        ),
        linked_ids(found.push(SemanticLink::NoRoom), found.len() + 1) == linked_ids(
            found,
            found.len(),
        ),
{
    lemma_link_ids_same(found.push(SemanticLink::Existing(id)), found, found.len());
    lemma_link_ids_same(found.push(SemanticLink::Promoted(id)), found, found.len());
    lemma_link_ids_same(found.push(SemanticLink::Skip), found, found.len());
    lemma_link_ids_same(found.push(SemanticLink::NoRoom), found, found.len());
}

/// Only notes of the scopes `hypothesis` and `insight` become hypotheses. Such a note
/// becomes a new one exactly where no hypothesis of the session was made from it yet; the
/// new one is a draft of the session, made from the note, at the rating given.
pub proof fn law_when_a_note_becomes_a_hypothesis(
    before: RepoView,
    after: RepoView,
    scope: Option<Seq<char>>,
    note: i64,
    session: Seq<char>,
    elo: i64,
    at: Seq<char>,
    link: SemanticLink,
)
    requires
        links(before, after, scope, note, session, elo, at, link),
        before.last_id < i64::MAX,
    ensures
        ({
            let fits = scope == Some("hypothesis"@) || scope == Some("insight"@);
            let made = exists|i: int|
                0 <= i < before.rows.len() && (#[trigger] before.rows[i]).session_id == session
                    && before.rows[i].semantic_id == Some(note);
            &&& link is Skip <==> !fits
            &&& link is Promoted <==> fits && !made
            &&& link is Existing <==> fits && made
            &&& !(link is Promoted) ==> after == before
            &&& link is Promoted ==> {
                &&& after.rows.len() == before.rows.len() + 1
                &&& after.rows.drop_last() == before.rows
                &&& after.rows.last().id == before.last_id + 1
                &&& after.rows.last().session_id == session
                &&& after.rows.last().semantic_id == Some(note)
                &&& after.rows.last().elo == elo
                &&& after.rows.last().matches_played == 0
                &&& after.rows.last().state == crate::hypothesis::HypothesisState::Draft
                &&& link.id() == Some(after.rows.last().id)
            }
        }),
{
    let own = wanted(before.rows, session, Wanted::All);
    if link is Existing {
        law_linked_note_has_hypothesis(before, after, scope, note, session, elo, at, link);
    }
    if link is Promoted || link is NoRoom {
        assert(stands_for(before.rows, session, note, None));
        let out = choose|out: Seq<HypothesisView>| #[trigger]
            lists_in_order(own, Ordered::ByRating, out) && linked_from(out, note, 0) is None;
        assert forall|i: int|
            0 <= i < before.rows.len() && (#[trigger] before.rows[i]).session_id == session implies before.rows[i].semantic_id
            != Some(note) by {
            let h = before.rows[i];
            assert(before.rows.contains(h));
            crate::hypothesis::law_a_session_is_listed_whole(before.rows, session, out, h);
            let k = choose|k: int| 0 <= k < out.len() && out[k] == h;
            if h.semantic_id == Some(note) {
                lemma_linked(out, note, 0, k);
            }
        }
    }
    if link is Promoted {
        assert(after.rows.drop_last() =~= before.rows);
    }
}

/// One task is made for each hypothesis, in order, with its own id and its own prompt.
pub proof fn law_each_hypothesis_gets_its_task(
    tasks: Seq<FollowUpTask>,
    e: FollowUpView,
    session: Seq<char>,
    goal: Seq<char>,
    preferences: Seq<char>,
    ids: Seq<i64>,
    prompts: Seq<String>,
    i: int,
)
    requires
        fan_out(tasks, e, session, goal, preferences, ids, prompts),
        0 <= i < ids.len(),
    ensures
        tasks.len() == ids.len(),
        tasks[i].session_id@ == session,
        tasks[i].agent@ == e.next_agent,
        tasks[i].payload.text_at("mode"@) == Some(e.next_mode),
        tasks[i].payload.text_at("prompt"@) == Some(prompts[i]@),
        tasks[i].payload.text_at("goal"@) == Some(goal),
        tasks[i].payload.text_at("preferences"@) == Some(preferences),
        tasks[i].payload.integer_at("hypothesis_id"@) == Some(ids[i]),
{
    law_task_for_a_hypothesis_can_be_read(
        tasks[i],
        e,
        session,
        prompts[i]@,
        goal,
        preferences,
        ids[i],
    );
}

/// Saved notes are taken one after the other, each with its own scope: a note of another
/// scope is passed over, one that has a hypothesis is found again, and any other one becomes
/// a new hypothesis of the session that stands for that very note.
pub proof fn law_notes_are_linked_in_turn(
    states: Seq<RepoView>,
    saved: Seq<i64>,
    scopes: Seq<Option<String>>,
    session: Seq<char>,
    elo: i64,
    found: Seq<SemanticLink>,
    i: int,
)
    requires
        links_through(states, saved, scopes, session, elo, found),
        0 <= i < found.len(),
        states[i].last_id < i64::MAX,
    ensures
        ({
            let fits = opt_view(scopes[i]) == Some("hypothesis"@) || opt_view(scopes[i]) == Some(
                "insight"@,
            );
            &&& found[i] is Skip <==> !fits
            &&& found[i] is Promoted || found[i] is Existing <==> fits
            &&& !(found[i] is Promoted) ==> states[i + 1] == states[i]
            &&& found[i] is Promoted ==> {
                &&& states[i + 1].rows.drop_last() == states[i].rows
                &&& states[i + 1].rows.last().session_id == session
                &&& states[i + 1].rows.last().semantic_id == Some(saved[i])
                &&& states[i + 1].rows.last().elo == elo
                &&& found[i].id() == Some(states[i + 1].rows.last().id)
            }
        }),
{
    let scope = opt_view(scopes[i]);
    assert(links_now(states[i], states[i + 1], scope, saved[i], session, elo, found[i]));
    let at = choose|at: Seq<char>| #[trigger]
        links(states[i], states[i + 1], scope, saved[i], session, elo, at, found[i]);
    law_when_a_note_becomes_a_hypothesis(
        states[i],
        states[i + 1],
        scope,
        saved[i],
        session,
        elo,
        at,
        found[i],
    );
}

/// A list of ids is an array that holds each id at its place and nothing else.
pub proof fn law_listed_ids_can_be_read(v: Json, ids: Seq<i64>, more: Seq<i64>)
    requires
        lists(v, ids),
        lists(v, more),
    ensures
        v is Array,
        ids == more,
{
    assert(ids =~= more) by {
        match v {
            Json::Array(items) => {
                assert forall|i: int| 0 <= i < ids.len() implies ids[i] == more[i] by {
                    assert(items@[i].integer() == Some(ids[i]));
                }
            },
            _ => {},
        }
    }
}

/// The agents that can be asked to run are the seven, by name.
pub proof fn law_which_agents_are_known(name: Seq<char>)
    ensures
        agent_known(name) <==> name == "supervisor"@ || name == "generation"@ || name
            == "reflection"@ || name == "ranking"@ || name == "evolution"@ || name
            == "metareview"@ || name == "experiment"@,
{
    let all = all_agents();
    assert(all[0].name == "supervisor"@ && all[1].name == "generation"@ && all[2].name
        == "reflection"@ && all[3].name == "ranking"@ && all[4].name == "evolution"@ && all[5].name
        == "metareview"@ && all[6].name == "experiment"@);
}

/// Every purpose of an idle session has its turn, and only once.
pub proof fn law_every_idle_purpose_is_asked(p: IdlePurpose, i: int, j: int)
    ensures
        IdlePurpose::all().contains(p),
        0 <= i < j < IdlePurpose::all().len() ==> IdlePurpose::all()[i] != IdlePurpose::all()[j],
{
    let all = IdlePurpose::all();
    match p {
        IdlePurpose::RunTournamentBatch => {
            assert(all[0] == p);
        },
        IdlePurpose::EvolveTopHypotheses => {
            assert(all[1] == p);
        },
        IdlePurpose::GenerateSystemFeedback => {
            assert(all[2] == p);
        },
        IdlePurpose::DesignForHypothesis => {
            assert(all[3] == p);
        },
    }
}

/// What an idle session is asked to do goes to the agent that its label names, in a mode of
/// that agent. An experiment comes first, a tournament next, evolution behind it, and
/// feedback last.
pub proof fn law_how_idle_tasks_are_asked()
    ensures
        ({
            let t = IdlePurpose::RunTournamentBatch.terms();
            let e = IdlePurpose::EvolveTopHypotheses.terms();
            let f = IdlePurpose::GenerateSystemFeedback.terms();
            let d = IdlePurpose::DesignForHypothesis.terms();
            &&& t.1 == "ranking"@ && t.2 == "ranking_pairwise"@ && t.3 == 120
            &&& e.1 == "evolution"@ && e.2 == "evolution_combine"@ && e.3 == 150
            &&& f.1 == "metareview"@ && f.2 == "metareview_system"@ && f.3 == 180
            &&& d.1 == "experiment"@ && d.2 == "experiment_design"@ && d.3 == 90
            &&& t.0 == t.1 + "/RunTournamentBatch"@
            &&& e.0 == e.1 + "/EvolveTopHypotheses"@
            &&& f.0 == f.1 + "/GenerateSystemFeedback"@
            &&& d.0 == d.1 + "/DesignForHypothesis"@
        }),
{
    reveal_strlit("ranking");
    reveal_strlit("evolution");
    reveal_strlit("metareview");
    reveal_strlit("experiment");
    reveal_strlit("/RunTournamentBatch");
    reveal_strlit("/EvolveTopHypotheses");
    reveal_strlit("/GenerateSystemFeedback");
    reveal_strlit("/DesignForHypothesis");
    reveal_strlit("ranking/RunTournamentBatch");
    reveal_strlit("evolution/EvolveTopHypotheses");
    reveal_strlit("metareview/GenerateSystemFeedback");
    reveal_strlit("experiment/DesignForHypothesis");
    assert("ranking/RunTournamentBatch"@ =~= "ranking"@ + "/RunTournamentBatch"@);
    assert("evolution/EvolveTopHypotheses"@ =~= "evolution"@ + "/EvolveTopHypotheses"@);
    assert("metareview/GenerateSystemFeedback"@ =~= "metareview"@ + "/GenerateSystemFeedback"@);
    assert("experiment/DesignForHypothesis"@ =~= "experiment"@ + "/DesignForHypothesis"@);
}

} // verus!
