//! The modes in which an agent can be prompted.

use vstd::prelude::*;

use crate::text::str_eq;

verus! {

/// A prompt template, named after the file that holds it.
#[derive(Clone, Copy, Debug, PartialEq, Eq, Structural)]
pub enum AgentMode {
    ParseGoal,
    GenerationLiterature,
    GenerationDebate,
    ReflectionReview,
    ReflectionObservation,
    ReflectionVerification,
    ReflectionOnResult,
    RankingPairwise,
    RankingDebate,
    EvolutionCombine,
    EvolutionSimplify,
    EvolutionFeasibility,
    EvolutionOutOfBox,
    MetaReviewSystem,
    MetaReviewFinal,
    ExperimentDesign,
    ExperimentExecute,
    ExperimentEvaluate,
}

impl AgentMode {
    /// The base name of the template's file.
    pub open spec fn spec_filename(self) -> Seq<char> {
        match self {
            AgentMode::ParseGoal => "parse_goal"@,
            AgentMode::GenerationLiterature => "generation_literature"@,
            AgentMode::GenerationDebate => "generation_debate"@,
            AgentMode::ReflectionReview => "reflection_review"@,
            AgentMode::ReflectionObservation => "reflection_observation"@,
            AgentMode::ReflectionVerification => "reflection_verification"@,
            AgentMode::ReflectionOnResult => "reflection_on_result"@,
            AgentMode::RankingPairwise => "ranking_pairwise"@,
            AgentMode::RankingDebate => "ranking_debate"@,
            AgentMode::EvolutionCombine => "evolution_combine"@,
            AgentMode::EvolutionSimplify => "evolution_simplify"@,
            AgentMode::EvolutionFeasibility => "evolution_feasibility"@,
            AgentMode::EvolutionOutOfBox => "evolution_out_of_box"@,
            AgentMode::MetaReviewSystem => "metareview_system"@,
            AgentMode::MetaReviewFinal => "metareview_final"@,
            AgentMode::ExperimentDesign => "experiment_design"@,
            AgentMode::ExperimentExecute => "experiment_execute"@,
            AgentMode::ExperimentEvaluate => "experiment_evaluate"@,
        }
    }

    /// The agent that owns the mode.
    pub open spec fn spec_agent(self) -> Seq<char> {
        match self {
            AgentMode::ParseGoal => "supervisor"@,
            AgentMode::GenerationLiterature | AgentMode::GenerationDebate => "generation"@,
            AgentMode::ReflectionReview
            | AgentMode::ReflectionObservation
            | AgentMode::ReflectionVerification
            | AgentMode::ReflectionOnResult => "reflection"@,
            AgentMode::RankingPairwise | AgentMode::RankingDebate => "ranking"@,
            AgentMode::EvolutionCombine
            | AgentMode::EvolutionSimplify
            | AgentMode::EvolutionFeasibility
            | AgentMode::EvolutionOutOfBox => "evolution"@,
            AgentMode::MetaReviewSystem | AgentMode::MetaReviewFinal => "metareview"@,
            AgentMode::ExperimentDesign
            | AgentMode::ExperimentExecute
            | AgentMode::ExperimentEvaluate => "experiment"@,
        }
    }

    /// The base name of the template's file.
    pub fn filename(self) -> (r: &'static str)
        ensures
            r@ == self.spec_filename(),
    {
        match self {
            AgentMode::ParseGoal => "parse_goal",
            AgentMode::GenerationLiterature => "generation_literature",
            AgentMode::GenerationDebate => "generation_debate",
            AgentMode::ReflectionReview => "reflection_review",
            AgentMode::ReflectionObservation => "reflection_observation",
            AgentMode::ReflectionVerification => "reflection_verification",
            AgentMode::ReflectionOnResult => "reflection_on_result",
            AgentMode::RankingPairwise => "ranking_pairwise",
            AgentMode::RankingDebate => "ranking_debate",
            AgentMode::EvolutionCombine => "evolution_combine",
            AgentMode::EvolutionSimplify => "evolution_simplify",
            AgentMode::EvolutionFeasibility => "evolution_feasibility",
            AgentMode::EvolutionOutOfBox => "evolution_out_of_box",
            AgentMode::MetaReviewSystem => "metareview_system",
            AgentMode::MetaReviewFinal => "metareview_final",
            AgentMode::ExperimentDesign => "experiment_design",
            AgentMode::ExperimentExecute => "experiment_execute",
            AgentMode::ExperimentEvaluate => "experiment_evaluate",
        }
    }

    /// The agent that owns the mode.
    pub fn agent(self) -> (r: &'static str)
        ensures
            r@ == self.spec_agent(),
    {
        match self {
            AgentMode::ParseGoal => "supervisor",
            AgentMode::GenerationLiterature | AgentMode::GenerationDebate => "generation",
            AgentMode::ReflectionReview
            | AgentMode::ReflectionObservation
            | AgentMode::ReflectionVerification
            | AgentMode::ReflectionOnResult => "reflection",
            AgentMode::RankingPairwise | AgentMode::RankingDebate => "ranking",
            AgentMode::EvolutionCombine
            | AgentMode::EvolutionSimplify
            | AgentMode::EvolutionFeasibility
            | AgentMode::EvolutionOutOfBox => "evolution",
            AgentMode::MetaReviewSystem | AgentMode::MetaReviewFinal => "metareview",
            AgentMode::ExperimentDesign
            | AgentMode::ExperimentExecute
            | AgentMode::ExperimentEvaluate => "experiment",
        }
    }

    /// The mode whose template has the base name `name`.
    pub fn from_filename(name: &str) -> (r: Option<AgentMode>)
        ensures
            match r {
                Some(m) => m.spec_filename() == name@,
                None => forall|m: AgentMode| #[trigger] m.spec_filename() != name@,
            },
    {
        let modes = prompt_modes();
        let mut i: usize = 0;
        while i < modes.len()
            invariant
                i <= modes@.len(),
                modes@ == all_modes(),
                forall|j: int| 0 <= j < i ==> (#[trigger] modes@[j]).spec_filename() != name@,
            decreases modes.len() - i,
        {
            if str_eq(modes[i].filename(), name) {
                return Some(modes[i]);
            }
            i += 1;
        }
        proof {
            assert forall|m: AgentMode| #[trigger] m.spec_filename() != name@ by {
                lemma_every_mode_is_listed(m);
                let j = choose|j: int| 0 <= j < all_modes().len() && all_modes()[j] == m;
                assert(modes@[j] == m);
            }
        }
        None
    }
}

/// Every mode, in the order of the pipeline.
pub open spec fn all_modes() -> Seq<AgentMode> {
    seq![
        AgentMode::ParseGoal,
        AgentMode::GenerationLiterature,
        AgentMode::GenerationDebate,
        AgentMode::ReflectionReview,
        AgentMode::ReflectionObservation,
        AgentMode::ReflectionVerification,
        AgentMode::ReflectionOnResult,
        AgentMode::RankingPairwise,
        AgentMode::RankingDebate,
        AgentMode::EvolutionCombine,
        AgentMode::EvolutionSimplify,
        AgentMode::EvolutionFeasibility,
        AgentMode::EvolutionOutOfBox,
        AgentMode::MetaReviewSystem,
        AgentMode::MetaReviewFinal,
        AgentMode::ExperimentDesign,
        AgentMode::ExperimentExecute,
        AgentMode::ExperimentEvaluate,
    ]
}

/// Where a mode stands among all of them.
pub open spec fn mode_index(m: AgentMode) -> int {
    match m {
        AgentMode::ParseGoal => 0,
        AgentMode::GenerationLiterature => 1,
        AgentMode::GenerationDebate => 2,
        AgentMode::ReflectionReview => 3,
        AgentMode::ReflectionObservation => 4,
        AgentMode::ReflectionVerification => 5,
        AgentMode::ReflectionOnResult => 6,
        AgentMode::RankingPairwise => 7,
        AgentMode::RankingDebate => 8,
        AgentMode::EvolutionCombine => 9,
        AgentMode::EvolutionSimplify => 10,
        AgentMode::EvolutionFeasibility => 11,
        AgentMode::EvolutionOutOfBox => 12,
        AgentMode::MetaReviewSystem => 13,
        AgentMode::MetaReviewFinal => 14,
        AgentMode::ExperimentDesign => 15,
        AgentMode::ExperimentExecute => 16,
        AgentMode::ExperimentEvaluate => 17,
    }
}

/// Every mode is listed, at its own place.
pub proof fn lemma_every_mode_is_listed(m: AgentMode)
    ensures
        0 <= mode_index(m) < all_modes().len(),
        all_modes()[mode_index(m)] == m,
        all_modes().len() == 18,
{
}

/// Every mode, in the order of the pipeline.
pub fn prompt_modes() -> (r: Vec<AgentMode>)
    ensures
        r@ == all_modes(),
{
    vec![
        AgentMode::ParseGoal,
        AgentMode::GenerationLiterature,
        AgentMode::GenerationDebate,
        AgentMode::ReflectionReview,
        AgentMode::ReflectionObservation,
        AgentMode::ReflectionVerification,
        AgentMode::ReflectionOnResult,
        AgentMode::RankingPairwise,
        AgentMode::RankingDebate,
        AgentMode::EvolutionCombine,
        AgentMode::EvolutionSimplify,
        AgentMode::EvolutionFeasibility,
        AgentMode::EvolutionOutOfBox,
        AgentMode::MetaReviewSystem,
        AgentMode::MetaReviewFinal,
        AgentMode::ExperimentDesign,
        AgentMode::ExperimentExecute,
        AgentMode::ExperimentEvaluate,
    ]
}

/// Two modes never share a template: a base name determines its mode.
pub proof fn law_filenames_are_distinct(a: AgentMode, b: AgentMode)
    requires
        a.spec_filename() == b.spec_filename(),
    ensures
        a == b,
{
    reveal_strlit("parse_goal");
    reveal_strlit("generation_literature");
    reveal_strlit("generation_debate");
    reveal_strlit("reflection_review");
    reveal_strlit("reflection_observation");
    reveal_strlit("reflection_verification");
    reveal_strlit("reflection_on_result");
    reveal_strlit("ranking_pairwise");
    reveal_strlit("ranking_debate");
    reveal_strlit("evolution_combine");
    reveal_strlit("evolution_simplify");
    reveal_strlit("evolution_feasibility");
    reveal_strlit("evolution_out_of_box");
    reveal_strlit("metareview_system");
    reveal_strlit("metareview_final");
    reveal_strlit("experiment_design");
    reveal_strlit("experiment_execute");
    reveal_strlit("experiment_evaluate");
    let s = a.spec_filename();
    let t = b.spec_filename();
    assert(s.len() == t.len() && s[0] == t[0] && s[1] == t[1]);
}

} // verus!
