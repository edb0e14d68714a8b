//! Which agent may call which tool.

use vstd::prelude::*;

use crate::text::{str_eq, views};
use crate::tool_catalog::owned;

verus! {

/// The tools that an agent may call; `None` for an agent that is not known.
pub open spec fn allowlist(agent: Seq<char>) -> Option<Seq<Seq<char>>> {
    if agent == "supervisor"@ || agent == "metareview"@ {
        Some(
            seq![
                "save_semantic"@,
                "save_behavior"@,
                "get_context"@,
                "peek_context"@,
                "get_timeline"@,
                "get_observation"@,
                "archive_observation"@,
                "delete_observation"@,
                "compress_events"@,
            ],
        )
    } else if agent == "generation"@ || agent == "reflection"@ || agent == "evolution"@ {
        Some(
            seq![
                "save_semantic"@,
                "save_behavior"@,
                "get_context"@,
                "peek_context"@,
                "get_timeline"@,
                "get_observation"@,
                "record_hypothesis"@,
                "record_review"@,
                "run_python"@,
            ],
        )
    } else if agent == "ranking"@ {
        Some(seq!["record_tournament_match"@])
    } else if agent == "experiment"@ {
        Some(
            seq![
                "save_semantic"@,
                "save_behavior"@,
                "get_context"@,
                "peek_context"@,
                "get_timeline"@,
                "get_observation"@,
                "design_experiment"@,
                "execute_experiment"@,
                "evaluate_result"@,
                "run_python"@,
            ],
        )
    } else {
        None
    }
}

/// The tools that an agent may call; `None` for an agent that is not known.
pub fn default_allowlist(agent: &str) -> (r: Option<Vec<String>>)
    ensures
        match r {
            Some(v) => allowlist(agent@) == Some(views(v@)),
            None => allowlist(agent@) is None,
        },
{
    if str_eq(agent, "supervisor") || str_eq(agent, "metareview") {
        let names: [&'static str; 9] = [
            "save_semantic",
            "save_behavior",
            "get_context",
            "peek_context",
            "get_timeline",
            "get_observation",
            "archive_observation",
            "delete_observation",
            "compress_events",
        ];
        let v = owned(names.as_slice());
        proof {
            assert(views(v@) =~= allowlist(agent@)->0);
        }
        Some(v)
    } else if str_eq(agent, "generation") || str_eq(agent, "reflection") || str_eq(
        agent,
        "evolution",
    ) {
        let names: [&'static str; 9] = [
            "save_semantic",
            "save_behavior",
            "get_context",
            "peek_context",
            "get_timeline",
            "get_observation",
            "record_hypothesis",
            "record_review",
            "run_python",
        ];
        let v = owned(names.as_slice());
        proof {
            assert(views(v@) =~= allowlist(agent@)->0);
        }
        Some(v)
    } else if str_eq(agent, "ranking") {
        let names: [&'static str; 1] = ["record_tournament_match"];
        let v = owned(names.as_slice());
        proof {
            assert(views(v@) =~= allowlist(agent@)->0);
        }
        Some(v)
    } else if str_eq(agent, "experiment") {
        let names: [&'static str; 10] = [
            "save_semantic",
            "save_behavior",
            "get_context",
            "peek_context",
            "get_timeline",
            "get_observation",
            "design_experiment",
            "execute_experiment",
            "evaluate_result",
            "run_python",
        ];
        let v = owned(names.as_slice());
        proof {
            assert(views(v@) =~= allowlist(agent@)->0);
        }
        Some(v)
    } else {
        None
    }
}

// --------------------------------------------------------------------- laws

/// Whether an agent may call a tool.
pub open spec fn may_call(agent: Seq<char>, tool: Seq<char>) -> bool {
    allowlist(agent) matches Some(tools) && tools.contains(tool)
}

proof fn lemma_tool_names()
    ensures
        "save_semantic"@.len() == 13 && "save_behavior"@.len() == 13 && "record_review"@.len()
            == 13,
        "save_semantic"@[5] == 's' && "save_behavior"@[5] == 'b' && "record_review"@[0] == 'r'
            && "save_semantic"@[0] == 's' && "save_behavior"@[0] == 's',
        "get_context"@.len() == 11 && "run_python"@.len() == 10,
        "peek_context"@.len() == 12 && "get_timeline"@.len() == 12,
        "peek_context"@[0] == 'p' && "get_timeline"@[0] == 'g',
        "get_observation"@.len() == 15 && "compress_events"@.len() == 15 && "evaluate_result"@.len()
            == 15,
        "get_observation"@[0] == 'g' && "compress_events"@[0] == 'c' && "evaluate_result"@[0]
            == 'e',
        "archive_observation"@.len() == 19,
        "delete_observation"@.len() == 18 && "execute_experiment"@.len() == 18,
        "delete_observation"@[0] == 'd' && "execute_experiment"@[0] == 'e',
        "record_hypothesis"@.len() == 17 && "design_experiment"@.len() == 17,
        "record_hypothesis"@[0] == 'r' && "design_experiment"@[0] == 'd',
        "record_tournament_match"@.len() == 23,
        "supervisor"@.len() == 10 && "metareview"@.len() == 10 && "generation"@.len() == 10
            && "reflection"@.len() == 10 && "experiment"@.len() == 10 && "evolution"@.len() == 9
            && "ranking"@.len() == 7,
        "supervisor"@[0] == 's' && "metareview"@[0] == 'm' && "generation"@[0] == 'g'
            && "reflection"@[0] == 'r' && "experiment"@[0] == 'e',
{
    reveal_strlit("save_semantic");
    reveal_strlit("save_behavior");
    reveal_strlit("get_context");
    reveal_strlit("peek_context");
    reveal_strlit("get_timeline");
    reveal_strlit("get_observation");
    reveal_strlit("archive_observation");
    reveal_strlit("delete_observation");
    reveal_strlit("compress_events");
    reveal_strlit("record_hypothesis");
    reveal_strlit("record_review");
    reveal_strlit("run_python");
    reveal_strlit("record_tournament_match");
    reveal_strlit("design_experiment");
    reveal_strlit("execute_experiment");
    reveal_strlit("evaluate_result");
    reveal_strlit("supervisor");
    reveal_strlit("metareview");
    reveal_strlit("generation");
    reveal_strlit("reflection");
    reveal_strlit("experiment");
    reveal_strlit("evolution");
    reveal_strlit("ranking");
}

/// Every agent but the one that ranks may keep notes and read them; those that make
/// hypotheses, and they alone, record them and their reviews; experiments are for their own
/// agent, matches for the one that ranks, and what removes observations for the two that
/// lead. Python may be run for hypotheses and experiments. No other agent is known.
pub proof fn law_who_may_call_what(agent: Seq<char>)
    ensures
        ({
            let leads = agent == "supervisor"@ || agent == "metareview"@;
            let makes = agent == "generation"@ || agent == "reflection"@ || agent == "evolution"@;
            let tries = agent == "experiment"@;
            let ranks = agent == "ranking"@;
            &&& allowlist(agent) is Some <==> leads || makes || tries || ranks
            &&& may_call(agent, "save_semantic"@) <==> leads || makes || tries
            &&& may_call(agent, "save_behavior"@) <==> leads || makes || tries
            &&& may_call(agent, "get_context"@) <==> leads || makes || tries
            &&& may_call(agent, "peek_context"@) <==> leads || makes || tries
            &&& may_call(agent, "get_timeline"@) <==> leads || makes || tries
            &&& may_call(agent, "get_observation"@) <==> leads || makes || tries
            &&& may_call(agent, "archive_observation"@) <==> leads
            &&& may_call(agent, "delete_observation"@) <==> leads
            &&& may_call(agent, "compress_events"@) <==> leads
            &&& may_call(agent, "record_hypothesis"@) <==> makes
            &&& may_call(agent, "record_review"@) <==> makes
            &&& may_call(agent, "run_python"@) <==> makes || tries
            &&& may_call(agent, "record_tournament_match"@) <==> ranks
            &&& may_call(agent, "design_experiment"@) <==> tries
            &&& may_call(agent, "execute_experiment"@) <==> tries
            &&& may_call(agent, "evaluate_result"@) <==> tries
        }),
{
    lemma_tool_names();
    if let Some(l) = allowlist(agent) {
        if agent == "supervisor"@ || agent == "metareview"@ {
            assert(l[0] == "save_semantic"@ && l[1] == "save_behavior"@ && l[2] == "get_context"@
                && l[3] == "peek_context"@ && l[4] == "get_timeline"@ && l[5]
                == "get_observation"@ && l[6] == "archive_observation"@ && l[7]
                == "delete_observation"@ && l[8] == "compress_events"@);
        } else if agent == "ranking"@ {
            assert(l[0] == "record_tournament_match"@);
        } else {
            assert(l[0] == "save_semantic"@ && l[1] == "save_behavior"@ && l[2] == "get_context"@
                && l[3] == "peek_context"@ && l[4] == "get_timeline"@ && l[5]
                == "get_observation"@);
            if agent == "experiment"@ {
                assert(l[6] == "design_experiment"@ && l[7] == "execute_experiment"@ && l[8]
                    == "evaluate_result"@ && l[9] == "run_python"@);
            } else {
                assert(l[6] == "record_hypothesis"@ && l[7] == "record_review"@ && l[8]
                    == "run_python"@);
            }
        }
    }
}

} // verus!
