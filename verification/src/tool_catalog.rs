//! Every name under which a model can call a tool.

use vstd::prelude::*;

use crate::text::{list_has, views};

verus! {

/// The registered tools.
pub open spec fn registered() -> Seq<Seq<char>> {
    seq![
        "save_semantic"@,
        "save_behavior"@,
        "get_context"@,
        "peek_context"@,
        "get_timeline"@,
        "get_observation"@,
        "archive_observation"@,
        "delete_observation"@,
        "compress_events"@,
        "record_hypothesis"@,
        "record_review"@,
        "record_tournament_match"@,
        "design_experiment"@,
        "execute_experiment"@,
        "evaluate_result"@,
        "run_python"@,
    ]
}

/// The names that are dispatched for every agent and do nothing.
pub open spec fn sentinels() -> Seq<Seq<char>> {
    seq!["noop"@, "none"@]
}

/// The names by which prompts call registered tools otherwise.
pub open spec fn alias_names() -> Seq<Seq<char>> {
    seq!["record_system_feedback"@, "record_research_plan"@]
}

/// Every name under which a tool can be called.
pub open spec fn known_tools() -> Seq<Seq<char>> {
    registered() + sentinels() + alias_names()
}

/// The names as owned strings.
pub(crate) fn owned(names: &[&'static str]) -> (r: Vec<String>)
    ensures
        views(r@) == crate::agents::str_views(names@),
{
    let mut out: Vec<String> = Vec::new();
    let mut i: usize = 0;
    let ghost all = crate::agents::str_views(names@);
    while i < names.len()
        invariant
            i <= names@.len(),
            all == crate::agents::str_views(names@),
            views(out@) == all.take(i as int),
        decreases names.len() - i,
    {
        let ghost before = out@;
        out.push(names[i].to_owned());
        proof {
            assert(views(out@) =~= views(before).push(names@[i as int]@));
            assert(all.take(i + 1) =~= all.take(i as int).push(all[i as int]));
        }
        i += 1;
    }
    proof {
        assert(all.take(all.len() as int) =~= all);
    }
    out
}

/// Every name under which a tool can be called.
pub fn known_tool_names() -> (r: Vec<String>)
    ensures
        views(r@) == known_tools(),
{
    let names: [&'static str; 20] = [
        "save_semantic",
        "save_behavior",
        "get_context",
        "peek_context",
        "get_timeline",
        "get_observation",
        "archive_observation",
        "delete_observation",
        "compress_events",
        "record_hypothesis",
        "record_review",
        "record_tournament_match",
        "design_experiment",
        "execute_experiment",
        "evaluate_result",
        "run_python",
        "noop",
        "none",
        "record_system_feedback",
        "record_research_plan",
    ];
    let r = owned(names.as_slice());
    proof {
        assert(views(r@) =~= known_tools());
    }
    r
}

/// The names that are dispatched for every agent.
pub fn always_allowed() -> (r: Vec<String>)
    ensures
        views(r@) == sentinels(),
{
    let names: [&'static str; 2] = ["noop", "none"];
    let r = owned(names.as_slice());
    proof {
        assert(views(r@) =~= sentinels());
    }
    r
}

/// Whether a tool can be called under the name `name`.
pub fn is_known(name: &str) -> (r: bool)
    ensures
        r == known_tools().contains(name@),
{
    list_has(&known_tool_names(), name)
}

} // verus!
