use co_scientist::agents::{agents, find_agent};
use co_scientist::cli;

#[test]
fn every_agent_has_a_skills_field() {
    for a in agents() {
        let _ = a.skills.len();
    }
}

#[test]
fn agents_with_empty_personality_have_empty_skills_by_default() {
    for name in ["evolution", "metareview", "experiment"] {
        let a = find_agent(name).unwrap();
        assert!(a.personality.is_empty(), "{name} personality unexpectedly non-empty");
        assert!(a.skills.is_empty(), "{name} skills unexpectedly non-empty");
    }
}

#[test]
fn find_agent_returns_known_agent() {
    for a in agents() {
        assert_eq!(find_agent(a.name).map(|x| x.name), Some(a.name));
    }
}

#[test]
fn find_agent_returns_none_for_unknown_name() {
    assert!(find_agent("not-a-real-agent").is_none());
    assert!(find_agent("").is_none());
}

#[test]
fn all_known_agent_names_resolve() {
    let names: Vec<&str> = agents().iter().map(|a| a.name).collect();
    for n in names {
        assert!(find_agent(n).is_some(), "agent {n} did not resolve");
    }
}

#[test]
fn the_command_line_reports_unknown_agents() {
    assert_eq!(cli::find_agent("ranking").unwrap().name, "ranking");
    assert_eq!(cli::find_agent("nobody").unwrap_err(), "unknown agent: nobody");
}
