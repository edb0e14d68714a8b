use co_scientist::marker::allowlist::{
    extract_backtick_refs, extract_marker_refs, extract_tool_refs, is_permitted, mismatch_report,
    PairError, PromptToolTable, RefError,
};
use co_scientist::prompts::{prompt_modes, AgentMode};

fn template(mode: AgentMode) -> &'static str {
    match mode {
        AgentMode::ParseGoal => "Read the goal. Call the `record_research_plan` tool with your plan.",
        AgentMode::GenerationLiterature | AgentMode::GenerationDebate => {
            r#"Propose one. [[MEMORY_OP:record_hypothesis:{"summary":"...","details":{"k":"v"}}]]"#
        }
        AgentMode::ReflectionReview
        | AgentMode::ReflectionObservation
        | AgentMode::ReflectionVerification
        | AgentMode::ReflectionOnResult => {
            r#"Review it. [[MEMORY_OP:record_review:{"hypothesis_id":1,"verdict":"..."}]]"#
        }
        AgentMode::RankingPairwise | AgentMode::RankingDebate => {
            r#"Pick one. [[MEMORY_OP:record_tournament_match:{"hypothesis_a":1,"hypothesis_b":2,"winner":1,"rationale":"..."}]]"#
        }
        AgentMode::EvolutionCombine
        | AgentMode::EvolutionSimplify
        | AgentMode::EvolutionFeasibility
        | AgentMode::EvolutionOutOfBox => {
            r#"Improve it. [[MEMORY_OP:record_hypothesis:{"summary":"..."}]]"#
        }
        AgentMode::MetaReviewSystem => "Sum up, and call `record_system_feedback` once.",
        AgentMode::MetaReviewFinal => "Write the final overview for a human reader.",
        AgentMode::ExperimentDesign => r#"[[MEMORY_OP:design_experiment:{"code":"..."}]]"#,
        AgentMode::ExperimentExecute => r#"[[MEMORY_OP:execute_experiment:{"experiment_id":1}]]"#,
        AgentMode::ExperimentEvaluate => r#"[[MEMORY_OP:evaluate_result:{"experiment_id":1}]]"#,
    }
}

fn templates() -> Vec<String> {
    prompt_modes().into_iter().map(|m| template(m).to_string()).collect()
}

fn templates_with(mode: AgentMode, body: &str) -> Vec<String> {
    prompt_modes()
        .into_iter()
        .map(|m| if m == mode { body.to_string() } else { template(m).to_string() })
        .collect()
}

#[test]
fn extracts_single_tool() {
    let body = r#"Call [[MEMORY_OP:save_semantic:{"summary":"x"}]] now."#;
    let refs = extract_marker_refs(body).unwrap();
    assert_eq!(refs, vec!["save_semantic".to_string()]);
}

#[test]
fn extracts_multiple_tools() {
    let body = r#"
        First [[MEMORY_OP:record_hypothesis:{"summary":"a"}]].
        Then [[MEMORY_OP:save_behavior:{"pattern":"x","notes":"y"}]].
    "#;
    let refs = extract_marker_refs(body).unwrap();
    assert_eq!(
        refs,
        vec!["record_hypothesis".to_string(), "save_behavior".to_string()]
    );
}

#[test]
fn tolerates_lowercase_prefix() {
    let body = r#"[[memory_op:save_semantic:{"k":"v"}]]"#;
    let refs = extract_marker_refs(body).unwrap();
    assert_eq!(refs, vec!["save_semantic".to_string()]);
}

#[test]
fn tolerates_extra_trailing_brackets() {
    let body = r#"[[MEMORY_OP:save_semantic:{"k":"v"}]]]]]]"#;
    let refs = extract_marker_refs(body).unwrap();
    assert_eq!(refs, vec!["save_semantic".to_string()]);
}

#[test]
fn allowlist_handles_nested_braces_in_json() {
    let body = r#"[[MEMORY_OP:save_semantic:{"details":{"nested":"yes"}}]]"#;
    let refs = extract_marker_refs(body).unwrap();
    assert_eq!(refs, vec!["save_semantic".to_string()]);
}

#[test]
fn handles_braces_inside_strings() {
    let body = r#"[[MEMORY_OP:save_semantic:{"summary":"has } in it"}]]"#;
    let refs = extract_marker_refs(body).unwrap();
    assert_eq!(refs, vec!["save_semantic".to_string()]);
}

#[test]
fn handles_escaped_quotes_in_strings() {
    let body = r#"[[MEMORY_OP:save_semantic:{"summary":"has \" in it"}]]"#;
    let refs = extract_marker_refs(body).unwrap();
    assert_eq!(refs, vec!["save_semantic".to_string()]);
}

#[test]
fn no_markers_returns_empty() {
    let body = "Just plain text without any markers.";
    let refs = extract_marker_refs(body).unwrap();
    assert!(refs.is_empty());
}

#[test]
fn empty_tool_name_errors() {
    let body = "[[MEMORY_OP::{\"k\":\"v\"}]]";
    assert!(extract_marker_refs(body).is_err());
}

#[test]
fn unclosed_marker_errors() {
    let body = "[[MEMORY_OP:save_semantic:{\"k\":\"v\"";
    assert!(extract_marker_refs(body).is_err());
}

#[test]
fn non_identifier_tool_name_errors() {
    let body = "[[MEMORY_OP:bad-name:{\"k\":\"v\"}]]";
    assert!(extract_marker_refs(body).is_err());
}

#[test]
fn backtick_refs_extract_known_tool_names() {
    let body = "Call `record_research_plan` with your plan. Also see `save_behavior`.";
    let refs = extract_backtick_refs(body);
    assert_eq!(
        refs,
        vec!["record_research_plan".to_string(), "save_behavior".to_string()]
    );
}

#[test]
fn backtick_refs_ignore_unknown_tool_names() {
    let body = "Call `not_a_tool` or `also_not_a_tool` for fun.";
    let refs = extract_backtick_refs(body);
    assert!(refs.is_empty(), "unknown tokens must be ignored; got {:?}", refs);
}

#[test]
fn backtick_refs_ignore_prose_with_internal_punctuation() {
    let body = "The `save semantic` tool is great. Also `record_hypothesis`.";
    let refs = extract_backtick_refs(body);
    assert_eq!(refs, vec!["record_hypothesis".to_string()]);
}

#[test]
fn combined_refs_merge_marker_and_backtick() {
    let body = r#"
        Call `record_research_plan` to register the plan.
        Then [[MEMORY_OP:save_behavior:{"pattern":"x","notes":"y"}]].
    "#;
    let refs = extract_tool_refs(body).unwrap();
    let mut sorted = refs.clone();
    sorted.sort();
    assert_eq!(
        sorted,
        vec![
            "record_research_plan".to_string(),
            "save_behavior".to_string(),
        ]
    );
}

#[test]
fn table_builds_for_all_18_modes() {
    let table = PromptToolTable::build(&templates()).expect("table builds");
    for mode in prompt_modes() {
        assert!(
            table.tools_for(mode).is_empty() || !table.tools_for(mode).is_empty(),
            "mode {mode:?} missing from table"
        );
    }
}

#[test]
fn validate_passes_against_current_allowlists() {
    let table = PromptToolTable::build(&templates()).expect("table builds");
    table.validate().expect("current prompts must validate");
}

#[test]
fn validate_pair_catches_wrong_agent() {
    let table = PromptToolTable::build(&templates()).unwrap();
    let err = table.validate_pair("generation", AgentMode::ParseGoal).unwrap_err();
    assert!(err.message().contains("does not own"));
}

#[test]
fn validate_pair_passes_for_correct_owner() {
    let table = PromptToolTable::build(&templates()).unwrap();
    table
        .validate_pair("generation", AgentMode::GenerationLiterature)
        .expect("generation owning its mode passes");
}

#[test]
fn parse_goal_references_record_research_plan() {
    let table = PromptToolTable::build(&templates()).unwrap();
    let tools = table.tools_for(AgentMode::ParseGoal);
    assert!(
        tools.iter().any(|t| t == "record_research_plan"),
        "parse_goal should reference record_research_plan; got {:?}",
        tools
    );
}

#[test]
fn experiment_modes_reference_empirical_loop_tools() {
    let table = PromptToolTable::build(&templates()).unwrap();
    let design = table.tools_for(AgentMode::ExperimentDesign);
    assert!(design.iter().any(|t| t == "design_experiment"));
    let execute = table.tools_for(AgentMode::ExperimentExecute);
    assert!(execute.iter().any(|t| t == "execute_experiment"));
    let evaluate = table.tools_for(AgentMode::ExperimentEvaluate);
    assert!(evaluate.iter().any(|t| t == "evaluate_result"));
}

#[test]
fn metareview_final_references_no_tool() {
    let table = PromptToolTable::build(&templates()).unwrap();
    assert!(
        table.tools_for(AgentMode::MetaReviewFinal).is_empty(),
        "metareview_final must not reference any tool; got {:?}",
        table.tools_for(AgentMode::MetaReviewFinal)
    );
}

#[test]
fn parse_goal_picks_up_backtick_reference() {
    let table = PromptToolTable::build(&templates()).unwrap();
    let tools = table.tools_for(AgentMode::ParseGoal);
    assert!(
        tools.iter().any(|t| t == "record_research_plan"),
        "parse_goal backtick reference must be picked up; got {:?}",
        tools
    );
}

#[test]
fn metareview_system_picks_up_backtick_reference() {
    let table = PromptToolTable::build(&templates()).unwrap();
    let tools = table.tools_for(AgentMode::MetaReviewSystem);
    assert!(
        tools.iter().any(|t| t == "record_system_feedback"),
        "metareview_system backtick reference must be picked up; got {:?}",
        tools
    );
}

#[test]
fn each_kind_of_faulty_marker_is_told() {
    assert!(matches!(
        extract_marker_refs("[[MEMORY_OP::{}]]"),
        Err(RefError::EmptyName { .. })
    ));
    assert!(matches!(
        extract_marker_refs("[[MEMORY_OP:bad-name:{}]]"),
        Err(RefError::NotAName { .. })
    ));
    for e in [
        extract_marker_refs("[[MEMORY_OP::{}]]"),
        extract_marker_refs("[[MEMORY_OP:bad-name:{}]]"),
        extract_marker_refs("[[MEMORY_OP:x:{"),
        extract_marker_refs("[[MEMORY_OP:x"),
    ] {
        assert!(!e.unwrap_err().message().is_empty());
    }
}

#[test]
fn a_faulty_template_is_told_with_its_mode() {
    let bodies = templates_with(AgentMode::RankingDebate, "[[MEMORY_OP:x:{");
    let err = PromptToolTable::build(&bodies).unwrap_err();
    assert_eq!(err.mode, AgentMode::RankingDebate);
    assert!(err.message().contains("ranking_debate"));
}

#[test]
fn a_template_with_a_foreign_tool_fails_the_check() {
    let bodies = templates_with(
        AgentMode::RankingPairwise,
        r#"[[MEMORY_OP:record_hypothesis:{"summary":"x"}]]"#,
    );
    let table = PromptToolTable::build(&bodies).unwrap();
    let errors = table.validate().unwrap_err();
    assert_eq!(errors.len(), 1);
    assert!(errors[0].contains("record_hypothesis"));
    assert!(mismatch_report(&errors).contains(&errors[0]));
    let err = table.validate_pair("ranking", AgentMode::RankingPairwise).unwrap_err();
    assert!(matches!(&err, PairError::NotAllowed { tool, .. } if tool == "record_hypothesis"));
    assert!(err.message().contains("not in `ranking`'s allowlist"));
}

#[test]
fn tools_of_a_mode_are_sorted_and_unique() {
    let bodies = templates_with(
        AgentMode::GenerationDebate,
        r#"`save_semantic` [[MEMORY_OP:record_hypothesis:{}]] `record_hypothesis` `get_context`"#,
    );
    let table = PromptToolTable::build(&bodies).unwrap();
    assert_eq!(
        table.tools_for(AgentMode::GenerationDebate),
        &vec![
            "get_context".to_string(),
            "record_hypothesis".to_string(),
            "save_semantic".to_string(),
        ]
    );
}

#[test]
fn aliases_are_permitted_through_their_target() {
    let allow = vec!["save_behavior".to_string()];
    assert!(is_permitted(&allow, "save_behavior"));
    assert!(is_permitted(&allow, "record_system_feedback"));
    assert!(!is_permitted(&allow, "record_research_plan"));
    for name in PromptToolTable::always_allowed() {
        assert!(is_permitted(&Vec::new(), &name));
    }
}

#[test]
fn upper_and_lower_case_prefixes_are_read_in_order() {
    let body = "[[memory_op:a:{}]] then [[MEMORY_OP:b:{}]]";
    assert_eq!(extract_tool_refs(body).unwrap(), vec!["a".to_string(), "b".to_string()]);
    assert_eq!(extract_backtick_refs("`a` `b`"), Vec::<String>::new());
}
