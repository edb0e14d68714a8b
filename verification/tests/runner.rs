use co_scientist::agent_loop::runner::{
    connect_options, dispatch_record, failure_report, prepare_user_prompt, retry_wait,
    turn_completed_details, BusReading, CachedPromptBlocks, PromptContextCache, QueryFailure, Runner,
    RunnerConfig, CLOSING_REMINDER,
};
use co_scientist::agent_loop::system_prompt::{
    agent_summary, build_system_prompt, format_prior_block, render_agent_skills, tools_for_agent,
    BehaviorMemory, PromptSources, SkillCard, SkillShelf, ToolInfo, TurnPhase,
};
use co_scientist::agents::{find_agent, Agent};
use co_scientist::claude_cli::PermissionMode;
use co_scientist::lifecycle::bus::MemoryEvent;
use co_scientist::marker::normalizer::normalize;
use co_scientist::marker::skill::parse_markers;
use co_scientist::json::{Json, Number};
use serde_json::Value;

fn json(text: &str) -> Json {
    from_value(&serde_json::from_str(text).expect("valid JSON"))
}

fn from_value(v: &Value) -> Json {
    match v {
        Value::Null => Json::Null,
        Value::Bool(b) => Json::Bool(*b),
        Value::Number(n) => Json::Number(if let Some(u) = n.as_u64() {
            Number::PosInt(u)
        } else if let Some(i) = n.as_i64() {
            Number::NegInt(i)
        } else {
            Number::Float(n.to_string())
        }),
        Value::String(s) => Json::Str(s.clone()),
        Value::Array(items) => Json::Array(items.iter().map(from_value).collect()),
        Value::Object(map) => {
            Json::Object(map.iter().map(|(k, v)| (k.clone(), from_value(v))).collect())
        }
    }
}

fn to_value(v: &Json) -> Value {
    match v {
        Json::Null => Value::Null,
        Json::Bool(b) => Value::from(*b),
        Json::Number(Number::PosInt(n)) => Value::from(*n),
        Json::Number(Number::NegInt(n)) => Value::from(*n),
        Json::Number(Number::Float(s)) => serde_json::from_str(s).expect("a number"),
        Json::Str(s) => Value::from(s.as_str()),
        Json::Array(items) => Value::from(items.iter().map(to_value).collect::<Vec<Value>>()),
        Json::Object(fields) => Value::Object(
            fields.iter().map(|(k, v)| (k.clone(), to_value(v))).collect::<serde_json::Map<String, Value>>(),
        ),
    }
}

fn new_runner() -> Runner {
    Runner::new("test-runner", RunnerConfig::for_model(None))
}

fn tool(name: &str) -> ToolInfo {
    ToolInfo {
        name: name.into(),
        description: format!("About {name}.\nMore about it."),
        schema: json(
            r#"{"type":"object","properties":{"summary":{"type":"string","description":"What it says.\nAt length."},"scope":{"type":"string"}},"required":["summary","scope","other",7]}"#,
        ),
    }
}

fn registry() -> Vec<ToolInfo> {
    [
        "archive_observation",
        "delete_observation",
        "get_context",
        "record_hypothesis",
        "record_tournament_match",
        "save_semantic",
    ]
    .iter()
    .map(|n| tool(n))
    .collect()
}

fn sources(prior_session: &str) -> PromptSources {
    PromptSources {
        registry: registry(),
        guide: "## Long-term memory".into(),
        prior: Vec::new(),
        prior_session: prior_session.into(),
        shelf: None,
        marker_errors: Vec::new(),
    }
}

fn prompt(runner: &Runner, agent: &Agent, prior_session: &str) -> String {
    build_system_prompt(agent, TurnPhase::from_runner(runner), &sources(prior_session))
}

#[test]
fn turn_phase_distinguishes_first_and_subsequent() {
    let phase_first = TurnPhase::FirstTurn;
    let phase_next = TurnPhase::Subsequent;
    assert_ne!(phase_first, phase_next);
}

#[test]
fn prompt_cache_hit_returns_same_blocks() {
    let mut cache = PromptContextCache::new();
    assert_eq!(cache._len(), 0);
    assert!(cache.get(0).is_none());

    let blocks = CachedPromptBlocks {
        prior_behavior: Vec::new(),
        prior_session: "abc".to_string(),
        marker_errors: Vec::new(),
        step_index: 0,
    };
    cache.put(blocks);
    assert_eq!(cache._len(), 1);

    let cached = cache.get(0).expect("step 0 cache hit");
    assert_eq!(cached.prior_session, "abc");
    assert_eq!(cached.step_index, 0);

    assert!(cache.get(1).is_none());

    cache.invalidate();
    assert_eq!(cache._len(), 0);
    assert!(cache.get(0).is_none());
}

#[test]
fn format_prior_block_empty_returns_empty_string() {
    let out = format_prior_block(&[]);
    assert_eq!(out, "");
}

#[test]
fn format_prior_block_single_note_renders_one_bullet() {
    let notes = vec![BehaviorMemory {
        id: 1,
        agent_id: 1,
        pattern: "skip_empty".into(),
        notes: "do not generate empty sections".into(),
        evidence: None,
        created_at: "2026-01-01T00:00:00Z".into(),
    }];
    let out = format_prior_block(&notes);
    assert!(out.contains("## Your prior self-critique"));
    assert!(out.contains("- skip_empty: do not generate empty sections"));
}

#[test]
fn format_prior_block_many_notes_render_in_order() {
    let mk = |pattern: &str, notes: &str| BehaviorMemory {
        id: 0,
        agent_id: 1,
        pattern: pattern.into(),
        notes: notes.into(),
        evidence: None,
        created_at: "2026-01-01T00:00:00Z".into(),
    };
    let notes = vec![
        mk("a", "first"),
        mk("b", "second"),
        mk("c", "third"),
    ];
    let out = format_prior_block(&notes);
    let pos_a = out.find("a: first").unwrap();
    let pos_b = out.find("b: second").unwrap();
    let pos_c = out.find("c: third").unwrap();
    assert!(pos_a < pos_b && pos_b < pos_c, "notes must render in input order");
}

#[test]
fn prompt_cache_second_put_overwrites_first() {
    let mut cache = PromptContextCache::new();
    cache.put(CachedPromptBlocks {
        prior_behavior: Vec::new(),
        prior_session: "first".into(),
        marker_errors: Vec::new(),
        step_index: 0,
    });
    cache.put(CachedPromptBlocks {
        prior_behavior: Vec::new(),
        prior_session: "second".into(),
        marker_errors: Vec::new(),
        step_index: 0,
    });
    let cached = cache.get(0).unwrap();
    assert_eq!(cached.prior_session, "second");
}

#[test]
fn prompt_cache_invalidate_is_idempotent() {
    let mut cache = PromptContextCache::new();
    cache.invalidate();
    cache.invalidate();
    cache.invalidate();
    assert_eq!(cache._len(), 0);
    assert!(cache.get(0).is_none());
}

#[test]
fn prompt_cache_negative_step_does_not_crash() {
    let mut cache = PromptContextCache::new();
    cache.put(CachedPromptBlocks {
        prior_behavior: Vec::new(),
        prior_session: "x".into(),
        marker_errors: Vec::new(),
        step_index: -1,
    });
    let cached = cache.get(-1).expect("negative step should hit cache");
    assert_eq!(cached.prior_session, "x");
    assert!(cache.get(0).is_none(), "step 0 is a different slot");
    assert!(cache.get(-2).is_none(), "step -2 is a different slot");
}

#[test]
fn prompt_cache_large_step_round_trips() {
    let mut cache = PromptContextCache::new();
    cache.put(CachedPromptBlocks {
        prior_behavior: Vec::new(),
        prior_session: "x".into(),
        marker_errors: Vec::new(),
        step_index: i64::MAX,
    });
    let cached = cache.get(i64::MAX).unwrap();
    assert_eq!(cached.step_index, i64::MAX);
}

#[test]
fn prompt_cache_preserves_marker_error_ordering() {
    let mut cache = PromptContextCache::new();
    let errors = vec![
        ("save_semantic".to_string(), "missing summary".to_string()),
        ("record_hypothesis".to_string(), "bad json".to_string()),
        ("peek_context".to_string(), "unknown id".to_string()),
    ];
    cache.put(CachedPromptBlocks {
        prior_behavior: Vec::new(),
        prior_session: String::new(),
        marker_errors: errors.clone(),
        step_index: 0,
    });
    let cached = cache.get(0).unwrap();
    assert_eq!(cached.marker_errors, errors);
}

#[test]
fn personality_and_skills_preamble_appear_on_first_turn_only() {
    let mut runner = new_runner();
    let agent = find_agent("generation").unwrap();

    let first = prompt(&runner, &agent, "");
    assert!(
        first.contains("Cross-domain hunter"),
        "personality must be present on the first turn"
    );
    assert!(
        first.contains("## Your callable skills") || agent.skills.is_empty(),
        "either preamble is shown or agent.skills is empty"
    );

    runner._bump_turns_completed();

    let second = prompt(&runner, &agent, "");
    assert!(
        !second.contains("Cross-domain hunter"),
        "personality must be dropped after the first turn"
    );
    assert!(
        !second.contains("## Your callable skills"),
        "skills preamble must be dropped after the first turn"
    );
}

#[test]
fn render_agent_skills_returns_empty_when_agent_has_no_skills() {
    let runner = new_runner();
    let agent = find_agent("generation").unwrap();
    assert!(agent.skills.is_empty());
    assert_eq!(render_agent_skills(&agent, &runner.shelf), "");
}

#[test]
fn turn_phase_zero_turns_is_first() {
    let mut runner = new_runner();
    runner.turns_completed = 0;
    assert_eq!(TurnPhase::from_runner(&runner), TurnPhase::FirstTurn);
}

#[test]
fn turn_phase_one_completed_turn_is_subsequent() {
    let mut runner = new_runner();
    runner.turns_completed = 1;
    assert_eq!(TurnPhase::from_runner(&runner), TurnPhase::Subsequent);
}

#[test]
fn turn_phase_many_completed_turns_stays_subsequent() {
    let mut runner = new_runner();
    runner.turns_completed = 9999;
    assert_eq!(TurnPhase::from_runner(&runner), TurnPhase::Subsequent);
}

#[test]
fn build_system_prompt_handles_agent_with_no_modes() {
    let runner = new_runner();
    let agent = Agent {
        name: "empty-agent",
        role: "an agent with no modes",
        modes: vec![],
        personality: "minimal personality",
        skills: vec![],
    };
    let prompt = prompt(&runner, &agent, "");
    assert!(prompt.contains("You are the `empty-agent` agent"));
    assert!(prompt.contains("Modes owned: "));
    assert!(prompt.contains("minimal personality"));
}

#[test]
fn build_system_prompt_supervisor_has_no_tools_block() {
    let runner = new_runner();
    let agent = find_agent("supervisor").unwrap();
    let prompt = prompt(&runner, &agent, "");
    assert!(
        !prompt.contains("How to call tools"),
        "supervisor should not see the tools block"
    );
    assert!(
        !prompt.contains("## Long-term memory"),
        "supervisor should not see the SKILL.md block"
    );
}

#[test]
fn build_system_prompt_ranking_has_no_tools_block() {
    let runner = new_runner();
    let agent = find_agent("ranking").unwrap();
    let prompt = prompt(&runner, &agent, "");
    assert!(!prompt.contains("How to call tools"));
    assert!(!prompt.contains("## Long-term memory"));
}

#[test]
fn build_system_prompt_drops_personality_on_subsequent_turn() {
    let mut runner = new_runner();
    let agent = find_agent("generation").unwrap();
    runner._bump_turns_completed();
    let prompt = prompt(&runner, &agent, "");
    assert!(!prompt.contains("Cross-domain hunter"));
    assert!(prompt.contains("You are the `generation` agent"));
}

#[test]
fn build_system_prompt_lists_only_allowlisted_tools() {
    let runner = new_runner();
    let ranking = find_agent("ranking").unwrap();
    let ranking_prompt = prompt(&runner, &ranking, "");
    assert!(!ranking_prompt.contains("**record_tournament_match**"));

    let gen_agent = find_agent("generation").unwrap();
    let gen_prompt = prompt(&runner, &gen_agent, "");
    assert!(gen_prompt.contains("**save_semantic**"));
    assert!(gen_prompt.contains("**record_hypothesis**"));
    assert!(
        !gen_prompt.contains("**archive_observation**"),
        "curator-only tool leaked into generation's allowlist"
    );
    assert!(
        !gen_prompt.contains("**delete_observation**"),
        "curator-only tool leaked into generation's allowlist"
    );
}

#[test]
fn build_system_prompt_warns_against_hallucinated_tool_names() {
    let runner = new_runner();
    let gen_agent = find_agent("generation").unwrap();
    let prompt = prompt(&runner, &gen_agent, "");
    assert!(prompt.contains("exact match, no synonyms, no prefixes"));
    assert!(prompt.contains("add_memory"));
    assert!(prompt.contains("Write"));
}

#[test]
fn build_system_prompt_recall_workflow_above_tool_schemas() {
    let runner = new_runner();
    let gen_agent = find_agent("generation").unwrap();
    let prompt = prompt(&runner, &gen_agent, "");
    let workflow_pos = prompt
        .find("Memory recall workflow (token-efficient)")
        .expect("3-layer workflow block must be present");
    let schemas_pos = prompt
        .find("Tools you can call")
        .expect("per-tool schema block must be present");
    assert!(
        workflow_pos < schemas_pos,
        "3-layer workflow must come BEFORE the per-tool schemas; \
         workflow at {workflow_pos}, schemas at {schemas_pos}"
    );
}

#[test]
fn build_system_prompt_empty_prior_session_no_block() {
    let runner = new_runner();
    let gen_agent = find_agent("generation").unwrap();
    let prompt = prompt(&runner, &gen_agent, "");
    assert!(!prompt.contains("(no prior sessions)"));
}

#[test]
fn build_system_prompt_swallows_no_prior_sessions_sentinel() {
    let runner = new_runner();
    let gen_agent = find_agent("generation").unwrap();
    let prompt = prompt(&runner, &gen_agent, "## From prior sessions\n(no prior sessions)\n");
    assert!(!prompt.contains("(no prior sessions)"));
}

#[test]
fn render_agent_skills_emits_name_and_one_liner_per_skill() {
    let shelf = Some(SkillShelf {
        path: "/nonexistent".into(),
        skills: vec![
            SkillCard { name: "foo".into(), description: "Does the foo thing well.".into() },
            SkillCard {
                name: "bar".into(),
                description: "Bar.\nSecond line that should be truncated.".into(),
            },
        ],
    });
    let agent = Agent {
        name: "test-agent",
        role: "test",
        modes: vec![],
        personality: "",
        skills: vec!["foo", "bar", "missing"],
    };
    let out = render_agent_skills(&agent, &shelf);
    assert!(out.contains("- `foo` — Does the foo thing well."));
    assert!(out.contains("- `bar` — Bar."));
    assert!(!out.contains("Second line that should be truncated"));
    assert!(out.contains("`missing` (not found at /nonexistent)"));
    let lost = Agent {
        name: "test-agent",
        role: "test",
        modes: vec![],
        personality: "",
        skills: vec!["missing"],
    };
    assert_eq!(render_agent_skills(&lost, &shelf), "");
}

#[test]
fn prepare_user_prompt_empty_user_text_still_has_reminder() {
    let prompt = prepare_user_prompt("", 1, "some context");
    assert!(prompt.contains(CLOSING_REMINDER));
    assert!(!prompt.contains("(no prior context)"));
    assert_eq!(prompt, CLOSING_REMINDER);
}

#[test]
fn prepare_user_prompt_step_zero_no_prior_data() {
    let prompt = prepare_user_prompt("do thing", 0, "(no prior context)\n");
    assert!(prompt.contains("do thing"));
    assert!(prompt.contains(CLOSING_REMINDER));
    let prompt = prepare_user_prompt("do thing", 0, "## Context\nx");
    assert!(prompt.starts_with("## Context\nx\n\ndo thing"));
}

#[test]
fn prepare_user_prompt_closing_reminder_appears_exactly_once() {
    for step in [0i64, 1, 5, 100] {
        let prompt = prepare_user_prompt("body", step, "context");
        let count = prompt.matches(CLOSING_REMINDER).count();
        assert_eq!(count, 1, "reminder duplicated at step {step}");
    }
}

#[test]
fn prepare_user_prompt_preserves_user_text_verbatim() {
    let body = "first line\nsecond line\n{\"json\":\"in user text\"}\n日本語 🚀";
    let prompt = prepare_user_prompt(body, 1, "");
    assert!(prompt.contains(body), "user text must round-trip");
}

#[test]
fn prompt_cache_invalidates_on_external_semantic_saved() {
    let mut cache = PromptContextCache::new();
    cache.put(CachedPromptBlocks {
        prior_behavior: vec![],
        prior_session: "old".into(),
        marker_errors: vec![],
        step_index: 0,
    });
    assert_eq!(cache._len(), 1, "cache populated");
    let reading = BusReading::Event(MemoryEvent::SemanticSaved {
        id: 1,
        run_id: "external-run".into(),
        scope: "experiment".into(),
        summary: "from consolidation".into(),
    });
    assert!(cache.hear(&reading, "external-run"));
    assert_eq!(cache._len(), 0, "cache must invalidate on SemanticSaved");
}

#[test]
fn prompt_cache_ignores_semantic_saved_from_other_run() {
    let mut cache = PromptContextCache::new();
    cache.put(CachedPromptBlocks {
        prior_behavior: vec![],
        prior_session: "old".into(),
        marker_errors: vec![],
        step_index: 0,
    });
    let saved = |run: &str| {
        BusReading::Event(MemoryEvent::SemanticSaved {
            id: 1,
            run_id: run.into(),
            scope: "experiment".into(),
            summary: "not mine".into(),
        })
    };
    assert!(cache.hear(&saved("other-run"), "this-run"));
    assert_eq!(cache._len(), 1, "cache must NOT invalidate on other-run SemanticSaved");
    assert!(cache.hear(&saved("this-run"), "this-run"));
    assert_eq!(cache._len(), 0, "cache must invalidate on this-run SemanticSaved");
}

#[test]
fn lost_events_and_behaviour_notes_outdate_the_cache() {
    let mut cache = PromptContextCache::new();
    let blocks = || CachedPromptBlocks {
        prior_behavior: vec![],
        prior_session: "old".into(),
        marker_errors: vec![],
        step_index: 0,
    };
    cache.put(blocks());
    assert!(cache.hear(&BusReading::Lagged, "r"));
    assert_eq!(cache._len(), 0);
    cache.put(blocks());
    let noted = MemoryEvent::BehaviorSaved { id: 1, agent: "a".into(), pattern: "p".into() };
    assert!(cache.hear(&BusReading::Event(noted), "r"));
    assert_eq!(cache._len(), 0);
    cache.put(blocks());
    assert!(!cache.hear(&BusReading::Closed, "r"));
    assert_eq!(cache._len(), 1);
}

#[test]
fn dispatch_marker_alias_rewrites_record_research_plan() {
    let (tool, payload) =
        normalize("record_research_plan", json(r#"{"summary": "plan summary"}"#)).unwrap();
    assert_eq!(tool, "save_semantic");
    assert_eq!(payload.str_at("scope").unwrap(), "plan");
    let record = dispatch_record("supervisor", "record_research_plan", &tool, &payload, None);
    assert_eq!(record.kind, "memory_op");
    assert_eq!(
        to_value(&record.details),
        to_value(&json(r#"{"op":"record_research_plan","aliased_to":"save_semantic"}"#))
    );
    assert!(record.announced.is_none());
}

#[test]
fn dispatch_marker_unknown_op_returns_err() {
    let payload = json(r#"{"x": 1, "y": 2}"#);
    let record = dispatch_record("generation", "Add", "Add", &payload, Some("unknown tool: Add"));
    assert_eq!(record.kind, "memory_op_failed");
    assert_eq!(
        to_value(&record.details),
        to_value(&json(
            r#"{"op":"Add","aliased_to":"Add","error":"unknown tool: Add","payload_keys":["x","y"]}"#
        ))
    );
    match record.announced {
        Some(MemoryEvent::MarkerFailed { agent, op, error }) => {
            assert_eq!((agent.as_str(), op.as_str()), ("generation", "Add"));
            assert_eq!(error, "unknown tool: Add");
        }
        other => panic!("expected MarkerFailed, got {other:?}"),
    }
    let record = dispatch_record("generation", "Add", "Add", &Json::Null, Some("e"));
    assert!(matches!(record.details.get("payload_keys"), Some(Json::Null)));
}

#[test]
fn tools_are_described_with_their_required_fields() {
    let runner = new_runner();
    let agent = find_agent("generation").unwrap();
    let prompt = prompt(&runner, &agent, "");
    assert!(prompt.contains(
        "**save_semantic** — About save_semantic.\n  Required: `summary`: string — What it says., `scope`: string, `other`: any\n  Example: `[[MEMORY_OP:save_semantic:{...}]]`\n\n"
    ));
    assert!(prompt.contains(
        "You may ONLY use these tool names (exact match, no synonyms, no prefixes): save_semantic, get_context, record_hypothesis.\n"
    ));
    let registry = registry();
    let names: Vec<&str> =
        tools_for_agent(&registry, "ranking").iter().map(|t| t.name.as_str()).collect();
    assert_eq!(names, vec!["record_tournament_match"]);
    assert!(tools_for_agent(&registry, "nobody").is_empty());
}

#[test]
fn failed_calls_and_notes_are_shown() {
    let agent = find_agent("evolution").unwrap();
    let mut s = sources("## From prior sessions\nx");
    s.marker_errors = vec![("save_semantic".into(), "missing summary".into())];
    s.registry.clear();
    let prompt = build_system_prompt(&agent, TurnPhase::Subsequent, &s);
    assert_eq!(
        prompt,
        format!(
            "You are the `evolution` agent.\n\nRole: {}\n\nModes owned: evolution_combine, evolution_simplify, evolution_feasibility, evolution_out_of_box\n\n\n## Long-term memory\n\n## From prior sessions\nx\n\n## Previous turn marker errors\nYour recent tool calls had errors. Review and fix your marker format:\n- `save_semantic`: missing summary\n\nMake sure your marker is on its own line and JSON args match the required fields.\n",
            agent.role
        )
    );
    assert_eq!(
        agent_summary(&agent),
        format!(
            "Agent: evolution\nRole: {}\nModes: evolution_combine, evolution_simplify, evolution_feasibility, evolution_out_of_box",
            agent.role
        )
    );
}

#[test]
fn turns_are_counted_and_noted() {
    let mut runner = new_runner();
    assert!(runner.wants_context());
    let start = runner.begin_turn("hi", "(no prior context)");
    assert_eq!(start.step, 0);
    assert_eq!(start.prompt, format!("hi{CLOSING_REMINDER}"));
    assert_eq!(start.details.i64_at("prompt_len"), Some(start.prompt.len() as i64));
    assert_eq!(runner.trace_step(), 1);
    assert!(!runner.wants_context());
    runner.prompt_cache.put(CachedPromptBlocks {
        prior_behavior: vec![],
        prior_session: "x".into(),
        marker_errors: vec![],
        step_index: 1,
    });
    let raw = "ä [[MEMORY_OP:x:{}]] b";
    let parsed = parse_markers(raw);
    let n = runner.note_dispatch(false, 0);
    assert_eq!((n, runner._prompt_cache_len()), (0, 1));
    let n = runner.note_dispatch(true, n);
    assert_eq!((n, runner._prompt_cache_len()), (1, 0));
    runner.prompt_cache.put(CachedPromptBlocks {
        prior_behavior: vec![],
        prior_session: "y".into(),
        marker_errors: vec![],
        step_index: 1,
    });
    runner._invalidate_prompt_cache();
    assert_eq!(runner._prompt_cache_len(), 0);
    let details = turn_completed_details(raw, &parsed, n, true);
    assert_eq!(
        to_value(&details),
        to_value(&json(
            r#"{"raw_len":23,"cleaned_len":5,"markers":1,"dispatched":1,"streamed":true}"#
        ))
    );
    let outcome = runner.end_turn(parsed, n);
    assert_eq!((outcome.cleaned_text.as_str(), outcome.dispatched), ("ä  b", 1));
    assert_eq!(runner._turns_completed(), 1);
    assert_eq!(TurnPhase::from_runner(&runner), TurnPhase::Subsequent);
}

#[test]
fn skills_are_forgotten_with_their_directory() {
    let mut config = RunnerConfig::for_model(Some("opus".into()));
    config.skills_dir = Some("/a".into());
    let mut runner = Runner::new("r", config);
    assert_eq!(runner.model(), "opus");
    runner.shelf.as_mut().unwrap().skills.push(SkillCard { name: "x".into(), description: "".into() });
    runner.set_skills_dir("/a");
    assert_eq!(runner.shelf.as_ref().unwrap().skills.len(), 1);
    runner.set_skills_dir("/b");
    assert!(runner.shelf.as_ref().unwrap().skills.is_empty());
    let options = connect_options(&runner.config, "sys".into());
    assert_eq!(options.model.as_deref(), Some("opus"));
    assert_eq!(options.system_prompt.as_deref(), Some("sys"));
    assert_eq!(options.max_turns, Some(3));
    assert_eq!(options.permission_mode, Some(PermissionMode::BypassPermissions));
    assert_eq!(options.allowed_tools, vec!["Bash", "Read"]);
    assert_eq!(RunnerConfig::for_model(None).model, "sonnet");
}

#[test]
fn failures_are_tried_again_until_they_are_final() {
    let lost = || QueryFailure::Error("connection reset by peer".into());
    let denied = QueryFailure::Error("invalid api key".into());
    let wait = retry_wait(&lost(), 4, 0).unwrap();
    assert!(wait < 250);
    let wait = retry_wait(&lost(), 4, 1).unwrap();
    assert!((1000..1250).contains(&wait));
    let wait = retry_wait(&QueryFailure::TimedOut, 4, 1).unwrap();
    assert!((1000..1500).contains(&wait));
    assert_eq!(retry_wait(&lost(), 4, 2), None);
    assert_eq!(retry_wait(&QueryFailure::TimedOut, 4, 2), None);
    assert_eq!(retry_wait(&denied, 4, 0), None);
    assert_eq!(failure_report(&denied, "cli", false, "300s"), "cli query failed");
    assert_eq!(failure_report(&denied, "cli", true, "300s"), "cli stream query failed");
    assert_eq!(
        failure_report(&QueryFailure::TimedOut, "cli", false, "300s"),
        "cli query timed out after 300s (3 attempts)"
    );
    assert_eq!(
        failure_report(&QueryFailure::TimedOut, "cli", true, "300s"),
        "cli stream query timed out after 300s (3 attempts)"
    );
}
