use co_scientist::agent_loop::prompt_build::{
    build_prompt, contender_ids, experiment_fallback, hypothesis_text, latest_review, prompt_need,
    show_output, Contender, ExperimentRow, Material, PromptError, PromptNeed, PromptPlan, ReviewRow,
};
use co_scientist::agent_loop::run_agent::{
    absorb_retry, accept_task, build_ranking_retry_prompt, call_report,
    ensure_hypothesis_for_semantic, follow_up_specs, follow_up_tasks, idle_specs, input_schema,
    link_saved, next_retry, plan_follow_ups, spec_for, FollowUpPlan, IdleState, MarkerIds, SemanticLink,
    SessionRunners, TaskError,
};
use co_scientist::agent_loop::runner::TurnOutcome;
use co_scientist::hypothesis::{HypothesisRepo, HypothesisState};
use co_scientist::marker::allowlist::PromptToolTable;
use co_scientist::marker::skill::Marker;
use co_scientist::prompts::{prompt_modes, AgentMode};
use co_scientist::json::{Json, Number};
use serde_json::Value;

fn json(text: &str) -> Json {
    from_value(&serde_json::from_str(text).expect("valid JSON"))
}

fn from_value(v: &Value) -> Json {
    match v {
        Value::Null => Json::Null,
        Value::Bool(b) => Json::Bool(*b),
        Value::Number(n) => Json::Number(if let Some(u) = n.as_u64() {
            Number::PosInt(u)
        } else if let Some(i) = n.as_i64() {
            Number::NegInt(i)
        } else {
            Number::Float(n.to_string())
        }),
        Value::String(s) => Json::Str(s.clone()),
        Value::Array(items) => Json::Array(items.iter().map(from_value).collect()),
        Value::Object(map) => {
            Json::Object(map.iter().map(|(k, v)| (k.clone(), from_value(v))).collect())
        }
    }
}

fn to_value(v: &Json) -> Value {
    match v {
        Json::Null => Value::Null,
        Json::Bool(b) => Value::from(*b),
        Json::Number(Number::PosInt(n)) => Value::from(*n),
        Json::Number(Number::NegInt(n)) => Value::from(*n),
        Json::Number(Number::Float(s)) => serde_json::from_str(s).expect("a number"),
        Json::Str(s) => Value::from(s.as_str()),
        Json::Array(items) => Value::from(items.iter().map(to_value).collect::<Vec<Value>>()),
        Json::Object(fields) => Value::Object(
            fields.iter().map(|(k, v)| (k.clone(), to_value(v))).collect::<serde_json::Map<String, Value>>(),
        ),
    }
}

fn field<'a>(p: &'a PromptPlan, key: &str) -> &'a str {
    &p.fields.iter().find(|f| f.0 == key).expect("the field is set").1
}

fn material() -> Material {
    Material {
        hypothesis: None,
        experiment: None,
        reviews: Vec::new(),
        verdict: None,
        contenders: Vec::new(),
        notes: Vec::new(),
    }
}

fn experiment() -> ExperimentRow {
    ExperimentRow {
        id: 7,
        hypothesis_id: 3,
        status: "done".into(),
        metric_name: "accuracy".into(),
        metric_value: Some("0.5".into()),
        code: "print(1)".into(),
        error: None,
        exit_code: Some(-1),
        duration_ms: None,
        stdout: Some("x".repeat(2001)),
        stderr: None,
    }
}

fn idle_state() -> IdleState {
    IdleState {
        session_id: "s".into(),
        goal: "g".into(),
        preferences: "".into(),
        total_hypotheses: 2,
        mature_hypotheses: 0,
        match_count: 0,
        last_meta_review_at: 0,
        meta_review_interval: 5,
        min_hypotheses: 3,
        min_mature: 2,
        top_hypotheses_empty: false,
        hypothesis_needing_experiment: None,
    }
}

fn outcome(text: &str, ops: &[&str], dispatched: u32) -> TurnOutcome {
    TurnOutcome {
        cleaned_text: text.into(),
        markers: ops.iter().map(|o| Marker { op: o.to_string(), payload: "{}".into() }).collect(),
        dispatched,
    }
}

fn table() -> PromptToolTable {
    let bodies = prompt_modes()
        .into_iter()
        .map(|m| {
            if m == AgentMode::RankingDebate {
                "call `record_hypothesis`".to_string()
            } else {
                String::new()
            }
        })
        .collect();
    PromptToolTable::build(&bodies).unwrap()
}

#[test]
fn follow_up_specs_cover_all_known_edges() {
    let g = spec_for("generation", "");
    assert!(g.is_some(), "generation must have a follow-up spec");
    let g = g.unwrap();
    assert_eq!(g.next_agent, "reflection");
    assert_eq!(g.next_mode, "reflection_review");
    assert!(g.requires_hypothesis);

    let e = spec_for("evolution", "");
    assert!(e.is_some());
    assert!(e.unwrap().requires_hypothesis);

    let r = spec_for("reflection", "");
    assert_eq!(r.unwrap().next_agent, "ranking");

    assert_eq!(
        spec_for("experiment", "experiment_design").unwrap().next_mode,
        "experiment_execute"
    );
    assert_eq!(
        spec_for("experiment", "experiment_execute").unwrap().next_mode,
        "experiment_evaluate"
    );
    assert_eq!(
        spec_for("experiment", "experiment_evaluate").unwrap().next_mode,
        "reflection_on_result"
    );

    assert!(spec_for("ranking", "").is_none());
    assert!(spec_for("supervisor", "parse_goal").is_none());
    assert!(spec_for("metareview", "metareview_system").is_none());
}

#[test]
fn spec_for_unknown_returns_none() {
    assert!(spec_for("nope", "").is_none());
    assert!(spec_for("nope", "anything").is_none());
    assert!(spec_for("experiment", "not_a_real_stage").is_none());
}

#[test]
fn spec_for_experiment_modes_are_distinct() {
    let design = spec_for("experiment", "experiment_design");
    let execute = spec_for("experiment", "experiment_execute");
    let evaluate = spec_for("experiment", "experiment_evaluate");
    let bogus = spec_for("experiment", "experiment_foobar");
    assert!(design.is_some());
    assert!(execute.is_some());
    assert!(evaluate.is_some());
    assert!(bogus.is_none(), "unknown experiment mode must not match any spec");
    assert_ne!(design.unwrap().next_mode, execute.unwrap().next_mode);
    assert_ne!(execute.unwrap().next_mode, evaluate.unwrap().next_mode);
}

#[test]
fn follow_up_specs_mode_aware_rows_take_precedence() {
    let modes: Vec<Option<&str>> = follow_up_specs()
        .iter()
        .filter(|s| s.from_agent == "experiment")
        .map(|s| s.from_mode)
        .collect();
    assert!(modes.contains(&Some("experiment_design")));
    assert!(modes.contains(&Some("experiment_execute")));
    assert!(modes.contains(&Some("experiment_evaluate")));
    let mut seen = std::collections::HashSet::new();
    for s in follow_up_specs() {
        let key = (s.from_agent, s.from_mode);
        assert!(
            seen.insert(key),
            "duplicate row: agent={:?} mode={:?}",
            s.from_agent,
            s.from_mode
        );
    }
}

#[test]
fn session_runners_cache_hit_returns_same_arc() {
    let mut cache = SessionRunners::new();
    let a1 = cache.get_or_build("sess-1", "generation");
    let a2 = cache.get_or_build("sess-1", "generation");
    assert_eq!(a1.0, a2.0, "the same pair gets the same slot");
    assert!(a1.1 && !a2.1);
    assert_eq!(cache._len(), 1);
}

#[test]
fn session_runners_distinct_agents_get_distinct_runners() {
    let mut cache = SessionRunners::new();
    let gen_runner = cache.get_or_build("sess-1", "generation");
    let rev = cache.get_or_build("sess-1", "reflection");
    assert_ne!(gen_runner.0, rev.0);
    assert_eq!(cache._len(), 2);
}

#[test]
fn session_runners_distinct_sessions_get_distinct_runners() {
    let mut cache = SessionRunners::new();
    let s1 = cache.get_or_build("sess-1", "generation");
    let s2 = cache.get_or_build("sess-2", "generation");
    assert_ne!(s1.0, s2.0);
    assert_eq!(cache._len(), 2);
}

#[test]
fn session_runners_clear_drops_all_entries() {
    let mut cache = SessionRunners::new();
    cache.get_or_build("sess-1", "generation");
    cache.get_or_build("sess-1", "reflection");
    assert_eq!(cache._len(), 2);
    cache._clear();
    assert_eq!(cache._len(), 0);
    assert!(cache.get_or_build("sess-1", "generation").1);
}

#[test]
fn session_runners_empty_agent_name_is_distinct_slot() {
    let mut cache = SessionRunners::new();
    let empty = cache.get_or_build("sess", "");
    let gen_runner = cache.get_or_build("sess", "generation");
    assert_ne!(empty.0, gen_runner.0);
    assert_eq!(cache._len(), 2);
}

#[test]
fn session_runners_empty_session_id_is_distinct_slot() {
    let mut cache = SessionRunners::new();
    let empty = cache.get_or_build("", "generation");
    let real = cache.get_or_build("real-sess", "generation");
    assert_ne!(empty.0, real.0);
    assert_eq!(cache._len(), 2);
}

#[test]
fn retry_prompt_holds_prompt_and_count() {
    let p = build_ranking_retry_prompt("compare 3 and 4", 1);
    assert!(p.starts_with("compare 3 and 4\n\n---\n\n## Retry 1/2 — your previous marker was rejected\n\n"));
    assert!(p.contains("must be exactly `record_tournament_match`. It must NOT be `memory_op`"));
    assert!(p.contains(
        "and no others:\n- `hypothesis_a` (integer) — the first hypothesis ID from the prompt above\n- `hypothesis_b`"
    ));
    assert!(p.ends_with(
        "```\n[[MEMORY_OP:record_tournament_match:{\"hypothesis_a\":<ID1>,\"hypothesis_b\":<ID2>,\"winner\":<1 or 2>,\"rationale\":\"<your reasoning>\"}]]\n```"
    ));
}

#[test]
fn only_ranking_is_tried_again_and_twice_at_most() {
    assert_eq!(next_retry("ranking", 0, 0), Some(1));
    assert_eq!(next_retry("ranking", 0, 1), Some(2));
    assert_eq!(next_retry("ranking", 0, 2), None);
    assert_eq!(next_retry("ranking", 1, 0), None);
    assert_eq!(next_retry("generation", 0, 0), None);
}

#[test]
fn a_retry_that_dispatched_is_merged() {
    let merged = absorb_retry(outcome("first", &["a"], 0), outcome("second", &["b", "c"], 1));
    assert_eq!(merged.cleaned_text, "first\nsecond");
    assert_eq!(merged.markers.len(), 3);
    assert_eq!(merged.markers[2].op, "c");
    assert_eq!(merged.dispatched, 1);
    let kept = absorb_retry(outcome("first", &["a"], 0), outcome("second", &["b"], 0));
    assert_eq!(kept.cleaned_text, "first");
    assert_eq!(kept.markers.len(), 1);
}

#[test]
fn tasks_are_turned_away_with_a_reason() {
    let t = table();
    let refuse = |text: &str| accept_task(&json(text), &t).unwrap_err();
    assert_eq!(refuse("{}").message(), "run_agent: missing 'agent'");
    assert_eq!(refuse(r#"{"agent":"ranking"}"#).message(), "run_agent: missing 'prompt'");
    assert_eq!(refuse(r#"{"agent":"nobody","prompt":""}"#).message(), "unknown agent: nobody");
    assert_eq!(
        refuse(r#"{"agent":"ranking","prompt":"","mode":"dance"}"#).message(),
        "run_agent: unknown mode `dance`"
    );
    let wrong = refuse(r#"{"agent":"ranking","prompt":"","mode":"parse_goal"}"#);
    assert_eq!(
        wrong.message(),
        "prompt ↔ allowlist mismatch (agent=ranking, mode=parse_goal)"
    );
    match wrong {
        TaskError::Mismatch { cause, .. } => assert!(cause.message().contains("does not own")),
        other => panic!("expected a mismatch, got {other:?}"),
    }
    assert!(matches!(
        refuse(r#"{"agent":"ranking","prompt":"","mode":"ranking_debate"}"#),
        TaskError::Mismatch { .. }
    ));
    let ok = accept_task(&json(r#"{"agent":"ranking","prompt":"go","mode":"ranking_pairwise"}"#), &t);
    assert_eq!(ok.unwrap().agent.name, "ranking");
    let ok = accept_task(&json(r#"{"agent":"ranking","prompt":"go","mode":""}"#), &t);
    assert_eq!(ok.unwrap().prompt, "go");
}

#[test]
fn markers_bring_up_ids() {
    let mut ids = MarkerIds::new();
    ids.note("record_hypothesis", &json("{}"), Some(4));
    ids.note("record_hypothesis", &json("{}"), None);
    ids.note("save_semantic", &json(r#"{"id": 9}"#), Some(5));
    ids.note("record_review", &json(r#"{"hypothesis_id": -2}"#), Some(5));
    ids.note("get_context", &json(r#"{"id": 1, "hypothesis_id": 1}"#), Some(5));
    assert_eq!(ids.hypotheses, vec![4]);
    assert_eq!(ids.saved, vec![9]);
    assert_eq!(ids.reviews, vec![-2]);
    assert!(!ids.looks_at_saved("generation"));
    ids.hypotheses.clear();
    assert!(ids.looks_at_saved("generation"));
    assert!(!ids.looks_at_saved("evolution"));
}

#[test]
fn a_turn_is_gathered_and_linked() {
    let marker = |op: &str, payload: &str| Marker { op: op.into(), payload: payload.into() };
    let markers = vec![
        marker("save_semantic", r#"{"id": 7}"#),
        marker("record_review", r#"{"hypothesis_id": 3}"#),
        marker("save_semantic", r#"{"id": 8}"#),
        marker("save_semantic", r#"{"id": 7}"#),
        marker("save_semantic", r#"{"id": "x"}"#),
    ];
    let payloads: Vec<Json> = markers.iter().map(|m| json(&m.payload)).collect();
    let mut ids = MarkerIds::gather(&markers, &payloads, Some(1));
    assert_eq!(ids.saved, vec![7, 8, 7]);
    assert_eq!(ids.reviews, vec![3]);
    assert!(ids.hypotheses.is_empty());
    assert!(ids.looks_at_saved("generation"));
    let mut repo = HypothesisRepo::new();
    repo.insert_at("s1", None, &[], 1200, "t");
    let scopes = vec![Some("insight".into()), Some("plan".into()), Some("insight".into())];
    let links = link_saved(&mut repo, &ids.saved, &scopes, "s1", 1200);
    assert_eq!(
        links,
        vec![SemanticLink::Promoted(2), SemanticLink::Skip, SemanticLink::Existing(2)]
    );
    ids.take_links(&links);
    assert_eq!(ids.hypotheses, vec![2, 2]);
    assert_eq!(repo.get(2).unwrap().semantic_id, Some(7));
    let recorded = vec![marker("record_hypothesis", "{}"), marker("record_hypothesis", "{}")];
    let two = MarkerIds::gather(&recorded, &vec![json("{}"), json("{}")], Some(5));
    assert_eq!(two.hypotheses, vec![5, 5]);
}

#[test]
fn notes_become_hypotheses_once() {
    let mut repo = HypothesisRepo::new();
    repo.insert_at("s1", None, &[], 1200, "t");
    repo.insert_at("s1", Some(9), &[], 1200, "t");
    repo.insert_at("s2", Some(8), &[], 1200, "t");
    let mut see = |scope: Option<&str>, note: i64| {
        let scope = scope.map(|s| s.to_string());
        ensure_hypothesis_for_semantic(&mut repo, &scope, note, "s1", 1200)
    };
    assert_eq!(see(Some("insight"), 9), SemanticLink::Existing(2));
    assert_eq!(see(Some("plan"), 9), SemanticLink::Skip);
    assert_eq!(see(None, 9), SemanticLink::Skip);
    assert_eq!(see(Some("hypothesis"), 8), SemanticLink::Promoted(4));
    assert_eq!(see(Some("hypothesis"), 8), SemanticLink::Existing(4));
    assert_eq!(repo.find_latest_hypothesis_id("s1"), Some(4));
    assert_eq!(repo.find_latest_hypothesis_id("s2"), Some(3));
    assert_eq!(repo.find_latest_hypothesis_id("s3"), None);
    let mut full = HypothesisRepo::from_rows(vec![], i64::MAX);
    assert_eq!(
        ensure_hypothesis_for_semantic(&mut full, &Some("insight".into()), 1, "s1", 1200),
        SemanticLink::NoRoom
    );
}

#[test]
fn follow_ups_fan_out_per_hypothesis() {
    let args = json(r#"{"agent":"generation","prompt":"p"}"#);
    let ids = vec![3, 4];
    let plan = plan_follow_ups("generation", &args, &ids);
    assert!(matches!(plan, FollowUpPlan::PerHypothesis(_)));
    let prompts = vec!["one".to_string(), "two".to_string()];
    let tasks = follow_up_tasks(&plan, "s1", "goal", "prefs", &args, &ids, &prompts, None);
    assert_eq!(tasks.len(), 2);
    assert_eq!(tasks[1].agent, "reflection");
    assert_eq!(tasks[1].action, "run_agent");
    assert_eq!(tasks[1].session_id, "s1");
    assert_eq!((tasks[1].priority, tasks[1].max_attempts), (100, 3));
    assert_eq!(
        to_value(&tasks[1].payload),
        to_value(&json(
            r#"{"agent":"reflection","mode":"reflection_review","prompt":"two","hypothesis_id":4,"goal":"goal","preferences":"prefs"}"#
        ))
    );
    assert!(matches!(plan_follow_ups("generation", &args, &Vec::new()), FollowUpPlan::Nothing));
    assert!(matches!(plan_follow_ups("ranking", &args, &ids), FollowUpPlan::Nothing));
}

#[test]
fn single_follow_ups_carry_the_ids_on() {
    let none: Vec<i64> = Vec::new();
    let no_prompts: Vec<String> = Vec::new();
    let args = json(r#"{"mode":"experiment_execute","experiment_id":7,"hypothesis_id":3}"#);
    let plan = plan_follow_ups("experiment", &args, &none);
    let tasks = follow_up_tasks(&plan, "s1", "g", "", &args, &none, &no_prompts, None);
    assert_eq!(tasks.len(), 1);
    assert_eq!(tasks[0].priority, 120);
    assert_eq!(
        to_value(&tasks[0].payload),
        to_value(&json(
            r#"{"agent":"experiment","mode":"experiment_evaluate","prompt":"","goal":"g","preferences":"","experiment_id":7,"hypothesis_id":3}"#
        ))
    );
}

#[test]
fn a_design_without_experiment_takes_the_latest_one() {
    let none: Vec<i64> = Vec::new();
    let no_prompts: Vec<String> = Vec::new();
    let args = json(r#"{"mode":"experiment_design","hypothesis_id":3}"#);
    let plan = plan_follow_ups("experiment", &args, &none);
    assert!(matches!(plan, FollowUpPlan::SingleLatest(_, 3)));
    let tasks = follow_up_tasks(&plan, "s1", "g", "", &args, &none, &no_prompts, Some(11));
    assert_eq!(tasks[0].payload.i64_at("experiment_id"), Some(11));
    assert_eq!(tasks[0].payload.i64_at("hypothesis_id"), Some(3));
    assert!(follow_up_tasks(&plan, "s1", "g", "", &args, &none, &no_prompts, None).is_empty());
    let args = json(r#"{"mode":"experiment_design"}"#);
    assert!(matches!(plan_follow_ups("experiment", &args, &none), FollowUpPlan::Nothing));
}

#[test]
fn idle_tasks_are_due_by_their_condition() {
    let specs = idle_specs();
    let labels: Vec<&str> = specs.iter().map(|s| s.label).collect();
    assert_eq!(
        labels,
        vec![
            "ranking/RunTournamentBatch",
            "evolution/EvolveTopHypotheses",
            "metareview/GenerateSystemFeedback",
            "experiment/DesignForHypothesis",
        ]
    );
    let mut s = idle_state();
    assert!(specs.iter().all(|e| e.predicate(&s).is_none()));
    s.total_hypotheses = 3;
    assert!(specs[0].predicate(&s).is_some());
    s.mature_hypotheses = 2;
    assert!(specs[1].predicate(&s).is_some());
    s.top_hypotheses_empty = true;
    assert!(specs[1].predicate(&s).is_none());
    s.match_count = 6;
    s.last_meta_review_at = 2;
    assert!(specs[2].predicate(&s).is_none());
    s.last_meta_review_at = 1;
    assert!(specs[2].predicate(&s).is_some());
    s.hypothesis_needing_experiment = Some(5);
    let extra = specs[3].predicate(&s).unwrap();
    assert_eq!(to_value(&extra), to_value(&json(r#"{"hypothesis_id": 5}"#)));
    assert_eq!(specs[3].priority, 90);
}

#[test]
fn prompts_need_what_their_agent_asks_for() {
    assert!(matches!(
        prompt_need("reflection", &json(r#"{"hypothesis_id": 3}"#)),
        Ok(PromptNeed::Review { hypothesis_id: 3 })
    ));
    let e = prompt_need("reflection", &json("{}")).unwrap_err();
    assert_eq!(e.message(), "reflection needs hypothesis_id");
    let args = json(r#"{"hypothesis_id": 3, "mode": "reflection_on_result"}"#);
    let e = prompt_need("reflection", &args).unwrap_err();
    assert_eq!(e.message(), "reflection_on_result needs experiment_id");
    let e = prompt_need("experiment", &json(r#"{"mode": "experiment_design"}"#)).unwrap_err();
    assert_eq!(e.message(), "experiment_design needs hypothesis_id");
    assert!(matches!(prompt_need("supervisor", &json("{}")), Ok(PromptNeed::Nothing)));
    assert!(matches!(prompt_need("experiment", &json("{}")), Ok(PromptNeed::ExperimentOther)));
}

#[test]
fn prompts_are_built_from_what_was_fetched() {
    let mut m = material();
    let need = PromptNeed::Review { hypothesis_id: 3 };
    let e = build_prompt(&need, "g", "p", &m).unwrap_err();
    assert_eq!(e, PromptError::UnknownHypothesis(3));
    assert_eq!(e.message(), "hypothesis 3 not found");
    m.hypothesis = Some("H".into());
    let p = build_prompt(&need, "g", "p", &m).unwrap().unwrap();
    assert_eq!(p.mode, AgentMode::ReflectionReview);
    assert_eq!(field(&p, "goal"), "g");
    assert_eq!(field(&p, "hypothesis_id"), "3");
    assert_eq!(field(&p, "articles_block"), "(no literature retrieved)");

    let need = PromptNeed::ReflectionOnResult { hypothesis_id: 3, experiment_id: 7 };
    let e = build_prompt(&need, "g", "p", &m).unwrap_err();
    assert_eq!(e.message(), "reflection_on_result: experiment 7 not found");
    m.experiment = Some(experiment());
    m.reviews = vec![
        ReviewRow { summary: "other".into(), details: Some("about 4".into()) },
        ReviewRow { summary: "mine".into(), details: Some("about 3".into()) },
    ];
    let p = build_prompt(&need, "g", "p", &m).unwrap().unwrap();
    assert_eq!(field(&p, "prior_review"), "mine");
    assert_eq!(field(&p, "metric_value"), "0.5");
    assert_eq!(field(&p, "result_summary"), "(no evaluate_result recorded)");
    assert_eq!(field(&p, "result_details"), "{}");
}

#[test]
fn pairs_of_hypotheses_are_set_side_by_side() {
    let mut m = material();
    assert!(build_prompt(&PromptNeed::Pairwise, "g", "p", &m).unwrap().is_none());
    m.contenders = vec![
        Contender { id: 1, text: "A".into(), review: "ra".into() },
        Contender { id: 2, text: "B".into(), review: "rb".into() },
    ];
    let p = build_prompt(&PromptNeed::Pairwise, "g", "p", &m).unwrap().unwrap();
    assert_eq!(p.mode, AgentMode::RankingPairwise);
    assert_eq!((field(&p, "hypothesis_2_id"), field(&p, "review_2")), ("2", "rb"));
    let p = build_prompt(&PromptNeed::Evolution, "g", "p", &m).unwrap().unwrap();
    assert_eq!(p.mode, AgentMode::EvolutionCombine);
    assert_eq!(field(&p, "hypothesis_a"), "A");
}

#[test]
fn notes_fill_generation_and_metareview() {
    let mut m = material();
    let p = build_prompt(&PromptNeed::Generation, "g", "p", &m).unwrap().unwrap();
    assert_eq!(
        field(&p, "articles_with_reasoning"),
        "(no external literature available; use your training knowledge)\n\n"
    );
    let p = build_prompt(&PromptNeed::MetaReview, "g", "p", &m).unwrap().unwrap();
    assert_eq!(field(&p, "reviews_overview"), "(no tournament data yet)");
    m.notes = vec!["one".into(), "two".into()];
    let p = build_prompt(&PromptNeed::Generation, "g", "p", &m).unwrap().unwrap();
    assert!(field(&p, "articles_with_reasoning").ends_with("## System Feedback\none\n---\ntwo"));
    let p = build_prompt(&PromptNeed::MetaReview, "g", "p", &m).unwrap().unwrap();
    assert_eq!(field(&p, "reviews_overview"), "one\n---\ntwo");
}

#[test]
fn experiment_prompts_follow_their_stage() {
    let mut m = material();
    let run = PromptNeed::ExperimentExecute { experiment: None };
    let judge = PromptNeed::ExperimentEvaluate { experiment: Some(7) };
    assert_eq!(
        build_prompt(&run, "g", "p", &m).unwrap_err().message(),
        "experiment_execute needs a valid experiment_id"
    );
    assert_eq!(
        build_prompt(&judge, "g", "p", &m).unwrap_err().message(),
        "experiment_evaluate needs a valid experiment_id"
    );
    m.experiment = Some(experiment());
    let p = build_prompt(&run, "g", "p", &m).unwrap().unwrap();
    assert_eq!((field(&p, "code"), field(&p, "description")), ("print(1)", ""));
    assert_eq!(
        build_prompt(&judge, "g", "p", &m).unwrap_err(),
        PromptError::UnknownHypothesis(3)
    );
    m.hypothesis = Some("H".into());
    let p = build_prompt(&judge, "g", "p", &m).unwrap().unwrap();
    assert_eq!(field(&p, "exit_code"), "-1");
    assert_eq!(field(&p, "duration_ms"), "null");
    assert_eq!(field(&p, "stderr"), "(empty)");
    assert_eq!(field(&p, "stdout"), format!("{}…(truncated)", "x".repeat(2000)));
    let p = build_prompt(&PromptNeed::ExperimentDesign { hypothesis_id: 3 }, "g", "p", &m);
    assert_eq!(field(&p.unwrap().unwrap(), "hypothesis_text"), "H");
    let p = build_prompt(&PromptNeed::ExperimentOther, "g", "p", &m).unwrap().unwrap();
    assert_eq!(field(&p, "hypothesis_text"), "(no hypothesis context)");
}

#[test]
fn output_is_cut_before_a_split_character() {
    let s = format!("{}ä", "x".repeat(1999));
    assert_eq!(show_output(&Some(s.clone())), format!("{}…(truncated)", "x".repeat(1999)));
    assert_eq!(show_output(&Some("x".repeat(2000))), "x".repeat(2000));
    assert_eq!(latest_review(&Vec::new(), 3), "(no review available)");
    let review = |summary: &str, details: &str| ReviewRow {
        summary: summary.into(),
        details: Some(details.into()),
    };
    let reviews = vec![
        review("of twelve", r#"{"hypothesis_id":12}"#),
        review("of twenty-one", r#"{"hypothesis_id":21}"#),
        review("of one", r#"{"hypothesis_id":1}"#),
        review("older", r#"{"hypothesis_id":1}"#),
    ];
    assert_eq!(latest_review(&reviews, 1), "of one");
    assert_eq!(latest_review(&reviews, 12), "of twelve");
    assert_eq!(latest_review(&reviews, 2), "(no review available)");
    assert_eq!(hypothesis_text(None), "(hypothesis text not available)");
    assert_eq!(
        experiment_fallback("g", Some(1), None),
        "Run experiment_design / experiment_execute / experiment_evaluate as the mode suggests. Goal: g. experiment_id: Some(1), hypothesis_id: None."
    );
}

#[test]
fn reports_and_schema_have_their_shape() {
    let report = call_report(&outcome("t", &["a", "b"], 1), &vec![1, 2], &vec![-3]);
    assert_eq!(
        to_value(&report),
        to_value(&json(
            r#"{"cleaned_text":"t","markers_dispatched":2,"hypothesis_ids":[1,2],"review_ids":[-3]}"#
        ))
    );
    let schema = to_value(&input_schema());
    assert_eq!(schema["type"], "object");
    assert_eq!(schema["required"], to_value(&json(r#"["agent","prompt"]"#)));
    assert_eq!(schema["properties"]["hypothesis_id"]["type"], "integer");
    assert_eq!(schema["properties"]["goal"]["description"], "The research goal.");
    assert_eq!(schema["properties"].as_object().unwrap().len(), 6);
}

#[test]
fn prompts_set_two_hypotheses_side_by_side() {
    let mut repo = HypothesisRepo::new();
    for elo in [1100, 1300, 1200] {
        let id = repo.insert_at("s1", None, &[], elo, "t").unwrap();
        repo.update_state(id, HypothesisState::InTournament, false);
    }
    repo.update_elo(2, 1300, 1);
    assert_eq!(contender_ids(&PromptNeed::Pairwise, &repo, "s1"), vec![3, 1]);
    assert_eq!(contender_ids(&PromptNeed::Evolution, &repo, "s1"), vec![2, 3]);
    assert!(contender_ids(&PromptNeed::Generation, &repo, "s1").is_empty());
    assert!(contender_ids(&PromptNeed::Pairwise, &repo, "s2").is_empty());
    repo.update_elo(1, 1100, 3);
    repo.update_elo(3, 1200, 3);
    assert_eq!(contender_ids(&PromptNeed::Pairwise, &repo, "s1"), vec![2]);
}
