use co_scientist::cli::{
    arg_value, context_options, count_line, deadline_in_range, duration_in_range, enqueue_options,
    event_line, file_line, memory_request, parse_duration_secs, positional_after_flags, requested,
    run_options, skill_line, start_options, tool_line, Command, MemoryRequest, Missing, Request,
};
use co_scientist::db::{add_column_sql, try_add_column};

fn args(words: &[&str]) -> Vec<String> {
    words.iter().map(|w| w.to_string()).collect()
}

#[test]
fn flags_have_the_value_behind_them() {
    let a = args(&["p", "run", "--agent", "ranking", "--agent", "other"]);
    assert_eq!(arg_value(&a, "--agent").as_deref(), Some("ranking"));
    assert_eq!(arg_value(&a, "--session"), None);
    assert_eq!(arg_value(&args(&["p", "--agent"]), "--agent"), None);
}

#[test]
fn free_text_stands_behind_the_separator() {
    let a = args(&["p", "start", "--budget", "5", "--", "find", "--the", "cure"]);
    assert_eq!(positional_after_flags(&a).as_deref(), Some("find --the cure"));
}

#[test]
fn free_text_stands_behind_the_last_flag_without_a_separator() {
    let a = args(&["p", "start", "--budget", "5", "find", "it"]);
    assert_eq!(positional_after_flags(&a).as_deref(), Some("find it"));
    assert_eq!(positional_after_flags(&args(&["p", "run", "--agent", "x"])), None);
    assert_eq!(positional_after_flags(&args(&["p", "run", "--agent", "x", "--"])), None);
    assert_eq!(positional_after_flags(&args(&["p", "run"])).as_deref(), Some("p run"));
    assert_eq!(positional_after_flags(&Vec::new()), None);
    let a = args(&["co-scientist", "start", "--", "cure x", "--budget", "5"]);
    assert_eq!(positional_after_flags(&a).as_deref(), Some("cure x"));
    let a = args(&["p", "run", "--agent", "x", "--", "mind", "the", "--budget"]);
    assert_eq!(positional_after_flags(&a).as_deref(), Some("mind the --budget"));
    assert_eq!(positional_after_flags(&args(&["p", "start", "--", "--budget", "5"])), None);
}

#[test]
fn durations_are_read_with_their_unit() {
    assert_eq!(parse_duration_secs("2h"), Some(7200));
    assert_eq!(parse_duration_secs(" 90 m "), Some(5400));
    assert_eq!(parse_duration_secs("45s"), Some(45));
    assert_eq!(parse_duration_secs("30"), Some(30));
    assert_eq!(parse_duration_secs("+30"), Some(30));
    assert_eq!(parse_duration_secs("soon"), None);
    assert_eq!(parse_duration_secs(""), None);
    assert_eq!(parse_duration_secs("h"), None);
    assert!(duration_in_range("5124095576030431h"));
    assert!(!duration_in_range("5124095576030432h"));
}

#[test]
fn commands_are_known_by_their_word() {
    assert!(matches!(requested(&args(&["p"])), Request::Nothing));
    assert!(matches!(requested(&args(&["p", "serve"])), Request::Known(Command::Serve)));
    assert!(matches!(requested(&args(&["p", "dance"])), Request::Unknown(w) if w == "dance"));
}

#[test]
fn what_is_missing_is_told() {
    assert_eq!(
        run_options(&args(&["p", "run", "--", "x"])).unwrap_err().message(),
        "--agent NAME is required"
    );
    assert_eq!(
        run_options(&args(&["p", "run", "--agent", "a"])).unwrap_err().message(),
        "missing user text"
    );
    assert_eq!(
        context_options(&args(&["p", "memory", "context"])).unwrap_err().message(),
        "--agent NAME required"
    );
    assert_eq!(
        context_options(&args(&["p", "memory", "context", "--agent", "a"])).unwrap_err().message(),
        "missing query"
    );
    assert_eq!(
        enqueue_options(&args(&["p", "enqueue", "--", "{}"])).unwrap_err(),
        Missing::EnqueueAction
    );
    assert_eq!(
        enqueue_options(&args(&["p", "enqueue", "--action", "x"])).unwrap_err().message(),
        "missing JSON payload"
    );
    assert_eq!(
        start_options(&args(&["p", "start", "--budget", "5"])).unwrap_err().message(),
        "-- \"goal text\" is required"
    );
}

#[test]
fn options_are_read_with_their_defaults() {
    let o = start_options(&args(&["p", "start", "--", "cure", "it"])).unwrap();
    assert_eq!(o.goal, "cure it");
    assert_eq!((o.deadline_secs, o.concurrency, o.n_initial), (0, 4, 3));
    assert_eq!((o.preferences.as_str(), o.budget), ("", None));
    let a = args(&[
        "p", "start", "--deadline", "2h", "--concurrency", "8", "--initial", "many", "--budget", "1.5", "--", "g",
    ]);
    assert!(deadline_in_range(&a));
    let o = start_options(&a).unwrap();
    assert_eq!((o.deadline_secs, o.concurrency, o.n_initial), (7200, 8, 3));
    assert_eq!(o.budget.as_deref(), Some("1.5"));
    let a = args(&[
        "p", "start", "--", "cure", "it", "--preferences", "cheap", "--initial", "7",
    ]);
    let o = start_options(&a).unwrap();
    assert_eq!((o.goal.as_str(), o.preferences.as_str(), o.n_initial), ("cure it", "cheap", 7));
    let o = enqueue_options(&args(&["p", "enqueue", "--action", "x", "--", "{}"])).unwrap();
    assert!(o.check_payload().is_ok());
    let bad = enqueue_options(&args(&["p", "enqueue", "--action", "x", "--", "{a"])).unwrap();
    assert_eq!(bad.check_payload().unwrap_err(), "payload is not valid JSON: {a");
    assert_eq!((o.action.as_str(), o.agent.as_str(), o.payload.as_str()), ("x", "experiment", "{}"));
    assert!(o.session.is_none());
}

#[test]
fn memory_is_asked_for_counts_events_or_context() {
    assert!(matches!(memory_request(&args(&["p", "memory", "count"])), MemoryRequest::Count));
    assert!(matches!(memory_request(&args(&["p", "memory", "recent"])), MemoryRequest::Recent(10)));
    assert!(matches!(
        memory_request(&args(&["p", "memory", "recent", "-3"])),
        MemoryRequest::Recent(-3)
    ));
    assert!(matches!(
        memory_request(&args(&["p", "memory", "recent", "9223372036854775808"])),
        MemoryRequest::Recent(10)
    ));
    assert!(matches!(
        memory_request(&args(&["p", "memory", "recent", "-9223372036854775808"])),
        MemoryRequest::Recent(i64::MIN)
    ));
    assert!(matches!(memory_request(&args(&["p", "memory", "context"])), MemoryRequest::Context));
    assert!(matches!(memory_request(&args(&["p", "memory"])), MemoryRequest::Unknown(w) if w.is_empty()));
}

#[test]
fn lines_are_padded_like_a_table() {
    assert_eq!(count_line("agents", 7), format!("{:20} {}", "agents", 7));
    assert_eq!(file_line("a.db"), format!("{:20} (file)", "a.db"));
    let (id, step, name, ty, ts) = (42, -3, "ranking", "memory_op", "2026-01-01");
    assert_eq!(
        event_line(id, step, name, ty, ts),
        format!("#{id:>5} step={step:<3} agent={name:<12} type={ty:<20} {ts}")
    );
    assert_eq!(tool_line("get_context", "One.\nTwo."), format!("{:<20} {}", "get_context", "One."));
    assert_eq!(
        skill_line("a very long name of some skill", "", "run.sh"),
        format!("{:<24} {} (entrypoint: {})", "a very long name of some skill", "", "run.sh")
    );
}

#[test]
fn a_column_that_is_there_is_no_failure() {
    assert_eq!(add_column_sql("tasks", "next_retry_at", "INTEGER"), "ALTER TABLE tasks ADD COLUMN next_retry_at INTEGER");
    assert!(try_add_column("tasks", "c", None).is_ok());
    assert!(try_add_column("tasks", "c", Some("duplicate column name: c")).is_ok());
    assert_eq!(
        try_add_column("tasks", "c", Some("disk full")).unwrap_err(),
        "add column tasks.c failed: disk full"
    );
}
