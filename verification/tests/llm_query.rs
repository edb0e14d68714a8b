use co_scientist::llm_io::llm_query::{
    is_transient_anyhow, is_transient_chain, is_transient_error, jitter, trace_file_name,
    BASE_BACKOFF_MS,
};

#[test]
fn is_transient_error_recognizes_timeout() {
    assert!(is_transient_error("request timed out"));
    assert!(is_transient_error("connection timeout"));
    assert!(is_transient_error("operation timed out after 30s"));
}

#[test]
fn is_transient_error_recognizes_network_errors() {
    assert!(is_transient_error("connection reset by peer"));
    assert!(is_transient_error("connection refused"));
    assert!(is_transient_error("broken pipe"));
    assert!(is_transient_error("io error: unexpected eof"));
    assert!(is_transient_error("subprocess exit status 1"));
    assert!(is_transient_error("stream closed"));
    assert!(is_transient_error("process killed by signal"));
    assert!(is_transient_error("EOF while reading"));
}

#[test]
fn is_transient_error_rejects_auth_failures() {
    assert!(!is_transient_error("invalid api key"));
    assert!(!is_transient_error("authentication failed"));
    assert!(!is_transient_error("unauthorized"));
    assert!(!is_transient_error("forbidden"));
    assert!(!is_transient_error("permission denied"));
}

#[test]
fn is_transient_error_rejects_model_errors() {
    assert!(!is_transient_error("model not found: foo"));
    assert!(!is_transient_error("invalid model: bar"));
    assert!(!is_transient_error("bad request: invalid prompt"));
    assert!(!is_transient_error("not found"));
}

#[test]
fn is_transient_error_is_case_insensitive() {
    assert!(is_transient_error("CONNECTION RESET"));
    assert!(is_transient_error("Timed Out"));
    assert!(!is_transient_error("UNAUTHORIZED"));
}

#[test]
fn is_transient_error_fatal_short_circuits_transient() {
    assert!(!is_transient_error("auth timeout"));
    assert!(!is_transient_error("permission denied after timeout"));
}

#[test]
fn is_transient_anyhow_walks_cause_chain() {
    let err = anyhow::Error::msg("client query failed")
        .context("connection reset by peer");
    assert!(is_transient_anyhow(&err));

    let err = anyhow::Error::msg("client query failed")
        .context("invalid api key");
    assert!(!is_transient_anyhow(&err));

    let err = anyhow::Error::msg("top-level wrapper");
    assert!(!is_transient_anyhow(&err));
}

#[test]
fn jitter_returns_value_within_range() {
    let max = 500u64;
    for step in 0..20u64 {
        for attempt in 0..5u64 {
            let j = jitter(step, attempt, max);
            assert!(
                j < max,
                "jitter({step}, {attempt}, {max}) = {j} (out of range)"
            );
        }
    }
}

#[test]
fn jitter_does_not_explode_for_zero() {
    assert_eq!(jitter(0, 0, 1), 0);
    let j = jitter(0, 0, 1000);
    assert!(j < 1000);
}

#[test]
fn jitter_is_deterministic() {
    for step in 0..50u64 {
        for attempt in 0..10u64 {
            let a = jitter(step, attempt, 1024);
            let b = jitter(step, attempt, 1024);
            assert_eq!(a, b, "jitter({step}, {attempt}) not deterministic");
        }
    }
}

#[test]
fn jitter_spreads_across_attempts() {
    let max = 100_000u64;
    let step = 42u64;
    let mut distinct = std::collections::HashSet::new();
    for attempt in 0..20u64 {
        distinct.insert(jitter(step, attempt, max));
    }
    assert!(
        distinct.len() > 1,
        "jitter should spread across attempts, got all identical"
    );
}

#[test]
fn base_backoff_schedule_matches_spec() {
    assert_eq!(BASE_BACKOFF_MS, [0, 1000, 3000]);
    assert_eq!(BASE_BACKOFF_MS.len(), 3);
}

#[test]
fn trace_files_tell_step_and_attempt() {
    assert_eq!(trace_file_name("run-1", 4, 2), "run-1_step4_attempt2.md");
}

#[test]
fn upper_case_beyond_ascii_is_lowered_too() {
    assert!(is_transient_error("ÄRGER: CONNECTION RESET"));
    assert!(!is_transient_error("ÄRGER: UNAUTHORIZED CONNECTION RESET"));
}

#[test]
fn any_message_of_a_chain_decides() {
    let chain = |texts: &[&str]| texts.iter().map(|t| t.to_string()).collect::<Vec<String>>();
    assert!(is_transient_chain(&chain(&["query failed", "Broken pipe"])));
    assert!(is_transient_chain(&chain(&["forbidden", "timed out"])));
    assert!(!is_transient_chain(&chain(&["forbidden", "auth timeout"])));
    assert!(!is_transient_chain(&chain(&[])));
}
