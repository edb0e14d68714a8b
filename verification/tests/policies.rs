use co_scientist::lifecycle::policies::{
    BudgetVerdict, IdlePolicy, InjectDecision, Nanos, RankedPair, RunCounters, RunSnapshot,
    TerminationDecision, TerminationPolicy,
};

const EPSILON: f64 = 25.0;

fn idle_policy() -> IdlePolicy {
    IdlePolicy::default()
}

fn reason(d: &TerminationDecision) -> Option<&str> {
    match d {
        TerminationDecision::Continue => None,
        TerminationDecision::Terminate { reason } => Some(reason.as_str()),
    }
}

fn ranked(
    elapsed: Nanos,
    deadline: Nanos,
    top: Vec<(i64, f64)>,
    snapshot_count: usize,
    previous: Option<Vec<(i64, f64)>>,
    match_count: usize,
) -> RunSnapshot {
    let pairs = match &previous {
        Some(prev) => top
            .iter()
            .zip(prev.iter())
            .map(|((id_a, ea), (id_b, eb))| RankedPair {
                current_id: *id_a,
                previous_id: *id_b,
                ratings_close: (ea - eb).abs() < EPSILON,
            })
            .collect(),
        None => Vec::new(),
    };
    RunSnapshot {
        elapsed,
        deadline,
        budget: BudgetVerdict::Within,
        top_count: top.len(),
        min_hypotheses: 2,
        previous_count: previous.as_ref().map(|p| p.len()),
        pairs,
        stability_threshold: 3,
        snapshot_count,
        match_count,
    }
}

fn snapshot(
    elapsed: Nanos,
    deadline: Nanos,
    budget: f64,
    spent: f64,
    top: Vec<(i64, f64)>,
) -> RunSnapshot {
    let mut s = ranked(elapsed, deadline, top, 0, None, 1);
    if budget > 0.0 && spent >= budget {
        s.budget = BudgetVerdict::Spent { spent: format!("{spent:.2}") };
    }
    s
}

#[test]
fn idle_policy_no_inject_when_pending_tasks() {
    let p = idle_policy();
    let counters = RunCounters { tasks_completed: 5 };
    let decision = p.should_inject(counters, 1, 0, Nanos::from_secs(30));
    assert_eq!(decision, InjectDecision::NoAction);
}

#[test]
fn idle_policy_no_inject_when_recent_completion() {
    let p = idle_policy();
    let counters = RunCounters { tasks_completed: 5 };
    let decision = p.should_inject(counters, 0, 0, Nanos::from_secs(2));
    assert_eq!(decision, InjectDecision::NoAction);
}

#[test]
fn idle_policy_injects_when_idle_too_long() {
    let p = idle_policy();
    let counters = RunCounters { tasks_completed: 3 };
    let decision = p.should_inject(counters, 0, 0, Nanos::from_secs(15));
    assert_eq!(decision, InjectDecision::SpawnReflectionAgent);
}

#[test]
fn idle_policy_no_inject_when_no_tasks_completed() {
    let p = idle_policy();
    let counters = RunCounters { tasks_completed: 0 };
    let decision = p.should_inject(counters, 0, 0, Nanos::from_secs(60));
    assert_eq!(decision, InjectDecision::NoAction);
}

#[test]
fn idle_policy_no_inject_when_inflight() {
    let p = idle_policy();
    let counters = RunCounters { tasks_completed: 3 };
    let decision = p.should_inject(counters, 0, 1, Nanos::from_secs(30));
    assert_eq!(decision, InjectDecision::NoAction);
}

#[test]
fn termination_policy_continues_under_threshold() {
    let p = TerminationPolicy::new();
    let snap = snapshot(
        Nanos::from_secs(5),
        Nanos::from_secs(60),
        10.0,
        1.0,
        vec![(1, 1200.0), (2, 1190.0)],
    );
    assert_eq!(reason(&p.evaluate(&snap)), None);
}

#[test]
fn termination_policy_terminates_at_budget() {
    let p = TerminationPolicy::new();
    let snap = snapshot(
        Nanos::from_secs(5),
        Nanos::from_secs(60),
        1.0,
        1.5,
        vec![(1, 1200.0), (2, 1190.0)],
    );
    match p.evaluate(&snap) {
        TerminationDecision::Terminate { reason } => {
            assert!(reason.starts_with("budget ("), "got {reason:?}");
        }
        other => panic!("expected Terminate, got {other:?}"),
    }
}

#[test]
fn termination_policy_terminates_at_deadline() {
    let p = TerminationPolicy::new();
    let snap = snapshot(
        Nanos::from_secs(120),
        Nanos::from_secs(60),
        0.0,
        0.0,
        Vec::new(),
    );
    assert_eq!(reason(&p.evaluate(&snap)), Some("deadline"));
}

#[test]
fn termination_policy_zero_deadline_means_no_deadline_check() {
    let p = TerminationPolicy::new();
    let snap = snapshot(
        Nanos::from_secs(10_000),
        Nanos::from_secs(0),
        0.0,
        0.0,
        Vec::new(),
    );
    assert_eq!(reason(&p.evaluate(&snap)), None);
}

#[test]
fn termination_policy_elo_stability_fires_after_threshold() {
    let p = TerminationPolicy::new();
    let make = |count: usize,
                prev: Option<Vec<(i64, f64)>>,
                match_count: usize| ranked(Nanos::from_secs(5), Nanos::from_secs(0), vec![(1, 1200.0), (2, 1190.0)], count, prev, match_count);

    assert_eq!(reason(&p.evaluate(&make(0, None, 1))), None);

    assert_eq!(reason(&p.evaluate(&make(1, Some(vec![(1, 1200.0), (2, 1190.0)]), 1))), None);

    assert_eq!(reason(&p.evaluate(&make(2, Some(vec![(1, 1200.0), (2, 1190.0)]), 1))), Some("elo_stability"));

    assert_eq!(reason(&p.evaluate(&make(2, Some(vec![(1, 1300.0), (2, 1190.0)]), 1))), None);
}

#[test]
fn termination_policy_elo_stability_does_not_fire_without_matches() {
    let p = TerminationPolicy::new();
    let make = |match_count: usize| ranked(Nanos::from_secs(60), Nanos::from_secs(0), vec![(1, 1200.0), (2, 1190.0)], 2, Some(vec![(1, 1200.0), (2, 1190.0)]), match_count);

    assert_eq!(reason(&p.evaluate(&make(0))), None);

    assert_eq!(reason(&p.evaluate(&make(1))), Some("elo_stability"));
}

#[test]
fn the_deadline_counts_before_the_budget() {
    let p = TerminationPolicy::new();
    let snap = snapshot(Nanos::from_secs(61), Nanos::from_secs(60), 1.0, 1.5, Vec::new());
    assert_eq!(reason(&p.evaluate(&snap)), Some("deadline"));
    let snap = snapshot(Nanos::from_secs(59), Nanos::from_secs(60), 1.0, 1.5, Vec::new());
    assert_eq!(reason(&p.evaluate(&snap)), Some("budget (1.50 USD)"));
}
