use co_scientist::lifecycle::bus::{
    Aggregator, AggregatorAction, AggregatorInput, FailureAggregatorConfig, FailureCount, FailureTally,
    MemoryEvent,
};

fn failed(agent: &str, op: &str) -> AggregatorInput {
    AggregatorInput::Event(MemoryEvent::MarkerFailed {
        agent: agent.into(),
        op: op.into(),
        error: "e".into(),
    })
}

fn aggregator(top_n: usize) -> Aggregator {
    Aggregator::new(FailureAggregatorConfig { flush_interval_ms: 50, top_n })
}

fn tick(a: &mut Aggregator) -> (Vec<FailureCount>, u64) {
    match a.step(AggregatorInput::Tick) {
        AggregatorAction::Publish(MemoryEvent::FailureStats { window_ms, top, total }) => {
            assert_eq!(window_ms, 50);
            (top, total)
        }
        other => panic!("expected a report, got {other:?}"),
    }
}

#[test]
fn aggregator_counts_marker_failed_by_agent_and_op() {
    let mut a = aggregator(5);
    for _ in 0..3 {
        assert!(matches!(a.step(failed("generation", "save_semantic")), AggregatorAction::Continue));
    }
    a.step(failed("reflection", "save_semantic"));
    let (top, total) = tick(&mut a);
    assert_eq!(total, 4);
    assert_eq!(top.len(), 2);
    assert_eq!(top[0].op, "save_semantic");
    assert_eq!((top[0].agent.as_str(), top[0].count), ("generation", 3));
}

#[test]
fn aggregator_flushes_on_shutdown() {
    let mut a = aggregator(5);
    a.step(failed("evolution", "record_hypothesis"));
    match a.step(AggregatorInput::Shutdown) {
        AggregatorAction::PublishAndStop(MemoryEvent::FailureStats { top, .. }) => {
            assert_eq!(top[0].agent, "evolution");
            assert_eq!(top[0].op, "record_hypothesis");
            assert_eq!(top[0].count, 1);
        }
        other => panic!("shutdown must flush pending counts, got {other:?}"),
    }
}

#[test]
fn aggregator_top_n_is_sorted_descending() {
    let mut a = aggregator(10);
    a.step(failed("c", "z"));
    for _ in 0..3 {
        a.step(failed("b", "y"));
    }
    for _ in 0..5 {
        a.step(failed("a", "x"));
    }
    let (top, _) = tick(&mut a);
    let counts: Vec<u64> = top.iter().map(|c| c.count).collect();
    assert_eq!(counts, vec![5, 3, 1]);
}

#[test]
fn aggregator_top_n_caps_report_length() {
    let mut a = aggregator(1);
    a.step(failed("b", "rare"));
    for _ in 0..3 {
        a.step(failed("a", "common"));
    }
    let (top, total) = tick(&mut a);
    assert_eq!(top.len(), 1, "top_n=1 must cap report length");
    assert_eq!(top[0].op, "common");
    assert_eq!(total, 4);
}

#[test]
fn aggregator_empty_window_emits_zero_total() {
    let mut a = aggregator(5);
    let (top, total) = tick(&mut a);
    assert_eq!(total, 0);
    assert!(top.is_empty());
}

#[test]
fn a_report_starts_the_count_anew() {
    let mut a = aggregator(5);
    a.step(failed("a", "x"));
    assert_eq!(tick(&mut a).1, 1);
    assert_eq!(tick(&mut a).1, 0);
    assert!(matches!(a.step(AggregatorInput::Lagged(3)), AggregatorAction::Continue));
}

#[test]
fn equal_counts_are_reported_by_operation() {
    let mut t = FailureTally::new();
    t.record("a".into(), "b_op".into());
    t.record("a".into(), "a_op".into());
    assert_eq!(t.total(), 2);
    let (top, total) = t.flush(5);
    assert_eq!(total, 2);
    assert_eq!(top[0].op, "a_op");
    assert_eq!(t.total(), 0);
}

#[test]
fn the_usual_report_has_five_rows_a_minute() {
    let c = FailureAggregatorConfig::default();
    assert_eq!((c.flush_interval_ms, c.top_n), (60_000, 5));
}
