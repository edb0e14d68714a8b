use co_scientist::lifecycle::queue::{
    read_status, retry_delay, EnqueueRequest, QueueError, TaskQueue, TaskStatus,
};

fn add(q: &mut TaskQueue, req: EnqueueRequest, id: &str, at: &str) -> String {
    let key = req.key_parts().join("|");
    q.enqueue_as(req, key, id.into(), at.into()).unwrap()
}

fn request(payload: &str) -> EnqueueRequest {
    EnqueueRequest::new("s1", "a", "x", payload.into())
}

#[test]
fn enqueue_then_claim_in_priority_order() {
    let mut q = TaskQueue::new();
    add(&mut q, request(r#"{"i": 1}"#), "t1", "2026-01-01T00:00:00Z");
    let urgent = EnqueueRequest { priority: 50, ..request(r#"{"i": 2}"#) };
    add(&mut q, urgent, "t2", "2026-01-01T00:00:01Z");
    let first = q.claim_at("s1", "w1", 60, 0, "now".into()).unwrap();
    let second = q.claim_at("s1", "w1", 60, 0, "now".into()).unwrap();
    assert_eq!(first.payload, r#"{"i": 2}"#);
    assert_eq!(second.payload, r#"{"i": 1}"#);
}

#[test]
fn enqueue_is_idempotent() {
    let mut q = TaskQueue::new();
    let id1 = add(&mut q, request(r#"{"k": 1}"#), "t1", "a");
    let id2 = add(&mut q, request(r#"{"k": 1}"#), "t2", "b");
    assert_eq!(id1, id2, "duplicate enqueue returns the same id");
    assert_eq!(q.pending_count("s1"), 1);
}

#[test]
fn complete_marks_task_done() {
    let mut q = TaskQueue::new();
    add(&mut q, request("{}"), "t1", "a");
    let t = q.claim_at("s1", "w1", 60, 0, "now".into()).unwrap();
    assert_eq!(q.inflight_count("s1"), 1);
    q.complete_at(&t.id, "w1", "then".into());
    assert_eq!(q.pending_count("s1"), 0);
    assert!(q.claim_at("s1", "w1", 60, 0, "now".into()).is_none());
    assert_eq!(q.row(0).task.status, TaskStatus::Done);
    assert_eq!(q.row(0).task.finished_at.as_deref(), Some("then"));
}

#[test]
fn fail_under_max_attempts_requeues() {
    let mut q = TaskQueue::new();
    let req = EnqueueRequest { max_attempts: 3, ..request("{}") };
    add(&mut q, req, "t1", "a");
    let t = q.claim_at("s1", "w1", 60, 0, "now".into()).unwrap();
    q.fail_at(&t.id, "w1", "boom", 0, 0, "then".into());
    assert_eq!(q.pending_count("s1"), 1);
    let t2 = q.claim_at("s1", "w1", 60, 0, "now".into()).unwrap();
    assert_eq!(t2.attempts, 2);
}

#[test]
fn fail_at_max_attempts_dead_letters() {
    let mut q = TaskQueue::new();
    let req = EnqueueRequest { max_attempts: 1, ..request("{}") };
    add(&mut q, req, "t1", "a");
    let t = q.claim_at("s1", "w1", 60, 0, "now".into()).unwrap();
    q.fail_at(&t.id, "w1", "boom", 0, 0, "then".into());
    assert_eq!(q.pending_count("s1"), 0);
    assert!(q.claim_at("s1", "w1", 60, 0, "now".into()).is_none());
    assert_eq!(q.row(0).task.status, TaskStatus::Dead);
    assert_eq!(q.row(0).task.last_error.as_deref(), Some("boom"));
}

#[test]
fn reclaim_expired_recovers_orphaned_lease() {
    let mut q = TaskQueue::new();
    add(&mut q, request("{}"), "t1", "a");
    q.claim_at("s1", "w1", 0, 1000, "now".into()).unwrap();
    assert_eq!(q.pending_count("s1"), 0);
    let n = q.reclaim_expired_at(1050, "then");
    assert!(n >= 1, "should reclaim at least one task, got {n}");
    assert_eq!(q.pending_count("s1"), 1);
}

#[test]
fn claim_returns_none_when_empty() {
    let mut q = TaskQueue::new();
    assert!(q.claim_at("s1", "w1", 60, 0, "now".into()).is_none());
}

#[test]
fn claim_any_is_mutually_exclusive_under_concurrency() {
    let mut q = TaskQueue::new();
    for i in 0..5 {
        add(&mut q, request(&format!("{{\"i\": {i}}}")), &format!("t{i}"), "a");
    }
    let mut all: Vec<String> = Vec::new();
    for _ in 0..5 {
        if let Some(t) = q.claim_any_at("w", 60, 0, "now".into()) {
            all.push(t.id);
        }
    }
    assert_eq!(all.len(), 5, "every worker should get a distinct task");
    let mut sorted = all.clone();
    sorted.sort();
    sorted.dedup();
    assert_eq!(sorted.len(), all.len(), "no duplicate claims");
    assert!(q.claim_any_at("w", 60, 0, "now".into()).is_none());
}

#[test]
fn claim_honors_next_retry_at() {
    let mut q = TaskQueue::new();
    add(&mut q, request("{}"), "t1", "a");
    let t = q.claim_at("s1", "w1", 60, 0, "now".into()).unwrap();
    q.fail_at(&t.id, "w1", "boom", 3_600_000, 0, "then".into());
    assert!(
        q.claim_at("s1", "w2", 60, 0, "now".into()).is_none(),
        "task should not be claimable before next_retry_at"
    );
    assert_eq!(q.len(), 1);
    let due = q.row(0).next_retry_at.unwrap();
    assert!(q.claim_at("s1", "w2", 60, due, "now".into()).is_some());
}

#[test]
fn only_the_owner_finishes_a_task() {
    let mut q = TaskQueue::new();
    add(&mut q, request("{}"), "t1", "a");
    let t = q.claim_at("s1", "w1", 60, 0, "now".into()).unwrap();
    q.complete_at(&t.id, "w2", "then".into());
    q.fail_at(&t.id, "w2", "boom", 0, 0, "then".into());
    assert_eq!(q.row(0).task.status, TaskStatus::Leased);
    assert_eq!(q.row(0).task.lease_owner.as_deref(), Some("w1"));
    assert_eq!(q.row(0).task.lease_expires_at, Some(60_000));
}

#[test]
fn pending_tasks_of_a_session_are_cancelled() {
    let mut q = TaskQueue::new();
    add(&mut q, request("{}"), "t1", "a");
    add(&mut q, EnqueueRequest::new("s2", "a", "x", "{}".into()), "t2", "a");
    assert_eq!(q.cancel_pending_at("s1", "then"), 1);
    assert_eq!(q.pending_count("s1"), 0);
    assert_eq!(q.pending_count("s2"), 1);
}

#[test]
fn ids_of_tasks_are_unique() {
    let mut q = TaskQueue::new();
    add(&mut q, request("{}"), "t1", "a");
    let err = q.enqueue_as(request("[]"), "other".into(), "t1".into(), "a".into());
    assert!(matches!(err, Err(QueueError::DuplicateId)));
    assert_eq!(q.len(), 1);
}

#[test]
fn statuses_are_read_by_name() {
    for s in [
        TaskStatus::Pending,
        TaskStatus::Leased,
        TaskStatus::Done,
        TaskStatus::Failed,
        TaskStatus::Dead,
    ] {
        assert_eq!(TaskStatus::parse(s.as_str()), Some(s));
    }
    assert_eq!(TaskStatus::parse("lost"), None);
    assert_eq!(TaskStatus::parse("cancelled"), Some(TaskStatus::Cancelled));
    assert!(read_status("lost").unwrap_err().contains("lost"));
}

#[test]
fn payloads_are_json() {
    let mut q = TaskQueue::new();
    add(&mut q, request("{\"i\": 1}"), "t1", "a");
    add(&mut q, request("{\"i\": }"), "t2", "b");
    assert!(q.row(0).task.check_payload().is_ok());
    assert_eq!(q.row(1).task.check_payload().unwrap_err(), "parsing task payload");
}

#[test]
fn rows_survive_a_round_through_the_store() {
    let mut q = TaskQueue::new();
    add(&mut q, request("{}"), "t1", "a");
    let rows = vec![co_scientist::lifecycle::queue::TaskRow {
        task: q.row(0).task.copy(),
        idempotency_key: q.row(0).idempotency_key.clone(),
        next_retry_at: q.row(0).next_retry_at,
    }];
    let mut again = TaskQueue::from_rows(rows);
    assert_eq!(again.claim_at("s1", "w", 60, 0, "now".into()).unwrap().id, "t1");
    assert_eq!(retry_delay(0, 1), 0);
    assert!(retry_delay(1000, 2) > retry_delay(1000, 1));
}

#[test]
fn the_clock_is_read_where_no_time_is_given() {
    let mut q = TaskQueue::new();
    let first = q.enqueue_with_key(request("{}"), "k1".into()).unwrap();
    let again = q.enqueue_with_key(request("[]"), "k1".into()).unwrap();
    let second = q.enqueue_with_key(request("[]"), "k2".into()).unwrap();
    assert_eq!(first, again);
    assert_ne!(first, second);
    assert_eq!(first.len(), 36);
    assert_eq!(q.pending_count("s1"), 2);
    let t = q.claim("s1", "w1", 60).unwrap();
    assert_eq!(t.id, first);
    assert!(t.created_at.starts_with("20") && t.created_at.contains('T'));
    assert!(t.lease_expires_at.unwrap() > 1_700_000_000_000);
    assert_eq!(q.reclaim_expired(), 0);
    q.complete(&first, "w1");
    assert_eq!(q.row(0).task.status, TaskStatus::Done);
    assert!(q.row(0).task.finished_at.is_some());
    let t = q.claim_any("w2", -60).unwrap();
    assert_eq!(t.id, second);
    assert_eq!(q.reclaim_expired(), 1);
    assert_eq!(q.pending_count("s1"), 1);
    let t = q.claim_any("w2", 60).unwrap();
    q.fail(&t.id, "w2", "boom", 3_600_000);
    assert!(q.claim("s1", "w2", 60).is_none(), "the retry is not due");
    assert_eq!(q.cancel_pending("s1"), 1);
    assert_eq!(q.row(1).task.status, TaskStatus::Cancelled);
    assert_eq!(q.inflight_count("s1"), 0);
}
