use realm_agent::jobs::{
    get_artifact_path, parse_status_filter, schedule_is_due, JobArtifact, JobEnd, JobInstance,
    JobSpec, JobStatus, JobStore,
};

fn spec(name: &str) -> JobSpec {
    JobSpec { name: name.to_string(), recurring: false, schedule: None }
}

fn recurring(name: &str, schedule: &str) -> JobSpec {
    JobSpec { name: name.to_string(), recurring: true, schedule: Some(schedule.to_string()) }
}

#[test]
fn submitted_jobs_get_generated_ids() {
    let mut store = JobStore::new();
    let a = store.submit_job(spec("build"), None, None, "node-a", 10);
    let b = store.submit_job(spec("test"), Some("node-z".to_string()), None, "node-a", 11);
    let c = store.submit_job(spec("lint"), None, Some("custom".to_string()), "node-a", 12);
    assert_eq!(a, "node-a-1");
    assert_eq!(b, "node-z-2");
    assert_eq!(c, "custom");
    assert_eq!(store.next_id, 3);
    let job = store.get_job("node-a-1").unwrap();
    assert_eq!(job.status, JobStatus::Pending);
    assert_eq!(job.submitted_at, 10);
    assert_eq!(job.origin_node_id, "node-a");
    assert_eq!(job.logs.len(), 1);
    assert_eq!(job.logs[0].message, "Job submitted");
    assert_eq!(job.logs[0].level, "info");
    assert!(store.get_job("missing").is_none());
}

#[test]
fn resubmitting_an_id_replaces_the_job() {
    let mut store = JobStore::new();
    store.submit_job(spec("one"), None, Some("j".to_string()), "n", 1);
    store.submit_job(spec("two"), None, Some("j".to_string()), "n", 2);
    assert_eq!(store.jobs.len(), 1);
    assert_eq!(store.get_job("j").unwrap().spec.name, "two");
}

#[test]
fn job_lifecycle() {
    let mut store = JobStore::new();
    let id = store.submit_job(spec("build"), None, None, "n1", 1);
    store.assign_job(&id, "n2", 2);
    assert_eq!(store.get_job(&id).unwrap().assigned_node.as_deref(), Some("n2"));
    store.start_job(&id, 3);
    let job = store.get_job(&id).unwrap();
    assert_eq!(job.status, JobStatus::Running);
    assert_eq!(job.started_at, Some(3));
    store.complete_job(&id, 7, 4);
    let job = store.get_job(&id).unwrap();
    assert_eq!(job.status, JobStatus::Completed);
    assert_eq!(job.exit_code, Some(7));
    assert_eq!(job.completed_at, Some(4));
    assert_eq!(job.updated_at, 4);
    assert_eq!(job.logs.last().unwrap().message, "Job completed with exit code 7");
    // a finished job cannot be cancelled
    assert!(!store.cancel_job(&id, 5));
    assert_eq!(store.get_job(&id).unwrap().status, JobStatus::Completed);
}

#[test]
fn failing_and_cancelling() {
    let mut store = JobStore::new();
    let a = store.submit_job(spec("a"), None, None, "n", 1);
    let b = store.submit_job(spec("b"), None, None, "n", 1);
    store.fail_job(&a, "boom".to_string(), 2);
    let job = store.get_job(&a).unwrap();
    assert_eq!(job.status, JobStatus::Failed);
    assert_eq!(job.error.as_deref(), Some("boom"));
    assert_eq!(job.logs.last().unwrap().message, "Job failed: boom");
    assert_eq!(job.logs.last().unwrap().level, "error");
    assert!(store.cancel_job(&b, 3));
    let job = store.get_job(&b).unwrap();
    assert_eq!(job.status, JobStatus::Cancelled);
    assert_eq!(job.logs.last().unwrap().message, "Job cancelled");
    assert!(!store.cancel_job("nope", 3));
}

#[test]
fn finishing_from_a_run_outcome() {
    let mut store = JobStore::new();
    let a = store.submit_job(spec("a"), None, None, "n", 1);
    let b = store.submit_job(spec("b"), None, None, "n", 1);
    assert!(matches!(store.finish_job(&a, Ok("done".to_string()), 5), JobEnd::Completed { exit_code: 0 }));
    match store.finish_job(&b, Err("exit 3".to_string()), 6) {
        JobEnd::Failed { error } => assert_eq!(error, "exit 3"),
        JobEnd::Completed { .. } => panic!("expected a failure"),
    }
    assert_eq!(store.get_job(&a).unwrap().status, JobStatus::Completed);
    assert_eq!(store.get_job(&b).unwrap().status, JobStatus::Failed);
}

#[test]
fn logs_and_artifacts() {
    let mut store = JobStore::new();
    let id = store.submit_job(spec("a"), None, None, "n", 1);
    store.add_job_log(&id, "warn".to_string(), "slow".to_string(), 2);
    store.add_job_artifact(
        &id,
        JobArtifact {
            name: "out.tar".to_string(),
            stored_path: "/tmp/out.tar".to_string(),
            size_bytes: Some(10),
            sha256_hex: None,
        },
        3,
    );
    store.set_artifact_digest(&id, "out.tar", "abcd".to_string(), 4);
    store.set_artifact_digest(&id, "other", "ffff".to_string(), 5);
    let job = store.get_job(&id).unwrap();
    assert_eq!(job.logs[1].message, "slow");
    assert_eq!(job.artifacts.len(), 1);
    assert_eq!(job.artifacts[0].sha256_hex.as_deref(), Some("abcd"));
    assert_eq!(job.updated_at, 4);
    assert_eq!(
        get_artifact_path("/data", "n-1", "out.tar"),
        "/data/artifacts/jobs/n-1/out.tar"
    );
}

#[test]
fn listing_newest_first_with_filter() {
    let mut store = JobStore::new();
    store.submit_job(spec("a"), None, Some("a".to_string()), "n", 5);
    store.submit_job(spec("b"), None, Some("b".to_string()), "n", 9);
    store.submit_job(spec("c"), None, Some("c".to_string()), "n", 7);
    store.start_job("c", 8);
    let all: Vec<&str> = store.list_jobs(None, 10).iter().map(|j| j.id.as_str()).collect();
    assert_eq!(all, vec!["b", "c", "a"]);
    let two: Vec<&str> = store.list_jobs(None, 2).iter().map(|j| j.id.as_str()).collect();
    assert_eq!(two, vec!["b", "c"]);
    let pending: Vec<&str> =
        store.list_jobs(Some("PENDING"), 10).iter().map(|j| j.id.as_str()).collect();
    assert_eq!(pending, vec!["b", "a"]);
    // a filter naming no status filters nothing
    assert_eq!(store.list_jobs(Some("bogus"), 10).len(), 3);
    assert_eq!(parse_status_filter("Running"), Some(JobStatus::Running));
    assert_eq!(parse_status_filter("done"), None);
}

#[test]
fn syncing_keeps_the_newer_state() {
    let mut store = JobStore::new();
    store.submit_job(spec("a"), None, Some("x".to_string()), "n", 5);
    let mut newer = JobInstance::new("x".to_string(), "peer".to_string(), spec("a2"), 9);
    newer.status = JobStatus::Running;
    let older = JobInstance::new("x".to_string(), "peer".to_string(), spec("a0"), 1);
    let fresh = JobInstance::new("y".to_string(), "peer".to_string(), spec("y"), 3);
    store.sync_jobs(vec![older, newer, fresh]);
    assert_eq!(store.jobs.len(), 2);
    assert_eq!(store.get_job("x").unwrap().spec.name, "a2");
    assert_eq!(store.get_job("x").unwrap().status, JobStatus::Running);
    assert_eq!(store.get_job("y").unwrap().submitted_at, 3);
}

#[test]
fn schedule_decisions() {
    assert!(schedule_is_due(100, None, 100));
    assert!(!schedule_is_due(101, None, 100));
    assert!(schedule_is_due(100, Some(50), 120));
    assert!(!schedule_is_due(100, Some(100), 120));
}

#[test]
fn recurring_jobs_become_due() {
    let mut store = JobStore::new();
    store.submit_job(recurring("every-second", "* * * * * *"), None, Some("r".to_string()), "n", 1);
    store.submit_job(recurring("broken", "not a schedule"), None, Some("bad".to_string()), "n", 1);
    store.submit_job(spec("once"), None, Some("o".to_string()), "n", 1);
    // far enough in the future that the next firing has come
    let now: i64 = 4_000_000_000;
    let due = store.evaluate_schedules(now);
    assert_eq!(due.len(), 1);
    assert_eq!(due[0].name, "every-second");
    assert_eq!(store.get_job("r").unwrap().last_scheduled_at, Some(now as u64));
    assert_eq!(store.get_job("bad").unwrap().last_scheduled_at, None);
    // it already ran at `now`, and the next firing is not after that
    assert!(store.evaluate_schedules(now).is_empty());
}
