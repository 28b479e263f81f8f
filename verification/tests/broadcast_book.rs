use realm_agent::broadcast::{
    job_status_key, job_status_tuple, new_seen_cache, seen_before, status_word, JobStatusKind,
    JobStatusMsg, PendingBook,
};

fn strings(v: &[&str]) -> Vec<String> {
    v.iter().map(|s| s.to_string()).collect()
}

fn track(book: &mut PendingBook, job: &str, peers: &[&str], now_ms: u64) {
    book.track(
        job.to_string(),
        "completed".to_string(),
        format!("m-{}", job),
        job.as_bytes().to_vec(),
        strings(peers),
        now_ms,
    );
}

#[test]
fn tracking_replaces_same_key() {
    let mut book = PendingBook::new();
    track(&mut book, "j1", &["p1", "p2"], 0);
    track(&mut book, "j2", &["p1"], 10);
    track(&mut book, "j1", &["p3"], 20);
    assert_eq!(book.entries.len(), 2);
    assert_eq!(book.entries[0].peers, strings(&["p3"]));
    assert_eq!(book.entries[0].created_ms, 20);
    assert_eq!(book.entries[0].retry_count, 0);
}

#[test]
fn acknowledgements_drop_finished_broadcasts() {
    let mut book = PendingBook::new();
    track(&mut book, "j1", &["p1", "p2"], 0);
    book.acknowledge("j1", "completed", "m-j1", "p1");
    assert_eq!(book.entries.len(), 1);
    assert_eq!(book.entries[0].peers, strings(&["p2"]));
    // an acknowledgement for another key changes nothing
    book.acknowledge("j1", "failed", "m-j1", "p2");
    assert_eq!(book.entries.len(), 1);
    book.acknowledge("j1", "completed", "m-j1", "p2");
    assert!(book.entries.is_empty());
}

#[test]
fn stale_broadcasts_are_pruned() {
    let mut book = PendingBook::new();
    track(&mut book, "old", &["p"], 0);
    track(&mut book, "new", &["p"], 1_000_000);
    book.prune_stale(1_800_000);
    assert_eq!(book.entries.len(), 2);
    book.prune_stale(1_800_001);
    assert_eq!(book.entries.len(), 1);
    assert_eq!(book.entries[0].job_id, "new");
}

#[test]
fn capacity_evicts_oldest_first() {
    let mut book = PendingBook::new();
    track(&mut book, "b", &["p"], 20);
    track(&mut book, "a", &["p"], 10);
    track(&mut book, "c", &["p"], 30);
    book.evict_oldest(5);
    assert_eq!(book.entries.len(), 3);
    book.evict_oldest(1);
    assert_eq!(book.entries.len(), 1);
    assert_eq!(book.entries[0].job_id, "c");
}

#[test]
fn retries_back_off() {
    let mut book = PendingBook::new();
    track(&mut book, "j", &["p"], 0);
    let connected = strings(&["p"]);
    // retry 0: backoff 1 s, half of it 0, so the delay is one second
    assert!(book.retry_round_with(999, &connected, &vec![0]).is_empty());
    let sent = book.retry_round_with(1000, &connected, &vec![0]);
    assert_eq!(sent, vec![b"j".to_vec()]);
    assert_eq!(book.entries[0].retry_count, 1);
    assert_eq!(book.entries[0].last_sent_ms, 1000);
    // retry 1: backoff 2 s, half 1 s, plus a jitter of 1 s
    assert!(book.retry_round_with(2999, &connected, &vec![1]).is_empty());
    assert_eq!(book.retry_round_with(3000, &connected, &vec![1]).len(), 1);
    assert_eq!(book.entries[0].retry_count, 2);
}

#[test]
fn retries_reseed_peers_when_none_left() {
    let mut book = PendingBook::new();
    track(&mut book, "j", &[], 0);
    let none: Vec<String> = Vec::new();
    assert!(book.retry_round_with(5000, &none, &vec![0]).is_empty());
    assert!(book.entries[0].peers.is_empty());
    let sent = book.retry_round(5000, &strings(&["p9"]));
    assert_eq!(sent.len(), 1);
    assert_eq!(book.entries[0].peers, strings(&["p9"]));
}

#[test]
fn status_keys() {
    let m = JobStatusMsg {
        kind: JobStatusKind::Started,
        job_id: "j".to_string(),
        assigned_node: "n".to_string(),
        message_id: "m".to_string(),
    };
    assert_eq!(job_status_key(&m), ("j".to_string(), "started".to_string(), "m".to_string()));
    assert_eq!(
        job_status_tuple(&m),
        ("j".to_string(), "started".to_string(), "n".to_string(), "m".to_string())
    );
    assert_eq!(status_word(JobStatusKind::Failed), "failed");
}

#[test]
fn duplicate_statuses_are_recognised() {
    let mut cache = new_seen_cache();
    let m = JobStatusMsg {
        kind: JobStatusKind::Completed,
        job_id: "j".to_string(),
        assigned_node: "n".to_string(),
        message_id: "m1".to_string(),
    };
    assert!(!seen_before(&mut cache, &m, 1));
    // the message id is not part of the key
    let again = JobStatusMsg { message_id: "m2".to_string(), ..m };
    assert!(seen_before(&mut cache, &again, 2));
    let other = JobStatusMsg { kind: JobStatusKind::Failed, ..again };
    assert!(!seen_before(&mut cache, &other, 3));
}
