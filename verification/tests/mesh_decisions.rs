use realm_agent::mesh::{
    any_shared, backoff_secs, contains_str, is_targeted, job_eligible, job_start_delay_ms,
    local_status, peers_to_announce, push_selected, record_outcome, serve_inline, should_resend,
    upgrade_selected,
};
use realm_agent::metrics::Metrics;

fn strings(v: &[&str]) -> Vec<String> {
    v.iter().map(|s| s.to_string()).collect()
}

#[test]
fn list_membership() {
    let v = strings(&["a", "b"]);
    assert!(contains_str(&v, "b"));
    assert!(!contains_str(&v, "c"));
    assert!(any_shared(&v, &strings(&["x", "a"])));
    assert!(!any_shared(&v, &strings(&[])));
}

#[test]
fn targeting() {
    let roles = strings(&["edge", "gpu"]);
    let none: Vec<String> = Vec::new();
    // no criteria: everyone
    assert!(is_targeted("n1", &roles, &none, &none));
    assert!(is_targeted("n1", &roles, &strings(&["n1"]), &none));
    assert!(!is_targeted("n1", &roles, &strings(&["n2"]), &none));
    assert!(is_targeted("n1", &roles, &none, &strings(&["gpu"])));
    assert!(!is_targeted("n1", &roles, &none, &strings(&["db"])));
    assert!(!is_targeted("n1", &roles, &strings(&["n1"]), &strings(&["db"])));
}

#[test]
fn ui_nodes_take_no_pushed_components() {
    let none: Vec<String> = Vec::new();
    assert!(push_selected("n1", &strings(&["edge"]), &none, &none));
    assert!(!push_selected("n1", &strings(&["ui"]), &none, &none));
}

#[test]
fn upgrades_match_the_host_platform() {
    let none: Vec<String> = Vec::new();
    let roles = strings(&[]);
    assert!(upgrade_selected("n", &roles, &none, &none, None, "linux/x86_64"));
    assert!(upgrade_selected("n", &roles, &none, &none, Some("linux/x86_64"), "linux/x86_64"));
    assert!(!upgrade_selected("n", &roles, &none, &none, Some("macos/aarch64"), "linux/x86_64"));
    assert!(!upgrade_selected("n", &roles, &strings(&["m"]), &none, None, "linux/x86_64"));
}

#[test]
fn job_eligibility() {
    let roles = strings(&["builder"]);
    let none: Vec<String> = Vec::new();
    assert!(job_eligible("linux/x86_64", &roles, "n1", None, &none, &none));
    assert!(job_eligible("linux/x86_64", &roles, "n1", Some("linux/x86_64"), &strings(&["builder"]), &strings(&["n1"])));
    assert!(!job_eligible("linux/x86_64", &roles, "n1", Some("linux/aarch64"), &none, &none));
    assert!(!job_eligible("linux/x86_64", &roles, "n1", None, &strings(&["gpu"]), &none));
    assert!(!job_eligible("linux/x86_64", &roles, "n1", None, &none, &strings(&["n2"])));
}

#[test]
fn outcome_counters() {
    let mut m = Metrics::new();
    record_outcome(&mut m, true, "run ok: web");
    record_outcome(&mut m, true, "manifest accepted v12 (3 components)");
    record_outcome(&mut m, true, "upgrade accepted v7 from n2");
    record_outcome(&mut m, false, "run error: crash");
    record_outcome(&mut m, false, "manifest rejected bad signature");
    record_outcome(&mut m, false, "upgrade rejected stale");
    record_outcome(&mut m, true, "something else");
    assert_eq!(m.run_ok_total, 1);
    assert_eq!(m.manifest_accepted_total, 1);
    assert_eq!(m.manifest_version, 12);
    assert_eq!(m.upgrade_accepted_total, 1);
    assert_eq!(m.agent_version, 7);
    assert_eq!(m.run_error_total, 1);
    assert_eq!(m.manifest_rejected_total, 1);
    assert_eq!(m.upgrade_rejected_total, 1);
}

#[test]
fn broadcast_backoff() {
    assert_eq!(backoff_secs(0), 1);
    assert_eq!(backoff_secs(3), 8);
    assert_eq!(backoff_secs(5), 32);
    assert_eq!(backoff_secs(40), 32);
    // retry 0: half the backoff is 0, so the delay is at least one second
    assert!(!should_resend(true, 0, 0, 0));
    assert!(should_resend(true, 1, 0, 0));
    // retry 3: 4 seconds plus jitter
    assert!(!should_resend(true, 6, 3, 3));
    assert!(should_resend(true, 7, 3, 3));
    assert!(!should_resend(false, 100, 3, 0));
}

#[test]
fn artifact_locality_delay() {
    assert_eq!(job_start_delay_ms("node-a", true, 3), 0);
    assert_eq!(job_start_delay_ms("node-a", false, 0), 0);
    // sha256("node-a") starts with 6657: 500 + 0x6657 % 1500
    assert_eq!(job_start_delay_ms("node-a", false, 2), 1199);
    assert_eq!(job_start_delay_ms("peer-1", false, 1), 1319);
}

#[test]
fn announced_peers() {
    let boot = strings(&["/ip4/1.2.3.4/tcp/1", "/ip4/5.6.7.8/tcp/2"]);
    let known = strings(&["/ip4/5.6.7.8/tcp/2", "/ip4/9.9.9.9/tcp/3", "/ip4/9.9.9.9/tcp/3"]);
    assert_eq!(
        peers_to_announce(&boot, &known),
        strings(&["/ip4/1.2.3.4/tcp/1", "/ip4/5.6.7.8/tcp/2", "/ip4/9.9.9.9/tcp/3"])
    );
}

#[test]
fn inline_blob_limit() {
    assert!(serve_inline(8 * 1024 * 1024));
    assert!(!serve_inline(8 * 1024 * 1024 + 1));
}

#[test]
fn published_status() {
    let mut m = Metrics::new();
    m.set_components_desired(1);
    m.inc_components_running();
    m.inc_components_running();
    m.inc_components_running();
    m.set_agent_version(4);
    let roles = strings(&["edge"]);
    let st = local_status("n1".to_string(), "ok".to_string(), &m, 12, 34, &roles, None, 2);
    assert_eq!(st.drift, -2);
    assert_eq!(st.agent_version, 4);
    assert_eq!(st.components_running, 3);
    assert_eq!(st.tags, roles);
    assert_eq!(st.cpu_percent, 12);
    assert_eq!(st.links, 2);
}
