use realm_agent::digest::sha256_hex;
use realm_agent::keyed::StrMap;
use realm_agent::metrics::Metrics;
use realm_agent::runs::{fetch_plan, fetch_status_error, FetchPlan};
use realm_agent::state::AgentState;
use realm_agent::supervisor::{desired_from_manifest, restorable, ComponentSpec, DesiredComponent, Supervisor};
use realm_agent::web::{manifest_without, node_details, stop_check, stop_outcome, PeerTable, Status};

fn spec(sha: &str, start: bool) -> ComponentSpec {
    ComponentSpec {
        source: "file:x.wasm".to_string(),
        sha256_hex: sha.to_string(),
        replicas: None,
        memory_max_mb: None,
        fuel: None,
        epoch_ms: None,
        mounts: None,
        ports: None,
        visibility: None,
        target_peer_ids: Vec::new(),
        target_tags: Vec::new(),
        start,
    }
}

#[test]
fn table_removal() {
    let mut m: StrMap<u32> = StrMap::new();
    m.insert("a".to_string(), 1);
    m.insert("b".to_string(), 2);
    m.insert("c".to_string(), 3);
    assert_eq!(m.remove("b"), Some(2));
    assert_eq!(m.remove("b"), None);
    assert_eq!(m.len(), 2);
    assert_eq!(m.get("a"), Some(&1));
    assert_eq!(m.get("c"), Some(&3));
}

#[test]
fn restoring_from_cache() {
    let good = b"module-a".to_vec();
    let good_sha = sha256_hex(&good);
    let stale_sha = sha256_hex(b"other");
    let mut applicable = StrMap::new();
    applicable.insert("a".to_string(), spec(&good_sha, true));
    applicable.insert("b".to_string(), spec(&stale_sha, true));
    applicable.insert("c".to_string(), spec(&good_sha, false));
    applicable.insert("d".to_string(), spec(&good_sha, true));
    let mut cached = StrMap::new();
    cached.insert("a".to_string(), good.clone());
    cached.insert("b".to_string(), good.clone());
    cached.insert("c".to_string(), good.clone());
    let staged = restorable(&applicable, "/data/artifacts", &cached);
    assert_eq!(staged.len(), 1);
    assert_eq!(
        staged.get("a").cloned(),
        Some(format!("/data/artifacts/a-{}.wasm", &good_sha[..16]))
    );
    let (desired, starting) = desired_from_manifest(applicable, &staged);
    assert_eq!(starting, 3);
    assert_eq!(desired.len(), 1);
    assert_eq!(desired.get("a").map(|d| d.name.clone()), Some("a".to_string()));
}

#[test]
fn stopping_components() {
    let mut sup = Supervisor::new();
    let mut metrics = Metrics::new();
    sup.upsert_component(
        DesiredComponent { name: "web".to_string(), path: "/p".to_string(), spec: spec("00", true) },
        &mut metrics,
    );
    assert_eq!(stop_check(&sup, ""), Err((400, "Component name cannot be empty".to_string())));
    assert_eq!(stop_check(&sup, "api"), Err((404, "Component 'api' not found".to_string())));
    assert_eq!(stop_check(&sup, "web"), Ok(()));
    let mut comps = StrMap::new();
    comps.insert("web".to_string(), spec("00", true));
    comps.insert("db".to_string(), spec("11", true));
    assert_eq!(manifest_without(&mut comps, "web"), Ok(()));
    assert_eq!(comps.len(), 1);
    assert!(comps.get("db").is_some());
    assert_eq!(
        manifest_without(&mut comps, "web"),
        Err("Component 'web' not found in manifest".to_string())
    );
    let (code, body, line) = stop_outcome("web", Ok(()));
    assert_eq!(code, 200);
    assert_eq!(body, "Component 'web' stopped successfully");
    assert_eq!(line, "Component 'web' stopped via web interface");
    let (code, body, line) = stop_outcome("web", Err("No persistent manifest found".to_string()));
    assert_eq!(code, 500);
    assert_eq!(body, "Failed to stop component: No persistent manifest found");
    assert_eq!(line, "Failed to stop component 'web': No persistent manifest found");
}

#[test]
fn node_detail_page() {
    let mut peers = PeerTable::new();
    peers.update_peer_status(Status {
        node_id: "n1".to_string(),
        msg: String::new(),
        agent_version: 1,
        components_desired: 3,
        components_running: 2,
        cpu_percent: 40,
        mem_percent: 50,
        tags: vec!["edge".to_string()],
        drift: 0,
        trusted_owner_pub_bs58: None,
        links: 0,
    });
    let mut st = AgentState::new();
    st.annotate_node("n1", Some("gateway".to_string()), None);
    let d = node_details(&peers, &st.node_annotations, "n1").unwrap();
    assert_eq!(d.id, "n1");
    assert!(d.online);
    assert_eq!(d.roles, vec!["edge".to_string()]);
    assert_eq!(d.components_running, 2);
    assert_eq!(d.components_desired, 3);
    assert_eq!(d.cpu_percent, 40);
    assert_eq!(d.mem_percent, 50);
    assert_eq!(d.alias, Some("gateway".to_string()));
    assert_eq!(d.notes, None);
    assert!(node_details(&peers, &st.node_annotations, "n2").is_none());
}

#[test]
fn fetch_sources() {
    assert!(matches!(fetch_plan("file:/tmp/m.wasm"), FetchPlan::File(p) if p == "/tmp/m.wasm"));
    assert!(matches!(fetch_plan("https://h/m.wasm"), FetchPlan::Http));
    assert!(matches!(fetch_plan("http://h/m.wasm"), FetchPlan::Http));
    assert!(
        matches!(fetch_plan("ftp://h/m"), FetchPlan::Unsupported(m) if m == "unsupported source: ftp://h/m")
    );
    assert_eq!(fetch_status_error("http://h/x", "404 Not Found"), "fetch http://h/x: 404 Not Found");
}
