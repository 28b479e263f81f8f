use realm_agent::health::{
    component_check, component_log_counts, component_status, fleet_counts, get_running_replicas,
    node_alerts, node_status, storage_check, AlertSeverity, HealthStatus,
};
use realm_agent::keyed::StrMap;
use realm_agent::logs::push_log;
use realm_agent::metrics::Metrics;
use realm_agent::policy::{
    apply_overrides, arch_hint, env_flag, policy_enable_help, qemu_binary_name, qemu_install_help,
    ExecutionPolicy,
};
use realm_agent::state::{
    add_known_peer, agent_dir_under, bootstrap_path, desired_manifest_path, listen_port_from_text,
    listen_port_path, listen_port_tcp_path, listen_port_text, peers_path, state_path,
    trusted_owner_from_text, trusted_owner_path, AgentState,
};
use realm_agent::storage::IndexFile;
use realm_agent::supervisor::{ComponentSpec, DesiredComponent, Supervisor};
use realm_agent::theme::{get_theme, ThemeKind};
use realm_agent::web::{
    api_components, api_nodes, api_status, clone_strings, get_status_update, volume_to_clear,
    ClearReq, PeerTable, Session, SessionTable, Status,
};

fn status(id: &str, cpu: u64, mem: u64, running: u64, desired: u64) -> Status {
    Status {
        node_id: id.to_string(),
        msg: String::new(),
        agent_version: 1,
        components_desired: desired,
        components_running: running,
        cpu_percent: cpu,
        mem_percent: mem,
        tags: vec!["edge".to_string()],
        drift: 0,
        trusted_owner_pub_bs58: None,
        links: 0,
    }
}

#[test]
fn component_health() {
    assert_eq!(component_status(2, 2), HealthStatus::Healthy);
    assert_eq!(component_status(1, 2), HealthStatus::Warning);
    assert_eq!(component_status(0, 2), HealthStatus::Critical);
    assert_eq!(component_status(0, 0), HealthStatus::Healthy);
    let c = component_check("web", 1, 3, 77);
    assert_eq!(c.component, "component:web");
    assert_eq!(c.message, "1/3 replicas running");
    assert_eq!(c.last_check, 77);
    let dead = component_check("web", 0, 3, 77);
    assert_eq!(dead.message, "Component not running (0/3 replicas)");
    assert_eq!(dead.status, HealthStatus::Critical);
}

#[test]
fn node_health_from_alerts() {
    let calm = node_alerts("n1", &status("n1", 10, 10, 1, 1), 5);
    assert!(calm.is_empty());
    assert_eq!(node_status(&calm), HealthStatus::Healthy);
    let busy = node_alerts("n1", &status("n1", 95, 90, 0, 2), 5);
    assert_eq!(busy.len(), 3);
    assert_eq!(busy[0].id, "cpu-n1");
    assert_eq!(busy[0].severity, AlertSeverity::Critical);
    assert_eq!(busy[0].message, "CPU usage at 95%");
    assert_eq!(busy[1].title, "High Memory Usage");
    assert_eq!(busy[2].message, "Running 0/2 desired components");
    assert!(!busy[2].acknowledged);
    assert_eq!(node_status(&busy), HealthStatus::Critical);
    let warm = node_alerts("n2", &status("n2", 50, 86, 1, 1), 5);
    assert_eq!(node_status(&warm), HealthStatus::Warning);
}

#[test]
fn fleet_summary() {
    let mut peers = PeerTable::new();
    peers.update_peer_status(status("a", 10, 10, 1, 1));
    peers.update_peer_status(status("b", 10, 10, 0, 0));
    let f = fleet_counts(&vec![2, 1, 0], &vec![2, 2, 1], &peers);
    assert_eq!(f.total_components, 3);
    assert_eq!(f.healthy_components, 1);
    assert_eq!(f.failed_components, 1);
    assert_eq!(f.total_nodes, 2);
    assert_eq!(f.healthy_nodes, 1);
    assert_eq!(f.critical_nodes, 1);
    assert_eq!(f.overall_status, HealthStatus::Critical);
    let empty = PeerTable::new();
    let g = fleet_counts(&vec![1], &vec![2], &empty);
    assert_eq!(g.total_nodes, 1);
    assert_eq!(g.overall_status, HealthStatus::Critical);
}

#[test]
fn storage_and_log_health() {
    let mut idx = IndexFile::new();
    idx.record_put("aaaa", 3 * 1024 * 1024 + 5, 1);
    idx.record_put("bbbb", 1024, 1);
    let s = storage_check(&idx, 9);
    assert_eq!(s.component, "storage");
    assert_eq!(s.status, HealthStatus::Healthy);
    assert_eq!(s.message, "Storage usage: 3 MB, 2 blobs");
    let mut big = IndexFile::new();
    big.record_put("cccc", 10001 * 1024 * 1024, 1);
    let s = storage_check(&big, 9);
    assert_eq!(s.status, HealthStatus::Warning);
    assert_eq!(s.message, "Storage usage high: 10001 MB");

    let lines = vec![
        "1 | launching replica 0".to_string(),
        "2 | replica crashed: Error in guest".to_string(),
        "3 | request failed".to_string(),
        "4 | fine".to_string(),
    ];
    assert_eq!(component_log_counts(&lines), (2, 2));
    let mut logs: StrMap<Vec<String>> = StrMap::new();
    push_log(&mut logs, "web", "up", 1);
    assert_eq!(get_running_replicas(&logs, "web"), 1);
    assert_eq!(get_running_replicas(&logs, "db"), 0);
}

#[test]
fn overview_and_node_list() {
    let metrics = Metrics::new();
    let mut peers = PeerTable::new();
    let overview = api_status(&peers, 3);
    assert_eq!((overview.nodes, overview.components, overview.cpu_avg), (1, 3, 0));
    let nodes = api_nodes(&peers, &metrics);
    assert_eq!(nodes.len(), 1);
    assert_eq!(nodes[0].id, "local-node");
    assert_eq!(nodes[0].roles, vec!["local".to_string()]);
    peers.update_peer_status(status("b", 30, 40, 1, 1));
    peers.update_peer_status(status("a", 11, 20, 2, 3));
    let overview = api_status(&peers, 3);
    assert_eq!((overview.nodes, overview.cpu_avg), (2, 20));
    let nodes = api_nodes(&peers, &metrics);
    assert_eq!(nodes.len(), 2);
    assert_eq!(nodes[0].id, "a");
    assert_eq!(nodes[0].components_desired, 3);
    assert_eq!(nodes[1].cpu_percent, 30);
    peers.set_roles("a", &vec!["gpu".to_string()]);
    assert_eq!(api_nodes(&peers, &metrics)[0].roles, vec!["gpu".to_string()]);
    let update = get_status_update(&peers, &metrics);
    assert_eq!(update.nodes, 2);
    assert_eq!(clone_strings(&vec!["x".to_string()]), vec!["x".to_string()]);
}

#[test]
fn component_list() {
    let mut metrics = Metrics::new();
    let mut sup = Supervisor::new();
    let spec = ComponentSpec {
        source: "s".to_string(),
        sha256_hex: "00".to_string(),
        replicas: Some(3),
        memory_max_mb: None,
        fuel: None,
        epoch_ms: None,
        mounts: None,
        ports: None,
        visibility: None,
        target_peer_ids: Vec::new(),
        target_tags: Vec::new(),
        start: true,
    };
    sup.upsert_component(DesiredComponent { name: "web".to_string(), path: "p".to_string(), spec }, &mut metrics);
    let mut logs: StrMap<Vec<String>> = StrMap::new();
    let peers = PeerTable::new();
    let list = api_components(&sup, &logs, &peers);
    assert_eq!(list.len(), 1);
    assert_eq!(list[0].replicas_desired, 3);
    assert_eq!(list[0].replicas_running, 1);
    assert_eq!(list[0].memory_mb, 64);
    assert_eq!(list[0].nodes, vec!["local-node".to_string()]);
    push_log(&mut logs, "web", "hi", 1);
    let list = api_components(&sup, &logs, &peers);
    assert_eq!(list[0].replicas_running, 3);
    assert!(list[0].running);
}

#[test]
fn sessions() {
    let mut table = SessionTable::new();
    let id = table.create_session(1000);
    assert_eq!(id.len(), 36);
    assert!(table.authenticate_session(&id, 1500));
    assert!(table.sessions.get(&id).unwrap().authenticated);
    // more than 30 minutes of inactivity
    assert!(!table.authenticate_session(&id, 1500 + 1801));
    assert!(!table.authenticate_session("nope", 1500));
    let other = table.create_session(1500 + 1801);
    assert_ne!(other, id);
    assert!(table.sessions.get(&id).is_none());
    assert!(table.sessions.get(&other).is_some());

    let mut s = Session::new(10);
    assert!(!s.authenticated);
    assert!(!s.is_expired(10 + 1800));
    assert!(s.is_expired(10 + 1801));
    assert!(s.is_expired(9));
    s.touch(20);
    assert_eq!(s.last_active, 20);
}

#[test]
fn clearing_volumes() {
    let ok = volume_to_clear("/data", &ClearReq { name: "web".to_string() });
    assert_eq!(ok, Ok("/data/state/components/web".to_string()));
    let bad = volume_to_clear("/data", &ClearReq { name: "  ".to_string() });
    assert_eq!(bad, Err((400, "missing name")));
}

#[test]
fn state_files() {
    assert_eq!(agent_dir_under("/home/u/.local/share"), "/home/u/.local/share/realm-agent");
    assert_eq!(trusted_owner_path("/d"), "/d/owner.pub");
    assert_eq!(state_path("/d"), "/d/state.json");
    assert_eq!(desired_manifest_path("/d"), "/d/desired_manifest.toml");
    assert_eq!(bootstrap_path("/d"), "/d/bootstrap.json");
    assert_eq!(listen_port_path("/d"), "/d/listen_port");
    assert_eq!(listen_port_tcp_path("/d"), "/d/listen_port_tcp");
    assert_eq!(peers_path("/d"), "/d/peers.json");
    assert_eq!(trusted_owner_from_text("  key123\n"), Some("key123".to_string()));
    assert_eq!(trusted_owner_from_text(" \n"), None);
    assert_eq!(listen_port_from_text("4001\n"), Some(4001));
    assert_eq!(listen_port_from_text("99999"), None);
    assert_eq!(listen_port_text(4001), "4001");
    let mut peers = vec!["/ip4/1.1.1.1/tcp/1".to_string()];
    assert!(!add_known_peer(&mut peers, "/ip4/1.1.1.1/tcp/1"));
    assert!(add_known_peer(&mut peers, "/ip4/2.2.2.2/tcp/2"));
    assert_eq!(peers.len(), 2);
}

#[test]
fn node_annotations() {
    let mut st = AgentState::new();
    assert_eq!(st.alias_of("n1"), None);
    st.annotate_node("n1", Some("edge box".to_string()), None);
    st.annotate_node("n1", None, Some("rack 3".to_string()));
    assert_eq!(st.alias_of("n1"), Some("edge box".to_string()));
    assert_eq!(st.node_annotations.get("n1").unwrap().notes.as_deref(), Some("rack 3"));
}

#[test]
fn execution_policy() {
    let p = ExecutionPolicy::default_policy();
    assert!(!p.allow_native_execution && !p.allow_emulation);
    assert!(env_flag("1"));
    assert!(env_flag("TRUE"));
    assert!(!env_flag("yes"));
    let file = ExecutionPolicy { allow_native_execution: true, allow_emulation: false };
    let r = apply_overrides(Some(file), None, Some("true"));
    assert!(r.allow_native_execution && r.allow_emulation);
    let r = apply_overrides(Some(file), Some("0"), None);
    assert!(!r.allow_native_execution && !r.allow_emulation);
    assert_eq!(apply_overrides(None, None, None), ExecutionPolicy::default_policy());
    assert_eq!(qemu_install_help("freebsd"), "Install QEMU via pkg: `sudo pkg install qemu-user-static`.");
    assert_eq!(qemu_install_help("plan9"), "Install QEMU user-mode emulator (package name varies by OS).");
    assert!(policy_enable_help("/d").starts_with("To enable, create /d/policy.json with:\n{\n"));
    assert_eq!(arch_hint(), "x86_64");
    assert_eq!(qemu_binary_name(Some("linux/arm64")), Some("qemu-aarch64"));
    assert_eq!(qemu_binary_name(Some("linux")), Some("qemu-x86_64"));
    assert_eq!(qemu_binary_name(None), Some("qemu-x86_64"));
    assert_eq!(qemu_binary_name(Some("linux/mips")), None);
}

#[test]
fn themes() {
    let dark = get_theme(ThemeKind::Dark);
    assert_eq!(dark.primary, (79, 172, 254));
    assert_eq!(dark.background, (17, 24, 39));
    let light = get_theme(ThemeKind::Light);
    assert_eq!(light.surface, (255, 255, 255));
    assert_eq!(light.text, (15, 23, 42));
}
