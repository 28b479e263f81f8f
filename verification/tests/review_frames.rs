use realm_agent::ci::platforms_config;
use realm_agent::deploy::deploy_request_unsigned;
use realm_agent::gateway::{gateway_reply, gateway_route, missing_name_body, GatewayRoute};
use realm_agent::keyed::StrMap;
use realm_agent::metrics::Metrics;
use realm_agent::package::{seed_plan, MountKind, PackageMount};
use realm_agent::runs::{cancelled_outcome, service_end_log};
use realm_agent::state::AgentState;
use realm_agent::storage::{ContentStore, IndexEntry, IndexFile};
use realm_agent::supervisor::{apply_manifest, applicable_components, ComponentSpec, DesiredComponent, Supervisor};
use realm_agent::web::{DeployRequest, SessionTable};

fn spec(ids: &[&str], tags: &[&str], start: bool) -> ComponentSpec {
    ComponentSpec {
        source: "file:x.wasm".to_string(),
        sha256_hex: "00".to_string(),
        replicas: None,
        memory_max_mb: None,
        fuel: None,
        epoch_ms: None,
        mounts: None,
        ports: None,
        visibility: None,
        target_peer_ids: ids.iter().map(|s| s.to_string()).collect(),
        target_tags: tags.iter().map(|s| s.to_string()).collect(),
        start,
    }
}

fn entry(size: u64, at: u64) -> IndexEntry {
    IndexEntry { size_bytes: size, last_accessed_unix: at, pinned: false }
}

#[test]
fn sessions_keep_others() {
    let mut t = SessionTable::new();
    let a = t.create_session(100);
    let b = t.create_session(200);
    assert!(t.sessions.get(&a).is_some());
    assert!(t.sessions.get(&b).is_some());
    // a is past its 30 minutes at 1950; b is not, and stays
    let c = t.create_session(1950);
    assert!(t.sessions.get(&a).is_none());
    assert_eq!(t.sessions.get(&b).map(|s| s.last_active), Some(200));
    assert!(t.sessions.get(&c).is_some());
    assert!(t.authenticate_session(&b, 1960));
    let sb = t.sessions.get(&b).unwrap();
    assert!(sb.authenticated);
    assert_eq!(sb.last_active, 1960);
    let sc = t.sessions.get(&c).unwrap();
    assert!(!sc.authenticated);
    assert_eq!(sc.last_active, 1950);
    assert_eq!(t.sessions.len(), 2);
    assert!(!t.authenticate_session("nope", 1960));
    assert_eq!(t.sessions.len(), 2);
}

#[test]
fn gc_stops_at_target_and_breaks_ties_by_digest() {
    let mut idx = IndexFile::new();
    idx.set_entry("cc00", entry(10, 5));
    idx.set_entry("aa00", entry(10, 5));
    idx.set_entry("bb00", entry(10, 1));
    idx.set_entry("dd00", entry(10, 9));
    let mut store = ContentStore::open("/d", idx);
    let paths = store.gc_to_target(20);
    assert_eq!(
        paths,
        vec![
            "/d/artifacts/blobs/sha256/bb/00/bb00".to_string(),
            "/d/artifacts/blobs/sha256/aa/00/aa00".to_string(),
        ]
    );
    assert_eq!(store.total_size_bytes(), 20);
    let left: Vec<String> = store.list().into_iter().map(|(d, _)| d).collect();
    assert_eq!(left, vec!["cc00".to_string(), "dd00".to_string()]);
    assert!(store.gc_to_target(20).is_empty());
}

#[test]
fn gateway_replies_count() {
    let mut sup = Supervisor::new();
    let mut m = Metrics::new();
    sup.upsert_component(
        DesiredComponent { name: "web".to_string(), path: "/p/web.wasm".to_string(), spec: spec(&[], &[], true) },
        &mut m,
    );
    assert_eq!(missing_name_body(), "Component name required");
    let r = gateway_route(&sup, "/");
    assert!(matches!(r, GatewayRoute::MissingName));
    let (code, body) = gateway_reply(&r, None, &mut m, 3);
    assert_eq!((code, body), (404, b"Component name required".to_vec()));
    assert_eq!(m.gateway_requests_total, 1);
    assert_eq!(m.gateway_errors_total, 1);
    let r = gateway_route(&sup, "/api/x");
    let (code, body) = gateway_reply(&r, None, &mut m, 4);
    assert_eq!((code, body), (404, b"Component 'api' not found".to_vec()));
    let r = gateway_route(&sup, "/web/index.html");
    let (code, body) = gateway_reply(&r, Some(Ok((201, b"made".to_vec()))), &mut m, 7);
    assert_eq!((code, body), (201, b"made".to_vec()));
    assert_eq!(m.gateway_requests_total, 3);
    assert_eq!(m.gateway_errors_total, 2);
    assert_eq!(m.gateway_last_latency_ms, 7);
    let (code, _) = gateway_reply(&r, Some(Ok((42, Vec::new()))), &mut m, 1);
    assert_eq!(code, 200);
    let (code, body) = gateway_reply(&r, Some(Err("trap".to_string())), &mut m, 1);
    assert_eq!((code, body), (500, b"Component error".to_vec()));
    assert_eq!(m.gateway_errors_total, 3);
    let (code, body) = gateway_reply(&r, None, &mut m, 1);
    assert_eq!((code, body), (400, b"Failed to read request body".to_vec()));
    assert_eq!(m.gateway_requests_total, 5);
}

#[test]
fn applying_a_manifest() {
    let mut all = StrMap::new();
    all.insert("api".to_string(), spec(&["n2"], &[], true));
    all.insert("db".to_string(), spec(&[], &["edge"], false));
    all.insert("web".to_string(), spec(&[], &["edge"], true));
    all.insert("cron".to_string(), spec(&["n1"], &[], true));
    let roles = vec!["edge".to_string()];
    let (applicable, skipped) = applicable_components(all, "n1", &roles);
    assert_eq!(skipped, vec!["api".to_string()]);
    assert_eq!(applicable.len(), 3);
    let mut staged = StrMap::new();
    staged.insert("web".to_string(), "/s/web.wasm".to_string());
    staged.insert("db".to_string(), "/s/db.wasm".to_string());
    let mut state = AgentState::new();
    state.agent_version = 4;
    let mut sup = Supervisor::new();
    let mut m = Metrics::new();
    let msg = apply_manifest(&mut state, &mut sup, &mut m, 7, applicable, &staged);
    assert_eq!(msg, "manifest accepted v7");
    assert_eq!(state.manifest_version, 7);
    assert_eq!(state.agent_version, 4);
    assert_eq!(m.components_desired, 1);
    assert_eq!(sup.desired.len(), 1);
    assert_eq!(sup.desired.get("web").map(|d| d.path.clone()), Some("/s/web.wasm".to_string()));
    let (_, skipped) = applicable_components(StrMap::new(), "n1", &Vec::new());
    assert!(skipped.is_empty());
}

#[test]
fn deploy_requests_and_service_jobs() {
    let req = DeployRequest {
        name: "web".to_string(),
        source: "file:///m.wasm".to_string(),
        sha256_hex: "d".to_string(),
        replicas: None,
        memory_max_mb: Some(32),
        fuel: Some(0),
        epoch_ms: None,
    };
    let u = deploy_request_unsigned(&req, "owner".to_string(), "d".to_string());
    assert_eq!(u.replicas, 1);
    assert_eq!(u.fuel, None);
    assert_eq!(u.memory_max_mb, Some(32));
    assert!(u.start);
    assert_eq!(u.component_name, "web");
    let req2 = DeployRequest { replicas: Some(3), fuel: Some(9), ..req };
    let u = deploy_request_unsigned(&req2, "owner".to_string(), "d".to_string());
    assert_eq!(u.replicas, 3);
    assert_eq!(u.fuel, Some(9));
    assert_eq!(
        service_end_log(true),
        Some(("info".to_string(), "Service job completed normally".to_string()))
    );
    assert_eq!(service_end_log(false), None);
    assert_eq!(
        cancelled_outcome(true),
        (
            "Service job cancelled".to_string(),
            Some(("warn".to_string(), "Service job cancelled during execution".to_string()))
        )
    );
    assert_eq!(cancelled_outcome(false), ("Job cancelled".to_string(), None));
}

#[test]
fn seeding_on_first_install_only() {
    let state = PackageMount {
        kind: MountKind::State,
        source: None,
        guest: "/data".to_string(),
        size_mb: None,
        volume: None,
        seed: Some("seed-data/".to_string()),
    };
    assert_eq!(seed_plan(&state, "/pkg", false), Some("/pkg/seed-data/".to_string()));
    assert_eq!(seed_plan(&state, "/pkg", true), None);
    let unseeded = PackageMount { seed: None, ..state };
    assert_eq!(seed_plan(&unseeded, "/pkg", false), None);
    let work = PackageMount {
        kind: MountKind::Work,
        source: None,
        guest: "/w".to_string(),
        size_mb: None,
        volume: None,
        seed: Some("x".to_string()),
    };
    assert_eq!(seed_plan(&work, "/pkg", false), None);
}

#[test]
fn rendered_text_is_type_and_sample_pairs() {
    let mut m = Metrics::new();
    m.set_agent_version(3);
    let text = m.render_prometheus();
    assert!(text.ends_with('\n'));
    let lines: Vec<&str> = text.lines().collect();
    assert_eq!(lines.len(), 44);
    for pair in lines.chunks(2) {
        let name = pair[0].strip_prefix("# TYPE ").unwrap().split(' ').next().unwrap();
        let kind = pair[0].rsplit(' ').next().unwrap();
        assert_eq!(kind == "counter", name.ends_with("_total"));
        assert!(pair[1].starts_with(&format!("{} ", name)));
    }
    assert!(lines.contains(&"agent_version 3"));
}

#[test]
fn controller_platform_config() {
    assert_eq!(
        platforms_config(Some(b"[\"linux/arm64\", 3, \"wasi\"]"), Some("x")),
        vec!["linux/arm64".to_string(), "wasi".to_string()]
    );
    assert_eq!(platforms_config(Some(b"[]"), Some("linux/x86_64")), Vec::<String>::new());
    assert_eq!(platforms_config(Some(b"{\"a\":1}"), Some("a, b\nc")), vec!["a".to_string(), "b".to_string(), "c".to_string()]);
    assert_eq!(platforms_config(Some(b"not json"), None), vec!["linux/x86_64".to_string()]);
    assert_eq!(platforms_config(None, Some(" \n")), vec!["linux/x86_64".to_string()]);
}

#[test]
fn session_ids_are_v4_uuids() {
    let mut t = SessionTable::new();
    for k in 0..20u64 {
        let id = t.create_session(1000 + k);
        let cs: Vec<char> = id.chars().collect();
        assert_eq!(cs.len(), 36);
        for (i, c) in cs.iter().enumerate() {
            if i == 8 || i == 13 || i == 18 || i == 23 {
                assert_eq!(*c, '-');
            } else {
                assert!(c.is_ascii_digit() || ('a'..='f').contains(c));
            }
        }
        assert_eq!(cs[14], '4');
        assert!(matches!(cs[19], '8' | '9' | 'a' | 'b'));
    }
}

#[test]
fn chrono_timestamp_bounds() {
    assert!(chrono::DateTime::from_timestamp(-8334601228800, 0).is_some());
    assert!(chrono::DateTime::from_timestamp(-8334601228801, 0).is_none());
    assert!(chrono::DateTime::from_timestamp(8210266876799, 0).is_some());
    assert!(chrono::DateTime::from_timestamp(8210266876800, 0).is_none());
}
