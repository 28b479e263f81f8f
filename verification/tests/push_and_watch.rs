use realm_agent::admission::{check_invite, staged_module_path, upgrade_accepted_msg, versioned_binary_path};
use realm_agent::ci::{append_capped, append_within, choose_platforms};
use realm_agent::cli::{
    signed_manifest, upgrade_package, cli_mounts, cli_ports, cli_push_unsigned, cli_visibility, upgrade_target_platform, WatchState,
};
use realm_agent::component::{MountSpec, Protocol, Visibility};
use realm_agent::deploy::{accepted_push, pack_push, pushed_log, PushUnsigned};
use realm_agent::digest::{decode_base64, encode_base64, sha256_hex};
use realm_agent::keyed::StrMap;
use realm_agent::state::AgentState;
use realm_agent::storage::{IndexEntry, IndexFile};
use realm_agent::supervisor::{
    desired_from_manifest, replica_limits, replica_mounts, replica_work_dir, ComponentSpec,
};

const DIGEST: &str = "0123456789abcdef0123456789abcdef0123456789abcdef0123456789abcdef";

fn strings(xs: &[&str]) -> Vec<String> {
    xs.iter().map(|s| s.to_string()).collect()
}

fn spec(start: bool) -> ComponentSpec {
    ComponentSpec {
        source: "file:app.wasm".to_string(),
        sha256_hex: "00".to_string(),
        replicas: None,
        memory_max_mb: None,
        fuel: None,
        epoch_ms: None,
        mounts: None,
        ports: None,
        visibility: None,
        target_peer_ids: Vec::new(),
        target_tags: Vec::new(),
        start,
    }
}

fn unsigned(start: bool) -> PushUnsigned {
    PushUnsigned {
        alg: "ed25519".to_string(),
        owner_pub_bs58: "owner".to_string(),
        component_name: "web".to_string(),
        target_peer_ids: strings(&["peer1"]),
        target_tags: strings(&["edge"]),
        memory_max_mb: Some(128),
        fuel: None,
        epoch_ms: Some(50),
        replicas: 2,
        start,
        binary_sha256_hex: DIGEST.to_string(),
        mounts: None,
        ports: None,
        visibility: Some(Visibility::Public),
    }
}

#[test]
fn watch_prints_and_reports() {
    let mut w = WatchState::new(1000);
    let s = w.on_message(1100);
    assert!(!s.print);
    assert_eq!(s.number, 1);
    assert!(s.report.is_none());
    let s = w.on_message(1200);
    assert!(s.print);
    assert_eq!(s.number, 2);
    assert_eq!(w.last_print_ms, 1200);
    let s = w.on_message(6000);
    assert_eq!(s.number, 3);
    assert_eq!(s.report, Some((3, 5000)));
    assert_eq!(w.message_count, 0);
    assert_eq!(w.last_report_ms, 6000);
    let s = w.on_message(500);
    assert!(!s.print);
    assert_eq!(s.number, 1);
    assert!(s.report.is_none());
}

#[test]
fn invitations() {
    assert_eq!(check_invite(false, None, 5), Err("invalid invite signature".to_string()));
    assert_eq!(check_invite(true, Some(10), 11), Err("invite token expired".to_string()));
    assert_eq!(check_invite(true, Some(10), 10), Ok(()));
    assert_eq!(check_invite(true, None, 99), Ok(()));
}

#[test]
fn upgrade_paths_and_messages() {
    assert_eq!(versioned_binary_path("/data", 7), "/data/bin/realm-agent-v7");
    assert_eq!(upgrade_accepted_msg(3, 2), "upgrade accepted v3 (prev v2)");
    assert_eq!(staged_module_path("/stage", "web", DIGEST), "/stage/web-0123456789abcdef.wasm");
    assert_eq!(upgrade_target_platform(Some("linux/arm64".to_string()), b"junk"), Some("linux/arm64".to_string()));
    assert_eq!(upgrade_target_platform(None, b"junk"), None);
}

#[test]
fn upgrade_record_and_rollback() {
    let mut st = AgentState::new();
    let prev = st.record_upgrade(4);
    assert_eq!(prev, 0);
    assert_eq!(st.agent_version, 4);
    assert_eq!(st.previous_agent_version, 0);
    let prev = st.record_upgrade(5);
    assert_eq!(prev, 4);
    st.roll_back_upgrade(prev);
    assert_eq!(st.agent_version, 4);
    assert_eq!(st.previous_agent_version, 4);
}

#[test]
fn body_limits() {
    let mut out = b"ab".to_vec();
    assert!(append_within(&mut out, b"cd", 4));
    assert_eq!(out, b"abcd".to_vec());
    assert!(!append_within(&mut out, b"e", 4));
    assert_eq!(out, b"abcd".to_vec());
    let mut body = vec![0u8; 1048576];
    assert!(!append_capped(&mut body, b""));
    assert!(append_capped(&mut body, b"x"));
    assert_eq!(body.len(), 1048577);
}

#[test]
fn platform_choice() {
    let from_json = choose_platforms(Some(strings(&["wasi"])), Some("linux/arm64\n"));
    assert_eq!(from_json, strings(&["wasi"]));
    let from_txt = choose_platforms(None, Some("linux/arm64\n"));
    assert_eq!(from_txt, strings(&["linux/arm64"]));
    assert_eq!(choose_platforms(None, Some("\n")), strings(&["linux/x86_64"]));
    assert_eq!(choose_platforms(None, None), strings(&["linux/x86_64"]));
}

#[test]
fn command_line_push() {
    let mounts = cli_mounts(&strings(&["host=/srv,guest=/data,ro=TRUE", "guest=/x"])).unwrap();
    assert_eq!(mounts.len(), 1);
    assert_eq!(mounts[0].host, "/srv");
    assert_eq!(mounts[0].guest, "/data");
    assert!(mounts[0].ro);
    assert!(cli_mounts(&strings(&["nothing"])).is_none());
    let ports = cli_ports(&strings(&["8080/UDP", "bad", "9090/tcp"])).unwrap();
    assert_eq!(ports.len(), 2);
    assert_eq!(ports[0].port, 8080);
    assert_eq!(ports[0].protocol, Protocol::Udp);
    assert_eq!(ports[1].port, 9090);
    assert_eq!(ports[1].protocol, Protocol::Tcp);
    assert!(cli_ports(&Vec::new()).is_none());
    assert_eq!(cli_visibility(Some("Local")), Some(Visibility::Local));
    assert_eq!(cli_visibility(Some("public")), Some(Visibility::Public));
    assert_eq!(cli_visibility(Some("world")), None);
    let u = cli_push_unsigned(
        "web".to_string(),
        "owner".to_string(),
        DIGEST.to_string(),
        3,
        64,
        1000,
        100,
        &strings(&["host=/a,guest=/b"]),
        &strings(&["80/tcp"]),
        Some("local"),
        strings(&["p"]),
        strings(&["t"]),
        true,
    );
    assert_eq!(u.alg, "ed25519");
    assert_eq!(u.replicas, 3);
    assert_eq!(u.memory_max_mb, Some(64));
    assert_eq!(u.mounts.as_ref().map(|m| m.len()), Some(1));
    assert_eq!(u.ports.as_ref().map(|p| p[0].port), Some(80));
    assert_eq!(u.visibility, Some(Visibility::Local));
    assert_eq!(u.binary_sha256_hex, DIGEST);
}

#[test]
fn accepted_pushes() {
    let (path, d) = accepted_push(unsigned(false), "/stage", DIGEST);
    assert_eq!(path, "/stage/web-0123456789abcdef.wasm");
    assert!(d.is_none());
    let (path, d) = accepted_push(unsigned(true), "/stage", DIGEST);
    let d = d.unwrap();
    assert_eq!(d.name, "web");
    assert_eq!(d.path, path);
    assert_eq!(d.spec.source, format!("cached:{}", DIGEST));
    assert_eq!(d.spec.replicas, Some(2));
    assert_eq!(d.spec.memory_max_mb, Some(128));
    assert_eq!(d.spec.epoch_ms, Some(50));
    assert_eq!(d.spec.visibility, Some(Visibility::Public));
    assert_eq!(d.spec.target_tags, strings(&["edge"]));
    assert_eq!(pushed_log(1234, DIGEST), "pushed 1234 bytes (sha256=0123456789abcdef)");
}

#[test]
fn packed_push_round_trips() {
    let p = pack_push(unsigned(true), b"\0asm", b"sig!");
    assert_eq!(p.binary_b64, "AGFzbQ==");
    assert_eq!(p.signature_b64, "c2lnIQ==");
    assert_eq!(decode_base64(&p.binary_b64), Ok(b"\0asm".to_vec()));
    assert_eq!(encode_base64(b""), "");
    assert_eq!(p.unsigned.component_name, "web");
}

#[test]
fn manifest_to_desired_set() {
    let mut applicable = StrMap::new();
    applicable.insert("api".to_string(), spec(true));
    applicable.insert("idle".to_string(), spec(false));
    applicable.insert("web".to_string(), spec(true));
    let mut staged = StrMap::new();
    staged.insert("web".to_string(), "/stage/web.wasm".to_string());
    staged.insert("idle".to_string(), "/stage/idle.wasm".to_string());
    let (desired, starting) = desired_from_manifest(applicable, &staged);
    assert_eq!(starting, 2);
    assert_eq!(desired.len(), 1);
    let w = desired.get("web").unwrap();
    assert_eq!(w.name, "web");
    assert_eq!(w.path, "/stage/web.wasm");
    assert!(desired.get("api").is_none());
}

#[test]
fn replica_settings() {
    let mut s = spec(true);
    assert_eq!(replica_limits(&s), (64, 5000000, 100));
    s.memory_max_mb = Some(32);
    s.fuel = Some(7);
    s.epoch_ms = Some(9);
    assert_eq!(replica_limits(&s), (32, 7, 9));
    assert_eq!(replica_work_dir("/work/web", 1700000000123456), "/work/web/1700000000123456");
    let mounts = Some(vec![
        MountSpec { host: "/work/web/cache".to_string(), guest: "/cache".to_string(), ro: false },
        MountSpec { host: "/etc/ssl".to_string(), guest: "/ssl".to_string(), ro: true },
    ]);
    let (out, moved) = replica_mounts(&mounts, "/work/web", "/work/web/42");
    let out = out.unwrap();
    assert!(moved);
    assert_eq!(out[0].host, "/work/web/42");
    assert_eq!(out[0].guest, "/cache");
    assert_eq!(out[1].host, "/etc/ssl");
    assert!(out[1].ro);
    let (out, moved) = replica_mounts(&None, "/work/web", "/work/web/42");
    assert!(out.is_none());
    assert!(!moved);
    let plain = Some(vec![MountSpec { host: "/work/webby".to_string(), guest: "/g".to_string(), ro: false }]);
    let (out, moved) = replica_mounts(&plain, "/work/web", "/work/web/42");
    assert!(!moved);
    assert_eq!(out.unwrap()[0].host, "/work/webby");
}

#[test]
fn index_loaded_entries() {
    let mut idx = IndexFile::new();
    idx.set_entry("bb", IndexEntry { size_bytes: 5, last_accessed_unix: 1, pinned: false });
    idx.set_entry("aa", IndexEntry { size_bytes: 7, last_accessed_unix: 2, pinned: true });
    idx.set_entry("bb", IndexEntry { size_bytes: 6, last_accessed_unix: 3, pinned: false });
    let l = idx.list();
    assert_eq!(l.len(), 2);
    assert_eq!(l[0].0, "aa");
    assert_eq!(l[1].0, "bb");
    assert_eq!(l[1].1.size_bytes, 6);
    assert_eq!(idx.total_size_bytes(), 13);
}

#[test]
fn signed_packages() {
    let m = signed_manifest("owner".to_string(), 4, "[components]\n".to_string(), b"sig!");
    assert_eq!(m.alg, "ed25519");
    assert_eq!(m.version, 4);
    assert_eq!(m.manifest_toml, "[components]\n");
    assert_eq!(m.signature_b64, "c2lnIQ==");
    let bin = b"\0asm".to_vec();
    let u = upgrade_package("owner".to_string(), 9, None, vec!["p".to_string()], Vec::new(), &bin, b"sig!");
    assert_eq!(u.version, 9);
    assert_eq!(u.target_platform, None);
    assert_eq!(u.binary_sha256_hex, sha256_hex(&bin));
    assert_eq!(u.binary_b64, "AGFzbQ==");
    assert_eq!(u.signature_b64, "c2lnIQ==");
    assert_eq!(u.target_peer_ids, vec!["p".to_string()]);
    let u = upgrade_package("owner".to_string(), 9, Some("linux/arm64".to_string()), Vec::new(), Vec::new(), &bin, b"");
    assert_eq!(u.target_platform, Some("linux/arm64".to_string()));
    assert_eq!(u.signature_b64, "");
}
