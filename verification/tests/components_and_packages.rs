use realm_agent::cli::upgrade_plan;
use realm_agent::component::MountSpec;
use realm_agent::digest::sha256_hex;
use realm_agent::gateway::{gateway_route, passed_status, split_target, unknown_component_body, GatewayRoute};
use realm_agent::keyed::StrMap;
use realm_agent::metrics::Metrics;
use realm_agent::package::{
    check_wasm_digest, package_component_name, package_component_spec, package_file_name,
    package_mounts, resolve_mount, resolve_mounts, verify_component_bytes, MountKind, PackageMount,
};
use realm_agent::supervisor::{is_http_component, wanted_replicas, ComponentSpec, DesiredComponent, Supervisor};

fn spec(replicas: Option<u32>) -> ComponentSpec {
    ComponentSpec {
        source: "file:web.wasm".to_string(),
        sha256_hex: "00".to_string(),
        replicas,
        memory_max_mb: None,
        fuel: None,
        epoch_ms: None,
        mounts: None,
        ports: None,
        visibility: None,
        target_peer_ids: Vec::new(),
        target_tags: Vec::new(),
        start: true,
    }
}

fn desired(name: &str, replicas: Option<u32>) -> DesiredComponent {
    DesiredComponent { name: name.to_string(), path: format!("/cache/{}.wasm", name), spec: spec(replicas) }
}

#[test]
fn replica_counts() {
    assert_eq!(wanted_replicas(&spec(None)), 1);
    assert_eq!(wanted_replicas(&spec(Some(0))), 1);
    assert_eq!(wanted_replicas(&spec(Some(3))), 3);
}

#[test]
fn reconcile_tops_up_missing_replicas() {
    let mut metrics = Metrics::new();
    let mut sup = Supervisor::new();
    sup.upsert_component(desired("web", Some(3)), &mut metrics);
    sup.upsert_component(desired("api", None), &mut metrics);
    assert_eq!(metrics.components_desired, 2);
    let plan = sup.reconcile_once();
    assert_eq!(plan, vec![("api".to_string(), 1), ("web".to_string(), 3)]);
    sup.replica_started("web");
    sup.replica_started("web");
    sup.replica_started("api");
    let plan = sup.reconcile_once();
    assert_eq!(plan, vec![("web".to_string(), 1)]);
    sup.replica_exited("api");
    assert_eq!(sup.reconcile_once(), vec![("api".to_string(), 1), ("web".to_string(), 1)]);
    assert_eq!(sup.get_component("web").unwrap().path, "/cache/web.wasm");
    assert!(sup.get_component("db").is_none());
}

#[test]
fn replacing_the_desired_set() {
    let mut metrics = Metrics::new();
    let mut sup = Supervisor::new();
    sup.upsert_component(desired("old", None), &mut metrics);
    let mut set: StrMap<DesiredComponent> = StrMap::new();
    set.insert("a".to_string(), desired("a", Some(2)));
    set.insert("b".to_string(), desired("b", None));
    sup.set_desired(set, &mut metrics);
    assert_eq!(metrics.components_desired, 2);
    assert!(sup.get_component("old").is_none());
    assert_eq!(sup.get_desired_snapshot().len(), 2);
    assert_eq!(sup.reconcile_once(), vec![("a".to_string(), 2), ("b".to_string(), 1)]);
}

#[test]
fn http_components_by_export() {
    assert!(is_http_component(b"\0asm....wasi:http/incoming-handler@0.2.0...."));
    assert!(!is_http_component(b"\0asm....wasi:cli/run...."));
    assert!(!is_http_component(b"wasi:http"));
}

#[test]
fn gateway_routing() {
    let mut metrics = Metrics::new();
    let mut sup = Supervisor::new();
    sup.upsert_component(desired("web", None), &mut metrics);
    assert_eq!(split_target("//web/api/v1?x=1"), ("web", "api/v1?x=1"));
    assert_eq!(split_target("/web"), ("web", ""));
    assert!(matches!(gateway_route(&sup, "/"), GatewayRoute::MissingName));
    match gateway_route(&sup, "/web/index.html") {
        GatewayRoute::Invoke { name, rest, module_file } => {
            assert_eq!(name, "web");
            assert_eq!(rest, "index.html");
            assert_eq!(module_file, "/cache/web.wasm");
        }
        _ => panic!("expected the component to be invoked"),
    }
    match gateway_route(&sup, "/db/x") {
        GatewayRoute::UnknownComponent(n) => assert_eq!(unknown_component_body(&n), "Component 'db' not found"),
        _ => panic!("expected an unknown component"),
    }
    assert_eq!(passed_status(404), 404);
    assert_eq!(passed_status(99), 200);
    assert_eq!(passed_status(1000), 200);
}

#[test]
fn upgrade_plans() {
    let none: Vec<String> = Vec::new();
    assert_eq!(upgrade_plan(&none, None, None, false).err().unwrap(), "--file is required if no --bin provided");
    let one = upgrade_plan(&none, Some("realm"), Some("linux/x86_64"), false).unwrap();
    assert_eq!(one.len(), 1);
    assert_eq!(one[0].path, "realm");
    assert_eq!(one[0].platform.as_deref(), Some("linux/x86_64"));
    let bins = vec![" macos/aarch64 = out/realm-mac ".to_string(), "out/realm".to_string()];
    let plan = upgrade_plan(&bins, None, Some("linux/x86_64"), false).unwrap();
    assert_eq!(plan[0].path, "out/realm-mac");
    assert_eq!(plan[0].platform.as_deref(), Some("macos/aarch64"));
    assert_eq!(plan[1].path, "out/realm");
    assert_eq!(plan[1].platform.as_deref(), Some("linux/x86_64"));
    let all = upgrade_plan(&bins, None, Some("linux/x86_64"), true).unwrap();
    assert!(all[1].platform.is_none());
}

fn mount(kind: MountKind, source: Option<&str>, guest: &str, volume: Option<&str>) -> PackageMount {
    PackageMount {
        kind,
        source: source.map(|s| s.to_string()),
        guest: guest.to_string(),
        size_mb: None,
        volume: volume.map(|s| s.to_string()),
        seed: None,
    }
}

#[test]
fn package_mount_resolution() {
    let m = resolve_mount(&mount(MountKind::Static, Some("static/"), "/www", None), "web", "/pkg", "/data").unwrap();
    assert_eq!((m.host.as_str(), m.guest.as_str(), m.ro), ("/pkg/static/", "/www", true));
    assert!(resolve_mount(&mount(MountKind::Config, None, "/etc/app", None), "web", "/pkg", "/data").is_none());
    let w = resolve_mount(&mount(MountKind::Work, None, "/tmp", None), "web", "/pkg", "/data").unwrap();
    assert_eq!((w.host.as_str(), w.ro), ("/data/work/components/web", false));
    let s = resolve_mount(&mount(MountKind::State, None, "/db", Some("vol1")), "web", "/pkg", "/data").unwrap();
    assert_eq!(s.host, "/data/state/components/vol1");
    let all = resolve_mounts(
        &vec![
            mount(MountKind::Config, None, "/etc/app", None),
            mount(MountKind::State, None, "/db", None),
        ],
        "web",
        "/pkg",
        "/data",
    );
    assert_eq!(all.len(), 1);
    assert_eq!(all[0].host, "/data/state/components/web");
}

#[test]
fn package_checks_and_specs() {
    assert_eq!(check_wasm_digest(None, "ab"), Ok(()));
    assert_eq!(check_wasm_digest(Some("ab"), "ab"), Ok(()));
    assert_eq!(check_wasm_digest(Some("ab"), "cd"), Err("wasm sha256 mismatch: manifest=ab, actual=cd".to_string()));
    let mounts = vec![MountSpec { host: "/h".to_string(), guest: "/g".to_string(), ro: true }];
    let s = package_component_spec("abcd", mounts);
    assert_eq!(s.source, "cached:abcd");
    assert_eq!(s.replicas, Some(1));
    assert_eq!(s.memory_max_mb, Some(64));
    assert_eq!(s.epoch_ms, Some(100));
    assert!(s.fuel.is_none());
    assert_eq!(s.mounts.as_ref().map(|m| m.len()), Some(1));
    assert!(s.start);
    assert!(package_component_spec("abcd", Vec::new()).mounts.is_none());
    assert_eq!(package_component_name(Some("  site "), "web"), "site");
    assert_eq!(package_component_name(Some("  "), "web"), "web");
    assert_eq!(package_component_name(None, "web"), "web");
    assert_eq!(package_file_name("site"), "site.realm");
    assert_eq!(package_file_name("site.realm"), "site.realm");
}

#[test]
fn package_mounts_from_directories() {
    let ms = package_mounts("web", true, false, true);
    assert_eq!(ms.len(), 2);
    assert_eq!(ms[0].kind, MountKind::Static);
    assert_eq!(ms[0].guest, "/www");
    assert_eq!(ms[1].kind, MountKind::State);
    assert_eq!(ms[1].volume.as_deref(), Some("web"));
    assert_eq!(ms[1].seed.as_deref(), Some("seed-data/"));
    assert!(package_mounts("web", false, false, false).is_empty());
}

#[test]
fn fetched_component_bytes() {
    let bytes = b"module bytes";
    let digest = sha256_hex(bytes);
    assert_eq!(
        verify_component_bytes("web", &digest, bytes),
        Ok(format!("web-{}.wasm", &digest[..16]))
    );
    assert_eq!(
        verify_component_bytes("web", &digest, b"other"),
        Err("component web digest mismatch".to_string())
    );
}
