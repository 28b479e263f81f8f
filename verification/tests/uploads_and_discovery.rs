use realm_agent::admission::PushAcceptanceError;
use realm_agent::component::{Protocol, Visibility};
use realm_agent::deploy::{
    check_deployed_module, deploy_source_path, is_file_field, push_unsigned, DeployForm,
};
use realm_agent::digest::sha256_hex;
use realm_agent::discovery::{discovery_status, discovery_targets, looks_like_agent, network_base, parse_peer_info};
use realm_agent::host::meminfo_totals;
use realm_agent::jobs::{JobArtifact, JobSpec, JobStore};
use realm_agent::package::{
    install_reply, package_dir, package_inventory, plan_package_install, propose_mounts, MountKind,
    PackageComponent, PackageManifest, PackageMount,
};
use realm_agent::web::DeployRequest;

#[test]
fn probe_addresses() {
    let targets = discovery_targets("10.0.0");
    assert_eq!(targets.len(), 512);
    assert_eq!(targets[0], "127.0.0.1:9090");
    assert_eq!(targets[3], "127.0.0.1:7070");
    assert_eq!(targets[4], "10.0.0.1:9090");
    assert_eq!(targets[5], "10.0.0.1:3030");
    assert_eq!(targets[511], "10.0.0.254:3030");
    assert_eq!(network_base("192.168.7.42"), "192.168.7");
    assert_eq!(network_base("::1"), "192.168.1");
}

#[test]
fn discovered_agents() {
    assert!(looks_like_agent("agent_version 3\n"));
    assert!(!looks_like_agent("node_cpu_seconds 1\n"));
    let st = parse_peer_info(
        "10.0.0.5:9090",
        "# TYPE agent_version gauge\nagent_version 7\ncomponents_running 2\ncomponents_desired 5\nother 9\n",
    );
    assert_eq!(st.node_id, "10.0.0.5:9090");
    assert_eq!(st.msg, "discovered");
    assert_eq!(st.agent_version, 7);
    assert_eq!(st.components_running, 2);
    assert_eq!(st.components_desired, 5);
    assert_eq!(st.drift, 3);
    assert_eq!(st.tags, vec!["discovered".to_string()]);
    assert_eq!(discovery_status(Ok(4)), "Successfully discovered 4 peers");
    assert_eq!(discovery_status(Err("no route".to_string())), "Discovery completed with errors: no route");
}

#[test]
fn memory_figures() {
    let text = "MemTotal:       16314876 kB\nMemFree:         1234 kB\nMemAvailable:    8157438 kB\n";
    assert_eq!(meminfo_totals(text), (16314876, 8157438));
    assert_eq!(meminfo_totals("MemTotal: lots\n"), (0, 0));
    assert_eq!(meminfo_totals(""), (0, 0));
}

#[test]
fn deploy_form_fields() {
    let mut form = DeployForm::new();
    form.text_field("name", Some("web".to_string()));
    form.text_field("replicas", Some("3".to_string()));
    form.text_field("memory", Some("128".to_string()));
    form.text_field("epoch", Some("x".to_string()));
    form.text_field("tags", Some("edge, gpu,,".to_string()));
    form.text_field("mount", Some("host=/srv,guest=/data".to_string()));
    form.text_field("mount", Some("   ".to_string()));
    form.text_field("ports", Some("8080\n\n 53/udp \n".to_string()));
    form.text_field("visibility", Some("Public".to_string()));
    form.text_field("start", Some(" NO ".to_string()));
    form.text_field("unknown", Some("ignored".to_string()));
    assert!(is_file_field("file"));
    assert!(!is_file_field("name"));
    form.file_field(Some(b"\0asm".to_vec()));
    assert_eq!(form.mounts.len(), 1);
    assert_eq!(form.ports, vec!["8080".to_string(), "53/udp".to_string()]);
    assert_eq!(form.epoch_ms, None);
    let draft = match form.finish() {
        Ok(d) => d,
        Err(e) => panic!("{}", e),
    };
    assert_eq!(draft.name, "web");
    assert_eq!(draft.replicas, 3);
    assert_eq!(draft.memory_max_mb, Some(128));
    assert_eq!(draft.tags, vec!["edge".to_string(), "gpu".to_string()]);
    assert_eq!(draft.mounts.as_ref().unwrap()[0].guest, "/data");
    let ports = draft.ports.as_ref().unwrap();
    assert_eq!(ports[1].protocol, Protocol::Udp);
    assert_eq!(draft.visibility, Some(Visibility::Public));
    assert!(!draft.start);

    let (unsigned, bin) = push_unsigned(draft, "OwnerKey".to_string());
    assert_eq!(unsigned.alg, "ed25519");
    assert_eq!(unsigned.component_name, "web");
    assert_eq!(unsigned.binary_sha256_hex, sha256_hex(b"\0asm"));
    assert!(unsigned.target_peer_ids.is_empty());
    assert_eq!(bin, b"\0asm".to_vec());
}

#[test]
fn deploy_form_refusals() {
    let mut form = DeployForm::new();
    form.file_field(Some(vec![1]));
    assert_eq!(form.finish().err().unwrap(), "Missing name");
    let mut form = DeployForm::new();
    form.text_field("name", Some("web".to_string()));
    form.file_field(Some(Vec::new()));
    assert_eq!(form.finish().err().unwrap(), "Missing file");
    let mut form = DeployForm::new();
    form.text_field("name", Some("web".to_string()));
    form.file_field(Some(vec![1]));
    form.text_field("port", Some("http".to_string()));
    assert_eq!(form.finish().err().unwrap(), "invalid port number 'http'");
    let mut form = DeployForm::new();
    form.text_field("name", Some("web".to_string()));
    form.file_field(Some(vec![1]));
    form.text_field("start", None);
    let d = form.finish().ok().unwrap();
    assert!(d.start);
    assert_eq!(d.replicas, 1);
    assert!(d.tags.is_empty());
    assert!(d.mounts.is_none() && d.ports.is_none() && d.visibility.is_none());
}

#[test]
fn deploy_requests() {
    let req = |name: &str, source: &str| DeployRequest {
        name: name.to_string(),
        source: source.to_string(),
        sha256_hex: "ab".to_string(),
        replicas: None,
        memory_max_mb: None,
        fuel: None,
        epoch_ms: None,
    };
    assert_eq!(deploy_source_path(&req("web", "file:///tmp/web.wasm")), Ok("/tmp/web.wasm".to_string()));
    assert_eq!(
        deploy_source_path(&req("", "file:///x")),
        Err((400, "Missing required fields: name, source, sha256_hex"))
    );
    assert_eq!(
        deploy_source_path(&req("web", "https://example.com/web.wasm")),
        Err((501, "HTTP sources not yet implemented"))
    );
    let digest = sha256_hex(b"abc");
    assert_eq!(check_deployed_module(&digest, b"abc"), Ok(digest.clone()));
    assert_eq!(check_deployed_module(&digest, b"abd"), Err((400, "Digest mismatch")));
    assert_eq!(PushAcceptanceError::Io("x".to_string()).http_status(), 500);
    assert_eq!(PushAcceptanceError::DigestMismatch.http_status(), 400);
}

fn manifest(sha: Option<String>) -> PackageManifest {
    PackageManifest {
        component: PackageComponent { name: "site".to_string(), wasm: "component.wasm".to_string(), sha256: sha },
        mounts: vec![
            PackageMount { kind: MountKind::Static, source: Some("static/".to_string()), guest: "/www".to_string(), size_mb: None, volume: None, seed: None },
            PackageMount { kind: MountKind::State, source: None, guest: "/data".to_string(), size_mb: None, volume: None, seed: Some("seed-data/".to_string()) },
        ],
    }
}

#[test]
fn package_installation_plan() {
    let wasm = b"\0asm\x01\0\0\0";
    let digest = sha256_hex(wasm);
    let dir = package_dir("/d", "pkgdigest");
    assert_eq!(dir, "/d/artifacts/packages/pkgdigest");
    let plan = plan_package_install(&manifest(Some(digest.clone())), "site", &dir, "/d", wasm).unwrap();
    assert_eq!(plan.name, "site");
    assert_eq!(plan.wasm_digest, digest);
    assert_eq!(plan.staged_file, format!("site-{}.wasm", &digest[..16]));
    assert_eq!(plan.spec.source, format!("cached:{}", digest));
    let mounts = plan.spec.mounts.unwrap();
    assert_eq!(mounts[0].host, "/d/artifacts/packages/pkgdigest/static/");
    assert!(mounts[0].ro);
    assert_eq!(mounts[1].host, "/d/state/components/site");
    let bad = plan_package_install(&manifest(Some("00".to_string())), "site", &dir, "/d", wasm);
    assert_eq!(bad.err().unwrap(), format!("wasm sha256 mismatch: manifest=00, actual={}", digest));
    assert_eq!(install_reply("site", "abc"), "{\"name\":\"site\",\"digest\":\"abc\"}");
}

#[test]
fn package_inspection() {
    let proposed = propose_mounts(&manifest(None).mounts, "site", "/d");
    assert_eq!(proposed.len(), 2);
    assert_eq!(proposed[0].kind, "Static");
    assert_eq!(proposed[0].host, "<package>/static/");
    assert!(proposed[0].ro);
    assert_eq!(proposed[1].kind, "State");
    assert_eq!(proposed[1].host, "/d/state/components/site");
    let files = package_inventory(&vec![("static/".to_string(), 0), ("manifest.toml".to_string(), 120)]);
    assert!(files[0].is_dir);
    assert_eq!(files[0].size, 0);
    assert!(!files[1].is_dir);
    assert_eq!(files[1].size, 120);
}

#[test]
fn artifact_downloads() {
    let mut store = JobStore::new();
    let id = store.submit_job(JobSpec { name: "b".to_string(), recurring: false, schedule: None }, None, None, "n", 1);
    store.add_job_artifact(
        &id,
        JobArtifact { name: "out.tar.gz".to_string(), stored_path: "x".to_string(), size_bytes: None, sha256_hex: None },
        2,
    );
    let d = store.artifact_download("/d", &id, "out.tar.gz").ok().unwrap();
    assert_eq!(d.path, format!("/d/artifacts/jobs/{}/out.tar.gz", id));
    assert_eq!(d.content_type, "application/gzip");
    assert_eq!(d.disposition, "attachment; filename=\"out.tar.gz\"");
    assert_eq!(store.artifact_download("/d", &id, "nope").err().unwrap(), (404, "artifact not found in job metadata".to_string()));
    assert_eq!(store.artifact_download("/d", "zzz", "x").err().unwrap(), (404, "Job 'zzz' not found".to_string()));
}
