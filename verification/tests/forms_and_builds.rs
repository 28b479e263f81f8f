use realm_agent::cli::{
    artifact_candidates, component_artifact, component_build_args, deploy_component_unsigned,
    package_name_from_cargo, PublishState, TickAction,
};
use realm_agent::component::Visibility;
use realm_agent::digest::sha256_hex;
use realm_agent::jobs::{cancel_reply, job_not_found};
use realm_agent::uploads::{
    apply_reply, connect_peer, install_agent_reply, invalid_job_reply, is_job_field, job_submit_reply,
    job_upload_text, system_flag, upgrade_failed, upgrade_reply, upload_agent_path, upload_install_path,
    upload_manifest_path, version_field, volume_size_mb, ApplyForm, UpgradeForm,
};

fn strings(xs: &[&str]) -> Vec<String> {
    xs.iter().map(|s| s.to_string()).collect()
}

#[test]
fn component_builds() {
    assert_eq!(
        component_build_args("release", "component", ""),
        strings(&["component", "build", "--target", "wasm32-wasip1", "--release", "-F", "component"])
    );
    assert_eq!(
        component_build_args("debug", "", "my-pkg"),
        strings(&["component", "build", "--target", "wasm32-wasip1", "-p", "my-pkg"])
    );
    assert_eq!(component_artifact("hello-world", "release"), "wasm32-wasip1/release/hello_world.wasm");
    assert_eq!(component_artifact("x", "dev"), "wasm32-wasip1/debug/x.wasm");
    let (a, b) = artifact_candidates(".", "target", "wasm32-wasip1/release/x.wasm");
    assert_eq!(a, "./target/wasm32-wasip1/release/x.wasm");
    assert_eq!(b, "target/wasm32-wasip1/release/x.wasm");
    let (a, _) = artifact_candidates("proj/", "/t", "r.wasm");
    assert_eq!(a, "proj/target/r.wasm");
    let (a, b) = artifact_candidates("", "/t/", "r.wasm");
    assert_eq!(a, "target/r.wasm");
    assert_eq!(b, "/t/r.wasm");
}

#[test]
fn cargo_package_names() {
    assert_eq!(package_name_from_cargo("[package]\nname = \"hello-comp\"\n"), Ok("hello-comp".to_string()));
    assert_eq!(package_name_from_cargo("[workspace]\nmembers = []\n"), Ok("component".to_string()));
    assert_eq!(package_name_from_cargo("[package]\nname = 3\n"), Ok("component".to_string()));
    assert!(package_name_from_cargo("[package\nname=").is_err());
}

#[test]
fn deploy_component_push() {
    let u = deploy_component_unsigned("owner".to_string(), "web".to_string(), Vec::new(), strings(&["edge"]), true, "d".to_string());
    assert_eq!(u.alg, "ed25519");
    assert_eq!(u.replicas, 1);
    assert_eq!(u.memory_max_mb, Some(64));
    assert_eq!(u.fuel, Some(5000000));
    assert_eq!(u.epoch_ms, Some(100));
    assert_eq!(u.visibility, Some(Visibility::Local));
    assert!(u.mounts.is_none());
    assert!(u.ports.is_none());
    assert_eq!(u.target_tags, strings(&["edge"]));
}

#[test]
fn publish_loop() {
    let mut s = PublishState::new();
    assert_eq!(s.on_tick(), TickAction::Wait);
    s.on_connected();
    s.on_connected();
    s.on_closed();
    assert_eq!(s.connected_peers, 1);
    assert_eq!(s.on_tick(), TickAction::Publish);
    assert_eq!(s.on_tick(), TickAction::Stop);
    assert_eq!(s.after_loop(), (false, true));
    let mut t = PublishState::new();
    t.on_closed();
    assert_eq!(t.connected_peers, 0);
    assert_eq!(t.after_loop(), (true, false));
}

#[test]
fn upgrade_uploads() {
    let mut f = UpgradeForm::new();
    f.file_field(Some(vec![1, 2]));
    f.file_field(None);
    f.platform_field(Some("  ".to_string()));
    f.platform_field(Some("linux/arm64".to_string()));
    f.file_field(Some(vec![3]));
    f.version_text(Some("7".to_string()));
    let (items, version) = f.finish().unwrap();
    assert_eq!(version, 7);
    assert_eq!(items.len(), 2);
    assert_eq!(items[0], (vec![1, 2], Some("linux/arm64".to_string())));
    assert_eq!(items[1], (vec![3], None));
    assert_eq!(UpgradeForm::new().finish().err(), Some((400, "missing file".to_string())));
    assert_eq!(version_field(Some("x".to_string())), 1);
    assert_eq!(version_field(None), 1);
    let d = sha256_hex(b"bin");
    assert_eq!(upload_agent_path("/data", b"bin"), format!("/data/upload-agent-{}.bin", &d[..16]));
    assert_eq!(upgrade_reply(None), (200, "ok".to_string()));
    assert_eq!(upgrade_reply(Some(upgrade_failed("boom"))), (400, "upgrade failed: boom".to_string()));
}

#[test]
fn manifest_and_install_uploads() {
    let mut a = ApplyForm::new();
    a.version_text(Some("3".to_string()));
    a.file_field(Some("[components]".to_string()));
    assert_eq!(a.finish(), Ok(("[components]".to_string(), 3)));
    assert_eq!(ApplyForm::new().finish(), Err((400, "missing file".to_string())));
    assert_eq!(upload_manifest_path("/d"), "/d/upload-manifest.toml");
    assert_eq!(apply_reply(false, Ok(())), (500, "failed to stage manifest".to_string()));
    assert_eq!(apply_reply(true, Ok(())), (200, "ok".to_string()));
    assert_eq!(apply_reply(true, Err("sig".to_string())), (400, "apply failed: sig".to_string()));
    assert!(system_flag(Some("true".to_string())));
    assert!(system_flag(Some("1".to_string())));
    assert!(!system_flag(Some("yes".to_string())));
    assert!(!system_flag(None));
    assert_eq!(upload_install_path("/d"), "/d/upload-agent.bin");
    assert_eq!(install_agent_reply(Err("no systemd".to_string())), (400, "install-agent failed: no systemd".to_string()));
    assert_eq!(install_agent_reply(Ok(())), (200, "ok".to_string()));
}

#[test]
fn job_uploads_and_replies() {
    assert!(is_job_field("job_toml"));
    assert!(is_job_field("file"));
    assert!(!is_job_field("spec"));
    assert_eq!(job_upload_text(Some("name='x'".to_string())), Ok("name='x'".to_string()));
    assert_eq!(job_upload_text(Some(String::new())), Err((400, "Missing job TOML content".to_string())));
    assert_eq!(job_upload_text(None), Err((400, "Missing job TOML content".to_string())));
    assert_eq!(invalid_job_reply("bad"), (400, "Invalid job TOML: bad".to_string()));
    assert_eq!(
        job_submit_reply(Ok(())),
        (200, "Job submitted successfully".to_string(), Some("Job submitted via web interface".to_string()))
    );
    assert_eq!(job_submit_reply(Err("x".to_string())), (500, "Failed to submit job: x".to_string(), None));
    assert_eq!(job_not_found("j1"), (404, "Job 'j1' not found".to_string()));
    assert_eq!(
        cancel_reply("j1", Ok(true)),
        (200, "Job 'j1' cancelled successfully".to_string(), Some("Job 'j1' cancelled via web interface".to_string()))
    );
    assert_eq!(
        cancel_reply("j1", Ok(false)),
        (400, "Job 'j1' cannot be cancelled (already completed)".to_string(), None)
    );
    assert_eq!(cancel_reply("j1", Err("io".to_string())), (500, "Failed to cancel job: io".to_string(), None));
}

#[test]
fn peers_and_volumes() {
    let mut list = strings(&["a:1"]);
    assert_eq!(connect_peer(Some("  "), &mut list), Err((400, "addr required".to_string())));
    assert_eq!(connect_peer(None, &mut list), Err((400, "addr required".to_string())));
    assert_eq!(connect_peer(Some(" b:2 "), &mut list), Ok(true));
    assert_eq!(list, strings(&["a:1", "b:2"]));
    assert_eq!(connect_peer(Some("a:1"), &mut list), Ok(false));
    assert_eq!(list.len(), 2);
    assert_eq!(volume_size_mb(3 * 1048576 + 5), 3);
    assert_eq!(volume_size_mb(1048575), 0);
}
