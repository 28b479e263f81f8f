use realm_agent::digest::sha256_hex;
use realm_agent::endpoint::{
    http_text_reply, logs_query, plain_logs, port_reply, port_route, request_path, PortRoute,
};
use realm_agent::keyed::StrMap;
use realm_agent::logs::push_log;
use realm_agent::metrics::Metrics;
use realm_agent::policy::ExecutionPolicy;
use realm_agent::runs::{
    check_job_digest, emulation_allowed, exit_error, fetched_only, fetched_or_peers, from_store_or_peers,
    job_ok_message, native_allowed, prestage_bytes, prestage_digest, process_start_line, produced_artifact,
    qemu_path, wasm_job_error, wasm_route, wasm_start_lines, WasmRoute,
};

fn sample_logs() -> StrMap<Vec<String>> {
    let mut logs = StrMap::new();
    push_log(&mut logs, "web", "started", 20);
    push_log(&mut logs, "api", "booting", 10);
    push_log(&mut logs, "web", "served", 30);
    push_log(&mut logs, "api", "ready", 30);
    logs
}

#[test]
fn wasm_module_routes() {
    assert!(matches!(wasm_route("cached:x", Some("d".to_string())), WasmRoute::Cached(d) if d == "d"));
    assert!(matches!(wasm_route("cas:x", Some("e".to_string())), WasmRoute::Cached(d) if d == "e"));
    assert!(matches!(wasm_route("https://x/m.wasm", Some("f".to_string())), WasmRoute::FetchFirst(d) if d == "f"));
    assert!(matches!(wasm_route("cached:x", None), WasmRoute::FetchOnly));
}

#[test]
fn module_sources_fall_back() {
    assert_eq!(from_store_or_peers(Some(vec![1]), false, None), Ok((vec![1], false)));
    assert_eq!(from_store_or_peers(None, true, Some(vec![2])), Ok((vec![2], true)));
    assert_eq!(
        from_store_or_peers(None, true, None),
        Err("job failed: digest not available via P2P".to_string())
    );
    assert_eq!(
        from_store_or_peers(None, false, Some(vec![2])),
        Err("job failed: digest not local and no P2P storage available".to_string())
    );
    assert_eq!(fetched_or_peers(Ok(vec![3]), false, None), Ok(vec![3]));
    assert_eq!(fetched_or_peers(Err("x".to_string()), true, Some(vec![4])), Ok(vec![4]));
    assert_eq!(
        fetched_or_peers(Err("x".to_string()), true, None),
        Err("job failed: fetch unavailable and P2P fetch failed".to_string())
    );
    assert_eq!(
        fetched_or_peers(Err("x".to_string()), false, None),
        Err("job failed: unsupported source and no P2P storage".to_string())
    );
    assert_eq!(fetched_only(Ok(vec![5])), Ok(vec![5]));
    assert_eq!(fetched_only(Err("404".to_string())), Err("job failed: fetch: 404".to_string()));
}

#[test]
fn job_digests_and_prestaging() {
    let h = sha256_hex(b"abc");
    assert_eq!(check_job_digest(Some(&h), b"abc"), Ok(()));
    assert_eq!(check_job_digest(Some(&h), b"abd"), Err("job failed: digest mismatch".to_string()));
    assert_eq!(check_job_digest(None, b"abd"), Ok(()));
    assert_eq!(prestage_digest("cas:ff00"), Some("ff00"));
    assert_eq!(prestage_digest("file:/x"), None);
    assert_eq!(prestage_bytes("ff", Some(vec![9]), false, None), Ok(vec![9]));
    assert_eq!(
        prestage_bytes("ff", None, true, None),
        Err("prestage: digest not available via P2P: ff".to_string())
    );
    assert_eq!(
        prestage_bytes("ff", None, false, None),
        Err("prestage: digest not local and no P2P storage available".to_string())
    );
}

#[test]
fn policy_gates() {
    let off = ExecutionPolicy { allow_native_execution: false, allow_emulation: false };
    let on = ExecutionPolicy { allow_native_execution: true, allow_emulation: true };
    assert_eq!(native_allowed(&on, "build", "HELP"), Ok(()));
    assert_eq!(
        native_allowed(&off, "build", "HELP"),
        Err("job failed: native execution is disabled by policy for job build. HELP".to_string())
    );
    assert_eq!(emulation_allowed(&on, "build", "HELP"), Ok(()));
    assert_eq!(
        emulation_allowed(&off, "build", "HELP"),
        Err("job failed: QEMU emulation is disabled by policy for job build. HELP".to_string())
    );
}

#[test]
fn emulator_choice() {
    assert_eq!(qemu_path(Some("/q".to_string()), Some("/f".to_string()), None, "H"), Ok("/q".to_string()));
    assert_eq!(qemu_path(None, Some("/f".to_string()), None, "H"), Ok("/f".to_string()));
    assert_eq!(
        qemu_path(None, None, Some("linux/mips"), "H"),
        Err("job failed: QEMU user-mode binary not found for platform Some(\"linux/mips\"). H".to_string())
    );
    assert_eq!(
        qemu_path(None, None, None, "H"),
        Err("job failed: QEMU user-mode binary not found for platform None. H".to_string())
    );
}

#[test]
fn run_messages() {
    assert_eq!(job_ok_message("build"), "job ok: build");
    assert_eq!(wasm_job_error("build", "trap"), "job error: build: trap");
    assert_eq!(exit_error("build", "native", Some(3)), "job error: build: native exit code Some(3)");
    assert_eq!(exit_error("build", "qemu", Some(-1)), "job error: build: qemu exit code Some(-1)");
    assert_eq!(exit_error("build", "native", None), "job error: build: native exit code None");
    let (a, b) = wasm_start_lines(64, 1000, 100);
    assert_eq!(a, "starting wasm job (mem=64MB fuel=1000 epoch_ms=100)");
    assert_eq!(b, "Executing WASM with 64MB memory, 1000 fuel, 100ms epoch");
    let args = vec!["-v".to_string(), "x".to_string()];
    assert_eq!(process_start_line(None, "/cas/ab", &args), "starting native job: /cas/ab -v x");
    assert_eq!(
        process_start_line(Some("/usr/bin/qemu-arm"), "/cas/ab", &args),
        "starting qemu job: /usr/bin/qemu-arm /cas/ab -v x"
    );
    let art = produced_artifact(None, "/out/a.bin".to_string(), Some(12));
    assert_eq!(art.name, "/out/a.bin");
    assert_eq!(art.stored_path, "/out/a.bin");
    assert_eq!(art.size_bytes, Some(12));
    assert!(art.sha256_hex.is_none());
    let art = produced_artifact(Some("bin".to_string()), "/out/a.bin".to_string(), None);
    assert_eq!(art.name, "bin");
}

#[test]
fn port_requests() {
    assert_eq!(request_path("GET /logs?x=1 HTTP/1.1\r\nHost: a\r\n"), "/logs?x=1");
    assert_eq!(request_path("GET\r\n"), "/metrics");
    assert_eq!(request_path(""), "/metrics");
    assert_eq!(port_route("/metrics/extra"), PortRoute::Metrics);
    assert_eq!(port_route("/logs?component=a"), PortRoute::Logs);
    assert_eq!(port_route("/"), PortRoute::NotFound);
    assert_eq!(logs_query("/logs"), (None, 100));
    assert_eq!(logs_query("/logs?component=web&tail=5"), (Some("web".to_string()), 5));
    assert_eq!(logs_query("/logs?tail=5000&component=&tail=x"), (None, 1000));
    assert_eq!(logs_query("/logs?tail=+7&flag"), (None, 7));
}

#[test]
fn port_log_texts() {
    let logs = sample_logs();
    assert_eq!(plain_logs(&logs, None, 100), "components:\napi\nweb\n");
    assert_eq!(plain_logs(&logs, Some("web".to_string()), 1), "30 | served\n");
    assert_eq!(plain_logs(&logs, Some("nope".to_string()), 1), "unknown component\n");
    assert_eq!(
        plain_logs(&logs, Some("__all__".to_string()), 100),
        "[api] booting\n[web] started\n[api] ready\n[web] served\n"
    );
    assert_eq!(plain_logs(&logs, Some("__all__".to_string()), 1), "[web] served\n");
}

#[test]
fn port_replies() {
    let logs = sample_logs();
    let m = Metrics::new();
    let body = m.render_prometheus();
    let mut req = b"GET /metrics HTTP/1.1\r\n\r\n".to_vec();
    req.resize(2048, 0);
    let r = port_reply(&req, &m, &logs);
    assert_eq!(
        r,
        format!(
            "HTTP/1.1 200 OK\r\nContent-Type: text/plain; version=0.0.4\r\nContent-Length: {}\r\nConnection: close\r\n\r\n{}",
            body.len(),
            body
        )
    );
    let r = port_reply(b"GET /logs?component=api HTTP/1.1\r\n", &m, &logs);
    assert_eq!(
        r,
        "HTTP/1.1 200 OK\r\nContent-Type: text/plain; charset=utf-8\r\nContent-Length: 24\r\nConnection: close\r\n\r\n10 | booting\n30 | ready\n"
    );
    let r = port_reply(b"GET /nothing HTTP/1.1\r\n", &m, &logs);
    assert_eq!(
        r,
        "HTTP/1.1 404 Not Found\r\nContent-Type: text/plain; charset=utf-8\r\nContent-Length: 9\r\nConnection: close\r\n\r\nnot found"
    );
    assert_eq!(
        http_text_reply("S", "T", "\u{e9}"),
        "S\r\nContent-Type: T\r\nContent-Length: 2\r\nConnection: close\r\n\r\n\u{e9}"
    );
}
