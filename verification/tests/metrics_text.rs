use realm_agent::metrics::{parse_prometheus_metrics, Metrics};

#[test]
fn fresh_metrics_are_zero() {
    let m = Metrics::new();
    assert_eq!(m.components_running, 0);
    assert_eq!(m.gateway_requests_total, 0);
    assert_eq!(m.mem_peak_bytes, 0);
}

#[test]
fn counters_and_gauges() {
    let mut m = Metrics::new();
    m.inc_components_running();
    m.inc_components_running();
    m.dec_components_running();
    assert_eq!(m.components_running, 1);
    m.dec_components_running();
    m.dec_components_running();
    assert_eq!(m.components_running, 0);
    m.set_mem_current_bytes(500);
    m.set_mem_current_bytes(200);
    assert_eq!(m.mem_current_bytes, 200);
    assert_eq!(m.mem_peak_bytes, 500);
    m.add_fuel_used(u64::MAX);
    m.add_fuel_used(2);
    assert_eq!(m.fuel_used_total, 1);
    m.inc_restarts_total();
    assert_eq!(m.restarts_total, 1);
    m.record_gateway_request(200, 12);
    m.record_gateway_request(503, 40);
    m.record_gateway_request(299, 3);
    assert_eq!(m.gateway_requests_total, 3);
    assert_eq!(m.gateway_errors_total, 1);
    assert_eq!(m.gateway_last_latency_ms, 3);
}

#[test]
fn prometheus_rendering() {
    let mut m = Metrics::new();
    m.set_components_desired(5);
    m.inc_components_running();
    m.inc_components_running();
    let text = m.render_prometheus();
    assert!(text.starts_with(
        "# TYPE agent_status_published_total counter\nagent_status_published_total 0\n"
    ));
    assert!(text.contains("# TYPE components_running gauge\ncomponents_running 2\n"));
    assert!(text.contains("# TYPE components_drift gauge\ncomponents_drift 3\n"));
    assert!(text.ends_with("# TYPE gateway_last_latency_ms gauge\ngateway_last_latency_ms 0\n"));
    assert_eq!(text.lines().count(), 44);
}

#[test]
fn drift_never_negative() {
    let mut m = Metrics::new();
    m.inc_components_running();
    let text = m.render_prometheus();
    assert!(text.contains("\ncomponents_drift 0\n"));
}

#[test]
fn metrics_read_back_from_text() {
    let mut source = Metrics::new();
    source.set_components_desired(4);
    source.inc_components_running();
    source.inc_components_running();
    source.inc_restarts_total();
    source.set_mem_current_bytes(4096);
    source.add_fuel_used(777);
    source.record_gateway_request(500, 9);
    let text = source.render_prometheus();

    let mut mirror = Metrics::new();
    parse_prometheus_metrics(&text, &mut mirror);
    assert_eq!(mirror.components_running, 2);
    assert_eq!(mirror.components_desired, 4);
    assert_eq!(mirror.restarts_total, 1);
    assert_eq!(mirror.mem_current_bytes, 4096);
    assert_eq!(mirror.mem_peak_bytes, 4096);
    assert_eq!(mirror.fuel_used_total, 777);
    // metrics the mirror does not take over stay as they were
    assert_eq!(mirror.gateway_requests_total, 0);
}

#[test]
fn metric_text_lines_ignored() {
    let mut m = Metrics::new();
    parse_prometheus_metrics(
        "# comment\n\ncomponents_running abc\nunknown_metric 5\ncomponents_desired 7\r\n",
        &mut m,
    );
    assert_eq!(m.components_running, 0);
    assert_eq!(m.components_desired, 7);
}
