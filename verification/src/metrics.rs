//! In-memory agent metrics, their Prometheus text rendering, and reading a
//! rendered text back into metrics (as the management UI does with the
//! agent's `/metrics` endpoint).
use vstd::prelude::*;
use vstd::string::*;

use crate::text::{decimal, lines, lines_of, parse_u64, parse_u64_str, split_once, split_once_char, starts_with, str_eq, str_starts_with, strip_cr, trim, trim_str, u64_to_decimal};

verus! {

/// Counters and gauges of one agent.
#[derive(Debug, Clone, Copy, PartialEq, Eq, Structural)]
pub struct Metrics {
    pub status_published_total: u64,
    pub status_publish_errors_total: u64,
    pub commands_received_total: u64,
    pub run_ok_total: u64,
    pub run_error_total: u64,
    pub manifest_accepted_total: u64,
    pub manifest_rejected_total: u64,
    pub upgrade_accepted_total: u64,
    pub upgrade_rejected_total: u64,
    pub agent_version: u64,
    pub manifest_version: u64,
    pub components_running: u64,
    pub components_desired: u64,
    pub restarts_total: u64,
    pub fuel_used_total: u64,
    pub mem_current_bytes: u64,
    pub mem_peak_bytes: u64,
    pub msgs_per_sec: u64,
    pub gateway_requests_total: u64,
    pub gateway_errors_total: u64,
    pub gateway_last_latency_ms: u64,
}

/// `x + y` wrapped around at 2^64, as atomic counters add.
pub open spec fn wrap_add(x: u64, y: u64) -> u64 {
    if x + y <= u64::MAX {
        (x + y) as u64
    } else {
        (x + y - 0x1_0000_0000_0000_0000) as u64
    }
}

/// `x - y`, or 0 when `y` exceeds `x`.
pub open spec fn sat_sub(x: u64, y: u64) -> u64 {
    if x >= y {
        (x - y) as u64
    } else {
        0
    }
}

/// One metric in the Prometheus text format: its `# TYPE` line, then its
/// sample line.
pub open spec fn prom_block(name: Seq<char>, kind: Seq<char>, v: u64) -> Seq<char> {
    "# TYPE "@ + name + " "@ + kind + "\n"@ + name + " "@ + decimal(v as nat) + "\n"@
}

/// The Prometheus text of the first group of metrics (message counters).
pub open spec fn render_head(m: Metrics) -> Seq<char> {
    prom_block("agent_status_published_total"@, "counter"@, m.status_published_total)
        + prom_block("agent_status_publish_errors_total"@, "counter"@, m.status_publish_errors_total)
        + prom_block("agent_commands_received_total"@, "counter"@, m.commands_received_total)
        + prom_block("agent_run_ok_total"@, "counter"@, m.run_ok_total)
        + prom_block("agent_run_error_total"@, "counter"@, m.run_error_total)
        + prom_block("agent_manifest_accepted_total"@, "counter"@, m.manifest_accepted_total)
        + prom_block("agent_manifest_rejected_total"@, "counter"@, m.manifest_rejected_total)
        + prom_block("agent_upgrade_accepted_total"@, "counter"@, m.upgrade_accepted_total)
        + prom_block("agent_upgrade_rejected_total"@, "counter"@, m.upgrade_rejected_total)
}

/// The Prometheus text of the versions and component gauges, with the drift
/// of desired over running components.
pub open spec fn render_middle(m: Metrics) -> Seq<char> {
    prom_block("agent_version"@, "gauge"@, m.agent_version)
        + prom_block("manifest_version"@, "gauge"@, m.manifest_version)
        + prom_block("components_running"@, "gauge"@, m.components_running)
        + prom_block("components_desired"@, "gauge"@, m.components_desired)
        + prom_block("components_drift"@, "gauge"@, sat_sub(m.components_desired, m.components_running))
}

/// The Prometheus text of the runtime and gateway metrics.
pub open spec fn render_tail(m: Metrics) -> Seq<char> {
    prom_block("agent_restarts_total"@, "counter"@, m.restarts_total)
        + prom_block("agent_fuel_used_total"@, "counter"@, m.fuel_used_total)
        + prom_block("agent_mem_current_bytes"@, "gauge"@, m.mem_current_bytes)
        + prom_block("agent_mem_peak_bytes"@, "gauge"@, m.mem_peak_bytes)
        + prom_block("agent_msgs_per_sec"@, "gauge"@, m.msgs_per_sec)
        + prom_block("gateway_requests_total"@, "counter"@, m.gateway_requests_total)
        + prom_block("gateway_errors_total"@, "counter"@, m.gateway_errors_total)
        + prom_block("gateway_last_latency_ms"@, "gauge"@, m.gateway_last_latency_ms)
}

/// The whole Prometheus exposition of a set of metrics.
pub open spec fn render_spec(m: Metrics) -> Seq<char> {
    render_head(m) + render_middle(m) + render_tail(m)
}

/// The metrics after reading one line of a Prometheus text: comments and
/// blank lines are skipped; a `name value` line with a decimal value updates
/// the metric of that name when it is one the agent takes over.
pub open spec fn apply_metric_line(m: Metrics, line: Seq<char>) -> Metrics {
    if starts_with(line, "#"@) || trim(line).len() == 0 {
        m
    } else {
        match split_once(line, ' ') {
            Some((name, val)) => match parse_u64(val) {
                Some(v) => if name == "components_running"@ {
                    Metrics { components_running: v, ..m }
                } else if name == "components_desired"@ {
                    Metrics { components_desired: v, ..m }
                } else if name == "agent_restarts_total"@ {
                    Metrics { restarts_total: v, ..m }
                } else if name == "agent_mem_current_bytes"@ {
                    Metrics {
                        mem_current_bytes: v,
                        mem_peak_bytes: if v > m.mem_peak_bytes { v } else { m.mem_peak_bytes },
                        ..m
                    }
                } else if name == "agent_fuel_used_total"@ {
                    Metrics { fuel_used_total: v, ..m }
                } else {
                    m
                },
                None => m,
            },
            None => m,
        }
    }
}

/// The metrics after reading the lines `ls` in order.
pub open spec fn apply_metric_lines(m: Metrics, ls: Seq<Seq<char>>) -> Metrics
    decreases ls.len(),
{
    if ls.len() == 0 {
        m
    } else {
        apply_metric_lines(apply_metric_line(m, ls[0]), ls.drop_first())
    }
}

/// Append one metric in Prometheus text format to `out`.
fn push_block(out: &mut String, name: &str, kind: &str, v: u64)
    ensures
        final(out)@ == old(out)@ + prom_block(name@, kind@, v),
{
    out.append("# TYPE ");
    out.append(name);
    out.append(" ");
    out.append(kind);
    out.append("\n");
    out.append(name);
    out.append(" ");
    let d = u64_to_decimal(v);
    out.append(d.as_str());
    out.append("\n");
    assert(out@ =~= old(out)@ + prom_block(name@, kind@, v));
}

/// The value of line `line` if it is a sample line `name value` of a metric
/// named `name`; the first space separates name and value.
fn metric_sample(line: &str) -> (r: Option<(&str, u64)>)
    ensures
        match r {
            Some((name, v)) => split_once(line@, ' ') matches Some((n, val)) && n == name@
                && parse_u64(val) == Some(v),
            None => split_once(line@, ' ') matches Some((n, val)) ==> parse_u64(val) is None,
        },
{
    match split_once_char(line, ' ') {
        Some((name, val)) => match parse_u64_str(val) {
            Some(v) => Some((name, v)),
            None => None,
        },
        None => None,
    }
}

impl Metrics {
    /// All counters and gauges at zero.
    pub open spec fn zero() -> Metrics {
        Metrics {
            status_published_total: 0,
            status_publish_errors_total: 0,
            commands_received_total: 0,
            run_ok_total: 0,
            run_error_total: 0,
            manifest_accepted_total: 0,
            manifest_rejected_total: 0,
            upgrade_accepted_total: 0,
            upgrade_rejected_total: 0,
            agent_version: 0,
            manifest_version: 0,
            components_running: 0,
            components_desired: 0,
            restarts_total: 0,
            fuel_used_total: 0,
            mem_current_bytes: 0,
            mem_peak_bytes: 0,
            msgs_per_sec: 0,
            gateway_requests_total: 0,
            gateway_errors_total: 0,
            gateway_last_latency_ms: 0,
        }
    }

    /// Fresh metrics: everything at zero.
    pub fn new() -> (r: Metrics)
        ensures
            r == Metrics::zero(),
    {
        Metrics {
            status_published_total: 0,
            status_publish_errors_total: 0,
            commands_received_total: 0,
            run_ok_total: 0,
            run_error_total: 0,
            manifest_accepted_total: 0,
            manifest_rejected_total: 0,
            upgrade_accepted_total: 0,
            upgrade_rejected_total: 0,
            agent_version: 0,
            manifest_version: 0,
            components_running: 0,
            components_desired: 0,
            restarts_total: 0,
            fuel_used_total: 0,
            mem_current_bytes: 0,
            mem_peak_bytes: 0,
            msgs_per_sec: 0,
            gateway_requests_total: 0,
            gateway_errors_total: 0,
            gateway_last_latency_ms: 0,
        }
    }

    pub fn set_agent_version(&mut self, v: u64)
        ensures
            *final(self) == (Metrics { agent_version: v, ..*old(self) }),
    {
        self.agent_version = v;
    }

    pub fn set_manifest_version(&mut self, v: u64)
        ensures
            *final(self) == (Metrics { manifest_version: v, ..*old(self) }),
    {
        self.manifest_version = v;
    }

    pub fn set_components_desired(&mut self, v: u64)
        ensures
            *final(self) == (Metrics { components_desired: v, ..*old(self) }),
    {
        self.components_desired = v;
    }

    /// One more running component (wrapping at 2^64 like an atomic counter).
    pub fn inc_components_running(&mut self)
        ensures
            *final(self) == (Metrics {
                components_running: wrap_add(old(self).components_running, 1),
                ..*old(self)
            }),
    {
        self.components_running = self.components_running.wrapping_add(1);
    }

    /// One fewer running component, never below zero.
    pub fn dec_components_running(&mut self)
        ensures
            *final(self) == (Metrics {
                components_running: sat_sub(old(self).components_running, 1),
                ..*old(self)
            }),
    {
        self.components_running = self.components_running.saturating_sub(1);
    }

    pub fn inc_restarts_total(&mut self)
        ensures
            *final(self) == (Metrics {
                restarts_total: wrap_add(old(self).restarts_total, 1),
                ..*old(self)
            }),
    {
        self.restarts_total = self.restarts_total.wrapping_add(1);
    }

    pub fn add_fuel_used(&mut self, used: u64)
        ensures
            *final(self) == (Metrics {
                fuel_used_total: wrap_add(old(self).fuel_used_total, used),
                ..*old(self)
            }),
    {
        self.fuel_used_total = self.fuel_used_total.wrapping_add(used);
    }

    /// Record the current memory use; the peak follows it upwards.
    pub fn set_mem_current_bytes(&mut self, current: u64)
        ensures
            *final(self) == (Metrics {
                mem_current_bytes: current,
                mem_peak_bytes: if current > old(self).mem_peak_bytes {
                    current
                } else {
                    old(self).mem_peak_bytes
                },
                ..*old(self)
            }),
    {
        self.mem_current_bytes = current;
        let peak = self.mem_peak_bytes;
        if current > peak {
            self.mem_peak_bytes = current;
        }
    }

    pub fn set_msgs_per_sec(&mut self, rate: u64)
        ensures
            *final(self) == (Metrics { msgs_per_sec: rate, ..*old(self) }),
    {
        self.msgs_per_sec = rate;
    }

    /// Count one request served by the HTTP gateway with response status
    /// `status` after `latency_ms` milliseconds; statuses outside 200..=299
    /// count as errors.
    pub fn record_gateway_request(&mut self, status: u16, latency_ms: u64)
        ensures
            *final(self) == (Metrics {
                gateway_requests_total: wrap_add(old(self).gateway_requests_total, 1),
                gateway_last_latency_ms: latency_ms,
                gateway_errors_total: if 200 <= status <= 299 {
                    old(self).gateway_errors_total
                } else {
                    wrap_add(old(self).gateway_errors_total, 1)
                },
                ..*old(self)
            }),
    {
        self.gateway_requests_total = self.gateway_requests_total.wrapping_add(1);
        self.gateway_last_latency_ms = latency_ms;
        if !(200 <= status && status <= 299) {
            self.gateway_errors_total = self.gateway_errors_total.wrapping_add(1);
        }
    }

    /// The metrics in the Prometheus text exposition format.
    #[verifier::spinoff_prover]
    #[verifier::rlimit(40)]
    pub fn render_prometheus(&self) -> (r: String)
        ensures
            r@ == render_spec(*self),
    {
        let mut out = String::new();
        push_block(&mut out, "agent_status_published_total", "counter", self.status_published_total);
        push_block(&mut out, "agent_status_publish_errors_total", "counter", self.status_publish_errors_total);
        push_block(&mut out, "agent_commands_received_total", "counter", self.commands_received_total);
        push_block(&mut out, "agent_run_ok_total", "counter", self.run_ok_total);
        push_block(&mut out, "agent_run_error_total", "counter", self.run_error_total);
        push_block(&mut out, "agent_manifest_accepted_total", "counter", self.manifest_accepted_total);
        push_block(&mut out, "agent_manifest_rejected_total", "counter", self.manifest_rejected_total);
        push_block(&mut out, "agent_upgrade_accepted_total", "counter", self.upgrade_accepted_total);
        push_block(&mut out, "agent_upgrade_rejected_total", "counter", self.upgrade_rejected_total);
        let ghost head = out@;
        assert(head =~= render_head(*self));
        push_block(&mut out, "agent_version", "gauge", self.agent_version);
        push_block(&mut out, "manifest_version", "gauge", self.manifest_version);
        push_block(&mut out, "components_running", "gauge", self.components_running);
        push_block(&mut out, "components_desired", "gauge", self.components_desired);
        let drift = self.components_desired.saturating_sub(self.components_running);
        push_block(&mut out, "components_drift", "gauge", drift);
        let ghost middle = out@;
        assert(middle =~= head + render_middle(*self));
        push_block(&mut out, "agent_restarts_total", "counter", self.restarts_total);
        push_block(&mut out, "agent_fuel_used_total", "counter", self.fuel_used_total);
        push_block(&mut out, "agent_mem_current_bytes", "gauge", self.mem_current_bytes);
        push_block(&mut out, "agent_mem_peak_bytes", "gauge", self.mem_peak_bytes);
        push_block(&mut out, "agent_msgs_per_sec", "gauge", self.msgs_per_sec);
        push_block(&mut out, "gateway_requests_total", "counter", self.gateway_requests_total);
        push_block(&mut out, "gateway_errors_total", "counter", self.gateway_errors_total);
        push_block(&mut out, "gateway_last_latency_ms", "gauge", self.gateway_last_latency_ms);
        assert(out@ =~= middle + render_tail(*self));
        out
    }

    /// Read one line of a Prometheus text (see `apply_metric_line`).
    pub fn apply_metric_text_line(&mut self, line: &str)
        ensures
            *final(self) == apply_metric_line(*old(self), line@),
    {
        proof {
            reveal_strlit("#");
        }
        if str_starts_with(line, "#") || trim_str(line).unicode_len() == 0 {
            return;
        }
        match metric_sample(line) {
            Some((name, v)) => {
                if str_eq(name, "components_running") {
                    self.components_running = v;
                } else if str_eq(name, "components_desired") {
                    self.set_components_desired(v);
                } else if str_eq(name, "agent_restarts_total") {
                    self.restarts_total = v;
                } else if str_eq(name, "agent_mem_current_bytes") {
                    self.set_mem_current_bytes(v);
                } else if str_eq(name, "agent_fuel_used_total") {
                    self.fuel_used_total = v;
                }
            },
            None => {},
        }
    }
}

/// Take over the values of a running agent's Prometheus text: for each line
/// in order, the five metrics the management UI mirrors (running and desired
/// components, restarts, current memory with its peak, fuel used) are set
/// from sample lines that name them; everything else is ignored.
pub fn parse_prometheus_metrics(metrics_text: &str, metrics: &mut Metrics)
    ensures
        *final(metrics) == apply_metric_lines(*old(metrics), lines(metrics_text@)),
{
    let ls = lines_of(metrics_text);
    let ghost all = lines(metrics_text@);
    let mut i: usize = 0;
    assert(all.subrange(0, all.len() as int) =~= all);
    while i < ls.len()
        invariant
            ls@.len() == all.len(),
            forall|k: int| 0 <= k < ls@.len() ==> #[trigger] ls@[k]@ == all[k],
            i <= ls@.len(),
            apply_metric_lines(*old(metrics), all) == apply_metric_lines(*metrics, all.subrange(i as int, all.len() as int)),
        decreases ls.len() - i,
    {
        let ghost rest = all.subrange(i as int, all.len() as int);
        metrics.apply_metric_text_line(ls[i]);
        proof {
            assert(ls@[i as int]@ == rest[0]);
            assert(rest.drop_first() =~= all.subrange(i + 1, all.len() as int));
        }
        i = i + 1;
    }
    proof {
        assert(all.subrange(all.len() as int, all.len() as int) =~= Seq::<Seq<char>>::empty());
    }
}

} // verus!
