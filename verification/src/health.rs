//! Fleet health: how components, nodes and storage are judged, the alerts a
//! node's figures raise, and the overall verdict.
use vstd::prelude::*;
use vstd::string::*;

use crate::keyed::StrMap;
use crate::supervisor::Supervisor;
use crate::text::{contains, decimal, str_contains, u64_to_decimal};
use crate::web::{has_logs, PeerTable, Status};
use crate::storage::{total_size, IndexFile};

verus! {

/// A health verdict.
#[derive(Debug, Clone, Copy, PartialEq, Eq, Structural)]
pub enum HealthStatus {
    Healthy,
    Warning,
    Critical,
    Unknown,
}

/// How serious an alert is.
#[derive(Debug, Clone, Copy, PartialEq, Eq, Structural)]
pub enum AlertSeverity {
    Info,
    Warning,
    Critical,
}

/// One health check and its outcome.
pub struct HealthCheckResult {
    pub component: String,
    pub status: HealthStatus,
    pub message: String,
    pub last_check: u64,
    pub response_time_ms: u64,
}

/// An alert raised by a node's figures.
pub struct AlertInfo {
    pub id: String,
    pub severity: AlertSeverity,
    pub title: String,
    pub message: String,
    pub timestamp: u64,
    pub acknowledged: bool,
}

/// A component is healthy with all its replicas up, warned about with some,
/// and critical with none.
pub open spec fn component_verdict(running: u32, desired: u32) -> HealthStatus {
    if running >= desired {
        HealthStatus::Healthy
    } else if running > 0 {
        HealthStatus::Warning
    } else {
        HealthStatus::Critical
    }
}

pub fn component_status(running: u32, desired: u32) -> (r: HealthStatus)
    ensures
        r == component_verdict(running, desired),
{
    if running >= desired {
        HealthStatus::Healthy
    } else if running > 0 {
        HealthStatus::Warning
    } else {
        HealthStatus::Critical
    }
}

/// `r/d`, as the checks write replica counts.
pub open spec fn ratio_text(r: u32, d: u32) -> Seq<char> {
    decimal(r as nat) + "/"@ + decimal(d as nat)
}

/// The message of a component check.
pub open spec fn component_message(running: u32, desired: u32) -> Seq<char> {
    if running > 0 || running >= desired {
        ratio_text(running, desired) + " replicas running"@
    } else {
        "Component not running ("@ + ratio_text(running, desired) + " replicas)"@
    }
}

fn ratio_string(r: u32, d: u32) -> (s: String)
    ensures
        s@ == ratio_text(r, d),
{
    u64_to_decimal(r as u64).concat("/").concat(u64_to_decimal(d as u64).as_str())
}

/// The health check of component `name` with `running` of `desired`
/// replicas up, made at `now`.
pub fn component_check(name: &str, running: u32, desired: u32, now: u64) -> (r: HealthCheckResult)
    ensures
        r.component@ == "component:"@ + name@,
        r.status == component_verdict(running, desired),
        r.message@ == component_message(running, desired),
        r.last_check == now,
        r.response_time_ms == 0,
{
    let status = component_status(running, desired);
    let message = if running > 0 || running >= desired {
        ratio_string(running, desired).concat(" replicas running")
    } else {
        String::from_str("Component not running (").concat(ratio_string(running, desired).as_str()).concat(
            " replicas)",
        )
    };
    HealthCheckResult {
        component: String::from_str("component:").concat(name),
        status,
        message,
        last_check: now,
        response_time_ms: 0,
    }
}

/// Replicas the health view counts as running: one when the component has
/// logged anything, else none.
pub fn get_running_replicas(logs: &StrMap<Vec<String>>, name: &str) -> (r: u32)
    requires
        logs.wf(),
    ensures
        r == (if has_logs(*logs, name@) { 1u32 } else { 0u32 }),
{
    match logs.get(name) {
        Some(v) => if v.len() > 0 {
            1
        } else {
            0
        },
        None => 0,
    }
}

/// The alerts of node `id` with status `s`, in this order: CPU above 90%
/// (critical), memory above 85% (warning), fewer components running than
/// desired (warning).
pub open spec fn node_alert_kinds(s: Status) -> Seq<AlertSeverity> {
    (if s.cpu_percent > 90 { seq![AlertSeverity::Critical] } else { Seq::empty() }) + (if s.mem_percent
        > 85 {
        seq![AlertSeverity::Warning]
    } else {
        Seq::empty()
    }) + (if s.components_running < s.components_desired {
        seq![AlertSeverity::Warning]
    } else {
        Seq::empty()
    })
}

/// The (id, title, message) of each alert of node `id` with status `s`.
pub open spec fn node_alert_texts(id: Seq<char>, s: Status) -> Seq<(Seq<char>, Seq<char>, Seq<char>)> {
    (if s.cpu_percent > 90 {
        seq![("cpu-"@ + id, "High CPU Usage"@, "CPU usage at "@ + decimal(s.cpu_percent as nat) + "%"@)]
    } else {
        Seq::empty()
    }) + (if s.mem_percent > 85 {
        seq![
            ("memory-"@ + id, "High Memory Usage"@, "Memory usage at "@ + decimal(s.mem_percent as nat)
                + "%"@),
        ]
    } else {
        Seq::empty()
    }) + (if s.components_running < s.components_desired {
        seq![
            ("components-"@ + id, "Component Drift"@, "Running "@ + decimal(s.components_running as nat)
                + "/"@ + decimal(s.components_desired as nat) + " desired components"@),
        ]
    } else {
        Seq::empty()
    })
}

pub open spec fn alert_matches(a: AlertInfo, sev: AlertSeverity, text: (Seq<char>, Seq<char>, Seq<char>), now: u64) -> bool {
    &&& a.severity == sev
    &&& a.id@ == text.0
    &&& a.title@ == text.1
    &&& a.message@ == text.2
    &&& a.timestamp == now
    &&& !a.acknowledged
}

fn alert(id: String, severity: AlertSeverity, title: &str, message: String, now: u64) -> (r: AlertInfo)
    ensures
        r.id == id,
        r.severity == severity,
        r.title@ == title@,
        r.message == message,
        r.timestamp == now,
        !r.acknowledged,
{
    AlertInfo { id, severity, title: String::from_str(title), message, timestamp: now, acknowledged: false }
}

/// The alerts node `node_id` raises with status `s` at `now`.
pub fn node_alerts(node_id: &str, s: &Status, now: u64) -> (r: Vec<AlertInfo>)
    ensures
        r@.len() == node_alert_kinds(*s).len(),
        node_alert_texts(node_id@, *s).len() == node_alert_kinds(*s).len(),
        forall|i: int|
            0 <= i < r@.len() ==> alert_matches(
                #[trigger] r@[i],
                node_alert_kinds(*s)[i],
                node_alert_texts(node_id@, *s)[i],
                now,
            ),
{
    let mut alerts: Vec<AlertInfo> = Vec::new();
    let ghost kinds0: Seq<AlertSeverity> = if s.cpu_percent > 90 {
        seq![AlertSeverity::Critical]
    } else {
        Seq::empty()
    };
    let ghost texts0: Seq<(Seq<char>, Seq<char>, Seq<char>)> = if s.cpu_percent > 90 {
        seq![("cpu-"@ + node_id@, "High CPU Usage"@, "CPU usage at "@ + decimal(s.cpu_percent as nat) + "%"@)]
    } else {
        Seq::empty()
    };
    if s.cpu_percent > 90 {
        alerts.push(
            alert(
                String::from_str("cpu-").concat(node_id),
                AlertSeverity::Critical,
                "High CPU Usage",
                String::from_str("CPU usage at ").concat(u64_to_decimal(s.cpu_percent).as_str()).concat("%"),
                now,
            ),
        );
    }
    let ghost kinds1: Seq<AlertSeverity> = kinds0 + if s.mem_percent > 85 {
        seq![AlertSeverity::Warning]
    } else {
        Seq::empty()
    };
    let ghost texts1: Seq<(Seq<char>, Seq<char>, Seq<char>)> = texts0 + if s.mem_percent > 85 {
        seq![
            ("memory-"@ + node_id@, "High Memory Usage"@, "Memory usage at "@ + decimal(s.mem_percent as nat)
                + "%"@),
        ]
    } else {
        Seq::empty()
    };
    assert(alerts@.len() == kinds0.len());
    if s.mem_percent > 85 {
        alerts.push(
            alert(
                String::from_str("memory-").concat(node_id),
                AlertSeverity::Warning,
                "High Memory Usage",
                String::from_str("Memory usage at ").concat(u64_to_decimal(s.mem_percent).as_str()).concat(
                    "%",
                ),
                now,
            ),
        );
    }
    assert(forall|i: int| 0 <= i < alerts@.len() ==> alert_matches(#[trigger] alerts@[i], kinds1[i], texts1[i], now));
    if s.components_running < s.components_desired {
        alerts.push(
            alert(
                String::from_str("components-").concat(node_id),
                AlertSeverity::Warning,
                "Component Drift",
                String::from_str("Running ").concat(u64_to_decimal(s.components_running).as_str()).concat(
                    "/",
                ).concat(u64_to_decimal(s.components_desired).as_str()).concat(" desired components"),
                now,
            ),
        );
    }
    alerts
}

/// A node is critical with a critical alert, warned about with any other
/// alert, and healthy without alerts.
pub open spec fn node_verdict(kinds: Seq<AlertSeverity>) -> HealthStatus {
    if kinds.contains(AlertSeverity::Critical) {
        HealthStatus::Critical
    } else if kinds.len() == 0 {
        HealthStatus::Healthy
    } else {
        HealthStatus::Warning
    }
}

pub fn node_status(alerts: &Vec<AlertInfo>) -> (r: HealthStatus)
    ensures
        r == node_verdict(alerts@.map_values(|a: AlertInfo| a.severity)),
{
    let ghost kinds = alerts@.map_values(|a: AlertInfo| a.severity);
    let mut i: usize = 0;
    let mut critical = false;
    while i < alerts.len()
        invariant
            kinds == alerts@.map_values(|a: AlertInfo| a.severity),
            i <= alerts@.len(),
            critical == kinds.subrange(0, i as int).contains(AlertSeverity::Critical),
        decreases alerts.len() - i,
    {
        proof {
            assert(kinds.subrange(0, i + 1) =~= kinds.subrange(0, i as int).push(kinds[i as int]));
            assert(kinds[i as int] == alerts@[i as int].severity);
        }
        if alerts[i].severity == AlertSeverity::Critical {
            critical = true;
            proof {
                assert(kinds.subrange(0, i + 1)[i as int] == AlertSeverity::Critical);
            }
        } else {
            proof {
                if kinds.subrange(0, i + 1).contains(AlertSeverity::Critical) {
                    let j = choose|j: int| 0 <= j < i + 1 && #[trigger] kinds.subrange(0, i + 1)[j] == AlertSeverity::Critical;
                    assert(j < i);
                    assert(kinds.subrange(0, i as int)[j] == AlertSeverity::Critical);
                }
            }
        }
        i = i + 1;
    }
    assert(kinds.subrange(0, i as int) =~= kinds);
    if critical {
        HealthStatus::Critical
    } else if alerts.len() == 0 {
        HealthStatus::Healthy
    } else {
        HealthStatus::Warning
    }
}

/// The counts behind the fleet verdict.
pub struct FleetCounts {
    pub overall_status: HealthStatus,
    pub total_nodes: u32,
    pub healthy_nodes: u32,
    pub warning_nodes: u32,
    pub critical_nodes: u32,
    pub total_components: u32,
    pub healthy_components: u32,
    pub failed_components: u32,
}

/// Peers that run or want any component.
pub open spec fn active_peers(s: Seq<Status>) -> nat
    decreases s.len(),
{
    if s.len() == 0 {
        0
    } else {
        active_peers(s.drop_last()) + (if s.last().components_running > 0 || s.last().components_desired
            > 0 {
            1nat
        } else {
            0nat
        })
    }
}

/// Components with all replicas up / with none, given the running count of
/// each (`running`) and what each wants (`desired`).
pub open spec fn count_where(running: Seq<u32>, desired: Seq<u32>, healthy: bool) -> nat
    decreases running.len(),
{
    if running.len() == 0 || desired.len() == 0 {
        0
    } else {
        let r = running.last();
        let d = desired.last();
        count_where(running.drop_last(), desired.drop_last(), healthy) + (if (healthy && r >= d) || (
        !healthy && r < d && r == 0) {
            1nat
        } else {
            0nat
        })
    }
}

/// How the whole fleet is judged: critical when a component has no replica
/// up or a node is critical; a warning when a component lacks replicas or
/// a node is warned about; healthy otherwise.
pub open spec fn fleet_verdict(failed: u32, critical_nodes: u32, total: u32, healthy: u32, warning_nodes: u32) -> HealthStatus {
    if failed > 0 || critical_nodes > 0 {
        HealthStatus::Critical
    } else if total > healthy || warning_nodes > 0 {
        HealthStatus::Warning
    } else {
        HealthStatus::Healthy
    }
}

/// The fleet counts from the desired components' replica counts
/// (`running[i]` up, `desired[i]` wanted) and the peers: nodes are the
/// peers (at least 1), those running or wanting components are healthy, no
/// node is warned about, the rest are critical.
pub fn fleet_counts(running: &Vec<u32>, desired: &Vec<u32>, peers: &PeerTable) -> (r: FleetCounts)
    requires
        running@.len() == desired@.len(),
        running@.len() <= u32::MAX,
        peers.wf(),
        peers.peers.vals@.len() <= u32::MAX,
    ensures
        r.total_components == running@.len(),
        r.healthy_components == count_where(running@, desired@, true),
        r.failed_components == count_where(running@, desired@, false),
        r.total_nodes == (if peers.peers.vals@.len() == 0 { 1 } else { peers.peers.vals@.len() }),
        r.healthy_nodes == active_peers(peers.peers.vals@),
        r.warning_nodes == 0,
        r.critical_nodes == (if r.total_nodes >= r.healthy_nodes { r.total_nodes - r.healthy_nodes } else { 0 }),
        r.overall_status == fleet_verdict(
            r.failed_components,
            r.critical_nodes,
            r.total_components,
            r.healthy_components,
            r.warning_nodes,
        ),
{
    let n = running.len();
    let mut healthy: u32 = 0;
    let mut failed: u32 = 0;
    let mut i: usize = 0;
    while i < n
        invariant
            n == running@.len(),
            n == desired@.len(),
            n <= u32::MAX,
            i <= n,
            healthy == count_where(running@.subrange(0, i as int), desired@.subrange(0, i as int), true),
            failed == count_where(running@.subrange(0, i as int), desired@.subrange(0, i as int), false),
            healthy <= i,
            failed <= i,
        decreases n - i,
    {
        proof {
            assert(running@.subrange(0, i + 1).drop_last() =~= running@.subrange(0, i as int));
            assert(desired@.subrange(0, i + 1).drop_last() =~= desired@.subrange(0, i as int));
        }
        if running[i] >= desired[i] {
            healthy = healthy + 1;
        } else if running[i] == 0 {
            failed = failed + 1;
        }
        i = i + 1;
    }
    assert(running@.subrange(0, n as int) =~= running@);
    assert(desired@.subrange(0, n as int) =~= desired@);
    let m = peers.peers.vals.len();
    let mut active: u32 = 0;
    let mut j: usize = 0;
    while j < m
        invariant
            m == peers.peers.vals@.len(),
            m <= u32::MAX,
            j <= m,
            active == active_peers(peers.peers.vals@.subrange(0, j as int)),
            active <= j,
        decreases m - j,
    {
        proof {
            assert(peers.peers.vals@.subrange(0, j + 1).drop_last() =~= peers.peers.vals@.subrange(0, j as int));
        }
        let s = &peers.peers.vals[j];
        if s.components_running > 0 || s.components_desired > 0 {
            active = active + 1;
        }
        j = j + 1;
    }
    assert(peers.peers.vals@.subrange(0, m as int) =~= peers.peers.vals@);
    let total_nodes: u32 = if m == 0 {
        1
    } else {
        m as u32
    };
    let warning_nodes: u32 = 0;
    let critical_nodes: u32 = if total_nodes >= active {
        total_nodes - active
    } else {
        0
    };
    let total_components = n as u32;
    let overall_status = if failed > 0 || critical_nodes > 0 {
        HealthStatus::Critical
    } else if total_components > healthy || warning_nodes > 0 {
        HealthStatus::Warning
    } else {
        HealthStatus::Healthy
    };
    FleetCounts {
        overall_status,
        total_nodes,
        healthy_nodes: active,
        warning_nodes,
        critical_nodes,
        total_components,
        healthy_components: healthy,
        failed_components: failed,
    }
}

/// Stored bytes above which storage is reported high (10 000 MB).
pub open spec fn storage_limit_mb() -> u64 {
    10000
}

/// The storage check over the artifact index (sizes summed, in whole
/// megabytes rounded down), made at `now`.
pub fn storage_check(index: &IndexFile, now: u64) -> (r: HealthCheckResult)
    requires
        total_size(index@) <= u64::MAX,
    ensures
        ({
            let mb = (total_size(index@) / (1024 * 1024)) as nat;
            &&& r.component@ == "storage"@
            &&& r.status == (if mb > 10000 { HealthStatus::Warning } else { HealthStatus::Healthy })
            &&& r.message@ == (if mb > 10000 {
                "Storage usage high: "@ + decimal(mb) + " MB"@
            } else {
                "Storage usage: "@ + decimal(mb) + " MB, "@ + decimal(index@.len()) + " blobs"@
            })
            &&& r.last_check == now
            &&& r.response_time_ms == 0
        }),
{
    let total = index.total_size_bytes();
    let mb: u64 = total / (1024 * 1024);
    let count = index.entries.len();
    let (status, message) = if mb > 10000 {
        (
            HealthStatus::Warning,
            String::from_str("Storage usage high: ").concat(u64_to_decimal(mb).as_str()).concat(" MB"),
        )
    } else {
        (
            HealthStatus::Healthy,
            String::from_str("Storage usage: ").concat(u64_to_decimal(mb).as_str()).concat(" MB, ").concat(
                u64_to_decimal(count as u64).as_str(),
            ).concat(" blobs"),
        )
    };
    HealthCheckResult {
        component: String::from_str("storage"),
        status,
        message,
        last_check: now,
        response_time_ms: 0,
    }
}

/// Does a log line tell of a replica being launched or crashing?
pub open spec fn restart_line(l: Seq<char>) -> bool {
    contains(l, "launching replica"@) || contains(l, "replica crashed"@)
}

/// Does a log line tell of an error?
pub open spec fn error_line(l: Seq<char>) -> bool {
    contains(l, "error"@) || contains(l, "Error"@) || contains(l, "failed"@)
}

/// How many lines satisfy `p`.
pub open spec fn count_lines(lines: Seq<Seq<char>>, p: spec_fn(Seq<char>) -> bool) -> nat
    decreases lines.len(),
{
    if lines.len() == 0 {
        0
    } else {
        count_lines(lines.drop_last(), p) + (if p(lines.last()) { 1nat } else { 0nat })
    }
}

/// Restarts and errors a component's log tells of: the number of restart
/// lines (read as `u32`) and of error lines.
pub fn component_log_counts(lines: &Vec<String>) -> (r: (u32, usize))
    ensures
        r.0 == count_lines(lines.deep_view(), |l: Seq<char>| restart_line(l)) as u32,
        r.1 == count_lines(lines.deep_view(), |l: Seq<char>| error_line(l)),
{
    let ghost ls = lines.deep_view();
    let mut restarts: usize = 0;
    let mut errors: usize = 0;
    let mut i: usize = 0;
    while i < lines.len()
        invariant
            ls == lines.deep_view(),
            i <= lines@.len(),
            restarts == count_lines(ls.subrange(0, i as int), |l: Seq<char>| restart_line(l)),
            errors == count_lines(ls.subrange(0, i as int), |l: Seq<char>| error_line(l)),
            restarts <= i,
            errors <= i,
        decreases lines.len() - i,
    {
        let l = lines[i].as_str();
        proof {
            assert(ls.subrange(0, i + 1).drop_last() =~= ls.subrange(0, i as int));
            assert(ls.subrange(0, i + 1).last() == l@);
        }
        if str_contains(l, "launching replica") || str_contains(l, "replica crashed") {
            restarts = restarts + 1;
        }
        if str_contains(l, "error") || str_contains(l, "Error") || str_contains(l, "failed") {
            errors = errors + 1;
        }
        i = i + 1;
    }
    assert(ls.subrange(0, lines@.len() as int) =~= ls);
    (restarts as u32, errors)
}

} // verus!
