//! Properties that hold across calls of the library: merging gossiped job
//! states, bounded log buffers, node verdicts, reconciliation plans, the
//! order of the merged log view, storing blobs, and what the words of the
//! job status filters, deploy mount entries, package mounts, webhooks and
//! target platforms select.
use vstd::prelude::*;

use crate::health::{node_alert_kinds, node_verdict, AlertSeverity, HealthStatus};
use crate::broadcast::{
    bumped, seen_cap, seen_keys, distinct_keys, due, other_than, find_key, key_pos, live_at, retried, stale, without_peer, BroadcastKey,
    PendingView,
};
use crate::mesh::retry_delay;
use crate::jobs::{eq_ignore_ascii_case, passes_filter, JobStatus, marked_ok, distinct_ids, has_job, job_pos, lemma_self_find, self_find, sync_one, JobView};
use crate::logs::{logs_cap, pushed, sort_by_time, ts_slot, Rec};
use crate::keyed::key_slot;
use crate::storage::{digests_of, entry_of, has_digest, lemma_entry_of, put_recorded, IndexEntry, IndexFile};
use crate::supervisor::{reconcile_spec, replicas_wanted, shortfall, DesiredComponent, Supervisor};
use crate::state::AgentState;
use crate::web::Status;
use crate::endpoint::{apply_pairs, logs_query_of};
use crate::policy::{qemu_for_arch, target_arch};
use crate::package::{mount_host, MountKind, PackageMount};
use crate::ci::{hook_release, opt_view, trim_start_matches, HookPayload};
use crate::text::starts_with;
use crate::text::{
    is_ws, lemma_split_all_none, lemma_split_all_prefix, lemma_split_once_prefix, lemma_trim_plain, lower_char,
    trim,
};
use crate::component::{mount_entry, mount_kv, mount_parts, mount_start, ro_true, MountAcc, MountView};

verus! {

/// Merging a job state keeps job ids distinct.
pub proof fn law_sync_keeps_ids_distinct(s: Seq<JobView>, j: JobView)
    requires
        distinct_ids(s),
    ensures
        distinct_ids(sync_one(s, j)),
{
    match self_find(s, j.id) {
        Some(i) => {
            assert(job_pos(s, j.id, i));
            let t = sync_one(s, j);
            assert forall|a: int, b: int| 0 <= a < b < t.len() implies t[a].id != t[b].id by {
                assert(t[a].id == s[a].id);
                assert(t[b].id == s[b].id);
            }
        },
        None => {
            let t = s.push(j);
            assert forall|a: int, b: int| 0 <= a < b < t.len() implies t[a].id != t[b].id by {
                if b == s.len() {
                    assert(!job_pos(s, j.id, a));
                }
            }
        },
    }
}

/// Merging the same job state twice has the effect of merging it once.
pub proof fn law_sync_idempotent(s: Seq<JobView>, j: JobView)
    requires
        distinct_ids(s),
    ensures
        sync_one(sync_one(s, j), j) == sync_one(s, j),
{
    let t = sync_one(s, j);
    law_sync_keeps_ids_distinct(s, j);
    match self_find(s, j.id) {
        Some(i) => {
            assert(job_pos(s, j.id, i));
            assert(job_pos(t, j.id, i));
            lemma_self_find(t, j.id, i);
        },
        None => {
            assert(job_pos(t, j.id, s.len() as int));
            lemma_self_find(t, j.id, s.len() as int);
        },
    }
}

/// After a merge the job is known, its last update is the later of the
/// two, and no other job changes.
pub proof fn law_sync_newer_wins(s: Seq<JobView>, j: JobView)
    requires
        distinct_ids(s),
    ensures
        has_job(sync_one(s, j), j.id),
        match self_find(s, j.id) {
            Some(i) => sync_one(s, j)[i].updated_at == (if j.updated_at > s[i].updated_at {
                j.updated_at
            } else {
                s[i].updated_at
            }) && forall|k: int| 0 <= k < s.len() && k != i ==> #[trigger] sync_one(s, j)[k] == s[k],
            None => sync_one(s, j) == s.push(j),
        },
{
    let t = sync_one(s, j);
    match self_find(s, j.id) {
        Some(i) => {
            assert(job_pos(s, j.id, i));
            assert(job_pos(t, j.id, i));
        },
        None => {
            assert(job_pos(t, j.id, s.len() as int));
        },
    }
}

/// A log buffer never holds more than its capacity, and the entry just
/// logged is always its newest.
pub proof fn law_log_buffer_bounded(buf: Seq<Seq<char>>, e: Seq<char>)
    requires
        buf.len() <= logs_cap(),
    ensures
        pushed(buf, e).len() <= logs_cap(),
        pushed(buf, e).last() == e,
        buf.len() < logs_cap() ==> pushed(buf, e) == buf.push(e),
        buf.len() == logs_cap() ==> pushed(buf, e) == buf.subrange(1, buf.len() as int).push(e),
{
    if buf.len() == logs_cap() {
        assert(buf.drop_first() =~= buf.subrange(1, buf.len() as int));
    }
}

/// A node is critical exactly when its CPU load is above 90%, and healthy
/// exactly when neither load nor memory is high and no component is
/// missing.
pub proof fn law_node_verdict(s: Status)
    ensures
        (node_verdict(node_alert_kinds(s)) == HealthStatus::Critical) <==> s.cpu_percent > 90,
        (node_verdict(node_alert_kinds(s)) == HealthStatus::Healthy) <==> (s.cpu_percent <= 90
            && s.mem_percent <= 85 && s.components_running >= s.components_desired),
{
    let k = node_alert_kinds(s);
    let c: Seq<AlertSeverity> = if s.cpu_percent > 90 { seq![AlertSeverity::Critical] } else { Seq::empty() };
    let m: Seq<AlertSeverity> = if s.mem_percent > 85 { seq![AlertSeverity::Warning] } else { Seq::empty() };
    let d: Seq<AlertSeverity> = if s.components_running < s.components_desired {
        seq![AlertSeverity::Warning]
    } else {
        Seq::empty()
    };
    assert(k == c + m + d);
    if s.cpu_percent > 90 {
        assert(k[0] == AlertSeverity::Critical);
    } else {
        assert forall|i: int| 0 <= i < k.len() implies k[i] == AlertSeverity::Warning by {
            if i < m.len() {
                assert(k[i] == m[i]);
            } else {
                assert(k[i] == d[i - m.len()]);
            }
        }
    }
}

/// Every step of a reconciliation plan names a desired component running
/// fewer replicas than it wants, with exactly the number missing.
pub proof fn law_reconcile_tops_up(ds: Seq<DesiredComponent>, s: Supervisor)
    ensures
        forall|i: int|
            0 <= i < reconcile_spec(ds, s).len() ==> exists|j: int|
                0 <= j < ds.len() && #[trigger] reconcile_spec(ds, s)[i] == (
                    ds[j].name@,
                    shortfall(replicas_wanted(ds[j].spec), s.running(ds[j].name@)),
                ) && (s.running(ds[j].name@) as int) + (reconcile_spec(ds, s)[i].1 as int) == replicas_wanted(
                    ds[j].spec,
                ) as int,
    decreases ds.len(),
{
    if ds.len() > 0 {
        law_reconcile_tops_up(ds.drop_last(), s);
        let rest = reconcile_spec(ds.drop_last(), s);
        let p = reconcile_spec(ds, s);
        assert forall|i: int| 0 <= i < p.len() implies exists|j: int|
            0 <= j < ds.len() && #[trigger] p[i] == (
                ds[j].name@,
                shortfall(replicas_wanted(ds[j].spec), s.running(ds[j].name@)),
            ) && (s.running(ds[j].name@) as int) + (p[i].1 as int) == replicas_wanted(ds[j].spec) as int by {
            if i < rest.len() {
                assert(p[i] == rest[i]);
                let j = choose|j: int|
                    0 <= j < ds.drop_last().len() && #[trigger] rest[i] == (
                        ds.drop_last()[j].name@,
                        shortfall(replicas_wanted(ds.drop_last()[j].spec), s.running(ds.drop_last()[j].name@)),
                    ) && (s.running(ds.drop_last()[j].name@) as int) + (rest[i].1 as int) == replicas_wanted(
                        ds.drop_last()[j].spec,
                    ) as int;
                assert(ds.drop_last()[j] == ds[j]);
            } else {
                assert(ds[ds.len() - 1] == ds.last());
            }
        }
    }
}

/// The merged log view is in time order.
pub proof fn law_sorted_by_time(s: Seq<Rec>)
    ensures
        sort_by_time(s).len() == s.len(),
        forall|i: int, j: int|
            0 <= i < j < sort_by_time(s).len() ==> (#[trigger] sort_by_time(s)[i]).0 <= (
            #[trigger] sort_by_time(s)[j]).0,
    decreases s.len(),
{
    if s.len() > 0 {
        law_sorted_by_time(s.drop_last());
        let t = sort_by_time(s.drop_last());
        let x = s.last();
        lemma_ts_slot(t, x.0);
        let p = ts_slot(t, x.0);
        let u = t.insert(p, x);
        assert forall|i: int, j: int| 0 <= i < j < u.len() implies (#[trigger] u[i]).0 <= (
        #[trigger] u[j]).0 by {
            if j < p {
            } else if j == p {
                assert(u[i] == t[i]);
            } else if i < p {
                assert(u[i] == t[i]);
                assert(u[j] == t[j - 1]);
            } else if i == p {
                assert(u[j] == t[j - 1]);
            } else {
                assert(u[i] == t[i - 1]);
                assert(u[j] == t[j - 1]);
            }
        }
    }
}

/// In time-sorted entries, the slot of time `t` has no later entry before
/// it and no earlier-or-equal entry after it.
proof fn lemma_ts_slot(s: Seq<Rec>, t: u64)
    requires
        forall|i: int, j: int| 0 <= i < j < s.len() ==> (#[trigger] s[i]).0 <= (#[trigger] s[j]).0,
    ensures
        0 <= ts_slot(s, t) <= s.len(),
        forall|i: int| 0 <= i < ts_slot(s, t) ==> (#[trigger] s[i]).0 <= t,
        forall|i: int| ts_slot(s, t) <= i < s.len() ==> (#[trigger] s[i]).0 > t,
    decreases s.len(),
{
    if s.len() > 0 && s.last().0 > t {
        let d = s.drop_last();
        lemma_ts_slot(d, t);
        assert forall|i: int| ts_slot(s, t) <= i < s.len() implies (#[trigger] s[i]).0 > t by {
            if i < d.len() {
                assert(s[i] == d[i]);
            }
        }
        assert forall|i: int| 0 <= i < ts_slot(s, t) implies (#[trigger] s[i]).0 <= t by {
            assert(s[i] == d[i]);
        }
    } else if s.len() > 0 {
        assert forall|i: int| 0 <= i < s.len() implies (#[trigger] s[i]).0 <= t by {
            if i < s.len() - 1 {
                assert(s[i].0 <= s[s.len() - 1].0);
            }
        }
    }
}

/// A blob just stored is in the index with its size and access time,
/// whatever the index held before, and every other blob keeps what the index
/// recorded for it.
pub proof fn law_put_then_indexed(before: IndexFile, after: IndexFile, digest: Seq<char>, size: u64, now: u64)
    requires
        before.wf(),
        after.wf(),
        put_recorded(before@, after@, digest, size, now),
    ensures
        has_digest(after@, digest),
        entry_of(after@, digest).size_bytes == size,
        entry_of(after@, digest).last_accessed_unix == now,
        forall|d: Seq<char>| d != digest ==> #[trigger] has_digest(after@, d) == has_digest(before@, d),
        forall|d: Seq<char>|
            d != digest && has_digest(before@, d) ==> #[trigger] entry_of(after@, d) == entry_of(before@, d),
{
    let b = before@;
    let a = after@;
    if has_digest(b, digest) {
        let i = choose|i: int|
            0 <= i < b.len() && (#[trigger] b[i]).0 == digest && a == b.update(
                i,
                (digest, IndexEntry { size_bytes: size, last_accessed_unix: now, pinned: b[i].1.pinned }),
            );
        assert(a[i].0 == digest);
        lemma_entry_of(a, i);
        assert forall|d: Seq<char>|
            #![trigger has_digest(a, d)]
            #![trigger entry_of(a, d)]
            d != digest implies has_digest(a, d) == has_digest(b, d)
            && (has_digest(b, d) ==> entry_of(a, d) == entry_of(b, d)) by {
            if has_digest(b, d) {
                let j = choose|j: int| 0 <= j < b.len() && b[j].0 == d;
                assert(j != i);
                assert(a[j] == b[j]);
                lemma_entry_of(a, j);
                lemma_entry_of(b, j);
            }
            if has_digest(a, d) {
                let j = choose|j: int| 0 <= j < a.len() && a[j].0 == d;
                assert(j != i);
                assert(a[j] == b[j]);
            }
        }
    } else {
        let p = choose|p: int|
            #[trigger] key_slot(digests_of(b), digest, p) && a == b.insert(
                p,
                (digest, IndexEntry { size_bytes: size, last_accessed_unix: now, pinned: false }),
            );
        assert(a[p].0 == digest);
        lemma_entry_of(a, p);
        assert forall|d: Seq<char>|
            #![trigger has_digest(a, d)]
            #![trigger entry_of(a, d)]
            d != digest implies has_digest(a, d) == has_digest(b, d)
            && (has_digest(b, d) ==> entry_of(a, d) == entry_of(b, d)) by {
            if has_digest(b, d) {
                let j = choose|j: int| 0 <= j < b.len() && b[j].0 == d;
                let j2 = if j < p { j } else { j + 1 };
                assert(a[j2] == b[j]);
                lemma_entry_of(a, j2);
                lemma_entry_of(b, j);
            }
            if has_digest(a, d) {
                let j = choose|j: int| 0 <= j < a.len() && a[j].0 == d;
                assert(j != p);
                let j2 = if j < p { j } else { j - 1 };
                assert(a[j] == b[j2]);
            }
        }
    }
}

/// After a housekeeping tick (stale broadcasts pruned, then the oldest
/// evicted down to `max`), the book holds at most `max` broadcasts and none
/// that has outlived its time to live.
pub proof fn law_housekeeping_bounds(
    before: Seq<PendingView>,
    pruned: Seq<PendingView>,
    after: Seq<PendingView>,
    now_ms: u64,
    max: usize,
)
    requires
        pruned == before.filter(live_at(now_ms)),
        after.len() == (if pruned.len() > max { max as int } else { pruned.len() as int }),
        forall|j: int| 0 <= j < after.len() ==> pruned.contains(#[trigger] after[j]),
    ensures
        after.len() <= max,
        forall|j: int| 0 <= j < after.len() ==> !stale(#[trigger] after[j], now_ms),
{
    assert forall|j: int| 0 <= j < after.len() implies !stale(#[trigger] after[j], now_ms) by {
        assert(pruned.contains(after[j]));
        let k = choose|k: int| 0 <= k < pruned.len() && pruned[k] == after[j];
        before.lemma_filter_pred(live_at(now_ms), k);
    }
}

/// Once peer `from` has acknowledged a broadcast, the book no longer waits
/// for it on that broadcast, and every other broadcast is as it was.
pub proof fn law_ack_forgets_peer(before: Seq<PendingView>, after: Seq<PendingView>, key: BroadcastKey, from: Seq<char>)
    requires
        distinct_keys(before),
        match find_key(before, key) {
            Some(i) => {
                let np = without_peer(before[i].peers, from);
                if np.len() == 0 {
                    after == before.remove(i)
                } else {
                    after == before.update(i, PendingView { peers: np, ..before[i] })
                }
            },
            None => after == before,
        },
    ensures
        forall|i: int| 0 <= i < after.len() && (#[trigger] after[i]).key == key ==> !after[i].peers.contains(from),
        forall|i: int| 0 <= i < before.len() && (#[trigger] before[i]).key != key ==> after.contains(before[i]),
{
    match find_key(before, key) {
        Some(i) => {
            assert(key_pos(before, key, i));
            let np = without_peer(before[i].peers, from);
            assert forall|a: int| 0 <= a < np.len() implies np[a] != from by {
                before[i].peers.lemma_filter_pred(other_than(from), a);
            }
            if np.len() == 0 {
                assert forall|a: int| 0 <= a < after.len() && (#[trigger] after[a]).key == key implies !after[a].peers.contains(from) by {
                    let a2 = if a < i { a } else { a + 1 };
                    assert(after[a] == before[a2]);
                    assert(before[a2].key != before[i].key);
                }
                assert forall|b: int| 0 <= b < before.len() && (#[trigger] before[b]).key != key implies after.contains(before[b]) by {
                    let b2 = if b < i { b } else { b - 1 };
                    assert(after[b2] == before[b]);
                }
            } else {
                assert forall|a: int| 0 <= a < after.len() && (#[trigger] after[a]).key == key implies !after[a].peers.contains(from) by {
                    if a != i {
                        assert(after[a] == before[a]);
                        if a < i {
                            assert(before[a].key != before[i].key);
                        } else {
                            assert(before[i].key != before[a].key);
                        }
                    }
                }
                assert forall|b: int| 0 <= b < before.len() && (#[trigger] before[b]).key != key implies after.contains(before[b]) by {
                    assert(after[b] == before[b]);
                }
            }
        },
        None => {
            assert forall|a: int| 0 <= a < after.len() && (#[trigger] after[a]).key == key implies !after[a].peers.contains(from) by {
                assert(key_pos(before, key, a));
            }
            assert forall|b: int| 0 <= b < before.len() && (#[trigger] before[b]).key != key implies after.contains(before[b]) by {
                assert(after[b] == before[b]);
            }
        },
    }
}

/// A retry round changes no broadcast's key, message or first send, moves
/// its retry count up by at most one, and resends it only with a peer to
/// send to, never earlier than a second after its last send.
pub proof fn law_retry_keeps_identity(
    before: Seq<PendingView>,
    after: Seq<PendingView>,
    now_ms: u64,
    connected: Seq<Seq<char>>,
    jitters: Seq<u64>,
)
    requires
        after.len() == before.len(),
        forall|i: int| 0 <= i < before.len() ==> #[trigger] after[i] == retried(before[i], now_ms, connected, jitters[i]),
    ensures
        forall|i: int|
            0 <= i < before.len() ==> {
                &&& (#[trigger] after[i]).key == before[i].key
                &&& after[i].payload == before[i].payload
                &&& after[i].created_ms == before[i].created_ms
                &&& (after[i].retry_count == before[i].retry_count || after[i].retry_count == bumped(
                    before[i].retry_count,
                ))
                &&& after[i].last_sent_ms != before[i].last_sent_ms ==> (after[i].last_sent_ms == now_ms
                    && after[i].peers.len() > 0 && now_ms - before[i].last_sent_ms >= 1000)
            },
{
    assert forall|i: int| 0 <= i < before.len() implies {
        &&& (#[trigger] after[i]).key == before[i].key
        &&& after[i].payload == before[i].payload
        &&& after[i].created_ms == before[i].created_ms
        &&& (after[i].retry_count == before[i].retry_count || after[i].retry_count == bumped(
            before[i].retry_count,
        ))
        &&& after[i].last_sent_ms != before[i].last_sent_ms ==> (after[i].last_sent_ms == now_ms
            && after[i].peers.len() > 0 && now_ms - before[i].last_sent_ms >= 1000)
    } by {
        let e = before[i];
        if due(e, now_ms, connected, jitters[i]) {
            assert(retry_delay(e.retry_count, jitters[i]) >= 1);
            assert((now_ms - e.last_sent_ms) / 1000 >= 1);
        }
    }
}

/// A job status remembered as seen is answered as a duplicate when it
/// arrives again, as long as the cache has room for any entry.
pub proof fn law_seen_then_duplicate(
    before: crate::broadcast::SeenCache,
    after: crate::broadcast::SeenCache,
    key: (Seq<char>, Seq<char>, Seq<char>),
)
    requires
        seen_cap(before) > 0,
        seen_keys(before).contains(key) ==> after == before,
        !seen_keys(before).contains(key) ==> seen_cap(after) == seen_cap(before) && (seen_cap(before) > 0
            ==> seen_keys(after).contains(key)),
    ensures
        seen_keys(after).contains(key),
{
}

/// An upgrade whose new binary cannot be started leaves the agent on the
/// version it ran before, remembered as the previous one.
pub proof fn law_upgrade_rollback(before: AgentState, upgraded: AgentState, after: AgentState, version: u64, previous: u64)
    requires
        previous == before.agent_version,
        upgraded.agent_version == version,
        upgraded.previous_agent_version == before.agent_version,
        after.agent_version == previous,
        after.previous_agent_version == upgraded.previous_agent_version,
    ensures
        after.agent_version == before.agent_version,
        after.previous_agent_version == before.agent_version,
{
}

proof fn lemma_pairs_keep_cap(ps: Seq<Seq<char>>, acc: (Option<Seq<char>>, nat))
    requires
        acc.1 <= 1000,
    ensures
        apply_pairs(ps, acc).1 <= 1000,
    decreases ps.len(),
{
    if ps.len() > 0 {
        lemma_pairs_keep_cap(ps.drop_last(), acc);
    }
}

/// However its query is written, a `/logs` request of the metrics port
/// never asks for more than the last 1000 lines.
pub proof fn law_port_tail_capped(path: Seq<char>)
    ensures
        logs_query_of(path).1 <= 1000,
{
    let parts = crate::text::split_all(path, '?');
    if parts.len() > 1 {
        lemma_pairs_keep_cap(crate::text::split_all(parts[1], '&'), (None, 100));
    }
}

/// A recurring job the scheduler fired at `now` is not fired again by a
/// scheduler pass at the same time or earlier.
pub proof fn law_schedule_fires_once(o: JobView, n: JobView, m: JobView, now: i64, later: i64)
    requires
        0 <= now,
        marked_ok(o, n, true, now),
        later <= now,
    ensures
        !marked_ok(n, m, true, later),
{
    assert(n.last_scheduled_at == Some(now as u64));
    assert((now as u64) as i64 == now);
}

/// The architecture part of a platform `os/arch` with no further `/`.
proof fn lemma_platform_arch(os: Seq<char>, arch: Seq<char>, slash_arch: Seq<char>)
    requires
        forall|j: int| 0 <= j < os.len() ==> os[j] != '/',
        forall|j: int| 0 <= j < arch.len() ==> arch[j] != '/',
        slash_arch =~= seq!['/'] + arch,
    ensures
        target_arch(Some(os + slash_arch)) == arch,
{
    assert(os + slash_arch =~= os + seq!['/'] + arch);
    lemma_split_all_prefix(os, arch, '/');
    lemma_split_all_none(arch, '/');
    assert(seq![os] + seq![arch] =~= seq![os, arch]);
}

/// A job's emulator is named by the architecture part of its target
/// platform `os/arch`: `x86_64` and `amd64` run under `qemu-x86_64`,
/// `aarch64` and `arm64` under `qemu-aarch64`, `arm` and `armv7` under
/// `qemu-arm`, `riscv64` under `qemu-riscv64`; a job that names no target
/// platform runs under `qemu-x86_64`.
pub proof fn law_qemu_by_arch(os: Seq<char>)
    requires
        forall|j: int| 0 <= j < os.len() ==> os[j] != '/',
    ensures
        qemu_for_arch(target_arch(Some(os + "/x86_64"@))) == Some("qemu-x86_64"@),
        qemu_for_arch(target_arch(Some(os + "/amd64"@))) == Some("qemu-x86_64"@),
        qemu_for_arch(target_arch(Some(os + "/aarch64"@))) == Some("qemu-aarch64"@),
        qemu_for_arch(target_arch(Some(os + "/arm64"@))) == Some("qemu-aarch64"@),
        qemu_for_arch(target_arch(Some(os + "/arm"@))) == Some("qemu-arm"@),
        qemu_for_arch(target_arch(Some(os + "/armv7"@))) == Some("qemu-arm"@),
        qemu_for_arch(target_arch(Some(os + "/riscv64"@))) == Some("qemu-riscv64"@),
        qemu_for_arch(target_arch(None)) == Some("qemu-x86_64"@),
        qemu_for_arch(target_arch(Some(os))) == Some("qemu-x86_64"@),
{
    lemma_split_all_none(os, '/');
    reveal_strlit("x86_64");
    reveal_strlit("/x86_64");
    reveal_strlit("amd64");
    reveal_strlit("/amd64");
    reveal_strlit("aarch64");
    reveal_strlit("/aarch64");
    reveal_strlit("arm64");
    reveal_strlit("/arm64");
    reveal_strlit("arm");
    reveal_strlit("/arm");
    reveal_strlit("armv7");
    reveal_strlit("/armv7");
    reveal_strlit("riscv64");
    reveal_strlit("/riscv64");
    lemma_platform_arch(os, "x86_64"@, "/x86_64"@);
    lemma_platform_arch(os, "amd64"@, "/amd64"@);
    lemma_platform_arch(os, "aarch64"@, "/aarch64"@);
    lemma_platform_arch(os, "arm64"@, "/arm64"@);
    lemma_platform_arch(os, "arm"@, "/arm"@);
    lemma_platform_arch(os, "armv7"@, "/armv7"@);
    lemma_platform_arch(os, "riscv64"@, "/riscv64"@);
    assert("arm64"@[1] != "amd64"@[1]);
    assert("armv7"@[1] != "amd64"@[1]);
    assert("armv7"@[3] != "arm64"@[3]);
    assert("riscv64"@[0] != "aarch64"@[0]);
}

/// A text whose ASCII lower case is the lower-case word `w` matches `w`
/// ignoring ASCII case.
proof fn lemma_lower_word_matches(f: Seq<char>, w: Seq<char>)
    requires
        crate::text::ascii_lower(f) == w,
        forall|j: int| 0 <= j < w.len() ==> 'a' <= #[trigger] w[j] <= 'z',
    ensures
        eq_ignore_ascii_case(f, w),
{
    assert forall|i: int| 0 <= i < f.len() implies crate::jobs::ascii_lower(f[i])
        == crate::jobs::ascii_lower(w[i]) by {
        assert(crate::text::ascii_lower(f)[i] == lower_char(f[i]));
        assert('a' <= w[i] <= 'z');
    }
}

/// A status filter word selects exactly the jobs in the status it names,
/// whatever the ASCII case it is written in: `completed` keeps only
/// completed jobs, `failed` only failed ones, and `pending`, `running` and
/// `cancelled` likewise.
pub proof fn law_status_filter_words(f: Seq<char>, j: JobView)
    ensures
        crate::text::ascii_lower(f) == "completed"@ ==> (passes_filter(j, Some(f)) <==> j.status
            == JobStatus::Completed),
        crate::text::ascii_lower(f) == "failed"@ ==> (passes_filter(j, Some(f)) <==> j.status
            == JobStatus::Failed),
        crate::text::ascii_lower(f) == "pending"@ ==> (passes_filter(j, Some(f)) <==> j.status
            == JobStatus::Pending),
        crate::text::ascii_lower(f) == "running"@ ==> (passes_filter(j, Some(f)) <==> j.status
            == JobStatus::Running),
        crate::text::ascii_lower(f) == "cancelled"@ ==> (passes_filter(j, Some(f)) <==> j.status
            == JobStatus::Cancelled),
{
    reveal_strlit("completed");
    reveal_strlit("failed");
    reveal_strlit("pending");
    reveal_strlit("running");
    reveal_strlit("cancelled");
    let lower = crate::text::ascii_lower(f);
    if lower == "completed"@ {
        lemma_lower_word_matches(f, "completed"@);
    }
    if lower == "failed"@ {
        lemma_lower_word_matches(f, "failed"@);
    }
    if lower == "pending"@ {
        lemma_lower_word_matches(f, "pending"@);
    }
    if lower == "running"@ {
        lemma_lower_word_matches(f, "running"@);
        assert(crate::jobs::ascii_lower(f[0]) == crate::jobs::ascii_lower("running"@[0]));
        assert(!eq_ignore_ascii_case(f, "pending"@));
    }
    if lower == "cancelled"@ {
        lemma_lower_word_matches(f, "cancelled"@);
        assert(crate::jobs::ascii_lower(f[1]) == crate::jobs::ascii_lower("cancelled"@[1]));
        assert(!eq_ignore_ascii_case(f, "completed"@));
    }
}

/// A target platform `os/arch` whose architecture part is none of
/// `x86_64`, `amd64`, `aarch64`, `arm64`, `arm`, `armv7` and `riscv64` has
/// no emulator.
pub proof fn law_qemu_unknown_arch(os: Seq<char>, arch: Seq<char>)
    requires
        forall|j: int| 0 <= j < os.len() ==> os[j] != '/',
        forall|j: int| 0 <= j < arch.len() ==> arch[j] != '/',
        arch != "x86_64"@ && arch != "amd64"@ && arch != "aarch64"@ && arch != "arm64"@,
        arch != "arm"@ && arch != "armv7"@ && arch != "riscv64"@,
    ensures
        qemu_for_arch(target_arch(Some(os + "/"@ + arch))) is None,
{
    reveal_strlit("/");
    lemma_platform_arch(os, arch, "/"@ + arch);
    assert(os + "/"@ + arch =~= os + ("/"@ + arch));
}

/// The files a package ships, a `static` or a `config` mount with a source,
/// are mounted read-only from that source under the package's directory, and
/// the two kinds resolve alike.
pub proof fn law_package_files_mount(
    m: PackageMount,
    comp: Seq<char>,
    package_dir: Seq<char>,
    data_dir: Seq<char>,
)
    requires
        m.kind is Static || m.kind is Config,
        m.source is Some,
    ensures
        mount_host(m, comp, package_dir, data_dir) == Some((package_dir + "/"@ + m.source->0@, true)),
        mount_host((PackageMount { kind: MountKind::Static, ..m }), comp, package_dir, data_dir)
            == mount_host((PackageMount { kind: MountKind::Config, ..m }), comp, package_dir, data_dir),
{
}

/// A `release` or a `push` webhook names the repository of its payload, and
/// any other event names no repository and no tag.
pub proof fn law_hook_repository(event: Seq<char>, p: HookPayload)
    ensures
        event == "release"@ || event == "push"@ ==> hook_release(event, p).1 == opt_view(
            p.repository_full_name,
        ),
        event != "release"@ && event != "push"@ ==> hook_release(event, p) == (
            None::<Seq<char>>,
            None::<Seq<char>>,
        ),
{
}

/// A push of the tag ref `refs/tags/T` names the tag `T`, and a push of any
/// other ref, or of none, names no tag; a release names its release's tag,
/// else the payload's top-level tag.
pub proof fn law_hook_tag(p: HookPayload, t: Seq<char>)
    ensures
        p.git_ref is Some && p.git_ref->0@ == "refs/tags/"@ + t && !starts_with(t, "refs/tags/"@)
            ==> hook_release("push"@, p).0 == Some(t),
        p.git_ref is None || !starts_with(p.git_ref->0@, "refs/tags/"@) ==> hook_release(
            "push"@,
            p,
        ).0 is None,
        hook_release("release"@, p).0 == match p.release_tag_name {
            Some(n) => Some(n@),
            None => opt_view(p.tag_name),
        },
{
    reveal_strlit("refs/tags/");
    reveal_strlit("push");
    reveal_strlit("release");
    let r = "refs/tags/"@ + t;
    assert(r.subrange(0, 10) =~= "refs/tags/"@);
    assert(r.subrange(10, r.len() as int) =~= t);
    assert(starts_with(r, "refs/tags/"@));
    if !starts_with(t, "refs/tags/"@) {
        assert(trim_start_matches(t, "refs/tags/"@) == t);
        assert(trim_start_matches(r, "refs/tags/"@) == t);
    }
    assert("push"@ != "release"@) by {
        assert("push"@.len() != "release"@.len());
    }
}

/// Neither of two texts without `c` gives `c` when joined.
proof fn lemma_join_lacks(a: Seq<char>, b: Seq<char>, c: char)
    requires
        forall|j: int| 0 <= j < a.len() ==> a[j] != c,
        forall|j: int| 0 <= j < b.len() ==> b[j] != c,
    ensures
        forall|j: int| 0 <= j < (a + b).len() ==> (a + b)[j] != c,
{
    assert forall|j: int| 0 <= j < (a + b).len() implies (a + b)[j] != c by {
        if j >= a.len() {
            assert((a + b)[j] == b[j - a.len()]);
        }
    }
}

/// A value that reads, in ASCII lower case, as a word of lower-case letters
/// and digits holds no `,`, `=` or whitespace.
proof fn lemma_word_plain(v: Seq<char>, w: Seq<char>)
    requires
        crate::text::ascii_lower(v) == w,
        forall|j: int| 0 <= j < w.len() ==> ('a' <= #[trigger] w[j] <= 'z' || '0' <= w[j] <= '9'),
    ensures
        v.len() == w.len(),
        forall|j: int| 0 <= j < v.len() ==> v[j] != ',' && v[j] != '=' && !is_ws(#[trigger] v[j]),
{
    assert forall|j: int| 0 <= j < v.len() implies v[j] != ',' && v[j] != '=' && !is_ws(#[trigger] v[j]) by {
        assert(crate::text::ascii_lower(v)[j] == lower_char(v[j]));
        assert('a' <= w[j] <= 'z' || '0' <= w[j] <= '9');
    }
}

/// The value `V` of a part `K=V` whose key `K` is a plain word.
proof fn lemma_kv_word(key: Seq<char>, value: Seq<char>)
    requires
        key.len() > 0,
        forall|j: int| 0 <= j < key.len() ==> 'a' <= #[trigger] key[j] <= 'z',
    ensures
        mount_kv(key + seq!['='] + value) == (key, trim(value)),
{
    lemma_split_once_prefix(key, value, '=');
    assert('a' <= key[0] <= 'z');
    assert('a' <= key.last() <= 'z');
    lemma_trim_plain(key);
}

/// The three parts of `host=H,guest=G,ro=V`.
proof fn lemma_mount_entry_parts(h: Seq<char>, g: Seq<char>, v: Seq<char>)
    requires
        forall|j: int| 0 <= j < h.len() ==> h[j] != ',',
        forall|j: int| 0 <= j < g.len() ==> g[j] != ',',
        forall|j: int| 0 <= j < v.len() ==> v[j] != ',',
    ensures
        crate::text::split_all("host="@ + h + ",guest="@ + g + ",ro="@ + v, ',') == seq![
            "host"@ + seq!['='] + h,
            "guest"@ + seq!['='] + g,
            "ro"@ + seq!['='] + v,
        ],
{
    reveal_strlit("host=");
    reveal_strlit(",guest=");
    reveal_strlit(",ro=");
    reveal_strlit("host");
    reveal_strlit("guest");
    reveal_strlit("ro");
    let entry = "host="@ + h + ",guest="@ + g + ",ro="@ + v;
    let p1 = "host"@ + seq!['='] + h;
    let p2 = "guest"@ + seq!['='] + g;
    let p3 = "ro"@ + seq!['='] + v;
    assert(entry =~= p1 + seq![','] + (p2 + seq![','] + p3));
    lemma_join_lacks("host"@ + seq!['='], h, ',');
    lemma_join_lacks("guest"@ + seq!['='], g, ',');
    lemma_join_lacks("ro"@ + seq!['='], v, ',');
    lemma_split_all_prefix(p1, p2 + seq![','] + p3, ',');
    lemma_split_all_prefix(p2, p3, ',');
    lemma_split_all_none(p3, ',');
    assert(seq![p1] + (seq![p2] + seq![p3]) =~= seq![p1, p2, p3]);
}

/// Reading the parts `host=H`, `guest=G`, `ro=V` in turn.
proof fn lemma_mount_parts_three(h: Seq<char>, g: Seq<char>, v: Seq<char>, entry: Seq<char>)
    ensures
        mount_parts(
            seq!["host"@ + seq!['='] + h, "guest"@ + seq!['='] + g, "ro"@ + seq!['='] + v],
            entry,
            mount_start(),
        ) == Ok::<MountAcc, Seq<char>>(
            (MountAcc { host: Some(trim(h)), guest: Some(trim(g)), ro: ro_true(trim(v)) }),
        ),
{
    reveal_strlit("host");
    reveal_strlit("guest");
    reveal_strlit("ro");
    let p1 = "host"@ + seq!['='] + h;
    let p2 = "guest"@ + seq!['='] + g;
    let p3 = "ro"@ + seq!['='] + v;
    lemma_kv_word("host"@, h);
    lemma_kv_word("guest"@, g);
    lemma_kv_word("ro"@, v);
    let a0 = mount_start();
    let a1 = MountAcc { host: Some(trim(h)), ..a0 };
    let a2 = MountAcc { guest: Some(trim(g)), ..a1 };
    let a3 = MountAcc { ro: ro_true(trim(v)), ..a2 };
    assert(seq![p1, p2, p3].drop_first() =~= seq![p2, p3]);
    assert(seq![p2, p3].drop_first() =~= seq![p3]);
    assert(seq![p3].drop_first() =~= Seq::<Seq<char>>::empty());
    assert(mount_parts(Seq::<Seq<char>>::empty(), entry, a3) == Ok::<MountAcc, Seq<char>>(a3));
    assert(mount_parts(seq![p3], entry, a2) == Ok::<MountAcc, Seq<char>>(a3));
    assert(mount_parts(seq![p2, p3], entry, a1) == Ok::<MountAcc, Seq<char>>(a3));
}

/// A mount entry `host=H,guest=G,ro=V` (none of H, G and V holding a `,`)
/// reads as a mount of H at G, both trimmed, that is read-only exactly when
/// V, trimmed and in ASCII lower case, is `1`, `true`, `yes` or `on`.
pub proof fn law_mount_entry_ro(h: Seq<char>, g: Seq<char>, v: Seq<char>)
    requires
        forall|j: int| 0 <= j < h.len() ==> h[j] != ',',
        forall|j: int| 0 <= j < g.len() ==> g[j] != ',',
        forall|j: int| 0 <= j < v.len() ==> v[j] != ',',
    ensures
        mount_entry("host="@ + h + ",guest="@ + g + ",ro="@ + v) == Ok::<MountView, Seq<char>>(
            (MountView {
                host: trim(h),
                guest: trim(g),
                ro: crate::text::ascii_lower(trim(v)) == "1"@ || crate::text::ascii_lower(trim(v))
                    == "true"@ || crate::text::ascii_lower(trim(v)) == "yes"@
                    || crate::text::ascii_lower(trim(v)) == "on"@,
            }),
        ),
{
    let entry = "host="@ + h + ",guest="@ + g + ",ro="@ + v;
    lemma_mount_entry_parts(h, g, v);
    lemma_mount_parts_three(h, g, v, entry);
}

/// A mount entry `host=H,guest=G,ro=V`, with H and G free of `,` and V one
/// of `true`, `1`, `yes` and `on` in any ASCII case, reads as a read-only
/// mount of H at G (both trimmed).
pub proof fn law_mount_entry_read_only(h: Seq<char>, g: Seq<char>, v: Seq<char>)
    requires
        forall|j: int| 0 <= j < h.len() ==> h[j] != ',',
        forall|j: int| 0 <= j < g.len() ==> g[j] != ',',
        crate::text::ascii_lower(v) == "true"@ || crate::text::ascii_lower(v) == "1"@
            || crate::text::ascii_lower(v) == "yes"@ || crate::text::ascii_lower(v) == "on"@,
    ensures
        mount_entry("host="@ + h + ",guest="@ + g + ",ro="@ + v) == Ok::<MountView, Seq<char>>(
            (MountView { host: trim(h), guest: trim(g), ro: true }),
        ),
{
    reveal_strlit("true");
    reveal_strlit("1");
    reveal_strlit("yes");
    reveal_strlit("on");
    let w = crate::text::ascii_lower(v);
    lemma_word_plain(v, w);
    assert(!is_ws(v[0]));
    assert(!is_ws(v[v.len() - 1]));
    lemma_trim_plain(v);
    law_mount_entry_ro(h, g, v);
}

/// A mount entry `host=H,guest=G` without an `ro` part (H and G free of
/// `,`) reads as a writable mount of H at G, both trimmed.
pub proof fn law_mount_entry_writable_by_default(h: Seq<char>, g: Seq<char>)
    requires
        forall|j: int| 0 <= j < h.len() ==> h[j] != ',',
        forall|j: int| 0 <= j < g.len() ==> g[j] != ',',
    ensures
        mount_entry("host="@ + h + ",guest="@ + g) == Ok::<MountView, Seq<char>>(
            (MountView { host: trim(h), guest: trim(g), ro: false }),
        ),
{
    reveal_strlit("host=");
    reveal_strlit(",guest=");
    reveal_strlit("host");
    reveal_strlit("guest");
    let entry = "host="@ + h + ",guest="@ + g;
    let p1 = "host"@ + seq!['='] + h;
    let p2 = "guest"@ + seq!['='] + g;
    assert(entry =~= p1 + seq![','] + p2);
    lemma_join_lacks("host"@ + seq!['='], h, ',');
    lemma_join_lacks("guest"@ + seq!['='], g, ',');
    lemma_split_all_prefix(p1, p2, ',');
    lemma_split_all_none(p2, ',');
    assert(seq![p1] + seq![p2] =~= seq![p1, p2]);
    lemma_kv_word("host"@, h);
    lemma_kv_word("guest"@, g);
    let a0 = mount_start();
    let a1 = MountAcc { host: Some(trim(h)), ..a0 };
    let a2 = MountAcc { guest: Some(trim(g)), ..a1 };
    assert(seq![p1, p2].drop_first() =~= seq![p2]);
    assert(seq![p2].drop_first() =~= Seq::<Seq<char>>::empty());
    assert(mount_parts(Seq::<Seq<char>>::empty(), entry, a2) == Ok::<MountAcc, Seq<char>>(a2));
    assert(mount_parts(seq![p2], entry, a1) == Ok::<MountAcc, Seq<char>>(a2));
    assert(mount_parts(seq![p1, p2], entry, a0) == Ok::<MountAcc, Seq<char>>(a2));
}

/// A mount entry `K=V` whose key K is none of `host`, `guest` and `ro` (and
/// not empty) is refused with a message naming the key and the entry.
pub proof fn law_mount_entry_unknown_key(k: Seq<char>, v: Seq<char>)
    requires
        k.len() > 0,
        forall|j: int| 0 <= j < k.len() ==> k[j] != ',' && k[j] != '=' && !is_ws(#[trigger] k[j]),
        forall|j: int| 0 <= j < v.len() ==> v[j] != ',',
        k != "host"@ && k != "guest"@ && k != "ro"@,
    ensures
        mount_entry(k + "="@ + v) == Err::<MountView, Seq<char>>(
            "invalid mount key '"@ + k + "' in '"@ + (k + "="@ + v) + "'"@,
        ),
{
    reveal_strlit("=");
    let entry = k + "="@ + v;
    assert(entry =~= k + seq!['='] + v);
    assert forall|j: int| 0 <= j < k.len() implies k[j] != ',' by {
        assert(k[j] != ',' && k[j] != '=' && !is_ws(k[j]));
    }
    lemma_join_lacks(k, seq!['='], ',');
    lemma_join_lacks(k + seq!['='], v, ',');
    lemma_split_all_none(entry, ',');
    assert forall|j: int| 0 <= j < k.len() implies k[j] != '=' by {
        assert(k[j] != ',' && k[j] != '=' && !is_ws(k[j]));
    }
    lemma_split_once_prefix(k, v, '=');
    assert(!is_ws(k[0]));
    assert(!is_ws(k[k.len() - 1]));
    lemma_trim_plain(k);
    assert(mount_kv(entry) == (k, trim(v)));
    assert(seq![entry].drop_first() =~= Seq::<Seq<char>>::empty());
}

/// A mount entry `host=H` (H free of `,`) that names no guest side is
/// refused: an entry must include both `host=` and `guest=`.
pub proof fn law_mount_entry_needs_guest(h: Seq<char>)
    requires
        forall|j: int| 0 <= j < h.len() ==> h[j] != ',',
    ensures
        mount_entry("host="@ + h) == Err::<MountView, Seq<char>>(
            "mount entry '"@ + ("host="@ + h) + "' must include host= and guest="@,
        ),
{
    reveal_strlit("host=");
    reveal_strlit("host");
    let entry = "host="@ + h;
    let p1 = "host"@ + seq!['='] + h;
    assert(entry =~= p1);
    lemma_join_lacks("host"@ + seq!['='], h, ',');
    lemma_split_all_none(p1, ',');
    lemma_kv_word("host"@, h);
    let a1 = MountAcc { host: Some(trim(h)), ..mount_start() };
    assert(seq![p1].drop_first() =~= Seq::<Seq<char>>::empty());
    assert(mount_parts(Seq::<Seq<char>>::empty(), entry, a1) == Ok::<MountAcc, Seq<char>>(a1));
    assert(mount_parts(seq![p1], entry, mount_start()) == Ok::<MountAcc, Seq<char>>(a1));
}

} // verus!
