//! Component logs: the per-component ring buffers of `"<unix> | <line>"`
//! entries, and the log and deployment-history views the web API builds
//! from them.
use vstd::prelude::*;
use vstd::string::*;

use crate::keyed::{key_index, StrMap};
use crate::text::{
    contains, decimal, find_char_in, find_str, find_str_in, parse_u64, parse_u64_str, split_once,
    split_once_char, str_contains, str_eq, trim, trim_str, u64_to_decimal,
};

verus! {

/// Lines each component keeps; the oldest goes when a new one arrives.
pub open spec fn logs_cap() -> nat {
    1000
}

/// How a line is stored: its Unix time, ` | `, then the line.
pub open spec fn log_entry(now: u64, line: Seq<char>) -> Seq<char> {
    decimal(now as nat) + " | "@ + line
}

/// A buffer after one more entry: appended, and the oldest dropped when the
/// buffer was full.
pub open spec fn pushed(buf: Seq<Seq<char>>, e: Seq<char>) -> Seq<Seq<char>> {
    if buf.len() >= logs_cap() {
        buf.drop_first().push(e)
    } else {
        buf.push(e)
    }
}

/// The buffer of `name` (empty when it has none).
pub open spec fn buffer_of(logs: StrMap<Vec<String>>, name: Seq<char>) -> Seq<Seq<char>> {
    match logs.lookup(name) {
        Some(v) => v.deep_view(),
        None => Seq::empty(),
    }
}

/// Record `line` for component `name` at `now` (Unix seconds).
pub fn push_log(logs: &mut StrMap<Vec<String>>, name: &str, line: &str, now: u64)
    requires
        old(logs).wf(),
    ensures
        final(logs).wf(),
        exists|nv: Vec<String>|
            #[trigger] nv.deep_view() == pushed(buffer_of(*old(logs), name@), log_entry(now, line@))
                && old(logs).inserted(name@, nv, *final(logs)),
{
    let entry = u64_to_decimal(now).concat(" | ").concat(line);
    match logs.find(name) {
        Some(i) => {
            let ghost before = *logs;
            let ghost ob = logs.vals@[i as int].deep_view();
            if logs.vals[i].len() >= 1000 {
                logs.vals[i].remove(0);
            }
            logs.vals[i].push(entry);
            proof {
                let nv = logs.vals@[i as int];
                assert(before.lookup(name@) == Some(before.vals@[i as int]));
                if ob.len() >= 1000 {
                    assert(nv.deep_view() =~= ob.drop_first().push(entry@));
                } else {
                    assert(nv.deep_view() =~= ob.push(entry@));
                }
                assert(logs.vals@ =~= before.vals@.update(i as int, nv));
                assert(before.inserted(name@, nv, *logs));
            }
        },
        None => {
            let mut v: Vec<String> = Vec::new();
            v.push(entry);
            proof {
                assert(buffer_of(*logs, name@) == Seq::<Seq<char>>::empty());
                assert(v.deep_view() =~= Seq::<Seq<char>>::empty().push(entry@));
            }
            let ghost vv = v;
            logs.insert(String::from_str(name), v);
            assert(vv.deep_view() == pushed(buffer_of(*old(logs), name@), log_entry(now, line@)));
        },
    }
}

/// `str::split_once` at the first occurrence of `p`.
pub open spec fn split_once_at(s: Seq<char>, p: Seq<char>) -> Option<(Seq<char>, Seq<char>)> {
    match find_str(s, p) {
        Some(i) => Some((s.subrange(0, i), s.subrange(i + p.len(), s.len() as int))),
        None => None,
    }
}

pub fn split_once_str<'a>(s: &'a str, p: &str) -> (r: Option<(&'a str, &'a str)>)
    ensures
        match r {
            Some((a, b)) => split_once_at(s@, p@) == Some((a@, b@)),
            None => split_once_at(s@, p@) is None,
        },
{
    match find_str_in(s, p) {
        Some(i) => {
            let n = s.unicode_len();
            let m = p.unicode_len();
            Some((s.substring_char(0, i), s.substring_char(i + m, n)))
        },
        None => None,
    }
}

/// A stored entry read back: its time and its line, both trimmed, when it
/// has the form `<unix> | <line>` with a valid time.
pub open spec fn log_record(line: Seq<char>) -> Option<(u64, Seq<char>)> {
    match split_once_at(line, " | "@) {
        Some((a, b)) => match parse_u64(trim(a)) {
            Some(t) => Some((t, trim(b))),
            None => None,
        },
        None => None,
    }
}

fn log_record_exec(line: &str) -> (r: Option<(u64, &str)>)
    ensures
        match r {
            Some((t, m)) => log_record(line@) == Some((t, m@)),
            None => log_record(line@) is None,
        },
{
    match split_once_str(line, " | ") {
        Some((a, b)) => match parse_u64_str(trim_str(a)) {
            Some(t) => Some((t, trim_str(b))),
            None => None,
        },
        None => None,
    }
}

/// The name under which `time` writes a Unix time in ISO 8601 (UTC), when
/// the time is within its range.
pub uninterp spec fn time_iso8601(ts: i64) -> Option<Seq<char>>;

/// `time::OffsetDateTime::from_unix_timestamp(ts)` formatted with
/// `Iso8601::DEFAULT`: the text, or `None` when the time is outside the
/// representable range or cannot be formatted. A function of `ts` alone.
#[verifier::external_body]
fn iso8601_utc(ts: i64) -> (r: Option<String>)
    ensures
        match r {
            Some(s) => time_iso8601(ts) == Some(s@),
            None => time_iso8601(ts) is None,
        },
{
    match time::OffsetDateTime::from_unix_timestamp(ts) {
        Ok(dt) => match dt.format(&time::format_description::well_known::Iso8601::DEFAULT) {
            Ok(s) => Some(s),
            Err(_) => None,
        },
        Err(_) => None,
    }
}

/// How a Unix time is shown: in ISO 8601, or the epoch when it cannot be
/// written.
pub open spec fn timestamp_text(ts: u64) -> Seq<char> {
    match time_iso8601(ts as i64) {
        Some(s) => s,
        None => "1970-01-01T00:00:00Z"@,
    }
}

pub fn format_timestamp(timestamp: u64) -> (r: String)
    ensures
        r@ == timestamp_text(timestamp),
{
    match iso8601_utc(timestamp as i64) {
        Some(s) => s,
        None => String::from_str("1970-01-01T00:00:00Z"),
    }
}

/// A log line as the API shows it.
pub struct ApiLog {
    pub timestamp: String,
    pub component: String,
    pub message: String,
}

/// A readable entry: its time, component and message.
pub type Rec = (u64, Seq<char>, Seq<char>);

/// The readable entries of one component's lines, in order.
pub open spec fn records_of(comp: Seq<char>, lines: Seq<Seq<char>>) -> Seq<Rec>
    decreases lines.len(),
{
    if lines.len() == 0 {
        Seq::empty()
    } else {
        let rest = records_of(comp, lines.drop_last());
        match log_record(lines.last()) {
            Some((t, m)) => rest.push((t, comp, m)),
            None => rest,
        }
    }
}

/// The readable entries of all components, component by component.
pub open spec fn all_records(names: Seq<Seq<char>>, bufs: Seq<Seq<Seq<char>>>) -> Seq<Rec>
    decreases names.len(),
{
    if names.len() == 0 || bufs.len() == 0 {
        Seq::empty()
    } else {
        all_records(names.drop_last(), bufs.drop_last()) + records_of(names.last(), bufs.last())
    }
}

/// Where an entry at time `t` goes in entries sorted by time: after every
/// entry not later than it.
pub open spec fn ts_slot(s: Seq<Rec>, t: u64) -> int
    decreases s.len(),
{
    if s.len() > 0 && s.last().0 > t {
        ts_slot(s.drop_last(), t)
    } else {
        s.len() as int
    }
}

/// Entries sorted by time, equal times kept in their order (a stable sort).
pub open spec fn sort_by_time(s: Seq<Rec>) -> Seq<Rec>
    decreases s.len(),
{
    if s.len() == 0 {
        s
    } else {
        let sorted = sort_by_time(s.drop_last());
        sorted.insert(ts_slot(sorted, s.last().0), s.last())
    }
}

/// The last `tail` elements (all when there are fewer).
pub open spec fn last_n<A>(s: Seq<A>, tail: nat) -> Seq<A> {
    if s.len() <= tail {
        s
    } else {
        s.subrange(s.len() - tail, s.len() as int)
    }
}

pub open spec fn rec_view(r: (u64, String, String)) -> Rec {
    (r.0, r.1@, r.2@)
}

pub open spec fn recs_view(v: Seq<(u64, String, String)>) -> Seq<Rec> {
    v.map_values(|r: (u64, String, String)| rec_view(r))
}

pub open spec fn log_bufs(logs: StrMap<Vec<String>>) -> Seq<Seq<Seq<char>>> {
    logs.vals@.map_values(|v: Vec<String>| v.deep_view())
}

/// What the API shows of an entry.
pub open spec fn shown(a: ApiLog, r: Rec) -> bool {
    a.timestamp@ == timestamp_text(r.0) && a.component@ == r.1 && a.message@ == r.2
}

/// The entries the log view shows before its fallback: for `__all__`, the
/// last `tail` readable entries of all components sorted by time; for a
/// component it has lines of, the readable ones among its last `tail`
/// lines; otherwise none.
pub open spec fn log_view(logs: StrMap<Vec<String>>, component: Seq<char>, tail: nat) -> Seq<Rec> {
    if component == "__all__"@ {
        last_n(sort_by_time(all_records(logs.key_seq(), log_bufs(logs))), tail)
    } else {
        match logs.lookup(component) {
            Some(v) => records_of(component, last_n(v.deep_view(), tail)),
            None => Seq::empty(),
        }
    }
}

/// The message shown when there is nothing to show.
pub open spec fn no_logs_message(component: Seq<char>) -> Seq<char> {
    if component == "__all__"@ {
        "No logs available yet"@
    } else {
        "No logs found for component '"@ + component + "'"@
    }
}

/// Readable entries of one buffer, added to `out`.
fn collect_records(out: &mut Vec<(u64, String, String)>, comp: &str, lines: &Vec<String>, from: usize)
    requires
        from <= lines@.len(),
    ensures
        recs_view(final(out)@) == recs_view(old(out)@) + records_of(
            comp@,
            lines.deep_view().subrange(from as int, lines@.len() as int),
        ),
{
    let ghost ls = lines.deep_view().subrange(from as int, lines@.len() as int);
    let ghost start = recs_view(out@);
    let mut j: usize = from;
    assert(ls.subrange(0, 0) =~= Seq::<Seq<char>>::empty());
    while j < lines.len()
        invariant
            from <= j <= lines@.len(),
            ls == lines.deep_view().subrange(from as int, lines@.len() as int),
            recs_view(out@) == start + records_of(comp@, ls.subrange(0, j - from)),
        decreases lines.len() - j,
    {
        let ghost before = recs_view(out@);
        proof {
            assert(ls.subrange(0, j + 1 - from).drop_last() =~= ls.subrange(0, j - from));
            assert(ls.subrange(0, j + 1 - from).last() == lines@[j as int]@);
        }
        match log_record_exec(lines[j].as_str()) {
            Some((t, m)) => {
                out.push((t, String::from_str(comp), String::from_str(m)));
                proof {
                    assert(recs_view(out@) =~= before.push((t, comp@, m@)));
                    assert(start + records_of(comp@, ls.subrange(0, j - from)).push((t, comp@, m@))
                        =~= start + records_of(comp@, ls.subrange(0, j - from)).push((t, comp@, m@)));
                }
            },
            None => {},
        }
        j = j + 1;
    }
    assert(ls.subrange(0, lines@.len() - from) =~= ls);
}

/// Sort entries by time, keeping the order of equal times.
pub(crate) fn sort_records(v: Vec<(u64, String, String)>) -> (r: Vec<(u64, String, String)>)
    ensures
        recs_view(r@) == sort_by_time(recs_view(v@)),
{
    let mut v = v;
    let ghost input = recs_view(v@);
    let mut sorted: Vec<(u64, String, String)> = Vec::new();
    let mut i: usize = 0;
    let n = v.len();
    let mut rest: Vec<(u64, String, String)> = Vec::new();
    // move the entries out in order
    std::mem::swap(&mut rest, &mut v);
    assert(input.subrange(0, 0) =~= Seq::<Rec>::empty());
    while i < n
        invariant
            n == input.len(),
            i <= n,
            rest@.len() == n - i,
            recs_view(rest@) == input.subrange(i as int, n as int),
            recs_view(sorted@) == sort_by_time(input.subrange(0, i as int)),
        decreases n - i,
    {
        proof {
            assert(recs_view(rest@)[0] == rec_view(rest@[0]));
        }
        let ghost rest0 = rest@;
        let item = rest.remove(0);
        let ghost s = recs_view(sorted@);
        let t = item.0;
        let mut p: usize = sorted.len();
        proof {
            assert(rec_view(item) == input[i as int]);
            assert(item == rest0[0]);
            assert forall|j: int| 0 <= j < rest@.len() implies #[trigger] recs_view(rest@)[j] == input[i + 1 + j] by {
                assert(rest@[j] == rest0[j + 1]);
                assert(recs_view(rest0)[j + 1] == rec_view(rest0[j + 1]));
            }
            assert(recs_view(rest@) =~= input.subrange(i + 1, n as int));
            assert(s.subrange(0, s.len() as int) =~= s);
        }
        while p > 0 && sorted[p - 1].0 > t
            invariant
                p <= sorted@.len(),
                s == recs_view(sorted@),
                ts_slot(s, t) == ts_slot(s.subrange(0, p as int), t),
            decreases p,
        {
            proof {
                assert(s.subrange(0, p as int).drop_last() =~= s.subrange(0, p - 1));
            }
            p = p - 1;
        }
        proof {
            assert(ts_slot(s.subrange(0, p as int), t) == p);
            assert(input.subrange(0, i + 1).drop_last() =~= input.subrange(0, i as int));
        }
        sorted.insert(p, item);
        assert(recs_view(sorted@) =~= s.insert(p as int, rec_view(item)));
        i = i + 1;
    }
    assert(input.subrange(0, n as int) =~= input);
    sorted
}

/// The log view of the web API for `component` (all components when
/// absent, as `__all__`) with the last `tail` entries (100 when absent);
/// when nothing is found, a single `system` entry at `now` says so.
pub fn api_logs(logs: &StrMap<Vec<String>>, tail: Option<u32>, component: Option<&str>, now: u64) -> (r: Vec<ApiLog>)
    requires
        logs.wf(),
    ensures
        ({
            let t: nat = match tail {
                Some(t) => t as nat,
                None => 100,
            };
            let c = match component {
                Some(c) => c@,
                None => "__all__"@,
            };
            let v = log_view(*logs, c, t);
            if v.len() > 0 {
                r@.len() == v.len() && forall|i: int| 0 <= i < v.len() ==> shown(#[trigger] r@[i], v[i])
            } else {
                r@.len() == 1 && r@[0].timestamp@ == timestamp_text(now) && r@[0].component@ == "system"@
                    && r@[0].message@ == no_logs_message(c)
            }
        }),
{
    let tail: usize = match tail {
        Some(t) => t as usize,
        None => 100,
    };
    let component: &str = match component {
        Some(c) => c,
        None => "__all__",
    };
    let ghost c = component@;
    let mut recs: Vec<(u64, String, String)> = Vec::new();
    if str_eq(component, "__all__") {
        let mut i: usize = 0;
        let ghost names = logs.key_seq();
        let ghost bufs = log_bufs(*logs);
        proof {
            assert(names.subrange(0, 0) =~= Seq::<Seq<char>>::empty());
        }
        while i < logs.keys.len()
            invariant
                logs.wf(),
                names == logs.key_seq(),
                bufs == log_bufs(*logs),
                i <= logs.keys@.len(),
                recs_view(recs@) == all_records(names.subrange(0, i as int), bufs.subrange(0, i as int)),
            decreases logs.keys@.len() - i,
        {
            collect_records(&mut recs, logs.keys[i].as_str(), &logs.vals[i], 0);
            proof {
                assert(names.subrange(0, i + 1).drop_last() =~= names.subrange(0, i as int));
                assert(bufs.subrange(0, i + 1).drop_last() =~= bufs.subrange(0, i as int));
                assert(logs.vals@[i as int].deep_view().subrange(0, logs.vals@[i as int]@.len() as int)
                    =~= logs.vals@[i as int].deep_view());
                assert(names[i as int] == logs.keys@[i as int]@);
            }
            i = i + 1;
        }
        proof {
            assert(names.subrange(0, names.len() as int) =~= names);
            assert(bufs.subrange(0, bufs.len() as int) =~= bufs);
        }
        let sorted = sort_records(recs);
        let n = sorted.len();
        let start: usize = if n > tail {
            n - tail
        } else {
            0
        };
        recs = Vec::new();
        let mut k: usize = start;
        while k < n
            invariant
                n == sorted@.len(),
                start <= k <= n,
                recs_view(recs@) == recs_view(sorted@).subrange(start as int, k as int),
            decreases n - k,
        {
            let ghost before = recs_view(recs@);
            recs.push((sorted[k].0, sorted[k].1.clone(), sorted[k].2.clone()));
            assert(recs_view(sorted@)[k as int] == rec_view(sorted@[k as int]));
            assert(recs_view(recs@) =~= before.push(rec_view(sorted@[k as int])));
            assert(recs_view(recs@) =~= recs_view(sorted@).subrange(start as int, k + 1));
            k = k + 1;
        }
        proof {
            let all = recs_view(sorted@);
            if all.len() <= tail {
                assert(all.subrange(0, n as int) =~= all);
            }
        }
    } else {
        match logs.get(component) {
            Some(buf) => {
                let n = buf.len();
                let start: usize = if n > tail {
                    n - tail
                } else {
                    0
                };
                collect_records(&mut recs, component, buf, start);
                proof {
                    let b = buf.deep_view();
                    if b.len() <= tail {
                        assert(b.subrange(0, n as int) =~= b);
                    }
                    assert(recs_view(Seq::<(u64, String, String)>::empty()) =~= Seq::<Rec>::empty());
                    assert(Seq::<Rec>::empty() + records_of(component@, b.subrange(start as int, n as int))
                        =~= records_of(component@, b.subrange(start as int, n as int)));
                }
            },
            None => {
                assert(recs_view(recs@) =~= Seq::<Rec>::empty());
            },
        }
    }
    let ghost v = recs_view(recs@);
    let mut out: Vec<ApiLog> = Vec::new();
    let mut k: usize = 0;
    while k < recs.len()
        invariant
            v == recs_view(recs@),
            k <= recs@.len(),
            out@.len() == k,
            forall|j: int| 0 <= j < k ==> shown(#[trigger] out@[j], v[j]),
        decreases recs.len() - k,
    {
        out.push(
            ApiLog {
                timestamp: format_timestamp(recs[k].0),
                component: recs[k].1.clone(),
                message: recs[k].2.clone(),
            },
        );
        k = k + 1;
    }
    if out.len() == 0 {
        let message = if str_eq(component, "__all__") {
            String::from_str("No logs available yet")
        } else {
            String::from_str("No logs found for component '").concat(component).concat("'")
        };
        out.push(
            ApiLog {
                timestamp: format_timestamp(now),
                component: String::from_str("system"),
                message,
            },
        );
    }
    out
}

/// The names of the components that have logs, in order.
pub fn api_log_components(logs: &StrMap<Vec<String>>) -> (r: Vec<String>)
    requires
        logs.wf(),
    ensures
        r.deep_view() == logs.key_seq(),
{
    let r = crate::web::clone_strings(&logs.keys);
    assert(r.deep_view() =~= logs.key_seq());
    r
}

/// The text between `marker` and the next `'` after it in `s`, if both are
/// there.
pub open spec fn text_after(s: Seq<char>, marker: Seq<char>) -> Option<Seq<char>> {
    match find_str(s, marker) {
        Some(i) => {
            let rest = s.subrange(i + marker.len(), s.len() as int);
            match crate::text::find_char(rest, '\'') {
                Some(e) => Some(rest.subrange(0, e)),
                None => None,
            }
        },
        None => None,
    }
}

pub fn parse_after(s: &str, marker: &str) -> (r: Option<String>)
    ensures
        match r {
            Some(t) => text_after(s@, marker@) == Some(t@),
            None => text_after(s@, marker@) is None,
        },
{
    match find_str_in(s, marker) {
        Some(i) => {
            let n = s.unicode_len();
            let m = marker.unicode_len();
            let rest = s.substring_char(i + m, n);
            match find_char_in(rest, '\'') {
                Some(e) => Some(String::from_str(rest.substring_char(0, e))),
                None => None,
            }
        },
        None => None,
    }
}

/// A deployment found in the logs.
pub struct DeployEvent {
    pub component: String,
    pub digest: Option<String>,
    pub timestamp: u64,
}

/// The deployment an entry reports, if any: an entry `<unix>|<message>`
/// whose message mentions `deployed`, with the component named after
/// `component '` (else `component`) and its time (0 when unreadable).
pub open spec fn deploy_event(line: Seq<char>) -> Option<(Seq<char>, u64)> {
    match split_once(line, '|') {
        Some((ts, msg0)) => {
            let msg = trim(msg0);
            if contains(msg, "deployed"@) {
                Some(
                    (
                        match text_after(msg, "component '"@) {
                            Some(c) => c,
                            None => "component"@,
                        },
                        match parse_u64(trim(ts)) {
                            Some(t) => t,
                            None => 0,
                        },
                    ),
                )
            } else {
                None
            }
        },
        None => None,
    }
}

/// The deployments among lines read newest first.
pub open spec fn deploy_events(lines: Seq<Seq<char>>) -> Seq<(Seq<char>, u64)>
    decreases lines.len(),
{
    if lines.len() == 0 {
        Seq::empty()
    } else {
        let rest = deploy_events(lines.drop_first());
        match deploy_event(lines[0]) {
            Some(e) => seq![e] + rest,
            None => rest,
        }
    }
}

/// The newest `k` lines of a buffer, newest first.
pub open spec fn newest(buf: Seq<Seq<char>>, k: nat) -> Seq<Seq<char>> {
    last_n(buf, k).reverse()
}

/// The deployment history over all components in name order, each read
/// over its newest 200 lines, newest first.
pub open spec fn deploy_history(names: Seq<Seq<char>>, bufs: Seq<Seq<Seq<char>>>) -> Seq<(Seq<char>, u64)>
    decreases names.len(),
{
    if names.len() == 0 || bufs.len() == 0 {
        Seq::empty()
    } else {
        deploy_history(names.drop_last(), bufs.drop_last()) + deploy_events(newest(bufs.last(), 200))
    }
}

pub open spec fn events_view(v: Seq<DeployEvent>) -> Seq<(Seq<char>, u64)> {
    v.map_values(|e: DeployEvent| (e.component@, e.timestamp))
}

/// The deployment history the web API shows, synthesised from the logs.
pub fn api_deploy_history(logs: &StrMap<Vec<String>>) -> (r: Vec<DeployEvent>)
    requires
        logs.wf(),
    ensures
        events_view(r@) == deploy_history(logs.key_seq(), log_bufs(*logs)),
        forall|i: int| 0 <= i < r@.len() ==> (#[trigger] r@[i]).digest is None,
{
    let mut out: Vec<DeployEvent> = Vec::new();
    let ghost names = logs.key_seq();
    let ghost bufs = log_bufs(*logs);
    let mut i: usize = 0;
    proof {
        assert(names.subrange(0, 0) =~= Seq::<Seq<char>>::empty());
    }
    while i < logs.vals.len()
        invariant
            logs.wf(),
            names == logs.key_seq(),
            bufs == log_bufs(*logs),
            i <= logs.vals@.len(),
            events_view(out@) == deploy_history(names.subrange(0, i as int), bufs.subrange(0, i as int)),
            forall|k: int| 0 <= k < out@.len() ==> (#[trigger] out@[k]).digest is None,
        decreases logs.vals@.len() - i,
    {
        let entries = &logs.vals[i];
        let ghost buf = entries.deep_view();
        let ghost lines = newest(buf, 200);
        let n = entries.len();
        let stop: usize = if n > 200 {
            n - 200
        } else {
            0
        };
        let ghost base = events_view(out@);
        let mut j: usize = n;
        proof {
            assert(bufs[i as int] == buf);
            if buf.len() <= 200 {
                assert(last_n(buf, 200) =~= buf.subrange(0, n as int));
            }
            assert(lines.subrange(0, 0) =~= Seq::<Seq<char>>::empty());
        }
        while j > stop
            invariant
                n == buf.len(),
                buf == entries.deep_view(),
                stop <= j <= n,
                stop == (if n > 200 { n - 200 } else { 0 }),
                lines == newest(buf, 200),
                lines.len() == n - stop,
                events_view(out@) == base + deploy_events_prefix(lines, (n - j) as nat),
                forall|k: int| 0 <= k < out@.len() ==> (#[trigger] out@[k]).digest is None,
            decreases j,
        {
            j = j - 1;
            let line = entries[j].as_str();
            proof {
                assert(lines[(n - 1 - j) as int] == buf[j as int]);
            }
            match split_once_char(line, '|') {
                Some((ts_str, msg0)) => {
                    let msg = trim_str(msg0);
                    if str_contains(msg, "deployed") {
                        let component = match parse_after(msg, "component '") {
                            Some(c) => c,
                            None => String::from_str("component"),
                        };
                        let ts: u64 = match parse_u64_str(trim_str(ts_str)) {
                            Some(t) => t,
                            None => 0,
                        };
                        let ghost before = events_view(out@);
                        out.push(DeployEvent { component, digest: None, timestamp: ts });
                        assert(events_view(out@) =~= before.push((component@, ts)));
                    }
                },
                None => {},
            }
            proof {
                lemma_events_prefix_step(lines, (n - j - 1) as nat);
            }
        }
        proof {
            lemma_events_prefix_full(lines);
            assert(names.subrange(0, i + 1).drop_last() =~= names.subrange(0, i as int));
            assert(bufs.subrange(0, i + 1).drop_last() =~= bufs.subrange(0, i as int));
        }
        i = i + 1;
    }
    proof {
        assert(names.subrange(0, names.len() as int) =~= names);
        assert(bufs.subrange(0, bufs.len() as int) =~= bufs);
    }
    out
}

/// The deployments among the first `k` of `lines`, in order.
pub open spec fn deploy_events_prefix(lines: Seq<Seq<char>>, k: nat) -> Seq<(Seq<char>, u64)>
    decreases k,
{
    if k == 0 || k > lines.len() {
        Seq::empty()
    } else {
        let rest = deploy_events_prefix(lines, (k - 1) as nat);
        match deploy_event(lines[k - 1]) {
            Some(e) => rest.push(e),
            None => rest,
        }
    }
}

proof fn lemma_events_prefix_step(lines: Seq<Seq<char>>, k: nat)
    requires
        k < lines.len(),
    ensures
        deploy_events_prefix(lines, k + 1) == (match deploy_event(lines[k as int]) {
            Some(e) => deploy_events_prefix(lines, k).push(e),
            None => deploy_events_prefix(lines, k),
        }),
{
}

proof fn lemma_events_prefix_full(lines: Seq<Seq<char>>)
    ensures
        deploy_events_prefix(lines, lines.len()) == deploy_events(lines),
    decreases lines.len(),
{
    if lines.len() > 0 {
        lemma_events_prefix_full(lines.drop_first());
        lemma_events_prefix_shift(lines, lines.len());
    }
}

/// Reading the first `k` lines equals reading the first line, then the
/// first `k - 1` of the rest.
proof fn lemma_events_prefix_shift(lines: Seq<Seq<char>>, k: nat)
    requires
        1 <= k <= lines.len(),
    ensures
        deploy_events_prefix(lines, k) == (match deploy_event(lines[0]) {
            Some(e) => seq![e] + deploy_events_prefix(lines.drop_first(), (k - 1) as nat),
            None => deploy_events_prefix(lines.drop_first(), (k - 1) as nat),
        }),
    decreases k,
{
    let df = lines.drop_first();
    if k > 1 {
        lemma_events_prefix_shift(lines, (k - 1) as nat);
        assert(df[k - 2] == lines[k - 1]);
        assert(deploy_events_prefix(df, (k - 1) as nat) == (match deploy_event(df[k - 2]) {
            Some(e) => deploy_events_prefix(df, (k - 2) as nat).push(e),
            None => deploy_events_prefix(df, (k - 2) as nat),
        }));
        assert(deploy_events_prefix(lines, k) == (match deploy_event(lines[k - 1]) {
            Some(e) => deploy_events_prefix(lines, (k - 1) as nat).push(e),
            None => deploy_events_prefix(lines, (k - 1) as nat),
        }));
        match deploy_event(lines[0]) {
            Some(e) => {
                match deploy_event(lines[k - 1]) {
                    Some(e2) => {
                        assert(seq![e] + deploy_events_prefix(lines.drop_first(), (k - 2) as nat).push(e2)
                            =~= (seq![e] + deploy_events_prefix(lines.drop_first(), (k - 2) as nat)).push(e2));
                    },
                    None => {},
                }
            },
            None => {},
        }
    } else {
        assert(deploy_events_prefix(df, 0) == Seq::<(Seq<char>, u64)>::empty());
        assert(deploy_events_prefix(lines, 0) == Seq::<(Seq<char>, u64)>::empty());
        match deploy_event(lines[0]) {
            Some(e) => {
                assert(Seq::<(Seq<char>, u64)>::empty().push(e) =~= seq![e] + Seq::<(Seq<char>, u64)>::empty());
            },
            None => {},
        }
    }
}


/// Where a viewer's log stream stands for `name`: lines already sent
/// (0 when none were).
pub open spec fn sent_mark(last_sent: StrMap<usize>, name: Seq<char>) -> int {
    match last_sent.lookup(name) {
        Some(n) => n as int,
        None => 0,
    }
}

/// The readable entries to stream to a viewer over the components in name
/// order: for each component, its lines from the first one not sent yet to
/// the end of its buffer.
pub open spec fn stream_records(names: Seq<Seq<char>>, bufs: Seq<Seq<Seq<char>>>, last_sent: StrMap<usize>) -> Seq<Rec>
    decreases names.len(),
{
    if names.len() == 0 || bufs.len() == 0 {
        Seq::empty()
    } else {
        let start = sent_mark(last_sent, names.last());
        let b = bufs.last();
        stream_records(names.drop_last(), bufs.drop_last(), last_sent) + if start < b.len() {
            records_of(names.last(), b.subrange(start, b.len() as int))
        } else {
            Seq::empty()
        }
    }
}

/// The entries added to the logs since a viewer's last update, and its
/// marks moved to the end of each buffer that had new lines.
pub fn stream_new_records(logs: &StrMap<Vec<String>>, last_sent: &mut StrMap<usize>) -> (r: Vec<(u64, String, String)>)
    requires
        logs.wf(),
        old(last_sent).wf(),
    ensures
        final(last_sent).wf(),
        recs_view(r@) == stream_records(logs.key_seq(), log_bufs(*logs), *old(last_sent)),
        forall|k: Seq<char>|
            #[trigger] final(last_sent).lookup(k) == (match logs.lookup(k) {
                Some(b) => if sent_mark(*old(last_sent), k) < b@.len() {
                    Some(b@.len() as usize)
                } else {
                    old(last_sent).lookup(k)
                },
                None => old(last_sent).lookup(k),
            }),
{
    let ghost names = logs.key_seq();
    let ghost bufs = log_bufs(*logs);
    let ghost start_marks = *last_sent;
    let mut out: Vec<(u64, String, String)> = Vec::new();
    let mut i: usize = 0;
    proof {
        assert(names.subrange(0, 0) =~= Seq::<Seq<char>>::empty());
    }
    while i < logs.keys.len()
        invariant
            logs.wf(),
            last_sent.wf(),
            names == logs.key_seq(),
            bufs == log_bufs(*logs),
            i <= logs.keys@.len(),
            recs_view(out@) == stream_records(names.subrange(0, i as int), bufs.subrange(0, i as int), start_marks),
            forall|k: Seq<char>|
                #[trigger] last_sent.lookup(k) == (match crate::keyed::key_index(names, k) {
                    Some(j) => if j < i && sent_mark(start_marks, k) < logs.vals@[j]@.len() {
                        Some(logs.vals@[j]@.len() as usize)
                    } else {
                        start_marks.lookup(k)
                    },
                    None => start_marks.lookup(k),
                }),
        decreases logs.keys@.len() - i,
    {
        let name = logs.keys[i].as_str();
        let buf = &logs.vals[i];
        let ghost nm = name@;
        proof {
            assert(names[i as int] == nm);
            crate::keyed::lemma_key_index_at(names, nm, i as int);
            assert(names.subrange(0, i + 1).drop_last() =~= names.subrange(0, i as int));
            assert(bufs.subrange(0, i + 1).drop_last() =~= bufs.subrange(0, i as int));
            assert(bufs[i as int] == buf.deep_view());
        }
        let start: usize = match last_sent.get(name) {
            Some(n) => *n,
            None => 0,
        };
        proof {
            assert(start == sent_mark(start_marks, nm));
        }
        let end = buf.len();
        if start < end {
            collect_records(&mut out, name, buf, start);
            let ghost before = *last_sent;
            last_sent.insert(String::from_str(name), end);
            proof {
                crate::keyed::lemma_insert_lookup(before, *last_sent, nm, end);
                assert forall|k: Seq<char>|
                    #[trigger] last_sent.lookup(k) == (match crate::keyed::key_index(names, k) {
                        Some(j) => if j < i + 1 && sent_mark(start_marks, k) < logs.vals@[j]@.len() {
                            Some(logs.vals@[j]@.len() as usize)
                        } else {
                            start_marks.lookup(k)
                        },
                        None => start_marks.lookup(k),
                    }) by {
                    if k != nm {
                        match crate::keyed::key_index(names, k) {
                            Some(j) => {
                                assert(crate::keyed::key_at(names, k, j) || true);
                                if j == i {
                                    assert(crate::keyed::key_at(names, k, j));
                                }
                            },
                            None => {},
                        }
                    }
                }
            }
        } else {
            proof {
                assert(recs_view(out@) + Seq::<Rec>::empty() =~= recs_view(out@));
                assert forall|k: Seq<char>|
                    #[trigger] last_sent.lookup(k) == (match crate::keyed::key_index(names, k) {
                        Some(j) => if j < i + 1 && sent_mark(start_marks, k) < logs.vals@[j]@.len() {
                            Some(logs.vals@[j]@.len() as usize)
                        } else {
                            start_marks.lookup(k)
                        },
                        None => start_marks.lookup(k),
                    }) by {
                    match crate::keyed::key_index(names, k) {
                        Some(j) => {
                            if j == i {
                                assert(crate::keyed::key_at(names, k, j));
                            }
                        },
                        None => {},
                    }
                }
            }
        }
        i = i + 1;
    }
    proof {
        assert(names.subrange(0, names.len() as int) =~= names);
        assert(bufs.subrange(0, bufs.len() as int) =~= bufs);
        assert forall|k: Seq<char>|
            #[trigger] last_sent.lookup(k) == (match logs.lookup(k) {
                Some(b) => if sent_mark(start_marks, k) < b@.len() {
                    Some(b@.len() as usize)
                } else {
                    start_marks.lookup(k)
                },
                None => start_marks.lookup(k),
            }) by {
            match crate::keyed::key_index(names, k) {
                Some(j) => {
                    assert(logs.lookup(k) == Some(logs.vals@[j]));
                },
                None => {},
            }
        }
    }
    out
}

/// The mesh events a viewer has not seen: from its mark to the end; the
/// new mark is the end.
pub fn new_events_range(total: usize, last_sent: usize) -> (r: Option<(usize, usize)>)
    ensures
        last_sent < total ==> r == Some((last_sent, total)),
        last_sent >= total ==> r is None,
{
    if last_sent < total {
        Some((last_sent, total))
    } else {
        None
    }
}

} // verus!
