//! The agent's plain metrics port: the path of a raw HTTP request, what
//! `/metrics` and `/logs` answer (the Prometheus text, or the component logs
//! as plain text), and the framing of the reply.
use vstd::prelude::*;
use vstd::string::*;

use crate::host::{second_word, second_word_str};
use crate::keyed::StrMap;
use crate::logs::{last_n, log_bufs, recs_view, sort_by_time, Rec};
use crate::metrics::{render_spec, Metrics};
use crate::text::{
    decimal, lines, lines_of, parse_u64, parse_u64_str, split_all, split_char, split_once, split_once_char,
    starts_with, str_eq, str_starts_with, trim, trim_str, u64_to_decimal,
};

verus! {

/// The path of a request: the second word of its first line, `/metrics`
/// when there is none.
pub open spec fn request_path_of(req: Seq<char>) -> Seq<char> {
    let ls = lines(req);
    if ls.len() > 0 {
        match second_word(ls[0]) {
            Some(w) => w,
            None => "/metrics"@,
        }
    } else {
        "/metrics"@
    }
}

pub fn request_path(req: &str) -> (r: &str)
    ensures
        r@ == request_path_of(req@),
{
    let ls = lines_of(req);
    if ls.len() > 0 {
        match second_word_str(ls[0]) {
            Some(w) => w,
            None => "/metrics",
        }
    } else {
        "/metrics"
    }
}

/// What the metrics port serves.
#[derive(Debug, Clone, Copy, PartialEq, Eq, Structural)]
pub enum PortRoute {
    Metrics,
    Logs,
    NotFound,
}

/// The route of a path: `/metrics…` the metrics, `/logs…` the logs,
/// anything else nothing.
pub open spec fn route_of(path: Seq<char>) -> PortRoute {
    if starts_with(path, "/metrics"@) {
        PortRoute::Metrics
    } else if starts_with(path, "/logs"@) {
        PortRoute::Logs
    } else {
        PortRoute::NotFound
    }
}

pub fn port_route(path: &str) -> (r: PortRoute)
    ensures
        r == route_of(path@),
{
    if str_starts_with(path, "/metrics") {
        PortRoute::Metrics
    } else if str_starts_with(path, "/logs") {
        PortRoute::Logs
    } else {
        PortRoute::NotFound
    }
}

/// A `tail` value: a count that `usize` holds, capped at 1000.
pub open spec fn tail_value(v: Seq<char>) -> Option<nat> {
    match parse_u64(v) {
        Some(n) => if n <= usize::MAX {
            Some(if n > 1000 { 1000nat } else { n as nat })
        } else {
            None
        },
        None => None,
    }
}

/// One `key=value` pair of the logs query: `component` with a non-empty
/// value names the component, `tail` with a count sets the tail; other
/// pairs, and pairs without `=`, change nothing.
pub open spec fn apply_pair(acc: (Option<Seq<char>>, nat), pair: Seq<char>) -> (Option<Seq<char>>, nat) {
    let kv = split_all(pair, '=');
    if kv.len() >= 2 {
        (
            if kv[0] == "component"@ && kv[1].len() > 0 {
                Some(kv[1])
            } else {
                acc.0
            },
            if kv[0] == "tail"@ {
                match tail_value(kv[1]) {
                    Some(t) => t,
                    None => acc.1,
                }
            } else {
                acc.1
            },
        )
    } else {
        acc
    }
}

pub open spec fn apply_pairs(pairs: Seq<Seq<char>>, acc: (Option<Seq<char>>, nat)) -> (Option<Seq<char>>, nat)
    decreases pairs.len(),
{
    if pairs.len() == 0 {
        acc
    } else {
        apply_pair(apply_pairs(pairs.drop_last(), acc), pairs.last())
    }
}

/// The component and tail a `/logs` path asks for: the pairs of its query
/// (after the first `?`, split at `&`) in order, from no component and a
/// tail of 100.
pub open spec fn logs_query_of(path: Seq<char>) -> (Option<Seq<char>>, nat) {
    let parts = split_all(path, '?');
    if parts.len() > 1 {
        apply_pairs(split_all(parts[1], '&'), (None, 100))
    } else {
        (None, 100)
    }
}

pub fn logs_query(path: &str) -> (r: (Option<String>, usize))
    ensures
        (crate::platform::opt_string_view(r.0), r.1 as nat) == logs_query_of(path@),
{
    let parts = split_char(path, '?');
    let mut component: Option<String> = None;
    let mut tail: usize = 100;
    if parts.len() > 1 {
        let pairs = split_char(parts[1], '&');
        let ghost ps = split_all(parts@[1]@, '&');
        let mut i: usize = 0;
        proof {
            reveal_strlit("component");
            reveal_strlit("tail");
            assert(ps.subrange(0, 0) =~= Seq::<Seq<char>>::empty());
        }
        while i < pairs.len()
            invariant
                ps == split_all(parts@[1]@, '&'),
                pairs@.len() == ps.len(),
                forall|k: int| 0 <= k < pairs@.len() ==> #[trigger] pairs@[k]@ == ps[k],
                i <= pairs@.len(),
                (crate::platform::opt_string_view(component), tail as nat) == apply_pairs(
                    ps.subrange(0, i as int),
                    (None, 100),
                ),
            decreases pairs.len() - i,
        {
            let ghost acc = (crate::platform::opt_string_view(component), tail as nat);
            let kv = split_char(pairs[i], '=');
            let ghost kvs = split_all(ps[i as int], '=');
            if kv.len() >= 2 {
                if str_eq(kv[0], "component") && kv[1].unicode_len() > 0 {
                    component = Some(String::from_str(kv[1]));
                }
                if str_eq(kv[0], "tail") {
                    match parse_u64_str(kv[1]) {
                        Some(n) => {
                            if n <= usize::MAX as u64 {
                                tail = if n > 1000 {
                                    1000
                                } else {
                                    n as usize
                                };
                            }
                        },
                        None => {},
                    }
                }
            }
            proof {
                assert(ps.subrange(0, i + 1).drop_last() =~= ps.subrange(0, i as int));
                assert(ps.subrange(0, i + 1).last() == ps[i as int]);
                assert((crate::platform::opt_string_view(component), tail as nat) == apply_pair(acc, ps[i as int]));
            }
            i = i + 1;
        }
        proof {
            assert(ps.subrange(0, ps.len() as int) =~= ps);
        }
    }
    (component, tail)
}

/// A stored log line read as the logs port reads it: split at its first
/// `|`, a time before it and the trimmed message after it.
pub open spec fn pipe_record(line: Seq<char>) -> Option<(u64, Seq<char>)> {
    match split_once(line, '|') {
        Some((a, b)) => match parse_u64(trim(a)) {
            Some(t) => Some((t, trim(b))),
            None => None,
        },
        None => None,
    }
}

/// The readable entries of one component's lines, in order.
pub open spec fn pipe_records(comp: Seq<char>, ls: Seq<Seq<char>>) -> Seq<Rec>
    decreases ls.len(),
{
    if ls.len() == 0 {
        Seq::empty()
    } else {
        let rest = pipe_records(comp, ls.drop_last());
        match pipe_record(ls.last()) {
            Some((t, m)) => rest.push((t, comp, m)),
            None => rest,
        }
    }
}

/// The readable entries among the last `tail` lines of each component,
/// component by component.
pub open spec fn tail_records(names: Seq<Seq<char>>, bufs: Seq<Seq<Seq<char>>>, tail: nat) -> Seq<Rec>
    decreases names.len(),
{
    if names.len() == 0 || bufs.len() == 0 {
        Seq::empty()
    } else {
        tail_records(names.drop_last(), bufs.drop_last(), tail) + pipe_records(
            names.last(),
            last_n(bufs.last(), tail),
        )
    }
}

/// Lines, each followed by a newline.
pub open spec fn lines_text(ls: Seq<Seq<char>>) -> Seq<char>
    decreases ls.len(),
{
    if ls.len() == 0 {
        Seq::empty()
    } else {
        lines_text(ls.drop_last()) + ls.last() + "\n"@
    }
}

/// Entries as `[component] message` lines.
pub open spec fn rec_lines(rs: Seq<Rec>) -> Seq<char>
    decreases rs.len(),
{
    if rs.len() == 0 {
        Seq::empty()
    } else {
        rec_lines(rs.drop_last()) + "["@ + rs.last().1 + "] "@ + rs.last().2 + "\n"@
    }
}

/// The `/logs` text: without a component, the list of components; for
/// `__all__`, the last `tail` readable entries of all components' last
/// `tail` lines sorted by time (equal times in component order); for a
/// known component, its last `tail` lines; otherwise `unknown component`.
pub open spec fn plain_logs_of(logs: StrMap<Vec<String>>, component: Option<Seq<char>>, tail: nat) -> Seq<char> {
    match component {
        None => "components:\n"@ + lines_text(logs.key_seq()),
        Some(c) => if c == "__all__"@ {
            rec_lines(last_n(sort_by_time(tail_records(logs.key_seq(), log_bufs(logs), tail)), tail))
        } else {
            match logs.lookup(c) {
                Some(v) => lines_text(last_n(v.deep_view(), tail)),
                None => "unknown component\n"@,
            }
        },
    }
}

/// Append `ls[from..]`, each line followed by a newline.
fn append_lines(out: &mut String, ls: &Vec<String>, from: usize)
    requires
        from <= ls@.len(),
    ensures
        final(out)@ == old(out)@ + lines_text(ls.deep_view().subrange(from as int, ls@.len() as int)),
{
    let ghost start = out@;
    let ghost all = ls.deep_view();
    let mut j: usize = from;
    assert(all.subrange(from as int, from as int) =~= Seq::<Seq<char>>::empty());
    while j < ls.len()
        invariant
            from <= j <= ls@.len(),
            all == ls.deep_view(),
            out@ == start + lines_text(all.subrange(from as int, j as int)),
        decreases ls.len() - j,
    {
        let ghost before = out@;
        out.append(ls[j].as_str());
        out.append("\n");
        proof {
            let s = all.subrange(from as int, j + 1);
            assert(s.drop_last() =~= all.subrange(from as int, j as int));
            assert(s.last() == ls@[j as int]@);
            assert(out@ =~= before + ls@[j as int]@ + "\n"@);
        }
        j = j + 1;
    }
}

/// Add the readable entries of `lines[from..]` to `out`.
fn collect_pipe_records(out: &mut Vec<(u64, String, String)>, comp: &str, ls: &Vec<String>, from: usize)
    requires
        from <= ls@.len(),
    ensures
        recs_view(final(out)@) == recs_view(old(out)@) + pipe_records(
            comp@,
            ls.deep_view().subrange(from as int, ls@.len() as int),
        ),
{
    let ghost all = ls.deep_view();
    let ghost start = recs_view(out@);
    let mut j: usize = from;
    assert(all.subrange(from as int, from as int) =~= Seq::<Seq<char>>::empty());
    assert(start + Seq::<Rec>::empty() =~= start);
    while j < ls.len()
        invariant
            from <= j <= ls@.len(),
            all == ls.deep_view(),
            recs_view(out@) == start + pipe_records(comp@, all.subrange(from as int, j as int)),
        decreases ls.len() - j,
    {
        let ghost before = recs_view(out@);
        let ghost s = all.subrange(from as int, j + 1);
        proof {
            assert(s.drop_last() =~= all.subrange(from as int, j as int));
            assert(s.last() == ls@[j as int]@);
        }
        match split_once_char(ls[j].as_str(), '|') {
            Some((a, b)) => match parse_u64_str(trim_str(a)) {
                Some(t) => {
                    let m = trim_str(b);
                    out.push((t, String::from_str(comp), String::from_str(m)));
                    proof {
                        assert(recs_view(out@) =~= before.push((t, comp@, m@)));
                        assert(pipe_records(comp@, s) == pipe_records(comp@, s.drop_last()).push((t, comp@, m@)));
                        assert(start + pipe_records(comp@, s.drop_last()).push((t, comp@, m@)) =~= (start
                            + pipe_records(comp@, s.drop_last())).push((t, comp@, m@)));
                    }
                },
                None => {},
            },
            None => {},
        }
        j = j + 1;
    }
}

/// The start of the last `tail` elements of a sequence of length `n`.
fn tail_start(n: usize, tail: usize) -> (r: usize)
    ensures
        r == (if n > tail { n - tail } else { 0 }),
{
    if n > tail {
        n - tail
    } else {
        0
    }
}

/// The `/logs` text (see `plain_logs_of`).
pub fn plain_logs(logs: &StrMap<Vec<String>>, component: Option<String>, tail: usize) -> (r: String)
    requires
        logs.wf(),
    ensures
        r@ == plain_logs_of(*logs, crate::platform::opt_string_view(component), tail as nat),
{
    proof {
        reveal_strlit("__all__");
    }
    match component {
        None => {
            let mut out = String::from_str("components:\n");
            proof {
                assert(logs.keys.deep_view() =~= logs.key_seq());
                assert(logs.keys.deep_view().subrange(0, logs.keys@.len() as int) =~= logs.key_seq());
            }
            append_lines(&mut out, &logs.keys, 0);
            out
        },
        Some(c) => {
            if str_eq(c.as_str(), "__all__") {
                let ghost names = logs.key_seq();
                let ghost bufs = log_bufs(*logs);
                let mut combined: Vec<(u64, String, String)> = Vec::new();
                let mut i: usize = 0;
                assert(names.subrange(0, 0) =~= Seq::<Seq<char>>::empty());
                while i < logs.vals.len()
                    invariant
                        logs.wf(),
                        names == logs.key_seq(),
                        bufs == log_bufs(*logs),
                        names.len() == bufs.len(),
                        i <= bufs.len(),
                        recs_view(combined@) == tail_records(
                            names.subrange(0, i as int),
                            bufs.subrange(0, i as int),
                            tail as nat,
                        ),
                    decreases logs.vals.len() - i,
                {
                    let buf = &logs.vals[i];
                    let start = tail_start(buf.len(), tail);
                    let ghost before = recs_view(combined@);
                    collect_pipe_records(&mut combined, logs.keys[i].as_str(), buf, start);
                    proof {
                        let ns = names.subrange(0, i + 1);
                        let bs = bufs.subrange(0, i + 1);
                        assert(ns.drop_last() =~= names.subrange(0, i as int));
                        assert(bs.drop_last() =~= bufs.subrange(0, i as int));
                        assert(ns.last() == logs.keys@[i as int]@);
                        assert(bs.last() == buf.deep_view());
                        assert(buf.deep_view().subrange(start as int, buf@.len() as int) =~= last_n(
                            buf.deep_view(),
                            tail as nat,
                        ));
                    }
                    i = i + 1;
                }
                proof {
                    assert(names.subrange(0, names.len() as int) =~= names);
                    assert(bufs.subrange(0, bufs.len() as int) =~= bufs);
                }
                let sorted = crate::logs::sort_records(combined);
                let ghost rs = recs_view(sorted@);
                let start = tail_start(sorted.len(), tail);
                let mut out = String::new();
                let mut j: usize = start;
                assert(rs.subrange(start as int, start as int) =~= Seq::<Rec>::empty());
                while j < sorted.len()
                    invariant
                        start <= j <= sorted@.len(),
                        rs == recs_view(sorted@),
                        out@ == rec_lines(rs.subrange(start as int, j as int)),
                    decreases sorted.len() - j,
                {
                    let ghost before = out@;
                    out.append("[");
                    out.append(sorted[j].1.as_str());
                    out.append("] ");
                    out.append(sorted[j].2.as_str());
                    out.append("\n");
                    proof {
                        let s = rs.subrange(start as int, j + 1);
                        assert(s.drop_last() =~= rs.subrange(start as int, j as int));
                        assert(s.last() == rs[j as int]);
                        assert(rs[j as int] == crate::logs::rec_view(sorted@[j as int]));
                        assert(out@ =~= before + "["@ + s.last().1 + "] "@ + s.last().2 + "\n"@);
                    }
                    j = j + 1;
                }
                proof {
                    assert(rs.subrange(start as int, rs.len() as int) =~= last_n(rs, tail as nat));
                }
                out
            } else {
                match logs.get(c.as_str()) {
                    Some(buf) => {
                        let mut out = String::new();
                        let start = tail_start(buf.len(), tail);
                        append_lines(&mut out, buf, start);
                        proof {
                            assert(buf.deep_view().subrange(start as int, buf@.len() as int) =~= last_n(
                                buf.deep_view(),
                                tail as nat,
                            ));
                            assert(out@ =~= lines_text(last_n(buf.deep_view(), tail as nat)));
                        }
                        out
                    },
                    None => String::from_str("unknown component\n"),
                }
            }
        },
    }
}

/// A plain HTTP/1.1 reply: the status line, the content type, the length
/// of the body in UTF-8 bytes, `Connection: close`, and the body.
pub open spec fn http_text(status_line: Seq<char>, content_type: Seq<char>, body: Seq<char>) -> Seq<char> {
    status_line + "\r\nContent-Type: "@ + content_type + "\r\nContent-Length: "@ + decimal(
        vstd::utf8::encode_utf8(body).len(),
    ) + "\r\nConnection: close\r\n\r\n"@ + body
}

pub fn http_text_reply(status_line: &str, content_type: &str, body: &str) -> (r: String)
    ensures
        r@ == http_text(status_line@, content_type@, body@),
{
    let len = body.as_bytes().len();
    String::from_str(status_line).concat("\r\nContent-Type: ").concat(content_type).concat(
        "\r\nContent-Length: ",
    ).concat(u64_to_decimal(len as u64).as_str()).concat("\r\nConnection: close\r\n\r\n").concat(body)
}

/// The reply of the metrics port to a request whose first bytes are
/// `request` (read as UTF-8, invalid sequences replaced).
pub open spec fn port_reply_of(req: Seq<char>, m: Metrics, logs: StrMap<Vec<String>>) -> Seq<char> {
    let path = request_path_of(req);
    match route_of(path) {
        PortRoute::Metrics => http_text("HTTP/1.1 200 OK"@, "text/plain; version=0.0.4"@, render_spec(m)),
        PortRoute::Logs => {
            let q = logs_query_of(path);
            http_text("HTTP/1.1 200 OK"@, "text/plain; charset=utf-8"@, plain_logs_of(logs, q.0, q.1))
        },
        PortRoute::NotFound => http_text("HTTP/1.1 404 Not Found"@, "text/plain; charset=utf-8"@, "not found"@),
    }
}

/// Answer one request to the metrics port.
pub fn port_reply(request: &[u8], metrics: &Metrics, logs: &StrMap<Vec<String>>) -> (r: String)
    requires
        logs.wf(),
    ensures
        r@ == port_reply_of(crate::ci::utf8_lossy_text(request@), *metrics, *logs),
{
    let text = crate::ci::utf8_lossy(request);
    let path = request_path(text.as_str());
    match port_route(path) {
        PortRoute::Metrics => {
            let body = metrics.render_prometheus();
            http_text_reply("HTTP/1.1 200 OK", "text/plain; version=0.0.4", body.as_str())
        },
        PortRoute::Logs => {
            let (component, tail) = logs_query(path);
            let body = plain_logs(logs, component, tail);
            http_text_reply("HTTP/1.1 200 OK", "text/plain; charset=utf-8", body.as_str())
        },
        PortRoute::NotFound => http_text_reply("HTTP/1.1 404 Not Found", "text/plain; charset=utf-8", "not found"),
    }
}

} // verus!
