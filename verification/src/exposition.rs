//! Reading back a rendered Prometheus text: the management UI that reads an
//! agent's `/metrics` text takes over exactly the figures the agent holds.
use vstd::prelude::*;

use crate::metrics::{
    apply_metric_line, apply_metric_lines, prom_block, render_head, render_middle, render_spec,
    render_tail, sat_sub, Metrics,
};
use crate::text::{
    all_digits, decimal, digit_char, digits_value, find_char, first_index_of, is_digit, is_ws,
    lemma_find_char, lines, parse_u64, split_once, starts_with, strip_cr, trim, trim_end, trim_start,
};

verus! {

/// The decimal notation of `n` is a non-empty string of digits worth `n`.
pub proof fn lemma_decimal_digits(n: nat)
    ensures
        decimal(n).len() > 0,
        all_digits(decimal(n)),
        digits_value(decimal(n)) == n,
    decreases n,
{
    if n < 10 {
        let s = decimal(n);
        assert(s.drop_last() =~= Seq::<char>::empty());
        assert(digits_value(s.drop_last()) == 0);
        assert(((digit_char(n as int) as int) - ('0' as int)) == n);
        assert(digits_value(s) == digits_value(s.drop_last()) * 10 + ((s.last() as int) - ('0' as int)) as nat);
    } else {
        lemma_decimal_digits(n / 10);
        let s = decimal(n);
        let d = (n % 10) as int;
        assert(s.drop_last() =~= decimal(n / 10));
        assert(s.last() == digit_char(d));
        assert(((digit_char(d) as int) - ('0' as int)) == d);
        assert(n == (n / 10) * 10 + n % 10) by (nonlinear_arith);
        assert(digits_value(s) == digits_value(s.drop_last()) * 10 + ((s.last() as int) - ('0' as int)) as nat);
        assert(digits_value(s) == (n / 10) * 10 + d);
        assert forall|i: int| 0 <= i < s.len() implies is_digit(#[trigger] s[i]) by {
            if i < s.len() - 1 {
                assert(s[i] == decimal(n / 10)[i]);
            }
        }
    }
}

/// Reading back the decimal notation of a 64-bit number gives the number.
pub proof fn lemma_parse_decimal(n: u64)
    ensures
        parse_u64(decimal(n as nat)) == Some(n),
{
    lemma_decimal_digits(n as nat);
    let s = decimal(n as nat);
    assert(is_digit(s[0]));
}

/// The lines of a text made of two texts, the first ending in a newline,
/// are the lines of each.
pub proof fn lemma_lines_append(a: Seq<char>, b: Seq<char>)
    requires
        a.len() > 0,
        a.last() == '\n',
    ensures
        lines(a + b) == lines(a) + lines(b),
    decreases a.len(),
{
    let ab = a + b;
    lemma_first_newline(a, a.len() - 1);
    let k = choose|k: int| first_index_of(a, '\n', k);
    lemma_find_char(a, '\n', k);
    assert(first_index_of(ab, '\n', k)) by {
        assert forall|j: int| 0 <= j < k implies ab[j] != '\n' by {
            assert(ab[j] == a[j]);
        }
    }
    lemma_find_char(ab, '\n', k);
    assert(ab.subrange(0, k) =~= a.subrange(0, k));
    let rest = a.subrange(k + 1, a.len() as int);
    assert(ab.subrange(k + 1, ab.len() as int) =~= rest + b);
    if k + 1 == a.len() {
        assert(rest =~= Seq::<char>::empty());
        assert(rest + b =~= b);
        assert(lines(rest) =~= Seq::<Seq<char>>::empty());
        assert(lines(a) == seq![strip_cr(a.subrange(0, k))] + lines(rest));
    } else {
        lemma_lines_append(rest, b);
        assert(lines(a) == seq![strip_cr(a.subrange(0, k))] + lines(rest));
    }
}

/// A text that holds `c` somewhere has a first occurrence of it.
pub proof fn lemma_first_newline(a: Seq<char>, i: int)
    requires
        0 <= i < a.len(),
        a[i] == '\n',
    ensures
        exists|k: int| first_index_of(a, '\n', k),
    decreases i,
{
    if exists|j: int| 0 <= j < i && a[j] == '\n' {
        let j = choose|j: int| 0 <= j < i && a[j] == '\n';
        lemma_first_newline(a, j);
    } else {
        assert(first_index_of(a, '\n', i));
    }
}

/// A line without newline, then a newline, is one line.
pub proof fn lemma_lines_one(x: Seq<char>)
    requires
        forall|j: int| 0 <= j < x.len() ==> x[j] != '\n',
    ensures
        lines(x + "\n"@) == seq![strip_cr(x)],
{
    reveal_strlit("\n");
    let s = x + "\n"@;
    assert(first_index_of(s, '\n', x.len() as int)) by {
        assert forall|j: int| 0 <= j < x.len() implies s[j] != '\n' by {
            assert(s[j] == x[j]);
        }
    }
    lemma_find_char(s, '\n', x.len() as int);
    assert(s.subrange(0, x.len() as int) =~= x);
    assert(s.subrange(x.len() as int + 1, s.len() as int) =~= Seq::<char>::empty());
    assert(lines(Seq::<char>::empty()) == Seq::<Seq<char>>::empty());
    assert(lines(s) == seq![strip_cr(s.subrange(0, x.len() as int))] + lines(
        s.subrange(x.len() as int + 1, s.len() as int),
    ));
    assert(seq![strip_cr(x)] + Seq::<Seq<char>>::empty() =~= seq![strip_cr(x)]);
}

/// Reading lines one list after another.
pub proof fn lemma_apply_append(m: Metrics, a: Seq<Seq<char>>, b: Seq<Seq<char>>)
    ensures
        apply_metric_lines(m, a + b) == apply_metric_lines(apply_metric_lines(m, a), b),
    decreases a.len(),
{
    if a.len() > 0 {
        assert((a + b).drop_first() =~= a.drop_first() + b);
        lemma_apply_append(apply_metric_line(m, a[0]), a.drop_first(), b);
    } else {
        assert(a + b =~= b);
    }
}

/// A metric name fit for a sample line: a letter first, then letters,
/// digits and underscores.
pub open spec fn plain_name(name: Seq<char>) -> bool {
    &&& name.len() > 0
    &&& 'a' <= name[0] <= 'z'
    &&& forall|j: int|
        0 <= j < name.len() ==> ('a' <= #[trigger] name[j] <= 'z' || name[j] == '_' || ('0' <= name[j]
            <= '9'))
}

/// The sample line of a metric.
pub open spec fn sample_line(name: Seq<char>, v: u64) -> Seq<char> {
    name + " "@ + decimal(v as nat)
}

/// Reading a metric's block is reading its sample line.
pub proof fn lemma_block(u: Metrics, name: Seq<char>, kind: Seq<char>, v: u64)
    requires
        plain_name(name),
        plain_name(kind),
    ensures
        apply_metric_lines(u, lines(prom_block(name, kind, v))) == apply_metric_line(u, sample_line(name, v)),
{
    reveal_strlit("# TYPE ");
    reveal_strlit(" ");
    reveal_strlit("\n");
    reveal_strlit("#");
    lemma_decimal_digits(v as nat);
    let t = "# TYPE "@ + name + " "@ + kind;
    let smp = sample_line(name, v);
    assert(prom_block(name, kind, v) =~= (t + "\n"@) + (smp + "\n"@));
    assert forall|j: int| 0 <= j < t.len() implies t[j] != '\n' by {
        if j >= 7 + name.len() + 1 {
            assert(t[j] == kind[j - 7 - name.len() - 1]);
        } else if j >= 7 && j < 7 + name.len() {
            assert(t[j] == name[j - 7]);
        }
    }
    let dv = decimal(v as nat);
    assert forall|j: int| 0 <= j < smp.len() implies smp[j] != '\n' && smp[j] != '\r' by {
        if j >= name.len() + 1 {
            assert(smp[j] == dv[j - name.len() - 1]);
            assert(is_digit(dv[j - name.len() - 1]));
        } else if j < name.len() {
            assert(smp[j] == name[j]);
        }
    }
    lemma_lines_append(t + "\n"@, smp + "\n"@);
    lemma_lines_one(t);
    lemma_lines_one(smp);
    assert(kind[kind.len() - 1] != '\r');
    assert(t.last() == kind.last());
    assert(strip_cr(t) == t);
    assert(smp.last() == dv.last());
    assert(is_digit(dv[dv.len() - 1]));
    assert(strip_cr(smp) == smp);
    let ls = seq![t] + seq![smp];
    assert(ls.drop_first() =~= seq![smp]);
    assert(seq![smp].drop_first() =~= Seq::<Seq<char>>::empty());
    assert(starts_with(t, "#"@)) by {
        assert(t.subrange(0, 1) =~= "#"@);
    }
    // the sample line is read as such
    assert(!starts_with(smp, "#"@)) by {
        assert(smp[0] == name[0]);
        assert(smp.subrange(0, 1)[0] == name[0]);
    }
    lemma_trim_nonblank(smp);
    let pb = prom_block(name, kind, v);
    assert(lines(pb) == lines(t + "\n"@) + lines(smp + "\n"@));
    assert(lines(pb) =~= ls);
    assert(apply_metric_line(u, t) == u);
    assert(apply_metric_lines(u, ls) == apply_metric_lines(apply_metric_line(u, ls[0]), ls.drop_first()));
    assert(ls[0] == t);
    assert(apply_metric_lines(u, seq![smp]) == apply_metric_lines(apply_metric_line(u, smp), Seq::<Seq<char>>::empty()));
}

/// A text that starts and ends with a non-space character trims to itself.
pub proof fn lemma_trim_nonblank(s: Seq<char>)
    requires
        s.len() > 0,
        !is_ws(s[0]),
        !is_ws(s.last()),
    ensures
        trim(s) == s,
        trim(s).len() > 0,
{
    assert(trim_start(s) == s);
    assert(trim_end(s) == s);
}

/// The sample line of a plain metric name splits into that name and the
/// decimal value, which reads back as the value.
pub proof fn lemma_sample_split(name: Seq<char>, v: u64)
    requires
        plain_name(name),
    ensures
        split_once(sample_line(name, v), ' ') == Some((name, decimal(v as nat))),
        parse_u64(decimal(v as nat)) == Some(v),
{
    reveal_strlit(" ");
    let smp = sample_line(name, v);
    assert(first_index_of(smp, ' ', name.len() as int)) by {
        assert forall|j: int| 0 <= j < name.len() implies smp[j] != ' ' by {
            assert(smp[j] == name[j]);
        }
    }
    lemma_find_char(smp, ' ', name.len() as int);
    assert(smp.subrange(0, name.len() as int) =~= name);
    assert(smp.subrange(name.len() as int + 1, smp.len() as int) =~= decimal(v as nat));
    lemma_parse_decimal(v);
}


/// The text of a list of metric blocks.
pub open spec fn render_blocks(bs: Seq<(Seq<char>, Seq<char>, u64)>) -> Seq<char>
    decreases bs.len(),
{
    if bs.len() == 0 {
        Seq::empty()
    } else {
        render_blocks(bs.drop_last()) + prom_block(bs.last().0, bs.last().1, bs.last().2)
    }
}

/// What reading a sample line `name value` does: one of the five mirrored
/// metrics takes the value (the peak memory follows the current one up).
pub open spec fn sample_effect(u: Metrics, name: Seq<char>, v: u64) -> Metrics {
    if name == "components_running"@ {
        Metrics { components_running: v, ..u }
    } else if name == "components_desired"@ {
        Metrics { components_desired: v, ..u }
    } else if name == "agent_restarts_total"@ {
        Metrics { restarts_total: v, ..u }
    } else if name == "agent_mem_current_bytes"@ {
        Metrics { mem_current_bytes: v, mem_peak_bytes: if v > u.mem_peak_bytes { v } else { u.mem_peak_bytes }, ..u }
    } else if name == "agent_fuel_used_total"@ {
        Metrics { fuel_used_total: v, ..u }
    } else {
        u
    }
}

/// Reading the sample lines of blocks in order.
pub open spec fn read_samples(u: Metrics, bs: Seq<(Seq<char>, Seq<char>, u64)>) -> Metrics
    decreases bs.len(),
{
    if bs.len() == 0 {
        u
    } else {
        sample_effect(read_samples(u, bs.drop_last()), bs.last().0, bs.last().2)
    }
}

pub proof fn lemma_sample_effect(u: Metrics, name: Seq<char>, v: u64)
    requires
        plain_name(name),
    ensures
        apply_metric_line(u, sample_line(name, v)) == sample_effect(u, name, v),
{
    reveal_strlit("#");
    reveal_strlit(" ");
    lemma_sample_split(name, v);
    lemma_decimal_digits(v as nat);
    let smp = sample_line(name, v);
    let dv = decimal(v as nat);
    assert(smp[0] == name[0]);
    assert(smp.last() == dv.last());
    assert(is_digit(dv[dv.len() - 1]));
    lemma_trim_nonblank(smp);
    assert(!starts_with(smp, "#"@)) by {
        assert(smp.subrange(0, 1)[0] == name[0]);
    }
}

/// The text of blocks ends with a newline when there is any.
pub proof fn lemma_render_blocks_end(bs: Seq<(Seq<char>, Seq<char>, u64)>)
    requires
        bs.len() > 0,
    ensures
        render_blocks(bs).len() > 0,
        render_blocks(bs).last() == '\n',
{
    reveal_strlit("\n");
    let l = bs.last();
    let pb = prom_block(l.0, l.1, l.2);
    assert(pb.last() == '\n');
}

/// Reading back a text of blocks reads their sample lines in order.
pub proof fn lemma_read_blocks(u: Metrics, bs: Seq<(Seq<char>, Seq<char>, u64)>)
    requires
        forall|i: int| 0 <= i < bs.len() ==> plain_name(#[trigger] bs[i].0) && plain_name(bs[i].1),
    ensures
        apply_metric_lines(u, lines(render_blocks(bs))) == read_samples(u, bs),
    decreases bs.len(),
{
    if bs.len() > 0 {
        let init = bs.drop_last();
        let l = bs.last();
        assert(bs[bs.len() - 1] == l);
        assert forall|i: int| 0 <= i < init.len() implies plain_name(#[trigger] init[i].0) && plain_name(init[i].1) by {
            assert(init[i] == bs[i]);
        }
        lemma_read_blocks(u, init);
        let pb = prom_block(l.0, l.1, l.2);
        lemma_block(read_samples(u, init), l.0, l.1, l.2);
        lemma_sample_effect(read_samples(u, init), l.0, l.2);
        if init.len() == 0 {
            assert(render_blocks(bs) =~= pb);
        } else {
            lemma_render_blocks_end(init);
            lemma_lines_append(render_blocks(init), pb);
            lemma_apply_append(u, lines(render_blocks(init)), lines(pb));
        }
    }
}

/// Is `name` one of the five metrics a reader takes over?
pub open spec fn mirrored(name: Seq<char>) -> bool {
    name == "components_running"@ || name == "components_desired"@ || name == "agent_restarts_total"@
        || name == "agent_mem_current_bytes"@ || name == "agent_fuel_used_total"@
}

/// Reading samples of metrics none of which is taken over changes nothing.
proof fn lemma_read_other(u: Metrics, bs: Seq<(Seq<char>, Seq<char>, u64)>)
    requires
        forall|i: int| 0 <= i < bs.len() ==> !mirrored(#[trigger] bs[i].0),
    ensures
        read_samples(u, bs) == u,
    decreases bs.len(),
{
    if bs.len() > 0 {
        assert forall|i: int| 0 <= i < bs.drop_last().len() implies !mirrored(#[trigger] bs.drop_last()[i].0) by {
            assert(bs.drop_last()[i] == bs[i]);
        }
        lemma_read_other(u, bs.drop_last());
        assert(!mirrored(bs[bs.len() - 1].0));
    }
}

/// Reading one sample.
proof fn lemma_read_one(u: Metrics, b: (Seq<char>, Seq<char>, u64))
    ensures
        read_samples(u, seq![b]) == sample_effect(u, b.0, b.2),
{
    assert(seq![b].drop_last() =~= Seq::<(Seq<char>, Seq<char>, u64)>::empty());
    assert(read_samples(u, Seq::<(Seq<char>, Seq<char>, u64)>::empty()) == u);
    assert(seq![b].last() == b);
}

/// The head group of exposed metrics: name, kind and value.
pub open spec fn head_blocks(m: Metrics) -> Seq<(Seq<char>, Seq<char>, u64)> {
    seq![
        ("agent_status_published_total"@, "counter"@, m.status_published_total),
        ("agent_status_publish_errors_total"@, "counter"@, m.status_publish_errors_total),
        ("agent_commands_received_total"@, "counter"@, m.commands_received_total),
        ("agent_run_ok_total"@, "counter"@, m.run_ok_total),
        ("agent_run_error_total"@, "counter"@, m.run_error_total),
        ("agent_manifest_accepted_total"@, "counter"@, m.manifest_accepted_total),
        ("agent_manifest_rejected_total"@, "counter"@, m.manifest_rejected_total),
        ("agent_upgrade_accepted_total"@, "counter"@, m.upgrade_accepted_total),
        ("agent_upgrade_rejected_total"@, "counter"@, m.upgrade_rejected_total),
    ]
}

proof fn lemma_head_group(m: Metrics, u: Metrics)
    ensures
        render_head(m) == render_blocks(head_blocks(m)),
        forall|i: int| 0 <= i < head_blocks(m).len() ==> plain_name(#[trigger] head_blocks(m)[i].0) && plain_name(head_blocks(m)[i].1),
        read_samples(u, head_blocks(m)) == u,
{
    reveal_strlit("agent_commands_received_total");
    reveal_strlit("agent_fuel_used_total");
    reveal_strlit("agent_manifest_accepted_total");
    reveal_strlit("agent_manifest_rejected_total");
    reveal_strlit("agent_mem_current_bytes");
    reveal_strlit("agent_restarts_total");
    reveal_strlit("agent_run_error_total");
    reveal_strlit("agent_run_ok_total");
    reveal_strlit("agent_status_publish_errors_total");
    reveal_strlit("agent_status_published_total");
    reveal_strlit("agent_upgrade_accepted_total");
    reveal_strlit("agent_upgrade_rejected_total");
    reveal_strlit("components_desired");
    reveal_strlit("components_running");
    reveal_strlit("counter");
    let bs = head_blocks(m);
    assert(render_head(m) =~= render_blocks(bs)) by {
        reveal_with_fuel(render_blocks, 10);
    }
    assert forall|i: int| 0 <= i < bs.len() implies plain_name(#[trigger] bs[i].0) && plain_name(bs[i].1) by {}
    assert("agent_run_ok_total"@[0] != "components_running"@[0]);
    assert("agent_run_ok_total"@[0] != "components_desired"@[0]);
    assert("agent_run_error_total"@[6] != "agent_fuel_used_total"@[6]);
    assert forall|i: int| 0 <= i < bs.len() implies !mirrored(#[trigger] bs[i].0) by {}
    lemma_read_other(u, bs);
}

/// The middle group of exposed metrics: name, kind and value.
pub open spec fn middle_blocks(m: Metrics) -> Seq<(Seq<char>, Seq<char>, u64)> {
    seq![
        ("agent_version"@, "gauge"@, m.agent_version),
        ("manifest_version"@, "gauge"@, m.manifest_version),
        ("components_running"@, "gauge"@, m.components_running),
        ("components_desired"@, "gauge"@, m.components_desired),
        ("components_drift"@, "gauge"@, sat_sub(m.components_desired, m.components_running)),
    ]
}

proof fn lemma_middle_group(m: Metrics, u: Metrics)
    ensures
        render_middle(m) == render_blocks(middle_blocks(m)),
        forall|i: int| 0 <= i < middle_blocks(m).len() ==> plain_name(#[trigger] middle_blocks(m)[i].0) && plain_name(middle_blocks(m)[i].1),
        read_samples(u, middle_blocks(m)) == (Metrics { components_running: m.components_running, components_desired: m.components_desired, ..u }),
{
    reveal_strlit("agent_fuel_used_total");
    reveal_strlit("agent_mem_current_bytes");
    reveal_strlit("agent_restarts_total");
    reveal_strlit("agent_version");
    reveal_strlit("components_desired");
    reveal_strlit("components_drift");
    reveal_strlit("components_running");
    reveal_strlit("gauge");
    reveal_strlit("manifest_version");
    let bs = middle_blocks(m);
    assert(render_middle(m) =~= render_blocks(bs)) by {
        reveal_with_fuel(render_blocks, 6);
    }
    assert forall|i: int| 0 <= i < bs.len() implies plain_name(#[trigger] bs[i].0) && plain_name(bs[i].1) by {}
    assert("components_desired"@[11] != "components_running"@[11]);
    let a = bs.subrange(0, 2);
    let r = bs[2];
    let d = bs[3];
    let c = bs.subrange(4, 5);
    assert(bs =~= a + seq![r] + seq![d] + c);
    assert forall|i: int| 0 <= i < a.len() implies !mirrored(#[trigger] a[i].0) by {}
    assert forall|i: int| 0 <= i < c.len() implies !mirrored(#[trigger] c[i].0) by {}
    lemma_read_other(u, a);
    let u1 = sample_effect(u, r.0, r.2);
    let u2 = sample_effect(u1, d.0, d.2);
    lemma_read_one(u, r);
    lemma_read_one(u1, d);
    lemma_read_other(u2, c);
    lemma_read_concat(u, a, seq![r]);
    lemma_read_concat(u, a + seq![r], seq![d]);
    lemma_read_concat(u, a + seq![r] + seq![d], c);
}

/// The tail group of exposed metrics: name, kind and value.
pub open spec fn tail_blocks(m: Metrics) -> Seq<(Seq<char>, Seq<char>, u64)> {
    seq![
        ("agent_restarts_total"@, "counter"@, m.restarts_total),
        ("agent_fuel_used_total"@, "counter"@, m.fuel_used_total),
        ("agent_mem_current_bytes"@, "gauge"@, m.mem_current_bytes),
        ("agent_mem_peak_bytes"@, "gauge"@, m.mem_peak_bytes),
        ("agent_msgs_per_sec"@, "gauge"@, m.msgs_per_sec),
        ("gateway_requests_total"@, "counter"@, m.gateway_requests_total),
        ("gateway_errors_total"@, "counter"@, m.gateway_errors_total),
        ("gateway_last_latency_ms"@, "gauge"@, m.gateway_last_latency_ms),
    ]
}

proof fn lemma_tail_group(m: Metrics, u: Metrics)
    ensures
        render_tail(m) == render_blocks(tail_blocks(m)),
        forall|i: int| 0 <= i < tail_blocks(m).len() ==> plain_name(#[trigger] tail_blocks(m)[i].0) && plain_name(tail_blocks(m)[i].1),
        read_samples(u, tail_blocks(m)) == (Metrics {
            restarts_total: m.restarts_total,
            fuel_used_total: m.fuel_used_total,
            mem_current_bytes: m.mem_current_bytes,
            mem_peak_bytes: if m.mem_current_bytes > u.mem_peak_bytes { m.mem_current_bytes } else { u.mem_peak_bytes },
            ..u
        }),
{
    reveal_strlit("agent_fuel_used_total");
    reveal_strlit("agent_mem_current_bytes");
    reveal_strlit("agent_mem_peak_bytes");
    reveal_strlit("agent_msgs_per_sec");
    reveal_strlit("agent_restarts_total");
    reveal_strlit("components_desired");
    reveal_strlit("components_running");
    reveal_strlit("counter");
    reveal_strlit("gateway_errors_total");
    reveal_strlit("gateway_last_latency_ms");
    reveal_strlit("gateway_requests_total");
    reveal_strlit("gauge");
    let bs = tail_blocks(m);
    assert(render_tail(m) =~= render_blocks(bs)) by {
        reveal_with_fuel(render_blocks, 9);
    }
    assert forall|i: int| 0 <= i < bs.len() implies plain_name(#[trigger] bs[i].0) && plain_name(bs[i].1) by {}
    assert("components_desired"@[11] != "components_running"@[11]);
    let r = bs[0];
    let f = bs[1];
    let c = bs[2];
    let o = bs.subrange(3, 8);
    assert(bs =~= seq![r] + seq![f] + seq![c] + o);
    assert("agent_mem_peak_bytes"@[6] != "agent_restarts_total"@[6]);
    assert("agent_msgs_per_sec"@[0] != "components_running"@[0]);
    assert("agent_msgs_per_sec"@[0] != "components_desired"@[0]);
    assert("gateway_errors_total"@[0] != "agent_restarts_total"@[0]);
    assert("gateway_last_latency_ms"@[0] != "agent_mem_current_bytes"@[0]);
    assert forall|i: int| 0 <= i < o.len() implies !mirrored(#[trigger] o[i].0) by {}
    let u1 = sample_effect(u, r.0, r.2);
    let u2 = sample_effect(u1, f.0, f.2);
    let u3 = sample_effect(u2, c.0, c.2);
    lemma_read_one(u, r);
    lemma_read_one(u1, f);
    lemma_read_one(u2, c);
    lemma_read_other(u3, o);
    lemma_read_concat(u, seq![r], seq![f]);
    lemma_read_concat(u, seq![r] + seq![f], seq![c]);
    lemma_read_concat(u, seq![r] + seq![f] + seq![c], o);
}

/// The text of a list of blocks followed by another.
proof fn lemma_render_concat(a: Seq<(Seq<char>, Seq<char>, u64)>, b: Seq<(Seq<char>, Seq<char>, u64)>)
    ensures
        render_blocks(a + b) == render_blocks(a) + render_blocks(b),
    decreases b.len(),
{
    if b.len() == 0 {
        assert(a + b =~= a);
        assert(render_blocks(a) + render_blocks(b) =~= render_blocks(a));
    } else {
        lemma_render_concat(a, b.drop_last());
        assert((a + b).drop_last() =~= a + b.drop_last());
        assert((a + b).last() == b.last());
    }
}

/// Reading the samples of a list of blocks followed by another.
proof fn lemma_read_concat(u: Metrics, a: Seq<(Seq<char>, Seq<char>, u64)>, b: Seq<(Seq<char>, Seq<char>, u64)>)
    ensures
        read_samples(u, a + b) == read_samples(read_samples(u, a), b),
    decreases b.len(),
{
    if b.len() == 0 {
        assert(a + b =~= a);
    } else {
        lemma_read_concat(u, a, b.drop_last());
        assert((a + b).drop_last() =~= a + b.drop_last());
        assert((a + b).last() == b.last());
    }
}

/// What a UI-side set of metrics `u` becomes when it reads the text an
/// agent with metrics `m` renders: the running and desired components, the
/// restarts, the current memory and the fuel used are the agent's; the peak
/// memory is raised to the agent's current memory when that is higher; all
/// else stays.
pub proof fn law_metrics_read_back(m: Metrics, u: Metrics)
    ensures
        apply_metric_lines(u, lines(render_spec(m))) == (Metrics {
            components_running: m.components_running,
            components_desired: m.components_desired,
            restarts_total: m.restarts_total,
            mem_current_bytes: m.mem_current_bytes,
            mem_peak_bytes: if m.mem_current_bytes > u.mem_peak_bytes { m.mem_current_bytes } else { u.mem_peak_bytes },
            fuel_used_total: m.fuel_used_total,
            ..u
        }),
{
    let h = head_blocks(m);
    let md = middle_blocks(m);
    let t = tail_blocks(m);
    let u1 = u;
    let u2 = Metrics { components_running: m.components_running, components_desired: m.components_desired, ..u };
    lemma_head_group(m, u);
    lemma_middle_group(m, u1);
    lemma_tail_group(m, u2);
    let bs = h + md + t;
    lemma_render_concat(h, md);
    lemma_render_concat(h + md, t);
    lemma_read_concat(u, h, md);
    lemma_read_concat(u, h + md, t);
    assert(render_spec(m) == render_blocks(bs));
    assert forall|i: int| 0 <= i < bs.len() implies plain_name(#[trigger] bs[i].0) && plain_name(bs[i].1) by {
        if i < h.len() {
            assert(bs[i] == h[i]);
        } else if i < h.len() + md.len() {
            assert(bs[i] == md[i - h.len()]);
        } else {
            assert(bs[i] == t[i - h.len() - md.len()]);
        }
    }
    lemma_read_blocks(u, bs);
}

/// The `# TYPE` line of a metric.
pub open spec fn type_line(name: Seq<char>, kind: Seq<char>) -> Seq<char> {
    "# TYPE "@ + name + " "@ + kind
}

/// The lines of a text of blocks: each block's `# TYPE` line, then its
/// sample line.
pub open spec fn block_lines(bs: Seq<(Seq<char>, Seq<char>, u64)>) -> Seq<Seq<char>>
    decreases bs.len(),
{
    if bs.len() == 0 {
        Seq::empty()
    } else {
        block_lines(bs.drop_last()) + seq![type_line(bs.last().0, bs.last().1), sample_line(bs.last().0, bs.last().2)]
    }
}

/// A block is two lines: its `# TYPE` line and its sample line.
#[verifier::spinoff_prover]
proof fn lemma_block_lines(name: Seq<char>, kind: Seq<char>, v: u64)
    requires
        plain_name(name),
        plain_name(kind),
    ensures
        lines(prom_block(name, kind, v)) == seq![type_line(name, kind), sample_line(name, v)],
{
    reveal_strlit("# TYPE ");
    reveal_strlit(" ");
    reveal_strlit("\n");
    lemma_decimal_digits(v as nat);
    let t = type_line(name, kind);
    let smp = sample_line(name, v);
    assert(prom_block(name, kind, v) =~= (t + "\n"@) + (smp + "\n"@));
    assert forall|j: int| 0 <= j < t.len() implies t[j] != '\n' by {
        if j >= 7 + name.len() + 1 {
            assert(t[j] == kind[j - 7 - name.len() - 1]);
        } else if j >= 7 && j < 7 + name.len() {
            assert(t[j] == name[j - 7]);
        }
    }
    let dv = decimal(v as nat);
    assert forall|j: int| 0 <= j < smp.len() implies smp[j] != '\n' by {
        if j >= name.len() + 1 {
            assert(smp[j] == dv[j - name.len() - 1]);
            assert(is_digit(dv[j - name.len() - 1]));
        } else if j < name.len() {
            assert(smp[j] == name[j]);
        }
    }
    lemma_lines_append(t + "\n"@, smp + "\n"@);
    lemma_lines_one(t);
    lemma_lines_one(smp);
    assert(t.last() == kind.last());
    assert(strip_cr(t) == t);
    assert(smp.last() == dv.last());
    assert(is_digit(dv[dv.len() - 1]));
    assert(strip_cr(smp) == smp);
    assert(seq![t] + seq![smp] =~= seq![t, smp]);
}

/// The lines of a text of blocks are their `# TYPE` and sample lines.
#[verifier::rlimit(40)]
proof fn lemma_blocks_lines(bs: Seq<(Seq<char>, Seq<char>, u64)>)
    requires
        forall|i: int| 0 <= i < bs.len() ==> plain_name(#[trigger] bs[i].0) && plain_name(bs[i].1),
    ensures
        lines(render_blocks(bs)) == block_lines(bs),
    decreases bs.len(),
{
    if bs.len() > 0 {
        let init = bs.drop_last();
        let l = bs.last();
        assert(bs[bs.len() - 1] == l);
        assert forall|i: int| 0 <= i < init.len() implies plain_name(#[trigger] init[i].0) && plain_name(init[i].1) by {
            assert(init[i] == bs[i]);
        }
        lemma_blocks_lines(init);
        lemma_block_lines(l.0, l.1, l.2);
        let pb = prom_block(l.0, l.1, l.2);
        if init.len() == 0 {
            assert(render_blocks(bs) =~= pb);
            assert(block_lines(init) =~= Seq::<Seq<char>>::empty());
            assert(block_lines(bs) =~= seq![type_line(l.0, l.1), sample_line(l.0, l.2)]);
        } else {
            assert(render_blocks(bs) == render_blocks(init) + pb);
            assert(block_lines(bs) == block_lines(init) + seq![type_line(l.0, l.1), sample_line(l.0, l.2)]);
            lemma_render_blocks_end(init);
            lemma_lines_append(render_blocks(init), pb);
        }
    }
}

/// Where each block's lines sit among the lines of blocks.
proof fn lemma_block_lines_index(bs: Seq<(Seq<char>, Seq<char>, u64)>)
    ensures
        block_lines(bs).len() == 2 * bs.len(),
        forall|i: int|
            0 <= i < bs.len() ==> block_lines(bs)[2 * i] == type_line(#[trigger] bs[i].0, bs[i].1)
                && block_lines(bs)[2 * i + 1] == sample_line(bs[i].0, bs[i].2),
    decreases bs.len(),
{
    if bs.len() > 0 {
        let init = bs.drop_last();
        lemma_block_lines_index(init);
        assert forall|i: int|
            0 <= i < bs.len() implies block_lines(bs)[2 * i] == type_line(#[trigger] bs[i].0, bs[i].1)
                && block_lines(bs)[2 * i + 1] == sample_line(bs[i].0, bs[i].2) by {
            if i < init.len() {
                assert(init[i] == bs[i]);
            }
        }
    }
}

/// The exposed metrics in order: name, kind and value.
pub open spec fn exposed_blocks(m: Metrics) -> Seq<(Seq<char>, Seq<char>, u64)> {
    head_blocks(m) + middle_blocks(m) + tail_blocks(m)
}

/// The Prometheus text is the text of the exposed blocks, whose names and
/// kinds are plain.
#[verifier::spinoff_prover]
#[verifier::rlimit(60)]
proof fn lemma_exposed(m: Metrics)
    ensures
        render_spec(m) == render_blocks(exposed_blocks(m)),
        forall|i: int|
            0 <= i < exposed_blocks(m).len() ==> plain_name(#[trigger] exposed_blocks(m)[i].0) && plain_name(
                exposed_blocks(m)[i].1,
            ),
{
    let h = head_blocks(m);
    let md = middle_blocks(m);
    let t = tail_blocks(m);
    let bs = h + md + t;
    lemma_head_group(m, m);
    lemma_middle_group(m, m);
    lemma_tail_group(m, m);
    lemma_render_concat(h, md);
    lemma_render_concat(h + md, t);
    assert(exposed_blocks(m) == bs);
    assert(render_spec(m) == render_blocks(bs));
    assert forall|i: int| 0 <= i < bs.len() implies plain_name(#[trigger] bs[i].0) && plain_name(bs[i].1) by {
        if i < h.len() {
            assert(bs[i] == h[i]);
        } else if i < h.len() + md.len() {
            assert(bs[i] == md[i - h.len()]);
        } else {
            assert(bs[i] == t[i - h.len() - md.len()]);
        }
    }
}

/// The Prometheus text of any metrics holds its 22 metrics as 44 lines,
/// ending in a newline: for the `i`-th metric, line `2i` is its
/// `# TYPE <name> <kind>` line and line `2i + 1` its `<name> <value>` line.
#[verifier::spinoff_prover]
#[verifier::rlimit(40)]
pub proof fn law_render_lines(m: Metrics)
    ensures
        exposed_blocks(m).len() == 22,
        render_spec(m).len() > 0,
        render_spec(m).last() == '\n',
        lines(render_spec(m)).len() == 44,
        forall|i: int|
            0 <= i < 22 ==> lines(render_spec(m))[2 * i] == type_line(
                #[trigger] exposed_blocks(m)[i].0,
                exposed_blocks(m)[i].1,
            ) && lines(render_spec(m))[2 * i + 1] == sample_line(exposed_blocks(m)[i].0, exposed_blocks(m)[i].2),
{
    let bs = exposed_blocks(m);
    lemma_exposed(m);
    lemma_blocks_lines(bs);
    lemma_block_lines_index(bs);
    lemma_render_blocks_end(bs);
}

} // verus!
