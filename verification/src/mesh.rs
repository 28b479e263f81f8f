//! Decisions the agent takes on mesh traffic: whether a broadcast package or
//! job is meant for this node, how run outcomes update the counters, when a
//! pending job broadcast is sent again, how chunked uploads are put back
//! together, and what this node announces.
use vstd::prelude::*;
use vstd::string::*;

use crate::metrics::{wrap_add, Metrics};
use crate::text::{
    decimal, is_ws, parse_u64, parse_u64_str, split_all, split_char, starts_with, str_eq,
    str_starts_with,
};
use crate::web::{clone_strings, Status};

verus! {

/// Does `s` hold `x`?
pub open spec fn in_list(s: Seq<Seq<char>>, x: Seq<char>) -> bool {
    exists|i: int| 0 <= i < s.len() && s[i] == x
}

pub fn contains_str(v: &Vec<String>, x: &str) -> (r: bool)
    ensures
        r == in_list(v.deep_view(), x@),
{
    let mut i: usize = 0;
    while i < v.len()
        invariant
            i <= v@.len(),
            forall|k: int| 0 <= k < i ==> v@[k]@ != x@,
        decreases v.len() - i,
    {
        if str_eq(v[i].as_str(), x) {
            assert(v.deep_view()[i as int] == x@);
            return true;
        }
        i = i + 1;
    }
    assert forall|k: int| 0 <= k < v@.len() implies v.deep_view()[k] != x@ by {
        assert(v.deep_view()[k] == v@[k]@);
    }
    false
}

/// Do the two lists share an element?
pub open spec fn overlap(a: Seq<Seq<char>>, b: Seq<Seq<char>>) -> bool {
    exists|i: int| 0 <= i < a.len() && in_list(b, #[trigger] a[i])
}

pub fn any_shared(a: &Vec<String>, b: &Vec<String>) -> (r: bool)
    ensures
        r == overlap(a.deep_view(), b.deep_view()),
{
    let mut i: usize = 0;
    while i < a.len()
        invariant
            i <= a@.len(),
            forall|k: int| 0 <= k < i ==> !in_list(b.deep_view(), #[trigger] a.deep_view()[k]),
        decreases a.len() - i,
    {
        if contains_str(b, a[i].as_str()) {
            assert(a.deep_view()[i as int] == a@[i as int]@);
            return true;
        }
        assert(a.deep_view()[i as int] == a@[i as int]@);
        i = i + 1;
    }
    false
}

/// Is a package addressed to peers `ids` and tags `tags` meant for node
/// `local_id` with roles `roles`? Each non-empty list must name the node
/// (its id, or one of its roles).
pub open spec fn targeted(local_id: Seq<char>, roles: Seq<Seq<char>>, ids: Seq<Seq<char>>, tags: Seq<Seq<char>>) -> bool {
    (ids.len() == 0 || in_list(ids, local_id)) && (tags.len() == 0 || overlap(tags, roles))
}

pub fn is_targeted(local_id: &str, roles: &Vec<String>, ids: &Vec<String>, tags: &Vec<String>) -> (r: bool)
    ensures
        r == targeted(local_id@, roles.deep_view(), ids.deep_view(), tags.deep_view()),
{
    let mut selected = true;
    if ids.len() > 0 {
        selected = contains_str(ids, local_id);
    }
    if selected && tags.len() > 0 {
        selected = any_shared(tags, roles);
    }
    selected
}

/// Is a pushed component taken by this node? It must be targeted at it,
/// and a node with the `ui` role never runs pushed components.
pub fn push_selected(local_id: &str, roles: &Vec<String>, ids: &Vec<String>, tags: &Vec<String>) -> (r: bool)
    ensures
        r == (targeted(local_id@, roles.deep_view(), ids.deep_view(), tags.deep_view()) && !in_list(
            roles.deep_view(),
            "ui"@,
        )),
{
    is_targeted(local_id, roles, ids, tags) && !contains_str(roles, "ui")
}

/// Is an agent upgrade taken by this node? It must be targeted at it, and
/// a package for a named platform must name the host's `os/arch`.
pub fn upgrade_selected(
    local_id: &str,
    roles: &Vec<String>,
    ids: &Vec<String>,
    tags: &Vec<String>,
    target_platform: Option<&str>,
    host_platform: &str,
) -> (r: bool)
    ensures
        r == (targeted(local_id@, roles.deep_view(), ids.deep_view(), tags.deep_view()) && match target_platform {
            Some(p) => p@ == host_platform@,
            None => true,
        }),
{
    let selected = is_targeted(local_id, roles, ids, tags);
    if selected {
        match target_platform {
            Some(p) => str_eq(host_platform, p),
            None => true,
        }
    } else {
        false
    }
}

/// Is a job with targeting (`platform`, `tags`, `node_ids`) eligible to run
/// on this node? Each given criterion must hold: the host platform, a
/// shared role, the node's id.
pub fn job_eligible(
    host_platform: &str,
    roles: &Vec<String>,
    node_id: &str,
    platform: Option<&str>,
    tags: &Vec<String>,
    node_ids: &Vec<String>,
) -> (r: bool)
    ensures
        r == ((match platform {
            Some(p) => p@ == host_platform@,
            None => true,
        }) && (tags@.len() == 0 || overlap(tags.deep_view(), roles.deep_view())) && (node_ids@.len() == 0
            || in_list(node_ids.deep_view(), node_id@))),
{
    let mut eligible = true;
    match platform {
        Some(p) => {
            if !str_eq(host_platform, p) {
                eligible = false;
            }
        },
        None => {},
    }
    if eligible && tags.len() > 0 {
        eligible = any_shared(tags, roles);
    }
    if eligible && node_ids.len() > 0 {
        eligible = contains_str(node_ids, node_id);
    }
    eligible
}

/// The first whitespace-separated word of `s` (`split_whitespace().next()`).
pub open spec fn first_word(s: Seq<char>) -> Option<Seq<char>>
    decreases s.len(),
{
    if s.len() == 0 {
        None
    } else if is_ws(s[0]) {
        first_word(s.drop_first())
    } else {
        Some(word_prefix(s))
    }
}

/// The characters of `s` up to its first whitespace.
pub open spec fn word_prefix(s: Seq<char>) -> Seq<char>
    decreases s.len(),
{
    if s.len() == 0 || is_ws(s[0]) {
        Seq::empty()
    } else {
        seq![s[0]] + word_prefix(s.drop_first())
    }
}

pub(crate) fn first_word_str(s: &str) -> (r: Option<&str>)
    ensures
        match r {
            Some(w) => first_word(s@) == Some(w@),
            None => first_word(s@) is None,
        },
{
    let n = s.unicode_len();
    let mut i: usize = 0;
    assert(s@.subrange(0, n as int) =~= s@);
    while i < n && crate::text::char_is_ws(s.get_char(i))
        invariant
            n == s@.len(),
            i <= n,
            first_word(s@) == first_word(s@.subrange(i as int, n as int)),
        decreases n - i,
    {
        assert(s@.subrange(i as int, n as int).drop_first() =~= s@.subrange(i + 1, n as int));
        i = i + 1;
    }
    if i == n {
        return None;
    }
    let start = i;
    let ghost w = s@.subrange(start as int, n as int);
    assert(first_word(w) == Some(word_prefix(w)));
    while i < n && !crate::text::char_is_ws(s.get_char(i))
        invariant
            n == s@.len(),
            start <= i <= n,
            w == s@.subrange(start as int, n as int),
            word_prefix(w) == s@.subrange(start as int, i as int) + word_prefix(s@.subrange(i as int, n as int)),
        decreases n - i,
    {
        let ghost rest = s@.subrange(i as int, n as int);
        assert(rest.drop_first() =~= s@.subrange(i + 1, n as int));
        assert(s@.subrange(start as int, i + 1) =~= s@.subrange(start as int, i as int) + seq![s@[i as int]]);
        i = i + 1;
    }
    proof {
        let rest = s@.subrange(i as int, n as int);
        assert(word_prefix(rest) =~= Seq::<char>::empty());
        assert(s@.subrange(start as int, i as int) + Seq::<char>::empty() =~= s@.subrange(start as int, i as int));
    }
    Some(s.substring_char(start, i))
}

/// The counters after a run outcome message: `run ok:`, `manifest accepted
/// v<N>` (which also sets the manifest version from its last `v` part) and
/// `upgrade accepted v<N>` (the agent version from its second part) on
/// success; `run error:`, `manifest rejected ` and `upgrade rejected ` on
/// failure; anything else changes nothing.
pub open spec fn after_outcome(m: Metrics, ok: bool, msg: Seq<char>) -> Metrics {
    if ok {
        if starts_with(msg, "run ok:"@) {
            Metrics { run_ok_total: wrap_add(m.run_ok_total, 1), ..m }
        } else if starts_with(msg, "manifest accepted v"@) {
            let n = Metrics { manifest_accepted_total: wrap_add(m.manifest_accepted_total, 1), ..m };
            match first_word(split_all(msg, 'v').last()) {
                Some(w) => match parse_u64(w) {
                    Some(v) => Metrics { manifest_version: v, ..n },
                    None => n,
                },
                None => n,
            }
        } else if starts_with(msg, "upgrade accepted v"@) {
            let n = Metrics { upgrade_accepted_total: wrap_add(m.upgrade_accepted_total, 1), ..m };
            match first_word(split_all(msg, 'v')[1]) {
                Some(w) => match parse_u64(w) {
                    Some(v) => Metrics { agent_version: v, ..n },
                    None => n,
                },
                None => n,
            }
        } else {
            m
        }
    } else {
        if starts_with(msg, "run error:"@) {
            Metrics { run_error_total: wrap_add(m.run_error_total, 1), ..m }
        } else if starts_with(msg, "manifest rejected "@) {
            Metrics { manifest_rejected_total: wrap_add(m.manifest_rejected_total, 1), ..m }
        } else if starts_with(msg, "upgrade rejected "@) {
            Metrics { upgrade_rejected_total: wrap_add(m.upgrade_rejected_total, 1), ..m }
        } else {
            m
        }
    }
}

fn inc(x: u64) -> (r: u64)
    ensures
        r == wrap_add(x, 1),
{
    if x == u64::MAX {
        0
    } else {
        x + 1
    }
}

/// Count a run outcome (see `after_outcome`).
pub fn record_outcome(m: &mut Metrics, ok: bool, msg: &str)
    ensures
        *final(m) == after_outcome(*old(m), ok, msg@),
{
    proof {
        reveal_strlit("manifest accepted v");
        reveal_strlit("upgrade accepted v");
    }
    if ok {
        if str_starts_with(msg, "run ok:") {
            m.run_ok_total = inc(m.run_ok_total);
        } else if str_starts_with(msg, "manifest accepted v") {
            m.manifest_accepted_total = inc(m.manifest_accepted_total);
            let parts = split_char(msg, 'v');
            proof {
                assert(parts@.len() > 0);
                assert(parts@[parts@.len() - 1]@ == split_all(msg@, 'v').last());
            }
            match first_word_str(parts[parts.len() - 1]) {
                Some(w) => match parse_u64_str(w) {
                    Some(v) => {
                        m.manifest_version = v;
                    },
                    None => {},
                },
                None => {},
            }
        } else if str_starts_with(msg, "upgrade accepted v") {
            m.upgrade_accepted_total = inc(m.upgrade_accepted_total);
            let parts = split_char(msg, 'v');
            proof {
                lemma_split_has_second(msg@);
            }
            match first_word_str(parts[1]) {
                Some(w) => match parse_u64_str(w) {
                    Some(v) => {
                        m.agent_version = v;
                    },
                    None => {},
                },
                None => {},
            }
        }
    } else {
        if str_starts_with(msg, "run error:") {
            m.run_error_total = inc(m.run_error_total);
        } else if str_starts_with(msg, "manifest rejected ") {
            m.manifest_rejected_total = inc(m.manifest_rejected_total);
        } else if str_starts_with(msg, "upgrade rejected ") {
            m.upgrade_rejected_total = inc(m.upgrade_rejected_total);
        }
    }
}

/// A message starting `upgrade accepted v` splits at `v` into at least two
/// parts.
proof fn lemma_split_has_second(msg: Seq<char>)
    requires
        starts_with(msg, "upgrade accepted v"@),
    ensures
        split_all(msg, 'v').len() > 1,
{
    reveal_strlit("upgrade accepted v");
    assert(msg.subrange(0, 18) == "upgrade accepted v"@);
    assert(msg.subrange(0, 18)[17] == 'v');
    assert(msg[17] == 'v');
    lemma_split_count(msg, 'v', 17);
}

/// A text holding `c` splits into more than one part.
proof fn lemma_split_count(s: Seq<char>, c: char, k: int)
    requires
        0 <= k < s.len(),
        s[k] == c,
    ensures
        split_all(s, c).len() > 1,
{
    crate::mesh::lemma_has_first(s, c, k);
    let i = crate::text::find_char(s, c)->0;
    assert(split_all(s, c) == seq![s.subrange(0, i)] + split_all(s.subrange(i + 1, s.len() as int), c));
    lemma_split_nonempty(s.subrange(i + 1, s.len() as int), c);
}

proof fn lemma_has_first(s: Seq<char>, c: char, k: int)
    requires
        0 <= k < s.len(),
        s[k] == c,
    ensures
        crate::text::find_char(s, c) matches Some(i) && 0 <= i < s.len(),
    decreases k,
{
    if exists|j: int| 0 <= j < k && s[j] == c {
        let j = choose|j: int| 0 <= j < k && s[j] == c;
        lemma_has_first(s, c, j);
    } else {
        assert(crate::text::first_index_of(s, c, k));
        crate::text::lemma_find_char(s, c, k);
    }
}

proof fn lemma_split_nonempty(s: Seq<char>, c: char)
    ensures
        split_all(s, c).len() >= 1,
    decreases s.len(),
{
    match crate::text::find_char(s, c) {
        Some(i) => {
            if 0 <= i < s.len() {
                lemma_split_nonempty(s.subrange(i + 1, s.len() as int), c);
            }
        },
        None => {},
    }
}

/// Seconds to wait before sending a pending job broadcast again: half the
/// backoff (1, 2, 4, ... seconds by retry, at most 32) plus a random part of
/// at most that half, and never less than a second.
pub open spec fn retry_delay(retry_count: u32, jitter: u64) -> int {
    let backoff: u64 = if retry_count >= 5 { 32 } else { vstd::arithmetic::power2::pow2(retry_count as nat) as u64 };
    let d = backoff / 2 + jitter;
    if d < 1 {
        1
    } else {
        d
    }
}

/// The backoff of a retry count: 2^retry, capped at 32 seconds.
pub fn backoff_secs(retry_count: u32) -> (r: u64)
    ensures
        r == (if retry_count >= 5 { 32 } else { vstd::arithmetic::power2::pow2(retry_count as nat) as u64 }),
        r <= 32,
{
    proof {
        vstd::arithmetic::power2::lemma2_to64();
    }
    if retry_count >= 5 {
        32
    } else if retry_count == 0 {
        1
    } else if retry_count == 1 {
        2
    } else if retry_count == 2 {
        4
    } else if retry_count == 3 {
        8
    } else {
        16
    }
}

/// Send a pending broadcast again? Only when peers are connected and the
/// delay for its retry count (with `jitter`, drawn by the caller from 0 to
/// half the backoff) has passed since the last send.
pub fn should_resend(peers_connected: bool, since_last_send_secs: u64, retry_count: u32, jitter: u64) -> (r: bool)
    requires
        jitter <= 16,
    ensures
        r == (peers_connected && since_last_send_secs >= retry_delay(retry_count, jitter)),
{
    let backoff = backoff_secs(retry_count);
    let half = backoff / 2;
    let mut delay = half + jitter;
    if delay < 1 {
        delay = 1;
    }
    peers_connected && since_last_send_secs >= delay
}

/// How long a node waits before running a job whose artifact it lacks while
/// peers hold it: 500 ms plus a share (below 1.5 s) fixed by the first four
/// hex digits of the SHA-256 of its id, so that holders start first.
pub open spec fn locality_delay(node_hash_prefix: u64) -> u64 {
    (500 + node_hash_prefix % 1500) as u64
}

/// The value of hexadecimal digits (`u64::from_str_radix(.., 16)` on at
/// most four digits).
pub open spec fn hex4_value(s: Seq<char>) -> Option<u64>
    decreases s.len(),
{
    if s.len() == 0 {
        Some(0)
    } else {
        match (hex4_value(s.drop_last()), crate::ci::hex_value(s.last())) {
            (Some(v), Some(d)) => Some((v * 16 + d) as u64),
            _ => None,
        }
    }
}

/// The start delay of a job on node `node_id` (milliseconds): none when the
/// node holds the artifact or no peer does; otherwise the locality delay.
pub fn job_start_delay_ms(node_id: &str, has_local: bool, peers_with: usize) -> (r: u64)
    ensures
        (has_local || peers_with == 0) ==> r == 0,
        !(has_local || peers_with == 0) ==> r == locality_delay(
            match hex4_value(crate::digest::sha256_hex_spec(vstd::utf8::encode_utf8(node_id@)).subrange(0, 4)) {
                Some(v) => v,
                None => 0,
            },
        ),
{
    if has_local || peers_with == 0 {
        return 0;
    }
    let h = crate::digest::sha256_hex(node_id.as_bytes());
    let nib: u64 = match hex_prefix_value(h.as_str()) {
        Some(v) => v,
        None => 0,
    };
    500 + nib % 1500
}

fn hex_prefix_value(h: &str) -> (r: Option<u64>)
    requires
        h@.len() >= 4,
    ensures
        r == hex4_value(h@.subrange(0, 4)),
{
    let mut v: u64 = 0;
    let mut i: usize = 0;
    assert(h@.subrange(0, 0) =~= Seq::<char>::empty());
    while i < 4
        invariant
            h@.len() >= 4,
            i <= 4,
            hex4_value(h@.subrange(0, i as int)) == Some(v),
            v < pow16(i as nat),
        decreases 4 - i,
    {
        proof {
            assert(h@.subrange(0, i + 1).drop_last() =~= h@.subrange(0, i as int));
            assert(pow16(0) == 1);
            assert(pow16(1) == 16);
            assert(pow16(2) == 256);
            assert(pow16(3) == 4096);
            lemma_pow16_mono(i as nat, 3);
        }
        let c = h.get_char(i);
        let d: u64 = if '0' <= c && c <= '9' {
            (c as u32 - '0' as u32) as u64
        } else if 'a' <= c && c <= 'f' {
            (c as u32 - 'a' as u32 + 10) as u64
        } else if 'A' <= c && c <= 'F' {
            (c as u32 - 'A' as u32 + 10) as u64
        } else {
            proof {
                assert(hex4_value(h@.subrange(0, i + 1)) is None);
                lemma_hex4_none_extends(h@.subrange(0, 4), i as int + 1);
            }
            return None;
        };
        v = v * 16 + d;
        i = i + 1;
    }
    Some(v)
}

/// 16 to the power `i`.
pub open spec fn pow16(i: nat) -> nat
    decreases i,
{
    if i == 0 {
        1
    } else {
        16 * pow16((i - 1) as nat)
    }
}

proof fn lemma_pow16_mono(i: nat, j: nat)
    requires
        i <= j,
    ensures
        pow16(i) <= pow16(j),
    decreases j,
{
    if i < j {
        lemma_pow16_mono(i, (j - 1) as nat);
    }
}

proof fn lemma_hex4_none_extends(s: Seq<char>, k: int)
    requires
        0 <= k <= s.len(),
        hex4_value(s.subrange(0, k)) is None,
    ensures
        hex4_value(s) is None,
    decreases s.len() - k,
{
    if k < s.len() {
        assert(s.subrange(0, k + 1).drop_last() =~= s.subrange(0, k));
        lemma_hex4_none_extends(s, k + 1);
    } else {
        assert(s.subrange(0, k) =~= s);
    }
}

/// The peers a node announces: its bootstrap peers, then each known peer
/// not among them yet.
pub open spec fn announce_list(bootstrap: Seq<Seq<char>>, known: Seq<Seq<char>>) -> Seq<Seq<char>>
    decreases known.len(),
{
    if known.len() == 0 {
        bootstrap
    } else {
        let prev = announce_list(bootstrap, known.drop_last());
        if in_list(prev, known.last()) {
            prev
        } else {
            prev.push(known.last())
        }
    }
}

pub fn peers_to_announce(bootstrap: &Vec<String>, known: &Vec<String>) -> (r: Vec<String>)
    ensures
        r.deep_view() == announce_list(bootstrap.deep_view(), known.deep_view()),
{
    let mut peers = clone_strings(bootstrap);
    let ghost kv = known.deep_view();
    let mut i: usize = 0;
    assert(kv.subrange(0, 0) =~= Seq::<Seq<char>>::empty());
    while i < known.len()
        invariant
            kv == known.deep_view(),
            i <= known@.len(),
            peers.deep_view() == announce_list(bootstrap.deep_view(), kv.subrange(0, i as int)),
        decreases known.len() - i,
    {
        proof {
            assert(kv.subrange(0, i + 1).drop_last() =~= kv.subrange(0, i as int));
            assert(kv.subrange(0, i + 1).last() == known@[i as int]@);
        }
        if !contains_str(&peers, known[i].as_str()) {
            let ghost before = peers.deep_view();
            peers.push(known[i].clone());
            assert(peers.deep_view() =~= before.push(known@[i as int]@));
        }
        i = i + 1;
    }
    assert(kv.subrange(0, kv.len() as int) =~= kv);
    peers
}

/// Largest blob answered inline to a storage request (8 MiB).
pub open spec fn inline_blob_limit() -> u64 {
    8388608
}

pub fn serve_inline(size: u64) -> (r: bool)
    ensures
        r == (size <= inline_blob_limit()),
{
    size <= 8 * 1024 * 1024
}

/// The status this node publishes, from its counters: `drift` is desired
/// minus running components (as 64-bit signed values, wrapping).
pub fn local_status(
    node_id: String,
    msg: String,
    metrics: &Metrics,
    cpu_percent: u64,
    mem_percent: u64,
    roles: &Vec<String>,
    trusted_owner: Option<String>,
    links: u64,
) -> (r: Status)
    ensures
        r.node_id == node_id,
        r.msg == msg,
        r.agent_version == metrics.agent_version,
        r.components_desired == metrics.components_desired,
        r.components_running == metrics.components_running,
        r.cpu_percent == cpu_percent,
        r.mem_percent == mem_percent,
        r.tags.deep_view() == roles.deep_view(),
        r.drift == (metrics.components_desired as i64).wrapping_sub(metrics.components_running as i64),
        r.trusted_owner_pub_bs58 == trusted_owner,
        r.links == links,
{
    let d = metrics.components_desired as i64;
    let g = metrics.components_running as i64;
    let drift = d.wrapping_sub(g);
    Status {
        node_id,
        msg,
        agent_version: metrics.agent_version,
        components_desired: metrics.components_desired,
        components_running: metrics.components_running,
        cpu_percent,
        mem_percent,
        tags: clone_strings(roles),
        drift,
        trusted_owner_pub_bs58: trusted_owner,
        links,
    }
}

} // verus!
