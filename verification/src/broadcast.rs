//! The book of job status broadcasts awaiting acknowledgement: each is
//! resent with backoff until every peer it went to has acknowledged it, and
//! entries that linger too long, or exceed the book's capacity, are dropped
//! oldest first.
use vstd::prelude::*;

use crate::mesh::{backoff_secs, retry_delay, should_resend};
use crate::text::str_eq;

verus! {

/// One job status broadcast awaiting acknowledgement: its key (job, status,
/// message id), the serialised message, the peers that have not
/// acknowledged it, when it was first sent and last sent (milliseconds of
/// the caller's monotonic clock), and how often it was resent.
pub struct PendingBroadcast {
    pub job_id: String,
    pub status: String,
    pub message_id: String,
    pub payload: Vec<u8>,
    pub peers: Vec<String>,
    pub created_ms: u64,
    pub last_sent_ms: u64,
    pub retry_count: u32,
}

pub type BroadcastKey = (Seq<char>, Seq<char>, Seq<char>);

pub struct PendingView {
    pub key: BroadcastKey,
    pub payload: Seq<u8>,
    pub peers: Seq<Seq<char>>,
    pub created_ms: u64,
    pub last_sent_ms: u64,
    pub retry_count: u32,
}

impl View for PendingBroadcast {
    type V = PendingView;

    open spec fn view(&self) -> PendingView {
        PendingView {
            key: (self.job_id@, self.status@, self.message_id@),
            payload: self.payload@,
            peers: self.peers.deep_view(),
            created_ms: self.created_ms,
            last_sent_ms: self.last_sent_ms,
            retry_count: self.retry_count,
        }
    }
}

/// The pending broadcasts, one per key.
pub struct PendingBook {
    pub entries: Vec<PendingBroadcast>,
}

impl View for PendingBook {
    type V = Seq<PendingView>;

    open spec fn view(&self) -> Seq<PendingView> {
        self.entries@.map_values(|e: PendingBroadcast| e@)
    }
}

/// No key occurs twice.
pub open spec fn distinct_keys(s: Seq<PendingView>) -> bool {
    forall|i: int, j: int| 0 <= i < j < s.len() ==> s[i].key != s[j].key
}

pub open spec fn key_pos(s: Seq<PendingView>, k: BroadcastKey, i: int) -> bool {
    0 <= i < s.len() && s[i].key == k
}

/// Where the entry of key `k` is, if there is one.
pub open spec fn find_key(s: Seq<PendingView>, k: BroadcastKey) -> Option<int> {
    if exists|i: int| key_pos(s, k, i) {
        Some(choose|i: int| key_pos(s, k, i))
    } else {
        None
    }
}

pub proof fn lemma_find_key(s: Seq<PendingView>, k: BroadcastKey, i: int)
    requires
        distinct_keys(s),
        key_pos(s, k, i),
    ensures
        find_key(s, k) == Some(i),
{
    let j = choose|j: int| key_pos(s, k, j);
    assert(key_pos(s, k, j));
    if j < i {
        assert(s[j].key != s[i].key);
    }
    if i < j {
        assert(s[i].key != s[j].key);
    }
}

/// A broadcast just sent at `now_ms` to `peers`.
pub open spec fn fresh(key: BroadcastKey, payload: Seq<u8>, peers: Seq<Seq<char>>, now_ms: u64) -> PendingView {
    PendingView { key, payload, peers, created_ms: now_ms, last_sent_ms: now_ms, retry_count: 0 }
}

/// Any peer but `from`.
pub open spec fn other_than(from: Seq<char>) -> spec_fn(Seq<char>) -> bool {
    |p: Seq<char>| p != from
}

/// The peers still waited for once `from` has acknowledged.
pub open spec fn without_peer(peers: Seq<Seq<char>>, from: Seq<char>) -> Seq<Seq<char>> {
    peers.filter(other_than(from))
}

/// The peers of a list other than `from`, in order.
fn peers_without(peers: &Vec<String>, from: &str) -> (r: Vec<String>)
    ensures
        r.deep_view() == without_peer(peers.deep_view(), from@),
{
    let ghost pv = peers.deep_view();
    let ghost pred = other_than(from@);
    let mut out: Vec<String> = Vec::new();
    let mut i: usize = 0;
    proof {
        reveal(Seq::filter);
        assert(pv.subrange(0, 0) =~= Seq::<Seq<char>>::empty());
    }
    while i < peers.len()
        invariant
            pv == peers.deep_view(),
            pred == other_than(from@),
            i <= peers@.len(),
            out.deep_view() == pv.subrange(0, i as int).filter(pred),
        decreases peers.len() - i,
    {
        let ghost before = out.deep_view();
        proof {
            assert(pv[i as int] == peers@[i as int]@);
            assert(pv.subrange(0, i + 1) =~= pv.subrange(0, i as int).push(pv[i as int]));
            pv.subrange(0, i as int).lemma_filter_push(pv[i as int], pred);
        }
        if !str_eq(peers[i].as_str(), from) {
            out.push(peers[i].clone());
            assert(out.deep_view() =~= before.push(pv[i as int]));
        }
        i = i + 1;
    }
    assert(pv.subrange(0, pv.len() as int) =~= pv);
    out
}

impl PendingBook {
    pub open spec fn wf(&self) -> bool {
        distinct_keys(self@)
    }

    pub fn new() -> (r: PendingBook)
        ensures
            r@ == Seq::<PendingView>::empty(),
            r.wf(),
    {
        let r = PendingBook { entries: Vec::new() };
        assert(r@ =~= Seq::<PendingView>::empty());
        r
    }

    fn find(&self, job_id: &str, status: &str, message_id: &str) -> (r: Option<usize>)
        ensures
            match r {
                Some(i) => key_pos(self@, (job_id@, status@, message_id@), i as int),
                None => find_key(self@, (job_id@, status@, message_id@)) is None,
            },
    {
        let ghost k = (job_id@, status@, message_id@);
        let mut i: usize = 0;
        while i < self.entries.len()
            invariant
                k == (job_id@, status@, message_id@),
                i <= self@.len(),
                forall|j: int| 0 <= j < i ==> !key_pos(self@, k, j),
            decreases self.entries.len() - i,
        {
            let e = &self.entries[i];
            proof {
                assert(self@[i as int] == self.entries@[i as int]@);
            }
            if str_eq(e.job_id.as_str(), job_id) && str_eq(e.status.as_str(), status) && str_eq(
                e.message_id.as_str(),
                message_id,
            ) {
                return Some(i);
            }
            i = i + 1;
        }
        None
    }

    /// Record a broadcast of `payload` sent at `now_ms` to `peers`, under
    /// its key; an entry with the same key is replaced.
    pub fn track(
        &mut self,
        job_id: String,
        status: String,
        message_id: String,
        payload: Vec<u8>,
        peers: Vec<String>,
        now_ms: u64,
    )
        requires
            old(self).wf(),
        ensures
            final(self).wf(),
            ({
                let f = fresh((job_id@, status@, message_id@), payload@, peers.deep_view(), now_ms);
                match find_key(old(self)@, f.key) {
                    Some(i) => final(self)@ == old(self)@.update(i, f),
                    None => final(self)@ == old(self)@.push(f),
                }
            }),
    {
        let ghost f = fresh((job_id@, status@, message_id@), payload@, peers.deep_view(), now_ms);
        let ghost before = self@;
        let found = self.find(job_id.as_str(), status.as_str(), message_id.as_str());
        let entry = PendingBroadcast {
            job_id,
            status,
            message_id,
            payload,
            peers,
            created_ms: now_ms,
            last_sent_ms: now_ms,
            retry_count: 0,
        };
        match found {
            Some(i) => {
                proof {
                    lemma_find_key(before, f.key, i as int);
                }
                self.entries.set(i, entry);
                assert(self@ =~= before.update(i as int, f));
                assert forall|a: int, b: int| 0 <= a < b < self@.len() implies self@[a].key != self@[b].key by {
                    assert(before[a].key != before[b].key);
                }
            },
            None => {
                self.entries.push(entry);
                assert(self@ =~= before.push(f));
                assert forall|a: int, b: int| 0 <= a < b < self@.len() implies self@[a].key != self@[b].key by {
                    if b == before.len() {
                        assert(!key_pos(before, f.key, a));
                    }
                }
            },
        }
    }

    /// Peer `from` acknowledged the broadcast of a key: it is no longer
    /// waited for, and the entry goes once no peer is.
    pub fn acknowledge(&mut self, job_id: &str, status: &str, message_id: &str, from: &str)
        requires
            old(self).wf(),
        ensures
            final(self).wf(),
            match find_key(old(self)@, (job_id@, status@, message_id@)) {
                Some(i) => {
                    let np = without_peer(old(self)@[i].peers, from@);
                    if np.len() == 0 {
                        final(self)@ == old(self)@.remove(i)
                    } else {
                        final(self)@ == old(self)@.update(i, PendingView { peers: np, ..old(self)@[i] })
                    }
                },
                None => final(self)@ == old(self)@,
            },
    {
        let ghost before = self@;
        match self.find(job_id, status, message_id) {
            Some(i) => {
                proof {
                    lemma_find_key(before, (job_id@, status@, message_id@), i as int);
                    assert(before[i as int] == self.entries@[i as int]@);
                }
                let np = peers_without(&self.entries[i].peers, from);
                if np.len() == 0 {
                    self.entries.remove(i);
                    assert(self@ =~= before.remove(i as int));
                    assert forall|a: int, b: int| 0 <= a < b < self@.len() implies self@[a].key != self@[b].key by {
                        let a2 = if a < i { a } else { a + 1 };
                        let b2 = if b < i { b } else { b + 1 };
                        assert(self@[a] == before[a2]);
                        assert(self@[b] == before[b2]);
                    }
                } else {
                    let ghost nv = PendingView { peers: np.deep_view(), ..before[i as int] };
                    self.entries[i].peers = np;
                    assert(self@ =~= before.update(i as int, nv));
                    assert forall|a: int, b: int| 0 <= a < b < self@.len() implies self@[a].key != self@[b].key by {
                        assert(before[a].key != before[b].key);
                    }
                }
            },
            None => {},
        }
    }
}

/// How long a broadcast may wait for acknowledgements (30 minutes).
pub open spec fn pending_ttl_ms() -> u64 {
    1800000
}

/// A broadcast first sent more than the time to live before `now_ms`.
pub open spec fn stale(e: PendingView, now_ms: u64) -> bool {
    now_ms > e.created_ms && now_ms - e.created_ms > pending_ttl_ms()
}

pub open spec fn live_at(now_ms: u64) -> spec_fn(PendingView) -> bool {
    |e: PendingView| !stale(e, now_ms)
}

pub open spec fn entry_views(v: Seq<PendingBroadcast>) -> Seq<PendingView> {
    v.map_values(|e: PendingBroadcast| e@)
}

/// The backoff of a retry count, in seconds (see `backoff_secs`).
pub open spec fn backoff_of(retry_count: u32) -> u64 {
    if retry_count >= 5 {
        32
    } else {
        vstd::arithmetic::power2::pow2(retry_count as nat) as u64
    }
}

/// A retry count one higher, saturating.
pub open spec fn bumped(n: u32) -> u32 {
    if n == u32::MAX {
        n
    } else {
        (n + 1) as u32
    }
}

/// The peers a broadcast is resent to: those still waited for, or all
/// `connected` peers when none is.
pub open spec fn targets(e: PendingView, connected: Seq<Seq<char>>) -> Seq<Seq<char>> {
    if e.peers.len() == 0 {
        connected
    } else {
        e.peers
    }
}

/// Is the broadcast resent at `now_ms` with random part `jitter`? It has
/// peers to go to and its delay (see `retry_delay`) has passed since it was
/// last sent.
pub open spec fn due(e: PendingView, now_ms: u64, connected: Seq<Seq<char>>, jitter: u64) -> bool {
    &&& targets(e, connected).len() > 0
    &&& now_ms >= e.last_sent_ms
    &&& (now_ms - e.last_sent_ms) / 1000 >= retry_delay(e.retry_count, jitter)
}

/// A broadcast after a retry round at `now_ms`.
pub open spec fn retried(e: PendingView, now_ms: u64, connected: Seq<Seq<char>>, jitter: u64) -> PendingView {
    if due(e, now_ms, connected, jitter) {
        PendingView {
            peers: targets(e, connected),
            last_sent_ms: now_ms,
            retry_count: bumped(e.retry_count),
            ..e
        }
    } else {
        PendingView { peers: targets(e, connected), ..e }
    }
}

/// The messages a retry round over the first `k` entries sends, in order.
pub open spec fn resent(s: Seq<PendingView>, now_ms: u64, connected: Seq<Seq<char>>, js: Seq<u64>, k: int) -> Seq<Seq<u8>>
    decreases k,
{
    if k <= 0 {
        Seq::empty()
    } else {
        let rest = resent(s, now_ms, connected, js, k - 1);
        if due(s[k - 1], now_ms, connected, js[k - 1]) {
            rest.push(s[k - 1].payload)
        } else {
            rest
        }
    }
}

/// The random parts of a retry round fit their entries: at most half the
/// backoff of each.
pub open spec fn jitters_fit(s: Seq<PendingView>, js: Seq<u64>) -> bool {
    &&& js.len() == s.len()
    &&& forall|i: int| 0 <= i < s.len() ==> #[trigger] js[i] <= backoff_of(s[i].retry_count) / 2
}

impl PendingBook {
    /// Drop the broadcasts that have waited longer than the time to live,
    /// keeping the others in order.
    pub fn prune_stale(&mut self, now_ms: u64)
        requires
            old(self).wf(),
        ensures
            final(self).wf(),
            final(self)@ == old(self)@.filter(live_at(now_ms)),
    {
        let ghost ov = self@;
        let mut rest: Vec<PendingBroadcast> = Vec::new();
        std::mem::swap(&mut rest, &mut self.entries);
        let n = rest.len();
        let ghost pred = live_at(now_ms);
        let mut i: usize = 0;
        proof {
            reveal(Seq::filter);
            assert(ov.subrange(0, 0) =~= Seq::<PendingView>::empty());
            assert(entry_views(rest@) =~= ov.subrange(0, n as int));
            assert(self@ =~= Seq::<PendingView>::empty());
        }
        while i < n
            invariant
                n == ov.len(),
                distinct_keys(ov),
                i <= n,
                rest@.len() == n - i,
                entry_views(rest@) == ov.subrange(i as int, n as int),
                pred == live_at(now_ms),
                self@ == ov.subrange(0, i as int).filter(pred),
                distinct_keys(self@),
                forall|a: int| #![trigger self@[a]] 0 <= a < self@.len() ==> exists|j: int| 0 <= j < i && #[trigger] ov[j] == self@[a],
            decreases n - i,
        {
            let ghost rv = entry_views(rest@);
            let ghost r0 = rest@;
            let e = rest.remove(0);
            proof {
                assert(e@ == rv[0]);
                assert(rv[0] == ov[i as int]);
                assert forall|k: int| 0 <= k < rest@.len() implies #[trigger] entry_views(rest@)[k] == ov[i + 1 + k] by {
                    assert(rest@[k] == r0[k + 1]);
                    assert(rv[k + 1] == ov[i + 1 + k]);
                }
                assert(entry_views(rest@) =~= ov.subrange(i + 1, n as int));
                assert(ov.subrange(0, i + 1) =~= ov.subrange(0, i as int).push(ov[i as int]));
                ov.subrange(0, i as int).lemma_filter_push(ov[i as int], pred);
            }
            let live = !(now_ms > e.created_ms && now_ms - e.created_ms > 1800000);
            if live {
                let ghost before = self@;
                let ghost ev = e@;
                self.entries.push(e);
                assert(self@ =~= before.push(ev));
                assert forall|a: int, b: int| 0 <= a < b < self@.len() implies self@[a].key != self@[b].key by {
                    if b == before.len() {
                        let j = choose|j: int| 0 <= j < i && #[trigger] ov[j] == before[a];
                        assert(ov[j].key != ov[i as int].key);
                    } else {
                        assert(before[a].key != before[b].key);
                    }
                }
                assert forall|a: int| #![trigger self@[a]] 0 <= a < self@.len() implies exists|j: int| 0 <= j < i + 1 && #[trigger] ov[j] == self@[a] by {
                    if a == before.len() {
                        assert(ov[i as int] == self@[a]);
                    } else {
                        let j = choose|j: int| 0 <= j < i && #[trigger] ov[j] == before[a];
                        assert(ov[j] == self@[a]);
                    }
                }
            }
            i = i + 1;
        }
        assert(ov.subrange(0, n as int) =~= ov);
    }

    /// The position of the entry sent first (the first such one when
    /// several were sent at the same time).
    fn oldest(&self) -> (r: usize)
        requires
            self@.len() > 0,
        ensures
            r < self@.len(),
            forall|j: int| 0 <= j < self@.len() ==> self@[r as int].created_ms <= #[trigger] self@[j].created_ms,
    {
        let mut best: usize = 0;
        let mut i: usize = 1;
        while i < self.entries.len()
            invariant
                self@.len() > 0,
                best < i <= self@.len(),
                forall|j: int| 0 <= j < i ==> self@[best as int].created_ms <= #[trigger] self@[j].created_ms,
            decreases self.entries.len() - i,
        {
            proof {
                assert(self@[i as int] == self.entries@[i as int]@);
                assert(self@[best as int] == self.entries@[best as int]@);
            }
            if self.entries[i].created_ms < self.entries[best].created_ms {
                best = i;
            }
            i = i + 1;
        }
        best
    }

    /// Drop the broadcasts sent first until at most `max` remain.
    pub fn evict_oldest(&mut self, max: usize)
        requires
            old(self).wf(),
        ensures
            final(self).wf(),
            final(self)@.len() == (if old(self)@.len() > max { max as int } else { old(self)@.len() as int }),
            forall|j: int| 0 <= j < final(self)@.len() ==> old(self)@.contains(#[trigger] final(self)@[j]),
            forall|i: int, j: int|
                0 <= i < old(self)@.len() && !final(self)@.contains(#[trigger] old(self)@[i]) && 0 <= j
                    < final(self)@.len() ==> old(self)@[i].created_ms <= #[trigger] final(self)@[j].created_ms,
    {
        let ghost ov = self@;
        while self.entries.len() > max
            invariant
                distinct_keys(self@),
                self@.len() >= (if ov.len() > max { max as int } else { ov.len() as int }),
                ov.len() <= max ==> self@ == ov,
                forall|j: int| 0 <= j < self@.len() ==> ov.contains(#[trigger] self@[j]),
                forall|i: int, j: int|
                    0 <= i < ov.len() && !self@.contains(#[trigger] ov[i]) && 0 <= j < self@.len()
                        ==> ov[i].created_ms <= #[trigger] self@[j].created_ms,
            decreases self.entries.len(),
        {
            let b = self.oldest();
            let ghost cur = self@;
            self.entries.remove(b);
            proof {
                assert(self@ =~= cur.remove(b as int));
                assert forall|j: int| 0 <= j < self@.len() implies ov.contains(#[trigger] self@[j]) by {
                    let j2 = if j < b { j } else { j + 1 };
                    assert(self@[j] == cur[j2]);
                }
                assert forall|a: int, c: int| 0 <= a < c < self@.len() implies self@[a].key != self@[c].key by {
                    let a2 = if a < b { a } else { a + 1 };
                    let c2 = if c < b { c } else { c + 1 };
                    assert(self@[a] == cur[a2]);
                    assert(self@[c] == cur[c2]);
                }
                assert forall|i: int, j: int|
                    0 <= i < ov.len() && !self@.contains(#[trigger] ov[i]) && 0 <= j < self@.len()
                        implies ov[i].created_ms <= #[trigger] self@[j].created_ms by {
                    let j2 = if j < b { j } else { j + 1 };
                    assert(self@[j] == cur[j2]);
                    if cur.contains(ov[i]) {
                        let k = choose|k: int| 0 <= k < cur.len() && cur[k] == ov[i];
                        if k != b {
                            let k2 = if k < b { k } else { k - 1 };
                            assert(self@[k2] == cur[k]);
                            assert(self@.contains(ov[i]));
                        }
                    }
                }
            }
        }
    }

    /// One retry round at `now_ms` with random parts `jitters` (one per
    /// entry): each broadcast without peers waited for takes the `connected`
    /// peers, and each one due (see `due`) is resent: its message is
    /// returned and it is marked sent now, one retry more.
    pub fn retry_round_with(&mut self, now_ms: u64, connected: &Vec<String>, jitters: &Vec<u64>) -> (sent: Vec<Vec<u8>>)
        requires
            old(self).wf(),
            jitters_fit(old(self)@, jitters@),
        ensures
            final(self).wf(),
            final(self)@.len() == old(self)@.len(),
            forall|i: int|
                0 <= i < old(self)@.len() ==> #[trigger] final(self)@[i] == retried(
                    old(self)@[i],
                    now_ms,
                    connected.deep_view(),
                    jitters@[i],
                ),
            sent.deep_view() == resent(old(self)@, now_ms, connected.deep_view(), jitters@, old(self)@.len() as int),
    {
        let ghost ov = self@;
        let ghost cv = connected.deep_view();
        let mut sent: Vec<Vec<u8>> = Vec::new();
        let mut i: usize = 0;
        while i < self.entries.len()
            invariant
                self@.len() == ov.len(),
                distinct_keys(ov),
                jitters_fit(ov, jitters@),
                cv == connected.deep_view(),
                i <= ov.len(),
                forall|k: int| 0 <= k < i ==> #[trigger] self@[k] == retried(ov[k], now_ms, cv, jitters@[k]),
                forall|k: int| i <= k < ov.len() ==> #[trigger] self@[k] == ov[k],
                sent.deep_view() == resent(ov, now_ms, cv, jitters@, i as int),
            decreases self.entries.len() - i,
        {
            let ghost before = self@;
            let ghost be = self.entries@;
            proof {
                assert(before[i as int] == self.entries@[i as int]@);
                assert(jitters@[i as int] <= backoff_of(ov[i as int].retry_count) / 2);
                vstd::arithmetic::power2::lemma2_to64();
            }
            if self.entries[i].peers.len() == 0 {
                self.entries[i].peers = crate::web::clone_strings(connected);
            }
            let e = &self.entries[i];
            let since: u64 = if now_ms >= e.last_sent_ms {
                (now_ms - e.last_sent_ms) / 1000
            } else {
                0
            };
            let go = now_ms >= e.last_sent_ms && should_resend(e.peers.len() > 0, since, e.retry_count, jitters[i]);
            proof {
                assert(self.entries@[i as int].peers.deep_view() == targets(ov[i as int], cv));
                assert(go == due(ov[i as int], now_ms, cv, jitters@[i as int]));
            }
            if go {
                let ghost sv = sent.deep_view();
                let p = self.entries[i].payload.clone();
                assert(p@ == ov[i as int].payload);
                assert(p.deep_view() =~= p@);
                sent.push(p);
                assert(sent.deep_view() =~= sv.push(ov[i as int].payload));
                let r = self.entries[i].retry_count;
                self.entries[i].last_sent_ms = now_ms;
                self.entries[i].retry_count = if r == u32::MAX { r } else { r + 1 };
            }
            proof {
                assert(self@[i as int] == retried(ov[i as int], now_ms, cv, jitters@[i as int]));
                assert forall|k: int| 0 <= k < ov.len() && k != i implies #[trigger] self@[k] == before[k] by {
                    assert(self.entries@[k] == be[k]);
                }
            }
            i = i + 1;
        }
        assert forall|a: int, b: int| 0 <= a < b < self@.len() implies self@[a].key != self@[b].key by {
            assert(self@[a] == retried(ov[a], now_ms, cv, jitters@[a]));
            assert(self@[b] == retried(ov[b], now_ms, cv, jitters@[b]));
        }
        sent
    }
}

/// `rand::thread_rng().gen_range(0..=half)`: a random number from 0 to
/// `half`. It is random, so only its range is stated.
#[verifier::external_body]
fn random_jitter(half: u64) -> (r: u64)
    ensures
        r <= half,
{
    rand::Rng::gen_range(&mut rand::thread_rng(), 0..=half)
}

impl PendingBook {
    /// One retry round at `now_ms` (see `retry_round_with`), each entry's
    /// random part drawn from 0 to half its backoff.
    pub fn retry_round(&mut self, now_ms: u64, connected: &Vec<String>) -> (sent: Vec<Vec<u8>>)
        requires
            old(self).wf(),
        ensures
            final(self).wf(),
            final(self)@.len() == old(self)@.len(),
            exists|js: Seq<u64>|
                {
                    &&& #[trigger] jitters_fit(old(self)@, js)
                    &&& forall|i: int|
                        0 <= i < old(self)@.len() ==> #[trigger] final(self)@[i] == retried(
                            old(self)@[i],
                            now_ms,
                            connected.deep_view(),
                            js[i],
                        )
                    &&& sent.deep_view() == resent(old(self)@, now_ms, connected.deep_view(), js, old(self)@.len() as int)
                },
    {
        let mut jitters: Vec<u64> = Vec::new();
        let mut i: usize = 0;
        while i < self.entries.len()
            invariant
                i <= self@.len(),
                jitters@.len() == i,
                forall|k: int| 0 <= k < i ==> #[trigger] jitters@[k] <= backoff_of(self@[k].retry_count) / 2,
            decreases self.entries.len() - i,
        {
            proof {
                assert(self@[i as int] == self.entries@[i as int]@);
            }
            let half = backoff_secs(self.entries[i].retry_count) / 2;
            jitters.push(random_jitter(half));
            i = i + 1;
        }
        let ghost js = jitters@;
        let sent = self.retry_round_with(now_ms, connected, &jitters);
        assert(jitters_fit(old(self)@, js));
        sent
    }
}

/// Which job status a broadcast reports.
#[derive(Debug, Clone, Copy, PartialEq, Eq, Structural)]
pub enum JobStatusKind {
    Accepted,
    Started,
    Completed,
    Failed,
}

/// A job status broadcast: the job, its status, the node it is assigned
/// to, and the message's id.
pub struct JobStatusMsg {
    pub kind: JobStatusKind,
    pub job_id: String,
    pub assigned_node: String,
    pub message_id: String,
}

/// The word a status is named by in keys and acknowledgements.
pub open spec fn kind_word(k: JobStatusKind) -> Seq<char> {
    match k {
        JobStatusKind::Accepted => "accepted"@,
        JobStatusKind::Started => "started"@,
        JobStatusKind::Completed => "completed"@,
        JobStatusKind::Failed => "failed"@,
    }
}

pub fn status_word(k: JobStatusKind) -> (r: String)
    ensures
        r@ == kind_word(k),
{
    match k {
        JobStatusKind::Accepted => String::from_str("accepted"),
        JobStatusKind::Started => String::from_str("started"),
        JobStatusKind::Completed => String::from_str("completed"),
        JobStatusKind::Failed => String::from_str("failed"),
    }
}

/// The key a status broadcast awaits acknowledgements under: job, status
/// and message id.
pub fn job_status_key(m: &JobStatusMsg) -> (r: (String, String, String))
    ensures
        (r.0@, r.1@, r.2@) == (m.job_id@, kind_word(m.kind), m.message_id@),
{
    (m.job_id.clone(), status_word(m.kind), m.message_id.clone())
}

/// Job, status, assigned node and message id of a status broadcast.
pub fn job_status_tuple(m: &JobStatusMsg) -> (r: (String, String, String, String))
    ensures
        (r.0@, r.1@, r.2@, r.3@) == (m.job_id@, kind_word(m.kind), m.assigned_node@, m.message_id@),
{
    (m.job_id.clone(), status_word(m.kind), m.assigned_node.clone(), m.message_id.clone())
}

#[verifier::external_type_specification]
#[verifier::external_body]
#[verifier::reject_recursive_types(K)]
#[verifier::reject_recursive_types(V)]
#[verifier::reject_recursive_types(S)]
pub struct ExLruCache<K, V, S>(lru::LruCache<K, V, S>);

#[verifier::external_type_specification]
#[verifier::external_body]
pub struct ExLruHasher(lru::DefaultHasher);

/// The cache of job statuses already seen, keyed by job, status and
/// assigned node, with when each was seen.
pub type SeenCache = lru::LruCache<(String, String, String), u64>;

/// The keys a seen-status cache holds.
pub uninterp spec fn seen_keys(c: lru::LruCache<(String, String, String), u64>) -> Set<(Seq<char>, Seq<char>, Seq<char>)>;

/// The capacity a seen-status cache was made with.
pub uninterp spec fn seen_cap(c: lru::LruCache<(String, String, String), u64>) -> nat;

pub open spec fn key3(k: (String, String, String)) -> (Seq<char>, Seq<char>, Seq<char>) {
    (k.0@, k.1@, k.2@)
}

/// `lru::LruCache::new(cap)`: an empty cache that holds at most `cap`
/// entries.
#[verifier::external_body]
fn seen_cache_with_capacity(cap: usize) -> (r: lru::LruCache<(String, String, String), u64>)
    ensures
        seen_keys(r) == Set::<(Seq<char>, Seq<char>, Seq<char>)>::empty(),
        seen_cap(r) == cap,
{
    lru::LruCache::new(cap)
}

/// `LruCache::contains`: whether the cache holds key `k` (the entry's
/// recency is not changed).
#[verifier::external_body]
fn seen_contains(c: &lru::LruCache<(String, String, String), u64>, k: &(String, String, String)) -> (r: bool)
    ensures
        r == seen_keys(*c).contains(key3(*k)),
{
    c.contains(k)
}

/// `LruCache::put(k, v)`: with capacity 0 nothing changes; otherwise the
/// cache then holds `k`. A key already present, or a cache below its
/// capacity, loses nothing; a full cache gives up one key it held (its
/// least recently used one) for the new key. The capacity stays.
#[verifier::external_body]
fn seen_put(c: &mut lru::LruCache<(String, String, String), u64>, k: (String, String, String), v: u64)
    ensures
        seen_cap(*final(c)) == seen_cap(*old(c)),
        seen_cap(*old(c)) == 0 ==> seen_keys(*final(c)) == seen_keys(*old(c)),
        seen_cap(*old(c)) > 0 && (seen_keys(*old(c)).contains(key3(k)) || seen_keys(*old(c)).len()
            < seen_cap(*old(c))) ==> seen_keys(*final(c)) == seen_keys(*old(c)).insert(key3(k)),
        seen_cap(*old(c)) > 0 && !seen_keys(*old(c)).contains(key3(k)) && seen_keys(*old(c)).len()
            >= seen_cap(*old(c)) ==> exists|x: (Seq<char>, Seq<char>, Seq<char>)|
            seen_keys(*old(c)).contains(x) && seen_keys(*final(c)) == #[trigger] seen_keys(*old(c)).remove(
                x,
            ).insert(key3(k)),
{
    c.put(k, v);
}

/// The cache of seen job statuses the agent keeps (30 000 entries).
pub fn new_seen_cache() -> (r: SeenCache)
    ensures
        seen_keys(r) == Set::<(Seq<char>, Seq<char>, Seq<char>)>::empty(),
        seen_cap(r) == 30000,
{
    seen_cache_with_capacity(30000)
}

/// Has this job status (job, status, assigned node) been seen before? If
/// it has, the message is a duplicate to acknowledge and skip; if not, it
/// is remembered as seen at `now_ms`.
pub fn seen_before(cache: &mut SeenCache, m: &JobStatusMsg, now_ms: u64) -> (dup: bool)
    ensures
        dup == seen_keys(*old(cache)).contains((m.job_id@, kind_word(m.kind), m.assigned_node@)),
        dup ==> *final(cache) == *old(cache),
        !dup ==> seen_cap(*final(cache)) == seen_cap(*old(cache)) && (seen_cap(*old(cache)) > 0
            ==> seen_keys(*final(cache)).contains((m.job_id@, kind_word(m.kind), m.assigned_node@))),
{
    let (job_id, status, node, _message_id) = job_status_tuple(m);
    let key = (job_id, status, node);
    if seen_contains(cache, &key) {
        true
    } else {
        let ghost k = key3(key);
        seen_put(cache, key, now_ms);
        proof {
            if seen_cap(*old(cache)) > 0 && seen_keys(*old(cache)).len() >= seen_cap(*old(cache)) {
                let x = choose|x: (Seq<char>, Seq<char>, Seq<char>)|
                    seen_keys(*old(cache)).contains(x) && seen_keys(*cache) == #[trigger] seen_keys(
                        *old(cache),
                    ).remove(x).insert(k);
                assert(seen_keys(*cache).contains(k));
            }
        }
        false
    }
}

} // verus!
