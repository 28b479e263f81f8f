//! What the management web API shows: the status nodes publish, the fleet
//! overview, node and component lists, and login sessions.
use vstd::prelude::*;
use vstd::string::*;

use crate::keyed::{key_index, StrMap};
use crate::metrics::Metrics;
use crate::supervisor::{ComponentSpec, DesiredComponent, Supervisor};

verus! {

/// The status a node publishes to its peers.
pub struct Status {
    pub node_id: String,
    pub msg: String,
    pub agent_version: u64,
    pub components_desired: u64,
    pub components_running: u64,
    pub cpu_percent: u64,
    pub mem_percent: u64,
    pub tags: Vec<String>,
    pub drift: i64,
    pub trusted_owner_pub_bs58: Option<String>,
    pub links: u64,
}

/// A copy of a list of strings.
pub fn clone_strings(v: &Vec<String>) -> (r: Vec<String>)
    ensures
        r.deep_view() == v.deep_view(),
{
    let mut out: Vec<String> = Vec::new();
    let mut i: usize = 0;
    while i < v.len()
        invariant
            i <= v@.len(),
            out.deep_view() =~= v.deep_view().subrange(0, i as int),
        decreases v.len() - i,
    {
        let ghost o = out.deep_view();
        out.push(v[i].clone());
        assert(out.deep_view() =~= o.push(v.deep_view()[i as int]));
        assert(v.deep_view().subrange(0, i + 1) =~= v.deep_view().subrange(0, i as int).push(v.deep_view()[i as int]));
        i = i + 1;
    }
    assert(v.deep_view().subrange(0, v@.len() as int) =~= v.deep_view());
    out
}

/// The statuses last heard from each peer, by node id.
pub struct PeerTable {
    pub peers: StrMap<Status>,
}

impl PeerTable {
    pub open spec fn wf(&self) -> bool {
        self.peers.wf()
    }

    pub fn new() -> (r: PeerTable)
        ensures
            r.wf(),
            r.peers.keys@.len() == 0,
    {
        PeerTable { peers: StrMap::new() }
    }

    /// Remember `status` as the latest from its node.
    pub fn update_peer_status(&mut self, status: Status)
        requires
            old(self).wf(),
        ensures
            final(self).wf(),
            old(self).peers.inserted(status.node_id@, status, final(self).peers),
    {
        let id = status.node_id.clone();
        self.peers.insert(id, status);
    }

    /// Set the roles shown for `node_id`, if it is known (the optimistic
    /// update the UI makes while the roles command goes out).
    pub fn set_roles(&mut self, node_id: &str, roles: &Vec<String>)
        requires
            old(self).wf(),
        ensures
            final(self).wf(),
            final(self).peers.keys == old(self).peers.keys,
            final(self).peers.vals@.len() == old(self).peers.vals@.len(),
            forall|i: int|
                0 <= i < old(self).peers.vals@.len() ==> {
                    let o = old(self).peers.vals@[i];
                    let n = #[trigger] final(self).peers.vals@[i];
                    if key_index(old(self).peers.key_seq(), node_id@) == Some(i) {
                        n == Status { tags: n.tags, ..o } && n.tags.deep_view() == roles.deep_view()
                    } else {
                        n == o
                    }
                },
    {
        match self.peers.find(node_id) {
            Some(i) => {
                let tags = clone_strings(roles);
                self.peers.vals[i].tags = tags;
            },
            None => {},
        }
    }
}

/// The fleet overview of the API: node count (at least 1, this node),
/// running components, and mean CPU load of the peers.
pub struct ApiStatus {
    pub nodes: u32,
    pub components: u32,
    pub cpu_avg: u32,
}

/// Sum of the peers' CPU loads, each read as `u32`.
pub open spec fn cpu_sum(s: Seq<Status>) -> int
    decreases s.len(),
{
    if s.len() == 0 {
        0
    } else {
        cpu_sum(s.drop_last()) + (s.last().cpu_percent as u32)
    }
}

/// The overview for peers `peers` and `components_running` running
/// components: the node count is the number of peers but at least 1, the
/// components counter is shown as is (read as `u32`), and the CPU average
/// is the integer mean over the peers, 0 without peers.
pub fn api_status(peers: &PeerTable, components_running: u64) -> (r: ApiStatus)
    requires
        peers.wf(),
        peers.peers.vals@.len() <= u32::MAX,
        cpu_sum(peers.peers.vals@) <= u32::MAX,
    ensures
        r.nodes == (if peers.peers.vals@.len() == 0 { 1 } else { peers.peers.vals@.len() }),
        r.components == components_running as u32,
        r.cpu_avg == (if peers.peers.vals@.len() == 0 {
            0
        } else {
            cpu_sum(peers.peers.vals@) / (peers.peers.vals@.len() as int)
        }),
{
    let n = peers.peers.vals.len();
    let node_count = n as u32;
    let component_count = components_running as u32;
    let cpu_avg: u32 = if n == 0 {
        0
    } else {
        let mut sum: u32 = 0;
        let mut i: usize = 0;
        while i < n
            invariant
                n == peers.peers.vals@.len(),
                i <= n,
                cpu_sum(peers.peers.vals@) <= u32::MAX,
                sum == cpu_sum(peers.peers.vals@.subrange(0, i as int)),
            decreases n - i,
        {
            proof {
                lemma_cpu_sum_prefix(peers.peers.vals@, i as int + 1);
                assert(peers.peers.vals@.subrange(0, i + 1).drop_last() =~= peers.peers.vals@.subrange(
                    0,
                    i as int,
                ));
            }
            sum = sum + peers.peers.vals[i].cpu_percent as u32;
            i = i + 1;
        }
        assert(peers.peers.vals@.subrange(0, n as int) =~= peers.peers.vals@);
        sum / node_count
    };
    ApiStatus {
        nodes: if node_count > 1 {
            node_count
        } else {
            1
        },
        components: component_count,
        cpu_avg,
    }
}

proof fn lemma_cpu_sum_prefix(s: Seq<Status>, k: int)
    requires
        0 <= k <= s.len(),
    ensures
        cpu_sum(s.subrange(0, k)) <= cpu_sum(s),
    decreases s.len(),
{
    if k < s.len() {
        lemma_cpu_sum_prefix(s.drop_last(), k);
        assert(s.drop_last().subrange(0, k) =~= s.subrange(0, k));
    } else {
        assert(s.subrange(0, k) =~= s);
    }
}

/// A node as the API lists it.
pub struct ApiNode {
    pub id: String,
    pub online: bool,
    pub roles: Vec<String>,
    pub components_running: u32,
    pub components_desired: u32,
    pub cpu_percent: u32,
    pub mem_percent: u32,
}

/// The node `id` with status `s` as listed: online, its tags as roles, its
/// counters read as `u32`.
pub open spec fn node_listed(n: ApiNode, id: Seq<char>, s: Status) -> bool {
    &&& n.id@ == id
    &&& n.online
    &&& n.roles.deep_view() == s.tags.deep_view()
    &&& n.components_running == s.components_running as u32
    &&& n.components_desired == s.components_desired as u32
    &&& n.cpu_percent == s.cpu_percent as u32
    &&& n.mem_percent == s.mem_percent as u32
}

/// The node list: every peer in node id order; without peers, the local
/// node alone, with role `local`, the local component counters and no load.
pub fn api_nodes(peers: &PeerTable, metrics: &Metrics) -> (r: Vec<ApiNode>)
    requires
        peers.wf(),
    ensures
        peers.peers.vals@.len() > 0 ==> r@.len() == peers.peers.vals@.len() && forall|i: int|
            0 <= i < r@.len() ==> node_listed(
                #[trigger] r@[i],
                peers.peers.keys@[i]@,
                peers.peers.vals@[i],
            ),
        peers.peers.vals@.len() == 0 ==> r@.len() == 1 && r@[0].id@ == "local-node"@ && r@[0].online
            && r@[0].roles.deep_view() == seq!["local"@] && r@[0].components_running
            == metrics.components_running as u32 && r@[0].components_desired
            == metrics.components_desired as u32 && r@[0].cpu_percent == 0 && r@[0].mem_percent == 0,
{
    let mut nodes: Vec<ApiNode> = Vec::new();
    let mut i: usize = 0;
    while i < peers.peers.vals.len()
        invariant
            peers.wf(),
            i <= peers.peers.vals@.len(),
            nodes@.len() == i,
            forall|j: int|
                0 <= j < i ==> node_listed(
                    #[trigger] nodes@[j],
                    peers.peers.keys@[j]@,
                    peers.peers.vals@[j],
                ),
        decreases peers.peers.vals@.len() - i,
    {
        let s = &peers.peers.vals[i];
        nodes.push(
            ApiNode {
                id: peers.peers.keys[i].clone(),
                online: true,
                roles: clone_strings(&s.tags),
                components_running: s.components_running as u32,
                components_desired: s.components_desired as u32,
                cpu_percent: s.cpu_percent as u32,
                mem_percent: s.mem_percent as u32,
            },
        );
        i = i + 1;
    }
    if nodes.len() == 0 {
        let mut roles: Vec<String> = Vec::new();
        roles.push(String::from_str("local"));
        nodes.push(
            ApiNode {
                id: String::from_str("local-node"),
                online: true,
                roles,
                components_running: metrics.components_running as u32,
                components_desired: metrics.components_desired as u32,
                cpu_percent: 0,
                mem_percent: 0,
            },
        );
        assert(nodes@[0].roles.deep_view() =~= seq!["local"@]);
    }
    nodes
}

/// A component as the API lists it.
pub struct ApiComponent {
    pub name: String,
    pub running: bool,
    pub replicas_running: u32,
    pub replicas_desired: u32,
    pub memory_mb: u32,
    pub nodes: Vec<String>,
}

/// Replicas the list shows running: all that are desired when the
/// component has logged something, else 1 while any is desired.
pub open spec fn shown_running(desired: u32, has_logs: bool) -> u32 {
    if has_logs {
        desired
    } else if desired > 0 {
        1
    } else {
        0
    }
}

/// The nodes a component is shown on: every peer, or the local node alone.
pub open spec fn shown_nodes(peers: PeerTable) -> Seq<Seq<char>> {
    if peers.peers.keys@.len() == 0 {
        seq!["local-node"@]
    } else {
        peers.peers.key_seq()
    }
}

/// Component `d` as listed, given whether it has logged anything.
pub open spec fn component_listed(c: ApiComponent, d: DesiredComponent, has_logs: bool, peers: PeerTable) -> bool {
    let desired = match d.spec.replicas {
        Some(r) => r,
        None => 1,
    };
    let running = shown_running(desired, has_logs);
    &&& c.name@ == d.name@
    &&& c.replicas_desired == desired
    &&& c.replicas_running == running
    &&& c.running == (running > 0)
    &&& c.memory_mb == (match d.spec.memory_max_mb {
        Some(m) => m,
        None => 64,
    }) as u32
    &&& c.nodes.deep_view() == shown_nodes(peers)
}

/// Has component `name` logged any line?
pub open spec fn has_logs(logs: StrMap<Vec<String>>, name: Seq<char>) -> bool {
    match logs.lookup(name) {
        Some(v) => v@.len() > 0,
        None => false,
    }
}

/// The component list: every desired component in name order.
pub fn api_components(sup: &Supervisor, logs: &StrMap<Vec<String>>, peers: &PeerTable) -> (r: Vec<
    ApiComponent,
>)
    requires
        sup.wf(),
        logs.wf(),
        peers.wf(),
    ensures
        r@.len() == sup.desired.vals@.len(),
        forall|i: int|
            0 <= i < r@.len() ==> component_listed(
                #[trigger] r@[i],
                sup.desired.vals@[i],
                has_logs(*logs, sup.desired.keys@[i]@),
                *peers,
            ),
{
    let mut out: Vec<ApiComponent> = Vec::new();
    let mut i: usize = 0;
    while i < sup.desired.vals.len()
        invariant
            sup.wf(),
            logs.wf(),
            peers.wf(),
            i <= sup.desired.vals@.len(),
            out@.len() == i,
            forall|j: int|
                0 <= j < i ==> component_listed(
                    #[trigger] out@[j],
                    sup.desired.vals@[j],
                    has_logs(*logs, sup.desired.keys@[j]@),
                    *peers,
                ),
        decreases sup.desired.vals@.len() - i,
    {
        let d = &sup.desired.vals[i];
        let replicas_desired: u32 = match d.spec.replicas {
            Some(r) => r,
            None => 1,
        };
        let memory_mb: u64 = match d.spec.memory_max_mb {
            Some(m) => m,
            None => 64,
        };
        let has_recent_logs = match logs.get(sup.desired.keys[i].as_str()) {
            Some(v) => v.len() > 0,
            None => false,
        };
        let replicas_running: u32 = if has_recent_logs {
            replicas_desired
        } else if replicas_desired > 0 {
            1
        } else {
            0
        };
        let nodes: Vec<String> = if peers.peers.keys.len() == 0 {
            let mut v: Vec<String> = Vec::new();
            v.push(String::from_str("local-node"));
            assert(v.deep_view() =~= seq!["local-node"@]);
            v
        } else {
            let v = clone_strings(&peers.peers.keys);
            assert(v.deep_view() =~= peers.peers.key_seq());
            v
        };
        out.push(
            ApiComponent {
                name: d.name.clone(),
                running: replicas_running > 0,
                replicas_running,
                replicas_desired,
                memory_mb: memory_mb as u32,
                nodes,
            },
        );
        i = i + 1;
    }
    out
}

/// Sessions expire after 30 minutes without activity.
pub open spec fn session_ttl_secs() -> u64 {
    1800
}

/// The sessions still active at `now`.
pub open spec fn active_at(now: u64) -> spec_fn(Session) -> bool {
    |s: Session| !expired(s.last_active, now)
}

/// A login session of the management UI.
pub struct Session {
    pub id: String,
    pub last_active: u64,
    pub authenticated: bool,
}

/// A lower-case hexadecimal digit.
pub open spec fn lower_hex_digit(c: char) -> bool {
    ('0' <= c && c <= '9') || ('a' <= c && c <= 'f')
}

/// The text of a version 4 (random) UUID as `uuid` writes it: 36
/// characters, hyphens at positions 8, 13, 18 and 23, lower-case hex
/// digits elsewhere, the version digit `4` at position 14 and the RFC 4122
/// variant (`8`, `9`, `a` or `b`) at position 19.
pub open spec fn uuid_v4_text(s: Seq<char>) -> bool {
    &&& s.len() == 36
    &&& forall|i: int|
        0 <= i < 36 ==> if i == 8 || i == 13 || i == 18 || i == 23 {
            #[trigger] s[i] == '-'
        } else {
            lower_hex_digit(s[i])
        }
    &&& s[14] == '4'
    &&& (s[19] == '8' || s[19] == '9' || s[19] == 'a' || s[19] == 'b')
}

/// A fresh session identifier: `uuid::Uuid::new_v4()` in its hyphenated
/// lower-case text form. `new_v4` masks in the version and variant bits,
/// and `Display` writes the hyphenated lower-case form, so the text has the
/// shape `uuid_v4_text` describes. The other digits are random, and nothing
/// more is stated of them.
#[verifier::external_body]
fn random_session_id() -> (r: String)
    ensures
        uuid_v4_text(r@),
{
    uuid::Uuid::new_v4().to_string()
}

/// Has a session last active at `last_active` expired at `now` (Unix
/// seconds)? It has when more than 30 minutes passed, and also when `now`
/// lies before its last activity (the clock went back).
pub open spec fn expired(last_active: u64, now: u64) -> bool {
    now < last_active || now - last_active > session_ttl_secs()
}

impl Session {
    /// A new, unauthenticated session with a random id, active at `now`.
    pub fn new(now: u64) -> (r: Session)
        ensures
            uuid_v4_text(r.id@),
            r.last_active == now,
            !r.authenticated,
    {
        Session { id: random_session_id(), last_active: now, authenticated: false }
    }

    pub fn is_expired(&self, now: u64) -> (r: bool)
        ensures
            r == expired(self.last_active, now),
    {
        now < self.last_active || now - self.last_active > 1800
    }

    /// Mark the session active at `now`.
    pub fn touch(&mut self, now: u64)
        ensures
            *final(self) == (Session { last_active: now, ..*old(self) }),
    {
        self.last_active = now;
    }
}

/// The open sessions by id.
pub struct SessionTable {
    pub sessions: StrMap<Session>,
}

/// In a table of sessions keyed by their ids, filtering the sessions by `p`
/// keeps each id's session exactly when it satisfies `p`.
proof fn lemma_filtered_lookup(a: StrMap<Session>, b: StrMap<Session>, p: spec_fn(Session) -> bool, k: Seq<char>)
    requires
        a.wf(),
        b.wf(),
        forall|i: int| 0 <= i < a.keys@.len() ==> #[trigger] a.keys@[i]@ == a.vals@[i].id@,
        forall|i: int| 0 <= i < b.keys@.len() ==> #[trigger] b.keys@[i]@ == b.vals@[i].id@,
        b.vals@ == a.vals@.filter(p),
    ensures
        b.lookup(k) == (match a.lookup(k) {
            Some(s) => if p(s) {
                Some(s)
            } else {
                None
            },
            None => None,
        }),
{
    let ak = a.key_seq();
    let bk = b.key_seq();
    match key_index(bk, k) {
        Some(j) => {
            assert(crate::keyed::key_at(bk, k, j));
            let v = b.vals@[j];
            assert(bk[j] == b.keys@[j]@);
            assert(v.id@ == k);
            a.vals@.lemma_filter_pred(p, j);
            assert(a.vals@.filter(p)[j] == v);
            assert(a.vals@.filter(p).contains(v));
            a.vals@.lemma_filter_contains_rev(p, v);
            let i = choose|i: int| 0 <= i < a.vals@.len() && a.vals@[i] == v;
            assert(ak[i] == a.keys@[i]@);
            crate::keyed::lemma_key_index_at(ak, k, i);
        },
        None => {
            match key_index(ak, k) {
                Some(i) => {
                    assert(crate::keyed::key_at(ak, k, i));
                    let s = a.vals@[i];
                    assert(ak[i] == a.keys@[i]@);
                    if p(s) {
                        a.vals@.lemma_filter_contains(p, i);
                        let j = choose|j: int| 0 <= j < b.vals@.len() && b.vals@[j] == s;
                        assert(bk[j] == b.keys@[j]@);
                        assert(crate::keyed::key_at(bk, k, j));
                    }
                },
                None => {},
            }
        },
    }
}

impl SessionTable {
    pub open spec fn wf(&self) -> bool {
        &&& self.sessions.wf()
        &&& forall|i: int| 0 <= i < self.sessions.keys@.len() ==> #[trigger] self.sessions.keys@[i]@
            == self.sessions.vals@[i].id@
    }

    pub fn new() -> (r: SessionTable)
        ensures
            r.wf(),
            r.sessions.keys@.len() == 0,
    {
        SessionTable { sessions: StrMap::new() }
    }

    /// Drop every session expired at `now`, keeping the others in order.
    pub fn retain_active(&mut self, now: u64)
        requires
            old(self).wf(),
        ensures
            final(self).wf(),
            final(self).sessions.vals@ == old(self).sessions.vals@.filter(active_at(now)),
            forall|k: Seq<char>|
                #[trigger] final(self).sessions.lookup(k) == (match old(self).sessions.lookup(k) {
                    Some(s) => if expired(s.last_active, now) {
                        None
                    } else {
                        Some(s)
                    },
                    None => None,
                }),
    {
        let ghost old_table = self.sessions;
        let ghost old_vals = self.sessions.vals@;
        let mut keys: Vec<String> = Vec::new();
        let mut vals: Vec<Session> = Vec::new();
        let mut ks: Vec<String> = Vec::new();
        let mut vs: Vec<Session> = Vec::new();
        std::mem::swap(&mut ks, &mut self.sessions.keys);
        std::mem::swap(&mut vs, &mut self.sessions.vals);
        let ghost k0 = ks@;
        let n = vs.len();
        let ghost pred = active_at(now);
        let mut i: usize = 0;
        proof {
            assert(old_vals.subrange(0, 0) =~= Seq::<Session>::empty());
            reveal(Seq::filter);
        }
        while i < n
            invariant
                n == old_vals.len(),
                ks@.len() == n - i,
                vs@.len() == n - i,
                ks@ == k0.subrange(i as int, n as int),
                vs@ == old_vals.subrange(i as int, n as int),
                k0.len() == n,
                crate::keyed::keys_sorted(crate::keyed::key_views(k0)),
                forall|j: int| 0 <= j < n ==> #[trigger] k0[j]@ == old_vals[j].id@,
                i <= n,
                keys@.len() == vals@.len(),
                pred == active_at(now),
                vals@ == old_vals.subrange(0, i as int).filter(pred),
                forall|j: int| 0 <= j < keys@.len() ==> #[trigger] keys@[j]@ == vals@[j].id@,
                forall|a: int, b: int| 0 <= a < b < keys@.len() ==> crate::text::seq_lt(#[trigger] keys@[a]@, #[trigger] keys@[b]@),
                forall|a: int, b: int| 0 <= a < keys@.len() && i <= b < n ==> crate::text::seq_lt(#[trigger] keys@[a]@, #[trigger] k0[b]@),
            decreases n - i,
        {
            let k = ks.remove(0);
            let v = vs.remove(0);
            proof {
                assert(k == k0[i as int]);
                assert(v == old_vals[i as int]);
                assert(old_vals.subrange(0, i + 1).drop_last() =~= old_vals.subrange(0, i as int));
            }
            if !v.is_expired(now) {
                let ghost kk = keys@;
                keys.push(k);
                vals.push(v);
                proof {
                    assert forall|a: int, b: int| 0 <= a < keys@.len() && i + 1 <= b < n implies crate::text::seq_lt(
                        #[trigger] keys@[a]@,
                        #[trigger] k0[b]@,
                    ) by {
                        assert(crate::text::seq_lt(crate::keyed::key_views(k0)[i as int], crate::keyed::key_views(k0)[b]));
                        if a < kk.len() {
                            assert(crate::text::seq_lt(kk[a]@, k0[b]@));
                        }
                    }
                }
            }
            proof {
                assert(old_vals.subrange(0, i + 1) =~= old_vals.subrange(0, i as int).push(v));
                old_vals.subrange(0, i as int).lemma_filter_push(v, pred);
            }
            assert(vs@ =~= old_vals.subrange(i + 1, n as int));
            assert(ks@ =~= k0.subrange(i + 1, n as int));
            i = i + 1;
        }
        proof {
            assert(old_vals.subrange(0, n as int) =~= old_vals);
            assert(crate::keyed::keys_sorted(crate::keyed::key_views(keys@)));
        }
        self.sessions = StrMap { keys, vals };
        proof {
            assert forall|k: Seq<char>|
                #[trigger] self.sessions.lookup(k) == (match old_table.lookup(k) {
                    Some(s) => if expired(s.last_active, now) {
                        None
                    } else {
                        Some(s)
                    },
                    None => None,
                }) by {
                lemma_filtered_lookup(old_table, self.sessions, active_at(now), k);
            }
        }
    }

    /// Open a new session at `now`, then drop the expired ones; gives the
    /// new session's id.
    pub fn create_session(&mut self, now: u64) -> (id: String)
        requires
            old(self).wf(),
        ensures
            final(self).wf(),
            uuid_v4_text(id@),
            final(self).sessions.lookup(id@) == Some(Session { id, last_active: now, authenticated: false }),
            forall|k: Seq<char>|
                k != id@ ==> #[trigger] final(self).sessions.lookup(k) == (match old(self).sessions.lookup(k) {
                    Some(s) => if expired(s.last_active, now) {
                        None
                    } else {
                        Some(s)
                    },
                    None => None,
                }),
    {
        let session = Session::new(now);
        let id = session.id.clone();
        let ghost before = self.sessions;
        let ghost sv = session;
        self.sessions.insert(id.clone(), session);
        let ghost mid = self.sessions;
        proof {
            crate::keyed::lemma_insert_lookup(before, self.sessions, id@, sv);
            crate::keyed::lemma_insert_keeps_keyed(before, self.sessions, id@, sv, |s: Session| s.id@);
        }
        self.retain_active(now);
        proof {
            let p = key_index(mid.key_seq(), id@)->0;
            assert(mid.vals@[p] == sv);
            assert(active_at(now)(sv));
            mid.vals@.lemma_filter_contains(active_at(now), p);
            let j = choose|j: int| 0 <= j < self.sessions.vals@.len() && self.sessions.vals@[j] == sv;
            assert(self.sessions.keys@[j]@ == sv.id@);
            assert(self.sessions.key_seq()[j] == self.sessions.keys@[j]@);
            crate::keyed::lemma_key_index_at(self.sessions.key_seq(), id@, j);
            assert forall|k: Seq<char>|
                k != id@ implies #[trigger] self.sessions.lookup(k) == (match before.lookup(k) {
                    Some(s) => if expired(s.last_active, now) {
                        None
                    } else {
                        Some(s)
                    },
                    None => None,
                }) by {
                assert(mid.lookup(k) == before.lookup(k));
            }
        }
        id
    }

    /// Authenticate session `id` at `now`: it must exist and not be
    /// expired; it is then marked active at `now` and authenticated.
    pub fn authenticate_session(&mut self, id: &str, now: u64) -> (r: bool)
        requires
            old(self).wf(),
        ensures
            final(self).wf(),
            r == (match old(self).sessions.lookup(id@) {
                Some(s) => !expired(s.last_active, now),
                None => false,
            }),
            r ==> final(self).sessions.lookup(id@) == Some(Session {
                last_active: now,
                authenticated: true,
                ..old(self).sessions.lookup(id@)->0
            }),
            r ==> forall|k: Seq<char>| k != id@ ==> #[trigger] final(self).sessions.lookup(k) == old(self).sessions.lookup(k),
            r ==> final(self).sessions.keys == old(self).sessions.keys,
            !r ==> *final(self) == *old(self),
    {
        let ghost before = self.sessions;
        match self.sessions.find(id) {
            Some(i) => {
                if !self.sessions.vals[i].is_expired(now) {
                    let s = &mut self.sessions.vals[i];
                    s.last_active = now;
                    s.authenticated = true;
                    proof {
                        let ks = before.key_seq();
                        assert(self.sessions.key_seq() == ks);
                        assert forall|k: Seq<char>|
                            k != id@ implies #[trigger] self.sessions.lookup(k) == before.lookup(k) by {
                            match key_index(ks, k) {
                                Some(j) => {
                                    assert(crate::keyed::key_at(ks, k, j));
                                    assert(crate::keyed::key_at(ks, id@, i as int));
                                    assert(j != i);
                                    assert(self.sessions.vals@[j] == before.vals@[j]);
                                },
                                None => {},
                            }
                        }
                    }
                    true
                } else {
                    false
                }
            },
            None => false,
        }
    }
}


/// A message seen on the mesh, as the UI's event feed shows it.
pub struct P2PEvent {
    pub timestamp: u64,
    pub direction: String,
    pub source: String,
    pub topic: String,
    pub message: String,
}

/// The query of the log view.
pub struct LogQuery {
    pub tail: Option<u32>,
    pub component: Option<String>,
}

/// The query of the job list.
pub struct JobQuery {
    pub status: Option<String>,
    pub limit: Option<u32>,
}

/// A deployment by reference to a module file.
pub struct DeployRequest {
    pub name: String,
    pub source: String,
    pub sha256_hex: String,
    pub replicas: Option<u32>,
    pub memory_max_mb: Option<u64>,
    pub fuel: Option<u64>,
    pub epoch_ms: Option<u64>,
}

/// New alias and notes for a node.
pub struct ApiNodeUpdateReq {
    pub alias: Option<String>,
    pub notes: Option<String>,
}

/// New roles for a node.
pub struct ApiNodeRolesUpdateReq {
    pub roles: Vec<String>,
}

/// Pin or unpin a stored blob.
pub struct PinRequest {
    pub digest: String,
    pub pinned: bool,
}

/// Collect stored blobs down to a total size.
pub struct GcRequest {
    pub target_total_bytes: u64,
}

/// Clear a component's state volume.
pub struct ClearReq {
    pub name: String,
}

/// The state volume a clear request names, under `data_dir`: refused with
/// 400 `missing name` when the name is blank.
pub fn volume_to_clear(data_dir: &str, req: &ClearReq) -> (r: Result<String, (u16, &'static str)>)
    ensures
        match r {
            Ok(p) => crate::text::trim(req.name@).len() > 0 && p@ == data_dir@ + "/state/components/"@
                + req.name@,
            Err((code, msg)) => crate::text::trim(req.name@).len() == 0 && code == 400 && msg@
                == "missing name"@,
        },
{
    if crate::text::trim_str(req.name.as_str()).unicode_len() == 0 {
        Err((400, "missing name"))
    } else {
        Ok(String::from_str(data_dir).concat("/state/components/").concat(req.name.as_str()))
    }
}

/// The data a status push over the UI's socket carries: node count (at
/// least 1) and the component, restart, memory and fuel figures.
pub struct StatusUpdate {
    pub nodes: usize,
    pub components_running: u64,
    pub components_desired: u64,
    pub restarts_total: u64,
    pub mem_current_bytes: u64,
    pub mem_peak_bytes: u64,
    pub fuel_used_total: u64,
}

pub fn get_status_update(peers: &PeerTable, metrics: &Metrics) -> (r: StatusUpdate)
    requires
        peers.wf(),
    ensures
        r.nodes == (if peers.peers.keys@.len() == 0 { 1 } else { peers.peers.keys@.len() }),
        r.components_running == metrics.components_running,
        r.components_desired == metrics.components_desired,
        r.restarts_total == metrics.restarts_total,
        r.mem_current_bytes == metrics.mem_current_bytes,
        r.mem_peak_bytes == metrics.mem_peak_bytes,
        r.fuel_used_total == metrics.fuel_used_total,
{
    let n = peers.peers.len();
    StatusUpdate {
        nodes: if n > 1 {
            n
        } else {
            1
        },
        components_running: metrics.components_running,
        components_desired: metrics.components_desired,
        restarts_total: metrics.restarts_total,
        mem_current_bytes: metrics.mem_current_bytes,
        mem_peak_bytes: metrics.mem_peak_bytes,
        fuel_used_total: metrics.fuel_used_total,
    }
}

/// Whether a stop request for component `name` may go ahead: refused with
/// 400 for an empty name and with 404 for a component the supervisor does
/// not know.
pub fn stop_check(sup: &Supervisor, name: &str) -> (r: Result<(), (u16, String)>)
    requires
        sup.wf(),
    ensures
        name@.len() == 0 ==> (r matches Err(e) && e.0 == 400 && e.1@ == "Component name cannot be empty"@),
        name@.len() > 0 && sup.desired.lookup(name@) is None ==> (r matches Err(e) && e.0 == 404 && e.1@
            == "Component '"@ + name@ + "' not found"@),
        name@.len() > 0 && sup.desired.lookup(name@) is Some ==> r is Ok,
{
    if name.unicode_len() == 0 {
        return Err((400, String::from_str("Component name cannot be empty")));
    }
    match sup.get_component(name) {
        Some(_) => Ok(()),
        None => Err((404, String::from_str("Component '").concat(name).concat("' not found"))),
    }
}

/// Take a stopped component out of the persistent manifest's components:
/// refused when the manifest does not list it.
pub fn manifest_without(components: &mut StrMap<ComponentSpec>, name: &str) -> (r: Result<(), String>)
    requires
        old(components).wf(),
    ensures
        final(components).wf(),
        final(components).lookup(name@) is None,
        forall|k: Seq<char>| k != name@ ==> #[trigger] final(components).lookup(k) == old(components).lookup(k),
        old(components).lookup(name@) is Some ==> r is Ok,
        old(components).lookup(name@) is None ==> (r matches Err(e) && e@ == "Component '"@ + name@
            + "' not found in manifest"@),
{
    match components.remove(name) {
        Some(_) => Ok(()),
        None => Err(String::from_str("Component '").concat(name).concat("' not found in manifest")),
    }
}

/// The answer to a stop request that went ahead, and the system log line:
/// 200 when stopping succeeded, 500 with the error otherwise.
pub fn stop_outcome(name: &str, result: Result<(), String>) -> (r: (u16, String, String))
    ensures
        match result {
            Ok(()) => r.0 == 200 && r.1@ == "Component '"@ + name@ + "' stopped successfully"@ && r.2@
                == "Component '"@ + name@ + "' stopped via web interface"@,
            Err(e) => r.0 == 500 && r.1@ == "Failed to stop component: "@ + e@ && r.2@ == "Failed to stop component '"@
                + name@ + "': "@ + e@,
        },
{
    match result {
        Ok(()) => (
            200,
            String::from_str("Component '").concat(name).concat("' stopped successfully"),
            String::from_str("Component '").concat(name).concat("' stopped via web interface"),
        ),
        Err(e) => (
            500,
            String::from_str("Failed to stop component: ").concat(e.as_str()),
            String::from_str("Failed to stop component '").concat(name).concat("': ").concat(e.as_str()),
        ),
    }
}

/// One node as its detail page shows it: as listed (see `node_listed`),
/// with the alias and notes the operator gave it.
pub struct ApiNodeDetails {
    pub id: String,
    pub online: bool,
    pub roles: Vec<String>,
    pub components_running: u32,
    pub components_desired: u32,
    pub cpu_percent: u32,
    pub mem_percent: u32,
    pub alias: Option<String>,
    pub notes: Option<String>,
}

/// The details of node `node_id`: none for a node not heard from.
pub fn node_details(peers: &PeerTable, annotations: &StrMap<crate::state::NodeAnnotation>, node_id: &str) -> (r: Option<
    ApiNodeDetails,
>)
    requires
        peers.wf(),
        annotations.wf(),
    ensures
        match peers.peers.lookup(node_id@) {
            None => r is None,
            Some(s) => r matches Some(d) && d.id@ == node_id@ && d.online && d.roles.deep_view()
                == s.tags.deep_view() && d.components_running == s.components_running as u32
                && d.components_desired == s.components_desired as u32 && d.cpu_percent == s.cpu_percent as u32
                && d.mem_percent == s.mem_percent as u32 && d.alias == (match annotations.lookup(node_id@) {
                Some(a) => a.alias,
                None => None,
            }) && d.notes == (match annotations.lookup(node_id@) {
                Some(a) => a.notes,
                None => None,
            }),
        },
{
    match peers.peers.get(node_id) {
        None => None,
        Some(s) => {
            let (alias, notes) = match annotations.get(node_id) {
                Some(a) => (crate::ci::clone_opt(&a.alias), crate::ci::clone_opt(&a.notes)),
                None => (None, None),
            };
            Some(
                ApiNodeDetails {
                    id: String::from_str(node_id),
                    online: true,
                    roles: clone_strings(&s.tags),
                    components_running: s.components_running as u32,
                    components_desired: s.components_desired as u32,
                    cpu_percent: s.cpu_percent as u32,
                    mem_percent: s.mem_percent as u32,
                    alias,
                    notes,
                },
            )
        },
    }
}

} // verus!
