//! The supervisor's desired state: which components should run, with how
//! many replicas, and the reconciliation plan that tops each one up to its
//! replica count. Launching and stopping replicas is the caller's part.
use vstd::prelude::*;
use vstd::string::*;

use crate::component::{MountSpec, ServicePort, Visibility};
use crate::keyed::{key_index, key_views, keys_sorted, StrMap};
use crate::metrics::Metrics;
use crate::digest::{sha256_hex, sha256_hex_spec};

verus! {

/// How a component is to run: where its code comes from and the limits and
/// placement it runs with.
pub struct ComponentSpec {
    pub source: String,
    pub sha256_hex: String,
    pub replicas: Option<u32>,
    pub memory_max_mb: Option<u64>,
    pub fuel: Option<u64>,
    pub epoch_ms: Option<u64>,
    pub mounts: Option<Vec<MountSpec>>,
    pub ports: Option<Vec<ServicePort>>,
    pub visibility: Option<Visibility>,
    pub target_peer_ids: Vec<String>,
    pub target_tags: Vec<String>,
    pub start: bool,
}

/// A component the supervisor keeps running, with the path of its staged
/// module.
pub struct DesiredComponent {
    pub name: String,
    pub path: String,
    pub spec: ComponentSpec,
}

/// Replicas a component asks for: its count, 1 when unset, and never less
/// than 1.
pub open spec fn replicas_wanted(spec: ComponentSpec) -> u32 {
    let r = match spec.replicas {
        Some(r) => r,
        None => 1,
    };
    if r < 1 {
        1
    } else {
        r
    }
}

pub fn wanted_replicas(spec: &ComponentSpec) -> (r: u32)
    ensures
        r == replicas_wanted(*spec),
{
    let r = match spec.replicas {
        Some(r) => r,
        None => 1,
    };
    if r < 1 {
        1
    } else {
        r
    }
}

/// The desired components by name, and how many replicas of each are
/// running.
pub struct Supervisor {
    pub desired: StrMap<DesiredComponent>,
    pub counts: StrMap<u64>,
}

/// Replicas to add to a component wanting `want` with `running` up: the
/// shortfall, or nothing.
pub open spec fn shortfall(want: u32, running: u64) -> u64 {
    if running < want {
        (want - running) as u64
    } else {
        0
    }
}

impl Supervisor {
    pub open spec fn wf(&self) -> bool {
        &&& self.desired.wf()
        &&& self.counts.wf()
        &&& forall|i: int| 0 <= i < self.desired.keys@.len() ==> #[trigger] self.desired.keys@[i]@
            == self.desired.vals@[i].name@
    }

    /// The running count the supervisor holds for `name` (0 when it has none).
    pub open spec fn running(&self, name: Seq<char>) -> u64 {
        match self.counts.lookup(name) {
            Some(c) => c,
            None => 0,
        }
    }

    /// Every desired component has a counter.
    pub open spec fn counted(&self) -> bool {
        forall|i: int| 0 <= i < self.desired.keys@.len() ==> #[trigger] key_index(self.counts.key_seq(), self.desired.keys@[i]@) is Some
    }

    pub fn new() -> (r: Supervisor)
        ensures
            r.wf(),
            r.desired.keys@.len() == 0,
            r.counts.keys@.len() == 0,
    {
        Supervisor { desired: StrMap::new(), counts: StrMap::new() }
    }

    /// Make sure `name` has a counter, starting at 0.
    fn ensure_counter(&mut self, name: &str)
        requires
            old(self).wf(),
        ensures
            final(self).wf(),
            final(self).desired == old(self).desired,
            key_index(final(self).counts.key_seq(), name@) is Some,
            forall|k: Seq<char>| key_index(old(self).counts.key_seq(), k) is Some ==> key_index(final(self).counts.key_seq(), k) is Some,
            forall|k: Seq<char>| #[trigger] final(self).running(k) == old(self).running(k),
    {
        if self.counts.find(name).is_none() {
            let ghost before = self.counts;
            self.counts.insert(String::from_str(name), 0);
            proof {
                crate::keyed::lemma_insert_lookup(before, self.counts, name@, 0u64);
            }
        }
    }

    /// Replace the desired components with `desired`, publish their number
    /// as the desired-components gauge, and give each a counter.
    pub fn set_desired(&mut self, desired: StrMap<DesiredComponent>, metrics: &mut Metrics)
        requires
            old(self).wf(),
            desired.wf(),
            forall|i: int| 0 <= i < desired.keys@.len() ==> #[trigger] desired.keys@[i]@ == desired.vals@[i].name@,
        ensures
            final(self).wf(),
            final(self).desired == desired,
            final(self).counted(),
            forall|k: Seq<char>| #[trigger] final(self).running(k) == old(self).running(k),
            *final(metrics) == (Metrics { components_desired: desired.keys@.len() as u64, ..*old(metrics) }),
    {
        self.desired = desired;
        metrics.set_components_desired(self.desired.len() as u64);
        let mut i: usize = 0;
        let ghost start = *self;
        while i < self.desired.len()
            invariant
                self.wf(),
                self.desired == desired,
                i <= self.desired.keys@.len(),
                forall|j: int| 0 <= j < i ==> #[trigger] key_index(self.counts.key_seq(), self.desired.keys@[j]@) is Some,
                forall|k: Seq<char>| #[trigger] self.running(k) == start.running(k),
                start.counts == old(self).counts,
            decreases self.desired.keys@.len() - i,
        {
            let ghost prev = *self;
            let name = self.desired.keys[i].as_str();
            let n = String::from_str(name);
            self.ensure_counter(n.as_str());
            proof {
                assert forall|j: int| 0 <= j < i + 1 implies #[trigger] key_index(self.counts.key_seq(), self.desired.keys@[j]@) is Some by {
                    if j < i {
                        assert(key_index(prev.counts.key_seq(), prev.desired.keys@[j]@) is Some);
                    }
                }
            }
            i = i + 1;
        }
    }
}


/// The plan of a reconciliation pass over desired components `ds` in
/// order: each component short of replicas, with how many to add.
pub open spec fn reconcile_spec(ds: Seq<DesiredComponent>, s: Supervisor) -> Seq<(Seq<char>, u64)>
    decreases ds.len(),
{
    if ds.len() == 0 {
        Seq::empty()
    } else {
        let rest = reconcile_spec(ds.drop_last(), s);
        let d = ds.last();
        let add = shortfall(replicas_wanted(d.spec), s.running(d.name@));
        if add > 0 {
            rest.push((d.name@, add))
        } else {
            rest
        }
    }
}

pub open spec fn plan_view(v: Seq<(String, u64)>) -> Seq<(Seq<char>, u64)> {
    v.map_values(|e: (String, u64)| (e.0@, e.1))
}

impl Supervisor {
    /// Add or replace one desired component, publish the new number of
    /// desired components, and give it a counter.
    pub fn upsert_component(&mut self, desired: DesiredComponent, metrics: &mut Metrics)
        requires
            old(self).wf(),
        ensures
            final(self).wf(),
            old(self).desired.inserted(desired.name@, desired, final(self).desired),
            key_index(final(self).counts.key_seq(), desired.name@) is Some,
            forall|k: Seq<char>| #[trigger] final(self).running(k) == old(self).running(k),
            *final(metrics) == (Metrics {
                components_desired: final(self).desired.keys@.len() as u64,
                ..*old(metrics)
            }),
    {
        let name = desired.name.clone();
        let ghost before = self.desired;
        let ghost dv = desired;
        self.desired.insert(name.clone(), desired);
        proof {
            crate::keyed::lemma_insert_lookup(before, self.desired, name@, dv);
            assert forall|i: int| 0 <= i < self.desired.keys@.len() implies #[trigger] self.desired.keys@[i]@
                == self.desired.vals@[i].name@ by {
                match key_index(before.key_seq(), name@) {
                    Some(j) => {
                        assert(self.desired.key_seq()[i] == self.desired.keys@[i]@);
                        assert(before.key_seq()[i] == before.keys@[i]@);
                    },
                    None => {
                        let p = choose|p: int|
                            crate::keyed::key_slot(before.key_seq(), name@, p) && self.desired.key_seq()
                                == before.key_seq().insert(p, name@) && self.desired.vals@
                                == #[trigger] before.vals@.insert(p, dv);
                        assert(self.desired.key_seq()[i] == self.desired.keys@[i]@);
                        if i < p {
                            assert(before.key_seq()[i] == before.keys@[i]@);
                        } else if i > p {
                            assert(before.key_seq()[i - 1] == before.keys@[i - 1]@);
                        }
                    },
                }
            }
        }
        metrics.set_components_desired(self.desired.len() as u64);
        self.ensure_counter(name.as_str());
    }

    /// `BTreeMap::get` on the desired components.
    pub fn get_component(&self, name: &str) -> (r: Option<&DesiredComponent>)
        requires
            self.wf(),
        ensures
            match r {
                Some(d) => self.desired.lookup(name@) == Some(*d),
                None => self.desired.lookup(name@) is None,
            },
    {
        self.desired.get(name)
    }

    /// The desired components, in name order.
    pub fn get_desired_snapshot(&self) -> (r: &StrMap<DesiredComponent>)
        ensures
            *r == self.desired,
    {
        &self.desired
    }

    /// One reconciliation pass: every desired component gets a counter, and
    /// the result lists, in name order, each component running fewer
    /// replicas than it wants with the number to launch.
    pub fn reconcile_once(&mut self) -> (plan: Vec<(String, u64)>)
        requires
            old(self).wf(),
        ensures
            final(self).wf(),
            final(self).desired == old(self).desired,
            final(self).counted(),
            forall|k: Seq<char>| #[trigger] final(self).running(k) == old(self).running(k),
            plan_view(plan@) == reconcile_spec(old(self).desired.vals@, *old(self)),
    {
        let ghost s0 = *self;
        let mut plan: Vec<(String, u64)> = Vec::new();
        let mut i: usize = 0;
        while i < self.desired.len()
            invariant
                self.wf(),
                self.desired == s0.desired,
                i <= self.desired.keys@.len(),
                forall|j: int| 0 <= j < i ==> #[trigger] key_index(self.counts.key_seq(), self.desired.keys@[j]@) is Some,
                forall|k: Seq<char>| #[trigger] self.running(k) == s0.running(k),
                plan_view(plan@) == reconcile_spec(s0.desired.vals@.subrange(0, i as int), s0),
            decreases self.desired.keys@.len() - i,
        {
            let ghost prev = *self;
            let name = String::from_str(self.desired.keys[i].as_str());
            let want = wanted_replicas(&self.desired.vals[i].spec);
            self.ensure_counter(name.as_str());
            let running: u64 = match self.counts.get(name.as_str()) {
                Some(c) => *c,
                None => 0,
            };
            proof {
                assert(self.running(name@) == running);
                assert(s0.desired.vals@.subrange(0, i + 1).drop_last() =~= s0.desired.vals@.subrange(0, i as int));
                assert(s0.desired.vals@.subrange(0, i + 1).last() == s0.desired.vals@[i as int]);
                assert(name@ == s0.desired.vals@[i as int].name@);
                assert forall|j: int| 0 <= j < i + 1 implies #[trigger] key_index(self.counts.key_seq(), self.desired.keys@[j]@) is Some by {
                    if j < i {
                        assert(key_index(prev.counts.key_seq(), prev.desired.keys@[j]@) is Some);
                    }
                }
            }
            if running < want as u64 {
                let add: u64 = want as u64 - running;
                let ghost pv = plan_view(plan@);
                plan.push((name, add));
                assert(plan_view(plan@) =~= pv.push((s0.desired.vals@[i as int].name@, add)));
            }
            i = i + 1;
        }
        assert(s0.desired.vals@.subrange(0, s0.desired.vals@.len() as int) =~= s0.desired.vals@);
        plan
    }

    /// A replica of `name` was launched: its counter goes up by one
    /// (wrapping like an atomic counter).
    pub fn replica_started(&mut self, name: &str)
        requires
            old(self).wf(),
        ensures
            final(self).wf(),
            final(self).desired == old(self).desired,
            final(self).running(name@) == (if old(self).running(name@) == u64::MAX { 0 } else { (old(self).running(name@) + 1) as u64 }),
            forall|k: Seq<char>| k != name@ ==> #[trigger] final(self).running(k) == old(self).running(k),
    {
        let c: u64 = match self.counts.get(name) {
            Some(c) => *c,
            None => 0,
        };
        let ghost before = self.counts;
        let n: u64 = if c == u64::MAX { 0 } else { c + 1 };
        self.counts.insert(String::from_str(name), n);
        proof {
            crate::keyed::lemma_insert_lookup(before, self.counts, name@, n);
        }
    }

    /// A replica of `name` exited: its counter goes down by one (wrapping
    /// like an atomic counter).
    pub fn replica_exited(&mut self, name: &str)
        requires
            old(self).wf(),
        ensures
            final(self).wf(),
            final(self).desired == old(self).desired,
            final(self).running(name@) == (if old(self).running(name@) == 0 { u64::MAX } else { (old(self).running(name@) - 1) as u64 }),
            forall|k: Seq<char>| k != name@ ==> #[trigger] final(self).running(k) == old(self).running(k),
    {
        let c: u64 = match self.counts.get(name) {
            Some(c) => *c,
            None => 0,
        };
        let ghost before = self.counts;
        let n: u64 = if c == 0 { u64::MAX } else { c - 1 };
        self.counts.insert(String::from_str(name), n);
        proof {
            crate::keyed::lemma_insert_lookup(before, self.counts, name@, n);
        }
    }
}

/// The export a module built as an HTTP component carries.
pub open spec fn http_marker() -> Seq<u8> {
    "wasi:http/incoming-handler"@.map_values(|c: char| c as u8)
}

/// Does `pat` occur in `bytes`?
pub open spec fn bytes_contain(bytes: Seq<u8>, pat: Seq<u8>) -> bool {
    exists|i: int| 0 <= i && i + pat.len() <= bytes.len() && #[trigger] bytes.subrange(i, i + pat.len()) == pat
}

fn bytes_at(bytes: &[u8], pat: &[u8], i: usize) -> (r: bool)
    requires
        i + pat@.len() <= bytes@.len(),
    ensures
        r == (bytes@.subrange(i as int, i + pat@.len()) == pat@),
{
    let mut j: usize = 0;
    let n = bytes.len();
    while j < pat.len()
        invariant
            n == bytes@.len(),
            i + pat@.len() <= bytes@.len(),
            j <= pat@.len(),
            forall|k: int| 0 <= k < j ==> bytes@[i + k] == pat@[k],
        decreases pat.len() - j,
    {
        if bytes[i + j] != pat[j] {
            assert(bytes@.subrange(i as int, i + pat@.len())[j as int] != pat@[j as int]);
            return false;
        }
        j = j + 1;
    }
    assert(bytes@.subrange(i as int, i + pat@.len()) =~= pat@);
    true
}

/// Does a module carry the HTTP handler export, so that it is served on
/// demand through the gateway rather than run as a replica? The test reads
/// the module's bytes as text, where the export's ASCII name shows up
/// exactly when its bytes do.
pub fn is_http_component(wasm: &[u8]) -> (r: bool)
    ensures
        r == bytes_contain(wasm@, http_marker()),
{
    let lit = "wasi:http/incoming-handler";
    proof {
        reveal_strlit("wasi:http/incoming-handler");
        vstd::string::is_ascii_spec_bytes(lit);
    }
    let pat = lit.as_bytes();
    assert(pat@ =~= http_marker());
    if wasm.len() < pat.len() {
        assert forall|i: int| 0 <= i && i + pat@.len() <= wasm@.len() implies #[trigger] wasm@.subrange(i, i + pat@.len()) != pat@ by {}
        return false;
    }
    let n = wasm.len();
    let last = n - pat.len();
    let mut i: usize = 0;
    while i <= last
        invariant
            n == wasm@.len(),
            pat@.len() > 0,
            last + pat@.len() == wasm@.len(),
            pat@ == http_marker(),
            forall|k: int| 0 <= k < i ==> #[trigger] wasm@.subrange(k, k + pat@.len()) != pat@,
        decreases last + 1 - i,
    {
        if bytes_at(wasm, pat, i) {
            return true;
        }
        i = i + 1;
    }
    false
}

/// The components to run from the first `k` of a manifest's components for
/// this node (names `names`, specifications `specs`, in name order): those
/// to start that have a staged module in `staged`, with that module.
pub open spec fn runnable(
    names: Seq<Seq<char>>,
    specs: Seq<ComponentSpec>,
    staged: StrMap<String>,
    k: int,
) -> Seq<(Seq<char>, Seq<char>, ComponentSpec)>
    decreases k,
{
    if k <= 0 {
        Seq::empty()
    } else {
        let rest = runnable(names, specs, staged, k - 1);
        let name = names[k - 1];
        let spec = specs[k - 1];
        if spec.start && staged.lookup(name) is Some {
            rest.push((name, staged.lookup(name)->0@, spec))
        } else {
            rest
        }
    }
}

/// How many of the first `k` specifications ask to start.
pub open spec fn start_count(specs: Seq<ComponentSpec>, k: int) -> nat
    decreases k,
{
    if k <= 0 {
        0
    } else {
        start_count(specs, k - 1) + (if specs[k - 1].start { 1nat } else { 0nat })
    }
}

/// The desired set an accepted manifest gives this node, from its
/// components addressed to this node (`applicable`, by name) and the
/// modules staged for them (`staged`, name to path): the components to run
/// (see `runnable`), and how many components ask to start, which the
/// desired-components gauge shows.
pub fn desired_from_manifest(applicable: StrMap<ComponentSpec>, staged: &StrMap<String>) -> (r: (
    StrMap<DesiredComponent>,
    u64,
))
    requires
        applicable.wf(),
        staged.wf(),
    ensures
        r.0.wf(),
        forall|i: int| 0 <= i < r.0.keys@.len() ==> #[trigger] r.0.keys@[i]@ == r.0.vals@[i].name@,
        r.0.keys@.len() == runnable(applicable.key_seq(), applicable.vals@, *staged, applicable.vals@.len() as int).len(),
        forall|i: int|
            0 <= i < r.0.keys@.len() ==> (r.0.keys@[i]@, r.0.vals@[i].path@, r.0.vals@[i].spec) == #[trigger] runnable(
                applicable.key_seq(),
                applicable.vals@,
                *staged,
                applicable.vals@.len() as int,
            )[i],
        r.1 == start_count(applicable.vals@, applicable.vals@.len() as int),
{
    let ghost names = applicable.key_seq();
    let ghost specs = applicable.vals@;
    let StrMap { keys: mut ks, vals: mut vs } = applicable;
    let n = vs.len();
    let mut keys: Vec<String> = Vec::new();
    let mut vals: Vec<DesiredComponent> = Vec::new();
    let mut count: u64 = 0;
    let mut i: usize = 0;
    while i < n
        invariant
            n == specs.len(),
            names.len() == n,
            keys_sorted(names),
            i <= n,
            ks@.len() == n - i,
            vs@ == specs.subrange(i as int, n as int),
            forall|j: int| 0 <= j < ks@.len() ==> #[trigger] ks@[j]@ == names[i + j],
            staged.wf(),
            count == start_count(specs, i as int),
            count <= i,
            keys@.len() == vals@.len(),
            keys@.len() == runnable(names, specs, *staged, i as int).len(),
            forall|j: int|
                0 <= j < keys@.len() ==> (keys@[j]@, vals@[j].path@, vals@[j].spec) == #[trigger] runnable(
                    names,
                    specs,
                    *staged,
                    i as int,
                )[j],
            forall|j: int| 0 <= j < keys@.len() ==> #[trigger] keys@[j]@ == vals@[j].name@,
            forall|a: int, b: int| 0 <= a < b < keys@.len() ==> crate::text::seq_lt(#[trigger] keys@[a]@, #[trigger] keys@[b]@),
            forall|a: int, b: int| 0 <= a < keys@.len() && i <= b < n ==> crate::text::seq_lt(#[trigger] keys@[a]@, #[trigger] names[b]),
        decreases n - i,
    {
        let ghost prev = runnable(names, specs, *staged, i as int);
        let ghost ks0 = ks@;
        let name = ks.remove(0);
        let spec = vs.remove(0);
        proof {
            assert(name@ == names[i as int]);
            assert(spec == specs[i as int]);
            assert(vs@ =~= specs.subrange(i + 1, n as int));
            assert forall|j: int| 0 <= j < ks@.len() implies #[trigger] ks@[j]@ == names[i + 1 + j] by {
                assert(ks@[j] == ks0[j + 1]);
            }
        }
        if spec.start {
            count = count + 1;
            match staged.get(name.as_str()) {
                Some(p) => {
                    let ghost kk = keys@;
                    let path = p.clone();
                    keys.push(name.clone());
                    vals.push(DesiredComponent { name, path, spec });
                    proof {
                        assert(runnable(names, specs, *staged, i + 1) == prev.push((names[i as int], staged.lookup(names[i as int])->0@, specs[i as int])));
                        assert forall|a: int, b: int| 0 <= a < keys@.len() && i + 1 <= b < n implies crate::text::seq_lt(
                            #[trigger] keys@[a]@,
                            #[trigger] names[b],
                        ) by {
                            if a < kk.len() {
                                assert(crate::text::seq_lt(kk[a]@, names[b]));
                            } else {
                                assert(crate::text::seq_lt(names[i as int], names[b]));
                            }
                        }
                        assert forall|a: int, b: int| 0 <= a < b < keys@.len() implies crate::text::seq_lt(
                            #[trigger] keys@[a]@,
                            #[trigger] keys@[b]@,
                        ) by {
                            if b == kk.len() {
                                assert(crate::text::seq_lt(kk[a]@, names[i as int]));
                            } else {
                                assert(crate::text::seq_lt(kk[a]@, kk[b]@));
                            }
                        }
                    }
                },
                None => {
                    assert(runnable(names, specs, *staged, i + 1) == prev);
                },
            }
        } else {
            assert(runnable(names, specs, *staged, i + 1) == prev);
        }
        i = i + 1;
    }
    proof {
        assert(crate::keyed::keys_sorted(crate::keyed::key_views(keys@))) by {
            assert forall|a: int, b: int| 0 <= a < b < key_views(keys@).len() implies crate::text::seq_lt(
                #[trigger] key_views(keys@)[a],
                #[trigger] key_views(keys@)[b],
            ) by {
                assert(key_views(keys@)[a] == keys@[a]@);
                assert(key_views(keys@)[b] == keys@[b]@);
            }
        }
    }
    (StrMap { keys, vals }, count)
}

/// The name of `std::path::Path::starts_with` on two paths: whether `base`
/// is a prefix of `path` component by component.
pub uninterp spec fn path_prefix(path: Seq<char>, base: Seq<char>) -> bool;

/// `Path::new(path).starts_with(base)`. Its result depends on the two
/// paths alone and is named; a path starts with itself.
#[verifier::external_body]
fn path_starts_with(path: &str, base: &str) -> (r: bool)
    ensures
        r == path_prefix(path@, base@),
        path@ == base@ ==> r,
{
    std::path::Path::new(path).starts_with(base)
}

/// The limits a replica runs with: memory in MB, fuel and epoch length in
/// ms, by default 64, 5 000 000 and 100.
pub fn replica_limits(spec: &ComponentSpec) -> (r: (u64, u64, u64))
    ensures
        r.0 == (match spec.memory_max_mb {
            Some(m) => m,
            None => 64,
        }),
        r.1 == (match spec.fuel {
            Some(f) => f,
            None => 5000000,
        }),
        r.2 == (match spec.epoch_ms {
            Some(e) => e,
            None => 100,
        }),
{
    (
        match spec.memory_max_mb {
            Some(m) => m,
            None => 64,
        },
        match spec.fuel {
            Some(f) => f,
            None => 5000000,
        },
        match spec.epoch_ms {
            Some(e) => e,
            None => 100,
        },
    )
}

/// The work directory of one replica: a subdirectory of the component's
/// work directory named by the replica's start time (microseconds).
pub fn replica_work_dir(base_work_dir: &str, replica_id: u64) -> (r: String)
    ensures
        r@ == base_work_dir@ + "/"@ + crate::text::decimal(replica_id as nat),
{
    String::from_str(base_work_dir).concat("/").concat(crate::text::u64_to_decimal(replica_id).as_str())
}

/// The mounts a replica runs with: each mount under the component's work
/// directory `base_work_dir` moves to the replica's own `replica_dir`, the
/// others stay; and whether any moved (then the replica's directory is
/// made, and removed when it exits).
pub fn replica_mounts(mounts: &Option<Vec<MountSpec>>, base_work_dir: &str, replica_dir: &str) -> (r: (
    Option<Vec<MountSpec>>,
    bool,
))
    ensures
        match mounts {
            None => r.0 is None && !r.1,
            Some(ms) => r.0 matches Some(v) && v@.len() == ms@.len() && (r.1 <==> exists|i: int|
                0 <= i < ms@.len() && path_prefix(#[trigger] ms@[i].host@, base_work_dir@)) && forall|i: int|
                0 <= i < ms@.len() ==> {
                    &&& (#[trigger] v@[i]).guest == ms@[i].guest
                    &&& v@[i].ro == ms@[i].ro
                    &&& v@[i].host@ == (if path_prefix(ms@[i].host@, base_work_dir@) {
                        replica_dir@
                    } else {
                        ms@[i].host@
                    })
                },
        },
{
    match mounts {
        None => (None, false),
        Some(ms) => {
            let mut out: Vec<MountSpec> = Vec::new();
            let mut any = false;
            let mut i: usize = 0;
            while i < ms.len()
                invariant
                    i <= ms@.len(),
                    out@.len() == i,
                    any <==> exists|k: int| 0 <= k < i && path_prefix(#[trigger] ms@[k].host@, base_work_dir@),
                    forall|k: int|
                        0 <= k < i ==> {
                            &&& (#[trigger] out@[k]).guest == ms@[k].guest
                            &&& out@[k].ro == ms@[k].ro
                            &&& out@[k].host@ == (if path_prefix(ms@[k].host@, base_work_dir@) {
                                replica_dir@
                            } else {
                                ms@[k].host@
                            })
                        },
                decreases ms.len() - i,
            {
                let m = &ms[i];
                let under = path_starts_with(m.host.as_str(), base_work_dir);
                let host = if under {
                    String::from_str(replica_dir)
                } else {
                    m.host.clone()
                };
                proof {
                    if under {
                        assert(path_prefix(ms@[i as int].host@, base_work_dir@));
                    }
                }
                out.push(MountSpec { host, guest: m.guest.clone(), ro: m.ro });
                any = any || under;
                i = i + 1;
            }
            (Some(out), any)
        },
    }
}

/// The staged module a component is restored from after a restart: one to
/// start whose cached module (`cached`, by name) still has the digest its
/// specification names, at the path it was staged under in `stage_dir`.
pub open spec fn restored_path(stage_dir: Seq<char>, name: Seq<char>, spec: ComponentSpec, cached: StrMap<Vec<u8>>) -> Option<
    Seq<char>,
> {
    if spec.start && cached.lookup(name) is Some && sha256_hex_spec(cached.lookup(name)->0@) == spec.sha256_hex@ {
        Some(stage_dir + "/"@ + name + "-"@ + spec.sha256_hex@.subrange(0, 16) + ".wasm"@)
    } else {
        None
    }
}

/// The modules to restore the persistent manifest's components for this
/// node (`applicable`) from, by name (see `restored_path`); give it to
/// `desired_from_manifest` as the staged modules.
pub fn restorable(applicable: &StrMap<ComponentSpec>, stage_dir: &str, cached: &StrMap<Vec<u8>>) -> (r: StrMap<String>)
    requires
        applicable.wf(),
        cached.wf(),
    ensures
        r.wf(),
        forall|k: Seq<char>|
            #[trigger] crate::platform::opt_string_view(r.lookup(k)) == match applicable.lookup(k) {
                Some(s) => restored_path(stage_dir@, k, s, *cached),
                None => None,
            },
{
    let ghost names = applicable.key_seq();
    let mut out: StrMap<String> = StrMap::new();
    let mut i: usize = 0;
    while i < applicable.vals.len()
        invariant
            applicable.wf(),
            cached.wf(),
            names == applicable.key_seq(),
            i <= applicable.vals@.len(),
            out.wf(),
            forall|k: Seq<char>|
                #[trigger] crate::platform::opt_string_view(out.lookup(k)) == match key_index(names, k) {
                    Some(j) => if j < i {
                        restored_path(stage_dir@, k, applicable.vals@[j], *cached)
                    } else {
                        None
                    },
                    None => None,
                },
        decreases applicable.vals.len() - i,
    {
        let name = &applicable.keys[i];
        let spec = &applicable.vals[i];
        proof {
            assert(names[i as int] == name@);
            crate::keyed::lemma_key_index_at(names, name@, i as int);
        }
        let mut found: Option<String> = None;
        if spec.start {
            match cached.get(name.as_str()) {
                Some(bytes) => {
                    let digest = sha256_hex(bytes.as_slice());
                    if crate::text::str_eq(digest.as_str(), spec.sha256_hex.as_str()) {
                        found = Some(crate::admission::staged_module_path(stage_dir, name.as_str(), spec.sha256_hex.as_str()));
                    }
                },
                None => {},
            }
        }
        proof {
            assert(crate::platform::opt_string_view(found) == restored_path(stage_dir@, name@, *spec, *cached));
        }
        match found {
            Some(path) => {
                let ghost before = out;
                out.insert(name.clone(), path);
                proof {
                    crate::keyed::lemma_insert_lookup(before, out, name@, path);
                    assert forall|k: Seq<char>|
                        #[trigger] crate::platform::opt_string_view(out.lookup(k)) == match key_index(names, k) {
                            Some(j) => if j < i + 1 {
                                restored_path(stage_dir@, k, applicable.vals@[j], *cached)
                            } else {
                                None
                            },
                            None => None,
                        } by {
                        if k != name@ {
                            assert(out.lookup(k) == before.lookup(k));
                            match key_index(names, k) {
                                Some(j) => {
                                    assert(j != i);
                                },
                                None => {},
                            }
                        }
                    }
                }
            },
            None => {
                proof {
                    assert forall|k: Seq<char>|
                        #[trigger] crate::platform::opt_string_view(out.lookup(k)) == match key_index(names, k) {
                            Some(j) => if j < i + 1 {
                                restored_path(stage_dir@, k, applicable.vals@[j], *cached)
                            } else {
                                None
                            },
                            None => None,
                        } by {
                        match key_index(names, k) {
                            Some(j) => {
                                if j == i {
                                    assert(k == name@);
                                }
                            },
                            None => {},
                        }
                    }
                }
            },
        }
        i = i + 1;
    }
    out
}

/// Is a manifest component meant for node `local_id` with roles `roles`?
/// By the selectors the agent applies to pushes and upgrades: its peer ids
/// must name the node when there are any, and its tags must share a role
/// when there are any.
pub open spec fn for_node(spec: ComponentSpec, local_id: Seq<char>, roles: Seq<Seq<char>>) -> bool {
    crate::mesh::targeted(local_id, roles, spec.target_peer_ids.deep_view(), spec.target_tags.deep_view())
}

/// The names, among the first `k` of a manifest's components, of those not
/// meant for the node, in order.
pub open spec fn skipped_names(
    names: Seq<Seq<char>>,
    specs: Seq<ComponentSpec>,
    local_id: Seq<char>,
    roles: Seq<Seq<char>>,
    k: int,
) -> Seq<Seq<char>>
    decreases k,
{
    if k <= 0 {
        Seq::empty()
    } else {
        let rest = skipped_names(names, specs, local_id, roles, k - 1);
        if for_node(specs[k - 1], local_id, roles) {
            rest
        } else {
            rest.push(names[k - 1])
        }
    }
}

/// Split a manifest's components (`all`, by name) into those meant for this
/// node (see `for_node`), kept by name, and the names of the others, in
/// name order.
pub fn applicable_components(all: StrMap<ComponentSpec>, local_id: &str, roles: &Vec<String>) -> (r: (
    StrMap<ComponentSpec>,
    Vec<String>,
))
    requires
        all.wf(),
    ensures
        r.0.wf(),
        forall|k: Seq<char>|
            #[trigger] r.0.lookup(k) == match all.lookup(k) {
                Some(s) => if for_node(s, local_id@, roles.deep_view()) {
                    Some(s)
                } else {
                    None
                },
                None => None,
            },
        r.1.deep_view() == skipped_names(all.key_seq(), all.vals@, local_id@, roles.deep_view(), all.vals@.len() as int),
{
    let ghost names = all.key_seq();
    let ghost specs = all.vals@;
    let ghost rv = roles.deep_view();
    let StrMap { keys: mut ks, vals: mut vs } = all;
    let n = vs.len();
    let mut out: StrMap<ComponentSpec> = StrMap::new();
    let mut skipped: Vec<String> = Vec::new();
    let mut i: usize = 0;
    while i < n
        invariant
            n == specs.len(),
            names.len() == n,
            keys_sorted(names),
            i <= n,
            ks@.len() == n - i,
            vs@ == specs.subrange(i as int, n as int),
            forall|j: int| 0 <= j < ks@.len() ==> #[trigger] ks@[j]@ == names[i + j],
            rv == roles.deep_view(),
            out.wf(),
            forall|k: Seq<char>|
                #[trigger] out.lookup(k) == match key_index(names, k) {
                    Some(j) => if j < i && for_node(specs[j], local_id@, rv) {
                        Some(specs[j])
                    } else {
                        None
                    },
                    None => None,
                },
            skipped.deep_view() == skipped_names(names, specs, local_id@, rv, i as int),
        decreases n - i,
    {
        let ghost ks0 = ks@;
        let name = ks.remove(0);
        let spec = vs.remove(0);
        proof {
            assert(name@ == names[i as int]);
            assert(spec == specs[i as int]);
            assert(vs@ =~= specs.subrange(i + 1, n as int));
            assert forall|j: int| 0 <= j < ks@.len() implies #[trigger] ks@[j]@ == names[i + 1 + j] by {
                assert(ks@[j] == ks0[j + 1]);
            }
            crate::keyed::lemma_key_index_at(names, name@, i as int);
        }
        if crate::mesh::is_targeted(local_id, roles, &spec.target_peer_ids, &spec.target_tags) {
            let ghost before = out;
            let ghost sv = spec;
            out.insert(name, spec);
            proof {
                crate::keyed::lemma_insert_lookup(before, out, names[i as int], sv);
                assert forall|k: Seq<char>|
                    #[trigger] out.lookup(k) == match key_index(names, k) {
                        Some(j) => if j < i + 1 && for_node(specs[j], local_id@, rv) {
                            Some(specs[j])
                        } else {
                            None
                        },
                        None => None,
                    } by {
                    if k != names[i as int] {
                        assert(out.lookup(k) == before.lookup(k));
                        match key_index(names, k) {
                            Some(j) => {
                                assert(crate::keyed::key_at(names, k, j));
                                assert(j != i);
                            },
                            None => {},
                        }
                    }
                }
            }
        } else {
            let ghost sk = skipped.deep_view();
            skipped.push(name);
            proof {
                assert(skipped.deep_view() =~= sk.push(names[i as int]));
                assert forall|k: Seq<char>|
                    #[trigger] out.lookup(k) == match key_index(names, k) {
                        Some(j) => if j < i + 1 && for_node(specs[j], local_id@, rv) {
                            Some(specs[j])
                        } else {
                            None
                        },
                        None => None,
                    } by {
                    match key_index(names, k) {
                        Some(j) => {
                            if j == i {
                                assert(!for_node(specs[j], local_id@, rv));
                            }
                        },
                        None => {},
                    }
                }
            }
        }
        i = i + 1;
    }
    (out, skipped)
}

/// Apply an accepted manifest of `version` whose components for this node
/// are `applicable`, with the modules staged for them (`staged`, name to
/// path): the supervisor gets the components to run (see `runnable`), the
/// desired-components gauge their number, and the agent records the
/// version. Gives the acknowledgement.
pub fn apply_manifest(
    state: &mut crate::state::AgentState,
    sup: &mut Supervisor,
    metrics: &mut Metrics,
    version: u64,
    applicable: StrMap<ComponentSpec>,
    staged: &StrMap<String>,
) -> (r: String)
    requires
        old(sup).wf(),
        applicable.wf(),
        staged.wf(),
    ensures
        *final(state) == (crate::state::AgentState { manifest_version: version, ..*old(state) }),
        final(sup).wf(),
        final(sup).desired.keys@.len() == runnable(
            applicable.key_seq(),
            applicable.vals@,
            *staged,
            applicable.vals@.len() as int,
        ).len(),
        forall|i: int|
            0 <= i < final(sup).desired.keys@.len() ==> (
                final(sup).desired.keys@[i]@,
                final(sup).desired.vals@[i].path@,
                final(sup).desired.vals@[i].spec,
            ) == #[trigger] runnable(applicable.key_seq(), applicable.vals@, *staged, applicable.vals@.len() as int)[i],
        forall|k: Seq<char>| #[trigger] final(sup).running(k) == old(sup).running(k),
        *final(metrics) == (Metrics {
            components_desired: runnable(
                applicable.key_seq(),
                applicable.vals@,
                *staged,
                applicable.vals@.len() as int,
            ).len() as u64,
            ..*old(metrics)
        }),
        r@ == "manifest accepted v"@ + crate::text::decimal(version as nat),
{
    let (desired, _count) = desired_from_manifest(applicable, staged);
    sup.set_desired(desired, metrics);
    state.manifest_version = version;
    crate::admission::manifest_accepted_msg(version)
}

} // verus!
