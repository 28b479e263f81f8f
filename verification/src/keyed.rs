//! Tables keyed by strings in ascending order, the way the agent's
//! `BTreeMap<String, _>` tables keep and walk their entries: the order of
//! strings, where a key goes, and lookups.
use vstd::prelude::*;

use crate::text::{seq_lt, str_eq, str_lt};

verus! {

pub proof fn lemma_seq_lt_irreflexive(a: Seq<char>)
    ensures
        !seq_lt(a, a),
    decreases a.len(),
{
    if a.len() > 0 {
        lemma_seq_lt_irreflexive(a.drop_first());
    }
}

pub proof fn lemma_seq_lt_transitive(a: Seq<char>, b: Seq<char>, c: Seq<char>)
    requires
        seq_lt(a, b),
        seq_lt(b, c),
    ensures
        seq_lt(a, c),
    decreases a.len(),
{
    if a.len() > 0 && a[0] == b[0] && b[0] == c[0] {
        lemma_seq_lt_transitive(a.drop_first(), b.drop_first(), c.drop_first());
    }
}

pub proof fn lemma_seq_lt_total(a: Seq<char>, b: Seq<char>)
    ensures
        a == b || seq_lt(a, b) || seq_lt(b, a),
    decreases a.len(),
{
    if a.len() == 0 || b.len() == 0 {
        if a.len() == 0 && b.len() == 0 {
            assert(a =~= b);
        }
    } else if a[0] != b[0] {
        assert((a[0] as int) != (b[0] as int));
    } else {
        lemma_seq_lt_total(a.drop_first(), b.drop_first());
        if a.drop_first() == b.drop_first() {
            assert(a =~= seq![a[0]] + a.drop_first());
            assert(b =~= seq![b[0]] + b.drop_first());
        }
    }
}

/// The keys ascend strictly.
pub open spec fn keys_sorted(k: Seq<Seq<char>>) -> bool {
    forall|i: int, j: int| 0 <= i < j < k.len() ==> seq_lt(#[trigger] k[i], #[trigger] k[j])
}

pub open spec fn key_views(k: Seq<String>) -> Seq<Seq<char>> {
    k.map_values(|s: String| s@)
}

/// Where `k` is or would go among sorted keys: every key before `p` is
/// smaller, and the key at `p`, if any, is `k` or greater.
pub open spec fn key_slot(keys: Seq<Seq<char>>, k: Seq<char>, p: int) -> bool {
    &&& 0 <= p <= keys.len()
    &&& forall|i: int| 0 <= i < p ==> seq_lt(#[trigger] keys[i], k)
    &&& p < keys.len() ==> (keys[p] == k || seq_lt(k, keys[p]))
}

/// Position of `k` among `keys`, if it is there.
pub open spec fn key_index(keys: Seq<Seq<char>>, k: Seq<char>) -> Option<int> {
    if exists|i: int| key_at(keys, k, i) {
        Some(choose|i: int| key_at(keys, k, i))
    } else {
        None
    }
}

pub open spec fn key_at(keys: Seq<Seq<char>>, k: Seq<char>, i: int) -> bool {
    0 <= i < keys.len() && keys[i] == k
}

/// In sorted keys, a key occurs at most once.
pub proof fn lemma_sorted_unique(keys: Seq<Seq<char>>, i: int, j: int)
    requires
        keys_sorted(keys),
        0 <= i < keys.len(),
        0 <= j < keys.len(),
        keys[i] == keys[j],
    ensures
        i == j,
{
    if i < j {
        lemma_seq_lt_irreflexive(keys[i]);
        assert(seq_lt(keys[i], keys[j]));
    } else if j < i {
        lemma_seq_lt_irreflexive(keys[i]);
        assert(seq_lt(keys[j], keys[i]));
    }
}

/// At the slot of `k`: `k` is present exactly when it sits there.
pub proof fn lemma_key_slot_index(keys: Seq<Seq<char>>, k: Seq<char>, p: int)
    requires
        keys_sorted(keys),
        key_slot(keys, k, p),
    ensures
        p < keys.len() && keys[p] == k ==> key_index(keys, k) == Some(p),
        !(p < keys.len() && keys[p] == k) ==> key_index(keys, k) is None,
{
    if p < keys.len() && keys[p] == k {
        assert(0 <= p < keys.len() && keys[p] == k);
        assert(key_at(keys, k, p));
        let i = choose|i: int| key_at(keys, k, i);
        lemma_sorted_unique(keys, i, p);
    } else {
        assert forall|i: int| 0 <= i < keys.len() implies keys[i] != k by {
            if i < p {
                lemma_seq_lt_irreflexive(k);
            } else {
                lemma_seq_lt_irreflexive(k);
                if i > p {
                    lemma_seq_lt_transitive(k, keys[p], keys[i]);
                }
            }
        }
    }
}

/// Putting `k` at its slot keeps the keys sorted.
pub proof fn lemma_insert_sorted(keys: Seq<Seq<char>>, k: Seq<char>, p: int)
    requires
        keys_sorted(keys),
        key_slot(keys, k, p),
        !(p < keys.len() && keys[p] == k),
    ensures
        keys_sorted(keys.insert(p, k)),
{
    let n = keys.insert(p, k);
    assert forall|i: int, j: int| 0 <= i < j < n.len() implies seq_lt(#[trigger] n[i], #[trigger] n[j]) by {
        if j < p {
        } else if j == p {
        } else if i < p {
            if j - 1 > p {
                lemma_seq_lt_transitive(k, keys[p], keys[j - 1]);
            }
            lemma_seq_lt_transitive(keys[i], k, keys[j - 1]);
        } else if i == p {
            if j - 1 > p {
                lemma_seq_lt_transitive(k, keys[p], keys[j - 1]);
            }
        } else {
        }
    }
}

/// Find the slot of `k` among sorted keys, and whether `k` is there.
pub fn key_position(keys: &Vec<String>, k: &str) -> (r: (usize, bool))
    requires
        keys_sorted(key_views(keys@)),
    ensures
        key_slot(key_views(keys@), k@, r.0 as int),
        r.1 == (r.0 < keys@.len() && keys@[r.0 as int]@ == k@),
        r.1 ==> key_index(key_views(keys@), k@) == Some(r.0 as int),
        !r.1 ==> key_index(key_views(keys@), k@) is None,
{
    let ghost kv = key_views(keys@);
    let mut i: usize = 0;
    while i < keys.len() && str_lt(keys[i].as_str(), k)
        invariant
            kv == key_views(keys@),
            i <= keys@.len(),
            forall|j: int| 0 <= j < i ==> seq_lt(#[trigger] kv[j], k@),
        decreases keys.len() - i,
    {
        i = i + 1;
    }
    let found = i < keys.len() && str_eq(keys[i].as_str(), k);
    proof {
        if i < keys@.len() {
            assert(kv[i as int] == keys@[i as int]@);
            lemma_seq_lt_total(kv[i as int], k@);
        }
        lemma_key_slot_index(kv, k@, i as int);
    }
    (i, found)
}



/// In sorted keys, the position of a present key is where it sits.
pub proof fn lemma_key_index_at(keys: Seq<Seq<char>>, k: Seq<char>, j: int)
    requires
        keys_sorted(keys),
        0 <= j < keys.len(),
        keys[j] == k,
    ensures
        key_index(keys, k) == Some(j),
{
    assert(key_at(keys, k, j));
    let i = choose|i: int| key_at(keys, k, i);
    lemma_sorted_unique(keys, i, j);
}

/// Reading a table after `insert`: the key gives the new value, every
/// other key what it gave before, and the keys present are the old ones and
/// the new one.
pub proof fn lemma_insert_lookup<V>(a: StrMap<V>, b: StrMap<V>, k: Seq<char>, v: V)
    requires
        a.wf(),
        b.wf(),
        a.inserted(k, v, b),
    ensures
        b.lookup(k) == Some(v),
        forall|k2: Seq<char>| k2 != k ==> #[trigger] b.lookup(k2) == a.lookup(k2),
        forall|k2: Seq<char>|
            #[trigger] key_index(b.key_seq(), k2) is Some <==> (k2 == k || key_index(a.key_seq(), k2) is Some),
{
    let ak = a.key_seq();
    let bk = b.key_seq();
    match key_index(ak, k) {
        Some(i) => {
            assert(key_at(ak, k, i));
            lemma_key_index_at(bk, k, i);
            assert forall|k2: Seq<char>| k2 != k implies #[trigger] b.lookup(k2) == a.lookup(k2) by {
                match key_index(ak, k2) {
                    Some(j) => {
                        assert(key_at(ak, k2, j));
                        lemma_key_index_at(bk, k2, j);
                    },
                    None => {
                        assert(bk == ak);
                    },
                }
            }
            assert forall|k2: Seq<char>|
                #[trigger] key_index(bk, k2) is Some <==> (k2 == k || key_index(ak, k2) is Some) by {
                assert(bk == ak);
            }
        },
        None => {
            let p = choose|p: int|
                key_slot(ak, k, p) && bk == ak.insert(p, k) && b.vals@ == #[trigger] a.vals@.insert(p, v);
            lemma_key_index_at(bk, k, p);
            assert forall|k2: Seq<char>| k2 != k implies #[trigger] b.lookup(k2) == a.lookup(k2)
                && (key_index(bk, k2) is Some <==> key_index(ak, k2) is Some) by {
                match key_index(ak, k2) {
                    Some(j) => {
                        assert(key_at(ak, k2, j));
                        if j < p {
                            lemma_key_index_at(bk, k2, j);
                        } else {
                            lemma_key_index_at(bk, k2, j + 1);
                        }
                    },
                    None => {
                        assert forall|j: int| 0 <= j < bk.len() implies bk[j] != k2 by {
                            if j < p {
                                assert(!key_at(ak, k2, j));
                            } else if j > p {
                                assert(!key_at(ak, k2, j - 1));
                            }
                        }
                        assert(!exists|j: int| key_at(bk, k2, j));
                    },
                }
            }
            assert forall|k2: Seq<char>|
                #[trigger] key_index(bk, k2) is Some <==> (k2 == k || key_index(ak, k2) is Some) by {
                if k2 != k {
                    assert(b.lookup(k2) == a.lookup(k2) && (key_index(bk, k2) is Some <==> key_index(ak, k2) is Some));
                }
            }
        },
    }
}


/// When every key names its value by `f`, it still does after inserting a
/// value under its own name.
pub proof fn lemma_insert_keeps_keyed<V>(a: StrMap<V>, b: StrMap<V>, k: Seq<char>, v: V, f: spec_fn(V) -> Seq<char>)
    requires
        a.wf(),
        a.inserted(k, v, b),
        f(v) == k,
        forall|i: int| 0 <= i < a.keys@.len() ==> #[trigger] a.keys@[i]@ == f(a.vals@[i]),
    ensures
        forall|i: int| 0 <= i < b.keys@.len() ==> #[trigger] b.keys@[i]@ == f(b.vals@[i]),
{
    assert forall|i: int| 0 <= i < b.keys@.len() implies #[trigger] b.keys@[i]@ == f(b.vals@[i]) by {
        assert(b.key_seq()[i] == b.keys@[i]@);
        match key_index(a.key_seq(), k) {
            Some(j) => {
                assert(a.key_seq()[i] == a.keys@[i]@);
                assert(key_at(a.key_seq(), k, j));
            },
            None => {
                let p = choose|p: int|
                    key_slot(a.key_seq(), k, p) && b.key_seq() == a.key_seq().insert(p, k) && b.vals@
                        == #[trigger] a.vals@.insert(p, v);
                assert(b.key_seq().len() == b.keys@.len());
                assert(a.key_seq().len() == a.keys@.len());
                assert(b.keys@.len() == a.keys@.len() + 1);
                if i < p {
                    assert(a.key_seq()[i] == a.keys@[i]@);
                } else if i > p {
                    assert(0 <= i - 1 < a.keys@.len());
                    assert(a.key_seq()[i - 1] == a.keys@[i - 1]@);
                }
            },
        }
    }
}

/// A table keyed by strings, entries in ascending key order: the keys and,
/// at the same positions, their values.
pub struct StrMap<V> {
    pub keys: Vec<String>,
    pub vals: Vec<V>,
}

impl<V> StrMap<V> {
    pub open spec fn wf(&self) -> bool {
        &&& self.keys@.len() == self.vals@.len()
        &&& keys_sorted(key_views(self.keys@))
    }

    pub open spec fn key_seq(&self) -> Seq<Seq<char>> {
        key_views(self.keys@)
    }

    /// The value under `k`, if any.
    pub open spec fn lookup(&self, k: Seq<char>) -> Option<V> {
        match key_index(self.key_seq(), k) {
            Some(i) => Some(self.vals@[i]),
            None => None,
        }
    }

    /// The table after `k` was set to `v`: replaced in place when present,
    /// otherwise added at the slot that keeps the keys ascending.
    pub open spec fn inserted(&self, k: Seq<char>, v: V, next: Self) -> bool {
        match key_index(self.key_seq(), k) {
            Some(i) => next.key_seq() == self.key_seq() && next.vals@ == self.vals@.update(i, v),
            None => exists|p: int|
                key_slot(self.key_seq(), k, p) && next.key_seq() == self.key_seq().insert(p, k)
                    && next.vals@ == #[trigger] self.vals@.insert(p, v),
        }
    }

    pub fn new() -> (r: Self)
        ensures
            r.wf(),
            r.keys@.len() == 0,
    {
        StrMap { keys: Vec::new(), vals: Vec::new() }
    }

    pub fn len(&self) -> (r: usize)
        requires
            self.wf(),
        ensures
            r == self.keys@.len(),
    {
        self.keys.len()
    }

    /// Position of `k`, if present.
    pub fn find(&self, k: &str) -> (r: Option<usize>)
        requires
            self.wf(),
        ensures
            match r {
                Some(i) => key_index(self.key_seq(), k@) == Some(i as int) && i < self.keys@.len(),
                None => key_index(self.key_seq(), k@) is None,
            },
    {
        let (p, found) = key_position(&self.keys, k);
        if found {
            Some(p)
        } else {
            None
        }
    }

    /// `BTreeMap::get`.
    pub fn get(&self, k: &str) -> (r: Option<&V>)
        requires
            self.wf(),
        ensures
            match r {
                Some(v) => self.lookup(k@) == Some(*v),
                None => self.lookup(k@) is None,
            },
    {
        match self.find(k) {
            Some(i) => Some(&self.vals[i]),
            None => None,
        }
    }

    /// `BTreeMap::insert`: set `k` to `v`.
    pub fn insert(&mut self, k: String, v: V)
        requires
            old(self).wf(),
        ensures
            final(self).wf(),
            old(self).inserted(k@, v, *final(self)),
    {
        let (p, found) = key_position(&self.keys, k.as_str());
        let ghost ks = self.key_seq();
        let ghost kv = k@;
        if found {
            self.vals.set(p, v);
        } else {
            proof {
                lemma_insert_sorted(ks, kv, p as int);
            }
            self.keys.insert(p, k);
            self.vals.insert(p, v);
            assert(self.key_seq() =~= ks.insert(p as int, kv));
            assert(key_slot(ks, kv, p as int));
        }
    }

    /// `BTreeMap::remove`: take `k` out, giving its value when it was there.
    pub fn remove(&mut self, k: &str) -> (r: Option<V>)
        requires
            old(self).wf(),
        ensures
            final(self).wf(),
            match key_index(old(self).key_seq(), k@) {
                Some(i) => r == Some(old(self).vals@[i]) && final(self).key_seq() == old(self).key_seq().remove(i)
                    && final(self).vals@ == old(self).vals@.remove(i),
                None => r is None && final(self).key_seq() == old(self).key_seq() && final(self).vals@
                    == old(self).vals@,
            },
            final(self).lookup(k@) is None,
            forall|k2: Seq<char>| k2 != k@ ==> #[trigger] final(self).lookup(k2) == old(self).lookup(k2),
    {
        let ghost ks = self.key_seq();
        let ghost vs = self.vals@;
        match self.find(k) {
            Some(i) => {
                self.keys.remove(i);
                let v = self.vals.remove(i);
                proof {
                    assert(self.key_seq() =~= ks.remove(i as int));
                    assert forall|a: int, b: int| 0 <= a < b < self.key_seq().len() implies seq_lt(
                        #[trigger] self.key_seq()[a],
                        #[trigger] self.key_seq()[b],
                    ) by {
                        let a0 = if a < i { a } else { a + 1 };
                        let b0 = if b < i { b } else { b + 1 };
                        assert(self.key_seq()[a] == ks[a0]);
                        assert(self.key_seq()[b] == ks[b0]);
                    }
                    if key_index(self.key_seq(), k@) is Some {
                        let j = choose|j: int| key_at(self.key_seq(), k@, j);
                        let j0 = if j < i { j } else { j + 1 };
                        assert(ks[j0] == k@);
                        assert(key_at(ks, k@, i as int));
                        lemma_sorted_unique(ks, j0, i as int);
                    }
                    assert forall|k2: Seq<char>| k2 != k@ implies #[trigger] self.lookup(k2) == old(self).lookup(
                        k2,
                    ) by {
                        let nk = self.key_seq();
                        match key_index(ks, k2) {
                            Some(j) => {
                                assert(key_at(ks, k2, j));
                                assert(j != i);
                                let jn = if j < i { j } else { j - 1 };
                                assert(nk[jn] == k2);
                                lemma_key_index_at(nk, k2, jn);
                                assert(self.vals@[jn] == vs[j]);
                            },
                            None => {
                                if key_index(nk, k2) is Some {
                                    let jn = choose|jn: int| key_at(nk, k2, jn);
                                    let j0 = if jn < i { jn } else { jn + 1 };
                                    assert(ks[j0] == k2);
                                    lemma_key_index_at(ks, k2, j0);
                                }
                            },
                        }
                    }
                }
                Some(v)
            },
            None => None,
        }
    }
}

} // verus!
