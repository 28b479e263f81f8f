//! The content-addressed artifact store: where a blob lives for a digest, and
//! the index of blobs (size, last access, pin) with least-recently-used
//! garbage collection that never removes a pinned blob.
use vstd::prelude::*;
use vstd::string::*;

use crate::keyed::{
    key_at, key_slot, keys_sorted, lemma_insert_sorted, lemma_key_slot_index, lemma_seq_lt_irreflexive,
    lemma_seq_lt_total,
};
use crate::text::{seq_lt, str_eq, str_lt};

verus! {

/// What the index records of one blob.
#[derive(Debug, Clone, Copy, PartialEq, Eq, Structural, Default)]
pub struct IndexEntry {
    pub size_bytes: u64,
    pub last_accessed_unix: u64,
    pub pinned: bool,
}

/// One blob of the index: its digest and what is recorded of it.
#[derive(Debug)]
pub struct IndexRecord {
    pub digest: String,
    pub entry: IndexEntry,
}

/// The index of the store: one record per digest.
#[derive(Debug)]
pub struct IndexFile {
    pub entries: Vec<IndexRecord>,
}

pub open spec fn rec_view(r: IndexRecord) -> (Seq<char>, IndexEntry) {
    (r.digest@, r.entry)
}

impl View for IndexFile {
    type V = Seq<(Seq<char>, IndexEntry)>;

    open spec fn view(&self) -> Seq<(Seq<char>, IndexEntry)> {
        self.entries@.map_values(|r: IndexRecord| rec_view(r))
    }
}

/// No digest occurs twice in the index.
pub open spec fn distinct_digests(s: Seq<(Seq<char>, IndexEntry)>) -> bool {
    forall|i: int, j: int| 0 <= i < j < s.len() ==> s[i].0 != s[j].0
}

/// The index has a record for digest `d`.
pub open spec fn has_digest(s: Seq<(Seq<char>, IndexEntry)>, d: Seq<char>) -> bool {
    exists|i: int| 0 <= i < s.len() && s[i].0 == d
}

/// What the index records for `d` (meaningful when `has_digest(s, d)`).
pub open spec fn entry_of(s: Seq<(Seq<char>, IndexEntry)>, d: Seq<char>) -> IndexEntry {
    s[choose|i: int| 0 <= i < s.len() && s[i].0 == d].1
}

/// The sum of the recorded sizes.
pub open spec fn total_size(s: Seq<(Seq<char>, IndexEntry)>) -> nat
    decreases s.len(),
{
    if s.len() == 0 {
        0
    } else {
        s[0].1.size_bytes as nat + total_size(s.drop_first())
    }
}

/// The digests of the index, in index order.
pub open spec fn digests_of(s: Seq<(Seq<char>, IndexEntry)>) -> Seq<Seq<char>> {
    s.map_values(|p: (Seq<char>, IndexEntry)| p.0)
}

/// The index `n` after recording a put of `size` bytes under `d` at `now`
/// in index `o`: an existing record takes the size and the access time and
/// keeps its pin; a new digest gets an unpinned record at its place in
/// digest order.
pub open spec fn put_recorded(
    o: Seq<(Seq<char>, IndexEntry)>,
    n: Seq<(Seq<char>, IndexEntry)>,
    d: Seq<char>,
    size: u64,
    now: u64,
) -> bool {
    &&& has_digest(o, d) ==> exists|i: int|
        0 <= i < o.len() && (#[trigger] o[i]).0 == d && n == o.update(
            i,
            (d, IndexEntry { size_bytes: size, last_accessed_unix: now, pinned: o[i].1.pinned }),
        )
    &&& !has_digest(o, d) ==> exists|p: int|
        #[trigger] key_slot(digests_of(o), d, p) && n == o.insert(
            p,
            (d, IndexEntry { size_bytes: size, last_accessed_unix: now, pinned: false }),
        )
}

/// Digests in ascending order occur once each.
pub proof fn lemma_sorted_distinct(s: Seq<(Seq<char>, IndexEntry)>)
    requires
        keys_sorted(digests_of(s)),
    ensures
        distinct_digests(s),
{
    assert forall|i: int, j: int| 0 <= i < j < s.len() implies s[i].0 != s[j].0 by {
        assert(digests_of(s)[i] == s[i].0);
        assert(digests_of(s)[j] == s[j].0);
        lemma_seq_lt_irreflexive(s[i].0);
    }
}

/// Changing what is recorded for a digest leaves the digests as they are.
pub proof fn lemma_digests_update(s: Seq<(Seq<char>, IndexEntry)>, i: int, e: IndexEntry)
    requires
        0 <= i < s.len(),
    ensures
        digests_of(s.update(i, (s[i].0, e))) == digests_of(s),
{
    assert(digests_of(s.update(i, (s[i].0, e))) =~= digests_of(s));
}

/// Dropping a record keeps the digests in order.
pub proof fn lemma_sorted_remove(s: Seq<(Seq<char>, IndexEntry)>, b: int)
    requires
        keys_sorted(digests_of(s)),
        0 <= b < s.len(),
    ensures
        keys_sorted(digests_of(s.remove(b))),
{
    let k = digests_of(s);
    let r = digests_of(s.remove(b));
    assert(r =~= k.remove(b));
    assert forall|i: int, j: int| 0 <= i < j < r.len() implies seq_lt(#[trigger] r[i], #[trigger] r[j]) by {
        let i2 = if i < b { i } else { i + 1 };
        let j2 = if j < b { j } else { j + 1 };
        assert(r[i] == k[i2]);
        assert(r[j] == k[j2]);
    }
}

pub proof fn lemma_entry_of(s: Seq<(Seq<char>, IndexEntry)>, i: int)
    requires
        distinct_digests(s),
        0 <= i < s.len(),
    ensures
        has_digest(s, s[i].0),
        entry_of(s, s[i].0) == s[i].1,
{
    let k = choose|k: int| 0 <= k < s.len() && s[k].0 == s[i].0;
    assert(0 <= k < s.len() && s[k].0 == s[i].0);
    if k < i {
        assert(s[k].0 != s[i].0);
    }
    if i < k {
        assert(s[i].0 != s[k].0);
    }
}

pub proof fn lemma_total_size_remove(s: Seq<(Seq<char>, IndexEntry)>, i: int)
    requires
        0 <= i < s.len(),
    ensures
        total_size(s) == total_size(s.remove(i)) + s[i].1.size_bytes,
    decreases s.len(),
{
    if i > 0 {
        lemma_total_size_remove(s.drop_first(), i - 1);
        assert(s.remove(i).drop_first() =~= s.drop_first().remove(i - 1));
        assert(s.remove(i)[0] == s[0]);
    } else {
        assert(s.remove(0) =~= s.drop_first());
    }
}

pub proof fn lemma_total_size_update(s: Seq<(Seq<char>, IndexEntry)>, i: int, v: (Seq<char>, IndexEntry))
    requires
        0 <= i < s.len(),
    ensures
        total_size(s.update(i, v)) + s[i].1.size_bytes == total_size(s) + v.1.size_bytes,
    decreases s.len(),
{
    if i > 0 {
        lemma_total_size_update(s.drop_first(), i - 1, v);
        assert(s.update(i, v).drop_first() =~= s.drop_first().update(i - 1, v));
    } else {
        assert(s.update(0, v).drop_first() =~= s.drop_first());
    }
}

pub proof fn lemma_total_size_push(s: Seq<(Seq<char>, IndexEntry)>, v: (Seq<char>, IndexEntry))
    ensures
        total_size(s.push(v)) == total_size(s) + v.1.size_bytes,
    decreases s.len(),
{
    if s.len() > 0 {
        lemma_total_size_push(s.drop_first(), v);
        assert(s.push(v).drop_first() =~= s.drop_first().push(v));
    } else {
        assert(s.push(v).drop_first() =~= Seq::<(Seq<char>, IndexEntry)>::empty());
        assert(total_size(Seq::<(Seq<char>, IndexEntry)>::empty()) == 0);
        assert(s.push(v)[0] == v);
    }
}

pub proof fn lemma_total_size_take(s: Seq<(Seq<char>, IndexEntry)>, k: int)
    requires
        0 <= k < s.len(),
    ensures
        total_size(s.take(k + 1)) == total_size(s.take(k)) + s[k].1.size_bytes,
{
    assert(s.take(k + 1) =~= s.take(k).push(s[k]));
    lemma_total_size_push(s.take(k), s[k]);
}

/// The position of digest `d` in the index, if it is there.
fn position_of(entries: &Vec<IndexRecord>, d: &str) -> (r: Option<usize>)
    ensures
        match r {
            Some(i) => i < entries@.len() && entries@[i as int].digest@ == d@,
            None => forall|i: int| 0 <= i < entries@.len() ==> entries@[i].digest@ != d@,
        },
{
    let mut i: usize = 0;
    while i < entries.len()
        invariant
            i <= entries@.len(),
            forall|j: int| 0 <= j < i ==> entries@[j].digest@ != d@,
        decreases entries.len() - i,
    {
        if str_eq(entries[i].digest.as_str(), d) {
            return Some(i);
        }
        i = i + 1;
    }
    None
}

impl IndexFile {
    /// The index keeps its records in ascending digest order, so no digest
    /// occurs twice.
    pub open spec fn wf(&self) -> bool {
        &&& distinct_digests(self@)
        &&& keys_sorted(digests_of(self@))
    }

    /// Where the record of `d` is or would go in digest order, and whether
    /// it is there.
    fn slot_of(&self, d: &str) -> (r: (usize, bool))
        requires
            self.wf(),
        ensures
            key_slot(digests_of(self@), d@, r.0 as int),
            r.1 == (r.0 < self@.len() && self@[r.0 as int].0 == d@),
            r.1 == has_digest(self@, d@),
    {
        let ghost kv = digests_of(self@);
        let mut i: usize = 0;
        while i < self.entries.len() && str_lt(self.entries[i].digest.as_str(), d)
            invariant
                kv == digests_of(self@),
                i <= self@.len(),
                forall|j: int| 0 <= j < i ==> seq_lt(#[trigger] kv[j], d@),
            decreases self.entries.len() - i,
        {
            proof {
                assert(kv[i as int] == self.entries@[i as int].digest@);
            }
            i = i + 1;
        }
        let found = i < self.entries.len() && str_eq(self.entries[i].digest.as_str(), d);
        proof {
            if i < self@.len() {
                assert(kv[i as int] == self.entries@[i as int].digest@);
                lemma_seq_lt_total(kv[i as int], d@);
            }
            lemma_key_slot_index(kv, d@, i as int);
            if has_digest(self@, d@) {
                let j = choose|j: int| 0 <= j < self@.len() && self@[j].0 == d@;
                assert(key_at(kv, d@, j));
            }
        }
        (i, found)
    }

    /// An empty index.
    pub fn new() -> (r: IndexFile)
        ensures
            r@ == Seq::<(Seq<char>, IndexEntry)>::empty(),
            r.wf(),
    {
        IndexFile { entries: Vec::new() }
    }

    /// Record that a blob of `size` bytes with digest `digest` was stored at
    /// time `now` (see `put_recorded`).
    pub fn record_put(&mut self, digest: &str, size: u64, now: u64)
        requires
            old(self).wf(),
        ensures
            final(self).wf(),
            put_recorded(old(self)@, final(self)@, digest@, size, now),
    {
        let ghost old_view = self@;
        let (p, found) = self.slot_of(digest);
        if found {
            let pinned = self.entries[p].entry.pinned;
            let e = IndexEntry { size_bytes: size, last_accessed_unix: now, pinned };
            self.entries.set(p, IndexRecord { digest: String::from_str(digest), entry: e });
            proof {
                assert(self@ =~= old_view.update(p as int, (digest@, e)));
                assert(old_view[p as int].0 == digest@);
                lemma_digests_update(old_view, p as int, e);
                assert(pinned == old_view[p as int].1.pinned);
            }
        } else {
            let e = IndexEntry { size_bytes: size, last_accessed_unix: now, pinned: false };
            self.entries.insert(p, IndexRecord { digest: String::from_str(digest), entry: e });
            proof {
                assert(self@ =~= old_view.insert(p as int, (digest@, e)));
                assert(digests_of(self@) =~= digests_of(old_view).insert(p as int, digest@));
                lemma_insert_sorted(digests_of(old_view), digest@, p as int);
                lemma_sorted_distinct(self@);
            }
        }
    }

    /// Set what the index records for `digest` (as an index file read back
    /// gives it): the record is replaced, or a new one goes to its place in
    /// digest order.
    pub fn set_entry(&mut self, digest: &str, entry: IndexEntry)
        requires
            old(self).wf(),
        ensures
            final(self).wf(),
            has_digest(old(self)@, digest@) ==> exists|i: int|
                0 <= i < old(self)@.len() && (#[trigger] old(self)@[i]).0 == digest@ && final(self)@
                    == old(self)@.update(i, (digest@, entry)),
            !has_digest(old(self)@, digest@) ==> exists|p: int|
                #[trigger] key_slot(digests_of(old(self)@), digest@, p) && final(self)@
                    == old(self)@.insert(p, (digest@, entry)),
    {
        let ghost old_view = self@;
        let (p, found) = self.slot_of(digest);
        if found {
            self.entries.set(p, IndexRecord { digest: String::from_str(digest), entry });
            proof {
                assert(self@ =~= old_view.update(p as int, (digest@, entry)));
                assert(old_view[p as int].0 == digest@);
                lemma_digests_update(old_view, p as int, entry);
            }
        } else {
            self.entries.insert(p, IndexRecord { digest: String::from_str(digest), entry });
            proof {
                assert(self@ =~= old_view.insert(p as int, (digest@, entry)));
                assert(digests_of(self@) =~= digests_of(old_view).insert(p as int, digest@));
                lemma_insert_sorted(digests_of(old_view), digest@, p as int);
                lemma_sorted_distinct(self@);
            }
        }
    }

    /// Record an access to `digest` at time `now`; false when the index has
    /// no record of it (then nothing changes).
    pub fn touch(&mut self, digest: &str, now: u64) -> (r: bool)
        requires
            old(self).wf(),
        ensures
            final(self).wf(),
            r == has_digest(old(self)@, digest@),
            !r ==> final(self)@ == old(self)@,
            r ==> exists|i: int|
                0 <= i < old(self)@.len() && old(self)@[i].0 == digest@ && final(self)@
                    == old(self)@.update(
                    i,
                    (digest@, IndexEntry { last_accessed_unix: now, ..old(self)@[i].1 }),
                ),
    {
        match position_of(&self.entries, digest) {
            Some(i) => {
                let ghost old_view = self@;
                let e = self.entries[i].entry;
                let rec = IndexRecord {
                    digest: String::from_str(digest),
                    entry: IndexEntry { last_accessed_unix: now, ..e },
                };
                self.entries.set(i, rec);
                assert(self@ =~= old_view.update(
                    i as int,
                    (digest@, IndexEntry { last_accessed_unix: now, ..e }),
                ));
                assert(old_view[i as int].0 == digest@);
                assert(has_digest(old_view, digest@));
                proof {
                    lemma_digests_update(old_view, i as int, IndexEntry { last_accessed_unix: now, ..e });
                }
                true
            },
            None => {
                assert(!has_digest(self@, digest@)) by {
                    assert forall|k: int| 0 <= k < self@.len() implies self@[k].0 != digest@ by {
                        assert(self@[k].0 == self.entries@[k].digest@);
                    }
                }
                false
            },
        }
    }

    /// Pin or unpin `digest`; refused with "digest not found" when the index
    /// has no record of it.
    pub fn pin(&mut self, digest: &str, value: bool) -> (r: Result<(), String>)
        requires
            old(self).wf(),
        ensures
            final(self).wf(),
            r is Ok <==> has_digest(old(self)@, digest@),
            r matches Err(e) ==> e@ == "digest not found"@ && final(self)@ == old(self)@,
            r is Ok ==> exists|i: int|
                0 <= i < old(self)@.len() && old(self)@[i].0 == digest@ && final(self)@
                    == old(self)@.update(
                    i,
                    (digest@, IndexEntry { pinned: value, ..old(self)@[i].1 }),
                ),
    {
        match position_of(&self.entries, digest) {
            Some(i) => {
                let ghost old_view = self@;
                let e = self.entries[i].entry;
                let rec = IndexRecord {
                    digest: String::from_str(digest),
                    entry: IndexEntry { pinned: value, ..e },
                };
                self.entries.set(i, rec);
                assert(self@ =~= old_view.update(
                    i as int,
                    (digest@, IndexEntry { pinned: value, ..e }),
                ));
                assert(old_view[i as int].0 == digest@);
                assert(has_digest(old_view, digest@));
                proof {
                    lemma_digests_update(old_view, i as int, IndexEntry { pinned: value, ..e });
                }
                Ok(())
            },
            None => {
                assert(!has_digest(self@, digest@)) by {
                    assert forall|k: int| 0 <= k < self@.len() implies self@[k].0 != digest@ by {
                        assert(self@[k].0 == self.entries@[k].digest@);
                    }
                }
                Err(String::from_str("digest not found"))
            },
        }
    }

    /// The digests and records of the index, in ascending digest order.
    pub fn list(&self) -> (r: Vec<(String, IndexEntry)>)
        ensures
            r@.len() == self@.len(),
            forall|i: int| 0 <= i < r@.len() ==> r@[i].0@ == self@[i].0 && r@[i].1 == self@[i].1,
    {
        let mut out: Vec<(String, IndexEntry)> = Vec::new();
        let mut i: usize = 0;
        while i < self.entries.len()
            invariant
                i <= self@.len(),
                out@.len() == i,
                forall|k: int| 0 <= k < i ==> out@[k].0@ == self@[k].0 && out@[k].1 == self@[k].1,
            decreases self.entries.len() - i,
        {
            out.push((self.entries[i].digest.clone(), self.entries[i].entry));
            i = i + 1;
        }
        out
    }

    /// The total size of the recorded blobs.
    pub fn total_size_bytes(&self) -> (r: u64)
        requires
            total_size(self@) <= u64::MAX,
        ensures
            r == total_size(self@),
    {
        let mut sum: u64 = 0;
        let mut i: usize = 0;
        while i < self.entries.len()
            invariant
                i <= self@.len(),
                total_size(self@) <= u64::MAX,
                sum == total_size(self@.take(i as int)),
            decreases self.entries.len() - i,
        {
            proof {
                lemma_total_size_take(self@, i as int);
                lemma_total_size_prefix_le(self@, i + 1);
            }
            sum = sum + self.entries[i].entry.size_bytes;
            i = i + 1;
        }
        assert(self@.take(self@.len() as int) =~= self@);
        sum
    }
}


/// The position of the least recently accessed unpinned record (the first
/// such one when several share the oldest access time).
fn lru_unpinned(entries: &Vec<IndexRecord>) -> (r: Option<usize>)
    ensures
        match r {
            Some(b) => {
                &&& b < entries@.len()
                &&& !entries@[b as int].entry.pinned
                &&& forall|j: int|
                    0 <= j < entries@.len() && !entries@[j].entry.pinned
                        ==> entries@[b as int].entry.last_accessed_unix
                        <= entries@[j].entry.last_accessed_unix
                &&& forall|j: int|
                    0 <= j < b && !entries@[j].entry.pinned
                        ==> entries@[b as int].entry.last_accessed_unix
                        < entries@[j].entry.last_accessed_unix
            },
            None => forall|j: int| 0 <= j < entries@.len() ==> entries@[j].entry.pinned,
        },
{
    let mut best: Option<usize> = None;
    let mut i: usize = 0;
    while i < entries.len()
        invariant
            i <= entries@.len(),
            match best {
                Some(b) => {
                    &&& b < i
                    &&& !entries@[b as int].entry.pinned
                    &&& forall|j: int|
                        0 <= j < i && !entries@[j].entry.pinned
                            ==> entries@[b as int].entry.last_accessed_unix
                            <= entries@[j].entry.last_accessed_unix
                    &&& forall|j: int|
                        0 <= j < b && !entries@[j].entry.pinned
                            ==> entries@[b as int].entry.last_accessed_unix
                            < entries@[j].entry.last_accessed_unix
                },
                None => forall|j: int| 0 <= j < i ==> entries@[j].entry.pinned,
            },
        decreases entries.len() - i,
    {
        let e = entries[i].entry;
        if !e.pinned {
            match best {
                Some(b) => {
                    if e.last_accessed_unix < entries[b].entry.last_accessed_unix {
                        best = Some(i);
                    }
                },
                None => {
                    best = Some(i);
                },
            }
        }
        i = i + 1;
    }
    best
}

type IndexSeq = Seq<(Seq<char>, IndexEntry)>;

/// Every record of `s` is a record of `o`.
#[verifier::opaque]
pub open spec fn sub_of(o: IndexSeq, s: IndexSeq) -> bool {
    forall|j: int| 0 <= j < s.len() ==> o.contains(#[trigger] s[j])
}

/// Every digest of `o` is still in `s` or listed in `rm`.
#[verifier::opaque]
pub open spec fn covers(o: IndexSeq, s: IndexSeq, rm: Seq<Seq<char>>) -> bool {
    forall|i: int|
        0 <= i < o.len() ==> has_digest(s, #[trigger] o[i].0) || exists|k: int|
            0 <= k < rm.len() && rm[k] == o[i].0
}

/// The digests `rm` name unpinned records of `o` that are no longer in `s`.
#[verifier::opaque]
pub open spec fn removed_ok(o: IndexSeq, s: IndexSeq, rm: Seq<Seq<char>>) -> bool {
    forall|k: int|
        0 <= k < rm.len() ==> {
            &&& has_digest(o, #[trigger] rm[k])
            &&& !entry_of(o, rm[k]).pinned
            &&& !has_digest(s, rm[k])
        }
}

/// The pinned records of `o` are all still in `s`.
#[verifier::opaque]
pub open spec fn pinned_kept(o: IndexSeq, s: IndexSeq) -> bool {
    forall|i: int|
        0 <= i < o.len() && (#[trigger] o[i]).1.pinned ==> exists|j: int|
            0 <= j < s.len() && s[j] == o[i]
}

/// No blob named in `rm` was accessed later than an unpinned record of `s`.
#[verifier::opaque]
pub open spec fn lru_ok(o: IndexSeq, s: IndexSeq, rm: Seq<Seq<char>>) -> bool {
    forall|k: int, j: int|
        0 <= k < rm.len() && 0 <= j < s.len() && !(#[trigger] s[j]).1.pinned ==> entry_of(
            o,
            #[trigger] rm[k],
        ).last_accessed_unix <= s[j].1.last_accessed_unix && (entry_of(o, rm[k]).last_accessed_unix
            == s[j].1.last_accessed_unix ==> seq_lt(rm[k], s[j].0))
}

/// The blobs named in `rm` are in order of access time.
#[verifier::opaque]
pub open spec fn sorted_by_access(o: IndexSeq, rm: Seq<Seq<char>>) -> bool {
    forall|k1: int, k2: int|
        0 <= k1 < k2 < rm.len() ==> entry_of(o, #[trigger] rm[k1]).last_accessed_unix <= entry_of(
            o,
            #[trigger] rm[k2],
        ).last_accessed_unix && (entry_of(o, rm[k1]).last_accessed_unix == entry_of(o, rm[k2]).last_accessed_unix
            ==> seq_lt(rm[k1], rm[k2]))
}

/// `b` is an unpinned record of `s` accessed no later than any other.
pub open spec fn is_lru(s: IndexSeq, b: int) -> bool {
    &&& 0 <= b < s.len()
    &&& !s[b].1.pinned
    &&& forall|j: int|
        0 <= j < s.len() && !s[j].1.pinned ==> s[b].1.last_accessed_unix
            <= #[trigger] s[j].1.last_accessed_unix
    &&& forall|j: int|
        0 <= j < b && !s[j].1.pinned ==> s[b].1.last_accessed_unix < #[trigger] s[j].1.last_accessed_unix
}

proof fn lemma_remove_index(s: IndexSeq, b: int, j: int)
    requires
        0 <= b < s.len(),
        0 <= j < s.len() - 1,
    ensures
        s.remove(b)[j] == (if j < b { s[j] } else { s[j + 1] }),
{
}

proof fn lemma_step_distinct(s: IndexSeq, b: int)
    requires
        distinct_digests(s),
        0 <= b < s.len(),
    ensures
        distinct_digests(s.remove(b)),
        !has_digest(s.remove(b), s[b].0),
{
    let t = s.remove(b);
    assert forall|i: int, j: int| 0 <= i < j < t.len() implies t[i].0 != t[j].0 by {
        lemma_remove_index(s, b, i);
        lemma_remove_index(s, b, j);
    }
    assert forall|i: int| 0 <= i < t.len() implies t[i].0 != s[b].0 by {
        lemma_remove_index(s, b, i);
    }
}

proof fn lemma_step_sub(o: IndexSeq, s: IndexSeq, b: int)
    requires
        sub_of(o, s),
        0 <= b < s.len(),
    ensures
        sub_of(o, s.remove(b)),
{
    reveal(sub_of);
    let t = s.remove(b);
    assert forall|j: int| 0 <= j < t.len() implies o.contains(#[trigger] t[j]) by {
        lemma_remove_index(s, b, j);
        let jj = if j < b { j } else { j + 1 };
        assert(t[j] == s[jj]);
        assert(o.contains(s[jj]));
    }
}

proof fn lemma_step_covers(o: IndexSeq, s: IndexSeq, rm: Seq<Seq<char>>, b: int)
    requires
        covers(o, s, rm),
        0 <= b < s.len(),
    ensures
        covers(o, s.remove(b), rm.push(s[b].0)),
{
    reveal(covers);
    let t = s.remove(b);
    let rm2 = rm.push(s[b].0);
    assert forall|i: int| 0 <= i < o.len() implies has_digest(t, #[trigger] o[i].0) || exists|k: int|
        0 <= k < rm2.len() && rm2[k] == o[i].0 by {
        if has_digest(s, o[i].0) {
            let w = choose|w: int| 0 <= w < s.len() && s[w].0 == o[i].0;
            if w < b {
                lemma_remove_index(s, b, w);
                assert(t[w].0 == o[i].0);
            } else if w > b {
                lemma_remove_index(s, b, w - 1);
                assert(t[w - 1].0 == o[i].0);
            } else {
                assert(rm2[rm.len() as int] == o[i].0);
            }
        } else {
            let k = choose|k: int| 0 <= k < rm.len() && rm[k] == o[i].0;
            assert(rm2[k] == o[i].0);
        }
    }
}

/// The record at `b` of a sub-collection of a well-formed index is what the
/// index records for its digest.
proof fn lemma_entry_of_sub(o: IndexSeq, s: IndexSeq, b: int)
    requires
        sub_of(o, s),
        distinct_digests(o),
        0 <= b < s.len(),
    ensures
        has_digest(o, s[b].0),
        entry_of(o, s[b].0) == s[b].1,
{
    reveal(sub_of);
    assert(o.contains(s[b]));
    let wi = choose|i: int| 0 <= i < o.len() && o[i] == s[b];
    assert(0 <= wi < o.len() && o[wi] == s[b]);
    lemma_entry_of(o, wi);
}

proof fn lemma_step_removed(o: IndexSeq, s: IndexSeq, rm: Seq<Seq<char>>, b: int)
    requires
        removed_ok(o, s, rm),
        distinct_digests(o),
        distinct_digests(s),
        sub_of(o, s),
        0 <= b < s.len(),
        !s[b].1.pinned,
    ensures
        removed_ok(o, s.remove(b), rm.push(s[b].0)),
{
    reveal(removed_ok);
    let t = s.remove(b);
    let rm2 = rm.push(s[b].0);
    lemma_step_distinct(s, b);
    lemma_entry_of_sub(o, s, b);
    assert forall|k: int| 0 <= k < rm2.len() implies {
        &&& has_digest(o, #[trigger] rm2[k])
        &&& !entry_of(o, rm2[k]).pinned
        &&& !has_digest(t, rm2[k])
    } by {
        if k < rm.len() {
            assert(rm2[k] == rm[k]);
            if has_digest(t, rm[k]) {
                let w = choose|w: int| 0 <= w < t.len() && t[w].0 == rm[k];
                lemma_remove_index(s, b, w);
                let ww = if w < b { w } else { w + 1 };
                assert(s[ww].0 == rm[k]);
            }
        } else {
            assert(rm2[k] == s[b].0);
        }
    }
}

proof fn lemma_step_pinned(o: IndexSeq, s: IndexSeq, b: int)
    requires
        pinned_kept(o, s),
        0 <= b < s.len(),
        !s[b].1.pinned,
    ensures
        pinned_kept(o, s.remove(b)),
{
    reveal(pinned_kept);
    let t = s.remove(b);
    assert forall|i: int| 0 <= i < o.len() && (#[trigger] o[i]).1.pinned implies exists|j: int|
        0 <= j < t.len() && t[j] == o[i] by {
        let w = choose|w: int| 0 <= w < s.len() && s[w] == o[i];
        if w < b {
            lemma_remove_index(s, b, w);
            assert(t[w] == o[i]);
        } else if w > b {
            lemma_remove_index(s, b, w - 1);
            assert(t[w - 1] == o[i]);
        }
    }
}

proof fn lemma_step_lru(o: IndexSeq, s: IndexSeq, rm: Seq<Seq<char>>, b: int)
    requires
        lru_ok(o, s, rm),
        sorted_by_access(o, rm),
        sub_of(o, s),
        distinct_digests(o),
        is_lru(s, b),
        keys_sorted(digests_of(s)),
    ensures
        lru_ok(o, s.remove(b), rm.push(s[b].0)),
        sorted_by_access(o, rm.push(s[b].0)),
{
    reveal(lru_ok);
    reveal(sorted_by_access);
    let t = s.remove(b);
    let rm2 = rm.push(s[b].0);
    lemma_entry_of_sub(o, s, b);
    assert forall|j: int|
        b < j < s.len() && !s[j].1.pinned && s[j].1.last_accessed_unix == s[b].1.last_accessed_unix implies seq_lt(
        s[b].0,
        s[j].0,
    ) by {
        assert(digests_of(s)[b] == s[b].0);
        assert(digests_of(s)[j] == s[j].0);
    }
    assert forall|k: int, j: int|
        0 <= k < rm2.len() && 0 <= j < t.len() && !(#[trigger] t[j]).1.pinned implies entry_of(
        o,
        #[trigger] rm2[k],
    ).last_accessed_unix <= t[j].1.last_accessed_unix by {
        lemma_remove_index(s, b, j);
        let jj = if j < b { j } else { j + 1 };
        assert(t[j] == s[jj]);
        if k < rm.len() {
            assert(rm2[k] == rm[k]);
        }
    }
    assert forall|k1: int, k2: int| 0 <= k1 < k2 < rm2.len() implies entry_of(
        o,
        #[trigger] rm2[k1],
    ).last_accessed_unix <= entry_of(o, #[trigger] rm2[k2]).last_accessed_unix by {
        assert(rm2[k1] == rm[k1]);
        if k2 == rm.len() {
            assert(rm2[k2] == s[b].0);
            assert(!s[b].1.pinned);
            assert(entry_of(o, rm[k1]).last_accessed_unix <= s[b].1.last_accessed_unix);
        } else {
            assert(rm2[k2] == rm[k2]);
        }
    }
}

proof fn lemma_gc_start(o: IndexSeq)
    ensures
        sub_of(o, o),
        covers(o, o, Seq::empty()),
        removed_ok(o, o, Seq::empty()),
        pinned_kept(o, o),
        lru_ok(o, o, Seq::empty()),
        sorted_by_access(o, Seq::empty()),
{
    reveal(sub_of);
    reveal(covers);
    reveal(removed_ok);
    reveal(pinned_kept);
    reveal(lru_ok);
    reveal(sorted_by_access);
    assert forall|j: int| 0 <= j < o.len() implies o.contains(#[trigger] o[j]) by {
        assert(o[j] == o[j]);
    }
    assert forall|i: int| 0 <= i < o.len() implies has_digest(o, #[trigger] o[i].0) by {}
    assert forall|i: int| 0 <= i < o.len() && (#[trigger] o[i]).1.pinned implies exists|j: int|
        0 <= j < o.len() && o[j] == o[i] by {}
}

impl IndexFile {
    /// Garbage-collect least recently used blobs until the recorded total is
    /// at most `target_total_bytes`, never touching a pinned blob. Returns the
    /// digests dropped from the index, oldest access first; their files are
    /// for the caller to delete.
    pub fn gc_to_target(&mut self, target_total_bytes: u64) -> (removed: Vec<String>)
        requires
            old(self).wf(),
            total_size(old(self)@) <= u64::MAX,
        ensures
            final(self).wf(),
            // what stays is unchanged and was there before
            sub_of(old(self)@, final(self)@),
            // every old blob either stays or is reported removed
            covers(old(self)@, final(self)@, removed.deep_view()),
            removed@.len() + final(self)@.len() == old(self)@.len(),
            // removed blobs were unpinned records of the old index, now gone
            removed_ok(old(self)@, final(self)@, removed.deep_view()),
            // pinned blobs are never removed
            pinned_kept(old(self)@, final(self)@),
            // least recently used first
            lru_ok(old(self)@, final(self)@, removed.deep_view()),
            sorted_by_access(old(self)@, removed.deep_view()),
            // stops at the target, or when only pinned blobs remain
            total_size(final(self)@) <= target_total_bytes || forall|j: int|
                0 <= j < final(self)@.len() ==> (#[trigger] final(self)@[j]).1.pinned,
            // and removes nothing once the target is reached
            removed@.len() > 0 ==> total_size(final(self)@) + entry_of(
                old(self)@,
                removed@[removed@.len() - 1]@,
            ).size_bytes > target_total_bytes,
    {
        let ghost o = self@;
        let mut current = self.total_size_bytes();
        let mut removed: Vec<String> = Vec::new();
        let mut done = false;
        proof {
            lemma_gc_start(o);
            assert(removed.deep_view() =~= Seq::<Seq<char>>::empty());
        }
        while !done && current > target_total_bytes
            invariant
                distinct_digests(o),
                distinct_digests(self@),
                keys_sorted(digests_of(self@)),
                current == total_size(self@),
                sub_of(o, self@),
                covers(o, self@, removed.deep_view()),
                removed@.len() + self@.len() == o.len(),
                removed_ok(o, self@, removed.deep_view()),
                pinned_kept(o, self@),
                lru_ok(o, self@, removed.deep_view()),
                sorted_by_access(o, removed.deep_view()),
                done ==> forall|j: int| 0 <= j < self@.len() ==> (#[trigger] self@[j]).1.pinned,
                removed@.len() > 0 ==> current + entry_of(o, removed@[removed@.len() - 1]@).size_bytes
                    > target_total_bytes,
            decreases self@.len() + (if done { 0int } else { 1int }),
        {
            match lru_unpinned(&self.entries) {
                None => {
                    done = true;
                    assert forall|j: int| 0 <= j < self@.len() implies (#[trigger] self@[j]).1.pinned by {
                        assert(self@[j] == rec_view(self.entries@[j]));
                    }
                },
                Some(b) => {
                    let ghost before = self@;
                    let ghost rm = removed.deep_view();
                    proof {
                        assert(before[b as int] == rec_view(self.entries@[b as int]));
                        assert forall|j: int|
                            0 <= j < before.len() && !before[j].1.pinned implies before[b as int].1.last_accessed_unix
                            <= #[trigger] before[j].1.last_accessed_unix by {
                            assert(before[j] == rec_view(self.entries@[j as int]));
                        }
                        assert(is_lru(before, b as int));
                        lemma_total_size_remove(before, b as int);
                        lemma_step_distinct(before, b as int);
                        lemma_step_sub(o, before, b as int);
                        lemma_step_covers(o, before, rm, b as int);
                        lemma_step_removed(o, before, rm, b as int);
                        lemma_step_pinned(o, before, b as int);
                        lemma_step_lru(o, before, rm, b as int);
                        lemma_entry_of_sub(o, before, b as int);
                        lemma_sorted_remove(before, b as int);
                    }
                    let rec = self.entries.remove(b);
                    assert(self@ =~= before.remove(b as int));
                    current = current - rec.entry.size_bytes;
                    removed.push(rec.digest);
                    proof {
                        assert(removed.deep_view() =~= rm.push(before[b as int].0));
                        assert(removed@[removed@.len() - 1]@ == before[b as int].0);
                    }
                },
            }
        }
        removed
    }
}

pub proof fn lemma_total_size_prefix_le(s: Seq<(Seq<char>, IndexEntry)>, k: int)
    requires
        0 <= k <= s.len(),
    ensures
        total_size(s.take(k)) <= total_size(s),
    decreases s.len() - k,
{
    if k < s.len() {
        lemma_total_size_prefix_le(s, k + 1);
        lemma_total_size_take(s, k);
    } else {
        assert(s.take(k) =~= s);
    }
}


/// The first four characters are ASCII, so that byte offsets 2 and 4 fall
/// between characters (digests are hexadecimal).
pub open spec fn digest_prefix_ascii(d: Seq<char>) -> bool {
    d.len() >= 4 && forall|i: int| 0 <= i < 4 ==> #[trigger] d[i] <= '\u{7f}'
}

/// Where the blob of digest `d` lives under `base`: two levels of fan-out by
/// its first two pairs of characters.
pub open spec fn blob_path(base: Seq<char>, d: Seq<char>) -> Seq<char> {
    base + "/"@ + d.subrange(0, 2) + "/"@ + d.subrange(2, 4) + "/"@ + d
}

/// The content-addressed store of an agent: the blob directory, the index
/// file, and the index as last loaded. Reading and writing the files is the
/// caller's part; the store decides paths and keeps the index.
pub struct ContentStore {
    pub base_dir: String,
    pub index_path: String,
    pub index: IndexFile,
}

impl ContentStore {
    pub open spec fn wf(&self) -> bool {
        self.index.wf()
    }

    /// The store under agent data directory `data_dir`, over `index` (as
    /// loaded from the index file, or empty when there is none):
    /// blobs in `artifacts/blobs/sha256`, the index in
    /// `artifacts/index.json`.
    pub fn open(data_dir: &str, index: IndexFile) -> (r: ContentStore)
        ensures
            r.base_dir@ == data_dir@ + "/artifacts/blobs/sha256"@,
            r.index_path@ == data_dir@ + "/artifacts/index.json"@,
            r.index == index,
    {
        ContentStore {
            base_dir: String::from_str(data_dir).concat("/artifacts/blobs/sha256"),
            index_path: String::from_str(data_dir).concat("/artifacts/index.json"),
            index,
        }
    }

    pub fn path_for_digest(&self, digest: &str) -> (r: String)
        requires
            digest_prefix_ascii(digest@),
        ensures
            r@ == blob_path(self.base_dir@, digest@),
    {
        String::from_str(self.base_dir.as_str()).concat("/").concat(digest.substring_char(0, 2)).concat(
            "/",
        ).concat(digest.substring_char(2, 4)).concat("/").concat(digest)
    }

    /// The path of blob `digest` when its file exists (`blob_exists`), after
    /// recording the access at `now` in the index (when the index knows
    /// it); `None` when the file is missing.
    pub fn get_path(&mut self, digest: &str, blob_exists: bool, now: u64) -> (r: Option<String>)
        requires
            old(self).wf(),
            digest_prefix_ascii(digest@),
        ensures
            final(self).wf(),
            final(self).base_dir == old(self).base_dir,
            final(self).index_path == old(self).index_path,
            match r {
                Some(p) => blob_exists && p@ == blob_path(old(self).base_dir@, digest@),
                None => !blob_exists && final(self).index@ == old(self).index@,
            },
            blob_exists && !has_digest(old(self).index@, digest@) ==> final(self).index@ == old(self).index@,
            blob_exists && has_digest(old(self).index@, digest@) ==> exists|i: int|
                0 <= i < old(self).index@.len() && old(self).index@[i].0 == digest@ && final(self).index@
                    == old(self).index@.update(
                    i,
                    (digest@, IndexEntry { last_accessed_unix: now, ..old(self).index@[i].1 }),
                ),
    {
        if blob_exists {
            let p = self.path_for_digest(digest);
            self.index.touch(digest, now);
            Some(p)
        } else {
            None
        }
    }

    /// The index's digests and records.
    pub fn list(&self) -> (r: Vec<(String, IndexEntry)>)
        ensures
            r@.len() == self.index@.len(),
            forall|i: int| 0 <= i < r@.len() ==> r@[i].0@ == self.index@[i].0 && r@[i].1 == self.index@[i].1,
    {
        self.index.list()
    }

    /// Pin or unpin a blob (see `IndexFile::pin`).
    pub fn pin(&mut self, digest: &str, value: bool) -> (r: Result<(), String>)
        requires
            old(self).wf(),
        ensures
            final(self).wf(),
            final(self).base_dir == old(self).base_dir,
            r is Ok <==> has_digest(old(self).index@, digest@),
            r matches Err(e) ==> e@ == "digest not found"@ && final(self).index@ == old(self).index@,
            r is Ok ==> exists|i: int|
                0 <= i < old(self).index@.len() && old(self).index@[i].0 == digest@ && final(self).index@
                    == old(self).index@.update(
                    i,
                    (digest@, IndexEntry { pinned: value, ..old(self).index@[i].1 }),
                ),
    {
        self.index.pin(digest, value)
    }

    /// The total size of the stored blobs as the index records them.
    pub fn total_size_bytes(&self) -> (r: u64)
        requires
            total_size(self.index@) <= u64::MAX,
        ensures
            r == total_size(self.index@),
    {
        self.index.total_size_bytes()
    }

    /// Store `bytes`: their digest names the blob, whose path is returned
    /// with it for the caller to write the file to (when it is not there
    /// yet); the index records the size and the access at `now`.
    pub fn put_bytes(&mut self, bytes: &[u8], now: u64) -> (r: (String, String))
        requires
            old(self).wf(),
            bytes@.len() <= u64::MAX,
        ensures
            final(self).wf(),
            final(self).base_dir == old(self).base_dir,
            r.0@ == crate::digest::sha256_hex_spec(bytes@),
            r.1@ == blob_path(old(self).base_dir@, r.0@),
            put_recorded(old(self).index@, final(self).index@, r.0@, bytes@.len() as u64, now),
    {
        let digest = crate::digest::sha256_hex(bytes);
        let path = self.path_for_digest(digest.as_str());
        self.index.record_put(digest.as_str(), bytes.len() as u64, now);
        (digest, path)
    }

    /// Garbage-collect down to `target_total_bytes` (see
    /// `IndexFile::gc_to_target`); gives the paths of the blob files to
    /// delete.
    pub fn gc_to_target(&mut self, target_total_bytes: u64) -> (paths: Vec<String>)
        requires
            old(self).wf(),
            total_size(old(self).index@) <= u64::MAX,
            forall|i: int| 0 <= i < old(self).index@.len() ==> digest_prefix_ascii(#[trigger] old(self).index@[i].0),
        ensures
            final(self).wf(),
            final(self).base_dir == old(self).base_dir,
            sub_of(old(self).index@, final(self).index@),
            pinned_kept(old(self).index@, final(self).index@),
            paths@.len() + final(self).index@.len() == old(self).index@.len(),
            exists|removed: Seq<Seq<char>>|
                {
                    &&& #[trigger] removed.len() == paths@.len()
                    &&& covers(old(self).index@, final(self).index@, removed)
                    &&& removed_ok(old(self).index@, final(self).index@, removed)
                    &&& lru_ok(old(self).index@, final(self).index@, removed)
                    &&& sorted_by_access(old(self).index@, removed)
                    &&& forall|i: int| 0 <= i < paths@.len() ==> #[trigger] paths@[i]@ == blob_path(old(self).base_dir@, removed[i])
                    &&& removed.len() > 0 ==> total_size(final(self).index@) + entry_of(
                        old(self).index@,
                        removed[removed.len() - 1],
                    ).size_bytes > target_total_bytes
                },
            total_size(final(self).index@) <= target_total_bytes || forall|j: int|
                0 <= j < final(self).index@.len() ==> (#[trigger] final(self).index@[j]).1.pinned,
    {
        let ghost o = self.index@;
        let removed = self.index.gc_to_target(target_total_bytes);
        let ghost rm = removed.deep_view();
        let mut paths: Vec<String> = Vec::new();
        let mut i: usize = 0;
        proof {
            reveal(removed_ok);
        }
        let ghost after = self.index@;
        while i < removed.len()
            invariant
                rm == removed.deep_view(),
                self.index@ == after,
                self.base_dir == old(self).base_dir,
                removed_ok(o, self.index@, rm),
                covers(o, self.index@, rm),
                lru_ok(o, self.index@, rm),
                sorted_by_access(o, rm),
                rm.len() == removed@.len(),
                forall|k: int| 0 <= k < o.len() ==> digest_prefix_ascii(#[trigger] o[k].0),
                i <= removed@.len(),
                paths@.len() == i,
                forall|k: int| 0 <= k < i ==> #[trigger] paths@[k]@ == blob_path(self.base_dir@, rm[k]),
            decreases removed.len() - i,
        {
            proof {
                reveal(removed_ok);
                assert(rm[i as int] == removed@[i as int]@);
                lemma_removed_prefix_ascii(o, self.index@, rm, i as int);
            }
            let p = self.path_for_digest(removed[i].as_str());
            paths.push(p);
            i = i + 1;
        }
        assert(rm.len() == paths@.len());
        proof {
            if rm.len() > 0 {
                assert(rm[rm.len() - 1] == removed@[removed@.len() - 1]@);
            }
        }
        paths
    }
}

proof fn lemma_removed_prefix_ascii(o: IndexSeq, s: IndexSeq, rm: Seq<Seq<char>>, i: int)
    requires
        removed_ok(o, s, rm),
        forall|k: int| 0 <= k < o.len() ==> digest_prefix_ascii(#[trigger] o[k].0),
        0 <= i < rm.len(),
    ensures
        digest_prefix_ascii(rm[i]),
{
    reveal(removed_ok);
    assert(has_digest(o, rm[i]));
    let j = choose|j: int| 0 <= j < o.len() && o[j].0 == rm[i];
    assert(digest_prefix_ascii(o[j].0));
}

} // verus!
