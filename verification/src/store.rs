//! Content store and cache metadata ledger.
//!
//! A `CacheModel` maps cache keys to entries; each entry holds the uploaded
//! payload (immutable once written), the derived artifact (written at most
//! once), and the ledger record with creation and last-visit instants.
//! Payload and artifact writes are first-writer-wins; the last-visit time is
//! monotonically non-decreasing; an entry is created and destroyed whole, so
//! a lookup can never see a partially-deleted entry.

use vstd::prelude::*;

use crate::CacheError;
use crate::evict::spec_expired;
use crate::evict::is_expired;

verus! {

/// The per-entry ledger record: creation and last-visit instants, as epoch
/// milliseconds.
#[derive(Clone, Copy, Debug, PartialEq, Eq, Structural)]
pub struct LedgerRecord {
    pub create_time: i64,
    pub last_visit_time: i64,
}

/// The mathematical snapshot of one cache entry.
pub ghost struct EntryView {
    pub payload: Seq<u8>,
    pub derived: Option<Seq<u8>>,
    pub create_time: i64,
    pub last_visit_time: i64,
}

/// What always holds of a stored entry: the payload is at least two bytes —
/// shorter uploads never reach the store — and the last visit is never
/// before creation.
pub open spec fn entry_wf(e: EntryView) -> bool {
    &&& e.create_time <= e.last_visit_time
    &&& e.payload.len() > 1
}

/// One stored object with its key and ledger record.
pub struct CacheEntry {
    pub key: Vec<u8>,
    pub payload: Vec<u8>,
    pub derived: Option<Vec<u8>>,
    pub record: LedgerRecord,
}

/// The snapshot a stored entry denotes.
pub open spec fn entry_view(e: CacheEntry) -> EntryView {
    EntryView {
        payload: e.payload@,
        derived: match e.derived {
            Some(d) => Some(d@),
            None => None,
        },
        create_time: e.record.create_time,
        last_visit_time: e.record.last_visit_time,
    }
}

/// No two stored entries share a key: the key is the sole identity of an
/// entry.
pub open spec fn keys_unique(s: Seq<CacheEntry>) -> bool {
    forall|i: int, j: int|
        0 <= i < s.len() && 0 <= j < s.len() && i != j ==> s[i].key@ != s[j].key@
}

/// Whether some stored entry carries the key `k`.
pub open spec fn has_key(s: Seq<CacheEntry>, k: Seq<u8>) -> bool {
    exists|i: int| 0 <= i < s.len() && s[i].key@ == k
}

/// The map a sequence of entries denotes.
pub open spec fn entries_map(s: Seq<CacheEntry>) -> Map<Seq<u8>, EntryView>
    decreases s.len(),
{
    if s.len() == 0 {
        Map::empty()
    } else {
        entries_map(s.drop_last()).insert(s.last().key@, entry_view(s.last()))
    }
}

proof fn lemma_map_contains(s: Seq<CacheEntry>, k: Seq<u8>)
    ensures
        entries_map(s).contains_key(k) <==> has_key(s, k),
    decreases s.len(),
{
    if s.len() > 0 {
        lemma_map_contains(s.drop_last(), k);
        if s.last().key@ == k {
            assert(s[s.len() - 1].key@ == k);
        } else {
            if has_key(s, k) {
                let i = choose|i: int| 0 <= i < s.len() && s[i].key@ == k;
                assert(s.drop_last()[i] == s[i]);
            }
            if has_key(s.drop_last(), k) {
                let i = choose|i: int| 0 <= i < s.drop_last().len() && s.drop_last()[i].key@ == k;
                assert(s[i].key@ == k);
            }
        }
    }
}

proof fn lemma_map_value(s: Seq<CacheEntry>, i: int)
    requires
        keys_unique(s),
        0 <= i < s.len(),
    ensures
        entries_map(s).contains_key(s[i].key@),
        entries_map(s)[s[i].key@] == entry_view(s[i]),
    decreases s.len(),
{
    if i == s.len() - 1 {
    } else {
        assert(keys_unique(s.drop_last())) by {
            assert(forall|a: int, b: int|
                0 <= a < s.drop_last().len() && 0 <= b < s.drop_last().len() && a != b
                    ==> s.drop_last()[a].key@ != s.drop_last()[b].key@);
        }
        lemma_map_value(s.drop_last(), i);
        assert(s.drop_last()[i] == s[i]);
        assert(s.last().key@ != s[i].key@);
    }
}

proof fn lemma_unique_drop_last(s: Seq<CacheEntry>)
    requires
        keys_unique(s),
        s.len() > 0,
    ensures
        keys_unique(s.drop_last()),
{
    assert(forall|a: int, b: int|
        0 <= a < s.drop_last().len() && 0 <= b < s.drop_last().len() && a != b ==> s.drop_last()[a]
            == s[a] && s.drop_last()[b] == s[b]);
}

proof fn lemma_map_update(s: Seq<CacheEntry>, i: int, e: CacheEntry)
    requires
        keys_unique(s),
        0 <= i < s.len(),
        e.key@ == s[i].key@,
    ensures
        entries_map(s.update(i, e)) =~= entries_map(s).insert(e.key@, entry_view(e)),
    decreases s.len(),
{
    let t = s.update(i, e);
    if i == s.len() - 1 {
        assert(t.drop_last() =~= s.drop_last());
        assert(t.last() == e);
    } else {
        lemma_unique_drop_last(s);
        lemma_map_update(s.drop_last(), i, e);
        assert(t.drop_last() =~= s.drop_last().update(i, e));
        assert(t.last() == s.last());
        assert(s.last().key@ != e.key@);
    }
}

proof fn lemma_map_remove(s: Seq<CacheEntry>, i: int)
    requires
        keys_unique(s),
        0 <= i < s.len(),
    ensures
        entries_map(s.remove(i)) =~= entries_map(s).remove(s[i].key@),
    decreases s.len(),
{
    let k = s[i].key@;
    if i == s.len() - 1 {
        assert(s.remove(i) =~= s.drop_last());
        lemma_unique_drop_last(s);
        lemma_map_contains(s.drop_last(), k);
        assert(!has_key(s.drop_last(), k)) by {
            if has_key(s.drop_last(), k) {
                let j = choose|j: int|
                    0 <= j < s.drop_last().len() && s.drop_last()[j].key@ == k;
                assert(s[j].key@ == k);
            }
        }
    } else {
        lemma_unique_drop_last(s);
        lemma_map_remove(s.drop_last(), i);
        assert(s.remove(i).drop_last() =~= s.drop_last().remove(i));
        assert(s.remove(i).last() == s.last());
        assert(s.last().key@ != k);
    }
}

proof fn lemma_map_push(s: Seq<CacheEntry>, e: CacheEntry)
    ensures
        entries_map(s.push(e)) =~= entries_map(s).insert(e.key@, entry_view(e)),
{
    assert(s.push(e).drop_last() =~= s);
    assert(s.push(e).last() == e);
}

/// The larger of two instants.
pub open spec fn max_time(a: i64, b: i64) -> i64 {
    if a > b {
        a
    } else {
        b
    }
}

/// The entry a first upload of `payload` at `now` creates: the payload and
/// the ledger record are created together, with equal creation and
/// last-visit instants, and no derived artifact yet.
pub open spec fn fresh_entry(payload: Seq<u8>, now: i64) -> EntryView {
    EntryView { payload, derived: None, create_time: now, last_visit_time: now }
}

/// The entry after a visit at `now`: only the last-visit instant moves, and
/// only forward.
pub open spec fn visited(e: EntryView, now: i64) -> EntryView {
    EntryView { last_visit_time: max_time(e.last_visit_time, now), ..e }
}

/// `storePayload` with `recordCreation`, as one transition: a previously
/// unseen key is created whole; a write to an existing key changes nothing —
/// the first writer wins.
pub open spec fn spec_store_payload(
    m: Map<Seq<u8>, EntryView>,
    k: Seq<u8>,
    payload: Seq<u8>,
    now: i64,
) -> Map<Seq<u8>, EntryView> {
    if m.contains_key(k) {
        m
    } else {
        m.insert(k, fresh_entry(payload, now))
    }
}

/// `recordVisit` as a transition: an existing entry's last-visit instant is
/// brought forward to `now`; an absent key changes nothing.
pub open spec fn spec_record_visit(m: Map<Seq<u8>, EntryView>, k: Seq<u8>, now: i64) -> Map<
    Seq<u8>,
    EntryView,
> {
    if m.contains_key(k) {
        m.insert(k, visited(m[k], now))
    } else {
        m
    }
}

/// `storeDerived` as a transition: the artifact is written at most once —
/// a second write, and a write for an absent key, change nothing.
pub open spec fn spec_store_derived(
    m: Map<Seq<u8>, EntryView>,
    k: Seq<u8>,
    artifact: Seq<u8>,
) -> Map<Seq<u8>, EntryView> {
    if m.contains_key(k) && m[k].derived is None {
        m.insert(k, EntryView { derived: Some(artifact), ..m[k] })
    } else {
        m
    }
}

/// Compares two byte strings.
pub fn bytes_eq(a: &Vec<u8>, b: &Vec<u8>) -> (r: bool)
    ensures
        r == (a@ == b@),
{
    if a.len() != b.len() {
        return false;
    }
    let mut i: usize = 0;
    while i < a.len()
        invariant
            i <= a@.len(),
            a@.len() == b@.len(),
            forall|j: int| 0 <= j < i ==> a@[j] == b@[j],
        decreases a@.len() - i,
    {
        if a[i] != b[i] {
            return false;
        }
        i = i + 1;
    }
    proof {
        assert(a@ =~= b@);
    }
    true
}

/// Copies a byte string.
pub fn clone_bytes(v: &Vec<u8>) -> (r: Vec<u8>)
    ensures
        r@ == v@,
{
    let mut out: Vec<u8> = Vec::new();
    let mut i: usize = 0;
    while i < v.len()
        invariant
            i <= v@.len(),
            out@ =~= v@.take(i as int),
        decreases v@.len() - i,
    {
        out.push(v[i]);
        i = i + 1;
    }
    proof {
        assert(out@ =~= v@);
    }
    out
}

/// The content-addressed cache with its metadata ledger, keyed by cache key.
pub struct CacheModel {
    entries: Vec<CacheEntry>,
}

impl View for CacheModel {
    type V = Map<Seq<u8>, EntryView>;

    closed spec fn view(&self) -> Map<Seq<u8>, EntryView> {
        entries_map(self.entries@)
    }
}

impl CacheModel {
    /// Well-formedness: keys are unique and every entry satisfies the entry
    /// invariant.
    pub closed spec fn wf(&self) -> bool {
        &&& keys_unique(self.entries@)
        &&& forall|i: int|
            0 <= i < self.entries@.len() ==> entry_wf(entry_view(#[trigger] self.entries@[i]))
    }

    /// Every entry the model holds satisfies the entry invariant.
    pub proof fn lemma_wf_entries(&self)
        requires
            self.wf(),
        ensures
            forall|k: Seq<u8>| #[trigger] self@.contains_key(k) ==> entry_wf(self@[k]),
    {
        assert forall|k: Seq<u8>| #[trigger] self@.contains_key(k) implies entry_wf(self@[k]) by {
            lemma_map_contains(self.entries@, k);
            let i = choose|i: int| 0 <= i < self.entries@.len() && self.entries@[i].key@ == k;
            lemma_map_value(self.entries@, i);
        }
    }

    /// An empty cache.
    pub fn new() -> (m: CacheModel)
        ensures
            m.wf(),
            m@ =~= Map::<Seq<u8>, EntryView>::empty(),
    {
        CacheModel { entries: Vec::new() }
    }

    /// The index of the entry carrying `key`, if any.
    fn find_index(&self, key: &Vec<u8>) -> (r: Option<usize>)
        ensures
            match r {
                Some(i) => i < self.entries@.len() && self.entries@[i as int].key@ == key@,
                None => !has_key(self.entries@, key@),
            },
    {
        let mut i: usize = 0;
        while i < self.entries.len()
            invariant
                i <= self.entries@.len(),
                forall|j: int| 0 <= j < i ==> self.entries@[j].key@ != key@,
            decreases self.entries@.len() - i,
        {
            if bytes_eq(&self.entries[i].key, key) {
                return Some(i);
            }
            i = i + 1;
        }
        None
    }

    /// Filesystem-presence check only: whether the key holds a payload, and
    /// whether its derived artifact exists.
    pub fn lookup(&self, key: &Vec<u8>) -> (r: (bool, bool))
        requires
            self.wf(),
        ensures
            r.0 == self@.contains_key(key@),
            r.1 == (self@.contains_key(key@) && self@[key@].derived is Some),
    {
        proof {
            lemma_map_contains(self.entries@, key@);
        }
        match self.find_index(key) {
            Some(i) => {
                proof {
                    lemma_map_value(self.entries@, i as int);
                }
                let has_derived = match &self.entries[i].derived {
                    Some(_) => true,
                    None => false,
                };
                (true, has_derived)
            },
            None => (false, false),
        }
    }

    /// Stores a payload once: an unseen key creates the entry and its ledger
    /// record together at `now`; a duplicate write is a no-op — the first
    /// writer wins and the stored bytes are never overwritten. Returns
    /// whether the entry was created.
    pub fn store_payload(&mut self, key: Vec<u8>, payload: Vec<u8>, now: i64) -> (created: bool)
        requires
            old(self).wf(),
            payload@.len() > 1,
        ensures
            final(self).wf(),
            created == !old(self)@.contains_key(key@),
            final(self)@ =~= spec_store_payload(old(self)@, key@, payload@, now),
    {
        proof {
            lemma_map_contains(self.entries@, key@);
        }
        match self.find_index(&key) {
            Some(i) => {
                proof {
                    lemma_map_value(self.entries@, i as int);
                }
                false
            },
            None => {
                let entry = CacheEntry {
                    key,
                    payload,
                    derived: None,
                    record: LedgerRecord { create_time: now, last_visit_time: now },
                };
                proof {
                    lemma_map_push(self.entries@, entry);
                }
                let ghost s0 = self.entries@;
                self.entries.push(entry);
                proof {
                    assert forall|a: int, b: int|
                        0 <= a < self.entries@.len() && 0 <= b < self.entries@.len() && a
                            != b implies self.entries@[a].key@ != self.entries@[b].key@ by {
                        if a < s0.len() && b < s0.len() {
                        } else if a == s0.len() {
                            assert(s0[b].key@ != entry.key@);
                        } else {
                            assert(s0[a].key@ != entry.key@);
                        }
                    }
                }
                true
            },
        }
    }

    /// Records a visit: the entry's last-visit instant is brought forward to
    /// `now`, never backward, and the creation instant never changes. An
    /// absent key is left untouched.
    pub fn record_visit(&mut self, key: &Vec<u8>, now: i64)
        requires
            old(self).wf(),
        ensures
            final(self).wf(),
            final(self)@ =~= spec_record_visit(old(self)@, key@, now),
    {
        proof {
            lemma_map_contains(self.entries@, key@);
        }
        match self.find_index(key) {
            Some(i) => {
                proof {
                    lemma_map_value(self.entries@, i as int);
                }
                let ghost s0 = self.entries@;
                let mut e = self.entries.remove(i);
                if now > e.record.last_visit_time {
                    e.record.last_visit_time = now;
                }
                self.entries.insert(i, e);
                proof {
                    assert(self.entries@ =~= s0.update(i as int, e));
                    lemma_map_update(s0, i as int, e);
                    assert forall|a: int, b: int|
                        0 <= a < self.entries@.len() && 0 <= b < self.entries@.len() && a
                            != b implies self.entries@[a].key@ != self.entries@[b].key@ by {
                        assert(self.entries@[a].key@ == s0[a].key@);
                        assert(self.entries@[b].key@ == s0[b].key@);
                    }
                    assert(entry_view(e) == visited(entries_map(s0)[key@], now));
                }
            },
            None => {
            },
        }
    }

    /// Stores the derived artifact at most once: a second write for the same
    /// key is a no-op — the first writer wins — and a write for an absent
    /// key stores nothing. Returns whether the artifact was written.
    pub fn store_derived(&mut self, key: &Vec<u8>, artifact: Vec<u8>) -> (stored: bool)
        requires
            old(self).wf(),
        ensures
            final(self).wf(),
            stored == (old(self)@.contains_key(key@) && old(self)@[key@].derived is None),
            final(self)@ =~= spec_store_derived(old(self)@, key@, artifact@),
    {
        proof {
            lemma_map_contains(self.entries@, key@);
        }
        match self.find_index(key) {
            Some(i) => {
                proof {
                    lemma_map_value(self.entries@, i as int);
                }
                let ghost s0 = self.entries@;
                let mut e = self.entries.remove(i);
                match &e.derived {
                    Some(_) => {
                        self.entries.insert(i, e);
                        proof {
                            assert(self.entries@ =~= s0);
                        }
                        false
                    },
                    None => {
                        e.derived = Some(artifact);
                        self.entries.insert(i, e);
                        proof {
                            assert(self.entries@ =~= s0.update(i as int, e));
                            lemma_map_update(s0, i as int, e);
                            assert forall|a: int, b: int|
                                0 <= a < self.entries@.len() && 0 <= b < self.entries@.len() && a
                                    != b implies self.entries@[a].key@ != self.entries@[b].key@ by {
                                assert(self.entries@[a].key@ == s0[a].key@);
                                assert(self.entries@[b].key@ == s0[b].key@);
                            }
                            assert(entry_view(e) == EntryView {
                                derived: Some(artifact@),
                                ..entries_map(s0)[key@]
                            });
                        }
                        true
                    },
                }
            },
            None => false,
        }
    }

    /// Reads the stored payload — what the converter is handed as its
    /// input; an unknown key fails with `NotFound`.
    pub fn read_payload(&self, key: &Vec<u8>) -> (r: Result<Vec<u8>, CacheError>)
        requires
            self.wf(),
        ensures
            match r {
                Ok(b) => self@.contains_key(key@) && self@[key@].payload == b@,
                Err(e) => e == CacheError::NotFound && !self@.contains_key(key@),
            },
    {
        proof {
            lemma_map_contains(self.entries@, key@);
        }
        match self.find_index(key) {
            Some(i) => {
                proof {
                    lemma_map_value(self.entries@, i as int);
                }
                Ok(clone_bytes(&self.entries[i].payload))
            },
            None => Err(CacheError::NotFound),
        }
    }

    /// Reads the derived artifact; absent — whether the key is unknown or
    /// the artifact not yet written — it fails with `NotFound`.
    pub fn read_derived(&self, key: &Vec<u8>) -> (r: Result<Vec<u8>, CacheError>)
        requires
            self.wf(),
        ensures
            match r {
                Ok(b) => self@.contains_key(key@) && self@[key@].derived == Some(b@),
                Err(e) => e == CacheError::NotFound && !(self@.contains_key(key@)
                    && self@[key@].derived is Some),
            },
    {
        proof {
            lemma_map_contains(self.entries@, key@);
        }
        match self.find_index(key) {
            Some(i) => {
                proof {
                    lemma_map_value(self.entries@, i as int);
                }
                match &self.entries[i].derived {
                    Some(d) => Ok(clone_bytes(d)),
                    None => Err(CacheError::NotFound),
                }
            },
            None => Err(CacheError::NotFound),
        }
    }

    /// Removes the entry whole — payload, derived artifact and ledger record
    /// together; an already-absent key counts as removed. After eviction a
    /// lookup for the key reports everything absent.
    pub fn evict_entry(&mut self, key: &Vec<u8>)
        requires
            old(self).wf(),
        ensures
            final(self).wf(),
            final(self)@ =~= old(self)@.remove(key@),
            !final(self)@.contains_key(key@),
    {
        proof {
            lemma_map_contains(self.entries@, key@);
        }
        match self.find_index(key) {
            Some(i) => {
                let ghost s0 = self.entries@;
                proof {
                    lemma_map_remove(s0, i as int);
                }
                self.entries.remove(i);
                proof {
                    assert forall|a: int, b: int|
                        0 <= a < self.entries@.len() && 0 <= b < self.entries@.len() && a
                            != b implies self.entries@[a].key@ != self.entries@[b].key@ by {
                        let a0: int = if a < i { a } else { a + 1 };
                        let b0: int = if b < i { b } else { b + 1 };
                        assert(self.entries@[a].key@ == s0[a0].key@);
                        assert(self.entries@[b].key@ == s0[b0].key@);
                    }
                    assert forall|j: int|
                        0 <= j < self.entries@.len() implies entry_wf(entry_view(
                        #[trigger] self.entries@[j])) by {
                        let j0: int = if j < i { j } else { j + 1 };
                        assert(self.entries@[j] == s0[j0]);
                    }
                    lemma_map_contains(self.entries@, key@);
                    assert(!has_key(self.entries@, key@)) by {
                        if has_key(self.entries@, key@) {
                            let j = choose|j: int|
                                0 <= j < self.entries@.len() && self.entries@[j].key@ == key@;
                            let j0: int = if j < i { j } else { j + 1 };
                            assert(s0[j0].key@ == key@);
                            assert(s0[i as int].key@ == key@);
                        }
                    }
                }
            },
            None => {
                proof {
                    assert(self@ =~= old(self)@.remove(key@));
                }
            },
        }
    }

    /// The ledger scan the eviction sweep walks: every entry's key with its
    /// creation and last-visit instants, one element per stored entry.
    pub fn scan(&self) -> (r: Vec<(Vec<u8>, i64, i64)>)
        requires
            self.wf(),
        ensures
            r@.len() == self@.dom().len(),
            forall|i: int|
                0 <= i < r@.len() ==> #[trigger] self@.contains_key(r@[i].0@)
                    && self@[r@[i].0@].create_time == r@[i].1 && self@[r@[i].0@].last_visit_time
                    == r@[i].2,
            forall|k: Seq<u8>| #[trigger] self@.contains_key(k) ==> exists|i: int|
                0 <= i < r@.len() && r@[i].0@ == k,
    {
        let mut out: Vec<(Vec<u8>, i64, i64)> = Vec::new();
        let mut i: usize = 0;
        proof {
            lemma_dom_len(self.entries@);
        }
        while i < self.entries.len()
            invariant
                self.wf(),
                i <= self.entries@.len(),
                out@.len() == i,
                forall|j: int|
                    0 <= j < i ==> out@[j].0@ == #[trigger] self.entries@[j].key@ && out@[j].1
                        == self.entries@[j].record.create_time && out@[j].2
                        == self.entries@[j].record.last_visit_time,
            decreases self.entries@.len() - i,
        {
            let e = &self.entries[i];
            let k = clone_bytes(&e.key);
            let c = e.record.create_time;
            let l = e.record.last_visit_time;
            out.push((k, c, l));
            i = i + 1;
        }
        proof {
            assert forall|j: int| 0 <= j < out@.len() implies #[trigger] self@.contains_key(
                out@[j].0@) && self@[out@[j].0@].create_time == out@[j].1
                && self@[out@[j].0@].last_visit_time == out@[j].2 by {
                lemma_map_value(self.entries@, j);
            }
            assert forall|k: Seq<u8>| #[trigger] self@.contains_key(k) implies exists|j: int|
                0 <= j < out@.len() && out@[j].0@ == k by {
                lemma_map_contains(self.entries@, k);
                let j = choose|j: int| 0 <= j < self.entries@.len() && self.entries@[j].key@ == k;
                assert(out@[j].0@ == k);
            }
        }
        out
    }

    /// One eviction pass: every entry whose last visit lies a full
    /// expiration window or more before `now` is removed whole; every entry
    /// visited more recently is retained unchanged.
    pub fn evict_expired(&mut self, now: i64, expiration_minutes: i64)
        requires
            old(self).wf(),
        ensures
            final(self).wf(),
            crate::evict::sweep_result(old(self)@, final(self)@, now, expiration_minutes),
            forall|k: Seq<u8>| #[trigger] final(self)@.contains_key(k) ==> final(self)@[k]
                == old(self)@[k],
    {
        let mut i: usize = 0;
        while i < self.entries.len()
            invariant
                self.wf(),
                i <= self.entries@.len(),
                forall|j: int|
                    0 <= j < i ==> !spec_expired(
                        (#[trigger] self.entries@[j]).record.last_visit_time,
                        now,
                        expiration_minutes,
                    ),
                forall|k: Seq<u8>| #[trigger] self@.contains_key(k) ==> old(self)@.contains_key(k)
                    && self@[k] == old(self)@[k],
                forall|k: Seq<u8>| old(self)@.contains_key(k) && !spec_expired(
                    (#[trigger] old(self)@[k]).last_visit_time,
                    now,
                    expiration_minutes,
                ) ==> self@.contains_key(k),
            decreases self.entries@.len() - i,
        {
            let expired = is_expired(self.entries[i].record.last_visit_time, now, expiration_minutes);
            if expired {
                let ghost s0 = self.entries@;
                let ghost m0 = self@;
                let ghost k = self.entries@[i as int].key@;
                proof {
                    lemma_map_remove(s0, i as int);
                    lemma_map_value(s0, i as int);
                }
                self.entries.remove(i);
                proof {
                    assert forall|a: int, b: int|
                        0 <= a < self.entries@.len() && 0 <= b < self.entries@.len() && a
                            != b implies self.entries@[a].key@ != self.entries@[b].key@ by {
                        let a0: int = if a < i { a } else { a + 1 };
                        let b0: int = if b < i { b } else { b + 1 };
                        assert(self.entries@[a].key@ == s0[a0].key@);
                        assert(self.entries@[b].key@ == s0[b0].key@);
                    }
                    assert forall|j: int|
                        0 <= j < self.entries@.len() implies entry_wf(entry_view(
                        #[trigger] self.entries@[j])) by {
                        let j0: int = if j < i { j } else { j + 1 };
                        assert(self.entries@[j] == s0[j0]);
                    }
                    assert forall|j: int| 0 <= j < i implies !spec_expired(
                        (#[trigger] self.entries@[j]).record.last_visit_time,
                        now,
                        expiration_minutes,
                    ) by {
                        assert(self.entries@[j] == s0[j]);
                    }
                    assert forall|k2: Seq<u8>| #[trigger] self@.contains_key(k2) implies old(
                        self,
                    )@.contains_key(k2) && self@[k2] == old(self)@[k2] by {
                        assert(m0 == entries_map(s0));
                        assert(self@ == entries_map(s0).remove(k));
                        assert(m0.contains_key(k2));
                        assert(self@[k2] == m0[k2]);
                    }
                }
            } else {
                i = i + 1;
            }
        }
        proof {
            assert forall|k: Seq<u8>| #[trigger] self@.contains_key(k) implies !spec_expired(
                self@[k].last_visit_time,
                now,
                expiration_minutes,
            ) by {
                lemma_map_contains(self.entries@, k);
                let j = choose|j: int| 0 <= j < self.entries@.len() && self.entries@[j].key@ == k;
                lemma_map_value(self.entries@, j);
            }
        }
    }
}

/// Storing a payload twice under one key yields the identical stored bytes
/// both times: the first write creates the entry, the second is a no-op —
/// `storePayload` is idempotent.
pub proof fn lemma_store_payload_idempotent(
    m: Map<Seq<u8>, EntryView>,
    k: Seq<u8>,
    payload: Seq<u8>,
    n1: i64,
    n2: i64,
)
    requires
        !m.contains_key(k),
    ensures
        spec_store_payload(m, k, payload, n1)[k].payload == payload,
        spec_store_payload(spec_store_payload(m, k, payload, n1), k, payload, n2)
            == spec_store_payload(m, k, payload, n1),
        spec_store_payload(spec_store_payload(m, k, payload, n1), k, payload, n2)[k].payload
            == payload,
{
}

/// The first writer of a derived artifact wins: once an artifact is stored
/// under a key, a concurrent write of other bytes for the same key changes
/// nothing, so every reader of the key is handed the same bytes.
pub proof fn lemma_store_derived_first_writer_wins(
    m: Map<Seq<u8>, EntryView>,
    k: Seq<u8>,
    a1: Seq<u8>,
    a2: Seq<u8>,
)
    requires
        m.contains_key(k),
        m[k].derived is None,
    ensures
        spec_store_derived(m, k, a1)[k].derived == Some(a1),
        spec_store_derived(spec_store_derived(m, k, a1), k, a2) == spec_store_derived(m, k, a1),
{
}

/// A visit touches only the last-visit instant, and only forward: the
/// payload, the artifact and the creation instant are untouched, and the
/// last-visit instant never decreases over the entry's life.
pub proof fn lemma_visit_monotonic(m: Map<Seq<u8>, EntryView>, k: Seq<u8>, now: i64)
    requires
        m.contains_key(k),
    ensures
        spec_record_visit(m, k, now)[k].payload == m[k].payload,
        spec_record_visit(m, k, now)[k].derived == m[k].derived,
        spec_record_visit(m, k, now)[k].create_time == m[k].create_time,
        spec_record_visit(m, k, now)[k].last_visit_time >= m[k].last_visit_time,
{
}

proof fn lemma_dom_len(s: Seq<CacheEntry>)
    requires
        keys_unique(s),
    ensures
        entries_map(s).dom().len() == s.len(),
        entries_map(s).dom().finite(),
    decreases s.len(),
{
    if s.len() > 0 {
        lemma_unique_drop_last(s);
        lemma_dom_len(s.drop_last());
        lemma_map_contains(s.drop_last(), s.last().key@);
        assert(!has_key(s.drop_last(), s.last().key@)) by {
            if has_key(s.drop_last(), s.last().key@) {
                let j = choose|j: int|
                    0 <= j < s.drop_last().len() && s.drop_last()[j].key@ == s.last().key@;
                assert(s[j].key@ == s.last().key@);
                assert(s[s.len() - 1].key@ == s.last().key@);
            }
        }
        vstd::set::axiom_set_insert_len(entries_map(s.drop_last()).dom(), s.last().key@);
    }
}

} // verus!
