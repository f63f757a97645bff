//! Ordered key/value field mappings.
//!
//! A `FieldMap` keeps the fields of an event or a span as `(key, value)`
//! pairs in insertion order, one entry per key; writing an existing key
//! replaces its value in place (last write wins). `EguiVisit` is the
//! visitor that builds such a mapping from recorded field values.

use vstd::prelude::*;
use vstd::string::StrSliceExecFns;

verus! {

/// A key/value sequence seen at the specification level.
pub type KvSeq = Seq<(Seq<char>, Seq<char>)>;

/// The value stored under `k`, looking from the front.
pub open spec fn kv_get(m: KvSeq, k: Seq<char>) -> Option<Seq<char>>
    decreases m.len(),
{
    if m.len() == 0 {
        None
    } else if m[0].0 == k {
        Some(m[0].1)
    } else {
        kv_get(m.drop_first(), k)
    }
}

/// Whether some entry of `m` has key `k`.
pub open spec fn kv_contains_key(m: KvSeq, k: Seq<char>) -> bool {
    kv_get(m, k) is Some
}

/// `m` with `v` written under `k`: the first entry with key `k` is
/// replaced in place, or a new entry is appended at the back.
pub open spec fn kv_insert(m: KvSeq, k: Seq<char>, v: Seq<char>) -> KvSeq
    decreases m.len(),
{
    if m.len() == 0 {
        seq![(k, v)]
    } else if m[0].0 == k {
        seq![(k, v)] + m.drop_first()
    } else {
        seq![m[0]] + kv_insert(m.drop_first(), k, v)
    }
}

/// `m` with the first entry under `k` removed, if there is one.
pub open spec fn kv_remove(m: KvSeq, k: Seq<char>) -> KvSeq
    decreases m.len(),
{
    if m.len() == 0 {
        m
    } else if m[0].0 == k {
        m.drop_first()
    } else {
        seq![m[0]] + kv_remove(m.drop_first(), k)
    }
}

/// `updates` merged into `base`, first entry first, each write winning
/// over an earlier one for the same key.
pub open spec fn kv_merge(base: KvSeq, updates: KvSeq) -> KvSeq
    decreases updates.len(),
{
    if updates.len() == 0 {
        base
    } else {
        kv_merge(kv_insert(base, updates[0].0, updates[0].1), updates.drop_first())
    }
}

/// No two entries of `m` share a key.
pub open spec fn kv_unique(m: KvSeq) -> bool {
    forall|i: int, j: int| 0 <= i < j < m.len() ==> m[i].0 != m[j].0
}

/// A field mapping: `(key, value)` pairs in insertion order, one entry
/// per key.
#[derive(Debug, Clone, PartialEq)]
pub struct FieldMap {
    entries: Vec<(String, String)>,
}

impl View for FieldMap {
    type V = KvSeq;

    closed spec fn view(&self) -> KvSeq {
        Seq::new(self.entries@.len(), |i: int| (self.entries@[i].0@, self.entries@[i].1@))
    }
}

impl FieldMap {
    /// The keys of the map are pairwise distinct.
    pub open spec fn wf(self) -> bool {
        kv_unique(self@)
    }

    /// An empty mapping.
    pub fn new() -> (m: FieldMap)
        ensures
            m@ == Seq::<(Seq<char>, Seq<char>)>::empty(),
            m.wf(),
    {
        let m = FieldMap { entries: Vec::new() };
        proof {
            assert(m@ =~= Seq::<(Seq<char>, Seq<char>)>::empty());
        }
        m
    }

    /// How many entries the map holds.
    pub fn len(&self) -> (n: usize)
        ensures
            n == self@.len(),
    {
        self.entries.len()
    }

    /// The entry at position `i`, in insertion order.
    pub fn entry_at(&self, i: usize) -> (kv: (&String, &String))
        requires
            i < self@.len(),
        ensures
            kv.0@ == self@[i as int].0,
            kv.1@ == self@[i as int].1,
    {
        let e = &self.entries[i];
        (&e.0, &e.1)
    }

    /// The position of the first entry whose key is `k`, if any.
    fn position(&self, k: &str) -> (r: Option<usize>)
        ensures
            match r {
                Some(i) => i < self@.len() && self@[i as int].0 == k@ && forall|j: int|
                    0 <= j < i ==> self@[j].0 != k@,
                None => forall|j: int| 0 <= j < self@.len() ==> self@[j].0 != k@,
            },
    {
        let n = self.entries.len();
        let mut i: usize = 0;
        while i < n
            invariant
                n == self@.len(),
                i <= n,
                forall|j: int| 0 <= j < i ==> self@[j].0 != k@,
            decreases n - i,
        {
            if str_eq(self.entries[i].0.as_str(), k) {
                return Some(i);
            }
            i += 1;
        }
        None
    }

    /// Writes `v` under `k`, replacing the value of an existing entry in
    /// place and appending a new entry otherwise.
    pub fn insert(&mut self, k: String, v: String)
        ensures
            final(self)@ == kv_insert(old(self)@, k@, v@),
            old(self).wf() ==> final(self).wf(),
    {
        let ghost m0 = self@;
        let ghost gk = k@;
        let ghost gv = v@;
        match self.position(k.as_str()) {
            Some(i) => {
                self.entries.remove(i);
                self.entries.insert(i, (k, v));
                proof {
                    lemma_kv_insert_at(m0, gk, gv, i as int);
                    assert(self@ =~= m0.update(i as int, (gk, gv)));
                }
            },
            None => {
                self.entries.push((k, v));
                proof {
                    lemma_kv_insert_absent(m0, gk, gv);
                    assert(self@ =~= m0.push((gk, gv)));
                }
            },
        }
        proof {
            if kv_unique(m0) {
                lemma_kv_insert_unique(m0, gk, gv);
            }
        }
    }

    /// Removes the entry under `k` and returns its value, if there is one.
    pub fn remove(&mut self, k: &str) -> (r: Option<String>)
        ensures
            final(self)@ == kv_remove(old(self)@, k@),
            match r {
                Some(v) => kv_get(old(self)@, k@) == Some(v@),
                None => kv_get(old(self)@, k@) is None,
            },
            old(self).wf() ==> final(self).wf(),
    {
        let ghost m0 = self@;
        match self.position(k) {
            Some(i) => {
                let (_, v) = self.entries.remove(i);
                proof {
                    lemma_kv_remove_at(m0, k@, i as int);
                    lemma_kv_get_at(m0, k@, i as int);
                    assert(self@ =~= m0.remove(i as int));
                    if kv_unique(m0) {
                        lemma_kv_remove_unique(m0, k@);
                    }
                }
                Some(v)
            },
            None => {
                proof {
                    lemma_kv_absent(m0, k@);
                    if kv_unique(m0) {
                        lemma_kv_remove_unique(m0, k@);
                    }
                }
                None
            },
        }
    }

    /// The value under `k`, if there is one.
    pub fn get(&self, k: &str) -> (r: Option<&String>)
        ensures
            match r {
                Some(v) => kv_get(self@, k@) == Some(v@),
                None => kv_get(self@, k@) is None,
            },
    {
        match self.position(k) {
            Some(i) => {
                proof {
                    lemma_kv_get_at(self@, k@, i as int);
                }
                Some(&self.entries[i].1)
            },
            None => {
                proof {
                    lemma_kv_absent(self@, k@);
                }
                None
            },
        }
    }

    /// Merges all entries of `other` into this map, in order, each write
    /// winning over an earlier one for the same key.
    pub fn merge_from(&mut self, other: &FieldMap)
        ensures
            final(self)@ == kv_merge(old(self)@, other@),
            old(self).wf() ==> final(self).wf(),
    {
        let ghost m0 = self@;
        let n = other.len();
        let mut i: usize = 0;
        while i < n
            invariant
                n == other@.len(),
                i <= n,
                self@ == kv_merge(m0, other@.subrange(0, i as int)),
                kv_unique(m0) ==> kv_unique(self@),
            decreases n - i,
        {
            let (k, v) = other.entry_at(i);
            self.insert(k.clone(), v.clone());
            proof {
                assert(other@.subrange(0, i + 1) =~= other@.subrange(0, i as int).push(
                    other@[i as int],
                ));
                lemma_kv_merge_push(m0, other@.subrange(0, i as int), other@[i as int]);
            }
            i += 1;
        }
        proof {
            assert(other@.subrange(0, n as int) =~= other@);
        }
    }

    /// A copy with the same entries in the same order.
    pub fn duplicate(&self) -> (m: FieldMap)
        ensures
            m@ == self@,
            m.wf() == self.wf(),
    {
        let n = self.entries.len();
        let mut out: Vec<(String, String)> = Vec::new();
        let mut i: usize = 0;
        while i < n
            invariant
                n == self.entries@.len(),
                i <= n,
                out@.len() == i,
                forall|j: int| 0 <= j < i ==> out@[j].0@ == self@[j].0 && out@[j].1@ == self@[j].1,
            decreases n - i,
        {
            let e = &self.entries[i];
            out.push((e.0.clone(), e.1.clone()));
            i += 1;
        }
        let m = FieldMap { entries: out };
        proof {
            assert(m@ =~= self@);
        }
        m
    }
}

/// Whether two string slices hold the same characters.
fn str_eq(a: &str, b: &str) -> (r: bool)
    ensures
        r == (a@ == b@),
{
    let a_len = a.unicode_len();
    let b_len = b.unicode_len();
    if a_len != b_len {
        return false;
    }
    let mut i: usize = 0;
    while i < a_len
        invariant
            a_len == a@.len(),
            a_len == b@.len(),
            i <= a_len,
            forall|j: int| 0 <= j < i ==> a@[j] == b@[j],
        decreases a_len - i,
    {
        if a.get_char(i) != b.get_char(i) {
            return false;
        }
        i += 1;
    }
    proof {
        assert(a@ =~= b@);
    }
    true
}

/// Merging one more update is one more write.
proof fn lemma_kv_merge_push(base: KvSeq, updates: KvSeq, e: (Seq<char>, Seq<char>))
    ensures
        kv_merge(base, updates.push(e)) == kv_insert(kv_merge(base, updates), e.0, e.1),
    decreases updates.len(),
{
    if updates.len() == 0 {
        assert(updates.push(e)[0] == e);
        assert(updates.push(e).drop_first() =~= Seq::<(Seq<char>, Seq<char>)>::empty());
        assert(kv_merge(base, updates.push(e)) == kv_merge(
            kv_insert(base, e.0, e.1),
            Seq::<(Seq<char>, Seq<char>)>::empty(),
        ));
    } else {
        assert(updates.push(e).drop_first() =~= updates.drop_first().push(e));
        lemma_kv_merge_push(kv_insert(base, updates[0].0, updates[0].1), updates.drop_first(), e);
    }
}

/// Writing at the position of the key replaces the entry in place.
proof fn lemma_kv_insert_at(m: KvSeq, k: Seq<char>, v: Seq<char>, i: int)
    requires
        0 <= i < m.len(),
        m[i].0 == k,
        forall|j: int| 0 <= j < i ==> m[j].0 != k,
    ensures
        kv_insert(m, k, v) == m.update(i, (k, v)),
    decreases m.len(),
{
    if i == 0 {
        assert(kv_insert(m, k, v) =~= m.update(0, (k, v)));
    } else {
        lemma_kv_insert_at(m.drop_first(), k, v, i - 1);
        assert(kv_insert(m, k, v) =~= m.update(i, (k, v)));
    }
}

/// Writing an absent key appends the entry at the back.
proof fn lemma_kv_insert_absent(m: KvSeq, k: Seq<char>, v: Seq<char>)
    requires
        forall|j: int| 0 <= j < m.len() ==> m[j].0 != k,
    ensures
        kv_insert(m, k, v) == m.push((k, v)),
    decreases m.len(),
{
    if m.len() == 0 {
        assert(kv_insert(m, k, v) =~= m.push((k, v)));
    } else {
        lemma_kv_insert_absent(m.drop_first(), k, v);
        assert(kv_insert(m, k, v) =~= m.push((k, v)));
    }
}

/// Writing keeps the keys pairwise distinct.
proof fn lemma_kv_insert_unique(m: KvSeq, k: Seq<char>, v: Seq<char>)
    requires
        kv_unique(m),
    ensures
        kv_unique(kv_insert(m, k, v)),
    decreases m.len(),
{
    if m.len() == 0 {
    } else if m[0].0 == k {
        assert forall|i: int, j: int| 0 <= i < j < kv_insert(m, k, v).len() implies kv_insert(
            m,
            k,
            v,
        )[i].0 != kv_insert(m, k, v)[j].0 by {
            assert(kv_insert(m, k, v)[i] == if i == 0 {
                (k, v)
            } else {
                m[i]
            });
            assert(kv_insert(m, k, v)[j] == m[j]);
        }
    } else {
        lemma_kv_insert_unique(m.drop_first(), k, v);
        let r = kv_insert(m, k, v);
        let rr = kv_insert(m.drop_first(), k, v);
        assert forall|i: int, j: int| 0 <= i < j < r.len() implies r[i].0 != r[j].0 by {
            assert(r[j] == rr[j - 1]);
            if i > 0 {
                assert(r[i] == rr[i - 1]);
            } else {
                lemma_kv_insert_keys(m.drop_first(), k, v, j - 1);
            }
        }
    }
}

/// Every key of the written map is the new key or one of the old keys.
proof fn lemma_kv_insert_keys(m: KvSeq, k: Seq<char>, v: Seq<char>, i: int)
    requires
        0 <= i < kv_insert(m, k, v).len(),
    ensures
        kv_insert(m, k, v)[i].0 == k || kv_contains_key_at(m, kv_insert(m, k, v)[i].0),
    decreases m.len(),
{
    if m.len() == 0 {
    } else if m[0].0 == k {
    } else {
        if i > 0 {
            lemma_kv_insert_keys(m.drop_first(), k, v, i - 1);
        }
    }
}

/// Whether `k` is the key of some entry, stated positionally.
pub open spec fn kv_contains_key_at(m: KvSeq, k: Seq<char>) -> bool {
    exists|i: int| 0 <= i < m.len() && m[i].0 == k
}

/// Removing at the position of the key drops exactly that entry.
proof fn lemma_kv_remove_at(m: KvSeq, k: Seq<char>, i: int)
    requires
        0 <= i < m.len(),
        m[i].0 == k,
        forall|j: int| 0 <= j < i ==> m[j].0 != k,
    ensures
        kv_remove(m, k) == m.remove(i),
    decreases m.len(),
{
    if i == 0 {
        assert(kv_remove(m, k) =~= m.remove(0));
    } else {
        lemma_kv_remove_at(m.drop_first(), k, i - 1);
        assert(kv_remove(m, k) =~= m.remove(i));
    }
}

/// The first entry under the key carries the looked-up value.
proof fn lemma_kv_get_at(m: KvSeq, k: Seq<char>, i: int)
    requires
        0 <= i < m.len(),
        m[i].0 == k,
        forall|j: int| 0 <= j < i ==> m[j].0 != k,
    ensures
        kv_get(m, k) == Some(m[i].1),
    decreases m.len(),
{
    if i > 0 {
        lemma_kv_get_at(m.drop_first(), k, i - 1);
    }
}

/// A key under which no entry stands looks up to nothing, and removing
/// it changes nothing.
proof fn lemma_kv_absent(m: KvSeq, k: Seq<char>)
    requires
        forall|j: int| 0 <= j < m.len() ==> m[j].0 != k,
    ensures
        kv_get(m, k) is None,
        kv_remove(m, k) == m,
    decreases m.len(),
{
    if m.len() > 0 {
        lemma_kv_absent(m.drop_first(), k);
        assert(kv_remove(m, k) =~= m);
    } else {
        assert(kv_remove(m, k) =~= m);
    }
}

/// Removing keeps the keys pairwise distinct.
proof fn lemma_kv_remove_unique(m: KvSeq, k: Seq<char>)
    requires
        kv_unique(m),
    ensures
        kv_unique(kv_remove(m, k)),
    decreases m.len(),
{
    if m.len() == 0 {
    } else if m[0].0 == k {
    } else {
        lemma_kv_remove_unique(m.drop_first(), k);
        let r = kv_remove(m, k);
        let rr = kv_remove(m.drop_first(), k);
        assert forall|i: int, j: int| 0 <= i < j < r.len() implies r[i].0 != r[j].0 by {
            assert(r[j] == rr[j - 1]);
            if i > 0 {
                assert(r[i] == rr[i - 1]);
            } else {
                lemma_kv_remove_keys(m.drop_first(), k, j - 1);
            }
        }
    }
}

/// Every key that survives a removal was a key before it.
proof fn lemma_kv_remove_keys(m: KvSeq, k: Seq<char>, i: int)
    requires
        0 <= i < kv_remove(m, k).len(),
    ensures
        kv_contains_key_at(m, kv_remove(m, k)[i].0),
    decreases m.len(),
{
    if m.len() == 0 {
    } else if m[0].0 == k {
        assert(kv_remove(m, k)[i] == m[i + 1]);
    } else {
        if i > 0 {
            lemma_kv_remove_keys(m.drop_first(), k, i - 1);
        }
    }
}

/// The visitor that collects recorded field values into a `FieldMap`.
pub struct EguiVisit {
    pub fields: FieldMap,
}

impl EguiVisit {
    /// A visitor with no fields recorded yet.
    pub fn new() -> (v: EguiVisit)
        ensures
            v.fields@ == Seq::<(Seq<char>, Seq<char>)>::empty(),
            v.fields.wf(),
    {
        EguiVisit { fields: FieldMap::new() }
    }

    /// Records one field value, the last write per key winning.
    pub fn add(&mut self, name: String, value: String)
        ensures
            final(self).fields@ == kv_insert(old(self).fields@, name@, value@),
            old(self).fields.wf() ==> final(self).fields.wf(),
    {
        self.fields.insert(name, value);
    }

    /// Hands the collected fields over.
    pub fn into_fields(self) -> (m: FieldMap)
        ensures
            m == self.fields,
    {
        self.fields
    }
}

} // verus!
