//! The span field table: for every live span, the fields it has
//! recorded so far. Entries are created on span creation, merged into
//! on attribute updates, snapshotted when an event fires, and removed
//! when the span closes, so the table never retains closed spans.

use vstd::prelude::*;
use crate::fields::{kv_merge, kv_unique, FieldMap, KvSeq};
use crate::record::{span_entries_view, SpanEntry};

verus! {

/// The table seen at the specification level: `(span id, fields)` pairs.
pub type SpanSeq = Seq<(u64, KvSeq)>;

/// The fields of the first entry for `id`, if any.
pub open spec fn st_get(t: SpanSeq, id: u64) -> Option<KvSeq>
    decreases t.len(),
{
    if t.len() == 0 {
        None
    } else if t[0].0 == id {
        Some(t[0].1)
    } else {
        st_get(t.drop_first(), id)
    }
}

/// `t` with `vs` merged into the entry for `id`, the entry being created
/// at the back when the id is new.
pub open spec fn st_record(t: SpanSeq, id: u64, vs: KvSeq) -> SpanSeq
    decreases t.len(),
{
    if t.len() == 0 {
        seq![(id, kv_merge(Seq::empty(), vs))]
    } else if t[0].0 == id {
        seq![(id, kv_merge(t[0].1, vs))] + t.drop_first()
    } else {
        seq![t[0]] + st_record(t.drop_first(), id, vs)
    }
}

/// `t` with every entry for `id` removed.
pub open spec fn st_remove(t: SpanSeq, id: u64) -> SpanSeq
    decreases t.len(),
{
    if t.len() == 0 {
        t
    } else if t[0].0 == id {
        st_remove(t.drop_first(), id)
    } else {
        seq![t[0]] + st_remove(t.drop_first(), id)
    }
}

/// No two entries of `t` share a span id.
pub open spec fn st_unique(t: SpanSeq) -> bool {
    forall|i: int, j: int| 0 <= i < j < t.len() ==> t[i].0 != t[j].0
}

/// One link of an ancestor chain handed to the collector: the span's
/// identity and its name.
#[derive(Debug, PartialEq)]
pub struct SpanRef {
    pub id: u64,
    pub name: String,
}

/// An ancestor chain seen at the specification level: `(id, name)` pairs
/// from root to leaf.
pub open spec fn chain_view(c: Seq<SpanRef>) -> Seq<(u64, Seq<char>)> {
    Seq::new(c.len(), |i: int| (c[i].id, c[i].name@))
}

/// The snapshot an event takes of an ancestor chain: for each chain link
/// whose span still stands in the table, its name paired with a copy of
/// its fields, in chain order; links whose lookup misses are skipped.
pub open spec fn spec_snapshot(chain: Seq<(u64, Seq<char>)>, t: SpanSeq) -> Seq<
    (Seq<char>, KvSeq),
>
    decreases chain.len(),
{
    if chain.len() == 0 {
        Seq::empty()
    } else {
        let rest = spec_snapshot(chain.drop_first(), t);
        match st_get(t, chain[0].0) {
            Some(m) => seq![(chain[0].1, m)] + rest,
            None => rest,
        }
    }
}

/// `chain` without the links that name the span `id`.
pub open spec fn chain_drop(chain: Seq<(u64, Seq<char>)>, id: u64) -> Seq<(u64, Seq<char>)>
    decreases chain.len(),
{
    if chain.len() == 0 {
        chain
    } else if chain[0].0 == id {
        chain_drop(chain.drop_first(), id)
    } else {
        seq![chain[0]] + chain_drop(chain.drop_first(), id)
    }
}

/// The span field table.
pub struct SpanTable {
    entries: Vec<(u64, FieldMap)>,
}

impl View for SpanTable {
    type V = SpanSeq;

    closed spec fn view(&self) -> SpanSeq {
        Seq::new(self.entries@.len(), |i: int| (self.entries@[i].0, self.entries@[i].1@))
    }
}

impl SpanTable {
    /// The span ids of the table are pairwise distinct.
    pub open spec fn wf(self) -> bool {
        st_unique(self@)
    }

    /// An empty table.
    pub fn new() -> (t: SpanTable)
        ensures
            t@ == Seq::<(u64, KvSeq)>::empty(),
            t.wf(),
    {
        let t = SpanTable { entries: Vec::new() };
        proof {
            assert(t@ =~= Seq::<(u64, KvSeq)>::empty());
        }
        t
    }

    /// The position of the first entry for `id`, if any.
    fn position(&self, id: u64) -> (r: Option<usize>)
        ensures
            match r {
                Some(i) => i < self@.len() && self@[i as int].0 == id && forall|j: int|
                    0 <= j < i ==> self@[j].0 != id,
                None => forall|j: int| 0 <= j < self@.len() ==> self@[j].0 != id,
            },
    {
        let n = self.entries.len();
        let mut i: usize = 0;
        while i < n
            invariant
                n == self@.len(),
                i <= n,
                forall|j: int| 0 <= j < i ==> self@[j].0 != id,
            decreases n - i,
        {
            if self.entries[i].0 == id {
                return Some(i);
            }
            i += 1;
        }
        None
    }

    /// Merges the recorded values into the span's entry, creating the
    /// entry first when the span is new.
    pub fn record(&mut self, id: u64, values: &FieldMap)
        ensures
            final(self)@ == st_record(old(self)@, id, values@),
            old(self).wf() ==> final(self).wf(),
    {
        let ghost t0 = self@;
        match self.position(id) {
            Some(i) => {
                let ghost base = self@[i as int].1;
                let entry = vstd::std_specs::vec::vec_index_mut(&mut self.entries, i);
                entry.1.merge_from(values);
                proof {
                    lemma_st_record_at(t0, id, values@, i as int);
                    assert(self@ =~= t0.update(i as int, (id, kv_merge(base, values@))));
                }
            },
            None => {
                let mut m = FieldMap::new();
                m.merge_from(values);
                self.entries.push((id, m));
                proof {
                    lemma_st_record_absent(t0, id, values@);
                    assert(self@ =~= t0.push((id, kv_merge(Seq::empty(), values@))));
                }
            },
        }
        proof {
            if st_unique(t0) {
                lemma_st_record_unique(t0, id, values@);
            }
        }
    }

    /// The fields of the span `id`, if it still stands in the table.
    pub fn get(&self, id: u64) -> (r: Option<&FieldMap>)
        ensures
            match r {
                Some(m) => st_get(self@, id) == Some(m@),
                None => st_get(self@, id) is None,
            },
    {
        match self.position(id) {
            Some(i) => {
                proof {
                    lemma_st_get_at(self@, id, i as int);
                }
                Some(&self.entries[i].1)
            },
            None => {
                proof {
                    lemma_st_absent(self@, id);
                }
                None
            },
        }
    }

    /// Removes every entry for `id`; afterwards a lookup of `id` misses.
    pub fn close(&mut self, id: u64)
        ensures
            final(self)@ == st_remove(old(self)@, id),
            st_get(final(self)@, id) is None,
            old(self).wf() ==> final(self).wf(),
    {
        let ghost t0 = self@;
        let mut i = self.entries.len();
        while i > 0
            invariant
                i <= t0.len(),
                i <= self@.len(),
                self@ =~= t0.subrange(0, i as int) + st_remove(t0.skip(i as int), id),
            decreases i,
        {
            i -= 1;
            let ghost pre = self@;
            proof {
                assert(t0.skip(i as int).drop_first() =~= t0.skip(i + 1));
                assert(t0.skip(i as int)[0] == t0[i as int]);
                assert(pre[i as int] == t0[i as int]);
            }
            if self.entries[i].0 == id {
                self.entries.remove(i);
                proof {
                    assert(self@ =~= pre.remove(i as int));
                    assert(st_remove(t0.skip(i as int), id) == st_remove(t0.skip(i + 1), id));
                    assert(self@ =~= t0.subrange(0, i as int) + st_remove(t0.skip(i as int), id));
                }
            } else {
                proof {
                    assert(t0.subrange(0, i + 1) =~= t0.subrange(0, i as int).push(t0[i as int]));
                    assert(st_remove(t0.skip(i as int), id) == seq![t0[i as int]] + st_remove(
                        t0.skip(i + 1),
                        id,
                    ));
                    assert(self@ =~= t0.subrange(0, i as int) + st_remove(t0.skip(i as int), id));
                }
            }
        }
        proof {
            assert(t0.skip(0) =~= t0);
            assert(self@ =~= st_remove(t0, id));
            lemma_st_remove_misses(t0, id);
            if st_unique(t0) {
                lemma_st_remove_unique(t0, id);
            }
        }
    }

    /// Snapshots the ancestor chain: for each link whose span is still
    /// live, its name and a copy of its fields, in chain order.
    pub fn snapshot(&self, chain: &Vec<SpanRef>) -> (out: Vec<SpanEntry>)
        ensures
            span_entries_view(out@) == spec_snapshot(chain_view(chain@), self@),
    {
        let n = chain.len();
        let mut out: Vec<SpanEntry> = Vec::new();
        let mut i: usize = 0;
        while i < n
            invariant
                n == chain@.len(),
                i <= n,
                span_entries_view(out@) =~= spec_snapshot(
                    chain_view(chain@).subrange(0, i as int),
                    self@,
                ),
            decreases n - i,
        {
            let link = &chain[i];
            let ghost pre = chain_view(chain@).subrange(0, i as int);
            match self.get(link.id) {
                Some(m) => {
                    out.push(SpanEntry { name: link.name.clone(), fields: m.duplicate() });
                },
                None => {},
            }
            proof {
                assert(chain_view(chain@).subrange(0, i + 1) =~= pre.push(
                    chain_view(chain@)[i as int],
                ));
                lemma_snapshot_push(pre, chain_view(chain@)[i as int], self@);
                assert(span_entries_view(out@) =~= spec_snapshot(
                    chain_view(chain@).subrange(0, i + 1),
                    self@,
                ));
            }
            i += 1;
        }
        proof {
            assert(chain_view(chain@).subrange(0, n as int) =~= chain_view(chain@));
        }
        out
    }
}

/// The first entry under the id carries the looked-up fields.
proof fn lemma_st_get_at(t: SpanSeq, id: u64, i: int)
    requires
        0 <= i < t.len(),
        t[i].0 == id,
        forall|j: int| 0 <= j < i ==> t[j].0 != id,
    ensures
        st_get(t, id) == Some(t[i].1),
    decreases t.len(),
{
    if i > 0 {
        lemma_st_get_at(t.drop_first(), id, i - 1);
    }
}

/// An id under which no entry stands looks up to nothing.
proof fn lemma_st_absent(t: SpanSeq, id: u64)
    requires
        forall|j: int| 0 <= j < t.len() ==> t[j].0 != id,
    ensures
        st_get(t, id) is None,
    decreases t.len(),
{
    if t.len() > 0 {
        lemma_st_absent(t.drop_first(), id);
    }
}

/// Recording at the position of the id merges into that entry in place.
proof fn lemma_st_record_at(t: SpanSeq, id: u64, vs: KvSeq, i: int)
    requires
        0 <= i < t.len(),
        t[i].0 == id,
        forall|j: int| 0 <= j < i ==> t[j].0 != id,
    ensures
        st_record(t, id, vs) == t.update(i, (id, kv_merge(t[i].1, vs))),
    decreases t.len(),
{
    if i == 0 {
        assert(st_record(t, id, vs) =~= t.update(0, (id, kv_merge(t[0].1, vs))));
    } else {
        lemma_st_record_at(t.drop_first(), id, vs, i - 1);
        assert(st_record(t, id, vs) =~= t.update(i, (id, kv_merge(t[i].1, vs))));
    }
}

/// Recording a new id appends its entry at the back.
proof fn lemma_st_record_absent(t: SpanSeq, id: u64, vs: KvSeq)
    requires
        forall|j: int| 0 <= j < t.len() ==> t[j].0 != id,
    ensures
        st_record(t, id, vs) == t.push((id, kv_merge(Seq::empty(), vs))),
    decreases t.len(),
{
    if t.len() == 0 {
        assert(st_record(t, id, vs) =~= t.push((id, kv_merge(Seq::empty(), vs))));
    } else {
        lemma_st_record_absent(t.drop_first(), id, vs);
        assert(st_record(t, id, vs) =~= t.push((id, kv_merge(Seq::empty(), vs))));
    }
}

/// Recording keeps the span ids pairwise distinct.
proof fn lemma_st_record_unique(t: SpanSeq, id: u64, vs: KvSeq)
    requires
        st_unique(t),
    ensures
        st_unique(st_record(t, id, vs)),
    decreases t.len(),
{
    if t.len() == 0 {
    } else if t[0].0 == id {
        let r = st_record(t, id, vs);
        assert forall|i: int, j: int| 0 <= i < j < r.len() implies r[i].0 != r[j].0 by {
            assert(r[j] == t[j]);
            if i > 0 {
                assert(r[i] == t[i]);
            } else {
                assert(r[0].0 == t[0].0);
            }
        }
    } else {
        lemma_st_record_unique(t.drop_first(), id, vs);
        let r = st_record(t, id, vs);
        let rr = st_record(t.drop_first(), id, vs);
        assert forall|i: int, j: int| 0 <= i < j < r.len() implies r[i].0 != r[j].0 by {
            assert(r[j] == rr[j - 1]);
            if i > 0 {
                assert(r[i] == rr[i - 1]);
            } else {
                lemma_st_record_ids(t.drop_first(), id, vs, j - 1);
            }
        }
    }
}

/// Every id of the recorded table is the recorded id or one of the old ids.
proof fn lemma_st_record_ids(t: SpanSeq, id: u64, vs: KvSeq, i: int)
    requires
        0 <= i < st_record(t, id, vs).len(),
    ensures
        st_record(t, id, vs)[i].0 == id || exists|j: int|
            0 <= j < t.len() && t[j].0 == st_record(t, id, vs)[i].0,
    decreases t.len(),
{
    if t.len() == 0 {
    } else if t[0].0 == id {
        if i > 0 {
            assert(st_record(t, id, vs)[i] == t[i]);
        }
    } else {
        if i > 0 {
            lemma_st_record_ids(t.drop_first(), id, vs, i - 1);
            if st_record(t, id, vs)[i].0 != id {
                let j = choose|j: int|
                    0 <= j < t.drop_first().len() && t.drop_first()[j].0 == st_record(
                        t,
                        id,
                        vs,
                    )[i].0;
                assert(t[j + 1].0 == st_record(t, id, vs)[i].0);
            }
        }
    }
}

/// After removal the id looks up to nothing.
pub proof fn lemma_st_remove_misses(t: SpanSeq, id: u64)
    ensures
        st_get(st_remove(t, id), id) is None,
    decreases t.len(),
{
    if t.len() > 0 {
        lemma_st_remove_misses(t.drop_first(), id);
        if t[0].0 != id {
            assert(st_remove(t, id).drop_first() =~= st_remove(t.drop_first(), id));
        }
    }
}

/// Removal keeps lookups of every other id unchanged.
pub proof fn lemma_st_remove_other(t: SpanSeq, id: u64, other: u64)
    requires
        other != id,
    ensures
        st_get(st_remove(t, id), other) == st_get(t, other),
    decreases t.len(),
{
    if t.len() > 0 {
        lemma_st_remove_other(t.drop_first(), id, other);
        if t[0].0 != id {
            assert(st_remove(t, id).drop_first() =~= st_remove(t.drop_first(), id));
        }
    }
}

/// Removing keeps the span ids pairwise distinct.
proof fn lemma_st_remove_unique(t: SpanSeq, id: u64)
    requires
        st_unique(t),
    ensures
        st_unique(st_remove(t, id)),
    decreases t.len(),
{
    if t.len() == 0 {
    } else if t[0].0 == id {
        lemma_st_remove_unique(t.drop_first(), id);
    } else {
        lemma_st_remove_unique(t.drop_first(), id);
        let r = st_remove(t, id);
        let rr = st_remove(t.drop_first(), id);
        assert forall|i: int, j: int| 0 <= i < j < r.len() implies r[i].0 != r[j].0 by {
            assert(r[j] == rr[j - 1]);
            if i > 0 {
                assert(r[i] == rr[i - 1]);
            } else {
                lemma_st_remove_ids(t.drop_first(), id, j - 1);
            }
        }
    }
}

/// Every id that survives a removal was an id before it.
proof fn lemma_st_remove_ids(t: SpanSeq, id: u64, i: int)
    requires
        0 <= i < st_remove(t, id).len(),
    ensures
        exists|j: int| 0 <= j < t.len() && t[j].0 == st_remove(t, id)[i].0,
    decreases t.len(),
{
    if t.len() == 0 {
    } else if t[0].0 == id {
        lemma_st_remove_ids(t.drop_first(), id, i);
        let j = choose|j: int|
            0 <= j < t.drop_first().len() && t.drop_first()[j].0 == st_remove(t, id)[i].0;
        assert(t[j + 1].0 == st_remove(t, id)[i].0);
    } else {
        if i > 0 {
            lemma_st_remove_ids(t.drop_first(), id, i - 1);
            let j = choose|j: int|
                0 <= j < t.drop_first().len() && t.drop_first()[j].0 == st_remove(
                    t,
                    id,
                )[i].0;
            assert(t[j + 1].0 == st_remove(t, id)[i].0);
        }
    }
}

/// One more chain link snapshots to one more entry, when its span is live.
proof fn lemma_snapshot_push(chain: Seq<(u64, Seq<char>)>, link: (u64, Seq<char>), t: SpanSeq)
    ensures
        spec_snapshot(chain.push(link), t) == match st_get(t, link.0) {
            Some(m) => spec_snapshot(chain, t).push((link.1, m)),
            None => spec_snapshot(chain, t),
        },
    decreases chain.len(),
{
    if chain.len() == 0 {
        assert(chain.push(link).drop_first() =~= chain);
        match st_get(t, link.0) {
            Some(m) => {
                assert(spec_snapshot(chain.push(link), t) =~= spec_snapshot(chain, t).push(
                    (link.1, m),
                ));
            },
            None => {},
        }
    } else {
        assert(chain.push(link).drop_first() =~= chain.drop_first().push(link));
        lemma_snapshot_push(chain.drop_first(), link, t);
        match st_get(t, link.0) {
            Some(m) => {
                assert(spec_snapshot(chain.push(link), t) =~= spec_snapshot(chain, t).push(
                    (link.1, m),
                ));
            },
            None => {},
        }
    }
}

/// Closing a span starves later snapshots of it: over the table without
/// the span, a chain that still names the closed span snapshots exactly
/// as the chain with those links dropped, so none of the closed span's
/// fields appear.
pub proof fn lemma_snapshot_skips_closed(chain: Seq<(u64, Seq<char>)>, t: SpanSeq, id: u64)
    ensures
        spec_snapshot(chain, st_remove(t, id)) == spec_snapshot(
            chain_drop(chain, id),
            st_remove(t, id),
        ),
    decreases chain.len(),
{
    if chain.len() > 0 {
        lemma_snapshot_skips_closed(chain.drop_first(), t, id);
        if chain[0].0 == id {
            lemma_st_remove_misses(t, id);
        } else {
            assert(chain_drop(chain, id).drop_first() =~= chain_drop(chain.drop_first(), id));
            assert(chain_drop(chain, id)[0] == chain[0]);
        }
    }
}

} // verus!
