//! The display side of the pipeline: a fixed-capacity ring of the most
//! recent records, refilled from the delivery channel once per frame,
//! and read through conjunctive filters at render time.

use vstd::prelude::*;
use vstd::string::StringExecFns;
use crate::channel::{chan_capacity, chan_contents, chan_wf, last_n, DeliveryChannel};
use crate::collector::Collector;
use crate::fields::{FieldMap, KvSeq};
use crate::level::{severity, spec_worst, Level};
use crate::record::{span_entries_view, LogRecord, SpanEntry};
use crate::text::{contains_seq, contains_str};

verus! {

/// The user-facing column labels of the log panel, all free text.
#[derive(Debug, Clone, PartialEq)]
pub struct DisplayInfo {
    pub filter: String,
    pub level: String,
    pub time: String,
    pub span_data: String,
    pub data: String,
    pub message: String,
}

impl Default for DisplayInfo {
    /// The English labels the panel starts out with.
    fn default() -> (d: DisplayInfo)
        ensures
            d.filter@ == "Filter"@,
            d.level@ == "Level"@,
            d.time@ == "Time"@,
            d.span_data@ == "Span Data"@,
            d.data@ == "Data"@,
            d.message@ == "Message"@,
    {
        DisplayInfo {
            filter: String::from_str("Filter"),
            level: String::from_str("Level"),
            time: String::from_str("Time"),
            span_data: String::from_str("Span Data"),
            data: String::from_str("Data"),
            message: String::from_str("Message"),
        }
    }
}

/// The ring after one drain of `drained` records into a ring of
/// capacity `cap` that held `old_ring`: nothing changes when nothing
/// was drained; a drain of at least `cap` records replaces the ring
/// with the last `cap` of them; otherwise just enough of the oldest
/// retained records leave to make room, and the drained records are
/// appended, order preserved throughout.
pub open spec fn ring_after(old_ring: Seq<LogRecord>, drained: Seq<LogRecord>, cap: nat) -> Seq<
    LogRecord,
> {
    if drained.len() == 0 {
        old_ring
    } else if drained.len() >= cap {
        last_n(drained, cap)
    } else if old_ring.len() + drained.len() > cap {
        old_ring.skip(old_ring.len() + drained.len() - cap) + drained
    } else {
        old_ring + drained
    }
}

/// Whatever sizes the drains come in, a ring within its capacity stays
/// within its capacity.
pub proof fn lemma_ring_capacity(old_ring: Seq<LogRecord>, drained: Seq<LogRecord>, cap: nat)
    requires
        old_ring.len() <= cap,
    ensures
        ring_after(old_ring, drained, cap).len() <= cap,
{
}

/// A drain of at least the capacity replaces the ring with exactly the
/// last `cap` drained records, in their original order.
pub proof fn lemma_full_drain_replaces(old_ring: Seq<LogRecord>, drained: Seq<LogRecord>, cap: nat)
    requires
        1 <= cap,
        drained.len() >= cap,
    ensures
        ring_after(old_ring, drained, cap) == drained.subrange(
            drained.len() - cap,
            drained.len() as int,
        ),
{
    if drained.len() == cap {
        assert(ring_after(old_ring, drained, cap) =~= drained.subrange(
            drained.len() - cap,
            drained.len() as int,
        ));
    }
}

/// A drain smaller than the capacity into a full ring rotates: the
/// oldest `n` retained records leave, the `n` drained records append,
/// order preserved on both sides.
pub proof fn lemma_partial_drain_rotates(
    old_ring: Seq<LogRecord>,
    drained: Seq<LogRecord>,
    cap: nat,
)
    requires
        old_ring.len() == cap,
        0 < drained.len() < cap,
    ensures
        ring_after(old_ring, drained, cap) == old_ring.skip(drained.len() as int) + drained,
{
}

/// The most severe level among the records, oldest to newest; nothing
/// when there are none.
pub open spec fn worst_of(recs: Seq<LogRecord>) -> Option<Level>
    decreases recs.len(),
{
    if recs.len() == 0 {
        None
    } else {
        match worst_of(recs.drop_last()) {
            None => Some(recs.last().level),
            Some(w) => Some(spec_worst(w, recs.last().level)),
        }
    }
}

/// A record's level passes the threshold when no threshold is set or
/// its severity is at or above it.
pub open spec fn spec_level_pass(l: Level, threshold: Option<Level>) -> bool {
    match threshold {
        Option::None => true,
        Option::Some(t) => severity(l) >= severity(t),
    }
}

/// Some key or value of the mapping contains the needle.
pub open spec fn kv_matches(m: KvSeq, needle: Seq<char>) -> bool {
    exists|i: int|
        0 <= i < m.len() && (contains_seq(m[i].0, needle) || contains_seq(m[i].1, needle))
}

/// The span filter passes when it is empty or some span's name, field
/// key or field value contains the needle.
pub open spec fn spec_span_pass(spans: Seq<(Seq<char>, KvSeq)>, needle: Seq<char>) -> bool {
    needle.len() == 0 || exists|i: int|
        0 <= i < spans.len() && (contains_seq(spans[i].0, needle) || kv_matches(
            spans[i].1,
            needle,
        ))
}

/// The data filter passes when it is empty or some field key or value
/// contains the needle.
pub open spec fn spec_data_pass(data: KvSeq, needle: Seq<char>) -> bool {
    needle.len() == 0 || kv_matches(data, needle)
}

/// The message filter passes when it is empty or the message contains
/// the needle.
pub open spec fn spec_msg_pass(msg: Seq<char>, needle: Seq<char>) -> bool {
    needle.len() == 0 || contains_seq(msg, needle)
}

/// A record is visible exactly when all four filters pass: the level
/// threshold, the span filter, the data filter and the message filter.
pub open spec fn spec_visible(
    rec: LogRecord,
    threshold: Option<Level>,
    span_needle: Seq<char>,
    data_needle: Seq<char>,
    msg_needle: Seq<char>,
) -> bool {
    &&& spec_level_pass(rec.level, threshold)
    &&& spec_span_pass(span_entries_view(rec.span_data@), span_needle)
    &&& spec_data_pass(rec.data@, data_needle)
    &&& spec_msg_pass(rec.message@, msg_needle)
}

/// Filtering is conjunctive: a record whose level passes the threshold
/// but whose message fails the message filter is not visible.
pub proof fn lemma_filters_conjunctive(
    rec: LogRecord,
    threshold: Option<Level>,
    span_needle: Seq<char>,
    data_needle: Seq<char>,
    msg_needle: Seq<char>,
)
    requires
        spec_level_pass(rec.level, threshold),
        !spec_msg_pass(rec.message@, msg_needle),
    ensures
        !spec_visible(rec, threshold, span_needle, data_needle, msg_needle),
{
}

/// Clearing all filters reveals every retained record.
pub proof fn lemma_no_filters_shows_all(rec: LogRecord)
    ensures
        spec_visible(
            rec,
            Option::None,
            Seq::<char>::empty(),
            Seq::<char>::empty(),
            Seq::<char>::empty(),
        ),
{
}

/// Whether some key or value of the mapping contains the needle.
fn map_matches(m: &FieldMap, needle: &str) -> (b: bool)
    ensures
        b == kv_matches(m@, needle@),
{
    let n = m.len();
    let mut i: usize = 0;
    while i < n
        invariant
            n == m@.len(),
            i <= n,
            forall|j: int|
                0 <= j < i ==> !contains_seq(m@[j].0, needle@) && !contains_seq(
                    m@[j].1,
                    needle@,
                ),
        decreases n - i,
    {
        let (k, v) = m.entry_at(i);
        if contains_str(k.as_str(), needle) || contains_str(v.as_str(), needle) {
            return true;
        }
        i += 1;
    }
    false
}

/// Whether some span snapshot of the record matches the needle by
/// name, field key or field value.
fn spans_match(spans: &Vec<SpanEntry>, needle: &str) -> (b: bool)
    ensures
        b == (exists|i: int|
            0 <= i < spans@.len() && (contains_seq(spans@[i].name@, needle@) || kv_matches(
                spans@[i].fields@,
                needle@,
            ))),
{
    let n = spans.len();
    let mut i: usize = 0;
    while i < n
        invariant
            n == spans@.len(),
            i <= n,
            forall|j: int|
                0 <= j < i ==> !contains_seq(spans@[j].name@, needle@) && !kv_matches(
                    spans@[j].fields@,
                    needle@,
                ),
        decreases n - i,
    {
        let entry = &spans[i];
        if contains_str(entry.name.as_str(), needle) || map_matches(&entry.fields, needle) {
            return true;
        }
        proof {
            assert(!contains_seq(spans@[i as int].name@, needle@));
            assert(!kv_matches(spans@[i as int].fields@, needle@));
        }
        i += 1;
    }
    false
}

/// The log panel's display store: the retained ring of records, the
/// four filter fields, and the column labels.
pub struct EguiLog {
    pub max_size: usize,
    pub log_list: Vec<LogRecord>,
    pub filter_level: Option<Level>,
    pub filter_span_data: String,
    pub filter_data: String,
    pub filter_message: String,
    pub display_info: DisplayInfo,
}

impl EguiLog {
    /// The configured capacity of the ring.
    pub open spec fn spec_max(&self) -> usize {
        self.max_size
    }

    /// The retained records, oldest first.
    pub open spec fn ring(&self) -> Seq<LogRecord> {
        self.log_list@
    }

    /// The ring never outgrows its capacity, which is at least one.
    pub open spec fn wf(self) -> bool {
        1 <= self.spec_max() && self.ring().len() <= self.spec_max()
    }

    /// Whether a record passes all four filters as currently set.
    pub open spec fn spec_shows(self, rec: LogRecord) -> bool {
        spec_visible(
            rec,
            self.filter_level,
            self.filter_span_data@,
            self.filter_data@,
            self.filter_message@,
        )
    }

    /// An empty store of capacity `max_size`, with no filters set and
    /// the default column labels.
    pub fn new(max_size: usize) -> (s: EguiLog)
        requires
            1 <= max_size,
        ensures
            s.wf(),
            s.spec_max() == max_size,
            s.ring() == Seq::<LogRecord>::empty(),
            s.filter_level is None,
            s.filter_span_data@ == Seq::<char>::empty(),
            s.filter_data@ == Seq::<char>::empty(),
            s.filter_message@ == Seq::<char>::empty(),
            s.display_info.filter@ == "Filter"@,
            s.display_info.message@ == "Message"@,
    {
        EguiLog {
            max_size,
            log_list: Vec::new(),
            filter_level: None,
            filter_span_data: String::new(),
            filter_data: String::new(),
            filter_message: String::new(),
            display_info: Default::default(),
        }
    }

    /// The configured capacity of the ring.
    pub fn capacity(&self) -> (n: usize)
        ensures
            n == self.spec_max(),
    {
        self.max_size
    }

    /// How many records the ring holds.
    pub fn len(&self) -> (n: usize)
        ensures
            n == self.ring().len(),
    {
        self.log_list.len()
    }

    /// The retained record at position `i`, oldest first.
    pub fn record_at(&self, i: usize) -> (r: &LogRecord)
        requires
            i < self.ring().len(),
        ensures
            *r == self.ring()[i as int],
    {
        &self.log_list[i]
    }

    /// Drains the channel into the ring and reports the most severe
    /// level among the drained records.
    ///
    /// As many pending records are pulled as are available, capped at
    /// the ring's capacity. A drain of a full capacity replaces the
    /// ring with exactly those records; a smaller drain rotates out
    /// just enough of the oldest retained records to make room and
    /// appends, order preserved. The ring never outgrows its capacity.
    pub fn update(&mut self, chan: &mut DeliveryChannel) -> (worst: Option<Level>)
        requires
            old(self).wf(),
            chan_wf(*old(chan)),
        ensures
            final(self).wf(),
            chan_wf(*final(chan)),
            chan_capacity(*final(chan)) == chan_capacity(*old(chan)),
            final(self).spec_max() == old(self).spec_max(),
            final(self).filter_level == old(self).filter_level,
            final(self).filter_span_data == old(self).filter_span_data,
            final(self).filter_data == old(self).filter_data,
            final(self).filter_message == old(self).filter_message,
            final(self).display_info == old(self).display_info,
            ({
                let pending = chan_contents(*old(chan));
                let n = if pending.len() <= old(self).spec_max() {
                    pending.len() as int
                } else {
                    old(self).spec_max() as int
                };
                let drained = pending.subrange(0, n);
                &&& chan_contents(*final(chan)) == pending.skip(n)
                &&& final(self).ring() == ring_after(
                    old(self).ring(),
                    drained,
                    old(self).spec_max() as nat,
                )
                &&& worst == worst_of(drained)
            }),
    {
        let ghost pending = chan_contents(*chan);
        let ghost cap = self.max_size as nat;
        let ghost ring0 = self.log_list@;
        let pending_now = chan.pending();
        let n = if pending_now < self.max_size {
            pending_now
        } else {
            self.max_size
        };
        let ghost drained = pending.subrange(0, n as int);
        if n == 0 {
            proof {
                assert(chan_contents(*chan) =~= pending.skip(0));
                assert(ring_after(ring0, drained, cap) == ring0);
            }
            return None;
        }
        if n >= self.max_size {
            self.log_list.clear();
        } else if n > self.max_size - self.log_list.len() {
            let k = n - (self.max_size - self.log_list.len());
            let mut j: usize = 0;
            while j < k
                invariant
                    j <= k,
                    k <= ring0.len(),
                    self.log_list@ =~= ring0.skip(j as int),
                    self.max_size == old(self).spec_max(),
                    self.filter_level == old(self).filter_level,
                    self.filter_span_data == old(self).filter_span_data,
                    self.filter_data == old(self).filter_data,
                    self.filter_message == old(self).filter_message,
                    self.display_info == old(self).display_info,
                decreases k - j,
            {
                self.log_list.remove(0);
                proof {
                    assert(ring0.skip(j as int).drop_first() =~= ring0.skip(j + 1));
                }
                j += 1;
            }
        }
        let ghost base = self.log_list@;
        let mut worst: Option<Level> = None;
        let mut i: usize = 0;
        while i < n
            invariant
                i <= n,
                n <= pending.len(),
                chan_contents(*chan) =~= pending.skip(i as int),
                chan_capacity(*chan) == chan_capacity(*old(chan)),
                self.log_list@ =~= base + pending.subrange(0, i as int),
                worst == worst_of(pending.subrange(0, i as int)),
                self.max_size == old(self).spec_max(),
                self.filter_level == old(self).filter_level,
                self.filter_span_data == old(self).filter_span_data,
                self.filter_data == old(self).filter_data,
                self.filter_message == old(self).filter_message,
                self.display_info == old(self).display_info,
            decreases n - i,
        {
            proof {
                assert(pending.skip(i as int)[0] == pending[i as int]);
                assert(pending.skip(i as int).drop_first() =~= pending.skip(i + 1));
            }
            let rec = chan.try_recv().unwrap();
            worst = Some(
                match worst {
                    None => rec.level,
                    Some(w) => crate::level::worst(w, rec.level),
                },
            );
            self.log_list.push(rec);
            proof {
                assert(pending.subrange(0, i + 1) =~= pending.subrange(0, i as int).push(
                    pending[i as int],
                ));
                assert(pending.subrange(0, i + 1).drop_last() =~= pending.subrange(0, i as int));
            }
            i += 1;
        }
        proof {
            assert(self.log_list@ =~= base + drained);
            if n as int >= cap {
                assert(base =~= Seq::<LogRecord>::empty());
                assert(drained.len() == cap);
                assert(last_n(drained, cap) == drained);
                assert(self.log_list@ =~= ring_after(ring0, drained, cap));
            } else if ring0.len() + drained.len() > cap {
                assert(base =~= ring0.skip(ring0.len() + drained.len() - cap));
                assert(self.log_list@ =~= ring_after(ring0, drained, cap));
            } else {
                assert(base =~= ring0);
                assert(self.log_list@ =~= ring_after(ring0, drained, cap));
            }
        }
        worst
    }

    /// Whether `rec` passes all four filters as currently set.
    pub fn record_visible(&self, rec: &LogRecord) -> (b: bool)
        ensures
            b == self.spec_shows(*rec),
    {
        let level_ok = match &self.filter_level {
            None => true,
            Some(t) => rec.level.at_least(t),
        };
        if !level_ok {
            return false;
        }
        let span_ok = self.filter_span_data.as_str().is_empty() || spans_match(
            &rec.span_data,
            self.filter_span_data.as_str(),
        );
        if !span_ok {
            proof {
                lemma_span_entries_match(rec.span_data@, self.filter_span_data@);
            }
            return false;
        }
        let data_ok = self.filter_data.as_str().is_empty() || map_matches(
            &rec.data,
            self.filter_data.as_str(),
        );
        if !data_ok {
            return false;
        }
        let msg_ok = self.filter_message.as_str().is_empty() || contains_str(
            rec.message.as_str(),
            self.filter_message.as_str(),
        );
        proof {
            lemma_span_entries_match(rec.span_data@, self.filter_span_data@);
        }
        msg_ok
    }

    /// The positions of the visible records, oldest first: every listed
    /// position is visible, in strictly increasing order, and every
    /// visible position is listed.
    pub fn visible_indices(&self) -> (idxs: Vec<usize>)
        ensures
            forall|k: int|
                0 <= k < idxs@.len() ==> idxs@[k] < self.ring().len() && self.spec_shows(
                    self.ring()[idxs@[k] as int],
                ),
            forall|k1: int, k2: int| 0 <= k1 < k2 < idxs@.len() ==> idxs@[k1] < idxs@[k2],
            forall|i: int|
                0 <= i < self.ring().len() && self.spec_shows(#[trigger] self.ring()[i])
                    ==> exists|k: int| 0 <= k < idxs@.len() && idxs@[k] == i,
    {
        let n = self.log_list.len();
        let mut idxs: Vec<usize> = Vec::new();
        let mut i: usize = 0;
        while i < n
            invariant
                n == self.ring().len(),
                i <= n,
                forall|k: int|
                    0 <= k < idxs@.len() ==> idxs@[k] < i && self.spec_shows(
                        self.ring()[idxs@[k] as int],
                    ),
                forall|k1: int, k2: int| 0 <= k1 < k2 < idxs@.len() ==> idxs@[k1] < idxs@[k2],
                forall|j: int|
                    0 <= j < i && self.spec_shows(#[trigger] self.ring()[j]) ==> exists|k: int|
                        0 <= k < idxs@.len() && idxs@[k] == j,
            decreases n - i,
        {
            let ghost prev = idxs@;
            if self.record_visible(&self.log_list[i]) {
                idxs.push(i);
                proof {
                    assert(forall|k: int| 0 <= k < prev.len() ==> idxs@[k] == prev[k]);
                    assert(idxs@[prev.len() as int] == i);
                    assert forall|j: int|
                        0 <= j < i + 1 && self.spec_shows(#[trigger] self.ring()[j])
                        implies exists|k: int| 0 <= k < idxs@.len() && idxs@[k] == j by {
                        if j < i {
                            let k = choose|k: int| 0 <= k < prev.len() && prev[k] == j;
                            assert(idxs@[k] == j);
                        } else {
                            assert(idxs@[prev.len() as int] == j);
                        }
                    }
                }
            } else {
                proof {
                    assert forall|j: int|
                        0 <= j < i + 1 && self.spec_shows(#[trigger] self.ring()[j])
                        implies exists|k: int| 0 <= k < idxs@.len() && idxs@[k] == j by {
                        if j < i {
                            let k = choose|k: int| 0 <= k < prev.len() && prev[k] == j;
                            assert(idxs@[k] == j);
                        }
                    }
                }
            }
            i += 1;
        }
        idxs
    }
}

/// The span filter over the record's own entries coincides with the
/// filter over their specification-level view.
proof fn lemma_span_entries_match(spans: Seq<SpanEntry>, needle: Seq<char>)
    ensures
        (exists|i: int|
            0 <= i < spans.len() && (contains_seq(spans[i].name@, needle) || kv_matches(
                spans[i].fields@,
                needle,
            ))) == (exists|i: int|
            0 <= i < span_entries_view(spans).len() && (contains_seq(
                span_entries_view(spans)[i].0,
                needle,
            ) || kv_matches(span_entries_view(spans)[i].1, needle))),
{
    let sv = span_entries_view(spans);
    if exists|i: int|
        0 <= i < spans.len() && (contains_seq(spans[i].name@, needle) || kv_matches(
            spans[i].fields@,
            needle,
        )) {
        let i = choose|i: int|
            0 <= i < spans.len() && (contains_seq(spans[i].name@, needle) || kv_matches(
                spans[i].fields@,
                needle,
            ));
        assert(sv[i].0 == spans[i].name@ && sv[i].1 == spans[i].fields@);
    }
    if exists|i: int|
        0 <= i < sv.len() && (contains_seq(sv[i].0, needle) || kv_matches(sv[i].1, needle)) {
        let i = choose|i: int|
            0 <= i < sv.len() && (contains_seq(sv[i].0, needle) || kv_matches(sv[i].1, needle));
        assert(sv[i].0 == spans[i].name@ && sv[i].1 == spans[i].fields@);
    }
}

/// Makes one connected pipeline of capacity `capacity`: the collector,
/// the delivery channel between the two sides, and the display store.
pub fn new_pipeline(capacity: usize) -> (r: (Collector, DeliveryChannel, EguiLog))
    requires
        1 <= capacity,
    ensures
        r.0@ == Seq::<(u64, KvSeq)>::empty(),
        r.0.wf(),
        chan_wf(r.1),
        chan_capacity(r.1) == capacity,
        chan_contents(r.1) == Seq::<LogRecord>::empty(),
        r.2.wf(),
        r.2.spec_max() == capacity,
        r.2.ring() == Seq::<LogRecord>::empty(),
        r.2.filter_level is None,
{
    let collector = Collector::new();
    let chan = DeliveryChannel::new(capacity);
    let store = EguiLog::new(capacity);
    (collector, chan, store)
}

} // verus!
