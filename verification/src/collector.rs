//! The collector side of the pipeline: it keeps the span field table up
//! to date over span lifecycle notifications and, when an event fires,
//! assembles a record out of the event's fields, the reserved message
//! field, the wall-clock time and a snapshot of the ancestor chain, and
//! delivers it into the bounded channel, best-effort and without ever
//! blocking or failing the instrumented caller.

use vstd::prelude::*;
use crate::channel::{chan_capacity, chan_contents, chan_wf, push_evict, DeliveryChannel};
use crate::fields::{kv_get, kv_remove, FieldMap, KvSeq};
use crate::level::Level;
use crate::record::{span_entries_view, LogRecord};
use crate::span_table::{
    chain_view, spec_snapshot, st_get, st_record, st_remove, SpanRef, SpanSeq, SpanTable,
};
use crate::text::spec_trim;

verus! {

/// The message a record carries: the trimmed value of the reserved
/// `message` field, or empty when the event had none.
pub open spec fn spec_message_of(fields: KvSeq) -> Seq<char> {
    match kv_get(fields, "message"@) {
        Some(v) => spec_trim(v),
        None => Seq::empty(),
    }
}

/// The data a record carries: the event's fields with the reserved
/// `message` field stripped out.
pub open spec fn spec_data_of(fields: KvSeq) -> KvSeq {
    kv_remove(fields, "message"@)
}

/// What the record assembled for an event looks like, apart from its
/// wall-clock timestamp: the event's level, the message and data drawn
/// from its fields, and the snapshot of the ancestor chain against the
/// span table.
pub open spec fn is_event_record(
    rec: LogRecord,
    level: Level,
    fields: KvSeq,
    chain: Seq<(u64, Seq<char>)>,
    table: SpanSeq,
) -> bool {
    &&& rec.level == level
    &&& rec.message@ == spec_message_of(fields)
    &&& rec.data@ == spec_data_of(fields)
    &&& span_entries_view(rec.span_data@) == spec_snapshot(chain, table)
}

/// Relies on chrono::Local::now and chrono's format: the wall clock
/// rendered as text; nothing is assumed of the result.
#[verifier::external_body]
fn now_timestamp() -> String {
    chrono::Local::now().format("%F %T.%3f").to_string()
}

/// The collector: the span field table, fed by span lifecycle
/// notifications and read when events fire.
pub struct Collector {
    spans: SpanTable,
}

impl View for Collector {
    type V = SpanSeq;

    closed spec fn view(&self) -> SpanSeq {
        self.spans@
    }
}

impl Collector {
    /// The span ids of the table are pairwise distinct.
    pub open spec fn wf(self) -> bool {
        crate::span_table::st_unique(self@)
    }

    /// A collector with no live spans.
    pub fn new() -> (c: Collector)
        ensures
            c@ == Seq::<(u64, KvSeq)>::empty(),
            c.wf(),
    {
        Collector { spans: SpanTable::new() }
    }

    /// A new span was created: its initial attribute values start the
    /// span's field mapping.
    pub fn on_new_span(&mut self, id: u64, values: &FieldMap)
        ensures
            final(self)@ == st_record(old(self)@, id, values@),
            old(self).wf() ==> final(self).wf(),
    {
        self.spans.record(id, values);
    }

    /// A live span recorded further attributes: they merge into its
    /// field mapping, the last write per key winning.
    pub fn on_record(&mut self, id: u64, values: &FieldMap)
        ensures
            final(self)@ == st_record(old(self)@, id, values@),
            old(self).wf() ==> final(self).wf(),
    {
        self.spans.record(id, values);
    }

    /// A span closed: its field mapping leaves the table, so later
    /// lookups of it miss.
    pub fn on_close(&mut self, id: u64)
        ensures
            final(self)@ == st_remove(old(self)@, id),
            st_get(final(self)@, id) is None,
            old(self).wf() ==> final(self).wf(),
    {
        self.spans.close(id);
    }

    /// An event fired: assembles the record for it, stamped `time`, and
    /// delivers it, the oldest pending record leaving first when the
    /// channel is full. The delivered record stands last in the channel.
    pub fn on_event_at(
        &self,
        chan: &mut DeliveryChannel,
        level: Level,
        time: String,
        fields: FieldMap,
        chain: &Vec<SpanRef>,
    )
        requires
            chan_wf(*old(chan)),
        ensures
            chan_wf(*final(chan)),
            chan_capacity(*final(chan)) == chan_capacity(*old(chan)),
            chan_contents(*final(chan)).len() >= 1,
            chan_contents(*final(chan)) == push_evict(
                chan_contents(*old(chan)),
                chan_contents(*final(chan)).last(),
                chan_capacity(*old(chan)),
            ),
            is_event_record(
                chan_contents(*final(chan)).last(),
                level,
                fields@,
                chain_view(chain@),
                self@,
            ),
            chan_contents(*final(chan)).last().time@ == time@,
    {
        let ghost fields0 = fields@;
        let mut data = fields;
        let message = match data.remove("message") {
            Some(s) => crate::text::trim_str(s.as_str()),
            None => String::new(),
        };
        let span_data = self.spans.snapshot(chain);
        let rec = LogRecord { level, time, message, data, span_data };
        let ghost grec = rec;
        chan.enqueue(rec);
        proof {
            let q2 = chan_contents(*old(chan)).push(grec);
            assert(q2.last() == grec);
            if q2.len() > chan_capacity(*old(chan)) {
                assert(chan_contents(*chan).last() == q2[q2.len() - 1]);
            }
            assert(chan_contents(*chan).last() == grec);
        }
    }

    /// An event fired: as `on_event_at`, with the record stamped with
    /// the wall-clock time of the call.
    pub fn on_event(
        &self,
        chan: &mut DeliveryChannel,
        level: Level,
        fields: FieldMap,
        chain: &Vec<SpanRef>,
    )
        requires
            chan_wf(*old(chan)),
        ensures
            chan_wf(*final(chan)),
            chan_capacity(*final(chan)) == chan_capacity(*old(chan)),
            chan_contents(*final(chan)).len() >= 1,
            chan_contents(*final(chan)) == push_evict(
                chan_contents(*old(chan)),
                chan_contents(*final(chan)).last(),
                chan_capacity(*old(chan)),
            ),
            is_event_record(
                chan_contents(*final(chan)).last(),
                level,
                fields@,
                chain_view(chain@),
                self@,
            ),
    {
        let time = now_timestamp();
        self.on_event_at(chan, level, time, fields, chain);
    }
}

} // verus!
