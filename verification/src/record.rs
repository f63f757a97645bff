//! The captured log record: severity, timestamp text, message, the
//! event's own fields, and a snapshot of the ancestor span chain.

use vstd::prelude::*;
use crate::fields::{FieldMap, KvSeq};
use crate::level::Level;

verus! {

/// One ancestor span in a record: its name and the snapshot of its
/// fields at the time the event fired.
#[derive(Debug, PartialEq)]
pub struct SpanEntry {
    pub name: String,
    pub fields: FieldMap,
}

/// A captured log record. Once assembled it is never changed.
#[derive(Debug, PartialEq)]
pub struct LogRecord {
    pub level: Level,
    pub time: String,
    pub message: String,
    pub data: FieldMap,
    pub span_data: Vec<SpanEntry>,
}

/// The span snapshots of a record, seen at the specification level:
/// `(name, fields)` pairs from root to leaf.
pub open spec fn span_entries_view(s: Seq<SpanEntry>) -> Seq<(Seq<char>, KvSeq)> {
    Seq::new(s.len(), |i: int| (s[i].name@, s[i].fields@))
}

} // verus!
