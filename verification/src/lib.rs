//! Widgets and a log-capture pipeline for an immediate-mode GUI host.
//!
//! The heart of the crate is the tracing pipeline: a collector takes
//! structured log events together with span context, keeps per-span field
//! tables, and pushes assembled records into a bounded, lossy delivery
//! channel; a display store drains that channel into a fixed-capacity ring
//! and answers filtered queries over the retained records.

pub mod channel;
pub mod collector;
pub mod fields;
pub mod level;
pub mod list;
pub mod record;
pub mod select;
pub mod span_table;
pub mod store;
pub mod text;

pub use channel::DeliveryChannel;
pub use collector::Collector;
pub use fields::{EguiVisit, FieldMap};
pub use level::Level;
pub use list::{
    set_search_hint_text, ListEditContainer, ListEditorContainer, ListViewText, StringData, UiText,
};
pub use record::{LogRecord, SpanEntry};
pub use select::{SelectEdit, SelectEditor};
pub use span_table::{SpanRef, SpanTable};
pub use store::{new_pipeline, DisplayInfo, EguiLog};
