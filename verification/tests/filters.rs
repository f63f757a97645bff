use egui_widgets::{
    new_pipeline, EguiLog, EguiVisit, FieldMap, Level, LogRecord, SpanEntry, SpanRef,
};
use egui_widgets::text::{contains_str, trim_str};

fn filter_fields(pairs: &[(&str, &str)]) -> FieldMap {
    let mut visit = EguiVisit::new();
    for (k, v) in pairs {
        visit.add(k.to_string(), v.to_string());
    }
    visit.into_fields()
}

fn record_with(level: Level, msg: &str, data: &[(&str, &str)], spans: &[(&str, &[(&str, &str)])]) -> LogRecord {
    let mut span_data = Vec::new();
    for (name, fields) in spans {
        span_data.push(SpanEntry { name: name.to_string(), fields: filter_fields(fields) });
    }
    LogRecord {
        level,
        time: String::new(),
        message: msg.to_string(),
        data: filter_fields(data),
        span_data,
    }
}

fn store_with_capacity(cap: usize) -> EguiLog {
    EguiLog::new(cap)
}

#[test]
fn filters_are_conjunctive() {
    let mut store = store_with_capacity(4);
    let rec = record_with(Level::Error, "connection lost", &[], &[]);

    store.filter_level = Some(Level::Info);
    store.filter_message = "nothing like this".to_string();
    assert!(!store.record_visible(&rec));

    store.filter_level = None;
    store.filter_span_data = String::new();
    store.filter_data = String::new();
    store.filter_message = String::new();
    assert!(store.record_visible(&rec));
}

#[test]
fn level_threshold_keeps_at_or_above() {
    let mut store = store_with_capacity(4);
    store.filter_level = Some(Level::Warn);
    assert!(store.record_visible(&record_with(Level::Error, "e", &[], &[])));
    assert!(store.record_visible(&record_with(Level::Warn, "w", &[], &[])));
    assert!(!store.record_visible(&record_with(Level::Info, "i", &[], &[])));
    assert!(!store.record_visible(&record_with(Level::Trace, "t", &[], &[])));
}

#[test]
fn span_filter_matches_name_key_and_value() {
    let mut store = store_with_capacity(4);
    let rec = record_with(
        Level::Info,
        "m",
        &[],
        &[("request_span", &[("user_name", "alice")])],
    );

    store.filter_span_data = "request".to_string();
    assert!(store.record_visible(&rec));
    store.filter_span_data = "user_na".to_string();
    assert!(store.record_visible(&rec));
    store.filter_span_data = "lice".to_string();
    assert!(store.record_visible(&rec));
    store.filter_span_data = "bob".to_string();
    assert!(!store.record_visible(&rec));
    store.filter_span_data = "Alice".to_string();
    assert!(!store.record_visible(&rec), "matching is case-sensitive");
}

#[test]
fn data_filter_matches_key_and_value() {
    let mut store = store_with_capacity(4);
    let rec = record_with(Level::Info, "m", &[("status_code", "404")], &[]);

    store.filter_data = "status".to_string();
    assert!(store.record_visible(&rec));
    store.filter_data = "404".to_string();
    assert!(store.record_visible(&rec));
    store.filter_data = "500".to_string();
    assert!(!store.record_visible(&rec));
}

#[test]
fn message_filter_is_literal_containment() {
    let mut store = store_with_capacity(4);
    let rec = record_with(Level::Info, "connection reset by peer", &[], &[]);

    store.filter_message = "reset by".to_string();
    assert!(store.record_visible(&rec));
    store.filter_message = "Reset".to_string();
    assert!(!store.record_visible(&rec));
}

#[test]
fn visible_indices_lists_exactly_the_visible() {
    let (collector, mut chan, mut store) = new_pipeline(5);
    let chain: Vec<SpanRef> = Vec::new();
    for (level, msg) in [
        (Level::Info, "alpha"),
        (Level::Error, "beta"),
        (Level::Debug, "alpha beta"),
        (Level::Warn, "gamma"),
    ] {
        collector.on_event_at(
            &mut chan,
            level,
            "t".to_string(),
            filter_fields(&[("message", msg)]),
            &chain,
        );
    }
    store.update(&mut chan);

    store.filter_message = "beta".to_string();
    assert_eq!(store.visible_indices(), vec![1usize, 2]);

    store.filter_level = Some(Level::Warn);
    assert_eq!(store.visible_indices(), vec![1usize]);

    store.filter_message = String::new();
    store.filter_level = None;
    assert_eq!(store.visible_indices(), vec![0usize, 1, 2, 3]);
}

#[test]
fn contains_str_is_literal_and_case_sensitive() {
    assert!(contains_str("hello world", ""));
    assert!(contains_str("hello world", "lo wo"));
    assert!(contains_str("hello world", "hello world"));
    assert!(!contains_str("hello world", "Hello"));
    assert!(!contains_str("short", "much longer needle"));
    assert!(contains_str("", ""));
    assert!(!contains_str("", "x"));
}

#[test]
fn trim_str_strips_only_the_edges() {
    assert_eq!(trim_str("  hello  world \n"), "hello  world");
    assert_eq!(trim_str("\t\r\n "), "");
    assert_eq!(trim_str("untouched"), "untouched");
    assert_eq!(trim_str(""), "");
}
