use egui_widgets::{
    new_pipeline, Collector, DeliveryChannel, EguiLog, EguiVisit, FieldMap, Level, LogRecord,
    SpanRef,
};

fn plain_record(level: Level, msg: &str) -> LogRecord {
    LogRecord {
        level,
        time: String::new(),
        message: msg.to_string(),
        data: FieldMap::new(),
        span_data: Vec::new(),
    }
}

fn fields_of(pairs: &[(&str, &str)]) -> FieldMap {
    let mut visit = EguiVisit::new();
    for (k, v) in pairs {
        visit.add(k.to_string(), v.to_string());
    }
    visit.into_fields()
}

fn ring_messages(store: &EguiLog) -> Vec<String> {
    let mut out = Vec::new();
    for i in 0..store.len() {
        out.push(store.record_at(i).message.clone());
    }
    out
}

#[test]
fn channel_keeps_most_recent_at_capacity() {
    let mut chan = DeliveryChannel::new(3);
    for msg in ["m1", "m2", "m3", "m4", "m5"] {
        chan.enqueue(plain_record(Level::Info, msg));
    }
    assert_eq!(chan.pending(), 3);
    assert_eq!(chan.try_recv().unwrap().message, "m3");
    assert_eq!(chan.try_recv().unwrap().message, "m4");
    assert_eq!(chan.try_recv().unwrap().message, "m5");
    assert!(chan.try_recv().is_none());
}

#[test]
fn channel_keeps_order_below_capacity() {
    let mut chan = DeliveryChannel::new(4);
    chan.enqueue(plain_record(Level::Warn, "a"));
    chan.enqueue(plain_record(Level::Error, "b"));
    assert_eq!(chan.pending(), 2);
    assert_eq!(chan.try_recv().unwrap().message, "a");
    assert_eq!(chan.try_recv().unwrap().message, "b");
}

#[test]
fn full_drain_replaces_ring_and_reports_worst() {
    let (collector, mut chan, mut store) = new_pipeline(3);
    let chain: Vec<SpanRef> = Vec::new();
    for (level, msg) in [
        (Level::Info, "info"),
        (Level::Warn, "warn"),
        (Level::Error, "error"),
        (Level::Debug, "debug"),
    ] {
        collector.on_event_at(
            &mut chan,
            level,
            "t".to_string(),
            fields_of(&[("message", msg)]),
            &chain,
        );
    }
    let worst = store.update(&mut chan);
    assert_eq!(ring_messages(&store), vec!["warn", "error", "debug"]);
    assert_eq!(worst, Some(Level::Error));
    assert_eq!(chan.pending(), 0);
}

#[test]
fn partial_drain_into_full_ring_rotates() {
    let (collector, mut chan, mut store) = new_pipeline(3);
    let chain: Vec<SpanRef> = Vec::new();
    for msg in ["a", "b", "c"] {
        collector.on_event_at(
            &mut chan,
            Level::Info,
            "t".to_string(),
            fields_of(&[("message", msg)]),
            &chain,
        );
    }
    assert_eq!(store.update(&mut chan), Some(Level::Info));
    assert_eq!(ring_messages(&store), vec!["a", "b", "c"]);

    collector.on_event_at(
        &mut chan,
        Level::Debug,
        "t".to_string(),
        fields_of(&[("message", "d")]),
        &chain,
    );
    assert_eq!(store.update(&mut chan), Some(Level::Debug));
    assert_eq!(ring_messages(&store), vec!["b", "c", "d"]);
}

#[test]
fn drain_never_overfills_ring() {
    let (collector, mut chan, mut store) = new_pipeline(2);
    let chain: Vec<SpanRef> = Vec::new();
    for round in 0..5 {
        for k in 0..=round {
            let msg = format!("r{round}k{k}");
            collector.on_event_at(
                &mut chan,
                Level::Trace,
                "t".to_string(),
                fields_of(&[("message", msg.as_str())]),
                &chain,
            );
        }
        store.update(&mut chan);
        assert!(store.len() <= store.capacity());
    }
    assert_eq!(ring_messages(&store), vec!["r4k3", "r4k4"]);
}

#[test]
fn empty_drain_changes_nothing() {
    let (collector, mut chan, mut store) = new_pipeline(2);
    let chain: Vec<SpanRef> = Vec::new();
    collector.on_event_at(
        &mut chan,
        Level::Warn,
        "t".to_string(),
        fields_of(&[("message", "x")]),
        &chain,
    );
    assert_eq!(store.update(&mut chan), Some(Level::Warn));
    assert_eq!(store.update(&mut chan), None);
    assert_eq!(ring_messages(&store), vec!["x"]);
}

#[test]
fn drain_is_capped_at_ring_capacity() {
    let mut chan = DeliveryChannel::new(5);
    let mut store = EguiLog::new(3);
    for msg in ["p1", "p2", "p3", "p4", "p5"] {
        chan.enqueue(plain_record(Level::Info, msg));
    }
    let worst = store.update(&mut chan);
    assert_eq!(ring_messages(&store), vec!["p1", "p2", "p3"]);
    assert_eq!(worst, Some(Level::Info));
    assert_eq!(chan.pending(), 2);
}

#[test]
fn message_field_is_stripped_and_trimmed() {
    let (collector, mut chan, mut store) = new_pipeline(4);
    let chain: Vec<SpanRef> = Vec::new();
    collector.on_event_at(
        &mut chan,
        Level::Info,
        "12:00".to_string(),
        fields_of(&[("message", "  hello world \n"), ("key", "value")]),
        &chain,
    );
    store.update(&mut chan);
    let rec = store.record_at(0);
    assert_eq!(rec.message, "hello world");
    assert_eq!(rec.time, "12:00");
    assert_eq!(rec.data.len(), 1);
    assert_eq!(rec.data.get("key").unwrap(), "value");
    assert!(rec.data.get("message").is_none());
}

#[test]
fn event_without_message_field_has_empty_message() {
    let (collector, mut chan, mut store) = new_pipeline(2);
    let chain: Vec<SpanRef> = Vec::new();
    collector.on_event_at(
        &mut chan,
        Level::Debug,
        "t".to_string(),
        fields_of(&[("only", "data")]),
        &chain,
    );
    store.update(&mut chan);
    assert_eq!(store.record_at(0).message, "");
    assert_eq!(store.record_at(0).data.get("only").unwrap(), "data");
}

#[test]
fn event_snapshots_ancestor_spans() {
    let (mut collector, mut chan, mut store) = new_pipeline(4);
    collector.on_new_span(1, &fields_of(&[("user", "u1")]));
    collector.on_record(1, &fields_of(&[("step", "s2"), ("user", "u2")]));
    collector.on_new_span(2, &fields_of(&[("inner", "i")]));
    let chain = vec![
        SpanRef { id: 1, name: "root".to_string() },
        SpanRef { id: 2, name: "leaf".to_string() },
    ];
    collector.on_event_at(
        &mut chan,
        Level::Info,
        "t".to_string(),
        fields_of(&[("message", "m")]),
        &chain,
    );
    store.update(&mut chan);
    let rec = store.record_at(0);
    assert_eq!(rec.span_data.len(), 2);
    assert_eq!(rec.span_data[0].name, "root");
    assert_eq!(rec.span_data[0].fields.get("user").unwrap(), "u2");
    assert_eq!(rec.span_data[0].fields.get("step").unwrap(), "s2");
    assert_eq!(rec.span_data[1].name, "leaf");
    assert_eq!(rec.span_data[1].fields.get("inner").unwrap(), "i");
}

#[test]
fn closed_span_vanishes_from_later_snapshots() {
    let (mut collector, mut chan, mut store) = new_pipeline(4);
    collector.on_new_span(7, &fields_of(&[("secret", "s")]));
    let chain = vec![SpanRef { id: 7, name: "gone".to_string() }];

    collector.on_event_at(
        &mut chan,
        Level::Info,
        "t".to_string(),
        fields_of(&[("message", "before")]),
        &chain,
    );
    collector.on_close(7);
    collector.on_event_at(
        &mut chan,
        Level::Info,
        "t".to_string(),
        fields_of(&[("message", "after")]),
        &chain,
    );

    store.update(&mut chan);
    assert_eq!(store.len(), 2);
    let before = store.record_at(0);
    assert_eq!(before.span_data.len(), 1);
    assert_eq!(before.span_data[0].fields.get("secret").unwrap(), "s");
    let after = store.record_at(1);
    assert_eq!(after.message, "after");
    assert!(after.span_data.is_empty());
}

#[test]
fn visitor_last_write_per_key_wins() {
    let mut visit = EguiVisit::new();
    visit.add("k".to_string(), "first".to_string());
    visit.add("other".to_string(), "o".to_string());
    visit.add("k".to_string(), "second".to_string());
    let fields = visit.into_fields();
    assert_eq!(fields.len(), 2);
    assert_eq!(fields.get("k").unwrap(), "second");
    let (k0, _) = fields.entry_at(0);
    assert_eq!(k0, "k");
}

#[test]
fn on_event_stamps_some_time() {
    let (collector, mut chan, mut store) = new_pipeline(2);
    let chain: Vec<SpanRef> = Vec::new();
    collector.on_event(&mut chan, Level::Error, fields_of(&[("message", "boom")]), &chain);
    store.update(&mut chan);
    assert_eq!(store.record_at(0).message, "boom");
    assert_eq!(store.record_at(0).level, Level::Error);
}

#[test]
fn worst_of_drain_tracks_most_severe() {
    let (collector, mut chan, mut store) = new_pipeline(5);
    let chain: Vec<SpanRef> = Vec::new();
    for level in [Level::Debug, Level::Trace, Level::Warn, Level::Info] {
        collector.on_event_at(
            &mut chan,
            level,
            "t".to_string(),
            fields_of(&[("message", "m")]),
            &chain,
        );
    }
    assert_eq!(store.update(&mut chan), Some(Level::Warn));
}

fn collector_smoke(collector: &mut Collector) {
    collector.on_new_span(1, &FieldMap::new());
    collector.on_close(1);
}

#[test]
fn collector_lifecycle_smoke() {
    let (mut collector, _chan, _store) = new_pipeline(1);
    collector_smoke(&mut collector);
}
