use open_promux::logs::{format_event_message, level_str, LogLevel, LogRing, RING_CAPACITY};

fn push(ring: &mut LogRing, level: LogLevel, message: &str, fields: &[(&str, &str)]) {
    let fields: Vec<(String, String)> =
        fields.iter().map(|(k, v)| (k.to_string(), v.to_string())).collect();
    let text = format_event_message(message, &fields);
    ring.push(0, level, "open_promux::test", &text);
}

#[test]
fn log_bus_should_capture_messages_and_fields_into_ring() {
    let mut ring = LogRing::new();
    push(&mut ring, LogLevel::Info, "request handled", &[("client", "open-promux")]);
    push(&mut ring, LogLevel::Warn, "upstream slow", &[]);

    let snapshot = ring.snapshot();
    assert_eq!(snapshot.len(), 2);

    let first = &snapshot[0];
    assert_eq!(first.level, "INFO");
    assert!(first.message.contains("request handled"));
    assert!(first.message.contains("client=open-promux"));

    let second = &snapshot[1];
    assert_eq!(second.level, "WARN");
    assert!(second.message.contains("upstream slow"));
    assert!(second.seq > first.seq);
}

#[test]
fn log_bus_subscribers_receive_live_events() {
    let mut ring = LogRing::new();
    let event = ring.push(0, LogLevel::Error, "open_promux::test", &format_event_message("boom", &Vec::new()));
    assert_eq!(event.level, "ERROR");
    assert_eq!(event.message, "boom");
}

#[test]
fn log_bus_clear_should_drop_retained_lines() {
    let mut ring = LogRing::new();
    push(&mut ring, LogLevel::Info, "first", &[]);
    push(&mut ring, LogLevel::Info, "second", &[]);

    assert_eq!(ring.snapshot().len(), 2);
    ring.clear();
    assert!(ring.snapshot().is_empty());
}

#[test]
fn ring_keeps_only_the_most_recent_lines() {
    let mut ring = LogRing::new();
    for i in 0..(RING_CAPACITY + 3) {
        ring.push(i as i64, LogLevel::Debug, "t", "m");
    }
    let snap = ring.snapshot();
    assert_eq!(snap.len(), RING_CAPACITY);
    assert_eq!(snap[0].seq, 4);
    assert_eq!(snap[RING_CAPACITY - 1].seq, (RING_CAPACITY + 3) as u64);
}

#[test]
fn event_message_separates_fields_with_spaces() {
    let fields = vec![("a".to_string(), "1".to_string()), ("b".to_string(), "2".to_string())];
    assert_eq!(format_event_message("msg", &fields), "msg a=1 b=2");
    assert_eq!(format_event_message("", &fields), "a=1 b=2");
    assert_eq!(level_str(LogLevel::Trace), "TRACE");
    assert_eq!(level_str(LogLevel::Debug), "DEBUG");
}
