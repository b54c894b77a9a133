use polymarket_hft::event_buffer::{EventBuffer, EventData, EventEntry, MAX_EVENTS};

fn entry(ts: u64, s: &str) -> EventEntry {
    EventEntry {
        timestamp_us: ts,
        data: EventData { s: s.into(), t: "fill".into(), d: "{\"px\":1}".into() },
    }
}

#[test]
fn empty_buffer() {
    let b = EventBuffer::new();
    assert!(b.snapshot().is_empty());
    assert_eq!(b.export_ndjson(), "");
}

#[test]
fn push_and_export() {
    let mut b = EventBuffer::new();
    b.push_entry(entry(1, "exec"));
    b.push_entry(entry(2, "q\"\\\n\u{1}"));
    let snap = b.snapshot();
    assert_eq!(snap.len(), 2);
    assert_eq!(snap[0].timestamp_us, 1);
    assert_eq!(snap[1].data.s, "q\"\\\n\u{1}");
    assert_eq!(
        b.export_ndjson(),
        "{\"timestamp_us\":1,\"data\":{\"s\":\"exec\",\"t\":\"fill\",\"d\":{\"px\":1}}}\n\
         {\"timestamp_us\":2,\"data\":{\"s\":\"q\\\"\\\\\\n\\u0001\",\"t\":\"fill\",\"d\":{\"px\":1}}}"
    );
}

#[test]
fn ring_drops_oldest_when_full() {
    let mut b = EventBuffer::new();
    for i in 0..(MAX_EVENTS as u64 + 3) {
        b.push_entry(entry(i, "s"));
    }
    let snap = b.snapshot();
    assert_eq!(snap.len(), MAX_EVENTS);
    assert_eq!(snap[0].timestamp_us, 3);
    assert_eq!(snap[MAX_EVENTS - 1].timestamp_us, MAX_EVENTS as u64 + 2);
}

#[test]
fn push_stamps_current_time() {
    let mut b = EventBuffer::new();
    b.push("dash", "info", "null".to_string());
    let snap = b.snapshot();
    assert_eq!(snap.len(), 1);
    assert!(snap[0].timestamp_us > 1_577_836_800_000_000);
    assert_eq!(snap[0].data.s, "dash");
    assert_eq!(snap[0].data.t, "info");
    assert_eq!(snap[0].data.d, "null");
}
