use yushi::events::{EventData, RingBuffer};
use yushi::json::Json;

fn event(ts: i64) -> EventData {
    EventData { source_id: "test".to_string(), timestamp_ms: ts, fields: Vec::new() }
}

#[test]
fn test_ring_buffer() {
    let mut buffer = RingBuffer::new(5000);

    let now = chrono::Utc::now().timestamp_millis();
    let event1 = event(now - 500);
    let event2 = event(now);

    buffer.push(event1);
    buffer.push(event2);

    let range = buffer.get_range(now - 500, now);
    assert_eq!(range.len(), 2);
}

#[test]
fn ring_buffer_drops_expired_front() {
    let mut buffer = RingBuffer::new(1000);
    buffer.push_at(event(100), 100);
    buffer.push_at(event(500), 500);
    buffer.push_at(event(1400), 1400);
    let all = buffer.get_range(i64::MIN, i64::MAX);
    assert_eq!(all.len(), 2);
    assert_eq!(all[0].timestamp_ms, 500);
    assert_eq!(all[1].timestamp_ms, 1400);
}

#[test]
fn ring_buffer_range_is_inclusive() {
    let mut buffer = RingBuffer::new(10_000);
    for ts in [10, 20, 30, 40] {
        buffer.push_at(event(ts), 40);
    }
    let r = buffer.get_range(20, 30);
    assert_eq!(r.len(), 2);
    assert_eq!(r[0].timestamp_ms, 20);
    assert!(buffer.get_range(41, 50).is_empty());
}

#[test]
fn event_keeps_fields() {
    let e = EventData {
        source_id: "s".to_string(),
        timestamp_ms: 1,
        fields: vec![("temp".to_string(), Json::PosInt(21))],
    };
    let mut buffer = RingBuffer::new(100);
    buffer.push_at(e, 1);
    let r = buffer.get_range(0, 1);
    assert_eq!(r[0].fields[0].0, "temp");
}
