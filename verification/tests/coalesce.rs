use moufu::coalesce::CoalescingDispatcher;
use moufu::protocol::{ChangeEvent, EntityId, PayloadTransport, UtcTime};

fn event(id: &str, version: u64, is_transient: bool) -> ChangeEvent {
    ChangeEvent {
        entity_id: EntityId::from(id),
        version,
        is_transient,
        timestamp: UtcTime { secs: 0, nanos: 0 },
        payload: PayloadTransport::Inline(format!("{{\"v\":{}}}", version)),
        delta: None,
    }
}

#[test]
fn test_transient_event_coalescing() {
    // High-rate dispatcher (10fps for testing)
    let mut dispatcher = CoalescingDispatcher::new(10);
    // Submit 20 rapid transient events
    for v in 1..=20 {
        dispatcher.submit(event("amata://artboard-1/star", v, true));
    }
    // Next frame
    dispatcher.tick();
    let flushed = dispatcher.next_event().unwrap();
    // Since transient events are coalesced, we receive the latest version, not 20 individual events
    assert_eq!(flushed.version, 20);
    assert!(flushed.is_transient);
    assert!(dispatcher.next_event().is_none());
}

#[test]
fn committed_events_are_never_dropped_and_come_first() {
    let mut d = CoalescingDispatcher::new(60);
    d.submit(event("a", 1, true));
    d.submit(event("a", 2, false));
    d.submit(event("b", 3, true));
    d.submit(event("a", 4, true));
    d.submit(event("b", 5, false));
    assert!(d.next_event().is_none());
    d.tick();
    let versions: Vec<u64> = std::iter::from_fn(|| d.next_event()).map(|e| e.version).collect();
    assert_eq!(versions, vec![2, 5, 4, 3]);
    d.tick();
    assert!(d.next_event().is_none());
}

#[test]
fn frame_length_follows_fps() {
    assert_eq!(CoalescingDispatcher::new(60).frame_millis(), 16);
    assert_eq!(CoalescingDispatcher::new(10).frame_millis(), 100);
    assert_eq!(CoalescingDispatcher::new(0).frame_millis(), 1000);
    assert_eq!(CoalescingDispatcher::new(2000).frame_millis(), 0);
}

#[test]
fn committed_events_survive_interleaved_frames_and_takes() {
    let mut d = CoalescingDispatcher::new(60);
    d.submit(event("a", 1, false));
    d.submit(event("a", 2, true));
    d.tick();
    d.submit(event("b", 3, false));
    assert_eq!(d.next_event().unwrap().version, 1);
    d.submit(event("a", 4, true));
    d.submit(event("c", 5, false));
    d.tick();
    let versions: Vec<u64> = std::iter::from_fn(|| d.next_event()).map(|e| e.version).collect();
    // the transient of the first frame, then the second frame's committed, then its transient
    assert_eq!(versions, vec![2, 3, 5, 4]);
}
