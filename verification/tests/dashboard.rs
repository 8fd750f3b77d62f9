use moufu::dashboard::ControlCenterState;
use moufu::graph::SessionRecord;
use moufu::hub::HubEvent;
use moufu::protocol::{AppCapabilities, ChangeEvent, EntityId, LinkId, LinkInfo, LinkStatus, PayloadTransport, UtcTime};

fn link(id: u128, version: u64) -> LinkInfo {
    LinkInfo {
        link_id: LinkId(id),
        source_app: "Amata".to_string(),
        source_entity: EntityId::from("amata://star"),
        target_app: "Kagari".to_string(),
        target_entity: EntityId::from("kagari://clip"),
        data_type: "t".to_string(),
        status: LinkStatus::Active,
        last_synced_version: version,
        created_at: UtcTime { secs: 0, nanos: 0 },
    }
}

#[test]
fn starts_with_initialized_line() {
    let s = ControlCenterState::new();
    assert_eq!(s.logs().clone(), vec!["Moufu Integration Hub Initialized.".to_string()]);
    assert_eq!(s.event_count(), 0);
}

#[test]
fn log_lines_match_the_hub_events() {
    let mut s = ControlCenterState::new();
    let session = uuid::Uuid::new_v4();
    s.apply_event(HubEvent::AppConnected(SessionRecord {
        session_id: session.as_u128(),
        app_name: "Amata".to_string(),
        app_version: "1.0.0".to_string(),
        capabilities: AppCapabilities::default(),
        connected_at: UtcTime { secs: 0, nanos: 0 },
    }));
    assert_eq!(s.logs()[1], format!("App connected: Amata (ID: {})", session));
    s.apply_event(HubEvent::LinkCreated(link(0x0123_4567_89ab_cdef_0123_4567_89ab_cdef, 0)));
    assert_eq!(s.logs()[2], "Link established: amata://star -> kagari://clip");
    s.apply_event(HubEvent::LinkRebound(link(0x0123_4567_89ab_cdef_0123_4567_89ab_cdef, 0)));
    assert_eq!(s.logs()[3], "\u{1F504} Restored persisted link: amata://star -> kagari://clip");
    assert_eq!(s.links().len(), 1);
    s.apply_event(HubEvent::ChangeDispatched {
        event: ChangeEvent {
            entity_id: EntityId::from("amata://star"),
            version: 101,
            is_transient: false,
            timestamp: UtcTime { secs: 0, nanos: 0 },
            payload: PayloadTransport::Inline("{}".to_string()),
            delta: None,
        },
        subscribers_count: 2,
    });
    assert_eq!(s.logs()[4], "Event synced: amata://star (v101, transient=false) -> 2 targets");
    assert_eq!(s.links()[0].last_synced_version, 101);
    s.apply_event(HubEvent::LinkDestroyed(LinkId(0x0123_4567_89ab_cdef_0123_4567_89ab_cdef)));
    assert_eq!(s.logs()[5], "Link removed: 01234567-89ab-cdef-0123-456789abcdef");
    assert!(s.links().is_empty());
    s.apply_event(HubEvent::AppDisconnected(session.as_u128()));
    assert_eq!(s.logs()[6], format!("App disconnected (ID: {})", session));
    assert!(s.sessions().is_empty());
    assert_eq!(s.event_count(), 6);
}

#[test]
fn entities_are_listed_once() {
    let mut s = ControlCenterState::new();
    let d = moufu::protocol::EntityDescriptor {
        id: EntityId::from("amata://a"),
        name: "A".to_string(),
        data_type: "t".to_string(),
        source_app: "Amata".to_string(),
        metadata: Vec::new(),
    };
    s.apply_event(HubEvent::EntityRegistered(d.clone()));
    s.apply_event(HubEvent::EntityRegistered(d.clone()));
    assert_eq!(s.entities().len(), 1);
    assert_eq!(s.logs()[1], "Entity registered: amata://a [App: Amata]");
    s.apply_event(HubEvent::EntityUnregistered(EntityId::from("amata://a")));
    assert_eq!(s.logs()[3], "Entity unregistered: amata://a");
    assert!(s.entities().is_empty());
}

#[test]
fn logs_are_trimmed_to_the_newest_hundred() {
    let mut s = ControlCenterState::new();
    for i in 0..150u128 {
        s.apply_event(HubEvent::LinkDestroyed(LinkId(i)));
    }
    assert_eq!(s.logs().len(), 151);
    s.trim_logs();
    assert_eq!(s.logs().len(), 100);
    assert_eq!(s.logs()[99], format!("Link removed: {}", uuid::Uuid::from_u128(149)));
    assert_eq!(s.logs()[0], format!("Link removed: {}", uuid::Uuid::from_u128(50)));
}

fn session(id: u128, name: &str) -> SessionRecord {
    SessionRecord {
        session_id: id,
        app_name: name.to_string(),
        app_version: "1.0.0".to_string(),
        capabilities: AppCapabilities::default(),
        connected_at: UtcTime { secs: 0, nanos: 0 },
    }
}

#[test]
fn disconnect_breaks_the_links_of_that_app() {
    let mut s = ControlCenterState::new();
    s.apply_event(HubEvent::AppConnected(session(1, "Amata")));
    s.apply_event(HubEvent::AppConnected(session(2, "Kagari")));
    let mut other = link(8, 0);
    other.source_app = "Kagari".to_string();
    s.apply_event(HubEvent::LinkCreated(link(7, 0)));
    s.apply_event(HubEvent::LinkCreated(other));
    s.apply_event(HubEvent::AppDisconnected(1));
    assert_eq!(s.sessions().len(), 1);
    assert_eq!(s.sessions()[0].session_id, 2);
    assert_eq!(s.links().len(), 2);
    assert_eq!(s.links()[0].link_id, LinkId(7));
    assert_eq!(s.links()[0].status, LinkStatus::Broken);
    assert_eq!(s.links()[1].status, LinkStatus::Active);
    // an unknown session changes no link
    s.apply_event(HubEvent::AppDisconnected(99));
    assert_eq!(s.links()[1].status, LinkStatus::Active);
}

#[test]
fn batch_counts_every_event_and_keeps_the_newest_lines() {
    let mut s = ControlCenterState::new();
    let mut events = Vec::new();
    for i in 0..120u128 {
        events.push(HubEvent::LinkCreated(link(i % 3, 0)));
    }
    s.apply_events(events);
    assert_eq!(s.event_count(), 120);
    assert_eq!(s.logs().len(), 100);
    assert_eq!(s.logs()[99], "Link established: amata://star -> kagari://clip");
    assert_eq!(s.links().len(), 3);
    assert_eq!(s.links()[2].link_id, LinkId(119 % 3));
    s.apply_events(Vec::new());
    assert_eq!(s.event_count(), 120);
}
