use moufu::hub::{HubAction, HubEvent, HubState};
use moufu::protocol::{
    AppCapabilities, ChangeEvent, ClientMessage, EntityDescriptor, EntityId, LinkId, LinkInfo, LinkStatus,
    PayloadTransport, ServerMessage, UtcTime,
};

fn caps() -> AppCapabilities {
    AppCapabilities::default()
}

fn descriptor(id: &str, app: &str, data_type: &str) -> EntityDescriptor {
    EntityDescriptor {
        id: EntityId::from(id),
        name: "n".to_string(),
        data_type: data_type.to_string(),
        source_app: app.to_string(),
        metadata: vec![("author".to_string(), "Amata Vector Engine".to_string())],
    }
}

fn connect(hub: &mut HubState, name: &str) -> u128 {
    let (id, actions) = hub.handle_handshake(name.to_string(), "1.0.0".to_string(), caps());
    assert_eq!(actions.len(), 2);
    match &actions[0] {
        HubAction::Send { session_id, message: ServerMessage::HandshakeAck { session_id: ack, server_version } } => {
            assert_eq!(*session_id, id);
            assert_eq!(*ack, id);
            assert_eq!(server_version, "0.1.0");
        },
        other => panic!("unexpected {:?}", other),
    }
    match &actions[1] {
        HubAction::Notify(HubEvent::AppConnected(r)) => {
            assert_eq!(r.session_id, id);
            assert_eq!(r.app_name, name);
        },
        other => panic!("unexpected {:?}", other),
    }
    id
}

fn change(id: &str, version: u64, is_transient: bool) -> ChangeEvent {
    ChangeEvent {
        entity_id: EntityId::from(id),
        version,
        is_transient,
        timestamp: UtcTime { secs: 1, nanos: 2 },
        payload: PayloadTransport::Inline("{}".to_string()),
        delta: None,
    }
}

#[test]
fn new_hub_restores_saved_links_broken() {
    let saved = vec![LinkInfo {
        link_id: LinkId(3),
        source_app: "Amata".to_string(),
        source_entity: EntityId::from("a"),
        target_app: "Kagari".to_string(),
        target_entity: EntityId::from("b"),
        data_type: "t".to_string(),
        status: LinkStatus::Active,
        last_synced_version: 15,
        created_at: UtcTime { secs: 0, nanos: 0 },
    }];
    let hub = HubState::new("0.1.0".to_string(), saved);
    let links = hub.get_links();
    assert_eq!(links.len(), 1);
    assert_eq!(links[0].status, LinkStatus::Broken);
    assert_eq!(links[0].last_synced_version, 15);
    assert!(hub.get_sessions().is_empty());
}

#[test]
fn ping_is_answered_only_for_connected_sessions() {
    let mut hub = HubState::new("0.1.0".to_string(), Vec::new());
    assert!(hub.process_message(99, ClientMessage::Ping).is_empty());
    let id = connect(&mut hub, "Amata");
    let actions = hub.process_message(id, ClientMessage::Ping);
    assert_eq!(actions.len(), 1);
    assert!(matches!(&actions[0], HubAction::Send { session_id, message: ServerMessage::Pong } if *session_id == id));
}

#[test]
fn pull_of_unknown_entity_is_an_error() {
    let mut hub = HubState::new("0.1.0".to_string(), Vec::new());
    let id = connect(&mut hub, "Kagari");
    let actions = hub.process_message(id, ClientMessage::PullEntity { entity_id: EntityId::from("amata://x") });
    match &actions[0] {
        HubAction::Send { message: ServerMessage::Error { code, message }, .. } => {
            assert_eq!(code, "ENTITY_NOT_FOUND");
            assert_eq!(message, "Entity 'amata://x' has no recorded state.");
        },
        other => panic!("unexpected {:?}", other),
    }
}

#[test]
fn create_link_with_unknown_entities_uses_defaults() {
    let mut hub = HubState::new("0.1.0".to_string(), Vec::new());
    let id = connect(&mut hub, "Kagari");
    let actions = hub.process_message(id, ClientMessage::CreateLink {
        source_entity: EntityId::from("amata://s"),
        target_entity: EntityId::from("kagari://t"),
    });
    assert_eq!(actions.len(), 3);
    assert!(matches!(actions[0], HubAction::PersistLinks));
    match &actions[2] {
        HubAction::Send { session_id, message: ServerMessage::LinkStatusChanged(l) } => {
            assert_eq!(*session_id, id);
            assert_eq!(l.source_app, "Unknown");
            assert_eq!(l.target_app, "Unknown");
            assert_eq!(l.data_type, "application/octet-stream");
            assert_eq!(l.status, LinkStatus::Active);
        },
        other => panic!("unexpected {:?}", other),
    }
}

#[test]
fn create_link_takes_apps_and_type_from_registrations() {
    let mut hub = HubState::new("0.1.0".to_string(), Vec::new());
    let a = connect(&mut hub, "Amata");
    let k = connect(&mut hub, "Kagari");
    hub.process_message(a, ClientMessage::RegisterEntity(descriptor("amata://s", "Amata", "application/x-moufu-vector")));
    hub.process_message(k, ClientMessage::RegisterEntity(descriptor("kagari://t", "Kagari", "video/raw")));
    let actions = hub.create_link_for(k, EntityId::from("amata://s"), EntityId::from("kagari://t"), LinkId(11), UtcTime { secs: 5, nanos: 6 });
    match &actions[1] {
        HubAction::Notify(HubEvent::LinkCreated(l)) => {
            assert_eq!(l.link_id, LinkId(11));
            assert_eq!(l.source_app, "Amata");
            assert_eq!(l.target_app, "Kagari");
            assert_eq!(l.data_type, "application/x-moufu-vector");
            assert_eq!(l.created_at, UtcTime { secs: 5, nanos: 6 });
        },
        other => panic!("unexpected {:?}", other),
    }
    // destroy it again
    let actions = hub.process_message(k, ClientMessage::DestroyLink { link_id: LinkId(11) });
    assert_eq!(actions.len(), 2);
    assert!(matches!(actions[1], HubAction::Notify(HubEvent::LinkDestroyed(LinkId(11)))));
    assert!(hub.process_message(k, ClientMessage::DestroyLink { link_id: LinkId(11) }).is_empty());
    assert!(hub.get_links().is_empty());
}

#[test]
fn registering_rebinds_and_broadcasts_restored_links() {
    let saved = vec![LinkInfo {
        link_id: LinkId(3),
        source_app: "Amata".to_string(),
        source_entity: EntityId::from("a"),
        target_app: "Kagari".to_string(),
        target_entity: EntityId::from("b"),
        data_type: "t".to_string(),
        status: LinkStatus::Broken,
        last_synced_version: 0,
        created_at: UtcTime { secs: 0, nanos: 0 },
    }];
    let mut hub = HubState::new("0.1.0".to_string(), saved);
    let s1 = connect(&mut hub, "Amata");
    let s2 = connect(&mut hub, "Kagari");
    let actions = hub.process_message(s1, ClientMessage::RegisterEntity(descriptor("a", "Amata", "t")));
    assert_eq!(actions.len(), 1);
    let actions = hub.process_message(s2, ClientMessage::RegisterEntity(descriptor("b", "Kagari", "t")));
    // registered, rebound, then one LinkStatusChanged per session
    assert_eq!(actions.len(), 4);
    assert!(matches!(&actions[0], HubAction::Notify(HubEvent::EntityRegistered(_))));
    assert!(matches!(&actions[1], HubAction::Notify(HubEvent::LinkRebound(l)) if l.status == LinkStatus::Active));
    assert!(matches!(&actions[2], HubAction::Send { session_id, .. } if *session_id == s1));
    assert!(matches!(&actions[3], HubAction::Send { session_id, .. } if *session_id == s2));
}

#[test]
fn changes_are_coalesced_then_dispatched_to_linked_sessions() {
    let mut hub = HubState::new("0.1.0".to_string(), Vec::new());
    let s1 = connect(&mut hub, "Amata");
    let s2 = connect(&mut hub, "Kagari");
    hub.process_message(s1, ClientMessage::RegisterEntity(descriptor("amata://star", "Amata", "t")));
    hub.process_message(s2, ClientMessage::RegisterEntity(descriptor("kagari://clip", "Kagari", "t")));
    hub.process_message(s1, ClientMessage::CreateLink {
        source_entity: EntityId::from("amata://star"),
        target_entity: EntityId::from("kagari://clip"),
    });
    for v in 1..=5 {
        assert!(hub.process_message(s1, ClientMessage::NotifyChange(change("amata://star", v, true))).is_empty());
    }
    assert!(hub.next_ready_event().is_none());
    hub.tick();
    let event = hub.next_ready_event().unwrap();
    assert_eq!(event.version, 5);
    assert!(hub.next_ready_event().is_none());
    let actions = hub.dispatch_change(event);
    // only the owner of the link's target gets the update
    assert_eq!(actions.len(), 2);
    assert!(matches!(&actions[0], HubAction::Send { session_id, message: ServerMessage::EntityUpdated(e) } if *session_id == s2 && e.version == 5));
    assert!(matches!(&actions[1], HubAction::Notify(HubEvent::ChangeDispatched { subscribers_count: 1, .. })));
    // the state now reads back, also for the session that got no update
    let actions = hub.process_message(s1, ClientMessage::PullEntity { entity_id: EntityId::from("amata://star") });
    assert!(matches!(&actions[0], HubAction::Send { message: ServerMessage::EntityState { version: 5, .. }, .. }));
}

#[test]
fn change_without_links_reaches_no_session() {
    let mut hub = HubState::new("0.1.0".to_string(), Vec::new());
    let s1 = connect(&mut hub, "Amata");
    hub.process_message(s1, ClientMessage::RegisterEntity(descriptor("amata://star", "Amata", "t")));
    let actions = hub.dispatch_change(change("amata://star", 1, false));
    assert_eq!(actions.len(), 1);
    assert!(matches!(&actions[0], HubAction::Notify(HubEvent::ChangeDispatched { subscribers_count: 0, .. })));
}

#[test]
fn disconnect_removes_session_and_its_entities() {
    let mut hub = HubState::new("0.1.0".to_string(), Vec::new());
    let s1 = connect(&mut hub, "Amata");
    hub.process_message(s1, ClientMessage::RegisterEntity(descriptor("a", "Amata", "t")));
    assert_eq!(hub.get_entities().len(), 1);
    let actions = hub.handle_disconnect(s1);
    assert!(matches!(actions[0], HubAction::Notify(HubEvent::AppDisconnected(id)) if id == s1));
    assert!(hub.get_sessions().is_empty());
    assert!(hub.get_entities().is_empty());
    assert!(hub.process_message(s1, ClientMessage::Ping).is_empty());
}

#[test]
fn sessions_follow_handshakes_and_disconnects() {
    let mut hub = HubState::new("0.1.0".to_string(), Vec::new());
    let a = connect(&mut hub, "Amata");
    let b = connect(&mut hub, "Kagari");
    let c = connect(&mut hub, "Sketch");
    hub.handle_disconnect(b);
    hub.handle_disconnect(b);
    let sessions = hub.get_sessions();
    assert_eq!(sessions.len(), 2);
    assert_eq!(sessions[0].session_id, a);
    assert_eq!(sessions[0].app_name, "Amata");
    assert_eq!(sessions[1].session_id, c);
    assert_eq!(sessions[1].app_name, "Sketch");
    assert!(hub.process_message(b, ClientMessage::Ping).is_empty());
    assert_eq!(hub.process_message(c, ClientMessage::Ping).len(), 1);
}

#[test]
fn dispatched_change_sets_synced_version_of_sourced_links() {
    let mut hub = HubState::new("0.1.0".to_string(), Vec::new());
    let s1 = connect(&mut hub, "Amata");
    hub.process_message(s1, ClientMessage::RegisterEntity(descriptor("amata://star", "Amata", "t")));
    hub.process_message(s1, ClientMessage::CreateLink {
        source_entity: EntityId::from("amata://star"),
        target_entity: EntityId::from("kagari://clip"),
    });
    hub.process_message(s1, ClientMessage::CreateLink {
        source_entity: EntityId::from("kagari://clip"),
        target_entity: EntityId::from("amata://star"),
    });
    hub.dispatch_change(change("amata://star", 42, false));
    let links = hub.get_links();
    assert_eq!(links.len(), 2);
    for l in links {
        if l.source_entity == EntityId::from("amata://star") {
            assert_eq!(l.last_synced_version, 42);
        } else {
            assert_eq!(l.last_synced_version, 0);
        }
    }
}
