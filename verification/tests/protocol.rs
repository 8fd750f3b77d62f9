use moufu::client::{
    accept_handshake, create_link_message, handshake_message, notify_change_inline_message, pull_entity_message,
    register_entity_message, ConnectionError,
};
use moufu::persistence::LinkStore;
use moufu::protocol::{AppCapabilities, ClientMessage, EntityId, LinkId, PayloadTransport};
use moufu::text::{push_decimal, push_uuid};

#[test]
fn default_capabilities() {
    let c = AppCapabilities::default();
    assert!(c.supports_live_link);
    assert!(!c.supports_push_edits);
    assert!(!c.supports_delta_sync);
    assert!(c.supports_link_restoration);
    assert_eq!(c.supported_data_types, vec!["application/json".to_string()]);
}

#[test]
fn link_ids_are_random_v4() {
    let a = LinkId::new();
    let b = LinkId::default();
    assert_ne!(a, b);
    assert_eq!(uuid::Uuid::from_u128(a.0).get_version_num(), 4);
    assert_eq!(uuid::Uuid::from_u128(b.0).get_variant(), uuid::Variant::RFC4122);
}

#[test]
fn entity_id_text() {
    let id = EntityId::from("amata://artboard-1/vector-star-1");
    assert_eq!(id.as_str(), "amata://artboard-1/vector-star-1");
    assert_eq!(id, EntityId::from("amata://artboard-1/vector-star-1"));
    assert_ne!(id, EntityId::from("kagari://timeline-1"));
}

#[test]
fn link_store_keeps_its_path() {
    let store = LinkStore::new("/tmp/moufu/links_registry.json");
    assert_eq!(store.path(), "/tmp/moufu/links_registry.json");
}

#[test]
fn decimal_and_uuid_text() {
    let mut s = String::new();
    push_decimal(&mut s, 0);
    s.push(' ');
    push_decimal(&mut s, 1920 * 1080 * 4);
    s.push(' ');
    push_decimal(&mut s, u64::MAX);
    assert_eq!(s, format!("0 8294400 {}", u64::MAX));
    for bits in [0u128, u128::MAX, 0x40008000000000000000, uuid::Uuid::new_v4().as_u128()] {
        let mut t = String::new();
        push_uuid(&mut t, bits);
        assert_eq!(t, uuid::Uuid::from_u128(bits).to_string());
    }
}

#[test]
fn first_message_must_be_a_handshake() {
    let ok = accept_handshake(handshake_message("Amata", "1.0.0", AppCapabilities::default())).unwrap();
    assert_eq!(ok.0, "Amata");
    assert_eq!(ok.1, "1.0.0");
    let err = accept_handshake(ClientMessage::Ping).unwrap_err();
    assert_eq!(err, ConnectionError::FirstMessageNotHandshake);
}

#[test]
fn client_requests() {
    match register_entity_message(
        EntityId::from("kagari://timeline-1/track-2/clip-vector-1"),
        "Composited Vector Clip".to_string(),
        "application/x-moufu-vector".to_string(),
        "Kagari".to_string(),
        vec![("track".to_string(), "Track 2".to_string())],
    ) {
        ClientMessage::RegisterEntity(d) => {
            assert_eq!(d.id.as_str(), "kagari://timeline-1/track-2/clip-vector-1");
            assert_eq!(d.metadata, vec![("track".to_string(), "Track 2".to_string())]);
        },
        other => panic!("unexpected {:?}", other),
    }
    assert!(matches!(create_link_message(EntityId::from("a"), EntityId::from("b")), ClientMessage::CreateLink { .. }));
    assert!(matches!(pull_entity_message(EntityId::from("a")), ClientMessage::PullEntity { .. }));
    let before = chrono::Utc::now().timestamp();
    match notify_change_inline_message(EntityId::from("amata://artboard-1/vector-star-1"), 42, true, "{\"rotation\":45.0}".to_string()) {
        ClientMessage::NotifyChange(e) => {
            assert_eq!(e.version, 42);
            assert!(e.is_transient);
            assert_eq!(e.entity_id.as_str(), "amata://artboard-1/vector-star-1");
            assert!(e.timestamp.secs >= before);
            assert!(matches!(e.payload, PayloadTransport::Inline(ref t) if t == "{\"rotation\":45.0}"));
            assert!(e.delta.is_none());
        },
        other => panic!("unexpected {:?}", other),
    }
}
