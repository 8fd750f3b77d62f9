use moufu::graph::LinkGraph;
use moufu::protocol::{
    ChangeEvent, EntityDescriptor, EntityId, LinkId, LinkInfo, LinkStatus, PayloadTransport, UtcTime,
};

fn now() -> UtcTime {
    let t = chrono::Utc::now();
    UtcTime { secs: t.timestamp(), nanos: t.timestamp_subsec_nanos() }
}

fn descriptor(id: &EntityId, name: &str, app: &str) -> EntityDescriptor {
    EntityDescriptor {
        id: id.clone(),
        name: name.to_string(),
        data_type: "application/x-moufu-vector".to_string(),
        source_app: app.to_string(),
        metadata: Vec::new(),
    }
}

fn link(id: u128, source: &EntityId, target: &EntityId, status: LinkStatus) -> LinkInfo {
    LinkInfo {
        link_id: LinkId(id),
        source_app: "Amata".to_string(),
        source_entity: source.clone(),
        target_app: "Kagari".to_string(),
        target_entity: target.clone(),
        data_type: "application/x-moufu-vector".to_string(),
        status,
        last_synced_version: 0,
        created_at: UtcTime { secs: 1_700_000_000, nanos: 0 },
    }
}

#[test]
fn test_link_creation_and_rebind() {
    let mut graph = LinkGraph::new();
    let session1 = uuid::Uuid::new_v4().as_u128();
    let session2 = uuid::Uuid::new_v4().as_u128();

    let source_id = EntityId::from("amata://artboard-1/star");
    let target_id = EntityId::from("kagari://comp-1/clip");

    // 1. Simulate restoring a persisted link before entities register
    let persisted_link = LinkInfo {
        link_id: LinkId::new(),
        source_app: "Amata".to_string(),
        source_entity: source_id.clone(),
        target_app: "Kagari".to_string(),
        target_entity: target_id.clone(),
        data_type: "application/x-moufu-vector".to_string(),
        status: LinkStatus::Broken,
        last_synced_version: 0,
        created_at: now(),
    };
    graph.restore_link(persisted_link);

    // Link should initially be Broken because entities are missing
    let links = graph.list_links();
    assert_eq!(links[0].status, LinkStatus::Broken);

    // 2. Register Amata's entity
    graph.register_entity(session1, EntityDescriptor {
        id: source_id.clone(),
        name: "Star".to_string(),
        data_type: "application/x-moufu-vector".to_string(),
        source_app: "Amata".to_string(),
        metadata: Vec::new(),
    });
    let activated = graph.rebind_links_for_entity(&source_id);
    assert!(activated.is_empty(), "Kagari is still missing, link should remain Broken");

    // 3. Register Kagari's entity
    graph.register_entity(session2, EntityDescriptor {
        id: target_id.clone(),
        name: "Clip".to_string(),
        data_type: "application/x-moufu-vector".to_string(),
        source_app: "Kagari".to_string(),
        metadata: Vec::new(),
    });
    let activated = graph.rebind_links_for_entity(&target_id);
    assert_eq!(activated.len(), 1, "Both entities present; link must rebind to Active");
    assert_eq!(activated[0].status, LinkStatus::Active);
}

#[test]
fn restored_link_is_active_when_both_entities_present() {
    let mut graph = LinkGraph::new();
    let a = EntityId::from("amata://a");
    let b = EntityId::from("kagari://b");
    graph.register_entity(1, descriptor(&a, "A", "Amata"));
    graph.register_entity(2, descriptor(&b, "B", "Kagari"));
    graph.restore_link(link(7, &a, &b, LinkStatus::Broken));
    let links = graph.list_links();
    assert_eq!(links.len(), 1);
    assert_eq!(links[0].status, LinkStatus::Active);
    assert_eq!(links[0].link_id, LinkId(7));
}

#[test]
fn register_then_get_entity_reads_back() {
    let mut graph = LinkGraph::new();
    let a = EntityId::from("amata://doc-1");
    assert!(graph.get_entity(&a).is_none());
    graph.register_entity(5, descriptor(&a, "Doc", "Amata"));
    let d = graph.get_entity(&a).unwrap();
    assert_eq!(d.name, "Doc");
    assert_eq!(d.source_app, "Amata");
    // re-registering replaces
    graph.register_entity(6, descriptor(&a, "Doc 2", "Amata"));
    assert_eq!(graph.get_entity(&a).unwrap().name, "Doc 2");
    assert_eq!(graph.list_entities().len(), 1);
}

#[test]
fn unregister_marks_links_on_both_ends_broken() {
    let mut graph = LinkGraph::new();
    let a = EntityId::from("amata://a");
    let b = EntityId::from("kagari://b");
    let c = EntityId::from("kagari://c");
    graph.register_entity(1, descriptor(&a, "A", "Amata"));
    graph.register_entity(2, descriptor(&b, "B", "Kagari"));
    graph.register_entity(2, descriptor(&c, "C", "Kagari"));
    let l1 = graph.create_link("Amata".to_string(), a.clone(), "Kagari".to_string(), b.clone(), "t".to_string());
    let l2 = graph.create_link("Kagari".to_string(), b.clone(), "Amata".to_string(), a.clone(), "t".to_string());
    let l3 = graph.create_link("Kagari".to_string(), b.clone(), "Kagari".to_string(), c.clone(), "t".to_string());
    graph.unregister_entity(&a);
    assert!(graph.get_entity(&a).is_none());
    assert!(graph.get_entity(&b).is_some());
    let links = graph.list_links();
    assert_eq!(links.len(), 3);
    for l in links {
        if l.link_id == l1.link_id || l.link_id == l2.link_id {
            assert_eq!(l.status, LinkStatus::Broken);
        } else {
            assert_eq!(l.link_id, l3.link_id);
            assert_eq!(l.status, LinkStatus::Active);
        }
    }
}

#[test]
fn update_then_get_entity_state_and_synced_versions() {
    let mut graph = LinkGraph::new();
    let a = EntityId::from("amata://a");
    let b = EntityId::from("kagari://b");
    assert!(graph.get_entity_state(&a).is_none());
    graph.restore_link(link(1, &a, &b, LinkStatus::Broken));
    graph.restore_link(link(2, &b, &a, LinkStatus::Broken));
    let event = ChangeEvent {
        entity_id: a.clone(),
        version: 42,
        is_transient: true,
        timestamp: now(),
        payload: PayloadTransport::Inline("{\"rotation\":45.0}".to_string()),
        delta: None,
    };
    graph.update_entity_state(&event);
    let (v, p) = graph.get_entity_state(&a).unwrap();
    assert_eq!(v, 42);
    match p {
        PayloadTransport::Inline(text) => assert_eq!(text, "{\"rotation\":45.0}"),
        _ => panic!("wrong payload"),
    }
    for l in graph.list_links() {
        if l.link_id == LinkId(1) {
            assert_eq!(l.last_synced_version, 42);
        } else {
            assert_eq!(l.last_synced_version, 0);
        }
    }
}

#[test]
fn create_link_uses_fresh_v4_ids_and_current_time() {
    let mut graph = LinkGraph::new();
    let a = EntityId::from("a");
    let b = EntityId::from("b");
    let before = chrono::Utc::now().timestamp();
    let l1 = graph.create_link("A".to_string(), a.clone(), "B".to_string(), b.clone(), "t".to_string());
    let l2 = graph.create_link("A".to_string(), a.clone(), "B".to_string(), b.clone(), "t".to_string());
    let after = chrono::Utc::now().timestamp();
    assert_ne!(l1.link_id, l2.link_id);
    assert_eq!(uuid::Uuid::from_u128(l1.link_id.0).get_version_num(), 4);
    assert!(l1.created_at.secs >= before && l1.created_at.secs <= after);
    assert_eq!(l1.status, LinkStatus::Active);
    assert_eq!(l1.last_synced_version, 0);
    let ids: Vec<LinkId> = graph.get_links_for_source(&a).iter().map(|l| l.link_id).collect();
    assert_eq!(ids, vec![l1.link_id, l2.link_id]);
    assert!(graph.get_links_for_source(&b).is_empty());
}

#[test]
fn destroy_link_removes_it_from_source_lookup() {
    let mut graph = LinkGraph::new();
    let a = EntityId::from("a");
    let b = EntityId::from("b");
    graph.restore_link(link(1, &a, &b, LinkStatus::Broken));
    graph.restore_link(link(2, &a, &b, LinkStatus::Broken));
    let removed = graph.destroy_link(&LinkId(1)).unwrap();
    assert_eq!(removed.link_id, LinkId(1));
    assert!(graph.destroy_link(&LinkId(1)).is_none());
    let ids: Vec<LinkId> = graph.get_links_for_source(&a).iter().map(|l| l.link_id).collect();
    assert_eq!(ids, vec![LinkId(2)]);
    assert_eq!(graph.list_links().len(), 1);
}

#[test]
fn disconnect_unregisters_owned_entities() {
    let mut graph = LinkGraph::new();
    let a = EntityId::from("a");
    let b = EntityId::from("b");
    let c = EntityId::from("c");
    graph.register_entity(1, descriptor(&a, "A", "Amata"));
    graph.register_entity(2, descriptor(&b, "B", "Kagari"));
    graph.register_entity(1, descriptor(&c, "C", "Amata"));
    graph.restore_link(link(9, &a, &b, LinkStatus::Active));
    graph.handle_app_disconnected(1);
    assert!(graph.get_entity(&a).is_none());
    assert!(graph.get_entity(&c).is_none());
    assert!(graph.get_entity(&b).is_some());
    assert_eq!(graph.list_links()[0].status, LinkStatus::Broken);
}
