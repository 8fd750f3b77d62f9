//! The hub's decisions: sessions, entity registration, links and change
//! routing. Each request is a step from one state to the next plus the actions
//! to perform (messages to send to sessions, events for monitors, persisting
//! the link topology); the runtime around it performs them.

use vstd::prelude::*;
use crate::assoc::{last_index, lemma_last_index, lemma_last_index_is, lemma_last_index_none, unique_keys};
use crate::coalesce::{CoalescerView, CoalescingDispatcher, pending_transient, submit_spec, tick_spec};
use crate::graph::{
    LinkGraph, LinkGraphView, SessionRecord, SessionRecordView, add_link, descriptor_view_key,
    descriptors_view, destroy, disconnect, empty_graph, endpoints_registered, enumerates, feeds, index_list,
    indexed, lemma_linked_ids_contains, lemma_rebind_reaches_endpoint_links, link_feeds, link_view_key, links_keyed,
    links_view, drop_from_index, other_than,
    lemma_rebind, rebind, linked_ids, record_state, registered, restored_status, unregister, with_status,
};
use crate::protocol::{
    AppCapabilities, AppCapabilitiesView, AppSessionId, ChangeEvent, ChangeEventView, ClientMessage, ClientMessageView,
    EntityDescriptor, EntityDescriptorView, EntityId, LinkId, LinkInfo, LinkInfoView, LinkStatus,
    ServerMessage, ServerMessageView, UtcTime, is_clock_reading, is_v4_uuid, new_v4_bits, utc_now,
};

verus! {

/// Abstract value of [`HubEvent`].
pub enum HubEventView {
    AppConnected(SessionRecordView),
    AppDisconnected(AppSessionId),
    EntityRegistered(EntityDescriptorView),
    EntityUnregistered(Seq<char>),
    LinkCreated(LinkInfoView),
    LinkDestroyed(u128),
    LinkRebound(LinkInfoView),
    ChangeDispatched { event: ChangeEventView, subscribers_count: usize },
}

/// Event broadcast by the hub to monitors (control center, CLI).
#[derive(Debug)]
pub enum HubEvent {
    AppConnected(SessionRecord),
    AppDisconnected(AppSessionId),
    EntityRegistered(EntityDescriptor),
    EntityUnregistered(EntityId),
    LinkCreated(LinkInfo),
    LinkDestroyed(LinkId),
    LinkRebound(LinkInfo),
    ChangeDispatched { event: ChangeEvent, subscribers_count: usize },
}

impl View for HubEvent {
    type V = HubEventView;

    open spec fn view(&self) -> HubEventView {
        match self {
            HubEvent::AppConnected(r) => HubEventView::AppConnected(r@),
            HubEvent::AppDisconnected(id) => HubEventView::AppDisconnected(*id),
            HubEvent::EntityRegistered(d) => HubEventView::EntityRegistered(d@),
            HubEvent::EntityUnregistered(id) => HubEventView::EntityUnregistered(id@),
            HubEvent::LinkCreated(l) => HubEventView::LinkCreated(l@),
            HubEvent::LinkDestroyed(id) => HubEventView::LinkDestroyed(id.0),
            HubEvent::LinkRebound(l) => HubEventView::LinkRebound(l@),
            HubEvent::ChangeDispatched { event, subscribers_count } => HubEventView::ChangeDispatched {
                event: event@,
                subscribers_count: *subscribers_count,
            },
        }
    }
}

impl Clone for HubEvent {
    fn clone(&self) -> (res: Self)
        ensures
            res@ == self@,
    {
        match self {
            HubEvent::AppConnected(r) => HubEvent::AppConnected(r.clone()),
            HubEvent::AppDisconnected(id) => HubEvent::AppDisconnected(*id),
            HubEvent::EntityRegistered(d) => HubEvent::EntityRegistered(d.clone()),
            HubEvent::EntityUnregistered(id) => HubEvent::EntityUnregistered(id.clone()),
            HubEvent::LinkCreated(l) => HubEvent::LinkCreated(l.clone()),
            HubEvent::LinkDestroyed(id) => HubEvent::LinkDestroyed(*id),
            HubEvent::LinkRebound(l) => HubEvent::LinkRebound(l.clone()),
            HubEvent::ChangeDispatched { event, subscribers_count } => HubEvent::ChangeDispatched {
                event: event.clone(),
                subscribers_count: *subscribers_count,
            },
        }
    }
}

/// Abstract value of [`HubAction`].
pub enum HubActionView {
    Send { session_id: AppSessionId, message: ServerMessageView },
    Notify(HubEventView),
    PersistLinks,
}

/// Something the runtime must do after a step of the hub.
#[derive(Debug)]
pub enum HubAction {
    /// Send `message` to the connected session `session_id`.
    Send { session_id: AppSessionId, message: ServerMessage },
    /// Broadcast an event to monitors.
    Notify(HubEvent),
    /// Save the current link topology ([`HubState::get_links`]) to the store.
    PersistLinks,
}

impl View for HubAction {
    type V = HubActionView;

    open spec fn view(&self) -> HubActionView {
        match self {
            HubAction::Send { session_id, message } => HubActionView::Send {
                session_id: *session_id,
                message: message@,
            },
            HubAction::Notify(e) => HubActionView::Notify(e@),
            HubAction::PersistLinks => HubActionView::PersistLinks,
        }
    }
}

/// The views of a list of actions.
pub open spec fn actions_view(s: Seq<HubAction>) -> Seq<HubActionView> {
    s.map_values(|a: HubAction| a@)
}

/// The views of a list of session records.
pub open spec fn sessions_view(s: Seq<SessionRecord>) -> Seq<SessionRecordView> {
    s.map_values(|r: SessionRecord| r@)
}

/// The id of a session record.
pub open spec fn session_key() -> spec_fn(SessionRecordView) -> AppSessionId {
    |r: SessionRecordView| r.session_id
}

/// `s` with `r` in place of the record of its session, or appended.
pub open spec fn put_session(s: Seq<SessionRecordView>, r: SessionRecordView) -> Seq<SessionRecordView> {
    let i = last_index(s, session_key(), r.session_id);
    if i >= 0 {
        s.update(i, r)
    } else {
        s.push(r)
    }
}

/// `s` without the record of session `id`.
pub open spec fn drop_session(s: Seq<SessionRecordView>, id: AppSessionId) -> Seq<SessionRecordView> {
    let i = last_index(s, session_key(), id);
    if i >= 0 {
        s.remove(i)
    } else {
        s
    }
}

/// Session `id` is connected.
pub open spec fn is_connected(s: Seq<SessionRecordView>, id: AppSessionId) -> bool {
    last_index(s, session_key(), id) >= 0
}

/// One `Send` of `msg` to every session of `s`, in order.
pub open spec fn broadcast(s: Seq<SessionRecordView>, msg: ServerMessageView) -> Seq<HubActionView> {
    s.map_values(|r: SessionRecordView| HubActionView::Send { session_id: r.session_id, message: msg })
}

/// A `Send` of `msg` to session `id` when it is connected; nothing otherwise.
pub open spec fn reply(s: Seq<SessionRecordView>, id: AppSessionId, msg: ServerMessageView) -> Seq<HubActionView> {
    if is_connected(s, id) {
        seq![HubActionView::Send { session_id: id, message: msg }]
    } else {
        Seq::empty()
    }
}

/// The state and actions after session `session_id` opens with the given
/// application details: its record replaces any with the same id, the
/// handshake is acknowledged to it, and the connection is reported.
pub open spec fn handshake_outcome(
    h: HubView,
    session_id: AppSessionId,
    connected_at: UtcTime,
    app_name: Seq<char>,
    app_version: Seq<char>,
    capabilities: AppCapabilitiesView,
) -> (HubView, Seq<HubActionView>) {
    let record = SessionRecordView {
        session_id: session_id,
        app_name: app_name,
        app_version: app_version,
        capabilities: capabilities,
        connected_at: connected_at,
    };
    (
        HubView { sessions: put_session(h.sessions, record), ..h },
        seq![
            HubActionView::Send {
                session_id: session_id,
                message: ServerMessageView::HandshakeAck { session_id: session_id, server_version: h.server_version },
            },
            HubActionView::Notify(HubEventView::AppConnected(record)),
        ],
    )
}

/// The application of entity `e`, or "Unknown" when it is not registered.
pub open spec fn app_of(g: LinkGraphView, e: Seq<char>) -> Seq<char> {
    if g.entities.contains_key(e) {
        g.entities[e].source_app
    } else {
        "Unknown"@
    }
}

/// The data type of entity `e`, or "application/octet-stream" when it is not
/// registered.
pub open spec fn data_type_of(g: LinkGraphView, e: Seq<char>) -> Seq<char> {
    if g.entities.contains_key(e) {
        g.entities[e].data_type
    } else {
        "application/octet-stream"@
    }
}

/// The link a `CreateLink` request makes, given its id and creation time.
pub open spec fn requested_link(g: LinkGraphView, source: Seq<char>, target: Seq<char>, id: u128, t: UtcTime) -> LinkInfoView {
    LinkInfoView {
        link_id: id,
        source_app: app_of(g, source),
        source_entity: source,
        target_app: app_of(g, target),
        target_entity: target,
        data_type: data_type_of(g, source),
        status: LinkStatus::Active,
        last_synced_version: 0,
        created_at: t,
    }
}

/// The state and actions after session `session` asks for a link from
/// `source` to `target` and the link gets id `id` and creation time `t`: the
/// link is stored, the topology persisted, the creation reported, and the
/// link sent back to the requester when it is connected.
pub open spec fn create_link_outcome(
    h: HubView,
    session: AppSessionId,
    source: Seq<char>,
    target: Seq<char>,
    id: u128,
    t: UtcTime,
) -> (HubView, Seq<HubActionView>) {
    let l = requested_link(h.graph, source, target, id, t);
    (
        HubView { graph: add_link(h.graph, l), ..h },
        seq![HubActionView::PersistLinks, HubActionView::Notify(HubEventView::LinkCreated(l))] + reply(
            h.sessions,
            session,
            ServerMessageView::LinkStatusChanged(l),
        ),
    )
}

/// For each re-activated link in order: report it, then send it to every session.
pub open spec fn rebound_actions(activated: Seq<LinkInfoView>, sessions: Seq<SessionRecordView>) -> Seq<HubActionView>
    decreases activated.len(),
{
    if activated.len() == 0 {
        Seq::empty()
    } else {
        rebound_actions(activated.drop_last(), sessions) + seq![
            HubActionView::Notify(HubEventView::LinkRebound(activated.last())),
        ] + broadcast(sessions, ServerMessageView::LinkStatusChanged(activated.last()))
    }
}

/// The state and actions after `session` registers `d`: the entity is
/// recorded, the broken links recorded with it whose entities are now both
/// present are re-activated, the registration reported, and each
/// re-activated link reported and sent to every session.
pub open spec fn register_outcome(h: HubView, session: AppSessionId, d: EntityDescriptorView) -> (HubView, Seq<HubActionView>) {
    let g1 = registered(h.graph, session, d);
    let (links, activated) = rebind(g1.links, g1.entities, linked_ids(g1, d.id));
    (
        HubView { graph: LinkGraphView { links: links, ..g1 }, ..h },
        seq![HubActionView::Notify(HubEventView::EntityRegistered(d))] + rebound_actions(activated, h.sessions),
    )
}

/// The message of the error answering a pull of an entity with no state.
pub open spec fn not_found_message(id: Seq<char>) -> Seq<char> {
    "Entity '"@ + id + "' has no recorded state."@
}

/// The answer to a pull of entity `id`.
pub open spec fn pull_answer(g: LinkGraphView, id: Seq<char>) -> ServerMessageView {
    if g.entity_states.contains_key(id) {
        ServerMessageView::EntityState {
            entity_id: id,
            version: g.entity_states[id].0,
            payload: g.entity_states[id].1,
        }
    } else {
        ServerMessageView::Error { code: "ENTITY_NOT_FOUND"@, message: not_found_message(id) }
    }
}

/// The state and actions after session `session` sends `msg`, for every
/// message but `CreateLink` (see [`create_link_outcome`]).
pub open spec fn process_outcome(h: HubView, session: AppSessionId, msg: ClientMessageView) -> (HubView, Seq<HubActionView>) {
    match msg {
        ClientMessageView::Handshake { .. } => (h, Seq::empty()),
        ClientMessageView::RegisterEntity(d) => register_outcome(h, session, d),
        ClientMessageView::UnregisterEntity { entity_id } => (
            HubView { graph: unregister(h.graph, entity_id), ..h },
            seq![HubActionView::Notify(HubEventView::EntityUnregistered(entity_id))],
        ),
        ClientMessageView::CreateLink { .. } => (h, Seq::empty()),
        ClientMessageView::DestroyLink { link_id } => if h.graph.links.contains_key(link_id) {
            (
                HubView { graph: destroy(h.graph, link_id), ..h },
                seq![HubActionView::PersistLinks, HubActionView::Notify(HubEventView::LinkDestroyed(link_id))],
            )
        } else {
            (h, Seq::empty())
        },
        ClientMessageView::NotifyChange(e) => (HubView { coalescer: submit_spec(h.coalescer, e), ..h }, Seq::empty()),
        ClientMessageView::PullEntity { entity_id } => (h, reply(h.sessions, session, pull_answer(h.graph, entity_id))),
        ClientMessageView::Ping => (h, reply(h.sessions, session, ServerMessageView::Pong)),
    }
}

/// The predicate "the session of this record registered the target entity
/// of a stored link sourced from `entity`".
pub open spec fn subscribed(g: LinkGraphView, entity: Seq<char>) -> spec_fn(SessionRecordView) -> bool {
    |r: SessionRecordView| feeds(g, entity, r.session_id)
}

/// The connected sessions linked to changes of `entity`: those that
/// registered the target entity of a link sourced from `entity`, in order.
pub open spec fn subscribers(h: HubView, entity: Seq<char>) -> Seq<SessionRecordView> {
    h.sessions.filter(subscribed(h.graph, entity))
}

/// The state and actions after the released change `e` is dispatched: the
/// entity's state is recorded, `e` is sent to every linked session, and the
/// dispatch is reported with the number of sessions it reached.
pub open spec fn dispatch_outcome(h: HubView, e: ChangeEventView) -> (HubView, Seq<HubActionView>) {
    let subs = subscribers(h, e.entity_id);
    (
        HubView { graph: record_state(h.graph, e), ..h },
        broadcast(subs, ServerMessageView::EntityUpdated(e)) + seq![
            HubActionView::Notify(HubEventView::ChangeDispatched { event: e, subscribers_count: subs.len() as usize }),
        ],
    )
}


/// Law (read after write): once a change has been dispatched, a connected
/// session pulling that entity gets the change's version and payload.
pub proof fn lemma_pull_after_dispatch(h: HubView, e: ChangeEventView, session: AppSessionId)
    requires
        is_connected(h.sessions, session),
    ensures
        process_outcome(dispatch_outcome(h, e).0, session, ClientMessageView::PullEntity { entity_id: e.entity_id }).1
            == seq![
            HubActionView::Send {
                session_id: session,
                message: ServerMessageView::EntityState { entity_id: e.entity_id, version: e.version, payload: e.payload },
            },
        ],
{
}

/// Law (re-binding on registration): in a hub whose graph lists every link
/// under its endpoints (see [`HubState::lemma_hub_invariants`]), registering
/// an entity re-activates every `Broken` stored link that has it as source or
/// as target and whose two entities are registered once it is.
pub proof fn lemma_register_reactivates(h: HubView, session: AppSessionId, d: EntityDescriptorView, id: u128)
    requires
        indexed(h.graph),
        links_keyed(h.graph.links),
        h.graph.links.contains_key(id),
        h.graph.links[id].source_entity == d.id || h.graph.links[id].target_entity == d.id,
        h.graph.links[id].status == LinkStatus::Broken,
        endpoints_registered(registered(h.graph, session, d).entities, h.graph.links[id]),
    ensures
        register_outcome(h, session, d).0.graph.links[id].status == LinkStatus::Active,
{
    let g1 = registered(h.graph, session, d);
    assert(indexed(g1)) by {
        assert forall|x: u128| #[trigger] g1.links.contains_key(x) implies {
            &&& index_list(g1.source_to_links, g1.links[x].source_entity).contains(x)
            &&& index_list(g1.target_to_links, g1.links[x].target_entity).contains(x)
        } by {
            assert(h.graph.links.contains_key(x));
        }
    }
    lemma_rebind_reaches_endpoint_links(g1, d.id, id);
}

/// Law (version sync): in a hub whose graph lists every link under its
/// endpoints, a dispatched change sets the last synced version of every
/// stored link sourced from its entity.
pub proof fn lemma_dispatch_syncs_links(h: HubView, e: ChangeEventView, id: u128)
    requires
        indexed(h.graph),
        h.graph.links.contains_key(id),
        h.graph.links[id].source_entity == e.entity_id,
    ensures
        dispatch_outcome(h, e).0.graph.links.contains_key(id),
        dispatch_outcome(h, e).0.graph.links[id].last_synced_version == e.version,
{
}

/// Law (live link): a dispatched change is sent once to each connected
/// session that registered the target of a link sourced from the changed
/// entity, in the order of the sessions, to no other session, and reported
/// with the number of sessions it reached.
pub proof fn lemma_dispatch_reaches_linked_sessions(h: HubView, e: ChangeEventView)
    ensures
        ({
            let acts = dispatch_outcome(h, e).1;
            let subs = subscribers(h, e.entity_id);
            &&& acts.len() == subs.len() + 1
            &&& forall|i: int| 0 <= i < subs.len() ==> #[trigger] acts[i] == (HubActionView::Send {
                session_id: subs[i].session_id,
                message: ServerMessageView::EntityUpdated(e),
            })
            &&& acts[subs.len() as int] == HubActionView::Notify(
                HubEventView::ChangeDispatched { event: e, subscribers_count: subs.len() as usize },
            )
            &&& forall|i: int| 0 <= i < subs.len() ==> h.sessions.contains(#[trigger] subs[i])
                && feeds(h.graph, e.entity_id, subs[i].session_id)
            &&& forall|i: int| 0 <= i < h.sessions.len() && feeds(h.graph, e.entity_id, #[trigger] h.sessions[i].session_id)
                ==> subs.contains(h.sessions[i])
        }),
{
    let subs = subscribers(h, e.entity_id);
    let p = subscribed(h.graph, e.entity_id);
    assert forall|i: int| 0 <= i < subs.len() implies h.sessions.contains(#[trigger] subs[i])
        && feeds(h.graph, e.entity_id, subs[i].session_id) by {
        h.sessions.lemma_filter_pred(p, i);
        assert(subs.contains(subs[i]));
        h.sessions.lemma_filter_contains_rev(p, subs[i]);
    }
    assert forall|i: int| 0 <= i < h.sessions.len() && feeds(h.graph, e.entity_id, #[trigger] h.sessions[i].session_id)
        implies subs.contains(h.sessions[i]) by {
        h.sessions.lemma_filter_contains(p, i);
    }
}

/// Law (live link, stated on the links themselves): a dispatched change is
/// sent to every connected session that registered the target entity of
/// any stored link sourced from the changed entity, and to no other session;
/// the last action reports the change with the number of sends; the
/// entity's recorded state becomes the change's, and the sessions and
/// registrations do not change.
pub proof fn lemma_dispatch_targets(h: HubView, e: ChangeEventView)
    ensures
        ({
            let (h2, acts) = dispatch_outcome(h, e);
            let msg = ServerMessageView::EntityUpdated(e);
            &&& acts.len() >= 1
            &&& acts[acts.len() - 1] == HubActionView::Notify(
                HubEventView::ChangeDispatched { event: e, subscribers_count: (acts.len() - 1) as usize },
            )
            &&& forall|i: int, id: u128|
                #![trigger h.sessions[i], h.graph.links[id]]
                0 <= i < h.sessions.len() && h.graph.links.contains_key(id) && h.graph.links[id].source_entity
                    == e.entity_id && h.graph.entity_owners.contains_key(h.graph.links[id].target_entity)
                    && h.graph.entity_owners[h.graph.links[id].target_entity] == h.sessions[i].session_id
                    ==> acts.contains(HubActionView::Send { session_id: h.sessions[i].session_id, message: msg })
            &&& forall|k: int| #![trigger acts[k]] 0 <= k < acts.len() - 1 ==> exists|i: int, id: u128|
                #![trigger h.sessions[i], h.graph.links[id]]
                0 <= i < h.sessions.len() && acts[k] == (HubActionView::Send {
                    session_id: h.sessions[i].session_id,
                    message: msg,
                }) && h.graph.links.contains_key(id) && h.graph.links[id].source_entity == e.entity_id
                    && h.graph.entity_owners.contains_key(h.graph.links[id].target_entity)
                    && h.graph.entity_owners[h.graph.links[id].target_entity] == h.sessions[i].session_id
            &&& h2.graph.entity_states == h.graph.entity_states.insert(e.entity_id, (e.version, e.payload))
            &&& h2.graph.entities == h.graph.entities
            &&& h2.graph.entity_owners == h.graph.entity_owners
            &&& h2.sessions == h.sessions
            &&& forall|lid: u128| #[trigger] h2.graph.links.contains_key(lid) <==> h.graph.links.contains_key(lid)
            &&& forall|lid: u128| #[trigger] h.graph.links.contains_key(lid) ==> h2.graph.links[lid] == if index_list(
                h.graph.source_to_links,
                e.entity_id,
            ).contains(lid) {
                LinkInfoView { last_synced_version: e.version, ..h.graph.links[lid] }
            } else {
                h.graph.links[lid]
            }
        }),
{
    lemma_dispatch_reaches_linked_sessions(h, e);
    let (h2, acts) = dispatch_outcome(h, e);
    let subs = subscribers(h, e.entity_id);
    let msg = ServerMessageView::EntityUpdated(e);
    let g = h.graph;
    assert forall|i: int, id: u128|
        #![trigger h.sessions[i], h.graph.links[id]]
        0 <= i < h.sessions.len() && g.links.contains_key(id) && g.links[id].source_entity == e.entity_id
            && g.entity_owners.contains_key(g.links[id].target_entity) && g.entity_owners[g.links[id].target_entity]
            == h.sessions[i].session_id implies acts.contains(
        HubActionView::Send { session_id: h.sessions[i].session_id, message: msg },
    ) by {
        assert(link_feeds(g, g.links[id], e.entity_id, h.sessions[i].session_id));
        assert(feeds(g, e.entity_id, h.sessions[i].session_id));
        assert(subs.contains(h.sessions[i]));
        let k = choose|k: int| 0 <= k < subs.len() && subs[k] == h.sessions[i];
        assert(acts[k] == HubActionView::Send { session_id: h.sessions[i].session_id, message: msg });
    }
    assert forall|k: int| #![trigger acts[k]] 0 <= k < acts.len() - 1 implies exists|i: int, id: u128|
        #![trigger h.sessions[i], h.graph.links[id]]
        0 <= i < h.sessions.len() && acts[k] == (HubActionView::Send {
            session_id: h.sessions[i].session_id,
            message: msg,
        }) && g.links.contains_key(id) && g.links[id].source_entity == e.entity_id
            && g.entity_owners.contains_key(g.links[id].target_entity) && g.entity_owners[g.links[id].target_entity]
            == h.sessions[i].session_id by {
        assert(h.sessions.contains(subs[k]));
        assert(feeds(g, e.entity_id, subs[k].session_id));
        let i = choose|i: int| 0 <= i < h.sessions.len() && h.sessions[i] == subs[k];
        let id = choose|id: u128| #[trigger] g.links.contains_key(id) && link_feeds(g, g.links[id], e.entity_id, subs[k].session_id);
        assert(h.sessions[i] == subs[k]);
        assert(g.links[id] == g.links[id]);
    }
}

/// Law (unregistering one entity): an `UnregisterEntity` request removes the
/// registration, owner and recorded state of exactly that entity; every
/// other entity keeps its registration and owner; a stored link listed under
/// that entity (as source or as target) becomes `Broken` with nothing else
/// changed, and every other link is unchanged; in a graph that lists every
/// link under its endpoints, every link to or from the entity is `Broken`;
/// the sessions and the coalescer do not change, and the only action
/// reports the unregistration.
pub proof fn lemma_unregister_request(h: HubView, session: AppSessionId, id: Seq<char>)
    ensures
        ({
            let (h2, acts) = process_outcome(h, session, ClientMessageView::UnregisterEntity { entity_id: id });
            &&& h2.graph.entities == h.graph.entities.remove(id)
            &&& h2.graph.entity_owners == h.graph.entity_owners.remove(id)
            &&& h2.graph.entity_states == h.graph.entity_states.remove(id)
            &&& forall|lid: u128| #[trigger] h2.graph.links.contains_key(lid) <==> h.graph.links.contains_key(lid)
            &&& forall|lid: u128| #[trigger] h.graph.links.contains_key(lid) ==> h2.graph.links[lid] == if index_list(
                h.graph.source_to_links,
                id,
            ).contains(lid) || index_list(h.graph.target_to_links, id).contains(lid) {
                LinkInfoView { status: LinkStatus::Broken, ..h.graph.links[lid] }
            } else {
                h.graph.links[lid]
            }
            &&& indexed(h.graph) ==> forall|lid: u128| #[trigger] h.graph.links.contains_key(lid) && (
            h.graph.links[lid].source_entity == id || h.graph.links[lid].target_entity == id)
                ==> h2.graph.links[lid].status == LinkStatus::Broken
            &&& h2.graph.source_to_links == h.graph.source_to_links
            &&& h2.graph.target_to_links == h.graph.target_to_links
            &&& h2.sessions == h.sessions
            &&& h2.coalescer == h.coalescer
            &&& acts == seq![HubActionView::Notify(HubEventView::EntityUnregistered(id))]
        }),
{
    let h2 = process_outcome(h, session, ClientMessageView::UnregisterEntity { entity_id: id }).0;
    assert forall|lid: u128| #[trigger] h.graph.links.contains_key(lid) implies h2.graph.links[lid] == if index_list(
        h.graph.source_to_links,
        id,
    ).contains(lid) || index_list(h.graph.target_to_links, id).contains(lid) {
        LinkInfoView { status: LinkStatus::Broken, ..h.graph.links[lid] }
    } else {
        h.graph.links[lid]
    } by {
        lemma_linked_ids_contains(h.graph, id, lid);
    }
    if indexed(h.graph) {
        assert forall|lid: u128| #[trigger] h.graph.links.contains_key(lid) && (h.graph.links[lid].source_entity == id
            || h.graph.links[lid].target_entity == id) implies h2.graph.links[lid].status == LinkStatus::Broken by {
            lemma_linked_ids_contains(h.graph, id, lid);
        }
    }
}

/// Law (destroying a link): a `DestroyLink` request for a stored link
/// removes exactly that link, drops its id from the lists of its two
/// entities, asks for the topology to be persisted and reports the removal,
/// in that order, and nothing else; for an id that is not stored it changes
/// nothing and does nothing.
pub proof fn lemma_destroy_request(h: HubView, session: AppSessionId, id: u128)
    ensures
        ({
            let (h2, acts) = process_outcome(h, session, ClientMessageView::DestroyLink { link_id: id });
            &&& h.graph.links.contains_key(id) ==> {
                &&& acts == seq![HubActionView::PersistLinks, HubActionView::Notify(HubEventView::LinkDestroyed(id))]
                &&& h2.graph.links == h.graph.links.remove(id)
                &&& !index_list(h2.graph.source_to_links, h.graph.links[id].source_entity).contains(id)
                &&& !index_list(h2.graph.target_to_links, h.graph.links[id].target_entity).contains(id)
                &&& h2.graph.entities == h.graph.entities
                &&& h2.graph.entity_owners == h.graph.entity_owners
                &&& h2.graph.entity_states == h.graph.entity_states
                &&& h2.sessions == h.sessions
                &&& h2.coalescer == h.coalescer
            }
            &&& !h.graph.links.contains_key(id) ==> h2 == h && acts.len() == 0
        }),
{
    if h.graph.links.contains_key(id) {
        let l = h.graph.links[id];
        let h2 = process_outcome(h, session, ClientMessageView::DestroyLink { link_id: id }).0;
        lemma_dropped_gone(h.graph.source_to_links, l.source_entity, id);
        lemma_dropped_gone(h.graph.target_to_links, l.target_entity, id);
    }
}

/// After every occurrence of `id` is dropped from the list under `k`, `id`
/// is no longer listed there.
proof fn lemma_dropped_gone(m: Map<Seq<char>, Seq<u128>>, k: Seq<char>, id: u128)
    ensures
        !index_list(drop_from_index(m, k, id), k).contains(id),
{
    if m.contains_key(k) {
        let f = m[k].filter(other_than(id));
        if f.contains(id) {
            let j = choose|j: int| 0 <= j < f.len() && f[j] == id;
            m[k].lemma_filter_pred(other_than(id), j);
        }
    }
}

/// Each re-activated link is reported, and sent to every session, by the
/// actions that follow a registration.
proof fn lemma_rebound_actions_has(activated: Seq<LinkInfoView>, sessions: Seq<SessionRecordView>, i: int)
    requires
        0 <= i < activated.len(),
    ensures
        rebound_actions(activated, sessions).contains(HubActionView::Notify(HubEventView::LinkRebound(activated[i]))),
        forall|j: int| 0 <= j < sessions.len() ==> rebound_actions(activated, sessions).contains(
            HubActionView::Send {
                session_id: (#[trigger] sessions[j]).session_id,
                message: ServerMessageView::LinkStatusChanged(activated[i]),
            },
        ),
    decreases activated.len(),
{
    let r0 = rebound_actions(activated.drop_last(), sessions);
    let last = activated.last();
    let mid = r0 + seq![HubActionView::Notify(HubEventView::LinkRebound(last))];
    let b = broadcast(sessions, ServerMessageView::LinkStatusChanged(last));
    let r = rebound_actions(activated, sessions);
    assert(r == mid + b);
    if i == activated.len() - 1 {
        assert(r[r0.len() as int] == HubActionView::Notify(HubEventView::LinkRebound(activated[i])));
        assert forall|j: int| 0 <= j < sessions.len() implies r.contains(
            HubActionView::Send {
                session_id: (#[trigger] sessions[j]).session_id,
                message: ServerMessageView::LinkStatusChanged(activated[i]),
            },
        ) by {
            assert(r[mid.len() + j] == b[j]);
        }
    } else {
        assert(activated.drop_last()[i] == activated[i]);
        lemma_rebound_actions_has(activated.drop_last(), sessions, i);
        let k = choose|k: int| 0 <= k < r0.len() && r0[k] == HubActionView::Notify(HubEventView::LinkRebound(activated[i]));
        assert(r[k] == r0[k]);
        assert forall|j: int| 0 <= j < sessions.len() implies r.contains(
            HubActionView::Send {
                session_id: (#[trigger] sessions[j]).session_id,
                message: ServerMessageView::LinkStatusChanged(activated[i]),
            },
        ) by {
            let x = HubActionView::Send {
                session_id: sessions[j].session_id,
                message: ServerMessageView::LinkStatusChanged(activated[i]),
            };
            assert(r0.contains(x));
            let k2 = choose|k2: int| 0 <= k2 < r0.len() && r0[k2] == x;
            assert(r[k2] == r0[k2]);
        }
    }
}

/// Law (registering an entity): a `RegisterEntity` request records the
/// descriptor under its id, owned by the requesting session, and reports it
/// first; recorded states, sessions and the coalescer do not change; no link
/// is added or removed; a link changes only from `Broken` to `Active`, when
/// it is listed under the entity and both its entities are then registered;
/// every such link is re-activated; and each re-activated link is reported
/// and sent, as it now is, to every connected session.
pub proof fn lemma_register_request(h: HubView, session: AppSessionId, d: EntityDescriptorView)
    requires
        links_keyed(h.graph.links),
    ensures
        ({
            let (h2, acts) = process_outcome(h, session, ClientMessageView::RegisterEntity(d));
            let g = h.graph;
            let g2 = h2.graph;
            &&& g2.entities == g.entities.insert(d.id, d)
            &&& g2.entity_owners == g.entity_owners.insert(d.id, session)
            &&& g2.entity_states == g.entity_states
            &&& g2.source_to_links == g.source_to_links
            &&& g2.target_to_links == g.target_to_links
            &&& h2.sessions == h.sessions
            &&& h2.coalescer == h.coalescer
            &&& acts.len() >= 1
            &&& acts[0] == HubActionView::Notify(HubEventView::EntityRegistered(d))
            &&& forall|lid: u128| #[trigger] g2.links.contains_key(lid) <==> g.links.contains_key(lid)
            &&& forall|lid: u128| #[trigger] g.links.contains_key(lid) && g2.links[lid] != g.links[lid] ==> {
                &&& g.links[lid].status == LinkStatus::Broken
                &&& g2.links[lid] == LinkInfoView { status: LinkStatus::Active, ..g.links[lid] }
                &&& (index_list(g.source_to_links, d.id).contains(lid) || index_list(g.target_to_links, d.id).contains(
                    lid,
                ))
                &&& g2.entities.contains_key(g.links[lid].source_entity)
                &&& g2.entities.contains_key(g.links[lid].target_entity)
            }
            &&& forall|lid: u128| #[trigger] g.links.contains_key(lid) && g.links[lid].status == LinkStatus::Broken
                && (index_list(g.source_to_links, d.id).contains(lid) || index_list(g.target_to_links, d.id).contains(
                lid,
            )) && g2.entities.contains_key(g.links[lid].source_entity) && g2.entities.contains_key(
                g.links[lid].target_entity,
            ) ==> g2.links[lid].status == LinkStatus::Active
            &&& forall|lid: u128| #[trigger] g.links.contains_key(lid) && g2.links[lid] != g.links[lid] ==> {
                &&& acts.contains(HubActionView::Notify(HubEventView::LinkRebound(g2.links[lid])))
                &&& forall|j: int| 0 <= j < h.sessions.len() ==> acts.contains(
                    HubActionView::Send {
                        session_id: (#[trigger] h.sessions[j]).session_id,
                        message: ServerMessageView::LinkStatusChanged(g2.links[lid]),
                    },
                )
            }
        }),
{
    let g = h.graph;
    let g1 = registered(g, session, d);
    let cands = linked_ids(g1, d.id);
    lemma_rebind(g1.links, g1.entities, cands);
    let (links, activated) = rebind(g1.links, g1.entities, cands);
    let (h2, acts) = process_outcome(h, session, ClientMessageView::RegisterEntity(d));
    let head = seq![HubActionView::Notify(HubEventView::EntityRegistered(d))];
    let tail = rebound_actions(activated, h.sessions);
    assert(acts == head + tail);
    assert(acts[0] == head[0]);
    assert(g1.links == g.links);
    assert(h2.graph.links == links);
    assert(h2.graph.entities == g1.entities);
    assert forall|lid: u128| #[trigger] g.links.contains_key(lid) && h2.graph.links[lid] != g.links[lid] implies {
        &&& g.links[lid].status == LinkStatus::Broken
        &&& h2.graph.links[lid] == LinkInfoView { status: LinkStatus::Active, ..g.links[lid] }
        &&& (index_list(g.source_to_links, d.id).contains(lid) || index_list(g.target_to_links, d.id).contains(lid))
        &&& h2.graph.entities.contains_key(g.links[lid].source_entity)
        &&& h2.graph.entities.contains_key(g.links[lid].target_entity)
    } by {
        assert(links.contains_key(lid));
        lemma_linked_ids_contains(g1, d.id, lid);
    }
    assert forall|lid: u128| #[trigger] g.links.contains_key(lid) && g.links[lid].status == LinkStatus::Broken && (
    index_list(g.source_to_links, d.id).contains(lid) || index_list(g.target_to_links, d.id).contains(lid))
        && h2.graph.entities.contains_key(g.links[lid].source_entity) && h2.graph.entities.contains_key(
        g.links[lid].target_entity,
    ) implies h2.graph.links[lid].status == LinkStatus::Active by {
        lemma_linked_ids_contains(g1, d.id, lid);
        assert(g1.links.contains_key(lid));
    }
    assert forall|lid: u128| #[trigger] g.links.contains_key(lid) && h2.graph.links[lid] != g.links[lid] implies {
        &&& acts.contains(HubActionView::Notify(HubEventView::LinkRebound(h2.graph.links[lid])))
        &&& forall|j: int| 0 <= j < h.sessions.len() ==> acts.contains(
            HubActionView::Send {
                session_id: (#[trigger] h.sessions[j]).session_id,
                message: ServerMessageView::LinkStatusChanged(h2.graph.links[lid]),
            },
        )
    } by {
        assert(links.contains_key(lid));
        assert(g1.links.contains_key(lid) && links[lid] != g1.links[lid]);
        let i = choose|i: int| 0 <= i < activated.len() && (#[trigger] activated[i]).link_id == lid;
        assert(links[activated[i].link_id] == activated[i]);
        lemma_rebound_actions_has(activated, h.sessions, i);
        let x = HubActionView::Notify(HubEventView::LinkRebound(activated[i]));
        let k = choose|k: int| 0 <= k < tail.len() && tail[k] == x;
        assert(acts[k + 1] == tail[k]);
        assert forall|j: int| 0 <= j < h.sessions.len() implies acts.contains(
            HubActionView::Send {
                session_id: (#[trigger] h.sessions[j]).session_id,
                message: ServerMessageView::LinkStatusChanged(h2.graph.links[lid]),
            },
        ) by {
            let y = HubActionView::Send {
                session_id: h.sessions[j].session_id,
                message: ServerMessageView::LinkStatusChanged(activated[i]),
            };
            assert(tail.contains(y));
            let k2 = choose|k2: int| 0 <= k2 < tail.len() && tail[k2] == y;
            assert(acts[k2 + 1] == tail[k2]);
        }
    }
}

/// Law (creating a link): the link made for a request from `source` to
/// `target` with id `id` and time `t` is stored under `id`, `Active`, last
/// synced version 0, created at `t`; its applications are those of its
/// registered entities ("Unknown" for one not registered) and its data type
/// that of its registered source ("application/octet-stream" otherwise); it
/// is listed under both entities; no other link and no registration
/// changes; the actions persist the topology, report the link, and send it
/// back to the requester exactly when that session is connected.
pub proof fn lemma_create_link_request(
    h: HubView,
    session: AppSessionId,
    source: Seq<char>,
    target: Seq<char>,
    id: u128,
    t: UtcTime,
)
    ensures
        ({
            let (h2, acts) = create_link_outcome(h, session, source, target, id, t);
            let g = h.graph;
            let l = h2.graph.links[id];
            &&& h2.graph.links.contains_key(id)
            &&& l.link_id == id
            &&& l.source_entity == source
            &&& l.target_entity == target
            &&& l.status == LinkStatus::Active
            &&& l.last_synced_version == 0
            &&& l.created_at == t
            &&& l.source_app == if g.entities.contains_key(source) { g.entities[source].source_app } else { "Unknown"@ }
            &&& l.target_app == if g.entities.contains_key(target) { g.entities[target].source_app } else { "Unknown"@ }
            &&& l.data_type == if g.entities.contains_key(source) {
                g.entities[source].data_type
            } else {
                "application/octet-stream"@
            }
            &&& index_list(h2.graph.source_to_links, source).contains(id)
            &&& index_list(h2.graph.target_to_links, target).contains(id)
            &&& forall|other: u128| other != id ==> (#[trigger] h2.graph.links.contains_key(other) <==> g.links.contains_key(
                other,
            )) && (g.links.contains_key(other) ==> h2.graph.links[other] == g.links[other])
            &&& h2.graph.entities == g.entities
            &&& h2.graph.entity_owners == g.entity_owners
            &&& h2.graph.entity_states == g.entity_states
            &&& h2.sessions == h.sessions
            &&& h2.coalescer == h.coalescer
            &&& acts.len() >= 2
            &&& acts[0] == HubActionView::PersistLinks
            &&& acts[1] == HubActionView::Notify(HubEventView::LinkCreated(l))
            &&& is_connected(h.sessions, session) ==> acts.len() == 3 && acts[2] == (HubActionView::Send {
                session_id: session,
                message: ServerMessageView::LinkStatusChanged(l),
            })
            &&& !is_connected(h.sessions, session) ==> acts.len() == 2
        }),
{
    let l = requested_link(h.graph, source, target, id, t);
    let sl = index_list(h.graph.source_to_links, source).push(id);
    let tl = index_list(h.graph.target_to_links, target).push(id);
    assert(sl[sl.len() - 1] == id);
    assert(tl[tl.len() - 1] == id);
}

/// Law (handshake): taking a handshake makes the session's record the one
/// with the given application details and time, leaves every other
/// session's record as it was, keeps one record per session, changes
/// neither the graph nor the coalescer, acknowledges the handshake to the
/// session with the server's version and reports the connection.
pub proof fn lemma_handshake_request(
    h: HubView,
    sid: AppSessionId,
    t: UtcTime,
    name: Seq<char>,
    version: Seq<char>,
    caps: AppCapabilitiesView,
)
    requires
        unique_keys(h.sessions, session_key()),
    ensures
        ({
            let (h2, acts) = handshake_outcome(h, sid, t, name, version, caps);
            let rec = SessionRecordView {
                session_id: sid,
                app_name: name,
                app_version: version,
                capabilities: caps,
                connected_at: t,
            };
            &&& record_of(h2.sessions, sid) == Some(rec)
            &&& forall|other: AppSessionId| other != sid ==> #[trigger] record_of(h2.sessions, other) == record_of(
                h.sessions,
                other,
            )
            &&& unique_keys(h2.sessions, session_key())
            &&& h2.graph == h.graph
            &&& h2.coalescer == h.coalescer
            &&& h2.server_version == h.server_version
            &&& acts == seq![
                HubActionView::Send {
                    session_id: sid,
                    message: ServerMessageView::HandshakeAck { session_id: sid, server_version: h.server_version },
                },
                HubActionView::Notify(HubEventView::AppConnected(rec)),
            ]
        }),
{
    let rec = SessionRecordView {
        session_id: sid,
        app_name: name,
        app_version: version,
        capabilities: caps,
        connected_at: t,
    };
    lemma_put_session(h.sessions, rec);
}

/// Law (ping and pull): a connected session gets exactly one answer and the
/// hub does not change: `Pong` to a ping; to a pull, the entity's recorded
/// version and payload, or, when it has none, the `ENTITY_NOT_FOUND` error
/// naming the entity.
pub proof fn lemma_ping_and_pull(h: HubView, session: AppSessionId, id: Seq<char>)
    requires
        is_connected(h.sessions, session),
    ensures
        process_outcome(h, session, ClientMessageView::Ping) == (h, seq![
            HubActionView::Send { session_id: session, message: ServerMessageView::Pong },
        ]),
        process_outcome(h, session, ClientMessageView::PullEntity { entity_id: id }) == (h, seq![
            HubActionView::Send {
                session_id: session,
                message: if h.graph.entity_states.contains_key(id) {
                    ServerMessageView::EntityState {
                        entity_id: id,
                        version: h.graph.entity_states[id].0,
                        payload: h.graph.entity_states[id].1,
                    }
                } else {
                    ServerMessageView::Error {
                        code: "ENTITY_NOT_FOUND"@,
                        message: "Entity '"@ + id + "' has no recorded state."@,
                    }
                },
            },
        ]),
{
}

/// Law: a session that is not connected gets no answer to a ping or a pull,
/// and the hub's state does not change.
pub proof fn lemma_unknown_session_unanswered(h: HubView, session: AppSessionId, id: Seq<char>)
    requires
        !is_connected(h.sessions, session),
    ensures
        process_outcome(h, session, ClientMessageView::Ping) == (h, Seq::<HubActionView>::empty()),
        process_outcome(h, session, ClientMessageView::PullEntity { entity_id: id }) == (h, Seq::<HubActionView>::empty()),
{
}

/// Law: a committed change notified to an idle hub is released, alone, by
/// the next frame.
pub proof fn lemma_committed_change_released(h: HubView, session: AppSessionId, e: ChangeEventView)
    requires
        !e.is_transient,
        h.coalescer.pending.len() == 0,
        h.coalescer.committed.len() == 0,
        h.coalescer.ready.len() == 0,
    ensures
        tick_spec(process_outcome(h, session, ClientMessageView::NotifyChange(e)).0.coalescer).ready == seq![e],
{
    let c = process_outcome(h, session, ClientMessageView::NotifyChange(e)).0.coalescer;
    assert(c.committed =~= seq![e]);
    assert(tick_spec(c).ready =~= seq![e]);
}

/// Law: a session is connected once its handshake is taken, and no longer
/// once it disconnects; at most one record is kept per session.
pub proof fn lemma_session_lifecycle(
    h: HubView,
    session: AppSessionId,
    connected_at: UtcTime,
    app_name: Seq<char>,
    app_version: Seq<char>,
    capabilities: AppCapabilitiesView,
)
    requires
        unique_keys(h.sessions, session_key()),
    ensures
        ({
            let h1 = handshake_outcome(h, session, connected_at, app_name, app_version, capabilities).0;
            &&& is_connected(h1.sessions, session)
            &&& unique_keys(h1.sessions, session_key())
            &&& !is_connected(drop_session(h1.sessions, session), session)
        }),
{
    let h1 = handshake_outcome(h, session, connected_at, app_name, app_version, capabilities).0;
    let s0 = h.sessions;
    let s1 = h1.sessions;
    lemma_last_index(s0, session_key(), session);
    let i = last_index(s0, session_key(), session);
    if i >= 0 {
        assert forall|m: int| i < m < s1.len() implies session_key()(#[trigger] s1[m]) != session by {
            assert(s1[m] == s0[m]);
        }
        lemma_last_index_is(s1, session_key(), session, i);
        assert forall|a: int, b: int|
            0 <= a < s1.len() && 0 <= b < s1.len() && a != b implies session_key()(#[trigger] s1[a]) != session_key()(
            #[trigger] s1[b],
        ) by {
            assert(session_key()(s1[a]) == session_key()(s0[a]));
            assert(session_key()(s1[b]) == session_key()(s0[b]));
        }
    } else {
        lemma_last_index_is(s1, session_key(), session, s0.len() as int);
        assert forall|a: int, b: int|
            0 <= a < s1.len() && 0 <= b < s1.len() && a != b implies session_key()(#[trigger] s1[a]) != session_key()(
            #[trigger] s1[b],
        ) by {
            if a < s0.len() {
                assert(s1[a] == s0[a]);
            }
            if b < s0.len() {
                assert(s1[b] == s0[b]);
            }
        }
    }
    let j = last_index(s1, session_key(), session);
    let s2 = drop_session(s1, session);
    assert forall|m: int| 0 <= m < s2.len() implies session_key()(#[trigger] s2[m]) != session by {
        let m1 = if m < j { m } else { m + 1 };
        assert(s2[m] == s1[m1]);
        assert(s1[j].session_id == session);
    }
    lemma_last_index_none(s2, session_key(), session);
}

/// The record of session `id` in `s`, when it is connected.
pub open spec fn record_of(s: Seq<SessionRecordView>, id: AppSessionId) -> Option<SessionRecordView> {
    let i = last_index(s, session_key(), id);
    if i >= 0 {
        Some(s[i])
    } else {
        None
    }
}

/// In a list with unique session ids, the record at `j` is the one found for its id.
proof fn lemma_record_at(s: Seq<SessionRecordView>, j: int)
    requires
        unique_keys(s, session_key()),
        0 <= j < s.len(),
    ensures
        record_of(s, s[j].session_id) == Some(s[j]),
{
    assert forall|m: int| j < m < s.len() implies session_key()(#[trigger] s[m]) != s[j].session_id by {
        assert(session_key()(s[m]) != session_key()(s[j]));
    }
    lemma_last_index_is(s, session_key(), s[j].session_id, j);
}

/// When no record carries `id`, none is found.
proof fn lemma_record_none(s: Seq<SessionRecordView>, id: AppSessionId)
    requires
        forall|m: int| 0 <= m < s.len() ==> (#[trigger] s[m]).session_id != id,
    ensures
        record_of(s, id) == None::<SessionRecordView>,
{
    assert forall|m: int| 0 <= m < s.len() implies session_key()(#[trigger] s[m]) != id by {}
    lemma_last_index_none(s, session_key(), id);
}

/// Opening a session in a list with unique ids: its record is the one
/// found for its id, the others stay, and ids stay unique.
proof fn lemma_put_session(s: Seq<SessionRecordView>, r: SessionRecordView)
    requires
        unique_keys(s, session_key()),
    ensures
        unique_keys(put_session(s, r), session_key()),
        forall|id: AppSessionId| #[trigger] record_of(put_session(s, r), id) == if id == r.session_id {
            Some(r)
        } else {
            record_of(s, id)
        },
{
    let s1 = put_session(s, r);
    lemma_last_index(s, session_key(), r.session_id);
    let i = last_index(s, session_key(), r.session_id);
    let k = if i >= 0 { i } else { s.len() as int };
    assert(s1.len() == if i >= 0 { s.len() } else { s.len() + 1 });
    assert(s1[k] == r);
    assert forall|m: int| 0 <= m < s1.len() && m != k implies #[trigger] s1[m] == s[m] && s[m].session_id != r.session_id by {
        if i < 0 {
            assert(session_key()(s[m]) != r.session_id);
        } else {
            assert(session_key()(s[m]) != session_key()(s[i]));
        }
    }
    assert(unique_keys(s1, session_key())) by {
        assert forall|a: int, b: int|
            0 <= a < s1.len() && 0 <= b < s1.len() && a != b implies session_key()(#[trigger] s1[a]) != session_key()(
            #[trigger] s1[b],
        ) by {
            if a != k && b != k {
                assert(session_key()(s[a]) != session_key()(s[b]));
            }
        }
    }
    assert forall|id: AppSessionId| #[trigger] record_of(s1, id) == if id == r.session_id {
        Some(r)
    } else {
        record_of(s, id)
    } by {
        lemma_last_index(s, session_key(), id);
        let j = last_index(s, session_key(), id);
        if id == r.session_id {
            lemma_record_at(s1, k);
        } else if j >= 0 {
            assert(s[j].session_id == id);
            assert(j != k);
            lemma_record_at(s1, j);
            lemma_record_at(s, j);
        } else {
            assert forall|m: int| 0 <= m < s1.len() implies (#[trigger] s1[m]).session_id != id by {
                if m != k {
                    assert(session_key()(s[m]) != id);
                }
            }
            lemma_record_none(s1, id);
        }
    }
}

/// Closing a session in a list with unique ids: no record is found for it,
/// the others stay, and ids stay unique.
proof fn lemma_drop_session(s: Seq<SessionRecordView>, x: AppSessionId)
    requires
        unique_keys(s, session_key()),
    ensures
        unique_keys(drop_session(s, x), session_key()),
        forall|id: AppSessionId| #[trigger] record_of(drop_session(s, x), id) == if id == x {
            None
        } else {
            record_of(s, id)
        },
{
    let s1 = drop_session(s, x);
    lemma_last_index(s, session_key(), x);
    let i = last_index(s, session_key(), x);
    if i >= 0 {
        assert forall|m: int| 0 <= m < s1.len() implies #[trigger] s1[m] == s[if m < i { m } else { m + 1 }] by {}
        assert(unique_keys(s1, session_key())) by {
            assert forall|a: int, b: int|
                0 <= a < s1.len() && 0 <= b < s1.len() && a != b implies session_key()(#[trigger] s1[a])
                != session_key()(#[trigger] s1[b]) by {
                let a1 = if a < i { a } else { a + 1 };
                let b1 = if b < i { b } else { b + 1 };
                assert(session_key()(s[a1]) != session_key()(s[b1]));
            }
        }
        assert forall|id: AppSessionId| #[trigger] record_of(s1, id) == if id == x {
            None
        } else {
            record_of(s, id)
        } by {
            lemma_last_index(s, session_key(), id);
            let j = last_index(s, session_key(), id);
            if id == x {
                assert forall|m: int| 0 <= m < s1.len() implies (#[trigger] s1[m]).session_id != id by {
                    let m1 = if m < i { m } else { m + 1 };
                    assert(session_key()(s[m1]) != session_key()(s[i]));
                }
                lemma_record_none(s1, id);
            } else if j >= 0 {
                assert(s[j].session_id == id);
                let j1 = if j < i { j } else { j - 1 };
                assert(s1[j1] == s[j]);
                lemma_record_at(s1, j1);
                lemma_record_at(s, j);
            } else {
                assert forall|m: int| 0 <= m < s1.len() implies (#[trigger] s1[m]).session_id != id by {
                    let m1 = if m < i { m } else { m + 1 };
                    assert(session_key()(s[m1]) != id);
                }
                lemma_record_none(s1, id);
            }
        }
    } else {
        assert forall|m: int| 0 <= m < s.len() implies (#[trigger] s[m]).session_id != x by {
            assert(session_key()(s[m]) != x);
        }
        lemma_record_none(s, x);
    }
}

/// A change to the set of connected sessions.
pub enum SessionOp {
    /// A handshake taken, with the record it opened.
    Open(SessionRecordView),
    /// A session closed.
    Close(AppSessionId),
}

/// The sessions after the changes of `ops`, in order, starting from `s`.
pub open spec fn replay_sessions(s: Seq<SessionRecordView>, ops: Seq<SessionOp>) -> Seq<SessionRecordView>
    decreases ops.len(),
{
    if ops.len() == 0 {
        s
    } else {
        let s1 = replay_sessions(s, ops.drop_last());
        match ops.last() {
            SessionOp::Open(r) => put_session(s1, r),
            SessionOp::Close(id) => drop_session(s1, id),
        }
    }
}

/// The record opened by the last change of `ops` that concerns session
/// `id`; `None` when that change closed it, or when there is none.
pub open spec fn latest_open(ops: Seq<SessionOp>, id: AppSessionId) -> Option<SessionRecordView>
    decreases ops.len(),
{
    if ops.len() == 0 {
        None
    } else {
        match ops.last() {
            SessionOp::Open(r) => if r.session_id == id {
                Some(r)
            } else {
                latest_open(ops.drop_last(), id)
            },
            SessionOp::Close(x) => if x == id {
                None
            } else {
                latest_open(ops.drop_last(), id)
            },
        }
    }
}

/// Law (sessions over a history): starting with no session, after any
/// sequence of handshakes and disconnects the hub holds exactly one record
/// for each session whose last change was a handshake, namely the record
/// that handshake opened, and no other record.
pub proof fn lemma_session_history(ops: Seq<SessionOp>)
    ensures
        unique_keys(replay_sessions(Seq::empty(), ops), session_key()),
        forall|id: AppSessionId| #[trigger] record_of(replay_sessions(Seq::empty(), ops), id) == latest_open(ops, id),
        forall|i: int| 0 <= i < replay_sessions(Seq::empty(), ops).len() ==> latest_open(
            ops,
            (#[trigger] replay_sessions(Seq::empty(), ops)[i]).session_id,
        ) == Some(replay_sessions(Seq::empty(), ops)[i]),
    decreases ops.len(),
{
    let s = replay_sessions(Seq::empty(), ops);
    if ops.len() == 0 {
        assert forall|id: AppSessionId| #[trigger] record_of(s, id) == latest_open(ops, id) by {
            lemma_record_none(s, id);
        }
    } else {
        lemma_session_history(ops.drop_last());
        let s0 = replay_sessions(Seq::empty(), ops.drop_last());
        match ops.last() {
            SessionOp::Open(r) => {
                lemma_put_session(s0, r);
            },
            SessionOp::Close(x) => {
                lemma_drop_session(s0, x);
            },
        }
        assert forall|id: AppSessionId| #[trigger] record_of(s, id) == latest_open(ops, id) by {}
    }
    assert forall|i: int| 0 <= i < s.len() implies latest_open(ops, (#[trigger] s[i]).session_id) == Some(s[i]) by {
        lemma_record_at(s, i);
        assert(record_of(s, s[i].session_id) == latest_open(ops, s[i].session_id));
    }
}

/// Abstract value of a [`HubState`].
pub struct HubView {
    pub graph: LinkGraphView,
    /// Connected sessions, at most one record per session id.
    pub sessions: Seq<SessionRecordView>,
    pub coalescer: CoalescerView,
    pub server_version: Seq<char>,
}

/// `g` after restoring each of `links` in order.
pub open spec fn restore_all(g: LinkGraphView, links: Seq<LinkInfoView>) -> LinkGraphView
    decreases links.len(),
{
    if links.len() == 0 {
        g
    } else {
        let g1 = restore_all(g, links.drop_last());
        add_link(g1, with_status(links.last(), restored_status(g1, links.last())))
    }
}

/// Law: links restored into a hub that has no entities registered yet all
/// start `Broken`, and no entity is registered by restoring.
pub proof fn lemma_restored_links_start_broken(links: Seq<LinkInfoView>)
    ensures
        restore_all(empty_graph(), links).entities == Map::<Seq<char>, EntityDescriptorView>::empty(),
        forall|id: u128| #[trigger] restore_all(empty_graph(), links).links.contains_key(id)
            ==> restore_all(empty_graph(), links).links[id].status == LinkStatus::Broken,
    decreases links.len(),
{
    if links.len() > 0 {
        lemma_restored_links_start_broken(links.drop_last());
    }
}

/// The state of the hub: link graph, sessions and change coalescer.
pub struct HubState {
    graph: LinkGraph,
    sessions: Vec<SessionRecord>,
    coalescer: CoalescingDispatcher,
    server_version: String,
}

impl View for HubState {
    type V = HubView;

    closed spec fn view(&self) -> HubView {
        HubView {
            graph: self.graph@,
            sessions: sessions_view(self.sessions@),
            coalescer: self.coalescer@,
            server_version: self.server_version@,
        }
    }
}

impl HubState {
    /// Well-formedness: the graph is well formed and no session id occurs twice.
    pub closed spec fn wf(&self) -> bool {
        &&& self.graph.wf()
        &&& self.coalescer.wf()
        &&& unique_keys(sessions_view(self.sessions@), session_key())
    }

    /// A well-formed hub holds at most one record per session id.
    pub proof fn lemma_sessions_unique(&self)
        requires
            self.wf(),
        ensures
            unique_keys(self@.sessions, session_key()),
    {
    }

    /// A well-formed hub lists every link of its graph under its source and
    /// its target entity, stores every link under its own id, and holds only
    /// transient events pending in its coalescer.
    pub proof fn lemma_hub_invariants(&self)
        requires
            self.wf(),
        ensures
            indexed(self@.graph),
            links_keyed(self@.graph.links),
            pending_transient(self@.coalescer),
    {
        self.graph.lemma_wf_indexed();
        self.graph.lemma_links_keyed();
        self.coalescer.lemma_pending_transient();
    }

    /// A hub with no sessions whose graph holds `saved_links`, restored in
    /// order, and whose coalescer releases 60 frames per second.
    pub fn new(server_version: String, saved_links: Vec<LinkInfo>) -> (h: HubState)
        ensures
            h.wf(),
            h@.graph == restore_all(empty_graph(), links_view(saved_links@)),
            h@.sessions == Seq::<SessionRecordView>::empty(),
            h@.coalescer.pending == Seq::<ChangeEventView>::empty(),
            h@.coalescer.committed == Seq::<ChangeEventView>::empty(),
            h@.coalescer.ready == Seq::<ChangeEventView>::empty(),
            h@.coalescer.frame_millis == 16,
            h@.server_version == server_version@,
    {
        let mut graph = LinkGraph::new();
        let ghost all = links_view(saved_links@);
        let mut done: usize = 0;
        while done < saved_links.len()
            invariant
                graph.wf(),
                done <= saved_links@.len(),
                all == links_view(saved_links@),
                graph@ == restore_all(empty_graph(), all.take(done as int)),
            decreases saved_links.len() - done,
        {
            proof {
                assert(all.take(done + 1).drop_last() =~= all.take(done as int));
            }
            graph.restore_link(saved_links[done].clone());
            done = done + 1;
        }
        assert(all.take(all.len() as int) == all);
        let sessions: Vec<SessionRecord> = Vec::new();
        let h = HubState {
            graph,
            sessions,
            coalescer: CoalescingDispatcher::new(60),
            server_version,
        };
        assert(h@.sessions =~= Seq::<SessionRecordView>::empty());
        h
    }

    /// The position of session `id`'s record, as [`last_index`] finds it.
    fn find_session(&self, id: AppSessionId) -> (r: Option<usize>)
        ensures
            match r {
                Some(i) => i as int == last_index(self@.sessions, session_key(), id) && i < self.sessions@.len(),
                None => last_index(self@.sessions, session_key(), id) == -1,
            },
    {
        let ghost sv = self@.sessions;
        let mut i: usize = self.sessions.len();
        assert(sv.take(sv.len() as int) =~= sv);
        while i > 0
            invariant
                i <= self.sessions@.len(),
                sv == sessions_view(self.sessions@),
                last_index(sv, session_key(), id) == last_index(sv.take(i as int), session_key(), id),
            decreases i,
        {
            let j = i - 1;
            assert(sv.take(i as int).drop_last() =~= sv.take(j as int));
            if self.sessions[j].session_id == id {
                return Some(j);
            }
            i = j;
        }
        None
    }

    /// Appends one `Send` of `msg` to every connected session, in order.
    fn push_broadcast(&self, actions: &mut Vec<HubAction>, msg: &ServerMessage)
        ensures
            actions_view(final(actions)@) == actions_view(old(actions)@) + broadcast(self@.sessions, msg@),
    {
        let mut i: usize = 0;
        let ghost start = actions_view(actions@);
        assert(broadcast(self@.sessions, msg@).take(0) =~= Seq::<HubActionView>::empty());
        assert(start + Seq::<HubActionView>::empty() =~= start);
        while i < self.sessions.len()
            invariant
                i <= self.sessions@.len(),
                actions_view(actions@) == start + broadcast(self@.sessions, msg@).take(i as int),
            decreases self.sessions.len() - i,
        {
            let ghost before = actions_view(actions@);
            actions.push(HubAction::Send { session_id: self.sessions[i].session_id, message: msg.clone() });
            assert(broadcast(self@.sessions, msg@).take(i + 1) =~= broadcast(self@.sessions, msg@).take(
                i as int,
            ).push(broadcast(self@.sessions, msg@)[i as int]));
            assert(actions_view(actions@) =~= before.push(broadcast(self@.sessions, msg@)[i as int]));
            i = i + 1;
        }
        assert(broadcast(self@.sessions, msg@).take(self.sessions@.len() as int) =~= broadcast(self@.sessions, msg@));
    }

    /// Appends a `Send` of `msg` to `session_id` when it is connected.
    fn push_reply(&self, actions: &mut Vec<HubAction>, session_id: AppSessionId, msg: ServerMessage)
        ensures
            actions_view(final(actions)@) == actions_view(old(actions)@) + reply(self@.sessions, session_id, msg@),
    {
        let ghost start = actions_view(actions@);
        let ghost mv = msg@;
        match self.find_session(session_id) {
            Some(_) => {
                actions.push(HubAction::Send { session_id, message: msg });
                assert(actions_view(actions@) =~= start + seq![HubActionView::Send { session_id: session_id, message: mv }]);
            },
            None => {
                assert(actions_view(actions@) =~= start + Seq::<HubActionView>::empty());
            },
        }
    }

    /// The records of the connected sessions.
    pub fn get_sessions(&self) -> (r: Vec<SessionRecord>)
        ensures
            sessions_view(r@) == self@.sessions,
    {
        let mut r: Vec<SessionRecord> = Vec::new();
        let mut i: usize = 0;
        while i < self.sessions.len()
            invariant
                i <= self.sessions@.len(),
                sessions_view(r@) == self@.sessions.take(i as int),
            decreases self.sessions.len() - i,
        {
            r.push(self.sessions[i].clone());
            assert(self@.sessions.take(i + 1) =~= self@.sessions.take(i as int).push(self@.sessions[i as int]));
            assert(sessions_view(r@) =~= self@.sessions.take(i + 1));
            i = i + 1;
        }
        assert(self@.sessions.take(self.sessions@.len() as int) =~= self@.sessions);
        r
    }

    /// All links, each once, in no promised order.
    pub fn get_links(&self) -> (r: Vec<LinkInfo>)
        requires
            self.wf(),
        ensures
            enumerates(links_view(r@), self@.graph.links, link_view_key()),
    {
        self.graph.list_links()
    }

    /// All registered entities, each once, in no promised order.
    pub fn get_entities(&self) -> (r: Vec<EntityDescriptor>)
        requires
            self.wf(),
        ensures
            enumerates(descriptors_view(r@), self@.graph.entities, descriptor_view_key()),
    {
        self.graph.list_entities()
    }

    /// Opens session `session_id` (replacing a session with the same id),
    /// acknowledges the handshake to it and reports the connection.
    pub fn open_session(
        &mut self,
        session_id: AppSessionId,
        connected_at: UtcTime,
        app_name: String,
        app_version: String,
        capabilities: AppCapabilities,
    ) -> (actions: Vec<HubAction>)
        requires
            old(self).wf(),
        ensures
            final(self).wf(),
            (final(self)@, actions_view(actions@)) == handshake_outcome(
                old(self)@,
                session_id,
                connected_at,
                app_name@,
                app_version@,
                capabilities@,
            ),
    {
        let record = SessionRecord { session_id, app_name, app_version, capabilities, connected_at };
        let ghost rv = record@;
        let ghost sv = self@.sessions;
        let event = HubEvent::AppConnected(record.clone());
        proof {
            lemma_last_index(sv, session_key(), session_id);
        }
        match self.find_session(session_id) {
            Some(i) => {
                self.sessions.set(i, record);
                assert(self@.sessions =~= sv.update(i as int, rv));
                assert(unique_keys(self@.sessions, session_key())) by {
                    assert forall|a: int, b: int|
                        0 <= a < self@.sessions.len() && 0 <= b < self@.sessions.len() && a != b implies
                        session_key()(#[trigger] self@.sessions[a]) != session_key()(#[trigger] self@.sessions[b]) by {
                        assert(session_key()(self@.sessions[a]) == session_key()(sv[a]));
                        assert(session_key()(self@.sessions[b]) == session_key()(sv[b]));
                    }
                }
            },
            None => {
                self.sessions.push(record);
                assert(self@.sessions =~= sv.push(rv));
                assert(unique_keys(self@.sessions, session_key())) by {
                    assert forall|a: int, b: int|
                        0 <= a < self@.sessions.len() && 0 <= b < self@.sessions.len() && a != b implies
                        session_key()(#[trigger] self@.sessions[a]) != session_key()(#[trigger] self@.sessions[b]) by {
                        if a < sv.len() {
                            assert(self@.sessions[a] == sv[a]);
                        }
                        if b < sv.len() {
                            assert(self@.sessions[b] == sv[b]);
                        }
                    }
                }
            },
        }
        let mut actions: Vec<HubAction> = Vec::new();
        actions.push(HubAction::Send {
            session_id,
            message: ServerMessage::HandshakeAck { session_id, server_version: self.server_version.clone() },
        });
        actions.push(HubAction::Notify(event));
        assert(actions_view(actions@) =~= seq![
            HubActionView::Send {
                session_id: session_id,
                message: ServerMessageView::HandshakeAck { session_id: session_id, server_version: old(self)@.server_version },
            },
            HubActionView::Notify(HubEventView::AppConnected(rv)),
        ]);
        actions
    }

    /// Registers a new connection under a fresh random session id, connected
    /// now (see [`HubState::open_session`]); gives the id and the actions.
    pub fn handle_handshake(
        &mut self,
        app_name: String,
        app_version: String,
        capabilities: AppCapabilities,
    ) -> (r: (AppSessionId, Vec<HubAction>))
        requires
            old(self).wf(),
        ensures
            final(self).wf(),
            is_v4_uuid(r.0),
            exists|connected_at: UtcTime|
                is_clock_reading(connected_at) && (final(self)@, actions_view(r.1@)) == #[trigger] handshake_outcome(
                    old(self)@,
                    r.0,
                    connected_at,
                    app_name@,
                    app_version@,
                    capabilities@,
                ),
    {
        let session_id = new_v4_bits();
        let connected_at = utc_now();
        let ghost (n, v, c) = (app_name@, app_version@, capabilities@);
        let actions = self.open_session(session_id, connected_at, app_name, app_version, capabilities);
        let r = (session_id, actions);
        assert((self@, actions_view(r.1@)) == handshake_outcome(old(self)@, r.0, connected_at, n, v, c));
        r
    }

    /// Closes session `session_id`, unregisters every entity it registered
    /// (marking the links to and from them `Broken`) and reports it.
    pub fn handle_disconnect(&mut self, session_id: AppSessionId) -> (actions: Vec<HubAction>)
        requires
            old(self).wf(),
        ensures
            final(self).wf(),
            !is_connected(final(self)@.sessions, session_id),
            forall|id: AppSessionId| id != session_id ==> #[trigger] record_of(final(self)@.sessions, id)
                == record_of(old(self)@.sessions, id),
            final(self)@ == (HubView {
                sessions: drop_session(old(self)@.sessions, session_id),
                graph: disconnect(old(self)@.graph, session_id),
                ..old(self)@
            }),
            actions_view(actions@) == seq![HubActionView::Notify(HubEventView::AppDisconnected(session_id))],
    {
        let ghost sv = self@.sessions;
        match self.find_session(session_id) {
            Some(i) => {
                self.sessions.remove(i);
                assert(self@.sessions =~= sv.remove(i as int));
                assert(unique_keys(self@.sessions, session_key())) by {
                    assert forall|a: int, b: int|
                        0 <= a < self@.sessions.len() && 0 <= b < self@.sessions.len() && a != b implies
                        session_key()(#[trigger] self@.sessions[a]) != session_key()(#[trigger] self@.sessions[b]) by {
                        let a1 = if a < i { a } else { a + 1 };
                        let b1 = if b < i { b } else { b + 1 };
                        assert(self@.sessions[a] == sv[a1]);
                        assert(self@.sessions[b] == sv[b1]);
                    }
                }
            },
            None => {},
        }
        proof {
            lemma_drop_session(sv, session_id);
            assert(record_of(self@.sessions, session_id) == None::<SessionRecordView>);
        }
        self.graph.handle_app_disconnected(session_id);
        let mut actions: Vec<HubAction> = Vec::new();
        actions.push(HubAction::Notify(HubEvent::AppDisconnected(session_id)));
        assert(actions_view(actions@) =~= seq![HubActionView::Notify(HubEventView::AppDisconnected(session_id))]);
        actions
    }


    /// Creates the link `source_entity` -> `target_entity` asked for by
    /// `session_id`, under id `link_id` and creation time `created_at`.
    pub fn create_link_for(
        &mut self,
        session_id: AppSessionId,
        source_entity: EntityId,
        target_entity: EntityId,
        link_id: LinkId,
        created_at: UtcTime,
    ) -> (actions: Vec<HubAction>)
        requires
            old(self).wf(),
        ensures
            final(self).wf(),
            (final(self)@, actions_view(actions@)) == create_link_outcome(
                old(self)@,
                session_id,
                source_entity@,
                target_entity@,
                link_id.0,
                created_at,
            ),
    {
        let source_app = match self.graph.get_entity(&source_entity) {
            Some(d) => d.source_app.clone(),
            None => String::from_str("Unknown"),
        };
        let target_app = match self.graph.get_entity(&target_entity) {
            Some(d) => d.source_app.clone(),
            None => String::from_str("Unknown"),
        };
        let data_type = match self.graph.get_entity(&source_entity) {
            Some(d) => d.data_type.clone(),
            None => String::from_str("application/octet-stream"),
        };
        let ghost lv = requested_link(old(self)@.graph, source_entity@, target_entity@, link_id.0, created_at);
        let link = self.graph.create_link_with(
            link_id,
            created_at,
            source_app,
            source_entity,
            target_app,
            target_entity,
            data_type,
        );
        assert(link@ == lv);
        let mut actions: Vec<HubAction> = Vec::new();
        actions.push(HubAction::PersistLinks);
        actions.push(HubAction::Notify(HubEvent::LinkCreated(link.clone())));
        let ghost start = actions_view(actions@);
        assert(start =~= seq![HubActionView::PersistLinks, HubActionView::Notify(HubEventView::LinkCreated(lv))]);
        self.push_reply(&mut actions, session_id, ServerMessage::LinkStatusChanged(link));
        actions
    }

    /// Registers `desc` for `session_id` and re-binds the links recorded with it.
    fn register_from(&mut self, session_id: AppSessionId, desc: EntityDescriptor) -> (actions: Vec<HubAction>)
        requires
            old(self).wf(),
        ensures
            final(self).wf(),
            (final(self)@, actions_view(actions@)) == register_outcome(old(self)@, session_id, desc@),
    {
        let ghost dv = desc@;
        self.graph.register_entity(session_id, desc.clone());
        let rebound = self.graph.rebind_links_for_entity(&desc.id);
        let ghost act = links_view(rebound@);
        let mut actions: Vec<HubAction> = Vec::new();
        actions.push(HubAction::Notify(HubEvent::EntityRegistered(desc)));
        let ghost start = actions_view(actions@);
        assert(start =~= seq![HubActionView::Notify(HubEventView::EntityRegistered(dv))]);
        let mut i: usize = 0;
        assert(act.take(0) =~= Seq::<LinkInfoView>::empty());
        assert(start + rebound_actions(act.take(0), self@.sessions) =~= start);
        while i < rebound.len()
            invariant
                i <= rebound@.len(),
                act == links_view(rebound@),
                self.wf(),
                actions_view(actions@) == start + rebound_actions(act.take(i as int), self@.sessions),
            decreases rebound.len() - i,
        {
            let ghost before = actions_view(actions@);
            assert(act.take(i + 1).drop_last() =~= act.take(i as int));
            assert(act.take(i + 1).last() == act[i as int]);
            let ghost li = act[i as int];
            actions.push(HubAction::Notify(HubEvent::LinkRebound(rebound[i].clone())));
            assert(actions_view(actions@) =~= before.push(HubActionView::Notify(HubEventView::LinkRebound(li))));
            let ghost mid = actions_view(actions@);
            self.push_broadcast(&mut actions, &ServerMessage::LinkStatusChanged(rebound[i].clone()));
            assert(actions_view(actions@) == mid + broadcast(self@.sessions, ServerMessageView::LinkStatusChanged(li)));
            assert(rebound_actions(act.take(i + 1), self@.sessions) == rebound_actions(act.take(i as int), self@.sessions)
                + seq![HubActionView::Notify(HubEventView::LinkRebound(li))]
                + broadcast(self@.sessions, ServerMessageView::LinkStatusChanged(li)));
            assert(actions_view(actions@) =~= start + rebound_actions(act.take(i + 1), self@.sessions));
            i = i + 1;
        }
        assert(act.take(act.len() as int) =~= act);
        actions
    }

    /// The answer to a pull of `entity_id`.
    fn answer_pull(&self, entity_id: EntityId) -> (m: ServerMessage)
        requires
            self.wf(),
        ensures
            m@ == pull_answer(self@.graph, entity_id@),
    {
        match self.graph.get_entity_state(&entity_id) {
            Some((version, payload)) => ServerMessage::EntityState { entity_id, version, payload },
            None => {
                let mut message = String::from_str("Entity '");
                message.append(entity_id.as_str());
                message.append("' has no recorded state.");
                ServerMessage::Error { code: String::from_str("ENTITY_NOT_FOUND"), message }
            },
        }
    }

    /// Handles a message from session `session_id`. A `CreateLink` gets a
    /// fresh random link id and the current time (see
    /// [`HubState::create_link_for`]); a `NotifyChange` goes to the coalescer.
    #[verifier::spinoff_prover]
    pub fn process_message(&mut self, session_id: AppSessionId, msg: ClientMessage) -> (actions: Vec<HubAction>)
        requires
            old(self).wf(),
        ensures
            final(self).wf(),
            msg@ is CreateLink ==> exists|id: u128, t: UtcTime|
                is_v4_uuid(id) && is_clock_reading(t) && (final(self)@, actions_view(actions@))
                    == #[trigger] create_link_outcome(
                    old(self)@,
                    session_id,
                    msg@->source_entity,
                    msg@->target_entity,
                    id,
                    t,
                ),
            !(msg@ is CreateLink) ==> (final(self)@, actions_view(actions@)) == process_outcome(
                old(self)@,
                session_id,
                msg@,
            ),
    {
        match msg {
            ClientMessage::Handshake { .. } => {
                let actions: Vec<HubAction> = Vec::new();
                assert(actions_view(actions@) =~= Seq::<HubActionView>::empty());
                actions
            },
            ClientMessage::RegisterEntity(desc) => self.register_from(session_id, desc),
            ClientMessage::UnregisterEntity { entity_id } => {
                self.graph.unregister_entity(&entity_id);
                let ghost idv = entity_id@;
                let mut actions: Vec<HubAction> = Vec::new();
                actions.push(HubAction::Notify(HubEvent::EntityUnregistered(entity_id)));
                assert(actions_view(actions@) =~= seq![HubActionView::Notify(HubEventView::EntityUnregistered(idv))]);
                actions
            },
            ClientMessage::CreateLink { source_entity, target_entity } => {
                let link_id = LinkId::new();
                let created_at = utc_now();
                let ghost (sv, tv) = (source_entity@, target_entity@);
                let actions = self.create_link_for(session_id, source_entity, target_entity, link_id, created_at);
                assert(msg@->source_entity == sv && msg@->target_entity == tv);
                assert((self@, actions_view(actions@)) == create_link_outcome(
                    old(self)@,
                    session_id,
                    msg@->source_entity,
                    msg@->target_entity,
                    link_id.0,
                    created_at,
                ));
                actions
            },
            ClientMessage::DestroyLink { link_id } => {
                let mut actions: Vec<HubAction> = Vec::new();
                match self.graph.destroy_link(&link_id) {
                    Some(_) => {
                        actions.push(HubAction::PersistLinks);
                        actions.push(HubAction::Notify(HubEvent::LinkDestroyed(link_id)));
                        assert(actions_view(actions@) =~= seq![
                            HubActionView::PersistLinks,
                            HubActionView::Notify(HubEventView::LinkDestroyed(link_id.0)),
                        ]);
                    },
                    None => {
                        assert(actions_view(actions@) =~= Seq::<HubActionView>::empty());
                    },
                }
                actions
            },
            ClientMessage::NotifyChange(event) => {
                self.coalescer.submit(event);
                let actions: Vec<HubAction> = Vec::new();
                assert(actions_view(actions@) =~= Seq::<HubActionView>::empty());
                actions
            },
            ClientMessage::PullEntity { entity_id } => {
                let answer = self.answer_pull(entity_id);
                let mut actions: Vec<HubAction> = Vec::new();
                assert(actions_view(actions@) =~= Seq::<HubActionView>::empty());
                self.push_reply(&mut actions, session_id, answer);
                assert(actions_view(actions@) =~= reply(self@.sessions, session_id, answer@));
                actions
            },
            ClientMessage::Ping => {
                let mut actions: Vec<HubAction> = Vec::new();
                assert(actions_view(actions@) =~= Seq::<HubActionView>::empty());
                self.push_reply(&mut actions, session_id, ServerMessage::Pong);
                assert(actions_view(actions@) =~= reply(self@.sessions, session_id, ServerMessageView::Pong));
                actions
            },
        }
    }


    /// Length of one coalescing frame, in milliseconds.
    pub fn frame_millis(&self) -> (ms: u64)
        ensures
            ms == self@.coalescer.frame_millis,
    {
        self.coalescer.frame_millis()
    }

    /// One frame of the coalescer: releases the queued changes.
    pub fn tick(&mut self)
        requires
            old(self).wf(),
        ensures
            final(self).wf(),
            final(self)@ == (HubView { coalescer: tick_spec(old(self)@.coalescer), ..old(self)@ }),
    {
        self.coalescer.tick();
    }

    /// Takes the oldest released change, if any.
    pub fn next_ready_event(&mut self) -> (r: Option<ChangeEvent>)
        requires
            old(self).wf(),
        ensures
            final(self).wf(),
            match r {
                Some(e) => old(self)@.coalescer.ready.len() > 0 && e@ == old(self)@.coalescer.ready[0]
                    && final(self)@ == (HubView {
                        coalescer: CoalescerView { ready: old(self)@.coalescer.ready.drop_first(), ..old(self)@.coalescer },
                        ..old(self)@
                    }),
                None => old(self)@.coalescer.ready.len() == 0 && final(self)@ == old(self)@,
            },
    {
        self.coalescer.next_event()
    }

    /// Dispatches a released change: records the entity's state, sends the
    /// change to every linked session (one that registered the target entity
    /// of a link sourced from the changed entity) and reports how many it reached.
    pub fn dispatch_change(&mut self, event: ChangeEvent) -> (actions: Vec<HubAction>)
        requires
            old(self).wf(),
        ensures
            final(self).wf(),
            (final(self)@, actions_view(actions@)) == dispatch_outcome(old(self)@, event@),
    {
        let ghost h0 = self@;
        let ghost p = subscribed(h0.graph, event@.entity_id);
        let ghost msg = ServerMessageView::EntityUpdated(event@);
        let mut actions: Vec<HubAction> = Vec::new();
        let mut count: usize = 0;
        let mut i: usize = 0;
        assert(h0.sessions.take(0).filter(p) =~= Seq::<SessionRecordView>::empty()) by {
            reveal(Seq::filter);
        }
        assert(actions_view(actions@) =~= broadcast(h0.sessions.take(0).filter(p), msg));
        while i < self.sessions.len()
            invariant
                i <= self.sessions@.len(),
                self.wf(),
                self@ == h0,
                p == subscribed(h0.graph, event@.entity_id),
                msg == ServerMessageView::EntityUpdated(event@),
                actions_view(actions@) == broadcast(h0.sessions.take(i as int).filter(p), msg),
                count as int == h0.sessions.take(i as int).filter(p).len(),
                count <= i,
            decreases self.sessions.len() - i,
        {
            let sid = self.sessions[i].session_id;
            let ghost before = actions_view(actions@);
            let ghost r = h0.sessions[i as int];
            proof {
                assert(h0.sessions.take(i + 1) =~= h0.sessions.take(i as int).push(r));
                h0.sessions.take(i as int).lemma_filter_push(r, p);
                assert(r.session_id == sid);
            }
            if self.graph.feeds_session(&event.entity_id, sid) {
                let m = ServerMessage::EntityUpdated(event.clone());
                assert(m@ == msg);
                actions.push(HubAction::Send { session_id: sid, message: m });
                count = count + 1;
                assert(p(r));
                assert(h0.sessions.take(i + 1).filter(p) == h0.sessions.take(i as int).filter(p).push(r));
                assert(actions_view(actions@) =~= before.push(HubActionView::Send { session_id: sid, message: msg }));
                assert(actions_view(actions@) =~= broadcast(h0.sessions.take(i + 1).filter(p), msg));
            } else {
                assert(actions_view(actions@) =~= broadcast(h0.sessions.take(i + 1).filter(p), msg));
            }
            i = i + 1;
        }
        assert(h0.sessions.take(self.sessions@.len() as int) =~= h0.sessions);
        self.graph.update_entity_state(&event);
        let ghost before = actions_view(actions@);
        let ghost ev = event@;
        actions.push(HubAction::Notify(HubEvent::ChangeDispatched { event, subscribers_count: count }));
        assert(actions_view(actions@) =~= before.push(
            HubActionView::Notify(HubEventView::ChangeDispatched { event: ev, subscribers_count: count }),
        ));
        actions
    }

}

} // verus!
