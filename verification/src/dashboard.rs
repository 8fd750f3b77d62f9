//! The control center's picture of the hub: connected applications, links,
//! entities and an activity log, kept up to date from the hub's events.

use vstd::prelude::*;
use crate::graph::{
    SessionRecord, SessionRecordView, descriptors_view, links_view, with_status, with_synced_version,
    descriptor_view_key, link_view_key,
};
use crate::assoc::{last_index, lemma_last_index, unique_keys};
use crate::hub::{HubEvent, HubEventView, session_key, sessions_view};
use crate::protocol::{
    AppSessionId, EntityDescriptor, EntityDescriptorView, EntityId, LinkInfo, LinkInfoView, LinkStatus,
};
use crate::text::{bool_text, decimal, push_bool, push_decimal, push_uuid, uuid_text};

verus! {

/// Number of log lines the control center keeps.
pub const MAX_LOG_LINES: usize = 100;

/// Abstract value of a [`ControlCenterState`].
pub struct ControlCenterView {
    pub sessions: Seq<SessionRecordView>,
    pub links: Seq<LinkInfoView>,
    pub entities: Seq<EntityDescriptorView>,
    pub logs: Seq<Seq<char>>,
    pub event_count: usize,
}

/// The log line written for a hub event.
pub open spec fn log_line(e: HubEventView) -> Seq<char> {
    match e {
        HubEventView::AppConnected(r) => "App connected: "@ + r.app_name + " (ID: "@ + uuid_text(r.session_id)
            + ")"@,
        HubEventView::AppDisconnected(id) => "App disconnected (ID: "@ + uuid_text(id) + ")"@,
        HubEventView::EntityRegistered(d) => "Entity registered: "@ + d.id + " [App: "@ + d.source_app + "]"@,
        HubEventView::EntityUnregistered(id) => "Entity unregistered: "@ + id,
        HubEventView::LinkCreated(l) => "Link established: "@ + l.source_entity + " -> "@ + l.target_entity,
        HubEventView::LinkDestroyed(id) => "Link removed: "@ + uuid_text(id),
        HubEventView::LinkRebound(l) => "\u{1F504} Restored persisted link: "@ + l.source_entity + " -> "@
            + l.target_entity,
        HubEventView::ChangeDispatched { event, subscribers_count } => "Event synced: "@ + event.entity_id
            + " (v"@ + decimal(event.version as nat) + ", transient="@ + bool_text(event.is_transient)
            + ") -> "@ + decimal(subscribers_count as nat) + " targets"@,
    }
}

/// The predicate "is not the record of session `id`".
pub open spec fn session_other_than(id: AppSessionId) -> spec_fn(SessionRecordView) -> bool {
    |r: SessionRecordView| r.session_id != id
}

/// The predicate "is not the entity `id`".
pub open spec fn entity_other_than(id: Seq<char>) -> spec_fn(EntityDescriptorView) -> bool {
    |d: EntityDescriptorView| d.id != id
}

/// The predicate "is not the link `id`".
pub open spec fn link_other_than(id: u128) -> spec_fn(LinkInfoView) -> bool {
    |l: LinkInfoView| l.link_id != id
}

/// `links` with the last synced version of every link sourced from
/// `entity` set to `version`.
pub open spec fn sync_shown_links(links: Seq<LinkInfoView>, entity: Seq<char>, version: u64) -> Seq<LinkInfoView> {
    links.map_values(
        |l: LinkInfoView|
            if l.source_entity == entity {
                with_synced_version(l, version)
            } else {
                l
            },
    )
}

/// The application name of session `id` among `sessions`, when it is shown.
pub open spec fn app_name_of(sessions: Seq<SessionRecordView>, id: AppSessionId) -> Option<Seq<char>> {
    let i = last_index(sessions, session_key(), id);
    if i >= 0 {
        Some(sessions[i].app_name)
    } else {
        None
    }
}

/// `links` with every link whose source application is `app` marked `Broken`.
pub open spec fn break_app_links(links: Seq<LinkInfoView>, app: Seq<char>) -> Seq<LinkInfoView> {
    links.map_values(
        |l: LinkInfoView|
            if l.source_app == app {
                with_status(l, LinkStatus::Broken)
            } else {
                l
            },
    )
}

/// The shown links after session `id` disconnects: when it is shown, every
/// link whose source application is that session's application is `Broken`.
pub open spec fn links_after_disconnect(v: ControlCenterView, id: AppSessionId) -> Seq<LinkInfoView> {
    match app_name_of(v.sessions, id) {
        Some(app) => break_app_links(v.links, app),
        None => v.links,
    }
}

/// The picture after one hub event: the event is counted and logged; a
/// connection, registration, link creation or re-binding replaces any entry
/// with the same id and is appended; a disconnection, unregistration or link
/// removal drops the entry, and a disconnection marks `Broken` the links of
/// the disconnected application; a dispatched change updates the shown
/// version of the links sourced from its entity.
pub open spec fn apply_spec(v: ControlCenterView, e: HubEventView) -> ControlCenterView {
    let v1 = ControlCenterView { event_count: (v.event_count + 1) as usize, logs: v.logs.push(log_line(e)), ..v };
    match e {
        HubEventView::AppConnected(r) => ControlCenterView {
            sessions: v.sessions.filter(session_other_than(r.session_id)).push(r),
            ..v1
        },
        HubEventView::AppDisconnected(id) => ControlCenterView {
            sessions: v.sessions.filter(session_other_than(id)),
            links: links_after_disconnect(v, id),
            ..v1
        },
        HubEventView::EntityRegistered(d) => ControlCenterView {
            entities: v.entities.filter(entity_other_than(d.id)).push(d),
            ..v1
        },
        HubEventView::EntityUnregistered(id) => ControlCenterView {
            entities: v.entities.filter(entity_other_than(id)),
            ..v1
        },
        HubEventView::LinkCreated(l) => ControlCenterView {
            links: v.links.filter(link_other_than(l.link_id)).push(l),
            ..v1
        },
        HubEventView::LinkDestroyed(id) => ControlCenterView { links: v.links.filter(link_other_than(id)), ..v1 },
        HubEventView::LinkRebound(l) => ControlCenterView {
            links: v.links.filter(link_other_than(l.link_id)).push(l),
            ..v1
        },
        HubEventView::ChangeDispatched { event, .. } => ControlCenterView {
            links: sync_shown_links(v.links, event.entity_id, event.version),
            ..v1
        },
    }
}

/// The logs after trimming: only the newest [`MAX_LOG_LINES`] lines are kept.
pub open spec fn trimmed(logs: Seq<Seq<char>>) -> Seq<Seq<char>> {
    if logs.len() > MAX_LOG_LINES {
        logs.subrange(logs.len() - MAX_LOG_LINES, logs.len() as int)
    } else {
        logs
    }
}


/// Filtering keeps keys unique.
proof fn lemma_filter_unique<T, K>(s: Seq<T>, key: spec_fn(T) -> K, pred: spec_fn(T) -> bool)
    requires
        unique_keys(s, key),
    ensures
        unique_keys(s.filter(pred), key),
        forall|i: int| 0 <= i < s.filter(pred).len() ==> pred(#[trigger] s.filter(pred)[i]) && s.contains(s.filter(pred)[i]),
    decreases s.len(),
{
    broadcast use vstd::seq_lib::group_filter_ensures;
    if s.len() == 0 {
        assert(s.filter(pred) =~= s) by {
            reveal(Seq::filter);
        }
    } else {
        let d = s.drop_last();
        assert(unique_keys(d, key)) by {
            assert forall|a: int, b: int| 0 <= a < d.len() && 0 <= b < d.len() && a != b implies key(#[trigger] d[a]) != key(#[trigger] d[b]) by {
                assert(d[a] == s[a] && d[b] == s[b]);
            }
        }
        lemma_filter_unique(d, key, pred);
        assert(d.push(s.last()) =~= s);
        d.lemma_filter_push(s.last(), pred);
        let f = d.filter(pred);
        assert forall|i: int| 0 <= i < f.len() implies key(#[trigger] f[i]) != key(s.last()) && s.contains(f[i]) by {
            assert(d.contains(f[i]));
            let j = choose|j: int| 0 <= j < d.len() && d[j] == f[i];
            assert(s[j] == d[j]);
            assert(key(s[j]) != key(s[s.len() - 1]));
        }
        if pred(s.last()) {
            let f2 = f.push(s.last());
            assert forall|a: int, b: int| 0 <= a < f2.len() && 0 <= b < f2.len() && a != b implies key(#[trigger] f2[a]) != key(#[trigger] f2[b]) by {
                if a < f.len() && b < f.len() {
                    assert(f2[a] == f[a] && f2[b] == f[b]);
                } else if a < f.len() {
                    assert(f2[a] == f[a]);
                } else {
                    assert(f2[b] == f[b]);
                }
            }
            assert(s.contains(s.last())) by {
                assert(s[s.len() - 1] == s.last());
            }
        }
    }
}

/// Dropping every entry with a key and appending one with that key keeps
/// keys unique.
proof fn lemma_replace_unique<T, K>(s: Seq<T>, key: spec_fn(T) -> K, pred: spec_fn(T) -> bool, t: T)
    requires
        unique_keys(s, key),
        forall|x: T| #[trigger] pred(x) <==> key(x) != key(t),
    ensures
        unique_keys(s.filter(pred).push(t), key),
{
    lemma_filter_unique(s, key, pred);
    let f = s.filter(pred);
    let f2 = f.push(t);
    assert forall|a: int, b: int| 0 <= a < f2.len() && 0 <= b < f2.len() && a != b implies key(#[trigger] f2[a]) != key(#[trigger] f2[b]) by {
        if a < f.len() {
            assert(f2[a] == f[a]);
            assert(pred(f[a]));
        }
        if b < f.len() {
            assert(f2[b] == f[b]);
            assert(pred(f[b]));
        }
    }
}

/// Every shown session, link and entity has a distinct id.
pub open spec fn ids_distinct(v: ControlCenterView) -> bool {
    &&& unique_keys(v.sessions, session_key())
    &&& unique_keys(v.links, link_view_key())
    &&& unique_keys(v.entities, descriptor_view_key())
}

/// Law: the control center shows each application, link and entity at most
/// once, whatever events it takes in; each event is counted once.
pub proof fn lemma_apply_keeps_ids_distinct(v: ControlCenterView, e: HubEventView)
    requires
        ids_distinct(v),
    ensures
        ids_distinct(apply_spec(v, e)),
        apply_spec(v, e).event_count == v.event_count + 1 || v.event_count == usize::MAX,
{
    match e {
        HubEventView::AppConnected(r) => {
            lemma_replace_unique(v.sessions, session_key(), session_other_than(r.session_id), r);
        },
        HubEventView::AppDisconnected(id) => {
            lemma_filter_unique(v.sessions, session_key(), session_other_than(id));
            let s2 = links_after_disconnect(v, id);
            assert forall|a: int, b: int| 0 <= a < s2.len() && 0 <= b < s2.len() && a != b implies link_view_key()(
                #[trigger] s2[a],
            ) != link_view_key()(#[trigger] s2[b]) by {
                assert(link_view_key()(s2[a]) == link_view_key()(v.links[a]));
                assert(link_view_key()(s2[b]) == link_view_key()(v.links[b]));
            }
        },
        HubEventView::EntityRegistered(d) => {
            lemma_replace_unique(v.entities, descriptor_view_key(), entity_other_than(d.id), d);
        },
        HubEventView::EntityUnregistered(id) => {
            lemma_filter_unique(v.entities, descriptor_view_key(), entity_other_than(id));
        },
        HubEventView::LinkCreated(l) => {
            lemma_replace_unique(v.links, link_view_key(), link_other_than(l.link_id), l);
        },
        HubEventView::LinkDestroyed(id) => {
            lemma_filter_unique(v.links, link_view_key(), link_other_than(id));
        },
        HubEventView::LinkRebound(l) => {
            lemma_replace_unique(v.links, link_view_key(), link_other_than(l.link_id), l);
        },
        HubEventView::ChangeDispatched { event, .. } => {
            let s2 = sync_shown_links(v.links, event.entity_id, event.version);
            assert forall|a: int, b: int| 0 <= a < s2.len() && 0 <= b < s2.len() && a != b implies link_view_key()(
                #[trigger] s2[a],
            ) != link_view_key()(#[trigger] s2[b]) by {
                assert(link_view_key()(s2[a]) == link_view_key()(v.links[a]));
                assert(link_view_key()(s2[b]) == link_view_key()(v.links[b]));
            }
        },
    }
}

/// Law (one event): after a connection, registration, link creation or
/// re-binding, the event's value is the last entry of its list and no other
/// entry has its id; after a disconnection, unregistration or link removal,
/// no entry has its id, and after a disconnection every shown link of the
/// disconnected application is `Broken`; after a dispatched change, the
/// links keep their ids and those sourced from its entity show its version.
pub proof fn lemma_apply_entry(v: ControlCenterView, e: HubEventView)
    ensures
        ({
            let w = apply_spec(v, e);
            match e {
                HubEventView::AppConnected(r) => w.sessions.len() > 0 && w.sessions.last() == r
                    && forall|i: int| 0 <= i < w.sessions.len() - 1 ==> (#[trigger] w.sessions[i]).session_id != r.session_id,
                HubEventView::AppDisconnected(id) => (forall|i: int| 0 <= i < w.sessions.len() ==> (
                #[trigger] w.sessions[i]).session_id != id) && w.links.len() == v.links.len() && forall|i: int|
                    0 <= i < v.links.len() ==> {
                        &&& (#[trigger] w.links[i]).link_id == v.links[i].link_id
                        &&& (app_name_of(v.sessions, id) == Some(v.links[i].source_app) ==> w.links[i]
                            == LinkInfoView { status: LinkStatus::Broken, ..v.links[i] })
                        &&& (app_name_of(v.sessions, id) != Some(v.links[i].source_app) ==> w.links[i]
                            == v.links[i])
                    },
                HubEventView::EntityRegistered(d) => w.entities.len() > 0 && w.entities.last() == d
                    && forall|i: int| 0 <= i < w.entities.len() - 1 ==> (#[trigger] w.entities[i]).id != d.id,
                HubEventView::EntityUnregistered(id) => forall|i: int| 0 <= i < w.entities.len() ==> (
                #[trigger] w.entities[i]).id != id,
                HubEventView::LinkCreated(l) => w.links.len() > 0 && w.links.last() == l
                    && forall|i: int| 0 <= i < w.links.len() - 1 ==> (#[trigger] w.links[i]).link_id != l.link_id,
                HubEventView::LinkDestroyed(id) => forall|i: int| 0 <= i < w.links.len() ==> (
                #[trigger] w.links[i]).link_id != id,
                HubEventView::LinkRebound(l) => w.links.len() > 0 && w.links.last() == l
                    && forall|i: int| 0 <= i < w.links.len() - 1 ==> (#[trigger] w.links[i]).link_id != l.link_id,
                HubEventView::ChangeDispatched { event, .. } => w.links.len() == v.links.len() && forall|i: int|
                    0 <= i < v.links.len() ==> {
                        &&& (#[trigger] w.links[i]).link_id == v.links[i].link_id
                        &&& (v.links[i].source_entity == event.entity_id ==> w.links[i] == LinkInfoView {
                            last_synced_version: event.version,
                            ..v.links[i]
                        })
                        &&& (v.links[i].source_entity != event.entity_id ==> w.links[i] == v.links[i])
                    },
            }
        }),
{
    broadcast use vstd::seq_lib::group_filter_ensures;
    let w = apply_spec(v, e);
    match e {
        HubEventView::AppConnected(r) => {
            let f = v.sessions.filter(session_other_than(r.session_id));
            assert forall|i: int| 0 <= i < w.sessions.len() - 1 implies (#[trigger] w.sessions[i]).session_id
                != r.session_id by {
                assert(w.sessions[i] == f[i]);
            }
        },
        HubEventView::EntityRegistered(d) => {
            let f = v.entities.filter(entity_other_than(d.id));
            assert forall|i: int| 0 <= i < w.entities.len() - 1 implies (#[trigger] w.entities[i]).id != d.id by {
                assert(w.entities[i] == f[i]);
            }
        },
        HubEventView::LinkCreated(l) => {
            let f = v.links.filter(link_other_than(l.link_id));
            assert forall|i: int| 0 <= i < w.links.len() - 1 implies (#[trigger] w.links[i]).link_id != l.link_id by {
                assert(w.links[i] == f[i]);
            }
        },
        HubEventView::LinkRebound(l) => {
            let f = v.links.filter(link_other_than(l.link_id));
            assert forall|i: int| 0 <= i < w.links.len() - 1 implies (#[trigger] w.links[i]).link_id != l.link_id by {
                assert(w.links[i] == f[i]);
            }
        },
        _ => {},
    }
}

/// What a filtered sequence holds: the elements of `s` that satisfy `p`.
proof fn lemma_filter_members<T>(s: Seq<T>, p: spec_fn(T) -> bool)
    ensures
        forall|x: T| #[trigger] s.filter(p).contains(x) <==> s.contains(x) && p(x),
{
    assert forall|x: T| #[trigger] s.filter(p).contains(x) <==> s.contains(x) && p(x) by {
        if s.filter(p).contains(x) {
            s.lemma_filter_contains_rev(p, x);
            let j = choose|j: int| 0 <= j < s.filter(p).len() && s.filter(p)[j] == x;
            s.lemma_filter_pred(p, j);
        }
        if s.contains(x) && p(x) {
            let j = choose|j: int| 0 <= j < s.len() && s[j] == x;
            s.lemma_filter_contains(p, j);
        }
    }
}

/// Law (one event, what the lists hold): after a connection, registration,
/// link creation or re-binding, its list holds the event's value and every
/// entry it held before with another id, and nothing else; after a
/// disconnection, unregistration or link removal, its list holds every entry
/// it held before with another id, and nothing else; the lists an event does
/// not concern are unchanged.
pub proof fn lemma_apply_members(v: ControlCenterView, e: HubEventView)
    ensures
        ({
            let w = apply_spec(v, e);
            match e {
                HubEventView::AppConnected(r) => (forall|x: SessionRecordView| #[trigger] w.sessions.contains(x)
                    <==> x == r || (v.sessions.contains(x) && x.session_id != r.session_id)) && w.links == v.links
                    && w.entities == v.entities,
                HubEventView::AppDisconnected(id) => (forall|x: SessionRecordView| #[trigger] w.sessions.contains(x)
                    <==> v.sessions.contains(x) && x.session_id != id) && w.entities == v.entities,
                HubEventView::EntityRegistered(d) => (forall|x: EntityDescriptorView| #[trigger] w.entities.contains(x)
                    <==> x == d || (v.entities.contains(x) && x.id != d.id)) && w.links == v.links
                    && w.sessions == v.sessions,
                HubEventView::EntityUnregistered(id) => (forall|x: EntityDescriptorView| #[trigger] w.entities.contains(
                    x,
                ) <==> v.entities.contains(x) && x.id != id) && w.links == v.links && w.sessions == v.sessions,
                HubEventView::LinkCreated(l) => (forall|x: LinkInfoView| #[trigger] w.links.contains(x) <==> x == l || (
                v.links.contains(x) && x.link_id != l.link_id)) && w.entities == v.entities && w.sessions
                    == v.sessions,
                HubEventView::LinkDestroyed(id) => (forall|x: LinkInfoView| #[trigger] w.links.contains(x)
                    <==> v.links.contains(x) && x.link_id != id) && w.entities == v.entities && w.sessions
                    == v.sessions,
                HubEventView::LinkRebound(l) => (forall|x: LinkInfoView| #[trigger] w.links.contains(x) <==> x == l || (
                v.links.contains(x) && x.link_id != l.link_id)) && w.entities == v.entities && w.sessions
                    == v.sessions,
                HubEventView::ChangeDispatched { .. } => w.entities == v.entities && w.sessions == v.sessions,
            }
        }),
{
    let w = apply_spec(v, e);
    match e {
        HubEventView::AppConnected(r) => {
            let f = v.sessions.filter(session_other_than(r.session_id));
            lemma_filter_members(v.sessions, session_other_than(r.session_id));
            assert forall|x: SessionRecordView| #[trigger] w.sessions.contains(x) <==> x == r || (v.sessions.contains(x)
                && x.session_id != r.session_id) by {
                if w.sessions.contains(x) && x != r {
                    let j = choose|j: int| 0 <= j < w.sessions.len() && w.sessions[j] == x;
                    assert(f[j] == x);
                }
                if x == r {
                    assert(w.sessions[f.len() as int] == r);
                }
                if f.contains(x) {
                    let j = choose|j: int| 0 <= j < f.len() && f[j] == x;
                    assert(w.sessions[j] == x);
                }
            }
        },
        HubEventView::AppDisconnected(id) => {
            lemma_filter_members(v.sessions, session_other_than(id));
        },
        HubEventView::EntityRegistered(d) => {
            let f = v.entities.filter(entity_other_than(d.id));
            lemma_filter_members(v.entities, entity_other_than(d.id));
            assert forall|x: EntityDescriptorView| #[trigger] w.entities.contains(x) <==> x == d || (v.entities.contains(
                x,
            ) && x.id != d.id) by {
                if w.entities.contains(x) && x != d {
                    let j = choose|j: int| 0 <= j < w.entities.len() && w.entities[j] == x;
                    assert(f[j] == x);
                }
                if x == d {
                    assert(w.entities[f.len() as int] == d);
                }
                if f.contains(x) {
                    let j = choose|j: int| 0 <= j < f.len() && f[j] == x;
                    assert(w.entities[j] == x);
                }
            }
        },
        HubEventView::EntityUnregistered(id) => {
            lemma_filter_members(v.entities, entity_other_than(id));
        },
        HubEventView::LinkCreated(l) => {
            let f = v.links.filter(link_other_than(l.link_id));
            lemma_filter_members(v.links, link_other_than(l.link_id));
            assert forall|x: LinkInfoView| #[trigger] w.links.contains(x) <==> x == l || (v.links.contains(x)
                && x.link_id != l.link_id) by {
                if w.links.contains(x) && x != l {
                    let j = choose|j: int| 0 <= j < w.links.len() && w.links[j] == x;
                    assert(f[j] == x);
                }
                if x == l {
                    assert(w.links[f.len() as int] == l);
                }
                if f.contains(x) {
                    let j = choose|j: int| 0 <= j < f.len() && f[j] == x;
                    assert(w.links[j] == x);
                }
            }
        },
        HubEventView::LinkDestroyed(id) => {
            lemma_filter_members(v.links, link_other_than(id));
        },
        HubEventView::LinkRebound(l) => {
            let f = v.links.filter(link_other_than(l.link_id));
            lemma_filter_members(v.links, link_other_than(l.link_id));
            assert forall|x: LinkInfoView| #[trigger] w.links.contains(x) <==> x == l || (v.links.contains(x)
                && x.link_id != l.link_id) by {
                if w.links.contains(x) && x != l {
                    let j = choose|j: int| 0 <= j < w.links.len() && w.links[j] == x;
                    assert(f[j] == x);
                }
                if x == l {
                    assert(w.links[f.len() as int] == l);
                }
                if f.contains(x) {
                    let j = choose|j: int| 0 <= j < f.len() && f[j] == x;
                    assert(w.links[j] == x);
                }
            }
        },
        HubEventView::ChangeDispatched { .. } => {},
    }
}

/// The picture after each of `es`, in order.
pub open spec fn apply_all(v: ControlCenterView, es: Seq<HubEventView>) -> ControlCenterView
    decreases es.len(),
{
    if es.len() == 0 {
        v
    } else {
        apply_spec(apply_all(v, es.drop_last()), es.last())
    }
}

/// The views of a list of hub events.
pub open spec fn hub_events_view(s: Seq<HubEvent>) -> Seq<HubEventView> {
    s.map_values(|e: HubEvent| e@)
}

/// The log lines of a list of events, in order.
pub open spec fn log_lines(es: Seq<HubEventView>) -> Seq<Seq<char>> {
    es.map_values(|e: HubEventView| log_line(e))
}

/// Law (a batch of events): taking in `k` events counts `k` events and
/// appends one log line per event, in order.
pub proof fn lemma_batch_counts_and_logs(v: ControlCenterView, es: Seq<HubEventView>)
    requires
        v.event_count + es.len() <= usize::MAX,
    ensures
        apply_all(v, es).event_count == v.event_count + es.len(),
        apply_all(v, es).logs == v.logs + log_lines(es),
    decreases es.len(),
{
    if es.len() > 0 {
        lemma_batch_counts_and_logs(v, es.drop_last());
        assert(log_lines(es) =~= log_lines(es.drop_last()).push(log_line(es.last())));
    } else {
        assert(v.logs + log_lines(es) =~= v.logs);
    }
}

/// Law (a batch of events): whatever events the control center takes in,
/// it shows each application, link and entity at most once.
pub proof fn lemma_batch_keeps_ids_distinct(v: ControlCenterView, es: Seq<HubEventView>)
    requires
        ids_distinct(v),
    ensures
        ids_distinct(apply_all(v, es)),
    decreases es.len(),
{
    if es.len() > 0 {
        lemma_batch_keeps_ids_distinct(v, es.drop_last());
        lemma_apply_keeps_ids_distinct(apply_all(v, es.drop_last()), es.last());
    }
}

/// Law: after trimming, at most [`MAX_LOG_LINES`] lines remain, and they
/// are the newest lines, in order.
pub proof fn lemma_trim_keeps_newest(logs: Seq<Seq<char>>)
    ensures
        trimmed(logs).len() <= MAX_LOG_LINES,
        trimmed(logs).len() == logs.len() || trimmed(logs).len() == MAX_LOG_LINES,
        forall|i: int| 0 <= i < trimmed(logs).len() ==> #[trigger] trimmed(logs)[i] == logs[logs.len() - trimmed(logs).len() + i],
{
}

/// The texts of a list of strings.
pub open spec fn texts(s: Seq<String>) -> Seq<Seq<char>> {
    s.map_values(|t: String| t@)
}

/// The control center's state.
pub struct ControlCenterState {
    sessions: Vec<SessionRecord>,
    links: Vec<LinkInfo>,
    entities: Vec<EntityDescriptor>,
    logs: Vec<String>,
    event_count: usize,
}

impl View for ControlCenterState {
    type V = ControlCenterView;

    closed spec fn view(&self) -> ControlCenterView {
        ControlCenterView {
            sessions: sessions_view(self.sessions@),
            links: links_view(self.links@),
            entities: descriptors_view(self.entities@),
            logs: texts(self.logs@),
            event_count: self.event_count,
        }
    }
}

/// The records of `v` other than session `id`'s, in order.
fn without_session(v: Vec<SessionRecord>, id: AppSessionId) -> (r: Vec<SessionRecord>)
    ensures
        sessions_view(r@) == sessions_view(v@).filter(session_other_than(id)),
{
    let ghost all = sessions_view(v@);
    let mut r: Vec<SessionRecord> = Vec::new();
    let mut v = v;
    let mut i: usize = 0;
    while i < v.len()
        invariant
            i <= v@.len(),
            all == sessions_view(v@),
            sessions_view(r@) == all.take(i as int).filter(session_other_than(id)),
        decreases v.len() - i,
    {
        proof {
            assert(all.take(i + 1) == all.take(i as int).push(all[i as int]));
            all.take(i as int).lemma_filter_push(all[i as int], session_other_than(id));
        }
        if v[i].session_id != id {
            let ghost before = r@;
            r.push(v[i].clone());
            assert(sessions_view(r@) =~= sessions_view(before).push(all[i as int]));
        }
        i = i + 1;
    }
    assert(all.take(all.len() as int) == all);
    r
}

/// The entities of `v` other than `id`, in order.
fn without_entity(v: Vec<EntityDescriptor>, id: &EntityId) -> (r: Vec<EntityDescriptor>)
    ensures
        descriptors_view(r@) == descriptors_view(v@).filter(entity_other_than(id@)),
{
    let ghost all = descriptors_view(v@);
    let mut r: Vec<EntityDescriptor> = Vec::new();
    let mut i: usize = 0;
    while i < v.len()
        invariant
            i <= v@.len(),
            all == descriptors_view(v@),
            descriptors_view(r@) == all.take(i as int).filter(entity_other_than(id@)),
        decreases v.len() - i,
    {
        proof {
            assert(all.take(i + 1) == all.take(i as int).push(all[i as int]));
            all.take(i as int).lemma_filter_push(all[i as int], entity_other_than(id@));
        }
        if v[i].id.0 != id.0 {
            let ghost before = r@;
            r.push(v[i].clone());
            assert(descriptors_view(r@) =~= descriptors_view(before).push(all[i as int]));
        }
        i = i + 1;
    }
    assert(all.take(all.len() as int) == all);
    r
}

/// The links of `v` other than `id`, in order.
fn without_link(v: Vec<LinkInfo>, id: u128) -> (r: Vec<LinkInfo>)
    ensures
        links_view(r@) == links_view(v@).filter(link_other_than(id)),
{
    let ghost all = links_view(v@);
    let mut r: Vec<LinkInfo> = Vec::new();
    let mut i: usize = 0;
    while i < v.len()
        invariant
            i <= v@.len(),
            all == links_view(v@),
            links_view(r@) == all.take(i as int).filter(link_other_than(id)),
        decreases v.len() - i,
    {
        proof {
            assert(all.take(i + 1) == all.take(i as int).push(all[i as int]));
            all.take(i as int).lemma_filter_push(all[i as int], link_other_than(id));
        }
        if v[i].link_id.0 != id {
            let ghost before = r@;
            r.push(v[i].clone());
            assert(links_view(r@) =~= links_view(before).push(all[i as int]));
        }
        i = i + 1;
    }
    assert(all.take(all.len() as int) == all);
    r
}

/// The application name of the last record of session `id` in `v`.
fn shown_app_name(v: &Vec<SessionRecord>, id: AppSessionId) -> (r: Option<String>)
    ensures
        match r {
            Some(name) => app_name_of(sessions_view(v@), id) == Some(name@),
            None => app_name_of(sessions_view(v@), id) == None::<Seq<char>>,
        },
{
    let ghost sv = sessions_view(v@);
    let mut i: usize = v.len();
    assert(sv.take(sv.len() as int) =~= sv);
    while i > 0
        invariant
            i <= v@.len(),
            sv == sessions_view(v@),
            last_index(sv, session_key(), id) == last_index(sv.take(i as int), session_key(), id),
        decreases i,
    {
        let j = i - 1;
        assert(sv.take(i as int).drop_last() =~= sv.take(j as int));
        if v[j].session_id == id {
            return Some(v[j].app_name.clone());
        }
        i = j;
    }
    None
}

/// `v` with every link whose source application is `app` marked `Broken`.
fn break_links_of(v: &mut Vec<LinkInfo>, app: &String)
    ensures
        links_view(final(v)@) == break_app_links(links_view(old(v)@), app@),
{
    let ghost all = links_view(v@);
    let mut i: usize = 0;
    while i < v.len()
        invariant
            i <= v@.len(),
            all.len() == v@.len(),
            all == links_view(old(v)@),
            forall|j: int| 0 <= j < i ==> (#[trigger] v@[j])@ == break_app_links(all, app@)[j],
            forall|j: int| i <= j < v@.len() ==> (#[trigger] v@[j])@ == all[j],
        decreases v.len() - i,
    {
        if v[i].source_app == *app {
            let mut l = v.remove(i);
            l.status = LinkStatus::Broken;
            v.insert(i, l);
        }
        i = i + 1;
    }
    assert(links_view(v@) =~= break_app_links(all, app@));
}

impl ControlCenterState {
    /// An empty picture whose log holds one line: "Moufu Integration Hub Initialized.".
    pub fn new() -> (s: ControlCenterState)
        ensures
            s@.sessions == Seq::<SessionRecordView>::empty(),
            s@.links == Seq::<LinkInfoView>::empty(),
            s@.entities == Seq::<EntityDescriptorView>::empty(),
            s@.logs == seq!["Moufu Integration Hub Initialized."@],
            s@.event_count == 0,
    {
        let mut logs: Vec<String> = Vec::new();
        logs.push(String::from_str("Moufu Integration Hub Initialized."));
        let s = ControlCenterState {
            sessions: Vec::new(),
            links: Vec::new(),
            entities: Vec::new(),
            logs,
            event_count: 0,
        };
        assert(s@.sessions =~= Seq::<SessionRecordView>::empty());
        assert(s@.links =~= Seq::<LinkInfoView>::empty());
        assert(s@.entities =~= Seq::<EntityDescriptorView>::empty());
        assert(s@.logs =~= seq!["Moufu Integration Hub Initialized."@]);
        s
    }

    /// The connected applications.
    pub fn sessions(&self) -> (r: &Vec<SessionRecord>)
        ensures
            sessions_view(r@) == self@.sessions,
    {
        &self.sessions
    }

    /// The links shown.
    pub fn links(&self) -> (r: &Vec<LinkInfo>)
        ensures
            links_view(r@) == self@.links,
    {
        &self.links
    }

    /// The entities shown.
    pub fn entities(&self) -> (r: &Vec<EntityDescriptor>)
        ensures
            descriptors_view(r@) == self@.entities,
    {
        &self.entities
    }

    /// The activity log, oldest line first.
    pub fn logs(&self) -> (r: &Vec<String>)
        ensures
            texts(r@) == self@.logs,
    {
        &self.logs
    }

    /// Number of hub events taken in.
    pub fn event_count(&self) -> (n: usize)
        ensures
            n == self@.event_count,
    {
        self.event_count
    }

    /// The log line for `event`.
    fn log_line_of(event: &HubEvent) -> (line: String)
        ensures
            line@ == log_line(event@),
    {
        match event {
            HubEvent::AppConnected(r) => {
                let mut line = String::from_str("App connected: ");
                line.append(r.app_name.as_str());
                line.append(" (ID: ");
                push_uuid(&mut line, r.session_id);
                line.append(")");
                line
            },
            HubEvent::AppDisconnected(id) => {
                let mut line = String::from_str("App disconnected (ID: ");
                push_uuid(&mut line, *id);
                line.append(")");
                line
            },
            HubEvent::EntityRegistered(d) => {
                let mut line = String::from_str("Entity registered: ");
                line.append(d.id.as_str());
                line.append(" [App: ");
                line.append(d.source_app.as_str());
                line.append("]");
                line
            },
            HubEvent::EntityUnregistered(id) => {
                let mut line = String::from_str("Entity unregistered: ");
                line.append(id.as_str());
                line
            },
            HubEvent::LinkCreated(l) => {
                let mut line = String::from_str("Link established: ");
                line.append(l.source_entity.as_str());
                line.append(" -> ");
                line.append(l.target_entity.as_str());
                line
            },
            HubEvent::LinkDestroyed(id) => {
                let mut line = String::from_str("Link removed: ");
                push_uuid(&mut line, id.0);
                line
            },
            HubEvent::LinkRebound(l) => {
                let mut line = String::from_str("\u{1F504} Restored persisted link: ");
                line.append(l.source_entity.as_str());
                line.append(" -> ");
                line.append(l.target_entity.as_str());
                line
            },
            HubEvent::ChangeDispatched { event, subscribers_count } => {
                let mut line = String::from_str("Event synced: ");
                line.append(event.entity_id.as_str());
                line.append(" (v");
                push_decimal(&mut line, event.version);
                line.append(", transient=");
                push_bool(&mut line, event.is_transient);
                line.append(") -> ");
                push_decimal(&mut line, *subscribers_count as u64);
                line.append(" targets");
                line
            },
        }
    }

    /// Takes in one hub event (see [`apply_spec`]).
    pub fn apply_event(&mut self, event: HubEvent)
        requires
            old(self)@.event_count < usize::MAX,
        ensures
            final(self)@ == apply_spec(old(self)@, event@),
    {
        let ghost ev = event@;
        self.event_count = self.event_count + 1;
        let line = Self::log_line_of(&event);
        self.logs.push(line);
        assert(texts(self.logs@) =~= old(self)@.logs.push(log_line(ev)));
        match event {
            HubEvent::AppConnected(r) => {
                let mut kept = Vec::new();
                std::mem::swap(&mut kept, &mut self.sessions);
                let mut kept = without_session(kept, r.session_id);
                let ghost before = kept@;
                let ghost rv = r@;
                assert(rv == ev->AppConnected_0);
                kept.push(r);
                assert(sessions_view(kept@) =~= sessions_view(before).push(rv));
                self.sessions = kept;

            },
            HubEvent::AppDisconnected(id) => {
                match shown_app_name(&self.sessions, id) {
                    Some(app) => break_links_of(&mut self.links, &app),
                    None => {},
                }
                let mut kept = Vec::new();
                std::mem::swap(&mut kept, &mut self.sessions);
                self.sessions = without_session(kept, id);
            },
            HubEvent::EntityRegistered(d) => {
                let mut kept = Vec::new();
                std::mem::swap(&mut kept, &mut self.entities);
                let mut kept = without_entity(kept, &d.id);
                let ghost before = kept@;
                kept.push(d);
                assert(descriptors_view(kept@) =~= descriptors_view(before).push(ev->EntityRegistered_0));
                self.entities = kept;
            },
            HubEvent::EntityUnregistered(id) => {
                let mut kept = Vec::new();
                std::mem::swap(&mut kept, &mut self.entities);
                self.entities = without_entity(kept, &id);
            },
            HubEvent::LinkCreated(l) => {
                let mut kept = Vec::new();
                std::mem::swap(&mut kept, &mut self.links);
                let mut kept = without_link(kept, l.link_id.0);
                let ghost before = kept@;
                kept.push(l);
                assert(links_view(kept@) =~= links_view(before).push(ev->LinkCreated_0));
                self.links = kept;
            },
            HubEvent::LinkDestroyed(id) => {
                let mut kept = Vec::new();
                std::mem::swap(&mut kept, &mut self.links);
                self.links = without_link(kept, id.0);
            },
            HubEvent::LinkRebound(l) => {
                let mut kept = Vec::new();
                std::mem::swap(&mut kept, &mut self.links);
                let mut kept = without_link(kept, l.link_id.0);
                let ghost before = kept@;
                kept.push(l);
                assert(links_view(kept@) =~= links_view(before).push(ev->LinkRebound_0));
                self.links = kept;
            },
            HubEvent::ChangeDispatched { event, .. } => {
                let mut links = Vec::new();
                std::mem::swap(&mut links, &mut self.links);
                let ghost all = links_view(links@);
                let mut i: usize = 0;
                while i < links.len()
                    invariant
                        i <= links@.len(),
                        all.len() == links@.len(),
                        forall|j: int| 0 <= j < i ==> (#[trigger] links@[j])@ == sync_shown_links(
                            all,
                            event@.entity_id,
                            event.version,
                        )[j],
                        forall|j: int| i <= j < links@.len() ==> (#[trigger] links@[j])@ == all[j],
                    decreases links.len() - i,
                {
                    if links[i].source_entity.0 == event.entity_id.0 {
                        let mut l = links.remove(i);
                        l.last_synced_version = event.version;
                        links.insert(i, l);
                    }
                    i = i + 1;
                }
                self.links = links;
                assert(links_view(self.links@) =~= sync_shown_links(all, event@.entity_id, event.version));
            },
        }
    }

    /// Takes in a batch of hub events, in order (see [`apply_spec`]), then
    /// keeps only the newest [`MAX_LOG_LINES`] log lines.
    pub fn apply_events(&mut self, events: Vec<HubEvent>)
        requires
            old(self)@.event_count + events@.len() <= usize::MAX,
        ensures
            ({
                let w = apply_all(old(self)@, hub_events_view(events@));
                final(self)@ == (ControlCenterView { logs: trimmed(w.logs), ..w })
            }),
    {
        let ghost es = hub_events_view(events@);
        let mut i: usize = 0;
        assert(es.take(0) =~= Seq::<HubEventView>::empty());
        while i < events.len()
            invariant
                i <= events@.len(),
                es == hub_events_view(events@),
                old(self)@.event_count + events@.len() <= usize::MAX,
                self@ == apply_all(old(self)@, es.take(i as int)),
            decreases events.len() - i,
        {
            proof {
                lemma_batch_counts_and_logs(old(self)@, es.take(i as int));
                assert(es.take(i + 1).drop_last() =~= es.take(i as int));
            }
            self.apply_event(events[i].clone());
            i = i + 1;
        }
        assert(es.take(events@.len() as int) =~= es);
        self.trim_logs();
    }

    /// Keeps only the newest [`MAX_LOG_LINES`] log lines.
    pub fn trim_logs(&mut self)
        ensures
            final(self)@ == (ControlCenterView { logs: trimmed(old(self)@.logs), ..old(self)@ }),
    {
        if self.logs.len() > MAX_LOG_LINES {
            let at = self.logs.len() - MAX_LOG_LINES;
            let kept = self.logs.split_off(at);
            self.logs = kept;
            assert(texts(self.logs@) =~= trimmed(old(self)@.logs));
        }
    }
}

} // verus!
