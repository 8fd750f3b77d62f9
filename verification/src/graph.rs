//! The link graph: registered entities, their latest states, and the links
//! between them, with the per-entity link indices.

use vstd::prelude::*;
use crate::assoc::{
    assoc_map, lemma_assoc_absent, lemma_assoc_index, lemma_assoc_push, lemma_assoc_remove,
    lemma_assoc_update, unique_keys,
};
use crate::protocol::{
    AppCapabilities, AppCapabilitiesView, AppSessionId, EntityDescriptor, EntityDescriptorView,
    EntityId, LinkId, LinkInfo, LinkInfoView, LinkStatus, PayloadTransport, PayloadView, UtcTime,
    ChangeEvent, ChangeEventView, is_clock_reading, is_v4_uuid, utc_now,
};

verus! {

/// Abstract value of [`SessionRecord`].
pub struct SessionRecordView {
    pub session_id: AppSessionId,
    pub app_name: Seq<char>,
    pub app_version: Seq<char>,
    pub capabilities: AppCapabilitiesView,
    pub connected_at: UtcTime,
}

/// Record of a connected application session.
#[derive(Debug)]
pub struct SessionRecord {
    pub session_id: AppSessionId,
    pub app_name: String,
    pub app_version: String,
    pub capabilities: AppCapabilities,
    pub connected_at: UtcTime,
}

impl View for SessionRecord {
    type V = SessionRecordView;

    open spec fn view(&self) -> SessionRecordView {
        SessionRecordView {
            session_id: self.session_id,
            app_name: self.app_name@,
            app_version: self.app_version@,
            capabilities: self.capabilities@,
            connected_at: self.connected_at,
        }
    }
}

impl Clone for SessionRecord {
    fn clone(&self) -> (res: Self)
        ensures
            res@ == self@,
    {
        SessionRecord {
            session_id: self.session_id,
            app_name: self.app_name.clone(),
            app_version: self.app_version.clone(),
            capabilities: self.capabilities.clone(),
            connected_at: self.connected_at,
        }
    }
}

/// An entity registration and the session that owns the entity.
struct RegisteredEntity {
    descriptor: EntityDescriptor,
    owner: AppSessionId,
}

/// The latest recorded state of an entity.
struct EntityStateRecord {
    entity_id: EntityId,
    version: u64,
    payload: PayloadTransport,
}

/// The links recorded under one entity, in the order they were recorded.
struct LinkIndexEntry {
    entity_id: EntityId,
    link_ids: Vec<u128>,
}

spec fn entity_key() -> spec_fn(RegisteredEntity) -> Seq<char> {
    |r: RegisteredEntity| r.descriptor.id@
}

spec fn state_key() -> spec_fn(EntityStateRecord) -> Seq<char> {
    |r: EntityStateRecord| r.entity_id@
}

spec fn link_key() -> spec_fn(LinkInfo) -> u128 {
    |l: LinkInfo| l.link_id.0
}

spec fn index_key() -> spec_fn(LinkIndexEntry) -> Seq<char> {
    |e: LinkIndexEntry| e.entity_id@
}

spec fn index_view(s: Seq<LinkIndexEntry>) -> Map<Seq<char>, Seq<u128>> {
    assoc_map(s, index_key()).map_values(|e: LinkIndexEntry| e.link_ids@)
}

/// Copies a list of link ids.
fn copy_ids(v: &Vec<u128>) -> (res: Vec<u128>)
    ensures
        res@ == v@,
{
    let mut res: Vec<u128> = Vec::new();
    let mut i: usize = 0;
    while i < v.len()
        invariant
            i <= v.len(),
            res@ == v@.take(i as int),
        decreases v.len() - i,
    {
        res.push(v[i]);
        i = i + 1;
    }
    assert(v@.take(v.len() as int) == v@);
    res
}

/// The ids of `v` other than `id`, in order.
fn without_id(v: &Vec<u128>, id: u128) -> (res: Vec<u128>)
    ensures
        res@ == v@.filter(other_than(id)),
{
    let mut res: Vec<u128> = Vec::new();
    let mut i: usize = 0;
    while i < v.len()
        invariant
            i <= v.len(),
            res@ == v@.take(i as int).filter(other_than(id)),
        decreases v.len() - i,
    {
        proof {
            assert(v@.take(i + 1) == v@.take(i as int).push(v@[i as int]));
            v@.take(i as int).lemma_filter_push(v@[i as int], other_than(id));
        }
        if v[i] != id {
            res.push(v[i]);
        }
        i = i + 1;
    }
    assert(v@.take(v.len() as int) == v@);
    res
}

/// Abstract value of a [`LinkGraph`]: six finite maps.
pub struct LinkGraphView {
    /// Registered entities, by entity id.
    pub entities: Map<Seq<char>, EntityDescriptorView>,
    /// The session that registered each entity, by entity id.
    pub entity_owners: Map<Seq<char>, AppSessionId>,
    /// Latest cached version and payload, by entity id.
    pub entity_states: Map<Seq<char>, (u64, PayloadView)>,
    /// Links, by link id.
    pub links: Map<u128, LinkInfoView>,
    /// Ids of the links recorded with each entity as target.
    pub target_to_links: Map<Seq<char>, Seq<u128>>,
    /// Ids of the links recorded with each entity as source.
    pub source_to_links: Map<Seq<char>, Seq<u128>>,
}

/// The graph with nothing in it.
pub open spec fn empty_graph() -> LinkGraphView {
    LinkGraphView {
        entities: Map::empty(),
        entity_owners: Map::empty(),
        entity_states: Map::empty(),
        links: Map::empty(),
        target_to_links: Map::empty(),
        source_to_links: Map::empty(),
    }
}

/// The ids recorded under `k` in an index map; empty when there is no entry.
pub open spec fn index_list(m: Map<Seq<char>, Seq<u128>>, k: Seq<char>) -> Seq<u128> {
    if m.contains_key(k) {
        m[k]
    } else {
        Seq::empty()
    }
}

/// `s` lists the values of `m`, each exactly once, `key` giving each value's key.
pub open spec fn enumerates<K, V>(s: Seq<V>, m: Map<K, V>, key: spec_fn(V) -> K) -> bool {
    &&& forall|i: int| 0 <= i < s.len() ==> #[trigger] m.contains_key(key(s[i])) && m[key(s[i])] == s[i]
    &&& forall|k: K| #[trigger] m.contains_key(k) ==> exists|i: int| 0 <= i < s.len() && key(#[trigger] s[i]) == k
    &&& forall|i: int, j: int| 0 <= i < s.len() && 0 <= j < s.len() && i != j ==> key(#[trigger] s[i]) != key(#[trigger] s[j])
}

/// The key of a link view.
pub open spec fn link_view_key() -> spec_fn(LinkInfoView) -> u128 {
    |l: LinkInfoView| l.link_id
}

/// The key of an entity descriptor view.
pub open spec fn descriptor_view_key() -> spec_fn(EntityDescriptorView) -> Seq<char> {
    |d: EntityDescriptorView| d.id
}

/// `l` with its status set to `status`.
pub open spec fn with_status(l: LinkInfoView, status: LinkStatus) -> LinkInfoView {
    LinkInfoView { status: status, ..l }
}

/// `l` with its last synced version set to `version`.
pub open spec fn with_synced_version(l: LinkInfoView, version: u64) -> LinkInfoView {
    LinkInfoView { last_synced_version: version, ..l }
}

/// An in-place change applied to selected links.
pub enum LinkUpdate {
    /// Set the status to `Broken`.
    MarkBroken,
    /// Set the last synced version.
    SyncVersion(u64),
}

/// What a [`LinkUpdate`] does to one link.
pub open spec fn apply_update(u: LinkUpdate, l: LinkInfoView) -> LinkInfoView {
    match u {
        LinkUpdate::MarkBroken => with_status(l, LinkStatus::Broken),
        LinkUpdate::SyncVersion(v) => with_synced_version(l, v),
    }
}

/// `links` with `u` applied to every link whose id occurs in `ids`; the other
/// links, and the set of ids, unchanged.
pub open spec fn update_listed(links: Map<u128, LinkInfoView>, ids: Seq<u128>, u: LinkUpdate) -> Map<
    u128,
    LinkInfoView,
> {
    Map::new(
        |k: u128| links.contains_key(k),
        |k: u128|
            if ids.contains(k) {
                apply_update(u, links[k])
            } else {
                links[k]
            },
    )
}

/// The index map `m` with `id` appended to the list recorded under `k`.
pub open spec fn append_index(m: Map<Seq<char>, Seq<u128>>, k: Seq<char>, id: u128) -> Map<
    Seq<char>,
    Seq<u128>,
> {
    m.insert(k, index_list(m, k).push(id))
}

/// The predicate "is not `id`".
pub open spec fn other_than(id: u128) -> spec_fn(u128) -> bool {
    |x: u128| x != id
}

/// The index map `m` with every occurrence of `id` dropped from the list
/// recorded under `k`, when there is one.
pub open spec fn drop_from_index(m: Map<Seq<char>, Seq<u128>>, k: Seq<char>, id: u128) -> Map<
    Seq<char>,
    Seq<u128>,
> {
    if m.contains_key(k) {
        m.insert(k, m[k].filter(other_than(id)))
    } else {
        m
    }
}

/// `g` after `session` registers `d`: `d` replaces any registration under
/// its id, owned by `session`.
pub open spec fn registered(g: LinkGraphView, session: AppSessionId, d: EntityDescriptorView) -> LinkGraphView {
    LinkGraphView {
        entities: g.entities.insert(d.id, d),
        entity_owners: g.entity_owners.insert(d.id, session),
        ..g
    }
}

/// `g` after change `e`: the entity's latest state is `e`'s version and
/// payload, and every link recorded with the entity as source has `e`'s
/// version as last synced version.
pub open spec fn record_state(g: LinkGraphView, e: ChangeEventView) -> LinkGraphView {
    LinkGraphView {
        entity_states: g.entity_states.insert(e.entity_id, (e.version, e.payload)),
        links: update_listed(g.links, index_list(g.source_to_links, e.entity_id), LinkUpdate::SyncVersion(e.version)),
        ..g
    }
}

/// `g` without link `id`, whose id is dropped from the lists of its source
/// and target entities.
pub open spec fn destroy(g: LinkGraphView, id: u128) -> LinkGraphView {
    LinkGraphView {
        links: g.links.remove(id),
        source_to_links: drop_from_index(g.source_to_links, g.links[id].source_entity, id),
        target_to_links: drop_from_index(g.target_to_links, g.links[id].target_entity, id),
        ..g
    }
}

/// `g` with link `l` stored under its id and recorded in both indices.
pub open spec fn add_link(g: LinkGraphView, l: LinkInfoView) -> LinkGraphView {
    LinkGraphView {
        links: g.links.insert(l.link_id, l),
        source_to_links: append_index(g.source_to_links, l.source_entity, l.link_id),
        target_to_links: append_index(g.target_to_links, l.target_entity, l.link_id),
        ..g
    }
}

/// The status a restored link starts with: `Active` when both its entities
/// are registered, `Broken` otherwise.
pub open spec fn restored_status(g: LinkGraphView, l: LinkInfoView) -> LinkStatus {
    if g.entities.contains_key(l.source_entity) && g.entities.contains_key(l.target_entity) {
        LinkStatus::Active
    } else {
        LinkStatus::Broken
    }
}

/// Looks a link up by id.
pub open spec fn link_lookup(links: Map<u128, LinkInfoView>) -> spec_fn(u128) -> Option<LinkInfoView> {
    |id: u128| links.get(id)
}

/// The views of a list of links.
pub open spec fn links_view(s: Seq<LinkInfo>) -> Seq<LinkInfoView> {
    s.map_values(|l: LinkInfo| l@)
}

/// The views of a list of entity descriptors.
pub open spec fn descriptors_view(s: Seq<EntityDescriptor>) -> Seq<EntityDescriptorView> {
    s.map_values(|d: EntityDescriptor| d@)
}

/// Walks `cands` in order and re-activates each listed link that is `Broken`
/// and has both entities registered (per `entities`); gives the resulting
/// links and the re-activated links in the order they were re-activated.
pub open spec fn rebind(
    links: Map<u128, LinkInfoView>,
    entities: Map<Seq<char>, EntityDescriptorView>,
    cands: Seq<u128>,
) -> (Map<u128, LinkInfoView>, Seq<LinkInfoView>)
    decreases cands.len(),
{
    if cands.len() == 0 {
        (links, Seq::empty())
    } else {
        let (l, a) = rebind(links, entities, cands.drop_last());
        let id = cands.last();
        if l.contains_key(id) && l[id].status == LinkStatus::Broken && entities.contains_key(
            l[id].source_entity,
        ) && entities.contains_key(l[id].target_entity) {
            let up = with_status(l[id], LinkStatus::Active);
            (l.insert(id, up), a.push(up))
        } else {
            (l, a)
        }
    }
}

/// The ids of the links recorded under `entity` as source, then as target.
pub open spec fn linked_ids(g: LinkGraphView, entity: Seq<char>) -> Seq<u128> {
    index_list(g.source_to_links, entity) + index_list(g.target_to_links, entity)
}

/// Every stored link is listed under its source entity in the source index
/// and under its target entity in the target index.
pub open spec fn indexed(g: LinkGraphView) -> bool {
    forall|id: u128| #[trigger] g.links.contains_key(id) ==> {
        &&& index_list(g.source_to_links, g.links[id].source_entity).contains(id)
        &&& index_list(g.target_to_links, g.links[id].target_entity).contains(id)
    }
}

/// `b` stores a link under exactly the ids under which `a` does, each with
/// the same source and target entities.
pub open spec fn same_endpoints(a: Map<u128, LinkInfoView>, b: Map<u128, LinkInfoView>) -> bool {
    &&& forall|k: u128| #[trigger] b.contains_key(k) <==> a.contains_key(k)
    &&& forall|k: u128| #[trigger] b.contains_key(k) ==> b[k].source_entity == a[k].source_entity
        && b[k].target_entity == a[k].target_entity
}

/// Link `l` carries changes of `entity` to an entity that `session` registered.
pub open spec fn link_feeds(g: LinkGraphView, l: LinkInfoView, entity: Seq<char>, session: AppSessionId) -> bool {
    &&& l.source_entity == entity
    &&& g.entity_owners.contains_key(l.target_entity)
    &&& g.entity_owners[l.target_entity] == session
}

/// Some stored link has `entity` as source and, as target, an entity that
/// `session` registered.
pub open spec fn feeds(g: LinkGraphView, entity: Seq<char>, session: AppSessionId) -> bool {
    exists|id: u128| #[trigger] g.links.contains_key(id) && link_feeds(g, g.links[id], entity, session)
}

/// The entity ids registered by `session`.
pub open spec fn owned_by(g: LinkGraphView, session: AppSessionId) -> Set<Seq<char>> {
    Set::new(|k: Seq<char>| g.entity_owners.contains_key(k) && g.entity_owners[k] == session)
}

/// Some entity of `keys` has `id` in its source or target list.
pub open spec fn linked_to_any(g: LinkGraphView, keys: Set<Seq<char>>, id: u128) -> bool {
    exists|k: Seq<char>| keys.contains(k) && #[trigger] linked_ids(g, k).contains(id)
}

/// `g` after unregistering every entity of `gone`: those entities, their
/// owners and their states are gone, and every link recorded with one of
/// them as source or target is `Broken`. The link indices are unchanged.
pub open spec fn unregister_all(g: LinkGraphView, gone: Set<Seq<char>>) -> LinkGraphView {
    LinkGraphView {
        entities: g.entities.remove_keys(gone),
        entity_owners: g.entity_owners.remove_keys(gone),
        entity_states: g.entity_states.remove_keys(gone),
        links: Map::new(
            |k: u128| g.links.contains_key(k),
            |k: u128|
                if linked_to_any(g, gone, k) {
                    with_status(g.links[k], LinkStatus::Broken)
                } else {
                    g.links[k]
                },
        ),
        ..g
    }
}

/// `g` after `session` disconnects: every entity it registered is unregistered.
pub open spec fn disconnect(g: LinkGraphView, session: AppSessionId) -> LinkGraphView {
    unregister_all(g, owned_by(g, session))
}

/// `g` after unregistering one entity: it, its owner and its state are gone,
/// and every link recorded with it as source or target is `Broken`.
pub open spec fn unregister(g: LinkGraphView, k: Seq<char>) -> LinkGraphView {
    LinkGraphView {
        entities: g.entities.remove(k),
        entity_owners: g.entity_owners.remove(k),
        entity_states: g.entity_states.remove(k),
        links: update_listed(g.links, linked_ids(g, k), LinkUpdate::MarkBroken),
        ..g
    }
}

/// Some of the first `n` ids of `s` has text `k`.
pub open spec fn ids_listed(s: Seq<EntityId>, n: int, k: Seq<char>) -> bool {
    exists|m: int| 0 <= m < n && (#[trigger] s[m])@ == k
}

/// The texts of the first `n` ids of `s`.
pub open spec fn listed_set(s: Seq<EntityId>, n: int) -> Set<Seq<char>> {
    Set::new(|k: Seq<char>| ids_listed(s, n, k))
}

spec fn owned_among(es: Seq<RegisteredEntity>, n: int, session: AppSessionId, k: Seq<char>) -> bool {
    exists|j: int| 0 <= j < n && entity_key()(#[trigger] es[j]) == k && es[j].owner == session
}

/// Unregistering one more entity after a set of them.
proof fn lemma_unregister_all_step(g: LinkGraphView, gone: Set<Seq<char>>, k: Seq<char>)
    ensures
        unregister(unregister_all(g, gone), k) == unregister_all(g, gone.insert(k)),
{
    let cur = unregister_all(g, gone);
    let lhs = unregister(cur, k);
    let rhs = unregister_all(g, gone.insert(k));
    assert(lhs.entities =~= rhs.entities);
    assert(lhs.entity_owners =~= rhs.entity_owners);
    assert(lhs.entity_states =~= rhs.entity_states);
    assert(linked_ids(cur, k) == linked_ids(g, k));
    assert forall|id: u128| #[trigger] lhs.links.contains_key(id) implies lhs.links[id] == rhs.links[id] by {
        if linked_ids(g, k).contains(id) {
            assert(linked_to_any(g, gone.insert(k), id));
        } else if linked_to_any(g, gone, id) {
            let w = choose|w: Seq<char>| gone.contains(w) && #[trigger] linked_ids(g, w).contains(id);
            assert(gone.insert(k).contains(w));
        } else {
            if linked_to_any(g, gone.insert(k), id) {
                let w = choose|w: Seq<char>| gone.insert(k).contains(w) && #[trigger] linked_ids(g, w).contains(id);
                assert(gone.contains(w));
            }
        }
    }
    assert(lhs.links =~= rhs.links);
}

/// Applying an idempotent update over a list of ids, one id more.
proof fn lemma_update_listed_step(links: Map<u128, LinkInfoView>, ids: Seq<u128>, i: int, u: LinkUpdate)
    requires
        0 <= i < ids.len(),
    ensures
        ({
            let cur = update_listed(links, ids.take(i), u);
            update_listed(links, ids.take(i + 1), u) == if cur.contains_key(ids[i]) {
                cur.insert(ids[i], apply_update(u, cur[ids[i]]))
            } else {
                cur
            }
        }),
{
    let cur = update_listed(links, ids.take(i), u);
    let next = update_listed(links, ids.take(i + 1), u);
    assert forall|k: u128| ids.take(i + 1).contains(k) <==> (ids.take(i).contains(k) || k == ids[i]) by {
        if ids.take(i + 1).contains(k) {
            let j = choose|j: int| 0 <= j < i + 1 && #[trigger] ids.take(i + 1)[j] == k;
            if j < i {
                assert(ids.take(i)[j] == k);
            }
        }
        if ids.take(i).contains(k) {
            let j = choose|j: int| 0 <= j < i && #[trigger] ids.take(i)[j] == k;
            assert(ids.take(i + 1)[j] == k);
        }
        if k == ids[i] {
            assert(ids.take(i + 1)[i] == k);
        }
    }
    let expected = if cur.contains_key(ids[i]) {
        cur.insert(ids[i], apply_update(u, cur[ids[i]]))
    } else {
        cur
    };
    assert(next =~= expected);
}


/// `s` keeps every element under the predicate "is not `id`" when `id` does
/// not occur in it.
proof fn lemma_filter_without(s: Seq<u128>, id: u128)
    requires
        !s.contains(id),
    ensures
        s.filter(other_than(id)) == s,
    decreases s.len(),
{
    if s.len() == 0 {
        assert(s.filter(other_than(id)) =~= s) by {
            reveal(Seq::filter);
        }
    } else {
        assert(!s.drop_last().contains(id)) by {
            if s.drop_last().contains(id) {
                let j = choose|j: int| 0 <= j < s.drop_last().len() && s.drop_last()[j] == id;
                assert(s[j] == id);
            }
        }
        lemma_filter_without(s.drop_last(), id);
        assert(s.drop_last().push(s.last()) =~= s);
        s.drop_last().lemma_filter_push(s.last(), other_than(id));
    }
}

/// Law: a registered entity reads back as registered, owned by its session.
pub proof fn lemma_register_read_back(g: LinkGraphView, session: AppSessionId, d: EntityDescriptorView)
    ensures
        registered(g, session, d).entities.contains_key(d.id),
        registered(g, session, d).entities[d.id] == d,
        registered(g, session, d).entity_owners[d.id] == session,
{
}

/// Law: the state recorded from a change reads back as that change's version
/// and payload.
pub proof fn lemma_state_read_back(g: LinkGraphView, e: ChangeEventView)
    ensures
        record_state(g, e).entity_states.contains_key(e.entity_id),
        record_state(g, e).entity_states[e.entity_id] == (e.version, e.payload),
{
}

/// Law: destroying a link just created under a fresh id gives back the links
/// and the index lists the graph had before.
pub proof fn lemma_destroy_undoes_create(g: LinkGraphView, l: LinkInfoView)
    requires
        !g.links.contains_key(l.link_id),
        !index_list(g.source_to_links, l.source_entity).contains(l.link_id),
        !index_list(g.target_to_links, l.target_entity).contains(l.link_id),
    ensures
        destroy(add_link(g, l), l.link_id).links == g.links,
        forall|k: Seq<char>| #[trigger] index_list(destroy(add_link(g, l), l.link_id).source_to_links, k)
            == index_list(g.source_to_links, k),
        forall|k: Seq<char>| #[trigger] index_list(destroy(add_link(g, l), l.link_id).target_to_links, k)
            == index_list(g.target_to_links, k),
        destroy(add_link(g, l), l.link_id).entities == g.entities,
        destroy(add_link(g, l), l.link_id).entity_states == g.entity_states,
{
    let id = l.link_id;
    let g1 = add_link(g, l);
    let g2 = destroy(g1, id);
    assert(g1.links[id] == l);
    assert(g2.links =~= g.links);
    let src = index_list(g.source_to_links, l.source_entity);
    let tgt = index_list(g.target_to_links, l.target_entity);
    lemma_filter_without(src, id);
    lemma_filter_without(tgt, id);
    src.lemma_filter_push(id, other_than(id));
    tgt.lemma_filter_push(id, other_than(id));
    assert forall|k: Seq<char>| #[trigger] index_list(g2.source_to_links, k) == index_list(g.source_to_links, k) by {}
    assert forall|k: Seq<char>| #[trigger] index_list(g2.target_to_links, k) == index_list(g.target_to_links, k) by {}
}

/// A link listed under an entity as source or as target is among its linked ids.
proof fn lemma_linked_contains(g: LinkGraphView, e: Seq<char>, id: u128)
    requires
        index_list(g.source_to_links, e).contains(id) || index_list(g.target_to_links, e).contains(id),
    ensures
        linked_ids(g, e).contains(id),
{
    let a = index_list(g.source_to_links, e);
    let b = index_list(g.target_to_links, e);
    if a.contains(id) {
        let j = choose|j: int| 0 <= j < a.len() && a[j] == id;
        assert(linked_ids(g, e)[j] == id);
    } else {
        let j = choose|j: int| 0 <= j < b.len() && b[j] == id;
        assert(linked_ids(g, e)[a.len() + j] == id);
    }
}

/// The ids recorded under an entity are exactly those in its source list or
/// its target list.
pub proof fn lemma_linked_ids_contains(g: LinkGraphView, e: Seq<char>, id: u128)
    ensures
        linked_ids(g, e).contains(id) <==> (index_list(g.source_to_links, e).contains(id) || index_list(
            g.target_to_links,
            e,
        ).contains(id)),
{
    let a = index_list(g.source_to_links, e);
    let b = index_list(g.target_to_links, e);
    if a.contains(id) || b.contains(id) {
        lemma_linked_contains(g, e, id);
    }
    if linked_ids(g, e).contains(id) {
        let j = choose|j: int| 0 <= j < linked_ids(g, e).len() && linked_ids(g, e)[j] == id;
        if j < a.len() {
            assert(a[j] == id);
        } else {
            assert(b[j - a.len()] == id);
        }
    }
}

/// Law (restoring a persisted link): the restored link is stored under its
/// id with every field it was saved with except its status, which is
/// `Active` exactly when both its source and its target entity are
/// registered, and `Broken` otherwise; it is listed under both entities, and
/// no registration changes.
pub proof fn lemma_restore_status(g: LinkGraphView, l: LinkInfoView)
    ensures
        ({
            let g2 = add_link(g, with_status(l, restored_status(g, l)));
            &&& g2.links.contains_key(l.link_id)
            &&& g2.links[l.link_id] == LinkInfoView { status: g2.links[l.link_id].status, ..l }
            &&& (g2.links[l.link_id].status == LinkStatus::Active <==> g.entities.contains_key(l.source_entity)
                && g.entities.contains_key(l.target_entity))
            &&& (g2.links[l.link_id].status == LinkStatus::Broken <==> !(g.entities.contains_key(l.source_entity)
                && g.entities.contains_key(l.target_entity)))
            &&& index_list(g2.source_to_links, l.source_entity).contains(l.link_id)
            &&& index_list(g2.target_to_links, l.target_entity).contains(l.link_id)
            &&& g2.entities == g.entities
            &&& g2.entity_owners == g.entity_owners
            &&& forall|id: u128| id != l.link_id ==> (#[trigger] g2.links.contains_key(id) <==> g.links.contains_key(id))
                && (g.links.contains_key(id) ==> g2.links[id] == g.links[id])
        }),
{
    let g2 = add_link(g, with_status(l, restored_status(g, l)));
    let sl = index_list(g.source_to_links, l.source_entity).push(l.link_id);
    let tl = index_list(g.target_to_links, l.target_entity).push(l.link_id);
    assert(sl[sl.len() - 1] == l.link_id);
    assert(tl[tl.len() - 1] == l.link_id);
}

/// Law: in an indexed graph, unregistering an entity marks `Broken` every
/// stored link that has it as source or as target, and the entity is no
/// longer registered.
pub proof fn lemma_unregister_breaks_links(g: LinkGraphView, e: Seq<char>, id: u128)
    requires
        indexed(g),
        g.links.contains_key(id),
        g.links[id].source_entity == e || g.links[id].target_entity == e,
    ensures
        unregister(g, e).links[id].status == LinkStatus::Broken,
        !unregister(g, e).entities.contains_key(e),
{
    lemma_linked_contains(g, e, id);
}

/// Law: in an indexed graph, after a session disconnects, every stored link
/// with an entity that the session had registered as source or as target is
/// `Broken`.
pub proof fn lemma_disconnect_breaks_links(g: LinkGraphView, session: AppSessionId, id: u128)
    requires
        indexed(g),
        g.links.contains_key(id),
        owned_by(g, session).contains(g.links[id].source_entity) || owned_by(g, session).contains(
            g.links[id].target_entity,
        ),
    ensures
        disconnect(g, session).links[id].status == LinkStatus::Broken,
{
    let l = g.links[id];
    let k = if owned_by(g, session).contains(l.source_entity) {
        l.source_entity
    } else {
        l.target_entity
    };
    lemma_linked_contains(g, k, id);
    assert(linked_to_any(g, owned_by(g, session), id));
}

/// An element that `f` maps to `Some(b)` puts `b` in the filter-mapped sequence.
proof fn lemma_filter_map_has<A, B>(s: Seq<A>, f: spec_fn(A) -> Option<B>, j: int)
    requires
        0 <= j < s.len(),
        f(s[j]) is Some,
    ensures
        s.filter_map(f).contains(f(s[j])->0),
    decreases s.len(),
{
    let rest = s.drop_last();
    let r = rest.filter_map(f);
    if j == s.len() - 1 {
        assert((r + seq![f(s[j])->0])[r.len() as int] == f(s[j])->0);
    } else {
        assert(rest[j] == s[j]);
        lemma_filter_map_has(rest, f, j);
        let k = choose|k: int| 0 <= k < r.len() && r[k] == f(s[j])->0;
        match f(s.last()) {
            Some(x) => {
                assert((r + seq![x])[k] == r[k]);
            },
            None => {},
        }
    }
}

/// Law (source lookup): in an indexed graph, the links found for `entity`
/// as source include every stored link whose source is `entity`.
pub proof fn lemma_source_lookup_complete(g: LinkGraphView, entity: Seq<char>, id: u128)
    requires
        indexed(g),
        g.links.contains_key(id),
        g.links[id].source_entity == entity,
    ensures
        index_list(g.source_to_links, entity).filter_map(link_lookup(g.links)).contains(g.links[id]),
{
    let s = index_list(g.source_to_links, entity);
    let j = choose|j: int| 0 <= j < s.len() && s[j] == id;
    lemma_filter_map_has(s, link_lookup(g.links), j);
}

/// Law (re-binding by endpoint): in an indexed graph, re-binding for an
/// entity re-activates every `Broken` stored link that has the entity as
/// source or as target and whose two entities are registered.
pub proof fn lemma_rebind_reaches_endpoint_links(g: LinkGraphView, entity: Seq<char>, id: u128)
    requires
        indexed(g),
        links_keyed(g.links),
        g.links.contains_key(id),
        g.links[id].source_entity == entity || g.links[id].target_entity == entity,
        g.links[id].status == LinkStatus::Broken,
        endpoints_registered(g.entities, g.links[id]),
    ensures
        rebind(g.links, g.entities, linked_ids(g, entity)).0[id].status == LinkStatus::Active,
{
    lemma_linked_contains(g, entity, id);
    lemma_rebind(g.links, g.entities, linked_ids(g, entity));
}

/// Law (disconnect): when a session disconnects, exactly the entities it
/// registered lose their registration, owner and recorded state, the others
/// keep them; a stored link becomes `Broken`, with nothing else changed,
/// exactly when it is listed (as source or as target) under an entity the
/// session registered; every other link, and the link indices, are unchanged.
pub proof fn lemma_disconnect_effect(g: LinkGraphView, session: AppSessionId)
    ensures
        ({
            let g2 = disconnect(g, session);
            &&& forall|k: Seq<char>| #[trigger] g2.entities.contains_key(k) <==> g.entities.contains_key(k) && !(
            g.entity_owners.contains_key(k) && g.entity_owners[k] == session)
            &&& forall|k: Seq<char>| #[trigger] g2.entities.contains_key(k) ==> g2.entities[k] == g.entities[k]
            &&& forall|k: Seq<char>| #[trigger] g2.entity_owners.contains_key(k) <==> g.entity_owners.contains_key(k)
                && g.entity_owners[k] != session
            &&& forall|k: Seq<char>| #[trigger] g2.entity_owners.contains_key(k) ==> g2.entity_owners[k] == g.entity_owners[k]
            &&& forall|k: Seq<char>| #[trigger] g2.entity_states.contains_key(k) <==> g.entity_states.contains_key(k)
                && !(g.entity_owners.contains_key(k) && g.entity_owners[k] == session)
            &&& forall|lid: u128| #[trigger] g2.links.contains_key(lid) <==> g.links.contains_key(lid)
            &&& forall|lid: u128| #[trigger] g.links.contains_key(lid) ==> g2.links[lid] == if exists|k: Seq<char>|
                g.entity_owners.contains_key(k) && g.entity_owners[k] == session && (#[trigger] index_list(
                    g.source_to_links,
                    k,
                ).contains(lid) || index_list(g.target_to_links, k).contains(lid)) {
                LinkInfoView { status: LinkStatus::Broken, ..g.links[lid] }
            } else {
                g.links[lid]
            }
            &&& g2.source_to_links == g.source_to_links
            &&& g2.target_to_links == g.target_to_links
        }),
{
    let g2 = disconnect(g, session);
    let gone = owned_by(g, session);
    assert forall|lid: u128| #[trigger] g.links.contains_key(lid) implies g2.links[lid] == if exists|k: Seq<char>|
        g.entity_owners.contains_key(k) && g.entity_owners[k] == session && (#[trigger] index_list(
            g.source_to_links,
            k,
        ).contains(lid) || index_list(g.target_to_links, k).contains(lid)) {
        LinkInfoView { status: LinkStatus::Broken, ..g.links[lid] }
    } else {
        g.links[lid]
    } by {
        if linked_to_any(g, gone, lid) {
            let k = choose|k: Seq<char>| gone.contains(k) && #[trigger] linked_ids(g, k).contains(lid);
            lemma_linked_ids_contains(g, k, lid);
            assert(index_list(g.source_to_links, k).contains(lid) || index_list(g.target_to_links, k).contains(lid));
        }
        if exists|k: Seq<char>|
            g.entity_owners.contains_key(k) && g.entity_owners[k] == session && (#[trigger] index_list(
                g.source_to_links,
                k,
            ).contains(lid) || index_list(g.target_to_links, k).contains(lid)) {
            let k = choose|k: Seq<char>|
                g.entity_owners.contains_key(k) && g.entity_owners[k] == session && (#[trigger] index_list(
                    g.source_to_links,
                    k,
                ).contains(lid) || index_list(g.target_to_links, k).contains(lid));
            lemma_linked_ids_contains(g, k, lid);
            assert(gone.contains(k));
            assert(linked_to_any(g, gone, lid));
        }
    }
}

/// Changing links without changing their ids or endpoints, and leaving the
/// indices alone, keeps a graph indexed.
proof fn lemma_indexed_relinked(g: LinkGraphView, g2: LinkGraphView)
    requires
        indexed(g),
        same_endpoints(g.links, g2.links),
        g2.source_to_links == g.source_to_links,
        g2.target_to_links == g.target_to_links,
    ensures
        indexed(g2),
{
    assert forall|id: u128| #[trigger] g2.links.contains_key(id) implies {
        &&& index_list(g2.source_to_links, g2.links[id].source_entity).contains(id)
        &&& index_list(g2.target_to_links, g2.links[id].target_entity).contains(id)
    } by {
        assert(g.links.contains_key(id));
    }
}

/// An in-place update keeps every link's id and endpoints.
proof fn lemma_update_listed_endpoints(links: Map<u128, LinkInfoView>, ids: Seq<u128>, u: LinkUpdate)
    ensures
        same_endpoints(links, update_listed(links, ids, u)),
{
}

/// Re-binding keeps every link's id and endpoints.
proof fn lemma_rebind_endpoints(
    links: Map<u128, LinkInfoView>,
    entities: Map<Seq<char>, EntityDescriptorView>,
    cands: Seq<u128>,
)
    requires
        links_keyed(links),
    ensures
        same_endpoints(links, rebind(links, entities, cands).0),
{
    lemma_rebind(links, entities, cands);
}

/// A list recorded in an index map keeps its ids when an id is appended anywhere.
proof fn lemma_append_keeps(m: Map<Seq<char>, Seq<u128>>, k: Seq<char>, id: u128, k2: Seq<char>, x: u128)
    requires
        index_list(m, k2).contains(x),
    ensures
        index_list(append_index(m, k, id), k2).contains(x),
{
    if k2 == k {
        let j = choose|j: int| 0 <= j < index_list(m, k2).len() && index_list(m, k2)[j] == x;
        assert(index_list(append_index(m, k, id), k2)[j] == x);
    }
}

/// Adding a link keeps a graph indexed.
proof fn lemma_add_link_indexed(g: LinkGraphView, l: LinkInfoView)
    requires
        indexed(g),
    ensures
        indexed(add_link(g, l)),
{
    let g2 = add_link(g, l);
    assert forall|id: u128| #[trigger] g2.links.contains_key(id) implies {
        &&& index_list(g2.source_to_links, g2.links[id].source_entity).contains(id)
        &&& index_list(g2.target_to_links, g2.links[id].target_entity).contains(id)
    } by {
        if id == l.link_id {
            let s = index_list(g.source_to_links, l.source_entity).push(id);
            let t = index_list(g.target_to_links, l.target_entity).push(id);
            assert(s[s.len() - 1] == id);
            assert(t[t.len() - 1] == id);
        } else {
            lemma_append_keeps(g.source_to_links, l.source_entity, l.link_id, g.links[id].source_entity, id);
            lemma_append_keeps(g.target_to_links, l.target_entity, l.link_id, g.links[id].target_entity, id);
        }
    }
}

/// A list recorded in an index map keeps its other ids when an id is dropped.
proof fn lemma_drop_keeps(m: Map<Seq<char>, Seq<u128>>, k: Seq<char>, id: u128, k2: Seq<char>, x: u128)
    requires
        index_list(m, k2).contains(x),
        x != id,
    ensures
        index_list(drop_from_index(m, k, id), k2).contains(x),
{
    if k2 == k && m.contains_key(k) {
        let j = choose|j: int| 0 <= j < m[k].len() && m[k][j] == x;
        m[k].lemma_filter_contains(other_than(id), j);
    }
}

/// Destroying a stored link keeps a graph indexed.
proof fn lemma_destroy_indexed(g: LinkGraphView, id: u128)
    requires
        indexed(g),
        g.links.contains_key(id),
    ensures
        indexed(destroy(g, id)),
{
    let g2 = destroy(g, id);
    assert forall|x: u128| #[trigger] g2.links.contains_key(x) implies {
        &&& index_list(g2.source_to_links, g2.links[x].source_entity).contains(x)
        &&& index_list(g2.target_to_links, g2.links[x].target_entity).contains(x)
    } by {
        assert(g.links.contains_key(x));
        lemma_drop_keeps(g.source_to_links, g.links[id].source_entity, id, g.links[x].source_entity, x);
        lemma_drop_keeps(g.target_to_links, g.links[id].target_entity, id, g.links[x].target_entity, x);
    }
}

/// Law: after a session disconnects, no registered entity is owned by it.
pub proof fn lemma_disconnect_releases_entities(g: LinkGraphView, session: AppSessionId)
    ensures
        forall|k: Seq<char>| #[trigger] disconnect(g, session).entity_owners.contains_key(k)
            ==> disconnect(g, session).entity_owners[k] != session,
{
}

/// One element more of a sequence, as seen by `contains`.
proof fn lemma_contains_drop_last(s: Seq<u128>, x: u128)
    requires
        s.len() > 0,
    ensures
        s.contains(x) <==> (s.drop_last().contains(x) || x == s.last()),
{
    if s.contains(x) {
        let j = choose|j: int| 0 <= j < s.len() && s[j] == x;
        if j < s.len() - 1 {
            assert(s.drop_last()[j] == x);
        }
    }
    if s.drop_last().contains(x) {
        let j = choose|j: int| 0 <= j < s.drop_last().len() && s.drop_last()[j] == x;
        assert(s[j] == x);
    }
    if x == s.last() {
        assert(s[s.len() - 1] == x);
    }
}

/// Both entities of link `l` are registered in `entities`.
pub open spec fn endpoints_registered(entities: Map<Seq<char>, EntityDescriptorView>, l: LinkInfoView) -> bool {
    entities.contains_key(l.source_entity) && entities.contains_key(l.target_entity)
}

/// Every link is stored under its own id.
pub open spec fn links_keyed(links: Map<u128, LinkInfoView>) -> bool {
    forall|k: u128| #[trigger] links.contains_key(k) ==> links[k].link_id == k
}

/// Law (re-binding): re-binding changes no link but re-activates broken
/// listed links whose two entities are registered; it re-activates every
/// such link; and it reports exactly the links it re-activated, as stored.
pub proof fn lemma_rebind(
    links: Map<u128, LinkInfoView>,
    entities: Map<Seq<char>, EntityDescriptorView>,
    cands: Seq<u128>,
)
    requires
        links_keyed(links),
    ensures
        ({
            let (l, a) = rebind(links, entities, cands);
            &&& forall|id: u128| #[trigger] l.contains_key(id) <==> links.contains_key(id)
            &&& forall|id: u128| #[trigger] l.contains_key(id) ==> l[id] == links[id] || (
                links[id].status == LinkStatus::Broken
                && l[id] == with_status(links[id], LinkStatus::Active)
                && cands.contains(id)
                && endpoints_registered(entities, links[id])
            )
            &&& forall|id: u128| cands.contains(id) && #[trigger] links.contains_key(id)
                && links[id].status == LinkStatus::Broken && endpoints_registered(entities, links[id])
                ==> l[id].status == LinkStatus::Active
            &&& forall|i: int| 0 <= i < a.len() ==> {
                let x = #[trigger] a[i];
                &&& l.contains_key(x.link_id)
                &&& l[x.link_id] == x
                &&& links[x.link_id].status == LinkStatus::Broken
                &&& x == with_status(links[x.link_id], LinkStatus::Active)
                &&& endpoints_registered(entities, links[x.link_id])
            }
            &&& forall|id: u128| #[trigger] l.contains_key(id) && l[id] != links[id]
                ==> exists|i: int| 0 <= i < a.len() && (#[trigger] a[i]).link_id == id
        }),
    decreases cands.len(),
{
    if cands.len() > 0 {
        lemma_rebind(links, entities, cands.drop_last());
        let (l0, a0) = rebind(links, entities, cands.drop_last());
        let id = cands.last();
        let (l, a) = rebind(links, entities, cands);
        assert forall|x: u128| cands.contains(x) <==> (cands.drop_last().contains(x) || x == id) by {
            lemma_contains_drop_last(cands, x);
        }
        if l0.contains_key(id) && l0[id].status == LinkStatus::Broken && entities.contains_key(l0[id].source_entity)
            && entities.contains_key(l0[id].target_entity) {
            let up = with_status(l0[id], LinkStatus::Active);
            assert(l0[id] == links[id]);
            assert(up.link_id == id);
            assert(l == l0.insert(id, up));
            assert(a == a0.push(up));
            assert forall|i: int| 0 <= i < a.len() implies {
                let x = #[trigger] a[i];
                &&& l.contains_key(x.link_id)
                &&& l[x.link_id] == x
                &&& links[x.link_id].status == LinkStatus::Broken
                &&& x == with_status(links[x.link_id], LinkStatus::Active)
                &&& endpoints_registered(entities, links[x.link_id])
            } by {
                if i < a0.len() {
                    assert(a[i] == a0[i]);
                    assert(l0[a0[i].link_id] == a0[i]);
                    assert(a0[i].link_id != id);
                }
            }
            assert forall|x: u128| #[trigger] l.contains_key(x) && l[x] != links[x]
                implies exists|i: int| 0 <= i < a.len() && (#[trigger] a[i]).link_id == x by {
                if x == id {
                    assert(a[a0.len() as int].link_id == x);
                } else {
                    let i = choose|i: int| 0 <= i < a0.len() && (#[trigger] a0[i]).link_id == x;
                    assert(a[i] == a0[i]);
                }
            }
        } else {
            assert forall|x: u128| #[trigger] l.contains_key(x) && l[x] != links[x]
                implies exists|i: int| 0 <= i < a.len() && (#[trigger] a[i]).link_id == x by {
                let i = choose|i: int| 0 <= i < a0.len() && (#[trigger] a0[i]).link_id == x;
            }
        }
    }
}

/// Law (persistent links): a restored link whose entities are both missing
/// starts `Broken`, stays `Broken` when only its source registers, and is
/// re-activated, and reported, when its target registers.
pub proof fn lemma_restored_link_rebinds(
    g: LinkGraphView,
    l: LinkInfoView,
    s1: AppSessionId,
    d1: EntityDescriptorView,
    s2: AppSessionId,
    d2: EntityDescriptorView,
)
    requires
        links_keyed(g.links),
        !g.links.contains_key(l.link_id),
        !g.entities.contains_key(l.source_entity),
        !g.entities.contains_key(l.target_entity),
        l.source_entity != l.target_entity,
        d1.id == l.source_entity,
        d2.id == l.target_entity,
    ensures
        ({
            let id = l.link_id;
            let g1 = add_link(g, with_status(l, restored_status(g, l)));
            let g2 = registered(g1, s1, d1);
            let (links2, a2) = rebind(g2.links, g2.entities, linked_ids(g2, d1.id));
            let g3 = registered(LinkGraphView { links: links2, ..g2 }, s2, d2);
            let (links3, a3) = rebind(g3.links, g3.entities, linked_ids(g3, d2.id));
            &&& g1.links[id].status == LinkStatus::Broken
            &&& links2[id].status == LinkStatus::Broken
            &&& forall|i: int| 0 <= i < a2.len() ==> (#[trigger] a2[i]).link_id != id
            &&& links3[id].status == LinkStatus::Active
            &&& exists|i: int| 0 <= i < a3.len() && (#[trigger] a3[i]).link_id == id && a3[i] == links3[id]
        }),
{
    let id = l.link_id;
    let g1 = add_link(g, with_status(l, restored_status(g, l)));
    let g2 = registered(g1, s1, d1);
    assert(links_keyed(g2.links));
    lemma_rebind(g2.links, g2.entities, linked_ids(g2, d1.id));
    let (links2, a2) = rebind(g2.links, g2.entities, linked_ids(g2, d1.id));
    assert(!endpoints_registered(g2.entities, g2.links[id]));
    assert forall|i: int| 0 <= i < a2.len() implies (#[trigger] a2[i]).link_id != id by {
        if a2[i].link_id == id {
            assert(endpoints_registered(g2.entities, g2.links[id]));
        }
    }
    let g3 = registered(LinkGraphView { links: links2, ..g2 }, s2, d2);
    assert(links2.contains_key(id));
    assert(links_keyed(g3.links)) by {
        assert forall|k: u128| #[trigger] links2.contains_key(k) implies links2[k].link_id == k by {
            assert(g2.links.contains_key(k));
        }
    }
    let cands = linked_ids(g3, d2.id);
    lemma_rebind(g3.links, g3.entities, cands);
    let (links3, a3) = rebind(g3.links, g3.entities, cands);
    let tl = index_list(g.target_to_links, l.target_entity).push(id);
    assert(index_list(g3.target_to_links, d2.id) == tl);
    assert(tl[tl.len() - 1] == id);
    assert(cands[index_list(g3.source_to_links, d2.id).len() + tl.len() - 1] == id);
    assert(cands.contains(id));
    assert(endpoints_registered(g3.entities, g3.links[id]));
    assert(links3[id] != g3.links[id]);
    assert(links3.contains_key(id));
    let i = choose|i: int| 0 <= i < a3.len() && (#[trigger] a3[i]).link_id == id;
    assert(a3[i] == links3[id]);
}

/// Manages registered entities and the links between them.
pub struct LinkGraph {
    entities: Vec<RegisteredEntity>,
    entity_states: Vec<EntityStateRecord>,
    links: Vec<LinkInfo>,
    target_to_links: Vec<LinkIndexEntry>,
    source_to_links: Vec<LinkIndexEntry>,
}

impl View for LinkGraph {
    type V = LinkGraphView;

    closed spec fn view(&self) -> LinkGraphView {
        LinkGraphView {
            entities: assoc_map(self.entities@, entity_key()).map_values(
                |r: RegisteredEntity| r.descriptor@,
            ),
            entity_owners: assoc_map(self.entities@, entity_key()).map_values(
                |r: RegisteredEntity| r.owner,
            ),
            entity_states: assoc_map(self.entity_states@, state_key()).map_values(
                |r: EntityStateRecord| (r.version, r.payload@),
            ),
            links: assoc_map(self.links@, link_key()).map_values(|l: LinkInfo| l@),
            target_to_links: index_view(self.target_to_links@),
            source_to_links: index_view(self.source_to_links@),
        }
    }
}

impl LinkGraph {
    /// No key occurs twice in any of the stores.
    spec fn stores_ok(&self) -> bool {
        &&& unique_keys(self.entities@, entity_key())
        &&& unique_keys(self.entity_states@, state_key())
        &&& unique_keys(self.links@, link_key())
        &&& unique_keys(self.target_to_links@, index_key())
        &&& unique_keys(self.source_to_links@, index_key())
    }

    /// Well-formedness: no key occurs twice in any of the stores, and every
    /// stored link is listed under its source and target entities.
    pub closed spec fn wf(&self) -> bool {
        &&& self.stores_ok()
        &&& indexed(self@)
    }

    /// An empty graph.
    pub fn new() -> (g: LinkGraph)
        ensures
            g.wf(),
            g@ == empty_graph(),
    {
        let g = LinkGraph {
            entities: Vec::new(),
            entity_states: Vec::new(),
            links: Vec::new(),
            target_to_links: Vec::new(),
            source_to_links: Vec::new(),
        };
        assert(g@.entities =~= Map::<Seq<char>, EntityDescriptorView>::empty());
        assert(g@.entity_owners =~= Map::<Seq<char>, AppSessionId>::empty());
        assert(g@.entity_states =~= Map::<Seq<char>, (u64, PayloadView)>::empty());
        assert(g@.links =~= Map::<u128, LinkInfoView>::empty());
        assert(g@.target_to_links =~= Map::<Seq<char>, Seq<u128>>::empty());
        assert(g@.source_to_links =~= Map::<Seq<char>, Seq<u128>>::empty());
        g
    }
}

impl Default for LinkGraph {
    /// An empty graph.
    fn default() -> (g: LinkGraph)
        ensures
            g.wf(),
            g@ == empty_graph(),
    {
        LinkGraph::new()
    }
}

impl LinkGraph {

    /// A well-formed graph lists every stored link under its source and its
    /// target entity.
    pub proof fn lemma_wf_indexed(&self)
        requires
            self.wf(),
        ensures
            indexed(self@),
    {
    }

    /// Every link of a well-formed graph is stored under its own id.
    pub proof fn lemma_links_keyed(&self)
        requires
            self.wf(),
        ensures
            links_keyed(self@.links),
    {
        assert forall|k: u128| #[trigger] self@.links.contains_key(k) implies self@.links[k].link_id == k by {
            let i = choose|i: int| 0 <= i < self.links@.len() && link_key()(#[trigger] self.links@[i]) == k;
            lemma_assoc_index(self.links@, link_key(), i);
        }
    }

    fn find_entity(&self, id: &EntityId) -> (r: Option<usize>)
        requires
            self.stores_ok(),
        ensures
            match r {
                Some(i) => i < self.entities@.len() && self.entities@[i as int].descriptor.id@ == id@
                    && self@.entities.contains_key(id@)
                    && self@.entities[id@] == self.entities@[i as int].descriptor@
                    && self@.entity_owners[id@] == self.entities@[i as int].owner,
                None => !self@.entities.contains_key(id@) && !self@.entity_owners.contains_key(id@),
            },
    {
        let mut i: usize = 0;
        while i < self.entities.len()
            invariant
                i <= self.entities@.len(),
                self.stores_ok(),
                forall|j: int| 0 <= j < i ==> (#[trigger] self.entities@[j]).descriptor.id@ != id@,
            decreases self.entities.len() - i,
        {
            if self.entities[i].descriptor.id.0 == id.0 {
                proof {
                    lemma_assoc_index(self.entities@, entity_key(), i as int);
                }
                return Some(i);
            }
            i = i + 1;
        }
        proof {
            lemma_assoc_absent(self.entities@, entity_key(), id@);
        }
        None
    }

    fn find_state(&self, id: &EntityId) -> (r: Option<usize>)
        requires
            self.stores_ok(),
        ensures
            match r {
                Some(i) => i < self.entity_states@.len() && self.entity_states@[i as int].entity_id@ == id@
                    && self@.entity_states.contains_key(id@)
                    && self@.entity_states[id@] == (self.entity_states@[i as int].version, self.entity_states@[i as int].payload@),
                None => !self@.entity_states.contains_key(id@),
            },
    {
        let mut i: usize = 0;
        while i < self.entity_states.len()
            invariant
                i <= self.entity_states@.len(),
                self.stores_ok(),
                forall|j: int| 0 <= j < i ==> (#[trigger] self.entity_states@[j]).entity_id@ != id@,
            decreases self.entity_states.len() - i,
        {
            if self.entity_states[i].entity_id.0 == id.0 {
                proof {
                    lemma_assoc_index(self.entity_states@, state_key(), i as int);
                }
                return Some(i);
            }
            i = i + 1;
        }
        proof {
            lemma_assoc_absent(self.entity_states@, state_key(), id@);
        }
        None
    }

    fn find_link(&self, id: u128) -> (r: Option<usize>)
        requires
            self.stores_ok(),
        ensures
            match r {
                Some(i) => i < self.links@.len() && self.links@[i as int].link_id.0 == id
                    && self@.links.contains_key(id) && self@.links[id] == self.links@[i as int]@,
                None => !self@.links.contains_key(id),
            },
    {
        let mut i: usize = 0;
        while i < self.links.len()
            invariant
                i <= self.links@.len(),
                self.stores_ok(),
                forall|j: int| 0 <= j < i ==> (#[trigger] self.links@[j]).link_id.0 != id,
            decreases self.links.len() - i,
        {
            if self.links[i].link_id.0 == id {
                proof {
                    lemma_assoc_index(self.links@, link_key(), i as int);
                }
                return Some(i);
            }
            i = i + 1;
        }
        proof {
            lemma_assoc_absent(self.links@, link_key(), id);
        }
        None
    }

    fn find_index_entry(index: &Vec<LinkIndexEntry>, id: &EntityId) -> (r: Option<usize>)
        requires
            unique_keys(index@, index_key()),
        ensures
            match r {
                Some(i) => i < index@.len() && index@[i as int].entity_id@ == id@
                    && assoc_map(index@, index_key()).contains_key(id@)
                    && assoc_map(index@, index_key())[id@] == index@[i as int],
                None => !assoc_map(index@, index_key()).contains_key(id@),
            },
    {
        let mut i: usize = 0;
        while i < index.len()
            invariant
                i <= index@.len(),
                unique_keys(index@, index_key()),
                forall|j: int| 0 <= j < i ==> (#[trigger] index@[j]).entity_id@ != id@,
            decreases index.len() - i,
        {
            if index[i].entity_id.0 == id.0 {
                proof {
                    lemma_assoc_index(index@, index_key(), i as int);
                }
                return Some(i);
            }
            i = i + 1;
        }
        proof {
            lemma_assoc_absent(index@, index_key(), id@);
        }
        None
    }

    /// Records `descriptor` as registered by `session_id`, replacing any earlier
    /// registration under the same entity id.
    pub fn register_entity(&mut self, session_id: AppSessionId, descriptor: EntityDescriptor)
        requires
            old(self).wf(),
        ensures
            final(self).wf(),
            final(self)@ == registered(old(self)@, session_id, descriptor@),
    {
        let ghost d = descriptor@;
        let rec = RegisteredEntity { descriptor, owner: session_id };
        match self.find_entity(&rec.descriptor.id) {
            Some(i) => {
                proof {
                    lemma_assoc_update(self.entities@, entity_key(), i as int, rec);
                }
                self.entities.set(i, rec);
            },
            None => {
                proof {
                    lemma_assoc_push(self.entities@, entity_key(), rec);
                }
                self.entities.push(rec);
            },
        }
        assert(self@.entities =~= old(self)@.entities.insert(d.id, d));
        assert(self@.entity_owners =~= old(self)@.entity_owners.insert(d.id, session_id));
        proof {
            lemma_indexed_relinked(old(self)@, self@);
        }
    }

    /// Appends `id` to the list recorded under `entity` in `index`.
    fn index_append(index: &mut Vec<LinkIndexEntry>, entity: &EntityId, id: u128)
        requires
            unique_keys(old(index)@, index_key()),
        ensures
            unique_keys(final(index)@, index_key()),
            index_view(final(index)@) == append_index(index_view(old(index)@), entity@, id),
    {
        match Self::find_index_entry(index, entity) {
            Some(i) => {
                let mut e = index.remove(i);
                e.link_ids.push(id);
                let ghost ge = e;
                proof {
                    lemma_assoc_update(old(index)@, index_key(), i as int, ge);
                }
                index.insert(i, e);
                assert(index@ =~= old(index)@.update(i as int, ge));
            },
            None => {
                let mut ids: Vec<u128> = Vec::new();
                ids.push(id);
                let e = LinkIndexEntry { entity_id: entity.clone(), link_ids: ids };
                proof {
                    lemma_assoc_push(old(index)@, index_key(), e);
                }
                index.push(e);
                assert(e.link_ids@ =~= Seq::<u128>::empty().push(id));
            },
        }
        assert(index_view(index@) =~= append_index(index_view(old(index)@), entity@, id));
    }

    /// Drops every occurrence of `id` from the list recorded under `entity`.
    fn index_drop(index: &mut Vec<LinkIndexEntry>, entity: &EntityId, id: u128)
        requires
            unique_keys(old(index)@, index_key()),
        ensures
            unique_keys(final(index)@, index_key()),
            index_view(final(index)@) == drop_from_index(index_view(old(index)@), entity@, id),
    {
        match Self::find_index_entry(index, entity) {
            Some(i) => {
                let mut e = index.remove(i);
                e.link_ids = without_id(&e.link_ids, id);
                let ghost ge = e;
                proof {
                    lemma_assoc_update(old(index)@, index_key(), i as int, ge);
                }
                index.insert(i, e);
                assert(index@ =~= old(index)@.update(i as int, ge));
                assert(index_view(index@) =~= drop_from_index(index_view(old(index)@), entity@, id));
            },
            None => {
                assert(index_view(index@) =~= drop_from_index(index_view(old(index)@), entity@, id));
            },
        }
    }

    /// Applies `u` to every stored link whose id occurs in `ids`.
    fn apply_to_listed(&mut self, ids: &Vec<u128>, u: LinkUpdate)
        requires
            old(self).stores_ok(),
        ensures
            final(self).stores_ok(),
            final(self)@ == (LinkGraphView {
                links: update_listed(old(self)@.links, ids@, u),
                ..old(self)@
            }),
    {
        let mut i: usize = 0;
        assert(update_listed(old(self)@.links, ids@.take(0), u) =~= old(self)@.links);
        while i < ids.len()
            invariant
                i <= ids@.len(),
                self.stores_ok(),
                self.entities == old(self).entities,
                self.entity_states == old(self).entity_states,
                self.target_to_links == old(self).target_to_links,
                self.source_to_links == old(self).source_to_links,
                self@.links == update_listed(old(self)@.links, ids@.take(i as int), u),
            decreases ids.len() - i,
        {
            let id = ids[i];
            proof {
                lemma_update_listed_step(old(self)@.links, ids@, i as int, u);
            }
            match self.find_link(id) {
                Some(j) => {
                    let ghost before = self.links@;
                    let ghost cur = self@.links;
                    let mut l = self.links.remove(j);
                    match u {
                        LinkUpdate::MarkBroken => {
                            l.status = LinkStatus::Broken;
                        },
                        LinkUpdate::SyncVersion(v) => {
                            l.last_synced_version = v;
                        },
                    }
                    let ghost gl = l;
                    proof {
                        assert(gl@ == apply_update(u, before[j as int]@));
                        lemma_assoc_update(before, link_key(), j as int, gl);
                    }
                    self.links.insert(j, l);
                    assert(self.links@ =~= before.update(j as int, gl));
                    assert(self@.links =~= cur.insert(id, apply_update(u, cur[id])));
                },
                None => {},
            }
            i = i + 1;
        }
        assert(ids@.take(ids.len() as int) == ids@);
    }


    /// Stores `link` under its id, replacing any link stored under that id.
    fn links_put(&mut self, link: LinkInfo)
        requires
            old(self).stores_ok(),
        ensures
            final(self).stores_ok(),
            final(self)@ == (LinkGraphView {
                links: old(self)@.links.insert(link@.link_id, link@),
                ..old(self)@
            }),
    {
        let ghost gl = link;
        match self.find_link(link.link_id.0) {
            Some(j) => {
                proof {
                    lemma_assoc_update(self.links@, link_key(), j as int, gl);
                }
                self.links.set(j, link);
            },
            None => {
                proof {
                    lemma_assoc_push(self.links@, link_key(), gl);
                }
                self.links.push(link);
            },
        }
        assert(self@.links =~= old(self)@.links.insert(gl@.link_id, gl@));
    }

    /// Stores `link` and records its id under its source and target entities.
    fn add_link_record(&mut self, link: LinkInfo)
        requires
            old(self).stores_ok(),
        ensures
            final(self).stores_ok(),
            final(self)@ == add_link(old(self)@, link@),
    {
        let id = link.link_id.0;
        Self::index_append(&mut self.source_to_links, &link.source_entity, id);
        Self::index_append(&mut self.target_to_links, &link.target_entity, id);
        self.links_put(link);
    }

    /// Removes the entity, its owner and its cached state, and marks `Broken`
    /// every link recorded with it as source or as target. The link indices
    /// are unchanged.
    pub fn unregister_entity(&mut self, entity_id: &EntityId)
        requires
            old(self).wf(),
        ensures
            final(self).wf(),
            final(self)@ == unregister(old(self)@, entity_id@),
    {
        match self.find_entity(entity_id) {
            Some(i) => {
                proof {
                    lemma_assoc_remove(self.entities@, entity_key(), i as int);
                }
                self.entities.remove(i);
            },
            None => {},
        }
        match self.find_state(entity_id) {
            Some(i) => {
                proof {
                    lemma_assoc_remove(self.entity_states@, state_key(), i as int);
                }
                self.entity_states.remove(i);
            },
            None => {},
        }
        assert(self@.entities =~= old(self)@.entities.remove(entity_id@));
        assert(self@.entity_owners =~= old(self)@.entity_owners.remove(entity_id@));
        assert(self@.entity_states =~= old(self)@.entity_states.remove(entity_id@));
        let mut ids = match Self::find_index_entry(&self.source_to_links, entity_id) {
            Some(i) => copy_ids(&self.source_to_links[i].link_ids),
            None => Vec::new(),
        };
        let mut more = match Self::find_index_entry(&self.target_to_links, entity_id) {
            Some(i) => copy_ids(&self.target_to_links[i].link_ids),
            None => Vec::new(),
        };
        ids.append(&mut more);
        assert(ids@ == linked_ids(old(self)@, entity_id@));
        self.apply_to_listed(&ids, LinkUpdate::MarkBroken);
        proof {
            lemma_update_listed_endpoints(old(self)@.links, ids@, LinkUpdate::MarkBroken);
            lemma_indexed_relinked(old(self)@, self@);
        }
    }

    /// The registration of an entity, if it is registered.
    pub fn get_entity(&self, id: &EntityId) -> (r: Option<&EntityDescriptor>)
        requires
            self.wf(),
        ensures
            match r {
                Some(d) => self@.entities.contains_key(id@) && d@ == self@.entities[id@],
                None => !self@.entities.contains_key(id@),
            },
    {
        match self.find_entity(id) {
            Some(i) => Some(&self.entities[i].descriptor),
            None => None,
        }
    }

    /// Records `event`'s version and payload as the entity's latest state, and
    /// sets the last synced version of every link recorded with the entity as
    /// source to the event's version.
    pub fn update_entity_state(&mut self, event: &ChangeEvent)
        requires
            old(self).wf(),
        ensures
            final(self).wf(),
            final(self)@ == record_state(old(self)@, event@),
    {
        let rec = EntityStateRecord {
            entity_id: event.entity_id.clone(),
            version: event.version,
            payload: event.payload.clone(),
        };
        let ghost gr = rec;
        match self.find_state(&event.entity_id) {
            Some(i) => {
                proof {
                    lemma_assoc_update(self.entity_states@, state_key(), i as int, gr);
                }
                self.entity_states.set(i, rec);
            },
            None => {
                proof {
                    lemma_assoc_push(self.entity_states@, state_key(), gr);
                }
                self.entity_states.push(rec);
            },
        }
        assert(self@.entity_states =~= old(self)@.entity_states.insert(
            event@.entity_id,
            (event.version, event@.payload),
        ));
        let ids = match Self::find_index_entry(&self.source_to_links, &event.entity_id) {
            Some(i) => copy_ids(&self.source_to_links[i].link_ids),
            None => Vec::new(),
        };
        assert(ids@ == index_list(old(self)@.source_to_links, event@.entity_id));
        self.apply_to_listed(&ids, LinkUpdate::SyncVersion(event.version));
        proof {
            lemma_update_listed_endpoints(old(self)@.links, ids@, LinkUpdate::SyncVersion(event.version));
            lemma_indexed_relinked(old(self)@, self@);
        }
    }

    /// The latest recorded version and payload of an entity.
    pub fn get_entity_state(&self, entity_id: &EntityId) -> (r: Option<(u64, PayloadTransport)>)
        requires
            self.wf(),
        ensures
            match r {
                Some((v, p)) => self@.entity_states.contains_key(entity_id@)
                    && self@.entity_states[entity_id@] == (v, p@),
                None => !self@.entity_states.contains_key(entity_id@),
            },
    {
        match self.find_state(entity_id) {
            Some(i) => Some((self.entity_states[i].version, self.entity_states[i].payload.clone())),
            None => None,
        }
    }

    /// Restores a persisted link: it becomes `Active` when both its entities
    /// are registered and `Broken` otherwise, and is recorded in both indices.
    pub fn restore_link(&mut self, link: LinkInfo)
        requires
            old(self).wf(),
        ensures
            final(self).wf(),
            final(self)@ == add_link(old(self)@, with_status(link@, restored_status(old(self)@, link@))),
    {
        let mut link = link;
        let has_source = self.find_entity(&link.source_entity).is_some();
        let has_target = self.find_entity(&link.target_entity).is_some();
        if has_source && has_target {
            link.status = LinkStatus::Active;
        } else {
            link.status = LinkStatus::Broken;
        }
        let ghost gl = link@;
        self.add_link_record(link);
        proof {
            lemma_add_link_indexed(old(self)@, gl);
        }
    }

    /// Creates an `Active` link with the given id and creation time, last
    /// synced version 0, and records it in both indices.
    pub fn create_link_with(
        &mut self,
        link_id: LinkId,
        created_at: UtcTime,
        source_app: String,
        source_entity: EntityId,
        target_app: String,
        target_entity: EntityId,
        data_type: String,
    ) -> (link: LinkInfo)
        requires
            old(self).wf(),
        ensures
            final(self).wf(),
            link@ == (LinkInfoView {
                link_id: link_id.0,
                source_app: source_app@,
                source_entity: source_entity@,
                target_app: target_app@,
                target_entity: target_entity@,
                data_type: data_type@,
                status: LinkStatus::Active,
                last_synced_version: 0,
                created_at: created_at,
            }),
            final(self)@ == add_link(old(self)@, link@),
    {
        let link = LinkInfo {
            link_id,
            source_app,
            source_entity,
            target_app,
            target_entity,
            data_type,
            status: LinkStatus::Active,
            last_synced_version: 0,
            created_at,
        };
        self.add_link_record(link.clone());
        proof {
            lemma_add_link_indexed(old(self)@, link@);
        }
        link
    }

    /// Creates an `Active` link under a fresh random id, created now.
    pub fn create_link(
        &mut self,
        source_app: String,
        source_entity: EntityId,
        target_app: String,
        target_entity: EntityId,
        data_type: String,
    ) -> (link: LinkInfo)
        requires
            old(self).wf(),
        ensures
            final(self).wf(),
            is_v4_uuid(link@.link_id),
            is_clock_reading(link@.created_at),
            link@.source_app == source_app@,
            link@.source_entity == source_entity@,
            link@.target_app == target_app@,
            link@.target_entity == target_entity@,
            link@.data_type == data_type@,
            link@.status == LinkStatus::Active,
            link@.last_synced_version == 0,
            final(self)@ == add_link(old(self)@, link@),
    {
        let link_id = LinkId::new();
        let created_at = utc_now();
        self.create_link_with(
            link_id,
            created_at,
            source_app,
            source_entity,
            target_app,
            target_entity,
            data_type,
        )
    }

    /// Removes a link and drops its id from the lists of its source and
    /// target entities; gives the removed link, or `None` when no link has
    /// that id (and then changes nothing).
    pub fn destroy_link(&mut self, link_id: &LinkId) -> (r: Option<LinkInfo>)
        requires
            old(self).wf(),
        ensures
            final(self).wf(),
            match r {
                Some(l) => old(self)@.links.contains_key(link_id.0)
                    && l@ == old(self)@.links[link_id.0]
                    && final(self)@ == destroy(old(self)@, link_id.0),
                None => !old(self)@.links.contains_key(link_id.0) && final(self)@ == old(self)@,
            },
    {
        match self.find_link(link_id.0) {
            Some(j) => {
                proof {
                    lemma_assoc_remove(self.links@, link_key(), j as int);
                }
                let link = self.links.remove(j);
                assert(self@.links =~= old(self)@.links.remove(link_id.0));
                Self::index_drop(&mut self.source_to_links, &link.source_entity, link_id.0);
                Self::index_drop(&mut self.target_to_links, &link.target_entity, link_id.0);
                proof {
                    lemma_destroy_indexed(old(self)@, link_id.0);
                }
                Some(link)
            },
            None => None,
        }
    }


    /// All registered entities, each once, in no promised order.
    pub fn list_entities(&self) -> (r: Vec<EntityDescriptor>)
        requires
            self.wf(),
        ensures
            enumerates(descriptors_view(r@), self@.entities, descriptor_view_key()),
    {
        let mut r: Vec<EntityDescriptor> = Vec::new();
        let mut i: usize = 0;
        while i < self.entities.len()
            invariant
                i <= self.entities@.len(),
                self.wf(),
                r@.len() == i,
                forall|j: int| 0 <= j < i ==> (#[trigger] r@[j])@ == self.entities@[j].descriptor@,
            decreases self.entities.len() - i,
        {
            r.push(self.entities[i].descriptor.clone());
            i = i + 1;
        }
        let ghost rv = descriptors_view(r@);
        let ghost m = assoc_map(self.entities@, entity_key());
        assert forall|j: int| 0 <= j < rv.len() implies #[trigger] self@.entities.contains_key(
            descriptor_view_key()(rv[j]),
        ) && self@.entities[descriptor_view_key()(rv[j])] == rv[j] by {
            lemma_assoc_index(self.entities@, entity_key(), j);
        }
        assert forall|k: Seq<char>| #[trigger] self@.entities.contains_key(k) implies exists|j: int|
            0 <= j < rv.len() && descriptor_view_key()(#[trigger] rv[j]) == k by {
            let j = choose|j: int| 0 <= j < self.entities@.len() && entity_key()(#[trigger] self.entities@[j]) == k;
            assert(descriptor_view_key()(rv[j]) == k);
        }
        assert forall|a: int, b: int| 0 <= a < rv.len() && 0 <= b < rv.len() && a != b implies descriptor_view_key()(
            #[trigger] rv[a],
        ) != descriptor_view_key()(#[trigger] rv[b]) by {
            assert(entity_key()(self.entities@[a]) != entity_key()(self.entities@[b]));
        }
        r
    }

    /// All links, each once, in no promised order.
    pub fn list_links(&self) -> (r: Vec<LinkInfo>)
        requires
            self.wf(),
        ensures
            enumerates(links_view(r@), self@.links, link_view_key()),
    {
        let mut r: Vec<LinkInfo> = Vec::new();
        let mut i: usize = 0;
        while i < self.links.len()
            invariant
                i <= self.links@.len(),
                self.wf(),
                r@.len() == i,
                forall|j: int| 0 <= j < i ==> (#[trigger] r@[j])@ == self.links@[j]@,
            decreases self.links.len() - i,
        {
            r.push(self.links[i].clone());
            i = i + 1;
        }
        let ghost rv = links_view(r@);
        assert forall|j: int| 0 <= j < rv.len() implies #[trigger] self@.links.contains_key(
            link_view_key()(rv[j]),
        ) && self@.links[link_view_key()(rv[j])] == rv[j] by {
            lemma_assoc_index(self.links@, link_key(), j);
        }
        assert forall|k: u128| #[trigger] self@.links.contains_key(k) implies exists|j: int|
            0 <= j < rv.len() && link_view_key()(#[trigger] rv[j]) == k by {
            let j = choose|j: int| 0 <= j < self.links@.len() && link_key()(#[trigger] self.links@[j]) == k;
            assert(link_view_key()(rv[j]) == k);
        }
        assert forall|a: int, b: int| 0 <= a < rv.len() && 0 <= b < rv.len() && a != b implies link_view_key()(
            #[trigger] rv[a],
        ) != link_view_key()(#[trigger] rv[b]) by {
            assert(link_key()(self.links@[a]) != link_key()(self.links@[b]));
        }
        r
    }

    /// The links recorded with `source_entity` as source, in the order they
    /// were recorded, skipping ids of links no longer stored.
    pub fn get_links_for_source(&self, source_entity: &EntityId) -> (r: Vec<LinkInfo>)
        requires
            self.wf(),
        ensures
            links_view(r@) == index_list(self@.source_to_links, source_entity@).filter_map(
                link_lookup(self@.links),
            ),
    {
        let ids = match Self::find_index_entry(&self.source_to_links, source_entity) {
            Some(i) => copy_ids(&self.source_to_links[i].link_ids),
            None => Vec::new(),
        };
        assert(ids@ == index_list(self@.source_to_links, source_entity@));
        let mut r: Vec<LinkInfo> = Vec::new();
        let mut i: usize = 0;
        while i < ids.len()
            invariant
                i <= ids@.len(),
                self.wf(),
                links_view(r@) == ids@.take(i as int).filter_map(link_lookup(self@.links)),
            decreases ids.len() - i,
        {
            proof {
                ids@.lemma_filter_map_take_succ(link_lookup(self@.links), i as int);
            }
            let ghost before = r@;
            match self.find_link(ids[i]) {
                Some(j) => {
                    r.push(self.links[j].clone());
                    assert(links_view(r@) =~= links_view(before) + seq![self@.links[ids@[i as int]]]);
                },
                None => {},
            }
            i = i + 1;
        }
        assert(ids@.take(ids.len() as int) == ids@);
        r
    }

    /// Re-activates the `Broken` links recorded with `entity_id` (as source,
    /// then as target) whose source and target entities are both registered;
    /// gives the re-activated links in that order.
    pub fn rebind_links_for_entity(&mut self, entity_id: &EntityId) -> (r: Vec<LinkInfo>)
        requires
            old(self).wf(),
        ensures
            final(self).wf(),
            ({
                let (links, activated) = rebind(
                    old(self)@.links,
                    old(self)@.entities,
                    linked_ids(old(self)@, entity_id@),
                );
                &&& final(self)@ == (LinkGraphView { links: links, ..old(self)@ })
                &&& links_view(r@) == activated
            }),
    {
        proof {
            self.lemma_links_keyed();
        }
        let mut candidates = match Self::find_index_entry(&self.source_to_links, entity_id) {
            Some(i) => copy_ids(&self.source_to_links[i].link_ids),
            None => Vec::new(),
        };
        let mut more = match Self::find_index_entry(&self.target_to_links, entity_id) {
            Some(i) => copy_ids(&self.target_to_links[i].link_ids),
            None => Vec::new(),
        };
        candidates.append(&mut more);
        let ghost cands = candidates@;
        assert(cands == linked_ids(old(self)@, entity_id@));
        let mut activated: Vec<LinkInfo> = Vec::new();
        let mut i: usize = 0;
        assert(cands.take(0) =~= Seq::<u128>::empty());
        while i < candidates.len()
            invariant
                i <= candidates@.len(),
                candidates@ == cands,
                self.stores_ok(),
                self.entities == old(self).entities,
                self.entity_states == old(self).entity_states,
                self.target_to_links == old(self).target_to_links,
                self.source_to_links == old(self).source_to_links,
                ({
                    let (links, act) = rebind(old(self)@.links, old(self)@.entities, cands.take(i as int));
                    self@.links == links && links_view(activated@) == act
                }),
            decreases candidates.len() - i,
        {
            let id = candidates[i];
            assert(cands.take(i + 1).drop_last() =~= cands.take(i as int));
            match self.find_link(id) {
                Some(j) => {
                    if self.links[j].status == LinkStatus::Broken {
                        let has_source = self.find_entity(&self.links[j].source_entity).is_some();
                        let has_target = self.find_entity(&self.links[j].target_entity).is_some();
                        if has_source && has_target {
                            let ghost before = self.links@;
                            let ghost cur = self@.links;
                            let ghost act_before = activated@;
                            let mut l = self.links.remove(j);
                            l.status = LinkStatus::Active;
                            let ghost gl = l;
                            proof {
                                lemma_assoc_update(before, link_key(), j as int, gl);
                            }
                            activated.push(l.clone());
                            self.links.insert(j, l);
                            assert(self.links@ =~= before.update(j as int, gl));
                            assert(self@.links =~= cur.insert(id, with_status(cur[id], LinkStatus::Active)));
                            assert(links_view(activated@) =~= links_view(act_before).push(gl@));
                        }
                    }
                },
                None => {},
            }
            i = i + 1;
        }
        assert(cands.take(cands.len() as int) == cands);
        proof {
            lemma_rebind_endpoints(old(self)@.links, old(self)@.entities, cands);
            lemma_indexed_relinked(old(self)@, self@);
        }
        activated
    }


    /// Whether some stored link has `entity` as source and, as target, an
    /// entity that `session` registered.
    pub fn feeds_session(&self, entity: &EntityId, session: AppSessionId) -> (r: bool)
        requires
            self.wf(),
        ensures
            r == feeds(self@, entity@, session),
    {
        let mut i: usize = 0;
        while i < self.links.len()
            invariant
                i <= self.links@.len(),
                self.stores_ok(),
                forall|j: int| 0 <= j < i ==> !link_feeds(self@, #[trigger] self.links@[j]@, entity@, session),
            decreases self.links.len() - i,
        {
            if self.links[i].source_entity.0 == entity.0 {
                match self.find_entity(&self.links[i].target_entity) {
                    Some(k) => {
                        if self.entities[k].owner == session {
                            proof {
                                lemma_assoc_index(self.links@, link_key(), i as int);
                                let id = self.links@[i as int].link_id.0;
                                assert(self@.links.contains_key(id));
                                assert(self@.links[id] == self.links@[i as int]@);
                                assert(self@.links[id].source_entity == entity@);
                                assert(link_feeds(self@, self@.links[id], entity@, session));
                            }
                            return true;
                        }
                    },
                    None => {},
                }
            }
            i = i + 1;
        }
        proof {
            assert forall|id: u128| #[trigger] self@.links.contains_key(id) implies !link_feeds(
                self@,
                self@.links[id],
                entity@,
                session,
            ) by {
                let j = choose|j: int| 0 <= j < self.links@.len() && link_key()(#[trigger] self.links@[j]) == id;
                lemma_assoc_index(self.links@, link_key(), j);
                assert(!link_feeds(self@, self.links@[j]@, entity@, session));
            }
        }
        false
    }

    /// The ids of the entities registered by `session`.
    fn entities_owned_by(&self, session: AppSessionId) -> (r: Vec<EntityId>)
        requires
            self.stores_ok(),
        ensures
            forall|k: Seq<char>|
                #![trigger ids_listed(r@, r@.len() as int, k)]
                #![trigger owned_by(self@, session).contains(k)]
                ids_listed(r@, r@.len() as int, k) <==> owned_by(self@, session).contains(k),
    {
        let mut r: Vec<EntityId> = Vec::new();
        let mut i: usize = 0;
        while i < self.entities.len()
            invariant
                i <= self.entities@.len(),
                self.stores_ok(),
                forall|k: Seq<char>|
                    #![trigger ids_listed(r@, r@.len() as int, k)]
                    #![trigger owned_among(self.entities@, i as int, session, k)]
                    ids_listed(r@, r@.len() as int, k) <==> owned_among(self.entities@, i as int, session, k),
            decreases self.entities.len() - i,
        {
            let ghost before = r@;
            if self.entities[i].owner == session {
                r.push(self.entities[i].descriptor.id.clone());
            }
            assert forall|k: Seq<char>|
                #![trigger ids_listed(r@, r@.len() as int, k)]
                #![trigger owned_among(self.entities@, i + 1, session, k)]
                ids_listed(r@, r@.len() as int, k) <==> owned_among(self.entities@, i + 1, session, k) by {
                if ids_listed(r@, r@.len() as int, k) {
                    let m = choose|m: int| 0 <= m < r@.len() && (#[trigger] r@[m])@ == k;
                    if m < before.len() {
                        assert(before[m] == r@[m]);
                        assert(ids_listed(before, before.len() as int, k));
                        let j = choose|j: int| 0 <= j < i && entity_key()(#[trigger] self.entities@[j]) == k
                            && self.entities@[j].owner == session;
                        assert(owned_among(self.entities@, i + 1, session, k));
                    } else {
                        assert(entity_key()(self.entities@[i as int]) == k);
                    }
                }
                if owned_among(self.entities@, i + 1, session, k) {
                    let j = choose|j: int| 0 <= j < i + 1 && entity_key()(#[trigger] self.entities@[j]) == k
                        && self.entities@[j].owner == session;
                    if j < i {
                        assert(owned_among(self.entities@, i as int, session, k));
                        assert(ids_listed(before, before.len() as int, k));
                        let m = choose|m: int| 0 <= m < before.len() && (#[trigger] before[m])@ == k;
                        assert(r@[m] == before[m]);
                    } else {
                        assert(r@[before.len() as int]@ == k);
                    }
                }
            }
            i = i + 1;
        }
        assert forall|k: Seq<char>|
            #![trigger owned_among(self.entities@, self.entities@.len() as int, session, k)]
            #![trigger owned_by(self@, session).contains(k)]
            owned_among(self.entities@, self.entities@.len() as int, session, k)
            <==> owned_by(self@, session).contains(k) by {
            if owned_among(self.entities@, self.entities@.len() as int, session, k) {
                let j = choose|j: int| 0 <= j < self.entities@.len() && entity_key()(#[trigger] self.entities@[j]) == k
                    && self.entities@[j].owner == session;
                lemma_assoc_index(self.entities@, entity_key(), j);
            }
            if owned_by(self@, session).contains(k) {
                let j = choose|j: int| 0 <= j < self.entities@.len() && entity_key()(#[trigger] self.entities@[j]) == k;
                lemma_assoc_index(self.entities@, entity_key(), j);
            }
        }
        r
    }

    /// Unregisters every entity that `session_id` registered (see
    /// [`LinkGraph::unregister_entity`]): used when an application disconnects.
    pub fn handle_app_disconnected(&mut self, session_id: AppSessionId)
        requires
            old(self).wf(),
        ensures
            final(self).wf(),
            final(self)@ == disconnect(old(self)@, session_id),
    {
        let owned = self.entities_owned_by(session_id);
        let ghost g0 = self@;
        let mut i: usize = 0;
        assert(unregister_all(g0, Set::empty()) =~= g0) by {
            assert(g0.entities.remove_keys(Set::empty()) =~= g0.entities);
            assert(g0.entity_owners.remove_keys(Set::empty()) =~= g0.entity_owners);
            assert(g0.entity_states.remove_keys(Set::empty()) =~= g0.entity_states);
            assert(unregister_all(g0, Set::empty()).links =~= g0.links);
        }
        assert(listed_set(owned@, 0) =~= Set::empty());
        while i < owned.len()
            invariant
                i <= owned@.len(),
                self.wf(),
                self@ == unregister_all(g0, listed_set(owned@, i as int)),
            decreases owned.len() - i,
        {
            let ghost gone = listed_set(owned@, i as int);
            let ghost gone2 = listed_set(owned@, i + 1);
            proof {
                lemma_unregister_all_step(g0, gone, owned@[i as int]@);
                assert forall|k: Seq<char>| #[trigger] gone.insert(owned@[i as int]@).contains(k) <==> gone2.contains(k) by {
                    if ids_listed(owned@, i + 1, k) {
                        let m = choose|m: int| 0 <= m < i + 1 && (#[trigger] owned@[m])@ == k;
                        if m < i {
                            assert(ids_listed(owned@, i as int, k));
                        }
                    }
                    if ids_listed(owned@, i as int, k) {
                        let m = choose|m: int| 0 <= m < i && (#[trigger] owned@[m])@ == k;
                        assert(ids_listed(owned@, i + 1, k));
                    }
                    if k == owned@[i as int]@ {
                        assert(ids_listed(owned@, i + 1, k));
                    }
                }
                assert(gone.insert(owned@[i as int]@) =~= gone2);
            }
            self.unregister_entity(&owned[i]);
            i = i + 1;
        }
        assert(listed_set(owned@, owned@.len() as int) =~= owned_by(g0, session_id));
    }

}

} // verus!
