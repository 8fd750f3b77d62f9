//! Event coalescing: rapid transient changes are merged per entity (only the
//! newest is kept) and released once per frame together with every committed
//! change, which is never dropped.

use vstd::prelude::*;
use crate::assoc::{last_index, lemma_last_index, lemma_last_index_is, lemma_last_index_none, unique_keys};
use crate::protocol::{ChangeEvent, ChangeEventView};

verus! {

/// Abstract value of a [`CoalescingDispatcher`].
pub struct CoalescerView {
    /// The newest pending transient event of each entity, at most one per
    /// entity, in the order the entities first became pending.
    pub pending: Seq<ChangeEventView>,
    /// Committed events not yet released, in submission order.
    pub committed: Seq<ChangeEventView>,
    /// Released events not yet taken, in release order.
    pub ready: Seq<ChangeEventView>,
    /// Length of one frame, in milliseconds.
    pub frame_millis: u64,
}

/// The entity of an event.
pub open spec fn event_key() -> spec_fn(ChangeEventView) -> Seq<char> {
    |e: ChangeEventView| e.entity_id
}

/// The position in `pending` of the event of entity `id`, or -1.
pub open spec fn pending_index(pending: Seq<ChangeEventView>, id: Seq<char>) -> int {
    last_index(pending, event_key(), id)
}

/// `pending` after a transient event `e` arrives: it replaces the pending
/// event of the same entity, or is appended when there is none.
pub open spec fn coalesce_into(pending: Seq<ChangeEventView>, e: ChangeEventView) -> Seq<ChangeEventView> {
    let i = pending_index(pending, e.entity_id);
    if i >= 0 {
        pending.update(i, e)
    } else {
        pending.push(e)
    }
}

/// The state after `e` is submitted.
pub open spec fn submit_spec(s: CoalescerView, e: ChangeEventView) -> CoalescerView {
    if e.is_transient {
        CoalescerView { pending: coalesce_into(s.pending, e), ..s }
    } else {
        CoalescerView { committed: s.committed.push(e), ..s }
    }
}

/// The state after one frame: committed events, then pending ones, are released.
pub open spec fn tick_spec(s: CoalescerView) -> CoalescerView {
    CoalescerView {
        pending: Seq::empty(),
        committed: Seq::empty(),
        ready: s.ready + s.committed + s.pending,
        ..s
    }
}

/// The frame length for `fps` frames per second (at least one), in milliseconds.
pub open spec fn frame_millis_for(fps: u32) -> u64 {
    if fps == 0 {
        1000
    } else {
        (1000u32 / fps) as u64
    }
}

/// The state after each of `es` is submitted in order.
pub open spec fn submit_all(s: CoalescerView, es: Seq<ChangeEventView>) -> CoalescerView
    decreases es.len(),
{
    if es.len() == 0 {
        s
    } else {
        submit_spec(submit_all(s, es.drop_last()), es.last())
    }
}

/// The predicate "is a committed event".
pub open spec fn is_committed() -> spec_fn(ChangeEventView) -> bool {
    |e: ChangeEventView| !e.is_transient
}

/// The newest transient event of entity `k` among `es`, if any.
pub open spec fn last_transient(es: Seq<ChangeEventView>, k: Seq<char>) -> Option<ChangeEventView>
    decreases es.len(),
{
    if es.len() == 0 {
        None
    } else if es.last().is_transient && es.last().entity_id == k {
        Some(es.last())
    } else {
        last_transient(es.drop_last(), k)
    }
}

/// The pending event of entity `k`, if any.
pub open spec fn pending_of(pending: Seq<ChangeEventView>, k: Seq<char>) -> Option<ChangeEventView> {
    let i = pending_index(pending, k);
    if i >= 0 {
        Some(pending[i])
    } else {
        None
    }
}

/// How [`coalesce_into`] changes the pending event of each entity: `e`'s
/// entity now has `e`; every other entity keeps its position and event.
pub proof fn lemma_coalesce_lookup(pending: Seq<ChangeEventView>, e: ChangeEventView, k: Seq<char>)
    ensures
        k == e.entity_id ==> pending_of(coalesce_into(pending, e), k) == Some(e),
        k != e.entity_id ==> pending_index(coalesce_into(pending, e), k) == pending_index(pending, k)
            && pending_of(coalesce_into(pending, e), k) == pending_of(pending, k),
{
    let p2 = coalesce_into(pending, e);
    let i = pending_index(pending, e.entity_id);
    lemma_last_index(pending, event_key(), e.entity_id);
    lemma_last_index(pending, event_key(), k);
    if i >= 0 {
        assert forall|m: int| i < m < p2.len() implies event_key()(#[trigger] p2[m]) != e.entity_id by {
            assert(p2[m] == pending[m]);
        }
        if k == e.entity_id {
            lemma_last_index_is(p2, event_key(), k, i);
        } else {
            let j = pending_index(pending, k);
            if j >= 0 {
                assert forall|m: int| j < m < p2.len() implies event_key()(#[trigger] p2[m]) != k by {
                    if m != i {
                        assert(p2[m] == pending[m]);
                    }
                }
                assert(p2[j] == pending[j]);
                lemma_last_index_is(p2, event_key(), k, j);
            } else {
                assert forall|m: int| 0 <= m < p2.len() implies event_key()(#[trigger] p2[m]) != k by {
                    if m != i {
                        assert(p2[m] == pending[m]);
                    }
                }
                lemma_last_index_none(p2, event_key(), k);
            }
        }
    } else {
        if k == e.entity_id {
            lemma_last_index_is(p2, event_key(), k, pending.len() as int);
        } else {
            assert(p2.drop_last() =~= pending);
        }
    }
}

/// Law: a transient event supersedes the pending transient event of the same
/// entity; submitting an older one first makes no difference.
pub proof fn lemma_transient_supersedes(s: CoalescerView, e1: ChangeEventView, e2: ChangeEventView)
    requires
        e1.is_transient,
        e2.is_transient,
        e1.entity_id == e2.entity_id,
    ensures
        submit_spec(submit_spec(s, e1), e2) == submit_spec(s, e2),
{
    let p = s.pending;
    let k = e1.entity_id;
    let i = pending_index(p, k);
    lemma_last_index(p, event_key(), k);
    let p1 = coalesce_into(p, e1);
    lemma_coalesce_lookup(p, e1, k);
    lemma_last_index(p1, event_key(), k);
    if i >= 0 {
        assert forall|m: int| i < m < p1.len() implies event_key()(#[trigger] p1[m]) != k by {
            assert(p1[m] == p[m]);
        }
        lemma_last_index_is(p1, event_key(), k, i);
        assert(p1.update(i, e2) =~= p.update(i, e2));
    } else {
        lemma_last_index_is(p1, event_key(), k, p.len() as int);
        assert(p1.update(p.len() as int, e2) =~= p.push(e2));
    }
}

/// Law: submitting keeps at most one pending event per entity.
pub proof fn lemma_submit_keeps_pending_unique(s: CoalescerView, e: ChangeEventView)
    requires
        unique_keys(s.pending, event_key()),
    ensures
        unique_keys(submit_spec(s, e).pending, event_key()),
{
    if e.is_transient {
        let p = s.pending;
        let p2 = coalesce_into(p, e);
        let i = pending_index(p, e.entity_id);
        lemma_last_index(p, event_key(), e.entity_id);
        assert forall|a: int, b: int|
            0 <= a < p2.len() && 0 <= b < p2.len() && a != b implies event_key()(#[trigger] p2[a]) != event_key()(
            #[trigger] p2[b],
        ) by {
            if i >= 0 {
                assert(event_key()(p2[a]) == event_key()(p[a]));
                assert(event_key()(p2[b]) == event_key()(p[b]));
            } else {
                if a < p.len() {
                    assert(p2[a] == p[a]);
                }
                if b < p.len() {
                    assert(p2[b] == p[b]);
                }
            }
        }
    }
}

/// Law: committed events are never dropped or reordered: after any
/// submissions, the queued committed events are the earlier ones followed by
/// the submitted committed ones, in submission order.
pub proof fn lemma_committed_kept(s: CoalescerView, es: Seq<ChangeEventView>)
    ensures
        submit_all(s, es).committed == s.committed + es.filter(is_committed()),
        submit_all(s, es).ready == s.ready,
    decreases es.len(),
{
    if es.len() > 0 {
        lemma_committed_kept(s, es.drop_last());
        assert(es.drop_last().push(es.last()) =~= es);
        es.drop_last().lemma_filter_push(es.last(), is_committed());
    } else {
        assert(es.filter(is_committed()) =~= Seq::<ChangeEventView>::empty()) by {
            reveal(Seq::filter);
        }
        assert(s.committed + Seq::<ChangeEventView>::empty() =~= s.committed);
    }
}

/// Law: only the newest transient event of each entity stays pending: after
/// any submissions, an entity with a submitted transient event has the
/// newest of them pending, and any other entity keeps what it had.
pub proof fn lemma_newest_transient_pending(s: CoalescerView, es: Seq<ChangeEventView>, k: Seq<char>)
    ensures
        pending_of(submit_all(s, es).pending, k) == match last_transient(es, k) {
            Some(e) => Some(e),
            None => pending_of(s.pending, k),
        },
    decreases es.len(),
{
    if es.len() > 0 {
        lemma_newest_transient_pending(s, es.drop_last(), k);
        let prev = submit_all(s, es.drop_last());
        let e = es.last();
        if e.is_transient {
            lemma_coalesce_lookup(prev.pending, e, k);
        }
    }
}

/// Law: one frame releases every committed event, in order, before the
/// pending transient events, and leaves nothing queued.
pub proof fn lemma_tick_releases(s: CoalescerView, es: Seq<ChangeEventView>)
    ensures
        tick_spec(submit_all(s, es)).ready == s.ready + s.committed + es.filter(is_committed())
            + submit_all(s, es).pending,
        tick_spec(submit_all(s, es)).pending.len() == 0,
        tick_spec(submit_all(s, es)).committed.len() == 0,
{
    lemma_committed_kept(s, es);
    assert(s.ready + s.committed + es.filter(is_committed()) =~= s.ready + (s.committed + es.filter(is_committed())));
}

/// A step of a coalescer's run.
pub enum CoalescerOp {
    /// An event submitted.
    Submit(ChangeEventView),
    /// A frame.
    Tick,
    /// The oldest released event taken, if there is one.
    Take,
}

/// The state after the oldest released event is taken, and what was taken.
pub open spec fn take_spec(s: CoalescerView) -> (CoalescerView, Seq<ChangeEventView>) {
    if s.ready.len() > 0 {
        (CoalescerView { ready: s.ready.drop_first(), ..s }, seq![s.ready[0]])
    } else {
        (s, Seq::empty())
    }
}

/// The state after the steps of `ops`, in order, and the events taken, in order.
pub open spec fn run(s: CoalescerView, ops: Seq<CoalescerOp>) -> (CoalescerView, Seq<ChangeEventView>)
    decreases ops.len(),
{
    if ops.len() == 0 {
        (s, Seq::empty())
    } else {
        let (s1, out) = run(s, ops.drop_last());
        match ops.last() {
            CoalescerOp::Submit(e) => (submit_spec(s1, e), out),
            CoalescerOp::Tick => (tick_spec(s1), out),
            CoalescerOp::Take => (take_spec(s1).0, out + take_spec(s1).1),
        }
    }
}

/// The events submitted by `ops`, in order.
pub open spec fn submitted(ops: Seq<CoalescerOp>) -> Seq<ChangeEventView>
    decreases ops.len(),
{
    if ops.len() == 0 {
        Seq::empty()
    } else {
        match ops.last() {
            CoalescerOp::Submit(e) => submitted(ops.drop_last()).push(e),
            _ => submitted(ops.drop_last()),
        }
    }
}

/// Every pending event is transient.
pub open spec fn pending_transient(s: CoalescerView) -> bool {
    forall|i: int| 0 <= i < s.pending.len() ==> (#[trigger] s.pending[i]).is_transient
}

/// A list of transient events holds no committed one.
proof fn lemma_no_committed(p: Seq<ChangeEventView>)
    requires
        forall|i: int| 0 <= i < p.len() ==> (#[trigger] p[i]).is_transient,
    ensures
        p.filter(is_committed()) == Seq::<ChangeEventView>::empty(),
{
    let f = p.filter(is_committed());
    if f.len() > 0 {
        p.lemma_filter_pred(is_committed(), 0);
        assert(f.contains(f[0]));
        p.lemma_filter_contains_rev(is_committed(), f[0]);
    }
    assert(f =~= Seq::<ChangeEventView>::empty());
}

/// Law (committed events over a run): whatever events are submitted, frames
/// pass and events are taken, every committed event is taken or still queued
/// exactly once, in submission order: the committed events taken so far,
/// then those released and not yet taken, then those not yet released, are
/// the committed events queued at the start followed by those submitted.
pub proof fn lemma_run_keeps_committed(s: CoalescerView, ops: Seq<CoalescerOp>)
    requires
        pending_transient(s),
    ensures
        pending_transient(run(s, ops).0),
        (run(s, ops).1 + run(s, ops).0.ready + run(s, ops).0.committed).filter(is_committed()) == (s.ready
            + s.committed).filter(is_committed()) + submitted(ops).filter(is_committed()),
    decreases ops.len(),
{
    let c = is_committed();
    if ops.len() == 0 {
        assert(run(s, ops).1 + s.ready + s.committed =~= s.ready + s.committed);
        assert(submitted(ops).filter(c) =~= Seq::<ChangeEventView>::empty()) by {
            reveal(Seq::filter);
        }
        assert((s.ready + s.committed).filter(c) + Seq::<ChangeEventView>::empty() =~= (s.ready
            + s.committed).filter(c));
    } else {
        lemma_run_keeps_committed(s, ops.drop_last());
        let (s1, out) = run(s, ops.drop_last());
        let base = (s.ready + s.committed).filter(c);
        let sub0 = submitted(ops.drop_last());
        assert((out + s1.ready + s1.committed).filter(c) == base + sub0.filter(c));
        match ops.last() {
            CoalescerOp::Submit(e) => {
                let s2 = submit_spec(s1, e);
                assert(submitted(ops) == sub0.push(e));
                sub0.lemma_filter_push(e, c);
                if e.is_transient {
                    lemma_submit_keeps_pending_transient(s1, e);
                    assert(s2.ready == s1.ready && s2.committed == s1.committed);
                } else {
                    assert(out + s2.ready + s2.committed =~= (out + s1.ready + s1.committed).push(e));
                    (out + s1.ready + s1.committed).lemma_filter_push(e, c);
                    assert(base + sub0.filter(c).push(e) =~= (base + sub0.filter(c)).push(e));
                }
            },
            CoalescerOp::Tick => {
                let s2 = tick_spec(s1);
                assert(submitted(ops) == sub0);
                lemma_no_committed(s1.pending);
                assert(out + s2.ready + s2.committed =~= (out + s1.ready + s1.committed) + s1.pending);
                Seq::filter_distributes_over_add(out + s1.ready + s1.committed, s1.pending, c);
                assert((out + s1.ready + s1.committed).filter(c) + Seq::<ChangeEventView>::empty() =~= (out
                    + s1.ready + s1.committed).filter(c));
                assert(pending_transient(s2));
            },
            CoalescerOp::Take => {
                let (s2, t) = take_spec(s1);
                assert(submitted(ops) == sub0);
                if s1.ready.len() > 0 {
                    assert((out + t) + s2.ready + s2.committed =~= out + s1.ready + s1.committed);
                } else {
                    assert((out + t) + s2.ready + s2.committed =~= out + s1.ready + s1.committed);
                }
            },
        }
    }
}

/// Submitting keeps every pending event transient.
proof fn lemma_submit_keeps_pending_transient(s: CoalescerView, e: ChangeEventView)
    requires
        pending_transient(s),
    ensures
        pending_transient(submit_spec(s, e)),
{
    if e.is_transient {
        let p2 = coalesce_into(s.pending, e);
        let i = pending_index(s.pending, e.entity_id);
        lemma_last_index(s.pending, event_key(), e.entity_id);
        assert forall|m: int| 0 <= m < p2.len() implies (#[trigger] p2[m]).is_transient by {
            if i >= 0 {
                if m != i {
                    assert(p2[m] == s.pending[m]);
                }
            } else if m < s.pending.len() {
                assert(p2[m] == s.pending[m]);
            }
        }
    }
}

/// The views of a list of events.
pub open spec fn events_view(s: Seq<ChangeEvent>) -> Seq<ChangeEventView> {
    s.map_values(|e: ChangeEvent| e@)
}

/// Aggregates rapid transient changes (e.g. 120 Hz drag updates) and releases
/// them at a regulated frame rate (e.g. 60 Hz).
pub struct CoalescingDispatcher {
    pending_transient: Vec<ChangeEvent>,
    committed: Vec<ChangeEvent>,
    ready: Vec<ChangeEvent>,
    frame_millis: u64,
}

impl View for CoalescingDispatcher {
    type V = CoalescerView;

    closed spec fn view(&self) -> CoalescerView {
        CoalescerView {
            pending: events_view(self.pending_transient@),
            committed: events_view(self.committed@),
            ready: events_view(self.ready@),
            frame_millis: self.frame_millis,
        }
    }
}

impl CoalescingDispatcher {
    /// Well-formedness: every pending event is transient.
    pub closed spec fn wf(&self) -> bool {
        pending_transient(self@)
    }

    /// Every pending event of a well-formed dispatcher is transient, so the
    /// run laws (see [`lemma_run_keeps_committed`]) hold from its state.
    pub proof fn lemma_pending_transient(&self)
        requires
            self.wf(),
        ensures
            pending_transient(self@),
    {
    }

    /// A dispatcher with nothing pending, releasing `fps` frames per second
    /// (an `fps` of 0 counts as 1).
    pub fn new(fps: u32) -> (d: CoalescingDispatcher)
        ensures
            d.wf(),
            d@.pending == Seq::<ChangeEventView>::empty(),
            d@.committed == Seq::<ChangeEventView>::empty(),
            d@.ready == Seq::<ChangeEventView>::empty(),
            d@.frame_millis == frame_millis_for(fps),
    {
        let fps = if fps == 0 {
            1
        } else {
            fps
        };
        let d = CoalescingDispatcher {
            pending_transient: Vec::new(),
            committed: Vec::new(),
            ready: Vec::new(),
            frame_millis: (1000u32 / fps) as u64,
        };
        assert(d@.pending =~= Seq::<ChangeEventView>::empty());
        assert(d@.committed =~= Seq::<ChangeEventView>::empty());
        assert(d@.ready =~= Seq::<ChangeEventView>::empty());
        d
    }

    /// Length of one frame, in milliseconds.
    pub fn frame_millis(&self) -> (ms: u64)
        ensures
            ms == self@.frame_millis,
    {
        self.frame_millis
    }

    /// Submits an event: a transient event replaces the pending one of its
    /// entity (only the newest is kept); a committed event is queued.
    pub fn submit(&mut self, event: ChangeEvent)
        requires
            old(self).wf(),
        ensures
            final(self).wf(),
            final(self)@ == submit_spec(old(self)@, event@),
    {
        proof {
            lemma_submit_keeps_pending_transient(self@, event@);
        }
        if event.is_transient {
            let ghost pv = self@.pending;
            let mut i: usize = self.pending_transient.len();
            let mut found = false;
            assert(pv.take(pv.len() as int) =~= pv);
            while i > 0
                invariant_except_break
                    i <= self.pending_transient@.len(),
                    pv == events_view(self.pending_transient@),
                    pending_index(pv, event@.entity_id) == pending_index(pv.take(i as int), event@.entity_id),
                    !found,
                ensures
                    pv == events_view(self.pending_transient@),
                    found ==> i < pv.len() && pending_index(pv, event@.entity_id) == i,
                    !found ==> pending_index(pv, event@.entity_id) == -1,
                decreases i,
            {
                let j = i - 1;
                assert(pv.take(i as int).drop_last() =~= pv.take(j as int));
                if self.pending_transient[j].entity_id.0 == event.entity_id.0 {
                    i = j;
                    found = true;
                    break;
                }
                i = j;
            }
            let ghost ev = event@;
            if found {
                self.pending_transient.set(i, event);
                assert(self@.pending =~= pv.update(i as int, ev));
            } else {
                self.pending_transient.push(event);
                assert(self@.pending =~= pv.push(ev));
            }
        } else {
            let ghost ev = event@;
            self.committed.push(event);
            assert(self@.committed =~= old(self)@.committed.push(ev));
        }
    }

    /// One frame: releases every committed event, in submission order, then
    /// every pending transient event.
    pub fn tick(&mut self)
        requires
            old(self).wf(),
        ensures
            final(self).wf(),
            final(self)@ == tick_spec(old(self)@),
    {
        let mut committed: Vec<ChangeEvent> = Vec::new();
        let mut pending: Vec<ChangeEvent> = Vec::new();
        std::mem::swap(&mut committed, &mut self.committed);
        std::mem::swap(&mut pending, &mut self.pending_transient);
        self.ready.append(&mut committed);
        self.ready.append(&mut pending);
        assert(self@.ready =~= old(self)@.ready + old(self)@.committed + old(self)@.pending);
        assert(self@.pending =~= Seq::<ChangeEventView>::empty());
        assert(self@.committed =~= Seq::<ChangeEventView>::empty());
    }

    /// Takes the oldest released event, if any.
    pub fn next_event(&mut self) -> (r: Option<ChangeEvent>)
        requires
            old(self).wf(),
        ensures
            final(self).wf(),
            match r {
                Some(e) => old(self)@.ready.len() > 0 && e@ == old(self)@.ready[0]
                    && final(self)@ == (CoalescerView { ready: old(self)@.ready.drop_first(), ..old(self)@ }),
                None => old(self)@.ready.len() == 0 && final(self)@ == old(self)@,
            },
    {
        if self.ready.len() == 0 {
            None
        } else {
            let e = self.ready.remove(0);
            assert(self@.ready =~= old(self)@.ready.drop_first());
            Some(e)
        }
    }
}

} // verus!
