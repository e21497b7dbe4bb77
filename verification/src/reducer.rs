//! EventReducer: the pure update policy. Given the current registry and one
//! discovery event, it produces the next registry and says whether the
//! visible state changed.

use vstd::prelude::*;

use crate::record::{RecordModel, ServiceRecord};
use crate::registry::Registry;

verus! {

/// One discovery notification.
pub enum Event {
    /// An instance was resolved: insert or replace its record.
    Resolved(ServiceRecord),
    /// The instance with this identity disappeared.
    Removed(String),
    /// Anything not affecting membership (protocol-internal signals); carried
    /// only for observability.
    Other(String),
}

/// The registry contents after applying one event.
pub open spec fn reduce_map(
    m: Map<Seq<char>, RecordModel>,
    e: Event,
) -> Map<Seq<char>, RecordModel> {
    match e {
        Event::Resolved(r) => m.insert(r@.identity, r@),
        Event::Removed(id) => m.remove(id@),
        Event::Other(_) => m,
    }
}

/// Whether applying the event counts as a visible change. Every resolve does,
/// even one identical to the stored record; a removal only when the identity
/// was present; other events never.
pub open spec fn reduce_changed(m: Map<Seq<char>, RecordModel>, e: Event) -> bool {
    match e {
        Event::Resolved(_) => true,
        Event::Removed(id) => m.dom().contains(id@),
        Event::Other(_) => false,
    }
}

/// Applies one event to the registry; reports whether the state changed.
pub fn reduce(registry: &mut Registry, event: Event) -> (changed: bool)
    ensures
        final (registry)@ == reduce_map(old(registry)@, event),
        changed == reduce_changed(old(registry)@, event),
{
    match event {
        Event::Resolved(rec) => {
            registry.insert(rec);
            true
        },
        Event::Removed(id) => registry.remove(&id),
        Event::Other(_) => false,
    }
}

/// Removal of an absent identity is a no-op: the registry is unchanged and no
/// change is reported.
pub proof fn lemma_removal_idempotent(m: Map<Seq<char>, RecordModel>, e: Event)
    requires
        e is Removed,
        !m.dom().contains(e->Removed_0@),
    ensures
        reduce_map(m, e) == m,
        !reduce_changed(m, e),
{
    assert(reduce_map(m, e) =~= m);
}

/// The registry contents after a whole sequence of events, starting empty.
pub open spec fn replay(events: Seq<Event>) -> Map<Seq<char>, RecordModel>
    decreases events.len(),
{
    if events.len() == 0 {
        Map::empty()
    } else {
        reduce_map(replay(events.drop_last()), events.last())
    }
}

/// Does this event resolve the identity `id`?
pub open spec fn is_resolved_for(e: Event, id: Seq<char>) -> bool {
    match e {
        Event::Resolved(r) => r@.identity == id,
        _ => false,
    }
}

/// Does this event remove the identity `id`?
pub open spec fn is_removed_for(e: Event, id: Seq<char>) -> bool {
    match e {
        Event::Removed(x) => x@ == id,
        _ => false,
    }
}

/// An identity is live after a sequence of events when some resolve of it is
/// not followed by any later removal of it.
pub open spec fn live(events: Seq<Event>, id: Seq<char>) -> bool {
    exists|i: int|
        0 <= i < events.len() && is_resolved_for(events[i], id) && (forall|j: int|
            i < j < events.len() ==> !is_removed_for(events[j], id))
}

proof fn lemma_live_push(events: Seq<Event>, e: Event, id: Seq<char>)
    ensures
        is_resolved_for(e, id) ==> live(events.push(e), id),
        is_removed_for(e, id) ==> !live(events.push(e), id),
        !is_resolved_for(e, id) && !is_removed_for(e, id) ==> live(events.push(e), id) == live(
            events,
            id,
        ),
{
    let t = events.push(e);
    let n = events.len() as int;
    assert(t[n] == e);
    if is_resolved_for(e, id) {
        assert(0 <= n < t.len() && is_resolved_for(t[n], id) && (forall|j: int|
            n < j < t.len() ==> !is_removed_for(t[j], id)));
        assert(live(t, id));
    }
    if is_removed_for(e, id) {
        if live(t, id) {
            let i = choose|i: int|
                0 <= i < t.len() && is_resolved_for(t[i], id) && (forall|j: int|
                    i < j < t.len() ==> !is_removed_for(t[j], id));
            if i < n {
                assert(!is_removed_for(t[n], id));
            } else {
                assert(t[i] == e);
            }
        }
    }
    if !is_resolved_for(e, id) && !is_removed_for(e, id) {
        if live(events, id) {
            let i = choose|i: int|
                0 <= i < events.len() && is_resolved_for(events[i], id) && (forall|j: int|
                    i < j < events.len() ==> !is_removed_for(events[j], id));
            assert(t[i] == events[i]);
            assert forall|j: int| i < j < t.len() implies !is_removed_for(t[j], id) by {
                if j < n {
                    assert(t[j] == events[j]);
                }
            }
            assert(live(t, id));
        }
        if live(t, id) {
            let i = choose|i: int|
                0 <= i < t.len() && is_resolved_for(t[i], id) && (forall|j: int|
                    i < j < t.len() ==> !is_removed_for(t[j], id));
            if i == n {
                assert(t[i] == e);
            } else {
                assert(t[i] == events[i]);
                assert forall|j: int| i < j < events.len() implies !is_removed_for(
                    events[j],
                    id,
                ) by {
                    assert(t[j] == events[j]);
                }
                assert(live(events, id));
            }
        }
    }
}

/// Membership law: after any sequence of resolve/remove events, the registry
/// holds exactly the identities whose latest resolve has no later removal.
pub proof fn lemma_registry_membership(events: Seq<Event>, id: Seq<char>)
    ensures
        replay(events).dom().contains(id) == live(events, id),
    decreases events.len(),
{
    if events.len() == 0 {
        if live(events, id) {
            let i = choose|i: int| 0 <= i < events.len() && is_resolved_for(events[i], id);
            assert(false);
        }
    } else {
        let dl = events.drop_last();
        let e = events.last();
        lemma_registry_membership(dl, id);
        lemma_live_push(dl, e, id);
        assert(dl.push(e) =~= events);
        match e {
            Event::Resolved(r) => {
                if r@.identity == id {
                    assert(is_resolved_for(e, id));
                    assert(replay(events).dom().contains(id));
                } else {
                    assert(!is_resolved_for(e, id) && !is_removed_for(e, id));
                    assert(replay(events).dom().contains(id) == replay(dl).dom().contains(id));
                }
            },
            Event::Removed(x) => {
                if x@ == id {
                    assert(is_removed_for(e, id));
                    assert(!replay(events).dom().contains(id));
                } else {
                    assert(!is_resolved_for(e, id) && !is_removed_for(e, id));
                    assert(replay(events).dom().contains(id) == replay(dl).dom().contains(id));
                }
            },
            Event::Other(_) => {
                assert(!is_resolved_for(e, id) && !is_removed_for(e, id));
            },
        }
    }
}

} // verus!
