//! DiscoverySession: the orchestrating state machine of the browse flow.
//! Idle until started; while browsing, each incoming event is reduced into
//! the registry and, on a visible change, a fresh snapshot is published;
//! stopping closes the handoff so a waiting consumer is released.

use vstd::prelude::*;

use crate::publisher::{deliver_step, publish_step, PublisherModel, Snapshot, SnapshotPublisher};
use crate::record::RecordModel;
use crate::reducer::{reduce, reduce_changed, reduce_map, Event};
use crate::registry::Registry;

verus! {

/// The lifecycle of a browse session.
#[derive(Clone, Copy, PartialEq, Eq, Structural, Debug)]
pub enum SessionState {
    Idle,
    Browsing,
    Closed,
}

/// The abstract state of a session.
pub struct SessionModel {
    pub state: SessionState,
    pub service_type: Seq<char>,
    pub registry: Map<Seq<char>, RecordModel>,
    pub publisher: PublisherModel,
}

/// A long-running browse of one service type.
pub struct DiscoverySession {
    state: SessionState,
    service_type: String,
    registry: Registry,
    publisher: SnapshotPublisher,
}

impl View for DiscoverySession {
    type V = SessionModel;

    closed spec fn view(&self) -> SessionModel {
        SessionModel {
            state: self.state,
            service_type: self.service_type@,
            registry: self.registry@,
            publisher: self.publisher@,
        }
    }
}

impl DiscoverySession {
    /// A fresh session: idle, empty registry, fresh publisher.
    pub fn new() -> (r: Self)
        ensures
            r@.state == SessionState::Idle,
            r@.registry == Map::<Seq<char>, RecordModel>::empty(),
            r@.publisher.published == 0,
            r@.publisher.delivered == 0,
            !r@.publisher.closed,
    {
        DiscoverySession {
            state: SessionState::Idle,
            service_type: String::new(),
            registry: Registry::new(),
            publisher: SnapshotPublisher::new(),
        }
    }

    /// Starts browsing: the session scopes itself to the protocol-qualified
    /// service type (the domain suffix is appended for a bare type) and
    /// begins with a fresh empty registry. Returns the qualified type for
    /// the caller to request the event stream with.
    pub fn start(&mut self, service_type: &str) -> (qualified: String)
        requires
            old(self)@.state == SessionState::Idle,
        ensures
            final (self)@.state == SessionState::Browsing,
            final (self)@.service_type == crate::text::qualified_type(service_type@),
            final (self)@.registry == Map::<Seq<char>, RecordModel>::empty(),
            final (self)@.publisher == old(self)@.publisher,
            qualified@ == crate::text::qualified_type(service_type@),
    {
        let qualified = crate::text::qualify_service_type(service_type);
        self.state = SessionState::Browsing;
        self.service_type = qualified.clone();
        self.registry = Registry::new();
        qualified
    }

    /// Handles one discovery event while browsing: reduces it into the
    /// registry and, exactly when the reducer reports a visible change,
    /// publishes a snapshot of the new registry contents.
    pub fn handle_event(&mut self, event: Event) -> (changed: bool)
        requires
            old(self)@.state == SessionState::Browsing,
            old(self)@.publisher.published < u64::MAX,
        ensures
            final (self)@.state == SessionState::Browsing,
            final (self)@.service_type == old(self)@.service_type,
            final (self)@.registry == reduce_map(old(self)@.registry, event),
            changed == reduce_changed(old(self)@.registry, event),
            changed ==> publish_step(
                old(self)@.publisher,
                final (self)@.publisher,
                reduce_map(old(self)@.registry, event),
            ),
            !changed ==> final (self)@.publisher == old(self)@.publisher,
    {
        let changed = reduce(&mut self.registry, event);
        if changed {
            let copy = self.registry.clone();
            self.publisher.publish(copy);
        }
        changed
    }

    /// Stops the session: the state becomes Closed and the snapshot handoff
    /// is closed, releasing a waiting consumer.
    pub fn stop(&mut self)
        ensures
            final (self)@.state == SessionState::Closed,
            final (self)@.service_type == old(self)@.service_type,
            final (self)@.registry == old(self)@.registry,
            final (self)@.publisher == (PublisherModel { closed: true, ..old(self)@.publisher }),
    {
        self.state = SessionState::Closed;
        self.publisher.close();
    }

    /// Consumer side: picks up the latest unseen snapshot, if any.
    pub fn take_next_snapshot(&mut self) -> (r: Option<Snapshot>)
        ensures
            final (self)@.state == old(self)@.state,
            final (self)@.service_type == old(self)@.service_type,
            final (self)@.registry == old(self)@.registry,
            old(self)@.publisher.closed || old(self)@.publisher.published == old(
                self,
            )@.publisher.delivered ==> r is None && final (self)@.publisher == old(self)@.publisher,
            r is Some ==> deliver_step(old(self)@.publisher, final (self)@.publisher, r->0@),
            r is Some <==> !old(self)@.publisher.closed && old(self)@.publisher.published > old(
                self,
            )@.publisher.delivered,
    {
        self.publisher.try_next()
    }

    /// The current lifecycle state.
    pub fn state(&self) -> (r: SessionState)
        ensures
            r == self@.state,
    {
        self.state
    }

    /// The qualified service type being browsed.
    pub fn service_type(&self) -> (r: &String)
        ensures
            r@ == self@.service_type,
    {
        &self.service_type
    }

    /// The live registry.
    pub fn registry(&self) -> (r: &Registry)
        ensures
            r@ == self@.registry,
    {
        &self.registry
    }

    /// How many snapshots have been published so far.
    pub fn published_count(&self) -> (r: u64)
        ensures
            r == self@.publisher.published,
    {
        self.publisher.published_count()
    }
}

} // verus!
