//! SnapshotPublisher: hands consistent snapshots of the registry to a single
//! consumer under a latest-wins policy. The producer stores each new snapshot
//! unconditionally and never waits; the consumer picks up the most recent
//! snapshot it has not yet seen, never one older than a previous pickup.

use vstd::prelude::*;

use crate::record::RecordModel;
use crate::registry::Registry;

verus! {

/// The mathematical content of a snapshot: a stamp in publication order and
/// the registry contents it captured.
pub struct SnapshotModel {
    pub stamp: u64,
    pub state: Map<Seq<char>, RecordModel>,
}

/// An immutable point-in-time copy of the registry's contents.
pub struct Snapshot {
    stamp: u64,
    state: Registry,
}

impl View for Snapshot {
    type V = SnapshotModel;

    closed spec fn view(&self) -> SnapshotModel {
        SnapshotModel { stamp: self.stamp, state: self.state@ }
    }
}

impl Clone for Snapshot {
    /// A clone captures the same stamp and contents.
    fn clone(&self) -> (r: Self)
        ensures
            r@ == self@,
    {
        Snapshot { stamp: self.stamp, state: self.state.clone() }
    }
}

impl Snapshot {
    /// Position of this snapshot in publication order.
    pub fn stamp(&self) -> (r: u64)
        ensures
            r == self@.stamp,
    {
        self.stamp
    }

    /// Was this identity live when the snapshot was taken?
    pub fn contains(&self, identity: &String) -> (r: bool)
        ensures
            r == self@.state.dom().contains(identity@),
    {
        self.state.contains(identity)
    }

    /// How many instances were live when the snapshot was taken.
    pub fn len(&self) -> (r: usize)
        ensures
            r == self@.state.dom().len(),
    {
        self.state.len()
    }

    /// The captured registry copy.
    pub fn state(&self) -> (r: &Registry)
        ensures
            r@ == self@.state,
    {
        &self.state
    }
}

/// The abstract state of a publisher.
pub struct PublisherModel {
    pub latest: Option<SnapshotModel>,
    pub published: u64,
    pub delivered: u64,
    pub closed: bool,
}

/// What always holds of a publisher: the consumer never runs ahead of the
/// producer, and the stored snapshot is the most recently published one.
pub open spec fn inv(m: PublisherModel) -> bool {
    &&& m.delivered <= m.published
    &&& (m.latest is Some <==> m.published > 0)
    &&& (m.latest is Some ==> m.latest->0.stamp == m.published)
}

/// One producer step: a publish stores the snapshot, stamps it next in
/// order, and touches nothing of the consumer's side.
pub open spec fn publish_step(
    pre: PublisherModel,
    post: PublisherModel,
    state: Map<Seq<char>, RecordModel>,
) -> bool {
    &&& pre.published < u64::MAX
    &&& post.published == pre.published + 1
    &&& post.latest == Some(SnapshotModel { stamp: (pre.published + 1) as u64, state })
    &&& post.delivered == pre.delivered
    &&& post.closed == pre.closed
}

/// One consumer step: a pickup returns the latest snapshot, which must be
/// newer than everything picked up before, and records it as delivered.
pub open spec fn deliver_step(
    pre: PublisherModel,
    post: PublisherModel,
    snap: SnapshotModel,
) -> bool {
    &&& !pre.closed
    &&& pre.published > pre.delivered
    &&& pre.latest == Some(snap)
    &&& post == PublisherModel { delivered: pre.published, ..pre }
}

/// A publish preserves the publisher invariant.
pub proof fn lemma_publish_preserves_inv(
    pre: PublisherModel,
    post: PublisherModel,
    state: Map<Seq<char>, RecordModel>,
)
    requires
        inv(pre),
        publish_step(pre, post, state),
    ensures
        inv(post),
{
}

/// A pickup preserves the publisher invariant.
pub proof fn lemma_deliver_preserves_inv(
    pre: PublisherModel,
    post: PublisherModel,
    snap: SnapshotModel,
)
    requires
        inv(pre),
        deliver_step(pre, post, snap),
    ensures
        inv(post),
{
}

/// Ordering law: a pickup yields a snapshot strictly newer than the previous
/// pickup, however many producer-side steps (publishes, a close) happened in
/// between — those leave `delivered` alone and never shrink `published`.
pub proof fn lemma_deliveries_in_order(
    s0: PublisherModel,
    s1: PublisherModel,
    s2: PublisherModel,
    s3: PublisherModel,
    a: SnapshotModel,
    b: SnapshotModel,
)
    requires
        inv(s0),
        deliver_step(s0, s1, a),
        s2.delivered == s1.delivered,
        s2.published >= s1.published,
        inv(s2),
        deliver_step(s2, s3, b),
    ensures
        a.stamp < b.stamp,
{
    assert(a.stamp == s0.published);
    assert(s1.delivered == s0.published);
    assert(b.stamp == s2.published);
    assert(s2.published > s2.delivered);
}

/// The publisher state after a burst of publishes, one per element.
pub open spec fn publish_all(
    pre: PublisherModel,
    states: Seq<Map<Seq<char>, RecordModel>>,
) -> PublisherModel
    decreases states.len(),
{
    if states.len() == 0 {
        pre
    } else {
        let m = publish_all(pre, states.drop_last());
        PublisherModel {
            published: (m.published + 1) as u64,
            latest: Some(SnapshotModel { stamp: (m.published + 1) as u64, state: states.last() }),
            ..m
        }
    }
}

/// Non-blocking producer law: a burst of publishes with no consumer activity
/// goes through step by step — each publish is enabled with no condition on
/// the consumer — and ends with the last snapshot stored, the publication
/// count advanced by the burst length, and the consumer's mark untouched.
pub proof fn lemma_burst_publish(pre: PublisherModel, states: Seq<Map<Seq<char>, RecordModel>>)
    requires
        inv(pre),
        pre.published + states.len() <= u64::MAX,
    ensures
        inv(publish_all(pre, states)),
        publish_all(pre, states).published == pre.published + states.len(),
        publish_all(pre, states).delivered == pre.delivered,
        publish_all(pre, states).closed == pre.closed,
        states.len() > 0 ==> publish_all(pre, states).latest == Some(
            SnapshotModel {
                stamp: (pre.published + states.len()) as u64,
                state: states.last(),
            },
        ),
        forall|k: int|
            0 <= k < states.len() ==> publish_step(
                publish_all(pre, #[trigger] states.take(k)),
                publish_all(pre, states.take(k + 1)),
                states[k],
            ),
    decreases states.len(),
{
    if states.len() > 0 {
        let dl = states.drop_last();
        let n = states.len() as int;
        lemma_burst_publish(pre, dl);
        assert forall|k: int|
            0 <= k < n implies publish_step(
            publish_all(pre, #[trigger] states.take(k)),
            publish_all(pre, states.take(k + 1)),
            states[k],
        ) by {
            if k < n - 1 {
                assert(states.take(k) =~= dl.take(k));
                assert(states.take(k + 1) =~= dl.take(k + 1));
            } else {
                assert(states.take(k) =~= dl);
                assert(states.take(k + 1) =~= states);
                assert(publish_all(pre, states).published == publish_all(pre, dl).published + 1);
            }
        }
    }
}

/// The latest-wins handoff primitive between the event-processing producer
/// and the snapshot consumer.
pub struct SnapshotPublisher {
    latest: Option<Snapshot>,
    published: u64,
    delivered: u64,
    closed: bool,
}

impl View for SnapshotPublisher {
    type V = PublisherModel;

    closed spec fn view(&self) -> PublisherModel {
        PublisherModel {
            latest: match self.latest {
                Some(s) => Some(s@),
                None => None,
            },
            published: self.published,
            delivered: self.delivered,
            closed: self.closed,
        }
    }
}

impl SnapshotPublisher {
    #[verifier::type_invariant]
    spec fn wf(&self) -> bool {
        inv(self@)
    }

    /// A fresh publisher: nothing published, nothing delivered, open.
    pub fn new() -> (r: Self)
        ensures
            r@ == (PublisherModel {
                latest: None::<SnapshotModel>,
                published: 0u64,
                delivered: 0u64,
                closed: false,
            }),
    {
        SnapshotPublisher { latest: None, published: 0, delivered: 0, closed: false }
    }

    /// Stores a snapshot of the given registry contents for pickup. Never
    /// waits for the consumer: the only bound is the stamp counter's width.
    pub fn publish(&mut self, state: Registry)
        requires
            old(self)@.published < u64::MAX,
        ensures
            publish_step(old(self)@, final (self)@, state@),
    {
        proof {
            use_type_invariant(&*self);
        }
        let stamp = self.published + 1;
        let delivered = self.delivered;
        let closed = self.closed;
        *self = SnapshotPublisher {
            latest: Some(Snapshot { stamp, state }),
            published: stamp,
            delivered,
            closed,
        };
    }

    /// Returns the latest snapshot if one has been published since the last
    /// pickup and the publisher is still open; otherwise nothing. A returned
    /// snapshot is always strictly newer than every earlier pickup.
    pub fn try_next(&mut self) -> (r: Option<Snapshot>)
        ensures
            old(self)@.closed || old(self)@.published == old(self)@.delivered ==> r is None
                && final (self)@ == old(self)@,
            r is Some ==> deliver_step(old(self)@, final (self)@, r->0@),
            r is Some <==> !old(self)@.closed && old(self)@.published > old(self)@.delivered,
    {
        proof {
            use_type_invariant(&*self);
        }
        if self.closed || self.published == self.delivered {
            return None;
        }
        let snap = match &self.latest {
            Some(s) => s.clone(),
            None => {
                proof {
                    assert(false);
                }
                return None;
            },
        };
        self.delivered = self.published;
        Some(snap)
    }

    /// Closes the handoff: a waiting consumer must be released, and no
    /// further snapshot is delivered.
    pub fn close(&mut self)
        ensures
            final (self)@ == (PublisherModel { closed: true, ..old(self)@ }),
    {
        proof {
            use_type_invariant(&*self);
        }
        self.closed = true;
    }

    /// How many snapshots have been published so far.
    pub fn published_count(&self) -> (r: u64)
        ensures
            r == self@.published,
    {
        self.published
    }

    /// The stamp of the last snapshot picked up by the consumer.
    pub fn delivered_mark(&self) -> (r: u64)
        ensures
            r == self@.delivered,
    {
        self.delivered
    }

    /// Whether the handoff has been closed.
    pub fn is_closed(&self) -> (r: bool)
        ensures
            r == self@.closed,
    {
        self.closed
    }
}

} // verus!
