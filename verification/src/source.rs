//! Remote state sourcing: how a client obtains the authoritative state it
//! reconciles against. `ServerOnlySource` (baseline mode) forwards what the
//! authoritative server sends over the client's `NetworkShim`;
//! `PeerPublishSource` forwards what the client's ring neighbour publishes
//! over a peer link. Both hand out only the freshest update that became
//! deliverable since the previous call.

use crate::shim::{
    drawn_jitter, due, first_after, jitter_allowed, lemma_due_iff, lemma_first_after,
    lemma_poll_split, sent, sorted_by_tick, still_pending, NetworkShim,
};
use rand::rngs::StdRng;
use vstd::prelude::*;

verus! {

/// One authoritative snapshot as received by a client, tagged with the
/// server tick it was produced at. The entity state itself is carried
/// through unchanged.
#[derive(Debug)]
pub struct RemoteUpdate<S> {
    pub tick: u64,
    pub state: S,
}

impl<S: Copy> Clone for RemoteUpdate<S> {
    fn clone(&self) -> (r: Self)
        ensures
            r == *self,
    {
        *self
    }
}

impl<S: Copy> Copy for RemoteUpdate<S> {

}

/// The update a client keeps out of a batch delivered on one tick: the one
/// with the largest server tick, the later one in the batch among equals.
/// `None` for an empty batch.
pub open spec fn freshest<S>(batch: Seq<RemoteUpdate<S>>) -> Option<RemoteUpdate<S>>
    decreases batch.len(),
{
    if batch.len() == 0 {
        None
    } else {
        match freshest(batch.drop_first()) {
            None => Some(batch[0]),
            Some(best) => if batch[0].tick > best.tick {
                Some(batch[0])
            } else {
                Some(best)
            },
        }
    }
}

/// The freshest update of a batch is one of its members, no member carries a
/// later server tick, and every member after it carries an earlier one.
/// It is absent only when the batch is empty.
pub proof fn lemma_freshest<S>(batch: Seq<RemoteUpdate<S>>)
    ensures
        freshest(batch) is None <==> batch.len() == 0,
        freshest(batch) matches Some(best) ==> exists|k: int|
            {
                &&& 0 <= k < batch.len()
                &&& batch[k] == best
                &&& forall|j: int| k < j < batch.len() ==> #[trigger] batch[j].tick < best.tick
            },
        freshest(batch) matches Some(best) ==> forall|j: int|
            0 <= j < batch.len() ==> #[trigger] batch[j].tick <= best.tick,
    decreases batch.len(),
{
    if batch.len() > 0 {
        let rest = batch.drop_first();
        lemma_freshest(rest);
        match freshest(rest) {
            None => {
                assert(batch[0] == freshest(batch)->0);
                assert forall|j: int| 0 <= j < batch.len() implies #[trigger] batch[j].tick
                    <= batch[0].tick by {}
            },
            Some(best) => {
                let k = choose|k: int|
                    {
                        &&& 0 <= k < rest.len()
                        &&& rest[k] == best
                        &&& forall|j: int| k < j < rest.len() ==> #[trigger] rest[j].tick < best.tick
                    };
                assert forall|j: int| 0 <= j < batch.len() implies #[trigger] batch[j].tick
                    <= freshest(batch)->0.tick by {
                    if j > 0 {
                        assert(batch[j] == rest[j - 1]);
                    }
                }
                if batch[0].tick > best.tick {
                    assert forall|j: int| 0 < j < batch.len() implies #[trigger] batch[j].tick
                        < batch[0].tick by {
                        assert(batch[j] == rest[j - 1]);
                    }
                } else {
                    assert(batch[k + 1] == best);
                    assert forall|j: int| k + 1 < j < batch.len() implies #[trigger] batch[j].tick
                        < best.tick by {
                        assert(batch[j] == rest[j - 1]);
                    }
                }
            },
        }
    }
}

/// Picks the freshest update out of a delivered batch (see `freshest`).
pub fn freshest_update<S>(batch: Vec<RemoteUpdate<S>>) -> (r: Option<RemoteUpdate<S>>)
    ensures
        r == freshest(batch@),
{
    let ghost all = batch@;
    let mut rest = batch;
    let mut best: Option<RemoteUpdate<S>> = None;
    while rest.len() > 0
        invariant
            rest@ == all.take(rest@.len() as int),
            rest@.len() <= all.len(),
            best == freshest(all.skip(rest@.len() as int)),
        decreases rest@.len(),
    {
        let ghost n = rest@.len() as int;
        let candidate = rest.pop().unwrap();
        proof {
            assert(all.skip(n - 1).drop_first() =~= all.skip(n));
            assert(all.skip(n - 1)[0] == candidate);
            assert(rest@ =~= all.take(n - 1));
        }
        let replace = match &best {
            None => true,
            Some(b) => candidate.tick > b.tick,
        };
        if replace {
            best = Some(candidate);
        }
    }
    proof {
        assert(all.skip(0) =~= all);
    }
    best
}

/// Supplies a client with the latest remote state available as of a given
/// local tick.
pub trait RemoteStateSource<S> {
    /// The source's own consistency condition.
    spec fn well_formed(&self) -> bool;

    /// Returns the most recent update delivered by `tick`, if any arrived
    /// since the last call. An update is returned at most once.
    fn latest(&mut self, tick: u64) -> (r: Option<RemoteUpdate<S>>)
        requires
            old(self).well_formed(),
        ensures
            final(self).well_formed(),
    ;
}

/// Baseline reconciliation mode: the client's only remote signal is what
/// the authoritative server sends it, subject to that client's
/// `NetworkShim`. If more than one snapshot becomes deliverable on the same
/// tick, only the most recent (by server tick) is kept.
pub struct ServerOnlySource<S> {
    shim: NetworkShim<RemoteUpdate<S>>,
}

impl<S> ServerOnlySource<S> {
    /// The link this source receives over.
    pub closed spec fn link(&self) -> NetworkShim<RemoteUpdate<S>> {
        self.shim
    }

    pub fn new(shim: NetworkShim<RemoteUpdate<S>>) -> (source: Self)
        requires
            shim.wf(),
        ensures
            source.link() == shim,
            source.well_formed(),
    {
        ServerOnlySource { shim }
    }

    /// The generator of this source's link, for the loss roll that precedes
    /// `send` on a lossy link: draws made through it advance that generator.
    /// Nothing queued changes.
    pub fn rng_mut(&mut self) -> (rng: &mut StdRng)
        ensures
            *rng == old(self).link().generator(),
            final(self).link().generator() == *final(rng),
            final(self).link()@ == old(self).link()@,
            final(self).link().latency() == old(self).link().latency(),
            final(self).link().jitter() == old(self).link().jitter(),
    {
        self.shim.rng_mut()
    }

    /// Feeds a freshly produced authoritative snapshot into this source's
    /// network shim, to be delivered per its delays.
    pub fn send(&mut self, send_tick: u64, update: RemoteUpdate<S>)
        requires
            old(self).well_formed(),
            send_tick + old(self).link().latency() + old(self).link().jitter() <= u64::MAX,
        ensures
            final(self).well_formed(),
            final(self).link().latency() == old(self).link().latency(),
            final(self).link().jitter() == old(self).link().jitter(),
            jitter_allowed(
                old(self).link().jitter(),
                drawn_jitter(old(self).link().jitter(), old(self).link().generator()),
            ),
            sent(old(self).link(), final(self).link(), send_tick, update),
    {
        self.shim.send(send_tick, update);
    }
}

impl<S> RemoteStateSource<S> for ServerOnlySource<S> {
    open spec fn well_formed(&self) -> bool {
        self.link().wf()
    }

    /// The freshest update delivered by `tick` since the last call; the
    /// rest of that batch is dropped.
    fn latest(&mut self, tick: u64) -> (r: Option<RemoteUpdate<S>>)
        ensures
            final(self).link().latency() == old(self).link().latency(),
            final(self).link().jitter() == old(self).link().jitter(),
            r == freshest(due(old(self).link()@, tick)),
            final(self).link()@ == still_pending(old(self).link()@, tick),
            final(self).link().generator() == old(self).link().generator(),
    {
        let delivered = self.shim.poll(tick);
        freshest_update(delivered)
    }
}

/// Peer-comparison mode: the client receives what its ring neighbour
/// publishes (that neighbour's own server-informed belief) over a peer
/// link, and keeps the freshest of each delivered batch exactly as
/// `ServerOnlySource` does.
pub struct PeerPublishSource<S> {
    shim: NetworkShim<RemoteUpdate<S>>,
}

impl<S> PeerPublishSource<S> {
    /// The peer link this source receives over.
    pub closed spec fn link(&self) -> NetworkShim<RemoteUpdate<S>> {
        self.shim
    }

    pub fn new(shim: NetworkShim<RemoteUpdate<S>>) -> (source: Self)
        requires
            shim.wf(),
        ensures
            source.link() == shim,
            source.well_formed(),
    {
        PeerPublishSource { shim }
    }

    /// The generator of this source's peer link, for the loss roll that
    /// precedes `publish` on a lossy link: draws made through it advance that
    /// generator. Nothing queued changes.
    pub fn rng_mut(&mut self) -> (rng: &mut StdRng)
        ensures
            *rng == old(self).link().generator(),
            final(self).link().generator() == *final(rng),
            final(self).link()@ == old(self).link()@,
            final(self).link().latency() == old(self).link().latency(),
            final(self).link().jitter() == old(self).link().jitter(),
    {
        self.shim.rng_mut()
    }

    /// Feeds the neighbour's published belief into the peer link, to be
    /// delivered per its delays.
    pub fn publish(&mut self, send_tick: u64, update: RemoteUpdate<S>)
        requires
            old(self).well_formed(),
            send_tick + old(self).link().latency() + old(self).link().jitter() <= u64::MAX,
        ensures
            final(self).well_formed(),
            final(self).link().latency() == old(self).link().latency(),
            final(self).link().jitter() == old(self).link().jitter(),
            jitter_allowed(
                old(self).link().jitter(),
                drawn_jitter(old(self).link().jitter(), old(self).link().generator()),
            ),
            sent(old(self).link(), final(self).link(), send_tick, update),
    {
        self.shim.send(send_tick, update);
    }
}

impl<S> RemoteStateSource<S> for PeerPublishSource<S> {
    open spec fn well_formed(&self) -> bool {
        self.link().wf()
    }

    /// The freshest update delivered by `tick` since the last call; the
    /// rest of that batch is dropped.
    fn latest(&mut self, tick: u64) -> (r: Option<RemoteUpdate<S>>)
        ensures
            final(self).link().latency() == old(self).link().latency(),
            final(self).link().jitter() == old(self).link().jitter(),
            r == freshest(due(old(self).link()@, tick)),
            final(self).link()@ == still_pending(old(self).link()@, tick),
            final(self).link().generator() == old(self).link().generator(),
    {
        let delivered = self.shim.poll(tick);
        freshest_update(delivered)
    }
}

/// A source hands out an update on the tick it becomes deliverable and not
/// before: for a link whose queue is in delivery order, `latest(tick)`
/// returns something exactly when some queued update is due by `tick`, and
/// what it returns is due by `tick` and at least as fresh as every other
/// update due by then. Everything still queued afterwards is due later.
pub proof fn lemma_latest_delivers_due<S>(q: Seq<(u64, RemoteUpdate<S>)>, tick: u64)
    requires
        sorted_by_tick(q),
    ensures
        freshest(due(q, tick)) is Some <==> (q.len() > 0 && q[0].0 <= tick),
        freshest(due(q, tick)) matches Some(u) ==> exists|i: int|
            0 <= i < q.len() && q[i].0 <= tick && #[trigger] q[i].1 == u,
        freshest(due(q, tick)) matches Some(u) ==> forall|i: int|
            0 <= i < q.len() && q[i].0 <= tick ==> #[trigger] q[i].1.tick <= u.tick,
        forall|i: int|
            0 <= i < still_pending(q, tick).len() ==> #[trigger] still_pending(q, tick)[i].0 > tick,
{
    lemma_first_after(q, tick);
    lemma_poll_split(q, tick);
    let f = first_after(q, tick);
    let batch = due(q, tick);
    lemma_freshest(batch);
    assert forall|i: int| 0 <= i < q.len() && q[i].0 <= tick implies i < f by {
        lemma_due_iff(q, tick, i);
    }
    assert forall|i: int| 0 <= i < f implies #[trigger] batch[i] == q[i].1 by {}
    match freshest(batch) {
        Some(u) => {
            let k = choose|k: int|
                {
                    &&& 0 <= k < batch.len()
                    &&& batch[k] == u
                    &&& forall|j: int| k < j < batch.len() ==> #[trigger] batch[j].tick < u.tick
                };
            assert(q[k].1 == u);
            assert forall|i: int| 0 <= i < q.len() && q[i].0 <= tick implies #[trigger] q[i].1.tick
                <= u.tick by {
                assert(batch[i] == q[i].1);
            }
        },
        None => {
            if q.len() > 0 && q[0].0 <= tick {
                assert(f > 0);
            }
        },
    }
}

} // verus!
