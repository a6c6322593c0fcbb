//! Per-connection network shim: a fixed-tick delivery queue with latency and
//! jitter drawn from the connection's own seeded generator. No real sockets:
//! a message is scheduled for `send_tick + latency (+/- jitter)` ticks and
//! handed out by `poll` once that tick has come.
//!
//! The loss roll of a lossy link compares a floating-point sample against a
//! floating-point percentage; it is made by the caller on the same generator
//! (see `NetworkShim::rng_mut`) before `send` is called for a message that
//! survived it.

use crate::random::{
    after_draw, drawn_in_range, gen_range_inclusive, seeded_generator, seeded_rng,
};
use rand::rngs::StdRng;
use std::collections::VecDeque;
use vstd::prelude::*;

verus! {

/// Index of the first entry of `q` whose delivery tick is later than `tick`,
/// or `q.len()` when there is none.
pub open spec fn first_after<T>(q: Seq<(u64, T)>, tick: u64) -> int
    decreases q.len(),
{
    if q.len() == 0 {
        0
    } else if q[0].0 > tick {
        0
    } else {
        1 + first_after(q.drop_first(), tick)
    }
}

/// Entries are ordered by non-decreasing delivery tick.
pub open spec fn sorted_by_tick<T>(q: Seq<(u64, T)>) -> bool {
    forall|i: int, j: int| 0 <= i <= j < q.len() ==> q[i].0 <= q[j].0
}

/// `q` with `(tick, payload)` placed after every entry due no later than
/// `tick` and before the first entry due after it.
pub open spec fn schedule_insert<T>(q: Seq<(u64, T)>, tick: u64, payload: T) -> Seq<(u64, T)> {
    q.insert(first_after(q, tick), (tick, payload))
}

/// The payloads of a sequence of scheduled entries, in order.
pub open spec fn payloads<T>(q: Seq<(u64, T)>) -> Seq<T> {
    q.map_values(|e: (u64, T)| e.1)
}

/// The payloads that a poll at `now` hands out of queue `q`.
pub open spec fn due<T>(q: Seq<(u64, T)>, now: u64) -> Seq<T> {
    payloads(q.take(first_after(q, now)))
}

/// What stays queued after a poll at `now`.
pub open spec fn still_pending<T>(q: Seq<(u64, T)>, now: u64) -> Seq<(u64, T)> {
    q.skip(first_after(q, now))
}

/// Delivery tick of a message sent at `send_tick` over a link with
/// `latency` ticks of delay when `jitter` ticks were drawn: the delay is
/// floored at zero, so nothing arrives before it was sent.
pub open spec fn delivery_tick(send_tick: u64, latency: i64, jitter: i64) -> int {
    let total = latency + jitter;
    send_tick + if total > 0 {
        total
    } else {
        0
    }
}

/// The jitter values a link with `jitter_bound` can draw: a uniform draw in
/// `[-jitter_bound, jitter_bound]`, or exactly zero when the bound is zero.
pub open spec fn jitter_allowed(jitter_bound: i64, jitter: i64) -> bool {
    if jitter_bound > 0 {
        -jitter_bound <= jitter <= jitter_bound
    } else {
        jitter == 0
    }
}

/// The jitter a link with `jitter_bound` draws for its next message when its
/// generator is in state `g`: the draw from `[-jitter_bound, jitter_bound]`,
/// or zero without a draw when the bound is zero.
pub open spec fn drawn_jitter(jitter_bound: i64, g: StdRng) -> i64 {
    if jitter_bound > 0 {
        drawn_in_range(g, (-jitter_bound) as i64, jitter_bound)
    } else {
        0
    }
}

/// The state of that generator once the message has been scheduled.
pub open spec fn generator_after_send(jitter_bound: i64, g: StdRng) -> StdRng {
    if jitter_bound > 0 {
        after_draw(g, (-jitter_bound) as i64, jitter_bound)
    } else {
        g
    }
}

/// Over a link without jitter, every message is delivered exactly
/// `latency` ticks after it was sent.
pub proof fn lemma_zero_jitter_fixed_offset(send_tick: u64, latency: i64, jitter: i64)
    requires
        latency >= 0,
        jitter_allowed(0, jitter),
    ensures
        delivery_tick(send_tick, latency, jitter) == send_tick + latency,
{
}

/// No message is delivered before it was sent, nor later than the largest
/// delay the link can draw.
pub proof fn lemma_delivery_window(send_tick: u64, latency: i64, jitter_bound: i64, jitter: i64)
    requires
        latency >= 0,
        jitter_bound >= 0,
        jitter_allowed(jitter_bound, jitter),
    ensures
        send_tick <= delivery_tick(send_tick, latency, jitter) <= send_tick + latency + jitter_bound,
        latency >= jitter_bound ==> delivery_tick(send_tick, latency, jitter) >= send_tick + latency
            - jitter_bound,
{
}

/// `first_after` is the boundary between the entries due by `tick` and the
/// first one that is not.
pub proof fn lemma_first_after<T>(q: Seq<(u64, T)>, tick: u64)
    ensures
        0 <= first_after(q, tick) <= q.len(),
        forall|i: int| 0 <= i < first_after(q, tick) ==> q[i].0 <= tick,
        first_after(q, tick) < q.len() ==> q[first_after(q, tick)].0 > tick,
    decreases q.len(),
{
    if q.len() > 0 && q[0].0 <= tick {
        let rest = q.drop_first();
        lemma_first_after(rest, tick);
        assert forall|i: int| 0 <= i < first_after(q, tick) implies q[i].0 <= tick by {
            if i > 0 {
                assert(q[i] == rest[i - 1]);
            }
        }
    }
}

/// Any index that separates "due by `tick`" from "due later" is
/// `first_after`.
pub proof fn lemma_first_after_unique<T>(q: Seq<(u64, T)>, tick: u64, k: int)
    requires
        0 <= k <= q.len(),
        forall|i: int| 0 <= i < k ==> q[i].0 <= tick,
        k < q.len() ==> q[k].0 > tick,
    ensures
        first_after(q, tick) == k,
{
    lemma_first_after(q, tick);
    let f = first_after(q, tick);
    if f < k {
        assert(q[f].0 <= tick);
    } else if f > k {
        assert(q[k].0 <= tick);
    }
}

/// In a queue ordered by delivery tick, an entry is handed out by a poll at
/// `now` exactly when its delivery tick is at most `now`: no message is
/// delivered early and none that is due is held back.
pub proof fn lemma_due_iff<T>(q: Seq<(u64, T)>, now: u64, i: int)
    requires
        sorted_by_tick(q),
        0 <= i < q.len(),
    ensures
        i < first_after(q, now) <==> q[i].0 <= now,
{
    lemma_first_after(q, now);
    let f = first_after(q, now);
    if i >= f {
        assert(q[f].0 <= q[i].0);
    }
}

/// Scheduling a message keeps the queue ordered by delivery tick, and the
/// new entry comes after every entry already due at the same tick or
/// earlier (first sent, first delivered) and before every later one.
pub proof fn lemma_schedule_insert<T>(q: Seq<(u64, T)>, tick: u64, payload: T)
    requires
        sorted_by_tick(q),
    ensures
        sorted_by_tick(schedule_insert(q, tick, payload)),
        schedule_insert(q, tick, payload).len() == q.len() + 1,
        schedule_insert(q, tick, payload)[first_after(q, tick)] == (tick, payload),
        forall|i: int|
            0 <= i < first_after(q, tick) ==> #[trigger] schedule_insert(q, tick, payload)[i].0
                <= tick,
        forall|i: int|
            first_after(q, tick) < i < q.len() + 1 ==> #[trigger] schedule_insert(
                q,
                tick,
                payload,
            )[i].0 > tick,
{
    lemma_first_after(q, tick);
    let p = first_after(q, tick);
    let r = schedule_insert(q, tick, payload);
    assert forall|i: int| p < i < q.len() + 1 implies r[i].0 > tick by {
        assert(r[i] == q[i - 1]);
        assert(q[p].0 <= q[i - 1].0);
    }
    assert forall|i: int, j: int| 0 <= i <= j < r.len() implies r[i].0 <= r[j].0 by {
        if i < p && j < p {
            assert(r[i] == q[i] && r[j] == q[j]);
        } else if i > p && j > p {
            assert(r[i] == q[i - 1] && r[j] == q[j - 1]);
        } else if i < p {
            assert(r[i] == q[i]);
        }
    }
}

/// A poll leaves a queue that is still ordered and whose entries are all due
/// after `now`; what it hands out and what it leaves make up the old queue.
pub proof fn lemma_poll_split<T>(q: Seq<(u64, T)>, now: u64)
    requires
        sorted_by_tick(q),
    ensures
        sorted_by_tick(still_pending(q, now)),
        forall|i: int|
            0 <= i < still_pending(q, now).len() ==> #[trigger] still_pending(q, now)[i].0 > now,
        q.take(first_after(q, now)) + still_pending(q, now) == q,
        due(q, now).len() == first_after(q, now),
{
    lemma_first_after(q, now);
    let f = first_after(q, now);
    let rest = still_pending(q, now);
    assert forall|i: int| 0 <= i < rest.len() implies #[trigger] rest[i].0 > now by {
        assert(rest[i] == q[f + i]);
        if f + i > f {
            assert(q[f].0 <= q[f + i].0);
        }
    }
    assert(q.take(f) + rest =~= q);
}

/// Polling again at the same tick, or an earlier one, hands out nothing.
pub proof fn lemma_poll_again_is_empty<T>(q: Seq<(u64, T)>, now: u64, later_poll: u64)
    requires
        sorted_by_tick(q),
        later_poll <= now,
    ensures
        due(still_pending(q, now), later_poll).len() == 0,
        still_pending(still_pending(q, now), later_poll) == still_pending(q, now),
{
    lemma_poll_split(q, now);
    let rest = still_pending(q, now);
    lemma_first_after_unique(rest, later_poll, 0);
    assert(rest.skip(0) =~= rest);
}

/// Once every scheduled message is due, a poll hands all of them out, in
/// queue order, and leaves nothing behind: each scheduled message is
/// delivered exactly once.
pub proof fn lemma_poll_drains<T>(q: Seq<(u64, T)>, now: u64)
    requires
        forall|i: int| 0 <= i < q.len() ==> #[trigger] q[i].0 <= now,
    ensures
        due(q, now) == payloads(q),
        still_pending(q, now).len() == 0,
{
    lemma_first_after_unique(q, now, q.len() as int);
    assert(q.take(q.len() as int) =~= q);
}

/// Simulates one client connection: each message handed to `send` is
/// scheduled for delivery `latency_ticks (+/- jitter_ticks)` after it was
/// sent, and `poll` hands out what is due. The shim owns its own seeded
/// generator, so its delivery schedule depends on nothing outside it.
pub struct NetworkShim<T> {
    latency_ticks: i64,
    jitter_ticks: i64,
    rng: StdRng,
    queue: VecDeque<(u64, T)>,
}

impl<T> View for NetworkShim<T> {
    /// The queued messages as `(delivery_tick, payload)`, in delivery order.
    type V = Seq<(u64, T)>;

    closed spec fn view(&self) -> Seq<(u64, T)> {
        self.queue@
    }
}

impl<T> NetworkShim<T> {
    /// Fixed delay of the link, in ticks.
    pub closed spec fn latency(&self) -> i64 {
        self.latency_ticks
    }

    /// Bound of the jitter drawn for each message, in ticks.
    pub closed spec fn jitter(&self) -> i64 {
        self.jitter_ticks
    }

    /// The link's pseudo-random generator, in its current state.
    pub closed spec fn generator(&self) -> StdRng {
        self.rng
    }

    /// Delay parameters in range and the queue in delivery order.
    pub open spec fn wf(&self) -> bool {
        &&& 0 <= self.latency()
        &&& 0 <= self.jitter()
        &&& self.latency() + self.jitter() <= i64::MAX
        &&& sorted_by_tick(self@)
    }

    /// A shim with an empty queue whose generator is seeded with `seed`.
    /// The delays are given in ticks; the conversion from milliseconds at a
    /// tick rate is the caller's.
    pub fn new(latency_ticks: i64, jitter_ticks: i64, seed: u64) -> (shim: Self)
        requires
            0 <= latency_ticks,
            0 <= jitter_ticks,
            latency_ticks + jitter_ticks <= i64::MAX,
        ensures
            shim.wf(),
            shim.latency() == latency_ticks,
            shim.jitter() == jitter_ticks,
            shim@ == Seq::<(u64, T)>::empty(),
            shim.generator() == seeded_generator(seed),
    {
        NetworkShim { latency_ticks, jitter_ticks, rng: seeded_rng(seed), queue: VecDeque::new() }
    }

    /// Fixed delay of the link, in ticks.
    pub fn latency_ticks(&self) -> (r: i64)
        ensures
            r == self.latency(),
    {
        self.latency_ticks
    }

    /// Bound of the per-message jitter, in ticks.
    pub fn jitter_ticks(&self) -> (r: i64)
        ensures
            r == self.jitter(),
    {
        self.jitter_ticks
    }

    /// Number of messages still waiting for delivery.
    pub fn pending_len(&self) -> (n: usize)
        ensures
            n == self@.len(),
    {
        self.queue.len()
    }

    /// The link's generator, for the loss roll that precedes `send` on a
    /// lossy link: draws made through it advance the link's generator.
    /// The queue and the delays are left as they are.
    pub fn rng_mut(&mut self) -> (rng: &mut StdRng)
        ensures
            *rng == old(self).generator(),
            final(self).generator() == *final(rng),
            final(self)@ == old(self)@,
            final(self).latency() == old(self).latency(),
            final(self).jitter() == old(self).jitter(),
    {
        &mut self.rng
    }

    /// Schedules `payload`, sent at `send_tick`, for delivery at
    /// `send_tick + latency + jitter` (the delay floored at zero), where the
    /// jitter is drawn from the link's generator in
    /// `[-jitter_ticks, jitter_ticks]`, or is zero when the bound is zero.
    /// The message is queued after every message due no later than it.
    pub fn send(&mut self, send_tick: u64, payload: T)
        requires
            old(self).wf(),
            send_tick + old(self).latency() + old(self).jitter() <= u64::MAX,
        ensures
            final(self).wf(),
            final(self).latency() == old(self).latency(),
            final(self).jitter() == old(self).jitter(),
            jitter_allowed(old(self).jitter(), drawn_jitter(old(self).jitter(), old(self).generator())),
            sent(*old(self), *final(self), send_tick, payload),
    {
        let jitter: i64 = if self.jitter_ticks > 0 {
            gen_range_inclusive(&mut self.rng, -self.jitter_ticks, self.jitter_ticks)
        } else {
            0
        };
        let total: i64 = self.latency_ticks + jitter;
        let delay: u64 = if total > 0 {
            total as u64
        } else {
            0
        };
        let delivery: u64 = send_tick + delay;
        assert(delivery == delivery_tick(send_tick, self.latency_ticks, jitter));

        let mut at: usize = 0;
        while at < self.queue.len() && self.queue[at].0 <= delivery
            invariant
                0 <= at <= self.queue@.len(),
                forall|i: int| 0 <= i < at ==> self.queue@[i].0 <= delivery,
            decreases self.queue@.len() - at,
        {
            at = at + 1;
        }
        proof {
            lemma_first_after_unique(self.queue@, delivery, at as int);
            lemma_schedule_insert(self.queue@, delivery, payload);
        }
        self.queue.insert(at, (delivery, payload));
        assert(jitter == drawn_jitter(old(self).jitter(), old(self).generator()));
        assert(self.queue@ == schedule_insert(
            old(self)@,
            delivery_tick(send_tick, old(self).latency(), jitter) as u64,
            payload,
        ));
    }

    /// Removes and returns, in delivery order, every payload whose delivery
    /// tick is at most `now`.
    pub fn poll(&mut self, now: u64) -> (delivered: Vec<T>)
        requires
            old(self).wf(),
        ensures
            final(self).wf(),
            final(self).latency() == old(self).latency(),
            final(self).jitter() == old(self).jitter(),
            delivered@ == due(old(self)@, now),
            final(self)@ == still_pending(old(self)@, now),
            final(self).generator() == old(self).generator(),
    {
        let ghost start = self.queue@;
        let mut delivered: Vec<T> = Vec::new();
        let ghost mut taken: int = 0;
        while self.queue.len() > 0 && self.queue[0].0 <= now
            invariant
                0 <= taken <= start.len(),
                self.queue@ == start.skip(taken),
                delivered@ == payloads(start.take(taken)),
                forall|i: int| 0 <= i < taken ==> start[i].0 <= now,
                self.latency_ticks == old(self).latency_ticks,
                self.jitter_ticks == old(self).jitter_ticks,
                self.rng == old(self).rng,
            decreases self.queue@.len(),
        {
            let entry = self.queue.pop_front();
            match entry {
                Some(e) => {
                    proof {
                        assert(start.take(taken + 1) =~= start.take(taken).push(start[taken]));
                        assert(start.skip(taken + 1) =~= start.skip(taken).subrange(
                            1,
                            start.skip(taken).len() as int,
                        ));
                    }
                    delivered.push(e.1);
                    proof {
                        taken = taken + 1;
                        assert(delivered@ =~= payloads(start.take(taken)));
                    }
                },
                None => {},
            }
        }
        proof {
            if taken < start.len() {
                assert(self.queue@[0] == start[taken]);
            }
            lemma_first_after_unique(start, now, taken);
            lemma_poll_split(start, now);
        }
        delivered
    }
}

/// Two links in the same state: the same queue, the same delays and the
/// same generator state.
pub open spec fn same_state<T>(a: NetworkShim<T>, b: NetworkShim<T>) -> bool {
    &&& a@ == b@
    &&& a.latency() == b.latency()
    &&& a.jitter() == b.jitter()
    &&& a.generator() == b.generator()
}

/// `after` is what `send(send_tick, payload)` leaves of `before`: the
/// message scheduled with the jitter drawn from `before`'s generator, the
/// generator advanced past that draw, the delays unchanged.
pub open spec fn sent<T>(before: NetworkShim<T>, after: NetworkShim<T>, send_tick: u64, payload: T) -> bool {
    &&& after.latency() == before.latency()
    &&& after.jitter() == before.jitter()
    &&& after@ == schedule_insert(
        before@,
        delivery_tick(
            send_tick,
            before.latency(),
            drawn_jitter(before.jitter(), before.generator()),
        ) as u64,
        payload,
    )
    &&& after.generator() == generator_after_send(before.jitter(), before.generator())
}

/// `after` and `delivered` are what `poll(now)` leaves of `before` and
/// hands out: the due payloads in order, the rest still queued, delays and
/// generator untouched.
pub open spec fn polled<T>(before: NetworkShim<T>, after: NetworkShim<T>, now: u64, delivered: Seq<T>) -> bool {
    &&& after.latency() == before.latency()
    &&& after.jitter() == before.jitter()
    &&& delivered == due(before@, now)
    &&& after@ == still_pending(before@, now)
    &&& after.generator() == before.generator()
}

/// What `send` does, in terms of the link's generator: on a link with
/// jitter bound `J > 0` the jitter `j` is the generator's draw over the
/// whole range `[-J, J]` and the generator moves past exactly that draw; on
/// a link without jitter `j` is zero and the generator is left alone. The
/// message is then delivered `latency + j` ticks after it was sent, or at
/// once when that is negative, and is queued after every entry due no
/// later. So a negative draw makes the message early and a positive one
/// late, by exactly the amount drawn.
pub proof fn lemma_send_delay<T>(
    before: NetworkShim<T>,
    after: NetworkShim<T>,
    send_tick: u64,
    payload: T,
)
    requires
        sent(before, after, send_tick, payload),
    ensures
        ({
            let latency = before.latency() as int;
            let bound = before.jitter() as int;
            let g = before.generator();
            let j: int = if bound > 0 {
                drawn_in_range(g, (-bound) as i64, bound as i64) as int
            } else {
                0
            };
            let d: int = send_tick + if latency + j >= 0 {
                latency + j
            } else {
                0
            };
            &&& after@.len() == before@.len() + 1
            &&& after@ == before@.insert(first_after(before@, d as u64), (d as u64, payload))
            &&& bound > 0 ==> after.generator() == after_draw(g, (-bound) as i64, bound as i64)
            &&& bound <= 0 ==> after.generator() == g
            &&& (latency + j >= 0 ==> d == send_tick + latency + j)
            &&& (j < 0 && latency + j >= 0 ==> d < send_tick + latency)
            &&& (j > 0 && latency >= 0 ==> d > send_tick + latency)
            &&& (j == 0 && latency >= 0 ==> d == send_tick + latency)
            &&& d >= send_tick
        }),
{
    let bound = before.jitter();
    let g = before.generator();
    let j = drawn_jitter(bound, g);
    if bound > 0 {
        assert((-(bound as int)) as i64 == (-bound) as i64);
        assert(j == drawn_in_range(g, (-(bound as int)) as i64, (bound as int) as i64));
    }
    let d = delivery_tick(send_tick, before.latency(), j);
    assert(d == send_tick + if before.latency() as int + j as int >= 0 {
        before.latency() as int + j as int
    } else {
        0
    });
    lemma_first_after(before@, d as u64);
}

/// Two links built with the same delays and the same seed start in the
/// same state.
pub proof fn lemma_same_seed_same_start<T>(
    a: NetworkShim<T>,
    b: NetworkShim<T>,
    latency_ticks: i64,
    jitter_ticks: i64,
    seed: u64,
)
    requires
        a@ == Seq::<(u64, T)>::empty() && b@ == Seq::<(u64, T)>::empty(),
        a.latency() == latency_ticks && b.latency() == latency_ticks,
        a.jitter() == jitter_ticks && b.jitter() == jitter_ticks,
        a.generator() == seeded_generator(seed) && b.generator() == seeded_generator(seed),
    ensures
        same_state(a, b),
{
}

/// Determinism of a link: from the same state, the same `send` leaves the
/// same state.
pub proof fn lemma_send_deterministic<T>(
    a0: NetworkShim<T>,
    a1: NetworkShim<T>,
    b0: NetworkShim<T>,
    b1: NetworkShim<T>,
    send_tick: u64,
    payload: T,
)
    requires
        same_state(a0, b0),
        sent(a0, a1, send_tick, payload),
        sent(b0, b1, send_tick, payload),
    ensures
        same_state(a1, b1),
{
}

/// Determinism of a link: from the same state, the same `poll` hands out
/// the same payloads and leaves the same state.
pub proof fn lemma_poll_deterministic<T>(
    a0: NetworkShim<T>,
    a1: NetworkShim<T>,
    b0: NetworkShim<T>,
    b1: NetworkShim<T>,
    now: u64,
    out_a: Seq<T>,
    out_b: Seq<T>,
)
    requires
        same_state(a0, b0),
        polled(a0, a1, now, out_a),
        polled(b0, b1, now, out_b),
    ensures
        same_state(a1, b1),
        out_a == out_b,
{
}

/// Polling at `early` and then at `late` hands out, in order, exactly what
/// one poll at `late` hands out, and leaves the same queue.
pub proof fn lemma_poll_twice_is_poll_once<T>(q: Seq<(u64, T)>, early: u64, late: u64)
    requires
        sorted_by_tick(q),
        early <= late,
    ensures
        due(q, early) + due(still_pending(q, early), late) == due(q, late),
        still_pending(still_pending(q, early), late) == still_pending(q, late),
{
    lemma_first_after(q, early);
    lemma_first_after(q, late);
    let fa = first_after(q, early);
    let fb = first_after(q, late);
    if fb < fa {
        assert(q[fb].0 <= early);
    }
    let rest = q.skip(fa);
    assert forall|i: int| 0 <= i < fb - fa implies rest[i].0 <= late by {
        assert(rest[i] == q[fa + i]);
    }
    if fb - fa < rest.len() {
        assert(rest[fb - fa] == q[fb]);
    }
    lemma_first_after_unique(rest, late, fb - fa);
    assert(q.take(fa) + rest.take(fb - fa) =~= q.take(fb));
    assert(payloads(q.take(fa)) + payloads(rest.take(fb - fa)) =~= payloads(q.take(fb)));
    assert(rest.skip(fb - fa) =~= q.skip(fb));
}

/// One call made on a link: a `send` or a `poll`.
pub enum LinkOp<T> {
    Send { send_tick: u64, payload: T },
    Poll { now: u64 },
}

/// `after` and `out` are what performing `op` on `before` leaves and hands
/// out (a send hands out nothing).
pub open spec fn link_step<T>(
    before: NetworkShim<T>,
    after: NetworkShim<T>,
    op: LinkOp<T>,
    out: Seq<T>,
) -> bool {
    match op {
        LinkOp::Send { send_tick, payload } => sent(before, after, send_tick, payload) && out
            == Seq::<T>::empty(),
        LinkOp::Poll { now } => polled(before, after, now, out),
    }
}

/// `states` are the successive states of a link on which the calls `ops`
/// were made, in order, and `outs` is what each call handed out.
pub open spec fn link_trace<T>(
    states: Seq<NetworkShim<T>>,
    ops: Seq<LinkOp<T>>,
    outs: Seq<Seq<T>>,
) -> bool {
    &&& states.len() == ops.len() + 1
    &&& outs.len() == ops.len()
    &&& forall|i: int|
        #![trigger ops[i]]
        0 <= i < ops.len() ==> link_step(states[i], states[i + 1], ops[i], outs[i])
}

/// Determinism of a link over any sequence of calls: two links that start
/// in the same state and receive the same sends and polls stay in the same
/// state throughout and hand out the same payloads at every poll.
pub proof fn lemma_same_start_same_trace<T>(
    a: Seq<NetworkShim<T>>,
    b: Seq<NetworkShim<T>>,
    ops: Seq<LinkOp<T>>,
    outs_a: Seq<Seq<T>>,
    outs_b: Seq<Seq<T>>,
)
    requires
        link_trace(a, ops, outs_a),
        link_trace(b, ops, outs_b),
        same_state(a[0], b[0]),
    ensures
        forall|i: int| 0 <= i <= ops.len() ==> #[trigger] same_state(a[i], b[i]),
        outs_a == outs_b,
{
    assert forall|i: int| 0 <= i <= ops.len() implies #[trigger] same_state(a[i], b[i]) by {
        lemma_same_prefix_same_state(a, b, ops, outs_a, outs_b, i);
    }
    assert forall|i: int| 0 <= i < ops.len() implies outs_a[i] == outs_b[i] by {
        lemma_same_prefix_same_state(a, b, ops, outs_a, outs_b, i);
        assert(link_step(a[i], a[i + 1], ops[i], outs_a[i]));
        assert(link_step(b[i], b[i + 1], ops[i], outs_b[i]));
    }
    assert(outs_a =~= outs_b);
}

proof fn lemma_same_prefix_same_state<T>(
    a: Seq<NetworkShim<T>>,
    b: Seq<NetworkShim<T>>,
    ops: Seq<LinkOp<T>>,
    outs_a: Seq<Seq<T>>,
    outs_b: Seq<Seq<T>>,
    k: int,
)
    requires
        link_trace(a, ops, outs_a),
        link_trace(b, ops, outs_b),
        same_state(a[0], b[0]),
        0 <= k <= ops.len(),
    ensures
        same_state(a[k], b[k]),
    decreases k,
{
    if k > 0 {
        lemma_same_prefix_same_state(a, b, ops, outs_a, outs_b, k - 1);
        assert(link_step(a[k - 1], a[k], ops[k - 1], outs_a[k - 1]));
        assert(link_step(b[k - 1], b[k], ops[k - 1], outs_b[k - 1]));
    }
}

/// The same seed gives the same delivery schedule: two links built with the
/// same delays and seed, given the same sends and polls, hand out the same
/// payloads at every poll.
pub proof fn lemma_same_seed_same_schedule<T>(
    a: Seq<NetworkShim<T>>,
    b: Seq<NetworkShim<T>>,
    ops: Seq<LinkOp<T>>,
    outs_a: Seq<Seq<T>>,
    outs_b: Seq<Seq<T>>,
    latency_ticks: i64,
    jitter_ticks: i64,
    seed: u64,
)
    requires
        link_trace(a, ops, outs_a),
        link_trace(b, ops, outs_b),
        a[0]@ == Seq::<(u64, T)>::empty() && b[0]@ == Seq::<(u64, T)>::empty(),
        a[0].latency() == latency_ticks && b[0].latency() == latency_ticks,
        a[0].jitter() == jitter_ticks && b[0].jitter() == jitter_ticks,
        a[0].generator() == seeded_generator(seed) && b[0].generator() == seeded_generator(seed),
    ensures
        outs_a == outs_b,
{
    lemma_same_seed_same_start(a[0], b[0], latency_ticks, jitter_ticks, seed);
    lemma_same_start_same_trace(a, b, ops, outs_a, outs_b);
}

/// Over any sequence of sends and polls, a link's queue stays in delivery
/// order, and its delays never change.
pub proof fn lemma_trace_keeps_order<T>(
    states: Seq<NetworkShim<T>>,
    ops: Seq<LinkOp<T>>,
    outs: Seq<Seq<T>>,
    k: int,
)
    requires
        link_trace(states, ops, outs),
        sorted_by_tick(states[0]@),
        0 <= k <= ops.len(),
    ensures
        sorted_by_tick(states[k]@),
        states[k].latency() == states[0].latency(),
        states[k].jitter() == states[0].jitter(),
    decreases k,
{
    if k > 0 {
        lemma_trace_keeps_order(states, ops, outs, k - 1);
        let before = states[k - 1];
        assert(link_step(before, states[k], ops[k - 1], outs[k - 1]));
        match ops[k - 1] {
            LinkOp::Send { send_tick, payload } => {
                lemma_schedule_insert(
                    before@,
                    delivery_tick(
                        send_tick,
                        before.latency(),
                        drawn_jitter(before.jitter(), before.generator()),
                    ) as u64,
                    payload,
                );
            },
            LinkOp::Poll { now } => {
                lemma_poll_split(before@, now);
            },
        }
    }
}

} // verus!
