//! Integer side of confidence-weighted rollback reconciliation: the
//! correction policy a reconciliation produces, and the bounded history of
//! recent residuals kept for diagnostics and offline tuning. The confidence
//! score itself (an exponentially weighted moving average of position
//! error) is floating point and is computed by the caller.

use std::collections::VecDeque;
use vstd::prelude::*;

verus! {

/// `blend_frames` at or below this counts as an aggressive-enough
/// correction to be a visible "pop".
pub const POP_BLEND_FRAMES_THRESHOLD: u8 = 4;

/// How many recent residuals a reconciler keeps.
pub const RECENT_RESIDUALS_CAPACITY: usize = 64;

/// How aggressively to reconcile a mispredicted entity back to the
/// authoritative state.
#[derive(Clone, Copy, Debug)]
pub struct ReconciliationPolicy {
    /// Frames to smooth the correction over. Low confidence -> few frames
    /// (snap fast); high confidence -> more frames (smooth, avoid popping).
    pub blend_frames: u8,
}

impl ReconciliationPolicy {
    /// The policy for a confidence that, scaled to `0..=7` and rounded,
    /// gives `smoothing_steps`: a correction blended over
    /// `1 + smoothing_steps` frames, so confidence 0 snaps over one frame
    /// and confidence 1 smooths over eight.
    pub fn from_smoothing_steps(smoothing_steps: u8) -> (policy: Self)
        requires
            smoothing_steps < 255,
        ensures
            policy.blend_frames == 1 + smoothing_steps,
    {
        ReconciliationPolicy { blend_frames: 1 + smoothing_steps }
    }

    /// Whether this correction is aggressive enough to be a visible pop.
    pub fn is_pop(&self) -> (pop: bool)
        ensures
            pop == (self.blend_frames <= POP_BLEND_FRAMES_THRESHOLD),
    {
        self.blend_frames <= POP_BLEND_FRAMES_THRESHOLD
    }
}

/// A policy built from a confidence scaled to `0..=7` blends over one to
/// eight frames, is never the `0` that marks "not reconciled yet", and pops
/// exactly when the scaled confidence rounds to at most three.
pub proof fn lemma_policy_blend_range(smoothing_steps: u8, policy: ReconciliationPolicy)
    requires
        smoothing_steps < 255,
        policy.blend_frames == 1 + smoothing_steps,
    ensures
        policy.blend_frames > 0,
        smoothing_steps <= 7 ==> 1 <= policy.blend_frames <= 8,
        smoothing_steps <= 3 <==> policy.blend_frames <= POP_BLEND_FRAMES_THRESHOLD,
{
}

/// The at most `capacity` most recent entries of `s`, oldest first.
pub open spec fn most_recent<R>(s: Seq<R>, capacity: nat) -> Seq<R> {
    if s.len() > capacity {
        s.skip(s.len() - capacity)
    } else {
        s
    }
}

/// The most recent residuals fed to a reconciler, oldest first, bounded to
/// `RECENT_RESIDUALS_CAPACITY` entries.
pub struct RecentResiduals<R> {
    values: VecDeque<R>,
}

impl<R> View for RecentResiduals<R> {
    type V = Seq<R>;

    closed spec fn view(&self) -> Seq<R> {
        self.values@
    }
}

impl<R: Copy> RecentResiduals<R> {
    /// Never more than the capacity.
    pub open spec fn wf(&self) -> bool {
        self@.len() <= RECENT_RESIDUALS_CAPACITY
    }

    pub fn new() -> (r: Self)
        ensures
            r.wf(),
            r@ == Seq::<R>::empty(),
    {
        RecentResiduals { values: VecDeque::with_capacity(RECENT_RESIDUALS_CAPACITY) }
    }

    /// Appends `residual`, dropping the oldest entry once the capacity is
    /// exceeded.
    pub fn push(&mut self, residual: R)
        requires
            old(self).wf(),
        ensures
            final(self).wf(),
            final(self)@ == most_recent(old(self)@.push(residual), RECENT_RESIDUALS_CAPACITY as nat),
    {
        self.values.push_back(residual);
        if self.values.len() > RECENT_RESIDUALS_CAPACITY {
            self.values.pop_front();
        }
    }

    /// Number of residuals kept.
    pub fn len(&self) -> (n: usize)
        ensures
            n == self@.len(),
    {
        self.values.len()
    }

    /// The most recent residual, if any.
    pub fn latest(&self) -> (r: Option<R>)
        ensures
            r == (if self@.len() == 0 {
                None
            } else {
                Some(self@.last())
            }),
    {
        let n = self.values.len();
        if n == 0 {
            None
        } else {
            Some(self.values[n - 1])
        }
    }
}

/// The history keeps, in order, the most recent residuals of everything
/// ever pushed: pushing `a` then `b` is the same as keeping the most recent
/// entries of the whole stream.
pub proof fn lemma_most_recent_push<R>(s: Seq<R>, r: R, capacity: nat)
    ensures
        most_recent(most_recent(s, capacity).push(r), capacity) == most_recent(s.push(r), capacity),
        most_recent(s.push(r), capacity).len() <= capacity,
        capacity > 0 ==> most_recent(s.push(r), capacity).last() == r,
{
    let m = most_recent(s, capacity);
    assert(most_recent(m.push(r), capacity) =~= most_recent(s.push(r), capacity));
}

/// Over any number of pushes onto an empty history, the history holds the
/// most recent `RECENT_RESIDUALS_CAPACITY` residuals pushed, oldest first
/// and newest last: `min(i, capacity)` of them after `i` pushes.
/// `histories[i]` is the history after the first `i` pushes.
pub proof fn lemma_history_of_pushes<R>(histories: Seq<Seq<R>>, residuals: Seq<R>, i: int)
    requires
        histories.len() == residuals.len() + 1,
        histories[0] == Seq::<R>::empty(),
        forall|j: int|
            #![trigger residuals[j]]
            0 <= j < residuals.len() ==> histories[j + 1] == most_recent(
                histories[j].push(residuals[j]),
                RECENT_RESIDUALS_CAPACITY as nat,
            ),
        0 <= i <= residuals.len(),
    ensures
        histories[i] == most_recent(residuals.take(i), RECENT_RESIDUALS_CAPACITY as nat),
        histories[i].len() == (if i < RECENT_RESIDUALS_CAPACITY {
            i
        } else {
            RECENT_RESIDUALS_CAPACITY as int
        }),
        i > 0 ==> histories[i].last() == residuals[i - 1],
    decreases i,
{
    let cap = RECENT_RESIDUALS_CAPACITY as nat;
    if i == 0 {
        assert(residuals.take(0) =~= Seq::<R>::empty());
    } else {
        lemma_history_of_pushes(histories, residuals, i - 1);
        let r = residuals[i - 1];
        lemma_most_recent_push(residuals.take(i - 1), r, cap);
        assert(residuals.take(i - 1).push(r) =~= residuals.take(i));
    }
}

} // verus!
