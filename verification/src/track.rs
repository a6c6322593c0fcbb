//! Bookkeeping of one dead-reckoning + reconciliation track: what it
//! reports each tick between reconciliations, when a correction counts as a
//! pop, how stale a delivered update is, and when two tracks can be
//! compared. Positions, residuals and distances are floating point and are
//! carried through as an opaque `R`.

use crate::reconciler::{ReconciliationPolicy, POP_BLEND_FRAMES_THRESHOLD};
use vstd::prelude::*;

verus! {

/// Ticks that passed between the server tick an update was produced at
/// and the local tick it is applied at; zero for an update from the future.
pub fn ticks_since(now: u64, produced_at: u64) -> (elapsed: u64)
    ensures
        elapsed == (if now >= produced_at {
            now - produced_at
        } else {
            0
        }),
{
    now.saturating_sub(produced_at)
}

/// What a track reports for one tick: the residual and blend frames of its
/// most recent reconciliation, and whether a pop fired on this tick.
pub struct TrackReport<R> {
    pub residual: R,
    pub blend_frames: u8,
    pub pop: bool,
}

/// The outcome of a track's most recent reconciliation, carried forward
/// between reconciliations. `blend_frames == 0` (outside the policy's
/// `1..=8` range) marks a track that has not reconciled yet.
pub struct ReconciliationLog<R> {
    last_residual: R,
    last_blend_frames: u8,
    reconciliations: Ghost<nat>,
    zero_residual: Ghost<R>,
}

impl<R: Copy> ReconciliationLog<R> {
    /// Residual of the most recent reconciliation.
    pub closed spec fn residual(&self) -> R {
        self.last_residual
    }

    /// Blend frames of the most recent reconciliation, `0` before the first.
    pub closed spec fn blend_frames(&self) -> u8 {
        self.last_blend_frames
    }

    /// How many reconciliations the track has recorded.
    pub closed spec fn reconciliations(&self) -> nat {
        self.reconciliations@
    }

    /// The residual the track reports before its first reconciliation.
    pub closed spec fn zero_residual(&self) -> R {
        self.zero_residual@
    }

    /// `blend_frames` is the sentinel `0` exactly until the first
    /// reconciliation and within `1..=8` from then on; until then the
    /// residual is the zero residual the log was made with.
    pub closed spec fn wf(&self) -> bool {
        &&& (self.reconciliations@ == 0 <==> self.last_blend_frames == 0)
        &&& self.last_blend_frames <= 8
        &&& self.reconciliations@ == 0 ==> self.last_residual == self.zero_residual@
    }

    /// A log of a track that has not reconciled yet, reporting
    /// `zero_residual` as its residual.
    pub fn new(zero_residual: R) -> (log: Self)
        ensures
            log.wf(),
            log.residual() == zero_residual,
            log.blend_frames() == 0,
            log.reconciliations() == 0,
            log.zero_residual() == zero_residual,
    {
        ReconciliationLog {
            last_residual: zero_residual,
            last_blend_frames: 0,
            reconciliations: Ghost(0),
            zero_residual: Ghost(zero_residual),
        }
    }

    /// The report for a tick on which nothing was delivered: the previous
    /// reconciliation carried forward, and no pop.
    pub fn carry_forward(&self) -> (report: TrackReport<R>)
        ensures
            report.residual == self.residual(),
            report.blend_frames == self.blend_frames(),
            !report.pop,
    {
        TrackReport { residual: self.last_residual, blend_frames: self.last_blend_frames, pop: false }
    }

    /// Records a reconciliation that measured `residual` and produced
    /// `policy` (blending over one to eight frames), and reports it: a pop
    /// fires when the policy blends over at most
    /// `POP_BLEND_FRAMES_THRESHOLD` frames.
    pub fn record(&mut self, residual: R, policy: ReconciliationPolicy) -> (report: TrackReport<R>)
        requires
            old(self).wf(),
            1 <= policy.blend_frames <= 8,
        ensures
            final(self).wf(),
            final(self).reconciliations() == old(self).reconciliations() + 1,
            final(self).zero_residual() == old(self).zero_residual(),
            final(self).residual() == residual,
            final(self).blend_frames() == policy.blend_frames,
            report.residual == residual,
            report.blend_frames == policy.blend_frames,
            report.pop == (policy.blend_frames <= POP_BLEND_FRAMES_THRESHOLD),
    {
        self.last_residual = residual;
        self.last_blend_frames = policy.blend_frames;
        self.reconciliations = Ghost(self.reconciliations@ + 1);
        TrackReport { residual, blend_frames: policy.blend_frames, pop: policy.is_pop() }
    }

    /// Whether the track has reconciled at least once.
    pub fn has_reconciled(&self) -> (r: bool)
        ensures
            r == (self.blend_frames() > 0),
            self.wf() ==> (r <==> self.reconciliations() > 0),
    {
        self.last_blend_frames > 0
    }

    /// Residual of the most recent reconciliation.
    pub fn last_residual(&self) -> (r: R)
        ensures
            r == self.residual(),
    {
        self.last_residual
    }

    /// Blend frames of the most recent reconciliation, `0` before the first.
    pub fn last_blend_frames(&self) -> (b: u8)
        ensures
            b == self.blend_frames(),
    {
        self.last_blend_frames
    }
}

/// A track's log reports blend frames `0` exactly until its first
/// reconciliation, and blend frames in `1..=8` from then on; until the first
/// reconciliation it reports the zero residual it was made with. Reports
/// carried forward between reconciliations report the same.
pub proof fn lemma_sentinel_until_first_reconciliation<R: Copy>(log: ReconciliationLog<R>)
    requires
        log.wf(),
    ensures
        log.blend_frames() == 0 <==> log.reconciliations() == 0,
        log.reconciliations() > 0 ==> 1 <= log.blend_frames() <= 8,
        log.reconciliations() == 0 ==> log.residual() == log.zero_residual(),
{
}

/// The peer divergence a client reports after stepping its peer track: the
/// fresh gap between the two tracks once both have reconciled at least
/// once, otherwise the previously reported value.
pub fn peer_divergence<R: Copy>(
    server: &ReconciliationLog<R>,
    peer: &ReconciliationLog<R>,
    previous: R,
    gap: R,
) -> (divergence: R)
    ensures
        divergence == (if server.blend_frames() > 0 && peer.blend_frames() > 0 {
            gap
        } else {
            previous
        }),
{
    if peer.has_reconciled() && server.has_reconciled() {
        gap
    } else {
        previous
    }
}

/// Over any sequence of ticks, a track's log reports blend frames `0` until
/// the first tick on which an update was delivered and reconciled, and
/// blend frames in `1..=8` from then on; until then it reports the zero
/// residual it was made with. `logs[i]` is the log after `i` ticks, and
/// `delivered[i]` says whether tick `i` recorded a reconciliation (otherwise
/// the log is carried forward unchanged).
pub proof fn lemma_log_over_ticks<R: Copy>(
    logs: Seq<ReconciliationLog<R>>,
    delivered: Seq<bool>,
    i: int,
)
    requires
        logs.len() == delivered.len() + 1,
        logs[0].wf(),
        logs[0].reconciliations() == 0,
        forall|j: int|
            #![trigger delivered[j]]
            0 <= j < delivered.len() ==> if delivered[j] {
                &&& logs[j + 1].wf()
                &&& logs[j + 1].reconciliations() == logs[j].reconciliations() + 1
                &&& logs[j + 1].zero_residual() == logs[j].zero_residual()
            } else {
                logs[j + 1] == logs[j]
            },
        0 <= i <= delivered.len(),
    ensures
        logs[i].wf(),
        logs[i].zero_residual() == logs[0].zero_residual(),
        logs[i].blend_frames() == 0 <==> forall|j: int| 0 <= j < i ==> !#[trigger] delivered[j],
        logs[i].blend_frames() != 0 ==> 1 <= logs[i].blend_frames() <= 8,
        logs[i].blend_frames() == 0 ==> logs[i].residual() == logs[0].zero_residual(),
    decreases i,
{
    if i > 0 {
        lemma_log_over_ticks(logs, delivered, i - 1);
        assert(delivered[i - 1] || logs[i] == logs[i - 1]);
    }
    lemma_sentinel_until_first_reconciliation(logs[i]);
    if i > 0 && logs[i].blend_frames() == 0 {
        assert forall|j: int| 0 <= j < i implies !#[trigger] delivered[j] by {
            if j == i - 1 {
                if delivered[j] {
                    assert(logs[i].reconciliations() > 0);
                }
            }
        }
    }
}

} // verus!
