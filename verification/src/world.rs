//! The clock of the authoritative world: its tick counter and the schedule
//! on which the world re-samples its waypoint velocity. The world holds its
//! velocity constant between re-samples, which gives a piecewise-linear,
//! reproducible trajectory; the kinematics themselves are the caller's.

use vstd::arithmetic::div_mod::{
    lemma_fundamental_div_mod, lemma_mod_add_multiples_vanish, lemma_mod_self_0, lemma_small_mod,
};
use vstd::prelude::*;

verus! {

/// How many seconds pass between re-samples of the waypoint velocity.
pub const WAYPOINT_INTERVAL_SECS: u64 = 1;

/// Whether the step taken at tick `tick` re-samples the velocity, for
/// re-samples every `interval` ticks: at ticks `interval`, `2 * interval`,
/// and so on (at every tick when the interval is zero).
pub open spec fn resample_due(tick: int, interval: int) -> bool {
    tick >= interval && (interval == 0 || tick % interval == 0)
}

/// Two distinct multiples of `m` are at least `m` apart.
proof fn lemma_multiples_apart(x: int, y: int, m: int)
    requires
        m > 0,
        0 <= x < y,
        x % m == 0,
        y % m == 0,
    ensures
        x + m <= y,
{
    lemma_fundamental_div_mod(x, m);
    lemma_fundamental_div_mod(y, m);
    let a = x / m;
    let b = y / m;
    assert(a < b) by (nonlinear_arith)
        requires
            x == m * a,
            y == m * b,
            x < y,
            m > 0,
    ;
    assert(m * a + m <= m * b) by (nonlinear_arith)
        requires
            a < b,
            m > 0,
    ;
}

/// Re-samples are exactly `interval` ticks apart: after one at tick `k`,
/// the next comes at `k + interval` and none in between. The first comes at
/// tick `interval`.
pub proof fn lemma_resample_period(k: int, interval: int)
    requires
        interval > 0,
        k >= 0,
    ensures
        resample_due(k, interval) ==> resample_due(k + interval, interval),
        resample_due(k, interval) ==> forall|j: int|
            k < j < k + interval ==> !#[trigger] resample_due(j, interval),
        forall|j: int| 0 <= j < interval ==> !#[trigger] resample_due(j, interval),
{
    if resample_due(k, interval) {
        lemma_mod_add_multiples_vanish(k, interval);
        assert forall|j: int| k < j < k + interval implies !#[trigger] resample_due(j, interval) by {
            if resample_due(j, interval) {
                lemma_multiples_apart(k, j, interval);
            }
        }
    }
}

/// Tick counter and waypoint schedule of the authoritative world.
pub struct WorldClock {
    tick: u64,
    waypoint_interval_ticks: u64,
    next_waypoint_tick: u64,
}

impl WorldClock {
    /// Ticks taken so far.
    pub closed spec fn ticks(&self) -> u64 {
        self.tick
    }

    /// Ticks between two waypoint re-samples.
    pub closed spec fn interval(&self) -> u64 {
        self.waypoint_interval_ticks
    }

    /// The pending re-sample tick stays consistent with the tick counter:
    /// it is the first multiple of the interval, after the start, that the
    /// counter has not passed.
    pub closed spec fn wf(&self) -> bool {
        let t = self.tick as int;
        let i = self.waypoint_interval_ticks as int;
        let n = self.next_waypoint_tick as int;
        if i == 0 {
            n <= t
        } else {
            &&& n % i == 0
            &&& n >= i
            &&& t <= n
            &&& t > 0 ==> n < t + i
            &&& t == 0 ==> n == i
        }
    }

    /// A clock at tick zero that re-samples once per
    /// `WAYPOINT_INTERVAL_SECS` seconds at `tick_rate_hz`.
    pub fn new(tick_rate_hz: u32) -> (clock: Self)
        ensures
            clock.wf(),
            clock.ticks() == 0,
            clock.interval() == WAYPOINT_INTERVAL_SECS * tick_rate_hz,
    {
        let waypoint_interval_ticks: u64 = WAYPOINT_INTERVAL_SECS * (tick_rate_hz as u64);
        proof {
            if waypoint_interval_ticks > 0 {
                lemma_mod_self_0(waypoint_interval_ticks as int);
            }
        }
        WorldClock { tick: 0, waypoint_interval_ticks, next_waypoint_tick: waypoint_interval_ticks }
    }

    /// Ticks taken so far.
    pub fn tick(&self) -> (t: u64)
        ensures
            t == self.ticks(),
    {
        self.tick
    }

    /// Ticks between two waypoint re-samples.
    pub fn waypoint_interval_ticks(&self) -> (i: u64)
        ensures
            i == self.interval(),
    {
        self.waypoint_interval_ticks
    }

    /// Whether the next step re-samples the velocity.
    pub fn resamples_on_next_step(&self) -> (r: bool)
        requires
            self.wf(),
        ensures
            r == resample_due(self.ticks() as int, self.interval() as int),
    {
        let ghost t = self.tick as int;
        let ghost i = self.waypoint_interval_ticks as int;
        let ghost n = self.next_waypoint_tick as int;
        proof {
            if i > 0 && t < n && resample_due(t, i) {
                if t > 0 {
                    lemma_small_mod(0, i as nat);
                    lemma_multiples_apart(t, n, i);
                }
            }
        }
        self.tick >= self.next_waypoint_tick
    }

    /// Takes one step: reports whether the velocity is re-sampled on this
    /// step (decided at the tick before the step), then advances the tick
    /// counter by exactly one.
    pub fn advance(&mut self) -> (resample: bool)
        requires
            old(self).wf(),
            old(self).ticks() < u64::MAX,
            resample_due(old(self).ticks() as int, old(self).interval() as int) ==> old(
                self,
            ).ticks() + old(self).interval() <= u64::MAX,
        ensures
            final(self).wf(),
            resample == resample_due(old(self).ticks() as int, old(self).interval() as int),
            final(self).ticks() == old(self).ticks() + 1,
            final(self).interval() == old(self).interval(),
    {
        let ghost t = self.tick as int;
        let ghost i = self.waypoint_interval_ticks as int;
        let ghost n = self.next_waypoint_tick as int;
        let resample = self.tick >= self.next_waypoint_tick;
        proof {
            if i > 0 {
                if t >= n {
                    assert(t == n);
                } else if resample_due(t, i) {
                    if t == 0 {
                        assert(false);
                    } else {
                        lemma_small_mod(0, i as nat);
                        lemma_multiples_apart(t, n, i);
                    }
                }
            }
        }
        if resample {
            self.next_waypoint_tick = self.tick + self.waypoint_interval_ticks;
            proof {
                if i > 0 {
                    lemma_mod_add_multiples_vanish(t, i);
                }
            }
        }
        self.tick = self.tick + 1;
        resample
    }
}

} // verus!
