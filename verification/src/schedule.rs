//! The order of work in a simulation run. Each tick the authoritative world
//! advances one tick; the server broadcasts the snapshot to every client;
//! every client dead-reckons and reconciles its canonical (server-informed)
//! track; every client publishes its canonical belief to its ring neighbour
//! (client `i` to client `(i + 1) % n`); and every client steps its shadow
//! (peer-informed) track and writes its metrics record; and, when the run
//! records a replay, the tick's positions are written to the replay file.
//! After the last tick the outputs are flushed.
//!
//! `run` decides, one action at a time, what the driver does next; the
//! driver performs the action (world stepping, kinematics, file output) and
//! calls `run` again.

use vstd::arithmetic::div_mod::{lemma_mod_add_multiples_vanish, lemma_mod_self_0, lemma_small_mod};
use vstd::prelude::*;

verus! {

/// The next piece of work for the driver of a run.
#[derive(Clone, Copy, Debug, PartialEq, Eq)]
pub enum RunAction {
    /// Step the authoritative world one tick.
    AdvanceWorld,
    /// Send the tick's snapshot to `client` over its server link.
    Broadcast { client: usize },
    /// Dead-reckon and reconcile `client`'s canonical track.
    StepServerTrack { client: usize },
    /// Publish client `from`'s canonical belief to client `to` over the peer
    /// ring.
    Publish { from: usize, to: usize },
    /// Step `client`'s shadow peer track and write its metrics record.
    StepPeerTrackAndRecord { client: usize },
    /// Write the tick's replay record: the server position and every
    /// client's canonical predicted position.
    RecordReplay,
    /// Flush the outputs.
    Flush,
    /// Nothing is left to do.
    Finished,
}

/// Client `i`'s neighbour on a ring of `n` clients.
pub open spec fn ring_next(i: int, n: int) -> int {
    (i + 1) % n
}

/// Number of actions in one tick with `n` clients: four per client, the
/// world step, and the replay record when the run records a replay.
pub open spec fn tick_len(n: nat, replay: bool) -> nat {
    4 * n + 1 + if replay {
        1nat
    } else {
        0nat
    }
}

/// The `k`-th action of one tick with `n` clients
/// (`0 <= k < tick_len(n, replay)`).
pub open spec fn tick_action(n: nat, replay: bool, k: int) -> RunAction {
    if k == 0 {
        RunAction::AdvanceWorld
    } else if k < 1 + n {
        RunAction::Broadcast { client: (k - 1) as usize }
    } else if k < 1 + 2 * n {
        RunAction::StepServerTrack { client: (k - 1 - n) as usize }
    } else if k < 1 + 3 * n {
        RunAction::Publish {
            from: (k - 1 - 2 * n) as usize,
            to: ring_next(k - 1 - 2 * n, n as int) as usize,
        }
    } else if k < 1 + 4 * n {
        RunAction::StepPeerTrackAndRecord { client: (k - 1 - 3 * n) as usize }
    } else {
        RunAction::RecordReplay
    }
}

/// All actions of one tick with `n` clients, in order.
pub open spec fn tick_actions(n: nat, replay: bool) -> Seq<RunAction> {
    Seq::new(tick_len(n, replay), |k: int| tick_action(n, replay, k))
}

/// The actions of the first `ticks` ticks.
pub open spec fn run_actions(ticks: nat, n: nat, replay: bool) -> Seq<RunAction>
    decreases ticks,
{
    if ticks == 0 {
        Seq::empty()
    } else {
        run_actions((ticks - 1) as nat, n, replay) + tick_actions(n, replay)
    }
}

/// Every action of a run of `tick_count` ticks with `n` clients: each
/// tick's actions, then one flush.
pub open spec fn whole_run(tick_count: nat, n: nat, replay: bool) -> Seq<RunAction> {
    run_actions(tick_count, n, replay).push(RunAction::Flush)
}

/// Each tick adds exactly `tick_len(n, replay)` actions.
pub proof fn lemma_run_actions_len(ticks: nat, n: nat, replay: bool)
    ensures
        run_actions(ticks, n, replay).len() == ticks * tick_len(n, replay),
    decreases ticks,
{
    let m = tick_len(n, replay);
    if ticks > 0 {
        let prev = (ticks - 1) as nat;
        lemma_run_actions_len(prev, n, replay);
        assert(run_actions(ticks, n, replay).len() == run_actions(prev, n, replay).len()
            + tick_actions(n, replay).len());
        assert(ticks * m == prev * m + m) by (nonlinear_arith)
            requires
                prev + 1 == ticks,
        ;
    } else {
        assert(ticks * m == 0) by (nonlinear_arith)
            requires
                ticks == 0,
        ;
    }
}

/// In a run of `tick_count` ticks, tick `t` (counted from zero) occupies the
/// positions right after the first `t` ticks, and holds that tick's actions.
pub proof fn lemma_tick_in_run(tick_count: nat, t: nat, n: nat, replay: bool, k: int)
    requires
        t < tick_count,
        0 <= k < tick_len(n, replay),
    ensures
        run_actions(t, n, replay).len() + k < run_actions(tick_count, n, replay).len(),
        run_actions(tick_count, n, replay)[run_actions(t, n, replay).len() + k] == tick_action(
            n,
            replay,
            k,
        ),
    decreases tick_count,
{
    let m = tick_len(n, replay);
    lemma_run_actions_len(t, n, replay);
    lemma_run_actions_len((t + 1) as nat, n, replay);
    lemma_run_actions_len(tick_count, n, replay);
    lemma_run_actions_len((tick_count - 1) as nat, n, replay);
    assert(tick_count * m >= (t + 1) * m) by (nonlinear_arith)
        requires
            tick_count >= t + 1,
    ;
    assert((t + 1) * m == t * m + m) by (nonlinear_arith);
    if t + 1 < tick_count {
        lemma_tick_in_run((tick_count - 1) as nat, t, n, replay, k);
    }
}

/// Within one tick, every client gets exactly one broadcast, one step of
/// its canonical track, one publication of its belief and one metrics
/// record, in that order: each of these actions names client `c` at exactly
/// one position of the tick. A run that records a replay writes exactly one
/// replay record per tick, as the tick's last action, and a run that does
/// not writes none.
pub proof fn lemma_each_client_once_per_tick(n: nat, replay: bool, c: int, k: int)
    requires
        n <= usize::MAX,
        0 <= c < n,
        0 <= k < tick_len(n, replay),
    ensures
        tick_action(n, replay, k) == (RunAction::Broadcast { client: c as usize }) <==> k == 1 + c,
        tick_action(n, replay, k) == (RunAction::StepServerTrack { client: c as usize }) <==> k
            == 1 + n + c,
        tick_action(n, replay, k) is Publish && tick_action(n, replay, k)->from == c <==> k == 1 + 2
            * n + c,
        tick_action(n, replay, k) == (RunAction::StepPeerTrackAndRecord { client: c as usize })
            <==> k == 1 + 3 * n + c,
        tick_action(n, replay, k) == RunAction::RecordReplay <==> (replay && k == 1 + 4 * n),
{
}

/// The ring is a permutation: every client receives exactly one
/// publication per tick, from the client before it.
pub proof fn lemma_ring_is_permutation(n: int, j: int)
    requires
        0 <= j < n,
    ensures
        0 <= (j + n - 1) % n < n,
        ring_next((j + n - 1) % n, n) == j,
        forall|i: int| 0 <= i < n && #[trigger] ring_next(i, n) == j ==> i == (j + n - 1) % n,
{
    lemma_mod_self_0(n);
    if j == 0 {
        lemma_small_mod((n - 1) as nat, n as nat);
    } else {
        lemma_mod_add_multiples_vanish(j - 1, n);
        lemma_small_mod((j - 1) as nat, n as nat);
        lemma_small_mod(j as nat, n as nat);
    }
    assert forall|i: int| 0 <= i < n && #[trigger] ring_next(i, n) == j implies i == (j + n - 1)
        % n by {
        if i < n - 1 {
            lemma_small_mod((i + 1) as nat, n as nat);
        }
    }
}

/// Client `i`'s neighbour on a ring of `n` clients.
pub fn ring_neighbor(i: usize, n: usize) -> (next: usize)
    requires
        i < n,
    ensures
        next == ring_next(i as int, n as int),
        next < n,
{
    if i + 1 == n {
        proof {
            lemma_mod_self_0(n as int);
        }
        0
    } else {
        proof {
            lemma_small_mod((i + 1) as nat, n as nat);
        }
        i + 1
    }
}

enum Phase {
    AdvanceWorld,
    Broadcast,
    StepServer,
    Publish,
    StepPeer,
    RecordReplay,
    Flush,
    Finished,
}

/// Where a run stands: how many ticks have begun, and which action of the
/// current tick comes next.
pub struct RunSchedule {
    tick_count: u64,
    client_count: usize,
    record_replay: bool,
    ticks_started: u64,
    phase: Phase,
    client: usize,
}

impl RunSchedule {
    /// Ticks the run lasts.
    pub closed spec fn ticks(&self) -> nat {
        self.tick_count as nat
    }

    /// Clients taking part.
    pub closed spec fn clients(&self) -> nat {
        self.client_count as nat
    }

    /// Whether each tick ends with a replay record.
    pub closed spec fn replay(&self) -> bool {
        self.record_replay
    }

    /// How many actions of `whole_run(ticks(), clients(), replay())` have
    /// been handed out.
    pub closed spec fn position(&self) -> nat {
        let n = self.client_count as nat;
        let r = self.record_replay;
        let t = self.ticks_started as nat;
        let c = self.client as int;
        let started = run_actions((t - 1) as nat, n, r).len() as int;
        (match self.phase {
            Phase::AdvanceWorld => run_actions(t, n, r).len() as int,
            Phase::Broadcast => started + 1 + c,
            Phase::StepServer => started + 1 + n + c,
            Phase::Publish => started + 1 + 2 * n + c,
            Phase::StepPeer => started + 1 + 3 * n + c,
            Phase::RecordReplay => started + 1 + 4 * n,
            Phase::Flush => run_actions(self.tick_count as nat, n, r).len() as int,
            Phase::Finished => run_actions(self.tick_count as nat, n, r).len() + 1int,
        }) as nat
    }

    pub closed spec fn wf(&self) -> bool {
        let n = self.client_count;
        &&& self.ticks_started <= self.tick_count
        &&& match self.phase {
            Phase::AdvanceWorld => self.ticks_started < self.tick_count,
            Phase::Flush | Phase::Finished => self.ticks_started == self.tick_count,
            Phase::RecordReplay => self.ticks_started >= 1 && self.record_replay,
            _ => self.ticks_started >= 1 && self.client < n,
        }
    }

    /// A run of `tick_count` ticks with `client_count` clients, recording a
    /// replay when `record_replay` holds, before its first action.
    pub fn new(tick_count: u64, client_count: usize, record_replay: bool) -> (schedule: Self)
        ensures
            schedule.wf(),
            schedule.ticks() == tick_count,
            schedule.clients() == client_count,
            schedule.replay() == record_replay,
            schedule.position() == 0,
    {
        let phase = if tick_count > 0 {
            Phase::AdvanceWorld
        } else {
            Phase::Flush
        };
        RunSchedule { tick_count, client_count, record_replay, ticks_started: 0, phase, client: 0 }
    }

    /// Whether every action, the final flush included, has been handed out.
    pub fn is_finished(&self) -> (done: bool)
        requires
            self.wf(),
        ensures
            done == (self.position() == whole_run(self.ticks(), self.clients(), self.replay()).len()),
    {
        proof {
            let n = self.client_count as nat;
            let r = self.record_replay;
            lemma_run_actions_len(self.tick_count as nat, n, r);
            if self.ticks_started > 0 {
                lemma_run_actions_len((self.ticks_started - 1) as nat, n, r);
                lemma_run_actions_len(self.ticks_started as nat, n, r);
                self.lemma_position_bound();
            } else {
                lemma_run_actions_len(0, n, r);
            }
        }
        match self.phase {
            Phase::Finished => true,
            _ => false,
        }
    }

    proof fn lemma_position_bound(&self)
        requires
            self.wf(),
            self.ticks_started > 0,
        ensures
            match self.phase {
                Phase::Finished => true,
                _ => self.position() < whole_run(self.ticks(), self.clients(), self.replay()).len(),
            },
    {
        let n = self.client_count as nat;
        let r = self.record_replay;
        let m = tick_len(n, r);
        let t = self.ticks_started as nat;
        let tc = self.tick_count as nat;
        lemma_run_actions_len((t - 1) as nat, n, r);
        lemma_run_actions_len(t, n, r);
        lemma_run_actions_len(tc, n, r);
        assert(tc * m >= t * m) by (nonlinear_arith)
            requires
                tc >= t,
        ;
        assert(t * m == (t - 1) * m + m) by (nonlinear_arith)
            requires
                t >= 1,
        ;
    }

    /// Moves to the start of the next tick, or to the flush after the last.
    fn end_tick(&mut self)
        requires
            old(self).ticks_started <= old(self).tick_count,
            old(self).ticks_started >= 1,
        ensures
            final(self).tick_count == old(self).tick_count,
            final(self).client_count == old(self).client_count,
            final(self).record_replay == old(self).record_replay,
            final(self).ticks_started == old(self).ticks_started,
            final(self).wf(),
            final(self).position() == run_actions(
                old(self).ticks_started as nat,
                old(self).client_count as nat,
                old(self).record_replay,
            ).len(),
    {
        if self.ticks_started < self.tick_count {
            self.phase = Phase::AdvanceWorld;
        } else {
            self.phase = Phase::Flush;
        }
        self.client = 0;
    }

    /// Moves past the last per-client action of a tick: to the replay
    /// record when the run records one, otherwise to the next tick.
    fn end_clients(&mut self)
        requires
            old(self).ticks_started <= old(self).tick_count,
            old(self).ticks_started >= 1,
        ensures
            final(self).tick_count == old(self).tick_count,
            final(self).client_count == old(self).client_count,
            final(self).record_replay == old(self).record_replay,
            final(self).ticks_started == old(self).ticks_started,
            final(self).wf(),
            final(self).position() == run_actions(
                (old(self).ticks_started - 1) as nat,
                old(self).client_count as nat,
                old(self).record_replay,
            ).len() + 1 + 4 * old(self).client_count,
    {
        let ghost n = self.client_count as nat;
        let ghost r = self.record_replay;
        let ghost t = self.ticks_started as nat;
        proof {
            lemma_run_actions_len((t - 1) as nat, n, r);
            lemma_run_actions_len(t, n, r);
            assert(t * tick_len(n, r) == (t - 1) * tick_len(n, r) + tick_len(n, r)) by (nonlinear_arith)
                requires
                    t >= 1,
            ;
        }
        if self.record_replay {
            self.phase = Phase::RecordReplay;
            self.client = 0;
        } else {
            self.end_tick();
        }
    }
}

/// Hands out the next action of the run described by `schedule` and moves
/// past it. The actions come in the order of `whole_run`; once the final
/// flush has been handed out, every further call returns `Finished`.
#[verifier::rlimit(50)]
pub fn run(schedule: &mut RunSchedule) -> (action: RunAction)
    requires
        old(schedule).wf(),
    ensures
        final(schedule).wf(),
        final(schedule).ticks() == old(schedule).ticks(),
        final(schedule).clients() == old(schedule).clients(),
        final(schedule).replay() == old(schedule).replay(),
        old(schedule).position() < whole_run(
            old(schedule).ticks(),
            old(schedule).clients(),
            old(schedule).replay(),
        ).len() ==> {
            &&& action == whole_run(
                old(schedule).ticks(),
                old(schedule).clients(),
                old(schedule).replay(),
            )[old(schedule).position() as int]
            &&& final(schedule).position() == old(schedule).position() + 1
        },
        old(schedule).position() == whole_run(
            old(schedule).ticks(),
            old(schedule).clients(),
            old(schedule).replay(),
        ).len() ==> {
            &&& action == RunAction::Finished
            &&& final(schedule).position() == old(schedule).position()
        },
{
    let ghost tc = schedule.tick_count as nat;
    let ghost n = schedule.client_count as nat;
    let ghost r = schedule.record_replay;
    let ghost t0 = schedule.ticks_started as nat;
    proof {
        lemma_run_actions_len(tc, n, r);
        if t0 > 0 {
            schedule.lemma_position_bound();
            lemma_run_actions_len((t0 - 1) as nat, n, r);
            lemma_run_actions_len(t0, n, r);
        } else {
            lemma_run_actions_len(0, n, r);
        }
    }
    let n_clients = schedule.client_count;
    match schedule.phase {
        Phase::AdvanceWorld => {
            proof {
                lemma_tick_in_run(tc, t0, n, r, 0);
            }
            schedule.ticks_started = schedule.ticks_started + 1;
            if n_clients > 0 {
                schedule.phase = Phase::Broadcast;
                schedule.client = 0;
            } else {
                schedule.end_clients();
            }
            RunAction::AdvanceWorld
        },
        Phase::Broadcast => {
            let c = schedule.client;
            proof {
                lemma_tick_in_run(tc, (t0 - 1) as nat, n, r, 1 + c);
            }
            if c + 1 < n_clients {
                schedule.client = c + 1;
            } else {
                schedule.phase = Phase::StepServer;
                schedule.client = 0;
            }
            RunAction::Broadcast { client: c }
        },
        Phase::StepServer => {
            let c = schedule.client;
            proof {
                lemma_tick_in_run(tc, (t0 - 1) as nat, n, r, 1 + n + c);
            }
            if c + 1 < n_clients {
                schedule.client = c + 1;
            } else {
                schedule.phase = Phase::Publish;
                schedule.client = 0;
            }
            RunAction::StepServerTrack { client: c }
        },
        Phase::Publish => {
            let c = schedule.client;
            proof {
                lemma_tick_in_run(tc, (t0 - 1) as nat, n, r, 1 + 2 * n + c);
            }
            let to = ring_neighbor(c, n_clients);
            if c + 1 < n_clients {
                schedule.client = c + 1;
            } else {
                schedule.phase = Phase::StepPeer;
                schedule.client = 0;
            }
            RunAction::Publish { from: c, to }
        },
        Phase::StepPeer => {
            let c = schedule.client;
            proof {
                lemma_tick_in_run(tc, (t0 - 1) as nat, n, r, 1 + 3 * n + c);
            }
            if c + 1 < n_clients {
                schedule.client = c + 1;
            } else {
                schedule.end_clients();
            }
            RunAction::StepPeerTrackAndRecord { client: c }
        },
        Phase::RecordReplay => {
            proof {
                lemma_tick_in_run(tc, (t0 - 1) as nat, n, r, (1 + 4 * n) as int);
            }
            schedule.end_tick();
            RunAction::RecordReplay
        },
        Phase::Flush => {
            schedule.phase = Phase::Finished;
            RunAction::Flush
        },
        Phase::Finished => RunAction::Finished,
    }
}

} // verus!
