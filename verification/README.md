# rusty_net_sim

A deterministic harness for tuning client-side prediction and rollback
reconciliation under controlled network conditions: one authoritative
server, several simulated clients, a seeded latency/jitter/loss model per
connection, and one JSON Lines metrics record per (tick, client).

## Layout

- `src/` is the verified library (Verus):
  - `shim.rs` — the per-connection delivery queue: jitter drawn from the
    link's own seeded generator, delay floored at zero, delivery in tick
    order (first sent, first delivered among equals), `poll` handing out
    exactly what is due.
  - `source.rs` — `ServerOnlySource` and `PeerPublishSource`, which keep the
    freshest update of each delivered batch.
  - `world.rs` — the world's tick counter and waypoint re-sample schedule.
  - `reconciler.rs` — reconciliation policy, pop threshold, bounded
    residual history.
  - `track.rs` — per-track carry-forward bookkeeping and peer-divergence
    gating.
  - `schedule.rs` — the order of work in a run, one action at a time
    (including the per-tick replay record when one is asked for), and the
    client ring.
  - `seeds.rs` — per-link seeds derived from the scenario seed.
  - `random.rs` — the calls into `rand`.
  - `config.rs` — configuration defaults.
- `app/` is the command-line program around it: scenario loading (TOML),
  floating-point kinematics and confidence math, the loss roll, and the
  metrics/replay writers.
- `tests/` exercises the library.

```sh
rusty_net_sim scenario.toml
```
