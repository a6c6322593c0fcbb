//! Seeds of the per-client links. Every link draws from its own seeded
//! generator, derived from the one scenario seed, so a whole run is
//! reproducible from that seed and no two links share generator state.

use vstd::prelude::*;

verus! {

/// Offset of the seed range used for peer links, away from server links.
pub const PEER_SEED_OFFSET: u64 = 1_000_000;

/// Arithmetic modulo 2^64, as `u64::wrapping_add` computes it.
pub open spec fn wrapped(x: int) -> int {
    x % 0x1_0000_0000_0000_0000
}

/// Seed of the server link of client `index`: the scenario seed plus
/// `index + 1`, wrapping.
pub fn server_link_seed(scenario_seed: u64, index: usize) -> (seed: u64)
    requires
        index < u64::MAX,
    ensures
        seed == wrapped(scenario_seed + index + 1),
{
    scenario_seed.wrapping_add(index as u64 + 1)
}

/// Seed of the peer link of client `index`: the scenario seed plus
/// `PEER_SEED_OFFSET + index`, wrapping.
pub fn peer_link_seed(scenario_seed: u64, index: usize) -> (seed: u64)
    requires
        PEER_SEED_OFFSET + index <= u64::MAX,
    ensures
        seed == wrapped(scenario_seed + PEER_SEED_OFFSET + index),
{
    scenario_seed.wrapping_add(PEER_SEED_OFFSET + index as u64)
}

/// Adding two different offsets below 2^64 to the same seed gives two
/// different results modulo 2^64.
proof fn lemma_wrapped_injective(s: int, a: int, b: int)
    requires
        0 <= s < 0x1_0000_0000_0000_0000,
        0 <= a < 0x1_0000_0000_0000_0000,
        0 <= b < 0x1_0000_0000_0000_0000,
        a != b,
    ensures
        wrapped(s + a) != wrapped(s + b),
{
}

/// With fewer than `PEER_SEED_OFFSET` clients, the links of a scenario all
/// have different seeds: no two server links, no two peer links, and no
/// server link and peer link share one, whatever the scenario seed.
pub proof fn lemma_link_seeds_distinct(scenario_seed: u64, i: int, j: int)
    requires
        0 <= i < PEER_SEED_OFFSET - 1,
        0 <= j < PEER_SEED_OFFSET - 1,
    ensures
        wrapped(scenario_seed + i + 1) != wrapped(scenario_seed + PEER_SEED_OFFSET + j),
        i != j ==> wrapped(scenario_seed + i + 1) != wrapped(scenario_seed + j + 1),
        i != j ==> wrapped(scenario_seed + PEER_SEED_OFFSET + i) != wrapped(
            scenario_seed + PEER_SEED_OFFSET + j,
        ),
{
    lemma_wrapped_injective(scenario_seed as int, i + 1, PEER_SEED_OFFSET + j);
    if i != j {
        lemma_wrapped_injective(scenario_seed as int, i + 1, j + 1);
        lemma_wrapped_injective(scenario_seed as int, PEER_SEED_OFFSET + i, PEER_SEED_OFFSET + j);
    }
}

} // verus!
