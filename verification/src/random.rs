//! The seeded pseudo-random generator that each network link owns, and the
//! calls into `rand` that the verified code makes on it.

use rand::rngs::StdRng;
use rand::Rng;
use rand::SeedableRng;
use vstd::prelude::*;

verus! {

/// `rand::rngs::StdRng`, carried through verified code as an opaque value.
#[verifier::external_type_specification]
#[verifier::external_body]
pub struct ExStdRng(StdRng);

/// The generator that `<StdRng as SeedableRng>::seed_from_u64` builds from
/// `seed`. rand builds it deterministically (PCG32 expands the seed, then
/// `from_seed` keys the generator), so the same seed gives the same
/// generator.
pub uninterp spec fn seeded_generator(seed: u64) -> StdRng;

/// The value that `Rng::gen_range(low..=high)` on an `i64` range draws from
/// generator state `g`: a deterministic function of the state and the range.
pub uninterp spec fn drawn_in_range(g: StdRng, low: i64, high: i64) -> i64;

/// The generator state after `Rng::gen_range(low..=high)` on an `i64` range
/// has drawn from state `g`.
pub uninterp spec fn after_draw(g: StdRng, low: i64, high: i64) -> StdRng;

/// Calls `<StdRng as SeedableRng>::seed_from_u64`, which never fails; the
/// generator it returns is the one `seeded_generator` names for `seed`.
#[verifier::external_body]
pub(crate) fn seeded_rng(seed: u64) -> (r: StdRng)
    ensures
        r == seeded_generator(seed),
{
    StdRng::seed_from_u64(seed)
}

/// Calls `Rng::gen_range(low..=high)` on an `i64` range. `rand` samples
/// uniformly from the inclusive range and panics when it is empty, so
/// `low <= high` is required and the result lies in `[low, high]`. The value
/// drawn and the state left behind are functions of the generator's state
/// and the range, named by `drawn_in_range` and `after_draw`.
#[verifier::external_body]
pub(crate) fn gen_range_inclusive(rng: &mut StdRng, low: i64, high: i64) -> (r: i64)
    requires
        low <= high,
    ensures
        low <= r <= high,
        r == drawn_in_range(*old(rng), low, high),
        *final(rng) == after_draw(*old(rng), low, high),
{
    rng.gen_range(low..=high)
}

} // verus!
