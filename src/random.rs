//! The library's calls into `rand`.
use rand::{Rng, SeedableRng};
use vstd::prelude::*;

verus! {

#[verifier::external_type_specification]
#[verifier::external_body]
pub struct ExThreadRng(rand::rngs::ThreadRng);

/// The value out of 0..=100 that a `StdRng` seeded from `seed` draws first.
pub uninterp spec fn percent_draw_of(seed: u64) -> i32;

/// Relies on rand's `StdRng::seed_from_u64`, a fixed expansion of the seed
/// into a deterministic generator, and on `Rng::gen_range` over the
/// inclusive range `0..=100`: a value in that range, fixed by the seed.
#[verifier::external_body]
pub(crate) fn seeded_percent(seed: u64) -> (r: i32)
    ensures
        0 <= r <= 100,
        r == percent_draw_of(seed),
{
    rand::rngs::StdRng::seed_from_u64(seed).gen_range(0..=100)
}

/// Relies on rand's `thread_rng`: the thread-local generator.
#[verifier::external_body]
pub(crate) fn thread_rng() -> rand::rngs::ThreadRng {
    rand::thread_rng()
}

/// Relies on rand's `Rng::gen_range` over the half-open range `0..n`, which
/// is not empty: a value in that range.
#[verifier::external_body]
pub(crate) fn pick_below(rng: &mut rand::rngs::ThreadRng, n: usize) -> (r: usize)
    requires
        n > 0,
    ensures
        r < n,
{
    rng.gen_range(0..n)
}

} // verus!
