//! The injected random source that drives generation.
//!
//! Every component takes an explicit handle rather than reading process-wide
//! state, so a run is reproducible by seeding the handle. The draws come from
//! the xorshift generator of the `rltk` crate; nothing is assumed of a drawn
//! value beyond its range.

use vstd::prelude::*;

verus! {

/// Declares rltk's random number generator so it can stand in fields.
#[verifier::external_type_specification]
#[verifier::external_body]
pub struct ExRandomNumberGenerator(rltk::RandomNumberGenerator);

/// Relies on rltk::RandomNumberGenerator::seeded: builds a generator whose
/// stream is a function of the seed alone.
#[verifier::external_body]
fn rltk_rng_seeded(seed: u64) -> rltk::RandomNumberGenerator {
    rltk::RandomNumberGenerator::seeded(seed)
}

/// Relies on rltk::RandomNumberGenerator::range: returns a value at least
/// `lo` and strictly below `hi`; panics when the range is empty, which the
/// precondition rules out.
#[verifier::external_body]
fn rltk_rng_range(rng: &mut rltk::RandomNumberGenerator, lo: i32, hi: i32) -> (r: i32)
    requires
        lo < hi,
    ensures
        lo <= r < hi,
{
    rng.range(lo, hi)
}

/// A seedable random source handed into each generation component.
pub struct RandomSource {
    inner: rltk::RandomNumberGenerator,
}

impl RandomSource {
    /// A source whose draw sequence depends on the seed alone.
    pub fn seeded(seed: u64) -> RandomSource {
        RandomSource { inner: rltk_rng_seeded(seed) }
    }

    /// Draws a value in `lo..hi` (inclusive of `lo`, exclusive of `hi`).
    pub fn range(&mut self, lo: i32, hi: i32) -> (r: i32)
        requires
            lo < hi,
        ensures
            lo <= r < hi,
    {
        rltk_rng_range(&mut self.inner, lo, hi)
    }
}

} // verus!
