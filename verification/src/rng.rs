use vstd::prelude::*;

verus! {

#[verifier::external_type_specification]
#[verifier::external_body]
pub struct ExStdRng(rand::rngs::StdRng);

/// Relies on rand's SeedableRng::seed_from_u64 for StdRng: it derives a full
/// seed from the integer and constructs the generator without failing.
#[verifier::external_body]
fn std_rng_from_seed(seed: u64) -> rand::rngs::StdRng {
    <rand::rngs::StdRng as rand::SeedableRng>::seed_from_u64(seed)
}

/// Relies on rand's Rng::gen_range over `0..n`: for a nonempty range it
/// returns a member of the range. Nothing more is assumed of which member
/// comes back.
#[verifier::external_body]
fn std_rng_below(rng: &mut rand::rngs::StdRng, n: usize) -> (r: usize)
    requires
        n > 0,
    ensures
        r < n,
{
    rand::Rng::gen_range(rng, 0..n)
}

/// An owned pseudo-random index source over rand's standard generator.
pub struct RandomSource {
    rng: rand::rngs::StdRng,
}

impl RandomSource {
    /// A generator deterministically seeded from an integer.
    pub fn from_seed(seed: u64) -> RandomSource {
        RandomSource { rng: std_rng_from_seed(seed) }
    }

    /// A generator over a caller-provided engine, for callers that seed it
    /// from entropy.
    pub fn from_rng(rng: rand::rngs::StdRng) -> RandomSource {
        RandomSource { rng }
    }

    /// Some index below `n`; which one depends on the generator's state.
    pub fn index_below(&mut self, n: usize) -> (r: usize)
        requires
            n > 0,
        ensures
            r < n,
    {
        std_rng_below(&mut self.rng, n)
    }
}

} // verus!
