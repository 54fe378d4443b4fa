use vstd::prelude::*;
use rand::Rng;
use rand::SeedableRng;
use rand_pcg::Lcg128Xsl64;
use crate::weather::TreeKind;

verus! {

/// `rand_pcg::Lcg128Xsl64`, that is `rand_pcg::Pcg64`, as an opaque type:
/// nothing of its state is visible here.
#[verifier::external_type_specification]
#[verifier::external_body]
pub struct ExLcg128Xsl64(Lcg128Xsl64);

/// The seed of the landscape's random number generator; the same seed draws
/// the same landscape each time.
pub const RNG_SEED: u64 = 42;

/// The generator that `rand_pcg::Pcg64::seed_from_u64` makes from `seed`.
pub uninterp spec fn pcg64_from_seed(seed: u64) -> Lcg128Xsl64;

/// Calls `rand_core::SeedableRng::seed_from_u64` on `rand_pcg::Pcg64`
/// (`Lcg128Xsl64`). The claim: the generator depends on the seed alone (the
/// function expands the seed with a fixed PCG32 stream and reads no other
/// state), so it is named by `pcg64_from_seed`.
#[verifier::external_body]
fn pcg64_seeded(seed: u64) -> (rng: Lcg128Xsl64)
    ensures
        rng == pcg64_from_seed(seed),
{
    Lcg128Xsl64::seed_from_u64(seed)
}

/// Calls `rand::Rng::gen_range(0..n)` on `rand_pcg::Pcg64`. The claim: the
/// result lies in `0..n`; `n > 0` is required because the call panics on an
/// empty range. Which index comes out, and the generator's new state, are
/// left unsaid: they depend on the generator's state, which is opaque here.
#[verifier::external_body]
fn random_below(rng: &mut Lcg128Xsl64, n: usize) -> (r: usize)
    requires
        n > 0,
    ensures
        r < n,
{
    rng.gen_range(0..n)
}

/// The canvas the landscape is drawn on and the generator of its random
/// details.
pub struct Landscape {
    pub width: u32,
    pub height: u32,
    pub rng: Lcg128Xsl64,
}

impl Landscape {
    /// A landscape for a canvas `width` by `height` pixels, with its
    /// generator seeded by `RNG_SEED`.
    pub fn new(width: u32, height: u32) -> (landscape: Landscape)
        ensures
            landscape.width == width,
            landscape.height == height,
            landscape.rng == pcg64_from_seed(RNG_SEED),
    {
        Landscape { width, height, rng: pcg64_seeded(RNG_SEED) }
    }

    /// Picks one tree of `pool` at random, drawing from the generator.
    pub fn pick_tree(&mut self, pool: &Vec<TreeKind>) -> (tree: TreeKind)
        requires
            pool.len() > 0,
        ensures
            exists|i: int| 0 <= i < pool.len() && pool@[i] == tree,
            final(self).width == old(self).width,
            final(self).height == old(self).height,
    {
        let i = random_below(&mut self.rng, pool.len());
        pool[i]
    }
}

} // verus!
