//! The pseudo-random generator that supplies the draws.
//!
//! The generator is `rand_pcg::Mcg128Xsl64`.  Its state is hidden from the
//! verifier, which therefore knows of a drawn value only what is stated
//! here, and treats every draw as arbitrary within those bounds.

use rand::Rng;
use rand::SeedableRng;
use rand_pcg::Mcg128Xsl64;
use vstd::prelude::*;

verus! {

/// `rand_pcg::Mcg128Xsl64`, declared so that it can be passed around.
/// Nothing inside it is visible to the verifier.
#[verifier::external_type_specification]
#[verifier::external_body]
pub struct ExMcg128Xsl64(Mcg128Xsl64);

/// `rand::Error`, the error of `SeedableRng::from_rng`, declared so that
/// the result of that call can be named.
#[verifier::external_type_specification]
#[verifier::external_body]
pub struct ExRandError(rand::Error);

/// Draws a site index with `Rng::gen_range(0..sites)`.
///
/// Trusted: the index lies in the range.  An empty range makes `gen_range`
/// panic, so it is excluded.
#[verifier::external_body]
pub(crate) fn draw_site(rng: &mut Mcg128Xsl64, sites: usize) -> (site: usize)
    requires
        sites > 0,
    ensures
        site < sites,
{
    rng.gen_range(0..sites)
}

/// Draws a 64-bit word with `Rng::gen::<u64>()`.
///
/// Nothing is claimed of the word.
#[verifier::external_body]
pub(crate) fn draw_word(rng: &mut Mcg128Xsl64) -> (word: u64) {
    rng.gen::<u64>()
}

/// Seeds a new generator from `rng` with `SeedableRng::from_rng`.
///
/// Trusted: the call succeeds.  `from_rng` fails only if filling the seed
/// from `rng` fails, and `Mcg128Xsl64` fills bytes without ever failing.
#[verifier::external_body]
pub(crate) fn fork_generator(rng: &mut Mcg128Xsl64) -> (child: Result<Mcg128Xsl64, rand::Error>)
    ensures
        child is Ok,
{
    Mcg128Xsl64::from_rng(rng)
}

} // verus!
