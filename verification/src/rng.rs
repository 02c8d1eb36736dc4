//! The virtual machine's random number source: a ChaCha stream cipher
//! generator, seeded by the host. The stream is a pure function of the
//! seed, so a draw's value is a function of the seed, the bounds of the
//! draws made before it, and its own bound — which is what makes
//! deterministic runs reproducible.

use vstd::prelude::*;

verus! {

#[verifier::external_type_specification]
#[verifier::external_body]
pub struct ExChaCha8Rng(rand_chacha::ChaCha8Rng);

/// The mathematical content of a seeded generator: its seed and the
/// bounds of the draws already made from it.
#[verifier::ext_equal]
pub struct RngModel {
    pub seed: u64,
    pub history: Seq<u32>,
}

/// The value of the next draw below `bound` from the ChaCha stream of
/// `seed` after the draws in `history`: a function of those three alone,
/// on every machine.
pub uninterp spec fn chacha_draw(seed: u64, history: Seq<u32>, bound: u32) -> u32;

/// A seeded random number generator whose draws are reproducible.
pub struct SeededRng {
    inner: rand_chacha::ChaCha8Rng,
    seed: u64,
    history: Ghost<Seq<u32>>,
}

impl View for SeededRng {
    type V = RngModel;

    closed spec fn view(&self) -> RngModel {
        RngModel { seed: self.seed, history: self.history@ }
    }
}

/// Relies on `rand_chacha::ChaCha8Rng::seed_from_u64`
/// (`rand_core::SeedableRng`): builds the generator whose output stream is
/// determined by the seed alone, reproducibly across runs, library
/// versions and architectures.
#[verifier::external_body]
fn chacha_from_seed(seed: u64) -> rand_chacha::ChaCha8Rng {
    <rand_chacha::ChaCha8Rng as rand::SeedableRng>::seed_from_u64(seed)
}

impl SeededRng {
    /// The generator whose draws are `chacha_draw` of `seed`.
    pub fn new(seed: u64) -> (r: SeededRng)
        ensures
            r@.seed == seed,
            r@.history == Seq::<u32>::empty(),
    {
        SeededRng { inner: chacha_from_seed(seed), seed, history: Ghost(Seq::empty()) }
    }

    /// Relies on `rand::Rng::gen_range` over a ChaCha generator: a value
    /// uniformly below `bound`. The sampling consumes the stream
    /// deterministically — how much, and what comes out, is a function of
    /// the stream and the bound, and the stream itself is a function of
    /// the seed and the draws already made — so the result is
    /// `chacha_draw` of the seed and the history of bounds. An empty
    /// range panics there, so a zero bound is excluded here.
    #[verifier::external_body]
    pub fn draw(&mut self, bound: u32) -> (r: u32)
        requires
            bound > 0,
        ensures
            r == chacha_draw(old(self)@.seed, old(self)@.history, bound),
            r < bound,
            final(self)@.seed == old(self)@.seed,
            final(self)@.history == old(self)@.history.push(bound),
    {
        rand::Rng::gen_range(&mut self.inner, 0..bound)
    }
}

impl Default for SeededRng {
    /// The generator most hosts start from: seed zero.
    fn default() -> (r: SeededRng)
        ensures
            r@.seed == 0,
            r@.history == Seq::<u32>::empty(),
    {
        SeededRng::new(0)
    }
}

} // verus!
