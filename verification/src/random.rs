//! The source of the random draws that place fuzzy and jittered events.
use rand::{Rng, SeedableRng, StdRng, ThreadRng};
use vstd::prelude::*;

verus! {

/// `rand::StdRng`, the generator that can be seeded. Nothing is known of
/// its state.
#[verifier::external_type_specification]
#[verifier::external_body]
pub struct ExStdRng(StdRng);

/// `rand::ThreadRng`, the handle of a thread's generator. Nothing is known
/// of its state.
#[verifier::external_type_specification]
#[verifier::external_body]
pub struct ExThreadRng(ThreadRng);

/// A generator of uniformly distributed numbers.
pub enum Generator {
    /// The generator of the calling thread, which the system has seeded.
    ThreadLocal(ThreadRng),
    /// A generator that repeats its draws whenever it starts from the same
    /// seed.
    Seeded(StdRng),
}

/// `rand::thread_rng`: the handle of the calling thread's generator, which
/// the system seeds when the thread first asks for it.
///
/// Trusted: nothing but that the call returns, as it does wherever the
/// system has entropy to offer.
pub assume_specification[ rand::thread_rng ]() -> (rng: ThreadRng)
;

/// Calls `SeedableRng::from_seed` of `rand::StdRng` with the words of `seed`.
///
/// Trusted: nothing but that the call returns.
#[verifier::external_body]
fn std_rng_from_seed(seed: &[usize]) -> (rng: StdRng) {
    StdRng::from_seed(seed)
}

/// Calls `Rng::gen_range` on the thread's generator with the range from zero
/// to `bound`.
///
/// Trusted: that the number drawn is in the range, its upper end excluded.
/// The range must not be empty.
#[verifier::external_body]
fn thread_gen_range(rng: &mut ThreadRng, bound: i64) -> (draw: i64)
    requires
        0 < bound,
    ensures
        0 <= draw < bound,
{
    rng.gen_range(0, bound)
}

/// Calls `Rng::gen_range` on a seeded generator with the range from zero to
/// `bound`.
///
/// Trusted: that the number drawn is in the range, its upper end excluded.
/// The range must not be empty.
#[verifier::external_body]
fn seeded_gen_range(rng: &mut StdRng, bound: i64) -> (draw: i64)
    requires
        0 < bound,
    ensures
        0 <= draw < bound,
{
    rng.gen_range(0, bound)
}

impl Generator {
    /// The generator of the calling thread. Of the handle that it holds
    /// nothing is known but that draws can be made from it.
    pub fn thread_local() -> (generator: Generator)
        ensures
            generator is ThreadLocal,
    {
        Generator::ThreadLocal(rand::thread_rng())
    }

    /// A generator whose draws are determined by `seed`. Which numbers a
    /// seed leads to depends on the width of the machine's words, so the
    /// state that the seed gives is not described any further.
    pub fn seeded(seed: &[usize]) -> (generator: Generator)
        ensures
            generator is Seeded,
    {
        Generator::Seeded(std_rng_from_seed(seed))
    }

    /// Draws a number from zero up to, but not including, `bound`. Which
    /// number comes out is up to the generator; what becomes of it is said
    /// by the functions that take the draw.
    pub fn draw(&mut self, bound: i64) -> (draw: i64)
        requires
            0 < bound,
        ensures
            0 <= draw < bound,
            *old(self) is ThreadLocal <==> *final(self) is ThreadLocal,
    {
        match self {
            Generator::ThreadLocal(rng) => thread_gen_range(rng, bound),
            Generator::Seeded(rng) => seeded_gen_range(rng, bound),
        }
    }
}

} // verus!
