use rand::prelude::IndexedRandom;
use rand::rngs::StdRng;
use rand::seq::SliceRandom;
use rand::Rng;
use rand_distr::{Distribution, Uniform};
use vstd::prelude::*;

verus! {

/// The random generator of `rand`. Nothing is claimed of its state.
#[verifier::external_type_specification]
#[verifier::external_body]
pub struct ExStdRng(rand::rngs::StdRng);

/// Why `rand_distr` refuses a range. Nothing is claimed of it.
#[verifier::external_type_specification]
#[verifier::external_body]
pub struct ExUniformError(rand_distr::uniform::Error);

/// Puts three numbers into random order with `SliceRandom::shuffle` of `rand`.
///
/// Claimed of it: the shuffled array holds the same numbers, each as often as before. Which order
/// comes out is left open.
#[verifier::external_body]
pub(crate) fn shuffled(list: [i32; 3], rng: &mut StdRng) -> (a: [i32; 3])
    ensures
        a@.to_multiset() == list@.to_multiset(),
{
    let mut a: [i32; 3] = list;
    a.shuffle(rng);
    a
}

/// Draws a number with `Rng::random_range` of `rand`.
///
/// Claimed of it: the number is at least zero and below the bound. The bound must be positive,
/// since an empty range panics.
#[verifier::external_body]
pub(crate) fn draw_below(bound: i32, rng: &mut StdRng) -> (x: i32)
    requires
        bound > 0,
    ensures
        0 <= x < bound,
{
    rng.random_range(0..bound)
}

/// Draws a truth value with `Rng::random_ratio` of `rand`.
///
/// Claimed of it: a ratio of zero gives no, a ratio of one gives yes. Any other outcome is left
/// open. A denominator of zero and a numerator above the denominator panic.
#[verifier::external_body]
pub(crate) fn draw_ratio(numerator: u32, denominator: u32, rng: &mut StdRng) -> (b: bool)
    requires
        0 < denominator,
        numerator <= denominator,
    ensures
        numerator == 0 ==> !b,
        numerator == denominator ==> b,
{
    rng.random_ratio(numerator, denominator)
}

/// Draws a number with `Uniform::new` and `Distribution::sample` of `rand_distr`.
///
/// Claimed of them: a range up to `total` is refused exactly if `total` is not positive, and a
/// number drawn from it is at least zero and below `total`.
#[verifier::external_body]
pub(crate) fn draw_uniform(total: i32, rng: &mut StdRng) -> (r: Result<i32, rand_distr::uniform::Error>)
    ensures
        r is Ok <==> total > 0,
        r matches Ok(x) ==> 0 <= x < total,
{
    let uniform = Uniform::new(0, total)?;
    Ok(uniform.sample(rng))
}

/// Picks an entry of a list with `IndexedRandom::choose` of `rand`.
///
/// Claimed of it: there is no entry exactly if the list is empty, and an entry that comes out is
/// in the list. Which one is left open.
#[verifier::external_body]
pub(crate) fn pick_one(list: &Vec<i32>, rng: &mut StdRng) -> (r: Option<i32>)
    ensures
        r is None <==> list@.len() == 0,
        r matches Some(x) ==> list@.contains(x),
{
    list.choose(rng).copied()
}

/// A stream of numbers that is fixed by its seed and by how many have been drawn.
///
/// Copies are independent: drawing from one does not affect another.
#[derive(Debug, Clone, Copy, PartialEq, Eq)]
pub struct SplitmixRng {
    seed: u64,
    counter: u64,
}

/// Scrambles a number.
pub open spec fn scramble(x: u64) -> u64 {
    let a = (x ^ (x >> 30)).wrapping_mul(0xBF58_476D_1CE4_E5B9);
    let b = (a ^ (a >> 27)).wrapping_mul(0x94D0_49BB_1331_11EB);
    b ^ (b >> 31)
}

/// The number at a position of the stream of a seed.
pub open spec fn stream_value(seed: u64, position: u64) -> u64 {
    scramble(seed.wrapping_add(position.wrapping_mul(0x9E37_79B9_7F4A_7C15)))
}

impl SplitmixRng {
    /// The seed.
    pub closed spec fn origin(&self) -> u64 {
        self.seed
    }

    /// How many numbers have been drawn.
    pub closed spec fn drawn(&self) -> u64 {
        self.counter
    }

    /// The stream of a seed, from its start.
    pub fn new(seed: u64) -> (r: SplitmixRng)
        ensures
            r.origin() == seed,
            r.drawn() == 0,
    {
        SplitmixRng { seed, counter: 0 }
    }

    /// How many numbers have been drawn.
    pub fn counter(&self) -> (n: u64)
        ensures
            n == self.drawn(),
    {
        self.counter
    }

    /// The next number of the stream.
    pub fn next_u64(&mut self) -> (x: u64)
        ensures
            final(self).origin() == old(self).origin(),
            final(self).drawn() == old(self).drawn().wrapping_add(1),
            x == stream_value(old(self).origin(), final(self).drawn()),
    {
        self.counter = self.counter.wrapping_add(1);
        let x: u64 = self.seed.wrapping_add(self.counter.wrapping_mul(0x9E37_79B9_7F4A_7C15));
        let a: u64 = (x ^ (x >> 30)).wrapping_mul(0xBF58_476D_1CE4_E5B9);
        let b: u64 = (a ^ (a >> 27)).wrapping_mul(0x94D0_49BB_1331_11EB);
        b ^ (b >> 31)
    }
}

} // verus!
