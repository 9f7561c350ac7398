use rand::rngs::ThreadRng;
use rand::Rng;
use vstd::prelude::*;

verus! {

/// The thread-local random generator of `rand`, carried through the maze
/// generator and the loot rolls as an opaque value.
#[verifier::external_type_specification]
#[verifier::external_body]
pub struct ExThreadRng(ThreadRng);

/// Calls `rand::Rng::gen_range(0..n)`. The crate asserts that the range is
/// not empty and returns a value of the half-open range; which one depends
/// on the generator's state, so nothing more is stated.
#[verifier::external_body]
fn random_below(rng: &mut ThreadRng, n: usize) -> (r: usize)
    requires
        n > 0,
    ensures
        r < n,
{
    rng.gen_range(0..n)
}

/// Calls `rand::Rng::gen_ratio(numerator, denominator)`, which is `true`
/// with probability `numerator / denominator`. The crate panics unless
/// `0 < denominator` and `numerator <= denominator`, and documents that a
/// zero numerator always gives `false` and a numerator equal to the
/// denominator always gives `true`. Any other outcome depends on the
/// generator's state and is left unsaid.
#[verifier::external_body]
fn random_ratio(rng: &mut ThreadRng, numerator: u32, denominator: u32) -> (r: bool)
    requires
        0 < denominator,
        numerator <= denominator,
    ensures
        numerator == 0 ==> !r,
        numerator == denominator ==> r,
{
    rng.gen_ratio(numerator, denominator)
}

/// One draw made on a `Dice`: a uniform pick `pick` below `bound`, or a
/// yes/no draw asked to come out yes with probability
/// `numerator / denominator`, and how it came out.
pub enum Draw {
    Below { bound: usize, pick: usize },
    Ratio { numerator: u32, denominator: u32, yes: bool },
}

/// A random source that keeps, for its proofs, the list of the draws made
/// on it so far.
pub struct Dice {
    rng: ThreadRng,
    made: Ghost<Seq<Draw>>,
}

impl Dice {
    /// The draws made so far, oldest first.
    pub closed spec fn history(&self) -> Seq<Draw> {
        self.made@
    }

    /// A source drawing from `rng`, with no draws made yet.
    pub fn new(rng: ThreadRng) -> (d: Dice)
        ensures
            d.history() == Seq::<Draw>::empty(),
    {
        Dice { rng, made: Ghost(Seq::empty()) }
    }

    /// A uniform pick below `bound`.
    pub fn below(&mut self, bound: usize) -> (pick: usize)
        requires
            bound > 0,
        ensures
            pick < bound,
            final(self).history() == old(self).history().push(Draw::Below { bound, pick }),
    {
        let pick = random_below(&mut self.rng, bound);
        self.made = Ghost(self.made@.push(Draw::Below { bound, pick }));
        pick
    }

    /// A draw that is yes with probability `numerator / denominator`.
    pub fn ratio(&mut self, numerator: u32, denominator: u32) -> (yes: bool)
        requires
            0 < denominator,
            numerator <= denominator,
        ensures
            numerator == 0 ==> !yes,
            numerator == denominator ==> yes,
            final(self).history() == old(self).history().push(Draw::Ratio { numerator, denominator, yes }),
    {
        let yes = random_ratio(&mut self.rng, numerator, denominator);
        self.made = Ghost(self.made@.push(Draw::Ratio { numerator, denominator, yes }));
        yes
    }
}

} // verus!
