//! The random number generator behind every resampling scheme.
//!
//! Sampling uses the Xoshiro256++ generator, seeded from a 64-bit integer.
//! The generator is a deterministic function of the words it holds, so what a
//! draw returns and what it leaves behind are named by functions of those
//! words; which numbers they are is left open.
use rand::{Rng, SeedableRng};
use rand_xoshiro::Xoshiro256PlusPlus;
use vstd::prelude::*;

verus! {

/// The generator type of `rand_xoshiro`, opaque here.
#[verifier::external_type_specification]
#[verifier::external_body]
pub struct ExXoshiro256PlusPlus(Xoshiro256PlusPlus);

/// The state words that a generator holds.
pub uninterp spec fn generator_words(rng: Xoshiro256PlusPlus) -> Seq<u64>;

/// State words of a generator fresh from `seed_from_u64`.
pub uninterp spec fn seeded_words(seed: u64) -> Seq<u64>;

/// Index that `gen_range(0..bound)` draws from a generator with the given
/// state words, and the words that it leaves, on a machine whose indices have
/// `width` bits.
pub uninterp spec fn index_draw(words: Seq<u64>, bound: usize, width: u32) -> (usize, Seq<u64>);

/// Outcome of `gen_ratio(1, 2)` on a generator with the given state words, and
/// the words that it leaves.
pub uninterp spec fn coin_draw(words: Seq<u64>) -> (bool, Seq<u64>);

/// `Xoshiro256PlusPlus::seed_from_u64`: the state words are a function of the
/// seed.
#[verifier::external_body]
pub(crate) fn seed_generator(seed: u64) -> (rng: Xoshiro256PlusPlus)
    ensures
        generator_words(rng) == seeded_words(seed),
{
    Xoshiro256PlusPlus::seed_from_u64(seed)
}

/// `Rng::gen_range` over `0..bound`: an index below `bound`, which like the
/// words left behind is a function of the words held before, of the bound and
/// of the width of an index.  An empty range is refused by that function.
#[verifier::external_body]
pub(crate) fn draw_index(rng: &mut Xoshiro256PlusPlus, bound: usize) -> (k: usize)
    requires
        bound > 0,
    ensures
        k < bound,
        (k, generator_words(*final(rng))) == index_draw(
            generator_words(*old(rng)),
            bound,
            usize::BITS,
        ),
{
    rng.gen_range(0..bound)
}

/// `Rng::gen_ratio` with one chance in two: a fair coin, which like the words
/// left behind is a function of the words held before.
#[verifier::external_body]
pub(crate) fn toss_coin(rng: &mut Xoshiro256PlusPlus) -> (heads: bool)
    ensures
        (heads, generator_words(*final(rng))) == coin_draw(generator_words(*old(rng))),
{
    rng.gen_ratio(1, 2)
}

/// The first `n` indices below `bound` that a generator draws, and the words
/// that they leave.
pub open spec fn index_draws(words: Seq<u64>, bound: usize, n: nat) -> (Seq<usize>, Seq<u64>)
    decreases n,
{
    if n == 0 {
        (Seq::empty(), words)
    } else {
        let (drawn, rest) = index_draws(words, bound, (n - 1) as nat);
        let (k, left) = index_draw(rest, bound, usize::BITS);
        (drawn.push(k), left)
    }
}

/// Draws `n` indices below `bound`.
pub(crate) fn draw_indices(rng: &mut Xoshiro256PlusPlus, bound: usize, n: usize) -> (r: Vec<usize>)
    requires
        n > 0 ==> bound > 0,
    ensures
        (r@, generator_words(*final(rng))) == index_draws(
            generator_words(*old(rng)),
            bound,
            n as nat,
        ),
        r@.len() == n,
        forall|k: int| 0 <= k < n ==> #[trigger] r@[k] < bound,
{
    let mut r: Vec<usize> = Vec::new();
    let mut i: usize = 0;
    while i < n
        invariant
            i <= n,
            n > 0 ==> bound > 0,
            r@.len() == i,
            (r@, generator_words(*rng)) == index_draws(
                generator_words(*old(rng)),
                bound,
                i as nat,
            ),
            forall|k: int| 0 <= k < i ==> #[trigger] r@[k] < bound,
        decreases n - i,
    {
        let k: usize = draw_index(rng, bound);
        r.push(k);
        i = i + 1;
    }
    r
}

/// Draws are made one by one: what more draws give begins with what fewer give,
/// and each is drawn from the words that the one before it left.
pub proof fn law_draws_are_made_one_by_one(words: Seq<u64>, bound: usize, n: nat)
    ensures
        index_draws(words, bound, 0) == (Seq::<usize>::empty(), words),
        index_draws(words, bound, n).0.len() == n,
        ({
            let (drawn, left) = index_draws(words, bound, n);
            let (more, rest) = index_draws(words, bound, n + 1);
            &&& more.take(n as int) == drawn
            &&& more.len() == n + 1
            &&& (more[n as int], rest) == index_draw(left, bound, usize::BITS)
        }),
    decreases n,
{
    if n > 0 {
        law_draws_are_made_one_by_one(words, bound, (n - 1) as nat);
    }
    let (drawn, left) = index_draws(words, bound, n);
    let (more, rest) = index_draws(words, bound, n + 1);
    assert(more.take(n as int) =~= drawn);
}

} // verus!
