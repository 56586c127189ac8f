//! Seeded random draws from the `ChaCha8` generator.

use rand::{Rng, RngCore, SeedableRng};
use rand_chacha::ChaCha8Rng;
use vstd::prelude::*;

verus! {

/// The generator of the `rand_chacha` crate.
#[verifier::external_type_specification]
#[verifier::external_body]
pub struct ExChaCha8Rng(ChaCha8Rng);

/// What a generator was asked for: a whole 32-bit word, an `i32` or a `usize`
/// from `lo` up to, not with, `hi`.
pub enum Draw {
    Word,
    Signed { lo: i32, hi: i32 },
    Index { hi: usize },
}

/// The seed a generator started from and the draws made since.
pub uninterp spec fn rng_past(rng: ChaCha8Rng) -> (u64, Seq<Draw>);

/// What the generator gives for `draw` after the draws `past`, on a machine with
/// `bits` bits to the word.
pub uninterp spec fn chacha8_value(bits: u32, seed: u64, past: Seq<Draw>, draw: Draw) -> int;

/// The value of the next draw after `past`.
pub open spec fn drawn(seed: u64, past: Seq<Draw>, draw: Draw) -> int {
    chacha8_value(usize::BITS, seed, past, draw)
}

/// `SeedableRng::seed_from_u64`: a generator from which nothing was drawn yet.
#[verifier::external_body]
pub(crate) fn rng_seeded(seed: u64) -> (r: ChaCha8Rng)
    ensures
        rng_past(r).0 == seed,
        rng_past(r).1.len() == 0,
{
    ChaCha8Rng::seed_from_u64(seed)
}

/// `Rng::gen_range` over `lo..hi`: a number of the range, fixed by the seed and
/// the draws before.
#[verifier::external_body]
pub(crate) fn rng_range(rng: &mut ChaCha8Rng, lo: i32, hi: i32) -> (r: i32)
    requires
        lo < hi,
    ensures
        lo <= r < hi,
        r == chacha8_value(
            usize::BITS,
            rng_past(*old(rng)).0,
            rng_past(*old(rng)).1,
            Draw::Signed { lo, hi },
        ),
        rng_past(*final(rng)).0 == rng_past(*old(rng)).0,
        rng_past(*final(rng)).1 == rng_past(*old(rng)).1.push(Draw::Signed { lo, hi }),
{
    rng.gen_range(lo..hi)
}

/// `Rng::gen_range` over `0..hi` for an index: a number below `hi`, fixed by the
/// seed, the draws before and the width of the machine word.
#[verifier::external_body]
pub(crate) fn rng_index(rng: &mut ChaCha8Rng, hi: usize) -> (r: usize)
    requires
        0 < hi,
    ensures
        r < hi,
        r == chacha8_value(
            usize::BITS,
            rng_past(*old(rng)).0,
            rng_past(*old(rng)).1,
            Draw::Index { hi },
        ),
        rng_past(*final(rng)).0 == rng_past(*old(rng)).0,
        rng_past(*final(rng)).1 == rng_past(*old(rng)).1.push(Draw::Index { hi }),
{
    rng.gen_range(0..hi)
}

/// `RngCore::next_u32`: the next word, fixed by the seed and the draws before.
#[verifier::external_body]
pub(crate) fn rng_word(rng: &mut ChaCha8Rng) -> (r: u32)
    ensures
        r == chacha8_value(
            usize::BITS,
            rng_past(*old(rng)).0,
            rng_past(*old(rng)).1,
            Draw::Word,
        ),
        rng_past(*final(rng)).0 == rng_past(*old(rng)).0,
        rng_past(*final(rng)).1 == rng_past(*old(rng)).1.push(Draw::Word),
{
    rng.next_u32()
}

/// A uniform draw from `[0, 1)` in steps of one part in 2^24: the top 24 bits of
/// a word.
pub open spec fn fraction_of(word: int) -> int {
    word / 256
}

/// One uniform draw from `[0, 1)`, counted in parts of 2^24.
pub(crate) fn rng_fraction(rng: &mut ChaCha8Rng) -> (r: u32)
    ensures
        r == fraction_of(drawn(rng_past(*old(rng)).0, rng_past(*old(rng)).1, Draw::Word)),
        r < 0x100_0000,
        rng_past(*final(rng)).0 == rng_past(*old(rng)).0,
        rng_past(*final(rng)).1 == rng_past(*old(rng)).1.push(Draw::Word),
{
    rng_word(rng) / 256
}

} // verus!
