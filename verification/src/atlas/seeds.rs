//! Seeds and feature ids, hashed from text with the `fx` hasher.

use crate::text::{decimal, push_decimal};
use rustc_hash::FxHasher;
use std::hash::{Hash, Hasher};
use vstd::prelude::*;
use vstd::string::*;

verus! {

/// The hasher of the `rustc-hash` crate.
#[verifier::external_type_specification]
#[verifier::external_body]
pub struct ExFxHasher(FxHasher);

/// The one machine word that a hasher holds.
pub uninterp spec fn fx_word(h: FxHasher) -> usize;

/// The word after a string was hashed into a hasher holding `word`, on a
/// machine with `bits` bits to the word. A program runs on one machine; two
/// machines of the same width can still differ where only one of them multiplies
/// 64 bits by 64 bits at full width.
pub uninterp spec fn fx_str_word(bits: u32, word: usize, s: Seq<char>) -> usize;

/// The word after one integer was hashed: added, then multiplied, cut to the
/// machine's word.
pub open spec fn fx_mix(word: usize, x: usize) -> usize {
    if usize::BITS == 64 {
        ((word + x) * 0xf1357aea2e62a9c5 % 0x1_0000_0000_0000_0000) as usize
    } else {
        ((word + x) * 0x93d765dd % 0x1_0000_0000) as usize
    }
}

/// The finished hash of a word: its bits turned 26 places up, 15 on a machine
/// with 32 bits to the word.
pub open spec fn fx_finished(word: usize) -> u64 {
    if usize::BITS == 64 {
        (word * 0x400_0000 % 0x1_0000_0000_0000_0000 + word as int / 0x40_0000_0000) as u64
    } else {
        (word * 0x8000 % 0x1_0000_0000 + word as int / 0x2_0000) as u64
    }
}

/// `FxHasher::default`: a hasher that holds zero.
#[verifier::external_body]
fn fx_new() -> (r: FxHasher)
    ensures
        fx_word(r) == 0,
{
    FxHasher::default()
}

/// `Hash::hash` of an `i32` into the hasher, which takes the bits as an unsigned
/// number and mixes them in.
#[verifier::external_body]
fn fx_i32(h: &mut FxHasher, v: i32)
    ensures
        fx_word(*final(h)) == fx_mix(fx_word(*old(h)), (v as u32) as usize),
{
    v.hash(h);
}

/// `Hash::hash` of a `u8` into the hasher, which mixes the number in.
#[verifier::external_body]
fn fx_u8(h: &mut FxHasher, v: u8)
    ensures
        fx_word(*final(h)) == fx_mix(fx_word(*old(h)), v as usize),
{
    v.hash(h);
}

/// `Hash::hash` of a `str` into the hasher. What the bytes are compressed to is
/// not spelled out; it depends on the text, the word held and the build target.
#[verifier::external_body]
fn fx_str(h: &mut FxHasher, s: &str)
    ensures
        fx_word(*final(h)) == fx_str_word(usize::BITS, fx_word(*old(h)), s@),
{
    s.hash(h);
}

/// `Hasher::finish`: the word held, rotated.
#[verifier::external_body]
fn fx_finish(h: &FxHasher) -> (r: u64)
    ensures
        r == fx_finished(fx_word(*h)),
{
    h.finish()
}

/// The seed of the layer `name` of a world: the hash of the world seed, a colon
/// and the name, cut to 32 bits.
pub open spec fn layer_seed_of(world_seed: i32, name: Seq<char>) -> u32 {
    fx_finished(
        fx_str_word(
            usize::BITS,
            fx_mix(fx_mix(0, (world_seed as u32) as usize), 58),
            name,
        ),
    ) as u32
}

/// Deterministic layer seed from world seed + layer name.
pub fn layer_seed(world_seed: i32, name: &str) -> (r: u32)
    ensures
        r == layer_seed_of(world_seed, name@),
{
    let mut h: FxHasher = fx_new();
    fx_i32(&mut h, world_seed);
    fx_u8(&mut h, 58);
    fx_str(&mut h, name);
    fx_finish(&h) as u32
}

/// The word after the first `n` parts were hashed, each followed by a bar.
pub open spec fn parts_word(parts: Seq<Seq<char>>, n: nat) -> usize
    decreases n,
{
    if n == 0 {
        0
    } else {
        fx_mix(fx_str_word(usize::BITS, parts_word(parts, (n - 1) as nat), parts[n - 1]), 124)
    }
}

/// The feature id of seed material: the hash of the parts, cut to 31 bits.
pub open spec fn feature_hash_of(parts: Seq<Seq<char>>) -> i32 {
    (fx_finished(parts_word(parts, parts.len())) as i32) & 0x7fff_ffff
}

/// The characters of each part.
pub open spec fn part_views(parts: Seq<&str>) -> Seq<Seq<char>> {
    Seq::new(parts.len(), |i: int| parts[i]@)
}

/// Stable positive feature id from seed material.
pub fn feature_hash(parts: &[&str]) -> (r: i32)
    ensures
        r == feature_hash_of(part_views(parts@)),
        r >= 0,
{
    let ghost views = part_views(parts@);
    let mut h: FxHasher = fx_new();
    let mut i: usize = 0;
    while i < parts.len()
        invariant
            i <= parts@.len(),
            views == part_views(parts@),
            fx_word(h) == parts_word(views, i as nat),
        decreases parts@.len() - i,
    {
        let part: &str = parts[i];
        assert(views[i as int] == part@);
        fx_str(&mut h, part);
        fx_u8(&mut h, 124);
        i += 1;
    }
    let cut: i32 = fx_finish(&h) as i32;
    assert(cut & 0x7fff_ffff >= 0) by (bit_vector);
    cut & 0x7fff_ffff
}

/// `i` in decimal, as a new string.
pub fn decimal_text(i: i64) -> (r: String)
    ensures
        r@ == decimal(i as int),
{
    let mut out: String = String::new();
    push_decimal(&mut out, i);
    assert(out@ =~= decimal(i as int));
    out
}

} // verus!
