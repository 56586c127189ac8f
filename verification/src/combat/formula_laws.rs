//! How the formulas of combat grow: more of what helps never makes a blow weaker.

use crate::combat::fighters::share_of;
use crate::combat::math::{
    aimed_factor, bow_damage, bow_share, ember_damage, ember_rank, grown, melee_damage, mend_heal, mitigated,
    rider_of, spell_rank, strike_factor, ward_absorb, weapon_rank,
};
use crate::combat::number::{
    diff_of, law_rounding_is_close, law_rounding_keeps_order, law_sums_grow, law_sums_keep_side,
    rounded, times_of, ONE,
};
use crate::combat::product::{product, whole_small};
use crate::rounding::{law_grains_stay, law_ratios_stay_close, lemma_ratio, ratio_to, DOUBLE};
use vstd::arithmetic::power2::{lemma2_to64, lemma2_to64_rest, lemma_pow2_adds, lemma_pow2_pos, pow2};
use vstd::prelude::*;

verus! {

proof fn lemma_products_grow(a: int, b: int, c: int, d: int)
    requires
        0 <= a <= c,
        0 <= b <= d,
    ensures
        0 <= product(a, b) <= product(c, d),
{
    assert(0 <= a * b <= c * d) by (nonlinear_arith)
        requires
            0 <= a <= c,
            0 <= b <= d,
    ;
    law_rounding_is_close(a * b);
    law_rounding_keeps_order(a * b, c * d);
}

proof fn lemma_wholes_grow(n: int, m: int, bits: nat)
    requires
        0 <= n <= m,
    ensures
        0 <= whole_small(n, bits) <= whole_small(m, bits),
{
    lemma_pow2_pos(bits);
    vstd::arithmetic::div_mod::lemma_div_is_ordered(n, m, pow2(bits) as int);
    vstd::arithmetic::div_mod::lemma_div_pos_is_pos(n, pow2(bits) as int);
}

proof fn lemma_times_grow(per: i128, n: int, m: int)
    requires
        0 <= per <= ONE,
        0 <= n <= m <= i32::MAX,
    ensures
        0 <= times_of(per, n) <= times_of(per, m) <= 2 * ONE * i32::MAX,
{
    assert(0 <= per * n <= per * m <= 1_152_921_504_606_846_976 * 2147483647) by (nonlinear_arith)
        requires
            0 <= per <= 1_152_921_504_606_846_976,
            0 <= n <= m <= 2147483647,
    ;
    law_rounding_is_close(per * n);
    law_rounding_is_close(per * m);
    law_rounding_keeps_order(per * n, per * m);
}

proof fn lemma_grown(base: i128, whole: int, per: i128, n: int, m: int)
    requires
        base == whole * ONE,
        0 <= whole <= 100,
        0 <= per <= ONE,
        0 <= n <= m <= i32::MAX,
    ensures
        base <= grown(base, per, n) <= grown(base, per, m),
{
    lemma_times_grow(per, n, m);
    lemma2_to64();
    lemma2_to64_rest();
    law_grains_stay(whole, 60, DOUBLE as int);
    law_sums_grow(base as int, times_of(per, n) as int, times_of(per, m) as int);
    law_sums_keep_side(base, times_of(per, n));
}

proof fn lemma_riders_grow(n: int, m: int)
    requires
        0 <= n <= m <= i32::MAX,
    ensures
        ONE <= rider_of(n) <= rider_of(m),
{
    lemma_grown(ONE, 1, 4_611_686_018_427_388, n, m);
}

/// A share of a whole number is that share of it, but for what lies below a whole.
pub proof fn law_shares_are_close(share: i128, n: int)
    requires
        0 <= share < 2 * ONE,
        0 <= n <= 1_000_000_000,
    ensures
        share * n - 256 * n - ONE < ONE * share_of(share, n) <= share * n + 256 * n,
{
    assert(0 <= share * n <= 2 * 1_152_921_504_606_846_976 * n) by (nonlinear_arith)
        requires
            0 <= share < 2 * 1_152_921_504_606_846_976,
            0 <= n,
    ;
    let x = share * n;
    law_rounding_is_close(x);
    assert(x <= 2_305_843_009_213_693_952 * 1_000_000_000);
    let t = times_of(share, n) as int;
    assert(t == rounded(x));
    assert(0x20_0000_0000_0000 * (t - x) <= 2_305_843_009_213_693_952 * n);
    assert(0x20_0000_0000_0000 * (x - t) <= 2_305_843_009_213_693_952 * n);
    vstd::arithmetic::div_mod::lemma_fundamental_div_mod(t, ONE as int);
    vstd::arithmetic::div_mod::lemma_div_pos_is_pos(t, ONE as int);
}

/// A stronger, more skilled, higher ranked or armed fighter never hits more weakly in melee.
pub proof fn law_melee_grows(
    might: int,
    skill: int,
    rank: int,
    strike: bool,
    more_might: int,
    more_skill: int,
    more_rank: int,
    more_strike: bool,
)
    requires
        0 <= might <= more_might <= i32::MAX,
        0 <= skill <= more_skill <= i32::MAX,
        rank <= more_rank,
        strike ==> more_strike,
    ensures
        0 <= melee_damage(might, skill, rank, strike) <= melee_damage(
            more_might,
            more_skill,
            more_rank,
            more_strike,
        ),
{
    lemma_grown(9_223_372_036_854_775_808, 8, 461_168_601_842_738_816, might, more_might);
    lemma_riders_grow(skill, more_skill);
    let (a, c) = (
        grown(9_223_372_036_854_775_808, 461_168_601_842_738_816, might) as int,
        grown(9_223_372_036_854_775_808, 461_168_601_842_738_816, more_might) as int,
    );
    let (b, d) = (rider_of(skill) as int, rider_of(more_skill) as int);
    lemma_products_grow(a, b, c, d);
    let (s, t) = (strike_factor(strike) as int, strike_factor(more_strike) as int);
    lemma_products_grow(product(a, b), s, product(c, d), t);
    let (v, w) = (weapon_rank(rank) as int, weapon_rank(more_rank) as int);
    lemma_products_grow(product(product(a, b), s), v, product(product(c, d), t), w);
    lemma_wholes_grow(
        product(product(product(a, b), s), v),
        product(product(product(c, d), t), w),
        240,
    );
}

proof fn lemma_shares_fall(near: i128, far: i128)
    requires
        near <= far,
    ensures
        0 <= bow_share(far) <= bow_share(near),
{
    let top = DOUBLE as int;
    lemma2_to64();
    lemma2_to64_rest();
    lemma_pow2_adds(60, 60);
    let (b, e) = (23_058_430_092_136_939_520i128, 40_352_252_661_239_644_160i128);
    law_sums_grow(e as int, near as int, far as int);
    if near > b && far < e {
        let (x, y) = (diff_of(e, near), diff_of(e, far));
        law_rounding_is_close(e - far);
        assert(0 <= y * ONE <= x * ONE);
        lemma_ratio(y * ONE, 15, top);
        lemma_ratios_grow(y * ONE, x * ONE, 15);
    } else if far > b && far < e {
        let y = diff_of(e, far);
        law_rounding_is_close(e - far);
        lemma_ratio(y * ONE, 15, top);
        law_grains_stay(15, 60, top);
        law_rounding_keeps_order(e - far, 15 * ONE as int);
        assert(y * ONE <= 15 * ONE * ONE);
        lemma_ratios_grow(y * ONE, 15 * (ONE * ONE), 15);
        lemma_exact_ratio(ONE * ONE, 15);
    } else if near > b && near < e {
        law_rounding_is_close(e - near);
        lemma_ratio(diff_of(e, near) * ONE, 15, top);
    }
}

/// A ratio that comes out even, and has the bits for it, is not rounded.
proof fn lemma_exact_ratio(q: int, d: int)
    requires
        q == ONE * ONE,
        d == 15,
    ensures
        ratio_to(q * d, d, DOUBLE as int) == q,
{
    let top = DOUBLE as int;
    reveal(ratio_to);
    vstd::arithmetic::div_mod::lemma_div_by_multiple(q, d);
    let u = crate::rounding::grain_of(q, top);
    let j = crate::rounding::lemma_grain_of(q, top);
    lemma2_to64();
    lemma2_to64_rest();
    lemma_pow2_adds(60, 60);
    assert(q == pow2(120));
    if j > 120 {
        vstd::arithmetic::power2::lemma_pow2_strictly_increases(120, j);
        assert(false);
    }
    lemma_pow2_adds(j, (120 - j) as nat);
    let v = pow2((120 - j) as nat) as int;
    assert(q * d == v * (d * u)) by (nonlinear_arith)
        requires
            q == u * v,
    ;
    assert(d * u > 0);
    vstd::arithmetic::div_mod::lemma_mod_multiples_basic(v, d * u);
    crate::rounding::lemma_in_grains(q * d, d * u);
}

/// The ratio of a greater number is no lower.
proof fn lemma_ratios_grow(n: int, m: int, d: int)
    requires
        0 <= n <= m,
        d == 15,
    ensures
        ratio_to(n, d, DOUBLE as int) <= ratio_to(m, d, DOUBLE as int),
{
    crate::rounding::law_ratios_rise(n, m, d, DOUBLE as int);
}

/// A swifter, more skilled, higher ranked or steadier archer, or a nearer mark, never makes
/// an arrow weaker; up to 20 m the distance does not matter, and from 35 m on no arrow does
/// anything.
pub proof fn law_bow_grows(
    swift: int,
    skill: int,
    rank: int,
    aimed: bool,
    far: i128,
    more_swift: int,
    more_skill: int,
    more_rank: int,
    more_aimed: bool,
    near: i128,
)
    requires
        0 <= swift <= more_swift <= i32::MAX,
        0 <= skill <= more_skill <= i32::MAX,
        rank <= more_rank,
        aimed ==> more_aimed,
        near <= far,
    ensures
        0 <= bow_damage(swift, skill, rank, aimed, far) <= bow_damage(
            more_swift,
            more_skill,
            more_rank,
            more_aimed,
            near,
        ),
        far <= 20 * ONE ==> bow_damage(swift, skill, rank, aimed, far) == bow_damage(
            swift,
            skill,
            rank,
            aimed,
            0,
        ),
        far >= 35 * ONE ==> bow_damage(swift, skill, rank, aimed, far) == 0,
{
    lemma_grown(8_070_450_532_247_928_832, 7, 461_168_601_842_738_816, swift, more_swift);
    lemma_riders_grow(skill, more_skill);
    let (a, c) = (
        grown(8_070_450_532_247_928_832, 461_168_601_842_738_816, swift) as int,
        grown(8_070_450_532_247_928_832, 461_168_601_842_738_816, more_swift) as int,
    );
    let (b, d) = (rider_of(skill) as int, rider_of(more_skill) as int);
    lemma_products_grow(a, b, c, d);
    let (s, t) = (aimed_factor(aimed) as int, aimed_factor(more_aimed) as int);
    lemma_products_grow(product(a, b), s, product(c, d), t);
    let (v, w) = (weapon_rank(rank) as int, weapon_rank(more_rank) as int);
    lemma_products_grow(product(product(a, b), s), v, product(product(c, d), t), w);
    lemma_shares_fall(near, far);
    let (x, y) = (product(product(product(a, b), s), v), product(product(product(c, d), t), w));
    lemma_products_grow(x, bow_share(far), y, bow_share(near));
    lemma_wholes_grow(product(x, bow_share(far)), product(y, bow_share(near)), 360);
    if far >= 35 * ONE {
        assert(x * 0 == 0);
        law_rounding_is_close(0);
        lemma_pow2_pos(360);
        vstd::arithmetic::div_mod::lemma_div_of0(pow2(360) as int);
    }
}

/// A more willed, more skilled or higher ranked caster never burns less.
pub proof fn law_ember_grows(
    will: int,
    skill: int,
    arcane: int,
    more_will: int,
    more_skill: int,
    more_arcane: int,
)
    requires
        0 <= will <= more_will <= i32::MAX,
        0 <= skill <= more_skill <= i32::MAX,
        arcane <= more_arcane,
    ensures
        0 <= ember_damage(will, skill, arcane) <= ember_damage(more_will, more_skill, more_arcane),
{
    lemma_grown(16_140_901_064_495_857_664, 14, 576_460_752_303_423_488, will, more_will);
    lemma_riders_grow(skill, more_skill);
    let (a, c) = (
        grown(16_140_901_064_495_857_664, 576_460_752_303_423_488, will) as int,
        grown(16_140_901_064_495_857_664, 576_460_752_303_423_488, more_will) as int,
    );
    let (b, d) = (ember_rank(arcane) as int, ember_rank(more_arcane) as int);
    lemma_products_grow(a, b, c, d);
    let (s, t) = (spell_rank(arcane) as int, spell_rank(more_arcane) as int);
    lemma_products_grow(product(a, b), s, product(c, d), t);
    let (v, w) = (rider_of(skill) as int, rider_of(more_skill) as int);
    lemma_products_grow(product(product(a, b), s), v, product(product(c, d), t), w);
    lemma_wholes_grow(
        product(product(product(a, b), s), v),
        product(product(product(c, d), t), w),
        240,
    );
}

/// A more willed or higher ranked caster never heals or wards less; the least mend heals 25
/// points and the least ward takes 20.
pub proof fn law_mends_and_wards_grow(will: int, arcane: int, more_will: int, more_arcane: int)
    requires
        0 <= will <= more_will <= i32::MAX,
        arcane <= more_arcane,
    ensures
        25 <= mend_heal(will, arcane) <= mend_heal(more_will, more_arcane) <= i32::MAX,
        20 <= ward_absorb(will, arcane) <= ward_absorb(more_will, more_arcane) <= i32::MAX,
{
    lemma2_to64();
    lemma2_to64_rest();
    lemma_pow2_adds(60, 60);
    let (s, t) = (spell_rank(arcane) as int, spell_rank(more_arcane) as int);
    lemma_grown(28_823_037_615_171_174_400, 25, 461_168_601_842_738_816, will, more_will);
    let (a, c) = (
        grown(28_823_037_615_171_174_400, 461_168_601_842_738_816, will) as int,
        grown(28_823_037_615_171_174_400, 461_168_601_842_738_816, more_will) as int,
    );
    lemma_products_grow(25 * ONE as int, ONE as int, a, s);
    lemma_products_grow(a, s, c, t);
    law_grains_stay(25, 120, DOUBLE as int);
    assert(product(25 * ONE as int, ONE as int) == 25 * pow2(120));
    lemma_wholes_grow(25 * pow2(120) as int, product(a, s), 120);
    lemma_wholes_grow(product(a, s), product(c, t), 120);
    vstd::arithmetic::div_mod::lemma_div_by_multiple(25, pow2(120) as int);
    lemma_grown(23_058_430_092_136_939_520, 20, 345_876_451_382_054_080, will, more_will);
    let (x, y) = (
        grown(23_058_430_092_136_939_520, 345_876_451_382_054_080, will) as int,
        grown(23_058_430_092_136_939_520, 345_876_451_382_054_080, more_will) as int,
    );
    lemma_products_grow(20 * ONE as int, ONE as int, x, s);
    lemma_products_grow(x, s, y, t);
    law_grains_stay(20, 120, DOUBLE as int);
    assert(product(20 * ONE as int, ONE as int) == 20 * pow2(120));
    lemma_wholes_grow(20 * pow2(120) as int, product(x, s), 120);
    lemma_wholes_grow(product(x, s), product(y, t), 120);
    vstd::arithmetic::div_mod::lemma_div_by_multiple(20, pow2(120) as int);
}

/// Armor lets a hundred points through of a hundred and the armor: a hundred armor halves a
/// blow, no armor leaves it whole, and nothing is made of nothing.
pub proof fn law_armor_takes_its_share(incoming: int, armor: int)
    requires
        0 <= incoming <= i32::MAX,
        0 <= armor <= i32::MAX,
    ensures
        0 <= mitigated(incoming, armor) <= incoming,
        armor == 0 ==> mitigated(incoming, armor) == incoming,
        armor == 100 ==> incoming - 1 <= 2 * mitigated(incoming, armor) <= incoming,
        (100 + armor) * mitigated(incoming, armor) <= 100 * incoming,
        100 * incoming < (100 + armor) * mitigated(incoming, armor) + 100 + armor,
{
    let d = 100 + armor;
    let q = (incoming * 100) / d;
    vstd::arithmetic::div_mod::lemma_fundamental_div_mod(incoming * 100, d);
    vstd::arithmetic::div_mod::lemma_div_pos_is_pos(incoming * 100, d);
    assert(q <= incoming) by (nonlinear_arith)
        requires
            d * q <= 100 * incoming,
            d >= 100,
            q >= 0,
            incoming >= 0,
    ;
    if armor == 100 {
        assert(d * q == 200 * q);
    }
}

/// What ranks are worth: a tenth more with a weapon from rank five, fifteen hundredths more
/// with every spell from rank ten; with Ember fifteen hundredths from rank one and thirty from
/// rank ten. A strike is worth half as much again, an aimed shot eight tenths.
pub proof fn law_ranks_are_worth_their_share(rank: int)
    ensures
        rank < 5 ==> weapon_rank(rank) == ONE,
        rank >= 5 ==> -2000 <= 10 * weapon_rank(rank) - 11 * ONE <= 2000,
        rank < 10 ==> spell_rank(rank) == ONE,
        rank >= 10 ==> -20_000 <= 100 * spell_rank(rank) - 115 * ONE <= 20_000,
        rank < 1 ==> ember_rank(rank) == ONE,
        1 <= rank < 10 ==> -20_000 <= 100 * ember_rank(rank) - 115 * ONE <= 20_000,
        rank >= 10 ==> -2000 <= 10 * ember_rank(rank) - 13 * ONE <= 2000,
        strike_factor(false) == ONE,
        2 * strike_factor(true) == 3 * ONE,
        aimed_factor(false) == ONE,
        -2000 <= 10 * aimed_factor(true) - 18 * ONE <= 2000,
{
}

/// A skilled hand is worth four thousandths for each point of skill.
pub proof fn law_skill_is_worth_its_share(skill: int)
    requires
        0 <= skill <= 100_000,
    ensures
        (1000 + 4 * skill) * ONE - ONE <= 1000 * rider_of(skill) <= (1000 + 4 * skill) * ONE + ONE,
{
    let more = 4_611_686_018_427_388 * skill;
    law_rounding_is_close(more);
    law_rounding_is_close(ONE + rounded(more));
}

/// What is left of a bow hit falls evenly from twenty metres to thirty-five: at each distance
/// between, as much as the way still to go is of fifteen metres.
pub proof fn law_bow_hits_fall_evenly(distance: i128)
    ensures
        distance <= 20 * ONE ==> bow_share(distance) == ONE * ONE,
        distance >= 35 * ONE ==> bow_share(distance) == 0,
        20 * ONE < distance < 35 * ONE ==> {
            let off = 15 * bow_share(distance) - (35 * ONE - distance) * ONE;
            -0x10_0000 * ONE <= off <= 0x10_0000 * ONE
        },
{
    if 20 * ONE < distance < 35 * ONE {
        let left = 35 * ONE - distance;
        law_rounding_is_close(left);
        let n = diff_of((35 * ONE) as i128, distance) * ONE;
        law_ratios_stay_close(n, 15, DOUBLE as int);
        let r = ratio_to(n, 15, DOUBLE as int);
        assert(2 * DOUBLE * (15 * r - n) == 0x40_0000_0000_0000 * (15 * r - n));
        assert(2 * DOUBLE * (n - 15 * r) == 0x40_0000_0000_0000 * (n - 15 * r));
    }
}

} // verus!
