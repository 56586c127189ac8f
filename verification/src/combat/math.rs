//! Locked combat math: every step of a formula rounds as doubles do, and its end is cut
//! towards zero.
//!
//! Seconds, metres and shares are quantities in parts of 2^60, see
//! [`crate::combat::number`].

use crate::combat::number::{
    diff_of, law_rounding_is_close, lemma_sum_settles, minus, plus, round53, rounded, sum_of,
    times, times_of, units_of, ONE,
};
use crate::combat::product::{product, whole_small, Scaled};
use crate::rounding::{
    grain_of, law_grains_stay, law_ratios_fall, law_rounding_scales, lemma_grain_of,
    lemma_in_grains, lemma_ratio, ratio_to, round_ratio, DOUBLE,
};
use crate::text::str_eq;
use vstd::prelude::*;

verus! {

pub const TICK: i128 = 115_292_150_460_684_704;

pub const HARD_CAP_S: i128 = 207_525_870_829_232_455_680;

pub const WALK_MPS: i128 = 5_188_146_770_730_811_392;

pub const SPRINT_MPS: i128 = 8_070_450_532_247_928_832;

pub const MELEE_SWING_S: i128 = 2_075_258_708_292_324_608;

pub const MELEE_REACH_M: i128 = 3_228_180_212_899_171_328;

pub const MELEE_CONE_DEG: i128 = 138_350_580_552_821_637_120;

pub const BOW_DRAW_S: i128 = 1_383_505_805_528_216_320;

pub const BOW_FULL_M: i128 = 23_058_430_092_136_939_520;

pub const BOW_FALLOFF_END_M: i128 = 40_352_252_661_239_644_160;

pub const TAB_LOCK_M: i128 = 23_058_430_092_136_939_520;

pub const TAB_CONE_DEG: i128 = 103_762_935_414_616_227_840;

pub const SIGHT_AGGRO_M: i128 = 13_835_058_055_282_163_712;

pub const HEAR_AGGRO_M: i128 = 6_917_529_027_641_081_856;

pub const LEASH_M: i128 = 46_116_860_184_273_879_040;

pub const SOCIAL_M: i128 = 17_293_822_569_102_704_640;

pub const HP_L1: i32 = 100;

pub const HP_PER_LEVEL: i32 = 12;

pub const MANA_L1: i32 = 50;

pub const MANA_PER_LEVEL: i32 = 6;

pub const ATTR_BASE: i32 = 10;

pub const ATTR_PER_LEVEL: i32 = 2;

pub const DISC_PER_LEVEL: i32 = 1;

pub const SKILL_RIDER_PER: i128 = 4_611_686_018_427_388;

pub const SKILL_UP_COST_MULT: i32 = 8;

pub const SKILL_CAP_PER_LEVEL: i32 = 5;

pub const MELEE_BASE: i128 = 9_223_372_036_854_775_808;

pub const MELEE_MIGHT: i128 = 461_168_601_842_738_816;

pub const BOW_BASE: i128 = 8_070_450_532_247_928_832;

pub const BOW_SWIFT: i128 = 461_168_601_842_738_816;

pub const EMBER_BASE: i128 = 16_140_901_064_495_857_664;

pub const EMBER_WILL: i128 = 576_460_752_303_423_488;

pub const EMBER_MANA: i32 = 3;

pub const EMBER_CAST_S: i128 = 1_383_505_805_528_216_320;

pub const EMBER_CD_S: i128 = 0;

pub const EMBER_RANGE_M: i128 = 32_281_802_128_991_715_328;

pub const EMBER_RANK1: i128 = 1_325_859_730_297_873_920;

pub const EMBER_RANK10: i128 = 1_498_797_955_988_901_120;

pub const MEND_BASE: i128 = 28_823_037_615_171_174_400;

pub const MEND_WILL: i128 = 461_168_601_842_738_816;

pub const MEND_MANA: i32 = 20;

pub const MEND_CAST_S: i128 = 2_882_303_761_517_117_440;

pub const MEND_CD_S: i128 = 0;

pub const MEND_RANGE_M: i128 = 32_281_802_128_991_715_328;

pub const BIND_MANA: i32 = 16;

pub const BIND_CAST_S: i128 = 1_729_382_256_910_270_464;

pub const BIND_CD_S: i128 = 13_835_058_055_282_163_712;

pub const BIND_RANGE_M: i128 = 27_670_116_110_564_327_424;

pub const BIND_ROOT_S: i128 = 4_611_686_018_427_387_904;

pub const BIND_GRACE_S: i128 = 1_152_921_504_606_846_976;

pub const WARD_BASE: i128 = 23_058_430_092_136_939_520;

pub const WARD_WILL: i128 = 345_876_451_382_054_080;

pub const WARD_MANA: i32 = 18;

pub const WARD_GCD_S: i128 = 1_152_921_504_606_846_976;

pub const WARD_DUR_S: i128 = 9_223_372_036_854_775_808;

pub const WARD_CD_S: i128 = 18_446_744_073_709_551_616;

pub const STRIKE_MULT: i128 = 1_729_382_256_910_270_464;

pub const STRIKE_CD_S: i128 = 6_917_529_027_641_081_856;

pub const BASH_ANIM_S: i128 = 461_168_601_842_738_816;

pub const BASH_STUN_S: i128 = 1_729_382_256_910_270_464;

pub const BASH_CD_S: i128 = 9_223_372_036_854_775_808;

pub const AIMED_DRAW_S: i128 = 2_305_843_009_213_693_952;

pub const AIMED_MULT: i128 = 2_075_258_708_292_324_608;

pub const AIMED_CD_S: i128 = 11_529_215_046_068_469_760;

pub const PIN_SLOW_PCT: i128 = 461_168_601_842_738_816;

pub const PIN_DUR_S: i128 = 4_611_686_018_427_387_904;

pub const PIN_CD_S: i128 = 13_835_058_055_282_163_712;

pub const CLEAVE_PCT: i128 = 461_168_601_842_738_816;

pub const CLEAVE_RANGE_M: i128 = 2_536_427_310_135_063_552;

pub const MARK_MULT: i128 = 1_325_859_730_297_873_920;

pub const MARK_DUR_S: i128 = 13_835_058_055_282_163_712;

pub const MARK_CD_S: i128 = 23_058_430_092_136_939_520;

pub const SECOND_WIND_PCT: i128 = 230_584_300_921_369_408;

pub const POTION_HEAL: i32 = 40;

pub const POTION_CD_S: i128 = 69_175_290_276_410_818_560;

pub const START_ARROWS: i32 = 40;

pub const START_POTIONS: i32 = 1;

pub const MANA_REGEN_COMBAT_PER_S: i128 = 461_168_601_842_738_816;

pub const MANA_REGEN_OOC_PER_S: i128 = 2_305_843_009_213_693_952;

pub const MANA_REGEN_PER_S: i128 = 461_168_601_842_738_816;

pub const THREAT_DMG: i128 = 1_152_921_504_606_846_976;

pub const THREAT_HEAL: i128 = 576_460_752_303_423_488;

pub const SHAKEN_DMG: i128 = 1_037_629_354_146_162_304;

pub const SHAKEN_S: i128 = 345_876_451_382_054_092_800;

/// Visible slain beat before shrine teleport.
pub const SLAIN_HOLD_S: i128 = 2_305_843_009_213_693_952;

pub const RANK5_WEAPON: i128 = 1_268_213_655_067_531_776;

pub const RANK10_SPELL: i128 = 1_325_859_730_297_873_920;

pub const WOLF_HP_BASE: i32 = 70;

pub const WOLF_HP_PER: i32 = 18;

pub const WOLF_DMG_BASE: i32 = 10;

pub const WOLF_DMG_PER: i32 = 2;

pub const WOLF_SWING_S: i128 = 2_305_843_009_213_693_952;

pub const WOLF_REACH_M: i128 = 2_075_258_708_292_324_608;

pub const WOLF_SPEED: i128 = 5_995_191_823_955_604_480;

pub const WOLF_ARMOR: i32 = 8;

pub const WOLF_XP_BASE: i32 = 35;

pub const WOLF_XP_PER: i32 = 12;

pub const MOTHER_HP: i32 = 420;

pub const MOTHER_DMG: i32 = 12;

pub const MOTHER_SWING_S: i128 = 2_536_427_310_135_063_552;

pub const MOTHER_SLAM: i32 = 24;

pub const MOTHER_SLAM_EVERY_S: i128 = 9_223_372_036_854_775_808;

pub const MOTHER_TELE_S: i128 = 1_383_505_805_528_216_320;

pub const MOTHER_ARMOR: i32 = 14;

pub const MOTHER_XP: i32 = 280;

pub const MOTHER_TOKEN: i32 = 1;

pub const MOTHER_SPEED: i128 = 3_689_348_814_741_910_528;

pub const MOTHER_REACH_M: i128 = 2_536_427_310_135_063_552;

pub const MOTHER_ENRAGE_HP: i128 = 345_876_451_382_054_080;

pub const MOTHER_ENRAGE_DMG: i128 = 1_498_797_955_988_901_120;

pub const MOTHER_ENRAGE_SWING: i128 = 887_749_558_547_272_192;

pub const SCORP_POISON_DPS: i128 = 3_458_764_513_820_540_928;

pub const SCORP_POISON_S: i128 = 4_611_686_018_427_387_904;

pub const BLOB_HP: i32 = 82;

pub const BLOB_DMG: i32 = 11;

pub const BLOB_SWING_S: i128 = 2_767_011_611_056_432_640;

pub const BLOB_ARMOR: i32 = 6;

pub const BLOB_SPEED: i128 = 5_995_191_823_955_604_480;

pub const BLOB_REACH_M: i128 = 1_844_674_407_370_955_264;

pub const BLOB_XP: i32 = 47;

pub const ORC_HP: i32 = 130;

pub const ORC_DMG: i32 = 15;

pub const ORC_SWING_S: i128 = 2_305_843_009_213_693_952;

pub const ORC_ARMOR: i32 = 10;

pub const ORC_SPEED: i128 = 4_035_225_266_123_964_416;

pub const ORC_REACH_M: i128 = 2_305_843_009_213_693_952;

pub const ORC_XP: i32 = 80;

pub const TRIBAL_LEVEL: i32 = 6;

pub const TRIBAL_HP: i32 = 176;

pub const TRIBAL_DMG: i32 = 20;

pub const TRIBAL_SWING_S: i128 = 2_075_258_708_292_324_608;

pub const TRIBAL_ARMOR: i32 = 8;

pub const TRIBAL_SPEED: i128 = 5_764_607_523_034_234_880;

pub const TRIBAL_REACH_M: i128 = 1_844_674_407_370_955_264;

pub const TRIBAL_XP: i32 = 95;

pub const BANDIT_LEVEL: i32 = 5;

pub const BANDIT_HP: i32 = 156;

pub const BANDIT_ARMOR: i32 = 8;

pub const BANDIT_DMG: i32 = 18;

pub const BANDIT_SWING_S: i128 = 2_075_258_708_292_324_608;

pub const BANDIT_REACH_M: i128 = 2_536_427_310_135_063_552;

pub const BANDIT_SPEED: i128 = 5_764_607_523_034_234_880;

pub const BANDIT_XP: i32 = 83;

pub const SKULL_LEVEL: i32 = 6;

pub const SKULL_HP: i32 = 112;

pub const SKULL_DMG: i32 = 20;

pub const SKULL_SWING_S: i128 = 2_305_843_009_213_693_952;

pub const SKULL_ARMOR: i32 = 8;

pub const SKULL_SPEED: i128 = 5_534_023_222_112_865_280;

pub const SKULL_REACH_M: i128 = 2_305_843_009_213_693_952;

pub const SKULL_XP: i32 = 95;

pub const SKULL_BOLT_DMG: i32 = 14;

pub const SKULL_TELE_S: i128 = 1_383_505_805_528_216_320;

pub const SKULL_BOLT_RANGE_M: i128 = 27_670_116_110_564_327_424;

pub const BONE_LEVEL: i32 = 8;

pub const WARRIOR_HP: i32 = 196;

pub const WARRIOR_DMG: i32 = 24;

pub const WARRIOR_SWING_S: i128 = 2_305_843_009_213_693_952;

pub const WARRIOR_REACH_M: i128 = 2_075_258_708_292_324_608;

pub const WARRIOR_SPEED: i128 = 5_995_191_823_955_604_480;

pub const WARRIOR_ARMOR: i32 = 8;

pub const WARRIOR_XP: i32 = 119;

pub const MINION_HP: i32 = 137;

pub const MAGE_HP: i32 = 137;

pub const MAGE_BOLT_DMG: i32 = 15;

pub const MAGE_TELE_S: i128 = 1_383_505_805_528_216_320;

pub const MAGE_BOLT_RANGE_M: i128 = 27_670_116_110_564_327_424;

pub const YETI_HP: i32 = 240;

pub const YETI_DMG: i32 = 14;

pub const YETI_SWING_S: i128 = 2_651_719_460_595_747_840;

pub const YETI_SLAM: i32 = 26;

pub const YETI_SLAM_EVERY_S: i128 = 9_223_372_036_854_775_808;

pub const YETI_TELE_S: i128 = 1_152_921_504_606_846_976;

pub const YETI_ARMOR: i32 = 12;

pub const YETI_SPEED: i128 = 3_458_764_513_820_540_928;

pub const YETI_REACH_M: i128 = 2_536_427_310_135_063_552;

pub const YETI_XP: i32 = 160;

pub const DEMON_HP: i32 = 220;

pub const DEMON_ARMOR: i32 = 12;

pub const DEMON_DMG: i32 = 16;

pub const DEMON_SWING_S: i128 = 2_305_843_009_213_693_952;

pub const DEMON_REACH_M: i128 = 2_536_427_310_135_063_552;

pub const DEMON_SPEED: i128 = 3_689_348_814_741_910_528;

pub const DEMON_XP: i32 = 180;

pub const BLUE_DEMON_HP: i32 = 155;

pub const BLUE_DEMON_ARMOR: i32 = 9;

pub const BLUE_DEMON_DMG: i32 = 12;

pub const BLUE_DEMON_SWING_S: i128 = 2_305_843_009_213_693_952;

pub const BLUE_DEMON_REACH_M: i128 = 2_305_843_009_213_693_952;

pub const BLUE_DEMON_SPEED: i128 = 4_150_517_416_584_649_216;

pub const BLUE_DEMON_XP: i32 = 140;

pub const TRIBAL_VETERAN_HP: i32 = 210;

pub const TRIBAL_VETERAN_ARMOR: i32 = 10;

pub const TRIBAL_VETERAN_DMG: i32 = 22;

pub const TRIBAL_VETERAN_SWING_S: i128 = 2_075_258_708_292_324_608;

pub const TRIBAL_VETERAN_REACH_M: i128 = 1_844_674_407_370_955_264;

pub const TRIBAL_VETERAN_SPEED: i128 = 5_764_607_523_034_234_880;

pub const TRIBAL_VETERAN_XP: i32 = 130;

/// The way walked in a tick.
pub const WALK_STEP: i128 = 518_814_677_073_081_152;

/// The way sprinted in a tick.
pub const SPRINT_STEP: i128 = 807_045_053_224_792_960;

/// The mana that comes back in a tick of combat.
pub const MANA_TICK: i128 = 46_116_860_184_273_888;

/// The poison damage that gathers in a tick.
pub const POISON_TICK: i128 = 345_876_451_382_054_144;

/// The swing of the enraged Line-Mother.
pub const MOTHER_ENRAGED_SWING_S: i128 = 1_953_049_028_803_998_976;

/// How far a fighter may stand off its range.
pub const RANGE_SLACK: i128 = 57_646_075_230_342_352;

/// `n / d` cut towards zero, for a positive `d`.
pub open spec fn cut(n: int, d: int) -> int {
    if n < 0 {
        -(-n / d)
    } else {
        n / d
    }
}

/// A number held to the range of `i32`.
pub open spec fn as_small(n: int) -> int {
    if n > i32::MAX {
        i32::MAX as int
    } else if n < i32::MIN {
        i32::MIN as int
    } else {
        n
    }
}

/// The damage that armor lets through of whole points: `incoming * 100 / (100 + armor)`.
pub open spec fn mitigated(incoming: int, armor: int) -> int {
    if incoming <= 0 {
        0
    } else if armor == -100 {
        i32::MAX as int
    } else if armor > -100 {
        as_small(cut(incoming * 100, 100 + armor))
    } else {
        as_small(cut(-incoming * 100, -100 - armor))
    }
}

/// The damage that armor lets through of a quantity: a hundred times it over the armor and
/// a hundred, product and ratio rounded, cut towards zero. Of whole points it is
/// [`mitigated`].
pub open spec fn let_through(incoming: i128, armor: int) -> int {
    let n = product(incoming as int, 100);
    if incoming <= 0 {
        0
    } else if armor == -100 {
        i32::MAX as int
    } else if armor > -100 {
        whole_small(ratio_to(n, 100 + armor, DOUBLE as int), 60)
    } else {
        whole_small(-ratio_to(n, -100 - armor, DOUBLE as int), 60)
    }
}

/// How far a ratio lies from what it rounds.
proof fn lemma_ratio_near(n: int, d: int)
    requires
        n >= 0,
        0 < d <= 0x1_0000_0000,
    ensures
        ({
            let r = ratio_to(n, d, DOUBLE as int);
            let w = d * grain_of(n / d, DOUBLE as int);
            &&& r >= 0
            &&& 2 * (d * r - n) <= w
            &&& 2 * (n - d * r) <= w
            &&& 0 < w
            &&& w == d || w * 0x20_0000_0000_0000 <= 2 * n
        }),
{
    let top = DOUBLE as int;
    lemma_ratio(n, d, top);
    vstd::arithmetic::div_mod::lemma_div_pos_is_pos(n, d);
    vstd::arithmetic::div_mod::lemma_fundamental_div_mod(n, d);
    vstd::arithmetic::power2::lemma2_to64();
    let j = lemma_grain_of(n / d, top);
    let u = vstd::arithmetic::power2::pow2(j) as int;
    if j == 0 {
        assert(d * 1 == d);
    } else {
        assert((d * u) * top <= 2 * (d * (n / d))) by (nonlinear_arith)
            requires
                u * top <= 2 * (n / d),
                d > 0,
        ;
    }
}

/// Of whole points the rounding is not to be seen.
proof fn lemma_whole_points(k: int, d: int)
    requires
        0 < k <= i32::MAX,
        0 < d <= 0x1_0000_0000,
    ensures
        product(k * ONE, 100) == (k * 100) * ONE,
        ratio_to((k * 100) * ONE, d, DOUBLE as int) / (ONE as int) == (k * 100) / d,
{
    let top = DOUBLE as int;
    let m = k * 100;
    let one = ONE as int;
    let n = m * one;
    vstd::arithmetic::power2::lemma2_to64();
    vstd::arithmetic::power2::lemma2_to64_rest();
    law_rounding_scales(m, 60, top);
    law_rounding_is_close(m);
    assert((k * one) * 100 == n) by (nonlinear_arith)
        requires
            n == (k * 100) * one,
    ;
    lemma_ratio_near(n, d);
    let r = ratio_to(n, d, top);
    let u = grain_of(n / d, top);
    let w = d * u;
    let q = m / d;
    let rest = m % d;
    vstd::arithmetic::div_mod::lemma_fundamental_div_mod(m, d);
    vstd::arithmetic::div_mod::lemma_mod_bound(m, d);
    assert(n == d * (q * one) + rest * one) by (nonlinear_arith)
        requires
            n == (d * q + rest) * one,
    ;
    assert(r < (q + 1) * one) by (nonlinear_arith)
        requires
            n == d * (q * one) + rest * one,
            rest <= d - 1,
            2 * (d * r - n) < one,
            d > 0,
            one > 0,
    ;
    if rest > 0 {
        assert(q * one <= r) by (nonlinear_arith)
            requires
                n == d * (q * one) + rest * one,
                rest >= 1,
                2 * (n - d * r) < one,
                d > 0,
                one > 0,
        ;
    } else {
        vstd::arithmetic::div_mod::lemma_div_pos_is_pos(n, d);
        let j = lemma_grain_of(n / d, top);
        assert(u <= w) by (nonlinear_arith)
            requires
                w == d * u,
                d >= 1,
                u > 0,
        ;
        if j > 60 {
            vstd::arithmetic::power2::lemma_pow2_strictly_increases(60, j);
        }
        let e = (60 - j) as nat;
        let v = vstd::arithmetic::power2::pow2(e) as int;
        vstd::arithmetic::power2::lemma_pow2_adds(j, e);
        assert(n == (q * v) * w) by (nonlinear_arith)
            requires
                n == d * (q * one),
                one == u * v,
                w == d * u,
        ;
        vstd::arithmetic::div_mod::lemma_mod_multiples_basic(q * v, w);
        lemma_in_grains(n, w);
        lemma_ratio(n, d, top);
        assert(q * one <= r) by (nonlinear_arith)
            requires
                d * r == d * (q * one),
                d > 0,
        ;
    }
    assert((q + 1) * one == q * one + one) by (nonlinear_arith);
    vstd::arithmetic::div_mod::lemma_fundamental_div_mod_converse(r, one, q, r - q * one);
}

/// The damage that armor lets through.
pub fn mitigation(incoming: i128, grit_or_armor: i32) -> (r: i32)
    ensures
        r == let_through(incoming, grit_or_armor as int),
        forall|k: i32|
            incoming == #[trigger] units_of(k as int) ==> r == mitigated(
                k as int,
                grit_or_armor as int,
            ),
{
    proof {
        vstd::arithmetic::power2::lemma2_to64();
        vstd::arithmetic::power2::lemma2_to64_rest();
        assert forall|k: i32| incoming == #[trigger] units_of(k as int) implies let_through(
            incoming,
            grit_or_armor as int,
        ) == mitigated(k as int, grit_or_armor as int) by {
            lemma_points_let_through(k as int, grit_or_armor as int);
        }
    }
    if incoming <= 0 {
        return 0;
    }
    if grit_or_armor == -100 {
        return i32::MAX;
    }
    let less: bool = grit_or_armor < -100;
    let d: u64 = if less {
        (-100 - grit_or_armor as i64) as u64
    } else {
        (100 + grit_or_armor as i64) as u64
    };
    let ghost n = product(incoming as int, 100);
    proof {
        law_rounding_is_close(incoming * 100);
        lemma_ratio_near(n, d as int);
    }
    if incoming >= 0x80_0000_0000_0000_0000_0000_0000_0000 {
        proof {
            let q = ratio_to(n, d as int, DOUBLE as int);
            assert(q >= 0x1_0000_0000 * 0x1000_0000_0000_0000) by (nonlinear_arith)
                requires
                    2 * (d * q) >= n,
                    n >= 0x2000_0000_0000_0000_0000_0000_0000_0000,
                    0 < d <= 0x1_0000_0000,
            ;
        }
        return if less {
            i32::MIN
        } else {
            i32::MAX
        };
    }
    let hundred: i128 = round53(incoming * 100);
    let q: u128 = round_ratio(hundred as u128, d, DOUBLE) / 0x1000_0000_0000_0000;
    if q > i32::MAX as u128 {
        if !less {
            i32::MAX
        } else if q > 0x8000_0000 {
            i32::MIN
        } else {
            -(q as i64) as i32
        }
    } else if less {
        -(q as i32)
    } else {
        q as i32
    }
}

proof fn lemma_points_let_through(k: int, armor: int)
    requires
        i32::MIN <= k <= i32::MAX,
        i32::MIN <= armor <= i32::MAX,
    ensures
        let_through(units_of(k), armor) == mitigated(k, armor),
{
    vstd::arithmetic::power2::lemma2_to64();
    vstd::arithmetic::power2::lemma2_to64_rest();
    if k > 0 && armor != -100 {
        let d = if armor > -100 {
            100 + armor
        } else {
            -100 - armor
        };
        lemma_whole_points(k, d);
        lemma_ratio_near((k * 100) * ONE, d);
        let r = ratio_to((k * 100) * ONE, d, DOUBLE as int);
        assert(-k * 100 == -(k * 100));
        vstd::arithmetic::div_mod::lemma_div_pos_is_pos(k * 100, d);
    }
}

/// The factor of a weapon skill: one, and 0.004 for each point.
pub open spec fn rider_of(skill: int) -> i128 {
    sum_of(ONE, times_of(SKILL_RIDER_PER, skill))
}

/// The factor of a weapon skill.
pub fn skill_rider(skill: i32) -> (r: i128)
    ensures
        r == rider_of(skill as int),
        rounded(r as int) == r,
{
    let more: i128 = times(SKILL_RIDER_PER, skill);
    proof {
        lemma_sum_settles(ONE, more);
    }
    plus(ONE, more)
}

/// The share of a bow hit that is left at a distance, in parts of 2^120: all of it up to
/// 20 metres, then falling evenly to nothing at 35.
pub open spec fn bow_share(distance: i128) -> int {
    if distance <= BOW_FULL_M {
        ONE * ONE
    } else if distance >= BOW_FALLOFF_END_M {
        0
    } else {
        ratio_to(diff_of(BOW_FALLOFF_END_M, distance) * ONE, 15, DOUBLE as int)
    }
}

/// The share of a bow hit that is left at a distance, in parts of 2^120.
pub fn bow_range_mult(distance: i128) -> (r: i128)
    ensures
        r == bow_share(distance),
        rounded(r as int) == r,
        r >= 0,
{
    proof {
        vstd::arithmetic::power2::lemma2_to64();
        vstd::arithmetic::power2::lemma2_to64_rest();
        vstd::arithmetic::power2::lemma_pow2_adds(60, 60);
    }
    if distance <= BOW_FULL_M {
        proof {
            law_grains_stay(1, 120, DOUBLE as int);
        }
        ONE * ONE
    } else if distance >= BOW_FALLOFF_END_M {
        proof {
            law_grains_stay(0, 0, DOUBLE as int);
        }
        0
    } else {
        let left: i128 = minus(BOW_FALLOFF_END_M, distance);
        proof {
            law_rounding_is_close(BOW_FALLOFF_END_M - distance);
            lemma_ratio(left * ONE, 15, DOUBLE as int);
            lemma_ratio_held(left * ONE, 15);
        }
        round_ratio(left as u128 * ONE as u128, 15, DOUBLE) as i128
    }
}

/// A ratio to more than one is no larger than what it was of.
proof fn lemma_ratio_held(n: int, d: int)
    requires
        0 <= n,
        d >= 2,
    ensures
        ratio_to(n, d, DOUBLE as int) <= n,
{
    let top = DOUBLE as int;
    lemma_ratio(n, d, top);
    let r = ratio_to(n, d, top);
    vstd::arithmetic::div_mod::lemma_div_pos_is_pos(n, d);
    vstd::arithmetic::div_mod::lemma_fundamental_div_mod(n, d);
    let j = lemma_grain_of(n / d, top);
    let u = vstd::arithmetic::power2::pow2(j) as int;
    vstd::arithmetic::power2::lemma2_to64();
    if j == 0 {
        assert(d * 1 == d);
        assert(r <= n) by (nonlinear_arith)
            requires
                2 * (d * r - n) <= d,
                d >= 2,
                n >= 0,
                r >= 0,
        ;
    } else {
        assert(r <= n) by (nonlinear_arith)
            requires
                2 * (d * r - n) <= d * u,
                u * top <= 2 * (n / d),
                top >= 2,
                d * (n / d) <= n,
                d >= 2,
                n >= 0,
                r >= 0,
        ;
    }
}

/// The factor of the Arcane rank on Ember.
pub open spec fn ember_rank(arcane: int) -> i128 {
    if arcane >= 10 {
        EMBER_RANK10
    } else if arcane >= 1 {
        EMBER_RANK1
    } else {
        ONE
    }
}

/// The factor of the Arcane rank on Ember.
pub fn ember_rank_mult(arcane: i32) -> (r: i128)
    ensures
        r == ember_rank(arcane as int),
{
    if arcane >= 10 {
        EMBER_RANK10
    } else if arcane >= 1 {
        EMBER_RANK1
    } else {
        ONE
    }
}

/// The factor of the Arcane rank on every spell.
pub open spec fn spell_rank(arcane: int) -> i128 {
    if arcane >= 10 {
        RANK10_SPELL
    } else {
        ONE
    }
}

/// The factor of the Arcane rank on every spell.
pub fn spell_rank_mult(arcane: i32) -> (r: i128)
    ensures
        r == spell_rank(arcane as int),
{
    if arcane >= 10 {
        RANK10_SPELL
    } else {
        ONE
    }
}

/// The constant factors are numbers of 53 significant bits.
proof fn lemma_factors()
    ensures
        rounded(ONE as int) == ONE,
        rounded(STRIKE_MULT as int) == STRIKE_MULT,
        rounded(AIMED_MULT as int) == AIMED_MULT,
        rounded(RANK5_WEAPON as int) == RANK5_WEAPON,
        rounded(RANK10_SPELL as int) == RANK10_SPELL,
        rounded(EMBER_RANK1 as int) == EMBER_RANK1,
        rounded(EMBER_RANK10 as int) == EMBER_RANK10,
{
    vstd::arithmetic::power2::lemma2_to64();
    law_grains_stay(STRIKE_MULT as int / 256, 8, DOUBLE as int);
    law_grains_stay(AIMED_MULT as int / 256, 8, DOUBLE as int);
    law_grains_stay(RANK5_WEAPON as int / 256, 8, DOUBLE as int);
    law_grains_stay(RANK10_SPELL as int / 256, 8, DOUBLE as int);
    law_grains_stay(EMBER_RANK1 as int / 256, 8, DOUBLE as int);
    law_grains_stay(EMBER_RANK10 as int / 256, 8, DOUBLE as int);
    law_grains_stay(ONE as int / 256, 8, DOUBLE as int);
}

/// `base + n * per`, as a quantity.
pub open spec fn grown(base: i128, per: i128, n: int) -> i128 {
    sum_of(base, times_of(per, n))
}

fn grow(base: i128, per: i128, n: i32) -> (r: i128)
    requires
        0 <= base <= 100 * ONE,
        0 <= per <= ONE,
    ensures
        r == grown(base, per, n as int),
        rounded(r as int) == r,
        r > i128::MIN,
{
    let more: i128 = times(per, n);
    proof {
        lemma_sum_settles(base, more);
    }
    plus(base, more)
}

/// The factor of a strike.
pub open spec fn strike_factor(strike: bool) -> i128 {
    if strike {
        STRIKE_MULT
    } else {
        ONE
    }
}

/// The factor of an aimed shot.
pub open spec fn aimed_factor(aimed: bool) -> i128 {
    if aimed {
        AIMED_MULT
    } else {
        ONE
    }
}

/// The factor of a rank in the weapon's discipline.
pub open spec fn weapon_rank(rank: int) -> i128 {
    if rank >= 5 {
        RANK5_WEAPON
    } else {
        ONE
    }
}

/// `(8 + 0.4 might) * rider`, times 1.5 for a strike, times 1.1 from Martial 5 on.
pub open spec fn melee_damage(might: int, skill: int, martial_rank: int, strike: bool) -> int {
    whole_small(
        product(
            product(
                product(
                    grown(MELEE_BASE, MELEE_MIGHT, might) as int,
                    rider_of(skill) as int,
                ),
                strike_factor(strike) as int,
            ),
            weapon_rank(martial_rank) as int,
        ),
        240,
    )
}

pub fn melee_hit(might: i32, skill: i32, martial_rank: i32, strike: bool) -> (r: i32)
    ensures
        r == melee_damage(might as int, skill as int, martial_rank as int, strike),
{
    proof {
        lemma_factors();
    }
    let base: Scaled = Scaled::of(grow(MELEE_BASE, MELEE_MIGHT, might));
    let rider: Scaled = Scaled::of(skill_rider(skill));
    let strike_m: Scaled = Scaled::of(
        if strike {
            STRIKE_MULT
        } else {
            ONE
        },
    );
    let rank: Scaled = Scaled::of(
        if martial_rank >= 5 {
            RANK5_WEAPON
        } else {
            ONE
        },
    );
    base.times(rider).times(strike_m).times(rank).whole(240)
}

/// `(7 + 0.4 swift) * rider`, times 1.8 for an aimed shot, times 1.1 from Hunt 5
/// on, times the share left at the distance.
pub open spec fn bow_damage(
    swift: int,
    skill: int,
    hunt_rank: int,
    aimed: bool,
    distance: i128,
) -> int {
    whole_small(
        product(
            product(
                product(
                    product(grown(BOW_BASE, BOW_SWIFT, swift) as int, rider_of(skill) as int),
                    aimed_factor(aimed) as int,
                ),
                weapon_rank(hunt_rank) as int,
            ),
            bow_share(distance),
        ),
        360,
    )
}

pub fn bow_hit(swift: i32, skill: i32, hunt_rank: i32, aimed: bool, distance: i128) -> (r: i32)
    ensures
        r == bow_damage(swift as int, skill as int, hunt_rank as int, aimed, distance),
{
    proof {
        lemma_factors();
    }
    let base: Scaled = Scaled::of(grow(BOW_BASE, BOW_SWIFT, swift));
    let rider: Scaled = Scaled::of(skill_rider(skill));
    let aimed_m: Scaled = Scaled::of(
        if aimed {
            AIMED_MULT
        } else {
            ONE
        },
    );
    let rank: Scaled = Scaled::of(
        if hunt_rank >= 5 {
            RANK5_WEAPON
        } else {
            ONE
        },
    );
    let share: Scaled = Scaled::of(bow_range_mult(distance));
    base.times(rider).times(aimed_m).times(rank).times(share).whole(360)
}

/// `(14 + 0.5 will) * ember rank * spell rank * rider`.
pub open spec fn ember_damage(will: int, skill: int, arcane: int) -> int {
    whole_small(
        product(
            product(
                product(
                    grown(EMBER_BASE, EMBER_WILL, will) as int,
                    ember_rank(arcane) as int,
                ),
                spell_rank(arcane) as int,
            ),
            rider_of(skill) as int,
        ),
        240,
    )
}

pub fn ember(will: i32, skill: i32, arcane: i32) -> (r: i32)
    ensures
        r == ember_damage(will as int, skill as int, arcane as int),
{
    proof {
        lemma_factors();
    }
    let base: Scaled = Scaled::of(grow(EMBER_BASE, EMBER_WILL, will));
    let ember_m: Scaled = Scaled::of(ember_rank_mult(arcane));
    let spell_m: Scaled = Scaled::of(spell_rank_mult(arcane));
    let rider: Scaled = Scaled::of(skill_rider(skill));
    base.times(ember_m).times(spell_m).times(rider).whole(240)
}

/// `(25 + 0.4 will) * spell rank`.
pub open spec fn mend_heal(will: int, arcane: int) -> int {
    whole_small(
        product(grown(MEND_BASE, MEND_WILL, will) as int, spell_rank(arcane) as int),
        120,
    )
}

pub fn mend(will: i32, arcane: i32) -> (r: i32)
    ensures
        r == mend_heal(will as int, arcane as int),
{
    proof {
        lemma_factors();
    }
    let base: Scaled = Scaled::of(grow(MEND_BASE, MEND_WILL, will));
    let spell_m: Scaled = Scaled::of(spell_rank_mult(arcane));
    base.times(spell_m).whole(120)
}

/// `(20 + 0.3 will) * spell rank`.
pub open spec fn ward_absorb(will: int, arcane: int) -> int {
    whole_small(
        product(grown(WARD_BASE, WARD_WILL, will) as int, spell_rank(arcane) as int),
        120,
    )
}

pub fn ward(will: i32, arcane: i32) -> (r: i32)
    ensures
        r == ward_absorb(will as int, arcane as int),
{
    proof {
        lemma_factors();
    }
    let base: Scaled = Scaled::of(grow(WARD_BASE, WARD_WILL, will));
    let spell_m: Scaled = Scaled::of(spell_rank_mult(arcane));
    base.times(spell_m).whole(120)
}

/// More armor never lets more damage through.
pub proof fn law_armor_only_helps(incoming: i128, a: int, b: int)
    requires
        -100 < a <= b,
    ensures
        let_through(incoming, b) <= let_through(incoming, a),
        0 <= let_through(incoming, b),
{
    if incoming > 0 {
        let n = product(incoming as int, 100);
        let top = DOUBLE as int;
        law_rounding_is_close(incoming * 100);
        law_ratios_fall(n, 100 + a, 100 + b, top);
        lemma_ratio(n, 100 + a, top);
        lemma_ratio(n, 100 + b, top);
        vstd::arithmetic::power2::lemma2_to64();
        vstd::arithmetic::power2::lemma2_to64_rest();
        let (x, y) = (ratio_to(n, 100 + b, top), ratio_to(n, 100 + a, top));
        vstd::arithmetic::div_mod::lemma_div_is_ordered(x, y, ONE as int);
        vstd::arithmetic::div_mod::lemma_div_pos_is_pos(x, ONE as int);
    }
}

#[derive(Clone, Copy, Debug, PartialEq, Eq, Structural)]
pub enum Discipline {
    Martial,
    Hunt,
    Arcane,
}

/// The name of a discipline.
pub open spec fn discipline_name(d: Discipline) -> Seq<char> {
    match d {
        Discipline::Martial => "Martial"@,
        Discipline::Hunt => "Hunt"@,
        Discipline::Arcane => "Arcane"@,
    }
}

/// The discipline that a word names, capitalised or not.
pub open spec fn discipline_named(s: Seq<char>) -> Option<Discipline> {
    if s == "Martial"@ || s == "martial"@ {
        Some(Discipline::Martial)
    } else if s == "Hunt"@ || s == "hunt"@ {
        Some(Discipline::Hunt)
    } else if s == "Arcane"@ || s == "arcane"@ {
        Some(Discipline::Arcane)
    } else {
        None
    }
}

impl Discipline {
    pub fn as_str(self) -> (r: &'static str)
        ensures
            r@ == discipline_name(self),
    {
        match self {
            Discipline::Martial => "Martial",
            Discipline::Hunt => "Hunt",
            Discipline::Arcane => "Arcane",
        }
    }

    pub fn parse(s: &str) -> (r: Option<Self>)
        ensures
            r == discipline_named(s@),
    {
        if str_eq(s, "Martial") || str_eq(s, "martial") {
            Some(Discipline::Martial)
        } else if str_eq(s, "Hunt") || str_eq(s, "hunt") {
            Some(Discipline::Hunt)
        } else if str_eq(s, "Arcane") || str_eq(s, "arcane") {
            Some(Discipline::Arcane)
        } else {
            None
        }
    }
}

/// The name of a discipline names that discipline.
pub proof fn law_discipline_name_parses(d: Discipline)
    ensures
        discipline_named(discipline_name(d)) == Some(d),
{
    reveal_strlit("Martial");
    reveal_strlit("martial");
    reveal_strlit("Hunt");
    reveal_strlit("hunt");
    reveal_strlit("Arcane");
    reveal_strlit("arcane");
    assert("Hunt"@.len() == 4);
    assert("Arcane"@.len() == 6);
    assert("Martial"@.len() == 7);
}

#[derive(Clone, Copy, Debug, PartialEq, Eq, Structural)]
pub struct Attrs {
    pub might: i32,
    pub swift: i32,
    pub will: i32,
    pub grit: i32,
}

impl Default for Attrs {
    fn default() -> (r: Self)
        ensures
            r == (Attrs { might: 10, swift: 10, will: 10, grit: 10 }),
    {
        Attrs { might: ATTR_BASE, swift: ATTR_BASE, will: ATTR_BASE, grit: ATTR_BASE }
    }
}

#[derive(Clone, Copy, Debug, PartialEq, Eq, Structural)]
pub struct Ranks {
    pub martial: i32,
    pub hunt: i32,
    pub arcane: i32,
}

impl Default for Ranks {
    fn default() -> (r: Self)
        ensures
            r == (Ranks { martial: 0, hunt: 0, arcane: 0 }),
    {
        Ranks { martial: 0, hunt: 0, arcane: 0 }
    }
}

} // verus!
