//! Measured quantities: seconds, metres, mana.
//!
//! A quantity is held as a whole number of parts of 2^60 and keeps 53 significant
//! bits: every sum, difference and multiple is rounded to the nearest number with
//! 53 bits, halfway cases to the even one. A quantity is held in an `i128`, which reaches
//! to 2^67 of either sign.

use crate::rounding::{
    held, law_rounding_is_ordered, law_rounding_keeps_side, law_rounding_settles, law_rounding_stays_close,
    lemma_rounded_grains, round_difference, round_sum, round_to, rounded_to, DOUBLE,
};
use vstd::prelude::*;

verus! {

/// One, in parts.
pub const ONE: i128 = 1_152_921_504_606_846_976;

/// `x` rounded to 53 significant bits.
pub open spec fn rounded(x: int) -> int {
    rounded_to(x, DOUBLE as int)
}

/// The sum of two quantities.
pub open spec fn sum_of(a: i128, b: i128) -> i128 {
    held(rounded(a + b)) as i128
}

/// The difference of two quantities.
pub open spec fn diff_of(a: i128, b: i128) -> i128 {
    held(rounded(a - b)) as i128
}

/// A share, up to twice the whole, of a whole number.
pub open spec fn times_of(a: i128, k: int) -> i128 {
    rounded(a * k) as i128
}

/// A whole number as a quantity.
pub open spec fn units_of(k: int) -> i128 {
    (k * ONE) as i128
}

/// The whole part of a quantity, cut towards zero.
pub open spec fn whole_of(a: i128) -> int {
    if a < 0 {
        -(-a / (ONE as int))
    } else {
        a as int / (ONE as int)
    }
}

/// The distance between two places.
pub open spec fn gap_of(a: i128, b: i128) -> i128 {
    let d = diff_of(a, b);
    if d < 0 {
        (-d) as i128
    } else {
        d
    }
}

/// The lesser of two quantities.
pub open spec fn lesser(a: i128, b: i128) -> i128 {
    if b < a {
        b
    } else {
        a
    }
}

/// The greater of two quantities.
pub open spec fn greater(a: i128, b: i128) -> i128 {
    if b > a {
        b
    } else {
        a
    }
}

/// Rounding moves a quantity by less than one part in 2^52, and not at all below
/// 2^53 parts.
pub proof fn law_rounding_is_close(x: int)
    ensures
        x >= 0 ==> rounded(x) >= 0,
        x <= 0 ==> rounded(x) <= 0,
        -0x20_0000_0000_0000 < x < 0x20_0000_0000_0000 ==> rounded(x) == x,
        x >= 0 ==> 0x20_0000_0000_0000 * (rounded(x) - x) <= x && 0x20_0000_0000_0000 * (x
            - rounded(x)) <= x,
        x < 0 ==> 0x20_0000_0000_0000 * (x - rounded(x)) <= -x && 0x20_0000_0000_0000 * (rounded(x)
            - x) <= -x,
{
    law_rounding_stays_close(x, DOUBLE as int);
}

/// A sum that an `i128` holds with room is a number of 53 significant bits.
pub proof fn lemma_sum_settles(a: i128, b: i128)
    requires
        -0x1000_0000_0000_0000_0000_0000_0000_0000 <= a + b
            <= 0x1000_0000_0000_0000_0000_0000_0000_0000,
    ensures
        sum_of(a, b) == rounded(a + b),
        rounded(sum_of(a, b) as int) == sum_of(a, b),
{
    law_rounding_is_close(a + b);
    law_rounding_settles(a + b, DOUBLE as int);
}

/// Rounding does not turn sums round: more added to a quantity of 53 bits never makes it
/// less, and less of it never makes it more, nor takes it below nothing.
pub proof fn law_sums_keep_side(a: i128, b: i128)
    requires
        0 <= a,
        0 <= b,
        rounded(a as int) == a,
    ensures
        sum_of(a, b) >= a,
        diff_of(a, b) <= a,
        a <= b ==> diff_of(a, b) <= 0,
        b <= a ==> diff_of(a, b) >= 0,
{
    let g = lemma_rounded_grains(a as int, DOUBLE as int);
    vstd::arithmetic::power2::lemma_pow2_pos(g.1);
    assert(g.0 >= 0) by (nonlinear_arith)
        requires
            g.0 * vstd::arithmetic::power2::pow2(g.1) >= 0,
            vstd::arithmetic::power2::pow2(g.1) > 0,
    ;
    law_rounding_keeps_side(a + b, g.0, g.1, DOUBLE as int);
    law_rounding_is_close(a - b);
    if b <= a {
        law_rounding_keeps_side(a - b, g.0, g.1, DOUBLE as int);
    }
}

/// Rounding keeps the order: the greater number is never rounded below the lesser.
pub proof fn law_rounding_keeps_order(x: int, y: int)
    requires
        x <= y,
    ensures
        rounded(x) <= rounded(y),
{
    if x >= 0 {
        law_rounding_is_ordered(x, y, DOUBLE as int);
    } else if y <= 0 {
        law_rounding_is_ordered(-y, -x, DOUBLE as int);
        reveal(rounded_to);
    } else {
        law_rounding_is_close(x);
        law_rounding_is_close(y);
    }
}

/// More added makes no less.
pub proof fn law_sums_grow(a: int, b: int, c: int)
    requires
        b <= c,
        i128::MIN <= a <= i128::MAX,
        i128::MIN <= b,
        c <= i128::MAX,
    ensures
        sum_of(a as i128, b as i128) <= sum_of(a as i128, c as i128),
        diff_of(a as i128, c as i128) <= diff_of(a as i128, b as i128),
{
    law_rounding_keeps_order(a + b, a + c);
    law_rounding_keeps_order(a - c, a - b);
}

/// A quantity rounded to 53 significant bits.
pub fn round53(x: i128) -> (r: i128)
    requires
        x > i128::MIN,
    ensures
        r == held(rounded(x as int)),
{
    round_to(x, DOUBLE)
}

pub fn plus(a: i128, b: i128) -> (r: i128)
    ensures
        r == sum_of(a, b),
        r > i128::MIN,
{
    round_sum(a, b, DOUBLE)
}

pub fn minus(a: i128, b: i128) -> (r: i128)
    ensures
        r == diff_of(a, b),
        r > i128::MIN,
{
    round_difference(a, b, DOUBLE)
}

pub fn times(a: i128, k: i32) -> (r: i128)
    requires
        0 <= a <= 2 * ONE,
    ensures
        r == times_of(a, k as int),
        k >= 0 ==> 0 <= r <= 4 * ONE * k,
        -4 * ONE * 2147483648 <= r <= 4 * ONE * 2147483648,
{
    proof {
        let x = a as int;
        let y = k as int;
        assert(-2 * 1_152_921_504_606_846_976 * 2147483648 <= x * y <= 2
            * 1_152_921_504_606_846_976 * 2147483648) by (nonlinear_arith)
            requires
                0 <= x <= 2 * 1_152_921_504_606_846_976,
                -2147483648 <= y <= 2147483647,
        ;
        assert(y >= 0 ==> 0 <= x * y <= 2 * 1_152_921_504_606_846_976 * y) by (nonlinear_arith)
            requires
                0 <= x <= 2 * 1_152_921_504_606_846_976,
        ;
    }
    proof {
        law_rounding_is_close(a * k);
    }
    let r: i128 = round53(a * k as i128);
    assert(4 * ONE * k == 4 * 1_152_921_504_606_846_976 * k) by (nonlinear_arith);
    r
}

pub fn units(k: i32) -> (r: i128)
    ensures
        r == units_of(k as int),
        r == k * ONE,
{
    k as i128 * ONE
}

/// The whole part of a quantity, cut towards zero.
pub fn whole(a: i128) -> (r: i128)
    requires
        a > i128::MIN,
    ensures
        r == whole_of(a),
        a >= 0 ==> 0 <= r <= a,
        a <= 0 ==> a <= r <= 0,
{
    if a < 0 {
        -((-a) / ONE)
    } else {
        a / ONE
    }
}

pub fn gap(a: i128, b: i128) -> (r: i128)
    ensures
        r == gap_of(a, b),
        r >= 0,
{
    let d: i128 = minus(a, b);
    if d < 0 {
        -d
    } else {
        d
    }
}

pub fn least(a: i128, b: i128) -> (r: i128)
    ensures
        r == lesser(a, b),
{
    if b < a {
        b
    } else {
        a
    }
}

pub fn most(a: i128, b: i128) -> (r: i128)
    ensures
        r == greater(a, b),
{
    if b > a {
        b
    } else {
        a
    }
}

} // verus!
