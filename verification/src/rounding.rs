//! Rounding to a number of significant bits, as binary floating point rounds: to the
//! nearest, halfway cases to the even one.

use vstd::arithmetic::div_mod::{
    lemma_div_pos_is_pos, lemma_fundamental_div_mod, lemma_fundamental_div_mod_converse,
    lemma_mod_multiples_basic,
};
use vstd::arithmetic::power2::{
    lemma2_to64, lemma2_to64_rest, lemma_pow2_adds, lemma_pow2_pos, lemma_pow2_unfold, pow2,
};
use vstd::prelude::*;

verus! {

/// Numbers of 24 significant bits lie below this many grains.
pub const SINGLE: u64 = 0x100_0000;

/// Numbers of 53 significant bits lie below this many grains.
pub const DOUBLE: u64 = 0x20_0000_0000_0000;

/// A precision: that of single or of double floating point.
pub open spec fn is_precision(top: int) -> bool {
    top == SINGLE || top == DOUBLE
}

/// The smallest of `u`, `2u`, `4u` and so on of which `x` holds fewer than `top`.
pub open spec fn grain_from(x: int, u: int, top: int) -> int
    decreases 2 * x + 1 - u,
{
    if u <= 0 || x < u || x / top < u {
        u
    } else {
        grain_from(x, 2 * u, top)
    }
}

/// `x` in whole grains, the nearest of them, the even one of two.
pub open spec fn in_grains(x: int, u: int) -> int {
    let q = x / u;
    let rest = x % u;
    if 2 * rest > u || (2 * rest == u && q % 2 == 1) {
        (q + 1) * u
    } else {
        q * u
    }
}

/// The grain of numbers as large as `x`.
pub open spec fn grain_of(x: int, top: int) -> int {
    grain_from(x, 1, top)
}

/// `x` rounded to the numbers below `top` grains.
#[verifier::opaque]
pub open spec fn rounded_to(x: int, top: int) -> int {
    if x < 0 {
        -in_grains(-x, grain_of(-x, top))
    } else {
        in_grains(x, grain_of(x, top))
    }
}

/// The ratio of `n` to `d`, rounded to the numbers below `top` grains.
#[verifier::opaque]
pub open spec fn ratio_to(n: int, d: int, top: int) -> int {
    in_grains(n, d * grain_of(n / d, top)) / d
}

proof fn lemma_below(x: int, u: int, top: int)
    requires
        top > 0,
    ensures
        x / top < u <==> x < u * top,
{
    lemma_fundamental_div_mod(x, top);
    let q = x / top;
    if q < u {
        assert((q + 1) * top <= u * top) by (nonlinear_arith)
            requires
                q + 1 <= u,
                top > 0,
        ;
        assert((q + 1) * top == top * q + top) by (nonlinear_arith);
    } else {
        assert(u * top <= q * top) by (nonlinear_arith)
            requires
                u <= q,
                top > 0,
        ;
        assert(q * top == top * q) by (nonlinear_arith);
    }
}

/// A grain is a power of two; fewer than `top` of it make up the number, and, but for the
/// finest, no fewer than half of `top`.
pub proof fn lemma_grain(x: int, i: nat, top: int) -> (j: nat)
    requires
        is_precision(top),
        x >= 0,
        i == 0 || pow2(i) * top <= 2 * x,
    ensures
        grain_from(x, pow2(i) as int, top) == pow2(j),
        i <= j,
        x < pow2(j) * top,
        j == 0 || pow2(j) * top <= 2 * x,
    decreases 2 * x + 1 - pow2(i),
{
    let u = pow2(i) as int;
    lemma_pow2_pos(i);
    lemma_below(x, u, top);
    if x < u {
        assert(u <= u * top) by (nonlinear_arith)
            requires
                u > 0,
                top >= 1,
        ;
    }
    if x < u || x / top < u {
        i
    } else {
        lemma_pow2_unfold(i + 1);
        assert((2 * u) * top == 2 * (u * top)) by (nonlinear_arith);
        lemma_grain(x, i + 1, top)
    }
}

/// The grain of a number, as `lemma_grain` gives it from the finest on.
pub proof fn lemma_grain_of(x: int, top: int) -> (j: nat)
    requires
        is_precision(top),
        x >= 0,
    ensures
        grain_of(x, top) == pow2(j),
        pow2(j) > 0,
        x < pow2(j) * top,
        j == 0 || pow2(j) * top <= 2 * x,
{
    lemma2_to64();
    let j = lemma_grain(x, 0, top);
    lemma_pow2_pos(j);
    j
}

/// Rounding to grains moves a number by half a grain at most.
pub proof fn lemma_in_grains(x: int, u: int)
    requires
        u > 0,
        x >= 0,
    ensures
        0 <= in_grains(x, u),
        in_grains(x, u) == (x / u) * u || in_grains(x, u) == (x / u + 1) * u,
        in_grains(x, u) % u == 0,
        2 * (in_grains(x, u) - x) <= u,
        2 * (x - in_grains(x, u)) <= u,
        x % u == 0 ==> in_grains(x, u) == x,
{
    let q = x / u;
    lemma_fundamental_div_mod(x, u);
    lemma_div_pos_is_pos(x, u);
    assert((q + 1) * u == q * u + u) by (nonlinear_arith);
    assert(q * u == u * q) by (nonlinear_arith);
    assert(q * u >= 0) by (nonlinear_arith)
        requires
            q >= 0,
            u > 0,
    ;
    lemma_mod_multiples_basic(q, u);
    lemma_mod_multiples_basic(q + 1, u);
}

/// No number of the grid `k * u` lies between a number and what it is rounded to.
proof fn lemma_in_grains_from(x: int, u: int, k: int)
    requires
        u > 0,
        x >= 0,
    ensures
        k * u <= x ==> k * u <= in_grains(x, u),
        x <= k * u ==> in_grains(x, u) <= k * u,
{
    let q = x / u;
    lemma_in_grains(x, u);
    lemma_fundamental_div_mod(x, u);
    assert((q + 1) * u == q * u + u && q * u == u * q) by (nonlinear_arith);
    if k * u <= x {
        assert(k <= q) by (nonlinear_arith)
            requires
                k * u <= x,
                x < (q + 1) * u,
                u > 0,
        ;
        assert(k * u <= q * u) by (nonlinear_arith)
            requires
                k <= q,
                u > 0,
        ;
    }
    if x <= k * u {
        assert(q <= k) by (nonlinear_arith)
            requires
                q * u <= x,
                x <= k * u,
                u > 0,
        ;
        if q < k {
            assert((q + 1) * u <= k * u) by (nonlinear_arith)
                requires
                    q + 1 <= k,
                    u > 0,
            ;
        } else {
            assert(x == q * u);
            assert(x % u == 0);
        }
    }
}

/// Rounding moves a number by no more than one part in `top`, and not at all below `top`.
pub proof fn law_rounding_stays_close(x: int, top: int)
    requires
        is_precision(top),
    ensures
        x >= 0 ==> rounded_to(x, top) >= 0,
        x <= 0 ==> rounded_to(x, top) <= 0,
        -top < x < top ==> rounded_to(x, top) == x,
        x >= 0 ==> top * (rounded_to(x, top) - x) <= x && top * (x - rounded_to(x, top)) <= x,
        x < 0 ==> top * (x - rounded_to(x, top)) <= -x && top * (rounded_to(x, top) - x) <= -x,
{
    reveal(rounded_to);
    let m = if x < 0 {
        -x
    } else {
        x
    };
    let j = lemma_grain_of(m, top);
    let u = pow2(j) as int;
    lemma_in_grains(m, u);
    lemma2_to64();
    let d = in_grains(m, u) - m;
    if j == 0 {
        assert(m % 1 == 0);
        assert(d == 0);
        assert(top * 0 == 0);
    } else {
        if m < top {
            lemma_pow2_unfold(j);
            lemma_pow2_pos((j - 1) as nat);
            assert(u * top >= 2 * top) by (nonlinear_arith)
                requires
                    u >= 2,
                    top > 0,
            ;
        }
        assert(top * d <= m && top * (-d) <= m) by (nonlinear_arith)
            requires
                2 * d <= u,
                -2 * d <= u,
                u * top <= 2 * m,
                top > 0,
        ;
    }
    assert(top * -d == -(top * d)) by (nonlinear_arith);
}

/// A whole number of grains is rounded to itself.
pub proof fn law_grains_stay(k: int, j: nat, top: int)
    requires
        is_precision(top),
        -top <= k <= top,
    ensures
        rounded_to(k * pow2(j), top) == k * pow2(j),
{
    reveal(rounded_to);
    let m = if k < 0 {
        -k
    } else {
        k
    };
    lemma_pow2_pos(j);
    let x = m * pow2(j);
    assert(x >= 0) by (nonlinear_arith)
        requires
            m >= 0,
            pow2(j) > 0,
            x == m * pow2(j),
    ;
    let i = lemma_grain_of(x, top);
    lemma2_to64();
    if i > j {
        lemma_pow2_adds(j, (i - j) as nat);
        lemma_pow2_unfold((i - j) as nat);
        lemma_pow2_pos((i - j - 1) as nat);
        let v = pow2((i - j) as nat) as int;
        let w = pow2(j) as int;
        assert(v * top <= 2 * m) by (nonlinear_arith)
            requires
                (w * v) * top <= 2 * (m * w),
                w > 0,
        ;
        assert(2 * top <= v * top) by (nonlinear_arith)
            requires
                v >= 2,
                top > 0,
        ;
        assert(m == top);
        if v > 2 {
            lemma_pow2_unfold((i - j - 1) as nat);
            assert(4 * top <= v * top) by (nonlinear_arith)
                requires
                    v >= 4,
                    top > 0,
            ;
        }
        let half = top / 2;
        assert(m * w == half * (w * v)) by (nonlinear_arith)
            requires
                v == 2,
                m == 2 * half,
        ;
        lemma_mod_multiples_basic(half, w * v);
    } else {
        lemma_pow2_adds(i, (j - i) as nat);
        let v = pow2((j - i) as nat) as int;
        let w = pow2(i) as int;
        assert(m * (w * v) == (m * v) * w) by (nonlinear_arith);
        lemma_mod_multiples_basic(m * v, w);
    }
    lemma_in_grains(x, pow2(i) as int);
    assert(k * pow2(j) == if k < 0 { -x } else { x }) by (nonlinear_arith)
        requires
            x == m * pow2(j),
            m == (if k < 0 { -k } else { k }),
    ;
}

/// What was rounded is some whole number of grains, `top` of them at most.
pub proof fn lemma_rounded_grains(x: int, top: int) -> (r: (int, nat))
    requires
        is_precision(top),
    ensures
        rounded_to(x, top) == r.0 * pow2(r.1),
        -top <= r.0 <= top,
{
    reveal(rounded_to);
    let m = if x < 0 {
        -x
    } else {
        x
    };
    let j = lemma_grain_of(m, top);
    let u = pow2(j) as int;
    lemma_in_grains(m, u);
    lemma_below(m, u, top);
    let q = m / u;
    lemma_fundamental_div_mod(m, u);
    lemma_div_pos_is_pos(m, u);
    assert(q < top) by (nonlinear_arith)
        requires
            u * q <= m,
            m < u * top,
            u > 0,
    ;
    let k = if in_grains(m, u) == q * u {
        q
    } else {
        q + 1
    };
    assert((-k) * u == -(k * u)) by (nonlinear_arith);
    if x < 0 {
        (-k, j)
    } else {
        (k, j)
    }
}

/// What was rounded once is not moved by rounding again.
pub proof fn law_rounding_settles(x: int, top: int)
    requires
        is_precision(top),
    ensures
        rounded_to(rounded_to(x, top), top) == rounded_to(x, top),
{
    let r = lemma_rounded_grains(x, top);
    law_grains_stay(r.0, r.1, top);
}

proof fn lemma_grain_doubles(x: int, i: nat, top: int)
    requires
        is_precision(top),
        x >= 0,
    ensures
        grain_from(2 * x, 2 * (pow2(i) as int), top) == 2 * grain_from(x, pow2(i) as int, top),
    decreases 2 * x + 1 - pow2(i),
{
    let u = pow2(i) as int;
    lemma_pow2_pos(i);
    lemma_below(x, u, top);
    lemma_below(2 * x, 2 * u, top);
    assert((2 * u) * top == 2 * (u * top)) by (nonlinear_arith);
    if !(x < u || x / top < u) {
        lemma_pow2_unfold(i + 1);
        lemma_grain_doubles(x, i + 1, top);
    }
}

proof fn lemma_in_grains_doubles(x: int, u: int)
    requires
        u > 0,
        x >= 0,
    ensures
        in_grains(2 * x, 2 * u) == 2 * in_grains(x, u),
{
    let q = x / u;
    let rest = x % u;
    lemma_fundamental_div_mod(x, u);
    vstd::arithmetic::div_mod::lemma_mod_bound(x, u);
    assert(2 * x == q * (2 * u) + 2 * rest) by (nonlinear_arith)
        requires
            x == u * q + rest,
    ;
    lemma_fundamental_div_mod_converse(2 * x, 2 * u, q, 2 * rest);
    assert(q * (2 * u) == 2 * (q * u)) by (nonlinear_arith);
    assert((q + 1) * (2 * u) == 2 * ((q + 1) * u)) by (nonlinear_arith);
}

proof fn lemma_rounding_doubles(x: int, top: int)
    requires
        is_precision(top),
    ensures
        rounded_to(2 * x, top) == 2 * rounded_to(x, top),
{
    let m = if x < 0 {
        -x
    } else {
        x
    };
    lemma2_to64();
    if 2 * m < top {
        law_rounding_stays_close(x, top);
        law_rounding_stays_close(2 * x, top);
    } else {
        reveal(rounded_to);
        let j = lemma_grain_of(m, top);
        lemma_grain_doubles(m, 0, top);
        lemma_below(2 * m, 1, top);
        assert(grain_of(2 * m, top) == grain_from(2 * m, 2, top));
        lemma_in_grains_doubles(m, pow2(j) as int);
    }
}

/// Rounding does not see a power of two.
pub proof fn law_rounding_scales(x: int, j: nat, top: int)
    requires
        is_precision(top),
    ensures
        rounded_to(x * pow2(j), top) == rounded_to(x, top) * pow2(j),
    decreases j,
{
    lemma2_to64();
    if j > 0 {
        law_rounding_scales(x, (j - 1) as nat, top);
        lemma_pow2_unfold(j);
        lemma_rounding_doubles(x * pow2((j - 1) as nat), top);
        let w = pow2((j - 1) as nat) as int;
        let r = rounded_to(x, top);
        assert(x * (2 * w) == 2 * (x * w) && r * (2 * w) == 2 * (r * w)) by (nonlinear_arith);
    } else {
        assert(x * 1 == x && rounded_to(x, top) * 1 == rounded_to(x, top));
    }
}

/// No power of two times `k`, `top` at most, lies between a number and what it is rounded
/// to.
pub proof fn law_rounding_keeps_side(x: int, k: int, j: nat, top: int)
    requires
        is_precision(top),
        x >= 0,
        0 <= k <= top,
    ensures
        k * pow2(j) <= x ==> k * pow2(j) <= rounded_to(x, top),
        x <= k * pow2(j) ==> rounded_to(x, top) <= k * pow2(j),
{
    reveal(rounded_to);
    let w = pow2(j) as int;
    lemma_pow2_pos(j);
    let i = lemma_grain_of(x, top);
    let u = pow2(i) as int;
    lemma_in_grains(x, u);
    lemma2_to64();
    if i <= j {
        lemma_pow2_adds(i, (j - i) as nat);
        let v = pow2((j - i) as nat) as int;
        assert(k * (u * v) == (k * v) * u) by (nonlinear_arith);
        lemma_in_grains_from(x, u, k * v);
    } else {
        // The number reaches half of `top` grains, all of them coarser than `w`.
        lemma_pow2_adds(j, (i - j) as nat);
        lemma_pow2_unfold((i - j) as nat);
        lemma_pow2_pos((i - j - 1) as nat);
        let v = pow2((i - j) as nat) as int;
        let half = top / 2;
        assert(half * u <= x) by (nonlinear_arith)
            requires
                u * top <= 2 * x,
                top == 2 * half,
        ;
        lemma_in_grains_from(x, u, half);
        assert(k * w <= half * u) by (nonlinear_arith)
            requires
                u == w * v,
                v >= 2,
                w > 0,
                k <= 2 * half,
                half > 0,
        ;
        if x <= k * w {
            assert(x == half * u);
            lemma_in_grains_from(x, u, half);
        }
    }
}

fn grain(x: u128, top: u64) -> (u: u128)
    requires
        is_precision(top as int),
        x < 0x8000_0000_0000_0000_0000_0000_0000_0000,
    ensures
        u == grain_of(x as int, top as int),
        0 < u <= 0x8000_0000_0000_0000_0000_0000_0000_0000,
{
    let most: u128 = x / top as u128;
    let mut u: u128 = 1;
    proof {
        assert(most <= x) by (nonlinear_arith)
            requires
                most == x / top as u128,
                top >= 1,
        ;
    }
    while u <= most
        invariant
            0 < u <= 0x8000_0000_0000_0000_0000_0000_0000_0000,
            most == x / top as u128,
            most <= x < 0x8000_0000_0000_0000_0000_0000_0000_0000,
            top >= 2,
            u <= most || u == 1 || u <= 2 * most,
            grain_of(x as int, top as int) == grain_from(x as int, u as int, top as int),
        decreases 2 * most + 1 - u,
    {
        proof {
            assert(u < 0x4000_0000_0000_0000_0000_0000_0000_0000) by (nonlinear_arith)
                requires
                    u <= most,
                    most == x / top as u128,
                    x < 0x8000_0000_0000_0000_0000_0000_0000_0000,
                    top >= 2,
            ;
        }
        u = 2 * u;
    }
    u
}

fn to_grains(x: u128, u: u128) -> (r: u128)
    requires
        x < 0x8000_0000_0000_0000_0000_0000_0000_0000,
        0 < u <= 0x8000_0000_0000_0000_0000_0000_0000_0000,
    ensures
        r == in_grains(x as int, u as int),
{
    let q: u128 = x / u;
    let rest: u128 = x % u;
    proof {
        lemma_in_grains(x as int, u as int);
        lemma_fundamental_div_mod(x as int, u as int);
        assert(q * u == u * q) by (nonlinear_arith);
        assert((q + 1) * u == q * u + u) by (nonlinear_arith);
        assert(0 <= q * u) by (nonlinear_arith)
            requires
                q >= 0,
                u > 0,
        ;
        assert(q <= x) by (nonlinear_arith)
            requires
                q == x / u,
                u >= 1,
        ;
    }
    if rest > u - rest || (rest == u - rest && q % 2 == 1) {
        (q + 1) * u
    } else {
        q * u
    }
}

/// A number held to what an `i128` can hold of either sign.
pub open spec fn held(n: int) -> int {
    if n > i128::MAX {
        i128::MAX as int
    } else if n < -i128::MAX {
        -i128::MAX
    } else {
        n
    }
}

/// A number rounded, and held to what an `i128` can hold.
pub fn round_to(x: i128, top: u64) -> (r: i128)
    requires
        is_precision(top as int),
        x > i128::MIN,
    ensures
        r == held(rounded_to(x as int, top as int)),
{
    proof {
        reveal(rounded_to);
        law_rounding_stays_close(x as int, top as int);
    }
    let m: u128 = if x < 0 {
        (-x) as u128
    } else {
        x as u128
    };
    let near: u128 = to_grains(m, grain(m, top));
    let kept: i128 = if near > i128::MAX as u128 {
        i128::MAX
    } else {
        near as i128
    };
    if x < 0 {
        -kept
    } else {
        kept
    }
}

/// A number beyond what an `i128` can hold stays beyond it.
proof fn lemma_beyond(x: int, top: int)
    requires
        is_precision(top),
    ensures
        x > i128::MAX ==> rounded_to(x, top) > i128::MAX,
        x < -i128::MAX ==> rounded_to(x, top) < -i128::MAX,
{
    lemma2_to64();
    lemma2_to64_rest();
    lemma_pow2_adds(63, 64);
    if x > i128::MAX {
        law_rounding_keeps_side(x, 1, 127, top);
    }
    if x < -i128::MAX {
        law_rounding_keeps_side(-x, 1, 127, top);
        reveal(rounded_to);
    }
}

/// A sum rounded, and held to what an `i128` can hold.
pub fn round_sum(a: i128, b: i128, top: u64) -> (r: i128)
    requires
        is_precision(top as int),
    ensures
        r == held(rounded_to(a + b, top as int)),
{
    proof {
        lemma_beyond(a + b, top as int);
    }
    match a.checked_add(b) {
        Some(x) => if x > i128::MIN {
            round_to(x, top)
        } else {
            -i128::MAX
        },
        None => if a < 0 {
            -i128::MAX
        } else {
            i128::MAX
        },
    }
}

/// A difference rounded, and held to what an `i128` can hold.
pub fn round_difference(a: i128, b: i128, top: u64) -> (r: i128)
    requires
        is_precision(top as int),
    ensures
        r == held(rounded_to(a - b, top as int)),
{
    proof {
        lemma_beyond(a - b, top as int);
    }
    match a.checked_sub(b) {
        Some(x) => if x > i128::MIN {
            round_to(x, top)
        } else {
            -i128::MAX
        },
        None => if a < 0 {
            -i128::MAX
        } else {
            i128::MAX
        },
    }
}

/// A rounded ratio is a whole number of grains, `top` of them at most.
pub proof fn lemma_ratio(n: int, d: int, top: int)
    requires
        is_precision(top),
        n >= 0,
        d > 0,
    ensures
        0 <= ratio_to(n, d, top),
        d * grain_of(n / d, top) > 0,
        in_grains(n, d * grain_of(n / d, top)) == d * ratio_to(n, d, top),
        rounded_to(ratio_to(n, d, top), top) == ratio_to(n, d, top),
        2 * (d * ratio_to(n, d, top) - n) <= d * grain_of(n / d, top),
        2 * (n - d * ratio_to(n, d, top)) <= d * grain_of(n / d, top),
{
    reveal(ratio_to);
    lemma_div_pos_is_pos(n, d);
    let j = lemma_grain_of(n / d, top);
    let u = pow2(j) as int;
    let w = d * u;
    assert(w > 0) by (nonlinear_arith)
        requires
            d > 0,
            u > 0,
            w == d * u,
    ;
    lemma_in_grains(n, w);
    lemma_fundamental_div_mod(n, w);
    lemma_fundamental_div_mod(n, d);
    lemma_div_pos_is_pos(n, w);
    let q = n / w;
    assert(n < d * (n / d + 1)) by {
        assert(d * (n / d + 1) == d * (n / d) + d) by (nonlinear_arith);
        vstd::arithmetic::div_mod::lemma_mod_bound(n, d);
    }
    assert(q < top) by (nonlinear_arith)
        requires
            (d * u) * q <= n,
            n < d * (n / d + 1),
            n / d + 1 <= u * top,
            d > 0,
            u > 0,
            w == d * u,
            q >= 0,
    ;
    let k = if in_grains(n, w) == q * w {
        q
    } else {
        q + 1
    };
    assert(k * w == d * (k * u)) by (nonlinear_arith)
        requires
            w == d * u,
    ;
    lemma_fundamental_div_mod_converse(k * w, d, k * u, 0);
    assert(k * u >= 0) by (nonlinear_arith)
        requires
            k >= 0,
            u > 0,
    ;
    law_grains_stay(k, j, top);
}

/// A ratio rounded.
pub fn round_ratio(n: u128, d: u64, top: u64) -> (r: u128)
    requires
        is_precision(top as int),
        n < 0x8000_0000_0000_0000_0000_0000_0000_0000,
        d > 0,
    ensures
        r == ratio_to(n as int, d as int, top as int),
{
    let whole: u128 = n / d as u128;
    proof {
        lemma_ratio(n as int, d as int, top as int);
        reveal(ratio_to);
        assert(whole <= n) by (nonlinear_arith)
            requires
                whole == n / d as u128,
                d >= 1,
        ;
        let j = lemma_grain_of(whole as int, top as int);
        let u = pow2(j) as int;
        lemma2_to64();
        lemma_fundamental_div_mod(n as int, d as int);
        assert(j > 0 ==> d * u <= n) by (nonlinear_arith)
            requires
                d > 0,
                j > 0 ==> u * top <= 2 * whole,
                top >= 2,
                d * whole <= n,
                u > 0,
        ;
    }
    let u: u128 = grain(whole, top);
    proof {
        assert(d * 1 == d);
    }
    to_grains(n, d as u128 * u) / d as u128
}

/// Larger numbers have no finer grains.
pub proof fn lemma_grains_grow(x: int, y: int, top: int)
    requires
        is_precision(top),
        0 <= x <= y,
    ensures
        0 < grain_of(x, top) <= grain_of(y, top),
{
    let i = lemma_grain_of(x, top);
    let j = lemma_grain_of(y, top);
    lemma_finer(x, i, j, top);
    if i < j {
        vstd::arithmetic::power2::lemma_pow2_strictly_increases(i, j);
    }
}

/// The grains of a rounded ratio.
proof fn lemma_ratio_grains(n: int, d: int, top: int) -> (r: (int, nat))
    requires
        is_precision(top),
        n >= 0,
        d > 0,
    ensures
        ({
            let u = pow2(r.1) as int;
            let w = d * u;
            let q = n / w;
            &&& u == grain_of(n / d, top)
            &&& u > 0
            &&& w > 0
            &&& ratio_to(n, d, top) == r.0 * u
            &&& r.0 == if 2 * (n % w) > w || (2 * (n % w) == w && q % 2 == 1) {
                q + 1
            } else {
                q
            }
            &&& 0 <= q < top
            &&& r.1 > 0 ==> top <= 2 * q
        }),
{
    reveal(ratio_to);
    lemma_ratio(n, d, top);
    lemma_div_pos_is_pos(n, d);
    lemma_fundamental_div_mod(n, d);
    vstd::arithmetic::div_mod::lemma_mod_bound(n, d);
    let j = lemma_grain_of(n / d, top);
    let u = pow2(j) as int;
    let w = d * u;
    let q = n / w;
    lemma_fundamental_div_mod(n, w);
    vstd::arithmetic::div_mod::lemma_mod_bound(n, w);
    lemma_div_pos_is_pos(n, w);
    assert(d * (n / d + 1) == d * (n / d) + d) by (nonlinear_arith);
    assert(q < top) by (nonlinear_arith)
        requires
            w * q <= n,
            n < d * (n / d + 1),
            n / d + 1 <= u * top,
            d > 0,
            u > 0,
            w == d * u,
            q >= 0,
    ;
    if j > 0 {
        let half = top / 2;
        assert(w * half <= n) by (nonlinear_arith)
            requires
                u * (2 * half) <= 2 * (n / d),
                d * (n / d) <= n,
                w == d * u,
                d > 0,
        ;
        assert(half <= q) by (nonlinear_arith)
            requires
                w * half <= n,
                n < w * q + w,
                w > 0,
        ;
    }
    let k = if 2 * (n % w) > w || (2 * (n % w) == w && q % 2 == 1) {
        q + 1
    } else {
        q
    };
    assert(k * w == d * (k * u)) by (nonlinear_arith)
        requires
            w == d * u,
    ;
    lemma_fundamental_div_mod_converse(k * w, d, k * u, 0);
    (k, j)
}

/// The ratio to a greater number is no greater.
pub proof fn law_ratios_fall(n: int, a: int, b: int, top: int)
    requires
        is_precision(top),
        n >= 0,
        0 < a <= b,
    ensures
        ratio_to(n, b, top) <= ratio_to(n, a, top),
{
    let (k, i) = lemma_ratio_grains(n, a, top);
    let (l, j) = lemma_ratio_grains(n, b, top);
    vstd::arithmetic::div_mod::lemma_div_is_ordered_by_denominator(n, a, b);
    lemma_div_pos_is_pos(n, b);
    lemma_grains_grow(n / b, n / a, top);
    let (u, v) = (pow2(i) as int, pow2(j) as int);
    if i == j {
        let (wa, wb) = (a * u, b * u);
        let (qa, qb) = (n / wa, n / wb);
        assert(wa <= wb) by (nonlinear_arith)
            requires
                a <= b,
                u > 0,
                wa == a * u,
                wb == b * u,
        ;
        vstd::arithmetic::div_mod::lemma_div_is_ordered_by_denominator(n, wa, wb);
        lemma_fundamental_div_mod(n, wa);
        lemma_fundamental_div_mod(n, wb);
        if qa == qb {
            assert(wa * qa <= wb * qa) by (nonlinear_arith)
                requires
                    wa <= wb,
                    qa >= 0,
            ;
        }
        assert(l * u <= k * u) by (nonlinear_arith)
            requires
                l <= k,
                u > 0,
        ;
    } else {
        if i < j {
            vstd::arithmetic::power2::lemma_pow2_strictly_increases(i, j);
        }
        lemma_pow2_unfold(i);
        if i > j + 1 {
            vstd::arithmetic::power2::lemma_pow2_strictly_increases(j, (i - 1) as nat);
        }
        let half = top / 2;
        assert(l * v <= (2 * half) * v) by (nonlinear_arith)
            requires
                l <= 2 * half,
                v > 0,
        ;
        assert((2 * half) * v <= half * u) by (nonlinear_arith)
            requires
                2 * v <= u,
                half >= 0,
        ;
        assert(half * u <= k * u) by (nonlinear_arith)
            requires
                half <= k,
                u > 0,
        ;
    }
}

/// Rounding keeps the order of numbers from zero on.
pub proof fn law_rounding_is_ordered(x: int, y: int, top: int)
    requires
        is_precision(top),
        0 <= x <= y,
    ensures
        rounded_to(x, top) <= rounded_to(y, top),
{
    let g = lemma_rounded_grains(x, top);
    lemma_pow2_pos(g.1);
    law_rounding_stays_close(x, top);
    assert(g.0 >= 0) by (nonlinear_arith)
        requires
            g.0 * pow2(g.1) >= 0,
            pow2(g.1) > 0,
    ;
    let h = lemma_rounded_grains(y, top);
    lemma_pow2_pos(h.1);
    law_rounding_stays_close(y, top);
    assert(h.0 >= 0) by (nonlinear_arith)
        requires
            h.0 * pow2(h.1) >= 0,
            pow2(h.1) > 0,
    ;
    if rounded_to(x, top) > y {
        // What `x` is rounded up to would lie beyond `y`, and `y` beyond its own.
        law_rounding_keeps_side(x, h.0, h.1, top);
        law_rounding_keeps_side(y, g.0, g.1, top);
        lemma_same_rounding(x, y, top);
    } else {
        law_rounding_keeps_side(y, g.0, g.1, top);
    }
}

/// A rounded ratio is off by one part in `top` at most, or by half a part of the whole.
pub proof fn law_ratios_stay_close(n: int, d: int, top: int)
    requires
        is_precision(top),
        n >= 0,
        d > 0,
    ensures
        ratio_to(n, d, top) >= 0,
        2 * top * (d * ratio_to(n, d, top) - n) <= 2 * n + top * d,
        2 * top * (n - d * ratio_to(n, d, top)) <= 2 * n + top * d,
{
    lemma_ratio(n, d, top);
    lemma_div_pos_is_pos(n, d);
    let j = lemma_grain_of(n / d, top);
    let u = pow2(j) as int;
    let (q, r) = (n / d, ratio_to(n, d, top));
    vstd::arithmetic::div_mod::lemma_fundamental_div_mod(n, d);
    lemma2_to64();
    let e = d * r - n;
    assert(0 < d * u && top * (d * u) <= 2 * n + top * d) by (nonlinear_arith)
        requires
            u > 0,
            d > 0,
            top > 0,
            n >= 0,
            q >= 0,
            d * q <= n,
            u == 1 || u * top <= 2 * q,
    ;
    assert(top * (2 * e) <= top * (d * u) && top * (-2 * e) <= top * (d * u)) by (nonlinear_arith)
        requires
            top > 0,
            2 * e <= d * u,
            -2 * e <= d * u,
    ;
    assert(2 * top * e == top * (2 * e)) by (nonlinear_arith);
    assert(2 * top * (n - d * r) == top * (-2 * e)) by (nonlinear_arith)
        requires
            e == d * r - n,
    ;
}

/// The ratio of a greater number is no lower.
pub proof fn law_ratios_rise(n: int, m: int, d: int, top: int)
    requires
        is_precision(top),
        0 <= n <= m,
        d > 0,
    ensures
        ratio_to(n, d, top) <= ratio_to(m, d, top),
{
    let (k, i) = lemma_ratio_grains(n, d, top);
    let (l, j) = lemma_ratio_grains(m, d, top);
    vstd::arithmetic::div_mod::lemma_div_is_ordered(n, m, d);
    lemma_div_pos_is_pos(n, d);
    lemma_grains_grow(n / d, m / d, top);
    let (u, v) = (pow2(i) as int, pow2(j) as int);
    if i == j {
        let w = d * u;
        vstd::arithmetic::div_mod::lemma_div_is_ordered(n, m, w);
        lemma_fundamental_div_mod(n, w);
        lemma_fundamental_div_mod(m, w);
        assert(k * u <= l * u) by (nonlinear_arith)
            requires
                k <= l,
                u > 0,
        ;
    } else {
        if j < i {
            vstd::arithmetic::power2::lemma_pow2_strictly_increases(j, i);
        }
        lemma_pow2_unfold(j);
        if j > i + 1 {
            vstd::arithmetic::power2::lemma_pow2_strictly_increases(i, (j - 1) as nat);
        }
        let half = top / 2;
        assert(k * u <= (2 * half) * u) by (nonlinear_arith)
            requires
                k <= 2 * half,
                u > 0,
        ;
        assert((2 * half) * u <= half * v) by (nonlinear_arith)
            requires
                2 * u <= v,
                half >= 0,
        ;
        assert(half * v <= l * v) by (nonlinear_arith)
            requires
                half <= l,
                v > 0,
        ;
    }
}

/// Rounding keeps the order: what lies between a number and what it is rounded up to is
/// rounded no lower.
pub proof fn lemma_same_rounding(x: int, y: int, top: int)
    requires
        is_precision(top),
        0 <= x <= y,
        y < rounded_to(x, top),
    ensures
        rounded_to(x, top) <= rounded_to(y, top),
{
    reveal(rounded_to);
    let i = lemma_grain_of(x, top);
    let j = lemma_grain_of(y, top);
    let (u, v) = (pow2(i) as int, pow2(j) as int);
    lemma_in_grains(x, u);
    lemma_in_grains(y, v);
    lemma_fundamental_div_mod(x, u);
    lemma_fundamental_div_mod(y, v);
    let q = x / u;
    assert(in_grains(x, u) == (q + 1) * u);
    assert((q + 1) * u == q * u + u) by (nonlinear_arith);
    assert(q * u == u * q) by (nonlinear_arith);
    assert(q < top) by (nonlinear_arith)
        requires
            u * q <= x,
            x < u * top,
            u > 0,
    ;
    assert((q + 1) * u <= top * u) by (nonlinear_arith)
        requires
            q + 1 <= top,
            u > 0,
    ;
    assert(u * top == top * u) by (nonlinear_arith);
    lemma_grains_grow(x, y, top);
    lemma_finer(y, j, i, top);
    assert(i == j) by {
        if i > j {
            vstd::arithmetic::power2::lemma_pow2_strictly_increases(j, i);
        }
    }
    vstd::arithmetic::div_mod::lemma_div_is_ordered(x, y, u);
    assert(y / u == q) by {
        if y / u >= q + 1 {
            assert((q + 1) * u <= (y / u) * u) by (nonlinear_arith)
                requires
                    q + 1 <= y / u,
                    u > 0,
            ;
            assert((y / u) * u == u * (y / u)) by (nonlinear_arith);
        }
    }
}

/// A grain that a number does not reach half of `top` of is no finer than one that it does.
proof fn lemma_finer(x: int, i: nat, j: nat, top: int)
    requires
        is_precision(top),
        i == 0 || pow2(i) * top <= 2 * x,
        i > j ==> x < pow2(j) * top,
    ensures
        i <= j,
{
    if i > j {
        lemma_pow2_adds(j, (i - j) as nat);
        lemma_pow2_unfold((i - j) as nat);
        lemma_pow2_pos((i - j - 1) as nat);
        lemma_pow2_pos(j);
        let w = pow2(j) as int;
        let v = pow2((i - j) as nat) as int;
        assert(2 * (w * top) <= (w * v) * top) by (nonlinear_arith)
            requires
                v >= 2,
                w > 0,
                top > 0,
        ;
    }
}

/// Adding a step of at least `2^e` to a rounded number: what rounding takes of it is made
/// up by the coarser grain.
pub proof fn law_steps_add_up(g: int, s: int, e: nat, top: int)
    requires
        is_precision(top),
        g >= 0,
        rounded_to(g, top) == g,
        s >= pow2(e),
        2 * (g + s) < pow2(e) * top,
    ensures
        rounded_to(g + s, top) + grain_of(rounded_to(g + s, top), top) >= g + pow2(e)
            + grain_of(g, top),
{
    let y = g + s;
    let unit = pow2(e) as int;
    lemma_pow2_pos(e);
    let i = lemma_grain_of(g, top);
    let j = lemma_grain_of(y, top);
    lemma_finer(g, i, j, top);
    let u = pow2(i) as int;
    let w = pow2(j) as int;
    let r = rounded_to(y, top);
    law_rounding_stays_close(y, top);
    let m = lemma_grain_of(r, top);
    let half = top / 2;
    reveal(rounded_to);
    lemma_in_grains(g, u);
    lemma_in_grains(y, w);
    lemma2_to64();
    if i == j {
        assert(i <= e) by {
            if i > e {
                lemma_finer(g + s, i, e, top);
            }
        }
        lemma_pow2_adds(i, (e - i) as nat);
        let v = pow2((e - i) as nat) as int;
        lemma_fundamental_div_mod(g, u);
        let k = g / u + v;
        assert(g + unit == k * u) by (nonlinear_arith)
            requires
                g == u * (g / u),
                unit == u * v,
                k == g / u + v,
        ;
        lemma_div_pos_is_pos(g, u);
        lemma_pow2_pos((e - i) as nat);
        assert(k <= top) by (nonlinear_arith)
            requires
                k * u <= y,
                y < u * top,
                u > 0,
        ;
        law_rounding_keeps_side(y, k, i, top);
        lemma_grains_grow(g, r, top);
    } else {
        lemma_pow2_adds(i, (j - i) as nat);
        lemma_pow2_unfold((j - i) as nat);
        lemma_pow2_pos((j - i - 1) as nat);
        let v = pow2((j - i) as nat) as int;
        assert(2 * u <= w) by (nonlinear_arith)
            requires
                w == u * v,
                v >= 2,
                u > 0,
        ;
        assert(half * w <= y) by (nonlinear_arith)
            requires
                w * top <= 2 * y,
                top == 2 * half,
        ;
        law_rounding_keeps_side(y, half, j, top);
        assert(w * top <= 2 * r) by (nonlinear_arith)
            requires
                half * w <= r,
                top == 2 * half,
        ;
        lemma_finer(r, j, m, top);
        if j < m {
            vstd::arithmetic::power2::lemma_pow2_strictly_increases(j, m);
        }
    }
}

/// `x` rounded to 24 significant bits.
pub open spec fn single(x: int) -> int {
    rounded_to(x, SINGLE as int)
}

/// A number rounded to 24 significant bits.
pub fn round_single(x: i64) -> (r: i64)
    requires
        -0x1000_0000_0000_0000 <= x <= 0x1000_0000_0000_0000,
    ensures
        r == single(x as int),
{
    proof {
        law_rounding_stays_close(x as int, SINGLE as int);
    }
    round_to(x as i128, SINGLE) as i64
}

} // verus!
