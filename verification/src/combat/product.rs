//! Products of quantities. Each product of a row is rounded to 53 significant bits before
//! the next factor comes in.

use crate::combat::math::as_small;
use crate::combat::number::rounded;
use crate::rounding::{
    grain_of, law_rounding_scales, lemma_grain_of, lemma_in_grains, rounded_to, DOUBLE,
};
use vstd::arithmetic::power2::{
    lemma2_to64, lemma2_to64_rest, lemma_pow2_adds, lemma_pow2_pos, lemma_pow2_unfold, pow2,
};
use vstd::prelude::*;

verus! {

/// The product of two numbers, rounded. Where `a` is in parts of 2^i and `b` in parts of
/// 2^j, the product is in parts of 2^(i + j).
pub open spec fn product(a: int, b: int) -> int {
    rounded(a * b)
}

/// The whole of a number in parts of 2^bits, cut towards zero and held to the range of
/// `i32`.
pub open spec fn whole_small(n: int, bits: nat) -> int {
    as_small(
        if n < 0 {
            -(-n / (pow2(bits) as int))
        } else {
            n / (pow2(bits) as int)
        },
    )
}

/// A number of 53 significant bits: `m * 2^s`.
#[derive(Clone, Copy)]
pub(crate) struct Scaled {
    m: i128,
    s: u32,
}

impl Scaled {
    pub closed spec fn val(self) -> int {
        self.m * pow2(self.s as nat)
    }

    pub closed spec fn wf(self) -> bool {
        -0x20_0000_0000_0000 <= self.m <= 0x20_0000_0000_0000
    }

    pub closed spec fn shift(self) -> nat {
        self.s as nat
    }

    /// A number rounded.
    fn narrow(x: i128) -> (r: Scaled)
        requires
            x > i128::MIN,
        ensures
            r.wf(),
            r.val() == rounded(x as int),
            r.shift() <= 127,
    {
        let ghost top = DOUBLE as int;
        let minus: bool = x < 0;
        let a: i128 = if minus {
            -x
        } else {
            x
        };
        let most: i128 = a / 0x20_0000_0000_0000;
        let mut u: i128 = 1;
        let mut s: u32 = 0;
        proof {
            lemma2_to64();
        }
        while u <= most
            invariant
                0 <= a <= i128::MAX,
                most == a / 0x20_0000_0000_0000,
                0 < u,
                s <= 127,
                u == pow2(s as nat),
                s == 0 || u <= 2 * most,
                top == DOUBLE,
                grain_of(a as int, top) == crate::rounding::grain_from(a as int, u as int, top),
            decreases 2 * most + 1 - u,
        {
            proof {
                lemma_pow2_unfold((s + 1) as nat);
                lemma2_to64();
                lemma2_to64_rest();
                if s >= 75 {
                    lemma_pow2_adds(64, 11);
                    lemma_pow2_adds(75, (s - 75) as nat);
                    lemma_pow2_pos((s - 75) as nat);
                    let v = pow2((s - 75) as nat) as int;
                    assert(pow2(75) * v >= pow2(75)) by (nonlinear_arith)
                        requires
                            v >= 1,
                            pow2(75) > 0,
                    ;
                }
            }
            u = 2 * u;
            s = s + 1;
        }
        let q: i128 = a / u;
        let rest: i128 = a % u;
        proof {
            let j = lemma_grain_of(a as int, top);
            vstd::arithmetic::div_mod::lemma_fundamental_div_mod(a as int, u as int);
            assert(q < top) by (nonlinear_arith)
                requires
                    u * q <= a,
                    a < u * top,
                    u > 0,
            ;
            vstd::arithmetic::div_mod::lemma_div_pos_is_pos(a as int, u as int);
        }
        let m: i128 = if rest > u - rest || (rest == u - rest && q % 2 == 1) {
            q + 1
        } else {
            q
        };
        proof {
            reveal(rounded_to);
            lemma_in_grains(a as int, u as int);
            assert((-m) * u == -(m * u)) by (nonlinear_arith);
        }
        if minus {
            Scaled { m: -m, s }
        } else {
            Scaled { m, s }
        }
    }

    /// A quantity that has 53 significant bits.
    pub fn of(x: i128) -> (r: Scaled)
        requires
            x > i128::MIN,
            rounded(x as int) == x,
        ensures
            r.wf(),
            r.val() == x,
            r.shift() <= 127,
    {
        Scaled::narrow(x)
    }

    pub fn times(self, other: Scaled) -> (r: Scaled)
        requires
            self.wf(),
            other.wf(),
            self.shift() + other.shift() <= 100_000,
        ensures
            r.wf(),
            r.val() == product(self.val(), other.val()),
            r.shift() <= self.shift() + other.shift() + 127,
    {
        proof {
            let a = self.m as int;
            let b = other.m as int;
            assert(-0x20_0000_0000_0000 * 0x20_0000_0000_0000 <= a * b <= 0x20_0000_0000_0000
                * 0x20_0000_0000_0000) by (nonlinear_arith)
                requires
                    -0x20_0000_0000_0000 <= a <= 0x20_0000_0000_0000,
                    -0x20_0000_0000_0000 <= b <= 0x20_0000_0000_0000,
            ;
        }
        let n: Scaled = Scaled::narrow(self.m * other.m);
        let r: Scaled = Scaled { m: n.m, s: n.s + (self.s + other.s) };
        proof {
            let i = self.s as nat;
            let j = other.s as nat;
            let x = self.m * other.m;
            lemma_pow2_adds(i, j);
            law_rounding_scales(x, i + j, DOUBLE as int);
            let (u, v) = (pow2(i) as int, pow2(j) as int);
            assert((self.m * u) * (other.m * v) == (self.m * other.m) * (u * v))
                by (nonlinear_arith);
            lemma_pow2_adds(n.s as nat, i + j);
            let w = pow2(n.s as nat) as int;
            let t = pow2(i + j) as int;
            assert(n.m * (w * t) == (n.m * w) * t) by (nonlinear_arith);
        }
        r
    }

    /// The whole of the number in parts of 2^bits, held to the range of `i32`.
    pub fn whole(self, bits: u32) -> (r: i32)
        requires
            self.wf(),
        ensures
            r == whole_small(self.val(), bits as nat),
    {
        let minus: bool = self.m < 0;
        let mut a: i128 = if minus {
            -self.m
        } else {
            self.m
        };
        let mut up: u32 = self.s;
        let mut down: u32 = bits;
        let ghost whole = shifted(a as int, up as nat, down as nat);
        proof {
            let p = pow2(self.s as nat) as int;
            lemma_pow2_pos(self.s as nat);
            assert((-self.m) * p == -(self.m * p)) by (nonlinear_arith);
            assert(self.m < 0 ==> self.m * p < 0) by (nonlinear_arith)
                requires
                    p > 0,
            ;
            assert(self.m >= 0 ==> self.m * p >= 0) by (nonlinear_arith)
                requires
                    p > 0,
            ;
        }
        while up > 0 && down > 0
            invariant
                0 <= a <= 0x20_0000_0000_0000,
                whole == shifted(a as int, up as nat, down as nat),
            decreases up,
        {
            proof {
                lemma_shifts_cancel(a as int, up as nat, down as nat);
            }
            up = up - 1;
            down = down - 1;
        }
        while down > 0
            invariant
                0 <= a <= 0x20_0000_0000_0000,
                up == 0 || down == 0,
                whole == shifted(a as int, up as nat, down as nat),
            decreases down,
        {
            proof {
                lemma_shift_down(a as int, down as nat);
            }
            a = a / 2;
            down = down - 1;
        }
        while up > 0 && a < 0x1_0000_0000
            invariant
                0 <= a <= 0x20_0000_0000_0000,
                down == 0,
                whole == shifted(a as int, up as nat, 0),
            decreases up,
        {
            proof {
                lemma_shift_up(a as int, up as nat);
            }
            a = 2 * a;
            up = up - 1;
        }
        proof {
            lemma2_to64();
            lemma_pow2_pos(up as nat);
            let p = pow2(up as nat) as int;
            assert(a * p >= a) by (nonlinear_arith)
                requires
                    a >= 0,
                    p >= 1,
            ;
            assert(up == 0 ==> p == 1);
            assert(a * 1 == a);
        }
        if a > i32::MAX as i128 {
            if !minus {
                i32::MAX
            } else if a > 0x8000_0000 {
                i32::MIN
            } else {
                -(a as i64) as i32
            }
        } else if minus {
            -(a as i32)
        } else {
            a as i32
        }
    }
}

/// `a * 2^up / 2^down`, cut.
spec fn shifted(a: int, up: nat, down: nat) -> int {
    (a * pow2(up)) / (pow2(down) as int)
}

proof fn lemma_shifts_cancel(a: int, up: nat, down: nat)
    requires
        up > 0,
        down > 0,
        a >= 0,
    ensures
        shifted(a, up, down) == shifted(a, (up - 1) as nat, (down - 1) as nat),
{
    lemma_pow2_unfold(up);
    lemma_pow2_unfold(down);
    lemma_pow2_pos((down - 1) as nat);
    let p = pow2((up - 1) as nat) as int;
    let d = pow2((down - 1) as nat) as int;
    assert(a * (2 * p) == 2 * (a * p)) by (nonlinear_arith);
    assert((2 * (a * p)) / (2 * d) == (a * p) / d) by {
        vstd::arithmetic::div_mod::lemma_div_multiples_vanish_quotient(2, a * p, d);
    }
}

proof fn lemma_shift_down(a: int, down: nat)
    requires
        down > 0,
        a >= 0,
    ensures
        shifted(a, 0, down) == shifted(a / 2, 0, (down - 1) as nat),
{
    lemma2_to64();
    lemma_pow2_unfold(down);
    lemma_pow2_pos((down - 1) as nat);
    let d = pow2((down - 1) as nat) as int;
    vstd::arithmetic::div_mod::lemma_div_denominator(a, 2, d);
    assert(a * 1 == a && (a / 2) * 1 == a / 2);
}

proof fn lemma_shift_up(a: int, up: nat)
    requires
        up > 0,
    ensures
        shifted(a, up, 0) == shifted(2 * a, (up - 1) as nat, 0),
{
    lemma_pow2_unfold(up);
    let p = pow2((up - 1) as nat) as int;
    assert(a * (2 * p) == (2 * a) * p) by (nonlinear_arith);
}

} // verus!
