//! Authored numbers, held as the bits of a double and compared by their place on the
//! number line.

use vstd::prelude::*;

verus! {

/// A double, held as its bits.
#[derive(Clone, Copy, Debug, PartialEq, Eq, Structural)]
pub struct Real {
    pub bits: u64,
}

/// The bit of the sign.
pub const SIGN: u64 = 0x8000_0000_0000_0000;

/// The bits of positive infinity; what is above it, the sign left out, is no number.
pub const INFINITE: u64 = 0x7ff0_0000_0000_0000;

/// The places of one, a fifth and 360 on the number line.
pub const ONE_RANK: i64 = 0x3ff0_0000_0000_0000;

pub const FIFTH_RANK: i64 = 0x3fc9_9999_9999_999a;

pub const FULL_TURN_RANK: i64 = 0x4076_8000_0000_0000;

impl Real {
    /// The bits without the sign.
    pub open spec fn magnitude(self) -> int {
        if self.bits >= SIGN {
            self.bits - SIGN
        } else {
            self.bits as int
        }
    }

    pub open spec fn finite(self) -> bool {
        self.magnitude() < INFINITE
    }

    /// Finite or an infinity.
    pub open spec fn number(self) -> bool {
        self.magnitude() <= INFINITE
    }

    /// The place on the number line: numbers compare as their places do, the infinities at
    /// either end, and both zeros stand at 0.
    pub open spec fn place(self) -> int {
        if self.bits >= SIGN {
            -self.magnitude()
        } else {
            self.magnitude()
        }
    }

    pub fn is_finite(self) -> (r: bool)
        ensures
            r == self.finite(),
    {
        if self.bits >= SIGN {
            self.bits - SIGN < INFINITE
        } else {
            self.bits < INFINITE
        }
    }

    pub fn is_number(self) -> (r: bool)
        ensures
            r == self.number(),
    {
        if self.bits >= SIGN {
            self.bits - SIGN <= INFINITE
        } else {
            self.bits <= INFINITE
        }
    }

    pub fn rank(self) -> (r: i64)
        ensures
            r == self.place(),
    {
        if self.bits >= SIGN {
            -((self.bits - SIGN) as i64)
        } else {
            self.bits as i64
        }
    }
}

/// A float, held as its bits.
#[derive(Clone, Copy, Debug, PartialEq, Eq, Structural)]
pub struct Real32 {
    pub bits: u32,
}

/// The bit of a float's sign.
pub const SIGN32: u32 = 0x8000_0000;

/// The bits of a float's positive infinity.
pub const INFINITE32: u32 = 0x7f80_0000;

impl Real32 {
    /// The bits without the sign.
    pub open spec fn magnitude(self) -> int {
        if self.bits >= SIGN32 {
            self.bits - SIGN32
        } else {
            self.bits as int
        }
    }

    pub open spec fn finite(self) -> bool {
        self.magnitude() < INFINITE32
    }

    /// The place on the number line: finite floats compare as their places do.
    pub open spec fn place(self) -> int {
        if self.bits >= SIGN32 {
            -self.magnitude()
        } else {
            self.magnitude()
        }
    }

    /// A finite number from the one at `lo` to the one at `hi`.
    pub open spec fn between(self, lo: int, hi: int) -> bool {
        self.finite() && lo <= self.place() <= hi
    }

    pub fn is_finite(self) -> (r: bool)
        ensures
            r == self.finite(),
    {
        if self.bits >= SIGN32 {
            self.bits - SIGN32 < INFINITE32
        } else {
            self.bits < INFINITE32
        }
    }

    pub fn rank(self) -> (r: i64)
        ensures
            r == self.place(),
    {
        if self.bits >= SIGN32 {
            -((self.bits - SIGN32) as i64)
        } else {
            self.bits as i64
        }
    }

    pub fn is_between(self, lo: i64, hi: i64) -> (r: bool)
        ensures
            r == self.between(lo as int, hi as int),
    {
        self.is_finite() && lo <= self.rank() && self.rank() <= hi
    }
}

} // verus!
