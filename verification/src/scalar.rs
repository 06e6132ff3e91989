//! Floating-point numbers as the library carries them: by their bits, or by the one
//! computation that yields them. Nothing here rounds; whoever runs the numbers does.

use vstd::prelude::*;

use crate::single::{is_less, less, of, over, Arith, FloatOp, Ops, UNIT};

verus! {

/// A number as a file holds it, to be read in single precision.
#[derive(Debug, Clone, Copy, PartialEq, Eq, Structural)]
pub enum Real {
    /// The bits of a single-precision number.
    Single(u32),
    /// The bits of a double-precision number.
    Double(u64),
    /// A whole number.
    Whole(u64),
}

/// A single-precision number, described by how it comes about.
#[derive(Debug, Clone, Copy, PartialEq, Eq, Structural)]
pub enum Scalar {
    Of(Real),
    /// The square root of a whole number.
    Sqrt(u64),
    /// One divided by the square root of a whole number.
    InvSqrt(u64),
    /// One divided by the number where it is positive, else one.
    InvIfPositive(Real),
}

/// The bits of 1.
pub const ONE: u32 = 0x3f80_0000;

/// The bits of 10000.
pub const TEN_THOUSAND: u32 = 0x461c_4000;

/// The bits of 32.
pub const THIRTY_TWO: u32 = 0x4200_0000;

/// The bits of 1e-5.
pub const SMALL_EPS: u32 = 0x3727_c5ac;

impl Real {
    /// Whether the number is 1 once it is rounded to single precision.
    pub open spec fn rounds_to_one(self) -> bool {
        match self {
            Real::Single(b) => b == 0x3f80_0000,
            // From 1 - 2^-25 to 1 + 2^-24: both ends are ties, and 1 is the even side.
            Real::Double(b) => 0x3fef_ffff_f000_0000 <= b <= 0x3ff0_0000_1000_0000,
            Real::Whole(n) => n == 1,
        }
    }

    /// Whether the number is above 0 once it is rounded to single precision.
    pub open spec fn rounds_above_zero(self) -> bool {
        match self {
            Real::Single(b) => 0 < b <= 0x7f80_0000,
            // Above 2^-150, which itself is a tie that goes to 0.
            Real::Double(b) => 0x3690_0000_0000_0000 < b <= 0x7ff0_0000_0000_0000,
            Real::Whole(n) => n > 0,
        }
    }

    pub fn is_one(&self) -> (r: bool)
        ensures
            r == self.rounds_to_one(),
    {
        match *self {
            Real::Single(b) => b == 0x3f80_0000,
            Real::Double(b) => 0x3fef_ffff_f000_0000 <= b && b <= 0x3ff0_0000_1000_0000,
            Real::Whole(n) => n == 1,
        }
    }

    pub fn is_positive(&self) -> (r: bool)
        ensures
            r == self.rounds_above_zero(),
    {
        match *self {
            Real::Single(b) => 0 < b && b <= 0x7f80_0000,
            Real::Double(b) => 0x3690_0000_0000_0000 < b && b <= 0x7ff0_0000_0000_0000,
            Real::Whole(n) => n > 0,
        }
    }
}

impl Scalar {
    /// The number 1.
    pub open spec fn unit() -> Scalar {
        Scalar::Of(Real::Single(ONE))
    }

    /// The number 0.
    pub open spec fn nil() -> Scalar {
        Scalar::Of(Real::Single(0))
    }

    pub fn one() -> (r: Scalar)
        ensures
            r == Scalar::unit(),
    {
        Scalar::Of(Real::Single(ONE))
    }

    pub fn zero() -> (r: Scalar)
        ensures
            r == Scalar::nil(),
    {
        Scalar::Of(Real::Single(0))
    }

    /// The number with the given bits.
    pub fn bits(b: u32) -> (r: Scalar)
        ensures
            r == Scalar::Of(Real::Single(b)),
    {
        Scalar::Of(Real::Single(b))
    }
}

/// The bits of a whole number.
pub open spec fn counted(f: Ops, n: u64) -> u32 {
    f(FloatOp::FromCount, (n % 0x1_0000_0000) as u32, (n / 0x1_0000_0000) as u32)
}

/// The bits of a number that a file holds.
pub open spec fn single_of(f: Ops, x: Real) -> u32 {
    match x {
        Real::Single(b) => b,
        Real::Double(b) => f(
            FloatOp::FromDouble,
            (b % 0x1_0000_0000) as u32,
            (b / 0x1_0000_0000) as u32,
        ),
        Real::Whole(n) => counted(f, n),
    }
}

/// The bits of a number.
pub open spec fn value_of(f: Ops, s: Scalar) -> u32 {
    match s {
        Scalar::Of(x) => single_of(f, x),
        Scalar::Sqrt(n) => of(f, FloatOp::Sqrt, counted(f, n)),
        Scalar::InvSqrt(n) => over(f, UNIT, of(f, FloatOp::Sqrt, counted(f, n))),
        Scalar::InvIfPositive(x) => if less(0, single_of(f, x)) {
            over(f, UNIT, single_of(f, x))
        } else {
            UNIT
        },
    }
}

impl<A: Fn(FloatOp, u32, u32) -> u32> Arith<A> {
    fn counted(&self, n: u64) -> (r: u32)
        requires
            self.works(),
        ensures
            r == counted(self.ops(), n),
    {
        self.run(FloatOp::FromCount, (n % 0x1_0000_0000) as u32, (n / 0x1_0000_0000) as u32)
    }

    /// The bits of a number that a file holds.
    pub fn single(&self, x: Real) -> (r: u32)
        requires
            self.works(),
        ensures
            r == single_of(self.ops(), x),
    {
        match x {
            Real::Single(b) => b,
            Real::Double(b) => self.run(
                FloatOp::FromDouble,
                (b % 0x1_0000_0000) as u32,
                (b / 0x1_0000_0000) as u32,
            ),
            Real::Whole(n) => self.counted(n),
        }
    }

    /// The bits of a number.
    pub fn value(&self, s: Scalar) -> (r: u32)
        requires
            self.works(),
        ensures
            r == value_of(self.ops(), s),
    {
        match s {
            Scalar::Of(x) => self.single(x),
            Scalar::Sqrt(n) => self.of(FloatOp::Sqrt, self.counted(n)),
            Scalar::InvSqrt(n) => self.over(UNIT, self.of(FloatOp::Sqrt, self.counted(n))),
            Scalar::InvIfPositive(x) => {
                let v = self.single(x);
                if is_less(0, v) {
                    self.over(UNIT, v)
                } else {
                    UNIT
                }
            },
        }
    }
}

} // verus!
