//! Single-precision numbers by their bits. What can be told from the bits alone is told here;
//! whoever runs the numbers supplies the rest.

use vstd::prelude::*;

verus! {

/// A computation on single-precision numbers.
#[derive(Debug, Clone, Copy, PartialEq, Eq, Structural)]
pub enum FloatOp {
    Add,
    Sub,
    Mul,
    Div,
    /// The exponential of the first operand; the second is not used here nor below, unless
    /// said so.
    Exp,
    /// The natural logarithm.
    Ln,
    /// The logarithm to the base 2.
    Log2,
    /// The number nearest to a whole one, whose bits are those of an `i32`.
    FromInt,
    /// The nearest whole number, ties to even, as the bits of an `i32`: cut at the ends of its
    /// range, zero for what is no number.
    Round,
    /// The number nearest to one of double precision, whose low and high bits are given.
    FromDouble,
    /// The number nearest to a whole one, whose low and high bits are those of an `i64`.
    FromLong,
    /// The number that one of half precision is, whose bits are given.
    FromHalf,
    /// The bits of the half-precision number nearest to a number.
    ToHalf,
    /// The number nearest to a whole one, whose low and high bits are those of a `u64`.
    FromCount,
    /// The hyperbolic tangent.
    Tanh,
    /// The square root.
    Sqrt,
    Sin,
    Cos,
    /// The first operand raised to the power of the second.
    Pow,
    /// The largest whole number that is not above a number.
    Floor,
    /// The smallest whole number that is not below a number.
    Ceil,
}

/// What the computations answer.
pub type Ops = spec_fn(FloatOp, u32, u32) -> u32;

/// The computations on single-precision numbers.
pub struct Arith<A> {
    pub op: A,
}

impl<A: Fn(FloatOp, u32, u32) -> u32> Arith<A> {
    /// What the computations answer.
    pub open spec fn ops(self) -> Ops {
        |op: FloatOp, a: u32, b: u32| choose|o: u32| call_ensures(self.op, (op, a, b), o)
    }

    /// Whether each computation can always be made and has one answer.
    pub open spec fn works(self) -> bool {
        &&& forall|op: FloatOp, a: u32, b: u32| call_requires(self.op, (op, a, b))
        &&& forall|op: FloatOp, a: u32, b: u32, x: u32, y: u32|
            call_ensures(self.op, (op, a, b), x) && call_ensures(self.op, (op, a, b), y) ==> x == y
    }

    pub fn run(&self, op: FloatOp, a: u32, b: u32) -> (r: u32)
        requires
            self.works(),
        ensures
            r == (self.ops())(op, a, b),
    {
        (self.op)(op, a, b)
    }

    /// A number of half precision.
    pub fn half(&self, h: u16) -> (r: u32)
        requires
            self.works(),
        ensures
            r == half(self.ops(), h),
    {
        self.run(FloatOp::FromHalf, h as u32, 0)
    }

    pub fn plus(&self, a: u32, b: u32) -> (r: u32)
        requires
            self.works(),
        ensures
            r == plus(self.ops(), a, b),
    {
        self.run(FloatOp::Add, a, b)
    }

    pub fn minus(&self, a: u32, b: u32) -> (r: u32)
        requires
            self.works(),
        ensures
            r == minus(self.ops(), a, b),
    {
        self.run(FloatOp::Sub, a, b)
    }

    pub fn times(&self, a: u32, b: u32) -> (r: u32)
        requires
            self.works(),
        ensures
            r == times(self.ops(), a, b),
    {
        self.run(FloatOp::Mul, a, b)
    }

    pub fn over(&self, a: u32, b: u32) -> (r: u32)
        requires
            self.works(),
        ensures
            r == over(self.ops(), a, b),
    {
        self.run(FloatOp::Div, a, b)
    }

    /// A function of one number.
    pub fn of(&self, op: FloatOp, a: u32) -> (r: u32)
        requires
            self.works(),
        ensures
            r == of(self.ops(), op, a),
    {
        self.run(op, a, 0)
    }

    /// A count.
    pub fn count(&self, n: u32) -> (r: u32)
        requires
            self.works(),
        ensures
            r == count(self.ops(), n),
    {
        self.run(FloatOp::FromCount, n, 0)
    }

    /// A whole number.
    pub fn whole(&self, n: i32) -> (r: u32)
        requires
            self.works(),
        ensures
            r == whole(self.ops(), n as int),
    {
        self.run(FloatOp::FromInt, n as u32, 0)
    }
}

pub open spec fn plus(f: Ops, a: u32, b: u32) -> u32 {
    f(FloatOp::Add, a, b)
}

pub open spec fn minus(f: Ops, a: u32, b: u32) -> u32 {
    f(FloatOp::Sub, a, b)
}

pub open spec fn times(f: Ops, a: u32, b: u32) -> u32 {
    f(FloatOp::Mul, a, b)
}

pub open spec fn over(f: Ops, a: u32, b: u32) -> u32 {
    f(FloatOp::Div, a, b)
}

/// A function of one number.
pub open spec fn of(f: Ops, op: FloatOp, a: u32) -> u32 {
    f(op, a, 0)
}

/// The bits of a count.
pub open spec fn count(f: Ops, n: u32) -> u32 {
    f(FloatOp::FromCount, n, 0)
}

/// The bits of a whole number.
pub open spec fn whole(f: Ops, n: int) -> u32 {
    f(FloatOp::FromInt, n as i32 as u32, 0)
}

/// The bits of a number of half precision.
pub open spec fn half(f: Ops, h: u16) -> u32 {
    f(FloatOp::FromHalf, h as u32, 0)
}

/// The bit of the sign.
pub const SIGN: u32 = 0x8000_0000;

/// The bits of infinity; what is above them, sign aside, is no number.
pub const INFINITY: u32 = 0x7f80_0000;

/// The bits of negative infinity.
pub const NEG_INFINITY: u32 = 0xff80_0000;

/// The bits of 1.
pub const UNIT: u32 = 0x3f80_0000;

/// The number without its sign.
pub open spec fn magnitude(b: u32) -> u32 {
    if b >= SIGN {
        (b - SIGN) as u32
    } else {
        b
    }
}

/// The number with the other sign.
pub open spec fn negated(b: u32) -> u32 {
    if b >= SIGN {
        (b - SIGN) as u32
    } else {
        (b + SIGN) as u32
    }
}

pub open spec fn is_nan(b: u32) -> bool {
    magnitude(b) > INFINITY
}

pub open spec fn is_finite(b: u32) -> bool {
    magnitude(b) < INFINITY
}

/// Where a number stands among the others.
pub open spec fn value_order(b: u32) -> int {
    if b >= SIGN {
        -(magnitude(b) as int)
    } else {
        b as int
    }
}

/// Where the bits stand in the order that puts every two of them in a place of their own:
/// negative zero before zero, what is no number at either end.
pub open spec fn total_order(b: u32) -> int {
    if b >= SIGN {
        -1 - (b - SIGN)
    } else {
        b as int
    }
}

pub open spec fn less(a: u32, b: u32) -> bool {
    !is_nan(a) && !is_nan(b) && value_order(a) < value_order(b)
}

pub open spec fn at_most(a: u32, b: u32) -> bool {
    !is_nan(a) && !is_nan(b) && value_order(a) <= value_order(b)
}

pub open spec fn equal(a: u32, b: u32) -> bool {
    !is_nan(a) && !is_nan(b) && value_order(a) == value_order(b)
}

/// The larger of two numbers; the other one where one is none.
pub open spec fn larger(a: u32, b: u32) -> u32 {
    if is_nan(a) || less(a, b) {
        b
    } else {
        a
    }
}

/// The smaller of two numbers; the other one where one is none.
pub open spec fn smaller(a: u32, b: u32) -> u32 {
    if is_nan(a) || less(b, a) {
        b
    } else {
        a
    }
}

/// The number cut at both ends of a range.
pub open spec fn clamped(x: u32, lo: u32, hi: u32) -> u32 {
    if less(x, lo) {
        lo
    } else if less(hi, x) {
        hi
    } else {
        x
    }
}

pub fn abs_of(b: u32) -> (r: u32)
    ensures
        r == magnitude(b),
{
    if b >= SIGN {
        b - SIGN
    } else {
        b
    }
}

pub fn neg_of(b: u32) -> (r: u32)
    ensures
        r == negated(b),
{
    if b >= SIGN {
        b - SIGN
    } else {
        b + SIGN
    }
}

pub fn finite(b: u32) -> (r: bool)
    ensures
        r == is_finite(b),
{
    abs_of(b) < INFINITY
}

pub fn order_of(b: u32) -> (r: i64)
    ensures
        r == total_order(b),
{
    if b >= SIGN {
        -1 - (b - SIGN) as i64
    } else {
        b as i64
    }
}

fn value_of(b: u32) -> (r: i64)
    ensures
        r == value_order(b),
{
    if b >= SIGN {
        -((b - SIGN) as i64)
    } else {
        b as i64
    }
}

pub fn is_less(a: u32, b: u32) -> (r: bool)
    ensures
        r == less(a, b),
{
    abs_of(a) <= INFINITY && abs_of(b) <= INFINITY && value_of(a) < value_of(b)
}

pub fn is_at_most(a: u32, b: u32) -> (r: bool)
    ensures
        r == at_most(a, b),
{
    abs_of(a) <= INFINITY && abs_of(b) <= INFINITY && value_of(a) <= value_of(b)
}

pub fn is_equal(a: u32, b: u32) -> (r: bool)
    ensures
        r == equal(a, b),
{
    abs_of(a) <= INFINITY && abs_of(b) <= INFINITY && value_of(a) == value_of(b)
}

pub fn larger_of(a: u32, b: u32) -> (r: u32)
    ensures
        r == larger(a, b),
{
    if abs_of(a) > INFINITY || is_less(a, b) {
        b
    } else {
        a
    }
}

pub fn smaller_of(a: u32, b: u32) -> (r: u32)
    ensures
        r == smaller(a, b),
{
    if abs_of(a) > INFINITY || is_less(b, a) {
        b
    } else {
        a
    }
}

pub fn clamp_of(x: u32, lo: u32, hi: u32) -> (r: u32)
    ensures
        r == clamped(x, lo, hi),
{
    if is_less(x, lo) {
        lo
    } else if is_less(hi, x) {
        hi
    } else {
        x
    }
}

} // verus!
