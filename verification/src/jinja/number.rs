//! Numbers of templates: double precision, held by their bits.
//!
//! What is decided by the bits alone is decided here. What rounds (sums, products, the
//! conversion from and to text) is computed by whoever renders, and handed in as a
//! [`Maths`]; everything else holds whatever it computes.

use vstd::prelude::*;
use vstd::string::*;

use crate::text::{dec_int, decimal_int};

verus! {

/// A computation on doubles, given and answered as bits.
#[derive(Debug, Clone, Copy, PartialEq, Eq, Structural)]
pub enum NumOp {
    Add,
    Sub,
    Mul,
    Div,
    /// The quotient, rounded down.
    FloorDiv,
    /// The remainder, with the sign of the dividend.
    Rem,
    /// Rounded towards zero; the second operand is not used.
    Trunc,
    /// The double nearest to a whole number; the second operand is not used.
    FromWhole,
    /// The bits of the 64-bit integer that the number is cut to, the nearest one where it is
    /// out of range, zero where it is none; the second operand is not used.
    ToInt,
}

/// What the computations answer, as functions.
pub struct Host {
    pub arith: spec_fn(NumOp, u64, u64) -> u64,
    pub parse: spec_fn(Seq<char>) -> Option<u64>,
    pub write: spec_fn(u64, bool) -> Seq<char>,
}

/// The computations on doubles.
pub struct Maths<A, P, W> {
    pub arith: A,
    /// The double that a text stands for.
    pub parse: P,
    /// The text of a double: as `{}` writes it, or as `{:?}` does.
    pub write: W,
}

impl<
    A: Fn(NumOp, u64, u64) -> u64,
    P: Fn(&str) -> Option<u64>,
    W: Fn(u64, bool) -> String,
> Maths<A, P, W> {
    /// Whether `o` is an answer for the text `s`.
    pub open spec fn reads(self, s: Seq<char>, o: Option<u64>) -> bool {
        exists|t: &str| #[trigger] call_ensures(self.parse, (t,), o) && t@ == s
    }

    /// What the computations answer, as functions.
    pub open spec fn host(self) -> Host {
        Host {
            arith: |op: NumOp, a: u64, b: u64|
                choose|o: u64| call_ensures(self.arith, (op, a, b), o),
            parse: |s: Seq<char>| choose|o: Option<u64>| self.reads(s, o),
            write: |b: u64, d: bool|
                {
                    let t = choose|t: String| call_ensures(self.write, (b, d), t);
                    t@
                },
        }
    }

    /// Whether each computation can always be made and has one answer.
    pub open spec fn works(self) -> bool {
        &&& forall|op: NumOp, a: u64, b: u64| call_requires(self.arith, (op, a, b))
        &&& forall|t: &str| call_requires(self.parse, (t,))
        &&& forall|b: u64, d: bool| call_requires(self.write, (b, d))
        &&& forall|op: NumOp, a: u64, b: u64, x: u64, y: u64|
            call_ensures(self.arith, (op, a, b), x) && call_ensures(self.arith, (op, a, b), y)
                ==> x == y
        &&& forall|s: &str, t: &str, x: Option<u64>, y: Option<u64>|
            s@ == t@ && call_ensures(self.parse, (s,), x) && call_ensures(self.parse, (t,), y)
                ==> x == y
        &&& forall|b: u64, d: bool, x: String, y: String|
            call_ensures(self.write, (b, d), x) && call_ensures(self.write, (b, d), y) ==> x@ == y@
    }

    pub fn calc(&self, op: NumOp, a: u64, b: u64) -> (r: u64)
        requires
            self.works(),
        ensures
            r == (self.host().arith)(op, a, b),
    {
        (self.arith)(op, a, b)
    }

    pub fn parsed(&self, s: &str) -> (r: Option<u64>)
        requires
            self.works(),
        ensures
            r == (self.host().parse)(s@),
    {
        let r = (self.parse)(s);
        assert(self.reads(s@, r));
        r
    }

    pub fn written(&self, b: u64, debug: bool) -> (r: String)
        requires
            self.works(),
        ensures
            r@ == (self.host().write)(b, debug),
    {
        (self.write)(b, debug)
    }
}

/// The bits of 1.
pub const ONE_BITS: u64 = 0x3ff0_0000_0000_0000;

/// The bit of the sign.
pub const SIGN_BIT: u64 = 0x8000_0000_0000_0000;

/// The bits of infinity; what is above them, sign aside, is no number.
pub const INF_BITS: u64 = 0x7ff0_0000_0000_0000;

/// The bits of 10^15.
pub const LARGE_BITS: u64 = 0x430c_6bf5_2634_0000;

/// The number without its sign.
pub open spec fn magnitude(b: u64) -> u64 {
    if b >= SIGN_BIT {
        (b - SIGN_BIT) as u64
    } else {
        b
    }
}

/// The number with the other sign.
pub open spec fn negated(b: u64) -> u64 {
    if b >= SIGN_BIT {
        (b - SIGN_BIT) as u64
    } else {
        (b + SIGN_BIT) as u64
    }
}

/// Where a number stands among the others.
pub open spec fn rank(b: u64) -> int {
    if b >= SIGN_BIT {
        -(magnitude(b) as int)
    } else {
        b as int
    }
}

pub open spec fn is_nan(b: u64) -> bool {
    magnitude(b) > INF_BITS
}

pub open spec fn num_eq(a: u64, b: u64) -> bool {
    !is_nan(a) && !is_nan(b) && rank(a) == rank(b)
}

pub open spec fn num_lt(a: u64, b: u64) -> bool {
    !is_nan(a) && !is_nan(b) && rank(a) < rank(b)
}

pub open spec fn num_le(a: u64, b: u64) -> bool {
    !is_nan(a) && !is_nan(b) && rank(a) <= rank(b)
}

pub fn abs_bits(b: u64) -> (r: u64)
    ensures
        r == magnitude(b),
{
    if b >= SIGN_BIT {
        b - SIGN_BIT
    } else {
        b
    }
}

pub fn neg_bits(b: u64) -> (r: u64)
    ensures
        r == negated(b),
{
    if b >= SIGN_BIT {
        b - SIGN_BIT
    } else {
        b + SIGN_BIT
    }
}

pub fn eq_bits(a: u64, b: u64) -> (r: bool)
    ensures
        r == num_eq(a, b),
{
    let x = abs_bits(a);
    let y = abs_bits(b);
    x <= INF_BITS && y <= INF_BITS && (a == b || (x == 0 && y == 0))
}

pub fn lt_bits(a: u64, b: u64) -> (r: bool)
    ensures
        r == num_lt(a, b),
{
    let x = abs_bits(a);
    let y = abs_bits(b);
    if x > INF_BITS || y > INF_BITS {
        false
    } else if a >= SIGN_BIT {
        if b >= SIGN_BIT {
            x > y
        } else {
            x > 0 || y > 0
        }
    } else if b >= SIGN_BIT {
        false
    } else {
        x < y
    }
}

pub fn le_bits(a: u64, b: u64) -> (r: bool)
    ensures
        r == num_le(a, b),
{
    lt_bits(a, b) || eq_bits(a, b)
}

impl Host {
    /// The text of a number: whole numbers below 10^15 without a decimal point.
    pub open spec fn text(self, b: u64) -> Seq<char> {
        if num_eq((self.arith)(NumOp::Trunc, b, 0), b) && num_lt(magnitude(b), LARGE_BITS) {
            dec_int((self.arith)(NumOp::ToInt, b, 0) as i64 as int)
        } else {
            (self.write)(b, false)
        }
    }

    /// The integer a number is cut to.
    pub open spec fn int_of(self, b: u64) -> i64 {
        (self.arith)(NumOp::ToInt, b, 0) as i64
    }

    /// The number of a length.
    pub open spec fn whole(self, n: nat) -> u64 {
        (self.arith)(NumOp::FromWhole, n as u64, 0)
    }
}

impl<
    A: Fn(NumOp, u64, u64) -> u64,
    P: Fn(&str) -> Option<u64>,
    W: Fn(u64, bool) -> String,
> Maths<A, P, W> {
    pub fn num_text(&self, b: u64) -> (r: String)
        requires
            self.works(),
        ensures
            r@ == self.host().text(b),
    {
        let t = self.calc(NumOp::Trunc, b, 0);
        if eq_bits(t, b) && lt_bits(abs_bits(b), LARGE_BITS) {
            decimal_int(self.calc(NumOp::ToInt, b, 0) as i64)
        } else {
            self.written(b, false)
        }
    }

    pub fn to_int(&self, b: u64) -> (r: i64)
        requires
            self.works(),
        ensures
            r == self.host().int_of(b),
    {
        self.calc(NumOp::ToInt, b, 0) as i64
    }

    pub fn from_len(&self, n: usize) -> (r: u64)
        requires
            self.works(),
        ensures
            r == self.host().whole(n as nat),
    {
        self.calc(NumOp::FromWhole, n as u64, 0)
    }
}

} // verus!
