//! Dot products between a quantized weight row and a Q8_1-quantized activation row.
//!
//! Every one of these follows the same algebra: an integer dot of the raw quant codes, scaled
//! by `weight_scale * activation_scale`, plus a correction term built from the activation's
//! block sum whenever the weight encoding is asymmetric (carries a minimum) or offset (Q4_0's
//! -8, Q5_0's -16).
//!
//! Keeping the correction in closed form is what makes the integer path exact rather than
//! approximate: it is the same value the float path would produce, not a nearby one.

use vstd::prelude::*;
use vstd::slice::slice_subrange;

use super::block::{
    base, code, code_at, is_block, le16_at, minimum, offset, read_le16, read_le32, scale, scales_at,
    second, signed,
};
use super::quantize::{q8_1_quant, Q8_1_BLOCK};
use crate::dtype::DType;
use crate::error::{Error, ErrorView};
use crate::single::{half, minus, plus, times, whole, Arith, FloatOp, Ops};
use crate::text::cat2;

verus! {

/// The bits of 8.
pub const EIGHT: u32 = 0x4100_0000;

/// The bits of 16.
pub const SIXTEEN: u32 = 0x4180_0000;

pub open spec fn float_type(t: DType) -> bool {
    t == DType::F32 || t == DType::F16 || t == DType::BF16
}

pub fn is_float(dtype: DType) -> (r: bool)
    ensures
        r == float_type(dtype),
{
    match dtype {
        DType::F32 | DType::F16 | DType::BF16 => true,
        _ => false,
    }
}

/// Whether the type has an integer dot path.
pub open spec fn dots(t: DType) -> bool {
    is_block(t) && t != DType::Q8_1 && t != DType::Q8K
}

fn has_dot(t: DType) -> (r: bool)
    ensures
        r == dots(t),
{
    match t {
        DType::Q4_0 | DType::Q4_1 | DType::Q5_0 | DType::Q5_1 | DType::Q8_0 | DType::Q2K
        | DType::Q3K | DType::Q4K | DType::Q5K | DType::Q6K | DType::Iq4Nl | DType::Iq4Xs
        | DType::Mxfp4 | DType::Tq1_0 | DType::Tq2_0 => true,
        _ => false,
    }
}

/// Rejects a weight type that has no integer dot path, so a caller cannot silently get zeros.
pub fn check_dot_supported(dtype: DType) -> (r: Result<(), Error>)
    ensures
        dtype.has_codebook() ==> r is Err && r->Err_0@ == dtype.refusal(),
        !dtype.has_codebook() && (float_type(dtype) || dots(dtype)) ==> r is Ok,
        !dtype.has_codebook() && !float_type(dtype) && !dots(dtype) ==> r is Err && r->Err_0@
            == ErrorView::Unsupported(dtype.label() + " has no matmul path on this backend"@),
{
    dtype.check_supported()?;
    if is_float(dtype) || has_dot(dtype) {
        return Ok(());
    }
    Err(Error::Unsupported(cat2(dtype.name(), " has no matmul path on this backend")))
}

/// Activation block `i`.
pub open spec fn act(a: Seq<u8>, i: int) -> Seq<u8> {
    a.subrange(i * 36, i * 36 + 36)
}

pub fn ablk(a: &[u8], i: usize) -> (r: &[u8])
    requires
        (i + 1) * Q8_1_BLOCK <= a@.len(),
    ensures
        r@ == act(a@, i as int),
        r@.len() == 36,
{
    let n = a.len();
    slice_subrange(a, i * Q8_1_BLOCK, (i + 1) * Q8_1_BLOCK)
}

/// The integer dot of the codes from `lo` up to `hi` of a block with those of activation block
/// `k`, which cover the elements from `32 * k` on.
pub open spec fn code_dot(t: DType, b: Seq<u8>, y: Seq<u8>, k: int, lo: int, hi: int) -> int
    decreases hi - lo,
{
    if hi <= lo {
        0
    } else {
        code_dot(t, b, y, k, lo, hi - 1) + code(t, b, 32 * k + hi - 1) * signed(y[4 + hi - 1])
    }
}

/// The sum of the activation codes from `lo` up to `hi`.
pub open spec fn act_sum(y: Seq<u8>, lo: int, hi: int) -> int
    decreases hi - lo,
{
    if hi <= lo {
        0
    } else {
        act_sum(y, lo, hi - 1) + signed(y[4 + hi - 1])
    }
}

/// The dot of the codes less their offset.
pub open spec fn shifted_dot(t: DType, b: Seq<u8>, y: Seq<u8>, k: int, lo: int, hi: int) -> int
    decreases hi - lo,
{
    if hi <= lo {
        0
    } else {
        shifted_dot(t, b, y, k, lo, hi - 1) + (code(t, b, 32 * k + hi - 1) - offset(t)) * signed(
            y[4 + hi - 1],
        )
    }
}

/// The offset of the codes folds into the sum of the activation: the dot of the decoded
/// integers is that of the raw codes less the offset times the sum.
pub proof fn offset_folds_into_the_sum(
    t: DType,
    b: Seq<u8>,
    y: Seq<u8>,
    k: int,
    lo: int,
    hi: int,
)
    ensures
        shifted_dot(t, b, y, k, lo, hi) == code_dot(t, b, y, k, lo, hi) - offset(t) * act_sum(
            y,
            lo,
            hi,
        ),
    decreases hi - lo,
{
    if hi > lo {
        offset_folds_into_the_sum(t, b, y, k, lo, hi - 1);
        let c = code(t, b, 32 * k + hi - 1);
        let o = offset(t);
        let s = signed(y[4 + hi - 1]);
        let a = act_sum(y, lo, hi - 1);
        assert((c - o) * s == c * s - o * s && o * (a + s) == o * a + o * s) by (nonlinear_arith);
    }
}

/// How the terms of a type are put together.
#[derive(Debug, Clone, Copy, PartialEq, Eq, Structural)]
pub enum Shape {
    /// Scale times scaled sum, less eight times the scale times the activation's sum.
    LessEight,
    /// Both scales times the sum, plus the minimum times the activation's sum.
    PlusMin,
    /// Both scales times the sum, less sixteen times the scale times the activation's sum.
    LessSixteen,
    /// Both scales times the sum.
    Bare,
    /// Two groups, each with a scale and a minimum of its own.
    TwoMins,
    /// Two groups, each with a scale of its own.
    TwoScales,
    /// One group with a scale and a minimum of its own.
    OneMin,
    /// One group with a scale of its own.
    OneScale,
    /// The scale is applied once for the whole block.
    Whole,
}

pub open spec fn shape(t: DType) -> Shape {
    match t {
        DType::Q4_0 => Shape::LessEight,
        DType::Q4_1 | DType::Q5_1 => Shape::PlusMin,
        DType::Q5_0 => Shape::LessSixteen,
        DType::Q2K => Shape::TwoMins,
        DType::Q3K | DType::Q6K => Shape::TwoScales,
        DType::Q4K | DType::Q5K => Shape::OneMin,
        DType::Iq4Xs => Shape::OneScale,
        DType::Tq1_0 | DType::Tq2_0 => Shape::Whole,
        _ => Shape::Bare,
    }
}

/// The sum `acc` with the elements of a block that activation block `k` of it covers.
pub open spec fn with_part(f: Ops, t: DType, b: Seq<u8>, y: Seq<u8>, k: int, acc: u32) -> u32 {
    let d = base(f, t, b);
    let m = second(f, t, b);
    let ad = half(f, le16_at(y, 0));
    let asum = half(f, le16_at(y, 2));
    let all = whole(f, code_dot(t, b, y, k, 0, 32));
    match shape(t) {
        Shape::LessEight => plus(
            f,
            acc,
            minus(
                f,
                times(f, d, times(f, ad, all)),
                times(f, times(f, EIGHT, d), asum),
            ),
        ),
        Shape::PlusMin => plus(
            f,
            acc,
            plus(f, times(f, times(f, d, ad), all), times(f, m, asum)),
        ),
        Shape::LessSixteen => plus(
            f,
            acc,
            minus(
                f,
                times(f, times(f, d, ad), all),
                times(f, times(f, SIXTEEN, d), asum),
            ),
        ),
        Shape::Bare => plus(f, acc, times(f, times(f, d, ad), all)),
        Shape::TwoMins => with_group(
            f,
            t,
            b,
            y,
            k,
            1,
            with_group(f, t, b, y, k, 0, acc),
        ),
        Shape::TwoScales => plus(
            f,
            acc,
            times(
                f,
                times(f, ad, d),
                plus(
                    f,
                    times(
                        f,
                        whole(f, scale(t, b, 2 * k)),
                        whole(f, code_dot(t, b, y, k, 0, 16)),
                    ),
                    times(
                        f,
                        whole(f, scale(t, b, 2 * k + 1)),
                        whole(f, code_dot(t, b, y, k, 16, 32)),
                    ),
                ),
            ),
        ),
        Shape::OneMin => plus(
            f,
            acc,
            minus(
                f,
                times(f, times(f, times(f, d, whole(f, scale(t, b, k))), ad), all),
                times(f, times(f, m, whole(f, minimum(t, b, k))), asum),
            ),
        ),
        Shape::OneScale => plus(
            f,
            acc,
            times(f, times(f, times(f, d, whole(f, scale(t, b, k))), ad), all),
        ),
        Shape::Whole => plus(f, acc, times(f, ad, all)),
    }
}

/// The sum `acc` with one of the two groups of sixteen that share an activation block. Each
/// keeps a partial activation sum of its own for the minimum.
pub open spec fn with_group(
    f: Ops,
    t: DType,
    b: Seq<u8>,
    y: Seq<u8>,
    k: int,
    g: int,
    acc: u32,
) -> u32 {
    let d = base(f, t, b);
    let m = second(f, t, b);
    let ad = half(f, le16_at(y, 0));
    plus(
        f,
        acc,
        times(
            f,
            ad,
            minus(
                f,
                times(
                    f,
                    times(f, d, whole(f, scale(t, b, 2 * k + g))),
                    whole(f, code_dot(t, b, y, k, 16 * g, 16 * g + 16)),
                ),
                times(
                    f,
                    times(f, m, whole(f, minimum(t, b, 2 * k + g))),
                    whole(f, act_sum(y, 16 * g, 16 * g + 16)),
                ),
            ),
        ),
    )
}

/// The sum `acc` with the first `n` parts of a block, whose activation starts at block `at`.
pub open spec fn with_parts(
    f: Ops,
    t: DType,
    b: Seq<u8>,
    a: Seq<u8>,
    at: int,
    n: nat,
    acc: u32,
) -> u32
    decreases n,
{
    if n == 0 {
        acc
    } else {
        with_part(
            f,
            t,
            b,
            act(a, at + n - 1),
            n - 1,
            with_parts(f, t, b, a, at, (n - 1) as nat, acc),
        )
    }
}

/// How many activation blocks a weight block spans.
pub open spec fn parts(t: DType) -> nat {
    t.block_len() / 32
}

/// The dot of the first `n` blocks of a row.
pub open spec fn row_dot(f: Ops, t: DType, w: Seq<u8>, a: Seq<u8>, n: nat) -> u32
    decreases n,
{
    if n == 0 {
        0
    } else {
        let acc = row_dot(f, t, w, a, (n - 1) as nat);
        let ts = t.block_bytes() as int;
        let b = w.subrange((n - 1) * ts, (n - 1) * ts + ts);
        let at = (n - 1) * parts(t);
        if shape(t) == Shape::Whole {
            plus(f, acc, times(f, base(f, t, b), with_parts(f, t, b, a, at, parts(t), 0)))
        } else {
            with_parts(f, t, b, a, at, parts(t), acc)
        }
    }
}

/// The dot of the first `n` elements of a row of floats.
pub open spec fn float_dot(f: Ops, t: DType, w: Seq<u8>, a: Seq<u32>, n: nat) -> u32
    decreases n,
{
    if n == 0 {
        0
    } else {
        plus(
            f,
            float_dot(f, t, w, a, (n - 1) as nat),
            times(f, super::dequant::element(f, t, w, n - 1), a[n - 1]),
        )
    }
}

fn shape_of(t: DType) -> (r: Shape)
    ensures
        r == shape(t),
{
    match t {
        DType::Q4_0 => Shape::LessEight,
        DType::Q4_1 | DType::Q5_1 => Shape::PlusMin,
        DType::Q5_0 => Shape::LessSixteen,
        DType::Q2K => Shape::TwoMins,
        DType::Q3K | DType::Q6K => Shape::TwoScales,
        DType::Q4K | DType::Q5K => Shape::OneMin,
        DType::Iq4Xs => Shape::OneScale,
        DType::Tq1_0 | DType::Tq2_0 => Shape::Whole,
        _ => Shape::Bare,
    }
}

/// The integer dot of codes with those of an activation block.
fn dot_codes(t: DType, b: &[u8], y: &[u8], k: usize, lo: usize, hi: usize) -> (r: i32)
    requires
        is_block(t),
        b@.len() >= t.block_bytes(),
        y@.len() >= 36,
        k < parts(t),
        lo <= hi <= 32,
    ensures
        r == code_dot(t, b@, y@, k as int, lo as int, hi as int),
{
    let mut sum: i32 = 0;
    let mut i: usize = lo;
    while i < hi
        invariant
            is_block(t),
            b@.len() >= t.block_bytes(),
            y@.len() >= 36,
            k < parts(t),
            lo <= i <= hi <= 32,
            sum == code_dot(t, b@, y@, k as int, lo as int, i as int),
            -16384 * (i - lo) <= sum <= 16384 * (i - lo),
        decreases hi - i,
    {
        let c = code_at(t, b, 32 * k + i);
        let q = q8_1_quant(y, i);
        assert(-16384 <= c * q <= 16384) by (nonlinear_arith)
            requires
                -128 <= c <= 127,
                -128 <= q <= 127,
        ;
        sum = sum + c * q;
        i = i + 1;
    }
    sum
}

/// The sum of activation codes.
fn sum_codes(y: &[u8], lo: usize, hi: usize) -> (r: i32)
    requires
        y@.len() >= 36,
        lo <= hi <= 32,
    ensures
        r == act_sum(y@, lo as int, hi as int),
{
    let mut sum: i32 = 0;
    let mut i: usize = lo;
    while i < hi
        invariant
            y@.len() >= 36,
            lo <= i <= hi <= 32,
            sum == act_sum(y@, lo as int, i as int),
            -128 * (i - lo) <= sum <= 128 * (i - lo),
        decreases hi - i,
    {
        sum = sum + q8_1_quant(y, i);
        i = i + 1;
    }
    sum
}

impl<A: Fn(FloatOp, u32, u32) -> u32> Arith<A> {
    fn prod(&self, a: u32, b: u32) -> (r: u32)
        requires
            self.works(),
        ensures
            r == times(self.ops(), a, b),
    {
        self.run(FloatOp::Mul, a, b)
    }

    fn sum(&self, a: u32, b: u32) -> (r: u32)
        requires
            self.works(),
        ensures
            r == plus(self.ops(), a, b),
    {
        self.run(FloatOp::Add, a, b)
    }

    fn diff(&self, a: u32, b: u32) -> (r: u32)
        requires
            self.works(),
        ensures
            r == minus(self.ops(), a, b),
    {
        self.run(FloatOp::Sub, a, b)
    }

    /// The sum `acc` with one of two groups of sixteen.
    fn dot_group(&self, t: DType, b: &[u8], y: &[u8], k: usize, g: usize, acc: u32) -> (r: u32)
        requires
            self.works(),
            t == DType::Q2K,
            b@.len() >= t.block_bytes(),
            y@.len() >= 36,
            k < parts(t),
            g < 2,
        ensures
            r == with_group(self.ops(), t, b@, y@, k as int, g as int, acc),
    {
        let d = self.block_base(t, b);
        let m = self.block_second(t, b);
        let ad = self.q8_1_scale(y);
        let (s, mn) = scales_at(t, b, 2 * k + g);
        let si = dot_codes(t, b, y, k, 16 * g, 16 * g + 16);
        let sy = sum_codes(y, 16 * g, 16 * g + 16);
        let left = self.prod(self.prod(d, self.whole(s)), self.whole(si));
        let right = self.prod(self.prod(m, self.whole(mn)), self.whole(sy));
        self.sum(acc, self.prod(ad, self.diff(left, right)))
    }

    /// The sum `acc` with the elements of a block that activation block `k` of it covers.
    fn dot_part(&self, t: DType, b: &[u8], y: &[u8], k: usize, acc: u32) -> (r: u32)
        requires
            self.works(),
            dots(t),
            b@.len() >= t.block_bytes(),
            y@.len() >= 36,
            k < parts(t),
        ensures
            r == with_part(self.ops(), t, b@, y@, k as int, acc),
    {
        let sh = shape_of(t);
        if sh == Shape::TwoMins {
            let first = self.dot_group(t, b, y, k, 0, acc);
            return self.dot_group(t, b, y, k, 1, first);
        }
        let d = self.block_base(t, b);
        let ad = self.q8_1_scale(y);
        if sh == Shape::TwoScales {
            let (s0, _) = scales_at(t, b, 2 * k);
            let (s1, _) = scales_at(t, b, 2 * k + 1);
            let p0 = self.prod(self.whole(s0), self.whole(dot_codes(t, b, y, k, 0, 16)));
            let p1 = self.prod(self.whole(s1), self.whole(dot_codes(t, b, y, k, 16, 32)));
            return self.sum(acc, self.prod(self.prod(ad, d), self.sum(p0, p1)));
        }
        let all = self.whole(dot_codes(t, b, y, k, 0, 32));
        match sh {
            Shape::LessEight => {
                let asum = self.q8_1_sum(y);
                let left = self.prod(d, self.prod(ad, all));
                let right = self.prod(self.prod(EIGHT, d), asum);
                self.sum(acc, self.diff(left, right))
            },
            Shape::PlusMin => {
                let asum = self.q8_1_sum(y);
                let m = self.block_second(t, b);
                let left = self.prod(self.prod(d, ad), all);
                self.sum(acc, self.sum(left, self.prod(m, asum)))
            },
            Shape::LessSixteen => {
                let asum = self.q8_1_sum(y);
                let left = self.prod(self.prod(d, ad), all);
                let right = self.prod(self.prod(SIXTEEN, d), asum);
                self.sum(acc, self.diff(left, right))
            },
            Shape::OneMin => {
                let asum = self.q8_1_sum(y);
                let m = self.block_second(t, b);
                let (s, mn) = scales_at(t, b, k);
                let left = self.prod(self.prod(self.prod(d, self.whole(s)), ad), all);
                let right = self.prod(self.prod(m, self.whole(mn)), asum);
                self.sum(acc, self.diff(left, right))
            },
            Shape::OneScale => {
                let (s, _) = scales_at(t, b, k);
                let left = self.prod(self.prod(self.prod(d, self.whole(s)), ad), all);
                self.sum(acc, left)
            },
            Shape::Whole => self.sum(acc, self.prod(ad, all)),
            _ => self.sum(acc, self.prod(self.prod(d, ad), all)),
        }
    }

    /// Dot product of one quantized weight row with a Q8_1 activation row.
    ///
    /// `n` is the row length in elements, `w` the weight bytes, `a` the Q8_1 blocks. Float
    /// weights never take this path.
    pub fn vec_dot_q8_1(&self, t: DType, n: usize, w: &[u8], a: &[u8]) -> (r: u32)
        requires
            self.works(),
            dots(t) ==> n as nat / t.block_len() * t.block_bytes() <= w@.len(),
            dots(t) ==> n as nat / t.block_len() * parts(t) * Q8_1_BLOCK <= a@.len(),
        ensures
            dots(t) ==> r == row_dot(self.ops(), t, w@, a@, n as nat / t.block_len()),
            !dots(t) ==> r == 0,
    {
        if !has_dot(t) {
            return 0;
        }
        let ghost f = self.ops();
        let bs = t.block_size();
        let ts = t.type_size();
        let np = bs / 32;
        let nb = n / bs;
        let wl = w.len();
        let al = a.len();
        let sh = shape_of(t);
        let mut acc: u32 = 0;
        let mut b: usize = 0;
        while b < nb
            invariant
                self.works(),
                dots(t),
                f == self.ops(),
                sh == shape(t),
                bs == t.block_len(),
                ts == t.block_bytes(),
                np == parts(t),
                1 <= np <= 8,
                wl == w@.len(),
                al == a@.len(),
                nb * ts <= wl,
                nb * np * 36 <= al,
                b <= nb,
                acc == row_dot(f, t, w@, a@, b as nat),
            decreases nb - b,
        {
            assert((b + 1) * ts <= nb * ts && (b + 1) * ts == b * ts + ts) by (nonlinear_arith)
                requires
                    b + 1 <= nb,
                    ts >= 0,
            ;
            assert((b + 1) * np * 36 <= nb * np * 36 && (b + 1) * np == b * np + np && b * np >= 0)
                by (nonlinear_arith)
                requires
                    b + 1 <= nb,
                    np >= 0,
                    b >= 0,
            ;
            let blk = slice_subrange(w, b * ts, b * ts + ts);
            let start = if sh == Shape::Whole {
                0
            } else {
                acc
            };
            let mut sub: u32 = start;
            let mut k: usize = 0;
            while k < np
                invariant
                    self.works(),
                    dots(t),
                    f == self.ops(),
                    np == parts(t),
                    al == a@.len(),
                    b * np + np <= al,
                    (b * np + np) * 36 <= al,
                    blk@.len() == t.block_bytes(),
                    k <= np,
                    sub == with_parts(f, t, blk@, a@, (b * np) as int, k as nat, start),
                decreases np - k,
            {
                let y = ablk(a, b * np + k);
                sub = self.dot_part(t, blk, y, k, sub);
                k = k + 1;
            }
            if sh == Shape::Whole {
                acc = self.sum(acc, self.prod(self.block_base(t, blk), sub));
            } else {
                acc = sub;
            }
            b = b + 1;
        }
        acc
    }

    /// Dot product of a float-typed weight row with a plain activation row.
    pub fn vec_dot_f32(&self, t: DType, n: usize, w: &[u8], a: &[u32]) -> (r: u32)
        requires
            self.works(),
            float_type(t) ==> n * t.block_bytes() <= w@.len() && n <= a@.len(),
        ensures
            float_type(t) ==> r == float_dot(self.ops(), t, w@, a@, n as nat),
            !float_type(t) ==> r == 0,
    {
        if !is_float(t) {
            return 0;
        }
        let ghost f = self.ops();
        let wl = w.len();
        let mut acc: u32 = 0;
        let mut i: usize = 0;
        while i < n
            invariant
                self.works(),
                f == self.ops(),
                float_type(t),
                wl == w@.len(),
                n * t.block_bytes() <= wl,
                n <= a@.len(),
                i <= n,
                acc == float_dot(f, t, w@, a@, i as nat),
            decreases n - i,
        {
            let x = match t {
                DType::F32 => read_le32(w, 4 * i),
                DType::F16 => self.half(read_le16(w, 2 * i)),
                _ => (read_le16(w, 2 * i) as u32) * 0x1_0000,
            };
            acc = self.sum(acc, self.prod(x, a[i]));
            i = i + 1;
        }
        acc
    }
}

} // verus!
