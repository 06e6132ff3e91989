//! Activation quantization.
//!
//! Matrix-vector and matrix-matrix products against quantized weights run far faster as integer
//! dot products than as float ones, but that requires the *activation* to be quantized too.
//! Q8_1 is the universal staging format here: 32-element blocks carrying an f16 scale and an
//! f16 pre-computed sum, the latter being exactly what the asymmetric quantizations (Q4_1,
//! Q4_K, Q5_K, ...) need to fold in their per-block minimum.

use vstd::prelude::*;
use vstd::slice::slice_subrange;

use super::block::{le16_at, read_le16, signed};
use crate::single::{
    abs_of, half, is_less, larger, larger_of, less, magnitude, over, times, whole, Arith, FloatOp,
    Ops, UNIT,
};

verus! {

/// Bytes per Q8_1 block: `f16 d, f16 s, i8 qs[32]`.
pub const Q8_1_BLOCK: usize = 36;

pub const Q8_1_SIZE: usize = 32;

/// The bits of 127.
pub const MOST: u32 = 0x42fe_0000;

/// How many Q8_1 blocks `n` values take.
pub open spec fn q8_blocks(n: nat) -> nat {
    (n + 31) / 32
}

/// Bytes needed to hold `n` values as Q8_1. `n` is rounded up to a whole block.
pub fn q8_1_bytes(n: usize) -> (r: usize)
    requires
        q8_blocks(n as nat) * Q8_1_BLOCK <= usize::MAX,
    ensures
        r == q8_blocks(n as nat) * Q8_1_BLOCK,
{
    let blocks = if n % Q8_1_SIZE == 0 {
        n / Q8_1_SIZE
    } else {
        n / Q8_1_SIZE + 1
    };
    assert(blocks == q8_blocks(n as nat));
    blocks * Q8_1_BLOCK
}

/// The largest magnitude among values `lo..hi`.
pub open spec fn largest(x: Seq<u32>, lo: int, hi: int) -> u32
    decreases hi - lo,
{
    if hi <= lo {
        0
    } else {
        larger(largest(x, lo, hi - 1), magnitude(x[hi - 1]))
    }
}

/// The end of block `b`, which the last one may not fill.
pub open spec fn block_end(n: nat, b: int) -> int {
    if b * 32 + 32 <= n {
        b * 32 + 32
    } else {
        n as int
    }
}

/// The step of block `b`: a 127th of its largest magnitude.
pub open spec fn step(f: Ops, x: Seq<u32>, b: int) -> u32 {
    over(f, largest(x, b * 32, block_end(x.len(), b)), MOST)
}

/// What the values of block `b` are multiplied by.
pub open spec fn inverse(f: Ops, x: Seq<u32>, b: int) -> u32 {
    let d = step(f, x, b);
    if less(0, d) {
        over(f, UNIT, d)
    } else {
        0
    }
}

pub open spec fn cut(q: int) -> int {
    if q < -127 {
        -127
    } else if q > 127 {
        127
    } else {
        q
    }
}

/// Code `i` of block `b`. What the block does not fill is zero, as the file format pads the
/// weights.
pub open spec fn q8_code(f: Ops, x: Seq<u32>, b: int, i: int) -> int {
    if b * 32 + i < x.len() {
        cut(f(FloatOp::Round, times(f, x[b * 32 + i], inverse(f, x, b)), 0) as i32 as int)
    } else {
        0
    }
}

/// The sum of the first `n` codes of block `b`.
pub open spec fn q8_code_sum(f: Ops, x: Seq<u32>, b: int, n: nat) -> int
    decreases n,
{
    if n == 0 {
        0
    } else {
        q8_code_sum(f, x, b, (n - 1) as nat) + q8_code(f, x, b, n - 1)
    }
}

pub open spec fn to_half(f: Ops, v: u32) -> u16 {
    f(FloatOp::ToHalf, v, 0) as u16
}

pub open spec fn byte_of_code(q: int) -> u8 {
    if q < 0 {
        (q + 256) as u8
    } else {
        q as u8
    }
}

/// Block `b`: the step, the sum of the codes times the step, and the codes.
pub open spec fn q8_block(f: Ops, x: Seq<u32>, b: int) -> Seq<u8> {
    let d = step(f, x, b);
    let dh = to_half(f, d);
    let sh = to_half(f, times(f, whole(f, q8_code_sum(f, x, b, 32)), d));
    Seq::new(
        36,
        |k: int|
            if k == 0 {
                (dh % 256) as u8
            } else if k == 1 {
                (dh / 256) as u8
            } else if k == 2 {
                (sh % 256) as u8
            } else if k == 3 {
                (sh / 256) as u8
            } else {
                byte_of_code(q8_code(f, x, b, k - 4))
            },
    )
}

/// All blocks of `x`, one after the other.
pub open spec fn q8_row(f: Ops, x: Seq<u32>) -> Seq<u8> {
    Seq::new(q8_blocks(x.len()) * 36, |k: int| q8_block(f, x, k / 36)[k % 36])
}

/// The rows of `n` tokens of `dim` values each, one after the other.
pub open spec fn q8_rows(f: Ops, x: Seq<u32>, dim: int, n: nat) -> Seq<u8>
    decreases n,
{
    if n == 0 {
        Seq::empty()
    } else {
        q8_rows(f, x, dim, (n - 1) as nat) + q8_row(f, x.subrange((n - 1) * dim, n * dim))
    }
}

/// A code comes back from its byte as it was.
pub proof fn codes_read_back(f: Ops, x: Seq<u32>, b: int, i: int)
    requires
        0 <= i < 32,
    ensures
        signed(q8_block(f, x, b)[4 + i]) == q8_code(f, x, b, i),
{
}

fn byte_code(q: i32) -> (r: u8)
    requires
        -127 <= q <= 127,
    ensures
        r == byte_of_code(q as int),
{
    if q < 0 {
        (q + 256) as u8
    } else {
        q as u8
    }
}

impl<A: Fn(FloatOp, u32, u32) -> u32> Arith<A> {
    /// Appends one block.
    fn quantize_block(&self, x: &[u32], b: usize, out: &mut Vec<u8>)
        requires
            self.works(),
            b * 32 < x@.len(),
        ensures
            final(out)@ == old(out)@ + q8_block(self.ops(), x@, b as int),
    {
        let ghost f = self.ops();
        let ghost start = out@;
        let n = x.len();
        let lo = b * 32;
        let hi = if n - lo >= 32 {
            lo + 32
        } else {
            n
        };
        let mut amax: u32 = 0;
        let mut i: usize = lo;
        while i < hi
            invariant
                lo <= i <= hi <= x@.len(),
                amax == largest(x@, lo as int, i as int),
            decreases hi - i,
        {
            amax = larger_of(amax, abs_of(x[i]));
            i = i + 1;
        }
        let d = self.run(FloatOp::Div, amax, MOST);
        let id = if is_less(0, d) {
            self.run(FloatOp::Div, UNIT, d)
        } else {
            0
        };
        assert(d == step(f, x@, b as int));
        assert(id == inverse(f, x@, b as int));
        let mut codes: Vec<u8> = Vec::new();
        let mut sum: i32 = 0;
        let mut k: usize = 0;
        while k < 32
            invariant
                self.works(),
                f == self.ops(),
                k <= 32,
                n == x@.len(),
                lo == b * 32,
                lo < n,
                id == inverse(f, x@, b as int),
                sum == q8_code_sum(f, x@, b as int, k as nat),
                -127 * k <= sum <= 127 * k,
                codes@.len() == k,
                forall|j: int|
                    0 <= j < k ==> (#[trigger] codes@[j]) == byte_of_code(
                        q8_code(f, x@, b as int, j),
                    ),
            decreases 32 - k,
        {
            let q: i32 = if k < n - lo {
                let r = self.run(FloatOp::Round, self.run(FloatOp::Mul, x[lo + k], id), 0) as i32;
                if r < -127 {
                    -127
                } else if r > 127 {
                    127
                } else {
                    r
                }
            } else {
                0
            };
            assert(q == q8_code(f, x@, b as int, k as int));
            codes.push(byte_code(q));
            sum = sum + q;
            k = k + 1;
        }
        let dh = self.run(FloatOp::ToHalf, d, 0) as u16;
        let sh = self.run(FloatOp::ToHalf, self.run(FloatOp::Mul, self.whole(sum), d), 0) as u16;
        out.push((dh % 256) as u8);
        out.push((dh / 256) as u8);
        out.push((sh % 256) as u8);
        out.push((sh / 256) as u8);
        out.append(&mut codes);
        assert(out@ =~= start + q8_block(f, x@, b as int));
    }

    /// Quantizes `x` to Q8_1 blocks. A trailing partial block is zero-padded, which is correct
    /// because the matching weight block is padded the same way by the file format.
    pub fn quantize_q8_1(&self, x: &[u32]) -> (out: Vec<u8>)
        requires
            self.works(),
            q8_blocks(x@.len()) * Q8_1_BLOCK <= usize::MAX,
        ensures
            out@ == q8_row(self.ops(), x@),
    {
        let ghost f = self.ops();
        let n = x.len();
        let nb = q8_1_bytes(n) / Q8_1_BLOCK;
        assert(nb == q8_blocks(n as nat));
        let mut out: Vec<u8> = Vec::new();
        let mut b: usize = 0;
        while b < nb
            invariant
                self.works(),
                f == self.ops(),
                n == x@.len(),
                nb == q8_blocks(n as nat),
                b <= nb,
                out@ =~= q8_row(f, x@).take(b * 36),
            decreases nb - b,
        {
            let ghost before = out@;
            self.quantize_block(x, b, &mut out);
            assert(out@ =~= q8_row(f, x@).take((b + 1) * 36)) by {
                assert forall|k: int| 0 <= k < 36 implies #[trigger] q8_row(f, x@)[b * 36 + k]
                    == q8_block(f, x@, b as int)[k] by {
                    assert((b * 36 + k) / 36 == b && (b * 36 + k) % 36 == k);
                }
                assert forall|k: int| 0 <= k < (b + 1) * 36 implies out@[k] == q8_row(f, x@)[k] by {
                    if k >= b * 36 {
                        let j = k - b * 36;
                        assert(out@[k] == q8_block(f, x@, b as int)[j]);
                        assert(q8_row(f, x@)[b * 36 + j] == q8_block(f, x@, b as int)[j]);
                    } else {
                        assert(out@[k] == before[k]);
                    }
                }
            }
            b = b + 1;
        }
        assert(q8_row(f, x@).take(nb * 36) =~= q8_row(f, x@));
        out
    }

    /// Quantizes a batch of `n_tokens` rows of `dim` values each into contiguous Q8_1 rows.
    pub fn quantize_q8_1_batch(&self, x: &[u32], dim: usize, n_tokens: usize) -> (out: Vec<u8>)
        requires
            self.works(),
            n_tokens * dim <= x@.len(),
            q8_blocks(dim as nat) * Q8_1_BLOCK <= usize::MAX,
        ensures
            out@ == q8_rows(self.ops(), x@, dim as int, n_tokens as nat),
    {
        let ghost f = self.ops();
        let len = x.len();
        let mut out: Vec<u8> = Vec::new();
        let mut t: usize = 0;
        while t < n_tokens
            invariant
                self.works(),
                f == self.ops(),
                len == x@.len(),
                n_tokens * dim <= len,
                q8_blocks(dim as nat) * Q8_1_BLOCK <= usize::MAX,
                t <= n_tokens,
                out@ == q8_rows(f, x@, dim as int, t as nat),
            decreases n_tokens - t,
        {
            assert(t * dim + dim <= n_tokens * dim && t * dim + dim == (t + 1) * dim && t * dim >= 0)
                by (nonlinear_arith)
                requires
                    t + 1 <= n_tokens,
                    dim >= 0,
                    t >= 0,
            ;
            let row = slice_subrange(x, t * dim, t * dim + dim);
            let mut more = self.quantize_q8_1(row);
            out.append(&mut more);
            t = t + 1;
        }
        out
    }

    /// The scale of a block.
    pub fn q8_1_scale(&self, blk: &[u8]) -> (r: u32)
        requires
            self.works(),
            blk@.len() >= 36,
        ensures
            r == half(self.ops(), le16_at(blk@, 0)),
    {
        self.half(read_le16(blk, 0))
    }

    /// The block's `sum(q) * d`, i.e. the sum of the dequantized activations.
    pub fn q8_1_sum(&self, blk: &[u8]) -> (r: u32)
        requires
            self.works(),
            blk@.len() >= 36,
        ensures
            r == half(self.ops(), le16_at(blk@, 2)),
    {
        self.half(read_le16(blk, 2))
    }
}

/// Code `j` of a block.
pub fn q8_1_quant(blk: &[u8], j: usize) -> (r: i32)
    requires
        blk@.len() >= 36,
        j < 32,
    ensures
        r == signed(blk@[4 + j]),
        -128 <= r <= 127,
{
    let b = blk[4 + j];
    if b < 128 {
        b as i32
    } else {
        b as i32 - 256
    }
}

} // verus!
