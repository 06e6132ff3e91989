//! Weights times activations, and rows looked up.
//!
//! Activations are quantized to Q8_1 and multiplied with a weight in its own block layout, so
//! a quantized weight is never expanded. Float weights multiply activations as they are.

use vstd::prelude::*;
use vstd::slice::slice_subrange;

use super::ops::{opt_seq, scaled, total};
use crate::dtype::{DType, QuantView};
use crate::error::Error;
use crate::quant::dequant::{decode_fault, element};
use crate::quant::dot::{dots, float_dot, float_type, is_float, parts, row_dot};
use crate::quant::quantize::{q8_blocks, q8_row, Q8_1_BLOCK};
use crate::single::{equal, is_equal, plus, times, Arith, FloatOp, Ops, UNIT};

verus! {

/// The bytes of row `r` of a weight.
pub open spec fn weight_row(w: QuantView<'_>, r: int) -> Seq<u8> {
    w.data@.subrange(r * w.row_len(), (r + 1) * w.row_len())
}

/// A weight row times `n` activations, which are given as they are and quantized.
pub open spec fn dot_row(f: Ops, t: DType, row: Seq<u8>, x: Seq<u32>, xq: Seq<u8>, n: nat) -> u32 {
    if float_type(t) {
        float_dot(f, t, row, x, n)
    } else if dots(t) {
        row_dot(f, t, row, xq, n / t.block_len())
    } else {
        0
    }
}

/// What is added to output row `r`.
pub open spec fn bias_at(bias: Option<Seq<u32>>, r: int) -> u32 {
    match bias {
        Some(b) => b[r],
        None => 0,
    }
}

/// The output of one token.
pub open spec fn matmul_token_of(
    f: Ops,
    w: QuantView<'_>,
    x: Seq<u32>,
    bias: Option<Seq<u32>>,
    n_out: nat,
) -> Seq<u32> {
    Seq::new(
        n_out,
        |r: int|
            plus(
                f,
                dot_row(f, w.dtype, weight_row(w, r), x, q8_row(f, x), x.len()),
                bias_at(bias, r),
            ),
    )
}

/// The outputs of `n` tokens.
pub open spec fn matmul_of(
    f: Ops,
    w: QuantView<'_>,
    x: Seq<u32>,
    bias: Option<Seq<u32>>,
    n_out: nat,
    n: nat,
) -> Seq<u32>
    decreases n,
{
    if n == 0 {
        Seq::empty()
    } else {
        matmul_of(f, w, x, bias, n_out, (n - 1) as nat) + matmul_token_of(
            f,
            w,
            x.subrange((n - 1) * w.cols, n * w.cols),
            bias,
            n_out,
        )
    }
}

pub open spec fn product_seq(f: Ops, a: Seq<u32>, b: Seq<u32>) -> Seq<u32> {
    Seq::new(a.len(), |i: int| times(f, a[i], b[i]))
}

/// The output of one token for a dense weight.
pub open spec fn dense_token_of(
    f: Ops,
    w: Seq<u32>,
    x: Seq<u32>,
    bias: Option<Seq<u32>>,
    n_out: nat,
) -> Seq<u32> {
    let n = x.len();
    Seq::new(
        n_out,
        |r: int|
            plus(
                f,
                total(f, product_seq(f, w.subrange(r * n, (r + 1) * n), x), n),
                bias_at(bias, r),
            ),
    )
}

pub open spec fn dense_of(
    f: Ops,
    w: Seq<u32>,
    x: Seq<u32>,
    bias: Option<Seq<u32>>,
    n_out: nat,
    n_in: int,
    n: nat,
) -> Seq<u32>
    decreases n,
{
    if n == 0 {
        Seq::empty()
    } else {
        dense_of(f, w, x, bias, n_out, n_in, (n - 1) as nat) + dense_token_of(
            f,
            w,
            x.subrange((n - 1) * n_in, n * n_in),
            bias,
            n_out,
        )
    }
}

/// The row that is looked up for a token: the last one where there are fewer.
pub open spec fn row_for(token: u32, rows: usize) -> int {
    if token < rows {
        token as int
    } else if rows > 0 {
        rows - 1
    } else {
        0
    }
}

/// A weight row decoded and scaled.
pub open spec fn embedding_of(f: Ops, w: QuantView<'_>, token: u32, scale: u32) -> Seq<u32> {
    let x = Seq::new(
        w.cols as nat,
        |i: int| element(f, w.dtype, weight_row(w, row_for(token, w.rows)), i),
    );
    if equal(scale, UNIT) {
        x
    } else {
        scaled(f, x, scale)
    }
}

pub open spec fn embeddings_of(f: Ops, w: QuantView<'_>, tokens: Seq<u32>, scale: u32, n: nat) -> Seq<
    u32,
>
    decreases n,
{
    if n == 0 {
        Seq::empty()
    } else {
        embeddings_of(f, w, tokens, scale, (n - 1) as nat) + embedding_of(
            f,
            w,
            tokens[n - 1],
            scale,
        )
    }
}

/// Blocks of a type take no more activation blocks than the activations fill.
pub proof fn parts_fit(t: DType, n: nat)
    requires
        dots(t),
    ensures
        n / t.block_len() * parts(t) * Q8_1_BLOCK <= q8_blocks(n) * Q8_1_BLOCK,
{
    assert(t.block_len() == 32 || t.block_len() == 256);
    let b = n / t.block_len();
    if t.block_len() == 32 {
        assert(parts(t) == 1);
        assert(b * 1 == b);
        assert(n / 32 <= (n + 31) / 32);
    } else {
        assert(parts(t) == 8);
        assert(n / 256 * 8 <= (n + 31) / 32);
    }
}

proof fn rows_lie_inside(r: int, n: int, len: int)
    requires
        0 <= r < n,
        0 <= len,
    ensures
        0 <= r * len,
        r * len + len == (r + 1) * len,
        (r + 1) * len <= n * len,
{
    assert(0 <= r * len && r * len + len == (r + 1) * len && (r + 1) * len <= n * len)
        by (nonlinear_arith)
        requires
            0 <= r < n,
            0 <= len,
    ;
}

impl<A: Fn(FloatOp, u32, u32) -> u32> Arith<A> {
    /// A weight row times `n` activations.
    pub fn dot_row(&self, t: DType, row: &[u8], x: &[u32], xq: &[u8], n: usize) -> (r: u32)
        requires
            self.works(),
            t.bytes_for(n as nat) <= row@.len(),
            float_type(t) ==> n <= x@.len(),
            dots(t) ==> q8_blocks(n as nat) * Q8_1_BLOCK <= xq@.len(),
        ensures
            r == dot_row(self.ops(), t, row@, x@, xq@, n as nat),
    {
        if is_float(t) {
            assert(t.block_len() == 1 && n as nat / 1 == n);
            self.vec_dot_f32(t, n, row, x)
        } else {
            proof {
                if dots(t) {
                    parts_fit(t, n as nat);
                }
            }
            self.vec_dot_q8_1(t, n, row, xq)
        }
    }

    /// The activations of a token as its weight wants them: quantized, or nothing.
    fn staged(&self, t: DType, x: &[u32]) -> (r: Vec<u8>)
        requires
            self.works(),
            q8_blocks(x@.len()) * Q8_1_BLOCK <= usize::MAX,
        ensures
            !float_type(t) ==> r@ == q8_row(self.ops(), x@),
    {
        if is_float(t) {
            Vec::new()
        } else {
            self.quantize_q8_1(x)
        }
    }

    /// The output of one token.
    pub fn matmul_token(&self, w: &QuantView<'_>, x: &[u32], bias: Option<&[u32]>, n_out: usize) -> (r:
        Vec<u32>)
        requires
            self.works(),
            x@.len() == w.cols,
            q8_blocks(x@.len()) * Q8_1_BLOCK <= usize::MAX,
            n_out * w.row_len() <= w.data@.len(),
            opt_seq(bias) matches Some(b) ==> n_out <= b.len(),
        ensures
            r@ == matmul_token_of(self.ops(), *w, x@, opt_seq(bias), n_out as nat),
            r@.len() == n_out,
    {
        let ghost f = self.ops();
        let ghost want = matmul_token_of(f, *w, x@, opt_seq(bias), n_out as nat);
        let xq = self.staged(w.dtype, x);
        let mut out: Vec<u32> = Vec::new();
        let mut r: usize = 0;
        while r < n_out
            invariant
                self.works(),
                f == self.ops(),
                x@.len() == w.cols,
                n_out * w.row_len() <= w.data@.len(),
                opt_seq(bias) matches Some(b) ==> n_out <= b.len(),
                want == matmul_token_of(f, *w, x@, opt_seq(bias), n_out as nat),
                !float_type(w.dtype) ==> xq@ == q8_row(f, x@),
                r <= n_out,
                out@ == want.take(r as int),
            decreases n_out - r,
        {
            proof {
                rows_lie_inside(r as int, n_out as int, w.row_len() as int);
            }
            let row = w.row(r);
            let b = match bias {
                Some(b) => b[r],
                None => 0,
            };
            let v = self.dot_row(w.dtype, row, x, xq.as_slice(), w.cols);
            out.push(self.plus(v, b));
            r = r + 1;
            assert(out@ =~= want.take(r as int));
        }
        assert(want.take(r as int) =~= want);
        out
    }

    /// The outputs of `n` tokens.
    pub fn matmul(
        &self,
        w: &QuantView<'_>,
        x: &[u32],
        bias: Option<&[u32]>,
        n_out: usize,
        n: usize,
    ) -> (r: Vec<u32>)
        requires
            self.works(),
            n * w.cols <= x@.len(),
            q8_blocks(w.cols as nat) * Q8_1_BLOCK <= usize::MAX,
            n_out * w.row_len() <= w.data@.len(),
            opt_seq(bias) matches Some(b) ==> n_out <= b.len(),
        ensures
            r@ == matmul_of(self.ops(), *w, x@, opt_seq(bias), n_out as nat, n as nat),
            r@.len() == n * n_out,
    {
        let ghost f = self.ops();
        let cols = w.cols;
        let len = x.len();
        let mut out: Vec<u32> = Vec::new();
        let mut t: usize = 0;
        while t < n
            invariant
                self.works(),
                f == self.ops(),
                cols == w.cols,
                len == x@.len(),
                n * cols <= len,
                q8_blocks(w.cols as nat) * Q8_1_BLOCK <= usize::MAX,
                n_out * w.row_len() <= w.data@.len(),
                opt_seq(bias) matches Some(b) ==> n_out <= b.len(),
                t <= n,
                out@ == matmul_of(f, *w, x@, opt_seq(bias), n_out as nat, t as nat),
                out@.len() == t * n_out,
            decreases n - t,
        {
            proof {
                rows_lie_inside(t as int, n as int, cols as int);
                rows_lie_inside(t as int, n as int, n_out as int);
            }
            let a = slice_subrange(x, t * cols, t * cols + cols);
            let mut y = self.matmul_token(w, a, bias, n_out);
            out.append(&mut y);
            t = t + 1;
        }
        out
    }

    /// The sum of the products of two rows.
    fn products(&self, a: &[u32], b: &[u32]) -> (r: u32)
        requires
            self.works(),
            a@.len() == b@.len(),
        ensures
            r == total(self.ops(), product_seq(self.ops(), a@, b@), a@.len()),
    {
        let ghost f = self.ops();
        let ghost want = product_seq(f, a@, b@);
        let mut acc: u32 = 0;
        let mut i: usize = 0;
        while i < a.len()
            invariant
                self.works(),
                f == self.ops(),
                a@.len() == b@.len(),
                want == product_seq(f, a@, b@),
                i <= a@.len(),
                acc == total(f, want, i as nat),
            decreases a@.len() - i,
        {
            acc = self.plus(acc, self.times(a[i], b[i]));
            i = i + 1;
        }
        acc
    }

    fn dense_token(&self, w: &[u32], x: &[u32], bias: Option<&[u32]>, n_out: usize) -> (r: Vec<u32>)
        requires
            self.works(),
            n_out * x@.len() <= w@.len(),
            opt_seq(bias) matches Some(b) ==> n_out <= b.len(),
        ensures
            r@ == dense_token_of(self.ops(), w@, x@, opt_seq(bias), n_out as nat),
            r@.len() == n_out,
    {
        let ghost f = self.ops();
        let ghost want = dense_token_of(f, w@, x@, opt_seq(bias), n_out as nat);
        let n = x.len();
        let len = w.len();
        let mut out: Vec<u32> = Vec::new();
        let mut r: usize = 0;
        while r < n_out
            invariant
                self.works(),
                f == self.ops(),
                n == x@.len(),
                len == w@.len(),
                n_out * n <= len,
                opt_seq(bias) matches Some(b) ==> n_out <= b.len(),
                want == dense_token_of(f, w@, x@, opt_seq(bias), n_out as nat),
                r <= n_out,
                out@ == want.take(r as int),
            decreases n_out - r,
        {
            proof {
                rows_lie_inside(r as int, n_out as int, n as int);
            }
            let row = slice_subrange(w, r * n, r * n + n);
            let b = match bias {
                Some(b) => b[r],
                None => 0,
            };
            out.push(self.plus(self.products(row, x), b));
            r = r + 1;
            assert(out@ =~= want.take(r as int));
        }
        assert(want.take(r as int) =~= want);
        out
    }

    /// The outputs of `n` tokens for a dense weight of `n_out` rows and `n_in` columns.
    pub fn matmul_dense(
        &self,
        w: &[u32],
        x: &[u32],
        bias: Option<&[u32]>,
        n_out: usize,
        n_in: usize,
        n: usize,
    ) -> (r: Vec<u32>)
        requires
            self.works(),
            n_out * n_in <= w@.len(),
            n * n_in <= x@.len(),
            opt_seq(bias) matches Some(b) ==> n_out <= b.len(),
        ensures
            r@ == dense_of(
                self.ops(),
                w@,
                x@,
                opt_seq(bias),
                n_out as nat,
                n_in as int,
                n as nat,
            ),
            r@.len() == n * n_out,
    {
        let len = x.len();
        let mut out: Vec<u32> = Vec::new();
        let mut t: usize = 0;
        while t < n
            invariant
                self.works(),
                len == x@.len(),
                n_out * n_in <= w@.len(),
                n * n_in <= len,
                opt_seq(bias) matches Some(b) ==> n_out <= b.len(),
                t <= n,
                out@ == dense_of(
                    self.ops(),
                    w@,
                    x@,
                    opt_seq(bias),
                    n_out as nat,
                    n_in as int,
                    t as nat,
                ),
                out@.len() == t * n_out,
            decreases n - t,
        {
            proof {
                rows_lie_inside(t as int, n as int, n_in as int);
                rows_lie_inside(t as int, n as int, n_out as int);
            }
            let a = slice_subrange(x, t * n_in, t * n_in + n_in);
            let mut y = self.dense_token(w, a, bias, n_out);
            out.append(&mut y);
            t = t + 1;
        }
        out
    }

    /// The rows that tokens name, decoded and scaled.
    pub fn get_rows(&self, w: &QuantView<'_>, tokens: &[u32], scale: u32) -> (r: Result<
        Vec<u32>,
        Error,
    >)
        requires
            self.works(),
            tokens@.len() > 0 ==> w.rows > 0,
            w.rows * w.row_len() <= w.data@.len(),
            w.row_len() <= usize::MAX,
        ensures
            match decode_fault(w.dtype, w.row_len(), w.cols as nat, w.cols as nat) {
                Some(e) => if tokens@.len() > 0 {
                    r is Err && r->Err_0@ == e
                } else {
                    r is Ok && r->Ok_0@.len() == 0
                },
                None => r is Ok && r->Ok_0@ == embeddings_of(
                    self.ops(),
                    *w,
                    tokens@,
                    scale,
                    tokens@.len(),
                ) && r->Ok_0@.len() == tokens@.len() * w.cols,
            },
    {
        let ghost f = self.ops();
        let mut out: Vec<u32> = Vec::new();
        let mut t: usize = 0;
        while t < tokens.len()
            invariant
                self.works(),
                f == self.ops(),
                tokens@.len() > 0 ==> w.rows > 0,
                w.rows * w.row_len() <= w.data@.len(),
                w.row_len() <= usize::MAX,
                t <= tokens@.len(),
                t > 0 ==> decode_fault(w.dtype, w.row_len(), w.cols as nat, w.cols as nat) is None,
                out@ == embeddings_of(f, *w, tokens@, scale, t as nat),
                out@.len() == t * w.cols,
            decreases tokens@.len() - t,
        {
            let want = tokens[t];
            let at: usize = if (want as u64) < w.rows as u64 {
                want as usize
            } else {
                w.rows - 1
            };
            proof {
                rows_lie_inside(at as int, w.rows as int, w.row_len() as int);
                rows_lie_inside(t as int, tokens@.len() as int, w.cols as int);
            }
            let row = w.row(at);
            let mut x = self.dequantize(w.dtype, row, w.cols, w.cols)?;
            if !is_equal(scale, UNIT) {
                x = self.scaled(x.as_slice(), scale);
            }
            assert(x@ =~= embedding_of(f, *w, want, scale));
            out.append(&mut x);
            t = t + 1;
        }
        Ok(out)
    }
}

} // verus!
