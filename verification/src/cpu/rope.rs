//! Rotary position embedding.

use vstd::prelude::*;
use vstd::slice::slice_subrange;

use super::ops::opt_seq;
use crate::backend::RopeKind;
use crate::single::{
    clamp_of, clamped, count, equal, is_equal, larger, larger_of, minus, of, over, plus, smaller,
    smaller_of, times, whole, Arith, FloatOp, Ops, UNIT,
};

verus! {

/// The bits of 2.
pub const TWO: u32 = 0x4000_0000;

/// The bits of -2.
pub const MINUS_TWO: u32 = 0xc000_0000;

/// The bits of pi.
pub const PI: u32 = 0x4049_0fdb;

/// The bits of 0.001.
pub const THOUSANDTH: u32 = 0x3a83_126f;

/// The bits of 0.1.
pub const TENTH: u32 = 0x3dcc_cccd;

/// What a rotation is told, by bits.
pub struct RopeBits {
    pub kind: RopeKind,
    pub head_dim: usize,
    pub n_rot: u32,
    pub orig_ctx: u32,
    pub freq_base: u32,
    pub freq_scale: u32,
    pub ext_factor: u32,
    pub attn_factor: u32,
    pub beta_fast: u32,
    pub beta_slow: u32,
}

/// The rotary dimension at which a number of rotations is made over the original context.
pub open spec fn corr_dim(f: Ops, c: RopeBits, rot: u32) -> u32 {
    over(
        f,
        times(
            f,
            count(f, c.n_rot),
            of(f, FloatOp::Ln, over(f, count(f, c.orig_ctx), times(f, times(f, rot, TWO), PI))),
        ),
        times(f, TWO, of(f, FloatOp::Ln, c.freq_base)),
    )
}

/// YaRN's dimension correction range, in units of rotary dimension pairs.
pub open spec fn corr_range(f: Ops, c: RopeBits) -> (u32, u32) {
    (
        larger(of(f, FloatOp::Floor, corr_dim(f, c, c.beta_fast)), 0),
        smaller(
            of(f, FloatOp::Ceil, corr_dim(f, c, c.beta_slow)),
            minus(f, count(f, c.n_rot), UNIT),
        ),
    )
}

/// The range where YaRN is on.
pub open spec fn corr_dims(f: Ops, c: RopeBits) -> (u32, u32) {
    if equal(c.ext_factor, 0) {
        (0, 0)
    } else {
        corr_range(f, c)
    }
}

/// YaRN's magnitude correction.
pub open spec fn magnitude_scale(f: Ops, c: RopeBits) -> u32 {
    if equal(c.ext_factor, 0) {
        c.attn_factor
    } else {
        times(
            f,
            c.attn_factor,
            plus(f, UNIT, times(f, TENTH, of(f, FloatOp::Ln, over(f, UNIT, c.freq_scale)))),
        )
    }
}

pub open spec fn ramp(f: Ops, low: u32, high: u32, k: u32) -> u32 {
    let y = over(f, minus(f, count(f, k), low), larger(minus(f, high, low), THOUSANDTH));
    minus(f, UNIT, clamped(y, 0, UNIT))
}

/// The dimensions of a head that are rotated.
pub open spec fn rotary(c: RopeBits) -> nat {
    if c.n_rot as nat <= c.head_dim as nat {
        c.n_rot as nat
    } else {
        c.head_dim as nat
    }
}

/// The angle by which pair `k` of `n` rotary dimensions turns at a position.
pub open spec fn angle(f: Ops, c: RopeBits, pos: u32, factor: u32, k: u32, n: u32) -> u32 {
    let power = over(f, times(f, MINUS_TWO, count(f, k)), count(f, n));
    let te = over(f, times(f, pos, f(FloatOp::Pow, c.freq_base, power)), factor);
    let ti = times(f, c.freq_scale, te);
    if equal(c.ext_factor, 0) {
        ti
    } else {
        let (low, high) = corr_range(f, c);
        let mix = times(f, ramp(f, low, high, k), c.ext_factor);
        plus(f, times(f, ti, minus(f, UNIT, mix)), times(f, te, mix))
    }
}

/// What divides the frequency of a pair.
pub open spec fn factor_of(factors: Option<Seq<u32>>, k: int) -> u32 {
    match factors {
        Some(s) => if k < s.len() {
            s[k]
        } else {
            UNIT
        },
        None => UNIT,
    }
}

/// The places that pair `k` of `n` rotary dimensions joins.
pub open spec fn pair(kind: RopeKind, k: int, n: int) -> (int, int) {
    if kind == RopeKind::Norm {
        (2 * k, 2 * k + 1)
    } else {
        (k, k + n / 2)
    }
}

/// A head with one pair turned by an angle.
pub open spec fn turned(f: Ops, head: Seq<u32>, a: int, b: int, theta: u32, scale: u32) -> Seq<u32> {
    let sin = times(f, of(f, FloatOp::Sin, theta), scale);
    let cos = times(f, of(f, FloatOp::Cos, theta), scale);
    head.update(a, minus(f, times(f, head[a], cos), times(f, head[b], sin))).update(
        b,
        plus(f, times(f, head[a], sin), times(f, head[b], cos)),
    )
}

/// A head with its first `k` pairs turned.
pub open spec fn rotated(
    f: Ops,
    c: RopeBits,
    head: Seq<u32>,
    pos: u32,
    factors: Option<Seq<u32>>,
    k: nat,
) -> Seq<u32>
    decreases k,
{
    if k == 0 {
        head
    } else {
        let n = rotary(c);
        let (a, b) = pair(c.kind, k - 1, n as int);
        turned(
            f,
            rotated(f, c, head, pos, factors, (k - 1) as nat),
            a,
            b,
            angle(f, c, pos, factor_of(factors, k - 1), (k - 1) as u32, n as u32),
            magnitude_scale(f, c),
        )
    }
}

/// The pairs that are turned.
pub open spec fn pairs(c: RopeBits) -> nat {
    if c.kind == RopeKind::NoRope {
        0
    } else {
        (rotary(c) + 1) / 2
    }
}

/// The position of a token, zero where none is given.
pub open spec fn position(positions: Seq<i32>, t: int) -> int {
    if t < positions.len() {
        positions[t] as int
    } else {
        0
    }
}

/// The first `j` heads, those of a token one after the other.
pub open spec fn roped(
    f: Ops,
    c: RopeBits,
    x: Seq<u32>,
    positions: Seq<i32>,
    n_heads: int,
    factors: Option<Seq<u32>>,
    j: nat,
) -> Seq<u32>
    decreases j,
{
    if j == 0 {
        Seq::empty()
    } else {
        roped(f, c, x, positions, n_heads, factors, (j - 1) as nat) + rotated(
            f,
            c,
            x.subrange((j - 1) * c.head_dim, j * c.head_dim),
            whole(f, position(positions, (j - 1) / n_heads)),
            factors,
            pairs(c),
        )
    }
}

/// Dimensions at or beyond the rotary ones are left untouched, which is how partial-rotary
/// models keep part of each head unrotated.
pub proof fn rest_of_a_head_stays(
    f: Ops,
    c: RopeBits,
    head: Seq<u32>,
    pos: u32,
    factors: Option<Seq<u32>>,
    k: nat,
    i: int,
)
    requires
        head.len() == c.head_dim,
        k <= pairs(c),
        c.kind == RopeKind::Norm ==> rotary(c) % 2 == 0,
        rotary(c) <= i < head.len(),
    ensures
        rotated(f, c, head, pos, factors, k).len() == head.len(),
        rotated(f, c, head, pos, factors, k)[i] == head[i],
    decreases k,
{
    if k > 0 {
        rest_of_a_head_stays(f, c, head, pos, factors, (k - 1) as nat, i);
    }
}

impl<A: Fn(FloatOp, u32, u32) -> u32> Arith<A> {
    fn corr_dim(&self, c: &RopeBits, rot: u32) -> (r: u32)
        requires
            self.works(),
        ensures
            r == corr_dim(self.ops(), *c, rot),
    {
        let turns = self.over(self.count(c.orig_ctx), self.times(self.times(rot, TWO), PI));
        let top = self.times(self.count(c.n_rot), self.of(FloatOp::Ln, turns));
        self.over(top, self.times(TWO, self.of(FloatOp::Ln, c.freq_base)))
    }

    /// YaRN's dimension correction range, in units of rotary dimension pairs.
    pub fn yarn_corr_dims(&self, c: &RopeBits) -> (r: (u32, u32))
        requires
            self.works(),
        ensures
            r == corr_range(self.ops(), *c),
    {
        let start = self.of(FloatOp::Floor, self.corr_dim(c, c.beta_fast));
        let end = self.of(FloatOp::Ceil, self.corr_dim(c, c.beta_slow));
        (larger_of(start, 0), smaller_of(end, self.minus(self.count(c.n_rot), UNIT)))
    }

    pub fn yarn_ramp(&self, low: u32, high: u32, k: u32) -> (r: u32)
        requires
            self.works(),
        ensures
            r == ramp(self.ops(), low, high, k),
    {
        let width = larger_of(self.minus(high, low), THOUSANDTH);
        let y = self.over(self.minus(self.count(k), low), width);
        self.minus(UNIT, clamp_of(y, 0, UNIT))
    }

    fn magnitude_scale(&self, c: &RopeBits) -> (r: u32)
        requires
            self.works(),
        ensures
            r == magnitude_scale(self.ops(), *c),
    {
        if is_equal(c.ext_factor, 0) {
            c.attn_factor
        } else {
            let ln = self.of(FloatOp::Ln, self.over(UNIT, c.freq_scale));
            self.times(c.attn_factor, self.plus(UNIT, self.times(TENTH, ln)))
        }
    }

    fn angle(&self, c: &RopeBits, range: (u32, u32), pos: u32, factor: u32, k: u32, n: u32) -> (r:
        u32)
        requires
            self.works(),
            range == corr_dims(self.ops(), *c),
        ensures
            r == angle(self.ops(), *c, pos, factor, k, n),
    {
        let power = self.over(self.times(MINUS_TWO, self.count(k)), self.count(n));
        let te = self.over(
            self.times(pos, self.run(FloatOp::Pow, c.freq_base, power)),
            factor,
        );
        let ti = self.times(c.freq_scale, te);
        if is_equal(c.ext_factor, 0) {
            ti
        } else {
            let mix = self.times(self.yarn_ramp(range.0, range.1, k), c.ext_factor);
            self.plus(self.times(ti, self.minus(UNIT, mix)), self.times(te, mix))
        }
    }

    /// Rotates one head at a position.
    pub fn rope_head(&self, c: &RopeBits, head: &[u32], pos: i32, factors: Option<&[u32]>) -> (r:
        Vec<u32>)
        requires
            self.works(),
            head@.len() == c.head_dim,
            c.kind == RopeKind::Norm ==> rotary(*c) % 2 == 0 || rotary(*c) < c.head_dim,
        ensures
            r@ == rotated(
                self.ops(),
                *c,
                head@,
                whole(self.ops(), pos as int),
                opt_seq(factors),
                pairs(*c),
            ),
            r@.len() == head@.len(),
    {
        let ghost f = self.ops();
        let hd = head.len();
        let mut out: Vec<u32> = Vec::new();
        let mut i: usize = 0;
        while i < hd
            invariant
                hd == head@.len(),
                i <= hd,
                out@ == head@.take(i as int),
            decreases hd - i,
        {
            out.push(head[i]);
            i = i + 1;
            assert(out@ =~= head@.take(i as int));
        }
        assert(head@.take(i as int) =~= head@);
        match c.kind {
            RopeKind::NoRope => {
                return out;
            },
            _ => {},
        }
        let n: u32 = if hd <= u32::MAX as usize && (hd as u32) < c.n_rot {
            hd as u32
        } else {
            c.n_rot
        };
        assert(n == rotary(*c));
        let p = self.whole(pos);
        let range = if is_equal(c.ext_factor, 0) {
            (0, 0)
        } else {
            self.yarn_corr_dims(c)
        };
        let scale = self.magnitude_scale(c);
        let adjacent = match c.kind {
            RopeKind::Norm => true,
            _ => false,
        };
        let half: u32 = n / 2 + n % 2;
        let mut k: u32 = 0;
        while k < half
            invariant
                self.works(),
                f == self.ops(),
                hd == head@.len(),
                hd == c.head_dim,
                n == rotary(*c),
                n <= hd,
                half == pairs(*c),
                half == n / 2 + n % 2,
                adjacent == (c.kind == RopeKind::Norm),
                adjacent ==> n % 2 == 0 || n < hd,
                p == whole(f, pos as int),
                range == corr_dims(f, *c),
                scale == magnitude_scale(f, *c),
                k <= half,
                out@.len() == hd,
                out@ == rotated(f, *c, head@, p, opt_seq(factors), k as nat),
            decreases half - k,
        {
            let factor = match factors {
                Some(s) => if (k as usize) < s.len() {
                    s[k as usize]
                } else {
                    UNIT
                },
                None => UNIT,
            };
            let theta = self.angle(c, range, p, factor, k, n);
            let sin = self.times(self.of(FloatOp::Sin, theta), scale);
            let cos = self.times(self.of(FloatOp::Cos, theta), scale);
            let (a, b) = if adjacent {
                (2 * k as usize, 2 * k as usize + 1)
            } else {
                (k as usize, k as usize + (n / 2) as usize)
            };
            let x0 = out[a];
            let x1 = out[b];
            out.set(a, self.minus(self.times(x0, cos), self.times(x1, sin)));
            out.set(b, self.plus(self.times(x0, sin), self.times(x1, cos)));
            k = k + 1;
        }
        out
    }

    /// Rotates every head of every token. `x` is laid out `[n_tokens][n_heads][head_dim]`.
    pub fn rope(
        &self,
        c: &RopeBits,
        x: &[u32],
        positions: &[i32],
        n_heads: usize,
        factors: Option<&[u32]>,
        n_tokens: usize,
    ) -> (r: Vec<u32>)
        requires
            self.works(),
            n_tokens * n_heads * c.head_dim <= x@.len(),
            n_tokens * n_heads <= usize::MAX,
            c.kind == RopeKind::Norm ==> rotary(*c) % 2 == 0 || rotary(*c) < c.head_dim,
        ensures
            r@ == roped(
                self.ops(),
                *c,
                x@,
                positions@,
                n_heads as int,
                opt_seq(factors),
                (n_tokens * n_heads) as nat,
            ),
            r@.len() == n_tokens * n_heads * c.head_dim,
    {
        let ghost f = self.ops();
        let hd = c.head_dim;
        let len = x.len();
        let total = n_tokens * n_heads;
        let mut out: Vec<u32> = Vec::new();
        let mut j: usize = 0;
        while j < total
            invariant
                self.works(),
                f == self.ops(),
                hd == c.head_dim,
                len == x@.len(),
                total == n_tokens * n_heads,
                total * hd <= len,
                c.kind == RopeKind::Norm ==> rotary(*c) % 2 == 0 || rotary(*c) < c.head_dim,
                j <= total,
                out@ == roped(
                    f,
                    *c,
                    x@,
                    positions@,
                    n_heads as int,
                    opt_seq(factors),
                    j as nat,
                ),
                out@.len() == j * hd,
            decreases total - j,
        {
            assert(j * hd + hd <= total * hd && j * hd + hd == (j + 1) * hd && j * hd >= 0)
                by (nonlinear_arith)
                requires
                    j + 1 <= total,
                    hd >= 0,
            ;
            assert(n_heads > 0) by (nonlinear_arith)
                requires
                    n_tokens * n_heads > 0,
                    n_heads >= 0,
            ;
            let t = j / n_heads;
            let pos: i32 = if t < positions.len() {
                positions[t]
            } else {
                0
            };
            let head = slice_subrange(x, j * hd, j * hd + hd);
            let mut y = self.rope_head(c, head, pos, factors);
            out.append(&mut y);
            j = j + 1;
        }
        out
    }
}

} // verus!
