//! Elementwise and per-token operations.

use vstd::prelude::*;
use vstd::slice::slice_subrange;

use crate::backend::{Activation, BinOp, NormKind};
use crate::single::{
    clamp_of, clamped, count, equal, is_equal, is_less, larger, larger_of, less, minus, neg_of,
    negated, of, over, plus, times, Arith, FloatOp, Ops, NEG_INFINITY, UNIT,
};

verus! {

/// The bits of 1e-20.
pub const TINY: u32 = 0x1e3c_e508;

/// The bits of 0.5.
pub const HALF: u32 = 0x3f00_0000;

/// The bits of 0.7978846, the square root of 2 / pi.
pub const ROOT: u32 = 0x3f4c_422a;

/// The bits of 0.044715.
pub const CUBIC: u32 = 0x3d37_2713;

/// The bits of -1.702.
pub const QUICK: u32 = 0xbfd9_db23;

/// The sum of the first `n` numbers.
pub open spec fn total(f: Ops, l: Seq<u32>, n: nat) -> u32
    decreases n,
{
    if n == 0 || n > l.len() {
        0
    } else {
        plus(f, total(f, l, (n - 1) as nat), l[n - 1])
    }
}

/// The largest of the first `n` numbers.
pub open spec fn largest(l: Seq<u32>, n: nat) -> u32
    decreases n,
{
    if n == 0 || n > l.len() {
        NEG_INFINITY
    } else {
        larger(largest(l, (n - 1) as nat), l[n - 1])
    }
}

/// The exponentials of the numbers, less the largest.
pub open spec fn exponentials(f: Ops, l: Seq<u32>) -> Seq<u32> {
    Seq::new(l.len(), |i: int| of(f, FloatOp::Exp, minus(f, l[i], largest(l, l.len()))))
}

/// Numbers as shares of their sum.
pub open spec fn softmax_of(f: Ops, l: Seq<u32>) -> Seq<u32> {
    let e = exponentials(f, l);
    let inv = over(f, UNIT, larger(total(f, e, e.len()), TINY));
    Seq::new(l.len(), |i: int| times(f, e[i], inv))
}

pub open spec fn silu_of(f: Ops, x: u32) -> u32 {
    over(f, x, plus(f, UNIT, of(f, FloatOp::Exp, negated(x))))
}

/// The tanh approximation, which is what every GGUF-era model was trained with.
pub open spec fn gelu_of(f: Ops, x: u32) -> u32 {
    let cube = times(f, times(f, times(f, CUBIC, x), x), x);
    times(
        f,
        times(f, HALF, x),
        plus(f, UNIT, of(f, FloatOp::Tanh, times(f, ROOT, plus(f, x, cube)))),
    )
}

pub open spec fn gelu_quick_of(f: Ops, x: u32) -> u32 {
    over(f, x, plus(f, UNIT, of(f, FloatOp::Exp, times(f, QUICK, x))))
}

pub open spec fn activated(f: Ops, act: Activation, x: u32, alpha: u32) -> u32 {
    match act {
        Activation::Silu => silu_of(f, x),
        Activation::Gelu | Activation::GeluTanh => gelu_of(f, x),
        Activation::GeluQuick => gelu_quick_of(f, x),
        Activation::Relu => larger(x, 0),
        Activation::Relu2 => times(f, larger(x, 0), larger(x, 0)),
        Activation::Swish => over(
            f,
            x,
            plus(f, UNIT, of(f, FloatOp::Exp, times(f, negated(alpha), x))),
        ),
    }
}

/// A gate and what it lets through.
pub open spec fn gated(f: Ops, act: Activation, g: u32, u: u32, limit: u32, alpha: u32) -> u32 {
    if less(0, limit) {
        times(
            f,
            activated(f, act, clamped(g, negated(limit), limit), alpha),
            clamped(u, negated(limit), limit),
        )
    } else {
        times(f, activated(f, act, g, alpha), u)
    }
}

pub open spec fn glu_of(
    f: Ops,
    act: Activation,
    gate: Seq<u32>,
    up: Seq<u32>,
    limit: u32,
    alpha: u32,
    n: nat,
) -> Seq<u32> {
    Seq::new(n, |i: int| gated(f, act, gate[i], up[i], limit, alpha))
}

pub open spec fn activated_all(f: Ops, act: Activation, x: Seq<u32>, alpha: u32) -> Seq<u32> {
    Seq::new(x.len(), |i: int| activated(f, act, x[i], alpha))
}

pub open spec fn binary_of(f: Ops, op: BinOp, a: u32, b: u32) -> u32 {
    match op {
        BinOp::Add => plus(f, a, b),
        BinOp::Mul => times(f, a, b),
        BinOp::Sub => minus(f, a, b),
    }
}

/// `op` of `n` numbers each; a shorter second operand is repeated.
pub open spec fn binary_all(f: Ops, op: BinOp, x: Seq<u32>, y: Seq<u32>, n: nat) -> Seq<u32> {
    Seq::new(n, |i: int| binary_of(f, op, x[i], y[i % y.len() as int]))
}

pub open spec fn scaled(f: Ops, x: Seq<u32>, by: u32) -> Seq<u32> {
    Seq::new(x.len(), |i: int| times(f, x[i], by))
}

pub open spec fn capped(f: Ops, x: u32, cap: u32) -> u32 {
    times(f, cap, of(f, FloatOp::Tanh, over(f, x, cap)))
}

pub open spec fn capped_all(f: Ops, x: Seq<u32>, cap: u32) -> Seq<u32> {
    Seq::new(x.len(), |i: int| capped(f, x[i], cap))
}

// ---------------------------------------------------------------------- normalization

pub open spec fn squares(f: Ops, s: Seq<u32>) -> Seq<u32> {
    Seq::new(s.len(), |i: int| times(f, s[i], s[i]))
}

pub open spec fn mean_of(f: Ops, s: Seq<u32>) -> u32 {
    over(f, total(f, s, s.len()), count(f, s.len() as u32))
}

pub open spec fn centered(f: Ops, s: Seq<u32>) -> Seq<u32> {
    Seq::new(s.len(), |i: int| minus(f, s[i], mean_of(f, s)))
}

/// One divided by the root of `v + eps`.
pub open spec fn inverse_root(f: Ops, v: u32, eps: u32) -> u32 {
    over(f, UNIT, of(f, FloatOp::Sqrt, plus(f, v, eps)))
}

/// A row normalized, before weight and bias.
pub open spec fn normal_of(f: Ops, kind: NormKind, s: Seq<u32>, eps: u32) -> Seq<u32> {
    match kind {
        NormKind::Rms => scaled(f, s, inverse_root(f, mean_of(f, squares(f, s)), eps)),
        NormKind::Layer => scaled(
            f,
            centered(f, s),
            inverse_root(f, mean_of(f, squares(f, centered(f, s))), eps),
        ),
    }
}

/// One element of a normalized row with what is applied to it.
pub open spec fn finished(
    f: Ops,
    x: u32,
    i: int,
    weight: Option<Seq<u32>>,
    bias: Option<Seq<u32>>,
    scale: u32,
) -> u32 {
    let a = match weight {
        Some(w) => if i < w.len() {
            times(f, x, w[i])
        } else {
            x
        },
        None => x,
    };
    let b = match bias {
        Some(w) => if i < w.len() {
            plus(f, a, w[i])
        } else {
            a
        },
        None => a,
    };
    if equal(scale, UNIT) {
        b
    } else {
        times(f, b, scale)
    }
}

/// What a normalization is told, by bits.
pub struct NormBits {
    pub kind: NormKind,
    pub eps: u32,
    pub scale: u32,
}

pub open spec fn norm_row_of(
    f: Ops,
    c: NormBits,
    s: Seq<u32>,
    weight: Option<Seq<u32>>,
    bias: Option<Seq<u32>>,
) -> Seq<u32> {
    let x = normal_of(f, c.kind, s, c.eps);
    Seq::new(s.len(), |i: int| finished(f, x[i], i, weight, bias, c.scale))
}

/// `n` rows of `dim` values each.
pub open spec fn norm_of(
    f: Ops,
    c: NormBits,
    s: Seq<u32>,
    weight: Option<Seq<u32>>,
    bias: Option<Seq<u32>>,
    dim: int,
    n: nat,
) -> Seq<u32>
    decreases n,
{
    if n == 0 {
        Seq::empty()
    } else {
        norm_of(f, c, s, weight, bias, dim, (n - 1) as nat) + norm_row_of(
            f,
            c,
            s.subrange((n - 1) * dim, n * dim),
            weight,
            bias,
        )
    }
}

/// The contents of a slice that may be absent.
pub open spec fn opt_seq(x: Option<&[u32]>) -> Option<Seq<u32>> {
    match x {
        Some(s) => Some(s@),
        None => None,
    }
}

impl<A: Fn(FloatOp, u32, u32) -> u32> Arith<A> {
    pub fn total(&self, l: &[u32]) -> (r: u32)
        requires
            self.works(),
        ensures
            r == total(self.ops(), l@, l@.len()),
    {
        let mut acc: u32 = 0;
        let mut i: usize = 0;
        while i < l.len()
            invariant
                self.works(),
                i <= l@.len(),
                acc == total(self.ops(), l@, i as nat),
            decreases l@.len() - i,
        {
            acc = self.plus(acc, l[i]);
            i = i + 1;
        }
        acc
    }

    pub fn softmax(&self, l: &[u32]) -> (r: Vec<u32>)
        requires
            self.works(),
        ensures
            r@ == softmax_of(self.ops(), l@),
    {
        let ghost f = self.ops();
        let mut m: u32 = NEG_INFINITY;
        let mut i: usize = 0;
        while i < l.len()
            invariant
                i <= l@.len(),
                m == largest(l@, i as nat),
            decreases l@.len() - i,
        {
            m = larger_of(m, l[i]);
            i = i + 1;
        }
        let ghost want = exponentials(f, l@);
        let mut e: Vec<u32> = Vec::new();
        i = 0;
        while i < l.len()
            invariant
                self.works(),
                f == self.ops(),
                want == exponentials(f, l@),
                m == largest(l@, l@.len()),
                i <= l@.len(),
                e@ == want.take(i as int),
            decreases l@.len() - i,
        {
            e.push(self.of(FloatOp::Exp, self.minus(l[i], m)));
            i = i + 1;
            assert(e@ =~= want.take(i as int));
        }
        assert(want.take(i as int) =~= want);
        let inv = self.over(UNIT, larger_of(self.total(e.as_slice()), TINY));
        let out = self.scaled(e.as_slice(), inv);
        assert(out@ =~= softmax_of(f, l@));
        out
    }

    pub fn silu(&self, x: u32) -> (r: u32)
        requires
            self.works(),
        ensures
            r == silu_of(self.ops(), x),
    {
        self.over(x, self.plus(UNIT, self.of(FloatOp::Exp, neg_of(x))))
    }

    pub fn gelu(&self, x: u32) -> (r: u32)
        requires
            self.works(),
        ensures
            r == gelu_of(self.ops(), x),
    {
        let cube = self.times(self.times(self.times(CUBIC, x), x), x);
        let t = self.of(FloatOp::Tanh, self.times(ROOT, self.plus(x, cube)));
        self.times(self.times(HALF, x), self.plus(UNIT, t))
    }

    pub fn gelu_quick(&self, x: u32) -> (r: u32)
        requires
            self.works(),
        ensures
            r == gelu_quick_of(self.ops(), x),
    {
        self.over(x, self.plus(UNIT, self.of(FloatOp::Exp, self.times(QUICK, x))))
    }

    pub fn apply(&self, act: Activation, x: u32, alpha: u32) -> (r: u32)
        requires
            self.works(),
        ensures
            r == activated(self.ops(), act, x, alpha),
    {
        match act {
            Activation::Silu => self.silu(x),
            Activation::Gelu | Activation::GeluTanh => self.gelu(x),
            Activation::GeluQuick => self.gelu_quick(x),
            Activation::Relu => larger_of(x, 0),
            Activation::Relu2 => {
                let r = larger_of(x, 0);
                self.times(r, r)
            },
            Activation::Swish => {
                let e = self.of(FloatOp::Exp, self.times(neg_of(alpha), x));
                self.over(x, self.plus(UNIT, e))
            },
        }
    }

    /// `act(gate) * up` for `n` elements.
    pub fn glu(
        &self,
        act: Activation,
        gate: &[u32],
        up: &[u32],
        limit: u32,
        alpha: u32,
        n: usize,
    ) -> (r: Vec<u32>)
        requires
            self.works(),
            n <= gate@.len(),
            n <= up@.len(),
        ensures
            r@ == glu_of(self.ops(), act, gate@, up@, limit, alpha, n as nat),
    {
        let ghost f = self.ops();
        let ghost want = glu_of(f, act, gate@, up@, limit, alpha, n as nat);
        let mut out: Vec<u32> = Vec::new();
        let mut i: usize = 0;
        while i < n
            invariant
                self.works(),
                f == self.ops(),
                n <= gate@.len(),
                n <= up@.len(),
                want == glu_of(f, act, gate@, up@, limit, alpha, n as nat),
                i <= n,
                out@ == want.take(i as int),
            decreases n - i,
        {
            let mut g = gate[i];
            let mut u = up[i];
            if is_less(0, limit) {
                g = clamp_of(g, neg_of(limit), limit);
                u = clamp_of(u, neg_of(limit), limit);
            }
            out.push(self.times(self.apply(act, g, alpha), u));
            i = i + 1;
            assert(out@ =~= want.take(i as int));
        }
        assert(want.take(i as int) =~= want);
        out
    }

    pub fn activate(&self, act: Activation, x: &[u32], alpha: u32) -> (r: Vec<u32>)
        requires
            self.works(),
        ensures
            r@ == activated_all(self.ops(), act, x@, alpha),
    {
        let ghost f = self.ops();
        let ghost want = activated_all(f, act, x@, alpha);
        let mut out: Vec<u32> = Vec::new();
        let mut i: usize = 0;
        while i < x.len()
            invariant
                self.works(),
                f == self.ops(),
                want == activated_all(f, act, x@, alpha),
                i <= x@.len(),
                out@ == want.take(i as int),
            decreases x@.len() - i,
        {
            out.push(self.apply(act, x[i], alpha));
            i = i + 1;
            assert(out@ =~= want.take(i as int));
        }
        assert(want.take(i as int) =~= want);
        out
    }

    /// `op` of `n` numbers each. A shorter `y` is broadcast, which is how per-channel bias
    /// vectors are applied to a multi-token activation without a copy per token.
    pub fn binary(&self, op: BinOp, x: &[u32], y: &[u32], n: usize) -> (r: Vec<u32>)
        requires
            self.works(),
            n <= x@.len(),
            n > 0 ==> y@.len() > 0,
        ensures
            r@ == binary_all(self.ops(), op, x@, y@, n as nat),
    {
        let ghost f = self.ops();
        let ghost want = binary_all(f, op, x@, y@, n as nat);
        let m = y.len();
        let mut out: Vec<u32> = Vec::new();
        let mut i: usize = 0;
        while i < n
            invariant
                self.works(),
                f == self.ops(),
                want == binary_all(f, op, x@, y@, n as nat),
                m == y@.len(),
                n <= x@.len(),
                n > 0 ==> m > 0,
                i <= n,
                out@ == want.take(i as int),
            decreases n - i,
        {
            assert(0 <= i as int % m as int && i as int % m as int == (i % m) as int && i % m < m)
                by (nonlinear_arith)
                requires
                    m > 0,
            ;
            let a = x[i];
            let b = y[i % m];
            let v = match op {
                BinOp::Add => self.plus(a, b),
                BinOp::Mul => self.times(a, b),
                BinOp::Sub => self.minus(a, b),
            };
            out.push(v);
            i = i + 1;
            assert(out@ =~= want.take(i as int));
        }
        assert(want.take(i as int) =~= want);
        out
    }

    pub fn scaled(&self, x: &[u32], by: u32) -> (r: Vec<u32>)
        requires
            self.works(),
        ensures
            r@ == scaled(self.ops(), x@, by),
    {
        let ghost f = self.ops();
        let ghost want = scaled(f, x@, by);
        let mut out: Vec<u32> = Vec::new();
        let mut i: usize = 0;
        while i < x.len()
            invariant
                self.works(),
                f == self.ops(),
                want == scaled(f, x@, by),
                i <= x@.len(),
                out@ == want.take(i as int),
            decreases x@.len() - i,
        {
            out.push(self.times(x[i], by));
            i = i + 1;
            assert(out@ =~= want.take(i as int));
        }
        assert(want.take(i as int) =~= want);
        out
    }

    /// `cap * tanh(x / cap)`
    pub fn capped(&self, x: &[u32], cap: u32) -> (r: Vec<u32>)
        requires
            self.works(),
        ensures
            r@ == capped_all(self.ops(), x@, cap),
    {
        let ghost f = self.ops();
        let ghost want = capped_all(f, x@, cap);
        let mut out: Vec<u32> = Vec::new();
        let mut i: usize = 0;
        while i < x.len()
            invariant
                self.works(),
                f == self.ops(),
                want == capped_all(f, x@, cap),
                i <= x@.len(),
                out@ == want.take(i as int),
            decreases x@.len() - i,
        {
            out.push(self.times(cap, self.of(FloatOp::Tanh, self.over(x[i], cap))));
            i = i + 1;
            assert(out@ =~= want.take(i as int));
        }
        assert(want.take(i as int) =~= want);
        out
    }

    fn squares(&self, s: &[u32]) -> (r: Vec<u32>)
        requires
            self.works(),
        ensures
            r@ == squares(self.ops(), s@),
    {
        let ghost f = self.ops();
        let ghost want = squares(f, s@);
        let mut out: Vec<u32> = Vec::new();
        let mut i: usize = 0;
        while i < s.len()
            invariant
                self.works(),
                f == self.ops(),
                want == squares(f, s@),
                i <= s@.len(),
                out@ == want.take(i as int),
            decreases s@.len() - i,
        {
            out.push(self.times(s[i], s[i]));
            i = i + 1;
            assert(out@ =~= want.take(i as int));
        }
        assert(want.take(i as int) =~= want);
        out
    }

    fn mean(&self, s: &[u32]) -> (r: u32)
        requires
            self.works(),
            s@.len() <= u32::MAX,
        ensures
            r == mean_of(self.ops(), s@),
    {
        self.over(self.total(s), self.count(s.len() as u32))
    }

    fn centered(&self, s: &[u32]) -> (r: Vec<u32>)
        requires
            self.works(),
            s@.len() <= u32::MAX,
        ensures
            r@ == centered(self.ops(), s@),
    {
        let ghost f = self.ops();
        let ghost want = centered(f, s@);
        let mean = self.mean(s);
        let mut out: Vec<u32> = Vec::new();
        let mut i: usize = 0;
        while i < s.len()
            invariant
                self.works(),
                f == self.ops(),
                want == centered(f, s@),
                mean == mean_of(f, s@),
                i <= s@.len(),
                out@ == want.take(i as int),
            decreases s@.len() - i,
        {
            out.push(self.minus(s[i], mean));
            i = i + 1;
            assert(out@ =~= want.take(i as int));
        }
        assert(want.take(i as int) =~= want);
        out
    }

    fn inverse_root(&self, v: u32, eps: u32) -> (r: u32)
        requires
            self.works(),
        ensures
            r == inverse_root(self.ops(), v, eps),
    {
        self.over(UNIT, self.of(FloatOp::Sqrt, self.plus(v, eps)))
    }

    /// One row normalized.
    pub fn norm_row(
        &self,
        c: &NormBits,
        s: &[u32],
        weight: Option<&[u32]>,
        bias: Option<&[u32]>,
    ) -> (r: Vec<u32>)
        requires
            self.works(),
            s@.len() <= u32::MAX,
        ensures
            r@ == norm_row_of(self.ops(), *c, s@, opt_seq(weight), opt_seq(bias)),
    {
        let ghost f = self.ops();
        let ghost want = norm_row_of(f, *c, s@, opt_seq(weight), opt_seq(bias));
        let x = match c.kind {
            NormKind::Rms => {
                let ms = self.mean(self.squares(s).as_slice());
                self.scaled(s, self.inverse_root(ms, c.eps))
            },
            NormKind::Layer => {
                let d = self.centered(s);
                let var = self.mean(self.squares(d.as_slice()).as_slice());
                self.scaled(d.as_slice(), self.inverse_root(var, c.eps))
            },
        };
        let mut out: Vec<u32> = Vec::new();
        let mut i: usize = 0;
        while i < s.len()
            invariant
                self.works(),
                f == self.ops(),
                x@ == normal_of(f, c.kind, s@, c.eps),
                x@.len() == s@.len(),
                want == norm_row_of(f, *c, s@, opt_seq(weight), opt_seq(bias)),
                i <= s@.len(),
                out@ == want.take(i as int),
            decreases s@.len() - i,
        {
            let mut v = x[i];
            if let Some(w) = weight {
                if i < w.len() {
                    v = self.times(v, w[i]);
                }
            }
            if let Some(b) = bias {
                if i < b.len() {
                    v = self.plus(v, b[i]);
                }
            }
            if !is_equal(c.scale, UNIT) {
                v = self.times(v, c.scale);
            }
            out.push(v);
            i = i + 1;
            assert(out@ =~= want.take(i as int));
        }
        assert(want.take(i as int) =~= want);
        out
    }

    /// `n` rows of `dim` values each.
    pub fn norm(
        &self,
        c: &NormBits,
        s: &[u32],
        weight: Option<&[u32]>,
        bias: Option<&[u32]>,
        dim: usize,
        n: usize,
    ) -> (r: Vec<u32>)
        requires
            self.works(),
            dim <= u32::MAX,
            n * dim <= s@.len(),
        ensures
            r@ == norm_of(
                self.ops(),
                *c,
                s@,
                opt_seq(weight),
                opt_seq(bias),
                dim as int,
                n as nat,
            ),
            r@.len() == n * dim,
    {
        let len = s.len();
        let mut out: Vec<u32> = Vec::new();
        let mut t: usize = 0;
        while t < n
            invariant
                self.works(),
                dim <= u32::MAX,
                len == s@.len(),
                n * dim <= len,
                t <= n,
                out@ == norm_of(
                    self.ops(),
                    *c,
                    s@,
                    opt_seq(weight),
                    opt_seq(bias),
                    dim as int,
                    t as nat,
                ),
                out@.len() == t * dim,
            decreases n - t,
        {
            assert(t * dim + dim <= n * dim && t * dim + dim == (t + 1) * dim && t * dim >= 0)
                by (nonlinear_arith)
                requires
                    t + 1 <= n,
                    dim >= 0,
            ;
            let row = slice_subrange(s, t * dim, t * dim + dim);
            let mut y = self.norm_row(c, row, weight, bias);
            out.append(&mut y);
            t = t + 1;
        }
        out
    }
}

} // verus!
