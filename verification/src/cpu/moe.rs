//! Mixture of experts: routing, the experts' projections, and their weighted sum.

use vstd::prelude::*;
use vstd::slice::slice_subrange;

use super::matmul::{dot_row, parts_fit, weight_row};
use super::ops::{activated_all, glu_of, opt_seq, scaled, softmax_of, total, TINY};
use crate::backend::{Activation, GateFunc};
use crate::dtype::QuantView;
use crate::error::{backend_err, Error, ErrorView};
use crate::quant::dot::dots;
use crate::quant::quantize::{q8_blocks, q8_row, Q8_1_BLOCK};
use crate::sample::{best_indices, keys_of, orders, top, top_keeps_the_highest};
use crate::single::{
    larger, larger_of, neg_of, negated, of, over, plus, times, Arith, FloatOp, Ops, UNIT,
};
use crate::text::{cat3, cat5, dec, decimal};

verus! {

/// What a mixture of experts is told, by bits.
pub struct MoeBits {
    pub n_expert: usize,
    pub n_expert_used: usize,
    pub n_embd: usize,
    pub n_ff: usize,
    pub act: Activation,
    pub gate_func: GateFunc,
    pub norm_topk: bool,
    pub scale: u32,
}

/// A weight looked up by its number.
#[derive(Clone, Copy)]
pub enum Held<'a> {
    Here(QuantView<'a>),
    /// No weight has this number.
    Absent(u32),
}

/// The weights of a mixture of experts.
#[derive(Clone, Copy)]
pub struct Experts<'a> {
    pub router: QuantView<'a>,
    /// Absent for models whose experts have no gate projection.
    pub gate: Option<Held<'a>>,
    pub up: Held<'a>,
    pub down: Held<'a>,
}

/// That a weight is not there.
pub open spec fn not_uploaded(id: u32) -> ErrorView {
    ErrorView::Backend { device: "cpu"@, detail: "weight "@ + dec(id as nat) + " is not uploaded"@ }
}

pub open spec fn sigmoid_all(f: Ops, l: Seq<u32>) -> Seq<u32> {
    Seq::new(
        l.len(),
        |i: int| over(f, UNIT, plus(f, UNIT, of(f, FloatOp::Exp, negated(l[i])))),
    )
}

/// The probabilities of the experts.
pub open spec fn probabilities(f: Ops, g: GateFunc, logits: Seq<u32>) -> Seq<u32> {
    match g {
        GateFunc::Softmax => softmax_of(f, logits),
        GateFunc::Sigmoid => sigmoid_all(f, logits),
    }
}

/// What the experts are ranked by. The bias steers selection only; the weight applied to an
/// expert's output is the unbiased probability.
pub open spec fn ranks(f: Ops, probs: Seq<u32>, bias: Option<Seq<u32>>) -> Seq<u32> {
    match bias {
        Some(b) => Seq::new(probs.len(), |i: int| plus(f, probs[i], b[i])),
        None => probs,
    }
}

/// The experts that fire, the highest ranked first.
pub open spec fn chosen(f: Ops, c: MoeBits, logits: Seq<u32>, bias: Option<Seq<u32>>) -> Seq<usize> {
    let k = ranks(f, probabilities(f, c.gate_func, logits), bias);
    top(orders(k), k.len(), c.n_expert_used as nat)
}

pub open spec fn picked(probs: Seq<u32>, s: Seq<usize>) -> Seq<u32> {
    Seq::new(s.len(), |i: int| probs[s[i] as int])
}

/// The weights of the experts that fire.
pub open spec fn shares(f: Ops, c: MoeBits, logits: Seq<u32>, bias: Option<Seq<u32>>) -> Seq<u32> {
    let p = picked(probabilities(f, c.gate_func, logits), chosen(f, c, logits, bias));
    let q = if c.norm_topk {
        let sum = larger(total(f, p, p.len()), TINY);
        Seq::new(p.len(), |i: int| over(f, p[i], sum))
    } else {
        p
    };
    scaled(f, q, c.scale)
}

/// No expert that does not fire is ranked above one that does, and no more fire than are to be
/// used.
pub proof fn the_best_experts_fire(f: Ops, c: MoeBits, logits: Seq<u32>, bias: Option<Seq<u32>>)
    requires
        logits.len() == c.n_expert,
        bias matches Some(b) ==> c.n_expert <= b.len(),
    ensures
        chosen(f, c, logits, bias).len() == if c.n_expert < c.n_expert_used {
            c.n_expert
        } else {
            c.n_expert_used
        },
        forall|a: int|
            0 <= a < chosen(f, c, logits, bias).len() ==> (#[trigger] chosen(f, c, logits, bias)[a])
                < c.n_expert,
        forall|i: usize, a: int|
            i < c.n_expert && !(#[trigger] chosen(f, c, logits, bias).contains(i)) && 0 <= a
                < chosen(f, c, logits, bias).len() ==> orders(
                ranks(f, probabilities(f, c.gate_func, logits), bias),
            )[i as int] <= orders(ranks(f, probabilities(f, c.gate_func, logits), bias))[(
            #[trigger] chosen(f, c, logits, bias)[a]) as int],
{
    let k = ranks(f, probabilities(f, c.gate_func, logits), bias);
    top_keeps_the_highest(orders(k), k.len(), c.n_expert_used as nat);
}

/// Why an expert's slice of a stacked tensor cannot be read.
pub open spec fn slice_fault(w: QuantView<'_>, e: nat, rows: nat) -> Option<ErrorView> {
    if e * rows * w.row_len() + rows * w.row_len() > w.data@.len() {
        Some(
            ErrorView::Shape(
                "expert "@ + dec(e) + " is past the end of a "@ + dec(w.rows as nat)
                    + " row tensor"@,
            ),
        )
    } else {
        None
    }
}

/// Why an expert's part of a weight cannot be had.
pub open spec fn expert_fault(w: Held<'_>, e: nat, rows: nat) -> Option<ErrorView> {
    match w {
        Held::Here(v) => slice_fault(v, e, rows),
        Held::Absent(id) => Some(not_uploaded(id)),
    }
}

/// One expert's slice of a stacked `[n_expert, rows, cols]` tensor times an activation.
pub open spec fn expert_of(f: Ops, w: Held<'_>, e: nat, rows: nat, x: Seq<u32>) -> Seq<u32> {
    Seq::new(rows, |r: int| dot_quantized(f, w->Here_0, e * rows + r, x))
}

/// A row of an expert times an activation. Experts are quantized: a float expert yields zeros.
pub open spec fn dot_quantized(f: Ops, w: QuantView<'_>, r: int, x: Seq<u32>) -> u32 {
    if dots(w.dtype) {
        dot_row(f, w.dtype, weight_row(w, r), x, q8_row(f, x), x.len())
    } else {
        0
    }
}

/// What an expert's feed-forward network makes of an activation, before its down projection.
pub open spec fn hidden(f: Ops, c: MoeBits, w: Experts<'_>, e: nat, x: Seq<u32>) -> Seq<u32> {
    let up = expert_of(f, w.up, e, c.n_ff as nat, x);
    match w.gate {
        Some(g) => glu_of(
            f,
            c.act,
            expert_of(f, g, e, c.n_ff as nat, x),
            up,
            0,
            UNIT,
            c.n_ff as nat,
        ),
        None => activated_all(f, c.act, up, UNIT),
    }
}

/// What an expert makes of an activation.
pub open spec fn expert_output(f: Ops, c: MoeBits, w: Experts<'_>, e: nat, x: Seq<u32>) -> Seq<u32> {
    expert_of(f, w.down, e, c.n_embd as nat, hidden(f, c, w, e, x))
}

/// Why an expert cannot be run.
pub open spec fn run_fault(c: MoeBits, w: Experts<'_>, e: nat) -> Option<ErrorView> {
    let gate = match w.gate {
        Some(g) => expert_fault(g, e, c.n_ff as nat),
        None => None,
    };
    if gate is Some {
        gate
    } else if expert_fault(w.up, e, c.n_ff as nat) is Some {
        expert_fault(w.up, e, c.n_ff as nat)
    } else {
        expert_fault(w.down, e, c.n_embd as nat)
    }
}

/// Why the first `n` of the experts cannot all be run.
pub open spec fn slots_fault(c: MoeBits, w: Experts<'_>, s: Seq<usize>, n: nat) -> Option<ErrorView>
    decreases n,
{
    if n == 0 || n > s.len() {
        None
    } else {
        match slots_fault(c, w, s, (n - 1) as nat) {
            Some(e) => Some(e),
            None => run_fault(c, w, s[n - 1] as nat),
        }
    }
}

/// The weighted sum of the first `n` experts.
pub open spec fn blended(
    f: Ops,
    c: MoeBits,
    w: Experts<'_>,
    x: Seq<u32>,
    s: Seq<usize>,
    by: Seq<u32>,
    n: nat,
) -> Seq<u32>
    decreases n,
{
    if n == 0 || n > s.len() {
        Seq::new(c.n_embd as nat, |i: int| 0u32)
    } else {
        let acc = blended(f, c, w, x, s, by, (n - 1) as nat);
        let y = expert_output(f, c, w, s[n - 1] as nat, x);
        Seq::new(c.n_embd as nat, |i: int| plus(f, acc[i], times(f, by[n - 1], y[i])))
    }
}

/// Whether `part` holds the sums after each of the slots: nothing at first, and then, slot after
/// slot, the share of the slot times what its expert makes of the activation.
pub open spec fn adds_up(
    f: Ops,
    c: MoeBits,
    w: Experts<'_>,
    x: Seq<u32>,
    s: Seq<usize>,
    by: Seq<u32>,
    part: Seq<Seq<u32>>,
) -> bool {
    &&& part.len() == s.len() + 1
    &&& part[0] == Seq::new(c.n_embd as nat, |i: int| 0u32)
    &&& forall|k: int, i: int|
        0 <= k < s.len() && 0 <= i < c.n_embd ==> (#[trigger] part[k + 1][i]) == plus(
            f,
            part[k][i],
            times(f, by[k], expert_output(f, c, w, s[k] as nat, x)[i]),
        )
}

proof fn slots_add_up(
    f: Ops,
    c: MoeBits,
    w: Experts<'_>,
    x: Seq<u32>,
    s: Seq<usize>,
    by: Seq<u32>,
)
    ensures
        exists|part: Seq<Seq<u32>>| #[trigger]
            adds_up(f, c, w, x, s, by, part) && part.last() == blended(f, c, w, x, s, by, s.len()),
{
    let part = Seq::new(s.len() + 1, |k: int| blended(f, c, w, x, s, by, k as nat));
    assert forall|k: int, i: int| 0 <= k < s.len() && 0 <= i < c.n_embd implies (
    #[trigger] part[k + 1][i]) == plus(
        f,
        part[k][i],
        times(f, by[k], expert_output(f, c, w, s[k] as nat, x)[i]),
    ) by {
        assert(part[k + 1] == blended(f, c, w, x, s, by, (k + 1) as nat));
        assert(part[k] == blended(f, c, w, x, s, by, k as nat));
    }
    assert(part[0] == blended(f, c, w, x, s, by, 0));
    assert(adds_up(f, c, w, x, s, by, part));
}

/// The router's logits for a token.
pub open spec fn router_of(f: Ops, c: MoeBits, w: QuantView<'_>, x: Seq<u32>) -> Seq<u32> {
    Seq::new(
        c.n_expert as nat,
        |e: int| dot_row(f, w.dtype, weight_row(w, e), x, q8_row(f, x), x.len()),
    )
}

/// What a mixture of experts makes of a token.
pub open spec fn moe_token_of(
    f: Ops,
    c: MoeBits,
    w: Experts<'_>,
    bias: Option<Seq<u32>>,
    x: Seq<u32>,
) -> Seq<u32> {
    let logits = router_of(f, c, w.router, x);
    let s = chosen(f, c, logits, bias);
    blended(f, c, w, x, s, shares(f, c, logits, bias), s.len())
}

/// Why it makes nothing of one.
pub open spec fn token_fault(
    f: Ops,
    c: MoeBits,
    w: Experts<'_>,
    bias: Option<Seq<u32>>,
    x: Seq<u32>,
) -> Option<ErrorView> {
    let s = chosen(f, c, router_of(f, c, w.router, x), bias);
    slots_fault(c, w, s, s.len())
}

pub open spec fn moe_of(
    f: Ops,
    c: MoeBits,
    w: Experts<'_>,
    bias: Option<Seq<u32>>,
    x: Seq<u32>,
    n: nat,
) -> Seq<u32>
    decreases n,
{
    if n == 0 {
        Seq::empty()
    } else {
        moe_of(f, c, w, bias, x, (n - 1) as nat) + moe_token_of(
            f,
            c,
            w,
            bias,
            x.subrange((n - 1) * c.n_embd, n * c.n_embd),
        )
    }
}

pub open spec fn moe_fault(
    f: Ops,
    c: MoeBits,
    w: Experts<'_>,
    bias: Option<Seq<u32>>,
    x: Seq<u32>,
    n: nat,
) -> Option<ErrorView>
    decreases n,
{
    if n == 0 {
        None
    } else {
        match moe_fault(f, c, w, bias, x, (n - 1) as nat) {
            Some(e) => Some(e),
            None => token_fault(f, c, w, bias, x.subrange((n - 1) * c.n_embd, n * c.n_embd)),
        }
    }
}

proof fn moe_fails(
    f: Ops,
    c: MoeBits,
    w: Experts<'_>,
    bias: Option<Seq<u32>>,
    x: Seq<u32>,
    i: nat,
    n: nat,
)
    requires
        i <= n,
        moe_fault(f, c, w, bias, x, i) is Some,
    ensures
        moe_fault(f, c, w, bias, x, n) == moe_fault(f, c, w, bias, x, i),
    decreases n,
{
    if i < n {
        moe_fails(f, c, w, bias, x, i, (n - 1) as nat);
    }
}

proof fn slots_fail(c: MoeBits, w: Experts<'_>, s: Seq<usize>, i: nat, n: nat)
    requires
        i <= n <= s.len(),
        slots_fault(c, w, s, i) is Some,
    ensures
        slots_fault(c, w, s, n) == slots_fault(c, w, s, i),
    decreases n,
{
    if i < n {
        slots_fail(c, w, s, i, (n - 1) as nat);
    }
}

/// Whether the columns of the weights are those that the activations have.
pub open spec fn columns_match(c: MoeBits, w: Experts<'_>) -> bool {
    &&& w.router.cols == c.n_embd
    &&& w.gate matches Some(Held::Here(g)) ==> g.cols == c.n_embd
    &&& w.up matches Held::Here(g) ==> g.cols == c.n_embd
    &&& w.down matches Held::Here(g) ==> g.cols == c.n_ff
}

/// Whether the slices of `n` experts of `rows` rows each can be told by the machine.
pub open spec fn stack_fits(w: Held<'_>, n: int, rows: int) -> bool {
    w matches Held::Here(g) ==> n * rows * g.row_len() <= usize::MAX && n * rows <= usize::MAX
        && g.row_len() <= usize::MAX
}

/// Whether the sizes can be told by the machine.
pub open spec fn sizes_fit(c: MoeBits, w: Experts<'_>) -> bool {
    &&& q8_blocks(c.n_embd as nat) * Q8_1_BLOCK <= usize::MAX
    &&& q8_blocks(c.n_ff as nat) * Q8_1_BLOCK <= usize::MAX
    &&& c.n_expert * w.router.row_len() <= w.router.data@.len()
    &&& w.gate matches Some(g) ==> stack_fits(g, c.n_expert as int, c.n_ff as int)
    &&& stack_fits(w.up, c.n_expert as int, c.n_ff as int)
    &&& stack_fits(w.down, c.n_expert as int, c.n_embd as int)
}

impl<A: Fn(FloatOp, u32, u32) -> u32> Arith<A> {
    fn sigmoid(&self, l: &[u32]) -> (r: Vec<u32>)
        requires
            self.works(),
        ensures
            r@ == sigmoid_all(self.ops(), l@),
    {
        let ghost f = self.ops();
        let ghost want = sigmoid_all(f, l@);
        let mut out: Vec<u32> = Vec::new();
        let mut i: usize = 0;
        while i < l.len()
            invariant
                self.works(),
                f == self.ops(),
                want == sigmoid_all(f, l@),
                i <= l@.len(),
                out@ == want.take(i as int),
            decreases l@.len() - i,
        {
            let e = self.of(FloatOp::Exp, neg_of(l[i]));
            out.push(self.over(UNIT, self.plus(UNIT, e)));
            i = i + 1;
            assert(out@ =~= want.take(i as int));
        }
        assert(want.take(i as int) =~= want);
        out
    }

    fn ranks(&self, probs: &Vec<u32>, bias: Option<&[u32]>) -> (r: Vec<u32>)
        requires
            self.works(),
            opt_seq(bias) matches Some(b) ==> probs@.len() <= b.len(),
        ensures
            r@ == ranks(self.ops(), probs@, opt_seq(bias)),
    {
        let ghost f = self.ops();
        let ghost want = ranks(f, probs@, opt_seq(bias));
        let mut out: Vec<u32> = Vec::new();
        let mut i: usize = 0;
        while i < probs.len()
            invariant
                self.works(),
                f == self.ops(),
                opt_seq(bias) matches Some(b) ==> probs@.len() <= b.len(),
                want == ranks(f, probs@, opt_seq(bias)),
                i <= probs@.len(),
                out@ == want.take(i as int),
            decreases probs@.len() - i,
        {
            let v = match bias {
                Some(b) => self.plus(probs[i], b[i]),
                None => probs[i],
            };
            out.push(v);
            i = i + 1;
            assert(out@ =~= want.take(i as int));
        }
        assert(want.take(i as int) =~= want);
        out
    }

    /// The experts that fire for a token, and their weights.
    ///
    /// Routing is not quantized: it is tiny next to the experts' projections, and selection is
    /// sensitive enough to rounding that quantizing it would change which experts fire.
    pub fn route(&self, c: &MoeBits, logits: &[u32], bias: Option<&[u32]>) -> (r: (
        Vec<usize>,
        Vec<u32>,
    ))
        requires
            self.works(),
            logits@.len() == c.n_expert,
            opt_seq(bias) matches Some(b) ==> c.n_expert <= b.len(),
        ensures
            r.0@ == chosen(self.ops(), *c, logits@, opt_seq(bias)),
            r.1@ == shares(self.ops(), *c, logits@, opt_seq(bias)),
            r.0@.len() == r.1@.len(),
            forall|i: int| 0 <= i < r.0@.len() ==> (#[trigger] r.0@[i]) < c.n_expert,
    {
        let ghost f = self.ops();
        let probs = match c.gate_func {
            GateFunc::Softmax => self.softmax(logits),
            GateFunc::Sigmoid => self.sigmoid(logits),
        };
        let k = self.ranks(&probs, bias);
        let keys = keys_of(&k);
        let s = best_indices(&keys, c.n_expert_used);
        proof {
            the_best_experts_fire(f, *c, logits@, opt_seq(bias));
        }
        let ghost p = picked(probs@, s@);
        let mut weights: Vec<u32> = Vec::new();
        let mut i: usize = 0;
        while i < s.len()
            invariant
                s@ == chosen(f, *c, logits@, opt_seq(bias)),
                forall|a: int| 0 <= a < s@.len() ==> (#[trigger] s@[a]) < c.n_expert,
                probs@.len() == c.n_expert,
                p == picked(probs@, s@),
                i <= s@.len(),
                weights@ == p.take(i as int),
            decreases s@.len() - i,
        {
            weights.push(probs[s[i]]);
            i = i + 1;
            assert(weights@ =~= p.take(i as int));
        }
        assert(p.take(i as int) =~= p);
        if c.norm_topk {
            let sum = larger_of(self.total(weights.as_slice()), TINY);
            let ghost want = Seq::new(p.len(), |i: int| over(f, p[i], sum));
            let mut q: Vec<u32> = Vec::new();
            let mut j: usize = 0;
            while j < weights.len()
                invariant
                    self.works(),
                    f == self.ops(),
                    weights@ == p,
                    want == Seq::new(p.len(), |i: int| over(f, p[i], sum)),
                    j <= weights@.len(),
                    q@ == want.take(j as int),
                decreases weights@.len() - j,
            {
                q.push(self.over(weights[j], sum));
                j = j + 1;
                assert(q@ =~= want.take(j as int));
            }
            assert(want.take(j as int) =~= want);
            weights = q;
        }
        let weights = self.scaled(weights.as_slice(), c.scale);
        (s, weights)
    }

    /// One expert's slice of a stacked tensor times a staged activation.
    pub fn expert_matvec(
        &self,
        w: &Held<'_>,
        e: usize,
        rows: usize,
        x: &[u32],
        xq: &[u8],
    ) -> (r: Result<Vec<u32>, Error>)
        requires
            self.works(),
            *w matches Held::Here(g) ==> x@.len() == g.cols,
            xq@ == q8_row(self.ops(), x@),
            stack_fits(*w, e + 1, rows as int),
        ensures
            match expert_fault(*w, e as nat, rows as nat) {
                Some(x) => r is Err && r->Err_0@ == x,
                None => r is Ok && r->Ok_0@ == expert_of(
                    self.ops(),
                    *w,
                    e as nat,
                    rows as nat,
                    x@,
                ) && r->Ok_0@.len() == rows,
            },
    {
        let ghost f = self.ops();
        let w = match w {
            Held::Here(g) => g,
            Held::Absent(id) => {
                return Err(
                    backend_err(
                        "cpu",
                        cat3("weight ", decimal(*id as u64).as_str(), " is not uploaded"),
                    ),
                );
            },
        };
        let rb = w.row_bytes();
        let ghost rl = w.row_len() as int;
        assert((e + 1) * rows == e * rows + rows && e * rows >= 0) by (nonlinear_arith)
            requires
                e >= 0,
                rows >= 0,
        ;
        assert((e * rows + rows) * rl == e * rows * rl + rows * rl && e * rows * rl >= 0 && rows * rl
            >= 0) by (nonlinear_arith)
            requires
                e >= 0,
                rows >= 0,
                rl >= 0,
        ;
        assert((e + 1) * rows * rl == (e * rows + rows) * rl);
        let base = e * rows * rb;
        if base + rows * rb > w.data.len() {
            return Err(
                Error::Shape(
                    cat5(
                        "expert ",
                        decimal(e as u64).as_str(),
                        " is past the end of a ",
                        decimal(w.rows as u64).as_str(),
                        " row tensor",
                    ),
                ),
            );
        }
        let ghost want = expert_of(f, Held::Here(*w), e as nat, rows as nat, x@);
        let first = e * rows;
        let mut out: Vec<u32> = Vec::new();
        let mut r: usize = 0;
        while r < rows
            invariant
                self.works(),
                f == self.ops(),
                x@.len() == w.cols,
                xq@ == q8_row(f, x@),
                first == e * rows,
                first + rows <= usize::MAX,
                rl == w.row_len(),
                (first + rows) * rl <= w.data@.len(),
                want == expert_of(f, Held::Here(*w), e as nat, rows as nat, x@),
                r <= rows,
                out@ == want.take(r as int),
            decreases rows - r,
        {
            assert((first + r + 1) * rl <= (first + rows) * rl) by (nonlinear_arith)
                requires
                    r + 1 <= rows,
                    rl >= 0,
            ;
            let row = w.row(first + r);
            proof {
                let g = first + r;
                assert((g + 1) * rl - g * rl == rl) by (nonlinear_arith);
                assert(row@.len() == rl);
                if dots(w.dtype) {
                    parts_fit(w.dtype, w.cols as nat);
                }
                assert(xq@.len() == q8_blocks(x@.len()) * 36);
            }
            let v = self.vec_dot_q8_1(w.dtype, w.cols, row, xq);
            out.push(v);
            assert(v == dot_quantized(f, *w, e as nat * rows as nat + r, x@));
            r = r + 1;
            assert(out@ =~= want.take(r as int));
        }
        assert(want.take(r as int) =~= want);
        Ok(out)
    }

    /// Runs one expert on a token.
    fn run_expert(&self, c: &MoeBits, w: &Experts<'_>, e: usize, x: &[u32], xq: &[u8]) -> (r: Result<
        Vec<u32>,
        Error,
    >)
        requires
            self.works(),
            columns_match(*c, *w),
            sizes_fit(*c, *w),
            e < c.n_expert,
            x@.len() == c.n_embd,
            xq@ == q8_row(self.ops(), x@),
        ensures
            match run_fault(*c, *w, e as nat) {
                Some(x) => r is Err && r->Err_0@ == x,
                None => r is Ok && r->Ok_0@ == expert_output(self.ops(), *c, *w, e as nat, x@)
                    && r->Ok_0@.len() == c.n_embd,
            },
    {
        let ghost f = self.ops();
        proof {
            fewer_rows_fit(w.up, e as int, c.n_expert as int, c.n_ff as int);
            fewer_rows_fit(w.down, e as int, c.n_expert as int, c.n_embd as int);
            if let Some(g) = w.gate {
                fewer_rows_fit(g, e as int, c.n_expert as int, c.n_ff as int);
            }
        }
        let gate = match &w.gate {
            Some(g) => Some(self.expert_matvec(g, e, c.n_ff, x, xq)?),
            None => None,
        };
        let up = self.expert_matvec(&w.up, e, c.n_ff, x, xq)?;
        let ff = match gate {
            Some(g) => self.glu(c.act, g.as_slice(), up.as_slice(), 0, UNIT, c.n_ff),
            None => self.activate(c.act, up.as_slice(), UNIT),
        };
        assert(ff@ == hidden(f, *c, *w, e as nat, x@));
        let ffq = self.quantize_q8_1(ff.as_slice());
        self.expert_matvec(&w.down, e, c.n_embd, ff.as_slice(), ffq.as_slice())
    }

    /// `acc + by * y`
    fn blend(&self, acc: &Vec<u32>, by: u32, y: &Vec<u32>) -> (r: Vec<u32>)
        requires
            self.works(),
            acc@.len() == y@.len(),
        ensures
            r@ == Seq::new(
                acc@.len(),
                |i: int| plus(self.ops(), acc@[i], times(self.ops(), by, y@[i])),
            ),
    {
        let ghost f = self.ops();
        let mut out: Vec<u32> = Vec::new();
        let mut i: usize = 0;
        while i < acc.len()
            invariant
                self.works(),
                f == self.ops(),
                acc@.len() == y@.len(),
                i <= acc@.len(),
                out@.len() == i,
                forall|j: int|
                    0 <= j < i ==> (#[trigger] out@[j]) == plus(f, acc@[j], times(f, by, y@[j])),
            decreases acc@.len() - i,
        {
            out.push(self.plus(acc[i], self.times(by, y[i])));
            i = i + 1;
        }
        out
    }

    /// The router's logits for a token.
    fn router(&self, c: &MoeBits, w: &QuantView<'_>, x: &[u32], xq: &[u8]) -> (r: Vec<u32>)
        requires
            self.works(),
            w.cols == c.n_embd,
            x@.len() == c.n_embd,
            xq@ == q8_row(self.ops(), x@),
            c.n_expert * w.row_len() <= w.data@.len(),
        ensures
            r@ == router_of(self.ops(), *c, *w, x@),
            r@.len() == c.n_expert,
    {
        let ghost f = self.ops();
        let ghost want = router_of(f, *c, *w, x@);
        let ghost rl = w.row_len() as int;
        let mut out: Vec<u32> = Vec::new();
        let mut e: usize = 0;
        while e < c.n_expert
            invariant
                self.works(),
                f == self.ops(),
                w.cols == c.n_embd,
                x@.len() == c.n_embd,
                xq@ == q8_row(f, x@),
                rl == w.row_len(),
                c.n_expert * rl <= w.data@.len(),
                want == router_of(f, *c, *w, x@),
                e <= c.n_expert,
                out@ == want.take(e as int),
            decreases c.n_expert - e,
        {
            assert((e + 1) * rl <= c.n_expert * rl && (e + 1) * rl - e * rl == rl)
                by (nonlinear_arith)
                requires
                    e + 1 <= c.n_expert,
                    rl >= 0,
            ;
            let row = w.row(e);
            out.push(self.dot_row(w.dtype, row, x, xq, w.cols));
            e = e + 1;
            assert(out@ =~= want.take(e as int));
        }
        assert(want.take(e as int) =~= want);
        out
    }

    /// What a mixture of experts makes of a token.
    pub fn moe_token(&self, c: &MoeBits, w: &Experts<'_>, bias: Option<&[u32]>, x: &[u32]) -> (r:
        Result<Vec<u32>, Error>)
        requires
            self.works(),
            columns_match(*c, *w),
            sizes_fit(*c, *w),
            opt_seq(bias) matches Some(b) ==> c.n_expert <= b.len(),
            x@.len() == c.n_embd,
        ensures
            match token_fault(self.ops(), *c, *w, opt_seq(bias), x@) {
                Some(x) => r is Err && r->Err_0@ == x,
                None => r is Ok && r->Ok_0@ == moe_token_of(
                    self.ops(),
                    *c,
                    *w,
                    opt_seq(bias),
                    x@,
                ) && r->Ok_0@.len() == c.n_embd && exists|part: Seq<Seq<u32>>|
                    #[trigger] adds_up(
                        self.ops(),
                        *c,
                        *w,
                        x@,
                        chosen(
                            self.ops(),
                            *c,
                            router_of(self.ops(), *c, w.router, x@),
                            opt_seq(bias),
                        ),
                        shares(
                            self.ops(),
                            *c,
                            router_of(self.ops(), *c, w.router, x@),
                            opt_seq(bias),
                        ),
                        part,
                    ) && part.last() == r->Ok_0@,
            },
    {
        let ghost f = self.ops();
        let xq = self.quantize_q8_1(x);
        let logits = self.router(c, &w.router, x, xq.as_slice());
        let (s, by) = self.route(c, logits.as_slice(), bias);
        let mut acc: Vec<u32> = Vec::new();
        let mut i: usize = 0;
        while i < c.n_embd
            invariant
                i <= c.n_embd,
                acc@ =~= Seq::new(i as nat, |j: int| 0u32),
            decreases c.n_embd - i,
        {
            acc.push(0);
            i = i + 1;
        }
        let mut k: usize = 0;
        while k < s.len()
            invariant
                self.works(),
                f == self.ops(),
                columns_match(*c, *w),
                sizes_fit(*c, *w),
                x@.len() == c.n_embd,
                xq@ == q8_row(f, x@),
                logits@ == router_of(f, *c, w.router, x@),
                s@ == chosen(f, *c, logits@, opt_seq(bias)),
                by@ == shares(f, *c, logits@, opt_seq(bias)),
                s@.len() == by@.len(),
                forall|a: int| 0 <= a < s@.len() ==> (#[trigger] s@[a]) < c.n_expert,
                k <= s@.len(),
                acc@.len() == c.n_embd,
                slots_fault(*c, *w, s@, k as nat) is None,
                acc@ == blended(f, *c, *w, x@, s@, by@, k as nat),
            decreases s@.len() - k,
        {
            let e = s[k];
            proof {
                if run_fault(*c, *w, e as nat) is Some {
                    assert(slots_fault(*c, *w, s@, k as nat + 1) == run_fault(*c, *w, e as nat));
                    slots_fail(*c, *w, s@, k as nat + 1, s@.len());
                }
            }
            let y = self.run_expert(c, w, e, x, xq.as_slice())?;
            acc = self.blend(&acc, by[k], &y);
            k = k + 1;
            assert(acc@ =~= blended(f, *c, *w, x@, s@, by@, k as nat));
        }
        proof {
            slots_add_up(f, *c, *w, x@, s@, by@);
        }
        Ok(acc)
    }

    /// What a mixture of experts makes of `n` tokens.
    pub fn moe(&self, c: &MoeBits, w: &Experts<'_>, bias: Option<&[u32]>, x: &[u32], n: usize) -> (r:
        Result<Vec<u32>, Error>)
        requires
            self.works(),
            columns_match(*c, *w),
            sizes_fit(*c, *w),
            opt_seq(bias) matches Some(b) ==> c.n_expert <= b.len(),
            n * c.n_embd <= x@.len(),
        ensures
            match moe_fault(self.ops(), *c, *w, opt_seq(bias), x@, n as nat) {
                Some(x) => r is Err && r->Err_0@ == x,
                None => r is Ok && r->Ok_0@ == moe_of(
                    self.ops(),
                    *c,
                    *w,
                    opt_seq(bias),
                    x@,
                    n as nat,
                ) && r->Ok_0@.len() == n * c.n_embd,
            },
    {
        let ghost f = self.ops();
        let d = c.n_embd;
        let len = x.len();
        let mut out: Vec<u32> = Vec::new();
        let mut t: usize = 0;
        while t < n
            invariant
                self.works(),
                f == self.ops(),
                d == c.n_embd,
                len == x@.len(),
                columns_match(*c, *w),
                sizes_fit(*c, *w),
                opt_seq(bias) matches Some(b) ==> c.n_expert <= b.len(),
                n * d <= len,
                t <= n,
                moe_fault(f, *c, *w, opt_seq(bias), x@, t as nat) is None,
                out@ == moe_of(f, *c, *w, opt_seq(bias), x@, t as nat),
                out@.len() == t * d,
            decreases n - t,
        {
            assert(t * d + d <= n * d && t * d + d == (t + 1) * d && t * d >= 0)
                by (nonlinear_arith)
                requires
                    t + 1 <= n,
                    d >= 0,
            ;
            let a = slice_subrange(x, t * d, t * d + d);
            proof {
                if token_fault(f, *c, *w, opt_seq(bias), a@) is Some {
                    moe_fails(f, *c, *w, opt_seq(bias), x@, t as nat + 1, n as nat);
                }
            }
            let mut y = self.moe_token(c, w, bias, a)?;
            out.append(&mut y);
            t = t + 1;
        }
        Ok(out)
    }
}

proof fn fewer_rows_fit(w: Held<'_>, e: int, n: int, rows: int)
    requires
        0 <= e < n,
        0 <= rows,
        stack_fits(w, n, rows),
    ensures
        stack_fits(w, e + 1, rows),
{
    if let Held::Here(g) = w {
        let len = g.row_len() as int;
        assert((e + 1) * rows <= n * rows) by (nonlinear_arith)
            requires
                0 <= e < n,
                0 <= rows,
        ;
        assert((e + 1) * rows * len <= n * rows * len) by (nonlinear_arith)
            requires
                (e + 1) * rows <= n * rows,
                0 <= len,
        ;
    }
}

} // verus!
