//! What the operations on activations are for, as relations between what goes in and what comes
//! out. Where a relation needs an operation to be exact, it says so.

use vstd::prelude::*;

use super::moe::{
    blended, chosen, expert_of, expert_output, moe_of, moe_token_of, picked, probabilities, ranks,
    router_of, shares, Experts, Held, MoeBits,
};
use super::ops::{
    activated, binary_all, capped, glu_of, largest, mean_of, norm_of, norm_row_of, normal_of,
    scaled, softmax_of, total, NormBits, TINY,
};
use crate::backend::{Activation, BinOp, GateFunc, NormKind};
use crate::dtype::QuantView;
use crate::single::{
    at_most, count, equal, is_nan, larger, less, minus, negated, of, over, plus, times, FloatOp,
    Ops, NEG_INFINITY, UNIT,
};

verus! {

// ------------------------------------------------------------------------------- exactness

/// Whether `a / b` loses nothing.
pub open spec fn exact_over(f: Ops, a: u32, b: u32) -> bool {
    times(f, over(f, a, b), b) == a
}

/// Whether zero is nothing to a sum, and makes nothing of a product.
pub open spec fn zero_is_nothing(f: Ops) -> bool {
    &&& forall|a: u32| #[trigger] plus(f, 0, a) == a
    &&& forall|a: u32| #[trigger] plus(f, a, 0) == a
    &&& forall|a: u32| #[trigger] times(f, 0, a) == 0
    &&& forall|a: u32| #[trigger] times(f, a, 0) == 0
}

/// Whether the order in which terms are added makes no difference.
pub open spec fn order_is_free(f: Ops) -> bool {
    forall|a: u32, b: u32, c: u32|
        #[trigger] plus(f, plus(f, a, b), c) == plus(f, plus(f, a, c), b)
}

/// The values of a sequence added one after the other, from the first on.
pub open spec fn summed(f: Ops, l: Seq<u32>) -> u32
    decreases l.len(),
{
    if l.len() == 0 {
        0
    } else {
        plus(f, summed(f, l.drop_last()), l.last())
    }
}

proof fn total_is_the_sum(f: Ops, l: Seq<u32>, n: nat)
    requires
        n <= l.len(),
    ensures
        total(f, l, n) == summed(f, l.take(n as int)),
    decreases n,
{
    if n > 0 {
        total_is_the_sum(f, l, (n - 1) as nat);
        assert(l.take(n as int).drop_last() =~= l.take(n - 1));
    }
}

// --------------------------------------------------------------------- mixture of experts

/// What comes out is the sum, over the slots, of the share of each times what its expert makes of
/// the token.
pub proof fn every_slot_adds_its_share(
    f: Ops,
    c: MoeBits,
    w: Experts<'_>,
    bias: Option<Seq<u32>>,
    x: Seq<u32>,
    i: int,
)
    requires
        0 <= i < c.n_embd,
    ensures
        moe_token_of(f, c, w, bias, x).len() == c.n_embd,
        ({
            let logits = router_of(f, c, w.router, x);
            let s = chosen(f, c, logits, bias);
            let by = shares(f, c, logits, bias);
            moe_token_of(f, c, w, bias, x)[i] == summed(
                f,
                Seq::new(
                    s.len(),
                    |k: int| times(f, by[k], expert_output(f, c, w, s[k] as nat, x)[i]),
                ),
            )
        }),
{
    let logits = router_of(f, c, w.router, x);
    let s = chosen(f, c, logits, bias);
    let by = shares(f, c, logits, bias);
    let terms = Seq::new(
        s.len(),
        |k: int| times(f, by[k], expert_output(f, c, w, s[k] as nat, x)[i]),
    );
    blended_sums(f, c, w, x, s, by, s.len(), i);
    assert(terms.take(s.len() as int) =~= terms);
}

proof fn blended_sums(
    f: Ops,
    c: MoeBits,
    w: Experts<'_>,
    x: Seq<u32>,
    s: Seq<usize>,
    by: Seq<u32>,
    n: nat,
    i: int,
)
    requires
        n <= s.len(),
        0 <= i < c.n_embd,
    ensures
        blended(f, c, w, x, s, by, n).len() == c.n_embd,
        blended(f, c, w, x, s, by, n)[i] == summed(
            f,
            Seq::new(
                s.len(),
                |k: int| times(f, by[k], expert_output(f, c, w, s[k] as nat, x)[i]),
            ).take(n as int),
        ),
    decreases n,
{
    let terms = Seq::new(
        s.len(),
        |k: int| times(f, by[k], expert_output(f, c, w, s[k] as nat, x)[i]),
    );
    if n > 0 {
        blended_sums(f, c, w, x, s, by, (n - 1) as nat, i);
        assert(terms.take(n as int).drop_last() =~= terms.take(n - 1));
        assert(terms.take(n as int).last() == terms[n - 1]);
    }
}

/// Where the shares of all slots but one are zero, what comes out is that one's share times what
/// its own expert makes of the token.
pub proof fn a_slot_is_weighted_by_its_own_share(
    f: Ops,
    c: MoeBits,
    w: Experts<'_>,
    x: Seq<u32>,
    s: Seq<usize>,
    by: Seq<u32>,
    k: int,
    i: int,
)
    requires
        zero_is_nothing(f),
        s.len() == by.len(),
        0 <= k < s.len(),
        0 <= i < c.n_embd,
        forall|j: int| 0 <= j < by.len() && j != k ==> (#[trigger] by[j]) == 0,
    ensures
        blended(f, c, w, x, s, by, s.len())[i] == times(
            f,
            by[k],
            expert_output(f, c, w, s[k] as nat, x)[i],
        ),
{
    alone(f, c, w, x, s, by, k, i, s.len());
}

proof fn alone(
    f: Ops,
    c: MoeBits,
    w: Experts<'_>,
    x: Seq<u32>,
    s: Seq<usize>,
    by: Seq<u32>,
    k: int,
    i: int,
    n: nat,
)
    requires
        zero_is_nothing(f),
        s.len() == by.len(),
        0 <= k < s.len(),
        0 <= i < c.n_embd,
        n <= s.len(),
        forall|j: int| 0 <= j < by.len() && j != k ==> (#[trigger] by[j]) == 0,
    ensures
        blended(f, c, w, x, s, by, n).len() == c.n_embd,
        blended(f, c, w, x, s, by, n)[i] == if k < n {
            times(f, by[k], expert_output(f, c, w, s[k] as nat, x)[i])
        } else {
            0
        },
    decreases n,
{
    if n > 0 {
        alone(f, c, w, x, s, by, k, i, (n - 1) as nat);
        if n - 1 != k {
            assert(by[n - 1] == 0);
        }
    }
}

/// Two slots may change places, each with its share: only the order of the terms changes.
pub proof fn slots_may_change_places(
    f: Ops,
    c: MoeBits,
    w: Experts<'_>,
    x: Seq<u32>,
    s: Seq<usize>,
    by: Seq<u32>,
    k: int,
)
    requires
        order_is_free(f),
        s.len() == by.len(),
        0 <= k,
        k + 1 < s.len(),
    ensures
        blended(
            f,
            c,
            w,
            x,
            s.update(k, s[k + 1]).update(k + 1, s[k]),
            by.update(k, by[k + 1]).update(k + 1, by[k]),
            s.len(),
        ) == blended(f, c, w, x, s, by, s.len()),
{
    swapped(f, c, w, x, s, by, k, s.len());
}

proof fn swapped(
    f: Ops,
    c: MoeBits,
    w: Experts<'_>,
    x: Seq<u32>,
    s: Seq<usize>,
    by: Seq<u32>,
    k: int,
    n: nat,
)
    requires
        order_is_free(f),
        s.len() == by.len(),
        0 <= k,
        k + 1 < s.len(),
        n <= s.len(),
    ensures
        n <= k || n >= k + 2 ==> blended(
            f,
            c,
            w,
            x,
            s.update(k, s[k + 1]).update(k + 1, s[k]),
            by.update(k, by[k + 1]).update(k + 1, by[k]),
            n,
        ) == blended(f, c, w, x, s, by, n),
    decreases n,
{
    let t = s.update(k, s[k + 1]).update(k + 1, s[k]);
    let of = by.update(k, by[k + 1]).update(k + 1, by[k]);
    if n == k + 2 {
        swapped(f, c, w, x, s, by, k, k as nat);
        let a = blended(f, c, w, x, s, by, k as nat);
        assert(blended(f, c, w, x, t, of, k as nat) == a);
        reveal_with_fuel(blended, 3);
        let y = expert_output(f, c, w, s[k] as nat, x);
        let z = expert_output(f, c, w, s[k + 1] as nat, x);
        assert forall|i: int| 0 <= i < c.n_embd implies blended(f, c, w, x, t, of, n)[i] == blended(
            f,
            c,
            w,
            x,
            s,
            by,
            n,
        )[i] by {
            assert(blended(f, c, w, x, s, by, n)[i] == plus(
                f,
                plus(f, a[i], times(f, by[k], y[i])),
                times(f, by[k + 1], z[i]),
            ));
            assert(blended(f, c, w, x, t, of, n)[i] == plus(
                f,
                plus(f, a[i], times(f, by[k + 1], z[i])),
                times(f, by[k], y[i]),
            ));
        }
        assert(blended(f, c, w, x, t, of, n) =~= blended(f, c, w, x, s, by, n));
    } else if n > 0 && (n <= k || n > k + 2) {
        swapped(f, c, w, x, s, by, k, (n - 1) as nat);
        assert(t[n - 1] == s[n - 1] && of[n - 1] == by[n - 1]);
    }
}

/// A share is the probability of its own expert times the scale; among normalized ones it is the
/// probability over the sum of those that fire.
pub proof fn a_share_is_its_experts_probability(
    f: Ops,
    c: MoeBits,
    logits: Seq<u32>,
    bias: Option<Seq<u32>>,
    k: int,
)
    requires
        0 <= k < chosen(f, c, logits, bias).len(),
    ensures
        shares(f, c, logits, bias).len() == chosen(f, c, logits, bias).len(),
        ({
            let p = probabilities(f, c.gate_func, logits);
            let s = chosen(f, c, logits, bias);
            let own = p[s[k] as int];
            let all = larger(summed(f, Seq::new(s.len(), |j: int| p[s[j] as int])), TINY);
            let share = shares(f, c, logits, bias)[k];
            &&& !c.norm_topk ==> share == times(f, own, c.scale)
            &&& c.norm_topk && exact_over(f, own, all) && times(f, over(f, own, all), c.scale)
                == over(f, own, all) ==> times(f, share, all) == own
        }),
{
    let p = probabilities(f, c.gate_func, logits);
    let s = chosen(f, c, logits, bias);
    let q = picked(p, s);
    assert(q =~= Seq::new(s.len(), |j: int| p[s[j] as int]));
    total_is_the_sum(f, q, q.len());
    assert(q.take(q.len() as int) =~= q);
}

/// A bias steers which experts fire, and nothing else: where the same ones fire, their shares are
/// the same.
pub proof fn a_bias_steers_selection_only(
    f: Ops,
    c: MoeBits,
    logits: Seq<u32>,
    one: Option<Seq<u32>>,
    other: Option<Seq<u32>>,
)
    requires
        chosen(f, c, logits, one) == chosen(f, c, logits, other),
    ensures
        shares(f, c, logits, one) == shares(f, c, logits, other),
{
}

/// Experts are ranked by their probability and, where there is one, their bias added.
pub proof fn experts_are_ranked_by_what_is_likely(f: Ops, p: Seq<u32>, b: Seq<u32>, i: int)
    requires
        0 <= i < p.len(),
    ensures
        ranks(f, p, None)[i] == p[i],
        ranks(f, p, Some(b))[i] == plus(f, p[i], b[i]),
{
}

/// The probability of a sigmoid router times one more than the exponential of the negated logit is
/// one.
pub proof fn a_sigmoid_is_the_logistic_function(f: Ops, logits: Seq<u32>, i: int)
    requires
        0 <= i < logits.len(),
    ensures
        ({
            let d = plus(f, UNIT, of(f, FloatOp::Exp, negated(logits[i])));
            exact_over(f, UNIT, d) ==> times(
                f,
                probabilities(f, GateFunc::Sigmoid, logits)[i],
                d,
            ) == UNIT
        }),
{
}

/// An expert reads its own part of a stack: expert `e` makes of an activation what the only expert
/// of a stack made of that part does.
pub proof fn an_expert_reads_its_own_part(
    f: Ops,
    w: QuantView<'_>,
    part: QuantView<'_>,
    e: nat,
    rows: nat,
    x: Seq<u32>,
)
    requires
        part.dtype == w.dtype,
        part.row_len() == w.row_len(),
        (e + 1) * rows * w.row_len() <= w.data@.len(),
        part.data@ == w.data@.subrange(
            (e * rows * w.row_len()) as int,
            ((e + 1) * rows * w.row_len()) as int,
        ),
    ensures
        expert_of(f, Held::Here(w), e, rows, x) == expert_of(f, Held::Here(part), 0, rows, x),
{
    let n = w.row_len() as int;
    assert forall|r: int| 0 <= r < rows implies expert_of(f, Held::Here(w), e, rows, x)[r]
        == expert_of(f, Held::Here(part), 0, rows, x)[r] by {
        let lo = e * rows * n;
        assert((e * rows + r) * n == lo + r * n && (e * rows + r + 1) * n == lo + (r + 1) * n)
            by (nonlinear_arith)
            requires
                lo == e * rows * n,
        ;
        assert((r + 1) * n <= rows * n && 0 <= r * n && r * n <= (r + 1) * n && (e + 1) * rows * n
            == lo + rows * n && lo >= 0) by (nonlinear_arith)
            requires
                lo == e * rows * n,
                0 <= r < rows,
                n >= 0,
                e >= 0,
        ;
        assert(0 * rows + r == r);
        assert(super::matmul::weight_row(w, e * rows + r) =~= super::matmul::weight_row(part, r));
    }
    assert(expert_of(f, Held::Here(w), e, rows, x) =~= expert_of(f, Held::Here(part), 0, rows, x));
}

/// Tokens do not meet: what comes out for token `t` is what it comes to alone.
pub proof fn experts_take_token_by_token(
    f: Ops,
    c: MoeBits,
    w: Experts<'_>,
    bias: Option<Seq<u32>>,
    x: Seq<u32>,
    n: nat,
    t: int,
)
    requires
        0 <= t < n,
    ensures
        moe_of(f, c, w, bias, x, n).subrange(t * c.n_embd, (t + 1) * c.n_embd) == moe_token_of(
            f,
            c,
            w,
            bias,
            x.subrange(t * c.n_embd, (t + 1) * c.n_embd),
        ),
        moe_of(f, c, w, bias, x, n).len() == n * c.n_embd,
    decreases n,
{
    let d = c.n_embd as int;
    let last = x.subrange((n - 1) * d, n * d);
    let tail = moe_token_of(f, c, w, bias, last);
    let logits = router_of(f, c, w.router, last);
    let s = chosen(f, c, logits, bias);
    assert(tail.len() == d) by {
        blended_len(f, c, w, last, s, shares(f, c, logits, bias), s.len());
    }
    assert((n - 1) * d + d == n * d) by (nonlinear_arith);
    if n == 1 {
        assert(moe_of(f, c, w, bias, x, 0).len() == 0);
        assert(t * d == 0 && (t + 1) * d == d) by (nonlinear_arith)
            requires
                t == 0,
        ;
        assert(moe_of(f, c, w, bias, x, n) =~= tail);
        assert(tail.subrange(0, d) =~= tail);
    } else if t == n - 1 {
        experts_take_token_by_token(f, c, w, bias, x, (n - 1) as nat, 0);
        assert(moe_of(f, c, w, bias, x, n).subrange(t * d, (t + 1) * d) =~= tail);
    } else {
        experts_take_token_by_token(f, c, w, bias, x, (n - 1) as nat, t);
        assert(0 <= t * d <= (t + 1) * d <= (n - 1) * d) by (nonlinear_arith)
            requires
                0 <= t < n - 1,
                d >= 0,
        ;
        assert(moe_of(f, c, w, bias, x, n).subrange(t * d, (t + 1) * d) =~= moe_of(
            f,
            c,
            w,
            bias,
            x,
            (n - 1) as nat,
        ).subrange(t * d, (t + 1) * d));
    }
}

proof fn blended_len(
    f: Ops,
    c: MoeBits,
    w: Experts<'_>,
    x: Seq<u32>,
    s: Seq<usize>,
    by: Seq<u32>,
    n: nat,
)
    ensures
        blended(f, c, w, x, s, by, n).len() == c.n_embd,
{
}

// -------------------------------------------------------------------------------- softmax

/// The largest of some numbers is one of them, and none is larger.
pub proof fn the_largest_is_one_of_them(l: Seq<u32>, n: nat)
    requires
        0 < n <= l.len(),
        forall|i: int| 0 <= i < n ==> !is_nan(#[trigger] l[i]),
    ensures
        exists|i: int| 0 <= i < n && #[trigger] l[i] == largest(l, n),
        forall|i: int| 0 <= i < n ==> at_most(#[trigger] l[i], largest(l, n)),
    decreases n,
{
    if n > 1 {
        the_largest_is_one_of_them(l, (n - 1) as nat);
        let i = choose|i: int| 0 <= i < n - 1 && #[trigger] l[i] == largest(l, (n - 1) as nat);
        assert(largest(l, n) == l[i] || largest(l, n) == l[n - 1]);
    } else {
        reveal_with_fuel(largest, 2);
        assert(!is_nan(l[0]));
        assert(!less(NEG_INFINITY, l[0]) ==> l[0] == NEG_INFINITY);
        assert(largest(l, n) == l[0]);
    }
}

/// The chances go as the exponentials of the logits less the largest of them, and make up one:
/// each, times their sum, is its own exponential.
pub proof fn chances_go_as_exponentials(f: Ops, l: Seq<u32>, i: int)
    requires
        0 <= i < l.len(),
    ensures
        softmax_of(f, l).len() == l.len(),
        ({
            let weight = |k: int| of(f, FloatOp::Exp, minus(f, l[k], largest(l, l.len())));
            let all = larger(summed(f, Seq::new(l.len(), weight)), TINY);
            times(f, times(f, weight(i), over(f, UNIT, all)), all) == weight(i) ==> times(
                f,
                softmax_of(f, l)[i],
                all,
            ) == weight(i)
        }),
{
    let weight = |k: int| of(f, FloatOp::Exp, minus(f, l[k], largest(l, l.len())));
    let e = super::ops::exponentials(f, l);
    assert(e =~= Seq::new(l.len(), weight));
    total_is_the_sum(f, e, e.len());
    assert(e.take(e.len() as int) =~= e);
}

// ---------------------------------------------------------------------------- activations

/// SiLU is the number over one more than the exponential of its negation; the scaled ones scale
/// what is negated.
pub proof fn sigmoid_units_divide(f: Ops, x: u32, alpha: u32)
    ensures
        ({
            let d = plus(f, UNIT, of(f, FloatOp::Exp, negated(x)));
            exact_over(f, x, d) ==> times(f, activated(f, Activation::Silu, x, alpha), d) == x
        }),
        ({
            let d = plus(f, UNIT, of(f, FloatOp::Exp, times(f, 0xbfd9_db23, x)));
            exact_over(f, x, d) ==> times(f, activated(f, Activation::GeluQuick, x, alpha), d) == x
        }),
        ({
            let d = plus(f, UNIT, of(f, FloatOp::Exp, times(f, negated(alpha), x)));
            exact_over(f, x, d) ==> times(f, activated(f, Activation::Swish, x, alpha), d) == x
        }),
        times(f, negated(UNIT), x) == negated(x) ==> activated(f, Activation::Swish, x, UNIT)
            == activated(f, Activation::Silu, x, alpha),
{
}

/// GELU passes a number on where its curve is at its upper end, and nothing where it is at its
/// lower one; its two names are one function.
pub proof fn gelu_passes_on_or_stops(f: Ops, x: u32, alpha: u32)
    ensures
        activated(f, Activation::Gelu, x, alpha) == activated(f, Activation::GeluTanh, x, alpha),
        ({
            let cube = times(f, times(f, times(f, 0x3d37_2713, x), x), x);
            let curve = of(f, FloatOp::Tanh, times(f, 0x3f4c_422a, plus(f, x, cube)));
            let y = activated(f, Activation::Gelu, x, alpha);
            &&& curve == UNIT && times(f, times(f, 0x3f00_0000, x), plus(f, UNIT, UNIT)) == x ==> y
                == x
            &&& plus(f, UNIT, curve) == 0 && zero_is_nothing(f) ==> y == 0
            &&& curve == 0 && zero_is_nothing(f) ==> times(f, times(f, 0x3f00_0000, x), UNIT) == y
        }),
{
}

/// ReLU passes what is positive on and stops what is negative; its square is the square of that.
pub proof fn relu_stops_what_is_negative(f: Ops, x: u32, alpha: u32)
    ensures
        less(0, x) ==> activated(f, Activation::Relu, x, alpha) == x,
        less(x, 0) ==> activated(f, Activation::Relu, x, alpha) == 0,
        !is_nan(x) ==> !less(activated(f, Activation::Relu, x, alpha), 0),
        activated(f, Activation::Relu2, x, alpha) == times(
            f,
            activated(f, Activation::Relu, x, alpha),
            activated(f, Activation::Relu, x, alpha),
        ),
{
}

/// A gate multiplies: what it makes of the one half times the other, value by value.
pub proof fn a_gate_multiplies(
    f: Ops,
    act: Activation,
    gate: Seq<u32>,
    up: Seq<u32>,
    alpha: u32,
    n: nat,
    i: int,
)
    requires
        0 <= i < n,
    ensures
        glu_of(f, act, gate, up, 0, alpha, n).len() == n,
        glu_of(f, act, gate, up, 0, alpha, n)[i] == times(
            f,
            activated(f, act, gate[i], alpha),
            up[i],
        ),
{
}

/// A limit cuts both halves: what lies within it passes as it is, and what lies past it counts as
/// the limit does.
pub proof fn a_limit_cuts_both_halves(
    f: Ops,
    act: Activation,
    gate: Seq<u32>,
    up: Seq<u32>,
    limit: u32,
    alpha: u32,
    n: nat,
    i: int,
)
    requires
        less(0, limit),
        0 <= i < n,
        i < gate.len(),
        i < up.len(),
    ensures
        at_most(negated(limit), gate[i]) && at_most(gate[i], limit) && at_most(negated(limit), up[i])
            && at_most(up[i], limit) ==> glu_of(f, act, gate, up, limit, alpha, n)[i] == glu_of(
            f,
            act,
            gate,
            up,
            0,
            alpha,
            n,
        )[i],
        less(limit, gate[i]) ==> glu_of(f, act, gate, up, limit, alpha, n)[i] == glu_of(
            f,
            act,
            gate.update(i, limit),
            up,
            limit,
            alpha,
            n,
        )[i],
        less(gate[i], negated(limit)) ==> glu_of(f, act, gate, up, limit, alpha, n)[i] == glu_of(
            f,
            act,
            gate.update(i, negated(limit)),
            up,
            limit,
            alpha,
            n,
        )[i],
        less(limit, up[i]) ==> glu_of(f, act, gate, up, limit, alpha, n)[i] == glu_of(
            f,
            act,
            gate,
            up.update(i, limit),
            limit,
            alpha,
            n,
        )[i],
        less(up[i], negated(limit)) ==> glu_of(f, act, gate, up, limit, alpha, n)[i] == glu_of(
            f,
            act,
            gate,
            up.update(i, negated(limit)),
            limit,
            alpha,
            n,
        )[i],
{
}

// ------------------------------------------------------------------------- value by value

/// Subtracting undoes adding, value by value, the shorter operand over and over.
pub proof fn subtracting_undoes_adding(f: Ops, x: Seq<u32>, y: Seq<u32>, i: int)
    requires
        0 <= i < x.len(),
        y.len() > 0,
        minus(f, plus(f, x[i], y[i % y.len() as int]), y[i % y.len() as int]) == x[i],
    ensures
        binary_all(f, BinOp::Sub, binary_all(f, BinOp::Add, x, y, x.len()), y, x.len())[i] == x[i],
{
}

/// A product is that of the values at the same place, the shorter operand over and over; where one
/// is one, it is the other.
pub proof fn products_are_value_by_value(f: Ops, x: Seq<u32>, y: Seq<u32>, i: int)
    requires
        0 <= i < x.len(),
        y.len() > 0,
    ensures
        binary_all(f, BinOp::Mul, x, y, x.len()).len() == x.len(),
        binary_all(f, BinOp::Mul, x, y, x.len())[i] == times(f, x[i], y[i % y.len() as int]),
        scaled(f, x, UNIT)[i] == times(f, x[i], UNIT),
        binary_all(f, BinOp::Mul, x, seq![y[0]], x.len())[i] == scaled(f, x, y[0])[i],
{
    assert(i % 1 == 0);
}

/// A cap leaves what is small next to it as it is, and never lets more than itself out.
pub proof fn a_cap_bends_towards_itself(f: Ops, x: u32, cap: u32)
    ensures
        ({
            let part = over(f, x, cap);
            let bent = of(f, FloatOp::Tanh, part);
            &&& bent == part && times(f, cap, part) == x ==> capped(f, x, cap) == x
            &&& bent == UNIT && times(f, cap, UNIT) == cap ==> capped(f, x, cap) == cap
            &&& over(f, times(f, cap, bent), cap) == bent ==> over(f, capped(f, x, cap), cap)
                == bent
        }),
{
}

// ---------------------------------------------------------------------------------- norms

/// A mean, times how many there are, is their sum.
pub proof fn a_mean_is_a_share_of_the_sum(f: Ops, s: Seq<u32>)
    requires
        s.len() <= u32::MAX,
        exact_over(f, summed(f, s), count(f, s.len() as u32)),
    ensures
        times(f, mean_of(f, s), count(f, s.len() as u32)) == summed(f, s),
{
    total_is_the_sum(f, s, s.len());
    assert(s.take(s.len() as int) =~= s);
}

/// A root mean square norm multiplies every value by one factor, and that factor times the root
/// of the mean of the squares is one.
pub proof fn an_rms_norm_divides_by_the_root_of_the_mean_square(
    f: Ops,
    s: Seq<u32>,
    eps: u32,
    by: u32,
    mean: u32,
    i: int,
)
    requires
        0 <= i < s.len(),
        mean == over(
            f,
            summed(f, Seq::new(s.len(), |k: int| times(f, s[k], s[k]))),
            count(f, s.len() as u32),
        ),
        by == over(f, UNIT, of(f, FloatOp::Sqrt, plus(f, mean, eps))),
    ensures
        normal_of(f, NormKind::Rms, s, eps).len() == s.len(),
        normal_of(f, NormKind::Rms, s, eps)[i] == times(f, s[i], by),
{
    let q = super::ops::squares(f, s);
    assert(q =~= Seq::new(s.len(), |k: int| times(f, s[k], s[k])));
    total_is_the_sum(f, q, q.len());
    assert(q.take(q.len() as int) =~= q);
}

/// A layer norm takes the mean off first: it is the root mean square norm of what is left.
pub proof fn a_layer_norm_takes_the_mean_off(f: Ops, s: Seq<u32>, eps: u32)
    ensures
        ({
            let mean = over(f, summed(f, s), count(f, s.len() as u32));
            normal_of(f, NormKind::Layer, s, eps) == normal_of(
                f,
                NormKind::Rms,
                Seq::new(s.len(), |k: int| minus(f, s[k], mean)),
                eps,
            )
        }),
{
    total_is_the_sum(f, s, s.len());
    assert(s.take(s.len() as int) =~= s);
    let mean = over(f, summed(f, s), count(f, s.len() as u32));
    assert(super::ops::centered(f, s) =~= Seq::new(s.len(), |k: int| minus(f, s[k], mean)));
}

/// A weight multiplies what was normed, a bias is added to that, and a scale multiplies it all;
/// without them it stays as it is.
pub proof fn a_norm_is_weighted_and_biased(
    f: Ops,
    c: NormBits,
    s: Seq<u32>,
    w: Seq<u32>,
    b: Seq<u32>,
    i: int,
)
    requires
        0 <= i < s.len(),
        s.len() <= w.len(),
        s.len() <= b.len(),
    ensures
        ({
            let y = normal_of(f, c.kind, s, c.eps)[i];
            &&& equal(c.scale, UNIT) ==> {
                &&& norm_row_of(f, c, s, None, None)[i] == y
                &&& norm_row_of(f, c, s, Some(w), None)[i] == times(f, y, w[i])
                &&& norm_row_of(f, c, s, None, Some(b))[i] == plus(f, y, b[i])
                &&& norm_row_of(f, c, s, Some(w), Some(b))[i] == plus(f, times(f, y, w[i]), b[i])
            }
            &&& !equal(c.scale, UNIT) ==> norm_row_of(f, c, s, Some(w), Some(b))[i] == times(
                f,
                plus(f, times(f, y, w[i]), b[i]),
                c.scale,
            )
        }),
{
}

/// Rows do not meet: each is normed by itself.
pub proof fn norms_take_row_by_row(
    f: Ops,
    c: NormBits,
    s: Seq<u32>,
    weight: Option<Seq<u32>>,
    bias: Option<Seq<u32>>,
    dim: int,
    n: nat,
    t: int,
)
    requires
        0 <= t < n,
        0 <= dim,
        n * dim <= s.len(),
    ensures
        norm_of(f, c, s, weight, bias, dim, n).len() == n * dim,
        norm_of(f, c, s, weight, bias, dim, n).subrange(t * dim, (t + 1) * dim) == norm_row_of(
            f,
            c,
            s.subrange(t * dim, (t + 1) * dim),
            weight,
            bias,
        ),
    decreases n,
{
    assert((n - 1) * dim + dim == n * dim && 0 <= (n - 1) * dim) by (nonlinear_arith)
        requires
            n >= 1,
            dim >= 0,
    ;
    let tail = norm_row_of(f, c, s.subrange((n - 1) * dim, n * dim), weight, bias);
    let all = norm_of(f, c, s, weight, bias, dim, n);
    if n == 1 {
        assert(t * dim == 0 && (t + 1) * dim == dim && 0 * dim == 0) by (nonlinear_arith)
            requires
                t == 0,
        ;
        assert(norm_of(f, c, s, weight, bias, dim, 0).len() == 0);
        assert(all =~= tail);
        assert(all.subrange(0, dim) =~= tail);
    } else if t == n - 1 {
        norms_take_row_by_row(f, c, s, weight, bias, dim, (n - 1) as nat, 0);
        assert(all.subrange(t * dim, (t + 1) * dim) =~= tail);
    } else {
        norms_take_row_by_row(f, c, s, weight, bias, dim, (n - 1) as nat, t);
        assert(0 <= t * dim <= (t + 1) * dim <= (n - 1) * dim) by (nonlinear_arith)
            requires
                0 <= t < n - 1,
                dim >= 0,
        ;
        assert(all.subrange(t * dim, (t + 1) * dim) =~= norm_of(
            f,
            c,
            s,
            weight,
            bias,
            dim,
            (n - 1) as nat,
        ).subrange(t * dim, (t + 1) * dim));
    }
}

} // verus!
