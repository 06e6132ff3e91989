//! That a dot over quantized blocks is the dot of the numbers that the blocks stand for, wherever
//! arithmetic is exact.

use vstd::prelude::*;

use super::block::{base, code, le16_at, minimum, offset, scale, second, signed};
use super::dequant::{block_value, form, Form};
use super::dot::{
    act, act_sum, code_dot, offset_folds_into_the_sum, parts, row_dot, shape, shifted_dot,
    with_group, with_part, with_parts, Shape, EIGHT, SIXTEEN,
};
use crate::dtype::DType;
use crate::single::{half, minus, plus, times, whole, Ops};

verus! {

/// Whether an arithmetic is that of a ring, into which the whole numbers go.
#[verifier::opaque]
pub open spec fn ring(f: Ops) -> bool {
    &&& forall|a: u32, b: u32| #[trigger] plus(f, a, b) == plus(f, b, a)
    &&& forall|a: u32, b: u32, c: u32|
        #[trigger] plus(f, plus(f, a, b), c) == plus(f, a, plus(f, b, c))
    &&& forall|a: u32, b: u32| #[trigger] times(f, a, b) == times(f, b, a)
    &&& forall|a: u32, b: u32, c: u32|
        #[trigger] times(f, times(f, a, b), c) == times(f, a, times(f, b, c))
    &&& forall|a: u32, b: u32, c: u32|
        #[trigger] times(f, a, plus(f, b, c)) == plus(f, times(f, a, b), times(f, a, c))
    &&& forall|a: u32| #[trigger] plus(f, 0, a) == a
    &&& forall|a: u32| #[trigger] times(f, a, 0) == 0
    &&& forall|a: u32| #[trigger] times(f, a, whole(f, 1)) == a
    &&& forall|a: u32, b: u32| #[trigger] minus(f, a, b) == plus(f, a, times(f, whole(f, -1), b))
    &&& forall|m: int, n: int| #[trigger] whole(f, m + n) == plus(f, whole(f, m), whole(f, n))
    &&& forall|m: int, n: int| #[trigger] whole(f, m * n) == times(f, whole(f, m), whole(f, n))
    &&& whole(f, 0) == 0
}

proof fn swap(f: Ops, a: u32, b: u32)
    requires
        ring(f),
    ensures
        times(f, a, b) == times(f, b, a),
        plus(f, a, b) == plus(f, b, a),
{
    reveal(ring);
}

proof fn regroup(f: Ops, a: u32, b: u32, c: u32)
    requires
        ring(f),
    ensures
        times(f, times(f, a, b), c) == times(f, a, times(f, b, c)),
        plus(f, plus(f, a, b), c) == plus(f, a, plus(f, b, c)),
{
    reveal(ring);
}

proof fn spread(f: Ops, a: u32, b: u32, c: u32)
    requires
        ring(f),
    ensures
        times(f, a, plus(f, b, c)) == plus(f, times(f, a, b), times(f, a, c)),
        times(f, plus(f, b, c), a) == plus(f, times(f, b, a), times(f, c, a)),
{
    reveal(ring);
    swap(f, a, plus(f, b, c));
    swap(f, a, b);
    swap(f, a, c);
}

proof fn zeros(f: Ops, a: u32)
    requires
        ring(f),
    ensures
        plus(f, 0, a) == a,
        times(f, a, 0) == 0,
        times(f, a, whole(f, 1)) == a,
        whole(f, 0) == 0,
{
    reveal(ring);
}

proof fn less(f: Ops, a: u32, b: u32)
    requires
        ring(f),
    ensures
        minus(f, a, b) == plus(f, a, times(f, whole(f, -1), b)),
{
    reveal(ring);
}

proof fn wholes(f: Ops, m: int, n: int)
    requires
        ring(f),
    ensures
        whole(f, m + n) == plus(f, whole(f, m), whole(f, n)),
        whole(f, m * n) == times(f, whole(f, m), whole(f, n)),
{
    reveal(ring);
}

/// `(a b)(c d) = (a c)(b d)`
proof fn crossed(f: Ops, a: u32, b: u32, c: u32, d: u32)
    requires
        ring(f),
    ensures
        times(f, times(f, a, b), times(f, c, d)) == times(f, times(f, a, c), times(f, b, d)),
{
    regroup(f, a, b, times(f, c, d));
    regroup(f, b, c, d);
    swap(f, b, c);
    regroup(f, c, b, d);
    regroup(f, a, c, times(f, b, d));
}

/// The sum of numbers, each times its activation.
pub open spec fn dot_sum(
    f: Ops,
    x: spec_fn(int) -> u32,
    scaling: u32,
    y: Seq<u8>,
    lo: int,
    hi: int,
) -> u32
    decreases hi - lo,
{
    if hi <= lo {
        0
    } else {
        plus(
            f,
            dot_sum(f, x, scaling, y, lo, hi - 1),
            times(f, x(hi - 1), times(f, scaling, whole(f, signed(y[4 + hi - 1])))),
        )
    }
}

/// The sum of whole numbers, each times its activation code.
pub open spec fn int_sum(c: spec_fn(int) -> int, y: Seq<u8>, lo: int, hi: int) -> int
    decreases hi - lo,
{
    if hi <= lo {
        0
    } else {
        int_sum(c, y, lo, hi - 1) + c(hi - 1) * signed(y[4 + hi - 1])
    }
}

proof fn one_factor(
    f: Ops,
    x: spec_fn(int) -> u32,
    c: spec_fn(int) -> int,
    u: u32,
    ad: u32,
    y: Seq<u8>,
    lo: int,
    hi: int,
)
    requires
        ring(f),
        forall|j: int| lo <= j < hi ==> #[trigger] x(j) == times(f, u, whole(f, c(j))),
    ensures
        dot_sum(f, x, ad, y, lo, hi) == times(f, times(f, u, ad), whole(f, int_sum(c, y, lo, hi))),
    decreases hi - lo,
{
    let big = times(f, u, ad);
    zeros(f, big);
    if hi > lo {
        one_factor(f, x, c, u, ad, y, lo, hi - 1);
        let q = c(hi - 1);
        let s = signed(y[4 + hi - 1]);
        assert(x(hi - 1) == times(f, u, whole(f, q)));
        crossed(f, u, whole(f, q), ad, whole(f, s));
        let before = int_sum(c, y, lo, hi - 1);
        wholes(f, q, s);
        wholes(f, before, q * s);
        spread(f, big, whole(f, before), whole(f, q * s));
    }
}

proof fn added(
    f: Ops,
    x: spec_fn(int) -> u32,
    p: spec_fn(int) -> u32,
    q: spec_fn(int) -> u32,
    ad: u32,
    y: Seq<u8>,
    lo: int,
    hi: int,
)
    requires
        ring(f),
        forall|j: int| lo <= j < hi ==> #[trigger] x(j) == plus(f, p(j), q(j)),
    ensures
        dot_sum(f, x, ad, y, lo, hi) == plus(
            f,
            dot_sum(f, p, ad, y, lo, hi),
            dot_sum(f, q, ad, y, lo, hi),
        ),
    decreases hi - lo,
{
    zeros(f, 0);
    if hi > lo {
        added(f, x, p, q, ad, y, lo, hi - 1);
        let w = times(f, ad, whole(f, signed(y[4 + hi - 1])));
        let a = dot_sum(f, p, ad, y, lo, hi - 1);
        let b = dot_sum(f, q, ad, y, lo, hi - 1);
        let c = times(f, p(hi - 1), w);
        let d = times(f, q(hi - 1), w);
        assert(x(hi - 1) == plus(f, p(hi - 1), q(hi - 1)));
        spread(f, w, p(hi - 1), q(hi - 1));
        // (a + b) + (c + d) = (a + c) + (b + d)
        regroup(f, a, b, plus(f, c, d));
        regroup(f, b, c, d);
        swap(f, b, c);
        regroup(f, c, b, d);
        regroup(f, a, c, plus(f, b, d));
    }
}

proof fn parted(f: Ops, x: spec_fn(int) -> u32, ad: u32, y: Seq<u8>, lo: int, mid: int, hi: int)
    requires
        ring(f),
        lo <= mid <= hi,
    ensures
        dot_sum(f, x, ad, y, lo, hi) == plus(
            f,
            dot_sum(f, x, ad, y, lo, mid),
            dot_sum(f, x, ad, y, mid, hi),
        ),
    decreases hi - mid,
{
    let a = dot_sum(f, x, ad, y, lo, mid);
    if hi > mid {
        parted(f, x, ad, y, lo, mid, hi - 1);
        let w = times(f, x(hi - 1), times(f, ad, whole(f, signed(y[4 + hi - 1]))));
        regroup(f, a, dot_sum(f, x, ad, y, mid, hi - 1), w);
    } else {
        zeros(f, a);
        swap(f, 0, a);
    }
}

proof fn codes_sum(t: DType, b: Seq<u8>, y: Seq<u8>, k: int, lo: int, hi: int)
    ensures
        code_dot(t, b, y, k, lo, hi) == int_sum(|j: int| code(t, b, 32 * k + j), y, lo, hi),
        shifted_dot(t, b, y, k, lo, hi) == int_sum(
            |j: int| code(t, b, 32 * k + j) - offset(t),
            y,
            lo,
            hi,
        ),
        act_sum(y, lo, hi) == int_sum(|j: int| 1int, y, lo, hi),
    decreases hi - lo,
{
    if hi > lo {
        codes_sum(t, b, y, k, lo, hi - 1);
        assert(32 * k + (hi - 1) == 32 * k + hi - 1);
        let one = |j: int| 1int;
        let v = one(hi - 1);
        let s = signed(y[4 + hi - 1]);
        assert(v * s == s) by (nonlinear_arith)
            requires
                v == 1,
        ;
    }
}

/// What a block adds to a dot is the sum of the numbers that it stands for, each times its
/// activation: the scale of the activation block times the code. The offset and the minimum of a
/// block come in through the stored sum of the activation, which is to be exact.
pub proof fn a_dot_is_that_of_the_decoded_numbers(
    f: Ops,
    t: DType,
    b: Seq<u8>,
    y: Seq<u8>,
    k: int,
    acc: u32,
)
    requires
        ring(f),
        shape(t) != Shape::Whole,
        0 <= k,
        EIGHT == whole(f, 8),
        SIXTEEN == whole(f, 16),
        half(f, le16_at(y, 2)) == times(f, half(f, le16_at(y, 0)), whole(f, act_sum(y, 0, 32))),
    ensures
        with_part(f, t, b, y, k, acc) == plus(
            f,
            acc,
            dot_sum(
                f,
                |j: int| block_value(f, t, b, 32 * k + j),
                half(f, le16_at(y, 0)),
                y,
                0,
                32,
            ),
        ),
{
    let x = |j: int| block_value(f, t, b, 32 * k + j);
    let d = base(f, t, b);
    let m = second(f, t, b);
    let ad = half(f, le16_at(y, 0));
    let asum = half(f, le16_at(y, 2));
    let n = whole(f, -1);
    let one = |j: int| 1int;
    let c = |j: int| code(t, b, 32 * k + j);
    codes_sum(t, b, y, k, 0, 32);
    match shape(t) {
        Shape::LessEight => {
            offset_dot(f, t, b, y, k, 8, EIGHT);
            regroup(f, d, ad, whole(f, code_dot(t, b, y, k, 0, 32)));
        },
        Shape::LessSixteen => {
            offset_dot(f, t, b, y, k, 16, SIXTEEN);
        },
        Shape::Bare => {
            assert forall|j: int| 0 <= j < 32 implies #[trigger] x(j) == times(
                f,
                d,
                whole(f, c(j)),
            ) by {
                swap(f, whole(f, c(j)), d);
            }
            one_factor(f, x, c, d, ad, y, 0, 32);
        },
        Shape::PlusMin => {
            let p = |j: int| times(f, d, whole(f, c(j)));
            let q = |j: int| m;
            assert forall|j: int| 0 <= j < 32 implies #[trigger] x(j) == plus(f, p(j), q(j)) by {
                swap(f, whole(f, c(j)), d);
            }
            added(f, x, p, q, ad, y, 0, 32);
            one_factor(f, p, c, d, ad, y, 0, 32);
            zeros(f, m);
            one_factor(f, q, one, m, ad, y, 0, 32);
            regroup(f, m, ad, whole(f, act_sum(y, 0, 32)));
        },
        Shape::OneScale => {
            let u = times(f, d, whole(f, scale(t, b, k)));
            assert forall|j: int| 0 <= j < 32 implies #[trigger] x(j) == times(
                f,
                u,
                whole(f, c(j)),
            ) by {
                assert((32 * k + j) / 32 == k);
            }
            one_factor(f, x, c, u, ad, y, 0, 32);
        },
        Shape::OneMin => {
            let u = times(f, d, whole(f, scale(t, b, k)));
            let mm = times(f, m, whole(f, minimum(t, b, k)));
            assert forall|j: int| 0 <= j < 32 implies #[trigger] x(j) == minus(
                f,
                times(f, u, whole(f, c(j))),
                mm,
            ) by {
                assert((32 * k + j) / 32 == k);
            }
            group_dot(f, x, c, u, mm, ad, y, 0, 32);
            regroup(f, mm, ad, whole(f, act_sum(y, 0, 32)));
        },
        Shape::TwoScales => {
            parted(f, x, ad, y, 0, 16, 32);
            codes_sum(t, b, y, k, 0, 16);
            codes_sum(t, b, y, k, 16, 32);
            let s0 = whole(f, scale(t, b, 2 * k));
            let s1 = whole(f, scale(t, b, 2 * k + 1));
            let u0 = times(f, d, s0);
            let u1 = times(f, d, s1);
            assert forall|j: int| 0 <= j < 16 implies #[trigger] x(j) == times(
                f,
                u0,
                whole(f, c(j)),
            ) by {
                assert((32 * k + j) / 16 == 2 * k);
            }
            assert forall|j: int| 16 <= j < 32 implies #[trigger] x(j) == times(
                f,
                u1,
                whole(f, c(j)),
            ) by {
                assert((32 * k + j) / 16 == 2 * k + 1);
            }
            one_factor(f, x, c, u0, ad, y, 0, 16);
            one_factor(f, x, c, u1, ad, y, 16, 32);
            let w0 = whole(f, code_dot(t, b, y, k, 0, 16));
            let w1 = whole(f, code_dot(t, b, y, k, 16, 32));
            spread(f, times(f, ad, d), times(f, s0, w0), times(f, s1, w1));
            // (ad d)(s w) = ((d s) ad) w
            shuffled(f, ad, d, s0, w0);
            shuffled(f, ad, d, s1, w1);
        },
        Shape::TwoMins => {
            parted(f, x, ad, y, 0, 16, 32);
            two_mins(f, t, b, y, k, 0, acc);
            two_mins(f, t, b, y, k, 1, with_group(f, t, b, y, k, 0, acc));
            regroup(f, acc, dot_sum(f, x, ad, y, 0, 16), dot_sum(f, x, ad, y, 16, 32));
        },
        Shape::Whole => {},
    }
}

/// `(a d)(s w) = ((d s) a) w`
proof fn shuffled(f: Ops, a: u32, d: u32, s: u32, w: u32)
    requires
        ring(f),
    ensures
        times(f, times(f, a, d), times(f, s, w)) == times(f, times(f, times(f, d, s), a), w),
{
    regroup(f, a, d, times(f, s, w));
    regroup(f, d, s, w);
    regroup(f, a, times(f, d, s), w);
    swap(f, a, times(f, d, s));
}

proof fn group_dot(
    f: Ops,
    x: spec_fn(int) -> u32,
    c: spec_fn(int) -> int,
    u: u32,
    mm: u32,
    ad: u32,
    y: Seq<u8>,
    lo: int,
    hi: int,
)
    requires
        ring(f),
        forall|j: int|
            lo <= j < hi ==> #[trigger] x(j) == minus(f, times(f, u, whole(f, c(j))), mm),
    ensures
        dot_sum(f, x, ad, y, lo, hi) == minus(
            f,
            times(f, times(f, u, ad), whole(f, int_sum(c, y, lo, hi))),
            times(f, times(f, mm, ad), whole(f, int_sum(|j: int| 1int, y, lo, hi))),
        ),
{
    let n = whole(f, -1);
    let one = |j: int| 1int;
    let p = |j: int| times(f, u, whole(f, c(j)));
    let low = times(f, n, mm);
    let q = |j: int| low;
    assert forall|j: int| lo <= j < hi implies #[trigger] x(j) == plus(f, p(j), q(j)) by {
        less(f, times(f, u, whole(f, c(j))), mm);
    }
    added(f, x, p, q, ad, y, lo, hi);
    one_factor(f, p, c, u, ad, y, lo, hi);
    zeros(f, low);
    one_factor(f, q, one, low, ad, y, lo, hi);
    let all = whole(f, int_sum(one, y, lo, hi));
    // ((n mm) ad) all = n ((mm ad) all)
    regroup(f, n, mm, ad);
    regroup(f, n, times(f, mm, ad), all);
    less(
        f,
        times(f, times(f, u, ad), whole(f, int_sum(c, y, lo, hi))),
        times(f, times(f, mm, ad), all),
    );
}

proof fn two_mins(f: Ops, t: DType, b: Seq<u8>, y: Seq<u8>, k: int, g: int, acc: u32)
    requires
        ring(f),
        shape(t) == Shape::TwoMins,
        0 <= k,
        g == 0 || g == 1,
    ensures
        with_group(f, t, b, y, k, g, acc) == plus(
            f,
            acc,
            dot_sum(
                f,
                |j: int| block_value(f, t, b, 32 * k + j),
                half(f, le16_at(y, 0)),
                y,
                16 * g,
                16 * g + 16,
            ),
        ),
{
    let x = |j: int| block_value(f, t, b, 32 * k + j);
    let c = |j: int| code(t, b, 32 * k + j);
    let ad = half(f, le16_at(y, 0));
    let u = times(f, base(f, t, b), whole(f, scale(t, b, 2 * k + g)));
    let mm = times(f, second(f, t, b), whole(f, minimum(t, b, 2 * k + g)));
    assert forall|j: int| 16 * g <= j < 16 * g + 16 implies #[trigger] x(j) == minus(
        f,
        times(f, u, whole(f, c(j))),
        mm,
    ) by {
        assert((32 * k + j) / 16 == 2 * k + g);
    }
    group_dot(f, x, c, u, mm, ad, y, 16 * g, 16 * g + 16);
    codes_sum(t, b, y, k, 16 * g, 16 * g + 16);
    let w = whole(f, code_dot(t, b, y, k, 16 * g, 16 * g + 16));
    let s = whole(f, act_sum(y, 16 * g, 16 * g + 16));
    let n = whole(f, -1);
    // ad (u w - mm s) = (u ad) w - (mm ad) s
    less(f, times(f, u, w), times(f, mm, s));
    spread(f, ad, times(f, u, w), times(f, n, times(f, mm, s)));
    regroup(f, ad, u, w);
    swap(f, ad, u);
    regroup(f, ad, n, times(f, mm, s));
    swap(f, ad, n);
    regroup(f, n, ad, times(f, mm, s));
    regroup(f, ad, mm, s);
    swap(f, ad, mm);
    less(f, times(f, times(f, u, ad), w), times(f, times(f, mm, ad), s));
}

proof fn offset_dot(f: Ops, t: DType, b: Seq<u8>, y: Seq<u8>, k: int, o: int, mark: u32)
    requires
        ring(f),
        form(t) == Form::Times,
        offset(t) == o,
        mark == whole(f, o),
        half(f, le16_at(y, 2)) == times(f, half(f, le16_at(y, 0)), whole(f, act_sum(y, 0, 32))),
    ensures
        ({
            let d = base(f, t, b);
            let ad = half(f, le16_at(y, 0));
            dot_sum(f, |j: int| block_value(f, t, b, 32 * k + j), ad, y, 0, 32) == minus(
                f,
                times(f, times(f, d, ad), whole(f, code_dot(t, b, y, k, 0, 32))),
                times(f, times(f, mark, d), half(f, le16_at(y, 2))),
            )
        }),
{
    let d = base(f, t, b);
    let ad = half(f, le16_at(y, 0));
    let x = |j: int| block_value(f, t, b, 32 * k + j);
    let c = |j: int| code(t, b, 32 * k + j) - offset(t);
    assert forall|j: int| 0 <= j < 32 implies #[trigger] x(j) == times(f, d, whole(f, c(j))) by {
        swap(f, whole(f, c(j)), d);
    }
    one_factor(f, x, c, d, ad, y, 0, 32);
    codes_sum(t, b, y, k, 0, 32);
    offset_folds_into_the_sum(t, b, y, k, 0, 32);
    let all = code_dot(t, b, y, k, 0, 32);
    let s = act_sum(y, 0, 32);
    let u = times(f, d, ad);
    let n = whole(f, -1);
    assert(shifted_dot(t, b, y, k, 0, 32) == all + (-1) * (o * s)) by {
        assert((-1) * (o * s) == -(o * s)) by (nonlinear_arith);
    }
    wholes(f, all, (-1) * (o * s));
    wholes(f, -1, o * s);
    wholes(f, o, s);
    let os = times(f, mark, whole(f, s));
    spread(f, u, whole(f, all), times(f, n, os));
    // (d ad)(n (mark s)) = n ((mark d)(ad s))
    regroup(f, u, n, os);
    swap(f, u, n);
    regroup(f, n, u, os);
    crossed(f, d, ad, mark, whole(f, s));
    swap(f, d, mark);
    less(f, times(f, u, whole(f, all)), times(f, times(f, mark, d), times(f, ad, whole(f, s))));
}

/// Whether an activation block holds the sum that its codes and its scale make.
pub open spec fn sum_is_exact(f: Ops, y: Seq<u8>) -> bool {
    half(f, le16_at(y, 2)) == times(f, half(f, le16_at(y, 0)), whole(f, act_sum(y, 0, 32)))
}

/// The sum over the first `n` parts of a block of the numbers that it stands for, each times its
/// activation.
pub open spec fn block_sum(f: Ops, t: DType, b: Seq<u8>, a: Seq<u8>, at: int, n: nat) -> u32
    decreases n,
{
    if n == 0 {
        0
    } else {
        let y = act(a, at + n - 1);
        plus(
            f,
            block_sum(f, t, b, a, at, (n - 1) as nat),
            dot_sum(
                f,
                |j: int| block_value(f, t, b, 32 * (n - 1) + j),
                half(f, le16_at(y, 0)),
                y,
                0,
                32,
            ),
        )
    }
}

/// Every block of a row adds the dot of the numbers it stands for with the activations that lie
/// beside it: those of block `n` with the activations of as many blocks as it spans, from the
/// `n`-fold of that on.
pub proof fn a_row_adds_block_by_block(f: Ops, t: DType, w: Seq<u8>, a: Seq<u8>, n: nat)
    requires
        ring(f),
        EIGHT == whole(f, 8),
        SIXTEEN == whole(f, 16),
        forall|i: int|
            n * parts(t) <= i < (n + 1) * parts(t) ==> sum_is_exact(f, #[trigger] act(a, i)),
    ensures
        row_dot(f, t, w, a, 0) == 0,
        row_dot(f, t, w, a, n + 1) == plus(
            f,
            row_dot(f, t, w, a, n),
            block_sum(
                f,
                t,
                w.subrange(
                    (n * t.block_bytes()) as int,
                    (n * t.block_bytes() + t.block_bytes()) as int,
                ),
                a,
                (n * parts(t)) as int,
                parts(t),
            ),
        ),
{
    let ts = t.block_bytes() as int;
    let b = w.subrange(n * ts, n * ts + ts);
    let at = n * parts(t);
    assert((n + 1) * parts(t) == at + parts(t)) by (nonlinear_arith)
        requires
            at == n * parts(t),
    ;
    if shape(t) == Shape::Whole {
        whole_parts_sum(f, t, b, a, at as int, parts(t));
    } else {
        parts_sum(f, t, b, a, at as int, parts(t), row_dot(f, t, w, a, n));
    }
}

proof fn parts_sum(f: Ops, t: DType, b: Seq<u8>, a: Seq<u8>, at: int, n: nat, acc: u32)
    requires
        ring(f),
        shape(t) != Shape::Whole,
        EIGHT == whole(f, 8),
        SIXTEEN == whole(f, 16),
        forall|i: int| at <= i < at + n ==> sum_is_exact(f, #[trigger] act(a, i)),
    ensures
        with_parts(f, t, b, a, at, n, acc) == plus(f, acc, block_sum(f, t, b, a, at, n)),
    decreases n,
{
    if n > 0 {
        parts_sum(f, t, b, a, at, (n - 1) as nat, acc);
        let y = act(a, at + n - 1);
        assert(sum_is_exact(f, y));
        let before = with_parts(f, t, b, a, at, (n - 1) as nat, acc);
        a_dot_is_that_of_the_decoded_numbers(f, t, b, y, n - 1, before);
        let x = |j: int| block_value(f, t, b, 32 * (n - 1) + j);
        regroup(
            f,
            acc,
            block_sum(f, t, b, a, at, (n - 1) as nat),
            dot_sum(f, x, half(f, le16_at(y, 0)), y, 0, 32),
        );
    } else {
        zeros(f, acc);
        swap(f, 0, acc);
    }
}

proof fn whole_parts_sum(f: Ops, t: DType, b: Seq<u8>, a: Seq<u8>, at: int, n: nat)
    requires
        ring(f),
        shape(t) == Shape::Whole,
    ensures
        times(f, base(f, t, b), with_parts(f, t, b, a, at, n, 0)) == block_sum(f, t, b, a, at, n),
    decreases n,
{
    let d = base(f, t, b);
    zeros(f, d);
    if n > 0 {
        whole_parts_sum(f, t, b, a, at, (n - 1) as nat);
        let k = n - 1;
        let y = act(a, at + n - 1);
        let ad = half(f, le16_at(y, 0));
        let x = |j: int| block_value(f, t, b, 32 * k + j);
        let c = |j: int| code(t, b, 32 * k + j);
        assert forall|j: int| 0 <= j < 32 implies #[trigger] x(j) == times(f, d, whole(f, c(j))) by {
            swap(f, whole(f, c(j)), d);
        }
        one_factor(f, x, c, d, ad, y, 0, 32);
        codes_sum(t, b, y, k, 0, 32);
        let all = whole(f, code_dot(t, b, y, k, 0, 32));
        let before = with_parts(f, t, b, a, at, (n - 1) as nat, 0);
        spread(f, d, before, times(f, ad, all));
        regroup(f, d, ad, all);
    }
}

} // verus!
