//! What rotation, attention and projections are for, as relations between what goes in and what
//! comes out.

use vstd::prelude::*;

use super::attention::{
    attended, cached, first_seen, folded, head_of, last_seen, place, score, sunk, AttnBits, Cached,
};
use super::laws::{summed, zero_is_nothing};
use super::matmul::{dense_token_of, embedding_of, embeddings_of, matmul_of, matmul_token_of};
use super::ops::{capped, largest, total, TINY};
use super::rope::{angle, pair, pairs, ramp, rotary, rotated, roped, RopeBits};
use crate::backend::RopeKind;
use crate::dtype::QuantView;
use crate::quant::dequant::element;
use crate::single::{
    count, equal, half, larger, less, minus, of, over, plus, times, whole, FloatOp, Ops, UNIT,
};

verus! {

// ------------------------------------------------------------------------------- rotation

/// The two places of a head that pair `k` turns: neighbours, or half of what is turned apart.
pub open spec fn turned_places(c: RopeBits, k: int) -> (int, int) {
    if c.kind == RopeKind::Norm {
        (2 * k, 2 * k + 1)
    } else {
        (k, k + rotary(c) as int / 2)
    }
}

/// Every pair is turned by its own angle, and by nothing else: the first of the two becomes its
/// cosine share less the sine share of the second, the second the sine share of the first and its
/// own cosine share.
pub proof fn a_pair_is_turned_by_its_angle(
    f: Ops,
    c: RopeBits,
    head: Seq<u32>,
    pos: u32,
    factors: Option<Seq<u32>>,
    k: int,
)
    requires
        head.len() == c.head_dim,
        c.kind != RopeKind::NoRope,
        rotary(c) % 2 == 0,
        equal(c.ext_factor, 0),
        0 <= k < rotary(c) / 2,
    ensures
        ({
            let (a, b) = turned_places(c, k);
            let n = count(f, rotary(c) as u32);
            let power = over(f, times(f, 0xc000_0000, count(f, k as u32)), n);
            let factor = match factors {
                Some(s) => if k < s.len() {
                    s[k]
                } else {
                    UNIT
                },
                None => UNIT,
            };
            let theta = times(
                f,
                c.freq_scale,
                over(f, times(f, pos, f(FloatOp::Pow, c.freq_base, power)), factor),
            );
            let sin = times(f, of(f, FloatOp::Sin, theta), c.attn_factor);
            let cos = times(f, of(f, FloatOp::Cos, theta), c.attn_factor);
            let r = rotated(f, c, head, pos, factors, pairs(c));
            &&& r.len() == head.len()
            &&& r[a] == minus(f, times(f, head[a], cos), times(f, head[b], sin))
            &&& r[b] == plus(f, times(f, head[a], sin), times(f, head[b], cos))
        }),
{
    turned_once(f, c, head, pos, factors, pairs(c), k);
}

proof fn turned_once(
    f: Ops,
    c: RopeBits,
    head: Seq<u32>,
    pos: u32,
    factors: Option<Seq<u32>>,
    n: nat,
    k: int,
)
    requires
        head.len() == c.head_dim,
        c.kind != RopeKind::NoRope,
        rotary(c) % 2 == 0,
        n <= pairs(c),
        0 <= k < rotary(c) / 2,
    ensures
        ({
            let (a, b) = turned_places(c, k);
            let theta = angle(
                f,
                c,
                pos,
                super::rope::factor_of(factors, k),
                k as u32,
                rotary(c) as u32,
            );
            let scale = super::rope::magnitude_scale(f, c);
            let sin = times(f, of(f, FloatOp::Sin, theta), scale);
            let cos = times(f, of(f, FloatOp::Cos, theta), scale);
            let r = rotated(f, c, head, pos, factors, n);
            &&& r.len() == head.len()
            &&& k < n ==> r[a] == minus(f, times(f, head[a], cos), times(f, head[b], sin)) && r[b]
                == plus(f, times(f, head[a], sin), times(f, head[b], cos))
            &&& k >= n ==> r[a] == head[a] && r[b] == head[b]
        }),
    decreases n,
{
    if n > 0 {
        turned_once(f, c, head, pos, factors, (n - 1) as nat, k);
        turned_once(f, c, head, pos, factors, (n - 1) as nat, n - 1);
        let (a, b) = turned_places(c, k);
        let (x, y) = pair(c.kind, n - 1, rotary(c) as int);
        assert((x, y) == turned_places(c, n - 1));
        if k != n - 1 {
            assert(a != x && a != y && b != x && b != y);
        }
    }
}

/// At an angle whose sine is zero and whose cosine is one, a head stays as it is.
pub proof fn no_angle_turns_nothing(
    f: Ops,
    c: RopeBits,
    head: Seq<u32>,
    pos: u32,
    factors: Option<Seq<u32>>,
    k: int,
)
    requires
        head.len() == c.head_dim,
        c.kind != RopeKind::NoRope,
        rotary(c) % 2 == 0,
        equal(c.ext_factor, 0),
        c.attn_factor == UNIT,
        0 <= k < rotary(c) / 2,
        zero_is_nothing(f),
        forall|a: u32| #[trigger] times(f, a, UNIT) == a,
        forall|a: u32| #[trigger] minus(f, a, 0) == a,
        forall|a: u32| #[trigger] of(f, FloatOp::Sin, a) == 0,
        forall|a: u32| #[trigger] of(f, FloatOp::Cos, a) == UNIT,
    ensures
        ({
            let (a, b) = turned_places(c, k);
            let r = rotated(f, c, head, pos, factors, pairs(c));
            r[a] == head[a] && r[b] == head[b]
        }),
{
    a_pair_is_turned_by_its_angle(f, c, head, pos, factors, k);
}

/// Without a rotation a head stays as it is.
pub proof fn no_rotation_leaves_a_head(
    f: Ops,
    c: RopeBits,
    head: Seq<u32>,
    pos: u32,
    factors: Option<Seq<u32>>,
)
    requires
        c.kind == RopeKind::NoRope,
    ensures
        rotated(f, c, head, pos, factors, pairs(c)) == head,
{
}

/// An extended rotation lies between the stretched angle and the plain one: where nothing is mixed
/// in it is the stretched one, where all is, the plain one.
pub proof fn an_extension_mixes_two_angles(
    f: Ops,
    c: RopeBits,
    pos: u32,
    factor: u32,
    k: u32,
    n: u32,
)
    requires
        !equal(c.ext_factor, 0),
        zero_is_nothing(f),
        minus(f, UNIT, 0) == UNIT,
        minus(f, UNIT, UNIT) == 0,
        forall|a: u32| #[trigger] times(f, a, UNIT) == a,
    ensures
        ({
            let power = over(f, times(f, 0xc000_0000, count(f, k)), count(f, n));
            let plain = over(f, times(f, pos, f(FloatOp::Pow, c.freq_base, power)), factor);
            let (low, high) = super::rope::corr_range(f, c);
            let mix = times(f, ramp(f, low, high, k), c.ext_factor);
            &&& mix == 0 ==> angle(f, c, pos, factor, k, n) == times(f, c.freq_scale, plain)
            &&& mix == UNIT ==> angle(f, c, pos, factor, k, n) == plain
        }),
{
}

/// The share that is mixed in is all below the lower bound, and nothing above the upper one.
pub proof fn a_ramp_falls_from_all_to_nothing(f: Ops, low: u32, high: u32, k: u32)
    ensures
        ({
            let y = over(
                f,
                minus(f, count(f, k), low),
                larger(minus(f, high, low), 0x3a83_126f),
            );
            &&& less(y, 0) ==> ramp(f, low, high, k) == minus(f, UNIT, 0)
            &&& less(UNIT, y) ==> ramp(f, low, high, k) == minus(f, UNIT, UNIT)
            &&& less(0, y) && less(y, UNIT) ==> ramp(f, low, high, k) == minus(f, UNIT, y)
        }),
{
}

/// Heads do not meet: head `j` is turned by itself, at the position of its own token.
pub proof fn heads_are_turned_one_by_one(
    f: Ops,
    c: RopeBits,
    x: Seq<u32>,
    positions: Seq<i32>,
    n_heads: int,
    factors: Option<Seq<u32>>,
    n: nat,
    j: int,
)
    requires
        0 <= j < n,
        n * c.head_dim <= x.len(),
        n_heads > 0,
        rotary(c) % 2 == 0,
    ensures
        roped(f, c, x, positions, n_heads, factors, n).len() == n * c.head_dim,
        j / n_heads < positions.len() ==> roped(
            f,
            c,
            x,
            positions,
            n_heads,
            factors,
            n,
        ).subrange(j * c.head_dim, (j + 1) * c.head_dim) == rotated(
            f,
            c,
            x.subrange(j * c.head_dim, (j + 1) * c.head_dim),
            whole(f, positions[j / n_heads] as int),
            factors,
            pairs(c),
        ),
    decreases n,
{
    let d = c.head_dim as int;
    assert((n - 1) * d + d == n * d && 0 <= (n - 1) * d) by (nonlinear_arith)
        requires
            n >= 1,
            d >= 0,
    ;
    let all = roped(f, c, x, positions, n_heads, factors, n);
    let last = x.subrange((n - 1) * d, n * d);
    let at = whole(f, super::rope::position(positions, (n - 1) / n_heads));
    let tail = rotated(f, c, last, at, factors, pairs(c));
    assert(tail.len() == d) by {
        if c.kind != RopeKind::NoRope && rotary(c) >= 2 {
            turned_once(f, c, last, at, factors, pairs(c), 0);
        } else {
            assert(pairs(c) == 0);
        }
    }
    assert(0 <= j / n_heads) by (nonlinear_arith)
        requires
            0 <= j,
            n_heads > 0,
    ;
    if n == 1 {
        assert(j * d == 0 && (j + 1) * d == d && 0 * d == 0) by (nonlinear_arith)
            requires
                j == 0,
        ;
        assert(roped(f, c, x, positions, n_heads, factors, 0).len() == 0);
        assert(all =~= tail);
        assert(all.subrange(0, d) =~= tail);
    } else if j == n - 1 {
        heads_are_turned_one_by_one(f, c, x, positions, n_heads, factors, (n - 1) as nat, 0);
        assert(all.subrange(j * d, (j + 1) * d) =~= tail);
    } else {
        heads_are_turned_one_by_one(f, c, x, positions, n_heads, factors, (n - 1) as nat, j);
        assert(0 <= j * d <= (j + 1) * d <= (n - 1) * d) by (nonlinear_arith)
            requires
                0 <= j < n - 1,
                d >= 0,
        ;
        assert(all.subrange(j * d, (j + 1) * d) =~= roped(
            f,
            c,
            x,
            positions,
            n_heads,
            factors,
            (n - 1) as nat,
        ).subrange(j * d, (j + 1) * d));
    }
}

// ------------------------------------------------------------------------------ attention

/// Everything that lies in the window and not after the token is seen.
pub proof fn all_that_is_in_the_window_is_seen(c: AttnBits, t: int, p: int)
    requires
        0 <= t,
        0 <= p <= c.start_pos + t,
        p < c.kv_len,
        c.window > 0 ==> c.start_pos + t - p < c.window,
    ensures
        first_seen(c, t) <= p < last_seen(c, t),
{
}

/// Two halves lie in a word, the first one low.
pub proof fn halves_lie_in_a_word(f: Ops, kv: Cached, j: int, a: u16, b: u16)
    requires
        0 <= j < kv.words.len(),
        kv.words[j] as int == a + 0x1_0000 * b,
    ensures
        kv.is_half ==> cached(f, kv, 2 * j) == half(f, a) && cached(f, kv, 2 * j + 1) == half(f, b),
        !kv.is_half ==> cached(f, kv, j) == kv.words[j],
{
}

/// Query heads share the keys of a group: those of one group read the same ones, the next group
/// the next ones, and the next position those a stride further on.
pub proof fn groups_of_heads_share_keys(c: AttnBits, share: int, g: int, i: int, p: int)
    requires
        c.n_kv_heads > 0,
        share > 0,
        c.n_heads == share * c.n_kv_heads,
        0 <= g,
        0 <= i < share,
    ensures
        place(c, g * share + i, p) == place(c, g * share, p),
        place(c, (g + 1) * share, p) == place(c, g * share, p) + c.head_dim,
        place(c, g * share + i, p + 1) == place(c, g * share + i, p) + c.stride,
        place(c, 0, 0) == c.base * c.stride,
{
    let kv = c.n_kv_heads as int;
    assert(share * kv / kv == share) by (nonlinear_arith)
        requires
            kv > 0,
    ;
    assert(c.n_heads as int / kv == share);
    assert(super::attention::sharing(c) == share);
    assert((g * share + i) / share == g && (g * share) / share == g && ((g + 1) * share) / share == g
        + 1) by (nonlinear_arith)
        requires
            share > 0,
            0 <= i < share,
            0 <= g,
    ;
    assert((g + 1) * c.head_dim == g * c.head_dim + c.head_dim) by (nonlinear_arith);
    assert((c.base + (p + 1)) * c.stride == (c.base + p) * c.stride + c.stride)
        by (nonlinear_arith);
    assert(0int / share == 0) by (nonlinear_arith)
        requires
            share > 0,
    ;
    assert(0 * c.head_dim == 0);
    assert((c.base + 0) * c.stride == c.base * c.stride);
}

/// A score is the dot of the query with the key, scaled, and capped where there is a cap.
pub proof fn a_score_is_a_scaled_dot(f: Ops, c: AttnBits, q: Seq<u32>, k: Cached, off: int)
    ensures
        ({
            let dot = summed(f, Seq::new(q.len(), |i: int| times(f, q[i], cached(f, k, off + i))));
            score(f, c, q, k, off) == if less(0, c.softcap) {
                capped(f, times(f, dot, c.scale), c.softcap)
            } else {
                times(f, dot, c.scale)
            }
        }),
{
    let s = super::attention::products(f, q, k, off);
    assert(s =~= Seq::new(q.len(), |i: int| times(f, q[i], cached(f, k, off + i))));
    sum_of(f, s, s.len());
    assert(s.take(s.len() as int) =~= s);
}

proof fn sum_of(f: Ops, l: Seq<u32>, n: nat)
    requires
        n <= l.len(),
    ensures
        total(f, l, n) == summed(f, l.take(n as int)),
    decreases n,
{
    if n > 0 {
        sum_of(f, l, (n - 1) as nat);
        assert(l.take(n as int).drop_last() =~= l.take(n - 1));
    }
}

/// Whether factors can be taken out of sums and moved, and exponentials of differences chain.
pub open spec fn chains(f: Ops) -> bool {
    &&& forall|a: u32, b: u32, c: u32|
        #[trigger] times(f, plus(f, a, b), c) == plus(f, times(f, a, c), times(f, b, c))
    &&& forall|a: u32, b: u32, c: u32|
        #[trigger] times(f, times(f, a, b), c) == times(f, times(f, a, c), b)
    &&& forall|a: u32, m: u32, n: u32|
        times(
            f,
            #[trigger] of(f, FloatOp::Exp, minus(f, a, m)),
            #[trigger] of(f, FloatOp::Exp, minus(f, m, n)),
        ) == of(f, FloatOp::Exp, minus(f, a, n))
}

/// The scores of the positions from `lo` up to `hi`.
pub open spec fn scores(
    f: Ops,
    c: AttnBits,
    q: Seq<u32>,
    k: Cached,
    h: int,
    lo: int,
    hi: int,
) -> Seq<u32> {
    Seq::new((hi - lo) as nat, |j: int| score(f, c, q, k, place(c, h, lo + j)))
}

/// What the scores weigh, next to a mark.
pub open spec fn weights(f: Ops, s: Seq<u32>, mark: u32) -> Seq<u32> {
    Seq::new(s.len(), |j: int| of(f, FloatOp::Exp, minus(f, s[j], mark)))
}

/// The values at one place of the head, each times what its position weighs.
pub open spec fn weighed_values(
    f: Ops,
    c: AttnBits,
    v: Cached,
    h: int,
    lo: int,
    by: Seq<u32>,
    i: int,
) -> Seq<u32> {
    Seq::new(by.len(), |j: int| times(f, by[j], cached(f, v, place(c, h, lo + j) + i)))
}

/// Attention is the mean of the values that are seen, each weighed by the exponential of its
/// score, next to the largest of them.
pub proof fn attention_is_a_weighed_mean(
    f: Ops,
    c: AttnBits,
    q: Seq<u32>,
    k: Cached,
    v: Cached,
    t: int,
    h: int,
    i: int,
)
    requires
        chains(f),
        zero_is_nothing(f),
        0 <= i < q.len(),
        first_seen(c, t) <= last_seen(c, t),
    ensures
        ({
            let lo = first_seen(c, t);
            let s = scores(f, c, q, k, h, lo, last_seen(c, t));
            let by = weights(f, s, largest(s, s.len()));
            &&& head_of(f, c, q, k, v, t, h, None).len() == q.len()
            &&& head_of(f, c, q, k, v, t, h, None)[i] == times(
                f,
                summed(f, weighed_values(f, c, v, h, lo, by, i)),
                over(f, UNIT, larger(summed(f, by), TINY)),
            )
        }),
{
    let lo = first_seen(c, t);
    folded_is_plain(f, c, q, k, v, h, lo, last_seen(c, t), i);
}

/// A sink takes its share of the weight, and adds no value.
pub proof fn a_sink_takes_weight_alone(
    f: Ops,
    c: AttnBits,
    q: Seq<u32>,
    k: Cached,
    v: Cached,
    t: int,
    h: int,
    sink: u32,
    i: int,
)
    requires
        chains(f),
        zero_is_nothing(f),
        forall|a: u32| #[trigger] times(f, a, UNIT) == a,
        0 <= i < q.len(),
        0 <= h,
        first_seen(c, t) <= last_seen(c, t),
    ensures
        ({
            let lo = first_seen(c, t);
            let s = scores(f, c, q, k, h, lo, last_seen(c, t));
            let mark = larger(largest(s, s.len()), sink);
            let by = weights(f, s, mark);
            let all = plus(f, summed(f, by), of(f, FloatOp::Exp, minus(f, sink, mark)));
            let sinks = Seq::new((h + 1) as nat, |j: int| sink);
            head_of(f, c, q, k, v, t, h, Some(sinks))[i] == times(
                f,
                summed(f, weighed_values(f, c, v, h, lo, by, i)),
                over(f, UNIT, larger(all, TINY)),
            )
        }),
{
    let lo = first_seen(c, t);
    let hi = last_seen(c, t);
    folded_is_plain(f, c, q, k, v, h, lo, hi, i);
    let s = scores(f, c, q, k, h, lo, hi);
    let m = largest(s, s.len());
    let mark = larger(m, sink);
    let alpha = of(f, FloatOp::Exp, minus(f, m, mark));
    let by = weights(f, s, m);
    rescaled(f, by, alpha);
    rescaled(f, weighed_values(f, c, v, h, lo, by, i), alpha);
    remarked(f, c, v, h, lo, s, m, mark, i);
    let a = folded(f, c, q, k, v, h, lo, hi);
    assert(equal(alpha, UNIT) ==> alpha == UNIT);
    assert(sunk(f, a, Some(sink)).out[i] == times(f, a.out[i], alpha));
}

proof fn rescaled(f: Ops, l: Seq<u32>, by: u32)
    requires
        chains(f),
        zero_is_nothing(f),
    ensures
        times(f, summed(f, l), by) == summed(f, Seq::new(l.len(), |j: int| times(f, l[j], by))),
    decreases l.len(),
{
    let r = Seq::new(l.len(), |j: int| times(f, l[j], by));
    if l.len() > 0 {
        rescaled(f, l.drop_last(), by);
        assert(r.drop_last() =~= Seq::new(
            l.drop_last().len(),
            |j: int| times(f, l.drop_last()[j], by),
        ));
    }
}

proof fn remarked(
    f: Ops,
    c: AttnBits,
    v: Cached,
    h: int,
    lo: int,
    s: Seq<u32>,
    m: u32,
    n: u32,
    i: int,
)
    requires
        chains(f),
    ensures
        ({
            let alpha = of(f, FloatOp::Exp, minus(f, m, n));
            let by = weights(f, s, m);
            &&& Seq::new(s.len(), |j: int| times(f, by[j], alpha)) == weights(f, s, n)
            &&& Seq::new(
                s.len(),
                |j: int| times(f, weighed_values(f, c, v, h, lo, by, i)[j], alpha),
            ) == weighed_values(f, c, v, h, lo, weights(f, s, n), i)
        }),
{
    let alpha = of(f, FloatOp::Exp, minus(f, m, n));
    let by = weights(f, s, m);
    let to = weights(f, s, n);
    assert forall|j: int| 0 <= j < s.len() implies times(f, #[trigger] by[j], alpha) == to[j] by {
        assert(by[j] == of(f, FloatOp::Exp, minus(f, s[j], m)));
    }
    assert(Seq::new(s.len(), |j: int| times(f, by[j], alpha)) =~= to);
    let old_values = weighed_values(f, c, v, h, lo, by, i);
    let new_values = weighed_values(f, c, v, h, lo, to, i);
    assert forall|j: int| 0 <= j < s.len() implies times(f, #[trigger] old_values[j], alpha)
        == new_values[j] by {
        let x = cached(f, v, place(c, h, lo + j) + i);
        assert(times(f, times(f, by[j], x), alpha) == times(f, times(f, by[j], alpha), x));
    }
    assert(Seq::new(s.len(), |j: int| times(f, old_values[j], alpha)) =~= new_values);
}

proof fn folded_is_plain(
    f: Ops,
    c: AttnBits,
    q: Seq<u32>,
    k: Cached,
    v: Cached,
    h: int,
    lo: int,
    p: int,
    i: int,
)
    requires
        chains(f),
        zero_is_nothing(f),
        0 <= i < q.len(),
        lo <= p,
    ensures
        ({
            let s = scores(f, c, q, k, h, lo, p);
            let by = weights(f, s, largest(s, s.len()));
            let a = folded(f, c, q, k, v, h, lo, p);
            &&& a.m == largest(s, s.len())
            &&& a.l == summed(f, by)
            &&& a.out.len() == q.len()
            &&& a.out[i] == summed(f, weighed_values(f, c, v, h, lo, by, i))
        }),
    decreases p - lo,
{
    if p > lo {
        folded_is_plain(f, c, q, k, v, h, lo, p - 1, i);
        let s = scores(f, c, q, k, h, lo, p);
        let before = scores(f, c, q, k, h, lo, p - 1);
        assert(s.drop_last() =~= before);
        largest_of_fewer(s, before, before.len());
        let m = largest(before, before.len());
        let n = largest(s, s.len());
        assert(s[s.len() - 1] == score(f, c, q, k, place(c, h, p - 1)));
        assert(n == larger(m, s.last()));
        let alpha = of(f, FloatOp::Exp, minus(f, m, n));
        let by = weights(f, before, m);
        let to = weights(f, s, n);
        rescaled(f, by, alpha);
        rescaled(f, weighed_values(f, c, v, h, lo, by, i), alpha);
        remarked(f, c, v, h, lo, before, m, n, i);
        assert(to.drop_last() =~= weights(f, before, n));
        assert(weighed_values(f, c, v, h, lo, to, i).drop_last() =~= weighed_values(
            f,
            c,
            v,
            h,
            lo,
            weights(f, before, n),
            i,
        ));
    }
}

proof fn largest_of_fewer(s: Seq<u32>, t: Seq<u32>, n: nat)
    requires
        n <= t.len() <= s.len(),
        forall|j: int| 0 <= j < n ==> s[j] == #[trigger] t[j],
    ensures
        largest(s, n) == largest(t, n),
    decreases n,
{
    if n > 0 {
        largest_of_fewer(s, t, (n - 1) as nat);
    }
}

/// Heads do not meet: head `h` of token `t` sees what that token sees, by its own query.
pub proof fn heads_attend_one_by_one(
    f: Ops,
    c: AttnBits,
    q: Seq<u32>,
    k: Cached,
    v: Cached,
    sinks: Option<Seq<u32>>,
    n: nat,
    j: int,
)
    requires
        0 <= j < n,
        n * c.head_dim <= q.len(),
        c.n_heads > 0,
    ensures
        attended(f, c, q, k, v, sinks, n).len() == n * c.head_dim,
        attended(f, c, q, k, v, sinks, n).subrange(j * c.head_dim, (j + 1) * c.head_dim) == head_of(
            f,
            c,
            q.subrange(j * c.head_dim, (j + 1) * c.head_dim),
            k,
            v,
            j / c.n_heads as int,
            j % c.n_heads as int,
            sinks,
        ),
    decreases n,
{
    let d = c.head_dim as int;
    assert((n - 1) * d + d == n * d && 0 <= (n - 1) * d) by (nonlinear_arith)
        requires
            n >= 1,
            d >= 0,
    ;
    let all = attended(f, c, q, k, v, sinks, n);
    let t = (n - 1) / c.n_heads as int;
    let h = (n - 1) % c.n_heads as int;
    let own = q.subrange((n - 1) * d, n * d);
    let tail = head_of(f, c, own, k, v, t, h, sinks);
    assert(tail.len() == d) by {
        let lo = first_seen(c, t);
        let hi = last_seen(c, t);
        assert(folded(f, c, own, k, v, h, lo, hi).out.len() == own.len());
    }
    if n == 1 {
        assert(j * d == 0 && (j + 1) * d == d && 0 * d == 0) by (nonlinear_arith)
            requires
                j == 0,
        ;
        assert(attended(f, c, q, k, v, sinks, 0).len() == 0);
        assert(all =~= tail);
        assert(all.subrange(0, d) =~= tail);
    } else if j == n - 1 {
        heads_attend_one_by_one(f, c, q, k, v, sinks, (n - 1) as nat, 0);
        assert(all.subrange(j * d, (j + 1) * d) =~= tail);
    } else {
        heads_attend_one_by_one(f, c, q, k, v, sinks, (n - 1) as nat, j);
        assert(0 <= j * d <= (j + 1) * d <= (n - 1) * d) by (nonlinear_arith)
            requires
                0 <= j < n - 1,
                d >= 0,
        ;
        assert(all.subrange(j * d, (j + 1) * d) =~= attended(
            f,
            c,
            q,
            k,
            v,
            sinks,
            (n - 1) as nat,
        ).subrange(j * d, (j + 1) * d));
    }
}

// ---------------------------------------------------------------------------- projections

/// A projection of a unit vector is the column of its place, with the bias added.
pub proof fn a_unit_vector_picks_a_column(
    f: Ops,
    w: Seq<u32>,
    x: Seq<u32>,
    bias: Option<Seq<u32>>,
    n_out: nat,
    j: int,
    r: int,
)
    requires
        zero_is_nothing(f),
        forall|a: u32| #[trigger] times(f, a, UNIT) == a,
        0 <= j < x.len(),
        0 <= r < n_out,
        w.len() == n_out * x.len(),
        forall|i: int| 0 <= i < x.len() ==> (#[trigger] x[i]) == if i == j {
            UNIT
        } else {
            0
        },
    ensures
        dense_token_of(f, w, x, bias, n_out).len() == n_out,
        dense_token_of(f, w, x, bias, n_out)[r] == match bias {
            Some(b) => plus(f, w[r * x.len() + j], b[r]),
            None => w[r * x.len() + j],
        },
{
    let n = x.len() as int;
    assert(0 <= r * n && (r + 1) * n == r * n + n && (r + 1) * n <= n_out * n) by (nonlinear_arith)
        requires
            0 <= r < n_out,
            n >= 0,
    ;
    let row = w.subrange(r * n, (r + 1) * n);
    let p = super::matmul::product_seq(f, row, x);
    only_one_counts(f, p, j, p.len());
}

proof fn only_one_counts(f: Ops, l: Seq<u32>, j: int, n: nat)
    requires
        zero_is_nothing(f),
        0 <= j < l.len(),
        n <= l.len(),
        forall|i: int| 0 <= i < l.len() && i != j ==> (#[trigger] l[i]) == 0,
    ensures
        total(f, l, n) == if j < n {
            l[j]
        } else {
            0
        },
    decreases n,
{
    if n > 0 {
        only_one_counts(f, l, j, (n - 1) as nat);
        if n - 1 != j {
            assert(l[n - 1] == 0);
        }
    }
}

/// A bias is added to what comes out without one, at the same place.
pub proof fn a_bias_is_added(
    f: Ops,
    w: QuantView<'_>,
    x: Seq<u32>,
    b: Seq<u32>,
    n_out: nat,
    r: int,
)
    requires
        zero_is_nothing(f),
        0 <= r < n_out,
    ensures
        matmul_token_of(f, w, x, Some(b), n_out)[r] == plus(
            f,
            matmul_token_of(f, w, x, None, n_out)[r],
            b[r],
        ),
{
}

/// Tokens do not meet: each is projected by itself.
pub proof fn projections_take_token_by_token(
    f: Ops,
    w: QuantView<'_>,
    x: Seq<u32>,
    bias: Option<Seq<u32>>,
    n_out: nat,
    n: nat,
    t: int,
)
    requires
        0 <= t < n,
    ensures
        matmul_of(f, w, x, bias, n_out, n).len() == n * n_out,
        matmul_of(f, w, x, bias, n_out, n).subrange(t * n_out, (t + 1) * n_out) == matmul_token_of(
            f,
            w,
            x.subrange(t * w.cols, (t + 1) * w.cols),
            bias,
            n_out,
        ),
    decreases n,
{
    let d = n_out as int;
    assert((n - 1) * d + d == n * d && 0 <= (n - 1) * d) by (nonlinear_arith)
        requires
            n >= 1,
            d >= 0,
    ;
    let all = matmul_of(f, w, x, bias, n_out, n);
    let tail = matmul_token_of(f, w, x.subrange((n - 1) * w.cols, n * w.cols), bias, n_out);
    if n == 1 {
        assert(t * d == 0 && (t + 1) * d == d && 0 * d == 0) by (nonlinear_arith)
            requires
                t == 0,
        ;
        assert(matmul_of(f, w, x, bias, n_out, 0).len() == 0);
        assert(all =~= tail);
        assert(all.subrange(0, d) =~= tail);
    } else if t == n - 1 {
        projections_take_token_by_token(f, w, x, bias, n_out, (n - 1) as nat, 0);
        assert(all.subrange(t * d, (t + 1) * d) =~= tail);
    } else {
        projections_take_token_by_token(f, w, x, bias, n_out, (n - 1) as nat, t);
        assert(0 <= t * d <= (t + 1) * d <= (n - 1) * d) by (nonlinear_arith)
            requires
                0 <= t < n - 1,
                d >= 0,
        ;
        assert(all.subrange(t * d, (t + 1) * d) =~= matmul_of(
            f,
            w,
            x,
            bias,
            n_out,
            (n - 1) as nat,
        ).subrange(t * d, (t + 1) * d));
    }
}

/// The embedding of a token is its own row of the table, times the scale.
pub proof fn an_embedding_is_the_row_of_its_token(
    f: Ops,
    w: QuantView<'_>,
    token: u32,
    scale: u32,
    i: int,
)
    requires
        token < w.rows,
        0 <= i < w.cols,
    ensures
        embedding_of(f, w, token, scale).len() == w.cols,
        ({
            let row = w.data@.subrange(token * w.row_len(), (token + 1) * w.row_len());
            &&& equal(scale, UNIT) ==> embedding_of(f, w, token, scale)[i] == element(
                f,
                w.dtype,
                row,
                i,
            )
            &&& !equal(scale, UNIT) ==> embedding_of(f, w, token, scale)[i] == times(
                f,
                element(f, w.dtype, row, i),
                scale,
            )
        }),
{
}

/// Embeddings come in the order of their tokens.
pub proof fn embeddings_come_in_order(
    f: Ops,
    w: QuantView<'_>,
    tokens: Seq<u32>,
    scale: u32,
    n: nat,
    t: int,
)
    requires
        0 <= t < n <= tokens.len(),
    ensures
        embeddings_of(f, w, tokens, scale, n).len() == n * w.cols,
        embeddings_of(f, w, tokens, scale, n).subrange(t * w.cols, (t + 1) * w.cols)
            == embedding_of(f, w, tokens[t], scale),
    decreases n,
{
    let d = w.cols as int;
    assert((n - 1) * d + d == n * d && 0 <= (n - 1) * d) by (nonlinear_arith)
        requires
            n >= 1,
            d >= 0,
    ;
    let all = embeddings_of(f, w, tokens, scale, n);
    let tail = embedding_of(f, w, tokens[n - 1], scale);
    assert(tail.len() == d);
    if n == 1 {
        assert(t * d == 0 && (t + 1) * d == d && 0 * d == 0) by (nonlinear_arith)
            requires
                t == 0,
        ;
        assert(embeddings_of(f, w, tokens, scale, 0).len() == 0);
        assert(all =~= tail);
        assert(all.subrange(0, d) =~= tail);
    } else if t == n - 1 {
        embeddings_come_in_order(f, w, tokens, scale, (n - 1) as nat, 0);
        assert(all.subrange(t * d, (t + 1) * d) =~= tail);
    } else {
        embeddings_come_in_order(f, w, tokens, scale, (n - 1) as nat, t);
        assert(0 <= t * d <= (t + 1) * d <= (n - 1) * d) by (nonlinear_arith)
            requires
                0 <= t < n - 1,
                d >= 0,
        ;
        assert(all.subrange(t * d, (t + 1) * d) =~= embeddings_of(
            f,
            w,
            tokens,
            scale,
            (n - 1) as nat,
        ).subrange(t * d, (t + 1) * d));
    }
}

} // verus!
