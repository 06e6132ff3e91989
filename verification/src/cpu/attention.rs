//! Single-pass attention with online softmax rescaling.
//!
//! Scores are never materialised: each key is folded into the running maximum, denominator
//! and weighted value sum as it is read. That keeps memory flat in sequence length.

use vstd::prelude::*;
use vstd::slice::slice_subrange;

use super::ops::{capped, opt_seq, total, TINY};
use crate::single::{
    equal, half, is_equal, is_less, larger, larger_of, less, minus, of, over, plus, times, Arith,
    FloatOp, Ops, NEG_INFINITY, UNIT,
};

verus! {

/// A cache read as either single- or half-precision storage. Half-precision numbers come two to
/// a word, the first of them in its low half.
#[derive(Clone, Copy)]
pub enum KvSlice<'a> {
    F32(&'a [u32]),
    F16(&'a [u32]),
}

/// What a cache holds: words, of numbers in single or half precision.
pub struct Cached {
    pub is_half: bool,
    pub words: Seq<u32>,
}

impl<'a> View for KvSlice<'a> {
    type V = Cached;

    open spec fn view(&self) -> Cached {
        match *self {
            KvSlice::F32(s) => Cached { is_half: false, words: s@ },
            KvSlice::F16(s) => Cached { is_half: true, words: s@ },
        }
    }
}

/// A cached number.
pub open spec fn cached(f: Ops, kv: Cached, i: int) -> u32 {
    if kv.is_half {
        half(
            f,
            if i % 2 == 0 {
                (kv.words[i / 2] % 0x1_0000) as u16
            } else {
                (kv.words[i / 2] / 0x1_0000) as u16
            },
        )
    } else {
        kv.words[i]
    }
}

/// How many numbers a cache holds.
pub open spec fn capacity(kv: Cached) -> nat {
    if kv.is_half {
        kv.words.len() * 2
    } else {
        kv.words.len()
    }
}

/// What attention is told, by bits.
pub struct AttnBits {
    pub n_heads: usize,
    pub n_kv_heads: usize,
    pub head_dim: usize,
    pub n_tokens: usize,
    pub kv_len: usize,
    pub start_pos: usize,
    pub window: usize,
    pub stride: usize,
    pub base: usize,
    pub scale: u32,
    pub softcap: u32,
}

/// The heads that share a key head.
pub open spec fn sharing(c: AttnBits) -> int {
    if c.n_heads / c.n_kv_heads > 1 {
        c.n_heads as int / c.n_kv_heads as int
    } else {
        1
    }
}

/// Where the keys that token `t` sees end: at the token itself.
pub open spec fn last_seen(c: AttnBits, t: int) -> int {
    if c.start_pos + t + 1 < c.kv_len {
        c.start_pos + t + 1
    } else {
        c.kv_len as int
    }
}

/// Where they begin: at the left edge of a sliding window, where there is one.
pub open spec fn first_seen(c: AttnBits, t: int) -> int {
    if c.window > 0 && c.start_pos + t + 1 > c.window {
        c.start_pos + t + 1 - c.window
    } else {
        0
    }
}

/// Where the numbers of a position begin for a head.
pub open spec fn place(c: AttnBits, h: int, p: int) -> int {
    (c.base + p) * c.stride + h / sharing(c) * c.head_dim
}

/// The first number beyond all that is read.
pub open spec fn reach(c: AttnBits) -> int {
    place(c, c.n_heads - 1, c.kv_len - 1) + c.head_dim
}

/// A caching invariant: every position that attention reads lies in the cache.
pub open spec fn fits(c: AttnBits, room: nat) -> bool {
    c.n_heads > 0 && c.kv_len > 0 ==> reach(c) <= room
}

pub open spec fn products(f: Ops, q: Seq<u32>, k: Cached, off: int) -> Seq<u32> {
    Seq::new(q.len(), |i: int| times(f, q[i], cached(f, k, off + i)))
}

/// How well a query meets the key at `off`.
pub open spec fn score(f: Ops, c: AttnBits, q: Seq<u32>, k: Cached, off: int) -> u32 {
    let s = times(f, total(f, products(f, q, k, off), q.len()), c.scale);
    if less(0, c.softcap) {
        capped(f, s, c.softcap)
    } else {
        s
    }
}

/// The running maximum, denominator and weighted value sum.
pub struct Running {
    pub m: u32,
    pub l: u32,
    pub out: Seq<u32>,
}

/// What has been read once the positions from `lo` up to `p` have.
pub open spec fn folded(
    f: Ops,
    c: AttnBits,
    q: Seq<u32>,
    k: Cached,
    v: Cached,
    h: int,
    lo: int,
    p: int,
) -> Running
    decreases p - lo,
{
    if p <= lo {
        Running { m: NEG_INFINITY, l: 0, out: Seq::new(q.len(), |i: int| 0u32) }
    } else {
        let a = folded(f, c, q, k, v, h, lo, p - 1);
        let off = place(c, h, p - 1);
        let s = score(f, c, q, k, off);
        let m = larger(a.m, s);
        let alpha = of(f, FloatOp::Exp, minus(f, a.m, m));
        let w = of(f, FloatOp::Exp, minus(f, s, m));
        Running {
            m,
            l: plus(f, times(f, a.l, alpha), w),
            out: Seq::new(
                q.len(),
                |i: int| plus(f, times(f, a.out[i], alpha), times(f, w, cached(f, v, off + i))),
            ),
        }
    }
}

/// A learned sink contributes to the denominator only: it is an extra logit with no value
/// vector, so it pulls probability mass away from real tokens.
pub open spec fn sunk(f: Ops, a: Running, sink: Option<u32>) -> Running {
    match sink {
        None => a,
        Some(x) => {
            let m = larger(a.m, x);
            let alpha = of(f, FloatOp::Exp, minus(f, a.m, m));
            Running {
                m,
                l: plus(f, times(f, a.l, alpha), of(f, FloatOp::Exp, minus(f, x, m))),
                out: if equal(alpha, UNIT) {
                    a.out
                } else {
                    Seq::new(a.out.len(), |i: int| times(f, a.out[i], alpha))
                },
            }
        },
    }
}

pub open spec fn sink_of(sinks: Option<Seq<u32>>, h: int) -> Option<u32> {
    match sinks {
        Some(s) => if h < s.len() {
            Some(s[h])
        } else {
            None
        },
        None => None,
    }
}

/// What head `h` of token `t` attends to.
pub open spec fn head_of(
    f: Ops,
    c: AttnBits,
    q: Seq<u32>,
    k: Cached,
    v: Cached,
    t: int,
    h: int,
    sinks: Option<Seq<u32>>,
) -> Seq<u32> {
    let a = sunk(
        f,
        folded(f, c, q, k, v, h, first_seen(c, t), last_seen(c, t)),
        sink_of(sinks, h),
    );
    let inv = over(f, UNIT, larger(a.l, TINY));
    Seq::new(a.out.len(), |i: int| times(f, a.out[i], inv))
}

/// The first `j` heads, those of a token one after the other.
pub open spec fn attended(
    f: Ops,
    c: AttnBits,
    q: Seq<u32>,
    k: Cached,
    v: Cached,
    sinks: Option<Seq<u32>>,
    j: nat,
) -> Seq<u32>
    decreases j,
{
    if j == 0 {
        Seq::empty()
    } else {
        attended(f, c, q, k, v, sinks, (j - 1) as nat) + head_of(
            f,
            c,
            q.subrange((j - 1) * c.head_dim, j * c.head_dim),
            k,
            v,
            (j - 1) / c.n_heads as int,
            (j - 1) % c.n_heads as int,
            sinks,
        )
    }
}

/// No token attends to a position behind its own, and with a sliding window to none before the
/// window.
pub proof fn attention_is_causal(c: AttnBits, t: int, p: int)
    requires
        0 <= t,
        first_seen(c, t) <= p < last_seen(c, t),
    ensures
        0 <= p <= c.start_pos + t,
        p < c.kv_len,
        c.window > 0 ==> c.start_pos + t - p < c.window,
{
}

/// How many numbers the slot of a position has: the stride, unless the heads do not share the key
/// heads evenly and the last row lies beyond it.
pub open spec fn slot_width(c: AttnBits) -> int {
    let rows = (c.n_heads - 1) / sharing(c) * c.head_dim + c.head_dim;
    if rows > c.stride {
        rows
    } else {
        c.stride as int
    }
}

/// Whether two caches hold the same numbers in the slot of a position.
pub open spec fn same_slot(f: Ops, c: AttnBits, a: Cached, b: Cached, p: int) -> bool {
    forall|x: int|
        (c.base + p) * c.stride <= x < (c.base + p) * c.stride + slot_width(c)
            ==> #[trigger] cached(f, a, x) == cached(f, b, x)
}

/// Only the slots that a token sees matter to it: where two pairs of caches agree on the slots
/// of its region from the edge of its window up to its own position, its outputs agree. Nothing
/// behind its position, before its window or in the region of another sequence can influence
/// them.
pub proof fn only_what_is_seen_matters(
    f: Ops,
    c: AttnBits,
    q: Seq<u32>,
    k: Cached,
    v: Cached,
    other_k: Cached,
    other_v: Cached,
    sinks: Option<Seq<u32>>,
    t: int,
)
    requires
        0 <= t < c.n_tokens,
        q.len() >= c.n_tokens * c.n_heads * c.head_dim,
        forall|p: int|
            first_seen(c, t) <= p < last_seen(c, t) ==> #[trigger] same_slot(f, c, k, other_k, p),
        forall|p: int|
            first_seen(c, t) <= p < last_seen(c, t) ==> #[trigger] same_slot(f, c, v, other_v, p),
    ensures
        ({
            let all = (c.n_tokens * c.n_heads) as nat;
            let wide = c.n_heads * c.head_dim;
            attended(f, c, q, k, v, sinks, all).subrange(t * wide, (t + 1) * wide) == attended(
                f,
                c,
                q,
                other_k,
                other_v,
                sinks,
                all,
            ).subrange(t * wide, (t + 1) * wide)
        }),
{
    let n = c.n_heads as int;
    let d = c.head_dim as int;
    let all = (c.n_tokens * c.n_heads) as nat;
    let wide = n * d;
    let one = attended(f, c, q, k, v, sinks, all);
    let other = attended(f, c, q, other_k, other_v, sinks, all);
    attended_has_rows(f, c, q, k, v, sinks, all);
    attended_has_rows(f, c, q, other_k, other_v, sinks, all);
    assert(0 <= t * wide && (t + 1) * wide <= all * d && (t + 1) * wide == t * wide + wide)
        by (nonlinear_arith)
        requires
            0 <= t < c.n_tokens,
            all == c.n_tokens * n,
            wide == n * d,
            0 <= n,
            0 <= d,
    ;
    assert forall|x: int| t * wide <= x < (t + 1) * wide implies one[x] == other[x] by {
        let y = x - t * wide;
        assert(d > 0) by (nonlinear_arith)
            requires
                0 <= y < n * d,
                0 <= d,
        ;
        let h = y / d;
        let i = y % d;
        let j = t * n + h;
        assert(0 <= h < n && 0 <= i < d && y == h * d + i) by (nonlinear_arith)
            requires
                0 <= y < n * d,
                d > 0,
                h == y / d,
                i == y % d,
        ;
        assert(x == j * d + i) by (nonlinear_arith)
            requires
                x == y + t * (n * d),
                y == h * d + i,
                j == t * n + h,
        ;
        assert(0 <= j < all) by (nonlinear_arith)
            requires
                0 <= t < c.n_tokens,
                0 <= h < n,
                j == t * n + h,
                all == c.n_tokens * n,
        ;
        vstd::arithmetic::div_mod::lemma_fundamental_div_mod_converse(j, n, t, h);
        let row = q.subrange(j * d, (j + 1) * d);
        attended_at(f, c, q, k, v, sinks, all, j, i);
        attended_at(f, c, q, other_k, other_v, sinks, all, j, i);
        rows_in_slots(c, h);
        row_is_there(q, c, j);
        folded_agrees(f, c, row, k, v, other_k, other_v, h, first_seen(c, t), last_seen(c, t));
    }
    assert(one.subrange(t * wide, (t + 1) * wide) =~= other.subrange(t * wide, (t + 1) * wide));
}

proof fn row_is_there(q: Seq<u32>, c: AttnBits, j: int)
    requires
        q.len() >= c.n_tokens * c.n_heads * c.head_dim,
        0 <= j < c.n_tokens * c.n_heads,
    ensures
        0 <= j * c.head_dim <= (j + 1) * c.head_dim <= q.len(),
        (j + 1) * c.head_dim - j * c.head_dim == c.head_dim,
{
    let d = c.head_dim as int;
    let all = c.n_tokens * c.n_heads;
    assert(0 <= j * d && (j + 1) * d <= all * d && (j + 1) * d == j * d + d) by (nonlinear_arith)
        requires
            0 <= j < all,
            0 <= d,
    ;
}

/// The row of a head lies in the slot of its position.
proof fn rows_in_slots(c: AttnBits, h: int)
    requires
        0 <= h < c.n_heads,
    ensures
        0 <= h / sharing(c) * c.head_dim,
        h / sharing(c) * c.head_dim + c.head_dim <= slot_width(c),
{
    let g = sharing(c);
    let d = c.head_dim as int;
    let top = c.n_heads - 1;
    assert(0 <= h / g <= top / g) by (nonlinear_arith)
        requires
            0 <= h <= top,
            g >= 1,
    ;
    assert(0 <= h / g * d <= top / g * d) by (nonlinear_arith)
        requires
            0 <= h / g <= top / g,
            0 <= d,
    ;
}

proof fn folded_agrees(
    f: Ops,
    c: AttnBits,
    q: Seq<u32>,
    k: Cached,
    v: Cached,
    other_k: Cached,
    other_v: Cached,
    h: int,
    lo: int,
    p: int,
)
    requires
        q.len() == c.head_dim,
        0 <= h / sharing(c) * c.head_dim,
        h / sharing(c) * c.head_dim + c.head_dim <= slot_width(c),
        forall|x: int| lo <= x < p ==> #[trigger] same_slot(f, c, k, other_k, x),
        forall|x: int| lo <= x < p ==> #[trigger] same_slot(f, c, v, other_v, x),
    ensures
        folded(f, c, q, k, v, h, lo, p) == folded(f, c, q, other_k, other_v, h, lo, p),
    decreases p - lo,
{
    if p > lo {
        folded_agrees(f, c, q, k, v, other_k, other_v, h, lo, p - 1);
        let off = place(c, h, p - 1);
        assert(same_slot(f, c, k, other_k, p - 1));
        assert(same_slot(f, c, v, other_v, p - 1));
        assert(products(f, q, k, off) =~= products(f, q, other_k, off));
        assert(folded(f, c, q, k, v, h, lo, p).out =~= folded(
            f,
            c,
            q,
            other_k,
            other_v,
            h,
            lo,
            p,
        ).out);
    }
}

proof fn folded_is_wide(
    f: Ops,
    c: AttnBits,
    q: Seq<u32>,
    k: Cached,
    v: Cached,
    h: int,
    lo: int,
    p: int,
)
    ensures
        folded(f, c, q, k, v, h, lo, p).out.len() == q.len(),
{
}

proof fn attended_has_rows(
    f: Ops,
    c: AttnBits,
    q: Seq<u32>,
    k: Cached,
    v: Cached,
    sinks: Option<Seq<u32>>,
    j: nat,
)
    requires
        q.len() >= c.n_tokens * c.n_heads * c.head_dim,
        j <= c.n_tokens * c.n_heads,
    ensures
        attended(f, c, q, k, v, sinks, j).len() == j * c.head_dim,
    decreases j,
{
    let d = c.head_dim as int;
    assert((j - 1) * d + d == j * d && 0 * d == 0) by (nonlinear_arith);
    if j == 0 {
        assert(j * d == 0 * d);
    } else {
        attended_has_rows(f, c, q, k, v, sinks, (j - 1) as nat);
        row_is_there(q, c, j - 1);
        let t = (j - 1) / c.n_heads as int;
        let h = (j - 1) % c.n_heads as int;
        folded_is_wide(
            f,
            c,
            q.subrange((j - 1) * c.head_dim, j * c.head_dim),
            k,
            v,
            h,
            first_seen(c, t),
            last_seen(c, t),
        );
    }
}

/// Number `i` of the output of head `j`.
proof fn attended_at(
    f: Ops,
    c: AttnBits,
    q: Seq<u32>,
    k: Cached,
    v: Cached,
    sinks: Option<Seq<u32>>,
    all: nat,
    j: int,
    i: int,
)
    requires
        q.len() >= c.n_tokens * c.n_heads * c.head_dim,
        all <= c.n_tokens * c.n_heads,
        0 <= j < all,
        0 <= i < c.head_dim,
    ensures
        attended(f, c, q, k, v, sinks, all)[j * c.head_dim + i] == head_of(
            f,
            c,
            q.subrange(j * c.head_dim, (j + 1) * c.head_dim),
            k,
            v,
            j / c.n_heads as int,
            j % c.n_heads as int,
            sinks,
        )[i],
    decreases all,
{
    let d = c.head_dim as int;
    let before = (all - 1) as nat;
    attended_has_rows(f, c, q, k, v, sinks, before);
    attended_has_rows(f, c, q, k, v, sinks, all);
    row_is_there(q, c, j);
    if j < all - 1 {
        attended_at(f, c, q, k, v, sinks, before, j, i);
        assert(j * d + i < (all - 1) * d) by (nonlinear_arith)
            requires
                0 <= j < all - 1,
                0 <= i < d,
        ;
    }
}

proof fn place_fits(c: AttnBits, h: int, p: int)
    requires
        0 <= h < c.n_heads,
        0 <= p < c.kv_len,
    ensures
        0 <= place(c, h, p),
        place(c, h, p) + c.head_dim <= reach(c),
{
    let g = sharing(c);
    let s = c.stride as int;
    let d = c.head_dim as int;
    let top = c.n_heads - 1;
    assert(0 <= h / g <= top / g) by (nonlinear_arith)
        requires
            0 <= h <= top,
            g >= 1,
    ;
    assert(0 <= (c.base + p) * s <= (c.base + (c.kv_len - 1)) * s) by (nonlinear_arith)
        requires
            0 <= p <= c.kv_len - 1,
            0 <= c.base,
            0 <= s,
    ;
    assert(0 <= h / g * d <= top / g * d) by (nonlinear_arith)
        requires
            0 <= h / g <= top / g,
            0 <= d,
    ;
}

impl<A: Fn(FloatOp, u32, u32) -> u32> Arith<A> {
    fn cached(&self, kv: KvSlice<'_>, i: usize) -> (r: u32)
        requires
            self.works(),
            i < capacity(kv@),
        ensures
            r == cached(self.ops(), kv@, i as int),
    {
        match kv {
            KvSlice::F32(s) => s[i],
            KvSlice::F16(s) => {
                let w = s[i / 2];
                if i % 2 == 0 {
                    self.half((w % 0x1_0000) as u16)
                } else {
                    self.half((w / 0x1_0000) as u16)
                }
            },
        }
    }

    fn score(&self, c: &AttnBits, q: &[u32], k: KvSlice<'_>, off: usize) -> (r: u32)
        requires
            self.works(),
            off + q@.len() <= capacity(k@),
            capacity(k@) <= usize::MAX,
        ensures
            r == score(self.ops(), *c, q@, k@, off as int),
    {
        let ghost f = self.ops();
        let ghost want = products(f, q@, k@, off as int);
        let mut acc: u32 = 0;
        let mut i: usize = 0;
        while i < q.len()
            invariant
                self.works(),
                f == self.ops(),
                want == products(f, q@, k@, off as int),
                off + q@.len() <= capacity(k@),
                capacity(k@) <= usize::MAX,
                i <= q@.len(),
                acc == total(f, want, i as nat),
            decreases q@.len() - i,
        {
            let y = self.cached(k, off + i);
            acc = self.plus(acc, self.times(q[i], y));
            i = i + 1;
        }
        let s = self.times(acc, c.scale);
        if is_less(0, c.softcap) {
            self.times(c.softcap, self.of(FloatOp::Tanh, self.over(s, c.softcap)))
        } else {
            s
        }
    }

    /// Folds one value vector in.
    fn mixed(&self, out: &Vec<u32>, alpha: u32, w: u32, v: KvSlice<'_>, off: usize) -> (r: Vec<u32>)
        requires
            self.works(),
            off + out@.len() <= capacity(v@),
            capacity(v@) <= usize::MAX,
        ensures
            r@ == Seq::new(
                out@.len(),
                |i: int|
                    plus(
                        self.ops(),
                        times(self.ops(), out@[i], alpha),
                        times(self.ops(), w, cached(self.ops(), v@, off + i)),
                    ),
            ),
    {
        let ghost f = self.ops();
        let mut r: Vec<u32> = Vec::new();
        let mut i: usize = 0;
        while i < out.len()
            invariant
                self.works(),
                f == self.ops(),
                off + out@.len() <= capacity(v@),
                capacity(v@) <= usize::MAX,
                i <= out@.len(),
                r@.len() == i,
                forall|j: int|
                    0 <= j < i ==> (#[trigger] r@[j]) == plus(
                        f,
                        times(f, out@[j], alpha),
                        times(f, w, cached(f, v@, off + j)),
                    ),
            decreases out@.len() - i,
        {
            let y = self.cached(v, off + i);
            r.push(self.plus(self.times(out[i], alpha), self.times(w, y)));
            i = i + 1;
        }
        r
    }

    /// What head `h` of token `t` attends to.
    pub fn attention_head(
        &self,
        c: &AttnBits,
        q: &[u32],
        k: KvSlice<'_>,
        v: KvSlice<'_>,
        t: usize,
        h: usize,
        sinks: Option<&[u32]>,
    ) -> (r: Vec<u32>)
        requires
            self.works(),
            c.n_kv_heads > 0,
            q@.len() == c.head_dim,
            h < c.n_heads,
            c.start_pos + t < usize::MAX,
            fits(*c, capacity(k@)),
            fits(*c, capacity(v@)),
            capacity(k@) <= usize::MAX,
            capacity(v@) <= usize::MAX,
        ensures
            r@ == head_of(self.ops(), *c, q@, k@, v@, t as int, h as int, opt_seq(sinks)),
            r@.len() == q@.len(),
    {
        let ghost f = self.ops();
        let per = c.n_heads / c.n_kv_heads;
        let gqa: usize = if per > 1 {
            per
        } else {
            1
        };
        let kv_h = h / gqa;
        let end = c.start_pos + t + 1;
        let hi = if end < c.kv_len {
            end
        } else {
            c.kv_len
        };
        let lo = if c.window > 0 && end > c.window {
            end - c.window
        } else {
            0
        };
        let mut m: u32 = NEG_INFINITY;
        let mut l: u32 = 0;
        let mut out: Vec<u32> = Vec::new();
        let mut i: usize = 0;
        while i < q.len()
            invariant
                i <= q@.len(),
                out@ =~= Seq::new(i as nat, |j: int| 0u32),
            decreases q@.len() - i,
        {
            out.push(0);
            i = i + 1;
        }
        let mut p = lo;
        while p < hi
            invariant
                self.works(),
                f == self.ops(),
                q@.len() == c.head_dim,
                h < c.n_heads,
                gqa == sharing(*c),
                kv_h == h as int / sharing(*c),
                hi == last_seen(*c, t as int),
                lo == first_seen(*c, t as int),
                hi <= c.kv_len,
                fits(*c, capacity(k@)),
                fits(*c, capacity(v@)),
                capacity(k@) <= usize::MAX,
                capacity(v@) <= usize::MAX,
                lo <= p,
                p == lo || p <= hi,
                out@.len() == q@.len(),
                (Running { m, l, out: out@ }) == folded(
                    f,
                    *c,
                    q@,
                    k@,
                    v@,
                    h as int,
                    lo as int,
                    p as int,
                ),
            decreases hi - p,
        {
            proof {
                place_fits(*c, h as int, p as int);
                assert(0 <= (c.base + p) * c.stride) by (nonlinear_arith)
                    requires
                        0 <= c.base,
                        0 <= p,
                        0 <= c.stride,
                ;
                assert(0 <= kv_h * c.head_dim) by (nonlinear_arith)
                    requires
                        0 <= kv_h,
                        0 <= c.head_dim,
                ;
                if c.stride > 0 {
                    assert(c.base + p <= (c.base + p) * c.stride) by (nonlinear_arith)
                        requires
                            0 <= c.base + p,
                            1 <= c.stride,
                    ;
                }
            }
            let row: usize = if c.stride == 0 {
                0
            } else {
                (c.base + p) * c.stride
            };
            let off = row + kv_h * c.head_dim;
            assert(off == place(*c, h as int, p as int)) by {
                if c.stride == 0 {
                    assert((c.base + p) * 0 == 0) by (nonlinear_arith);
                }
            }
            let s = self.score(c, q, k, off);
            let top = larger_of(m, s);
            let alpha = self.of(FloatOp::Exp, self.minus(m, top));
            let w = self.of(FloatOp::Exp, self.minus(s, top));
            out = self.mixed(&out, alpha, w, v, off);
            l = self.plus(self.times(l, alpha), w);
            m = top;
            p = p + 1;
            assert((Running { m, l, out: out@ }).out =~= folded(
                f,
                *c,
                q@,
                k@,
                v@,
                h as int,
                lo as int,
                p as int,
            ).out);
        }
        assert(folded(f, *c, q@, k@, v@, h as int, lo as int, p as int) == folded(
            f,
            *c,
            q@,
            k@,
            v@,
            h as int,
            lo as int,
            hi as int,
        ));
        match sinks {
            Some(s) => {
                if h < s.len() {
                    let sink = s[h];
                    let top = larger_of(m, sink);
                    let alpha = self.of(FloatOp::Exp, self.minus(m, top));
                    if !is_equal(alpha, UNIT) {
                        out = self.scaled(out.as_slice(), alpha);
                    }
                    l = self.plus(
                        self.times(l, alpha),
                        self.of(FloatOp::Exp, self.minus(sink, top)),
                    );
                }
            },
            None => {},
        }
        let inv = self.over(UNIT, larger_of(l, TINY));
        let r = self.scaled(out.as_slice(), inv);
        assert(r@ =~= head_of(f, *c, q@, k@, v@, t as int, h as int, opt_seq(sinks)));
        r
    }

    /// Every head of every token.
    pub fn flash_attention(
        &self,
        c: &AttnBits,
        q: &[u32],
        k: KvSlice<'_>,
        v: KvSlice<'_>,
        sinks: Option<&[u32]>,
    ) -> (r: Vec<u32>)
        requires
            self.works(),
            c.n_kv_heads > 0,
            c.n_tokens * c.n_heads * c.head_dim <= q@.len(),
            c.n_tokens * c.n_heads <= usize::MAX,
            c.start_pos + c.n_tokens <= usize::MAX,
            fits(*c, capacity(k@)),
            fits(*c, capacity(v@)),
            capacity(k@) <= usize::MAX,
            capacity(v@) <= usize::MAX,
        ensures
            r@ == attended(
                self.ops(),
                *c,
                q@,
                k@,
                v@,
                opt_seq(sinks),
                (c.n_tokens * c.n_heads) as nat,
            ),
            r@.len() == c.n_tokens * c.n_heads * c.head_dim,
    {
        let ghost f = self.ops();
        let hd = c.head_dim;
        let nh = c.n_heads;
        let len = q.len();
        let all = c.n_tokens * nh;
        let mut out: Vec<u32> = Vec::new();
        let mut j: usize = 0;
        while j < all
            invariant
                self.works(),
                f == self.ops(),
                c.n_kv_heads > 0,
                hd == c.head_dim,
                nh == c.n_heads,
                len == q@.len(),
                all == c.n_tokens * nh,
                all * hd <= len,
                c.start_pos + c.n_tokens <= usize::MAX,
                fits(*c, capacity(k@)),
                fits(*c, capacity(v@)),
                capacity(k@) <= usize::MAX,
                capacity(v@) <= usize::MAX,
                j <= all,
                out@ == attended(f, *c, q@, k@, v@, opt_seq(sinks), j as nat),
                out@.len() == j * hd,
            decreases all - j,
        {
            assert(j * hd + hd <= all * hd && j * hd + hd == (j + 1) * hd && j * hd >= 0)
                by (nonlinear_arith)
                requires
                    j + 1 <= all,
                    hd >= 0,
            ;
            assert(nh > 0) by (nonlinear_arith)
                requires
                    c.n_tokens * nh > 0,
                    nh >= 0,
            ;
            assert((j as int / nh as int) < c.n_tokens) by (nonlinear_arith)
                requires
                    j < c.n_tokens * nh,
                    nh > 0,
            ;
            let head = slice_subrange(q, j * hd, j * hd + hd);
            let mut y = self.attention_head(c, head, k, v, j / nh, j % nh, sinks);
            out.append(&mut y);
            j = j + 1;
        }
        out
    }
}

} // verus!
