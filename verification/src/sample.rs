//! Logit post-processing and token selection.
//!
//! The pipeline runs in a fixed order: penalties, then temperature, then truncation (top-k,
//! then min-p, then top-p), then the draw. Order matters - applying top-p before top-k, for
//! instance, changes which tokens survive.

use vstd::prelude::*;

use crate::single::{
    abs_of, at_most, equal, finite, is_at_most, is_equal, is_finite, is_less, larger, larger_of,
    less, magnitude, minus, neg_of, negated, order_of, over, plus, times, total_order, whole, Arith,
    FloatOp, Ops, NEG_INFINITY, UNIT,
};

verus! {

/// The bits of 1e-20, below which a probability is not taken a logarithm of.
pub const TINY: u32 = 0x1e3c_e508;

/// The bits of 2.
pub const TWO: u32 = 0x4000_0000;

/// The bits of 2^24.
pub const TWO_TO_24: u32 = 0x4b80_0000;

/// How to sample. Numbers that are no integers are given by their bits.
#[derive(Debug, Clone, Copy, PartialEq, Eq, Structural)]
pub struct SampleParams {
    pub temperature: u32,
    pub top_k: usize,
    pub top_p: u32,
    pub min_p: u32,
    pub typical_p: u32,
    /// Divides logits of tokens seen in the recent window.
    pub repeat_penalty: u32,
    pub repeat_last_n: usize,
    pub presence_penalty: u32,
    pub frequency_penalty: u32,
    /// 0 off, 1 or 2 select Mirostat v2.
    pub mirostat: u8,
    pub mirostat_tau: u32,
    pub mirostat_eta: u32,
    pub seed: u64,
}

/// Temperature 0.7, the 40 best tokens, 0.9 of the mass, 0.05 of the best, a repetition penalty
/// of 1.1 over 64 tokens; Mirostat, off, would aim at 5 with a rate of 0.1.
pub open spec fn default_params() -> SampleParams {
    SampleParams {
        temperature: 0x3f33_3333,
        top_k: 40,
        top_p: 0x3f66_6666,
        min_p: 0x3d4c_cccd,
        typical_p: 0x3f80_0000,
        repeat_penalty: 0x3f8c_cccd,
        repeat_last_n: 64,
        presence_penalty: 0,
        frequency_penalty: 0,
        mirostat: 0,
        mirostat_tau: 0x40a0_0000,
        mirostat_eta: 0x3dcc_cccd,
        seed: 0,
    }
}

impl Default for SampleParams {
    fn default() -> (r: Self)
        ensures
            r == default_params(),
    {
        SampleParams {
            temperature: 0x3f33_3333,
            top_k: 40,
            top_p: 0x3f66_6666,
            min_p: 0x3d4c_cccd,
            typical_p: 0x3f80_0000,
            repeat_penalty: 0x3f8c_cccd,
            repeat_last_n: 64,
            presence_penalty: 0,
            frequency_penalty: 0,
            mirostat: 0,
            mirostat_tau: 0x40a0_0000,
            mirostat_eta: 0x3dcc_cccd,
            seed: 0,
        }
    }
}

/// The default, but always the likeliest token.
pub open spec fn greedy_params() -> SampleParams {
    SampleParams { temperature: 0, ..default_params() }
}

impl SampleParams {
    /// The default, but always the likeliest token.
    pub fn greedy() -> (r: Self)
        ensures
            r == greedy_params(),
    {
        let mut r = SampleParams::default();
        r.temperature = 0;
        r
    }
}

// ---------------------------------------------------------------------- the random stream

/// A small, fast, explicitly-seeded generator.
///
/// Sampling is per-sequence state, not global: two concurrent requests with the same seed must
/// produce the same output regardless of how their token draws interleave, which a shared
/// global generator cannot promise.
#[derive(Debug, Clone, Copy, PartialEq, Eq, Structural)]
pub struct Rng {
    pub state: u64,
}

/// The step between two states.
pub const STEP: u64 = 0x9E37_79B9_7F4A_7C15;

pub open spec fn seeded(seed: u64) -> u64 {
    if seed == 0 {
        STEP
    } else {
        seed
    }
}

/// The state that follows another.
pub open spec fn next_state(s: u64) -> u64 {
    s.wrapping_add(STEP)
}

/// The number that a state stands for (splitmix64).
pub open spec fn mixed(s: u64) -> u64 {
    let a = (s ^ (s >> 30)).wrapping_mul(0xBF58_476D_1CE4_E5B9);
    let b = (a ^ (a >> 27)).wrapping_mul(0x94D0_49BB_1331_11EB);
    b ^ (b >> 31)
}

/// A number from 0 up to 1, in steps of 2^-24.
pub open spec fn uniform(f: Ops, s: u64) -> u32 {
    over(f, whole(f, (mixed(s) >> 40) as int), TWO_TO_24)
}

impl Rng {
    /// A zero seed falls back to a fixed nonzero constant, so the "unseeded" case is still
    /// reproducible.
    pub fn new(seed: u64) -> (r: Self)
        ensures
            r.state == seeded(seed),
    {
        Rng {
            state: if seed == 0 {
                STEP
            } else {
                seed
            },
        }
    }

    pub fn next_u64(&mut self) -> (r: u64)
        ensures
            final(self).state == next_state(old(self).state),
            r == mixed(final(self).state),
    {
        self.state = self.state.wrapping_add(STEP);
        let s = self.state;
        let a = (s ^ (s >> 30)).wrapping_mul(0xBF58_476D_1CE4_E5B9);
        let b = (a ^ (a >> 27)).wrapping_mul(0x94D0_49BB_1331_11EB);
        b ^ (b >> 31)
    }

    /// A number from 0 up to 1.
    pub fn uniform<A: Fn(FloatOp, u32, u32) -> u32>(&mut self, m: &Arith<A>) -> (r: u32)
        requires
            m.works(),
        ensures
            final(self).state == next_state(old(self).state),
            r == uniform(m.ops(), final(self).state),
    {
        let n = self.next_u64() >> 40;
        let ghost s = self.state;
        assert(mixed(s) >> 40 <= 0xff_ffff) by {
            let z = mixed(s);
            assert(z >> 40 <= 0xff_ffff) by (bit_vector);
        }
        m.run(FloatOp::Div, m.whole(n as i32), TWO_TO_24)
    }
}

// ----------------------------------------------------------------------------- penalties

/// A logit that is not finite would poison the softmax for every other token.
pub open spec fn cleaned(l: Seq<u32>) -> Seq<u32> {
    Seq::new(
        l.len(),
        |i: int|
            if is_finite(l[i]) {
                l[i]
            } else {
                NEG_INFINITY
            },
    )
}

/// Dividing a positive logit and multiplying a negative one both move it down, which is what
/// makes the penalty meaningful on either side of zero.
pub open spec fn pushed_down(f: Ops, v: u32, penalty: u32) -> u32 {
    if less(0, v) {
        over(f, v, penalty)
    } else {
        times(f, v, penalty)
    }
}

/// The logits after the penalty for each of the first `n` recent tokens.
pub open spec fn repeated(f: Ops, l: Seq<u32>, recent: Seq<u32>, n: nat, penalty: u32) -> Seq<u32>
    decreases n,
{
    if n == 0 || n > recent.len() {
        l
    } else {
        let p = repeated(f, l, recent, (n - 1) as nat, penalty);
        let t = recent[n - 1] as int;
        if t < p.len() {
            p.update(t, pushed_down(f, p[t], penalty))
        } else {
            p
        }
    }
}

pub open spec fn with_repetition(f: Ops, l: Seq<u32>, recent: Seq<u32>, penalty: u32) -> Seq<u32> {
    if equal(penalty, UNIT) {
        l
    } else {
        repeated(f, l, recent, recent.len(), penalty)
    }
}

/// How often `t` is among the first `n` recent tokens.
pub open spec fn occurrences(recent: Seq<u32>, t: int, n: nat) -> nat
    decreases n,
{
    if n == 0 || n > recent.len() {
        0
    } else {
        occurrences(recent, t, (n - 1) as nat) + (if recent[n - 1] == t {
            1nat
        } else {
            0nat
        })
    }
}

/// The logits after a penalty for being there and one for each time.
pub open spec fn with_presence(
    f: Ops,
    l: Seq<u32>,
    recent: Seq<u32>,
    presence: u32,
    frequency: u32,
) -> Seq<u32> {
    if equal(presence, 0) && equal(frequency, 0) {
        l
    } else {
        Seq::new(
            l.len(),
            |i: int|
                {
                    let n = occurrences(recent, i, recent.len());
                    if n > 0 {
                        minus(
                            f,
                            l[i],
                            plus(
                                f,
                                presence,
                                times(f, frequency, f(FloatOp::FromLong, n as u32, 0)),
                            ),
                        )
                    } else {
                        l[i]
                    }
                },
        )
    }
}

// ------------------------------------------------------------------------------- ranking

/// The last of the highest among the first `n` keys.
pub open spec fn highest(k: Seq<int>, n: nat) -> nat
    decreases n,
{
    if n <= 1 || n > k.len() {
        0
    } else {
        let b = highest(k, (n - 1) as nat);
        if k[n - 1] >= k[b as int] {
            (n - 1) as nat
        } else {
            b
        }
    }
}

/// No key is above the highest.
pub proof fn highest_is_highest(k: Seq<int>, n: nat)
    requires
        0 < n <= k.len(),
    ensures
        highest(k, n) < n,
        forall|i: int| 0 <= i < n ==> (#[trigger] k[i]) <= k[highest(k, n) as int],
    decreases n,
{
    if n > 1 {
        highest_is_highest(k, (n - 1) as nat);
    }
}

pub open spec fn orders(l: Seq<u32>) -> Seq<int> {
    Seq::new(l.len(), |i: int| total_order(l[i]))
}

/// The token of the highest logit, the last of several.
pub open spec fn argmax_of(l: Seq<u32>) -> u32 {
    highest(orders(l), l.len()) as u32
}

/// `s` with index `i` behind every index whose key is not lower.
pub open spec fn placed(s: Seq<usize>, k: Seq<int>, i: usize) -> Seq<usize>
    decreases s.len(),
{
    if s.len() == 0 {
        seq![i]
    } else if k[s.last() as int] < k[i as int] {
        placed(s.drop_last(), k, i).push(s.last())
    } else {
        s.push(i)
    }
}

/// The indices of the highest of the first `n` keys, at most `most` of them, highest first.
pub open spec fn top(k: Seq<int>, n: nat, most: nat) -> Seq<usize>
    decreases n,
{
    if n == 0 || n > k.len() {
        Seq::empty()
    } else {
        let s = placed(top(k, (n - 1) as nat, most), k, (n - 1) as usize);
        if s.len() > most {
            s.take(most as int)
        } else {
            s
        }
    }
}

/// Whether the keys of indices fall.
pub open spec fn falls(s: Seq<usize>, k: Seq<int>) -> bool {
    forall|a: int, b: int|
        0 <= a < b < s.len() ==> k[(#[trigger] s[a]) as int] >= k[(#[trigger] s[b]) as int]
}

proof fn placed_falls(s: Seq<usize>, k: Seq<int>, i: usize)
    requires
        falls(s, k),
    ensures
        falls(placed(s, k, i), k),
        placed(s, k, i).len() == s.len() + 1,
        forall|a: int|
            0 <= a < placed(s, k, i).len() ==> (#[trigger] placed(s, k, i)[a]) == i || s.contains(
                placed(s, k, i)[a],
            ),
        placed(s, k, i).contains(i),
        forall|x: usize| #[trigger] s.contains(x) ==> placed(s, k, i).contains(x),
    decreases s.len(),
{
    let r = placed(s, k, i);
    if s.len() == 0 {
        assert(r[0] == i);
    } else if k[s.last() as int] < k[i as int] {
        let d = s.drop_last();
        let q = placed(d, k, i);
        placed_falls(d, k, i);
        assert forall|a: int| 0 <= a < q.len() implies k[(#[trigger] q[a]) as int]
            >= k[s.last() as int] by {
            if q[a] != i {
                let z = choose|z: int| 0 <= z < d.len() && d[z] == q[a];
                assert(s[z] == q[a]);
            }
        }
        assert forall|a: int| 0 <= a < r.len() implies (#[trigger] r[a]) == i || s.contains(r[a]) by {
            if a < q.len() {
                assert(r[a] == q[a]);
                if q[a] != i {
                    let z = choose|z: int| 0 <= z < d.len() && d[z] == q[a];
                    assert(s[z] == r[a]);
                }
            } else {
                assert(s[s.len() - 1] == r[a]);
            }
        }
        let w = choose|w: int| 0 <= w < q.len() && q[w] == i;
        assert(r[w] == i);
        assert forall|x: usize| #[trigger] s.contains(x) implies r.contains(x) by {
            let z = choose|z: int| 0 <= z < s.len() && s[z] == x;
            if z < d.len() {
                assert(d[z] == x);
                assert(d.contains(x));
                let y = choose|y: int| 0 <= y < q.len() && q[y] == x;
                assert(r[y] == x);
            } else {
                assert(r[r.len() - 1] == x);
            }
        }
    } else {
        assert forall|a: int| 0 <= a < r.len() implies (#[trigger] r[a]) == i || s.contains(r[a]) by {
            if a < s.len() {
                assert(s[a] == r[a]);
            }
        }
        assert(r[s.len() as int] == i);
        assert forall|x: usize| #[trigger] s.contains(x) implies r.contains(x) by {
            let z = choose|z: int| 0 <= z < s.len() && s[z] == x;
            assert(r[z] == x);
        }
    }
}

/// The indices kept come highest first, and no index left out has a higher key than any of
/// them.
pub proof fn top_keeps_the_highest(k: Seq<int>, n: nat, most: nat)
    requires
        n <= k.len() <= usize::MAX,
    ensures
        falls(top(k, n, most), k),
        top(k, n, most).len() == if n < most {
            n
        } else {
            most
        },
        forall|a: int| 0 <= a < top(k, n, most).len() ==> (#[trigger] top(k, n, most)[a]) < n,
        forall|i: usize, a: int|
            i < n && !(#[trigger] top(k, n, most).contains(i)) && 0 <= a < top(k, n, most).len()
                ==> k[i as int] <= k[(#[trigger] top(k, n, most)[a]) as int],
    decreases n,
{
    if n > 0 {
        let p = (n - 1) as nat;
        let old_top = top(k, p, most);
        let new = (n - 1) as usize;
        top_keeps_the_highest(k, p, most);
        placed_falls(old_top, k, new);
        let s = placed(old_top, k, new);
        let r = top(k, n, most);
        assert forall|a: int| 0 <= a < s.len() implies (#[trigger] s[a]) < n by {
            if s[a] != new {
                let z = choose|z: int| 0 <= z < old_top.len() && old_top[z] == s[a];
                assert(old_top[z] < p);
            }
        }
        assert forall|a: int| 0 <= a < r.len() implies (#[trigger] r[a]) == s[a] by {}
        assert forall|i: usize, a: int|
            i < n && !(#[trigger] r.contains(i)) && 0 <= a < r.len() implies k[i as int]
            <= k[(#[trigger] r[a]) as int] by {
            assert(r[a] == s[a]);
            if s.contains(i) {
                let z = choose|z: int| 0 <= z < s.len() && s[z] == i;
                if z < r.len() {
                    assert(r[z] == i);
                }
                assert(a < z);
                assert(k[s[a] as int] >= k[s[z] as int]);
            } else {
                assert(i != new);
                assert(!old_top.contains(i));
                if old_top.len() < most {
                    // Nothing was left out yet.
                    all_are_there(k, p, most, i);
                } else if s[a] != new {
                    let z = choose|z: int| 0 <= z < old_top.len() && old_top[z] == s[a];
                    assert(k[i as int] <= k[old_top[z] as int]);
                } else if most > 0 {
                    // The new index pushed the last one out, so it is at least as high.
                    let last = s[s.len() - 1];
                    assert(s.len() == most + 1);
                    assert(k[s[a] as int] >= k[last as int]);
                    if last == new {
                        assert(r.len() == most);
                        assert(s[a] == new);
                        no_twice(k, p, most, new);
                        placed_once(old_top, k, new, a, s.len() - 1);
                    } else {
                        let z = choose|z: int| 0 <= z < old_top.len() && old_top[z] == last;
                        assert(k[i as int] <= k[old_top[z] as int]);
                    }
                }
            }
        }
    }
}

proof fn all_are_there(k: Seq<int>, n: nat, most: nat, i: usize)
    requires
        n <= k.len() <= usize::MAX,
        top(k, n, most).len() < most,
        i < n,
    ensures
        top(k, n, most).contains(i),
    decreases n,
{
    if n > 0 {
        let p = (n - 1) as nat;
        let old_top = top(k, p, most);
        top_falls(k, p, most);
        placed_falls(old_top, k, (n - 1) as usize);
        if i < p {
            all_are_there(k, p, most, i);
        }
    }
}

proof fn top_falls(k: Seq<int>, n: nat, most: nat)
    requires
        n <= k.len() <= usize::MAX,
    ensures
        falls(top(k, n, most), k),
        top(k, n, most).len() <= most,
        forall|a: int| 0 <= a < top(k, n, most).len() ==> (#[trigger] top(k, n, most)[a]) < n,
    decreases n,
{
    if n > 0 {
        let p = (n - 1) as nat;
        top_falls(k, p, most);
        let old_top = top(k, p, most);
        placed_falls(old_top, k, (n - 1) as usize);
        let s = placed(old_top, k, (n - 1) as usize);
        assert forall|a: int| 0 <= a < s.len() implies (#[trigger] s[a]) < n by {
            if s[a] != (n - 1) as usize {
                let z = choose|z: int| 0 <= z < old_top.len() && old_top[z] == s[a];
                assert(old_top[z] < p);
            }
        }
    }
}

proof fn no_twice(k: Seq<int>, n: nat, most: nat, i: usize)
    requires
        n <= k.len() <= usize::MAX,
        i >= n,
    ensures
        !top(k, n, most).contains(i),
{
    top_falls(k, n, most);
}

/// An index that was not there is put in one place only.
proof fn placed_once(s: Seq<usize>, k: Seq<int>, i: usize, a: int, b: int)
    requires
        !s.contains(i),
        0 <= a < b < placed(s, k, i).len(),
    ensures
        placed(s, k, i)[a] != i || placed(s, k, i)[b] != i,
    decreases s.len(),
{
    if s.len() > 0 {
        let d = s.drop_last();
        assert(!d.contains(i)) by {
            if d.contains(i) {
                let z = choose|z: int| 0 <= z < d.len() && d[z] == i;
                assert(s[z] == i);
            }
        }
        assert(s[s.len() - 1] != i);
        if k[s.last() as int] < k[i as int] {
            if b < placed(d, k, i).len() {
                placed_once(d, k, i, a, b);
            }
        } else {
            assert(a < s.len());
            assert(placed(s, k, i)[a] == s[a]);
        }
    }
}

// ---------------------------------------------------------------------------- candidates

/// A token and its probability.
pub type Candidates = Seq<(u32, u32)>;

/// The sum of the first `n` probabilities.
pub open spec fn mass(f: Ops, c: Candidates, n: nat) -> u32
    decreases n,
{
    if n == 0 || n > c.len() {
        0
    } else {
        plus(f, mass(f, c, (n - 1) as nat), c[n - 1].1)
    }
}

/// The probabilities scaled so that they add up to one.
pub open spec fn normal(f: Ops, c: Candidates) -> Candidates {
    let inv = over(f, UNIT, larger(mass(f, c, c.len()), TINY));
    Seq::new(c.len(), |i: int| (c[i].0, times(f, c[i].1, inv)))
}

/// The exponentials of the logits of indices, relative to that of the first.
pub open spec fn exponentials(f: Ops, l: Seq<u32>, s: Seq<usize>) -> Candidates {
    Seq::new(
        s.len(),
        |i: int| (s[i] as u32, f(FloatOp::Exp, minus(f, l[s[i] as int], l[s[0] as int]), 0)),
    )
}

/// At most `most` tokens, likeliest first, with their probabilities among themselves.
///
/// The softmax comes after the truncation, which is equivalent because the truncation is by
/// rank.
pub open spec fn softmax(f: Ops, l: Seq<u32>, most: nat) -> Candidates {
    normal(f, exponentials(f, l, top(orders(l), l.len(), most)))
}

/// How many tokens to keep at most: all of them where none is said.
pub open spec fn most_of(top_k: usize, n: nat) -> nat {
    if 0 < top_k < n {
        top_k as nat
    } else {
        n
    }
}

/// The first candidate from `i` on that is less likely than `floor`, or the end.
pub open spec fn first_below(c: Candidates, floor: u32, i: nat) -> nat
    decreases c.len() - i,
{
    if i >= c.len() || less(c[i as int].1, floor) {
        i
    } else {
        first_below(c, floor, i + 1)
    }
}

pub open spec fn keep(c: Candidates, n: nat) -> Candidates {
    let m = if n < 1 {
        1
    } else {
        n
    };
    if m < c.len() {
        c.take(m as int)
    } else {
        c
    }
}

/// The candidates that are at least `min_p` as likely as the likeliest.
pub open spec fn after_min_p(f: Ops, c: Candidates, min_p: u32) -> Candidates {
    if less(0, min_p) && c.len() > 0 {
        normal(f, keep(c, first_below(c, times(f, min_p, c[0].1), 0)))
    } else {
        c
    }
}

/// How many candidates, from the first on, it takes to reach the mass `p`.
pub open spec fn reaching(f: Ops, c: Candidates, p: u32, i: nat) -> nat
    decreases c.len() - i,
{
    if i >= c.len() {
        c.len()
    } else if at_most(p, mass(f, c, i + 1)) {
        i + 1
    } else {
        reaching(f, c, p, i + 1)
    }
}

pub open spec fn after_top_p(f: Ops, c: Candidates, top_p: u32) -> Candidates {
    if less(top_p, UNIT) {
        normal(f, keep(c, reaching(f, c, top_p, 0)))
    } else {
        c
    }
}

pub open spec fn ln(f: Ops, p: u32) -> u32 {
    f(FloatOp::Ln, larger(p, TINY), 0)
}

/// The sum of the first `n` probabilities times their logarithms.
pub open spec fn weighted(f: Ops, c: Candidates, n: nat) -> u32
    decreases n,
{
    if n == 0 || n > c.len() {
        0
    } else {
        plus(f, weighted(f, c, (n - 1) as nat), times(f, c[n - 1].1, ln(f, c[n - 1].1)))
    }
}

/// How far the surprise of each candidate is from the entropy, nearest highest.
pub open spec fn nearness(f: Ops, c: Candidates) -> Seq<int> {
    let entropy = negated(weighted(f, c, c.len()));
    Seq::new(
        c.len(),
        |i: int| -total_order(magnitude(minus(f, negated(ln(f, c[i].1)), entropy))),
    )
}

/// The mass of the first `n` candidates of an order.
pub open spec fn mass_in_order(f: Ops, c: Candidates, s: Seq<usize>, n: nat) -> u32
    decreases n,
{
    if n == 0 || n > s.len() {
        0
    } else {
        plus(f, mass_in_order(f, c, s, (n - 1) as nat), c[s[n - 1] as int].1)
    }
}

pub open spec fn reaching_in_order(f: Ops, c: Candidates, s: Seq<usize>, p: u32, i: nat) -> nat
    decreases s.len() - i,
{
    if i >= s.len() {
        s.len()
    } else if at_most(p, mass_in_order(f, c, s, i + 1)) {
        i + 1
    } else {
        reaching_in_order(f, c, s, p, i + 1)
    }
}

/// Those of the first `n` candidates that are kept, in their order.
pub open spec fn kept(c: Candidates, s: Seq<usize>, n: nat) -> Candidates
    decreases n,
{
    if n == 0 || n > c.len() {
        Seq::empty()
    } else {
        let rest = kept(c, s, (n - 1) as nat);
        if s.contains((n - 1) as usize) {
            rest.push(c[n - 1])
        } else {
            rest
        }
    }
}

/// Locally-typical sampling: the candidates whose surprise is closest to the distribution's
/// entropy, rather than simply the most likely ones.
pub open spec fn typical(f: Ops, c: Candidates, p: u32) -> Candidates {
    let s = top(nearness(f, c), c.len(), c.len());
    kept(c, s.take(reaching_in_order(f, c, s, p, 0) as int), c.len())
}

pub open spec fn after_typical(f: Ops, c: Candidates, p: u32) -> Candidates {
    if less(p, UNIT) {
        normal(f, typical(f, c, p))
    } else {
        c
    }
}

/// The first candidate from `i` on with which the mass passes `r`; the last where none does.
pub open spec fn drawn(f: Ops, c: Candidates, r: u32, i: nat) -> u32
    decreases c.len() - i,
{
    if c.len() == 0 {
        0
    } else if i >= c.len() {
        c.last().0
    } else if less(r, mass(f, c, i + 1)) {
        c[i as int].0
    } else {
        drawn(f, c, r, i + 1)
    }
}

/// What is drawn is one of the candidates.
pub proof fn drawn_is_a_candidate(f: Ops, c: Candidates, r: u32, i: nat)
    requires
        c.len() > 0,
    ensures
        exists|k: int| 0 <= k < c.len() && (#[trigger] c[k]).0 == drawn(f, c, r, i),
    decreases c.len() - i,
{
    if i >= c.len() {
        assert(c[c.len() - 1].0 == drawn(f, c, r, i));
    } else if less(r, mass(f, c, i + 1)) {
        assert(c[i as int].0 == drawn(f, c, r, i));
    } else {
        drawn_is_a_candidate(f, c, r, i + 1);
    }
}

// ------------------------------------------------------------------------------ Mirostat

/// How surprising a probability is.
pub open spec fn surprise(f: Ops, p: u32) -> u32 {
    negated(f(FloatOp::Log2, larger(p, TINY), 0))
}

/// The first candidate from `i` on that is more surprising than `mu`, at least one; all where
/// there is none.
pub open spec fn unsurprising(f: Ops, c: Candidates, mu: u32, i: nat) -> nat
    decreases c.len() - i,
{
    if i >= c.len() {
        c.len()
    } else if less(mu, surprise(f, c[i as int].1)) {
        if i < 1 {
            1
        } else {
            i
        }
    } else {
        unsurprising(f, c, mu, i + 1)
    }
}

/// The probability of a token among candidates from `i` on.
pub open spec fn likelihood(c: Candidates, id: u32, i: nat) -> u32
    decreases c.len() - i,
{
    if i >= c.len() {
        TINY
    } else if c[i as int].0 == id {
        c[i as int].1
    } else {
        likelihood(c, id, i + 1)
    }
}

pub open spec fn mirostat_choice(f: Ops, l: Seq<u32>, mu: u32, r: u32) -> u32 {
    let all = softmax(f, l, l.len());
    drawn(f, normal(f, all.take(unsurprising(f, all, mu, 0) as int)), r, 0)
}

/// The target after a token was chosen.
pub open spec fn mirostat_target(
    f: Ops,
    p: SampleParams,
    l: Seq<u32>,
    mu: u32,
    chosen: u32,
) -> u32 {
    let s = surprise(f, likelihood(softmax(f, l, l.len()), chosen, 0));
    minus(f, mu, times(f, p.mirostat_eta, minus(f, s, p.mirostat_tau)))
}

// ------------------------------------------------------------------------------ sampling

/// The logits after every penalty.
pub open spec fn penalized(f: Ops, p: SampleParams, recent: Seq<u32>, l: Seq<u32>) -> Seq<u32> {
    with_presence(
        f,
        with_repetition(f, cleaned(l), recent, p.repeat_penalty),
        recent,
        p.presence_penalty,
        p.frequency_penalty,
    )
}

pub open spec fn tempered(f: Ops, p: SampleParams, l: Seq<u32>) -> Seq<u32> {
    let inv = over(f, UNIT, p.temperature);
    Seq::new(l.len(), |i: int| times(f, l[i], inv))
}

/// The candidates after every truncation.
pub open spec fn candidates(f: Ops, p: SampleParams, l: Seq<u32>) -> Candidates {
    let c = softmax(f, l, most_of(p.top_k, l.len()));
    after_top_p(f, after_typical(f, after_min_p(f, c, p.min_p), p.typical_p), p.top_p)
}

/// A state of sampling.
pub struct SamplerView {
    pub params: SampleParams,
    pub rng: u64,
    pub mu: u32,
    pub recent: Seq<u32>,
}

/// The logits once they are cleaned and penalized and, unless the likeliest token is taken,
/// divided by the temperature.
pub open spec fn weighed(f: Ops, s: SamplerView, l: Seq<u32>) -> Seq<u32> {
    let a = penalized(f, s.params, s.recent, l);
    if at_most(s.params.temperature, 0) {
        a
    } else {
        tempered(f, s.params, a)
    }
}

/// The token that is sampled.
pub open spec fn sampled(f: Ops, s: SamplerView, l: Seq<u32>) -> u32 {
    let p = s.params;
    let a = penalized(f, p, s.recent, l);
    if at_most(p.temperature, 0) {
        argmax_of(a)
    } else {
        let t = tempered(f, p, a);
        let r = uniform(f, next_state(s.rng));
        if p.mirostat > 0 {
            mirostat_choice(f, t, s.mu, r)
        } else {
            drawn(f, candidates(f, p, t), r, 0)
        }
    }
}

/// The state after a token was sampled.
pub open spec fn after_sample(f: Ops, s: SamplerView, l: Seq<u32>) -> SamplerView {
    let p = s.params;
    let t = tempered(f, p, penalized(f, p, s.recent, l));
    if at_most(p.temperature, 0) {
        s
    } else if p.mirostat > 0 {
        SamplerView {
            rng: next_state(s.rng),
            mu: mirostat_target(f, p, t, s.mu, sampled(f, s, l)),
            ..s
        }
    } else {
        SamplerView { rng: next_state(s.rng), ..s }
    }
}

/// The last `n` elements.
pub open spec fn last_of(s: Seq<u32>, n: nat) -> Seq<u32> {
    if s.len() > n {
        s.skip(s.len() - n)
    } else {
        s
    }
}

/// How many recent tokens are remembered.
pub open spec fn window(p: SampleParams) -> nat {
    if p.repeat_last_n < 1 {
        1
    } else {
        p.repeat_last_n as nat
    }
}

#[derive(Debug)]
pub struct Sampler {
    pub params: SampleParams,
    pub rng: Rng,
    pub mirostat_mu: u32,
    /// Recently emitted tokens, used by the repetition penalties.
    pub recent: Vec<u32>,
}

impl View for Sampler {
    type V = SamplerView;

    open spec fn view(&self) -> SamplerView {
        SamplerView {
            params: self.params,
            rng: self.rng.state,
            mu: self.mirostat_mu,
            recent: self.recent@,
        }
    }
}

/// The state a sampler starts in.
pub open spec fn fresh(f: Ops, p: SampleParams) -> SamplerView {
    SamplerView {
        params: p,
        rng: seeded(p.seed),
        mu: times(f, TWO, p.mirostat_tau),
        recent: Seq::empty(),
    }
}

/// A state of sampling that remembers one more token.
pub open spec fn accepted(s: SamplerView, token: u32) -> SamplerView {
    SamplerView { recent: last_of(s.recent.push(token), window(s.params)), ..s }
}

/// The first `n` tokens that a sampler gives for logits, each one accepted, and its state
/// after them.
pub open spec fn stream(f: Ops, s: SamplerView, l: Seq<Seq<u32>>, n: nat) -> (Seq<u32>, SamplerView)
    decreases n,
{
    if n == 0 || n > l.len() {
        (Seq::empty(), s)
    } else {
        let (out, t) = stream(f, s, l, (n - 1) as nat);
        let token = sampled(f, t, l[n - 1]);
        let u = after_sample(f, t, l[n - 1]);
        (out.push(token), accepted(u, token))
    }
}

/// The logits among `draws` that go to the one sampler (`who`) or to the other.
pub open spec fn own_logits(draws: Seq<(bool, Seq<u32>)>, who: bool) -> Seq<Seq<u32>>
    decreases draws.len(),
{
    if draws.len() == 0 {
        Seq::empty()
    } else {
        let rest = own_logits(draws.drop_last(), who);
        if draws.last().0 == who {
            rest.push(draws.last().1)
        } else {
            rest
        }
    }
}

/// The tokens that two samplers give, and their states, when draws reach them in this order.
pub open spec fn interleaved(
    f: Ops,
    one: SamplerView,
    other: SamplerView,
    draws: Seq<(bool, Seq<u32>)>,
) -> ((Seq<u32>, SamplerView), (Seq<u32>, SamplerView))
    decreases draws.len(),
{
    if draws.len() == 0 {
        ((Seq::empty(), one), (Seq::empty(), other))
    } else {
        let (a, b) = interleaved(f, one, other, draws.drop_last());
        let (who, l) = draws.last();
        let (out, t) = if who {
            a
        } else {
            b
        };
        let token = sampled(f, t, l);
        let next = (out.push(token), accepted(after_sample(f, t, l), token));
        if who {
            (next, b)
        } else {
            (a, next)
        }
    }
}

/// What a sampler gives does not depend on the draws of another in between.
pub proof fn interleaving_does_not_matter(
    f: Ops,
    one: SamplerView,
    other: SamplerView,
    draws: Seq<(bool, Seq<u32>)>,
)
    ensures
        interleaved(f, one, other, draws).0 == stream(
            f,
            one,
            own_logits(draws, true),
            own_logits(draws, true).len(),
        ),
        interleaved(f, one, other, draws).1 == stream(
            f,
            other,
            own_logits(draws, false),
            own_logits(draws, false).len(),
        ),
    decreases draws.len(),
{
    if draws.len() > 0 {
        let rest = draws.drop_last();
        let (who, l) = draws.last();
        interleaving_does_not_matter(f, one, other, rest);
        let before = own_logits(rest, who);
        let s = if who {
            one
        } else {
            other
        };
        stream_of_more(f, s, before, l, before.len());
        assert(before.push(l)[before.len() as int] == l);
    }
}

/// Two requests with the same parameters, and so the same seed, that are given the same logits
/// get the same tokens, however their draws interleave.
pub proof fn same_seed_same_tokens(f: Ops, p: SampleParams, draws: Seq<(bool, Seq<u32>)>)
    requires
        own_logits(draws, true) == own_logits(draws, false),
    ensures
        interleaved(f, fresh(f, p), fresh(f, p), draws).0 == interleaved(
            f,
            fresh(f, p),
            fresh(f, p),
            draws,
        ).1,
{
    interleaving_does_not_matter(f, fresh(f, p), fresh(f, p), draws);
}

proof fn stream_of_more(f: Ops, s: SamplerView, l: Seq<Seq<u32>>, x: Seq<u32>, n: nat)
    requires
        n <= l.len(),
    ensures
        stream(f, s, l.push(x), n) == stream(f, s, l, n),
    decreases n,
{
    if n > 0 {
        stream_of_more(f, s, l, x, (n - 1) as nat);
        assert(l.push(x)[n - 1] == l[n - 1]);
    }
}

impl<A: Fn(FloatOp, u32, u32) -> u32> Arith<A> {
    fn clean(&self, l: &[u32]) -> (r: Vec<u32>)
        ensures
            r@ == cleaned(l@),
    {
        let mut out: Vec<u32> = Vec::new();
        let mut i: usize = 0;
        while i < l.len()
            invariant
                i <= l@.len(),
                out@ =~= cleaned(l@).take(i as int),
            decreases l@.len() - i,
        {
            out.push(
                if finite(l[i]) {
                    l[i]
                } else {
                    NEG_INFINITY
                },
            );
            i = i + 1;
        }
        assert(cleaned(l@).take(i as int) =~= cleaned(l@));
        out
    }

    fn apply_repetition(&self, l: &mut Vec<u32>, recent: &[u32], penalty: u32)
        requires
            self.works(),
        ensures
            final(l)@ == with_repetition(self.ops(), old(l)@, recent@, penalty),
    {
        if is_equal(penalty, UNIT) {
            return ;
        }
        let ghost f = self.ops();
        let ghost start = l@;
        let mut n: usize = 0;
        while n < recent.len()
            invariant
                self.works(),
                f == self.ops(),
                n <= recent@.len(),
                l@ == repeated(f, start, recent@, n as nat, penalty),
            decreases recent@.len() - n,
        {
            let t = recent[n] as usize;
            if t < l.len() {
                let v = l[t];
                let x = if is_less(0, v) {
                    self.run(FloatOp::Div, v, penalty)
                } else {
                    self.run(FloatOp::Mul, v, penalty)
                };
                l.set(t, x);
            }
            n = n + 1;
        }
    }

    fn apply_presence_frequency(&self, l: &Vec<u32>, recent: &[u32], presence: u32, frequency: u32) -> (r:
        Vec<u32>)
        requires
            self.works(),
        ensures
            r@ == with_presence(self.ops(), l@, recent@, presence, frequency),
    {
        let ghost f = self.ops();
        let ghost want = with_presence(f, l@, recent@, presence, frequency);
        let none = is_equal(presence, 0) && is_equal(frequency, 0);
        let counts = if none {
            Vec::new()
        } else {
            count_each(recent, l.len())
        };
        let mut out: Vec<u32> = Vec::new();
        let mut i: usize = 0;
        while i < l.len()
            invariant
                self.works(),
                f == self.ops(),
                none == (equal(presence, 0) && equal(frequency, 0)),
                want == with_presence(f, l@, recent@, presence, frequency),
                !none ==> counts@.len() == l@.len() && forall|k: int|
                    0 <= k < l@.len() ==> (#[trigger] counts@[k]) == occurrences(
                        recent@,
                        k,
                        recent@.len(),
                    ),
                i <= l@.len(),
                out@ =~= want.take(i as int),
            decreases l@.len() - i,
        {
            let v = l[i];
            let x = if !none && counts[i] > 0 {
                let n = self.run(FloatOp::FromLong, counts[i] as u32, 0);
                let p = self.run(FloatOp::Add, presence, self.run(FloatOp::Mul, frequency, n));
                self.run(FloatOp::Sub, v, p)
            } else {
                v
            };
            assert(x == want[i as int]);
            out.push(x);
            i = i + 1;
        }
        assert(want.take(i as int) =~= want);
        out
    }

    /// The sum of probabilities.
    fn mass_of(&self, c: &Vec<(u32, u32)>) -> (r: u32)
        requires
            self.works(),
        ensures
            r == mass(self.ops(), c@, c@.len()),
    {
        let mut sum: u32 = 0;
        let mut i: usize = 0;
        while i < c.len()
            invariant
                self.works(),
                i <= c@.len(),
                sum == mass(self.ops(), c@, i as nat),
            decreases c@.len() - i,
        {
            sum = self.run(FloatOp::Add, sum, c[i].1);
            i = i + 1;
        }
        sum
    }

    fn renormalize(&self, c: &Vec<(u32, u32)>) -> (r: Vec<(u32, u32)>)
        requires
            self.works(),
        ensures
            r@ == normal(self.ops(), c@),
    {
        let ghost want = normal(self.ops(), c@);
        let sum = self.mass_of(c);
        let inv = self.run(FloatOp::Div, UNIT, larger_of(sum, TINY));
        let mut out: Vec<(u32, u32)> = Vec::new();
        let mut i: usize = 0;
        while i < c.len()
            invariant
                self.works(),
                want == normal(self.ops(), c@),
                inv == over(self.ops(), UNIT, larger(mass(self.ops(), c@, c@.len()), TINY)),
                i <= c@.len(),
                out@ =~= want.take(i as int),
            decreases c@.len() - i,
        {
            out.push((c[i].0, self.run(FloatOp::Mul, c[i].1, inv)));
            i = i + 1;
        }
        assert(want.take(i as int) =~= want);
        out
    }

    /// Sorts by logit, keeps at most `most`, then softmaxes just those.
    fn sorted_softmax(&self, l: &Vec<u32>, most: usize) -> (r: Vec<(u32, u32)>)
        requires
            self.works(),
        ensures
            r@ == softmax(self.ops(), l@, most as nat),
    {
        let ghost f = self.ops();
        let keys = keys_of(l);
        let s = best_indices(&keys, most);
        let ghost k = orders(l@);
        proof {
            assert(int_keys(keys@) =~= k);
            let n = l.len();
            top_falls(k, n as nat, most as nat);
        }
        let ghost want = exponentials(f, l@, s@);
        let mut out: Vec<(u32, u32)> = Vec::new();
        let mut i: usize = 0;
        while i < s.len()
            invariant
                self.works(),
                f == self.ops(),
                want == exponentials(f, l@, s@),
                forall|a: int| 0 <= a < s@.len() ==> (#[trigger] s@[a]) < l@.len(),
                i <= s@.len(),
                out@ =~= want.take(i as int),
            decreases s@.len() - i,
        {
            let at = s[i];
            let first = s[0];
            let x = self.run(FloatOp::Exp, self.run(FloatOp::Sub, l[at], l[first]), 0);
            out.push((at as u32, x));
            i = i + 1;
        }
        assert(want.take(i as int) =~= want);
        self.renormalize(&out)
    }

    fn min_p(&self, c: Vec<(u32, u32)>, min_p: u32) -> (r: Vec<(u32, u32)>)
        requires
            self.works(),
        ensures
            r@ == after_min_p(self.ops(), c@, min_p),
    {
        if !is_less(0, min_p) || c.len() == 0 {
            return c;
        }
        let floor = self.run(FloatOp::Mul, min_p, c[0].1);
        let mut i: usize = 0;
        while i < c.len() && !is_less(c[i].1, floor)
            invariant
                i <= c@.len(),
                first_below(c@, floor, 0) == first_below(c@, floor, i as nat),
            decreases c@.len() - i,
        {
            i = i + 1;
        }
        self.renormalize(&truncate(&c, i))
    }

    fn top_p(&self, c: Vec<(u32, u32)>, top_p: u32) -> (r: Vec<(u32, u32)>)
        requires
            self.works(),
        ensures
            r@ == after_top_p(self.ops(), c@, top_p),
    {
        if !is_less(top_p, UNIT) {
            return c;
        }
        let ghost f = self.ops();
        let mut cum: u32 = 0;
        let mut n: usize = c.len();
        let mut i: usize = 0;
        while i < c.len()
            invariant_except_break
                n == c@.len(),
                cum == mass(f, c@, i as nat),
                reaching(f, c@, top_p, 0) == reaching(f, c@, top_p, i as nat),
            invariant
                self.works(),
                f == self.ops(),
                i <= c@.len(),
            ensures
                n == reaching(f, c@, top_p, 0),
            decreases c@.len() - i,
        {
            cum = self.run(FloatOp::Add, cum, c[i].1);
            if is_at_most(top_p, cum) {
                n = i + 1;
                break;
            }
            i = i + 1;
        }
        self.renormalize(&truncate(&c, n))
    }

    fn logarithm(&self, p: u32) -> (r: u32)
        requires
            self.works(),
        ensures
            r == ln(self.ops(), p),
    {
        self.run(FloatOp::Ln, larger_of(p, TINY), 0)
    }

    fn typical_filter(&self, c: Vec<(u32, u32)>, p: u32) -> (r: Vec<(u32, u32)>)
        requires
            self.works(),
        ensures
            r@ == after_typical(self.ops(), c@, p),
    {
        if !is_less(p, UNIT) {
            return c;
        }
        let ghost f = self.ops();
        let mut sum: u32 = 0;
        let mut i: usize = 0;
        while i < c.len()
            invariant
                self.works(),
                f == self.ops(),
                i <= c@.len(),
                sum == weighted(f, c@, i as nat),
            decreases c@.len() - i,
        {
            let x = self.run(FloatOp::Mul, c[i].1, self.logarithm(c[i].1));
            sum = self.run(FloatOp::Add, sum, x);
            i = i + 1;
        }
        let entropy = neg_of(sum);
        let ghost near = nearness(f, c@);
        let mut keys: Vec<i64> = Vec::new();
        let mut j: usize = 0;
        while j < c.len()
            invariant
                self.works(),
                f == self.ops(),
                entropy == negated(weighted(f, c@, c@.len())),
                near == nearness(f, c@),
                j <= c@.len(),
                int_keys(keys@) =~= near.take(j as int),
            decreases c@.len() - j,
        {
            let ghost before = int_keys(keys@);
            let x = self.run(FloatOp::Sub, neg_of(self.logarithm(c[j].1)), entropy);
            let key = -order_of(abs_of(x));
            keys.push(key);
            j = j + 1;
            assert(int_keys(keys@) =~= before.push(key as int));
            assert(key == near[j - 1]);
        }
        assert(near.take(j as int) =~= near);
        let s = best_indices(&keys, c.len());
        proof {
            let n = c.len();
            top_falls(near, n as nat, n as nat);
        }
        let mut cum: u32 = 0;
        let mut n: usize = s.len();
        let mut k: usize = 0;
        while k < s.len()
            invariant_except_break
                n == s@.len(),
                cum == mass_in_order(f, c@, s@, k as nat),
                reaching_in_order(f, c@, s@, p, 0) == reaching_in_order(f, c@, s@, p, k as nat),
            invariant
                self.works(),
                f == self.ops(),
                forall|a: int| 0 <= a < s@.len() ==> (#[trigger] s@[a]) < c@.len(),
                k <= s@.len(),
            ensures
                n == reaching_in_order(f, c@, s@, p, 0),
                n <= s@.len(),
            decreases s@.len() - k,
        {
            cum = self.run(FloatOp::Add, cum, c[s[k]].1);
            if is_at_most(p, cum) {
                n = k + 1;
                break;
            }
            k = k + 1;
        }
        let out = keep_marked(&c, &s, n);
        self.renormalize(&out)
    }

    fn draw(&self, c: &Vec<(u32, u32)>, r: u32) -> (id: u32)
        requires
            self.works(),
        ensures
            id == drawn(self.ops(), c@, r, 0),
    {
        let ghost f = self.ops();
        let mut cum: u32 = 0;
        let mut i: usize = 0;
        while i < c.len()
            invariant
                self.works(),
                f == self.ops(),
                i <= c@.len(),
                cum == mass(f, c@, i as nat),
                drawn(f, c@, r, 0) == drawn(f, c@, r, i as nat),
            decreases c@.len() - i,
        {
            cum = self.run(FloatOp::Add, cum, c[i].1);
            if is_less(r, cum) {
                return c[i].0;
            }
            i = i + 1;
        }
        if c.len() == 0 {
            0
        } else {
            c[c.len() - 1].0
        }
    }

    fn surprise_of(&self, p: u32) -> (r: u32)
        requires
            self.works(),
        ensures
            r == surprise(self.ops(), p),
    {
        neg_of(self.run(FloatOp::Log2, larger_of(p, TINY), 0))
    }

    /// The token that Mirostat chooses and the probability it had among all.
    fn mirostat_pick(&self, l: &Vec<u32>, mu: u32, r: u32) -> (x: (u32, u32))
        requires
            self.works(),
        ensures
            x.0 == mirostat_choice(self.ops(), l@, mu, r),
            x.1 == likelihood(softmax(self.ops(), l@, l@.len()), x.0, 0),
    {
        let ghost f = self.ops();
        let all = self.sorted_softmax(l, l.len());
        let mut n: usize = all.len();
        let mut i: usize = 0;
        while i < all.len()
            invariant_except_break
                n == all@.len(),
                unsurprising(f, all@, mu, 0) == unsurprising(f, all@, mu, i as nat),
            invariant
                self.works(),
                f == self.ops(),
                i <= all@.len(),
            ensures
                n == unsurprising(f, all@, mu, 0),
                n <= all@.len(),
            decreases all@.len() - i,
        {
            if is_less(mu, self.surprise_of(all[i].1)) {
                n = if i < 1 {
                    1
                } else {
                    i
                };
                break;
            }
            i = i + 1;
        }
        let cands = self.renormalize(&first_n(&all, n));
        let chosen = self.draw(&cands, r);
        let mut k: usize = 0;
        while k < all.len()
            invariant
                f == self.ops(),
                all@ == softmax(f, l@, l@.len()),
                chosen == mirostat_choice(f, l@, mu, r),
                k <= all@.len(),
                likelihood(all@, chosen, 0) == likelihood(all@, chosen, k as nat),
            decreases all@.len() - k,
        {
            if all[k].0 == chosen {
                return (chosen, all[k].1);
            }
            k = k + 1;
        }
        (chosen, TINY)
    }
}

/// How often each token is among the recent ones.
fn count_each(recent: &[u32], n: usize) -> (r: Vec<usize>)
    ensures
        r@.len() == n,
        forall|k: int|
            0 <= k < n ==> (#[trigger] r@[k]) == occurrences(recent@, k, recent@.len()),
{
    let mut out: Vec<usize> = Vec::new();
    let mut j: usize = 0;
    while j < n
        invariant
            j <= n,
            out@.len() == j,
            forall|k: int| 0 <= k < j ==> (#[trigger] out@[k]) == 0,
        decreases n - j,
    {
        out.push(0);
        j = j + 1;
    }
    let mut i: usize = 0;
    while i < recent.len()
        invariant
            i <= recent@.len(),
            out@.len() == n,
            forall|k: int|
                0 <= k < n ==> (#[trigger] out@[k]) == occurrences(recent@, k, i as nat) && out@[k]
                    <= i,
        decreases recent@.len() - i,
    {
        let t = recent[i] as usize;
        if t < n {
            let x = out[t];
            out.set(t, x + 1);
        }
        i = i + 1;
    }
    out
}

pub open spec fn int_keys(k: Seq<i64>) -> Seq<int> {
    Seq::new(k.len(), |i: int| k[i] as int)
}

pub fn keys_of(l: &Vec<u32>) -> (r: Vec<i64>)
    ensures
        int_keys(r@) == orders(l@),
        r@.len() == l@.len(),
{
    let mut out: Vec<i64> = Vec::new();
    let mut i: usize = 0;
    while i < l.len()
        invariant
            i <= l@.len(),
            out@.len() == i,
            forall|k: int| 0 <= k < i ==> (#[trigger] out@[k]) == total_order(l@[k]),
        decreases l@.len() - i,
    {
        out.push(order_of(l[i]));
        i = i + 1;
    }
    assert(int_keys(out@) =~= orders(l@));
    out
}

/// The token of the highest logit, the last of several.
fn argmax(l: &Vec<u32>) -> (r: u32)
    ensures
        r == argmax_of(l@),
{
    let ghost k = orders(l@);
    let mut b: usize = 0;
    let mut n: usize = 1;
    while n < l.len()
        invariant
            k == orders(l@),
            1 <= n,
            l@.len() > 0 ==> n <= l@.len() && b < n,
            l@.len() == 0 ==> n == 1 && b == 0,
            b == highest(k, n as nat),
        decreases l@.len() - n,
    {
        if order_of(l[n]) >= order_of(l[b]) {
            b = n;
        }
        n = n + 1;
    }
    b as u32
}

/// Puts index `i` behind every index whose key is not lower.
fn place(s: &mut Vec<usize>, keys: &Vec<i64>, i: usize)
    requires
        i < keys@.len(),
        forall|a: int| 0 <= a < old(s)@.len() ==> (#[trigger] old(s)@[a]) < keys@.len(),
    ensures
        final(s)@ == placed(old(s)@, int_keys(keys@), i),
{
    let ghost v = s@;
    let ghost k = int_keys(keys@);
    let mut p: usize = s.len();
    assert(v.take(p as int) =~= v);
    assert(placed(v, k, i) + v.skip(p as int) =~= placed(v, k, i));
    while p > 0
        invariant
            p <= s@.len(),
            v == s@,
            k == int_keys(keys@),
            i < keys@.len(),
            forall|a: int| 0 <= a < v.len() ==> (#[trigger] v[a]) < keys@.len(),
            placed(v, k, i) == placed(v.take(p as int), k, i) + v.skip(p as int),
        ensures
            p <= s@.len(),
            placed(v, k, i) == placed(v.take(p as int), k, i) + v.skip(p as int),
            p == 0 || k[v[p - 1] as int] >= k[i as int],
        decreases p,
    {
        let other = s[p - 1];
        let ghost d = v.take(p as int);
        assert(d.last() == v[p - 1]);
        if keys[other] < keys[i] {
            assert(d.drop_last() =~= v.take(p - 1));
            assert(placed(d.drop_last(), k, i).push(d.last()) + v.skip(p as int) =~= placed(
                v.take(p - 1),
                k,
                i,
            ) + v.skip(p - 1));
            p = p - 1;
        } else {
            break;
        }
    }
    proof {
        let d = v.take(p as int);
        if p > 0 {
            assert(d.last() == v[p - 1]);
        }
        assert(placed(d, k, i) =~= d.push(i));
    }
    s.insert(p, i);
    assert(s@ =~= v.take(p as int).push(i) + v.skip(p as int));
}

/// The indices of the highest keys, at most `most` of them, highest first.
pub fn best_indices(keys: &Vec<i64>, most: usize) -> (s: Vec<usize>)
    ensures
        s@ == top(int_keys(keys@), keys@.len(), most as nat),
{
    let ghost k = int_keys(keys@);
    let mut s: Vec<usize> = Vec::new();
    let mut i: usize = 0;
    while i < keys.len()
        invariant
            k == int_keys(keys@),
            i <= keys@.len(),
            s@ == top(k, i as nat, most as nat),
        decreases keys@.len() - i,
    {
        let len = keys.len();
        proof {
            top_falls(k, i as nat, most as nat);
            placed_falls(s@, k, i);
        }
        // A key that is not above the last one kept would only be dropped again.
        if s.len() == most && most > 0 && keys[s[most - 1]] >= keys[i] {
            assert(placed(s@, k, i) == s@.push(i));
            assert(s@.push(i).take(most as int) =~= s@);
        } else {
            place(&mut s, keys, i);
            if s.len() > most {
                let ghost before = s@;
                s.pop();
                assert(s@ =~= before.take(most as int));
            }
        }
        i = i + 1;
    }
    s
}

/// The first `n` candidates.
fn first_n(c: &Vec<(u32, u32)>, n: usize) -> (r: Vec<(u32, u32)>)
    requires
        n <= c@.len(),
    ensures
        r@ == c@.take(n as int),
{
    let mut out: Vec<(u32, u32)> = Vec::new();
    let mut i: usize = 0;
    while i < n
        invariant
            i <= n <= c@.len(),
            out@ =~= c@.take(i as int),
        decreases n - i,
    {
        out.push(c[i]);
        i = i + 1;
    }
    out
}

/// The first `n` candidates, at least one.
fn truncate(c: &Vec<(u32, u32)>, n: usize) -> (r: Vec<(u32, u32)>)
    ensures
        r@ == keep(c@, n as nat),
{
    let m = if n < 1 {
        1
    } else {
        n
    };
    if m < c.len() {
        first_n(c, m)
    } else {
        assert(c@.take(c@.len() as int) =~= c@);
        first_n(c, c.len())
    }
}

/// The candidates whose indices are among the first `n` of `s`, in their order.
fn keep_marked(c: &Vec<(u32, u32)>, s: &Vec<usize>, n: usize) -> (r: Vec<(u32, u32)>)
    requires
        n <= s@.len(),
    ensures
        r@ == kept(c@, s@.take(n as int), c@.len()),
{
    let ghost t = s@.take(n as int);
    let mut out: Vec<(u32, u32)> = Vec::new();
    let mut i: usize = 0;
    while i < c.len()
        invariant
            n <= s@.len(),
            t == s@.take(n as int),
            i <= c@.len(),
            out@ == kept(c@, t, i as nat),
        decreases c@.len() - i,
    {
        let mut found = false;
        let mut j: usize = 0;
        while j < n
            invariant
                n <= s@.len(),
                t == s@.take(n as int),
                j <= n,
                found ==> t.contains(i),
                !found ==> forall|a: int| 0 <= a < j ==> #[trigger] t[a] != i,
            decreases n - j,
        {
            if s[j] == i {
                assert(t[j as int] == i);
                found = true;
            }
            j = j + 1;
        }
        if found {
            out.push(c[i]);
        }
        i = i + 1;
    }
    out
}

impl Sampler {
    pub fn new<A: Fn(FloatOp, u32, u32) -> u32>(params: SampleParams, m: &Arith<A>) -> (r: Self)
        requires
            m.works(),
        ensures
            r@ == fresh(m.ops(), params),
    {
        let r = Sampler {
            params,
            rng: Rng::new(params.seed),
            mirostat_mu: m.run(FloatOp::Mul, TWO, params.mirostat_tau),
            recent: Vec::new(),
        };
        assert(r@.recent =~= Seq::empty());
        r
    }

    /// Remembers a token, and forgets those that fall out of the window.
    pub fn accept(&mut self, token: u32)
        ensures
            final(self)@ == accepted(old(self)@, token),
    {
        let ghost before = self.recent@.push(token);
        self.recent.push(token);
        let keep = if self.params.repeat_last_n < 1 {
            1
        } else {
            self.params.repeat_last_n
        };
        if self.recent.len() > keep {
            let drop = self.recent.len() - keep;
            let mut left: Vec<u32> = Vec::new();
            let mut i: usize = drop;
            while i < self.recent.len()
                invariant
                    self.recent@ == before,
                    drop <= i <= before.len(),
                    left@ =~= before.subrange(drop as int, i as int),
                decreases before.len() - i,
            {
                left.push(self.recent[i]);
                i = i + 1;
            }
            assert(left@ =~= before.skip(drop as int));
            self.recent = left;
        }
    }

    /// Forgets every token, but not where the random stream is.
    pub fn reset<A: Fn(FloatOp, u32, u32) -> u32>(&mut self, m: &Arith<A>)
        requires
            m.works(),
        ensures
            final(self)@ == (SamplerView {
                recent: Seq::empty(),
                mu: times(m.ops(), TWO, old(self)@.params.mirostat_tau),
                ..old(self)@
            }),
    {
        self.recent = Vec::new();
        self.mirostat_mu = m.run(FloatOp::Mul, TWO, self.params.mirostat_tau);
        assert(self@.recent =~= Seq::empty());
    }

    /// The next token, from the logits of all tokens, which are left penalized and divided by
    /// the temperature.
    pub fn sample<A: Fn(FloatOp, u32, u32) -> u32>(
        &mut self,
        logits: &mut Vec<u32>,
        m: &Arith<A>,
    ) -> (r: u32)
        requires
            m.works(),
        ensures
            r == sampled(m.ops(), old(self)@, old(logits)@),
            final(self)@ == after_sample(m.ops(), old(self)@, old(logits)@),
            final(logits)@ == weighed(m.ops(), old(self)@, old(logits)@),
    {
        let ghost f = m.ops();
        let p = self.params;
        let mut l = m.clean(logits.as_slice());
        m.apply_repetition(&mut l, self.recent.as_slice(), p.repeat_penalty);
        let l = m.apply_presence_frequency(
            &l,
            self.recent.as_slice(),
            p.presence_penalty,
            p.frequency_penalty,
        );
        assert(l@ == penalized(f, p, self.recent@, logits@));
        if is_at_most(p.temperature, 0) {
            let best = argmax(&l);
            *logits = l;
            return best;
        }
        let inv = m.run(FloatOp::Div, UNIT, p.temperature);
        let ghost want = tempered(f, p, l@);
        let mut t: Vec<u32> = Vec::new();
        let mut i: usize = 0;
        while i < l.len()
            invariant
                m.works(),
                f == m.ops(),
                inv == over(f, UNIT, p.temperature),
                want == tempered(f, p, l@),
                i <= l@.len(),
                t@ =~= want.take(i as int),
            decreases l@.len() - i,
        {
            t.push(m.run(FloatOp::Mul, l[i], inv));
            i = i + 1;
        }
        assert(want.take(i as int) =~= want);
        let r = self.rng.uniform(m);
        if p.mirostat > 0 {
            let (chosen, likely) = m.mirostat_pick(&t, self.mirostat_mu, r);
            let s = m.surprise_of(likely);
            let by = m.run(
                FloatOp::Mul,
                p.mirostat_eta,
                m.run(FloatOp::Sub, s, p.mirostat_tau),
            );
            self.mirostat_mu = m.run(FloatOp::Sub, self.mirostat_mu, by);
            *logits = t;
            return chosen;
        }
        let most = if 0 < p.top_k && p.top_k < t.len() {
            p.top_k
        } else {
            t.len()
        };
        let c = m.sorted_softmax(&t, most);
        let c = m.min_p(c, p.min_p);
        let c = m.typical_filter(c, p.typical_p);
        let c = m.top_p(c, p.top_p);
        *logits = t;
        m.draw(&c, r)
    }
}

} // verus!
