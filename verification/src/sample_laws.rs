//! What sampling is for, as relations between logits, parameters and draws.

use vstd::prelude::*;

use crate::sample::{
    accepted, after_min_p, after_sample, after_top_p, after_typical, cleaned, drawn, exponentials,
    first_below, highest, kept, mass, mass_in_order, most_of, nearness, normal, occurrences, orders,
    penalized, pushed_down, reaching, reaching_in_order, repeated, sampled, softmax, surprise, top,
    top_keeps_the_highest, typical, weighed, weighted, Candidates, SampleParams, SamplerView, TINY,
    TWO,
};
use crate::single::{
    at_most, equal, is_finite, larger, less, magnitude, minus, negated, over, plus, times,
    total_order, FloatOp, Ops, NEG_INFINITY, UNIT,
};

verus! {

// --------------------------------------------------------------------------- temperature

/// The same state at another temperature.
pub open spec fn at_temperature(s: SamplerView, t: u32) -> SamplerView {
    SamplerView { params: SampleParams { temperature: t, ..s.params }, ..s }
}

/// Whether dividing `x` by `t` loses nothing.
pub open spec fn divides(f: Ops, x: u32, t: u32) -> bool {
    times(f, t, times(f, x, over(f, UNIT, t))) == x
}

/// A positive temperature divides the logits: what is left, times the temperature, is what a
/// sampler without one leaves.
pub proof fn temperature_divides(f: Ops, s: SamplerView, l: Seq<u32>, i: int)
    requires
        !at_most(s.params.temperature, 0),
        0 <= i < l.len(),
        divides(f, weighed(f, at_temperature(s, 0), l)[i], s.params.temperature),
    ensures
        times(f, s.params.temperature, weighed(f, s, l)[i]) == weighed(
            f,
            at_temperature(s, 0),
            l,
        )[i],
        weighed(f, s, l).len() == l.len(),
{
    penalized_keeps_len(f, s, l);
}

/// Half the temperature doubles every logit, so that the gap between two of them grows.
pub proof fn half_the_temperature_doubles(
    f: Ops,
    s: SamplerView,
    l: Seq<u32>,
    warm: u32,
    cool: u32,
    i: int,
)
    requires
        !at_most(warm, 0),
        !at_most(cool, 0),
        over(f, UNIT, cool) == times(f, TWO, over(f, UNIT, warm)),
        forall|a: u32, b: u32| #[trigger] times(f, a, times(f, TWO, b)) == times(f, TWO, times(f, a, b)),
        0 <= i < l.len(),
    ensures
        weighed(f, at_temperature(s, cool), l)[i] == times(
            f,
            TWO,
            weighed(f, at_temperature(s, warm), l)[i],
        ),
{
    penalized_keeps_len(f, s, l);
}

proof fn penalized_keeps_len(f: Ops, s: SamplerView, l: Seq<u32>)
    ensures
        penalized(f, s.params, s.recent, l).len() == l.len(),
{
    repeated_keeps_len(f, cleaned(l), s.recent, s.recent.len(), s.params.repeat_penalty);
}

proof fn repeated_keeps_len(f: Ops, l: Seq<u32>, recent: Seq<u32>, n: nat, penalty: u32)
    ensures
        repeated(f, l, recent, n, penalty).len() == l.len(),
    decreases n,
{
    if n > 0 && n <= recent.len() {
        repeated_keeps_len(f, l, recent, (n - 1) as nat, penalty);
    }
}

/// Without a temperature the highest logit wins, the last of several.
pub proof fn without_a_temperature_the_highest_wins(f: Ops, s: SamplerView, l: Seq<u32>)
    requires
        at_most(s.params.temperature, 0),
        0 < l.len() <= u32::MAX,
    ensures
        sampled(f, s, l) < l.len(),
        forall|i: int|
            0 <= i < l.len() ==> total_order(#[trigger] weighed(f, s, l)[i]) <= total_order(
                weighed(f, s, l)[sampled(f, s, l) as int],
            ),
        forall|i: int|
            sampled(f, s, l) < i < l.len() ==> total_order(#[trigger] weighed(f, s, l)[i])
                < total_order(weighed(f, s, l)[sampled(f, s, l) as int]),
        after_sample(f, s, l) == s,
{
    penalized_keeps_len(f, s, l);
    let a = penalized(f, s.params, s.recent, l);
    let k = orders(a);
    highest_is_last(k, k.len());
    assert forall|i: int| 0 <= i < l.len() implies k[i] == total_order(#[trigger] a[i]) by {}
}

proof fn highest_is_last(k: Seq<int>, n: nat)
    requires
        0 < n <= k.len(),
    ensures
        highest(k, n) < n,
        forall|i: int| 0 <= i < n ==> (#[trigger] k[i]) <= k[highest(k, n) as int],
        forall|i: int| highest(k, n) < i < n ==> (#[trigger] k[i]) < k[highest(k, n) as int],
    decreases n,
{
    if n > 1 {
        highest_is_last(k, (n - 1) as nat);
    }
}

// ------------------------------------------------------------------------------ penalties

/// A logit that is not finite never counts, and one of a token that was not seen lately stays as it
/// is.
pub proof fn what_was_not_seen_is_not_penalized(f: Ops, s: SamplerView, l: Seq<u32>, i: int)
    requires
        0 <= i < l.len(),
        i <= u32::MAX,
        forall|k: int| 0 <= k < s.recent.len() ==> (#[trigger] s.recent[k]) != i,
    ensures
        weighed(f, at_temperature(s, 0), l)[i] == if is_finite(l[i]) {
            l[i]
        } else {
            NEG_INFINITY
        },
{
    penalized_keeps_len(f, s, l);
    unseen_is_kept(f, cleaned(l), s.recent, s.recent.len(), s.params.repeat_penalty, i);
    never_seen(s.recent, i, s.recent.len());
}

proof fn unseen_is_kept(f: Ops, l: Seq<u32>, recent: Seq<u32>, n: nat, penalty: u32, i: int)
    requires
        0 <= i < l.len(),
        forall|k: int| 0 <= k < recent.len() ==> (#[trigger] recent[k]) != i,
    ensures
        repeated(f, l, recent, n, penalty)[i] == l[i],
    decreases n,
{
    if n > 0 && n <= recent.len() {
        unseen_is_kept(f, l, recent, (n - 1) as nat, penalty, i);
        repeated_keeps_len(f, l, recent, (n - 1) as nat, penalty);
        assert(recent[n - 1] != i);
    }
}

proof fn never_seen(recent: Seq<u32>, i: int, n: nat)
    requires
        forall|k: int| 0 <= k < recent.len() ==> (#[trigger] recent[k]) != i,
    ensures
        occurrences(recent, i, n) == 0,
    decreases n,
{
    if n > 0 && n <= recent.len() {
        never_seen(recent, i, (n - 1) as nat);
    }
}

/// The same state with other recent tokens.
pub open spec fn having_seen(s: SamplerView, recent: Seq<u32>) -> SamplerView {
    SamplerView { recent, ..s }
}

/// Whether a penalty moves every number down: dividing does it above zero, multiplying below.
pub open spec fn lowers(f: Ops, penalty: u32) -> bool {
    &&& forall|v: u32| #[trigger] less(0, v) ==> at_most(over(f, v, penalty), v)
    &&& forall|v: u32| at_most(v, 0) ==> at_most(#[trigger] times(f, v, penalty), v)
}

/// A token that is seen once more never gains by it, and no other token is touched.
pub proof fn a_repeated_token_never_gains(
    f: Ops,
    s: SamplerView,
    l: Seq<u32>,
    token: u32,
    i: int,
)
    requires
        0 <= i < l.len(),
        equal(s.params.presence_penalty, 0),
        equal(s.params.frequency_penalty, 0),
        lowers(f, s.params.repeat_penalty),
    ensures
        ({
            let before = weighed(f, at_temperature(s, 0), l)[i];
            let after = weighed(
                f,
                at_temperature(having_seen(s, s.recent.push(token)), 0),
                l,
            )[i];
            &&& i != token ==> after == before
            &&& i == token && !crate::single::is_nan(before) ==> at_most(after, before)
        }),
{
    let p = s.params.repeat_penalty;
    let c = cleaned(l);
    let more = s.recent.push(token);
    let n = s.recent.len();
    repeated_of_more(f, c, s.recent, token, n, p);
    repeated_keeps_len(f, c, s.recent, n, p);
    let before = repeated(f, c, s.recent, n, p);
    assert(repeated(f, c, more, n + 1, p) == if token < before.len() {
        before.update(token as int, pushed_down(f, before[token as int], p))
    } else {
        before
    });
    let v = before[i];
    if i == token && !crate::single::is_nan(v) && !equal(p, UNIT) {
        assert(less(0, v) || at_most(v, 0));
        assert(at_most(v, 0) ==> at_most(times(f, v, p), v));
    }
}

proof fn repeated_of_more(f: Ops, l: Seq<u32>, recent: Seq<u32>, token: u32, n: nat, penalty: u32)
    requires
        n <= recent.len(),
    ensures
        repeated(f, l, recent.push(token), n, penalty) == repeated(f, l, recent, n, penalty),
    decreases n,
{
    if n > 0 {
        repeated_of_more(f, l, recent, token, (n - 1) as nat, penalty);
        assert(recent.push(token)[n - 1] == recent[n - 1]);
    }
}

/// Dividing by the penalty above zero, and multiplying below, is all that one sighting does: it can
/// be undone.
pub proof fn a_repetition_can_be_undone(f: Ops, s: SamplerView, l: Seq<u32>, token: u32)
    requires
        token < l.len(),
        is_finite(l[token as int]),
        s.recent == seq![token],
        equal(s.params.presence_penalty, 0),
        equal(s.params.frequency_penalty, 0),
        !equal(s.params.repeat_penalty, UNIT),
    ensures
        ({
            let p = s.params.repeat_penalty;
            let old_one = l[token as int];
            let new_one = weighed(f, at_temperature(s, 0), l)[token as int];
            &&& less(0, old_one) && times(f, over(f, old_one, p), p) == old_one ==> times(
                f,
                new_one,
                p,
            ) == old_one
            &&& !less(0, old_one) && over(f, times(f, old_one, p), p) == old_one ==> over(
                f,
                new_one,
                p,
            ) == old_one
        }),
{
    let c = cleaned(l);
    reveal_with_fuel(repeated, 2);
    assert(s.recent[0] == token);
}

/// How often a token was seen.
pub open spec fn sightings(recent: Seq<u32>, t: u32) -> nat {
    recent.filter(|x: u32| x == t).len()
}

proof fn occurrences_are_sightings(recent: Seq<u32>, t: u32, n: nat)
    requires
        n <= recent.len(),
    ensures
        occurrences(recent, t as int, n) == sightings(recent.take(n as int), t),
    decreases n,
{
    let p = |x: u32| x == t;
    reveal(Seq::filter);
    if n > 0 {
        occurrences_are_sightings(recent, t, (n - 1) as nat);
        assert(recent.take(n as int).drop_last() =~= recent.take(n - 1));
        assert(recent.take(n as int).last() == recent[n - 1]);
    } else {
        assert(recent.take(0).len() == 0);
    }
}

/// A token that was seen loses the presence penalty once and the frequency penalty for each
/// sighting: adding them again gives the logit.
pub proof fn presence_counts_once_and_frequency_each_time(
    f: Ops,
    s: SamplerView,
    l: Seq<u32>,
    token: u32,
)
    requires
        token < l.len(),
        is_finite(l[token as int]),
        equal(s.params.repeat_penalty, UNIT),
        !equal(s.params.presence_penalty, 0) || !equal(s.params.frequency_penalty, 0),
        sightings(s.recent, token) > 0,
    ensures
        ({
            let n = f(FloatOp::FromLong, sightings(s.recent, token) as u32, 0);
            let taken = plus(
                f,
                s.params.presence_penalty,
                times(f, s.params.frequency_penalty, n),
            );
            let old_one = l[token as int];
            plus(f, minus(f, old_one, taken), taken) == old_one ==> plus(
                f,
                weighed(f, at_temperature(s, 0), l)[token as int],
                taken,
            ) == old_one
        }),
{
    occurrences_are_sightings(s.recent, token, s.recent.len());
    assert(s.recent.take(s.recent.len() as int) =~= s.recent);
}

/// Without any penalty the logits stay as they are.
pub proof fn no_penalty_changes_nothing(f: Ops, s: SamplerView, l: Seq<u32>, i: int)
    requires
        0 <= i < l.len(),
        is_finite(l[i]),
        equal(s.params.repeat_penalty, UNIT),
        equal(s.params.presence_penalty, 0),
        equal(s.params.frequency_penalty, 0),
    ensures
        weighed(f, at_temperature(s, 0), l)[i] == l[i],
{
}

/// The tokens that are remembered are the last ones, the newest at the end, as many as the window
/// holds.
pub proof fn the_last_tokens_are_remembered(s: SamplerView, token: u32)
    ensures
        ({
            let all = s.recent.push(token);
            let kept = accepted(s, token).recent;
            &&& kept.len() <= s.params.repeat_last_n || kept.len() == 1
            &&& kept.len() == all.len() || kept.len() >= s.params.repeat_last_n
            &&& forall|i: int|
                0 <= i < kept.len() ==> (#[trigger] kept[i]) == all[all.len() - kept.len() + i]
            &&& kept.len() > 0 && kept.last() == token
        }),
{
}

// ---------------------------------------------------------------------------- candidates

/// The tokens that are kept are those of the highest logits, the likeliest first, and as many as
/// asked for.
pub proof fn the_likeliest_are_kept(f: Ops, l: Seq<u32>, most: nat)
    requires
        l.len() <= u32::MAX,
        l.len() <= usize::MAX,
    ensures
        ({
            let c = softmax(f, l, most);
            &&& c.len() == if l.len() < most {
                l.len()
            } else {
                most
            }
            &&& forall|a: int| 0 <= a < c.len() ==> (#[trigger] c[a]).0 < l.len()
            &&& forall|a: int, b: int|
                0 <= a < b < c.len() ==> total_order(l[(#[trigger] c[a]).0 as int]) >= total_order(
                    l[(#[trigger] c[b]).0 as int],
                )
            &&& forall|t: u32, a: int|
                #![trigger l[t as int], c[a]]
                t < l.len() && 0 <= a < c.len() && (forall|b: int|
                    0 <= b < c.len() ==> (#[trigger] c[b]).0 != t) ==> total_order(l[t as int])
                    <= total_order(l[c[a].0 as int])
        }),
{
    let k = orders(l);
    let s = top(k, l.len(), most);
    top_keeps_the_highest(k, l.len(), most);
    let c = softmax(f, l, most);
    assert forall|a: int| 0 <= a < c.len() implies (#[trigger] c[a]).0 == s[a] as u32 && s[a]
        < l.len() by {
        assert(s[a] < l.len());
    }
    assert forall|a: int, b: int| 0 <= a < b < c.len() implies total_order(
        l[(#[trigger] c[a]).0 as int],
    ) >= total_order(l[(#[trigger] c[b]).0 as int]) by {
        assert(k[s[a] as int] >= k[s[b] as int]);
    }
    assert forall|t: u32, a: int|
        #![trigger l[t as int], c[a]]
        t < l.len() && 0 <= a < c.len() && (forall|b: int|
            0 <= b < c.len() ==> (#[trigger] c[b]).0 != t) implies total_order(l[t as int])
        <= total_order(l[c[a].0 as int]) by {
        let i = t as usize;
        if s.contains(i) {
            let z = choose|z: int| 0 <= z < s.len() && s[z] == i;
            assert(c[z].0 == t);
        }
        assert(k[i as int] <= k[s[a] as int]);
    }
}

/// The sum of numbers, from the first to the last.
pub open spec fn added(f: Ops, x: Seq<u32>) -> u32 {
    x.fold_left(0u32, |a: u32, b: u32| plus(f, a, b))
}

/// The probabilities of candidates.
pub open spec fn chances(c: Candidates) -> Seq<u32> {
    c.map_values(|x: (u32, u32)| x.1)
}

proof fn mass_is_the_sum(f: Ops, c: Candidates, n: nat)
    requires
        n <= c.len(),
    ensures
        mass(f, c, n) == added(f, chances(c).take(n as int)),
    decreases n,
{
    let x = chances(c);
    if n > 0 {
        mass_is_the_sum(f, c, (n - 1) as nat);
        assert(x.take(n as int).drop_last() =~= x.take(n - 1));
        assert(x.take(n as int).last() == x[n - 1]);
    }
}

/// The probabilities stand in the ratio of the exponentials of the logits: times one number for
/// all, which is what the exponentials add up to, each is the exponential of how far its logit
/// lies below the highest.
pub proof fn chances_follow_the_logits(f: Ops, l: Seq<u32>, most: nat, i: int)
    requires
        l.len() <= u32::MAX,
        l.len() <= usize::MAX,
        0 <= i < softmax(f, l, most).len(),
    ensures
        ({
            let c = softmax(f, l, most);
            let weight = |a: int|
                f(FloatOp::Exp, minus(f, l[c[a].0 as int], l[c[0].0 as int]), 0);
            let whole = larger(added(f, Seq::new(c.len(), weight)), TINY);
            divides(f, weight(i), whole) ==> times(f, whole, c[i].1) == weight(i)
        }),
{
    let k = orders(l);
    let s = top(k, l.len(), most);
    top_keeps_the_highest(k, l.len(), most);
    let c = softmax(f, l, most);
    let e = exponentials(f, l, s);
    let weight = |a: int| f(FloatOp::Exp, minus(f, l[c[a].0 as int], l[c[0].0 as int]), 0);
    mass_is_the_sum(f, e, e.len());
    assert(s[0] < l.len());
    assert forall|a: int| 0 <= a < e.len() implies (#[trigger] e[a]).1 == weight(a) by {
        assert(s[a] < l.len());
        assert(c[a].0 == s[a] as u32);
        assert(c[0].0 == s[0] as u32);
    }
    assert(chances(e).take(e.len() as int) =~= Seq::new(c.len(), weight));
}

/// A candidate stays just where it, and every likelier one, is at least so much as likely as the
/// likeliest; that one always stays.
pub proof fn min_p_cuts_below_its_share(f: Ops, c: Candidates, min_p: u32)
    requires
        less(0, min_p),
        c.len() > 0,
    ensures
        ({
            let r = after_min_p(f, c, min_p);
            let floor = times(f, min_p, c[0].1);
            &&& 1 <= r.len() <= c.len()
            &&& forall|i: int| 0 <= i < r.len() ==> (#[trigger] r[i]).0 == c[i].0
            &&& forall|i: int| 1 <= i < r.len() ==> !less((#[trigger] c[i]).1, floor)
            &&& 1 < r.len() ==> !less(c[0].1, floor)
            &&& r.len() < c.len() ==> less(c[r.len() as int].1, floor) || less(c[0].1, floor)
        }),
{
    let floor = times(f, min_p, c[0].1);
    first_below_is_first(c, floor, 0);
}

proof fn first_below_is_first(c: Candidates, floor: u32, i: nat)
    requires
        i <= c.len(),
    ensures
        i <= first_below(c, floor, i) <= c.len(),
        forall|j: int| i <= j < first_below(c, floor, i) ==> !less((#[trigger] c[j]).1, floor),
        first_below(c, floor, i) < c.len() ==> less(
            c[first_below(c, floor, i) as int].1,
            floor,
        ),
    decreases c.len() - i,
{
    if i < c.len() && !less(c[i as int].1, floor) {
        first_below_is_first(c, floor, i + 1);
    }
}

/// The likeliest candidates stay, as few as have the mass that is asked for.
pub proof fn top_p_keeps_as_few_as_it_takes(f: Ops, c: Candidates, top_p: u32)
    requires
        less(top_p, UNIT),
        c.len() > 0,
    ensures
        ({
            let r = after_top_p(f, c, top_p);
            &&& 1 <= r.len() <= c.len()
            &&& forall|i: int| 0 <= i < r.len() ==> (#[trigger] r[i]).0 == c[i].0
            &&& r.len() == c.len() || at_most(
                top_p,
                added(f, chances(c).take(r.len() as int)),
            )
            &&& forall|n: int|
                1 <= n < r.len() ==> !at_most(top_p, added(f, #[trigger] chances(c).take(n)))
        }),
{
    reaching_is_first(f, c, top_p, 0);
    let r = after_top_p(f, c, top_p);
    mass_is_the_sum(f, c, r.len());
    assert forall|n: int| 1 <= n < r.len() implies !at_most(
        top_p,
        added(f, #[trigger] chances(c).take(n)),
    ) by {
        mass_is_the_sum(f, c, n as nat);
    }
}

proof fn reaching_is_first(f: Ops, c: Candidates, p: u32, i: nat)
    requires
        i < c.len(),
    ensures
        i < reaching(f, c, p, i) <= c.len(),
        forall|n: nat| i < n < reaching(f, c, p, i) ==> !at_most(p, #[trigger] mass(f, c, n)),
        reaching(f, c, p, i) < c.len() ==> at_most(p, mass(f, c, reaching(f, c, p, i))),
    decreases c.len() - i,
{
    reveal_with_fuel(reaching, 2);
    if !at_most(p, mass(f, c, i + 1)) && i + 1 < c.len() {
        reaching_is_first(f, c, p, i + 1);
    }
}

/// What is left after a cut is scaled by one number for all, the sum of what is left: times it,
/// each is what it was.
pub proof fn what_is_left_makes_up_one(f: Ops, c: Candidates, i: int)
    requires
        0 <= i < c.len(),
        divides(f, c[i].1, larger(added(f, chances(c)), TINY)),
    ensures
        normal(f, c).len() == c.len(),
        normal(f, c)[i].0 == c[i].0,
        times(f, larger(added(f, chances(c)), TINY), normal(f, c)[i].1) == c[i].1,
{
    mass_is_the_sum(f, c, c.len());
    assert(chances(c).take(c.len() as int) =~= chances(c));
}

/// The draw falls on the first candidate with which the mass passes the random number, and on the
/// last one where none does.
pub proof fn the_draw_falls_where_the_mass_passes(f: Ops, c: Candidates, r: u32)
    requires
        c.len() > 0,
    ensures
        exists|k: int|
            {
                &&& 0 <= k < c.len()
                &&& drawn(f, c, r, 0) == (#[trigger] c[k]).0
                &&& k == c.len() - 1 || less(r, added(f, chances(c).take(k + 1)))
                &&& forall|j: int|
                    0 <= j < k ==> !less(r, added(f, #[trigger] chances(c).take(j + 1)))
            },
{
    let k = drawn_at(f, c, r, 0);
    mass_is_the_sum(f, c, (k + 1) as nat);
    assert forall|j: int| 0 <= j < k implies !less(
        r,
        added(f, #[trigger] chances(c).take(j + 1)),
    ) by {
        mass_is_the_sum(f, c, (j + 1) as nat);
    }
    assert(drawn(f, c, r, 0) == c[k].0);
}

proof fn drawn_at(f: Ops, c: Candidates, r: u32, i: nat) -> (k: int)
    requires
        i < c.len(),
    ensures
        i <= k < c.len(),
        drawn(f, c, r, i) == c[k].0,
        k == c.len() - 1 || less(r, mass(f, c, (k + 1) as nat)),
        forall|j: int| i <= j < k ==> !less(r, #[trigger] mass(f, c, (j + 1) as nat)),
    decreases c.len() - i,
{
    reveal_with_fuel(drawn, 2);
    if less(r, mass(f, c, i + 1)) {
        i as int
    } else if i + 1 < c.len() {
        drawn_at(f, c, r, i + 1)
    } else {
        i as int
    }
}

/// A token is drawn from the highest logits that the cuts leave, at the temperature, by the number
/// that the stream gives next.
pub proof fn a_draw_is_among_the_likeliest(f: Ops, s: SamplerView, l: Seq<u32>)
    requires
        !at_most(s.params.temperature, 0),
        s.params.mirostat == 0,
        !less(s.params.typical_p, UNIT),
        0 < l.len() <= u32::MAX,
        l.len() <= usize::MAX,
    ensures
        ({
            let c = softmax(f, weighed(f, s, l), most_of(s.params.top_k, l.len()));
            exists|k: int| 0 <= k < c.len() && (#[trigger] c[k]).0 == sampled(f, s, l)
        }),
{
    penalized_keeps_len(f, s, l);
    let t = weighed(f, s, l);
    let p = s.params;
    let c = softmax(f, t, most_of(p.top_k, t.len()));
    the_likeliest_are_kept(f, t, most_of(p.top_k, t.len()));
    let d = after_min_p(f, c, p.min_p);
    if less(0, p.min_p) {
        min_p_cuts_below_its_share(f, c, p.min_p);
    }
    let e = after_top_p(f, d, p.top_p);
    if less(p.top_p, UNIT) {
        top_p_keeps_as_few_as_it_takes(f, d, p.top_p);
    }
    let r = crate::sample::uniform(f, crate::sample::next_state(s.rng));
    let k = drawn_at(f, e, r, 0);
    assert(e[k].0 == c[k].0);
}

/// A random number is one of the 2^24 evenly spaced ones from 0 up to 1.
pub proof fn random_numbers_are_evenly_spaced(f: Ops, state: u64)
    ensures
        exists|k: int|
            0 <= k < 0x100_0000 && crate::sample::uniform(f, state) == over(
                f,
                #[trigger] crate::single::whole(f, k),
                0x4b80_0000,
            ),
{
    let z = crate::sample::mixed(state);
    assert(z >> 40 <= 0xff_ffff) by (bit_vector);
    assert(crate::sample::uniform(f, state) == over(
        f,
        crate::single::whole(f, (z >> 40) as int),
        0x4b80_0000,
    ));
}

// ------------------------------------------------------------------------------- Mirostat

/// A token that surprised more than was aimed at lowers the limit, by the rate times the excess:
/// adding it again gives the limit before.
pub proof fn mirostat_corrects_by_the_excess(
    f: Ops,
    p: SampleParams,
    l: Seq<u32>,
    mu: u32,
    token: u32,
    i: int,
)
    requires
        0 <= i < softmax(f, l, l.len()).len(),
        softmax(f, l, l.len())[i].0 == token,
        forall|j: int| 0 <= j < i ==> (#[trigger] softmax(f, l, l.len())[j]).0 != token,
    ensures
        ({
            let seen = surprise(f, softmax(f, l, l.len())[i].1);
            let excess = times(f, p.mirostat_eta, minus(f, seen, p.mirostat_tau));
            plus(f, minus(f, mu, excess), excess) == mu ==> plus(
                f,
                crate::sample::mirostat_target(f, p, l, mu, token),
                excess,
            ) == mu
        }),
{
    likelihood_is_found(softmax(f, l, l.len()), token, 0, i);
}

proof fn likelihood_is_found(c: Candidates, id: u32, a: nat, i: int)
    requires
        a <= i < c.len(),
        c[i].0 == id,
        forall|j: int| 0 <= j < i ==> (#[trigger] c[j]).0 != id,
    ensures
        crate::sample::likelihood(c, id, a) == c[i].1,
    decreases i - a,
{
    if a < i {
        assert(c[a as int].0 != id);
        likelihood_is_found(c, id, a + 1, i);
    }
}

/// Mirostat draws only from the candidates before the first one that surprises more than the
/// limit, or from the likeliest alone.
pub proof fn mirostat_stays_below_its_limit(f: Ops, c: Candidates, mu: u32)
    requires
        c.len() > 0,
    ensures
        ({
            let n = crate::sample::unsurprising(f, c, mu, 0);
            &&& 1 <= n <= c.len()
            &&& forall|i: int| 1 <= i < n ==> !less(mu, surprise(f, (#[trigger] c[i]).1))
            &&& n < c.len() ==> less(mu, surprise(f, c[n as int].1)) || less(
                mu,
                surprise(f, c[0].1),
            )
        }),
{
    unsurprising_is_first(f, c, mu, 0);
}

proof fn unsurprising_is_first(f: Ops, c: Candidates, mu: u32, i: nat)
    requires
        i <= c.len(),
        c.len() > 0,
    ensures
        ({
            let n = crate::sample::unsurprising(f, c, mu, i);
            &&& 1 <= n <= c.len()
            &&& i <= n
            &&& forall|j: int| i <= j < n && (j >= 1 || n > 1) ==> !less(
                mu,
                surprise(f, (#[trigger] c[j]).1),
            )
            &&& n < c.len() ==> less(mu, surprise(f, c[n as int].1)) || (i == 0 && n == 1 && less(
                mu,
                surprise(f, c[0].1),
            ))
        }),
    decreases c.len() - i,
{
    if i < c.len() && !less(mu, surprise(f, c[i as int].1)) {
        unsurprising_is_first(f, c, mu, i + 1);
    }
}

/// A draw depends on what is left in the logits alone: two states that leave the same, cut in the
/// same way and draw the same number choose the same token.
pub proof fn a_draw_depends_on_what_is_left(
    f: Ops,
    s: SamplerView,
    l: Seq<u32>,
    other: SamplerView,
    m: Seq<u32>,
)
    requires
        !at_most(s.params.temperature, 0),
        !at_most(other.params.temperature, 0),
        weighed(f, s, l) == weighed(f, other, m),
        s.rng == other.rng,
        s.mu == other.mu,
        s.params.mirostat == other.params.mirostat,
        s.params.top_k == other.params.top_k,
        s.params.top_p == other.params.top_p,
        s.params.min_p == other.params.min_p,
        s.params.typical_p == other.params.typical_p,
    ensures
        sampled(f, s, l) == sampled(f, other, m),
        after_sample(f, s, l).rng == after_sample(f, other, m).rng,
        after_sample(f, s, l).recent == s.recent,
        after_sample(f, s, l).params == s.params,
{
}

// ------------------------------------------------------------------------------- typicality

/// How far the surprise of a candidate lies from what is to be expected of all of them.
pub open spec fn oddness(f: Ops, c: Candidates, i: int) -> u32 {
    let log = |k: int| f(FloatOp::Ln, larger(c[k].1, TINY), 0);
    let expected = negated(added(f, Seq::new(c.len(), |k: int| times(f, c[k].1, log(k)))));
    magnitude(minus(f, negated(log(i)), expected))
}

/// Of the candidates those stay whose surprise is nearest to what is to be expected: none that
/// goes is nearer than one that stays, and those that stay keep their order.
pub proof fn the_most_typical_stay(f: Ops, c: Candidates, p: u32)
    requires
        c.len() <= usize::MAX,
    ensures
        exists|near: Seq<usize>|
            {
                &&& #[trigger] near.len() <= c.len()
                &&& typical(f, c, p) == kept(c, near, c.len())
                &&& forall|i: usize, j: usize|
                    near.contains(i) && !near.contains(j) && j < c.len() ==> total_order(
                        #[trigger] oddness(f, c, i as int),
                    ) <= total_order(#[trigger] oddness(f, c, j as int))
                &&& forall|i: usize| #[trigger] near.contains(i) ==> i < c.len()
            },
{
    let k = nearness(f, c);
    let s = top(k, c.len(), c.len());
    top_keeps_the_highest(k, c.len(), c.len());
    let m = reaching_in_order(f, c, s, p, 0);
    reached_within(f, c, s, p, 0);
    let near = s.take(m as int);
    let log = |a: int| f(FloatOp::Ln, larger(c[a].1, TINY), 0);
    let terms = Seq::new(c.len(), |a: int| times(f, c[a].1, log(a)));
    weighted_is_the_sum(f, c, c.len());
    let plain = Seq::new(
        c.len(),
        |a: int| times(f, c[a].1, f(FloatOp::Ln, larger(c[a].1, TINY), 0)),
    );
    assert(plain =~= terms);
    assert(plain.take(c.len() as int) =~= terms);
    assert forall|i: int| 0 <= i < c.len() implies k[i] == -total_order(
        #[trigger] oddness(f, c, i),
    ) by {
        assert(oddness(f, c, i) == magnitude(
            minus(f, negated(log(i)), negated(added(f, terms))),
        )) by {
            let other = |a: int| f(FloatOp::Ln, larger(c[a].1, TINY), 0);
            assert(Seq::new(c.len(), |a: int| times(f, c[a].1, other(a))) =~= terms);
        }
    }
    assert forall|i: usize, j: usize|
        near.contains(i) && !near.contains(j) && j < c.len() implies total_order(
        #[trigger] oddness(f, c, i as int),
    ) <= total_order(#[trigger] oddness(f, c, j as int)) by {
        let a = choose|a: int| 0 <= a < near.len() && near[a] == i;
        assert(s[a] == i);
        if s.contains(j) {
            let z = choose|z: int| 0 <= z < s.len() && s[z] == j;
            if z < m {
                assert(near[z] == j);
            }
            assert(a < z);
        }
        assert(k[j as int] <= k[i as int]);
    }
    assert forall|i: usize| #[trigger] near.contains(i) implies i < c.len() by {
        let a = choose|a: int| 0 <= a < near.len() && near[a] == i;
        assert(s[a] == i);
    }
    assert(near.len() <= c.len());
}

proof fn reached_within(f: Ops, c: Candidates, s: Seq<usize>, p: u32, i: nat)
    requires
        i <= s.len(),
    ensures
        i <= reaching_in_order(f, c, s, p, i) <= s.len(),
    decreases s.len() - i,
{
    if i < s.len() && !at_most(p, mass_in_order(f, c, s, i + 1)) {
        reached_within(f, c, s, p, i + 1);
    }
}

proof fn weighted_is_the_sum(f: Ops, c: Candidates, n: nat)
    requires
        n <= c.len(),
    ensures
        weighted(f, c, n) == added(
            f,
            Seq::new(
                c.len(),
                |k: int| times(f, c[k].1, f(FloatOp::Ln, larger(c[k].1, TINY), 0)),
            ).take(n as int),
        ),
    decreases n,
{
    let terms = Seq::new(
        c.len(),
        |k: int| times(f, c[k].1, f(FloatOp::Ln, larger(c[k].1, TINY), 0)),
    );
    let now = terms.take(n as int);
    reveal_with_fuel(Seq::fold_left, 2);
    if n > 0 {
        weighted_is_the_sum(f, c, (n - 1) as nat);
        assert(now.drop_last() =~= terms.take(n - 1));
        assert(now.last() == terms[n - 1]);
    }
}

/// Those that stay are all there, and nothing else is.
pub proof fn those_that_stay_are_there(c: Candidates, near: Seq<usize>, n: nat, i: int, j: int)
    requires
        n <= c.len(),
        n <= usize::MAX,
    ensures
        0 <= i < n && near.contains(i as usize) ==> kept(c, near, n).contains(c[i]),
        0 <= j < kept(c, near, n).len() ==> exists|k: int|
            0 <= k < n && near.contains(k as usize) && #[trigger] c[k] == kept(c, near, n)[j],
    decreases n,
{
    if n > 0 {
        let r = kept(c, near, n);
        let q = kept(c, near, (n - 1) as nat);
        those_that_stay_are_there(c, near, (n - 1) as nat, i, j);
        if 0 <= i < n && near.contains(i as usize) {
            if i == n - 1 {
                assert(r.last() == c[i]);
            } else {
                let k = choose|k: int| 0 <= k < q.len() && q[k] == c[i];
                assert(r[k] == c[i]);
            }
        }
        if 0 <= j < r.len() {
            if j < q.len() {
                assert(r[j] == q[j]);
                let k = choose|k: int|
                    0 <= k < n - 1 && near.contains(k as usize) && #[trigger] c[k] == q[j];
                assert(c[k] == r[j]);
            } else {
                assert(c[n - 1] == r[j]);
            }
        }
    }
}

/// Only a share below one cuts by typicality, and what it leaves makes up one again.
pub proof fn a_whole_share_cuts_nothing(f: Ops, c: Candidates, p: u32)
    ensures
        !less(p, UNIT) ==> after_typical(f, c, p) == c,
        less(p, UNIT) ==> after_typical(f, c, p) == normal(f, typical(f, c, p)),
{
}

} // verus!
