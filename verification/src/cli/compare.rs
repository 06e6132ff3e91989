//! Two devices held against each other on the same model.
//!
//! What matters is whether the two would pick the same token, so the report gives the best
//! token of each and how many of the best five they share, not a bare error norm.

use vstd::prelude::*;
use vstd::string::*;

use super::summary::{Printer, Show};
use crate::gguf::reader::lossy;
use crate::sample::{best_indices, keys_of, orders, top};
use crate::single::{abs_of, is_less, less, magnitude, minus, Arith, FloatOp, Ops};
use crate::text::{
    cat2, cat3, cat4, cat5, chars_of, debug_text, dec, decimal, join_text, joined, own, quoted,
    same, texts,
};
use crate::tokenizer::decode::tokens_bytes;
use crate::tokenizer::facade::Tokenizer;
use crate::tokenizer::vocab::VocabView;

verus! {

// ------------------------------------------------------------------------------ the logits

/// How far apart two logits are.
pub open spec fn distance(f: Ops, x: u32, y: u32) -> u32 {
    magnitude(minus(f, x, y))
}

/// The largest distance among the first `n` pairs, and the first place where it occurs.
pub open spec fn farthest(f: Ops, a: Seq<u32>, b: Seq<u32>, n: nat) -> (u32, nat)
    decreases n,
{
    if n == 0 {
        (0u32, 0nat)
    } else {
        let i = (n - 1) as nat;
        let (worst, at) = farthest(f, a, b, i);
        let d = distance(f, a[i as int], b[i as int]);
        if less(worst, d) {
            (d, i)
        } else {
            (worst, at)
        }
    }
}

/// How many pairs two lists of logits make.
pub open spec fn pairs(a: Seq<u32>, b: Seq<u32>) -> nat {
    if a.len() < b.len() {
        a.len()
    } else {
        b.len()
    }
}

/// No pair is farther apart than the one that is reported.
pub proof fn farthest_is_farthest(f: Ops, a: Seq<u32>, b: Seq<u32>, n: nat, i: nat)
    requires
        i < n,
    ensures
        !less(farthest(f, a, b, n).0, distance(f, a[i as int], b[i as int])),
        farthest(f, a, b, n).1 < n,
        farthest(f, a, b, n).0 == 0 || farthest(f, a, b, n).0 == distance(
            f,
            a[farthest(f, a, b, n).1 as int],
            b[farthest(f, a, b, n).1 as int],
        ),
    decreases n,
{
    reveal_with_fuel(farthest, 2);
    let last = (n - 1) as nat;
    if i < last {
        farthest_is_farthest(f, a, b, last, i);
    } else if last > 0 {
        farthest_is_farthest(f, a, b, last, 0);
    }
}

/// The places of the five highest logits, highest first.
pub open spec fn best_five(l: Seq<u32>) -> Seq<usize> {
    top(orders(l), l.len(), 5)
}

/// How many of the first `n` of `a` also stand in `b`.
pub open spec fn shared(a: Seq<usize>, b: Seq<usize>, n: nat) -> nat
    decreases n,
{
    if n == 0 {
        0
    } else {
        shared(a, b, (n - 1) as nat) + if b.contains(a[n - 1]) {
            1nat
        } else {
            0nat
        }
    }
}

/// How the logits of two devices differ.
#[derive(Debug)]
pub struct Comparison {
    /// The bits of the largest distance.
    pub worst: u32,
    /// The token where it occurs.
    pub at: usize,
    pub reference: Vec<usize>,
    pub candidate: Vec<usize>,
    /// How many of the best five tokens are the same.
    pub overlap: usize,
}

fn has_place(v: &Vec<usize>, x: usize) -> (r: bool)
    ensures
        r == v@.contains(x),
{
    let mut i: usize = 0;
    while i < v.len()
        invariant
            i <= v@.len(),
            forall|k: int| 0 <= k < i ==> (#[trigger] v@[k]) != x,
        decreases v@.len() - i,
    {
        if v[i] == x {
            assert(v@[i as int] == x);
            return true;
        }
        i = i + 1;
    }
    false
}

impl Comparison {
    /// The comparison of the logits of a reference and a candidate.
    pub open spec fn compares(self, f: Ops, a: Seq<u32>, b: Seq<u32>) -> bool {
        &&& self.worst == farthest(f, a, b, pairs(a, b)).0
        &&& self.at == farthest(f, a, b, pairs(a, b)).1
        &&& self.reference@ == best_five(a)
        &&& self.candidate@ == best_five(b)
        &&& self.overlap == shared(best_five(a), best_five(b), best_five(a).len())
    }

    /// Compares the logits of a reference and a candidate.
    pub fn of<A: Fn(FloatOp, u32, u32) -> u32>(a: &Vec<u32>, b: &Vec<u32>, m: &Arith<A>) -> (r: Self)
        requires
            m.works(),
        ensures
            r.compares(m.ops(), a@, b@),
    {
        let ghost f = m.ops();
        let n = if a.len() < b.len() {
            a.len()
        } else {
            b.len()
        };
        let mut worst: u32 = 0;
        let mut at: usize = 0;
        let mut i: usize = 0;
        while i < n
            invariant
                m.works(),
                f == m.ops(),
                n == pairs(a@, b@),
                i <= n,
                (worst, at as nat) == farthest(f, a@, b@, i as nat),
            decreases n - i,
        {
            let d = abs_of(m.minus(a[i], b[i]));
            if is_less(worst, d) {
                worst = d;
                at = i;
            }
            i = i + 1;
        }
        let reference = best_indices(&keys_of(a), 5);
        let candidate = best_indices(&keys_of(b), 5);
        let mut overlap: usize = 0;
        let mut k: usize = 0;
        while k < reference.len()
            invariant
                k <= reference@.len(),
                overlap <= k,
                overlap == shared(reference@, candidate@, k as nat),
            decreases reference@.len() - k,
        {
            if has_place(&candidate, reference[k]) {
                overlap = overlap + 1;
            }
            k = k + 1;
        }
        Comparison { worst, at, reference, candidate, overlap }
    }

    /// The lines that report the comparison.
    pub open spec fn lines(self, w: spec_fn(Show) -> Seq<char>, v: VocabView) -> Seq<Seq<char>> {
        let (x, y) = (self.reference@[0], self.candidate@[0]);
        seq![
            "max |logit difference|   "@ + w(Show::Scientific(self.worst)) + " at token "@ + dec(
                self.at as nat,
            ),
            "argmax                   cpu "@ + dec(x as nat) + " / gpu "@ + dec(y as nat) + "  ("@
                + (if x == y {
                "match"@
            } else {
                "DIFFER"@
            }) + ")"@,
            "top-5 overlap            "@ + dec(self.overlap as nat) + "/5"@,
            "  cpu top-5   "@ + token_list(v, self.reference@),
            "  gpu top-5   "@ + token_list(v, self.candidate@),
        ]
    }

    /// Reports the comparison. There is no best token where there is no logit.
    pub fn report<W: Fn(Show) -> String>(&self, p: &Printer<W>, t: &Tokenizer) -> (r: Vec<String>)
        requires
            p.works(),
            self.reference@.len() > 0,
            self.candidate@.len() > 0,
        ensures
            texts(r@) == self.lines(p.words(), t.vocab@),
    {
        let x = self.reference[0];
        let y = self.candidate[0];
        let mut out: Vec<String> = Vec::new();
        out.push(
            cat4(
                "max |logit difference|   ",
                p.say(Show::Scientific(self.worst)).as_str(),
                " at token ",
                decimal(self.at as u64).as_str(),
            ),
        );
        let mut line = cat5(
            "argmax                   cpu ",
            decimal(x as u64).as_str(),
            " / gpu ",
            decimal(y as u64).as_str(),
            "  (",
        );
        line.append(
            if x == y {
                "match"
            } else {
                "DIFFER"
            },
        );
        line.append(")");
        out.push(line);
        out.push(
            cat3("top-5 overlap            ", decimal(self.overlap as u64).as_str(), "/5"),
        );
        out.push(cat2("  cpu top-5   ", tokens_text(t, &self.reference).as_str()));
        out.push(cat2("  gpu top-5   ", tokens_text(t, &self.candidate).as_str()));
        assert(texts(out@) =~= self.lines(p.words(), t.vocab@));
        out
    }
}

/// What one token says.
pub open spec fn token_quote(v: VocabView, i: usize) -> Seq<char> {
    quoted(lossy(tokens_bytes(v, seq![i as u32], false, 1)))
}

/// What tokens say, one by one.
pub open spec fn token_list(v: VocabView, s: Seq<usize>) -> Seq<char> {
    joined(Seq::new(s.len(), |i: int| token_quote(v, s[i])), " "@)
}

fn tokens_text(t: &Tokenizer, s: &Vec<usize>) -> (r: String)
    ensures
        r@ == token_list(t.vocab@, s@),
{
    let ghost want = Seq::new(s@.len(), |i: int| token_quote(t.vocab@, s@[i]));
    let mut parts: Vec<String> = Vec::new();
    let mut i: usize = 0;
    while i < s.len()
        invariant
            i <= s@.len(),
            want == Seq::new(s@.len(), |i: int| token_quote(t.vocab@, s@[i])),
            texts(parts@) =~= want.take(i as int),
        decreases s@.len() - i,
    {
        let ghost before = texts(parts@);
        let one = vec![s[i] as u32];
        assert(one@ =~= seq![s@[i as int] as u32]);
        parts.push(debug_text(t.decode(one.as_slice(), false).as_str()));
        i = i + 1;
        assert(texts(parts@) =~= before.push(want[i - 1]));
    }
    assert(want.take(i as int) =~= want);
    join_text(parts.as_slice(), " ")
}

// ------------------------------------------------------------------------ the continuations

/// How many characters two texts share from position `i` on.
pub open spec fn common_from(a: Seq<char>, b: Seq<char>, i: nat) -> nat
    decreases a.len() - i,
{
    if i < a.len() && i < b.len() && a[i as int] == b[i as int] {
        1 + common_from(a, b, i + 1)
    } else {
        0
    }
}

/// Up to where two texts agree they hold the same characters, and the next ones differ or are
/// not there.
pub proof fn common_is_longest(a: Seq<char>, b: Seq<char>, i: nat)
    requires
        i <= a.len(),
        i <= b.len(),
    ensures
        i + common_from(a, b, i) <= a.len(),
        i + common_from(a, b, i) <= b.len(),
        forall|k: int| i <= k < i + common_from(a, b, i) ==> a[k] == b[k],
        ({
            let n = (i + common_from(a, b, i)) as int;
            n == a.len() || n == b.len() || a[n] != b[n]
        }),
    decreases a.len() - i,
{
    if i < a.len() && i < b.len() && a[i as int] == b[i as int] {
        common_is_longest(a, b, i + 1);
    }
}

/// Whether two devices wrote the same text.
pub open spec fn verdict_of(a: Seq<char>, b: Seq<char>) -> Seq<char> {
    if a == b {
        "\nbackends agree"@
    } else {
        "\nbackends DIVERGE after "@ + dec(common_from(a, b, 0)) + " identical characters"@
    }
}

/// How many characters two texts share at their start.
fn common(a: &str, b: &str) -> (n: usize)
    ensures
        n == common_from(a@, b@, 0),
{
    let x = chars_of(a);
    let y = chars_of(b);
    let mut i: usize = 0;
    while i < x.len() && i < y.len() && x[i] == y[i]
        invariant
            x@ == a@,
            y@ == b@,
            i <= x@.len(),
            i <= y@.len(),
            common_from(a@, b@, 0) == i + common_from(a@, b@, i as nat),
        decreases x@.len() - i,
    {
        i = i + 1;
    }
    i
}

/// Says whether two devices wrote the same text, and otherwise how far they agree.
pub fn verdict(a: &str, b: &str) -> (r: String)
    ensures
        r@ == verdict_of(a@, b@),
{
    if same(a, b) {
        own("\nbackends agree")
    } else {
        cat3(
            "\nbackends DIVERGE after ",
            decimal(common(a, b) as u64).as_str(),
            " identical characters",
        )
    }
}

} // verus!
