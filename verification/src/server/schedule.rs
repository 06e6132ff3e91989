//! Which request runs where.
//!
//! Several requests are in flight at once, each with a cache region of its own, and every one of
//! them is advanced by a token per round. Only one model is resident at a time: asking for a
//! different one drains the requests in flight first, since they use the weights that are about
//! to be unloaded.

use vstd::prelude::*;
use vstd::string::*;

use crate::runtime::reply::Reply;
use crate::text::{cat4, dec, decimal, own, same};
use crate::tokenizer::vocab::opt_text;

verus! {

#[derive(Debug)]
pub struct Status {
    pub models: Vec<String>,
    pub loaded: Option<String>,
    pub device: Option<String>,
    pub active: usize,
}

/// A request in flight.
#[derive(Debug)]
pub struct Slot {
    /// The cache region it has.
    pub seq: usize,
    pub reply: Reply,
    pub prompt_tokens: usize,
    /// What the next token is drawn from.
    pub logits: Vec<u32>,
}

/// The regions of requests.
pub open spec fn regions(s: Seq<Slot>) -> Seq<usize> {
    Seq::new(s.len(), |i: int| s[i].seq)
}

/// The first region from `i` on that is not taken.
pub open spec fn free_from(taken: Seq<usize>, n_seq: nat, i: nat) -> Option<nat>
    decreases n_seq - i,
{
    if i >= n_seq {
        None
    } else if i <= usize::MAX && !taken.contains(i as usize) {
        Some(i)
    } else {
        free_from(taken, n_seq, i + 1)
    }
}

/// The requests in flight.
#[derive(Debug)]
pub struct Schedule {
    pub n_seq: usize,
    pub slots: Vec<Slot>,
}

/// Why a prompt of `n` tokens cannot be admitted.
pub open spec fn admission_fault(n: nat, n_ctx: nat) -> Option<Seq<char>> {
    if n == 0 {
        Some("the prompt is empty"@)
    } else if n >= n_ctx {
        Some("the prompt is "@ + dec(n) + " tokens but the context is "@ + dec(n_ctx))
    } else {
        None
    }
}

/// Why a prompt of `n` tokens cannot be admitted.
pub fn refuse_prompt(n: usize, n_ctx: usize) -> (r: Option<String>)
    ensures
        opt_text(r) == admission_fault(n as nat, n_ctx as nat),
{
    if n == 0 {
        return Some(own("the prompt is empty"));
    }
    if n >= n_ctx {
        return Some(
            cat4(
                "the prompt is ",
                decimal(n as u64).as_str(),
                " tokens but the context is ",
                decimal(n_ctx as u64).as_str(),
            ),
        );
    }
    None
}

/// Whether a request of that name needs another model than the one that is loaded.
pub fn needs_switch(loaded: &Option<String>, model: &str) -> (r: bool)
    ensures
        r == (opt_text(*loaded) != Some(model@)),
{
    match loaded {
        Some(m) => !same(m.as_str(), model),
        None => true,
    }
}

/// `s` without those of the first `n` requests that are among `gone`.
pub open spec fn left(s: Seq<Slot>, gone: Seq<usize>, n: nat) -> Seq<Slot>
    decreases n,
{
    if n == 0 || n > s.len() {
        Seq::empty()
    } else {
        let rest = left(s, gone, (n - 1) as nat);
        if gone.contains((n - 1) as usize) {
            rest
        } else {
            rest.push(s[n - 1])
        }
    }
}

impl Schedule {
    /// Every request has a region of its own, and no region is beyond the last.
    pub open spec fn wf(self) -> bool {
        &&& forall|i: int| 0 <= i < self.slots@.len() ==> (#[trigger] self.slots@[i]).seq
            < self.n_seq
        &&& forall|i: int, j: int|
            0 <= i < j < self.slots@.len() ==> (#[trigger] self.slots@[i]).seq != (
            #[trigger] self.slots@[j]).seq
    }

    pub fn new(n_seq: usize) -> (r: Self)
        ensures
            r.wf(),
            r.n_seq == n_seq,
            r.slots@.len() == 0,
    {
        Schedule { n_seq, slots: Vec::new() }
    }

    pub fn is_idle(&self) -> (r: bool)
        ensures
            r == (self.slots@.len() == 0),
    {
        self.slots.len() == 0
    }

    /// Whether the requests in flight have to finish before a request of that name can start.
    pub fn must_drain(&self, loaded: &Option<String>, model: &str) -> (r: bool)
        ensures
            r == (opt_text(*loaded) != Some(model@) && self.slots@.len() > 0),
    {
        needs_switch(loaded, model) && self.slots.len() > 0
    }

    fn is_taken(&self, seq: usize) -> (r: bool)
        ensures
            r == regions(self.slots@).contains(seq),
    {
        let mut i: usize = 0;
        while i < self.slots.len()
            invariant
                i <= self.slots@.len(),
                forall|k: int| 0 <= k < i ==> (#[trigger] regions(self.slots@)[k]) != seq,
            decreases self.slots@.len() - i,
        {
            if self.slots[i].seq == seq {
                assert(regions(self.slots@)[i as int] == seq);
                return true;
            }
            i = i + 1;
        }
        false
    }

    /// The first region that is free, or why there is none.
    pub fn free_region(&self) -> (r: Result<usize, String>)
        ensures
            match free_from(regions(self.slots@), self.n_seq as nat, 0) {
                Some(i) => r matches Ok(s) && s == i && s < self.n_seq && !regions(
                    self.slots@,
                ).contains(s),
                None => r is Err && r->Err_0@
                    == "every sequence slot is busy; raise `parallel` in the registry"@,
            },
    {
        let mut i: usize = 0;
        while i < self.n_seq
            invariant
                i <= self.n_seq,
                free_from(regions(self.slots@), self.n_seq as nat, 0) == free_from(
                    regions(self.slots@),
                    self.n_seq as nat,
                    i as nat,
                ),
            decreases self.n_seq - i,
        {
            if !self.is_taken(i) {
                return Ok(i);
            }
            i = i + 1;
        }
        Err(own("every sequence slot is busy; raise `parallel` in the registry"))
    }

    /// Starts a request in a free region.
    pub fn begin(&mut self, seq: usize, reply: Reply, prompt_tokens: usize, logits: Vec<u32>)
        requires
            old(self).wf(),
            seq < old(self).n_seq,
            !regions(old(self).slots@).contains(seq),
        ensures
            final(self).wf(),
            final(self).n_seq == old(self).n_seq,
            final(self).slots@ == old(self).slots@.push(Slot { seq, reply, prompt_tokens, logits }),
    {
        let ghost before = self.slots@;
        assert forall|i: int| 0 <= i < before.len() implies (#[trigger] before[i]).seq != seq by {
            assert(regions(before)[i] == before[i].seq);
        }
        self.slots.push(Slot { seq, reply, prompt_tokens, logits });
    }

    /// Removes finished requests, given by their places in ascending order, the last one first,
    /// so that the places of the others stay valid.
    pub fn retire(&mut self, gone: &Vec<usize>) -> (r: Vec<Slot>)
        requires
            old(self).wf(),
            forall|i: int| 0 <= i < gone@.len() ==> (#[trigger] gone@[i]) < old(self).slots@.len(),
            forall|i: int, j: int|
                0 <= i < j < gone@.len() ==> (#[trigger] gone@[i]) < (#[trigger] gone@[j]),
        ensures
            final(self).wf(),
            final(self).n_seq == old(self).n_seq,
            final(self).slots@ == left(old(self).slots@, gone@, old(self).slots@.len()),
            r@.len() == gone@.len(),
            forall|i: int|
                0 <= i < gone@.len() ==> (#[trigger] r@[i]) == old(self).slots@[gone@[gone@.len() - 1
                    - i] as int],
    {
        let ghost s = self.slots@;
        let ghost g = gone@;
        let n = self.slots.len();
        let mut out: Vec<Slot> = Vec::new();
        let mut k: usize = gone.len();
        proof {
            assert(g.skip(k as int) =~= Seq::<usize>::empty());
            left_of_none(s, g.skip(k as int), s.len());
        }
        while k > 0
            invariant
                s == old(self).slots@,
                g == gone@,
                n == s.len(),
                k <= g.len(),
                forall|i: int| 0 <= i < g.len() ==> (#[trigger] g[i]) < s.len(),
                forall|i: int, j: int|
                    0 <= i < j < g.len() ==> (#[trigger] g[i]) < (#[trigger] g[j]),
                self.wf(),
                self.n_seq == old(self).n_seq,
                self.slots@ == left(s, g.skip(k as int), s.len()),
                out@.len() == g.len() - k,
                forall|i: int|
                    0 <= i < out@.len() ==> (#[trigger] out@[i]) == s[g[g.len() - 1 - i] as int],
            decreases k,
        {
            k = k - 1;
            let at = gone[k];
            proof {
                remove_one(s, g, k as int, s.len());
            }
            let ghost before = self.slots@;
            let x = self.slots.remove(at);
            out.push(x);
            assert(self.slots@ =~= before.remove(at as int));
            proof {
                assert forall|i: int, j: int| 0 <= i < j < self.slots@.len() implies (
                #[trigger] self.slots@[i]).seq != (#[trigger] self.slots@[j]).seq by {
                    let a = if i < at {
                        i
                    } else {
                        i + 1
                    };
                    let b = if j < at {
                        j
                    } else {
                        j + 1
                    };
                    assert(before[a] == self.slots@[i] && before[b] == self.slots@[j]);
                }
                assert forall|i: int| 0 <= i < self.slots@.len() implies (
                #[trigger] self.slots@[i]).seq < self.n_seq by {
                    let a = if i < at {
                        i
                    } else {
                        i + 1
                    };
                    assert(before[a] == self.slots@[i]);
                }
            }
        }
        assert(g.skip(0) =~= g);
        out
    }
}

proof fn left_of_none(s: Seq<Slot>, gone: Seq<usize>, n: nat)
    requires
        gone.len() == 0,
        n <= s.len(),
    ensures
        left(s, gone, n) == s.take(n as int),
    decreases n,
{
    if n > 0 {
        left_of_none(s, gone, (n - 1) as nat);
        assert(s.take(n as int) =~= s.take(n - 1).push(s[n - 1]));
    } else {
        assert(s.take(0) =~= Seq::empty());
    }
    if n == s.len() {
        assert(s.take(n as int) =~= s);
    }
}

/// Up to the first request that is gone, all are left in their places.
proof fn left_before(s: Seq<Slot>, gone: Seq<usize>, n: nat)
    requires
        n <= s.len(),
        forall|i: int| 0 <= i < gone.len() ==> (#[trigger] gone[i]) >= n,
    ensures
        left(s, gone, n) == s.take(n as int),
    decreases n,
{
    if n > 0 {
        left_before(s, gone, (n - 1) as nat);
        assert(!gone.contains((n - 1) as usize)) by {
            if gone.contains((n - 1) as usize) {
                let z = choose|z: int| 0 <= z < gone.len() && gone[z] == (n - 1) as usize;
                assert(gone[z] >= n);
            }
        }
        assert(s.take(n as int) =~= s.take(n - 1).push(s[n - 1]));
    } else {
        assert(s.take(0) =~= Seq::empty());
    }
}

/// Taking out the request at `gone[k]`, once those behind it are gone, leaves what is left
/// without all of them.
proof fn remove_one(s: Seq<Slot>, gone: Seq<usize>, k: int, n: nat)
    requires
        0 <= k < gone.len(),
        n <= s.len() <= usize::MAX,
        forall|i: int| 0 <= i < gone.len() ==> (#[trigger] gone[i]) < s.len(),
        forall|i: int, j: int| 0 <= i < j < gone.len() ==> (#[trigger] gone[i]) < (#[trigger] gone[j]),
        gone[k] < n,
    ensures
        gone[k] < left(s, gone.skip(k + 1), n).len(),
        left(s, gone.skip(k + 1), n)[gone[k] as int] == s[gone[k] as int],
        left(s, gone.skip(k), n) == left(s, gone.skip(k + 1), n).remove(gone[k] as int),
    decreases n,
{
    let at = gone[k] as int;
    let more = gone.skip(k);
    let fewer = gone.skip(k + 1);
    assert(more =~= seq![gone[k]] + fewer);
    let p = (n - 1) as nat;
    let last = p as usize;
    if p == at {
        assert forall|i: int| 0 <= i < fewer.len() implies (#[trigger] fewer[i]) >= n by {
            assert(gone[k] < gone[k + 1 + i]);
        }
        assert forall|i: int| 0 <= i < more.len() implies (#[trigger] more[i]) >= p by {
            if i > 0 {
                assert(gone[k] < gone[k + i]);
            }
        }
        left_before(s, fewer, n);
        left_before(s, more, p);
        assert(more[0] == last);
        assert(s.take(n as int).remove(at) =~= s.take(p as int));
    } else {
        remove_one(s, gone, k, p);
        let a = left(s, fewer, p);
        assert(more.contains(last) == fewer.contains(last)) by {
            if more.contains(last) {
                let z = choose|z: int| 0 <= z < more.len() && more[z] == last;
                assert(z > 0);
                assert(fewer[z - 1] == last);
            }
            if fewer.contains(last) {
                let z = choose|z: int| 0 <= z < fewer.len() && fewer[z] == last;
                assert(more[z + 1] == last);
            }
        }
        if !fewer.contains(last) {
            assert(a.push(s[n - 1]).remove(at) =~= a.remove(at).push(s[n - 1]));
        }
    }
}

/// No more requests are in flight than there are regions.
pub proof fn requests_fit_their_regions(s: Schedule)
    requires
        s.wf(),
    ensures
        s.slots@.len() <= s.n_seq,
{
    fit(regions(s.slots@), s.n_seq as nat);
}

proof fn fit(r: Seq<usize>, n: nat)
    requires
        n <= usize::MAX,
        forall|i: int| 0 <= i < r.len() ==> (#[trigger] r[i]) < n,
        forall|i: int, j: int| 0 <= i < j < r.len() ==> (#[trigger] r[i]) != (#[trigger] r[j]),
    ensures
        r.len() <= n,
    decreases n,
{
    if r.len() > 0 {
        assert(r[0] < n);
        let top = (n - 1) as usize;
        if r.contains(top) {
            let z = choose|z: int| 0 <= z < r.len() && r[z] == top;
            let q = r.remove(z);
            assert forall|i: int| 0 <= i < q.len() implies (#[trigger] q[i]) < n - 1 by {
                let a = if i < z {
                    i
                } else {
                    i + 1
                };
                assert(q[i] == r[a]);
                assert(r[a] != r[z]);
            }
            assert forall|i: int, j: int| 0 <= i < j < q.len() implies (#[trigger] q[i]) != (
            #[trigger] q[j]) by {
                let a = if i < z {
                    i
                } else {
                    i + 1
                };
                let b = if j < z {
                    j
                } else {
                    j + 1
                };
                assert(q[i] == r[a] && q[j] == r[b]);
            }
            fit(q, (n - 1) as nat);
        } else {
            assert forall|i: int| 0 <= i < r.len() implies (#[trigger] r[i]) < n - 1 by {
                if r[i] == top {
                    assert(r.contains(top));
                }
            }
            fit(r, (n - 1) as nat);
        }
    }
}

} // verus!
