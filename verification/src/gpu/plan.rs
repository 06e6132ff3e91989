//! A list of calls that is drawn up step by step and ends at the first fault.

use vstd::prelude::*;

use crate::error::{Error, ErrorView};

verus! {

/// A step of a plan: something that must be there, or a call.
pub enum Step<V> {
    /// What is wrong, if anything.
    Need(Option<ErrorView>),
    Do(V),
}

/// The fault that the first `n` steps end at.
pub open spec fn fault_of<V>(s: Seq<Step<V>>, n: nat) -> Option<ErrorView>
    decreases n,
{
    if n == 0 || n > s.len() {
        None
    } else {
        match fault_of(s, (n - 1) as nat) {
            Some(e) => Some(e),
            None => match s[n - 1] {
                Step::Need(e) => e,
                Step::Do(_) => None,
            },
        }
    }
}

/// The calls among the first `n` steps that come before any fault.
pub open spec fn calls_of<V>(s: Seq<Step<V>>, n: nat) -> Seq<V>
    decreases n,
{
    if n == 0 || n > s.len() {
        Seq::empty()
    } else {
        let before = calls_of(s, (n - 1) as nat);
        match s[n - 1] {
            Step::Do(v) => if fault_of(s, (n - 1) as nat) is None {
                before.push(v)
            } else {
                before
            },
            Step::Need(_) => before,
        }
    }
}

/// Calls to be made in order, and the fault to end with once they are made.
pub struct Plan<C: View> {
    pub calls: Vec<C>,
    pub fault: Option<Error>,
    pub steps: Ghost<Seq<Step<C::V>>>,
}

pub open spec fn fault_view(e: Option<Error>) -> Option<ErrorView> {
    match e {
        Some(x) => Some(x@),
        None => None,
    }
}

proof fn prefix_decides<V>(s: Seq<Step<V>>, x: Step<V>, n: nat)
    requires
        n <= s.len(),
    ensures
        fault_of(s.push(x), n) == fault_of(s, n),
        calls_of(s.push(x), n) == calls_of(s, n),
    decreases n,
{
    if n > 0 {
        prefix_decides(s, x, (n - 1) as nat);
    }
}

impl<C: View> Plan<C> {
    /// The calls by their meaning.
    pub open spec fn made(self) -> Seq<C::V> {
        Seq::new(self.calls@.len(), |i: int| self.calls@[i]@)
    }

    /// Whether this is what comes of the steps.
    pub open spec fn follows(self, s: Seq<Step<C::V>>) -> bool {
        &&& self.made() == calls_of(s, s.len())
        &&& fault_view(self.fault) == fault_of(s, s.len())
    }

    /// Whether the plan is what comes of its steps.
    pub open spec fn wf(self) -> bool {
        self.follows(self.steps@)
    }

    pub fn new() -> (r: Self)
        ensures
            r.wf(),
            r.steps@ == Seq::<Step<C::V>>::empty(),
    {
        let r = Plan { calls: Vec::new(), fault: None, steps: Ghost(Seq::empty()) };
        assert(r.made() =~= Seq::empty());
        r
    }

    /// Something must be there: what is wrong with it, if anything.
    pub fn need(&mut self, what: Option<Error>)
        requires
            old(self).wf(),
        ensures
            final(self).wf(),
            final(self).steps@ == old(self).steps@.push(Step::Need(fault_view(what))),
    {
        let ghost before = *self;
        let ghost x: Step<C::V> = Step::Need(fault_view(what));
        if self.fault.is_none() {
            self.fault = what;
        }
        self.steps = Ghost(self.steps@.push(x));
        proof {
            prefix_decides(before.steps@, x, before.steps@.len());
            assert(self.made() =~= before.made());
        }
    }

    pub fn call(&mut self, c: C)
        requires
            old(self).wf(),
        ensures
            final(self).wf(),
            final(self).steps@ == old(self).steps@.push(Step::Do(c@)),
    {
        let ghost before = *self;
        let ghost x: Step<C::V> = Step::Do(c@);
        if self.fault.is_none() {
            self.calls.push(c);
        }
        self.steps = Ghost(self.steps@.push(x));
        proof {
            prefix_decides(before.steps@, x, before.steps@.len());
            if before.fault is None {
                assert(self.made() =~= before.made().push(c@));
            } else {
                assert(self.made() =~= before.made());
            }
        }
    }
}

/// A step behind a fault changes nothing.
pub proof fn nothing_follows_a_fault<V>(s: Seq<Step<V>>, n: nat, m: nat)
    requires
        n <= m <= s.len(),
        fault_of(s, n) is Some,
    ensures
        fault_of(s, m) == fault_of(s, n),
        calls_of(s, m) == calls_of(s, n),
    decreases m,
{
    if n < m {
        nothing_follows_a_fault(s, n, (m - 1) as nat);
    }
}

} // verus!
