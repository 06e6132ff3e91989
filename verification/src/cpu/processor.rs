//! The processor as an engine drives it.

use vstd::prelude::*;

use super::machine::{keeps_shape, not_allocated, Buffers, CpuBackend};
use super::pass::{op_ready, passes};
use crate::device::BufferId;
use crate::error::{Error, ErrorView};
use crate::model::graph::Op;
use crate::runtime::calls::{carried_out, numbers, Backend, Call, Pass};
use crate::single::{Arith, FloatOp, Ops};
use crate::text::{cat4, dec, decimal, own};

verus! {

/// The processor, the arithmetic it computes with, and the calls it was given.
pub struct Processor<'a, A: Fn(FloatOp, u32, u32) -> u32> {
    pub cpu: CpuBackend<'a>,
    pub m: Arith<A>,
    pub made: Ghost<Seq<Call>>,
}

/// Where the first operation from `i` on stands that the buffers do not fit.
pub open spec fn ready_until(
    c: CpuBackend<'_>,
    f: Ops,
    ops: Seq<Op>,
    tokens: Seq<u32>,
    i: nat,
) -> nat
    decreases ops.len() - i,
{
    if i < ops.len() && op_ready(c, f, ops[i as int], tokens) {
        ready_until(c, f, ops, tokens, i + 1)
    } else {
        i
    }
}

/// What carrying out operations gives, of which the first `k` fit the buffers, where those gave
/// `pass`.
pub open spec fn run_given(
    pass: Result<(), Error>,
    k: nat,
    ops: Seq<Op>,
    r: Result<(), Error>,
) -> bool {
    match pass {
        Err(e) => r matches Err(x) && x == e,
        Ok(_) => if k < ops.len() {
            r matches Err(x) && x@ == ErrorView::Shape("buffers do not fit the operation"@)
        } else {
            r is Ok
        },
    }
}

/// Whether operations were carried out: those before the first one that the buffers do not fit, up
/// to the first one that failed.
pub open spec fn carried(
    before: CpuBackend<'_>,
    after: CpuBackend<'_>,
    f: Ops,
    ops: Seq<Op>,
    tokens: Seq<u32>,
    positions: Seq<i32>,
    r: Result<(), Error>,
) -> bool {
    let k = ready_until(before, f, ops, tokens, 0);
    exists|trace: Seq<CpuBackend<'_>>, pass: Result<(), Error>| #[trigger]
        passes(trace, pass, f, ops.take(k as int), tokens, positions) && trace[0] == before
            && trace.last() == after && run_given(pass, k, ops, r)
}

/// Where every operation fits, none is left out.
pub(crate) proof fn all_fit(c: CpuBackend<'_>, f: Ops, ops: Seq<Op>, tokens: Seq<u32>, i: nat)
    requires
        i <= ops.len(),
        forall|j: int| 0 <= j < ops.len() ==> op_ready(c, f, #[trigger] ops[j], tokens),
    ensures
        ready_until(c, f, ops, tokens, i) == ops.len(),
    decreases ops.len() - i,
{
    if i < ops.len() {
        all_fit(c, f, ops, tokens, i + 1);
    }
}

/// The first `n` words of a buffer, or why they cannot be read.
pub open spec fn first_words(b: Buffers, src: BufferId, n: u32) -> Result<Seq<u32>, ErrorView> {
    if !b.dom().contains(src.0) {
        Err(not_allocated(src.0))
    } else if n > b[src.0]@.len() {
        Err(
            ErrorView::Shape(
                "read of "@ + dec(n as nat * 4) + " bytes at 0 exceeds buffer of "@ + dec(
                    b[src.0]@.len() * 4,
                ),
            ),
        )
    } else {
        Ok(b[src.0]@.take(n as int))
    }
}

impl<'a> CpuBackend<'a> {
    /// Carries out operations in order, up to the first one that fails or that the buffers do not
    /// fit: that one would be an index out of range. What the operations before it do cannot make
    /// it fit, so that all can be looked at first.
    pub fn carry_out<A: Fn(FloatOp, u32, u32) -> u32>(
        &mut self,
        m: &Arith<A>,
        ops: &[Op],
        tokens: &[u32],
        positions: &[i32],
    ) -> (r: Result<(), Error>)
        requires
            m.works(),
            old(self).wf(),
        ensures
            final(self).wf(),
            final(self).weights == old(self).weights,
            keeps_shape(old(self).buffers, final(self).buffers),
            carried(*old(self), *final(self), m.ops(), ops@, tokens@, positions@, r),
    {
        let ghost f = m.ops();
        let mut k: usize = 0;
        while k < ops.len() && self.is_ready(m, &ops[k], tokens)
            invariant
                *self == *old(self),
                self.wf(),
                f == m.ops(),
                k <= ops@.len(),
                ready_until(*self, f, ops@, tokens@, 0) == ready_until(
                    *self,
                    f,
                    ops@,
                    tokens@,
                    k as nat,
                ),
                forall|i: int| 0 <= i < k ==> op_ready(*self, f, #[trigger] ops@[i], tokens@),
            decreases ops@.len() - k,
        {
            k = k + 1;
        }
        let fit = vstd::slice::slice_subrange(ops, 0, k);
        assert(fit@ =~= ops@.take(k as int));
        let pass = self.pass(m, fit, tokens, positions);
        let ghost given = pass;
        let r = match pass {
            Err(e) => Err(e),
            Ok(_) => if k < ops.len() {
                Err(Error::Shape(own("buffers do not fit the operation")))
            } else {
                Ok(())
            },
        };
        assert(run_given(given, k as nat, ops@, r));
        r
    }

    /// The first `n` words of a buffer.
    pub fn words(&self, src: BufferId, n: u32) -> (r: Result<Vec<u32>, Error>)
        requires
            self.wf(),
        ensures
            numbers(r) == first_words(self.buffers@, src, n),
    {
        let s = match self.buffers.get(src.0) {
            Some(v) => v,
            None => {
                return Err(Self::absent(src.0));
            },
        };
        let n = n as usize;
        if n > s.len() {
            return Err(
                Error::Shape(
                    cat4(
                        "read of ",
                        decimal(n as u64 * 4).as_str(),
                        " bytes at 0 exceeds buffer of ",
                        decimal(s.len() as u64 * 4).as_str(),
                    ),
                ),
            );
        }
        let mut out: Vec<u32> = Vec::new();
        let mut i: usize = 0;
        while i < n
            invariant
                i <= n <= s@.len(),
                out@ =~= s@.take(i as int),
            decreases n - i,
        {
            out.push(s[i]);
            i = i + 1;
        }
        Ok(out)
    }
}

impl<'a, A: Fn(FloatOp, u32, u32) -> u32> Processor<'a, A> {
    pub fn new(cpu: CpuBackend<'a>, m: Arith<A>) -> (r: Self)
        requires
            cpu.wf(),
            m.works(),
        ensures
            r.takes_calls(),
            r.calls().len() == 0,
            r.cpu == cpu,
            r.m == m,
    {
        Processor { cpu, m, made: Ghost(Seq::empty()) }
    }
}

impl<'a, A: Fn(FloatOp, u32, u32) -> u32> Backend for Processor<'a, A> {
    open spec fn takes_calls(&self) -> bool {
        self.cpu.wf() && self.m.works()
    }

    open spec fn calls(&self) -> Seq<Call> {
        self.made@
    }

    /// Carries out operations in order, up to the first one that fails or that the buffers do not
    /// fit.
    fn run(&mut self, ops: &Vec<Op>, tokens: &[u32], positions: &Vec<i32>) -> (r: Result<
        (),
        Error,
    >)
        ensures
            final(self).m == old(self).m,
            final(self).cpu.weights == old(self).cpu.weights,
            keeps_shape(old(self).cpu.buffers, final(self).cpu.buffers),
            carried(
                old(self).cpu,
                final(self).cpu,
                old(self).m.ops(),
                ops@,
                tokens@,
                positions@,
                r,
            ),
    {
        let r = self.cpu.carry_out(&self.m, ops.as_slice(), tokens, positions.as_slice());
        proof {
            let pass = Pass { ops: ops@, tokens: tokens@, positions: positions@ };
            self.made@ = self.made@.push(Call::Run { pass, answer: carried_out(r) });
        }
        r
    }

    /// The first `n` words of a buffer.
    fn read(&mut self, src: BufferId, n: u32) -> (r: Result<Vec<u32>, Error>)
        ensures
            final(self).m == old(self).m,
            final(self).cpu == old(self).cpu,
            numbers(r) == first_words(old(self).cpu.buffers@, src, n),
    {
        let r = self.cpu.words(src, n);
        proof {
            self.made@ = self.made@.push(
                Call::Read { src, n: n as nat, answer: numbers(r) },
            );
        }
        r
    }
}

} // verus!
