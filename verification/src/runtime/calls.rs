//! What is asked of a device, and what it answers.

use vstd::prelude::*;

use super::kv::KvCache;
use super::session::Chunk;
use crate::backend::KvView;
use crate::device::BufferId;
use crate::error::{Error, ErrorView};
use crate::model::graph::{pass_fault, pass_ops, Model, Op};

verus! {

/// A pass over tokens at positions: what a device is asked to carry out.
#[verifier::ext_equal]
pub struct Pass {
    pub ops: Seq<Op>,
    pub tokens: Seq<u32>,
    pub positions: Seq<i32>,
}

/// A call of a device, with what it answered.
#[verifier::ext_equal]
pub enum Call {
    Run { pass: Pass, answer: Result<(), ErrorView> },
    Read { src: BufferId, n: nat, answer: Result<Seq<u32>, ErrorView> },
}

pub open spec fn carried_out(r: Result<(), Error>) -> Result<(), ErrorView> {
    match r {
        Ok(_) => Ok(()),
        Err(e) => Err(e@),
    }
}

pub open spec fn numbers(r: Result<Vec<u32>, Error>) -> Result<Seq<u32>, ErrorView> {
    match r {
        Ok(v) => Ok(v@),
        Err(e) => Err(e@),
    }
}

/// A device that can carry out the operations of a pass, with a list of its calls. It may answer
/// what it will: the list holds what it was asked and what it answered.
pub trait Backend {
    /// Whether the device takes calls.
    spec fn takes_calls(&self) -> bool;

    /// The calls that the device was given, in order.
    spec fn calls(&self) -> Seq<Call>;

    /// Carries out operations on tokens at positions, in order, up to the first one that fails.
    fn run(&mut self, ops: &Vec<Op>, tokens: &[u32], positions: &Vec<i32>) -> (r: Result<
        (),
        Error,
    >)
        requires
            old(self).takes_calls(),
        ensures
            final(self).takes_calls(),
            final(self).calls() == old(self).calls().push(
                Call::Run {
                    pass: Pass { ops: ops@, tokens: tokens@, positions: positions@ },
                    answer: carried_out(r),
                },
            ),
    ;

    /// The first `n` numbers of a buffer.
    fn read(&mut self, src: BufferId, n: u32) -> (r: Result<Vec<u32>, Error>)
        requires
            old(self).takes_calls(),
        ensures
            final(self).takes_calls(),
            final(self).calls() == old(self).calls().push(
                Call::Read { src, n: n as nat, answer: numbers(r) },
            ),
    ;
}

/// A device outside: a driver, a card. Nothing is known of what it does.
pub trait Device {
    /// Carries out operations on tokens at positions, in order, up to the first one that fails.
    fn run(&mut self, ops: &Vec<Op>, tokens: &[u32], positions: &Vec<i32>) -> Result<(), Error>;

    /// The first `n` numbers of a buffer.
    fn read(&mut self, src: BufferId, n: u32) -> Result<Vec<u32>, Error>;
}

/// A device outside, with the list of its calls. Each call is handed on as it is, and what comes
/// back is taken down.
pub struct Driver<D: Device> {
    pub device: D,
    pub made: Ghost<Seq<Call>>,
}

impl<D: Device> Driver<D> {
    pub fn new(device: D) -> (r: Self)
        ensures
            r.device == device,
            r.takes_calls(),
            r.calls().len() == 0,
    {
        Driver { device, made: Ghost(Seq::empty()) }
    }
}

impl<D: Device> Backend for Driver<D> {
    open spec fn takes_calls(&self) -> bool {
        true
    }

    open spec fn calls(&self) -> Seq<Call> {
        self.made@
    }

    fn run(&mut self, ops: &Vec<Op>, tokens: &[u32], positions: &Vec<i32>) -> (r: Result<
        (),
        Error,
    >)
        ensures
            exists|d: &mut D|
                *d == old(self).device && *final(d) == final(self).device
                    && #[trigger] call_ensures(D::run, (d, ops, tokens, positions), r),
    {
        let r = self.device.run(ops, tokens, positions);
        proof {
            let pass = Pass { ops: ops@, tokens: tokens@, positions: positions@ };
            self.made@ = self.made@.push(Call::Run { pass, answer: carried_out(r) });
        }
        r
    }

    fn read(&mut self, src: BufferId, n: u32) -> (r: Result<Vec<u32>, Error>)
        ensures
            exists|d: &mut D|
                *d == old(self).device && *final(d) == final(self).device
                    && #[trigger] call_ensures(D::read, (d, src, n), r),
    {
        let r = self.device.read(src, n);
        proof {
            self.made@ = self.made@.push(Call::Read { src, n: n as nat, answer: numbers(r) });
        }
        r
    }
}

/// The positions of `n` tokens from `pos` on.
pub open spec fn positions_from(pos: nat, n: nat) -> Seq<i32> {
    Seq::new(n, |i: int| ((pos + i) as usize) as i32)
}

/// The views of a sequence on every layer.
pub open spec fn views_of(kv: KvCache, seq: int) -> Seq<KvView> {
    Seq::new(kv.k@.len(), |i: int| kv.view_of(seq, i))
}

/// A pass that a device is to be given, and what is at fault where something is missing for what
/// would follow it.
#[verifier::ext_equal]
pub struct Plan {
    pub pass: Pass,
    pub fault: Option<ErrorView>,
}

/// The pass of tokens at `pos` in a sequence, or why there is none.
#[verifier::opaque]
pub open spec fn pass_of(m: Model, kv: KvCache, seq: int, tokens: Seq<u32>, pos: nat) -> Result<
    Plan,
    ErrorView,
> {
    let n = tokens.len();
    match pass_fault(m.spec@, m.scratch, n, kv.k@.len()) {
        Some(e) => Err(e),
        None => {
            let x = pass_ops(m, views_of(kv, seq), pos as u32, (pos + n) as u32, n as u32);
            let pass = Pass { ops: x.ops, tokens, positions: positions_from(pos, n) };
            Ok(Plan { pass, fault: x.fault })
        },
    }
}

/// What came of a pass that a device was given: it failed, something is missing for what would
/// follow, its logits could not be read, or they were.
#[verifier::ext_equal]
pub enum Outcome {
    Failed(ErrorView),
    Short(ErrorView),
    Unread(ErrorView),
    Logits(Seq<u32>),
}

/// A pass that a device was given, and what came of it.
#[verifier::ext_equal]
pub struct Exchange {
    pub plan: Plan,
    pub outcome: Outcome,
}

impl Exchange {
    /// Whether this can come of the plan: the logits are read just where nothing is missing.
    pub open spec fn fits(self) -> bool {
        match self.outcome {
            Outcome::Failed(_) => true,
            Outcome::Short(e) => self.plan.fault == Some(e),
            _ => self.plan.fault is None,
        }
    }

    /// The logits that the device gave, or its error.
    pub open spec fn given(self) -> Result<Seq<u32>, ErrorView> {
        match self.outcome {
            Outcome::Failed(e) => Err(e),
            Outcome::Short(e) => Err(e),
            Outcome::Unread(e) => Err(e),
            Outcome::Logits(l) => Ok(l),
        }
    }

    /// The calls of a pass: it is run, and the logits are read where that went well and nothing is
    /// missing.
    pub open spec fn calls(self, m: Model) -> Seq<Call> {
        let src = m.scratch.logits;
        let n = m.spec.n_vocab as nat;
        match self.outcome {
            Outcome::Failed(e) => seq![Call::Run { pass: self.plan.pass, answer: Err(e) }],
            Outcome::Short(_) => seq![Call::Run { pass: self.plan.pass, answer: Ok(()) }],
            Outcome::Unread(e) => seq![
                Call::Run { pass: self.plan.pass, answer: Ok(()) },
                Call::Read { src, n, answer: Err(e) },
            ],
            Outcome::Logits(l) => seq![
                Call::Run { pass: self.plan.pass, answer: Ok(()) },
                Call::Read { src, n, answer: Ok(l) },
            ],
        }
    }
}

/// The calls of passes, one after the other.
pub open spec fn calls_of(m: Model, xs: Seq<Exchange>) -> Seq<Call>
    decreases xs.len(),
{
    if xs.len() == 0 {
        Seq::empty()
    } else {
        calls_of(m, xs.drop_last()) + xs.last().calls(m)
    }
}

pub(crate) proof fn calls_of_more(m: Model, xs: Seq<Exchange>, x: Exchange)
    ensures
        calls_of(m, xs.push(x)) == calls_of(m, xs) + x.calls(m),
{
    assert(xs.push(x).drop_last() =~= xs);
}

pub(crate) proof fn calls_of_both(m: Model, a: Seq<Exchange>, b: Seq<Exchange>)
    ensures
        calls_of(m, a + b) == calls_of(m, a) + calls_of(m, b),
    decreases b.len(),
{
    if b.len() == 0 {
        assert(a + b =~= a);
        assert(calls_of(m, a) + Seq::<Call>::empty() =~= calls_of(m, a));
    } else {
        calls_of_both(m, a, b.drop_last());
        assert((a + b).drop_last() =~= a + b.drop_last());
        assert((a + b).last() == b.last());
        assert((calls_of(m, a) + calls_of(m, b.drop_last())) + b.last().calls(m) =~= calls_of(m, a)
            + (calls_of(m, b.drop_last()) + b.last().calls(m)));
    }
}

/// Tokens at `pos` in a sequence were passed to a device: nothing was asked of it where there is
/// no such pass, and else one exchange gave the logits or an error.
pub open spec fn passed(
    m: Model,
    kv: KvCache,
    seq: int,
    tokens: Seq<u32>,
    pos: nat,
    xs: Seq<Exchange>,
    r: Result<Seq<u32>, ErrorView>,
) -> bool {
    match pass_of(m, kv, seq, tokens, pos) {
        Err(e) => xs.len() == 0 && r == Err::<Seq<u32>, ErrorView>(e),
        Ok(p) => xs.len() == 1 && xs[0].plan == p && xs[0].fits() && r == xs[0].given(),
    }
}

/// The pass of a chunk of a prompt.
pub open spec fn chunk_pass(m: Model, kv: KvCache, seq: int, tokens: Seq<u32>, c: Chunk) -> Result<
    Plan,
    ErrorView,
> {
    pass_of(m, kv, seq, tokens.subrange(c.start as int, c.end as int), c.start as nat)
}

/// Chunks of a prompt were passed to a device in order, up to the first one that has no pass or
/// that the device answered with an error. Without one, the logits are those of the last chunk.
pub open spec fn fed(
    m: Model,
    kv: KvCache,
    seq: int,
    tokens: Seq<u32>,
    chunks: Seq<Chunk>,
    xs: Seq<Exchange>,
    r: Result<Seq<u32>, ErrorView>,
) -> bool {
    &&& xs.len() <= chunks.len()
    &&& forall|i: int|
        0 <= i < xs.len() ==> chunk_pass(m, kv, seq, tokens, chunks[i]) == Ok::<Plan, ErrorView>(
            (#[trigger] xs[i]).plan,
        ) && xs[i].fits()
    &&& forall|i: int| 0 <= i < xs.len() - 1 ==> (#[trigger] xs[i]).outcome is Logits
    &&& match r {
        Ok(l) => xs.len() == chunks.len() && if xs.len() == 0 {
            l.len() == 0
        } else {
            xs.last().outcome == Outcome::Logits(l)
        },
        Err(e) => if xs.len() > 0 && xs.last().outcome !is Logits {
            xs.last().given() == Err::<Seq<u32>, ErrorView>(e)
        } else {
            xs.len() < chunks.len() && chunk_pass(m, kv, seq, tokens, chunks[xs.len() as int])
                == Err::<Plan, ErrorView>(e)
        },
    }
}

/// What a prompt is answered depends on nothing but its chunks and the device's answers.
pub proof fn answers_decide_a_prompt(
    m: Model,
    kv: KvCache,
    seq: int,
    tokens: Seq<u32>,
    chunks: Seq<Chunk>,
    xs: Seq<Exchange>,
    a: Result<Seq<u32>, ErrorView>,
    b: Result<Seq<u32>, ErrorView>,
)
    requires
        fed(m, kv, seq, tokens, chunks, xs, a),
        fed(m, kv, seq, tokens, chunks, xs, b),
    ensures
        a == b,
{
    if a is Ok && b is Ok && xs.len() == 0 {
        assert(a->Ok_0 =~= b->Ok_0);
    }
}

} // verus!
