//! The engine: a model on a device, its cache, and generation.

use vstd::prelude::*;

use super::calls::{
    calls_of, calls_of_both, calls_of_more, chunk_pass, fed, numbers, pass_of, passed,
    positions_from, views_of, Backend, Exchange, Outcome, Pass, Plan,
};
use super::generate::{GenView, Step, StopReason};
use super::kv::KvCache;
use super::reply::{primed, GenerateOptions, Reply, Turn};
use super::session::{
    bench_prompt, benchmark_prompt, chunks_from, noted, prompt_fault, recent_first,
    shared_from, shared_is_equal, Chunk, Session,
};
use super::talk::{answered, goes_on, one_step_more, Ending, Scene, Talk};
use crate::dtype::DType;
use crate::error::{Error, ErrorView};
use crate::gguf::reader::lossy;
use crate::jinja::number::{Maths, NumOp};
use crate::model::graph::{fault_of, Forward, Model};
use crate::sample::{fresh, greedy_params, sampled, SampleParams, Sampler, SamplerView};
use crate::single::{Arith, FloatOp, Ops};
use crate::text::texts;
use crate::tokenizer::encode::encoded;
use crate::tokenizer::facade::Tokenizer;
use crate::tokenizer::template::{turns, ChatMessage};

verus! {

/// A model on a device.
pub struct Engine<B: Backend> {
    pub model: Model,
    pub tokenizer: Tokenizer,
    pub kv: KvCache,
    pub session: Session,
    pub device: B,
}

impl<B: Backend> Engine<B> {
    pub open spec fn wf(self) -> bool {
        &&& self.model.wf()
        &&& self.tokenizer.wf()
        &&& self.kv.wf()
        &&& self.kv.n_seq > 0
        &&& self.session.wf()
        &&& self.session@.len() == self.kv.n_seq
        &&& self.device.takes_calls()
    }

    /// Whether two engines differ at most in what was run and what is resident.
    pub open spec fn same_model(self, other: Self) -> bool {
        &&& self.model == other.model
        &&& self.tokenizer == other.tokenizer
        &&& self.kv == other.kv
        &&& self.session.batch == other.session.batch
    }

    /// Whether the device was asked these passes since an earlier state, and nothing else.
    pub open spec fn asked_since(self, before: Self, xs: Seq<Exchange>) -> bool {
        self.device.calls() == before.device.calls() + calls_of(before.model, xs)
    }

    /// What a reply in a sequence is made with.
    pub open spec fn scene(self, f: Ops, seq: int) -> Scene {
        Scene { f, tokenizer: self.tokenizer, model: self.model, kv: self.kv, seq }
    }

    /// The chunks that a prompt still has to run.
    pub open spec fn to_run(self, seq: int, tokens: Seq<u32>) -> Seq<Chunk> {
        chunks_from(
            shared_from(self.session@[seq], tokens, 0),
            tokens.len(),
            self.session.batch as nat,
        )
    }

    /// An engine that has run nothing.
    pub fn new(model: Model, tokenizer: Tokenizer, kv: KvCache, batch: usize, device: B) -> (r: Self)
        requires
            model.wf(),
            tokenizer.wf(),
            kv.wf(),
            kv.n_seq > 0,
            batch > 0,
            device.takes_calls(),
        ensures
            r.wf(),
            r.model == model,
            r.tokenizer == tokenizer,
            r.kv == kv,
            r.session.batch == batch,
            r.session@ == Seq::new(kv.n_seq as nat, |i: int| Seq::<u32>::empty()),
            r.device == device,
    {
        let session = Session::new(kv.n_seq(), batch);
        Engine { model, tokenizer, kv, session, device }
    }

    /// Formats a conversation the way the model expects it.
    pub fn render_chat<
        N: Fn(NumOp, u64, u64) -> u64,
        P: Fn(&str) -> Option<u64>,
        W: Fn(u64, bool) -> String,
    >(
        &self,
        messages: &Vec<ChatMessage>,
        enable_thinking: Option<bool>,
        maths: &Maths<N, P, W>,
    ) -> (r: String)
        requires
            maths.works(),
        ensures
            r@ == self.tokenizer.template.rendering(
                maths.host(),
                turns(messages@),
                true,
                enable_thinking,
            ),
    {
        self.tokenizer.render_chat(messages, enable_thinking, maths)
    }

    pub fn tokenize_prompt(&self, text: &str) -> (r: Vec<u32>)
        requires
            self.wf(),
        ensures
            r@ == encoded(
                self.tokenizer.vocab@,
                text@,
                !self.tokenizer.template.template_adds_bos,
            ),
    {
        self.tokenizer.tokenize_prompt(text)
    }

    pub fn n_seq(&self) -> (r: usize)
        ensures
            r == self.kv.n_seq,
    {
        self.kv.n_seq()
    }

    pub fn kv_type(&self) -> (r: DType)
        ensures
            r == self.kv.dtype,
    {
        self.kv.dtype()
    }

    /// Forgets what a sequence holds, where there is such a sequence.
    pub fn reset(&mut self, seq: usize)
        requires
            old(self).wf(),
        ensures
            final(self).wf(),
            final(self).same_model(*old(self)),
            final(self).device == old(self).device,
            final(self).session@ == if seq < old(self).session@.len() {
                old(self).session@.update(seq as int, Seq::empty())
            } else {
                old(self).session@
            },
    {
        self.session.reset(seq);
    }

    /// Runs tokens at `pos` in a sequence and gives the logits for the last one.
    fn forward(&mut self, seq: usize, tokens: &[u32], pos: usize) -> (r: Result<Vec<u32>, Error>)
        requires
            old(self).wf(),
            seq < old(self).kv.n_seq,
            pos + tokens@.len() <= u32::MAX,
        ensures
            final(self).wf(),
            final(self).same_model(*old(self)),
            final(self).session == old(self).session,
            exists|xs: Seq<Exchange>| #[trigger]
                passed(
                    old(self).model,
                    old(self).kv,
                    seq as int,
                    tokens@,
                    pos as nat,
                    xs,
                    numbers(r),
                ) && final(self).asked_since(*old(self), xs),
    {
        proof {
            reveal(pass_of);
        }
        let ghost start = *self;
        let end = pos + tokens.len();
        let views = self.kv.views(seq);
        assert(views@ =~= views_of(self.kv, seq as int));
        let Forward { ops, fault } = match self.model.forward(
            tokens.len(),
            views.as_slice(),
            pos as u32,
            end as u32,
        ) {
            Ok(x) => x,
            Err(e) => {
                proof {
                    let none = Seq::<Exchange>::empty();
                    assert(passed(
                        start.model,
                        start.kv,
                        seq as int,
                        tokens@,
                        pos as nat,
                        none,
                        Err(e@),
                    ));
                    assert(start.device.calls() + calls_of(start.model, none)
                        =~= start.device.calls());
                }
                return Err(e);
            },
        };
        let mut positions: Vec<i32> = Vec::new();
        let mut p: usize = pos;
        while p < end
            invariant
                pos <= p <= end,
                end == pos + tokens@.len(),
                positions@ =~= positions_from(pos as nat, tokens@.len()).take(p - pos),
            decreases end - p,
        {
            positions.push(p as i32);
            p = p + 1;
        }
        let ghost all = positions_from(pos as nat, tokens@.len());
        assert(all.take(end - pos) =~= all);
        let ghost plan = Plan {
            pass: Pass { ops: ops@, tokens: tokens@, positions: positions@ },
            fault: fault_of(fault),
        };
        match self.device.run(&ops, tokens, &positions) {
            Ok(_) => {},
            Err(e) => {
                proof {
                    one_exchange(
                        start,
                        *self,
                        seq as int,
                        tokens@,
                        pos as nat,
                        Exchange { plan, outcome: Outcome::Failed(e@) },
                    );
                }
                return Err(e);
            },
        }
        match fault {
            Some(e) => {
                proof {
                    one_exchange(
                        start,
                        *self,
                        seq as int,
                        tokens@,
                        pos as nat,
                        Exchange { plan, outcome: Outcome::Short(e@) },
                    );
                }
                return Err(e);
            },
            None => {},
        }
        match self.device.read(self.model.scratch.logits, self.model.spec.n_vocab) {
            Ok(logits) => {
                proof {
                    one_exchange(
                        start,
                        *self,
                        seq as int,
                        tokens@,
                        pos as nat,
                        Exchange { plan, outcome: Outcome::Logits(logits@) },
                    );
                }
                Ok(logits)
            },
            Err(e) => {
                proof {
                    one_exchange(
                        start,
                        *self,
                        seq as int,
                        tokens@,
                        pos as nat,
                        Exchange { plan, outcome: Outcome::Unread(e@) },
                    );
                }
                Err(e)
            },
        }
    }

    /// Feeds tokens into a sequence, reusing whatever prefix is already cached. Gives the logits
    /// for the last token and how many tokens actually had to be run.
    ///
    /// A scheduler can interleave several sequences: [`Engine::generate`] is only one way to
    /// drive the model.
    #[verifier::rlimit(50)]
    pub fn prefill(&mut self, seq: usize, tokens: &[u32]) -> (r: Result<(Vec<u32>, usize), Error>)
        requires
            old(self).wf(),
            seq < old(self).kv.n_seq,
            tokens@.len() <= u32::MAX,
        ensures
            final(self).wf(),
            final(self).same_model(*old(self)),
            fed_by(
                *old(self),
                *final(self),
                seq as int,
                old(self).session@[seq as int],
                tokens@,
                last_logits(r),
            ),
            r matches Ok((_, computed)) ==> computed == tokens@.len() - shared_from(
                old(self).session@[seq as int],
                tokens@,
                0,
            ),
            tokens@.len() == 0 ==> r is Ok,
            tokens@.len() > 0 ==> (chunk_pass(
                old(self).model,
                old(self).kv,
                seq as int,
                tokens@,
                old(self).to_run(seq as int, tokens@)[0],
            ) matches Err(e) ==> r is Err && r->Err_0@ == e && final(self).device.calls() == old(
                self,
            ).device.calls()),
    {
        let ghost start = *self;
        let plan = self.session.plan(seq, tokens);
        let ghost held = start.session@[seq as int];
        let ghost chunks = start.to_run(seq as int, tokens@);
        let ghost shared = shared_from(held, tokens@, 0);
        let mut logits: Vec<u32> = Vec::new();
        let mut computed: usize = 0;
        let mut i: usize = 0;
        let ghost mut xs = Seq::<Exchange>::empty();
        proof {
            plan_is_sound(held, tokens@, start.session.batch as nat);
            shared_is_within(held, tokens@, 0);
            assert(held.take(0) =~= tokens@.take(0));
            shared_is_equal(held, tokens@, 0);
            assert(start.device.calls() + calls_of(start.model, xs) =~= start.device.calls());
        }
        if plan.len() > 0 {
            self.session.keep(seq, plan[0].start);
        }
        proof {
            if tokens@.len() > 0 {
                assert(chunks.len() > 0);
                assert(chunks[0].start == shared);
            } else {
                assert(shared == 0);
                assert(chunks.len() == 0);
            }
            if chunks.len() > 0 {
                assert(held.take(held.len() as int) =~= held);
                assert(start.session@.update(seq as int, held) =~= start.session@);
            }
        }
        let ghost kept = self.session;
        while i < plan.len()
            invariant
                start == *old(self),
                start.wf(),
                self.wf(),
                self.same_model(start),
                self.session == kept,
                chunks.len() > 0 ==> kept@ == start.session@.update(
                    seq as int,
                    tokens@.take(shared as int),
                ),
                chunks.len() == 0 ==> kept@ == start.session@,
                chunks.len() == 0 <==> tokens@.len() == 0,
                seq < start.kv.n_seq,
                tokens@.len() <= u32::MAX,
                plan@ == chunks,
                held == start.session@[seq as int],
                chunks == start.to_run(seq as int, tokens@),
                shared == shared_from(held, tokens@, 0),
                well_cut(chunks, shared, tokens@.len()),
                i <= chunks.len(),
                shared + computed == reached(chunks, shared, i as nat),
                fed(start.model, start.kv, seq as int, tokens@, chunks.take(i as int), xs, Ok(logits@)),
                self.asked_since(start, xs),
            decreases plan@.len() - i,
        {
            let c = plan[i];
            assert(chunks[i as int] == c);
            let part = vstd::slice::slice_subrange(tokens, c.start, c.end);
            let ghost mid = *self;
            let ghost before = logits@;
            match self.forward(seq, part, c.start) {
                Ok(l) => {
                    proof {
                        let more = feed_more(
                            start,
                            mid,
                            *self,
                            seq as int,
                            tokens@,
                            chunks,
                            i as nat,
                            xs,
                            before,
                            Ok(l@),
                        );
                        xs = more;
                    }
                    logits = l;
                },
                Err(e) => {
                    proof {
                        let more = feed_more(
                            start,
                            mid,
                            *self,
                            seq as int,
                            tokens@,
                            chunks,
                            i as nat,
                            xs,
                            before,
                            Err(e@),
                        );
                        assert(fed(
                            start.model,
                            start.kv,
                            seq as int,
                            tokens@,
                            chunks,
                            more,
                            Err(e@),
                        ));
                        nothing_without_a_pass(
                            start,
                            *self,
                            seq as int,
                            tokens@,
                            chunks,
                            more,
                            Err(e@),
                        );
                    }
                    return Err(e);
                },
            }
            computed = computed + (c.end - c.start);
            i = i + 1;
        }
        self.session.ran(seq, tokens);
        proof {
            assert(chunks.take(i as int) =~= chunks);
            assert(fed(start.model, start.kv, seq as int, tokens@, chunks, xs, Ok(logits@)));
            assert(self.session@ =~= start.session@.update(seq as int, tokens@));
            if tokens@.len() > 0 {
                nothing_without_a_pass(
                    start,
                    *self,
                    seq as int,
                    tokens@,
                    chunks,
                    xs,
                    Ok(logits@),
                );
            }
        }
        Ok((logits, computed))
    }

    /// One decode step for a sequence: runs a token at `pos` and gives the next logits.
    pub fn decode_step(&mut self, seq: usize, token: u32, pos: usize) -> (r: Result<Vec<u32>, Error>)
        requires
            old(self).wf(),
            seq < old(self).kv.n_seq,
            pos < u32::MAX,
        ensures
            final(self).wf(),
            final(self).same_model(*old(self)),
            exists|xs: Seq<Exchange>| #[trigger]
                passed(
                    old(self).model,
                    old(self).kv,
                    seq as int,
                    seq![token],
                    pos as nat,
                    xs,
                    numbers(r),
                ) && final(self).asked_since(*old(self), xs),
            final(self).session@ == old(self).session@.update(
                seq as int,
                noted(old(self).session@[seq as int], token, pos as nat, r is Ok),
            ),
    {
        let ghost before = self.session@;
        let ghost held = before[seq as int];
        let one = [token];
        assert(one@ =~= seq![token]);
        self.session.keep(seq, pos);
        proof {
            assert(held.take(held.len() as int) =~= held);
            assert(before.update(seq as int, held) =~= before);
        }
        let logits = self.forward(seq, &one, pos)?;
        self.session.push(seq, token, pos);
        assert(self.session@ =~= before.update(
            seq as int,
            noted(held, token, pos as nat, true),
        ));
        Ok(logits)
    }

    /// Logits for the final position of `tokens`, with no sampling. The sequence is cleared
    /// first, so that the result depends only on the input.
    pub fn logits_for(&mut self, tokens: &[u32]) -> (r: Result<Vec<u32>, Error>)
        requires
            old(self).wf(),
            tokens@.len() <= u32::MAX,
        ensures
            final(self).wf(),
            final(self).same_model(*old(self)),
            fed_by(*old(self), *final(self), 0, Seq::empty(), tokens@, numbers(r)),
            tokens@.len() == 0 ==> r is Ok,
    {
        let ghost start = *self;
        self.reset(0);
        let ghost cleared = *self;
        assert(cleared.session@[0] == Seq::<u32>::empty());
        match self.prefill(0, tokens) {
            Ok((logits, _)) => {
                proof {
                    fed_from_cleared(start, cleared, *self, 0, tokens@, Ok(logits@));
                }
                Ok(logits)
            },
            Err(e) => {
                proof {
                    fed_from_cleared(start, cleared, *self, 0, tokens@, Err(e@));
                }
                Err(e)
            },
        }
    }
}

/// The logits that feeding a prompt gave, or the error.
pub open spec fn last_logits(r: Result<(Vec<u32>, usize), Error>) -> Result<Seq<u32>, ErrorView> {
    match r {
        Ok((l, _)) => Ok(l@),
        Err(e) => Err(e@),
    }
}

/// A prompt was fed into a sequence that held tokens: what they share with it was not run again,
/// the rest was passed to the device chunk by chunk, and the prompt is resident afterwards, or the
/// shared part of it where a chunk failed.
pub open spec fn fed_by<B: Backend>(
    a: Engine<B>,
    b: Engine<B>,
    seq: int,
    held: Seq<u32>,
    tokens: Seq<u32>,
    r: Result<Seq<u32>, ErrorView>,
) -> bool {
    let shared = shared_from(held, tokens, 0);
    let chunks = chunks_from(shared, tokens.len(), a.session.batch as nat);
    &&& b.session@ == a.session@.update(
        seq,
        if r is Ok {
            tokens
        } else {
            tokens.take(shared as int)
        },
    )
    &&& exists|xs: Seq<Exchange>| #[trigger]
        fed(a.model, a.kv, seq, tokens, chunks, xs, r) && b.asked_since(a, xs)
}

pub(crate) proof fn fed_from_cleared<B: Backend>(
    start: Engine<B>,
    cleared: Engine<B>,
    end: Engine<B>,
    seq: int,
    tokens: Seq<u32>,
    r: Result<Seq<u32>, ErrorView>,
)
    requires
        0 <= seq < start.session@.len(),
        cleared.same_model(start),
        cleared.device == start.device,
        cleared.session@ == start.session@.update(seq, Seq::empty()),
        fed_by(cleared, end, seq, Seq::empty(), tokens, r),
    ensures
        fed_by(start, end, seq, Seq::empty(), tokens, r),
{
    let now = if r is Ok {
        tokens
    } else {
        tokens.take(shared_from(Seq::empty(), tokens, 0) as int)
    };
    assert(cleared.session@.update(seq, now) =~= start.session@.update(seq, now));
    let chunks = chunks_from(
        shared_from(Seq::empty(), tokens, 0),
        tokens.len(),
        start.session.batch as nat,
    );
    let xs = choose|xs: Seq<Exchange>| #[trigger]
        fed(cleared.model, cleared.kv, seq, tokens, chunks, xs, r) && end.asked_since(cleared, xs);
    assert(fed(start.model, start.kv, seq, tokens, chunks, xs, r) && end.asked_since(start, xs));
}

proof fn one_exchange<B: Backend>(
    a: Engine<B>,
    b: Engine<B>,
    seq: int,
    tokens: Seq<u32>,
    pos: nat,
    x: Exchange,
)
    requires
        pass_of(a.model, a.kv, seq, tokens, pos) == Ok::<Plan, ErrorView>(x.plan),
        x.fits(),
        b.device.calls() =~= a.device.calls() + x.calls(a.model),
    ensures
        passed(a.model, a.kv, seq, tokens, pos, seq![x], x.given()),
        b.asked_since(a, seq![x]),
{
    let none = Seq::<Exchange>::empty();
    calls_of_more(a.model, none, x);
    assert(none.push(x) =~= seq![x]);
    assert(calls_of(a.model, none) + x.calls(a.model) =~= x.calls(a.model));
}

proof fn asked_both<B: Backend>(
    a: Engine<B>,
    b: Engine<B>,
    c: Engine<B>,
    xs: Seq<Exchange>,
    ys: Seq<Exchange>,
)
    requires
        b.model == a.model,
        b.asked_since(a, xs),
        c.asked_since(b, ys),
    ensures
        c.asked_since(a, xs + ys),
{
    calls_of_both(a.model, xs, ys);
    assert(a.device.calls() + calls_of(a.model, xs) + calls_of(a.model, ys) =~= a.device.calls() + (
    calls_of(a.model, xs) + calls_of(a.model, ys)));
}

proof fn feed_more<B: Backend>(
    start: Engine<B>,
    mid: Engine<B>,
    end: Engine<B>,
    seq: int,
    tokens: Seq<u32>,
    chunks: Seq<Chunk>,
    i: nat,
    xs: Seq<Exchange>,
    before: Seq<u32>,
    r: Result<Seq<u32>, ErrorView>,
) -> (more: Seq<Exchange>)
    requires
        i < chunks.len(),
        mid.same_model(start),
        mid.asked_since(start, xs),
        fed(start.model, start.kv, seq, tokens, chunks.take(i as int), xs, Ok(before)),
        exists|ys: Seq<Exchange>| #[trigger]
            passed(
                mid.model,
                mid.kv,
                seq,
                tokens.subrange(chunks[i as int].start as int, chunks[i as int].end as int),
                chunks[i as int].start as nat,
                ys,
                r,
            ) && end.asked_since(mid, ys),
    ensures
        end.asked_since(start, more),
        r is Ok ==> fed(start.model, start.kv, seq, tokens, chunks.take(i as int + 1), more, r),
        r is Err ==> fed(start.model, start.kv, seq, tokens, chunks, more, r),
{
    let c = chunks[i as int];
    let ys = choose|ys: Seq<Exchange>| #[trigger]
        passed(
            mid.model,
            mid.kv,
            seq,
            tokens.subrange(c.start as int, c.end as int),
            c.start as nat,
            ys,
            r,
        ) && end.asked_since(mid, ys);
    let more = xs + ys;
    asked_both(start, mid, end, xs, ys);
    assert(xs.len() == i);
    assert forall|j: int| 0 <= j < more.len() implies chunk_pass(
        start.model,
        start.kv,
        seq,
        tokens,
        chunks[j],
    ) == Ok::<Plan, ErrorView>((#[trigger] more[j]).plan) && more[j].fits() by {
        if j < i {
            assert(more[j] == xs[j]);
            assert(chunks.take(i as int)[j] == chunks[j]);
        } else {
            assert(more[j] == ys[0]);
        }
    }
    assert forall|j: int| 0 <= j < more.len() - 1 implies (#[trigger] more[j]).outcome is Logits by {
        assert(more[j] == xs[j]);
        if j == i - 1 {
            assert(xs[j] == xs.last());
        }
    }
    if ys.len() > 0 {
        assert(more.last() == ys[0]);
    } else {
        assert(more =~= xs);
    }
    assert forall|j: int| 0 <= j < i + 1 implies chunks.take(i as int + 1)[j] == #[trigger] chunks[j] by {}
    more
}

proof fn nothing_without_a_pass<B: Backend>(
    a: Engine<B>,
    b: Engine<B>,
    seq: int,
    tokens: Seq<u32>,
    chunks: Seq<Chunk>,
    xs: Seq<Exchange>,
    r: Result<Seq<u32>, ErrorView>,
)
    requires
        chunks.len() > 0,
        fed(a.model, a.kv, seq, tokens, chunks, xs, r),
        b.asked_since(a, xs),
    ensures
        chunk_pass(a.model, a.kv, seq, tokens, chunks[0]) matches Err(e) ==> r == Err::<
            Seq<u32>,
            ErrorView,
        >(e) && b.device.calls() == a.device.calls(),
{
    if chunk_pass(a.model, a.kv, seq, tokens, chunks[0]) is Err {
        if xs.len() > 0 {
            assert(chunk_pass(a.model, a.kv, seq, tokens, chunks[0]) == Ok::<Plan, ErrorView>(
                xs[0].plan,
            ));
        }
        assert(a.device.calls() + Seq::empty() =~= a.device.calls());
    }
}

/// A finished answer.
#[derive(Debug)]
pub struct Answer {
    pub text: String,
    pub reason: StopReason,
    /// Tokens of the prompt that had to be run.
    pub prompt_tokens: usize,
    pub generated_tokens: usize,
}

/// A reply that has not said anything yet.
pub open spec fn unsaid(
    f: Ops,
    prompt: Seq<u32>,
    n_ctx: nat,
    opts: GenerateOptions,
) -> (SamplerView, GenView) {
    (
        primed(
            fresh(f, opts.params),
            recent_first(prompt, opts.params.repeat_last_n as nat),
        ),
        GenView {
            text: Seq::empty(),
            pending: Seq::empty(),
            pos: prompt.len(),
            generated: 0,
            n_ctx,
            max_tokens: opts.max_tokens as nat,
            stops: texts(opts.stop_strings@),
        },
    )
}

impl<B: Backend> Engine<B> {
    /// The sequence that a request asks for, or the last one where there is no such.
    pub open spec fn seq_of(self, asked: usize) -> int {
        if asked < self.kv.n_seq {
            asked as int
        } else {
            self.kv.n_seq - 1
        }
    }

    pub fn sequence(&self, asked: usize) -> (r: usize)
        requires
            self.wf(),
        ensures
            r == self.seq_of(asked),
            r < self.kv.n_seq,
    {
        let n = self.kv.n_seq();
        if asked < n {
            asked
        } else {
            n - 1
        }
    }

    /// Feeds a prompt and starts the reply to it. Gives the reply, the logits that its first
    /// token is drawn from, and how many tokens had to be run.
    pub fn begin<A: Fn(FloatOp, u32, u32) -> u32>(
        &mut self,
        prompt: &[u32],
        opts: GenerateOptions,
        m: &Arith<A>,
    ) -> (r: Result<(Reply, Vec<u32>, usize), Error>)
        requires
            m.works(),
            old(self).wf(),
        ensures
            final(self).wf(),
            final(self).same_model(*old(self)),
            match prompt_fault(prompt@.len(), old(self).kv.n_ctx as nat) {
                Some(e) => r is Err && r->Err_0@ == e && *final(self) == *old(self),
                None => {
                    let seq = old(self).seq_of(opts.seq);
                    let held = old(self).session@[seq];
                    match r {
                        Ok((reply, logits, computed)) => {
                            &&& reply.wf()
                            &&& (reply.sampler@, reply.generation@) == unsaid(
                                m.ops(),
                                prompt@,
                                old(self).kv.n_ctx as nat,
                                opts,
                            )
                            &&& fed_by(
                                *old(self),
                                *final(self),
                                seq,
                                held,
                                prompt@,
                                Ok(logits@),
                            )
                            &&& computed == prompt@.len() - shared_from(held, prompt@, 0)
                        },
                        Err(e) => fed_by(*old(self), *final(self), seq, held, prompt@, Err(e@)),
                    }
                },
            },
    {
        let seq = self.sequence(opts.seq);
        let n_ctx = self.kv.n_ctx();
        let reply = Reply::start(
            prompt,
            n_ctx,
            opts.max_tokens,
            opts.params,
            opts.stop_strings,
            m,
        )?;
        let (logits, computed) = self.prefill(seq, prompt)?;
        Ok((reply, logits, computed))
    }

    /// Draws the tokens of a reply one after the other, handing each piece of text to
    /// `on_token`, which ends the reply by giving `false`: that is how a server cancels a
    /// request whose client has gone away.
    pub fn go_on<A: Fn(FloatOp, u32, u32) -> u32, F: Fn(&str, u32) -> bool>(
        &mut self,
        seq: usize,
        reply: &mut Reply,
        first: Vec<u32>,
        on_token: &F,
        m: &Arith<A>,
    ) -> (r: Result<StopReason, Error>)
        requires
            m.works(),
            old(self).wf(),
            seq < old(self).kv.n_seq,
            old(reply).wf(),
            old(reply).generation.n_ctx <= u32::MAX,
            old(reply).generation.pos == old(self).session@[seq as int].len(),
            forall|text: &str, token: u32| call_requires(on_token, (text, token)),
        ensures
            final(self).wf(),
            final(self).same_model(*old(self)),
            talked(
                *old(self),
                *final(self),
                m.ops(),
                seq as int,
                on_token,
                (old(reply).sampler@, old(reply).generation@),
                first@,
                (final(reply).sampler@, final(reply).generation@),
                stopped(r),
            ),
    {
        let ghost f = m.ops();
        let ghost start = *self;
        let ghost held = start.session@[seq as int];
        let ghost e = start.scene(f, seq as int);
        let ghost begun = (reply.sampler@, reply.generation@);
        let ghost n_ctx = reply.generation.n_ctx;
        let ghost mut k = Talk::opened(begun, first@);
        let mut logits = first;
        proof {
            assert(held + k.tokens =~= held);
            assert(start.session@.update(seq as int, held) =~= start.session@);
            assert(start.device.calls() + calls_of(start.model, k.exchanges)
                =~= start.device.calls());
        }
        loop
            invariant
                m.works(),
                f == m.ops(),
                start == *old(self),
                start.wf(),
                self.wf(),
                self.same_model(start),
                seq < start.kv.n_seq,
                held == start.session@[seq as int],
                e == start.scene(f, seq as int),
                begun == (old(reply).sampler@, old(reply).generation@),
                begun.1.pos == held.len(),
                reply.wf(),
                reply.generation.n_ctx == n_ctx,
                n_ctx <= u32::MAX,
                forall|text: &str, token: u32| call_requires(on_token, (text, token)),
                k.holds_so_far(e, on_token),
                k.states[0] == begun,
                k.logits[0] == first@,
                k.states.last() == (reply.sampler@, reply.generation@),
                k.logits.last() == logits@,
                reply.generation@.pos == begun.1.pos + k.tokens.len(),
                self.session@ == start.session@.update(seq as int, held + k.tokens),
                self.asked_since(start, k.exchanges),
            decreases n_ctx - reply.generation.pos,
        {
            let ghost a = (reply.sampler@, reply.generation@);
            let ghost used = logits@;
            let (token, said) = match reply.draw(&self.tokenizer, &mut logits, m) {
                Turn::End => {
                    proof {
                        let end = Ending::Stop {
                            wanted: true,
                            reason: StopReason::EndOfGeneration,
                        };
                        assert(k.holds(e, on_token, end, (reply.sampler@, reply.generation@)));
                        assert(k.exchanges + end.exchanges() =~= k.exchanges);
                    }
                    return Ok(StopReason::EndOfGeneration);
                },
                Turn::Say(token, said) => (token, said),
            };
            let speaks = !said.as_str().is_empty();
            let wanted = !speaks || on_token(said.as_str(), token);
            assert(answered(on_token, said@, token, wanted));
            match reply.generation.decide(speaks, wanted) {
                Step::Stop(reason) => {
                    proof {
                        let end = Ending::Stop { wanted, reason };
                        assert(k.holds(e, on_token, end, (reply.sampler@, reply.generation@)));
                        assert(k.exchanges + end.exchanges() =~= k.exchanges);
                    }
                    return Ok(reason);
                },
                Step::Run(pos) => {
                    let ghost b = (reply.sampler@, reply.generation@);
                    let ghost mid = *self;
                    let ghost at = held + k.tokens;
                    proof {
                        assert(goes_on(e, on_token, a, used, wanted, b, token));
                        assert(at.take(pos as int) =~= at);
                    }
                    match self.decode_step(seq, token, pos) {
                        Ok(l) => {
                            proof {
                                let xs = choose|xs: Seq<Exchange>| #[trigger]
                                    passed(
                                        mid.model,
                                        mid.kv,
                                        seq as int,
                                        seq![token],
                                        pos as nat,
                                        xs,
                                        Ok(l@),
                                    ) && self.asked_since(mid, xs);
                                one_step_more(k, e, on_token, wanted, token, b, xs[0], l@);
                                let longer = k.with(wanted, token, b, xs[0], l@);
                                asked_both(start, mid, *self, k.exchanges, xs);
                                assert(k.exchanges + xs =~= longer.exchanges);
                                assert(at.push(token) =~= held + longer.tokens);
                                assert(self.session@ =~= start.session@.update(
                                    seq as int,
                                    held + longer.tokens,
                                ));
                                k = longer;
                            }
                            logits = l;
                        },
                        Err(error) => {
                            proof {
                                let xs = choose|xs: Seq<Exchange>| #[trigger]
                                    passed(
                                        mid.model,
                                        mid.kv,
                                        seq as int,
                                        seq![token],
                                        pos as nat,
                                        xs,
                                        Err(error@),
                                    ) && self.asked_since(mid, xs);
                                let end = Ending::Break { wanted, token, xs, error: error@ };
                                assert(k.holds(e, on_token, end, b));
                                asked_both(start, mid, *self, k.exchanges, xs);
                                assert(self.session@ =~= start.session@.update(seq as int, at));
                            }
                            return Err(error);
                        },
                    }
                },
            }
        }
    }

    /// Generates from a prompt, handing each piece of text to `on_token`.
    pub fn generate<A: Fn(FloatOp, u32, u32) -> u32, F: Fn(&str, u32) -> bool>(
        &mut self,
        prompt: &[u32],
        opts: GenerateOptions,
        on_token: &F,
        m: &Arith<A>,
    ) -> (r: Result<Answer, Error>)
        requires
            m.works(),
            old(self).wf(),
            forall|text: &str, token: u32| call_requires(on_token, (text, token)),
        ensures
            final(self).wf(),
            final(self).same_model(*old(self)),
            match prompt_fault(prompt@.len(), old(self).kv.n_ctx as nat) {
                Some(e) => r is Err && r->Err_0@ == e && *final(self) == *old(self),
                None => {
                    let seq = old(self).seq_of(opts.seq);
                    let held = old(self).session@[seq];
                    ||| r is Err && fed_by(
                        *old(self),
                        *final(self),
                        seq,
                        held,
                        prompt@,
                        Err(r->Err_0@),
                    )
                    ||| exists|
                        mid: Engine<B>,
                        first: Seq<u32>,
                        last: (SamplerView, GenView),
                    |
                        {
                            &&& #[trigger] fed_by(*old(self), mid, seq, held, prompt@, Ok(first))
                            &&& mid.same_model(*old(self))
                            &&& #[trigger] talked(
                                mid,
                                *final(self),
                                m.ops(),
                                seq,
                                on_token,
                                unsaid(m.ops(), prompt@, old(self).kv.n_ctx as nat, opts),
                                first,
                                last,
                                reason_of(r),
                            )
                            &&& r matches Ok(x) ==> x.text@ == last.1.text + flushed(
                                last.1.pending,
                            ) && x.generated_tokens == last.1.generated && x.prompt_tokens
                                == prompt@.len() - shared_from(held, prompt@, 0)
                        }
                },
            },
    {
        let ghost start = *self;
        let seq = self.sequence(opts.seq);
        let ghost held = start.session@[seq as int];
        let ghost begun = unsaid(m.ops(), prompt@, start.kv.n_ctx as nat, opts);
        let (mut reply, first, prompt_tokens) = self.begin(prompt, opts, m)?;
        let ghost mid = *self;
        let ghost l = first@;
        assert(mid.session@[seq as int] == prompt@);
        let reason = match self.go_on(seq, &mut reply, first, on_token, m) {
            Ok(reason) => reason,
            Err(e) => {
                assert(fed_by(start, mid, seq as int, held, prompt@, Ok(l)));
                assert(talked(
                    mid,
                    *self,
                    m.ops(),
                    seq as int,
                    on_token,
                    begun,
                    l,
                    (reply.sampler@, reply.generation@),
                    Err(e@),
                ));
                return Err(e);
            },
        };
        let ghost last = (reply.sampler@, reply.generation@);
        let generated_tokens = reply.generation.generated;
        reply.generation.finish();
        assert(fed_by(start, mid, seq as int, held, prompt@, Ok(l)));
        assert(talked(mid, *self, m.ops(), seq as int, on_token, begun, l, last, Ok(reason)));
        Ok(Answer { text: reply.generation.text, reason, prompt_tokens, generated_tokens })
    }
}

pub open spec fn stopped(r: Result<StopReason, Error>) -> Result<StopReason, ErrorView> {
    match r {
        Ok(x) => Ok(x),
        Err(e) => Err(e@),
    }
}

/// Why an answer ended, or the error in place of one.
pub open spec fn reason_of(r: Result<Answer, Error>) -> Result<StopReason, ErrorView> {
    match r {
        Ok(x) => Ok(x.reason),
        Err(e) => Err(e@),
    }
}

/// A reply was told in a sequence, from a first state and logits to a last state. The device was
/// asked to run each of its tokens, and nothing else, and those that ran are resident behind what
/// the sequence held.
pub open spec fn talked<B: Backend, F: Fn(&str, u32) -> bool>(
    a: Engine<B>,
    b: Engine<B>,
    f: Ops,
    seq: int,
    on_token: &F,
    begun: (SamplerView, GenView),
    first: Seq<u32>,
    last: (SamplerView, GenView),
    r: Result<StopReason, ErrorView>,
) -> bool {
    exists|k: Talk, end: Ending|
        {
            &&& #[trigger] k.holds(a.scene(f, seq), on_token, end, last)
            &&& k.states[0] == begun
            &&& k.logits[0] == first
            &&& end.result() == r
            &&& b.asked_since(a, k.exchanges + end.exchanges())
            &&& b.session@ == a.session@.update(seq, a.session@[seq] + k.tokens)
        }
}

/// How many tokens a benchmark decodes: as many as asked for, or as the context has room for.
pub open spec fn decodable(asked: nat, pos: nat, n_ctx: nat) -> nat {
    let room = if pos + 1 < n_ctx {
        (n_ctx - 1 - pos) as nat
    } else {
        0
    };
    if asked < room {
        asked
    } else {
        room
    }
}

/// The logits that token `i` of a run is drawn from: the first ones, or what the device gave for
/// the token before.
pub open spec fn logits_at(first: Seq<u32>, xs: Seq<Exchange>, i: int) -> Seq<u32> {
    if i <= 0 {
        first
    } else {
        xs[i - 1].outcome->Logits_0
    }
}

/// The likeliest token.
pub open spec fn likeliest(f: Ops, logits: Seq<u32>) -> u32 {
    sampled(f, fresh(f, greedy_params()), logits)
}

/// Tokens were decoded greedily behind `pos` tokens of the first sequence, each one drawn from
/// what the device gave for the one before.
pub open spec fn decoded(
    f: Ops,
    m: Model,
    kv: KvCache,
    pos: nat,
    first: Seq<u32>,
    tokens: Seq<u32>,
    xs: Seq<Exchange>,
) -> bool {
    &&& xs.len() == tokens.len()
    &&& forall|i: int|
        0 <= i < tokens.len() ==> (#[trigger] tokens[i]) == likeliest(f, logits_at(first, xs, i))
            && pass_of(m, kv, 0, seq![tokens[i]], (pos + i) as nat) == Ok::<Plan, ErrorView>(
            xs[i].plan,
        ) && xs[i].fits() && xs[i].outcome is Logits
}

impl<B: Backend> Engine<B> {
    /// The prompt of a benchmark, run in the first sequence. Gives its length and its logits.
    pub fn benchmark_prefill(&mut self, prompt_len: usize) -> (r: Result<(usize, Vec<u32>), Error>)
        requires
            old(self).wf(),
            prompt_len * 7919 <= usize::MAX,
            prompt_len <= u32::MAX,
        ensures
            final(self).wf(),
            final(self).same_model(*old(self)),
            ({
                let prompt = bench_prompt(
                    old(self).tokenizer.vocab.bos,
                    prompt_len as nat,
                    old(self).model.spec.n_vocab as nat,
                );
                match r {
                    Ok((n, logits)) => n == prompt.len() && fed_by(
                        *old(self),
                        *final(self),
                        0,
                        Seq::empty(),
                        prompt,
                        Ok(logits@),
                    ),
                    Err(e) => fed_by(
                        *old(self),
                        *final(self),
                        0,
                        Seq::empty(),
                        prompt,
                        Err(e@),
                    ),
                }
            }),
    {
        let prompt = benchmark_prompt(
            self.tokenizer.vocab.bos,
            prompt_len,
            self.model.spec.n_vocab as usize,
        );
        let logits = self.logits_for(prompt.as_slice())?;
        Ok((prompt.len(), logits))
    }

    /// Decodes up to `asked` tokens greedily behind the first `pos` tokens of the first sequence,
    /// and says how many they were. They are not noted as resident.
    pub fn benchmark_decode<A: Fn(FloatOp, u32, u32) -> u32>(
        &mut self,
        pos: usize,
        asked: usize,
        first: Vec<u32>,
        m: &Arith<A>,
    ) -> (r: Result<usize, Error>)
        requires
            m.works(),
            old(self).wf(),
        ensures
            final(self).wf(),
            final(self).same_model(*old(self)),
            final(self).session@ == if pos < old(self).session@[0].len() {
                old(self).session@.update(0, old(self).session@[0].take(pos as int))
            } else {
                old(self).session@
            },
            ({
                let want = decodable(asked as nat, pos as nat, old(self).kv.n_ctx as nat);
                match r {
                    Ok(n) => n == want && exists|tokens: Seq<u32>, xs: Seq<Exchange>|
                        tokens.len() == n && #[trigger] decoded(
                            m.ops(),
                            old(self).model,
                            old(self).kv,
                            pos as nat,
                            first@,
                            tokens,
                            xs,
                        ) && final(self).asked_since(*old(self), xs),
                    Err(e) => exists|tokens: Seq<u32>, xs: Seq<Exchange>, ys: Seq<Exchange>|
                        tokens.len() < want && #[trigger] decoded(
                            m.ops(),
                            old(self).model,
                            old(self).kv,
                            pos as nat,
                            first@,
                            tokens,
                            xs,
                        ) && passed(
                            old(self).model,
                            old(self).kv,
                            0,
                            seq![likeliest(m.ops(), logits_at(first@, xs, tokens.len() as int))],
                            pos as nat + tokens.len(),
                            ys,
                            Err(e@),
                        ) && #[trigger] final(self).asked_since(*old(self), xs + ys),
                }
            }),
    {
        let ghost start = *self;
        self.session.keep(0, pos);
        let ghost kept = self.session;
        let mut sampler = Sampler::new(SampleParams::greedy(), m);
        let n_ctx = self.kv.n_ctx();
        let mut logits = first;
        let mut at: usize = pos;
        let mut generated: usize = 0;
        let ghost f = m.ops();
        let ghost mut tokens = Seq::<u32>::empty();
        let ghost mut xs = Seq::<Exchange>::empty();
        assert(start.device.calls() + calls_of(start.model, xs) =~= start.device.calls());
        while generated < asked && at < n_ctx && at + 1 < n_ctx
            invariant
                m.works(),
                start == *old(self),
                start.wf(),
                self.wf(),
                self.same_model(start),
                self.session == kept,
                kept@ == if pos < start.session@[0].len() {
                    start.session@.update(0, start.session@[0].take(pos as int))
                } else {
                    start.session@
                },
                n_ctx == start.kv.n_ctx,
                at == pos + generated,
                generated <= asked,
                generated > 0 ==> at < n_ctx,
                f == m.ops(),
                sampler@ == fresh(f, greedy_params()),
                tokens.len() == generated,
                decoded(f, start.model, start.kv, pos as nat, first@, tokens, xs),
                logits@ == logits_at(first@, xs, generated as int),
                self.asked_since(start, xs),
            decreases asked - generated,
        {
            let token = sampler.sample(&mut logits, m);
            let one = [token];
            assert(one@ =~= seq![token]);
            let ghost mid = *self;
            match self.forward(0, &one, at) {
                Ok(l) => {
                    proof {
                        let ys = choose|ys: Seq<Exchange>| #[trigger]
                            passed(mid.model, mid.kv, 0, one@, at as nat, ys, Ok(l@))
                                && self.asked_since(mid, ys);
                        let more = xs.push(ys[0]);
                        let longer = tokens.push(token);
                        asked_both(start, mid, *self, xs, ys);
                        assert(xs + ys =~= more);
                        assert forall|i: int| 0 <= i < longer.len() implies (#[trigger] longer[i])
                            == likeliest(f, logits_at(first@, more, i)) && pass_of(
                            start.model,
                            start.kv,
                            0,
                            seq![longer[i]],
                            (pos + i) as nat,
                        ) == Ok::<Plan, ErrorView>(more[i].plan) && more[i].fits()
                            && more[i].outcome is Logits by {
                            if i > 0 {
                                assert(more[i - 1] == xs[i - 1]);
                            }
                            if i < tokens.len() {
                                assert(longer[i] == tokens[i]);
                                assert(more[i] == xs[i]);
                            }
                        }
                        tokens = longer;
                        xs = more;
                    }
                    logits = l;
                },
                Err(e) => {
                    proof {
                        let ys = choose|ys: Seq<Exchange>| #[trigger]
                            passed(mid.model, mid.kv, 0, one@, at as nat, ys, Err(e@))
                                && self.asked_since(mid, ys);
                        asked_both(start, mid, *self, xs, ys);
                        assert(decoded(
                            f,
                            start.model,
                            start.kv,
                            pos as nat,
                            first@,
                            tokens,
                            xs,
                        ));
                        assert(self.asked_since(start, xs + ys));
                    }
                    return Err(e);
                },
            }
            at = at + 1;
            generated = generated + 1;
        }
        assert(decoded(f, start.model, start.kv, pos as nat, first@, tokens, xs));
        Ok(generated)
    }
}

/// The text of bytes that were held back.
pub open spec fn flushed(pending: Seq<u8>) -> Seq<char> {
    if pending.len() == 0 {
        Seq::empty()
    } else {
        lossy(pending)
    }
}

/// Whether chunks follow each other from `start` to `len`.
pub open spec fn well_cut(chunks: Seq<Chunk>, start: nat, len: nat) -> bool {
    &&& start <= len
    &&& forall|i: int|
        0 <= i < chunks.len() ==> (#[trigger] chunks[i]).start < chunks[i].end <= len
            && chunks[i].start == reached(chunks, start, i as nat)
    &&& reached(chunks, start, chunks.len()) == len
}

/// Where the first `n` chunks end.
pub open spec fn reached(chunks: Seq<Chunk>, start: nat, n: nat) -> nat {
    if n == 0 {
        start
    } else {
        chunks[n - 1].end as nat
    }
}

proof fn plan_is_sound(resident: Seq<u32>, tokens: Seq<u32>, batch: nat)
    requires
        tokens.len() <= usize::MAX,
        batch > 0,
    ensures
        well_cut(
            chunks_from(shared_from(resident, tokens, 0), tokens.len(), batch),
            shared_from(resident, tokens, 0),
            tokens.len(),
        ),
{
    shared_is_within(resident, tokens, 0);
    chunks_are_well_cut(shared_from(resident, tokens, 0), tokens.len(), batch);
}

proof fn shared_is_within(resident: Seq<u32>, tokens: Seq<u32>, i: nat)
    requires
        i <= tokens.len(),
    ensures
        shared_from(resident, tokens, i) <= tokens.len(),
        i < tokens.len() ==> shared_from(resident, tokens, i) < tokens.len(),
    decreases resident.len() - i,
{
    if i < resident.len() && i + 1 < tokens.len() && resident[i as int] == tokens[i as int] {
        shared_is_within(resident, tokens, i + 1);
    }
}

proof fn chunks_are_well_cut(start: nat, len: nat, batch: nat)
    requires
        start <= len <= usize::MAX,
        batch > 0,
    ensures
        well_cut(chunks_from(start, len, batch), start, len),
    decreases len - start,
{
    let all = chunks_from(start, len, batch);
    if start < len {
        let end = if start + batch < len {
            start + batch
        } else {
            len
        };
        let rest = chunks_from(end, len, batch);
        chunks_are_well_cut(end, len, batch);
        assert(all =~= seq![Chunk { start: start as usize, end: end as usize }] + rest);
        assert forall|i: int| 0 <= i < all.len() implies (#[trigger] all[i]).start < all[i].end
            <= len && all[i].start == reached(all, start, i as nat) by {
            if i > 0 {
                assert(all[i] == rest[i - 1]);
                if i > 1 {
                    assert(all[i - 1] == rest[i - 2]);
                }
            }
        }
        if rest.len() > 0 {
            assert(all[all.len() - 1] == rest[rest.len() - 1]);
        }
    }
}

} // verus!
