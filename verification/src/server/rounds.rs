//! The rounds of a server: requests are admitted, and every one in flight is advanced by a token
//! per round.

use vstd::prelude::*;

use super::request::{Event, Job, JobInput};
use super::schedule::{admission_fault, free_from, left, refuse_prompt, regions, Schedule, Slot};
use crate::jinja::number::{Host, Maths, NumOp};
use crate::error::ErrorView;
use crate::runtime::calls::{calls_of, numbers, passed, Backend, Call, Exchange};
use crate::runtime::engine::{fed_by, fed_from_cleared, unsaid, Engine};
use crate::runtime::generate::{decided, GenView, Step, StopReason};
use crate::runtime::reply::{turned, GenerateOptions, Reply, Turn};
use crate::runtime::session::{noted, prompt_fault};
use crate::runtime::talk::Scene;
use crate::sample::{weighed, SamplerView};
use crate::single::{Arith, FloatOp};
use crate::tokenizer::encode::encoded;
use crate::tokenizer::facade::Tokenizer;
use crate::tokenizer::template::turns;

verus! {

/// The prompt of a request. A chat is rendered with the model's own template; a raw completion
/// is fed verbatim.
pub open spec fn prompt_of(t: Tokenizer, h: Host, thinking: Option<bool>, input: JobInput) -> Seq<char> {
    match input {
        JobInput::Chat(m) => t.template.rendering(h, turns(m@), true, thinking),
        JobInput::Raw(s) => s@,
    }
}

/// The tokens of a request.
pub open spec fn tokens_of(t: Tokenizer, h: Host, thinking: Option<bool>, input: JobInput) -> Seq<u32> {
    encoded(t.vocab@, prompt_of(t, h, thinking, input), !t.template.template_adds_bos)
}

/// What is asked of the reply to a request.
pub open spec fn asked_by(job: Job) -> GenerateOptions {
    GenerateOptions {
        max_tokens: job.max_tokens,
        params: job.params,
        stop_strings: job.stop_strings,
        seq: 0,
    }
}

pub open spec fn state_of(s: Slot) -> (SamplerView, GenView) {
    (s.reply.sampler@, s.reply.generation@)
}

impl Schedule {
    /// Whether every request in flight is in the middle of its reply.
    pub open spec fn talking(self, n_ctx: nat) -> bool {
        forall|i: int|
            0 <= i < self.slots@.len() ==> (#[trigger] self.slots@[i]).reply.wf()
                && self.slots@[i].reply.generation.n_ctx == n_ctx
    }

    /// Admits a request to the model that is loaded: finds it a cache region, feeds its prompt
    /// and puts it in flight. Says why where it cannot.
    pub fn take_in<
        B: Backend,
        A: Fn(FloatOp, u32, u32) -> u32,
        N: Fn(NumOp, u64, u64) -> u64,
        P: Fn(&str) -> Option<u64>,
        W: Fn(u64, bool) -> String,
    >(
        &mut self,
        engine: &mut Engine<B>,
        job: Job,
        thinking: Option<bool>,
        m: &Arith<A>,
        maths: &Maths<N, P, W>,
    ) -> (r: Result<(), String>)
        requires
            m.works(),
            maths.works(),
            old(self).wf(),
            old(self).n_seq == old(engine).kv.n_seq,
            old(self).talking(old(engine).kv.n_ctx as nat),
            old(engine).wf(),
        ensures
            final(self).wf(),
            final(self).n_seq == old(self).n_seq,
            final(self).talking(old(engine).kv.n_ctx as nat),
            final(engine).wf(),
            final(engine).same_model(*old(engine)),
            ({
                let n_ctx = old(engine).kv.n_ctx as nat;
                let tokens = tokens_of(old(engine).tokenizer, maths.host(), thinking, job.input);
                match free_from(regions(old(self).slots@), old(self).n_seq as nat, 0) {
                    None => r is Err && r->Err_0@
                        == "every sequence slot is busy; raise `parallel` in the registry"@
                        && final(self).slots@ == old(self).slots@ && *final(engine) == *old(engine),
                    Some(seq) => match admission_fault(tokens.len(), n_ctx) {
                        Some(why) => r is Err && r->Err_0@ == why && final(self).slots@ == old(
                            self,
                        ).slots@ && *final(engine) == *old(engine),
                        None => match r {
                            Ok(_) => {
                                let s = final(self).slots@.last();
                                &&& final(self).slots@ == old(self).slots@.push(s)
                                &&& s.seq == seq
                                &&& s.prompt_tokens == tokens.len()
                                &&& state_of(s) == unsaid(m.ops(), tokens, n_ctx, asked_by(job))
                                &&& fed_by(
                                    *old(engine),
                                    *final(engine),
                                    seq as int,
                                    Seq::empty(),
                                    tokens,
                                    Ok(s.logits@),
                                )
                            },
                            Err(why) => final(self).slots@ == old(self).slots@ && exists|
                                e: ErrorView,
                            |
                                why@ == #[trigger] e.text() && fed_by(
                                    *old(engine),
                                    *final(engine),
                                    seq as int,
                                    Seq::empty(),
                                    tokens,
                                    Err(e),
                                ),
                        },
                    },
                }
            }),
    {
        let seq = self.free_region()?;
        let text = match &job.input {
            JobInput::Chat(messages) => engine.tokenizer.render_chat(messages, thinking, maths),
            JobInput::Raw(text) => crate::text::own(text.as_str()),
        };
        let tokens = engine.tokenizer.tokenize_prompt(text.as_str());
        let n_ctx = engine.kv.n_ctx();
        match refuse_prompt(tokens.len(), n_ctx) {
            Some(why) => {
                return Err(why);
            },
            None => {},
        }
        let ghost n = tokens@.len();
        assert(prompt_fault(n, n_ctx as nat) is None);
        let reply = match Reply::start(
            tokens.as_slice(),
            n_ctx,
            job.max_tokens,
            job.params,
            job.stop_strings,
            m,
        ) {
            Ok(x) => x,
            Err(e) => {
                return Err(e.message());
            },
        };
        let ghost start = *engine;
        engine.reset(seq);
        let ghost cleared = *engine;
        assert(cleared.session@[seq as int] == Seq::<u32>::empty());
        match engine.prefill(seq, tokens.as_slice()) {
            Ok((logits, computed)) => {
                proof {
                    fed_from_cleared(start, cleared, *engine, seq as int, tokens@, Ok(logits@));
                }
                self.begin(seq, reply, computed, logits);
                Ok(())
            },
            Err(e) => {
                proof {
                    fed_from_cleared(start, cleared, *engine, seq as int, tokens@, Err(e@));
                }
                let why = e.message();
                assert(why@ == e@.text());
                Err(why)
            },
        }
    }
}

/// What a round does to a request.
#[verifier::ext_equal]
pub struct Advance {
    pub slot: Slot,
    /// What its listener answered to the text.
    pub wanted: bool,
    /// The token that was to be run, and its position.
    pub run: Option<(u32, nat)>,
    /// What the device was asked for it.
    pub xs: Seq<Exchange>,
    /// The logits that came back, or the error.
    pub answer: Result<Seq<u32>, ErrorView>,
    pub end: Option<StopReason>,
}

/// The listener to request `i` got a piece of text, unless it is empty, and answered.
pub open spec fn heard_by<F: Fn(usize, Event) -> bool>(
    tell: &F,
    i: usize,
    text: Seq<char>,
    wanted: bool,
) -> bool {
    if text.len() > 0 {
        exists|s: String| s@ == text && #[trigger] call_ensures(tell, (i, Event::Chunk(s)), wanted)
    } else {
        wanted
    }
}

/// The listener to request `i` got an error.
pub open spec fn warned<F: Fn(usize, Event) -> bool>(tell: &F, i: usize, e: ErrorView) -> bool {
    exists|s: String, b: bool|
        s@ == e.text() && #[trigger] call_ensures(tell, (i, Event::Failed(s)), b)
}

/// What a round does to request `i`: a token is drawn, its text is handed out, and the token is
/// run unless the reply ends with it. The logits that come back are those of the next draw; where
/// an error comes back, the listener gets it and the request is cancelled. The sequence is the
/// request's own, whatever the scene has.
pub open spec fn advanced<F: Fn(usize, Event) -> bool>(
    e: Scene,
    tell: &F,
    i: usize,
    a: Slot,
    k: Advance,
) -> bool {
    let (s, g, said) = turned(e.f, e.tokenizer, a.reply.sampler@, a.reply.generation@, a.logits@);
    let left = weighed(e.f, a.reply.sampler@, a.logits@);
    &&& k.slot.seq == a.seq
    &&& k.slot.prompt_tokens == a.prompt_tokens
    &&& match said {
        None => {
            &&& k.end == Some(StopReason::EndOfGeneration)
            &&& state_of(k.slot) == (s, g)
            &&& k.slot.logits@ == left
            &&& k.run is None
            &&& k.xs.len() == 0
        },
        Some((token, text)) => {
            let (h, step) = decided(g, text.len() > 0, k.wanted);
            &&& heard_by(tell, i, text, k.wanted)
            &&& state_of(k.slot) == (s, h)
            &&& match step {
                Step::Stop(r) => {
                    &&& k.end == Some(r)
                    &&& k.slot.logits@ == left
                    &&& k.run is None
                    &&& k.xs.len() == 0
                },
                Step::Run(pos) => {
                    &&& k.run == Some((token, pos as nat))
                    &&& passed(
                        e.model,
                        e.kv,
                        a.seq as int,
                        seq![token],
                        pos as nat,
                        k.xs,
                        k.answer,
                    )
                    &&& match k.answer {
                        Ok(l) => k.end is None && k.slot.logits@ == l,
                        Err(x) => k.end == Some(StopReason::Cancelled) && k.slot.logits@ == left
                            && warned(tell, i, x),
                    }
                },
            }
        },
    }
}

/// Whether requests were advanced one after the other.
pub open spec fn all_advanced<F: Fn(usize, Event) -> bool>(
    e: Scene,
    tell: &F,
    before: Seq<Slot>,
    k: Seq<Advance>,
) -> bool {
    &&& k.len() <= before.len()
    &&& forall|i: int|
        0 <= i < k.len() ==> advanced(e, tell, i as usize, before[i], #[trigger] k[i])
}

/// The calls that a round made of the device.
pub open spec fn calls_made(e: Scene, k: Seq<Advance>) -> Seq<Call>
    decreases k.len(),
{
    if k.len() == 0 {
        Seq::empty()
    } else {
        calls_made(e, k.drop_last()) + calls_of(e.model, k.last().xs)
    }
}

/// What is resident after a round: each token that ran is noted in its request's sequence.
pub open spec fn resident_after(session: Seq<Seq<u32>>, k: Seq<Advance>) -> Seq<Seq<u32>>
    decreases k.len(),
{
    if k.len() == 0 {
        session
    } else {
        let before = resident_after(session, k.drop_last());
        let seq = k.last().slot.seq as int;
        match k.last().run {
            Some((token, pos)) => before.update(
                seq,
                noted(before[seq], token, pos, k.last().answer is Ok),
            ),
            None => before,
        }
    }
}

pub open spec fn slots_of(k: Seq<Advance>) -> Seq<Slot> {
    Seq::new(k.len(), |i: int| k[i].slot)
}

pub open spec fn ends_of(k: Seq<Advance>) -> Seq<Option<StopReason>> {
    Seq::new(k.len(), |i: int| k[i].end)
}

/// A round leaves a sequence that no request in flight has as it was.
pub proof fn other_sequences_are_untouched(session: Seq<Seq<u32>>, k: Seq<Advance>, seq: int)
    requires
        0 <= seq < session.len(),
        forall|i: int|
            0 <= i < k.len() ==> (#[trigger] k[i]).slot.seq != seq && k[i].slot.seq < session.len(),
    ensures
        resident_after(session, k).len() == session.len(),
        resident_after(session, k)[seq] == session[seq],
    decreases k.len(),
{
    if k.len() > 0 {
        assert forall|i: int| 0 <= i < k.drop_last().len() implies (#[trigger] k.drop_last()[i]).slot.seq
            != seq && k.drop_last()[i].slot.seq < session.len() by {
            assert(k.drop_last()[i] == k[i]);
        }
        assert(k.last() == k[k.len() - 1]);
        other_sequences_are_untouched(session, k.drop_last(), seq);
    }
}

/// The places of the first `n` requests that ended, in ascending order, and why they did.
pub open spec fn ended(ends: Seq<Option<StopReason>>, n: nat) -> Seq<(usize, StopReason)>
    decreases n,
{
    if n == 0 || n > ends.len() {
        Seq::empty()
    } else {
        let rest = ended(ends, (n - 1) as nat);
        match ends[n - 1] {
            Some(r) => rest.push(((n - 1) as usize, r)),
            None => rest,
        }
    }
}

/// The places alone.
pub open spec fn places(e: Seq<(usize, StopReason)>) -> Seq<usize> {
    Seq::new(e.len(), |i: int| e[i].0)
}

proof fn ended_ascend(ends: Seq<Option<StopReason>>, n: nat)
    requires
        n <= ends.len() <= usize::MAX,
    ensures
        forall|i: int| 0 <= i < ended(ends, n).len() ==> (#[trigger] ended(ends, n)[i]).0 < n,
        forall|i: int, j: int|
            0 <= i < j < ended(ends, n).len() ==> (#[trigger] ended(ends, n)[i]).0 < (
            #[trigger] ended(ends, n)[j]).0,
        forall|k: int|
            0 <= k < n && #[trigger] ends[k] is Some ==> places(ended(ends, n)).contains(k as usize),
    decreases n,
{
    if n > 0 {
        ended_ascend(ends, (n - 1) as nat);
        let rest = ended(ends, (n - 1) as nat);
        let all = ended(ends, n);
        assert forall|k: int| 0 <= k < n && #[trigger] ends[k] is Some implies places(
            all,
        ).contains(k as usize) by {
            if k == n - 1 {
                assert(places(all)[rest.len() as int] == k as usize);
            } else {
                let z = choose|z: int| 0 <= z < places(rest).len() && places(rest)[z] == k as usize;
                assert(places(all)[z] == k as usize);
            }
        }
    }
}

proof fn left_are_going(s: Seq<Slot>, gone: Seq<usize>, n: nat, n_ctx: nat)
    requires
        n <= s.len() <= usize::MAX,
        forall|i: int|
            0 <= i < s.len() && !gone.contains(i as usize) ==> (#[trigger] s[i]).reply.wf()
                && s[i].reply.generation.n_ctx == n_ctx,
    ensures
        forall|i: int|
            0 <= i < left(s, gone, n).len() ==> (#[trigger] left(s, gone, n)[i]).reply.wf()
                && left(s, gone, n)[i].reply.generation.n_ctx == n_ctx,
    decreases n,
{
    if n > 0 {
        left_are_going(s, gone, (n - 1) as nat, n_ctx);
        let rest = left(s, gone, (n - 1) as nat);
        let all = left(s, gone, n);
        assert forall|i: int| 0 <= i < all.len() implies (#[trigger] all[i]).reply.wf()
            && all[i].reply.generation.n_ctx == n_ctx by {
            if i < rest.len() {
                assert(all[i] == rest[i]);
            } else {
                assert(!gone.contains((n - 1) as usize) && all[i] == s[n - 1]);
            }
        }
    }
}

/// What a request took of the engine in a round.
pub open spec fn took<B: Backend>(a: Engine<B>, b: Engine<B>, k: Advance) -> bool {
    let seq = k.slot.seq as int;
    &&& b.asked_since(a, k.xs)
    &&& b.session@ == match k.run {
        Some((token, pos)) => a.session@.update(
            seq,
            noted(a.session@[seq], token, pos, k.answer is Ok),
        ),
        None => a.session@,
    }
}

/// Advances a request by one token.
fn advance_one<
    B: Backend,
    A: Fn(FloatOp, u32, u32) -> u32,
    F: Fn(usize, Event) -> bool,
>(engine: &mut Engine<B>, i: usize, slot: Slot, tell: &F, m: &Arith<A>) -> (r: (
    Slot,
    Option<StopReason>,
))
    requires
        m.works(),
        old(engine).wf(),
        slot.seq < old(engine).kv.n_seq,
        slot.reply.wf(),
        slot.reply.generation.n_ctx == old(engine).kv.n_ctx,
        forall|i: usize, e: Event| call_requires(tell, (i, e)),
    ensures
        final(engine).wf(),
        final(engine).same_model(*old(engine)),
        exists|k: Advance| #[trigger]
            advanced(old(engine).scene(m.ops(), 0), tell, i, slot, k) && k.slot == r.0 && k.end
                == r.1 && took(*old(engine), *final(engine), k),
        r.1 is None ==> r.0.reply.wf() && r.0.reply.generation.n_ctx == old(engine).kv.n_ctx,
{
    let ghost start = *engine;
    let ghost e = start.scene(m.ops(), 0);
    let ghost a = slot;
    let ghost none = Seq::<Exchange>::empty();
    let mut slot = slot;
    assert(start.device.calls() + calls_of(start.model, none) =~= start.device.calls());
    match slot.reply.draw(&engine.tokenizer, &mut slot.logits, m) {
        Turn::End => {
            let end = Some(StopReason::EndOfGeneration);
            proof {
                let k = Advance {
                    slot,
                    wanted: true,
                    run: None,
                    xs: none,
                    answer: Ok(Seq::empty()),
                    end,
                };
                assert(advanced(e, tell, i, a, k));
            }
            (slot, end)
        },
        Turn::Say(token, said) => {
            let ghost text = said@;
            let speaks = !said.as_str().is_empty();
            let wanted = !speaks || tell(i, Event::Chunk(said));
            assert(heard_by(tell, i, text, wanted));
            match slot.reply.generation.decide(speaks, wanted) {
                Step::Stop(r) => {
                    proof {
                        let k = Advance {
                            slot,
                            wanted,
                            run: None,
                            xs: none,
                            answer: Ok(Seq::empty()),
                            end: Some(r),
                        };
                        assert(advanced(e, tell, i, a, k));
                    }
                    (slot, Some(r))
                },
                Step::Run(pos) => {
                    let step = engine.decode_step(slot.seq, token, pos);
                    let ghost answer = numbers(step);
                    let ghost xs = choose|xs: Seq<Exchange>| #[trigger]
                        passed(
                            start.model,
                            start.kv,
                            slot.seq as int,
                            seq![token],
                            pos as nat,
                            xs,
                            answer,
                        ) && engine.asked_since(start, xs);
                    let end = match step {
                        Ok(l) => {
                            slot.logits = l;
                            None
                        },
                        Err(e) => {
                            let why = e.message();
                            let _ = tell(i, Event::Failed(why));
                            assert(warned(tell, i, e@));
                            Some(StopReason::Cancelled)
                        },
                    };
                    proof {
                        let run = Some((token, pos as nat));
                        let k = Advance { slot, wanted, run, xs, answer, end };
                        assert(advanced(e, tell, i, a, k));
                    }
                    (slot, end)
                },
            }
        },
    }
}

impl Schedule {
    /// Advances every request in flight by one token, handing what it says to `tell`, which
    /// gives `false` where the client is gone. Gives the requests that ended, the last one
    /// first, and their places and reasons in ascending order.
    #[verifier::rlimit(50)]
    pub fn advance<
        B: Backend,
        A: Fn(FloatOp, u32, u32) -> u32,
        F: Fn(usize, Event) -> bool,
    >(&mut self, engine: &mut Engine<B>, tell: &F, m: &Arith<A>) -> (r: (
        Vec<Slot>,
        Vec<(usize, StopReason)>,
    ))
        requires
            m.works(),
            old(self).wf(),
            old(self).n_seq == old(engine).kv.n_seq,
            old(self).talking(old(engine).kv.n_ctx as nat),
            old(engine).wf(),
            forall|i: usize, e: Event| call_requires(tell, (i, e)),
        ensures
            final(self).wf(),
            final(self).n_seq == old(self).n_seq,
            final(self).talking(old(engine).kv.n_ctx as nat),
            final(engine).wf(),
            final(engine).same_model(*old(engine)),
            exists|k: Seq<Advance>|
                {
                    &&& k.len() == old(self).slots@.len()
                    &&& #[trigger] all_advanced(
                        old(engine).scene(m.ops(), 0),
                        tell,
                        old(self).slots@,
                        k,
                    )
                    &&& final(engine).device.calls() == old(engine).device.calls() + calls_made(
                        old(engine).scene(m.ops(), 0),
                        k,
                    )
                    &&& final(engine).session@ == resident_after(old(engine).session@, k)
                    &&& r.1@ == ended(ends_of(k), k.len())
                    &&& final(self).slots@ == left(slots_of(k), places(r.1@), k.len())
                    &&& r.0@.len() == r.1@.len()
                    &&& forall|i: int|
                        0 <= i < r.0@.len() ==> (#[trigger] r.0@[i]) == k[r.1@[r.1@.len() - 1
                            - i].0 as int].slot
                },
    {
        let ghost f = m.ops();
        let ghost before = self.slots@;
        let ghost start = *engine;
        let ghost e = start.scene(f, 0);
        let ghost n_ctx = engine.kv.n_ctx as nat;
        let ghost mut k = Seq::<Advance>::empty();
        let mut done: Vec<Slot> = Vec::new();
        let mut over: Vec<(usize, StopReason)> = Vec::new();
        let mut gone: Vec<usize> = Vec::new();
        let n = self.slots.len();
        let mut i: usize = 0;
        assert(start.device.calls() + calls_made(e, k) =~= start.device.calls());
        while i < n
            invariant
                m.works(),
                f == m.ops(),
                n == before.len(),
                i <= n,
                before == old(self).slots@,
                start == *old(engine),
                e == start.scene(f, 0),
                n_ctx == start.kv.n_ctx,
                old(self).wf(),
                old(self).talking(n_ctx),
                self.n_seq == old(self).n_seq,
                self.n_seq == start.kv.n_seq,
                start.wf(),
                engine.wf(),
                engine.same_model(start),
                forall|i: usize, e: Event| call_requires(tell, (i, e)),
                self.slots@ =~= before.skip(i as int),
                all_advanced(e, tell, before, k),
                k.len() == i,
                done@ =~= slots_of(k),
                over@ == ended(ends_of(k), i as nat),
                gone@ =~= places(over@),
                engine.device.calls() == start.device.calls() + calls_made(e, k),
                engine.session@ == resident_after(start.session@, k),
                forall|j: int|
                    0 <= j < i && k[j].end is None ==> (#[trigger] k[j]).slot.reply.wf()
                        && k[j].slot.reply.generation.n_ctx == n_ctx,
            decreases n - i,
        {
            let slot = self.slots.remove(0);
            assert(slot == before[i as int]);
            assert(old(self).slots@[i as int].reply.wf());
            let ghost a = slot;
            let ghost mid = *engine;
            let (slot, end) = advance_one(engine, i, slot, tell, m);
            proof {
                let now = choose|now: Advance| #[trigger]
                    advanced(mid.scene(f, 0), tell, i, a, now) && now.slot == slot && now.end == end
                        && took(mid, *engine, now);
                let next = k.push(now);
                assert forall|j: int| 0 <= j < next.len() implies advanced(
                    e,
                    tell,
                    j as usize,
                    before[j],
                    #[trigger] next[j],
                ) by {
                    if j < i {
                        assert(next[j] == k[j]);
                    }
                }
                assert(next.drop_last() =~= k);
                assert(start.device.calls() + calls_made(e, k) + calls_of(e.model, now.xs)
                    =~= start.device.calls() + calls_made(e, next));
                ended_of_more(ends_of(k), end, i as nat);
                assert(ends_of(next) =~= ends_of(k).push(end));
                assert(slots_of(next) =~= slots_of(k).push(slot));
                k = next;
            }
            match end {
                Some(r) => {
                    over.push((i, r));
                    gone.push(i);
                },
                None => {},
            }
            done.push(slot);
            i = i + 1;
        }
        self.slots = done;
        proof {
            ended_ascend(ends_of(k), n as nat);
            assert forall|i: int, j: int| 0 <= i < j < self.slots@.len() implies (
            #[trigger] self.slots@[i]).seq != (#[trigger] self.slots@[j]).seq by {
                assert(k[i].slot.seq == before[i].seq && k[j].slot.seq == before[j].seq);
                assert(before[i].seq != before[j].seq);
            }
            assert forall|j: int| 0 <= j < self.slots@.len() implies (#[trigger] self.slots@[j]).seq
                == before[j].seq by {
                assert(k[j].slot.seq == before[j].seq);
            }
            assert forall|j: int| 0 <= j < gone@.len() implies (#[trigger] gone@[j])
                < self.slots@.len() by {
                assert(gone@[j] == over@[j].0);
            }
            assert forall|i: int, j: int| 0 <= i < j < gone@.len() implies (#[trigger] gone@[i]) < (
            #[trigger] gone@[j]) by {
                assert(gone@[i] == over@[i].0 && gone@[j] == over@[j].0);
            }
            let all = slots_of(k);
            assert forall|j: int|
                0 <= j < all.len() && !gone@.contains(j as usize) implies (
            #[trigger] all[j]).reply.wf() && all[j].reply.generation.n_ctx == n_ctx by {
                if k[j].end is Some {
                    assert(ends_of(k)[j] is Some);
                    assert(places(ended(ends_of(k), n as nat)).contains(j as usize));
                }
                assert(all[j] == k[j].slot);
            }
            left_are_going(all, gone@, all.len(), n_ctx);
        }
        let finished = self.retire(&gone);
        assert forall|j: int| 0 <= j < finished@.len() implies (#[trigger] finished@[j])
            == k[over@[over@.len() - 1 - j].0 as int].slot by {
            assert(gone@[gone@.len() - 1 - j] == over@[over@.len() - 1 - j].0);
        }
        assert(all_advanced(e, tell, before, k));
        (finished, over)
    }
}

proof fn ended_of_more(ends: Seq<Option<StopReason>>, e: Option<StopReason>, n: nat)
    requires
        n <= ends.len(),
    ensures
        ended(ends.push(e), n) == ended(ends, n),
    decreases n,
{
    if n > 0 {
        ended_of_more(ends, e, (n - 1) as nat);
        assert(ends.push(e)[n - 1] == ends[n - 1]);
    }
}

} // verus!
