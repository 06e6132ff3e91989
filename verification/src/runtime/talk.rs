//! A reply from its first token to its last.

use vstd::prelude::*;

use super::calls::{pass_of, passed, Exchange, Outcome, Plan};
use super::generate::{decided, stop_hit, GenView, Step, StopReason};
use super::kv::KvCache;
use super::reply::turned;
use crate::error::ErrorView;
use crate::model::graph::Model;
use crate::sample::SamplerView;
use crate::single::Ops;
use crate::text::finishes_with;
use crate::tokenizer::facade::Tokenizer;

verus! {

/// What a reply is made with: the arithmetic, the tokenizer, and a sequence of a model's cache.
pub struct Scene {
    pub f: Ops,
    pub tokenizer: Tokenizer,
    pub model: Model,
    pub kv: KvCache,
    pub seq: int,
}

/// What whoever listens answered to a piece of text: only text that is not empty is handed out.
pub open spec fn answered<F: Fn(&str, u32) -> bool>(
    on_token: &F,
    text: Seq<char>,
    token: u32,
    wanted: bool,
) -> bool {
    if text.len() > 0 {
        exists|s: &str| s@ == text && #[trigger] call_ensures(on_token, (s, token), wanted)
    } else {
        wanted
    }
}

/// Whether a token that is drawn from logits leads from one state of a reply to the next, with
/// the token to be run.
pub open spec fn goes_on<F: Fn(&str, u32) -> bool>(
    e: Scene,
    on_token: &F,
    a: (SamplerView, GenView),
    logits: Seq<u32>,
    wanted: bool,
    b: (SamplerView, GenView),
    token: u32,
) -> bool {
    let (s, g, said) = turned(e.f, e.tokenizer, a.0, a.1, logits);
    match said {
        None => false,
        Some((x, text)) => {
            let (h, step) = decided(g, text.len() > 0, wanted);
            &&& x == token
            &&& answered(on_token, text, token, wanted)
            &&& step == Step::Run(g.pos as usize)
            &&& b == (s, h)
        },
    }
}

/// Whether what is drawn from logits ends a reply.
pub open spec fn comes_to_an_end<F: Fn(&str, u32) -> bool>(
    e: Scene,
    on_token: &F,
    a: (SamplerView, GenView),
    logits: Seq<u32>,
    wanted: bool,
    b: (SamplerView, GenView),
    reason: StopReason,
) -> bool {
    let (s, g, said) = turned(e.f, e.tokenizer, a.0, a.1, logits);
    match said {
        None => reason == StopReason::EndOfGeneration && b == (s, g),
        Some((x, text)) => {
            let (h, step) = decided(g, text.len() > 0, wanted);
            &&& answered(on_token, text, x, wanted)
            &&& step == Step::Stop(reason)
            &&& b == (s, h)
        },
    }
}

/// The text that a draw adds.
pub open spec fn said(e: Scene, a: (SamplerView, GenView), logits: Seq<u32>) -> Seq<char> {
    match turned(e.f, e.tokenizer, a.0, a.1, logits).2 {
        None => Seq::empty(),
        Some((_, text)) => text,
    }
}

/// How a reply ended: by itself, or with a token that would not run.
#[verifier::ext_equal]
pub enum Ending {
    Stop { wanted: bool, reason: StopReason },
    Break { wanted: bool, token: u32, xs: Seq<Exchange>, error: ErrorView },
}

impl Ending {
    pub open spec fn result(self) -> Result<StopReason, ErrorView> {
        match self {
            Ending::Stop { reason, .. } => Ok(reason),
            Ending::Break { error, .. } => Err(error),
        }
    }

    /// What the device was asked last.
    pub open spec fn exchanges(self) -> Seq<Exchange> {
        match self {
            Ending::Stop { .. } => Seq::empty(),
            Ending::Break { xs, .. } => xs,
        }
    }

    /// What whoever listened answered to the last piece of text.
    pub open spec fn wanted(self) -> bool {
        match self {
            Ending::Stop { wanted, .. } => wanted,
            Ending::Break { wanted, .. } => wanted,
        }
    }
}

/// A reply: its states, the logits that each draw was made from, what whoever listened answered,
/// the tokens that were run, and what the device answered to each.
#[verifier::ext_equal]
pub struct Talk {
    pub states: Seq<(SamplerView, GenView)>,
    pub logits: Seq<Seq<u32>>,
    pub wanted: Seq<bool>,
    pub tokens: Seq<u32>,
    pub exchanges: Seq<Exchange>,
}

impl Talk {
    /// A reply that has drawn nothing.
    pub open spec fn opened(state: (SamplerView, GenView), first: Seq<u32>) -> Talk {
        Talk {
            states: seq![state],
            logits: seq![first],
            wanted: Seq::empty(),
            tokens: Seq::empty(),
            exchanges: Seq::empty(),
        }
    }

    /// Whether the `i`th token followed from the state before it, was run at its position, and
    /// was answered with the logits that the next draw is made from.
    pub open spec fn step_holds<F: Fn(&str, u32) -> bool>(self, e: Scene, on_token: &F, i: int) -> bool {
        &&& goes_on(
            e,
            on_token,
            self.states[i],
            self.logits[i],
            self.wanted[i],
            self.states[i + 1],
            self.tokens[i],
        )
        &&& pass_of(
            e.model,
            e.kv,
            e.seq,
            seq![self.tokens[i]],
            (self.states[0].1.pos + i) as nat,
        ) == Ok::<Plan, ErrorView>(self.exchanges[i].plan)
        &&& self.exchanges[i].fits()
        &&& self.exchanges[i].outcome == Outcome::Logits(self.logits[i + 1])
    }

    pub open spec fn holds_so_far<F: Fn(&str, u32) -> bool>(self, e: Scene, on_token: &F) -> bool {
        &&& self.states.len() == self.tokens.len() + 1
        &&& self.logits.len() == self.tokens.len() + 1
        &&& self.wanted.len() == self.tokens.len()
        &&& self.exchanges.len() == self.tokens.len()
        &&& forall|i: int| 0 <= i < self.tokens.len() ==> #[trigger] self.step_holds(e, on_token, i)
    }

    /// Whether the reply was told to its end, which left it in a last state.
    pub open spec fn holds<F: Fn(&str, u32) -> bool>(
        self,
        e: Scene,
        on_token: &F,
        end: Ending,
        last: (SamplerView, GenView),
    ) -> bool {
        &&& self.holds_so_far(e, on_token)
        &&& match end {
            Ending::Stop { wanted, reason } => comes_to_an_end(
                e,
                on_token,
                self.states.last(),
                self.logits.last(),
                wanted,
                last,
                reason,
            ),
            Ending::Break { wanted, token, xs, error } => {
                &&& goes_on(
                    e,
                    on_token,
                    self.states.last(),
                    self.logits.last(),
                    wanted,
                    last,
                    token,
                )
                &&& passed(
                    e.model,
                    e.kv,
                    e.seq,
                    seq![token],
                    self.states[0].1.pos + self.tokens.len(),
                    xs,
                    Err(error),
                )
            },
        }
    }

    /// One step more.
    pub open spec fn with(
        self,
        wanted: bool,
        token: u32,
        next: (SamplerView, GenView),
        x: Exchange,
        logits: Seq<u32>,
    ) -> Talk {
        Talk {
            states: self.states.push(next),
            logits: self.logits.push(logits),
            wanted: self.wanted.push(wanted),
            tokens: self.tokens.push(token),
            exchanges: self.exchanges.push(x),
        }
    }

    /// The text of the first `n` draws.
    pub open spec fn told(self, e: Scene, n: nat) -> Seq<char>
        decreases n,
    {
        if n == 0 {
            Seq::empty()
        } else {
            self.told(e, (n - 1) as nat) + said(e, self.states[n - 1], self.logits[n - 1])
        }
    }
}

pub(crate) proof fn one_step_more<F: Fn(&str, u32) -> bool>(
    k: Talk,
    e: Scene,
    on_token: &F,
    wanted: bool,
    token: u32,
    next: (SamplerView, GenView),
    x: Exchange,
    logits: Seq<u32>,
)
    requires
        k.holds_so_far(e, on_token),
        goes_on(e, on_token, k.states.last(), k.logits.last(), wanted, next, token),
        pass_of(e.model, e.kv, e.seq, seq![token], k.states[0].1.pos + k.tokens.len()) == Ok::<
            Plan,
            ErrorView,
        >(x.plan),
        x.fits(),
        x.outcome == Outcome::Logits(logits),
    ensures
        k.with(wanted, token, next, x, logits).holds_so_far(e, on_token),
{
    let n = k.with(wanted, token, next, x, logits);
    assert forall|i: int| 0 <= i < n.tokens.len() implies #[trigger] n.step_holds(e, on_token, i) by {
        assert(n.states[0] == k.states[0]);
        assert(n.states[i] == k.states[i]);
        assert(n.logits[i] == k.logits[i]);
        if i < k.tokens.len() {
            assert(k.step_holds(e, on_token, i));
            assert(n.states[i + 1] == k.states[i + 1]);
            assert(n.logits[i + 1] == k.logits[i + 1]);
            assert(n.tokens[i] == k.tokens[i]);
            assert(n.exchanges[i] == k.exchanges[i]);
            assert(n.wanted[i] == k.wanted[i]);
        }
    }
}

proof fn text_so_far<F: Fn(&str, u32) -> bool>(k: Talk, e: Scene, on_token: &F, n: nat)
    requires
        k.holds_so_far(e, on_token),
        n <= k.tokens.len(),
    ensures
        k.states[n as int].1.text == k.states[0].1.text + k.told(e, n),
        k.states[n as int].1.stops == k.states[0].1.stops,
    decreases n,
{
    let start = k.states[0].1.text;
    if n == 0 {
        assert(start + k.told(e, 0) =~= start);
    } else {
        text_so_far(k, e, on_token, (n - 1) as nat);
        assert(k.step_holds(e, on_token, n - 1));
        let more = said(e, k.states[n - 1], k.logits[n - 1]);
        assert(start + k.told(e, (n - 1) as nat) + more =~= start + (k.told(e, (n - 1) as nat)
            + more));
    }
}

proof fn a_hit_is_a_stop(text: Seq<char>, stops: Seq<Seq<char>>, i: nat)
    ensures
        stop_hit(text, stops, i) matches Some(k) ==> k < stops.len() && stops[k as int].len() > 0
            && finishes_with(text, stops[k as int]),
    decreases stops.len() - i,
{
    if i < stops.len() && !(stops[i as int].len() > 0 && finishes_with(text, stops[i as int])) {
        a_hit_is_a_stop(text, stops, i + 1);
    }
}

/// A reply is the text that was handed out, in order. Whoever listens is not asked again after
/// refusing more, and a reply is cancelled just where the last piece was refused. Where a stop
/// string ends the reply, what was handed out ends in that string, and the reply lacks it.
pub proof fn a_reply_is_what_was_told<F: Fn(&str, u32) -> bool>(
    k: Talk,
    e: Scene,
    on_token: &F,
    end: Ending,
    last: (SamplerView, GenView),
)
    requires
        k.holds(e, on_token, end, last),
    ensures
        ({
            let all = k.states[0].1.text + k.told(e, k.states.len());
            let piece = said(e, k.states.last(), k.logits.last());
            &&& forall|i: int|
                0 <= i < k.tokens.len() && said(e, k.states[i], k.logits[i]).len() > 0
                    ==> #[trigger] k.wanted[i]
            &&& end.result() == Ok::<StopReason, ErrorView>(StopReason::Cancelled) <==> piece.len()
                > 0 && !end.wanted()
            &&& if end.result() == Ok::<StopReason, ErrorView>(StopReason::StopString) {
                exists|h: int|
                    0 <= h < k.states[0].1.stops.len() && (#[trigger] k.states[0].1.stops[h]).len()
                        > 0 && finishes_with(all, k.states[0].1.stops[h]) && last.1.text
                        == all.take(all.len() - k.states[0].1.stops[h].len())
            } else {
                last.1.text == all
            }
        }),
{
    let n = k.tokens.len();
    let start = k.states[0].1.text;
    let all = start + k.told(e, k.states.len());
    let piece = said(e, k.states.last(), k.logits.last());
    text_so_far(k, e, on_token, n);
    assert(start + k.told(e, n) + piece =~= all);
    let (s, g, what) = turned(
        e.f,
        e.tokenizer,
        k.states.last().0,
        k.states.last().1,
        k.logits.last(),
    );
    assert(g.text =~= all);
    a_hit_is_a_stop(all, k.states[0].1.stops, 0);
    assert forall|i: int|
        0 <= i < n && said(e, k.states[i], k.logits[i]).len() > 0 implies #[trigger] k.wanted[i] by {
        assert(k.step_holds(e, on_token, i));
    }
}

} // verus!
