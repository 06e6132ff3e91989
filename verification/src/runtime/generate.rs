//! Generation, token by token.

use vstd::prelude::*;
use vstd::string::*;

use crate::gguf::reader::lossy;
use crate::text::{chars_of, finishes_with, has_suffix, string_of_range, texts};
use crate::tokenizer::decode::{detok, Detokenizer};

verus! {

/// How generation ended.
#[derive(Debug, Clone, Copy, PartialEq, Eq, Structural)]
pub enum StopReason {
    EndOfGeneration,
    MaxTokens,
    ContextFull,
    StopString,
    Cancelled,
}

/// What follows a token.
#[derive(Debug, Clone, Copy, PartialEq, Eq, Structural)]
pub enum Step {
    /// Generation ended.
    Stop(StopReason),
    /// The token is to be run at this position.
    Run(usize),
}

/// The state of a generation.
#[verifier::ext_equal]
pub struct GenView {
    pub text: Seq<char>,
    pub pending: Seq<u8>,
    pub pos: nat,
    pub generated: nat,
    pub n_ctx: nat,
    pub max_tokens: nat,
    pub stops: Seq<Seq<char>>,
}

/// The first stop string from `i` on, not empty, that a text ends in.
pub open spec fn stop_hit(text: Seq<char>, stops: Seq<Seq<char>>, i: nat) -> Option<nat>
    decreases stops.len() - i,
{
    if i >= stops.len() {
        None
    } else if stops[i as int].len() > 0 && finishes_with(text, stops[i as int]) {
        Some(i)
    } else {
        stop_hit(text, stops, i + 1)
    }
}

/// The state after the bytes of a token, and the text that has become complete.
pub open spec fn heard(g: GenView, bytes: Seq<u8>) -> (GenView, Seq<char>) {
    let (said, left) = detok(g.pending + bytes);
    (GenView { text: g.text + said, pending: left, ..g }, said)
}

/// What follows once the text of a token was handed out; `wanted` says whether whoever got it
/// wants more.
pub open spec fn decided(g: GenView, said: bool, wanted: bool) -> (GenView, Step) {
    if said && !wanted {
        (g, Step::Stop(StopReason::Cancelled))
    } else {
        match stop_hit(g.text, g.stops, 0) {
            Some(k) => (
                GenView {
                    text: g.text.take(g.text.len() - g.stops[k as int].len()),
                    ..g
                },
                Step::Stop(StopReason::StopString),
            ),
            None => {
                let n = GenView { generated: g.generated + 1, ..g };
                if n.generated >= g.max_tokens {
                    (n, Step::Stop(StopReason::MaxTokens))
                } else if g.pos + 1 >= g.n_ctx {
                    (n, Step::Stop(StopReason::ContextFull))
                } else {
                    (GenView { pos: g.pos + 1, ..n }, Step::Run(g.pos as usize))
                }
            },
        }
    }
}

/// A generation goes on only while it is within its limits, so it ends: it never runs a
/// position outside the context, and gives at most as many tokens as asked for, but for one
/// where none are.
pub proof fn generation_stays_in_bounds(g: GenView, said: bool, wanted: bool)
    requires
        g.pos < g.n_ctx <= usize::MAX,
        g.generated < g.max_tokens || g.generated == 0,
    ensures
        ({
            let (n, s) = decided(g, said, wanted);
            &&& n.generated <= g.max_tokens || n.generated <= 1
            &&& s matches Step::Run(p) ==> p == g.pos && p + 1 < g.n_ctx && n.pos == p + 1
                && n.generated < n.max_tokens
        }),
{
}

/// The state of a generation.
#[derive(Debug)]
pub struct Generation {
    pub text: String,
    pub detok: Detokenizer,
    /// The position of the next token.
    pub pos: usize,
    pub generated: usize,
    pub n_ctx: usize,
    pub max_tokens: usize,
    pub stops: Vec<String>,
}

impl View for Generation {
    type V = GenView;

    open spec fn view(&self) -> GenView {
        GenView {
            text: self.text@,
            pending: self.detok.pending@,
            pos: self.pos as nat,
            generated: self.generated as nat,
            n_ctx: self.n_ctx as nat,
            max_tokens: self.max_tokens as nat,
            stops: texts(self.stops@),
        }
    }
}

impl Generation {
    /// The next position lies in the context, and fewer tokens came than were asked for.
    pub open spec fn wf(self) -> bool {
        self.pos < self.n_ctx && (self.generated < self.max_tokens || self.generated == 0)
    }

    /// A generation behind a prompt of `pos` tokens.
    pub fn new(pos: usize, n_ctx: usize, max_tokens: usize, stops: Vec<String>) -> (r: Self)
        requires
            pos < n_ctx,
        ensures
            r.wf(),
            r@ == (GenView {
                text: Seq::empty(),
                pending: Seq::empty(),
                pos: pos as nat,
                generated: 0,
                n_ctx: n_ctx as nat,
                max_tokens: max_tokens as nat,
                stops: texts(stops@),
            }),
    {
        let r = Generation {
            text: String::new(),
            detok: Detokenizer::default(),
            pos,
            generated: 0,
            n_ctx,
            max_tokens,
            stops,
        };
        assert(r@.text =~= Seq::empty());
        assert(r@.pending =~= Seq::empty());
        r
    }

    /// Takes the bytes of a token and gives the text that has become complete.
    pub fn hear(&mut self, bytes: &[u8]) -> (said: String)
        requires
            old(self).wf(),
        ensures
            final(self).wf(),
            final(self)@ == heard(old(self)@, bytes@).0,
            said@ == heard(old(self)@, bytes@).1,
    {
        let said = self.detok.push(bytes);
        self.text.append(said.as_str());
        assert(self@ =~= heard(old(self)@, bytes@).0);
        said
    }

    /// What follows once the text of a token was handed out.
    pub fn decide(&mut self, said: bool, wanted: bool) -> (r: Step)
        requires
            old(self).wf(),
        ensures
            final(self)@ == decided(old(self)@, said, wanted).0,
            r == decided(old(self)@, said, wanted).1,
            r is Run ==> final(self).wf(),
    {
        if said && !wanted {
            return Step::Stop(StopReason::Cancelled);
        }
        let ghost g = self@;
        let mut i: usize = 0;
        while i < self.stops.len()
            invariant
                self@ == g,
                i <= self.stops@.len(),
                stop_hit(g.text, g.stops, 0) == stop_hit(g.text, g.stops, i as nat),
                g == old(self)@,
                !(said && !wanted),
            decreases self.stops@.len() - i,
        {
            assert(g.stops[i as int] == self.stops@[i as int]@);
            if !self.stops[i].as_str().is_empty() && has_suffix(
                self.text.as_str(),
                self.stops[i].as_str(),
            ) {
                let c = chars_of(self.text.as_str());
                let n = chars_of(self.stops[i].as_str()).len();
                let t = string_of_range(c.as_slice(), 0, c.len() - n);
                assert(t@ =~= g.text.take(g.text.len() - n));
                self.text = t;
                assert(self@ =~= decided(g, said, wanted).0);
                return Step::Stop(StopReason::StopString);
            }
            i = i + 1;
        }
        self.generated = self.generated + 1;
        if self.generated >= self.max_tokens {
            assert(self@ =~= decided(g, said, wanted).0);
            return Step::Stop(StopReason::MaxTokens);
        }
        if self.pos + 1 >= self.n_ctx {
            assert(self@ =~= decided(g, said, wanted).0);
            return Step::Stop(StopReason::ContextFull);
        }
        let at = self.pos;
        self.pos = self.pos + 1;
        assert(self@ =~= decided(g, said, wanted).0);
        Step::Run(at)
    }

    /// Gives the text that is still held back.
    pub fn finish(&mut self) -> (tail: String)
        ensures
            tail@ == if old(self)@.pending.len() == 0 {
                Seq::empty()
            } else {
                lossy(old(self)@.pending)
            },
            final(self)@ == (GenView {
                text: old(self)@.text + tail@,
                pending: Seq::empty(),
                ..old(self)@
            }),
    {
        let tail = self.detok.flush();
        self.text.append(tail.as_str());
        assert(self@.pending =~= Seq::empty());
        tail
    }
}

} // verus!
