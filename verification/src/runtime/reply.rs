//! An answer in the making.
//!
//! The device gives logits; a reply draws a token from them, says what it adds to the text, and
//! decides what follows.

use vstd::prelude::*;

use super::generate::{heard, GenView, Generation};
use super::session::{check_prompt, prompt_fault, recent_first, recent_tokens};
use crate::error::Error;
use crate::sample::{
    accepted, after_sample, default_params, fresh, sampled, weighed, SampleParams, Sampler,
    SamplerView,
};
use crate::single::{Arith, FloatOp, Ops};
use crate::text::texts;
use crate::tokenizer::decode::token_bytes;
use crate::tokenizer::facade::Tokenizer;

verus! {

/// What generation is asked for.
#[derive(Debug)]
pub struct GenerateOptions {
    pub max_tokens: usize,
    pub params: SampleParams,
    pub stop_strings: Vec<String>,
    pub seq: usize,
}

impl Default for GenerateOptions {
    fn default() -> (r: Self)
        ensures
            r.max_tokens == 512,
            r.params == default_params(),
            r.stop_strings@.len() == 0,
            r.seq == 0,
    {
        GenerateOptions {
            max_tokens: 512,
            params: SampleParams::default(),
            stop_strings: Vec::new(),
            seq: 0,
        }
    }
}

/// A sampler that has seen tokens, the first one first.
pub open spec fn primed(s: SamplerView, tokens: Seq<u32>) -> SamplerView
    decreases tokens.len(),
{
    if tokens.len() == 0 {
        s
    } else {
        accepted(primed(s, tokens.drop_last()), tokens.last())
    }
}

/// An answer in the making: what draws its tokens, and what came of them.
#[derive(Debug)]
pub struct Reply {
    pub sampler: Sampler,
    pub generation: Generation,
}

/// What a token that was drawn leads to.
#[derive(Debug)]
pub enum Turn {
    /// The model has ended its answer.
    End,
    /// The token, and the text that has become complete with it.
    Say(u32, String),
}

/// The sampler and the generation once a token was drawn from logits, that token, and the text
/// that has become complete; nothing is said where the model has ended its answer.
pub open spec fn turned(
    f: Ops,
    t: Tokenizer,
    s: SamplerView,
    g: GenView,
    logits: Seq<u32>,
) -> (SamplerView, GenView, Option<(u32, Seq<char>)>) {
    let token = sampled(f, s, logits);
    let after = after_sample(f, s, logits);
    if t.ends(token) {
        (after, g, None)
    } else {
        let (h, said) = heard(g, token_bytes(t.vocab@, token, true));
        (accepted(after, token), h, Some((token, said)))
    }
}

impl Reply {
    pub open spec fn wf(self) -> bool {
        self.generation.wf()
    }

    /// The answer to a prompt. The tokens at the end of the prompt count as recent ones.
    pub fn start<A: Fn(FloatOp, u32, u32) -> u32>(
        prompt: &[u32],
        n_ctx: usize,
        max_tokens: usize,
        params: SampleParams,
        stops: Vec<String>,
        m: &Arith<A>,
    ) -> (r: Result<Self, Error>)
        requires
            m.works(),
        ensures
            match prompt_fault(prompt@.len(), n_ctx as nat) {
                Some(e) => r is Err && r->Err_0@ == e,
                None => r matches Ok(x) && x.wf() && x.sampler@ == primed(
                    fresh(m.ops(), params),
                    recent_first(prompt@, params.repeat_last_n as nat),
                ) && x.generation@ == (GenView {
                    text: Seq::empty(),
                    pending: Seq::empty(),
                    pos: prompt@.len(),
                    generated: 0,
                    n_ctx: n_ctx as nat,
                    max_tokens: max_tokens as nat,
                    stops: texts(stops@),
                }),
            },
    {
        check_prompt(prompt.len(), n_ctx)?;
        let mut sampler = Sampler::new(params, m);
        let recent = recent_tokens(prompt, params.repeat_last_n);
        let ghost first = sampler@;
        let mut i: usize = 0;
        while i < recent.len()
            invariant
                i <= recent@.len(),
                sampler@ == primed(first, recent@.take(i as int)),
            decreases recent@.len() - i,
        {
            sampler.accept(recent[i]);
            assert(recent@.take(i + 1).drop_last() =~= recent@.take(i as int));
            i = i + 1;
        }
        assert(recent@.take(i as int) =~= recent@);
        Ok(Reply { sampler, generation: Generation::new(prompt.len(), n_ctx, max_tokens, stops) })
    }

    /// Draws a token from the logits of the last position, which are left as the sampler leaves
    /// them.
    pub fn draw<A: Fn(FloatOp, u32, u32) -> u32>(
        &mut self,
        tokenizer: &Tokenizer,
        logits: &mut Vec<u32>,
        m: &Arith<A>,
    ) -> (r: Turn)
        requires
            m.works(),
            tokenizer.wf(),
            old(self).wf(),
        ensures
            final(self).wf(),
            ({
                let (s, g, said) = turned(
                    m.ops(),
                    *tokenizer,
                    old(self).sampler@,
                    old(self).generation@,
                    old(logits)@,
                );
                &&& final(logits)@ == weighed(m.ops(), old(self).sampler@, old(logits)@)
                &&& final(self).sampler@ == s
                &&& final(self).generation@ == g
                &&& match said {
                    None => r is End,
                    Some((token, text)) => r matches Turn::Say(a, b) && a == token && b@ == text,
                }
            }),
    {
        let token = self.sampler.sample(logits, m);
        if tokenizer.is_eog(token) {
            return Turn::End;
        }
        self.sampler.accept(token);
        let bytes = tokenizer.token_bytes(token, true);
        let said = self.generation.hear(&bytes);
        Turn::Say(token, said)
    }
}

} // verus!
