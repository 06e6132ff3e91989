//! The tokenizer of a model.

use vstd::prelude::*;
use vstd::utf8::{decode_utf8, valid_utf8};

use super::decode::{decode_token, decode_tokens, token_bytes, tokens_bytes};
use super::encode::{encode, encoded};
use super::template::{turns, ChatMessage, ChatTemplate};
use super::vocab::{no_vocabulary, scores_given, vocab_of, Vocab};
use crate::error::{Error, ErrorView};
use crate::gguf::reader::lossy;
use crate::gguf::value::Metadata;
use crate::jinja::number::{Maths, NumOp};
use crate::scalar::Real;

verus! {

#[derive(Debug)]
pub struct Tokenizer {
    pub vocab: Vocab,
    pub template: ChatTemplate,
}

impl Tokenizer {
    pub open spec fn wf(self) -> bool {
        self.vocab.wf() && self.template.wf()
    }

    /// The tokenizer that the metadata of a file describes.
    pub fn from_gguf<
        F: Fn(Real) -> u32,
        A: Fn(NumOp, u64, u64) -> u64,
        P: Fn(&str) -> Option<u64>,
        W: Fn(u64, bool) -> String,
    >(m: &Metadata, narrow: &F, maths: &Maths<A, P, W>) -> (r: Result<Self, Error>)
        requires
            m.wf(),
            forall|x: Real| call_requires(narrow, (x,)),
            maths.works(),
        ensures
            match m@.list("tokenizer.ggml.tokens"@) {
                Some(a) => r is Ok && r->Ok_0.wf() && r->Ok_0.vocab@ == vocab_of(
                    m@,
                    a,
                    r->Ok_0.vocab.scores@,
                ) && scores_given(m@, a.len(), r->Ok_0.vocab.scores@, *narrow),
                None => r is Err && r->Err_0@ == ErrorView::MissingKey(no_vocabulary()),
            },
            r matches Ok(t) ==> t.template.belongs_to(maths.host(), t.vocab@),
    {
        let vocab = Vocab::from_gguf(m, narrow)?;
        let template = ChatTemplate::from_vocab(&vocab, maths);
        Ok(Tokenizer { vocab, template })
    }

    pub fn encode(&self, text: &str, add_special: bool) -> (r: Vec<u32>)
        requires
            self.wf(),
        ensures
            r@ == encoded(self.vocab@, text@, add_special),
    {
        encode(&self.vocab, text, add_special)
    }

    /// The tokens of a prompt. A template that emits its own start of text must not get a
    /// second one.
    pub fn tokenize_prompt(&self, text: &str) -> (r: Vec<u32>)
        requires
            self.wf(),
        ensures
            r@ == encoded(self.vocab@, text@, !self.template.template_adds_bos),
    {
        self.encode(text, !self.template.template_adds_bos)
    }

    /// Formats a conversation the way the model expects it.
    pub fn render_chat<
        A: Fn(NumOp, u64, u64) -> u64,
        P: Fn(&str) -> Option<u64>,
        W: Fn(u64, bool) -> String,
    >(
        &self,
        messages: &Vec<ChatMessage>,
        enable_thinking: Option<bool>,
        maths: &Maths<A, P, W>,
    ) -> (r: String)
        requires
            maths.works(),
        ensures
            r@ == self.template.rendering(
                maths.host(),
                turns(messages@),
                true,
                enable_thinking,
            ),
    {
        self.template.render_with(messages, true, enable_thinking, maths)
    }

    /// Raw bytes for one token. Multi-byte characters can span several tokens, so callers
    /// accumulate bytes and convert once rather than per token.
    pub fn token_bytes(&self, id: u32, skip_special: bool) -> (r: Vec<u8>)
        ensures
            r@ == token_bytes(self.vocab@, id, skip_special),
    {
        decode_token(&self.vocab, id, skip_special)
    }

    pub fn decode(&self, ids: &[u32], skip_special: bool) -> (r: String)
        ensures
            r@ == lossy(tokens_bytes(self.vocab@, ids@, skip_special, ids@.len())),
            valid_utf8(tokens_bytes(self.vocab@, ids@, skip_special, ids@.len())) ==> r@
                == decode_utf8(tokens_bytes(self.vocab@, ids@, skip_special, ids@.len())),
    {
        decode_tokens(&self.vocab, ids, skip_special)
    }

    pub fn eos_ids(&self) -> (r: &[u32])
        ensures
            r@ == self.vocab@.eos,
    {
        self.vocab.eos.as_slice()
    }

    /// Whether a token ends an answer.
    pub open spec fn ends(self, id: u32) -> bool {
        self.vocab@.eos.contains(id) || self.template.stop_ids@.contains(id)
    }

    pub fn is_eog(&self, id: u32) -> (r: bool)
        requires
            self.wf(),
        ensures
            r == self.ends(id),
    {
        self.vocab.is_eog(id) || self.template.is_stop(id)
    }
}

} // verus!
