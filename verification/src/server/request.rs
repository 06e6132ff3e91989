//! What requests ask for, and how answers are put together.

use vstd::prelude::*;
use vstd::string::*;

use super::config::{
    default_model, model_names, resolved, Registry, RegistryView, ResolvedModel, ResolvedView,
};
use super::openai::{
    finish_reason, finish_text, is_id, new_chunk_id, ApiError, ChatChunk, ChatRequest,
    CompletionRequest, Delta, Message, Stop, Usage,
};
use crate::runtime::generate::StopReason;
use crate::sample::{default_params, SampleParams};
use crate::text::{cat4, debug_text, join_text, joined, own, quoted, same, texts};
use crate::tokenizer::template::{turns, ChatMessage};
use crate::tokenizer::vocab::opt_text;

verus! {

/// The model that a request is for, or why there is none.
pub open spec fn model_for(r: RegistryView, name: Option<Seq<char>>) -> Result<
    ResolvedView,
    Seq<char>,
> {
    let chosen = match name {
        Some(n) => Some(n),
        None => default_model(r),
    };
    match chosen {
        None => Err("the registry is empty"@),
        Some(n) => match resolved(r, n) {
            Some(m) => Ok(m),
            None => Err(
                "unknown model "@ + quoted(n) + "; this server has "@ + joined(
                    model_names(r),
                    ", "@,
                ),
            ),
        },
    }
}

/// The model that a request is for: the one it names, else the registry's default.
pub fn resolve(reg: &Registry, name: &Option<String>) -> (r: Result<ResolvedModel, String>)
    ensures
        match model_for(reg@, opt_text(*name)) {
            Ok(m) => r is Ok && r->Ok_0@ == m,
            Err(e) => r is Err && r->Err_0@ == e,
        },
{
    let chosen = match name {
        Some(n) => Some(n.clone()),
        None => reg.default_name(),
    };
    match chosen {
        None => Err(own("the registry is empty")),
        Some(n) => match reg.resolve(n.as_str()) {
            Some(m) => Ok(m),
            None => {
                let all = join_text(reg.names().as_slice(), ", ");
                Err(
                    cat4(
                        "unknown model ",
                        debug_text(n.as_str()).as_str(),
                        "; this server has ",
                        all.as_str(),
                    ),
                )
            },
        },
    }
}

/// The views of the messages of a request.
pub open spec fn said(m: Seq<Message>) -> Seq<(Seq<char>, Seq<char>)> {
    Seq::new(m.len(), |i: int| (m[i].role@, m[i].said()))
}

pub open spec fn has_system(m: Seq<Message>) -> bool {
    exists|i: int| 0 <= i < m.len() && (#[trigger] m[i]).role@ == "system"@
}

/// The conversation of a request. A registry-level system prompt applies only when the request
/// did not send one.
pub open spec fn conversation(system: Option<Seq<char>>, m: Seq<Message>) -> Seq<
    (Seq<char>, Seq<char>),
> {
    match system {
        Some(s) => if has_system(m) {
            said(m)
        } else {
            seq![("system"@, s)] + said(m)
        },
        None => said(m),
    }
}

pub fn chat_messages(system: &Option<String>, m: &Vec<Message>) -> (r: Vec<ChatMessage>)
    ensures
        turns(r@) == conversation(opt_text(*system), m@),
{
    let mut out: Vec<ChatMessage> = Vec::new();
    match system {
        Some(s) => {
            let mut found = false;
            let mut i: usize = 0;
            while i < m.len()
                invariant
                    i <= m@.len(),
                    found ==> has_system(m@),
                    !found ==> forall|k: int| 0 <= k < i ==> (#[trigger] m@[k]).role@ != "system"@,
                decreases m@.len() - i,
            {
                if same(m[i].role.as_str(), "system") {
                    found = true;
                }
                i = i + 1;
            }
            if !found {
                let c = ChatMessage::new("system", s.as_str());
                out.push(c);
            }
        },
        None => {},
    }
    let ghost front = turns(out@);
    let ghost want = said(m@);
    let mut i: usize = 0;
    assert(front + want.take(0) =~= front);
    while i < m.len()
        invariant
            i <= m@.len(),
            want == said(m@),
            turns(out@) == front + want.take(i as int),
        decreases m@.len() - i,
    {
        let ghost before = turns(out@);
        let text = match &m[i].content {
            Some(c) => c.text(),
            None => String::new(),
        };
        assert(text@ =~= m@[i as int].said());
        let c = ChatMessage::new(m[i].role.as_str(), text.as_str());
        out.push(c);
        i = i + 1;
        assert(turns(out@) =~= before.push(c@));
        assert(turns(out@) =~= front + want.take(i as int));
    }
    assert(want.take(i as int) =~= want);
    assert(turns(out@) =~= conversation(opt_text(*system), m@));
    out
}

pub open spec fn asked<T>(x: Option<T>, other: T) -> T {
    match x {
        Some(v) => v,
        None => other,
    }
}

fn or<T: Copy>(x: Option<T>, other: T) -> (r: T)
    ensures
        r == asked(x, other),
{
    match x {
        Some(v) => v,
        None => other,
    }
}

/// How a chat is sampled: as the request says, else as the model's settings do.
pub open spec fn chat_sampling(q: ChatRequest, m: ResolvedView) -> SampleParams {
    SampleParams {
        temperature: asked(q.temperature, m.temperature),
        top_k: asked(q.top_k, m.top_k),
        top_p: asked(q.top_p, m.top_p),
        min_p: asked(q.min_p, m.min_p),
        repeat_penalty: asked(q.repeat_penalty, m.repeat_penalty),
        presence_penalty: asked(q.presence_penalty, 0),
        frequency_penalty: asked(q.frequency_penalty, 0),
        seed: asked(q.seed, 0),
        ..default_params()
    }
}

/// How a raw completion is sampled.
pub open spec fn raw_sampling(q: CompletionRequest, m: ResolvedView) -> SampleParams {
    SampleParams {
        temperature: asked(q.temperature, m.temperature),
        top_k: asked(q.top_k, m.top_k),
        top_p: asked(q.top_p, m.top_p),
        min_p: asked(q.min_p, m.min_p),
        repeat_penalty: m.repeat_penalty,
        seed: asked(q.seed, 0),
        ..default_params()
    }
}

/// What to run. A chat is rendered with the model's own template, because the template lives
/// with the tokenizer, which lives with the model.
#[derive(Debug)]
pub enum JobInput {
    Chat(Vec<ChatMessage>),
    Raw(String),
}

#[derive(Debug)]
pub struct Job {
    pub model: String,
    pub input: JobInput,
    pub max_tokens: usize,
    pub params: SampleParams,
    pub stop_strings: Vec<String>,
    pub stream: bool,
}

pub open spec fn stops_of(s: Option<Stop>) -> Seq<Seq<char>> {
    match s {
        Some(x) => x.strings(),
        None => Seq::empty(),
    }
}

fn take_stops(s: Option<Stop>) -> (r: Vec<String>)
    ensures
        texts(r@) == stops_of(s),
{
    match s {
        Some(x) => x.into_vec(),
        None => {
            let v: Vec<String> = Vec::new();
            assert(texts(v@) =~= Seq::<Seq<char>>::empty());
            v
        },
    }
}

/// The job that a chat request asks for, or why there is none.
pub fn chat_job(reg: &Registry, q: ChatRequest) -> (r: Result<Job, String>)
    ensures
        match model_for(reg@, opt_text(q.model)) {
            Err(e) => r is Err && r->Err_0@ == e,
            Ok(m) => if q.messages@.len() == 0 {
                r is Err && r->Err_0@ == "messages must not be empty"@
            } else {
                r is Ok && r->Ok_0.model@ == m.name && (r->Ok_0.input matches JobInput::Chat(c)
                    && turns(c@) == conversation(m.system, q.messages@)) && r->Ok_0.max_tokens
                    == asked(
                    q.max_completion_tokens,
                    asked(q.max_tokens, m.max_tokens),
                ) && r->Ok_0.params == chat_sampling(q, m) && texts(r->Ok_0.stop_strings@)
                    == stops_of(q.stop) && r->Ok_0.stream == q.stream
            },
        },
{
    let m = resolve(reg, &q.model)?;
    if q.messages.len() == 0 {
        return Err(own("messages must not be empty"));
    }
    let input = JobInput::Chat(chat_messages(&m.system, &q.messages));
    let mut params = SampleParams::default();
    params.temperature = or(q.temperature, m.temperature);
    params.top_k = or(q.top_k, m.top_k);
    params.top_p = or(q.top_p, m.top_p);
    params.min_p = or(q.min_p, m.min_p);
    params.repeat_penalty = or(q.repeat_penalty, m.repeat_penalty);
    params.presence_penalty = or(q.presence_penalty, 0);
    params.frequency_penalty = or(q.frequency_penalty, 0);
    params.seed = or(q.seed, 0);
    let max_tokens = or(q.max_completion_tokens, or(q.max_tokens, m.max_tokens));
    let stream = q.stream;
    Ok(
        Job {
            model: m.name,
            input,
            max_tokens,
            params,
            stop_strings: take_stops(q.stop),
            stream,
        },
    )
}

/// The job that a raw completion asks for, or why there is none. Its prompt is fed verbatim,
/// with no chat template.
pub fn completion_job(reg: &Registry, q: CompletionRequest) -> (r: Result<Job, String>)
    ensures
        match model_for(reg@, opt_text(q.model)) {
            Err(e) => r is Err && r->Err_0@ == e,
            Ok(m) => r is Ok && r->Ok_0.model@ == m.name && (r->Ok_0.input matches JobInput::Raw(
                t,
            ) && t@ == q.prompt@) && r->Ok_0.max_tokens == asked(q.max_tokens, m.max_tokens)
                && r->Ok_0.params == raw_sampling(q, m) && texts(r->Ok_0.stop_strings@) == stops_of(
                q.stop,
            ) && r->Ok_0.stream == q.stream,
        },
{
    let m = resolve(reg, &q.model)?;
    let mut params = SampleParams::default();
    params.temperature = or(q.temperature, m.temperature);
    params.top_k = or(q.top_k, m.top_k);
    params.top_p = or(q.top_p, m.top_p);
    params.min_p = or(q.min_p, m.min_p);
    params.repeat_penalty = m.repeat_penalty;
    params.seed = or(q.seed, 0);
    let max_tokens = or(q.max_tokens, m.max_tokens);
    let stream = q.stream;
    Ok(
        Job {
            model: m.name,
            input: JobInput::Raw(q.prompt),
            max_tokens,
            params,
            stop_strings: take_stops(q.stop),
            stream,
        },
    )
}

// -------------------------------------------------------------------------------- answers

/// What a request emits as it runs.
#[derive(Debug)]
pub enum Event {
    /// A piece of decoded text.
    Chunk(String),
    /// Generation ended cleanly.
    Done { reason: StopReason, prompt_tokens: usize, generated: usize },
    /// Generation failed.
    Failed(String),
}

/// A piece of a stream.
#[derive(Debug)]
pub enum Emission {
    Chunk(ChatChunk),
    Error(ApiError),
}

/// Where a stream left off.
#[derive(Debug)]
pub struct StreamState {
    pub id: String,
    pub model: String,
    pub sent_role: bool,
    pub finished: bool,
    pub raw: bool,
}

/// Whether `c` is a chunk of this stream that carries just that.
pub open spec fn carries(
    c: ChatChunk,
    s: StreamState,
    role: Option<Seq<char>>,
    content: Option<Seq<char>>,
    finish: Option<Seq<char>>,
) -> bool {
    &&& c.id@ == s.id@
    &&& c.model@ == s.model@
    &&& c.object@ == "chat.completion.chunk"@
    &&& c.choices@.len() == 1
    &&& c.choices@[0].index == 0
    &&& role == match c.choices@[0].delta.role {
        Some(r) => Some(r@),
        None => None,
    }
    &&& opt_text(c.choices@[0].delta.content) == content
    &&& finish == match c.choices@[0].finish_reason {
        Some(r) => Some(r@),
        None => None,
    }
}

impl StreamState {
    pub fn new(model: String, raw: bool) -> (r: Self)
        ensures
            is_id(r.id@, "chatcmpl"@),
            r.model == model,
            r.raw == raw,
            !r.sent_role,
            !r.finished,
    {
        StreamState { id: new_chunk_id(), model, sent_role: false, finished: false, raw }
    }

    /// What is sent before any text: for a chat, once, the role and no content, which is what
    /// clients expect.
    pub fn opening(&mut self) -> (r: Option<ChatChunk>)
        ensures
            final(self).id == old(self).id,
            final(self).model == old(self).model,
            final(self).raw == old(self).raw,
            final(self).finished == old(self).finished,
            if !old(self).finished && !old(self).sent_role && !old(self).raw {
                r is Some && carries(r->0, *old(self), Some("assistant"@), None, None) && final(self).sent_role
            } else {
                r is None && final(self).sent_role == old(self).sent_role
            },
    {
        if self.finished || self.sent_role || self.raw {
            return None;
        }
        self.sent_role = true;
        Some(
            ChatChunk::new(
                self.id.as_str(),
                self.model.as_str(),
                Delta { role: Some("assistant"), content: None },
                None,
            ),
        )
    }

    /// What is sent for an event. The stream ends with the event that ends the generation.
    pub fn emit(&mut self, e: Event) -> (r: Emission)
        ensures
            final(self).id == old(self).id,
            final(self).model == old(self).model,
            final(self).raw == old(self).raw,
            final(self).sent_role == old(self).sent_role,
            match e {
                Event::Chunk(t) => (r matches Emission::Chunk(c) && carries(
                    c,
                    *old(self),
                    None,
                    Some(t@),
                    None,
                )) && final(self).finished == old(self).finished,
                Event::Done { reason, prompt_tokens, generated } => (r matches Emission::Chunk(c)
                    && carries(c, *old(self), None, None, Some(finish_text(reason)))) && final(self).finished,
                Event::Failed(m) => (r matches Emission::Error(x) && x.error.message == m
                    && x.error.kind@ == "invalid_request_error"@) && final(self).finished,
            },
    {
        match e {
            Event::Chunk(t) => Emission::Chunk(
                ChatChunk::new(
                    self.id.as_str(),
                    self.model.as_str(),
                    Delta { role: None, content: Some(t) },
                    None,
                ),
            ),
            Event::Done { reason, prompt_tokens: _, generated: _ } => {
                self.finished = true;
                Emission::Chunk(
                    ChatChunk::new(
                        self.id.as_str(),
                        self.model.as_str(),
                        Delta { role: None, content: None },
                        Some(finish_reason(reason)),
                    ),
                )
            },
            Event::Failed(m) => {
                self.finished = true;
                Emission::Error(ApiError::new(m))
            },
        }
    }
}

/// What has come of an answer that is not streamed.
#[derive(Debug)]
pub struct Collected {
    pub text: String,
    pub prompt_tokens: usize,
    pub generated: usize,
    pub finish: &'static str,
}

/// Whether more is to come.
#[derive(Debug)]
pub enum Progress {
    More,
    Finished,
    Failed(String),
}

impl Collected {
    pub fn new() -> (r: Self)
        ensures
            r.text@ == Seq::<char>::empty(),
            r.prompt_tokens == 0,
            r.generated == 0,
            r.finish@ == "stop"@,
    {
        Collected { text: String::new(), prompt_tokens: 0, generated: 0, finish: "stop" }
    }

    /// Takes an event.
    pub fn take(&mut self, e: Event) -> (r: Progress)
        ensures
            match e {
                Event::Chunk(t) => r is More && final(self).text@ == old(self).text@ + t@ && final(self).prompt_tokens == old(self).prompt_tokens && final(self).generated == old(self).generated && final(self).finish == old(self).finish,
                Event::Done { reason, prompt_tokens, generated } => r is Finished && final(self).text == old(self).text && final(self).prompt_tokens == prompt_tokens && final(self).generated == generated && final(self).finish@ == finish_text(reason),
                Event::Failed(m) => (r matches Progress::Failed(x) && x == m) && *final(self)
                    == *old(self),
            },
    {
        match e {
            Event::Chunk(t) => {
                self.text.append(t.as_str());
                Progress::More
            },
            Event::Done { reason, prompt_tokens, generated } => {
                self.prompt_tokens = prompt_tokens;
                self.generated = generated;
                self.finish = finish_reason(reason);
                Progress::Finished
            },
            Event::Failed(m) => Progress::Failed(m),
        }
    }

    /// What the answer used.
    pub fn usage(&self) -> (r: Usage)
        requires
            self.prompt_tokens + self.generated <= usize::MAX,
        ensures
            r.prompt_tokens == self.prompt_tokens,
            r.completion_tokens == self.generated,
            r.total_tokens == self.prompt_tokens + self.generated,
    {
        Usage {
            prompt_tokens: self.prompt_tokens,
            completion_tokens: self.generated,
            total_tokens: self.prompt_tokens + self.generated,
        }
    }
}

} // verus!
