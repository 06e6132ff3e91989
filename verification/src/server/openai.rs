//! OpenAI-compatible request and response shapes.
//!
//! Only the fields a local engine can honour are read.

use vstd::prelude::*;
use vstd::string::*;

use crate::runtime::generate::StopReason;
use crate::text::{cat2, join_text, joined, own, texts};
use crate::tokenizer::vocab::opt_text;

verus! {

/// `SystemTime::now` and `duration_since` the epoch: the whole seconds that have passed, where
/// the clock does not stand before it. Nothing can be said of them beforehand.
#[verifier::external_body]
fn clock() -> (r: Option<u64>) {
    match std::time::SystemTime::now().duration_since(std::time::UNIX_EPOCH) {
        Ok(d) => Some(d.as_secs()),
        Err(_) => None,
    }
}

/// The present time as the replies give it.
fn now() -> (r: i64) {
    match clock() {
        Some(s) => s as i64,
        None => 0,
    }
}

/// Whether `c` is a hexadecimal digit, letters in lower case.
pub open spec fn lower_hex(c: char) -> bool {
    '0' <= c <= '9' || 'a' <= c <= 'f'
}

/// Whether `s` has the form of a random identifier: 32 hexadecimal digits, of which two tell
/// the version and the variant.
pub open spec fn is_random_id(s: Seq<char>) -> bool {
    &&& s.len() == 32
    &&& forall|i: int| 0 <= i < 32 ==> lower_hex(#[trigger] s[i])
    &&& s[12] == '4'
    &&& s[16] == '8' || s[16] == '9' || s[16] == 'a' || s[16] == 'b'
}

/// `uuid::Uuid::new_v4` in its simple format: random but for the version and the variant.
#[verifier::external_body]
pub(crate) fn random_id() -> (r: String)
    ensures
        is_random_id(r@),
{
    uuid::Uuid::new_v4().simple().to_string()
}

/// Whether `s` is an identifier with that prefix.
pub open spec fn is_id(s: Seq<char>, prefix: Seq<char>) -> bool {
    exists|r: Seq<char>| #[trigger] is_random_id(r) && s == prefix + "-"@ + r
}

fn new_id(prefix: &str) -> (r: String)
    ensures
        is_id(r@, prefix@),
{
    let id = random_id();
    let mut out = cat2(prefix, "-");
    out.append(id.as_str());
    assert(is_random_id(id@) && out@ == prefix@ + "-"@ + id@);
    out
}

#[derive(Debug)]
pub struct Message {
    pub role: String,
    /// Content is a string in the common case and a list of parts for multimodal clients; the
    /// text parts are all this engine can use.
    pub content: Option<Content>,
}

#[derive(Debug)]
pub enum Content {
    Text(String),
    Parts(Vec<ContentPart>),
}

#[derive(Debug)]
pub struct ContentPart {
    pub text: Option<String>,
}

/// The texts of the first `n` parts that have one.
pub open spec fn part_texts(p: Seq<ContentPart>, n: nat) -> Seq<Seq<char>>
    decreases n,
{
    if n == 0 || n > p.len() {
        Seq::empty()
    } else {
        let rest = part_texts(p, (n - 1) as nat);
        match opt_text(p[n - 1].text) {
            Some(t) => rest.push(t),
            None => rest,
        }
    }
}

impl Content {
    pub open spec fn said(self) -> Seq<char> {
        match self {
            Content::Text(s) => s@,
            Content::Parts(p) => joined(part_texts(p@, p@.len()), "\n"@),
        }
    }

    /// The text, part by part on lines of their own.
    pub fn text(&self) -> (r: String)
        ensures
            r@ == self.said(),
    {
        match self {
            Content::Text(s) => s.clone(),
            Content::Parts(p) => {
                let mut out: Vec<String> = Vec::new();
                assert(texts(out@) =~= Seq::<Seq<char>>::empty());
                let mut i: usize = 0;
                while i < p.len()
                    invariant
                        i <= p@.len(),
                        texts(out@) == part_texts(p@, i as nat),
                    decreases p@.len() - i,
                {
                    let ghost before = texts(out@);
                    match &p[i].text {
                        Some(t) => {
                            out.push(t.clone());
                            assert(texts(out@) =~= before.push(t@));
                        },
                        None => {},
                    }
                    i = i + 1;
                }
                join_text(out.as_slice(), "\n")
            },
        }
    }
}

impl Message {
    pub open spec fn said(self) -> Seq<char> {
        match self.content {
            Some(c) => c.said(),
            None => Seq::empty(),
        }
    }
}

/// Stop may be a single string or a list.
#[derive(Debug)]
pub enum Stop {
    One(String),
    Many(Vec<String>),
}

impl Stop {
    pub open spec fn strings(self) -> Seq<Seq<char>> {
        match self {
            Stop::One(s) => seq![s@],
            Stop::Many(v) => texts(v@),
        }
    }

    pub fn into_vec(self) -> (r: Vec<String>)
        ensures
            texts(r@) == self.strings(),
    {
        match self {
            Stop::One(s) => {
                let mut v: Vec<String> = Vec::new();
                v.push(s);
                assert(texts(v@) =~= seq![s@]);
                v
            },
            Stop::Many(v) => v,
        }
    }
}

/// Numbers that are no integers are given by their bits.
#[derive(Debug)]
pub struct ChatRequest {
    pub model: Option<String>,
    pub messages: Vec<Message>,
    pub temperature: Option<u32>,
    pub top_p: Option<u32>,
    pub top_k: Option<usize>,
    pub min_p: Option<u32>,
    pub max_tokens: Option<usize>,
    /// The newer name for `max_tokens`.
    pub max_completion_tokens: Option<usize>,
    pub presence_penalty: Option<u32>,
    pub frequency_penalty: Option<u32>,
    pub repeat_penalty: Option<u32>,
    pub seed: Option<u64>,
    pub stop: Option<Stop>,
    pub stream: bool,
}

/// Numbers that are no integers are given by their bits.
#[derive(Debug)]
pub struct CompletionRequest {
    pub model: Option<String>,
    pub prompt: String,
    pub temperature: Option<u32>,
    pub top_p: Option<u32>,
    pub top_k: Option<usize>,
    pub min_p: Option<u32>,
    pub max_tokens: Option<usize>,
    pub seed: Option<u64>,
    pub stop: Option<Stop>,
    pub stream: bool,
}

#[derive(Debug, Clone, Copy, PartialEq, Eq, Structural)]
pub struct Usage {
    pub prompt_tokens: usize,
    pub completion_tokens: usize,
    pub total_tokens: usize,
}

#[derive(Debug)]
pub struct ChatChoice {
    pub index: u32,
    pub message: OutMessage,
    pub finish_reason: &'static str,
}

#[derive(Debug)]
pub struct OutMessage {
    pub role: &'static str,
    pub content: String,
}

#[derive(Debug)]
pub struct ChatResponse {
    pub id: String,
    pub object: &'static str,
    pub created: i64,
    pub model: String,
    pub choices: Vec<ChatChoice>,
    pub usage: Usage,
}

impl ChatResponse {
    /// The answer to a chat. Its time of creation is that of the call.
    pub fn new(model: &str, content: String, finish: &'static str, usage: Usage) -> (r: Self)
        ensures
            is_id(r.id@, "chatcmpl"@),
            r.object@ == "chat.completion"@,
            r.model@ == model@,
            r.choices@.len() == 1,
            r.choices@[0].index == 0,
            r.choices@[0].message.role@ == "assistant"@,
            r.choices@[0].message.content == content,
            r.choices@[0].finish_reason == finish,
            r.usage == usage,
    {
        let mut choices: Vec<ChatChoice> = Vec::new();
        choices.push(
            ChatChoice {
                index: 0,
                message: OutMessage { role: "assistant", content },
                finish_reason: finish,
            },
        );
        ChatResponse {
            id: new_id("chatcmpl"),
            object: "chat.completion",
            created: now(),
            model: own(model),
            choices,
            usage,
        }
    }
}

#[derive(Debug)]
pub struct Delta {
    pub role: Option<&'static str>,
    pub content: Option<String>,
}

#[derive(Debug)]
pub struct ChunkChoice {
    pub index: u32,
    pub delta: Delta,
    pub finish_reason: Option<&'static str>,
}

#[derive(Debug)]
pub struct ChatChunk {
    pub id: String,
    pub object: &'static str,
    pub created: i64,
    pub model: String,
    pub choices: Vec<ChunkChoice>,
}

impl ChatChunk {
    /// A piece of an answer that is streamed. Its time of creation is that of the call.
    pub fn new(id: &str, model: &str, delta: Delta, finish: Option<&'static str>) -> (r: Self)
        ensures
            r.id@ == id@,
            r.object@ == "chat.completion.chunk"@,
            r.model@ == model@,
            r.choices@.len() == 1,
            r.choices@[0].index == 0,
            r.choices@[0].delta == delta,
            r.choices@[0].finish_reason == finish,
    {
        let mut choices: Vec<ChunkChoice> = Vec::new();
        choices.push(ChunkChoice { index: 0, delta, finish_reason: finish });
        ChatChunk {
            id: own(id),
            object: "chat.completion.chunk",
            created: now(),
            model: own(model),
            choices,
        }
    }
}

#[derive(Debug)]
pub struct CompletionChoice {
    pub index: u32,
    pub text: String,
    pub finish_reason: &'static str,
}

#[derive(Debug)]
pub struct CompletionResponse {
    pub id: String,
    pub object: &'static str,
    pub created: i64,
    pub model: String,
    pub choices: Vec<CompletionChoice>,
    pub usage: Usage,
}

impl CompletionResponse {
    /// The answer to a raw completion. Its time of creation is that of the call.
    pub fn new(model: &str, text: String, finish: &'static str, usage: Usage) -> (r: Self)
        ensures
            is_id(r.id@, "cmpl"@),
            r.object@ == "text_completion"@,
            r.model@ == model@,
            r.choices@.len() == 1,
            r.choices@[0].index == 0,
            r.choices@[0].text == text,
            r.choices@[0].finish_reason == finish,
            r.usage == usage,
    {
        let mut choices: Vec<CompletionChoice> = Vec::new();
        choices.push(CompletionChoice { index: 0, text, finish_reason: finish });
        CompletionResponse {
            id: new_id("cmpl"),
            object: "text_completion",
            created: now(),
            model: own(model),
            choices,
            usage,
        }
    }
}

#[derive(Debug)]
pub struct ModelInfo {
    pub id: String,
    pub object: &'static str,
    pub created: i64,
    pub owned_by: &'static str,
}

#[derive(Debug)]
pub struct ModelList {
    pub object: &'static str,
    pub data: Vec<ModelInfo>,
}

impl ModelList {
    /// The list of models, in the order of their names as given.
    pub fn new(names: Vec<String>) -> (r: Self)
        ensures
            r.object@ == "list"@,
            r.data@.len() == names@.len(),
            forall|i: int|
                0 <= i < names@.len() ==> (#[trigger] r.data@[i]).id@ == names@[i]@
                    && r.data@[i].object@ == "model"@ && r.data@[i].owned_by@ == "gguf-rs"@,
    {
        let mut data: Vec<ModelInfo> = Vec::new();
        let mut i: usize = 0;
        while i < names.len()
            invariant
                i <= names@.len(),
                data@.len() == i,
                forall|k: int|
                    0 <= k < i ==> (#[trigger] data@[k]).id@ == names@[k]@ && data@[k].object@
                        == "model"@ && data@[k].owned_by@ == "gguf-rs"@,
            decreases names@.len() - i,
        {
            data.push(
                ModelInfo {
                    id: names[i].clone(),
                    object: "model",
                    created: now(),
                    owned_by: "gguf-rs",
                },
            );
            i = i + 1;
        }
        ModelList { object: "list", data }
    }
}

#[derive(Debug)]
pub struct ApiError {
    pub error: ApiErrorBody,
}

#[derive(Debug)]
pub struct ApiErrorBody {
    pub message: String,
    /// What clients read as the type of the error.
    pub kind: &'static str,
}

impl ApiError {
    pub fn new(message: String) -> (r: Self)
        ensures
            r.error.message == message,
            r.error.kind@ == "invalid_request_error"@,
    {
        ApiError { error: ApiErrorBody { message, kind: "invalid_request_error" } }
    }
}

/// The identifier that the chunks of one answer share.
pub fn new_chunk_id() -> (r: String)
    ensures
        is_id(r@, "chatcmpl"@),
{
    new_id("chatcmpl")
}

pub open spec fn finish_text(reason: StopReason) -> Seq<char> {
    match reason {
        StopReason::MaxTokens | StopReason::ContextFull => "length"@,
        _ => "stop"@,
    }
}

pub fn finish_reason(reason: StopReason) -> (r: &'static str)
    ensures
        r@ == finish_text(reason),
{
    match reason {
        StopReason::EndOfGeneration | StopReason::StopString => "stop",
        StopReason::MaxTokens | StopReason::ContextFull => "length",
        StopReason::Cancelled => "stop",
    }
}

} // verus!
