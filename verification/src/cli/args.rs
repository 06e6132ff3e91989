//! What the commands are told.

use vstd::prelude::*;
use vstd::string::*;

use crate::dtype::DType;
use crate::error::Error;
use crate::runtime::device::{parse_selector, DeviceSelector};
use crate::runtime::session::EngineOptions;
use crate::sample::SampleParams;
use crate::server::config::ServeConfig;
use crate::text::{
    cat2, chars_of, own, same, split_on, split_text, string_of_range, texts, trim, trimmed,
};

verus! {

/// How a model is loaded.
#[derive(Debug)]
pub struct LoadArgs {
    /// Path to a .gguf file.
    pub model: String,
    /// auto, cpu, cuda[:N] or vulkan[:N].
    pub device: String,
    /// Context length. 0 uses the model's trained length, capped at 8192.
    pub ctx: usize,
    /// Tokens per prefill chunk.
    pub batch: usize,
    /// CPU worker threads. 0 uses every logical core.
    pub threads: usize,
    /// KV cache storage: f16 halves it for no observable quality cost.
    pub kv_type: String,
    /// Suppress a reasoning model's thinking block. Without this the model's own default applies.
    pub no_think: bool,
}

impl LoadArgs {
    pub fn options(&self, n_seq: usize) -> (r: Result<EngineOptions, Error>)
        ensures
            match parse_selector(self.device@) {
                Ok(d) => r is Ok && r->Ok_0 == (EngineOptions {
                    device: d,
                    n_ctx: self.ctx,
                    n_seq,
                    batch: self.batch,
                    threads: self.threads,
                    kv_type: if self.kv_type@ == "f32"@ {
                        DType::F32
                    } else {
                        DType::F16
                    },
                    enable_thinking: if self.no_think {
                        Some(false)
                    } else {
                        None
                    },
                }),
                Err(e) => r is Err && r->Err_0@ == e,
            },
    {
        let device = DeviceSelector::parse(self.device.as_str())?;
        Ok(
            EngineOptions {
                device,
                n_ctx: self.ctx,
                n_seq,
                batch: self.batch,
                threads: self.threads,
                kv_type: if same(self.kv_type.as_str(), "f32") {
                    DType::F32
                } else {
                    DType::F16
                },
                enable_thinking: if self.no_think {
                    Some(false)
                } else {
                    None
                },
            },
        )
    }
}

/// How text is sampled; numbers that are not whole are held by their bits.
#[derive(Debug)]
pub struct SamplerArgs {
    pub temp: u32,
    pub top_k: usize,
    pub top_p: u32,
    pub min_p: u32,
    pub typical_p: u32,
    pub repeat_penalty: u32,
    pub repeat_last_n: usize,
    pub presence_penalty: u32,
    pub frequency_penalty: u32,
    /// 0 off, 2 enables Mirostat v2 and overrides the other cuts.
    pub mirostat: u8,
    pub mirostat_tau: u32,
    pub mirostat_eta: u32,
    pub seed: u64,
}

impl SamplerArgs {
    pub fn params(&self) -> (r: SampleParams)
        ensures
            r == (SampleParams {
                temperature: self.temp,
                top_k: self.top_k,
                top_p: self.top_p,
                min_p: self.min_p,
                typical_p: self.typical_p,
                repeat_penalty: self.repeat_penalty,
                repeat_last_n: self.repeat_last_n,
                presence_penalty: self.presence_penalty,
                frequency_penalty: self.frequency_penalty,
                mirostat: self.mirostat,
                mirostat_tau: self.mirostat_tau,
                mirostat_eta: self.mirostat_eta,
                seed: self.seed,
            }),
    {
        SampleParams {
            temperature: self.temp,
            top_k: self.top_k,
            top_p: self.top_p,
            min_p: self.min_p,
            typical_p: self.typical_p,
            repeat_penalty: self.repeat_penalty,
            repeat_last_n: self.repeat_last_n,
            presence_penalty: self.presence_penalty,
            frequency_penalty: self.frequency_penalty,
            mirostat: self.mirostat,
            mirostat_tau: self.mirostat_tau,
            mirostat_eta: self.mirostat_eta,
            seed: self.seed,
        }
    }
}

/// What to serve.
#[derive(Debug)]
pub struct ServeArgs {
    /// TOML model registry. Without it, a single model is served.
    pub config: Option<String>,
    pub model: Option<String>,
    pub host: String,
    pub port: u16,
    /// Concurrent sequences per loaded model.
    pub parallel: usize,
    pub device: String,
    pub ctx: usize,
    pub threads: usize,
}

impl ServeArgs {
    pub fn into_config(self) -> (r: ServeConfig)
        ensures
            r == (ServeConfig {
                config: self.config,
                model: self.model,
                host: self.host,
                port: self.port,
                parallel: self.parallel,
                device: self.device,
                ctx: self.ctx,
                threads: self.threads,
            }),
    {
        ServeConfig {
            config: self.config,
            model: self.model,
            host: self.host,
            port: self.port,
            parallel: self.parallel,
            device: self.device,
            ctx: self.ctx,
            threads: self.threads,
        }
    }
}

/// What to time.
#[derive(Debug)]
pub struct BenchArgs {
    pub load: LoadArgs,
    /// Prompt length to time prefill over.
    pub prompt_len: usize,
    /// Tokens to time decode over.
    pub gen_len: usize,
    /// Devices to time in turn, separated by commas.
    pub compare: Option<String>,
}

/// The items of a list, without the space around them.
pub open spec fn items_of(s: Seq<char>) -> Seq<Seq<char>> {
    Seq::new(split_on(s, ","@).len(), |i: int| trimmed(split_on(s, ","@)[i]))
}

impl BenchArgs {
    /// The devices to time: those listed, else the one to load on.
    pub fn devices(&self) -> (r: Vec<String>)
        ensures
            texts(r@) == match self.compare {
                Some(list) => items_of(list@),
                None => seq![self.load.device@],
            },
    {
        match &self.compare {
            Some(list) => {
                let parts = split_text(list.as_str(), ",");
                let ghost want = items_of(list@);
                let mut out: Vec<String> = Vec::new();
                let mut i: usize = 0;
                assert(want.len() == parts@.len()) by {
                    assert(texts(parts@).len() == parts@.len());
                }
                while i < parts.len()
                    invariant
                        texts(parts@) == split_on(list@, ","@),
                        want == items_of(list@),
                        want.len() == parts@.len(),
                        i <= parts@.len(),
                        texts(out@) == want.take(i as int),
                    decreases parts@.len() - i,
                {
                    let ghost before = texts(out@);
                    assert(texts(parts@)[i as int] == parts@[i as int]@);
                    out.push(trim(parts[i].as_str()));
                    i = i + 1;
                    assert(texts(out@) =~= before.push(want[i - 1]));
                    assert(texts(out@) =~= want.take(i as int));
                }
                assert(want.take(i as int) =~= want);
                out
            },
            None => {
                let mut out: Vec<String> = Vec::new();
                out.push(self.load.device.clone());
                assert(texts(out@) =~= seq![self.load.device@]);
                out
            },
        }
    }
}

/// What to compare.
#[derive(Debug)]
pub struct CheckArgs {
    pub model: String,
    /// The backend to compare against the CPU.
    pub device: String,
    pub prompt: Option<String>,
    /// Greedy tokens to generate on each backend.
    pub tokens: usize,
    pub ctx: usize,
    pub batch: usize,
}

impl CheckArgs {
    /// The prompt to compare on.
    pub fn text(&self) -> (r: String)
        ensures
            r@ == match self.prompt {
                Some(p) => p@,
                None => "The capital of France is Paris, and the capital of Japan is"@,
            },
    {
        match &self.prompt {
            Some(p) => p.clone(),
            None => own("The capital of France is Paris, and the capital of Japan is"),
        }
    }

    /// How the model is loaded on a device.
    pub fn options(&self, device: DeviceSelector) -> (r: EngineOptions)
        ensures
            r == (EngineOptions {
                device,
                n_ctx: self.ctx,
                n_seq: 1,
                batch: self.batch,
                threads: 0,
                kv_type: DType::F16,
                enable_thinking: None,
            }),
    {
        let mut o = EngineOptions::default();
        o.device = device;
        o.n_ctx = self.ctx;
        o.batch = self.batch;
        o
    }
}

/// What to report of a file.
#[derive(Debug)]
pub struct InspectArgs {
    pub model: String,
    /// Also list every tensor.
    pub tensors: bool,
    /// Also list all metadata keys.
    pub metadata: bool,
}

/// A text cut to `n` characters, the last of which then tells that it was.
pub open spec fn cut_to(s: Seq<char>, n: nat) -> Seq<char> {
    if s.len() <= n {
        s
    } else {
        s.take(n - 1) + "…"@
    }
}

pub fn truncate(s: &str, n: usize) -> (r: String)
    requires
        n > 0,
    ensures
        r@ == cut_to(s@, n as nat),
{
    let cs = chars_of(s);
    if cs.len() <= n {
        own(s)
    } else {
        let head = string_of_range(cs.as_slice(), 0, n - 1);
        assert(s@.subrange(0, n - 1) =~= s@.take(n - 1));
        cat2(head.as_str(), "…")
    }
}

/// A cut text is never longer than what it was cut to.
pub proof fn cut_text_fits(s: Seq<char>, n: nat)
    requires
        n > 0,
    ensures
        cut_to(s, n).len() <= n,
{
    reveal_strlit("…");
}

} // verus!
