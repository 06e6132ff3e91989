//! Model registry.
//!
//! Maps the `model` field of an API request to a file on disk and the settings to load it with.
//! The defaults apply to every entry unless overridden, which is what keeps a registry of a
//! dozen models from repeating the same six keys.

use vstd::prelude::*;
use vstd::string::*;

use crate::dict::{key_from, lookup};
use crate::dtype::DType;
use crate::error::Error;
use crate::runtime::device::{parse_selector, DeviceSelector};
use crate::runtime::session::EngineOptions;
use crate::text::{cat2, cat4, debug_text, own, quoted, same, texts};
use crate::tokenizer::vocab::opt_text;

verus! {

/// Numbers that are no integers are given by their bits.
#[derive(Debug)]
pub struct ModelDefaults {
    pub ctx: Option<usize>,
    pub batch: Option<usize>,
    pub parallel: Option<usize>,
    pub threads: Option<usize>,
    pub device: Option<String>,
    pub kv_type: Option<String>,
    /// Pin the chat template's `enable_thinking`. Absent follows the model's own default.
    pub enable_thinking: Option<bool>,
    pub temperature: Option<u32>,
    pub top_k: Option<usize>,
    pub top_p: Option<u32>,
    pub min_p: Option<u32>,
    pub repeat_penalty: Option<u32>,
    pub max_tokens: Option<usize>,
    pub system: Option<String>,
}

/// The mathematical value of a [`ModelDefaults`].
#[verifier::ext_equal]
pub struct DefaultsView {
    pub ctx: Option<usize>,
    pub batch: Option<usize>,
    pub parallel: Option<usize>,
    pub threads: Option<usize>,
    pub device: Option<Seq<char>>,
    pub kv_type: Option<Seq<char>>,
    pub enable_thinking: Option<bool>,
    pub temperature: Option<u32>,
    pub top_k: Option<usize>,
    pub top_p: Option<u32>,
    pub min_p: Option<u32>,
    pub repeat_penalty: Option<u32>,
    pub max_tokens: Option<usize>,
    pub system: Option<Seq<char>>,
}

impl View for ModelDefaults {
    type V = DefaultsView;

    open spec fn view(&self) -> DefaultsView {
        DefaultsView {
            ctx: self.ctx,
            batch: self.batch,
            parallel: self.parallel,
            threads: self.threads,
            device: opt_text(self.device),
            kv_type: opt_text(self.kv_type),
            enable_thinking: self.enable_thinking,
            temperature: self.temperature,
            top_k: self.top_k,
            top_p: self.top_p,
            min_p: self.min_p,
            repeat_penalty: self.repeat_penalty,
            max_tokens: self.max_tokens,
            system: opt_text(self.system),
        }
    }
}

/// Nothing is set.
pub open spec fn nothing_set() -> DefaultsView {
    DefaultsView {
        ctx: None,
        batch: None,
        parallel: None,
        threads: None,
        device: None,
        kv_type: None,
        enable_thinking: None,
        temperature: None,
        top_k: None,
        top_p: None,
        min_p: None,
        repeat_penalty: None,
        max_tokens: None,
        system: None,
    }
}

impl Default for ModelDefaults {
    fn default() -> (r: Self)
        ensures
            r@ == nothing_set(),
    {
        ModelDefaults {
            ctx: None,
            batch: None,
            parallel: None,
            threads: None,
            device: None,
            kv_type: None,
            enable_thinking: None,
            temperature: None,
            top_k: None,
            top_p: None,
            min_p: None,
            repeat_penalty: None,
            max_tokens: None,
            system: None,
        }
    }
}

#[derive(Debug)]
pub struct ModelEntry {
    /// Path to the .gguf file.
    pub path: String,
    /// Load this model as soon as the server starts rather than on first request.
    pub preload: bool,
    pub settings: ModelDefaults,
}

/// The mathematical value of a [`ModelEntry`].
pub struct EntryView {
    pub path: Seq<char>,
    pub preload: bool,
    pub settings: DefaultsView,
}

impl View for ModelEntry {
    type V = EntryView;

    open spec fn view(&self) -> EntryView {
        EntryView { path: self.path@, preload: self.preload, settings: self.settings@ }
    }
}

/// A model under the name that requests use.
#[derive(Debug)]
pub struct Named {
    pub name: String,
    pub entry: ModelEntry,
}

/// The views of a list of models.
pub open spec fn named(v: Seq<Named>) -> Seq<(Seq<char>, EntryView)> {
    Seq::new(v.len(), |i: int| (v[i].name@, v[i].entry@))
}

/// The models, in ascending order of their names.
#[derive(Debug)]
pub struct Registry {
    pub defaults: ModelDefaults,
    pub models: Vec<Named>,
}

/// The mathematical value of a [`Registry`].
pub struct RegistryView {
    pub defaults: DefaultsView,
    pub models: Seq<(Seq<char>, EntryView)>,
}

impl View for Registry {
    type V = RegistryView;

    open spec fn view(&self) -> RegistryView {
        RegistryView { defaults: self.defaults@, models: named(self.models@) }
    }
}

/// A model with every setting decided.
#[derive(Debug)]
pub struct ResolvedModel {
    pub name: String,
    pub path: String,
    pub preload: bool,
    pub ctx: usize,
    pub batch: usize,
    pub parallel: usize,
    pub threads: usize,
    pub device: String,
    pub kv_type: String,
    pub enable_thinking: Option<bool>,
    pub temperature: u32,
    pub top_k: usize,
    pub top_p: u32,
    pub min_p: u32,
    pub repeat_penalty: u32,
    pub max_tokens: usize,
    pub system: Option<String>,
}

/// The mathematical value of a [`ResolvedModel`].
#[verifier::ext_equal]
pub struct ResolvedView {
    pub name: Seq<char>,
    pub path: Seq<char>,
    pub preload: bool,
    pub ctx: usize,
    pub batch: usize,
    pub parallel: usize,
    pub threads: usize,
    pub device: Seq<char>,
    pub kv_type: Seq<char>,
    pub enable_thinking: Option<bool>,
    pub temperature: u32,
    pub top_k: usize,
    pub top_p: u32,
    pub min_p: u32,
    pub repeat_penalty: u32,
    pub max_tokens: usize,
    pub system: Option<Seq<char>>,
}

impl View for ResolvedModel {
    type V = ResolvedView;

    open spec fn view(&self) -> ResolvedView {
        ResolvedView {
            name: self.name@,
            path: self.path@,
            preload: self.preload,
            ctx: self.ctx,
            batch: self.batch,
            parallel: self.parallel,
            threads: self.threads,
            device: self.device@,
            kv_type: self.kv_type@,
            enable_thinking: self.enable_thinking,
            temperature: self.temperature,
            top_k: self.top_k,
            top_p: self.top_p,
            min_p: self.min_p,
            repeat_penalty: self.repeat_penalty,
            max_tokens: self.max_tokens,
            system: opt_text(self.system),
        }
    }
}

impl ResolvedModel {
    /// How the model is loaded, for as many requests at once as it may serve, at least one.
    pub fn options(&self) -> (r: Result<EngineOptions, Error>)
        ensures
            match parse_selector(self.device@) {
                Ok(d) => r is Ok && r->Ok_0 == (EngineOptions {
                    device: d,
                    n_ctx: self.ctx,
                    n_seq: if self.parallel < 1 {
                        1
                    } else {
                        self.parallel
                    },
                    batch: self.batch,
                    threads: self.threads,
                    kv_type: if self.kv_type@ == "f32"@ {
                        DType::F32
                    } else {
                        DType::F16
                    },
                    enable_thinking: self.enable_thinking,
                }),
                Err(e) => r is Err && r->Err_0@ == e,
            },
    {
        let device = DeviceSelector::parse(self.device.as_str())?;
        Ok(
            EngineOptions {
                device,
                n_ctx: self.ctx,
                n_seq: if self.parallel < 1 {
                    1
                } else {
                    self.parallel
                },
                batch: self.batch,
                threads: self.threads,
                kv_type: if same(self.kv_type.as_str(), "f32") {
                    DType::F32
                } else {
                    DType::F16
                },
                enable_thinking: self.enable_thinking,
            },
        )
    }
}

/// A model's own setting, else the default, where there is either.
pub open spec fn either<T>(own: Option<T>, default: Option<T>) -> Option<T> {
    match own {
        Some(x) => Some(x),
        None => default,
    }
}

/// A model's own setting, else the default, else `fallback`.
pub open spec fn merged<T>(own: Option<T>, default: Option<T>, fallback: T) -> T {
    match either(own, default) {
        Some(x) => x,
        None => fallback,
    }
}

/// A model's settings over the defaults.
pub open spec fn merged_model(name: Seq<char>, e: EntryView, d: DefaultsView) -> ResolvedView {
    let s = e.settings;
    ResolvedView {
        name,
        path: e.path,
        preload: e.preload,
        ctx: merged(s.ctx, d.ctx, 0),
        batch: merged(s.batch, d.batch, 256),
        parallel: merged(s.parallel, d.parallel, 4),
        threads: merged(s.threads, d.threads, 0),
        device: merged(s.device, d.device, "auto"@),
        kv_type: merged(s.kv_type, d.kv_type, "f16"@),
        enable_thinking: either(s.enable_thinking, d.enable_thinking),
        temperature: merged(s.temperature, d.temperature, 0x3f33_3333),
        top_k: merged(s.top_k, d.top_k, 40),
        top_p: merged(s.top_p, d.top_p, 0x3f66_6666),
        min_p: merged(s.min_p, d.min_p, 0x3d4c_cccd),
        repeat_penalty: merged(s.repeat_penalty, d.repeat_penalty, 0x3f8c_cccd),
        max_tokens: merged(s.max_tokens, d.max_tokens, 512),
        system: either(s.system, d.system),
    }
}

/// What a model sets itself wins over the defaults, and the defaults over the built-in values.
pub proof fn own_settings_win(name: Seq<char>, e: EntryView, d: DefaultsView, x: usize)
    ensures
        e.settings.ctx == Some(x) ==> merged_model(name, e, d).ctx == x,
        e.settings.ctx is None && d.ctx == Some(x) ==> merged_model(name, e, d).ctx == x,
        e.settings.max_tokens == Some(x) ==> merged_model(name, e, d).max_tokens == x,
        e.settings.max_tokens is None && d.max_tokens == Some(x) ==> merged_model(
            name,
            e,
            d,
        ).max_tokens == x,
        e.settings == nothing_set() && d == nothing_set() ==> merged_model(name, e, d).max_tokens
            == 512 && merged_model(name, e, d).parallel == 4,
{
}

pub open spec fn resolved(r: RegistryView, name: Seq<char>) -> Option<ResolvedView> {
    match lookup(r.models, name) {
        Some(e) => Some(merged_model(name, e, r.defaults)),
        None => None,
    }
}

pub open spec fn model_names(r: RegistryView) -> Seq<Seq<char>> {
    Seq::new(r.models.len(), |i: int| r.models[i].0)
}

/// The first model from `i` on that is loaded at the start.
pub open spec fn first_preloaded(m: Seq<(Seq<char>, EntryView)>, i: nat) -> Option<nat>
    decreases m.len() - i,
{
    if i >= m.len() {
        None
    } else if m[i as int].1.preload {
        Some(i)
    } else {
        first_preloaded(m, i + 1)
    }
}

/// The model to use when a request does not name one: one that is loaded at the start, else the
/// first.
pub open spec fn default_model(r: RegistryView) -> Option<Seq<char>> {
    match first_preloaded(r.models, 0) {
        Some(i) => Some(r.models[i as int].0),
        None => if r.models.len() > 0 {
            Some(r.models[0].0)
        } else {
            None
        },
    }
}

fn pick<T: Copy>(own: Option<T>, default: Option<T>, fallback: T) -> (r: T)
    ensures
        r == merged(own, default, fallback),
{
    match own {
        Some(x) => x,
        None => match default {
            Some(x) => x,
            None => fallback,
        },
    }
}

fn pick_text(a: &Option<String>, b: &Option<String>) -> (r: Option<String>)
    ensures
        opt_text(r) == either(opt_text(*a), opt_text(*b)),
{
    match a {
        Some(x) => Some(x.clone()),
        None => match b {
            Some(x) => Some(x.clone()),
            None => None,
        },
    }
}

fn text_or(t: Option<String>, fallback: &str) -> (r: String)
    ensures
        r@ == match opt_text(t) {
            Some(x) => x,
            None => fallback@,
        },
{
    match t {
        Some(x) => x,
        None => own(fallback),
    }
}

impl Registry {
    /// A registry with a single model, which is loaded at the start. `stem` is the name of the
    /// file without its extension.
    pub fn single(
        path: &str,
        stem: Option<String>,
        device: &str,
        ctx: usize,
        parallel: usize,
        threads: usize,
    ) -> (r: Self)
        ensures
            r@.defaults == (DefaultsView {
                ctx: Some(ctx),
                parallel: Some(parallel),
                threads: Some(threads),
                device: Some(device@),
                ..nothing_set()
            }),
            r@.models == seq![
                (
                    match opt_text(stem) {
                        Some(s) => s,
                        None => "default"@,
                    },
                    EntryView { path: path@, preload: true, settings: nothing_set() },
                ),
            ],
    {
        let name = text_or(stem, "default");
        let mut models: Vec<Named> = Vec::new();
        let entry = ModelEntry {
            path: own(path),
            preload: true,
            settings: ModelDefaults::default(),
        };
        let ghost g = (name@, entry@);
        models.push(Named { name, entry });
        let mut defaults = ModelDefaults::default();
        defaults.ctx = Some(ctx);
        defaults.parallel = Some(parallel);
        defaults.threads = Some(threads);
        defaults.device = Some(own(device));
        let r = Registry { defaults, models };
        assert(r@.models =~= seq![g]);
        r
    }

    /// Why the registry of a file cannot be served; `exists` says of each model whether its
    /// file is there.
    pub fn fault(&self, file: &str, exists: &Vec<bool>) -> (r: Option<String>)
        requires
            exists@.len() == self.models@.len(),
        ensures
            opt_text(r) == registry_fault(self@, file@, exists@, 0),
    {
        if self.models.len() == 0 {
            return Some(
                cat2(file, " declares no models; add a [models.<name>] section with a path"),
            );
        }
        let ghost m = named(self.models@);
        let mut i: usize = 0;
        while i < self.models.len()
            invariant
                m == named(self.models@),
                exists@.len() == self.models@.len(),
                self.models@.len() > 0,
                i <= self.models@.len(),
                registry_fault(self@, file@, exists@, 0) == registry_fault(
                    self@,
                    file@,
                    exists@,
                    i as nat,
                ),
            decreases self.models@.len() - i,
        {
            assert(m[i as int] == (self.models@[i as int].name@, self.models@[i as int].entry@));
            if !exists[i] {
                let n = debug_text(self.models[i].name.as_str());
                let mut t = cat4(
                    "model ",
                    n.as_str(),
                    " points at ",
                    self.models[i].entry.path.as_str(),
                );
                t.append(", which does not exist");
                return Some(t);
            }
            i = i + 1;
        }
        None
    }

    /// The model of a name, with every setting decided.
    pub fn resolve(&self, name: &str) -> (r: Option<ResolvedModel>)
        ensures
            match resolved(self@, name@) {
                Some(m) => r is Some && r->0@ == m,
                None => r is None,
            },
    {
        let ghost m = named(self.models@);
        let mut i: usize = 0;
        while i < self.models.len()
            invariant
                m == named(self.models@),
                i <= self.models@.len(),
                key_from(m, name@, 0) == key_from(m, name@, i as nat),
            decreases self.models@.len() - i,
        {
            assert(m[i as int] == (self.models@[i as int].name@, self.models@[i as int].entry@));
            if same(self.models[i].name.as_str(), name) {
                let e = &self.models[i].entry;
                let s = &e.settings;
                let d = &self.defaults;
                let r = ResolvedModel {
                    name: own(name),
                    path: e.path.clone(),
                    preload: e.preload,
                    ctx: pick(s.ctx, d.ctx, 0),
                    batch: pick(s.batch, d.batch, 256),
                    parallel: pick(s.parallel, d.parallel, 4),
                    threads: pick(s.threads, d.threads, 0),
                    device: text_or(pick_text(&s.device, &d.device), "auto"),
                    kv_type: text_or(pick_text(&s.kv_type, &d.kv_type), "f16"),
                    enable_thinking: match s.enable_thinking {
                        Some(x) => Some(x),
                        None => d.enable_thinking,
                    },
                    temperature: pick(s.temperature, d.temperature, 0x3f33_3333),
                    top_k: pick(s.top_k, d.top_k, 40),
                    top_p: pick(s.top_p, d.top_p, 0x3f66_6666),
                    min_p: pick(s.min_p, d.min_p, 0x3d4c_cccd),
                    repeat_penalty: pick(s.repeat_penalty, d.repeat_penalty, 0x3f8c_cccd),
                    max_tokens: pick(s.max_tokens, d.max_tokens, 512),
                    system: pick_text(&s.system, &d.system),
                };
                assert(r@ =~= merged_model(name@, m[i as int].1, self@.defaults));
                return Some(r);
            }
            i = i + 1;
        }
        None
    }

    pub fn names(&self) -> (r: Vec<String>)
        ensures
            texts(r@) == model_names(self@),
    {
        let ghost want = model_names(self@);
        let mut out: Vec<String> = Vec::new();
        let mut i: usize = 0;
        while i < self.models.len()
            invariant
                want == model_names(self@),
                i <= self.models@.len(),
                texts(out@) =~= want.take(i as int),
            decreases self.models@.len() - i,
        {
            let ghost before = texts(out@);
            let n = self.models[i].name.clone();
            out.push(n);
            i = i + 1;
            assert(texts(out@) =~= before.push(want[i - 1]));
        }
        assert(want.take(i as int) =~= want);
        out
    }

    /// The model that is to be loaded at the start.
    pub fn preloaded(&self) -> (r: Option<String>)
        ensures
            match first_preloaded(self@.models, 0) {
                Some(i) => r is Some && r->0@ == self@.models[i as int].0,
                None => r is None,
            },
    {
        let ghost m = named(self.models@);
        let mut i: usize = 0;
        while i < self.models.len()
            invariant
                m == named(self.models@),
                i <= self.models@.len(),
                first_preloaded(m, 0) == first_preloaded(m, i as nat),
            decreases self.models@.len() - i,
        {
            assert(m[i as int] == (self.models@[i as int].name@, self.models@[i as int].entry@));
            if self.models[i].entry.preload {
                return Some(self.models[i].name.clone());
            }
            i = i + 1;
        }
        None
    }

    /// The model to use when a request does not name one.
    pub fn default_name(&self) -> (r: Option<String>)
        ensures
            opt_text(r) == default_model(self@),
    {
        match self.preloaded() {
            Some(n) => Some(n),
            None => if self.models.len() > 0 {
                Some(self.models[0].name.clone())
            } else {
                None
            },
        }
    }
}

/// Why the registry of a file cannot be served, judged from model `i` on.
pub open spec fn registry_fault(r: RegistryView, file: Seq<char>, exists: Seq<bool>, i: nat) -> Option<
    Seq<char>,
>
    decreases r.models.len() - i,
{
    if r.models.len() == 0 {
        Some(file + " declares no models; add a [models.<name>] section with a path"@)
    } else if i >= r.models.len() {
        None
    } else if !exists[i as int] {
        Some(
            "model "@ + quoted(r.models[i as int].0) + " points at "@ + r.models[i as int].1.path
                + ", which does not exist"@,
        )
    } else {
        registry_fault(r, file, exists, i + 1)
    }
}

pub const EXAMPLE: &'static str = "# gguf-rs server registry.\n#\n# [defaults] applies to every model; a [models.<name>] section overrides it. The section\n# name is what clients send as \"model\" in an API request.\n\n[defaults]\ndevice   = \"auto\"      # auto, cpu, cuda[:N], vulkan[:N]\nkv_type  = \"f16\"       # f16 halves the KV cache; f32 for bit-comparable output\nctx      = 8192\nbatch    = 256\nparallel = 4           # concurrent sequences per loaded model\ntemperature   = 0.7\ntop_k         = 40\ntop_p         = 0.9\nmin_p         = 0.05\nrepeat_penalty = 1.1\nmax_tokens    = 512\n\n[models.qwen]\npath    = \"D:/models/Qwen3-1.7B-Q4_K_M.gguf\"\npreload = true\n\n[models.gemma]\npath        = \"D:/models/gemma-2-2b-it-Q4_K_M.gguf\"\nctx         = 4096\ntemperature = 0.4\n";

/// What to serve, and where.
#[derive(Debug)]
pub struct ServeConfig {
    pub config: Option<String>,
    pub model: Option<String>,
    pub host: String,
    pub port: u16,
    pub parallel: usize,
    pub device: String,
    pub ctx: usize,
    pub threads: usize,
}

/// Where the registry of a server comes from.
#[derive(Debug)]
pub enum Source {
    /// A registry file.
    File(String),
    /// A single model.
    Model(String),
}

impl ServeConfig {
    /// Where the registry comes from: a registry file wins over a single model; with neither
    /// there is nothing to serve.
    pub fn source(&self) -> (r: Result<Source, String>)
        ensures
            match (opt_text(self.config), opt_text(self.model)) {
                (Some(f), _) => r matches Ok(Source::File(x)) && x@ == f,
                (None, Some(m)) => r matches Ok(Source::Model(x)) && x@ == m,
                (None, None) => r is Err && r->Err_0@
                    == "nothing to serve: pass --model FILE for a single model, or --config FILE for a registry.\n\nA registry looks like:\n\n"@
                    + EXAMPLE@,
            },
    {
        match &self.config {
            Some(f) => Ok(Source::File(f.clone())),
            None => match &self.model {
                Some(m) => Ok(Source::Model(m.clone())),
                None => Err(
                    cat2(
                        "nothing to serve: pass --model FILE for a single model, or --config FILE for a registry.\n\nA registry looks like:\n\n",
                        EXAMPLE,
                    ),
                ),
            },
        }
    }
}

} // verus!
