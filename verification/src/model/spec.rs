//! Architecture description, derived from the file rather than from a table of names.
//!
//! The engine has to run models that did not exist when it was built. Almost everything a
//! decoder block varies on is visible in the GGUF itself: which tensors a block contains,
//! and which hyperparameter keys are set. So [`ArchSpec::infer`] reads the shape of the
//! file first and consults [`rope_kind_for`] only for the one thing the file genuinely
//! cannot express.

use vstd::prelude::*;
use vstd::string::*;

use crate::backend::{Activation, GateFunc, NormKind, RopeKind, Sections};
use crate::error::{Error, ErrorView};
use crate::gguf::model::{GgufModel, ModelView};
use crate::scalar::{Real, Scalar, ONE, SMALL_EPS, TEN_THOUSAND, THIRTY_TWO};
use crate::text::{begins_with, cat2, dec, decimal, has_prefix, join_text, joined, own, same, texts};

verus! {

/// How a block wires its normalizations and residuals.
#[derive(Debug, Clone, Copy, PartialEq, Eq, Structural)]
pub enum BlockStyle {
    /// Norm before each sublayer, residual around it. Llama, Qwen, Gemma, Phi-3.
    PreNorm,
    /// One norm feeding attention and FFN in parallel, both added to the same residual.
    /// Falcon, GPT-NeoX, Phi-2.
    ParallelResidual,
    /// Sublayer first, norm applied to its output before the residual add. OLMo-2.
    PostNorm,
}

#[derive(Debug, Clone, Copy)]
pub struct MoeSpec {
    pub n_expert: u32,
    pub n_expert_used: u32,
    pub n_ff_exp: u32,
    pub gate_func: GateFunc,
    pub norm_topk: bool,
    pub scale: Real,
    /// Always-on expert evaluated alongside the routed ones (Qwen2-MoE, DeepSeek).
    pub n_ff_shexp: u32,
}

#[derive(Debug, Clone, Copy)]
pub struct RopeSpec {
    pub kind: RopeKind,
    pub freq_base: Real,
    pub freq_scale: Scalar,
    pub n_rot: u32,
    pub ext_factor: Scalar,
    pub attn_factor: Real,
    pub beta_fast: Real,
    pub beta_slow: Real,
    pub orig_ctx: u32,
    pub sections: Sections,
    /// Layers alternating between local and global rope, keyed by layer index.
    pub local_base: Option<Real>,
}

#[derive(Debug)]
pub struct ArchSpec {
    pub arch: String,
    pub name: String,
    pub n_vocab: u32,
    pub n_embd: u32,
    pub n_layers: u32,
    pub n_heads: u32,
    pub n_kv_heads: u32,
    pub head_dim: u32,
    pub n_ff: u32,
    pub n_ctx_train: u32,
    pub style: BlockStyle,
    pub norm_kind: NormKind,
    pub norm_eps: Real,
    pub rope: RopeSpec,
    pub act: Activation,
    /// A gated FFN has separate gate and up projections; an ungated one only has up.
    pub gated_ffn: bool,
    pub qkv_bias: bool,
    pub attn_out_bias: bool,
    pub ffn_bias: bool,
    /// Queries and keys are normalized head by head.
    pub qk_norm: bool,
    pub post_attn_norm: bool,
    pub post_ffn_norm: bool,
    pub attn_sinks: bool,
    pub embd_scale: Scalar,
    pub residual_scale: Real,
    pub logit_scale: Real,
    pub attn_scale: Scalar,
    pub attn_softcap: Real,
    pub final_softcap: Real,
    /// Sliding-window width, and how often a layer uses it. `every == 0` means never;
    /// `every == 1` means every layer; Gemma-2 uses 2 (alternating), Gemma-3 uses 6.
    pub swa_window: u32,
    pub swa_every: u32,
    pub moe: Option<MoeSpec>,
    pub tied_embeddings: bool,
    pub has_rope_freqs: bool,
}

/// The mathematical value of an [`ArchSpec`].
pub struct SpecView {
    pub arch: Seq<char>,
    pub name: Seq<char>,
    pub n_vocab: u32,
    pub n_embd: u32,
    pub n_layers: u32,
    pub n_heads: u32,
    pub n_kv_heads: u32,
    pub head_dim: u32,
    pub n_ff: u32,
    pub n_ctx_train: u32,
    pub style: BlockStyle,
    pub norm_kind: NormKind,
    pub norm_eps: Real,
    pub rope: RopeSpec,
    pub act: Activation,
    pub gated_ffn: bool,
    pub qkv_bias: bool,
    pub attn_out_bias: bool,
    pub ffn_bias: bool,
    pub qk_norm: bool,
    pub post_attn_norm: bool,
    pub post_ffn_norm: bool,
    pub attn_sinks: bool,
    pub embd_scale: Scalar,
    pub residual_scale: Real,
    pub logit_scale: Real,
    pub attn_scale: Scalar,
    pub attn_softcap: Real,
    pub final_softcap: Real,
    pub swa_window: u32,
    pub swa_every: u32,
    pub moe: Option<MoeSpec>,
    pub tied_embeddings: bool,
    pub has_rope_freqs: bool,
}

impl View for ArchSpec {
    type V = SpecView;

    open spec fn view(&self) -> SpecView {
        SpecView {
            arch: self.arch@,
            name: self.name@,
            n_vocab: self.n_vocab,
            n_embd: self.n_embd,
            n_layers: self.n_layers,
            n_heads: self.n_heads,
            n_kv_heads: self.n_kv_heads,
            head_dim: self.head_dim,
            n_ff: self.n_ff,
            n_ctx_train: self.n_ctx_train,
            style: self.style,
            norm_kind: self.norm_kind,
            norm_eps: self.norm_eps,
            rope: self.rope,
            act: self.act,
            gated_ffn: self.gated_ffn,
            qkv_bias: self.qkv_bias,
            attn_out_bias: self.attn_out_bias,
            ffn_bias: self.ffn_bias,
            qk_norm: self.qk_norm,
            post_attn_norm: self.post_attn_norm,
            post_ffn_norm: self.post_ffn_norm,
            attn_sinks: self.attn_sinks,
            embd_scale: self.embd_scale,
            residual_scale: self.residual_scale,
            logit_scale: self.logit_scale,
            attn_scale: self.attn_scale,
            attn_softcap: self.attn_softcap,
            final_softcap: self.final_softcap,
            swa_window: self.swa_window,
            swa_every: self.swa_every,
            moe: self.moe,
            tied_embeddings: self.tied_embeddings,
            has_rope_freqs: self.has_rope_freqs,
        }
    }
}

/// Architectures whose Q and K weights were permuted at conversion time for the
/// adjacent-pair rotation. Everything else uses the split-half NeoX rotation, which is the
/// safe default for an architecture this list has never heard of.
pub open spec fn rotates_adjacent(a: Seq<char>) -> bool {
    a == "llama"@
        || a == "llama4"@
        || a == "deci"@
        || a == "baichuan"@
        || a == "starcoder"@
        || a == "plamo"@
        || a == "orion"@
        || a == "internlm2"@
        || a == "minicpm"@
        || a == "xverse"@
        || a == "command-r"@
        || a == "cohere2"@
        || a == "olmo"@
        || a == "arctic"@
        || a == "deepseek"@
        || a == "deepseek2"@
        || a == "chatglm"@
        || a == "granite"@
        || a == "granitemoe"@
        || a == "chameleon"@
        || a == "bailingmoe"@
        || a == "arcee"@
        || a == "mistral"@
        || a == "ernie4_5"@
        || a == "refact"@
        || a == "bitnet"@
}

/// How an architecture rotates.
pub open spec fn rope_kind_of(arch: Seq<char>, has_sections: bool) -> RopeKind {
    if has_sections {
        RopeKind::MRope
    } else if rotates_adjacent(arch) {
        RopeKind::Norm
    } else {
        RopeKind::Neox
    }
}

pub fn rope_kind_for(arch: &str, has_sections: bool) -> (r: RopeKind)
    ensures
        r == rope_kind_of(arch@, has_sections),
{
    if has_sections {
        return RopeKind::MRope;
    }
    if same(arch, "llama")
            || same(arch, "llama4")
            || same(arch, "deci")
            || same(arch, "baichuan")
            || same(arch, "starcoder")
            || same(arch, "plamo")
            || same(arch, "orion")
            || same(arch, "internlm2")
            || same(arch, "minicpm")
            || same(arch, "xverse")
            || same(arch, "command-r")
            || same(arch, "cohere2")
            || same(arch, "olmo")
            || same(arch, "arctic")
            || same(arch, "deepseek")
            || same(arch, "deepseek2")
            || same(arch, "chatglm")
            || same(arch, "granite")
            || same(arch, "granitemoe")
            || same(arch, "chameleon")
            || same(arch, "bailingmoe")
            || same(arch, "arcee")
            || same(arch, "mistral")
            || same(arch, "ernie4_5")
            || same(arch, "refact")
            || same(arch, "bitnet")
    {
        RopeKind::Norm
    } else {
        RopeKind::Neox
    }
}

// --------------------------------------------------------- what the file says, in words

impl ModelView {
    /// Whether block 0 has a tensor with this suffix.
    pub open spec fn b0(self, suffix: Seq<char>) -> bool {
        self.has("blk.0."@ + suffix)
    }
}

/// The hyperparameters that have to be there: width, depth, heads.
pub open spec fn required(m: ModelView) -> Result<(u32, u32, u32), ErrorView> {
    match m.meta.num("embedding_length"@) {
        None => Err(ErrorView::MissingKey(m.meta.key("embedding_length"@))),
        Some(e) => match m.meta.num("block_count"@) {
            None => Err(ErrorView::MissingKey(m.meta.key("block_count"@))),
            Some(l) => match m.meta.num("attention.head_count"@) {
                None => Err(ErrorView::MissingKey(m.meta.key("attention.head_count"@))),
                Some(h) => Ok((e, l, h)),
            },
        },
    }
}

/// The size of the vocabulary: as stated, or the number of tokens, or the number of rows of
/// the embedding.
pub open spec fn vocab_of(m: ModelView) -> u32 {
    let stated = match m.meta.exact("general.vocab_size"@) {
        Some(v) => v.to_u32(),
        None => None,
    };
    let listed = match m.meta.exact("tokenizer.ggml.tokens"@) {
        Some(v) => v.to_array(),
        None => None,
    };
    if stated is Some {
        stated->0
    } else if listed is Some {
        listed->0.len() as u32
    } else {
        match m.tensor("token_embd.weight"@) {
            Some(t) => t.n_rows() as u32,
            None => 32000,
        }
    }
}

/// The width of a head.
pub open spec fn head_dim_of(m: ModelView, n_embd: u32, n_heads: u32) -> u32 {
    match m.meta.num("attention.key_length"@) {
        Some(v) => v,
        None => n_embd / if n_heads == 0 {
            1
        } else {
            n_heads
        },
    }
}

pub open spec fn normed_before(m: ModelView) -> bool {
    m.b0("attn_norm.weight"@) || m.b0("attn_norm.bias"@)
}

pub open spec fn normed_after(m: ModelView) -> bool {
    m.b0("post_attention_norm.weight"@) || m.b0("attn_post_norm.weight"@)
}

/// Block wiring, read off which norms block 0 actually carries.
pub open spec fn style_of(m: ModelView) -> BlockStyle {
    if !normed_before(m) && normed_after(m) {
        BlockStyle::PostNorm
    } else if !m.b0("ffn_norm.weight"@) && normed_before(m) {
        BlockStyle::ParallelResidual
    } else {
        BlockStyle::PreNorm
    }
}

/// A LayerNorm block carries bias tensors next to its norm weights; RMSNorm never does.
pub open spec fn norm_kind_of(m: ModelView) -> NormKind {
    if m.b0("attn_norm.bias"@) || m.has("output_norm.bias"@) {
        NormKind::Layer
    } else {
        NormKind::Rms
    }
}

pub open spec fn norm_eps_of(m: ModelView) -> Real {
    match m.meta.float("attention.layer_norm_rms_epsilon"@) {
        Some(e) => e,
        None => m.meta.float_or("attention.layer_norm_epsilon"@, SMALL_EPS),
    }
}

pub open spec fn is_gemma(m: ModelView) -> bool {
    begins_with(m.meta.arch, "gemma"@)
}

pub open spec fn is_gated(m: ModelView) -> bool {
    m.b0("ffn_gate.weight"@) || m.b0("ffn_gate_exps.weight"@)
}

pub open spec fn act_of(m: ModelView) -> Activation {
    if is_gemma(m) || (begins_with(m.meta.arch, "phi"@) && !m.b0("ffn_gate.weight"@)) {
        Activation::Gelu
    } else if m.meta.arch == "gptoss"@ {
        Activation::Swish
    } else if !is_gated(m) {
        Activation::Gelu
    } else {
        Activation::Silu
    }
}

pub open spec fn nth_or_zero(s: Seq<u32>, i: int) -> u32 {
    if i < s.len() {
        s[i]
    } else {
        0
    }
}

pub open spec fn sections_of(raw: Seq<u32>) -> Sections {
    Sections {
        a: nth_or_zero(raw, 0),
        b: nth_or_zero(raw, 1),
        c: nth_or_zero(raw, 2),
        d: nth_or_zero(raw, 3),
    }
}

pub open spec fn some_positive(raw: Seq<u32>) -> bool {
    exists|i: int| 0 <= i < raw.len() && #[trigger] raw[i] > 0
}

pub open spec fn scaling_of(m: ModelView) -> Seq<char> {
    match m.meta.text("rope.scaling.type"@) {
        Some(t) => t,
        None => Seq::empty(),
    }
}

/// The reciprocal of the linear context-extension factor. Llama-3 and LongRoPE scaling
/// arrive as a rope_freqs tensor, so their factor is not also applied as a linear scale.
pub open spec fn freq_scale_of(m: ModelView) -> Scalar {
    let factor = match m.meta.float("rope.scaling.factor"@) {
        Some(f) => Some(f),
        None => m.meta.float("rope.scale_linear"@),
    };
    if scaling_of(m) == "llama3"@ || scaling_of(m) == "longrope"@ {
        Scalar::unit()
    } else {
        match factor {
            Some(f) => Scalar::InvIfPositive(f),
            None => Scalar::unit(),
        }
    }
}

pub open spec fn is_gemma3(m: ModelView) -> bool {
    m.meta.arch == "gemma3"@ || m.meta.arch == "gemma3n"@
}

pub open spec fn rope_of(m: ModelView, head_dim: u32) -> RopeSpec {
    let raw = m.meta.nums("rope.dimension_sections"@);
    RopeSpec {
        kind: rope_kind_of(m.meta.arch, some_positive(raw)),
        freq_base: m.meta.float_or("rope.freq_base"@, TEN_THOUSAND),
        freq_scale: freq_scale_of(m),
        n_rot: m.meta.num_or("rope.dimension_count"@, head_dim),
        ext_factor: if scaling_of(m) == "yarn"@ {
            Scalar::unit()
        } else {
            Scalar::nil()
        },
        attn_factor: m.meta.float_or("rope.scaling.attn_factor"@, ONE),
        beta_fast: m.meta.float_or("rope.scaling.beta_fast"@, THIRTY_TWO),
        beta_slow: m.meta.float_or("rope.scaling.beta_slow"@, ONE),
        orig_ctx: m.meta.num_or("rope.scaling.original_context_length"@, 0),
        sections: sections_of(raw),
        // Gemma-3 gives its sliding-window layers a much shorter rope base than its global
        // ones, and converters of that era did not write the key.
        local_base: match m.meta.float("rope.freq_base_swa"@) {
            Some(b) => Some(b),
            None => if is_gemma3(m) {
                Some(Real::Single(TEN_THOUSAND))
            } else {
                None
            },
        },
    }
}

pub open spec fn moe_of(m: ModelView, n_ff: u32) -> Option<MoeSpec> {
    let n_expert = m.meta.num_or("expert_count"@, 0);
    if n_expert > 0 && m.b0("ffn_gate_inp.weight"@) {
        Some(
            MoeSpec {
                n_expert,
                n_expert_used: m.meta.num_or("expert_used_count"@, 2),
                n_ff_exp: m.meta.num_or("expert_feed_forward_length"@, n_ff),
                gate_func: if m.meta.num_or("expert_gating_func"@, 1) == 2 {
                    GateFunc::Sigmoid
                } else {
                    GateFunc::Softmax
                },
                norm_topk: match m.meta.flag("expert_weights_norm"@) {
                    Some(b) => b,
                    None => true,
                },
                scale: m.meta.float_or("expert_weights_scale"@, ONE),
                n_ff_shexp: m.meta.num_or("expert_shared_feed_forward_length"@, 0),
            },
        )
    } else {
        None
    }
}

/// Gemma scales embeddings by sqrt(n_embd); it is the one model family that folds a
/// constant this large into the embedding rather than the attention scale.
pub open spec fn embd_scale_of(m: ModelView, n_embd: u32) -> Scalar {
    match m.meta.float("embedding_scale"@) {
        Some(s) => Scalar::Of(s),
        None => if is_gemma(m) {
            Scalar::Sqrt(n_embd as u64)
        } else {
            Scalar::unit()
        },
    }
}

pub open spec fn attn_scale_of(m: ModelView, head_dim: u32) -> Scalar {
    match m.meta.float("attention.scale"@) {
        Some(s) => Scalar::Of(s),
        None => Scalar::InvSqrt(head_dim as u64),
    }
}

pub open spec fn swa_every_of(m: ModelView) -> u32 {
    if m.meta.num_or("attention.sliding_window"@, 0) == 0 {
        0
    } else if m.meta.arch == "gemma2"@ {
        2
    } else if is_gemma3(m) {
        6
    } else {
        m.meta.num_or("attention.sliding_window_pattern"@, 1)
    }
}

pub open spec fn name_of(m: ModelView) -> Seq<char> {
    match m.meta.exact("general.name"@) {
        Some(v) => match v.to_text() {
            Some(s) => s,
            None => m.meta.arch,
        },
        None => m.meta.arch,
    }
}

/// The architecture of the file `m`.
#[verifier::opaque]
pub open spec fn infer_spec(m: ModelView) -> Result<SpecView, ErrorView> {
    match required(m) {
        Err(e) => Err(e),
        Ok((n_embd, n_layers, n_heads)) => {
            let head_dim = head_dim_of(m, n_embd, n_heads);
            let n_ff = m.meta.num_or("feed_forward_length"@, 0);
            Ok(
                SpecView {
                    arch: m.meta.arch,
                    name: name_of(m),
                    n_vocab: vocab_of(m),
                    n_embd,
                    n_layers,
                    n_heads,
                    n_kv_heads: m.meta.num_or("attention.head_count_kv"@, n_heads),
                    head_dim,
                    n_ff,
                    n_ctx_train: m.meta.num_or("context_length"@, 4096),
                    style: style_of(m),
                    norm_kind: norm_kind_of(m),
                    norm_eps: norm_eps_of(m),
                    rope: rope_of(m, head_dim),
                    act: act_of(m),
                    gated_ffn: is_gated(m),
                    qkv_bias: m.b0("attn_q.bias"@) || m.b0("attn_qkv.bias"@),
                    attn_out_bias: m.b0("attn_output.bias"@),
                    ffn_bias: m.b0("ffn_up.bias"@) || m.b0("ffn_down.bias"@),
                    qk_norm: m.b0("attn_q_norm.weight"@) || m.b0("attn_k_norm.weight"@),
                    post_attn_norm: normed_after(m),
                    post_ffn_norm: m.b0("post_ffw_norm.weight"@) || m.b0("ffn_post_norm.weight"@),
                    attn_sinks: m.b0("attn_sinks.weight"@) || m.b0("attn_sinks"@),
                    embd_scale: embd_scale_of(m, n_embd),
                    residual_scale: m.meta.float_or("residual_scale"@, ONE),
                    logit_scale: m.meta.float_or("logit_scale"@, ONE),
                    attn_scale: attn_scale_of(m, head_dim),
                    attn_softcap: m.meta.float_or("attn_logit_softcapping"@, 0),
                    final_softcap: m.meta.float_or("final_logit_softcapping"@, 0),
                    swa_window: m.meta.num_or("attention.sliding_window"@, 0),
                    swa_every: swa_every_of(m),
                    moe: moe_of(m, n_ff),
                    tied_embeddings: !m.has("output.weight"@),
                    has_rope_freqs: m.has("rope_freqs.weight"@),
                },
            )
        },
    }
}

// ----------------------------------------------------------------------- reading it off

/// Whether block 0 has a tensor with this suffix.
fn block0_has(g: &GgufModel<'_>, suffix: &str) -> (r: bool)
    requires
        g.wf(),
    ensures
        r == g.content().b0(suffix@),
{
    g.contains(cat2("blk.0.", suffix).as_str())
}

fn infer_vocab(g: &GgufModel<'_>) -> (r: u32)
    requires
        g.wf(),
    ensures
        r == vocab_of(g.content()),
{
    match g.meta.raw("general.vocab_size") {
        Some(v) => match v.as_u32() {
            Some(n) => {
                return n;
            },
            None => {},
        },
        None => {},
    }
    match g.meta.raw("tokenizer.ggml.tokens") {
        Some(v) => match v.as_array() {
            Some(a) => {
                return a.len() as u32;
            },
            None => {},
        },
        None => {},
    }
    match g.info("token_embd.weight") {
        Some(t) => t.rows() as u32,
        None => 32000,
    }
}

fn infer_rope(g: &GgufModel<'_>, head_dim: u32) -> (r: RopeSpec)
    requires
        g.wf(),
    ensures
        r == rope_of(g.content(), head_dim),
{
    let m = &g.meta;
    let raw = m.u32_list("rope.dimension_sections");
    let mut some = false;
    let mut i: usize = 0;
    while i < raw.len()
        invariant
            i <= raw@.len(),
            some == exists|k: int| 0 <= k < i && #[trigger] raw@[k] > 0,
        decreases raw@.len() - i,
    {
        if raw[i] > 0 {
            some = true;
        }
        i = i + 1;
    }
    let sections = Sections {
        a: if raw.len() > 0 {
            raw[0]
        } else {
            0
        },
        b: if raw.len() > 1 {
            raw[1]
        } else {
            0
        },
        c: if raw.len() > 2 {
            raw[2]
        } else {
            0
        },
        d: if raw.len() > 3 {
            raw[3]
        } else {
            0
        },
    };
    let scaling = match m.string("rope.scaling.type") {
        Some(t) => own(t),
        None => String::new(),
    };
    let factor = match m.single("rope.scaling.factor") {
        Some(f) => Some(f),
        None => m.single("rope.scale_linear"),
    };
    let freq_scale = if same(scaling.as_str(), "llama3") || same(scaling.as_str(), "longrope") {
        Scalar::one()
    } else {
        match factor {
            Some(f) => Scalar::InvIfPositive(f),
            None => Scalar::one(),
        }
    };
    let arch = g.meta.arch.as_str();
    RopeSpec {
        kind: rope_kind_for(arch, some),
        freq_base: m.single_or("rope.freq_base", TEN_THOUSAND),
        freq_scale,
        n_rot: m.u32_or("rope.dimension_count", head_dim),
        ext_factor: if same(scaling.as_str(), "yarn") {
            Scalar::one()
        } else {
            Scalar::zero()
        },
        attn_factor: m.single_or("rope.scaling.attn_factor", ONE),
        beta_fast: m.single_or("rope.scaling.beta_fast", THIRTY_TWO),
        beta_slow: m.single_or("rope.scaling.beta_slow", ONE),
        orig_ctx: m.u32_or("rope.scaling.original_context_length", 0),
        sections,
        local_base: match m.single("rope.freq_base_swa") {
            Some(b) => Some(b),
            None => if same(arch, "gemma3") || same(arch, "gemma3n") {
                Some(Real::Single(TEN_THOUSAND))
            } else {
                None
            },
        },
    }
}

fn infer_moe(g: &GgufModel<'_>, n_ff: u32) -> (r: Option<MoeSpec>)
    requires
        g.wf(),
    ensures
        r == moe_of(g.content(), n_ff),
{
    let m = &g.meta;
    let n_expert = m.u32_or("expert_count", 0);
    if n_expert > 0 && block0_has(g, "ffn_gate_inp.weight") {
        Some(
            MoeSpec {
                n_expert,
                n_expert_used: m.u32_or("expert_used_count", 2),
                n_ff_exp: m.u32_or("expert_feed_forward_length", n_ff),
                gate_func: if m.u32_or("expert_gating_func", 1) == 2 {
                    GateFunc::Sigmoid
                } else {
                    GateFunc::Softmax
                },
                // Everything since Mixtral renormalizes the selected weights.
                norm_topk: match m.bool("expert_weights_norm") {
                    Some(b) => b,
                    None => true,
                },
                scale: m.single_or("expert_weights_scale", ONE),
                n_ff_shexp: m.u32_or("expert_shared_feed_forward_length", 0),
            },
        )
    } else {
        None
    }
}

impl ArchSpec {
    /// The architecture of the file `g`.
    pub fn infer(g: &GgufModel<'_>) -> (r: Result<Self, Error>)
        requires
            g.wf(),
        ensures
            match infer_spec(g.content()) {
                Ok(s) => r is Ok && r->Ok_0@ == s,
                Err(e) => r is Err && r->Err_0@ == e,
            },
    {
        proof {
            reveal(infer_spec);
        }
        let m = &g.meta;
        let n_embd = m.u32_req("embedding_length")?;
        let n_layers = m.u32_req("block_count")?;
        let n_heads = m.u32_req("attention.head_count")?;
        let head_dim = match m.u32("attention.key_length") {
            Some(v) => v,
            None => n_embd / if n_heads == 0 {
                1
            } else {
                n_heads
            },
        };
        let n_ff = m.u32_or("feed_forward_length", 0);
        let arch = m.arch.as_str();

        let has_attn_norm = block0_has(g, "attn_norm.weight") || block0_has(g, "attn_norm.bias");
        let post_attn_norm = block0_has(g, "post_attention_norm.weight") || block0_has(
            g,
            "attn_post_norm.weight",
        );
        let style = if !has_attn_norm && post_attn_norm {
            BlockStyle::PostNorm
        } else if !block0_has(g, "ffn_norm.weight") && has_attn_norm {
            BlockStyle::ParallelResidual
        } else {
            BlockStyle::PreNorm
        };
        let norm_kind = if block0_has(g, "attn_norm.bias") || g.contains("output_norm.bias") {
            NormKind::Layer
        } else {
            NormKind::Rms
        };
        let norm_eps = match m.single("attention.layer_norm_rms_epsilon") {
            Some(e) => e,
            None => m.single_or("attention.layer_norm_epsilon", SMALL_EPS),
        };
        let gemma = has_prefix(arch, "gemma");
        let gated_ffn = block0_has(g, "ffn_gate.weight") || block0_has(g, "ffn_gate_exps.weight");
        let act = if gemma || (has_prefix(arch, "phi") && !block0_has(g, "ffn_gate.weight")) {
            Activation::Gelu
        } else if same(arch, "gptoss") {
            Activation::Swish
        } else if !gated_ffn {
            Activation::Gelu
        } else {
            Activation::Silu
        };
        let swa_window = m.u32_or("attention.sliding_window", 0);
        let swa_every = if swa_window == 0 {
            0
        } else if same(arch, "gemma2") {
            2
        } else if same(arch, "gemma3") || same(arch, "gemma3n") {
            6
        } else {
            m.u32_or("attention.sliding_window_pattern", 1)
        };
        let name = match m.raw("general.name") {
            Some(v) => match v.as_str() {
                Some(s) => own(s),
                None => own(arch),
            },
            None => own(arch),
        };
        Ok(
            ArchSpec {
                arch: own(arch),
                name,
                n_vocab: infer_vocab(g),
                n_embd,
                n_layers,
                n_heads,
                n_kv_heads: m.u32_or("attention.head_count_kv", n_heads),
                head_dim,
                n_ff,
                n_ctx_train: m.u32_or("context_length", 4096),
                style,
                norm_kind,
                norm_eps,
                rope: infer_rope(g, head_dim),
                act,
                gated_ffn,
                qkv_bias: block0_has(g, "attn_q.bias") || block0_has(g, "attn_qkv.bias"),
                attn_out_bias: block0_has(g, "attn_output.bias"),
                ffn_bias: block0_has(g, "ffn_up.bias") || block0_has(g, "ffn_down.bias"),
                qk_norm: block0_has(g, "attn_q_norm.weight") || block0_has(
                    g,
                    "attn_k_norm.weight",
                ),
                post_attn_norm,
                post_ffn_norm: block0_has(g, "post_ffw_norm.weight") || block0_has(
                    g,
                    "ffn_post_norm.weight",
                ),
                attn_sinks: block0_has(g, "attn_sinks.weight") || block0_has(g, "attn_sinks"),
                embd_scale: match m.single("embedding_scale") {
                    Some(s) => Scalar::Of(s),
                    None => if gemma {
                        Scalar::Sqrt(n_embd as u64)
                    } else {
                        Scalar::one()
                    },
                },
                residual_scale: m.single_or("residual_scale", ONE),
                logit_scale: m.single_or("logit_scale", ONE),
                attn_scale: match m.single("attention.scale") {
                    Some(s) => Scalar::Of(s),
                    None => Scalar::InvSqrt(head_dim as u64),
                },
                attn_softcap: m.single_or("attn_logit_softcapping", 0),
                final_softcap: m.single_or("final_logit_softcapping", 0),
                swa_window,
                swa_every,
                moe: infer_moe(g, n_ff),
                tied_embeddings: !g.contains("output.weight"),
                has_rope_freqs: g.contains("rope_freqs.weight"),
            },
        )
    }

    pub fn n_embd_k(&self) -> (r: u64)
        ensures
            r == self@.embd_k(),
    {
        assert(self.n_kv_heads * self.head_dim <= 0xffff_ffff * 0xffff_ffff) by (nonlinear_arith)
            requires
                self.n_kv_heads <= 0xffff_ffff,
                self.head_dim <= 0xffff_ffff,
        ;
        self.n_kv_heads as u64 * self.head_dim as u64
    }

    pub fn n_embd_q(&self) -> (r: u64)
        ensures
            r == self@.embd_q(),
    {
        assert(self.n_heads * self.head_dim <= 0xffff_ffff * 0xffff_ffff) by (nonlinear_arith)
            requires
                self.n_heads <= 0xffff_ffff,
                self.head_dim <= 0xffff_ffff,
        ;
        self.n_heads as u64 * self.head_dim as u64
    }

    /// Whether layer `i` attends only inside the sliding window.
    ///
    /// Gemma-2 alternates, Gemma-3 makes every sixth layer global; both are expressed as
    /// "layer is local unless it is the last of each group of `swa_every`".
    pub fn layer_uses_swa(&self, i: u32) -> (r: bool)
        ensures
            r == self@.uses_swa(i as nat),
    {
        if self.swa_window == 0 || self.swa_every == 0 {
            return false;
        }
        if self.swa_every == 1 {
            return true;
        }
        (i as u64 + 1) % self.swa_every as u64 != 0
    }

    /// A short single-line description. `base` is the text of the rope base.
    pub fn summary(&self, base: &str) -> (r: String)
        ensures
            r@ == self@.line(base@),
    {
        let mut parts: Vec<String> = Vec::new();
        let mut first = cat2(self.arch.as_str(), " | ");
        first.append(decimal(self.n_layers as u64).as_str());
        first.append(" layers");
        parts.push(first);
        parts.push(cat2("embd ", decimal(self.n_embd as u64).as_str()));
        let mut heads = cat2("heads ", decimal(self.n_heads as u64).as_str());
        heads.append("/");
        heads.append(decimal(self.n_kv_heads as u64).as_str());
        heads.append(" x ");
        heads.append(decimal(self.head_dim as u64).as_str());
        parts.push(heads);
        match self.moe {
            Some(moe) => {
                let mut t = cat2("MoE ", decimal(moe.n_expert_used as u64).as_str());
                t.append("/");
                t.append(decimal(moe.n_expert as u64).as_str());
                t.append(" experts x ");
                t.append(decimal(moe.n_ff_exp as u64).as_str());
                parts.push(t);
            },
            None => parts.push(cat2("ff ", decimal(self.n_ff as u64).as_str())),
        }
        let mut rope = cat2("rope ", rope_name(self.rope.kind));
        rope.append(" base ");
        rope.append(base);
        parts.push(rope);
        let ghost p0 = texts(parts@);
        assert(p0 =~= self@.head_parts(base@));
        if self.swa_window > 0 {
            let mut t = cat2("swa ", decimal(self.swa_window as u64).as_str());
            t.append(" every ");
            t.append(decimal(self.swa_every as u64).as_str());
            parts.push(t);
        }
        let ghost p1 = texts(parts@);
        assert(p1 =~= p0 + self@.swa_parts());
        if self.qk_norm {
            parts.push(own("qk-norm"));
        }
        let ghost p2 = texts(parts@);
        assert(p2 =~= p1 + self@.qk_parts());
        if self.style != BlockStyle::PreNorm {
            parts.push(own(style_name(self.style)));
        }
        assert(texts(parts@) =~= p2 + self@.style_parts());
        join_text(parts.as_slice(), " | ")
    }
}

/// The name of a rotation.
pub open spec fn rope_label(k: RopeKind) -> Seq<char> {
    match k {
        RopeKind::Norm => "Norm"@,
        RopeKind::Neox => "Neox"@,
        RopeKind::MRope => "MRope"@,
        RopeKind::NoRope => "None"@,
    }
}

pub(crate) fn rope_name(k: RopeKind) -> (r: &'static str)
    ensures
        r@ == rope_label(k),
{
    match k {
        RopeKind::Norm => "Norm",
        RopeKind::Neox => "Neox",
        RopeKind::MRope => "MRope",
        RopeKind::NoRope => "None",
    }
}

/// The name of a wiring.
pub open spec fn style_label(s: BlockStyle) -> Seq<char> {
    match s {
        BlockStyle::PreNorm => "PreNorm"@,
        BlockStyle::ParallelResidual => "ParallelResidual"@,
        BlockStyle::PostNorm => "PostNorm"@,
    }
}

pub(crate) fn style_name(s: BlockStyle) -> (r: &'static str)
    ensures
        r@ == style_label(s),
{
    match s {
        BlockStyle::PreNorm => "PreNorm",
        BlockStyle::ParallelResidual => "ParallelResidual",
        BlockStyle::PostNorm => "PostNorm",
    }
}

impl SpecView {
    /// Width of the keys, and of the values, of one token.
    pub open spec fn embd_k(self) -> nat {
        (self.n_kv_heads * self.head_dim) as nat
    }

    /// Width of the queries of one token.
    pub open spec fn embd_q(self) -> nat {
        (self.n_heads * self.head_dim) as nat
    }

    /// Whether layer `i` attends only inside the sliding window: unless it is the last of
    /// each group of `swa_every`.
    pub open spec fn uses_swa(self, i: nat) -> bool {
        self.swa_window != 0 && self.swa_every != 0 && (self.swa_every == 1 || (i + 1)
            % self.swa_every as nat != 0)
    }

    pub open spec fn head_parts(self, base: Seq<char>) -> Seq<Seq<char>> {
        seq![
            self.arch + " | "@ + dec(self.n_layers as nat) + " layers"@,
            "embd "@ + dec(self.n_embd as nat),
            "heads "@ + dec(self.n_heads as nat) + "/"@ + dec(self.n_kv_heads as nat) + " x "@
                + dec(self.head_dim as nat),
            match self.moe {
                Some(moe) => "MoE "@ + dec(moe.n_expert_used as nat) + "/"@ + dec(
                    moe.n_expert as nat,
                ) + " experts x "@ + dec(moe.n_ff_exp as nat),
                None => "ff "@ + dec(self.n_ff as nat),
            },
            "rope "@ + rope_label(self.rope.kind) + " base "@ + base,
        ]
    }

    pub open spec fn swa_parts(self) -> Seq<Seq<char>> {
        if self.swa_window > 0 {
            seq![
                "swa "@ + dec(self.swa_window as nat) + " every "@ + dec(self.swa_every as nat),
            ]
        } else {
            Seq::empty()
        }
    }

    pub open spec fn qk_parts(self) -> Seq<Seq<char>> {
        if self.qk_norm {
            seq!["qk-norm"@]
        } else {
            Seq::empty()
        }
    }

    pub open spec fn style_parts(self) -> Seq<Seq<char>> {
        if self.style != BlockStyle::PreNorm {
            seq![style_label(self.style)]
        } else {
            Seq::empty()
        }
    }

    /// A short single-line description, given the text of the rope base.
    pub open spec fn line(self, base: Seq<char>) -> Seq<char> {
        joined(
            self.head_parts(base) + self.swa_parts() + self.qk_parts() + self.style_parts(),
            " | "@,
        )
    }
}

/// Of each full group of `swa_every` layers exactly the last attends to the whole history.
pub proof fn one_global_layer_per_group(s: SpecView, group: nat, k: nat)
    requires
        s.swa_window != 0,
        s.swa_every >= 2,
        k < s.swa_every,
    ensures
        s.uses_swa(group * s.swa_every as nat + k) == (k + 1 != s.swa_every),
{
    let e = s.swa_every as int;
    let i = group * s.swa_every as nat + k;
    if k + 1 == s.swa_every {
        assert(i + 1 == (group + 1) * e) by (nonlinear_arith)
            requires
                i == group * e + k,
                k + 1 == e,
        ;
        vstd::arithmetic::div_mod::lemma_mod_multiples_basic((group + 1) as int, e);
    } else {
        assert(i + 1 == e * group + (k + 1)) by (nonlinear_arith)
            requires
                i == group * e + k,
        ;
        vstd::arithmetic::div_mod::lemma_mod_multiples_vanish(group as int, (k + 1) as int, e);
        vstd::arithmetic::div_mod::lemma_small_mod((k + 1) as nat, e as nat);
    }
}

} // verus!
