//! What the operations of a transformer are told.

use vstd::prelude::*;

use crate::device::{BufferId, WeightId};
use crate::dtype::DType;
use crate::scalar::{Scalar, THIRTY_TWO};

verus! {

#[derive(Debug, Clone, Copy, PartialEq, Eq, Structural)]
pub enum NormKind {
    Rms,
    Layer,
}

#[derive(Debug, Clone, Copy)]
pub struct NormCfg {
    pub kind: NormKind,
    pub dim: u32,
    pub n_tokens: u32,
    pub eps: Scalar,
    pub bias: Option<BufferId>,
    /// Extra constant multiplier folded into the norm.
    pub scale: Scalar,
}

impl NormCfg {
    pub fn rms(dim: u32, n_tokens: u32, eps: Scalar) -> (r: Self)
        ensures
            r == (NormCfg {
                kind: NormKind::Rms,
                dim,
                n_tokens,
                eps,
                bias: None,
                scale: Scalar::unit(),
            }),
    {
        NormCfg { kind: NormKind::Rms, dim, n_tokens, eps, bias: None, scale: Scalar::one() }
    }

    pub fn layer(dim: u32, n_tokens: u32, eps: Scalar) -> (r: Self)
        ensures
            r == (NormCfg {
                kind: NormKind::Layer,
                dim,
                n_tokens,
                eps,
                bias: None,
                scale: Scalar::unit(),
            }),
    {
        NormCfg { kind: NormKind::Layer, dim, n_tokens, eps, bias: None, scale: Scalar::one() }
    }
}

#[derive(Debug, Clone, Copy, PartialEq, Eq, Structural)]
pub struct MatMulCfg {
    /// Rows of the weight, i.e. the output dimension.
    pub n_out: u32,
    /// Columns of the weight, i.e. the input dimension.
    pub n_in: u32,
    pub n_tokens: u32,
    pub bias: Option<BufferId>,
}

impl MatMulCfg {
    pub fn new(n_out: u32, n_in: u32, n_tokens: u32) -> (r: Self)
        ensures
            r == (MatMulCfg { n_out, n_in, n_tokens, bias: None }),
    {
        MatMulCfg { n_out, n_in, n_tokens, bias: None }
    }

    pub fn with_bias(self, bias: Option<BufferId>) -> (r: Self)
        ensures
            r == (MatMulCfg { bias, ..self }),
    {
        MatMulCfg { n_out: self.n_out, n_in: self.n_in, n_tokens: self.n_tokens, bias }
    }
}

/// Which pairs of head-dimension elements get rotated together.
///
/// `Norm` rotates adjacent pairs (2i, 2i+1); `Neox` rotates (i, i + n_rot/2). The two are
/// not interchangeable: converters permute Q/K weights to match one of them, so the wrong
/// layout yields fluent-looking but wrong output rather than an obvious failure.
#[derive(Debug, Clone, Copy, PartialEq, Eq, Structural)]
pub enum RopeKind {
    Norm,
    Neox,
    /// Multimodal RoPE: `sections` splits the rotary dims across position axes.
    MRope,
    /// Position-independent.
    NoRope,
}

/// The widths of the M-RoPE sections.
#[derive(Debug, Clone, Copy, PartialEq, Eq, Structural)]
pub struct Sections {
    pub a: u32,
    pub b: u32,
    pub c: u32,
    pub d: u32,
}

#[derive(Debug, Clone, Copy)]
pub struct RopeCfg {
    pub kind: RopeKind,
    pub n_heads: u32,
    pub n_kv_heads: u32,
    pub head_dim: u32,
    /// Rotary dimensions; may be smaller than `head_dim` for partial-rotary models.
    pub n_rot: u32,
    pub n_tokens: u32,
    pub freq_base: Scalar,
    /// Reciprocal of the linear context-extension factor. 1 means no scaling.
    pub freq_scale: Scalar,
    /// YaRN interpolation/extrapolation mix. 0 disables YaRN.
    pub ext_factor: Scalar,
    pub attn_factor: Scalar,
    pub beta_fast: Scalar,
    pub beta_slow: Scalar,
    pub orig_ctx: u32,
    /// M-RoPE section widths.
    pub sections: Sections,
    /// Per-dimension frequency divisors. This is how Llama-3 and LongRoPE scaling arrive:
    /// both are precomputed into a rope_freqs tensor at load time.
    pub freq_factors: Option<BufferId>,
}

/// Whether anything is rotated.
pub open spec fn rotates(c: RopeCfg) -> bool {
    c.kind != RopeKind::NoRope && c.n_rot != 0
}

/// Whether the pairs of so many heads can be counted, in groups of 256.
pub open spec fn turns_fit(c: RopeCfg, heads: u32) -> bool {
    c.n_tokens * heads <= u32::MAX && c.n_tokens * heads * (c.n_rot / 2) + 255 <= u32::MAX
}

impl RopeCfg {
    pub fn new(
        kind: RopeKind,
        n_heads: u32,
        n_kv_heads: u32,
        head_dim: u32,
        freq_base: Scalar,
    ) -> (r: Self)
        ensures
            r == (RopeCfg {
                kind,
                n_heads,
                n_kv_heads,
                head_dim,
                n_rot: head_dim,
                n_tokens: 1,
                freq_base,
                freq_scale: Scalar::unit(),
                ext_factor: Scalar::nil(),
                attn_factor: Scalar::unit(),
                beta_fast: Scalar::Of(crate::scalar::Real::Single(THIRTY_TWO)),
                beta_slow: Scalar::unit(),
                orig_ctx: 0,
                sections: Sections { a: 0, b: 0, c: 0, d: 0 },
                freq_factors: None,
            }),
    {
        RopeCfg {
            kind,
            n_heads,
            n_kv_heads,
            head_dim,
            n_rot: head_dim,
            n_tokens: 1,
            freq_base,
            freq_scale: Scalar::one(),
            ext_factor: Scalar::zero(),
            attn_factor: Scalar::one(),
            beta_fast: Scalar::bits(THIRTY_TWO),
            beta_slow: Scalar::one(),
            orig_ctx: 0,
            sections: Sections { a: 0, b: 0, c: 0, d: 0 },
            freq_factors: None,
        }
    }
}

/// A sequence's key/value cache region.
///
/// `dtype` is the cache's storage format, not the activation format. Half-precision storage
/// halves what is by far the largest allocation after the weights themselves, at a
/// precision cost that does not show up in output.
#[derive(Debug, Clone, Copy, PartialEq, Eq, Structural)]
pub struct KvView {
    pub k: BufferId,
    pub v: BufferId,
    /// Elements between consecutive token slots, i.e. n_kv_heads * head_dim.
    pub stride: u32,
    /// Index of this sequence's first token slot within the cache buffer.
    pub base: u32,
    pub dtype: DType,
}

impl KvView {
    /// Bytes per cached element.
    pub fn elem_size(&self) -> (r: usize)
        ensures
            r == self.dtype.block_bytes(),
    {
        self.dtype.type_size()
    }

    pub fn is_f16(&self) -> (r: bool)
        ensures
            r == (self.dtype == DType::F16),
    {
        self.dtype == DType::F16
    }
}

#[derive(Debug, Clone, Copy)]
pub struct AttnCfg {
    pub n_heads: u32,
    pub n_kv_heads: u32,
    pub head_dim: u32,
    pub n_tokens: u32,
    /// Valid cached tokens for this sequence, including the ones written this pass.
    pub kv_len: u32,
    /// Absolute position of the first new token, used to build the causal mask.
    pub start_pos: u32,
    pub scale: Scalar,
    /// Gemma-2 style `cap * tanh(x / cap)` on attention logits. 0 disables.
    pub softcap: Scalar,
    /// Sliding-window width. 0 means attend to the full history.
    pub window: u32,
    /// Per-head learned sink logits appended to the softmax denominator.
    pub sinks: Option<BufferId>,
}

#[derive(Debug, Clone, Copy, PartialEq, Eq, Structural)]
pub enum Activation {
    Silu,
    Gelu,
    GeluTanh,
    GeluQuick,
    Relu,
    Relu2,
    Swish,
}

#[derive(Debug, Clone, Copy)]
pub struct GluCfg {
    pub act: Activation,
    pub dim: u32,
    pub n_tokens: u32,
    /// Clamp applied to gate and up before combining. 0 disables.
    pub limit: Scalar,
    /// Swish beta for models whose gate is not plain SiLU.
    pub alpha: Scalar,
}

impl GluCfg {
    pub fn new(act: Activation, dim: u32, n_tokens: u32) -> (r: Self)
        ensures
            r == (GluCfg { act, dim, n_tokens, limit: Scalar::nil(), alpha: Scalar::unit() }),
    {
        GluCfg { act, dim, n_tokens, limit: Scalar::zero(), alpha: Scalar::one() }
    }
}

#[derive(Debug, Clone, Copy, PartialEq, Eq, Structural)]
pub enum GateFunc {
    Softmax,
    Sigmoid,
}

#[derive(Debug, Clone, Copy, PartialEq, Eq, Structural)]
pub struct MoeWeights {
    pub gate_inp: WeightId,
    /// Absent for models whose experts have no gate projection.
    pub gate_exps: Option<WeightId>,
    pub up_exps: WeightId,
    pub down_exps: WeightId,
    /// Per-expert routing bias added before top-k selection.
    pub exp_probs_b: Option<BufferId>,
}

#[derive(Debug, Clone, Copy)]
pub struct MoeCfg {
    pub n_expert: u32,
    pub n_expert_used: u32,
    pub n_embd: u32,
    pub n_ff: u32,
    pub n_tokens: u32,
    pub act: Activation,
    pub gate_func: GateFunc,
    /// Renormalize the selected top-k weights to sum to 1.
    pub norm_topk: bool,
    pub scale: Scalar,
}

#[derive(Debug, Clone, Copy, PartialEq, Eq, Structural)]
pub enum BinOp {
    Add,
    Mul,
    Sub,
}

} // verus!
