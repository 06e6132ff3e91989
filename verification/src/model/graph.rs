//! The transformer graph.
//!
//! There is one transformer graph here, not one per architecture. Everything a decoder
//! block varies on is a field of [`ArchSpec`], which is inferred from the file, so an
//! architecture this code has never heard of runs as long as its block is shaped like a
//! transformer block.
//!
//! A pass through the model is laid out as a list of operations, which a device then
//! carries out in order.

use vstd::prelude::*;
use vstd::string::*;

use crate::backend::{
    AttnCfg, BinOp, GluCfg, KvView, MatMulCfg, MoeCfg, MoeWeights, NormCfg, RopeCfg,
};
use crate::device::{BufferId, WeightId};
use crate::dtype::{dtype_numbers_are_unambiguous, dtype_of_id, DType};
use crate::error::{Error, ErrorView};
use crate::gguf::model::{prefixed, GgufModel, ModelView};
use crate::gguf::value::keys_of;
use crate::model::spec::{infer_spec, ArchSpec, BlockStyle, SpecView};
use crate::model::weights::{bind_all, blk_name, BindView, Binder, LayerWeights, Weights};
use crate::scalar::Scalar;
use crate::text::{
    begins_with, cat2, cat5, contains_text, dec, decimal, has_text, sorted, sorted_is_ascending,
    texts,
};

verus! {

/// Per-pass activation buffers, sized for the largest batch the model will see.
#[derive(Debug, Clone, Copy)]
pub struct Scratch {
    pub x: BufferId,
    pub xn: BufferId,
    pub xn2: BufferId,
    pub q: BufferId,
    pub k: BufferId,
    pub v: BufferId,
    pub attn: BufferId,
    pub proj: BufferId,
    pub gate: BufferId,
    pub up: BufferId,
    pub ff: BufferId,
    pub last: BufferId,
    pub logits: BufferId,
    pub max_tokens: u32,
}

/// One operation of a pass. Tokens and positions are those of the pass.
#[derive(Debug, Clone, Copy)]
#[allow(inconsistent_fields)]
pub enum Op {
    /// `dst[t] = weight[tokens[t]] * scale`
    GetRows { dst: BufferId, weight: WeightId, scale: Scalar },
    Norm { dst: BufferId, src: BufferId, weight: Option<BufferId>, cfg: NormCfg },
    /// `dst = weight @ src`
    MatMul { dst: BufferId, weight: WeightId, src: BufferId, cfg: MatMulCfg },
    Rope { q: BufferId, k: BufferId, cfg: RopeCfg },
    /// Scatters this pass's K and V into the cache starting at `start_pos`.
    KvWrite { kv: KvView, k: BufferId, v: BufferId, start_pos: u32, n_tokens: u32, dim: u32 },
    Attention { dst: BufferId, q: BufferId, kv: KvView, cfg: AttnCfg },
    /// `dst = act(gate) * up`
    Glu { dst: BufferId, gate: BufferId, up: BufferId, cfg: GluCfg },
    /// `buf = act(buf)`
    Activate { buf: BufferId, cfg: GluCfg },
    Moe { dst: BufferId, src: BufferId, w: MoeWeights, cfg: MoeCfg },
    Binary { dst: BufferId, a: BufferId, b: BufferId, op: BinOp, n: u32 },
    Scale { buf: BufferId, factor: Scalar, n: u32 },
    /// `x = cap * tanh(x / cap)`
    Softcap { buf: BufferId, cap: Scalar, n: u32 },
    Copy { dst: BufferId, dst_off: u64, src: BufferId, src_off: u64, bytes: u64 },
    Submit,
}

// ------------------------------------------------------------------- what a pass consists of

pub open spec fn norm_of(s: SpecView, n: u32) -> NormCfg {
    NormCfg {
        kind: s.norm_kind,
        dim: s.n_embd,
        n_tokens: n,
        eps: Scalar::Of(s.norm_eps),
        bias: None,
        scale: Scalar::unit(),
    }
}

pub open spec fn matmul(
    dst: BufferId,
    weight: WeightId,
    src: BufferId,
    n_out: u32,
    n_in: u32,
    n: u32,
    bias: Option<BufferId>,
) -> Op {
    Op::MatMul { dst, weight, src, cfg: MatMulCfg { n_out, n_in, n_tokens: n, bias } }
}

pub open spec fn rope_cfg_of(s: SpecView, freqs: Option<BufferId>, l: nat, n: u32) -> RopeCfg {
    RopeCfg {
        kind: s.rope.kind,
        n_heads: s.n_heads,
        n_kv_heads: s.n_kv_heads,
        head_dim: s.head_dim,
        n_rot: s.rope.n_rot,
        n_tokens: n,
        // Gemma-3 gives its sliding-window layers a different rope base from the global
        // ones, which is the only per-layer rope variation in circulation.
        freq_base: match s.rope.local_base {
            Some(local) if s.uses_swa(l) => Scalar::Of(local),
            _ => Scalar::Of(s.rope.freq_base),
        },
        freq_scale: s.rope.freq_scale,
        ext_factor: s.rope.ext_factor,
        attn_factor: Scalar::Of(s.rope.attn_factor),
        beta_fast: Scalar::Of(s.rope.beta_fast),
        beta_slow: Scalar::Of(s.rope.beta_slow),
        orig_ctx: s.rope.orig_ctx,
        sections: s.rope.sections,
        freq_factors: freqs,
    }
}

/// What feeds attention: pre-norm styles normalize first, post-norm feeds the raw residual
/// straight in.
pub open spec fn attn_input(s: SpecView, sc: Scratch) -> BufferId {
    if s.style == BlockStyle::PostNorm {
        sc.x
    } else {
        sc.xn
    }
}

pub open spec fn attn_norm_ops(s: SpecView, w: LayerWeights, sc: Scratch, n: u32) -> Seq<Op> {
    if s.style == BlockStyle::PostNorm {
        Seq::empty()
    } else {
        seq![
            Op::Norm {
                dst: sc.xn,
                src: sc.x,
                weight: w.attn_norm,
                cfg: NormCfg { bias: w.attn_norm_b, ..norm_of(s, n) },
            },
        ]
    }
}

pub open spec fn qkv_ops(s: SpecView, w: LayerWeights, sc: Scratch, n: u32) -> Seq<Op> {
    let src = attn_input(s, sc);
    seq![
        matmul(sc.q, w.attn_q, src, s.embd_q() as u32, s.n_embd, n, w.q_bias),
        matmul(sc.k, w.attn_k, src, s.embd_k() as u32, s.n_embd, n, w.k_bias),
        matmul(sc.v, w.attn_v, src, s.embd_k() as u32, s.n_embd, n, w.v_bias),
    ]
}

/// QK-norm normalizes each head independently, so it is the same op with the head as the
/// row rather than the token.
pub open spec fn head_norm_ops(
    s: SpecView,
    buf: BufferId,
    weight: Option<BufferId>,
    heads: u32,
    n: u32,
) -> Seq<Op> {
    match weight {
        Some(_) => seq![
            Op::Norm {
                dst: buf,
                src: buf,
                weight,
                cfg: NormCfg {
                    dim: s.head_dim,
                    n_tokens: (n * heads) as u32,
                    ..norm_of(s, n)
                },
            },
        ],
        None => Seq::empty(),
    }
}

/// Rotation, the cache write and attention itself.
pub open spec fn attend_ops(
    s: SpecView,
    w: LayerWeights,
    sc: Scratch,
    freqs: Option<BufferId>,
    l: nat,
    kv: KvView,
    start_pos: u32,
    kv_len: u32,
    n: u32,
) -> Seq<Op> {
    seq![
        Op::Rope { q: sc.q, k: sc.k, cfg: rope_cfg_of(s, freqs, l, n) },
        Op::KvWrite { kv, k: sc.k, v: sc.v, start_pos, n_tokens: n, dim: s.embd_k() as u32 },
        Op::Attention {
            dst: sc.attn,
            q: sc.q,
            kv,
            cfg: AttnCfg {
                n_heads: s.n_heads,
                n_kv_heads: s.n_kv_heads,
                head_dim: s.head_dim,
                n_tokens: n,
                kv_len,
                start_pos,
                scale: s.attn_scale,
                softcap: Scalar::Of(s.attn_softcap),
                window: if s.uses_swa(l) {
                    s.swa_window
                } else {
                    0
                },
                sinks: w.sinks,
            },
        },
        matmul(sc.proj, w.attn_out, sc.attn, s.n_embd, s.embd_q() as u32, n, w.out_bias),
    ]
}

/// The norm behind a sublayer, where there is one.
pub open spec fn post_norm_ops(
    s: SpecView,
    buf: BufferId,
    weight: Option<BufferId>,
    n: u32,
) -> Seq<Op> {
    match weight {
        Some(_) => seq![Op::Norm { dst: buf, src: buf, weight, cfg: norm_of(s, n) }],
        None => Seq::empty(),
    }
}

/// The scaling of what a sublayer adds to the residual, where it is not 1.
pub open spec fn residual_scale_ops(s: SpecView, buf: BufferId, n: u32) -> Seq<Op> {
    if s.residual_scale.rounds_to_one() {
        Seq::empty()
    } else {
        seq![
            Op::Scale {
                buf,
                factor: Scalar::Of(s.residual_scale),
                n: (s.n_embd * n) as u32,
            },
        ]
    }
}

pub open spec fn add_op(s: SpecView, dst: BufferId, b: BufferId, n: u32) -> Op {
    Op::Binary { dst, a: dst, b, op: BinOp::Add, n: (s.n_embd * n) as u32 }
}

/// A feed-forward block without experts. Ungated, the activation applies to `up` alone,
/// with no second branch to multiply against.
pub open spec fn dense_ops(
    s: SpecView,
    sc: Scratch,
    gate_w: Option<WeightId>,
    up_w: WeightId,
    down_w: WeightId,
    up_b: Option<BufferId>,
    down_b: Option<BufferId>,
    input: BufferId,
    n: u32,
    n_ff: u32,
    dst: BufferId,
) -> Seq<Op> {
    let glu = GluCfg {
        act: s.act,
        dim: n_ff,
        n_tokens: n,
        limit: Scalar::nil(),
        alpha: Scalar::unit(),
    };
    match gate_w {
        Some(g) => seq![
            matmul(sc.up, up_w, input, n_ff, s.n_embd, n, up_b),
            matmul(sc.gate, g, input, n_ff, s.n_embd, n, None),
            Op::Glu { dst: sc.gate, gate: sc.gate, up: sc.up, cfg: glu },
            matmul(dst, down_w, sc.gate, s.n_embd, n_ff, n, down_b),
        ],
        None => seq![
            matmul(sc.up, up_w, input, n_ff, s.n_embd, n, up_b),
            Op::Activate { buf: sc.up, cfg: glu },
            matmul(dst, down_w, sc.up, s.n_embd, n_ff, n, down_b),
        ],
    }
}

/// The feed-forward block, whose result lands in `ff`. A shared expert runs for every token
/// and is summed with the routed result.
pub open spec fn ffn_ops(
    s: SpecView,
    w: LayerWeights,
    sc: Scratch,
    l: nat,
    input: BufferId,
    n: u32,
) -> Result<Seq<Op>, ErrorView> {
    if w.moe is Some && s.moe is Some {
        let moe = s.moe->0;
        let routed = seq![
            Op::Moe {
                dst: sc.ff,
                src: input,
                w: w.moe->0,
                cfg: MoeCfg {
                    n_expert: moe.n_expert,
                    n_expert_used: moe.n_expert_used,
                    n_embd: s.n_embd,
                    n_ff: moe.n_ff_exp,
                    n_tokens: n,
                    act: s.act,
                    gate_func: moe.gate_func,
                    norm_topk: moe.norm_topk,
                    scale: Scalar::Of(moe.scale),
                },
            },
        ];
        match w.shexp {
            Some((gate, up, down)) => Ok(
                routed + dense_ops(
                    s,
                    sc,
                    gate,
                    up,
                    down,
                    None,
                    None,
                    input,
                    n,
                    if moe.n_ff_shexp == 0 {
                        1
                    } else {
                        moe.n_ff_shexp
                    },
                    sc.proj,
                ) + seq![add_op(s, sc.ff, sc.proj, n)],
            ),
            None => Ok(routed),
        }
    } else {
        match w.ffn_down {
            None => Err(ErrorView::MissingTensor(blk_name(l, "ffn_down.weight"@))),
            Some(down) => match w.ffn_up {
                None => Err(ErrorView::MissingTensor(blk_name(l, "ffn_up.weight"@))),
                Some(up) => Ok(
                    dense_ops(
                        s,
                        sc,
                        w.ffn_gate,
                        up,
                        down,
                        w.ffn_up_b,
                        w.ffn_down_b,
                        input,
                        n,
                        s.n_ff,
                        sc.ff,
                    ),
                ),
            },
        }
    }
}

pub open spec fn ffn_input(s: SpecView, sc: Scratch) -> BufferId {
    match s.style {
        BlockStyle::ParallelResidual => sc.xn,
        BlockStyle::PostNorm => sc.x,
        BlockStyle::PreNorm => sc.xn2,
    }
}

/// What stands between attention and the feed-forward block.
pub open spec fn between_ops(s: SpecView, w: LayerWeights, sc: Scratch, n: u32) -> Seq<Op> {
    match s.style {
        BlockStyle::ParallelResidual => Seq::empty(),
        BlockStyle::PostNorm => seq![add_op(s, sc.x, sc.proj, n)],
        BlockStyle::PreNorm => seq![
            add_op(s, sc.x, sc.proj, n),
            Op::Norm {
                dst: sc.xn2,
                src: sc.x,
                weight: w.ffn_norm,
                cfg: NormCfg { bias: w.ffn_norm_b, ..norm_of(s, n) },
            },
        ],
    }
}

/// What follows the feed-forward block. In a parallel block attention and feed-forward both
/// land on the original residual, so neither is added before both are computed.
pub open spec fn after_ops(s: SpecView, w: LayerWeights, sc: Scratch, n: u32) -> Seq<Op> {
    if s.style == BlockStyle::ParallelResidual {
        seq![add_op(s, sc.x, sc.proj, n), add_op(s, sc.x, sc.ff, n)]
    } else {
        post_norm_ops(s, sc.ff, w.ffn_post_norm, n) + residual_scale_ops(s, sc.ff, n) + seq![
            add_op(s, sc.x, sc.ff, n),
        ]
    }
}

/// Operations in order, and what is at fault where something is missing for what would follow.
#[verifier::ext_equal]
pub struct Steps {
    pub ops: Seq<Op>,
    pub fault: Option<ErrorView>,
}

/// A transformer block up to its feed-forward block.
pub open spec fn attention_ops(
    s: SpecView,
    w: LayerWeights,
    sc: Scratch,
    freqs: Option<BufferId>,
    l: nat,
    kv: KvView,
    start_pos: u32,
    kv_len: u32,
    n: u32,
) -> Seq<Op> {
    attn_norm_ops(s, w, sc, n) + qkv_ops(s, w, sc, n) + head_norm_ops(
        s,
        sc.q,
        w.q_norm,
        s.n_heads,
        n,
    ) + head_norm_ops(s, sc.k, w.k_norm, s.n_kv_heads, n) + attend_ops(
        s,
        w,
        sc,
        freqs,
        l,
        kv,
        start_pos,
        kv_len,
        n,
    ) + post_norm_ops(s, sc.proj, w.post_attn_norm, n) + residual_scale_ops(s, sc.proj, n)
        + between_ops(s, w, sc, n)
}

/// One transformer block.
pub open spec fn layer_ops(
    s: SpecView,
    w: LayerWeights,
    sc: Scratch,
    freqs: Option<BufferId>,
    l: nat,
    kv: KvView,
    start_pos: u32,
    kv_len: u32,
    n: u32,
) -> Steps {
    let before = attention_ops(s, w, sc, freqs, l, kv, start_pos, kv_len, n);
    match ffn_ops(s, w, sc, l, ffn_input(s, sc), n) {
        Err(e) => Steps { ops: before, fault: Some(e) },
        Ok(ffn) => Steps { ops: before + ffn + after_ops(s, w, sc, n), fault: None },
    }
}

/// The first `k` transformer blocks, up to the first one that lacks something.
pub open spec fn layers_ops(
    s: SpecView,
    ws: Seq<LayerWeights>,
    sc: Scratch,
    freqs: Option<BufferId>,
    kv: Seq<KvView>,
    start_pos: u32,
    kv_len: u32,
    n: u32,
    k: nat,
) -> Steps
    decreases k,
{
    if k == 0 {
        Steps { ops: Seq::empty(), fault: None }
    } else {
        let before = layers_ops(s, ws, sc, freqs, kv, start_pos, kv_len, n, (k - 1) as nat);
        let last = layer_ops(
            s,
            ws[k - 1],
            sc,
            freqs,
            (k - 1) as nat,
            kv[k - 1],
            start_pos,
            kv_len,
            n,
        );
        if before.fault is Some {
            before
        } else {
            Steps { ops: before.ops + last.ops, fault: last.fault }
        }
    }
}

/// The output projection of the last token, the only one whose logits are needed.
pub open spec fn output_ops(
    s: SpecView,
    output: WeightId,
    output_norm: Option<BufferId>,
    output_norm_b: Option<BufferId>,
    sc: Scratch,
    n: u32,
) -> Seq<Op> {
    seq![
        Op::Copy {
            dst: sc.last,
            dst_off: 0,
            src: sc.x,
            src_off: ((n - 1) * s.n_embd * 4) as u64,
            bytes: (s.n_embd * 4) as u64,
        },
        Op::Norm {
            dst: sc.last,
            src: sc.last,
            weight: output_norm,
            cfg: NormCfg { bias: output_norm_b, ..norm_of(s, 1) },
        },
        matmul(sc.logits, output, sc.last, s.n_vocab, s.n_embd, 1, None),
    ] + (if s.logit_scale.rounds_to_one() {
        Seq::empty()
    } else {
        seq![Op::Scale { buf: sc.logits, factor: Scalar::Of(s.logit_scale), n: s.n_vocab }]
    }) + (if s.final_softcap.rounds_above_zero() {
        seq![Op::Softcap { buf: sc.logits, cap: Scalar::Of(s.final_softcap), n: s.n_vocab }]
    } else {
        Seq::empty()
    }) + seq![Op::Submit]
}

/// Why a pass over `n` tokens with `n_kv` cache regions is refused.
pub open spec fn pass_fault(s: SpecView, sc: Scratch, n: nat, n_kv: nat) -> Option<ErrorView> {
    if n == 0 {
        Some(ErrorView::Shape("forward called with no tokens"@))
    } else if n > sc.max_tokens {
        Some(
            ErrorView::Shape(
                "batch of "@ + dec(n) + " exceeds the "@ + dec(sc.max_tokens as nat)
                    + " this model was loaded for"@,
            ),
        )
    } else if n_kv < s.n_layers {
        Some(
            ErrorView::Shape(
                "need "@ + dec(s.n_layers as nat) + " kv views, got "@ + dec(n_kv),
            ),
        )
    } else {
        None
    }
}

// --------------------------------------------------------------------------------- the model

#[derive(Debug)]
pub struct Model {
    pub spec: ArchSpec,
    pub weights: Weights,
    pub scratch: Scratch,
}

/// What a pass runs, and what is at fault where it has to stop short of the logits: nothing tells
/// before that a weight is missing.
#[derive(Debug)]
pub struct Forward {
    pub ops: Vec<Op>,
    pub fault: Option<Error>,
}

pub open spec fn fault_of(e: Option<Error>) -> Option<ErrorView> {
    match e {
        Some(x) => Some(x@),
        None => None,
    }
}

impl View for Forward {
    type V = Steps;

    open spec fn view(&self) -> Steps {
        Steps {
            ops: self.ops@,
            fault: fault_of(self.fault),
        }
    }
}

/// The operations of a pass, from the tokens to the logits, or up to the block that lacks
/// something.
pub open spec fn pass_ops(
    m: Model,
    kv: Seq<KvView>,
    start_pos: u32,
    kv_len: u32,
    n: u32,
) -> Steps {
    let s = m.spec@;
    let x = layers_ops(
        s,
        m.weights.layers@,
        m.scratch,
        m.weights.rope_freqs,
        kv,
        start_pos,
        kv_len,
        n,
        s.n_layers as nat,
    );
    let first = seq![
        Op::GetRows { dst: m.scratch.x, weight: m.weights.token_embd, scale: s.embd_scale },
    ];
    if x.fault is Some {
        Steps { ops: first + x.ops, fault: x.fault }
    } else {
        Steps {
            ops: first + x.ops + output_ops(
                s,
                m.weights.output,
                m.weights.output_norm,
                m.weights.output_norm_b,
                m.scratch,
                n,
            ),
            fault: None,
        }
    }
}

/// The width of the widest feed-forward block.
pub open spec fn widest_ff(s: SpecView) -> u32 {
    let w = match s.moe {
        Some(m) => if m.n_ff_exp > s.n_ff {
            m.n_ff_exp
        } else {
            s.n_ff
        },
        None => s.n_ff,
    };
    if w == 0 {
        1
    } else {
        w
    }
}

/// How many numbers each activation buffer holds, for batches of up to `t` tokens.
pub open spec fn scratch_lens(s: SpecView, t: nat) -> Seq<nat> {
    seq![
        t * s.n_embd as nat,
        t * s.n_embd as nat,
        t * s.n_embd as nat,
        t * s.embd_q(),
        t * s.embd_k(),
        t * s.embd_k(),
        t * s.embd_q(),
        t * s.n_embd as nat,
        t * widest_ff(s) as nat,
        t * widest_ff(s) as nat,
        t * s.n_embd as nat,
        s.n_embd as nat,
        s.n_vocab as nat,
    ]
}

/// Whether every activation buffer can be addressed.
pub open spec fn scratch_fits(s: SpecView, t: nat) -> bool {
    forall|i: int| 0 <= i < 13 ==> #[trigger] scratch_lens(s, t)[i] * 4 <= u64::MAX
}

/// The handles of the activation buffers, the first of which is `first`.
pub open spec fn scratch_at(first: u32, t: u32) -> Scratch {
    Scratch {
        x: BufferId(first),
        xn: BufferId(first.wrapping_add(1)),
        xn2: BufferId(first.wrapping_add(2)),
        q: BufferId(first.wrapping_add(3)),
        k: BufferId(first.wrapping_add(4)),
        v: BufferId(first.wrapping_add(5)),
        attn: BufferId(first.wrapping_add(6)),
        proj: BufferId(first.wrapping_add(7)),
        gate: BufferId(first.wrapping_add(8)),
        up: BufferId(first.wrapping_add(9)),
        ff: BufferId(first.wrapping_add(10)),
        last: BufferId(first.wrapping_add(11)),
        logits: BufferId(first.wrapping_add(12)),
        max_tokens: t,
    }
}

/// The buffers of a pass are all different, so no operation overwrites what another one
/// still needs.
pub proof fn scratch_buffers_are_distinct(first: u32, t: u32)
    ensures
        ({
            let s = scratch_at(first, t);
            let ids = seq![
                s.x, s.xn, s.xn2, s.q, s.k, s.v, s.attn, s.proj, s.gate, s.up, s.ff, s.last,
                s.logits,
            ];
            forall|i: int, j: int| 0 <= i < j < 13 ==> ids[i] != ids[j]
        }),
{
    let s = scratch_at(first, t);
    let ids = seq![
        s.x, s.xn, s.xn2, s.q, s.k, s.v, s.attn, s.proj, s.gate, s.up, s.ff, s.last, s.logits,
    ];
    assert forall|i: int| 0 <= i < 13 implies (#[trigger] ids[i]).0 == first.wrapping_add(
        i as u32,
    ) by {}
    assert forall|i: int, j: int| 0 <= i < j < 13 implies ids[i] != ids[j] by {
        assert(ids[i].0 == first.wrapping_add(i as u32));
        assert(ids[j].0 == first.wrapping_add(j as u32));
    }
}

/// The type with the least number, from `v` on, that the file uses and that is refused.
pub open spec fn refused_from(m: ModelView, v: nat) -> Option<DType>
    decreases 40 - v,
{
    if v >= 40 {
        None
    } else {
        match dtype_of_id(v as u32) {
            Some(t) if m.uses(t) && t.has_codebook() => Some(t),
            _ => refused_from(m, v + 1),
        }
    }
}

/// Whether a tensor name gives away a recurrent or linear-attention block.
pub open spec fn is_foreign(name: Seq<char>) -> bool {
    has_text(name, ".ssm_"@) || has_text(name, ".time_mix_"@) || has_text(name, ".shortconv"@)
}

/// The first of `names` that gives away a block that is no transformer block.
pub open spec fn first_foreign(names: Seq<Seq<char>>) -> Option<Seq<char>>
    decreases names.len(),
{
    if names.len() == 0 {
        None
    } else if is_foreign(names[0]) {
        Some(names[0])
    } else {
        first_foreign(names.drop_first())
    }
}

/// The same over the blocks from `i` to `n`.
pub open spec fn foreign_from(m: ModelView, i: nat, n: nat) -> Option<Seq<char>>
    decreases n - i,
{
    if i >= n {
        None
    } else {
        match first_foreign(sorted(prefixed(keys_of(m.tensors), "blk."@ + dec(i) + "."@))) {
            Some(name) => Some(name),
            None => foreign_from(m, i + 1, n),
        }
    }
}

/// Why the file cannot be run, or nothing.
pub open spec fn unsupported(m: ModelView, s: SpecView) -> Option<ErrorView> {
    let blocks = s.n_layers as nat;
    if refused_from(m, 0) is Some {
        Some(refused_from(m, 0)->0.refusal())
    } else if foreign_from(m, 0, blocks) is Some {
        Some(
            ErrorView::Unsupported(
                s.arch + " is a hybrid state-space / linear-attention model ("@ + foreign_from(
                    m,
                    0,
                    blocks,
                )->0
                    + " is not part of a transformer block). This engine implements attention-based decoders only"@,
            ),
        )
    } else if m.has("blk.0.attn_kv_a_mqa.weight"@) || m.has("blk.0.attn_q_a.weight"@) {
        Some(
            ErrorView::Unsupported(
                s.arch
                    + " uses multi-head latent attention (MLA), which this engine does not implement yet; its attention block is shaped differently from a standard transformer rather than being a variation on one"@,
            ),
        )
    } else if s.n_heads == 0 || s.n_layers == 0 {
        Some(
            ErrorView::Unsupported(
                s.arch + " declares "@ + dec(s.n_heads as nat) + " heads and "@ + dec(
                    s.n_layers as nat,
                ) + " layers; this does not look like a decoder model"@,
            ),
        )
    } else {
        None
    }
}

/// A file is refused, with a message, where any block holds a tensor of a layer that is no
/// transformer block, where its attention is latent, or where a tensor is quantized by a
/// codebook that is not carried.
pub proof fn what_cannot_run_is_refused(m: ModelView, s: SpecView, name: Seq<char>, block: nat, t: DType)
    requires
        ({
            ||| block < s.n_layers && keys_of(m.tensors).contains(name) && begins_with(
                name,
                "blk."@ + dec(block) + "."@,
            ) && is_foreign(name)
            ||| m.has("blk.0.attn_kv_a_mqa.weight"@)
            ||| m.has("blk.0.attn_q_a.weight"@)
            ||| m.uses(t) && t.has_codebook()
        }),
    ensures
        unsupported(m, s) matches Some(ErrorView::Unsupported(_)),
{
    if m.uses(t) && t.has_codebook() {
        refused_is_found(m, 0, t);
    }
    if block < s.n_layers && keys_of(m.tensors).contains(name) && begins_with(
        name,
        "blk."@ + dec(block) + "."@,
    ) && is_foreign(name) {
        foreign_is_found(m, 0, s.n_layers as nat, block, name);
    }
}

proof fn refused_is_found(m: ModelView, v: nat, t: DType)
    requires
        m.uses(t),
        t.has_codebook(),
        v <= t.number(),
    ensures
        refused_from(m, v) is Some,
    decreases 40 - v,
{
    dtype_numbers_are_unambiguous(t, 0);
    if v < t.number() {
        refused_is_found(m, v + 1, t);
    }
}

proof fn foreign_is_found(m: ModelView, i: nat, n: nat, block: nat, name: Seq<char>)
    requires
        i <= block < n,
        keys_of(m.tensors).contains(name),
        begins_with(name, "blk."@ + dec(block) + "."@),
        is_foreign(name),
    ensures
        foreign_from(m, i, n) is Some,
    decreases n - i,
{
    if i == block {
        let p = "blk."@ + dec(i) + "."@;
        let some = prefixed(keys_of(m.tensors), p);
        prefixed_holds(keys_of(m.tensors), p, name);
        sorted_is_ascending(some);
        some.to_multiset_ensures();
        sorted(some).to_multiset_ensures();
        assert(sorted(some).to_multiset().count(name) > 0);
        foreign_is_first(sorted(some), name);
    } else {
        foreign_is_found(m, i + 1, n, block, name);
    }
}

proof fn prefixed_holds(names: Seq<Seq<char>>, p: Seq<char>, name: Seq<char>)
    requires
        names.contains(name),
        begins_with(name, p),
    ensures
        prefixed(names, p).contains(name),
    decreases names.len(),
{
    let rest = prefixed(names.drop_last(), p);
    if names.last() == name {
        assert(prefixed(names, p)[rest.len() as int] == name);
    } else {
        let z = choose|z: int| 0 <= z < names.len() && names[z] == name;
        assert(names.drop_last()[z] == name);
        prefixed_holds(names.drop_last(), p, name);
        let y = choose|y: int| 0 <= y < rest.len() && rest[y] == name;
        assert(prefixed(names, p)[y] == name);
    }
}

proof fn foreign_is_first(names: Seq<Seq<char>>, name: Seq<char>)
    requires
        names.contains(name),
        is_foreign(name),
    ensures
        first_foreign(names) is Some,
    decreases names.len(),
{
    if !is_foreign(names[0]) {
        let z = choose|z: int| 0 <= z < names.len() && names[z] == name;
        assert(names.drop_first()[z - 1] == name);
        foreign_is_first(names.drop_first(), name);
    }
}

proof fn foreign_skip(names: Seq<Seq<char>>, i: int)
    requires
        0 <= i < names.len(),
    ensures
        first_foreign(names.skip(i)) == if is_foreign(names[i]) {
            Some(names[i])
        } else {
            first_foreign(names.skip(i + 1))
        },
{
    assert(names.skip(i).drop_first() =~= names.skip(i + 1));
    assert(names.skip(i)[0] == names[i]);
}

impl Model {
    pub open spec fn wf(self) -> bool {
        self.weights.layers@.len() >= self.spec.n_layers && self.scratch.max_tokens
            * self.spec.n_embd * 4 <= u64::MAX
    }

    /// Why the file cannot be run, or nothing.
    fn check_supported(g: &GgufModel<'_>, spec: &ArchSpec) -> (r: Result<(), Error>)
        requires
            g.wf(),
        ensures
            match unsupported(g.content(), spec@) {
                Some(e) => r is Err && r->Err_0@ == e,
                None => r is Ok,
            },
    {
        let ghost m = g.content();
        let mut v: u32 = 0;
        while v < 40
            invariant
                g.wf(),
                m == g.content(),
                v <= 40,
                refused_from(m, 0) == refused_from(m, v as nat),
            decreases 40 - v,
        {
            match DType::from_u32(v) {
                Ok(t) => {
                    assert(dtype_of_id(v) == Some(t));
                    if g.uses_type(t) {
                        t.check_supported()?;
                    }
                },
                Err(_) => {},
            }
            v = v + 1;
        }
        let blocks: u32 = spec.n_layers;
        let mut i: u32 = 0;
        while i < blocks
            invariant
                g.wf(),
                m == g.content(),
                i <= blocks,
                blocks == spec.n_layers,
                refused_from(m, 0) is None,
                foreign_from(m, 0, blocks as nat) == foreign_from(m, i as nat, blocks as nat),
            decreases blocks - i,
        {
            let names = g.block_tensors(i as usize);
            let ghost all = texts(names@);
            let mut k: usize = 0;
            assert(all.skip(0) =~= all);
            while k < names.len()
                invariant
                    k <= names@.len(),
                    i < blocks,
                    all == texts(names@),
                    first_foreign(all) == first_foreign(all.skip(k as int)),
                    all == sorted(prefixed(keys_of(m.tensors), "blk."@ + dec(i as nat) + "."@)),
                    refused_from(m, 0) is None,
                    blocks == spec.n_layers,
                    m == g.content(),
                    foreign_from(m, 0, blocks as nat) == foreign_from(m, i as nat, blocks as nat),
                decreases names@.len() - k,
            {
                proof {
                    foreign_skip(all, k as int);
                }
                let n = names[k].as_str();
                if contains_text(n, ".ssm_") || contains_text(n, ".time_mix_") || contains_text(
                    n,
                    ".shortconv",
                ) {
                    return Err(
                        Error::Unsupported(
                            crate::text::cat4(
                                spec.arch.as_str(),
                                " is a hybrid state-space / linear-attention model (",
                                n,
                                " is not part of a transformer block). This engine implements attention-based decoders only",
                            ),
                        ),
                    );
                }
                k = k + 1;
            }
            assert(all.skip(k as int) =~= Seq::<Seq<char>>::empty());
            i = i + 1;
        }
        if g.contains("blk.0.attn_kv_a_mqa.weight") || g.contains("blk.0.attn_q_a.weight") {
            return Err(
                Error::Unsupported(
                    cat2(
                        spec.arch.as_str(),
                        " uses multi-head latent attention (MLA), which this engine does not implement yet; its attention block is shaped differently from a standard transformer rather than being a variation on one",
                    ),
                ),
            );
        }
        if spec.n_heads == 0 || spec.n_layers == 0 {
            let mut t = cat2(spec.arch.as_str(), " declares ");
            t.append(decimal(spec.n_heads as u64).as_str());
            t.append(" heads and ");
            t.append(decimal(spec.n_layers as u64).as_str());
            t.append(" layers; this does not look like a decoder model");
            return Err(Error::Unsupported(t));
        }
        Ok(())
    }

    /// The sizes in bytes of the activation buffers, in the order of their handles.
    fn alloc_scratch(s: &ArchSpec, t: u32) -> (r: Result<Vec<u64>, Error>)
        ensures
            scratch_fits(s@, t as nat) ==> r is Ok && r->Ok_0@ == Seq::new(
                13,
                |i: int| (scratch_lens(s@, t as nat)[i] * 4) as u64,
            ),
            !scratch_fits(s@, t as nat) ==> r is Err && r->Err_0@ == ErrorView::Shape(
                "the activation buffers are too large to address"@,
            ),
    {
        let ff: u32 = {
            let w = match s.moe {
                Some(m) => if m.n_ff_exp > s.n_ff {
                    m.n_ff_exp
                } else {
                    s.n_ff
                },
                None => s.n_ff,
            };
            if w == 0 {
                1
            } else {
                w
            }
        };
        let q = s.n_embd_q();
        let k = s.n_embd_k();
        let e = s.n_embd as u64;
        let mut out: Vec<u64> = Vec::new();
        let ghost lens = scratch_lens(s@, t as nat);
        let widths: Vec<u64> = vec![e, e, e, q, k, k, q, e, ff as u64, ff as u64, e, e, s.n_vocab as u64];
        let mut i: usize = 0;
        while i < 13
            invariant
                i <= 13,
                widths@ == seq![
                    e, e, e, q, k, k, q, e, ff as u64, ff as u64, e, e, s.n_vocab as u64,
                ],
                e == s.n_embd,
                q == s@.embd_q(),
                k == s@.embd_k(),
                ff == widest_ff(s@),
                lens == scratch_lens(s@, t as nat),
                out@.len() == i,
                forall|j: int| 0 <= j < i ==> #[trigger] lens[j] * 4 <= u64::MAX,
                forall|j: int| 0 <= j < i ==> #[trigger] out@[j] == (lens[j] * 4) as u64,
            decreases 13 - i,
        {
            let per: u64 = if i >= 11 {
                1
            } else {
                t as u64
            };
            let w: u64 = widths[i];
            assert(lens[i as int] == per * w) by {
                if i >= 11 {
                    assert(1 * w == w);
                }
            }
            assert(per * w <= 0xffff_ffff * 0xffff_ffff_ffff_ffff) by (nonlinear_arith)
                requires
                    per <= 0xffff_ffff,
                    w <= 0xffff_ffff_ffff_ffff,
            ;
            let bytes: u128 = per as u128 * w as u128 * 4;
            if bytes > u64::MAX as u128 {
                return Err(
                    Error::Shape(
                        crate::text::own("the activation buffers are too large to address"),
                    ),
                );
            }
            out.push(bytes as u64);
            i = i + 1;
        }
        assert(out@ =~= Seq::new(13, |i: int| (lens[i] * 4) as u64));
        Ok(out)
    }

    /// Lays out the model: which loads to carry out, which activation buffers to allocate
    /// behind them, and what runs on them, for batches of up to `max_batch` tokens.
    pub fn load(g: &GgufModel<'_>, b: &mut Binder, max_batch: u32) -> (r: Result<
        (Self, Vec<u64>),
        Error,
    >)
        requires
            g.wf(),
            old(b)@ == BindView::fresh(),
        ensures
            match infer_spec(g.content()) {
                Err(e) => r is Err && r->Err_0@ == e && final(b)@ == old(b)@,
                Ok(s) => match unsupported(g.content(), s) {
                    Some(e) => r is Err && r->Err_0@ == e && final(b)@ == old(b)@,
                    None => {
                        let (w, bound) = bind_all(g.content(), s);
                        let t = if max_batch == 0 {
                            1u32
                        } else {
                            max_batch
                        };
                        final(b).steps@ == bound.steps && match bound.failed {
                            Some(e) => r is Err && r->Err_0@ == e,
                            None => if !scratch_fits(s, t as nat) {
                                r is Err && r->Err_0@ == ErrorView::Shape(
                                    "the activation buffers are too large to address"@,
                                )
                            } else {
                                r matches Ok((m, sizes)) && m.wf() && m.spec@ == s && m.weights@
                                    == w && m.scratch == scratch_at(bound.next_buffer, t)
                                    && sizes@ == Seq::new(
                                    13,
                                    |i: int| (scratch_lens(s, t as nat)[i] * 4) as u64,
                                )
                            },
                        }
                    },
                },
            },
    {
        let spec = ArchSpec::infer(g)?;
        Self::check_supported(g, &spec)?;
        let weights = Weights::load(g, &spec, b)?;
        let t: u32 = if max_batch == 0 {
            1
        } else {
            max_batch
        };
        Self::placed(spec, weights, b.next_buffer, t)
    }

    /// A model whose activation buffers lie behind its weights, from `first` on.
    fn placed(spec: ArchSpec, weights: Weights, first: u32, t: u32) -> (r: Result<
        (Self, Vec<u64>),
        Error,
    >)
        requires
            weights.layers@.len() == spec.n_layers,
        ensures
            if !scratch_fits(spec@, t as nat) {
                r is Err && r->Err_0@ == ErrorView::Shape(
                    "the activation buffers are too large to address"@,
                )
            } else {
                r matches Ok((m, sizes)) && m.wf() && m.spec == spec && m.weights == weights
                    && m.scratch == scratch_at(first, t) && sizes@ == Seq::new(
                    13,
                    |i: int| (scratch_lens(spec@, t as nat)[i] * 4) as u64,
                )
            },
    {
        let sizes = Self::alloc_scratch(&spec, t)?;
        assert(scratch_lens(spec@, t as nat)[0] * 4 <= u64::MAX);
        let scratch = Scratch {
            x: BufferId(first),
            xn: BufferId(first.wrapping_add(1)),
            xn2: BufferId(first.wrapping_add(2)),
            q: BufferId(first.wrapping_add(3)),
            k: BufferId(first.wrapping_add(4)),
            v: BufferId(first.wrapping_add(5)),
            attn: BufferId(first.wrapping_add(6)),
            proj: BufferId(first.wrapping_add(7)),
            gate: BufferId(first.wrapping_add(8)),
            up: BufferId(first.wrapping_add(9)),
            ff: BufferId(first.wrapping_add(10)),
            last: BufferId(first.wrapping_add(11)),
            logits: BufferId(first.wrapping_add(12)),
            max_tokens: t,
        };
        Ok((Model { spec, weights, scratch }, sizes))
    }

    pub fn max_batch(&self) -> (r: u32)
        ensures
            r == self.scratch.max_tokens,
    {
        self.scratch.max_tokens
    }

    fn norm_cfg(&self, n: u32) -> (r: NormCfg)
        ensures
            r == norm_of(self.spec@, n),
    {
        NormCfg {
            kind: self.spec.norm_kind,
            dim: self.spec.n_embd,
            n_tokens: n,
            eps: Scalar::Of(self.spec.norm_eps),
            bias: None,
            scale: Scalar::one(),
        }
    }

    fn rope_cfg(&self, l: u32, n: u32) -> (r: RopeCfg)
        ensures
            r == rope_cfg_of(self.spec@, self.weights.rope_freqs, l as nat, n),
    {
        let s = &self.spec;
        let swa = s.layer_uses_swa(l);
        RopeCfg {
            kind: s.rope.kind,
            n_heads: s.n_heads,
            n_kv_heads: s.n_kv_heads,
            head_dim: s.head_dim,
            n_rot: s.rope.n_rot,
            n_tokens: n,
            freq_base: match s.rope.local_base {
                Some(local) => if swa {
                    Scalar::Of(local)
                } else {
                    Scalar::Of(s.rope.freq_base)
                },
                None => Scalar::Of(s.rope.freq_base),
            },
            freq_scale: s.rope.freq_scale,
            ext_factor: s.rope.ext_factor,
            attn_factor: Scalar::Of(s.rope.attn_factor),
            beta_fast: Scalar::Of(s.rope.beta_fast),
            beta_slow: Scalar::Of(s.rope.beta_slow),
            orig_ctx: s.rope.orig_ctx,
            sections: s.rope.sections,
            freq_factors: self.weights.rope_freqs,
        }
    }

    /// The number of activations of `n` tokens.
    fn wide(&self, n: u32) -> (r: u32)
        ensures
            r == (self.spec@.n_embd * n) as u32,
    {
        assert(self.spec.n_embd * n <= 0xffff_ffff * 0xffff_ffff) by (nonlinear_arith)
            requires
                self.spec.n_embd <= 0xffff_ffff,
                n <= 0xffff_ffff,
        ;
        (self.spec.n_embd as u64 * n as u64) as u32
    }

    fn add_into(&self, ops: &mut Vec<Op>, dst: BufferId, b: BufferId, n: u32)
        ensures
            final(ops)@ == old(ops)@.push(add_op(self.spec@, dst, b, n)),
    {
        ops.push(Op::Binary { dst, a: dst, b, op: BinOp::Add, n: self.wide(n) });
    }

    fn post_norm(&self, ops: &mut Vec<Op>, buf: BufferId, weight: Option<BufferId>, n: u32)
        ensures
            final(ops)@ == old(ops)@ + post_norm_ops(self.spec@, buf, weight, n),
    {
        match weight {
            Some(_) => ops.push(Op::Norm { dst: buf, src: buf, weight, cfg: self.norm_cfg(n) }),
            None => {},
        }
        assert(ops@ =~= old(ops)@ + post_norm_ops(self.spec@, buf, weight, n));
    }

    fn scale_residual(&self, ops: &mut Vec<Op>, buf: BufferId, n: u32)
        ensures
            final(ops)@ == old(ops)@ + residual_scale_ops(self.spec@, buf, n),
    {
        if !self.spec.residual_scale.is_one() {
            ops.push(
                Op::Scale {
                    buf,
                    factor: Scalar::Of(self.spec.residual_scale),
                    n: self.wide(n),
                },
            );
        }
        assert(ops@ =~= old(ops)@ + residual_scale_ops(self.spec@, buf, n));
    }

    fn head_norm(
        &self,
        ops: &mut Vec<Op>,
        buf: BufferId,
        weight: Option<BufferId>,
        heads: u32,
        n: u32,
    )
        ensures
            final(ops)@ == old(ops)@ + head_norm_ops(self.spec@, buf, weight, heads, n),
    {
        match weight {
            Some(_) => {
                assert(n * heads <= 0xffff_ffff * 0xffff_ffff) by (nonlinear_arith)
                    requires
                        n <= 0xffff_ffff,
                        heads <= 0xffff_ffff,
                ;
                let base = self.norm_cfg(n);
                ops.push(
                    Op::Norm {
                        dst: buf,
                        src: buf,
                        weight,
                        cfg: NormCfg {
                            kind: base.kind,
                            dim: self.spec.head_dim,
                            n_tokens: (n as u64 * heads as u64) as u32,
                            eps: base.eps,
                            bias: base.bias,
                            scale: base.scale,
                        },
                    },
                );
            },
            None => {},
        }
        assert(ops@ =~= old(ops)@ + head_norm_ops(self.spec@, buf, weight, heads, n));
    }

    /// A norm from one buffer into another, with a bias.
    fn norm_into(
        &self,
        ops: &mut Vec<Op>,
        dst: BufferId,
        src: BufferId,
        weight: Option<BufferId>,
        bias: Option<BufferId>,
        n: u32,
    )
        ensures
            final(ops)@ == old(ops)@.push(
                Op::Norm { dst, src, weight, cfg: NormCfg { bias, ..norm_of(self.spec@, n) } },
            ),
    {
        let base = self.norm_cfg(n);
        ops.push(
            Op::Norm {
                dst,
                src,
                weight,
                cfg: NormCfg {
                    kind: base.kind,
                    dim: base.dim,
                    n_tokens: base.n_tokens,
                    eps: base.eps,
                    bias,
                    scale: base.scale,
                },
            },
        );
    }

    fn dense_ffn(
        &self,
        ops: &mut Vec<Op>,
        gate_w: Option<WeightId>,
        up_w: WeightId,
        down_w: WeightId,
        up_b: Option<BufferId>,
        down_b: Option<BufferId>,
        input: BufferId,
        n: u32,
        n_ff: u32,
        dst: BufferId,
    )
        ensures
            final(ops)@ == old(ops)@ + dense_ops(
                self.spec@,
                self.scratch,
                gate_w,
                up_w,
                down_w,
                up_b,
                down_b,
                input,
                n,
                n_ff,
                dst,
            ),
    {
        let s = &self.spec;
        let sc = &self.scratch;
        ops.push(
            Op::MatMul {
                dst: sc.up,
                weight: up_w,
                src: input,
                cfg: MatMulCfg::new(n_ff, s.n_embd, n).with_bias(up_b),
            },
        );
        let activated = match gate_w {
            Some(g) => {
                ops.push(
                    Op::MatMul {
                        dst: sc.gate,
                        weight: g,
                        src: input,
                        cfg: MatMulCfg::new(n_ff, s.n_embd, n),
                    },
                );
                ops.push(
                    Op::Glu {
                        dst: sc.gate,
                        gate: sc.gate,
                        up: sc.up,
                        cfg: GluCfg::new(s.act, n_ff, n),
                    },
                );
                sc.gate
            },
            None => {
                ops.push(Op::Activate { buf: sc.up, cfg: GluCfg::new(s.act, n_ff, n) });
                sc.up
            },
        };
        ops.push(
            Op::MatMul {
                dst,
                weight: down_w,
                src: activated,
                cfg: MatMulCfg::new(s.n_embd, n_ff, n).with_bias(down_b),
            },
        );
        assert(ops@ =~= old(ops)@ + dense_ops(
            self.spec@,
            self.scratch,
            gate_w,
            up_w,
            down_w,
            up_b,
            down_b,
            input,
            n,
            n_ff,
            dst,
        ));
    }

    fn ffn(&self, ops: &mut Vec<Op>, l: u32, input: BufferId, n: u32) -> (r: Result<(), Error>)
        requires
            l < self.weights.layers@.len(),
        ensures
            match ffn_ops(
                self.spec@,
                self.weights.layers@[l as int],
                self.scratch,
                l as nat,
                input,
                n,
            ) {
                Ok(x) => r is Ok && final(ops)@ == old(ops)@ + x,
                Err(e) => r is Err && r->Err_0@ == e && final(ops)@ == old(ops)@,
            },
    {
        let s = &self.spec;
        let w = &self.weights.layers[l as usize];
        let sc = &self.scratch;
        if let (Some(moe_w), Some(moe)) = (w.moe, s.moe) {
            ops.push(
                Op::Moe {
                    dst: sc.ff,
                    src: input,
                    w: moe_w,
                    cfg: MoeCfg {
                        n_expert: moe.n_expert,
                        n_expert_used: moe.n_expert_used,
                        n_embd: s.n_embd,
                        n_ff: moe.n_ff_exp,
                        n_tokens: n,
                        act: s.act,
                        gate_func: moe.gate_func,
                        norm_topk: moe.norm_topk,
                        scale: Scalar::Of(moe.scale),
                    },
                },
            );
            if let Some((gate, up, down)) = w.shexp {
                let n_ff: u32 = if moe.n_ff_shexp == 0 {
                    1
                } else {
                    moe.n_ff_shexp
                };
                self.dense_ffn(ops, gate, up, down, None, None, input, n, n_ff, sc.proj);
                self.add_into(ops, sc.ff, sc.proj, n);
            }
            assert(ops@ =~= old(ops)@ + ffn_ops(
                self.spec@,
                self.weights.layers@[l as int],
                self.scratch,
                l as nat,
                input,
                n,
            )->Ok_0);
            return Ok(());
        }
        let down = match w.ffn_down {
            Some(d) => d,
            None => {
                return Err(
                    Error::MissingTensor(crate::model::weights::blk(l, "ffn_down.weight")),
                );
            },
        };
        let up = match w.ffn_up {
            Some(u) => u,
            None => {
                return Err(Error::MissingTensor(crate::model::weights::blk(l, "ffn_up.weight")));
            },
        };
        self.dense_ffn(
            ops,
            w.ffn_gate,
            up,
            down,
            w.ffn_up_b,
            w.ffn_down_b,
            input,
            n,
            s.n_ff,
            sc.ff,
        );
        Ok(())
    }

    /// Rotation, the cache write and attention itself.
    fn attend(
        &self,
        ops: &mut Vec<Op>,
        l: u32,
        kv: &KvView,
        start_pos: u32,
        kv_len: u32,
        n: u32,
    )
        requires
            l < self.weights.layers@.len(),
        ensures
            final(ops)@ == old(ops)@ + attend_ops(
                self.spec@,
                self.weights.layers@[l as int],
                self.scratch,
                self.weights.rope_freqs,
                l as nat,
                *kv,
                start_pos,
                kv_len,
                n,
            ),
    {
        let s = &self.spec;
        let w = &self.weights.layers[l as usize];
        let sc = &self.scratch;
        ops.push(Op::Rope { q: sc.q, k: sc.k, cfg: self.rope_cfg(l, n) });
        ops.push(
            Op::KvWrite {
                kv: *kv,
                k: sc.k,
                v: sc.v,
                start_pos,
                n_tokens: n,
                dim: s.n_embd_k() as u32,
            },
        );
        let swa = s.layer_uses_swa(l);
        ops.push(
            Op::Attention {
                dst: sc.attn,
                q: sc.q,
                kv: *kv,
                cfg: AttnCfg {
                    n_heads: s.n_heads,
                    n_kv_heads: s.n_kv_heads,
                    head_dim: s.head_dim,
                    n_tokens: n,
                    kv_len,
                    start_pos,
                    scale: s.attn_scale,
                    softcap: Scalar::Of(s.attn_softcap),
                    window: if swa {
                        s.swa_window
                    } else {
                        0
                    },
                    sinks: w.sinks,
                },
            },
        );
        ops.push(
            Op::MatMul {
                dst: sc.proj,
                weight: w.attn_out,
                src: sc.attn,
                cfg: MatMulCfg::new(s.n_embd, s.n_embd_q() as u32, n).with_bias(w.out_bias),
            },
        );
        assert(ops@ =~= old(ops)@ + attend_ops(
            self.spec@,
            self.weights.layers@[l as int],
            self.scratch,
            self.weights.rope_freqs,
            l as nat,
            *kv,
            start_pos,
            kv_len,
            n,
        ));
    }

    /// One transformer block.
    fn layer(
        &self,
        ops: &mut Vec<Op>,
        l: u32,
        kv: &KvView,
        start_pos: u32,
        kv_len: u32,
        n: u32,
    ) -> (r: Result<(), Error>)
        requires
            l < self.weights.layers@.len(),
        ensures
            ({
                let x = layer_ops(
                    self.spec@,
                    self.weights.layers@[l as int],
                    self.scratch,
                    self.weights.rope_freqs,
                    l as nat,
                    *kv,
                    start_pos,
                    kv_len,
                    n,
                );
                &&& final(ops)@ == old(ops)@ + x.ops
                &&& match x.fault {
                    None => r is Ok,
                    Some(e) => r is Err && r->Err_0@ == e,
                }
            }),
    {
        let s = &self.spec;
        let w = &self.weights.layers[l as usize];
        let sc = &self.scratch;
        let ghost o0 = ops@;
        let attn_in = match s.style {
            BlockStyle::PostNorm => sc.x,
            _ => {
                self.norm_into(ops, sc.xn, sc.x, w.attn_norm, w.attn_norm_b, n);
                sc.xn
            },
        };
        let ghost a1 = attn_norm_ops(s@, *w, *sc, n);
        assert(ops@ =~= o0 + a1);
        let ghost p = qkv_ops(s@, *w, *sc, n);
        self.project_qkv(ops, l, attn_in, n);
        let ghost a2 = a1 + p;
        proof {
            concat_assoc(o0, a1, p);
        }
        self.head_norm(ops, sc.q, w.q_norm, s.n_heads, n);
        let ghost p = head_norm_ops(s@, sc.q, w.q_norm, s.n_heads, n);
        let ghost a3 = a2 + p;
        proof {
            concat_assoc(o0, a2, p);
        }
        self.head_norm(ops, sc.k, w.k_norm, s.n_kv_heads, n);
        let ghost p = head_norm_ops(s@, sc.k, w.k_norm, s.n_kv_heads, n);
        let ghost a4 = a3 + p;
        proof {
            concat_assoc(o0, a3, p);
        }
        self.attend(ops, l, kv, start_pos, kv_len, n);
        let ghost p = attend_ops(
            s@,
            *w,
            *sc,
            self.weights.rope_freqs,
            l as nat,
            *kv,
            start_pos,
            kv_len,
            n,
        );
        let ghost a5 = a4 + p;
        proof {
            concat_assoc(o0, a4, p);
        }
        self.post_norm(ops, sc.proj, w.post_attn_norm, n);
        let ghost p = post_norm_ops(s@, sc.proj, w.post_attn_norm, n);
        let ghost a6 = a5 + p;
        proof {
            concat_assoc(o0, a5, p);
        }
        self.scale_residual(ops, sc.proj, n);
        let ghost p = residual_scale_ops(s@, sc.proj, n);
        let ghost a7 = a6 + p;
        proof {
            concat_assoc(o0, a6, p);
        }
        let ffn_in = self.between(ops, l, n);
        let ghost p = between_ops(s@, *w, *sc, n);
        let ghost a8 = a7 + p;
        proof {
            concat_assoc(o0, a7, p);
        }
        assert(a8 == attention_ops(
            s@,
            *w,
            *sc,
            self.weights.rope_freqs,
            l as nat,
            *kv,
            start_pos,
            kv_len,
            n,
        ));
        self.ffn(ops, l, ffn_in, n)?;
        let ghost p = ffn_ops(s@, *w, *sc, l as nat, ffn_input(s@, *sc), n)->Ok_0;
        let ghost a9 = a8 + p;
        proof {
            concat_assoc(o0, a8, p);
        }
        self.after(ops, l, n);
        proof {
            concat_assoc(o0, a9, after_ops(s@, *w, *sc, n));
        }
        Ok(())
    }

    fn project_qkv(&self, ops: &mut Vec<Op>, l: u32, src: BufferId, n: u32)
        requires
            l < self.weights.layers@.len(),
            src == attn_input(self.spec@, self.scratch),
        ensures
            final(ops)@ == old(ops)@ + qkv_ops(
                self.spec@,
                self.weights.layers@[l as int],
                self.scratch,
                n,
            ),
    {
        let s = &self.spec;
        let w = &self.weights.layers[l as usize];
        let sc = &self.scratch;
        let nq = s.n_embd_q() as u32;
        let nk = s.n_embd_k() as u32;
        ops.push(
            Op::MatMul {
                dst: sc.q,
                weight: w.attn_q,
                src,
                cfg: MatMulCfg::new(nq, s.n_embd, n).with_bias(w.q_bias),
            },
        );
        ops.push(
            Op::MatMul {
                dst: sc.k,
                weight: w.attn_k,
                src,
                cfg: MatMulCfg::new(nk, s.n_embd, n).with_bias(w.k_bias),
            },
        );
        ops.push(
            Op::MatMul {
                dst: sc.v,
                weight: w.attn_v,
                src,
                cfg: MatMulCfg::new(nk, s.n_embd, n).with_bias(w.v_bias),
            },
        );
        assert(ops@ =~= old(ops)@ + qkv_ops(s@, *w, *sc, n));
    }

    /// What stands between attention and the feed-forward block, and what feeds the latter.
    fn between(&self, ops: &mut Vec<Op>, l: u32, n: u32) -> (r: BufferId)
        requires
            l < self.weights.layers@.len(),
        ensures
            r == ffn_input(self.spec@, self.scratch),
            final(ops)@ == old(ops)@ + between_ops(
                self.spec@,
                self.weights.layers@[l as int],
                self.scratch,
                n,
            ),
    {
        let w = &self.weights.layers[l as usize];
        let sc = &self.scratch;
        let r = match self.spec.style {
            BlockStyle::ParallelResidual => sc.xn,
            BlockStyle::PostNorm => {
                self.add_into(ops, sc.x, sc.proj, n);
                sc.x
            },
            BlockStyle::PreNorm => {
                self.add_into(ops, sc.x, sc.proj, n);
                self.norm_into(ops, sc.xn2, sc.x, w.ffn_norm, w.ffn_norm_b, n);
                sc.xn2
            },
        };
        assert(ops@ =~= old(ops)@ + between_ops(self.spec@, *w, *sc, n));
        r
    }

    /// What follows the feed-forward block.
    fn after(&self, ops: &mut Vec<Op>, l: u32, n: u32)
        requires
            l < self.weights.layers@.len(),
        ensures
            final(ops)@ == old(ops)@ + after_ops(
                self.spec@,
                self.weights.layers@[l as int],
                self.scratch,
                n,
            ),
    {
        let w = &self.weights.layers[l as usize];
        let sc = &self.scratch;
        match self.spec.style {
            BlockStyle::ParallelResidual => {
                self.add_into(ops, sc.x, sc.proj, n);
                self.add_into(ops, sc.x, sc.ff, n);
            },
            _ => {
                self.post_norm(ops, sc.ff, w.ffn_post_norm, n);
                self.scale_residual(ops, sc.ff, n);
                self.add_into(ops, sc.x, sc.ff, n);
            },
        }
        assert(ops@ =~= old(ops)@ + after_ops(self.spec@, *w, *sc, n));
    }

    /// What to run to push `n` tokens through the model and have the logits for the final
    /// one in `scratch.logits`.
    ///
    /// Only the last position's logits are computed: the output projection is the widest
    /// matmul in the model, and prefill never needs the intermediate rows.
    pub fn forward(&self, n: usize, kv: &[KvView], start_pos: u32, kv_len: u32) -> (r: Result<
        Forward,
        Error,
    >)
        requires
            self.wf(),
        ensures
            match pass_fault(self.spec@, self.scratch, n as nat, kv@.len()) {
                Some(e) => r is Err && r->Err_0@ == e,
                None => r is Ok && r->Ok_0@ == pass_ops(*self, kv@, start_pos, kv_len, n as u32),
            },
    {
        let s = &self.spec;
        let sc = &self.scratch;
        if n == 0 {
            return Err(Error::Shape(crate::text::own("forward called with no tokens")));
        }
        if n > sc.max_tokens as usize {
            return Err(
                Error::Shape(
                    cat5(
                        "batch of ",
                        decimal(n as u64).as_str(),
                        " exceeds the ",
                        decimal(sc.max_tokens as u64).as_str(),
                        " this model was loaded for",
                    ),
                ),
            );
        }
        if kv.len() < s.n_layers as usize {
            return Err(
                Error::Shape(
                    crate::text::cat4(
                        "need ",
                        decimal(s.n_layers as u64).as_str(),
                        " kv views, got ",
                        decimal(kv.len() as u64).as_str(),
                    ),
                ),
            );
        }
        let nt = n as u32;
        let mut ops: Vec<Op> = Vec::new();
        ops.push(
            Op::GetRows {
                dst: sc.x,
                weight: self.weights.token_embd,
                scale: s.embd_scale,
            },
        );
        let ghost first = ops@;
        match self.blocks(&mut ops, kv, start_pos, kv_len, nt) {
            Ok(_) => {},
            Err(e) => {
                return Ok(Forward { ops, fault: Some(e) });
            },
        }
        self.project_output(&mut ops, nt);
        Ok(Forward { ops, fault: None })
    }

    /// The transformer blocks, up to the first one that lacks something.
    fn blocks(&self, ops: &mut Vec<Op>, kv: &[KvView], start_pos: u32, kv_len: u32, n: u32) -> (r:
        Result<(), Error>)
        requires
            self.wf(),
            self.spec.n_layers <= kv@.len(),
        ensures
            ({
                let x = layers_ops(
                    self.spec@,
                    self.weights.layers@,
                    self.scratch,
                    self.weights.rope_freqs,
                    kv@,
                    start_pos,
                    kv_len,
                    n,
                    self.spec.n_layers as nat,
                );
                &&& final(ops)@ == old(ops)@ + x.ops
                &&& match x.fault {
                    None => r is Ok,
                    Some(e) => r is Err && r->Err_0@ == e,
                }
            }),
    {
        let s = &self.spec;
        let ghost first = ops@;
        let ghost ws = self.weights.layers@;
        let ghost sc = self.scratch;
        let ghost freqs = self.weights.rope_freqs;
        let mut l: u32 = 0;
        assert(ops@ =~= first + Seq::<Op>::empty());
        while l < s.n_layers
            invariant
                self.wf(),
                s == &self.spec,
                ws == self.weights.layers@,
                sc == self.scratch,
                freqs == self.weights.rope_freqs,
                first == old(ops)@,
                l <= s.n_layers <= kv@.len(),
                layers_ops(s@, ws, sc, freqs, kv@, start_pos, kv_len, n, l as nat).fault is None,
                ops@ == first + layers_ops(
                    s@,
                    ws,
                    sc,
                    freqs,
                    kv@,
                    start_pos,
                    kv_len,
                    n,
                    l as nat,
                ).ops,
            decreases s.n_layers - l,
        {
            let ghost before = layers_ops(
                s@,
                ws,
                sc,
                freqs,
                kv@,
                start_pos,
                kv_len,
                n,
                l as nat,
            ).ops;
            let r = self.layer(ops, l, &kv[l as usize], start_pos, kv_len, n);
            proof {
                let now = layer_ops(
                    s@,
                    ws[l as int],
                    sc,
                    freqs,
                    l as nat,
                    kv@[l as int],
                    start_pos,
                    kv_len,
                    n,
                ).ops;
                concat_assoc(first, before, now);
            }
            match r {
                Ok(_) => {},
                Err(e) => {
                    proof {
                        layers_fault_stays(
                            s@,
                            ws,
                            sc,
                            freqs,
                            kv@,
                            start_pos,
                            kv_len,
                            n,
                            (l + 1) as nat,
                            s.n_layers as nat,
                        );
                    }
                    return Err(e);
                },
            }
            l = l + 1;
        }
        Ok(())
    }

    /// From the last token's activations to its logits.
    fn project_output(&self, ops: &mut Vec<Op>, n: u32)
        requires
            self.wf(),
            1 <= n <= self.scratch.max_tokens,
        ensures
            final(ops)@ == old(ops)@ + output_ops(
                self.spec@,
                self.weights.output,
                self.weights.output_norm,
                self.weights.output_norm_b,
                self.scratch,
                n,
            ),
    {
        let s = &self.spec;
        let sc = &self.scratch;
        assert((n - 1) * s.n_embd * 4 <= sc.max_tokens * s.n_embd * 4) by (nonlinear_arith)
            requires
                n - 1 <= sc.max_tokens,
                0 <= s.n_embd,
        ;
        assert(0 <= (n - 1) * s.n_embd <= (n - 1) * s.n_embd * 4) by (nonlinear_arith)
            requires
                n >= 1,
                0 <= s.n_embd,
        ;
        let off: u64 = (n as u64 - 1) * s.n_embd as u64 * 4;
        ops.push(
            Op::Copy {
                dst: sc.last,
                dst_off: 0,
                src: sc.x,
                src_off: off,
                bytes: s.n_embd as u64 * 4,
            },
        );
        self.norm_into(
            ops,
            sc.last,
            sc.last,
            self.weights.output_norm,
            self.weights.output_norm_b,
            1,
        );
        ops.push(
            Op::MatMul {
                dst: sc.logits,
                weight: self.weights.output,
                src: sc.last,
                cfg: MatMulCfg::new(s.n_vocab, s.n_embd, 1),
            },
        );
        if !s.logit_scale.is_one() {
            ops.push(
                Op::Scale { buf: sc.logits, factor: Scalar::Of(s.logit_scale), n: s.n_vocab },
            );
        }
        if s.final_softcap.is_positive() {
            ops.push(
                Op::Softcap { buf: sc.logits, cap: Scalar::Of(s.final_softcap), n: s.n_vocab },
            );
        }
        ops.push(Op::Submit);
        assert(ops@ =~= old(ops)@ + output_ops(
            s@,
            self.weights.output,
            self.weights.output_norm,
            self.weights.output_norm_b,
            *sc,
            n,
        ));
    }
}

proof fn concat_assoc(a: Seq<Op>, b: Seq<Op>, c: Seq<Op>)
    ensures
        (a + b) + c == a + (b + c),
{
    assert((a + b) + c =~= a + (b + c));
}

proof fn layers_fault_stays(
    s: SpecView,
    ws: Seq<LayerWeights>,
    sc: Scratch,
    freqs: Option<BufferId>,
    kv: Seq<KvView>,
    start_pos: u32,
    kv_len: u32,
    n: u32,
    k: nat,
    m: nat,
)
    requires
        k <= m,
        layers_ops(s, ws, sc, freqs, kv, start_pos, kv_len, n, k).fault is Some,
    ensures
        layers_ops(s, ws, sc, freqs, kv, start_pos, kv_len, n, m) == layers_ops(
            s,
            ws,
            sc,
            freqs,
            kv,
            start_pos,
            kv_len,
            n,
            k,
        ),
    decreases m,
{
    if k < m {
        layers_fault_stays(
            s,
            ws,
            sc,
            freqs,
            kv,
            start_pos,
            kv_len,
            n,
            k,
            (m - 1) as nat,
        );
    }
}

} // verus!
