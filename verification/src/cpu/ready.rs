//! A pass through a model finds everything it needs, and gives logits.
//!
//! What an operation needs is told by its own sizes and by those of the buffers. Here the two are
//! brought together: where the buffers are as large as the model asks for, every operation of a
//! pass can be carried out.

use vstd::prelude::*;

use super::attention::{capacity, reach, sharing, AttnBits};
use super::cache::{addressable, cache_of};
use super::machine::{keeps_shape, CpuBackend};
use super::moe::{columns_match, sizes_fit};
use super::pass::op_ready;
use super::processor::{all_fit, carried, first_words, ready_until};
use super::run::{attn_bits, experts_of, moe_bits, takes};
use crate::backend::{KvView, MoeCfg, RopeKind};
use crate::device::{BufferId, WeightId};
use crate::error::{Error, ErrorView};
use crate::model::graph::{
    add_op, after_ops, attend_ops, attn_norm_ops, between_ops, dense_ops, fault_of, ffn_input,
    ffn_ops, head_norm_ops, layer_ops, layers_ops, output_ops, pass_fault, pass_ops,
    post_norm_ops, qkv_ops, residual_scale_ops, widest_ff, Forward, Model, Op, Scratch,
};
use crate::model::spec::SpecView;
use crate::model::weights::LayerWeights;
use crate::runtime::calls::{carried_out, numbers};
use crate::scalar::Scalar;
use crate::single::{Arith, FloatOp, Ops};

verus! {

// --------------------------------------------------------------------- what a model asks for

/// The largest width of an activation that is counted on.
pub const WIDEST: u32 = 0x4000_0000;

/// Whether the activations of a batch of `t` tokens can be counted, and the heads share keys
/// evenly. A shared expert is no wider than the feed-forward block that the buffers are made
/// for.
pub open spec fn countable(s: SpecView, t: nat) -> bool {
    &&& t * s.n_embd <= WIDEST
    &&& t * s.embd_q() <= WIDEST
    &&& t * s.embd_k() <= WIDEST
    &&& t * widest_ff(s) <= WIDEST
    &&& s.moe matches Some(e) ==> e.n_ff_shexp <= widest_ff(s)
    &&& s.n_kv_heads > 0
    &&& s.head_dim > 0
    &&& s.n_heads % s.n_kv_heads == 0 || s.n_heads < s.n_kv_heads
    &&& s.rope.kind == RopeKind::Norm ==> s.rope.n_rot % 2 == 0 || s.rope.n_rot != s.head_dim
    &&& s.rope.kind == RopeKind::Norm && s.rope.n_rot > s.head_dim ==> s.head_dim % 2 == 0
}

/// Whether the activation buffers, where they are there, are as large as those of a loaded
/// model.
pub open spec fn roomy(b: CpuBackend<'_>, s: SpecView, sc: Scratch) -> bool {
    let t = sc.max_tokens;
    &&& takes(b.buffers@, sc.x.0, t * s.n_embd)
    &&& takes(b.buffers@, sc.xn.0, t * s.n_embd)
    &&& takes(b.buffers@, sc.xn2.0, t * s.n_embd)
    &&& takes(b.buffers@, sc.q.0, t * s.embd_q())
    &&& takes(b.buffers@, sc.k.0, t * s.embd_k())
    &&& takes(b.buffers@, sc.v.0, t * s.embd_k())
    &&& takes(b.buffers@, sc.attn.0, t * s.embd_q())
    &&& takes(b.buffers@, sc.proj.0, t * s.n_embd)
    &&& takes(b.buffers@, sc.gate.0, t * widest_ff(s))
    &&& takes(b.buffers@, sc.up.0, t * widest_ff(s))
    &&& takes(b.buffers@, sc.ff.0, t * s.n_embd)
    &&& takes(b.buffers@, sc.last.0, s.n_embd as int)
    &&& takes(b.buffers@, sc.logits.0, s.n_vocab as int)
}

/// Whether a bias is as long as the rows it is added to.
pub open spec fn long_enough(b: CpuBackend<'_>, bias: Option<BufferId>, n: int) -> bool {
    bias matches Some(x) ==> takes(b.buffers@, x.0, n)
}

/// What is handed to the experts of a block.
pub open spec fn expert_cfg(s: SpecView, n: u32) -> MoeCfg {
    let moe = s.moe->0;
    MoeCfg {
        n_expert: moe.n_expert,
        n_expert_used: moe.n_expert_used,
        n_embd: s.n_embd,
        n_ff: moe.n_ff_exp,
        n_tokens: n,
        act: s.act,
        gate_func: moe.gate_func,
        norm_topk: moe.norm_topk,
        scale: Scalar::Of(moe.scale),
    }
}

/// Whether the weights of a block have the sizes that the architecture says.
pub open spec fn layer_suits(b: CpuBackend<'_>, f: Ops, s: SpecView, w: LayerWeights) -> bool {
    &&& long_enough(b, w.q_bias, s.embd_q() as int)
    &&& long_enough(b, w.k_bias, s.embd_k() as int)
    &&& long_enough(b, w.v_bias, s.embd_k() as int)
    &&& long_enough(b, w.out_bias, s.n_embd as int)
    &&& long_enough(b, w.ffn_up_b, s.n_ff as int)
    &&& long_enough(b, w.ffn_down_b, s.n_embd as int)
    &&& w.moe is Some && s.moe is Some ==> {
        let m = w.moe->0;
        let c = moe_bits(f, expert_cfg(s, 1));
        &&& long_enough(b, m.exp_probs_b, s.moe->0.n_expert as int)
        &&& b.weights@.dom().contains(m.gate_inp.0) ==> columns_match(c, experts_of(b.weights@, m))
            && sizes_fit(c, experts_of(b.weights@, m))
    }
}

/// How many numbers a cache buffer holds, where it is there.
pub open spec fn cached(b: CpuBackend<'_>, kv: KvView, id: BufferId) -> nat {
    capacity(cache_of(b.buffers@, kv.dtype, id))
}

/// Whether a cache region has a slot for each position of the pass.
pub open spec fn cache_suits(
    b: CpuBackend<'_>,
    s: SpecView,
    sc: Scratch,
    kv: KvView,
    start_pos: u32,
    kv_len: u32,
    n: u32,
) -> bool {
    &&& kv.k != sc.k
    &&& kv.v != sc.v
    &&& s.embd_k() <= kv.stride
    &&& kv.base + start_pos + n <= u32::MAX
    &&& (kv.base + start_pos + n) * kv.stride + s.embd_k() <= usize::MAX
    &&& addressable(b.buffers@, kv.k)
    &&& addressable(b.buffers@, kv.v)
    &&& b.buffers@.dom().contains(kv.k.0) ==> (kv.base + kv_len) * kv.stride <= cached(b, kv, kv.k)
    &&& b.buffers@.dom().contains(kv.v.0) ==> (kv.base + kv_len) * kv.stride <= cached(b, kv, kv.v)
}

/// Whether every operation can be carried out.
pub open spec fn all_ready(b: CpuBackend<'_>, f: Ops, ops: Seq<Op>, tokens: Seq<u32>) -> bool {
    forall|i: int| 0 <= i < ops.len() ==> op_ready(b, f, #[trigger] ops[i], tokens)
}

proof fn both_ready(b: CpuBackend<'_>, f: Ops, p: Seq<Op>, q: Seq<Op>, tokens: Seq<u32>)
    requires
        all_ready(b, f, p, tokens),
        all_ready(b, f, q, tokens),
    ensures
        all_ready(b, f, p + q, tokens),
{
    assert forall|i: int| 0 <= i < (p + q).len() implies op_ready(
        b,
        f,
        #[trigger] (p + q)[i],
        tokens,
    ) by {
        if i < p.len() {
            assert((p + q)[i] == p[i]);
        } else {
            assert((p + q)[i] == q[i - p.len()]);
        }
    }
}

/// What holds of every block of a pass.
pub open spec fn pass_suits(b: CpuBackend<'_>, s: SpecView, sc: Scratch, n: u32) -> bool {
    &&& 0 < n <= sc.max_tokens
    &&& countable(s, sc.max_tokens as nat)
    &&& roomy(b, s, sc)
}

proof fn no_more(n: int, t: int, d: int)
    requires
        0 < n <= t,
        0 <= d,
    ensures
        n * d <= t * d,
        d * n == n * d,
        d <= t * d,
{
    assert(n * d <= t * d && d * n == n * d && d <= t * d) by (nonlinear_arith)
        requires
            0 < n <= t,
            0 <= d,
    ;
}

/// The widths of a batch, told in the ways that operations tell them.
proof fn widths(b: CpuBackend<'_>, s: SpecView, sc: Scratch, n: u32)
    requires
        pass_suits(b, s, sc, n),
    ensures
        n * s.n_embd <= sc.max_tokens * s.n_embd <= WIDEST,
        s.n_embd * n == n * s.n_embd,
        s.n_embd <= WIDEST,
        n * s.embd_q() <= sc.max_tokens * s.embd_q() <= WIDEST,
        s.embd_q() * n == n * s.embd_q(),
        s.embd_q() <= WIDEST,
        n * s.embd_k() <= sc.max_tokens * s.embd_k() <= WIDEST,
        s.embd_k() * n == n * s.embd_k(),
        s.embd_k() <= WIDEST,
        n * s.n_heads * s.head_dim == n * s.embd_q(),
        n * s.n_kv_heads * s.head_dim == n * s.embd_k(),
        n * s.n_heads <= WIDEST,
        n * s.n_kv_heads <= WIDEST,
{
    let t = sc.max_tokens as int;
    no_more(n as int, t, s.n_embd as int);
    no_more(n as int, t, s.embd_q() as int);
    no_more(n as int, t, s.embd_k() as int);
    assert(n * s.n_heads * s.head_dim == n * (s.n_heads * s.head_dim)) by (nonlinear_arith);
    assert(n * s.n_kv_heads * s.head_dim == n * (s.n_kv_heads * s.head_dim)) by (nonlinear_arith);
    fewer(n * s.n_heads, s.head_dim as int);
    fewer(n * s.n_kv_heads, s.head_dim as int);
}

proof fn one_of(n: int, d: int)
    requires
        n == 1,
    ensures
        n * d == d,
        d * n == d,
{
    assert(n * d == d && d * n == d) by (nonlinear_arith)
        requires
            n == 1,
    ;
}

proof fn fewer(x: int, d: int)
    requires
        0 <= x,
        0 < d,
    ensures
        x <= x * d,
{
    assert(x <= x * d) by (nonlinear_arith)
        requires
            0 <= x,
            0 < d,
    ;
}

// ------------------------------------------------------------------------ block by block

proof fn norms_ready(
    b: CpuBackend<'_>,
    f: Ops,
    s: SpecView,
    w: LayerWeights,
    sc: Scratch,
    n: u32,
    tokens: Seq<u32>,
)
    requires
        pass_suits(b, s, sc, n),
    ensures
        all_ready(b, f, attn_norm_ops(s, w, sc, n), tokens),
        all_ready(b, f, between_ops(s, w, sc, n), tokens),
        all_ready(b, f, post_norm_ops(s, sc.proj, w.post_attn_norm, n), tokens),
        all_ready(b, f, post_norm_ops(s, sc.ff, w.ffn_post_norm, n), tokens),
        all_ready(b, f, residual_scale_ops(s, sc.proj, n), tokens),
        all_ready(b, f, residual_scale_ops(s, sc.ff, n), tokens),
        all_ready(b, f, seq![add_op(s, sc.x, sc.ff, n)], tokens),
        all_ready(b, f, seq![add_op(s, sc.ff, sc.proj, n)], tokens),
{
    widths(b, s, sc, n);
}

proof fn head_norms_ready(
    b: CpuBackend<'_>,
    f: Ops,
    s: SpecView,
    w: LayerWeights,
    sc: Scratch,
    n: u32,
    tokens: Seq<u32>,
)
    requires
        pass_suits(b, s, sc, n),
    ensures
        all_ready(b, f, head_norm_ops(s, sc.q, w.q_norm, s.n_heads, n), tokens),
        all_ready(b, f, head_norm_ops(s, sc.k, w.k_norm, s.n_kv_heads, n), tokens),
{
    widths(b, s, sc, n);
}

proof fn projections_ready(
    b: CpuBackend<'_>,
    f: Ops,
    s: SpecView,
    w: LayerWeights,
    sc: Scratch,
    n: u32,
    tokens: Seq<u32>,
)
    requires
        pass_suits(b, s, sc, n),
        layer_suits(b, f, s, w),
    ensures
        all_ready(b, f, qkv_ops(s, w, sc, n), tokens),
{
    widths(b, s, sc, n);
}

proof fn attend_ready(
    b: CpuBackend<'_>,
    f: Ops,
    s: SpecView,
    w: LayerWeights,
    sc: Scratch,
    freqs: Option<BufferId>,
    l: nat,
    kv: KvView,
    start_pos: u32,
    kv_len: u32,
    n: u32,
    tokens: Seq<u32>,
)
    requires
        pass_suits(b, s, sc, n),
        layer_suits(b, f, s, w),
        cache_suits(b, s, sc, kv, start_pos, kv_len, n),
    ensures
        all_ready(b, f, attend_ops(s, w, sc, freqs, l, kv, start_pos, kv_len, n), tokens),
{
    widths(b, s, sc, n);
    let ops = attend_ops(s, w, sc, freqs, l, kv, start_pos, kv_len, n);
    assert(op_ready(b, f, ops[0], tokens));
    assert(op_ready(b, f, ops[1], tokens));
    match ops[2] {
        Op::Attention { cfg, .. } => {
            let c = attn_bits(f, cfg, kv);
            if c.n_heads > 0 && c.kv_len > 0 {
                heads_reach(s, kv, kv_len, c);
            }
        },
        _ => {},
    }
    assert(op_ready(b, f, ops[2], tokens));
    assert(op_ready(b, f, ops[3], tokens));
}

proof fn heads_reach(s: SpecView, kv: KvView, kv_len: u32, c: AttnBits)
    requires
        s.n_kv_heads > 0,
        s.n_heads % s.n_kv_heads == 0 || s.n_heads < s.n_kv_heads,
        s.embd_k() <= kv.stride,
        c.n_heads == s.n_heads,
        c.n_kv_heads == s.n_kv_heads,
        c.head_dim == s.head_dim,
        c.kv_len == kv_len,
        c.stride == kv.stride,
        c.base == kv.base,
        c.n_heads > 0,
        c.kv_len > 0,
    ensures
        reach(c) <= (kv.base + kv_len) * kv.stride,
{
    let g = sharing(c);
    let h = (c.n_heads - 1) / g;
    let heads = c.n_heads as int;
    let keys = c.n_kv_heads as int;
    assert(h + 1 <= keys) by {
        if heads / keys > 1 {
            if heads < keys {
                vstd::arithmetic::div_mod::lemma_basic_div(heads, keys);
            }
            vstd::arithmetic::div_mod::lemma_fundamental_div_mod(heads, keys);
            assert(heads == keys * g);
            vstd::arithmetic::div_mod::lemma_fundamental_div_mod(heads - 1, g);
            assert(h < keys) by (nonlinear_arith)
                requires
                    heads == keys * g,
                    heads - 1 == g * h + (heads - 1) % g,
                    0 <= (heads - 1) % g,
                    g > 1,
            ;
        } else {
            vstd::arithmetic::div_mod::lemma_fundamental_div_mod(heads, keys);
            assert(heads <= keys) by (nonlinear_arith)
                requires
                    heads == keys * (heads / keys) + heads % keys,
                    heads / keys <= 1,
                    heads / keys >= 0,
                    heads % keys == 0 || heads < keys,
                    keys > 0,
            ;
        }
    }
    let d = c.head_dim as int;
    let row = kv.base + kv_len - 1;
    assert(h * d + d <= keys * d) by (nonlinear_arith)
        requires
            h + 1 <= keys,
            0 <= d,
    ;
    assert(row * kv.stride + kv.stride == (row + 1) * kv.stride) by (nonlinear_arith);
}

proof fn dense_ready(
    b: CpuBackend<'_>,
    f: Ops,
    s: SpecView,
    sc: Scratch,
    gate_w: Option<WeightId>,
    up_w: WeightId,
    down_w: WeightId,
    up_b: Option<BufferId>,
    down_b: Option<BufferId>,
    input: BufferId,
    n: u32,
    n_ff: u32,
    dst: BufferId,
    tokens: Seq<u32>,
)
    requires
        pass_suits(b, s, sc, n),
        n_ff <= widest_ff(s),
        takes(b.buffers@, input.0, sc.max_tokens * s.n_embd),
        takes(b.buffers@, dst.0, sc.max_tokens * s.n_embd),
        long_enough(b, up_b, n_ff as int),
        long_enough(b, down_b, s.n_embd as int),
    ensures
        all_ready(
            b,
            f,
            dense_ops(s, sc, gate_w, up_w, down_w, up_b, down_b, input, n, n_ff, dst),
            tokens,
        ),
{
    widths(b, s, sc, n);
    let t = sc.max_tokens as int;
    no_more(n as int, t, n_ff as int);
    no_more(n as int, t, widest_ff(s) as int);
    assert(t * n_ff <= t * widest_ff(s)) by (nonlinear_arith)
        requires
            0 <= t,
            n_ff <= widest_ff(s),
    ;
}

proof fn ffn_ready(
    b: CpuBackend<'_>,
    f: Ops,
    s: SpecView,
    w: LayerWeights,
    sc: Scratch,
    l: nat,
    input: BufferId,
    n: u32,
    tokens: Seq<u32>,
)
    requires
        pass_suits(b, s, sc, n),
        layer_suits(b, f, s, w),
        takes(b.buffers@, input.0, sc.max_tokens * s.n_embd),
        ffn_ops(s, w, sc, l, input, n) is Ok,
    ensures
        all_ready(b, f, ffn_ops(s, w, sc, l, input, n)->Ok_0, tokens),
{
    widths(b, s, sc, n);
    if w.moe is Some && s.moe is Some {
        let moe = s.moe->0;
        let routed = seq![
            Op::Moe { dst: sc.ff, src: input, w: w.moe->0, cfg: expert_cfg(s, n) },
        ];
        assert(moe_bits(f, expert_cfg(s, n)) == moe_bits(f, expert_cfg(s, 1)));
        assert(all_ready(b, f, routed, tokens));
        match w.shexp {
            Some((gate, up, down)) => {
                let n_ff = if moe.n_ff_shexp == 0 {
                    1
                } else {
                    moe.n_ff_shexp
                };
                dense_ready(
                    b, f, s, sc, gate, up, down, None, None, input, n, n_ff, sc.proj, tokens,
                );
                let dense = dense_ops(
                    s, sc, gate, up, down, None, None, input, n, n_ff, sc.proj,
                );
                norms_ready(b, f, s, w, sc, n, tokens);
                both_ready(b, f, routed, dense, tokens);
                both_ready(b, f, routed + dense, seq![add_op(s, sc.ff, sc.proj, n)], tokens);
            },
            None => {},
        }
    } else {
        dense_ready(
            b,
            f,
            s,
            sc,
            w.ffn_gate,
            w.ffn_up->0,
            w.ffn_down->0,
            w.ffn_up_b,
            w.ffn_down_b,
            input,
            n,
            s.n_ff,
            sc.ff,
            tokens,
        );
    }
}

proof fn layer_ready(
    b: CpuBackend<'_>,
    f: Ops,
    s: SpecView,
    w: LayerWeights,
    sc: Scratch,
    freqs: Option<BufferId>,
    l: nat,
    kv: KvView,
    start_pos: u32,
    kv_len: u32,
    n: u32,
    tokens: Seq<u32>,
)
    requires
        pass_suits(b, s, sc, n),
        layer_suits(b, f, s, w),
        cache_suits(b, s, sc, kv, start_pos, kv_len, n),
    ensures
        all_ready(
            b,
            f,
            layer_ops(s, w, sc, freqs, l, kv, start_pos, kv_len, n).ops,
            tokens,
        ),
{
    norms_ready(b, f, s, w, sc, n, tokens);
    head_norms_ready(b, f, s, w, sc, n, tokens);
    projections_ready(b, f, s, w, sc, n, tokens);
    attend_ready(b, f, s, w, sc, freqs, l, kv, start_pos, kv_len, n, tokens);
    let o1 = attn_norm_ops(s, w, sc, n);
    let o2 = o1 + qkv_ops(s, w, sc, n);
    let o3 = o2 + head_norm_ops(s, sc.q, w.q_norm, s.n_heads, n);
    let o4 = o3 + head_norm_ops(s, sc.k, w.k_norm, s.n_kv_heads, n);
    let o5 = o4 + attend_ops(s, w, sc, freqs, l, kv, start_pos, kv_len, n);
    let o6 = o5 + post_norm_ops(s, sc.proj, w.post_attn_norm, n);
    let o7 = o6 + residual_scale_ops(s, sc.proj, n);
    let o8 = o7 + between_ops(s, w, sc, n);
    both_ready(b, f, o1, qkv_ops(s, w, sc, n), tokens);
    both_ready(b, f, o2, head_norm_ops(s, sc.q, w.q_norm, s.n_heads, n), tokens);
    both_ready(b, f, o3, head_norm_ops(s, sc.k, w.k_norm, s.n_kv_heads, n), tokens);
    both_ready(
        b,
        f,
        o4,
        attend_ops(s, w, sc, freqs, l, kv, start_pos, kv_len, n),
        tokens,
    );
    both_ready(b, f, o5, post_norm_ops(s, sc.proj, w.post_attn_norm, n), tokens);
    both_ready(b, f, o6, residual_scale_ops(s, sc.proj, n), tokens);
    both_ready(b, f, o7, between_ops(s, w, sc, n), tokens);
    match ffn_ops(s, w, sc, l, ffn_input(s, sc), n) {
        Ok(ffn) => {
            ffn_ready(b, f, s, w, sc, l, ffn_input(s, sc), n, tokens);
            both_ready(b, f, o8, ffn, tokens);
            after_ready(b, f, s, w, sc, n, tokens);
            both_ready(b, f, o8 + ffn, after_ops(s, w, sc, n), tokens);
        },
        Err(_) => {},
    }
}

proof fn after_ready(
    b: CpuBackend<'_>,
    f: Ops,
    s: SpecView,
    w: LayerWeights,
    sc: Scratch,
    n: u32,
    tokens: Seq<u32>,
)
    requires
        pass_suits(b, s, sc, n),
    ensures
        all_ready(b, f, after_ops(s, w, sc, n), tokens),
{
    widths(b, s, sc, n);
    norms_ready(b, f, s, w, sc, n, tokens);
    let p = post_norm_ops(s, sc.ff, w.ffn_post_norm, n);
    let q = residual_scale_ops(s, sc.ff, n);
    both_ready(b, f, p, q, tokens);
    both_ready(b, f, p + q, seq![add_op(s, sc.x, sc.ff, n)], tokens);
}

proof fn layers_ready(
    b: CpuBackend<'_>,
    f: Ops,
    s: SpecView,
    ws: Seq<LayerWeights>,
    sc: Scratch,
    freqs: Option<BufferId>,
    kv: Seq<KvView>,
    start_pos: u32,
    kv_len: u32,
    n: u32,
    k: nat,
    tokens: Seq<u32>,
)
    requires
        pass_suits(b, s, sc, n),
        k <= ws.len(),
        k <= kv.len(),
        forall|i: int| 0 <= i < k ==> layer_suits(b, f, s, #[trigger] ws[i]),
        forall|i: int|
            0 <= i < k ==> cache_suits(b, s, sc, #[trigger] kv[i], start_pos, kv_len, n),
    ensures
        all_ready(
            b,
            f,
            layers_ops(s, ws, sc, freqs, kv, start_pos, kv_len, n, k).ops,
            tokens,
        ),
    decreases k,
{
    if k > 0 {
        let p = (k - 1) as nat;
        layers_ready(b, f, s, ws, sc, freqs, kv, start_pos, kv_len, n, p, tokens);
        layer_ready(
            b, f, s, ws[k - 1], sc, freqs, p, kv[k - 1], start_pos, kv_len, n, tokens,
        );
        both_ready(
            b,
            f,
            layers_ops(s, ws, sc, freqs, kv, start_pos, kv_len, n, p).ops,
            layer_ops(s, ws[k - 1], sc, freqs, p, kv[k - 1], start_pos, kv_len, n).ops,
            tokens,
        );
    }
}

proof fn output_ready(
    b: CpuBackend<'_>,
    f: Ops,
    s: SpecView,
    output: WeightId,
    norm: Option<BufferId>,
    norm_b: Option<BufferId>,
    sc: Scratch,
    n: u32,
    tokens: Seq<u32>,
)
    requires
        pass_suits(b, s, sc, n),
    ensures
        all_ready(b, f, output_ops(s, output, norm, norm_b, sc, n), tokens),
{
    widths(b, s, sc, n);
    let all = output_ops(s, output, norm, norm_b, sc, n);
    assert((n - 1) * s.n_embd == n * s.n_embd - s.n_embd) by (nonlinear_arith);
    assert((n - 1) * s.n_embd * 4 == 4 * ((n - 1) * s.n_embd));
    assert(op_ready(b, f, all[0], tokens));
    one_of(1, s.n_embd as int);
    one_of(1, s.n_vocab as int);
    assert(op_ready(b, f, all[1], tokens));
    assert(op_ready(b, f, all[2], tokens));
    assert forall|i: int| 3 <= i < all.len() implies op_ready(b, f, #[trigger] all[i], tokens) by {
        assert(all[i] is Scale || all[i] is Softcap || all[i] is Submit);
    }
}

// ------------------------------------------------------------------------------ the whole pass

/// Whether a model that is loaded, and the caches it is given, suit a pass over tokens.
pub open spec fn model_suits(
    b: CpuBackend<'_>,
    f: Ops,
    m: Model,
    kv: Seq<KvView>,
    start_pos: u32,
    kv_len: u32,
    tokens: Seq<u32>,
) -> bool {
    let s = m.spec@;
    let n = tokens.len() as u32;
    &&& tokens.len() <= u32::MAX
    &&& pass_suits(b, s, m.scratch, n)
    &&& s.n_layers <= kv.len()
    &&& s.n_layers <= m.weights.layers@.len()
    &&& forall|i: int|
        0 <= i < s.n_layers ==> layer_suits(b, f, s, #[trigger] m.weights.layers@[i])
    &&& forall|i: int|
        0 <= i < s.n_layers ==> cache_suits(
            b,
            s,
            m.scratch,
            #[trigger] kv[i],
            start_pos,
            kv_len,
            n,
        )
    &&& b.weights@.dom().contains(m.weights.token_embd.0) ==> {
        let w = b.weights@[m.weights.token_embd.0];
        w.rows > 0 && w.cols == s.n_embd
    }
}

/// Where the buffers are as large as those of a loaded model, the weights have the sizes that
/// the architecture says, and the caches have a slot for each position, every operation of a
/// pass can be carried out.
pub proof fn a_pass_finds_what_it_needs(
    b: CpuBackend<'_>,
    f: Ops,
    m: Model,
    kv: Seq<KvView>,
    start_pos: u32,
    kv_len: u32,
    tokens: Seq<u32>,
)
    requires
        model_suits(b, f, m, kv, start_pos, kv_len, tokens),
    ensures
        all_ready(b, f, pass_ops(m, kv, start_pos, kv_len, tokens.len() as u32).ops, tokens),
        ready_until(b, f, pass_ops(m, kv, start_pos, kv_len, tokens.len() as u32).ops, tokens, 0)
            == pass_ops(m, kv, start_pos, kv_len, tokens.len() as u32).ops.len(),
{
    let s = m.spec@;
    let sc = m.scratch;
    let n = tokens.len() as u32;
    let k = s.n_layers as nat;
    let ws = m.weights.layers@;
    let freqs = m.weights.rope_freqs;
    widths(b, s, sc, n);
    layers_ready(b, f, s, ws, sc, freqs, kv, start_pos, kv_len, n, k, tokens);
    let x = layers_ops(s, ws, sc, freqs, kv, start_pos, kv_len, n, k).ops;
    let first = seq![
        Op::GetRows { dst: sc.x, weight: m.weights.token_embd, scale: s.embd_scale },
    ];
    let last = output_ops(
        s,
        m.weights.output,
        m.weights.output_norm,
        m.weights.output_norm_b,
        sc,
        n,
    );
    assert(all_ready(b, f, first, tokens));
    output_ready(
        b,
        f,
        s,
        m.weights.output,
        m.weights.output_norm,
        m.weights.output_norm_b,
        sc,
        n,
        tokens,
    );
    both_ready(b, f, first, x, tokens);
    both_ready(b, f, first + x, last, tokens);
    all_fit(b, f, pass_ops(m, kv, start_pos, kv_len, n).ops, tokens, 0);
}

/// What a pass gives back: the logits of the last token, or why there are none.
pub open spec fn logits_given(
    b: CpuBackend<'_>,
    m: Model,
    fault: Option<ErrorView>,
    run: Result<(), ErrorView>,
    r: Result<Seq<u32>, ErrorView>,
) -> bool {
    r == match run {
        Err(e) => Err(e),
        Ok(_) => match fault {
            Some(e) => Err(e),
            None => first_words(b.buffers@, m.scratch.logits, m.spec@.n_vocab),
        },
    }
}

impl<'a> CpuBackend<'a> {
    /// Runs `tokens` through a model and gives the logits for the final token.
    pub fn forward<A: Fn(FloatOp, u32, u32) -> u32>(
        &mut self,
        m: &Arith<A>,
        model: &Model,
        tokens: &[u32],
        positions: &[i32],
        kv: &[KvView],
        start_pos: u32,
        kv_len: u32,
    ) -> (r: Result<Vec<u32>, Error>)
        requires
            m.works(),
            old(self).wf(),
            model.wf(),
        ensures
            final(self).wf(),
            final(self).weights == old(self).weights,
            keeps_shape(old(self).buffers, final(self).buffers),
            match pass_fault(model.spec@, model.scratch, tokens@.len(), kv@.len()) {
                Some(e) => r is Err && r->Err_0@ == e && *final(self) == *old(self),
                None => {
                    let x = pass_ops(*model, kv@, start_pos, kv_len, tokens@.len() as u32);
                    exists|run: Result<(), Error>| #[trigger]
                        carried(
                            *old(self),
                            *final(self),
                            m.ops(),
                            x.ops,
                            tokens@,
                            positions@,
                            run,
                        ) && logits_given(
                            *final(self),
                            *model,
                            x.fault,
                            carried_out(run),
                            numbers(r),
                        )
                },
            },
    {
        let Forward { ops, fault } = model.forward(tokens.len(), kv, start_pos, kv_len)?;
        let ghost x = pass_ops(*model, kv@, start_pos, kv_len, tokens@.len() as u32);
        assert(ops@ == x.ops && fault_of(fault) == x.fault);
        let run = self.carry_out(m, ops.as_slice(), tokens, positions);
        let ghost answer = run;
        assert(carried(*old(self), *self, m.ops(), x.ops, tokens@, positions@, answer));
        match run {
            Ok(_) => {},
            Err(e) => {
                return Err(e);
            },
        }
        match fault {
            Some(e) => Err(e),
            None => self.words(model.scratch.logits, model.spec.n_vocab),
        }
    }
}

} // verus!
