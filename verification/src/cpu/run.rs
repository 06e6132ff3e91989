//! The operations of a pass, carried out on the processor.

use vstd::prelude::*;
use vstd::slice::slice_subrange;
use vstd::string::*;

use super::attention::AttnBits;
use super::machine::{
    held, keeps_shape, lacking, not_allocated, over_front, rewritten, wanted, Buffers, CpuBackend,
};
use super::matmul::{dense_of, embeddings_of, matmul_of};
use super::moe::{
    columns_match, moe_fault, moe_of, not_uploaded, sizes_fit, Experts, Held, MoeBits,
};
use super::ops::{
    activated_all, binary_all, capped_all, glu_of, norm_of, opt_seq, scaled, NormBits,
};
use super::rope::{roped, RopeBits};
use crate::backend::{
    AttnCfg, BinOp, GluCfg, KvView, MatMulCfg, MoeCfg, MoeWeights, NormCfg, RopeCfg, RopeKind,
};
use crate::device::{BufferId, WeightId};
use crate::dtype::QuantView;
use crate::error::{Error, ErrorView};
use crate::quant::dequant::decode_fault;
use crate::quant::dot::{float_type, is_float};
use crate::quant::quantize::{q8_blocks, Q8_1_BLOCK};
use crate::scalar::{value_of, Scalar};
use crate::single::{at_most, is_at_most, Arith, FloatOp, Ops};
use crate::text::{cat4, dec, decimal, own};

verus! {

/// Whether buffer `id` can take `n` words at its front, where it is there.
pub open spec fn takes(b: Buffers, id: u32, n: int) -> bool {
    b.dom().contains(id) ==> n <= b[id]@.len()
}

pub open spec fn norm_bits(f: Ops, c: NormCfg) -> NormBits {
    NormBits { kind: c.kind, eps: value_of(f, c.eps), scale: value_of(f, c.scale) }
}

pub open spec fn rope_bits(f: Ops, c: RopeCfg) -> RopeBits {
    RopeBits {
        kind: c.kind,
        head_dim: c.head_dim as usize,
        n_rot: c.n_rot,
        orig_ctx: c.orig_ctx,
        freq_base: value_of(f, c.freq_base),
        freq_scale: value_of(f, c.freq_scale),
        ext_factor: value_of(f, c.ext_factor),
        attn_factor: value_of(f, c.attn_factor),
        beta_fast: value_of(f, c.beta_fast),
        beta_slow: value_of(f, c.beta_slow),
    }
}

pub open spec fn attn_bits(f: Ops, c: AttnCfg, kv: KvView) -> AttnBits {
    AttnBits {
        n_heads: c.n_heads as usize,
        n_kv_heads: c.n_kv_heads as usize,
        head_dim: c.head_dim as usize,
        n_tokens: c.n_tokens as usize,
        kv_len: c.kv_len as usize,
        start_pos: c.start_pos as usize,
        window: c.window as usize,
        stride: kv.stride as usize,
        base: kv.base as usize,
        scale: value_of(f, c.scale),
        softcap: value_of(f, c.softcap),
    }
}

pub open spec fn moe_bits(f: Ops, c: MoeCfg) -> MoeBits {
    MoeBits {
        n_expert: c.n_expert as usize,
        n_expert_used: c.n_expert_used as usize,
        n_embd: c.n_embd as usize,
        n_ff: c.n_ff as usize,
        act: c.act,
        gate_func: c.gate_func,
        norm_topk: c.norm_topk,
        scale: value_of(f, c.scale),
    }
}

/// What an operation leaves: an error and everything as it was, or new words at the front of a
/// buffer.
pub open spec fn leaves(
    a: CpuBackend<'_>,
    b: CpuBackend<'_>,
    r: Result<(), Error>,
    fault: Option<ErrorView>,
    dst: u32,
    words: Seq<u32>,
) -> bool {
    match fault {
        Some(e) => r is Err && r->Err_0@ == e && b.buffers == a.buffers,
        None => r is Ok && rewritten(
            a.buffers@,
            b.buffers@,
            dst,
            over_front(a.buffers@[dst]@, words),
        ),
    }
}

/// The error for the first buffer that is not there.
pub open spec fn lack(b: Buffers, ids: Seq<u32>) -> Option<ErrorView> {
    match lacking(b, ids, 0) {
        Some(id) => Some(not_allocated(id)),
        None => None,
    }
}

pub open spec fn columns_fault(n_in: u32, cols: usize) -> ErrorView {
    ErrorView::Shape(
        "matmul expects "@ + dec(n_in as nat) + " input columns, weight has "@ + dec(cols as nat),
    )
}

pub open spec fn rows_fault(n_out: u32, rows: usize) -> ErrorView {
    ErrorView::Shape(
        "matmul wants "@ + dec(n_out as nat) + " output rows, weight has "@ + dec(rows as nat),
    )
}

/// Why a product with weight `w` cannot be had.
pub open spec fn matmul_fault(
    b: Buffers,
    w: QuantView<'_>,
    dst: u32,
    src: u32,
    c: MatMulCfg,
) -> Option<ErrorView> {
    if w.cols != c.n_in {
        Some(columns_fault(c.n_in, w.cols))
    } else if w.rows < c.n_out {
        Some(rows_fault(c.n_out, w.rows))
    } else if float_type(w.dtype) {
        lack(b, wanted(c.bias) + seq![src, dst])
    } else if !b.dom().contains(src) {
        Some(not_allocated(src))
    } else if b[src]@.len() < c.n_in * c.n_tokens {
        Some(
            ErrorView::Shape(
                "activation holds "@ + dec(b[src]@.len()) + " values, need "@ + dec(
                    (c.n_in * c.n_tokens) as nat,
                ),
            ),
        )
    } else {
        lack(b, wanted(c.bias) + seq![dst])
    }
}

/// What `get_rows` needs.
pub open spec fn get_rows_ready(
    before: CpuBackend<'_>,
    dst: BufferId,
    weight: WeightId,
    tokens: Seq<u32>,
) -> bool {
    before.weights@.dom().contains(weight.0) ==> before.weights@[weight.0].rows > 0
        && takes(
        before.buffers@,
        dst.0,
        tokens.len() * before.weights@[weight.0].cols,
    )
}

/// What `get_rows` leaves.
pub open spec fn get_rows_done(
    before: CpuBackend<'_>,
    after: CpuBackend<'_>,
    r: Result<(), Error>,
    f: Ops,
    dst: BufferId,
    weight: WeightId,
    tokens: Seq<u32>,
    scale: Scalar,
) -> bool {
    if !before.weights@.dom().contains(weight.0) {
        r is Err && r->Err_0@ == not_uploaded(weight.0) && after.buffers
            == before.buffers
    } else {
        let w = before.weights@[weight.0];
        leaves(
            before,
            after,
            r,
            if !before.buffers@.dom().contains(dst.0) {
                Some(not_allocated(dst.0))
            } else if tokens.len() > 0 {
                decode_fault(w.dtype, w.row_len(), w.cols as nat, w.cols as nat)
            } else {
                None
            },
            dst.0,
            embeddings_of(
                f,
                w,
                tokens,
                value_of(f, scale),
                tokens.len(),
            ),
        )
    }
}

/// What `norm` needs.
pub open spec fn norm_ready(
    before: CpuBackend<'_>,
    dst: BufferId,
    src: BufferId,
    cfg: NormCfg,
) -> bool {
    &&& takes(before.buffers@, src.0, cfg.n_tokens * cfg.dim)
    &&& takes(before.buffers@, dst.0, cfg.n_tokens * cfg.dim)
}

/// What `norm` leaves.
pub open spec fn norm_done(
    before: CpuBackend<'_>,
    after: CpuBackend<'_>,
    r: Result<(), Error>,
    f: Ops,
    dst: BufferId,
    src: BufferId,
    weight: Option<BufferId>,
    cfg: NormCfg,
) -> bool {
    leaves(
        before,
        after,
        r,
        lack(
            before.buffers@,
            wanted(weight) + wanted(cfg.bias) + seq![dst.0, src.0],
        ),
        dst.0,
        norm_of(
            f,
            norm_bits(f, cfg),
            before.buffers@[src.0]@,
            held(before.buffers@, weight),
            held(before.buffers@, cfg.bias),
            cfg.dim as int,
            cfg.n_tokens as nat,
        ),
    )
}

/// What `matmul` needs.
pub open spec fn matmul_ready(
    before: CpuBackend<'_>,
    dst: BufferId,
    weight: WeightId,
    src: BufferId,
    cfg: MatMulCfg,
) -> bool {
    &&& takes(before.buffers@, dst.0, cfg.n_tokens * cfg.n_out)
    &&& cfg.bias matches Some(b) ==> takes(before.buffers@, b.0, cfg.n_out as int)
    &&& before.weights@.dom().contains(weight.0) && float_type(
        before.weights@[weight.0].dtype,
    ) ==> takes(before.buffers@, src.0, cfg.n_tokens * cfg.n_in)
    &&& cfg.n_in * cfg.n_tokens <= usize::MAX
    &&& q8_blocks(cfg.n_in as nat) * Q8_1_BLOCK <= usize::MAX
}

/// What `matmul` leaves.
pub open spec fn matmul_done(
    before: CpuBackend<'_>,
    after: CpuBackend<'_>,
    r: Result<(), Error>,
    f: Ops,
    dst: BufferId,
    weight: WeightId,
    src: BufferId,
    cfg: MatMulCfg,
) -> bool {
    if !before.weights@.dom().contains(weight.0) {
        r is Err && r->Err_0@ == not_uploaded(weight.0) && after.buffers
            == before.buffers
    } else {
        let w = before.weights@[weight.0];
        leaves(
            before,
            after,
            r,
            matmul_fault(before.buffers@, w, dst.0, src.0, cfg),
            dst.0,
            matmul_of(
                f,
                w,
                before.buffers@[src.0]@,
                held(before.buffers@, cfg.bias),
                cfg.n_out as nat,
                cfg.n_tokens as nat,
            ),
        )
    }
}

/// What `matmul_f32` needs.
pub open spec fn matmul_f32_ready(
    before: CpuBackend<'_>,
    dst: BufferId,
    weight: BufferId,
    src: BufferId,
    cfg: MatMulCfg,
) -> bool {
    &&& takes(before.buffers@, dst.0, cfg.n_tokens * cfg.n_out)
    &&& takes(before.buffers@, weight.0, cfg.n_out * cfg.n_in)
    &&& takes(before.buffers@, src.0, cfg.n_tokens * cfg.n_in)
    &&& cfg.bias matches Some(b) ==> takes(before.buffers@, b.0, cfg.n_out as int)
}

/// What `matmul_f32` leaves.
pub open spec fn matmul_f32_done(
    before: CpuBackend<'_>,
    after: CpuBackend<'_>,
    r: Result<(), Error>,
    f: Ops,
    dst: BufferId,
    weight: BufferId,
    src: BufferId,
    cfg: MatMulCfg,
) -> bool {
    leaves(
        before,
        after,
        r,
        lack(
            before.buffers@,
            wanted(cfg.bias) + seq![dst.0, weight.0, src.0],
        ),
        dst.0,
        dense_of(
            f,
            before.buffers@[weight.0]@,
            before.buffers@[src.0]@,
            held(before.buffers@, cfg.bias),
            cfg.n_out as nat,
            cfg.n_in as int,
            cfg.n_tokens as nat,
        ),
    )
}

/// What `rope` needs.
pub open spec fn rope_ready(
    before: CpuBackend<'_>,
    q: BufferId,
    k: Option<BufferId>,
    cfg: RopeCfg,
) -> bool {
    &&& cfg.kind != RopeKind::NoRope ==> takes(
        before.buffers@,
        q.0,
        cfg.n_tokens * cfg.n_heads * cfg.head_dim,
    ) && (k matches Some(x) ==> takes(
        before.buffers@,
        x.0,
        cfg.n_tokens * cfg.n_kv_heads * cfg.head_dim,
    ))
    &&& cfg.n_tokens * cfg.n_heads <= usize::MAX
    &&& cfg.n_tokens * cfg.n_kv_heads <= usize::MAX
    &&& cfg.kind == RopeKind::Norm ==> cfg.n_rot % 2 == 0 || cfg.n_rot != cfg.head_dim
    &&& cfg.kind == RopeKind::Norm && cfg.n_rot > cfg.head_dim ==> cfg.head_dim % 2 == 0
}

/// What `rope` leaves.
pub open spec fn rope_done(
    before: CpuBackend<'_>,
    after: CpuBackend<'_>,
    r: Result<(), Error>,
    f: Ops,
    q: BufferId,
    k: Option<BufferId>,
    positions: Seq<i32>,
    cfg: RopeCfg,
) -> bool {
    match lack(before.buffers@, wanted(cfg.freq_factors) + seq![q.0]) {
        Some(e) => r is Err && r->Err_0@ == e && after.buffers == before.buffers,
        None => {
            let b = before.buffers@;
            let qw = turned_words(f, cfg, b, b[q.0]@, positions, cfg.n_heads);
            match k {
                None => r is Ok && rewritten(b, after.buffers@, q.0, qw),
                Some(x) => if !b.dom().contains(x.0) {
                    r is Err && r->Err_0@ == not_allocated(x.0) && rewritten(
                        b,
                        after.buffers@,
                        q.0,
                        qw,
                    )
                } else {
                    let kw = if x == q {
                        qw
                    } else {
                        b[x.0]@
                    };
                    r is Ok && rewritten_two(
                        b,
                        after.buffers@,
                        q.0,
                        qw,
                        x.0,
                        turned_words(f, cfg, b, kw, positions, cfg.n_kv_heads),
                    )
                },
            }
        },
    }
}

/// What `glu` needs.
pub open spec fn glu_ready(
    before: CpuBackend<'_>,
    dst: BufferId,
    gate: BufferId,
    up: BufferId,
    cfg: GluCfg,
) -> bool {
    &&& cfg.dim * cfg.n_tokens <= u32::MAX
    &&& takes(before.buffers@, dst.0, cfg.dim * cfg.n_tokens)
    &&& takes(before.buffers@, gate.0, cfg.dim * cfg.n_tokens)
    &&& takes(before.buffers@, up.0, cfg.dim * cfg.n_tokens)
}

/// What `glu` leaves.
pub open spec fn glu_done(
    before: CpuBackend<'_>,
    after: CpuBackend<'_>,
    r: Result<(), Error>,
    f: Ops,
    dst: BufferId,
    gate: BufferId,
    up: BufferId,
    cfg: GluCfg,
) -> bool {
    leaves(
        before,
        after,
        r,
        lack(before.buffers@, seq![dst.0, gate.0, up.0]),
        dst.0,
        glu_of(
            f,
            cfg.act,
            before.buffers@[gate.0]@,
            before.buffers@[up.0]@,
            value_of(f, cfg.limit),
            value_of(f, cfg.alpha),
            (cfg.dim * cfg.n_tokens) as nat,
        ),
    )
}

/// What `activate` needs.
pub open spec fn activate_ready(
    cfg: GluCfg,
) -> bool {
    cfg.dim * cfg.n_tokens <= u32::MAX
}

/// What `activate` leaves.
pub open spec fn activate_done(
    before: CpuBackend<'_>,
    after: CpuBackend<'_>,
    r: Result<(), Error>,
    f: Ops,
    buf: BufferId,
    cfg: GluCfg,
) -> bool {
    leaves(
        before,
        after,
        r,
        lack_one(before.buffers@, buf.0),
        buf.0,
        activated_all(
            f,
            cfg.act,
            front_of(before.buffers@[buf.0]@, (cfg.dim * cfg.n_tokens) as nat),
            value_of(f, cfg.alpha),
        ),
    )
}

/// What `binary` needs.
pub open spec fn binary_ready(
    before: CpuBackend<'_>,
    dst: BufferId,
    a: BufferId,
    b: BufferId,
    n: u32,
) -> bool {
    &&& takes(before.buffers@, dst.0, n as int)
    &&& takes(before.buffers@, a.0, n as int)
    &&& n > 0 ==> takes(before.buffers@, b.0, 1)
}

/// What `binary` leaves.
pub open spec fn binary_done(
    before: CpuBackend<'_>,
    after: CpuBackend<'_>,
    r: Result<(), Error>,
    f: Ops,
    dst: BufferId,
    a: BufferId,
    b: BufferId,
    op: BinOp,
    n: u32,
) -> bool {
    leaves(
        before,
        after,
        r,
        lack(before.buffers@, seq![dst.0, a.0, b.0]),
        dst.0,
        binary_all(
            f,
            op,
            before.buffers@[a.0]@,
            front_of(before.buffers@[b.0]@, n as nat),
            n as nat,
        ),
    )
}

/// What `scale` leaves.
pub open spec fn scale_done(
    before: CpuBackend<'_>,
    after: CpuBackend<'_>,
    r: Result<(), Error>,
    f: Ops,
    buf: BufferId,
    factor: Scalar,
    n: u32,
) -> bool {
    leaves(
        before,
        after,
        r,
        lack_one(before.buffers@, buf.0),
        buf.0,
        scaled(
            f,
            front_of(before.buffers@[buf.0]@, n as nat),
            value_of(f, factor),
        ),
    )
}

/// What `softcap` leaves.
pub open spec fn softcap_done(
    before: CpuBackend<'_>,
    after: CpuBackend<'_>,
    r: Result<(), Error>,
    f: Ops,
    buf: BufferId,
    cap: Scalar,
    n: u32,
) -> bool {
    if at_most(value_of(f, cap), 0) {
        r is Ok && after.buffers == before.buffers
    } else {
        leaves(
            before,
            after,
            r,
            lack_one(before.buffers@, buf.0),
            buf.0,
            capped_all(
                f,
                front_of(before.buffers@[buf.0]@, n as nat),
                value_of(f, cap),
            ),
        )
    }
}

/// What `fill` leaves.
pub open spec fn fill_done(
    before: CpuBackend<'_>,
    after: CpuBackend<'_>,
    r: Result<(), Error>,
    buf: BufferId,
    value: u32,
    n: u32,
) -> bool {
    leaves(
        before,
        after,
        r,
        lack_one(before.buffers@, buf.0),
        buf.0,
        Seq::new(front_of(before.buffers@[buf.0]@, n as nat).len(), |i: int| value),
    )
}

/// What `copy` needs.
pub open spec fn copy_ready(
    dst_off: u64,
    src_off: u64,
    bytes: u64,
) -> bool {
    &&& dst_off / 4 + bytes / 4 <= usize::MAX
    &&& src_off / 4 + bytes / 4 <= usize::MAX
}

/// What `copy` leaves.
pub open spec fn copy_done(
    before: CpuBackend<'_>,
    after: CpuBackend<'_>,
    r: Result<(), Error>,
    dst: BufferId,
    dst_off: u64,
    src: BufferId,
    src_off: u64,
    bytes: u64,
) -> bool {
    match lack(before.buffers@, seq![dst.0, src.0]) {
        Some(e) => r is Err && r->Err_0@ == e && after.buffers == before.buffers,
        None => {
            let b = before.buffers@;
            let n = bytes as int / 4;
            let to = dst_off as int / 4;
            let from = src_off as int / 4;
            if to + n > b[dst.0]@.len() || from + n > b[src.0]@.len() {
                r is Err && r->Err_0@ == ErrorView::Shape("copy range is out of bounds"@)
                    && after.buffers == before.buffers
            } else {
                r is Ok && rewritten(
                    b,
                    after.buffers@,
                    dst.0,
                    b[dst.0]@.take(to) + b[src.0]@.subrange(from, from + n)
                        + b[dst.0]@.skip(to + n),
                )
            }
        },
    }
}

/// What `moe` needs.
pub open spec fn moe_ready(
    before: CpuBackend<'_>,
    f: Ops,
    dst: BufferId,
    src: BufferId,
    w: MoeWeights,
    cfg: MoeCfg,
) -> bool {
    &&& takes(before.buffers@, dst.0, cfg.n_tokens * cfg.n_embd)
    &&& takes(before.buffers@, src.0, cfg.n_tokens * cfg.n_embd)
    &&& w.exp_probs_b matches Some(b) ==> takes(
        before.buffers@,
        b.0,
        cfg.n_expert as int,
    )
    &&& before.weights@.dom().contains(w.gate_inp.0) ==> columns_match(
        moe_bits(f, cfg),
        experts_of(before.weights@, w),
    ) && sizes_fit(moe_bits(f, cfg), experts_of(before.weights@, w))
}

/// What `moe` leaves.
pub open spec fn moe_done(
    before: CpuBackend<'_>,
    after: CpuBackend<'_>,
    r: Result<(), Error>,
    f: Ops,
    dst: BufferId,
    src: BufferId,
    w: MoeWeights,
    cfg: MoeCfg,
) -> bool {
    if !before.weights@.dom().contains(w.gate_inp.0) {
        r is Err && r->Err_0@ == not_uploaded(w.gate_inp.0) && after.buffers
            == before.buffers
    } else {
        let b = before.buffers@;
        let c = moe_bits(f, cfg);
        let e = experts_of(before.weights@, w);
        let bias = held(b, w.exp_probs_b);
        leaves(
            before,
            after,
            r,
            match lack(b, seq![src.0] + wanted(w.exp_probs_b)) {
                Some(x) => Some(x),
                None => match moe_fault(
                    f,
                    c,
                    e,
                    bias,
                    b[src.0]@,
                    cfg.n_tokens as nat,
                ) {
                    Some(x) => Some(x),
                    None => lack_one(b, dst.0),
                },
            },
            dst.0,
            moe_of(f, c, e, bias, b[src.0]@, cfg.n_tokens as nat),
        )
    }
}

impl<'a> CpuBackend<'a> {
    /// `dst[t] = weight[tokens[t]] * scale`
    pub fn get_rows<A: Fn(FloatOp, u32, u32) -> u32>(
        &mut self,
        m: &Arith<A>,
        dst: BufferId,
        weight: WeightId,
        tokens: &[u32],
        scale: Scalar,
    ) -> (r: Result<(), Error>)
        requires
            m.works(),
            old(self).wf(),
            get_rows_ready(*old(self), dst, weight, tokens@),
        ensures
            final(self).wf(),
            final(self).weights == old(self).weights,
            keeps_shape(old(self).buffers, final(self).buffers),
            get_rows_done(*old(self), *final(self), r, m.ops(), dst, weight, tokens@, scale),
    {
        let w = self.weight(weight)?;
        let mut ids: Vec<u32> = Vec::new();
        ids.push(dst.0);
        proof {
            reveal_with_fuel(lacking, 3);
        }
        self.check(&ids)?;
        assert(self.buffers@.dom().contains(ids@[0]));
        let x = m.get_rows(&w, tokens, m.value(scale))?;
        self.store(dst.0, &x);
        Ok(())
    }

    pub fn norm<A: Fn(FloatOp, u32, u32) -> u32>(
        &mut self,
        m: &Arith<A>,
        dst: BufferId,
        src: BufferId,
        weight: Option<BufferId>,
        cfg: NormCfg,
    ) -> (r: Result<(), Error>)
        requires
            m.works(),
            old(self).wf(),
            norm_ready(*old(self), dst, src, cfg),
        ensures
            final(self).wf(),
            final(self).weights == old(self).weights,
            keeps_shape(old(self).buffers, final(self).buffers),
            norm_done(*old(self), *final(self), r, m.ops(), dst, src, weight, cfg),
    {
        let mut ids: Vec<u32> = Vec::new();
        if let Some(x) = weight {
            ids.push(x.0);
        }
        let ghost first = ids@;
        if let Some(x) = cfg.bias {
            ids.push(x.0);
        }
        let ghost second = ids@;
        ids.push(dst.0);
        ids.push(src.0);
        proof {
            assert(first =~= wanted(weight));
            assert(second =~= wanted(weight) + wanted(cfg.bias));
            assert(ids@ =~= wanted(weight) + wanted(cfg.bias) + seq![dst.0, src.0]);
        }
        self.check(&ids)?;
        proof {
            let n = ids@.len();
            assert(ids@[n - 1] == src.0 && ids@[n - 2] == dst.0);
            if let Some(x) = weight {
                assert(ids@[0] == x.0);
            }
            if let Some(x) = cfg.bias {
                assert(ids@[n - 3] == x.0);
            }
        }
        let c = NormBits { kind: cfg.kind, eps: m.value(cfg.eps), scale: m.value(cfg.scale) };
        let x = m.norm(
            &c,
            self.contents(src.0),
            self.opt_contents(weight),
            self.opt_contents(cfg.bias),
            cfg.dim as usize,
            cfg.n_tokens as usize,
        );
        self.store(dst.0, &x);
        Ok(())
    }

    /// `dst = weight @ src`
    pub fn matmul<A: Fn(FloatOp, u32, u32) -> u32>(
        &mut self,
        m: &Arith<A>,
        dst: BufferId,
        weight: WeightId,
        src: BufferId,
        cfg: MatMulCfg,
    ) -> (r: Result<(), Error>)
        requires
            m.works(),
            old(self).wf(),
            matmul_ready(*old(self), dst, weight, src, cfg),
        ensures
            final(self).wf(),
            final(self).weights == old(self).weights,
            keeps_shape(old(self).buffers, final(self).buffers),
            matmul_done(*old(self), *final(self), r, m.ops(), dst, weight, src, cfg),
    {
        let w = self.weight(weight)?;
        if w.cols != cfg.n_in as usize {
            return Err(
                Error::Shape(
                    cat4(
                        "matmul expects ",
                        decimal(cfg.n_in as u64).as_str(),
                        " input columns, weight has ",
                        decimal(w.cols as u64).as_str(),
                    ),
                ),
            );
        }
        if w.rows < cfg.n_out as usize {
            return Err(
                Error::Shape(
                    cat4(
                        "matmul wants ",
                        decimal(cfg.n_out as u64).as_str(),
                        " output rows, weight has ",
                        decimal(w.rows as u64).as_str(),
                    ),
                ),
            );
        }
        let mut ids: Vec<u32> = Vec::new();
        if let Some(x) = cfg.bias {
            ids.push(x.0);
        }
        assert(ids@ =~= wanted(cfg.bias));
        assert(cfg.n_in * cfg.n_tokens == cfg.n_tokens * cfg.n_in) by (nonlinear_arith);
        if is_float(w.dtype) {
            ids.push(src.0);
            ids.push(dst.0);
            assert(ids@ =~= wanted(cfg.bias) + seq![src.0, dst.0]);
            self.check(&ids)?;
            assert(ids@[ids@.len() - 2] == src.0);
        } else {
            let have = match self.buffers.get(src.0) {
                Some(v) => v.len(),
                None => {
                    return Err(Self::absent(src.0));
                },
            };
            let need = cfg.n_in as usize * cfg.n_tokens as usize;
            if have < need {
                return Err(
                    Error::Shape(
                        cat4(
                            "activation holds ",
                            decimal(have as u64).as_str(),
                            " values, need ",
                            decimal(need as u64).as_str(),
                        ),
                    ),
                );
            }
            ids.push(dst.0);
            assert(ids@ =~= wanted(cfg.bias) + seq![dst.0]);
            self.check(&ids)?;
        }
        proof {
            assert(ids@[ids@.len() - 1] == dst.0);
            if let Some(x) = cfg.bias {
                assert(ids@[0] == x.0);
            }
            assert(cfg.n_out * w.row_len() <= w.rows * w.row_len()) by (nonlinear_arith)
                requires
                    cfg.n_out <= w.rows,
                    w.row_len() >= 0,
            ;
        }
        let x = m.matmul(
            &w,
            self.contents(src.0),
            self.opt_contents(cfg.bias),
            cfg.n_out as usize,
            cfg.n_tokens as usize,
        );
        self.store(dst.0, &x);
        Ok(())
    }

    /// The same for a weight that is a plain buffer.
    pub fn matmul_f32<A: Fn(FloatOp, u32, u32) -> u32>(
        &mut self,
        m: &Arith<A>,
        dst: BufferId,
        weight: BufferId,
        src: BufferId,
        cfg: MatMulCfg,
    ) -> (r: Result<(), Error>)
        requires
            m.works(),
            old(self).wf(),
            matmul_f32_ready(*old(self), dst, weight, src, cfg),
        ensures
            final(self).wf(),
            final(self).weights == old(self).weights,
            keeps_shape(old(self).buffers, final(self).buffers),
            matmul_f32_done(*old(self), *final(self), r, m.ops(), dst, weight, src, cfg),
    {
        let mut ids: Vec<u32> = Vec::new();
        if let Some(x) = cfg.bias {
            ids.push(x.0);
        }
        assert(ids@ =~= wanted(cfg.bias));
        ids.push(dst.0);
        ids.push(weight.0);
        ids.push(src.0);
        assert(ids@ =~= wanted(cfg.bias) + seq![dst.0, weight.0, src.0]);
        self.check(&ids)?;
        proof {
            let n = ids@.len();
            assert(ids@[n - 1] == src.0 && ids@[n - 2] == weight.0 && ids@[n - 3] == dst.0);
            if let Some(x) = cfg.bias {
                assert(ids@[0] == x.0);
            }
        }
        let x = m.matmul_dense(
            self.contents(weight.0),
            self.contents(src.0),
            self.opt_contents(cfg.bias),
            cfg.n_out as usize,
            cfg.n_in as usize,
            cfg.n_tokens as usize,
        );
        self.store(dst.0, &x);
        Ok(())
    }

    /// Rotates the heads of `q` and, where it is given, of `k` in place.
    pub fn rope<A: Fn(FloatOp, u32, u32) -> u32>(
        &mut self,
        m: &Arith<A>,
        q: BufferId,
        k: Option<BufferId>,
        positions: &[i32],
        cfg: RopeCfg,
    ) -> (r: Result<(), Error>)
        requires
            m.works(),
            old(self).wf(),
            rope_ready(*old(self), q, k, cfg),
        ensures
            final(self).wf(),
            final(self).weights == old(self).weights,
            keeps_shape(old(self).buffers, final(self).buffers),
            rope_done(*old(self), *final(self), r, m.ops(), q, k, positions@, cfg),
    {
        let ghost b = self.buffers@;
        let ghost f = m.ops();
        let mut ids: Vec<u32> = Vec::new();
        if let Some(x) = cfg.freq_factors {
            ids.push(x.0);
        }
        assert(ids@ =~= wanted(cfg.freq_factors));
        ids.push(q.0);
        assert(ids@ =~= wanted(cfg.freq_factors) + seq![q.0]);
        self.check(&ids)?;
        proof {
            assert(ids@[ids@.len() - 1] == q.0);
            if let Some(x) = cfg.freq_factors {
                assert(ids@[0] == x.0);
            }
        }
        let c = RopeBits {
            kind: cfg.kind,
            head_dim: cfg.head_dim as usize,
            n_rot: cfg.n_rot,
            orig_ctx: cfg.orig_ctx,
            freq_base: m.value(cfg.freq_base),
            freq_scale: m.value(cfg.freq_scale),
            ext_factor: m.value(cfg.ext_factor),
            attn_factor: m.value(cfg.attn_factor),
            beta_fast: m.value(cfg.beta_fast),
            beta_slow: m.value(cfg.beta_slow),
        };
        assert(c == rope_bits(f, cfg));
        let turns = match cfg.kind {
            RopeKind::NoRope => false,
            _ => true,
        };
        // The divisors as they were, should the rotation be of their own buffer.
        let factors = self.opt_copy(cfg.freq_factors);
        if turns {
            let x = m.rope(
                &c,
                self.contents(q.0),
                positions,
                cfg.n_heads as usize,
                opt_slice(&factors),
                cfg.n_tokens as usize,
            );
            self.store(q.0, &x);
        }
        if let Some(x) = k {
            if self.buffers.get(x.0).is_none() {
                return Err(Self::absent(x.0));
            }
            if turns {
                let y = m.rope(
                    &c,
                    self.contents(x.0),
                    positions,
                    cfg.n_kv_heads as usize,
                    opt_slice(&factors),
                    cfg.n_tokens as usize,
                );
                self.store(x.0, &y);
            }
        }
        Ok(())
    }

    pub(crate) fn opt_copy(&self, id: Option<BufferId>) -> (r: Option<Vec<u32>>)
        requires
            id matches Some(x) ==> self.buffers@.dom().contains(x.0),
        ensures
            opt_words(r) == held(self.buffers@, id),
    {
        match id {
            Some(x) => {
                let s = self.contents(x.0);
                let mut v: Vec<u32> = Vec::new();
                let mut i: usize = 0;
                while i < s.len()
                    invariant
                        i <= s@.len(),
                        v@ == s@.take(i as int),
                    decreases s@.len() - i,
                {
                    v.push(s[i]);
                    i = i + 1;
                    assert(v@ =~= s@.take(i as int));
                }
                assert(s@.take(i as int) =~= s@);
                Some(v)
            },
            None => None,
        }
    }

    /// `dst = act(gate) * up`
    pub fn glu<A: Fn(FloatOp, u32, u32) -> u32>(
        &mut self,
        m: &Arith<A>,
        dst: BufferId,
        gate: BufferId,
        up: BufferId,
        cfg: GluCfg,
    ) -> (r: Result<(), Error>)
        requires
            m.works(),
            old(self).wf(),
            glu_ready(*old(self), dst, gate, up, cfg),
        ensures
            final(self).wf(),
            final(self).weights == old(self).weights,
            keeps_shape(old(self).buffers, final(self).buffers),
            glu_done(*old(self), *final(self), r, m.ops(), dst, gate, up, cfg),
    {
        let mut ids: Vec<u32> = Vec::new();
        ids.push(dst.0);
        ids.push(gate.0);
        ids.push(up.0);
        assert(ids@ =~= seq![dst.0, gate.0, up.0]);
        self.check(&ids)?;
        assert(ids@[0] == dst.0 && ids@[1] == gate.0 && ids@[2] == up.0);
        let n = (cfg.dim * cfg.n_tokens) as usize;
        let x = m.glu(
            cfg.act,
            self.contents(gate.0),
            self.contents(up.0),
            m.value(cfg.limit),
            m.value(cfg.alpha),
            n,
        );
        self.store(dst.0, &x);
        Ok(())
    }

    /// The first `n` words of a buffer, or all of them where there are fewer.
    fn front(&self, id: u32, n: usize) -> (r: &[u32])
        requires
            self.buffers@.dom().contains(id),
        ensures
            r@ == front_of(self.buffers@[id]@, n as nat),
    {
        let s = self.contents(id);
        let k = if n < s.len() {
            n
        } else {
            s.len()
        };
        slice_subrange(s, 0, k)
    }

    fn check_one(&self, id: u32) -> (r: Result<(), Error>)
        ensures
            if self.buffers@.dom().contains(id) {
                r is Ok
            } else {
                r is Err && r->Err_0@ == not_allocated(id)
            },
    {
        match self.buffers.get(id) {
            Some(_) => Ok(()),
            None => Err(Self::absent(id)),
        }
    }

    /// `buf = act(buf)`
    pub fn activate<A: Fn(FloatOp, u32, u32) -> u32>(
        &mut self,
        m: &Arith<A>,
        buf: BufferId,
        cfg: GluCfg,
    ) -> (r: Result<(), Error>)
        requires
            m.works(),
            old(self).wf(),
            activate_ready(cfg),
        ensures
            final(self).wf(),
            final(self).weights == old(self).weights,
            keeps_shape(old(self).buffers, final(self).buffers),
            activate_done(*old(self), *final(self), r, m.ops(), buf, cfg),
    {
        self.check_one(buf.0)?;
        let n = (cfg.dim * cfg.n_tokens) as usize;
        let x = m.activate(cfg.act, self.front(buf.0, n), m.value(cfg.alpha));
        self.store(buf.0, &x);
        Ok(())
    }

    pub fn binary<A: Fn(FloatOp, u32, u32) -> u32>(
        &mut self,
        m: &Arith<A>,
        dst: BufferId,
        a: BufferId,
        b: BufferId,
        op: BinOp,
        n: u32,
    ) -> (r: Result<(), Error>)
        requires
            m.works(),
            old(self).wf(),
            binary_ready(*old(self), dst, a, b, n),
        ensures
            final(self).wf(),
            final(self).weights == old(self).weights,
            keeps_shape(old(self).buffers, final(self).buffers),
            binary_done(*old(self), *final(self), r, m.ops(), dst, a, b, op, n),
    {
        let mut ids: Vec<u32> = Vec::new();
        ids.push(dst.0);
        ids.push(a.0);
        ids.push(b.0);
        assert(ids@ =~= seq![dst.0, a.0, b.0]);
        self.check(&ids)?;
        assert(ids@[0] == dst.0 && ids@[1] == a.0 && ids@[2] == b.0);
        let x = m.binary(op, self.contents(a.0), self.front(b.0, n as usize), n as usize);
        self.store(dst.0, &x);
        Ok(())
    }

    pub fn scale<A: Fn(FloatOp, u32, u32) -> u32>(
        &mut self,
        m: &Arith<A>,
        buf: BufferId,
        factor: Scalar,
        n: u32,
    ) -> (r: Result<(), Error>)
        requires
            m.works(),
            old(self).wf(),
        ensures
            final(self).wf(),
            final(self).weights == old(self).weights,
            keeps_shape(old(self).buffers, final(self).buffers),
            scale_done(*old(self), *final(self), r, m.ops(), buf, factor, n),
    {
        self.check_one(buf.0)?;
        let x = m.scaled(self.front(buf.0, n as usize), m.value(factor));
        self.store(buf.0, &x);
        Ok(())
    }

    /// `x = cap * tanh(x / cap)`; a cap that is not positive caps nothing.
    pub fn softcap<A: Fn(FloatOp, u32, u32) -> u32>(
        &mut self,
        m: &Arith<A>,
        buf: BufferId,
        cap: Scalar,
        n: u32,
    ) -> (r: Result<(), Error>)
        requires
            m.works(),
            old(self).wf(),
        ensures
            final(self).wf(),
            final(self).weights == old(self).weights,
            keeps_shape(old(self).buffers, final(self).buffers),
            softcap_done(*old(self), *final(self), r, m.ops(), buf, cap, n),
    {
        let c = m.value(cap);
        if is_at_most(c, 0) {
            return Ok(());
        }
        self.check_one(buf.0)?;
        let x = m.capped(self.front(buf.0, n as usize), c);
        self.store(buf.0, &x);
        Ok(())
    }

    /// Fills the front of a buffer with a number.
    pub fn fill(&mut self, buf: BufferId, value: u32, n: u32) -> (r: Result<(), Error>)
        requires
            old(self).wf(),
        ensures
            final(self).wf(),
            final(self).weights == old(self).weights,
            keeps_shape(old(self).buffers, final(self).buffers),
            fill_done(*old(self), *final(self), r, buf, value, n),
    {
        self.check_one(buf.0)?;
        let k = self.front(buf.0, n as usize).len();
        let mut x: Vec<u32> = Vec::new();
        while x.len() < k
            invariant
                x@.len() <= k,
                x@ =~= Seq::new(x@.len(), |i: int| value),
            decreases k - x@.len(),
        {
            x.push(value);
        }
        self.store(buf.0, &x);
        Ok(())
    }

    /// Copies words from one place to another; counts and places are told in bytes.
    pub fn copy(&mut self, dst: BufferId, dst_off: u64, src: BufferId, src_off: u64, bytes: u64) -> (r:
        Result<(), Error>)
        requires
            old(self).wf(),
            copy_ready(dst_off, src_off, bytes),
        ensures
            final(self).wf(),
            final(self).weights == old(self).weights,
            keeps_shape(old(self).buffers, final(self).buffers),
            copy_done(*old(self), *final(self), r, dst, dst_off, src, src_off, bytes),
    {
        let ghost b = self.buffers@;
        let mut ids: Vec<u32> = Vec::new();
        ids.push(dst.0);
        ids.push(src.0);
        assert(ids@ =~= seq![dst.0, src.0]);
        self.check(&ids)?;
        assert(ids@[0] == dst.0 && ids@[1] == src.0);
        let n = (bytes / 4) as usize;
        let to = (dst_off / 4) as usize;
        let from = (src_off / 4) as usize;
        if to + n > self.contents(dst.0).len() || from + n > self.contents(src.0).len() {
            return Err(Error::Shape(own("copy range is out of bounds")));
        }
        let s = self.contents(src.0);
        let mut part: Vec<u32> = Vec::new();
        let mut i: usize = 0;
        while i < n
            invariant
                from + n <= s@.len(),
                from + n <= usize::MAX,
                i <= n,
                part@ =~= s@.subrange(from as int, from + i),
            decreases n - i,
        {
            part.push(s[from + i]);
            i = i + 1;
        }
        let ghost was = b[dst.0]@;
        let empty: Vec<u32> = Vec::new();
        let mut d = self.buffers.exchange(dst.0, empty);
        i = 0;
        while i < n
            invariant
                part@.len() == n,
                to + n <= was.len(),
                to + n <= usize::MAX,
                d@.len() == was.len(),
                i <= n,
                d@ =~= was.take(to as int) + part@.take(i as int) + was.skip(to + i),
            decreases n - i,
        {
            d.set(to + i, part[i]);
            i = i + 1;
        }
        assert(part@.take(n as int) =~= part@);
        self.buffers.exchange(dst.0, d);
        assert(self.buffers@.dom() =~= b.dom());
        Ok(())
    }

    fn look_up(&self, id: WeightId) -> (r: Held<'a>)
        ensures
            r == found(self.weights@, id.0),
    {
        match self.weights.get(id.0) {
            Some(w) => Held::Here(*w),
            None => Held::Absent(id.0),
        }
    }

    /// Mixture of experts.
    pub fn moe<A: Fn(FloatOp, u32, u32) -> u32>(
        &mut self,
        m: &Arith<A>,
        dst: BufferId,
        src: BufferId,
        w: &MoeWeights,
        cfg: MoeCfg,
    ) -> (r: Result<(), Error>)
        requires
            m.works(),
            old(self).wf(),
            moe_ready(*old(self), m.ops(), dst, src, *w, cfg),
        ensures
            final(self).wf(),
            final(self).weights == old(self).weights,
            keeps_shape(old(self).buffers, final(self).buffers),
            moe_done(*old(self), *final(self), r, m.ops(), dst, src, *w, cfg),
    {
        let router = self.weight(w.gate_inp)?;
        let mut ids: Vec<u32> = Vec::new();
        ids.push(src.0);
        if let Some(x) = w.exp_probs_b {
            ids.push(x.0);
        }
        assert(ids@ =~= seq![src.0] + wanted(w.exp_probs_b));
        self.check(&ids)?;
        proof {
            assert(ids@[0] == src.0);
            if let Some(x) = w.exp_probs_b {
                assert(ids@[1] == x.0);
            }
        }
        let gate = match w.gate_exps {
            Some(g) => Some(self.look_up(g)),
            None => None,
        };
        let e = Experts {
            router,
            gate,
            up: self.look_up(w.up_exps),
            down: self.look_up(w.down_exps),
        };
        assert(e == experts_of(self.weights@, *w));
        let c = MoeBits {
            n_expert: cfg.n_expert as usize,
            n_expert_used: cfg.n_expert_used as usize,
            n_embd: cfg.n_embd as usize,
            n_ff: cfg.n_ff as usize,
            act: cfg.act,
            gate_func: cfg.gate_func,
            norm_topk: cfg.norm_topk,
            scale: m.value(cfg.scale),
        };
        assert(c == moe_bits(m.ops(), cfg));
        let x = m.moe(
            &c,
            &e,
            self.opt_contents(w.exp_probs_b),
            self.contents(src.0),
            cfg.n_tokens as usize,
        )?;
        self.check_one(dst.0)?;
        self.store(dst.0, &x);
        Ok(())
    }
}

/// The weight of a number.
pub open spec fn found<'a>(w: Map<u32, QuantView<'a>>, id: u32) -> Held<'a> {
    if w.dom().contains(id) {
        Held::Here(w[id])
    } else {
        Held::Absent(id)
    }
}

/// The weights that a mixture of experts names.
pub open spec fn experts_of<'a>(w: Map<u32, QuantView<'a>>, m: MoeWeights) -> Experts<'a> {
    Experts {
        router: w[m.gate_inp.0],
        gate: match m.gate_exps {
            Some(g) => Some(found(w, g.0)),
            None => None,
        },
        up: found(w, m.up_exps.0),
        down: found(w, m.down_exps.0),
    }
}

/// The first `n` words, or all of them where there are fewer.
pub open spec fn front_of(s: Seq<u32>, n: nat) -> Seq<u32> {
    if n < s.len() {
        s.take(n as int)
    } else {
        s
    }
}

pub open spec fn lack_one(b: Buffers, id: u32) -> Option<ErrorView> {
    if b.dom().contains(id) {
        None
    } else {
        Some(not_allocated(id))
    }
}

/// The words that a vector holds, where there is one.
pub open spec fn opt_words(x: Option<Vec<u32>>) -> Option<Seq<u32>> {
    match x {
        Some(v) => Some(v@),
        None => None,
    }
}

fn opt_slice(x: &Option<Vec<u32>>) -> (r: Option<&[u32]>)
    ensures
        opt_seq(r) == opt_words(*x),
{
    match x {
        Some(v) => Some(v.as_slice()),
        None => None,
    }
}

/// The words of a buffer once its heads are rotated.
pub open spec fn turned_words(
    f: Ops,
    c: RopeCfg,
    b: Buffers,
    words: Seq<u32>,
    positions: Seq<i32>,
    n_heads: u32,
) -> Seq<u32> {
    if c.kind == RopeKind::NoRope {
        words
    } else {
        over_front(
            words,
            roped(
                f,
                rope_bits(f, c),
                words,
                positions,
                n_heads as int,
                held(b, c.freq_factors),
                (c.n_tokens * n_heads) as nat,
            ),
        )
    }
}

/// Whether `b` is `a` with other words in buffer `p`, then in buffer `q`.
pub open spec fn rewritten_two(
    a: Buffers,
    b: Buffers,
    p: u32,
    pw: Seq<u32>,
    q: u32,
    qw: Seq<u32>,
) -> bool {
    &&& b.dom() == a.dom()
    &&& b.dom().contains(p)
    &&& b.dom().contains(q)
    &&& b[q]@ == qw
    &&& p != q ==> b[p]@ == pw
    &&& forall|x: u32| x != p && x != q && b.dom().contains(x) ==> #[trigger] b[x] == a[x]
}

} // verus!
