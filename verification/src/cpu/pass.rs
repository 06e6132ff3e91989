//! A pass through a model on the processor: its operations in order.

use vstd::prelude::*;

use super::attention::{capacity, fits, place, sharing};
use super::cache::{
    addressable, attention_done, attention_ready, cache_of, kv_write_done, kv_write_ready,
};
use super::machine::{keeps_shape, shape_is_kept_throughout, CpuBackend};
use super::moe::{stack_fits, Held};
use super::run::{
    activate_done, activate_ready, attn_bits, binary_done, binary_ready, copy_done, copy_ready,
    experts_of, found, get_rows_done, get_rows_ready, glu_done, glu_ready, matmul_done,
    matmul_ready, moe_bits, moe_done, moe_ready, norm_done, norm_ready, rope_done, rope_ready,
    scale_done, softcap_done, takes,
};
use crate::backend::{AttnCfg, BinOp, KvView, MoeCfg, MoeWeights, NormCfg, RopeCfg, RopeKind};
use crate::device::{BufferId, WeightId};
use crate::dtype::DType;
use crate::error::Error;
use crate::model::graph::Op;
use crate::quant::dot::is_float;
use crate::quant::quantize::{q8_blocks, Q8_1_BLOCK};
use crate::single::{Arith, FloatOp, Ops};

verus! {

// ------------------------------------------------------------------------------ one operation

/// What an operation needs: that the buffers are as large as it says, and that what it counts
/// can be counted.
pub open spec fn op_ready(b: CpuBackend<'_>, f: Ops, op: Op, tokens: Seq<u32>) -> bool {
    match op {
        Op::GetRows { dst, weight, .. } => get_rows_ready(b, dst, weight, tokens),
        Op::Norm { dst, src, cfg, .. } => norm_ready(b, dst, src, cfg),
        Op::MatMul { dst, weight, src, cfg } => matmul_ready(b, dst, weight, src, cfg),
        Op::Rope { q, k, cfg } => rope_ready(b, q, Some(k), cfg),
        Op::KvWrite { kv, k, v, start_pos, n_tokens, dim } => kv_write_ready(
            b,
            kv,
            k,
            v,
            start_pos,
            n_tokens,
            dim,
        ),
        Op::Attention { dst, q, kv, cfg } => attention_ready(b, f, dst, q, kv, cfg),
        Op::Glu { dst, gate, up, cfg } => glu_ready(b, dst, gate, up, cfg),
        Op::Activate { cfg, .. } => activate_ready(cfg),
        Op::Moe { dst, src, w, cfg } => moe_ready(b, f, dst, src, w, cfg),
        Op::Binary { dst, a, b: y, n, .. } => binary_ready(b, dst, a, y, n),
        Op::Scale { .. } => true,
        Op::Softcap { .. } => true,
        Op::Copy { dst_off, src_off, bytes, .. } => copy_ready(dst_off, src_off, bytes),
        Op::Submit => true,
    }
}

/// What an operation leaves.
pub open spec fn op_done(
    before: CpuBackend<'_>,
    after: CpuBackend<'_>,
    r: Result<(), Error>,
    f: Ops,
    op: Op,
    tokens: Seq<u32>,
    positions: Seq<i32>,
) -> bool {
    match op {
        Op::GetRows { dst, weight, scale } => get_rows_done(
            before,
            after,
            r,
            f,
            dst,
            weight,
            tokens,
            scale,
        ),
        Op::Norm { dst, src, weight, cfg } => norm_done(before, after, r, f, dst, src, weight, cfg),
        Op::MatMul { dst, weight, src, cfg } => matmul_done(
            before,
            after,
            r,
            f,
            dst,
            weight,
            src,
            cfg,
        ),
        Op::Rope { q, k, cfg } => rope_done(before, after, r, f, q, Some(k), positions, cfg),
        Op::KvWrite { kv, k, v, start_pos, n_tokens, dim } => kv_write_done(
            before,
            after,
            r,
            f,
            kv,
            k,
            v,
            start_pos,
            n_tokens,
            dim,
        ),
        Op::Attention { dst, q, kv, cfg } => attention_done(before, after, r, f, dst, q, kv, cfg),
        Op::Glu { dst, gate, up, cfg } => glu_done(before, after, r, f, dst, gate, up, cfg),
        Op::Activate { buf, cfg } => activate_done(before, after, r, f, buf, cfg),
        Op::Moe { dst, src, w, cfg } => moe_done(before, after, r, f, dst, src, w, cfg),
        Op::Binary { dst, a, b, op: o, n } => binary_done(before, after, r, f, dst, a, b, o, n),
        Op::Scale { buf, factor, n } => scale_done(before, after, r, f, buf, factor, n),
        Op::Softcap { buf, cap, n } => softcap_done(before, after, r, f, buf, cap, n),
        Op::Copy { dst, dst_off, src, src_off, bytes } => copy_done(
            before,
            after,
            r,
            dst,
            dst_off,
            src,
            src_off,
            bytes,
        ),
        Op::Submit => r is Ok && after == before,
    }
}

impl<'a> CpuBackend<'a> {
    /// Carries out one operation of a pass over `tokens`. There is nothing to submit: every
    /// operation is done when it returns.
    pub fn step<A: Fn(FloatOp, u32, u32) -> u32>(
        &mut self,
        m: &Arith<A>,
        op: &Op,
        tokens: &[u32],
        positions: &[i32],
    ) -> (r: Result<(), Error>)
        requires
            m.works(),
            old(self).wf(),
            op_ready(*old(self), m.ops(), *op, tokens@),
        ensures
            final(self).wf(),
            final(self).weights == old(self).weights,
            keeps_shape(old(self).buffers, final(self).buffers),
            op_done(*old(self), *final(self), r, m.ops(), *op, tokens@, positions@),
    {
        match *op {
            Op::GetRows { dst, weight, scale } => self.get_rows(m, dst, weight, tokens, scale),
            Op::Norm { dst, src, weight, cfg } => self.norm(m, dst, src, weight, cfg),
            Op::MatMul { dst, weight, src, cfg } => self.matmul(m, dst, weight, src, cfg),
            Op::Rope { q, k, cfg } => self.rope(m, q, Some(k), positions, cfg),
            Op::KvWrite { kv, k, v, start_pos, n_tokens, dim } => self.kv_write(
                m,
                &kv,
                k,
                v,
                start_pos,
                n_tokens,
                dim,
            ),
            Op::Attention { dst, q, kv, cfg } => self.attention(m, dst, q, &kv, cfg),
            Op::Glu { dst, gate, up, cfg } => self.glu(m, dst, gate, up, cfg),
            Op::Activate { buf, cfg } => self.activate(m, buf, cfg),
            Op::Moe { dst, src, w, cfg } => self.moe(m, dst, src, &w, cfg),
            Op::Binary { dst, a, b, op: o, n } => self.binary(m, dst, a, b, o, n),
            Op::Scale { buf, factor, n } => self.scale(m, buf, factor, n),
            Op::Softcap { buf, cap, n } => self.softcap(m, buf, cap, n),
            Op::Copy { dst, dst_off, src, src_off, bytes } => self.copy(
                dst,
                dst_off,
                src,
                src_off,
                bytes,
            ),
            Op::Submit => Ok(()),
        }
    }
}

/// The product of three counts, which fits.
fn product(x: u32, y: u32, z: u32) -> (r: u128)
    ensures
        r == x * y * z,
{
    assert(x * y <= 0xffff_ffff * 0xffff_ffff) by (nonlinear_arith)
        requires
            0 <= x <= 0xffff_ffff,
            0 <= y <= 0xffff_ffff,
    ;
    let xy = x as u128 * y as u128;
    assert(xy * z <= 0xffff_ffff * 0xffff_ffff * 0xffff_ffff) by (nonlinear_arith)
        requires
            0 <= xy <= 0xffff_ffff * 0xffff_ffff,
            0 <= z <= 0xffff_ffff,
    ;
    xy * z as u128
}

fn product_of_two(x: u32, y: u32) -> (r: u128)
    ensures
        r == x * y,
        r <= 0xffff_fffe_0000_0001,
{
    assert(x * y <= 0xffff_ffff * 0xffff_ffff) by (nonlinear_arith)
        requires
            0 <= x <= 0xffff_ffff,
            0 <= y <= 0xffff_ffff,
    ;
    x as u128 * y as u128
}

impl<'a> CpuBackend<'a> {
    /// Whether a buffer can take so many words, where it is there.
    fn has_room(&self, id: BufferId, n: u128) -> (r: bool)
        ensures
            r == takes(self.buffers@, id.0, n as int),
    {
        match self.buffers.get(id.0) {
            Some(v) => n <= v.len() as u128,
            None => true,
        }
    }

    fn bias_has_room(&self, id: Option<BufferId>, n: u128) -> (r: bool)
        ensures
            r == (id matches Some(b) ==> takes(self.buffers@, b.0, n as int)),
    {
        match id {
            Some(b) => self.has_room(b, n),
            None => true,
        }
    }

    fn rope_is_ready(&self, q: BufferId, k: BufferId, cfg: &RopeCfg) -> (r: bool)
        ensures
            r == rope_ready(*self, q, Some(k), *cfg),
    {
        let turns = cfg.kind != RopeKind::NoRope;
        let room = !turns || self.has_room(q, product(cfg.n_tokens, cfg.n_heads, cfg.head_dim))
            && self.has_room(k, product(cfg.n_tokens, cfg.n_kv_heads, cfg.head_dim));
        let counts = product_of_two(cfg.n_tokens, cfg.n_heads) <= usize::MAX as u128
            && product_of_two(cfg.n_tokens, cfg.n_kv_heads) <= usize::MAX as u128;
        let pairs = cfg.kind != RopeKind::Norm || (cfg.n_rot % 2 == 0 || cfg.n_rot != cfg.head_dim)
            && (cfg.n_rot <= cfg.head_dim || cfg.head_dim % 2 == 0);
        room && counts && pairs
    }

    fn is_addressable(&self, id: BufferId) -> (r: bool)
        ensures
            r == addressable(self.buffers@, id),
    {
        match self.buffers.get(id.0) {
            Some(v) => v.len() as u128 * 2 <= usize::MAX as u128,
            None => true,
        }
    }

    fn kv_write_is_ready(
        &self,
        kv: &KvView,
        k: BufferId,
        v: BufferId,
        start_pos: u32,
        n_tokens: u32,
        dim: u32,
    ) -> (r: bool)
        ensures
            r == kv_write_ready(*self, *kv, k, v, start_pos, n_tokens, dim),
    {
        let n = product_of_two(n_tokens, dim);
        let end = kv.base as u128 + start_pos as u128 + n_tokens as u128;
        assert(0 <= end * kv.stride <= 0x3_0000_0000 * 0xffff_ffff) by (nonlinear_arith)
            requires
                0 <= end <= 0x3_0000_0000,
                0 <= kv.stride <= 0xffff_ffff,
        ;
        self.has_room(k, n) && self.has_room(v, n) && kv.k != k && kv.v != v && kv.base as u64
            + start_pos as u64 <= u32::MAX as u64 && end <= usize::MAX as u128 && end
            * kv.stride as u128 + dim as u128 <= usize::MAX as u128 && self.is_addressable(kv.k)
            && self.is_addressable(kv.v)
    }

    /// Whether every position that attention reads lies in a cache.
    fn cache_fits<A: Fn(FloatOp, u32, u32) -> u32>(
        &self,
        m: &Arith<A>,
        kv: &KvView,
        cfg: &AttnCfg,
        id: BufferId,
    ) -> (r: bool)
        requires
            cfg.n_kv_heads > 0,
        ensures
            r == (self.buffers@.dom().contains(id.0) ==> fits(
                attn_bits(m.ops(), *cfg, *kv),
                capacity(cache_of(self.buffers@, kv.dtype, id)),
            )),
    {
        match self.buffers.get(id.0) {
            Some(v) => {
                if cfg.n_heads == 0 || cfg.kv_len == 0 {
                    return true;
                }
                let ghost c = attn_bits(m.ops(), *cfg, *kv);
                let room = if kv.dtype == DType::F16 {
                    v.len() as u128 * 2
                } else {
                    v.len() as u128
                };
                let per: u32 = cfg.n_heads / cfg.n_kv_heads;
                let group: u32 = if per > 0 {
                    per
                } else {
                    1
                };
                assert(group == sharing(c));
                let head: u32 = (cfg.n_heads - 1) / group;
                let row: u128 = kv.base as u128 + (cfg.kv_len - 1) as u128;
                assert(0 <= row * kv.stride <= 0x2_0000_0000 * 0xffff_ffff) by (nonlinear_arith)
                    requires
                        0 <= row <= 0x2_0000_0000,
                        0 <= kv.stride <= 0xffff_ffff,
                ;
                let at: u128 = row * kv.stride as u128 + product_of_two(head, cfg.head_dim);
                assert(at == place(c, c.n_heads - 1, c.kv_len - 1));
                at + cfg.head_dim as u128 <= room
            },
            None => true,
        }
    }

    fn attention_is_ready<A: Fn(FloatOp, u32, u32) -> u32>(
        &self,
        m: &Arith<A>,
        dst: BufferId,
        q: BufferId,
        kv: &KvView,
        cfg: &AttnCfg,
    ) -> (r: bool)
        ensures
            r == attention_ready(*self, m.ops(), dst, q, *kv, *cfg),
    {
        if cfg.n_kv_heads == 0 {
            return false;
        }
        let n = product(cfg.n_tokens, cfg.n_heads, cfg.head_dim);
        self.has_room(dst, n) && self.has_room(q, n) && product_of_two(cfg.n_tokens, cfg.n_heads)
            <= usize::MAX as u128 && cfg.start_pos as u128 + cfg.n_tokens as u128
            <= usize::MAX as u128 && self.is_addressable(kv.k) && self.is_addressable(kv.v)
            && self.cache_fits(m, kv, cfg, kv.k) && self.cache_fits(m, kv, cfg, kv.v)
    }

    /// Whether the slices of the experts of a weight can be told, where it is there, and its
    /// rows are as long as they should be.
    fn experts_are_ready(&self, id: WeightId, n: u32, rows: u32, cols: u32) -> (r: bool)
        requires
            self.wf(),
        ensures
            r == (stack_fits(found(self.weights@, id.0), n as int, rows as int) && (found(
                self.weights@,
                id.0,
            ) matches Held::Here(g) ==> g.cols == cols)),
    {
        match self.weights.get(id.0) {
            Some(g) => {
                let all = product_of_two(n, rows);
                let len = g.row_bytes() as u128;
                assert(0 <= all * len < 0x1_0000_0000_0000_0000 * 0x1_0000_0000_0000_0000)
                    by (nonlinear_arith)
                    requires
                        0 <= all < 0x1_0000_0000_0000_0000,
                        0 <= len < 0x1_0000_0000_0000_0000,
                ;
                all * len <= usize::MAX as u128 && all <= usize::MAX as u128 && g.cols as u64
                    == cols as u64
            },
            None => true,
        }
    }

    fn moe_is_ready<A: Fn(FloatOp, u32, u32) -> u32>(
        &self,
        m: &Arith<A>,
        dst: BufferId,
        src: BufferId,
        w: &MoeWeights,
        cfg: &MoeCfg,
    ) -> (r: bool)
        requires
            self.wf(),
        ensures
            r == moe_ready(*self, m.ops(), dst, src, *w, *cfg),
    {
        let n = product_of_two(cfg.n_tokens, cfg.n_embd);
        if !self.has_room(dst, n) || !self.has_room(src, n) || !self.bias_has_room(
            w.exp_probs_b,
            cfg.n_expert as u128,
        ) {
            return false;
        }
        match self.weights.get(w.gate_inp.0) {
            Some(router) => {
                let ghost e = experts_of(self.weights@, *w);
                let ghost c = moe_bits(m.ops(), *cfg);
                let len = router.row_bytes() as u128;
                assert(0 <= cfg.n_expert * len < 0x1_0000_0000 * 0x1_0000_0000_0000_0000)
                    by (nonlinear_arith)
                    requires
                        0 <= cfg.n_expert < 0x1_0000_0000,
                        0 <= len < 0x1_0000_0000_0000_0000,
                ;
                let routed = router.cols as u64 == cfg.n_embd as u64 && cfg.n_expert as u128 * len
                    <= router.data.len() as u128;
                let staged = blocks_fit(cfg.n_embd) && blocks_fit(cfg.n_ff);
                let gate = match w.gate_exps {
                    Some(g) => self.experts_are_ready(g, cfg.n_expert, cfg.n_ff, cfg.n_embd),
                    None => true,
                };
                let up = self.experts_are_ready(w.up_exps, cfg.n_expert, cfg.n_ff, cfg.n_embd);
                let down = self.experts_are_ready(w.down_exps, cfg.n_expert, cfg.n_embd, cfg.n_ff);
                assert(gate == (e.gate matches Some(g) ==> stack_fits(
                    g,
                    c.n_expert as int,
                    c.n_ff as int,
                ) && (g matches Held::Here(x) ==> x.cols == c.n_embd)));
                routed && staged && gate && up && down
            },
            None => true,
        }
    }

    /// Whether an operation can be carried out. What it lacks would be an index out of range.
    pub fn is_ready<A: Fn(FloatOp, u32, u32) -> u32>(&self, m: &Arith<A>, op: &Op, tokens: &[u32]) -> (r:
        bool)
        requires
            self.wf(),
        ensures
            r == op_ready(*self, m.ops(), *op, tokens@),
    {
        match *op {
            Op::GetRows { dst, weight, .. } => match self.weights.get(weight.0) {
                Some(w) => {
                    let (x, y) = (tokens.len() as u128, w.cols as u128);
                    assert(0 <= x * y < 0x1_0000_0000_0000_0000 * 0x1_0000_0000_0000_0000)
                        by (nonlinear_arith)
                        requires
                            0 <= x < 0x1_0000_0000_0000_0000,
                            0 <= y < 0x1_0000_0000_0000_0000,
                    ;
                    w.rows > 0 && self.has_room(dst, x * y)
                },
                None => true,
            },
            Op::Norm { dst, src, cfg, .. } => {
                let n = product_of_two(cfg.n_tokens, cfg.dim);
                self.has_room(src, n) && self.has_room(dst, n)
            },
            Op::MatMul { dst, weight, src, cfg } => {
                let floats = match self.weights.get(weight.0) {
                    Some(w) => is_float(w.dtype),
                    None => false,
                };
                let n = product_of_two(cfg.n_tokens, cfg.n_in);
                assert(cfg.n_in * cfg.n_tokens == cfg.n_tokens * cfg.n_in) by (nonlinear_arith);
                self.has_room(dst, product_of_two(cfg.n_tokens, cfg.n_out)) && self.bias_has_room(
                    cfg.bias,
                    cfg.n_out as u128,
                ) && (!floats || self.has_room(src, n)) && n <= usize::MAX as u128 && blocks_fit(
                    cfg.n_in,
                )
            },
            Op::Rope { q, k, cfg } => self.rope_is_ready(q, k, &cfg),
            Op::KvWrite { kv, k, v, start_pos, n_tokens, dim } => self.kv_write_is_ready(
                &kv,
                k,
                v,
                start_pos,
                n_tokens,
                dim,
            ),
            Op::Attention { dst, q, kv, cfg } => self.attention_is_ready(m, dst, q, &kv, &cfg),
            Op::Glu { dst, gate, up, cfg } => {
                let n = product_of_two(cfg.dim, cfg.n_tokens);
                n <= u32::MAX as u128 && self.has_room(dst, n) && self.has_room(gate, n)
                    && self.has_room(up, n)
            },
            Op::Activate { cfg, .. } => product_of_two(cfg.dim, cfg.n_tokens) <= u32::MAX as u128,
            Op::Moe { dst, src, w, cfg } => self.moe_is_ready(m, dst, src, &w, &cfg),
            Op::Binary { dst, a, b, n, .. } => self.has_room(dst, n as u128) && self.has_room(
                a,
                n as u128,
            ) && (n == 0 || self.has_room(b, 1)),
            Op::Scale { .. } => true,
            Op::Softcap { .. } => true,
            Op::Copy { dst_off, src_off, bytes, .. } => (dst_off / 4) as u128 + (bytes / 4) as u128
                <= usize::MAX as u128 && (src_off / 4) as u128 + (bytes / 4) as u128
                <= usize::MAX as u128,
            Op::Submit => true,
        }
    }
}

/// Whether the quantized blocks of so many numbers can be told.
fn blocks_fit(n: u32) -> (r: bool)
    ensures
        r == (q8_blocks(n as nat) * Q8_1_BLOCK <= usize::MAX),
{
    (n as u128 + 31) / 32 * Q8_1_BLOCK as u128 <= usize::MAX as u128
}

// --------------------------------------------------------------------- two operations in one

/// What a residual addition followed by a norm leaves: what the addition leaves, and where it
/// did not fail, what the norm leaves of that.
pub open spec fn add_norm_done(
    before: CpuBackend<'_>,
    mid: CpuBackend<'_>,
    added: Result<(), Error>,
    after: CpuBackend<'_>,
    r: Result<(), Error>,
    f: Ops,
    dst: BufferId,
    residual: BufferId,
    delta: BufferId,
    weight: Option<BufferId>,
    cfg: NormCfg,
) -> bool {
    let n = (cfg.dim * cfg.n_tokens) as u32;
    &&& binary_done(before, mid, added, f, residual, residual, delta, BinOp::Add, n)
    &&& match added {
        Ok(_) => norm_done(mid, after, r, f, dst, residual, weight, cfg),
        Err(e) => r matches Err(x) && x == e && after == mid,
    }
}

impl<'a> CpuBackend<'a> {
    /// Residual add followed by a norm, the shape every transformer block repeats twice:
    /// `residual += delta; dst = norm(residual)`.
    pub fn add_norm<A: Fn(FloatOp, u32, u32) -> u32>(
        &mut self,
        m: &Arith<A>,
        dst: BufferId,
        residual: BufferId,
        delta: BufferId,
        weight: Option<BufferId>,
        cfg: NormCfg,
    ) -> (r: Result<(), Error>)
        requires
            m.works(),
            old(self).wf(),
            cfg.dim * cfg.n_tokens <= u32::MAX,
            binary_ready(
                *old(self),
                residual,
                residual,
                delta,
                (cfg.dim * cfg.n_tokens) as u32,
            ),
            norm_ready(*old(self), dst, residual, cfg),
        ensures
            final(self).wf(),
            final(self).weights == old(self).weights,
            keeps_shape(old(self).buffers, final(self).buffers),
            exists|mid: CpuBackend<'a>, added: Result<(), Error>| #[trigger]
                add_norm_done(
                    *old(self),
                    mid,
                    added,
                    *final(self),
                    r,
                    m.ops(),
                    dst,
                    residual,
                    delta,
                    weight,
                    cfg,
                ),
    {
        let ghost start = *self;
        let added = self.binary(
            m,
            residual,
            residual,
            delta,
            BinOp::Add,
            cfg.dim * cfg.n_tokens,
        );
        let ghost mid = *self;
        match added {
            Err(e) => {
                let r = Err(e);
                assert(add_norm_done(
                    start, mid, added, *self, r, m.ops(), dst, residual, delta, weight, cfg,
                ));
                r
            },
            Ok(_) => {
                let r = self.norm(m, dst, residual, weight, cfg);
                proof {
                    shape_is_kept_throughout(start.buffers, mid.buffers, self.buffers);
                    assert(add_norm_done(
                        start, mid, added, *self, r, m.ops(), dst, residual, delta, weight, cfg,
                    ));
                }
                r
            },
        }
    }
}

// ------------------------------------------------------------------------------ the whole pass

/// What an operation needs does not depend on what the buffers hold, so what the operations
/// before it did cannot take it away.
pub proof fn readiness_is_kept(
    before: CpuBackend<'_>,
    after: CpuBackend<'_>,
    f: Ops,
    op: Op,
    tokens: Seq<u32>,
)
    requires
        op_ready(before, f, op, tokens),
        after.weights == before.weights,
        keeps_shape(before.buffers, after.buffers),
    ensures
        op_ready(after, f, op, tokens),
{
}

/// Whether the first `n` operations lead through `trace`, each without an error.
pub open spec fn runs(
    trace: Seq<CpuBackend<'_>>,
    f: Ops,
    ops: Seq<Op>,
    tokens: Seq<u32>,
    positions: Seq<i32>,
    n: int,
) -> bool {
    forall|i: int|
        0 <= i < n ==> op_done(
            trace[i],
            trace[i + 1],
            Ok(()),
            f,
            #[trigger] ops[i],
            tokens,
            positions,
        )
}

/// Whether a pass led from the first state of `trace` to its last: through all operations, or
/// up to the first one that failed.
pub open spec fn passes(
    trace: Seq<CpuBackend<'_>>,
    r: Result<(), Error>,
    f: Ops,
    ops: Seq<Op>,
    tokens: Seq<u32>,
    positions: Seq<i32>,
) -> bool {
    let n = trace.len() - 1;
    &&& 0 <= n <= ops.len()
    &&& match r {
        Ok(_) => n == ops.len() && runs(trace, f, ops, tokens, positions, n),
        Err(_) => n > 0 && runs(trace, f, ops, tokens, positions, n - 1) && op_done(
            trace[n - 1],
            trace[n],
            r,
            f,
            ops[n - 1],
            tokens,
            positions,
        ),
    }
}

impl<'a> CpuBackend<'a> {
    /// Carries out the operations of a pass in order, up to the first one that fails.
    pub fn pass<A: Fn(FloatOp, u32, u32) -> u32>(
        &mut self,
        m: &Arith<A>,
        ops: &[Op],
        tokens: &[u32],
        positions: &[i32],
    ) -> (r: Result<(), Error>)
        requires
            m.works(),
            old(self).wf(),
            forall|i: int|
                0 <= i < ops@.len() ==> op_ready(*old(self), m.ops(), #[trigger] ops@[i], tokens@),
        ensures
            final(self).wf(),
            final(self).weights == old(self).weights,
            keeps_shape(old(self).buffers, final(self).buffers),
            exists|trace: Seq<CpuBackend<'a>>| #[trigger]
                passes(trace, r, m.ops(), ops@, tokens@, positions@) && trace[0] == *old(self)
                    && trace.last() == *final(self),
    {
        let ghost f = m.ops();
        let ghost start = *self;
        let ghost mut trace = seq![*self];
        let mut i: usize = 0;
        while i < ops.len()
            invariant
                m.works(),
                f == m.ops(),
                start == *old(self),
                start.wf(),
                self.wf(),
                i <= ops@.len(),
                self.weights == start.weights,
                keeps_shape(start.buffers, self.buffers),
                forall|k: int|
                    0 <= k < ops@.len() ==> op_ready(start, f, #[trigger] ops@[k], tokens@),
                trace.len() == i + 1,
                trace[0] == start,
                trace.last() == *self,
                runs(trace, f, ops@, tokens@, positions@, i as int),
            decreases ops@.len() - i,
        {
            let ghost here = *self;
            proof {
                assert(op_ready(start, f, ops@[i as int], tokens@));
                readiness_is_kept(start, *self, f, ops@[i as int], tokens@);
            }
            let r = self.step(m, &ops[i], tokens, positions);
            let ghost longer = trace.push(*self);
            proof {
                shape_is_kept_throughout(start.buffers, here.buffers, self.buffers);
                assert(runs(longer, f, ops@, tokens@, positions@, i as int)) by {
                    assert forall|k: int| 0 <= k < i implies op_done(
                        longer[k],
                        longer[k + 1],
                        Ok(()),
                        f,
                        #[trigger] ops@[k],
                        tokens@,
                        positions@,
                    ) by {
                        assert(op_done(
                            trace[k],
                            trace[k + 1],
                            Ok(()),
                            f,
                            ops@[k],
                            tokens@,
                            positions@,
                        ));
                    }
                }
            }
            match r {
                Ok(_) => {
                    proof {
                        trace = longer;
                    }
                },
                Err(e) => {
                    let out: Result<(), Error> = Err(e);
                    assert(passes(longer, out, f, ops@, tokens@, positions@));
                    return out;
                },
            }
            i = i + 1;
        }
        assert(passes(trace, Ok(()), f, ops@, tokens@, positions@));
        Ok(())
    }
}

} // verus!
