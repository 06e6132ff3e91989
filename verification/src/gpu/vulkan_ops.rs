//! The operations of a pass as Vulkan dispatches.

use vstd::prelude::*;
use vstd::string::*;

use super::cuda::code_of;
use super::cuda_ops::{kernel_range, op_code};
use super::plan::{Plan, Step};
use super::vulkan::{
    act_code, at, dispatch, dispatch_of, flag, flag_of, groups, groups_of, need_buffer, need_opt,
    need_weight, opt_at, weight_at, Bufs, Dispatch, Kernel, Steps, Stock, VulkanBackend, WG,
};
use crate::backend::{
    rotates, turns_fit, AttnCfg, BinOp, GluCfg, KvView, MatMulCfg, NormCfg, NormKind, RopeCfg,
    RopeKind,
};
use crate::cpu::rope::RopeBits;
use crate::device::{BufferId, WeightId};
use crate::dtype::DType;
use crate::error::{Error, ErrorView};
use crate::scalar::{value_of, Scalar};
use crate::single::{at_most, is_at_most, is_equal, Arith, FloatOp, Ops, UNIT};
use crate::text::{cat3, dec, decimal};

verus! {

pub open spec fn get_rows_steps(
    s: Stock,
    f: Ops,
    dst: BufferId,
    weight: WeightId,
    tokens: u64,
    n: u32,
    scale: Scalar,
) -> Steps {
    let w = weight_at(s.w, weight);
    seq![
        need_weight(s.w, weight),
        need_buffer(s.b, dst),
        dispatch(
            Kernel::GetRows(w.dtype),
            seq![w.handle, tokens, at(s.b, dst)],
            seq![w.rows as u32, w.cols as u32, w.row_len() as u32, value_of(f, scale), n],
            (n, 1, 1),
        ),
    ]
}

pub open spec fn norm_steps(
    s: Stock,
    f: Ops,
    dst: BufferId,
    src: BufferId,
    weight: Option<BufferId>,
    c: NormCfg,
) -> Steps {
    seq![
        need_buffer(s.b, dst),
        need_buffer(s.b, src),
        need_opt(s.b, weight),
        need_opt(s.b, c.bias),
        dispatch(
            Kernel::Norm,
            seq![
                at(s.b, src),
                at(s.b, dst),
                opt_at(s.b, s.null, weight),
                opt_at(s.b, s.null, c.bias),
            ],
            seq![
                c.dim,
                flag(c.kind == NormKind::Layer),
                value_of(f, c.eps),
                value_of(f, c.scale),
                flag(weight is Some),
                flag(c.bias is Some),
            ],
            (
                if c.n_tokens > 1 {
                    c.n_tokens
                } else {
                    1u32
                },
                1,
                1,
            ),
        ),
    ]
}

pub open spec fn matmul_steps(
    s: Stock,
    dst: BufferId,
    weight: WeightId,
    src: BufferId,
    c: MatMulCfg,
) -> Steps {
    let w = weight_at(s.w, weight);
    seq![
        need_weight(s.w, weight),
        need_buffer(s.b, dst),
        need_buffer(s.b, src),
        need_opt(s.b, c.bias),
        dispatch(
            Kernel::MatMul(w.dtype),
            seq![w.handle, at(s.b, src), at(s.b, dst), opt_at(s.b, s.null, c.bias)],
            seq![c.n_in, c.n_out, c.n_tokens, w.row_len() as u32, flag(c.bias is Some)],
            (c.n_out, 1, 1),
        ),
    ]
}

/// A dense buffer is a single-precision weight as far as the shader is concerned.
pub open spec fn dense_steps(
    s: Stock,
    dst: BufferId,
    weight: BufferId,
    src: BufferId,
    c: MatMulCfg,
) -> Steps {
    seq![
        need_buffer(s.b, dst),
        need_buffer(s.b, weight),
        need_buffer(s.b, src),
        need_opt(s.b, c.bias),
        dispatch(
            Kernel::MatMul(DType::F32),
            seq![at(s.b, weight), at(s.b, src), at(s.b, dst), opt_at(s.b, s.null, c.bias)],
            seq![c.n_in, c.n_out, c.n_tokens, (c.n_in * 4) as u32, flag(c.bias is Some)],
            (c.n_out, 1, 1),
        ),
    ]
}

pub open spec fn turn(s: Stock, f: Ops, buf: BufferId, pos: u64, heads: u32, c: RopeCfg) -> Steps {
    let range = kernel_range(f, c);
    seq![
        need_buffer(s.b, buf),
        dispatch(
            Kernel::Rope,
            seq![at(s.b, buf), pos, opt_at(s.b, s.null, c.freq_factors)],
            seq![
                heads,
                c.head_dim,
                c.n_rot,
                c.n_tokens,
                flag(c.kind != RopeKind::Norm),
                flag(c.freq_factors is Some),
                value_of(f, c.freq_base),
                value_of(f, c.freq_scale),
                value_of(f, c.ext_factor),
                value_of(f, c.attn_factor),
                range.0,
                range.1,
            ],
            groups_of((c.n_tokens * heads * (c.n_rot / 2)) as u32, WG),
        ),
    ]
}

pub open spec fn rope_steps(
    s: Stock,
    f: Ops,
    q: BufferId,
    k: Option<BufferId>,
    pos: u64,
    c: RopeCfg,
) -> Steps {
    if c.kind == RopeKind::NoRope || c.n_rot == 0 {
        Seq::empty()
    } else {
        seq![need_opt(s.b, c.freq_factors)] + turn(s, f, q, pos, c.n_heads, c) + match k {
            Some(x) => turn(s, f, x, pos, c.n_kv_heads, c),
            None => Seq::empty(),
        }
    }
}

pub open spec fn kv_write_steps(
    s: Stock,
    kv: KvView,
    k: BufferId,
    v: BufferId,
    start_pos: u32,
    n: u32,
    dim: u32,
) -> Steps {
    let is_half = kv.dtype == DType::F16;
    // Half precision packs two values per word, so half as many invocations cover the data.
    let total = if is_half {
        dim * n / 2
    } else {
        dim * n
    };
    seq![
        need_buffer(s.b, k),
        need_buffer(s.b, v),
        need_buffer(s.b, kv.k),
        need_buffer(s.b, kv.v),
        dispatch(
            Kernel::KvWrite(is_half),
            seq![at(s.b, k), at(s.b, v), at(s.b, kv.k), at(s.b, kv.v)],
            seq![dim, kv.stride, kv.base, start_pos, n],
            groups_of(total as u32, WG),
        ),
    ]
}

/// How many parts the keys are split into: enough to keep the device busy, but never so few keys
/// per part that combining them costs more than it saves.
pub open spec fn splits_of(c: AttnCfg) -> u32 {
    let hb = if c.n_heads * c.n_tokens > 1 {
        c.n_heads * c.n_tokens
    } else {
        1
    };
    let want = 2048int / hb;
    let capped = if want < 1 {
        1
    } else if want > 32 {
        32
    } else {
        want
    };
    let by_length = if c.kv_len / 64 > 1 {
        c.kv_len as int / 64
    } else {
        1
    };
    (if capped < by_length {
        capped
    } else {
        by_length
    }) as u32
}

pub open spec fn partial_bytes(c: AttnCfg) -> int {
    c.n_heads * c.n_tokens * splits_of(c) * (c.head_dim + 2) * 4
}

pub open spec fn attention_steps(
    s: Stock,
    f: Ops,
    dst: BufferId,
    q: BufferId,
    kv: KvView,
    partial: u64,
    c: AttnCfg,
) -> Steps {
    let hb = (c.n_heads * c.n_tokens) as u32;
    let splits = splits_of(c);
    if c.head_dim > 256 {
        seq![
            Step::Need(
                Some(
                    ErrorView::Unsupported(
                        "head_dim "@ + dec(c.head_dim as nat)
                            + " exceeds the 256 this backend's attention shader stages in shared                  memory"@,
                    ),
                ),
            ),
        ]
    } else {
        seq![
            need_buffer(s.b, dst),
            need_buffer(s.b, q),
            need_buffer(s.b, kv.k),
            need_buffer(s.b, kv.v),
            need_opt(s.b, c.sinks),
            dispatch(
                Kernel::Attention(kv.dtype == DType::F16),
                seq![at(s.b, q), at(s.b, kv.k), at(s.b, kv.v), partial],
                seq![
                    c.n_heads,
                    c.n_kv_heads,
                    c.head_dim,
                    c.n_tokens,
                    c.kv_len,
                    c.start_pos,
                    kv.stride,
                    kv.base,
                    value_of(f, c.scale),
                    value_of(f, c.softcap),
                    c.window,
                    splits,
                ],
                (hb, splits, 1),
            ),
            dispatch(
                Kernel::AttnCombine,
                seq![partial, at(s.b, dst), opt_at(s.b, s.null, c.sinks)],
                seq![c.n_heads, c.head_dim, c.n_tokens, splits, flag(c.sinks is Some)],
                (hb, 1, 1),
            ),
        ]
    }
}

/// What an elementwise shader is told.
pub open spec fn element_words(
    n: u32,
    bn: u32,
    op: u32,
    act: u32,
    limit: u32,
    alpha: u32,
    value: u32,
) -> Seq<u32> {
    seq![n, bn, op, act, limit, alpha, value]
}

pub open spec fn at_least(n: u32) -> u32 {
    if n > 1 {
        n
    } else {
        1
    }
}

pub open spec fn glu_steps(
    s: Stock,
    f: Ops,
    dst: BufferId,
    gate: BufferId,
    up: BufferId,
    c: GluCfg,
) -> Steps {
    let n = (c.dim * c.n_tokens) as u32;
    seq![
        need_buffer(s.b, dst),
        need_buffer(s.b, gate),
        need_buffer(s.b, up),
        dispatch(
            Kernel::Elementwise,
            seq![at(s.b, dst), at(s.b, gate), at(s.b, up)],
            element_words(
                n,
                at_least(n),
                3,
                code_of(c.act) as u32,
                value_of(f, c.limit),
                value_of(f, c.alpha),
                0,
            ),
            groups_of(n, WG),
        ),
    ]
}

pub open spec fn activate_steps(s: Stock, f: Ops, buf: BufferId, c: GluCfg) -> Steps {
    let n = (c.dim * c.n_tokens) as u32;
    seq![
        need_buffer(s.b, buf),
        dispatch(
            Kernel::Elementwise,
            seq![at(s.b, buf), s.null, s.null],
            element_words(
                n,
                at_least(n),
                4,
                code_of(c.act) as u32,
                value_of(f, c.limit),
                value_of(f, c.alpha),
                0,
            ),
            groups_of(n, WG),
        ),
    ]
}

/// The elements of the second operand: it is repeated where it is shorter.
pub open spec fn repeat_of(b: Bufs, id: BufferId, n: u32) -> u32 {
    let have = if b.dom().contains(id.0) {
        (b[id.0].bytes / 4) as u32
    } else {
        0
    };
    at_least(
        if have < n {
            have
        } else {
            n
        },
    )
}

pub open spec fn binary_steps(
    s: Stock,
    dst: BufferId,
    a: BufferId,
    b: BufferId,
    op: BinOp,
    n: u32,
) -> Steps {
    seq![
        need_buffer(s.b, b),
        need_buffer(s.b, dst),
        need_buffer(s.b, a),
        dispatch(
            Kernel::Elementwise,
            seq![at(s.b, dst), at(s.b, a), at(s.b, b)],
            element_words(n, repeat_of(s.b, b, n), op_code(op) as u32, 0, 0, UNIT, 0),
            groups_of(n, WG),
        ),
    ]
}

/// An operation on a buffer in place with one number.
pub open spec fn in_place(s: Stock, op: u32, buf: BufferId, value: u32, n: u32) -> Steps {
    seq![
        need_buffer(s.b, buf),
        dispatch(
            Kernel::Elementwise,
            seq![at(s.b, buf), s.null, s.null],
            element_words(n, at_least(n), op, 0, 0, UNIT, value),
            groups_of(n, WG),
        ),
    ]
}

pub open spec fn softcap_steps(s: Stock, f: Ops, buf: BufferId, cap: Scalar, n: u32) -> Steps {
    if at_most(value_of(f, cap), 0) {
        Seq::empty()
    } else {
        in_place(s, 6, buf, value_of(f, cap), n)
    }
}

fn one_or(n: u32) -> (r: u32)
    ensures
        r == at_least(n),
{
    if n > 1 {
        n
    } else {
        1
    }
}

impl VulkanBackend {
    /// `dst[t] = weight[tokens[t]] * scale`, for `n` tokens that the buffer `tokens` holds.
    pub fn get_rows<A: Fn(FloatOp, u32, u32) -> u32>(
        &self,
        m: &Arith<A>,
        dst: BufferId,
        weight: WeightId,
        tokens: u64,
        n: u32,
        scale: Scalar,
    ) -> (r: Plan<Dispatch>)
        requires
            m.works(),
            self.wf(),
        ensures
            r.follows(get_rows_steps(self.stock(), m.ops(), dst, weight, tokens, n, scale)),
    {
        let ghost want = get_rows_steps(self.stock(), m.ops(), dst, weight, tokens, n, scale);
        let mut p = Plan::new();
        p.need(self.no_weight(weight));
        let w = self.weight(weight);
        p.need(self.no_buffer(dst));
        let bufs = vec![w.handle, tokens, self.handle(dst)];
        let words = vec![
            w.rows as u32,
            w.cols as u32,
            w.row_bytes() as u32,
            m.value(scale),
            n,
        ];
        assert(bufs@ =~= seq![w.handle, tokens, at(self.buffers@, dst)]);
        assert(words@ =~= seq![
            w.rows as u32,
            w.cols as u32,
            w.row_len() as u32,
            value_of(m.ops(), scale),
            n,
        ]);
        p.call(dispatch_of(Kernel::GetRows(w.dtype), bufs, words, (n, 1, 1)));
        assert(p.steps@ =~= want);
        p
    }

    pub fn norm<A: Fn(FloatOp, u32, u32) -> u32>(
        &self,
        m: &Arith<A>,
        dst: BufferId,
        src: BufferId,
        weight: Option<BufferId>,
        cfg: NormCfg,
    ) -> (r: Plan<Dispatch>)
        requires
            m.works(),
        ensures
            r.follows(norm_steps(self.stock(), m.ops(), dst, src, weight, cfg)),
    {
        let ghost f = m.ops();
        let ghost s = self.stock();
        let mut p = Plan::new();
        p.need(self.no_buffer(dst));
        p.need(self.no_buffer(src));
        p.need(self.no_opt(weight));
        p.need(self.no_opt(cfg.bias));
        let layer = match cfg.kind {
            NormKind::Layer => true,
            NormKind::Rms => false,
        };
        let bufs = vec![
            self.handle(src),
            self.handle(dst),
            self.opt_handle(weight),
            self.opt_handle(cfg.bias),
        ];
        let words = vec![
            cfg.dim,
            flag_of(layer),
            m.value(cfg.eps),
            m.value(cfg.scale),
            flag_of(weight.is_some()),
            flag_of(cfg.bias.is_some()),
        ];
        assert(bufs@ =~= seq![
            at(s.b, src),
            at(s.b, dst),
            opt_at(s.b, s.null, weight),
            opt_at(s.b, s.null, cfg.bias),
        ]);
        assert(words@ =~= seq![
            cfg.dim,
            flag(cfg.kind == NormKind::Layer),
            value_of(f, cfg.eps),
            value_of(f, cfg.scale),
            flag(weight is Some),
            flag(cfg.bias is Some),
        ]);
        p.call(dispatch_of(Kernel::Norm, bufs, words, (one_or(cfg.n_tokens), 1, 1)));
        assert(p.steps@ =~= norm_steps(s, f, dst, src, weight, cfg));
        p
    }

    /// `dst = weight @ src`
    pub fn matmul(&self, dst: BufferId, weight: WeightId, src: BufferId, cfg: MatMulCfg) -> (r: Plan<
        Dispatch,
    >)
        requires
            self.wf(),
        ensures
            r.follows(matmul_steps(self.stock(), dst, weight, src, cfg)),
    {
        let ghost s = self.stock();
        let mut p = Plan::new();
        p.need(self.no_weight(weight));
        let w = self.weight(weight);
        p.need(self.no_buffer(dst));
        p.need(self.no_buffer(src));
        p.need(self.no_opt(cfg.bias));
        let bufs = vec![
            w.handle,
            self.handle(src),
            self.handle(dst),
            self.opt_handle(cfg.bias),
        ];
        let words = vec![
            cfg.n_in,
            cfg.n_out,
            cfg.n_tokens,
            w.row_bytes() as u32,
            flag_of(cfg.bias.is_some()),
        ];
        assert(bufs@ =~= seq![
            w.handle,
            at(s.b, src),
            at(s.b, dst),
            opt_at(s.b, s.null, cfg.bias),
        ]);
        assert(words@ =~= seq![
            cfg.n_in,
            cfg.n_out,
            cfg.n_tokens,
            w.row_len() as u32,
            flag(cfg.bias is Some),
        ]);
        p.call(dispatch_of(Kernel::MatMul(w.dtype), bufs, words, (cfg.n_out, 1, 1)));
        assert(p.steps@ =~= matmul_steps(s, dst, weight, src, cfg));
        p
    }

    /// The same for a weight that is a plain buffer.
    pub fn matmul_f32(&self, dst: BufferId, weight: BufferId, src: BufferId, cfg: MatMulCfg) -> (r:
        Plan<Dispatch>)
        requires
            cfg.n_in * 4 <= u32::MAX,
        ensures
            r.follows(dense_steps(self.stock(), dst, weight, src, cfg)),
    {
        let ghost s = self.stock();
        let mut p = Plan::new();
        p.need(self.no_buffer(dst));
        p.need(self.no_buffer(weight));
        p.need(self.no_buffer(src));
        p.need(self.no_opt(cfg.bias));
        let bufs = vec![
            self.handle(weight),
            self.handle(src),
            self.handle(dst),
            self.opt_handle(cfg.bias),
        ];
        let words = vec![
            cfg.n_in,
            cfg.n_out,
            cfg.n_tokens,
            cfg.n_in * 4,
            flag_of(cfg.bias.is_some()),
        ];
        assert(bufs@ =~= seq![
            at(s.b, weight),
            at(s.b, src),
            at(s.b, dst),
            opt_at(s.b, s.null, cfg.bias),
        ]);
        assert(words@ =~= seq![
            cfg.n_in,
            cfg.n_out,
            cfg.n_tokens,
            (cfg.n_in * 4) as u32,
            flag(cfg.bias is Some),
        ]);
        p.call(dispatch_of(Kernel::MatMul(DType::F32), bufs, words, (cfg.n_out, 1, 1)));
        assert(p.steps@ =~= dense_steps(s, dst, weight, src, cfg));
        p
    }

    /// Lays out the rotation of one buffer.
    fn turn<A: Fn(FloatOp, u32, u32) -> u32>(
        &self,
        m: &Arith<A>,
        p: &mut Plan<Dispatch>,
        buf: BufferId,
        pos: u64,
        heads: u32,
        cfg: &RopeCfg,
    )
        requires
            m.works(),
            old(p).wf(),
            cfg.n_tokens * heads <= u32::MAX,
            cfg.n_tokens * heads * (cfg.n_rot / 2) + 255 <= u32::MAX,
        ensures
            final(p).wf(),
            final(p).steps@ == old(p).steps@ + turn(self.stock(), m.ops(), buf, pos, heads, *cfg),
    {
        let ghost before = p.steps@;
        let ghost f = m.ops();
        let ghost s = self.stock();
        let ext = m.value(cfg.ext_factor);
        let range = if is_equal(ext, 0) || cfg.orig_ctx == 0 {
            (0, 0)
        } else {
            let c = RopeBits {
                kind: cfg.kind,
                head_dim: cfg.head_dim as usize,
                n_rot: cfg.n_rot,
                orig_ctx: cfg.orig_ctx,
                freq_base: m.value(cfg.freq_base),
                freq_scale: m.value(cfg.freq_scale),
                ext_factor: ext,
                attn_factor: m.value(cfg.attn_factor),
                beta_fast: m.value(cfg.beta_fast),
                beta_slow: m.value(cfg.beta_slow),
            };
            m.yarn_corr_dims(&c)
        };
        assert(range == kernel_range(f, *cfg));
        let apart = match cfg.kind {
            RopeKind::Norm => false,
            _ => true,
        };
        p.need(self.no_buffer(buf));
        let bufs = vec![self.handle(buf), pos, self.opt_handle(cfg.freq_factors)];
        let words = vec![
            heads,
            cfg.head_dim,
            cfg.n_rot,
            cfg.n_tokens,
            flag_of(apart),
            flag_of(cfg.freq_factors.is_some()),
            m.value(cfg.freq_base),
            m.value(cfg.freq_scale),
            ext,
            m.value(cfg.attn_factor),
            range.0,
            range.1,
        ];
        assert(bufs@ =~= seq![at(s.b, buf), pos, opt_at(s.b, s.null, cfg.freq_factors)]);
        assert(words@ =~= seq![
            heads,
            cfg.head_dim,
            cfg.n_rot,
            cfg.n_tokens,
            flag(cfg.kind != RopeKind::Norm),
            flag(cfg.freq_factors is Some),
            value_of(f, cfg.freq_base),
            value_of(f, cfg.freq_scale),
            value_of(f, cfg.ext_factor),
            value_of(f, cfg.attn_factor),
            range.0,
            range.1,
        ]);
        let total = cfg.n_tokens * heads * (cfg.n_rot / 2);
        p.call(dispatch_of(Kernel::Rope, bufs, words, groups(total, WG)));
        assert(p.steps@ =~= before + turn(s, f, buf, pos, heads, *cfg));
    }

    /// Rotates the heads of `q` and `k`; the buffer `pos` holds the positions.
    pub fn rope<A: Fn(FloatOp, u32, u32) -> u32>(
        &self,
        m: &Arith<A>,
        q: BufferId,
        k: Option<BufferId>,
        pos: u64,
        cfg: RopeCfg,
    ) -> (r: Plan<Dispatch>)
        requires
            m.works(),
            rotates(cfg) ==> turns_fit(cfg, cfg.n_heads),
            rotates(cfg) && k is Some ==> turns_fit(cfg, cfg.n_kv_heads),
        ensures
            r.follows(rope_steps(self.stock(), m.ops(), q, k, pos, cfg)),
    {
        let ghost want = rope_steps(self.stock(), m.ops(), q, k, pos, cfg);
        let mut p = Plan::new();
        let none = match cfg.kind {
            RopeKind::NoRope => true,
            _ => false,
        };
        if !none && cfg.n_rot != 0 {
            p.need(self.no_opt(cfg.freq_factors));
            self.turn(m, &mut p, q, pos, cfg.n_heads, &cfg);
            match k {
                Some(x) => {
                    self.turn(m, &mut p, x, pos, cfg.n_kv_heads, &cfg);
                },
                None => {},
            }
        }
        assert(p.steps@ =~= want);
        p
    }

    /// Scatters keys and values into the cache.
    pub fn kv_write(
        &self,
        kv: &KvView,
        k: BufferId,
        v: BufferId,
        start_pos: u32,
        n_tokens: u32,
        dim: u32,
    ) -> (r: Plan<Dispatch>)
        requires
            dim * n_tokens + 255 <= u32::MAX,
        ensures
            r.follows(kv_write_steps(self.stock(), *kv, k, v, start_pos, n_tokens, dim)),
    {
        let ghost s = self.stock();
        let is_half = kv.is_f16();
        let mut p = Plan::new();
        p.need(self.no_buffer(k));
        p.need(self.no_buffer(v));
        p.need(self.no_buffer(kv.k));
        p.need(self.no_buffer(kv.v));
        let bufs = vec![
            self.handle(k),
            self.handle(v),
            self.handle(kv.k),
            self.handle(kv.v),
        ];
        let words = vec![dim, kv.stride, kv.base, start_pos, n_tokens];
        assert(bufs@ =~= seq![at(s.b, k), at(s.b, v), at(s.b, kv.k), at(s.b, kv.v)]);
        assert(words@ =~= seq![dim, kv.stride, kv.base, start_pos, n_tokens]);
        let total = if is_half {
            dim * n_tokens / 2
        } else {
            dim * n_tokens
        };
        p.call(dispatch_of(Kernel::KvWrite(is_half), bufs, words, groups(total, WG)));
        assert(p.steps@ =~= kv_write_steps(s, *kv, k, v, start_pos, n_tokens, dim));
        p
    }

    /// How many parts the keys are split into.
    pub fn splits(cfg: &AttnCfg) -> (r: u32)
        requires
            cfg.n_heads * cfg.n_tokens <= u32::MAX,
        ensures
            r == splits_of(*cfg),
            1 <= r <= 32,
    {
        let hb = one_or(cfg.n_heads * cfg.n_tokens);
        let want = 2048u32 / hb;
        let capped = if want < 1 {
            1
        } else if want > 32 {
            32
        } else {
            want
        };
        let by_length = one_or(cfg.kv_len / 64);
        if capped < by_length {
            capped
        } else {
            by_length
        }
    }

    /// The bytes that the parts take before they are combined.
    pub fn partials(cfg: &AttnCfg) -> (r: u64)
        requires
            cfg.n_heads * cfg.n_tokens <= u32::MAX,
            partial_bytes(*cfg) <= u64::MAX,
        ensures
            r == partial_bytes(*cfg),
    {
        let n = Self::splits(cfg) as u64;
        let hb = (cfg.n_heads * cfg.n_tokens) as u64;
        let d = cfg.head_dim as u64 + 2;
        assert(hb * n <= hb * n * d && hb * n * d <= hb * n * d * 4 && hb * n >= 0)
            by (nonlinear_arith)
            requires
                hb >= 0,
                n >= 0,
                d >= 1,
        ;
        hb * n * d * 4
    }

    /// Attention over the cache: the parts of the keys, which go to the buffer `partial`, then
    /// what they come to together.
    pub fn attention<A: Fn(FloatOp, u32, u32) -> u32>(
        &self,
        m: &Arith<A>,
        dst: BufferId,
        q: BufferId,
        kv: &KvView,
        partial: u64,
        cfg: AttnCfg,
    ) -> (r: Plan<Dispatch>)
        requires
            m.works(),
            cfg.n_heads * cfg.n_tokens <= u32::MAX,
        ensures
            r.follows(attention_steps(self.stock(), m.ops(), dst, q, *kv, partial, cfg)),
    {
        let ghost f = m.ops();
        let ghost s = self.stock();
        let ghost want = attention_steps(s, f, dst, q, *kv, partial, cfg);
        let mut p = Plan::new();
        if cfg.head_dim > 256 {
            p.need(
                Some(
                    Error::Unsupported(
                        cat3(
                            "head_dim ",
                            decimal(cfg.head_dim as u64).as_str(),
                            " exceeds the 256 this backend's attention shader stages in shared                  memory",
                        ),
                    ),
                ),
            );
            assert(p.steps@ =~= want);
            return p;
        }
        let hb = cfg.n_heads * cfg.n_tokens;
        let n_splits = Self::splits(&cfg);
        p.need(self.no_buffer(dst));
        p.need(self.no_buffer(q));
        p.need(self.no_buffer(kv.k));
        p.need(self.no_buffer(kv.v));
        p.need(self.no_opt(cfg.sinks));
        let bufs = vec![self.handle(q), self.handle(kv.k), self.handle(kv.v), partial];
        let words = vec![
            cfg.n_heads,
            cfg.n_kv_heads,
            cfg.head_dim,
            cfg.n_tokens,
            cfg.kv_len,
            cfg.start_pos,
            kv.stride,
            kv.base,
            m.value(cfg.scale),
            m.value(cfg.softcap),
            cfg.window,
            n_splits,
        ];
        assert(bufs@ =~= seq![at(s.b, q), at(s.b, kv.k), at(s.b, kv.v), partial]);
        assert(words@ =~= seq![
            cfg.n_heads,
            cfg.n_kv_heads,
            cfg.head_dim,
            cfg.n_tokens,
            cfg.kv_len,
            cfg.start_pos,
            kv.stride,
            kv.base,
            value_of(f, cfg.scale),
            value_of(f, cfg.softcap),
            cfg.window,
            n_splits,
        ]);
        p.call(dispatch_of(Kernel::Attention(kv.is_f16()), bufs, words, (hb, n_splits, 1)));
        let bufs = vec![partial, self.handle(dst), self.opt_handle(cfg.sinks)];
        let words = vec![
            cfg.n_heads,
            cfg.head_dim,
            cfg.n_tokens,
            n_splits,
            flag_of(cfg.sinks.is_some()),
        ];
        assert(bufs@ =~= seq![partial, at(s.b, dst), opt_at(s.b, s.null, cfg.sinks)]);
        assert(words@ =~= seq![
            cfg.n_heads,
            cfg.head_dim,
            cfg.n_tokens,
            n_splits,
            flag(cfg.sinks is Some),
        ]);
        p.call(dispatch_of(Kernel::AttnCombine, bufs, words, (hb, 1, 1)));
        assert(p.steps@ =~= want);
        p
    }

    /// `dst = act(gate) * up`
    pub fn glu<A: Fn(FloatOp, u32, u32) -> u32>(
        &self,
        m: &Arith<A>,
        dst: BufferId,
        gate: BufferId,
        up: BufferId,
        cfg: GluCfg,
    ) -> (r: Plan<Dispatch>)
        requires
            m.works(),
            cfg.dim * cfg.n_tokens + 255 <= u32::MAX,
        ensures
            r.follows(glu_steps(self.stock(), m.ops(), dst, gate, up, cfg)),
    {
        let ghost f = m.ops();
        let ghost s = self.stock();
        let n = cfg.dim * cfg.n_tokens;
        let mut p = Plan::new();
        p.need(self.no_buffer(dst));
        p.need(self.no_buffer(gate));
        p.need(self.no_buffer(up));
        let bufs = vec![self.handle(dst), self.handle(gate), self.handle(up)];
        let words = vec![
            n,
            one_or(n),
            3,
            act_code(cfg.act),
            m.value(cfg.limit),
            m.value(cfg.alpha),
            0,
        ];
        assert(bufs@ =~= seq![at(s.b, dst), at(s.b, gate), at(s.b, up)]);
        assert(words@ =~= element_words(
            n,
            at_least(n),
            3,
            code_of(cfg.act) as u32,
            value_of(f, cfg.limit),
            value_of(f, cfg.alpha),
            0,
        ));
        p.call(dispatch_of(Kernel::Elementwise, bufs, words, groups(n, WG)));
        assert(p.steps@ =~= glu_steps(s, f, dst, gate, up, cfg));
        p
    }

    /// `buf = act(buf)`
    pub fn activate<A: Fn(FloatOp, u32, u32) -> u32>(
        &self,
        m: &Arith<A>,
        buf: BufferId,
        cfg: GluCfg,
    ) -> (r: Plan<Dispatch>)
        requires
            m.works(),
            cfg.dim * cfg.n_tokens + 255 <= u32::MAX,
        ensures
            r.follows(activate_steps(self.stock(), m.ops(), buf, cfg)),
    {
        let ghost f = m.ops();
        let ghost s = self.stock();
        let n = cfg.dim * cfg.n_tokens;
        let mut p = Plan::new();
        p.need(self.no_buffer(buf));
        let bufs = vec![self.handle(buf), self.null, self.null];
        let words = vec![
            n,
            one_or(n),
            4,
            act_code(cfg.act),
            m.value(cfg.limit),
            m.value(cfg.alpha),
            0,
        ];
        assert(bufs@ =~= seq![at(s.b, buf), s.null, s.null]);
        assert(words@ =~= element_words(
            n,
            at_least(n),
            4,
            code_of(cfg.act) as u32,
            value_of(f, cfg.limit),
            value_of(f, cfg.alpha),
            0,
        ));
        p.call(dispatch_of(Kernel::Elementwise, bufs, words, groups(n, WG)));
        assert(p.steps@ =~= activate_steps(s, f, buf, cfg));
        p
    }

    pub fn binary(&self, dst: BufferId, a: BufferId, b: BufferId, op: BinOp, n: u32) -> (r: Plan<
        Dispatch,
    >)
        requires
            n + 255 <= u32::MAX,
        ensures
            r.follows(binary_steps(self.stock(), dst, a, b, op, n)),
    {
        let ghost s = self.stock();
        let mut p = Plan::new();
        p.need(self.no_buffer(b));
        p.need(self.no_buffer(dst));
        p.need(self.no_buffer(a));
        let have: u32 = match self.buffers.get(b.0) {
            Some(x) => (x.bytes / 4) as u32,
            None => 0,
        };
        let bn = one_or(
            if have < n {
                have
            } else {
                n
            },
        );
        let code: u32 = match op {
            BinOp::Add => 0,
            BinOp::Mul => 1,
            BinOp::Sub => 2,
        };
        let bufs = vec![self.handle(dst), self.handle(a), self.handle(b)];
        let words = vec![n, bn, code, 0, 0, UNIT, 0];
        assert(bufs@ =~= seq![at(s.b, dst), at(s.b, a), at(s.b, b)]);
        assert(words@ =~= element_words(
            n,
            repeat_of(s.b, b, n),
            op_code(op) as u32,
            0,
            0,
            UNIT,
            0,
        ));
        p.call(dispatch_of(Kernel::Elementwise, bufs, words, groups(n, WG)));
        assert(p.steps@ =~= binary_steps(s, dst, a, b, op, n));
        p
    }

    fn number(&self, op: u32, buf: BufferId, value: u32, n: u32) -> (r: Plan<Dispatch>)
        requires
            n + 255 <= u32::MAX,
        ensures
            r.follows(in_place(self.stock(), op, buf, value, n)),
    {
        let ghost s = self.stock();
        let mut p = Plan::new();
        p.need(self.no_buffer(buf));
        let bufs = vec![self.handle(buf), self.null, self.null];
        let words = vec![n, one_or(n), op, 0, 0, UNIT, value];
        assert(bufs@ =~= seq![at(s.b, buf), s.null, s.null]);
        assert(words@ =~= element_words(n, at_least(n), op, 0, 0, UNIT, value));
        p.call(dispatch_of(Kernel::Elementwise, bufs, words, groups(n, WG)));
        assert(p.steps@ =~= in_place(s, op, buf, value, n));
        p
    }

    pub fn scale<A: Fn(FloatOp, u32, u32) -> u32>(
        &self,
        m: &Arith<A>,
        buf: BufferId,
        factor: Scalar,
        n: u32,
    ) -> (r: Plan<Dispatch>)
        requires
            m.works(),
            n + 255 <= u32::MAX,
        ensures
            r.follows(in_place(self.stock(), 5, buf, value_of(m.ops(), factor), n)),
    {
        self.number(5, buf, m.value(factor), n)
    }

    /// A cap that is not positive caps nothing.
    pub fn softcap<A: Fn(FloatOp, u32, u32) -> u32>(
        &self,
        m: &Arith<A>,
        buf: BufferId,
        cap: Scalar,
        n: u32,
    ) -> (r: Plan<Dispatch>)
        requires
            m.works(),
            n + 255 <= u32::MAX,
        ensures
            r.follows(softcap_steps(self.stock(), m.ops(), buf, cap, n)),
    {
        let c = m.value(cap);
        if is_at_most(c, 0) {
            return Plan::new();
        }
        self.number(6, buf, c, n)
    }

    pub fn fill(&self, buf: BufferId, value: u32, n: u32) -> (r: Plan<Dispatch>)
        requires
            n + 255 <= u32::MAX,
        ensures
            r.follows(in_place(self.stock(), 7, buf, value, n)),
    {
        self.number(7, buf, value, n)
    }
}

} // verus!
