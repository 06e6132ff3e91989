//! Mixture of experts, kept entirely on the device: routing, the experts' products and the
//! weighted sum all run there.

use vstd::prelude::*;
use vstd::string::*;

use super::cuda::{
    act_code, at, blocks_of, call, code_of, grid_1d, grid_of, kernel, need_buffer, need_kernel,
    need_opt, need_suffix, need_weight, opt_at, stage_steps, staged_bytes, tail_of, weight_at,
    CudaBackend, CudaWeight, KernelCall, Steps, ROWS_PER_BLOCK, WARP,
};
use super::cuda_ops::{named, no_suffix, product, rows_grid, Stock};
use super::launch::{pack, Arg, Launch};
use super::plan::Plan;
use crate::backend::{GateFunc, MoeCfg, MoeWeights};
use crate::device::{BufferId, WeightId};
use crate::quant::dot::{float_type, is_float};
use crate::scalar::value_of;
use crate::single::{Arith, FloatOp, Ops, UNIT};

verus! {

/// Where the scratch areas of a mixture of experts lie.
#[derive(Debug, Clone, Copy)]
pub struct Areas {
    /// A quantized activation.
    pub staged: u64,
    /// The router's logits, the experts selected and their weights.
    pub routing: u64,
    /// Each token's activation once per expert it goes to.
    pub slots: u64,
    /// What the two input projections yield.
    pub hidden: u64,
    /// The quantized input of the down projection.
    pub down: u64,
}

/// How large the areas have to be.
#[derive(Debug, Clone, Copy, PartialEq, Eq, Structural)]
pub struct AreaSizes {
    pub staged: u64,
    pub routing: u64,
    pub slots: u64,
    pub hidden: u64,
    pub down: u64,
}

/// The expert slots of a pass.
pub open spec fn slots_of(c: MoeCfg) -> int {
    c.n_tokens * c.n_expert_used
}

pub open spec fn logits_bytes(c: MoeCfg) -> int {
    c.n_expert * c.n_tokens * 4
}

pub open spec fn hidden_bytes(c: MoeCfg) -> int {
    c.n_ff * slots_of(c) * 4
}

/// Where the numbers of the selected experts lie.
pub open spec fn picks_at(c: MoeCfg, a: Areas) -> u64 {
    (a.routing + logits_bytes(c)) as u64
}

/// Where their weights lie.
pub open spec fn shares_at(c: MoeCfg, a: Areas) -> u64 {
    (a.routing + logits_bytes(c) + slots_of(c) * 4) as u64
}

pub open spec fn up_at(c: MoeCfg, a: Areas) -> u64 {
    (a.hidden + hidden_bytes(c)) as u64
}

/// Whether all that is counted fits its type.
pub open spec fn counts_fit(c: MoeCfg) -> bool {
    &&& slots_of(c) * 4 <= u32::MAX
    &&& logits_bytes(c) <= u32::MAX
    &&& c.n_expert + 3 <= u32::MAX
    &&& c.n_embd + 3 <= u32::MAX
    &&& c.n_ff + 3 <= u32::MAX
    &&& c.n_tokens + 63 <= u32::MAX
    &&& blocks_of(c.n_embd as int) * c.n_tokens + 255 <= u32::MAX
    &&& blocks_of(c.n_embd as int) * slots_of(c) + 255 <= u32::MAX
    &&& blocks_of(c.n_ff as int) * slots_of(c) + 255 <= u32::MAX
    &&& c.n_ff * slots_of(c) + 255 <= u32::MAX
    &&& c.n_embd * c.n_tokens + 255 <= u32::MAX
}

/// Whether the areas lie where addresses can be told.
pub open spec fn areas_fit(c: MoeCfg, a: Areas) -> bool {
    &&& a.routing + logits_bytes(c) + slots_of(c) * 4 <= u64::MAX
    &&& a.hidden + hidden_bytes(c) <= u64::MAX
}

/// One expert's product per slot.
pub open spec fn expert_steps(
    s: Stock,
    weight: WeightId,
    x: u64,
    out: u64,
    n_out: u32,
    picks: u64,
    c: MoeCfg,
) -> Steps {
    let w = weight_at(s.w, weight);
    let name = "moe_mm_"@ + tail_of(w.dtype);
    seq![
        need_weight(s.w, weight, "MoE expert weight is missing"@),
        need_suffix(w.dtype, " has no CUDA kernel"@),
        need_kernel(s.k, name),
        call(
            name,
            name,
            seq![
                Arg::Ptr(w.ptr),
                Arg::Ptr(x),
                Arg::Ptr(picks),
                Arg::Ptr(out),
                Arg::Int(n_out as i32),
                Arg::Int(c.n_expert_used as i32),
                Arg::Int(c.n_tokens as i32),
                Arg::Int(w.row_len() as i32),
                Arg::Int(blocks_of(w.cols as int) as i32),
                // Experts are stacked contiguously, so one expert's slice is a byte offset.
                Arg::Long((n_out * w.row_len()) as u64),
            ],
            rows_grid(n_out, slots_of(c) as u32),
            (WARP, ROWS_PER_BLOCK, 1),
            0,
        ),
    ]
}

pub open spec fn router_steps(s: Stock, src: BufferId, gate: WeightId, a: Areas, c: MoeCfg) -> Steps {
    let w = weight_at(s.w, gate);
    let front = seq![
        need_weight(s.w, gate, "MoE router weight is missing"@),
        need_suffix(w.dtype, " has no CUDA kernel"@),
        need_kernel(s.k, "mul_mat_"@ + tail_of(w.dtype)),
    ];
    let x = if float_type(w.dtype) {
        at(s.b, src)
    } else {
        a.staged
    };
    let prepare = if float_type(w.dtype) {
        seq![need_buffer(s.b, src)]
    } else {
        stage_steps(s.b, s.k, src, a.staged, c.n_embd, c.n_tokens)
    };
    (front + prepare).push(product(w, x, a.routing, 0, c.n_embd, c.n_expert, c.n_tokens))
}

pub open spec fn route_steps(s: Stock, f: Ops, bias: Option<BufferId>, a: Areas, c: MoeCfg) -> Steps {
    seq![
        need_opt(s.b, bias),
        need_kernel(s.k, "moe_route"@),
        call(
            "moe_route"@,
            "moe_route"@,
            seq![
                Arg::Ptr(a.routing),
                Arg::Ptr(opt_at(s.b, bias)),
                Arg::Ptr(picks_at(c, a)),
                Arg::Ptr(shares_at(c, a)),
                Arg::Int(c.n_expert as i32),
                Arg::Int(c.n_expert_used as i32),
                Arg::Int(c.n_tokens as i32),
                Arg::Int(
                    if c.gate_func == GateFunc::Softmax {
                        0i32
                    } else {
                        1i32
                    },
                ),
                Arg::Int(
                    if c.norm_topk {
                        1i32
                    } else {
                        0i32
                    },
                ),
                Arg::Single(value_of(f, c.scale)),
            ],
            grid_of(c.n_tokens, 64),
            (64, 1, 1),
            0,
        ),
    ]
}

/// Each token's quantized activation, once for every expert it goes to.
pub open spec fn scatter_steps(s: Stock, src: BufferId, a: Areas, c: MoeCfg) -> Steps {
    let blocks = blocks_of(c.n_embd as int) as u32;
    stage_steps(s.b, s.k, src, a.staged, c.n_embd, c.n_tokens) + seq![
        need_kernel(s.k, "moe_scatter"@),
        call(
            "moe_scatter"@,
            "moe_scatter"@,
            seq![
                Arg::Ptr(a.staged),
                Arg::Ptr(a.slots),
                Arg::Int(blocks as i32),
                Arg::Int(c.n_expert_used as i32),
                Arg::Int(c.n_tokens as i32),
            ],
            grid_of((blocks * slots_of(c)) as u32, 256),
            (256, 1, 1),
            0,
        ),
    ]
}

pub open spec fn gate_steps(s: Stock, gated: bool, a: Areas, c: MoeCfg) -> Steps {
    let n = (c.n_ff * slots_of(c)) as u32;
    seq![
        need_kernel(s.k, "moe_glu"@),
        call(
            "moe_glu"@,
            "moe_glu"@,
            seq![
                Arg::Ptr(a.hidden),
                Arg::Ptr(up_at(c, a)),
                Arg::Int(n as i32),
                Arg::Int(code_of(c.act)),
                Arg::Int(
                    if gated {
                        1i32
                    } else {
                        0i32
                    },
                ),
                Arg::Single(UNIT),
            ],
            grid_of(n, 256),
            (256, 1, 1),
            0,
        ),
    ]
}

/// The down projection needs its input quantized.
pub open spec fn quantize_steps(s: Stock, a: Areas, c: MoeCfg) -> Steps {
    let blocks = blocks_of(c.n_ff as int) as u32;
    seq![
        need_kernel(s.k, "quantize_q8_1"@),
        call(
            "quantize_q8_1"@,
            "quantize_q8_1"@,
            seq![
                Arg::Ptr(a.hidden),
                Arg::Ptr(a.down),
                Arg::Int(c.n_ff as i32),
                Arg::Int(blocks as i32),
                Arg::Int(slots_of(c) as i32),
            ],
            grid_of((blocks * slots_of(c)) as u32, 256),
            (256, 1, 1),
            0,
        ),
    ]
}

/// The weighted sum back into one row per token.
pub open spec fn reduce_steps(s: Stock, dst: BufferId, a: Areas, c: MoeCfg) -> Steps {
    seq![
        need_buffer(s.b, dst),
        need_kernel(s.k, "moe_reduce"@),
        call(
            "moe_reduce"@,
            "moe_reduce"@,
            seq![
                Arg::Ptr(at(s.b, dst)),
                Arg::Ptr(a.hidden),
                Arg::Ptr(shares_at(c, a)),
                Arg::Int(c.n_embd as i32),
                Arg::Int(c.n_expert_used as i32),
                Arg::Int(c.n_tokens as i32),
            ],
            grid_of((c.n_embd * c.n_tokens) as u32, 256),
            (256, 1, 1),
            0,
        ),
    ]
}

/// All of it in order. The down projection writes per-slot rows over those of the first one.
pub open spec fn moe_steps(
    s: Stock,
    f: Ops,
    dst: BufferId,
    src: BufferId,
    w: MoeWeights,
    a: Areas,
    c: MoeCfg,
) -> Steps {
    let picks = picks_at(c, a);
    let gate = match w.gate_exps {
        Some(g) => expert_steps(s, g, a.slots, a.hidden, c.n_ff, picks, c),
        None => Seq::empty(),
    };
    router_steps(s, src, w.gate_inp, a, c) + route_steps(s, f, w.exp_probs_b, a, c)
        + scatter_steps(s, src, a, c) + gate + expert_steps(
        s,
        w.up_exps,
        a.slots,
        up_at(c, a),
        c.n_ff,
        picks,
        c,
    ) + gate_steps(s, w.gate_exps is Some, a, c) + quantize_steps(s, a, c) + expert_steps(
        s,
        w.down_exps,
        a.down,
        a.hidden,
        c.n_embd,
        picks,
        c,
    ) + reduce_steps(s, dst, a, c)
}

/// Whether a weight's numbers can be told.
pub open spec fn weight_fits(w: CudaWeight, n_out: u32) -> bool {
    &&& w.cols + 31 <= usize::MAX
    &&& n_out * w.row_len() <= u64::MAX
}

impl CudaBackend {
    /// How large the scratch areas have to be.
    pub fn area_sizes(cfg: &MoeCfg) -> (r: AreaSizes)
        requires
            counts_fit(*cfg),
            staged_bytes(cfg.n_embd as int, cfg.n_tokens as int) <= u64::MAX,
        ensures
            r.staged == staged_bytes(cfg.n_embd as int, cfg.n_tokens as int),
            r.routing == logits_bytes(*cfg) + slots_of(*cfg) * 8 + 4096,
            r.slots == blocks_of(cfg.n_embd as int) * 36 * slots_of(*cfg),
            r.hidden == hidden_bytes(*cfg) * 2,
            r.down == blocks_of(cfg.n_ff as int) * 36 * slots_of(*cfg),
    {
        let n = cfg.n_tokens * cfg.n_expert_used;
        let eb: u64 = (cfg.n_embd as u64 + 31) / 32;
        let fb: u64 = (cfg.n_ff as u64 + 31) / 32;
        assert(cfg.n_expert * cfg.n_tokens <= u32::MAX && cfg.n_expert * cfg.n_tokens >= 0)
            by (nonlinear_arith)
            requires
                cfg.n_expert * cfg.n_tokens * 4 <= u32::MAX,
                cfg.n_expert >= 0,
                cfg.n_tokens >= 0,
        ;
        assert(eb * 36 * n == 36 * (eb * n) && fb * 36 * n == 36 * (fb * n) && eb * n >= 0 && fb * n
            >= 0) by (nonlinear_arith)
            requires
                eb >= 0,
                fb >= 0,
                n >= 0,
        ;
        assert(cfg.n_ff * n >= 0) by (nonlinear_arith)
            requires
                n >= 0,
        ;
        AreaSizes {
            staged: Self::stage_bytes(cfg.n_embd, cfg.n_tokens),
            routing: (cfg.n_expert * cfg.n_tokens) as u64 * 4 + n as u64 * 8 + 4096,
            slots: eb * 36 * n as u64,
            hidden: cfg.n_ff as u64 * n as u64 * 4 * 2,
            down: fb * 36 * n as u64,
        }
    }

    /// Lays out one expert's product per slot.
    fn moe_matmul(
        &self,
        p: &mut Plan<KernelCall>,
        weight: WeightId,
        x: u64,
        out: u64,
        n_out: u32,
        picks: u64,
        cfg: &MoeCfg,
    )
        requires
            self.wf(),
            old(p).wf(),
            n_out + 3 <= u32::MAX,
            slots_of(*cfg) <= u32::MAX,
            weight_fits(weight_at(self.weights@, weight), n_out),
        ensures
            final(p).wf(),
            final(p).steps@ == old(p).steps@ + expert_steps(
                self.stock(),
                weight,
                x,
                out,
                n_out,
                picks,
                *cfg,
            ),
    {
        let ghost before = p.steps@;
        p.need(self.no_weight(weight, "MoE expert weight is missing"));
        let w = self.weight(weight);
        p.need(no_suffix(w.dtype, " has no CUDA kernel"));
        let name = named("moe_mm_", w.dtype);
        p.need(self.no_kernel(name.as_str()));
        let stride = n_out as u64 * w.row_bytes() as u64;
        let args = Launch::new().ptr(w.ptr).ptr(x).ptr(picks).ptr(out).i32(n_out as i32).i32(
            cfg.n_expert_used as i32,
        ).i32(cfg.n_tokens as i32).i32(w.row_bytes() as i32).i32(((w.cols + 31) / 32) as i32).u64(
            stride,
        );
        proof {
            assert(args@ =~= pack(
                seq![
                    Arg::Ptr(w.ptr),
                    Arg::Ptr(x),
                    Arg::Ptr(picks),
                    Arg::Ptr(out),
                    Arg::Int(n_out as i32),
                    Arg::Int(cfg.n_expert_used as i32),
                    Arg::Int(cfg.n_tokens as i32),
                    Arg::Int(w.row_len() as i32),
                    Arg::Int(blocks_of(w.cols as int) as i32),
                    Arg::Long((n_out * w.row_len()) as u64),
                ],
            ));
        }
        let grid = ((n_out + 3) / 4, cfg.n_tokens * cfg.n_expert_used, 1);
        p.call(kernel(name.as_str(), name.as_str(), args, grid, (WARP, ROWS_PER_BLOCK, 1), 0));
        assert(p.steps@ =~= before + expert_steps(
            self.stock(),
            weight,
            x,
            out,
            n_out,
            picks,
            *cfg,
        ));
    }

    fn plan_router(
        &self,
        p: &mut Plan<KernelCall>,
        src: BufferId,
        gate: WeightId,
        a: &Areas,
        cfg: &MoeCfg,
    )
        requires
            self.wf(),
            old(p).wf(),
            counts_fit(*cfg),
            weight_at(self.weights@, gate).cols + 31 <= usize::MAX,
        ensures
            final(p).wf(),
            final(p).steps@ == old(p).steps@ + router_steps(self.stock(), src, gate, *a, *cfg),
    {
        let ghost before = p.steps@;
        p.need(self.no_weight(gate, "MoE router weight is missing"));
        let w = self.weight(gate);
        p.need(no_suffix(w.dtype, " has no CUDA kernel"));
        p.need(self.no_kernel(named("mul_mat_", w.dtype).as_str()));
        let x = if is_float(w.dtype) {
            p.need(self.no_buffer(src));
            self.dptr(src)
        } else {
            self.stage(p, src, a.staged, cfg.n_embd, cfg.n_tokens);
            a.staged
        };
        self.product(p, &w, x, a.routing, 0, cfg.n_embd, cfg.n_expert, cfg.n_tokens);
        assert(p.steps@ =~= before + router_steps(self.stock(), src, gate, *a, *cfg));
    }

    fn plan_route<A: Fn(FloatOp, u32, u32) -> u32>(
        &self,
        m: &Arith<A>,
        p: &mut Plan<KernelCall>,
        bias: Option<BufferId>,
        a: &Areas,
        cfg: &MoeCfg,
    )
        requires
            m.works(),
            old(p).wf(),
            counts_fit(*cfg),
            areas_fit(*cfg, *a),
        ensures
            final(p).wf(),
            final(p).steps@ == old(p).steps@ + route_steps(self.stock(), m.ops(), bias, *a, *cfg),
    {
        let ghost before = p.steps@;
        let ghost f = m.ops();
        let (picks, shares) = Self::tables(cfg, a);
        p.need(self.no_opt(bias));
        p.need(self.no_kernel("moe_route"));
        let func: i32 = match cfg.gate_func {
            GateFunc::Softmax => 0,
            GateFunc::Sigmoid => 1,
        };
        let norm: i32 = if cfg.norm_topk {
            1
        } else {
            0
        };
        let args = Launch::new().ptr(a.routing).ptr(self.opt_dptr(bias)).ptr(picks).ptr(shares).i32(
            cfg.n_expert as i32,
        ).i32(cfg.n_expert_used as i32).i32(cfg.n_tokens as i32).i32(func).i32(norm).single(
            m.value(cfg.scale),
        );
        proof {
            assert(args@ =~= pack(
                seq![
                    Arg::Ptr(a.routing),
                    Arg::Ptr(opt_at(self.buffers@, bias)),
                    Arg::Ptr(picks_at(*cfg, *a)),
                    Arg::Ptr(shares_at(*cfg, *a)),
                    Arg::Int(cfg.n_expert as i32),
                    Arg::Int(cfg.n_expert_used as i32),
                    Arg::Int(cfg.n_tokens as i32),
                    Arg::Int(func),
                    Arg::Int(norm),
                    Arg::Single(value_of(f, cfg.scale)),
                ],
            ));
        }
        p.call(
            kernel("moe_route", "moe_route", args, grid_1d(cfg.n_tokens, 64), (64, 1, 1), 0),
        );
        assert(p.steps@ =~= before + route_steps(self.stock(), f, bias, *a, *cfg));
    }

    /// Where the selected experts and their weights lie.
    fn tables(cfg: &MoeCfg, a: &Areas) -> (r: (u64, u64))
        requires
            counts_fit(*cfg),
            areas_fit(*cfg, *a),
        ensures
            r.0 == picks_at(*cfg, *a),
            r.1 == shares_at(*cfg, *a),
    {
        assert(cfg.n_expert * cfg.n_tokens >= 0 && slots_of(*cfg) >= 0) by (nonlinear_arith)
            requires
                slots_of(*cfg) == cfg.n_tokens * cfg.n_expert_used,
                cfg.n_expert >= 0,
                cfg.n_tokens >= 0,
                cfg.n_expert_used >= 0,
        ;
        let picks = a.routing + (cfg.n_expert * cfg.n_tokens) as u64 * 4;
        (picks, picks + (cfg.n_tokens * cfg.n_expert_used) as u64 * 4)
    }

    fn plan_scatter(&self, p: &mut Plan<KernelCall>, src: BufferId, a: &Areas, cfg: &MoeCfg)
        requires
            old(p).wf(),
            counts_fit(*cfg),
        ensures
            final(p).wf(),
            final(p).steps@ == old(p).steps@ + scatter_steps(self.stock(), src, *a, *cfg),
    {
        let ghost before = p.steps@;
        self.stage(p, src, a.staged, cfg.n_embd, cfg.n_tokens);
        p.need(self.no_kernel("moe_scatter"));
        let n = cfg.n_tokens * cfg.n_expert_used;
        let blocks: u32 = ((cfg.n_embd as u64 + 31) / 32) as u32;
        let args = Launch::new().ptr(a.staged).ptr(a.slots).i32(blocks as i32).i32(
            cfg.n_expert_used as i32,
        ).i32(cfg.n_tokens as i32);
        proof {
            assert(args@ =~= pack(
                seq![
                    Arg::Ptr(a.staged),
                    Arg::Ptr(a.slots),
                    Arg::Int(blocks as i32),
                    Arg::Int(cfg.n_expert_used as i32),
                    Arg::Int(cfg.n_tokens as i32),
                ],
            ));
        }
        p.call(
            kernel("moe_scatter", "moe_scatter", args, grid_1d(blocks * n, 256), (256, 1, 1), 0),
        );
        assert(p.steps@ =~= before + scatter_steps(self.stock(), src, *a, *cfg));
    }

    fn plan_gate(&self, p: &mut Plan<KernelCall>, gated: bool, a: &Areas, cfg: &MoeCfg)
        requires
            old(p).wf(),
            counts_fit(*cfg),
            areas_fit(*cfg, *a),
        ensures
            final(p).wf(),
            final(p).steps@ == old(p).steps@ + gate_steps(self.stock(), gated, *a, *cfg)
                + quantize_steps(self.stock(), *a, *cfg),
    {
        let ghost before = p.steps@;
        let slots = cfg.n_tokens * cfg.n_expert_used;
        let n = cfg.n_ff * slots;
        let up = a.hidden + cfg.n_ff as u64 * slots as u64 * 4;
        p.need(self.no_kernel("moe_glu"));
        let has: i32 = if gated {
            1
        } else {
            0
        };
        let args = Launch::new().ptr(a.hidden).ptr(up).i32(n as i32).i32(act_code(cfg.act)).i32(
            has,
        ).single(UNIT);
        proof {
            assert(args@ =~= pack(
                seq![
                    Arg::Ptr(a.hidden),
                    Arg::Ptr(up_at(*cfg, *a)),
                    Arg::Int(n as i32),
                    Arg::Int(code_of(cfg.act)),
                    Arg::Int(has),
                    Arg::Single(UNIT),
                ],
            ));
        }
        p.call(kernel("moe_glu", "moe_glu", args, grid_1d(n, 256), (256, 1, 1), 0));
        p.need(self.no_kernel("quantize_q8_1"));
        let blocks: u32 = ((cfg.n_ff as u64 + 31) / 32) as u32;
        let args = Launch::new().ptr(a.hidden).ptr(a.down).i32(cfg.n_ff as i32).i32(
            blocks as i32,
        ).i32(slots as i32);
        proof {
            assert(args@ =~= pack(
                seq![
                    Arg::Ptr(a.hidden),
                    Arg::Ptr(a.down),
                    Arg::Int(cfg.n_ff as i32),
                    Arg::Int(blocks as i32),
                    Arg::Int(slots_of(*cfg) as i32),
                ],
            ));
        }
        p.call(
            kernel(
                "quantize_q8_1",
                "quantize_q8_1",
                args,
                grid_1d(blocks * slots, 256),
                (256, 1, 1),
                0,
            ),
        );
        assert(p.steps@ =~= before + gate_steps(self.stock(), gated, *a, *cfg) + quantize_steps(
            self.stock(),
            *a,
            *cfg,
        ));
    }

    fn plan_reduce(&self, p: &mut Plan<KernelCall>, dst: BufferId, a: &Areas, cfg: &MoeCfg)
        requires
            old(p).wf(),
            counts_fit(*cfg),
            areas_fit(*cfg, *a),
        ensures
            final(p).wf(),
            final(p).steps@ == old(p).steps@ + reduce_steps(self.stock(), dst, *a, *cfg),
    {
        let ghost before = p.steps@;
        let (_, shares) = Self::tables(cfg, a);
        p.need(self.no_buffer(dst));
        p.need(self.no_kernel("moe_reduce"));
        let n = cfg.n_embd * cfg.n_tokens;
        let args = Launch::new().ptr(self.dptr(dst)).ptr(a.hidden).ptr(shares).i32(
            cfg.n_embd as i32,
        ).i32(cfg.n_expert_used as i32).i32(cfg.n_tokens as i32);
        proof {
            assert(args@ =~= pack(
                seq![
                    Arg::Ptr(at(self.buffers@, dst)),
                    Arg::Ptr(a.hidden),
                    Arg::Ptr(shares_at(*cfg, *a)),
                    Arg::Int(cfg.n_embd as i32),
                    Arg::Int(cfg.n_expert_used as i32),
                    Arg::Int(cfg.n_tokens as i32),
                ],
            ));
        }
        p.call(kernel("moe_reduce", "moe_reduce", args, grid_1d(n, 256), (256, 1, 1), 0));
        assert(p.steps@ =~= before + reduce_steps(self.stock(), dst, *a, *cfg));
    }

    /// Mixture of experts.
    pub fn moe<A: Fn(FloatOp, u32, u32) -> u32>(
        &self,
        m: &Arith<A>,
        dst: BufferId,
        src: BufferId,
        w: &MoeWeights,
        a: &Areas,
        cfg: MoeCfg,
    ) -> (r: Plan<KernelCall>)
        requires
            m.works(),
            self.wf(),
            counts_fit(cfg),
            areas_fit(cfg, *a),
            weight_at(self.weights@, w.gate_inp).cols + 31 <= usize::MAX,
            w.gate_exps matches Some(g) ==> weight_fits(weight_at(self.weights@, g), cfg.n_ff),
            weight_fits(weight_at(self.weights@, w.up_exps), cfg.n_ff),
            weight_fits(weight_at(self.weights@, w.down_exps), cfg.n_embd),
        ensures
            r.follows(moe_steps(self.stock(), m.ops(), dst, src, *w, *a, cfg)),
    {
        let ghost want = moe_steps(self.stock(), m.ops(), dst, src, *w, *a, cfg);
        let mut p = Plan::new();
        let (picks, _) = Self::tables(&cfg, a);
        let slots = cfg.n_tokens * cfg.n_expert_used;
        let up = a.hidden + cfg.n_ff as u64 * slots as u64 * 4;
        self.plan_router(&mut p, src, w.gate_inp, a, &cfg);
        self.plan_route(m, &mut p, w.exp_probs_b, a, &cfg);
        self.plan_scatter(&mut p, src, a, &cfg);
        if let Some(g) = w.gate_exps {
            self.moe_matmul(&mut p, g, a.slots, a.hidden, cfg.n_ff, picks, &cfg);
        }
        self.moe_matmul(&mut p, w.up_exps, a.slots, up, cfg.n_ff, picks, &cfg);
        self.plan_gate(&mut p, w.gate_exps.is_some(), a, &cfg);
        self.moe_matmul(&mut p, w.down_exps, a.down, a.hidden, cfg.n_embd, picks, &cfg);
        self.plan_reduce(&mut p, dst, a, &cfg);
        assert(p.steps@ =~= want);
        p
    }
}

} // verus!
