//! Mixture of experts as Vulkan dispatches.

use vstd::prelude::*;

use super::cuda::code_of;
use super::plan::Plan;
use super::vulkan::{
    act_code, at, dispatch, dispatch_of, flag, flag_of, groups, groups_of, need_buffer, need_opt,
    need_weight, opt_at, weight_at, Dispatch, Kernel, Steps, Stock, VkWeight, VulkanBackend, WG,
};
use crate::backend::{GateFunc, MoeCfg, MoeWeights};
use crate::device::{BufferId, WeightId};
use crate::scalar::value_of;
use crate::single::{Arith, FloatOp, Ops, UNIT};

verus! {

/// The handles of the scratch buffers of a mixture of experts.
#[derive(Debug, Clone, Copy)]
pub struct Scratch {
    pub logits: u64,
    /// The numbers of the selected experts.
    pub picks: u64,
    /// Their weights.
    pub shares: u64,
    /// Each token's activation once per expert it goes to.
    pub slots: u64,
    pub gate: u64,
    pub up: u64,
    pub out: u64,
}

/// The bytes that the scratch buffers take, in the order of [`Scratch`].
#[derive(Debug, Clone, Copy, PartialEq, Eq, Structural)]
pub struct ScratchSizes {
    pub logits: u64,
    pub picks: u64,
    pub shares: u64,
    pub slots: u64,
    pub gate: u64,
    pub up: u64,
    pub out: u64,
}

/// The expert slots of a pass.
pub open spec fn slots_of(c: MoeCfg) -> int {
    c.n_tokens * c.n_expert_used
}

/// Whether all that is counted fits its type.
pub open spec fn counts_fit(c: MoeCfg) -> bool {
    &&& slots_of(c) * 4 <= u32::MAX
    &&& c.n_expert * c.n_tokens * 4 <= u32::MAX
    &&& c.n_embd * slots_of(c) * 4 <= u32::MAX - 1023
    &&& c.n_ff * slots_of(c) * 4 <= u32::MAX - 1023
    &&& c.n_embd * c.n_tokens <= u32::MAX - 255
    &&& c.n_tokens <= u32::MAX - 63
}

/// What the shader for everything but products and routing is told.
pub open spec fn misc_words(
    n: u32,
    dim: u32,
    c: MoeCfg,
    op: u32,
    act: u32,
    has_gate: u32,
) -> Seq<u32> {
    seq![n, dim, c.n_expert_used, c.n_tokens, op, act, has_gate, UNIT]
}

pub open spec fn router_steps(s: Stock, src: BufferId, gate: WeightId, a: Scratch, c: MoeCfg) -> Steps {
    let w = weight_at(s.w, gate);
    seq![
        need_weight(s.w, gate),
        need_buffer(s.b, src),
        dispatch(
            Kernel::MatMul(w.dtype),
            seq![w.handle, at(s.b, src), a.logits, s.null],
            seq![c.n_embd, c.n_expert, c.n_tokens, w.row_len() as u32, 0u32],
            (c.n_expert, 1, 1),
        ),
    ]
}

pub open spec fn route_steps(s: Stock, f: Ops, bias: Option<BufferId>, a: Scratch, c: MoeCfg) -> Steps {
    seq![
        need_opt(s.b, bias),
        dispatch(
            Kernel::MoeRoute,
            seq![a.logits, opt_at(s.b, s.null, bias), a.picks, a.shares],
            seq![
                c.n_expert,
                c.n_expert_used,
                c.n_tokens,
                flag(c.gate_func != GateFunc::Softmax),
                flag(c.norm_topk),
                flag(bias is Some),
                value_of(f, c.scale),
            ],
            groups_of(c.n_tokens, 64),
        ),
    ]
}

/// Each token's activation, once for every expert it goes to.
pub open spec fn scatter_steps(s: Stock, src: BufferId, a: Scratch, c: MoeCfg) -> Steps {
    let n = (c.n_embd * slots_of(c)) as u32;
    seq![
        need_buffer(s.b, src),
        dispatch(
            Kernel::MoeMisc,
            seq![a.slots, at(s.b, src), s.null],
            misc_words(n, c.n_embd, c, 0, 0, 0),
            groups_of(n, WG),
        ),
    ]
}

/// One expert's product per slot.
pub open spec fn expert_steps(
    s: Stock,
    weight: WeightId,
    x: u64,
    out: u64,
    n_out: u32,
    n_in: u32,
    picks: u64,
    c: MoeCfg,
) -> Steps {
    let w = weight_at(s.w, weight);
    seq![
        need_weight(s.w, weight),
        dispatch(
            Kernel::MoeMm(w.dtype),
            seq![w.handle, x, out, picks],
            seq![
                n_in,
                n_out,
                c.n_expert_used,
                c.n_tokens,
                w.row_len() as u32,
                (n_out * (w.row_len() as u32)) as u32,
            ],
            (n_out, slots_of(c) as u32, 1),
        ),
    ]
}

pub open spec fn gate_steps(s: Stock, gated: bool, a: Scratch, c: MoeCfg) -> Steps {
    let n = (c.n_ff * slots_of(c)) as u32;
    seq![
        dispatch(
            Kernel::MoeMisc,
            seq![a.gate, a.up, s.null],
            misc_words(n, c.n_ff, c, 1, code_of(c.act) as u32, flag(gated)),
            groups_of(n, WG),
        ),
    ]
}

/// The weighted sum back into one row per token.
pub open spec fn reduce_steps(s: Stock, dst: BufferId, a: Scratch, c: MoeCfg) -> Steps {
    let n = (c.n_embd * c.n_tokens) as u32;
    seq![
        need_buffer(s.b, dst),
        dispatch(
            Kernel::MoeMisc,
            seq![at(s.b, dst), a.out, a.shares],
            misc_words(n, c.n_embd, c, 2, 0, 0),
            groups_of(n, WG),
        ),
    ]
}

/// All of it in order.
pub open spec fn moe_steps(
    s: Stock,
    f: Ops,
    dst: BufferId,
    src: BufferId,
    w: MoeWeights,
    a: Scratch,
    c: MoeCfg,
) -> Steps {
    let gate = match w.gate_exps {
        Some(g) => expert_steps(s, g, a.slots, a.gate, c.n_ff, c.n_embd, a.picks, c),
        None => Seq::empty(),
    };
    router_steps(s, src, w.gate_inp, a, c) + route_steps(s, f, w.exp_probs_b, a, c)
        + scatter_steps(s, src, a, c) + gate + expert_steps(
        s,
        w.up_exps,
        a.slots,
        a.up,
        c.n_ff,
        c.n_embd,
        a.picks,
        c,
    ) + gate_steps(s, w.gate_exps is Some, a, c) + expert_steps(
        s,
        w.down_exps,
        a.gate,
        a.out,
        c.n_embd,
        c.n_ff,
        a.picks,
        c,
    ) + reduce_steps(s, dst, a, c)
}

/// Whether the bytes of an expert can be told.
pub open spec fn weight_fits(w: VkWeight, n_out: u32) -> bool {
    n_out * (w.row_len() as u32) <= u32::MAX
}

impl VulkanBackend {
    /// The bytes that the scratch buffers take.
    pub fn scratch_sizes(cfg: &MoeCfg) -> (r: ScratchSizes)
        requires
            counts_fit(*cfg),
        ensures
            r.logits == cfg.n_expert * cfg.n_tokens * 4,
            r.picks == slots_of(*cfg) * 4,
            r.shares == slots_of(*cfg) * 4,
            r.slots == cfg.n_embd * slots_of(*cfg) * 4,
            r.gate == cfg.n_ff * slots_of(*cfg) * 4,
            r.up == cfg.n_ff * slots_of(*cfg) * 4,
            r.out == cfg.n_embd * slots_of(*cfg) * 4,
    {
        let n = (cfg.n_tokens * cfg.n_expert_used) as u64;
        assert(cfg.n_expert * cfg.n_tokens >= 0 && cfg.n_embd * n >= 0 && cfg.n_ff * n >= 0)
            by (nonlinear_arith)
            requires
                n >= 0,
                cfg.n_expert >= 0,
                cfg.n_tokens >= 0,
                cfg.n_embd >= 0,
                cfg.n_ff >= 0,
        ;
        let e = cfg.n_embd as u64 * n * 4;
        let f = cfg.n_ff as u64 * n * 4;
        ScratchSizes {
            logits: (cfg.n_expert * cfg.n_tokens) as u64 * 4,
            picks: n * 4,
            shares: n * 4,
            slots: e,
            gate: f,
            up: f,
            out: e,
        }
    }

    /// Lays out one expert's product per slot.
    fn moe_matmul(
        &self,
        p: &mut Plan<Dispatch>,
        weight: WeightId,
        x: u64,
        out: u64,
        n_out: u32,
        n_in: u32,
        picks: u64,
        cfg: &MoeCfg,
    )
        requires
            self.wf(),
            old(p).wf(),
            slots_of(*cfg) <= u32::MAX,
            weight_fits(weight_at(self.weights@, weight), n_out),
        ensures
            final(p).wf(),
            final(p).steps@ == old(p).steps@ + expert_steps(
                self.stock(),
                weight,
                x,
                out,
                n_out,
                n_in,
                picks,
                *cfg,
            ),
    {
        let ghost before = p.steps@;
        p.need(self.no_weight(weight));
        let w = self.weight(weight);
        let row = w.row_bytes() as u32;
        assert(cfg.n_tokens * cfg.n_expert_used == slots_of(*cfg));
        let bufs = vec![w.handle, x, out, picks];
        let words = vec![n_in, n_out, cfg.n_expert_used, cfg.n_tokens, row, n_out * row];
        assert(bufs@ =~= seq![w.handle, x, out, picks]);
        assert(words@ =~= seq![
            n_in,
            n_out,
            cfg.n_expert_used,
            cfg.n_tokens,
            w.row_len() as u32,
            (n_out * (w.row_len() as u32)) as u32,
        ]);
        let slots = cfg.n_tokens * cfg.n_expert_used;
        p.call(dispatch_of(Kernel::MoeMm(w.dtype), bufs, words, (n_out, slots, 1)));
        assert(p.steps@ =~= before + expert_steps(
            self.stock(),
            weight,
            x,
            out,
            n_out,
            n_in,
            picks,
            *cfg,
        ));
    }

    fn plan_routing<A: Fn(FloatOp, u32, u32) -> u32>(
        &self,
        m: &Arith<A>,
        p: &mut Plan<Dispatch>,
        src: BufferId,
        gate: WeightId,
        bias: Option<BufferId>,
        a: &Scratch,
        cfg: &MoeCfg,
    )
        requires
            m.works(),
            self.wf(),
            old(p).wf(),
            counts_fit(*cfg),
        ensures
            final(p).wf(),
            final(p).steps@ == old(p).steps@ + router_steps(self.stock(), src, gate, *a, *cfg)
                + route_steps(self.stock(), m.ops(), bias, *a, *cfg),
    {
        let ghost before = p.steps@;
        let ghost f = m.ops();
        let ghost s = self.stock();
        p.need(self.no_weight(gate));
        let w = self.weight(gate);
        p.need(self.no_buffer(src));
        let bufs = vec![w.handle, self.handle(src), a.logits, self.null];
        let words = vec![cfg.n_embd, cfg.n_expert, cfg.n_tokens, w.row_bytes() as u32, 0];
        assert(bufs@ =~= seq![w.handle, at(s.b, src), a.logits, s.null]);
        assert(words@ =~= seq![
            cfg.n_embd,
            cfg.n_expert,
            cfg.n_tokens,
            w.row_len() as u32,
            0u32,
        ]);
        p.call(dispatch_of(Kernel::MatMul(w.dtype), bufs, words, (cfg.n_expert, 1, 1)));
        p.need(self.no_opt(bias));
        let sigmoid = match cfg.gate_func {
            GateFunc::Softmax => false,
            GateFunc::Sigmoid => true,
        };
        let bufs = vec![a.logits, self.opt_handle(bias), a.picks, a.shares];
        let words = vec![
            cfg.n_expert,
            cfg.n_expert_used,
            cfg.n_tokens,
            flag_of(sigmoid),
            flag_of(cfg.norm_topk),
            flag_of(bias.is_some()),
            m.value(cfg.scale),
        ];
        assert(bufs@ =~= seq![a.logits, opt_at(s.b, s.null, bias), a.picks, a.shares]);
        assert(words@ =~= seq![
            cfg.n_expert,
            cfg.n_expert_used,
            cfg.n_tokens,
            flag(cfg.gate_func != GateFunc::Softmax),
            flag(cfg.norm_topk),
            flag(bias is Some),
            value_of(f, cfg.scale),
        ]);
        p.call(dispatch_of(Kernel::MoeRoute, bufs, words, groups(cfg.n_tokens, 64)));
        assert(p.steps@ =~= before + router_steps(s, src, gate, *a, *cfg) + route_steps(
            s,
            f,
            bias,
            *a,
            *cfg,
        ));
    }

    /// Lays out a dispatch of the shader for everything but products and routing.
    fn misc(
        &self,
        p: &mut Plan<Dispatch>,
        b0: u64,
        b1: u64,
        b2: u64,
        n: u32,
        dim: u32,
        cfg: &MoeCfg,
        op: u32,
        act: u32,
        has_gate: u32,
    )
        requires
            old(p).wf(),
            n + 255 <= u32::MAX,
        ensures
            final(p).wf(),
            final(p).steps@ == old(p).steps@.push(
                dispatch(
                    Kernel::MoeMisc,
                    seq![b0, b1, b2],
                    misc_words(n, dim, *cfg, op, act, has_gate),
                    groups_of(n, WG),
                ),
            ),
    {
        let bufs = vec![b0, b1, b2];
        let words = vec![n, dim, cfg.n_expert_used, cfg.n_tokens, op, act, has_gate, UNIT];
        assert(bufs@ =~= seq![b0, b1, b2]);
        assert(words@ =~= misc_words(n, dim, *cfg, op, act, has_gate));
        p.call(dispatch_of(Kernel::MoeMisc, bufs, words, groups(n, WG)));
    }

    /// Mixture of experts.
    pub fn moe<A: Fn(FloatOp, u32, u32) -> u32>(
        &self,
        m: &Arith<A>,
        dst: BufferId,
        src: BufferId,
        w: &MoeWeights,
        a: &Scratch,
        cfg: MoeCfg,
    ) -> (r: Plan<Dispatch>)
        requires
            m.works(),
            self.wf(),
            counts_fit(cfg),
            w.gate_exps matches Some(g) ==> weight_fits(weight_at(self.weights@, g), cfg.n_ff),
            weight_fits(weight_at(self.weights@, w.up_exps), cfg.n_ff),
            weight_fits(weight_at(self.weights@, w.down_exps), cfg.n_embd),
        ensures
            r.follows(moe_steps(self.stock(), m.ops(), dst, src, *w, *a, cfg)),
    {
        let ghost s = self.stock();
        let ghost want = moe_steps(s, m.ops(), dst, src, *w, *a, cfg);
        let mut p = Plan::new();
        let slots = cfg.n_tokens * cfg.n_expert_used;
        assert(cfg.n_embd * slots >= 0 && cfg.n_ff * slots >= 0) by (nonlinear_arith)
            requires
                slots >= 0,
                cfg.n_embd >= 0,
                cfg.n_ff >= 0,
        ;
        self.plan_routing(m, &mut p, src, w.gate_inp, w.exp_probs_b, a, &cfg);
        let ghost one = p.steps@;
        p.need(self.no_buffer(src));
        self.misc(
            &mut p,
            a.slots,
            self.handle(src),
            self.null,
            cfg.n_embd * slots,
            cfg.n_embd,
            &cfg,
            0,
            0,
            0,
        );
        assert(p.steps@ =~= one + scatter_steps(s, src, *a, cfg));
        if let Some(g) = w.gate_exps {
            self.moe_matmul(&mut p, g, a.slots, a.gate, cfg.n_ff, cfg.n_embd, a.picks, &cfg);
        }
        self.moe_matmul(&mut p, w.up_exps, a.slots, a.up, cfg.n_ff, cfg.n_embd, a.picks, &cfg);
        let ghost two = p.steps@;
        self.misc(
            &mut p,
            a.gate,
            a.up,
            self.null,
            cfg.n_ff * slots,
            cfg.n_ff,
            &cfg,
            1,
            act_code(cfg.act),
            flag_of(w.gate_exps.is_some()),
        );
        assert(p.steps@ =~= two + gate_steps(s, w.gate_exps is Some, *a, cfg));
        self.moe_matmul(&mut p, w.down_exps, a.gate, a.out, cfg.n_embd, cfg.n_ff, a.picks, &cfg);
        let ghost three = p.steps@;
        p.need(self.no_buffer(dst));
        self.misc(
            &mut p,
            self.handle(dst),
            a.out,
            a.shares,
            cfg.n_embd * cfg.n_tokens,
            cfg.n_embd,
            &cfg,
            2,
            0,
            0,
        );
        assert(p.steps@ =~= three + reduce_steps(s, dst, *a, cfg));
        assert(p.steps@ =~= want);
        p
    }
}

} // verus!
