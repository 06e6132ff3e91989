//! What a block of a model computes, followed through the operations that it is made of.

use vstd::prelude::*;

use super::graph::{
    after_ops, attend_ops, attention_ops, attn_norm_ops, between_ops, dense_ops, ffn_input, ffn_ops,
    head_norm_ops, layer_ops, output_ops, post_norm_ops, qkv_ops, residual_scale_ops, Op, Scratch,
};
use super::spec::{BlockStyle, SpecView};
use super::weights::LayerWeights;
use crate::backend::{
    AttnCfg, BinOp, GluCfg, KvView, MatMulCfg, MoeCfg, MoeWeights, NormCfg, RopeCfg,
};
use crate::device::{BufferId, WeightId};
use crate::scalar::{Real, Scalar};

verus! {

/// How the content of a buffer came about.
pub enum Term {
    /// It was there at first.
    Given(BufferId),
    Rows(WeightId, Scalar),
    Normed(Box<Term>, Option<BufferId>, NormCfg),
    Projected(WeightId, Box<Term>, MatMulCfg),
    Turned(Box<Term>, RopeCfg),
    /// A query over keys and values that were stored last.
    Attended(Box<Term>, Stored, AttnCfg),
    Gated(Box<Term>, Box<Term>, GluCfg),
    Activated(Box<Term>, GluCfg),
    Mixed(Box<Term>, MoeWeights, MoeCfg),
    Both(BinOp, Box<Term>, Box<Term>),
    Scaled(Box<Term>, Scalar),
    Capped(Box<Term>, Scalar),
    Part(Box<Term>, u64, u64),
}

/// What was stored last, where, and from which position on.
pub struct Stored {
    pub kv: KvView,
    pub k: Box<Term>,
    pub v: Box<Term>,
    pub start_pos: u32,
    pub n_tokens: u32,
    pub dim: u32,
}

/// What the buffers hold, and what was stored last.
pub struct Bench {
    pub held: Map<BufferId, Term>,
    pub stored: Stored,
}

pub open spec fn stepped(b: Bench, op: Op) -> Bench {
    let h = b.held;
    match op {
        Op::GetRows { dst, weight, scale } => Bench {
            held: h.insert(dst, Term::Rows(weight, scale)),
            ..b
        },
        Op::Norm { dst, src, weight, cfg } => Bench {
            held: h.insert(dst, Term::Normed(Box::new(h[src]), weight, cfg)),
            ..b
        },
        Op::MatMul { dst, weight, src, cfg } => Bench {
            held: h.insert(dst, Term::Projected(weight, Box::new(h[src]), cfg)),
            ..b
        },
        Op::Rope { q, k, cfg } => Bench {
            held: h.insert(q, Term::Turned(Box::new(h[q]), cfg)).insert(
                k,
                Term::Turned(Box::new(h[k]), cfg),
            ),
            ..b
        },
        Op::KvWrite { kv, k, v, start_pos, n_tokens, dim } => Bench {
            stored: Stored {
                kv,
                k: Box::new(h[k]),
                v: Box::new(h[v]),
                start_pos,
                n_tokens,
                dim,
            },
            ..b
        },
        Op::Attention { dst, q, kv, cfg } => Bench {
            held: h.insert(
                dst,
                Term::Attended(Box::new(h[q]), Stored { kv, ..b.stored }, cfg),
            ),
            ..b
        },
        Op::Glu { dst, gate, up, cfg } => Bench {
            held: h.insert(dst, Term::Gated(Box::new(h[gate]), Box::new(h[up]), cfg)),
            ..b
        },
        Op::Activate { buf, cfg } => Bench {
            held: h.insert(buf, Term::Activated(Box::new(h[buf]), cfg)),
            ..b
        },
        Op::Moe { dst, src, w, cfg } => Bench {
            held: h.insert(dst, Term::Mixed(Box::new(h[src]), w, cfg)),
            ..b
        },
        Op::Binary { dst, a, b: c, op, n } => Bench {
            held: h.insert(dst, Term::Both(op, Box::new(h[a]), Box::new(h[c]))),
            ..b
        },
        Op::Scale { buf, factor, n } => Bench {
            held: h.insert(buf, Term::Scaled(Box::new(h[buf]), factor)),
            ..b
        },
        Op::Softcap { buf, cap, n } => Bench {
            held: h.insert(buf, Term::Capped(Box::new(h[buf]), cap)),
            ..b
        },
        Op::Copy { dst, dst_off, src, src_off, bytes } => Bench {
            held: h.insert(dst, Term::Part(Box::new(h[src]), src_off, bytes)),
            ..b
        },
        Op::Submit => b,
    }
}

/// What is there after the first `n` operations.
pub open spec fn ran(ops: Seq<Op>, n: nat, b: Bench) -> Bench
    decreases n,
{
    if n == 0 {
        b
    } else {
        stepped(ran(ops, (n - 1) as nat, b), ops[n - 1])
    }
}

pub open spec fn ran_all(ops: Seq<Op>, b: Bench) -> Bench {
    ran(ops, ops.len(), b)
}

proof fn ran_same(x: Seq<Op>, y: Seq<Op>, n: nat, b: Bench)
    requires
        n <= x.len(),
        n <= y.len(),
        forall|i: int| 0 <= i < n ==> #[trigger] x[i] == y[i],
    ensures
        ran(x, n, b) == ran(y, n, b),
    decreases n,
{
    if n > 0 {
        ran_same(x, y, (n - 1) as nat, b);
        assert(x[n - 1] == y[n - 1]);
    }
}

proof fn ran_on(x: Seq<Op>, y: Seq<Op>, n: nat, b: Bench)
    requires
        n <= y.len(),
    ensures
        ran(x + y, x.len() + n, b) == ran(y, n, ran_all(x, b)),
    decreases n,
{
    if n > 0 {
        ran_on(x, y, (n - 1) as nat, b);
        assert((x + y)[x.len() + n - 1] == y[n - 1]);
    } else {
        ran_same(x + y, x, x.len(), b);
    }
}

/// Operations after others go on from what those left.
pub proof fn operations_follow_each_other(x: Seq<Op>, y: Seq<Op>, b: Bench)
    ensures
        ran_all(x + y, b) == ran_all(y, ran_all(x, b)),
{
    ran_on(x, y, y.len(), b);
}

/// Whether no buffer is used for two things.
pub open spec fn apart(sc: Scratch) -> bool {
    let ids = seq![
        sc.x, sc.xn, sc.xn2, sc.q, sc.k, sc.v, sc.attn, sc.proj, sc.gate, sc.up, sc.ff, sc.last,
        sc.logits,
    ];
    forall|i: int, j: int| 0 <= i < j < 13 ==> #[trigger] ids[i] != #[trigger] ids[j]
}

proof fn all_apart(sc: Scratch)
    requires
        apart(sc),
    ensures
        sc.x != sc.xn && sc.x != sc.xn2 && sc.x != sc.q && sc.x != sc.k && sc.x != sc.v && sc.x
            != sc.attn && sc.x != sc.proj && sc.x != sc.gate && sc.x != sc.up && sc.x != sc.ff,
        sc.xn != sc.xn2 && sc.xn != sc.q && sc.xn != sc.k && sc.xn != sc.v && sc.xn != sc.attn
            && sc.xn != sc.proj && sc.xn != sc.gate && sc.xn != sc.up && sc.xn != sc.ff,
        sc.xn2 != sc.q && sc.xn2 != sc.k && sc.xn2 != sc.v && sc.xn2 != sc.attn && sc.xn2 != sc.proj
            && sc.xn2 != sc.gate && sc.xn2 != sc.up && sc.xn2 != sc.ff,
        sc.q != sc.k && sc.q != sc.v && sc.q != sc.attn && sc.q != sc.proj,
        sc.k != sc.v && sc.k != sc.attn && sc.k != sc.proj && sc.v != sc.attn && sc.v != sc.proj,
        sc.attn != sc.proj && sc.proj != sc.gate && sc.proj != sc.up && sc.proj != sc.ff,
        sc.gate != sc.up && sc.gate != sc.ff && sc.up != sc.ff,
        sc.last != sc.x && sc.logits != sc.last,
{
    let ids = seq![
        sc.x, sc.xn, sc.xn2, sc.q, sc.k, sc.v, sc.attn, sc.proj, sc.gate, sc.up, sc.ff, sc.last,
        sc.logits,
    ];
    assert(ids[0] == sc.x && ids[1] == sc.xn && ids[2] == sc.xn2 && ids[3] == sc.q && ids[4] == sc.k
        && ids[5] == sc.v && ids[6] == sc.attn);
    assert(ids[7] == sc.proj && ids[8] == sc.gate && ids[9] == sc.up && ids[10] == sc.ff && ids[11]
        == sc.last && ids[12] == sc.logits);
}

// ------------------------------------------------------------------------- what is meant

/// A norm over the width of the model.
pub open spec fn width_norm(
    s: SpecView,
    t: Term,
    weight: Option<BufferId>,
    bias: Option<BufferId>,
    n: u32,
) -> Term {
    Term::Normed(
        Box::new(t),
        weight,
        NormCfg {
            kind: s.norm_kind,
            dim: s.n_embd,
            n_tokens: n,
            eps: Scalar::Of(s.norm_eps),
            bias,
            scale: Scalar::Of(Real::Single(0x3f80_0000)),
        },
    )
}

/// A norm over each head, where there is a weight for one.
pub open spec fn head_normed(
    s: SpecView,
    t: Term,
    weight: Option<BufferId>,
    heads: u32,
    n: u32,
) -> Term {
    match weight {
        None => t,
        Some(_) => Term::Normed(
            Box::new(t),
            weight,
            NormCfg {
                kind: s.norm_kind,
                dim: s.head_dim,
                n_tokens: (n * heads) as u32,
                eps: Scalar::Of(s.norm_eps),
                bias: None,
                scale: Scalar::Of(Real::Single(0x3f80_0000)),
            },
        ),
    }
}

/// A norm after a part of a block, where there is a weight for one, and the scale of residuals,
/// where it is not one.
pub open spec fn finished(s: SpecView, t: Term, weight: Option<BufferId>, n: u32) -> Term {
    let u = match weight {
        None => t,
        Some(_) => width_norm(s, t, weight, None, n),
    };
    if s.residual_scale.rounds_to_one() {
        u
    } else {
        Term::Scaled(Box::new(u), Scalar::Of(s.residual_scale))
    }
}

pub open spec fn projected(
    weight: WeightId,
    t: Term,
    n_out: u32,
    n_in: u32,
    n: u32,
    bias: Option<BufferId>,
) -> Term {
    Term::Projected(weight, Box::new(t), MatMulCfg { n_out, n_in, n_tokens: n, bias })
}

pub open spec fn sum_of(a: Term, b: Term) -> Term {
    Term::Both(BinOp::Add, Box::new(a), Box::new(b))
}

/// How layer `l` turns its queries and keys: by the local base where it sees a window only and
/// there is one.
pub open spec fn turning(s: SpecView, freqs: Option<BufferId>, l: nat, n: u32) -> RopeCfg {
    RopeCfg {
        kind: s.rope.kind,
        n_heads: s.n_heads,
        n_kv_heads: s.n_kv_heads,
        head_dim: s.head_dim,
        n_rot: s.rope.n_rot,
        n_tokens: n,
        freq_base: if s.uses_swa(l) && s.rope.local_base is Some {
            Scalar::Of(s.rope.local_base->0)
        } else {
            Scalar::Of(s.rope.freq_base)
        },
        freq_scale: s.rope.freq_scale,
        ext_factor: s.rope.ext_factor,
        attn_factor: Scalar::Of(s.rope.attn_factor),
        beta_fast: Scalar::Of(s.rope.beta_fast),
        beta_slow: Scalar::Of(s.rope.beta_slow),
        orig_ctx: s.rope.orig_ctx,
        sections: s.rope.sections,
        freq_factors: freqs,
    }
}

/// What attention makes of its input: queries, keys and values are projected from it, queries and
/// keys normed and turned, keys and values stored, and what the queries gather is projected back.
pub open spec fn attention_term(
    s: SpecView,
    w: LayerWeights,
    freqs: Option<BufferId>,
    l: nat,
    kv: KvView,
    start_pos: u32,
    kv_len: u32,
    n: u32,
    input: Term,
) -> Term {
    let wide = (s.n_heads * s.head_dim) as u32;
    let narrow = (s.n_kv_heads * s.head_dim) as u32;
    let q = head_normed(
        s,
        projected(w.attn_q, input, wide, s.n_embd, n, w.q_bias),
        w.q_norm,
        s.n_heads,
        n,
    );
    let k = head_normed(
        s,
        projected(w.attn_k, input, narrow, s.n_embd, n, w.k_bias),
        w.k_norm,
        s.n_kv_heads,
        n,
    );
    let v = projected(w.attn_v, input, narrow, s.n_embd, n, w.v_bias);
    let by = turning(s, freqs, l, n);
    let seen = Term::Attended(
        Box::new(Term::Turned(Box::new(q), by)),
        Stored {
            kv,
            k: Box::new(Term::Turned(Box::new(k), by)),
            v: Box::new(v),
            start_pos,
            n_tokens: n,
            dim: narrow,
        },
        AttnCfg {
            n_heads: s.n_heads,
            n_kv_heads: s.n_kv_heads,
            head_dim: s.head_dim,
            n_tokens: n,
            kv_len,
            start_pos,
            scale: s.attn_scale,
            softcap: Scalar::Of(s.attn_softcap),
            window: if s.uses_swa(l) {
                s.swa_window
            } else {
                0
            },
            sinks: w.sinks,
        },
    );
    finished(
        s,
        projected(w.attn_out, seen, s.n_embd, wide, n, w.out_bias),
        w.post_attn_norm,
        n,
    )
}

/// What a feed-forward network makes of its input: it is widened, gated where there is a gate, and
/// narrowed again.
pub open spec fn network(
    s: SpecView,
    gate: Option<WeightId>,
    up: WeightId,
    down: WeightId,
    up_b: Option<BufferId>,
    down_b: Option<BufferId>,
    n: u32,
    n_ff: u32,
    input: Term,
) -> Term {
    let cfg = GluCfg {
        act: s.act,
        dim: n_ff,
        n_tokens: n,
        limit: Scalar::Of(Real::Single(0)),
        alpha: Scalar::Of(Real::Single(0x3f80_0000)),
    };
    let wide = projected(up, input, n_ff, s.n_embd, n, up_b);
    let inner = match gate {
        Some(g) => Term::Gated(
            Box::new(projected(g, input, n_ff, s.n_embd, n, None)),
            Box::new(wide),
            cfg,
        ),
        None => Term::Activated(Box::new(wide), cfg),
    };
    projected(down, inner, s.n_embd, n_ff, n, down_b)
}

/// What the second half of a block makes of its input: a network, or a mixture of experts with the
/// one that always runs added.
pub open spec fn network_term(s: SpecView, w: LayerWeights, n: u32, input: Term) -> Term {
    if w.moe is Some && s.moe is Some {
        let e = s.moe->0;
        let mixed = Term::Mixed(
            Box::new(input),
            w.moe->0,
            MoeCfg {
                n_expert: e.n_expert,
                n_expert_used: e.n_expert_used,
                n_embd: s.n_embd,
                n_ff: e.n_ff_exp,
                n_tokens: n,
                act: s.act,
                gate_func: e.gate_func,
                norm_topk: e.norm_topk,
                scale: Scalar::Of(e.scale),
            },
        );
        match w.shexp {
            None => mixed,
            Some((gate, up, down)) => sum_of(
                mixed,
                network(
                    s,
                    gate,
                    up,
                    down,
                    None,
                    None,
                    n,
                    if e.n_ff_shexp == 0 {
                        1
                    } else {
                        e.n_ff_shexp
                    },
                    input,
                ),
            ),
        }
    } else {
        network(
            s,
            w.ffn_gate,
            w.ffn_up->0,
            w.ffn_down->0,
            w.ffn_up_b,
            w.ffn_down_b,
            n,
            s.n_ff,
            input,
        )
    }
}

// ---------------------------------------------------------------------------- what happens

proof fn network_runs(
    s: SpecView,
    sc: Scratch,
    gate: Option<WeightId>,
    up: WeightId,
    down: WeightId,
    up_b: Option<BufferId>,
    down_b: Option<BufferId>,
    input: BufferId,
    n: u32,
    n_ff: u32,
    dst: BufferId,
    b: Bench,
)
    requires
        apart(sc),
        input == sc.x || input == sc.xn || input == sc.xn2,
        dst == sc.ff || dst == sc.proj,
    ensures
        ({
            let r = ran_all(
                dense_ops(s, sc, gate, up, down, up_b, down_b, input, n, n_ff, dst),
                b,
            );
            &&& r.held[dst] == network(s, gate, up, down, up_b, down_b, n, n_ff, b.held[input])
            &&& r.stored == b.stored
            &&& forall|i: BufferId|
                i != dst && i != sc.up && i != sc.gate ==> #[trigger] r.held[i] == b.held[i]
        }),
{
    all_apart(sc);
    reveal_with_fuel(ran, 5);
    let ops = dense_ops(s, sc, gate, up, down, up_b, down_b, input, n, n_ff, dst);
    match gate {
        Some(_) => {
            assert(ops.len() == 4);
        },
        None => {
            assert(ops.len() == 3);
        },
    }
}

#[verifier::rlimit(40)]
#[verifier::spinoff_prover]
proof fn second_half_runs(
    s: SpecView,
    w: LayerWeights,
    sc: Scratch,
    l: nat,
    input: BufferId,
    n: u32,
    b: Bench,
)
    requires
        apart(sc),
        input == sc.x || input == sc.xn || input == sc.xn2,
        ffn_ops(s, w, sc, l, input, n) is Ok,
    ensures
        ({
            let r = ran_all(ffn_ops(s, w, sc, l, input, n)->Ok_0, b);
            &&& r.held[sc.ff] == network_term(s, w, n, b.held[input])
            &&& r.stored == b.stored
            &&& r.held[sc.x] == b.held[sc.x]
            &&& (w.moe is None || s.moe is None || w.shexp is None) ==> r.held[sc.proj]
                == b.held[sc.proj]
        }),
{
    all_apart(sc);
    let ops = ffn_ops(s, w, sc, l, input, n)->Ok_0;
    if w.moe is Some && s.moe is Some {
        let e = s.moe->0;
        let routed = seq![
            Op::Moe {
                dst: sc.ff,
                src: input,
                w: w.moe->0,
                cfg: MoeCfg {
                    n_expert: e.n_expert,
                    n_expert_used: e.n_expert_used,
                    n_embd: s.n_embd,
                    n_ff: e.n_ff_exp,
                    n_tokens: n,
                    act: s.act,
                    gate_func: e.gate_func,
                    norm_topk: e.norm_topk,
                    scale: Scalar::Of(e.scale),
                },
            },
        ];
        let b1 = ran_all(routed, b);
        assert(b1 == stepped(b, routed[0])) by {
            reveal_with_fuel(ran, 2);
        }
        match w.shexp {
            None => {
                assert(ops =~= routed);
            },
            Some((gate, up, down)) => {
                let n_ff = if e.n_ff_shexp == 0 {
                    1
                } else {
                    e.n_ff_shexp
                };
                let shared = dense_ops(s, sc, gate, up, down, None, None, input, n, n_ff, sc.proj);
                let last = seq![super::graph::add_op(s, sc.ff, sc.proj, n)];
                assert(ops == routed + shared + last);
                operations_follow_each_other(routed + shared, last, b);
                operations_follow_each_other(routed, shared, b);
                network_runs(s, sc, gate, up, down, None, None, input, n, n_ff, sc.proj, b1);
                let b2 = ran_all(shared, b1);
                assert(b1.held[input] == b.held[input]);
                assert(b2.held[sc.ff] == b1.held[sc.ff]);
                assert(ran_all(last, b2) == stepped(b2, last[0])) by {
                    reveal_with_fuel(ran, 2);
                }
            },
        }
    } else {
        network_runs(
            s,
            sc,
            w.ffn_gate,
            w.ffn_up->0,
            w.ffn_down->0,
            w.ffn_up_b,
            w.ffn_down_b,
            input,
            n,
            s.n_ff,
            sc.ff,
            b,
        );
    }
}

proof fn finish_runs(
    s: SpecView,
    buf: BufferId,
    weight: Option<BufferId>,
    n: u32,
    b: Bench,
)
    ensures
        ({
            let r = ran_all(residual_scale_ops(s, buf, n), ran_all(post_norm_ops(s, buf, weight, n), b));
            &&& r.held[buf] == finished(s, b.held[buf], weight, n)
            &&& r.stored == b.stored
            &&& forall|i: BufferId| i != buf ==> #[trigger] r.held[i] == b.held[i]
        }),
{
    reveal_with_fuel(ran, 2);
    assert(post_norm_ops(s, buf, weight, n).len() <= 1);
    assert(residual_scale_ops(s, buf, n).len() <= 1);
}

#[verifier::rlimit(40)]
#[verifier::spinoff_prover]
proof fn first_half_runs(
    s: SpecView,
    w: LayerWeights,
    sc: Scratch,
    freqs: Option<BufferId>,
    l: nat,
    kv: KvView,
    start_pos: u32,
    kv_len: u32,
    n: u32,
    b: Bench,
)
    requires
        apart(sc),
    ensures
        ({
            let r = ran_all(attention_ops(s, w, sc, freqs, l, kv, start_pos, kv_len, n), b);
            let x = b.held[sc.x];
            let input = if s.style == BlockStyle::PostNorm {
                x
            } else {
                width_norm(s, x, w.attn_norm, w.attn_norm_b, n)
            };
            let p = attention_term(s, w, freqs, l, kv, start_pos, kv_len, n, input);
            &&& s.style == BlockStyle::ParallelResidual ==> r.held[sc.x] == x && r.held[sc.xn]
                == input && r.held[sc.proj] == p
            &&& s.style == BlockStyle::PostNorm ==> r.held[sc.x] == sum_of(x, p)
            &&& s.style == BlockStyle::PreNorm ==> r.held[sc.x] == sum_of(x, p) && r.held[sc.xn2]
                == width_norm(s, sum_of(x, p), w.ffn_norm, w.ffn_norm_b, n)
        }),
{
    let o1 = attn_norm_ops(s, w, sc, n);
    let o2 = qkv_ops(s, w, sc, n);
    let o3 = head_norm_ops(s, sc.q, w.q_norm, s.n_heads, n);
    let o4 = head_norm_ops(s, sc.k, w.k_norm, s.n_kv_heads, n);
    let o5 = attend_ops(s, w, sc, freqs, l, kv, start_pos, kv_len, n);
    let o6 = post_norm_ops(s, sc.proj, w.post_attn_norm, n);
    let o7 = residual_scale_ops(s, sc.proj, n);
    let o8 = between_ops(s, w, sc, n);
    let x = b.held[sc.x];
    let input = if s.style == BlockStyle::PostNorm {
        x
    } else {
        width_norm(s, x, w.attn_norm, w.attn_norm_b, n)
    };
    eight_follow(o1, o2, o3, o4, o5, o6, o7, o8, b);
    inputs_run(s, w, sc, n, b);
    let b4 = ran_all(o4, ran_all(o3, ran_all(o2, ran_all(o1, b))));
    attend_runs(s, w, sc, freqs, l, kv, start_pos, kv_len, n, b4);
    let b5 = ran_all(o5, b4);
    finish_runs(s, sc.proj, w.post_attn_norm, n, b5);
    let b7 = ran_all(o7, ran_all(o6, b5));
    let p = attention_term(s, w, freqs, l, kv, start_pos, kv_len, n, input);
    all_apart(sc);
    assert(b7.held[sc.proj] == p);
    between_runs(s, w, sc, n, b7);
}

proof fn eight_follow(
    o1: Seq<Op>,
    o2: Seq<Op>,
    o3: Seq<Op>,
    o4: Seq<Op>,
    o5: Seq<Op>,
    o6: Seq<Op>,
    o7: Seq<Op>,
    o8: Seq<Op>,
    b: Bench,
)
    ensures
        ran_all(o1 + o2 + o3 + o4 + o5 + o6 + o7 + o8, b) == ran_all(
            o8,
            ran_all(
                o7,
                ran_all(
                    o6,
                    ran_all(o5, ran_all(o4, ran_all(o3, ran_all(o2, ran_all(o1, b))))),
                ),
            ),
        ),
{
    operations_follow_each_other(o1 + o2 + o3 + o4 + o5 + o6 + o7, o8, b);
    operations_follow_each_other(o1 + o2 + o3 + o4 + o5 + o6, o7, b);
    operations_follow_each_other(o1 + o2 + o3 + o4 + o5, o6, b);
    operations_follow_each_other(o1 + o2 + o3 + o4, o5, b);
    operations_follow_each_other(o1 + o2 + o3, o4, b);
    operations_follow_each_other(o1 + o2, o3, b);
    operations_follow_each_other(o1, o2, b);
}

#[verifier::rlimit(40)]
#[verifier::spinoff_prover]
proof fn inputs_run(s: SpecView, w: LayerWeights, sc: Scratch, n: u32, b: Bench)
    requires
        apart(sc),
    ensures
        ({
            let x = b.held[sc.x];
            let input = if s.style == BlockStyle::PostNorm {
                x
            } else {
                width_norm(s, x, w.attn_norm, w.attn_norm_b, n)
            };
            let wide = (s.n_heads * s.head_dim) as u32;
            let narrow = (s.n_kv_heads * s.head_dim) as u32;
            let r = ran_all(
                head_norm_ops(s, sc.k, w.k_norm, s.n_kv_heads, n),
                ran_all(
                    head_norm_ops(s, sc.q, w.q_norm, s.n_heads, n),
                    ran_all(qkv_ops(s, w, sc, n), ran_all(attn_norm_ops(s, w, sc, n), b)),
                ),
            );
            &&& r.held[sc.q] == head_normed(
                s,
                projected(w.attn_q, input, wide, s.n_embd, n, w.q_bias),
                w.q_norm,
                s.n_heads,
                n,
            )
            &&& r.held[sc.k] == head_normed(
                s,
                projected(w.attn_k, input, narrow, s.n_embd, n, w.k_bias),
                w.k_norm,
                s.n_kv_heads,
                n,
            )
            &&& r.held[sc.v] == projected(w.attn_v, input, narrow, s.n_embd, n, w.v_bias)
            &&& r.held[sc.x] == x
            &&& s.style != BlockStyle::PostNorm ==> r.held[sc.xn] == input
        }),
{
    all_apart(sc);
    let o1 = attn_norm_ops(s, w, sc, n);
    let o2 = qkv_ops(s, w, sc, n);
    let o3 = head_norm_ops(s, sc.q, w.q_norm, s.n_heads, n);
    let o4 = head_norm_ops(s, sc.k, w.k_norm, s.n_kv_heads, n);
    let x = b.held[sc.x];
    let b1 = ran_all(o1, b);
    let input = if s.style == BlockStyle::PostNorm {
        x
    } else {
        width_norm(s, x, w.attn_norm, w.attn_norm_b, n)
    };
    assert(b1.held[super::graph::attn_input(s, sc)] == input && b1.held[sc.x] == x) by {
        reveal_with_fuel(ran, 2);
    }
    qkv_runs(s, w, sc, n, b1);
    let b2 = ran_all(o2, b1);
    let b3 = ran_all(o3, b2);
    head_norm_runs(s, sc.q, w.q_norm, s.n_heads, n, b2);
    head_norm_runs(s, sc.k, w.k_norm, s.n_kv_heads, n, b3);
}

proof fn qkv_runs(s: SpecView, w: LayerWeights, sc: Scratch, n: u32, b: Bench)
    requires
        apart(sc),
    ensures
        ({
            let r = ran_all(qkv_ops(s, w, sc, n), b);
            let input = b.held[super::graph::attn_input(s, sc)];
            let wide = (s.n_heads * s.head_dim) as u32;
            let narrow = (s.n_kv_heads * s.head_dim) as u32;
            &&& r.held[sc.q] == projected(w.attn_q, input, wide, s.n_embd, n, w.q_bias)
            &&& r.held[sc.k] == projected(w.attn_k, input, narrow, s.n_embd, n, w.k_bias)
            &&& r.held[sc.v] == projected(w.attn_v, input, narrow, s.n_embd, n, w.v_bias)
            &&& r.held[sc.x] == b.held[sc.x]
            &&& r.held[sc.xn] == b.held[sc.xn]
        }),
{
    all_apart(sc);
    assert(qkv_ops(s, w, sc, n).len() == 3);
    reveal_with_fuel(ran, 4);
}

proof fn head_norm_runs(
    s: SpecView,
    buf: BufferId,
    weight: Option<BufferId>,
    heads: u32,
    n: u32,
    b: Bench,
)
    ensures
        ({
            let r = ran_all(head_norm_ops(s, buf, weight, heads, n), b);
            &&& r.held[buf] == head_normed(s, b.held[buf], weight, heads, n)
            &&& forall|i: BufferId| i != buf ==> #[trigger] r.held[i] == b.held[i]
        }),
{
    assert(head_norm_ops(s, buf, weight, heads, n).len() <= 1);
    reveal_with_fuel(ran, 2);
}

proof fn between_runs(s: SpecView, w: LayerWeights, sc: Scratch, n: u32, b: Bench)
    requires
        apart(sc),
    ensures
        ({
            let r = ran_all(between_ops(s, w, sc, n), b);
            let y = sum_of(b.held[sc.x], b.held[sc.proj]);
            &&& s.style == BlockStyle::ParallelResidual ==> r == b
            &&& s.style == BlockStyle::PostNorm ==> r.held[sc.x] == y
            &&& s.style == BlockStyle::PreNorm ==> r.held[sc.x] == y && r.held[sc.xn2]
                == width_norm(s, y, w.ffn_norm, w.ffn_norm_b, n)
        }),
{
    all_apart(sc);
    assert(between_ops(s, w, sc, n).len() <= 2);
    reveal_with_fuel(ran, 3);
}

#[verifier::rlimit(40)]
#[verifier::spinoff_prover]
proof fn attend_runs(
    s: SpecView,
    w: LayerWeights,
    sc: Scratch,
    freqs: Option<BufferId>,
    l: nat,
    kv: KvView,
    start_pos: u32,
    kv_len: u32,
    n: u32,
    b: Bench,
)
    requires
        apart(sc),
    ensures
        ({
            let r = ran_all(attend_ops(s, w, sc, freqs, l, kv, start_pos, kv_len, n), b);
            let by = turning(s, freqs, l, n);
            let wide = (s.n_heads * s.head_dim) as u32;
            let narrow = (s.n_kv_heads * s.head_dim) as u32;
            &&& r.held[sc.proj] == projected(
                w.attn_out,
                Term::Attended(
                    Box::new(Term::Turned(Box::new(b.held[sc.q]), by)),
                    Stored {
                        kv,
                        k: Box::new(Term::Turned(Box::new(b.held[sc.k]), by)),
                        v: Box::new(b.held[sc.v]),
                        start_pos,
                        n_tokens: n,
                        dim: narrow,
                    },
                    AttnCfg {
                        n_heads: s.n_heads,
                        n_kv_heads: s.n_kv_heads,
                        head_dim: s.head_dim,
                        n_tokens: n,
                        kv_len,
                        start_pos,
                        scale: s.attn_scale,
                        softcap: Scalar::Of(s.attn_softcap),
                        window: if s.uses_swa(l) {
                            s.swa_window
                        } else {
                            0
                        },
                        sinks: w.sinks,
                    },
                ),
                s.n_embd,
                wide,
                n,
                w.out_bias,
            )
            &&& r.held[sc.x] == b.held[sc.x]
            &&& r.held[sc.xn] == b.held[sc.xn]
        }),
{
    all_apart(sc);
    let ops = attend_ops(s, w, sc, freqs, l, kv, start_pos, kv_len, n);
    assert(ops.len() == 4);
    reveal_with_fuel(ran, 5);
}

/// What a block adds to what flows through it. A pre-normed one adds what attention makes of the
/// normed stream, and then what its network makes of the stream so far, normed. A post-normed one
/// takes the stream as it is. A parallel one feeds both from one norm.
#[verifier::rlimit(50)]
#[verifier::spinoff_prover]
pub proof fn a_block_adds_attention_and_network(
    s: SpecView,
    w: LayerWeights,
    sc: Scratch,
    freqs: Option<BufferId>,
    l: nat,
    kv: KvView,
    start_pos: u32,
    kv_len: u32,
    n: u32,
    b: Bench,
)
    requires
        apart(sc),
        layer_ops(s, w, sc, freqs, l, kv, start_pos, kv_len, n).fault is None,
        s.style == BlockStyle::ParallelResidual ==> w.moe is None || s.moe is None || w.shexp is None,
    ensures
        ({
            let r = ran_all(
                layer_ops(s, w, sc, freqs, l, kv, start_pos, kv_len, n).ops,
                b,
            ).held[sc.x];
            let x = b.held[sc.x];
            let normed = width_norm(s, x, w.attn_norm, w.attn_norm_b, n);
            match s.style {
                BlockStyle::PreNorm => {
                    let y = sum_of(
                        x,
                        attention_term(s, w, freqs, l, kv, start_pos, kv_len, n, normed),
                    );
                    r == sum_of(
                        y,
                        finished(
                            s,
                            network_term(
                                s,
                                w,
                                n,
                                width_norm(s, y, w.ffn_norm, w.ffn_norm_b, n),
                            ),
                            w.ffn_post_norm,
                            n,
                        ),
                    )
                },
                BlockStyle::PostNorm => {
                    let y = sum_of(
                        x,
                        attention_term(s, w, freqs, l, kv, start_pos, kv_len, n, x),
                    );
                    r == sum_of(
                        y,
                        finished(s, network_term(s, w, n, y), w.ffn_post_norm, n),
                    )
                },
                BlockStyle::ParallelResidual => r == sum_of(
                    sum_of(
                        x,
                        attention_term(s, w, freqs, l, kv, start_pos, kv_len, n, normed),
                    ),
                    network_term(s, w, n, normed),
                ),
            }
        }),
{
    all_apart(sc);
    let before = attention_ops(s, w, sc, freqs, l, kv, start_pos, kv_len, n);
    let input = ffn_input(s, sc);
    let ffn = ffn_ops(s, w, sc, l, input, n)->Ok_0;
    let after = after_ops(s, w, sc, n);
    operations_follow_each_other(before + ffn, after, b);
    operations_follow_each_other(before, ffn, b);
    first_half_runs(s, w, sc, freqs, l, kv, start_pos, kv_len, n, b);
    let b1 = ran_all(before, b);
    second_half_runs(s, w, sc, l, input, n, b1);
    let b2 = ran_all(ffn, b1);
    after_runs(s, w, sc, n, b2);
}

proof fn after_runs(s: SpecView, w: LayerWeights, sc: Scratch, n: u32, b: Bench)
    requires
        apart(sc),
    ensures
        ran_all(after_ops(s, w, sc, n), b).held[sc.x] == if s.style
            == BlockStyle::ParallelResidual {
            sum_of(sum_of(b.held[sc.x], b.held[sc.proj]), b.held[sc.ff])
        } else {
            sum_of(b.held[sc.x], finished(s, b.held[sc.ff], w.ffn_post_norm, n))
        },
{
    all_apart(sc);
    let after = after_ops(s, w, sc, n);
    if s.style == BlockStyle::ParallelResidual {
        assert(after.len() == 2);
        reveal_with_fuel(ran, 3);
    } else {
        let p = post_norm_ops(s, sc.ff, w.ffn_post_norm, n);
        let q = residual_scale_ops(s, sc.ff, n);
        let last = seq![super::graph::add_op(s, sc.x, sc.ff, n)];
        assert(after == p + q + last);
        operations_follow_each_other(p + q, last, b);
        operations_follow_each_other(p, q, b);
        finish_runs(s, sc.ff, w.ffn_post_norm, n, b);
        let r = ran_all(q, ran_all(p, b));
        assert(ran_all(last, r) == stepped(r, last[0])) by {
            reveal_with_fuel(ran, 2);
        }
    }
}

/// The logits are the last token of the stream, normed and projected onto the vocabulary, then
/// scaled and capped where the model asks for it.
#[verifier::rlimit(40)]
#[verifier::spinoff_prover]
pub proof fn logits_come_from_the_last_token(
    s: SpecView,
    output: WeightId,
    norm: Option<BufferId>,
    norm_b: Option<BufferId>,
    sc: Scratch,
    n: u32,
    b: Bench,
)
    requires
        apart(sc),
        n > 0,
    ensures
        ({
            let r = ran_all(output_ops(s, output, norm, norm_b, sc, n), b).held[sc.logits];
            let last = Term::Part(
                Box::new(b.held[sc.x]),
                ((n - 1) * s.n_embd * 4) as u64,
                (s.n_embd * 4) as u64,
            );
            let plain = projected(
                output,
                width_norm(s, last, norm, norm_b, 1),
                s.n_vocab,
                s.n_embd,
                1,
                None,
            );
            let scaled = if s.logit_scale.rounds_to_one() {
                plain
            } else {
                Term::Scaled(Box::new(plain), Scalar::Of(s.logit_scale))
            };
            r == if s.final_softcap.rounds_above_zero() {
                Term::Capped(Box::new(scaled), Scalar::Of(s.final_softcap))
            } else {
                scaled
            }
        }),
{
    all_apart(sc);
    let ops = output_ops(s, output, norm, norm_b, sc, n);
    assert(4 <= ops.len() <= 6);
    reveal_with_fuel(ran, 7);
    if s.logit_scale.rounds_to_one() {
        if s.final_softcap.rounds_above_zero() {
            assert(ops.len() == 5);
        } else {
            assert(ops.len() == 4);
        }
    } else {
        if s.final_softcap.rounds_above_zero() {
            assert(ops.len() == 6);
        } else {
            assert(ops.len() == 5);
        }
    }
}

} // verus!
