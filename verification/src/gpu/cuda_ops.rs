//! The operations of a pass as CUDA launches.

use vstd::prelude::*;
use vstd::string::*;

use super::cuda::{
    act_code, at, blocks_of, call, code_of, grid_1d, grid_of, kernel, need_buffer, need_kernel, need_opt,
    need_suffix, need_weight, next_power, next_power_of_two, opt_at, over_elements, parts_of,
    stage_steps, suffix, tail_of, weight_at, Alloc, CallView, CudaBackend, CudaWeight, KernelCall,
    Steps, ROWS_PER_BLOCK, WARP,
};
use super::launch::{pack, Arg, Launch};
use super::plan::{fault_view, Plan, Step};
use crate::backend::{
    rotates, turns_fit, AttnCfg, BinOp, GluCfg, KvView, MatMulCfg, NormCfg, NormKind, RopeCfg,
    RopeKind,
};
use crate::cpu::rope::{corr_range, RopeBits};
use crate::cpu::run::rope_bits;
use crate::device::{BufferId, WeightId};
use crate::dtype::DType;
use crate::error::{Error, ErrorView};
use crate::quant::dot::{float_type, is_float};
use crate::scalar::{value_of, Scalar};
use crate::single::{at_most, equal, is_at_most, is_equal, Arith, FloatOp, Ops};
use crate::text::{cat2, cat3, dec, decimal, texts};

verus! {

/// The buffers, weights and kernels that a plan is drawn up from.
pub struct Stock {
    pub b: Map<u32, Alloc>,
    pub w: Map<u32, CudaWeight>,
    pub k: Seq<Seq<char>>,
}

/// The grid of a matmul: four output rows to a block.
pub open spec fn rows_grid(n_out: u32, y: u32) -> (u32, u32, u32) {
    (parts_of(n_out as int, 4) as u32, y, 1)
}

pub open spec fn get_rows_steps(
    s: Stock,
    f: Ops,
    dst: BufferId,
    weight: WeightId,
    idx: u64,
    n: u32,
    scale: Scalar,
) -> Steps {
    let w = weight_at(s.w, weight);
    let name = "get_rows_"@ + tail_of(w.dtype);
    seq![
        need_weight(s.w, weight, "weight is not uploaded"@),
        need_kernel(s.k, name),
        need_buffer(s.b, dst),
        call(
            name,
            name,
            seq![
                Arg::Ptr(w.ptr),
                Arg::Ptr(idx),
                Arg::Ptr(at(s.b, dst)),
                Arg::Int(w.rows as i32),
                Arg::Int(w.cols as i32),
                Arg::Int(w.row_len() as i32),
                Arg::Single(value_of(f, scale)),
                Arg::Int(n as i32),
            ],
            (n, 1, 1),
            (256, 1, 1),
            0,
        ),
    ]
}

/// The threads that normalize a row: a power of two keeps the tree reduction simple.
pub open spec fn norm_threads(dim: u32) -> u32 {
    let p = next_power(dim as int);
    if p < 32 {
        32
    } else if p > 1024 {
        1024
    } else {
        p as u32
    }
}

pub open spec fn norm_steps(
    s: Stock,
    f: Ops,
    dst: BufferId,
    src: BufferId,
    weight: Option<BufferId>,
    c: NormCfg,
) -> Steps {
    let t = norm_threads(c.dim);
    seq![
        need_kernel(s.k, "norm_kernel"@),
        need_buffer(s.b, dst),
        need_buffer(s.b, src),
        need_opt(s.b, weight),
        need_opt(s.b, c.bias),
        call(
            "norm_kernel"@,
            "norm"@,
            seq![
                Arg::Ptr(at(s.b, src)),
                Arg::Ptr(at(s.b, dst)),
                Arg::Ptr(opt_at(s.b, weight)),
                Arg::Ptr(opt_at(s.b, c.bias)),
                Arg::Int(c.dim as i32),
                Arg::Int(
                    if c.kind == NormKind::Layer {
                        1i32
                    } else {
                        0i32
                    },
                ),
                Arg::Single(value_of(f, c.eps)),
                Arg::Single(value_of(f, c.scale)),
            ],
            (
                if c.n_tokens > 1 {
                    c.n_tokens
                } else {
                    1u32
                },
                1,
                1,
            ),
            (t, 1, 1),
            (t * 4) as u32,
        ),
    ]
}

/// The launch of a product with a weight. What is not a float weight takes a staged activation
/// and how many blocks a row of it has.
pub open spec fn product(
    w: CudaWeight,
    x: u64,
    out: u64,
    bias: u64,
    n_in: u32,
    n_out: u32,
    n: u32,
) -> Step<CallView> {
    let name = "mul_mat_"@ + tail_of(w.dtype);
    let front = seq![
        Arg::Ptr(w.ptr),
        Arg::Ptr(x),
        Arg::Ptr(out),
        Arg::Ptr(bias),
        Arg::Int(n_in as i32),
        Arg::Int(n_out as i32),
        Arg::Int(n as i32),
        Arg::Int(w.row_len() as i32),
    ];
    call(
        name,
        name,
        if float_type(w.dtype) {
            front
        } else {
            front.push(Arg::Int(blocks_of(w.cols as int) as i32))
        },
        rows_grid(n_out, 1),
        (WARP, ROWS_PER_BLOCK, 1),
        0,
    )
}

pub open spec fn matmul_steps(
    s: Stock,
    dst: BufferId,
    weight: WeightId,
    src: BufferId,
    staged: u64,
    c: MatMulCfg,
) -> Steps {
    let w = weight_at(s.w, weight);
    let front = seq![
        need_weight(s.w, weight, "weight is not uploaded"@),
        need_suffix(w.dtype, " has no CUDA matmul kernel"@),
        need_kernel(s.k, "mul_mat_"@ + tail_of(w.dtype)),
        need_buffer(s.b, dst),
        need_opt(s.b, c.bias),
    ];
    let x = if float_type(w.dtype) {
        at(s.b, src)
    } else {
        staged
    };
    let prepare = if float_type(w.dtype) {
        seq![need_buffer(s.b, src)]
    } else {
        stage_steps(s.b, s.k, src, staged, c.n_in, c.n_tokens)
    };
    (front + prepare).push(
        product(w, x, at(s.b, dst), opt_at(s.b, c.bias), c.n_in, c.n_out, c.n_tokens),
    )
}

pub open spec fn dense_steps(
    s: Stock,
    dst: BufferId,
    weight: BufferId,
    src: BufferId,
    c: MatMulCfg,
) -> Steps {
    seq![
        need_kernel(s.k, "mul_mat_dense"@),
        need_buffer(s.b, dst),
        need_buffer(s.b, weight),
        need_buffer(s.b, src),
        need_opt(s.b, c.bias),
        call(
            "mul_mat_dense"@,
            "mul_mat_dense"@,
            seq![
                Arg::Ptr(at(s.b, weight)),
                Arg::Ptr(at(s.b, src)),
                Arg::Ptr(at(s.b, dst)),
                Arg::Ptr(opt_at(s.b, c.bias)),
                Arg::Int(c.n_in as i32),
                Arg::Int(c.n_out as i32),
                Arg::Int(c.n_tokens as i32),
            ],
            rows_grid(c.n_out, 1),
            (WARP, ROWS_PER_BLOCK, 1),
            0,
        ),
    ]
}

/// YaRN's correction range as the kernels take it.
pub open spec fn kernel_range(f: Ops, c: RopeCfg) -> (u32, u32) {
    if equal(value_of(f, c.ext_factor), 0) || c.orig_ctx == 0 {
        (0, 0)
    } else {
        corr_range(f, rope_bits(f, c))
    }
}

pub open spec fn turn(s: Stock, f: Ops, buf: BufferId, pos: u64, heads: u32, c: RopeCfg) -> Steps {
    let range = kernel_range(f, c);
    seq![
        need_buffer(s.b, buf),
        call(
            "rope_kernel"@,
            "rope"@,
            seq![
                Arg::Ptr(at(s.b, buf)),
                Arg::Ptr(pos),
                Arg::Ptr(opt_at(s.b, c.freq_factors)),
                Arg::Int(heads as i32),
                Arg::Int(c.head_dim as i32),
                Arg::Int(c.n_rot as i32),
                Arg::Int(c.n_tokens as i32),
                Arg::Int(
                    if c.kind == RopeKind::Norm {
                        0i32
                    } else {
                        1i32
                    },
                ),
                Arg::Single(value_of(f, c.freq_base)),
                Arg::Single(value_of(f, c.freq_scale)),
                Arg::Single(value_of(f, c.ext_factor)),
                Arg::Single(value_of(f, c.attn_factor)),
                Arg::Single(range.0),
                Arg::Single(range.1),
            ],
            grid_of((c.n_tokens * heads * (c.n_rot / 2)) as u32, 256),
            (256, 1, 1),
            0,
        ),
    ]
}

pub open spec fn rope_steps(
    s: Stock,
    f: Ops,
    q: BufferId,
    k: Option<BufferId>,
    pos: u64,
    c: RopeCfg,
) -> Steps {
    if c.kind == RopeKind::NoRope || c.n_rot == 0 {
        Seq::empty()
    } else {
        seq![need_opt(s.b, c.freq_factors), need_kernel(s.k, "rope_kernel"@)] + turn(
            s,
            f,
            q,
            pos,
            c.n_heads,
            c,
        ) + match k {
            Some(x) => turn(s, f, x, pos, c.n_kv_heads, c),
            None => Seq::empty(),
        }
    }
}

pub open spec fn cache_kernel(front: Seq<char>, kv: KvView) -> Seq<char> {
    front + if kv.dtype == DType::F16 {
        "f16"@
    } else {
        "f32"@
    }
}

pub open spec fn kv_write_steps(
    s: Stock,
    kv: KvView,
    k: BufferId,
    v: BufferId,
    start_pos: u32,
    n: u32,
    dim: u32,
) -> Steps {
    let name = cache_kernel("kv_write_"@, kv);
    seq![
        need_kernel(s.k, name),
        need_buffer(s.b, k),
        need_buffer(s.b, v),
        need_buffer(s.b, kv.k),
        need_buffer(s.b, kv.v),
        call(
            name,
            name,
            seq![
                Arg::Ptr(at(s.b, k)),
                Arg::Ptr(at(s.b, v)),
                Arg::Ptr(at(s.b, kv.k)),
                Arg::Ptr(at(s.b, kv.v)),
                Arg::Int(dim as i32),
                Arg::Int(kv.stride as i32),
                Arg::Int(kv.base as i32),
                Arg::Int(start_pos as i32),
                Arg::Int(n as i32),
            ],
            grid_of((dim * n) as u32, 256),
            (256, 1, 1),
            0,
        ),
    ]
}

/// How many parts the keys are split into: enough to fill the machine, but never so many that a
/// split covers only a handful of keys and the combining pass dominates.
pub open spec fn splits_of(multiprocessors: u32, c: AttnCfg) -> u32 {
    let sms = if multiprocessors > 1 {
        multiprocessors as int
    } else {
        1
    };
    let hb = if c.n_heads * c.n_tokens > 1 {
        c.n_heads * c.n_tokens
    } else {
        1
    };
    let want = parts_of(sms * 2, hb);
    let capped = if want < 1 {
        1
    } else if want > 32 {
        32
    } else {
        want
    };
    let by_length = if c.kv_len / 64 > 1 {
        c.kv_len as int / 64
    } else {
        1
    };
    (if capped < by_length {
        capped
    } else {
        by_length
    }) as u32
}

/// The bytes that the parts take before they are combined.
pub open spec fn partial_bytes(c: AttnCfg, splits: u32) -> int {
    c.n_heads * c.n_tokens * splits * (c.head_dim + 2) * 4
}

pub open spec fn attention_steps(
    s: Stock,
    f: Ops,
    splits: u32,
    dst: BufferId,
    q: BufferId,
    kv: KvView,
    partial: u64,
    c: AttnCfg,
) -> Steps {
    let name = cache_kernel("flash_attn_split_"@, kv);
    let hb = (c.n_heads * c.n_tokens) as u32;
    if c.head_dim > 256 {
        seq![
            Step::Need(
                Some(
                    ErrorView::Unsupported(
                        "head_dim "@ + dec(c.head_dim as nat)
                            + " exceeds the 256 this backend stages in shared memory"@,
                    ),
                ),
            ),
        ]
    } else {
        seq![
            need_buffer(s.b, dst),
            need_buffer(s.b, q),
            need_buffer(s.b, kv.k),
            need_buffer(s.b, kv.v),
            need_opt(s.b, c.sinks),
            need_kernel(s.k, name),
            call(
                name,
                name,
                seq![
                    Arg::Ptr(at(s.b, q)),
                    Arg::Ptr(at(s.b, kv.k)),
                    Arg::Ptr(at(s.b, kv.v)),
                    Arg::Ptr(partial),
                    Arg::Int(c.n_heads as i32),
                    Arg::Int(c.n_kv_heads as i32),
                    Arg::Int(c.head_dim as i32),
                    Arg::Int(c.n_tokens as i32),
                    Arg::Int(c.kv_len as i32),
                    Arg::Int(c.start_pos as i32),
                    Arg::Int(kv.stride as i32),
                    Arg::Int(kv.base as i32),
                    Arg::Single(value_of(f, c.scale)),
                    Arg::Single(value_of(f, c.softcap)),
                    Arg::Int(c.window as i32),
                    Arg::Int(splits as i32),
                ],
                (hb, splits, 1),
                (128, 1, 1),
                0,
            ),
            need_kernel(s.k, "flash_attn_combine"@),
            call(
                "flash_attn_combine"@,
                "flash_attn_combine"@,
                seq![
                    Arg::Ptr(partial),
                    Arg::Ptr(at(s.b, dst)),
                    Arg::Ptr(opt_at(s.b, c.sinks)),
                    Arg::Int(c.n_heads as i32),
                    Arg::Int(c.head_dim as i32),
                    Arg::Int(c.n_tokens as i32),
                    Arg::Int(splits as i32),
                ],
                (hb, 1, 1),
                (128, 1, 1),
                0,
            ),
        ]
    }
}

/// The steps of an operation over the elements of buffers.
pub open spec fn elementwise(
    s: Stock,
    needs: Seq<Step<CallView>>,
    name: Seq<char>,
    n: u32,
    args: Seq<Arg>,
) -> Steps {
    needs + over_elements(s.k, name, n, args)
}

pub open spec fn glu_steps(
    s: Stock,
    f: Ops,
    dst: BufferId,
    gate: BufferId,
    up: BufferId,
    c: GluCfg,
) -> Steps {
    let n = (c.dim * c.n_tokens) as u32;
    elementwise(
        s,
        seq![need_buffer(s.b, dst), need_buffer(s.b, gate), need_buffer(s.b, up)],
        "glu_kernel"@,
        n,
        seq![
            Arg::Ptr(at(s.b, dst)),
            Arg::Ptr(at(s.b, gate)),
            Arg::Ptr(at(s.b, up)),
            Arg::Int(n as i32),
            Arg::Int(code_of(c.act)),
            Arg::Single(value_of(f, c.limit)),
            Arg::Single(value_of(f, c.alpha)),
        ],
    )
}

pub open spec fn activate_steps(s: Stock, f: Ops, buf: BufferId, c: GluCfg) -> Steps {
    let n = (c.dim * c.n_tokens) as u32;
    elementwise(
        s,
        seq![need_buffer(s.b, buf)],
        "activate_kernel"@,
        n,
        seq![
            Arg::Ptr(at(s.b, buf)),
            Arg::Int(n as i32),
            Arg::Int(code_of(c.act)),
            Arg::Single(value_of(f, c.alpha)),
        ],
    )
}

/// The elements of the second operand: it is repeated where it is shorter.
pub open spec fn repeat_of(b: Map<u32, Alloc>, id: BufferId, n: u32) -> u32 {
    let have = if b.dom().contains(id.0) {
        (b[id.0].bytes / 4) as u32
    } else {
        n
    };
    let least = if have < n {
        have
    } else {
        n
    };
    if least > 1 {
        least
    } else {
        1
    }
}

pub open spec fn op_code(op: BinOp) -> i32 {
    match op {
        BinOp::Add => 0,
        BinOp::Mul => 1,
        BinOp::Sub => 2,
    }
}

pub open spec fn binary_steps(
    s: Stock,
    dst: BufferId,
    a: BufferId,
    b: BufferId,
    op: BinOp,
    n: u32,
) -> Steps {
    elementwise(
        s,
        seq![need_buffer(s.b, dst), need_buffer(s.b, a), need_buffer(s.b, b)],
        "binary_kernel"@,
        n,
        seq![
            Arg::Ptr(at(s.b, dst)),
            Arg::Ptr(at(s.b, a)),
            Arg::Ptr(at(s.b, b)),
            Arg::Int(n as i32),
            Arg::Int(repeat_of(s.b, b, n) as i32),
            Arg::Int(op_code(op)),
        ],
    )
}

/// An operation on a buffer in place with one number.
pub open spec fn in_place(s: Stock, name: Seq<char>, buf: BufferId, value: u32, n: u32) -> Steps {
    elementwise(
        s,
        seq![need_buffer(s.b, buf)],
        name,
        n,
        seq![Arg::Ptr(at(s.b, buf)), Arg::Single(value), Arg::Int(n as i32)],
    )
}

pub open spec fn softcap_steps(s: Stock, f: Ops, buf: BufferId, cap: Scalar, n: u32) -> Steps {
    if at_most(value_of(f, cap), 0) {
        Seq::empty()
    } else {
        in_place(s, "softcap_kernel"@, buf, value_of(f, cap), n)
    }
}

/// The parts together fill the machine's limit of 32 at most, and there is always one.
pub proof fn splits_are_few(multiprocessors: u32, c: AttnCfg)
    ensures
        1 <= splits_of(multiprocessors, c) <= 32,
        c.kv_len >= 64 ==> splits_of(multiprocessors, c) * 64 <= c.kv_len,
{
}

impl CudaBackend {
    pub open spec fn stock(self) -> Stock {
        Stock { b: self.buffers@, w: self.weights@, k: texts(self.kernels@) }
    }

    /// `dst[t] = weight[tokens[t]] * scale`, for `n` tokens that lie at `idx`.
    pub fn get_rows<A: Fn(FloatOp, u32, u32) -> u32>(
        &self,
        m: &Arith<A>,
        dst: BufferId,
        weight: WeightId,
        idx: u64,
        n: u32,
        scale: Scalar,
    ) -> (r: Plan<KernelCall>)
        requires
            m.works(),
            self.wf(),
        ensures
            r.follows(get_rows_steps(self.stock(), m.ops(), dst, weight, idx, n, scale)),
    {
        let ghost want = get_rows_steps(self.stock(), m.ops(), dst, weight, idx, n, scale);
        let mut p = Plan::new();
        p.need(self.no_weight(weight, "weight is not uploaded"));
        let w = self.weight(weight);
        let name = named("get_rows_", w.dtype);
        p.need(self.no_kernel(name.as_str()));
        p.need(self.no_buffer(dst));
        let args = Launch::new().ptr(w.ptr).ptr(idx).ptr(self.dptr(dst)).i32(w.rows as i32).i32(
            w.cols as i32,
        ).i32(w.row_bytes() as i32).single(m.value(scale)).i32(n as i32);
        proof {
            assert(args@ =~= pack(
                seq![
                    Arg::Ptr(w.ptr),
                    Arg::Ptr(idx),
                    Arg::Ptr(at(self.buffers@, dst)),
                    Arg::Int(w.rows as i32),
                    Arg::Int(w.cols as i32),
                    Arg::Int(w.row_len() as i32),
                    Arg::Single(value_of(m.ops(), scale)),
                    Arg::Int(n as i32),
                ],
            ));
        }
        p.call(kernel(name.as_str(), name.as_str(), args, (n, 1, 1), (256, 1, 1), 0));
        assert(p.steps@ =~= want);
        p
    }

    pub fn norm<A: Fn(FloatOp, u32, u32) -> u32>(
        &self,
        m: &Arith<A>,
        dst: BufferId,
        src: BufferId,
        weight: Option<BufferId>,
        cfg: NormCfg,
    ) -> (r: Plan<KernelCall>)
        requires
            m.works(),
        ensures
            r.follows(norm_steps(self.stock(), m.ops(), dst, src, weight, cfg)),
    {
        let ghost f = m.ops();
        let ghost b = self.buffers@;
        let ghost want = norm_steps(self.stock(), f, dst, src, weight, cfg);
        let mut p = Plan::new();
        p.need(self.no_kernel("norm_kernel"));
        p.need(self.no_buffer(dst));
        p.need(self.no_buffer(src));
        p.need(self.no_opt(weight));
        p.need(self.no_opt(cfg.bias));
        let pow = next_power_of_two(cfg.dim as u64);
        let threads: u32 = if pow < 32 {
            32
        } else if pow > 1024 {
            1024
        } else {
            pow as u32
        };
        let kind: i32 = match cfg.kind {
            NormKind::Layer => 1,
            NormKind::Rms => 0,
        };
        let args = Launch::new().ptr(self.dptr(src)).ptr(self.dptr(dst)).ptr(
            self.opt_dptr(weight),
        ).ptr(self.opt_dptr(cfg.bias)).i32(cfg.dim as i32).i32(kind).single(
            m.value(cfg.eps),
        ).single(m.value(cfg.scale));
        proof {
            assert(args@ =~= pack(
                seq![
                    Arg::Ptr(at(b, src)),
                    Arg::Ptr(at(b, dst)),
                    Arg::Ptr(opt_at(b, weight)),
                    Arg::Ptr(opt_at(b, cfg.bias)),
                    Arg::Int(cfg.dim as i32),
                    Arg::Int(kind),
                    Arg::Single(value_of(f, cfg.eps)),
                    Arg::Single(value_of(f, cfg.scale)),
                ],
            ));
        }
        let rows: u32 = if cfg.n_tokens > 1 {
            cfg.n_tokens
        } else {
            1
        };
        p.call(kernel("norm_kernel", "norm", args, (rows, 1, 1), (threads, 1, 1), threads * 4));
        assert(p.steps@ =~= want);
        p
    }

    /// Lays out a product with a weight.
    pub(crate) fn product(
        &self,
        p: &mut Plan<KernelCall>,
        w: &CudaWeight,
        x: u64,
        out: u64,
        bias: u64,
        n_in: u32,
        n_out: u32,
        n: u32,
    )
        requires
            old(p).wf(),
            w.row_len() <= usize::MAX,
            n_out + 3 <= u32::MAX,
            w.cols + 31 <= usize::MAX,
        ensures
            final(p).wf(),
            final(p).steps@ == old(p).steps@.push(product(*w, x, out, bias, n_in, n_out, n)),
    {
        let name = named("mul_mat_", w.dtype);
        let ghost front = seq![
            Arg::Ptr(w.ptr),
            Arg::Ptr(x),
            Arg::Ptr(out),
            Arg::Ptr(bias),
            Arg::Int(n_in as i32),
            Arg::Int(n_out as i32),
            Arg::Int(n as i32),
            Arg::Int(w.row_len() as i32),
        ];
        let mut args = Launch::new().ptr(w.ptr).ptr(x).ptr(out).ptr(bias).i32(n_in as i32).i32(
            n_out as i32,
        ).i32(n as i32).i32(w.row_bytes() as i32);
        assert(args@ =~= pack(front));
        if !is_float(w.dtype) {
            let blocks = (w.cols + 31) / 32;
            args = args.i32(blocks as i32);
            assert(args@ =~= pack(front.push(Arg::Int(blocks_of(w.cols as int) as i32))));
        }
        let grid = ((n_out + 3) / 4, 1, 1);
        p.call(kernel(name.as_str(), name.as_str(), args, grid, (WARP, ROWS_PER_BLOCK, 1), 0));
    }

    /// `dst = weight @ src`; `staged` is where a quantized activation is put.
    pub fn matmul(
        &self,
        dst: BufferId,
        weight: WeightId,
        src: BufferId,
        staged: u64,
        cfg: MatMulCfg,
    ) -> (r: Plan<KernelCall>)
        requires
            self.wf(),
            cfg.n_out + 3 <= u32::MAX,
            blocks_of(cfg.n_in as int) * cfg.n_tokens + 255 <= u32::MAX,
            weight_at(self.weights@, weight).cols + 31 <= usize::MAX,
        ensures
            r.follows(matmul_steps(self.stock(), dst, weight, src, staged, cfg)),
    {
        let ghost want = matmul_steps(self.stock(), dst, weight, src, staged, cfg);
        let mut p = Plan::new();
        p.need(self.no_weight(weight, "weight is not uploaded"));
        let w = self.weight(weight);
        p.need(no_suffix(w.dtype, " has no CUDA matmul kernel"));
        p.need(self.no_kernel(named("mul_mat_", w.dtype).as_str()));
        p.need(self.no_buffer(dst));
        p.need(self.no_opt(cfg.bias));
        let x = if is_float(w.dtype) {
            p.need(self.no_buffer(src));
            self.dptr(src)
        } else {
            self.stage(&mut p, src, staged, cfg.n_in, cfg.n_tokens);
            staged
        };
        self.product(
            &mut p,
            &w,
            x,
            self.dptr(dst),
            self.opt_dptr(cfg.bias),
            cfg.n_in,
            cfg.n_out,
            cfg.n_tokens,
        );
        assert(p.steps@ =~= want);
        p
    }

    /// The same for a weight that is a plain buffer.
    pub fn matmul_f32(&self, dst: BufferId, weight: BufferId, src: BufferId, cfg: MatMulCfg) -> (r:
        Plan<KernelCall>)
        requires
            cfg.n_out + 3 <= u32::MAX,
        ensures
            r.follows(dense_steps(self.stock(), dst, weight, src, cfg)),
    {
        let ghost b = self.buffers@;
        let ghost want = dense_steps(self.stock(), dst, weight, src, cfg);
        let mut p = Plan::new();
        p.need(self.no_kernel("mul_mat_dense"));
        p.need(self.no_buffer(dst));
        p.need(self.no_buffer(weight));
        p.need(self.no_buffer(src));
        p.need(self.no_opt(cfg.bias));
        let args = Launch::new().ptr(self.dptr(weight)).ptr(self.dptr(src)).ptr(self.dptr(dst)).ptr(
            self.opt_dptr(cfg.bias),
        ).i32(cfg.n_in as i32).i32(cfg.n_out as i32).i32(cfg.n_tokens as i32);
        proof {
            assert(args@ =~= pack(
                seq![
                    Arg::Ptr(at(b, weight)),
                    Arg::Ptr(at(b, src)),
                    Arg::Ptr(at(b, dst)),
                    Arg::Ptr(opt_at(b, cfg.bias)),
                    Arg::Int(cfg.n_in as i32),
                    Arg::Int(cfg.n_out as i32),
                    Arg::Int(cfg.n_tokens as i32),
                ],
            ));
        }
        let grid = ((cfg.n_out + 3) / 4, 1, 1);
        p.call(
            kernel("mul_mat_dense", "mul_mat_dense", args, grid, (WARP, ROWS_PER_BLOCK, 1), 0),
        );
        assert(p.steps@ =~= want);
        p
    }

    /// Lays out the rotation of one buffer.
    fn turn<A: Fn(FloatOp, u32, u32) -> u32>(
        &self,
        m: &Arith<A>,
        p: &mut Plan<KernelCall>,
        buf: BufferId,
        pos: u64,
        heads: u32,
        cfg: &RopeCfg,
    )
        requires
            m.works(),
            old(p).wf(),
            cfg.n_tokens * heads <= u32::MAX,
            cfg.n_tokens * heads * (cfg.n_rot / 2) + 255 <= u32::MAX,
        ensures
            final(p).wf(),
            final(p).steps@ == old(p).steps@ + turn(
                self.stock(),
                m.ops(),
                buf,
                pos,
                heads,
                *cfg,
            ),
    {
        let ghost before = p.steps@;
        let ghost f = m.ops();
        let ext = m.value(cfg.ext_factor);
        let range = if is_equal(ext, 0) || cfg.orig_ctx == 0 {
            (0, 0)
        } else {
            let c = RopeBits {
                kind: cfg.kind,
                head_dim: cfg.head_dim as usize,
                n_rot: cfg.n_rot,
                orig_ctx: cfg.orig_ctx,
                freq_base: m.value(cfg.freq_base),
                freq_scale: m.value(cfg.freq_scale),
                ext_factor: ext,
                attn_factor: m.value(cfg.attn_factor),
                beta_fast: m.value(cfg.beta_fast),
                beta_slow: m.value(cfg.beta_slow),
            };
            m.yarn_corr_dims(&c)
        };
        assert(range == kernel_range(f, *cfg));
        let kind: i32 = match cfg.kind {
            RopeKind::Norm => 0,
            _ => 1,
        };
        p.need(self.no_buffer(buf));
        let args = Launch::new().ptr(self.dptr(buf)).ptr(pos).ptr(
            self.opt_dptr(cfg.freq_factors),
        ).i32(heads as i32).i32(cfg.head_dim as i32).i32(cfg.n_rot as i32).i32(
            cfg.n_tokens as i32,
        ).i32(kind).single(m.value(cfg.freq_base)).single(m.value(cfg.freq_scale)).single(ext).single(
            m.value(cfg.attn_factor),
        ).single(range.0).single(range.1);
        proof {
            assert(args@ =~= pack(
                seq![
                    Arg::Ptr(at(self.buffers@, buf)),
                    Arg::Ptr(pos),
                    Arg::Ptr(opt_at(self.buffers@, cfg.freq_factors)),
                    Arg::Int(heads as i32),
                    Arg::Int(cfg.head_dim as i32),
                    Arg::Int(cfg.n_rot as i32),
                    Arg::Int(cfg.n_tokens as i32),
                    Arg::Int(kind),
                    Arg::Single(value_of(f, cfg.freq_base)),
                    Arg::Single(value_of(f, cfg.freq_scale)),
                    Arg::Single(value_of(f, cfg.ext_factor)),
                    Arg::Single(value_of(f, cfg.attn_factor)),
                    Arg::Single(range.0),
                    Arg::Single(range.1),
                ],
            ));
        }
        let total = cfg.n_tokens * heads * (cfg.n_rot / 2);
        p.call(kernel("rope_kernel", "rope", args, grid_1d(total, 256), (256, 1, 1), 0));
        assert(p.steps@ =~= before + turn(self.stock(), f, buf, pos, heads, *cfg));
    }

    /// Rotates the heads of `q` and `k`; the positions lie at `pos`.
    pub fn rope<A: Fn(FloatOp, u32, u32) -> u32>(
        &self,
        m: &Arith<A>,
        q: BufferId,
        k: Option<BufferId>,
        pos: u64,
        cfg: RopeCfg,
    ) -> (r: Plan<KernelCall>)
        requires
            m.works(),
            rotates(cfg) ==> turns_fit(cfg, cfg.n_heads),
            rotates(cfg) && k is Some ==> turns_fit(cfg, cfg.n_kv_heads),
        ensures
            r.follows(rope_steps(self.stock(), m.ops(), q, k, pos, cfg)),
    {
        let ghost want = rope_steps(self.stock(), m.ops(), q, k, pos, cfg);
        let mut p = Plan::new();
        let none = match cfg.kind {
            RopeKind::NoRope => true,
            _ => false,
        };
        if !none && cfg.n_rot != 0 {
            p.need(self.no_opt(cfg.freq_factors));
            p.need(self.no_kernel("rope_kernel"));
            self.turn(m, &mut p, q, pos, cfg.n_heads, &cfg);
            match k {
                Some(x) => {
                    self.turn(m, &mut p, x, pos, cfg.n_kv_heads, &cfg);
                },
                None => {},
            }
        }
        assert(p.steps@ =~= want);
        p
    }

    /// Scatters keys and values into the cache.
    pub fn kv_write(
        &self,
        kv: &KvView,
        k: BufferId,
        v: BufferId,
        start_pos: u32,
        n_tokens: u32,
        dim: u32,
    ) -> (r: Plan<KernelCall>)
        requires
            dim * n_tokens + 255 <= u32::MAX,
        ensures
            r.follows(kv_write_steps(self.stock(), *kv, k, v, start_pos, n_tokens, dim)),
    {
        let ghost b = self.buffers@;
        let ghost want = kv_write_steps(self.stock(), *kv, k, v, start_pos, n_tokens, dim);
        let name = cache_name("kv_write_", kv);
        let mut p = Plan::new();
        p.need(self.no_kernel(name.as_str()));
        p.need(self.no_buffer(k));
        p.need(self.no_buffer(v));
        p.need(self.no_buffer(kv.k));
        p.need(self.no_buffer(kv.v));
        let args = Launch::new().ptr(self.dptr(k)).ptr(self.dptr(v)).ptr(self.dptr(kv.k)).ptr(
            self.dptr(kv.v),
        ).i32(dim as i32).i32(kv.stride as i32).i32(kv.base as i32).i32(start_pos as i32).i32(
            n_tokens as i32,
        );
        proof {
            assert(args@ =~= pack(
                seq![
                    Arg::Ptr(at(b, k)),
                    Arg::Ptr(at(b, v)),
                    Arg::Ptr(at(b, kv.k)),
                    Arg::Ptr(at(b, kv.v)),
                    Arg::Int(dim as i32),
                    Arg::Int(kv.stride as i32),
                    Arg::Int(kv.base as i32),
                    Arg::Int(start_pos as i32),
                    Arg::Int(n_tokens as i32),
                ],
            ));
        }
        p.call(
            kernel(
                name.as_str(),
                name.as_str(),
                args,
                grid_1d(dim * n_tokens, 256),
                (256, 1, 1),
                0,
            ),
        );
        assert(p.steps@ =~= want);
        p
    }

    /// How many parts the keys are split into.
    pub fn splits(&self, cfg: &AttnCfg) -> (r: u32)
        requires
            cfg.n_heads * cfg.n_tokens <= u32::MAX,
        ensures
            r == splits_of(self.multiprocessors, *cfg),
            1 <= r <= 32,
    {
        let sms: u64 = if self.multiprocessors > 1 {
            self.multiprocessors as u64
        } else {
            1
        };
        let hb = cfg.n_heads * cfg.n_tokens;
        let per: u64 = if hb > 1 {
            hb as u64
        } else {
            1
        };
        let want = (sms * 2 + (per - 1)) / per;
        let capped: u64 = if want < 1 {
            1
        } else if want > 32 {
            32
        } else {
            want
        };
        let by_length: u64 = if cfg.kv_len / 64 > 1 {
            (cfg.kv_len / 64) as u64
        } else {
            1
        };
        assert(want == parts_of(sms * 2, per as int));
        if capped < by_length {
            capped as u32
        } else {
            by_length as u32
        }
    }

    /// The bytes that the parts take before they are combined.
    pub fn partials(&self, cfg: &AttnCfg) -> (r: u64)
        requires
            cfg.n_heads * cfg.n_tokens <= u32::MAX,
            partial_bytes(*cfg, splits_of(self.multiprocessors, *cfg)) <= u64::MAX,
        ensures
            r == partial_bytes(*cfg, splits_of(self.multiprocessors, *cfg)),
    {
        let n = self.splits(cfg) as u64;
        let hb = (cfg.n_heads * cfg.n_tokens) as u64;
        let d = cfg.head_dim as u64 + 2;
        assert(hb * n <= hb * n * d && hb * n * d <= hb * n * d * 4 && hb * n >= 0)
            by (nonlinear_arith)
            requires
                hb >= 0,
                n >= 0,
                d >= 1,
        ;
        hb * n * d * 4
    }

    /// Attention over the cache: the parts of the keys, which are put at `partial`, then what
    /// they come to together.
    pub fn attention<A: Fn(FloatOp, u32, u32) -> u32>(
        &self,
        m: &Arith<A>,
        dst: BufferId,
        q: BufferId,
        kv: &KvView,
        partial: u64,
        cfg: AttnCfg,
    ) -> (r: Plan<KernelCall>)
        requires
            m.works(),
            cfg.n_heads * cfg.n_tokens <= u32::MAX,
        ensures
            r.follows(
                attention_steps(
                    self.stock(),
                    m.ops(),
                    splits_of(self.multiprocessors, cfg),
                    dst,
                    q,
                    *kv,
                    partial,
                    cfg,
                ),
            ),
    {
        let ghost f = m.ops();
        let ghost b = self.buffers@;
        let n_splits = self.splits(&cfg);
        let ghost want = attention_steps(
            self.stock(),
            f,
            n_splits,
            dst,
            q,
            *kv,
            partial,
            cfg,
        );
        let mut p = Plan::new();
        if cfg.head_dim > 256 {
            p.need(
                Some(
                    Error::Unsupported(
                        cat3(
                            "head_dim ",
                            decimal(cfg.head_dim as u64).as_str(),
                            " exceeds the 256 this backend stages in shared memory",
                        ),
                    ),
                ),
            );
            assert(p.steps@ =~= want);
            return p;
        }
        let hb = cfg.n_heads * cfg.n_tokens;
        let name = cache_name("flash_attn_split_", kv);
        p.need(self.no_buffer(dst));
        p.need(self.no_buffer(q));
        p.need(self.no_buffer(kv.k));
        p.need(self.no_buffer(kv.v));
        p.need(self.no_opt(cfg.sinks));
        p.need(self.no_kernel(name.as_str()));
        let args = Launch::new().ptr(self.dptr(q)).ptr(self.dptr(kv.k)).ptr(self.dptr(kv.v)).ptr(
            partial,
        ).i32(cfg.n_heads as i32).i32(cfg.n_kv_heads as i32).i32(cfg.head_dim as i32).i32(
            cfg.n_tokens as i32,
        ).i32(cfg.kv_len as i32).i32(cfg.start_pos as i32).i32(kv.stride as i32).i32(
            kv.base as i32,
        ).single(m.value(cfg.scale)).single(m.value(cfg.softcap)).i32(cfg.window as i32).i32(
            n_splits as i32,
        );
        proof {
            assert(args@ =~= pack(
                seq![
                    Arg::Ptr(at(b, q)),
                    Arg::Ptr(at(b, kv.k)),
                    Arg::Ptr(at(b, kv.v)),
                    Arg::Ptr(partial),
                    Arg::Int(cfg.n_heads as i32),
                    Arg::Int(cfg.n_kv_heads as i32),
                    Arg::Int(cfg.head_dim as i32),
                    Arg::Int(cfg.n_tokens as i32),
                    Arg::Int(cfg.kv_len as i32),
                    Arg::Int(cfg.start_pos as i32),
                    Arg::Int(kv.stride as i32),
                    Arg::Int(kv.base as i32),
                    Arg::Single(value_of(f, cfg.scale)),
                    Arg::Single(value_of(f, cfg.softcap)),
                    Arg::Int(cfg.window as i32),
                    Arg::Int(n_splits as i32),
                ],
            ));
        }
        p.call(kernel(name.as_str(), name.as_str(), args, (hb, n_splits, 1), (128, 1, 1), 0));
        p.need(self.no_kernel("flash_attn_combine"));
        let args = Launch::new().ptr(partial).ptr(self.dptr(dst)).ptr(self.opt_dptr(cfg.sinks)).i32(
            cfg.n_heads as i32,
        ).i32(cfg.head_dim as i32).i32(cfg.n_tokens as i32).i32(n_splits as i32);
        proof {
            assert(args@ =~= pack(
                seq![
                    Arg::Ptr(partial),
                    Arg::Ptr(at(b, dst)),
                    Arg::Ptr(opt_at(b, cfg.sinks)),
                    Arg::Int(cfg.n_heads as i32),
                    Arg::Int(cfg.head_dim as i32),
                    Arg::Int(cfg.n_tokens as i32),
                    Arg::Int(n_splits as i32),
                ],
            ));
        }
        p.call(
            kernel("flash_attn_combine", "flash_attn_combine", args, (hb, 1, 1), (128, 1, 1), 0),
        );
        assert(p.steps@ =~= want);
        p
    }

    /// `dst = act(gate) * up`
    pub fn glu<A: Fn(FloatOp, u32, u32) -> u32>(
        &self,
        m: &Arith<A>,
        dst: BufferId,
        gate: BufferId,
        up: BufferId,
        cfg: GluCfg,
    ) -> (r: Plan<KernelCall>)
        requires
            m.works(),
            cfg.dim * cfg.n_tokens + 255 <= u32::MAX,
        ensures
            r.follows(glu_steps(self.stock(), m.ops(), dst, gate, up, cfg)),
    {
        let ghost f = m.ops();
        let ghost b = self.buffers@;
        let n = cfg.dim * cfg.n_tokens;
        let mut p = Plan::new();
        p.need(self.no_buffer(dst));
        p.need(self.no_buffer(gate));
        p.need(self.no_buffer(up));
        let args = Launch::new().ptr(self.dptr(dst)).ptr(self.dptr(gate)).ptr(self.dptr(up)).i32(
            n as i32,
        ).i32(act_code(cfg.act)).single(m.value(cfg.limit)).single(m.value(cfg.alpha));
        let ghost want = seq![
            Arg::Ptr(at(b, dst)),
            Arg::Ptr(at(b, gate)),
            Arg::Ptr(at(b, up)),
            Arg::Int(n as i32),
            Arg::Int(code_of(cfg.act)),
            Arg::Single(value_of(f, cfg.limit)),
            Arg::Single(value_of(f, cfg.alpha)),
        ];
        assert(args@ =~= pack(want));
        self.launch_1d(&mut p, "glu_kernel", n, args, Ghost(want));
        assert(p.steps@ =~= glu_steps(self.stock(), f, dst, gate, up, cfg));
        p
    }

    /// `buf = act(buf)`
    pub fn activate<A: Fn(FloatOp, u32, u32) -> u32>(
        &self,
        m: &Arith<A>,
        buf: BufferId,
        cfg: GluCfg,
    ) -> (r: Plan<KernelCall>)
        requires
            m.works(),
            cfg.dim * cfg.n_tokens + 255 <= u32::MAX,
        ensures
            r.follows(activate_steps(self.stock(), m.ops(), buf, cfg)),
    {
        let ghost f = m.ops();
        let n = cfg.dim * cfg.n_tokens;
        let mut p = Plan::new();
        p.need(self.no_buffer(buf));
        let args = Launch::new().ptr(self.dptr(buf)).i32(n as i32).i32(act_code(cfg.act)).single(
            m.value(cfg.alpha),
        );
        let ghost want = seq![
            Arg::Ptr(at(self.buffers@, buf)),
            Arg::Int(n as i32),
            Arg::Int(code_of(cfg.act)),
            Arg::Single(value_of(f, cfg.alpha)),
        ];
        assert(args@ =~= pack(want));
        self.launch_1d(&mut p, "activate_kernel", n, args, Ghost(want));
        assert(p.steps@ =~= activate_steps(self.stock(), f, buf, cfg));
        p
    }

    pub fn binary(&self, dst: BufferId, a: BufferId, b: BufferId, op: BinOp, n: u32) -> (r: Plan<
        KernelCall,
    >)
        requires
            n + 255 <= u32::MAX,
        ensures
            r.follows(binary_steps(self.stock(), dst, a, b, op, n)),
    {
        let ghost held = self.buffers@;
        let mut p = Plan::new();
        p.need(self.no_buffer(dst));
        p.need(self.no_buffer(a));
        p.need(self.no_buffer(b));
        let have: u32 = match self.buffers.get(b.0) {
            Some(x) => (x.bytes / 4) as u32,
            None => n,
        };
        let least = if have < n {
            have
        } else {
            n
        };
        let bn: u32 = if least > 1 {
            least
        } else {
            1
        };
        let code: i32 = match op {
            BinOp::Add => 0,
            BinOp::Mul => 1,
            BinOp::Sub => 2,
        };
        let args = Launch::new().ptr(self.dptr(dst)).ptr(self.dptr(a)).ptr(self.dptr(b)).i32(
            n as i32,
        ).i32(bn as i32).i32(code);
        let ghost want = seq![
            Arg::Ptr(at(held, dst)),
            Arg::Ptr(at(held, a)),
            Arg::Ptr(at(held, b)),
            Arg::Int(n as i32),
            Arg::Int(repeat_of(held, b, n) as i32),
            Arg::Int(op_code(op)),
        ];
        assert(args@ =~= pack(want));
        self.launch_1d(&mut p, "binary_kernel", n, args, Ghost(want));
        assert(p.steps@ =~= binary_steps(self.stock(), dst, a, b, op, n));
        p
    }

    fn number(&self, name: &str, buf: BufferId, value: u32, n: u32) -> (r: Plan<KernelCall>)
        requires
            n + 255 <= u32::MAX,
        ensures
            r.follows(in_place(self.stock(), name@, buf, value, n)),
    {
        let mut p = Plan::new();
        p.need(self.no_buffer(buf));
        let args = Launch::new().ptr(self.dptr(buf)).single(value).i32(n as i32);
        let ghost want = seq![
            Arg::Ptr(at(self.buffers@, buf)),
            Arg::Single(value),
            Arg::Int(n as i32),
        ];
        assert(args@ =~= pack(want));
        self.launch_1d(&mut p, name, n, args, Ghost(want));
        assert(p.steps@ =~= in_place(self.stock(), name@, buf, value, n));
        p
    }

    pub fn scale<A: Fn(FloatOp, u32, u32) -> u32>(
        &self,
        m: &Arith<A>,
        buf: BufferId,
        factor: Scalar,
        n: u32,
    ) -> (r: Plan<KernelCall>)
        requires
            m.works(),
            n + 255 <= u32::MAX,
        ensures
            r.follows(
                in_place(self.stock(), "scale_kernel"@, buf, value_of(m.ops(), factor), n),
            ),
    {
        self.number("scale_kernel", buf, m.value(factor), n)
    }

    /// A cap that is not positive caps nothing.
    pub fn softcap<A: Fn(FloatOp, u32, u32) -> u32>(
        &self,
        m: &Arith<A>,
        buf: BufferId,
        cap: Scalar,
        n: u32,
    ) -> (r: Plan<KernelCall>)
        requires
            m.works(),
            n + 255 <= u32::MAX,
        ensures
            r.follows(softcap_steps(self.stock(), m.ops(), buf, cap, n)),
    {
        let c = m.value(cap);
        if is_at_most(c, 0) {
            return Plan::new();
        }
        self.number("softcap_kernel", buf, c, n)
    }

    pub fn fill(&self, buf: BufferId, value: u32, n: u32) -> (r: Plan<KernelCall>)
        requires
            n + 255 <= u32::MAX,
        ensures
            r.follows(in_place(self.stock(), "fill_kernel"@, buf, value, n)),
    {
        self.number("fill_kernel", buf, value, n)
    }
}

fn cache_name(front: &str, kv: &KvView) -> (r: String)
    ensures
        r@ == cache_kernel(front@, *kv),
{
    if kv.is_f16() {
        cat2(front, "f16")
    } else {
        cat2(front, "f32")
    }
}

/// A kernel's name: what it does and for which quantization.
pub(crate) fn named(front: &str, t: DType) -> (r: String)
    ensures
        r@ == front@ + tail_of(t),
{
    match suffix(t) {
        Some(s) => cat2(front, s),
        None => {
            let r = cat2(front, "");
            proof {
                reveal_strlit("");
                assert(front@ + ""@ =~= front@ + tail_of(t));
            }
            r
        },
    }
}

pub(crate) fn no_suffix(t: DType, why: &str) -> (r: Option<Error>)
    ensures
        Step::<CallView>::Need(fault_view(r)) == need_suffix(t, why@),
{
    match suffix(t) {
        Some(_) => None,
        None => Some(Error::Unsupported(cat2(t.name(), why))),
    }
}

} // verus!
