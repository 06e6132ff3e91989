//! Binding GGUF tensors to backend handles.
//!
//! Tensor names drifted over the years (`post_attention_norm` vs `attn_post_norm`,
//! `ffn_gate_exps` vs `ffn_gate_exp`), so every lookup goes through a candidate list. A
//! name that matches nothing is either optional, in which case the slot stays empty, or
//! required, in which case the error names the alternatives that were tried.
//!
//! Binding yields a list of loads, to be carried out in order on a backend that holds
//! nothing yet. Such a backend hands out its handles in ascending order, so the handle of
//! each load is known before it is carried out.

use vstd::prelude::*;
use vstd::string::*;

use crate::backend::MoeWeights;
use crate::device::{BufferId, WeightId};
use crate::dtype::DType;
use crate::error::{Error, ErrorView};
use crate::gguf::model::{GgufModel, ModelView};
use crate::gguf::reader::{TensorInfo, TensorView};
use crate::gguf::value::strs;
use crate::model::spec::{ArchSpec, SpecView};
use crate::text::{cat4, dec, decimal, joined, own, texts};

verus! {

/// Something to be put on the device: a range of the file, and what it holds.
#[derive(Debug, Clone, Copy)]
pub enum LoadStep {
    /// A small tensor, to be decoded into a vector of `rows * cols` numbers.
    Vector { start: u64, len: u64, dtype: DType, rows: u64, cols: u64 },
    /// A weight, to be uploaded in its native quantized layout.
    Matrix { start: u64, len: u64, dtype: DType, rows: u64, cols: u64 },
}

#[derive(Debug, Clone, Copy)]
pub struct LayerWeights {
    pub attn_norm: Option<BufferId>,
    pub attn_norm_b: Option<BufferId>,
    pub attn_q: WeightId,
    pub attn_k: WeightId,
    pub attn_v: WeightId,
    pub attn_out: WeightId,
    pub q_bias: Option<BufferId>,
    pub k_bias: Option<BufferId>,
    pub v_bias: Option<BufferId>,
    pub out_bias: Option<BufferId>,
    pub q_norm: Option<BufferId>,
    pub k_norm: Option<BufferId>,
    pub post_attn_norm: Option<BufferId>,
    pub ffn_norm: Option<BufferId>,
    pub ffn_norm_b: Option<BufferId>,
    pub ffn_gate: Option<WeightId>,
    pub ffn_up: Option<WeightId>,
    pub ffn_down: Option<WeightId>,
    pub ffn_up_b: Option<BufferId>,
    pub ffn_down_b: Option<BufferId>,
    pub ffn_post_norm: Option<BufferId>,
    pub moe: Option<MoeWeights>,
    /// Shared always-on expert, present in Qwen-MoE and DeepSeek.
    pub shexp: Option<(Option<WeightId>, WeightId, WeightId)>,
    pub sinks: Option<BufferId>,
}

#[derive(Debug)]
pub struct Weights {
    pub token_embd: WeightId,
    pub output: WeightId,
    pub output_norm: Option<BufferId>,
    pub output_norm_b: Option<BufferId>,
    pub rope_freqs: Option<BufferId>,
    pub layers: Vec<LayerWeights>,
    pub bytes_uploaded: u64,
}

/// The mathematical value of [`Weights`].
pub struct WeightsView {
    pub token_embd: WeightId,
    pub output: WeightId,
    pub output_norm: Option<BufferId>,
    pub output_norm_b: Option<BufferId>,
    pub rope_freqs: Option<BufferId>,
    pub layers: Seq<LayerWeights>,
    pub bytes_uploaded: u64,
}

impl View for Weights {
    type V = WeightsView;

    open spec fn view(&self) -> WeightsView {
        WeightsView {
            token_embd: self.token_embd,
            output: self.output,
            output_norm: self.output_norm,
            output_norm_b: self.output_norm_b,
            rope_freqs: self.rope_freqs,
            layers: self.layers@,
            bytes_uploaded: self.bytes_uploaded,
        }
    }
}

/// The name of a tensor of block `i`.
pub open spec fn blk_name(i: nat, suffix: Seq<char>) -> Seq<char> {
    "blk."@ + dec(i) + "."@ + suffix
}

pub fn blk(i: u32, suffix: &str) -> (r: String)
    ensures
        r@ == blk_name(i as nat, suffix@),
{
    cat4("blk.", decimal(i as u64).as_str(), ".", suffix)
}

fn names1(i: u32, a: &str) -> (r: Vec<String>)
    ensures
        texts(r@) == seq![blk_name(i as nat, a@)],
{
    let mut v: Vec<String> = Vec::new();
    v.push(blk(i, a));
    assert(texts(v@) =~= seq![blk_name(i as nat, a@)]);
    v
}

fn names2(i: u32, a: &str, b: &str) -> (r: Vec<String>)
    ensures
        texts(r@) == seq![blk_name(i as nat, a@), blk_name(i as nat, b@)],
{
    let mut v: Vec<String> = Vec::new();
    v.push(blk(i, a));
    v.push(blk(i, b));
    assert(texts(v@) =~= seq![blk_name(i as nat, a@), blk_name(i as nat, b@)]);
    v
}

fn names3(i: u32, a: &str, b: &str, c: &str) -> (r: Vec<String>)
    ensures
        texts(r@) == seq![
            blk_name(i as nat, a@),
            blk_name(i as nat, b@),
            blk_name(i as nat, c@),
        ],
{
    let mut v: Vec<String> = Vec::new();
    v.push(blk(i, a));
    v.push(blk(i, b));
    v.push(blk(i, c));
    assert(texts(v@) =~= seq![
        blk_name(i as nat, a@),
        blk_name(i as nat, b@),
        blk_name(i as nat, c@),
    ]);
    v
}

fn name_only(a: &str) -> (r: Vec<String>)
    ensures
        texts(r@) == seq![a@],
{
    let mut v: Vec<String> = Vec::new();
    v.push(own(a));
    assert(texts(v@) =~= seq![a@]);
    v
}

fn refs(names: &Vec<String>) -> (r: Vec<&str>)
    ensures
        strs(r@) == texts(names@),
{
    let mut out: Vec<&str> = Vec::new();
    let mut i: usize = 0;
    while i < names.len()
        invariant
            i <= names@.len(),
            strs(out@) =~= texts(names@).take(i as int),
        decreases names@.len() - i,
    {
        let ghost before = strs(out@);
        out.push(names[i].as_str());
        i = i + 1;
        assert(strs(out@) =~= before.push(names@[i - 1]@));
    }
    assert(texts(names@).take(i as int) =~= texts(names@));
    out
}

// ----------------------------------------------------------------------------- binding

/// What has been bound so far. After a failure nothing more is bound.
pub struct BindView {
    pub steps: Seq<LoadStep>,
    pub next_weight: u32,
    pub next_buffer: u32,
    pub uploaded: u64,
    pub failed: Option<ErrorView>,
}

impl BindView {
    pub open spec fn fresh() -> BindView {
        BindView {
            steps: Seq::empty(),
            next_weight: 0,
            next_buffer: 0,
            uploaded: 0,
            failed: None,
        }
    }

    pub open spec fn fail(self, e: ErrorView) -> BindView {
        BindView { failed: Some(e), ..self }
    }

    /// One more weight is to be uploaded.
    pub open spec fn with_matrix(self, s: LoadStep, len: nat) -> BindView {
        BindView {
            steps: self.steps.push(s),
            next_weight: self.next_weight.wrapping_add(1),
            uploaded: if self.uploaded + len > u64::MAX {
                u64::MAX
            } else {
                (self.uploaded + len) as u64
            },
            ..self
        }
    }

    /// One more vector is to be decoded.
    pub open spec fn with_vector(self, s: LoadStep) -> BindView {
        BindView {
            steps: self.steps.push(s),
            next_buffer: self.next_buffer.wrapping_add(1),
            ..self
        }
    }
}

/// The tensor under the first of `names` that is there.
pub open spec fn picked(m: ModelView, names: Seq<Seq<char>>) -> Option<TensorView> {
    match m.first_present(names, 0) {
        Some(i) => m.tensor(names[i as int]),
        None => None,
    }
}

pub open spec fn vector_step(m: ModelView, t: TensorView) -> LoadStep {
    LoadStep::Vector {
        start: (m.data_offset + t.offset) as u64,
        len: t.bytes() as u64,
        dtype: t.dtype,
        rows: t.n_rows() as u64,
        cols: t.n_cols() as u64,
    }
}

pub open spec fn matrix_step(m: ModelView, t: TensorView) -> LoadStep {
    LoadStep::Matrix {
        start: (m.data_offset + t.offset) as u64,
        len: t.bytes() as u64,
        dtype: t.dtype,
        rows: t.n_rows() as u64,
        cols: t.n_cols() as u64,
    }
}

/// Binds a vector that may be missing.
pub open spec fn bind_vector(m: ModelView, b: BindView, names: Seq<Seq<char>>) -> (
    Option<BufferId>,
    BindView,
) {
    if b.failed is Some {
        (None, b)
    } else {
        match picked(m, names) {
            None => (None, b),
            Some(t) => (Some(BufferId(b.next_buffer)), b.with_vector(vector_step(m, t))),
        }
    }
}

/// Binds a weight that may be missing.
pub open spec fn bind_matrix(m: ModelView, b: BindView, names: Seq<Seq<char>>) -> (
    Option<WeightId>,
    BindView,
) {
    if b.failed is Some {
        (None, b)
    } else {
        match picked(m, names) {
            None => (None, b),
            Some(t) => (
                Some(WeightId(b.next_weight)),
                b.with_matrix(matrix_step(m, t), t.bytes()),
            ),
        }
    }
}

/// Binds a weight that has to be there.
pub open spec fn bind_required(m: ModelView, b: BindView, names: Seq<Seq<char>>) -> (
    WeightId,
    BindView,
) {
    if b.failed is Some {
        (WeightId(0), b)
    } else {
        match picked(m, names) {
            None => (
                WeightId(0),
                b.fail(
                    ErrorView::MissingTensor(
                        "none of ["@ + joined(names, ", "@) + "]"@ + m.near(names[0]),
                    ),
                ),
            ),
            Some(t) => (
                WeightId(b.next_weight),
                b.with_matrix(matrix_step(m, t), t.bytes()),
            ),
        }
    }
}

/// Binds a weight that has to be there, with an error that says only its name.
pub open spec fn bind_named(
    m: ModelView,
    b: BindView,
    names: Seq<Seq<char>>,
    missing: Seq<char>,
) -> (WeightId, BindView) {
    if b.failed is Some {
        (WeightId(0), b)
    } else {
        match picked(m, names) {
            None => (WeightId(0), b.fail(ErrorView::MissingTensor(missing))),
            Some(t) => (
                WeightId(b.next_weight),
                b.with_matrix(matrix_step(m, t), t.bytes()),
            ),
        }
    }
}

/// The load of the rows `start..start + count` of the tensor `t`.
pub open spec fn rows_step(m: ModelView, t: TensorView, start: nat, count: nat) -> LoadStep {
    let rb = t.dtype.bytes_for(t.n_cols());
    LoadStep::Matrix {
        start: (m.data_offset + t.offset + start * rb) as u64,
        len: (count * rb) as u64,
        dtype: t.dtype,
        rows: count as u64,
        cols: t.n_cols() as u64,
    }
}

/// Binds a contiguous row range of a tensor as a weight in its own right.
///
/// Fused QKV and fused gate/up tensors are stored as one matrix whose rows are the
/// concatenation of the parts. Because every block layout is row-aligned, the split is just
/// a byte range: no dequantization, no copy, no extra memory.
pub open spec fn bind_rows(m: ModelView, b: BindView, t: TensorView, start: nat, count: nat) -> (
    WeightId,
    BindView,
) {
    let rb = t.dtype.bytes_for(t.n_cols());
    if b.failed is Some {
        (WeightId(0), b)
    } else if (start + count) * rb > t.bytes() {
        (WeightId(0), b.fail(ErrorView::Shape("a fused tensor has too few rows: "@ + t.name)))
    } else {
        (WeightId(b.next_weight), b.with_matrix(rows_step(m, t, start, count), count * rb))
    }
}

/// The parts of a fused tensor are next to each other in the file and within the tensor.
pub proof fn fused_parts_are_adjacent(m: ModelView, t: TensorView, a: nat, b: nat)
    requires
        (a + b) * t.dtype.bytes_for(t.n_cols()) <= t.bytes(),
        m.data_offset + t.offset + t.bytes() <= u64::MAX,
    ensures
        ({
            let x = rows_step(m, t, 0, a);
            let y = rows_step(m, t, a, b);
            &&& x->Matrix_start == m.data_offset + t.offset
            &&& x->Matrix_start + x->Matrix_len == y->Matrix_start
            &&& y->Matrix_start + y->Matrix_len <= m.data_offset + t.offset + t.bytes()
        }),
{
    let rb = t.dtype.bytes_for(t.n_cols());
    assert((a + b) * rb == a * rb + b * rb) by (nonlinear_arith);
    assert(0 <= a * rb && 0 <= b * rb && 0 * rb == 0) by (nonlinear_arith)
        requires
            0 <= rb,
            0 <= a,
            0 <= b,
    ;
}

/// A list of loads in the making.
#[derive(Debug)]
pub struct Binder {
    pub steps: Vec<LoadStep>,
    pub next_weight: u32,
    pub next_buffer: u32,
    pub uploaded: u64,
    pub failed: Option<Error>,
}

impl View for Binder {
    type V = BindView;

    open spec fn view(&self) -> BindView {
        BindView {
            steps: self.steps@,
            next_weight: self.next_weight,
            next_buffer: self.next_buffer,
            uploaded: self.uploaded,
            failed: match self.failed {
                Some(e) => Some(e@),
                None => None,
            },
        }
    }
}

impl Binder {
    pub fn new() -> (r: Self)
        ensures
            r@ == BindView::fresh(),
    {
        let r = Binder {
            steps: Vec::new(),
            next_weight: 0,
            next_buffer: 0,
            uploaded: 0,
            failed: None,
        };
        assert(r.steps@ =~= Seq::<LoadStep>::empty());
        r
    }

    fn push_matrix(&mut self, s: LoadStep, len: u64) -> (id: WeightId)
        requires
            old(self)@.failed is None,
        ensures
            id == WeightId(old(self)@.next_weight),
            final(self)@ == old(self)@.with_matrix(s, len as nat),
    {
        let id = WeightId(self.next_weight);
        self.steps.push(s);
        self.next_weight = self.next_weight.wrapping_add(1);
        self.uploaded = self.uploaded.saturating_add(len);
        id
    }

    /// The step that loads the tensor `t` as a weight.
    fn whole(g: &GgufModel<'_>, t: &TensorInfo) -> (s: LoadStep)
        requires
            g.wf(),
            t@.representable(),
            g.content().data_offset + t.offset + t@.bytes() <= g.content().data.len(),
        ensures
            s == matrix_step(g.content(), t@),
    {
        let len = g.data.len();
        LoadStep::Matrix {
            start: g.data_offset + t.offset,
            len: t.byte_size() as u64,
            dtype: t.dtype,
            rows: t.rows() as u64,
            cols: t.cols() as u64,
        }
    }

    /// The tensor under the first of `names` that is there.
    fn pick<'a>(g: &'a GgufModel<'_>, names: &Vec<String>) -> (r: Option<&'a TensorInfo>)
        requires
            g.wf(),
        ensures
            match picked(g.content(), texts(names@)) {
                Some(t) => r is Some && r->0@ == t && t.representable() && g.content().data_offset
                    + t.offset + t.bytes() <= g.content().data.len(),
                None => r is None && g.content().first_present(texts(names@), 0) is None,
            },
    {
        let rs = refs(names);
        match g.find_any(rs.as_slice()) {
            Some(i) => {
                proof {
                    crate::dict::key_from_is_first(
                        g.content().tensors,
                        texts(names@)[i as int],
                        0,
                    );
                }
                assert(texts(names@)[i as int] == strs(rs@)[i as int]);
                g.info(rs[i])
            },
            None => None,
        }
    }

    fn vector(&mut self, g: &GgufModel<'_>, names: &Vec<String>) -> (r: Option<BufferId>)
        requires
            g.wf(),
        ensures
            (r, final(self)@) == bind_vector(g.content(), old(self)@, texts(names@)),
    {
        if self.failed.is_some() {
            return None;
        }
        match Self::pick(g, names) {
            None => None,
            Some(t) => {
                let len = g.data.len();
                let id = BufferId(self.next_buffer);
                self.steps.push(
                    LoadStep::Vector {
                        start: g.data_offset + t.offset,
                        len: t.byte_size() as u64,
                        dtype: t.dtype,
                        rows: t.rows() as u64,
                        cols: t.cols() as u64,
                    },
                );
                self.next_buffer = self.next_buffer.wrapping_add(1);
                Some(id)
            },
        }
    }

    fn matrix(&mut self, g: &GgufModel<'_>, names: &Vec<String>) -> (r: Option<WeightId>)
        requires
            g.wf(),
        ensures
            (r, final(self)@) == bind_matrix(g.content(), old(self)@, texts(names@)),
    {
        if self.failed.is_some() {
            return None;
        }
        match Self::pick(g, names) {
            None => None,
            Some(t) => {
                let s = Self::whole(g, t);
                Some(self.push_matrix(s, t.byte_size() as u64))
            },
        }
    }

    fn matrix_req(&mut self, g: &GgufModel<'_>, names: &Vec<String>) -> (r: WeightId)
        requires
            g.wf(),
            texts(names@).len() > 0,
        ensures
            (r, final(self)@) == bind_required(g.content(), old(self)@, texts(names@)),
    {
        if self.failed.is_some() {
            return WeightId(0);
        }
        match Self::pick(g, names) {
            None => {
                let rs = refs(names);
                assert(rs@[0]@ == strs(rs@)[0]);
                match g.view_any_req(rs.as_slice()) {
                    Ok(_) => {},
                    Err(e) => {
                        self.failed = Some(e);
                    },
                }
                WeightId(0)
            },
            Some(t) => {
                let s = Self::whole(g, t);
                self.push_matrix(s, t.byte_size() as u64)
            },
        }
    }

    fn matrix_named(&mut self, g: &GgufModel<'_>, names: &Vec<String>, missing: String) -> (r:
        WeightId)
        requires
            g.wf(),
        ensures
            (r, final(self)@) == bind_named(g.content(), old(self)@, texts(names@), missing@),
    {
        if self.failed.is_some() {
            return WeightId(0);
        }
        match Self::pick(g, names) {
            None => {
                self.failed = Some(Error::MissingTensor(missing));
                WeightId(0)
            },
            Some(t) => {
                let s = Self::whole(g, t);
                self.push_matrix(s, t.byte_size() as u64)
            },
        }
    }

    fn row_slice(&mut self, g: &GgufModel<'_>, t: &TensorInfo, start: u128, count: u64) -> (r:
        WeightId)
        requires
            g.wf(),
            t@.representable(),
            g.content().data_offset + t.offset + t@.bytes() <= g.content().data.len(),
            start <= 0x1_ffff_ffff_ffff_ffff,
        ensures
            (r, final(self)@) == bind_rows(
                g.content(),
                old(self)@,
                t@,
                start as nat,
                count as nat,
            ),
    {
        if self.failed.is_some() {
            return WeightId(0);
        }
        let flen = g.data.len();
        let size: u64 = t.byte_size() as u64;
        let blocks: u64 = (t.cols() / t.dtype.block_size()) as u64;
        let per: u64 = t.dtype.type_size() as u64;
        assert(blocks * per <= 0xffff_ffff_ffff_ffff * 292) by (nonlinear_arith)
            requires
                blocks <= 0xffff_ffff_ffff_ffff,
                per <= 292,
        ;
        let rb: u128 = blocks as u128 * per as u128;
        let ghost rbn = t@.dtype.bytes_for(t@.n_cols());
        assert(rb == rbn);
        let n: u128 = start + count as u128;
        let fits: bool = if rb == 0 {
            assert((start + count) * rbn == 0) by (nonlinear_arith)
                requires
                    rbn == 0,
            ;
            true
        } else if n > size as u128 {
            assert((start + count) * rbn > size) by (nonlinear_arith)
                requires
                    rbn >= 1,
                    start + count > size,
            ;
            false
        } else if rb > size as u128 {
            assert(n > 0 ==> n * rbn > size) by (nonlinear_arith)
                requires
                    rbn > size,
            ;
            assert(n == 0 ==> n * rbn == 0) by (nonlinear_arith);
            n == 0
        } else {
            assert(n * rb <= 0xffff_ffff_ffff_ffff * 0xffff_ffff_ffff_ffff) by (nonlinear_arith)
                requires
                    n <= 0xffff_ffff_ffff_ffff,
                    rb <= 0xffff_ffff_ffff_ffff,
            ;
            n * rb <= size as u128
        };
        if !fits {
            self.failed = Some(
                Error::Shape(
                    crate::text::cat2("a fused tensor has too few rows: ", t.name.as_str()),
                ),
            );
            return WeightId(0);
        }
        assert((start + count) * rbn == start * rbn + count * rbn) by (nonlinear_arith);
        assert(0 <= start * rbn && 0 <= count * rbn) by (nonlinear_arith)
            requires
                0 <= start,
                0 <= count,
                0 <= rbn,
        ;
        let from: u64 = (start * rb) as u64;
        let len: u64 = (count as u128 * rb) as u64;
        let s = LoadStep::Matrix {
            start: g.data_offset + t.offset + from,
            len,
            dtype: t.dtype,
            rows: count,
            cols: t.cols() as u64,
        };
        assert(s == rows_step(g.content(), t@, start as nat, count as nat));
        self.push_matrix(s, len)
    }
}

// ----------------------------------------------------------------------------- a layer

/// Q, K and V: three tensors, or row ranges of a fused one.
pub open spec fn bind_qkv(m: ModelView, b: BindView, s: SpecView, i: nat) -> (
    (WeightId, WeightId, WeightId),
    BindView,
) {
    match m.tensor(blk_name(i, "attn_qkv.weight"@)) {
        Some(fused) if !m.has(blk_name(i, "attn_q.weight"@)) => {
            let (q, b1) = bind_rows(m, b, fused, 0, s.embd_q());
            let (k, b2) = bind_rows(m, b1, fused, s.embd_q(), s.embd_k());
            let (v, b3) = bind_rows(m, b2, fused, s.embd_q() + s.embd_k(), s.embd_k());
            ((q, k, v), b3)
        },
        _ => {
            let (q, b1) = bind_required(m, b, seq![blk_name(i, "attn_q.weight"@)]);
            let (k, b2) = bind_required(m, b1, seq![blk_name(i, "attn_k.weight"@)]);
            let (v, b3) = bind_required(m, b2, seq![blk_name(i, "attn_v.weight"@)]);
            ((q, k, v), b3)
        },
    }
}

/// Gate and up likewise, for models that fuse them.
pub open spec fn bind_gate_up(m: ModelView, b: BindView, i: nat) -> (
    (Option<WeightId>, Option<WeightId>),
    BindView,
) {
    match m.tensor(blk_name(i, "ffn_gate_up.weight"@)) {
        Some(fused) => {
            let half = fused.n_rows() / 2;
            let (g, b1) = bind_rows(m, b, fused, 0, half);
            let (u, b2) = bind_rows(m, b1, fused, half, half);
            ((Some(g), Some(u)), b2)
        },
        None => {
            let (g, b1) = bind_matrix(m, b, seq![blk_name(i, "ffn_gate.weight"@)]);
            let (u, b2) = bind_matrix(m, b1, seq![blk_name(i, "ffn_up.weight"@)]);
            ((g, u), b2)
        },
    }
}

/// The experts of block `i`, where it has a router.
pub open spec fn bind_moe(m: ModelView, b: BindView, i: nat) -> (Option<MoeWeights>, BindView) {
    let (gate, b1) = bind_matrix(m, b, seq![blk_name(i, "ffn_gate_inp.weight"@)]);
    match gate {
        None => (None, b1),
        Some(gate_inp) => {
            let (gate_exps, b2) = bind_matrix(
                m,
                b1,
                seq![
                    blk_name(i, "ffn_gate_exps.weight"@),
                    blk_name(i, "ffn_gate_exp.weight"@),
                ],
            );
            let (up_exps, b3) = bind_named(
                m,
                b2,
                seq![blk_name(i, "ffn_up_exps.weight"@), blk_name(i, "ffn_up_exp.weight"@)],
                blk_name(i, "ffn_up_exps.weight"@),
            );
            let (down_exps, b4) = bind_named(
                m,
                b3,
                seq![
                    blk_name(i, "ffn_down_exps.weight"@),
                    blk_name(i, "ffn_down_exp.weight"@),
                ],
                blk_name(i, "ffn_down_exps.weight"@),
            );
            let (exp_probs_b, b5) = bind_vector(m, b4, seq![blk_name(i, "exp_probs_b.bias"@)]);
            (Some(MoeWeights { gate_inp, gate_exps, up_exps, down_exps, exp_probs_b }), b5)
        },
    }
}

/// The shared expert of block `i`, where it has one.
pub open spec fn bind_shexp(m: ModelView, b: BindView, i: nat) -> (
    Option<(Option<WeightId>, WeightId, WeightId)>,
    BindView,
) {
    let (up, b1) = bind_matrix(m, b, seq![blk_name(i, "ffn_up_shexp.weight"@)]);
    match up {
        None => (None, b1),
        Some(u) => {
            let (gate, b2) = bind_matrix(m, b1, seq![blk_name(i, "ffn_gate_shexp.weight"@)]);
            let (down, b3) = bind_named(
                m,
                b2,
                seq![blk_name(i, "ffn_down_shexp.weight"@)],
                blk_name(i, "ffn_down_shexp.weight"@),
            );
            (Some((gate, u, down)), b3)
        },
    }
}

/// The weights of block `i`.
pub open spec fn bind_layer(m: ModelView, b: BindView, s: SpecView, i: nat) -> (
    LayerWeights,
    BindView,
) {
    let ((attn_q, attn_k, attn_v), c0) = bind_qkv(m, b, s, i);
    let ((ffn_gate, ffn_up), c1) = bind_gate_up(m, c0, i);
    let (moe, c2) = bind_moe(m, c1, i);
    let (shexp, d0) = bind_shexp(m, c2, i);
    let (attn_norm, d1) = bind_vector(m, d0, seq![blk_name(i, "attn_norm.weight"@), blk_name(i, "pre_attention_layernorm.weight"@)]);
    let (attn_norm_b, d2) = bind_vector(m, d1, seq![blk_name(i, "attn_norm.bias"@)]);
    let (attn_out, d3) = bind_required(m, d2, seq![blk_name(i, "attn_output.weight"@), blk_name(i, "attn_out.weight"@)]);
    let (q_bias, d4) = bind_vector(m, d3, seq![blk_name(i, "attn_q.bias"@)]);
    let (k_bias, d5) = bind_vector(m, d4, seq![blk_name(i, "attn_k.bias"@)]);
    let (v_bias, d6) = bind_vector(m, d5, seq![blk_name(i, "attn_v.bias"@)]);
    let (out_bias, d7) = bind_vector(m, d6, seq![blk_name(i, "attn_output.bias"@)]);
    let (q_norm, d8) = bind_vector(m, d7, seq![blk_name(i, "attn_q_norm.weight"@)]);
    let (k_norm, d9) = bind_vector(m, d8, seq![blk_name(i, "attn_k_norm.weight"@)]);
    let (post_attn_norm, d10) = bind_vector(m, d9, seq![blk_name(i, "post_attention_norm.weight"@), blk_name(i, "attn_post_norm.weight"@)]);
    let (ffn_norm, d11) = bind_vector(m, d10, seq![blk_name(i, "ffn_norm.weight"@), blk_name(i, "post_attention_layernorm.weight"@), blk_name(i, "pre_ff_layernorm.weight"@)]);
    let (ffn_norm_b, d12) = bind_vector(m, d11, seq![blk_name(i, "ffn_norm.bias"@)]);
    let (ffn_down, d13) = bind_matrix(m, d12, seq![blk_name(i, "ffn_down.weight"@)]);
    let (ffn_up_b, d14) = bind_vector(m, d13, seq![blk_name(i, "ffn_up.bias"@)]);
    let (ffn_down_b, d15) = bind_vector(m, d14, seq![blk_name(i, "ffn_down.bias"@)]);
    let (ffn_post_norm, d16) = bind_vector(m, d15, seq![blk_name(i, "post_ffw_norm.weight"@), blk_name(i, "ffn_post_norm.weight"@)]);
    let (sinks, d17) = bind_vector(m, d16, seq![blk_name(i, "attn_sinks.weight"@), blk_name(i, "attn_sinks"@)]);
    (
        LayerWeights {
            attn_norm,
            attn_norm_b,
            attn_q,
            attn_k,
            attn_v,
            attn_out,
            q_bias,
            k_bias,
            v_bias,
            out_bias,
            q_norm,
            k_norm,
            post_attn_norm,
            ffn_norm,
            ffn_norm_b,
            ffn_gate,
            ffn_up,
            ffn_down,
            ffn_up_b,
            ffn_down_b,
            ffn_post_norm,
            moe,
            shexp,
            sinks,
        },
        d17,
    )
}

/// The weights of the first `n` blocks.
pub open spec fn bind_layers(m: ModelView, b: BindView, s: SpecView, n: nat) -> (
    Seq<LayerWeights>,
    BindView,
)
    decreases n,
{
    if n == 0 {
        (Seq::empty(), b)
    } else {
        let (done, b1) = bind_layers(m, b, s, (n - 1) as nat);
        let (w, b2) = bind_layer(m, b1, s, (n - 1) as nat);
        (done.push(w), b2)
    }
}

/// All weights of the file `m`.
#[verifier::opaque]
pub open spec fn bind_all(m: ModelView, s: SpecView) -> (WeightsView, BindView) {
    let (token_embd, b1) = bind_required(m, BindView::fresh(), seq!["token_embd.weight"@]);
    let (output, b2) = if s.tied_embeddings {
        (token_embd, b1)
    } else {
        bind_required(m, b1, seq!["output.weight"@])
    };
    let (output_norm, b3) = bind_vector(m, b2, seq!["output_norm.weight"@]);
    let (output_norm_b, b4) = bind_vector(m, b3, seq!["output_norm.bias"@]);
    let (rope_freqs, b5) = bind_vector(m, b4, seq!["rope_freqs.weight"@]);
    let (layers, b6) = bind_layers(m, b5, s, s.n_layers as nat);
    (
        WeightsView {
            token_embd,
            output,
            output_norm,
            output_norm_b,
            rope_freqs,
            layers,
            bytes_uploaded: b6.uploaded,
        },
        b6,
    )
}

proof fn bind_layers_len(m: ModelView, b: BindView, s: SpecView, n: nat)
    ensures
        bind_layers(m, b, s, n).0.len() == n,
    decreases n,
{
    if n > 0 {
        bind_layers_len(m, b, s, (n - 1) as nat);
    }
}

/// After a failure binding a layer changes nothing.
proof fn bind_layer_keeps_failure(m: ModelView, b: BindView, s: SpecView, i: nat)
    requires
        b.failed is Some,
    ensures
        bind_layer(m, b, s, i).1 == b,
{
    assert(bind_qkv(m, b, s, i).1 == b);
    assert(bind_gate_up(m, b, i).1 == b);
    assert(bind_moe(m, b, i).1 == b);
    assert(bind_shexp(m, b, i).1 == b);
}

proof fn bind_layers_keep_failure(m: ModelView, b: BindView, s: SpecView, k: nat, n: nat)
    requires
        k <= n,
        bind_layers(m, b, s, k).1.failed is Some,
    ensures
        bind_layers(m, b, s, n).1 == bind_layers(m, b, s, k).1,
    decreases n,
{
    if k < n {
        bind_layers_keep_failure(m, b, s, k, (n - 1) as nat);
        bind_layer_keeps_failure(
            m,
            bind_layers(m, b, s, (n - 1) as nat).1,
            s,
            (n - 1) as nat,
        );
    }
}

impl Weights {
    fn qkv(b: &mut Binder, g: &GgufModel<'_>, spec: &ArchSpec, i: u32) -> (r: (
        WeightId,
        WeightId,
        WeightId,
    ))
        requires
            g.wf(),
        ensures
            (r, final(b)@) == bind_qkv(g.content(), old(b)@, spec@, i as nat),
    {
        let n_q = spec.n_embd_q();
        let n_kv = spec.n_embd_k();
        let fused_name = blk(i, "attn_qkv.weight");
        proof {
            crate::dict::key_from_is_first(g.content().tensors, fused_name@, 0);
        }
        match g.info(fused_name.as_str()) {
            Some(fused) => if !g.contains(blk(i, "attn_q.weight").as_str()) {
                let q = b.row_slice(g, fused, 0, n_q);
                let k = b.row_slice(g, fused, n_q as u128, n_kv);
                let v = b.row_slice(g, fused, n_q as u128 + n_kv as u128, n_kv);
                return (q, k, v);
            },
            None => {},
        }
        let q = b.matrix_req(g, &names1(i, "attn_q.weight"));
        let k = b.matrix_req(g, &names1(i, "attn_k.weight"));
        let v = b.matrix_req(g, &names1(i, "attn_v.weight"));
        (q, k, v)
    }

    fn gate_up(b: &mut Binder, g: &GgufModel<'_>, i: u32) -> (r: (
        Option<WeightId>,
        Option<WeightId>,
    ))
        requires
            g.wf(),
        ensures
            (r, final(b)@) == bind_gate_up(g.content(), old(b)@, i as nat),
    {
        let fused_name = blk(i, "ffn_gate_up.weight");
        proof {
            crate::dict::key_from_is_first(g.content().tensors, fused_name@, 0);
        }
        match g.info(fused_name.as_str()) {
            Some(fused) => {
                let half = (fused.rows() / 2) as u64;
                let gate = b.row_slice(g, fused, 0, half);
                let up = b.row_slice(g, fused, half as u128, half);
                (Some(gate), Some(up))
            },
            None => {
                let gate = b.matrix(g, &names1(i, "ffn_gate.weight"));
                let up = b.matrix(g, &names1(i, "ffn_up.weight"));
                (gate, up)
            },
        }
    }

    fn experts(b: &mut Binder, g: &GgufModel<'_>, i: u32) -> (r: Option<MoeWeights>)
        requires
            g.wf(),
        ensures
            (r, final(b)@) == bind_moe(g.content(), old(b)@, i as nat),
    {
        match b.matrix(g, &names1(i, "ffn_gate_inp.weight")) {
            None => None,
            Some(gate_inp) => {
                let gate_exps = b.matrix(
                    g,
                    &names2(i, "ffn_gate_exps.weight", "ffn_gate_exp.weight"),
                );
                let up_exps = b.matrix_named(
                    g,
                    &names2(i, "ffn_up_exps.weight", "ffn_up_exp.weight"),
                    blk(i, "ffn_up_exps.weight"),
                );
                let down_exps = b.matrix_named(
                    g,
                    &names2(i, "ffn_down_exps.weight", "ffn_down_exp.weight"),
                    blk(i, "ffn_down_exps.weight"),
                );
                let exp_probs_b = b.vector(g, &names1(i, "exp_probs_b.bias"));
                Some(MoeWeights { gate_inp, gate_exps, up_exps, down_exps, exp_probs_b })
            },
        }
    }

    fn shared(b: &mut Binder, g: &GgufModel<'_>, i: u32) -> (r: Option<
        (Option<WeightId>, WeightId, WeightId),
    >)
        requires
            g.wf(),
        ensures
            (r, final(b)@) == bind_shexp(g.content(), old(b)@, i as nat),
    {
        match b.matrix(g, &names1(i, "ffn_up_shexp.weight")) {
            None => None,
            Some(up) => {
                let gate = b.matrix(g, &names1(i, "ffn_gate_shexp.weight"));
                let down = b.matrix_named(
                    g,
                    &names1(i, "ffn_down_shexp.weight"),
                    blk(i, "ffn_down_shexp.weight"),
                );
                Some((gate, up, down))
            },
        }
    }

    fn layer(b: &mut Binder, g: &GgufModel<'_>, spec: &ArchSpec, i: u32) -> (r: LayerWeights)
        requires
            g.wf(),
        ensures
            (r, final(b)@) == bind_layer(g.content(), old(b)@, spec@, i as nat),
    {
        let (attn_q, attn_k, attn_v) = Self::qkv(b, g, spec, i);
        let (ffn_gate, ffn_up) = Self::gate_up(b, g, i);
        let moe = Self::experts(b, g, i);
        let shexp = Self::shared(b, g, i);
        let attn_norm = b.vector(g, &names2(i, "attn_norm.weight", "pre_attention_layernorm.weight"));
        let attn_norm_b = b.vector(g, &names1(i, "attn_norm.bias"));
        let attn_out = b.matrix_req(g, &names2(i, "attn_output.weight", "attn_out.weight"));
        let q_bias = b.vector(g, &names1(i, "attn_q.bias"));
        let k_bias = b.vector(g, &names1(i, "attn_k.bias"));
        let v_bias = b.vector(g, &names1(i, "attn_v.bias"));
        let out_bias = b.vector(g, &names1(i, "attn_output.bias"));
        let q_norm = b.vector(g, &names1(i, "attn_q_norm.weight"));
        let k_norm = b.vector(g, &names1(i, "attn_k_norm.weight"));
        let post_attn_norm = b.vector(g, &names2(i, "post_attention_norm.weight", "attn_post_norm.weight"));
        let ffn_norm = b.vector(g, &names3(i, "ffn_norm.weight", "post_attention_layernorm.weight", "pre_ff_layernorm.weight"));
        let ffn_norm_b = b.vector(g, &names1(i, "ffn_norm.bias"));
        let ffn_down = b.matrix(g, &names1(i, "ffn_down.weight"));
        let ffn_up_b = b.vector(g, &names1(i, "ffn_up.bias"));
        let ffn_down_b = b.vector(g, &names1(i, "ffn_down.bias"));
        let ffn_post_norm = b.vector(g, &names2(i, "post_ffw_norm.weight", "ffn_post_norm.weight"));
        let sinks = b.vector(g, &names2(i, "attn_sinks.weight", "attn_sinks"));
        LayerWeights {
            attn_norm,
            attn_norm_b,
            attn_q,
            attn_k,
            attn_v,
            attn_out,
            q_bias,
            k_bias,
            v_bias,
            out_bias,
            q_norm,
            k_norm,
            post_attn_norm,
            ffn_norm,
            ffn_norm_b,
            ffn_gate,
            ffn_up,
            ffn_down,
            ffn_up_b,
            ffn_down_b,
            ffn_post_norm,
            moe,
            shexp,
            sinks,
        }
    }

    /// Binds every weight. The loads stand in `b`, also those before a failure.
    pub fn load(g: &GgufModel<'_>, spec: &ArchSpec, b: &mut Binder) -> (r: Result<Self, Error>)
        requires
            g.wf(),
            old(b)@ == BindView::fresh(),
        ensures
            final(b).steps@ == bind_all(g.content(), spec@).1.steps,
            match bind_all(g.content(), spec@).1.failed {
                Some(e) => r is Err && r->Err_0@ == e,
                None => r is Ok && r->Ok_0@ == bind_all(g.content(), spec@).0
                    && r->Ok_0.layers@.len() == spec.n_layers && final(b).next_buffer == bind_all(
                    g.content(),
                    spec@,
                ).1.next_buffer,
            },
    {
        proof {
            reveal(bind_all);
        }
        let token_embd = b.matrix_req(g, &name_only("token_embd.weight"));
        let output = if spec.tied_embeddings {
            token_embd
        } else {
            b.matrix_req(g, &name_only("output.weight"))
        };
        let output_norm = b.vector(g, &name_only("output_norm.weight"));
        let output_norm_b = b.vector(g, &name_only("output_norm.bias"));
        let rope_freqs = b.vector(g, &name_only("rope_freqs.weight"));
        let ghost b5 = b@;
        let mut layers: Vec<LayerWeights> = Vec::new();
        assert(layers@ =~= Seq::<LayerWeights>::empty());
        let mut i: u32 = 0;
        while i < spec.n_layers && b.failed.is_none()
            invariant
                g.wf(),
                i <= spec.n_layers,
                (layers@, b@) == bind_layers(g.content(), b5, spec@, i as nat),
            decreases spec.n_layers - i,
        {
            let w = Self::layer(b, g, spec, i);
            layers.push(w);
            i = i + 1;
        }
        proof {
            bind_layers_len(g.content(), b5, spec@, i as nat);
            if b@.failed is Some {
                bind_layers_keep_failure(
                    g.content(),
                    b5,
                    spec@,
                    i as nat,
                    spec.n_layers as nat,
                );
            }
        }
        match b.failed.take() {
            Some(e) => Err(e),
            None => Ok(
                Weights {
                    token_embd,
                    output,
                    output_norm,
                    output_norm_b,
                    rope_freqs,
                    layers,
                    bytes_uploaded: b.uploaded,
                },
            ),
        }
    }
}

} // verus!
