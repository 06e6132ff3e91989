//! What a file says, and what was concluded from it.
//!
//! Architecture support is inferred rather than tabulated: when a new model behaves oddly, the
//! first question is what was decided about it.

use vstd::prelude::*;
use vstd::string::*;

use super::args::InspectArgs;
use super::summary::{has_line, line_of, Printer, Show};
use crate::backend::{Activation, GateFunc, NormKind, Sections};
use crate::device::{pad_left, pad_right, padded_left, padded_right};
use crate::dict::key_from_is_first;
use crate::dtype::{dtype_of_id, DType};
use crate::error::{Error, ErrorView};
use crate::gguf::model::{GgufModel, ModelView};
use crate::gguf::reader::TensorView;
use crate::gguf::value::{keys_of, MetaView, Metadata};
use crate::jinja::number::{Host, Maths, NumOp};
use crate::model::spec::{
    infer_spec, rope_label, rope_name, style_label, style_name, ArchSpec, MoeSpec, SpecView,
};
use crate::scalar::{value_of, Scalar};
use crate::single::{equal, is_equal, Arith, FloatOp, Ops, UNIT};
use crate::text::{
    cat2, cat3, cat4, cat5, contains_text, debug_text, dec, decimal, has_text, join_text, joined,
    own, quoted, sorted, texts,
};
use crate::tokenizer::encode::encoded;
use crate::tokenizer::facade::Tokenizer;
use crate::tokenizer::index::place_of;
use crate::tokenizer::template::{turns, Builtin, ChatMessage, ChatTemplate};
use crate::tokenizer::vocab::{TokenizerKind, Vocab};

verus! {

pub type Words = spec_fn(Show) -> Seq<char>;

// ---------------------------------------------------------------------------------- the file

/// The types, their names ascending.
pub open spec fn by_label() -> Seq<DType> {
    seq![
        DType::BF16,
        DType::F16,
        DType::F32,
        DType::F64,
        DType::I16,
        DType::I32,
        DType::I64,
        DType::I8,
        DType::Iq1M,
        DType::Iq1S,
        DType::Iq2S,
        DType::Iq2Xs,
        DType::Iq2Xxs,
        DType::Iq3S,
        DType::Iq3Xxs,
        DType::Iq4Nl,
        DType::Iq4Xs,
        DType::Mxfp4,
        DType::Q2K,
        DType::Q3K,
        DType::Q4_0,
        DType::Q4_1,
        DType::Q4K,
        DType::Q5_0,
        DType::Q5_1,
        DType::Q5K,
        DType::Q6K,
        DType::Q8_0,
        DType::Q8_1,
        DType::Q8K,
        DType::Tq1_0,
        DType::Tq2_0,
    ]
}

/// The types, their names ascending.
pub fn types_by_name() -> (r: Vec<DType>)
    ensures
        r@ == by_label(),
{
    let r = vec![
        DType::BF16,
        DType::F16,
        DType::F32,
        DType::F64,
        DType::I16,
        DType::I32,
        DType::I64,
        DType::I8,
        DType::Iq1M,
        DType::Iq1S,
        DType::Iq2S,
        DType::Iq2Xs,
        DType::Iq2Xxs,
        DType::Iq3S,
        DType::Iq3Xxs,
        DType::Iq4Nl,
        DType::Iq4Xs,
        DType::Mxfp4,
        DType::Q2K,
        DType::Q3K,
        DType::Q4_0,
        DType::Q4_1,
        DType::Q4K,
        DType::Q5_0,
        DType::Q5_1,
        DType::Q5K,
        DType::Q6K,
        DType::Q8_0,
        DType::Q8_1,
        DType::Q8K,
        DType::Tq1_0,
        DType::Tq2_0,
    ];
    assert(r@ =~= by_label());
    r
}

/// How many of the first `n` tensors are of the type `t`.
pub open spec fn count_of(m: ModelView, t: DType, n: nat) -> nat
    decreases n,
{
    if n == 0 || n > m.tensors.len() {
        0
    } else {
        count_of(m, t, (n - 1) as nat) + if m.tensors[n - 1].1.dtype == t {
            1nat
        } else {
            0nat
        }
    }
}

/// One type in use: how many tensors have it, and how large they are.
pub open spec fn type_part(w: Words, m: ModelView, t: DType) -> Seq<char> {
    let n = m.tensors.len();
    t.label() + " x"@ + dec(count_of(m, t, n)) + " ("@ + w(
        Show::WholeMib(m.typed_bytes(t, n) as u64),
    ) + " MiB)"@
}

/// Those of the first `n` types that are in use.
pub open spec fn type_parts(w: Words, m: ModelView, n: nat) -> Seq<Seq<char>>
    decreases n,
{
    if n == 0 || n > by_label().len() {
        Seq::empty()
    } else {
        let before = type_parts(w, m, (n - 1) as nat);
        if m.uses(by_label()[n - 1]) {
            before.push(type_part(w, m, by_label()[n - 1]))
        } else {
            before
        }
    }
}

/// The names of the types in use with numbers below `v` that are not decoded.
pub open spec fn refused_names(m: ModelView, v: nat) -> Seq<Seq<char>>
    decreases v,
{
    if v == 0 {
        Seq::empty()
    } else {
        let before = refused_names(m, (v - 1) as nat);
        match dtype_of_id((v - 1) as u32) {
            Some(t) => if m.uses(t) && t.has_codebook() {
                before.push(t.label())
            } else {
                before
            },
            None => before,
        }
    }
}

pub open spec fn refused_lines(m: ModelView) -> Seq<Seq<char>> {
    let names = refused_names(m, 40);
    if names.len() == 0 {
        Seq::empty()
    } else {
        seq![
            "  UNSUPPORTED     "@ + joined(names, ", "@)
                + " (codebook quantizations this engine does not decode)"@,
        ]
    }
}

pub open spec fn file_lines(w: Words, m: ModelView, path: Seq<char>, most: DType) -> Seq<Seq<char>> {
    seq![
        "file"@,
        "  path            "@ + path,
        "  gguf version    "@ + dec(m.version as nat),
        "  tensors         "@ + dec(m.tensors.len()),
        "  metadata keys   "@ + dec(m.meta.map.len()),
        "  weights         "@ + w(Show::Gib(m.total_bytes(m.tensors.len()) as u64))
            + " GiB, mostly "@ + most.label(),
        "  quantizations   "@ + joined(type_parts(w, m, by_label().len()), ", "@),
    ] + refused_lines(m)
}

fn count_type(g: &GgufModel<'_>, t: DType) -> (r: usize)
    requires
        g.wf(),
    ensures
        r == count_of(g.content(), t, g.content().tensors.len()),
{
    let mut n: usize = 0;
    let mut i: usize = 0;
    while i < g.tensors.len()
        invariant
            g.wf(),
            i <= g.content().tensors.len(),
            n <= i,
            n == count_of(g.content(), t, i as nat),
        decreases g.content().tensors.len() - i,
    {
        if g.tensors.value(i).dtype == t {
            n = n + 1;
        }
        i = i + 1;
    }
    n
}

fn type_texts<W: Fn(Show) -> String>(p: &Printer<W>, g: &GgufModel<'_>) -> (r: Vec<String>)
    requires
        p.works(),
        g.wf(),
        g.content().total_bytes(g.content().tensors.len()) <= u64::MAX,
    ensures
        texts(r@) == type_parts(p.words(), g.content(), by_label().len()),
{
    let ghost m = g.content();
    let ghost w = p.words();
    let all = types_by_name();
    let mut out: Vec<String> = Vec::new();
    let mut i: usize = 0;
    assert(texts(out@) =~= Seq::empty());
    while i < all.len()
        invariant
            p.works(),
            g.wf(),
            m == g.content(),
            w == p.words(),
            m.total_bytes(m.tensors.len()) <= u64::MAX,
            all@ == by_label(),
            i <= all@.len(),
            texts(out@) == type_parts(w, m, i as nat),
        decreases all@.len() - i,
    {
        let ghost before = texts(out@);
        let t = all[i];
        if g.uses_type(t) {
            let mut s = cat4(t.name(), " x", decimal(count_type(g, t) as u64).as_str(), " (");
            s.append(p.say(Show::WholeMib(g.bytes_of_type(t))).as_str());
            s.append(" MiB)");
            out.push(s);
            assert(texts(out@) =~= before.push(type_part(w, m, t)));
        }
        i = i + 1;
    }
    out
}

fn refused_types(g: &GgufModel<'_>) -> (r: Vec<String>)
    requires
        g.wf(),
    ensures
        texts(r@) == refused_names(g.content(), 40),
{
    let ghost m = g.content();
    let mut out: Vec<String> = Vec::new();
    let mut v: u32 = 0;
    assert(texts(out@) =~= Seq::empty());
    while v < 40
        invariant
            g.wf(),
            m == g.content(),
            v <= 40,
            texts(out@) == refused_names(m, v as nat),
        decreases 40 - v,
    {
        let ghost before = texts(out@);
        if let Ok(t) = DType::from_u32(v) {
            if g.uses_type(t) && t.needs_codebook() {
                out.push(own(t.name()));
                assert(texts(out@) =~= before.push(t.label()));
            }
        }
        v = v + 1;
    }
    out
}

/// What the file says of itself.
fn describe_file<W: Fn(Show) -> String>(p: &Printer<W>, g: &GgufModel<'_>, path: &str, most: DType) -> (r:
    Vec<String>)
    requires
        p.works(),
        g.wf(),
        g.content().total_bytes(g.content().tensors.len()) <= u64::MAX,
    ensures
        texts(r@) == file_lines(p.words(), g.content(), path@, most),
{
    let ghost m = g.content();
    let ghost w = p.words();
    let mut out: Vec<String> = Vec::new();
    out.push(own("file"));
    out.push(cat2("  path            ", path));
    out.push(cat2("  gguf version    ", decimal(g.version as u64).as_str()));
    out.push(cat2("  tensors         ", decimal(g.tensors.len() as u64).as_str()));
    out.push(cat2("  metadata keys   ", decimal(g.meta.len() as u64).as_str()));
    out.push(
        cat4(
            "  weights         ",
            p.say(Show::Gib(g.weights_bytes())).as_str(),
            " GiB, mostly ",
            most.name(),
        ),
    );
    let types = type_texts(p, g);
    out.push(cat2("  quantizations   ", join_text(types.as_slice(), ", ").as_str()));
    let ghost front = texts(out@);
    proof {
        assert(front =~= seq![
            "file"@,
            "  path            "@ + path@,
            "  gguf version    "@ + dec(m.version as nat),
            "  tensors         "@ + dec(m.tensors.len()),
            "  metadata keys   "@ + dec(m.meta.map.len()),
            "  weights         "@ + w(Show::Gib(m.total_bytes(m.tensors.len()) as u64))
                + " GiB, mostly "@ + most.label(),
            "  quantizations   "@ + joined(type_parts(w, m, by_label().len()), ", "@),
        ]);
    }
    let refused = refused_types(g);
    if refused.len() > 0 {
        assert(texts(refused@).len() == refused@.len());
        out.push(
            cat3(
                "  UNSUPPORTED     ",
                join_text(refused.as_slice(), ", ").as_str(),
                " (codebook quantizations this engine does not decode)",
            ),
        );
    }
    assert(texts(out@) =~= front + refused_lines(m)) by {
        assert(texts(refused@).len() == refused@.len());
    }
    out
}

// -------------------------------------------------------------------------- the architecture

pub open spec fn norm_label(k: NormKind) -> Seq<char> {
    match k {
        NormKind::Rms => "Rms"@,
        NormKind::Layer => "Layer"@,
    }
}

fn norm_name(k: NormKind) -> (r: &'static str)
    ensures
        r@ == norm_label(k),
{
    match k {
        NormKind::Rms => "Rms",
        NormKind::Layer => "Layer",
    }
}

pub open spec fn act_label(a: Activation) -> Seq<char> {
    match a {
        Activation::Silu => "Silu"@,
        Activation::Gelu => "Gelu"@,
        Activation::GeluTanh => "GeluTanh"@,
        Activation::GeluQuick => "GeluQuick"@,
        Activation::Relu => "Relu"@,
        Activation::Relu2 => "Relu2"@,
        Activation::Swish => "Swish"@,
    }
}

fn act_name(a: Activation) -> (r: &'static str)
    ensures
        r@ == act_label(a),
{
    match a {
        Activation::Silu => "Silu",
        Activation::Gelu => "Gelu",
        Activation::GeluTanh => "GeluTanh",
        Activation::GeluQuick => "GeluQuick",
        Activation::Relu => "Relu",
        Activation::Relu2 => "Relu2",
        Activation::Swish => "Swish",
    }
}

pub open spec fn truth(b: bool) -> Seq<char> {
    if b {
        "true"@
    } else {
        "false"@
    }
}

fn truth_text(b: bool) -> (r: &'static str)
    ensures
        r@ == truth(b),
{
    if b {
        "true"
    } else {
        "false"
    }
}

pub open spec fn gate_label(g: GateFunc) -> Seq<char> {
    match g {
        GateFunc::Softmax => "Softmax"@,
        GateFunc::Sigmoid => "Sigmoid"@,
    }
}

fn gate_name(g: GateFunc) -> (r: &'static str)
    ensures
        r@ == gate_label(g),
{
    match g {
        GateFunc::Softmax => "Softmax",
        GateFunc::Sigmoid => "Sigmoid",
    }
}

#[verifier::opaque]
pub open spec fn size_lines(s: SpecView) -> Seq<Seq<char>> {
    seq![
        "  declared        "@ + s.arch,
        "  name            "@ + s.name,
        "  layers          "@ + dec(s.n_layers as nat),
        "  embedding       "@ + dec(s.n_embd as nat),
        "  heads           "@ + dec(s.n_heads as nat) + " q, "@ + dec(s.n_kv_heads as nat)
            + " kv, head_dim "@ + dec(s.head_dim as nat),
        "  vocab           "@ + dec(s.n_vocab as nat),
        "  trained ctx     "@ + dec(s.n_ctx_train as nat),
    ]
}

#[verifier::opaque]
pub open spec fn shape_lines(w: Words, s: SpecView) -> Seq<Seq<char>> {
    seq![
        "  block style     "@ + style_label(s.style),
        "  norm            "@ + norm_label(s.norm_kind) + ", eps "@ + w(
            Show::Of(Scalar::Of(s.norm_eps)),
        ),
        "  rope            "@ + rope_label(s.rope.kind) + ", base "@ + w(
            Show::Of(Scalar::Of(s.rope.freq_base)),
        ) + ", n_rot "@ + dec(s.rope.n_rot as nat) + ", scale "@ + w(Show::Of(s.rope.freq_scale)),
    ]
}

#[verifier::opaque]
pub open spec fn section_lines(c: Sections) -> Seq<Seq<char>> {
    if c.a > 0 || c.b > 0 || c.c > 0 || c.d > 0 {
        seq![
            "  rope sections   ["@ + dec(c.a as nat) + ", "@ + dec(c.b as nat) + ", "@ + dec(
                c.c as nat,
            ) + ", "@ + dec(c.d as nat) + "]"@,
        ]
    } else {
        Seq::empty()
    }
}

#[verifier::opaque]
pub open spec fn yarn_lines(w: Words, f: Ops, s: SpecView) -> Seq<Seq<char>> {
    if equal(value_of(f, s.rope.ext_factor), 0) {
        Seq::empty()
    } else {
        seq![
            "  yarn            ext "@ + w(Show::Of(s.rope.ext_factor)) + ", attn "@ + w(
                Show::Of(Scalar::Of(s.rope.attn_factor)),
            ) + ", beta "@ + w(Show::Of(Scalar::Of(s.rope.beta_fast))) + "/"@ + w(
                Show::Of(Scalar::Of(s.rope.beta_slow)),
            ) + ", orig ctx "@ + dec(s.rope.orig_ctx as nat),
        ]
    }
}

pub open spec fn shared_lines(m: MoeSpec) -> Seq<Seq<char>> {
    if m.n_ff_shexp > 0 {
        seq!["  shared expert   ff "@ + dec(m.n_ff_shexp as nat)]
    } else {
        Seq::empty()
    }
}

#[verifier::opaque]
pub open spec fn ffn_lines(s: SpecView) -> Seq<Seq<char>> {
    seq!["  activation      "@ + act_label(s.act) + ", gated "@ + truth(s.gated_ffn)] + match s.moe {
        Some(m) => seq![
            "  moe             "@ + dec(m.n_expert_used as nat) + " of "@ + dec(m.n_expert as nat)
                + " experts, ff "@ + dec(m.n_ff_exp as nat) + ", gate "@ + gate_label(m.gate_func)
                + ", norm_topk "@ + truth(m.norm_topk),
        ] + shared_lines(m),
        None => seq!["  feed-forward    "@ + dec(s.n_ff as nat)],
    }
}

#[verifier::opaque]
pub open spec fn window_lines(s: SpecView) -> Seq<Seq<char>> {
    if s.swa_window > 0 {
        let most = if s.swa_every > 2 {
            (s.swa_every - 1) as nat
        } else {
            1
        };
        seq![
            "  sliding window  "@ + dec(s.swa_window as nat) + " on "@ + dec(most)
                + " of every "@ + dec(s.swa_every as nat) + " layers"@,
        ]
    } else {
        Seq::empty()
    }
}

/// A line for what is on.
pub open spec fn on_line(label: Seq<char>, on: bool) -> Seq<Seq<char>> {
    if on {
        seq!["  "@ + pad_right(label, 15) + " yes"@]
    } else {
        Seq::empty()
    }
}

/// A line for a number that is neither 1 nor 0.
pub open spec fn number_line(w: Words, f: Ops, label: Seq<char>, v: Scalar) -> Seq<Seq<char>> {
    if equal(value_of(f, v), UNIT) || equal(value_of(f, v), 0) {
        Seq::empty()
    } else {
        seq!["  "@ + pad_right(label, 15) + " "@ + w(Show::Of(v))]
    }
}

#[verifier::opaque]
pub open spec fn switch_lines(s: SpecView) -> Seq<Seq<char>> {
    on_line("qk norm"@, s.qk_norm) + on_line("qkv bias"@, s.qkv_bias) + on_line(
        "post-attn norm"@,
        s.post_attn_norm,
    ) + on_line("post-ffn norm"@, s.post_ffn_norm) + on_line("attention sinks"@, s.attn_sinks)
        + on_line("tied embeddings"@, s.tied_embeddings) + on_line(
        "rope_freqs tensor"@,
        s.has_rope_freqs,
    )
}

#[verifier::opaque]
pub open spec fn number_lines(w: Words, f: Ops, s: SpecView) -> Seq<Seq<char>> {
    number_line(w, f, "embd scale"@, s.embd_scale) + number_line(
        w,
        f,
        "logit scale"@,
        Scalar::Of(s.logit_scale),
    ) + number_line(w, f, "residual scale"@, Scalar::Of(s.residual_scale)) + number_line(
        w,
        f,
        "attn softcap"@,
        Scalar::Of(s.attn_softcap),
    ) + number_line(w, f, "final softcap"@, Scalar::Of(s.final_softcap))
}

/// What was concluded about the architecture.
pub open spec fn arch_lines(w: Words, f: Ops, r: Result<SpecView, ErrorView>) -> Seq<Seq<char>> {
    seq!["\narchitecture (inferred)"@] + match r {
        Ok(s) => size_lines(s) + shape_lines(w, s) + section_lines(s.rope.sections) + yarn_lines(
            w,
            f,
            s,
        ) + ffn_lines(s) + window_lines(s) + switch_lines(s) + number_lines(w, f, s),
        Err(e) => seq!["  could not infer: "@ + e.text()],
    }
}

/// Appends what is said to what is there.
fn extend(out: &mut Vec<String>, more: Vec<String>)
    ensures
        texts(final(out)@) == texts(old(out)@) + texts(more@),
{
    let ghost before = out@;
    let ghost added = more@;
    let mut more = more;
    out.append(&mut more);
    assert(texts(out@) =~= texts(before) + texts(added));
}

fn sizes(s: &ArchSpec) -> (r: Vec<String>)
    ensures
        texts(r@) == size_lines(s@),
{
    reveal(size_lines);
    let mut out: Vec<String> = Vec::new();
    out.push(cat2("  declared        ", s.arch.as_str()));
    out.push(cat2("  name            ", s.name.as_str()));
    out.push(cat2("  layers          ", decimal(s.n_layers as u64).as_str()));
    out.push(cat2("  embedding       ", decimal(s.n_embd as u64).as_str()));
    let mut t = cat5(
        "  heads           ",
        decimal(s.n_heads as u64).as_str(),
        " q, ",
        decimal(s.n_kv_heads as u64).as_str(),
        " kv, head_dim ",
    );
    t.append(decimal(s.head_dim as u64).as_str());
    out.push(t);
    out.push(cat2("  vocab           ", decimal(s.n_vocab as u64).as_str()));
    out.push(cat2("  trained ctx     ", decimal(s.n_ctx_train as u64).as_str()));
    assert(texts(out@) =~= size_lines(s@));
    out
}

fn shapes<W: Fn(Show) -> String>(p: &Printer<W>, s: &ArchSpec) -> (r: Vec<String>)
    requires
        p.works(),
    ensures
        texts(r@) == shape_lines(p.words(), s@),
{
    reveal(shape_lines);
    let mut out: Vec<String> = Vec::new();
    out.push(cat2("  block style     ", style_name(s.style)));
    out.push(
        cat4(
            "  norm            ",
            norm_name(s.norm_kind),
            ", eps ",
            p.say(Show::Of(Scalar::Of(s.norm_eps))).as_str(),
        ),
    );
    let mut t = cat5(
        "  rope            ",
        rope_name(s.rope.kind),
        ", base ",
        p.say(Show::Of(Scalar::Of(s.rope.freq_base))).as_str(),
        ", n_rot ",
    );
    t.append(decimal(s.rope.n_rot as u64).as_str());
    t.append(", scale ");
    t.append(p.say(Show::Of(s.rope.freq_scale)).as_str());
    out.push(t);
    assert(texts(out@) =~= shape_lines(p.words(), s@));
    out
}

fn sections(c: &Sections) -> (r: Vec<String>)
    ensures
        texts(r@) == section_lines(*c),
{
    reveal(section_lines);
    let mut out: Vec<String> = Vec::new();
    if c.a > 0 || c.b > 0 || c.c > 0 || c.d > 0 {
        let mut t = cat5(
            "  rope sections   [",
            decimal(c.a as u64).as_str(),
            ", ",
            decimal(c.b as u64).as_str(),
            ", ",
        );
        t.append(decimal(c.c as u64).as_str());
        t.append(", ");
        t.append(decimal(c.d as u64).as_str());
        t.append("]");
        out.push(t);
    }
    assert(texts(out@) =~= section_lines(*c));
    out
}

fn yarn<W: Fn(Show) -> String, A: Fn(FloatOp, u32, u32) -> u32>(
    p: &Printer<W>,
    m: &Arith<A>,
    s: &ArchSpec,
) -> (r: Vec<String>)
    requires
        p.works(),
        m.works(),
    ensures
        texts(r@) == yarn_lines(p.words(), m.ops(), s@),
{
    reveal(yarn_lines);
    let mut out: Vec<String> = Vec::new();
    if !is_equal(m.value(s.rope.ext_factor), 0) {
        let mut t = cat5(
            "  yarn            ext ",
            p.say(Show::Of(s.rope.ext_factor)).as_str(),
            ", attn ",
            p.say(Show::Of(Scalar::Of(s.rope.attn_factor))).as_str(),
            ", beta ",
        );
        t.append(p.say(Show::Of(Scalar::Of(s.rope.beta_fast))).as_str());
        t.append("/");
        t.append(p.say(Show::Of(Scalar::Of(s.rope.beta_slow))).as_str());
        t.append(", orig ctx ");
        t.append(decimal(s.rope.orig_ctx as u64).as_str());
        out.push(t);
    }
    assert(texts(out@) =~= yarn_lines(p.words(), m.ops(), s@));
    out
}

fn feed_forward(s: &ArchSpec) -> (r: Vec<String>)
    ensures
        texts(r@) == ffn_lines(s@),
{
    reveal(ffn_lines);
    let mut out: Vec<String> = Vec::new();
    out.push(
        cat4("  activation      ", act_name(s.act), ", gated ", truth_text(s.gated_ffn)),
    );
    match &s.moe {
        Some(m) => {
            let mut t = cat5(
                "  moe             ",
                decimal(m.n_expert_used as u64).as_str(),
                " of ",
                decimal(m.n_expert as u64).as_str(),
                " experts, ff ",
            );
            t.append(decimal(m.n_ff_exp as u64).as_str());
            t.append(", gate ");
            t.append(gate_name(m.gate_func));
            t.append(", norm_topk ");
            t.append(truth_text(m.norm_topk));
            out.push(t);
            if m.n_ff_shexp > 0 {
                out.push(cat2("  shared expert   ff ", decimal(m.n_ff_shexp as u64).as_str()));
            }
        },
        None => {
            out.push(cat2("  feed-forward    ", decimal(s.n_ff as u64).as_str()));
        },
    }
    assert(texts(out@) =~= ffn_lines(s@));
    out
}

fn windows(s: &ArchSpec) -> (r: Vec<String>)
    ensures
        texts(r@) == window_lines(s@),
{
    reveal(window_lines);
    let mut out: Vec<String> = Vec::new();
    if s.swa_window > 0 {
        let most: u32 = if s.swa_every > 2 {
            s.swa_every - 1
        } else {
            1
        };
        let mut t = cat5(
            "  sliding window  ",
            decimal(s.swa_window as u64).as_str(),
            " on ",
            decimal(most as u64).as_str(),
            " of every ",
        );
        t.append(decimal(s.swa_every as u64).as_str());
        t.append(" layers");
        out.push(t);
    }
    assert(texts(out@) =~= window_lines(s@));
    out
}

fn say_on(out: &mut Vec<String>, label: &str, on: bool)
    ensures
        texts(final(out)@) == texts(old(out)@) + on_line(label@, on),
{
    let ghost before = texts(out@);
    if on {
        out.push(cat3("  ", padded_right(label, 15).as_str(), " yes"));
    }
    assert(texts(out@) =~= before + on_line(label@, on));
}

fn say_number<W: Fn(Show) -> String, A: Fn(FloatOp, u32, u32) -> u32>(
    p: &Printer<W>,
    m: &Arith<A>,
    out: &mut Vec<String>,
    label: &str,
    v: Scalar,
)
    requires
        p.works(),
        m.works(),
    ensures
        texts(final(out)@) == texts(old(out)@) + number_line(p.words(), m.ops(), label@, v),
{
    let ghost before = texts(out@);
    let x = m.value(v);
    if !is_equal(x, UNIT) && !is_equal(x, 0) {
        out.push(
            cat4("  ", padded_right(label, 15).as_str(), " ", p.say(Show::Of(v)).as_str()),
        );
    }
    assert(texts(out@) =~= before + number_line(p.words(), m.ops(), label@, v));
}

fn switches(s: &ArchSpec) -> (r: Vec<String>)
    ensures
        texts(r@) == switch_lines(s@),
{
    reveal(switch_lines);
    let mut out: Vec<String> = Vec::new();
    assert(texts(out@) =~= Seq::<Seq<char>>::empty());
    say_on(&mut out, "qk norm", s.qk_norm);
    assert(texts(out@) =~= on_line("qk norm"@, s.qk_norm));
    say_on(&mut out, "qkv bias", s.qkv_bias);
    say_on(&mut out, "post-attn norm", s.post_attn_norm);
    say_on(&mut out, "post-ffn norm", s.post_ffn_norm);
    say_on(&mut out, "attention sinks", s.attn_sinks);
    say_on(&mut out, "tied embeddings", s.tied_embeddings);
    say_on(&mut out, "rope_freqs tensor", s.has_rope_freqs);
    out
}

fn numbers<W: Fn(Show) -> String, A: Fn(FloatOp, u32, u32) -> u32>(
    p: &Printer<W>,
    m: &Arith<A>,
    s: &ArchSpec,
) -> (r: Vec<String>)
    requires
        p.works(),
        m.works(),
    ensures
        texts(r@) == number_lines(p.words(), m.ops(), s@),
{
    reveal(number_lines);
    let ghost w = p.words();
    let ghost f = m.ops();
    let mut out: Vec<String> = Vec::new();
    assert(texts(out@) =~= Seq::<Seq<char>>::empty());
    say_number(p, m, &mut out, "embd scale", s.embd_scale);
    assert(texts(out@) =~= number_line(w, f, "embd scale"@, s.embd_scale));
    say_number(p, m, &mut out, "logit scale", Scalar::Of(s.logit_scale));
    say_number(p, m, &mut out, "residual scale", Scalar::Of(s.residual_scale));
    say_number(p, m, &mut out, "attn softcap", Scalar::Of(s.attn_softcap));
    say_number(p, m, &mut out, "final softcap", Scalar::Of(s.final_softcap));
    out
}

/// What was concluded about the architecture.
fn describe_arch<W: Fn(Show) -> String, A: Fn(FloatOp, u32, u32) -> u32>(
    p: &Printer<W>,
    m: &Arith<A>,
    g: &GgufModel<'_>,
) -> (r: Vec<String>)
    requires
        p.works(),
        m.works(),
        g.wf(),
    ensures
        texts(r@) == arch_lines(p.words(), m.ops(), infer_spec(g.content())),
{
    let mut out: Vec<String> = Vec::new();
    out.push(own("\narchitecture (inferred)"));
    assert(texts(out@) =~= seq!["\narchitecture (inferred)"@]);
    match ArchSpec::infer(g) {
        Ok(s) => {
            let mut body = sizes(&s);
            extend(&mut body, shapes(p, &s));
            extend(&mut body, sections(&s.rope.sections));
            extend(&mut body, yarn(p, m, &s));
            extend(&mut body, feed_forward(&s));
            extend(&mut body, windows(&s));
            extend(&mut body, switches(&s));
            extend(&mut body, numbers(p, m, &s));
            extend(&mut out, body);
        },
        Err(e) => {
            let mut body: Vec<String> = Vec::new();
            body.push(cat2("  could not infer: ", e.message().as_str()));
            assert(texts(body@) =~= seq!["  could not infer: "@ + e@.text()]);
            extend(&mut out, body);
        },
    }
    out
}

// ----------------------------------------------------------------------------- the tokenizer

pub open spec fn kind_label(k: TokenizerKind) -> Seq<char> {
    match k {
        TokenizerKind::Spm => "Spm"@,
        TokenizerKind::Bpe => "Bpe"@,
        TokenizerKind::Wpm => "Wpm"@,
    }
}

fn kind_name(k: TokenizerKind) -> (r: &'static str)
    ensures
        r@ == kind_label(k),
{
    match k {
        TokenizerKind::Spm => "Spm",
        TokenizerKind::Bpe => "Bpe",
        TokenizerKind::Wpm => "Wpm",
    }
}

pub open spec fn builtin_label(b: Builtin) -> Seq<char> {
    match b {
        Builtin::ChatMl => "ChatMl"@,
        Builtin::Llama3 => "Llama3"@,
        Builtin::Llama2 => "Llama2"@,
        Builtin::Gemma => "Gemma"@,
        Builtin::Phi3 => "Phi3"@,
        Builtin::Plain => "Plain"@,
    }
}

pub(crate) fn builtin_name(b: Builtin) -> (r: &'static str)
    ensures
        r@ == builtin_label(b),
{
    match b {
        Builtin::ChatMl => "ChatMl",
        Builtin::Llama3 => "Llama3",
        Builtin::Llama2 => "Llama2",
        Builtin::Gemma => "Gemma",
        Builtin::Phi3 => "Phi3",
        Builtin::Plain => "Plain",
    }
}

/// How many of the first `n` merge lines count: those with a space, each text once.
pub open spec fn merge_count(merges: Seq<Seq<char>>, n: nat) -> nat
    decreases n,
{
    if n == 0 {
        0
    } else {
        let i = (n - 1) as nat;
        merge_count(merges, i) + if has_text(merges[i as int], seq![' ']) && place_of(
            merges,
            merges[i as int],
            true,
        ) == Some(i) {
            1nat
        } else {
            0nat
        }
    }
}

fn count_merges(v: &Vocab) -> (r: usize)
    requires
        v.wf(),
    ensures
        r == merge_count(v@.merges, v@.merges.len()),
{
    let ghost all = v@.merges;
    let mut n: usize = 0;
    let mut i: usize = 0;
    while i < v.merges.items.len()
        invariant
            v.wf(),
            all == texts(v.merges.items@),
            i <= all.len(),
            n <= i,
            n == merge_count(all, i as nat),
        decreases all.len() - i,
    {
        let line = v.merges.items[i].as_str();
        proof {
            reveal_strlit(" ");
            assert(" "@ =~= seq![' ']);
        }
        if contains_text(line, " ") {
            match v.merges.find(line) {
                Some(k) => {
                    if k == i {
                        n = n + 1;
                    }
                },
                None => {},
            }
        }
        i = i + 1;
    }
    n
}

/// The ids, as a list.
pub open spec fn id_list(s: Seq<u32>) -> Seq<char> {
    "["@ + joined(Seq::new(s.len(), |i: int| dec(s[i] as nat)), ", "@) + "]"@
}

fn ids_text(s: &[u32]) -> (r: String)
    ensures
        r@ == id_list(s@),
{
    let ghost want = Seq::new(s@.len(), |i: int| dec(s@[i] as nat));
    let mut parts: Vec<String> = Vec::new();
    let mut i: usize = 0;
    while i < s.len()
        invariant
            i <= s@.len(),
            want == Seq::new(s@.len(), |i: int| dec(s@[i] as nat)),
            texts(parts@) =~= want.take(i as int),
        decreases s@.len() - i,
    {
        let ghost before = texts(parts@);
        parts.push(decimal(s[i] as u64));
        i = i + 1;
        assert(texts(parts@) =~= before.push(want[i - 1]));
    }
    assert(want.take(i as int) =~= want);
    cat3("[", join_text(parts.as_slice(), ", ").as_str(), "]")
}

pub open spec fn id_or_none(x: Option<u32>) -> Seq<char> {
    match x {
        Some(n) => "Some("@ + dec(n as nat) + ")"@,
        None => "None"@,
    }
}

fn id_text(x: Option<u32>) -> (r: String)
    ensures
        r@ == id_or_none(x),
{
    match x {
        Some(n) => cat3("Some(", decimal(n as u64).as_str(), ")"),
        None => own("None"),
    }
}

/// Which chat template is in use, and why.
pub open spec fn template_line(t: ChatTemplate) -> Seq<char> {
    match t.jinja {
        Some(_) => "  chat template   from the file"@,
        None => match t.jinja_error {
            Some(e) => "  chat template   built-in "@ + builtin_label(t.builtin)
                + "; file template rejected: "@ + e@,
            None => "  chat template   built-in "@ + builtin_label(t.builtin)
                + " (file carries none)"@,
        },
    }
}

fn template_text(t: &ChatTemplate) -> (r: String)
    ensures
        r@ == template_line(*t),
{
    if t.uses_gguf_template() {
        return own("  chat template   from the file");
    }
    match &t.jinja_error {
        Some(e) => cat4(
            "  chat template   built-in ",
            builtin_name(t.builtin),
            "; file template rejected: ",
            e.as_str(),
        ),
        None => cat3(
            "  chat template   built-in ",
            builtin_name(t.builtin),
            " (file carries none)",
        ),
    }
}

/// One greeting, as the template renders it.
pub open spec fn sample_of(h: Host, t: ChatTemplate) -> Seq<char> {
    t.rendering(h, seq![("user"@, "Hello"@)], true, None)
}

/// What was found out about the vocabulary and the chat template.
pub open spec fn tokenizer_lines(h: Host, r: Result<Tokenizer, Error>) -> Seq<Seq<char>> {
    match r {
        Ok(t) => {
            let v = t.vocab@;
            let sample = sample_of(h, t.template);
            seq![
                "\ntokenizer"@,
                "  kind            "@ + kind_label(v.kind),
                "  pre-tokenizer   "@ + v.pre,
                "  tokens          "@ + dec(v.tokens.len()),
                "  merges          "@ + dec(merge_count(v.merges, v.merges.len())),
                "  special tokens  "@ + dec(v.specials.len()),
                "  bos/eos         "@ + id_or_none(v.bos) + " / "@ + id_list(v.eos) + " (add_bos "@
                    + truth(v.add_bos) + ")"@,
                template_line(t.template),
                "  rendered sample "@ + quoted(sample),
                "  sample ids      "@ + id_list(encoded(v, sample, true)),
            ]
        },
        Err(e) => seq!["\ntokenizer"@, "  unavailable: "@ + e@.text()],
    }
}

/// The sample, rendered.
fn sample_text<
    A: Fn(NumOp, u64, u64) -> u64,
    P: Fn(&str) -> Option<u64>,
    N: Fn(u64, bool) -> String,
>(maths: &Maths<A, P, N>, t: &ChatTemplate) -> (r: String)
    requires
        maths.works(),
    ensures
        r@ == sample_of(maths.host(), *t),
{
    let mut said: Vec<ChatMessage> = Vec::new();
    said.push(ChatMessage::new("user", "Hello"));
    assert(turns(said@) =~= seq![("user"@, "Hello"@)]);
    t.render(&said, true, maths)
}

fn describe_tokenizer<
    A: Fn(NumOp, u64, u64) -> u64,
    P: Fn(&str) -> Option<u64>,
    N: Fn(u64, bool) -> String,
>(maths: &Maths<A, P, N>, tokenizer: &Result<Tokenizer, Error>) -> (r: Vec<String>)
    requires
        maths.works(),
        tokenizer matches Ok(t) ==> t.wf(),
    ensures
        texts(r@) == tokenizer_lines(maths.host(), *tokenizer),
{
    let mut out: Vec<String> = Vec::new();
    out.push(own("\ntokenizer"));
    match tokenizer {
        Ok(t) => {
            let v = &t.vocab;
            out.push(cat2("  kind            ", kind_name(v.kind)));
            out.push(cat2("  pre-tokenizer   ", v.pre.as_str()));
            out.push(cat2("  tokens          ", decimal(v.len() as u64).as_str()));
            out.push(cat2("  merges          ", decimal(count_merges(v) as u64).as_str()));
            out.push(cat2("  special tokens  ", decimal(v.specials.len() as u64).as_str()));
            let mut line = cat5(
                "  bos/eos         ",
                id_text(v.bos).as_str(),
                " / ",
                ids_text(v.eos.as_slice()).as_str(),
                " (add_bos ",
            );
            line.append(truth_text(v.add_bos));
            line.append(")");
            out.push(line);
            out.push(template_text(&t.template));
            let sample = sample_text(maths, &t.template);
            out.push(cat2("  rendered sample ", debug_text(sample.as_str()).as_str()));
            let ids = t.encode(sample.as_str(), true);
            out.push(cat2("  sample ids      ", ids_text(ids.as_slice()).as_str()));
        },
        Err(e) => {
            out.push(cat2("  unavailable: ", e.message().as_str()));
        },
    }
    assert(texts(out@) =~= tokenizer_lines(maths.host(), *tokenizer));
    out
}

// --------------------------------------------------------------------------- the two listings

/// Whether every value that is listed can be summarized.
pub open spec fn listable(m: MetaView) -> bool {
    forall|i: int| 0 <= i < m.map.len() ==> has_line((#[trigger] m.map[i]).1)
}

/// Lines for the first `n` of `keys`.
pub open spec fn metadata_lines(w: Words, m: MetaView, keys: Seq<Seq<char>>, n: nat) -> Seq<Seq<char>>
    decreases n,
{
    if n == 0 {
        seq!["\nmetadata"@]
    } else {
        let k = keys[n - 1];
        let front = metadata_lines(w, m, keys, (n - 1) as nat);
        match m.exact(k) {
            Some(v) => front.push("  "@ + k + " = "@ + line_of(w, v)),
            None => front,
        }
    }
}

fn list_metadata<W: Fn(Show) -> String>(p: &Printer<W>, m: &Metadata) -> (r: Vec<String>)
    requires
        p.works(),
        m.wf(),
        listable(m@),
    ensures
        texts(r@) == metadata_lines(
            p.words(),
            m@,
            sorted(keys_of(m@.map)),
            sorted(keys_of(m@.map)).len(),
        ),
{
    let ghost w = p.words();
    let keys = m.sorted_keys();
    let ghost ks = texts(keys@);
    let mut out: Vec<String> = Vec::new();
    out.push(own("\nmetadata"));
    assert(texts(out@) =~= seq!["\nmetadata"@]);
    let mut i: usize = 0;
    while i < keys.len()
        invariant
            p.works(),
            m.wf(),
            listable(m@),
            w == p.words(),
            ks == texts(keys@),
            i <= keys@.len(),
            texts(out@) == metadata_lines(w, m@, ks, i as nat),
        decreases keys@.len() - i,
    {
        let ghost before = texts(out@);
        let k = keys[i].as_str();
        match m.raw(k) {
            Some(v) => {
                proof {
                    key_from_is_first(m@.map, k@, 0);
                }
                out.push(cat4("  ", k, " = ", v.summary(p).as_str()));
                assert(texts(out@) =~= before.push("  "@ + k@ + " = "@ + line_of(w, v@)));
            },
            None => {},
        }
        i = i + 1;
    }
    assert(ks.len() == keys@.len());
    out
}

pub open spec fn tensor_line(w: Words, name: Seq<char>, t: TensorView) -> Seq<char> {
    "  "@ + pad_right(name, 40) + " "@ + pad_right(t.dtype.label(), 8) + " "@ + pad_left(
        t.shape(),
        14,
    ) + " "@ + pad_left(w(Show::Mib(t.bytes() as u64)), 10) + " MiB"@
}

/// Lines for the first `n` tensors in file order.
pub open spec fn tensor_lines(w: Words, m: ModelView, n: nat) -> Seq<Seq<char>>
    decreases n,
{
    if n == 0 {
        seq!["\ntensors"@]
    } else {
        let k = m.order[n - 1];
        let front = tensor_lines(w, m, (n - 1) as nat);
        match m.tensor(k) {
            Some(t) => front.push(tensor_line(w, k, t)),
            None => front,
        }
    }
}

fn list_tensors<W: Fn(Show) -> String>(p: &Printer<W>, g: &GgufModel<'_>) -> (r: Vec<String>)
    requires
        p.works(),
        g.wf(),
    ensures
        texts(r@) == tensor_lines(p.words(), g.content(), g.content().order.len()),
{
    let ghost w = p.words();
    let ghost m = g.content();
    let mut out: Vec<String> = Vec::new();
    out.push(own("\ntensors"));
    assert(texts(out@) =~= seq!["\ntensors"@]);
    let mut i: usize = 0;
    while i < g.order.len()
        invariant
            p.works(),
            g.wf(),
            w == p.words(),
            m == g.content(),
            i <= m.order.len(),
            texts(out@) == tensor_lines(w, m, i as nat),
        decreases m.order.len() - i,
    {
        let ghost before = texts(out@);
        let name = g.order[i].as_str();
        match g.info(name) {
            Some(t) => {
                let mut line = cat5(
                    "  ",
                    padded_right(name, 40).as_str(),
                    " ",
                    padded_right(t.dtype.name(), 8).as_str(),
                    " ",
                );
                line.append(padded_left(t.shape_string().as_str(), 14).as_str());
                line.append(" ");
                line.append(
                    padded_left(p.say(Show::Mib(t.byte_size() as u64)).as_str(), 10).as_str(),
                );
                line.append(" MiB");
                assert(line@ =~= tensor_line(w, name@, t@));
                out.push(line);
                assert(texts(out@) =~= before.push(tensor_line(w, name@, t@)));
            },
            None => {},
        }
        i = i + 1;
    }
    out
}

// ------------------------------------------------------------------------------- the report

/// The whole report, where `most` is the type that takes up the most bytes.
pub open spec fn report(
    w: Words,
    f: Ops,
    h: Host,
    a: InspectArgs,
    m: ModelView,
    tokenizer: Result<Tokenizer, Error>,
    most: DType,
) -> Seq<Seq<char>> {
    let keys = sorted(keys_of(m.meta.map));
    file_lines(w, m, a.model@, most) + arch_lines(w, f, infer_spec(m)) + tokenizer_lines(
        h,
        tokenizer,
    ) + (if a.metadata {
        metadata_lines(w, m.meta, keys, keys.len())
    } else {
        Seq::empty()
    }) + (if a.tensors {
        tensor_lines(w, m, m.order.len())
    } else {
        Seq::empty()
    })
}

/// Reports what the file says and what was concluded from it: the lines of the report, given
/// what came of reading the tokenizer.
pub fn inspect<
    W: Fn(Show) -> String,
    O: Fn(FloatOp, u32, u32) -> u32,
    A: Fn(NumOp, u64, u64) -> u64,
    P: Fn(&str) -> Option<u64>,
    N: Fn(u64, bool) -> String,
>(
    args: &InspectArgs,
    g: &GgufModel<'_>,
    tokenizer: &Result<Tokenizer, Error>,
    p: &Printer<W>,
    m: &Arith<O>,
    maths: &Maths<A, P, N>,
) -> (r: Vec<String>)
    requires
        p.works(),
        m.works(),
        maths.works(),
        g.wf(),
        g.content().total_bytes(g.content().tensors.len()) <= u64::MAX,
        tokenizer matches Ok(t) ==> t.wf(),
        args.metadata ==> listable(g.content().meta),
    ensures
        exists|most: DType| #[trigger]
            g.content().dominates(most) && texts(r@) == report(
                p.words(),
                m.ops(),
                maths.host(),
                *args,
                g.content(),
                *tokenizer,
                most,
            ),
{
    let most = g.dominant_dtype();
    let mut out = describe_file(p, g, args.model.as_str(), most);
    extend(&mut out, describe_arch(p, m, g));
    extend(&mut out, describe_tokenizer(maths, tokenizer));
    let mut listed: Vec<String> = Vec::new();
    assert(texts(listed@) =~= Seq::<Seq<char>>::empty());
    if args.metadata {
        listed = list_metadata(p, &g.meta);
    }
    extend(&mut out, listed);
    let mut rest: Vec<String> = Vec::new();
    assert(texts(rest@) =~= Seq::<Seq<char>>::empty());
    if args.tensors {
        rest = list_tensors(p, g);
    }
    extend(&mut out, rest);
    assert(g.content().dominates(most));
    out
}

} // verus!
