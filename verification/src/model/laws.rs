//! What is read out of a file, told from what the file holds.

use vstd::prelude::*;

use super::spec::{infer_spec, BlockStyle, SpecView};
use crate::backend::{Activation, GateFunc, NormKind, RopeKind};
use crate::dict::lookup;
use crate::gguf::model::ModelView;
use crate::gguf::value::ValueView;
use crate::scalar::{value_of, Real, Scalar};
use crate::single::{less, of, over, times, FloatOp, Ops, UNIT};

verus! {

/// The metadata that a file keeps for its architecture under a name.
pub open spec fn written(m: ModelView, name: Seq<char>) -> Option<ValueView> {
    lookup(m.meta.map, m.meta.arch + "."@ + name)
}

/// Whether a file writes a whole number under a name.
pub open spec fn states(m: ModelView, name: Seq<char>, n: u32) -> bool {
    written(m, name) == Some(ValueView::U32(n))
}

/// Whether a file writes a number in single precision under a name.
pub open spec fn gives(m: ModelView, name: Seq<char>, b: u32) -> bool {
    written(m, name) == Some(ValueView::F32(b))
}

/// Whether a file writes nothing under a name.
pub open spec fn silent(m: ModelView, name: Seq<char>) -> bool {
    written(m, name) is None
}

/// Whether a file holds a tensor of this name in its first block.
pub open spec fn first_block_has(m: ModelView, name: Seq<char>) -> bool {
    lookup(m.tensors, "blk.0."@ + name) is Some
}

/// Whether the name of a file's architecture starts so.
pub open spec fn family(m: ModelView, name: Seq<char>) -> bool {
    m.meta.arch.len() >= name.len() && m.meta.arch.take(name.len() as int) == name
}

proof fn a_family_begins_so(m: ModelView, name: Seq<char>)
    ensures
        family(m, name) == crate::text::begins_with(m.meta.arch, name),
{
    assert(m.meta.arch.take(name.len() as int) =~= m.meta.arch.subrange(0, name.len() as int));
}

/// A file that states its width, its blocks and its heads can be read; they are what it states.
pub proof fn sizes_are_read_as_written(m: ModelView, n_embd: u32, n_layers: u32, n_heads: u32)
    requires
        states(m, "embedding_length"@, n_embd),
        states(m, "block_count"@, n_layers),
        states(m, "attention.head_count"@, n_heads),
    ensures
        infer_spec(m) is Ok,
        infer_spec(m)->Ok_0.n_embd == n_embd,
        infer_spec(m)->Ok_0.n_layers == n_layers,
        infer_spec(m)->Ok_0.n_heads == n_heads,
        infer_spec(m)->Ok_0.arch == m.meta.arch,
{
    reveal(infer_spec);
}

/// Without one of the three nothing is read.
pub proof fn a_file_without_its_sizes_is_refused(m: ModelView)
    requires
        silent(m, "embedding_length"@) || silent(m, "block_count"@) || silent(
            m,
            "attention.head_count"@,
        ),
    ensures
        infer_spec(m) is Err,
{
    reveal(infer_spec);
}

/// The other sizes are those written; where none is, there are as many heads for keys as for
/// queries, the heads share the width evenly, and the window is off.
pub proof fn other_sizes_are_read_as_written(m: ModelView, s: SpecView, n: u32)
    requires
        infer_spec(m) == Ok::<SpecView, crate::error::ErrorView>(s),
    ensures
        states(m, "attention.head_count_kv"@, n) ==> s.n_kv_heads == n,
        silent(m, "attention.head_count_kv"@) ==> s.n_kv_heads == s.n_heads,
        states(m, "attention.key_length"@, n) ==> s.head_dim == n,
        silent(m, "attention.key_length"@) && s.n_heads > 0 ==> s.n_heads * s.head_dim <= s.n_embd
            < s.n_heads * (s.head_dim + 1),
        states(m, "feed_forward_length"@, n) ==> s.n_ff == n,
        states(m, "context_length"@, n) ==> s.n_ctx_train == n,
        silent(m, "context_length"@) ==> s.n_ctx_train == 4096,
        states(m, "attention.sliding_window"@, n) ==> s.swa_window == n,
        silent(m, "attention.sliding_window"@) ==> s.swa_window == 0 && s.swa_every == 0,
        states(m, "rope.dimension_count"@, n) ==> s.rope.n_rot == n,
        silent(m, "rope.dimension_count"@) ==> s.rope.n_rot == s.head_dim,
        states(m, "rope.scaling.original_context_length"@, n) ==> s.rope.orig_ctx == n,
{
    reveal(infer_spec);
    let w = s.n_embd as int;
    let h = s.n_heads as int;
    if h > 0 {
        vstd::arithmetic::div_mod::lemma_fundamental_div_mod(w, h);
        vstd::arithmetic::div_mod::lemma_mod_bound(w, h);
        assert(h * (w / h + 1) == h * (w / h) + h) by (nonlinear_arith);
    }
}

// ------------------------------------------------------------------------------- scales

/// The embeddings of every Gemma that does not say otherwise are scaled by the root of the width:
/// where the root is exact, its square is the width.
pub proof fn gemma_scales_by_the_root_of_its_width(f: Ops, m: ModelView, s: SpecView, n: u32)
    requires
        infer_spec(m) == Ok::<SpecView, crate::error::ErrorView>(s),
        family(m, "gemma"@),
        silent(m, "embedding_scale"@),
        states(m, "embedding_length"@, n),
    ensures
        s.embd_scale == Scalar::Sqrt(n as u64),
        ({
            let width = f(FloatOp::FromCount, n, 0);
            let root = of(f, FloatOp::Sqrt, width);
            times(f, root, root) == width ==> times(
                f,
                value_of(f, s.embd_scale),
                value_of(f, s.embd_scale),
            ) == width
        }),
{
    reveal(infer_spec);
    a_family_begins_so(m, "gemma"@);
}

/// Any other family leaves its embeddings as they are, unless the file gives a scale.
pub proof fn only_gemma_scales_unasked(f: Ops, m: ModelView, s: SpecView, b: u32)
    requires
        infer_spec(m) == Ok::<SpecView, crate::error::ErrorView>(s),
    ensures
        !family(m, "gemma"@) && silent(m, "embedding_scale"@) ==> value_of(f, s.embd_scale) == UNIT,
        gives(m, "embedding_scale"@, b) ==> value_of(f, s.embd_scale) == b,
{
    reveal(infer_spec);
    a_family_begins_so(m, "gemma"@);
}

/// Scores are divided by the root of a head's width: the scale times itself times the width is
/// one where nothing is lost, unless the file gives a scale.
pub proof fn scores_are_scaled_by_the_root_of_a_head(f: Ops, m: ModelView, s: SpecView, b: u32)
    requires
        infer_spec(m) == Ok::<SpecView, crate::error::ErrorView>(s),
    ensures
        gives(m, "attention.scale"@, b) ==> value_of(f, s.attn_scale) == b,
        ({
            let width = f(FloatOp::FromCount, s.head_dim, 0);
            let root = of(f, FloatOp::Sqrt, width);
            silent(m, "attention.scale"@) && times(f, over(f, UNIT, root), root) == UNIT ==> times(
                f,
                value_of(f, s.attn_scale),
                root,
            ) == UNIT
        }),
        silent(m, "attention.scale"@) ==> s.attn_scale == Scalar::InvSqrt(s.head_dim as u64),
{
    reveal(infer_spec);
}

/// Residuals and logits are left as they are, and no score is capped, unless the file says so.
pub proof fn what_is_not_scaled_stays(m: ModelView, s: SpecView, b: u32)
    requires
        infer_spec(m) == Ok::<SpecView, crate::error::ErrorView>(s),
    ensures
        silent(m, "residual_scale"@) ==> s.residual_scale == Real::Single(UNIT),
        gives(m, "residual_scale"@, b) ==> s.residual_scale == Real::Single(b),
        silent(m, "logit_scale"@) ==> s.logit_scale == Real::Single(UNIT),
        gives(m, "logit_scale"@, b) ==> s.logit_scale == Real::Single(b),
        silent(m, "attn_logit_softcapping"@) ==> s.attn_softcap == Real::Single(0),
        gives(m, "attn_logit_softcapping"@, b) ==> s.attn_softcap == Real::Single(b),
        silent(m, "final_logit_softcapping"@) ==> s.final_softcap == Real::Single(0),
        gives(m, "final_logit_softcapping"@, b) ==> s.final_softcap == Real::Single(b),
{
    reveal(infer_spec);
}

/// A scalar means what its variant says: a root times itself, and an inverse times what it is the
/// inverse of, are exact where the arithmetic is.
pub proof fn scalars_mean_what_they_say(f: Ops, n: u32, x: Real)
    ensures
        ({
            let root = value_of(f, Scalar::Sqrt(n as u64));
            let inverse = value_of(f, Scalar::InvSqrt(n as u64));
            let c = f(FloatOp::FromCount, n, 0);
            let r = of(f, FloatOp::Sqrt, c);
            &&& times(f, r, r) == c ==> times(f, root, root) == c
            &&& times(f, over(f, UNIT, r), r) == UNIT ==> times(f, inverse, root) == UNIT
        }),
        ({
            let v = value_of(f, Scalar::Of(x));
            let i = value_of(f, Scalar::InvIfPositive(x));
            &&& less(0, v) && times(f, over(f, UNIT, v), v) == UNIT ==> times(f, i, v) == UNIT
            &&& !less(0, v) ==> i == UNIT
        }),
        x matches Real::Single(b) ==> value_of(f, Scalar::Of(x)) == b,
{
}

// -------------------------------------------------------------------------------- blocks

/// A block that is normed only after attention is post-normed; one with a norm for attention and
/// none for its feed-forward network runs both side by side; any other norms before each.
pub proof fn a_block_is_wired_as_its_norms_lie(m: ModelView, s: SpecView)
    requires
        infer_spec(m) == Ok::<SpecView, crate::error::ErrorView>(s),
    ensures
        first_block_has(m, "attn_norm.weight"@) && first_block_has(m, "ffn_norm.weight"@)
            ==> s.style == BlockStyle::PreNorm,
        first_block_has(m, "attn_norm.weight"@) && !first_block_has(m, "ffn_norm.weight"@)
            ==> s.style == BlockStyle::ParallelResidual,
        first_block_has(m, "attn_norm.bias"@) && !first_block_has(m, "ffn_norm.weight"@)
            ==> s.style == BlockStyle::ParallelResidual,
        !first_block_has(m, "attn_norm.weight"@) && !first_block_has(m, "attn_norm.bias"@)
            && first_block_has(m, "post_attention_norm.weight"@) ==> s.style
            == BlockStyle::PostNorm,
        !first_block_has(m, "attn_norm.weight"@) && !first_block_has(m, "attn_norm.bias"@)
            && first_block_has(m, "attn_post_norm.weight"@) ==> s.style == BlockStyle::PostNorm,
        s.post_attn_norm == (first_block_has(m, "post_attention_norm.weight"@) || first_block_has(
            m,
            "attn_post_norm.weight"@,
        )),
        s.post_ffn_norm == (first_block_has(m, "post_ffw_norm.weight"@) || first_block_has(
            m,
            "ffn_post_norm.weight"@,
        )),
        s.style == BlockStyle::PostNorm ==> s.post_attn_norm,
{
    reveal(infer_spec);
}

/// A norm with a bias is a layer norm, any other a root mean square norm; its epsilon is the one
/// that is written, that of the root mean square first.
pub proof fn a_norm_with_a_bias_is_a_layer_norm(m: ModelView, s: SpecView, b: u32)
    requires
        infer_spec(m) == Ok::<SpecView, crate::error::ErrorView>(s),
    ensures
        (s.norm_kind == NormKind::Layer) == (first_block_has(m, "attn_norm.bias"@) || lookup(
            m.tensors,
            "output_norm.bias"@,
        ) is Some),
        gives(m, "attention.layer_norm_rms_epsilon"@, b) ==> s.norm_eps == Real::Single(b),
        silent(m, "attention.layer_norm_rms_epsilon"@) && gives(
            m,
            "attention.layer_norm_epsilon"@,
            b,
        ) ==> s.norm_eps == Real::Single(b),
{
    reveal(infer_spec);
}

/// What a block holds is told by its tensors.
pub proof fn parts_are_told_by_their_tensors(m: ModelView, s: SpecView)
    requires
        infer_spec(m) == Ok::<SpecView, crate::error::ErrorView>(s),
    ensures
        s.qkv_bias == (first_block_has(m, "attn_q.bias"@) || first_block_has(m, "attn_qkv.bias"@)),
        s.attn_out_bias == first_block_has(m, "attn_output.bias"@),
        s.ffn_bias == (first_block_has(m, "ffn_up.bias"@) || first_block_has(m, "ffn_down.bias"@)),
        s.qk_norm == (first_block_has(m, "attn_q_norm.weight"@) || first_block_has(
            m,
            "attn_k_norm.weight"@,
        )),
        s.attn_sinks == (first_block_has(m, "attn_sinks.weight"@) || first_block_has(
            m,
            "attn_sinks"@,
        )),
        s.gated_ffn == (first_block_has(m, "ffn_gate.weight"@) || first_block_has(
            m,
            "ffn_gate_exps.weight"@,
        )),
        s.tied_embeddings == (lookup(m.tensors, "output.weight"@) is None),
        s.has_rope_freqs == (lookup(m.tensors, "rope_freqs.weight"@) is Some),
{
    reveal(infer_spec);
}

/// A gated network is a SiLU one and one without a gate a GELU one, but for Gemma, which is always
/// a GELU one, and for `gptoss`, whose sigmoid is scaled.
pub proof fn the_activation_follows_the_gate(m: ModelView, s: SpecView)
    requires
        infer_spec(m) == Ok::<SpecView, crate::error::ErrorView>(s),
    ensures
        family(m, "gemma"@) ==> s.act == Activation::Gelu,
        !family(m, "gemma"@) && !family(m, "phi"@) && m.meta.arch != "gptoss"@ ==> (s.act
            == Activation::Silu) == s.gated_ffn && (s.act == Activation::Gelu) == !s.gated_ffn,
        family(m, "phi"@) && first_block_has(m, "ffn_gate.weight"@) && m.meta.arch != "gptoss"@
            && !family(m, "gemma"@) ==> s.act == Activation::Silu,
        family(m, "phi"@) && !first_block_has(m, "ffn_gate.weight"@) ==> s.act == Activation::Gelu,
        m.meta.arch == "gptoss"@ ==> s.act == Activation::Swish,
{
    reveal(infer_spec);
    a_family_begins_so(m, "gemma"@);
    a_family_begins_so(m, "phi"@);
    reveal_strlit("gemma");
    reveal_strlit("phi");
    reveal_strlit("gptoss");
    if m.meta.arch == "gptoss"@ {
        assert(m.meta.arch[0] == 'g' && m.meta.arch[1] == 'p');
        if family(m, "gemma"@) {
            assert(m.meta.arch.take(5)[1] == 'e');
            assert(false);
        }
        if family(m, "phi"@) {
            assert(m.meta.arch.take(3)[0] == 'p');
            assert(false);
        }
    }
}

/// With a window, every second layer of `gemma2` and every sixth of `gemma3` sees everything;
/// elsewhere it is as often as the file says, and never where it says nothing.
pub proof fn windows_alternate_as_the_family_does(m: ModelView, s: SpecView, n: u32, w: u32)
    requires
        infer_spec(m) == Ok::<SpecView, crate::error::ErrorView>(s),
        states(m, "attention.sliding_window"@, w),
        w > 0,
    ensures
        m.meta.arch == "gemma2"@ ==> s.uses_swa(0) && !s.uses_swa(1),
        m.meta.arch == "gemma3"@ || m.meta.arch == "gemma3n"@ ==> s.uses_swa(0) && s.uses_swa(1)
            && s.uses_swa(2) && s.uses_swa(3) && s.uses_swa(4) && !s.uses_swa(5),
        m.meta.arch != "gemma2"@ && m.meta.arch != "gemma3"@ && m.meta.arch != "gemma3n"@ && states(
            m,
            "attention.sliding_window_pattern"@,
            n,
        ) ==> s.swa_every == n,
        m.meta.arch != "gemma2"@ && m.meta.arch != "gemma3"@ && m.meta.arch != "gemma3n"@ && silent(
            m,
            "attention.sliding_window_pattern"@,
        ) ==> forall|i: nat| s.uses_swa(i),
{
    reveal(infer_spec);
    reveal_strlit("gemma2");
    reveal_strlit("gemma3");
    reveal_strlit("gemma3n");
    assert("gemma2"@[5] != "gemma3"@[5] && "gemma2"@.len() != "gemma3n"@.len());
    if s.swa_every >= 2 {
        assert forall|k: nat| k < s.swa_every implies #[trigger] s.uses_swa(k) == (k + 1
            != s.swa_every) by {
            super::spec::one_global_layer_per_group(s, 0, k);
        }
    }
}

// ---------------------------------------------------------------------------------- rope

/// The base and the factors of a rotation are those written; without them it turns by a base of
/// ten thousand, unstretched.
pub proof fn a_rotation_is_read_as_written(f: Ops, m: ModelView, s: SpecView, b: u32)
    requires
        infer_spec(m) == Ok::<SpecView, crate::error::ErrorView>(s),
    ensures
        gives(m, "rope.freq_base"@, b) ==> s.rope.freq_base == Real::Single(b),
        silent(m, "rope.freq_base"@) ==> s.rope.freq_base == Real::Single(0x461c_4000),
        gives(m, "rope.scaling.attn_factor"@, b) ==> s.rope.attn_factor == Real::Single(b),
        silent(m, "rope.scaling.attn_factor"@) ==> s.rope.attn_factor == Real::Single(UNIT),
        gives(m, "rope.scaling.beta_fast"@, b) ==> s.rope.beta_fast == Real::Single(b),
        silent(m, "rope.scaling.beta_fast"@) ==> s.rope.beta_fast == Real::Single(0x4200_0000),
        gives(m, "rope.scaling.beta_slow"@, b) ==> s.rope.beta_slow == Real::Single(b),
        silent(m, "rope.scaling.beta_slow"@) ==> s.rope.beta_slow == Real::Single(UNIT),
        gives(m, "rope.freq_base_swa"@, b) ==> s.rope.local_base == Some(Real::Single(b)),
        silent(m, "rope.freq_base_swa"@) && (m.meta.arch == "gemma3"@ || m.meta.arch
            == "gemma3n"@) ==> s.rope.local_base == Some(Real::Single(0x461c_4000)),
        silent(m, "rope.freq_base_swa"@) && m.meta.arch != "gemma3"@ && m.meta.arch != "gemma3n"@
            ==> s.rope.local_base is None,
        written(m, "rope.scaling.type"@) == Some(ValueView::String("yarn"@)) ==> value_of(
            f,
            s.rope.ext_factor,
        ) == UNIT,
        silent(m, "rope.scaling.type"@) ==> value_of(f, s.rope.ext_factor) == 0,
{
    reveal(infer_spec);
    reveal_strlit("yarn");
    assert("yarn"@.len() == 4);
}

/// A positive factor stretches the context: the scale of the angles times the factor is one. Two
/// ways of scaling bring factors of their own, and leave the angles as they are.
pub proof fn a_factor_shrinks_the_angles(f: Ops, m: ModelView, s: SpecView, b: u32)
    requires
        infer_spec(m) == Ok::<SpecView, crate::error::ErrorView>(s),
        silent(m, "rope.scaling.type"@) || written(m, "rope.scaling.type"@) == Some(
            ValueView::String("linear"@),
        ) || written(m, "rope.scaling.type"@) == Some(ValueView::String("yarn"@)),
    ensures
        gives(m, "rope.scaling.factor"@, b) && less(0, b) && times(f, over(f, UNIT, b), b) == UNIT
            ==> times(f, value_of(f, s.rope.freq_scale), b) == UNIT,
        silent(m, "rope.scaling.factor"@) && gives(m, "rope.scale_linear"@, b) && less(0, b)
            && times(f, over(f, UNIT, b), b) == UNIT ==> times(
            f,
            value_of(f, s.rope.freq_scale),
            b,
        ) == UNIT,
        silent(m, "rope.scaling.factor"@) && silent(m, "rope.scale_linear"@) ==> value_of(
            f,
            s.rope.freq_scale,
        ) == UNIT,
{
    reveal(infer_spec);
    reveal_strlit("linear");
    reveal_strlit("yarn");
    reveal_strlit("llama3");
    reveal_strlit("longrope");
    assert("linear"@[1] != "llama3"@[1]);
    assert("linear"@.len() != "longrope"@.len() && "yarn"@.len() != "longrope"@.len() && "yarn"@.len()
        != "llama3"@.len());
}

pub proof fn some_scalings_leave_the_angles(f: Ops, m: ModelView, s: SpecView)
    requires
        infer_spec(m) == Ok::<SpecView, crate::error::ErrorView>(s),
        written(m, "rope.scaling.type"@) == Some(ValueView::String("llama3"@)) || written(
            m,
            "rope.scaling.type"@,
        ) == Some(ValueView::String("longrope"@)),
    ensures
        value_of(f, s.rope.freq_scale) == UNIT,
        value_of(f, s.rope.ext_factor) == 0,
{
    reveal(infer_spec);
    reveal_strlit("yarn");
    reveal_strlit("llama3");
    reveal_strlit("longrope");
    assert("yarn"@.len() != "longrope"@.len() && "yarn"@.len() != "llama3"@.len());
}

/// The families that rotate neighbouring pairs.
pub open spec fn neighbouring() -> Seq<Seq<char>> {
    seq![
        "llama"@,
        "llama4"@,
        "deci"@,
        "baichuan"@,
        "starcoder"@,
        "plamo"@,
        "orion"@,
        "internlm2"@,
        "minicpm"@,
        "xverse"@,
        "command-r"@,
        "cohere2"@,
        "olmo"@,
        "arctic"@,
        "deepseek"@,
        "deepseek2"@,
        "chatglm"@,
        "granite"@,
        "granitemoe"@,
        "chameleon"@,
        "bailingmoe"@,
        "arcee"@,
        "mistral"@,
        "ernie4_5"@,
        "refact"@,
        "bitnet"@,
    ]
}

/// Sections make a rotation one over several axes; without them it is told by the family.
pub proof fn a_rotation_pairs_as_the_family_does(m: ModelView, s: SpecView, n: u32)
    requires
        infer_spec(m) == Ok::<SpecView, crate::error::ErrorView>(s),
    ensures
        silent(m, "rope.dimension_sections"@) ==> (s.rope.kind == RopeKind::Norm)
            == neighbouring().contains(m.meta.arch) && (s.rope.kind == RopeKind::Neox)
            == !neighbouring().contains(m.meta.arch),
        n > 0 && states(m, "rope.dimension_sections"@, n) ==> s.rope.kind == RopeKind::MRope
            && s.rope.sections.a == n,
{
    reveal(infer_spec);
    let l = neighbouring();
    assert(l.len() == 26);
    if silent(m, "rope.dimension_sections"@) {
        if l.contains(m.meta.arch) {
            let i = choose|i: int| 0 <= i < l.len() && l[i] == m.meta.arch;
            assert(super::spec::rotates_adjacent(l[i]));
        } else {
            assert(forall|i: int| 0 <= i < l.len() ==> #[trigger] l[i] != m.meta.arch);
            assert(l[0] == "llama"@ && l[1] == "llama4"@ && l[2] == "deci"@ && l[3] == "baichuan"@);
            assert(l[4] == "starcoder"@ && l[5] == "plamo"@ && l[6] == "orion"@);
            assert(l[7] == "internlm2"@ && l[8] == "minicpm"@ && l[9] == "xverse"@);
            assert(l[10] == "command-r"@ && l[11] == "cohere2"@ && l[12] == "olmo"@);
            assert(l[13] == "arctic"@ && l[14] == "deepseek"@ && l[15] == "deepseek2"@);
            assert(l[16] == "chatglm"@ && l[17] == "granite"@ && l[18] == "granitemoe"@);
            assert(l[19] == "chameleon"@ && l[20] == "bailingmoe"@ && l[21] == "arcee"@);
            assert(l[22] == "mistral"@ && l[23] == "ernie4_5"@ && l[24] == "refact"@);
            assert(l[25] == "bitnet"@);
        }
    }
    if n > 0 && states(m, "rope.dimension_sections"@, n) {
        assert(m.meta.nums("rope.dimension_sections"@)[0] == n);
    }
}

// ------------------------------------------------------------------------------- experts

/// There are experts just where the file counts some and holds a router for them; they are as many
/// as it says.
pub proof fn experts_are_read_as_written(m: ModelView, s: SpecView, n: u32, b: u32, on: bool)
    requires
        infer_spec(m) == Ok::<SpecView, crate::error::ErrorView>(s),
    ensures
        states(m, "expert_count"@, n) ==> (s.moe is Some) == (n > 0 && first_block_has(
            m,
            "ffn_gate_inp.weight"@,
        )),
        silent(m, "expert_count"@) ==> s.moe is None,
        s.moe matches Some(e) ==> {
            &&& states(m, "expert_count"@, n) ==> e.n_expert == n
            &&& states(m, "expert_used_count"@, n) ==> e.n_expert_used == n
            &&& silent(m, "expert_used_count"@) ==> e.n_expert_used == 2
            &&& states(m, "expert_feed_forward_length"@, n) ==> e.n_ff_exp == n
            &&& silent(m, "expert_feed_forward_length"@) ==> e.n_ff_exp == s.n_ff
            &&& states(m, "expert_shared_feed_forward_length"@, n) ==> e.n_ff_shexp == n
            &&& silent(m, "expert_shared_feed_forward_length"@) ==> e.n_ff_shexp == 0
            &&& gives(m, "expert_weights_scale"@, b) ==> e.scale == Real::Single(b)
            &&& silent(m, "expert_weights_scale"@) ==> e.scale == Real::Single(UNIT)
            &&& states(m, "expert_gating_func"@, n) ==> (e.gate_func == GateFunc::Sigmoid) == (n
                == 2)
            &&& silent(m, "expert_gating_func"@) ==> e.gate_func == GateFunc::Softmax
            &&& silent(m, "expert_weights_norm"@) ==> e.norm_topk
            &&& written(m, "expert_weights_norm"@) == Some(ValueView::Bool(on)) ==> e.norm_topk
                == on
        },
{
    reveal(infer_spec);
}

/// The size of the vocabulary is the one stated, else how many tokens are listed, else how many
/// rows the embeddings have.
pub proof fn a_vocabulary_is_as_long_as_it_is_said_to_be(
    m: ModelView,
    s: SpecView,
    n: u32,
    listed: Seq<ValueView>,
    name: Seq<char>,
)
    requires
        infer_spec(m) == Ok::<SpecView, crate::error::ErrorView>(s),
    ensures
        lookup(m.meta.map, "general.vocab_size"@) == Some(ValueView::U32(n)) ==> s.n_vocab == n,
        lookup(m.meta.map, "general.vocab_size"@) is None && listed.len() <= u32::MAX && lookup(
            m.meta.map,
            "tokenizer.ggml.tokens"@,
        ) == Some(ValueView::Array(listed)) ==> s.n_vocab == listed.len(),
        lookup(m.meta.map, "general.vocab_size"@) is None && lookup(
            m.meta.map,
            "tokenizer.ggml.tokens"@,
        ) is None ==> match lookup(m.tensors, "token_embd.weight"@) {
            Some(t) => t.n_rows() <= u32::MAX ==> s.n_vocab == t.n_rows(),
            None => s.n_vocab == 32000,
        },
        lookup(m.meta.map, "general.name"@) == Some(ValueView::String(name)) ==> s.name == name,
        lookup(m.meta.map, "general.name"@) is None ==> s.name == m.meta.arch,
{
    reveal(infer_spec);
}

} // verus!
