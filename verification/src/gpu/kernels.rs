//! The CUDA kernels that are looked up when a device is opened.

use vstd::prelude::*;
use vstd::string::*;

use super::cuda::{suffix, suffix_of};
use crate::dtype::DType;
use crate::text::{cat3, own, texts};

verus! {

/// The kernels without which the device cannot be used.
pub open spec fn needed_kernels() -> Seq<Seq<char>> {
    seq![
        "quantize_q8_1"@,
        "mul_mat_dense"@,
        "norm_kernel"@,
        "rope_kernel"@,
        "kv_write_f32"@,
        "kv_write_f16"@,
        "flash_attn_split_f32"@,
        "flash_attn_split_f16"@,
        "flash_attn_combine"@,
        "glu_kernel"@,
        "activate_kernel"@,
        "binary_kernel"@,
        "scale_kernel"@,
        "softcap_kernel"@,
        "fill_kernel"@,
        "moe_route"@,
        "moe_glu"@,
        "moe_reduce"@,
        "moe_scatter"@,
    ]
}

/// The kernels without which the device cannot be used.
pub fn fixed_kernels() -> (r: Vec<String>)
    ensures
        texts(r@) == needed_kernels(),
{
    let mut v: Vec<String> = Vec::new();
    v.push(own("quantize_q8_1"));
    v.push(own("mul_mat_dense"));
    v.push(own("norm_kernel"));
    v.push(own("rope_kernel"));
    v.push(own("kv_write_f32"));
    v.push(own("kv_write_f16"));
    v.push(own("flash_attn_split_f32"));
    v.push(own("flash_attn_split_f16"));
    v.push(own("flash_attn_combine"));
    v.push(own("glu_kernel"));
    v.push(own("activate_kernel"));
    v.push(own("binary_kernel"));
    v.push(own("scale_kernel"));
    v.push(own("softcap_kernel"));
    v.push(own("fill_kernel"));
    v.push(own("moe_route"));
    v.push(own("moe_glu"));
    v.push(own("moe_reduce"));
    v.push(own("moe_scatter"));
    assert(texts(v@) =~= needed_kernels());
    v
}

/// The types whose kernels are looked up.
pub open spec fn typed() -> Seq<DType> {
    seq![
        DType::F32,
        DType::F16,
        DType::BF16,
        DType::Q4_0,
        DType::Q4_1,
        DType::Q5_0,
        DType::Q5_1,
        DType::Q8_0,
        DType::Q2K,
        DType::Q3K,
        DType::Q4K,
        DType::Q5K,
        DType::Q6K,
        DType::Iq4Nl,
        DType::Iq4Xs,
        DType::Mxfp4,
        DType::Tq1_0,
        DType::Tq2_0,
    ]
}

/// Every type that has a kernel is looked up, and no other.
pub proof fn every_suffix_is_looked_up(t: DType)
    ensures
        typed().contains(t) <==> suffix_of(t) is Some,
{
    let s = typed();
    assert(s[0] == DType::F32 && s[1] == DType::F16 && s[2] == DType::BF16 && s[3] == DType::Q4_0);
    assert(s[4] == DType::Q4_1 && s[5] == DType::Q5_0 && s[6] == DType::Q5_1 && s[7] == DType::Q8_0);
    assert(s[8] == DType::Q2K && s[9] == DType::Q3K && s[10] == DType::Q4K && s[11] == DType::Q5K);
    assert(s[12] == DType::Q6K && s[13] == DType::Iq4Nl && s[14] == DType::Iq4Xs);
    assert(s[15] == DType::Mxfp4 && s[16] == DType::Tq1_0 && s[17] == DType::Tq2_0);
}

/// The kernels for one type.
pub open spec fn kernels_for(t: DType) -> Seq<Seq<char>> {
    match suffix_of(t) {
        Some(s) => seq!["get_rows"@ + "_"@ + s, "mul_mat"@ + "_"@ + s, "moe_mm"@ + "_"@ + s],
        None => Seq::empty(),
    }
}

/// The kernels for the first `n` of the types.
pub open spec fn kernels_upto(n: nat) -> Seq<Seq<char>>
    decreases n,
{
    if n == 0 {
        Seq::empty()
    } else {
        kernels_upto((n - 1) as nat) + kernels_for(typed()[n - 1])
    }
}

/// The kernels that are used where they are there.
pub fn typed_kernels() -> (r: Vec<String>)
    ensures
        texts(r@) == kernels_upto(typed().len()),
{
    let types = vec![
        DType::F32,
        DType::F16,
        DType::BF16,
        DType::Q4_0,
        DType::Q4_1,
        DType::Q5_0,
        DType::Q5_1,
        DType::Q8_0,
        DType::Q2K,
        DType::Q3K,
        DType::Q4K,
        DType::Q5K,
        DType::Q6K,
        DType::Iq4Nl,
        DType::Iq4Xs,
        DType::Mxfp4,
        DType::Tq1_0,
        DType::Tq2_0,
    ];
    assert(types@ =~= typed());
    let mut out: Vec<String> = Vec::new();
    assert(texts(out@) =~= kernels_upto(0));
    let mut i: usize = 0;
    while i < types.len()
        invariant
            types@ == typed(),
            i <= types@.len(),
            texts(out@) == kernels_upto(i as nat),
        decreases types@.len() - i,
    {
        let ghost before = texts(out@);
        match suffix(types[i]) {
            Some(s) => {
                out.push(cat3("get_rows", "_", s));
                out.push(cat3("mul_mat", "_", s));
                out.push(cat3("moe_mm", "_", s));
            },
            None => {},
        }
        i = i + 1;
        assert(texts(out@) =~= before + kernels_for(typed()[i - 1]));
    }
    out
}

} // verus!
