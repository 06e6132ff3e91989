//! Tensor element types and still-quantized weights.

use vstd::prelude::*;
use vstd::string::*;

use crate::error::{Error, ErrorView};
use crate::text::{cat2, cat3, dec, decimal, own};

verus! {

/// A ggml tensor element type. [`DType::id`] gives the number that stands for it on disk.
#[derive(Debug, Clone, Copy, PartialEq, Eq, Hash, Structural)]
pub enum DType {
    F32,
    F16,
    Q4_0,
    Q4_1,
    Q5_0,
    Q5_1,
    Q8_0,
    Q8_1,
    Q2K,
    Q3K,
    Q4K,
    Q5K,
    Q6K,
    Q8K,
    Iq2Xxs,
    Iq2Xs,
    Iq3Xxs,
    Iq1S,
    Iq4Nl,
    Iq3S,
    Iq2S,
    Iq4Xs,
    I8,
    I16,
    I32,
    I64,
    F64,
    Iq1M,
    BF16,
    Tq1_0,
    Tq2_0,
    Mxfp4,
}

/// The element type that a number on disk stands for.
pub open spec fn dtype_of_id(v: u32) -> Option<DType> {
    match v {
        0 => Some(DType::F32),
        1 => Some(DType::F16),
        2 => Some(DType::Q4_0),
        3 => Some(DType::Q4_1),
        6 => Some(DType::Q5_0),
        7 => Some(DType::Q5_1),
        8 => Some(DType::Q8_0),
        9 => Some(DType::Q8_1),
        10 => Some(DType::Q2K),
        11 => Some(DType::Q3K),
        12 => Some(DType::Q4K),
        13 => Some(DType::Q5K),
        14 => Some(DType::Q6K),
        15 => Some(DType::Q8K),
        16 => Some(DType::Iq2Xxs),
        17 => Some(DType::Iq2Xs),
        18 => Some(DType::Iq3Xxs),
        19 => Some(DType::Iq1S),
        20 => Some(DType::Iq4Nl),
        21 => Some(DType::Iq3S),
        22 => Some(DType::Iq2S),
        23 => Some(DType::Iq4Xs),
        24 => Some(DType::I8),
        25 => Some(DType::I16),
        26 => Some(DType::I32),
        27 => Some(DType::I64),
        28 => Some(DType::F64),
        29 => Some(DType::Iq1M),
        30 => Some(DType::BF16),
        34 => Some(DType::Tq1_0),
        35 => Some(DType::Tq2_0),
        39 => Some(DType::Mxfp4),
        _ => None,
    }
}

/// What is answered for the number of an element type: the type, or why there is none.
pub open spec fn dtype_parse(v: u32) -> Result<DType, ErrorView> {
    match dtype_of_id(v) {
        Some(t) => Ok(t),
        None => if v == 4 || v == 5 {
            Err(
                ErrorView::Unsupported(
                    "ggml type Q4_2/Q4_3 (removed from ggml years ago; requantize the model)"@,
                ),
            )
        } else if 31 <= v <= 33 || 36 <= v <= 38 {
            Err(
                ErrorView::Unsupported(
                    "ggml type "@ + dec(v as nat)
                        + " (repacked AArch64 variant, removed from ggml; requantize the model)"@,
                ),
            )
        } else {
            Err(ErrorView::Format("unknown ggml type id "@ + dec(v as nat)))
        },
    }
}

impl DType {
    /// The number that stands for the type on disk.
    pub open spec fn number(self) -> u32 {
        match self {
            DType::F32 => 0,
            DType::F16 => 1,
            DType::Q4_0 => 2,
            DType::Q4_1 => 3,
            DType::Q5_0 => 6,
            DType::Q5_1 => 7,
            DType::Q8_0 => 8,
            DType::Q8_1 => 9,
            DType::Q2K => 10,
            DType::Q3K => 11,
            DType::Q4K => 12,
            DType::Q5K => 13,
            DType::Q6K => 14,
            DType::Q8K => 15,
            DType::Iq2Xxs => 16,
            DType::Iq2Xs => 17,
            DType::Iq3Xxs => 18,
            DType::Iq1S => 19,
            DType::Iq4Nl => 20,
            DType::Iq3S => 21,
            DType::Iq2S => 22,
            DType::Iq4Xs => 23,
            DType::I8 => 24,
            DType::I16 => 25,
            DType::I32 => 26,
            DType::I64 => 27,
            DType::F64 => 28,
            DType::Iq1M => 29,
            DType::BF16 => 30,
            DType::Tq1_0 => 34,
            DType::Tq2_0 => 35,
            DType::Mxfp4 => 39,
        }
    }

    /// The number that stands for the type on disk.
    pub fn id(self) -> (r: u32)
        ensures
            r == self.number(),
    {
        match self {
            DType::F32 => 0,
            DType::F16 => 1,
            DType::Q4_0 => 2,
            DType::Q4_1 => 3,
            DType::Q5_0 => 6,
            DType::Q5_1 => 7,
            DType::Q8_0 => 8,
            DType::Q8_1 => 9,
            DType::Q2K => 10,
            DType::Q3K => 11,
            DType::Q4K => 12,
            DType::Q5K => 13,
            DType::Q6K => 14,
            DType::Q8K => 15,
            DType::Iq2Xxs => 16,
            DType::Iq2Xs => 17,
            DType::Iq3Xxs => 18,
            DType::Iq1S => 19,
            DType::Iq4Nl => 20,
            DType::Iq3S => 21,
            DType::Iq2S => 22,
            DType::Iq4Xs => 23,
            DType::I8 => 24,
            DType::I16 => 25,
            DType::I32 => 26,
            DType::I64 => 27,
            DType::F64 => 28,
            DType::Iq1M => 29,
            DType::BF16 => 30,
            DType::Tq1_0 => 34,
            DType::Tq2_0 => 35,
            DType::Mxfp4 => 39,
        }
    }

    /// The element type a file stores as `v`.
    pub fn from_u32(v: u32) -> (r: Result<DType, Error>)
        ensures
            match dtype_parse(v) {
                Ok(t) => r == Ok::<DType, Error>(t),
                Err(e) => r is Err && r->Err_0@ == e,
            },
    {
        Ok(
            match v {
                0 => DType::F32,
                1 => DType::F16,
                2 => DType::Q4_0,
                3 => DType::Q4_1,
                6 => DType::Q5_0,
                7 => DType::Q5_1,
                8 => DType::Q8_0,
                9 => DType::Q8_1,
                10 => DType::Q2K,
                11 => DType::Q3K,
                12 => DType::Q4K,
                13 => DType::Q5K,
                14 => DType::Q6K,
                15 => DType::Q8K,
                16 => DType::Iq2Xxs,
                17 => DType::Iq2Xs,
                18 => DType::Iq3Xxs,
                19 => DType::Iq1S,
                20 => DType::Iq4Nl,
                21 => DType::Iq3S,
                22 => DType::Iq2S,
                23 => DType::Iq4Xs,
                24 => DType::I8,
                25 => DType::I16,
                26 => DType::I32,
                27 => DType::I64,
                28 => DType::F64,
                29 => DType::Iq1M,
                30 => DType::BF16,
                34 => DType::Tq1_0,
                35 => DType::Tq2_0,
                39 => DType::Mxfp4,
                _ => {
                    return Err(
                        if v == 4 || v == 5 {
                            Error::Unsupported(
                                own(
                                    "ggml type Q4_2/Q4_3 (removed from ggml years ago; requantize the model)",
                                ),
                            )
                        } else if (31 <= v && v <= 33) || (36 <= v && v <= 38) {
                            Error::Unsupported(
                                cat3(
                                    "ggml type ",
                                    decimal(v as u64).as_str(),
                                    " (repacked AArch64 variant, removed from ggml; requantize the model)",
                                ),
                            )
                        } else {
                            Error::Format(
                                cat2("unknown ggml type id ", decimal(v as u64).as_str()),
                            )
                        },
                    );
                },
            },
        )
    }

    /// Number of elements encoded by one block.
    pub open spec fn block_len(self) -> nat {
        match self {
            DType::F32
            | DType::F16
            | DType::BF16
            | DType::F64
            | DType::I8
            | DType::I16
            | DType::I32
            | DType::I64 => 1,
            DType::Q4_0
            | DType::Q4_1
            | DType::Q5_0
            | DType::Q5_1
            | DType::Q8_0
            | DType::Q8_1
            | DType::Iq4Nl
            | DType::Mxfp4 => 32,
            _ => 256,
        }
    }

    /// Size in bytes of one block.
    pub open spec fn block_bytes(self) -> nat {
        match self {
            DType::F32 | DType::I32 => 4,
            DType::F16 | DType::BF16 | DType::I16 => 2,
            DType::F64 | DType::I64 => 8,
            DType::I8 => 1,
            DType::Q4_0 => 18,
            DType::Q4_1 => 20,
            DType::Q5_0 => 22,
            DType::Q5_1 => 24,
            DType::Q8_0 => 34,
            DType::Q8_1 => 36,
            DType::Q2K => 84,
            DType::Q3K => 110,
            DType::Q4K => 144,
            DType::Q5K => 176,
            DType::Q6K => 210,
            DType::Q8K => 292,
            DType::Iq2Xxs => 66,
            DType::Iq2Xs => 74,
            DType::Iq2S => 82,
            DType::Iq3Xxs => 98,
            DType::Iq3S => 110,
            DType::Iq1S => 50,
            DType::Iq1M => 56,
            DType::Iq4Nl => 18,
            DType::Iq4Xs => 136,
            DType::Tq1_0 => 54,
            DType::Tq2_0 => 66,
            DType::Mxfp4 => 17,
        }
    }

    /// Bytes that `n` contiguous elements take; a started block does not count.
    pub open spec fn bytes_for(self, n: nat) -> nat {
        n / self.block_len() * self.block_bytes()
    }

    /// Number of elements encoded by one block of this type.
    pub fn block_size(self) -> (r: usize)
        ensures
            r == self.block_len(),
    {
        match self {
            DType::F32
            | DType::F16
            | DType::BF16
            | DType::F64
            | DType::I8
            | DType::I16
            | DType::I32
            | DType::I64 => 1,
            DType::Q4_0
            | DType::Q4_1
            | DType::Q5_0
            | DType::Q5_1
            | DType::Q8_0
            | DType::Q8_1
            | DType::Iq4Nl
            | DType::Mxfp4 => 32,
            _ => 256,
        }
    }

    /// Size in bytes of one block of this type.
    pub fn type_size(self) -> (r: usize)
        ensures
            r == self.block_bytes(),
    {
        match self {
            DType::F32 | DType::I32 => 4,
            DType::F16 | DType::BF16 | DType::I16 => 2,
            DType::F64 | DType::I64 => 8,
            DType::I8 => 1,
            DType::Q4_0 => 18,
            DType::Q4_1 => 20,
            DType::Q5_0 => 22,
            DType::Q5_1 => 24,
            DType::Q8_0 => 34,
            DType::Q8_1 => 36,
            DType::Q2K => 84,
            DType::Q3K => 110,
            DType::Q4K => 144,
            DType::Q5K => 176,
            DType::Q6K => 210,
            DType::Q8K => 292,
            DType::Iq2Xxs => 66,
            DType::Iq2Xs => 74,
            DType::Iq2S => 82,
            DType::Iq3Xxs => 98,
            DType::Iq3S => 110,
            DType::Iq1S => 50,
            DType::Iq1M => 56,
            DType::Iq4Nl => 18,
            DType::Iq4Xs => 136,
            DType::Tq1_0 => 54,
            DType::Tq2_0 => 66,
            DType::Mxfp4 => 17,
        }
    }

    /// Bytes occupied by `n` contiguous elements. `n` is a multiple of `block_size()`.
    pub fn row_bytes(self, n: usize) -> (r: usize)
        requires
            self.bytes_for(n as nat) <= usize::MAX,
        ensures
            r == self.bytes_for(n as nat),
    {
        n / self.block_size() * self.type_size()
    }

    pub fn is_quantized(self) -> (r: bool)
        ensures
            r == !(self is F32 || self is F16 || self is BF16 || self is F64 || self is I8
                || self is I16 || self is I32 || self is I64),
            r == (self.block_len() > 1),
    {
        match self {
            DType::F32
            | DType::F16
            | DType::BF16
            | DType::F64
            | DType::I8
            | DType::I16
            | DType::I32
            | DType::I64 => false,
            _ => true,
        }
    }

    /// K-quant and IQ families carry per-super-block scales and need 256-element rows.
    pub fn is_k_quant(self) -> (r: bool)
        ensures
            r == (self.block_len() == 256),
    {
        self.block_size() == 256
    }

    /// Whether decoding depends on a large exact codebook table shipped inside ggml.
    pub open spec fn has_codebook(self) -> bool {
        self is Iq1S || self is Iq1M || self is Iq2Xxs || self is Iq2Xs || self is Iq2S
            || self is Iq3Xxs || self is Iq3S
    }

    /// Types whose decode depends on a large exact codebook table shipped inside ggml.
    /// These are refused rather than decoded into plausible-looking garbage.
    pub fn needs_codebook(self) -> (r: bool)
        ensures
            r == self.has_codebook(),
    {
        match self {
            DType::Iq1S
            | DType::Iq1M
            | DType::Iq2Xxs
            | DType::Iq2Xs
            | DType::Iq2S
            | DType::Iq3Xxs
            | DType::Iq3S => true,
            _ => false,
        }
    }

    /// The name of the type.
    pub open spec fn label(self) -> Seq<char> {
        match self {
            DType::F32 => "F32"@,
            DType::F16 => "F16"@,
            DType::BF16 => "BF16"@,
            DType::F64 => "F64"@,
            DType::I8 => "I8"@,
            DType::I16 => "I16"@,
            DType::I32 => "I32"@,
            DType::I64 => "I64"@,
            DType::Q4_0 => "Q4_0"@,
            DType::Q4_1 => "Q4_1"@,
            DType::Q5_0 => "Q5_0"@,
            DType::Q5_1 => "Q5_1"@,
            DType::Q8_0 => "Q8_0"@,
            DType::Q8_1 => "Q8_1"@,
            DType::Q2K => "Q2_K"@,
            DType::Q3K => "Q3_K"@,
            DType::Q4K => "Q4_K"@,
            DType::Q5K => "Q5_K"@,
            DType::Q6K => "Q6_K"@,
            DType::Q8K => "Q8_K"@,
            DType::Iq2Xxs => "IQ2_XXS"@,
            DType::Iq2Xs => "IQ2_XS"@,
            DType::Iq2S => "IQ2_S"@,
            DType::Iq3Xxs => "IQ3_XXS"@,
            DType::Iq3S => "IQ3_S"@,
            DType::Iq1S => "IQ1_S"@,
            DType::Iq1M => "IQ1_M"@,
            DType::Iq4Nl => "IQ4_NL"@,
            DType::Iq4Xs => "IQ4_XS"@,
            DType::Tq1_0 => "TQ1_0"@,
            DType::Tq2_0 => "TQ2_0"@,
            DType::Mxfp4 => "MXFP4"@,
        }
    }

    pub fn name(self) -> (r: &'static str)
        ensures
            r@ == self.label(),
    {
        match self {
            DType::F32 => "F32",
            DType::F16 => "F16",
            DType::BF16 => "BF16",
            DType::F64 => "F64",
            DType::I8 => "I8",
            DType::I16 => "I16",
            DType::I32 => "I32",
            DType::I64 => "I64",
            DType::Q4_0 => "Q4_0",
            DType::Q4_1 => "Q4_1",
            DType::Q5_0 => "Q5_0",
            DType::Q5_1 => "Q5_1",
            DType::Q8_0 => "Q8_0",
            DType::Q8_1 => "Q8_1",
            DType::Q2K => "Q2_K",
            DType::Q3K => "Q3_K",
            DType::Q4K => "Q4_K",
            DType::Q5K => "Q5_K",
            DType::Q6K => "Q6_K",
            DType::Q8K => "Q8_K",
            DType::Iq2Xxs => "IQ2_XXS",
            DType::Iq2Xs => "IQ2_XS",
            DType::Iq2S => "IQ2_S",
            DType::Iq3Xxs => "IQ3_XXS",
            DType::Iq3S => "IQ3_S",
            DType::Iq1S => "IQ1_S",
            DType::Iq1M => "IQ1_M",
            DType::Iq4Nl => "IQ4_NL",
            DType::Iq4Xs => "IQ4_XS",
            DType::Tq1_0 => "TQ1_0",
            DType::Tq2_0 => "TQ2_0",
            DType::Mxfp4 => "MXFP4",
        }
    }

    /// Why a type that depends on a codebook is refused.
    pub open spec fn refusal(self) -> ErrorView {
        ErrorView::Unsupported(
            self.label()
                + " weights: this quantization depends on ggml's built-in codebook grids, which this engine does not carry. Use a K-quant (Q4_K/Q5_K/Q6_K), IQ4_XS, or Q8_0 build of the model instead"@,
        )
    }

    /// Fails with an actionable message for types this engine deliberately does not decode.
    pub fn check_supported(self) -> (r: Result<(), Error>)
        ensures
            self.has_codebook() ==> r is Err && r->Err_0@ == self.refusal(),
            !self.has_codebook() ==> r is Ok,
    {
        if self.needs_codebook() {
            return Err(
                Error::Unsupported(
                    cat2(
                        self.name(),
                        " weights: this quantization depends on ggml's built-in codebook grids, which this engine does not carry. Use a K-quant (Q4_K/Q5_K/Q6_K), IQ4_XS, or Q8_0 build of the model instead",
                    ),
                ),
            );
        }
        Ok(())
    }
}

/// The number of a type on disk leads back to the type, and no other number does.
pub proof fn dtype_numbers_are_unambiguous(t: DType, v: u32)
    ensures
        dtype_of_id(t.number()) == Some(t),
        dtype_of_id(v) == Some(t) ==> v == t.number(),
{
}

/// A borrowed, still-quantized 2-D weight: raw bytes exactly as they sit in the file.
#[derive(Clone, Copy)]
pub struct QuantView<'a> {
    pub data: &'a [u8],
    pub dtype: DType,
    pub rows: usize,
    pub cols: usize,
}

/// The bytes `from..to` of a slice.
fn bytes_range<'a>(s: &'a [u8], from: usize, to: usize) -> (r: &'a [u8])
    requires
        from <= to <= s@.len(),
    ensures
        r@ == s@.subrange(from as int, to as int),
{
    vstd::slice::slice_subrange(s, from, to)
}

impl<'a> QuantView<'a> {
    /// Bytes of one row.
    pub open spec fn row_len(self) -> nat {
        self.dtype.bytes_for(self.cols as nat)
    }

    pub fn new(data: &'a [u8], dtype: DType, rows: usize, cols: usize) -> (r: Self)
        ensures
            r == (QuantView { data, dtype, rows, cols }),
    {
        QuantView { data, dtype, rows, cols }
    }

    pub fn row_bytes(&self) -> (r: usize)
        requires
            self.row_len() <= usize::MAX,
        ensures
            r == self.row_len(),
    {
        self.dtype.row_bytes(self.cols)
    }

    pub fn row(&self, r: usize) -> (b: &'a [u8])
        requires
            (r + 1) * self.row_len() <= self.data@.len(),
        ensures
            b@ == self.data@.subrange(r * self.row_len(), (r + 1) * self.row_len()),
    {
        let n = self.data.len();
        assert((r + 1) * self.row_len() == r * self.row_len() + self.row_len()) by (nonlinear_arith);
        assert(0 <= r * self.row_len()) by (nonlinear_arith)
            requires
                0 <= r,
                0 <= self.row_len(),
        ;
        let rb = self.row_bytes();
        bytes_range(self.data, r * rb, r * rb + rb)
    }

    /// One expert's slice out of a stacked `[n_expert, rows, cols]` MoE tensor.
    pub fn expert(&self, e: usize, rows_per_expert: usize) -> (v: QuantView<'a>)
        requires
            self.row_len() <= usize::MAX,
            (e + 1) * (self.row_len() * rows_per_expert) <= self.data@.len(),
        ensures
            v.dtype == self.dtype,
            v.cols == self.cols,
            v.rows == rows_per_expert,
            v.data@ == self.data@.subrange(
                e * (self.row_len() * rows_per_expert),
                (e + 1) * (self.row_len() * rows_per_expert),
            ),
    {
        let n = self.data.len();
        let ghost size: int = self.row_len() * rows_per_expert;
        assert((e + 1) * size == e * size + size) by (nonlinear_arith);
        assert(0 <= size) by (nonlinear_arith)
            requires
                size == self.row_len() * rows_per_expert,
        ;
        assert(0 <= e * size) by (nonlinear_arith)
            requires
                0 <= e,
                0 <= size,
        ;
        let bytes = self.row_bytes() * rows_per_expert;
        QuantView {
            data: bytes_range(self.data, e * bytes, e * bytes + bytes),
            dtype: self.dtype,
            rows: rows_per_expert,
            cols: self.cols,
        }
    }
}

/// Row `r` of expert `e` is row `e * rows_per_expert + r` of the stacked tensor: the slices
/// of the experts lay the tensor out one after the other.
pub proof fn expert_rows_are_stacked_rows(
    data: Seq<u8>,
    row_len: nat,
    rows_per_expert: nat,
    e: nat,
    r: nat,
)
    requires
        r < rows_per_expert,
        (e + 1) * (row_len * rows_per_expert) <= data.len(),
    ensures
        ({
            let size = (row_len * rows_per_expert) as int;
            let expert = data.subrange(e * size, (e + 1) * size);
            let k = (e * rows_per_expert + r) as int;
            &&& (r + 1) * row_len <= expert.len()
            &&& (k + 1) * row_len <= data.len()
            &&& expert.subrange((r * row_len) as int, ((r + 1) * row_len) as int) == data.subrange(
                k * row_len,
                (k + 1) * row_len,
            )
        }),
{
    let size = (row_len * rows_per_expert) as int;
    let expert = data.subrange(e * size, (e + 1) * size);
    let k = (e * rows_per_expert + r) as int;
    assert((e + 1) * size == e * size + size) by (nonlinear_arith);
    assert(0 <= e * size) by (nonlinear_arith)
        requires
            size == row_len * rows_per_expert,
            0 <= e,
            0 <= row_len,
            0 <= rows_per_expert,
    ;
    assert(expert.len() == size);
    assert((r + 1) * row_len <= size) by (nonlinear_arith)
        requires
            size == row_len * rows_per_expert,
            r + 1 <= rows_per_expert,
            0 <= row_len,
    ;
    assert(k * row_len == e * size + r * row_len) by (nonlinear_arith)
        requires
            k == e * rows_per_expert + r,
            size == row_len * rows_per_expert,
    ;
    assert((k + 1) * row_len == k * row_len + row_len) by (nonlinear_arith);
    assert((r + 1) * row_len == r * row_len + row_len) by (nonlinear_arith);
    assert(0 <= r * row_len) by (nonlinear_arith)
        requires
            0 <= r,
            0 <= row_len,
    ;
    assert(expert.subrange((r * row_len) as int, ((r + 1) * row_len) as int) =~= data.subrange(
        k * row_len,
        (k + 1) * row_len,
    ));
}

} // verus!
