//! The layout of a block: which integer each element is coded as, and which integers scale it.

use vstd::prelude::*;

use crate::dtype::DType;
use crate::single::{half, Arith, FloatOp, Ops};

verus! {

/// IQ4_NL / IQ4_XS share this 16-entry non-linear codebook. Unlike the IQ1/IQ2/IQ3 grids it is
/// small enough to be part of the format rather than a lookup table.
pub const KVALUES_IQ4NL: [i8; 16] = [
    -127,
    -104,
    -83,
    -65,
    -49,
    -35,
    -22,
    -10,
    1,
    13,
    25,
    38,
    53,
    69,
    89,
    113,
];

/// MXFP4 E2M1 codebook, stored at 2x so the exponent scale carries the halving.
pub const KVALUES_MXFP4: [i8; 16] = [0, 1, 2, 3, 4, 6, 8, 12, 0, -1, -2, -3, -4, -6, -8, -12];

/// A byte as a signed number.
pub open spec fn signed(b: u8) -> int {
    if b < 128 {
        b as int
    } else {
        b - 256
    }
}

/// The power of two of a small exponent.
pub open spec fn pow2(k: int) -> int {
    if k <= 0 {
        1
    } else if k == 1 {
        2
    } else if k == 2 {
        4
    } else if k == 3 {
        8
    } else if k == 4 {
        16
    } else if k == 5 {
        32
    } else if k == 6 {
        64
    } else {
        128
    }
}

pub open spec fn pow3(k: int) -> int {
    if k <= 0 {
        1
    } else if k == 1 {
        3
    } else if k == 2 {
        9
    } else if k == 3 {
        27
    } else {
        81
    }
}

/// Bit `k` of a byte.
pub open spec fn bit(b: u8, k: int) -> int {
    b as int / pow2(k) % 2
}

/// Two bits of a byte, the `k`-th pair.
pub open spec fn pair(b: u8, k: int) -> int {
    b as int / pow2(2 * k) % 4
}

/// One half of a byte: the low one where `k` is zero, else the high one.
pub open spec fn nibble(b: u8, k: int) -> int {
    if k == 0 {
        b as int % 16
    } else {
        b as int / 16
    }
}

/// Element `e` of 32 that 16 bytes from `at` on hold: the low halves first, then the high ones.
pub open spec fn nibble_of_32(b: Seq<u8>, at: int, e: int) -> int {
    nibble(b[at + e % 16], e / 16)
}

/// Bit `e` of the bits from byte `at` on.
pub open spec fn bit_of(b: Seq<u8>, at: int, e: int) -> int {
    bit(b[at + e / 8], e % 8)
}

/// A ternary digit: five of them, base 3, are packed into a byte.
pub open spec fn ternary(b: u8, n: int) -> int {
    (b * pow3(n)) % 256 * 3 / 256 - 1
}

/// Decodes the 6-bit scale at index `j` out of Q4_K/Q5_K's packed 12-byte scale block.
pub open spec fn k4_scale(b: Seq<u8>, at: int, j: int) -> int {
    if j < 4 {
        b[at + j] as int % 64
    } else {
        b[at + j + 4] as int % 16 + 16 * (b[at + j - 4] as int / 64)
    }
}

/// Decodes the 6-bit minimum at index `j` out of Q4_K/Q5_K's packed 12-byte scale block.
pub open spec fn k4_min(b: Seq<u8>, at: int, j: int) -> int {
    if j < 4 {
        b[at + j + 4] as int % 64
    } else {
        b[at + j + 4] as int / 16 + 16 * (b[at + j] as int / 64)
    }
}

/// Decodes the 6-bit signed scale at index `k` out of Q3_K's packed 12-byte scale block.
pub open spec fn k3_scale(b: Seq<u8>, at: int, k: int) -> int {
    let low = nibble(
        b[at + k % 8],
        if k < 8 {
            0int
        } else {
            1
        },
    );
    let high = pair(b[at + 8 + k % 4], k / 4);
    low + 16 * high - 32
}

/// Whether the type is made of blocks.
pub open spec fn is_block(t: DType) -> bool {
    match t {
        DType::Q4_0 | DType::Q4_1 | DType::Q5_0 | DType::Q5_1 | DType::Q8_0 | DType::Q8_1
        | DType::Q2K | DType::Q3K | DType::Q4K | DType::Q5K | DType::Q6K | DType::Q8K
        | DType::Iq4Nl | DType::Iq4Xs | DType::Tq1_0 | DType::Tq2_0 | DType::Mxfp4 => true,
        _ => false,
    }
}

/// The integer that element `e` of a block is coded as.
pub open spec fn code(t: DType, b: Seq<u8>, e: int) -> int {
    let l = e % 32;
    let h = e / 128;
    let j = e % 128 / 32;
    match t {
        DType::Q4_0 => nibble_of_32(b, 2, e),
        DType::Q4_1 => nibble_of_32(b, 4, e),
        DType::Q5_0 => nibble_of_32(b, 6, e) + 16 * bit_of(b, 2, e),
        DType::Q5_1 => nibble_of_32(b, 8, e) + 16 * bit_of(b, 4, e),
        DType::Q8_0 => signed(b[2 + e]),
        DType::Q8_1 => signed(b[4 + e]),
        DType::Q2K => pair(b[16 + h * 32 + l], j),
        DType::Q3K => pair(b[32 + h * 32 + l], j) - (if bit(b[l], h * 4 + j) == 1 {
            0int
        } else {
            4
        }),
        DType::Q4K => nibble(b[16 + e / 64 * 32 + l], e / 32 % 2),
        DType::Q5K => nibble(b[48 + e / 64 * 32 + l], e / 32 % 2) + 16 * bit(b[16 + l], e / 32),
        DType::Q6K => nibble(b[h * 64 + j % 2 * 32 + l], j / 2) + 16 * pair(b[128 + h * 32 + l], j)
            - 32,
        DType::Q8K => signed(b[4 + e]),
        DType::Iq4Nl => KVALUES_IQ4NL[nibble_of_32(b, 2, e)] as int,
        DType::Iq4Xs => KVALUES_IQ4NL[nibble(b[8 + e / 32 * 16 + e % 16], e / 16 % 2)] as int,
        DType::Tq1_0 => if e < 160 {
            ternary(b[e % 32], e / 32)
        } else if e < 240 {
            ternary(b[32 + (e - 160) % 16], (e - 160) / 16)
        } else {
            ternary(b[48 + (e - 240) % 4], (e - 240) / 4)
        },
        DType::Tq2_0 => pair(b[h * 32 + l], j) - 1,
        DType::Mxfp4 => KVALUES_MXFP4[nibble_of_32(b, 1, e)] as int,
        _ => 0,
    }
}

/// What is taken off every code of a block.
pub open spec fn offset(t: DType) -> int {
    match t {
        DType::Q4_0 => 8,
        DType::Q5_0 => 16,
        _ => 0,
    }
}

/// How many elements of a block share a scale.
pub open spec fn group(t: DType) -> int {
    match t {
        DType::Q2K | DType::Q3K | DType::Q6K => 16,
        _ => 32,
    }
}

/// The integer that scales group `g` of a block.
pub open spec fn scale(t: DType, b: Seq<u8>, g: int) -> int {
    match t {
        DType::Q2K => nibble(b[g], 0),
        DType::Q3K => k3_scale(b, 96, g),
        DType::Q4K | DType::Q5K => k4_scale(b, 4, g),
        DType::Q6K => signed(b[192 + g]),
        DType::Iq4Xs => nibble(b[4 + g / 2], g % 2) + 16 * pair(b[2 + g / 4], g % 4) - 32,
        _ => 1,
    }
}

/// The integer that scales the minimum of group `g` of a block.
pub open spec fn minimum(t: DType, b: Seq<u8>, g: int) -> int {
    match t {
        DType::Q2K => nibble(b[g], 1),
        DType::Q4K | DType::Q5K => k4_min(b, 4, g),
        _ => 0,
    }
}

pub open spec fn le16_at(b: Seq<u8>, at: int) -> u16 {
    (b[at] + 256 * b[at + 1]) as u16
}

pub open spec fn le32_at(b: Seq<u8>, at: int) -> u32 {
    (b[at] + 0x100 * b[at + 1] + 0x1_0000 * b[at + 2] + 0x100_0000 * b[at + 3]) as u32
}

/// The bits of half the power of two that an exponent byte stands for.
pub open spec fn exponent_bits(e: u8) -> u32 {
    if e == 0 {
        0x0020_0000
    } else if e == 1 {
        0x0040_0000
    } else {
        ((e - 1) * 0x80_0000) as u32
    }
}

/// Where a block holds its scale.
pub open spec fn base_at(t: DType) -> int {
    match t {
        DType::Q2K => 80,
        DType::Q3K => 108,
        DType::Q6K => 208,
        DType::Tq1_0 => 52,
        DType::Tq2_0 => 64,
        _ => 0,
    }
}

/// The scale of a block.
pub open spec fn base(f: Ops, t: DType, b: Seq<u8>) -> u32 {
    match t {
        DType::Q8K => le32_at(b, 0),
        DType::Mxfp4 => exponent_bits(b[0]),
        _ => half(f, le16_at(b, base_at(t))),
    }
}

/// Where a block holds the scale of its minimums.
pub open spec fn second_at(t: DType) -> int {
    if t == DType::Q2K {
        82
    } else {
        2
    }
}

/// The scale of a block's minimums, or its minimum.
pub open spec fn second(f: Ops, t: DType, b: Seq<u8>) -> u32 {
    half(f, le16_at(b, second_at(t)))
}

// ----------------------------------------------------------------------------- execution

fn signed_of(b: u8) -> (r: i32)
    ensures
        r == signed(b),
        -128 <= r <= 127,
{
    if b < 128 {
        b as i32
    } else {
        b as i32 - 256
    }
}

fn two_to(k: usize) -> (r: u32)
    ensures
        r == pow2(k as int),
        1 <= r <= 128,
{
    match k {
        0 => 1,
        1 => 2,
        2 => 4,
        3 => 8,
        4 => 16,
        5 => 32,
        6 => 64,
        _ => 128,
    }
}

fn three_to(k: usize) -> (r: u32)
    ensures
        r == pow3(k as int),
        1 <= r <= 81,
{
    match k {
        0 => 1,
        1 => 3,
        2 => 9,
        3 => 27,
        _ => 81,
    }
}

fn bit_at(b: u8, k: usize) -> (r: i32)
    ensures
        r == bit(b, k as int),
        0 <= r <= 1,
{
    (b as u32 / two_to(k) % 2) as i32
}

fn pair_at(b: u8, k: usize) -> (r: i32)
    requires
        k < 4,
    ensures
        r == pair(b, k as int),
        0 <= r <= 3,
{
    (b as u32 / two_to(2 * k) % 4) as i32
}

fn nibble_at(b: u8, k: usize) -> (r: i32)
    ensures
        r == nibble(b, k as int),
        0 <= r <= 15,
{
    if k == 0 {
        (b % 16) as i32
    } else {
        (b / 16) as i32
    }
}

fn nibble_32(b: &[u8], at: usize, e: usize) -> (r: i32)
    requires
        at + 16 <= b@.len(),
        e < 32,
    ensures
        r == nibble_of_32(b@, at as int, e as int),
        0 <= r <= 15,
{
    let n = b.len();
    nibble_at(b[at + e % 16], e / 16)
}

fn bit_32(b: &[u8], at: usize, e: usize) -> (r: i32)
    requires
        at + 4 <= b@.len(),
        e < 32,
    ensures
        r == bit_of(b@, at as int, e as int),
        0 <= r <= 1,
{
    let n = b.len();
    bit_at(b[at + e / 8], e % 8)
}

fn ternary_at(b: u8, n: usize) -> (r: i32)
    ensures
        r == ternary(b, n as int),
        -1 <= r <= 1,
{
    let p = three_to(n);
    assert(0 <= b * p <= 255 * 81) by (nonlinear_arith)
        requires
            b <= 255,
            p <= 81,
    ;
    let q = (b as u32 * p) % 256;
    (q * 3 / 256) as i32 - 1
}

/// The 6-bit scale and minimum at index `j` of Q4_K/Q5_K's packed scale block.
pub fn scale_min_k4(j: usize, q: &[u8]) -> (r: (i32, i32))
    requires
        j < 8,
        q@.len() >= 12,
    ensures
        r.0 == k4_scale(q@, 0, j as int),
        r.1 == k4_min(q@, 0, j as int),
        0 <= r.0 <= 63,
        0 <= r.1 <= 63,
{
    if j < 4 {
        ((q[j] % 64) as i32, (q[j + 4] % 64) as i32)
    } else {
        (
            (q[j + 4] % 16) as i32 + 16 * ((q[j - 4] / 64) as i32),
            (q[j + 4] / 16) as i32 + 16 * ((q[j] / 64) as i32),
        )
    }
}

/// The 6-bit signed scale at index `k` of Q3_K's packed scale block.
///
/// ggml assembles these by shuffling three 32-bit words; this is the same shuffle expressed per
/// index so it can be used from a loop without a scratch buffer.
pub fn q3k_scale(sc: &[u8], k: usize) -> (r: i8)
    requires
        k < 16,
        sc@.len() >= 12,
    ensures
        r == k3_scale(sc@, 0, k as int),
        -32 <= r <= 31,
{
    let low = nibble_at(
        sc[k % 8],
        if k < 8 {
            0
        } else {
            1
        },
    );
    let high = pair_at(sc[8 + k % 4], k / 4);
    (low + 16 * high - 32) as i8
}

/// The integer that element `e` of a block is coded as.
#[verifier::spinoff_prover]
#[verifier::rlimit(40)]
pub fn code_at(t: DType, b: &[u8], e: usize) -> (r: i32)
    requires
        is_block(t),
        b@.len() >= t.block_bytes(),
        e < t.block_len(),
    ensures
        r == code(t, b@, e as int),
        -128 <= r <= 127,
{
    let l = e % 32;
    let h = e / 128;
    let j = e % 128 / 32;
    match t {
        DType::Q4_0 => nibble_32(b, 2, e),
        DType::Q4_1 => nibble_32(b, 4, e),
        DType::Q5_0 => nibble_32(b, 6, e) + 16 * bit_32(b, 2, e),
        DType::Q5_1 => nibble_32(b, 8, e) + 16 * bit_32(b, 4, e),
        DType::Q8_0 => signed_of(b[2 + e]),
        DType::Q8_1 => signed_of(b[4 + e]),
        DType::Q2K => pair_at(b[16 + h * 32 + l], j),
        DType::Q3K => pair_at(b[32 + h * 32 + l], j) - (if bit_at(b[l], h * 4 + j) == 1 {
            0
        } else {
            4
        }),
        DType::Q4K => nibble_at(b[16 + e / 64 * 32 + l], e / 32 % 2),
        DType::Q5K => nibble_at(b[48 + e / 64 * 32 + l], e / 32 % 2) + 16 * bit_at(
            b[16 + l],
            e / 32,
        ),
        DType::Q6K => nibble_at(b[h * 64 + j % 2 * 32 + l], j / 2) + 16 * pair_at(
            b[128 + h * 32 + l],
            j,
        ) - 32,
        DType::Q8K => signed_of(b[4 + e]),
        DType::Iq4Nl => KVALUES_IQ4NL[nibble_32(b, 2, e) as usize] as i32,
        DType::Iq4Xs => KVALUES_IQ4NL[nibble_at(b[8 + e / 32 * 16 + e % 16], e / 16 % 2) as usize]
            as i32,
        DType::Tq1_0 => if e < 160 {
            ternary_at(b[e % 32], e / 32)
        } else if e < 240 {
            ternary_at(b[32 + (e - 160) % 16], (e - 160) / 16)
        } else {
            ternary_at(b[48 + (e - 240) % 4], (e - 240) / 4)
        },
        DType::Tq2_0 => pair_at(b[h * 32 + l], j) - 1,
        DType::Mxfp4 => KVALUES_MXFP4[nibble_32(b, 1, e) as usize] as i32,
        _ => 0,
    }
}

/// What is taken off every code of a block.
pub fn offset_of(t: DType) -> (r: i32)
    ensures
        r == offset(t),
        0 <= r <= 16,
{
    match t {
        DType::Q4_0 => 8,
        DType::Q5_0 => 16,
        _ => 0,
    }
}

/// How many elements of a block share a scale.
pub fn group_of(t: DType) -> (r: usize)
    ensures
        r == group(t),
        r == 16 || r == 32,
{
    match t {
        DType::Q2K | DType::Q3K | DType::Q6K => 16,
        _ => 32,
    }
}

/// Both scales of a group, the scale and that of its minimum.
pub fn scales_at(t: DType, b: &[u8], g: usize) -> (r: (i32, i32))
    requires
        is_block(t),
        b@.len() >= t.block_bytes(),
        g * group(t) < t.block_len(),
    ensures
        r.0 == scale(t, b@, g as int),
        r.1 == minimum(t, b@, g as int),
        -128 <= r.0 <= 127,
        0 <= r.1 <= 63,
{
    match t {
        DType::Q2K => (nibble_at(b[g], 0), nibble_at(b[g], 1)),
        DType::Q3K => {
            let low = nibble_at(
                b[96 + g % 8],
                if g < 8 {
                    0
                } else {
                    1
                },
            );
            let high = pair_at(b[104 + g % 4], g / 4);
            (low + 16 * high - 32, 0)
        },
        DType::Q4K | DType::Q5K => if g < 4 {
            ((b[4 + g] % 64) as i32, (b[8 + g] % 64) as i32)
        } else {
            (
                (b[8 + g] % 16) as i32 + 16 * ((b[g] / 64) as i32),
                (b[8 + g] / 16) as i32 + 16 * ((b[4 + g] / 64) as i32),
            )
        },
        DType::Q6K => (signed_of(b[192 + g]), 0),
        DType::Iq4Xs => (
            nibble_at(b[4 + g / 2], g % 2) + 16 * pair_at(b[2 + g / 4], g % 4) - 32,
            0,
        ),
        _ => (1, 0),
    }
}

pub fn read_le16(b: &[u8], at: usize) -> (r: u16)
    requires
        at + 2 <= b@.len(),
    ensures
        r == le16_at(b@, at as int),
{
    b[at] as u16 + 256 * (b[at + 1] as u16)
}

pub fn read_le32(b: &[u8], at: usize) -> (r: u32)
    requires
        at + 4 <= b@.len(),
    ensures
        r == le32_at(b@, at as int),
{
    b[at] as u32 + 0x100 * (b[at + 1] as u32) + 0x1_0000 * (b[at + 2] as u32) + 0x100_0000 * (b[at
        + 3] as u32)
}

/// The bits of half the power of two that an exponent byte stands for.
pub fn e8m0_to_half_bits(e: u8) -> (r: u32)
    ensures
        r == exponent_bits(e),
{
    if e == 0 {
        0x0020_0000
    } else if e == 1 {
        0x0040_0000
    } else {
        (e as u32 - 1) * 0x80_0000
    }
}

fn base_place(t: DType) -> (r: usize)
    ensures
        r == base_at(t),
{
    match t {
        DType::Q2K => 80,
        DType::Q3K => 108,
        DType::Q6K => 208,
        DType::Tq1_0 => 52,
        DType::Tq2_0 => 64,
        _ => 0,
    }
}

impl<A: Fn(FloatOp, u32, u32) -> u32> Arith<A> {
    /// The scale of a block.
    pub fn block_base(&self, t: DType, b: &[u8]) -> (r: u32)
        requires
            self.works(),
            is_block(t),
            b@.len() >= t.block_bytes(),
        ensures
            r == base(self.ops(), t, b@),
    {
        match t {
            DType::Q8K => read_le32(b, 0),
            DType::Mxfp4 => e8m0_to_half_bits(b[0]),
            _ => self.half(read_le16(b, base_place(t))),
        }
    }

    /// The scale of a block's minimums, or its minimum.
    pub fn block_second(&self, t: DType, b: &[u8]) -> (r: u32)
        requires
            self.works(),
            is_block(t),
            b@.len() >= t.block_bytes(),
        ensures
            r == second(self.ops(), t, b@),
    {
        match t {
            DType::Q2K => self.half(read_le16(b, 82)),
            _ => self.half(read_le16(b, 2)),
        }
    }
}

} // verus!
