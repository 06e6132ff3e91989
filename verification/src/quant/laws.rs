//! What a block holds, told from the side that writes it: codes and scales that were packed into
//! bytes are read back as they were.

use vstd::prelude::*;

use super::block::{
    bit, code, exponent_bits, k3_scale, k4_min, k4_scale, le32_at, minimum, nibble, pair, pow2,
    scale, signed, ternary, KVALUES_IQ4NL, KVALUES_MXFP4,
};
use super::dequant::{block_value, element};
use super::quantize::{block_end, cut, inverse, q8_code, step};
use crate::dtype::DType;
use crate::single::{
    at_most, half, less, magnitude, minus, over, plus, times, whole, FloatOp, Ops, UNIT,
};

verus! {

/// Whether every code lies from `lo` up to `hi`.
pub open spec fn codes_within(q: Seq<int>, n: int, lo: int, hi: int) -> bool {
    q.len() == n && forall|i: int| 0 <= i < n ==> lo <= #[trigger] q[i] < hi
}

/// A byte of two halves, the low one first.
pub open spec fn halves(a: int, b: int) -> int {
    a + 16 * b
}

/// A byte of four pairs of bits, the lowest first.
pub open spec fn quarters(a: int, b: int, c: int, d: int) -> int {
    a + 4 * b + 16 * c + 64 * d
}

/// A byte of eight bits, the lowest first: those of `q` from `at` on, `by` apart.
pub open spec fn eighths(q: Seq<int>, at: int, by: int) -> int {
    q[at] + 2 * q[at + by] + 4 * q[at + 2 * by] + 8 * q[at + 3 * by] + 16 * q[at + 4 * by] + 32
        * q[at + 5 * by] + 64 * q[at + 6 * by] + 128 * q[at + 7 * by]
}

proof fn halves_come_apart(x: u8, a: int, b: int)
    requires
        x as int == halves(a, b),
        0 <= a < 16,
        0 <= b < 16,
    ensures
        nibble(x, 0) == a,
        nibble(x, 1) == b,
{
}

proof fn quarters_come_apart(x: u8, a: int, b: int, c: int, d: int)
    requires
        x as int == quarters(a, b, c, d),
        0 <= a < 4,
        0 <= b < 4,
        0 <= c < 4,
        0 <= d < 4,
    ensures
        pair(x, 0) == a,
        pair(x, 1) == b,
        pair(x, 2) == c,
        pair(x, 3) == d,
{
}

proof fn eighths_come_apart(x: u8, q: Seq<int>, at: int, by: int, k: int)
    requires
        x as int == eighths(q, at, by),
        0 <= k < 8,
        forall|i: int| 0 <= i < 8 ==> 0 <= #[trigger] q[at + i * by] < 2,
    ensures
        bit(x, k) == q[at + k * by],
{
    assert(at + 0 * by == at);
    assert(at + 1 * by == at + by);
    assert(0 <= q[at + 0 * by] < 2 && 0 <= q[at + 1 * by] < 2 && 0 <= q[at + 2 * by] < 2);
    assert(0 <= q[at + 3 * by] < 2 && 0 <= q[at + 4 * by] < 2 && 0 <= q[at + 5 * by] < 2);
    assert(0 <= q[at + 6 * by] < 2 && 0 <= q[at + 7 * by] < 2);
    let v = x as int;
    if k == 0 {
        assert(v % 2 == q[at]);
    } else if k == 1 {
        assert(v / 2 % 2 == q[at + by]);
    } else if k == 2 {
        assert(v / 4 % 2 == q[at + 2 * by]);
    } else if k == 3 {
        assert(v / 8 % 2 == q[at + 3 * by]);
    } else if k == 4 {
        assert(v / 16 % 2 == q[at + 4 * by]);
    } else if k == 5 {
        assert(v / 32 % 2 == q[at + 5 * by]);
    } else if k == 6 {
        assert(v / 64 % 2 == q[at + 6 * by]);
    } else {
        assert(v / 128 % 2 == q[at + 7 * by]);
    }
}

// --------------------------------------------------------------------- blocks of 32 elements

/// Where a block of 32 elements holds its halves of bytes.
pub open spec fn halves_at(t: DType) -> int {
    match t {
        DType::Q4_0 => 2,
        DType::Q4_1 => 4,
        DType::Q5_0 => 6,
        DType::Q5_1 => 8,
        DType::Iq4Nl => 2,
        _ => 1,
    }
}

/// Sixteen bytes hold 32 codes: the first sixteen in the low halves, the others in the high ones.
/// Every code is read back by the element it was written for.
pub proof fn codes_of_32_are_read_back(t: DType, b: Seq<u8>, q: Seq<int>)
    requires
        t == DType::Q4_0 || t == DType::Q4_1 || t == DType::Iq4Nl || t == DType::Mxfp4,
        codes_within(q, 32, 0, 16),
        forall|i: int|
            0 <= i < 16 ==> (#[trigger] b[halves_at(t) + i]) as int == halves(q[i], q[i + 16]),
    ensures
        forall|e: int|
            0 <= e < 32 ==> #[trigger] code(t, b, e) == if t == DType::Iq4Nl {
                KVALUES_IQ4NL[q[e]] as int
            } else if t == DType::Mxfp4 {
                KVALUES_MXFP4[q[e]] as int
            } else {
                q[e]
            },
{
    assert forall|e: int| 0 <= e < 32 implies #[trigger] code(t, b, e) == if t == DType::Iq4Nl {
        KVALUES_IQ4NL[q[e]] as int
    } else if t == DType::Mxfp4 {
        KVALUES_MXFP4[q[e]] as int
    } else {
        q[e]
    } by {
        let i = e % 16;
        assert(b[halves_at(t) + i] as int == halves(q[i], q[i + 16]));
        assert(0 <= q[i] < 16 && 0 <= q[i + 16] < 16);
        halves_come_apart(b[halves_at(t) + i], q[i], q[i + 16]);
    }
}

/// The same with a fifth bit for each code, in four bytes before, in the order of the elements.
pub proof fn codes_of_five_bits_are_read_back(t: DType, b: Seq<u8>, q: Seq<int>, top: Seq<int>)
    requires
        t == DType::Q5_0 || t == DType::Q5_1,
        codes_within(q, 32, 0, 16),
        codes_within(top, 32, 0, 2),
        forall|i: int|
            0 <= i < 16 ==> (#[trigger] b[halves_at(t) + i]) as int == halves(q[i], q[i + 16]),
        forall|j: int|
            0 <= j < 4 ==> (#[trigger] b[halves_at(t) - 4 + j]) as int == eighths(top, 8 * j, 1),
    ensures
        forall|e: int| 0 <= e < 32 ==> #[trigger] code(t, b, e) == q[e] + 16 * top[e],
{
    assert forall|e: int| 0 <= e < 32 implies #[trigger] code(t, b, e) == q[e] + 16 * top[e] by {
        let i = e % 16;
        assert(b[halves_at(t) + i] as int == halves(q[i], q[i + 16]));
        assert(0 <= q[i] < 16 && 0 <= q[i + 16] < 16);
        halves_come_apart(b[halves_at(t) + i], q[i], q[i + 16]);
        let j = e / 8;
        assert(b[halves_at(t) - 4 + j] as int == eighths(top, 8 * j, 1));
        eighths_come_apart(b[halves_at(t) - 4 + j], top, 8 * j, 1, e % 8);
    }
}

/// A byte holds a signed code.
pub proof fn codes_of_a_byte_are_read_back(t: DType, b: Seq<u8>, q: Seq<int>, at: int)
    requires
        t == DType::Q8_0 && at == 2 || (t == DType::Q8_1 || t == DType::Q8K) && at == 4,
        forall|e: int| 0 <= e < q.len() ==> -128 <= #[trigger] q[e] < 128,
        forall|e: int|
            0 <= e < q.len() ==> ((#[trigger] b[at + e]) as int - q[e]) % 256 == 0,
    ensures
        forall|e: int| 0 <= e < q.len() ==> #[trigger] code(t, b, e) == q[e],
{
    assert forall|e: int| 0 <= e < q.len() implies #[trigger] code(t, b, e) == q[e] by {
        let x = b[at + e];
        assert((x as int - q[e]) % 256 == 0);
        assert(-128 <= q[e] < 128);
    }
}

// -------------------------------------------------------------------- blocks of 256 elements

/// Each run of 64 codes lies in 32 bytes: the first 32 in the low halves, the others in the high
/// ones.
pub proof fn q4_k_codes_are_read_back(b: Seq<u8>, q: Seq<int>)
    requires
        codes_within(q, 256, 0, 16),
        forall|g: int, l: int|
            0 <= g < 4 && 0 <= l < 32 ==> (#[trigger] b[16 + 32 * g + l]) as int == halves(
                q[64 * g + l],
                q[64 * g + 32 + l],
            ),
    ensures
        forall|e: int| 0 <= e < 256 ==> #[trigger] code(DType::Q4K, b, e) == q[e],
{
    assert forall|e: int| 0 <= e < 256 implies #[trigger] code(DType::Q4K, b, e) == q[e] by {
        let g = e / 64;
        let l = e % 32;
        assert(b[16 + 32 * g + l] as int == halves(q[64 * g + l], q[64 * g + 32 + l]));
        assert(0 <= q[64 * g + l] < 16 && 0 <= q[64 * g + 32 + l] < 16);
        halves_come_apart(b[16 + 32 * g + l], q[64 * g + l], q[64 * g + 32 + l]);
    }
}

/// The same with a fifth bit for each code: byte `l` of 32 holds those of elements `l`, `l + 32`
/// and so on, the lowest bit first.
pub proof fn q5_k_codes_are_read_back(b: Seq<u8>, q: Seq<int>, top: Seq<int>)
    requires
        codes_within(q, 256, 0, 16),
        codes_within(top, 256, 0, 2),
        forall|g: int, l: int|
            0 <= g < 4 && 0 <= l < 32 ==> (#[trigger] b[48 + 32 * g + l]) as int == halves(
                q[64 * g + l],
                q[64 * g + 32 + l],
            ),
        forall|l: int| 0 <= l < 32 ==> (#[trigger] b[16 + l]) as int == eighths(top, l, 32),
    ensures
        forall|e: int| 0 <= e < 256 ==> #[trigger] code(DType::Q5K, b, e) == q[e] + 16 * top[e],
{
    assert forall|e: int| 0 <= e < 256 implies #[trigger] code(DType::Q5K, b, e) == q[e] + 16
        * top[e] by {
        let g = e / 64;
        let l = e % 32;
        assert(b[48 + 32 * g + l] as int == halves(q[64 * g + l], q[64 * g + 32 + l]));
        assert(0 <= q[64 * g + l] < 16 && 0 <= q[64 * g + 32 + l] < 16);
        halves_come_apart(b[48 + 32 * g + l], q[64 * g + l], q[64 * g + 32 + l]);
        assert(b[16 + l] as int == eighths(top, l, 32));
        eighths_come_apart(b[16 + l], top, l, 32, e / 32);
    }
}

/// Each run of 128 codes of two bits lies in 32 bytes: byte `l` holds those of elements `l`,
/// `l + 32`, `l + 64` and `l + 96`, the lowest pair first.
pub open spec fn pairs_lie(b: Seq<u8>, at: int, q: Seq<int>) -> bool {
    forall|h: int, l: int|
        0 <= h < 2 && 0 <= l < 32 ==> (#[trigger] b[at + 32 * h + l]) as int == quarters(
            q[128 * h + l],
            q[128 * h + 32 + l],
            q[128 * h + 64 + l],
            q[128 * h + 96 + l],
        )
}

proof fn a_pair_is_read_back(b: Seq<u8>, at: int, q: Seq<int>, e: int)
    requires
        codes_within(q, 256, 0, 4),
        pairs_lie(b, at, q),
        0 <= e < 256,
    ensures
        pair(b[at + e / 128 * 32 + e % 32], e % 128 / 32) == q[e],
{
    let h = e / 128;
    let l = e % 32;
    let x = b[at + 32 * h + l];
    assert(0 <= q[128 * h + l] < 4 && 0 <= q[128 * h + 32 + l] < 4);
    assert(0 <= q[128 * h + 64 + l] < 4 && 0 <= q[128 * h + 96 + l] < 4);
    quarters_come_apart(
        x,
        q[128 * h + l],
        q[128 * h + 32 + l],
        q[128 * h + 64 + l],
        q[128 * h + 96 + l],
    );
    assert(at + e / 128 * 32 + e % 32 == at + 32 * h + l);
}

pub proof fn q2_k_codes_are_read_back(b: Seq<u8>, q: Seq<int>)
    requires
        codes_within(q, 256, 0, 4),
        pairs_lie(b, 16, q),
    ensures
        forall|e: int| 0 <= e < 256 ==> #[trigger] code(DType::Q2K, b, e) == q[e],
{
    assert forall|e: int| 0 <= e < 256 implies #[trigger] code(DType::Q2K, b, e) == q[e] by {
        a_pair_is_read_back(b, 16, q, e);
    }
}

pub proof fn tq2_codes_are_read_back(b: Seq<u8>, q: Seq<int>)
    requires
        codes_within(q, 256, 0, 4),
        pairs_lie(b, 0, q),
    ensures
        forall|e: int| 0 <= e < 256 ==> #[trigger] code(DType::Tq2_0, b, e) == q[e] - 1,
{
    assert forall|e: int| 0 <= e < 256 implies #[trigger] code(DType::Tq2_0, b, e) == q[e] - 1 by {
        a_pair_is_read_back(b, 0, q, e);
    }
}

/// The same with a third bit for each code, in 32 bytes of their own; codes are centred.
pub proof fn q3_k_codes_are_read_back(b: Seq<u8>, q: Seq<int>, top: Seq<int>)
    requires
        codes_within(q, 256, 0, 4),
        codes_within(top, 256, 0, 2),
        pairs_lie(b, 32, q),
        forall|l: int| 0 <= l < 32 ==> (#[trigger] b[0 + l]) as int == eighths(top, l, 32),
    ensures
        forall|e: int| 0 <= e < 256 ==> #[trigger] code(DType::Q3K, b, e) == q[e] + 4 * top[e] - 4,
{
    assert forall|e: int| 0 <= e < 256 implies #[trigger] code(DType::Q3K, b, e) == q[e] + 4 * top[e]
        - 4 by {
        a_pair_is_read_back(b, 32, q, e);
        let l = e % 32;
        assert(b[0 + l] as int == eighths(top, l, 32));
        assert(e / 128 * 4 + e % 128 / 32 == e / 32);
        eighths_come_apart(b[l], top, l, 32, e / 32);
        assert(0 <= top[l + e / 32 * 32] < 2);
    }
}

/// Four bits of each code lie as in 64 bytes for a run of 128, those of the first 64 elements low;
/// two more in 32 bytes for the run. Codes are centred.
pub proof fn q6_k_codes_are_read_back(b: Seq<u8>, q: Seq<int>, top: Seq<int>)
    requires
        codes_within(q, 256, 0, 16),
        codes_within(top, 256, 0, 4),
        forall|h: int, m: int|
            0 <= h < 2 && 0 <= m < 64 ==> (#[trigger] b[64 * h + m]) as int == halves(
                q[128 * h + m],
                q[128 * h + 64 + m],
            ),
        pairs_lie(b, 128, top),
    ensures
        forall|e: int|
            0 <= e < 256 ==> #[trigger] code(DType::Q6K, b, e) == q[e] + 16 * top[e] - 32,
{
    assert forall|e: int| 0 <= e < 256 implies #[trigger] code(DType::Q6K, b, e) == q[e] + 16
        * top[e] - 32 by {
        a_pair_is_read_back(b, 128, top, e);
        let h = e / 128;
        let m = e % 64;
        assert(b[64 * h + m] as int == halves(q[128 * h + m], q[128 * h + 64 + m]));
        assert(0 <= q[128 * h + m] < 16 && 0 <= q[128 * h + 64 + m] < 16);
        halves_come_apart(b[64 * h + m], q[128 * h + m], q[128 * h + 64 + m]);
        assert(h * 64 + e % 128 / 32 % 2 * 32 + e % 32 == 64 * h + m);
    }
}

/// Each run of 32 codes lies in 16 bytes, the first sixteen low.
pub proof fn iq4_xs_codes_are_read_back(b: Seq<u8>, q: Seq<int>)
    requires
        codes_within(q, 256, 0, 16),
        forall|g: int, i: int|
            0 <= g < 8 && 0 <= i < 16 ==> (#[trigger] b[8 + 16 * g + i]) as int == halves(
                q[32 * g + i],
                q[32 * g + 16 + i],
            ),
    ensures
        forall|e: int|
            0 <= e < 256 ==> #[trigger] code(DType::Iq4Xs, b, e) == KVALUES_IQ4NL[q[e]] as int,
{
    assert forall|e: int| 0 <= e < 256 implies #[trigger] code(DType::Iq4Xs, b, e)
        == KVALUES_IQ4NL[q[e]] as int by {
        let g = e / 32;
        let i = e % 16;
        assert(b[8 + 16 * g + i] as int == halves(q[32 * g + i], q[32 * g + 16 + i]));
        assert(0 <= q[32 * g + i] < 16 && 0 <= q[32 * g + 16 + i] < 16);
        halves_come_apart(b[8 + 16 * g + i], q[32 * g + i], q[32 * g + 16 + i]);
        assert(8 + e / 32 * 16 + e % 16 == 8 + 16 * g + i);
    }
}

/// The byte of five ternary digits, the first one the most significant: the number they make,
/// spread over the range of a byte and rounded up.
pub open spec fn ternary_byte(a: int, b: int, c: int, d: int, e: int) -> int {
    ((81 * a + 27 * b + 9 * c + 3 * d + e) * 256 + 242) / 243
}

proof fn ternary_digits_come_apart(x: u8, a: int, b: int, c: int, d: int, e: int)
    requires
        0 <= a < 3,
        0 <= b < 3,
        0 <= c < 3,
        0 <= d < 3,
        0 <= e < 3,
        x as int == ternary_byte(a, b, c, d, e),
    ensures
        ternary(x, 0) == a - 1,
        ternary(x, 1) == b - 1,
        ternary(x, 2) == c - 1,
        ternary(x, 3) == d - 1,
        ternary(x, 4) == e - 1,
{
    let v = 81 * a + 27 * b + 9 * c + 3 * d + e;
    let n = x as int;
    // 256 v <= 243 n < 256 v + 243
    assert(243 * n <= 256 * v + 242 && 243 * n >= 256 * v);
    assert(n * 1 % 256 == n && n < 256);
    assert(n * 3 / 256 == a);
    let n1 = (n * 3) % 256;
    assert(n1 == n * 3 - 256 * a);
    assert(n1 * 3 / 256 == b);
    let n2 = (n * 9) % 256;
    assert(n2 == n * 9 - 256 * (3 * a + b));
    assert(n2 * 3 / 256 == c);
    let n3 = (n * 27) % 256;
    assert(n3 == n * 27 - 256 * (9 * a + 3 * b + c));
    assert(n3 * 3 / 256 == d);
    let n4 = (n * 81) % 256;
    assert(n4 == n * 81 - 256 * (27 * a + 9 * b + 3 * c + d));
    assert(n4 * 3 / 256 == e);
}

/// Five digits lie in a byte: 32 apart in the first 32 bytes, 16 apart in the next 16, and four in
/// each of the last four, 4 apart.
pub proof fn tq1_codes_are_read_back(b: Seq<u8>, q: Seq<int>)
    requires
        codes_within(q, 256, 0, 3),
        forall|i: int|
            0 <= i < 32 ==> (#[trigger] b[0 + i]) as int == ternary_byte(
                q[i],
                q[32 + i],
                q[64 + i],
                q[96 + i],
                q[128 + i],
            ),
        forall|i: int|
            0 <= i < 16 ==> (#[trigger] b[32 + i]) as int == ternary_byte(
                q[160 + i],
                q[176 + i],
                q[192 + i],
                q[208 + i],
                q[224 + i],
            ),
        forall|i: int|
            0 <= i < 4 ==> (#[trigger] b[48 + i]) as int == ternary_byte(
                q[240 + i],
                q[244 + i],
                q[248 + i],
                q[252 + i],
                0,
            ),
    ensures
        forall|e: int| 0 <= e < 256 ==> #[trigger] code(DType::Tq1_0, b, e) == q[e] - 1,
{
    assert forall|e: int| 0 <= e < 256 implies #[trigger] code(DType::Tq1_0, b, e) == q[e] - 1 by {
        if e < 160 {
            let i = e % 32;
            let x = b[0 + i];
            assert(0 <= q[i] < 3 && 0 <= q[32 + i] < 3 && 0 <= q[64 + i] < 3 && 0 <= q[96 + i] < 3
                && 0 <= q[128 + i] < 3);
            ternary_digits_come_apart(x, q[i], q[32 + i], q[64 + i], q[96 + i], q[128 + i]);
        } else if e < 240 {
            let i = (e - 160) % 16;
            let x = b[32 + i];
            assert(0 <= q[160 + i] < 3 && 0 <= q[176 + i] < 3 && 0 <= q[192 + i] < 3 && 0 <= q[208
                + i] < 3 && 0 <= q[224 + i] < 3);
            ternary_digits_come_apart(
                x,
                q[160 + i],
                q[176 + i],
                q[192 + i],
                q[208 + i],
                q[224 + i],
            );
        } else {
            let i = (e - 240) % 4;
            let x = b[48 + i];
            assert(0 <= q[240 + i] < 3 && 0 <= q[244 + i] < 3 && 0 <= q[248 + i] < 3 && 0 <= q[252
                + i] < 3);
            ternary_digits_come_apart(x, q[240 + i], q[244 + i], q[248 + i], q[252 + i], 0);
        }
    }
}

// --------------------------------------------------------------------------------- scales

/// Eight scales and eight minimums of six bits lie in twelve bytes: the first four of each whole,
/// with the top bits of the others above them; the rest of those in the last four bytes, the
/// scale low.
pub proof fn k4_scales_are_read_back(b: Seq<u8>, at: int, s: Seq<int>, m: Seq<int>)
    requires
        codes_within(s, 8, 0, 64),
        codes_within(m, 8, 0, 64),
        forall|j: int| 0 <= j < 4 ==> (#[trigger] b[at + j]) as int == s[j] + 64 * (s[j + 4] / 16),
        forall|j: int|
            0 <= j < 4 ==> (#[trigger] b[at + 4 + j]) as int == m[j] + 64 * (m[j + 4] / 16),
        forall|j: int|
            0 <= j < 4 ==> (#[trigger] b[at + 8 + j]) as int == halves(s[j + 4] % 16, m[j + 4] % 16),
    ensures
        forall|j: int| 0 <= j < 8 ==> #[trigger] k4_scale(b, at, j) == s[j],
        forall|j: int| 0 <= j < 8 ==> #[trigger] k4_min(b, at, j) == m[j],
{
    assert forall|j: int| 0 <= j < 8 implies #[trigger] k4_scale(b, at, j) == s[j] by {
        let i = j % 4;
        assert(b[at + i] as int == s[i] + 64 * (s[i + 4] / 16));
        assert(b[at + 8 + i] as int == halves(s[i + 4] % 16, m[i + 4] % 16));
        assert(0 <= s[i] < 64 && 0 <= s[i + 4] < 64);
        assert(at + j + 4 == at + 8 + i || j < 4);
    }
    assert forall|j: int| 0 <= j < 8 implies #[trigger] k4_min(b, at, j) == m[j] by {
        let i = j % 4;
        assert(b[at + 4 + i] as int == m[i] + 64 * (m[i + 4] / 16));
        assert(b[at + 8 + i] as int == halves(s[i + 4] % 16, m[i + 4] % 16));
        assert(0 <= m[i] < 64 && 0 <= m[i + 4] < 64);
        assert(j < 4 || at + j == at + 4 + i);
        assert(j >= 4 || at + j + 4 == at + 4 + i);
        assert(j < 4 || at + j + 4 == at + 8 + i);
    }
}

/// Sixteen scales of six bits lie in twelve bytes: the low four bits in eight bytes, those of the
/// last eight high; the top two in four bytes, four apart. Scales are centred.
pub proof fn k3_scales_are_read_back(b: Seq<u8>, at: int, s: Seq<int>)
    requires
        codes_within(s, 16, 0, 64),
        forall|k: int|
            0 <= k < 8 ==> (#[trigger] b[at + k]) as int == halves(s[k] % 16, s[k + 8] % 16),
        forall|k: int|
            0 <= k < 4 ==> (#[trigger] b[at + 8 + k]) as int == quarters(
                s[k] / 16,
                s[k + 4] / 16,
                s[k + 8] / 16,
                s[k + 12] / 16,
            ),
    ensures
        forall|k: int| 0 <= k < 16 ==> #[trigger] k3_scale(b, at, k) == s[k] - 32,
{
    assert forall|k: int| 0 <= k < 16 implies #[trigger] k3_scale(b, at, k) == s[k] - 32 by {
        let i = k % 8;
        let j = k % 4;
        assert(b[at + i] as int == halves(s[i] % 16, s[i + 8] % 16));
        assert(b[at + 8 + j] as int == quarters(
            s[j] / 16,
            s[j + 4] / 16,
            s[j + 8] / 16,
            s[j + 12] / 16,
        ));
        assert(0 <= s[i] < 64 && 0 <= s[i + 8] < 64);
        assert(0 <= s[j] < 64 && 0 <= s[j + 4] < 64 && 0 <= s[j + 8] < 64 && 0 <= s[j + 12] < 64);
        halves_come_apart(b[at + i], s[i] % 16, s[i + 8] % 16);
        quarters_come_apart(
            b[at + 8 + j],
            s[j] / 16,
            s[j + 4] / 16,
            s[j + 8] / 16,
            s[j + 12] / 16,
        );
    }
}

/// A byte holds the scale of a group low and its minimum high.
pub proof fn q2_k_scales_are_read_back(b: Seq<u8>, s: Seq<int>, m: Seq<int>)
    requires
        codes_within(s, 16, 0, 16),
        codes_within(m, 16, 0, 16),
        forall|g: int| 0 <= g < 16 ==> (#[trigger] b[0 + g]) as int == halves(s[g], m[g]),
    ensures
        forall|g: int| 0 <= g < 16 ==> #[trigger] scale(DType::Q2K, b, g) == s[g],
        forall|g: int| 0 <= g < 16 ==> #[trigger] minimum(DType::Q2K, b, g) == m[g],
{
    assert forall|g: int| 0 <= g < 16 implies #[trigger] scale(DType::Q2K, b, g) == s[g] by {
        assert(b[0 + g] as int == halves(s[g], m[g]));
        assert(0 <= s[g] < 16 && 0 <= m[g] < 16);
    }
    assert forall|g: int| 0 <= g < 16 implies #[trigger] minimum(DType::Q2K, b, g) == m[g] by {
        assert(b[0 + g] as int == halves(s[g], m[g]));
        assert(0 <= s[g] < 16 && 0 <= m[g] < 16);
    }
}

/// Eight scales of six bits: four bits each in four bytes, two by two, and the top two in two bytes
/// before them, four to a byte. Scales are centred.
pub proof fn iq4_xs_scales_are_read_back(b: Seq<u8>, s: Seq<int>)
    requires
        codes_within(s, 8, 0, 64),
        forall|i: int|
            0 <= i < 4 ==> (#[trigger] b[4 + i]) as int == halves(
                s[2 * i] % 16,
                s[2 * i + 1] % 16,
            ),
        forall|i: int|
            0 <= i < 2 ==> (#[trigger] b[2 + i]) as int == quarters(
                s[4 * i] / 16,
                s[4 * i + 1] / 16,
                s[4 * i + 2] / 16,
                s[4 * i + 3] / 16,
            ),
    ensures
        forall|g: int| 0 <= g < 8 ==> #[trigger] scale(DType::Iq4Xs, b, g) == s[g] - 32,
{
    assert forall|g: int| 0 <= g < 8 implies #[trigger] scale(DType::Iq4Xs, b, g) == s[g] - 32 by {
        let i = g / 2;
        let j = g / 4;
        assert(b[4 + i] as int == halves(s[2 * i] % 16, s[2 * i + 1] % 16));
        assert(b[2 + j] as int == quarters(
            s[4 * j] / 16,
            s[4 * j + 1] / 16,
            s[4 * j + 2] / 16,
            s[4 * j + 3] / 16,
        ));
        assert(0 <= s[2 * i] < 64 && 0 <= s[2 * i + 1] < 64);
        assert(0 <= s[4 * j] < 64 && 0 <= s[4 * j + 1] < 64 && 0 <= s[4 * j + 2] < 64 && 0 <= s[4
            * j + 3] < 64);
        halves_come_apart(b[4 + i], s[2 * i] % 16, s[2 * i + 1] % 16);
        quarters_come_apart(
            b[2 + j],
            s[4 * j] / 16,
            s[4 * j + 1] / 16,
            s[4 * j + 2] / 16,
            s[4 * j + 3] / 16,
        );
    }
}

// ------------------------------------------------------------------------------ codebooks

/// The non-linear codebook rises strictly, passes zero between its first and second half, and
/// covers the range of a signed byte; the other is that of a sign, two bits of exponent and one
/// of mantissa, twice over.
pub proof fn codebooks_are_those_of_the_format()
    ensures
        forall|i: int, j: int|
            0 <= i < j < 16 ==> (#[trigger] KVALUES_IQ4NL[i]) < (#[trigger] KVALUES_IQ4NL[j]),
        KVALUES_IQ4NL[7] < 0 < KVALUES_IQ4NL[8],
        KVALUES_IQ4NL[0] == -127,
        forall|i: int|
            0 <= i < 8 ==> (#[trigger] KVALUES_MXFP4[i]) as int == if i < 2 {
                i
            } else {
                (2 + i % 2) * pow2(i / 2 - 1)
            },
        forall|i: int| 8 <= i < 16 ==> (#[trigger] KVALUES_MXFP4[i]) == -KVALUES_MXFP4[i - 8],
{
}

/// A block is as long as what is packed into it: so many bits for each of its elements, and what it
/// holds beside them.
pub proof fn blocks_are_as_long_as_what_they_hold(t: DType)
    ensures
        t == DType::Q4_0 ==> 8 * t.block_bytes() == 4 * t.block_len() + 16,
        t == DType::Q4_1 ==> 8 * t.block_bytes() == 4 * t.block_len() + 16 + 16,
        t == DType::Q5_0 ==> 8 * t.block_bytes() == 5 * t.block_len() + 16,
        t == DType::Q5_1 ==> 8 * t.block_bytes() == 5 * t.block_len() + 16 + 16,
        t == DType::Q8_0 ==> 8 * t.block_bytes() == 8 * t.block_len() + 16,
        t == DType::Q8_1 ==> 8 * t.block_bytes() == 8 * t.block_len() + 16 + 16,
        t == DType::Q2K ==> 8 * t.block_bytes() == 2 * t.block_len() + 16 * 8 + 16 + 16,
        t == DType::Q3K ==> 8 * t.block_bytes() == 3 * t.block_len() + 16 * 6 + 16,
        t == DType::Q4K ==> 8 * t.block_bytes() == 4 * t.block_len() + 8 * 12 + 16 + 16,
        t == DType::Q5K ==> 8 * t.block_bytes() == 5 * t.block_len() + 8 * 12 + 16 + 16,
        t == DType::Q6K ==> 8 * t.block_bytes() == 6 * t.block_len() + 16 * 8 + 16,
        t == DType::Q8K ==> 8 * t.block_bytes() == 8 * t.block_len() + 16 * 16 + 32,
        t == DType::Iq4Nl ==> 8 * t.block_bytes() == 4 * t.block_len() + 16,
        t == DType::Iq4Xs ==> 8 * t.block_bytes() == 4 * t.block_len() + 8 * 6 + 16,
        t == DType::Tq2_0 ==> 8 * t.block_bytes() == 2 * t.block_len() + 16,
        t == DType::Tq1_0 ==> 5 * (t.block_bytes() - 6) == t.block_len() - 16,
        t == DType::Mxfp4 ==> 8 * t.block_bytes() == 4 * t.block_len() + 8,
        t == DType::F32 || t == DType::I32 ==> 8 * t.block_bytes() == 32 * t.block_len(),
        t == DType::F16 || t == DType::BF16 || t == DType::I16 ==> 8 * t.block_bytes() == 16
            * t.block_len(),
        t == DType::F64 || t == DType::I64 ==> 8 * t.block_bytes() == 64 * t.block_len(),
        t == DType::I8 ==> 8 * t.block_bytes() == 8 * t.block_len(),
{
}

// --------------------------------------------------------------------------------- values

/// What two bytes hold, the low one first.
pub open spec fn pair_holds(b: Seq<u8>, at: int, h: u16) -> bool {
    b[at] + 256 * b[at + 1] == h
}

/// An element of a plain block is its code, less what is taken off every code, times the scale.
pub proof fn a_plain_block_scales_its_codes(f: Ops, t: DType, b: Seq<u8>, e: int, h: u16)
    ensures
        (t == DType::Q8_0 || t == DType::Q8_1 || t == DType::Iq4Nl) && pair_holds(b, 0, h)
            ==> block_value(f, t, b, e) == times(f, whole(f, code(t, b, e)), half(f, h)),
        t == DType::Q4_0 && pair_holds(b, 0, h) ==> block_value(f, t, b, e) == times(
            f,
            whole(f, code(t, b, e) - 8),
            half(f, h),
        ),
        t == DType::Q5_0 && pair_holds(b, 0, h) ==> block_value(f, t, b, e) == times(
            f,
            whole(f, code(t, b, e) - 16),
            half(f, h),
        ),
        t == DType::Tq1_0 && pair_holds(b, 52, h) ==> block_value(f, t, b, e) == times(
            f,
            whole(f, code(t, b, e)),
            half(f, h),
        ),
        t == DType::Tq2_0 && pair_holds(b, 64, h) ==> block_value(f, t, b, e) == times(
            f,
            whole(f, code(t, b, e)),
            half(f, h),
        ),
        t == DType::Q8K ==> block_value(f, t, b, e) == times(
            f,
            whole(f, code(t, b, e)),
            le32_at(b, 0),
        ),
        t == DType::Mxfp4 ==> block_value(f, t, b, e) == times(
            f,
            whole(f, code(t, b, e)),
            exponent_bits(b[0]),
        ),
{
}

/// A block with a minimum adds it to every code times the scale.
pub proof fn a_minimum_is_added(f: Ops, t: DType, b: Seq<u8>, e: int, d: u16, m: u16)
    requires
        t == DType::Q4_1 || t == DType::Q5_1,
        pair_holds(b, 0, d),
        pair_holds(b, 2, m),
    ensures
        block_value(f, t, b, e) == plus(
            f,
            times(f, whole(f, code(t, b, e)), half(f, d)),
            half(f, m),
        ),
{
}

/// A group of a block has a scale of its own, itself scaled by that of the block; sixteen elements
/// share one in the blocks of two, three and six bits, else 32.
pub proof fn a_group_has_its_own_scale(f: Ops, t: DType, b: Seq<u8>, e: int, d: u16)
    requires
        0 <= e < 256,
    ensures
        t == DType::Q3K && pair_holds(b, 108, d) ==> block_value(f, t, b, e) == times(
            f,
            times(f, half(f, d), whole(f, k3_scale(b, 96, e / 16))),
            whole(f, code(t, b, e)),
        ),
        t == DType::Q6K && pair_holds(b, 208, d) ==> block_value(f, t, b, e) == times(
            f,
            times(f, half(f, d), whole(f, signed(b[192 + e / 16]))),
            whole(f, code(t, b, e)),
        ),
        t == DType::Iq4Xs && pair_holds(b, 0, d) ==> block_value(f, t, b, e) == times(
            f,
            times(f, half(f, d), whole(f, scale(t, b, e / 32))),
            whole(f, code(t, b, e)),
        ),
{
}

/// With a minimum for each group, the scaled minimum is taken off the scaled code.
pub proof fn a_group_takes_its_minimum_off(f: Ops, t: DType, b: Seq<u8>, e: int, d: u16, m: u16)
    requires
        0 <= e < 256,
    ensures
        t == DType::Q2K && pair_holds(b, 80, d) && pair_holds(b, 82, m) ==> block_value(f, t, b, e)
            == minus(
            f,
            times(f, times(f, half(f, d), whole(f, scale(t, b, e / 16))), whole(f, code(t, b, e))),
            times(f, half(f, m), whole(f, minimum(t, b, e / 16))),
        ),
        (t == DType::Q4K || t == DType::Q5K) && pair_holds(b, 0, d) && pair_holds(b, 2, m)
            ==> block_value(f, t, b, e) == minus(
            f,
            times(
                f,
                times(f, half(f, d), whole(f, k4_scale(b, 4, e / 32))),
                whole(f, code(t, b, e)),
            ),
            times(f, half(f, m), whole(f, k4_min(b, 4, e / 32))),
        ),
{
}

/// A shared exponent stands for half a power of two, the one of 128 for one: from one to the next
/// it doubles.
pub proof fn an_exponent_stands_for_a_power_of_two(e: u8)
    requires
        e < 255,
    ensures
        exponent_bits(128) == UNIT,
        e >= 2 ==> exponent_bits((e + 1) as u8) == exponent_bits(e) + 0x80_0000,
        e < 2 ==> exponent_bits((e + 1) as u8) == 2 * exponent_bits(e),
{
}

/// The elements of a row lie block after block: the first so many in the first block, the others
/// as they lie in the rest of the row.
pub proof fn elements_lie_block_after_block(f: Ops, t: DType, b: Seq<u8>, rest: Seq<u8>, i: int)
    requires
        super::block::is_block(t),
        b.len() == t.block_bytes(),
        0 <= i,
        t.block_len() > 0,
        (i / t.block_len() as int) * t.block_bytes() + t.block_bytes() <= b.len() + rest.len(),
    ensures
        i < t.block_len() ==> element(f, t, b + rest, i) == block_value(f, t, b, i),
        i >= t.block_len() ==> element(f, t, b + rest, i) == element(
            f,
            t,
            rest,
            i - t.block_len(),
        ),
{
    let n = t.block_len() as int;
    let z = t.block_bytes() as int;
    let s = b + rest;
    if i < n {
        assert(i / n == 0 && i % n == i) by (nonlinear_arith)
            requires
                0 <= i < n,
        ;
        assert(0 * z == 0);
        assert(s.subrange(0, z) =~= b);
    } else {
        let k = i / n;
        assert((i - n) / n == k - 1 && (i - n) % n == i % n && k >= 1) by (nonlinear_arith)
            requires
                i >= n,
                n > 0,
                k == i / n,
        ;
        assert((k - 1) * z + z == k * z && 0 <= (k - 1) * z) by (nonlinear_arith)
            requires
                k >= 1,
                z >= 0,
        ;
        assert(s.subrange(k * z, k * z + z) =~= rest.subrange((k - 1) * z, (k - 1) * z + z));
    }
}

/// Plain numbers are read from their own bytes, the lowest first.
pub proof fn plain_numbers_are_read_back(f: Ops, s: Seq<u8>, i: int, v: u32, h: u16)
    requires
        0 <= i,
    ensures
        s[4 * i] + 0x100 * s[4 * i + 1] + 0x1_0000 * s[4 * i + 2] + 0x100_0000 * s[4 * i + 3] == v
            ==> element(f, DType::F32, s, i) == v && element(f, DType::I32, s, i) == f(
            FloatOp::FromInt,
            v,
            0,
        ),
        pair_holds(s, 2 * i, h) ==> element(f, DType::F16, s, i) == half(f, h) && element(
            f,
            DType::BF16,
            s,
            i,
        ) == h * 0x1_0000,
        s[i] < 128 ==> element(f, DType::I8, s, i) == whole(f, s[i] as int),
        s[i] >= 128 ==> element(f, DType::I8, s, i) == whole(f, s[i] - 256),
        pair_holds(s, 2 * i, h) && h < 0x8000 ==> element(f, DType::I16, s, i) == whole(
            f,
            h as int,
        ),
        pair_holds(s, 2 * i, h) && h >= 0x8000 ==> element(f, DType::I16, s, i) == whole(
            f,
            h - 0x1_0000,
        ),
{
}

// ---------------------------------------------------------------------------- activations

/// An activation is quantized to steps of a 127th of the largest magnitude of its block: that
/// magnitude is 127 steps, and a value is multiplied by the inverse of the step and rounded.
pub proof fn a_step_is_a_127th_of_the_largest(f: Ops, x: Seq<u32>, b: int, i: int)
    requires
        0 <= b,
        0 <= i < 32,
        b * 32 + i < x.len(),
    ensures
        ({
            let d = step(f, x, b);
            let top = super::quantize::largest(x, b * 32, block_end(x.len(), b));
            &&& times(f, over(f, top, 0x42fe_0000), 0x42fe_0000) == top ==> times(
                f,
                d,
                0x42fe_0000,
            ) == top
            &&& less(0, d) && times(f, over(f, UNIT, d), d) == UNIT ==> times(
                f,
                inverse(f, x, b),
                d,
            ) == UNIT
            &&& !less(0, d) ==> inverse(f, x, b) == 0
            &&& q8_code(f, x, b, i) == cut(
                f(FloatOp::Round, times(f, x[b * 32 + i], inverse(f, x, b)), 0) as i32 as int,
            )
        }),
{
}

/// The largest magnitude of a block is that of one of its values, and none has a larger one.
pub proof fn the_largest_magnitude_is_one_of_them(x: Seq<u32>, lo: int, hi: int)
    requires
        0 <= lo < hi <= x.len(),
        forall|i: int| lo <= i < hi ==> magnitude(#[trigger] x[i]) <= 0x7f80_0000,
    ensures
        exists|i: int|
            lo <= i < hi && magnitude(#[trigger] x[i]) == super::quantize::largest(x, lo, hi),
        forall|i: int|
            lo <= i < hi ==> at_most(
                magnitude(#[trigger] x[i]),
                super::quantize::largest(x, lo, hi),
            ),
    decreases hi - lo,
{
    let m = magnitude(x[hi - 1]);
    if hi - 1 > lo {
        the_largest_magnitude_is_one_of_them(x, lo, hi - 1);
        let i = choose|i: int|
            lo <= i < hi - 1 && magnitude(#[trigger] x[i]) == super::quantize::largest(
                x,
                lo,
                hi - 1,
            );
        assert(super::quantize::largest(x, lo, hi) == magnitude(x[i]) || super::quantize::largest(
            x,
            lo,
            hi,
        ) == m);
    } else {
        reveal_with_fuel(super::quantize::largest, 2);
        assert(super::quantize::largest(x, lo, hi) == m);
    }
}

/// Codes are cut to 127 on either side, and what a block does not fill is zero.
pub proof fn codes_stay_within_127(f: Ops, x: Seq<u32>, b: int, i: int)
    ensures
        -127 <= q8_code(f, x, b, i) <= 127,
        b * 32 + i >= x.len() ==> q8_code(f, x, b, i) == 0,
        forall|q: int| -127 <= q <= 127 ==> #[trigger] cut(q) == q,
{
}

} // verus!
