//! The integer dot path and the decode path must agree.

use gguf_rs::dtype::DType;
use gguf_rs::error::Error;
use gguf_rs::quant::block::e8m0_to_half_bits;
use gguf_rs::quant::dot::check_dot_supported;
use gguf_rs::quant::quantize::{q8_1_bytes, q8_1_quant};
use gguf_rs::single::{Arith, FloatOp};

/// Single-precision arithmetic on bits.
fn single(op: FloatOp, a: u32, b: u32) -> u32 {
    let x = f32::from_bits(a);
    let y = f32::from_bits(b);
    let wide = (b as u64) << 32 | a as u64;
    match op {
        FloatOp::Add => (x + y).to_bits(),
        FloatOp::Sub => (x - y).to_bits(),
        FloatOp::Mul => (x * y).to_bits(),
        FloatOp::Div => (x / y).to_bits(),
        FloatOp::Exp => x.exp().to_bits(),
        FloatOp::Ln => x.ln().to_bits(),
        FloatOp::Log2 => x.log2().to_bits(),
        FloatOp::FromInt => (a as i32 as f32).to_bits(),
        FloatOp::Round => x.round_ties_even() as i32 as u32,
        FloatOp::FromDouble => (f64::from_bits(wide) as f32).to_bits(),
        FloatOp::FromLong => (wide as i64 as f32).to_bits(),
        FloatOp::FromHalf => half::f16::from_bits(a as u16).to_f32().to_bits(),
        FloatOp::ToHalf => half::f16::from_f32(x).to_bits() as u32,
        FloatOp::FromCount => (wide as f32).to_bits(),
        FloatOp::Tanh => x.tanh().to_bits(),
        FloatOp::Sqrt => x.sqrt().to_bits(),
        FloatOp::Sin => x.sin().to_bits(),
        FloatOp::Cos => x.cos().to_bits(),
        FloatOp::Pow => x.powf(y).to_bits(),
        FloatOp::Floor => x.floor().to_bits(),
        FloatOp::Ceil => x.ceil().to_bits(),
    }
}

fn arith() -> Arith<fn(FloatOp, u32, u32) -> u32> {
    Arith { op: single }
}

fn bits(v: &[f32]) -> Vec<u32> {
    v.iter().map(|x| x.to_bits()).collect()
}

fn floats(v: &[u32]) -> Vec<f32> {
    v.iter().map(|x| f32::from_bits(*x)).collect()
}

/// Deterministic byte source; the block contents only need to be varied, not meaningful.
fn pseudo_bytes(n: usize, seed: u64) -> Vec<u8> {
    let mut s = seed | 1;
    (0..n)
        .map(|_| {
            s = s.wrapping_mul(6364136223846793005).wrapping_add(1442695040888963407);
            (s >> 33) as u8
        })
        .collect()
}

fn pseudo_floats(n: usize, seed: u64) -> Vec<f32> {
    let mut s = seed | 1;
    (0..n)
        .map(|_| {
            s = s.wrapping_mul(6364136223846793005).wrapping_add(1442695040888963407);
            ((s >> 40) as i32 as f32 / 8388608.0) - 0.5
        })
        .collect()
}

/// Build block bytes whose scale fields are sane. Random bytes can land on NaN or a huge
/// exponent, which would swamp the comparison without indicating a real bug.
fn blocks_with_scales(dtype: DType, n_blocks: usize, seed: u64) -> Vec<u8> {
    let ts = dtype.type_size();
    let mut raw = pseudo_bytes(ts * n_blocks, seed);
    let scale = half::f16::from_f32(0.0123).to_le_bytes();
    let min = half::f16::from_f32(-0.0071).to_le_bytes();
    for b in 0..n_blocks {
        let blk = &mut raw[b * ts..(b + 1) * ts];
        match dtype {
            DType::Q4_0 | DType::Q5_0 | DType::Q8_0 | DType::Iq4Nl => {
                blk[0..2].copy_from_slice(&scale);
            }
            DType::Q4_1 | DType::Q5_1 => {
                blk[0..2].copy_from_slice(&scale);
                blk[2..4].copy_from_slice(&min);
            }
            DType::Q2K => {
                blk[80..82].copy_from_slice(&scale);
                blk[82..84].copy_from_slice(&min);
            }
            DType::Q3K => blk[108..110].copy_from_slice(&scale),
            DType::Q4K | DType::Q5K => {
                blk[0..2].copy_from_slice(&scale);
                blk[2..4].copy_from_slice(&min);
            }
            DType::Q6K => blk[208..210].copy_from_slice(&scale),
            DType::Iq4Xs => blk[0..2].copy_from_slice(&scale),
            DType::Tq1_0 => blk[52..54].copy_from_slice(&scale),
            DType::Tq2_0 => blk[64..66].copy_from_slice(&scale),
            DType::Mxfp4 => blk[0] = 124, // 2^(124-128) = 1/16
            _ => {}
        }
    }
    raw
}

const TYPES: &[DType] = &[
    DType::Q4_0,
    DType::Q4_1,
    DType::Q5_0,
    DType::Q5_1,
    DType::Q8_0,
    DType::Q2K,
    DType::Q3K,
    DType::Q4K,
    DType::Q5K,
    DType::Q6K,
    DType::Iq4Nl,
    DType::Iq4Xs,
    DType::Tq1_0,
    DType::Tq2_0,
    DType::Mxfp4,
];

#[test]
fn integer_dot_agrees_with_decoded_dot() {
    let m = arith();
    for &dt in TYPES {
        // 1024 elements is several blocks of every type.
        let n = 1024;
        let n_blocks = n / dt.block_size();
        let w = blocks_with_scales(dt, n_blocks, 0xABCD ^ dt.id() as u64);
        let decoded = floats(&m.dequantize_vec(dt, &w, n).expect("decode"));

        let act = pseudo_floats(n, 0x1234);
        let aq = m.quantize_q8_1(&bits(&act));
        assert_eq!(aq.len(), q8_1_bytes(n));

        let exact: f32 = decoded.iter().zip(&act).map(|(x, y)| x * y).sum();
        let fast = f32::from_bits(m.vec_dot_q8_1(dt, n, &w, &aq));

        // The only legitimate difference is the activation's own 8-bit rounding.
        let scale = decoded.iter().map(|v| v.abs()).sum::<f32>()
            * act.iter().fold(0f32, |m, v| m.max(v.abs()));
        let tol = 1e-2 * scale.max(1e-3);
        assert!(
            (exact - fast).abs() <= tol,
            "{}: decoded dot {exact}, integer dot {fast} (tolerance {tol})",
            dt.name()
        );
    }
}

#[test]
fn decoding_is_exactly_reproducible() {
    let m = arith();
    for &dt in TYPES {
        let n = dt.block_size() * 3;
        let w = blocks_with_scales(dt, 3, 0x5EED ^ dt.id() as u64);
        let a = floats(&m.dequantize_vec(dt, &w, n).unwrap());
        let b = floats(&m.dequantize_vec(dt, &w, n).unwrap());
        assert_eq!(a, b, "{} decode is not deterministic", dt.name());
        assert!(
            a.iter().all(|v| v.is_finite()),
            "{} produced a non-finite value",
            dt.name()
        );
    }
}

#[test]
fn block_sizes_match_the_format() {
    // These are the numbers GGUF files are written against; getting one wrong silently
    // misaligns every tensor after it.
    let expect = [
        (DType::Q4_0, 32, 18),
        (DType::Q4_1, 32, 20),
        (DType::Q5_0, 32, 22),
        (DType::Q5_1, 32, 24),
        (DType::Q8_0, 32, 34),
        (DType::Q8_1, 32, 36),
        (DType::Q2K, 256, 84),
        (DType::Q3K, 256, 110),
        (DType::Q4K, 256, 144),
        (DType::Q5K, 256, 176),
        (DType::Q6K, 256, 210),
        (DType::Q8K, 256, 292),
        (DType::Iq4Nl, 32, 18),
        (DType::Iq4Xs, 256, 136),
        (DType::Tq1_0, 256, 54),
        (DType::Tq2_0, 256, 66),
        (DType::Mxfp4, 32, 17),
    ];
    for (dt, bs, ts) in expect {
        assert_eq!(dt.block_size(), bs, "{} block size", dt.name());
        assert_eq!(dt.type_size(), ts, "{} type size", dt.name());
    }
}

#[test]
fn codebook_quants_are_refused_rather_than_guessed() {
    let m = arith();
    for dt in [
        DType::Iq1S,
        DType::Iq1M,
        DType::Iq2Xxs,
        DType::Iq2Xs,
        DType::Iq2S,
        DType::Iq3Xxs,
        DType::Iq3S,
    ] {
        let err = m.dequantize_vec(dt, &vec![0u8; dt.type_size()], 256).unwrap_err();
        let msg = err.message();
        assert!(msg.contains("codebook"), "{}: unhelpful error {msg}", dt.name());
    }
}

#[test]
fn known_blocks_decode_to_known_numbers() {
    let m = arith();
    // Scale one half, codes 0 to 31.
    let mut q8 = vec![0x00, 0x38];
    q8.extend(0..32u8);
    let got = floats(&m.dequantize_vec(DType::Q8_0, &q8, 32).unwrap());
    let want: Vec<f32> = (0..32).map(|i| i as f32 * 0.5).collect();
    assert_eq!(got, want);
    // Scale one, every nibble 15: 15 - 8.
    let mut q4 = vec![0x00, 0x3c];
    q4.extend([0xffu8; 16]);
    let got = floats(&m.dequantize_vec(DType::Q4_0, &q4, 32).unwrap());
    assert_eq!(got, vec![7.0; 32]);
    let plain = m.dequantize_vec(DType::F32, &1.5f32.to_le_bytes(), 1).unwrap();
    assert_eq!(floats(&plain), vec![1.5]);
    let halves = m.dequantize_vec(DType::F16, &[0x00, 0xc0], 1).unwrap();
    assert_eq!(floats(&halves), vec![-2.0]);
}

#[test]
fn short_data_is_refused() {
    let m = arith();
    let e = m.dequantize_vec(DType::Q8_0, &[0u8; 33], 32).unwrap_err();
    assert!(matches!(e, Error::Shape(_)), "{}", e.message());
}

#[test]
fn activations_round_to_eight_bits() {
    let m = arith();
    let x: Vec<f32> = (0..32).map(|i| i as f32 * 127.0 / 31.0).collect();
    let q = m.quantize_q8_1(&bits(&x));
    assert_eq!(q.len(), 36);
    assert_eq!(f32::from_bits(m.q8_1_scale(&q)), 1.0);
    let codes: Vec<i32> = (0..32).map(|j| q8_1_quant(&q, j)).collect();
    let want: Vec<i32> = x.iter().map(|v| v.round_ties_even() as i32).collect();
    assert_eq!(codes, want);
    assert_eq!(f32::from_bits(m.q8_1_sum(&q)), codes.iter().sum::<i32>() as f32);
}

#[test]
fn float_weights_have_no_integer_dot() {
    assert!(check_dot_supported(DType::Q4K).is_ok());
    assert!(check_dot_supported(DType::Iq2S).is_err());
    assert_eq!(arith().vec_dot_q8_1(DType::F32, 32, &[], &[]), 0);
    let w: Vec<u8> = [1.0f32, 2.0, 3.0].iter().flat_map(|v| v.to_le_bytes()).collect();
    let dot = arith().vec_dot_f32(DType::F32, 3, &w, &bits(&[4.0, 5.0, 6.0]));
    assert_eq!(f32::from_bits(dot), 32.0);
}

#[test]
fn exponents_become_powers_of_two() {
    assert_eq!(f32::from_bits(e8m0_to_half_bits(124)), 1.0 / 16.0);
    assert_eq!(f32::from_bits(e8m0_to_half_bits(128)), 1.0);
}
