use gguf_rs::sample::{best_indices, keys_of, Rng, SampleParams, Sampler};
use gguf_rs::single::{Arith, FloatOp};

/// Single-precision arithmetic on bits.
fn single(op: FloatOp, a: u32, b: u32) -> u32 {
    let x = f32::from_bits(a);
    let y = f32::from_bits(b);
    let wide = (b as u64) << 32 | a as u64;
    match op {
        FloatOp::Add => (x + y).to_bits(),
        FloatOp::Sub => (x - y).to_bits(),
        FloatOp::Mul => (x * y).to_bits(),
        FloatOp::Div => (x / y).to_bits(),
        FloatOp::Exp => x.exp().to_bits(),
        FloatOp::Ln => x.ln().to_bits(),
        FloatOp::Log2 => x.log2().to_bits(),
        FloatOp::FromInt => (a as i32 as f32).to_bits(),
        FloatOp::Round => x.round_ties_even() as i32 as u32,
        FloatOp::FromDouble => (f64::from_bits(wide) as f32).to_bits(),
        FloatOp::FromLong => (wide as i64 as f32).to_bits(),
        FloatOp::FromHalf => half::f16::from_bits(a as u16).to_f32().to_bits(),
        FloatOp::ToHalf => half::f16::from_f32(x).to_bits() as u32,
        FloatOp::FromCount => (wide as f32).to_bits(),
        FloatOp::Tanh => x.tanh().to_bits(),
        FloatOp::Sqrt => x.sqrt().to_bits(),
        FloatOp::Sin => x.sin().to_bits(),
        FloatOp::Cos => x.cos().to_bits(),
        FloatOp::Pow => x.powf(y).to_bits(),
        FloatOp::Floor => x.floor().to_bits(),
        FloatOp::Ceil => x.ceil().to_bits(),
    }
}

fn arith() -> Arith<fn(FloatOp, u32, u32) -> u32> {
    Arith { op: single }
}

fn bits(v: &[f32]) -> Vec<u32> {
    v.iter().map(|x| x.to_bits()).collect()
}

fn bit(x: f32) -> u32 {
    x.to_bits()
}

#[test]
fn greedy_picks_the_maximum() {
    let m = arith();
    let mut s = Sampler::new(SampleParams::greedy(), &m);
    let logits = bits(&[0.1, 5.0, 0.2, 4.9]);
    assert_eq!(s.sample(&mut logits.clone(), &m), 1);
}

#[test]
fn same_seed_gives_the_same_stream() {
    let params = SampleParams { seed: 7, ..Default::default() };
    let run = || {
        let m = arith();
        let mut s = Sampler::new(params, &m);
        (0..16)
            .map(|_| {
                let l: Vec<f32> = (0..64).map(|i| (i as f32 * 0.37).sin()).collect();
                let t = s.sample(&mut bits(&l), &m);
                s.accept(t);
                t
            })
            .collect::<Vec<_>>()
    };
    assert_eq!(run(), run());
}

#[test]
fn interleaved_draws_do_not_disturb_each_other() {
    let m = arith();
    let params = SampleParams { seed: 11, ..Default::default() };
    let logits = |i: usize| -> Vec<u32> {
        bits(&(0..32).map(|k| ((i * 5 + k) as f32 * 0.71).sin()).collect::<Vec<f32>>())
    };
    let (mut a, mut b) = (Sampler::new(params, &m), Sampler::new(params, &m));
    let (mut x, mut y) = (vec![], vec![]);
    for who in [true, true, false, true, false, false, false, true] {
        let (s, out) = if who { (&mut a, &mut x) } else { (&mut b, &mut y) };
        let t = s.sample(&mut logits(out.len()), &m);
        s.accept(t);
        out.push(t);
    }
    assert_eq!(x, y);
}

#[test]
fn top_k_of_one_is_deterministic() {
    let m = arith();
    let params =
        SampleParams { top_k: 1, temperature: bit(1.0), seed: 3, ..Default::default() };
    let mut s = Sampler::new(params, &m);
    let logits = bits(&[1.0, 9.0, 2.0]);
    assert_eq!(s.sample(&mut logits.clone(), &m), 1);
}

#[test]
fn repetition_penalty_pushes_a_repeated_token_down() {
    let m = arith();
    let params = SampleParams {
        temperature: bit(0.0),
        repeat_penalty: bit(2.0),
        repeat_last_n: 8,
        ..Default::default()
    };
    let mut s = Sampler::new(params, &m);
    s.accept(1);
    let mut logits = bits(&[4.0, 5.0, 0.0]);
    // Token 1 starts ahead but is halved, so token 0 wins.
    assert_eq!(s.sample(&mut logits, &m), 0);
    // The logits are left as the draw saw them.
    assert_eq!(logits, bits(&[4.0, 2.5, 0.0]));
}

#[test]
fn non_finite_logits_do_not_poison_the_draw() {
    let m = arith();
    let mut s = Sampler::new(
        SampleParams { temperature: bit(1.0), seed: 1, ..Default::default() },
        &m,
    );
    let logits = bits(&[f32::NAN, 2.0, f32::INFINITY, 1.0]);
    let t = s.sample(&mut logits.clone(), &m);
    assert!(t == 1 || t == 3, "picked a non-finite logit: {t}");
}

#[test]
fn the_default_parameters_are_the_documented_ones() {
    let p = SampleParams::default();
    assert_eq!(p.temperature, bit(0.7));
    assert_eq!(p.top_k, 40);
    assert_eq!(p.top_p, bit(0.9));
    assert_eq!(p.min_p, bit(0.05));
    assert_eq!(p.typical_p, bit(1.0));
    assert_eq!(p.repeat_penalty, bit(1.1));
    assert_eq!(p.repeat_last_n, 64);
    assert_eq!(p.mirostat_tau, bit(5.0));
    assert_eq!(p.mirostat_eta, bit(0.1));
    assert_eq!(SampleParams::greedy().temperature, 0);
}

#[test]
fn the_stream_stays_below_one_and_repeats_with_its_seed() {
    let m = arith();
    let mut a = Rng::new(42);
    let mut b = Rng::new(42);
    for _ in 0..1000 {
        let x = f32::from_bits(a.uniform(&m));
        assert!((0.0..1.0).contains(&x));
        assert_eq!(x, f32::from_bits(b.uniform(&m)));
    }
    assert_eq!(a.next_u64(), b.next_u64());
    assert_ne!(Rng::new(1).next_u64(), Rng::new(2).next_u64());
}

#[test]
fn best_indices_come_highest_first() {
    let keys = keys_of(&bits(&[1.0, -3.0, 8.0, 2.0]));
    assert_eq!(best_indices(&keys, 2), vec![2, 3]);
    assert_eq!(best_indices(&keys, 9), vec![2, 3, 0, 1]);
}

#[test]
fn mirostat_keeps_to_the_likely_tokens() {
    let m = arith();
    let p = SampleParams { mirostat: 2, temperature: bit(1.0), seed: 5, ..Default::default() };
    let mut s = Sampler::new(p, &m);
    let logits = bits(&[-40.0, 20.0, -40.0]);
    for _ in 0..8 {
        assert_eq!(s.sample(&mut logits.clone(), &m), 1);
    }
}
