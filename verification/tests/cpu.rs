use gguf_rs::backend::{
    Activation, AttnCfg, BinOp, GateFunc, GluCfg, KvView, MatMulCfg, MoeCfg, MoeWeights, NormCfg,
    RopeCfg, RopeKind,
};
use gguf_rs::cpu::label::{cpu_label, device_info, Features};
use gguf_rs::cpu::machine::CpuBackend;
use gguf_rs::device::{BufferId, WeightId};
use gguf_rs::dtype::{DType, QuantView};
use gguf_rs::model::graph::Op;
use gguf_rs::scalar::Scalar;
use gguf_rs::single::{Arith, FloatOp};

/// Single-precision arithmetic on bits.
fn single(op: FloatOp, a: u32, b: u32) -> u32 {
    let x = f32::from_bits(a);
    let y = f32::from_bits(b);
    let wide = (b as u64) << 32 | a as u64;
    match op {
        FloatOp::Add => (x + y).to_bits(),
        FloatOp::Sub => (x - y).to_bits(),
        FloatOp::Mul => (x * y).to_bits(),
        FloatOp::Div => (x / y).to_bits(),
        FloatOp::Exp => x.exp().to_bits(),
        FloatOp::Ln => x.ln().to_bits(),
        FloatOp::Log2 => x.log2().to_bits(),
        FloatOp::FromInt => (a as i32 as f32).to_bits(),
        FloatOp::Round => x.round_ties_even() as i32 as u32,
        FloatOp::FromDouble => (f64::from_bits(wide) as f32).to_bits(),
        FloatOp::FromLong => (wide as i64 as f32).to_bits(),
        FloatOp::FromHalf => half::f16::from_bits(a as u16).to_f32().to_bits(),
        FloatOp::ToHalf => half::f16::from_f32(x).to_bits() as u32,
        FloatOp::FromCount => (wide as f32).to_bits(),
        FloatOp::Tanh => x.tanh().to_bits(),
        FloatOp::Sqrt => x.sqrt().to_bits(),
        FloatOp::Sin => x.sin().to_bits(),
        FloatOp::Cos => x.cos().to_bits(),
        FloatOp::Pow => x.powf(y).to_bits(),
        FloatOp::Floor => x.floor().to_bits(),
        FloatOp::Ceil => x.ceil().to_bits(),
    }
}

fn arith() -> Arith<fn(FloatOp, u32, u32) -> u32> {
    Arith { op: single }
}

fn bits(v: &[f32]) -> Vec<u32> {
    v.iter().map(|x| x.to_bits()).collect()
}

fn floats(v: &[u32]) -> Vec<f32> {
    v.iter().map(|x| f32::from_bits(*x)).collect()
}

fn put(cpu: &mut CpuBackend<'_>, v: &[f32]) -> BufferId {
    let id = cpu.allocate(v.len() as u64 * 4);
    let raw: Vec<u8> = v.iter().flat_map(|x| x.to_le_bytes()).collect();
    cpu.write(id, 0, &raw).unwrap();
    id
}

fn get(cpu: &CpuBackend<'_>, id: BufferId) -> Vec<f32> {
    floats(cpu.contents(id.0))
}

fn close(a: &[f32], b: &[f32]) {
    assert_eq!(a.len(), b.len());
    for (x, y) in a.iter().zip(b) {
        assert!((x - y).abs() < 1e-5, "{a:?} and {b:?}");
    }
}

fn raw(v: &[f32]) -> Vec<u8> {
    v.iter().flat_map(|x| x.to_le_bytes()).collect()
}

fn of(x: f32) -> Scalar {
    Scalar::bits(x.to_bits())
}

#[test]
fn what_was_written_is_read() {
    let mut cpu = CpuBackend::new();
    let id = cpu.allocate(8);
    cpu.write(id, 1, &[1, 2, 3]).unwrap();
    assert_eq!(cpu.read(id, 0, 8).unwrap(), vec![0, 1, 2, 3, 0, 0, 0, 0]);
    assert!(cpu.write(id, 6, &[1, 2, 3]).is_err());
    assert!(cpu.read(id, 0, 9).is_err());
    cpu.free(id);
    assert_eq!(
        cpu.read(id, 0, 1).unwrap_err().message(),
        "cpu backend: buffer 0 is not allocated"
    );
    assert_eq!(cpu.allocate(4).0, 0);
}

#[test]
fn norms_have_unit_size() {
    let m = arith();
    let mut cpu = CpuBackend::new();
    let src = put(&mut cpu, &[3.0, 4.0]);
    let dst = cpu.allocate(8);
    cpu.norm(&m, dst, src, None, NormCfg::rms(2, 1, of(0.0))).unwrap();
    let r = 12.5f32.sqrt();
    close(&get(&cpu, dst), &[3.0 / r, 4.0 / r]);
    let w = put(&mut cpu, &[2.0, 10.0]);
    cpu.norm(&m, dst, src, Some(w), NormCfg::layer(2, 1, of(0.0))).unwrap();
    close(&get(&cpu, dst), &[-2.0, 10.0]);
    let e = cpu.norm(&m, dst, BufferId(77), None, NormCfg::rms(2, 1, of(0.0))).unwrap_err();
    assert_eq!(e.message(), "cpu backend: buffer 77 is not allocated");
}

#[test]
fn matrices_multiply_rows() {
    let m = arith();
    let bytes = raw(&[1.0, 2.0, 3.0, 4.0, 5.0, 6.0]);
    let mut cpu = CpuBackend::new();
    let w = cpu.upload_weight(&QuantView::new(&bytes, DType::F32, 3, 2)).unwrap();
    let src = put(&mut cpu, &[1.0, 1.0, 2.0, 0.0]);
    let dst = cpu.allocate(24);
    let bias = put(&mut cpu, &[0.0, 0.0, 100.0]);
    let cfg = MatMulCfg::new(3, 2, 2).with_bias(Some(bias));
    cpu.matmul(&m, dst, w, src, cfg).unwrap();
    assert_eq!(get(&cpu, dst), vec![3.0, 7.0, 111.0, 2.0, 6.0, 110.0]);
    let dense = put(&mut cpu, &[1.0, 2.0, 3.0, 4.0, 5.0, 6.0]);
    cpu.matmul_f32(&m, dst, dense, src, MatMulCfg::new(3, 2, 2)).unwrap();
    assert_eq!(get(&cpu, dst), vec![3.0, 7.0, 11.0, 2.0, 6.0, 10.0]);
    let e = cpu.matmul(&m, dst, WeightId(9), src, cfg).unwrap_err();
    assert!(e.message().contains("9"), "{}", e.message());
    cpu.get_rows(&m, dst, w, &[2, 0, 1], of(2.0)).unwrap();
    assert_eq!(get(&cpu, dst), vec![10.0, 12.0, 2.0, 4.0, 6.0, 8.0]);
}

#[test]
fn rotation_keeps_lengths_and_does_nothing_at_the_start() {
    let m = arith();
    let mut cpu = CpuBackend::new();
    for kind in [RopeKind::Norm, RopeKind::Neox] {
        let x: Vec<f32> = (0..4).map(|i| i as f32 + 1.0).collect();
        let q = put(&mut cpu, &x);
        let cfg = RopeCfg::new(kind, 1, 1, 4, of(10000.0));
        cpu.rope(&m, q, None, &[0], cfg).unwrap();
        close(&get(&cpu, q), &x);
        cpu.rope(&m, q, None, &[5], cfg).unwrap();
        let got = get(&cpu, q);
        let len = |v: &[f32]| v.iter().map(|a| a * a).sum::<f32>();
        assert!((len(&got) - len(&x)).abs() < 1e-3);
        let (s, c) = 5f32.sin_cos();
        if kind == RopeKind::Norm {
            close(&got[..2], &[1.0 * c - 2.0 * s, 1.0 * s + 2.0 * c]);
        } else {
            close(&[got[0], got[2]], &[1.0 * c - 3.0 * s, 1.0 * s + 3.0 * c]);
        }
    }
}

#[test]
fn attention_looks_back_only() {
    let m = arith();
    for dtype in [DType::F32, DType::F16] {
        let mut cpu = CpuBackend::new();
        let (kb, vb) = (cpu.allocate(64), cpu.allocate(64));
        let kv = KvView { k: kb, v: vb, stride: 2, base: 0, dtype };
        let k = put(&mut cpu, &[0.0, 0.0, 0.0, 0.0]);
        let v = put(&mut cpu, &[1.0, 2.0, 3.0, 6.0]);
        cpu.kv_write(&m, &kv, k, v, 0, 2, 2).unwrap();
        let q = put(&mut cpu, &[1.0, 1.0, 1.0, 1.0]);
        let dst = cpu.allocate(16);
        let cfg = AttnCfg {
            n_heads: 1,
            n_kv_heads: 1,
            head_dim: 2,
            n_tokens: 2,
            kv_len: 2,
            start_pos: 0,
            scale: of(1.0),
            softcap: of(0.0),
            window: 0,
            sinks: None,
        };
        cpu.attention(&m, dst, q, &kv, cfg).unwrap();
        // The first token sees itself, the second the mean of both.
        close(&get(&cpu, dst), &[1.0, 2.0, 2.0, 4.0]);
        // A window of one token hides the first from the second.
        cpu.attention(&m, dst, q, &kv, AttnCfg { window: 1, ..cfg }).unwrap();
        close(&get(&cpu, dst), &[1.0, 2.0, 3.0, 6.0]);
        // A query may be longer than what is asked for.
        let long = put(&mut cpu, &[1.0, 1.0, 1.0, 1.0, 9.0, 9.0]);
        cpu.attention(&m, dst, long, &kv, AttnCfg { window: 1, ..cfg }).unwrap();
        close(&get(&cpu, dst), &[1.0, 2.0, 3.0, 6.0]);
        // What the window hides may be anything.
        let other = put(&mut cpu, &[7.0, -7.0]);
        cpu.kv_write(&m, &kv, other, other, 0, 1, 2).unwrap();
        cpu.attention(&m, dst, q, &kv, AttnCfg { window: 1, ..cfg }).unwrap();
        close(&get(&cpu, dst)[2..], &[3.0, 6.0]);
    }
}

#[test]
fn elementwise_operations() {
    let m = arith();
    let mut cpu = CpuBackend::new();
    let a = put(&mut cpu, &[1.0, 2.0, 3.0, 4.0]);
    let b = put(&mut cpu, &[10.0, 20.0]);
    let dst = cpu.allocate(16);
    cpu.binary(&m, dst, a, b, BinOp::Add, 4).unwrap();
    assert_eq!(get(&cpu, dst), vec![11.0, 22.0, 13.0, 24.0]);
    cpu.binary(&m, dst, a, a, BinOp::Mul, 4).unwrap();
    assert_eq!(get(&cpu, dst), vec![1.0, 4.0, 9.0, 16.0]);
    cpu.scale(&m, dst, of(0.5), 2).unwrap();
    assert_eq!(get(&cpu, dst), vec![0.5, 2.0, 9.0, 16.0]);
    cpu.fill(dst, 7f32.to_bits(), 3).unwrap();
    assert_eq!(get(&cpu, dst), vec![7.0, 7.0, 7.0, 16.0]);
    cpu.softcap(&m, dst, of(2.0), 1).unwrap();
    close(&get(&cpu, dst)[..1], &[2.0 * (3.5f32).tanh()]);
    cpu.copy(dst, 4, a, 8, 8).unwrap();
    assert_eq!(get(&cpu, dst)[1..3], [3.0, 4.0]);
    assert_eq!(
        cpu.copy(dst, 12, a, 0, 8).unwrap_err().message(),
        "shape error: copy range is out of bounds"
    );
}

#[test]
fn gates_multiply() {
    let m = arith();
    let mut cpu = CpuBackend::new();
    let gate = put(&mut cpu, &[1.0, -1.0]);
    let up = put(&mut cpu, &[2.0, 3.0]);
    let dst = cpu.allocate(8);
    cpu.glu(&m, dst, gate, up, GluCfg::new(Activation::Silu, 2, 1)).unwrap();
    let silu = |x: f32| x / (1.0 + (-x).exp());
    close(&get(&cpu, dst), &[2.0 * silu(1.0), 3.0 * silu(-1.0)]);
    cpu.activate(&m, gate, GluCfg::new(Activation::Relu2, 2, 1)).unwrap();
    assert_eq!(get(&cpu, gate), vec![1.0, 0.0]);
    let p = floats(&m.softmax(&bits(&[1.0, 1.0, f32::NEG_INFINITY])));
    close(&p, &[0.5, 0.5, 0.0]);
}

/// Rows of one block with scale one, whose first code is given and the others are zero.
fn first_codes(codes: impl Iterator<Item = u8>) -> Vec<u8> {
    let mut out = Vec::new();
    for c in codes {
        out.extend([0x00, 0x3c, c]);
        out.extend([0; 31]);
    }
    out
}

#[test]
fn only_the_chosen_experts_fire() {
    let m = arith();
    // Two experts; the router prefers the second.
    let router: Vec<f32> = (0..64).map(|i| if i == 32 { 5.0 } else { 0.0 }).collect();
    let router = raw(&router);
    let ups = first_codes((0..64).map(|_| 1));
    let gates = first_codes((0..64).map(|r| if r < 32 { 1 } else { 2 }));
    let downs = first_codes((0..64).map(|r| if r < 32 { 1 } else { 10 }));
    let mut cpu = CpuBackend::new();
    let view = |b| QuantView::new(b, DType::Q8_0, 64, 32);
    let w = MoeWeights {
        gate_inp: cpu.upload_weight(&QuantView::new(&router, DType::F32, 2, 32)).unwrap(),
        gate_exps: Some(cpu.upload_weight(&view(&gates)).unwrap()),
        up_exps: cpu.upload_weight(&view(&ups)).unwrap(),
        down_exps: cpu.upload_weight(&view(&downs)).unwrap(),
        exp_probs_b: None,
    };
    let x: Vec<f32> = (0..32).map(|i| if i == 0 { 1.0 } else { 0.0 }).collect();
    let src = put(&mut cpu, &x);
    let dst = cpu.allocate(128);
    let cfg = MoeCfg {
        n_expert: 2,
        n_expert_used: 1,
        n_embd: 32,
        n_ff: 32,
        n_tokens: 1,
        act: Activation::Relu,
        gate_func: GateFunc::Softmax,
        norm_topk: true,
        scale: of(1.0),
    };
    cpu.moe(&m, dst, src, &w, cfg).unwrap();
    // Its weight is renormalized to one: relu(2) * 1 * 10.
    for v in get(&cpu, dst) {
        assert!((v - 20.0).abs() < 0.1, "{v}");
    }
}

#[test]
fn the_processor_is_described() {
    let f = Features { avx512: false, avx2: true, vnni: true };
    assert_eq!(cpu_label("x86-64", f, 8), "x86-64 AVX2+VNNI (8 threads)");
    let none = Features { avx512: false, avx2: false, vnni: false };
    assert_eq!(cpu_label("aarch64", none, 4), "aarch64 (4 threads)");
    let d = device_info("x".into(), 8);
    assert_eq!(d.id(), "cpu:0");
    assert_eq!(d.caps.multiprocessors, 8);
}

#[test]
fn a_pass_ends_at_the_first_fault() {
    let m = arith();
    let mut cpu = CpuBackend::new();
    let a = put(&mut cpu, &[1.0, 2.0]);
    let twice = Op::Scale { buf: a, factor: of(2.0), n: 2 };
    let fault = Op::Scale { buf: BufferId(99), factor: of(2.0), n: 2 };
    let sum = Op::Binary { dst: a, a, b: a, op: BinOp::Add, n: 2 };
    let ops = [twice, sum, fault, twice];
    assert!(ops.iter().all(|op| cpu.is_ready(&m, op, &[])));
    assert!(cpu.pass(&m, &ops, &[], &[]).is_err());
    assert_eq!(get(&cpu, a), [4.0, 8.0]);
    assert!(cpu.pass(&m, &[twice, Op::Submit], &[], &[]).is_ok());
    assert_eq!(get(&cpu, a), [8.0, 16.0]);
}

#[test]
fn an_operation_needs_room() {
    let m = arith();
    let mut cpu = CpuBackend::new();
    let a = put(&mut cpu, &[1.0, 2.0]);
    let k = put(&mut cpu, &[0.0; 8]);
    let sum = |n| Op::Binary { dst: a, a, b: a, op: BinOp::Add, n };
    assert!(cpu.is_ready(&m, &sum(2), &[]));
    assert!(!cpu.is_ready(&m, &sum(3), &[]));
    let kv = KvView { k, v: k, dtype: DType::F32, stride: 2, base: 0 };
    let at = |kv_len, n_kv_heads| Op::Attention {
        dst: a,
        q: a,
        kv,
        cfg: AttnCfg {
            n_heads: 1,
            n_kv_heads,
            head_dim: 2,
            n_tokens: 1,
            kv_len,
            start_pos: 0,
            scale: of(1.0),
            softcap: of(0.0),
            window: 0,
            sinks: None,
        },
    };
    assert!(cpu.is_ready(&m, &at(4, 1), &[]));
    assert!(!cpu.is_ready(&m, &at(5, 1), &[]));
    assert!(!cpu.is_ready(&m, &at(1, 0), &[]));
}

#[test]
fn a_residual_is_added_and_normalized() {
    let m = arith();
    let mut cpu = CpuBackend::new();
    let x = put(&mut cpu, &[1.0, 2.0]);
    let d = put(&mut cpu, &[2.0, 2.0]);
    let dst = cpu.allocate(8);
    let cfg = NormCfg::rms(2, 1, of(0.0));
    cpu.add_norm(&m, dst, x, d, None, cfg).unwrap();
    assert_eq!(get(&cpu, x), [3.0, 4.0]);
    let rms = (12.5f32).sqrt();
    close(&get(&cpu, dst), &[3.0 / rms, 4.0 / rms]);
    assert!(cpu.add_norm(&m, dst, BufferId(77), d, None, cfg).is_err());
}
