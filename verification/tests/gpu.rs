use gguf_rs::backend::{Activation, BinOp, MatMulCfg, NormCfg, RopeCfg, RopeKind};
use gguf_rs::device::{BufferId, WeightId};
use gguf_rs::dtype::{DType, QuantView};
use gguf_rs::gpu::cuda::{check_device, grid_1d, grown, kernels_available, CudaBackend};
use gguf_rs::gpu::kernels::{fixed_kernels, typed_kernels};
use gguf_rs::gpu::launch::Launch;
use gguf_rs::gpu::record::{Action, Recorder};
use gguf_rs::gpu::select::{
    compute_family, find_memory, order, pick, score, total_memory, upload_parts, Candidate,
    DeviceType, Heap,
};
use gguf_rs::gpu::vulkan::{groups, push, supports, Kernel, VulkanBackend};
use gguf_rs::scalar::Scalar;
use gguf_rs::single::{Arith, FloatOp};

/// Single-precision arithmetic on bits.
fn single(op: FloatOp, a: u32, b: u32) -> u32 {
    let x = f32::from_bits(a);
    let y = f32::from_bits(b);
    let wide = (b as u64) << 32 | a as u64;
    match op {
        FloatOp::Add => (x + y).to_bits(),
        FloatOp::Sub => (x - y).to_bits(),
        FloatOp::Mul => (x * y).to_bits(),
        FloatOp::Div => (x / y).to_bits(),
        FloatOp::Exp => x.exp().to_bits(),
        FloatOp::Ln => x.ln().to_bits(),
        FloatOp::Log2 => x.log2().to_bits(),
        FloatOp::FromInt => (a as i32 as f32).to_bits(),
        FloatOp::Round => x.round_ties_even() as i32 as u32,
        FloatOp::FromDouble => (f64::from_bits(wide) as f32).to_bits(),
        FloatOp::FromLong => (wide as i64 as f32).to_bits(),
        FloatOp::FromHalf => half::f16::from_bits(a as u16).to_f32().to_bits(),
        FloatOp::ToHalf => half::f16::from_f32(x).to_bits() as u32,
        FloatOp::FromCount => (wide as f32).to_bits(),
        FloatOp::Tanh => x.tanh().to_bits(),
        FloatOp::Sqrt => x.sqrt().to_bits(),
        FloatOp::Sin => x.sin().to_bits(),
        FloatOp::Cos => x.cos().to_bits(),
        FloatOp::Pow => x.powf(y).to_bits(),
        FloatOp::Floor => x.floor().to_bits(),
        FloatOp::Ceil => x.ceil().to_bits(),
    }
}

fn arith() -> Arith<fn(FloatOp, u32, u32) -> u32> {
    Arith { op: single }
}

fn cuda() -> CudaBackend {
    let mut names = fixed_kernels();
    names.extend(typed_kernels());
    CudaBackend::new(names, 16)
}

#[test]
fn kernels_are_looked_up_by_name() {
    assert_eq!(fixed_kernels().len(), 19);
    let t = typed_kernels();
    assert_eq!(t.len(), 54);
    assert_eq!(t[..3], ["get_rows_f32", "mul_mat_f32", "moe_mm_f32"]);
    assert!(kernels_available(".version 8"));
    assert!(!kernels_available("  \n"));
}

#[test]
fn arguments_are_packed_in_order() {
    let l = Launch::new().ptr(0x1122).i32(-1).u64(7).single(1f32.to_bits());
    assert_eq!(l.sizes, vec![8, 4, 8, 4]);
    assert_eq!(l.storage[0], 0x1122u64.to_ne_bytes());
    assert_eq!(l.storage[1][..4], (-1i32).to_ne_bytes());
    assert_eq!(l.storage[3][..4], 1f32.to_ne_bytes());
}

#[test]
fn grids_cover_every_element() {
    assert_eq!(grid_1d(256, 256), (1, 1, 1));
    assert_eq!(grid_1d(257, 256), (2, 1, 1));
    assert_eq!(groups(513, 256), (3, 1, 1));
    assert_eq!(grown(0, 0, 100), Some(4096));
    assert_eq!(grown(4096, 5, 5000), Some(8192));
    assert_eq!(grown(4096, 5, 100), None);
}

#[test]
fn a_plan_names_its_kernel_and_stops_at_a_fault() {
    let m = arith();
    let mut b = cuda();
    let x = b.allocated(0x1000, 4096);
    let y = b.allocated(0x2000, 4096);
    let p = b.norm(&m, y, x, None, NormCfg::rms(64, 2, Scalar::zero()));
    assert!(p.fault.is_none());
    assert_eq!(p.calls.len(), 1);
    assert_eq!(p.calls[0].name, "norm_kernel");
    let p = b.binary(y, x, x, BinOp::Add, 100);
    assert_eq!(p.calls[0].name, "binary_kernel");
    let p = b.matmul(y, WeightId(3), x, 0, MatMulCfg::new(1, 1, 1));
    assert!(p.fault.is_some());
    assert!(p.calls.is_empty());
    assert_eq!(b.free(x).unwrap().ptr, 0x1000);
    assert!(b.free(x).is_none());
    assert_eq!(b.dptr(x), 0);
}

#[test]
fn weights_without_kernels_are_refused() {
    assert!(CudaBackend::refuse_weight(DType::Q4K).is_none());
    assert!(CudaBackend::refuse_weight(DType::Iq2S).is_some());
    assert!(VulkanBackend::refuse_weight(DType::Q4K).is_none());
    assert!(supports(DType::Q8_0));
    assert!(!supports(DType::Iq1S));
    assert!(check_device(0, 1).is_none());
    assert!(check_device(1, 1).is_some());
    assert!(check_device(0, 0).is_some());
}

#[test]
fn dispatches_bind_what_they_need() {
    let m = arith();
    let mut b = VulkanBackend::new(99);
    let x = b.allocated(1, 4096);
    let y = b.allocated(2, 4096);
    let data = vec![0u8; 64 * 4];
    let w = b.uploaded(3, &QuantView::new(&data, DType::F32, 8, 8));
    let p = b.matmul(y, w, x, MatMulCfg::new(8, 8, 1));
    assert!(p.fault.is_none());
    assert!(matches!(p.calls.last().unwrap().kernel, Kernel::MatMul(DType::F32)));
    for c in &p.calls {
        assert_eq!(c.buffers.len(), c.kernel.bindings() as usize);
    }
    let p = b.norm(&m, y, x, None, NormCfg::rms(64, 1, Scalar::zero()));
    assert!(p.calls[0].buffers.contains(&99));
    let block = push(&vec![1, 0x0203]);
    assert_eq!(block.len(), 128);
    assert_eq!(block[..9], [1, 0, 0, 0, 3, 2, 0, 0, 0]);
    assert_eq!(b.opt_handle(None), 99);
    assert!(b.norm(&m, y, BufferId(8), None, NormCfg::rms(64, 1, Scalar::zero())).fault.is_some());
    assert_ne!(
        gguf_rs::gpu::vulkan::act_code(Activation::Silu),
        gguf_rs::gpu::vulkan::act_code(Activation::Relu)
    );
}

#[test]
fn only_what_is_rotated_has_to_be_counted() {
    let m = arith();
    let mut v = VulkanBackend::new(99);
    let q = v.allocated(1, 4096);
    let mut c = cuda();
    assert_eq!(c.allocated(1, 4096), q);
    let base = RopeCfg::new(RopeKind::Norm, 2, u32::MAX, 8, Scalar::one());
    let cfg = RopeCfg { n_tokens: 4, ..base };
    // Without keys their heads do not matter.
    assert_eq!(v.rope(&m, q, None, 7, cfg).calls.len(), 1);
    assert_eq!(c.rope(&m, q, None, 7, cfg).calls.len(), 1);
    // Where nothing is rotated, neither do those of the queries.
    for idle in [RopeCfg { n_rot: 0, ..cfg }, RopeCfg { kind: RopeKind::NoRope, ..cfg }] {
        let idle = RopeCfg { n_heads: u32::MAX, ..idle };
        assert!(v.rope(&m, q, Some(q), 7, idle).calls.is_empty());
        assert!(c.rope(&m, q, Some(q), 7, idle).calls.is_empty());
    }
}

#[test]
fn recording_begins_before_it_is_submitted() {
    let mut r = Recorder::new();
    assert!(r.submit().is_empty());
    assert!(matches!(r.dispatch()[..], [Action::Begin]));
    assert!(r.dispatch().is_empty());
    assert!(matches!(r.submit()[..], [Action::Submit]));
    assert!(matches!(r.sync()[..], [Action::Wait]));
    assert!(r.sync().is_empty());
}

#[test]
fn the_best_device_comes_first() {
    let d = |t, total| Candidate { score: score(t), total };
    let c = vec![
        d(DeviceType::Cpu, 64),
        d(DeviceType::Discrete, 8),
        d(DeviceType::Integrated, 32),
        d(DeviceType::Discrete, 16),
    ];
    assert_eq!(order(&c), vec![3, 1, 2, 0]);
    assert_eq!(pick(&c, 0).unwrap(), 3);
    assert_eq!(pick(&c, 3).unwrap(), 0);
    assert!(pick(&c, 4).is_err());
    assert!(pick(&vec![], 0).is_err());
    assert_eq!(compute_family(&vec![false, true]).unwrap(), 1);
    assert!(compute_family(&vec![false]).is_err());
    assert_eq!(find_memory(&vec![1, 6, 7], 6), Some(1));
    assert_eq!(find_memory(&vec![1], 6), None);
    let heaps = vec![
        Heap { size: 10, device_local: true },
        Heap { size: 5, device_local: false },
        Heap { size: 1, device_local: true },
    ];
    assert_eq!(total_memory(&heaps), 11);
}

#[test]
fn uploads_are_cut_into_parts() {
    let chunk = 0x400_0000;
    let parts: Vec<(usize, usize)> =
        upload_parts(2 * chunk + 5).iter().map(|p| (p.at, p.n)).collect();
    assert_eq!(parts, vec![(0, chunk), (chunk, chunk), (2 * chunk, 5)]);
    assert!(upload_parts(0).is_empty());
}
