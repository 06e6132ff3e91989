//! What the CUDA driver is told for each operation.
//!
//! An operation is laid out as kernel launches and what they need; whoever holds the driver
//! makes the launches in order. Scratch memory is grown first, to the sizes told here.

use vstd::prelude::*;
use vstd::string::*;

use super::launch::{pack, Arg, Launch};
use super::plan::{fault_view, Plan, Step};
use crate::backend::Activation;
use crate::device::{BufferId, Caps, DeviceInfo, DeviceKind, WeightId};
use crate::dtype::{DType, QuantView};
use crate::error::{backend_err, Error, ErrorView};
use crate::slots::Slots;
use crate::text::{
    cat2, cat3, cat5, dec, dec_int, decimal, decimal_int, own, same, texts, trim, trimmed,
};

verus! {

/// Threads of a warp.
pub const WARP: u32 = 32;

/// Warps per matmul block: each warp owns one output row.
pub const ROWS_PER_BLOCK: u32 = 4;

/// Kernel-name suffix for a quantization, where there is a kernel for it.
pub open spec fn suffix_of(t: DType) -> Option<Seq<char>> {
    match t {
        DType::F32 => Some("f32"@),
        DType::F16 => Some("f16"@),
        DType::BF16 => Some("bf16"@),
        DType::Q4_0 => Some("q4_0"@),
        DType::Q4_1 => Some("q4_1"@),
        DType::Q5_0 => Some("q5_0"@),
        DType::Q5_1 => Some("q5_1"@),
        DType::Q8_0 => Some("q8_0"@),
        DType::Q2K => Some("q2_k"@),
        DType::Q3K => Some("q3_k"@),
        DType::Q4K => Some("q4_k"@),
        DType::Q5K => Some("q5_k"@),
        DType::Q6K => Some("q6_k"@),
        DType::Iq4Nl => Some("iq4_nl"@),
        DType::Iq4Xs => Some("iq4_xs"@),
        DType::Mxfp4 => Some("mxfp4"@),
        DType::Tq1_0 => Some("tq1_0"@),
        DType::Tq2_0 => Some("tq2_0"@),
        _ => None,
    }
}

/// Kernel-name suffix for a quantization, or `None` if there is no kernel for it.
pub fn suffix(dt: DType) -> (r: Option<&'static str>)
    ensures
        suffix_of(dt) == match r {
            Some(s) => Some(s@),
            None => None,
        },
{
    match dt {
        DType::F32 => Some("f32"),
        DType::F16 => Some("f16"),
        DType::BF16 => Some("bf16"),
        DType::Q4_0 => Some("q4_0"),
        DType::Q4_1 => Some("q4_1"),
        DType::Q5_0 => Some("q5_0"),
        DType::Q5_1 => Some("q5_1"),
        DType::Q8_0 => Some("q8_0"),
        DType::Q2K => Some("q2_k"),
        DType::Q3K => Some("q3_k"),
        DType::Q4K => Some("q4_k"),
        DType::Q5K => Some("q5_k"),
        DType::Q6K => Some("q6_k"),
        DType::Iq4Nl => Some("iq4_nl"),
        DType::Iq4Xs => Some("iq4_xs"),
        DType::Mxfp4 => Some("mxfp4"),
        DType::Tq1_0 => Some("tq1_0"),
        DType::Tq2_0 => Some("tq2_0"),
        _ => None,
    }
}

pub open spec fn code_of(a: Activation) -> i32 {
    match a {
        Activation::Silu => 0,
        Activation::Gelu => 1,
        Activation::GeluTanh => 2,
        Activation::GeluQuick => 3,
        Activation::Relu => 4,
        Activation::Relu2 => 5,
        Activation::Swish => 6,
    }
}

/// The number that kernels know an activation by.
pub fn act_code(a: Activation) -> (r: i32)
    ensures
        r == code_of(a),
{
    match a {
        Activation::Silu => 0,
        Activation::Gelu => 1,
        Activation::GeluTanh => 2,
        Activation::GeluQuick => 3,
        Activation::Relu => 4,
        Activation::Relu2 => 5,
        Activation::Swish => 6,
    }
}

/// How many parts of `size` cover `n`.
pub open spec fn parts_of(n: int, size: int) -> int {
    (n + size - 1) / size
}

/// The grid whose blocks of `block` threads cover `n` elements.
pub open spec fn grid_of(n: u32, block: u32) -> (u32, u32, u32) {
    (parts_of(n as int, block as int) as u32, 1, 1)
}

pub fn grid_1d(n: u32, block: u32) -> (r: (u32, u32, u32))
    requires
        block > 0,
        n + block - 1 <= u32::MAX,
    ensures
        r == grid_of(n, block),
{
    ((n + (block - 1)) / block, 1, 1)
}

/// The blocks of a grid cover its elements, and none of them is without one.
pub proof fn grids_cover(n: u32, block: u32)
    requires
        block > 0,
        n + block - 1 <= u32::MAX,
    ensures
        grid_of(n, block).0 * block >= n,
        n > 0 ==> (grid_of(n, block).0 - 1) * block < n,
{
    let p = parts_of(n as int, block as int);
    assert(p * block >= n && (p - 1) * block < n + 0 || n == 0) by (nonlinear_arith)
        requires
            p == (n + block - 1) / block as int,
            block > 0,
            n >= 0,
    ;
    assert(p * block >= n && 0 <= p <= n + block - 1) by (nonlinear_arith)
        requires
            p == (n + block - 1) / block as int,
            block > 0,
            n >= 0,
    ;
}

/// Whether kernels were built in: their text is not blank.
pub fn kernels_available(ptx: &str) -> (r: bool)
    ensures
        r == (trimmed(ptx@).len() > 0),
{
    trim(ptx).as_str().unicode_len() > 0
}

/// The least power of two that is not below `n`, from `p` on.
pub open spec fn power_from(n: int, p: int) -> int
    decreases
            if n > p {
                n - p
            } else {
                0
            },
{
    if p >= n || p < 1 {
        p
    } else {
        power_from(n, 2 * p)
    }
}

/// The least power of two that is not below `n`.
pub open spec fn next_power(n: int) -> int {
    power_from(n, 1)
}

pub(crate) fn next_power_of_two(n: u64) -> (r: u64)
    requires
        n <= 0x8000_0000_0000_0000,
    ensures
        r == next_power(n as int),
        n <= r,
        r >= 1,
        n > 0 ==> r < 2 * n,
{
    let mut p: u64 = 1;
    while p < n
        invariant
            n <= 0x8000_0000_0000_0000,
            1 <= p,
            p > 1 ==> p < 2 * n,
            next_power(n as int) == power_from(n as int, p as int),
        decreases
                if n > p {
                    n - p
                } else {
                    0
                },
    {
        p = 2 * p;
    }
    p
}

/// The size that a scratch area grows to, or nothing where it is large enough as it is. Sizes
/// are rounded up so that a slowly growing batch does not reallocate every step.
pub fn grown(have: u64, ptr: u64, bytes: u64) -> (r: Option<u64>)
    requires
        bytes <= 0x8000_0000_0000_0000,
    ensures
        if have >= bytes && ptr != 0 {
            r is None
        } else if next_power(bytes as int) > 4096 {
            r == Some(next_power(bytes as int) as u64)
        } else {
            r == Some(4096u64)
        },
        r matches Some(n) ==> n >= bytes,
{
    if have >= bytes && ptr != 0 {
        return None;
    }
    let p = next_power_of_two(bytes);
    Some(
        if p > 4096 {
            p
        } else {
            4096
        },
    )
}

// ------------------------------------------------------------------------------- what is held

/// Device memory.
#[derive(Debug, Clone, Copy)]
pub struct Alloc {
    pub ptr: u64,
    pub bytes: u64,
}

/// A weight in device memory, in its own block layout.
#[derive(Debug, Clone, Copy)]
pub struct CudaWeight {
    pub ptr: u64,
    pub dtype: DType,
    pub rows: usize,
    pub cols: usize,
    pub bytes: u64,
}

impl CudaWeight {
    pub open spec fn row_len(self) -> nat {
        self.dtype.bytes_for(self.cols as nat)
    }

    pub fn row_bytes(&self) -> (r: usize)
        requires
            self.row_len() <= usize::MAX,
        ensures
            r == self.row_len(),
    {
        self.dtype.row_bytes(self.cols)
    }
}

/// The memory and the kernels of a device.
pub struct CudaBackend {
    pub buffers: Slots<Alloc>,
    pub weights: Slots<CudaWeight>,
    /// The names of the kernels that the module holds.
    pub kernels: Vec<String>,
    pub multiprocessors: u32,
}

/// One kernel launch.
pub struct KernelCall {
    pub name: String,
    /// What the launch is called where it fails.
    pub what: String,
    pub args: Launch,
    pub grid: (u32, u32, u32),
    pub block: (u32, u32, u32),
    pub shared: u32,
}

/// The mathematical value of a [`KernelCall`].
pub struct CallView {
    pub name: Seq<char>,
    pub what: Seq<char>,
    pub args: Seq<(Seq<u8>, nat)>,
    pub grid: (u32, u32, u32),
    pub block: (u32, u32, u32),
    pub shared: u32,
}

impl View for KernelCall {
    type V = CallView;

    open spec fn view(&self) -> CallView {
        CallView {
            name: self.name@,
            what: self.what@,
            args: self.args@,
            grid: self.grid,
            block: self.block,
            shared: self.shared,
        }
    }
}

pub type Steps = Seq<Step<CallView>>;

pub open spec fn missing_kernel(name: Seq<char>) -> ErrorView {
    ErrorView::Backend { device: "cuda"@, detail: "kernel "@ + name + " is not in this build"@ }
}

pub open spec fn missing_buffer(id: u32) -> ErrorView {
    ErrorView::Backend {
        device: "cuda"@,
        detail: "buffer "@ + dec(id as nat) + " is not allocated"@,
    }
}

pub open spec fn need_kernel(k: Seq<Seq<char>>, name: Seq<char>) -> Step<CallView> {
    Step::Need(
        if k.contains(name) {
            None
        } else {
            Some(missing_kernel(name))
        },
    )
}

pub open spec fn need_buffer(b: Map<u32, Alloc>, id: BufferId) -> Step<CallView> {
    Step::Need(
        if b.dom().contains(id.0) {
            None
        } else {
            Some(missing_buffer(id.0))
        },
    )
}

pub open spec fn need_opt(b: Map<u32, Alloc>, id: Option<BufferId>) -> Step<CallView> {
    match id {
        Some(x) => need_buffer(b, x),
        None => Step::Need(None),
    }
}

/// A weight must be there; `why` says how its absence is put.
pub open spec fn need_weight(w: Map<u32, CudaWeight>, id: WeightId, why: Seq<char>) -> Step<
    CallView,
> {
    Step::Need(
        if w.dom().contains(id.0) {
            None
        } else {
            Some(ErrorView::Backend { device: "cuda"@, detail: why })
        },
    )
}

/// A quantization must have a kernel; `why` says what it lacks otherwise.
pub open spec fn need_suffix(t: DType, why: Seq<char>) -> Step<CallView> {
    Step::Need(
        if suffix_of(t) is Some {
            None
        } else {
            Some(ErrorView::Unsupported(t.label() + why))
        },
    )
}

/// The suffix, or nothing.
pub open spec fn tail_of(t: DType) -> Seq<char> {
    match suffix_of(t) {
        Some(s) => s,
        None => Seq::empty(),
    }
}

/// Where a buffer lies.
pub open spec fn at(b: Map<u32, Alloc>, id: BufferId) -> u64 {
    if b.dom().contains(id.0) {
        b[id.0].ptr
    } else {
        0
    }
}

pub open spec fn opt_at(b: Map<u32, Alloc>, id: Option<BufferId>) -> u64 {
    match id {
        Some(x) => at(b, x),
        None => 0,
    }
}

/// The weight of a number, or an empty one.
pub open spec fn weight_at(w: Map<u32, CudaWeight>, id: WeightId) -> CudaWeight {
    if w.dom().contains(id.0) {
        w[id.0]
    } else {
        CudaWeight { ptr: 0, dtype: DType::F32, rows: 0, cols: 0, bytes: 0 }
    }
}

pub open spec fn call(
    name: Seq<char>,
    what: Seq<char>,
    args: Seq<Arg>,
    grid: (u32, u32, u32),
    block: (u32, u32, u32),
    shared: u32,
) -> Step<CallView> {
    Step::Do(CallView { name, what, args: pack(args), grid, block, shared })
}

/// A launch over `n` elements; there is none for no elements.
pub open spec fn over_elements(k: Seq<Seq<char>>, name: Seq<char>, n: u32, args: Seq<Arg>) -> Steps {
    if n == 0 {
        Seq::empty()
    } else {
        seq![need_kernel(k, name), call(name, name, args, grid_of(n, 256), (256, 1, 1), 0)]
    }
}

/// The Q8_1 blocks of a row.
pub open spec fn blocks_of(n: int) -> int {
    parts_of(n, 32)
}

/// The bytes that `n` staged rows take.
pub open spec fn staged_bytes(dim: int, n: int) -> int {
    blocks_of(dim) * 36 * n
}

/// Quantizes a buffer into the staging area.
pub open spec fn stage_steps(
    b: Map<u32, Alloc>,
    k: Seq<Seq<char>>,
    src: BufferId,
    staged: u64,
    dim: u32,
    n: u32,
) -> Steps {
    let blocks = blocks_of(dim as int) as u32;
    seq![
        need_buffer(b, src),
        need_kernel(k, "quantize_q8_1"@),
        call(
            "quantize_q8_1"@,
            "quantize_q8_1"@,
            seq![
                Arg::Ptr(at(b, src)),
                Arg::Ptr(staged),
                Arg::Int(dim as i32),
                Arg::Int(blocks as i32),
                Arg::Int(n as i32),
            ],
            grid_of((blocks * n) as u32, 256),
            (256, 1, 1),
            0,
        ),
    ]
}

impl CudaBackend {
    pub open spec fn wf(self) -> bool {
        &&& self.buffers.wf()
        &&& self.weights.wf()
        &&& forall|i: u32| #[trigger]
            self.weights@.dom().contains(i) ==> self.weights@[i].row_len() <= usize::MAX
    }

    pub fn new(kernels: Vec<String>, multiprocessors: u32) -> (r: Self)
        ensures
            r.wf(),
            r.buffers@ == Map::<u32, Alloc>::empty(),
            r.weights@ == Map::<u32, CudaWeight>::empty(),
            r.buffers.items@.len() == 0,
            r.buffers.free@.len() == 0,
            r.weights.items@.len() == 0,
            r.weights.free@.len() == 0,
            r.kernels == kernels,
            r.multiprocessors == multiprocessors,
    {
        CudaBackend { buffers: Slots::new(), weights: Slots::new(), kernels, multiprocessors }
    }

    /// Notes a buffer of `bytes` bytes that was allocated at `ptr`. No buffer is smaller than 16
    /// bytes.
    pub fn allocated(&mut self, ptr: u64, bytes: u64) -> (r: BufferId)
        requires
            old(self).wf(),
            old(self).buffers.items@.len() < u32::MAX,
        ensures
            final(self).wf(),
            final(self).weights == old(self).weights,
            final(self).kernels == old(self).kernels,
            final(self).multiprocessors == old(self).multiprocessors,
            r.0 == old(self).buffers.next(),
            !old(self).buffers@.dom().contains(r.0),
            final(self).buffers.free@ == old(self).buffers.free_after_place(),
            final(self).buffers.items@.len() == old(self).buffers.places_after_place(),
            final(self).buffers@ == old(self).buffers@.insert(
                r.0,
                Alloc {
                    ptr,
                    bytes: if bytes > 16 {
                        bytes
                    } else {
                        16
                    },
                },
            ),
    {
        let bytes = if bytes > 16 {
            bytes
        } else {
            16
        };
        BufferId(self.buffers.place(Alloc { ptr, bytes }))
    }

    /// Forgets a buffer; what is returned is to be freed.
    pub fn free(&mut self, id: BufferId) -> (r: Option<Alloc>)
        requires
            old(self).wf(),
        ensures
            final(self).wf(),
            final(self).kernels == old(self).kernels,
            final(self).multiprocessors == old(self).multiprocessors,
            final(self).weights == old(self).weights,
            final(self).buffers@ == old(self).buffers@.remove(id.0),
            final(self).buffers.free@ == old(self).buffers.free_after_remove(id.0),
            final(self).buffers.items@.len() == old(self).buffers.items@.len(),
            r == if old(self).buffers@.dom().contains(id.0) {
                Some(old(self).buffers@[id.0])
            } else {
                None
            },
    {
        self.buffers.remove(id.0)
    }

    /// Why a weight cannot be taken on.
    pub fn refuse_weight(dtype: DType) -> (r: Option<Error>)
        ensures
            fault_view(r) == if dtype.has_codebook() {
                Some(dtype.refusal())
            } else if suffix_of(dtype) is None {
                Some(
                    ErrorView::Unsupported(
                        dtype.label() + " has no CUDA kernel; run this model on --device cpu"@,
                    ),
                )
            } else {
                None
            },
    {
        match dtype.check_supported() {
            Ok(_) => {},
            Err(e) => {
                return Some(e);
            },
        }
        match suffix(dtype) {
            Some(_) => None,
            None => Some(
                Error::Unsupported(
                    cat2(dtype.name(), " has no CUDA kernel; run this model on --device cpu"),
                ),
            ),
        }
    }

    /// Notes a weight that was copied to `ptr`.
    pub fn uploaded(&mut self, ptr: u64, view: &QuantView<'_>) -> (r: WeightId)
        requires
            old(self).wf(),
            old(self).weights.items@.len() < u32::MAX,
            view.row_len() <= usize::MAX,
        ensures
            final(self).wf(),
            final(self).buffers == old(self).buffers,
            final(self).kernels == old(self).kernels,
            final(self).multiprocessors == old(self).multiprocessors,
            r.0 == old(self).weights.next(),
            !old(self).weights@.dom().contains(r.0),
            final(self).weights.free@ == old(self).weights.free_after_place(),
            final(self).weights.items@.len() == old(self).weights.places_after_place(),
            final(self).weights@ == old(self).weights@.insert(
                r.0,
                CudaWeight {
                    ptr,
                    dtype: view.dtype,
                    rows: view.rows,
                    cols: view.cols,
                    bytes: view.data@.len() as u64,
                },
            ),
    {
        WeightId(
            self.weights.place(
                CudaWeight {
                    ptr,
                    dtype: view.dtype,
                    rows: view.rows,
                    cols: view.cols,
                    bytes: view.data.len() as u64,
                },
            ),
        )
    }

    pub fn free_weight(&mut self, id: WeightId) -> (r: Option<CudaWeight>)
        requires
            old(self).wf(),
        ensures
            final(self).wf(),
            final(self).kernels == old(self).kernels,
            final(self).multiprocessors == old(self).multiprocessors,
            final(self).buffers == old(self).buffers,
            final(self).weights@ == old(self).weights@.remove(id.0),
            final(self).weights.free@ == old(self).weights.free_after_remove(id.0),
            final(self).weights.items@.len() == old(self).weights.items@.len(),
            r == if old(self).weights@.dom().contains(id.0) {
                Some(old(self).weights@[id.0])
            } else {
                None
            },
    {
        self.weights.remove(id.0)
    }

    pub(crate) fn no_kernel(&self, name: &str) -> (r: Option<Error>)
        ensures
            Step::<CallView>::Need(fault_view(r)) == need_kernel(texts(self.kernels@), name@),
    {
        if has_name(&self.kernels, name) {
            None
        } else {
            Some(backend_err("cuda", cat3("kernel ", name, " is not in this build")))
        }
    }

    pub(crate) fn no_buffer(&self, id: BufferId) -> (r: Option<Error>)
        ensures
            Step::<CallView>::Need(fault_view(r)) == need_buffer(self.buffers@, id),
    {
        match self.buffers.get(id.0) {
            Some(_) => None,
            None => Some(
                backend_err(
                    "cuda",
                    cat3("buffer ", decimal(id.0 as u64).as_str(), " is not allocated"),
                ),
            ),
        }
    }

    pub(crate) fn no_opt(&self, id: Option<BufferId>) -> (r: Option<Error>)
        ensures
            Step::<CallView>::Need(fault_view(r)) == need_opt(self.buffers@, id),
    {
        match id {
            Some(x) => self.no_buffer(x),
            None => None,
        }
    }

    pub(crate) fn no_weight(&self, id: WeightId, why: &str) -> (r: Option<Error>)
        ensures
            Step::<CallView>::Need(fault_view(r)) == need_weight(self.weights@, id, why@),
    {
        match self.weights.get(id.0) {
            Some(_) => None,
            None => Some(backend_err("cuda", own(why))),
        }
    }

    /// Where a buffer lies, zero where there is none.
    pub fn dptr(&self, id: BufferId) -> (r: u64)
        ensures
            r == at(self.buffers@, id),
    {
        match self.buffers.get(id.0) {
            Some(a) => a.ptr,
            None => 0,
        }
    }

    pub fn opt_dptr(&self, id: Option<BufferId>) -> (r: u64)
        ensures
            r == opt_at(self.buffers@, id),
    {
        match id {
            Some(x) => self.dptr(x),
            None => 0,
        }
    }

    pub(crate) fn weight(&self, id: WeightId) -> (r: CudaWeight)
        requires
            self.wf(),
        ensures
            r == weight_at(self.weights@, id),
            r.row_len() <= usize::MAX,
    {
        match self.weights.get(id.0) {
            Some(w) => *w,
            None => CudaWeight { ptr: 0, dtype: DType::F32, rows: 0, cols: 0, bytes: 0 },
        }
    }

    /// Lays out a launch over `n` elements.
    pub(crate) fn launch_1d(&self, p: &mut Plan<KernelCall>, name: &str, n: u32, args: Launch, Ghost(want): Ghost<
        Seq<Arg>,
    >)
        requires
            old(p).wf(),
            n + 255 <= u32::MAX,
            args@ == pack(want),
        ensures
            final(p).wf(),
            final(p).steps@ == old(p).steps@ + over_elements(texts(self.kernels@), name@, n, want),
    {
        let ghost before = p.steps@;
        if n > 0 {
            p.need(self.no_kernel(name));
            p.call(kernel(name, name, args, grid_1d(n, 256), (256, 1, 1), 0));
        }
        assert(p.steps@ =~= before + over_elements(texts(self.kernels@), name@, n, want));
    }

    /// The bytes that staging `n` rows of `dim` values takes.
    pub fn stage_bytes(dim: u32, n: u32) -> (r: u64)
        requires
            staged_bytes(dim as int, n as int) <= u64::MAX,
        ensures
            r == staged_bytes(dim as int, n as int),
    {
        let blocks: u64 = (dim as u64 + 31) / 32;
        blocks * 36 * n as u64
    }

    /// Lays out the staging of an activation.
    pub(crate) fn stage(&self, p: &mut Plan<KernelCall>, src: BufferId, staged: u64, dim: u32, n: u32)
        requires
            old(p).wf(),
            blocks_of(dim as int) * n + 255 <= u32::MAX,
        ensures
            final(p).wf(),
            final(p).steps@ == old(p).steps@ + stage_steps(
                self.buffers@,
                texts(self.kernels@),
                src,
                staged,
                dim,
                n,
            ),
    {
        let ghost before = p.steps@;
        let blocks: u32 = ((dim as u64 + 31) / 32) as u32;
        p.need(self.no_buffer(src));
        p.need(self.no_kernel("quantize_q8_1"));
        let args = Launch::new().ptr(self.dptr(src)).ptr(staged).i32(dim as i32).i32(
            blocks as i32,
        ).i32(n as i32);
        proof {
            assert(args@ =~= pack(
                seq![
                    Arg::Ptr(at(self.buffers@, src)),
                    Arg::Ptr(staged),
                    Arg::Int(dim as i32),
                    Arg::Int(blocks as i32),
                    Arg::Int(n as i32),
                ],
            ));
        }
        p.call(
            kernel(
                "quantize_q8_1",
                "quantize_q8_1",
                args,
                grid_1d(blocks * n, 256),
                (256, 1, 1),
                0,
            ),
        );
        assert(p.steps@ =~= before + stage_steps(
            self.buffers@,
            texts(self.kernels@),
            src,
            staged,
            dim,
            n,
        ));
    }
}

/// Why device `index` of `count` cannot be used.
pub open spec fn device_fault(index: u32, count: u32) -> Option<ErrorView> {
    if count == 0 {
        Some(ErrorView::NoDevice("the NVIDIA driver reports no devices"@))
    } else if index >= count {
        Some(
            ErrorView::NoDevice(
                "cuda:"@ + dec(index as nat) + " was requested but only "@ + dec(count as nat)
                    + " device(s) are present"@,
            ),
        )
    } else {
        None
    }
}

pub fn check_device(index: u32, count: u32) -> (r: Option<Error>)
    ensures
        fault_view(r) == device_fault(index, count),
{
    if count == 0 {
        return Some(Error::NoDevice(own("the NVIDIA driver reports no devices")));
    }
    if index >= count {
        return Some(
            Error::NoDevice(
                cat5(
                    "cuda:",
                    decimal(index as u64).as_str(),
                    " was requested but only ",
                    decimal(count as u64).as_str(),
                    " device(s) are present",
                ),
            ),
        );
    }
    None
}

/// A device as its driver describes it.
#[derive(Debug)]
pub struct Reported {
    pub name: String,
    pub index: u32,
    pub major: i32,
    pub minor: i32,
    pub total_memory: u64,
    pub max_threads_per_block: i32,
    pub shared_mem_per_block: i32,
    pub warp_size: i32,
    pub multiprocessors: i32,
}

/// What is known of a device.
pub fn device_info(d: &Reported) -> (r: DeviceInfo)
    ensures
        r.kind == DeviceKind::Cuda,
        r.index == d.index,
        r.name@ == d.name@ + " (sm_"@ + dec_int(d.major as int) + dec_int(d.minor as int) + ")"@,
        r.total_memory == d.total_memory,
        r.free_memory == d.total_memory,
        // Integer dots landed with compute capability 6.1.
        r.caps.int8_dot == (d.major > 6 || d.major == 6 && d.minor >= 1),
        r.caps.f16_math == (d.major >= 6),
        r.caps.matrix_cores == (d.major >= 7),
        r.caps.max_threads_per_block == d.max_threads_per_block as u32,
        r.caps.shared_mem_per_block == d.shared_mem_per_block as u32,
        r.caps.warp_size == d.warp_size as u32,
        r.caps.multiprocessors == d.multiprocessors as u32,
{
    let name = cat5(
        d.name.as_str(),
        " (sm_",
        decimal_int(d.major as i64).as_str(),
        decimal_int(d.minor as i64).as_str(),
        ")",
    );
    DeviceInfo {
        kind: DeviceKind::Cuda,
        index: d.index,
        name,
        total_memory: d.total_memory,
        free_memory: d.total_memory,
        caps: Caps {
            int8_dot: d.major > 6 || (d.major == 6 && d.minor >= 1),
            f16_math: d.major >= 6,
            matrix_cores: d.major >= 7,
            max_threads_per_block: d.max_threads_per_block as u32,
            shared_mem_per_block: d.shared_mem_per_block as u32,
            warp_size: d.warp_size as u32,
            multiprocessors: d.multiprocessors as u32,
        },
    }
}

pub(crate) fn has_name(v: &Vec<String>, name: &str) -> (r: bool)
    ensures
        r == texts(v@).contains(name@),
{
    let mut i: usize = 0;
    while i < v.len()
        invariant
            i <= v@.len(),
            forall|k: int| 0 <= k < i ==> (#[trigger] texts(v@)[k]) != name@,
        decreases v@.len() - i,
    {
        if same(v[i].as_str(), name) {
            assert(texts(v@)[i as int] == name@);
            return true;
        }
        i = i + 1;
    }
    false
}

pub(crate) fn kernel(
    name: &str,
    what: &str,
    args: Launch,
    grid: (u32, u32, u32),
    block: (u32, u32, u32),
    shared: u32,
) -> (r: KernelCall)
    ensures
        r@ == (CallView { name: name@, what: what@, args: args@, grid, block, shared }),
{
    KernelCall { name: own(name), what: own(what), args, grid, block, shared }
}

} // verus!
