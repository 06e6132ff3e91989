//! What a Vulkan device is told for each operation.
//!
//! An operation is laid out as dispatches of compute shaders over buffers, which are known by
//! their handles; whoever holds the device records them in order.

use vstd::prelude::*;
use vstd::string::*;

use super::cuda::{code_of, next_power, next_power_of_two, parts_of, suffix_of};
use super::plan::{fault_view, Step};
use crate::backend::Activation;
use crate::device::{BufferId, WeightId};
use crate::dtype::{DType, QuantView};
use crate::error::{backend_err, Error, ErrorView};
use crate::slots::Slots;
use crate::text::{cat2, cat3, dec, decimal};

verus! {

/// Bytes a push-constant block may occupy. Vulkan guarantees 128.
pub const PUSH_MAX: usize = 128;

/// Invocations of a work group.
pub const WG: u32 = 256;

/// Descriptor sets recycled per submission. Large enough for a full forward pass of a deep
/// model; a pass that ever exceeds it is flushed.
pub const MAX_SETS: u32 = 8192;

/// A compute shader, specialized where it is.
#[derive(Debug, Clone, Copy, PartialEq, Eq, Hash, Structural)]
pub enum Kernel {
    MatMul(DType),
    GetRows(DType),
    MoeMm(DType),
    Norm,
    Rope,
    /// Specialized on whether the cache holds half-precision numbers.
    KvWrite(bool),
    Attention(bool),
    AttnCombine,
    Elementwise,
    MoeRoute,
    MoeMisc,
}

/// Whether a quantization has a shader path.
pub fn supports(dt: DType) -> (r: bool)
    ensures
        r == (suffix_of(dt) is Some),
{
    super::cuda::suffix(dt).is_some()
}

impl Kernel {
    /// How many buffers a shader binds.
    pub open spec fn binding_count(self) -> u32 {
        match self {
            Kernel::MatMul(_) | Kernel::MoeMm(_) => 4,
            Kernel::Norm | Kernel::MoeRoute | Kernel::KvWrite(_) | Kernel::Attention(_) => 4,
            _ => 3,
        }
    }

    pub fn bindings(self) -> (r: u32)
        ensures
            r == self.binding_count(),
    {
        match self {
            Kernel::MatMul(_) | Kernel::MoeMm(_) => 4,
            Kernel::Norm | Kernel::MoeRoute | Kernel::KvWrite(_) | Kernel::Attention(_) => 4,
            _ => 3,
        }
    }

    /// The constant that a shader is specialized with: the quantization's number, or whether the
    /// cache holds half-precision numbers.
    pub fn constant(self) -> (r: Option<i32>)
        ensures
            r == match self {
                Kernel::MatMul(t) | Kernel::GetRows(t) | Kernel::MoeMm(t) => Some(
                    t.number() as i32,
                ),
                Kernel::KvWrite(h) | Kernel::Attention(h) => Some(
                    if h {
                        1i32
                    } else {
                        0i32
                    },
                ),
                _ => None,
            },
    {
        match self {
            Kernel::MatMul(t) | Kernel::GetRows(t) | Kernel::MoeMm(t) => Some(t.id() as i32),
            Kernel::KvWrite(h) | Kernel::Attention(h) => Some(
                if h {
                    1
                } else {
                    0
                },
            ),
            _ => None,
        }
    }
}

/// The number that shaders know an activation by.
pub fn act_code(a: Activation) -> (r: u32)
    ensures
        r == code_of(a),
{
    match a {
        Activation::Silu => 0,
        Activation::Gelu => 1,
        Activation::GeluTanh => 2,
        Activation::GeluQuick => 3,
        Activation::Relu => 4,
        Activation::Relu2 => 5,
        Activation::Swish => 6,
    }
}

pub open spec fn groups_of(n: u32, size: u32) -> (u32, u32, u32) {
    (parts_of(n as int, size as int) as u32, 1, 1)
}

/// The work groups of `size` invocations that cover `n` elements.
pub fn groups(n: u32, size: u32) -> (r: (u32, u32, u32))
    requires
        size > 0,
        n + size - 1 <= u32::MAX,
    ensures
        r == groups_of(n, size),
{
    ((n + (size - 1)) / size, 1, 1)
}

/// A push-constant block: its words in order, then zeros.
pub open spec fn block_of(words: Seq<u32>) -> Seq<u8> {
    Seq::new(
        128,
        |i: int|
            if i / 4 < words.len() {
                crate::cpu::machine::byte_of(words[i / 4], i % 4)
            } else {
                0
            },
    )
}

/// Packs words into the byte block that the device expects.
pub fn push(words: &Vec<u32>) -> (r: Vec<u8>)
    requires
        words@.len() * 4 <= PUSH_MAX,
    ensures
        r@ == block_of(words@),
{
    let mut out: Vec<u8> = Vec::new();
    let ghost want = block_of(words@);
    while out.len() < PUSH_MAX
        invariant
            want == block_of(words@),
            out@.len() <= 128,
            out@ == want.take(out@.len() as int),
        decreases 128 - out@.len(),
    {
        let i = out.len();
        let b = if i / 4 < words.len() {
            crate::cpu::machine::byte_at(words[i / 4], i % 4)
        } else {
            0
        };
        out.push(b);
        assert(out@ =~= want.take(out@.len() as int));
    }
    assert(want.take(128) =~= want);
    out
}

// ------------------------------------------------------------------------------- what is held

/// A buffer by its handle.
#[derive(Debug, Clone, Copy)]
pub struct VkBuf {
    pub handle: u64,
    pub bytes: u64,
}

/// A weight in device memory, in its own block layout.
#[derive(Debug, Clone, Copy)]
pub struct VkWeight {
    pub handle: u64,
    pub dtype: DType,
    pub rows: usize,
    pub cols: usize,
}

impl VkWeight {
    pub open spec fn row_len(self) -> nat {
        self.dtype.bytes_for(self.cols as nat)
    }

    pub fn row_bytes(&self) -> (r: usize)
        requires
            self.row_len() <= usize::MAX,
        ensures
            r == self.row_len(),
    {
        self.dtype.row_bytes(self.cols)
    }
}

/// The buffers and weights of a device.
pub struct VulkanBackend {
    pub buffers: Slots<VkBuf>,
    pub weights: Slots<VkWeight>,
    /// A valid buffer to bind where a shader declares an input that there is none for.
    pub null: u64,
}

/// One dispatch.
pub struct Dispatch {
    pub kernel: Kernel,
    pub buffers: Vec<u64>,
    pub push: Vec<u32>,
    pub groups: (u32, u32, u32),
}

/// The mathematical value of a [`Dispatch`].
pub struct DispatchView {
    pub kernel: Kernel,
    pub buffers: Seq<u64>,
    pub push: Seq<u32>,
    pub groups: (u32, u32, u32),
}

impl View for Dispatch {
    type V = DispatchView;

    open spec fn view(&self) -> DispatchView {
        DispatchView {
            kernel: self.kernel,
            buffers: self.buffers@,
            push: self.push@,
            groups: self.groups,
        }
    }
}

pub type Steps = Seq<Step<DispatchView>>;

pub type Bufs = Map<u32, VkBuf>;

pub open spec fn missing_buffer(id: u32) -> ErrorView {
    ErrorView::Backend {
        device: "vulkan"@,
        detail: "buffer "@ + dec(id as nat) + " is not allocated"@,
    }
}

pub open spec fn missing_weight(id: u32) -> ErrorView {
    ErrorView::Backend {
        device: "vulkan"@,
        detail: "weight "@ + dec(id as nat) + " is not uploaded"@,
    }
}

pub open spec fn need_buffer(b: Bufs, id: BufferId) -> Step<DispatchView> {
    Step::Need(
        if b.dom().contains(id.0) {
            None
        } else {
            Some(missing_buffer(id.0))
        },
    )
}

pub open spec fn need_opt(b: Bufs, id: Option<BufferId>) -> Step<DispatchView> {
    match id {
        Some(x) => need_buffer(b, x),
        None => Step::Need(None),
    }
}

pub open spec fn need_weight(w: Map<u32, VkWeight>, id: WeightId) -> Step<DispatchView> {
    Step::Need(
        if w.dom().contains(id.0) {
            None
        } else {
            Some(missing_weight(id.0))
        },
    )
}

/// The handle of a buffer.
pub open spec fn at(b: Bufs, id: BufferId) -> u64 {
    if b.dom().contains(id.0) {
        b[id.0].handle
    } else {
        0
    }
}

/// The handle of a buffer that may not be wanted.
pub open spec fn opt_at(b: Bufs, null: u64, id: Option<BufferId>) -> u64 {
    match id {
        Some(x) => at(b, x),
        None => null,
    }
}

pub open spec fn weight_at(w: Map<u32, VkWeight>, id: WeightId) -> VkWeight {
    if w.dom().contains(id.0) {
        w[id.0]
    } else {
        VkWeight { handle: 0, dtype: DType::F32, rows: 0, cols: 0 }
    }
}

pub open spec fn flag(b: bool) -> u32 {
    if b {
        1
    } else {
        0
    }
}

/// There is no dispatch of no groups.
pub open spec fn some(n: u32) -> u32 {
    if n > 1 {
        n
    } else {
        1
    }
}

pub open spec fn dispatch(
    kernel: Kernel,
    buffers: Seq<u64>,
    push: Seq<u32>,
    g: (u32, u32, u32),
) -> Step<DispatchView> {
    Step::Do(DispatchView { kernel, buffers, push, groups: (some(g.0), some(g.1), some(g.2)) })
}

/// The buffers and weights that a plan is drawn up from.
pub struct Stock {
    pub b: Bufs,
    pub w: Map<u32, VkWeight>,
    pub null: u64,
}

fn at_least_one(n: u32) -> (r: u32)
    ensures
        r == some(n),
{
    if n > 1 {
        n
    } else {
        1
    }
}

pub(crate) fn flag_of(b: bool) -> (r: u32)
    ensures
        r == flag(b),
{
    if b {
        1
    } else {
        0
    }
}

pub(crate) fn dispatch_of(kernel: Kernel, buffers: Vec<u64>, push: Vec<u32>, g: (u32, u32, u32)) -> (r: Dispatch)
    ensures
        Step::Do(r@) == dispatch(kernel, buffers@, push@, g),
{
    Dispatch {
        kernel,
        buffers,
        push,
        groups: (at_least_one(g.0), at_least_one(g.1), at_least_one(g.2)),
    }
}

/// The size that a scratch buffer grows to, or nothing where it is large enough.
pub fn grown(have: u64, bytes: u64) -> (r: Option<u64>)
    requires
        bytes <= 0x8000_0000_0000_0000,
    ensures
        if have >= bytes {
            r is None
        } else {
            r == Some(next_power(bytes as int) as u64)
        },
        r matches Some(n) ==> n >= bytes,
{
    if have >= bytes {
        None
    } else {
        Some(next_power_of_two(bytes))
    }
}

impl VulkanBackend {
    pub open spec fn wf(self) -> bool {
        &&& self.buffers.wf()
        &&& self.weights.wf()
        &&& forall|i: u32| #[trigger]
            self.weights@.dom().contains(i) ==> self.weights@[i].row_len() <= usize::MAX
    }

    pub open spec fn stock(self) -> Stock {
        Stock { b: self.buffers@, w: self.weights@, null: self.null }
    }

    pub fn new(null: u64) -> (r: Self)
        ensures
            r.wf(),
            r.buffers@ == Map::<u32, VkBuf>::empty(),
            r.weights@ == Map::<u32, VkWeight>::empty(),
            r.buffers.items@.len() == 0,
            r.buffers.free@.len() == 0,
            r.weights.items@.len() == 0,
            r.weights.free@.len() == 0,
            r.null == null,
    {
        VulkanBackend { buffers: Slots::new(), weights: Slots::new(), null }
    }

    /// Notes a buffer that was made. No buffer is smaller than 16 bytes.
    pub fn allocated(&mut self, handle: u64, bytes: u64) -> (r: BufferId)
        requires
            old(self).wf(),
            old(self).buffers.items@.len() < u32::MAX,
        ensures
            final(self).wf(),
            final(self).weights == old(self).weights,
            final(self).null == old(self).null,
            r.0 == old(self).buffers.next(),
            !old(self).buffers@.dom().contains(r.0),
            final(self).buffers.free@ == old(self).buffers.free_after_place(),
            final(self).buffers.items@.len() == old(self).buffers.places_after_place(),
            final(self).buffers@ == old(self).buffers@.insert(
                r.0,
                VkBuf {
                    handle,
                    bytes: if bytes > 16 {
                        bytes
                    } else {
                        16
                    },
                },
            ),
    {
        let bytes = if bytes > 16 {
            bytes
        } else {
            16
        };
        BufferId(self.buffers.place(VkBuf { handle, bytes }))
    }

    /// Forgets a buffer; what is returned is to be destroyed.
    pub fn free(&mut self, id: BufferId) -> (r: Option<VkBuf>)
        requires
            old(self).wf(),
        ensures
            final(self).wf(),
            final(self).weights == old(self).weights,
            final(self).null == old(self).null,
            final(self).buffers@ == old(self).buffers@.remove(id.0),
            final(self).buffers.free@ == old(self).buffers.free_after_remove(id.0),
            final(self).buffers.items@.len() == old(self).buffers.items@.len(),
            r == if old(self).buffers@.dom().contains(id.0) {
                Some(old(self).buffers@[id.0])
            } else {
                None
            },
    {
        self.buffers.remove(id.0)
    }

    /// Why a weight cannot be taken on.
    pub fn refuse_weight(dtype: DType) -> (r: Option<Error>)
        ensures
            fault_view(r) == if dtype.has_codebook() {
                Some(dtype.refusal())
            } else if suffix_of(dtype) is None {
                Some(
                    ErrorView::Unsupported(
                        dtype.label() + " has no Vulkan shader; run this model on --device cpu"@,
                    ),
                )
            } else {
                None
            },
    {
        match dtype.check_supported() {
            Ok(_) => {},
            Err(e) => {
                return Some(e);
            },
        }
        if supports(dtype) {
            None
        } else {
            Some(
                Error::Unsupported(
                    cat2(dtype.name(), " has no Vulkan shader; run this model on --device cpu"),
                ),
            )
        }
    }

    /// Notes a weight that was uploaded.
    pub fn uploaded(&mut self, handle: u64, view: &QuantView<'_>) -> (r: WeightId)
        requires
            old(self).wf(),
            old(self).weights.items@.len() < u32::MAX,
            view.row_len() <= usize::MAX,
        ensures
            final(self).wf(),
            final(self).buffers == old(self).buffers,
            final(self).null == old(self).null,
            r.0 == old(self).weights.next(),
            !old(self).weights@.dom().contains(r.0),
            final(self).weights.free@ == old(self).weights.free_after_place(),
            final(self).weights.items@.len() == old(self).weights.places_after_place(),
            final(self).weights@ == old(self).weights@.insert(
                r.0,
                VkWeight { handle, dtype: view.dtype, rows: view.rows, cols: view.cols },
            ),
    {
        WeightId(
            self.weights.place(
                VkWeight { handle, dtype: view.dtype, rows: view.rows, cols: view.cols },
            ),
        )
    }

    pub fn free_weight(&mut self, id: WeightId) -> (r: Option<VkWeight>)
        requires
            old(self).wf(),
        ensures
            final(self).wf(),
            final(self).buffers == old(self).buffers,
            final(self).null == old(self).null,
            final(self).weights@ == old(self).weights@.remove(id.0),
            final(self).weights.free@ == old(self).weights.free_after_remove(id.0),
            final(self).weights.items@.len() == old(self).weights.items@.len(),
            r == if old(self).weights@.dom().contains(id.0) {
                Some(old(self).weights@[id.0])
            } else {
                None
            },
    {
        self.weights.remove(id.0)
    }

    pub(crate) fn no_buffer(&self, id: BufferId) -> (r: Option<Error>)
        ensures
            Step::<DispatchView>::Need(fault_view(r)) == need_buffer(self.buffers@, id),
    {
        match self.buffers.get(id.0) {
            Some(_) => None,
            None => Some(
                backend_err(
                    "vulkan",
                    cat3("buffer ", decimal(id.0 as u64).as_str(), " is not allocated"),
                ),
            ),
        }
    }

    pub(crate) fn no_opt(&self, id: Option<BufferId>) -> (r: Option<Error>)
        ensures
            Step::<DispatchView>::Need(fault_view(r)) == need_opt(self.buffers@, id),
    {
        match id {
            Some(x) => self.no_buffer(x),
            None => None,
        }
    }

    pub(crate) fn no_weight(&self, id: WeightId) -> (r: Option<Error>)
        ensures
            Step::<DispatchView>::Need(fault_view(r)) == need_weight(self.weights@, id),
    {
        match self.weights.get(id.0) {
            Some(_) => None,
            None => Some(
                backend_err(
                    "vulkan",
                    cat3("weight ", decimal(id.0 as u64).as_str(), " is not uploaded"),
                ),
            ),
        }
    }

    /// The handle of a buffer, zero where there is none.
    pub fn handle(&self, id: BufferId) -> (r: u64)
        ensures
            r == at(self.buffers@, id),
    {
        match self.buffers.get(id.0) {
            Some(b) => b.handle,
            None => 0,
        }
    }

    pub fn opt_handle(&self, id: Option<BufferId>) -> (r: u64)
        ensures
            r == opt_at(self.buffers@, self.null, id),
    {
        match id {
            Some(x) => self.handle(x),
            None => self.null,
        }
    }

    pub(crate) fn weight(&self, id: WeightId) -> (r: VkWeight)
        requires
            self.wf(),
        ensures
            r == weight_at(self.weights@, id),
            r.row_len() <= usize::MAX,
    {
        match self.weights.get(id.0) {
            Some(w) => *w,
            None => VkWeight { handle: 0, dtype: DType::F32, rows: 0, cols: 0 },
        }
    }
}

} // verus!
