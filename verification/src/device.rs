//! Devices and handles to what they own.

use vstd::prelude::*;
use vstd::string::*;

use crate::text::{cat3, dec, decimal};

verus! {

#[derive(Debug, Clone, Copy, PartialEq, Eq, Hash, Structural)]
pub enum DeviceKind {
    Cpu,
    Cuda,
    Vulkan,
}

impl DeviceKind {
    /// The name of the kind.
    pub open spec fn label(self) -> Seq<char> {
        match self {
            DeviceKind::Cpu => "cpu"@,
            DeviceKind::Cuda => "cuda"@,
            DeviceKind::Vulkan => "vulkan"@,
        }
    }

    pub fn as_str(self) -> (r: &'static str)
        ensures
            r@ == self.label(),
    {
        match self {
            DeviceKind::Cpu => "cpu",
            DeviceKind::Cuda => "cuda",
            DeviceKind::Vulkan => "vulkan",
        }
    }
}

/// What a device can do that changes which kernel variant is picked.
#[derive(Debug, Clone, Copy)]
pub struct Caps {
    /// 8-bit integer dot product with 32-bit accumulate. Gates the quantized-activation
    /// matmul path.
    pub int8_dot: bool,
    /// Native half-precision arithmetic, not just half-precision storage.
    pub f16_math: bool,
    /// Tensor cores / cooperative matrix, used for batched prefill.
    pub matrix_cores: bool,
    pub max_threads_per_block: u32,
    pub shared_mem_per_block: u32,
    /// Warp / subgroup / SIMD width.
    pub warp_size: u32,
    pub multiprocessors: u32,
}

impl Default for Caps {
    fn default() -> (r: Caps)
        ensures
            r == (Caps {
                int8_dot: false,
                f16_math: false,
                matrix_cores: false,
                max_threads_per_block: 0,
                shared_mem_per_block: 0,
                warp_size: 0,
                multiprocessors: 0,
            }),
    {
        Caps {
            int8_dot: false,
            f16_math: false,
            matrix_cores: false,
            max_threads_per_block: 0,
            shared_mem_per_block: 0,
            warp_size: 0,
            multiprocessors: 0,
        }
    }
}

#[derive(Debug, Clone)]
pub struct DeviceInfo {
    pub kind: DeviceKind,
    pub index: u32,
    pub name: String,
    pub total_memory: u64,
    pub free_memory: u64,
    pub caps: Caps,
}

/// `s`, with spaces behind it up to `width` characters.
pub open spec fn pad_right(s: Seq<char>, width: nat) -> Seq<char> {
    if s.len() >= width {
        s
    } else {
        s + Seq::new((width - s.len()) as nat, |i: int| ' ')
    }
}

/// `s`, with spaces before it up to `width` characters.
pub open spec fn pad_left(s: Seq<char>, width: nat) -> Seq<char> {
    if s.len() >= width {
        s
    } else {
        Seq::new((width - s.len()) as nat, |i: int| ' ') + s
    }
}

/// `n` spaces.
fn spaces(n: usize) -> (r: String)
    ensures
        r@ == Seq::new(n as nat, |i: int| ' '),
{
    let mut out = String::new();
    let mut i: usize = 0;
    while i < n
        invariant
            i <= n,
            out@ =~= Seq::new(i as nat, |k: int| ' '),
        decreases n - i,
    {
        out.push(' ');
        i = i + 1;
    }
    out
}

/// `s` with spaces behind it up to `width` characters.
pub fn padded_right(s: &str, width: usize) -> (r: String)
    ensures
        r@ == pad_right(s@, width as nat),
{
    let n = s.unicode_len();
    if n >= width {
        crate::text::own(s)
    } else {
        crate::text::cat2(s, spaces(width - n).as_str())
    }
}

/// `s` with spaces before it up to `width` characters.
pub fn padded_left(s: &str, width: usize) -> (r: String)
    ensures
        r@ == pad_left(s@, width as nat),
{
    let n = s.unicode_len();
    if n >= width {
        crate::text::own(s)
    } else {
        crate::text::cat2(spaces(width - n).as_str(), s)
    }
}

impl DeviceInfo {
    /// The name by which the device is selected.
    pub open spec fn ident(self) -> Seq<char> {
        self.kind.label() + ":"@ + dec(self.index as nat)
    }

    pub fn id(&self) -> (r: String)
        ensures
            r@ == self.ident(),
    {
        cat3(self.kind.as_str(), ":", decimal(self.index as u64).as_str())
    }

    /// The line that lists the device.
    pub fn line(&self) -> (r: String)
        ensures
            r@ == pad_right(self.ident(), 10) + " "@ + pad_right(self.name@, 40) + " "@ + pad_left(
                dec((self.total_memory / 1048576) as nat),
                6,
            ) + " MiB"@,
    {
        let mut out = padded_right(self.id().as_str(), 10);
        out.append(" ");
        out.append(padded_right(self.name.as_str(), 40).as_str());
        out.append(" ");
        out.append(padded_left(decimal(self.total_memory / 1048576).as_str(), 6).as_str());
        out.append(" MiB");
        out
    }
}

/// Opaque handle to a backend-owned activation/scratch buffer.
#[derive(Debug, Clone, Copy, PartialEq, Eq, Hash, Structural)]
pub struct BufferId(pub u32);

/// Opaque handle to a backend-owned weight, stored in its native quantized layout.
#[derive(Debug, Clone, Copy, PartialEq, Eq, Hash, Structural)]
pub struct WeightId(pub u32);

#[derive(Debug, Clone, Copy, PartialEq, Eq, Structural)]
pub enum MemKind {
    /// Device-local, not host mappable. The default for activations and weights.
    Device,
    /// Host-visible staging memory written by the CPU and read by the device.
    Upload,
    /// Host-visible memory the device writes and the CPU reads back.
    Download,
}

} // verus!
