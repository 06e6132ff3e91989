//! Which Vulkan device is used, with which memory, and how transfers to it are cut.

use vstd::prelude::*;
use vstd::string::*;

use super::cuda::{next_power, next_power_of_two};
use crate::device::{Caps, DeviceInfo, DeviceKind};
use crate::error::{Error, ErrorView};
use crate::sample::{falls, placed, top, top_keeps_the_highest};
use crate::text::{cat5, dec, decimal, own};

verus! {

/// What kind of device one is.
#[derive(Debug, Clone, Copy, PartialEq, Eq, Structural)]
pub enum DeviceType {
    Discrete,
    Integrated,
    Virtual,
    Cpu,
    Other,
}

pub open spec fn score_of(t: DeviceType) -> int {
    match t {
        DeviceType::Discrete => 4,
        DeviceType::Integrated => 3,
        DeviceType::Virtual => 2,
        DeviceType::Cpu => 1,
        DeviceType::Other => 0,
    }
}

/// How much a kind of device is preferred.
pub fn score(t: DeviceType) -> (r: u32)
    ensures
        r == score_of(t),
{
    match t {
        DeviceType::Discrete => 4,
        DeviceType::Integrated => 3,
        DeviceType::Virtual => 2,
        DeviceType::Cpu => 1,
        DeviceType::Other => 0,
    }
}

/// A heap of device memory.
#[derive(Debug, Clone, Copy)]
pub struct Heap {
    pub size: u64,
    pub device_local: bool,
}

/// The memory of the first `n` heaps that are the device's own, which is what matters for
/// whether a model fits.
pub open spec fn local_total(h: Seq<Heap>, n: nat) -> int
    decreases n,
{
    if n == 0 || n > h.len() {
        0
    } else {
        local_total(h, (n - 1) as nat) + if h[n - 1].device_local {
            h[n - 1].size as int
        } else {
            0
        }
    }
}

proof fn local_total_grows(h: Seq<Heap>, i: nat, n: nat)
    requires
        i <= n <= h.len(),
    ensures
        0 <= local_total(h, i) <= local_total(h, n),
    decreases n,
{
    if i < n {
        local_total_grows(h, i, (n - 1) as nat);
    } else if n > 0 {
        local_total_grows(h, (n - 1) as nat, (n - 1) as nat);
    }
}

pub fn total_memory(h: &Vec<Heap>) -> (r: u64)
    requires
        local_total(h@, h@.len()) <= u64::MAX,
    ensures
        r == local_total(h@, h@.len()),
{
    let mut sum: u64 = 0;
    let mut i: usize = 0;
    while i < h.len()
        invariant
            i <= h@.len(),
            local_total(h@, h@.len()) <= u64::MAX,
            sum == local_total(h@, i as nat),
        decreases h@.len() - i,
    {
        proof {
            local_total_grows(h@, (i + 1) as nat, h@.len());
        }
        if h[i].device_local {
            sum = sum + h[i].size;
        }
        i = i + 1;
    }
    sum
}

/// What a device is preferred by.
#[derive(Debug, Clone, Copy, PartialEq, Eq, Structural)]
pub struct Candidate {
    pub score: u32,
    pub total: u64,
}

/// The preference as one number: the score decides, then the memory.
pub open spec fn weight_of(c: Candidate) -> int {
    c.score * 0x1_0000_0000_0000_0000 + c.total
}

pub open spec fn weights_of(c: Seq<Candidate>) -> Seq<int> {
    Seq::new(c.len(), |i: int| weight_of(c[i]))
}

/// The devices, the most preferred first; equals stay in their order.
pub open spec fn preference(c: Seq<Candidate>) -> Seq<usize> {
    top(weights_of(c), c.len(), c.len())
}

/// Every device is in the order of preference, and no one comes before a better one.
pub proof fn preference_falls(c: Seq<Candidate>)
    requires
        c.len() <= usize::MAX,
    ensures
        falls(preference(c), weights_of(c)),
        preference(c).len() == c.len(),
{
    top_keeps_the_highest(weights_of(c), c.len(), c.len());
}

fn below(a: &Candidate, b: &Candidate) -> (r: bool)
    ensures
        r == (weight_of(*a) < weight_of(*b)),
{
    a.score < b.score || (a.score == b.score && a.total < b.total)
}

/// Puts device `i` behind every one that is not less preferred.
fn place(s: &mut Vec<usize>, c: &Vec<Candidate>, i: usize)
    requires
        i < c@.len(),
        forall|a: int| 0 <= a < old(s)@.len() ==> (#[trigger] old(s)@[a]) < c@.len(),
    ensures
        final(s)@ == placed(old(s)@, weights_of(c@), i),
        forall|a: int| 0 <= a < final(s)@.len() ==> (#[trigger] final(s)@[a]) < c@.len(),
    decreases old(s)@.len(),
{
    let ghost k = weights_of(c@);
    let ghost before = s@;
    if s.len() == 0 {
        s.push(i);
        assert(s@ =~= seq![i]);
        return;
    }
    let last = s[s.len() - 1];
    if below(&c[last], &c[i]) {
        s.pop();
        assert(s@ =~= before.drop_last());
        place(s, c, i);
        s.push(last);
    } else {
        s.push(i);
    }
}

/// The devices, the most preferred first.
pub fn order(c: &Vec<Candidate>) -> (r: Vec<usize>)
    ensures
        r@ == preference(c@),
        r@.len() == c@.len(),
        forall|a: int| 0 <= a < r@.len() ==> (#[trigger] r@[a]) < c@.len(),
{
    let ghost k = weights_of(c@);
    let n = c.len();
    let mut s: Vec<usize> = Vec::new();
    let mut i: usize = 0;
    while i < n
        invariant
            n == c@.len(),
            k == weights_of(c@),
            i <= n,
            s@ == top(k, i as nat, n as nat),
            forall|a: int| 0 <= a < s@.len() ==> (#[trigger] s@[a]) < n,
        decreases n - i,
    {
        place(&mut s, c, i);
        proof {
            top_keeps_the_highest(k, i as nat, n as nat);
            placed_len(top(k, i as nat, n as nat), k, i);
        }
        i = i + 1;
    }
    proof {
        preference_falls(c@);
    }
    s
}

proof fn placed_len(s: Seq<usize>, k: Seq<int>, i: usize)
    ensures
        placed(s, k, i).len() == s.len() + 1,
    decreases s.len(),
{
    if s.len() > 0 && k[s.last() as int] < k[i as int] {
        placed_len(s.drop_last(), k, i);
    }
}

/// Why device `index` of `n` cannot be used.
pub open spec fn device_fault(index: u32, n: nat) -> Option<ErrorView> {
    if n == 0 {
        Some(ErrorView::NoDevice("Vulkan reports no devices"@))
    } else if index >= n {
        Some(
            ErrorView::NoDevice(
                "vulkan:"@ + dec(index as nat) + " was requested but only "@ + dec(n)
                    + " device(s) are present"@,
            ),
        )
    } else {
        None
    }
}

/// The device that is meant by an index: index 0 is the best one present.
pub fn pick(c: &Vec<Candidate>, index: u32) -> (r: Result<usize, Error>)
    ensures
        match device_fault(index, c@.len()) {
            Some(e) => r is Err && r->Err_0@ == e,
            None => r is Ok && r->Ok_0 == preference(c@)[index as int] && r->Ok_0 < c@.len(),
        },
{
    if c.len() == 0 {
        return Err(Error::NoDevice(own("Vulkan reports no devices")));
    }
    if index as usize >= c.len() {
        return Err(
            Error::NoDevice(
                cat5(
                    "vulkan:",
                    decimal(index as u64).as_str(),
                    " was requested but only ",
                    decimal(c.len() as u64).as_str(),
                    " device(s) are present",
                ),
            ),
        );
    }
    let s = order(c);
    Ok(s[index as usize])
}

/// The first queue family from `i` on that computes.
pub open spec fn computing(f: Seq<bool>, i: nat) -> Option<nat>
    decreases f.len() - i,
{
    if i >= f.len() {
        None
    } else if f[i as int] {
        Some(i)
    } else {
        computing(f, i + 1)
    }
}

/// The queue family to use, by which of them compute.
pub fn compute_family(f: &Vec<bool>) -> (r: Result<usize, Error>)
    ensures
        match computing(f@, 0) {
            Some(i) => r is Ok && r->Ok_0 == i,
            None => r is Err && r->Err_0@ == ErrorView::NoDevice(
                "this Vulkan device has no compute queue"@,
            ),
        },
{
    let mut i: usize = 0;
    while i < f.len()
        invariant
            i <= f@.len(),
            computing(f@, 0) == computing(f@, i as nat),
        decreases f@.len() - i,
    {
        if f[i] {
            return Ok(i);
        }
        i = i + 1;
    }
    Err(Error::NoDevice(own("this Vulkan device has no compute queue")))
}

/// The first type of memory from `i` on that has every property wanted.
pub open spec fn fitting(types: Seq<u32>, want: u32, i: nat) -> Option<nat>
    decreases types.len() - i,
{
    if i >= types.len() {
        None
    } else if types[i as int] & want == want {
        Some(i)
    } else {
        fitting(types, want, i + 1)
    }
}

/// The type of memory to use, by the properties of each.
pub fn find_memory(types: &Vec<u32>, want: u32) -> (r: Option<usize>)
    ensures
        match fitting(types@, want, 0) {
            Some(i) => r == Some(i as usize) && i < types@.len(),
            None => r is None,
        },
{
    let mut i: usize = 0;
    while i < types.len()
        invariant
            i <= types@.len(),
            fitting(types@, want, 0) == fitting(types@, want, i as nat),
        decreases types@.len() - i,
    {
        if types[i] & want == want {
            return Some(i);
        }
        i = i + 1;
    }
    None
}

/// What is known of a device. The portable shader path is single precision; integer dots need an
/// extension that is deliberately not required.
pub fn device_info(
    index: u32,
    name: String,
    total: u64,
    invocations: u32,
    shared: u32,
) -> (r: DeviceInfo)
    ensures
        r == (DeviceInfo {
            kind: DeviceKind::Vulkan,
            index,
            name,
            total_memory: total,
            free_memory: total,
            caps: Caps {
                int8_dot: false,
                f16_math: false,
                matrix_cores: false,
                max_threads_per_block: invocations,
                shared_mem_per_block: shared,
                warp_size: 32,
                multiprocessors: 0,
            },
        }),
{
    DeviceInfo {
        kind: DeviceKind::Vulkan,
        index,
        name,
        total_memory: total,
        free_memory: total,
        caps: Caps {
            int8_dot: false,
            f16_math: false,
            matrix_cores: false,
            max_threads_per_block: invocations,
            shared_mem_per_block: shared,
            warp_size: 32,
            multiprocessors: 0,
        },
    }
}

// ------------------------------------------------------------------------------ transfers

/// The bytes of a chunk of a transfer.
pub const CHUNK: usize = 0x400_0000;

/// A part of a transfer.
#[derive(Debug, Clone, Copy, PartialEq, Eq, Structural)]
pub struct Part {
    pub at: usize,
    pub n: usize,
}

/// The parts of a transfer from `at` on. Large weights are copied in chunks so that the staging
/// buffer does not have to match the largest tensor of a model.
pub open spec fn parts_from(at: int, len: int) -> Seq<Part>
    decreases
            if len > at {
                len - at
            } else {
                0
            },
{
    if at >= len || at < 0 {
        Seq::empty()
    } else {
        let n = if len - at < CHUNK {
            len - at
        } else {
            CHUNK as int
        };
        seq![Part { at: at as usize, n: n as usize }] + parts_from(at + n, len)
    }
}

/// The parts follow one another and cover the whole transfer.
pub proof fn parts_cover_the_transfer(at: int, len: int, i: int)
    requires
        0 <= at <= len <= usize::MAX,
        0 <= i < parts_from(at, len).len(),
    ensures
        parts_from(at, len)[0].at == at,
        parts_from(at, len)[i].n > 0,
        parts_from(at, len)[i].n <= CHUNK,
        if i + 1 < parts_from(at, len).len() {
            parts_from(at, len)[i + 1].at == parts_from(at, len)[i].at + parts_from(at, len)[i].n
        } else {
            parts_from(at, len)[i].at + parts_from(at, len)[i].n == len
        },
    decreases len - at,
{
    let n = if len - at < CHUNK {
        len - at
    } else {
        CHUNK as int
    };
    let rest = parts_from(at + n, len);
    assert(parts_from(at, len) =~= seq![Part { at: at as usize, n: n as usize }] + rest);
    if i > 0 {
        parts_cover_the_transfer(at + n, len, i - 1);
        assert(parts_from(at, len)[i] == rest[i - 1]);
        if i + 1 < parts_from(at, len).len() {
            assert(parts_from(at, len)[i + 1] == rest[i]);
        }
    } else if rest.len() > 0 {
        parts_cover_the_transfer(at + n, len, 0);
        assert(parts_from(at, len)[1] == rest[0]);
    }
}

/// The parts that `len` bytes are transferred in.
pub fn upload_parts(len: usize) -> (r: Vec<Part>)
    ensures
        r@ == parts_from(0, len as int),
{
    let mut out: Vec<Part> = Vec::new();
    let mut at: usize = 0;
    assert(out@ + parts_from(0, len as int) =~= parts_from(0, len as int));
    while at < len
        invariant
            at <= len,
            out@ + parts_from(at as int, len as int) == parts_from(0, len as int),
        decreases len - at,
    {
        let ghost before = out@;
        let n = if len - at < CHUNK {
            len - at
        } else {
            CHUNK
        };
        out.push(Part { at, n });
        assert(out@ + parts_from(at + n, len as int) =~= before + parts_from(
            at as int,
            len as int,
        ));
        at = at + n;
    }
    assert(out@ =~= out@ + parts_from(at as int, len as int));
    out
}

/// The size that the staging buffer is made anew with, or nothing where the one there is holds
/// `bytes` bytes.
pub fn staging_size(have: Option<u64>, bytes: u64) -> (r: Option<u64>)
    requires
        bytes <= 0x8000_0000_0000_0000,
    ensures
        if have matches Some(h) && h >= bytes {
            r is None
        } else if next_power(bytes as int) > 0x10_0000 {
            r == Some(next_power(bytes as int) as u64)
        } else {
            r == Some(0x10_0000u64)
        },
{
    match have {
        Some(h) => {
            if h >= bytes {
                return None;
            }
        },
        None => {},
    }
    let p = next_power_of_two(bytes);
    Some(
        if p > 0x10_0000 {
            p
        } else {
            0x10_0000
        },
    )
}

} // verus!
