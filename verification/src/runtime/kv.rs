//! The key/value cache.

use vstd::prelude::*;

use crate::backend::KvView;
use crate::device::BufferId;
use crate::dtype::DType;

verus! {

/// Bytes of one buffer of a layer.
pub open spec fn layer_size(n_ctx: nat, n_seq: nat, stride: nat, dtype: DType) -> nat {
    n_ctx * n_seq * stride * dtype.block_bytes()
}

/// Key/value cache for every layer and sequence.
///
/// One buffer per layer holds all sequences side by side; a sequence's region starts at
/// `seq * n_ctx` token slots. Keeping sequences in one allocation rather than one per sequence
/// means a single buffer per layer regardless of parallelism, which matters because GPU
/// allocations are a scarcer resource than GPU bytes.
#[derive(Debug)]
pub struct KvCache {
    pub k: Vec<BufferId>,
    pub v: Vec<BufferId>,
    pub stride: u32,
    pub n_ctx: u32,
    pub n_seq: u32,
    pub dtype: DType,
}

/// Bytes to allocate for each of the two buffers of a layer; none where they cannot be
/// counted.
pub fn layer_bytes(n_ctx: usize, n_seq: usize, stride: usize, dtype: DType) -> (r: Option<u64>)
    ensures
        match r {
            Some(n) => n == layer_size(n_ctx as nat, n_seq as nat, stride as nat, dtype),
            None => layer_size(n_ctx as nat, n_seq as nat, stride as nat, dtype) > u64::MAX || (
            n_ctx as nat * n_seq as nat) > u64::MAX || (n_ctx as nat * n_seq as nat
                * stride as nat) > u64::MAX,
        },
{
    let size = dtype.type_size() as u64;
    match (n_ctx as u64).checked_mul(n_seq as u64) {
        None => None,
        Some(a) => match a.checked_mul(stride as u64) {
            None => None,
            Some(b) => b.checked_mul(size),
        },
    }
}

impl KvCache {
    /// Both lists have a buffer for each layer, the slots of all sequences can be counted, and
    /// so can the bytes.
    pub open spec fn wf(self) -> bool {
        &&& self.k@.len() == self.v@.len()
        &&& self.n_ctx * self.n_seq <= u32::MAX
        &&& self.k@.len() * 2 * layer_size(
            self.n_ctx as nat,
            self.n_seq as nat,
            self.stride as nat,
            self.dtype,
        ) <= u64::MAX
    }

    /// The cache over buffers that were allocated in turn, keys and values, layer by layer.
    pub fn new(
        buffers: &Vec<BufferId>,
        n_ctx: u32,
        n_seq: u32,
        stride: u32,
        dtype: DType,
    ) -> (r: Self)
        requires
            buffers@.len() % 2 == 0,
            n_ctx * n_seq <= u32::MAX,
            buffers@.len() * layer_size(n_ctx as nat, n_seq as nat, stride as nat, dtype)
                <= u64::MAX,
        ensures
            r.wf(),
            r.k@.len() == buffers@.len() / 2,
            forall|i: int| 0 <= i < r.k@.len() ==> (#[trigger] r.k@[i]) == buffers@[2 * i],
            forall|i: int| 0 <= i < r.v@.len() ==> (#[trigger] r.v@[i]) == buffers@[2 * i + 1],
            r.n_ctx == n_ctx,
            r.n_seq == n_seq,
            r.stride == stride,
            r.dtype == dtype,
    {
        let mut k: Vec<BufferId> = Vec::new();
        let mut v: Vec<BufferId> = Vec::new();
        let n = buffers.len() / 2;
        let mut i: usize = 0;
        while i < n
            invariant
                n == buffers@.len() / 2,
                i <= n,
                k@.len() == i,
                v@.len() == i,
                forall|j: int| 0 <= j < i ==> (#[trigger] k@[j]) == buffers@[2 * j],
                forall|j: int| 0 <= j < i ==> (#[trigger] v@[j]) == buffers@[2 * j + 1],
            decreases n - i,
        {
            let len = buffers.len();
            k.push(buffers[2 * i]);
            v.push(buffers[2 * i + 1]);
            i = i + 1;
        }
        KvCache { k, v, stride, n_ctx, n_seq, dtype }
    }

    pub fn n_seq(&self) -> (r: usize)
        ensures
            r == self.n_seq,
    {
        self.n_seq as usize
    }

    pub fn n_ctx(&self) -> (r: usize)
        ensures
            r == self.n_ctx,
    {
        self.n_ctx as usize
    }

    /// Total bytes across every layer.
    pub fn bytes(&self) -> (r: u64)
        requires
            self.wf(),
        ensures
            r == self.k@.len() * 2 * layer_size(
                self.n_ctx as nat,
                self.n_seq as nat,
                self.stride as nat,
                self.dtype,
            ),
    {
        if self.k.len() == 0 {
            let ghost per = layer_size(
                self.n_ctx as nat,
                self.n_seq as nat,
                self.stride as nat,
                self.dtype,
            ) as int;
            assert(0 * 2 * per == 0) by (nonlinear_arith);
            return 0;
        }
        let ghost c = self.n_ctx as int;
        let ghost q = self.n_seq as int;
        let ghost s = self.stride as int;
        let ghost b = self.dtype.block_bytes() as int;
        let ghost l = self.k@.len() as int;
        let size = self.dtype.type_size() as u64;
        proof {
            assert(c * q * s * b <= l * 2 * (c * q * s * b)) by (nonlinear_arith)
                requires
                    l >= 1,
                    c >= 0,
                    q >= 0,
                    s >= 0,
                    b >= 0,
            ;
            assert(0 <= c * q * s <= c * q * s * b) by (nonlinear_arith)
                requires
                    c >= 0,
                    q >= 0,
                    s >= 0,
                    b >= 1,
            ;
            assert(l * 2 <= l * 2 * (c * q * s * b) || c * q * s * b == 0) by (nonlinear_arith)
                requires
                    l >= 0,
                    c * q * s * b >= 0,
            ;
        }
        let slots = self.n_ctx as u64 * self.n_seq as u64;
        let per = slots * self.stride as u64 * size;
        if per == 0 {
            assert(l * 2 * (c * q * s * b) == 0) by (nonlinear_arith)
                requires
                    c * q * s * b == 0,
            ;
            return 0;
        }
        self.k.len() as u64 * 2 * per
    }

    pub fn dtype(&self) -> (r: DType)
        ensures
            r == self.dtype,
    {
        self.dtype
    }

    /// The view of a sequence on layer `i`.
    pub open spec fn view_of(self, seq: int, i: int) -> KvView {
        KvView {
            k: self.k@[i],
            v: self.v@[i],
            stride: self.stride,
            base: (seq * self.n_ctx) as u32,
            dtype: self.dtype,
        }
    }

    /// The views of a sequence, layer by layer.
    pub fn views(&self, seq: usize) -> (r: Vec<KvView>)
        requires
            self.wf(),
            seq < self.n_seq,
        ensures
            r@.len() == self.k@.len(),
            forall|i: int| 0 <= i < r@.len() ==> (#[trigger] r@[i]) == self.view_of(seq as int, i),
    {
        proof {
            let s = seq as int;
            let n = self.n_seq as int;
            let c = self.n_ctx as int;
            assert(0 <= s * c <= c * n) by (nonlinear_arith)
                requires
                    0 <= s < n,
                    c >= 0,
            ;
        }
        let base = seq as u32 * self.n_ctx;
        let mut out: Vec<KvView> = Vec::new();
        let mut i: usize = 0;
        while i < self.k.len()
            invariant
                self.k@.len() == self.v@.len(),
                base == seq * self.n_ctx,
                i <= self.k@.len(),
                out@.len() == i,
                forall|j: int|
                    0 <= j < i ==> (#[trigger] out@[j]) == self.view_of(seq as int, j),
            decreases self.k@.len() - i,
        {
            out.push(
                KvView {
                    k: self.k[i],
                    v: self.v[i],
                    stride: self.stride,
                    base,
                    dtype: self.dtype,
                },
            );
            i = i + 1;
        }
        out
    }

    /// Gives up every buffer: the keys first, then the values.
    pub fn free(&mut self) -> (r: Vec<BufferId>)
        ensures
            r@ == old(self).k@ + old(self).v@,
            final(self).k@.len() == 0,
            final(self).v@.len() == 0,
            final(self).n_ctx == old(self).n_ctx,
            final(self).n_seq == old(self).n_seq,
            final(self).stride == old(self).stride,
            final(self).dtype == old(self).dtype,
    {
        let mut out: Vec<BufferId> = Vec::new();
        out.append(&mut self.k);
        out.append(&mut self.v);
        out
    }
}

/// The regions of two sequences of a layer never overlap, and both lie in the buffer.
pub proof fn sequences_do_not_overlap(kv: KvCache, a: int, b: int, i: int)
    requires
        kv.wf(),
        0 <= a < b < kv.n_seq,
        0 <= i < kv.k@.len(),
    ensures
        kv.view_of(a, i).base + kv.n_ctx <= kv.view_of(b, i).base,
        kv.view_of(b, i).base + kv.n_ctx <= kv.n_ctx * kv.n_seq,
{
    let c = kv.n_ctx as int;
    let n = kv.n_seq as int;
    assert(a * c + c <= b * c && b * c + c <= c * n && 0 <= a * c) by (nonlinear_arith)
        requires
            0 <= a < b < n,
            c >= 0,
    ;
}

} // verus!
