//! The buffers and weights of the processor, and the operations on them.
//!
//! This is the device that always exists. It is also the reference that the others are compared
//! against, so it favours being obviously right over being clever.

use vstd::prelude::*;
use vstd::string::*;

use super::moe::not_uploaded;
use super::ops::opt_seq;
use crate::device::{BufferId, WeightId};
use crate::dtype::QuantView;
use crate::error::{backend_err, Error, ErrorView};
use crate::quant::dot::{check_dot_supported, dots, float_type};
use crate::slots::Slots;
use crate::text::{cat3, cat4, dec, decimal};

verus! {

/// The buffers by their numbers, each as the words it holds.
pub type Buffers = Map<u32, Vec<u32>>;

/// Buffers and weights. A weight stays where it is, in the file.
pub struct CpuBackend<'a> {
    pub buffers: Slots<Vec<u32>>,
    pub weights: Slots<QuantView<'a>>,
}

/// That a buffer is not there.
pub open spec fn not_allocated(id: u32) -> ErrorView {
    ErrorView::Backend { device: "cpu"@, detail: "buffer "@ + dec(id as nat) + " is not allocated"@ }
}

/// The first of the buffers from `i` on that is not there.
pub open spec fn lacking(b: Buffers, ids: Seq<u32>, i: nat) -> Option<u32>
    decreases ids.len() - i,
{
    if i >= ids.len() {
        None
    } else if !b.dom().contains(ids[i as int]) {
        Some(ids[i as int])
    } else {
        lacking(b, ids, i + 1)
    }
}

proof fn all_are_there(b: Buffers, ids: Seq<u32>, i: nat)
    requires
        lacking(b, ids, i) is None,
    ensures
        forall|k: int| i <= k < ids.len() ==> b.dom().contains(#[trigger] ids[k]),
    decreases ids.len() - i,
{
    if i < ids.len() {
        all_are_there(b, ids, i + 1);
    }
}

/// The number of a buffer that may not be wanted.
pub open spec fn wanted(id: Option<BufferId>) -> Seq<u32> {
    match id {
        Some(x) => seq![x.0],
        None => Seq::empty(),
    }
}

/// The contents of a buffer that may not be wanted.
pub open spec fn held(b: Buffers, id: Option<BufferId>) -> Option<Seq<u32>> {
    match id {
        Some(x) => Some(b[x.0]@),
        None => None,
    }
}

/// Contents with others written over their front.
pub open spec fn over_front(old_words: Seq<u32>, new: Seq<u32>) -> Seq<u32> {
    new + old_words.skip(new.len() as int)
}

/// Whether `b` is `a` with other words in buffer `id`.
pub open spec fn rewritten(a: Buffers, b: Buffers, id: u32, words: Seq<u32>) -> bool {
    &&& b.dom() == a.dom()
    &&& b.dom().contains(id)
    &&& b[id]@ == words
    &&& forall|x: u32| x != id && b.dom().contains(x) ==> #[trigger] b[x] == a[x]
}

/// Whether the same buffers are there, each as large as it was, and the same numbers are free.
pub open spec fn keeps_shape(a: Slots<Vec<u32>>, b: Slots<Vec<u32>>) -> bool {
    &&& b.free == a.free
    &&& b.items@.len() == a.items@.len()
    &&& b@.dom() == a@.dom()
    &&& forall|x: u32| #[trigger] b@.dom().contains(x) ==> b@[x]@.len() == a@[x]@.len()
}

/// The sizes that an operation keeps the next one keeps too.
pub proof fn shape_is_kept_throughout(
    a: Slots<Vec<u32>>,
    b: Slots<Vec<u32>>,
    c: Slots<Vec<u32>>,
)
    requires
        keeps_shape(a, b),
        keeps_shape(b, c),
    ensures
        keeps_shape(a, c),
{
    assert forall|x: u32| #[trigger] c@.dom().contains(x) implies c@[x]@.len() == a@[x]@.len() by {
        assert(b@.dom().contains(x));
    }
}

// --------------------------------------------------------------------------------- bytes

/// Byte `k` of a word.
pub open spec fn byte_of(w: u32, k: int) -> u8 {
    if k == 0 {
        (w % 256) as u8
    } else if k == 1 {
        (w / 256 % 256) as u8
    } else if k == 2 {
        (w / 0x1_0000 % 256) as u8
    } else {
        (w / 0x100_0000) as u8
    }
}

/// The bytes of words.
pub open spec fn bytes_of(w: Seq<u32>) -> Seq<u8> {
    Seq::new(w.len() * 4, |i: int| byte_of(w[i / 4], i % 4))
}

/// Bytes with others written over them from `at` on.
pub open spec fn over_at(old_bytes: Seq<u8>, at: int, new: Seq<u8>) -> Seq<u8> {
    Seq::new(
        old_bytes.len(),
        |i: int|
            if at <= i < at + new.len() {
                new[i - at]
            } else {
                old_bytes[i]
            },
    )
}

/// What is read where something was written is what was written.
pub proof fn read_gives_back_what_was_written(b: Seq<u8>, at: int, new: Seq<u8>)
    requires
        0 <= at,
        at + new.len() <= b.len(),
    ensures
        over_at(b, at, new).subrange(at, at + new.len()) == new,
        over_at(b, at, new).len() == b.len(),
        forall|i: int|
            0 <= i < b.len() && !(at <= i < at + new.len()) ==> (#[trigger] over_at(b, at, new)[i])
                == b[i],
{
    assert(over_at(b, at, new).subrange(at, at + new.len()) =~= new);
}

pub fn byte_at(w: u32, k: usize) -> (r: u8)
    requires
        k < 4,
    ensures
        r == byte_of(w, k as int),
{
    if k == 0 {
        (w % 256) as u8
    } else if k == 1 {
        (w / 256 % 256) as u8
    } else if k == 2 {
        (w / 0x1_0000 % 256) as u8
    } else {
        (w / 0x100_0000) as u8
    }
}

proof fn composed(a: int, b: int, c: int, d: int, r: int)
    requires
        0 <= a < 256,
        0 <= b < 256,
        0 <= c < 256,
        0 <= d < 256,
        r == a + 256 * b + 0x1_0000 * c + 0x100_0000 * d,
    ensures
        r % 256 == a,
        r / 256 % 256 == b,
        r / 0x1_0000 % 256 == c,
        r / 0x100_0000 == d,
{
    assert(r / 256 == b + 256 * c + 0x1_0000 * d);
    assert(r / 0x1_0000 == c + 256 * d);
}

/// A word with another byte in place `k`.
fn with_byte(w: u32, k: usize, b: u8) -> (r: u32)
    requires
        k < 4,
    ensures
        byte_of(r, k as int) == b,
        forall|j: int| 0 <= j < 4 && j != k ==> #[trigger] byte_of(r, j) == byte_of(w, j),
{
    let a0 = if k == 0 {
        b as u32
    } else {
        w % 256
    };
    let a1 = if k == 1 {
        b as u32
    } else {
        w / 256 % 256
    };
    let a2 = if k == 2 {
        b as u32
    } else {
        w / 0x1_0000 % 256
    };
    let a3 = if k == 3 {
        b as u32
    } else {
        w / 0x100_0000
    };
    let r = a0 + 256 * a1 + 0x1_0000 * a2 + 0x100_0000 * a3;
    proof {
        composed(a0 as int, a1 as int, a2 as int, a3 as int, r as int);
    }
    r
}

impl<'a> CpuBackend<'a> {
    /// Every weight holds the rows it says it has.
    pub open spec fn wf(self) -> bool {
        &&& self.buffers.wf()
        &&& self.weights.wf()
        &&& forall|i: u32| #[trigger]
            self.weights@.dom().contains(i) ==> self.weights@[i].rows * self.weights@[i].row_len()
                <= self.weights@[i].data@.len() && self.weights@[i].row_len() <= usize::MAX
    }

    pub fn new() -> (r: Self)
        ensures
            r.wf(),
            r.buffers@ == Map::<u32, Vec<u32>>::empty(),
            r.weights@ == Map::<u32, QuantView<'a>>::empty(),
            r.buffers.items@.len() == 0,
            r.buffers.free@.len() == 0,
            r.weights.items@.len() == 0,
            r.weights.free@.len() == 0,
    {
        CpuBackend { buffers: Slots::new(), weights: Slots::new() }
    }

    pub(crate) fn absent(id: u32) -> (r: Error)
        ensures
            r@ == not_allocated(id),
    {
        backend_err("cpu", cat3("buffer ", decimal(id as u64).as_str(), " is not allocated"))
    }

    pub(crate) fn check(&self, ids: &Vec<u32>) -> (r: Result<(), Error>)
        ensures
            match lacking(self.buffers@, ids@, 0) {
                Some(x) => r is Err && r->Err_0@ == not_allocated(x),
                None => r is Ok && forall|k: int|
                    0 <= k < ids@.len() ==> self.buffers@.dom().contains(#[trigger] ids@[k]),
            },
    {
        let mut i: usize = 0;
        while i < ids.len()
            invariant
                i <= ids@.len(),
                lacking(self.buffers@, ids@, 0) == lacking(self.buffers@, ids@, i as nat),
                forall|k: int| 0 <= k < i ==> self.buffers@.dom().contains(#[trigger] ids@[k]),
            decreases ids@.len() - i,
        {
            if self.buffers.get(ids[i]).is_none() {
                return Err(Self::absent(ids[i]));
            }
            i = i + 1;
        }
        Ok(())
    }

    /// The words of a buffer.
    pub fn contents(&self, id: u32) -> (r: &[u32])
        requires
            self.buffers@.dom().contains(id),
        ensures
            r@ == self.buffers@[id]@,
    {
        match self.buffers.get(id) {
            Some(v) => v.as_slice(),
            None => &[],
        }
    }

    pub(crate) fn opt_contents(&self, id: Option<BufferId>) -> (r: Option<&[u32]>)
        requires
            id matches Some(x) ==> self.buffers@.dom().contains(x.0),
        ensures
            opt_seq(r) == held(self.buffers@, id),
    {
        match id {
            Some(x) => Some(self.contents(x.0)),
            None => None,
        }
    }

    /// Writes words over the front of a buffer.
    pub(crate) fn store(&mut self, id: u32, words: &Vec<u32>)
        requires
            old(self).wf(),
            old(self).buffers@.dom().contains(id),
            words@.len() <= old(self).buffers@[id]@.len(),
        ensures
            final(self).wf(),
            final(self).weights == old(self).weights,
            rewritten(
                old(self).buffers@,
                final(self).buffers@,
                id,
                over_front(old(self).buffers@[id]@, words@),
            ),
            keeps_shape(old(self).buffers, final(self).buffers),
    {
        let ghost a = self.buffers@;
        let empty: Vec<u32> = Vec::new();
        let mut d = self.buffers.exchange(id, empty);
        let mut i: usize = 0;
        while i < words.len()
            invariant
                words@.len() <= a[id]@.len(),
                i <= words@.len(),
                d@.len() == a[id]@.len(),
                d@ =~= words@.take(i as int) + a[id]@.skip(i as int),
            decreases words@.len() - i,
        {
            d.set(i, words[i]);
            i = i + 1;
        }
        assert(words@.take(i as int) =~= words@);
        self.buffers.exchange(id, d);
        assert(self.buffers@.dom() =~= a.dom());
    }

    // ------------------------------------------------------------------- memory

    /// A new buffer of zeros.
    pub fn allocate(&mut self, bytes: u64) -> (r: BufferId)
        requires
            old(self).wf(),
            old(self).buffers.items@.len() < u32::MAX,
            bytes <= usize::MAX,
        ensures
            final(self).wf(),
            final(self).weights == old(self).weights,
            r.0 == old(self).buffers.next(),
            !old(self).buffers@.dom().contains(r.0),
            final(self).buffers.free@ == old(self).buffers.free_after_place(),
            final(self).buffers.items@.len() == old(self).buffers.places_after_place(),
            final(self).buffers@.dom() == old(self).buffers@.dom().insert(r.0),
            final(self).buffers@[r.0]@ == Seq::new(((bytes + 3) / 4) as nat, |i: int| 0u32),
            forall|x: u32| #[trigger]
                old(self).buffers@.dom().contains(x) ==> final(self).buffers@[x]
                    == old(self).buffers@[x],
    {
        let b = bytes as usize;
        let n = b / 4 + if b % 4 == 0 {
            0
        } else {
            1
        };
        let mut data: Vec<u32> = Vec::new();
        let mut i: usize = 0;
        while i < n
            invariant
                i <= n,
                data@ =~= Seq::new(i as nat, |j: int| 0u32),
            decreases n - i,
        {
            data.push(0);
            i = i + 1;
        }
        let id = self.buffers.place(data);
        assert(self.buffers@.dom() =~= old(self).buffers@.dom().insert(id));
        BufferId(id)
    }

    pub fn free(&mut self, id: BufferId)
        requires
            old(self).wf(),
        ensures
            final(self).wf(),
            final(self).weights == old(self).weights,
            final(self).buffers@ == old(self).buffers@.remove(id.0),
            final(self).buffers.free@ == old(self).buffers.free_after_remove(id.0),
            final(self).buffers.items@.len() == old(self).buffers.items@.len(),
    {
        self.buffers.remove(id.0);
    }

    /// Writes bytes into a buffer.
    pub fn write(&mut self, dst: BufferId, offset_bytes: usize, src: &[u8]) -> (r: Result<(), Error>)
        requires
            old(self).wf(),
            offset_bytes + src@.len() <= usize::MAX,
            old(self).buffers@.dom().contains(dst.0) ==> old(self).buffers@[dst.0]@.len() * 4
                <= usize::MAX,
        ensures
            final(self).wf(),
            final(self).weights == old(self).weights,
            keeps_shape(old(self).buffers, final(self).buffers),
            if !old(self).buffers@.dom().contains(dst.0) {
                r is Err && r->Err_0@ == not_allocated(dst.0) && final(self).buffers
                    == old(self).buffers
            } else if offset_bytes + src@.len() > old(self).buffers@[dst.0]@.len() * 4 {
                r is Err && r->Err_0@ == ErrorView::Shape(
                    "write of "@ + dec(src@.len()) + " bytes at "@ + dec(offset_bytes as nat)
                        + " exceeds buffer of "@ + dec(old(self).buffers@[dst.0]@.len() * 4),
                ) && final(self).buffers == old(self).buffers
            } else {
                r is Ok && bytes_of(final(self).buffers@[dst.0]@) == over_at(
                    bytes_of(old(self).buffers@[dst.0]@),
                    offset_bytes as int,
                    src@,
                ) && forall|x: u32|
                    x != dst.0 && old(self).buffers@.dom().contains(x) ==> #[trigger]
                    final(self).buffers@[x] == old(self).buffers@[x]
            },
    {
        let ghost a = self.buffers@;
        let room = match self.buffers.get(dst.0) {
            Some(v) => v.len() * 4,
            None => {
                return Err(Self::absent(dst.0));
            },
        };
        if offset_bytes + src.len() > room {
            let mut m = cat4(
                "write of ",
                decimal(src.len() as u64).as_str(),
                " bytes at ",
                decimal(offset_bytes as u64).as_str(),
            );
            m.append(" exceeds buffer of ");
            m.append(decimal(room as u64).as_str());
            return Err(Error::Shape(m));
        }
        let empty: Vec<u32> = Vec::new();
        let mut d = self.buffers.exchange(dst.0, empty);
        let ghost before = bytes_of(d@);
        let mut i: usize = 0;
        assert(over_at(before, offset_bytes as int, src@.take(0)) =~= before);
        while i < src.len()
            invariant
                before == bytes_of(a[dst.0]@),
                d@.len() == a[dst.0]@.len(),
                room == d@.len() * 4,
                offset_bytes + src@.len() <= room,
                i <= src@.len(),
                bytes_of(d@) == over_at(before, offset_bytes as int, src@.take(i as int)),
            decreases src@.len() - i,
        {
            let at = offset_bytes + i;
            let ghost was = d@;
            let w = with_byte(d[at / 4], at % 4, src[i]);
            d.set(at / 4, w);
            i = i + 1;
            proof {
                let want = over_at(before, offset_bytes as int, src@.take(i as int));
                let prev = over_at(before, offset_bytes as int, src@.take(i - 1));
                assert forall|k: int| 0 <= k < want.len() implies bytes_of(d@)[k] == want[k] by {
                    assert(bytes_of(was)[k] == prev[k]);
                    assert(bytes_of(was)[k] == byte_of(was[k / 4], k % 4));
                    if k == at {
                        assert(bytes_of(d@)[k] == byte_of(w, at as int % 4));
                        assert(want[k] == src@[i - 1]);
                    } else {
                        if k / 4 == at as int / 4 {
                            assert(k % 4 != at as int % 4);
                            assert(byte_of(w, k % 4) == byte_of(was[k / 4], k % 4));
                        }
                        assert(bytes_of(d@)[k] == bytes_of(was)[k]);
                        assert(want[k] == prev[k]);
                    }
                }
                assert(bytes_of(d@) =~= want);
            }
        }
        assert(src@.take(i as int) =~= src@);
        self.buffers.exchange(dst.0, d);
        assert(self.buffers@.dom() =~= a.dom());
        Ok(())
    }

    /// Reads `n` bytes of a buffer.
    pub fn read(&self, src: BufferId, offset_bytes: usize, n: usize) -> (r: Result<Vec<u8>, Error>)
        requires
            offset_bytes + n <= usize::MAX,
            self.buffers@.dom().contains(src.0) ==> self.buffers@[src.0]@.len() * 4 <= usize::MAX,
        ensures
            if !self.buffers@.dom().contains(src.0) {
                r is Err && r->Err_0@ == not_allocated(src.0)
            } else if offset_bytes + n > self.buffers@[src.0]@.len() * 4 {
                r is Err && r->Err_0@ == ErrorView::Shape(
                    "read of "@ + dec(n as nat) + " bytes at "@ + dec(offset_bytes as nat)
                        + " exceeds buffer of "@ + dec(self.buffers@[src.0]@.len() * 4),
                )
            } else {
                r is Ok && r->Ok_0@ == bytes_of(self.buffers@[src.0]@).subrange(
                    offset_bytes as int,
                    offset_bytes + n,
                )
            },
    {
        let s = match self.buffers.get(src.0) {
            Some(v) => v,
            None => {
                return Err(Self::absent(src.0));
            },
        };
        let room = s.len() * 4;
        if offset_bytes + n > room {
            let mut m = cat4(
                "read of ",
                decimal(n as u64).as_str(),
                " bytes at ",
                decimal(offset_bytes as u64).as_str(),
            );
            m.append(" exceeds buffer of ");
            m.append(decimal(room as u64).as_str());
            return Err(Error::Shape(m));
        }
        let ghost all = bytes_of(s@);
        let mut out: Vec<u8> = Vec::new();
        let mut i: usize = 0;
        while i < n
            invariant
                all == bytes_of(s@),
                offset_bytes + n <= s@.len() * 4,
                offset_bytes + n <= usize::MAX,
                i <= n,
                out@ =~= all.subrange(offset_bytes as int, offset_bytes + i),
            decreases n - i,
        {
            let at = offset_bytes + i;
            out.push(byte_at(s[at / 4], at % 4));
            i = i + 1;
        }
        Ok(out)
    }

    /// Takes a weight on.
    pub fn upload_weight(&mut self, view: &QuantView<'a>) -> (r: Result<WeightId, Error>)
        requires
            old(self).wf(),
            old(self).weights.items@.len() < u32::MAX,
            view.rows * view.row_len() <= view.data@.len(),
            view.row_len() <= usize::MAX,
        ensures
            final(self).wf(),
            final(self).buffers == old(self).buffers,
            if view.dtype.has_codebook() {
                r is Err && r->Err_0@ == view.dtype.refusal() && final(self).weights
                    == old(self).weights
            } else if float_type(view.dtype) || dots(view.dtype) {
                r is Ok && r->Ok_0.0 == old(self).weights.next()
                    && !old(self).weights@.dom().contains(r->Ok_0.0) && final(self).weights@
                    == old(self).weights@.insert(r->Ok_0.0, *view) && final(self).weights.free@
                    == old(self).weights.free_after_place() && final(self).weights.items@.len()
                    == old(self).weights.places_after_place()
            } else {
                r is Err && r->Err_0@ == ErrorView::Unsupported(
                    view.dtype.label() + " has no matmul path on this backend"@,
                ) && final(self).weights == old(self).weights
            },
    {
        check_dot_supported(view.dtype)?;
        let id = self.weights.place(*view);
        Ok(WeightId(id))
    }

    pub fn free_weight(&mut self, id: WeightId)
        requires
            old(self).wf(),
        ensures
            final(self).wf(),
            final(self).buffers == old(self).buffers,
            final(self).weights@ == old(self).weights@.remove(id.0),
            final(self).weights.free@ == old(self).weights.free_after_remove(id.0),
            final(self).weights.items@.len() == old(self).weights.items@.len(),
    {
        self.weights.remove(id.0);
    }

    pub(crate) fn weight(&self, id: WeightId) -> (r: Result<QuantView<'a>, Error>)
        ensures
            if self.weights@.dom().contains(id.0) {
                r is Ok && r->Ok_0 == self.weights@[id.0]
            } else {
                r is Err && r->Err_0@ == not_uploaded(id.0)
            },
    {
        match self.weights.get(id.0) {
            Some(w) => Ok(*w),
            None => Err(
                backend_err(
                    "cpu",
                    cat3("weight ", decimal(id.0 as u64).as_str(), " is not uploaded"),
                ),
            ),
        }
    }
}

} // verus!
