//! The cache of keys and values on the processor.

use vstd::prelude::*;
use vstd::slice::slice_subrange;
use vstd::string::*;

use super::attention::{attended, cached, capacity, fits, AttnBits, Cached, KvSlice};
use super::machine::{held, keeps_shape, rewritten, wanted, Buffers, CpuBackend};
use super::run::{attn_bits, lack, leaves, takes};
use crate::backend::{AttnCfg, KvView};
use crate::device::BufferId;
use crate::dtype::DType;
use crate::error::{Error, ErrorView};
use crate::quant::quantize::to_half;
use crate::single::{half, Arith, FloatOp, Ops};
use crate::text::{cat3, dec, decimal};

verus! {

/// How many numbers the words of a cache hold.
pub open spec fn room_of(is_half: bool, words: nat) -> nat {
    if is_half {
        words * 2
    } else {
        words
    }
}

/// The words of a cache with a number in place `i`.
pub open spec fn with_number(f: Ops, is_half: bool, w: Seq<u32>, i: int, v: u32) -> Seq<u32> {
    if is_half {
        let h = to_half(f, v);
        if i % 2 == 0 {
            w.update(i / 2, (w[i / 2] / 0x1_0000 * 0x1_0000 + h) as u32)
        } else {
            w.update(i / 2, (h * 0x1_0000 + w[i / 2] % 0x1_0000) as u32)
        }
    } else {
        w.update(i, v)
    }
}

/// A cache with the first `n` numbers of a row from `at` on.
pub open spec fn with_row(f: Ops, is_half: bool, w: Seq<u32>, at: int, row: Seq<u32>, n: nat) -> Seq<
    u32,
>
    decreases n,
{
    if n == 0 {
        w
    } else {
        with_number(
            f,
            is_half,
            with_row(f, is_half, w, at, row, (n - 1) as nat),
            at + n - 1,
            row[n - 1],
        )
    }
}

/// A cache with the rows of the first `n` tokens, the first one in slot `slot`.
pub open spec fn with_rows(
    f: Ops,
    is_half: bool,
    w: Seq<u32>,
    slot: int,
    stride: int,
    x: Seq<u32>,
    dim: int,
    n: nat,
) -> Seq<u32>
    decreases n,
{
    if n == 0 {
        w
    } else {
        with_row(
            f,
            is_half,
            with_rows(f, is_half, w, slot, stride, x, dim, (n - 1) as nat),
            (slot + n - 1) * stride,
            x.subrange((n - 1) * dim, n * dim),
            dim as nat,
        )
    }
}

/// The first token from `t` on whose row is past the end of the cache.
pub open spec fn past_end(room: nat, slot: int, stride: int, dim: int, t: nat, n: nat) -> Option<nat>
    decreases n - t,
{
    if t >= n {
        None
    } else if (slot + t) * stride + dim > room {
        Some(t)
    } else {
        past_end(room, slot, stride, dim, t + 1, n)
    }
}

pub open spec fn past_the_end(slot: int) -> ErrorView {
    ErrorView::Shape("kv slot "@ + dec(slot as nat) + " is past the end of the cache"@)
}


/// A number comes back from the cache as it was stored: as it is, or as its half-precision
/// number.
pub proof fn stored_number_comes_back(f: Ops, is_half: bool, before: Seq<u32>, i: int, v: u32)
    requires
        0 <= i < room_of(is_half, before.len()),
    ensures
        cached(f, Cached { is_half, words: with_number(f, is_half, before, i, v) }, i) == if is_half {
            half(f, to_half(f, v))
        } else {
            v
        },
{
    if is_half {
        let h = to_half(f, v);
        let w = before[i / 2];
        if i % 2 == 0 {
            assert((w / 0x1_0000 * 0x1_0000 + h) % 0x1_0000 == h);
        } else {
            assert((h * 0x1_0000 + w % 0x1_0000) / 0x1_0000 == h);
        }
    }
}

/// What is left of a cache once rows are written to it, or once the first that is past its end
/// has been met.
pub open spec fn filled(
    f: Ops,
    is_half: bool,
    w: Seq<u32>,
    slot: int,
    stride: int,
    x: Seq<u32>,
    dim: int,
    n: nat,
) -> (Seq<u32>, Option<ErrorView>) {
    match past_end(room_of(is_half, w.len()), slot, stride, dim, 0, n) {
        Some(t) => (
            with_rows(f, is_half, w, slot, stride, x, dim, t),
            Some(past_the_end(slot + t)),
        ),
        None => (with_rows(f, is_half, w, slot, stride, x, dim, n), None),
    }
}

/// What writing one of the two caches leaves.
pub open spec fn filled_one(
    a: Buffers,
    b: Buffers,
    r: Result<(), Error>,
    f: Ops,
    kv: KvView,
    dst: u32,
    src: u32,
    slot: int,
    n: nat,
    dim: int,
) -> bool {
    match lack(a, seq![dst, src]) {
        Some(e) => r is Err && r->Err_0@ == e && b == a,
        None => {
            let (words, fault) = filled(
                f,
                kv.dtype == DType::F16,
                a[dst]@,
                slot,
                kv.stride as int,
                a[src]@,
                dim,
                n,
            );
            &&& rewritten(a, b, dst, words)
            &&& match fault {
                Some(e) => r is Err && r->Err_0@ == e,
                None => r is Ok,
            }
        },
    }
}

/// Whether every number of a half-precision cache can be addressed.
pub open spec fn addressable(b: Buffers, id: BufferId) -> bool {
    b.dom().contains(id.0) ==> b[id.0]@.len() * 2 <= usize::MAX
}

/// What `kv_write` needs.
pub open spec fn kv_write_ready(
    before: CpuBackend<'_>,
    kv: KvView,
    k: BufferId,
    v: BufferId,
    start_pos: u32,
    n_tokens: u32,
    dim: u32,
) -> bool {
    &&& takes(before.buffers@, k.0, n_tokens * dim)
    &&& takes(before.buffers@, v.0, n_tokens * dim)
    &&& kv.k != k
    &&& kv.v != v
    &&& kv.base + start_pos <= u32::MAX
    &&& kv.base + start_pos + n_tokens <= usize::MAX
    &&& (kv.base + start_pos + n_tokens) * kv.stride + dim <= usize::MAX
    &&& addressable(before.buffers@, kv.k)
    &&& addressable(before.buffers@, kv.v)
}

/// What `kv_write` leaves.
pub open spec fn kv_write_done(
    before: CpuBackend<'_>,
    after: CpuBackend<'_>,
    r: Result<(), Error>,
    f: Ops,
    kv: KvView,
    k: BufferId,
    v: BufferId,
    start_pos: u32,
    n_tokens: u32,
    dim: u32,
) -> bool {
    exists|mid: Buffers, rk: Result<(), Error>|
        {
            &&& #[trigger] filled_one(
                before.buffers@,
                mid,
                rk,
                f,
                kv,
                kv.k.0,
                k.0,
                kv.base + start_pos,
                n_tokens as nat,
                dim as int,
            )
            &&& rk is Err ==> r == rk && after.buffers@ == mid
            &&& rk is Ok ==> filled_one(
                mid,
                after.buffers@,
                r,
                f,
                kv,
                kv.v.0,
                v.0,
                kv.base + start_pos,
                n_tokens as nat,
                dim as int,
            )
        }
}

/// What `attention` needs.
pub open spec fn attention_ready(
    before: CpuBackend<'_>,
    f: Ops,
    dst: BufferId,
    q: BufferId,
    kv: KvView,
    cfg: AttnCfg,
) -> bool {
    &&& cfg.n_kv_heads > 0
    &&& takes(before.buffers@, dst.0, cfg.n_tokens * cfg.n_heads * cfg.head_dim)
    &&& takes(before.buffers@, q.0, cfg.n_tokens * cfg.n_heads * cfg.head_dim)
    &&& cfg.n_tokens * cfg.n_heads <= usize::MAX
    &&& cfg.start_pos + cfg.n_tokens <= usize::MAX
    &&& addressable(before.buffers@, kv.k)
    &&& addressable(before.buffers@, kv.v)
    &&& before.buffers@.dom().contains(kv.k.0) ==> fits(
        attn_bits(f, cfg, kv),
        capacity(cache_of(before.buffers@, kv.dtype, kv.k)),
    )
    &&& before.buffers@.dom().contains(kv.v.0) ==> fits(
        attn_bits(f, cfg, kv),
        capacity(cache_of(before.buffers@, kv.dtype, kv.v)),
    )
}

/// What `attention` leaves.
pub open spec fn attention_done(
    before: CpuBackend<'_>,
    after: CpuBackend<'_>,
    r: Result<(), Error>,
    f: Ops,
    dst: BufferId,
    q: BufferId,
    kv: KvView,
    cfg: AttnCfg,
) -> bool {
    leaves(
        before,
        after,
        r,
        lack(
            before.buffers@,
            wanted(cfg.sinks) + seq![dst.0, q.0, kv.k.0, kv.v.0],
        ),
        dst.0,
        attended(
            f,
            attn_bits(f, cfg, kv),
            before.buffers@[q.0]@,
            cache_of(before.buffers@, kv.dtype, kv.k),
            cache_of(before.buffers@, kv.dtype, kv.v),
            held(before.buffers@, cfg.sinks),
            (cfg.n_tokens * cfg.n_heads) as nat,
        ),
    )
}

impl<A: Fn(FloatOp, u32, u32) -> u32> Arith<A> {
    /// Writes a row into a cache.
    fn write_row(&self, is_half: bool, d: &mut Vec<u32>, at: usize, row: &[u32])
        requires
            self.works(),
            at + row@.len() <= room_of(is_half, old(d)@.len()),
            room_of(is_half, old(d)@.len()) <= usize::MAX,
        ensures
            final(d)@ == with_row(
                self.ops(),
                is_half,
                old(d)@,
                at as int,
                row@,
                row@.len(),
            ),
            final(d)@.len() == old(d)@.len(),
    {
        let ghost f = self.ops();
        let ghost w = d@;
        let mut i: usize = 0;
        while i < row.len()
            invariant
                self.works(),
                f == self.ops(),
                d@.len() == w.len(),
                at + row@.len() <= room_of(is_half, w.len()),
                room_of(is_half, w.len()) <= usize::MAX,
                i <= row@.len(),
                d@ == with_row(f, is_half, w, at as int, row@, i as nat),
            decreases row@.len() - i,
        {
            let k = at + i;
            if is_half {
                let h = self.run(FloatOp::ToHalf, row[i], 0) as u16;
                let was = d[k / 2];
                if k % 2 == 0 {
                    d.set(k / 2, was / 0x1_0000 * 0x1_0000 + h as u32);
                } else {
                    d.set(k / 2, h as u32 * 0x1_0000 + was % 0x1_0000);
                }
            } else {
                d.set(k, row[i]);
            }
            i = i + 1;
        }
    }
}

impl<'a> CpuBackend<'a> {
    /// Writes the rows of a buffer into a cache.
    fn fill_cache<A: Fn(FloatOp, u32, u32) -> u32>(
        &mut self,
        m: &Arith<A>,
        kv: &KvView,
        dst: BufferId,
        src: BufferId,
        slot: usize,
        n: usize,
        dim: usize,
    ) -> (r: Result<(), Error>)
        requires
            m.works(),
            old(self).wf(),
            takes(old(self).buffers@, src.0, n * dim),
            dst != src,
            slot + n <= usize::MAX,
            (slot + n) * kv.stride + dim <= usize::MAX,
            old(self).buffers@.dom().contains(dst.0) ==> old(self).buffers@[dst.0]@.len() * 2
                <= usize::MAX,
        ensures
            final(self).wf(),
            final(self).weights == old(self).weights,
            keeps_shape(old(self).buffers, final(self).buffers),
            filled_one(
                old(self).buffers@,
                final(self).buffers@,
                r,
                m.ops(),
                *kv,
                dst.0,
                src.0,
                slot as int,
                n as nat,
                dim as int,
            ),
    {
        let ghost f = m.ops();
        let ghost a = self.buffers@;
        let mut ids: Vec<u32> = Vec::new();
        ids.push(dst.0);
        ids.push(src.0);
        assert(ids@ =~= seq![dst.0, src.0]);
        self.check(&ids)?;
        assert(ids@[0] == dst.0 && ids@[1] == src.0);
        let is_half = kv.is_f16();
        let stride = kv.stride as usize;
        let empty: Vec<u32> = Vec::new();
        let mut d = self.buffers.exchange(dst.0, empty);
        let ghost w = d@;
        let room = if is_half {
            d.len() * 2
        } else {
            d.len()
        };
        let mut fault: Option<usize> = None;
        {
            let s = self.contents(src.0);
            let len = s.len();
            let mut t: usize = 0;
            while t < n
                invariant_except_break
                    fault is None,
                    d@ == with_rows(
                        f,
                        is_half,
                        w,
                        slot as int,
                        stride as int,
                        s@,
                        dim as int,
                        t as nat,
                    ),
                    past_end(room as nat, slot as int, stride as int, dim as int, 0, n as nat)
                        == past_end(
                        room as nat,
                        slot as int,
                        stride as int,
                        dim as int,
                        t as nat,
                        n as nat,
                    ),
                invariant
                    m.works(),
                    f == m.ops(),
                    s@ == a[src.0]@,
                    len == s@.len(),
                    n * dim <= len,
                    d@.len() == w.len(),
                    room == room_of(is_half, w.len()),
                    slot + n <= usize::MAX,
                    (slot + n) * stride + dim <= usize::MAX,
                    t <= n,
                ensures
                    d@.len() == w.len(),
                    match fault {
                        None => d@ == with_rows(
                            f,
                            is_half,
                            w,
                            slot as int,
                            stride as int,
                            s@,
                            dim as int,
                            n as nat,
                        ) && past_end(
                            room as nat,
                            slot as int,
                            stride as int,
                            dim as int,
                            0,
                            n as nat,
                        ) is None,
                        Some(t) => t < n && d@ == with_rows(
                            f,
                            is_half,
                            w,
                            slot as int,
                            stride as int,
                            s@,
                            dim as int,
                            t as nat,
                        ) && past_end(
                            room as nat,
                            slot as int,
                            stride as int,
                            dim as int,
                            0,
                            n as nat,
                        ) == Some(t as nat),
                    },
                decreases n - t,
            {
                assert((slot + t) * stride <= (slot + n) * stride && (slot + t) * stride >= 0)
                    by (nonlinear_arith)
                    requires
                        slot >= 0,
                        0 <= t <= n,
                        stride >= 0,
                ;
                assert(t * dim + dim <= n * dim && t * dim + dim == (t + 1) * dim && t * dim >= 0)
                    by (nonlinear_arith)
                    requires
                        t + 1 <= n,
                        dim >= 0,
                ;
                let at = (slot + t) * stride;
                if at + dim > room {
                    fault = Some(t);
                    break;
                }
                let row = slice_subrange(s, t * dim, t * dim + dim);
                m.write_row(is_half, &mut d, at, row);
                t = t + 1;
            }
        }
        self.buffers.exchange(dst.0, d);
        assert(self.buffers@.dom() =~= a.dom());
        match fault {
            Some(t) => Err(
                Error::Shape(
                    cat3(
                        "kv slot ",
                        decimal((slot + t) as u64).as_str(),
                        " is past the end of the cache",
                    ),
                ),
            ),
            None => Ok(()),
        }
    }

    /// Scatters this pass's keys and values into the cache starting at `start_pos`: the keys,
    /// then, where they fit, the values.
    pub fn kv_write<A: Fn(FloatOp, u32, u32) -> u32>(
        &mut self,
        m: &Arith<A>,
        kv: &KvView,
        k: BufferId,
        v: BufferId,
        start_pos: u32,
        n_tokens: u32,
        dim: u32,
    ) -> (r: Result<(), Error>)
        requires
            m.works(),
            old(self).wf(),
            kv_write_ready(*old(self), *kv, k, v, start_pos, n_tokens, dim),
        ensures
            final(self).wf(),
            final(self).weights == old(self).weights,
            keeps_shape(old(self).buffers, final(self).buffers),
            kv_write_done(
                *old(self),
                *final(self),
                r,
                m.ops(),
                *kv,
                k,
                v,
                start_pos,
                n_tokens,
                dim,
            ),
    {
        let slot = (kv.base + start_pos) as usize;
        let ghost a = self.buffers@;
        let rk = self.fill_cache(m, kv, kv.k, k, slot, n_tokens as usize, dim as usize);
        let ghost mid = self.buffers@;
        match rk {
            Err(e) => {
                let r: Result<(), Error> = Err(e);
                assert(filled_one(
                    a,
                    mid,
                    r,
                    m.ops(),
                    *kv,
                    kv.k.0,
                    k.0,
                    kv.base + start_pos,
                    n_tokens as nat,
                    dim as int,
                ));
                return r;
            },
            Ok(_) => {},
        }
        proof {
            assert(filled_one(
                a,
                mid,
                Ok::<(), Error>(()),
                m.ops(),
                *kv,
                kv.k.0,
                k.0,
                kv.base + start_pos,
                n_tokens as nat,
                dim as int,
            ));
        }
        self.fill_cache(m, kv, kv.v, v, slot, n_tokens as usize, dim as usize)
    }

    /// Causal attention over the cache, grouped across query heads.
    pub fn attention<A: Fn(FloatOp, u32, u32) -> u32>(
        &mut self,
        m: &Arith<A>,
        dst: BufferId,
        q: BufferId,
        kv: &KvView,
        cfg: AttnCfg,
    ) -> (r: Result<(), Error>)
        requires
            m.works(),
            old(self).wf(),
            attention_ready(*old(self), m.ops(), dst, q, *kv, cfg),
        ensures
            final(self).wf(),
            final(self).weights == old(self).weights,
            keeps_shape(old(self).buffers, final(self).buffers),
            attention_done(*old(self), *final(self), r, m.ops(), dst, q, *kv, cfg),
    {
        let ghost f = m.ops();
        let ghost b = self.buffers@;
        let mut ids: Vec<u32> = Vec::new();
        if let Some(x) = cfg.sinks {
            ids.push(x.0);
        }
        assert(ids@ =~= wanted(cfg.sinks));
        ids.push(dst.0);
        ids.push(q.0);
        ids.push(kv.k.0);
        ids.push(kv.v.0);
        assert(ids@ =~= wanted(cfg.sinks) + seq![dst.0, q.0, kv.k.0, kv.v.0]);
        self.check(&ids)?;
        proof {
            let n = ids@.len();
            assert(ids@[n - 1] == kv.v.0 && ids@[n - 2] == kv.k.0 && ids@[n - 3] == q.0 && ids@[n
                - 4] == dst.0);
            if let Some(x) = cfg.sinks {
                assert(ids@[0] == x.0);
            }
        }
        let c = AttnBits {
            n_heads: cfg.n_heads as usize,
            n_kv_heads: cfg.n_kv_heads as usize,
            head_dim: cfg.head_dim as usize,
            n_tokens: cfg.n_tokens as usize,
            kv_len: cfg.kv_len as usize,
            start_pos: cfg.start_pos as usize,
            window: cfg.window as usize,
            stride: kv.stride as usize,
            base: kv.base as usize,
            scale: m.value(cfg.scale),
            softcap: m.value(cfg.softcap),
        };
        assert(c == attn_bits(f, cfg, *kv));
        let ks = self.contents(kv.k.0);
        let vs = self.contents(kv.v.0);
        let is_half = kv.is_f16();
        let (kc, vc) = if is_half {
            (KvSlice::F16(ks), KvSlice::F16(vs))
        } else {
            (KvSlice::F32(ks), KvSlice::F32(vs))
        };
        assert(kc@ == cache_of(b, kv.dtype, kv.k) && vc@ == cache_of(b, kv.dtype, kv.v));
        let x = m.flash_attention(&c, self.contents(q.0), kc, vc, self.opt_contents(cfg.sinks));
        self.store(dst.0, &x);
        Ok(())
    }
}

/// The cache that a buffer is.
pub open spec fn cache_of(b: Buffers, dtype: DType, id: BufferId) -> Cached {
    Cached { is_half: dtype == DType::F16, words: b[id.0]@ }
}

} // verus!
