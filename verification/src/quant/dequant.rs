//! Block decoders for every ggml quantization this engine supports.
//!
//! Layouts follow ggml's `block_*` structs byte for byte; an invented layout produces
//! fluent-sounding but wrong output rather than a crash.

use vstd::prelude::*;
use vstd::slice::slice_subrange;

use super::block::{
    base, code, code_at, group, group_of, is_block, le16_at, le32_at, minimum, offset, offset_of,
    read_le16, read_le32, scale, scales_at, second, signed,
};
use crate::dtype::DType;
use crate::error::{Error, ErrorView};
use crate::single::{half, minus, plus, times, whole, Arith, FloatOp, Ops};
use crate::text::{cat4, dec, decimal};

verus! {

/// How the elements of a block come from its codes and scales.
#[derive(Debug, Clone, Copy, PartialEq, Eq, Structural)]
pub enum Form {
    /// Code times scale.
    Times,
    /// Code times scale plus minimum.
    Plus,
    /// Code times scaled scale.
    Scaled,
    /// Code times scaled scale minus scaled minimum.
    Minus,
}

pub open spec fn form(t: DType) -> Form {
    match t {
        DType::Q4_1 | DType::Q5_1 => Form::Plus,
        DType::Q3K | DType::Q6K | DType::Iq4Xs => Form::Scaled,
        DType::Q2K | DType::Q4K | DType::Q5K => Form::Minus,
        _ => Form::Times,
    }
}

/// Element `e` of a block.
pub open spec fn block_value(f: Ops, t: DType, b: Seq<u8>, e: int) -> u32 {
    let q = whole(f, code(t, b, e) - offset(t));
    let d = base(f, t, b);
    let g = e / group(t);
    match form(t) {
        Form::Times => times(f, q, d),
        Form::Plus => plus(f, times(f, q, d), second(f, t, b)),
        Form::Scaled => times(f, times(f, d, whole(f, scale(t, b, g))), q),
        Form::Minus => minus(
            f,
            times(f, times(f, d, whole(f, scale(t, b, g))), q),
            times(f, second(f, t, b), whole(f, minimum(t, b, g))),
        ),
    }
}

/// The bits of a signed number of 16 bits, as a number.
pub open spec fn signed16(x: u16) -> int {
    if x < 0x8000 {
        x as int
    } else {
        x - 0x1_0000
    }
}

/// Element `i` of a row.
pub open spec fn element(f: Ops, t: DType, s: Seq<u8>, i: int) -> u32 {
    match t {
        DType::F32 => le32_at(s, 4 * i),
        DType::F16 => half(f, le16_at(s, 2 * i)),
        DType::BF16 => (le16_at(s, 2 * i) * 0x1_0000) as u32,
        DType::F64 => f(FloatOp::FromDouble, le32_at(s, 8 * i), le32_at(s, 8 * i + 4)),
        DType::I8 => whole(f, signed(s[i])),
        DType::I16 => whole(f, signed16(le16_at(s, 2 * i))),
        DType::I32 => f(FloatOp::FromInt, le32_at(s, 4 * i), 0),
        DType::I64 => f(FloatOp::FromLong, le32_at(s, 8 * i), le32_at(s, 8 * i + 4)),
        _ => {
            let ts = t.block_bytes() as int;
            let bs = t.block_len() as int;
            block_value(f, t, s.subrange(i / bs * ts, i / bs * ts + ts), i % bs)
        },
    }
}

/// Why `n` elements cannot be decoded from `len` bytes into `room` places.
pub open spec fn decode_fault(t: DType, len: nat, room: nat, n: nat) -> Option<ErrorView> {
    if t.has_codebook() {
        Some(t.refusal())
    } else if n % t.block_len() != 0 {
        Some(
            ErrorView::Shape(
                dec(n) + " elements is not a multiple of the "@ + t.label() + " block size "@ + dec(
                    t.block_len(),
                ),
            ),
        )
    } else if len < t.bytes_for(n) {
        Some(
            ErrorView::Shape(
                t.label() + ": need "@ + dec(t.bytes_for(n)) + " bytes for "@ + dec(n)
                    + " elements, got "@ + dec(len),
            ),
        )
    } else if room < n {
        Some(ErrorView::Shape("destination holds "@ + dec(room) + " of "@ + dec(n) + " values"@))
    } else {
        None
    }
}

fn form_of(t: DType) -> (r: Form)
    ensures
        r == form(t),
{
    match t {
        DType::Q4_1 | DType::Q5_1 => Form::Plus,
        DType::Q3K | DType::Q6K | DType::Iq4Xs => Form::Scaled,
        DType::Q2K | DType::Q4K | DType::Q5K => Form::Minus,
        _ => Form::Times,
    }
}

fn signed_16(x: u16) -> (r: i32)
    ensures
        r == signed16(x),
{
    if x < 0x8000 {
        x as i32
    } else {
        x as i32 - 0x1_0000
    }
}

fn signed_8(x: u8) -> (r: i32)
    ensures
        r == signed(x),
{
    if x < 128 {
        x as i32
    } else {
        x as i32 - 256
    }
}

/// A group lies within its block.
pub proof fn group_fits(t: DType, e: int)
    requires
        is_block(t),
        0 <= e < t.block_len(),
    ensures
        0 <= e / group(t),
        e / group(t) * group(t) < t.block_len(),
{
    if group(t) == 16 {
        assert(e / 16 * 16 <= e);
    } else {
        assert(e / 32 * 32 <= e);
    }
}

impl<A: Fn(FloatOp, u32, u32) -> u32> Arith<A> {
    /// Appends the elements of a block.
    fn decode_block(&self, t: DType, b: &[u8], out: &mut Vec<u32>)
        requires
            self.works(),
            is_block(t),
            b@.len() == t.block_bytes(),
        ensures
            final(out)@.len() == old(out)@.len() + t.block_len(),
            forall|k: int|
                0 <= k < old(out)@.len() ==> (#[trigger] final(out)@[k]) == old(out)@[k],
            forall|e: int|
                0 <= e < t.block_len() ==> final(out)@[old(out)@.len() + e] == #[trigger] block_value(
                    self.ops(),
                    t,
                    b@,
                    e,
                ),
    {
        let ghost f = self.ops();
        let ghost start = out@;
        let d = self.block_base(t, b);
        let second = self.block_second(t, b);
        let form = form_of(t);
        let g = group_of(t);
        let off = offset_of(t);
        let n = t.block_size();
        let mut e: usize = 0;
        while e < n
            invariant
                self.works(),
                is_block(t),
                b@.len() == t.block_bytes(),
                f == self.ops(),
                d == base(f, t, b@),
                second == super::block::second(f, t, b@),
                form == self::form(t),
                g == group(t),
                g == 16 || g == 32,
                off == offset(t),
                0 <= off <= 16,
                n == t.block_len(),
                e <= n,
                out@.len() == start.len() + e,
                forall|k: int| 0 <= k < start.len() ==> (#[trigger] out@[k]) == start[k],
                forall|k: int|
                    0 <= k < e ==> out@[start.len() + k] == #[trigger] block_value(f, t, b@, k),
            decreases n - e,
        {
            proof {
                group_fits(t, e as int);
            }
            let q = self.whole(code_at(t, b, e) - off);
            let (s, m) = scales_at(t, b, e / g);
            let v = match form {
                Form::Times => self.run(FloatOp::Mul, q, d),
                Form::Plus => self.run(FloatOp::Add, self.run(FloatOp::Mul, q, d), second),
                Form::Scaled => self.run(
                    FloatOp::Mul,
                    self.run(FloatOp::Mul, d, self.whole(s)),
                    q,
                ),
                Form::Minus => self.run(
                    FloatOp::Sub,
                    self.run(FloatOp::Mul, self.run(FloatOp::Mul, d, self.whole(s)), q),
                    self.run(FloatOp::Mul, second, self.whole(m)),
                ),
            };
            assert(v == block_value(f, t, b@, e as int));
            out.push(v);
            e = e + 1;
        }
    }

    /// Element `i` of a row whose type is not made of blocks.
    fn plain_element(&self, t: DType, s: &[u8], i: usize) -> (r: u32)
        requires
            self.works(),
            !is_block(t),
            !t.has_codebook(),
            (i + 1) * t.block_bytes() <= s@.len(),
        ensures
            r == element(self.ops(), t, s@, i as int),
    {
        let len = s.len();
        match t {
            DType::F32 => read_le32(s, 4 * i),
            DType::F16 => self.half(read_le16(s, 2 * i)),
            DType::BF16 => (read_le16(s, 2 * i) as u32) * 0x1_0000,
            DType::F64 => self.run(
                FloatOp::FromDouble,
                read_le32(s, 8 * i),
                read_le32(s, 8 * i + 4),
            ),
            DType::I8 => self.whole(signed_8(s[i])),
            DType::I16 => self.whole(signed_16(read_le16(s, 2 * i))),
            DType::I32 => self.run(FloatOp::FromInt, read_le32(s, 4 * i), 0),
            _ => self.run(FloatOp::FromLong, read_le32(s, 8 * i), read_le32(s, 8 * i + 4)),
        }
    }

    /// Decodes `n` elements of `t` from `src` for a destination that holds `room` values.
    ///
    /// `n` must be a multiple of the type's block size.
    pub fn dequantize(&self, t: DType, src: &[u8], room: usize, n: usize) -> (r: Result<
        Vec<u32>,
        Error,
    >)
        requires
            self.works(),
            t.bytes_for(n as nat) <= usize::MAX,
        ensures
            match decode_fault(t, src@.len(), room as nat, n as nat) {
                Some(e) => r is Err && r->Err_0@ == e,
                None => r is Ok && r->Ok_0@.len() == n && forall|i: int|
                    0 <= i < n ==> (#[trigger] r->Ok_0@[i]) == element(
                        self.ops(),
                        t,
                        src@,
                        i,
                    ),
            },
    {
        t.check_supported()?;
        let bs = t.block_size();
        if n % bs != 0 {
            let mut m = cat4(
                decimal(n as u64).as_str(),
                " elements is not a multiple of the ",
                t.name(),
                " block size ",
            );
            m.append(decimal(bs as u64).as_str());
            return Err(Error::Shape(m));
        }
        let need = t.row_bytes(n);
        if src.len() < need {
            let mut m = cat4(t.name(), ": need ", decimal(need as u64).as_str(), " bytes for ");
            m.append(decimal(n as u64).as_str());
            m.append(" elements, got ");
            m.append(decimal(src.len() as u64).as_str());
            return Err(Error::Shape(m));
        }
        if room < n {
            let mut m = cat4(
                "destination holds ",
                decimal(room as u64).as_str(),
                " of ",
                decimal(n as u64).as_str(),
            );
            m.append(" values");
            return Err(Error::Shape(m));
        }
        let ghost f = self.ops();
        let ts = t.type_size();
        let nb = n / bs;
        let mut out: Vec<u32> = Vec::new();
        let mut b: usize = 0;
        proof {
            assert(n == nb * bs) by (nonlinear_arith)
                requires
                    bs > 0,
                    n % bs == 0,
                    nb == n / bs,
            ;
        }
        let made_of_blocks = bs > 1;
        assert(made_of_blocks == is_block(t));
        while b < nb
            invariant
                self.works(),
                f == self.ops(),
                !t.has_codebook(),
                made_of_blocks == is_block(t),
                bs == t.block_len(),
                ts == t.block_bytes(),
                bs > 0,
                n == nb * bs,
                nb * ts <= src@.len() <= usize::MAX,
                b <= nb,
                out@.len() == b * bs,
                forall|i: int| 0 <= i < b * bs ==> (#[trigger] out@[i]) == element(f, t, src@, i),
                !made_of_blocks ==> bs == 1,
            decreases nb - b,
        {
            let ghost before = out@;
            assert((b + 1) * ts <= nb * ts) by (nonlinear_arith)
                requires
                    b + 1 <= nb,
                    ts >= 0,
            ;
            assert((b + 1) * bs == b * bs + bs && (b + 1) * ts == b * ts + ts)
                by (nonlinear_arith);
            if made_of_blocks {
                let blk = slice_subrange(src, b * ts, b * ts + ts);
                self.decode_block(t, blk, &mut out);
                assert forall|i: int| 0 <= i < (b + 1) * bs implies (#[trigger] out@[i]) == element(
                    f,
                    t,
                    src@,
                    i,
                ) by {
                    if i >= b * bs {
                        let e = i - b * bs;
                        assert(i / bs as int == b && i % bs as int == e) by (nonlinear_arith)
                            requires
                                i == b * bs + e,
                                0 <= e < bs,
                        ;
                        assert(out@[before.len() + e] == block_value(f, t, blk@, e));
                    } else {
                        assert(out@[i] == before[i]);
                    }
                }
            } else {
                assert(b * bs == b) by (nonlinear_arith)
                    requires
                        bs == 1,
                ;
                let v = self.plain_element(t, src, b);
                out.push(v);
            }
            b = b + 1;
        }
        Ok(out)
    }

    /// Decodes into a destination of just that size.
    pub fn dequantize_vec(&self, t: DType, src: &[u8], n: usize) -> (r: Result<Vec<u32>, Error>)
        requires
            self.works(),
            t.bytes_for(n as nat) <= usize::MAX,
        ensures
            match decode_fault(t, src@.len(), n as nat, n as nat) {
                Some(e) => r is Err && r->Err_0@ == e,
                None => r is Ok && r->Ok_0@.len() == n && forall|i: int|
                    0 <= i < n ==> (#[trigger] r->Ok_0@[i]) == element(
                        self.ops(),
                        t,
                        src@,
                        i,
                    ),
            },
    {
        self.dequantize(t, src, n, n)
    }
}

} // verus!
