//! The container's header: metadata and the table of tensors, read from bytes.

use vstd::prelude::*;
use vstd::string::*;
use vstd::utf8::*;

use super::value::{values, Value, ValueView};
use crate::dict::{lookup, put, Dict};
use crate::dtype::{dtype_parse, DType};
use crate::error::{Error, ErrorView};
use crate::text::{cat2, cat3, cat4, cat5, debug_text, dec, decimal, own, quoted};

verus! {

// ----------------------------------------------------------------------------- scalars

/// A step of reading: what was read and where reading goes on, or why it failed.
pub type Step<T> = Result<(T, nat), ErrorView>;

/// The failure of a read that asks for more bytes than there are.
pub open spec fn short() -> ErrorView {
    ErrorView::Io("failed to fill whole buffer"@)
}

pub open spec fn le16(s: Seq<u8>, p: nat) -> u16 {
    (s[p as int] + 256 * s[p as int + 1]) as u16
}

pub open spec fn le32(s: Seq<u8>, p: nat) -> u32 {
    (s[p as int] + 0x100 * s[p as int + 1] + 0x1_0000 * s[p as int + 2] + 0x100_0000
        * s[p as int + 3]) as u32
}

pub open spec fn le64(s: Seq<u8>, p: nat) -> u64 {
    (le32(s, p) + 0x1_0000_0000 * le32(s, p + 4)) as u64
}

pub open spec fn read_u8(s: Seq<u8>, p: nat) -> Step<u8> {
    if p + 1 <= s.len() {
        Ok((s[p as int], p + 1))
    } else {
        Err(short())
    }
}

pub open spec fn read_u16(s: Seq<u8>, p: nat) -> Step<u16> {
    if p + 2 <= s.len() {
        Ok((le16(s, p), p + 2))
    } else {
        Err(short())
    }
}

pub open spec fn read_u32(s: Seq<u8>, p: nat) -> Step<u32> {
    if p + 4 <= s.len() {
        Ok((le32(s, p), p + 4))
    } else {
        Err(short())
    }
}

pub open spec fn read_u64(s: Seq<u8>, p: nat) -> Step<u64> {
    if p + 8 <= s.len() {
        Ok((le64(s, p), p + 8))
    } else {
        Err(short())
    }
}

/// The text that bytes stand for, with a replacement character in place of each maximal
/// sequence that is not UTF-8.
pub uninterp spec fn lossy(b: Seq<u8>) -> Seq<char>;

/// `String::from_utf8_lossy`, whose result is named by [`lossy`]. Bytes that are UTF-8 are
/// taken over unchanged.
#[verifier::external_body]
pub(crate) fn text_of_bytes(b: &[u8]) -> (r: String)
    ensures
        r@ == lossy(b@),
        valid_utf8(b@) ==> r@ == decode_utf8(b@),
{
    std::string::String::from_utf8_lossy(b).into_owned()
}

/// A string: its length in bytes, then the bytes.
pub open spec fn read_text(s: Seq<u8>, p: nat) -> Step<Seq<char>> {
    match read_u64(s, p) {
        Err(e) => Err(e),
        Ok((n, q)) => if n > 0x4000_0000 {
            Err(ErrorView::Format("string length "@ + dec(n as nat) + " is implausible"@))
        } else if q + n <= s.len() {
            Ok((lossy(s.subrange(q as int, (q + n) as int)), (q + n) as nat))
        } else {
            Err(short())
        },
    }
}

/// Bytes with the position of the next one to read.
pub struct Counting<'a> {
    pub data: &'a [u8],
    pub pos: usize,
}

impl<'a> Counting<'a> {
    pub open spec fn wf(self) -> bool {
        self.pos <= self.data@.len()
    }

    pub fn new(data: &'a [u8]) -> (r: Self)
        ensures
            r.wf(),
            r.data == data,
            r.pos == 0,
    {
        Counting { data, pos: 0 }
    }

    /// Moves over the next `n` bytes and hands them out.
    pub fn exact(&mut self, n: usize) -> (r: Result<&'a [u8], Error>)
        requires
            old(self).wf(),
        ensures
            final(self).wf(),
            final(self).data == old(self).data,
            old(self).pos + n <= old(self).data@.len() ==> r is Ok && r->Ok_0@
                == old(self).data@.subrange(old(self).pos as int, old(self).pos + n)
                && final(self).pos == old(self).pos + n,
            old(self).pos + n > old(self).data@.len() ==> r is Err && r->Err_0@ == short()
                && final(self).pos == old(self).pos,
    {
        let len = self.data.len();
        if n > len - self.pos {
            return Err(Error::Io(own("failed to fill whole buffer")));
        }
        let out = vstd::slice::slice_subrange(self.data, self.pos, self.pos + n);
        self.pos = self.pos + n;
        Ok(out)
    }

    pub fn u8(&mut self) -> (r: Result<u8, Error>)
        requires
            old(self).wf(),
        ensures
            final(self).wf(),
            final(self).data == old(self).data,
            match read_u8(old(self).data@, old(self).pos as nat) {
                Ok((v, p)) => r == Ok::<u8, Error>(v) && final(self).pos == p,
                Err(e) => r is Err && r->Err_0@ == e,
            },
    {
        let b = self.exact(1)?;
        Ok(b[0])
    }

    pub fn u16(&mut self) -> (r: Result<u16, Error>)
        requires
            old(self).wf(),
        ensures
            final(self).wf(),
            final(self).data == old(self).data,
            match read_u16(old(self).data@, old(self).pos as nat) {
                Ok((v, p)) => r == Ok::<u16, Error>(v) && final(self).pos == p,
                Err(e) => r is Err && r->Err_0@ == e,
            },
    {
        let b = self.exact(2)?;
        Ok(b[0] as u16 + 256 * (b[1] as u16))
    }

    pub fn u32(&mut self) -> (r: Result<u32, Error>)
        requires
            old(self).wf(),
        ensures
            final(self).wf(),
            final(self).data == old(self).data,
            match read_u32(old(self).data@, old(self).pos as nat) {
                Ok((v, p)) => r == Ok::<u32, Error>(v) && final(self).pos == p,
                Err(e) => r is Err && r->Err_0@ == e,
            },
    {
        let b = self.exact(4)?;
        Ok(
            b[0] as u32 + 0x100 * (b[1] as u32) + 0x1_0000 * (b[2] as u32) + 0x100_0000 * (
            b[3] as u32),
        )
    }

    pub fn u64(&mut self) -> (r: Result<u64, Error>)
        requires
            old(self).wf(),
        ensures
            final(self).wf(),
            final(self).data == old(self).data,
            match read_u64(old(self).data@, old(self).pos as nat) {
                Ok((v, p)) => r == Ok::<u64, Error>(v) && final(self).pos == p,
                Err(e) => r is Err && r->Err_0@ == e,
            },
    {
        let b = self.exact(8)?;
        let lo: u32 = b[0] as u32 + 0x100 * (b[1] as u32) + 0x1_0000 * (b[2] as u32) + 0x100_0000
            * (b[3] as u32);
        let hi: u32 = b[4] as u32 + 0x100 * (b[5] as u32) + 0x1_0000 * (b[6] as u32) + 0x100_0000
            * (b[7] as u32);
        assert(lo == le32(self.data@, (self.pos - 8) as nat));
        assert(hi == le32(self.data@, (self.pos - 4) as nat));
        Ok(lo as u64 + 0x1_0000_0000 * (hi as u64))
    }

    pub fn string(&mut self) -> (r: Result<String, Error>)
        requires
            old(self).wf(),
        ensures
            final(self).wf(),
            final(self).data == old(self).data,
            match read_text(old(self).data@, old(self).pos as nat) {
                Ok((v, p)) => r is Ok && r->Ok_0@ == v && final(self).pos == p,
                Err(e) => r is Err && r->Err_0@ == e,
            },
    {
        let n = self.u64()?;
        if n > 0x4000_0000 {
            return Err(
                Error::Format(cat3("string length ", decimal(n).as_str(), " is implausible")),
            );
        }
        let b = self.exact(n as usize)?;
        Ok(text_of_bytes(b))
    }
}

// ------------------------------------------------------------------------------ values

/// A metadata value of the wire type `t`, inside `depth` arrays.
pub open spec fn read_wire(s: Seq<u8>, p: nat, t: u32, depth: nat) -> Step<ValueView>
    decreases 6 - depth, 0nat,
{
    if depth > 4 {
        Err(ErrorView::Format("metadata array nested too deeply"@))
    } else if t == 0 {
        match read_u8(s, p) {
            Ok((v, q)) => Ok((ValueView::U8(v), q)),
            Err(e) => Err(e),
        }
    } else if t == 1 {
        match read_u8(s, p) {
            Ok((v, q)) => Ok((ValueView::I8(v as i8), q)),
            Err(e) => Err(e),
        }
    } else if t == 2 {
        match read_u16(s, p) {
            Ok((v, q)) => Ok((ValueView::U16(v), q)),
            Err(e) => Err(e),
        }
    } else if t == 3 {
        match read_u16(s, p) {
            Ok((v, q)) => Ok((ValueView::I16(v as i16), q)),
            Err(e) => Err(e),
        }
    } else if t == 4 {
        match read_u32(s, p) {
            Ok((v, q)) => Ok((ValueView::U32(v), q)),
            Err(e) => Err(e),
        }
    } else if t == 5 {
        match read_u32(s, p) {
            Ok((v, q)) => Ok((ValueView::I32(v as i32), q)),
            Err(e) => Err(e),
        }
    } else if t == 6 {
        match read_u32(s, p) {
            Ok((v, q)) => Ok((ValueView::F32(v), q)),
            Err(e) => Err(e),
        }
    } else if t == 7 {
        match read_u8(s, p) {
            Ok((v, q)) => Ok((ValueView::Bool(v != 0), q)),
            Err(e) => Err(e),
        }
    } else if t == 8 {
        match read_text(s, p) {
            Ok((v, q)) => Ok((ValueView::String(v), q)),
            Err(e) => Err(e),
        }
    } else if t == 9 {
        match read_u32(s, p) {
            Err(e) => Err(e),
            Ok((elem, q)) => match read_u64(s, q) {
                Err(e) => Err(e),
                Ok((n, q2)) => if n > 0x1000_0000 {
                    Err(ErrorView::Format("array length "@ + dec(n as nat) + " is implausible"@))
                } else {
                    match read_wires(s, q2, elem, depth + 1, n as nat) {
                        Ok((items, q3)) => Ok((ValueView::Array(items), q3)),
                        Err(e) => Err(e),
                    }
                },
            },
        }
    } else if t == 10 {
        match read_u64(s, p) {
            Ok((v, q)) => Ok((ValueView::U64(v), q)),
            Err(e) => Err(e),
        }
    } else if t == 11 {
        match read_u64(s, p) {
            Ok((v, q)) => Ok((ValueView::I64(v as i64), q)),
            Err(e) => Err(e),
        }
    } else if t == 12 {
        match read_u64(s, p) {
            Ok((v, q)) => Ok((ValueView::F64(v), q)),
            Err(e) => Err(e),
        }
    } else {
        Err(ErrorView::Format("unknown metadata value type "@ + dec(t as nat)))
    }
}

/// `n` values of the wire type `t`, one after the other.
pub open spec fn read_wires(s: Seq<u8>, p: nat, t: u32, depth: nat, n: nat) -> Step<Seq<ValueView>>
    decreases 6 - depth, n + 1,
{
    if n == 0 {
        Ok((Seq::empty(), p))
    } else {
        match read_wires(s, p, t, depth, (n - 1) as nat) {
            Err(e) => Err(e),
            Ok((items, q)) => match read_wire(s, q, t, depth) {
                Err(e) => Err(e),
                Ok((v, q2)) => Ok((items.push(v), q2)),
            },
        }
    }
}

/// Where reading `n` values fails, reading more of them fails in the same way.
proof fn read_wires_error_persists(s: Seq<u8>, p: nat, t: u32, depth: nat, n: nat, m: nat)
    requires
        n <= m,
        read_wires(s, p, t, depth, n) is Err,
    ensures
        read_wires(s, p, t, depth, m) == read_wires(s, p, t, depth, n),
    decreases m,
{
    if n < m {
        read_wires_error_persists(s, p, t, depth, n, (m - 1) as nat);
    }
}

/// Reads a metadata value of the wire type `type_id`.
pub fn read_value(r: &mut Counting<'_>, type_id: u32, depth: u32) -> (res: Result<Value, Error>)
    requires
        old(r).wf(),
    ensures
        final(r).wf(),
        final(r).data == old(r).data,
        match read_wire(old(r).data@, old(r).pos as nat, type_id, depth as nat) {
            Ok((v, p)) => res is Ok && res->Ok_0@ == v && final(r).pos == p,
            Err(e) => res is Err && res->Err_0@ == e,
        },
    decreases 0x1_0000_0000 - depth,
{
    if depth > 4 {
        return Err(Error::Format(own("metadata array nested too deeply")));
    }
    if type_id == 0 {
        Ok(Value::U8(r.u8()?))
    } else if type_id == 1 {
        Ok(Value::I8(r.u8()? as i8))
    } else if type_id == 2 {
        Ok(Value::U16(r.u16()?))
    } else if type_id == 3 {
        Ok(Value::I16(r.u16()? as i16))
    } else if type_id == 4 {
        Ok(Value::U32(r.u32()?))
    } else if type_id == 5 {
        Ok(Value::I32(r.u32()? as i32))
    } else if type_id == 6 {
        Ok(Value::F32(r.u32()?))
    } else if type_id == 7 {
        Ok(Value::Bool(r.u8()? != 0))
    } else if type_id == 8 {
        Ok(Value::String(r.string()?))
    } else if type_id == 9 {
        let elem = r.u32()?;
        let n = r.u64()?;
        if n > 0x1000_0000 {
            return Err(
                Error::Format(cat3("array length ", decimal(n).as_str(), " is implausible")),
            );
        }
        let mut out: Vec<Value> = Vec::new();
        let ghost start = r.pos as nat;
        assert(values(out@) =~= Seq::<ValueView>::empty());
        let mut i: u64 = 0;
        while i < n
            invariant
                r.wf(),
                r.data == old(r).data,
                depth <= 4,
                i <= n,
                read_wires(r.data@, start, elem, (depth + 1) as nat, i as nat) == Ok::<
                    (Seq<ValueView>, nat),
                    ErrorView,
                >((values(out@), r.pos as nat)),
                ({
                    let w = read_wires(r.data@, start, elem, (depth + 1) as nat, n as nat);
                    match read_wire(old(r).data@, old(r).pos as nat, type_id, depth as nat) {
                        Ok((v, p)) => w is Ok && v == ValueView::Array(w->Ok_0.0) && p == w->Ok_0.1,
                        Err(e) => w == Err::<(Seq<ValueView>, nat), ErrorView>(e),
                    }
                }),
            decreases n - i,
        {
            let ghost before = values(out@);
            let v = match read_value(r, elem, depth + 1) {
                Ok(v) => v,
                Err(e) => {
                    proof {
                        read_wires_error_persists(
                            r.data@,
                            start,
                            elem,
                            (depth + 1) as nat,
                            (i + 1) as nat,
                            n as nat,
                        );
                    }
                    return Err(e);
                },
            };
            out.push(v);
            i = i + 1;
            assert(values(out@) =~= before.push(v@));
        }
        let res = Value::Array(out);
        assert(res@->Array_0 =~= values(out@));
        Ok(res)
    } else if type_id == 10 {
        Ok(Value::U64(r.u64()?))
    } else if type_id == 11 {
        Ok(Value::I64(r.u64()? as i64))
    } else if type_id == 12 {
        Ok(Value::F64(r.u64()?))
    } else {
        Err(Error::Format(cat2("unknown metadata value type ", decimal(type_id as u64).as_str())))
    }
}

// ------------------------------------------------------------------------------ header

/// One entry of the table of tensors.
#[derive(Debug)]
pub struct TensorInfo {
    pub name: String,
    /// ggml dimension order: `dims[0]` is the fastest-varying axis, i.e. the row length.
    pub dims: Vec<u64>,
    pub dtype: DType,
    /// Offset from the start of the tensor data section.
    pub offset: u64,
}

/// The mathematical value of a [`TensorInfo`].
pub struct TensorView {
    pub name: Seq<char>,
    pub dims: Seq<u64>,
    pub dtype: DType,
    pub offset: u64,
}

impl View for TensorInfo {
    type V = TensorView;

    open spec fn view(&self) -> TensorView {
        TensorView {
            name: self.name@,
            dims: self.dims@,
            dtype: self.dtype,
            offset: self.offset,
        }
    }
}

/// The views of a list of table entries.
pub open spec fn tensor_views(v: Seq<TensorInfo>) -> Seq<TensorView> {
    Seq::new(v.len(), |i: int| v[i]@)
}

/// What the header of a file says.
#[derive(Debug)]
pub struct Parsed {
    pub metadata: Dict<Value>,
    pub tensors: Vec<TensorInfo>,
    pub data_offset: u64,
    pub version: u32,
}

/// The mathematical value of a [`Parsed`].
pub struct ParsedView {
    pub metadata: Seq<(Seq<char>, ValueView)>,
    pub tensors: Seq<TensorView>,
    pub data_offset: u64,
    pub version: u32,
}

impl View for Parsed {
    type V = ParsedView;

    open spec fn view(&self) -> ParsedView {
        ParsedView {
            metadata: self.metadata.items(),
            tensors: tensor_views(self.tensors@),
            data_offset: self.data_offset,
            version: self.version,
        }
    }
}

/// A metadata entry: its key, the type of its value, the value.
pub open spec fn read_entry(s: Seq<u8>, p: nat) -> Step<(Seq<char>, ValueView)> {
    match read_text(s, p) {
        Err(e) => Err(e),
        Ok((key, q)) => match read_u32(s, q) {
            Err(e) => Err(e),
            Ok((t, q2)) => match read_wire(s, q2, t, 0) {
                Err(e) => Err(
                    ErrorView::Format("metadata key "@ + quoted(key) + ": "@ + e.text()),
                ),
                Ok((v, q3)) => Ok(((key, v), q3)),
            },
        },
    }
}

/// `n` metadata entries. A key that comes again replaces what it had.
pub open spec fn read_entries(s: Seq<u8>, p: nat, n: nat) -> Step<Seq<(Seq<char>, ValueView)>>
    decreases n,
{
    if n == 0 {
        Ok((Seq::empty(), p))
    } else {
        match read_entries(s, p, (n - 1) as nat) {
            Err(e) => Err(e),
            Ok((m, q)) => match read_entry(s, q) {
                Err(e) => Err(e),
                Ok(((k, v), q2)) => Ok((put(m, k, v), q2)),
            },
        }
    }
}

/// `n` dimensions.
pub open spec fn read_dims(s: Seq<u8>, p: nat, n: nat) -> Step<Seq<u64>>
    decreases n,
{
    if n == 0 {
        Ok((Seq::empty(), p))
    } else {
        match read_dims(s, p, (n - 1) as nat) {
            Err(e) => Err(e),
            Ok((d, q)) => match read_u64(s, q) {
                Err(e) => Err(e),
                Ok((v, q2)) => Ok((d.push(v), q2)),
            },
        }
    }
}

/// An entry of the table of tensors.
pub open spec fn read_tensor(s: Seq<u8>, p: nat) -> Step<TensorView> {
    match read_text(s, p) {
        Err(e) => Err(e),
        Ok((name, q)) => match read_u32(s, q) {
            Err(e) => Err(e),
            Ok((n, q2)) => if n > 4 {
                Err(
                    ErrorView::Format(
                        "tensor "@ + name + " declares "@ + dec(n as nat)
                            + " dimensions; ggml allows at most 4"@,
                    ),
                )
            } else {
                match read_dims(s, q2, n as nat) {
                    Err(e) => Err(e),
                    Ok((dims, q3)) => match read_u32(s, q3) {
                        Err(e) => Err(e),
                        Ok((t, q4)) => match dtype_parse(t) {
                            Err(e) => Err(
                                ErrorView::Format("tensor "@ + name + ": "@ + e.text()),
                            ),
                            Ok(dtype) => match read_u64(s, q4) {
                                Err(e) => Err(e),
                                Ok((offset, q5)) => Ok(
                                    (TensorView { name, dims, dtype, offset }, q5),
                                ),
                            },
                        },
                    },
                }
            },
        },
    }
}

/// `n` entries of the table of tensors.
pub open spec fn read_tensors(s: Seq<u8>, p: nat, n: nat) -> Step<Seq<TensorView>>
    decreases n,
{
    if n == 0 {
        Ok((Seq::empty(), p))
    } else {
        match read_tensors(s, p, (n - 1) as nat) {
            Err(e) => Err(e),
            Ok((ts, q)) => match read_tensor(s, q) {
                Err(e) => Err(e),
                Ok((t, q2)) => Ok((ts.push(t), q2)),
            },
        }
    }
}

proof fn read_entries_error_persists(s: Seq<u8>, p: nat, n: nat, m: nat)
    requires
        n <= m,
        read_entries(s, p, n) is Err,
    ensures
        read_entries(s, p, m) == read_entries(s, p, n),
    decreases m,
{
    if n < m {
        read_entries_error_persists(s, p, n, (m - 1) as nat);
    }
}

proof fn read_dims_error_persists(s: Seq<u8>, p: nat, n: nat, m: nat)
    requires
        n <= m,
        read_dims(s, p, n) is Err,
    ensures
        read_dims(s, p, m) == read_dims(s, p, n),
    decreases m,
{
    if n < m {
        read_dims_error_persists(s, p, n, (m - 1) as nat);
    }
}

proof fn read_tensors_error_persists(s: Seq<u8>, p: nat, n: nat, m: nat)
    requires
        n <= m,
        read_tensors(s, p, n) is Err,
    ensures
        read_tensors(s, p, m) == read_tensors(s, p, n),
    decreases m,
{
    if n < m {
        read_tensors_error_persists(s, p, n, (m - 1) as nat);
    }
}

/// The character of a hexadecimal digit.
pub open spec fn hex_digit(d: nat) -> char {
    if d < 10 {
        crate::text::digit(d)
    } else if d == 10 {
        'a'
    } else if d == 11 {
        'b'
    } else if d == 12 {
        'c'
    } else if d == 13 {
        'd'
    } else if d == 14 {
        'e'
    } else {
        'f'
    }
}

/// A byte as two hexadecimal digits.
pub open spec fn hex2(b: u8) -> Seq<char> {
    seq![hex_digit((b / 16) as nat), hex_digit((b % 16) as nat)]
}

fn hex_char(d: u8) -> (c: char)
    requires
        d < 16,
    ensures
        c == hex_digit(d as nat),
{
    match d {
        0 => '0',
        1 => '1',
        2 => '2',
        3 => '3',
        4 => '4',
        5 => '5',
        6 => '6',
        7 => '7',
        8 => '8',
        9 => '9',
        10 => 'a',
        11 => 'b',
        12 => 'c',
        13 => 'd',
        14 => 'e',
        _ => 'f',
    }
}

/// A byte as two hexadecimal digits.
pub fn hex_text(b: u8) -> (r: String)
    ensures
        r@ == hex2(b),
{
    let mut out = String::new();
    out.push(hex_char(b / 16));
    out.push(hex_char(b % 16));
    assert(out@ =~= hex2(b));
    out
}

/// What the magic number of a file has to be.
pub open spec fn is_magic(m: Seq<u8>) -> bool {
    m[0] == 0x47 && m[1] == 0x47 && m[2] == 0x55 && m[3] == 0x46
}

/// The alignment of the tensor data that metadata asks for.
pub open spec fn alignment_of(m: Seq<(Seq<char>, ValueView)>) -> u64 {
    match lookup(m, "general.alignment"@) {
        Some(v) => match v.to_u64() {
            Some(a) => if a == 0 {
                1
            } else {
                a
            },
            None => 32,
        },
        None => 32,
    }
}

/// The first multiple of `a` at or after `p`.
pub open spec fn align_up(p: nat, a: nat) -> nat {
    (p + a - 1) as nat / a * a
}

/// What the header of the file `s` says.
pub open spec fn parse_spec(s: Seq<u8>) -> Result<ParsedView, ErrorView> {
    if s.len() < 4 {
        Err(short())
    } else if !is_magic(s) {
        Err(
            ErrorView::Format(
                "not a GGUF file (magic ["@ + hex2(s[0]) + ", "@ + hex2(s[1]) + ", "@ + hex2(s[2])
                    + ", "@ + hex2(s[3])
                    + "]; a .bin or .pth checkpoint needs converting first)"@,
            ),
        )
    } else {
        match read_u32(s, 4) {
            Err(e) => Err(e),
            Ok((version, p)) => if version < 2 || version > 3 {
                Err(
                    ErrorView::Format(
                        "GGUF version "@ + dec(version as nat)
                            + " is not supported (this engine reads v2 and v3)"@,
                    ),
                )
            } else {
                match read_u64(s, p) {
                    Err(e) => Err(e),
                    Ok((n_tensors, p2)) => match read_u64(s, p2) {
                        Err(e) => Err(e),
                        Ok((n_kv, p3)) => match read_entries(s, p3, n_kv as nat) {
                            Err(e) => Err(e),
                            Ok((metadata, p4)) => match read_tensors(s, p4, n_tensors as nat) {
                                Err(e) => Err(e),
                                Ok((tensors, p5)) => {
                                    let a = alignment_of(metadata);
                                    if align_up(p5, a as nat) > u64::MAX {
                                        Err(
                                            ErrorView::Format(
                                                "alignment "@ + dec(a as nat) + " is implausible"@,
                                            ),
                                        )
                                    } else {
                                        Ok(
                                            ParsedView {
                                                metadata,
                                                tensors,
                                                data_offset: align_up(p5, a as nat) as u64,
                                                version,
                                            },
                                        )
                                    }
                                },
                            },
                        },
                    },
                }
            },
        }
    }
}

/// The tensor data begins at a multiple of the alignment.
pub proof fn data_offset_is_aligned(s: Seq<u8>)
    ensures
        match parse_spec(s) {
            Ok(h) => h.data_offset % alignment_of(h.metadata) == 0 && (h.version == 2 || h.version
                == 3),
            Err(_) => true,
        },
{
    match parse_spec(s) {
        Ok(h) => {
            let a = alignment_of(h.metadata) as int;
            assert forall|p: int| #[trigger] ((p + a - 1) / a * a) % a == 0 by {
                vstd::arithmetic::div_mod::lemma_mod_multiples_basic((p + a - 1) / a, a);
            }
        },
        Err(_) => {},
    }
}

/// No key of the metadata stands twice.
pub proof fn metadata_keys_are_distinct(s: Seq<u8>, p: nat, n: nat)
    ensures
        read_entries(s, p, n) is Ok ==> crate::dict::keys_distinct(read_entries(s, p, n)->Ok_0.0),
    decreases n,
{
    if n > 0 {
        metadata_keys_are_distinct(s, p, (n - 1) as nat);
        if read_entries(s, p, n) is Ok {
            let (m, q) = read_entries(s, p, (n - 1) as nat)->Ok_0;
            let ((k, v), q2) = read_entry(s, q)->Ok_0;
            crate::dict::put_then_lookup(m, k, v, k);
        }
    }
}

fn read_one_entry(r: &mut Counting<'_>) -> (res: Result<(String, Value), Error>)
    requires
        old(r).wf(),
    ensures
        final(r).wf(),
        final(r).data == old(r).data,
        match read_entry(old(r).data@, old(r).pos as nat) {
            Ok(((k, v), p)) => res is Ok && res->Ok_0.0@ == k && res->Ok_0.1@ == v
                && final(r).pos == p,
            Err(e) => res is Err && res->Err_0@ == e,
        },
{
    let key = r.string()?;
    let type_id = r.u32()?;
    match read_value(r, type_id, 0) {
        Ok(v) => Ok((key, v)),
        Err(e) => Err(
            Error::Format(
                cat4(
                    "metadata key ",
                    debug_text(key.as_str()).as_str(),
                    ": ",
                    e.message().as_str(),
                ),
            ),
        ),
    }
}

fn read_one_tensor(r: &mut Counting<'_>) -> (res: Result<TensorInfo, Error>)
    requires
        old(r).wf(),
    ensures
        final(r).wf(),
        final(r).data == old(r).data,
        match read_tensor(old(r).data@, old(r).pos as nat) {
            Ok((t, p)) => res is Ok && res->Ok_0@ == t && final(r).pos == p,
            Err(e) => res is Err && res->Err_0@ == e,
        },
{
    let name = r.string()?;
    let n_dims = r.u32()?;
    if n_dims > 4 {
        return Err(
            Error::Format(
                cat5(
                    "tensor ",
                    name.as_str(),
                    " declares ",
                    decimal(n_dims as u64).as_str(),
                    " dimensions; ggml allows at most 4",
                ),
            ),
        );
    }
    let mut dims: Vec<u64> = Vec::new();
    let ghost start = r.pos as nat;
    let mut i: u32 = 0;
    while i < n_dims
        invariant
            r.wf(),
            r.data == old(r).data,
            i <= n_dims <= 4,
            read_dims(r.data@, start, i as nat) == Ok::<(Seq<u64>, nat), ErrorView>(
                (dims@, r.pos as nat),
            ),
            read_text(old(r).data@, old(r).pos as nat) is Ok,
            read_u32(
                old(r).data@,
                read_text(old(r).data@, old(r).pos as nat)->Ok_0.1,
            ) == Ok::<(u32, nat), ErrorView>((n_dims, start)),
        decreases n_dims - i,
    {
        match r.u64() {
            Ok(v) => dims.push(v),
            Err(e) => {
                proof {
                    read_dims_error_persists(r.data@, start, (i + 1) as nat, n_dims as nat);
                }
                return Err(e);
            },
        }
        i = i + 1;
    }
    let t = r.u32()?;
    let dtype = match DType::from_u32(t) {
        Ok(d) => d,
        Err(e) => {
            return Err(
                Error::Format(cat4("tensor ", name.as_str(), ": ", e.message().as_str())),
            );
        },
    };
    let offset = r.u64()?;
    Ok(TensorInfo { name, dims, dtype, offset })
}

/// Reads the header of a GGUF file.
pub fn parse(data: &[u8]) -> (res: Result<Parsed, Error>)
    ensures
        match parse_spec(data@) {
            Ok(h) => res is Ok && res->Ok_0@ == h && res->Ok_0.metadata.wf(),
            Err(e) => res is Err && res->Err_0@ == e,
        },
{
    let mut r = Counting::new(data);
    let magic = r.exact(4)?;
    assert(magic@[0] == data@[0] && magic@[1] == data@[1] && magic@[2] == data@[2] && magic@[3]
        == data@[3]);
    if !(magic[0] == 0x47 && magic[1] == 0x47 && magic[2] == 0x55 && magic[3] == 0x46) {
        let mut m = cat4(
            "not a GGUF file (magic [",
            hex_text(magic[0]).as_str(),
            ", ",
            hex_text(magic[1]).as_str(),
        );
        m.append(", ");
        m.append(hex_text(magic[2]).as_str());
        m.append(", ");
        m.append(hex_text(magic[3]).as_str());
        m.append("]; a .bin or .pth checkpoint needs converting first)");
        return Err(Error::Format(m));
    }
    let version = r.u32()?;
    if version < 2 || version > 3 {
        return Err(
            Error::Format(
                cat3(
                    "GGUF version ",
                    decimal(version as u64).as_str(),
                    " is not supported (this engine reads v2 and v3)",
                ),
            ),
        );
    }
    let n_tensors = r.u64()?;
    let n_kv = r.u64()?;
    let mut metadata: Dict<Value> = Dict::new();
    let ghost p3 = r.pos as nat;
    let mut i: u64 = 0;
    while i < n_kv
        invariant
            r.wf(),
            r.data == data,
            metadata.wf(),
            i <= n_kv,
            read_entries(data@, p3, i as nat) == Ok::<
                (Seq<(Seq<char>, ValueView)>, nat),
                ErrorView,
            >((metadata.items(), r.pos as nat)),
            read_entries(data@, p3, n_kv as nat) is Err ==> parse_spec(data@) == Err::<
                ParsedView,
                ErrorView,
            >(read_entries(data@, p3, n_kv as nat)->Err_0),
        decreases n_kv - i,
    {
        match read_one_entry(&mut r) {
            Ok((k, v)) => metadata.insert(k, v),
            Err(e) => {
                proof {
                    read_entries_error_persists(data@, p3, (i + 1) as nat, n_kv as nat);
                }
                return Err(e);
            },
        }
        i = i + 1;
    }
    let mut tensors: Vec<TensorInfo> = Vec::new();
    let ghost p4 = r.pos as nat;
    assert(tensor_views(tensors@) =~= Seq::<TensorView>::empty());
    let mut j: u64 = 0;
    while j < n_tensors
        invariant
            r.wf(),
            r.data == data,
            j <= n_tensors,
            read_tensors(data@, p4, j as nat) == Ok::<(Seq<TensorView>, nat), ErrorView>(
                (tensor_views(tensors@), r.pos as nat),
            ),
            read_tensors(data@, p4, n_tensors as nat) is Err ==> parse_spec(data@) == Err::<
                ParsedView,
                ErrorView,
            >(read_tensors(data@, p4, n_tensors as nat)->Err_0),
        decreases n_tensors - j,
    {
        let ghost before = tensor_views(tensors@);
        match read_one_tensor(&mut r) {
            Ok(t) => {
                tensors.push(t);
                assert(tensor_views(tensors@) =~= before.push(t@));
            },
            Err(e) => {
                proof {
                    read_tensors_error_persists(data@, p4, (j + 1) as nat, n_tensors as nat);
                }
                return Err(e);
            },
        }
        j = j + 1;
    }
    let alignment: u64 = match metadata.get("general.alignment") {
        Some(v) => match v.as_u64() {
            Some(a) => if a == 0 {
                1
            } else {
                a
            },
            None => 32,
        },
        None => 32,
    };
    assert(alignment == alignment_of(metadata.items()));
    let wide: u128 = (r.pos as u128 + alignment as u128 - 1) / alignment as u128;
    assert(wide * alignment <= r.pos + alignment - 1) by (nonlinear_arith)
        requires
            wide == (r.pos + alignment - 1) / alignment as int,
            alignment > 0,
    ;
    let end: u128 = wide * alignment as u128;
    assert(end == align_up(r.pos as nat, alignment as nat));
    if end > u64::MAX as u128 {
        return Err(
            Error::Format(cat3("alignment ", decimal(alignment).as_str(), " is implausible")),
        );
    }
    Ok(Parsed { metadata, tensors, data_offset: end as u64, version })
}

} // verus!
