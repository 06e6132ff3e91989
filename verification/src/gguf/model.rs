//! An opened file: metadata, the table of tensors, and views of their bytes.

use vstd::prelude::*;
use vstd::string::*;

use super::reader::{parse, parse_spec, ParsedView, TensorInfo, TensorView};
use super::value::{arch_of, keys_of, strs, MetaView, Metadata};
use crate::dict::{key_from_is_first, lookup, put, Dict};
use crate::dtype::{dtype_of_id, DType, QuantView};
use crate::error::{Error, ErrorView};
use crate::text::{
    begins_with, cat2, cat3, cat4, chars_of, dec, decimal, has_prefix, join_text, joined, own,
    sort_texts, sorted, split_on, split_text, string_of_range, texts,
};

verus! {

// ------------------------------------------------------------------------------ shapes

/// The product of all dimensions.
pub open spec fn product(d: Seq<u64>) -> nat
    decreases d.len(),
{
    if d.len() == 0 {
        1
    } else {
        product(d.drop_last()) * d.last() as nat
    }
}

/// Whether the product of the dimensions, and of each leading part of them, fits 64 bits.
pub open spec fn sized(d: Seq<u64>) -> bool
    decreases d.len(),
{
    d.len() == 0 || (sized(d.drop_last()) && product(d) <= u64::MAX)
}

/// `dims[1..]`.
pub open spec fn tail(d: Seq<u64>) -> Seq<u64> {
    if d.len() == 0 {
        d
    } else {
        d.skip(1)
    }
}

impl TensorView {
    pub open spec fn elements(self) -> nat {
        product(self.dims)
    }

    pub open spec fn bytes(self) -> nat {
        self.dtype.bytes_for(self.elements())
    }

    pub open spec fn n_cols(self) -> nat {
        if self.dims.len() > 0 {
            self.dims[0] as nat
        } else {
            1
        }
    }

    pub open spec fn n_rows(self) -> nat {
        if product(tail(self.dims)) == 0 {
            1
        } else {
            product(tail(self.dims))
        }
    }

    /// Whether every size of the tensor can be held in a machine word.
    pub open spec fn representable(self) -> bool {
        &&& sized(self.dims)
        &&& sized(tail(self.dims))
        &&& self.elements() <= usize::MAX
        &&& self.bytes() <= usize::MAX
        &&& self.n_cols() <= usize::MAX
        &&& self.n_rows() <= usize::MAX
    }

    /// The dimensions, with ` x ` between each two.
    pub open spec fn shape(self) -> Seq<char> {
        joined(Seq::new(self.dims.len(), |i: int| dec(self.dims[i] as nat)), " x "@)
    }
}

/// The product of `d`, where it and that of each leading part fit 64 bits.
fn product_checked(d: &[u64], from: usize) -> (r: Option<u64>)
    requires
        from <= d@.len(),
    ensures
        match r {
            Some(n) => sized(d@.skip(from as int)) && n == product(d@.skip(from as int)),
            None => !sized(d@.skip(from as int)),
        },
{
    let ghost all = d@.skip(from as int);
    let mut n: u64 = 1;
    let mut i: usize = from;
    while i < d.len()
        invariant
            from <= i <= d@.len(),
            all == d@.skip(from as int),
            sized(all.take(i - from)),
            n == product(all.take(i - from)),
        decreases d@.len() - i,
    {
        assert(all.take(i + 1 - from).drop_last() =~= all.take(i - from));
        assert(all.take(i + 1 - from).last() == d@[i as int]);
        match n.checked_mul(d[i]) {
            Some(m) => {
                n = m;
            },
            None => {
                proof {
                    sized_prefix(all, i + 1 - from);
                }
                return None;
            },
        }
        i = i + 1;
    }
    assert(all.take(i - from) =~= all);
    Some(n)
}

proof fn sized_prefix(d: Seq<u64>, k: int)
    requires
        0 <= k <= d.len(),
        !sized(d.take(k)),
    ensures
        !sized(d),
    decreases d.len(),
{
    if k == d.len() {
        assert(d.take(k) =~= d);
    } else {
        assert(d.drop_last().take(k) =~= d.take(k));
        sized_prefix(d.drop_last(), k);
    }
}

/// The first dimension times the product of the others is the product of all.
proof fn product_splits(d: Seq<u64>)
    requires
        d.len() > 0,
    ensures
        product(d) == d[0] * product(tail(d)),
    decreases d.len(),
{
    if d.len() == 1 {
        assert(d.drop_last() =~= Seq::<u64>::empty());
        assert(tail(d) =~= Seq::<u64>::empty());
        assert(product(Seq::<u64>::empty()) == 1);
    } else {
        product_splits(d.drop_last());
        assert(tail(d).drop_last() =~= tail(d.drop_last()));
        assert(product(tail(d)) == product(tail(d.drop_last())) * d.last() as nat);
        assert(d[0] * (product(tail(d.drop_last())) * d.last()) == (d[0] * product(
            tail(d.drop_last()),
        )) * d.last()) by (nonlinear_arith);
    }
}

impl TensorInfo {
    pub fn n_elements(&self) -> (r: usize)
        requires
            sized(self.dims@),
            self@.elements() <= usize::MAX,
        ensures
            r == self@.elements(),
    {
        assert(self.dims@.skip(0) =~= self.dims@);
        match product_checked(self.dims.as_slice(), 0) {
            Some(n) => n as usize,
            None => 0,
        }
    }

    pub fn byte_size(&self) -> (r: usize)
        requires
            sized(self.dims@),
            self@.elements() <= usize::MAX,
            self@.bytes() <= usize::MAX,
        ensures
            r == self@.bytes(),
    {
        self.dtype.row_bytes(self.n_elements())
    }

    /// Row length, i.e. the input dimension of a weight matrix.
    pub fn cols(&self) -> (r: usize)
        requires
            self@.n_cols() <= usize::MAX,
        ensures
            r == self@.n_cols(),
    {
        if self.dims.len() > 0 {
            self.dims[0] as usize
        } else {
            1
        }
    }

    /// Total rows across every trailing axis, so a stacked `[n_expert, rows, cols]` MoE
    /// tensor reports `n_expert * rows`.
    pub fn rows(&self) -> (r: usize)
        requires
            sized(tail(self.dims@)),
            self@.n_rows() <= usize::MAX,
        ensures
            r == self@.n_rows(),
    {
        let from: usize = if self.dims.len() > 0 {
            1
        } else {
            0
        };
        assert(self.dims@.skip(from as int) =~= tail(self.dims@));
        match product_checked(self.dims.as_slice(), from) {
            Some(n) => if n == 0 {
                1
            } else {
                n as usize
            },
            None => 1,
        }
    }

    /// Number of experts for a 3-D stacked tensor, else 1.
    pub fn n_expert(&self) -> (r: usize)
        requires
            self.dims@.len() == 3 ==> self.dims@[2] <= usize::MAX,
        ensures
            r == if self.dims@.len() == 3 {
                self.dims@[2]
            } else {
                1
            },
    {
        if self.dims.len() == 3 {
            self.dims[2] as usize
        } else {
            1
        }
    }

    pub fn shape_string(&self) -> (r: String)
        ensures
            r@ == self@.shape(),
    {
        let mut parts: Vec<String> = Vec::new();
        let mut i: usize = 0;
        while i < self.dims.len()
            invariant
                i <= self.dims@.len(),
                texts(parts@) =~= Seq::new(i as nat, |k: int| dec(self.dims@[k] as nat)),
            decreases self.dims@.len() - i,
        {
            let ghost before = texts(parts@);
            parts.push(decimal(self.dims[i]));
            i = i + 1;
            assert(texts(parts@) =~= before.push(dec(self.dims@[i - 1] as nat)));
        }
        join_text(parts.as_slice(), " x ")
    }

    /// Whether every size of the tensor can be held in a machine word.
    fn is_representable(&self) -> (r: bool)
        ensures
            r == self@.representable(),
    {
        assert(self.dims@.skip(0) =~= self.dims@);
        let from: usize = if self.dims.len() > 0 {
            1
        } else {
            0
        };
        assert(self.dims@.skip(from as int) =~= tail(self.dims@));
        let n: u64 = match product_checked(self.dims.as_slice(), 0) {
            Some(n) => n,
            None => {
                return false;
            },
        };
        let m: u64 = match product_checked(self.dims.as_slice(), from) {
            Some(m) => m,
            None => {
                return false;
            },
        };
        let blocks: u64 = n / self.dtype.block_size() as u64;
        let size = self.dtype.type_size();
        assert(blocks * size <= 0xffff_ffff_ffff_ffff * 292) by (nonlinear_arith)
            requires
                blocks <= 0xffff_ffff_ffff_ffff,
                size <= 292,
        ;
        let bytes: u128 = blocks as u128 * size as u128;
        assert(bytes == self@.bytes());
        n <= usize::MAX as u64 && bytes <= usize::MAX as u128 && m <= usize::MAX as u64 && (
        self.dims.len() == 0 || self.dims[0] <= usize::MAX as u64)
    }
}

// --------------------------------------------------------------------------- the model

/// The mathematical value of an opened file.
pub struct ModelView {
    pub meta: MetaView,
    pub tensors: Seq<(Seq<char>, TensorView)>,
    pub order: Seq<Seq<char>>,
    pub version: u32,
    pub data_offset: u64,
    pub data: Seq<u8>,
}

/// Why the table entry `t` is refused, given where the data section begins and how long
/// the file is.
pub open spec fn tensor_fault(t: TensorView, data_offset: u64, file_len: nat) -> Option<ErrorView> {
    if !t.representable() {
        Some(ErrorView::Format("tensor "@ + t.name + " is larger than any file"@))
    } else if data_offset + t.offset + t.bytes() > file_len {
        Some(
            ErrorView::Format(
                "tensor "@ + t.name + " runs past end of file ("@ + dec(
                    (data_offset + t.offset + t.bytes()) as nat,
                ) + " > "@ + dec(file_len) + ")"@,
            ),
        )
    } else if t.n_cols() % t.dtype.block_len() != 0 {
        Some(
            ErrorView::Format(
                "tensor "@ + t.name + " has row length "@ + dec(t.n_cols())
                    + " which is not a multiple of the "@ + t.dtype.label() + " block size "@
                    + dec(t.dtype.block_len()),
            ),
        )
    } else {
        None
    }
}

/// The first table entry that is refused.
pub open spec fn first_fault(ts: Seq<TensorView>, data_offset: u64, file_len: nat) -> Option<
    ErrorView,
>
    decreases ts.len(),
{
    if ts.len() == 0 {
        None
    } else {
        match first_fault(ts.drop_last(), data_offset, file_len) {
            Some(e) => Some(e),
            None => tensor_fault(ts.last(), data_offset, file_len),
        }
    }
}

/// The table of tensors as a map; a name that comes again replaces what it had.
pub open spec fn table(ts: Seq<TensorView>) -> Seq<(Seq<char>, TensorView)>
    decreases ts.len(),
{
    if ts.len() == 0 {
        Seq::empty()
    } else {
        put(table(ts.drop_last()), ts.last().name, ts.last())
    }
}

/// What opening the file `s` yields.
pub open spec fn open_spec(s: Seq<u8>) -> Result<ModelView, ErrorView> {
    match parse_spec(s) {
        Err(e) => Err(e),
        Ok(h) => match first_fault(h.tensors, h.data_offset, s.len()) {
            Some(e) => Err(e),
            None => Ok(
                ModelView {
                    meta: MetaView { map: h.metadata, arch: arch_of(h.metadata) },
                    tensors: table(h.tensors),
                    order: Seq::new(h.tensors.len(), |i: int| h.tensors[i].name),
                    version: h.version,
                    data_offset: h.data_offset,
                    data: s,
                },
            ),
        },
    }
}

impl ModelView {
    /// Every tensor lies inside the file and has rows of whole blocks.
    pub open spec fn sound(self) -> bool {
        forall|i: int|
            0 <= i < self.tensors.len() ==> tensor_fault(
                (#[trigger] self.tensors[i]).1,
                self.data_offset,
                self.data.len(),
            ) is None
    }

    pub open spec fn tensor(self, name: Seq<char>) -> Option<TensorView> {
        lookup(self.tensors, name)
    }

    pub open spec fn has(self, name: Seq<char>) -> bool {
        self.tensor(name) is Some
    }

    /// Whether one of `names` is there.
    pub open spec fn has_any(self, names: Seq<Seq<char>>) -> bool {
        exists|i: int| 0 <= i < names.len() && self.has(#[trigger] names[i])
    }

    /// The bytes of the tensor `t`.
    pub open spec fn bytes_of(self, t: TensorView) -> Seq<u8> {
        self.data.subrange(
            self.data_offset + t.offset,
            self.data_offset + t.offset + t.bytes(),
        )
    }

    /// The position in `names` of the first one that is there.
    pub open spec fn first_present(self, names: Seq<Seq<char>>, from: nat) -> Option<nat>
        decreases names.len() - from,
    {
        if from >= names.len() {
            None
        } else if self.has(names[from as int]) {
            Some(from)
        } else {
            self.first_present(names, from + 1)
        }
    }

    /// What is said about names that are like a missing one.
    pub open spec fn near(self, name: Seq<char>) -> Seq<char> {
        let close = first_n(prefixed(keys_of(self.tensors), stem(name)), 8);
        if close.len() == 0 {
            Seq::empty()
        } else {
            "\n  present with that prefix: "@ + joined(sorted(close), ", "@)
        }
    }

    /// Total size of the first `n` tensors.
    pub open spec fn total_bytes(self, n: nat) -> nat
        decreases n,
    {
        if n == 0 {
            0
        } else {
            self.total_bytes((n - 1) as nat) + self.tensors[n - 1].1.bytes()
        }
    }

    /// Total size of those of the first `n` tensors that are of the type `t`.
    pub open spec fn typed_bytes(self, t: DType, n: nat) -> nat
        decreases n,
    {
        if n == 0 {
            0
        } else {
            self.typed_bytes(t, (n - 1) as nat) + if self.tensors[n - 1].1.dtype == t {
                self.tensors[n - 1].1.bytes()
            } else {
                0
            }
        }
    }

    /// Whether some tensor is of the type `t`.
    pub open spec fn uses(self, t: DType) -> bool {
        exists|i: int| 0 <= i < self.tensors.len() && (#[trigger] self.tensors[i]).1.dtype == t
    }

    /// Whether no type takes up more bytes than `t`, which is used itself. Where there is no
    /// tensor at all, it is the plain type.
    pub open spec fn dominates(self, t: DType) -> bool {
        if self.tensors.len() == 0 {
            t == DType::F32
        } else {
            self.uses(t) && forall|i: int|
                0 <= i < self.tensors.len() ==> self.typed_bytes(
                    (#[trigger] self.tensors[i]).1.dtype,
                    self.tensors.len(),
                ) <= self.typed_bytes(t, self.tensors.len())
        }
    }
}

/// The first `n` of `s`, or all of them.
pub open spec fn first_n<T>(s: Seq<T>, n: nat) -> Seq<T> {
    if s.len() <= n {
        s
    } else {
        s.take(n as int)
    }
}

/// Those of `names` that begin with `p`, in order.
pub open spec fn prefixed(names: Seq<Seq<char>>, p: Seq<char>) -> Seq<Seq<char>>
    decreases names.len(),
{
    if names.len() == 0 {
        Seq::empty()
    } else {
        let rest = prefixed(names.drop_last(), p);
        if begins_with(names.last(), p) {
            rest.push(names.last())
        } else {
            rest
        }
    }
}

/// The first two parts of a dotted name.
pub open spec fn stem(name: Seq<char>) -> Seq<char> {
    joined(first_n(split_on(name, "."@), 2), "."@)
}

/// What the table holds comes from the file's entries.
proof fn table_holds_entries(ts: Seq<TensorView>, data_offset: u64, file_len: nat)
    requires
        first_fault(ts, data_offset, file_len) is None,
    ensures
        forall|i: int|
            0 <= i < table(ts).len() ==> tensor_fault(
                (#[trigger] table(ts)[i]).1,
                data_offset,
                file_len,
            ) is None,
    decreases ts.len(),
{
    if ts.len() > 0 {
        table_holds_entries(ts.drop_last(), data_offset, file_len);
        key_from_is_first(table(ts.drop_last()), ts.last().name, 0);
    }
}

/// Every tensor of a file that opens lies inside it: no view reaches past its end.
pub proof fn opened_tensors_lie_in_the_file(s: Seq<u8>, name: Seq<char>)
    ensures
        open_spec(s) is Ok ==> {
            let m = open_spec(s)->Ok_0;
            m.sound() && (m.has(name) ==> {
                let t = m.tensor(name)->0;
                m.data_offset + t.offset + t.bytes() <= s.len() && m.bytes_of(t).len() == t.bytes()
            })
        },
{
    if open_spec(s) is Ok {
        let h = parse_spec(s)->Ok_0;
        let m = open_spec(s)->Ok_0;
        table_holds_entries(h.tensors, h.data_offset, s.len());
        key_from_is_first(m.tensors, name, 0);
    }
}

/// The bytes of a tensor are exactly its rows, where no dimension is zero.
pub proof fn tensor_bytes_are_its_rows(t: TensorView)
    requires
        t.n_cols() % t.dtype.block_len() == 0,
        forall|i: int| 0 <= i < t.dims.len() ==> t.dims[i] > 0,
    ensures
        t.n_rows() * t.n_cols() == t.elements(),
        t.n_rows() * t.dtype.bytes_for(t.n_cols()) == t.bytes(),
{
    let c = t.n_cols();
    let r = product(tail(t.dims));
    let b = t.dtype.block_len();
    let k = t.dtype.block_bytes();
    if t.dims.len() > 0 {
        product_splits(t.dims);
        product_positive(tail(t.dims));
    } else {
        assert(product(t.dims) == 1);
    }
    assert(r > 0);
    assert(t.n_rows() == r);
    assert(r * c == c * r) by (nonlinear_arith);
    assert(t.elements() == r * c);
    let q = c / b;
    vstd::arithmetic::div_mod::lemma_fundamental_div_mod(c as int, b as int);
    assert(c == b * q);
    assert(r * (b * q) == (r * q) * b) by (nonlinear_arith);
    vstd::arithmetic::div_mod::lemma_div_multiples_vanish((r * q) as int, b as int);
    assert((r * q) * b == b * (r * q)) by (nonlinear_arith);
    assert((r * c) / b == r * q);
    assert((r * q) * k == r * (q * k)) by (nonlinear_arith);
}

proof fn product_positive(d: Seq<u64>)
    requires
        forall|i: int| 0 <= i < d.len() ==> d[i] > 0,
    ensures
        product(d) > 0,
    decreases d.len(),
{
    if d.len() > 0 {
        product_positive(d.drop_last());
        let a = product(d.drop_last());
        let b = d.last();
        assert(a * b > 0) by (nonlinear_arith)
            requires
                a > 0,
                b > 0,
        ;
    }
}

/// A GGUF file: its header, and the bytes that hold its weights.
pub struct GgufModel<'a> {
    pub meta: Metadata,
    pub tensors: Dict<TensorInfo>,
    /// File order, which is also roughly load order.
    pub order: Vec<String>,
    pub version: u32,
    pub data_offset: u64,
    pub data: &'a [u8],
}

impl<'a> GgufModel<'a> {
    /// The mathematical value of the file.
    pub open spec fn content(self) -> ModelView {
        ModelView {
            meta: self.meta@,
            tensors: self.tensors.items(),
            order: texts(self.order@),
            version: self.version,
            data_offset: self.data_offset,
            data: self.data@,
        }
    }
}

/// A copy of a table entry.
fn copy_info(t: &TensorInfo) -> (r: TensorInfo)
    ensures
        r@ == t@,
{
    let mut dims: Vec<u64> = Vec::new();
    let mut i: usize = 0;
    while i < t.dims.len()
        invariant
            i <= t.dims@.len(),
            dims@ == t.dims@.take(i as int),
        decreases t.dims@.len() - i,
    {
        dims.push(t.dims[i]);
        i = i + 1;
        assert(t.dims@.take(i as int) =~= t.dims@.take(i - 1).push(t.dims@[i - 1]));
    }
    assert(dims@ =~= t.dims@);
    TensorInfo { name: t.name.clone(), dims, dtype: t.dtype, offset: t.offset }
}

/// Why a table entry is refused.
fn fault_of(t: &TensorInfo, data_offset: u64, file_len: usize) -> (r: Option<Error>)
    ensures
        match tensor_fault(t@, data_offset, file_len as nat) {
            Some(e) => r is Some && r->0@ == e,
            None => r is None,
        },
{
    if !t.is_representable() {
        return Some(
            Error::Format(cat3("tensor ", t.name.as_str(), " is larger than any file")),
        );
    }
    let end: u128 = data_offset as u128 + t.offset as u128 + t.byte_size() as u128;
    if end > file_len as u128 {
        let mut m = cat3("tensor ", t.name.as_str(), " runs past end of file (");
        m.append(wide_decimal(end).as_str());
        m.append(" > ");
        m.append(decimal(file_len as u64).as_str());
        m.append(")");
        return Some(Error::Format(m));
    }
    let c = t.cols();
    let b = t.dtype.block_size();
    if c % b != 0 {
        let mut m = cat3("tensor ", t.name.as_str(), " has row length ");
        m.append(decimal(c as u64).as_str());
        m.append(" which is not a multiple of the ");
        m.append(t.dtype.name());
        m.append(" block size ");
        m.append(decimal(b as u64).as_str());
        return Some(Error::Format(m));
    }
    None
}

/// `n` in decimal.
fn wide_decimal(n: u128) -> (r: String)
    ensures
        r@ == dec(n as nat),
    decreases n,
{
    if n < 10 {
        decimal(n as u64)
    } else {
        let mut out = wide_decimal(n / 10);
        let d = decimal((n % 10) as u64);
        out.append(d.as_str());
        assert(d@ =~= seq![crate::text::digit((n % 10) as nat)]);
        assert(out@ =~= dec((n / 10) as nat).push(crate::text::digit((n % 10) as nat)));
        out
    }
}

impl<'a> GgufModel<'a> {
    /// The parts fit together, and every tensor lies inside the file.
    pub open spec fn wf(self) -> bool {
        self.meta.wf() && self.tensors.wf() && self.content().sound()
    }

    /// Opens the file whose bytes are `data`.
    pub fn open(data: &'a [u8]) -> (r: Result<Self, Error>)
        ensures
            match open_spec(data@) {
                Ok(m) => r is Ok && r->Ok_0.content() == m && r->Ok_0.wf(),
                Err(e) => r is Err && r->Err_0@ == e,
            },
    {
        let parsed = parse(data)?;
        let ghost h = parsed@;
        let mut tensors: Dict<TensorInfo> = Dict::new();
        let mut order: Vec<String> = Vec::new();
        assert(h.tensors.take(0) =~= Seq::<TensorView>::empty());
        assert(texts(order@) =~= Seq::<Seq<char>>::empty());
        let mut i: usize = 0;
        while i < parsed.tensors.len()
            invariant
                i <= parsed.tensors@.len(),
                h == parsed@,
                parse_spec(data@) == Ok::<ParsedView, ErrorView>(h),
                tensors.wf(),
                tensors.items() == table(h.tensors.take(i as int)),
                first_fault(h.tensors.take(i as int), h.data_offset, data@.len()) is None,
                texts(order@) == Seq::new(i as nat, |k: int| h.tensors[k].name),
            decreases parsed.tensors@.len() - i,
        {
            let t = &parsed.tensors[i];
            assert(h.tensors.take(i + 1).drop_last() =~= h.tensors.take(i as int));
            assert(h.tensors.take(i + 1).last() == t@);
            match fault_of(t, parsed.data_offset, data.len()) {
                Some(e) => {
                    proof {
                        first_fault_persists(h.tensors, i + 1, h.data_offset, data@.len());
                    }
                    return Err(e);
                },
                None => {},
            }
            let ghost before = texts(order@);
            order.push(t.name.clone());
            assert(texts(order@) =~= before.push(t.name@));
            assert(texts(order@) =~= Seq::new((i + 1) as nat, |k: int| h.tensors[k].name));
            tensors.insert(t.name.clone(), copy_info(t));
            i = i + 1;
        }
        assert(h.tensors.take(i as int) =~= h.tensors);
        proof {
            table_holds_entries(h.tensors, h.data_offset, data@.len());
        }
        Ok(
            GgufModel {
                meta: Metadata::new(parsed.metadata),
                tensors,
                order,
                version: parsed.version,
                data_offset: parsed.data_offset,
                data,
            },
        )
    }

    pub fn info(&self, name: &str) -> (r: Option<&TensorInfo>)
        requires
            self.wf(),
        ensures
            match self.content().tensor(name@) {
                Some(t) => r is Some && r->0@ == t && t.representable(),
                None => r is None,
            },
    {
        proof {
            key_from_is_first(self.content().tensors, name@, 0);
        }
        self.tensors.get(name)
    }

    pub fn contains(&self, name: &str) -> (r: bool)
        requires
            self.wf(),
        ensures
            r == self.content().has(name@),
    {
        self.tensors.contains(name)
    }

    pub fn view_opt(&self, name: &str) -> (r: Option<QuantView<'a>>)
        requires
            self.wf(),
        ensures
            match self.content().tensor(name@) {
                Some(t) => r is Some && r->0.data@ == self.content().bytes_of(t) && r->0.dtype == t.dtype
                    && r->0.rows == t.n_rows() && r->0.cols == t.n_cols(),
                None => r is None,
            },
    {
        proof {
            key_from_is_first(self.content().tensors, name@, 0);
        }
        match self.tensors.get(name) {
            Some(t) => {
                let len = self.data.len();
                let start: usize = (self.data_offset + t.offset) as usize;
                let size = t.byte_size();
                Some(
                    QuantView::new(
                        vstd::slice::slice_subrange(self.data, start, start + size),
                        t.dtype,
                        t.rows(),
                        t.cols(),
                    ),
                )
            },
            None => None,
        }
    }

    /// What is said about names that are like a missing one.
    fn near_miss(&self, name: &str) -> (r: String)
        requires
            self.wf(),
        ensures
            r@ == self.content().near(name@),
    {
        let parts = split_text(name, ".");
        let ghost all_parts = texts(parts@);
        let mut two: Vec<String> = Vec::new();
        let mut i: usize = 0;
        while i < parts.len() && i < 2
            invariant
                i <= parts@.len(),
                i <= 2,
                all_parts == texts(parts@),
                texts(two@) =~= all_parts.take(i as int),
            decreases parts@.len() - i,
        {
            let ghost before = texts(two@);
            two.push(parts[i].clone());
            i = i + 1;
            assert(texts(two@) =~= before.push(parts@[i - 1]@));
        }
        assert(all_parts.len() <= 2 ==> all_parts.take(i as int) =~= all_parts);
        assert(texts(two@) == first_n(all_parts, 2));
        let st = join_text(two.as_slice(), ".");
        let matching = self.names_with(st.as_str());
        let ghost all = texts(matching@);
        let mut close: Vec<String> = Vec::new();
        let mut j: usize = 0;
        while j < matching.len() && j < 8
            invariant
                j <= matching@.len(),
                j <= 8,
                all == texts(matching@),
                texts(close@) =~= all.take(j as int),
            decreases matching@.len() - j,
        {
            let ghost before = texts(close@);
            close.push(matching[j].clone());
            j = j + 1;
            assert(texts(close@) =~= before.push(matching@[j - 1]@));
        }
        assert(all.len() <= 8 ==> all.take(j as int) =~= all);
        assert(texts(close@) == first_n(all, 8));
        if close.len() == 0 {
            return String::new();
        }
        let s = sort_texts(&close);
        cat2("\n  present with that prefix: ", join_text(s.as_slice(), ", ").as_str())
    }

    /// The tensor names that begin with `p`, in the order of the table.
    fn names_with(&self, p: &str) -> (r: Vec<String>)
        requires
            self.wf(),
        ensures
            texts(r@) == prefixed(keys_of(self.content().tensors), p@),
    {
        let ghost keys = keys_of(self.content().tensors);
        let mut out: Vec<String> = Vec::new();
        let mut i: usize = 0;
        assert(texts(out@) =~= Seq::<Seq<char>>::empty());
        while i < self.tensors.len()
            invariant
                self.wf(),
                i <= self.content().tensors.len(),
                keys == keys_of(self.content().tensors),
                texts(out@) == prefixed(keys.take(i as int), p@),
            decreases self.content().tensors.len() - i,
        {
            assert(keys.take(i + 1).drop_last() =~= keys.take(i as int));
            let k = self.tensors.key(i);
            let ghost before = texts(out@);
            if has_prefix(k, p) {
                out.push(own(k));
                assert(texts(out@) =~= before.push(k@));
            }
            i = i + 1;
        }
        assert(keys.take(i as int) =~= keys);
        out
    }

    pub fn view(&self, name: &str) -> (r: Result<QuantView<'a>, Error>)
        requires
            self.wf(),
        ensures
            match self.content().tensor(name@) {
                Some(t) => r is Ok && r->Ok_0.data@ == self.content().bytes_of(t) && r->Ok_0.dtype
                    == t.dtype && r->Ok_0.rows == t.n_rows() && r->Ok_0.cols == t.n_cols(),
                None => r is Err && r->Err_0@ == ErrorView::MissingTensor(
                    name@ + self.content().near(name@),
                ),
            },
    {
        match self.view_opt(name) {
            Some(v) => Ok(v),
            None => Err(Error::MissingTensor(cat2(name, self.near_miss(name).as_str()))),
        }
    }

    /// The position of the first of several candidate names that is present.
    pub fn find_any(&self, names: &[&str]) -> (r: Option<usize>)
        requires
            self.wf(),
        ensures
            match self.content().first_present(strs(names@), 0) {
                Some(i) => r is Some && r->0 == i && i < names@.len() && self.content().has(
                    names@[i as int]@,
                ),
                None => r is None,
            },
            r is Some == self.content().has_any(strs(names@)),
    {
        let ghost all = strs(names@);
        let mut i: usize = 0;
        while i < names.len()
            invariant
                self.wf(),
                i <= names@.len(),
                all == strs(names@),
                self.content().first_present(all, 0) == self.content().first_present(all, i as nat),
                forall|k: int| 0 <= k < i ==> !self.content().has(#[trigger] all[k]),
            decreases names@.len() - i,
        {
            if self.contains(names[i]) {
                assert(self.content().has(all[i as int]));
                return Some(i);
            }
            i = i + 1;
        }
        None
    }

    /// First of several candidate names that is present, with the name that matched.
    pub fn view_any<'n>(&self, names: &[&'n str]) -> (r: Option<(&'n str, QuantView<'a>)>)
        requires
            self.wf(),
        ensures
            match self.content().first_present(strs(names@), 0) {
                Some(i) => {
                    let t = self.content().tensor(names@[i as int]@)->0;
                    r matches Some((n, v)) && n@ == names@[i as int]@ && v.data@ == self.content().bytes_of(
                        t,
                    ) && v.dtype == t.dtype && v.rows == t.n_rows() && v.cols == t.n_cols()
                },
                None => r is None,
            },
    {
        match self.find_any(names) {
            Some(i) => match self.view_opt(names[i]) {
                Some(v) => Some((names[i], v)),
                None => None,
            },
            None => None,
        }
    }

    pub fn view_any_req<'n>(&self, names: &[&'n str]) -> (r: Result<
        (&'n str, QuantView<'a>),
        Error,
    >)
        requires
            self.wf(),
            names@.len() > 0,
        ensures
            match self.content().first_present(strs(names@), 0) {
                Some(i) => {
                    let t = self.content().tensor(names@[i as int]@)->0;
                    r matches Ok((n, v)) && n@ == names@[i as int]@ && v.data@ == self.content().bytes_of(t)
                        && v.dtype == t.dtype && v.rows == t.n_rows() && v.cols == t.n_cols()
                },
                None => r is Err && r->Err_0@ == ErrorView::MissingTensor(
                    "none of ["@ + joined(strs(names@), ", "@) + "]"@ + self.content().near(names@[0]@),
                ),
            },
    {
        match self.view_any(names) {
            Some(v) => Ok(v),
            None => {
                let mut owned: Vec<String> = Vec::new();
                let ghost all = strs(names@);
                let mut i: usize = 0;
                while i < names.len()
                    invariant
                        i <= names@.len(),
                        all == strs(names@),
                        texts(owned@) =~= all.take(i as int),
                    decreases names@.len() - i,
                {
                    let ghost before = texts(owned@);
                    owned.push(own(names[i]));
                    i = i + 1;
                    assert(texts(owned@) =~= before.push(names@[i - 1]@));
                }
                assert(all.take(i as int) =~= all);
                Err(
                    Error::MissingTensor(
                        cat4(
                            "none of [",
                            join_text(owned.as_slice(), ", ").as_str(),
                            "]",
                            self.near_miss(names[0]).as_str(),
                        ),
                    ),
                )
            },
        }
    }

    pub fn contains_any(&self, names: &[&str]) -> (r: bool)
        requires
            self.wf(),
        ensures
            r == self.content().has_any(strs(names@)),
    {
        self.find_any(names).is_some()
    }

    /// Total size of all tensor data.
    pub fn weights_bytes(&self) -> (r: u64)
        requires
            self.wf(),
            self.content().total_bytes(self.content().tensors.len()) <= u64::MAX,
        ensures
            r == self.content().total_bytes(self.content().tensors.len()),
    {
        let mut total: u64 = 0;
        let mut i: usize = 0;
        while i < self.tensors.len()
            invariant
                self.wf(),
                i <= self.content().tensors.len(),
                total == self.content().total_bytes(i as nat),
                self.content().total_bytes(self.content().tensors.len()) <= u64::MAX,
            decreases self.content().tensors.len() - i,
        {
            proof {
                total_is_monotone(self.content(), (i + 1) as nat, self.content().tensors.len());
            }
            assert(tensor_fault(self.content().tensors[i as int].1, self.content().data_offset, self.content().data.len())
                is None);
            total = total + self.tensors.value(i).byte_size() as u64;
            i = i + 1;
        }
        total
    }

    /// Size of all tensors of the type `t`.
    pub(crate) fn bytes_of_type(&self, t: DType) -> (r: u64)
        requires
            self.wf(),
            self.content().total_bytes(self.content().tensors.len()) <= u64::MAX,
        ensures
            r == self.content().typed_bytes(t, self.content().tensors.len()),
    {
        let mut total: u64 = 0;
        let mut i: usize = 0;
        while i < self.tensors.len()
            invariant
                self.wf(),
                i <= self.content().tensors.len(),
                total == self.content().typed_bytes(t, i as nat),
                self.content().total_bytes(self.content().tensors.len()) <= u64::MAX,
            decreases self.content().tensors.len() - i,
        {
            proof {
                total_is_monotone(self.content(), (i + 1) as nat, self.content().tensors.len());
                typed_within_total(self.content(), t, (i + 1) as nat);
            }
            assert(tensor_fault(self.content().tensors[i as int].1, self.content().data_offset, self.content().data.len())
                is None);
            let info = self.tensors.value(i);
            if info.dtype == t {
                total = total + info.byte_size() as u64;
            }
            i = i + 1;
        }
        total
    }

    /// The quantization that dominates the file, used for display.
    pub fn dominant_dtype(&self) -> (r: DType)
        requires
            self.wf(),
            self.content().total_bytes(self.content().tensors.len()) <= u64::MAX,
        ensures
            self.content().dominates(r),
    {
        if self.tensors.len() == 0 {
            return DType::F32;
        }
        let mut best = self.tensors.value(0).dtype;
        assert(self.content().tensors[0].1.dtype == best);
        let mut most = self.bytes_of_type(best);
        let mut i: usize = 1;
        while i < self.tensors.len()
            invariant
                self.wf(),
                1 <= i <= self.content().tensors.len(),
                self.content().total_bytes(self.content().tensors.len()) <= u64::MAX,
                most == self.content().typed_bytes(best, self.content().tensors.len()),
                self.content().uses(best),
                forall|k: int|
                    0 <= k < i ==> self.content().typed_bytes(
                        (#[trigger] self.content().tensors[k]).1.dtype,
                        self.content().tensors.len(),
                    ) <= most,
            decreases self.content().tensors.len() - i,
        {
            let t = self.tensors.value(i).dtype;
            assert(self.content().tensors[i as int].1.dtype == t);
            let n = self.bytes_of_type(t);
            if n > most {
                best = t;
                most = n;
            }
            i = i + 1;
        }
        best
    }

    /// Whether some tensor is of the type `t`.
    pub(crate) fn uses_type(&self, t: DType) -> (r: bool)
        requires
            self.wf(),
        ensures
            r == self.content().uses(t),
    {
        let mut i: usize = 0;
        while i < self.tensors.len()
            invariant
                self.wf(),
                i <= self.content().tensors.len(),
                forall|k: int| 0 <= k < i ==> (#[trigger] self.content().tensors[k]).1.dtype != t,
            decreases self.content().tensors.len() - i,
        {
            if self.tensors.value(i).dtype == t {
                assert(self.content().tensors[i as int].1.dtype == t);
                return true;
            }
            i = i + 1;
        }
        false
    }

    /// Distinct dtypes present, by their numbers, so the loader can reject a file up front
    /// if it contains a quantization it refuses to decode.
    pub fn dtypes(&self) -> (r: Vec<DType>)
        requires
            self.wf(),
        ensures
            forall|i: int, j: int|
                0 <= i < j < r@.len() ==> (#[trigger] r@[i]).number() < (#[trigger] r@[j]).number(),
            forall|t: DType| r@.contains(t) <==> self.content().uses(t),
    {
        let mut out: Vec<DType> = Vec::new();
        let mut v: u32 = 0;
        while v < 40
            invariant
                self.wf(),
                v <= 40,
                forall|i: int| 0 <= i < out@.len() ==> (#[trigger] out@[i]).number() < v,
                forall|i: int, j: int|
                    0 <= i < j < out@.len() ==> (#[trigger] out@[i]).number() < (
                    #[trigger] out@[j]).number(),
                forall|t: DType| #[trigger]
                    out@.contains(t) <==> self.content().uses(t) && t.number() < v,
            decreases 40 - v,
        {
            let ghost before = out@;
            match DType::from_u32(v) {
                Ok(t) => {
                    assert(dtype_of_id(v) == Some(t));
                    if self.uses_type(t) {
                        out.push(t);
                        assert(out@.last() == t);
                        assert(out@.contains(t));
                        assert forall|s: DType| before.contains(s) implies out@.contains(s) by {
                            let k = choose|k: int| 0 <= k < before.len() && before[k] == s;
                            assert(out@[k] == s);
                        }
                        assert forall|s: DType| out@.contains(s) implies before.contains(s) || s
                            == t by {
                            let k = choose|k: int| 0 <= k < out@.len() && out@[k] == s;
                            if k < before.len() {
                                assert(before[k] == s);
                            }
                        }
                    }
                },
                Err(_) => {},
            }
            assert forall|s: DType| #[trigger]
                out@.contains(s) <==> self.content().uses(s) && s.number() < v + 1 by {
                crate::dtype::dtype_numbers_are_unambiguous(s, v);
                assert(before.contains(s) <==> self.content().uses(s) && s.number() < v);
            }
            v = v + 1;
        }
        assert forall|t: DType| out@.contains(t) <==> self.content().uses(t) by {
            assert(t.number() < 40);
        }
        out
    }

    /// Tensor names belonging to block `i`, sorted. Used by architecture inference.
    pub fn block_tensors(&self, i: usize) -> (r: Vec<String>)
        requires
            self.wf(),
        ensures
            texts(r@) == sorted(
                prefixed(keys_of(self.content().tensors), "blk."@ + dec(i as nat) + "."@),
            ),
    {
        let p = cat3("blk.", decimal(i as u64).as_str(), ".");
        let v = self.names_with(p.as_str());
        sort_texts(&v)
    }

    /// Suffix of block-0 tensor names, e.g. `attn_q.weight`. The shape of this set is how
    /// the model layer infers capabilities without a per-architecture table.
    pub fn block0_suffixes(&self) -> (r: Vec<String>)
        requires
            self.wf(),
        ensures
            ({
                let names = sorted(prefixed(keys_of(self.content().tensors), "blk."@ + dec(0) + "."@));
                r@.len() == names.len() && forall|i: int|
                    0 <= i < names.len() ==> "blk.0."@ + (#[trigger] r@[i])@ == names[i]
            }),
    {
        let names = self.block_tensors(0);
        let ghost all = texts(names@);
        let ghost pre = "blk."@ + dec(0) + "."@;
        proof {
            reveal_strlit("blk.");
            reveal_strlit(".");
            reveal_strlit("blk.0.");
            assert(dec(0) =~= seq!['0']);
            assert(pre =~= "blk.0."@);
            sorted_prefixed_keep_prefix(keys_of(self.content().tensors), pre);
        }
        let mut out: Vec<String> = Vec::new();
        let mut i: usize = 0;
        while i < names.len()
            invariant
                i <= names@.len(),
                all == texts(names@),
                out@.len() == i,
                pre.len() == 6,
                pre == "blk.0."@,
                forall|k: int| 0 <= k < all.len() ==> begins_with(#[trigger] all[k], pre),
                forall|k: int| 0 <= k < i ==> "blk.0."@ + (#[trigger] out@[k])@ == all[k],
            decreases names@.len() - i,
        {
            let cs = chars_of(names[i].as_str());
            assert(begins_with(all[i as int], pre));
            assert(cs@ =~= cs@.subrange(0, 6) + cs@.subrange(6, cs@.len() as int));
            out.push(string_of_range(cs.as_slice(), 6, cs.len()));
            i = i + 1;
        }
        out
    }
}

proof fn prefixed_keep_prefix(names: Seq<Seq<char>>, p: Seq<char>)
    ensures
        forall|i: int|
            0 <= i < prefixed(names, p).len() ==> begins_with(#[trigger] prefixed(names, p)[i], p),
    decreases names.len(),
{
    if names.len() > 0 {
        prefixed_keep_prefix(names.drop_last(), p);
        let rest = prefixed(names.drop_last(), p);
        assert forall|i: int| 0 <= i < prefixed(names, p).len() implies begins_with(
            #[trigger] prefixed(names, p)[i],
            p,
        ) by {
            if i < rest.len() {
                assert(prefixed(names, p)[i] == rest[i]);
            }
        }
    }
}

proof fn sorted_prefixed_keep_prefix(names: Seq<Seq<char>>, p: Seq<char>)
    ensures
        forall|i: int|
            0 <= i < sorted(prefixed(names, p)).len() ==> begins_with(
                #[trigger] sorted(prefixed(names, p))[i],
                p,
            ),
{
    broadcast use vstd::seq_lib::group_to_multiset_ensures;

    let a = prefixed(names, p);
    let b = sorted(a);
    prefixed_keep_prefix(names, p);
    crate::text::sorted_is_ascending(a);
    assert forall|i: int| 0 <= i < b.len() implies begins_with(#[trigger] b[i], p) by {
        assert(b.to_multiset().count(b[i]) > 0);
        assert(a.to_multiset().count(b[i]) > 0);
        let k = choose|k: int| 0 <= k < a.len() && a[k] == b[i];
        assert(begins_with(a[k], p));
    }
}

proof fn first_fault_persists(ts: Seq<TensorView>, k: int, data_offset: u64, file_len: nat)
    requires
        0 <= k <= ts.len(),
        first_fault(ts.take(k), data_offset, file_len) is Some,
    ensures
        first_fault(ts, data_offset, file_len) == first_fault(ts.take(k), data_offset, file_len),
    decreases ts.len(),
{
    if k == ts.len() {
        assert(ts.take(k) =~= ts);
    } else {
        assert(ts.drop_last().take(k) =~= ts.take(k));
        first_fault_persists(ts.drop_last(), k, data_offset, file_len);
    }
}

proof fn total_is_monotone(m: ModelView, a: nat, b: nat)
    requires
        a <= b,
    ensures
        m.total_bytes(a) <= m.total_bytes(b),
    decreases b,
{
    if a < b {
        total_is_monotone(m, a, (b - 1) as nat);
    }
}

proof fn typed_within_total(m: ModelView, t: DType, n: nat)
    ensures
        m.typed_bytes(t, n) <= m.total_bytes(n),
    decreases n,
{
    if n > 0 {
        typed_within_total(m, t, (n - 1) as nat);
    }
}

} // verus!
