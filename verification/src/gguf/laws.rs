//! That what was written into a file is read back from it.

use vstd::prelude::*;

use super::reader::{
    alignment_of, lossy, parse_spec, read_dims, read_entries, read_entry, read_tensor, read_tensors,
    read_text, read_u32, read_u64, read_wire, read_wires, TensorView,
};
use super::value::ValueView;
use crate::dict::{lookup, put_then_lookup};
use crate::dtype::DType;
use crate::error::ErrorView;

verus! {

/// Whether `b` stands in `s` at `p`.
pub open spec fn stands(s: Seq<u8>, p: nat, b: Seq<u8>) -> bool {
    p + b.len() <= s.len() && forall|i: int| 0 <= i < b.len() ==> s[p + i] == #[trigger] b[i]
}

/// The two bytes of a number, the lower first.
pub open spec fn bytes16(v: u16) -> Seq<u8> {
    seq![(v % 256) as u8, (v / 256) as u8]
}

/// The four bytes of a number, the lowest first.
pub open spec fn bytes32(v: u32) -> Seq<u8> {
    seq![
        (v % 0x100) as u8,
        (v / 0x100 % 0x100) as u8,
        (v / 0x1_0000 % 0x100) as u8,
        (v / 0x100_0000) as u8,
    ]
}

/// The eight bytes of a number, the lowest first.
pub open spec fn bytes64(v: u64) -> Seq<u8> {
    bytes32((v % 0x1_0000_0000) as u32) + bytes32((v / 0x1_0000_0000) as u32)
}

proof fn number32_is_read_back(s: Seq<u8>, p: nat, v: u32)
    requires
        stands(s, p, bytes32(v)),
    ensures
        read_u32(s, p) == Ok::<(u32, nat), ErrorView>((v, p + 4)),
{
    let b = bytes32(v);
    assert(s[p as int + 0] == b[0] && s[p as int + 1] == b[1] && s[p as int + 2] == b[2] && s[p as int + 3] == b[3]);
    assert(super::reader::le32(s, p) == v);
}

proof fn number64_is_read_back(s: Seq<u8>, p: nat, v: u64)
    requires
        stands(s, p, bytes64(v)),
    ensures
        read_u64(s, p) == Ok::<(u64, nat), ErrorView>((v, p + 8)),
{
    let b = bytes64(v);
    let lo = bytes32((v % 0x1_0000_0000) as u32);
    let hi = bytes32((v / 0x1_0000_0000) as u32);
    assert forall|i: int| 0 <= i < 4 implies s[p + i] == #[trigger] lo[i] by {
        assert(b[i] == lo[i]);
    }
    assert forall|i: int| 0 <= i < 4 implies s[p + 4 + i] == #[trigger] hi[i] by {
        assert(b[4 + i] == hi[i]);
        assert(s[p + (4 + i)] == b[4 + i]);
    }
    number32_is_read_back(s, p, (v % 0x1_0000_0000) as u32);
    number32_is_read_back(s, p + 4, (v / 0x1_0000_0000) as u32);
}

/// Numbers are read back by the type they were written as: unsigned ones of one, two, four and
/// eight bytes, and those in single and double precision.
pub proof fn numbers_are_read_back(
    s: Seq<u8>,
    p: nat,
    depth: nat,
    a: u8,
    b: u16,
    c: u32,
    d: u64,
)
    requires
        depth <= 4,
    ensures
        stands(s, p, seq![a]) ==> read_wire(s, p, 0, depth) == Ok::<(ValueView, nat), ErrorView>(
            (ValueView::U8(a), p + 1),
        ),
        stands(s, p, bytes16(b)) ==> read_wire(s, p, 2, depth) == Ok::<
            (ValueView, nat),
            ErrorView,
        >((ValueView::U16(b), p + 2)),
        stands(s, p, bytes32(c)) ==> read_wire(s, p, 4, depth) == Ok::<
            (ValueView, nat),
            ErrorView,
        >((ValueView::U32(c), p + 4)),
        stands(s, p, bytes32(c)) ==> read_wire(s, p, 6, depth) == Ok::<
            (ValueView, nat),
            ErrorView,
        >((ValueView::F32(c), p + 4)),
        stands(s, p, bytes64(d)) ==> read_wire(s, p, 10, depth) == Ok::<
            (ValueView, nat),
            ErrorView,
        >((ValueView::U64(d), p + 8)),
        stands(s, p, bytes64(d)) ==> read_wire(s, p, 12, depth) == Ok::<
            (ValueView, nat),
            ErrorView,
        >((ValueView::F64(d), p + 8)),
{
    if stands(s, p, seq![a]) {
        assert(s[p as int + 0] == seq![a][0]);
    }
    if stands(s, p, bytes16(b)) {
        let w = bytes16(b);
        assert(s[p as int + 0] == w[0] && s[p as int + 1] == w[1]);
    }
    if stands(s, p, bytes32(c)) {
        number32_is_read_back(s, p, c);
    }
    if stands(s, p, bytes64(d)) {
        number64_is_read_back(s, p, d);
    }
}

/// Signed numbers are written as what they are past the next power of 256 where they are
/// negative, and truth as one or zero.
pub proof fn signed_numbers_are_read_back(
    s: Seq<u8>,
    p: nat,
    depth: nat,
    a: i8,
    b: i16,
    c: i32,
    d: i64,
    on: bool,
)
    requires
        depth <= 4,
    ensures
        stands(s, p, seq![a as u8]) ==> read_wire(s, p, 1, depth) == Ok::<
            (ValueView, nat),
            ErrorView,
        >((ValueView::I8(a), p + 1)),
        stands(s, p, bytes16(b as u16)) ==> read_wire(s, p, 3, depth) == Ok::<
            (ValueView, nat),
            ErrorView,
        >((ValueView::I16(b), p + 2)),
        stands(s, p, bytes32(c as u32)) ==> read_wire(s, p, 5, depth) == Ok::<
            (ValueView, nat),
            ErrorView,
        >((ValueView::I32(c), p + 4)),
        stands(s, p, bytes64(d as u64)) ==> read_wire(s, p, 11, depth) == Ok::<
            (ValueView, nat),
            ErrorView,
        >((ValueView::I64(d), p + 8)),
        stands(
            s,
            p,
            seq![
                if on {
                    1u8
                } else {
                    0u8
                },
            ],
        ) ==> read_wire(s, p, 7, depth) == Ok::<(ValueView, nat), ErrorView>(
            (ValueView::Bool(on), p + 1),
        ),
{
    assert((a as u8) as i8 == a) by (bit_vector);
    assert((b as u16) as i16 == b) by (bit_vector);
    assert((c as u32) as i32 == c) by (bit_vector);
    assert((d as u64) as i64 == d) by (bit_vector);
    let t = seq![
        if on {
            1u8
        } else {
            0u8
        },
    ];
    if stands(s, p, seq![a as u8]) {
        assert(s[p as int + 0] == seq![a as u8][0]);
    }
    if stands(s, p, bytes16(b as u16)) {
        let w = bytes16(b as u16);
        assert(s[p as int + 0] == w[0] && s[p as int + 1] == w[1]);
    }
    if stands(s, p, bytes32(c as u32)) {
        number32_is_read_back(s, p, c as u32);
    }
    if stands(s, p, bytes64(d as u64)) {
        number64_is_read_back(s, p, d as u64);
    }
    if stands(s, p, t) {
        assert(s[p as int + 0] == t[0]);
    }
}

/// A text is written as how many bytes it has, and those.
pub proof fn texts_are_read_back(s: Seq<u8>, p: nat, b: Seq<u8>, depth: nat)
    requires
        depth <= 4,
        b.len() <= 0x4000_0000,
        stands(s, p, bytes64(b.len() as u64) + b),
    ensures
        read_text(s, p) == Ok::<(Seq<char>, nat), ErrorView>((lossy(b), p + 8 + b.len())),
        read_wire(s, p, 8, depth) == Ok::<(ValueView, nat), ErrorView>(
            (ValueView::String(lossy(b)), p + 8 + b.len()),
        ),
{
    let n = bytes64(b.len() as u64);
    let w = n + b;
    assert forall|i: int| 0 <= i < n.len() implies s[p + i] == #[trigger] n[i] by {
        assert(w[i] == n[i]);
    }
    number64_is_read_back(s, p, b.len() as u64);
    let got = s.subrange((p + 8) as int, (p + 8 + b.len()) as int);
    assert forall|i: int| 0 <= i < b.len() implies got[i] == b[i] by {
        assert(w[8 + i] == b[i]);
        assert(s[p + (8 + i)] == w[8 + i]);
    }
    assert(got =~= b);
}

/// A list is written as the type of its values, how many there are, and those one after the other.
pub proof fn lists_are_read_back(
    s: Seq<u8>,
    p: nat,
    depth: nat,
    t: u32,
    items: Seq<ValueView>,
    at: Seq<nat>,
)
    requires
        depth < 4,
        items.len() <= 0x1000_0000,
        stands(s, p, bytes32(t) + bytes64(items.len() as u64)),
        at.len() == items.len() + 1,
        at[0] == p + 12,
        forall|i: int|
            0 <= i < items.len() ==> #[trigger] read_wire(s, at[i], t, depth + 1) == Ok::<
                (ValueView, nat),
                ErrorView,
            >((items[i], at[i + 1])),
    ensures
        read_wire(s, p, 9, depth) == Ok::<(ValueView, nat), ErrorView>(
            (ValueView::Array(items), at.last()),
        ),
{
    let a = bytes32(t);
    let n = bytes64(items.len() as u64);
    let w = a + n;
    assert forall|i: int| 0 <= i < a.len() implies s[p + i] == #[trigger] a[i] by {
        assert(w[i] == a[i]);
    }
    assert forall|i: int| 0 <= i < n.len() implies s[p + 4 + i] == #[trigger] n[i] by {
        assert(w[4 + i] == n[i]);
        assert(s[p + (4 + i)] == w[4 + i]);
    }
    number32_is_read_back(s, p, t);
    number64_is_read_back(s, p + 4, items.len() as u64);
    values_follow(s, p + 12, depth + 1, t, items, at, items.len());
    assert(items.take(items.len() as int) =~= items);
}

proof fn values_follow(
    s: Seq<u8>,
    p: nat,
    depth: nat,
    t: u32,
    items: Seq<ValueView>,
    at: Seq<nat>,
    n: nat,
)
    requires
        n <= items.len(),
        at.len() == items.len() + 1,
        at[0] == p,
        forall|i: int|
            0 <= i < items.len() ==> #[trigger] read_wire(s, at[i], t, depth) == Ok::<
                (ValueView, nat),
                ErrorView,
            >((items[i], at[i + 1])),
    ensures
        read_wires(s, p, t, depth, n) == Ok::<(Seq<ValueView>, nat), ErrorView>(
            (items.take(n as int), at[n as int]),
        ),
    decreases n,
{
    if n > 0 {
        values_follow(s, p, depth, t, items, at, (n - 1) as nat);
        assert(read_wire(s, at[n - 1], t, depth) == Ok::<(ValueView, nat), ErrorView>(
            (items[n - 1], at[n as int]),
        ));
        assert(items.take(n - 1).push(items[n - 1]) =~= items.take(n as int));
    } else {
        assert(items.take(0) =~= Seq::empty());
    }
}

/// An entry is written as its key, the type of its value, and the value.
pub proof fn entries_are_read_back(
    s: Seq<u8>,
    p: nat,
    key: Seq<u8>,
    t: u32,
    v: ValueView,
    end: nat,
)
    requires
        key.len() <= 0x4000_0000,
        stands(s, p, bytes64(key.len() as u64) + key),
        stands(s, p + 8 + key.len(), bytes32(t)),
        read_wire(s, p + 8 + key.len() + 4, t, 0) == Ok::<(ValueView, nat), ErrorView>((v, end)),
    ensures
        read_entry(s, p) == Ok::<((Seq<char>, ValueView), nat), ErrorView>(((lossy(key), v), end)),
{
    texts_are_read_back(s, p, key, 0);
    number32_is_read_back(s, p + 8 + key.len(), t);
}

/// What follows the entries read so far is kept under its key, and every other key keeps its
/// value.
pub proof fn another_entry_is_kept(
    s: Seq<u8>,
    p: nat,
    n: nat,
    m: Seq<(Seq<char>, ValueView)>,
    q: nat,
    k: Seq<char>,
    v: ValueView,
    end: nat,
    other: Seq<char>,
)
    requires
        read_entries(s, p, n) == Ok::<(Seq<(Seq<char>, ValueView)>, nat), ErrorView>((m, q)),
        read_entry(s, q) == Ok::<((Seq<char>, ValueView), nat), ErrorView>(((k, v), end)),
    ensures
        ({
            let r = read_entries(s, p, n + 1);
            &&& r is Ok
            &&& r->Ok_0.1 == end
            &&& lookup(r->Ok_0.0, k) == Some(v)
            &&& other != k ==> lookup(r->Ok_0.0, other) == lookup(m, other)
        }),
{
    put_then_lookup(m, k, v, other);
}

/// A tensor is written as its name, how many dimensions it has, those, the number of its type, and
/// where its data lies.
pub proof fn tensors_are_read_back(
    s: Seq<u8>,
    p: nat,
    name: Seq<u8>,
    dims: Seq<u64>,
    t: DType,
    offset: u64,
)
    requires
        name.len() <= 0x4000_0000,
        dims.len() <= 4,
        stands(s, p, bytes64(name.len() as u64) + name),
        stands(s, p + 8 + name.len(), bytes32(dims.len() as u32)),
        forall|i: int|
            0 <= i < dims.len() ==> stands(
                s,
                (p + 8 + name.len() + 4 + 8 * i) as nat,
                #[trigger] bytes64(dims[i]),
            ),
        stands(s, p + 8 + name.len() + 4 + 8 * dims.len(), bytes32(t.number())),
        stands(s, p + 8 + name.len() + 8 + 8 * dims.len(), bytes64(offset)),
    ensures
        read_tensor(s, p) == Ok::<(TensorView, nat), ErrorView>(
            (
                TensorView { name: lossy(name), dims, dtype: t, offset },
                p + 8 + name.len() + 16 + 8 * dims.len(),
            ),
        ),
{
    texts_are_read_back(s, p, name, 0);
    let q = p + 8 + name.len();
    number32_is_read_back(s, q, dims.len() as u32);
    dims_follow(s, q + 4, dims, dims.len());
    assert(dims.take(dims.len() as int) =~= dims);
    number32_is_read_back(s, q + 4 + 8 * dims.len(), t.number());
    number64_is_read_back(s, q + 8 + 8 * dims.len(), offset);
    crate::dtype::dtype_numbers_are_unambiguous(t, t.number());
}

proof fn dims_follow(s: Seq<u8>, p: nat, dims: Seq<u64>, n: nat)
    requires
        n <= dims.len(),
        forall|i: int|
            0 <= i < dims.len() ==> stands(s, (p + 8 * i) as nat, #[trigger] bytes64(dims[i])),
    ensures
        read_dims(s, p, n) == Ok::<(Seq<u64>, nat), ErrorView>((dims.take(n as int), p + 8 * n)),
    decreases n,
{
    if n > 0 {
        dims_follow(s, p, dims, (n - 1) as nat);
        assert(stands(s, (p + 8 * (n - 1)) as nat, bytes64(dims[n - 1])));
        number64_is_read_back(s, (p + 8 * (n - 1)) as nat, dims[n - 1]);
        assert(dims.take(n - 1).push(dims[n - 1]) =~= dims.take(n as int));
    } else {
        assert(dims.take(0) =~= Seq::empty());
    }
}

/// A file starts with its four letters, its version, how many tensors and how many entries it has;
/// entries come next, then tensors, and the data from the next aligned place on.
pub proof fn files_are_read_back(
    s: Seq<u8>,
    version: u32,
    n_tensors: u64,
    n_kv: u64,
    m: Seq<(Seq<char>, ValueView)>,
    mid: nat,
    ts: Seq<TensorView>,
    end: nat,
)
    requires
        stands(s, 0, seq![0x47u8, 0x47u8, 0x55u8, 0x46u8]),
        version == 2 || version == 3,
        stands(s, 4, bytes32(version)),
        stands(s, 8, bytes64(n_tensors)),
        stands(s, 16, bytes64(n_kv)),
        read_entries(s, 24, n_kv as nat) == Ok::<(Seq<(Seq<char>, ValueView)>, nat), ErrorView>(
            (m, mid),
        ),
        read_tensors(s, mid, n_tensors as nat) == Ok::<(Seq<TensorView>, nat), ErrorView>(
            (ts, end),
        ),
        lookup(m, "general.alignment"@) is None,
        end + 32 <= u64::MAX,
    ensures
        ({
            let r = parse_spec(s);
            &&& r is Ok
            &&& r->Ok_0.version == version
            &&& r->Ok_0.metadata == m
            &&& r->Ok_0.tensors == ts
            &&& r->Ok_0.data_offset % 32 == 0
            &&& end <= r->Ok_0.data_offset < end + 32
        }),
{
    let g = seq![0x47u8, 0x47u8, 0x55u8, 0x46u8];
    assert(super::reader::is_magic(s)) by {
        assert(s[0nat + 0int] == g[0] && s[0nat + 1int] == g[1] && s[0nat + 2int] == g[2] && s[0nat + 3int]
            == g[3]);
    }
    number32_is_read_back(s, 4, version);
    number64_is_read_back(s, 8, n_tensors);
    number64_is_read_back(s, 16, n_kv);
    parts_make_a_file(s, version, n_tensors, n_kv, m, mid, ts, end);
}

proof fn parts_make_a_file(
    s: Seq<u8>,
    version: u32,
    n_tensors: u64,
    n_kv: u64,
    m: Seq<(Seq<char>, ValueView)>,
    mid: nat,
    ts: Seq<TensorView>,
    end: nat,
)
    requires
        s.len() >= 4,
        super::reader::is_magic(s),
        version == 2 || version == 3,
        read_u32(s, 4) == Ok::<(u32, nat), ErrorView>((version, 8)),
        read_u64(s, 8) == Ok::<(u64, nat), ErrorView>((n_tensors, 16)),
        read_u64(s, 16) == Ok::<(u64, nat), ErrorView>((n_kv, 24)),
        read_entries(s, 24, n_kv as nat) == Ok::<(Seq<(Seq<char>, ValueView)>, nat), ErrorView>(
            (m, mid),
        ),
        read_tensors(s, mid, n_tensors as nat) == Ok::<(Seq<TensorView>, nat), ErrorView>(
            (ts, end),
        ),
        lookup(m, "general.alignment"@) is None,
        end + 32 <= u64::MAX,
    ensures
        ({
            let r = parse_spec(s);
            &&& r is Ok
            &&& r->Ok_0.version == version
            &&& r->Ok_0.metadata == m
            &&& r->Ok_0.tensors == ts
            &&& r->Ok_0.data_offset % 32 == 0
            &&& end <= r->Ok_0.data_offset < end + 32
        }),
{
    assert(alignment_of(m) == 32);
    let at = super::reader::align_up(end, 32);
    assert(at % 32 == 0 && end <= at < end + 32);
}

} // verus!
