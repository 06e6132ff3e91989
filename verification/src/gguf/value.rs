//! Metadata values and their lookup.

use vstd::prelude::*;
use vstd::string::*;

use crate::dict::{lookup, Dict};
use crate::error::{Error, ErrorView};
use crate::scalar::Real;
use crate::text::{cat3, own, sort_texts, sorted, texts};

verus! {

/// A GGUF metadata value. Floating-point numbers are held by their bits.
#[derive(Debug)]
pub enum Value {
    U8(u8),
    I8(i8),
    U16(u16),
    I16(i16),
    U32(u32),
    I32(i32),
    U64(u64),
    I64(i64),
    F32(u32),
    F64(u64),
    Bool(bool),
    String(String),
    Array(Vec<Value>),
}

/// The mathematical value of a [`Value`].
pub enum ValueView {
    U8(u8),
    I8(i8),
    U16(u16),
    I16(i16),
    U32(u32),
    I32(i32),
    U64(u64),
    I64(i64),
    F32(u32),
    F64(u64),
    Bool(bool),
    String(Seq<char>),
    Array(Seq<ValueView>),
}

impl Value {
    pub open spec fn spec_view(self) -> ValueView
        decreases self,
    {
        match self {
            Value::U8(v) => ValueView::U8(v),
            Value::I8(v) => ValueView::I8(v),
            Value::U16(v) => ValueView::U16(v),
            Value::I16(v) => ValueView::I16(v),
            Value::U32(v) => ValueView::U32(v),
            Value::I32(v) => ValueView::I32(v),
            Value::U64(v) => ValueView::U64(v),
            Value::I64(v) => ValueView::I64(v),
            Value::F32(v) => ValueView::F32(v),
            Value::F64(v) => ValueView::F64(v),
            Value::Bool(v) => ValueView::Bool(v),
            Value::String(s) => ValueView::String(s@),
            Value::Array(a) => ValueView::Array(
                Seq::new(
                    a@.len(),
                    |i: int|
                        if 0 <= i < a@.len() {
                            a@[i].spec_view()
                        } else {
                            ValueView::Bool(false)
                        },
                ),
            ),
        }
    }
}

impl View for Value {
    type V = ValueView;

    open spec fn view(&self) -> ValueView {
        self.spec_view()
    }
}

/// The views of a list of values.
pub open spec fn values(v: Seq<Value>) -> Seq<ValueView> {
    Seq::new(v.len(), |i: int| v[i]@)
}

impl ValueView {
    pub open spec fn to_u64(self) -> Option<u64> {
        match self {
            ValueView::U8(v) => Some(v as u64),
            ValueView::I8(v) => Some(v as u64),
            ValueView::U16(v) => Some(v as u64),
            ValueView::I16(v) => Some(v as u64),
            ValueView::U32(v) => Some(v as u64),
            ValueView::I32(v) => Some(v as u64),
            ValueView::U64(v) => Some(v),
            ValueView::I64(v) => Some(v as u64),
            ValueView::Bool(v) => Some(if v { 1u64 } else { 0u64 }),
            _ => None,
        }
    }

    pub open spec fn to_u32(self) -> Option<u32> {
        match self.to_u64() {
            Some(v) => Some(v as u32),
            None => None,
        }
    }

    pub open spec fn to_i32(self) -> Option<i32> {
        match self {
            ValueView::I8(v) => Some(v as i32),
            ValueView::I16(v) => Some(v as i32),
            ValueView::I32(v) => Some(v),
            ValueView::I64(v) => Some(v as i32),
            _ => match self.to_u64() {
                Some(v) => Some(v as i32),
                None => None,
            },
        }
    }

    pub open spec fn to_real(self) -> Option<Real> {
        match self {
            ValueView::F32(v) => Some(Real::Single(v)),
            ValueView::F64(v) => Some(Real::Double(v)),
            _ => match self.to_u64() {
                Some(v) => Some(Real::Whole(v)),
                None => None,
            },
        }
    }

    pub open spec fn to_bool(self) -> Option<bool> {
        match self {
            ValueView::Bool(v) => Some(v),
            _ => match self.to_u64() {
                Some(v) => Some(v != 0),
                None => None,
            },
        }
    }

    pub open spec fn to_text(self) -> Option<Seq<char>> {
        match self {
            ValueView::String(s) => Some(s),
            _ => None,
        }
    }

    pub open spec fn to_array(self) -> Option<Seq<ValueView>> {
        match self {
            ValueView::Array(a) => Some(a),
            _ => None,
        }
    }

    /// The elements that are numbers, in order; a number alone counts as a list of one.
    pub open spec fn to_u32s(self) -> Seq<u32> {
        match self {
            ValueView::Array(a) => kept_u32s(a),
            _ => match self.to_u32() {
                Some(v) => seq![v],
                None => Seq::empty(),
            },
        }
    }

    /// As [`ValueView::to_u32s`], for real numbers.
    pub open spec fn to_reals(self) -> Seq<Real> {
        match self {
            ValueView::Array(a) => kept_reals(a),
            _ => match self.to_real() {
                Some(v) => seq![v],
                None => Seq::empty(),
            },
        }
    }
}

/// The whole numbers among `a`, in order.
pub open spec fn kept_u32s(a: Seq<ValueView>) -> Seq<u32>
    decreases a.len(),
{
    if a.len() == 0 {
        Seq::empty()
    } else {
        let rest = kept_u32s(a.drop_last());
        match a.last().to_u32() {
            Some(v) => rest.push(v),
            None => rest,
        }
    }
}

/// The numbers among `a`, in order.
pub open spec fn kept_reals(a: Seq<ValueView>) -> Seq<Real>
    decreases a.len(),
{
    if a.len() == 0 {
        Seq::empty()
    } else {
        let rest = kept_reals(a.drop_last());
        match a.last().to_real() {
            Some(v) => rest.push(v),
            None => rest,
        }
    }
}

impl Value {
    pub fn as_u64(&self) -> (r: Option<u64>)
        ensures
            r == self@.to_u64(),
    {
        match self {
            Value::U8(v) => Some(*v as u64),
            Value::I8(v) => Some(*v as u64),
            Value::U16(v) => Some(*v as u64),
            Value::I16(v) => Some(*v as u64),
            Value::U32(v) => Some(*v as u64),
            Value::I32(v) => Some(*v as u64),
            Value::U64(v) => Some(*v),
            Value::I64(v) => Some(*v as u64),
            Value::Bool(v) => Some(if *v { 1 } else { 0 }),
            _ => None,
        }
    }

    pub fn as_u32(&self) -> (r: Option<u32>)
        ensures
            r == self@.to_u32(),
    {
        match self.as_u64() {
            Some(v) => Some(v as u32),
            None => None,
        }
    }

    pub fn as_i32(&self) -> (r: Option<i32>)
        ensures
            r == self@.to_i32(),
    {
        match self {
            Value::I8(v) => Some(*v as i32),
            Value::I16(v) => Some(*v as i32),
            Value::I32(v) => Some(*v),
            Value::I64(v) => Some(*v as i32),
            _ => match self.as_u64() {
                Some(v) => Some(v as i32),
                None => None,
            },
        }
    }

    pub fn as_f32(&self) -> (r: Option<Real>)
        ensures
            r == self@.to_real(),
    {
        match self {
            Value::F32(v) => Some(Real::Single(*v)),
            Value::F64(v) => Some(Real::Double(*v)),
            _ => match self.as_u64() {
                Some(v) => Some(Real::Whole(v)),
                None => None,
            },
        }
    }

    pub fn as_bool(&self) -> (r: Option<bool>)
        ensures
            r == self@.to_bool(),
    {
        match self {
            Value::Bool(v) => Some(*v),
            _ => match self.as_u64() {
                Some(v) => Some(v != 0),
                None => None,
            },
        }
    }

    pub fn as_str(&self) -> (r: Option<&str>)
        ensures
            match self@.to_text() {
                Some(s) => r is Some && r->0@ == s,
                None => r is None,
            },
    {
        match self {
            Value::String(v) => Some(v.as_str()),
            _ => None,
        }
    }

    pub fn as_array(&self) -> (r: Option<&[Value]>)
        ensures
            match self@.to_array() {
                Some(a) => r is Some && values(r->0@) == a,
                None => r is None,
            },
    {
        match self {
            Value::Array(v) => {
                assert(values(v@) =~= self@->Array_0);
                Some(v.as_slice())
            },
            _ => None,
        }
    }

    /// Scalars answer as a one-element list, because GGUF writers are inconsistent about
    /// whether things like `eos_token_id` are a scalar or an array.
    pub fn as_u32_list(&self) -> (r: Vec<u32>)
        ensures
            r@ == self@.to_u32s(),
    {
        let mut out: Vec<u32> = Vec::new();
        match self {
            Value::Array(a) => {
                let ghost all = self@->Array_0;
                let mut i: usize = 0;
                while i < a.len()
                    invariant
                        i <= a@.len(),
                        all.len() == a@.len(),
                        forall|j: int| 0 <= j < a@.len() ==> all[j] == a@[j]@,
                        out@ == kept_u32s(all.take(i as int)),
                    decreases a@.len() - i,
                {
                    assert(all.take(i + 1).drop_last() =~= all.take(i as int));
                    match a[i].as_u32() {
                        Some(v) => out.push(v),
                        None => {},
                    }
                    i = i + 1;
                }
                assert(all.take(i as int) =~= all);
            },
            _ => match self.as_u32() {
                Some(v) => {
                    out.push(v);
                    assert(out@ =~= seq![v]);
                },
                None => {},
            },
        }
        out
    }

    pub fn as_f32_list(&self) -> (r: Vec<Real>)
        ensures
            r@ == self@.to_reals(),
    {
        let mut out: Vec<Real> = Vec::new();
        match self {
            Value::Array(a) => {
                let ghost all = self@->Array_0;
                let mut i: usize = 0;
                while i < a.len()
                    invariant
                        i <= a@.len(),
                        all.len() == a@.len(),
                        forall|j: int| 0 <= j < a@.len() ==> all[j] == a@[j]@,
                        out@ == kept_reals(all.take(i as int)),
                    decreases a@.len() - i,
                {
                    assert(all.take(i + 1).drop_last() =~= all.take(i as int));
                    match a[i].as_f32() {
                        Some(v) => out.push(v),
                        None => {},
                    }
                    i = i + 1;
                }
                assert(all.take(i as int) =~= all);
            },
            _ => match self.as_f32() {
                Some(v) => {
                    out.push(v);
                    assert(out@ =~= seq![v]);
                },
                None => {},
            },
        }
        out
    }
}

/// Metadata with architecture-aware lookup.
///
/// Nearly every hyperparameter key is prefixed with the model's own architecture name
/// (`qwen3.block_count`, `gemma3.embedding_length`). Resolving that prefix here is what
/// lets an architecture the engine has never seen still load: the keys are found by shape,
/// not by a hardcoded list of known prefixes.
#[derive(Debug)]
pub struct Metadata {
    pub map: Dict<Value>,
    pub arch: String,
}

/// The mathematical value of a [`Metadata`].
pub struct MetaView {
    pub map: Seq<(Seq<char>, ValueView)>,
    pub arch: Seq<char>,
}

impl View for Metadata {
    type V = MetaView;

    open spec fn view(&self) -> MetaView {
        MetaView { map: self.map.items(), arch: self.arch@ }
    }
}

/// The architecture that metadata names.
pub open spec fn arch_of(m: Seq<(Seq<char>, ValueView)>) -> Seq<char> {
    match lookup(m, "general.architecture"@) {
        Some(v) => match v.to_text() {
            Some(s) => s,
            None => "llama"@,
        },
        None => "llama"@,
    }
}

impl MetaView {
    pub open spec fn key(self, suffix: Seq<char>) -> Seq<char> {
        self.arch + "."@ + suffix
    }

    /// What stands under exactly `key`.
    pub open spec fn exact(self, key: Seq<char>) -> Option<ValueView> {
        lookup(self.map, key)
    }

    /// What stands under `{arch}.{suffix}`.
    pub open spec fn at(self, suffix: Seq<char>) -> Option<ValueView> {
        lookup(self.map, self.key(suffix))
    }

    pub open spec fn num(self, suffix: Seq<char>) -> Option<u32> {
        match self.at(suffix) {
            Some(v) => v.to_u32(),
            None => None,
        }
    }

    pub open spec fn num_or(self, suffix: Seq<char>, default: u32) -> u32 {
        match self.num(suffix) {
            Some(v) => v,
            None => default,
        }
    }

    pub open spec fn float(self, suffix: Seq<char>) -> Option<Real> {
        match self.at(suffix) {
            Some(v) => v.to_real(),
            None => None,
        }
    }

    pub open spec fn float_or(self, suffix: Seq<char>, default: u32) -> Real {
        match self.float(suffix) {
            Some(v) => v,
            None => Real::Single(default),
        }
    }

    pub open spec fn flag(self, suffix: Seq<char>) -> Option<bool> {
        match self.at(suffix) {
            Some(v) => v.to_bool(),
            None => None,
        }
    }

    pub open spec fn text(self, suffix: Seq<char>) -> Option<Seq<char>> {
        match self.at(suffix) {
            Some(v) => v.to_text(),
            None => None,
        }
    }

    pub open spec fn nums(self, suffix: Seq<char>) -> Seq<u32> {
        match self.at(suffix) {
            Some(v) => v.to_u32s(),
            None => Seq::empty(),
        }
    }

    pub open spec fn floats(self, suffix: Seq<char>) -> Seq<Real> {
        match self.at(suffix) {
            Some(v) => v.to_reals(),
            None => Seq::empty(),
        }
    }

    /// What stands under the first of `suffixes` that is there.
    pub open spec fn first_of(self, suffixes: Seq<Seq<char>>) -> Option<ValueView>
        decreases suffixes.len(),
    {
        if suffixes.len() == 0 {
            None
        } else {
            match self.at(suffixes[0]) {
                Some(v) => Some(v),
                None => self.first_of(suffixes.drop_first()),
            }
        }
    }
}

/// The keys of a map, in its order.
pub open spec fn keys_of<T>(m: Seq<(Seq<char>, T)>) -> Seq<Seq<char>> {
    Seq::new(m.len(), |i: int| m[i].0)
}

/// The views of a list of borrowed strings.
pub open spec fn strs(v: Seq<&str>) -> Seq<Seq<char>> {
    Seq::new(v.len(), |i: int| v[i]@)
}

impl Metadata {
    pub open spec fn wf(self) -> bool {
        self.map.wf()
    }

    pub fn new(map: Dict<Value>) -> (r: Self)
        requires
            map.wf(),
        ensures
            r.wf(),
            r@ == (MetaView { map: map.items(), arch: arch_of(map.items()) }),
    {
        let arch = match map.get("general.architecture") {
            Some(v) => match v.as_str() {
                Some(s) => own(s),
                None => own("llama"),
            },
            None => own("llama"),
        };
        Metadata { map, arch }
    }

    /// Exact key lookup, no prefixing.
    pub fn raw(&self, key: &str) -> (r: Option<&Value>)
        requires
            self.wf(),
        ensures
            match self@.exact(key@) {
                Some(v) => r is Some && r->0@ == v,
                None => r is None,
            },
    {
        self.map.get(key)
    }

    /// Lookup of `{arch}.{suffix}`.
    pub fn get(&self, suffix: &str) -> (r: Option<&Value>)
        requires
            self.wf(),
        ensures
            match self@.at(suffix@) {
                Some(v) => r is Some && r->0@ == v,
                None => r is None,
            },
    {
        let key = cat3(self.arch.as_str(), ".", suffix);
        self.map.get(key.as_str())
    }

    /// First of several architecture-prefixed suffixes that exists.
    pub fn get_any(&self, suffixes: &[&str]) -> (r: Option<&Value>)
        requires
            self.wf(),
        ensures
            match self@.first_of(strs(suffixes@)) {
                Some(v) => r is Some && r->0@ == v,
                None => r is None,
            },
    {
        let ghost all = strs(suffixes@);
        let mut i: usize = 0;
        assert(all.skip(0) =~= all);
        while i < suffixes.len()
            invariant
                self.wf(),
                i <= suffixes@.len(),
                all == strs(suffixes@),
                self@.first_of(all) == self@.first_of(all.skip(i as int)),
            decreases suffixes@.len() - i,
        {
            assert(all.skip(i as int)[0] == suffixes@[i as int]@);
            assert(all.skip(i as int).drop_first() =~= all.skip(i + 1));
            match self.get(suffixes[i]) {
                Some(v) => {
                    return Some(v);
                },
                None => {},
            }
            i = i + 1;
        }
        None
    }

    pub fn u32(&self, suffix: &str) -> (r: Option<u32>)
        requires
            self.wf(),
        ensures
            r == self@.num(suffix@),
    {
        match self.get(suffix) {
            Some(v) => v.as_u32(),
            None => None,
        }
    }

    pub fn u32_or(&self, suffix: &str, default: u32) -> (r: u32)
        requires
            self.wf(),
        ensures
            r == self@.num_or(suffix@, default),
    {
        match self.u32(suffix) {
            Some(v) => v,
            None => default,
        }
    }

    /// A number to be read in single precision.
    pub fn single(&self, suffix: &str) -> (r: Option<Real>)
        requires
            self.wf(),
        ensures
            r == self@.float(suffix@),
    {
        match self.get(suffix) {
            Some(v) => v.as_f32(),
            None => None,
        }
    }

    /// As [`Metadata::single`], with the bits of a number for when there is none.
    pub fn single_or(&self, suffix: &str, default: u32) -> (r: Real)
        requires
            self.wf(),
        ensures
            r == self@.float_or(suffix@, default),
    {
        match self.single(suffix) {
            Some(v) => v,
            None => Real::Single(default),
        }
    }

    pub fn bool(&self, suffix: &str) -> (r: Option<bool>)
        requires
            self.wf(),
        ensures
            r == self@.flag(suffix@),
    {
        match self.get(suffix) {
            Some(v) => v.as_bool(),
            None => None,
        }
    }

    pub fn string(&self, suffix: &str) -> (r: Option<&str>)
        requires
            self.wf(),
        ensures
            match self@.text(suffix@) {
                Some(s) => r is Some && r->0@ == s,
                None => r is None,
            },
    {
        match self.get(suffix) {
            Some(v) => v.as_str(),
            None => None,
        }
    }

    pub fn u32_list(&self, suffix: &str) -> (r: Vec<u32>)
        requires
            self.wf(),
        ensures
            r@ == self@.nums(suffix@),
    {
        match self.get(suffix) {
            Some(v) => v.as_u32_list(),
            None => Vec::new(),
        }
    }

    pub fn f32_list(&self, suffix: &str) -> (r: Vec<Real>)
        requires
            self.wf(),
        ensures
            r@ == self@.floats(suffix@),
    {
        match self.get(suffix) {
            Some(v) => v.as_f32_list(),
            None => Vec::new(),
        }
    }

    pub fn u32_req(&self, suffix: &str) -> (r: Result<u32, Error>)
        requires
            self.wf(),
        ensures
            match self@.num(suffix@) {
                Some(v) => r == Ok::<u32, Error>(v),
                None => r is Err && r->Err_0@ == ErrorView::MissingKey(self@.key(suffix@)),
            },
    {
        match self.u32(suffix) {
            Some(v) => Ok(v),
            None => Err(Error::MissingKey(cat3(self.arch.as_str(), ".", suffix))),
        }
    }

    pub fn len(&self) -> (r: usize)
        requires
            self.wf(),
        ensures
            r == self@.map.len(),
    {
        self.map.len()
    }

    pub fn is_empty(&self) -> (r: bool)
        requires
            self.wf(),
        ensures
            r == (self@.map.len() == 0),
    {
        self.map.is_empty()
    }

    /// Keys sorted, for deterministic `inspect` output.
    pub fn sorted_keys(&self) -> (r: Vec<String>)
        requires
            self.wf(),
        ensures
            texts(r@) == sorted(keys_of(self@.map)),
    {
        let mut keys: Vec<String> = Vec::new();
        let mut i: usize = 0;
        while i < self.map.len()
            invariant
                self.wf(),
                i <= self@.map.len(),
                texts(keys@) =~= keys_of(self@.map).take(i as int),
            decreases self@.map.len() - i,
        {
            let ghost before = texts(keys@);
            keys.push(own(self.map.key(i)));
            i = i + 1;
            assert(texts(keys@) =~= before.push(self@.map[i - 1].0));
        }
        assert(keys_of(self@.map).take(i as int) =~= keys_of(self@.map));
        sort_texts(&keys)
    }
}

} // verus!
