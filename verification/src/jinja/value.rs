//! What a template computes with.

use vstd::prelude::*;
use vstd::string::*;

use super::number::{eq_bits, num_eq, Host, Maths, NumOp, ONE_BITS, SIGN_BIT};
use crate::dict::{key_from, key_from_is_first, lookup};
use crate::gguf::reader::{hex2, hex_text};
use crate::text::{
    chars_of, comes_before, own, same, string_of_char, text_less, text_less_irreflexive,
    text_less_total, text_less_transitive, trim, trimmed,
};

verus! {

/// A value of a template. Numbers are held by their bits.
#[derive(Debug)]
pub enum Value {
    Null,
    Bool(bool),
    Num(u64),
    Str(String),
    List(Vec<Value>),
    /// Entries in the order of their keys.
    Object(Vec<Entry>),
}

#[derive(Debug)]
pub struct Entry {
    pub key: String,
    pub value: Value,
}

/// The mathematical value of a [`Value`].
pub enum Val {
    Null,
    Bool(bool),
    Num(u64),
    Str(Seq<char>),
    List(Seq<Val>),
    Object(Seq<(Seq<char>, Val)>),
}

impl Value {
    pub open spec fn spec_view(self) -> Val
        decreases self,
    {
        match self {
            Value::Null => Val::Null,
            Value::Bool(b) => Val::Bool(b),
            Value::Num(n) => Val::Num(n),
            Value::Str(s) => Val::Str(s@),
            Value::List(a) => Val::List(
                Seq::new(
                    a@.len(),
                    |i: int|
                        if 0 <= i < a@.len() {
                            a@[i].spec_view()
                        } else {
                            Val::Null
                        },
                ),
            ),
            Value::Object(a) => Val::Object(
                Seq::new(
                    a@.len(),
                    |i: int|
                        if 0 <= i < a@.len() {
                            (a@[i].key@, a@[i].value.spec_view())
                        } else {
                            (Seq::empty(), Val::Null)
                        },
                ),
            ),
        }
    }
}

impl View for Value {
    type V = Val;

    open spec fn view(&self) -> Val {
        self.spec_view()
    }
}

impl View for Entry {
    type V = (Seq<char>, Val);

    open spec fn view(&self) -> (Seq<char>, Val) {
        (self.key@, self.value@)
    }
}

/// The views of a list of values.
pub open spec fn vals(v: Seq<Value>) -> Seq<Val> {
    Seq::new(v.len(), |i: int| v[i]@)
}

/// The views of a list of entries.
pub open spec fn entries(v: Seq<Entry>) -> Seq<(Seq<char>, Val)> {
    Seq::new(v.len(), |i: int| v[i]@)
}

pub proof fn list_view(a: Vec<Value>)
    ensures
        Value::List(a)@ == Val::List(vals(a@)),
{
    assert(Value::List(a)@->List_0 =~= vals(a@));
}

pub proof fn map_view(a: Vec<Entry>)
    ensures
        Value::Object(a)@ == Val::Object(entries(a@)),
{
    assert(Value::Object(a)@->Object_0 =~= entries(a@));
}

/// The elements of a list are smaller than it.
proof fn list_shrinks(v: Value, i: int)
    requires
        v is List,
        0 <= i < v->List_0@.len(),
    ensures
        decreases_to!(v => v->List_0@[i]),
{
    assert(decreases_to!(v => v->List_0));
    assert(decreases_to!(v->List_0 => v->List_0@));
}

/// The values of a map are smaller than it.
proof fn object_shrinks(v: Value, i: int)
    requires
        v is Object,
        0 <= i < v->Object_0@.len(),
    ensures
        decreases_to!(v => v->Object_0@[i].value),
{
    assert(decreases_to!(v => v->Object_0));
    assert(decreases_to!(v->Object_0 => v->Object_0@));
    assert(decreases_to!(v->Object_0@ => v->Object_0@[i]));
}

/// A list value.
pub fn list(a: Vec<Value>) -> (r: Value)
    ensures
        r@ == Val::List(vals(a@)),
{
    proof {
        list_view(a);
    }
    Value::List(a)
}

/// A map value.
pub fn object(a: Vec<Entry>) -> (r: Value)
    ensures
        r@ == Val::Object(entries(a@)),
{
    proof {
        map_view(a);
    }
    Value::Object(a)
}

/// `m` with `v` under `k`, where the keys of `m` ascend.
pub open spec fn put_key(m: Seq<(Seq<char>, Val)>, k: Seq<char>, v: Val) -> Seq<(Seq<char>, Val)>
    decreases m.len(),
{
    if m.len() == 0 {
        seq![(k, v)]
    } else if m.last().0 == k {
        m.drop_last().push((k, v))
    } else if text_less(m.last().0, k) {
        m.push((k, v))
    } else {
        put_key(m.drop_last(), k, v).push(m.last())
    }
}

/// Whether the keys ascend, none of them twice.
pub open spec fn keys_ascend(m: Seq<(Seq<char>, Val)>) -> bool {
    forall|i: int, j: int| 0 <= i < j < m.len() ==> text_less((#[trigger] m[i]).0, (#[trigger] m[j]).0)
}

/// Putting a key keeps the keys in ascending order, and is found again.
pub proof fn put_key_keeps_order(m: Seq<(Seq<char>, Val)>, k: Seq<char>, v: Val)
    requires
        keys_ascend(m),
    ensures
        keys_ascend(put_key(m, k, v)),
        put_key(m, k, v).contains((k, v)),
        forall|i: int|
            0 <= i < put_key(m, k, v).len() ==> (#[trigger] put_key(m, k, v)[i]) == (k, v)
                || m.contains(put_key(m, k, v)[i]),
        forall|i: int|
            0 <= i < m.len() && (#[trigger] m[i]).0 != k ==> put_key(m, k, v).contains(m[i]),
    decreases m.len(),
{
    let r = put_key(m, k, v);
    if m.len() == 0 {
        assert(r[0] == (k, v));
    } else {
        let d = m.drop_last();
        assert forall|i: int| 0 <= i < d.len() implies m.contains(#[trigger] d[i]) by {
            assert(m[i] == d[i]);
        }
        if m.last().0 == k {
            assert(r.last() == (k, v));
            assert forall|i: int| 0 <= i < m.len() && (#[trigger] m[i]).0 != k implies r.contains(
                m[i],
            ) by {
                assert(r[i] == m[i]);
            }
            assert forall|i: int| 0 <= i < r.len() implies (#[trigger] r[i]) == (k, v)
                || m.contains(r[i]) by {
                if i < d.len() {
                    assert(r[i] == m[i]);
                }
            }
        } else if text_less(m.last().0, k) {
            assert(r.last() == (k, v));
            assert forall|i: int, j: int| 0 <= i < j < r.len() implies text_less(
                (#[trigger] r[i]).0,
                (#[trigger] r[j]).0,
            ) by {
                if j == m.len() && i < m.len() - 1 {
                    text_less_transitive(m[i].0, m.last().0, k);
                }
            }
            assert forall|i: int| 0 <= i < m.len() && (#[trigger] m[i]).0 != k implies r.contains(
                m[i],
            ) by {
                assert(r[i] == m[i]);
            }
            assert forall|i: int| 0 <= i < r.len() implies (#[trigger] r[i]) == (k, v)
                || m.contains(r[i]) by {
                if i < m.len() {
                    assert(r[i] == m[i]);
                }
            }
        } else {
            text_less_total(k, m.last().0);
            put_key_keeps_order(d, k, v);
            let q = put_key(d, k, v);
            assert(r =~= q.push(m.last()));
            let w = choose|w: int| 0 <= w < q.len() && q[w] == (k, v);
            assert(r[w] == (k, v));
            assert forall|i: int| 0 <= i < q.len() implies text_less(
                (#[trigger] q[i]).0,
                m.last().0,
            ) && (q[i] == (k, v) || m.contains(q[i])) by {
                if q[i] != (k, v) {
                    let z = choose|z: int| 0 <= z < d.len() && d[z] == q[i];
                    assert(m[z] == q[i]);
                }
            }
            assert forall|i: int| 0 <= i < r.len() implies (#[trigger] r[i]) == (k, v)
                || m.contains(r[i]) by {
                if i < q.len() {
                    assert(r[i] == q[i]);
                } else {
                    assert(r[i] == m[m.len() - 1]);
                }
            }
            assert forall|i: int, j: int| 0 <= i < j < r.len() implies text_less(
                (#[trigger] r[i]).0,
                (#[trigger] r[j]).0,
            ) by {
                assert(r[i] == q[i]);
                if j < q.len() {
                    assert(r[j] == q[j]);
                }
            }
            assert forall|i: int| 0 <= i < m.len() && (#[trigger] m[i]).0 != k implies r.contains(
                m[i],
            ) by {
                if i < d.len() {
                    assert(d[i] == m[i]);
                    let z = choose|z: int| 0 <= z < q.len() && q[z] == d[i];
                    assert(r[z] == m[i]);
                } else {
                    assert(r[q.len() as int] == m[i]);
                }
            }
        }
    }
}

/// What was put under a key is found there.
pub proof fn put_key_then_lookup(m: Seq<(Seq<char>, Val)>, k: Seq<char>, v: Val)
    requires
        keys_ascend(m),
    ensures
        lookup(put_key(m, k, v), k) == Some(v),
{
    let r = put_key(m, k, v);
    put_key_keeps_order(m, k, v);
    let w = choose|w: int| 0 <= w < r.len() && r[w] == (k, v);
    key_from_is_first(r, k, 0);
    let i = key_from(r, k, 0)->0 as int;
    if i < w {
        text_less_irreflexive(r[i].0);
    }
}

/// Puts `value` under `key`.
pub fn insert(m: &mut Vec<Entry>, key: String, value: Value)
    ensures
        entries(final(m)@) == put_key(entries(old(m)@), key@, value@),
    decreases old(m)@.len(),
{
    let ghost before = entries(m@);
    match m.pop() {
        None => {
            m.push(Entry { key, value });
            assert(entries(m@) =~= seq![(key@, value@)]);
        },
        Some(last) => {
            assert(entries(m@) =~= before.drop_last());
            assert(before.last() == last@);
            if same(last.key.as_str(), key.as_str()) {
                m.push(Entry { key, value });
                assert(entries(m@) =~= before.drop_last().push((key@, value@)));
            } else if comes_before(last.key.as_str(), key.as_str()) {
                m.push(last);
                m.push(Entry { key, value });
                assert(entries(m@) =~= before.push((key@, value@)));
            } else {
                insert(m, key, value);
                let ghost mid = entries(m@);
                m.push(last);
                assert(entries(m@) =~= mid.push(before.last()));
            }
        },
    }
}

/// Where `k` stands in `m`.
pub fn find_key(m: &Vec<Entry>, k: &str) -> (r: Option<usize>)
    ensures
        match key_from(entries(m@), k@, 0) {
            Some(i) => r is Some && r->0 == i && i < m@.len(),
            None => r is None,
        },
{
    let mut i: usize = 0;
    while i < m.len()
        invariant
            i <= m@.len(),
            key_from(entries(m@), k@, 0) == key_from(entries(m@), k@, i as nat),
        decreases m@.len() - i,
    {
        if same(m[i].key.as_str(), k) {
            return Some(i);
        }
        i = i + 1;
    }
    None
}

/// A copy of what stands under `k`, or nothing.
pub fn get_or_null(m: &Vec<Entry>, k: &str) -> (r: Value)
    ensures
        r@ == or_null(lookup(entries(m@), k@)),
{
    match find_key(m, k) {
        Some(i) => m[i].value.copy(),
        None => Value::Null,
    }
}

pub open spec fn or_null(v: Option<Val>) -> Val {
    match v {
        Some(x) => x,
        None => Val::Null,
    }
}

/// A copy of `a[i]`, or nothing.
pub fn nth_or_null(a: &[Value], i: usize) -> (r: Value)
    ensures
        r@ == nth(vals(a@), i as int),
{
    if i < a.len() {
        a[i].copy()
    } else {
        Value::Null
    }
}

/// The element at `i`, or nothing.
pub open spec fn nth(a: Seq<Val>, i: int) -> Val {
    if 0 <= i < a.len() {
        a[i]
    } else {
        Val::Null
    }
}

/// A copy of a list.
pub fn copy_list(a: &[Value]) -> (r: Vec<Value>)
    ensures
        vals(r@) == vals(a@),
    decreases a@,
{
    let mut out: Vec<Value> = Vec::new();
    let mut i: usize = 0;
    while i < a.len()
        invariant
            i <= a@.len(),
            vals(out@) =~= vals(a@).take(i as int),
        decreases a@.len() - i,
    {
        let ghost before = vals(out@);
        let c = a[i].copy();
        out.push(c);
        i = i + 1;
        assert(vals(out@) =~= before.push(a@[i - 1]@));
    }
    assert(vals(a@).take(i as int) =~= vals(a@));
    out
}

/// A copy of a map.
pub fn copy_map(a: &Vec<Entry>) -> (r: Vec<Entry>)
    ensures
        entries(r@) == entries(a@),
    decreases a@,
{
    let mut out: Vec<Entry> = Vec::new();
    let mut i: usize = 0;
    while i < a.len()
        invariant
            i <= a@.len(),
            entries(out@) =~= entries(a@).take(i as int),
        decreases a@.len() - i,
    {
        let ghost before = entries(out@);
        let e = Entry { key: a[i].key.clone(), value: a[i].value.copy() };
        out.push(e);
        i = i + 1;
        assert(entries(out@) =~= before.push(a@[i - 1]@));
    }
    assert(entries(a@).take(i as int) =~= entries(a@));
    out
}

impl Val {
    pub open spec fn truthy(self) -> bool {
        match self {
            Val::Null => false,
            Val::Bool(b) => b,
            Val::Num(n) => n != 0 && n != SIGN_BIT,
            Val::Str(s) => s.len() > 0,
            Val::List(l) => l.len() > 0,
            Val::Object(m) => m.len() > 0,
        }
    }

    /// Whether two values are the same, number by number.
    pub open spec fn same(self, other: Val) -> bool
        decreases self, 0nat,
    {
        match (self, other) {
            (Val::Null, Val::Null) => true,
            (Val::Bool(a), Val::Bool(b)) => a == b,
            (Val::Num(a), Val::Num(b)) => num_eq(a, b),
            (Val::Str(a), Val::Str(b)) => a == b,
            (Val::List(a), Val::List(b)) => a.len() == b.len() && lists_same(a, b, a.len()),
            (Val::Object(a), Val::Object(b)) => a.len() == b.len() && maps_same(a, b, a.len()),
            _ => false,
        }
    }
}

pub open spec fn lists_same(a: Seq<Val>, b: Seq<Val>, n: nat) -> bool
    decreases a, n,
{
    if n == 0 || n > a.len() {
        true
    } else {
        lists_same(a, b, (n - 1) as nat) && a[n - 1].same(b[n - 1])
    }
}

pub open spec fn maps_same(a: Seq<(Seq<char>, Val)>, b: Seq<(Seq<char>, Val)>, n: nat) -> bool
    decreases a, n,
{
    if n == 0 || n > a.len() {
        true
    } else {
        maps_same(a, b, (n - 1) as nat) && a[n - 1].0 == b[n - 1].0 && a[n - 1].1.same(b[n - 1].1)
    }
}

/// A character as it stands in a JSON string.
pub open spec fn escaped(c: char) -> Seq<char> {
    if c == '"' {
        "\\\""@
    } else if c == '\\' {
        "\\\\"@
    } else if c == '\n' {
        "\\n"@
    } else if c == '\r' {
        "\\r"@
    } else if c == '\t' {
        "\\t"@
    } else if (c as u32) < 0x20 {
        "\\u00"@ + hex2(c as u8)
    } else {
        seq![c]
    }
}

pub open spec fn escaped_all(s: Seq<char>) -> Seq<char>
    decreases s.len(),
{
    if s.len() == 0 {
        Seq::empty()
    } else {
        escaped_all(s.drop_last()) + escaped(s.last())
    }
}

pub open spec fn json_str(s: Seq<char>) -> Seq<char> {
    "\""@ + escaped_all(s) + "\""@
}

/// A value in JSON.
pub open spec fn json(h: Host, v: Val) -> Seq<char>
    decreases v, 0nat,
{
    match v {
        Val::Null => "null"@,
        Val::Bool(b) => if b {
            "true"@
        } else {
            "false"@
        },
        Val::Num(n) => h.text(n),
        Val::Str(s) => json_str(s),
        Val::List(a) => "["@ + json_list(h, a, a.len()) + "]"@,
        Val::Object(m) => "{"@ + json_map(h, m, m.len()) + "}"@,
    }
}

pub open spec fn json_list(h: Host, a: Seq<Val>, n: nat) -> Seq<char>
    decreases a, n,
{
    if n == 0 || n > a.len() {
        Seq::empty()
    } else if n == 1 {
        json(h, a[0])
    } else {
        json_list(h, a, (n - 1) as nat) + ", "@ + json(h, a[n - 1])
    }
}

pub open spec fn json_map(h: Host, m: Seq<(Seq<char>, Val)>, n: nat) -> Seq<char>
    decreases m, n,
{
    if n == 0 || n > m.len() {
        Seq::empty()
    } else {
        (if n == 1 {
            Seq::empty()
        } else {
            json_map(h, m, (n - 1) as nat) + ", "@
        }) + json_str(m[n - 1].0) + ": "@ + json(h, m[n - 1].1)
    }
}

/// A value as text.
pub open spec fn text_of(h: Host, v: Val) -> Seq<char> {
    match v {
        Val::Null => Seq::empty(),
        Val::Bool(b) => if b {
            "True"@
        } else {
            "False"@
        },
        Val::Num(n) => h.text(n),
        Val::Str(s) => s,
        Val::List(_) => json(h, v),
        Val::Object(_) => json(h, v),
    }
}

/// What a loop over a value runs over.
pub open spec fn iterated(v: Val) -> Seq<Val> {
    match v {
        Val::List(a) => a,
        Val::Object(m) => Seq::new(m.len(), |i: int| Val::List(seq![Val::Str(m[i].0), m[i].1])),
        Val::Str(s) => Seq::new(s.len(), |i: int| Val::Str(seq![s[i]])),
        Val::Null => Seq::empty(),
        Val::Bool(_) => seq![v],
        Val::Num(_) => seq![v],
    }
}

/// A value as a number.
pub open spec fn num_of(h: Host, v: Val) -> u64 {
    match v {
        Val::Num(n) => n,
        Val::Bool(b) => if b {
            ONE_BITS
        } else {
            0
        },
        Val::Str(s) => match (h.parse)(trimmed(s)) {
            Some(n) => n,
            None => 0,
        },
        _ => 0,
    }
}

fn escape_into(out: &mut String, c: char)
    ensures
        final(out)@ == old(out)@ + escaped(c),
{
    if c == '"' {
        out.append("\\\"");
    } else if c == '\\' {
        out.append("\\\\");
    } else if c == '\n' {
        out.append("\\n");
    } else if c == '\r' {
        out.append("\\r");
    } else if c == '\t' {
        out.append("\\t");
    } else if (c as u32) < 0x20 {
        out.append("\\u00");
        out.append(hex_text(c as u8).as_str());
        assert(out@ =~= old(out)@ + escaped(c));
    } else {
        out.push(c);
        assert(out@ =~= old(out)@ + escaped(c));
    }
}

fn json_text(out: &mut String, s: &str)
    ensures
        final(out)@ == old(out)@ + json_str(s@),
{
    out.append("\"");
    let cs = chars_of(s);
    let ghost start = out@;
    let mut i: usize = 0;
    assert(start + escaped_all(cs@.take(0)) =~= start);
    while i < cs.len()
        invariant
            i <= cs@.len(),
            out@ == start + escaped_all(cs@.take(i as int)),
        decreases cs@.len() - i,
    {
        escape_into(out, cs[i]);
        i = i + 1;
        assert(cs@.take(i as int).drop_last() =~= cs@.take(i - 1));
        assert(out@ =~= start + escaped_all(cs@.take(i as int)));
    }
    assert(cs@.take(i as int) =~= cs@);
    out.append("\"");
    assert(out@ =~= old(out)@ + json_str(s@));
}

impl Value {
    /// A copy of the value.
    pub fn copy(&self) -> (r: Value)
        ensures
            r@ == self@,
        decreases self,
    {
        match self {
            Value::Null => Value::Null,
            Value::Bool(b) => Value::Bool(*b),
            Value::Num(n) => Value::Num(*n),
            Value::Str(s) => Value::Str(s.clone()),
            Value::List(a) => {
                proof {
                    list_view(*a);
                }
                let mut out: Vec<Value> = Vec::new();
                let mut i: usize = 0;
                while i < a.len()
                    invariant
                        i <= a@.len(),
                        *self == Value::List(*a),
                        vals(out@) =~= vals(a@).take(i as int),
                    decreases a@.len() - i,
                {
                    let ghost before = vals(out@);
                    proof {
                        list_shrinks(*self, i as int);
                    }
                    let c = a[i].copy();
                    out.push(c);
                    i = i + 1;
                    assert(vals(out@) =~= before.push(a@[i - 1]@));
                }
                assert(vals(a@).take(i as int) =~= vals(a@));
                list(out)
            },
            Value::Object(a) => {
                proof {
                    map_view(*a);
                }
                let mut out: Vec<Entry> = Vec::new();
                let mut i: usize = 0;
                while i < a.len()
                    invariant
                        i <= a@.len(),
                        *self == Value::Object(*a),
                        entries(out@) =~= entries(a@).take(i as int),
                    decreases a@.len() - i,
                {
                    let ghost before = entries(out@);
                    proof {
                        object_shrinks(*self, i as int);
                    }
                    let e = Entry { key: a[i].key.clone(), value: a[i].value.copy() };
                    out.push(e);
                    i = i + 1;
                    assert(entries(out@) =~= before.push(a@[i - 1]@));
                }
                assert(entries(a@).take(i as int) =~= entries(a@));
                object(out)
            },
        }
    }

    pub fn string(s: &str) -> (r: Value)
        ensures
            r@ == Val::Str(s@),
    {
        Value::Str(own(s))
    }

    pub fn truthy(&self) -> (r: bool)
        ensures
            r == self@.truthy(),
    {
        match self {
            Value::Null => false,
            Value::Bool(b) => *b,
            Value::Num(n) => *n != 0 && *n != SIGN_BIT,
            Value::Str(s) => !s.as_str().is_empty(),
            Value::List(l) => l.len() > 0,
            Value::Object(m) => m.len() > 0,
        }
    }

    /// Whether two values are the same, number by number.
    pub fn equals(&self, other: &Value) -> (r: bool)
        ensures
            r == self@.same(other@),
        decreases self,
    {
        match (self, other) {
            (Value::Null, Value::Null) => true,
            (Value::Bool(a), Value::Bool(b)) => *a == *b,
            (Value::Num(a), Value::Num(b)) => eq_bits(*a, *b),
            (Value::Str(a), Value::Str(b)) => same(a.as_str(), b.as_str()),
            (Value::List(a), Value::List(b)) => {
                proof {
                    list_view(*a);
                    list_view(*b);
                }
                if a.len() != b.len() {
                    return false;
                }
                let mut i: usize = 0;
                let mut eq = true;
                while i < a.len()
                    invariant
                        i <= a@.len(),
                        a@.len() == b@.len(),
                        *self == Value::List(*a),
                        eq == lists_same(vals(a@), vals(b@), i as nat),
                    decreases a@.len() - i,
                {
                    proof {
                        list_shrinks(*self, i as int);
                    }
                    let e = a[i].equals(&b[i]);
                    eq = eq && e;
                    i = i + 1;
                }
                eq
            },
            (Value::Object(a), Value::Object(b)) => {
                proof {
                    map_view(*a);
                    map_view(*b);
                }
                if a.len() != b.len() {
                    return false;
                }
                let mut i: usize = 0;
                let mut eq = true;
                while i < a.len()
                    invariant
                        i <= a@.len(),
                        a@.len() == b@.len(),
                        *self == Value::Object(*a),
                        eq == maps_same(entries(a@), entries(b@), i as nat),
                    decreases a@.len() - i,
                {
                    proof {
                        object_shrinks(*self, i as int);
                    }
                    let e = same(a[i].key.as_str(), b[i].key.as_str()) && a[i].value.equals(
                        &b[i].value,
                    );
                    eq = eq && e;
                    i = i + 1;
                }
                eq
            },
            _ => false,
        }
    }

    /// What a loop over the value runs over.
    pub fn iterate(&self) -> (r: Vec<Value>)
        ensures
            vals(r@) == iterated(self@),
    {
        let mut out: Vec<Value> = Vec::new();
        match self {
            Value::List(a) => {
                proof {
                    list_view(*a);
                }
                return copy_list(a.as_slice());
            },
            Value::Object(m) => {
                proof {
                    map_view(*m);
                }
                let mut i: usize = 0;
                while i < m.len()
                    invariant
                        i <= m@.len(),
                        vals(out@) =~= iterated(Val::Object(entries(m@))).take(i as int),
                    decreases m@.len() - i,
                {
                    let ghost before = vals(out@);
                    let mut pair: Vec<Value> = Vec::new();
                    pair.push(Value::Str(m[i].key.clone()));
                    pair.push(m[i].value.copy());
                    assert(vals(pair@) =~= seq![Val::Str(m@[i as int].key@), m@[i as int].value@]);
                    let p = list(pair);
                    out.push(p);
                    i = i + 1;
                    assert(vals(out@) =~= before.push(p@));
                }
                assert(vals(out@) =~= iterated(self@));
            },
            Value::Str(s) => {
                let cs = chars_of(s.as_str());
                let mut i: usize = 0;
                while i < cs.len()
                    invariant
                        i <= cs@.len(),
                        vals(out@) =~= iterated(Val::Str(cs@)).take(i as int),
                    decreases cs@.len() - i,
                {
                    let ghost before = vals(out@);
                    let p = Value::Str(string_of_char(cs[i]));
                    out.push(p);
                    i = i + 1;
                    assert(vals(out@) =~= before.push(p@));
                }
                assert(vals(out@) =~= iterated(self@));
            },
            Value::Null => {
                assert(vals(out@) =~= iterated(self@));
            },
            _ => {
                out.push(self.copy());
                assert(vals(out@) =~= iterated(self@));
            },
        }
        out
    }
}

impl<
    A: Fn(NumOp, u64, u64) -> u64,
    P: Fn(&str) -> Option<u64>,
    W: Fn(u64, bool) -> String,
> Maths<A, P, W> {
    fn write_json(&self, out: &mut String, v: &Value)
        requires
            self.works(),
        ensures
            final(out)@ == old(out)@ + json(self.host(), v@),
        decreases v,
    {
        let ghost h = self.host();
        match v {
            Value::Null => out.append("null"),
            Value::Bool(b) => if *b {
                out.append("true")
            } else {
                out.append("false")
            },
            Value::Num(n) => out.append(self.num_text(*n).as_str()),
            Value::Str(s) => json_text(out, s.as_str()),
            Value::List(a) => {
                proof {
                    list_view(*a);
                }
                out.append("[");
                let ghost start = out@;
                let mut i: usize = 0;
                assert(start + json_list(h, vals(a@), 0) =~= start);
                while i < a.len()
                    invariant
                        self.works(),
                        h == self.host(),
                        i <= a@.len(),
                        *v == Value::List(*a),
                        out@ == start + json_list(h, vals(a@), i as nat),
                    decreases a@.len() - i,
                {
                    if i > 0 {
                        out.append(", ");
                    }
                    proof {
                        list_shrinks(*v, i as int);
                    }
                    self.write_json(out, &a[i]);
                    i = i + 1;
                    assert(out@ =~= start + json_list(h, vals(a@), i as nat));
                }
                out.append("]");
                assert(out@ =~= old(out)@ + json(h, v@));
            },
            Value::Object(m) => {
                proof {
                    map_view(*m);
                }
                out.append("{");
                let ghost start = out@;
                let mut i: usize = 0;
                assert(start + json_map(h, entries(m@), 0) =~= start);
                while i < m.len()
                    invariant
                        self.works(),
                        h == self.host(),
                        i <= m@.len(),
                        *v == Value::Object(*m),
                        out@ == start + json_map(h, entries(m@), i as nat),
                    decreases m@.len() - i,
                {
                    if i > 0 {
                        out.append(", ");
                    }
                    json_text(out, m[i].key.as_str());
                    out.append(": ");
                    proof {
                        object_shrinks(*v, i as int);
                    }
                    self.write_json(out, &m[i].value);
                    i = i + 1;
                    assert(out@ =~= start + json_map(h, entries(m@), i as nat));
                }
                out.append("}");
                assert(out@ =~= old(out)@ + json(h, v@));
            },
        }
    }

    /// A value in JSON.
    pub fn to_json(&self, v: &Value) -> (r: String)
        requires
            self.works(),
        ensures
            r@ == json(self.host(), v@),
    {
        let mut out = String::new();
        self.write_json(&mut out, v);
        assert(Seq::<char>::empty() + json(self.host(), v@) =~= json(self.host(), v@));
        out
    }

    /// A value as text.
    pub fn to_text(&self, v: &Value) -> (r: String)
        requires
            self.works(),
        ensures
            r@ == text_of(self.host(), v@),
    {
        match v {
            Value::Null => String::new(),
            Value::Bool(b) => if *b {
                own("True")
            } else {
                own("False")
            },
            Value::Num(n) => self.num_text(*n),
            Value::Str(s) => s.clone(),
            _ => self.to_json(v),
        }
    }

    /// A value as a number.
    pub fn num(&self, v: &Value) -> (r: u64)
        requires
            self.works(),
        ensures
            r == num_of(self.host(), v@),
    {
        match v {
            Value::Num(n) => *n,
            Value::Bool(b) => if *b {
                ONE_BITS
            } else {
                0
            },
            Value::Str(s) => match self.parsed(trim(s.as_str()).as_str()) {
                Some(n) => n,
                None => 0,
            },
            _ => 0,
        }
    }
}

} // verus!
