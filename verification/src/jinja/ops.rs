//! What operators, filters and methods compute.

use vstd::prelude::*;
use vstd::string::*;

use super::number::{
    abs_bits, le_bits, lt_bits, magnitude, neg_bits, negated, num_le, num_lt, Host, Maths, NumOp,
    ONE_BITS,
};
use super::parse::{BinaryOp, UnaryOp};
use super::value::{
    copy_list, entries, find_key, get_or_null, iterated, json, list, list_view, map_view, nth,
    nth_or_null, num_of, or_null, text_of, vals, Val, Value,
};
use crate::dict::lookup;
use crate::text::{
    begins_with, cat2, cat3, chars_of, contains_text, finishes_with, has_prefix, has_suffix,
    has_text, join_text, joined, lower_of, own, replace_text, replaced, same, split_on, split_text,
    split_words, string_of_char, string_of_range, texts, trim, trim_end_from, trim_start, trimmed,
    trimmed_end, trimmed_start, upper_of, words,
};

verus! {

// ------------------------------------------------------------------------------ operators

/// The attribute `name` of a value.
pub open spec fn attr_of(h: Host, b: Val, name: Seq<char>) -> Val {
    match b {
        Val::Object(m) => or_null(lookup(m, name)),
        Val::List(a) => if name == "length"@ {
            Val::Num(h.whole(a.len()))
        } else {
            Val::Null
        },
        _ => Val::Null,
    }
}

/// Where an index points in a sequence of `len`: from the end where it is negative.
pub open spec fn place(n: int, len: nat) -> int {
    let at = if n < 0 {
        len + n
    } else {
        n
    };
    if at < 0 {
        0
    } else {
        at
    }
}

/// The element of `b` at `i`.
pub open spec fn index_of_value(h: Host, b: Val, i: Val) -> Val {
    match (b, i) {
        (Val::Object(m), _) => or_null(lookup(m, text_of(h, i))),
        (Val::List(a), Val::Num(n)) => nth(a, place(h.int_of(n) as int, a.len())),
        (Val::Str(s), Val::Num(n)) => {
            let at = place(h.int_of(n) as int, s.len());
            if at < s.len() {
                Val::Str(seq![s[at]])
            } else {
                Val::Null
            }
        },
        _ => Val::Null,
    }
}

pub open spec fn unary_of(h: Host, op: UnaryOp, v: Val) -> Val {
    match op {
        UnaryOp::Not => Val::Bool(!v.truthy()),
        UnaryOp::Neg => Val::Num(negated(num_of(h, v))),
    }
}

/// Whether one of the first `n` values of `a` is `v`.
pub open spec fn holds(a: Seq<Val>, v: Val, n: nat) -> bool
    decreases n,
{
    if n == 0 || n > a.len() {
        false
    } else {
        holds(a, v, (n - 1) as nat) || a[n - 1].same(v)
    }
}

/// The result of an operator on two values. `and` and `or` are decided before.
pub open spec fn binary_of(h: Host, op: BinaryOp, l: Val, r: Val) -> Val {
    let a = num_of(h, l);
    let b = num_of(h, r);
    match op {
        BinaryOp::Plus => match (l, r) {
            (Val::Str(s), _) => Val::Str(s + text_of(h, r)),
            (_, Val::Str(s)) => Val::Str(text_of(h, l) + s),
            (Val::List(x), Val::List(y)) => Val::List(x + y),
            _ => Val::Num((h.arith)(NumOp::Add, a, b)),
        },
        BinaryOp::Concat => Val::Str(text_of(h, l) + text_of(h, r)),
        BinaryOp::Minus => Val::Num((h.arith)(NumOp::Sub, a, b)),
        BinaryOp::Times => Val::Num((h.arith)(NumOp::Mul, a, b)),
        BinaryOp::Div => Val::Num((h.arith)(NumOp::Div, a, b)),
        BinaryOp::FloorDiv => Val::Num((h.arith)(NumOp::FloorDiv, a, b)),
        BinaryOp::Rem => Val::Num((h.arith)(NumOp::Rem, a, b)),
        BinaryOp::Eq => Val::Bool(l.same(r)),
        BinaryOp::Ne => Val::Bool(!l.same(r)),
        BinaryOp::Lt => Val::Bool(num_lt(a, b)),
        BinaryOp::Gt => Val::Bool(num_lt(b, a)),
        BinaryOp::Le => Val::Bool(num_le(a, b)),
        BinaryOp::Ge => Val::Bool(num_le(b, a)),
        BinaryOp::In => Val::Bool(
            match r {
                Val::Str(s) => has_text(s, text_of(h, l)),
                Val::Object(m) => lookup(m, text_of(h, l)) is Some,
                _ => holds(iterated(r), l, iterated(r).len()),
            },
        ),
        BinaryOp::And => Val::Null,
        BinaryOp::Or => Val::Null,
    }
}

// -------------------------------------------------------------------------------- slices

/// The bound at `i`, where one is given.
pub open spec fn bound(h: Host, args: Seq<Val>, i: int) -> Option<int> {
    match nth(args, i) {
        Val::Null => None,
        v => Some(h.int_of(num_of(h, v)) as int),
    }
}

pub open spec fn clamped(v: int, lo: int, hi: int) -> int {
    if v < lo {
        lo
    } else if v > hi {
        hi
    } else {
        v
    }
}

/// A bound counted from the start, where it counts from the end, and kept within `lo..=hi`;
/// `other` where none is given.
pub open spec fn normal(b: Option<int>, len: int, lo: int, hi: int, other: int) -> int {
    match b {
        Some(raw) => clamped(
            if raw < 0 {
                len + raw
            } else {
                raw
            },
            lo,
            hi,
        ),
        None => other,
    }
}

/// Every `step`-th value from `i` up to `end`.
pub open spec fn upward(a: Seq<Val>, i: int, end: int, step: int) -> Seq<Val>
    decreases
            if end > i {
                end - i
            } else {
                0
            },
{
    if i < end && step > 0 {
        seq![nth(a, i)] + upward(a, i + step, end, step)
    } else {
        Seq::empty()
    }
}

/// Every `step`-th value from `i` down to `end`, which is not reached.
pub open spec fn downward(a: Seq<Val>, i: int, end: int, step: int) -> Seq<Val>
    decreases
            if i > end {
                i - end
            } else {
                0
            },
{
    if i > end && step < 0 {
        seq![nth(a, i)] + downward(a, i + step, end, step)
    } else {
        Seq::empty()
    }
}

/// What a slice picks from a sequence of values.
pub open spec fn picked(h: Host, a: Seq<Val>, args: Seq<Val>) -> Seq<Val> {
    let len = a.len() as int;
    let step = match bound(h, args, 2) {
        Some(s) => s,
        None => 1,
    };
    if step == 0 || len == 0 {
        Seq::empty()
    } else if step > 0 {
        upward(
            a,
            normal(bound(h, args, 0), len, 0, len, 0),
            normal(bound(h, args, 1), len, 0, len, len),
            step,
        )
    } else {
        // A backwards walk may end before the first value.
        downward(
            a,
            normal(bound(h, args, 0), len, -1, len - 1, len - 1),
            normal(bound(h, args, 1), len, -1, len - 1, -1),
            step,
        )
    }
}

/// The texts of values.
pub open spec fn text_all(h: Host, a: Seq<Val>) -> Seq<Seq<char>> {
    Seq::new(a.len(), |i: int| text_of(h, a[i]))
}

pub open spec fn slice_of(h: Host, v: Val, args: Seq<Val>) -> Val {
    match v {
        Val::List(a) => Val::List(picked(h, a, args)),
        Val::Str(_) => Val::Str(joined(text_all(h, picked(h, iterated(v), args)), Seq::empty())),
        _ => Val::Null,
    }
}

// ------------------------------------------------------------------------------- filters

/// The text of an argument; empty where it is missing.
pub open spec fn arg_text(h: Host, args: Seq<Val>, i: int) -> Seq<char> {
    text_of(h, nth(args, i))
}

/// `s` with its first character in upper case and the rest as it is.
pub open spec fn title_word(s: Seq<char>) -> Seq<char> {
    if s.len() == 0 {
        s
    } else {
        upper_of(s.take(1)) + s.skip(1)
    }
}

/// `s` with its first character in upper case and the rest in lower case.
pub open spec fn capital(s: Seq<char>) -> Seq<char> {
    if s.len() == 0 {
        s
    } else {
        upper_of(s.take(1)) + lower_of(s.skip(1))
    }
}

/// The attributes `key` of values.
pub open spec fn attrs(h: Host, a: Seq<Val>, key: Seq<char>) -> Seq<Val> {
    Seq::new(a.len(), |i: int| attr_of(h, a[i], key))
}

/// Those of the first `n` values whose attribute `key` is true as `want` says.
pub open spec fn chosen(h: Host, a: Seq<Val>, key: Seq<char>, want: bool, n: nat) -> Seq<Val>
    decreases n,
{
    if n == 0 || n > a.len() {
        Seq::empty()
    } else {
        let rest = chosen(h, a, key, want, (n - 1) as nat);
        if attr_of(h, a[n - 1], key).truthy() == want {
            rest.push(a[n - 1])
        } else {
            rest
        }
    }
}

pub open spec fn length_of(h: Host, v: Val) -> Val {
    Val::Num(
        match v {
            Val::List(a) => h.whole(a.len()),
            Val::Object(m) => h.whole(m.len()),
            Val::Str(s) => h.whole(s.len()),
            _ => 0,
        },
    )
}

/// The result of a filter.
pub open spec fn filter_of(h: Host, name: Seq<char>, v: Val, args: Seq<Val>) -> Result<
    Val,
    Seq<char>,
> {
    let items = iterated(v);
    if name == "__slice"@ {
        Ok(slice_of(h, v, args))
    } else if name == "trim"@ || name == "strip"@ {
        Ok(Val::Str(trimmed(text_of(h, v))))
    } else if name == "length"@ || name == "count"@ {
        Ok(length_of(h, v))
    } else if name == "default"@ || name == "d"@ {
        let missing = if nth(args, 1).truthy() {
            !v.truthy()
        } else {
            v is Null
        };
        Ok(
            if missing {
                nth(args, 0)
            } else {
                v
            },
        )
    } else if name == "tojson"@ || name == "to_json"@ {
        Ok(Val::Str(json(h, v)))
    } else if name == "join"@ {
        Ok(Val::Str(joined(text_all(h, items), arg_text(h, args, 0))))
    } else if name == "first"@ {
        Ok(nth(items, 0))
    } else if name == "last"@ {
        Ok(nth(items, items.len() - 1))
    } else if name == "upper"@ {
        Ok(Val::Str(upper_of(text_of(h, v))))
    } else if name == "lower"@ {
        Ok(Val::Str(lower_of(text_of(h, v))))
    } else if name == "capitalize"@ {
        Ok(Val::Str(capital(text_of(h, v))))
    } else if name == "title"@ {
        Ok(Val::Str(titled(text_of(h, v))))
    } else if name == "list"@ {
        Ok(Val::List(items))
    } else if name == "reverse"@ {
        Ok(Val::List(items.reverse()))
    } else if name == "string"@ || name == "str"@ || name == "safe"@ || name == "e"@ || name
        == "escape"@ || name == "forceescape"@ {
        Ok(Val::Str(text_of(h, v)))
    } else if name == "int"@ {
        Ok(Val::Num((h.arith)(NumOp::Trunc, num_of(h, v), 0)))
    } else if name == "float"@ {
        Ok(Val::Num(num_of(h, v)))
    } else if name == "abs"@ {
        Ok(Val::Num(magnitude(num_of(h, v))))
    } else if name == "replace"@ {
        Ok(Val::Str(replaced(text_of(h, v), arg_text(h, args, 0), arg_text(h, args, 1))))
    } else if name == "items"@ || name == "dictsort"@ {
        Ok(Val::List(items))
    } else if name == "indent"@ {
        Ok(v)
    } else if name == "map"@ || name == "attr"@ {
        Ok(Val::List(attrs(h, items, arg_text(h, args, 0))))
    } else if name == "selectattr"@ || name == "rejectattr"@ {
        Ok(
            Val::List(
                chosen(h, items, arg_text(h, args, 0), name == "selectattr"@, items.len()),
            ),
        )
    } else {
        Err("unsupported filter `"@ + name + "`"@)
    }
}

/// `s` with each word of it, as spaces part them, in title case.
pub open spec fn titled(s: Seq<char>) -> Seq<char> {
    let w = split_on(s, seq![' ']);
    joined(Seq::new(w.len(), |i: int| title_word(w[i])), seq![' '])
}

pub open spec fn strings(a: Seq<Seq<char>>) -> Seq<Val> {
    Seq::new(a.len(), |i: int| Val::Str(a[i]))
}

/// The result of a method.
pub open spec fn method_of(h: Host, recv: Val, name: Seq<char>, args: Seq<Val>) -> Result<
    Val,
    Seq<char>,
> {
    let text = text_of(h, recv);
    let items = iterated(recv);
    if name == "strip"@ {
        Ok(Val::Str(trimmed(text)))
    } else if name == "lstrip"@ {
        Ok(Val::Str(trimmed_start(text)))
    } else if name == "rstrip"@ {
        Ok(Val::Str(trimmed_end(text)))
    } else if name == "upper"@ {
        Ok(Val::Str(upper_of(text)))
    } else if name == "lower"@ {
        Ok(Val::Str(lower_of(text)))
    } else if name == "split"@ {
        Ok(
            Val::List(
                strings(
                    if args.len() > 0 {
                        split_on(text, text_of(h, args[0]))
                    } else {
                        words(text)
                    },
                ),
            ),
        )
    } else if name == "startswith"@ {
        Ok(Val::Bool(begins_with(text, arg_text(h, args, 0))))
    } else if name == "endswith"@ {
        Ok(Val::Bool(finishes_with(text, arg_text(h, args, 0))))
    } else if name == "replace"@ {
        filter_of(h, name, recv, args)
    } else if name == "join"@ {
        Ok(Val::Str(joined(text_all(h, iterated(nth(args, 0))), text)))
    } else if name == "items"@ {
        Ok(Val::List(items))
    } else if name == "keys"@ {
        Ok(
            Val::List(
                match recv {
                    Val::Object(m) => Seq::new(m.len(), |i: int| Val::Str(m[i].0)),
                    _ => Seq::empty(),
                },
            ),
        )
    } else if name == "values"@ {
        Ok(
            Val::List(
                match recv {
                    Val::Object(m) => Seq::new(m.len(), |i: int| m[i].1),
                    _ => Seq::empty(),
                },
            ),
        )
    } else if name == "get"@ {
        Ok(
            match recv {
                Val::Object(m) => match lookup(m, arg_text(h, args, 0)) {
                    Some(v) => v,
                    None => nth(args, 1),
                },
                _ => Val::Null,
            },
        )
    } else if name == "append"@ || name == "add"@ {
        Ok(Val::List(items.push(nth(args, 0))))
    } else if name == "extend"@ {
        Ok(Val::List(items + iterated(nth(args, 0))))
    } else {
        Err("unsupported method `."@ + name + "()`"@)
    }
}

/// The numbers from `v` up to `end`, at most `n` of them.
pub open spec fn range_from(h: Host, v: u64, end: u64, step: u64, n: nat) -> Seq<Val>
    decreases n,
{
    if n == 0 || !num_lt(v, end) {
        Seq::empty()
    } else {
        seq![Val::Num(v)] + range_from(
            h,
            (h.arith)(NumOp::Add, v, step),
            end,
            step,
            (n - 1) as nat,
        )
    }
}

/// `x`, or one where it is less than that or no number.
pub open spec fn at_least_one(x: u64) -> u64 {
    if num_lt(ONE_BITS, x) {
        x
    } else {
        ONE_BITS
    }
}

/// The list that `range` stands for. A list holds at most 2^64 - 1 values.
pub open spec fn range_of_args(h: Host, args: Seq<Val>) -> Seq<Val> {
    let most = u64::MAX as nat;
    if args.len() == 0 {
        Seq::empty()
    } else if args.len() == 1 {
        range_from(h, 0, num_of(h, args[0]), ONE_BITS, most)
    } else if args.len() == 2 {
        range_from(h, num_of(h, args[0]), num_of(h, args[1]), ONE_BITS, most)
    } else {
        range_from(
            h,
            num_of(h, args[0]),
            num_of(h, args[1]),
            at_least_one(num_of(h, args[2])),
            most,
        )
    }
}

/// The result of a function other than `namespace`.
pub open spec fn global_of(h: Host, name: Seq<char>, args: Seq<Val>) -> Result<Val, Seq<char>> {
    if name == "raise_exception"@ {
        Err(
            if args.len() > 0 {
                text_of(h, args[0])
            } else {
                "template raised"@
            },
        )
    } else if name == "range"@ {
        Ok(Val::List(range_of_args(h, args)))
    } else if name == "length"@ || name == "len"@ {
        Ok(length_of(h, nth(args, 0)))
    } else if name == "string"@ || name == "str"@ {
        Ok(Val::Str(arg_text(h, args, 0)))
    } else if name == "strftime_now"@ {
        // Rendering is deterministic, so it has no clock.
        Ok(Val::Str(Seq::empty()))
    } else {
        Err("unsupported function `"@ + name + "()`"@)
    }
}

/// The answer of a test on `v`; `defined` says whether it was defined.
pub open spec fn test_of(name: Seq<char>, v: Val, defined: bool, a: Option<Val>) -> Result<
    bool,
    Seq<char>,
> {
    if name == "defined"@ {
        Ok(defined)
    } else if name == "undefined"@ {
        Ok(!defined)
    } else if name == "none"@ || name == "null"@ {
        Ok(v is Null)
    } else if name == "string"@ {
        Ok(v is Str)
    } else if name == "number"@ || name == "integer"@ || name == "float"@ {
        Ok(v is Num)
    } else if name == "boolean"@ {
        Ok(v is Bool)
    } else if name == "mapping"@ {
        Ok(v is Object)
    } else if name == "sequence"@ || name == "iterable"@ {
        Ok(v is List || v is Str || v is Object)
    } else if name == "true"@ {
        Ok(v == Val::Bool(true))
    } else if name == "false"@ {
        Ok(v == Val::Bool(false))
    } else if name == "equalto"@ || name == "eq"@ || name == "sameas"@ {
        Ok(
            match a {
                Some(x) => v.same(x),
                None => false,
            },
        )
    } else if name == "in"@ {
        Ok(
            match a {
                Some(x) => holds(iterated(x), v, iterated(x).len()),
                None => false,
            },
        )
    } else {
        Err("unsupported test `is "@ + name + "`"@)
    }
}

// ------------------------------------------------------------------------- the operations

/// Whether one of `a` is `v`.
fn contains_value(a: &Vec<Value>, v: &Value) -> (r: bool)
    ensures
        r == holds(vals(a@), v@, a@.len()),
{
    let mut found = false;
    let mut i: usize = 0;
    while i < a.len()
        invariant
            i <= a@.len(),
            found == holds(vals(a@), v@, i as nat),
        decreases a@.len() - i,
    {
        if a[i].equals(v) {
            found = true;
        }
        i = i + 1;
    }
    found
}

/// `a` followed by `b`.
fn concat_lists(a: Vec<Value>, b: Vec<Value>) -> (r: Vec<Value>)
    ensures
        vals(r@) == vals(a@) + vals(b@),
{
    let mut out = a;
    let mut more = b;
    out.append(&mut more);
    assert(vals(out@) =~= vals(a@) + vals(b@));
    out
}

fn reversed(a: &Vec<Value>) -> (r: Vec<Value>)
    ensures
        vals(r@) == vals(a@).reverse(),
{
    let mut out: Vec<Value> = Vec::new();
    let mut i: usize = a.len();
    while i > 0
        invariant
            i <= a@.len(),
            vals(out@) =~= vals(a@).reverse().take(a@.len() - i),
        decreases i,
    {
        i = i - 1;
        let ghost before = vals(out@);
        let c = a[i].copy();
        out.push(c);
        assert(vals(out@) =~= before.push(a@[i as int]@));
    }
    assert(vals(a@).reverse().take(a@.len() as int) =~= vals(a@).reverse());
    out
}

fn string_values(a: &Vec<String>) -> (r: Vec<Value>)
    ensures
        vals(r@) == strings(texts(a@)),
{
    let mut out: Vec<Value> = Vec::new();
    let mut i: usize = 0;
    while i < a.len()
        invariant
            i <= a@.len(),
            vals(out@) =~= strings(texts(a@)).take(i as int),
        decreases a@.len() - i,
    {
        let ghost before = vals(out@);
        let c = Value::string(a[i].as_str());
        out.push(c);
        i = i + 1;
        assert(vals(out@) =~= before.push(Val::Str(a@[i - 1]@)));
    }
    assert(strings(texts(a@)).take(i as int) =~= strings(texts(a@)));
    out
}

/// `s` with its first character in upper case; the rest in lower case, where asked.
fn capital_text(s: &str, lower: bool) -> (r: String)
    ensures
        r@ == if lower {
            capital(s@)
        } else {
            title_word(s@)
        },
{
    let c = chars_of(s);
    if c.len() == 0 {
        return own(s);
    }
    let first = string_of_range(c.as_slice(), 0, 1);
    assert(first@ =~= s@.take(1));
    let rest = string_of_range(c.as_slice(), 1, c.len());
    assert(rest@ =~= s@.skip(1));
    let up = first.as_str().to_uppercase();
    if lower {
        let low = rest.as_str().to_lowercase();
        cat2(up.as_str(), low.as_str())
    } else {
        cat2(up.as_str(), rest.as_str())
    }
}

fn title_text(s: &str) -> (r: String)
    ensures
        r@ == titled(s@),
{
    let space = string_of_char(' ');
    let w = split_text(s, space.as_str());
    let ghost want = Seq::new(texts(w@).len(), |i: int| title_word(texts(w@)[i]));
    let mut out: Vec<String> = Vec::new();
    let mut i: usize = 0;
    while i < w.len()
        invariant
            i <= w@.len(),
            want == Seq::new(texts(w@).len(), |i: int| title_word(texts(w@)[i])),
            texts(out@) =~= want.take(i as int),
        decreases w@.len() - i,
    {
        let ghost before = texts(out@);
        let t = capital_text(w[i].as_str(), false);
        out.push(t);
        i = i + 1;
        assert(texts(out@) =~= before.push(title_word(texts(w@)[i - 1])));
    }
    assert(want.take(i as int) =~= want);
    join_text(out.as_slice(), space.as_str())
}

/// A number as an index into a sequence of `len`.
fn place_of(n: i64, len: usize) -> (r: Option<usize>)
    ensures
        match r {
            Some(i) => i == place(n as int, len as nat),
            None => place(n as int, len as nat) > usize::MAX,
        },
{
    let at: i128 = if n < 0 {
        len as i128 + n as i128
    } else {
        n as i128
    };
    if at < 0 {
        Some(0)
    } else if at <= usize::MAX as i128 {
        Some(at as usize)
    } else {
        None
    }
}

fn clamp_to(v: i128, lo: i128, hi: i128) -> (r: i128)
    ensures
        r == clamped(v as int, lo as int, hi as int),
{
    if v < lo {
        lo
    } else if v > hi {
        hi
    } else {
        v
    }
}

fn normal_bound(b: Option<i64>, len: usize, lo: i128, hi: i128, other: i128) -> (r: i128)
    ensures
        r == normal(
            match b {
                Some(x) => Some(x as int),
                None => None,
            },
            len as int,
            lo as int,
            hi as int,
            other as int,
        ),
{
    match b {
        Some(raw) => {
            let v: i128 = if raw < 0 {
                len as i128 + raw as i128
            } else {
                raw as i128
            };
            clamp_to(v, lo, hi)
        },
        None => other,
    }
}

impl<
    A: Fn(NumOp, u64, u64) -> u64,
    P: Fn(&str) -> Option<u64>,
    W: Fn(u64, bool) -> String,
> Maths<A, P, W> {
    /// The attribute `name` of a value.
    pub fn attr(&self, b: &Value, name: &str) -> (r: Value)
        requires
            self.works(),
        ensures
            r@ == attr_of(self.host(), b@, name@),
    {
        match b {
            Value::Object(m) => {
                proof {
                    map_view(*m);
                }
                get_or_null(m, name)
            },
            Value::List(a) => {
                proof {
                    list_view(*a);
                }
                if same(name, "length") {
                    Value::Num(self.from_len(a.len()))
                } else {
                    Value::Null
                }
            },
            _ => Value::Null,
        }
    }

    /// The element of `b` at `i`.
    pub fn index_value(&self, b: &Value, i: &Value) -> (r: Value)
        requires
            self.works(),
        ensures
            r@ == index_of_value(self.host(), b@, i@),
    {
        match (b, i) {
            (Value::Object(m), _) => {
                proof {
                    map_view(*m);
                }
                get_or_null(m, self.to_text(i).as_str())
            },
            (Value::List(a), Value::Num(n)) => {
                proof {
                    list_view(*a);
                }
                match place_of(self.to_int(*n), a.len()) {
                    Some(at) => nth_or_null(a.as_slice(), at),
                    None => Value::Null,
                }
            },
            (Value::Str(s), Value::Num(n)) => {
                let c = chars_of(s.as_str());
                match place_of(self.to_int(*n), c.len()) {
                    Some(at) => if at < c.len() {
                        let one = string_of_char(c[at]);
                        Value::Str(one)
                    } else {
                        Value::Null
                    },
                    None => Value::Null,
                }
            },
            _ => Value::Null,
        }
    }

    pub fn unary(&self, op: UnaryOp, v: &Value) -> (r: Value)
        requires
            self.works(),
        ensures
            r@ == unary_of(self.host(), op, v@),
    {
        match op {
            UnaryOp::Not => Value::Bool(!v.truthy()),
            UnaryOp::Neg => Value::Num(neg_bits(self.num(v))),
        }
    }

    /// The sum, or what stands for it, of two values.
    fn plus(&self, l: &Value, r: &Value) -> (x: Value)
        requires
            self.works(),
        ensures
            x@ == binary_of(self.host(), BinaryOp::Plus, l@, r@),
    {
        match (l, r) {
            (Value::Str(s), _) => Value::Str(cat2(s.as_str(), self.to_text(r).as_str())),
            (_, Value::Str(s)) => Value::Str(cat2(self.to_text(l).as_str(), s.as_str())),
            (Value::List(x), Value::List(y)) => {
                proof {
                    list_view(*x);
                    list_view(*y);
                }
                list(concat_lists(copy_list(x.as_slice()), copy_list(y.as_slice())))
            },
            _ => Value::Num(self.calc(NumOp::Add, self.num(l), self.num(r))),
        }
    }

    /// Whether `l` is in `r`.
    fn within(&self, l: &Value, r: &Value) -> (x: bool)
        requires
            self.works(),
        ensures
            Val::Bool(x) == binary_of(self.host(), BinaryOp::In, l@, r@),
    {
        match r {
            Value::Str(s) => contains_text(s.as_str(), self.to_text(l).as_str()),
            Value::Object(m) => {
                proof {
                    map_view(*m);
                }
                find_key(m, self.to_text(l).as_str()).is_some()
            },
            _ => contains_value(&r.iterate(), l),
        }
    }

    /// The result of an operator on two values.
    pub fn binary(&self, op: BinaryOp, l: &Value, r: &Value) -> (x: Value)
        requires
            self.works(),
        ensures
            x@ == binary_of(self.host(), op, l@, r@),
    {
        match op {
            BinaryOp::Plus => self.plus(l, r),
            BinaryOp::Concat => Value::Str(
                cat2(self.to_text(l).as_str(), self.to_text(r).as_str()),
            ),
            BinaryOp::Minus => Value::Num(self.calc(NumOp::Sub, self.num(l), self.num(r))),
            BinaryOp::Times => Value::Num(self.calc(NumOp::Mul, self.num(l), self.num(r))),
            BinaryOp::Div => Value::Num(self.calc(NumOp::Div, self.num(l), self.num(r))),
            BinaryOp::FloorDiv => Value::Num(
                self.calc(NumOp::FloorDiv, self.num(l), self.num(r)),
            ),
            BinaryOp::Rem => Value::Num(self.calc(NumOp::Rem, self.num(l), self.num(r))),
            BinaryOp::Eq => Value::Bool(l.equals(r)),
            BinaryOp::Ne => Value::Bool(!l.equals(r)),
            BinaryOp::Lt => Value::Bool(lt_bits(self.num(l), self.num(r))),
            BinaryOp::Gt => Value::Bool(lt_bits(self.num(r), self.num(l))),
            BinaryOp::Le => Value::Bool(le_bits(self.num(l), self.num(r))),
            BinaryOp::Ge => Value::Bool(le_bits(self.num(r), self.num(l))),
            BinaryOp::In => Value::Bool(self.within(l, r)),
            BinaryOp::And => Value::Null,
            BinaryOp::Or => Value::Null,
        }
    }

    /// The bound at `i`, where one is given.
    fn given(&self, args: &Vec<Value>, i: usize) -> (r: Option<i64>)
        requires
            self.works(),
        ensures
            bound(self.host(), vals(args@), i as int) == match r {
                Some(x) => Some(x as int),
                None => None::<int>,
            },
    {
        if i < args.len() {
            match &args[i] {
                Value::Null => None,
                _ => Some(self.to_int(self.num(&args[i]))),
            }
        } else {
            None
        }
    }

    /// What a slice picks from a list.
    fn pick(&self, a: &Vec<Value>, args: &Vec<Value>) -> (r: Vec<Value>)
        requires
            self.works(),
        ensures
            vals(r@) == picked(self.host(), vals(a@), vals(args@)),
    {
        let ghost h = self.host();
        let ghost s = vals(a@);
        let len: i128 = a.len() as i128;
        let step: i128 = match self.given(args, 2) {
            Some(s) => s as i128,
            None => 1,
        };
        let mut out: Vec<Value> = Vec::new();
        assert(vals(out@) =~= Seq::<Val>::empty());
        if step == 0 || len == 0 {
            return out;
        }
        if step > 0 {
            let start: i128 = normal_bound(self.given(args, 0), a.len(), 0, len, 0);
            let end: i128 = normal_bound(self.given(args, 1), a.len(), 0, len, len);
            let ghost all = upward(s, start as int, end as int, step as int);
            assert(Seq::<Val>::empty() + all =~= all);
            let mut i: i128 = start;
            while i < end
                invariant
                    s == vals(a@),
                    0 <= i,
                    end <= a@.len() <= usize::MAX,
                    0 < step <= i64::MAX,
                    all == vals(out@) + upward(s, i as int, end as int, step as int),
                decreases
                        if end > i {
                            end - i
                        } else {
                            0
                        },
            {
                let ghost before = vals(out@);
                let c = a[i as usize].copy();
                out.push(c);
                assert(vals(out@) =~= before.push(s[i as int]));
                assert(before + (seq![s[i as int]] + upward(
                    s,
                    i + step,
                    end as int,
                    step as int,
                )) =~= vals(out@) + upward(s, i + step, end as int, step as int));
                i = i + step;
            }
            assert(vals(out@) + Seq::<Val>::empty() =~= vals(out@));
        } else {
            let start: i128 = normal_bound(self.given(args, 0), a.len(), -1, len - 1, len - 1);
            let end: i128 = normal_bound(self.given(args, 1), a.len(), -1, len - 1, -1);
            let ghost all = downward(s, start as int, end as int, step as int);
            assert(Seq::<Val>::empty() + all =~= all);
            let mut i: i128 = start;
            while i > end
                invariant
                    s == vals(a@),
                    -1 <= end,
                    i < a@.len() <= usize::MAX,
                    i64::MIN <= step < 0,
                    all == vals(out@) + downward(s, i as int, end as int, step as int),
                decreases
                        if i > end {
                            i - end
                        } else {
                            0
                        },
            {
                let ghost before = vals(out@);
                let c = a[i as usize].copy();
                out.push(c);
                assert(vals(out@) =~= before.push(s[i as int]));
                assert(before + (seq![s[i as int]] + downward(
                    s,
                    i + step,
                    end as int,
                    step as int,
                )) =~= vals(out@) + downward(s, i + step, end as int, step as int));
                i = i + step;
            }
            assert(vals(out@) + Seq::<Val>::empty() =~= vals(out@));
        }
        out
    }

    /// The texts of values.
    fn text_list(&self, a: &Vec<Value>) -> (r: Vec<String>)
        requires
            self.works(),
        ensures
            texts(r@) == text_all(self.host(), vals(a@)),
    {
        let ghost want = text_all(self.host(), vals(a@));
        let mut out: Vec<String> = Vec::new();
        let mut i: usize = 0;
        while i < a.len()
            invariant
                self.works(),
                i <= a@.len(),
                want == text_all(self.host(), vals(a@)),
                texts(out@) =~= want.take(i as int),
            decreases a@.len() - i,
        {
            let ghost before = texts(out@);
            let t = self.to_text(&a[i]);
            out.push(t);
            i = i + 1;
            assert(texts(out@) =~= before.push(want[i - 1]));
        }
        assert(want.take(i as int) =~= want);
        out
    }

    pub fn slice(&self, v: &Value, args: &Vec<Value>) -> (r: Value)
        requires
            self.works(),
        ensures
            r@ == slice_of(self.host(), v@, vals(args@)),
    {
        match v {
            Value::List(a) => {
                proof {
                    list_view(*a);
                }
                list(self.pick(a, args))
            },
            Value::Str(_) => {
                let some = self.pick(&v.iterate(), args);
                let t = self.text_list(&some);
                let none = String::new();
                assert(none@ =~= Seq::<char>::empty());
                Value::Str(join_text(t.as_slice(), none.as_str()))
            },
            _ => Value::Null,
        }
    }

    /// The text of an argument; empty where it is missing.
    fn arg(&self, args: &Vec<Value>, i: usize) -> (r: String)
        requires
            self.works(),
        ensures
            r@ == arg_text(self.host(), vals(args@), i as int),
    {
        if i < args.len() {
            self.to_text(&args[i])
        } else {
            self.to_text(&Value::Null)
        }
    }

    fn length(&self, v: &Value) -> (r: Value)
        requires
            self.works(),
        ensures
            r@ == length_of(self.host(), v@),
    {
        match v {
            Value::List(a) => {
                proof {
                    list_view(*a);
                }
                Value::Num(self.from_len(a.len()))
            },
            Value::Object(m) => {
                proof {
                    map_view(*m);
                }
                Value::Num(self.from_len(m.len()))
            },
            Value::Str(s) => Value::Num(self.from_len(chars_of(s.as_str()).len())),
            _ => Value::Num(0),
        }
    }

    /// The attributes `key` of values.
    fn attr_list(&self, a: &Vec<Value>, key: &str) -> (r: Vec<Value>)
        requires
            self.works(),
        ensures
            vals(r@) == attrs(self.host(), vals(a@), key@),
    {
        let ghost want = attrs(self.host(), vals(a@), key@);
        let mut out: Vec<Value> = Vec::new();
        let mut i: usize = 0;
        while i < a.len()
            invariant
                self.works(),
                i <= a@.len(),
                want == attrs(self.host(), vals(a@), key@),
                vals(out@) =~= want.take(i as int),
            decreases a@.len() - i,
        {
            let ghost before = vals(out@);
            let t = self.attr(&a[i], key);
            out.push(t);
            i = i + 1;
            assert(vals(out@) =~= before.push(want[i - 1]));
        }
        assert(want.take(i as int) =~= want);
        out
    }

    /// The values whose attribute `key` is true as `want` says.
    fn choose_by(&self, a: &Vec<Value>, key: &str, want: bool) -> (r: Vec<Value>)
        requires
            self.works(),
        ensures
            vals(r@) == chosen(self.host(), vals(a@), key@, want, a@.len()),
    {
        let mut out: Vec<Value> = Vec::new();
        let mut i: usize = 0;
        assert(vals(out@) =~= Seq::<Val>::empty());
        while i < a.len()
            invariant
                self.works(),
                i <= a@.len(),
                vals(out@) == chosen(self.host(), vals(a@), key@, want, i as nat),
            decreases a@.len() - i,
        {
            let ghost before = vals(out@);
            if self.attr(&a[i], key).truthy() == want {
                let c = a[i].copy();
                out.push(c);
                assert(vals(out@) =~= before.push(a@[i as int]@));
            }
            i = i + 1;
        }
        out
    }

    /// The result of a filter.
    pub fn filter(&self, name: &str, v: &Value, args: &Vec<Value>) -> (r: Result<Value, String>)
        requires
            self.works(),
        ensures
            match filter_of(self.host(), name@, v@, vals(args@)) {
                Ok(x) => r is Ok && r->Ok_0@ == x,
                Err(e) => r is Err && r->Err_0@ == e,
            },
    {
        if same(name, "__slice") {
            Ok(self.slice(v, args))
        } else if same(name, "trim") || same(name, "strip") {
            Ok(Value::Str(trim(self.to_text(v).as_str())))
        } else if same(name, "length") || same(name, "count") {
            Ok(self.length(v))
        } else if same(name, "default") || same(name, "d") {
            let missing = if nth_or_null(args.as_slice(), 1).truthy() {
                !v.truthy()
            } else {
                match v {
                    Value::Null => true,
                    _ => false,
                }
            };
            if missing {
                Ok(nth_or_null(args.as_slice(), 0))
            } else {
                Ok(v.copy())
            }
        } else if same(name, "tojson") || same(name, "to_json") {
            Ok(Value::Str(self.to_json(v)))
        } else if same(name, "join") {
            let t = self.text_list(&v.iterate());
            Ok(Value::Str(join_text(t.as_slice(), self.arg(args, 0).as_str())))
        } else if same(name, "first") {
            Ok(nth_or_null(v.iterate().as_slice(), 0))
        } else if same(name, "last") {
            let items = v.iterate();
            if items.len() == 0 {
                Ok(Value::Null)
            } else {
                Ok(nth_or_null(items.as_slice(), items.len() - 1))
            }
        } else {
            self.filter_text(name, v, args)
        }
    }

    /// The filters that mostly concern text.
    fn filter_text(&self, name: &str, v: &Value, args: &Vec<Value>) -> (r: Result<Value, String>)
        requires
            self.works(),
            name@ != "__slice"@,
            name@ != "trim"@,
            name@ != "strip"@,
            name@ != "length"@,
            name@ != "count"@,
            name@ != "default"@,
            name@ != "d"@,
            name@ != "tojson"@,
            name@ != "to_json"@,
            name@ != "join"@,
            name@ != "first"@,
            name@ != "last"@,
        ensures
            match filter_of(self.host(), name@, v@, vals(args@)) {
                Ok(x) => r is Ok && r->Ok_0@ == x,
                Err(e) => r is Err && r->Err_0@ == e,
            },
    {
        if same(name, "upper") {
            Ok(Value::Str(self.to_text(v).as_str().to_uppercase()))
        } else if same(name, "lower") {
            Ok(Value::Str(self.to_text(v).as_str().to_lowercase()))
        } else if same(name, "capitalize") {
            Ok(Value::Str(capital_text(self.to_text(v).as_str(), true)))
        } else if same(name, "title") {
            Ok(Value::Str(title_text(self.to_text(v).as_str())))
        } else if same(name, "list") {
            Ok(list(v.iterate()))
        } else if same(name, "reverse") {
            Ok(list(reversed(&v.iterate())))
        } else if same(name, "string") || same(name, "str") || same(name, "safe") || same(name, "e")
            || same(name, "escape") || same(name, "forceescape") {
            Ok(Value::Str(self.to_text(v)))
        } else if same(name, "int") {
            Ok(Value::Num(self.calc(NumOp::Trunc, self.num(v), 0)))
        } else if same(name, "float") {
            Ok(Value::Num(self.num(v)))
        } else if same(name, "abs") {
            Ok(Value::Num(abs_bits(self.num(v))))
        } else if same(name, "replace") {
            Ok(
                Value::Str(
                    replace_text(
                        self.to_text(v).as_str(),
                        self.arg(args, 0).as_str(),
                        self.arg(args, 1).as_str(),
                    ),
                ),
            )
        } else if same(name, "items") || same(name, "dictsort") {
            Ok(list(v.iterate()))
        } else if same(name, "indent") {
            Ok(v.copy())
        } else if same(name, "map") || same(name, "attr") {
            Ok(list(self.attr_list(&v.iterate(), self.arg(args, 0).as_str())))
        } else if same(name, "selectattr") || same(name, "rejectattr") {
            let want = same(name, "selectattr");
            Ok(list(self.choose_by(&v.iterate(), self.arg(args, 0).as_str(), want)))
        } else {
            Err(cat3("unsupported filter `", name, "`"))
        }
    }

    /// The result of a method.
    pub fn call_method(&self, recv: &Value, name: &str, args: &Vec<Value>) -> (r: Result<
        Value,
        String,
    >)
        requires
            self.works(),
        ensures
            match method_of(self.host(), recv@, name@, vals(args@)) {
                Ok(x) => r is Ok && r->Ok_0@ == x,
                Err(e) => r is Err && r->Err_0@ == e,
            },
    {
        let text = self.to_text(recv);
        if same(name, "strip") {
            Ok(Value::Str(trim(text.as_str())))
        } else if same(name, "lstrip") {
            let c = chars_of(text.as_str());
            let i = trim_start(c.as_slice());
            let t = string_of_range(c.as_slice(), i, c.len());
            assert(t@ =~= trimmed_start(text@));
            Ok(Value::Str(t))
        } else if same(name, "rstrip") {
            let c = chars_of(text.as_str());
            assert(c@.skip(0) =~= c@);
            let j = trim_end_from(c.as_slice(), 0);
            let t = string_of_range(c.as_slice(), 0, j);
            assert(t@ =~= trimmed_end(text@));
            Ok(Value::Str(t))
        } else if same(name, "upper") {
            Ok(Value::Str(text.as_str().to_uppercase()))
        } else if same(name, "lower") {
            Ok(Value::Str(text.as_str().to_lowercase()))
        } else if same(name, "split") {
            let parts = if args.len() > 0 {
                split_text(text.as_str(), self.to_text(&args[0]).as_str())
            } else {
                split_words(text.as_str())
            };
            Ok(list(string_values(&parts)))
        } else if same(name, "startswith") {
            Ok(Value::Bool(has_prefix(text.as_str(), self.arg(args, 0).as_str())))
        } else if same(name, "endswith") {
            Ok(Value::Bool(has_suffix(text.as_str(), self.arg(args, 0).as_str())))
        } else if same(name, "replace") {
            self.filter(name, recv, args)
        } else if same(name, "join") {
            let t = self.text_list(&nth_or_null(args.as_slice(), 0).iterate());
            Ok(Value::Str(join_text(t.as_slice(), text.as_str())))
        } else {
            self.call_collection(recv, name, args)
        }
    }

    /// The methods of lists and maps.
    fn call_collection(&self, recv: &Value, name: &str, args: &Vec<Value>) -> (r: Result<
        Value,
        String,
    >)
        requires
            self.works(),
            name@ != "strip"@,
            name@ != "lstrip"@,
            name@ != "rstrip"@,
            name@ != "upper"@,
            name@ != "lower"@,
            name@ != "split"@,
            name@ != "startswith"@,
            name@ != "endswith"@,
            name@ != "replace"@,
            name@ != "join"@,
        ensures
            match method_of(self.host(), recv@, name@, vals(args@)) {
                Ok(x) => r is Ok && r->Ok_0@ == x,
                Err(e) => r is Err && r->Err_0@ == e,
            },
    {
        if same(name, "items") {
            return Ok(list(recv.iterate()));
        }
        if same(name, "keys") || same(name, "values") {
            let keys = same(name, "keys");
            let mut out: Vec<Value> = Vec::new();
            assert(vals(out@) =~= Seq::<Val>::empty());
            match recv {
                Value::Object(m) => {
                    proof {
                        map_view(*m);
                    }
                    let ghost want = if keys {
                        Seq::new(m@.len(), |i: int| Val::Str(entries(m@)[i].0))
                    } else {
                        Seq::new(m@.len(), |i: int| entries(m@)[i].1)
                    };
                    let mut i: usize = 0;
                    while i < m.len()
                        invariant
                            i <= m@.len(),
                            want == if keys {
                                Seq::new(m@.len(), |i: int| Val::Str(entries(m@)[i].0))
                            } else {
                                Seq::new(m@.len(), |i: int| entries(m@)[i].1)
                            },
                            vals(out@) =~= want.take(i as int),
                        decreases m@.len() - i,
                    {
                        let ghost before = vals(out@);
                        let v = if keys {
                            Value::string(m[i].key.as_str())
                        } else {
                            m[i].value.copy()
                        };
                        out.push(v);
                        i = i + 1;
                        assert(vals(out@) =~= before.push(want[i - 1]));
                    }
                    assert(want.take(i as int) =~= want);
                },
                _ => {},
            }
            return Ok(list(out));
        }
        if same(name, "get") {
            return match recv {
                Value::Object(m) => {
                    proof {
                        map_view(*m);
                    }
                    match find_key(m, self.arg(args, 0).as_str()) {
                        Some(i) => Ok(m[i].value.copy()),
                        None => Ok(nth_or_null(args.as_slice(), 1)),
                    }
                },
                _ => Ok(Value::Null),
            };
        }
        if same(name, "append") || same(name, "add") {
            let mut items = recv.iterate();
            let ghost before = vals(items@);
            let v = nth_or_null(args.as_slice(), 0);
            items.push(v);
            assert(vals(items@) =~= before.push(v@));
            return Ok(list(items));
        }
        if same(name, "extend") {
            let more = nth_or_null(args.as_slice(), 0).iterate();
            return Ok(list(concat_lists(recv.iterate(), more)));
        }
        Err(cat3("unsupported method `.", name, "()`"))
    }

    /// The numbers from `start` up to `end`.
    fn count_up(&self, start: u64, end: u64, step: u64) -> (r: Vec<Value>)
        requires
            self.works(),
        ensures
            vals(r@) == range_from(self.host(), start, end, step, u64::MAX as nat),
    {
        let ghost h = self.host();
        let ghost all = range_from(h, start, end, step, u64::MAX as nat);
        let mut out: Vec<Value> = Vec::new();
        assert(vals(out@) + all =~= all);
        let mut v: u64 = start;
        let mut left: u64 = u64::MAX;
        while left > 0 && lt_bits(v, end)
            invariant
                self.works(),
                h == self.host(),
                all == vals(out@) + range_from(h, v, end, step, left as nat),
            decreases left,
        {
            let ghost before = vals(out@);
            out.push(Value::Num(v));
            assert(vals(out@) =~= before.push(Val::Num(v)));
            let next = self.calc(NumOp::Add, v, step);
            left = left - 1;
            assert(before + (seq![Val::Num(v)] + range_from(h, next, end, step, left as nat))
                =~= vals(out@) + range_from(h, next, end, step, left as nat));
            v = next;
        }
        assert(vals(out@) + Seq::<Val>::empty() =~= vals(out@));
        out
    }

    /// The result of a function other than `namespace`.
    pub fn call_function(&self, name: &str, args: &Vec<Value>) -> (r: Result<Value, String>)
        requires
            self.works(),
        ensures
            match global_of(self.host(), name@, vals(args@)) {
                Ok(x) => r is Ok && r->Ok_0@ == x,
                Err(e) => r is Err && r->Err_0@ == e,
            },
    {
        if same(name, "raise_exception") {
            if args.len() > 0 {
                Err(self.to_text(&args[0]))
            } else {
                Err(own("template raised"))
            }
        } else if same(name, "range") {
            let items = if args.len() == 0 {
                Vec::new()
            } else if args.len() == 1 {
                self.count_up(0, self.num(&args[0]), ONE_BITS)
            } else if args.len() == 2 {
                self.count_up(self.num(&args[0]), self.num(&args[1]), ONE_BITS)
            } else {
                let x = self.num(&args[2]);
                let step = if lt_bits(ONE_BITS, x) {
                    x
                } else {
                    ONE_BITS
                };
                self.count_up(self.num(&args[0]), self.num(&args[1]), step)
            };
            assert(args@.len() == 0 ==> vals(items@) =~= Seq::<Val>::empty());
            Ok(list(items))
        } else if same(name, "length") || same(name, "len") {
            Ok(self.length(&nth_or_null(args.as_slice(), 0)))
        } else if same(name, "string") || same(name, "str") {
            Ok(Value::Str(self.arg(args, 0)))
        } else if same(name, "strftime_now") {
            let none = String::new();
            assert(none@ =~= Seq::<char>::empty());
            Ok(Value::Str(none))
        } else {
            Err(cat3("unsupported function `", name, "()`"))
        }
    }
}

/// The answer of a test on `v`.
pub fn answer(name: &str, v: &Value, defined: bool, a: &Option<Value>) -> (r: Result<bool, String>)
    ensures
        match test_of(
            name@,
            v@,
            defined,
            match *a {
                Some(x) => Some(x@),
                None => None,
            },
        ) {
            Ok(x) => r is Ok && r->Ok_0 == x,
            Err(e) => r is Err && r->Err_0@ == e,
        },
{
    if same(name, "defined") {
        Ok(defined)
    } else if same(name, "undefined") {
        Ok(!defined)
    } else if same(name, "none") || same(name, "null") {
        Ok(matches!(v, Value::Null))
    } else if same(name, "string") {
        Ok(matches!(v, Value::Str(_)))
    } else if same(name, "number") || same(name, "integer") || same(name, "float") {
        Ok(matches!(v, Value::Num(_)))
    } else if same(name, "boolean") {
        Ok(matches!(v, Value::Bool(_)))
    } else if same(name, "mapping") {
        Ok(matches!(v, Value::Object(_)))
    } else if same(name, "sequence") || same(name, "iterable") {
        Ok(matches!(v, Value::List(_) | Value::Str(_) | Value::Object(_)))
    } else if same(name, "true") {
        Ok(matches!(v, Value::Bool(true)))
    } else if same(name, "false") {
        Ok(matches!(v, Value::Bool(false)))
    } else if same(name, "equalto") || same(name, "eq") || same(name, "sameas") {
        match a {
            Some(x) => Ok(v.equals(x)),
            None => Ok(false),
        }
    } else if same(name, "in") {
        match a {
            Some(x) => Ok(contains_value(&x.iterate(), v)),
            None => Ok(false),
        }
    } else {
        Err(cat3("unsupported test `is ", name, "`"))
    }
}

} // verus!
