//! What templates may rely on: how operators, filters and methods relate to each other and to the
//! values they are given.

use vstd::prelude::*;

use super::eval::ev;
use super::number::{Host, NumOp, INF_BITS, SIGN_BIT};
use super::ops::{
    attr_of, binary_of, chosen, downward, filter_of, holds, index_of_value, method_of, picked,
    range_from, slice_of, test_of, unary_of, upward,
};
use super::parse::{BinaryOp, Ex, UnaryOp};
use super::scope::Frames;
use super::value::{iterated, lists_same, maps_same, nth, text_of, Val};
use crate::dict::key_from_is_first;
use crate::text::{
    index_from_is_first, is_white, joined, split_on, trimmed, trimmed_end, trimmed_start,
};

verus! {

// ------------------------------------------------------------------------------- equality

/// `l != r` answers the opposite of `l == r`, for any two values.
pub proof fn unequal_is_not_equal(h: Host, l: Val, r: Val, b: bool)
    ensures
        (binary_of(h, BinaryOp::Eq, l, r) == Val::Bool(b)) == (binary_of(h, BinaryOp::Ne, l, r)
            == Val::Bool(!b)),
        binary_of(h, BinaryOp::Eq, l, r) is Bool,
        binary_of(h, BinaryOp::Ne, l, r) is Bool,
{
}

/// Texts are equal just where their characters are, booleans where they are, and nothing is equal
/// to nothing.
pub proof fn texts_are_equal_by_their_characters(h: Host, a: Seq<char>, b: Seq<char>, x: bool, y: bool)
    ensures
        binary_of(h, BinaryOp::Eq, Val::Str(a), Val::Str(b)) == Val::Bool(a == b),
        binary_of(h, BinaryOp::Eq, Val::Bool(x), Val::Bool(y)) == Val::Bool(x == y),
        binary_of(h, BinaryOp::Eq, Val::Null, Val::Null) == Val::Bool(true),
{
}

/// Numbers below infinity are equal just where neither is less.
pub proof fn numbers_are_equal_where_neither_is_less(h: Host, a: u64, b: u64)
    requires
        a <= INF_BITS || SIGN_BIT <= a <= SIGN_BIT + INF_BITS,
        b <= INF_BITS || SIGN_BIT <= b <= SIGN_BIT + INF_BITS,
    ensures
        (binary_of(h, BinaryOp::Eq, Val::Num(a), Val::Num(b)) == Val::Bool(true)) == (binary_of(
            h,
            BinaryOp::Lt,
            Val::Num(a),
            Val::Num(b),
        ) == Val::Bool(false) && binary_of(h, BinaryOp::Lt, Val::Num(b), Val::Num(a)) == Val::Bool(
            false,
        )),
{
}

/// Values of two kinds are never equal.
pub proof fn kinds_are_never_equal(h: Host, l: Val, r: Val)
    requires
        l is Null != r is Null || l is Bool != r is Bool || l is Num != r is Num || l is Str
            != r is Str || l is List != r is List || l is Object != r is Object,
    ensures
        binary_of(h, BinaryOp::Eq, l, r) == Val::Bool(false),
{
}

/// Lists are equal just where they are as long, and their values are equal one by one; so are
/// mappings, with their keys.
pub proof fn lists_are_equal_value_by_value(
    h: Host,
    a: Seq<Val>,
    b: Seq<Val>,
    m: Seq<(Seq<char>, Val)>,
    n: Seq<(Seq<char>, Val)>,
)
    ensures
        binary_of(h, BinaryOp::Eq, Val::List(a), Val::List(b)) == Val::Bool(
            a.len() == b.len() && forall|i: int|
                0 <= i < a.len() ==> #[trigger] binary_of(h, BinaryOp::Eq, a[i], b[i]) == Val::Bool(
                    true,
                ),
        ),
        binary_of(h, BinaryOp::Eq, Val::Object(m), Val::Object(n)) == Val::Bool(
            m.len() == n.len() && forall|i: int|
                0 <= i < m.len() ==> m[i].0 == n[i].0 && #[trigger] binary_of(
                    h,
                    BinaryOp::Eq,
                    m[i].1,
                    n[i].1,
                ) == Val::Bool(true),
        ),
{
    lists_same_all(h, a, b, a.len());
    maps_same_all(h, m, n, m.len());
}

proof fn lists_same_all(h: Host, a: Seq<Val>, b: Seq<Val>, n: nat)
    requires
        n <= a.len(),
    ensures
        lists_same(a, b, n) == forall|i: int|
            0 <= i < n ==> #[trigger] binary_of(h, BinaryOp::Eq, a[i], b[i]) == Val::Bool(true),
    decreases n,
{
    if n > 0 {
        lists_same_all(h, a, b, (n - 1) as nat);
        let last = binary_of(h, BinaryOp::Eq, a[n - 1], b[n - 1]);
        assert((last == Val::Bool(true)) == a[n - 1].same(b[n - 1]));
    }
}

proof fn maps_same_all(h: Host, a: Seq<(Seq<char>, Val)>, b: Seq<(Seq<char>, Val)>, n: nat)
    requires
        n <= a.len(),
    ensures
        maps_same(a, b, n) == forall|i: int|
            0 <= i < n ==> a[i].0 == b[i].0 && #[trigger] binary_of(
                h,
                BinaryOp::Eq,
                a[i].1,
                b[i].1,
            ) == Val::Bool(true),
    decreases n,
{
    if n > 0 {
        maps_same_all(h, a, b, (n - 1) as nat);
        let last = binary_of(h, BinaryOp::Eq, a[n - 1].1, b[n - 1].1);
        assert((last == Val::Bool(true)) == a[n - 1].1.same(b[n - 1].1));
    }
}

// ---------------------------------------------------------------------------------- order

/// `<` and `>` mirror each other, and so do `<=` and `>=`.
pub proof fn comparisons_mirror(h: Host, l: Val, r: Val)
    ensures
        binary_of(h, BinaryOp::Lt, l, r) == binary_of(h, BinaryOp::Gt, r, l),
        binary_of(h, BinaryOp::Le, l, r) == binary_of(h, BinaryOp::Ge, r, l),
        binary_of(h, BinaryOp::Lt, l, r) == Val::Bool(true) ==> binary_of(h, BinaryOp::Le, l, r)
            == Val::Bool(true) && binary_of(h, BinaryOp::Lt, r, l) == Val::Bool(false),
{
}

/// Of two numbers, the one is less or the other at most as large; positive ones are ordered as
/// their bits are, and every negative one lies below them.
pub proof fn numbers_are_ordered(h: Host, a: u64, b: u64)
    requires
        a <= INF_BITS || SIGN_BIT <= a <= SIGN_BIT + INF_BITS,
        b <= INF_BITS || SIGN_BIT <= b <= SIGN_BIT + INF_BITS,
    ensures
        (binary_of(h, BinaryOp::Lt, Val::Num(a), Val::Num(b)) == Val::Bool(true)) == (binary_of(
            h,
            BinaryOp::Ge,
            Val::Num(a),
            Val::Num(b),
        ) == Val::Bool(false)),
        a <= INF_BITS && b <= INF_BITS ==> binary_of(h, BinaryOp::Lt, Val::Num(a), Val::Num(b))
            == Val::Bool(a < b),
        a > SIGN_BIT && b <= INF_BITS ==> binary_of(h, BinaryOp::Lt, Val::Num(a), Val::Num(b))
            == Val::Bool(true),
        a > SIGN_BIT && b > SIGN_BIT ==> binary_of(h, BinaryOp::Lt, Val::Num(a), Val::Num(b))
            == Val::Bool(b < a),
        binary_of(h, BinaryOp::Le, Val::Num(a), Val::Num(a)) == Val::Bool(true),
{
}

// ----------------------------------------------------------------------------- arithmetic

/// What was added can be taken off again, and what was multiplied divided, where the arithmetic
/// loses nothing; a quotient and a remainder make up the number.
pub proof fn arithmetic_undoes_itself(h: Host, a: u64, b: u64)
    ensures
        (h.arith)(NumOp::Sub, (h.arith)(NumOp::Add, a, b), b) == a ==> binary_of(
            h,
            BinaryOp::Minus,
            binary_of(h, BinaryOp::Plus, Val::Num(a), Val::Num(b)),
            Val::Num(b),
        ) == Val::Num(a),
        (h.arith)(NumOp::Div, (h.arith)(NumOp::Mul, a, b), b) == a ==> binary_of(
            h,
            BinaryOp::Div,
            binary_of(h, BinaryOp::Times, Val::Num(a), Val::Num(b)),
            Val::Num(b),
        ) == Val::Num(a),
        (h.arith)(
            NumOp::Add,
            (h.arith)(NumOp::Mul, (h.arith)(NumOp::FloorDiv, a, b), b),
            (h.arith)(NumOp::Rem, a, b),
        ) == a ==> binary_of(
            h,
            BinaryOp::Plus,
            binary_of(
                h,
                BinaryOp::Times,
                binary_of(h, BinaryOp::FloorDiv, Val::Num(a), Val::Num(b)),
                Val::Num(b),
            ),
            binary_of(h, BinaryOp::Rem, Val::Num(a), Val::Num(b)),
        ) == Val::Num(a),
{
}

/// A number negated twice is the number, and a number and its negation differ in their sign alone.
pub proof fn negation_undoes_itself(h: Host, a: u64)
    ensures
        unary_of(h, UnaryOp::Neg, unary_of(h, UnaryOp::Neg, Val::Num(a))) == Val::Num(a),
        unary_of(h, UnaryOp::Neg, Val::Num(a)) != Val::Num(a),
        0 < a <= INF_BITS ==> binary_of(
            h,
            BinaryOp::Lt,
            unary_of(h, UnaryOp::Neg, Val::Num(a)),
            Val::Num(0),
        ) == Val::Bool(true),
{
}

/// Texts are joined end to end, and so are lists; what meets a text becomes one.
pub proof fn plus_joins(h: Host, a: Seq<char>, b: Seq<char>, x: Seq<Val>, y: Seq<Val>, v: Val)
    ensures
        binary_of(h, BinaryOp::Plus, Val::Str(a), Val::Str(b)) == Val::Str(a + b),
        binary_of(h, BinaryOp::Plus, Val::List(x), Val::List(y)) == Val::List(x + y),
        binary_of(h, BinaryOp::Plus, Val::Str(a), v) == binary_of(
            h,
            BinaryOp::Concat,
            Val::Str(a),
            v,
        ),
        binary_of(h, BinaryOp::Plus, v, Val::Str(b)) == binary_of(
            h,
            BinaryOp::Concat,
            v,
            Val::Str(b),
        ),
        binary_of(h, BinaryOp::Concat, Val::Str(a), Val::Str(b)) == Val::Str(a + b),
        binary_of(h, BinaryOp::Concat, Val::Null, v) == binary_of(
            h,
            BinaryOp::Concat,
            v,
            Val::Null,
        ),
{
    assert(Seq::<char>::empty() + text_of(h, v) =~= text_of(h, v) + Seq::<char>::empty());
}

// ------------------------------------------------------------------------------- truth

/// `not` answers false just for what is there: anything but nothing, falsehood, zero, and what is
/// empty.
pub proof fn not_tells_what_is_there(h: Host, v: Val)
    ensures
        unary_of(h, UnaryOp::Not, v) == Val::Bool(
            match v {
                Val::Null => true,
                Val::Bool(b) => !b,
                Val::Num(n) => n == 0 || n == SIGN_BIT,
                Val::Str(s) => s =~= Seq::empty(),
                Val::List(a) => a =~= Seq::empty(),
                Val::Object(m) => m =~= Seq::empty(),
            },
        ),
{
}

/// `and` gives its first operand where that is false, else the second; `or` the other way round.
/// The second is evaluated only where it is given.
pub proof fn and_or_give_an_operand(h: Host, l: Ex, r: Ex, s: Frames)
    requires
        ev(h, l, s) is Ok,
    ensures
        ({
            let (v, t) = ev(h, l, s)->Ok_0;
            let both = ev(h, Ex::Binary(BinaryOp::And, Box::new(l), Box::new(r)), s);
            let either = ev(h, Ex::Binary(BinaryOp::Or, Box::new(l), Box::new(r)), s);
            if unary_of(h, UnaryOp::Not, v) == Val::Bool(true) {
                both == ev(h, l, s) && either == ev(h, r, t)
            } else {
                both == ev(h, r, t) && either == ev(h, l, s)
            }
        }),
{
    reveal_with_fuel(ev, 2);
}

/// A condition picks its first branch just where it holds.
pub proof fn a_condition_picks_a_branch(h: Host, c: Ex, x: Ex, y: Ex, s: Frames)
    requires
        ev(h, c, s) is Ok,
    ensures
        ({
            let (v, t) = ev(h, c, s)->Ok_0;
            ev(h, Ex::Ternary(Box::new(c), Box::new(x), Box::new(y)), s) == if unary_of(
                h,
                UnaryOp::Not,
                v,
            ) == Val::Bool(false) {
                ev(h, x, t)
            } else {
                ev(h, y, t)
            }
        }),
{
    reveal_with_fuel(ev, 2);
}

/// A negated test answers the opposite, and `undefined` the opposite of `defined`.
pub proof fn tests_can_be_negated(h: Host, b: Ex, name: Seq<char>, s: Frames, r: bool)
    ensures
        ({
            let yes = ev(h, Ex::Test(Box::new(b), name, false, None), s);
            let no = ev(h, Ex::Test(Box::new(b), name, true, None), s);
            &&& yes is Ok == no is Ok
            &&& yes is Ok ==> (yes->Ok_0.0 == Val::Bool(r)) == (no->Ok_0.0 == Val::Bool(!r))
                && yes->Ok_0.1 == no->Ok_0.1
        }),
{
    reveal_with_fuel(ev, 2);
}

pub proof fn undefined_is_not_defined(v: Val, defined: bool, a: Option<Val>)
    ensures
        test_of("defined"@, v, defined, a) == Ok::<bool, Seq<char>>(defined),
        test_of("undefined"@, v, defined, a) == Ok::<bool, Seq<char>>(!defined),
{
    reveal_strlit("undefined");
    reveal_strlit("defined");
    assert("defined"@.len() != "undefined"@.len());
}

/// The test `eq` answers what `==` does.
pub proof fn the_test_eq_is_equality(h: Host, v: Val, x: Val, defined: bool, b: bool)
    ensures
        (test_of("eq"@, v, defined, Some(x)) == Ok::<bool, Seq<char>>(b)) == (binary_of(
            h,
            BinaryOp::Eq,
            v,
            x,
        ) == Val::Bool(b)),
{
    reveal_strlit("eq");
    reveal_strlit("defined");
    reveal_strlit("undefined");
    reveal_strlit("none");
    reveal_strlit("null");
    reveal_strlit("string");
    reveal_strlit("number");
    reveal_strlit("integer");
    reveal_strlit("float");
    reveal_strlit("boolean");
    reveal_strlit("mapping");
    reveal_strlit("sequence");
    reveal_strlit("iterable");
    reveal_strlit("true");
    reveal_strlit("false");
    reveal_strlit("equalto");
    assert("defined"@.len() != "eq"@.len());
    assert("undefined"@.len() != "eq"@.len());
    assert("none"@.len() != "eq"@.len());
    assert("null"@.len() != "eq"@.len());
    assert("string"@.len() != "eq"@.len());
    assert("number"@.len() != "eq"@.len());
    assert("integer"@.len() != "eq"@.len());
    assert("float"@.len() != "eq"@.len());
    assert("boolean"@.len() != "eq"@.len());
    assert("mapping"@.len() != "eq"@.len());
    assert("sequence"@.len() != "eq"@.len());
    assert("iterable"@.len() != "eq"@.len());
    assert("true"@.len() != "eq"@.len());
    assert("false"@.len() != "eq"@.len());
    assert("equalto"@.len() != "eq"@.len());
}

// ------------------------------------------------------------------------------ membership

/// A value is in a list just where the list holds one that is equal to it.
pub proof fn in_a_list_is_equal_to_one_of_it(h: Host, v: Val, a: Seq<Val>)
    ensures
        binary_of(h, BinaryOp::In, v, Val::List(a)) == Val::Bool(
            exists|i: int|
                0 <= i < a.len() && #[trigger] binary_of(h, BinaryOp::Eq, a[i], v) == Val::Bool(
                    true,
                ),
        ),
{
    holds_some(h, a, v, a.len());
}

proof fn holds_some(h: Host, a: Seq<Val>, v: Val, n: nat)
    requires
        n <= a.len(),
    ensures
        holds(a, v, n) == exists|i: int|
            0 <= i < n && #[trigger] binary_of(h, BinaryOp::Eq, a[i], v) == Val::Bool(true),
    decreases n,
{
    if n > 0 {
        holds_some(h, a, v, (n - 1) as nat);
        let last = binary_of(h, BinaryOp::Eq, a[n - 1], v);
        assert((last == Val::Bool(true)) == a[n - 1].same(v));
    }
}

/// A text is in another just where it stands somewhere in it; a key is in a mapping just where one
/// of its entries has it.
pub proof fn in_a_text_stands_somewhere(
    h: Host,
    a: Seq<char>,
    b: Seq<char>,
    m: Seq<(Seq<char>, Val)>,
)
    ensures
        binary_of(h, BinaryOp::In, Val::Str(a), Val::Str(b)) == Val::Bool(
            exists|i: int|
                0 <= i <= b.len() - a.len() && #[trigger] b.subrange(i, i + a.len()) == a,
        ),
        binary_of(h, BinaryOp::In, Val::Str(a), Val::Object(m)) == Val::Bool(
            exists|i: int| 0 <= i < m.len() && (#[trigger] m[i]).0 == a,
        ),
{
    index_from_is_first(b, a, 0);
    key_from_is_first(m, a, 0);
    if exists|i: int| 0 <= i <= b.len() - a.len() && #[trigger] b.subrange(i, i + a.len()) == a {
        let i = choose|i: int|
            0 <= i <= b.len() - a.len() && #[trigger] b.subrange(i, i + a.len()) == a;
        assert(crate::text::occurs_at(b, a, i));
    }
}

// -------------------------------------------------------------------------------- indexing

/// A list is indexed from its start by what is not negative, and from its end by what is; past
/// either end there is nothing, but before the start the first.
pub proof fn lists_are_indexed_from_both_ends(h: Host, a: Seq<Val>, n: u64)
    ensures
        ({
            let i = h.int_of(n) as int;
            let got = index_of_value(h, Val::List(a), Val::Num(n));
            &&& 0 <= i < a.len() ==> got == a[i]
            &&& i >= a.len() ==> got == Val::Null
            &&& -(a.len() as int) <= i < 0 ==> got == a[a.len() + i]
            &&& i < -(a.len() as int) && a.len() > 0 ==> got == a[0]
        }),
{
}

pub proof fn texts_are_indexed_from_both_ends(h: Host, s: Seq<char>, n: u64)
    ensures
        ({
            let i = h.int_of(n) as int;
            let got = index_of_value(h, Val::Str(s), Val::Num(n));
            &&& 0 <= i < s.len() ==> got == Val::Str(seq![s[i]])
            &&& i >= s.len() ==> got == Val::Null
            &&& -(s.len() as int) <= i < 0 ==> got == Val::Str(seq![s[s.len() + i]])
        }),
{
}

/// A mapping gives what is kept under a key, by index, by attribute and by `get` alike.
pub proof fn mappings_give_what_they_keep(
    h: Host,
    m: Seq<(Seq<char>, Val)>,
    k: Seq<char>,
    i: int,
    other: Val,
)
    requires
        0 <= i < m.len(),
        m[i].0 == k,
        forall|j: int| 0 <= j < m.len() && j != i ==> (#[trigger] m[j]).0 != k,
    ensures
        index_of_value(h, Val::Object(m), Val::Str(k)) == m[i].1,
        attr_of(h, Val::Object(m), k) == m[i].1,
        method_of(h, Val::Object(m), "get"@, seq![Val::Str(k), other]) == Ok::<Val, Seq<char>>(
            m[i].1,
        ),
{
    key_from_is_first(m, k, 0);
    reveal_strlit("get");
    reveal_strlit("strip");
    reveal_strlit("lstrip");
    reveal_strlit("rstrip");
    reveal_strlit("upper");
    reveal_strlit("lower");
    reveal_strlit("split");
    reveal_strlit("startswith");
    reveal_strlit("endswith");
    reveal_strlit("replace");
    reveal_strlit("join");
    reveal_strlit("items");
    reveal_strlit("keys");
    reveal_strlit("values");
    assert("strip"@.len() != "get"@.len());
    assert("lstrip"@.len() != "get"@.len());
    assert("rstrip"@.len() != "get"@.len());
    assert("upper"@.len() != "get"@.len());
    assert("lower"@.len() != "get"@.len());
    assert("split"@.len() != "get"@.len());
    assert("startswith"@.len() != "get"@.len());
    assert("endswith"@.len() != "get"@.len());
    assert("replace"@.len() != "get"@.len());
    assert("join"@.len() != "get"@.len());
    assert("items"@.len() != "get"@.len());
    assert("keys"@.len() != "get"@.len());
    assert("values"@.len() != "get"@.len());
}

pub proof fn mappings_lack_what_they_do_not_keep(
    h: Host,
    m: Seq<(Seq<char>, Val)>,
    k: Seq<char>,
    other: Val,
)
    requires
        forall|j: int| 0 <= j < m.len() ==> (#[trigger] m[j]).0 != k,
    ensures
        index_of_value(h, Val::Object(m), Val::Str(k)) == Val::Null,
        attr_of(h, Val::Object(m), k) == Val::Null,
        method_of(h, Val::Object(m), "get"@, seq![Val::Str(k), other]) == Ok::<Val, Seq<char>>(
            other,
        ),
{
    key_from_is_first(m, k, 0);
    reveal_strlit("get");
    reveal_strlit("strip");
    reveal_strlit("lstrip");
    reveal_strlit("rstrip");
    reveal_strlit("upper");
    reveal_strlit("lower");
    reveal_strlit("split");
    reveal_strlit("startswith");
    reveal_strlit("endswith");
    reveal_strlit("replace");
    reveal_strlit("join");
    reveal_strlit("items");
    reveal_strlit("keys");
    reveal_strlit("values");
    assert("strip"@.len() != "get"@.len());
    assert("lstrip"@.len() != "get"@.len());
    assert("rstrip"@.len() != "get"@.len());
    assert("upper"@.len() != "get"@.len());
    assert("lower"@.len() != "get"@.len());
    assert("split"@.len() != "get"@.len());
    assert("startswith"@.len() != "get"@.len());
    assert("endswith"@.len() != "get"@.len());
    assert("replace"@.len() != "get"@.len());
    assert("join"@.len() != "get"@.len());
    assert("items"@.len() != "get"@.len());
    assert("keys"@.len() != "get"@.len());
    assert("values"@.len() != "get"@.len());
}

// ---------------------------------------------------------------------------------- slices

/// A slice from `lo` up to `hi` holds just those values, in their order.
pub proof fn a_slice_is_a_run(h: Host, a: Seq<Val>, lo: u64, hi: u64)
    requires
        0 <= h.int_of(lo) <= h.int_of(hi) <= a.len(),
    ensures
        slice_of(h, Val::List(a), seq![Val::Num(lo), Val::Num(hi), Val::Null]) == Val::List(
            a.subrange(h.int_of(lo) as int, h.int_of(hi) as int),
        ),
{
    let l = h.int_of(lo) as int;
    let r = h.int_of(hi) as int;
    upward_by_one(a, l, r);
    if a.len() == 0 {
        assert(a.subrange(l, r) =~= Seq::empty());
    }
}

/// Without bounds a slice is the whole, and backwards it is the whole reversed.
pub proof fn a_slice_without_bounds_is_the_whole(h: Host, a: Seq<Val>, back: u64)
    requires
        h.int_of(back) == -1,
    ensures
        slice_of(h, Val::List(a), seq![Val::Null, Val::Null, Val::Null]) == Val::List(a),
        slice_of(h, Val::List(a), seq![Val::Null, Val::Null, Val::Num(back)]) == Val::List(
            a.reverse(),
        ),
{
    upward_by_one(a, 0, a.len() as int);
    assert(a.subrange(0, a.len() as int) =~= a);
    downward_by_one(a, a.len() - 1);
    assert(a.subrange(0, a.len() as int).reverse() =~= a.reverse());
    if a.len() == 0 {
        assert(a =~= Seq::empty());
        assert(a.reverse() =~= Seq::empty());
    }
}

/// A bound below zero counts from the end: all but the last, and the last alone.
pub proof fn slices_count_from_the_end(h: Host, a: Seq<Val>, one: u64)
    requires
        h.int_of(one) == -1,
        a.len() > 0,
    ensures
        slice_of(h, Val::List(a), seq![Val::Null, Val::Num(one), Val::Null]) == Val::List(
            a.drop_last(),
        ),
        slice_of(h, Val::List(a), seq![Val::Num(one), Val::Null, Val::Null]) == Val::List(
            seq![a.last()],
        ),
{
    upward_by_one(a, 0, a.len() - 1);
    upward_by_one(a, a.len() - 1, a.len() as int);
    assert(a.subrange(0, a.len() - 1) =~= a.drop_last());
    assert(a.subrange(a.len() - 1, a.len() as int) =~= seq![a.last()]);
}

/// A step picks every so many of the values, from the first on.
pub proof fn a_step_picks_every_so_many(h: Host, a: Seq<Val>, by: u64, j: int)
    requires
        h.int_of(by) > 0,
        0 <= j,
        j * h.int_of(by) < a.len(),
    ensures
        ({
            let got = picked(h, a, seq![Val::Null, Val::Null, Val::Num(by)]);
            j < got.len() && got[j] == a[j * h.int_of(by)]
        }),
{
    upward_at(a, 0, a.len() as int, h.int_of(by) as int, j);
}

proof fn upward_by_one(a: Seq<Val>, i: int, end: int)
    requires
        0 <= i <= end <= a.len(),
    ensures
        upward(a, i, end, 1) == a.subrange(i, end),
    decreases end - i,
{
    if i < end {
        upward_by_one(a, i + 1, end);
    }
    assert(upward(a, i, end, 1) =~= a.subrange(i, end));
}

proof fn downward_by_one(a: Seq<Val>, i: int)
    requires
        -1 <= i < a.len(),
    ensures
        downward(a, i, -1, -1) == a.subrange(0, i + 1).reverse(),
    decreases i + 1,
{
    if i >= 0 {
        downward_by_one(a, i - 1);
    }
    assert(downward(a, i, -1, -1) =~= a.subrange(0, i + 1).reverse());
}

proof fn upward_at(a: Seq<Val>, i: int, end: int, step: int, j: int)
    requires
        0 <= i,
        end <= a.len(),
        step > 0,
        0 <= j,
        i + j * step < end,
    ensures
        j < upward(a, i, end, step).len(),
        upward(a, i, end, step)[j] == a[i + j * step],
    decreases j,
{
    assert(0 <= j * step && (j > 0 ==> (j - 1) * step + step == j * step && (j - 1) * step >= 0)
        && (j == 0 ==> j * step == 0))
        by (nonlinear_arith)
        requires
            step > 0,
            0 <= j,
    ;
    let rest = upward(a, i + step, end, step);
    assert(upward(a, i, end, step) == seq![nth(a, i)] + rest);
    if j > 0 {
        upward_at(a, i + step, end, step, j - 1);
        assert((seq![nth(a, i)] + rest)[j] == rest[j - 1]);
        assert(i + step + (j - 1) * step == i + j * step);
    } else {
        assert(j * step == 0);
    }
}

// --------------------------------------------------------------------------------- filters

/// What was reversed twice is as it was.
pub proof fn reversing_undoes_itself(h: Host, a: Seq<Val>, args: Seq<Val>)
    ensures
        filter_of(h, "reverse"@, Val::List(a), args) is Ok,
        filter_of(h, "reverse"@, filter_of(h, "reverse"@, Val::List(a), args)->Ok_0, args) == Ok::<
            Val,
            Seq<char>,
        >(Val::List(a)),
        a.len() > 0 ==> filter_of(h, "first"@, filter_of(h, "reverse"@, Val::List(a), args)->Ok_0, args)
            == filter_of(h, "last"@, Val::List(a), args),
{
    assert(a.reverse().reverse() =~= a);
    reveal_names_of_ends();
    reveal_strlit("reverse");
    reveal_strlit("__slice");
    reveal_strlit("trim");
    reveal_strlit("strip");
    reveal_strlit("length");
    reveal_strlit("count");
    reveal_strlit("default");
    reveal_strlit("d");
    reveal_strlit("tojson");
    reveal_strlit("to_json");
    reveal_strlit("join");
    reveal_strlit("first");
    reveal_strlit("last");
    reveal_strlit("upper");
    reveal_strlit("lower");
    reveal_strlit("capitalize");
    reveal_strlit("title");
    reveal_strlit("list");
    assert("__slice"@[0] != "reverse"@[0]);
    assert("trim"@.len() != "reverse"@.len());
    assert("strip"@.len() != "reverse"@.len());
    assert("length"@.len() != "reverse"@.len());
    assert("count"@.len() != "reverse"@.len());
    assert("default"@[0] != "reverse"@[0]);
    assert("d"@.len() != "reverse"@.len());
    assert("tojson"@.len() != "reverse"@.len());
    assert("to_json"@[0] != "reverse"@[0]);
    assert("join"@.len() != "reverse"@.len());
    assert("first"@.len() != "reverse"@.len());
    assert("last"@.len() != "reverse"@.len());
    assert("upper"@.len() != "reverse"@.len());
    assert("lower"@.len() != "reverse"@.len());
    assert("capitalize"@.len() != "reverse"@.len());
    assert("title"@.len() != "reverse"@.len());
    assert("list"@.len() != "reverse"@.len());
}

proof fn reveal_names_of_ends()
    ensures
        forall|h: Host, v: Val, args: Seq<Val>|
            #[trigger] filter_of(h, "first"@, v, args) == Ok::<Val, Seq<char>>(nth(iterated(v), 0)),
        forall|h: Host, v: Val, args: Seq<Val>|
            #[trigger] filter_of(h, "last"@, v, args) == Ok::<Val, Seq<char>>(
                nth(iterated(v), iterated(v).len() - 1),
            ),
{
    assert(true) by {
    reveal_strlit("first");
    reveal_strlit("__slice");
    reveal_strlit("trim");
    reveal_strlit("strip");
    reveal_strlit("length");
    reveal_strlit("count");
    reveal_strlit("default");
    reveal_strlit("d");
    reveal_strlit("tojson");
    reveal_strlit("to_json");
    reveal_strlit("join");
    assert("__slice"@.len() != "first"@.len());
    assert("trim"@.len() != "first"@.len());
    assert("strip"@[0] != "first"@[0]);
    assert("length"@.len() != "first"@.len());
    assert("count"@[0] != "first"@[0]);
    assert("default"@.len() != "first"@.len());
    assert("d"@.len() != "first"@.len());
    assert("tojson"@.len() != "first"@.len());
    assert("to_json"@.len() != "first"@.len());
    assert("join"@.len() != "first"@.len());
    }
    reveal_strlit("last");
    reveal_strlit("__slice");
    reveal_strlit("trim");
    reveal_strlit("strip");
    reveal_strlit("length");
    reveal_strlit("count");
    reveal_strlit("default");
    reveal_strlit("d");
    reveal_strlit("tojson");
    reveal_strlit("to_json");
    reveal_strlit("join");
    reveal_strlit("first");
    assert("__slice"@.len() != "last"@.len());
    assert("trim"@[0] != "last"@[0]);
    assert("strip"@.len() != "last"@.len());
    assert("length"@.len() != "last"@.len());
    assert("count"@.len() != "last"@.len());
    assert("default"@.len() != "last"@.len());
    assert("d"@.len() != "last"@.len());
    assert("tojson"@.len() != "last"@.len());
    assert("to_json"@.len() != "last"@.len());
    assert("join"@[0] != "last"@[0]);
    assert("first"@.len() != "last"@.len());
    assert("first"@.len() == 5);
    assert("strip"@[0] != "first"@[0]);
    assert("count"@[0] != "first"@[0]);
}

/// The first and the last are the values at the ends; of nothing there is neither.
pub proof fn first_and_last_are_at_the_ends(h: Host, a: Seq<Val>, args: Seq<Val>)
    ensures
        a.len() > 0 ==> filter_of(h, "first"@, Val::List(a), args) == Ok::<Val, Seq<char>>(a[0]),
        a.len() > 0 ==> filter_of(h, "last"@, Val::List(a), args) == Ok::<Val, Seq<char>>(a.last()),
        a.len() == 0 ==> filter_of(h, "first"@, Val::List(a), args) == Ok::<Val, Seq<char>>(
            Val::Null,
        ) && filter_of(h, "last"@, Val::List(a), args) == Ok::<Val, Seq<char>>(Val::Null),
{
    reveal_names_of_ends();
}

/// A default stands in for what is missing, and, if it is so asked, for what is false.
pub proof fn a_default_stands_in(h: Host, v: Val, other: Val)
    ensures
        filter_of(h, "default"@, Val::Null, seq![other]) == Ok::<Val, Seq<char>>(other),
        !(v is Null) ==> filter_of(h, "default"@, v, seq![other]) == Ok::<Val, Seq<char>>(v),
        unary_of(h, UnaryOp::Not, v) == Val::Bool(true) ==> filter_of(
            h,
            "default"@,
            v,
            seq![other, Val::Bool(true)],
        ) == Ok::<Val, Seq<char>>(other),
        unary_of(h, UnaryOp::Not, v) == Val::Bool(false) ==> filter_of(
            h,
            "default"@,
            v,
            seq![other, Val::Bool(true)],
        ) == Ok::<Val, Seq<char>>(v),
{
    reveal_strlit("default");
    reveal_strlit("__slice");
    reveal_strlit("trim");
    reveal_strlit("strip");
    reveal_strlit("length");
    reveal_strlit("count");
    assert("__slice"@[0] != "default"@[0]);
    assert("trim"@.len() != "default"@.len());
    assert("strip"@.len() != "default"@.len());
    assert("length"@.len() != "default"@.len());
    assert("count"@.len() != "default"@.len());
}

/// The length of a text counts its characters, that of a list its values, that of a mapping its
/// entries.
pub proof fn a_length_counts(h: Host, s: Seq<char>, a: Seq<Val>, m: Seq<(Seq<char>, Val)>, args: Seq<Val>)
    ensures
        filter_of(h, "length"@, Val::Str(s), args) == Ok::<Val, Seq<char>>(
            Val::Num((h.arith)(NumOp::FromWhole, s.len() as u64, 0)),
        ),
        filter_of(h, "length"@, Val::List(a), args) == Ok::<Val, Seq<char>>(
            Val::Num((h.arith)(NumOp::FromWhole, a.len() as u64, 0)),
        ),
        filter_of(h, "length"@, Val::Object(m), args) == Ok::<Val, Seq<char>>(
            Val::Num((h.arith)(NumOp::FromWhole, m.len() as u64, 0)),
        ),
{
    reveal_strlit("length");
    reveal_strlit("__slice");
    reveal_strlit("trim");
    reveal_strlit("strip");
    assert("__slice"@.len() != "length"@.len());
    assert("trim"@.len() != "length"@.len());
    assert("strip"@.len() != "length"@.len());
}

/// `selectattr` and `rejectattr` share the values out between them: each value goes to just one,
/// and keeps its place among those that went with it.
pub proof fn selecting_and_rejecting_share_out(h: Host, a: Seq<Val>, key: Seq<char>)
    ensures
        ({
            let kept = filter_of(h, "selectattr"@, Val::List(a), seq![Val::Str(key)]);
            let left = filter_of(h, "rejectattr"@, Val::List(a), seq![Val::Str(key)]);
            let there = |v: Val| unary_of(h, UnaryOp::Not, attr_of(h, v, key)) == Val::Bool(false);
            &&& kept == Ok::<Val, Seq<char>>(Val::List(a.filter(there)))
            &&& left == Ok::<Val, Seq<char>>(Val::List(a.filter(|v: Val| !there(v))))
        }),
{
    let there = |v: Val| unary_of(h, UnaryOp::Not, attr_of(h, v, key)) == Val::Bool(false);
    chosen_filters(h, a, key, true, a.len(), there);
    chosen_filters(h, a, key, false, a.len(), |v: Val| !there(v));
    assert(a.take(a.len() as int) =~= a);
    reveal_strlit("rejectattr");
    reveal_strlit("__slice");
    reveal_strlit("trim");
    reveal_strlit("strip");
    reveal_strlit("length");
    reveal_strlit("count");
    reveal_strlit("default");
    reveal_strlit("d");
    reveal_strlit("tojson");
    reveal_strlit("to_json");
    reveal_strlit("join");
    reveal_strlit("first");
    reveal_strlit("last");
    reveal_strlit("upper");
    reveal_strlit("lower");
    reveal_strlit("capitalize");
    reveal_strlit("title");
    reveal_strlit("list");
    reveal_strlit("reverse");
    reveal_strlit("string");
    reveal_strlit("str");
    reveal_strlit("safe");
    reveal_strlit("e");
    reveal_strlit("escape");
    reveal_strlit("forceescape");
    reveal_strlit("int");
    reveal_strlit("float");
    reveal_strlit("abs");
    reveal_strlit("replace");
    reveal_strlit("items");
    reveal_strlit("dictsort");
    reveal_strlit("indent");
    reveal_strlit("map");
    reveal_strlit("attr");
    reveal_strlit("selectattr");
    assert("__slice"@.len() != "rejectattr"@.len());
    assert("trim"@.len() != "rejectattr"@.len());
    assert("strip"@.len() != "rejectattr"@.len());
    assert("length"@.len() != "rejectattr"@.len());
    assert("count"@.len() != "rejectattr"@.len());
    assert("default"@.len() != "rejectattr"@.len());
    assert("d"@.len() != "rejectattr"@.len());
    assert("tojson"@.len() != "rejectattr"@.len());
    assert("to_json"@.len() != "rejectattr"@.len());
    assert("join"@.len() != "rejectattr"@.len());
    assert("first"@.len() != "rejectattr"@.len());
    assert("last"@.len() != "rejectattr"@.len());
    assert("upper"@.len() != "rejectattr"@.len());
    assert("lower"@.len() != "rejectattr"@.len());
    assert("capitalize"@[0] != "rejectattr"@[0]);
    assert("title"@.len() != "rejectattr"@.len());
    assert("list"@.len() != "rejectattr"@.len());
    assert("reverse"@.len() != "rejectattr"@.len());
    assert("string"@.len() != "rejectattr"@.len());
    assert("str"@.len() != "rejectattr"@.len());
    assert("safe"@.len() != "rejectattr"@.len());
    assert("e"@.len() != "rejectattr"@.len());
    assert("escape"@.len() != "rejectattr"@.len());
    assert("forceescape"@.len() != "rejectattr"@.len());
    assert("int"@.len() != "rejectattr"@.len());
    assert("float"@.len() != "rejectattr"@.len());
    assert("abs"@.len() != "rejectattr"@.len());
    assert("replace"@.len() != "rejectattr"@.len());
    assert("items"@.len() != "rejectattr"@.len());
    assert("dictsort"@.len() != "rejectattr"@.len());
    assert("indent"@.len() != "rejectattr"@.len());
    assert("map"@.len() != "rejectattr"@.len());
    assert("attr"@.len() != "rejectattr"@.len());
    assert("selectattr"@[0] != "rejectattr"@[0]);
    assert("capitalize"@[0] != "selectattr"@[0]);
}

proof fn chosen_filters(
    h: Host,
    a: Seq<Val>,
    key: Seq<char>,
    want: bool,
    n: nat,
    p: spec_fn(Val) -> bool,
)
    requires
        n <= a.len(),
        forall|v: Val| #[trigger] p(v) == (attr_of(h, v, key).truthy() == want),
    ensures
        chosen(h, a, key, want, n) == a.take(n as int).filter(p),
    decreases n,
{
    reveal(Seq::filter);
    if n > 0 {
        chosen_filters(h, a, key, want, (n - 1) as nat, p);
        assert(a.take(n as int).drop_last() =~= a.take(n - 1));
        assert(a.take(n as int).last() == a[n - 1]);
        assert(p(a[n - 1]) == (attr_of(h, a[n - 1], key).truthy() == want));
    } else {
        assert(a.take(0).filter(p) =~= Seq::empty());
    }
}

/// What was split on a text and joined by it is as it was.
pub proof fn joining_undoes_splitting(h: Host, s: Seq<char>, sep: Seq<char>)
    requires
        sep.len() > 0,
    ensures
        ({
            let parts = method_of(h, Val::Str(s), "split"@, seq![Val::Str(sep)]);
            &&& parts is Ok
            &&& filter_of(h, "join"@, parts->Ok_0, seq![Val::Str(sep)]) == Ok::<Val, Seq<char>>(
                Val::Str(s),
            )
            &&& method_of(h, Val::Str(sep), "join"@, seq![parts->Ok_0]) == Ok::<Val, Seq<char>>(
                Val::Str(s),
            )
        }),
{
    joined_split(s, sep);
    let w = split_on(s, sep);
    let parts = super::ops::strings(w);
    assert(super::ops::text_all(h, parts) =~= w);
    split_method_is_found();
    join_method_is_found();
    join_filter_is_found();
}

proof fn join_filter_is_found()
    ensures
        forall|h: Host, v: Val, args: Seq<Val>|
            #[trigger] filter_of(h, "join"@, v, args) == Ok::<Val, Seq<char>>(
                Val::Str(joined(super::ops::text_all(h, iterated(v)), text_of(h, nth(args, 0)))),
            ),
{
    reveal_strlit("join");
    reveal_strlit("__slice");
    reveal_strlit("trim");
    reveal_strlit("strip");
    reveal_strlit("length");
    reveal_strlit("count");
    reveal_strlit("default");
    reveal_strlit("d");
    reveal_strlit("tojson");
    reveal_strlit("to_json");
    assert("__slice"@.len() != "join"@.len());
    assert("trim"@[0] != "join"@[0]);
    assert("strip"@.len() != "join"@.len());
    assert("length"@.len() != "join"@.len());
    assert("count"@.len() != "join"@.len());
    assert("default"@.len() != "join"@.len());
    assert("d"@.len() != "join"@.len());
    assert("tojson"@.len() != "join"@.len());
    assert("to_json"@.len() != "join"@.len());
}

proof fn strip_method_is_found()
    ensures
        forall|h: Host, v: Val, args: Seq<Val>|
            #[trigger] method_of(h, v, "strip"@, args) == Ok::<Val, Seq<char>>(Val::Str(trimmed(text_of(h, v)))),
{
    reveal_strlit("strip");
}

proof fn split_method_is_found()
    ensures
        forall|h: Host, v: Val, args: Seq<Val>|
            #[trigger] method_of(h, v, "split"@, args) == Ok::<Val, Seq<char>>(
                Val::List(
                    super::ops::strings(
                        if args.len() > 0 {
                            split_on(text_of(h, v), text_of(h, args[0]))
                        } else {
                            crate::text::words(text_of(h, v))
                        },
                    ),
                ),
            ),
{
    reveal_strlit("split");
    reveal_strlit("strip");
    reveal_strlit("lstrip");
    reveal_strlit("rstrip");
    reveal_strlit("upper");
    reveal_strlit("lower");
    assert("strip"@[1] != "split"@[1]);
    assert("lstrip"@.len() != "split"@.len());
    assert("rstrip"@.len() != "split"@.len());
    assert("upper"@[0] != "split"@[0]);
    assert("lower"@[0] != "split"@[0]);
}

proof fn join_method_is_found()
    ensures
        forall|h: Host, v: Val, args: Seq<Val>|
            #[trigger] method_of(h, v, "join"@, args) == Ok::<Val, Seq<char>>(
                Val::Str(joined(super::ops::text_all(h, iterated(nth(args, 0))), text_of(h, v))),
            ),
{
    reveal_strlit("join");
    reveal_strlit("strip");
    reveal_strlit("lstrip");
    reveal_strlit("rstrip");
    reveal_strlit("upper");
    reveal_strlit("lower");
    reveal_strlit("split");
    reveal_strlit("startswith");
    reveal_strlit("endswith");
    reveal_strlit("replace");
    assert("strip"@.len() != "join"@.len());
    assert("lstrip"@.len() != "join"@.len());
    assert("rstrip"@.len() != "join"@.len());
    assert("upper"@.len() != "join"@.len());
    assert("lower"@.len() != "join"@.len());
    assert("split"@.len() != "join"@.len());
    assert("startswith"@.len() != "join"@.len());
    assert("endswith"@.len() != "join"@.len());
    assert("replace"@.len() != "join"@.len());
}

proof fn startswith_method_is_found()
    ensures
        forall|h: Host, v: Val, args: Seq<Val>|
            #[trigger] method_of(h, v, "startswith"@, args) == Ok::<Val, Seq<char>>(
                Val::Bool(crate::text::begins_with(text_of(h, v), text_of(h, nth(args, 0)))),
            ),
{
    reveal_strlit("startswith");
    reveal_strlit("strip");
    reveal_strlit("lstrip");
    reveal_strlit("rstrip");
    reveal_strlit("upper");
    reveal_strlit("lower");
    reveal_strlit("split");
    assert("strip"@.len() != "startswith"@.len());
    assert("lstrip"@.len() != "startswith"@.len());
    assert("rstrip"@.len() != "startswith"@.len());
    assert("upper"@.len() != "startswith"@.len());
    assert("lower"@.len() != "startswith"@.len());
    assert("split"@.len() != "startswith"@.len());
}

proof fn endswith_method_is_found()
    ensures
        forall|h: Host, v: Val, args: Seq<Val>|
            #[trigger] method_of(h, v, "endswith"@, args) == Ok::<Val, Seq<char>>(
                Val::Bool(crate::text::finishes_with(text_of(h, v), text_of(h, nth(args, 0)))),
            ),
{
    reveal_strlit("endswith");
    reveal_strlit("strip");
    reveal_strlit("lstrip");
    reveal_strlit("rstrip");
    reveal_strlit("upper");
    reveal_strlit("lower");
    reveal_strlit("split");
    reveal_strlit("startswith");
    assert("strip"@.len() != "endswith"@.len());
    assert("lstrip"@.len() != "endswith"@.len());
    assert("rstrip"@.len() != "endswith"@.len());
    assert("upper"@.len() != "endswith"@.len());
    assert("lower"@.len() != "endswith"@.len());
    assert("split"@.len() != "endswith"@.len());
    assert("startswith"@.len() != "endswith"@.len());
}

proof fn items_method_is_found()
    ensures
        forall|h: Host, v: Val, args: Seq<Val>|
            #[trigger] method_of(h, v, "items"@, args) == Ok::<Val, Seq<char>>(Val::List(iterated(v))),
{
    reveal_strlit("items");
    reveal_strlit("strip");
    reveal_strlit("lstrip");
    reveal_strlit("rstrip");
    reveal_strlit("upper");
    reveal_strlit("lower");
    reveal_strlit("split");
    reveal_strlit("startswith");
    reveal_strlit("endswith");
    reveal_strlit("replace");
    reveal_strlit("join");
    assert("strip"@[0] != "items"@[0]);
    assert("lstrip"@.len() != "items"@.len());
    assert("rstrip"@.len() != "items"@.len());
    assert("upper"@[0] != "items"@[0]);
    assert("lower"@[0] != "items"@[0]);
    assert("split"@[0] != "items"@[0]);
    assert("startswith"@.len() != "items"@.len());
    assert("endswith"@.len() != "items"@.len());
    assert("replace"@.len() != "items"@.len());
    assert("join"@.len() != "items"@.len());
}

proof fn append_method_is_found()
    ensures
        forall|h: Host, v: Val, args: Seq<Val>|
            #[trigger] method_of(h, v, "append"@, args) == Ok::<Val, Seq<char>>(Val::List(iterated(v).push(nth(args, 0)))),
{
    reveal_strlit("append");
    reveal_strlit("strip");
    reveal_strlit("lstrip");
    reveal_strlit("rstrip");
    reveal_strlit("upper");
    reveal_strlit("lower");
    reveal_strlit("split");
    reveal_strlit("startswith");
    reveal_strlit("endswith");
    reveal_strlit("replace");
    reveal_strlit("join");
    reveal_strlit("items");
    reveal_strlit("keys");
    reveal_strlit("values");
    reveal_strlit("get");
    assert("strip"@.len() != "append"@.len());
    assert("lstrip"@[0] != "append"@[0]);
    assert("rstrip"@[0] != "append"@[0]);
    assert("upper"@.len() != "append"@.len());
    assert("lower"@.len() != "append"@.len());
    assert("split"@.len() != "append"@.len());
    assert("startswith"@.len() != "append"@.len());
    assert("endswith"@.len() != "append"@.len());
    assert("replace"@.len() != "append"@.len());
    assert("join"@.len() != "append"@.len());
    assert("items"@.len() != "append"@.len());
    assert("keys"@.len() != "append"@.len());
    assert("values"@[0] != "append"@[0]);
    assert("get"@.len() != "append"@.len());
}

proof fn extend_method_is_found()
    ensures
        forall|h: Host, v: Val, args: Seq<Val>|
            #[trigger] method_of(h, v, "extend"@, args) == Ok::<Val, Seq<char>>(Val::List(iterated(v) + iterated(nth(args, 0)))),
{
    reveal_strlit("extend");
    reveal_strlit("strip");
    reveal_strlit("lstrip");
    reveal_strlit("rstrip");
    reveal_strlit("upper");
    reveal_strlit("lower");
    reveal_strlit("split");
    reveal_strlit("startswith");
    reveal_strlit("endswith");
    reveal_strlit("replace");
    reveal_strlit("join");
    reveal_strlit("items");
    reveal_strlit("keys");
    reveal_strlit("values");
    reveal_strlit("get");
    reveal_strlit("append");
    reveal_strlit("add");
    assert("strip"@.len() != "extend"@.len());
    assert("lstrip"@[0] != "extend"@[0]);
    assert("rstrip"@[0] != "extend"@[0]);
    assert("upper"@.len() != "extend"@.len());
    assert("lower"@.len() != "extend"@.len());
    assert("split"@.len() != "extend"@.len());
    assert("startswith"@.len() != "extend"@.len());
    assert("endswith"@.len() != "extend"@.len());
    assert("replace"@.len() != "extend"@.len());
    assert("join"@.len() != "extend"@.len());
    assert("items"@.len() != "extend"@.len());
    assert("keys"@.len() != "extend"@.len());
    assert("values"@[0] != "extend"@[0]);
    assert("get"@.len() != "extend"@.len());
    assert("append"@[0] != "extend"@[0]);
    assert("add"@.len() != "extend"@.len());
}

proof fn keys_method_is_found()
    ensures
        forall|h: Host, m: Seq<(Seq<char>, Val)>, args: Seq<Val>|
            #[trigger] method_of(h, Val::Object(m), "keys"@, args) == Ok::<Val, Seq<char>>(
                Val::List(Seq::new(m.len(), |i: int| Val::Str(m[i].0))),
            ),
{
    reveal_strlit("keys");
    reveal_strlit("strip");
    reveal_strlit("lstrip");
    reveal_strlit("rstrip");
    reveal_strlit("upper");
    reveal_strlit("lower");
    reveal_strlit("split");
    reveal_strlit("startswith");
    reveal_strlit("endswith");
    reveal_strlit("replace");
    reveal_strlit("join");
    reveal_strlit("items");
    assert("strip"@.len() != "keys"@.len());
    assert("lstrip"@.len() != "keys"@.len());
    assert("rstrip"@.len() != "keys"@.len());
    assert("upper"@.len() != "keys"@.len());
    assert("lower"@.len() != "keys"@.len());
    assert("split"@.len() != "keys"@.len());
    assert("startswith"@.len() != "keys"@.len());
    assert("endswith"@.len() != "keys"@.len());
    assert("replace"@.len() != "keys"@.len());
    assert("join"@[0] != "keys"@[0]);
    assert("items"@.len() != "keys"@.len());
    assert forall|h: Host, m: Seq<(Seq<char>, Val)>, args: Seq<Val>|
        #[trigger] method_of(h, Val::Object(m), "keys"@, args) == Ok::<Val, Seq<char>>(
            Val::List(Seq::new(m.len(), |i: int| Val::Str(m[i].0))),
        ) by {
        assert(method_of(h, Val::Object(m), "keys"@, args)->Ok_0->List_0 =~= Seq::new(
            m.len(),
            |i: int| Val::Str(m[i].0),
        ));
    }
}

proof fn values_method_is_found()
    ensures
        forall|h: Host, m: Seq<(Seq<char>, Val)>, args: Seq<Val>|
            #[trigger] method_of(h, Val::Object(m), "values"@, args) == Ok::<Val, Seq<char>>(
                Val::List(Seq::new(m.len(), |i: int| m[i].1)),
            ),
{
    reveal_strlit("values");
    reveal_strlit("strip");
    reveal_strlit("lstrip");
    reveal_strlit("rstrip");
    reveal_strlit("upper");
    reveal_strlit("lower");
    reveal_strlit("split");
    reveal_strlit("startswith");
    reveal_strlit("endswith");
    reveal_strlit("replace");
    reveal_strlit("join");
    reveal_strlit("items");
    reveal_strlit("keys");
    assert("strip"@.len() != "values"@.len());
    assert("lstrip"@[0] != "values"@[0]);
    assert("rstrip"@[0] != "values"@[0]);
    assert("upper"@.len() != "values"@.len());
    assert("lower"@.len() != "values"@.len());
    assert("split"@.len() != "values"@.len());
    assert("startswith"@.len() != "values"@.len());
    assert("endswith"@.len() != "values"@.len());
    assert("replace"@.len() != "values"@.len());
    assert("join"@.len() != "values"@.len());
    assert("items"@.len() != "values"@.len());
    assert("keys"@.len() != "values"@.len());
    assert forall|h: Host, m: Seq<(Seq<char>, Val)>, args: Seq<Val>|
        #[trigger] method_of(h, Val::Object(m), "values"@, args) == Ok::<Val, Seq<char>>(
            Val::List(Seq::new(m.len(), |i: int| m[i].1)),
        ) by {
        assert(method_of(h, Val::Object(m), "values"@, args)->Ok_0->List_0 =~= Seq::new(
            m.len(),
            |i: int| m[i].1,
        ));
    }
}

proof fn joined_first(head: Seq<char>, rest: Seq<Seq<char>>, sep: Seq<char>)
    requires
        rest.len() > 0,
    ensures
        joined(seq![head] + rest, sep) == head + sep + joined(rest, sep),
    decreases rest.len(),
{
    let all = seq![head] + rest;
    assert(all.drop_last() =~= seq![head] + rest.drop_last());
    assert(all.last() == rest.last());
    if rest.len() == 1 {
        assert(all.drop_last() =~= seq![head]);
        assert(joined(seq![head], sep) == head);
        assert(joined(rest, sep) == rest[0]);
    } else {
        joined_first(head, rest.drop_last(), sep);
        assert(head + sep + (joined(rest.drop_last(), sep) + sep + rest.last()) =~= head + sep
            + joined(rest.drop_last(), sep) + sep + rest.last());
    }
}

/// The parts of a text, joined by what it was split on, are the text.
pub proof fn joined_split(s: Seq<char>, sep: Seq<char>)
    requires
        sep.len() > 0,
    ensures
        joined(split_on(s, sep), sep) == s,
        split_on(s, sep).len() > 0,
    decreases s.len(),
{
    index_from_is_first(s, sep, 0);
    match crate::text::index_of(s, sep) {
        Some(i) => {
            let rest = s.skip((i + sep.len()) as int);
            joined_split(rest, sep);
            joined_first(s.take(i as int), split_on(rest, sep), sep);
            assert(s.subrange(i as int, (i + sep.len()) as int) == sep);
            assert(s.take(i as int) + sep + rest =~= s);
        },
        None => {
            assert(joined(seq![s], sep) == s);
        },
    }
}

/// What was stripped neither starts nor ends in white space, and only white space was taken off.
pub proof fn stripping_takes_white_space_off(h: Host, s: Seq<char>, args: Seq<Val>)
    ensures
        method_of(h, Val::Str(s), "strip"@, args) == filter_of(h, "trim"@, Val::Str(s), args),
        ({
            let t = method_of(h, Val::Str(s), "strip"@, args)->Ok_0->Str_0;
            &&& method_of(h, Val::Str(s), "strip"@, args) == Ok::<Val, Seq<char>>(Val::Str(t))
            &&& t.len() > 0 ==> !is_white(t[0]) && !is_white(t.last())
            &&& exists|i: int|
                0 <= i <= s.len() - t.len() && #[trigger] s.subrange(i, i + t.len()) == t
                    && forall|k: int|
                    0 <= k < s.len() && !(i <= k < i + t.len()) ==> is_white(#[trigger] s[k])
        }),
{
    let u = trimmed_start(s);
    let t = trimmed(s);
    start_taken(s);
    end_taken(u);
    let i = s.len() - u.len();
    assert(s.subrange(i, i + t.len()) =~= t);
    assert forall|k: int| 0 <= k < s.len() && !(i <= k < i + t.len()) implies is_white(
        #[trigger] s[k],
    ) by {
        if k >= i {
            assert(u[k - i] == s[k]);
        }
    }
    if t.len() > 0 {
        assert(t[0] == u[0]);
    }
    strip_method_is_found();
    reveal_strlit("trim");
    reveal_strlit("__slice");
    assert("__slice"@.len() != "trim"@.len());
}

proof fn start_taken(s: Seq<char>)
    ensures
        trimmed_start(s).len() <= s.len(),
        trimmed_start(s) == s.skip(s.len() - trimmed_start(s).len()),
        trimmed_start(s).len() > 0 ==> !is_white(trimmed_start(s)[0]),
        forall|k: int| 0 <= k < s.len() - trimmed_start(s).len() ==> is_white(#[trigger] s[k]),
    decreases s.len(),
{
    if s.len() > 0 && is_white(s[0]) {
        let r = s.drop_first();
        start_taken(r);
        assert forall|k: int| 0 <= k < s.len() - trimmed_start(s).len() implies is_white(
            #[trigger] s[k],
        ) by {
            if k > 0 {
                assert(r[k - 1] == s[k]);
            }
        }
        assert(r.skip(r.len() - trimmed_start(s).len()) =~= s.skip(
            s.len() - trimmed_start(s).len(),
        ));
    } else {
        assert(s.skip(0) =~= s);
    }
}

proof fn end_taken(s: Seq<char>)
    ensures
        trimmed_end(s).len() <= s.len(),
        trimmed_end(s) == s.take(trimmed_end(s).len() as int),
        trimmed_end(s).len() > 0 ==> !is_white(trimmed_end(s).last()),
        forall|k: int| trimmed_end(s).len() <= k < s.len() ==> is_white(#[trigger] s[k]),
    decreases s.len(),
{
    if s.len() > 0 && is_white(s.last()) {
        let r = s.drop_last();
        end_taken(r);
        assert forall|k: int| trimmed_end(s).len() <= k < s.len() implies is_white(#[trigger] s[k]) by {
            if k < s.len() - 1 {
                assert(r[k] == s[k]);
            }
        }
        assert(r.take(trimmed_end(s).len() as int) =~= s.take(trimmed_end(s).len() as int));
    } else {
        assert(s.take(s.len() as int) =~= s);
    }
}

// --------------------------------------------------------------------------------- methods

/// A text starts with another just where that one and something more make it up, and ends so in
/// the same way.
pub proof fn starts_and_ends(h: Host, p: Seq<char>, r: Seq<char>, s: Seq<char>)
    ensures
        method_of(h, Val::Str(p + r), "startswith"@, seq![Val::Str(p)]) == Ok::<Val, Seq<char>>(
            Val::Bool(true),
        ),
        method_of(h, Val::Str(r + p), "endswith"@, seq![Val::Str(p)]) == Ok::<Val, Seq<char>>(
            Val::Bool(true),
        ),
        method_of(h, Val::Str(s), "startswith"@, seq![Val::Str(p)]) == Ok::<Val, Seq<char>>(
            Val::Bool(true),
        ) ==> exists|q: Seq<char>| s == #[trigger] (p + q),
        method_of(h, Val::Str(s), "endswith"@, seq![Val::Str(p)]) == Ok::<Val, Seq<char>>(
            Val::Bool(true),
        ) ==> exists|q: Seq<char>| s == #[trigger] (q + p),
{
    assert((p + r).subrange(0, p.len() as int) =~= p);
    assert((r + p).subrange(r.len() as int, (r.len() + p.len()) as int) =~= p);
    startswith_method_is_found();
    endswith_method_is_found();
    if crate::text::begins_with(s, p) {
        assert(s =~= p + s.skip(p.len() as int));
    }
    if crate::text::finishes_with(s, p) {
        assert(s =~= s.take(s.len() - p.len()) + p);
    }
}

/// Keys and values come in the order of the entries, one for each; the items are the two together.
pub proof fn keys_and_values_go_together(h: Host, m: Seq<(Seq<char>, Val)>, args: Seq<Val>, i: int)
    requires
        0 <= i < m.len(),
    ensures
        ({
            let keys = method_of(h, Val::Object(m), "keys"@, args)->Ok_0->List_0;
            let kept = method_of(h, Val::Object(m), "values"@, args)->Ok_0->List_0;
            let both = method_of(h, Val::Object(m), "items"@, args)->Ok_0->List_0;
            &&& keys.len() == m.len() && kept.len() == m.len() && both.len() == m.len()
            &&& keys[i] == Val::Str(m[i].0)
            &&& kept[i] == m[i].1
            &&& both[i] == Val::List(seq![keys[i], kept[i]])
        }),
{
    items_method_is_found();
    keys_method_is_found();
    values_method_is_found();
}

/// What is appended comes last, and what a list is extended by comes after it.
pub proof fn appending_comes_last(h: Host, a: Seq<Val>, b: Seq<Val>, v: Val)
    ensures
        method_of(h, Val::List(a), "append"@, seq![v]) == Ok::<Val, Seq<char>>(
            binary_of(h, BinaryOp::Plus, Val::List(a), Val::List(seq![v])),
        ),
        method_of(h, Val::List(a), "extend"@, seq![Val::List(b)]) == Ok::<Val, Seq<char>>(
            binary_of(h, BinaryOp::Plus, Val::List(a), Val::List(b)),
        ),
{
    assert(a + seq![v] =~= a.push(v));
    append_method_is_found();
    extend_method_is_found();
}

// ----------------------------------------------------------------------------------- texts

proof fn case_filters_are_found()
    ensures
        forall|h: Host, v: Val, args: Seq<Val>|
            #[trigger] filter_of(h, "upper"@, v, args) == Ok::<Val, Seq<char>>(
                Val::Str(crate::text::upper_of(text_of(h, v))),
            ),
        forall|h: Host, v: Val, args: Seq<Val>|
            #[trigger] filter_of(h, "lower"@, v, args) == Ok::<Val, Seq<char>>(
                Val::Str(crate::text::lower_of(text_of(h, v))),
            ),
{
    reveal_strlit("lower");
    reveal_strlit("__slice");
    reveal_strlit("trim");
    reveal_strlit("strip");
    reveal_strlit("length");
    reveal_strlit("count");
    reveal_strlit("default");
    reveal_strlit("d");
    reveal_strlit("tojson");
    reveal_strlit("to_json");
    reveal_strlit("join");
    reveal_strlit("first");
    reveal_strlit("last");
    reveal_strlit("upper");
    assert("__slice"@.len() != "lower"@.len());
    assert("trim"@.len() != "lower"@.len());
    assert("strip"@[0] != "lower"@[0]);
    assert("length"@.len() != "lower"@.len());
    assert("count"@[0] != "lower"@[0]);
    assert("default"@.len() != "lower"@.len());
    assert("d"@.len() != "lower"@.len());
    assert("tojson"@.len() != "lower"@.len());
    assert("to_json"@.len() != "lower"@.len());
    assert("join"@.len() != "lower"@.len());
    assert("first"@[0] != "lower"@[0]);
    assert("last"@.len() != "lower"@.len());
    assert("upper"@[0] != "lower"@[0]);
    assert("trim"@.len() != "upper"@.len() && "length"@.len() != "upper"@.len());
    assert("strip"@[0] != "upper"@[0] && "count"@[0] != "upper"@[0] && "first"@[0] != "upper"@[0]);
}

/// `upper` makes capitals of small letters and leaves the rest, `lower` the other way round.
pub proof fn upper_and_lower_are_opposite(h: Host, s: Seq<char>, args: Seq<Val>, i: int)
    requires
        forall|k: int| 0 <= k < s.len() ==> (#[trigger] s[k] as u32) < 128,
        0 <= i < s.len(),
    ensures
        ({
            let up = filter_of(h, "upper"@, Val::Str(s), args)->Ok_0->Str_0;
            let low = filter_of(h, "lower"@, Val::Str(s), args)->Ok_0->Str_0;
            &&& filter_of(h, "upper"@, Val::Str(s), args) == Ok::<Val, Seq<char>>(Val::Str(up))
            &&& filter_of(h, "lower"@, Val::Str(s), args) == Ok::<Val, Seq<char>>(Val::Str(low))
            &&& up.len() == s.len() && low.len() == s.len()
            &&& 'a' <= s[i] <= 'z' ==> up[i] as u32 == s[i] as u32 - 32 && low[i] == s[i]
            &&& 'A' <= s[i] <= 'Z' ==> low[i] as u32 == s[i] as u32 + 32 && up[i] == s[i]
            &&& !('a' <= s[i] <= 'z') && !('A' <= s[i] <= 'Z') ==> up[i] == s[i] && low[i] == s[i]
        }),
{
    case_filters_are_found();
    assert(crate::text::all_ascii(s));
}

proof fn replace_filter_is_found()
    ensures
        forall|h: Host, v: Val, args: Seq<Val>|
            #[trigger] filter_of(h, "replace"@, v, args) == Ok::<Val, Seq<char>>(
                Val::Str(
                    crate::text::replaced(
                        text_of(h, v),
                        text_of(h, nth(args, 0)),
                        text_of(h, nth(args, 1)),
                    ),
                ),
            ),
{
    reveal_strlit("replace");
    reveal_strlit("__slice");
    reveal_strlit("trim");
    reveal_strlit("strip");
    reveal_strlit("length");
    reveal_strlit("count");
    reveal_strlit("default");
    reveal_strlit("d");
    reveal_strlit("tojson");
    reveal_strlit("to_json");
    reveal_strlit("join");
    reveal_strlit("first");
    reveal_strlit("last");
    reveal_strlit("upper");
    reveal_strlit("lower");
    reveal_strlit("capitalize");
    reveal_strlit("title");
    reveal_strlit("list");
    reveal_strlit("reverse");
    reveal_strlit("string");
    reveal_strlit("str");
    reveal_strlit("safe");
    reveal_strlit("e");
    reveal_strlit("escape");
    reveal_strlit("forceescape");
    reveal_strlit("int");
    reveal_strlit("float");
    reveal_strlit("abs");
    assert("__slice"@[0] != "replace"@[0]);
    assert("trim"@.len() != "replace"@.len());
    assert("strip"@.len() != "replace"@.len());
    assert("length"@.len() != "replace"@.len());
    assert("count"@.len() != "replace"@.len());
    assert("default"@[0] != "replace"@[0]);
    assert("d"@.len() != "replace"@.len());
    assert("tojson"@.len() != "replace"@.len());
    assert("to_json"@[0] != "replace"@[0]);
    assert("join"@.len() != "replace"@.len());
    assert("first"@.len() != "replace"@.len());
    assert("last"@.len() != "replace"@.len());
    assert("upper"@.len() != "replace"@.len());
    assert("lower"@.len() != "replace"@.len());
    assert("capitalize"@.len() != "replace"@.len());
    assert("title"@.len() != "replace"@.len());
    assert("list"@.len() != "replace"@.len());
    assert("reverse"@[2] != "replace"@[2]);
    assert("string"@.len() != "replace"@.len());
    assert("str"@.len() != "replace"@.len());
    assert("safe"@.len() != "replace"@.len());
    assert("e"@.len() != "replace"@.len());
    assert("escape"@.len() != "replace"@.len());
    assert("forceescape"@.len() != "replace"@.len());
    assert("int"@.len() != "replace"@.len());
    assert("float"@.len() != "replace"@.len());
    assert("abs"@.len() != "replace"@.len());
}

/// A text in which something is replaced by itself stays as it is, and so does one that does not
/// hold it.
pub proof fn replacing_by_the_same_changes_nothing(
    h: Host,
    s: Seq<char>,
    from: Seq<char>,
    to: Seq<char>,
)
    requires
        from.len() > 0,
    ensures
        filter_of(h, "replace"@, Val::Str(s), seq![Val::Str(from), Val::Str(from)]) == Ok::<
            Val,
            Seq<char>,
        >(Val::Str(s)),
        binary_of(h, BinaryOp::In, Val::Str(from), Val::Str(s)) == Val::Bool(false) ==> filter_of(
            h,
            "replace"@,
            Val::Str(s),
            seq![Val::Str(from), Val::Str(to)],
        ) == Ok::<Val, Seq<char>>(Val::Str(s)),
        filter_of(h, "replace"@, Val::Str(from), seq![Val::Str(from), Val::Str(to)]) == Ok::<
            Val,
            Seq<char>,
        >(Val::Str(to)),
{
    replace_filter_is_found();
    joined_split(s, from);
    reveal_with_fuel(joined, 3);
    // The whole text is what is replaced.
    index_from_is_first(from, from, 0);
    assert(from.subrange(0, from.len() as int) =~= from);
    assert(crate::text::occurs_at(from, from, 0));
    assert(crate::text::index_of(from, from) == Some(0nat));
    let none = Seq::<char>::empty();
    assert(from.take(0) =~= none);
    assert(from.skip(from.len() as int) =~= none);
    index_from_is_first(none, from, 0);
    assert(crate::text::index_of(none, from) is None);
    assert(split_on(none, from) =~= seq![none]);
    assert(split_on(from, from) =~= seq![none] + seq![none]);
    assert((seq![none] + seq![none]).drop_last() =~= seq![none]);
    assert(none + to + none =~= to);
}

proof fn abs_filter_is_found()
    ensures
        forall|h: Host, n: u64, args: Seq<Val>|
            #[trigger] filter_of(h, "abs"@, Val::Num(n), args) == Ok::<Val, Seq<char>>(
                Val::Num(super::number::magnitude(n)),
            ),
{
    reveal_strlit("abs");
    reveal_strlit("__slice");
    reveal_strlit("trim");
    reveal_strlit("strip");
    reveal_strlit("length");
    reveal_strlit("count");
    reveal_strlit("default");
    reveal_strlit("d");
    reveal_strlit("tojson");
    reveal_strlit("to_json");
    reveal_strlit("join");
    reveal_strlit("first");
    reveal_strlit("last");
    reveal_strlit("upper");
    reveal_strlit("lower");
    reveal_strlit("capitalize");
    reveal_strlit("title");
    reveal_strlit("list");
    reveal_strlit("reverse");
    reveal_strlit("string");
    reveal_strlit("str");
    reveal_strlit("safe");
    reveal_strlit("e");
    reveal_strlit("escape");
    reveal_strlit("forceescape");
    reveal_strlit("int");
    reveal_strlit("float");
    assert("__slice"@.len() != "abs"@.len());
    assert("trim"@.len() != "abs"@.len());
    assert("strip"@.len() != "abs"@.len());
    assert("length"@.len() != "abs"@.len());
    assert("count"@.len() != "abs"@.len());
    assert("default"@.len() != "abs"@.len());
    assert("d"@.len() != "abs"@.len());
    assert("tojson"@.len() != "abs"@.len());
    assert("to_json"@.len() != "abs"@.len());
    assert("join"@.len() != "abs"@.len());
    assert("first"@.len() != "abs"@.len());
    assert("last"@.len() != "abs"@.len());
    assert("upper"@.len() != "abs"@.len());
    assert("lower"@.len() != "abs"@.len());
    assert("capitalize"@.len() != "abs"@.len());
    assert("title"@.len() != "abs"@.len());
    assert("list"@.len() != "abs"@.len());
    assert("reverse"@.len() != "abs"@.len());
    assert("string"@.len() != "abs"@.len());
    assert("str"@[0] != "abs"@[0]);
    assert("safe"@.len() != "abs"@.len());
    assert("e"@.len() != "abs"@.len());
    assert("escape"@.len() != "abs"@.len());
    assert("forceescape"@.len() != "abs"@.len());
    assert("int"@[0] != "abs"@[0]);
    assert("float"@.len() != "abs"@.len());
}

/// A number and its negation have one magnitude, which is not below zero.
pub proof fn magnitudes_have_no_sign(h: Host, n: u64, args: Seq<Val>)
    ensures
        filter_of(h, "abs"@, unary_of(h, UnaryOp::Neg, Val::Num(n)), args) == filter_of(
            h,
            "abs"@,
            Val::Num(n),
            args,
        ),
        n < SIGN_BIT ==> filter_of(h, "abs"@, Val::Num(n), args) == Ok::<Val, Seq<char>>(
            Val::Num(n),
        ),
{
    abs_filter_is_found();
}

proof fn map_filter_is_found()
    ensures
        forall|h: Host, a: Seq<Val>, args: Seq<Val>|
            #[trigger] filter_of(h, "map"@, Val::List(a), args) == Ok::<Val, Seq<char>>(
                Val::List(super::ops::attrs(h, a, text_of(h, nth(args, 0)))),
            ),
{
    reveal_strlit("map");
    reveal_strlit("__slice");
    reveal_strlit("trim");
    reveal_strlit("strip");
    reveal_strlit("length");
    reveal_strlit("count");
    reveal_strlit("default");
    reveal_strlit("d");
    reveal_strlit("tojson");
    reveal_strlit("to_json");
    reveal_strlit("join");
    reveal_strlit("first");
    reveal_strlit("last");
    reveal_strlit("upper");
    reveal_strlit("lower");
    reveal_strlit("capitalize");
    reveal_strlit("title");
    reveal_strlit("list");
    reveal_strlit("reverse");
    reveal_strlit("string");
    reveal_strlit("str");
    reveal_strlit("safe");
    reveal_strlit("e");
    reveal_strlit("escape");
    reveal_strlit("forceescape");
    reveal_strlit("int");
    reveal_strlit("float");
    reveal_strlit("abs");
    reveal_strlit("replace");
    reveal_strlit("items");
    reveal_strlit("dictsort");
    reveal_strlit("indent");
    assert("__slice"@.len() != "map"@.len());
    assert("trim"@.len() != "map"@.len());
    assert("strip"@.len() != "map"@.len());
    assert("length"@.len() != "map"@.len());
    assert("count"@.len() != "map"@.len());
    assert("default"@.len() != "map"@.len());
    assert("d"@.len() != "map"@.len());
    assert("tojson"@.len() != "map"@.len());
    assert("to_json"@.len() != "map"@.len());
    assert("join"@.len() != "map"@.len());
    assert("first"@.len() != "map"@.len());
    assert("last"@.len() != "map"@.len());
    assert("upper"@.len() != "map"@.len());
    assert("lower"@.len() != "map"@.len());
    assert("capitalize"@.len() != "map"@.len());
    assert("title"@.len() != "map"@.len());
    assert("list"@.len() != "map"@.len());
    assert("reverse"@.len() != "map"@.len());
    assert("string"@.len() != "map"@.len());
    assert("str"@[0] != "map"@[0]);
    assert("safe"@.len() != "map"@.len());
    assert("e"@.len() != "map"@.len());
    assert("escape"@.len() != "map"@.len());
    assert("forceescape"@.len() != "map"@.len());
    assert("int"@[0] != "map"@[0]);
    assert("float"@.len() != "map"@.len());
    assert("abs"@[0] != "map"@[0]);
    assert("replace"@.len() != "map"@.len());
    assert("items"@.len() != "map"@.len());
    assert("dictsort"@.len() != "map"@.len());
    assert("indent"@.len() != "map"@.len());
}

/// `map` takes the same attribute of every value, in their order.
pub proof fn map_takes_an_attribute_of_each(h: Host, a: Seq<Val>, key: Seq<char>, i: int)
    requires
        0 <= i < a.len(),
    ensures
        ({
            let r = filter_of(h, "map"@, Val::List(a), seq![Val::Str(key)]);
            &&& r is Ok && r->Ok_0 is List
            &&& r->Ok_0->List_0.len() == a.len()
            &&& r->Ok_0->List_0[i] == attr_of(h, a[i], key)
        }),
{
    map_filter_is_found();
}

// ----------------------------------------------------------------------------------- range

/// A range starts at its start, goes on by its step, and stays below its end; it stops only where
/// the next step would not.
pub proof fn a_range_goes_on_by_its_step(h: Host, v: u64, end: u64, step: u64, n: nat, i: int)
    requires
        0 <= i < range_from(h, v, end, step, n).len(),
    ensures
        range_from(h, v, end, step, n).len() <= n,
        range_from(h, v, end, step, n)[0] == Val::Num(v),
        binary_of(h, BinaryOp::Lt, range_from(h, v, end, step, n)[i], Val::Num(end)) == Val::Bool(
            true,
        ),
        i + 1 < range_from(h, v, end, step, n).len() ==> range_from(h, v, end, step, n)[i + 1]
            == Val::Num((h.arith)(NumOp::Add, range_from(h, v, end, step, n)[i]->Num_0, step)),
        i + 1 == range_from(h, v, end, step, n).len() && i + 1 < n ==> binary_of(
            h,
            BinaryOp::Lt,
            Val::Num((h.arith)(NumOp::Add, range_from(h, v, end, step, n)[i]->Num_0, step)),
            Val::Num(end),
        ) == Val::Bool(false),
    decreases n,
{
    reveal_with_fuel(range_from, 2);
    let w = (h.arith)(NumOp::Add, v, step);
    let rest = range_from(h, w, end, step, (n - 1) as nat);
    if i > 0 {
        a_range_goes_on_by_its_step(h, w, end, step, (n - 1) as nat, i - 1);
    } else if rest.len() > 0 {
        a_range_goes_on_by_its_step(h, w, end, step, (n - 1) as nat, 0);
    }
}

} // verus!
