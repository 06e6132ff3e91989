//! What the statements and the grammar of templates mean, as relations between templates, scopes
//! and what is written.

use vstd::prelude::*;

use super::eval::{ev, loop_map, run, run_branch, run_node};
use super::lex::Token;
use super::nodes::Nd;
use super::number::Host;
use super::ops::unary_of;
use super::parse::{
    add_op, add_rest, ahead, bin, comparison, mul_op, mul_rest, p_additive, p_compare, p_multiplicative,
    p_not, p_unary, BinaryOp, Ex, Parse, UnaryOp,
};
use super::scope::{assign_in, get_in, set_then_get, Frames};
use super::value::{
    iterated, keys_ascend, put_key, put_key_keeps_order, put_key_then_lookup, text_of, Val,
};
use crate::dict::{key_from_is_first, lookup};
use crate::text::{index_from_is_first, text_less_irreflexive, trimmed};

verus! {

// ------------------------------------------------------------------------------ statements

/// Statements follow each other: what the first ones write comes first, and the others see what
/// those assigned.
pub proof fn statements_follow_each_other(h: Host, a: Seq<Nd>, b: Seq<Nd>, s: Frames)
    ensures
        run(h, a + b, (a + b).len(), s) == match run(h, a, a.len(), s) {
            Err(m) => Err(m),
            Ok((t, o)) => match run(h, b, b.len(), t) {
                Err(m) => Err(m),
                Ok((u, p)) => Ok((u, o + p)),
            },
        },
{
    go_on(h, a, b, b.len(), s);
}

proof fn same_start(h: Host, a: Seq<Nd>, b: Seq<Nd>, n: nat, s: Frames)
    requires
        n <= a.len(),
        n <= b.len(),
        forall|i: int| 0 <= i < n ==> #[trigger] a[i] == b[i],
    ensures
        run(h, a, n, s) == run(h, b, n, s),
    decreases n,
{
    if n > 0 {
        same_start(h, a, b, (n - 1) as nat, s);
        assert(a[n - 1] == b[n - 1]);
    }
}

proof fn go_on(h: Host, a: Seq<Nd>, b: Seq<Nd>, n: nat, s: Frames)
    requires
        n <= b.len(),
    ensures
        run(h, a + b, a.len() + n, s) == match run(h, a, a.len(), s) {
            Err(m) => Err(m),
            Ok((t, o)) => match run(h, b, n, t) {
                Err(m) => Err(m),
                Ok((u, p)) => Ok((u, o + p)),
            },
        },
    decreases n,
{
    if n > 0 {
        go_on(h, a, b, (n - 1) as nat, s);
        assert((a + b)[a.len() + n - 1] == b[n - 1]);
        match run(h, a, a.len(), s) {
            Ok((t, o)) => match run(h, b, (n - 1) as nat, t) {
                Ok((u, p)) => match run_node(h, b[n - 1], u) {
                    Ok((w, q)) => {
                        assert((o + p) + q =~= o + (p + q));
                    },
                    Err(_) => {},
                },
                Err(_) => {},
            },
            Err(_) => {},
        }
    } else {
        same_start(h, a + b, a, a.len(), s);
        match run(h, a, a.len(), s) {
            Ok((t, o)) => {
                assert(o + Seq::<char>::empty() =~= o);
            },
            Err(_) => {},
        }
    }
}

/// A text is written as it is, and an output as the text of its value.
pub proof fn outputs_are_written(h: Host, t: Seq<char>, e: Ex, s: Frames)
    ensures
        run_node(h, Nd::Text(t), s) == Ok::<(Frames, Seq<char>), Seq<char>>((s, t)),
        ev(h, e, s) matches Ok((v, u)) ==> run_node(h, Nd::Output(e), s) == Ok::<
            (Frames, Seq<char>),
            Seq<char>,
        >((u, text_of(h, v))),
{
}

/// Of the branches of a condition the first one that holds is run, and else the last resort.
pub proof fn the_first_branch_that_holds_is_run(
    h: Host,
    c: Ex,
    body: Seq<Nd>,
    rest: Seq<(Ex, Seq<Nd>)>,
    or_else: Seq<Nd>,
    s: Frames,
)
    requires
        ev(h, c, s) is Ok,
    ensures
        ({
            let (v, t) = ev(h, c, s)->Ok_0;
            run_node(h, Nd::If(seq![(c, body)] + rest, or_else), s) == if unary_of(
                h,
                UnaryOp::Not,
                v,
            ) == Val::Bool(false) {
                run(h, body, body.len(), t)
            } else {
                run_node(h, Nd::If(rest, or_else), t)
            }
        }),
        run_node(h, Nd::If(Seq::empty(), or_else), s) == run(h, or_else, or_else.len(), s),
{
    let all = seq![(c, body)] + rest;
    let nd = Nd::If(all, or_else);
    assert(all[0] == (c, body));
    let (v, t) = ev(h, c, s)->Ok_0;
    branches_shift(h, (c, body), rest, or_else, 0, t);
    reveal_with_fuel(run_branch, 2);
}

proof fn branches_shift(
    h: Host,
    first: (Ex, Seq<Nd>),
    rest: Seq<(Ex, Seq<Nd>)>,
    or_else: Seq<Nd>,
    i: nat,
    s: Frames,
)
    ensures
        run_branch(h, Nd::If(seq![first] + rest, or_else), i + 1, s) == run_branch(
            h,
            Nd::If(rest, or_else),
            i,
            s,
        ),
    decreases rest.len() - i,
{
    let all = seq![first] + rest;
    if i < rest.len() {
        assert(all[i as int + 1] == rest[i as int]);
        match ev(h, rest[i as int].0, s) {
            Ok((v, t)) => {
                branches_shift(h, first, rest, or_else, i + 1, t);
            },
            Err(_) => {},
        }
    }
}

/// A loop over nothing runs what stands in its place.
pub proof fn a_loop_over_nothing_runs_its_else(
    h: Host,
    names: Seq<Seq<char>>,
    over: Ex,
    body: Seq<Nd>,
    or_else: Seq<Nd>,
    s: Frames,
)
    requires
        ev(h, over, s) matches Ok((v, t)) && iterated(v).len() == 0,
    ensures
        run_node(h, Nd::For(names, over, body, or_else), s) == run(
            h,
            or_else,
            or_else.len(),
            ev(h, over, s)->Ok_0.1,
        ),
{
}

proof fn put_key_keeps_others(m: Seq<(Seq<char>, Val)>, k: Seq<char>, v: Val, o: Seq<char>)
    requires
        keys_ascend(m),
        o != k,
    ensures
        lookup(put_key(m, k, v), o) == lookup(m, o),
        keys_ascend(put_key(m, k, v)),
{
    let r = put_key(m, k, v);
    put_key_keeps_order(m, k, v);
    key_from_is_first(m, o, 0);
    key_from_is_first(r, o, 0);
    match lookup(m, o) {
        Some(x) => {
            let i = crate::dict::key_at(m, o)->0 as int;
            assert(r.contains(m[i]));
            let w = choose|w: int| 0 <= w < r.len() && r[w] == m[i];
            let j = crate::dict::key_at(r, o)->0 as int;
            if j < w {
                text_less_irreflexive(r[j].0);
            }
        },
        None => {
            if lookup(r, o) is Some {
                let j = crate::dict::key_at(r, o)->0 as int;
                assert(r[j] == (k, v) || m.contains(r[j]));
                let z = choose|z: int| 0 <= z < m.len() && m[z] == r[j];
                assert(m[z].0 == o);
            }
        },
    }
}

/// What a loop tells of itself: the number of the round, from one and from zero, how many are left,
/// whether it is the first or the last, and how many there are.
pub proof fn a_loop_tells_its_round(h: Host, i: nat, n: nat)
    requires
        i < n,
    ensures
        ({
            let m = loop_map(h, i, n);
            &&& lookup(m, "index"@) == Some(Val::Num(h.whole(i + 1)))
            &&& lookup(m, "index0"@) == Some(Val::Num(h.whole(i)))
            &&& lookup(m, "revindex"@) == Some(Val::Num(h.whole((n - i) as nat)))
            &&& lookup(m, "revindex0"@) == Some(Val::Num(h.whole((n - i - 1) as nat)))
            &&& lookup(m, "first"@) == Some(Val::Bool(i == 0))
            &&& lookup(m, "last"@) == Some(Val::Bool(i == n - 1))
            &&& lookup(m, "length"@) == Some(Val::Num(h.whole(n)))
        }),
{
    let (k0, k1, k2, k3, k4, k5, k6) = (
        "index0"@,
        "index"@,
        "revindex"@,
        "revindex0"@,
        "first"@,
        "last"@,
        "length"@,
    );
    reveal_strlit("index0");
    reveal_strlit("index");
    reveal_strlit("revindex");
    reveal_strlit("revindex0");
    reveal_strlit("first");
    reveal_strlit("last");
    reveal_strlit("length");
    assert(k0.len() == 6 && k1.len() == 5 && k2.len() == 8 && k3.len() == 9 && k4.len() == 5
        && k5.len() == 4 && k6.len() == 6);
    assert(k0[0] != k6[0] && k1[0] != k4[0]);
    let v0 = Val::Num(h.whole(i));
    let v1 = Val::Num(h.whole(i + 1));
    let v2 = Val::Num(h.whole((n - i) as nat));
    let v3 = Val::Num(h.whole((n - i - 1) as nat));
    let v4 = Val::Bool(i == 0);
    let v5 = Val::Bool(i + 1 == n);
    let v6 = Val::Num(h.whole(n));
    let m0 = put_key(Seq::empty(), k0, v0);
    let m1 = put_key(m0, k1, v1);
    let m2 = put_key(m1, k2, v2);
    let m3 = put_key(m2, k3, v3);
    let m4 = put_key(m3, k4, v4);
    let m5 = put_key(m4, k5, v5);
    let m6 = put_key(m5, k6, v6);
    assert(m6 == loop_map(h, i, n));
    put_key_keeps_order(Seq::empty(), k0, v0);
    put_key_then_lookup(Seq::empty(), k0, v0);
    put_key_then_lookup(m0, k1, v1);
    put_key_keeps_others(m0, k1, v1, k0);
    put_key_then_lookup(m1, k2, v2);
    put_key_keeps_others(m1, k2, v2, k0);
    put_key_keeps_others(m1, k2, v2, k1);
    put_key_then_lookup(m2, k3, v3);
    put_key_keeps_others(m2, k3, v3, k0);
    put_key_keeps_others(m2, k3, v3, k1);
    put_key_keeps_others(m2, k3, v3, k2);
    put_key_then_lookup(m3, k4, v4);
    put_key_keeps_others(m3, k4, v4, k0);
    put_key_keeps_others(m3, k4, v4, k1);
    put_key_keeps_others(m3, k4, v4, k2);
    put_key_keeps_others(m3, k4, v4, k3);
    put_key_then_lookup(m4, k5, v5);
    put_key_keeps_others(m4, k5, v5, k0);
    put_key_keeps_others(m4, k5, v5, k1);
    put_key_keeps_others(m4, k5, v5, k2);
    put_key_keeps_others(m4, k5, v5, k3);
    put_key_keeps_others(m4, k5, v5, k4);
    put_key_then_lookup(m5, k6, v6);
    put_key_keeps_others(m5, k6, v6, k0);
    put_key_keeps_others(m5, k6, v6, k1);
    put_key_keeps_others(m5, k6, v6, k2);
    put_key_keeps_others(m5, k6, v6, k3);
    put_key_keeps_others(m5, k6, v6, k4);
    put_key_keeps_others(m5, k6, v6, k5);
}

/// A name that was assigned stands for its value from then on; nothing is written.
pub proof fn an_assigned_name_stands_for_its_value(h: Host, name: Seq<char>, e: Ex, s: Frames)
    requires
        !name.contains('.'),
        ev(h, e, s) matches Ok((v, t)) && t.len() > 0 && forall|i: int|
            0 <= i < t.len() ==> keys_ascend(#[trigger] t[i]),
    ensures
        ({
            let r = run_node(h, Nd::Assign(seq![name], e), s);
            let v = ev(h, e, s)->Ok_0.0;
            &&& r is Ok
            &&& r->Ok_0.1 == Seq::<char>::empty()
            &&& get_in(r->Ok_0.0, trimmed(name)) == Some(v)
        }),
{
    let (v, t) = ev(h, e, s)->Ok_0;
    index_from_is_first(name, seq!['.'], 0);
    if crate::text::index_of(name, seq!['.']) is Some {
        let i = crate::text::index_of(name, seq!['.'])->0 as int;
        assert(name.subrange(i, i + 1)[0] == '.');
        assert(name[i] == '.');
    }
    set_then_get(t, trimmed(name), v);
}

/// What the body of a block writes becomes the value of its name, and is not written.
pub proof fn a_block_becomes_a_value(h: Host, name: Seq<char>, body: Seq<Nd>, s: Frames)
    requires
        run(h, body, body.len(), s) is Ok,
    ensures
        ({
            let (t, o) = run(h, body, body.len(), s)->Ok_0;
            run_node(h, Nd::SetBlock(name, body), s) == Ok::<(Frames, Seq<char>), Seq<char>>(
                (assign_in(t, name, Val::Str(o)), Seq::empty()),
            )
        }),
{
}

// --------------------------------------------------------------------------------- grammar

/// The signs of comparisons mean what they look like.
pub proof fn signs_of_comparisons(t: Seq<Token>, p: nat)
    requires
        p < t.len(),
    ensures
        t[p as int] == Token::Op("=="@) ==> comparison(t, p) == Some(BinaryOp::Eq),
        t[p as int] == Token::Op("!="@) ==> comparison(t, p) == Some(BinaryOp::Ne),
        t[p as int] == Token::Op("<="@) ==> comparison(t, p) == Some(BinaryOp::Le),
        t[p as int] == Token::Op(">="@) ==> comparison(t, p) == Some(BinaryOp::Ge),
        t[p as int] == Token::Op("<"@) ==> comparison(t, p) == Some(BinaryOp::Lt),
        t[p as int] == Token::Op(">"@) ==> comparison(t, p) == Some(BinaryOp::Gt),
{
    reveal_strlit("==");
    reveal_strlit("!=");
    reveal_strlit("<=");
    reveal_strlit(">=");
    reveal_strlit("<");
    reveal_strlit(">");
    assert("=="@[0] == '=' && "!="@[0] == '!' && "<="@[0] == '<' && ">="@[0] == '>');
    assert("<"@[0] == '<' && ">"@[0] == '>' && "<"@.len() == 1 && ">"@.len() == 1);
    assert("=="@.len() == 2 && "!="@.len() == 2 && "<="@.len() == 2 && ">="@.len() == 2);
}

pub proof fn signs_of_sums_and_products(t: Seq<Token>, p: nat)
    requires
        p < t.len(),
    ensures
        t[p as int] == Token::Op("+"@) ==> add_op(t, p) == Some(BinaryOp::Plus),
        t[p as int] == Token::Op("-"@) ==> add_op(t, p) == Some(BinaryOp::Minus),
        t[p as int] == Token::Op("~"@) ==> add_op(t, p) == Some(BinaryOp::Concat),
        t[p as int] == Token::Op("*"@) ==> mul_op(t, p) == Some(BinaryOp::Times),
        t[p as int] == Token::Op("//"@) ==> mul_op(t, p) == Some(BinaryOp::FloorDiv),
        t[p as int] == Token::Op("/"@) ==> mul_op(t, p) == Some(BinaryOp::Div),
        t[p as int] == Token::Op("%"@) ==> mul_op(t, p) == Some(BinaryOp::Rem),
{
    reveal_strlit("+");
    reveal_strlit("-");
    reveal_strlit("~");
    reveal_strlit("*");
    reveal_strlit("//");
    reveal_strlit("/");
    reveal_strlit("%");
    assert("+"@[0] == '+' && "-"@[0] == '-' && "~"@[0] == '~' && "*"@[0] == '*' && "/"@[0] == '/'
        && "%"@[0] == '%');
    assert("//"@.len() == 2 && "/"@.len() == 1 && "*"@.len() == 1 && "%"@.len() == 1);
}

/// Whether a parser reads `x` from `p` up to `q`.
pub open spec fn reads(r: Parse, t: Seq<Token>, p: nat, x: Ex, q: nat) -> bool {
    r == Ok::<(Ex, nat), Seq<char>>((x, q)) && p < q <= t.len()
}

/// Products bind more tightly than sums, and sums go from left to right: `x - y - z`, each a
/// product, is `(x - y) - z`.
pub proof fn sums_go_from_left_to_right(
    h: Host,
    t: Seq<Token>,
    p: nat,
    x: Ex,
    q: nat,
    y: Ex,
    r: nat,
    z: Ex,
    s: nat,
)
    requires
        reads(p_multiplicative(h, t, p), t, p, x, q),
        q < t.len(),
        t[q as int] == Token::Op("-"@),
        reads(p_multiplicative(h, t, q + 1), t, q + 1, y, r),
        r < t.len(),
        t[r as int] == Token::Op("-"@),
        reads(p_multiplicative(h, t, r + 1), t, r + 1, z, s),
        add_op(t, s) is None,
    ensures
        p_additive(h, t, p) == Ok::<(Ex, nat), Seq<char>>(
            (bin(BinaryOp::Minus, bin(BinaryOp::Minus, x, y), z), s),
        ),
{
    signs_of_sums_and_products(t, q);
    signs_of_sums_and_products(t, r);
    reveal(p_multiplicative);
    reveal(p_additive);
    reveal(add_rest);
    assert(ahead(p_multiplicative(h, t, p), p, t) == p_multiplicative(h, t, p));
    assert(p_additive(h, t, p) == add_rest(h, t, q, x));
    assert(ahead(p_multiplicative(h, t, q + 1), q + 1, t) == p_multiplicative(h, t, q + 1));
    assert(add_rest(h, t, q, x) == add_rest(h, t, r, bin(BinaryOp::Minus, x, y)));
    assert(ahead(p_multiplicative(h, t, r + 1), r + 1, t) == p_multiplicative(h, t, r + 1));
    let all = bin(BinaryOp::Minus, bin(BinaryOp::Minus, x, y), z);
    assert(add_rest(h, t, r, bin(BinaryOp::Minus, x, y)) == add_rest(h, t, s, all));
}

/// Products go from left to right: `x / y / z` is `(x / y) / z`.
pub proof fn products_go_from_left_to_right(
    h: Host,
    t: Seq<Token>,
    p: nat,
    x: Ex,
    q: nat,
    y: Ex,
    r: nat,
    z: Ex,
    s: nat,
)
    requires
        reads(p_unary(h, t, p), t, p, x, q),
        q < t.len(),
        t[q as int] == Token::Op("/"@),
        reads(p_unary(h, t, q + 1), t, q + 1, y, r),
        r < t.len(),
        t[r as int] == Token::Op("/"@),
        reads(p_unary(h, t, r + 1), t, r + 1, z, s),
        mul_op(t, s) is None,
    ensures
        p_multiplicative(h, t, p) == Ok::<(Ex, nat), Seq<char>>(
            (bin(BinaryOp::Div, bin(BinaryOp::Div, x, y), z), s),
        ),
{
    signs_of_sums_and_products(t, q);
    signs_of_sums_and_products(t, r);
    reveal(p_unary);
    reveal(p_multiplicative);
    reveal(mul_rest);
    assert(ahead(p_unary(h, t, p), p, t) == p_unary(h, t, p));
    assert(p_multiplicative(h, t, p) == mul_rest(h, t, q, x));
    assert(ahead(p_unary(h, t, q + 1), q + 1, t) == p_unary(h, t, q + 1));
    assert(mul_rest(h, t, q, x) == mul_rest(h, t, r, bin(BinaryOp::Div, x, y)));
    assert(ahead(p_unary(h, t, r + 1), r + 1, t) == p_unary(h, t, r + 1));
    let all = bin(BinaryOp::Div, bin(BinaryOp::Div, x, y), z);
    assert(mul_rest(h, t, r, bin(BinaryOp::Div, x, y)) == mul_rest(h, t, s, all));
}

/// A comparison takes a sum on either side.
pub proof fn comparisons_take_sums(h: Host, t: Seq<Token>, p: nat, x: Ex, q: nat, y: Ex, r: nat)
    requires
        reads(p_additive(h, t, p), t, p, x, q),
        q < t.len(),
        t[q as int] == Token::Op("<"@),
        reads(p_additive(h, t, q + 1), t, q + 1, y, r),
    ensures
        p_compare(h, t, p) == Ok::<(Ex, nat), Seq<char>>((bin(BinaryOp::Lt, x, y), r)),
{
    signs_of_comparisons(t, q);
    reveal(p_additive);
    reveal(p_compare);
    assert(ahead(p_additive(h, t, p), p, t) == p_additive(h, t, p));
    assert(ahead(p_additive(h, t, q + 1), q + 1, t) == p_additive(h, t, q + 1));
}

/// `not` takes a whole comparison.
pub proof fn not_takes_a_comparison(h: Host, t: Seq<Token>, p: nat, x: Ex, q: nat)
    requires
        p + 1 < t.len(),
        t[p as int] == Token::Name("not"@),
        t[p as int + 1] != Token::Name("not"@),
        reads(p_compare(h, t, p + 1), t, p + 1, x, q),
    ensures
        p_not(h, t, p) == Ok::<(Ex, nat), Seq<char>>((Ex::Unary(UnaryOp::Not, Box::new(x)), q)),
{
    reveal(p_compare);
    reveal(p_not);
    assert(p_not(h, t, p + 1) == p_compare(h, t, p + 1));
    assert(ahead(p_not(h, t, p + 1), p + 1, t) == p_compare(h, t, p + 1));
}

} // verus!
