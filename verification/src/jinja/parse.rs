//! Expressions.

use vstd::prelude::*;
use vstd::string::*;

use super::lex::{lex_from, shown, tokens, Tok, Token};
use super::number::{Host, Maths, NumOp};
use super::value::{Val, Value};
use crate::text::{cat2, cat3, cat4, debug_text, own, quoted, same};

verus! {

#[derive(Debug, Clone, Copy, PartialEq, Eq, Structural)]
pub enum UnaryOp {
    Not,
    Neg,
}

#[derive(Debug, Clone, Copy, PartialEq, Eq, Structural)]
pub enum BinaryOp {
    Or,
    And,
    Eq,
    Ne,
    Le,
    Ge,
    Lt,
    Gt,
    In,
    Plus,
    Minus,
    Concat,
    Times,
    FloorDiv,
    Div,
    Rem,
}

#[derive(Debug)]
pub enum Expr {
    Lit(Value),
    Var(String),
    Attr(Box<Expr>, String),
    Index(Box<Expr>, Box<Expr>),
    Call(Box<Expr>, Vec<Expr>, Vec<Keyword>),
    Filter(Box<Expr>, String, Vec<Expr>),
    Test(Box<Expr>, String, bool, Option<Box<Expr>>),
    Unary(UnaryOp, Box<Expr>),
    Binary(BinaryOp, Box<Expr>, Box<Expr>),
    /// Condition, then, else.
    Ternary(Box<Expr>, Box<Expr>, Box<Expr>),
    List(Vec<Expr>),
    Object(Vec<Pair>),
}

/// An argument given by name.
#[derive(Debug)]
pub struct Keyword {
    pub name: String,
    pub value: Expr,
}

/// An entry of a map expression.
#[derive(Debug)]
pub struct Pair {
    pub key: Expr,
    pub value: Expr,
}

/// The mathematical value of an [`Expr`].
pub enum Ex {
    Lit(Val),
    Var(Seq<char>),
    Attr(Box<Ex>, Seq<char>),
    Index(Box<Ex>, Box<Ex>),
    Call(Box<Ex>, Seq<Ex>, Seq<(Seq<char>, Ex)>),
    Filter(Box<Ex>, Seq<char>, Seq<Ex>),
    Test(Box<Ex>, Seq<char>, bool, Option<Box<Ex>>),
    Unary(UnaryOp, Box<Ex>),
    Binary(BinaryOp, Box<Ex>, Box<Ex>),
    Ternary(Box<Ex>, Box<Ex>, Box<Ex>),
    List(Seq<Ex>),
    Object(Seq<(Ex, Ex)>),
}

impl Expr {
    #[verifier::opaque]
    pub open spec fn spec_view(self) -> Ex
        decreases self,
    {
        match self {
            Expr::Lit(v) => Ex::Lit(v@),
            Expr::Var(n) => Ex::Var(n@),
            Expr::Attr(b, n) => Ex::Attr(Box::new(b.spec_view()), n@),
            Expr::Index(b, i) => Ex::Index(Box::new(b.spec_view()), Box::new(i.spec_view())),
            Expr::Call(b, a, k) => Ex::Call(
                Box::new(b.spec_view()),
                Seq::new(
                    a@.len(),
                    |i: int|
                        if 0 <= i < a@.len() {
                            a@[i].spec_view()
                        } else {
                            Ex::Lit(Val::Null)
                        },
                ),
                Seq::new(
                    k@.len(),
                    |i: int|
                        if 0 <= i < k@.len() {
                            (k@[i].name@, k@[i].value.spec_view())
                        } else {
                            (Seq::empty(), Ex::Lit(Val::Null))
                        },
                ),
            ),
            Expr::Filter(b, n, a) => Ex::Filter(
                Box::new(b.spec_view()),
                n@,
                Seq::new(
                    a@.len(),
                    |i: int|
                        if 0 <= i < a@.len() {
                            a@[i].spec_view()
                        } else {
                            Ex::Lit(Val::Null)
                        },
                ),
            ),
            Expr::Test(b, n, neg, arg) => Ex::Test(
                Box::new(b.spec_view()),
                n@,
                neg,
                match arg {
                    Some(a) => Some(Box::new(a.spec_view())),
                    None => None,
                },
            ),
            Expr::Unary(op, b) => Ex::Unary(op, Box::new(b.spec_view())),
            Expr::Binary(op, l, r) => Ex::Binary(
                op,
                Box::new(l.spec_view()),
                Box::new(r.spec_view()),
            ),
            Expr::Ternary(c, x, y) => Ex::Ternary(
                Box::new(c.spec_view()),
                Box::new(x.spec_view()),
                Box::new(y.spec_view()),
            ),
            Expr::List(a) => Ex::List(
                Seq::new(
                    a@.len(),
                    |i: int|
                        if 0 <= i < a@.len() {
                            a@[i].spec_view()
                        } else {
                            Ex::Lit(Val::Null)
                        },
                ),
            ),
            Expr::Object(a) => Ex::Object(
                Seq::new(
                    a@.len(),
                    |i: int|
                        if 0 <= i < a@.len() {
                            (a@[i].key.spec_view(), a@[i].value.spec_view())
                        } else {
                            (Ex::Lit(Val::Null), Ex::Lit(Val::Null))
                        },
                ),
            ),
        }
    }
}

impl View for Expr {
    type V = Ex;

    open spec fn view(&self) -> Ex {
        self.spec_view()
    }
}

/// The views of a list of expressions.
pub open spec fn exs(v: Seq<Expr>) -> Seq<Ex> {
    Seq::new(v.len(), |i: int| v[i]@)
}

/// The views of a list of arguments given by name.
pub open spec fn keywords(v: Seq<Keyword>) -> Seq<(Seq<char>, Ex)> {
    Seq::new(v.len(), |i: int| (v[i].name@, v[i].value@))
}

/// The views of the entries of a map expression.
pub open spec fn pairs(v: Seq<Pair>) -> Seq<(Ex, Ex)> {
    Seq::new(v.len(), |i: int| (v[i].key@, v[i].value@))
}

/// What each kind of expression stands for.
pub proof fn expr_views(e: Expr)
    ensures
        match e {
            Expr::Lit(v) => e@ == Ex::Lit(v@),
            Expr::Var(n) => e@ == Ex::Var(n@),
            Expr::Attr(b, n) => e@ == Ex::Attr(Box::new(b@), n@),
            Expr::Index(b, i) => e@ == Ex::Index(Box::new(b@), Box::new(i@)),
            Expr::Call(b, a, k) => e@ == Ex::Call(Box::new(b@), exs(a@), keywords(k@)),
            Expr::Filter(b, n, a) => e@ == Ex::Filter(Box::new(b@), n@, exs(a@)),
            Expr::Test(b, n, neg, arg) => e@ == Ex::Test(
                Box::new(b@),
                n@,
                neg,
                match arg {
                    Some(a) => Some(Box::new(a@)),
                    None => None,
                },
            ),
            Expr::Unary(op, b) => e@ == Ex::Unary(op, Box::new(b@)),
            Expr::Binary(op, l, r) => e@ == Ex::Binary(op, Box::new(l@), Box::new(r@)),
            Expr::Ternary(c, x, y) => e@ == Ex::Ternary(
                Box::new(c@),
                Box::new(x@),
                Box::new(y@),
            ),
            Expr::List(a) => e@ == Ex::List(exs(a@)),
            Expr::Object(a) => e@ == Ex::Object(pairs(a@)),
        },
{
    reveal(Expr::spec_view);
    match e {
        Expr::Call(b, a, k) => {
            assert(e@->Call_1 =~= exs(a@));
            assert(e@->Call_2 =~= keywords(k@));
        },
        Expr::Filter(b, n, a) => {
            assert(e@->Filter_2 =~= exs(a@));
        },
        Expr::List(a) => {
            assert(e@->List_0 =~= exs(a@));
        },
        Expr::Object(a) => {
            assert(e@->Object_0 =~= pairs(a@));
        },
        _ => {},
    }
}

/// A literal.
pub fn lit(v: Value) -> (r: Expr)
    ensures
        r@ == Ex::Lit(v@),
{
    let r = Expr::Lit(v);
    proof {
        reveal(Expr::spec_view);
    }
    r
}

/// A variable.
pub fn var(n: String) -> (r: Expr)
    ensures
        r@ == Ex::Var(n@),
{
    let r = Expr::Var(n);
    proof {
        reveal(Expr::spec_view);
    }
    r
}

fn attr(b: Expr, n: String) -> (r: Expr)
    ensures
        r@ == Ex::Attr(Box::new(b@), n@),
{
    let r = Expr::Attr(Box::new(b), n);
    proof {
        reveal(Expr::spec_view);
    }
    r
}

fn index(b: Expr, i: Expr) -> (r: Expr)
    ensures
        r@ == Ex::Index(Box::new(b@), Box::new(i@)),
{
    let r = Expr::Index(Box::new(b), Box::new(i));
    proof {
        reveal(Expr::spec_view);
    }
    r
}

fn call(b: Expr, a: Vec<Expr>, k: Vec<Keyword>) -> (r: Expr)
    ensures
        r@ == Ex::Call(Box::new(b@), exs(a@), keywords(k@)),
{
    let r = Expr::Call(Box::new(b), a, k);
    proof {
        reveal(Expr::spec_view);
        assert(r@->Call_1 =~= exs(a@));
        assert(r@->Call_2 =~= keywords(k@));
    }
    r
}

fn filter(b: Expr, n: String, a: Vec<Expr>) -> (r: Expr)
    ensures
        r@ == Ex::Filter(Box::new(b@), n@, exs(a@)),
{
    let r = Expr::Filter(Box::new(b), n, a);
    proof {
        reveal(Expr::spec_view);
        assert(r@->Filter_2 =~= exs(a@));
    }
    r
}

/// The view of an argument that may be missing.
pub open spec fn opt_ex(a: Option<Expr>) -> Option<Box<Ex>> {
    match a {
        Some(x) => Some(Box::new(x@)),
        None => None,
    }
}

fn test(b: Expr, n: String, neg: bool, arg: Option<Expr>) -> (r: Expr)
    ensures
        r@ == Ex::Test(Box::new(b@), n@, neg, opt_ex(arg)),
{
    let boxed = match arg {
        Some(a) => Some(Box::new(a)),
        None => None,
    };
    let r = Expr::Test(Box::new(b), n, neg, boxed);
    proof {
        reveal(Expr::spec_view);
    }
    r
}

fn unary(op: UnaryOp, x: Expr) -> (r: Expr)
    ensures
        r@ == Ex::Unary(op, Box::new(x@)),
{
    let r = Expr::Unary(op, Box::new(x));
    proof {
        reveal(Expr::spec_view);
    }
    r
}

fn binary(op: BinaryOp, x: Expr, y: Expr) -> (r: Expr)
    ensures
        r@ == Ex::Binary(op, Box::new(x@), Box::new(y@)),
{
    let r = Expr::Binary(op, Box::new(x), Box::new(y));
    proof {
        reveal(Expr::spec_view);
    }
    r
}

fn ternary(c: Expr, x: Expr, y: Expr) -> (r: Expr)
    ensures
        r@ == Ex::Ternary(Box::new(c@), Box::new(x@), Box::new(y@)),
{
    let r = Expr::Ternary(Box::new(c), Box::new(x), Box::new(y));
    proof {
        reveal(Expr::spec_view);
    }
    r
}

fn list(a: Vec<Expr>) -> (r: Expr)
    ensures
        r@ == Ex::List(exs(a@)),
{
    let r = Expr::List(a);
    proof {
        reveal(Expr::spec_view);
        assert(r@->List_0 =~= exs(a@));
    }
    r
}

fn object(a: Vec<Pair>) -> (r: Expr)
    ensures
        r@ == Ex::Object(pairs(a@)),
{
    let r = Expr::Object(a);
    proof {
        reveal(Expr::spec_view);
        assert(r@->Object_0 =~= pairs(a@));
    }
    r
}

// ---------------------------------------------------------------------------- the grammar

/// What was read and where reading goes on, or a message.
pub type Parse = Result<(Ex, nat), Seq<char>>;

/// The word at `p`; behind the last one there is only the end.
pub open spec fn tok(t: Seq<Token>, p: nat) -> Token {
    if p < t.len() {
        t[p as int]
    } else {
        Token::End
    }
}

pub open spec fn is_op(t: Seq<Token>, p: nat, op: Seq<char>) -> bool {
    tok(t, p) == Token::Op(op)
}

pub open spec fn is_name(t: Seq<Token>, p: nat, name: Seq<char>) -> bool {
    tok(t, p) == Token::Name(name)
}

/// The message where `op` is missing at `p`.
pub open spec fn missing(h: Host, t: Seq<Token>, p: nat, op: Seq<char>) -> Seq<char> {
    "expected "@ + quoted(op) + ", found "@ + shown(h, tok(t, p))
}

/// `r`, where reading got beyond `p` and not beyond the last word. It always does.
pub open spec fn ahead(r: Parse, p: nat, t: Seq<Token>) -> Parse {
    match r {
        Ok((_, q)) => if p < q <= t.len() {
            r
        } else {
            Err(Seq::empty())
        },
        Err(_) => r,
    }
}

pub open spec fn bin(op: BinaryOp, l: Ex, r: Ex) -> Ex {
    Ex::Binary(op, Box::new(l), Box::new(r))
}

/// `a if c else b`. With no else it yields nothing, which renders as empty.
#[verifier::opaque]
pub open spec fn p_ternary(h: Host, t: Seq<Token>, p: nat) -> Parse
    decreases t.len() - p, 90nat,
{
    match ahead(p_or(h, t, p), p, t) {
        Err(e) => Err(e),
        Ok((lhs, q)) => if is_name(t, q, "if"@) {
            match ahead(p_or(h, t, q + 1), q + 1, t) {
                Err(e) => Err(e),
                Ok((cond, q2)) => if is_name(t, q2, "else"@) {
                    match ahead(p_ternary(h, t, q2 + 1), q2 + 1, t) {
                        Err(e) => Err(e),
                        Ok((other, q3)) => Ok(
                            (
                                Ex::Ternary(Box::new(cond), Box::new(lhs), Box::new(other)),
                                q3,
                            ),
                        ),
                    }
                } else {
                    Ok(
                        (
                            Ex::Ternary(
                                Box::new(cond),
                                Box::new(lhs),
                                Box::new(Ex::Lit(Val::Null)),
                            ),
                            q2,
                        ),
                    )
                },
            }
        } else {
            Ok((lhs, q))
        },
    }
}

#[verifier::opaque]
pub open spec fn p_or(h: Host, t: Seq<Token>, p: nat) -> Parse
    decreases t.len() - p, 80nat,
{
    match ahead(p_and(h, t, p), p, t) {
        Err(e) => Err(e),
        Ok((lhs, q)) => or_rest(h, t, q, lhs),
    }
}

#[verifier::opaque]
pub open spec fn or_rest(h: Host, t: Seq<Token>, p: nat, lhs: Ex) -> Parse
    decreases t.len() - p, 79nat,
{
    if is_name(t, p, "or"@) {
        match ahead(p_and(h, t, p + 1), p + 1, t) {
            Err(e) => Err(e),
            Ok((rhs, q)) => or_rest(h, t, q, bin(BinaryOp::Or, lhs, rhs)),
        }
    } else {
        Ok((lhs, p))
    }
}

#[verifier::opaque]
pub open spec fn p_and(h: Host, t: Seq<Token>, p: nat) -> Parse
    decreases t.len() - p, 70nat,
{
    match ahead(p_not(h, t, p), p, t) {
        Err(e) => Err(e),
        Ok((lhs, q)) => and_rest(h, t, q, lhs),
    }
}

#[verifier::opaque]
pub open spec fn and_rest(h: Host, t: Seq<Token>, p: nat, lhs: Ex) -> Parse
    decreases t.len() - p, 69nat,
{
    if is_name(t, p, "and"@) {
        match ahead(p_not(h, t, p + 1), p + 1, t) {
            Err(e) => Err(e),
            Ok((rhs, q)) => and_rest(h, t, q, bin(BinaryOp::And, lhs, rhs)),
        }
    } else {
        Ok((lhs, p))
    }
}

#[verifier::opaque]
pub open spec fn p_not(h: Host, t: Seq<Token>, p: nat) -> Parse
    decreases t.len() - p, 60nat,
{
    if is_name(t, p, "not"@) {
        match ahead(p_not(h, t, p + 1), p + 1, t) {
            Err(e) => Err(e),
            Ok((x, q)) => Ok((Ex::Unary(UnaryOp::Not, Box::new(x)), q)),
        }
    } else {
        p_compare(h, t, p)
    }
}

/// The comparison at `p`, if any.
pub open spec fn comparison(t: Seq<Token>, p: nat) -> Option<BinaryOp> {
    if is_op(t, p, "=="@) {
        Some(BinaryOp::Eq)
    } else if is_op(t, p, "!="@) {
        Some(BinaryOp::Ne)
    } else if is_op(t, p, "<="@) {
        Some(BinaryOp::Le)
    } else if is_op(t, p, ">="@) {
        Some(BinaryOp::Ge)
    } else if is_op(t, p, "<"@) {
        Some(BinaryOp::Lt)
    } else if is_op(t, p, ">"@) {
        Some(BinaryOp::Gt)
    } else {
        None
    }
}

#[verifier::opaque]
pub open spec fn p_compare(h: Host, t: Seq<Token>, p: nat) -> Parse
    decreases t.len() - p, 50nat,
{
    match ahead(p_additive(h, t, p), p, t) {
        Err(e) => Err(e),
        Ok((lhs, q)) => if comparison(t, q) is Some {
            match ahead(p_additive(h, t, q + 1), q + 1, t) {
                Err(e) => Err(e),
                Ok((rhs, q2)) => Ok((bin(comparison(t, q)->0, lhs, rhs), q2)),
            }
        } else if is_name(t, q, "in"@) {
            match ahead(p_additive(h, t, q + 1), q + 1, t) {
                Err(e) => Err(e),
                Ok((rhs, q2)) => Ok((bin(BinaryOp::In, lhs, rhs), q2)),
            }
        } else if is_name(t, q, "not"@) && is_name(t, q + 1, "in"@) {
            match ahead(p_additive(h, t, q + 2), q + 2, t) {
                Err(e) => Err(e),
                Ok((rhs, q2)) => Ok(
                    (Ex::Unary(UnaryOp::Not, Box::new(bin(BinaryOp::In, lhs, rhs))), q2),
                ),
            }
        } else if is_name(t, q, "is"@) {
            let neg = is_name(t, q + 1, "not"@);
            let q1 = if neg {
                q + 2
            } else {
                q + 1
            };
            match tok(t, q1) {
                // A test with an argument, such as `is equalto(x)`.
                Token::Name(name) => if is_op(t, q1 + 1, "("@) {
                    match ahead(p_ternary(h, t, q1 + 2), q1 + 2, t) {
                        Err(e) => Err(e),
                        Ok((arg, q2)) => if is_op(t, q2, ")"@) {
                            Ok((Ex::Test(Box::new(lhs), name, neg, Some(Box::new(arg))), q2 + 1))
                        } else {
                            Err(missing(h, t, q2, ")"@))
                        },
                    }
                } else {
                    Ok((Ex::Test(Box::new(lhs), name, neg, None), q1 + 1))
                },
                other => Err("expected a test name after `is`, found "@ + shown(h, other)),
            }
        } else {
            Ok((lhs, q))
        },
    }
}

#[verifier::opaque]
pub open spec fn p_additive(h: Host, t: Seq<Token>, p: nat) -> Parse
    decreases t.len() - p, 40nat,
{
    match ahead(p_multiplicative(h, t, p), p, t) {
        Err(e) => Err(e),
        Ok((lhs, q)) => add_rest(h, t, q, lhs),
    }
}

pub open spec fn add_op(t: Seq<Token>, p: nat) -> Option<BinaryOp> {
    if is_op(t, p, "+"@) {
        Some(BinaryOp::Plus)
    } else if is_op(t, p, "-"@) {
        Some(BinaryOp::Minus)
    } else if is_op(t, p, "~"@) {
        Some(BinaryOp::Concat)
    } else {
        None
    }
}

#[verifier::opaque]
pub open spec fn add_rest(h: Host, t: Seq<Token>, p: nat, lhs: Ex) -> Parse
    decreases t.len() - p, 39nat,
{
    match add_op(t, p) {
        Some(op) => match ahead(p_multiplicative(h, t, p + 1), p + 1, t) {
            Err(e) => Err(e),
            Ok((rhs, q)) => add_rest(h, t, q, bin(op, lhs, rhs)),
        },
        None => Ok((lhs, p)),
    }
}

#[verifier::opaque]
pub open spec fn p_multiplicative(h: Host, t: Seq<Token>, p: nat) -> Parse
    decreases t.len() - p, 30nat,
{
    match ahead(p_unary(h, t, p), p, t) {
        Err(e) => Err(e),
        Ok((lhs, q)) => mul_rest(h, t, q, lhs),
    }
}

pub open spec fn mul_op(t: Seq<Token>, p: nat) -> Option<BinaryOp> {
    if is_op(t, p, "*"@) {
        Some(BinaryOp::Times)
    } else if is_op(t, p, "//"@) {
        Some(BinaryOp::FloorDiv)
    } else if is_op(t, p, "/"@) {
        Some(BinaryOp::Div)
    } else if is_op(t, p, "%"@) {
        Some(BinaryOp::Rem)
    } else {
        None
    }
}

#[verifier::opaque]
pub open spec fn mul_rest(h: Host, t: Seq<Token>, p: nat, lhs: Ex) -> Parse
    decreases t.len() - p, 29nat,
{
    match mul_op(t, p) {
        Some(op) => match ahead(p_unary(h, t, p + 1), p + 1, t) {
            Err(e) => Err(e),
            Ok((rhs, q)) => mul_rest(h, t, q, bin(op, lhs, rhs)),
        },
        None => Ok((lhs, p)),
    }
}

#[verifier::opaque]
pub open spec fn p_unary(h: Host, t: Seq<Token>, p: nat) -> Parse
    decreases t.len() - p, 20nat,
{
    if is_op(t, p, "-"@) {
        match ahead(p_unary(h, t, p + 1), p + 1, t) {
            Err(e) => Err(e),
            Ok((x, q)) => Ok((Ex::Unary(UnaryOp::Neg, Box::new(x)), q)),
        }
    } else {
        match ahead(p_primary(h, t, p), p, t) {
            Err(e) => Err(e),
            Ok((x, q)) => postfix_rest(h, t, q, x),
        }
    }
}

/// Attributes, indices, calls and filters behind an expression.
#[verifier::opaque]
pub open spec fn postfix_rest(h: Host, t: Seq<Token>, p: nat, x: Ex) -> Parse
    decreases t.len() - p, 9nat,
{
    if is_op(t, p, "."@) {
        match tok(t, p + 1) {
            Token::Name(n) => postfix_rest(h, t, p + 2, Ex::Attr(Box::new(x), n)),
            other => Err("expected an attribute name, found "@ + shown(h, other)),
        }
    } else if is_op(t, p, "["@) {
        match ahead(p_subscript(h, t, p + 1, x), p + 1, t) {
            Err(e) => Err(e),
            Ok((y, q)) => if is_op(t, q, "]"@) {
                postfix_rest(h, t, q + 1, y)
            } else {
                Err(missing(h, t, q, "]"@))
            },
        }
    } else if is_op(t, p, "("@) {
        match p_args(h, t, p + 1) {
            Err(e) => Err(e),
            Ok((args, kw, q)) => if p + 1 < q <= t.len() {
                postfix_rest(h, t, q, Ex::Call(Box::new(x), args, kw))
            } else {
                Err(Seq::empty())
            },
        }
    } else if is_op(t, p, "|"@) {
        match tok(t, p + 1) {
            Token::Name(n) => if is_op(t, p + 2, "("@) {
                match p_args(h, t, p + 3) {
                    Err(e) => Err(e),
                    Ok((args, _, q)) => if p + 3 < q <= t.len() {
                        postfix_rest(h, t, q, Ex::Filter(Box::new(x), n, args))
                    } else {
                        Err(Seq::empty())
                    },
                }
            } else {
                postfix_rest(h, t, p + 2, Ex::Filter(Box::new(x), n, Seq::empty()))
            },
            other => Err("expected a filter name, found "@ + shown(h, other)),
        }
    } else {
        Ok((x, p))
    }
}

/// A bound of a slice: an expression, unless one of `stops` stands there.
#[verifier::opaque]
pub open spec fn p_bound(h: Host, t: Seq<Token>, p: nat, stop: bool) -> Parse
    decreases t.len() - p, 95nat,
{
    if stop {
        Ok((Ex::Lit(Val::Null), p))
    } else {
        p_ternary(h, t, p)
    }
}

/// `[i]`, `[a:b]`, `[:-1]` and `[::-1]` all appear in real templates. The last of those is
/// how several chat templates walk the history backwards to find the most recent user turn.
#[verifier::opaque]
pub open spec fn p_subscript(h: Host, t: Seq<Token>, p: nat, base: Ex) -> Parse
    decreases t.len() - p, 100nat,
{
    match p_bound(h, t, p, is_op(t, p, ":"@)) {
        Err(e) => Err(e),
        Ok((start, q)) => if !(p <= q <= t.len()) {
            Err(Seq::empty())
        } else if is_op(t, q, ":"@) {
            match p_bound(h, t, q + 1, is_op(t, q + 1, "]"@) || is_op(t, q + 1, ":"@)) {
                Err(e) => Err(e),
                Ok((end, q2)) => if !(q + 1 <= q2 <= t.len()) {
                    Err(Seq::empty())
                } else if is_op(t, q2, ":"@) {
                    match p_bound(h, t, q2 + 1, is_op(t, q2 + 1, "]"@)) {
                        Err(e) => Err(e),
                        Ok((step, q3)) => if !(q2 + 1 <= q3 <= t.len()) {
                            Err(Seq::empty())
                        } else {
                            Ok((slice_of(base, start, end, step), q3))
                        },
                    }
                } else {
                    Ok((slice_of(base, start, end, Ex::Lit(Val::Null)), q2))
                },
            }
        } else {
            Ok((Ex::Index(Box::new(base), Box::new(start)), q))
        },
    }
}

pub open spec fn slice_of(base: Ex, start: Ex, end: Ex, step: Ex) -> Ex {
    Ex::Filter(Box::new(base), "__slice"@, seq![start, end, step])
}

/// The arguments of a call, behind the opening bracket.
#[verifier::opaque]
pub open spec fn p_args(h: Host, t: Seq<Token>, p: nat) -> Result<
    (Seq<Ex>, Seq<(Seq<char>, Ex)>, nat),
    Seq<char>,
>
    decreases t.len() - p, 101nat,
{
    if is_op(t, p, ")"@) {
        Ok((Seq::empty(), Seq::empty(), p + 1))
    } else {
        args_rest(h, t, p, Seq::empty(), Seq::empty())
    }
}

/// A keyword argument is `name=value`, distinguishable only by lookahead.
#[verifier::opaque]
pub open spec fn args_rest(
    h: Host,
    t: Seq<Token>,
    p: nat,
    args: Seq<Ex>,
    kw: Seq<(Seq<char>, Ex)>,
) -> Result<(Seq<Ex>, Seq<(Seq<char>, Ex)>, nat), Seq<char>>
    decreases t.len() - p, 100nat,
{
    let named = tok(t, p) is Name && is_op(t, p + 1, "="@);
    let at = if named {
        p + 2
    } else {
        p
    };
    match ahead(p_ternary(h, t, at), at, t) {
        Err(e) => Err(e),
        Ok((x, q)) => {
            let args2 = if named {
                args
            } else {
                args.push(x)
            };
            let kw2 = if named {
                kw.push((tok(t, p)->Name_0, x))
            } else {
                kw
            };
            if is_op(t, q, ","@) {
                args_rest(h, t, q + 1, args2, kw2)
            } else if is_op(t, q, ")"@) {
                Ok((args2, kw2, q + 1))
            } else {
                Err(missing(h, t, q, ")"@))
            }
        },
    }
}

/// What a bare name stands for.
pub open spec fn named(n: Seq<char>) -> Ex {
    if n == "true"@ || n == "True"@ {
        Ex::Lit(Val::Bool(true))
    } else if n == "false"@ || n == "False"@ {
        Ex::Lit(Val::Bool(false))
    } else if n == "none"@ || n == "None"@ || n == "null"@ {
        Ex::Lit(Val::Null)
    } else {
        Ex::Var(n)
    }
}

#[verifier::opaque]
pub open spec fn p_primary(h: Host, t: Seq<Token>, p: nat) -> Parse
    decreases t.len() - p, 8nat,
{
    match tok(t, p) {
        Token::Num(n) => Ok((Ex::Lit(Val::Num(n)), p + 1)),
        Token::Str(s) => Ok((Ex::Lit(Val::Str(s)), p + 1)),
        Token::Name(n) => Ok((named(n), p + 1)),
        Token::Op(op) => if op == "("@ {
            match ahead(p_ternary(h, t, p + 1), p + 1, t) {
                Err(e) => Err(e),
                // A parenthesised comma list is a tuple; templates only use it to iterate.
                Ok((x, q)) => if is_op(t, q, ","@) {
                    tuple_rest(h, t, q + 1, seq![x])
                } else if is_op(t, q, ")"@) {
                    Ok((x, q + 1))
                } else {
                    Err(missing(h, t, q, ")"@))
                },
            }
        } else if op == "["@ {
            if is_op(t, p + 1, "]"@) {
                Ok((Ex::List(Seq::empty()), p + 2))
            } else {
                items_rest(h, t, p + 1, Seq::empty())
            }
        } else if op == "{"@ {
            if is_op(t, p + 1, "}"@) {
                Ok((Ex::Object(Seq::empty()), p + 2))
            } else {
                pairs_rest(h, t, p + 1, Seq::empty())
            }
        } else {
            Err("unexpected "@ + shown(h, tok(t, p)) + " in expression"@)
        },
        Token::End => Err("unexpected "@ + shown(h, tok(t, p)) + " in expression"@),
    }
}

#[verifier::opaque]
pub open spec fn tuple_rest(h: Host, t: Seq<Token>, p: nat, items: Seq<Ex>) -> Parse
    decreases t.len() - p, 100nat,
{
    if is_op(t, p, ")"@) {
        Ok((Ex::List(items), p + 1))
    } else {
        match ahead(p_ternary(h, t, p), p, t) {
            Err(e) => Err(e),
            Ok((x, q)) => tuple_rest(
                h,
                t,
                if is_op(t, q, ","@) {
                    q + 1
                } else {
                    q
                },
                items.push(x),
            ),
        }
    }
}

#[verifier::opaque]
pub open spec fn items_rest(h: Host, t: Seq<Token>, p: nat, items: Seq<Ex>) -> Parse
    decreases t.len() - p, 100nat,
{
    match ahead(p_ternary(h, t, p), p, t) {
        Err(e) => Err(e),
        Ok((x, q)) => if is_op(t, q, ","@) {
            if is_op(t, q + 1, "]"@) {
                Ok((Ex::List(items.push(x)), q + 2))
            } else {
                items_rest(h, t, q + 1, items.push(x))
            }
        } else if is_op(t, q, "]"@) {
            Ok((Ex::List(items.push(x)), q + 1))
        } else {
            Err(missing(h, t, q, "]"@))
        },
    }
}

#[verifier::opaque]
pub open spec fn pairs_rest(h: Host, t: Seq<Token>, p: nat, items: Seq<(Ex, Ex)>) -> Parse
    decreases t.len() - p, 100nat,
{
    match ahead(p_ternary(h, t, p), p, t) {
        Err(e) => Err(e),
        Ok((k, q)) => if !is_op(t, q, ":"@) {
            Err(missing(h, t, q, ":"@))
        } else {
            match ahead(p_ternary(h, t, q + 1), q + 1, t) {
                Err(e) => Err(e),
                Ok((v, q2)) => if is_op(t, q2, ","@) {
                    if is_op(t, q2 + 1, "}"@) {
                        Ok((Ex::Object(items.push((k, v))), q2 + 2))
                    } else {
                        pairs_rest(h, t, q2 + 1, items.push((k, v)))
                    }
                } else if is_op(t, q2, "}"@) {
                    Ok((Ex::Object(items.push((k, v))), q2 + 1))
                } else {
                    Err(missing(h, t, q2, "}"@))
                },
            }
        },
    }
}

/// The expression that a text stands for.
pub open spec fn parse_expr(h: Host, src: Seq<char>) -> Result<Ex, Seq<char>> {
    match lex_from(h, src, 0) {
        Err(e) => Err(e),
        Ok(t) => match p_ternary(h, t, 0) {
            Err(e) => Err(e),
            Ok((x, q)) => if tok(t, q) is End {
                Ok(x)
            } else {
                Err("trailing input in expression: "@ + shown(h, tok(t, q)))
            },
        },
    }
}

/// What [`add_rest`] is, one step.
proof fn add_rest_step(h: Host, t: Seq<Token>, p: nat, lhs: Ex)
    ensures
        add_rest(h, t, p, lhs) == ({
            match add_op(t, p) {
                Some(op) => match ahead(p_multiplicative(h, t, p + 1), p + 1, t) {
                    Err(e) => Err(e),
                    Ok((rhs, q)) => add_rest(h, t, q, bin(op, lhs, rhs)),
                },
                None => Ok((lhs, p)),
            }
        }),
{
    reveal(add_rest);
    reveal(p_multiplicative);
}

/// What [`mul_rest`] is, one step.
proof fn mul_rest_step(h: Host, t: Seq<Token>, p: nat, lhs: Ex)
    ensures
        mul_rest(h, t, p, lhs) == ({
            match mul_op(t, p) {
                Some(op) => match ahead(p_unary(h, t, p + 1), p + 1, t) {
                    Err(e) => Err(e),
                    Ok((rhs, q)) => mul_rest(h, t, q, bin(op, lhs, rhs)),
                },
                None => Ok((lhs, p)),
            }
        }),
{
    reveal(mul_rest);
    reveal(p_unary);
}

/// What [`postfix_rest`] is, one step.
proof fn postfix_rest_step(h: Host, t: Seq<Token>, p: nat, x: Ex)
    ensures
        postfix_rest(h, t, p, x) == ({
            if is_op(t, p, "."@) {
                match tok(t, p + 1) {
                    Token::Name(n) => postfix_rest(h, t, p + 2, Ex::Attr(Box::new(x), n)),
                    other => Err("expected an attribute name, found "@ + shown(h, other)),
                }
            } else if is_op(t, p, "["@) {
                match ahead(p_subscript(h, t, p + 1, x), p + 1, t) {
                    Err(e) => Err(e),
                    Ok((y, q)) => if is_op(t, q, "]"@) {
                        postfix_rest(h, t, q + 1, y)
                    } else {
                        Err(missing(h, t, q, "]"@))
                    },
                }
            } else if is_op(t, p, "("@) {
                match p_args(h, t, p + 1) {
                    Err(e) => Err(e),
                    Ok((args, kw, q)) => if p + 1 < q <= t.len() {
                        postfix_rest(h, t, q, Ex::Call(Box::new(x), args, kw))
                    } else {
                        Err(Seq::empty())
                    },
                }
            } else if is_op(t, p, "|"@) {
                match tok(t, p + 1) {
                    Token::Name(n) => if is_op(t, p + 2, "("@) {
                        match p_args(h, t, p + 3) {
                            Err(e) => Err(e),
                            Ok((args, _, q)) => if p + 3 < q <= t.len() {
                                postfix_rest(h, t, q, Ex::Filter(Box::new(x), n, args))
                            } else {
                                Err(Seq::empty())
                            },
                        }
                    } else {
                        postfix_rest(h, t, p + 2, Ex::Filter(Box::new(x), n, Seq::empty()))
                    },
                    other => Err("expected a filter name, found "@ + shown(h, other)),
                }
            } else {
                Ok((x, p))
            }
        }),
{
    reveal(postfix_rest);
    reveal(p_subscript);
    reveal(p_args);
}

/// What [`p_subscript`] is, one step.
#[verifier::spinoff_prover]
#[verifier::rlimit(60)]
proof fn p_subscript_step(h: Host, t: Seq<Token>, p: nat, base: Ex)
    ensures
        p_subscript(h, t, p, base) == ({
            match p_bound(h, t, p, is_op(t, p, ":"@)) {
                Err(e) => Err(e),
                Ok((start, q)) => if !(p <= q <= t.len()) {
                    Err(Seq::empty())
                } else if is_op(t, q, ":"@) {
                    match p_bound(h, t, q + 1, is_op(t, q + 1, "]"@) || is_op(t, q + 1, ":"@)) {
                        Err(e) => Err(e),
                        Ok((end, q2)) => if !(q + 1 <= q2 <= t.len()) {
                            Err(Seq::empty())
                        } else if is_op(t, q2, ":"@) {
                            match p_bound(h, t, q2 + 1, is_op(t, q2 + 1, "]"@)) {
                                Err(e) => Err(e),
                                Ok((step, q3)) => if !(q2 + 1 <= q3 <= t.len()) {
                                    Err(Seq::empty())
                                } else {
                                    Ok((slice_of(base, start, end, step), q3))
                                },
                            }
                        } else {
                            Ok((slice_of(base, start, end, Ex::Lit(Val::Null)), q2))
                        },
                    }
                } else {
                    Ok((Ex::Index(Box::new(base), Box::new(start)), q))
                },
            }
        }),
{
    reveal(p_subscript);
    reveal(p_bound);
}

/// What [`args_rest`] is, one step.
proof fn args_rest_step(h: Host, t: Seq<Token>, p: nat, args: Seq<Ex>, kw: Seq<(Seq<char>, Ex)>,)
    ensures
        args_rest(h, t, p, args, kw) == ({
            let named = tok(t, p) is Name && is_op(t, p + 1, "="@);
            let at = if named {
                p + 2
            } else {
                p
            };
            match ahead(p_ternary(h, t, at), at, t) {
                Err(e) => Err(e),
                Ok((x, q)) => {
                    let args2 = if named {
                        args
                    } else {
                        args.push(x)
                    };
                    let kw2 = if named {
                        kw.push((tok(t, p)->Name_0, x))
                    } else {
                        kw
                    };
                    if is_op(t, q, ","@) {
                        args_rest(h, t, q + 1, args2, kw2)
                    } else if is_op(t, q, ")"@) {
                        Ok((args2, kw2, q + 1))
                    } else {
                        Err(missing(h, t, q, ")"@))
                    }
                },
            }
        }),
{
    reveal(args_rest);
    reveal(p_ternary);
}

/// What [`p_primary`] is, one step.
proof fn p_primary_step(h: Host, t: Seq<Token>, p: nat)
    ensures
        p_primary(h, t, p) == ({
            match tok(t, p) {
                Token::Num(n) => Ok((Ex::Lit(Val::Num(n)), p + 1)),
                Token::Str(s) => Ok((Ex::Lit(Val::Str(s)), p + 1)),
                Token::Name(n) => Ok((named(n), p + 1)),
                Token::Op(op) => if op == "("@ {
                    match ahead(p_ternary(h, t, p + 1), p + 1, t) {
                        Err(e) => Err(e),
                        // A parenthesised comma list is a tuple; templates only use it to iterate.
                        Ok((x, q)) => if is_op(t, q, ","@) {
                            tuple_rest(h, t, q + 1, seq![x])
                        } else if is_op(t, q, ")"@) {
                            Ok((x, q + 1))
                        } else {
                            Err(missing(h, t, q, ")"@))
                        },
                    }
                } else if op == "["@ {
                    if is_op(t, p + 1, "]"@) {
                        Ok((Ex::List(Seq::empty()), p + 2))
                    } else {
                        items_rest(h, t, p + 1, Seq::empty())
                    }
                } else if op == "{"@ {
                    if is_op(t, p + 1, "}"@) {
                        Ok((Ex::Object(Seq::empty()), p + 2))
                    } else {
                        pairs_rest(h, t, p + 1, Seq::empty())
                    }
                } else {
                    Err("unexpected "@ + shown(h, tok(t, p)) + " in expression"@)
                },
                Token::End => Err("unexpected "@ + shown(h, tok(t, p)) + " in expression"@),
            }
        }),
{
    reveal(p_primary);
    reveal(p_ternary);
    reveal(tuple_rest);
    reveal(items_rest);
    reveal(pairs_rest);
}

/// What [`p_compare`] is, one step.
proof fn p_compare_step(h: Host, t: Seq<Token>, p: nat)
    ensures
        p_compare(h, t, p) == ({
            match ahead(p_additive(h, t, p), p, t) {
                Err(e) => Err(e),
                Ok((lhs, q)) => if comparison(t, q) is Some {
                    match ahead(p_additive(h, t, q + 1), q + 1, t) {
                        Err(e) => Err(e),
                        Ok((rhs, q2)) => Ok((bin(comparison(t, q)->0, lhs, rhs), q2)),
                    }
                } else if is_name(t, q, "in"@) {
                    match ahead(p_additive(h, t, q + 1), q + 1, t) {
                        Err(e) => Err(e),
                        Ok((rhs, q2)) => Ok((bin(BinaryOp::In, lhs, rhs), q2)),
                    }
                } else if is_name(t, q, "not"@) && is_name(t, q + 1, "in"@) {
                    match ahead(p_additive(h, t, q + 2), q + 2, t) {
                        Err(e) => Err(e),
                        Ok((rhs, q2)) => Ok(
                            (Ex::Unary(UnaryOp::Not, Box::new(bin(BinaryOp::In, lhs, rhs))), q2),
                        ),
                    }
                } else if is_name(t, q, "is"@) {
                    let neg = is_name(t, q + 1, "not"@);
                    let q1 = if neg {
                        q + 2
                    } else {
                        q + 1
                    };
                    match tok(t, q1) {
                        // A test with an argument, such as `is equalto(x)`.
                        Token::Name(name) => if is_op(t, q1 + 1, "("@) {
                            match ahead(p_ternary(h, t, q1 + 2), q1 + 2, t) {
                                Err(e) => Err(e),
                                Ok((arg, q2)) => if is_op(t, q2, ")"@) {
                                    Ok((Ex::Test(Box::new(lhs), name, neg, Some(Box::new(arg))), q2 + 1))
                                } else {
                                    Err(missing(h, t, q2, ")"@))
                                },
                            }
                        } else {
                            Ok((Ex::Test(Box::new(lhs), name, neg, None), q1 + 1))
                        },
                        other => Err("expected a test name after `is`, found "@ + shown(h, other)),
                    }
                } else {
                    Ok((lhs, q))
                },
            }
        }),
{
    reveal(p_compare);
    reveal(p_additive);
    reveal(p_ternary);
}

// ------------------------------------------------------------------------------ reading

/// The words of an expression, and how far it is read.
#[derive(Debug)]
pub struct Lexer {
    pub toks: Vec<Tok>,
    pub pos: usize,
}

/// Whether reading from `a` to `b` with the outcome `r` is what `s` says.
pub open spec fn read(a: Lexer, b: Lexer, r: Result<Expr, String>, s: Parse) -> bool {
    &&& b.toks == a.toks
    &&& b.wf()
    &&& match s {
        Ok((x, q)) => r is Ok && r->Ok_0@ == x && b.pos == q && a.pos < b.pos,
        Err(e) => r is Err && r->Err_0@ == e,
    }
}

impl Lexer {
    pub open spec fn wf(self) -> bool {
        self.pos <= self.toks@.len()
    }

    pub open spec fn t(self) -> Seq<Token> {
        tokens(self.toks@)
    }

    pub open spec fn at(self) -> nat {
        self.pos as nat
    }

    /// Whether the operator `op` stands `k` words ahead.
    fn op_at(&self, k: usize, op: &str) -> (r: bool)
        requires
            self.wf(),
            k <= 3,
        ensures
            r == is_op(self.t(), self.at() + k as nat, op@),
            r ==> self.pos + k < self.toks@.len() && self.pos + k < usize::MAX,
    {
        let n = self.toks.len();
        if k < n - self.pos {
            match &self.toks[self.pos + k] {
                Tok::Op(o) => same(o.as_str(), op),
                _ => false,
            }
        } else {
            false
        }
    }

    /// Whether the name `name` stands `k` words ahead.
    fn name_at(&self, k: usize, name: &str) -> (r: bool)
        requires
            self.wf(),
            k <= 3,
        ensures
            r == is_name(self.t(), self.at() + k as nat, name@),
            r ==> self.pos + k < self.toks@.len() && self.pos + k < usize::MAX,
    {
        let n = self.toks.len();
        if k < n - self.pos {
            match &self.toks[self.pos + k] {
                Tok::Name(o) => same(o.as_str(), name),
                _ => false,
            }
        } else {
            false
        }
    }

    /// Moves over the operator `op`, where it comes next.
    fn eat_op(&mut self, op: &str) -> (r: bool)
        requires
            old(self).wf(),
        ensures
            final(self).wf(),
            final(self).toks == old(self).toks,
            r == is_op(old(self).t(), old(self).at(), op@),
            final(self).pos == old(self).pos + if r {
                1int
            } else {
                0
            },
    {
        if self.op_at(0, op) {
            self.pos = self.pos + 1;
            true
        } else {
            false
        }
    }

    /// Moves over the name `name`, where it comes next.
    fn eat_name(&mut self, name: &str) -> (r: bool)
        requires
            old(self).wf(),
        ensures
            final(self).wf(),
            final(self).toks == old(self).toks,
            r == is_name(old(self).t(), old(self).at(), name@),
            final(self).pos == old(self).pos + if r {
                1int
            } else {
                0
            },
    {
        if self.name_at(0, name) {
            self.pos = self.pos + 1;
            true
        } else {
            false
        }
    }

    /// The next word, where it is a name.
    fn name_next(&self) -> (r: Option<String>)
        requires
            self.wf(),
        ensures
            match tok(self.t(), self.at()) {
                Token::Name(n) => r is Some && r->0@ == n && self.pos < self.toks@.len() && self.pos
                    < usize::MAX,
                _ => r is None,
            },
    {
        if self.pos < self.toks.len() {
            match &self.toks[self.pos] {
                Tok::Name(n) => Some(n.clone()),
                _ => None,
            }
        } else {
            None
        }
    }
}

impl<
    A: Fn(NumOp, u64, u64) -> u64,
    P: Fn(&str) -> Option<u64>,
    W: Fn(u64, bool) -> String,
> Maths<A, P, W> {
    /// How the next word is shown in a message.
    fn show_next(&self, lx: &Lexer) -> (r: String)
        requires
            self.works(),
            lx.wf(),
        ensures
            r@ == shown(self.host(), tok(lx.t(), lx.at())),
    {
        if lx.pos < lx.toks.len() {
            self.show(&lx.toks[lx.pos])
        } else {
            own("End")
        }
    }

    /// The message where `op` is missing.
    fn missing_op(&self, lx: &Lexer, op: &str) -> (r: String)
        requires
            self.works(),
            lx.wf(),
        ensures
            r@ == missing(self.host(), lx.t(), lx.at(), op@),
    {
        cat4("expected ", debug_text(op).as_str(), ", found ", self.show_next(lx).as_str())
    }

    fn parse_ternary(&self, lx: &mut Lexer) -> (r: Result<Expr, String>)
        requires
            self.works(),
            old(lx).wf(),
        ensures
            read(*old(lx), *final(lx), r, p_ternary(self.host(), old(lx).t(), old(lx).at())),
        decreases old(lx).toks@.len() - old(lx).pos, 90nat,
    {
        proof {
            reveal(p_ternary);
            reveal(p_or);
        }
        let lhs = self.parse_or(lx)?;
        if lx.eat_name("if") {
            let cond = self.parse_or(lx)?;
            let other = if lx.eat_name("else") {
                self.parse_ternary(lx)?
            } else {
                lit(Value::Null)
            };
            return Ok(ternary(cond, lhs, other));
        }
        Ok(lhs)
    }

    fn parse_or(&self, lx: &mut Lexer) -> (r: Result<Expr, String>)
        requires
            self.works(),
            old(lx).wf(),
        ensures
            read(*old(lx), *final(lx), r, p_or(self.host(), old(lx).t(), old(lx).at())),
        decreases old(lx).toks@.len() - old(lx).pos, 80nat,
    {
        proof {
            reveal(p_or);
            reveal(p_and);
            reveal(or_rest);
        }
        let ghost t = lx.t();
        let ghost h = self.host();
        let ghost start = lx.at();
        let mut lhs = self.parse_and(lx)?;
        while lx.name_at(0, "or")
            invariant
                self.works(),
                h == self.host(),
                lx.wf(),
                lx.toks == old(lx).toks,
                t == old(lx).t(),
                start == old(lx).at(),
                start < lx.pos,
                p_or(h, t, start) == or_rest(h, t, lx.at(), lhs@),
            decreases lx.toks@.len() - lx.pos,
        {
            proof {
                reveal(p_or);
                reveal(p_and);
                reveal(or_rest);
            }
            lx.pos = lx.pos + 1;
            let rhs = self.parse_and(lx)?;
            lhs = binary(BinaryOp::Or, lhs, rhs);
        }
        Ok(lhs)
    }

    fn parse_and(&self, lx: &mut Lexer) -> (r: Result<Expr, String>)
        requires
            self.works(),
            old(lx).wf(),
        ensures
            read(*old(lx), *final(lx), r, p_and(self.host(), old(lx).t(), old(lx).at())),
        decreases old(lx).toks@.len() - old(lx).pos, 70nat,
    {
        proof {
            reveal(p_and);
            reveal(p_not);
            reveal(and_rest);
        }
        let ghost t = lx.t();
        let ghost h = self.host();
        let ghost start = lx.at();
        let mut lhs = self.parse_not(lx)?;
        while lx.name_at(0, "and")
            invariant
                self.works(),
                h == self.host(),
                lx.wf(),
                lx.toks == old(lx).toks,
                t == old(lx).t(),
                start == old(lx).at(),
                start < lx.pos,
                p_and(h, t, start) == and_rest(h, t, lx.at(), lhs@),
            decreases lx.toks@.len() - lx.pos,
        {
            proof {
                reveal(p_and);
                reveal(p_not);
                reveal(and_rest);
            }
            lx.pos = lx.pos + 1;
            let rhs = self.parse_not(lx)?;
            lhs = binary(BinaryOp::And, lhs, rhs);
        }
        Ok(lhs)
    }

    fn parse_not(&self, lx: &mut Lexer) -> (r: Result<Expr, String>)
        requires
            self.works(),
            old(lx).wf(),
        ensures
            read(*old(lx), *final(lx), r, p_not(self.host(), old(lx).t(), old(lx).at())),
        decreases old(lx).toks@.len() - old(lx).pos, 60nat,
    {
        proof {
            reveal(p_not);
            reveal(p_compare);
        }
        if lx.eat_name("not") {
            let x = self.parse_not(lx)?;
            return Ok(unary(UnaryOp::Not, x));
        }
        self.parse_compare(lx)
    }

    fn parse_compare(&self, lx: &mut Lexer) -> (r: Result<Expr, String>)
        requires
            self.works(),
            old(lx).wf(),
        ensures
            read(*old(lx), *final(lx), r, p_compare(self.host(), old(lx).t(), old(lx).at())),
        decreases old(lx).toks@.len() - old(lx).pos, 50nat,
    {
        proof {
            p_compare_step(self.host(), lx.t(), lx.at());
        }
        let lhs = self.parse_additive(lx)?;
        let op = if lx.op_at(0, "==") {
            Some(BinaryOp::Eq)
        } else if lx.op_at(0, "!=") {
            Some(BinaryOp::Ne)
        } else if lx.op_at(0, "<=") {
            Some(BinaryOp::Le)
        } else if lx.op_at(0, ">=") {
            Some(BinaryOp::Ge)
        } else if lx.op_at(0, "<") {
            Some(BinaryOp::Lt)
        } else if lx.op_at(0, ">") {
            Some(BinaryOp::Gt)
        } else {
            None
        };
        assert(op == comparison(lx.t(), lx.at()));
        if let Some(op) = op {
            lx.pos = lx.pos + 1;
            let rhs = self.parse_additive(lx)?;
            return Ok(binary(op, lhs, rhs));
        }
        if lx.eat_name("in") {
            let rhs = self.parse_additive(lx)?;
            return Ok(binary(BinaryOp::In, lhs, rhs));
        }
        if lx.name_at(0, "not") && lx.name_at(1, "in") {
            lx.pos = lx.pos + 2;
            let rhs = self.parse_additive(lx)?;
            return Ok(
                unary(UnaryOp::Not, binary(BinaryOp::In, lhs, rhs)),
            );
        }
        if lx.eat_name("is") {
            let negated = lx.eat_name("not");
            let name = match lx.name_next() {
                Some(n) => n,
                None => {
                    return Err(
                        cat2(
                            "expected a test name after `is`, found ",
                            self.show_next(lx).as_str(),
                        ),
                    );
                },
            };
            lx.pos = lx.pos + 1;
            // `is equalto(x)` and the like take an argument.
            let arg = if lx.eat_op("(") {
                let a = self.parse_ternary(lx)?;
                if !lx.eat_op(")") {
                    return Err(self.missing_op(lx, ")"));
                }
                Some(a)
            } else {
                None
            };
            return Ok(test(lhs, name, negated, arg));
        }
        Ok(lhs)
    }

    fn parse_additive(&self, lx: &mut Lexer) -> (r: Result<Expr, String>)
        requires
            self.works(),
            old(lx).wf(),
        ensures
            read(*old(lx), *final(lx), r, p_additive(self.host(), old(lx).t(), old(lx).at())),
        decreases old(lx).toks@.len() - old(lx).pos, 40nat,
    {
        proof {
            reveal(p_additive);
            reveal(p_multiplicative);
            reveal(add_rest);
        }
        let ghost t = lx.t();
        let ghost h = self.host();
        let ghost start = lx.at();
        let mut lhs = self.parse_multiplicative(lx)?;
        loop
            invariant
                self.works(),
                h == self.host(),
                lx.wf(),
                lx.toks == old(lx).toks,
                t == old(lx).t(),
                start == old(lx).at(),
                start < lx.pos,
                p_additive(h, t, start) == add_rest(h, t, lx.at(), lhs@),
            decreases lx.toks@.len() - lx.pos,
        {
            proof {
                add_rest_step(h, t, lx.at(), lhs@);
            }
            let op = if lx.op_at(0, "+") {
                BinaryOp::Plus
            } else if lx.op_at(0, "-") {
                BinaryOp::Minus
            } else if lx.op_at(0, "~") {
                BinaryOp::Concat
            } else {
                return Ok(lhs);
            };
            assert(add_op(t, lx.at()) == Some(op));
            lx.pos = lx.pos + 1;
            let rhs = self.parse_multiplicative(lx)?;
            lhs = binary(op, lhs, rhs);
        }
    }

    fn parse_multiplicative(&self, lx: &mut Lexer) -> (r: Result<Expr, String>)
        requires
            self.works(),
            old(lx).wf(),
        ensures
            read(*old(lx), *final(lx), r, p_multiplicative(self.host(), old(lx).t(), old(lx).at())),
        decreases old(lx).toks@.len() - old(lx).pos, 30nat,
    {
        proof {
            reveal(p_multiplicative);
            reveal(p_unary);
            reveal(mul_rest);
        }
        let ghost t = lx.t();
        let ghost h = self.host();
        let ghost start = lx.at();
        let mut lhs = self.parse_unary(lx)?;
        loop
            invariant
                self.works(),
                h == self.host(),
                lx.wf(),
                lx.toks == old(lx).toks,
                t == old(lx).t(),
                start == old(lx).at(),
                start < lx.pos,
                p_multiplicative(h, t, start) == mul_rest(h, t, lx.at(), lhs@),
            decreases lx.toks@.len() - lx.pos,
        {
            proof {
                mul_rest_step(h, t, lx.at(), lhs@);
            }
            let op = if lx.op_at(0, "*") {
                BinaryOp::Times
            } else if lx.op_at(0, "//") {
                BinaryOp::FloorDiv
            } else if lx.op_at(0, "/") {
                BinaryOp::Div
            } else if lx.op_at(0, "%") {
                BinaryOp::Rem
            } else {
                return Ok(lhs);
            };
            assert(mul_op(t, lx.at()) == Some(op));
            lx.pos = lx.pos + 1;
            let rhs = self.parse_unary(lx)?;
            lhs = binary(op, lhs, rhs);
        }
    }

    fn parse_unary(&self, lx: &mut Lexer) -> (r: Result<Expr, String>)
        requires
            self.works(),
            old(lx).wf(),
        ensures
            read(*old(lx), *final(lx), r, p_unary(self.host(), old(lx).t(), old(lx).at())),
        decreases old(lx).toks@.len() - old(lx).pos, 20nat,
    {
        proof {
            reveal(p_unary);
        }
        if lx.eat_op("-") {
            let x = self.parse_unary(lx)?;
            return Ok(unary(UnaryOp::Neg, x));
        }
        self.parse_postfix(lx)
    }

    fn parse_postfix(&self, lx: &mut Lexer) -> (r: Result<Expr, String>)
        requires
            self.works(),
            old(lx).wf(),
            !is_op(old(lx).t(), old(lx).at(), "-"@),
        ensures
            read(*old(lx), *final(lx), r, p_unary(self.host(), old(lx).t(), old(lx).at())),
        decreases old(lx).toks@.len() - old(lx).pos, 10nat,
    {
        proof {
            reveal(p_unary);
            reveal(p_primary);
            reveal(postfix_rest);
        }
        let ghost t = lx.t();
        let ghost h = self.host();
        let ghost start = lx.at();
        let mut e = self.parse_primary(lx)?;
        loop
            invariant
                self.works(),
                h == self.host(),
                lx.wf(),
                lx.toks == old(lx).toks,
                t == old(lx).t(),
                start == old(lx).at(),
                start < lx.pos,
                p_unary(h, t, start) == postfix_rest(h, t, lx.at(), e@),
            decreases lx.toks@.len() - lx.pos,
        {
            proof {
                postfix_rest_step(h, t, lx.at(), e@);
            }
            if lx.eat_op(".") {
                match lx.name_next() {
                    Some(n) => {
                        lx.pos = lx.pos + 1;
                        e = attr(e, n);
                    },
                    None => {
                        return Err(
                            cat2(
                                "expected an attribute name, found ",
                                self.show_next(lx).as_str(),
                            ),
                        );
                    },
                }
            } else if lx.eat_op("[") {
                e = self.parse_slice_or_index(lx, e)?;
                if !lx.eat_op("]") {
                    return Err(self.missing_op(lx, "]"));
                }
            } else if lx.eat_op("(") {
                let (args, kwargs) = self.parse_args(lx)?;
                e = call(e, args, kwargs);
            } else if lx.eat_op("|") {
                let name = match lx.name_next() {
                    Some(n) => n,
                    None => {
                        return Err(
                            cat2("expected a filter name, found ", self.show_next(lx).as_str()),
                        );
                    },
                };
                lx.pos = lx.pos + 1;
                let args = if lx.eat_op("(") {
                    let (a, _) = self.parse_args(lx)?;
                    a
                } else {
                    let none: Vec<Expr> = Vec::new();
                    assert(exs(none@) =~= Seq::<Ex>::empty());
                    none
                };
                e = filter(e, name, args);
            } else {
                return Ok(e);
            }
        }
    }

    /// A bound of a slice, unless there is none.
    fn parse_bound(&self, lx: &mut Lexer, stop: bool) -> (r: Result<Expr, String>)
        requires
            self.works(),
            old(lx).wf(),
        ensures
            final(lx).toks == old(lx).toks,
            final(lx).wf(),
            match p_bound(self.host(), old(lx).t(), old(lx).at(), stop) {
                Ok((x, q)) => r is Ok && r->Ok_0@ == x && final(lx).pos == q && old(lx).pos
                    <= final(lx).pos && (!stop ==> old(lx).pos < final(lx).pos),
                Err(e) => r is Err && r->Err_0@ == e,
            },
        decreases old(lx).toks@.len() - old(lx).pos, 95nat,
    {
        proof {
            reveal(p_bound);
            reveal(p_ternary);
        }
        if stop {
            Ok(lit(Value::Null))
        } else {
            self.parse_ternary(lx)
        }
    }

    fn parse_slice_or_index(&self, lx: &mut Lexer, base: Expr) -> (r: Result<Expr, String>)
        requires
            self.works(),
            old(lx).wf(),
        ensures
            read(*old(lx), *final(lx), r, p_subscript(self.host(), old(lx).t(), old(lx).at(), base@)),
        decreases old(lx).toks@.len() - old(lx).pos, 100nat,
    {
        proof {
            p_subscript_step(self.host(), lx.t(), lx.at(), base@);
        }
        let no_start = lx.op_at(0, ":");
        let start = self.parse_bound(lx, no_start)?;
        if lx.eat_op(":") {
            let no_end = lx.op_at(0, "]") || lx.op_at(0, ":");
            let end = self.parse_bound(lx, no_end)?;
            let step = if lx.eat_op(":") {
                let no_step = lx.op_at(0, "]");
                self.parse_bound(lx, no_step)?
            } else {
                lit(Value::Null)
            };
            let mut args: Vec<Expr> = Vec::new();
            args.push(start);
            args.push(end);
            args.push(step);
            assert(exs(args@) =~= seq![start@, end@, step@]);
            return Ok(filter(base, own("__slice"), args));
        }
        Ok(index(base, start))
    }

    fn parse_args(&self, lx: &mut Lexer) -> (r: Result<(Vec<Expr>, Vec<Keyword>), String>)
        requires
            self.works(),
            old(lx).wf(),
        ensures
            final(lx).toks == old(lx).toks,
            final(lx).wf(),
            match p_args(self.host(), old(lx).t(), old(lx).at()) {
                Ok((a, k, q)) => r matches Ok((x, y)) && exs(x@) == a && keywords(y@) == k
                    && final(lx).pos == q && old(lx).pos < final(lx).pos,
                Err(e) => r is Err && r->Err_0@ == e,
            },
        decreases old(lx).toks@.len() - old(lx).pos, 101nat,
    {
        proof {
            reveal(p_args);
            reveal(args_rest);
        }
        let mut args: Vec<Expr> = Vec::new();
        let mut kwargs: Vec<Keyword> = Vec::new();
        assert(exs(args@) =~= Seq::<Ex>::empty());
        assert(keywords(kwargs@) =~= Seq::<(Seq<char>, Ex)>::empty());
        if lx.eat_op(")") {
            return Ok((args, kwargs));
        }
        let ghost t = lx.t();
        let ghost h = self.host();
        let ghost start = lx.at();
        loop
            invariant
                self.works(),
                h == self.host(),
                lx.wf(),
                lx.toks == old(lx).toks,
                t == old(lx).t(),
                start == old(lx).at(),
                start <= lx.pos,
                p_args(h, t, start) == args_rest(h, t, lx.at(), exs(args@), keywords(kwargs@)),
            decreases lx.toks@.len() - lx.pos,
        {
            proof {
                args_rest_step(h, t, lx.at(), exs(args@), keywords(kwargs@));
            }
            let ghost a0 = exs(args@);
            let ghost k0 = keywords(kwargs@);
            let keyword = match lx.name_next() {
                Some(n) => if lx.op_at(1, "=") {
                    Some(n)
                } else {
                    None
                },
                None => None,
            };
            if let Some(name) = keyword {
                lx.pos = lx.pos + 2;
                let value = self.parse_ternary(lx)?;
                let k = Keyword { name, value };
                kwargs.push(k);
                assert(keywords(kwargs@) =~= k0.push((k.name@, k.value@)));
            } else {
                let x = self.parse_ternary(lx)?;
                args.push(x);
                assert(exs(args@) =~= a0.push(x@));
            }
            if !lx.eat_op(",") {
                if lx.eat_op(")") {
                    return Ok((args, kwargs));
                }
                return Err(self.missing_op(lx, ")"));
            }
        }
    }

    fn parse_primary(&self, lx: &mut Lexer) -> (r: Result<Expr, String>)
        requires
            self.works(),
            old(lx).wf(),
        ensures
            read(*old(lx), *final(lx), r, p_primary(self.host(), old(lx).t(), old(lx).at())),
        decreases old(lx).toks@.len() - old(lx).pos, 8nat,
    {
        proof {
            p_primary_step(self.host(), lx.t(), lx.at());
        }
        if lx.pos >= lx.toks.len() {
            return Err(cat3("unexpected ", self.show_next(lx).as_str(), " in expression"));
        }
        match &lx.toks[lx.pos] {
            Tok::Num(n) => {
                let e = lit(Value::Num(*n));
                lx.pos = lx.pos + 1;
                return Ok(e);
            },
            Tok::Str(s) => {
                let e = lit(Value::Str(s.clone()));
                lx.pos = lx.pos + 1;
                return Ok(e);
            },
            Tok::Name(n) => {
                let e = if same(n.as_str(), "true") || same(n.as_str(), "True") {
                    lit(Value::Bool(true))
                } else if same(n.as_str(), "false") || same(n.as_str(), "False") {
                    lit(Value::Bool(false))
                } else if same(n.as_str(), "none") || same(n.as_str(), "None") || same(
                    n.as_str(),
                    "null",
                ) {
                    lit(Value::Null)
                } else {
                    var(n.clone())
                };
                lx.pos = lx.pos + 1;
                return Ok(e);
            },
            _ => {},
        }
        if lx.eat_op("(") {
            let e = self.parse_ternary(lx)?;
            if lx.eat_op(",") {
                let mut items: Vec<Expr> = Vec::new();
                items.push(e);
                assert(exs(items@) =~= seq![e@]);
                return self.parse_tuple(lx, items);
            }
            if lx.eat_op(")") {
                return Ok(e);
            }
            return Err(self.missing_op(lx, ")"));
        }
        if lx.eat_op("[") {
            if lx.eat_op("]") {
                let items: Vec<Expr> = Vec::new();
                assert(exs(items@) =~= Seq::<Ex>::empty());
                return Ok(list(items));
            }
            return self.parse_items(lx);
        }
        if lx.eat_op("{") {
            if lx.eat_op("}") {
                let items: Vec<Pair> = Vec::new();
                assert(pairs(items@) =~= Seq::<(Ex, Ex)>::empty());
                return Ok(object(items));
            }
            return self.parse_pairs(lx);
        }
        Err(cat3("unexpected ", self.show_next(lx).as_str(), " in expression"))
    }

    /// The rest of a tuple.
    fn parse_tuple(&self, lx: &mut Lexer, first: Vec<Expr>) -> (r: Result<Expr, String>)
        requires
            self.works(),
            old(lx).wf(),
        ensures
            read(*old(lx), *final(lx), r, tuple_rest(self.host(), old(lx).t(), old(lx).at(), exs(first@))),
        decreases old(lx).toks@.len() - old(lx).pos, 100nat,
    {
        proof {
            reveal(tuple_rest);
            reveal(p_ternary);
        }
        let mut items = first;
        let ghost t = lx.t();
        let ghost h = self.host();
        let ghost start = lx.at();
        while !lx.op_at(0, ")")
            invariant
                self.works(),
                h == self.host(),
                lx.wf(),
                lx.toks == old(lx).toks,
                t == old(lx).t(),
                start == old(lx).at(),
                start <= lx.pos,
                tuple_rest(h, t, start, exs(first@)) == tuple_rest(h, t, lx.at(), exs(items@)),
            decreases lx.toks@.len() - lx.pos,
        {
            proof {
                reveal(tuple_rest);
                reveal(p_ternary);
            }
            let ghost before = exs(items@);
            let x = self.parse_ternary(lx)?;
            items.push(x);
            assert(exs(items@) =~= before.push(x@));
            lx.eat_op(",");
        }
        lx.pos = lx.pos + 1;
        Ok(list(items))
    }

    /// The items of a list, behind the opening bracket.
    fn parse_items(&self, lx: &mut Lexer) -> (r: Result<Expr, String>)
        requires
            self.works(),
            old(lx).wf(),
        ensures
            read(*old(lx), *final(lx), r, items_rest(self.host(), old(lx).t(), old(lx).at(), Seq::empty())),
        decreases old(lx).toks@.len() - old(lx).pos, 100nat,
    {
        proof {
            reveal(items_rest);
            reveal(p_ternary);
        }
        let mut items: Vec<Expr> = Vec::new();
        assert(exs(items@) =~= Seq::<Ex>::empty());
        let ghost t = lx.t();
        let ghost h = self.host();
        let ghost start = lx.at();
        loop
            invariant
                self.works(),
                h == self.host(),
                lx.wf(),
                lx.toks == old(lx).toks,
                t == old(lx).t(),
                start == old(lx).at(),
                start <= lx.pos,
                items_rest(h, t, start, Seq::empty()) == items_rest(
                    h,
                    t,
                    lx.at(),
                    exs(items@),
                ),
            decreases lx.toks@.len() - lx.pos,
        {
            proof {
                reveal(items_rest);
                reveal(p_ternary);
            }
            let ghost before = exs(items@);
            let x = self.parse_ternary(lx)?;
            items.push(x);
            assert(exs(items@) =~= before.push(x@));
            let more = lx.eat_op(",");
            if more && !lx.op_at(0, "]") {
                continue;
            }
            if lx.eat_op("]") {
                return Ok(list(items));
            }
            return Err(self.missing_op(lx, "]"));
        }
    }

    /// The entries of a map, behind the opening bracket.
    fn parse_pairs(&self, lx: &mut Lexer) -> (r: Result<Expr, String>)
        requires
            self.works(),
            old(lx).wf(),
        ensures
            read(*old(lx), *final(lx), r, pairs_rest(self.host(), old(lx).t(), old(lx).at(), Seq::empty())),
        decreases old(lx).toks@.len() - old(lx).pos, 100nat,
    {
        proof {
            reveal(pairs_rest);
            reveal(p_ternary);
        }
        let mut items: Vec<Pair> = Vec::new();
        assert(pairs(items@) =~= Seq::<(Ex, Ex)>::empty());
        let ghost t = lx.t();
        let ghost h = self.host();
        let ghost start = lx.at();
        loop
            invariant
                self.works(),
                h == self.host(),
                lx.wf(),
                lx.toks == old(lx).toks,
                t == old(lx).t(),
                start == old(lx).at(),
                start <= lx.pos,
                pairs_rest(h, t, start, Seq::empty()) == pairs_rest(
                    h,
                    t,
                    lx.at(),
                    pairs(items@),
                ),
            decreases lx.toks@.len() - lx.pos,
        {
            proof {
                reveal(pairs_rest);
                reveal(p_ternary);
            }
            let ghost before = pairs(items@);
            let key = self.parse_ternary(lx)?;
            if !lx.eat_op(":") {
                return Err(self.missing_op(lx, ":"));
            }
            let value = self.parse_ternary(lx)?;
            let p = Pair { key, value };
            items.push(p);
            assert(pairs(items@) =~= before.push((p.key@, p.value@)));
            let more = lx.eat_op(",");
            if more && !lx.op_at(0, "}") {
                continue;
            }
            if lx.eat_op("}") {
                return Ok(object(items));
            }
            return Err(self.missing_op(lx, "}"));
        }
    }

    /// The expression that a text stands for.
    pub fn parse_expr_str(&self, src: &str) -> (r: Result<Expr, String>)
        requires
            self.works(),
        ensures
            match parse_expr(self.host(), src@) {
                Ok(x) => r is Ok && r->Ok_0@ == x,
                Err(e) => r is Err && r->Err_0@ == e,
            },
    {
        let toks = self.lex(src)?;
        let mut lx = Lexer { toks, pos: 0 };
        let e = self.parse_ternary(&mut lx)?;
        let done = if lx.pos < lx.toks.len() {
            match &lx.toks[lx.pos] {
                Tok::End => true,
                _ => false,
            }
        } else {
            true
        };
        if !done {
            return Err(cat2("trailing input in expression: ", self.show_next(&lx).as_str()));
        }
        Ok(e)
    }
}

} // verus!
