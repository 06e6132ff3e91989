//! Rendering.

use vstd::prelude::*;
use vstd::string::*;

use super::nodes::{branches, nds, node_views, parse_template, Branch, Nd, Node};
use super::number::{Host, Maths, NumOp};
use super::ops::{
    answer, attr_of, binary_of, filter_of, global_of, index_of_value, method_of, test_of, unary_of,
};
use super::parse::{expr_views, exs, keywords, pairs, BinaryOp, Ex, Expr, Keyword, Pair};
use super::scope::{assign_in, assign_targets, bind_in, declare_in, get_in, set_in, Frames, Scope};
use super::show::shown_ex;
use super::value::{
    entries, insert, iterated, list, object, or_null, put_key, text_of, vals, Entry, Val, Value,
};
use crate::text::{cat2, own, same, texts};

verus! {

/// A value and the variables after it was computed, or a message.
pub type Eval = Result<(Val, Frames), Seq<char>>;

/// What an expression stands for.
pub open spec fn ev(h: Host, e: Ex, s: Frames) -> Eval
    decreases e, 0nat,
{
    match e {
        Ex::Lit(v) => Ok((v, s)),
        Ex::Var(n) => Ok((or_null(get_in(s, n)), s)),
        Ex::List(a) => match evs(h, a, a.len(), s) {
            Err(m) => Err(m),
            Ok((v, t)) => Ok((Val::List(v), t)),
        },
        Ex::Object(a) => match ev_pairs(h, a, a.len(), s) {
            Err(m) => Err(m),
            Ok((v, t)) => Ok((Val::Object(v), t)),
        },
        Ex::Attr(b, n) => match ev(h, *b, s) {
            Err(m) => Err(m),
            Ok((v, t)) => Ok((attr_of(h, v, n), t)),
        },
        Ex::Index(b, i) => match ev(h, *b, s) {
            Err(m) => Err(m),
            Ok((v, t)) => match ev(h, *i, t) {
                Err(m) => Err(m),
                Ok((x, u)) => Ok((index_of_value(h, v, x), u)),
            },
        },
        Ex::Unary(op, b) => match ev(h, *b, s) {
            Err(m) => Err(m),
            Ok((v, t)) => Ok((unary_of(h, op, v), t)),
        },
        Ex::Binary(op, l, r) => match ev(h, *l, s) {
            Err(m) => Err(m),
            Ok((v, t)) => if op == BinaryOp::And && !v.truthy() || op == BinaryOp::Or
                && v.truthy() {
                Ok((v, t))
            } else {
                match ev(h, *r, t) {
                    Err(m) => Err(m),
                    Ok((x, u)) => if op == BinaryOp::And || op == BinaryOp::Or {
                        Ok((x, u))
                    } else {
                        Ok((binary_of(h, op, v, x), u))
                    },
                }
            },
        },
        Ex::Ternary(c, x, y) => match ev(h, *c, s) {
            Err(m) => Err(m),
            Ok((v, t)) => if v.truthy() {
                ev(h, *x, t)
            } else {
                ev(h, *y, t)
            },
        },
        Ex::Test(b, name, neg, arg) => match ev(h, *b, s) {
            Err(m) => Err(m),
            Ok((v, t)) => match arg {
                None => tested(name, v, is_defined(*b, v, t), None, neg, t),
                Some(a) => match ev(h, *a, t) {
                    Err(m) => Err(m),
                    Ok((x, u)) => tested(name, v, is_defined(*b, v, t), Some(x), neg, u),
                },
            },
        },
        Ex::Filter(b, name, args) => match ev(h, *b, s) {
            Err(m) => Err(m),
            Ok((v, t)) => match evs(h, args, args.len(), t) {
                Err(m) => Err(m),
                Ok((a, u)) => with(filter_of(h, name, v, a), u),
            },
        },
        Ex::Call(callee, args, kwargs) => match evs(h, args, args.len(), s) {
            Err(m) => Err(m),
            Ok((a, t)) => match *callee {
                Ex::Attr(base, name) => match ev(h, *base, t) {
                    Err(m) => Err(m),
                    Ok((recv, u)) => called(h, *base, recv, name, a, u),
                },
                Ex::Var(name) => if name == "namespace"@ {
                    match ev_keywords(h, kwargs, kwargs.len(), t) {
                        Err(m) => Err(m),
                        Ok((v, u)) => Ok((Val::Object(v), u)),
                    }
                } else {
                    with(global_of(h, name, a), t)
                },
                other => Err("cannot call "@ + shown_ex(h, other)),
            },
        },
    }
}

pub open spec fn with(r: Result<Val, Seq<char>>, s: Frames) -> Eval {
    match r {
        Ok(v) => Ok((v, s)),
        Err(m) => Err(m),
    }
}

/// Whether what stands for `v` is defined: a variable where it has a value at all.
pub open spec fn is_defined(b: Ex, v: Val, s: Frames) -> bool {
    match b {
        Ex::Var(n) => get_in(s, n) is Some,
        _ => !(v is Null),
    }
}

pub open spec fn tested(
    name: Seq<char>,
    v: Val,
    defined: bool,
    a: Option<Val>,
    neg: bool,
    s: Frames,
) -> Eval {
    match test_of(name, v, defined, a) {
        Err(m) => Err(m),
        Ok(r) => Ok((Val::Bool(r != neg), s)),
    }
}

/// Methods that change the list they are called on.
pub open spec fn grows(name: Seq<char>) -> bool {
    name == "append"@ || name == "extend"@ || name == "add"@
}

/// The call of a method: one that changes its list assigns the result to the variable, and
/// stands for nothing.
pub open spec fn called(
    h: Host,
    base: Ex,
    recv: Val,
    name: Seq<char>,
    args: Seq<Val>,
    s: Frames,
) -> Eval {
    match method_of(h, recv, name, args) {
        Err(m) => Err(m),
        Ok(v) => if grows(name) {
            Ok(
                (
                    Val::Null,
                    match base {
                        Ex::Var(n) => set_in(s, n, v),
                        _ => s,
                    },
                ),
            )
        } else {
            Ok((v, s))
        },
    }
}

/// What the first `n` expressions stand for.
pub open spec fn evs(h: Host, a: Seq<Ex>, n: nat, s: Frames) -> Result<
    (Seq<Val>, Frames),
    Seq<char>,
>
    decreases a, n,
{
    if n == 0 || n > a.len() {
        Ok((Seq::empty(), s))
    } else {
        match evs(h, a, (n - 1) as nat, s) {
            Err(m) => Err(m),
            Ok((v, t)) => match ev(h, a[n - 1], t) {
                Err(m) => Err(m),
                Ok((x, u)) => Ok((v.push(x), u)),
            },
        }
    }
}

/// The map that the first `n` entries make.
pub open spec fn ev_pairs(h: Host, a: Seq<(Ex, Ex)>, n: nat, s: Frames) -> Result<
    (Seq<(Seq<char>, Val)>, Frames),
    Seq<char>,
>
    decreases a, n,
{
    if n == 0 || n > a.len() {
        Ok((Seq::empty(), s))
    } else {
        proof {
            assert(decreases_to!(a => a[n - 1]));
        }
        match ev_pairs(h, a, (n - 1) as nat, s) {
            Err(m) => Err(m),
            Ok((map, t)) => match ev(h, a[n - 1].0, t) {
                Err(m) => Err(m),
                Ok((k, u)) => match ev(h, a[n - 1].1, u) {
                    Err(m) => Err(m),
                    Ok((x, w)) => Ok((put_key(map, text_of(h, k), x), w)),
                },
            },
        }
    }
}

/// The map that the first `n` arguments given by name make.
pub open spec fn ev_keywords(h: Host, a: Seq<(Seq<char>, Ex)>, n: nat, s: Frames) -> Result<
    (Seq<(Seq<char>, Val)>, Frames),
    Seq<char>,
>
    decreases a, n,
{
    if n == 0 || n > a.len() {
        Ok((Seq::empty(), s))
    } else {
        proof {
            assert(decreases_to!(a => a[n - 1]));
        }
        match ev_keywords(h, a, (n - 1) as nat, s) {
            Err(m) => Err(m),
            Ok((map, t)) => match ev(h, a[n - 1].1, t) {
                Err(m) => Err(m),
                Ok((x, u)) => Ok((put_key(map, a[n - 1].0, x), u)),
            },
        }
    }
}

/// The variables and the text that running nodes leaves, or a message.
pub type Run = Result<(Frames, Seq<char>), Seq<char>>;

/// What the first `n` nodes do.
pub open spec fn run(h: Host, a: Seq<Nd>, n: nat, s: Frames) -> Run
    decreases a, n, 0nat,
{
    if n == 0 || n > a.len() {
        Ok((s, Seq::empty()))
    } else {
        match run(h, a, (n - 1) as nat, s) {
            Err(m) => Err(m),
            Ok((t, o)) => match run_node(h, a[n - 1], t) {
                Err(m) => Err(m),
                Ok((u, p)) => Ok((u, o + p)),
            },
        }
    }
}

/// What a node does.
pub open spec fn run_node(h: Host, nd: Nd, s: Frames) -> Run
    decreases nd, 1nat, 0nat,
{
    match nd {
        Nd::Text(t) => Ok((s, t)),
        Nd::Output(e) => match ev(h, e, s) {
            Err(m) => Err(m),
            Ok((v, t)) => Ok((t, text_of(h, v))),
        },
        Nd::If(bs, _) => run_branch(h, nd, 0, s),
        Nd::For(_, over, _, or_else) => match ev(h, over, s) {
            Err(m) => Err(m),
            Ok((v, t)) => {
                let items = iterated(v);
                if items.len() == 0 {
                    run(h, or_else, or_else.len(), t)
                } else {
                    match run_loop(h, nd, items, items.len(), t.push(Seq::empty())) {
                        Err(m) => Err(m),
                        Ok((u, o)) => Ok((u.drop_last(), o)),
                    }
                }
            },
        },
        Nd::Assign(names, e) => match ev(h, e, s) {
            Err(m) => Err(m),
            Ok((v, t)) => Ok((assign_targets(t, names, v), Seq::empty())),
        },
        Nd::SetBlock(name, body) => match run(h, body, body.len(), s) {
            Err(m) => Err(m),
            Ok((t, o)) => Ok((assign_in(t, name, Val::Str(o)), Seq::empty())),
        },
    }
}

/// The first branch from `i` on whose condition is true, else the alternative.
pub open spec fn run_branch(h: Host, nd: Nd, i: nat, s: Frames) -> Run
    decreases nd, 0nat, nd->If_0.len() - i,
{
    match nd {
        Nd::If(bs, or_else) => if i >= bs.len() {
            run(h, or_else, or_else.len(), s)
        } else {
            proof {
                assert(decreases_to!(nd => nd->If_0));
                assert(decreases_to!(bs => bs[i as int]));
                assert(decreases_to!(bs[i as int] => bs[i as int].1));
            }
            match ev(h, bs[i as int].0, s) {
                Err(m) => Err(m),
                Ok((v, t)) => if v.truthy() {
                    run(h, bs[i as int].1, bs[i as int].1.len(), t)
                } else {
                    run_branch(h, nd, i + 1, t)
                },
            }
        },
        _ => Err(Seq::empty()),
    }
}

/// The variable `loop` in turn `i` of `n`.
pub open spec fn loop_map(h: Host, i: nat, n: nat) -> Seq<(Seq<char>, Val)> {
    let m = Seq::empty();
    let m = put_key(m, "index0"@, Val::Num(h.whole(i)));
    let m = put_key(m, "index"@, Val::Num(h.whole(i + 1)));
    let m = put_key(m, "revindex"@, Val::Num(h.whole((n - i) as nat)));
    let m = put_key(m, "revindex0"@, Val::Num(h.whole((n - i - 1) as nat)));
    let m = put_key(m, "first"@, Val::Bool(i == 0));
    let m = put_key(m, "last"@, Val::Bool(i + 1 == n));
    put_key(m, "length"@, Val::Num(h.whole(n)))
}

/// The first `n` turns of a loop.
pub open spec fn run_loop(h: Host, nd: Nd, items: Seq<Val>, n: nat, s: Frames) -> Run
    decreases nd, 0nat, n,
{
    match nd {
        Nd::For(names, _, body, _) => if n == 0 || n > items.len() {
            Ok((s, Seq::empty()))
        } else {
            match run_loop(h, nd, items, (n - 1) as nat, s) {
                Err(m) => Err(m),
                Ok((t, o)) => {
                    let u = declare_in(
                        bind_in(t, names, items[n - 1]),
                        "loop"@,
                        Val::Object(loop_map(h, (n - 1) as nat, items.len())),
                    );
                    match run(h, body, body.len(), u) {
                        Err(m) => Err(m),
                        Ok((w, p)) => Ok((w, o + p)),
                    }
                },
            }
        },
        _ => Err(Seq::empty()),
    }
}

/// The variables a template starts with.
pub open spec fn root(ctx: Val) -> Frames {
    seq![
        match ctx {
            Val::Object(m) => m,
            _ => Seq::empty(),
        },
    ]
}

/// The text of a template.
pub open spec fn rendered(h: Host, a: Seq<Nd>, ctx: Val) -> Result<Seq<char>, Seq<char>> {
    match run(h, a, a.len(), root(ctx)) {
        Ok((_, o)) => Ok(o),
        Err(m) => Err(m),
    }
}

/// The expressions of a list are smaller than it.
proof fn list_shrinks(a: Vec<Expr>, i: int)
    requires
        0 <= i < a@.len(),
    ensures
        decreases_to!(a => a@[i]),
{
    assert(decreases_to!(a => a@));
}

proof fn pairs_shrink(a: Vec<Pair>, i: int)
    requires
        0 <= i < a@.len(),
    ensures
        decreases_to!(a => a@[i].key),
        decreases_to!(a => a@[i].value),
{
    assert(decreases_to!(a => a@));
    assert(decreases_to!(a@ => a@[i]));
}

proof fn keywords_shrink(a: Vec<Keyword>, i: int)
    requires
        0 <= i < a@.len(),
    ensures
        decreases_to!(a => a@[i].value),
{
    assert(decreases_to!(a => a@));
    assert(decreases_to!(a@ => a@[i]));
}

proof fn nodes_shrink(a: Vec<Node>, i: int)
    requires
        0 <= i < a@.len(),
    ensures
        decreases_to!(a => a@[i]),
{
    assert(decreases_to!(a => a@));
}

proof fn branches_shrink(a: Vec<Branch>, i: int)
    requires
        0 <= i < a@.len(),
    ensures
        decreases_to!(a => a@[i].body),
{
    assert(decreases_to!(a => a@));
    assert(decreases_to!(a@ => a@[i]));
}

impl<
    A: Fn(NumOp, u64, u64) -> u64,
    P: Fn(&str) -> Option<u64>,
    W: Fn(u64, bool) -> String,
> Maths<A, P, W> {
    /// What an expression stands for.
    #[verifier::rlimit(60)]
    pub fn eval(&self, e: &Expr, scope: &mut Scope) -> (r: Result<Value, String>)
        requires
            self.works(),
            old(scope).wf(),
        ensures
            match ev(self.host(), e@, old(scope)@) {
                Ok((v, t)) => r is Ok && r->Ok_0@ == v && final(scope)@ == t && final(scope).frames@.len() == old(scope).frames@.len(),
                Err(m) => r is Err && r->Err_0@ == m,
            },
        decreases e, 0nat,
    {
        proof {
            expr_views(*e);
        }
        match e {
            Expr::Lit(v) => Ok(v.copy()),
            Expr::Var(n) => match scope.get(n.as_str()) {
                Some(v) => Ok(v.copy()),
                None => Ok(Value::Null),
            },
            Expr::List(a) => {
                let v = self.eval_list(a, scope)?;
                Ok(list(v))
            },
            Expr::Object(a) => {
                let v = self.eval_pairs(a, scope)?;
                Ok(object(v))
            },
            Expr::Attr(b, n) => {
                let v = self.eval(b, scope)?;
                Ok(self.attr(&v, n.as_str()))
            },
            Expr::Index(b, i) => {
                let v = self.eval(b, scope)?;
                let x = self.eval(i, scope)?;
                Ok(self.index_value(&v, &x))
            },
            Expr::Unary(op, b) => {
                let v = self.eval(b, scope)?;
                Ok(self.unary(*op, &v))
            },
            Expr::Binary(op, l, r) => {
                let v = self.eval(l, scope)?;
                if *op == BinaryOp::And && !v.truthy() || *op == BinaryOp::Or && v.truthy() {
                    return Ok(v);
                }
                let x = self.eval(r, scope)?;
                if *op == BinaryOp::And || *op == BinaryOp::Or {
                    return Ok(x);
                }
                Ok(self.binary(*op, &v, &x))
            },
            Expr::Ternary(c, x, y) => {
                let v = self.eval(c, scope)?;
                if v.truthy() {
                    self.eval(x, scope)
                } else {
                    self.eval(y, scope)
                }
            },
            Expr::Test(b, name, neg, arg) => {
                let v = self.eval(b, scope)?;
                proof {
                    expr_views(**b);
                }
                let defined = match &**b {
                    Expr::Var(n) => scope.get(n.as_str()).is_some(),
                    _ => !matches!(v, Value::Null),
                };
                let a: Option<Value> = match arg {
                    Some(a) => {
                        let x = self.eval(a, scope)?;
                        Some(x)
                    },
                    None => None,
                };
                let res = answer(name.as_str(), &v, defined, &a)?;
                Ok(Value::Bool(res != *neg))
            },
            Expr::Filter(b, name, args) => {
                let v = self.eval(b, scope)?;
                let a = self.eval_list(args, scope)?;
                self.filter(name.as_str(), &v, &a)
            },
            Expr::Call(callee, args, kwargs) => {
                let a = self.eval_list(args, scope)?;
                proof {
                    expr_views(**callee);
                }
                match &**callee {
                    Expr::Attr(base, name) => {
                        let recv = self.eval(base, scope)?;
                        let v = self.call_method(&recv, name.as_str(), &a)?;
                        if same(name.as_str(), "append") || same(name.as_str(), "extend") || same(
                            name.as_str(),
                            "add",
                        ) {
                            proof {
                                expr_views(**base);
                            }
                            match &**base {
                                Expr::Var(n) => scope.set(n.as_str(), v),
                                _ => {},
                            }
                            return Ok(Value::Null);
                        }
                        Ok(v)
                    },
                    Expr::Var(name) => {
                        if same(name.as_str(), "namespace") {
                            let v = self.eval_keywords(kwargs, scope)?;
                            return Ok(object(v));
                        }
                        self.call_function(name.as_str(), &a)
                    },
                    _ => Err(cat2("cannot call ", self.show_expr(callee).as_str())),
                }
            },
        }
    }

    /// What expressions stand for.
    fn eval_list(&self, a: &Vec<Expr>, scope: &mut Scope) -> (r: Result<Vec<Value>, String>)
        requires
            self.works(),
            old(scope).wf(),
        ensures
            match evs(self.host(), exs(a@), a@.len(), old(scope)@) {
                Ok((v, t)) => r is Ok && vals(r->Ok_0@) == v && final(scope)@ == t && final(scope).frames@.len() == old(scope).frames@.len(),
                Err(m) => r is Err && r->Err_0@ == m,
            },
        decreases a, 0nat,
    {
        let ghost h = self.host();
        let ghost start = scope@;
        let mut out: Vec<Value> = Vec::new();
        assert(vals(out@) =~= Seq::<Val>::empty());
        let mut i: usize = 0;
        while i < a.len()
            invariant
                self.works(),
                h == self.host(),
                scope.wf(),
                scope.frames@.len() == old(scope).frames@.len(),
                start == old(scope)@,
                i <= a@.len(),
                evs(h, exs(a@), i as nat, start) == Ok::<(Seq<Val>, Frames), Seq<char>>(
                    (vals(out@), scope@),
                ),
            decreases a@.len() - i,
        {
            let ghost before = vals(out@);
            proof {
                list_shrinks(*a, i as int);
                assert(exs(a@)[i as int] == a@[i as int]@);
            }
            match self.eval(&a[i], scope) {
                Ok(v) => {
                    out.push(v);
                    assert(vals(out@) =~= before.push(v@));
                },
                Err(m) => {
                    proof {
                        evs_fails(h, exs(a@), (i + 1) as nat, a@.len(), start);
                    }
                    return Err(m);
                },
            }
            i = i + 1;
        }
        Ok(out)
    }

    /// The map that entries make.
    fn eval_pairs(&self, a: &Vec<Pair>, scope: &mut Scope) -> (r: Result<Vec<Entry>, String>)
        requires
            self.works(),
            old(scope).wf(),
        ensures
            match ev_pairs(self.host(), pairs(a@), a@.len(), old(scope)@) {
                Ok((v, t)) => r is Ok && entries(r->Ok_0@) == v && final(scope)@ == t && final(scope).frames@.len() == old(scope).frames@.len(),
                Err(m) => r is Err && r->Err_0@ == m,
            },
        decreases a, 0nat,
    {
        let ghost h = self.host();
        let ghost start = scope@;
        let mut out: Vec<Entry> = Vec::new();
        assert(entries(out@) =~= Seq::<(Seq<char>, Val)>::empty());
        let mut i: usize = 0;
        while i < a.len()
            invariant
                self.works(),
                h == self.host(),
                scope.wf(),
                scope.frames@.len() == old(scope).frames@.len(),
                start == old(scope)@,
                i <= a@.len(),
                ev_pairs(h, pairs(a@), i as nat, start) == Ok::<
                    (Seq<(Seq<char>, Val)>, Frames),
                    Seq<char>,
                >((entries(out@), scope@)),
            decreases a@.len() - i,
        {
            proof {
                pairs_shrink(*a, i as int);
                assert(pairs(a@)[i as int] == (a@[i as int].key@, a@[i as int].value@));
            }
            match self.eval(&a[i].key, scope) {
                Err(m) => {
                    proof {
                        pairs_fail(h, pairs(a@), (i + 1) as nat, a@.len(), start);
                    }
                    return Err(m);
                },
                Ok(k) => match self.eval(&a[i].value, scope) {
                    Err(m) => {
                        proof {
                            pairs_fail(h, pairs(a@), (i + 1) as nat, a@.len(), start);
                        }
                        return Err(m);
                    },
                    Ok(v) => {
                        let key = self.to_text(&k);
                        insert(&mut out, key, v);
                    },
                },
            }
            i = i + 1;
        }
        Ok(out)
    }

    /// The map that arguments given by name make.
    fn eval_keywords(&self, a: &Vec<Keyword>, scope: &mut Scope) -> (r: Result<
        Vec<Entry>,
        String,
    >)
        requires
            self.works(),
            old(scope).wf(),
        ensures
            match ev_keywords(self.host(), keywords(a@), a@.len(), old(scope)@) {
                Ok((v, t)) => r is Ok && entries(r->Ok_0@) == v && final(scope)@ == t && final(scope).frames@.len() == old(scope).frames@.len(),
                Err(m) => r is Err && r->Err_0@ == m,
            },
        decreases a, 0nat,
    {
        let ghost h = self.host();
        let ghost start = scope@;
        let mut out: Vec<Entry> = Vec::new();
        assert(entries(out@) =~= Seq::<(Seq<char>, Val)>::empty());
        let mut i: usize = 0;
        while i < a.len()
            invariant
                self.works(),
                h == self.host(),
                scope.wf(),
                scope.frames@.len() == old(scope).frames@.len(),
                start == old(scope)@,
                i <= a@.len(),
                ev_keywords(h, keywords(a@), i as nat, start) == Ok::<
                    (Seq<(Seq<char>, Val)>, Frames),
                    Seq<char>,
                >((entries(out@), scope@)),
            decreases a@.len() - i,
        {
            proof {
                keywords_shrink(*a, i as int);
                assert(keywords(a@)[i as int] == (a@[i as int].name@, a@[i as int].value@));
            }
            match self.eval(&a[i].value, scope) {
                Err(m) => {
                    proof {
                        keywords_fail(h, keywords(a@), (i + 1) as nat, a@.len(), start);
                    }
                    return Err(m);
                },
                Ok(v) => {
                    insert(&mut out, own(a[i].name.as_str()), v);
                },
            }
            i = i + 1;
        }
        Ok(out)
    }

    /// Runs nodes and appends what they write.
    pub fn exec(&self, a: &Vec<Node>, scope: &mut Scope, out: &mut String) -> (r: Result<
        (),
        String,
    >)
        requires
            self.works(),
            old(scope).wf(),
        ensures
            match run(self.host(), nds(a@), a@.len(), old(scope)@) {
                Ok((t, o)) => r is Ok && final(scope)@ == t && final(out)@ == old(out)@ + o
                    && final(scope).frames@.len() == old(scope).frames@.len(),
                Err(m) => r is Err && r->Err_0@ == m,
            },
        decreases a, 0nat,
    {
        let ghost h = self.host();
        let ghost start = scope@;
        let ghost text = out@;
        let ghost mut done: Seq<char> = Seq::empty();
        assert(text + done =~= text);
        let mut i: usize = 0;
        while i < a.len()
            invariant
                self.works(),
                h == self.host(),
                scope.wf(),
                scope.frames@.len() == old(scope).frames@.len(),
                start == old(scope)@,
                text == old(out)@,
                out@ == text + done,
                i <= a@.len(),
                run(h, nds(a@), i as nat, start) == Ok::<(Frames, Seq<char>), Seq<char>>(
                    (scope@, done),
                ),
            decreases a@.len() - i,
        {
            proof {
                nodes_shrink(*a, i as int);
                assert(nds(a@)[i as int] == a@[i as int]@);
            }
            match self.exec_node(&a[i], scope, out) {
                Err(m) => {
                    proof {
                        run_fails(h, nds(a@), (i + 1) as nat, a@.len(), start);
                    }
                    return Err(m);
                },
                Ok(()) => {},
            }
            i = i + 1;
            proof {
                let all = run(h, nds(a@), i as nat, start)->Ok_0;
                assert(out@ =~= text + all.1);
                done = all.1;
            }
        }
        Ok(())
    }

    /// Runs a node.
    #[verifier::rlimit(40)]
    fn exec_node(&self, n: &Node, scope: &mut Scope, out: &mut String) -> (r: Result<(), String>)
        requires
            self.works(),
            old(scope).wf(),
        ensures
            match run_node(self.host(), n@, old(scope)@) {
                Ok((t, o)) => r is Ok && final(scope)@ == t && final(out)@ == old(out)@ + o
                    && final(scope).frames@.len() == old(scope).frames@.len(),
                Err(m) => r is Err && r->Err_0@ == m,
            },
        decreases n, 1nat,
    {
        proof {
            node_views(*n);
        }
        match n {
            Node::Text(t) => {
                out.append(t.as_str());
                Ok(())
            },
            Node::Output(e) => {
                let v = self.eval(e, scope)?;
                out.append(self.to_text(&v).as_str());
                Ok(())
            },
            Node::If(_, _) => self.exec_if(n, scope, out),
            Node::For { names, seq, body, or_else } => {
                let v = self.eval(seq, scope)?;
                let items = v.iterate();
                if items.len() == 0 {
                    return self.exec(or_else, scope, out);
                }
                scope.push();
                self.exec_loop(n, &items, scope, out)?;
                scope.pop();
                Ok(())
            },
            Node::Assign(names, e) => {
                let v = self.eval(e, scope)?;
                scope.assign_to(names, v);
                assert(out@ =~= out@ + Seq::<char>::empty());
                Ok(())
            },
            Node::SetBlock(name, body) => {
                let mut captured = String::new();
                self.exec(body, scope, &mut captured)?;
                proof {
                    let o = run(self.host(), nds(body@), body@.len(), old(scope)@)->Ok_0.1;
                    assert(Seq::<char>::empty() + o =~= o);
                }
                scope.assign(name.as_str(), Value::Str(captured));
                assert(out@ =~= out@ + Seq::<char>::empty());
                Ok(())
            },
        }
    }

    /// Runs the first branch whose condition is true, else the alternative.
    fn exec_if(&self, n: &Node, scope: &mut Scope, out: &mut String) -> (r: Result<(), String>)
        requires
            self.works(),
            old(scope).wf(),
            n is If,
        ensures
            match run_branch(self.host(), n@, 0, old(scope)@) {
                Ok((t, o)) => r is Ok && final(scope)@ == t && final(out)@ == old(out)@ + o
                    && final(scope).frames@.len() == old(scope).frames@.len(),
                Err(m) => r is Err && r->Err_0@ == m,
            },
        decreases n, 0nat,
    {
        let ghost h = self.host();
        let ghost start = scope@;
        proof {
            node_views(*n);
        }
        match n {
            Node::If(bs, or_else) => {
                let mut i: usize = 0;
                while i < bs.len()
                    invariant
                        self.works(),
                        h == self.host(),
                        scope.wf(),
                        scope.frames@.len() == old(scope).frames@.len(),
                        start == old(scope)@,
                        out@ == old(out)@,
                        i <= bs@.len(),
                        *n == Node::If(*bs, *or_else),
                        n@ == Nd::If(branches(bs@), nds(or_else@)),
                        run_branch(h, n@, 0, start) == run_branch(h, n@, i as nat, scope@),
                    decreases bs@.len() - i,
                {
                    proof {
                        assert(branches(bs@)[i as int] == (
                            bs@[i as int].cond@,
                            nds(bs@[i as int].body@),
                        ));
                        assert(decreases_to!(*n => n->If_0));
                        branches_shrink(n->If_0, i as int);
                    }
                    let v = self.eval(&bs[i].cond, scope)?;
                    if v.truthy() {
                        return self.exec(&bs[i].body, scope, out);
                    }
                    i = i + 1;
                }
                self.exec(or_else, scope, out)
            },
            _ => Ok(()),
        }
    }

    /// Runs the turns of a loop.
    fn exec_loop(&self, n: &Node, items: &Vec<Value>, scope: &mut Scope, out: &mut String) -> (r:
        Result<(), String>)
        requires
            self.works(),
            old(scope).wf(),
            n is For,
        ensures
            match run_loop(self.host(), n@, vals(items@), items@.len(), old(scope)@) {
                Ok((t, o)) => r is Ok && final(scope)@ == t && final(out)@ == old(out)@ + o
                    && final(scope).frames@.len() == old(scope).frames@.len(),
                Err(m) => r is Err && r->Err_0@ == m,
            },
        decreases n, 0nat,
    {
        let ghost h = self.host();
        let ghost start = scope@;
        let ghost text = out@;
        let ghost mut done: Seq<char> = Seq::empty();
        assert(text + done =~= text);
        proof {
            node_views(*n);
        }
        match n {
            Node::For { names, seq, body, or_else } => {
                let mut i: usize = 0;
                while i < items.len()
                    invariant
                        self.works(),
                        h == self.host(),
                        scope.wf(),
                        scope.frames@.len() == old(scope).frames@.len(),
                        start == old(scope)@,
                        text == old(out)@,
                        out@ == text + done,
                        i <= items@.len(),
                        n is For,
                        *body == n->For_body,
                        n@ == Nd::For(texts(names@), seq@, nds(body@), nds(or_else@)),
                        run_loop(h, n@, vals(items@), i as nat, start) == Ok::<
                            (Frames, Seq<char>),
                            Seq<char>,
                        >((scope@, done)),
                    decreases items@.len() - i,
                {
                    scope.bind_loop_vars(names, &items[i]);
                    let m = self.loop_vars(i, items.len());
                    scope.declare("loop", object(m));
                    match self.exec(body, scope, out) {
                        Err(m) => {
                            proof {
                                loop_fails(
                                    h,
                                    n@,
                                    vals(items@),
                                    (i + 1) as nat,
                                    items@.len(),
                                    start,
                                );
                            }
                            return Err(m);
                        },
                        Ok(()) => {},
                    }
                    i = i + 1;
                    proof {
                        let all = run_loop(h, n@, vals(items@), i as nat, start)->Ok_0;
                        assert(out@ =~= text + all.1);
                        done = all.1;
                    }
                }
                Ok(())
            },
            _ => Ok(()),
        }
    }

    /// The variable `loop` in turn `i` of `n`.
    fn loop_vars(&self, i: usize, n: usize) -> (r: Vec<Entry>)
        requires
            self.works(),
            i < n,
        ensures
            entries(r@) == loop_map(self.host(), i as nat, n as nat),
    {
        let mut m: Vec<Entry> = Vec::new();
        assert(entries(m@) =~= Seq::<(Seq<char>, Val)>::empty());
        insert(&mut m, own("index0"), Value::Num(self.from_len(i)));
        insert(&mut m, own("index"), Value::Num(self.from_len(i + 1)));
        insert(&mut m, own("revindex"), Value::Num(self.from_len(n - i)));
        insert(&mut m, own("revindex0"), Value::Num(self.from_len(n - i - 1)));
        insert(&mut m, own("first"), Value::Bool(i == 0));
        insert(&mut m, own("last"), Value::Bool(i + 1 == n));
        insert(&mut m, own("length"), Value::Num(self.from_len(n)));
        m
    }
}

proof fn evs_fails(h: Host, a: Seq<Ex>, i: nat, n: nat, s: Frames)
    requires
        i <= n <= a.len(),
        evs(h, a, i, s) is Err,
    ensures
        evs(h, a, n, s) == evs(h, a, i, s),
    decreases n - i,
{
    if i < n {
        evs_fails(h, a, i, (n - 1) as nat, s);
    }
}

proof fn pairs_fail(h: Host, a: Seq<(Ex, Ex)>, i: nat, n: nat, s: Frames)
    requires
        i <= n <= a.len(),
        ev_pairs(h, a, i, s) is Err,
    ensures
        ev_pairs(h, a, n, s) == ev_pairs(h, a, i, s),
    decreases n - i,
{
    if i < n {
        pairs_fail(h, a, i, (n - 1) as nat, s);
    }
}

proof fn keywords_fail(h: Host, a: Seq<(Seq<char>, Ex)>, i: nat, n: nat, s: Frames)
    requires
        i <= n <= a.len(),
        ev_keywords(h, a, i, s) is Err,
    ensures
        ev_keywords(h, a, n, s) == ev_keywords(h, a, i, s),
    decreases n - i,
{
    if i < n {
        keywords_fail(h, a, i, (n - 1) as nat, s);
    }
}

proof fn run_fails(h: Host, a: Seq<Nd>, i: nat, n: nat, s: Frames)
    requires
        i <= n <= a.len(),
        run(h, a, i, s) is Err,
    ensures
        run(h, a, n, s) == run(h, a, i, s),
    decreases n - i,
{
    if i < n {
        run_fails(h, a, i, (n - 1) as nat, s);
    }
}

proof fn loop_fails(h: Host, nd: Nd, items: Seq<Val>, i: nat, n: nat, s: Frames)
    requires
        nd is For,
        i <= n <= items.len(),
        run_loop(h, nd, items, i, s) is Err,
    ensures
        run_loop(h, nd, items, n, s) == run_loop(h, nd, items, i, s),
    decreases n - i,
{
    if i < n {
        loop_fails(h, nd, items, i, (n - 1) as nat, s);
    }
}

/// A compiled template.
#[derive(Debug)]
pub struct Template {
    pub nodes: Vec<Node>,
}

impl Template {
    /// Compiles a template.
    pub fn parse<
        A: Fn(NumOp, u64, u64) -> u64,
        P: Fn(&str) -> Option<u64>,
        W: Fn(u64, bool) -> String,
    >(src: &str, maths: &Maths<A, P, W>) -> (r: Result<Template, String>)
        requires
            maths.works(),
        ensures
            match parse_template(maths.host(), src@) {
                Ok(v) => r is Ok && nds(r->Ok_0.nodes@) == v,
                Err(m) => r is Err && r->Err_0@ == m,
            },
    {
        let nodes = maths.parse_source(src)?;
        Ok(Template { nodes })
    }

    /// Renders the template with the entries of `ctx` as its variables.
    pub fn render<
        A: Fn(NumOp, u64, u64) -> u64,
        P: Fn(&str) -> Option<u64>,
        W: Fn(u64, bool) -> String,
    >(&self, ctx: &Value, maths: &Maths<A, P, W>) -> (r: Result<String, String>)
        requires
            maths.works(),
        ensures
            match rendered(maths.host(), nds(self.nodes@), ctx@) {
                Ok(t) => r is Ok && r->Ok_0@ == t,
                Err(m) => r is Err && r->Err_0@ == m,
            },
    {
        let mut scope = Scope::new(ctx);
        let mut out = String::new();
        maths.exec(&self.nodes, &mut scope, &mut out)?;
        proof {
            let o = run(maths.host(), nds(self.nodes@), self.nodes@.len(), root(ctx@))->Ok_0.1;
            assert(Seq::<char>::empty() + o =~= o);
        }
        Ok(out)
    }
}

} // verus!
