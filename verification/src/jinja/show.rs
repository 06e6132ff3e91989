//! Expressions as messages show them.

use vstd::prelude::*;
use vstd::string::*;

use super::number::{Host, Maths, NumOp};
use super::parse::{expr_views, exs, keywords, pairs, BinaryOp, Ex, Expr, Keyword, Pair, UnaryOp};
use super::value::{entries, list_view, map_view, vals, Entry, Val, Value};
use crate::text::{debug_text, own, quoted};

verus! {

pub open spec fn unary_sign(op: UnaryOp) -> Seq<char> {
    match op {
        UnaryOp::Not => "not"@,
        UnaryOp::Neg => "-"@,
    }
}

pub open spec fn binary_sign(op: BinaryOp) -> Seq<char> {
    match op {
        BinaryOp::Or => "or"@,
        BinaryOp::And => "and"@,
        BinaryOp::Eq => "=="@,
        BinaryOp::Ne => "!="@,
        BinaryOp::Le => "<="@,
        BinaryOp::Ge => ">="@,
        BinaryOp::Lt => "<"@,
        BinaryOp::Gt => ">"@,
        BinaryOp::In => "in"@,
        BinaryOp::Plus => "+"@,
        BinaryOp::Minus => "-"@,
        BinaryOp::Concat => "~"@,
        BinaryOp::Times => "*"@,
        BinaryOp::FloorDiv => "//"@,
        BinaryOp::Div => "/"@,
        BinaryOp::Rem => "%"@,
    }
}

/// A comma in front of every item but the first.
pub open spec fn comma(n: nat) -> Seq<char> {
    if n <= 1 {
        Seq::empty()
    } else {
        ", "@
    }
}

/// A value as messages show it.
pub open spec fn shown_val(h: Host, v: Val) -> Seq<char>
    decreases v, 0nat,
{
    match v {
        Val::Null => "Null"@,
        Val::Bool(b) => if b {
            "Bool(true)"@
        } else {
            "Bool(false)"@
        },
        Val::Num(n) => "Num("@ + (h.write)(n, true) + ")"@,
        Val::Str(s) => "Str("@ + quoted(s) + ")"@,
        Val::List(a) => "List(["@ + shown_vals(h, a, a.len()) + "])"@,
        Val::Object(m) => "Map({"@ + shown_entries(h, m, m.len()) + "})"@,
    }
}

pub open spec fn shown_vals(h: Host, a: Seq<Val>, n: nat) -> Seq<char>
    decreases a, n,
{
    if n == 0 || n > a.len() {
        Seq::empty()
    } else {
        shown_vals(h, a, (n - 1) as nat) + comma(n) + shown_val(h, a[n - 1])
    }
}

pub open spec fn shown_entries(h: Host, m: Seq<(Seq<char>, Val)>, n: nat) -> Seq<char>
    decreases m, n,
{
    if n == 0 || n > m.len() {
        Seq::empty()
    } else {
        proof {
            assert(decreases_to!(m => m[n - 1]));
        }
        shown_entries(h, m, (n - 1) as nat) + comma(n) + quoted(m[n - 1].0) + ": "@ + shown_val(
            h,
            m[n - 1].1,
        )
    }
}

/// An expression as messages show it.
pub open spec fn shown_ex(h: Host, e: Ex) -> Seq<char>
    decreases e, 0nat,
{
    match e {
        Ex::Lit(v) => "Lit("@ + shown_val(h, v) + ")"@,
        Ex::Var(n) => "Var("@ + quoted(n) + ")"@,
        Ex::Attr(b, n) => "Attr("@ + shown_ex(h, *b) + ", "@ + quoted(n) + ")"@,
        Ex::Index(b, i) => "Index("@ + shown_ex(h, *b) + ", "@ + shown_ex(h, *i) + ")"@,
        Ex::Call(b, a, k) => "Call("@ + shown_ex(h, *b) + ", ["@ + shown_exs(h, a, a.len())
            + "], ["@ + shown_keywords(h, k, k.len()) + "])"@,
        Ex::Filter(b, n, a) => "Filter("@ + shown_ex(h, *b) + ", "@ + quoted(n) + ", ["@
            + shown_exs(h, a, a.len()) + "])"@,
        Ex::Test(b, n, neg, arg) => "Test("@ + shown_ex(h, *b) + ", "@ + quoted(n) + (if neg {
            ", true, "@
        } else {
            ", false, "@
        }) + (match arg {
            Some(a) => "Some("@ + shown_ex(h, *a) + ")"@,
            None => "None"@,
        }) + ")"@,
        Ex::Unary(op, b) => "Unary("@ + quoted(unary_sign(op)) + ", "@ + shown_ex(h, *b) + ")"@,
        Ex::Binary(op, l, r) => "Binary("@ + quoted(binary_sign(op)) + ", "@ + shown_ex(h, *l)
            + ", "@ + shown_ex(h, *r) + ")"@,
        Ex::Ternary(c, x, y) => "Ternary("@ + shown_ex(h, *c) + ", "@ + shown_ex(h, *x) + ", "@
            + shown_ex(h, *y) + ")"@,
        Ex::List(a) => "List(["@ + shown_exs(h, a, a.len()) + "])"@,
        Ex::Object(a) => "Map(["@ + shown_pairs(h, a, a.len()) + "])"@,
    }
}

pub open spec fn shown_exs(h: Host, a: Seq<Ex>, n: nat) -> Seq<char>
    decreases a, n,
{
    if n == 0 || n > a.len() {
        Seq::empty()
    } else {
        shown_exs(h, a, (n - 1) as nat) + comma(n) + shown_ex(h, a[n - 1])
    }
}

pub open spec fn shown_keywords(h: Host, a: Seq<(Seq<char>, Ex)>, n: nat) -> Seq<char>
    decreases a, n,
{
    if n == 0 || n > a.len() {
        Seq::empty()
    } else {
        proof {
            assert(decreases_to!(a => a[n - 1]));
        }
        shown_keywords(h, a, (n - 1) as nat) + comma(n) + "("@ + quoted(a[n - 1].0) + ", "@
            + shown_ex(h, a[n - 1].1) + ")"@
    }
}

pub open spec fn shown_pairs(h: Host, a: Seq<(Ex, Ex)>, n: nat) -> Seq<char>
    decreases a, n,
{
    if n == 0 || n > a.len() {
        Seq::empty()
    } else {
        proof {
            assert(decreases_to!(a => a[n - 1]));
        }
        shown_pairs(h, a, (n - 1) as nat) + comma(n) + "("@ + shown_ex(h, a[n - 1].0) + ", "@
            + shown_ex(h, a[n - 1].1) + ")"@
    }
}

fn unary_text(op: UnaryOp) -> (r: &'static str)
    ensures
        r@ == unary_sign(op),
{
    match op {
        UnaryOp::Not => "not",
        UnaryOp::Neg => "-",
    }
}

fn binary_text(op: BinaryOp) -> (r: &'static str)
    ensures
        r@ == binary_sign(op),
{
    match op {
        BinaryOp::Or => "or",
        BinaryOp::And => "and",
        BinaryOp::Eq => "==",
        BinaryOp::Ne => "!=",
        BinaryOp::Le => "<=",
        BinaryOp::Ge => ">=",
        BinaryOp::Lt => "<",
        BinaryOp::Gt => ">",
        BinaryOp::In => "in",
        BinaryOp::Plus => "+",
        BinaryOp::Minus => "-",
        BinaryOp::Concat => "~",
        BinaryOp::Times => "*",
        BinaryOp::FloorDiv => "//",
        BinaryOp::Div => "/",
        BinaryOp::Rem => "%",
    }
}

/// Appends a comma in front of item `n`, unless it is the first.
fn put_comma(out: &mut String, n: usize)
    ensures
        final(out)@ == old(out)@ + comma((n + 1) as nat),
{
    if n > 0 {
        out.append(", ");
    } else {
        assert(out@ =~= out@ + Seq::<char>::empty());
    }
}

proof fn values_shrink(a: Vec<Value>, i: int)
    requires
        0 <= i < a@.len(),
    ensures
        decreases_to!(a => a@[i]),
{
    assert(decreases_to!(a => a@));
}

proof fn entries_shrink(a: Vec<Entry>, i: int)
    requires
        0 <= i < a@.len(),
    ensures
        decreases_to!(a => a@[i].value),
{
    assert(decreases_to!(a => a@));
    assert(decreases_to!(a@ => a@[i]));
}

proof fn list_shrinks(a: Vec<Expr>, i: int)
    requires
        0 <= i < a@.len(),
    ensures
        decreases_to!(a => a@[i]),
{
    assert(decreases_to!(a => a@));
}

proof fn pairs_shrink(a: Vec<Pair>, i: int)
    requires
        0 <= i < a@.len(),
    ensures
        decreases_to!(a => a@[i].key),
        decreases_to!(a => a@[i].value),
{
    assert(decreases_to!(a => a@));
    assert(decreases_to!(a@ => a@[i]));
}

proof fn keywords_shrink(a: Vec<Keyword>, i: int)
    requires
        0 <= i < a@.len(),
    ensures
        decreases_to!(a => a@[i].value),
{
    assert(decreases_to!(a => a@));
    assert(decreases_to!(a@ => a@[i]));
}

impl<
    A: Fn(NumOp, u64, u64) -> u64,
    P: Fn(&str) -> Option<u64>,
    W: Fn(u64, bool) -> String,
> Maths<A, P, W> {
    fn show_val(&self, v: &Value) -> (r: String)
        requires
            self.works(),
        ensures
            r@ == shown_val(self.host(), v@),
        decreases v,
    {
        match v {
            Value::Null => own("Null"),
            Value::Bool(b) => if *b {
                own("Bool(true)")
            } else {
                own("Bool(false)")
            },
            Value::Num(n) => {
                let mut out = own("Num(");
                out.append(self.written(*n, true).as_str());
                out.append(")");
                out
            },
            Value::Str(s) => {
                let mut out = own("Str(");
                out.append(debug_text(s.as_str()).as_str());
                out.append(")");
                out
            },
            Value::List(a) => {
                proof {
                    list_view(*a);
                }
                let mut out = own("List([");
                out.append(self.show_vals(a).as_str());
                out.append("])");
                out
            },
            Value::Object(m) => {
                proof {
                    map_view(*m);
                }
                let mut out = own("Map({");
                out.append(self.show_entries(m).as_str());
                out.append("})");
                out
            },
        }
    }

    fn show_vals(&self, a: &Vec<Value>) -> (r: String)
        requires
            self.works(),
        ensures
            r@ == shown_vals(self.host(), vals(a@), a@.len()),
        decreases a,
    {
        let mut out = String::new();
        let mut i: usize = 0;
        assert(out@ =~= Seq::<char>::empty());
        while i < a.len()
            invariant
                self.works(),
                i <= a@.len(),
                out@ == shown_vals(self.host(), vals(a@), i as nat),
            decreases a@.len() - i,
        {
            put_comma(&mut out, i);
            proof {
                values_shrink(*a, i as int);
            }
            out.append(self.show_val(&a[i]).as_str());
            i = i + 1;
        }
        out
    }

    fn show_entries(&self, a: &Vec<Entry>) -> (r: String)
        requires
            self.works(),
        ensures
            r@ == shown_entries(self.host(), entries(a@), a@.len()),
        decreases a,
    {
        let mut out = String::new();
        let mut i: usize = 0;
        assert(out@ =~= Seq::<char>::empty());
        while i < a.len()
            invariant
                self.works(),
                i <= a@.len(),
                out@ == shown_entries(self.host(), entries(a@), i as nat),
            decreases a@.len() - i,
        {
            put_comma(&mut out, i);
            out.append(debug_text(a[i].key.as_str()).as_str());
            out.append(": ");
            proof {
                entries_shrink(*a, i as int);
            }
            out.append(self.show_val(&a[i].value).as_str());
            i = i + 1;
        }
        out
    }

    /// An expression as messages show it.
    pub fn show_expr(&self, e: &Expr) -> (r: String)
        requires
            self.works(),
        ensures
            r@ == shown_ex(self.host(), e@),
        decreases e,
    {
        proof {
            expr_views(*e);
        }
        let mut out = String::new();
        match e {
            Expr::Lit(v) => {
                out = own("Lit(");
                out.append(self.show_val(v).as_str());
            },
            Expr::Var(n) => {
                out = own("Var(");
                out.append(debug_text(n.as_str()).as_str());
            },
            Expr::Attr(b, n) => {
                out = own("Attr(");
                out.append(self.show_expr(b).as_str());
                out.append(", ");
                out.append(debug_text(n.as_str()).as_str());
            },
            Expr::Index(b, i) => {
                out = own("Index(");
                out.append(self.show_expr(b).as_str());
                out.append(", ");
                out.append(self.show_expr(i).as_str());
            },
            Expr::Call(b, a, k) => {
                out = own("Call(");
                out.append(self.show_expr(b).as_str());
                out.append(", [");
                out.append(self.show_exprs(a).as_str());
                out.append("], [");
                out.append(self.show_keywords(k).as_str());
                out.append("])");
                return out;
            },
            Expr::Filter(b, n, a) => {
                out = own("Filter(");
                out.append(self.show_expr(b).as_str());
                out.append(", ");
                out.append(debug_text(n.as_str()).as_str());
                out.append(", [");
                out.append(self.show_exprs(a).as_str());
                out.append("])");
                return out;
            },
            Expr::Test(b, n, neg, arg) => {
                out = own("Test(");
                out.append(self.show_expr(b).as_str());
                out.append(", ");
                out.append(debug_text(n.as_str()).as_str());
                if *neg {
                    out.append(", true, ");
                } else {
                    out.append(", false, ");
                }
                match arg {
                    Some(a) => {
                        let mut t = own("Some(");
                        t.append(self.show_expr(a).as_str());
                        t.append(")");
                        out.append(t.as_str());
                    },
                    None => out.append("None"),
                }
            },
            Expr::Unary(op, b) => {
                out = own("Unary(");
                out.append(debug_text(unary_text(*op)).as_str());
                out.append(", ");
                out.append(self.show_expr(b).as_str());
            },
            Expr::Binary(op, l, r) => {
                out = own("Binary(");
                out.append(debug_text(binary_text(*op)).as_str());
                out.append(", ");
                out.append(self.show_expr(l).as_str());
                out.append(", ");
                out.append(self.show_expr(r).as_str());
            },
            Expr::Ternary(c, x, y) => {
                out = own("Ternary(");
                out.append(self.show_expr(c).as_str());
                out.append(", ");
                out.append(self.show_expr(x).as_str());
                out.append(", ");
                out.append(self.show_expr(y).as_str());
            },
            Expr::List(a) => {
                out = own("List([");
                out.append(self.show_exprs(a).as_str());
                out.append("])");
                return out;
            },
            Expr::Object(a) => {
                out = own("Map([");
                out.append(self.show_pairs(a).as_str());
                out.append("])");
                return out;
            },
        }
        out.append(")");
        out
    }

    fn show_exprs(&self, a: &Vec<Expr>) -> (r: String)
        requires
            self.works(),
        ensures
            r@ == shown_exs(self.host(), exs(a@), a@.len()),
        decreases a,
    {
        let mut out = String::new();
        let mut i: usize = 0;
        assert(out@ =~= Seq::<char>::empty());
        while i < a.len()
            invariant
                self.works(),
                i <= a@.len(),
                out@ == shown_exs(self.host(), exs(a@), i as nat),
            decreases a@.len() - i,
        {
            put_comma(&mut out, i);
            proof {
                list_shrinks(*a, i as int);
            }
            out.append(self.show_expr(&a[i]).as_str());
            i = i + 1;
        }
        out
    }

    fn show_keywords(&self, a: &Vec<Keyword>) -> (r: String)
        requires
            self.works(),
        ensures
            r@ == shown_keywords(self.host(), keywords(a@), a@.len()),
        decreases a,
    {
        let mut out = String::new();
        let mut i: usize = 0;
        assert(out@ =~= Seq::<char>::empty());
        while i < a.len()
            invariant
                self.works(),
                i <= a@.len(),
                out@ == shown_keywords(self.host(), keywords(a@), i as nat),
            decreases a@.len() - i,
        {
            put_comma(&mut out, i);
            out.append("(");
            out.append(debug_text(a[i].name.as_str()).as_str());
            out.append(", ");
            proof {
                keywords_shrink(*a, i as int);
            }
            out.append(self.show_expr(&a[i].value).as_str());
            out.append(")");
            i = i + 1;
        }
        out
    }

    fn show_pairs(&self, a: &Vec<Pair>) -> (r: String)
        requires
            self.works(),
        ensures
            r@ == shown_pairs(self.host(), pairs(a@), a@.len()),
        decreases a,
    {
        let mut out = String::new();
        let mut i: usize = 0;
        assert(out@ =~= Seq::<char>::empty());
        while i < a.len()
            invariant
                self.works(),
                i <= a@.len(),
                out@ == shown_pairs(self.host(), pairs(a@), i as nat),
            decreases a@.len() - i,
        {
            put_comma(&mut out, i);
            out.append("(");
            proof {
                pairs_shrink(*a, i as int);
            }
            out.append(self.show_expr(&a[i].key).as_str());
            out.append(", ");
            out.append(self.show_expr(&a[i].value).as_str());
            out.append(")");
            i = i + 1;
        }
        out
    }
}

} // verus!
