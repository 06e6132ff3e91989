//! Statements.

use vstd::prelude::*;
use vstd::string::*;

use super::lex::{is_word, word_char};
use super::number::{Host, Maths, NumOp};
use super::parse::{parse_expr, Ex, Expr};
use super::scan::{parts, scan, scan_from, Part, Piece};
use crate::text::{
    begins_with, cat2, cat3, chars_of, debug_text, has_prefix, has_text, index_from_is_first,
    index_of, own, position_from, quoted, range_of, same, split_on, split_text, stands_at,
    string_of, string_of_range, texts, trim, trimmed, word_end,
};

verus! {

#[derive(Debug)]
pub enum Node {
    Text(String),
    Output(Expr),
    If(Vec<Branch>, Vec<Node>),
    For { names: Vec<String>, seq: Expr, body: Vec<Node>, or_else: Vec<Node> },
    Assign(Vec<String>, Expr),
    /// `{% set x %}...{% endset %}` captures rendered output into a variable.
    SetBlock(String, Vec<Node>),
}

#[derive(Debug)]
pub struct Branch {
    pub cond: Expr,
    pub body: Vec<Node>,
}

/// The mathematical value of a [`Node`].
pub enum Nd {
    Text(Seq<char>),
    Output(Ex),
    If(Seq<(Ex, Seq<Nd>)>, Seq<Nd>),
    For(Seq<Seq<char>>, Ex, Seq<Nd>, Seq<Nd>),
    Assign(Seq<Seq<char>>, Ex),
    SetBlock(Seq<char>, Seq<Nd>),
}

impl Node {
    #[verifier::opaque]
    pub open spec fn spec_view(self) -> Nd
        decreases self,
    {
        match self {
            Node::Text(s) => Nd::Text(s@),
            Node::Output(e) => Nd::Output(e@),
            Node::If(bs, or_else) => Nd::If(
                Seq::new(
                    bs@.len(),
                    |i: int|
                        if 0 <= i < bs@.len() {
                            (
                                bs@[i].cond@,
                                Seq::new(
                                    bs@[i].body@.len(),
                                    |j: int|
                                        if 0 <= i < bs@.len() && 0 <= j < bs@[i].body@.len() {
                                            bs@[i].body@[j].spec_view()
                                        } else {
                                            Nd::Text(Seq::empty())
                                        },
                                ),
                            )
                        } else {
                            (Ex::Var(Seq::empty()), Seq::empty())
                        },
                ),
                Seq::new(
                    or_else@.len(),
                    |i: int|
                        if 0 <= i < or_else@.len() {
                            or_else@[i].spec_view()
                        } else {
                            Nd::Text(Seq::empty())
                        },
                ),
            ),
            Node::For { names, seq, body, or_else } => Nd::For(
                texts(names@),
                seq@,
                Seq::new(
                    body@.len(),
                    |i: int|
                        if 0 <= i < body@.len() {
                            body@[i].spec_view()
                        } else {
                            Nd::Text(Seq::empty())
                        },
                ),
                Seq::new(
                    or_else@.len(),
                    |i: int|
                        if 0 <= i < or_else@.len() {
                            or_else@[i].spec_view()
                        } else {
                            Nd::Text(Seq::empty())
                        },
                ),
            ),
            Node::Assign(names, e) => Nd::Assign(texts(names@), e@),
            Node::SetBlock(name, body) => Nd::SetBlock(
                name@,
                Seq::new(
                    body@.len(),
                    |i: int|
                        if 0 <= i < body@.len() {
                            body@[i].spec_view()
                        } else {
                            Nd::Text(Seq::empty())
                        },
                ),
            ),
        }
    }
}

impl View for Node {
    type V = Nd;

    open spec fn view(&self) -> Nd {
        self.spec_view()
    }
}

/// The views of a list of nodes.
pub open spec fn nds(v: Seq<Node>) -> Seq<Nd> {
    Seq::new(v.len(), |i: int| v[i]@)
}

/// The views of a list of branches.
pub open spec fn branches(v: Seq<Branch>) -> Seq<(Ex, Seq<Nd>)> {
    Seq::new(v.len(), |i: int| (v[i].cond@, nds(v[i].body@)))
}

/// What each kind of node stands for.
pub proof fn node_views(n: Node)
    ensures
        match n {
            Node::Text(s) => n@ == Nd::Text(s@),
            Node::Output(e) => n@ == Nd::Output(e@),
            Node::If(bs, or_else) => n@ == Nd::If(branches(bs@), nds(or_else@)),
            Node::For { names, seq, body, or_else } => n@ == Nd::For(
                texts(names@),
                seq@,
                nds(body@),
                nds(or_else@),
            ),
            Node::Assign(names, e) => n@ == Nd::Assign(texts(names@), e@),
            Node::SetBlock(name, body) => n@ == Nd::SetBlock(name@, nds(body@)),
        },
{
    reveal(Node::spec_view);
    match n {
        Node::If(bs, or_else) => {
            assert(n@->If_1 =~= nds(or_else@));
            assert forall|i: int| 0 <= i < bs@.len() implies n@->If_0[i] == branches(bs@)[i] by {
                assert(n@->If_0[i].1 =~= nds(bs@[i].body@));
            }
            assert(n@->If_0 =~= branches(bs@));
        },
        Node::For { names, seq, body, or_else } => {
            assert(n@->For_2 =~= nds(body@));
            assert(n@->For_3 =~= nds(or_else@));
        },
        Node::SetBlock(name, body) => {
            assert(n@->SetBlock_1 =~= nds(body@));
        },
        _ => {},
    }
}

// ------------------------------------------------------------------------------ keywords

/// The first word of a statement.
pub open spec fn keyword(b: Seq<char>) -> Seq<char> {
    b.take(word_end(b, 0) as int)
}

/// What follows the first `n` characters of a statement.
pub open spec fn rest_of(b: Seq<char>, n: int) -> Seq<char> {
    trimmed(b.skip(n))
}

/// What ends a list of nodes.
#[derive(Debug, Clone, Copy, PartialEq, Eq, Structural)]
pub enum Until {
    End,
    ElifElseEndif,
    Endif,
    ElseEndfor,
    Endfor,
    Endset,
}

pub open spec fn ends(u: Until, k: Seq<char>) -> bool {
    match u {
        Until::End => false,
        Until::ElifElseEndif => k == "elif"@ || k == "else"@ || k == "endif"@,
        Until::Endif => k == "endif"@,
        Until::ElseEndfor => k == "else"@ || k == "endfor"@,
        Until::Endfor => k == "endfor"@,
        Until::Endset => k == "endset"@,
    }
}

/// Where the bare word `kw` first stands in `c`, from `i` on: not inside an identifier, nor
/// inside a string, `quote` being the open quote at `i`.
pub open spec fn bare_from(c: Seq<char>, kw: Seq<char>, i: nat, quote: Option<char>) -> Option<nat>
    decreases c.len() - i,
{
    if i >= c.len() {
        None
    } else {
        let ch = c[i as int];
        match quote {
            Some(q) => bare_from(
                c,
                kw,
                i + 1,
                if ch == q {
                    None
                } else {
                    quote
                },
            ),
            None => if ch == '"' || ch == '\'' {
                bare_from(c, kw, i + 1, Some(ch))
            } else if crate::text::occurs_at(c, kw, i as int) && (i == 0 || !is_word(
                c[i as int - 1],
            )) && (i + kw.len() >= c.len() || !is_word(c[(i + kw.len()) as int])) {
                Some(i)
            } else {
                bare_from(c, kw, i + 1, None)
            },
        }
    }
}

/// Finds a bare keyword, not one embedded in an identifier or a string.
pub fn find_keyword(c: &Vec<char>, kw: &Vec<char>) -> (r: Option<usize>)
    ensures
        match bare_from(c@, kw@, 0, None) {
            Some(i) => r is Some && r->0 == i && i + kw@.len() <= c@.len(),
            None => r is None,
        },
{
    let mut quote: Option<char> = None;
    let mut i: usize = 0;
    while i < c.len()
        invariant
            i <= c@.len(),
            bare_from(c@, kw@, 0, None) == bare_from(c@, kw@, i as nat, quote),
        decreases c@.len() - i,
    {
        let ch = c[i];
        match quote {
            Some(q) => {
                if ch == q {
                    quote = None;
                }
            },
            None => {
                if ch == '"' || ch == '\'' {
                    quote = Some(ch);
                } else if stands_at(c.as_slice(), kw.as_slice(), i) {
                    let n = c.len();
                    let before_ok = i == 0 || !word_char(c[i - 1]);
                    let after_ok = i + kw.len() >= c.len() || !word_char(c[i + kw.len()]);
                    if before_ok && after_ok {
                        return Some(i);
                    }
                }
            },
        }
        i = i + 1;
    }
    None
}

/// The parts of `s` between commas, trimmed, without empty ones.
pub open spec fn comma_list(s: Seq<char>) -> Seq<Seq<char>> {
    kept(split_on(s, seq![',']))
}

/// The trimmed forms of those strings that hold more than white space.
pub open spec fn kept(v: Seq<Seq<char>>) -> Seq<Seq<char>>
    decreases v.len(),
{
    if v.len() == 0 {
        Seq::empty()
    } else {
        let t = trimmed(v.last());
        if t.len() > 0 {
            kept(v.drop_last()).push(t)
        } else {
            kept(v.drop_last())
        }
    }
}

fn comma_split(s: &str) -> (r: Vec<String>)
    ensures
        texts(r@) == comma_list(s@),
{
    let comma = crate::text::string_of_char(',');
    let all = split_text(s, comma.as_str());
    let ghost v = texts(all@);
    let mut out: Vec<String> = Vec::new();
    assert(texts(out@) =~= Seq::<Seq<char>>::empty());
    let mut i: usize = 0;
    while i < all.len()
        invariant
            i <= all@.len(),
            v == texts(all@),
            texts(out@) == kept(v.take(i as int)),
        decreases all@.len() - i,
    {
        assert(v.take(i + 1).drop_last() =~= v.take(i as int));
        let t = trim(all[i].as_str());
        if !t.as_str().is_empty() {
            let ghost before = texts(out@);
            out.push(t);
            assert(texts(out@) =~= before.push(t@));
        }
        i = i + 1;
    }
    assert(v.take(i as int) =~= v);
    out
}

/// `s` without the opening brackets at its start.
pub open spec fn unopened(s: Seq<char>) -> Seq<char>
    decreases s.len(),
{
    if s.len() > 0 && s[0] == '(' {
        unopened(s.drop_first())
    } else {
        s
    }
}

/// `s` without the closing brackets at its end.
pub open spec fn unclosed(s: Seq<char>) -> Seq<char>
    decreases s.len(),
{
    if s.len() > 0 && s.last() == ')' {
        unclosed(s.drop_last())
    } else {
        s
    }
}

/// The names and the sequence of a loop.
pub open spec fn loop_head(rest: Seq<char>) -> Result<(Seq<Seq<char>>, Seq<char>), Seq<char>> {
    match bare_from(rest, seq!['i', 'n'], 0, None) {
        None => Err("for loop without `in`"@),
        Some(i) => Ok(
            (
                comma_list(unclosed(unopened(trimmed(rest.take(i as int))))),
                trimmed(rest.skip(i as int + 2)),
            ),
        ),
    }
}

/// The string without the brackets around it.
fn strip_brackets(c: &Vec<char>) -> (r: String)
    ensures
        r@ == unclosed(unopened(c@)),
{
    let mut i: usize = 0;
    assert(c@.skip(0) =~= c@);
    while i < c.len() && c[i] == '('
        invariant
            i <= c@.len(),
            unopened(c@) == unopened(c@.skip(i as int)),
        decreases c@.len() - i,
    {
        assert(c@.skip(i as int).drop_first() =~= c@.skip(i + 1));
        i = i + 1;
    }
    let ghost s = c@.skip(i as int);
    assert(unopened(c@) == s);
    let mut j: usize = c.len();
    assert(c@.subrange(i as int, j as int) =~= s);
    while j > i && c[j - 1] == ')'
        invariant
            i <= j <= c@.len(),
            unclosed(s) == unclosed(c@.subrange(i as int, j as int)),
        decreases j,
    {
        assert(c@.subrange(i as int, j as int).drop_last() =~= c@.subrange(i as int, j - 1));
        assert(c@.subrange(i as int, j as int).last() == c@[j - 1]);
        j = j - 1;
    }
    if j > i {
        assert(c@.subrange(i as int, j as int).last() == c@[j - 1]);
    }
    string_of_range(c.as_slice(), i, j)
}

/// The names and the sequence of a loop.
pub fn split_for(rest: &str) -> (r: Result<(Vec<String>, String), String>)
    ensures
        match loop_head(rest@) {
            Ok((n, s)) => r matches Ok((x, y)) && texts(x@) == n && y@ == s,
            Err(e) => r is Err && r->Err_0@ == e,
        },
{
    let c = chars_of(rest);
    let mut kw: Vec<char> = Vec::new();
    kw.push('i');
    kw.push('n');
    assert(kw@ =~= seq!['i', 'n']);
    match find_keyword(&c, &kw) {
        None => Err(own("for loop without `in`")),
        Some(i) => {
            let head = range_of(c.as_slice(), 0, i);
            assert(head@ =~= rest@.take(i as int));
            let t = crate::text::trim_chars(head.as_slice());
            let names = comma_split(strip_brackets(&t).as_str());
            let n = c.len();
            let tail = range_of(c.as_slice(), i + 2, n);
            assert(tail@ =~= rest@.skip(i + 2));
            let seq = string_of(crate::text::trim_chars(tail.as_slice()).as_slice());
            Ok((names, seq))
        },
    }
}

// ---------------------------------------------------------------------------- the grammar

/// Nodes and where reading goes on, or a message.
pub type Nodes = Result<(Seq<Nd>, nat), Seq<char>>;

/// What stands in the block at `p`; text and the end have none.
pub open spec fn block_at(ps: Seq<Part>, p: nat) -> Option<Seq<char>> {
    if p < ps.len() {
        match ps[p as int] {
            Part::Text(_) => None,
            Part::Out(b) => Some(b),
            Part::Stmt(b) => Some(b),
        }
    } else {
        None
    }
}

/// `p`, or the place behind it where the block there begins with `w`.
pub open spec fn past(ps: Seq<Part>, p: nat, w: Seq<char>) -> nat {
    match block_at(ps, p) {
        Some(b) => if begins_with(b, w) {
            p + 1
        } else {
            p
        },
        None => p,
    }
}

pub open spec fn then_nodes(n: Nd, r: Nodes) -> Nodes {
    match r {
        Ok((v, q)) => Ok((seq![n] + v, q)),
        Err(e) => Err(e),
    }
}

/// `r`, where reading did not go back and not beyond the end. It never does.
pub open spec fn onward(r: Nodes, p: nat, ps: Seq<Part>) -> Nodes {
    match r {
        Ok((_, q)) => if p <= q <= ps.len() {
            r
        } else {
            Err(Seq::empty())
        },
        Err(_) => r,
    }
}

/// The nodes from `p` on, up to what ends them.
#[verifier::opaque]
pub open spec fn nodes_from(h: Host, ps: Seq<Part>, p: nat, u: Until) -> Nodes
    decreases ps.len() - p, 2nat,
{
    if p >= ps.len() {
        Ok((Seq::empty(), p))
    } else {
        match ps[p as int] {
            Part::Text(s) => then_nodes(Nd::Text(s), nodes_from(h, ps, p + 1, u)),
            Part::Out(b) => match parse_expr(h, b) {
                Err(e) => Err(e),
                Ok(x) => then_nodes(Nd::Output(x), nodes_from(h, ps, p + 1, u)),
            },
            Part::Stmt(b) => if ends(u, keyword(b)) {
                Ok((Seq::empty(), p))
            } else {
                match statement(h, ps, p, b) {
                    Err(e) => Err(e),
                    Ok((n, q)) => if p < q <= ps.len() {
                        match n {
                            Some(x) => then_nodes(x, nodes_from(h, ps, q, u)),
                            None => nodes_from(h, ps, q, u),
                        }
                    } else {
                        Err(Seq::empty())
                    },
                }
            },
        }
    }
}

/// The statement at `p`.
#[verifier::opaque]
pub open spec fn statement(h: Host, ps: Seq<Part>, p: nat, b: Seq<char>) -> Result<
    (Option<Nd>, nat),
    Seq<char>,
>
    decreases ps.len() - p, 1nat,
{
    let k = keyword(b);
    let rest = rest_of(b, k.len() as int);
    if p >= ps.len() {
        Err(Seq::empty())
    } else if k == "if"@ {
        match parse_expr(h, rest) {
            Err(e) => Err(e),
            Ok(c) => match onward(
                nodes_from(h, ps, p + 1, Until::ElifElseEndif),
                p + 1,
                ps,
            ) {
                Err(e) => Err(e),
                Ok((body, q)) => match if_rest(h, ps, q, seq![(c, body)], Seq::empty()) {
                    Err(e) => Err(e),
                    Ok((n, q2)) => Ok((Some(n), q2)),
                },
            },
        }
    } else if k == "for"@ {
        match loop_head(rest) {
            Err(e) => Err(e),
            Ok((names, over)) => match onward(
                nodes_from(h, ps, p + 1, Until::ElseEndfor),
                p + 1,
                ps,
            ) {
                Err(e) => Err(e),
                Ok((body, q)) => match for_else(h, ps, q) {
                    Err(e) => Err(e),
                    Ok((or_else, q2)) => match parse_expr(h, over) {
                        Err(e) => Err(e),
                        Ok(x) => Ok(
                            (Some(Nd::For(names, x, body, or_else)), past(ps, q2, "endfor"@)),
                        ),
                    },
                },
            },
        }
    } else if k == "set"@ {
        match index_of(rest, seq!['=']) {
            Some(eq) if !has_text(rest.take(eq as int), seq!['(']) => match parse_expr(
                h,
                trimmed(rest.skip(eq as int + 1)),
            ) {
                Err(e) => Err(e),
                Ok(x) => Ok((Some(Nd::Assign(comma_list(rest.take(eq as int)), x)), p + 1)),
            },
            _ => match onward(nodes_from(h, ps, p + 1, Until::Endset), p + 1, ps) {
                Err(e) => Err(e),
                Ok((body, q)) => Ok(
                    (Some(Nd::SetBlock(trimmed(rest), body)), past(ps, q, "endset"@)),
                ),
            },
        }
    } else if k == "generation"@ || k == "endgeneration"@ {
        // These carry no meaning for prompt rendering.
        Ok((None, p + 1))
    } else {
        Err("unsupported template construct "@ + quoted(k))
    }
}

/// The `else` part of a loop, where the block at `p` begins one.
#[verifier::opaque]
pub open spec fn for_else(h: Host, ps: Seq<Part>, p: nat) -> Nodes
    decreases ps.len() - p, 3nat,
{
    match block_at(ps, p) {
        Some(b) => if begins_with(b, "else"@) {
            onward(nodes_from(h, ps, p + 1, Until::Endfor), p + 1, ps)
        } else {
            Ok((Seq::empty(), p))
        },
        None => Ok((Seq::empty(), p)),
    }
}

/// The further branches of a conditional.
#[verifier::opaque]
pub open spec fn if_rest(
    h: Host,
    ps: Seq<Part>,
    p: nat,
    bs: Seq<(Ex, Seq<Nd>)>,
    or_else: Seq<Nd>,
) -> Result<(Nd, nat), Seq<char>>
    decreases ps.len() - p, 3nat,
{
    match block_at(ps, p) {
        None => Ok((Nd::If(bs, or_else), p)),
        Some(b) => {
            let k = keyword(b);
            if k == "elif"@ {
                match parse_expr(h, rest_of(b, 4)) {
                    Err(e) => Err(e),
                    Ok(c) => match onward(
                        nodes_from(h, ps, p + 1, Until::ElifElseEndif),
                        p + 1,
                        ps,
                    ) {
                        Err(e) => Err(e),
                        Ok((body, q)) => if_rest(h, ps, q, bs.push((c, body)), or_else),
                    },
                }
            } else if k == "else"@ {
                match onward(nodes_from(h, ps, p + 1, Until::Endif), p + 1, ps) {
                    Err(e) => Err(e),
                    Ok((body, q)) => if_rest(h, ps, q, bs, body),
                }
            } else if k == "endif"@ {
                Ok((Nd::If(bs, or_else), p + 1))
            } else {
                Err("unexpected "@ + quoted(k) + " inside if"@)
            }
        },
    }
}

/// `s` without one newline at its end.
pub open spec fn without_last_newline(s: Seq<char>) -> Seq<char> {
    if s.len() > 0 && s.last() == '\n' {
        s.drop_last()
    } else {
        s
    }
}

/// The nodes of a template. Its final newline does not count, as templates are written
/// expecting it to disappear.
pub open spec fn parse_template(h: Host, src: Seq<char>) -> Result<Seq<Nd>, Seq<char>> {
    match scan_from(without_last_newline(src), 0, Seq::empty()) {
        Err(e) => Err(e),
        Ok(ps) => match nodes_from(h, ps, 0, Until::End) {
            Err(e) => Err(e),
            Ok((v, _)) => Ok(v),
        },
    }
}


/// `r` behind the nodes `a`.
pub open spec fn after(a: Seq<Nd>, r: Nodes) -> Nodes {
    match r {
        Ok((v, q)) => Ok((a + v, q)),
        Err(e) => Err(e),
    }
}

proof fn after_then(a: Seq<Nd>, n: Nd, r: Nodes)
    ensures
        after(a, then_nodes(n, r)) == after(a.push(n), r),
{
    match r {
        Ok((v, _)) => {
            assert(a + (seq![n] + v) =~= a.push(n) + v);
        },
        Err(_) => {},
    }
}

/// The first word of a statement and what follows it.
fn split_keyword(b: &str) -> (r: (String, String))
    ensures
        r.0@ == keyword(b@),
        r.1@ == rest_of(b@, keyword(b@).len() as int),
        r.0@.len() <= b@.len(),
{
    let c = chars_of(b);
    let n = first_word(&c);
    let k = range_of(c.as_slice(), 0, n);
    assert(k@ =~= b@.take(n as int));
    let tail = range_of(c.as_slice(), n, c.len());
    assert(tail@ =~= b@.skip(n as int));
    (string_of(k.as_slice()), string_of(crate::text::trim_chars(tail.as_slice()).as_slice()))
}

fn first_word(c: &Vec<char>) -> (n: usize)
    ensures
        n == word_end(c@, 0),
        n <= c@.len(),
{
    let mut i: usize = 0;
    while i < c.len() && !c[i].is_whitespace()
        invariant
            i <= c@.len(),
            word_end(c@, 0) == word_end(c@, i as nat),
        decreases c@.len() - i,
    {
        i = i + 1;
    }
    i
}

impl Until {
    fn stops(&self, k: &str) -> (r: bool)
        ensures
            r == ends(*self, k@),
    {
        match self {
            Until::End => false,
            Until::ElifElseEndif => same(k, "elif") || same(k, "else") || same(k, "endif"),
            Until::Endif => same(k, "endif"),
            Until::ElseEndfor => same(k, "else") || same(k, "endfor"),
            Until::Endfor => same(k, "endfor"),
            Until::Endset => same(k, "endset"),
        }
    }
}

/// What stands in the block at `p`.
fn block<'a>(ps: &'a Vec<Piece>, p: usize) -> (r: Option<&'a String>)
    ensures
        match block_at(parts(ps@), p as nat) {
            Some(b) => r is Some && r->0@ == b,
            None => r is None,
        },
{
    if p < ps.len() {
        assert(parts(ps@)[p as int] == ps@[p as int]@);
        match &ps[p] {
            Piece::Text(_) => None,
            Piece::Out(b) => Some(b),
            Piece::Stmt(b) => Some(b),
        }
    } else {
        None
    }
}

/// `p`, or the place behind it where the block there begins with `w`.
fn skip_block(ps: &Vec<Piece>, p: usize, w: &str) -> (q: usize)
    requires
        p <= ps@.len(),
    ensures
        q == past(parts(ps@), p as nat, w@),
        p <= q <= ps@.len(),
{
    let len = ps.len();
    match block(ps, p) {
        Some(b) => if has_prefix(b.as_str(), w) {
            p + 1
        } else {
            p
        },
        None => p,
    }
}

/// What an assignment says: its targets and the text of its value; none where it captures a
/// block instead.
fn assignment(rest: &str) -> (r: Option<(Vec<String>, String)>)
    ensures
        match index_of(rest@, seq!['=']) {
            Some(eq) => if !has_text(rest@.take(eq as int), seq!['(']) {
                r matches Some((t, x)) && texts(t@) == comma_list(rest@.take(eq as int)) && x@
                    == trimmed(rest@.skip(eq as int + 1))
            } else {
                r is None
            },
            None => r is None,
        },
{
    let c = chars_of(rest);
    let mut sign: Vec<char> = Vec::new();
    sign.push('=');
    assert(sign@ =~= seq!['=']);
    match position_from(c.as_slice(), sign.as_slice(), 0) {
        None => None,
        Some(eq) => {
            proof {
                index_from_is_first(rest@, seq!['='], 0);
            }
            let head = range_of(c.as_slice(), 0, eq);
            assert(head@ =~= rest@.take(eq as int));
            let mut open: Vec<char> = Vec::new();
            open.push('(');
            assert(open@ =~= seq!['(']);
            if position_from(head.as_slice(), open.as_slice(), 0).is_some() {
                return None;
            }
            let names = comma_split(string_of(head.as_slice()).as_str());
            let n = c.len();
            let tail = range_of(c.as_slice(), eq + 1, n);
            assert(tail@ =~= rest@.skip(eq + 1));
            Some((names, string_of(crate::text::trim_chars(tail.as_slice()).as_slice())))
        },
    }
}

impl<
    A: Fn(NumOp, u64, u64) -> u64,
    P: Fn(&str) -> Option<u64>,
    W: Fn(u64, bool) -> String,
> Maths<A, P, W> {
    /// The nodes from `from` on, up to what ends them.
    fn parse_nodes(&self, ps: &Vec<Piece>, from: usize, u: Until) -> (r: Result<
        (Vec<Node>, usize),
        String,
    >)
        requires
            self.works(),
            from <= ps@.len(),
        ensures
            match nodes_from(self.host(), parts(ps@), from as nat, u) {
                Ok((v, q)) => r matches Ok((x, y)) && nds(x@) == v && y == q && from <= y
                    <= ps@.len(),
                Err(e) => r is Err && r->Err_0@ == e,
            },
        decreases ps@.len() - from, 2nat,
    {
        let ghost h = self.host();
        let ghost s = parts(ps@);
        let mut out: Vec<Node> = Vec::new();
        let mut p: usize = from;
        proof {
            assert(nds(out@) =~= Seq::<Nd>::empty());
            match nodes_from(h, s, from as nat, u) {
                Ok((v, _)) => {
                    assert(Seq::<Nd>::empty() + v =~= v);
                },
                Err(_) => {},
            }
        }
        while p < ps.len()
            invariant
                self.works(),
                h == self.host(),
                s == parts(ps@),
                from <= p <= ps@.len(),
                nodes_from(h, s, from as nat, u) == after(
                    nds(out@),
                    nodes_from(h, s, p as nat, u),
                ),
            decreases ps@.len() - p,
        {
            proof {
                reveal(nodes_from);
                reveal(statement);
            }
            let ghost before = nds(out@);
            let ghost mut node: Nd = Nd::Text(Seq::empty());
            assert(s[p as int] == ps@[p as int]@);
            match &ps[p] {
                Piece::Text(t) => {
                    let n = Node::Text(own(t.as_str()));
                    proof {
                        node_views(n);
                        after_then(before, n@, nodes_from(h, s, p as nat + 1, u));
                    }
                    out.push(n);
                    assert(nds(out@) =~= before.push(n@));
                    p = p + 1;
                },
                Piece::Out(b) => {
                    let n = Node::Output(self.parse_expr_str(b.as_str())?);
                    proof {
                        node_views(n);
                        after_then(before, n@, nodes_from(h, s, p as nat + 1, u));
                    }
                    out.push(n);
                    assert(nds(out@) =~= before.push(n@));
                    p = p + 1;
                },
                Piece::Stmt(b) => {
                    let (k, rest) = split_keyword(b.as_str());
                    if u.stops(k.as_str()) {
                        assert(before + Seq::<Nd>::empty() =~= before);
                        return Ok((out, p));
                    }
                    let (n, q) = self.parse_statement(ps, p, k.as_str(), rest.as_str())?;
                    match n {
                        Some(n) => {
                            proof {
                                after_then(before, n@, nodes_from(h, s, q as nat, u));
                            }
                            out.push(n);
                            assert(nds(out@) =~= before.push(n@));
                        },
                        None => {},
                    }
                    p = q;
                },
            }
        }
        proof {
            reveal(nodes_from);
            assert(nds(out@) + Seq::<Nd>::empty() =~= nds(out@));
        }
        Ok((out, p))
    }

    /// The statement at `p`, whose first word is `k`.
    fn parse_statement(&self, ps: &Vec<Piece>, p: usize, k: &str, rest: &str) -> (r: Result<
        (Option<Node>, usize),
        String,
    >)
        requires
            self.works(),
            p < ps@.len(),
            parts(ps@)[p as int] is Stmt,
            k@ == keyword(parts(ps@)[p as int]->Stmt_0),
            rest@ == rest_of(parts(ps@)[p as int]->Stmt_0, k@.len() as int),
        ensures
            match statement(self.host(), parts(ps@), p as nat, parts(ps@)[p as int]->Stmt_0) {
                Ok((n, q)) => r matches Ok((x, y)) && y == q && p < y <= ps@.len() && match n {
                    Some(n) => x is Some && x->0@ == n,
                    None => x is None,
                },
                Err(e) => r is Err && r->Err_0@ == e,
            },
        decreases ps@.len() - p, 1nat,
    {
        let len = ps.len();
        proof {
            reveal(statement);
            reveal(nodes_from);
            reveal(for_else);
            reveal(if_rest);
        }
        if same(k, "if") {
            let cond = self.parse_expr_str(rest)?;
            let (body, q) = self.parse_nodes(ps, p + 1, Until::ElifElseEndif)?;
            let mut branches: Vec<Branch> = Vec::new();
            let ghost g = (cond@, nds(body@));
            branches.push(Branch { cond, body });
            assert(self::branches(branches@) =~= seq![g]);
            let (n, q2) = self.parse_branches(ps, q, branches)?;
            return Ok((Some(n), q2));
        }
        if same(k, "for") {
            let (names, over) = split_for(rest)?;
            let (body, q) = self.parse_nodes(ps, p + 1, Until::ElseEndfor)?;
            let (or_else, q2) = self.parse_for_else(ps, q)?;
            let seq = self.parse_expr_str(over.as_str())?;
            let q3 = skip_block(ps, q2, "endfor");
            let n = Node::For { names, seq, body, or_else };
            proof {
                node_views(n);
            }
            return Ok((Some(n), q3));
        }
        if same(k, "set") {
            match assignment(rest) {
                Some((names, text)) => {
                    let n = Node::Assign(names, self.parse_expr_str(text.as_str())?);
                    proof {
                        node_views(n);
                    }
                    return Ok((Some(n), p + 1));
                },
                None => {
                    let (body, q) = self.parse_nodes(ps, p + 1, Until::Endset)?;
                    let n = Node::SetBlock(trim(rest), body);
                    proof {
                        node_views(n);
                    }
                    return Ok((Some(n), skip_block(ps, q, "endset")));
                },
            }
        }
        if same(k, "generation") || same(k, "endgeneration") {
            return Ok((None, p + 1));
        }
        Err(cat2("unsupported template construct ", debug_text(k).as_str()))
    }

    /// The `else` part of a loop, where the block at `p` begins one.
    fn parse_for_else(&self, ps: &Vec<Piece>, p: usize) -> (r: Result<(Vec<Node>, usize), String>)
        requires
            self.works(),
            p <= ps@.len(),
        ensures
            match for_else(self.host(), parts(ps@), p as nat) {
                Ok((v, q)) => r matches Ok((x, y)) && nds(x@) == v && y == q && p <= y
                    <= ps@.len(),
                Err(e) => r is Err && r->Err_0@ == e,
            },
        decreases ps@.len() - p, 3nat,
    {
        let len = ps.len();
        proof {
            reveal(for_else);
            reveal(nodes_from);
        }
        let is_else = match block(ps, p) {
            Some(b) => has_prefix(b.as_str(), "else"),
            None => false,
        };
        if is_else {
            return self.parse_nodes(ps, p + 1, Until::Endfor);
        }
        let none: Vec<Node> = Vec::new();
        assert(nds(none@) =~= Seq::<Nd>::empty());
        Ok((none, p))
    }

    /// The further branches of a conditional whose first ones are `first`.
    fn parse_branches(&self, ps: &Vec<Piece>, from: usize, first: Vec<Branch>) -> (r: Result<
        (Node, usize),
        String,
    >)
        requires
            self.works(),
            from <= ps@.len(),
        ensures
            match if_rest(
                self.host(),
                parts(ps@),
                from as nat,
                branches(first@),
                Seq::empty(),
            ) {
                Ok((n, q)) => r matches Ok((x, y)) && x@ == n && y == q && from <= y <= ps@.len(),
                Err(e) => r is Err && r->Err_0@ == e,
            },
        decreases ps@.len() - from, 3nat,
    {
        let ghost h = self.host();
        let ghost s = parts(ps@);
        let mut bs = first;
        let mut or_else: Vec<Node> = Vec::new();
        assert(nds(or_else@) =~= Seq::<Nd>::empty());
        let mut p: usize = from;
        loop
            invariant
                self.works(),
                h == self.host(),
                s == parts(ps@),
                from <= p <= ps@.len(),
                if_rest(h, s, from as nat, branches(first@), Seq::empty()) == if_rest(
                    h,
                    s,
                    p as nat,
                    branches(bs@),
                    nds(or_else@),
                ),
            decreases ps@.len() - p,
        {
            let len = ps.len();
            proof {
                reveal(if_rest);
                reveal(nodes_from);
                reveal_strlit("elif");
            }
            let (k, cond) = match block(ps, p) {
                None => {
                    let n = Node::If(bs, or_else);
                    proof {
                        node_views(n);
                    }
                    return Ok((n, p));
                },
                Some(b) => (split_keyword(b.as_str()).0, after_elif(b.as_str())),
            };
            if same(k.as_str(), "elif") {
                let cond = self.parse_expr_str(cond.as_str())?;
                let (body, q) = self.parse_nodes(ps, p + 1, Until::ElifElseEndif)?;
                let ghost before = branches(bs@);
                let ghost g = (cond@, nds(body@));
                bs.push(Branch { cond, body });
                assert(branches(bs@) =~= before.push(g));
                p = q;
            } else if same(k.as_str(), "else") {
                let (body, q) = self.parse_nodes(ps, p + 1, Until::Endif)?;
                or_else = body;
                p = q;
            } else if same(k.as_str(), "endif") {
                let n = Node::If(bs, or_else);
                proof {
                    node_views(n);
                }
                return Ok((n, p + 1));
            } else {
                return Err(cat3("unexpected ", debug_text(k.as_str()).as_str(), " inside if"));
            }
        }
    }

    /// The nodes of a template.
    pub fn parse_source(&self, src: &str) -> (r: Result<Vec<Node>, String>)
        requires
            self.works(),
        ensures
            match parse_template(self.host(), src@) {
                Ok(v) => r is Ok && nds(r->Ok_0@) == v,
                Err(e) => r is Err && r->Err_0@ == e,
            },
    {
        let mut c = chars_of(src);
        if c.len() > 0 && c[c.len() - 1] == '\n' {
            c.pop();
            assert(c@ =~= src@.drop_last());
        }
        let ps = scan(&c)?;
        let (nodes, _) = self.parse_nodes(&ps, 0, Until::End)?;
        Ok(nodes)
    }
}

/// What follows the four characters of `elif`.
fn after_elif(b: &str) -> (r: String)
    ensures
        b@.len() >= 4 ==> r@ == rest_of(b@, 4),
{
    let c = chars_of(b);
    if c.len() < 4 {
        return String::new();
    }
    let tail = range_of(c.as_slice(), 4, c.len());
    assert(tail@ =~= b@.skip(4));
    string_of(crate::text::trim_chars(tail.as_slice()).as_slice())
}

} // verus!
