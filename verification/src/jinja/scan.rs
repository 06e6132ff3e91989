//! The pieces of a template: text, outputs and statements.

use vstd::prelude::*;
use vstd::string::*;

use crate::text::{
    index_from, index_from_is_first, is_white, own, position_from, range_of, string_of, trim_chars,
    trim_end_from, trimmed, trimmed_end,
};

verus! {

/// A piece of a template.
#[derive(Debug)]
pub enum Piece {
    Text(String),
    /// What stands between `{{` and `}}`.
    Out(String),
    /// What stands between `{%` and `%}`.
    Stmt(String),
}

/// The mathematical value of a [`Piece`].
pub enum Part {
    Text(Seq<char>),
    Out(Seq<char>),
    Stmt(Seq<char>),
}

impl View for Piece {
    type V = Part;

    open spec fn view(&self) -> Part {
        match *self {
            Piece::Text(s) => Part::Text(s@),
            Piece::Out(s) => Part::Out(s@),
            Piece::Stmt(s) => Part::Stmt(s@),
        }
    }
}

/// The views of a list of pieces.
pub open spec fn parts(v: Seq<Piece>) -> Seq<Part> {
    Seq::new(v.len(), |i: int| v[i]@)
}

/// `s` without the spaces and tabs at its end.
pub open spec fn unindented(s: Seq<char>) -> Seq<char>
    decreases s.len(),
{
    if s.len() > 0 && (s.last() == ' ' || s.last() == '\t') {
        unindented(s.drop_last())
    } else {
        s
    }
}

/// Where the white space from `i` on ends.
pub open spec fn white_end(c: Seq<char>, i: nat) -> nat
    decreases c.len() - i,
{
    if i < c.len() && is_white(c[i as int]) {
        white_end(c, i + 1)
    } else {
        i
    }
}

/// Where the line break at `i`, if any, ends.
pub open spec fn line_break_end(c: Seq<char>, i: nat) -> nat {
    let j = if i < c.len() && c[i as int] == '\r' {
        i + 1
    } else {
        i
    };
    if j < c.len() && c[j as int] == '\n' {
        j + 1
    } else {
        j
    }
}

/// Whether a tag opens at `i`.
pub open spec fn opens(c: Seq<char>, i: nat) -> bool {
    c[i as int] == '{' && i + 1 < c.len() && (c[i as int + 1] == '{' || c[i as int + 1] == '%'
        || c[i as int + 1] == '#')
}

/// What closes a tag that opens with `k`.
pub open spec fn closing(k: char) -> Seq<char> {
    if k == '{' {
        seq!['}', '}']
    } else {
        seq![k, '}']
    }
}

pub open spec fn if_any(s: Seq<char>) -> Seq<Part> {
    if s.len() > 0 {
        seq![Part::Text(s)]
    } else {
        Seq::empty()
    }
}

pub open spec fn in_front(a: Seq<Part>, r: Result<Seq<Part>, Seq<char>>) -> Result<
    Seq<Part>,
    Seq<char>,
> {
    match r {
        Ok(s) => Ok(a + s),
        Err(e) => Err(e),
    }
}

/// Where the body of the tag that opens at `i` begins.
pub open spec fn body_start(c: Seq<char>, i: nat) -> nat {
    if i + 2 < c.len() && c[i as int + 2] == '-' {
        i + 3
    } else {
        i + 2
    }
}

/// What the tag that opens at `i` and closes at `k` leaves of the text before it.
pub open spec fn text_before(c: Seq<char>, i: nat, text: Seq<char>) -> Seq<char> {
    if body_start(c, i) == i + 3 {
        trimmed_end(text)
    } else if c[i as int + 1] != '{' {
        unindented(text)
    } else {
        text
    }
}

/// Whether the tag whose body begins at `j` and that closes at `k` strips what follows it.
pub open spec fn strips_after(c: Seq<char>, j: nat, k: nat) -> bool {
    k > j && c[k as int - 1] == '-'
}

/// The block of the tag that opens at `i` and closes at `k`; a comment is none.
pub open spec fn block(c: Seq<char>, i: nat, k: nat) -> Seq<Part> {
    let j = body_start(c, i);
    let end = if strips_after(c, j, k) {
        k - 1
    } else {
        k as int
    };
    let body = trimmed(c.subrange(j as int, end));
    let kind = c[i as int + 1];
    if kind == '{' {
        seq![Part::Out(body)]
    } else if kind == '%' {
        seq![Part::Stmt(body)]
    } else {
        Seq::empty()
    }
}

/// Where reading goes on behind the tag that opens at `i` and closes at `k`.
pub open spec fn behind(c: Seq<char>, i: nat, k: nat) -> nat {
    if strips_after(c, body_start(c, i), k) {
        white_end(c, k + 2)
    } else if c[i as int + 1] != '{' {
        line_break_end(c, k + 2)
    } else {
        k + 2
    }
}

/// The pieces of `c` from `i` on, where `text` is what was read of the current text.
///
/// Whitespace handling matches how chat templates are compiled by those who author them:
/// the indentation in front of a statement tag is dropped, so is the newline after one, and
/// `{%-` / `-%}` strip whitespace in either direction on top of that. Getting this wrong
/// does not fail loudly; it inserts stray blank lines into the prompt, which shifts the
/// model off the format it was trained on.
pub open spec fn scan_from(c: Seq<char>, i: nat, text: Seq<char>) -> Result<Seq<Part>, Seq<char>>
    decreases c.len() - i,
{
    if i >= c.len() {
        Ok(if_any(text))
    } else if opens(c, i) {
        match index_from(c, closing(c[i as int + 1]), body_start(c, i)) {
            None => Err("unterminated template tag"@),
            Some(k) => {
                let next = behind(c, i, k);
                if i < next <= c.len() {
                    in_front(
                        if_any(text_before(c, i, text)) + block(c, i, k),
                        scan_from(c, next, Seq::empty()),
                    )
                } else {
                    Err(Seq::empty())
                }
            },
        }
    } else {
        scan_from(c, i + 1, text.push(c[i as int]))
    }
}

/// The first position where `needle` stands in `hay`.
pub fn find(hay: &[char], needle: &[char]) -> (r: Option<usize>)
    ensures
        match crate::text::index_of(hay@, needle@) {
            Some(i) => r is Some && r->0 == i && i <= hay@.len(),
            None => r is None,
        },
{
    position_from(hay, needle, 0)
}

fn strip_indent(text: &mut Vec<char>)
    ensures
        final(text)@ == unindented(old(text)@),
{
    while text.len() > 0 && (text[text.len() - 1] == ' ' || text[text.len() - 1] == '\t')
        invariant
            unindented(text@) == unindented(old(text)@),
        decreases text@.len(),
    {
        let ghost before = text@;
        text.pop();
        assert(text@ =~= before.drop_last());
    }
}

/// Where reading goes on behind a tag.
fn skip_behind(c: &Vec<char>, k: usize, strip: bool, statement: bool) -> (r: usize)
    requires
        k <= c@.len(),
    ensures
        k <= r <= c@.len(),
        r == if strip {
            white_end(c@, k as nat)
        } else if statement {
            line_break_end(c@, k as nat)
        } else {
            k as nat
        },
{
    let mut i: usize = k;
    if strip {
        while i < c.len() && c[i].is_whitespace()
            invariant
                k <= i <= c@.len(),
                white_end(c@, k as nat) == white_end(c@, i as nat),
            decreases c@.len() - i,
        {
            i = i + 1;
        }
    } else if statement {
        if i < c.len() && c[i] == '\r' {
            i = i + 1;
        }
        if i < c.len() && c[i] == '\n' {
            i = i + 1;
        }
    }
    i
}

proof fn in_front_twice(a: Seq<Part>, b: Seq<Part>, r: Result<Seq<Part>, Seq<char>>)
    ensures
        in_front(a, in_front(b, r)) == in_front(a + b, r),
{
    match r {
        Ok(s) => {
            assert(a + (b + s) =~= (a + b) + s);
        },
        Err(_) => {},
    }
}

/// Adds a text piece, where there is text.
fn push_text(out: &mut Vec<Piece>, text: &Vec<char>)
    ensures
        parts(final(out)@) == parts(old(out)@) + if_any(text@),
{
    let ghost before = parts(out@);
    if text.len() > 0 {
        let p = Piece::Text(string_of(text.as_slice()));
        out.push(p);
        assert(parts(out@) =~= before.push(p@));
    }
    assert(parts(out@) =~= before + if_any(text@));
}

/// Splits a template into its pieces.
#[verifier::spinoff_prover]
#[verifier::rlimit(60)]
pub fn scan(c: &Vec<char>) -> (r: Result<Vec<Piece>, String>)
    ensures
        match scan_from(c@, 0, Seq::empty()) {
            Ok(p) => r is Ok && parts(r->Ok_0@) == p,
            Err(e) => r is Err && r->Err_0@ == e,
        },
{
    let mut out: Vec<Piece> = Vec::new();
    let mut text: Vec<char> = Vec::new();
    let mut i: usize = 0;
    proof {
        assert(parts(out@) =~= Seq::<Part>::empty());
        match scan_from(c@, 0, Seq::empty()) {
            Ok(s) => {
                assert(Seq::<Part>::empty() + s =~= s);
            },
            Err(_) => {},
        }
    }
    while i < c.len()
        invariant
            i <= c@.len(),
            scan_from(c@, 0, Seq::empty()) == in_front(
                parts(out@),
                scan_from(c@, i as nat, text@),
            ),
        decreases c@.len() - i,
    {
        let ghost done = parts(out@);
        let ghost was = text@;
        if c[i] == '{' && i + 1 < c.len() && (c[i + 1] == '{' || c[i + 1] == '%' || c[i + 1]
            == '#') {
            let kind = c[i + 1];
            let mut close: Vec<char> = Vec::new();
            close.push(
                if kind == '{' {
                    '}'
                } else {
                    kind
                },
            );
            close.push('}');
            assert(close@ =~= closing(kind));
            let trim_before = i + 2 < c.len() && c[i + 2] == '-';
            let j: usize = if trim_before {
                i + 3
            } else {
                i + 2
            };
            let k: usize = match position_from(c.as_slice(), close.as_slice(), j) {
                Some(k) => k,
                None => {
                    return Err(own("unterminated template tag"));
                },
            };
            proof {
                index_from_is_first(c@, close@, j as nat);
            }
            let trim_after = k > j && c[k - 1] == '-';
            let end: usize = if trim_after {
                k - 1
            } else {
                k
            };
            let raw = range_of(c.as_slice(), j, end);
            let body = string_of(trim_chars(raw.as_slice()).as_slice());
            if trim_before {
                assert(text@.skip(0) =~= text@);
                let n = trim_end_from(text.as_slice(), 0);
                assert(text@.subrange(0, n as int) =~= text@.take(n as int));
                text.truncate(n);
            } else if kind != '{' {
                strip_indent(&mut text);
            }
            assert(text@ == text_before(c@, i as nat, was));
            push_text(&mut out, &text);
            let ghost mid = parts(out@);
            if kind == '{' {
                let p = Piece::Out(body);
                out.push(p);
                assert(parts(out@) =~= mid.push(p@));
            } else if kind == '%' {
                let p = Piece::Stmt(body);
                out.push(p);
                assert(parts(out@) =~= mid.push(p@));
            }
            assert(parts(out@) =~= mid + block(c@, i as nat, k as nat));
            let next = skip_behind(c, k + 2, trim_after, kind != '{');
            assert(next == behind(c@, i as nat, k as nat));
            text = Vec::new();
            proof {
                let new = if_any(text_before(c@, i as nat, was)) + block(c@, i as nat, k as nat);
                assert(parts(out@) =~= done + new);
                assert(text@ =~= Seq::<char>::empty());
                in_front_twice(done, new, scan_from(c@, next as nat, Seq::empty()));
            }
            i = next;
        } else {
            text.push(c[i]);
            i = i + 1;
        }
    }
    push_text(&mut out, &text);
    Ok(out)
}

} // verus!
