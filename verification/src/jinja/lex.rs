//! The words of an expression.

use vstd::prelude::*;
use vstd::string::*;

use super::number::{Host, Maths, NumOp};
use crate::text::{
    cat2, cat3, chars_of, debug_text, is_alpha, is_num, is_white, own, quoted, string_of_char,
    string_of_range,
};

verus! {

#[derive(Debug)]
pub enum Tok {
    Name(String),
    Str(String),
    Num(u64),
    Op(String),
    End,
}

/// The mathematical value of a [`Tok`].
pub enum Token {
    Name(Seq<char>),
    Str(Seq<char>),
    Num(u64),
    Op(Seq<char>),
    End,
}

impl View for Tok {
    type V = Token;

    open spec fn view(&self) -> Token {
        match *self {
            Tok::Name(s) => Token::Name(s@),
            Tok::Str(s) => Token::Str(s@),
            Tok::Num(n) => Token::Num(n),
            Tok::Op(s) => Token::Op(s@),
            Tok::End => Token::End,
        }
    }
}

/// The views of a list of words.
pub open spec fn tokens(v: Seq<Tok>) -> Seq<Token> {
    Seq::new(v.len(), |i: int| v[i]@)
}

/// How a word is shown in a message.
pub open spec fn shown(h: Host, t: Token) -> Seq<char> {
    match t {
        Token::Name(s) => "Name("@ + quoted(s) + ")"@,
        Token::Str(s) => "Str("@ + quoted(s) + ")"@,
        Token::Num(n) => "Num("@ + (h.write)(n, true) + ")"@,
        Token::Op(s) => "Op("@ + quoted(s) + ")"@,
        Token::End => "End"@,
    }
}

pub open spec fn is_ascii_num(c: char) -> bool {
    '0' <= c <= '9'
}

/// Whether `c` can stand in a name, behind its first character.
pub open spec fn is_word(c: char) -> bool {
    is_alpha(c) || is_num(c) || c == '_'
}

/// The character that stands for `c` behind a backslash.
pub open spec fn unescaped(c: char) -> char {
    if c == 'n' {
        '\n'
    } else if c == 't' {
        '\t'
    } else if c == 'r' {
        '\r'
    } else if c == '0' {
        '\0'
    } else {
        c
    }
}

/// The string that goes on at `i` and ends at the quote `q`, and where it ends.
pub open spec fn string_from(c: Seq<char>, i: nat, q: char) -> Option<(Seq<char>, nat)>
    decreases c.len() - i,
{
    if i >= c.len() {
        None
    } else if c[i as int] == q {
        Some((Seq::empty(), i + 1))
    } else if c[i as int] == '\\' && i + 1 < c.len() {
        match string_from(c, i + 2, q) {
            Some((s, e)) => Some((seq![unescaped(c[i as int + 1])] + s, e)),
            None => None,
        }
    } else {
        match string_from(c, i + 1, q) {
            Some((s, e)) => Some((seq![c[i as int]] + s, e)),
            None => None,
        }
    }
}

/// Where the run of digits and points from `i` on ends.
pub open spec fn number_end(c: Seq<char>, i: nat) -> nat
    decreases c.len() - i,
{
    if i < c.len() && (is_ascii_num(c[i as int]) || c[i as int] == '.') {
        number_end(c, i + 1)
    } else {
        i
    }
}

/// Where the name that goes on at `i` ends.
pub open spec fn name_end(c: Seq<char>, i: nat) -> nat
    decreases c.len() - i,
{
    if i < c.len() && is_word(c[i as int]) {
        name_end(c, i + 1)
    } else {
        i
    }
}

/// Whether the two characters at `i` are one operator.
pub open spec fn is_pair(c: Seq<char>, i: nat) -> bool {
    i + 1 < c.len() && {
        let a = c[i as int];
        let b = c[i as int + 1];
        (b == '=' && (a == '=' || a == '!' || a == '<' || a == '>')) || (a == '/' && b == '/') || (a
            == '*' && b == '*')
    }
}

/// The words behind `first`.
pub open spec fn cons(first: Token, rest: Result<Seq<Token>, Seq<char>>) -> Result<
    Seq<Token>,
    Seq<char>,
> {
    match rest {
        Ok(s) => Ok(seq![first] + s),
        Err(e) => Err(e),
    }
}

/// The words of `c` from `i` on.
pub open spec fn lex_from(h: Host, c: Seq<char>, i: nat) -> Result<Seq<Token>, Seq<char>>
    decreases c.len() - i,
{
    if i >= c.len() {
        Ok(seq![Token::End])
    } else {
        let ch = c[i as int];
        if is_white(ch) {
            lex_from(h, c, i + 1)
        } else if ch == '"' || ch == '\'' {
            match string_from(c, i + 1, ch) {
                None => Err("unterminated string in expression"@),
                Some((s, e)) => if i < e <= c.len() {
                    cons(Token::Str(s), lex_from(h, c, e))
                } else {
                    Err(Seq::empty())
                },
            }
        } else if is_ascii_num(ch) {
            let e = number_end(c, i);
            if i < e <= c.len() {
                let text = c.subrange(i as int, e as int);
                match (h.parse)(text) {
                    None => Err("bad number "@ + text),
                    Some(n) => cons(Token::Num(n), lex_from(h, c, e)),
                }
            } else {
                Err(Seq::empty())
            }
        } else if is_alpha(ch) || ch == '_' {
            let e = name_end(c, i);
            if i < e <= c.len() {
                cons(Token::Name(c.subrange(i as int, e as int)), lex_from(h, c, e))
            } else {
                Err(Seq::empty())
            }
        } else if is_pair(c, i) {
            cons(Token::Op(c.subrange(i as int, i as int + 2)), lex_from(h, c, i + 2))
        } else {
            cons(Token::Op(seq![ch]), lex_from(h, c, i + 1))
        }
    }
}

proof fn string_from_bounds(c: Seq<char>, i: nat, q: char)
    ensures
        string_from(c, i, q) matches Some((s, e)) ==> i < e <= c.len(),
    decreases c.len() - i,
{
    if i < c.len() && c[i as int] != q {
        if c[i as int] == '\\' && i + 1 < c.len() {
            string_from_bounds(c, i + 2, q);
        } else {
            string_from_bounds(c, i + 1, q);
        }
    }
}

/// `a` before the words of `r`.
pub open spec fn before(a: Seq<Token>, r: Result<Seq<Token>, Seq<char>>) -> Result<
    Seq<Token>,
    Seq<char>,
> {
    match r {
        Ok(s) => Ok(a + s),
        Err(e) => Err(e),
    }
}

proof fn before_cons(a: Seq<Token>, t: Token, r: Result<Seq<Token>, Seq<char>>)
    ensures
        before(a, cons(t, r)) == before(a.push(t), r),
{
    match r {
        Ok(s) => {
            assert(a + (seq![t] + s) =~= a.push(t) + s);
        },
        Err(_) => {},
    }
}

/// Reads the string that goes on at `i`.
fn lex_string(c: &Vec<char>, i: usize, q: char) -> (r: Option<(String, usize)>)
    requires
        i <= c@.len(),
    ensures
        match string_from(c@, i as nat, q) {
            Some((s, e)) => r matches Some((t, f)) && t@ == s && f == e && i < f <= c@.len(),
            None => r is None,
        },
{
    let mut s = String::new();
    let mut k: usize = i;
    loop
        invariant
            i <= k <= c@.len(),
            match string_from(c@, k as nat, q) {
                Some((rest, e)) => string_from(c@, i as nat, q) == Some((s@ + rest, e)),
                None => string_from(c@, i as nat, q) is None,
            },
        decreases c@.len() - k,
    {
        if k >= c.len() {
            return None;
        }
        if c[k] == q {
            assert(s@ + Seq::<char>::empty() =~= s@);
            return Some((s, k + 1));
        }
        let ghost before_s = s@;
        if c[k] == '\\' && k + 1 < c.len() {
            let d = c[k + 1];
            let u = if d == 'n' {
                '\n'
            } else if d == 't' {
                '\t'
            } else if d == 'r' {
                '\r'
            } else if d == '0' {
                '\0'
            } else {
                d
            };
            s.push(u);
            proof {
                if string_from(c@, (k + 2) as nat, q) is Some {
                    let (rest, _) = string_from(c@, (k + 2) as nat, q)->0;
                    assert(before_s + (seq![u] + rest) =~= s@ + rest);
                }
            }
            k = k + 2;
        } else {
            s.push(c[k]);
            proof {
                if string_from(c@, (k + 1) as nat, q) is Some {
                    let (rest, _) = string_from(c@, (k + 1) as nat, q)->0;
                    assert(before_s + (seq![c@[k as int]] + rest) =~= s@ + rest);
                }
            }
            k = k + 1;
        }
    }
}

/// Whether `c` can stand in a name, behind its first character.
pub fn word_char(c: char) -> (r: bool)
    ensures
        r == is_word(c),
{
    c.is_alphabetic() || c.is_numeric() || c == '_'
}

impl<
    A: Fn(NumOp, u64, u64) -> u64,
    P: Fn(&str) -> Option<u64>,
    W: Fn(u64, bool) -> String,
> Maths<A, P, W> {
    /// The words of an expression.
    pub fn lex(&self, src: &str) -> (r: Result<Vec<Tok>, String>)
        requires
            self.works(),
        ensures
            match lex_from(self.host(), src@, 0) {
                Ok(t) => r is Ok && tokens(r->Ok_0@) == t,
                Err(e) => r is Err && r->Err_0@ == e,
            },
    {
        let c = chars_of(src);
        let ghost h = self.host();
        let mut out: Vec<Tok> = Vec::new();
        let mut i: usize = 0;
        proof {
            assert(tokens(out@) =~= Seq::<Token>::empty());
            match lex_from(h, c@, 0) {
                Ok(s) => {
                    assert(Seq::<Token>::empty() + s =~= s);
                },
                Err(_) => {},
            }
        }
        while i < c.len()
            invariant
                self.works(),
                h == self.host(),
                c@ == src@,
                i <= c@.len(),
                lex_from(h, c@, 0) == before(tokens(out@), lex_from(h, c@, i as nat)),
            decreases c@.len() - i,
        {
            let ch = c[i];
            let ghost done = tokens(out@);
            if ch.is_whitespace() {
                i = i + 1;
            } else if ch == '"' || ch == '\'' {
                proof {
                    string_from_bounds(c@, (i + 1) as nat, ch);
                }
                match lex_string(&c, i + 1, ch) {
                    None => {
                        return Err(own("unterminated string in expression"));
                    },
                    Some((s, e)) => {
                        proof {
                            before_cons(done, Token::Str(s@), lex_from(h, c@, e as nat));
                        }
                        let t = Tok::Str(s);
                        out.push(t);
                        assert(tokens(out@) =~= done.push(t@));
                        i = e;
                    },
                }
            } else if ch >= '0' && ch <= '9' {
                let start = i;
                while i < c.len() && ((c[i] >= '0' && c[i] <= '9') || c[i] == '.')
                    invariant
                        start <= i <= c@.len(),
                        number_end(c@, start as nat) == number_end(c@, i as nat),
                    decreases c@.len() - i,
                {
                    i = i + 1;
                }
                assert(number_end(c@, start as nat) == i);
                assert(number_end(c@, start as nat) == number_end(c@, (start + 1) as nat));
                proof {
                    number_end_grows(c@, (start + 1) as nat);
                }
                let text = string_of_range(c.as_slice(), start, i);
                match self.parsed(text.as_str()) {
                    None => {
                        return Err(cat2("bad number ", text.as_str()));
                    },
                    Some(n) => {
                        proof {
                            before_cons(done, Token::Num(n), lex_from(h, c@, i as nat));
                        }
                        out.push(Tok::Num(n));
                        assert(tokens(out@) =~= done.push(Token::Num(n)));
                    },
                }
            } else if ch.is_alphabetic() || ch == '_' {
                let start = i;
                while i < c.len() && word_char(c[i])
                    invariant
                        start <= i <= c@.len(),
                        name_end(c@, start as nat) == name_end(c@, i as nat),
                    decreases c@.len() - i,
                {
                    i = i + 1;
                }
                assert(name_end(c@, start as nat) == i);
                assert(name_end(c@, start as nat) == name_end(c@, (start + 1) as nat));
                proof {
                    name_end_grows(c@, (start + 1) as nat);
                }
                let s = string_of_range(c.as_slice(), start, i);
                proof {
                    before_cons(done, Token::Name(s@), lex_from(h, c@, i as nat));
                }
                let t = Tok::Name(s);
                out.push(t);
                assert(tokens(out@) =~= done.push(t@));
            } else if i + 1 < c.len() && ((c[i + 1] == '=' && (ch == '=' || ch == '!' || ch == '<'
                || ch == '>')) || (ch == '/' && c[i + 1] == '/') || (ch == '*' && c[i + 1]
                == '*')) {
                let s = string_of_range(c.as_slice(), i, i + 2);
                proof {
                    before_cons(done, Token::Op(s@), lex_from(h, c@, (i + 2) as nat));
                }
                let t = Tok::Op(s);
                out.push(t);
                assert(tokens(out@) =~= done.push(t@));
                i = i + 2;
            } else {
                let s = string_of_char(ch);
                proof {
                    before_cons(done, Token::Op(s@), lex_from(h, c@, (i + 1) as nat));
                }
                let t = Tok::Op(s);
                out.push(t);
                assert(tokens(out@) =~= done.push(t@));
                i = i + 1;
            }
        }
        let ghost done = tokens(out@);
        out.push(Tok::End);
        assert(tokens(out@) =~= done + seq![Token::End]);
        Ok(out)
    }

    /// How a word is shown in a message.
    pub fn show(&self, t: &Tok) -> (r: String)
        requires
            self.works(),
        ensures
            r@ == shown(self.host(), t@),
    {
        match t {
            Tok::Name(s) => cat3("Name(", debug_text(s.as_str()).as_str(), ")"),
            Tok::Str(s) => cat3("Str(", debug_text(s.as_str()).as_str(), ")"),
            Tok::Num(n) => cat3("Num(", self.written(*n, true).as_str(), ")"),
            Tok::Op(s) => cat3("Op(", debug_text(s.as_str()).as_str(), ")"),
            Tok::End => own("End"),
        }
    }
}

proof fn number_end_grows(c: Seq<char>, i: nat)
    ensures
        i <= number_end(c, i),
        i <= c.len() ==> number_end(c, i) <= c.len(),
    decreases c.len() - i,
{
    if i < c.len() {
        number_end_grows(c, i + 1);
    }
}

proof fn name_end_grows(c: Seq<char>, i: nat)
    ensures
        i <= name_end(c, i),
        i <= c.len() ==> name_end(c, i) <= c.len(),
    decreases c.len() - i,
{
    if i < c.len() {
        name_end_grows(c, i + 1);
    }
}

} // verus!
