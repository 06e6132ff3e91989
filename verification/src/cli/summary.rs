//! Metadata values on one line each.

use vstd::prelude::*;
use vstd::string::*;
use vstd::utf8::encode_utf8;

use crate::gguf::value::{values, Value, ValueView};
use crate::scalar::Scalar;
use crate::text::{
    cat3, cat4, cat5, chars_of, debug_text, dec, decimal, join_text, joined, own, quoted,
    string_of_range, texts,
};

verus! {

/// A number to be put into words.
#[derive(Debug, Clone, Copy)]
pub enum Show {
    /// A single-precision number.
    Single(u32),
    /// A double-precision number.
    Double(u64),
    /// A number described by how it comes about.
    Of(Scalar),
    /// A count of bytes in GiB, with two places.
    Gib(u64),
    /// A count of bytes in MiB, with two places.
    Mib(u64),
    /// A count of bytes in whole MiB.
    WholeMib(u64),
    /// A single-precision number with an exponent, with three places.
    Scientific(u32),
}

/// What puts numbers into words.
pub struct Printer<W> {
    pub show: W,
}

impl<W: Fn(Show) -> String> Printer<W> {
    /// The words for a number.
    pub open spec fn words(self) -> spec_fn(Show) -> Seq<char> {
        |x: Show|
            {
                let t = choose|t: String| call_ensures(self.show, (x,), t);
                t@
            }
    }

    /// Whether every number can be put into words, in one way.
    pub open spec fn works(self) -> bool {
        &&& forall|x: Show| call_requires(self.show, (x,))
        &&& forall|x: Show, s: String, t: String|
            call_ensures(self.show, (x,), s) && call_ensures(self.show, (x,), t) ==> s@ == t@
    }

    pub fn say(&self, x: Show) -> (r: String)
        requires
            self.works(),
        ensures
            r@ == (self.words())(x),
    {
        (self.show)(x)
    }
}

/// The least number of characters from `i` on that take at least `n` bytes.
pub open spec fn head_from(s: Seq<char>, n: nat, i: nat) -> nat
    decreases s.len() - i,
{
    if i >= s.len() || encode_utf8(s.take(i as int)).len() >= n {
        i
    } else {
        head_from(s, n, i + 1)
    }
}

/// The characters that the first 90 bytes hold.
pub open spec fn head_of(s: Seq<char>) -> Seq<char> {
    s.take(head_from(s, 90, 0) as int)
}

/// Whether a long text can be cut behind its 90th byte: a character ends there.
pub open spec fn can_cut(s: Seq<char>) -> bool {
    encode_utf8(s).len() > 96 ==> encode_utf8(head_of(s)).len() == 90
}

/// Whether a value can be summarized.
pub open spec fn has_line(v: ValueView) -> bool
    decreases v,
{
    match v {
        ValueView::String(s) => can_cut(s),
        ValueView::Array(a) => forall|i: int| 0 <= i < a.len() && i < 6 ==> has_line(#[trigger] a[i]),
        _ => true,
    }
}

/// A short single-line rendering, with long arrays elided.
pub open spec fn line_of(w: spec_fn(Show) -> Seq<char>, v: ValueView) -> Seq<char>
    decreases v, 0nat,
{
    match v {
        ValueView::String(s) => if encode_utf8(s).len() > 96 {
            quoted(head_of(s)) + "... ("@ + dec(encode_utf8(s).len()) + " bytes)"@
        } else {
            quoted(s)
        },
        ValueView::Array(a) => {
            let n = if a.len() > 6 {
                6
            } else {
                a.len()
            };
            let head = joined(lines_of(w, a, n), ", "@);
            if a.len() > 6 {
                "["@ + head + ", ... "@ + dec(a.len()) + " items]"@
            } else {
                "["@ + head + "]"@
            }
        },
        ValueView::Bool(b) => if b {
            "true"@
        } else {
            "false"@
        },
        ValueView::F32(b) => w(Show::Single(b)),
        ValueView::F64(b) => w(Show::Double(b)),
        _ => match v.to_u64() {
            Some(n) => dec(n as nat),
            None => Seq::empty(),
        },
    }
}

pub open spec fn lines_of(w: spec_fn(Show) -> Seq<char>, a: Seq<ValueView>, n: nat) -> Seq<Seq<char>>
    decreases a, n,
{
    if n == 0 || n > a.len() {
        Seq::empty()
    } else {
        lines_of(w, a, (n - 1) as nat).push(line_of(w, a[n - 1]))
    }
}

/// The first 90 bytes of a text.
fn head_text(s: &str) -> (r: String)
    ensures
        r@ == head_of(s@),
{
    let cs = chars_of(s);
    let mut i: usize = 0;
    loop
        invariant_except_break
            cs@ == s@,
            i <= cs@.len(),
            head_from(s@, 90, 0) == head_from(s@, 90, i as nat),
        ensures
            i == head_from(s@, 90, 0),
            i <= cs@.len(),
            cs@ == s@,
        decreases cs@.len() - i,
    {
        if i >= cs.len() {
            break;
        }
        let t = string_of_range(cs.as_slice(), 0, i);
        assert(s@.subrange(0, i as int) =~= s@.take(i as int));
        if t.as_str().as_bytes().len() >= 90 {
            break;
        }
        i = i + 1;
    }
    assert(s@.subrange(0, i as int) =~= s@.take(i as int));
    string_of_range(cs.as_slice(), 0, i)
}

impl Value {
    /// Whether the value can be summarized: no long text is to be cut inside a character.
    pub fn has_summary(&self) -> (r: bool)
        ensures
            r == has_line(self@),
        decreases self,
    {
        match self {
            Value::String(s) => {
                if s.as_str().as_bytes().len() > 96 {
                    head_text(s.as_str()).as_str().as_bytes().len() == 90
                } else {
                    true
                }
            },
            Value::Array(a) => {
                let ghost v = self@;
                let mut i: usize = 0;
                assert(v->Array_0 =~= values(a@));
                while i < a.len() && i < 6
                    invariant
                        i <= a@.len(),
                        i <= 6,
                        v == self@,
                        v is Array,
                        v->Array_0 == values(a@),
                        *self == Value::Array(*a),
                        forall|k: int| 0 <= k < i ==> has_line(#[trigger] v->Array_0[k]),
                    decreases a@.len() - i,
                {
                    assert(decreases_to!(*self => self->Array_0));
                    assert(decreases_to!(self->Array_0 => a@));
                    assert(decreases_to!(a@ => a@[i as int]));
                    if !a[i].has_summary() {
                        assert(!has_line(v->Array_0[i as int]));
                        return false;
                    }
                    assert(has_line(v->Array_0[i as int]));
                    i = i + 1;
                }
                true
            },
            _ => true,
        }
    }

    /// A short single-line rendering, with long arrays elided.
    pub fn summary<W: Fn(Show) -> String>(&self, p: &Printer<W>) -> (r: String)
        requires
            p.works(),
            has_line(self@),
        ensures
            r@ == line_of(p.words(), self@),
        decreases self,
    {
        match self {
            Value::String(s) => {
                let n = s.as_str().as_bytes().len();
                if n > 96 {
                    cat4(
                        debug_text(head_text(s.as_str()).as_str()).as_str(),
                        "... (",
                        decimal(n as u64).as_str(),
                        " bytes)",
                    )
                } else {
                    debug_text(s.as_str())
                }
            },
            Value::Array(a) => {
                let ghost v = self@;
                let ghost all = v->Array_0;
                let mut parts: Vec<String> = Vec::new();
                let mut i: usize = 0;
                assert(v->Array_0 =~= values(a@));
                while i < a.len() && i < 6
                    invariant
                        p.works(),
                        i <= a@.len(),
                        i <= 6,
                        *self == Value::Array(*a),
                        all == values(a@),
                        forall|k: int| 0 <= k < all.len() && k < 6 ==> has_line(#[trigger] all[k]),
                        texts(parts@) == lines_of(p.words(), all, i as nat),
                    decreases a@.len() - i,
                {
                    assert(decreases_to!(*self => self->Array_0));
                    assert(decreases_to!(self->Array_0 => a@));
                    assert(decreases_to!(a@ => a@[i as int]));
                    let ghost before = texts(parts@);
                    assert(has_line(all[i as int]));
                    parts.push(a[i].summary(p));
                    i = i + 1;
                    assert(texts(parts@) =~= before.push(line_of(p.words(), all[i - 1])));
                }
                let head = join_text(parts.as_slice(), ", ");
                if a.len() > 6 {
                    cat5(
                        "[",
                        head.as_str(),
                        ", ... ",
                        decimal(a.len() as u64).as_str(),
                        " items]",
                    )
                } else {
                    cat3("[", head.as_str(), "]")
                }
            },
            Value::Bool(b) => own(
                if *b {
                    "true"
                } else {
                    "false"
                },
            ),
            Value::F32(b) => p.say(Show::Single(*b)),
            Value::F64(b) => p.say(Show::Double(*b)),
            _ => match self.as_u64() {
                Some(n) => decimal(n),
                None => String::new(),
            },
        }
    }
}

} // verus!
