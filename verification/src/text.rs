//! Strings as sequences of characters: the string operations the rest of the library is
//! written with, each stated over `Seq<char>`.

use vstd::prelude::*;
use vstd::string::*;

verus! {

// ------------------------------------------------------------------ what std provides

/// `std::string::String::push`: appends one character.
pub assume_specification[ std::string::String::push ](s: &mut std::string::String, c: char)
    ensures
        final(s)@ == old(s)@.push(c),
;

/// `str == str`: whether the characters are the same.
pub assume_specification[ <str as PartialEq<str>>::eq ](a: &str, b: &str) -> (r: bool)
    ensures
        r == (a@ == b@),
;

/// Whether Unicode gives `c` the property `White_Space`.
pub open spec fn is_white(c: char) -> bool {
    let n = c as u32;
    ||| 0x9 <= n <= 0xd
    ||| n == 0x20 || n == 0x85 || n == 0xa0 || n == 0x1680
    ||| 0x2000 <= n <= 0x200a
    ||| n == 0x2028 || n == 0x2029 || n == 0x202f || n == 0x205f || n == 0x3000
}

/// `char::is_whitespace`: the Unicode property `White_Space`, which these code points have.
pub assume_specification[ char::is_whitespace ](c: char) -> (r: bool)
    ensures
        r == is_white(c),
;

pub open spec fn is_ascii(c: char) -> bool {
    (c as u32) < 0x80
}

/// Whether Unicode gives `c`, which is not ASCII, the property `Alphabetic`.
pub uninterp spec fn is_alpha_beyond(c: char) -> bool;

/// Whether Unicode gives `c` the property `Alphabetic`. Among ASCII these are the letters.
pub open spec fn is_alpha(c: char) -> bool {
    if is_ascii(c) {
        'a' <= c <= 'z' || 'A' <= c <= 'Z'
    } else {
        is_alpha_beyond(c)
    }
}

/// `char::is_alphabetic`: the Unicode property `Alphabetic`, which the ASCII letters have;
/// beyond ASCII it is named by [`is_alpha_beyond`].
pub assume_specification[ char::is_alphabetic ](c: char) -> (r: bool)
    ensures
        is_ascii(c) ==> r == ('a' <= c <= 'z' || 'A' <= c <= 'Z'),
        !is_ascii(c) ==> r == is_alpha_beyond(c),
;

/// Whether Unicode puts `c`, which is not ASCII, in a general category for numbers.
pub uninterp spec fn is_num_beyond(c: char) -> bool;

/// Whether Unicode puts `c` in one of the general categories for numbers. Among ASCII these are
/// the digits.
pub open spec fn is_num(c: char) -> bool {
    if is_ascii(c) {
        '0' <= c <= '9'
    } else {
        is_num_beyond(c)
    }
}

/// `char::is_numeric`: the general categories `Nd`, `Nl` and `No`, in which the ASCII digits
/// are; beyond ASCII they are named by [`is_num_beyond`].
pub assume_specification[ char::is_numeric ](c: char) -> (r: bool)
    ensures
        is_ascii(c) ==> r == ('0' <= c <= '9'),
        !is_ascii(c) ==> r == is_num_beyond(c),
;

pub open spec fn all_ascii(s: Seq<char>) -> bool {
    forall|i: int| 0 <= i < s.len() ==> is_ascii(#[trigger] s[i])
}

/// An ASCII letter in upper case, anything else as it is.
pub open spec fn ascii_upper(c: char) -> char {
    if 'a' <= c <= 'z' {
        (c as u32 - 32) as char
    } else {
        c
    }
}

/// An ASCII letter in lower case, anything else as it is.
pub open spec fn ascii_lower(c: char) -> char {
    if 'A' <= c <= 'Z' {
        (c as u32 + 32) as char
    } else {
        c
    }
}

/// The uppercase mapping of a string that is not all ASCII.
pub uninterp spec fn upper_beyond(s: Seq<char>) -> Seq<char>;

/// The uppercase mapping of a whole string.
pub open spec fn upper_of(s: Seq<char>) -> Seq<char> {
    if all_ascii(s) {
        Seq::new(s.len(), |i: int| ascii_upper(s[i]))
    } else {
        upper_beyond(s)
    }
}

/// `str::to_uppercase`: ASCII letters become upper case; of a string that is not all ASCII the
/// result is named by [`upper_beyond`].
pub assume_specification[ str::to_uppercase ](s: &str) -> (r: std::string::String)
    ensures
        all_ascii(s@) ==> r@ == Seq::new(s@.len(), |i: int| ascii_upper(s@[i])),
        !all_ascii(s@) ==> r@ == upper_beyond(s@),
;

/// The lowercase mapping of a string that is not all ASCII.
pub uninterp spec fn lower_beyond(s: Seq<char>) -> Seq<char>;

/// The lowercase mapping of a whole string.
pub open spec fn lower_of(s: Seq<char>) -> Seq<char> {
    if all_ascii(s) {
        Seq::new(s.len(), |i: int| ascii_lower(s[i]))
    } else {
        lower_beyond(s)
    }
}

/// `str::to_lowercase`: ASCII letters become lower case; of a string that is not all ASCII the
/// result is named by [`lower_beyond`].
pub assume_specification[ str::to_lowercase ](s: &str) -> (r: std::string::String)
    ensures
        all_ascii(s@) ==> r@ == Seq::new(s@.len(), |i: int| ascii_lower(s@[i])),
        !all_ascii(s@) ==> r@ == lower_beyond(s@),
;

/// How `{:?}` writes a string.
pub uninterp spec fn quoted(s: Seq<char>) -> Seq<char>;

/// `format!("{:?}")` on a string: between double quotes, with escapes, named by [`quoted`].
#[verifier::external_body]
pub(crate) fn debug_text(s: &str) -> (r: String)
    ensures
        r@ == quoted(s@),
{
    format!("{s:?}")
}

// ------------------------------------------------------------------------- conversion

/// The characters of a string, one by one.
pub fn chars_of(s: &str) -> (r: Vec<char>)
    ensures
        r@ == s@,
{
    let mut out: Vec<char> = Vec::new();
    for c in it: s.chars()
        invariant
            out@ =~= it.seq().take(it.index() as int),
            it.seq() == s@,
    {
        out.push(c);
    }
    out
}

/// The string that holds exactly `cs`.
pub fn string_of(cs: &[char]) -> (r: String)
    ensures
        r@ == cs@,
{
    let mut out = String::new();
    let mut i: usize = 0;
    while i < cs.len()
        invariant
            i <= cs@.len(),
            out@ == cs@.take(i as int),
        decreases cs@.len() - i,
    {
        out.push(cs[i]);
        i = i + 1;
        assert(cs@.take(i as int) =~= cs@.take(i - 1).push(cs@[i - 1]));
    }
    assert(cs@.take(i as int) =~= cs@);
    out
}

/// The string of the characters `from..to` of `cs`.
pub fn string_of_range(cs: &[char], from: usize, to: usize) -> (r: String)
    requires
        from <= to <= cs@.len(),
    ensures
        r@ == cs@.subrange(from as int, to as int),
{
    let mut out = String::new();
    let mut i: usize = from;
    while i < to
        invariant
            from <= i <= to <= cs@.len(),
            out@ == cs@.subrange(from as int, i as int),
        decreases to - i,
    {
        out.push(cs[i]);
        i = i + 1;
        assert(cs@.subrange(from as int, i as int) =~= cs@.subrange(
            from as int,
            i - 1,
        ).push(cs@[i - 1]));
    }
    out
}

/// A string of one character.
pub fn string_of_char(c: char) -> (r: String)
    ensures
        r@ == seq![c],
{
    let mut out = String::new();
    out.push(c);
    assert(out@ =~= seq![c]);
    out
}

/// A copy of a borrowed string.
pub fn own(s: &str) -> (r: String)
    ensures
        r@ == s@,
{
    s.to_owned()
}

/// Whether two strings hold the same characters.
pub fn same(a: &str, b: &str) -> (r: bool)
    ensures
        r == (a@ == b@),
{
    *a == *b
}

pub fn cat2(a: &str, b: &str) -> (r: String)
    ensures
        r@ == a@ + b@,
{
    let mut out = a.to_owned();
    out.append(b);
    out
}

pub fn cat3(a: &str, b: &str, c: &str) -> (r: String)
    ensures
        r@ == a@ + b@ + c@,
{
    let mut out = a.to_owned();
    out.append(b);
    out.append(c);
    out
}

pub fn cat4(a: &str, b: &str, c: &str, d: &str) -> (r: String)
    ensures
        r@ == a@ + b@ + c@ + d@,
{
    let mut out = cat3(a, b, c);
    out.append(d);
    out
}

pub fn cat5(a: &str, b: &str, c: &str, d: &str, e: &str) -> (r: String)
    ensures
        r@ == a@ + b@ + c@ + d@ + e@,
{
    let mut out = cat4(a, b, c, d);
    out.append(e);
    out
}

// ---------------------------------------------------------------------------- numbers

/// The character of a decimal digit.
pub open spec fn digit(d: nat) -> char {
    if d == 0 {
        '0'
    } else if d == 1 {
        '1'
    } else if d == 2 {
        '2'
    } else if d == 3 {
        '3'
    } else if d == 4 {
        '4'
    } else if d == 5 {
        '5'
    } else if d == 6 {
        '6'
    } else if d == 7 {
        '7'
    } else if d == 8 {
        '8'
    } else {
        '9'
    }
}

/// A number written in decimal, without leading zeros.
pub open spec fn dec(n: nat) -> Seq<char>
    decreases n,
{
    if n < 10 {
        seq![digit(n)]
    } else {
        dec(n / 10).push(digit(n % 10))
    }
}

/// A signed number written in decimal.
pub open spec fn dec_int(n: int) -> Seq<char> {
    if n < 0 {
        seq!['-'] + dec((-n) as nat)
    } else {
        dec(n as nat)
    }
}

fn digit_char(d: u64) -> (c: char)
    requires
        d < 10,
    ensures
        c == digit(d as nat),
{
    if d == 0 {
        '0'
    } else if d == 1 {
        '1'
    } else if d == 2 {
        '2'
    } else if d == 3 {
        '3'
    } else if d == 4 {
        '4'
    } else if d == 5 {
        '5'
    } else if d == 6 {
        '6'
    } else if d == 7 {
        '7'
    } else if d == 8 {
        '8'
    } else {
        '9'
    }
}

/// `n` in decimal.
pub fn decimal(n: u64) -> (r: String)
    ensures
        r@ == dec(n as nat),
    decreases n,
{
    if n < 10 {
        string_of_char(digit_char(n))
    } else {
        let mut out = decimal(n / 10);
        out.push(digit_char(n % 10));
        out
    }
}

/// `n` in decimal, with a minus sign where it is negative.
pub fn decimal_int(n: i64) -> (r: String)
    ensures
        r@ == dec_int(n as int),
{
    if n < 0 {
        let m: u64 = if n == i64::MIN {
            9223372036854775808
        } else {
            (-n) as u64
        };
        let d = decimal(m);
        let mut out = string_of_char('-');
        out.append(d.as_str());
        out
    } else {
        decimal(n as u64)
    }
}

// --------------------------------------------------------------------------- trimming

/// `s` without its leading white space.
pub open spec fn trimmed_start(s: Seq<char>) -> Seq<char>
    decreases s.len(),
{
    if s.len() > 0 && is_white(s[0]) {
        trimmed_start(s.drop_first())
    } else {
        s
    }
}

/// `s` without its trailing white space.
pub open spec fn trimmed_end(s: Seq<char>) -> Seq<char>
    decreases s.len(),
{
    if s.len() > 0 && is_white(s.last()) {
        trimmed_end(s.drop_last())
    } else {
        s
    }
}

/// `s` without white space at either end.
pub open spec fn trimmed(s: Seq<char>) -> Seq<char> {
    trimmed_end(trimmed_start(s))
}

pub fn trim_start(cs: &[char]) -> (i: usize)
    ensures
        i <= cs@.len(),
        trimmed_start(cs@) == cs@.skip(i as int),
{
    let mut i: usize = 0;
    assert(cs@.skip(0) =~= cs@);
    while i < cs.len() && cs[i].is_whitespace()
        invariant
            i <= cs@.len(),
            trimmed_start(cs@) == trimmed_start(cs@.skip(i as int)),
        decreases cs@.len() - i,
    {
        assert(cs@.skip(i as int).drop_first() =~= cs@.skip(i + 1));
        i = i + 1;
    }
    i
}

/// Where the white space at the end of `cs[from..]` begins.
pub fn trim_end_from(cs: &[char], from: usize) -> (j: usize)
    requires
        from <= cs@.len(),
    ensures
        from <= j <= cs@.len(),
        trimmed_end(cs@.skip(from as int)) == cs@.subrange(from as int, j as int),
{
    let mut j: usize = cs.len();
    assert(cs@.subrange(from as int, j as int) =~= cs@.skip(from as int));
    while j > from && cs[j - 1].is_whitespace()
        invariant
            from <= j <= cs@.len(),
            trimmed_end(cs@.skip(from as int)) == trimmed_end(
                cs@.subrange(from as int, j as int),
            ),
        decreases j,
    {
        assert(cs@.subrange(from as int, j as int).drop_last() =~= cs@.subrange(
            from as int,
            j - 1,
        ));
        assert(cs@.subrange(from as int, j as int).last() == cs@[j - 1]);
        j = j - 1;
    }
    if j > from {
        assert(cs@.subrange(from as int, j as int).last() == cs@[j - 1]);
    }
    j
}

/// `str::trim` on characters.
pub fn trim_chars(cs: &[char]) -> (r: Vec<char>)
    ensures
        r@ == trimmed(cs@),
{
    let i = trim_start(cs);
    let j = trim_end_from(cs, i);
    range_of(cs, i, j)
}

/// The characters `from..to` of `cs`.
pub fn range_of(cs: &[char], from: usize, to: usize) -> (r: Vec<char>)
    requires
        from <= to <= cs@.len(),
    ensures
        r@ == cs@.subrange(from as int, to as int),
{
    let mut out: Vec<char> = Vec::new();
    let mut i: usize = from;
    while i < to
        invariant
            from <= i <= to <= cs@.len(),
            out@ == cs@.subrange(from as int, i as int),
        decreases to - i,
    {
        out.push(cs[i]);
        i = i + 1;
        assert(cs@.subrange(from as int, i as int) =~= cs@.subrange(
            from as int,
            i - 1,
        ).push(cs@[i - 1]));
    }
    out
}

pub fn trim(s: &str) -> (r: String)
    ensures
        r@ == trimmed(s@),
{
    let cs = chars_of(s);
    let i = trim_start(cs.as_slice());
    let j = trim_end_from(cs.as_slice(), i);
    string_of_range(cs.as_slice(), i, j)
}

// -------------------------------------------------------------------------- searching

/// Whether `needle` stands in `hay` at position `i`.
pub open spec fn occurs_at(hay: Seq<char>, needle: Seq<char>, i: int) -> bool {
    0 <= i && i + needle.len() <= hay.len() && hay.subrange(i, i + needle.len()) == needle
}

/// The first position at or after `from` where `needle` stands in `hay`.
pub open spec fn index_from(hay: Seq<char>, needle: Seq<char>, from: nat) -> Option<nat>
    decreases hay.len() + 1 - from,
{
    if from > hay.len() {
        None
    } else if occurs_at(hay, needle, from as int) {
        Some(from)
    } else {
        index_from(hay, needle, from + 1)
    }
}

/// The first position where `needle` stands in `hay`.
pub open spec fn index_of(hay: Seq<char>, needle: Seq<char>) -> Option<nat> {
    index_from(hay, needle, 0)
}

/// [`index_from`] finds an occurrence, and none before it.
pub proof fn index_from_is_first(hay: Seq<char>, needle: Seq<char>, from: nat)
    ensures
        match index_from(hay, needle, from) {
            Some(i) => i >= from && occurs_at(hay, needle, i as int) && forall|j: int|
                from <= j < i ==> !occurs_at(hay, needle, j),
            None => forall|j: int| from <= j ==> !occurs_at(hay, needle, j),
        },
    decreases hay.len() + 1 - from,
{
    if from <= hay.len() && !occurs_at(hay, needle, from as int) {
        index_from_is_first(hay, needle, from + 1);
    }
}

/// Whether `needle` stands in `hay` at position `i`.
pub fn stands_at(hay: &[char], needle: &[char], i: usize) -> (r: bool)
    requires
        i <= hay@.len(),
    ensures
        r == occurs_at(hay@, needle@, i as int),
{
    let n = hay.len();
    if needle.len() > n - i {
        return false;
    }
    let mut k: usize = 0;
    while k < needle.len()
        invariant
            k <= needle@.len(),
            i + needle@.len() <= n == hay@.len(),
            forall|j: int| 0 <= j < k ==> hay@[i + j] == needle@[j],
        decreases needle@.len() - k,
    {
        if hay[i + k] != needle[k] {
            assert(hay@.subrange(i as int, i + needle@.len())[k as int] != needle@[k as int]);
            return false;
        }
        k = k + 1;
    }
    assert(hay@.subrange(i as int, i + needle@.len()) =~= needle@);
    true
}

/// The first position at or after `from` where `needle` stands in `hay`.
pub fn position_from(hay: &[char], needle: &[char], from: usize) -> (r: Option<usize>)
    requires
        from <= hay@.len(),
    ensures
        match index_from(hay@, needle@, from as nat) {
            Some(i) => r is Some && r->0 == i && i <= hay@.len(),
            None => r is None,
        },
{
    let mut i: usize = from;
    loop
        invariant
            from <= i <= hay@.len(),
            index_from(hay@, needle@, from as nat) == index_from(hay@, needle@, i as nat),
        decreases hay@.len() - i,
    {
        if stands_at(hay, needle, i) {
            return Some(i);
        }
        if i == hay.len() {
            assert(index_from(hay@, needle@, (i + 1) as nat) is None);
            return None;
        }
        i = i + 1;
    }
}

/// Whether `needle` stands somewhere in `hay`.
pub open spec fn has_text(hay: Seq<char>, needle: Seq<char>) -> bool {
    index_of(hay, needle) is Some
}

pub fn contains_text(hay: &str, needle: &str) -> (r: bool)
    ensures
        r == has_text(hay@, needle@),
{
    let h = chars_of(hay);
    let n = chars_of(needle);
    position_from(h.as_slice(), n.as_slice(), 0).is_some()
}

/// Whether `s` begins with `p`.
pub open spec fn begins_with(s: Seq<char>, p: Seq<char>) -> bool {
    occurs_at(s, p, 0)
}

/// Whether `s` ends in `p`.
pub open spec fn finishes_with(s: Seq<char>, p: Seq<char>) -> bool {
    p.len() <= s.len() && occurs_at(s, p, s.len() - p.len())
}

pub fn has_prefix(s: &str, p: &str) -> (r: bool)
    ensures
        r == begins_with(s@, p@),
{
    let h = chars_of(s);
    let n = chars_of(p);
    stands_at(h.as_slice(), n.as_slice(), 0)
}

pub fn has_suffix(s: &str, p: &str) -> (r: bool)
    ensures
        r == finishes_with(s@, p@),
{
    let h = chars_of(s);
    let n = chars_of(p);
    if n.len() > h.len() {
        return false;
    }
    stands_at(h.as_slice(), n.as_slice(), h.len() - n.len())
}

/// The views of a list of strings.
pub open spec fn texts(v: Seq<String>) -> Seq<Seq<char>> {
    Seq::new(v.len(), |i: int| v[i]@)
}

/// The pieces of `s` between the occurrences of `sep`. An empty `sep` stands before and
/// after every character.
pub open spec fn split_on(s: Seq<char>, sep: Seq<char>) -> Seq<Seq<char>>
    decreases s.len(),
{
    if sep.len() == 0 {
        seq![Seq::<char>::empty()] + Seq::new(s.len(), |i: int| seq![s[i]]) + seq![
            Seq::<char>::empty(),
        ]
    } else {
        match index_of(s, sep) {
            Some(i) => if i + sep.len() <= s.len() {
                seq![s.take(i as int)] + split_on(s.skip((i + sep.len()) as int), sep)
            } else {
                seq![s]
            },
            None => seq![s],
        }
    }
}

/// `str::split` with a string for separator.
pub fn split_text(s: &str, sep: &str) -> (r: Vec<String>)
    ensures
        texts(r@) == split_on(s@, sep@),
{
    let cs = chars_of(s);
    let n = chars_of(sep);
    let mut out: Vec<String> = Vec::new();
    if n.len() == 0 {
        out.push(String::new());
        let mut i: usize = 0;
        while i < cs.len()
            invariant
                i <= cs@.len(),
                texts(out@) =~= seq![Seq::<char>::empty()] + Seq::new(i as nat, |k: int| seq![cs@[k]]),
            decreases cs@.len() - i,
        {
            let ghost before = texts(out@);
            out.push(string_of_char(cs[i]));
            i = i + 1;
            assert(texts(out@) =~= before.push(seq![cs@[i - 1]]));
        }
        out.push(String::new());
        assert(texts(out@) =~= split_on(s@, sep@));
        return out;
    }
    let mut from: usize = 0;
    assert(cs@.skip(0) =~= cs@);
    assert(texts(out@) + split_on(cs@.skip(0), n@) =~= split_on(cs@, n@));
    loop
        invariant_except_break
            from <= cs@.len(),
            split_on(cs@, n@) == texts(out@) + split_on(cs@.skip(from as int), n@),
        invariant
            n@.len() > 0,
        ensures
            texts(out@) == split_on(cs@, n@),
        decreases cs@.len() - from,
    {
        let rest = range_of(cs.as_slice(), from, cs.len());
        assert(rest@ =~= cs@.skip(from as int));
        let ghost before = texts(out@);
        match position_from(rest.as_slice(), n.as_slice(), 0) {
            Some(i) => {
                proof {
                    index_from_is_first(rest@, n@, 0);
                }
                out.push(string_of_range(rest.as_slice(), 0, i));
                assert(texts(out@) =~= before.push(rest@.subrange(0, i as int)));
                assert(rest@.subrange(0, i as int) =~= rest@.take(i as int));
                let next = from + i + n.len();
                assert(rest@.skip((i + n@.len()) as int) =~= cs@.skip(next as int));
                assert(split_on(rest@, n@) == seq![rest@.take(i as int)] + split_on(
                    cs@.skip(next as int),
                    n@,
                ));
                from = next;
                assert(before + (seq![rest@.take(i as int)] + split_on(cs@.skip(from as int), n@))
                    =~= texts(out@) + split_on(cs@.skip(from as int), n@));
            },
            None => {
                out.push(string_of(rest.as_slice()));
                assert(texts(out@) =~= before.push(rest@));
                assert(split_on(rest@, n@) =~= seq![rest@]);
                assert(texts(out@) =~= before + split_on(rest@, n@));
                break;
            },
        }
    }
    out
}

/// The pieces `parts`, with `sep` between each two.
pub open spec fn joined(parts: Seq<Seq<char>>, sep: Seq<char>) -> Seq<char>
    decreases parts.len(),
{
    if parts.len() == 0 {
        Seq::empty()
    } else if parts.len() == 1 {
        parts[0]
    } else {
        joined(parts.drop_last(), sep) + sep + parts.last()
    }
}

/// `slice::join` on strings.
pub fn join_text(parts: &[String], sep: &str) -> (r: String)
    ensures
        r@ == joined(texts(parts@), sep@),
{
    let mut out = String::new();
    let mut i: usize = 0;
    let ghost all = texts(parts@);
    while i < parts.len()
        invariant
            i <= parts@.len(),
            all == texts(parts@),
            out@ == joined(all.take(i as int), sep@),
        decreases parts@.len() - i,
    {
        if i > 0 {
            out.append(sep);
        }
        out.append(parts[i].as_str());
        i = i + 1;
        assert(all.take(i as int).drop_last() =~= all.take(i - 1));
        assert(all.take(i as int).last() == parts@[i - 1]@);
        if i == 1 {
            assert(out@ =~= parts@[0]@);
        }
    }
    assert(all.take(i as int) =~= all);
    out
}

/// `s` with every occurrence of `from` replaced by `to`.
pub open spec fn replaced(s: Seq<char>, from: Seq<char>, to: Seq<char>) -> Seq<char> {
    joined(split_on(s, from), to)
}

/// `str::replace`.
pub fn replace_text(s: &str, from: &str, to: &str) -> (r: String)
    ensures
        r@ == replaced(s@, from@, to@),
{
    let parts = split_text(s, from);
    join_text(parts.as_slice(), to)
}

/// The position of the first character of `cs` at or after `from` that is white space, or
/// the end.
pub open spec fn word_end(s: Seq<char>, from: nat) -> nat
    decreases s.len() - from,
{
    if from >= s.len() || is_white(s[from as int]) {
        from
    } else {
        word_end(s, from + 1)
    }
}

proof fn word_end_bound(s: Seq<char>, from: nat)
    requires
        from <= s.len(),
    ensures
        from <= word_end(s, from) <= s.len(),
    decreases s.len() - from,
{
    if from < s.len() && !is_white(s[from as int]) {
        word_end_bound(s, from + 1);
    }
}

/// The runs of characters of `s` that are no white space.
pub open spec fn words(s: Seq<char>) -> Seq<Seq<char>>
    decreases s.len(),
{
    if s.len() == 0 {
        Seq::empty()
    } else if is_white(s[0]) {
        words(s.skip(1))
    } else {
        let e = word_end(s, 0);
        if 0 < e <= s.len() {
            seq![s.take(e as int)] + words(s.skip(e as int))
        } else {
            Seq::empty()
        }
    }
}

/// `str::split_whitespace`.
pub fn split_words(s: &str) -> (r: Vec<String>)
    ensures
        texts(r@) == words(s@),
{
    let cs = chars_of(s);
    let mut out: Vec<String> = Vec::new();
    let mut i: usize = 0;
    assert(cs@.skip(0) =~= cs@);
    assert(texts(out@) + words(cs@) =~= words(cs@));
    while i < cs.len()
        invariant
            i <= cs@.len(),
            words(cs@) == texts(out@) + words(cs@.skip(i as int)),
        decreases cs@.len() - i,
    {
        let ghost rest = cs@.skip(i as int);
        if cs[i].is_whitespace() {
            assert(rest.skip(1) =~= cs@.skip(i + 1));
            i = i + 1;
        } else {
            let start = i;
            let ghost before = texts(out@);
            while i < cs.len() && !cs[i].is_whitespace()
                invariant
                    start <= i <= cs@.len(),
                    rest == cs@.skip(start as int),
                    word_end(rest, 0) == word_end(rest, (i - start) as nat),
                decreases cs@.len() - i,
            {
                i = i + 1;
            }
            proof {
                word_end_bound(rest, 0);
                word_end_bound(rest, 1);
                assert(word_end(rest, 0) == i - start);
            }
            out.push(string_of_range(cs.as_slice(), start, i));
            assert(rest.take(i - start) =~= cs@.subrange(start as int, i as int));
            assert(rest.skip(i - start) =~= cs@.skip(i as int));
            assert(texts(out@) =~= before.push(rest.take(i - start)));
            assert(before + (seq![rest.take(i - start)] + words(cs@.skip(i as int))) =~= texts(out@)
                + words(cs@.skip(i as int)));
        }
    }
    assert(cs@.skip(i as int) =~= Seq::<char>::empty());
    assert(texts(out@) + Seq::<Seq<char>>::empty() =~= texts(out@));
    out
}

// --------------------------------------------------------------------------- ordering

/// The order of strings: by their characters, from the first.
pub open spec fn text_less(a: Seq<char>, b: Seq<char>) -> bool
    decreases a.len(),
{
    if b.len() == 0 {
        false
    } else if a.len() == 0 {
        true
    } else if a[0] == b[0] {
        text_less(a.drop_first(), b.drop_first())
    } else {
        a[0] < b[0]
    }
}

/// No string comes before itself.
pub proof fn text_less_irreflexive(a: Seq<char>)
    ensures
        !text_less(a, a),
    decreases a.len(),
{
    if a.len() > 0 {
        text_less_irreflexive(a.drop_first());
    }
}

pub proof fn text_less_transitive(a: Seq<char>, b: Seq<char>, c: Seq<char>)
    requires
        text_less(a, b),
        text_less(b, c),
    ensures
        text_less(a, c),
    decreases a.len(),
{
    if a.len() > 0 && a[0] == b[0] && b[0] == c[0] {
        text_less_transitive(a.drop_first(), b.drop_first(), c.drop_first());
    }
}

/// Of two different strings one comes before the other.
pub proof fn text_less_total(a: Seq<char>, b: Seq<char>)
    ensures
        a == b || text_less(a, b) || text_less(b, a),
    decreases a.len(),
{
    if a.len() == 0 {
        if b.len() == 0 {
            assert(a =~= b);
        }
    } else if b.len() > 0 && a[0] == b[0] {
        text_less_total(a.drop_first(), b.drop_first());
        if a.drop_first() == b.drop_first() {
            assert(a =~= seq![a[0]] + a.drop_first());
            assert(b =~= seq![b[0]] + b.drop_first());
        }
    }
}

/// Whether `a` comes before `b`.
pub fn comes_before(a: &str, b: &str) -> (r: bool)
    ensures
        r == text_less(a@, b@),
{
    let x = chars_of(a);
    let y = chars_of(b);
    let mut i: usize = 0;
    assert(x@.skip(0) =~= x@);
    assert(y@.skip(0) =~= y@);
    while i < x.len() && i < y.len() && x[i] == y[i]
        invariant
            i <= x@.len(),
            i <= y@.len(),
            text_less(x@, y@) == text_less(x@.skip(i as int), y@.skip(i as int)),
        decreases x@.len() - i,
    {
        assert(x@.skip(i as int).drop_first() =~= x@.skip(i + 1));
        assert(y@.skip(i as int).drop_first() =~= y@.skip(i + 1));
        i = i + 1;
    }
    if i >= y.len() {
        false
    } else if i >= x.len() {
        true
    } else {
        x[i] < y[i]
    }
}

/// `v` put into the ascending list `s`, behind what does not come after it.
pub open spec fn inserted(s: Seq<Seq<char>>, v: Seq<char>) -> Seq<Seq<char>>
    decreases s.len(),
{
    if s.len() > 0 && text_less(v, s.last()) {
        inserted(s.drop_last(), v).push(s.last())
    } else {
        s.push(v)
    }
}

/// The strings of `s` in ascending order.
pub open spec fn sorted(s: Seq<Seq<char>>) -> Seq<Seq<char>>
    decreases s.len(),
{
    if s.len() == 0 {
        s
    } else {
        inserted(sorted(s.drop_last()), s.last())
    }
}

/// Whether no string stands behind one that comes after it.
pub open spec fn ascending(s: Seq<Seq<char>>) -> bool {
    forall|i: int, j: int| 0 <= i < j < s.len() ==> !text_less(#[trigger] s[j], #[trigger] s[i])
}

proof fn inserted_is_ascending(s: Seq<Seq<char>>, v: Seq<char>)
    requires
        ascending(s),
    ensures
        ascending(inserted(s, v)),
        inserted(s, v).to_multiset() == s.to_multiset().insert(v),
        inserted(s, v).len() == s.len() + 1,
    decreases s.len(),
{
    broadcast use vstd::seq_lib::group_to_multiset_ensures;

    if s.len() > 0 && text_less(v, s.last()) {
        let t = s.drop_last();
        let r = inserted(t, v);
        inserted_is_ascending(t, v);
        assert(s =~= t.push(s.last()));
        assert(inserted(s, v) =~= r.push(s.last()));
        assert forall|i: int| 0 <= i < r.len() implies !text_less(s.last(), #[trigger] r[i]) by {
            assert(r.to_multiset().count(r[i]) > 0);
            if r[i] != v {
                assert(t.to_multiset().count(r[i]) > 0);
                let k = choose|k: int| 0 <= k < t.len() && t[k] == r[i];
                assert(s[k] == r[i]);
            } else if text_less(s.last(), v) {
                text_less_transitive(v, s.last(), v);
                text_less_irreflexive(v);
            }
        }
    } else {
        assert forall|i: int| 0 <= i < s.len() implies !text_less(v, #[trigger] s[i]) by {
            if text_less(v, s[i]) && i < s.len() - 1 {
                text_less_total(s[i], s.last());
                if text_less(s[i], s.last()) {
                    text_less_transitive(v, s[i], s.last());
                }
            }
        }
    }
}

/// Sorting keeps the strings, as often as they occur, and puts them in ascending order.
pub proof fn sorted_is_ascending(s: Seq<Seq<char>>)
    ensures
        ascending(sorted(s)),
        sorted(s).to_multiset() == s.to_multiset(),
        sorted(s).len() == s.len(),
    decreases s.len(),
{
    broadcast use vstd::seq_lib::group_to_multiset_ensures;

    if s.len() > 0 {
        sorted_is_ascending(s.drop_last());
        inserted_is_ascending(sorted(s.drop_last()), s.last());
        assert(s =~= s.drop_last().push(s.last()));
    }
}

/// Puts `v` into the ascending list `list`.
fn insert_text(list: &mut Vec<String>, v: String)
    ensures
        texts(final(list)@) == inserted(texts(old(list)@), v@),
    decreases old(list)@.len(),
{
    let ghost before = texts(list@);
    match list.pop() {
        None => {
            list.push(v);
            assert(texts(list@) =~= inserted(before, v@));
        },
        Some(last) => {
            assert(texts(list@) =~= before.drop_last());
            if comes_before(v.as_str(), last.as_str()) {
                insert_text(list, v);
                let ghost mid = texts(list@);
                list.push(last);
                assert(texts(list@) =~= mid.push(before.last()));
            } else {
                list.push(last);
                list.push(v);
                assert(texts(list@) =~= before.push(v@));
            }
        },
    }
}

/// The strings of `v` in ascending order.
pub fn sort_texts(v: &Vec<String>) -> (r: Vec<String>)
    ensures
        texts(r@) == sorted(texts(v@)),
{
    let mut out: Vec<String> = Vec::new();
    let ghost all = texts(v@);
    assert(texts(out@) =~= all.take(0));
    let mut i: usize = 0;
    while i < v.len()
        invariant
            i <= v@.len(),
            all == texts(v@),
            texts(out@) == sorted(all.take(i as int)),
        decreases v@.len() - i,
    {
        insert_text(&mut out, v[i].clone());
        i = i + 1;
        assert(all.take(i as int).drop_last() =~= all.take(i - 1));
    }
    assert(all.take(i as int) =~= all);
    out
}

} // verus!
