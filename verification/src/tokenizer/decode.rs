//! Token ids back to text.

use vstd::prelude::*;
use vstd::slice::slice_subrange;
use vstd::string::*;
use vstd::utf8::{
    decode_utf8, decode_utf8_encode_utf8, encode_utf8, length_of_first_scalar,
    partial_valid_partial_invalid_utf8, pop_first_scalar, valid_first_scalar, valid_utf8,
    valid_utf8_concat,
};

use super::vocab::{
    byte_of, TokenizerKind, Vocab, VocabView, TOKEN_BYTE, TOKEN_CONTROL, TOKEN_NORMAL,
    TOKEN_UNKNOWN, TOKEN_UNUSED,
};
use crate::gguf::reader::{lossy, text_of_bytes};
use crate::text::{
    begins_with, cat2, chars_of, finishes_with, has_prefix, has_suffix, string_of, string_of_char,
    string_of_range,
};

verus! {

/// The value of a hexadecimal digit.
pub open spec fn hex_digit_value(c: char) -> Option<int> {
    if '0' <= c <= '9' {
        Some(c as int - '0' as int)
    } else if 'a' <= c <= 'f' {
        Some(c as int - 'a' as int + 10)
    } else if 'A' <= c <= 'F' {
        Some(c as int - 'A' as int + 10)
    } else {
        None
    }
}

/// The byte that the digits of `s` from `i` on give behind `acc`.
pub open spec fn hex_from(s: Seq<char>, i: nat, acc: int) -> Option<u8>
    decreases s.len() - i,
{
    if i >= s.len() {
        Some(acc as u8)
    } else {
        match hex_digit_value(s[i as int]) {
            None => None,
            Some(d) => if acc * 16 + d > 255 {
                None
            } else {
                hex_from(s, i + 1, acc * 16 + d)
            },
        }
    }
}

/// The byte that hexadecimal digits give, with a plus sign allowed in front.
pub open spec fn hex_byte(s: Seq<char>) -> Option<u8> {
    let start = if s.len() > 1 && s[0] == '+' {
        1nat
    } else {
        0nat
    };
    if s.len() == 0 {
        None
    } else {
        hex_from(s, start, 0)
    }
}

/// Whether a token is spelt `<0x..>`.
pub open spec fn spelt_as_byte(t: Seq<char>) -> bool {
    begins_with(t, "<0x"@) && finishes_with(t.skip(3), ">"@)
}

pub open spec fn unmarked(t: Seq<char>) -> Seq<char> {
    Seq::new(
        t.len(),
        |i: int|
            if t[i] == '\u{2581}' {
                ' '
            } else {
                t[i]
            },
    )
}

/// The bytes that the first `n` characters stand for; none where one of them stands for none.
pub open spec fn bytes_of(t: Seq<char>, n: nat) -> Option<Seq<u8>>
    decreases n,
{
    if n == 0 || n > t.len() {
        Some(Seq::empty())
    } else {
        match (bytes_of(t, (n - 1) as nat), byte_of(t[n - 1])) {
            (Some(s), Some(b)) => Some(s.push(b)),
            _ => None,
        }
    }
}

/// The bytes of a token's text.
pub open spec fn text_bytes(v: VocabView, t: Seq<char>, ty: u32) -> Seq<u8> {
    match v.kind {
        TokenizerKind::Spm => {
            let byte = if spelt_as_byte(t) && (ty == TOKEN_BYTE || ty == TOKEN_NORMAL) {
                hex_byte(t.subrange(3, t.len() - 1))
            } else {
                None
            };
            match byte {
                Some(b) => seq![b],
                None => encode_utf8(unmarked(t)),
            }
        },
        TokenizerKind::Bpe => match bytes_of(t, t.len()) {
            Some(b) => b,
            None => encode_utf8(t),
        },
        TokenizerKind::Wpm => if begins_with(t, "##"@) {
            encode_utf8(t.skip(2))
        } else {
            encode_utf8(seq![' '] + t)
        },
    }
}

/// The bytes of a token. Control tokens have none where they are to be skipped, and a slot the
/// vocabulary marks unused has none at all.
pub open spec fn token_bytes(v: VocabView, id: u32, skip_special: bool) -> Seq<u8> {
    let ty = v.type_of(id);
    if id >= v.tokens.len() {
        Seq::empty()
    } else if skip_special && (ty == TOKEN_CONTROL || ty == TOKEN_UNKNOWN) {
        Seq::empty()
    } else if ty == TOKEN_UNUSED {
        Seq::empty()
    } else {
        text_bytes(v, v.tokens[id as int], ty)
    }
}

/// The bytes of the first `n` tokens.
pub open spec fn tokens_bytes(v: VocabView, ids: Seq<u32>, skip_special: bool, n: nat) -> Seq<u8>
    decreases n,
{
    if n == 0 || n > ids.len() {
        Seq::empty()
    } else {
        tokens_bytes(v, ids, skip_special, (n - 1) as nat) + token_bytes(
            v,
            ids[n - 1],
            skip_special,
        )
    }
}

fn hex_value(c: char) -> (r: Option<u32>)
    ensures
        hex_digit_value(c) == match r {
            Some(d) => Some(d as int),
            None => None::<int>,
        },
        r matches Some(d) ==> d < 16,
{
    if '0' <= c && c <= '9' {
        Some(c as u32 - '0' as u32)
    } else if 'a' <= c && c <= 'f' {
        Some(c as u32 - 'a' as u32 + 10)
    } else if 'A' <= c && c <= 'F' {
        Some(c as u32 - 'A' as u32 + 10)
    } else {
        None
    }
}

fn parse_hex(c: &Vec<char>) -> (r: Option<u8>)
    ensures
        r == hex_byte(c@),
{
    if c.len() == 0 {
        return None;
    }
    let mut i: usize = if c.len() > 1 && c[0] == '+' {
        1
    } else {
        0
    };
    let mut acc: u32 = 0;
    while i < c.len()
        invariant
            i <= c@.len(),
            acc <= 255,
            hex_byte(c@) == hex_from(c@, i as nat, acc as int),
        decreases c@.len() - i,
    {
        match hex_value(c[i]) {
            None => return None,
            Some(d) => {
                acc = acc * 16 + d;
                if acc > 255 {
                    return None;
                }
            },
        }
        i = i + 1;
    }
    Some(acc as u8)
}

/// A copy of bytes.
pub fn copy_bytes(b: &[u8]) -> (r: Vec<u8>)
    ensures
        r@ == b@,
{
    let mut out: Vec<u8> = Vec::new();
    let mut i: usize = 0;
    while i < b.len()
        invariant
            i <= b@.len(),
            out@ =~= b@.take(i as int),
        decreases b@.len() - i,
    {
        out.push(b[i]);
        i = i + 1;
    }
    assert(b@.take(i as int) =~= b@);
    out
}

/// The byte that a token of the form `<0x..>` stands for.
fn spelt_byte(raw: &str) -> (r: Option<u8>)
    ensures
        r == if spelt_as_byte(raw@) {
            hex_byte(raw@.subrange(3, raw@.len() - 1))
        } else {
            None
        },
{
    proof {
        reveal_strlit("<0x");
        reveal_strlit(">");
    }
    if !has_prefix(raw, "<0x") {
        return None;
    }
    let c = chars_of(raw);
    let rest = string_of_range(c.as_slice(), 3, c.len());
    assert(rest@ =~= raw@.skip(3));
    if !has_suffix(rest.as_str(), ">") {
        return None;
    }
    let hex = crate::text::range_of(c.as_slice(), 3, c.len() - 1);
    parse_hex(&hex)
}

/// The bytes of SentencePiece text, whose spaces are marked.
fn unmark(raw: &str) -> (r: Vec<u8>)
    ensures
        r@ == encode_utf8(unmarked(raw@)),
{
    let c = chars_of(raw);
    let mut out: Vec<char> = Vec::new();
    let mut i: usize = 0;
    while i < c.len()
        invariant
            i <= c@.len(),
            out@ =~= unmarked(c@).take(i as int),
        decreases c@.len() - i,
    {
        if c[i] == '\u{2581}' {
            out.push(' ');
        } else {
            out.push(c[i]);
        }
        i = i + 1;
    }
    assert(unmarked(c@).take(i as int) =~= unmarked(c@));
    let s = string_of(out.as_slice());
    copy_bytes(s.as_str().as_bytes())
}

/// The bytes that byte-level characters stand for.
fn byte_chars(v: &Vocab, raw: &str) -> (r: Option<Vec<u8>>)
    ensures
        match bytes_of(raw@, raw@.len()) {
            Some(b) => r is Some && r->0@ == b,
            None => r is None,
        },
{
    let c = chars_of(raw);
    let mut out: Vec<u8> = Vec::new();
    let mut ok = true;
    let mut i: usize = 0;
    while i < c.len()
        invariant
            i <= c@.len(),
            bytes_of(c@, i as nat) == if ok {
                Some(out@)
            } else {
                None
            },
        decreases c@.len() - i,
    {
        match v.char_to_byte(c[i]) {
            Some(b) => {
                if ok {
                    out.push(b);
                }
            },
            None => {
                ok = false;
            },
        }
        i = i + 1;
    }
    if ok {
        Some(out)
    } else {
        None
    }
}

/// Renders one token back to raw bytes.
///
/// Bytes rather than a string: SPM byte-fallback tokens and multi-byte characters split across
/// several tokens are not individually valid UTF-8, so assembly happens in the caller.
pub fn decode_token(v: &Vocab, id: u32, skip_special: bool) -> (r: Vec<u8>)
    ensures
        r@ == token_bytes(v@, id, skip_special),
{
    if id as usize >= v.len() {
        return Vec::new();
    }
    let ty = v.token_type(id);
    if skip_special && (ty == TOKEN_CONTROL || ty == TOKEN_UNKNOWN) {
        return Vec::new();
    }
    if ty == TOKEN_UNUSED {
        return Vec::new();
    }
    let raw = v.text(id);
    match v.kind {
        TokenizerKind::Spm => {
            if ty == TOKEN_BYTE || ty == TOKEN_NORMAL {
                if let Some(b) = spelt_byte(raw) {
                    let mut out: Vec<u8> = Vec::new();
                    out.push(b);
                    assert(out@ =~= seq![b]);
                    return out;
                }
            }
            unmark(raw)
        },
        TokenizerKind::Bpe => match byte_chars(v, raw) {
            Some(b) => b,
            None => copy_bytes(raw.as_bytes()),
        },
        TokenizerKind::Wpm => {
            if has_prefix(raw, "##") {
                proof {
                    reveal_strlit("##");
                }
                let c = chars_of(raw);
                let rest = string_of_range(c.as_slice(), 2, c.len());
                assert(rest@ =~= raw@.skip(2));
                copy_bytes(rest.as_str().as_bytes())
            } else {
                let s = cat2(string_of_char(' ').as_str(), raw);
                copy_bytes(s.as_str().as_bytes())
            }
        },
    }
}

/// The text of tokens.
pub fn decode_tokens(v: &Vocab, ids: &[u32], skip_special: bool) -> (r: String)
    ensures
        r@ == lossy(tokens_bytes(v@, ids@, skip_special, ids@.len())),
        valid_utf8(tokens_bytes(v@, ids@, skip_special, ids@.len())) ==> r@ == decode_utf8(
            tokens_bytes(v@, ids@, skip_special, ids@.len()),
        ),
{
    let mut bytes: Vec<u8> = Vec::new();
    let mut i: usize = 0;
    while i < ids.len()
        invariant
            i <= ids@.len(),
            bytes@ == tokens_bytes(v@, ids@, skip_special, i as nat),
        decreases ids@.len() - i,
    {
        let mut more = decode_token(v, ids[i], skip_special);
        bytes.append(&mut more);
        i = i + 1;
    }
    text_of_bytes(bytes.as_slice())
}

// ----------------------------------------------------------------------------- streaming

/// The longest start of `b`, of at most `n` bytes, that is UTF-8.
pub open spec fn valid_within(b: Seq<u8>, n: nat) -> nat
    decreases n,
{
    if n == 0 || valid_utf8(b.take(n as int)) {
        n
    } else {
        valid_within(b, (n - 1) as nat)
    }
}

/// The longest start of `b` that is UTF-8.
pub open spec fn valid_len(b: Seq<u8>) -> nat {
    valid_within(b, b.len())
}

/// `std::str::from_utf8`: whether bytes are UTF-8.
#[verifier::external_body]
fn is_utf8(b: &[u8]) -> (r: bool)
    ensures
        r == valid_utf8(b@),
{
    std::str::from_utf8(b).is_ok()
}

/// The longest start that is UTF-8. Mostly it is all of it, or lacks the few bytes of a
/// character that has not come to its end.
fn valid_up_to(b: &[u8]) -> (n: usize)
    ensures
        n <= b@.len(),
        n == valid_len(b@),
        valid_utf8(b@.take(n as int)),
{
    let mut n: usize = b.len();
    while n > 0 && !is_utf8(slice_subrange(b, 0, n))
        invariant
            n <= b@.len(),
            valid_within(b@, n as nat) == valid_len(b@),
        decreases n,
    {
        assert(b@.subrange(0, n as int) =~= b@.take(n as int));
        n = n - 1;
    }
    assert(b@.subrange(0, n as int) =~= b@.take(n as int));
    assert(b@.take(0) =~= Seq::<u8>::empty());
    n
}

/// What a call of [`Detokenizer::push`] gives out and keeps of the bytes it has.
pub open spec fn detok(all: Seq<u8>) -> (Seq<char>, Seq<u8>) {
    let n = valid_len(all);
    if n == 0 && all.len() > 4 {
        (lossy(all), Seq::empty())
    } else {
        (decode_utf8(all.take(n as int)), all.skip(n as int))
    }
}

/// Accumulates token bytes and emits only complete UTF-8, so a multi-byte character split
/// across tokens never reaches the terminal as a replacement character.
#[derive(Debug)]
pub struct Detokenizer {
    pub pending: Vec<u8>,
}

impl Default for Detokenizer {
    fn default() -> (r: Self)
        ensures
            r.pending@.len() == 0,
    {
        Detokenizer { pending: Vec::new() }
    }
}

impl Detokenizer {
    /// Takes bytes and gives out what is complete. An incomplete sequence is held back, but
    /// never grows without bound: four bytes is the longest a valid character can be.
    pub fn push(&mut self, bytes: &[u8]) -> (r: String)
        ensures
            r@ == detok(old(self).pending@ + bytes@).0,
            final(self).pending@ == detok(old(self).pending@ + bytes@).1,
            // Nothing is lost while the bytes are UTF-8, complete or not.
            valid_len(old(self).pending@ + bytes@) > 0 || (old(self).pending@ + bytes@).len() <= 4
                ==> encode_utf8(r@) + final(self).pending@ == old(self).pending@ + bytes@,
    {
        let ghost all = self.pending@ + bytes@;
        let mut more = copy_bytes(bytes);
        self.pending.append(&mut more);
        assert(self.pending@ =~= all);
        let n = valid_up_to(self.pending.as_slice());
        proof {
            decode_utf8_encode_utf8(all.take(n as int));
            assert(all.take(n as int) + all.skip(n as int) =~= all);
        }
        if n == 0 && self.pending.len() > 4 {
            let out = text_of_bytes(self.pending.as_slice());
            self.pending = Vec::new();
            assert(self.pending@ =~= Seq::empty());
            return out;
        }
        let mut head: Vec<u8> = Vec::new();
        let mut tail: Vec<u8> = Vec::new();
        let mut i: usize = 0;
        while i < self.pending.len()
            invariant
                i <= all.len(),
                n <= all.len(),
                self.pending@ == all,
                head@ =~= all.take(
                    if i < n {
                        i as int
                    } else {
                        n as int
                    },
                ),
                tail@ =~= all.subrange(
                    n as int,
                    if i < n {
                        n as int
                    } else {
                        i as int
                    },
                ),
            decreases all.len() - i,
        {
            if i < n {
                head.push(self.pending[i]);
            } else {
                tail.push(self.pending[i]);
            }
            i = i + 1;
        }
        assert(head@ =~= all.take(n as int));
        assert(tail@ =~= all.skip(n as int));
        let out = text_of_bytes(head.as_slice());
        self.pending = tail;
        out
    }

    /// Gives out whatever is left.
    pub fn flush(&mut self) -> (r: String)
        ensures
            final(self).pending@.len() == 0,
            r@ == if old(self).pending@.len() == 0 {
                Seq::empty()
            } else {
                lossy(old(self).pending@)
            },
    {
        if self.pending.len() == 0 {
            return String::new();
        }
        let out = text_of_bytes(self.pending.as_slice());
        self.pending = Vec::new();
        out
    }
}

/// Bytes one after the other.
pub open spec fn flat(parts: Seq<Seq<u8>>) -> Seq<u8>
    decreases parts.len(),
{
    if parts.len() == 0 {
        Seq::empty()
    } else {
        parts[0] + flat(parts.drop_first())
    }
}

/// What pushing `parts` one by one gives out in all, and what is held back in the end.
pub open spec fn streamed(parts: Seq<Seq<u8>>, pending: Seq<u8>) -> (Seq<char>, Seq<u8>)
    decreases parts.len(),
{
    if parts.len() == 0 {
        (Seq::empty(), pending)
    } else {
        let (now, kept) = detok(pending + parts[0]);
        let (later, left) = streamed(parts.drop_first(), kept);
        (now + later, left)
    }
}

proof fn valid_within_is_longest(b: Seq<u8>, n: nat)
    requires
        n <= b.len(),
    ensures
        valid_within(b, n) <= n,
        valid_utf8(b.take(valid_within(b, n) as int)),
        forall|j: int| valid_within(b, n) < j <= n ==> !valid_utf8(#[trigger] b.take(j)),
    decreases n,
{
    if n == 0 {
        assert(b.take(0).len() == 0);
    } else if !valid_utf8(b.take(n as int)) {
        valid_within_is_longest(b, (n - 1) as nat);
    }
}

proof fn decoding_joins(a: Seq<u8>, b: Seq<u8>)
    requires
        valid_utf8(a),
        valid_utf8(b),
    ensures
        valid_utf8(a + b),
        decode_utf8(a + b) == decode_utf8(a) + decode_utf8(b),
    decreases a.len(),
{
    valid_utf8_concat(a, b);
    if a.len() == 0 {
        assert(a + b =~= b);
        assert(decode_utf8(a) + decode_utf8(b) =~= decode_utf8(b));
    } else {
        let rest = pop_first_scalar(a);
        decoding_joins(rest, b);
        assert(pop_first_scalar(a + b) =~= rest + b);
        assert(decode_utf8(a + b) =~= decode_utf8(a) + decode_utf8(b));
    }
}

/// Where the start of a text is held back, not even one character is there.
proof fn held_back_is_short(all: Seq<u8>, rest: Seq<u8>)
    requires
        valid_utf8(all + rest),
        valid_len(all) == 0,
    ensures
        all.len() < 4,
{
    let r = all + rest;
    if all.len() >= 4 {
        let k = length_of_first_scalar(r);
        reveal_with_fuel(valid_utf8, 2);
        assert(valid_first_scalar(r));
        assert(all.take(k) =~= r.take(k));
        assert(pop_first_scalar(r.take(k)).len() == 0);
        assert(valid_utf8(all.take(k)));
        valid_within_is_longest(all, all.len());
    }
}

/// What is complete behind complete text.
proof fn complete_behind(a: Seq<u8>, b: Seq<u8>)
    requires
        valid_utf8(a),
    ensures
        valid_len(a + b) == a.len() + valid_len(b),
{
    let all = a + b;
    let n = valid_len(b) as int;
    let m = valid_len(all) as int;
    valid_within_is_longest(b, b.len());
    valid_within_is_longest(all, all.len());
    valid_utf8_concat(a, b.take(n));
    assert(a + b.take(n) =~= all.take(a.len() + n));
    if m > a.len() + n {
        let whole = all.take(m);
        let j = m - a.len();
        assert(whole.subrange(0, a.len() as int) =~= a);
        assert(whole.subrange(a.len() as int, m) =~= b.take(j));
        partial_valid_partial_invalid_utf8(whole, a.len() as int);
    }
}

proof fn streaming_goes_on(parts: Seq<Seq<u8>>, pending: Seq<u8>, rest: Seq<u8>)
    requires
        valid_utf8(pending + flat(parts) + rest),
        valid_len(pending) == 0,
    ensures
        ({
            let all = pending + flat(parts);
            let n = valid_len(all) as int;
            streamed(parts, pending) == (decode_utf8(all.take(n)), all.skip(n))
        }),
    decreases parts.len(),
{
    valid_within_is_longest(pending, pending.len());
    let whole = pending + flat(parts);
    let m = valid_len(whole) as int;
    if parts.len() == 0 {
        assert(whole =~= pending);
        assert(whole.take(0) =~= Seq::<u8>::empty());
        assert(decode_utf8(whole.take(0)) =~= Seq::<char>::empty());
        assert(whole.skip(0) =~= pending);
    } else {
        let all = pending + parts[0];
        let later = flat(parts.drop_first());
        assert(whole =~= all + later);
        let n = valid_len(all) as int;
        valid_within_is_longest(all, all.len());
        if n == 0 {
            assert(whole + rest =~= all + (later + rest));
            held_back_is_short(all, later + rest);
        }
        let kept = all.skip(n);
        complete_behind(all.take(n), kept);
        assert(all.take(n) + kept =~= all);
        let after = kept + later;
        let text = whole + rest;
        assert(text.subrange(0, n) =~= all.take(n));
        assert(text.subrange(n, text.len() as int) =~= after + rest);
        if !valid_utf8(after + rest) {
            partial_valid_partial_invalid_utf8(text, n);
        }
        streaming_goes_on(parts.drop_first(), kept, rest);
        complete_behind(all.take(n), after);
        assert(all.take(n) + after =~= whole);
        let k = valid_len(after) as int;
        valid_within_is_longest(after, after.len());
        decoding_joins(all.take(n), after.take(k));
        assert(all.take(n) + after.take(k) =~= whole.take(m));
        assert(after.skip(k) =~= whole.skip(m));
    }
}

/// After each push, what was given out so far is the longest start of the bytes so far that is
/// complete, and the rest is held back: while the bytes are the start of a text, cut anywhere, no
/// character is replaced or withheld.
pub proof fn each_push_gives_what_is_complete(parts: Seq<Seq<u8>>, rest: Seq<u8>)
    requires
        valid_utf8(flat(parts) + rest),
    ensures
        ({
            let so_far = flat(parts);
            let n = valid_len(so_far) as int;
            &&& streamed(parts, Seq::empty()) == (decode_utf8(so_far.take(n)), so_far.skip(n))
            &&& n <= so_far.len()
            &&& valid_utf8(so_far.take(n))
            &&& forall|j: int| n < j <= so_far.len() ==> !valid_utf8(#[trigger] so_far.take(j))
        }),
{
    let none = Seq::<u8>::empty();
    assert(none + flat(parts) =~= flat(parts));
    valid_within_is_longest(none, 0);
    valid_within_is_longest(flat(parts), flat(parts).len());
    streaming_goes_on(parts, none, rest);
}

/// One push more gives out what it adds to that.
pub proof fn a_push_adds_to_what_was_given(parts: Seq<Seq<u8>>, more: Seq<u8>, pending: Seq<u8>)
    ensures
        ({
            let (given, kept) = streamed(parts, pending);
            let (now, left) = detok(kept + more);
            streamed(parts.push(more), pending) == (given + now, left)
        }),
    decreases parts.len(),
{
    let all = parts.push(more);
    assert(all[0] == if parts.len() == 0 {
        more
    } else {
        parts[0]
    });
    reveal_with_fuel(streamed, 2);
    if parts.len() == 0 {
        let (now, left) = detok(pending + more);
        assert(all.drop_first() =~= Seq::<Seq<u8>>::empty());
        assert(now + Seq::<char>::empty() =~= now);
        assert(Seq::<char>::empty() + now =~= now);
    } else {
        let (first, kept) = detok(pending + parts[0]);
        a_push_adds_to_what_was_given(parts.drop_first(), more, kept);
        assert(all.drop_first() =~= parts.drop_first().push(more));
        let (given, last) = streamed(parts.drop_first(), kept);
        let (now, left) = detok(last + more);
        assert(first + (given + now) =~= first + given + now);
    }
}

/// However a text is cut into bytes, inside a character or not, pushing the parts gives out the
/// text: no character is replaced, and nothing is held back in the end.
pub proof fn cutting_does_not_matter(parts: Seq<Seq<u8>>)
    requires
        valid_utf8(flat(parts)),
    ensures
        streamed(parts, Seq::empty()) == (decode_utf8(flat(parts)), Seq::<u8>::empty()),
{
    let none = Seq::<u8>::empty();
    let b = flat(parts);
    assert(b + none =~= b);
    each_push_gives_what_is_complete(parts, none);
    assert(b.take(b.len() as int) =~= b);
    assert(b.skip(b.len() as int) =~= none);
}

} // verus!
