//! The vocabulary of a model.

use vstd::prelude::*;
use vstd::string::*;
use vstd::utf8::{encode_utf8, is_scalar};

use super::index::{place_of, Index};
use crate::error::{Error, ErrorView};
use crate::gguf::value::{values, MetaView, Metadata, Value, ValueView};
use crate::scalar::Real;
use crate::text::{
    begins_with, cat3, chars_of, comes_before, finishes_with, has_prefix, has_suffix, has_text,
    is_white, own, position_from, same, string_of_char, text_less, text_less_irreflexive,
    text_less_total, text_less_transitive, texts,
};

verus! {

/// `char::from_u32`: the character with that code, where there is one.
pub assume_specification[ char::from_u32 ](i: u32) -> (r: Option<char>)
    ensures
        is_scalar(i) ==> r == Some(i as char),
        !is_scalar(i) ==> r is None,
;

/// Which merge algorithm the vocabulary was built with.
#[derive(Debug, Clone, Copy, PartialEq, Eq, Structural)]
pub enum TokenizerKind {
    /// SentencePiece: merge the adjacent pair with the best score.
    Spm,
    /// Byte-level BPE: pre-tokenize, then merge by merge-list rank.
    Bpe,
    /// WordPiece, used by embedding models.
    Wpm,
}

/// ggml token type codes.
pub const TOKEN_NORMAL: u32 = 1;

pub const TOKEN_UNKNOWN: u32 = 2;

pub const TOKEN_CONTROL: u32 = 3;

pub const TOKEN_USER_DEFINED: u32 = 4;

pub const TOKEN_UNUSED: u32 = 5;

pub const TOKEN_BYTE: u32 = 6;

/// The bits of negative infinity.
pub const LOWEST_SCORE: u32 = 0xff80_0000;

/// A token that is matched literally.
#[derive(Debug)]
pub struct Special {
    pub text: String,
    pub id: u32,
}

impl View for Special {
    type V = (Seq<char>, u32);

    open spec fn view(&self) -> (Seq<char>, u32) {
        (self.text@, self.id)
    }
}

/// The views of a list of special tokens.
pub open spec fn specials_view(v: Seq<Special>) -> Seq<(Seq<char>, u32)> {
    Seq::new(v.len(), |i: int| v[i]@)
}

#[derive(Debug)]
pub struct Vocab {
    /// The tokens, found by their text.
    pub by_text: Index,
    /// The bits of each token's score.
    pub scores: Vec<u32>,
    pub types: Vec<u32>,
    /// The merge lines, best first: a left part, a space and a right part.
    pub merges: Index,
    pub kind: TokenizerKind,
    /// Value of `tokenizer.ggml.pre`, which selects the pre-tokenizer split rules.
    pub pre: String,
    pub bos: Option<u32>,
    pub eos: Vec<u32>,
    pub pad: Option<u32>,
    pub unk: Option<u32>,
    pub add_bos: bool,
    pub add_eos: bool,
    /// SPM prepends a space to the input so the first word tokenizes like an inner one.
    pub add_space_prefix: bool,
    pub chat_template: Option<String>,
    /// Tokens that must be matched literally before any merge algorithm runs, longest first,
    /// so that `<|im_start|>` never gets split into pieces.
    pub specials: Vec<Special>,
    pub byte_encoder: Vec<char>,
}

/// The mathematical value of a [`Vocab`].
#[verifier::ext_equal]
pub struct VocabView {
    pub tokens: Seq<Seq<char>>,
    pub scores: Seq<u32>,
    pub types: Seq<u32>,
    pub merges: Seq<Seq<char>>,
    pub kind: TokenizerKind,
    pub pre: Seq<char>,
    pub bos: Option<u32>,
    pub eos: Seq<u32>,
    pub pad: Option<u32>,
    pub unk: Option<u32>,
    pub add_bos: bool,
    pub add_eos: bool,
    pub add_space_prefix: bool,
    pub chat_template: Option<Seq<char>>,
    pub specials: Seq<(Seq<char>, u32)>,
}

pub open spec fn opt_text(s: Option<String>) -> Option<Seq<char>> {
    match s {
        Some(x) => Some(x@),
        None => None,
    }
}

impl View for Vocab {
    type V = VocabView;

    open spec fn view(&self) -> VocabView {
        VocabView {
            tokens: texts(self.by_text.items@),
            scores: self.scores@,
            types: self.types@,
            merges: texts(self.merges.items@),
            kind: self.kind,
            pre: self.pre@,
            bos: self.bos,
            eos: self.eos@,
            pad: self.pad,
            unk: self.unk,
            add_bos: self.add_bos,
            add_eos: self.add_eos,
            add_space_prefix: self.add_space_prefix,
            chat_template: opt_text(self.chat_template),
            specials: specials_view(self.specials@),
        }
    }
}

// ------------------------------------------------------------------------ what files say

impl MetaView {
    pub open spec fn list(self, key: Seq<char>) -> Option<Seq<ValueView>> {
        match self.exact(key) {
            Some(v) => v.to_array(),
            None => None,
        }
    }

    pub open spec fn number(self, key: Seq<char>) -> Option<u32> {
        match self.exact(key) {
            Some(v) => v.to_u32(),
            None => None,
        }
    }

    pub open spec fn switch(self, key: Seq<char>, default: bool) -> bool {
        match self.exact(key) {
            Some(v) => match v.to_bool() {
                Some(b) => b,
                None => default,
            },
            None => default,
        }
    }

    pub open spec fn string(self, key: Seq<char>) -> Option<Seq<char>> {
        match self.exact(key) {
            Some(v) => v.to_text(),
            None => None,
        }
    }
}

/// The text of a value; empty where it is none.
pub open spec fn text_or_empty(v: ValueView) -> Seq<char> {
    match v.to_text() {
        Some(s) => s,
        None => Seq::empty(),
    }
}

pub open spec fn token_texts(a: Seq<ValueView>) -> Seq<Seq<char>> {
    Seq::new(a.len(), |i: int| text_or_empty(a[i]))
}

pub open spec fn type_codes(m: MetaView, n: nat) -> Seq<u32> {
    match m.list("tokenizer.ggml.token_type"@) {
        Some(a) => Seq::new(
            a.len(),
            |i: int|
                match a[i].to_u32() {
                    Some(t) => t,
                    None => TOKEN_NORMAL,
                },
        ),
        None => Seq::new(n, |i: int| TOKEN_NORMAL),
    }
}

/// Whether `s` are the scores a file gives: the bits of single-precision numbers as they are,
/// any other number as `narrow` rounds it, zero for what is no number and for every token
/// where there are none.
pub open spec fn scores_given<F: Fn(Real) -> u32>(m: MetaView, n: nat, s: Seq<u32>, narrow: F) -> bool {
    match m.list("tokenizer.ggml.scores"@) {
        Some(a) => s.len() == a.len() && forall|i: int|
            0 <= i < a.len() ==> match (#[trigger] a[i]).to_real() {
                Some(Real::Single(b)) => s[i] == b,
                Some(x) => call_ensures(narrow, (x,), s[i]),
                None => s[i] == 0,
            },
        None => s == Seq::new(n, |i: int| 0u32),
    }
}

pub open spec fn kind_of(m: MetaView) -> TokenizerKind {
    let name = match m.string("tokenizer.ggml.model"@) {
        Some(s) => s,
        None => "llama"@,
    };
    if name == "gpt2"@ {
        TokenizerKind::Bpe
    } else if name == "bert"@ || name == "wpm"@ {
        TokenizerKind::Wpm
    } else {
        TokenizerKind::Spm
    }
}

pub open spec fn eos_of(m: MetaView) -> Seq<u32> {
    match m.exact("tokenizer.ggml.eos_token_id"@) {
        Some(v) => if v.to_u32s().len() > 0 {
            v.to_u32s()
        } else {
            seq![2u32]
        },
        None => seq![2u32],
    }
}

/// The type of token `i`.
pub open spec fn type_at(types: Seq<u32>, i: int) -> u32 {
    if 0 <= i < types.len() {
        types[i]
    } else {
        TOKEN_NORMAL
    }
}

/// Whether a token is matched literally.
pub open spec fn is_special(t: Seq<char>, ty: u32) -> bool {
    t.len() > 0 && (ty == TOKEN_CONTROL || ty == TOKEN_USER_DEFINED || (begins_with(t, "<|"@)
        && finishes_with(t, "|>"@)) || (begins_with(t, "<"@) && finishes_with(t, ">"@)
        && encode_utf8(t).len() > 2 && !begins_with(t, "<0x"@)))
}

/// Whether `x` is tried before `y`: the longer one, and of two equally long ones the one that
/// comes first in the alphabet.
pub open spec fn tried_before(x: Seq<char>, y: Seq<char>) -> bool {
    let a = encode_utf8(x).len();
    let b = encode_utf8(y).len();
    a > b || (a == b && text_less(x, y))
}

/// `s` with `x` behind every token that is not tried after it.
pub open spec fn placed(s: Seq<(Seq<char>, u32)>, x: (Seq<char>, u32)) -> Seq<(Seq<char>, u32)>
    decreases s.len(),
{
    if s.len() == 0 {
        seq![x]
    } else if tried_before(x.0, s.last().0) {
        placed(s.drop_last(), x).push(s.last())
    } else {
        s.push(x)
    }
}

/// The special tokens among the first `n`, in the order in which they are tried.
pub open spec fn specials_of(tokens: Seq<Seq<char>>, types: Seq<u32>, n: nat) -> Seq<
    (Seq<char>, u32),
>
    decreases n,
{
    if n == 0 || n > tokens.len() {
        Seq::empty()
    } else {
        let rest = specials_of(tokens, types, (n - 1) as nat);
        if is_special(tokens[n - 1], type_at(types, n - 1)) {
            placed(rest, (tokens[n - 1], (n - 1) as u32))
        } else {
            rest
        }
    }
}

/// Whether the tokens are in the order in which they are tried.
pub open spec fn in_order(s: Seq<(Seq<char>, u32)>) -> bool {
    forall|i: int, j: int|
        0 <= i < j < s.len() ==> !tried_before((#[trigger] s[j]).0, (#[trigger] s[i]).0)
}

proof fn tried_before_transitive(x: Seq<char>, y: Seq<char>, z: Seq<char>)
    requires
        !tried_before(y, x),
        !tried_before(z, y),
    ensures
        !tried_before(z, x),
{
    text_less_total(x, y);
    text_less_total(y, z);
    if encode_utf8(z).len() == encode_utf8(x).len() && text_less(z, x) {
        if y == z {
        } else if x == y {
        } else {
            text_less_transitive(x, y, z);
            text_less_transitive(x, z, x);
            text_less_irreflexive(x);
        }
    }
}

proof fn placed_holds(s: Seq<(Seq<char>, u32)>, x: (Seq<char>, u32))
    ensures
        placed(s, x).len() == s.len() + 1,
        forall|i: int|
            0 <= i < placed(s, x).len() ==> (#[trigger] placed(s, x)[i]) == x || s.contains(
                placed(s, x)[i],
            ),
    decreases s.len(),
{
    if s.len() > 0 {
        let d = s.drop_last();
        if tried_before(x.0, s.last().0) {
            placed_holds(d, x);
            assert forall|i: int| 0 <= i < placed(s, x).len() implies (#[trigger] placed(s, x)[i])
                == x || s.contains(placed(s, x)[i]) by {
                if i < s.len() {
                    assert(placed(s, x)[i] == placed(d, x)[i]);
                    if placed(d, x)[i] != x {
                        let k = choose|k: int| 0 <= k < d.len() && d[k] == placed(d, x)[i];
                        assert(s[k] == d[k]);
                    }
                } else {
                    assert(s[s.len() - 1] == s.last());
                }
            }
        } else {
            assert forall|i: int| 0 <= i < placed(s, x).len() implies (#[trigger] placed(s, x)[i])
                == x || s.contains(placed(s, x)[i]) by {
                if i < s.len() {
                    assert(placed(s, x)[i] == s[i]);
                }
            }
        }
    }
}

proof fn placed_keeps_order(s: Seq<(Seq<char>, u32)>, x: (Seq<char>, u32))
    requires
        in_order(s),
    ensures
        in_order(placed(s, x)),
    decreases s.len(),
{
    if s.len() > 0 {
        let d = s.drop_last();
        let r = placed(s, x);
        placed_holds(d, x);
        if tried_before(x.0, s.last().0) {
            placed_keeps_order(d, x);
            let q = placed(d, x);
            assert forall|i: int, j: int| 0 <= i < j < r.len() implies !tried_before(
                (#[trigger] r[j]).0,
                (#[trigger] r[i]).0,
            ) by {
                assert(r[i] == q[i]);
                if j < q.len() {
                    assert(r[j] == q[j]);
                } else if q[i] == x {
                    text_less_total(x.0, s.last().0);
                    if text_less(s.last().0, x.0) && text_less(x.0, s.last().0) {
                        text_less_transitive(x.0, s.last().0, x.0);
                        text_less_irreflexive(x.0);
                    }
                } else {
                    let k = choose|k: int| 0 <= k < d.len() && d[k] == q[i];
                    assert(s[k] == q[i]);
                }
            }
        } else {
            assert forall|i: int, j: int| 0 <= i < j < r.len() implies !tried_before(
                (#[trigger] r[j]).0,
                (#[trigger] r[i]).0,
            ) by {
                if j == s.len() && i < s.len() - 1 {
                    tried_before_transitive(s[i].0, s.last().0, x.0);
                }
            }
        }
    }
}

/// A special token is never tried after one that it is longer than, so a prefix of another
/// one never wins.
pub proof fn specials_are_longest_first(tokens: Seq<Seq<char>>, types: Seq<u32>, n: nat)
    ensures
        in_order(specials_of(tokens, types, n)),
        forall|i: int, j: int|
            0 <= i < j < specials_of(tokens, types, n).len() ==> encode_utf8(
                (#[trigger] specials_of(tokens, types, n)[i]).0,
            ).len() >= encode_utf8((#[trigger] specials_of(tokens, types, n)[j]).0).len(),
    decreases n,
{
    if n > 0 && n <= tokens.len() {
        specials_are_longest_first(tokens, types, (n - 1) as nat);
        if is_special(tokens[n - 1], type_at(types, n - 1)) {
            placed_keeps_order(
                specials_of(tokens, types, (n - 1) as nat),
                (tokens[n - 1], (n - 1) as u32),
            );
        }
    }
}

/// What a file says of its vocabulary, the scores apart.
pub open spec fn vocab_of(m: MetaView, a: Seq<ValueView>, scores: Seq<u32>) -> VocabView {
    let tokens = token_texts(a);
    let types = type_codes(m, a.len());
    VocabView {
        tokens,
        scores,
        types,
        merges: match m.list("tokenizer.ggml.merges"@) {
            Some(l) => token_texts(l),
            None => Seq::empty(),
        },
        kind: kind_of(m),
        pre: match m.string("tokenizer.ggml.pre"@) {
            Some(s) => s,
            None => "default"@,
        },
        bos: m.number("tokenizer.ggml.bos_token_id"@),
        eos: eos_of(m),
        pad: m.number("tokenizer.ggml.padding_token_id"@),
        unk: m.number("tokenizer.ggml.unknown_token_id"@),
        add_bos: m.switch("tokenizer.ggml.add_bos_token"@, kind_of(m) == TokenizerKind::Spm),
        add_eos: m.switch("tokenizer.ggml.add_eos_token"@, false),
        add_space_prefix: m.switch("tokenizer.ggml.add_space_prefix"@, true),
        chat_template: m.string("tokenizer.chat_template"@),
        specials: specials_of(tokens, types, tokens.len()),
    }
}

/// The message where a file has no vocabulary.
pub open spec fn no_vocabulary() -> Seq<char> {
    "tokenizer.ggml.tokens (the file carries no vocabulary; a split GGUF needs its first shard, and an mmproj file is not a model)"@
}

// -------------------------------------------------------------------------------- bytes

/// Whether a byte stands for itself.
pub open spec fn stands_for_itself(b: int) -> bool {
    33 <= b <= 126 || 161 <= b <= 172 || 174 <= b <= 255
}

/// The code of the character that stands for a byte. Bytes that are printable ASCII or
/// Latin-1 stand for themselves; the rest follow from U+0100 on, in order.
pub open spec fn byte_code(b: int) -> int {
    if stands_for_itself(b) {
        b
    } else if b < 33 {
        256 + b
    } else if b < 161 {
        256 + 33 + (b - 127)
    } else {
        323
    }
}

pub open spec fn byte_char(b: u8) -> char {
    byte_code(b as int) as char
}

/// Every byte has a character of its own.
pub proof fn byte_chars_are_distinct(a: u8, b: u8)
    requires
        a != b,
    ensures
        byte_char(a) != byte_char(b),
{
}

/// No byte's character is white space.
pub proof fn byte_chars_are_not_white(b: u8)
    ensures
        !is_white(byte_char(b)),
{
}

/// GPT-2's byte-to-printable-character map, so that every byte has a distinct, non-whitespace
/// character.
pub fn build_byte_encoder() -> (r: Vec<char>)
    ensures
        r@.len() == 256,
        forall|b: u8| r@[b as int] == #[trigger] byte_char(b),
{
    let mut enc: Vec<char> = Vec::new();
    let mut n: u32 = 0;
    let mut b: u32 = 0;
    while b < 256
        invariant
            b <= 256,
            b <= 33 ==> n == b,
            33 < b <= 127 ==> n == 33,
            127 < b <= 161 ==> n == b - 94,
            161 < b <= 173 ==> n == 67,
            173 < b ==> n == 68,
            enc@.len() == b,
            forall|k: int| 0 <= k < b ==> (#[trigger] enc@[k]) as int == byte_code(k),
        decreases 256 - b,
    {
        let code = if 33 <= b && b <= 126 || 161 <= b && b <= 172 || 174 <= b {
            b
        } else {
            n = n + 1;
            256 + n - 1
        };
        assert(code == byte_code(b as int));
        match char::from_u32(code) {
            Some(c) => enc.push(c),
            None => enc.push('\0'),
        }
        b = b + 1;
    }
    assert forall|b: u8| enc@[b as int] == #[trigger] byte_char(b) by {
        assert(enc@[b as int] as int == byte_code(b as int));
    }
    enc
}

/// The byte that a character stands for.
pub open spec fn byte_of(c: char) -> Option<u8> {
    if exists|b: u8| byte_char(b) == c {
        Some(choose|b: u8| byte_char(b) == c)
    } else {
        None
    }
}

/// A byte is found again from its character.
pub proof fn byte_found_again(b: u8)
    ensures
        byte_of(byte_char(b)) == Some(b),
{
    let c = byte_char(b);
    assert(exists|x: u8| byte_char(x) == c);
    let x = choose|x: u8| byte_char(x) == c;
    if x != b {
        byte_chars_are_distinct(x, b);
    }
}

/// The digit `d` in upper case hexadecimal.
pub open spec fn upper_hex(d: nat) -> char {
    if d < 10 {
        crate::text::digit(d)
    } else {
        (('A' as int) + d - 10) as char
    }
}

/// The token that stands for a byte that no other token covers.
pub open spec fn byte_token(b: u8) -> Seq<char> {
    "<0x"@ + seq![upper_hex((b / 16) as nat), upper_hex((b % 16) as nat)] + ">"@
}

fn upper_hex_char(d: u8) -> (c: char)
    requires
        d < 16,
    ensures
        c == upper_hex(d as nat),
{
    match d {
        0 => '0',
        1 => '1',
        2 => '2',
        3 => '3',
        4 => '4',
        5 => '5',
        6 => '6',
        7 => '7',
        8 => '8',
        9 => '9',
        10 => 'A',
        11 => 'B',
        12 => 'C',
        13 => 'D',
        14 => 'E',
        _ => 'F',
    }
}

// ----------------------------------------------------------------------------- the tokens

impl VocabView {
    pub open spec fn find(self, t: Seq<char>) -> Option<u32> {
        match place_of(self.tokens, t, false) {
            Some(i) => Some(i as u32),
            None => None,
        }
    }

    /// The rank at which two parts merge, lowest first.
    pub open spec fn rank(self, l: Seq<char>, r: Seq<char>) -> Option<u32> {
        if has_text(l, seq![' ']) {
            None
        } else {
            match place_of(self.merges, l + seq![' '] + r, true) {
                Some(i) => Some(i as u32),
                None => None,
            }
        }
    }

    pub open spec fn score(self, id: u32) -> u32 {
        if id < self.scores.len() {
            self.scores[id as int]
        } else {
            LOWEST_SCORE
        }
    }

    pub open spec fn text_at(self, id: u32) -> Seq<char> {
        if id < self.tokens.len() {
            self.tokens[id as int]
        } else {
            Seq::empty()
        }
    }

    pub open spec fn type_of(self, id: u32) -> u32 {
        type_at(self.types, id as int)
    }
}

/// The strings of a list of values.
fn string_list(a: &[Value]) -> (r: Vec<String>)
    ensures
        texts(r@) == token_texts(values(a@)),
{
    let ghost want = token_texts(values(a@));
    let mut out: Vec<String> = Vec::new();
    let mut i: usize = 0;
    while i < a.len()
        invariant
            i <= a@.len(),
            want == token_texts(values(a@)),
            texts(out@) =~= want.take(i as int),
        decreases a@.len() - i,
    {
        let ghost before = texts(out@);
        let s = match a[i].as_str() {
            Some(s) => own(s),
            None => String::new(),
        };
        assert(s@ =~= want[i as int]);
        out.push(s);
        i = i + 1;
        assert(texts(out@) =~= before.push(want[i - 1]));
    }
    assert(want.take(i as int) =~= want);
    out
}

/// Puts a special token in its place.
fn place_special(s: &mut Vec<Special>, text: String, id: u32)
    ensures
        specials_view(final(s)@) == placed(specials_view(old(s)@), (text@, id)),
{
    let ghost v = specials_view(s@);
    let ghost x = (text@, id);
    let n = text.as_str().as_bytes().len();
    let mut p: usize = s.len();
    assert(v.take(p as int) =~= v);
    assert(placed(v, x) + v.skip(p as int) =~= placed(v, x));
    while p > 0
        invariant
            p <= s@.len(),
            v == specials_view(s@),
            x == (text@, id),
            n == encode_utf8(text@).len(),
            placed(v, x) == placed(v.take(p as int), x) + v.skip(p as int),
        ensures
            p <= s@.len(),
            placed(v, x) == placed(v.take(p as int), x) + v.skip(p as int),
            p == 0 || !tried_before(x.0, v[p - 1].0),
        decreases p,
    {
        let other = &s[p - 1].text;
        let m = other.as_str().as_bytes().len();
        let ghost d = v.take(p as int);
        assert(d.last() == v[p - 1]);
        assert(v[p - 1].0 == other@);
        if n > m || n == m && comes_before(text.as_str(), other.as_str()) {
            assert(d.drop_last() =~= v.take(p - 1));
            assert(placed(d.drop_last(), x).push(d.last()) + v.skip(p as int) =~= placed(
                v.take(p - 1),
                x,
            ) + v.skip(p - 1));
            p = p - 1;
        } else {
            break;
        }
    }
    proof {
        let d = v.take(p as int);
        if p > 0 {
            assert(d.last() == v[p - 1]);
        }
        assert(placed(d, x) =~= d.push(x));
    }
    s.insert(p, Special { text, id });
    assert(specials_view(s@) =~= v.take(p as int).push(x) + v.skip(p as int));
}

fn has_space(s: &str) -> (r: bool)
    ensures
        r == has_text(s@, seq![' ']),
{
    let c = chars_of(s);
    let mut space: Vec<char> = Vec::new();
    space.push(' ');
    assert(space@ =~= seq![' ']);
    position_from(c.as_slice(), space.as_slice(), 0).is_some()
}

/// Whether a token is matched literally.
fn matched_literally(t: &str, ty: u32) -> (r: bool)
    ensures
        r == is_special(t@, ty),
{
    !t.is_empty() && (ty == TOKEN_CONTROL || ty == TOKEN_USER_DEFINED || (has_prefix(t, "<|")
        && has_suffix(t, "|>")) || (has_prefix(t, "<") && has_suffix(t, ">") && t.as_bytes().len()
        > 2 && !has_prefix(t, "<0x")))
}

/// The scores a file gives.
fn read_scores<F: Fn(Real) -> u32>(m: &Metadata, n: usize, narrow: &F) -> (r: Vec<u32>)
    requires
        m.wf(),
        forall|x: Real| call_requires(narrow, (x,)),
    ensures
        scores_given(m@, n as nat, r@, *narrow),
{
    let mut out: Vec<u32> = Vec::new();
    let given = match m.raw("tokenizer.ggml.scores") {
        Some(v) => v.as_array(),
        None => None,
    };
    match given {
        Some(a) => {
            let mut i: usize = 0;
            while i < a.len()
                invariant
                    i <= a@.len(),
                    out@.len() == i,
                    forall|x: Real| call_requires(narrow, (x,)),
                    forall|k: int|
                        0 <= k < i ==> match (#[trigger] values(a@)[k]).to_real() {
                            Some(Real::Single(b)) => out@[k] == b,
                            Some(x) => call_ensures(narrow, (x,), out@[k]),
                            None => out@[k] == 0,
                        },
                decreases a@.len() - i,
            {
                assert(values(a@)[i as int] == a@[i as int]@);
                let s: u32 = match a[i].as_f32() {
                    Some(Real::Single(b)) => b,
                    Some(x) => narrow(x),
                    None => 0,
                };
                out.push(s);
                i = i + 1;
            }
        },
        None => {
            let mut i: usize = 0;
            while i < n
                invariant
                    i <= n,
                    out@ =~= Seq::new(i as nat, |k: int| 0u32),
                decreases n - i,
            {
                out.push(0);
                i = i + 1;
            }
        },
    }
    out
}

/// The types of the tokens.
fn read_types(m: &Metadata, n: usize) -> (r: Vec<u32>)
    requires
        m.wf(),
    ensures
        r@ == type_codes(m@, n as nat),
{
    let ghost want = type_codes(m@, n as nat);
    let mut out: Vec<u32> = Vec::new();
    let given = match m.raw("tokenizer.ggml.token_type") {
        Some(v) => v.as_array(),
        None => None,
    };
    match given {
        Some(a) => {
            let mut i: usize = 0;
            while i < a.len()
                invariant
                    i <= a@.len(),
                    want == Seq::new(
                        a@.len(),
                        |i: int|
                            match values(a@)[i].to_u32() {
                                Some(t) => t,
                                None => TOKEN_NORMAL,
                            },
                    ),
                    out@ =~= want.take(i as int),
                decreases a@.len() - i,
            {
                assert(values(a@)[i as int] == a@[i as int]@);
                match a[i].as_u32() {
                    Some(t) => out.push(t),
                    None => out.push(TOKEN_NORMAL),
                }
                i = i + 1;
            }
            assert(want.take(i as int) =~= want);
        },
        None => {
            let mut i: usize = 0;
            while i < n
                invariant
                    i <= n,
                    out@ =~= Seq::new(i as nat, |k: int| TOKEN_NORMAL),
                decreases n - i,
            {
                out.push(TOKEN_NORMAL);
                i = i + 1;
            }
        },
    }
    out
}

fn read_kind(m: &Metadata) -> (r: TokenizerKind)
    requires
        m.wf(),
    ensures
        r == kind_of(m@),
{
    let given = match m.raw("tokenizer.ggml.model") {
        Some(v) => v.as_str(),
        None => None,
    };
    let name = match given {
        Some(s) => s,
        None => "llama",
    };
    if same(name, "gpt2") {
        TokenizerKind::Bpe
    } else if same(name, "bert") || same(name, "wpm") {
        TokenizerKind::Wpm
    } else {
        TokenizerKind::Spm
    }
}

fn read_eos(m: &Metadata) -> (r: Vec<u32>)
    requires
        m.wf(),
    ensures
        r@ == eos_of(m@),
{
    match m.raw("tokenizer.ggml.eos_token_id") {
        Some(v) => {
            let l = v.as_u32_list();
            if l.len() > 0 {
                return l;
            }
        },
        None => {},
    }
    let mut out: Vec<u32> = Vec::new();
    out.push(2);
    assert(out@ =~= seq![2u32]);
    out
}

fn read_number(m: &Metadata, key: &str) -> (r: Option<u32>)
    requires
        m.wf(),
    ensures
        r == m@.number(key@),
{
    match m.raw(key) {
        Some(v) => v.as_u32(),
        None => None,
    }
}

fn read_switch(m: &Metadata, key: &str, default: bool) -> (r: bool)
    requires
        m.wf(),
    ensures
        r == m@.switch(key@, default),
{
    match m.raw(key) {
        Some(v) => match v.as_bool() {
            Some(b) => b,
            None => default,
        },
        None => default,
    }
}

fn read_string(m: &Metadata, key: &str) -> (r: Option<String>)
    requires
        m.wf(),
    ensures
        opt_text(r) == m@.string(key@),
{
    match m.raw(key) {
        Some(v) => match v.as_str() {
            Some(s) => Some(own(s)),
            None => None,
        },
        None => None,
    }
}

impl Vocab {
    /// Both indexes find what they hold, and the byte table is the one above.
    pub open spec fn wf(self) -> bool {
        &&& self.by_text.wf()
        &&& !self.by_text.last
        &&& self.merges.wf()
        &&& self.merges.last
        &&& self.byte_encoder@.len() == 256
        &&& forall|b: u8| self.byte_encoder@[b as int] == #[trigger] byte_char(b)
    }

    /// The vocabulary that the metadata of a file describes. `narrow` rounds a number to
    /// single precision and gives its bits.
    pub fn from_gguf<F: Fn(Real) -> u32>(m: &Metadata, narrow: &F) -> (r: Result<Vocab, Error>)
        requires
            m.wf(),
            forall|x: Real| call_requires(narrow, (x,)),
        ensures
            match m@.list("tokenizer.ggml.tokens"@) {
                Some(a) => r is Ok && r->Ok_0.wf() && r->Ok_0@ == vocab_of(
                    m@,
                    a,
                    r->Ok_0.scores@,
                ) && scores_given(m@, a.len(), r->Ok_0.scores@, *narrow),
                None => r is Err && r->Err_0@ == ErrorView::MissingKey(no_vocabulary()),
            },
    {
        let given = match m.raw("tokenizer.ggml.tokens") {
            Some(v) => v.as_array(),
            None => None,
        };
        let tokens = match given {
            Some(a) => string_list(a),
            None => {
                return Err(
                    Error::MissingKey(
                        own(
                            "tokenizer.ggml.tokens (the file carries no vocabulary; a split GGUF needs its first shard, and an mmproj file is not a model)",
                        ),
                    ),
                );
            },
        };
        let ghost a = m@.list("tokenizer.ggml.tokens"@)->0;
        let n = tokens.len();
        assert(n == texts(tokens@).len());
        let scores = read_scores(m, n, narrow);
        let types = read_types(m, n);
        let kind = read_kind(m);
        let merge_list = match m.raw("tokenizer.ggml.merges") {
            Some(v) => v.as_array(),
            None => None,
        };
        let lines = match merge_list {
            Some(l) => string_list(l),
            None => Vec::new(),
        };
        assert(merge_list is None ==> texts(lines@) =~= Seq::<Seq<char>>::empty());
        let mut specials: Vec<Special> = Vec::new();
        assert(specials_view(specials@) =~= Seq::<(Seq<char>, u32)>::empty());
        let mut i: usize = 0;
        while i < tokens.len()
            invariant
                i <= tokens@.len(),
                specials_view(specials@) == specials_of(texts(tokens@), types@, i as nat),
            decreases tokens@.len() - i,
        {
            let ty = if i < types.len() {
                types[i]
            } else {
                TOKEN_NORMAL
            };
            assert(texts(tokens@)[i as int] == tokens@[i as int]@);
            if matched_literally(tokens[i].as_str(), ty) {
                place_special(&mut specials, own(tokens[i].as_str()), i as u32);
            }
            i = i + 1;
        }
        let pre = match read_string(m, "tokenizer.ggml.pre") {
            Some(s) => s,
            None => own("default"),
        };
        let v = Vocab {
            by_text: Index::new(tokens, false),
            scores,
            types,
            merges: Index::new(lines, true),
            kind,
            pre,
            bos: read_number(m, "tokenizer.ggml.bos_token_id"),
            eos: read_eos(m),
            pad: read_number(m, "tokenizer.ggml.padding_token_id"),
            unk: read_number(m, "tokenizer.ggml.unknown_token_id"),
            add_bos: read_switch(
                m,
                "tokenizer.ggml.add_bos_token",
                kind == TokenizerKind::Spm,
            ),
            add_eos: read_switch(m, "tokenizer.ggml.add_eos_token", false),
            add_space_prefix: read_switch(m, "tokenizer.ggml.add_space_prefix", true),
            chat_template: read_string(m, "tokenizer.chat_template"),
            specials,
            byte_encoder: build_byte_encoder(),
        };
        assert(v@ =~= vocab_of(m@, a, v.scores@));
        Ok(v)
    }

    pub fn len(&self) -> (n: usize)
        ensures
            n == self@.tokens.len(),
    {
        self.by_text.items.len()
    }

    pub fn is_empty(&self) -> (r: bool)
        ensures
            r == (self@.tokens.len() == 0),
    {
        self.by_text.items.len() == 0
    }

    pub fn id(&self, text: &str) -> (r: Option<u32>)
        requires
            self.wf(),
        ensures
            r == self@.find(text@),
    {
        match self.by_text.find(text) {
            Some(i) => Some(i as u32),
            None => None,
        }
    }

    /// The rank at which two parts merge.
    pub fn merge_rank(&self, l: &str, r: &str) -> (x: Option<u32>)
        requires
            self.wf(),
        ensures
            x == self@.rank(l@, r@),
    {
        if has_space(l) {
            return None;
        }
        let space = string_of_char(' ');
        match self.merges.find(cat3(l, space.as_str(), r).as_str()) {
            Some(i) => Some(i as u32),
            None => None,
        }
    }

    pub fn text(&self, id: u32) -> (r: &str)
        ensures
            r@ == self@.text_at(id),
    {
        if (id as usize) < self.by_text.items.len() {
            assert(self@.tokens[id as int] == self.by_text.items@[id as int]@);
            self.by_text.items[id as usize].as_str()
        } else {
            proof {
                reveal_strlit("");
            }
            assert(""@ =~= Seq::<char>::empty());
            ""
        }
    }

    pub fn token_type(&self, id: u32) -> (r: u32)
        ensures
            r == self@.type_of(id),
    {
        if (id as usize) < self.types.len() {
            self.types[id as usize]
        } else {
            TOKEN_NORMAL
        }
    }

    pub fn is_control(&self, id: u32) -> (r: bool)
        ensures
            r == (self@.type_of(id) == TOKEN_CONTROL || self@.type_of(id) == TOKEN_UNKNOWN),
    {
        let t = self.token_type(id);
        t == TOKEN_CONTROL || t == TOKEN_UNKNOWN
    }

    pub fn is_eog(&self, id: u32) -> (r: bool)
        ensures
            r == self@.eos.contains(id),
    {
        let mut i: usize = 0;
        while i < self.eos.len()
            invariant
                i <= self.eos@.len(),
                forall|k: int| 0 <= k < i ==> #[trigger] self.eos@[k] != id,
            decreases self.eos@.len() - i,
        {
            if self.eos[i] == id {
                assert(self.eos@[i as int] == id);
                return true;
            }
            i = i + 1;
        }
        false
    }

    pub fn byte_to_char(&self, b: u8) -> (c: char)
        requires
            self.wf(),
        ensures
            c == byte_char(b),
    {
        assert(self.byte_encoder@[b as int] == byte_char(b));
        self.byte_encoder[b as usize]
    }

    pub fn char_to_byte(&self, c: char) -> (r: Option<u8>)
        ensures
            r == byte_of(c),
    {
        let code = c as u32;
        let r: Option<u8> = if code < 256 {
            if 33 <= code && code <= 126 || 161 <= code && code <= 172 || 174 <= code {
                Some(code as u8)
            } else {
                None
            }
        } else if code < 256 + 33 {
            Some((code - 256) as u8)
        } else if code < 256 + 67 {
            Some((code - 256 - 33 + 127) as u8)
        } else if code == 256 + 67 {
            Some(173)
        } else {
            None
        };
        proof {
            match r {
                Some(b) => {
                    assert(byte_char(b) == c);
                    byte_found_again(b);
                },
                None => {
                    if exists|b: u8| byte_char(b) == c {
                        let b = choose|b: u8| byte_char(b) == c;
                        assert(byte_code(b as int) == c as int);
                        assert(false);
                    }
                },
            }
        }
        r
    }

    /// The `<0xNN>` fallback id for a raw byte, if the vocabulary has one.
    pub fn byte_fallback(&self, b: u8) -> (r: Option<u32>)
        requires
            self.wf(),
        ensures
            r == self@.find(byte_token(b)),
    {
        let mut t = own("<0x");
        t.push(upper_hex_char(b / 16));
        t.push(upper_hex_char(b % 16));
        t.append(">");
        assert(t@ =~= byte_token(b));
        self.id(t.as_str())
    }
}

} // verus!
