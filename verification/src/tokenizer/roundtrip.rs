//! What encoding keeps: ordinary text reads back, and special tokens stay apart from it.

use vstd::prelude::*;
use vstd::utf8::{decode_utf8, encode_utf8, encode_utf8_decode_utf8};

use super::decode::{
    bytes_of, hex_byte, hex_digit_value, hex_from, spelt_as_byte, token_bytes, tokens_bytes,
    unmarked,
};
use super::encode::{
    best, best_is_best, byte_ids, byte_text, char_ids, cut_ids, cuts, cuts_from, encoded, if_any,
    join_at, known_or_unknown, marked, merge_all, merged_ids, merging_keeps_the_text, pair_key,
    pair_keys, part_ids, parts_ids, piece_ids, singles, special_at, word_ids,
};
use super::index::place_is_right;
use super::pretok::{pieces_cover_the_text, pieces_from, rules_of};
use super::vocab::{
    byte_char, byte_found_again, byte_of, byte_token, upper_hex, TokenizerKind, VocabView,
    TOKEN_BYTE, TOKEN_NORMAL, TOKEN_UNUSED,
};
use crate::text::{joined, occurs_at};

verus! {

// ------------------------------------------------------------------------- what reads back

/// A byte-level vocabulary with a token for every byte, and without unused slots.
pub open spec fn spells_every_byte(v: VocabView) -> bool {
    &&& v.kind == TokenizerKind::Bpe
    &&& v.tokens.len() <= u32::MAX
    &&& forall|b: u8| v.find(seq![#[trigger] byte_char(b)]) is Some
    &&& forall|id: u32| id < v.tokens.len() ==> #[trigger] v.type_of(id) != TOKEN_UNUSED
}

/// The bytes of all tokens.
pub open spec fn all_bytes(v: VocabView, ids: Seq<u32>) -> Seq<u8> {
    tokens_bytes(v, ids, false, ids.len())
}

proof fn bytes_of_first(v: VocabView, a: Seq<u32>, b: Seq<u32>, n: nat)
    requires
        n <= a.len(),
    ensures
        tokens_bytes(v, a + b, false, n) == tokens_bytes(v, a, false, n),
    decreases n,
{
    if n > 0 {
        bytes_of_first(v, a, b, (n - 1) as nat);
        assert((a + b)[n - 1] == a[n - 1]);
    }
}

proof fn bytes_of_both(v: VocabView, a: Seq<u32>, b: Seq<u32>)
    ensures
        all_bytes(v, a + b) == all_bytes(v, a) + all_bytes(v, b),
    decreases b.len(),
{
    if b.len() == 0 {
        assert(a + b =~= a);
        assert(all_bytes(v, a) + all_bytes(v, b) =~= all_bytes(v, a));
    } else {
        let c = b.drop_last();
        let n = (a + b).len();
        bytes_of_both(v, a, c);
        assert(a + b =~= (a + c) + seq![b.last()]);
        assert(b =~= c + seq![b.last()]);
        bytes_of_first(v, a + c, seq![b.last()], (n - 1) as nat);
        bytes_of_first(v, c, seq![b.last()], c.len());
        let last = token_bytes(v, b.last(), false);
        assert(all_bytes(v, a + b) == all_bytes(v, a + c) + last);
        assert(all_bytes(v, b) == all_bytes(v, c) + last);
        assert((all_bytes(v, a) + all_bytes(v, c)) + last =~= all_bytes(v, a) + (all_bytes(v, c)
            + last));
    }
}

/// The bytes that characters stand for, where each of them stands for one.
pub open spec fn behind(t: Seq<char>) -> Seq<u8> {
    Seq::new(t.len(), |i: int| byte_of(t[i])->0)
}

/// Whether a character stands for a byte.
pub open spec fn is_bytewise(c: char) -> bool {
    exists|b: u8| c == #[trigger] byte_char(b)
}

/// Whether every character stands for a byte.
pub open spec fn all_bytewise(t: Seq<char>) -> bool {
    forall|i: int| 0 <= i < t.len() ==> is_bytewise(#[trigger] t[i])
}

proof fn bytewise_has_bytes(t: Seq<char>, n: nat)
    requires
        all_bytewise(t),
        n <= t.len(),
    ensures
        bytes_of(t, n) == Some(behind(t).take(n as int)),
    decreases n,
{
    if n > 0 {
        bytewise_has_bytes(t, (n - 1) as nat);
        assert(is_bytewise(t[n - 1]));
        let b = choose|b: u8| t[n - 1] == #[trigger] byte_char(b);
        byte_found_again(b);
        assert(behind(t).take(n as int) =~= behind(t).take(n - 1).push(b));
    } else {
        assert(behind(t).take(0) =~= Seq::empty());
    }
}

/// A token that is found has the bytes of the text it was found by.
proof fn found_has_bytes(v: VocabView, t: Seq<char>)
    requires
        spells_every_byte(v),
        all_bytewise(t),
        v.find(t) is Some,
    ensures
        all_bytes(v, seq![v.find(t)->0]) == behind(t),
{
    let id = v.find(t)->0;
    place_is_right(v.tokens, t, false);
    bytewise_has_bytes(t, t.len());
    assert(behind(t).take(t.len() as int) =~= behind(t));
    assert(v.type_of(id) != TOKEN_UNUSED);
    let one = seq![id];
    assert(tokens_bytes(v, one, false, 0) =~= Seq::empty());
    assert(tokens_bytes(v, one, false, 1) =~= token_bytes(v, id, false));
}

proof fn chars_have_bytes(v: VocabView, t: Seq<char>, n: nat)
    requires
        spells_every_byte(v),
        all_bytewise(t),
        n <= t.len(),
    ensures
        all_bytes(v, char_ids(v, t, n)) == behind(t).take(n as int),
    decreases n,
{
    if n == 0 {
        assert(behind(t).take(0) =~= Seq::empty());
        assert(char_ids(v, t, 0) =~= Seq::empty());
    } else {
        chars_have_bytes(v, t, (n - 1) as nat);
        let one = seq![t[n - 1]];
        assert(is_bytewise(t[n - 1]));
        let b = choose|b: u8| t[n - 1] == #[trigger] byte_char(b);
        assert(v.find(seq![byte_char(b)]) is Some);
        assert(one =~= seq![byte_char(b)]);
        assert(one[0] == byte_char(b));
        found_has_bytes(v, one);
        assert(behind(one) =~= seq![behind(t)[n - 1]]);
        bytes_of_both(v, char_ids(v, t, (n - 1) as nat), known_or_unknown(v, one));
        assert(behind(t).take(n as int) =~= behind(t).take(n - 1) + behind(one));
    }
}

proof fn part_has_bytes(v: VocabView, t: Seq<char>)
    requires
        spells_every_byte(v),
        all_bytewise(t),
    ensures
        all_bytes(v, part_ids(v, t, false)) == behind(t),
{
    if v.find(t) is Some {
        found_has_bytes(v, t);
    } else {
        chars_have_bytes(v, t, t.len());
        assert(behind(t).take(t.len() as int) =~= behind(t));
    }
}

proof fn joined_last(ps: Seq<Seq<char>>)
    requires
        ps.len() > 0,
    ensures
        joined(ps, Seq::empty()) == joined(ps.drop_last(), Seq::empty()) + ps.last(),
{
    let none = Seq::<char>::empty();
    if ps.len() == 1 {
        assert(ps.drop_last() =~= Seq::empty());
        assert(none + ps.last() =~= ps.last());
    } else {
        let head = joined(ps.drop_last(), none);
        assert(head + none =~= head);
    }
}

proof fn parts_have_bytes(v: VocabView, ps: Seq<Seq<char>>, n: nat)
    requires
        spells_every_byte(v),
        n <= ps.len(),
        all_bytewise(joined(ps.take(n as int), Seq::empty())),
    ensures
        all_bytes(v, parts_ids(v, ps, n, false)) == behind(
            joined(ps.take(n as int), Seq::empty()),
        ),
    decreases n,
{
    let none = Seq::<char>::empty();
    if n == 0 {
        assert(ps.take(0) =~= Seq::empty());
        assert(behind(none) =~= Seq::empty());
    } else {
        let here = ps.take(n as int);
        let before = joined(here.drop_last(), none);
        assert(here.drop_last() =~= ps.take(n - 1));
        joined_last(here);
        let all = joined(here, none);
        assert forall|i: int| 0 <= i < before.len() implies is_bytewise(#[trigger] before[i]) by {
            assert(all[i] == before[i]);
        }
        let part = ps[n - 1];
        assert forall|i: int| 0 <= i < part.len() implies is_bytewise(#[trigger] part[i]) by {
            assert(all[before.len() + i] == part[i]);
        }
        parts_have_bytes(v, ps, (n - 1) as nat);
        part_has_bytes(v, part);
        bytes_of_both(v, parts_ids(v, ps, (n - 1) as nat, false), part_ids(v, part, false));
        assert(behind(all) =~= behind(before) + behind(part));
    }
}

proof fn singles_join(c: Seq<char>)
    ensures
        joined(singles(c), Seq::empty()) == c,
    decreases c.len(),
{
    if c.len() > 0 {
        singles_join(c.drop_last());
        joined_last(singles(c));
        assert(singles(c).drop_last() =~= singles(c.drop_last()));
        assert(c =~= c.drop_last() + seq![c.last()]);
    }
}

/// A word reads back.
proof fn word_reads_back(v: VocabView, w: Seq<char>)
    requires
        spells_every_byte(v),
    ensures
        all_bytes(v, merged_ids(v, byte_text(w), false)) == encode_utf8(w),
{
    let c = byte_text(w);
    let ps = merge_all(v, singles(c), false);
    merging_keeps_the_text(v, singles(c), false);
    singles_join(c);
    assert(ps.take(ps.len() as int) =~= ps);
    assert forall|i: int| 0 <= i < c.len() implies is_bytewise(#[trigger] c[i]) by {
        assert(c[i] == byte_char(encode_utf8(w)[i]));
    }
    parts_have_bytes(v, ps, ps.len());
    assert forall|i: int| 0 <= i < c.len() implies #[trigger] behind(c)[i] == encode_utf8(w)[i] by {
        byte_found_again(encode_utf8(w)[i]);
    }
    assert(behind(c) =~= encode_utf8(w));
}

proof fn encoding_joins(a: Seq<char>, b: Seq<char>)
    ensures
        encode_utf8(a + b) == encode_utf8(a) + encode_utf8(b),
    decreases a.len(),
{
    if a.len() == 0 {
        assert(a + b =~= b);
        assert(encode_utf8(a) + encode_utf8(b) =~= encode_utf8(b));
    } else {
        encoding_joins(a.drop_first(), b);
        assert((a + b).drop_first() =~= a.drop_first() + b);
        assert(encode_utf8(a + b) =~= encode_utf8(a) + encode_utf8(b));
    }
}

proof fn words_read_back(v: VocabView, w: Seq<Seq<char>>, n: nat)
    requires
        spells_every_byte(v),
        n <= w.len(),
    ensures
        all_bytes(v, word_ids(v, w, n)) == encode_utf8(joined(w.take(n as int), Seq::empty())),
    decreases n,
{
    if n == 0 {
        assert(w.take(0) =~= Seq::empty());
    } else {
        words_read_back(v, w, (n - 1) as nat);
        word_reads_back(v, w[n - 1]);
        let here = w.take(n as int);
        assert(here.drop_last() =~= w.take(n - 1));
        joined_last(here);
        encoding_joins(joined(w.take(n - 1), Seq::empty()), w[n - 1]);
        bytes_of_both(v, word_ids(v, w, (n - 1) as nat), merged_ids(v, byte_text(w[n - 1]), false));
    }
}

/// The tokens of ordinary text stand for the bytes of that text.
proof fn piece_reads_back(v: VocabView, t: Seq<char>)
    requires
        spells_every_byte(v),
    ensures
        all_bytes(v, piece_ids(v, t)) == encode_utf8(t),
{
    if t.len() > 0 {
        let w = pieces_from(t, 0, rules_of(v.pre));
        pieces_cover_the_text(t, 0, rules_of(v.pre));
        words_read_back(v, w, w.len());
        assert(w.take(w.len() as int) =~= w);
        assert(t.skip(0) =~= t);
    }
}

/// What a byte-level vocabulary with a token for every byte encodes, it decodes again: the
/// bytes of the tokens of a text are those of the text, where no special token occurs in it.
pub proof fn encoded_text_reads_back(v: VocabView, t: Seq<char>)
    requires
        spells_every_byte(v),
        forall|i: nat| i < t.len() ==> #[trigger] special_at(v.specials, t, i, 0) is None,
    ensures
        all_bytes(v, encoded(v, t, false)) == encode_utf8(t),
        decode_utf8(all_bytes(v, encoded(v, t, false))) == t,
{
    let a = cuts(v, t);
    if v.specials.len() > 0 {
        uncut(v.specials, t, 0, Seq::empty());
        assert(t.skip(0) =~= t);
        assert(Seq::<char>::empty() + t =~= t);
    }
    encode_utf8_decode_utf8(t);
    piece_reads_back(v, t);
    let ids = cut_ids(v, a, a.len());
    let none = Seq::<u32>::empty();
    assert(none + ids + none =~= ids);
    if a.len() == 1 {
        assert(cut_ids(v, a, 0) =~= none);
        assert(none + piece_ids(v, t) =~= piece_ids(v, t));
    }
}

proof fn uncut(sp: Seq<(Seq<char>, u32)>, c: Seq<char>, i: nat, cur: Seq<char>)
    requires
        i <= c.len(),
        forall|j: nat| j < c.len() ==> #[trigger] special_at(sp, c, j, 0) is None,
    ensures
        cuts_from(sp, c, i, cur) == if_any(cur + c.skip(i as int)),
    decreases c.len() - i,
{
    if i < c.len() {
        assert(special_at(sp, c, i, 0) is None);
        uncut(sp, c, i + 1, cur.push(c[i as int]));
        assert(cur.push(c[i as int]) + c.skip(i as int + 1) =~= cur + c.skip(i as int));
    } else {
        assert(cur + c.skip(i as int) =~= cur);
    }
}

/// A SentencePiece vocabulary with a token for every byte and one for the space, and without
/// unused slots.
pub open spec fn falls_back_to_bytes(v: VocabView) -> bool {
    &&& v.kind == TokenizerKind::Spm
    &&& v.tokens.len() <= u32::MAX
    &&& v.find(seq!['\u{2581}']) is Some
    &&& forall|b: u8|
        v.find(#[trigger] byte_token(b)) matches Some(id) && (v.type_of(id) == TOKEN_BYTE
            || v.type_of(id) == TOKEN_NORMAL)
    &&& forall|id: u32| id < v.tokens.len() ==> #[trigger] v.type_of(id) != TOKEN_UNUSED
}

/// A text as SentencePiece takes it: behind a space.
pub open spec fn behind_space(v: VocabView, t: Seq<char>) -> Seq<char> {
    if v.add_space_prefix && t.len() > 0 && t[0] != ' ' {
        seq![' '] + t
    } else {
        t
    }
}

/// The parts that SentencePiece merges a text into.
pub open spec fn spm_parts(v: VocabView, t: Seq<char>) -> Seq<Seq<char>> {
    merge_all(v, singles(marked(v, t)), true)
}

proof fn byte_token_is_read(b: u8)
    ensures
        spelt_as_byte(byte_token(b)),
        hex_byte(byte_token(b).subrange(3, byte_token(b).len() - 1)) == Some(b),
{
    reveal_strlit("<0x");
    reveal_strlit(">");
    let t = byte_token(b);
    let (x, y) = ((b / 16) as nat, (b % 16) as nat);
    let s = seq![upper_hex(x), upper_hex(y)];
    assert(t.len() == 6);
    assert(t.subrange(0, 3) =~= "<0x"@);
    assert(t.skip(3).subrange(2, 3) =~= ">"@);
    assert(t.subrange(3, 5) =~= s);
    assert(hex_digit_value(upper_hex(x)) == Some(x as int));
    assert(hex_digit_value(upper_hex(y)) == Some(y as int));
    assert(upper_hex(x) != '+');
    assert(hex_from(s, 0, 0) == Some(b)) by {
        assert(hex_from(s, 2, b as int) == Some(b));
        assert(hex_from(s, 1, x as int) == hex_from(s, 2, b as int));
        assert(hex_from(s, 0, 0) == hex_from(s, 1, x as int));
    }
}

proof fn fallback_has_bytes(v: VocabView, b: Seq<u8>, n: nat)
    requires
        falls_back_to_bytes(v),
        n <= b.len(),
    ensures
        all_bytes(v, byte_ids(v, b, n)) == b.take(n as int),
    decreases n,
{
    if n == 0 {
        assert(b.take(0) =~= Seq::empty());
    } else {
        fallback_has_bytes(v, b, (n - 1) as nat);
        let t = byte_token(b[n - 1]);
        byte_token_is_read(b[n - 1]);
        place_is_right(v.tokens, t, false);
        let one = known_or_unknown(v, t);
        let id = v.find(t)->0;
        assert(one =~= seq![id]);
        assert(v.type_of(id) != TOKEN_UNUSED);
        assert(tokens_bytes(v, one, false, 0) =~= Seq::empty());
        assert(tokens_bytes(v, one, false, 1) =~= seq![b[n - 1]]);
        bytes_of_both(v, byte_ids(v, b, (n - 1) as nat), one);
        assert(b.take(n as int) =~= b.take(n - 1) + seq![b[n - 1]]);
    }
}

/// A part is one character, or a token.
proof fn parts_are_tokens(v: VocabView, ps: Seq<Seq<char>>)
    requires
        forall|i: int|
            0 <= i < ps.len() ==> (#[trigger] ps[i]).len() == 1 || v.find(ps[i]) is Some,
    ensures
        forall|i: int|
            0 <= i < merge_all(v, ps, true).len() ==> (#[trigger] merge_all(v, ps, true)[i]).len()
                == 1 || v.find(merge_all(v, ps, true)[i]) is Some,
    decreases ps.len(),
{
    let keys = pair_keys(v, ps, true);
    best_is_best(keys, keys.len());
    match best(keys, keys.len()) {
        Some(k) => {
            let q = join_at(ps, k as int);
            assert(keys[k as int] == pair_key(v, ps[k as int], ps[k as int + 1], true));
            assert forall|i: int| 0 <= i < q.len() implies (#[trigger] q[i]).len() == 1 || v.find(
                q[i],
            ) is Some by {
                if i > k {
                    assert(q[i] == ps[i + 1]);
                } else if i < k {
                    assert(q[i] == ps[i]);
                }
            }
            parts_are_tokens(v, q);
        },
        None => {},
    }
}

proof fn spm_part_has_bytes(v: VocabView, t: Seq<char>)
    requires
        falls_back_to_bytes(v),
        t.len() == 1 || v.find(t) is Some,
        !spelt_as_byte(t),
    ensures
        all_bytes(v, part_ids(v, t, true)) == encode_utf8(unmarked(t)),
{
    if v.find(t) is Some {
        let id = v.find(t)->0;
        place_is_right(v.tokens, t, false);
        assert(v.type_of(id) != TOKEN_UNUSED);
        let one = seq![id];
        assert(tokens_bytes(v, one, false, 0) =~= Seq::empty());
        assert(tokens_bytes(v, one, false, 1) =~= token_bytes(v, id, false));
    } else {
        if t[0] == '\u{2581}' {
            assert(t =~= seq!['\u{2581}']);
        }
        assert(unmarked(t) =~= t);
        let b = encode_utf8(t);
        fallback_has_bytes(v, b, b.len());
        assert(b.take(b.len() as int) =~= b);
    }
}

proof fn spm_parts_have_bytes(v: VocabView, ps: Seq<Seq<char>>, n: nat)
    requires
        falls_back_to_bytes(v),
        n <= ps.len(),
        forall|i: int|
            0 <= i < ps.len() ==> (#[trigger] ps[i]).len() == 1 || v.find(ps[i]) is Some,
        forall|i: int| 0 <= i < ps.len() ==> !spelt_as_byte(#[trigger] ps[i]),
    ensures
        all_bytes(v, parts_ids(v, ps, n, true)) == encode_utf8(
            unmarked(joined(ps.take(n as int), Seq::empty())),
        ),
    decreases n,
{
    let none = Seq::<char>::empty();
    if n == 0 {
        assert(ps.take(0) =~= Seq::empty());
        assert(unmarked(none) =~= none);
    } else {
        let here = ps.take(n as int);
        let before = joined(here.drop_last(), none);
        assert(here.drop_last() =~= ps.take(n - 1));
        joined_last(here);
        let part = ps[n - 1];
        spm_parts_have_bytes(v, ps, (n - 1) as nat);
        spm_part_has_bytes(v, part);
        bytes_of_both(v, parts_ids(v, ps, (n - 1) as nat, true), part_ids(v, part, true));
        encoding_joins(unmarked(before), unmarked(part));
        assert(unmarked(before + part) =~= unmarked(before) + unmarked(part));
    }
}

/// What a SentencePiece vocabulary with a token for every byte encodes, it decodes again, behind
/// the space that counts as its start. Left out are texts that hold the mark for a space, which
/// is read back as one, and those with a part that is spelt like the token of a byte, which is
/// read back as that byte.
pub proof fn spm_text_reads_back(v: VocabView, t: Seq<char>)
    requires
        falls_back_to_bytes(v),
        forall|i: int| 0 <= i < t.len() ==> #[trigger] t[i] != '\u{2581}',
        forall|i: int|
            0 <= i < spm_parts(v, t).len() ==> !spelt_as_byte(#[trigger] spm_parts(v, t)[i]),
    ensures
        all_bytes(v, piece_ids(v, t)) == encode_utf8(behind_space(v, t)),
{
    if t.len() > 0 {
        let c = marked(v, t);
        let ps = spm_parts(v, t);
        merging_keeps_the_text(v, singles(c), true);
        singles_join(c);
        parts_are_tokens(v, singles(c));
        spm_parts_have_bytes(v, ps, ps.len());
        assert(ps.take(ps.len() as int) =~= ps);
        assert(unmarked(c) =~= behind_space(v, t));
    }
}

/// To SentencePiece the start of a text counts as following a space, so a text and the same
/// text behind a space get the same tokens.
pub proof fn a_leading_space_changes_nothing(v: VocabView, t: Seq<char>)
    requires
        v.kind == TokenizerKind::Spm,
        v.add_space_prefix,
        t.len() > 0,
        t[0] != ' ',
    ensures
        piece_ids(v, t) == piece_ids(v, seq![' '] + t),
{
    assert(marked(v, t) =~= marked(v, seq![' '] + t));
}

// ------------------------------------------------------------------- special tokens stay apart

/// Whether some special token stands in a text.
pub open spec fn holds_special(sp: Seq<(Seq<char>, u32)>, t: Seq<char>) -> bool {
    exists|k: int, j: int|
        0 <= k < sp.len() && sp[k].0.len() > 0 && 0 <= j && #[trigger] occurs_at(t, sp[k].0, j)
}

proof fn none_at(sp: Seq<(Seq<char>, u32)>, c: Seq<char>, i: nat, k: nat, m: int)
    requires
        special_at(sp, c, i, k) is None,
        k <= m < sp.len(),
        sp[m].0.len() > 0,
    ensures
        !occurs_at(c, sp[m].0, i as int),
    decreases sp.len() - k,
{
    if k < m {
        none_at(sp, c, i, k + 1, m);
    }
}

/// The text is cut at every special token: no ordinary part holds one, so none is ever merged
/// with the text around it.
pub proof fn ordinary_text_holds_no_special(
    sp: Seq<(Seq<char>, u32)>,
    c: Seq<char>,
    i: nat,
    cur: Seq<char>,
    n: int,
)
    requires
        cur.len() <= i <= c.len(),
        cur == c.subrange(i - cur.len(), i as int),
        forall|j: nat|
            i - cur.len() <= j < i ==> #[trigger] special_at(sp, c, j, 0) is None,
        0 <= n < cuts_from(sp, c, i, cur).len(),
        cuts_from(sp, c, i, cur)[n].1 is None,
    ensures
        !holds_special(sp, cuts_from(sp, c, i, cur)[n].0),
    decreases c.len() - i,
{
    let a = cuts_from(sp, c, i, cur);
    let none = Seq::<char>::empty();
    let front = if_any(cur);
    if i >= c.len() {
        nothing_between(sp, c, i - cur.len(), i as int);
    } else {
        match special_at(sp, c, i, 0) {
            Some(k) => {
                let t = sp[k as int].0;
                let rest = cuts_from(sp, c, i + t.len(), none);
                if n < front.len() {
                    nothing_between(sp, c, i - cur.len(), i as int);
                    assert(a[n] == front[n]);
                } else {
                    assert(n > front.len());
                    assert(a[n] == rest[n - front.len() - 1]);
                    let next = i + t.len();
                    assert(none =~= c.subrange(next as int, next as int));
                    ordinary_text_holds_no_special(sp, c, next, none, n - front.len() - 1);
                }
            },
            None => {
                let more = cur.push(c[i as int]);
                assert(more =~= c.subrange(i + 1 - more.len(), i as int + 1));
                ordinary_text_holds_no_special(sp, c, i + 1, more, n);
            },
        }
    }
}

proof fn nothing_between(sp: Seq<(Seq<char>, u32)>, c: Seq<char>, lo: int, hi: int)
    requires
        0 <= lo <= hi <= c.len(),
        forall|j: nat| lo <= j < hi ==> #[trigger] special_at(sp, c, j, 0) is None,
    ensures
        !holds_special(sp, c.subrange(lo, hi)),
{
    let t = c.subrange(lo, hi);
    if holds_special(sp, t) {
        let (k, j) = choose|k: int, j: int|
            0 <= k < sp.len() && sp[k].0.len() > 0 && 0 <= j && #[trigger] occurs_at(
                t,
                sp[k].0,
                j,
            );
        let at = (lo + j) as nat;
        assert(special_at(sp, c, at, 0) is None);
        none_at(sp, c, at, 0, k);
        assert(c.subrange(lo + j, lo + j + sp[k].0.len()) =~= t.subrange(j, j + sp[k].0.len()));
    }
}

} // verus!
