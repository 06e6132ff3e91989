//! Encoding text to token ids.
//!
//! Both algorithms are the same shape: split the input into symbols, then repeatedly merge the
//! best adjacent pair. "Best" is the highest vocabulary score for SentencePiece and the lowest
//! merge-list rank for BPE.

use vstd::prelude::*;
use vstd::string::*;
use vstd::utf8::encode_utf8;

use super::pretok::{joined_front, pieces_from, rules_of, split};
use super::vocab::{byte_char, byte_token, TokenizerKind, Vocab, VocabView};
use crate::text::{
    cat2, chars_of, joined, lower_of, occurs_at, own, split_words, stands_at, string_of,
    string_of_char, string_of_range, texts, words,
};

verus! {

// ------------------------------------------------------------------------ special tokens

/// The first special token from the `k`-th on that stands in `c` at `i`.
pub open spec fn special_at(sp: Seq<(Seq<char>, u32)>, c: Seq<char>, i: nat, k: nat) -> Option<nat>
    decreases sp.len() - k,
{
    if k >= sp.len() {
        None
    } else if sp[k as int].0.len() > 0 && occurs_at(c, sp[k as int].0, i as int) {
        Some(k)
    } else {
        special_at(sp, c, i, k + 1)
    }
}

proof fn special_fits(sp: Seq<(Seq<char>, u32)>, c: Seq<char>, i: nat, k: nat)
    ensures
        special_at(sp, c, i, k) matches Some(j) ==> j < sp.len() && sp[j as int].0.len() > 0
            && occurs_at(c, sp[j as int].0, i as int),
    decreases sp.len() - k,
{
    if k < sp.len() && !(sp[k as int].0.len() > 0 && occurs_at(c, sp[k as int].0, i as int)) {
        special_fits(sp, c, i, k + 1);
    }
}

/// A part of a text: ordinary text, or a special token.
pub type Cut = (Seq<char>, Option<u32>);

pub open spec fn if_any(cur: Seq<char>) -> Seq<Cut> {
    if cur.len() > 0 {
        seq![(cur, None)]
    } else {
        Seq::empty()
    }
}

/// The parts of `c` from `i` on, `cur` being the ordinary text in front of `i`.
pub open spec fn cuts_from(sp: Seq<(Seq<char>, u32)>, c: Seq<char>, i: nat, cur: Seq<char>) -> Seq<Cut>
    decreases c.len() - i,
{
    if i >= c.len() {
        if_any(cur)
    } else {
        match special_at(sp, c, i, 0) {
            Some(k) => if 0 < sp[k as int].0.len() <= c.len() - i {
                if_any(cur) + seq![(sp[k as int].0, Some(sp[k as int].1))] + cuts_from(
                    sp,
                    c,
                    i + sp[k as int].0.len(),
                    Seq::empty(),
                )
            } else {
                Seq::empty()
            },
            None => cuts_from(sp, c, i + 1, cur.push(c[i as int])),
        }
    }
}

pub open spec fn cut_texts(v: Seq<Cut>) -> Seq<Seq<char>> {
    Seq::new(v.len(), |i: int| v[i].0)
}

/// Cutting a text at its special tokens loses nothing.
pub proof fn cuts_cover_the_text(sp: Seq<(Seq<char>, u32)>, c: Seq<char>, i: nat, cur: Seq<char>)
    requires
        i <= c.len(),
    ensures
        joined(cut_texts(cuts_from(sp, c, i, cur)), Seq::empty()) == cur + c.skip(i as int),
    decreases c.len() - i,
{
    let none = Seq::<char>::empty();
    if i >= c.len() {
        assert(c.skip(i as int) =~= none);
        if cur.len() > 0 {
            assert(cut_texts(if_any(cur)) =~= seq![cur]);
            assert(cur + none =~= cur);
        } else {
            assert(cut_texts(if_any(cur)) =~= Seq::empty());
            assert(cur + none =~= none);
        }
    } else {
        special_fits(sp, c, i, 0);
        match special_at(sp, c, i, 0) {
            Some(k) => {
                let t = sp[k as int].0;
                let rest = cuts_from(sp, c, i + t.len(), none);
                cuts_cover_the_text(sp, c, i + t.len(), none);
                joined_front(t, cut_texts(rest));
                let here = cuts_from(sp, c, i, cur);
                assert(none + c.skip(i as int + t.len()) =~= c.skip(i as int + t.len()));
                assert(c.skip(i as int) =~= t + c.skip(i as int + t.len()));
                if cur.len() > 0 {
                    assert(cut_texts(here) =~= seq![cur] + (seq![t] + cut_texts(rest)));
                    joined_front(cur, seq![t] + cut_texts(rest));
                } else {
                    assert(cut_texts(here) =~= seq![t] + cut_texts(rest));
                    assert(cur + c.skip(i as int) =~= c.skip(i as int));
                }
            },
            None => {
                cuts_cover_the_text(sp, c, i + 1, cur.push(c[i as int]));
                assert(cur + c.skip(i as int) =~= cur.push(c[i as int]) + c.skip(i as int + 1));
            },
        }
    }
}

/// The parts of a text. A vocabulary without special tokens leaves it whole.
pub open spec fn cuts(v: VocabView, c: Seq<char>) -> Seq<Cut> {
    if v.specials.len() == 0 {
        seq![(c, None)]
    } else {
        cuts_from(v.specials, c, 0, Seq::empty())
    }
}

// ------------------------------------------------------------------------------- merging

/// The place of a score among all scores, from its bits.
pub open spec fn score_order(bits: u32) -> int {
    if bits < 0x8000_0000 {
        bits as int
    } else {
        -1 - (bits - 0x8000_0000)
    }
}

/// `n` rounded to a multiple of `q`, to an even one where it is in the middle.
pub open spec fn to_multiple(n: nat, q: nat) -> nat {
    let d = n / q;
    let r = n % q;
    if 2 * r < q || (2 * r == q && d % 2 == 0) {
        d * q
    } else {
        (d + 1) * q
    }
}

/// A rank as a number of single precision, which holds 24 bits.
pub open spec fn rounded_rank(n: nat) -> nat {
    if n < 0x100_0000 {
        n
    } else if n < 0x200_0000 {
        to_multiple(n, 2)
    } else if n < 0x400_0000 {
        to_multiple(n, 4)
    } else if n < 0x800_0000 {
        to_multiple(n, 8)
    } else if n < 0x1000_0000 {
        to_multiple(n, 16)
    } else if n < 0x2000_0000 {
        to_multiple(n, 32)
    } else if n < 0x4000_0000 {
        to_multiple(n, 64)
    } else if n < 0x8000_0000 {
        to_multiple(n, 128)
    } else {
        to_multiple(n, 256)
    }
}

/// How good it is to merge two parts; none where they do not merge.
pub open spec fn pair_key(v: VocabView, l: Seq<char>, r: Seq<char>, spm: bool) -> Option<int> {
    if spm {
        match v.find(l + r) {
            Some(id) => Some(score_order(v.score(id))),
            None => None,
        }
    } else {
        match v.rank(l, r) {
            Some(k) => Some(-(rounded_rank(k as nat) as int)),
            None => None,
        }
    }
}

/// How good it is to merge each part with the next one.
pub open spec fn pair_keys(v: VocabView, ps: Seq<Seq<char>>, spm: bool) -> Seq<Option<int>> {
    Seq::new(
        if ps.len() > 0 {
            (ps.len() - 1) as nat
        } else {
            0
        },
        |i: int| pair_key(v, ps[i], ps[i + 1], spm),
    )
}

/// The best of the first `n` pairs, the first of several.
pub open spec fn best(keys: Seq<Option<int>>, n: nat) -> Option<nat>
    decreases n,
{
    if n == 0 || n > keys.len() {
        None
    } else {
        let b = best(keys, (n - 1) as nat);
        match keys[n - 1] {
            None => b,
            Some(k) => match b {
                None => Some((n - 1) as nat),
                Some(i) => if k > keys[i as int]->0 {
                    Some((n - 1) as nat)
                } else {
                    b
                },
            },
        }
    }
}

pub(crate) proof fn best_is_best(keys: Seq<Option<int>>, n: nat)
    requires
        n <= keys.len(),
    ensures
        match best(keys, n) {
            Some(i) => i < n && keys[i as int] is Some && forall|j: int|
                0 <= j < n && (#[trigger] keys[j]) is Some ==> keys[j]->0 <= keys[i as int]->0,
            None => forall|j: int| 0 <= j < n ==> (#[trigger] keys[j]) is None,
        },
    decreases n,
{
    if n > 0 {
        best_is_best(keys, (n - 1) as nat);
    }
}

/// `ps` with part `i` and the one behind it made one.
pub open spec fn join_at(ps: Seq<Seq<char>>, i: int) -> Seq<Seq<char>> {
    ps.update(i, ps[i] + ps[i + 1]).remove(i + 1)
}

/// The parts after every merge, the best one first.
pub open spec fn merge_all(v: VocabView, ps: Seq<Seq<char>>, spm: bool) -> Seq<Seq<char>>
    decreases ps.len(),
{
    let keys = pair_keys(v, ps, spm);
    match best(keys, keys.len()) {
        Some(i) => if i + 1 < ps.len() {
            merge_all(v, join_at(ps, i as int), spm)
        } else {
            ps
        },
        None => ps,
    }
}

proof fn join_keeps_text(ps: Seq<Seq<char>>, i: int)
    requires
        0 <= i,
        i + 1 < ps.len(),
    ensures
        joined(join_at(ps, i), Seq::empty()) == joined(ps, Seq::empty()),
    decreases ps.len(),
{
    let none = Seq::<char>::empty();
    let q = join_at(ps, i);
    let rest = ps.drop_first();
    assert(ps =~= seq![ps[0]] + rest);
    joined_front(ps[0], rest);
    if i == 0 {
        let tail = rest.drop_first();
        assert(rest =~= seq![ps[1]] + tail);
        joined_front(ps[1], tail);
        assert(q =~= seq![ps[0] + ps[1]] + tail);
        joined_front(ps[0] + ps[1], tail);
        assert(ps[0] + (ps[1] + joined(tail, none)) =~= (ps[0] + ps[1]) + joined(tail, none));
    } else {
        join_keeps_text(rest, i - 1);
        assert(q =~= seq![ps[0]] + join_at(rest, i - 1));
        joined_front(ps[0], join_at(rest, i - 1));
    }
}

/// Merging changes where the text is cut, never the text; and it goes on until no two
/// neighbours merge.
pub proof fn merging_keeps_the_text(v: VocabView, ps: Seq<Seq<char>>, spm: bool)
    ensures
        joined(merge_all(v, ps, spm), Seq::empty()) == joined(ps, Seq::empty()),
        forall|i: int|
            0 <= i < pair_keys(v, merge_all(v, ps, spm), spm).len() ==> (#[trigger] pair_keys(
                v,
                merge_all(v, ps, spm),
                spm,
            )[i]) is None,
    decreases ps.len(),
{
    let keys = pair_keys(v, ps, spm);
    best_is_best(keys, keys.len());
    match best(keys, keys.len()) {
        Some(i) => {
            join_keeps_text(ps, i as int);
            merging_keeps_the_text(v, join_at(ps, i as int), spm);
        },
        None => {},
    }
}

/// Every character for itself.
pub open spec fn singles(c: Seq<char>) -> Seq<Seq<char>> {
    Seq::new(c.len(), |i: int| seq![c[i]])
}

/// The id of a token, or that for unknown ones, where there is either.
pub open spec fn known_or_unknown(v: VocabView, t: Seq<char>) -> Seq<u32> {
    match v.find(t) {
        Some(id) => seq![id],
        None => match v.unk {
            Some(u) => seq![u],
            None => Seq::empty(),
        },
    }
}

/// The ids of the first `n` bytes, each by itself.
pub open spec fn byte_ids(v: VocabView, b: Seq<u8>, n: nat) -> Seq<u32>
    decreases n,
{
    if n == 0 || n > b.len() {
        Seq::empty()
    } else {
        byte_ids(v, b, (n - 1) as nat) + known_or_unknown(v, byte_token(b[n - 1]))
    }
}

/// The ids of the first `n` characters, each by itself.
pub open spec fn char_ids(v: VocabView, c: Seq<char>, n: nat) -> Seq<u32>
    decreases n,
{
    if n == 0 || n > c.len() {
        Seq::empty()
    } else {
        char_ids(v, c, (n - 1) as nat) + known_or_unknown(v, seq![c[n - 1]])
    }
}

/// The ids of a part. Where the vocabulary has no such token, SPM falls back to bytes and BPE
/// to characters.
pub open spec fn part_ids(v: VocabView, t: Seq<char>, spm: bool) -> Seq<u32> {
    match v.find(t) {
        Some(id) => seq![id],
        None => if spm {
            byte_ids(v, encode_utf8(t), encode_utf8(t).len())
        } else {
            char_ids(v, t, t.len())
        },
    }
}

/// The ids of the first `n` parts.
pub open spec fn parts_ids(v: VocabView, ps: Seq<Seq<char>>, n: nat, spm: bool) -> Seq<u32>
    decreases n,
{
    if n == 0 || n > ps.len() {
        Seq::empty()
    } else {
        parts_ids(v, ps, (n - 1) as nat, spm) + part_ids(v, ps[n - 1], spm)
    }
}

pub open spec fn merged_ids(v: VocabView, c: Seq<char>, spm: bool) -> Seq<u32> {
    let ps = merge_all(v, singles(c), spm);
    parts_ids(v, ps, ps.len(), spm)
}

// ---------------------------------------------------------------------------- algorithms

/// The text SentencePiece works on: spaces are marked, and the start counts as following one,
/// so that "Hello" and " Hello" agree on the first token.
pub open spec fn marked(v: VocabView, t: Seq<char>) -> Seq<char> {
    let body = Seq::new(
        t.len(),
        |i: int|
            if t[i] == ' ' {
                '\u{2581}'
            } else {
                t[i]
            },
    );
    if v.add_space_prefix && !(t.len() > 0 && t[0] == ' ') {
        seq!['\u{2581}'] + body
    } else {
        body
    }
}

/// The characters that stand for the bytes of a text.
pub open spec fn byte_text(t: Seq<char>) -> Seq<char> {
    let b = encode_utf8(t);
    Seq::new(b.len(), |i: int| byte_char(b[i]))
}

/// The ids of the first `n` words of BPE.
pub open spec fn word_ids(v: VocabView, w: Seq<Seq<char>>, n: nat) -> Seq<u32>
    decreases n,
{
    if n == 0 || n > w.len() {
        Seq::empty()
    } else {
        word_ids(v, w, (n - 1) as nat) + merged_ids(v, byte_text(w[n - 1]), false)
    }
}

/// A part of a word as WordPiece spells it.
pub open spec fn wpm_spelling(c: Seq<char>, start: nat, end: nat) -> Seq<char> {
    let sub = c.subrange(start as int, end as int);
    if start == 0 {
        sub
    } else {
        "##"@ + sub
    }
}

/// The longest token of a word from `start`, ending at `end` or before: its id and its end.
pub open spec fn longest(v: VocabView, c: Seq<char>, start: nat, end: nat) -> Option<(u32, nat)>
    decreases end,
{
    if end <= start {
        None
    } else {
        match v.find(wpm_spelling(c, start, end)) {
            Some(id) => Some((id, end)),
            None => longest(v, c, start, (end - 1) as nat),
        }
    }
}

proof fn longest_bound(v: VocabView, c: Seq<char>, start: nat, end: nat)
    ensures
        longest(v, c, start, end) matches Some((_, e)) ==> start < e <= end,
    decreases end,
{
    if end > start && v.find(wpm_spelling(c, start, end)) is None {
        longest_bound(v, c, start, (end - 1) as nat);
    }
}

/// The ids of a word from `start` on; none where a part of it is in no token.
pub open spec fn wpm_from(v: VocabView, c: Seq<char>, start: nat) -> Option<Seq<u32>>
    decreases c.len() - start,
{
    if start >= c.len() {
        Some(Seq::empty())
    } else {
        match longest(v, c, start, c.len()) {
            Some((id, e)) => if start < e <= c.len() {
                match wpm_from(v, c, e) {
                    Some(rest) => Some(seq![id] + rest),
                    None => None,
                }
            } else {
                None
            },
            None => None,
        }
    }
}

/// The ids of the first `n` words of WordPiece.
pub open spec fn wpm_ids(v: VocabView, w: Seq<Seq<char>>, n: nat) -> Seq<u32>
    decreases n,
{
    if n == 0 || n > w.len() {
        Seq::empty()
    } else {
        wpm_ids(v, w, (n - 1) as nat) + match wpm_from(v, lower_of(w[n - 1]), 0) {
            Some(ids) => ids,
            None => match v.unk {
                Some(u) => seq![u],
                None => Seq::empty(),
            },
        }
    }
}

/// The ids of ordinary text.
pub open spec fn piece_ids(v: VocabView, t: Seq<char>) -> Seq<u32> {
    if t.len() == 0 {
        Seq::empty()
    } else {
        match v.kind {
            TokenizerKind::Spm => merged_ids(v, marked(v, t), true),
            TokenizerKind::Bpe => {
                let w = pieces_from(t, 0, rules_of(v.pre));
                word_ids(v, w, w.len())
            },
            TokenizerKind::Wpm => wpm_ids(v, words(t), words(t).len()),
        }
    }
}

/// The ids of the first `n` parts of a text.
pub open spec fn cut_ids(v: VocabView, a: Seq<Cut>, n: nat) -> Seq<u32>
    decreases n,
{
    if n == 0 || n > a.len() {
        Seq::empty()
    } else {
        cut_ids(v, a, (n - 1) as nat) + match a[n - 1].1 {
            Some(id) => seq![id],
            None => piece_ids(v, a[n - 1].0),
        }
    }
}

/// The ids of a text, with those of its start and end where they are asked for.
pub open spec fn encoded(v: VocabView, t: Seq<char>, add_special: bool) -> Seq<u32> {
    let a = cuts(v, t);
    let front = if add_special && v.add_bos && v.bos is Some {
        seq![v.bos->0]
    } else {
        Seq::empty()
    };
    let back = if add_special && v.add_eos && v.eos.len() > 0 {
        seq![v.eos[0]]
    } else {
        Seq::empty()
    };
    front + cut_ids(v, a, a.len()) + back
}

// ------------------------------------------------------------------------------ execution

/// A part of a text: ordinary text, or a special token.
#[derive(Debug)]
pub struct Piece {
    pub text: String,
    pub special: Option<u32>,
}

pub open spec fn pieces_view(v: Seq<Piece>) -> Seq<Cut> {
    Seq::new(v.len(), |i: int| (v[i].text@, v[i].special))
}

fn push_if_any(out: &mut Vec<Piece>, cur: &Vec<char>)
    ensures
        pieces_view(final(out)@) == pieces_view(old(out)@) + if_any(cur@),
{
    let ghost before = pieces_view(out@);
    if cur.len() > 0 {
        out.push(Piece { text: string_of(cur.as_slice()), special: None });
        assert(pieces_view(out@) =~= before + if_any(cur@));
    } else {
        assert(before + if_any(cur@) =~= before);
    }
}

/// The special token that stands at `i`.
fn find_special(v: &Vocab, c: &Vec<char>, i: usize) -> (r: Option<usize>)
    requires
        i <= c@.len(),
    ensures
        special_at(v@.specials, c@, i as nat, 0) == match r {
            Some(k) => Some(k as nat),
            None => None::<nat>,
        },
        r matches Some(k) ==> k < v.specials@.len(),
{
    let ghost sp = v@.specials;
    let mut k: usize = 0;
    while k < v.specials.len()
        invariant
            sp == v@.specials,
            i <= c@.len(),
            k <= v.specials@.len(),
            special_at(sp, c@, i as nat, 0) == special_at(sp, c@, i as nat, k as nat),
        decreases v.specials@.len() - k,
    {
        assert(sp[k as int] == v.specials@[k as int]@);
        let t = chars_of(v.specials[k].text.as_str());
        if t.len() > 0 && stands_at(c.as_slice(), t.as_slice(), i) {
            return Some(k);
        }
        k = k + 1;
    }
    None
}

/// Cuts the text at every special-token occurrence. Specials are matched literally and never
/// participate in merging, which is what stops a prompt containing `<|im_end|>` from being
/// tokenized as ordinary text.
pub fn split_specials(v: &Vocab, text: &str) -> (out: Vec<Piece>)
    ensures
        pieces_view(out@) == cuts(v@, text@),
        joined(cut_texts(pieces_view(out@)), Seq::empty()) == text@,
{
    let mut out: Vec<Piece> = Vec::new();
    let ghost sp = v@.specials;
    if v.specials.len() == 0 {
        out.push(Piece { text: own(text), special: None });
        assert(pieces_view(out@) =~= seq![(text@, None)]);
        assert(cut_texts(pieces_view(out@)) =~= seq![text@]);
        return out;
    }
    let c = chars_of(text);
    let mut cur: Vec<char> = Vec::new();
    let mut i: usize = 0;
    let ghost all = cuts_from(sp, c@, 0, Seq::empty());
    assert(pieces_view(out@) + all =~= all);
    assert(cur@ =~= Seq::empty());
    while i < c.len()
        invariant
            sp == v@.specials,
            i <= c@.len(),
            all == pieces_view(out@) + cuts_from(sp, c@, i as nat, cur@),
        decreases c@.len() - i,
    {
        proof {
            special_fits(sp, c@, i as nat, 0);
        }
        match find_special(v, &c, i) {
            Some(k) => {
                let ghost before = pieces_view(out@);
                let ghost front = if_any(cur@);
                let ghost x = (sp[k as int].0, Some(sp[k as int].1));
                push_if_any(&mut out, &cur);
                cur = Vec::new();
                assert(cur@ =~= Seq::empty());
                assert(sp[k as int] == v.specials@[k as int]@);
                let t = own(v.specials[k].text.as_str());
                let n = chars_of(t.as_str()).len();
                out.push(Piece { text: t, special: Some(v.specials[k].id) });
                assert(pieces_view(out@) =~= (before + front).push(x));
                assert(before + (front + seq![x] + cuts_from(
                    sp,
                    c@,
                    (i + n) as nat,
                    Seq::empty(),
                )) =~= pieces_view(out@) + cuts_from(sp, c@, (i + n) as nat, Seq::empty()));
                i = i + n;
            },
            None => {
                cur.push(c[i]);
                i = i + 1;
            },
        }
    }
    push_if_any(&mut out, &cur);
    proof {
        cuts_cover_the_text(sp, c@, 0, Seq::empty());
        assert(Seq::<char>::empty() + c@.skip(0) =~= text@);
        assert(pieces_view(out@) =~= all);
    }
    out
}

fn order_of_score(bits: u32) -> (r: i64)
    ensures
        r == score_order(bits),
{
    if bits < 0x8000_0000 {
        bits as i64
    } else {
        -1 - (bits - 0x8000_0000) as i64
    }
}

fn round_to(n: u32, q: u32) -> (r: i64)
    requires
        2 <= q <= 256,
    ensures
        r == to_multiple(n as nat, q as nat),
        0 <= r <= 0x1_0000_00ff,
{
    let d = n / q;
    let m = n % q;
    proof {
        let a = n as int;
        let b = q as int;
        assert(a / b * b <= a && a < (a / b + 1) * b) by (nonlinear_arith)
            requires
                a >= 0,
                b > 0,
        ;
        assert((a / b + 1) * b == a / b * b + b) by (nonlinear_arith);
        assert(a / b * b >= 0) by (nonlinear_arith)
            requires
                a >= 0,
                b > 0,
        ;
    }
    if 2 * (m as u64) < q as u64 || (2 * (m as u64) == q as u64 && d % 2 == 0) {
        (d as i64) * (q as i64)
    } else {
        (d as i64 + 1) * (q as i64)
    }
}

fn round_rank(n: u32) -> (r: i64)
    ensures
        r == rounded_rank(n as nat),
        0 <= r <= 0x1_0000_00ff,
{
    if n < 0x100_0000 {
        n as i64
    } else if n < 0x200_0000 {
        round_to(n, 2)
    } else if n < 0x400_0000 {
        round_to(n, 4)
    } else if n < 0x800_0000 {
        round_to(n, 8)
    } else if n < 0x1000_0000 {
        round_to(n, 16)
    } else if n < 0x2000_0000 {
        round_to(n, 32)
    } else if n < 0x4000_0000 {
        round_to(n, 64)
    } else if n < 0x8000_0000 {
        round_to(n, 128)
    } else {
        round_to(n, 256)
    }
}

/// Where a text is cut, from its start to its end.
pub open spec fn cut_well(c: Seq<char>, at: Seq<usize>) -> bool {
    &&& at.len() > 0
    &&& at.last() <= c.len()
    &&& forall|i: int, j: int| 0 <= i < j < at.len() ==> (#[trigger] at[i]) < (#[trigger] at[j])
}

/// The parts between the places where a text is cut.
pub open spec fn parts_of(c: Seq<char>, at: Seq<usize>) -> Seq<Seq<char>> {
    Seq::new((at.len() - 1) as nat, |i: int| c.subrange(at[i] as int, at[i + 1] as int))
}

pub open spec fn int_key(k: Option<i64>) -> Option<int> {
    match k {
        Some(x) => Some(x as int),
        None => None,
    }
}

pub open spec fn int_keys(k: Seq<Option<i64>>) -> Seq<Option<int>> {
    Seq::new(k.len(), |i: int| int_key(k[i]))
}

/// How good it is to merge part `i` with the next one.
fn key_of(v: &Vocab, c: &Vec<char>, at: &Vec<usize>, i: usize, spm: bool) -> (r: Option<i64>)
    requires
        v.wf(),
        cut_well(c@, at@),
        i + 2 < at@.len(),
    ensures
        int_key(r) == pair_key(
            v@,
            parts_of(c@, at@)[i as int],
            parts_of(c@, at@)[i + 1],
            spm,
        ),
{
    let n = at.len();
    assert(at@[i as int] < at@[i + 1] < at@[i + 2] <= at@.last());
    let l = string_of_range(c.as_slice(), at[i], at[i + 1]);
    let r = string_of_range(c.as_slice(), at[i + 1], at[i + 2]);
    if spm {
        match v.id(cat2(l.as_str(), r.as_str()).as_str()) {
            Some(id) => {
                let s = if (id as usize) < v.scores.len() {
                    v.scores[id as usize]
                } else {
                    super::vocab::LOWEST_SCORE
                };
                Some(order_of_score(s))
            },
            None => None,
        }
    } else {
        match v.merge_rank(l.as_str(), r.as_str()) {
            Some(k) => Some(-round_rank(k)),
            None => None,
        }
    }
}

/// The best pair.
fn best_pair(keys: &Vec<Option<i64>>) -> (r: Option<usize>)
    ensures
        best(int_keys(keys@), keys@.len()) == match r {
            Some(i) => Some(i as nat),
            None => None::<nat>,
        },
        r matches Some(i) ==> i < keys@.len(),
{
    let ghost ks = int_keys(keys@);
    let mut b: Option<usize> = None;
    let mut top: i64 = 0;
    let mut n: usize = 0;
    while n < keys.len()
        invariant
            n <= keys@.len(),
            ks == int_keys(keys@),
            best(ks, n as nat) == match b {
                Some(i) => Some(i as nat),
                None => None::<nat>,
            },
            b matches Some(i) ==> i < n && keys@[i as int] == Some(top),
        decreases keys@.len() - n,
    {
        match keys[n] {
            None => {},
            Some(k) => {
                let better = match b {
                    None => true,
                    Some(_) => k > top,
                };
                if better {
                    b = Some(n);
                    top = k;
                }
            },
        }
        n = n + 1;
    }
    b
}

/// Leaving out a cut makes one part of two.
proof fn join_cuts(c: Seq<char>, at: Seq<usize>, i: int)
    requires
        cut_well(c, at),
        0 <= i,
        i + 2 < at.len(),
    ensures
        cut_well(c, at.remove(i + 1)),
        parts_of(c, at.remove(i + 1)) == join_at(parts_of(c, at), i),
{
    let ps = parts_of(c, at);
    let less = at.remove(i + 1);
    let qs = parts_of(c, less);
    let lo = at[i] as int;
    let mid = at[i + 1] as int;
    let hi = at[i + 2] as int;
    assert(lo < mid < hi <= at.last());
    assert(c.subrange(lo, hi) =~= c.subrange(lo, mid) + c.subrange(mid, hi));
    assert forall|a: int| 0 <= a < qs.len() implies (#[trigger] qs[a]) == join_at(ps, i)[a] by {
        if a < i {
            assert(less[a] == at[a] && less[a + 1] == at[a + 1]);
        } else if a == i {
            assert(less[a] == at[a] && less[a + 1] == at[a + 2]);
        } else {
            assert(less[a] == at[a + 1] && less[a + 1] == at[a + 2]);
        }
    }
    assert(qs =~= join_at(ps, i));
}

/// A merge changes the keys of the merged part's neighbours only.
proof fn join_keys(
    v: VocabView,
    ps: Seq<Seq<char>>,
    i: int,
    spm: bool,
    before: Seq<Option<i64>>,
    after: Seq<Option<i64>>,
)
    requires
        0 <= i,
        i + 1 < ps.len(),
        int_keys(before) == pair_keys(v, ps, spm),
        after.len() == before.len() - 1,
        forall|a: int| 0 <= a < i - 1 ==> (#[trigger] after[a]) == before[a],
        forall|a: int| i < a < after.len() ==> (#[trigger] after[a]) == before[a + 1],
        i > 0 ==> int_key(after[i - 1]) == pair_key(
            v,
            join_at(ps, i)[i - 1],
            join_at(ps, i)[i],
            spm,
        ),
        i < after.len() ==> int_key(after[i]) == pair_key(
            v,
            join_at(ps, i)[i],
            join_at(ps, i)[i + 1],
            spm,
        ),
    ensures
        int_keys(after) == pair_keys(v, join_at(ps, i), spm),
{
    let qs = join_at(ps, i);
    let ks = pair_keys(v, ps, spm);
    let want = pair_keys(v, qs, spm);
    assert(int_keys(before).len() == ks.len());
    assert(after.len() == want.len());
    assert forall|a: int| 0 <= a < want.len() implies int_keys(after)[a] == #[trigger] want[a] by {
        if a < i - 1 {
            assert(int_keys(before)[a] == ks[a]);
            assert(qs[a] == ps[a] && qs[a + 1] == ps[a + 1]);
        } else if a > i {
            assert(int_keys(before)[a + 1] == ks[a + 1]);
            assert(qs[a] == ps[a + 1] && qs[a + 1] == ps[a + 2]);
        }
    }
    assert(int_keys(after) =~= want);
}

/// Merges part `i` with the next one.
fn merge_once(
    v: &Vocab,
    c: &Vec<char>,
    at: &mut Vec<usize>,
    keys: &mut Vec<Option<i64>>,
    i: usize,
    spm: bool,
)
    requires
        v.wf(),
        cut_well(c@, old(at)@),
        i + 2 < old(at)@.len(),
        int_keys(old(keys)@) == pair_keys(v@, parts_of(c@, old(at)@), spm),
    ensures
        cut_well(c@, final(at)@),
        final(at)@.len() == old(at)@.len() - 1,
        parts_of(c@, final(at)@) == join_at(parts_of(c@, old(at)@), i as int),
        int_keys(final(keys)@) == pair_keys(v@, parts_of(c@, final(at)@), spm),
{
    let ghost ps = parts_of(c@, at@);
    let ghost before = keys@;
    let len = at.len();
    proof {
        assert(int_keys(before).len() == pair_keys(v@, ps, spm).len());
        join_cuts(c@, at@, i as int);
    }
    at.remove(i + 1);
    keys.remove(i);
    let ghost qs = parts_of(c@, at@);
    assert(qs == join_at(ps, i as int));
    let ghost mid = keys@;
    if i > 0 {
        let x = key_of(v, c, at, i - 1, spm);
        keys.set(i - 1, x);
    }
    if i < keys.len() {
        let x = key_of(v, c, at, i, spm);
        keys.set(i, x);
    }
    proof {
        join_keys(v@, ps, i as int, spm, before, keys@);
    }
}

/// The places where `c` is cut after every merge.
fn merge_cuts(v: &Vocab, c: &Vec<char>, spm: bool) -> (at: Vec<usize>)
    requires
        v.wf(),
    ensures
        cut_well(c@, at@),
        parts_of(c@, at@) == merge_all(v@, singles(c@), spm),
{
    let ghost all = merge_all(v@, singles(c@), spm);
    let mut at: Vec<usize> = Vec::new();
    at.push(0);
    let mut k: usize = 0;
    while k < c.len()
        invariant
            k <= c@.len(),
            at@.len() == k + 1,
            forall|i: int| 0 <= i <= k ==> (#[trigger] at@[i]) == i,
        decreases c@.len() - k,
    {
        k = k + 1;
        at.push(k);
    }
    assert(parts_of(c@, at@) =~= singles(c@)) by {
        assert forall|i: int| 0 <= i < c@.len() implies (#[trigger] parts_of(c@, at@)[i])
            == singles(c@)[i] by {
            assert(c@.subrange(i, i + 1) =~= seq![c@[i]]);
        }
    }
    let mut keys: Vec<Option<i64>> = Vec::new();
    let mut j: usize = 0;
    let m = at.len();
    while m >= 2 && j < m - 2
        invariant
            v.wf(),
            cut_well(c@, at@),
            m == at@.len(),
            j <= m,
            m >= 2 ==> j <= m - 2,
            m < 2 ==> j == 0,
            keys@.len() == j,
            forall|i: int|
                0 <= i < j ==> int_key(#[trigger] keys@[i]) == pair_key(
                    v@,
                    parts_of(c@, at@)[i],
                    parts_of(c@, at@)[i + 1],
                    spm,
                ),
        decreases m - j,
    {
        let x = key_of(v, c, &at, j, spm);
        keys.push(x);
        j = j + 1;
    }
    assert(int_keys(keys@) =~= pair_keys(v@, parts_of(c@, at@), spm));
    loop
        invariant
            v.wf(),
            cut_well(c@, at@),
            all == merge_all(v@, parts_of(c@, at@), spm),
            int_keys(keys@) == pair_keys(v@, parts_of(c@, at@), spm),
        ensures
            cut_well(c@, at@),
            all == parts_of(c@, at@),
        decreases at@.len(),
    {
        let ghost ps = parts_of(c@, at@);
        let ghost ks = pair_keys(v@, ps, spm);
        assert(int_keys(keys@).len() == ks.len());
        match best_pair(&keys) {
            None => {
                break;
            },
            Some(i) => {
                proof {
                    best_is_best(ks, ks.len());
                }
                merge_once(v, c, &mut at, &mut keys, i, spm);
            },
        }
    }
    at
}

fn push_known_or_unknown(v: &Vocab, t: &str, out: &mut Vec<u32>)
    requires
        v.wf(),
    ensures
        final(out)@ == old(out)@ + known_or_unknown(v@, t@),
{
    let ghost before = out@;
    match v.id(t) {
        Some(id) => out.push(id),
        None => match v.unk {
            Some(u) => out.push(u),
            None => {},
        },
    }
    assert(out@ =~= before + known_or_unknown(v@, t@));
}

fn push_byte(v: &Vocab, b: u8, out: &mut Vec<u32>)
    requires
        v.wf(),
    ensures
        final(out)@ == old(out)@ + known_or_unknown(v@, byte_token(b)),
{
    let ghost before = out@;
    match v.byte_fallback(b) {
        Some(id) => out.push(id),
        None => match v.unk {
            Some(u) => out.push(u),
            None => {},
        },
    }
    assert(out@ =~= before + known_or_unknown(v@, byte_token(b)));
}

/// Appends the ids of a part.
fn emit(v: &Vocab, piece: &str, out: &mut Vec<u32>, spm: bool)
    requires
        v.wf(),
    ensures
        final(out)@ == old(out)@ + part_ids(v@, piece@, spm),
{
    let ghost start = out@;
    if let Some(id) = v.id(piece) {
        out.push(id);
        assert(out@ =~= start + seq![id]);
        return ;
    }
    if spm {
        let b = piece.as_bytes();
        let mut i: usize = 0;
        assert(start + Seq::<u32>::empty() =~= start);
        while i < b.len()
            invariant
                v.wf(),
                i <= b@.len(),
                out@ == start + byte_ids(v@, b@, i as nat),
            decreases b@.len() - i,
        {
            push_byte(v, b[i], out);
            i = i + 1;
            assert(out@ =~= start + byte_ids(v@, b@, i as nat));
        }
    } else {
        let c = chars_of(piece);
        let mut i: usize = 0;
        assert(start + Seq::<u32>::empty() =~= start);
        while i < c.len()
            invariant
                v.wf(),
                i <= c@.len(),
                out@ == start + char_ids(v@, c@, i as nat),
            decreases c@.len() - i,
        {
            let one = string_of_char(c[i]);
            push_known_or_unknown(v, one.as_str(), out);
            i = i + 1;
            assert(out@ =~= start + char_ids(v@, c@, i as nat));
        }
    }
}

/// Appends the ids of a text, merged as far as it goes.
fn merge(v: &Vocab, c: &Vec<char>, out: &mut Vec<u32>, spm: bool)
    requires
        v.wf(),
    ensures
        final(out)@ == old(out)@ + merged_ids(v@, c@, spm),
{
    let at = merge_cuts(v, c, spm);
    let ghost ps = parts_of(c@, at@);
    let ghost start = out@;
    let n = at.len() - 1;
    let mut i: usize = 0;
    assert(start + Seq::<u32>::empty() =~= start);
    while i < n
        invariant
            v.wf(),
            cut_well(c@, at@),
            ps == parts_of(c@, at@),
            n == at@.len() - 1,
            i <= n,
            out@ == start + parts_ids(v@, ps, i as nat, spm),
        decreases n - i,
    {
        assert(at@[i as int] < at@[i + 1] <= at@.last());
        let t = string_of_range(c.as_slice(), at[i], at[i + 1]);
        assert(t@ == ps[i as int]);
        emit(v, t.as_str(), out, spm);
        i = i + 1;
        assert(out@ =~= start + parts_ids(v@, ps, i as nat, spm));
    }
}

fn encode_spm(v: &Vocab, text: &str, out: &mut Vec<u32>)
    requires
        v.wf(),
    ensures
        final(out)@ == old(out)@ + merged_ids(v@, marked(v@, text@), true),
{
    let c = chars_of(text);
    let mut staged: Vec<char> = Vec::new();
    if v.add_space_prefix && !(c.len() > 0 && c[0] == ' ') {
        staged.push('\u{2581}');
    }
    let ghost front = staged@;
    let ghost body = Seq::new(
        c@.len(),
        |i: int|
            if c@[i] == ' ' {
                '\u{2581}'
            } else {
                c@[i]
            },
    );
    let mut i: usize = 0;
    while i < c.len()
        invariant
            i <= c@.len(),
            body == Seq::new(
                c@.len(),
                |i: int|
                    if c@[i] == ' ' {
                        '\u{2581}'
                    } else {
                        c@[i]
                    },
            ),
            staged@ =~= front + body.take(i as int),
        decreases c@.len() - i,
    {
        if c[i] == ' ' {
            staged.push('\u{2581}');
        } else {
            staged.push(c[i]);
        }
        i = i + 1;
    }
    assert(body.take(i as int) =~= body);
    assert(staged@ =~= marked(v@, text@));
    merge(v, &staged, out, true);
}

fn encode_bpe(v: &Vocab, text: &str, out: &mut Vec<u32>)
    requires
        v.wf(),
    ensures
        ({
            let w = pieces_from(text@, 0, rules_of(v@.pre));
            final(out)@ == old(out)@ + word_ids(v@, w, w.len())
        }),
{
    let w = split(v.pre.as_str(), text);
    let ghost ws = texts(w@);
    let ghost start = out@;
    let mut i: usize = 0;
    assert(start + Seq::<u32>::empty() =~= start);
    while i < w.len()
        invariant
            v.wf(),
            ws == texts(w@),
            i <= w@.len(),
            out@ == start + word_ids(v@, ws, i as nat),
        decreases w@.len() - i,
    {
        let b = w[i].as_str().as_bytes();
        let mut staged: Vec<char> = Vec::new();
        let mut k: usize = 0;
        while k < b.len()
            invariant
                v.wf(),
                k <= b@.len(),
                staged@.len() == k,
                forall|j: int| 0 <= j < k ==> (#[trigger] staged@[j]) == byte_char(b@[j]),
            decreases b@.len() - k,
        {
            staged.push(v.byte_to_char(b[k]));
            k = k + 1;
        }
        assert(ws[i as int] == w@[i as int]@);
        assert(staged@ =~= byte_text(ws[i as int]));
        merge(v, &staged, out, false);
        i = i + 1;
        assert(out@ =~= start + word_ids(v@, ws, i as nat));
    }
}

/// The ids of a word from its start; none where a part of it is in no token.
fn encode_word(v: &Vocab, c: &Vec<char>) -> (r: Option<Vec<u32>>)
    requires
        v.wf(),
    ensures
        match wpm_from(v@, c@, 0) {
            Some(ids) => r is Some && r->0@ == ids,
            None => r is None,
        },
{
    let mut ids: Vec<u32> = Vec::new();
    let mut start: usize = 0;
    proof {
        match wpm_from(v@, c@, 0) {
            Some(x) => {
                assert(Seq::<u32>::empty() + x =~= x);
            },
            None => {},
        }
    }
    while start < c.len()
        invariant
            v.wf(),
            start <= c@.len(),
            wpm_from(v@, c@, 0) == match wpm_from(v@, c@, start as nat) {
                Some(rest) => Some(ids@ + rest),
                None => None,
            },
        decreases c@.len() - start,
    {
        let mut end: usize = c.len();
        let mut matched: Option<u32> = None;
        proof {
            longest_bound(v@, c@, start as nat, c@.len());
        }
        while end > start
            invariant_except_break
                matched is None,
                longest(v@, c@, start as nat, c@.len()) == longest(
                    v@,
                    c@,
                    start as nat,
                    end as nat,
                ),
            invariant
                v.wf(),
                start <= end <= c@.len(),
            ensures
                start <= end <= c@.len(),
                match matched {
                    Some(id) => start < end && longest(v@, c@, start as nat, c@.len()) == Some(
                        (id, end as nat),
                    ),
                    None => longest(v@, c@, start as nat, c@.len()) is None,
                },
            decreases end,
        {
            let sub = string_of_range(c.as_slice(), start, end);
            let candidate = if start == 0 {
                sub
            } else {
                cat2("##", sub.as_str())
            };
            match v.id(candidate.as_str()) {
                Some(id) => {
                    matched = Some(id);
                    break;
                },
                None => {},
            }
            end = end - 1;
        }
        match matched {
            Some(id) => {
                let ghost before = ids@;
                ids.push(id);
                proof {
                    match wpm_from(v@, c@, end as nat) {
                        Some(rest) => {
                            assert(before + (seq![id] + rest) =~= ids@ + rest);
                        },
                        None => {},
                    }
                }
                start = end;
            },
            None => return None,
        }
    }
    assert(ids@ + Seq::<u32>::empty() =~= ids@);
    Some(ids)
}

fn encode_wpm(v: &Vocab, text: &str, out: &mut Vec<u32>)
    requires
        v.wf(),
    ensures
        final(out)@ == old(out)@ + wpm_ids(v@, words(text@), words(text@).len()),
{
    let w = split_words(text);
    let ghost ws = texts(w@);
    let ghost start = out@;
    let mut i: usize = 0;
    assert(start + Seq::<u32>::empty() =~= start);
    while i < w.len()
        invariant
            v.wf(),
            ws == texts(w@),
            i <= w@.len(),
            out@ == start + wpm_ids(v@, ws, i as nat),
        decreases w@.len() - i,
    {
        let low = w[i].as_str().to_lowercase();
        assert(ws[i as int] == w@[i as int]@);
        match encode_word(v, &chars_of(low.as_str())) {
            Some(ids) => {
                let mut more = ids;
                out.append(&mut more);
            },
            None => match v.unk {
                Some(u) => out.push(u),
                None => {},
            },
        }
        i = i + 1;
        assert(out@ =~= start + wpm_ids(v@, ws, i as nat));
    }
}

fn encode_piece(v: &Vocab, text: &str, out: &mut Vec<u32>)
    requires
        v.wf(),
    ensures
        final(out)@ == old(out)@ + piece_ids(v@, text@),
{
    if text.is_empty() {
        assert(out@ =~= out@ + Seq::<u32>::empty());
        return ;
    }
    match v.kind {
        TokenizerKind::Spm => encode_spm(v, text, out),
        TokenizerKind::Bpe => encode_bpe(v, text, out),
        TokenizerKind::Wpm => encode_wpm(v, text, out),
    }
}

/// The ids of a text.
pub fn encode(v: &Vocab, text: &str, add_special: bool) -> (out: Vec<u32>)
    requires
        v.wf(),
    ensures
        out@ == encoded(v@, text@, add_special),
{
    let mut out: Vec<u32> = Vec::new();
    if add_special && v.add_bos {
        match v.bos {
            Some(b) => out.push(b),
            None => {},
        }
    }
    let ghost front = out@;
    let parts = split_specials(v, text);
    let ghost a = pieces_view(parts@);
    let mut i: usize = 0;
    assert(front + Seq::<u32>::empty() =~= front);
    while i < parts.len()
        invariant
            v.wf(),
            a == pieces_view(parts@),
            i <= parts@.len(),
            out@ == front + cut_ids(v@, a, i as nat),
        decreases parts@.len() - i,
    {
        match parts[i].special {
            Some(id) => out.push(id),
            None => encode_piece(v, parts[i].text.as_str(), &mut out),
        }
        i = i + 1;
        assert(out@ =~= front + cut_ids(v@, a, i as nat));
    }
    let ghost body = out@;
    if add_special && v.add_eos && v.eos.len() > 0 {
        out.push(v.eos[0]);
    }
    assert(out@ =~= encoded(v@, text@, add_special));
    out
}

} // verus!
