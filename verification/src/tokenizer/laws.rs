//! What tokens and chat formats promise, as relations between texts, vocabularies and ids.

use vstd::prelude::*;

use super::encode::{
    best, cut_ids, cuts, encoded, join_at, longest, merge_all, pair_keys, score_order, wpm_from,
    wpm_spelling,
};
use super::index::place_is_right;
use super::pretok::{digits_end, is_break, is_symbol, piece_at, run_end, Rules};
use super::template::{
    built_in, has_system_role, ids_sorted, opening, put_id, role_of, stop_ids_of, turn, turns_from,
    with_token, Builtin,
};
use super::vocab::{vocab_of, TokenizerKind, VocabView};
use crate::dict::lookup;
use crate::gguf::value::{MetaView, ValueView};
use crate::single::{is_nan, less};
use crate::text::{index_from_is_first, is_alpha, is_num, is_white, occurs_at};

verus! {

// --------------------------------------------------------------------------------- merges

proof fn best_is_first_of_the_highest(keys: Seq<Option<int>>, n: nat)
    requires
        n <= keys.len(),
    ensures
        match best(keys, n) {
            Some(i) => {
                &&& i < n
                &&& keys[i as int] is Some
                &&& forall|j: int| 0 <= j < n ==> ((#[trigger] keys[j]) matches Some(k) ==> k
                    <= keys[i as int]->0)
                &&& forall|j: int| 0 <= j < i ==> ((#[trigger] keys[j]) matches Some(k) ==> k
                    < keys[i as int]->0)
            },
            None => forall|j: int| 0 <= j < n ==> (#[trigger] keys[j]) is None,
        },
    decreases n,
{
    if n > 0 {
        best_is_first_of_the_highest(keys, (n - 1) as nat);
    }
}

/// The merge that stands first in the list is made first, at the leftmost place where it can be,
/// and merging goes on from there.
pub proof fn the_earliest_merge_is_made_first(v: VocabView, ps: Seq<Seq<char>>, i: int)
    requires
        0 <= i,
        i + 1 < ps.len(),
        v.rank(ps[i], ps[i + 1]) is Some,
        forall|j: int|
            0 <= j && j + 1 < ps.len() ==> (#[trigger] v.rank(ps[j], ps[j + 1]) matches Some(k)
                ==> k < 0x100_0000 && v.rank(ps[i], ps[i + 1])->0 <= k && (j < i ==> v.rank(
                ps[i],
                ps[i + 1],
            )->0 < k)),
    ensures
        merge_all(v, ps, false) == merge_all(
            v,
            ps.take(i) + seq![ps[i] + ps[i + 1]] + ps.skip(i + 2),
            false,
        ),
{
    let keys = pair_keys(v, ps, false);
    best_is_first_of_the_highest(keys, keys.len());
    let b = best(keys, keys.len());
    assert(keys[i] is Some);
    let at = b->0 as int;
    assert(v.rank(ps[at], ps[at + 1]) is Some);
    if at != i {
        assert(keys[at]->0 <= keys[i]->0);
        assert(keys[i]->0 <= keys[at]->0);
        assert(false);
    }
    assert(join_at(ps, i) =~= ps.take(i) + seq![ps[i] + ps[i + 1]] + ps.skip(i + 2));
}

/// Two parts that make up the token of the highest score are merged first, the leftmost of them.
pub proof fn the_highest_score_is_merged_first(v: VocabView, ps: Seq<Seq<char>>, i: int)
    requires
        0 <= i,
        i + 1 < ps.len(),
        v.find(ps[i] + ps[i + 1]) is Some,
        !is_nan(v.score(v.find(ps[i] + ps[i + 1])->0)),
        forall|j: int|
            0 <= j && j + 1 < ps.len() && j != i ==> (#[trigger] v.find(ps[j] + ps[j + 1])
                matches Some(id) ==> less(
                v.score(id),
                v.score(v.find(ps[i] + ps[i + 1])->0),
            )),
    ensures
        merge_all(v, ps, true) == merge_all(
            v,
            ps.take(i) + seq![ps[i] + ps[i + 1]] + ps.skip(i + 2),
            true,
        ),
{
    let keys = pair_keys(v, ps, true);
    best_is_first_of_the_highest(keys, keys.len());
    let b = best(keys, keys.len());
    assert(keys[i] is Some);
    let at = b->0 as int;
    if at != i {
        assert(v.find(ps[at] + ps[at + 1]) is Some);
        scores_go_by_value(v.score(v.find(ps[at] + ps[at + 1])->0), v.score(v.find(ps[i] + ps[i + 1])->0));
        assert(keys[i]->0 <= keys[at]->0);
        assert(false);
    }
    assert(join_at(ps, i) =~= ps.take(i) + seq![ps[i] + ps[i + 1]] + ps.skip(i + 2));
}

/// Scores are ordered as the numbers they are.
pub proof fn scores_go_by_value(a: u32, b: u32)
    requires
        less(a, b),
    ensures
        score_order(a) < score_order(b),
{
}

/// The rank of a pair is the place of its merge in the list: the text of the first, a space, and
/// that of the second.
pub proof fn a_rank_is_a_place_in_the_list(v: VocabView, l: Seq<char>, r: Seq<char>)
    requires
        v.merges.len() <= u32::MAX,
    ensures
        match v.rank(l, r) {
            Some(k) => k < v.merges.len() && v.merges[k as int] == l + seq![' '] + r,
            None => l.contains(' ') || !v.merges.contains(l + seq![' '] + r),
        },
{
    place_is_right(v.merges, l + seq![' '] + r, true);
    index_from_is_first(l, seq![' '], 0);
    if crate::text::has_text(l, seq![' ']) {
        let i = crate::text::index_of(l, seq![' '])->0 as int;
        assert(l.subrange(i, i + 1)[0] == ' ');
        assert(l[i] == ' ');
    }
}

/// A text is found as the first token that is spelt so.
pub proof fn a_token_is_found_by_its_text(v: VocabView, t: Seq<char>)
    requires
        v.tokens.len() <= u32::MAX,
    ensures
        match v.find(t) {
            Some(id) => id < v.tokens.len() && v.tokens[id as int] == t && forall|j: int|
                0 <= j < id ==> #[trigger] v.tokens[j] != t,
            None => forall|j: int| 0 <= j < v.tokens.len() ==> #[trigger] v.tokens[j] != t,
        },
{
    place_is_right(v.tokens, t, false);
}

// ------------------------------------------------------------------------------ word pieces

/// A word piece is the longest that the vocabulary holds: what it spells is in the vocabulary, and
/// nothing longer from the same place is.
pub proof fn a_word_piece_is_the_longest(v: VocabView, c: Seq<char>, start: nat, end: nat)
    requires
        start <= end <= c.len(),
    ensures
        match longest(v, c, start, end) {
            Some((id, e)) => start < e <= end && v.find(wpm_spelling(c, start, e)) == Some(id)
                && forall|k: nat|
                e < k <= end ==> #[trigger] v.find(wpm_spelling(c, start, k)) is None,
            None => forall|k: nat|
                start < k <= end ==> #[trigger] v.find(wpm_spelling(c, start, k)) is None,
        },
    decreases end,
{
    if end > start && v.find(wpm_spelling(c, start, end)) is None {
        a_word_piece_is_the_longest(v, c, start, (end - 1) as nat);
    }
}

/// A word starts plainly, and goes on with a mark; one that is in the vocabulary is one token.
pub proof fn a_known_word_is_one_token(v: VocabView, c: Seq<char>, id: u32, start: nat, end: nat)
    requires
        c.len() > 0,
        start < end <= c.len(),
    ensures
        v.find(c) == Some(id) ==> wpm_from(v, c, 0) == Some(seq![id]),
        start == 0 ==> wpm_spelling(c, start, end) == c.take(end as int),
        start > 0 ==> wpm_spelling(c, start, end) == seq!['#', '#'] + c.subrange(
            start as int,
            end as int,
        ),
{
    reveal_strlit("##");
    assert("##"@ =~= seq!['#', '#']);
    assert(c.subrange(0, c.len() as int) =~= c);
    if start == 0 {
        assert(c.subrange(0, end as int) =~= c.take(end as int));
    }
    if v.find(c) == Some(id) {
        assert(wpm_spelling(c, 0, c.len()) == c);
        assert(longest(v, c, 0, c.len()) == Some((id, c.len())));
        reveal_with_fuel(wpm_from, 2);
        assert(seq![id] + Seq::<u32>::empty() =~= seq![id]);
    }
}

// ---------------------------------------------------------------------------------- framing

/// A text that is asked to be framed starts and ends with the marks that its vocabulary has for
/// it, and is else as it is without them.
pub proof fn marks_frame_a_text(v: VocabView, t: Seq<char>)
    ensures
        ({
            let plain = encoded(v, t, false);
            let framed = encoded(v, t, true);
            &&& v.add_bos && v.bos is Some && v.add_eos && v.eos.len() > 0 ==> framed
                == seq![v.bos->0] + plain + seq![v.eos[0]]
            &&& v.add_bos && v.bos is Some && !v.add_eos ==> framed == seq![v.bos->0] + plain
            &&& !v.add_bos && v.add_eos && v.eos.len() > 0 ==> framed == plain + seq![v.eos[0]]
            &&& !v.add_bos && !v.add_eos ==> framed == plain
        }),
{
    let a = cuts(v, t);
    let ids = cut_ids(v, a, a.len());
    let none = Seq::<u32>::empty();
    assert(none + ids + none =~= ids);
    assert(v.bos is Some ==> seq![v.bos->0] + ids + none =~= seq![v.bos->0] + ids);
    assert(v.eos.len() > 0 ==> none + ids + seq![v.eos[0]] =~= ids + seq![v.eos[0]]);
}

/// The text of a special token is that token, unless one that is tried before it stands there.
pub proof fn a_special_text_is_its_token(v: VocabView, k: int)
    requires
        0 <= k < v.specials.len(),
        v.specials[k].0.len() > 0,
        forall|j: int|
            0 <= j < k ==> (#[trigger] v.specials[j]).0.len() == 0 || !occurs_at(
                v.specials[k].0,
                v.specials[j].0,
                0,
            ),
    ensures
        encoded(v, v.specials[k].0, false) == seq![v.specials[k].1],
{
    let sp = v.specials;
    let t = sp[k].0;
    assert(t.subrange(0, t.len() as int) =~= t);
    special_is_found(sp, t, k, 0);
    reveal_with_fuel(super::encode::cuts_from, 2);
    let a = cuts(v, t);
    assert(a =~= seq![(t, Some(sp[k].1))]);
    reveal_with_fuel(cut_ids, 2);
    assert(cut_ids(v, a, 1) =~= seq![sp[k].1]);
    assert(Seq::<u32>::empty() + seq![sp[k].1] + Seq::<u32>::empty() =~= seq![sp[k].1]);
}

proof fn special_is_found(sp: Seq<(Seq<char>, u32)>, t: Seq<char>, k: int, from: nat)
    requires
        0 <= from <= k < sp.len(),
        sp[k].0.len() > 0,
        occurs_at(t, sp[k].0, 0),
        forall|j: int|
            0 <= j < k ==> (#[trigger] sp[j]).0.len() == 0 || !occurs_at(t, sp[j].0, 0),
    ensures
        super::encode::special_at(sp, t, 0, from) == Some(k as nat),
    decreases k - from,
{
    if from < k {
        assert(sp[from as int].0.len() == 0 || !occurs_at(t, sp[from as int].0, 0));
        special_is_found(sp, t, k, from + 1);
    }
}

// --------------------------------------------------------------------------------- pieces

proof fn run_is_whole(c: Seq<char>, j: nat, p: spec_fn(char) -> bool)
    requires
        j <= c.len(),
    ensures
        j <= run_end(c, j, p) <= c.len(),
        forall|k: int| j <= k < run_end(c, j, p) ==> p(#[trigger] c[k]),
        run_end(c, j, p) < c.len() ==> !p(c[run_end(c, j, p) as int]),
    decreases c.len() - j,
{
    if j < c.len() && p(c[j as int]) {
        run_is_whole(c, j + 1, p);
    }
}

/// A piece that starts with a letter holds all the letters that follow, and nothing else.
pub proof fn letters_stay_together(c: Seq<char>, i: nat, r: Rules)
    requires
        i < c.len(),
        is_alpha(c[i as int]),
        c[i as int] != '\'',
        c[i as int] != ' ',
    ensures
        ({
            let n = piece_at(c, i, r);
            &&& forall|k: int| i <= k < i + n ==> is_alpha(#[trigger] c[k])
            &&& i + n <= c.len()
            &&& i + n < c.len() ==> !is_alpha(c[(i + n) as int])
        }),
{
    run_is_whole(c, i, |x: char| is_alpha(x));
}

/// A space before a letter goes with the word.
pub proof fn a_space_goes_with_its_word(c: Seq<char>, i: nat, r: Rules)
    requires
        i + 1 < c.len(),
        c[i as int] == ' ',
        is_alpha(c[i as int + 1]),
    ensures
        piece_at(c, i, r) >= 2,
        forall|k: int| i < k < i + piece_at(c, i, r) ==> is_alpha(#[trigger] c[k]),
{
    run_is_whole(c, i + 1, |x: char| is_alpha(x));
}

/// Digits stay together up to as many as the rules group, and go on in the next piece.
pub proof fn digits_go_in_groups(c: Seq<char>, i: nat, r: Rules)
    requires
        i < c.len(),
        is_num(c[i as int]),
        !is_alpha(c[i as int]),
        c[i as int] != '\'',
        c[i as int] != ' ',
        0 < r.digit_group < usize::MAX,
    ensures
        ({
            let n = piece_at(c, i, r);
            &&& 1 <= n <= r.digit_group
            &&& i + n <= c.len()
            &&& forall|k: int| i <= k < i + n ==> is_num(#[trigger] c[k])
            &&& n < r.digit_group && i + n < c.len() ==> !is_num(c[(i + n) as int])
        }),
{
    digits_are_whole(c, i, r.digit_group as nat);
    run_is_whole(c, i, |x: char| is_alpha(x));
}

proof fn digits_are_whole(c: Seq<char>, j: nat, n: nat)
    requires
        j <= c.len(),
    ensures
        j <= digits_end(c, j, n) <= c.len(),
        digits_end(c, j, n) <= j + n,
        forall|k: int| j <= k < digits_end(c, j, n) ==> is_num(#[trigger] c[k]),
        digits_end(c, j, n) < j + n && digits_end(c, j, n) < c.len() ==> !is_num(
            c[digits_end(c, j, n) as int],
        ),
    decreases n,
{
    if j < c.len() && is_num(c[j as int]) && n > 0 {
        digits_are_whole(c, j + 1, (n - 1) as nat);
    }
}

/// Of several blanks before a word the last is left to it.
pub proof fn the_last_blank_is_left_to_the_word(c: Seq<char>, i: nat, e: nat, r: Rules)
    requires
        i + 1 < e < c.len(),
        forall|k: int| i <= k < e ==> (#[trigger] c[k]) == ' ',
        !is_white(c[e as int]),
    ensures
        piece_at(c, i, r) == e - i - 1,
{
    assert(c[i as int] == ' ' && c[i as int + 1] == ' ');
    let white = |x: char| is_white(x);
    let flat = |x: char| is_white(x) && !is_break(x);
    run_is_whole(c, i, white);
    run_is_whole(c, i, flat);
    run_is_whole(c, i + 1, |x: char| is_alpha(x));
    run_is_whole(c, i, |x: char| is_symbol(x));
    assert(run_end(c, i, white) == e) by {
        if run_end(c, i, white) < e {
            assert(c[run_end(c, i, white) as int] == ' ');
        } else if run_end(c, i, white) > e {
            assert(white(c[e as int]));
        }
    }
    assert(run_end(c, i, flat) == e) by {
        if run_end(c, i, flat) < e {
            assert(c[run_end(c, i, flat) as int] == ' ');
        } else if run_end(c, i, flat) > e {
            assert(flat(c[e as int]));
        }
    }
    assert(!is_break(c[e as int]));
    digits_are_whole(c, i + 1, r.digit_group as nat);
    digits_are_whole(c, i, r.digit_group as nat);
}

// -------------------------------------------------------------------------- vocabularies

/// A vocabulary is of the kind that the file names, and frames texts as it says; where it says
/// nothing, only one of SentencePiece starts its texts with a mark.
pub proof fn a_vocabulary_is_read_as_written(
    m: MetaView,
    a: Seq<ValueView>,
    scores: Seq<u32>,
    n: u32,
    on: bool,
)
    ensures
        ({
            let v = vocab_of(m, a, scores);
            let at = |k: Seq<char>| lookup(m.map, k);
            &&& v.tokens.len() == a.len()
            &&& at("tokenizer.ggml.model"@) == Some(ValueView::String("gpt2"@)) ==> v.kind
                == TokenizerKind::Bpe
            &&& at("tokenizer.ggml.model"@) == Some(ValueView::String("bert"@)) ==> v.kind
                == TokenizerKind::Wpm
            &&& at("tokenizer.ggml.model"@) == Some(ValueView::String("llama"@)) ==> v.kind
                == TokenizerKind::Spm
            &&& at("tokenizer.ggml.model"@) is None ==> v.kind == TokenizerKind::Spm
            &&& at("tokenizer.ggml.bos_token_id"@) == Some(ValueView::U32(n)) ==> v.bos == Some(n)
            &&& at("tokenizer.ggml.bos_token_id"@) is None ==> v.bos is None
            &&& at("tokenizer.ggml.eos_token_id"@) == Some(ValueView::U32(n)) ==> v.eos == seq![n]
            &&& at("tokenizer.ggml.eos_token_id"@) is None ==> v.eos == seq![2u32]
            &&& at("tokenizer.ggml.unknown_token_id"@) == Some(ValueView::U32(n)) ==> v.unk == Some(
                n,
            )
            &&& at("tokenizer.ggml.padding_token_id"@) == Some(ValueView::U32(n)) ==> v.pad == Some(
                n,
            )
            &&& at("tokenizer.ggml.add_bos_token"@) == Some(ValueView::Bool(on)) ==> v.add_bos == on
            &&& at("tokenizer.ggml.add_bos_token"@) is None ==> v.add_bos == (v.kind
                == TokenizerKind::Spm)
            &&& at("tokenizer.ggml.add_eos_token"@) == Some(ValueView::Bool(on)) ==> v.add_eos == on
            &&& at("tokenizer.ggml.add_eos_token"@) is None ==> !v.add_eos
            &&& at("tokenizer.ggml.add_space_prefix"@) == Some(ValueView::Bool(on))
                ==> v.add_space_prefix == on
            &&& at("tokenizer.ggml.add_space_prefix"@) is None ==> v.add_space_prefix
        }),
{
    reveal_strlit("gpt2");
    reveal_strlit("bert");
    reveal_strlit("wpm");
    reveal_strlit("llama");
    assert("gpt2"@[0] != "bert"@[0]);
    assert("gpt2"@.len() != "llama"@.len() && "bert"@.len() != "llama"@.len() && "wpm"@.len()
        != "llama"@.len());
}

// ---------------------------------------------------------------------------------- chats

/// What opens a reply is how every reply starts.
pub proof fn a_reply_starts_as_it_is_opened(b: Builtin, content: Seq<char>)
    ensures
        crate::text::begins_with(turn(b, "assistant"@, content), opening(b)),
{
    reveal_strlit("assistant");
    reveal_strlit("user");
    assert("assistant"@.len() != "user"@.len());
    let t = turn(b, "assistant"@, content);
    match b {
        Builtin::ChatMl => {
            reveal_strlit("<|im_start|>");
            reveal_strlit("\n");
            reveal_strlit("<|im_start|>assistant\n");
            assert(opening(b) =~= "<|im_start|>"@ + "assistant"@ + "\n"@);
        },
        Builtin::Llama3 => {
            reveal_strlit("<|start_header_id|>");
            reveal_strlit("<|end_header_id|>\n\n");
            reveal_strlit("<|start_header_id|>assistant<|end_header_id|>\n\n");
            assert(opening(b) =~= "<|start_header_id|>"@ + "assistant"@ + "<|end_header_id|>\n\n"@);
        },
        Builtin::Gemma => {},
        Builtin::Phi3 => {
            reveal_strlit("<|");
            reveal_strlit("|>\n");
            reveal_strlit("<|assistant|>\n");
            assert(opening(b) =~= "<|"@ + "assistant"@ + "|>\n"@);
        },
        Builtin::Llama2 => {
            reveal_strlit("");
        },
        Builtin::Plain => {
            reveal_strlit("Assistant:");
            reveal_strlit("Assistant: ");
            reveal_strlit("User: ");
        },
    }
    assert(t.subrange(0, opening(b).len() as int) =~= opening(b));
}

/// A chat grows at its end: another message that is not the system's adds its own turn.
pub proof fn a_chat_grows_at_its_end(b: Builtin, m: Seq<(Seq<char>, Seq<char>)>, role: Seq<char>, content: Seq<char>)
    requires
        has_system_role(b) || forall|i: int|
            0 <= i < m.len() ==> role_of(#[trigger] m[i].0) != "system"@,
        has_system_role(b) || role_of(role) != "system"@,
    ensures
        built_in(b, m.push((role, content)), false) == built_in(b, m, false) + turn(
            b,
            role_of(role),
            content,
        ),
        built_in(b, m, true) == built_in(b, m, false) + opening(b),
{
    grows(b, m, (role, content), 0);
    let none = Seq::<char>::empty();
    assert(turns_from(b, m, 0, none) + none =~= turns_from(b, m, 0, none));
    let n = m.push((role, content));
    assert(turns_from(b, n, 0, none) + none =~= turns_from(b, n, 0, none));
}

proof fn grows(b: Builtin, m: Seq<(Seq<char>, Seq<char>)>, x: (Seq<char>, Seq<char>), i: nat)
    requires
        i <= m.len(),
        has_system_role(b) || forall|k: int|
            0 <= k < m.len() ==> role_of(#[trigger] m[k].0) != "system"@,
        has_system_role(b) || role_of(x.0) != "system"@,
    ensures
        turns_from(b, m.push(x), i, Seq::empty()) == turns_from(b, m, i, Seq::empty()) + turn(
            b,
            role_of(x.0),
            x.1,
        ),
    decreases m.len() - i,
{
    let n = m.push(x);
    let none = Seq::<char>::empty();
    if i < m.len() {
        grows(b, m, x, i + 1);
        assert(n[i as int] == m[i as int]);
        let t = turn(b, role_of(m[i as int].0), m[i as int].1);
        let rest = turns_from(b, m, i + 1, none);
        let last = turn(b, role_of(x.0), x.1);
        assert(t + (rest + last) =~= (t + rest) + last);
    } else {
        reveal_with_fuel(turns_from, 2);
        let last = turn(b, role_of(x.0), x.1);
        assert(last + none =~= none + last);
    }
}

/// What a system says where there is no turn for it goes before what comes next.
pub proof fn a_system_text_goes_before_the_next(b: Builtin, said: Seq<char>, role: Seq<char>, content: Seq<char>)
    requires
        !has_system_role(b),
        role_of(role) != "system"@,
        said.len() > 0,
    ensures
        built_in(b, seq![("system"@, said), (role, content)], false) == turn(
            b,
            role_of(role),
            said + "\n\n"@ + content,
        ),
{
    reveal_strlit("system");
    reveal_strlit("developer");
    assert("system"@.len() != "developer"@.len());
    reveal_with_fuel(turns_from, 4);
    let t = turn(b, role_of(role), said + "\n\n"@ + content);
    let none = Seq::<char>::empty();
    assert(t + none + none =~= t);
    assert(t + none =~= t);
}

proof fn put_keeps(s: Seq<u32>, x: u32, y: u32)
    ensures
        put_id(s, x).contains(x),
        s.contains(y) ==> put_id(s, x).contains(y),
    decreases s.len(),
{
    let r = put_id(s, x);
    if s.len() == 0 {
        assert(r[0] == x);
    } else if s.last() == x {
        assert(s[s.len() - 1] == x);
    } else if s.last() < x {
        assert(r[s.len() as int] == x);
        if s.contains(y) {
            let i = choose|i: int| 0 <= i < s.len() && s[i] == y;
            assert(r[i] == y);
        }
    } else {
        put_keeps(s.drop_last(), x, y);
        let q = put_id(s.drop_last(), x);
        let k = choose|k: int| 0 <= k < q.len() && q[k] == x;
        assert(r[k] == x);
        if s.contains(y) {
            let i = choose|i: int| 0 <= i < s.len() && s[i] == y;
            if i == s.len() - 1 {
                assert(r[q.len() as int] == y);
            } else {
                assert(s.drop_last()[i] == y);
                let j = choose|j: int| 0 <= j < q.len() && q[j] == y;
                assert(r[j] == y);
            }
        }
    }
}

proof fn with_token_keeps(v: VocabView, s: Seq<u32>, t: Seq<char>, y: u32)
    ensures
        v.find(t) == Some(y) || s.contains(y) ==> with_token(v, s, t).contains(y),
{
    match v.find(t) {
        Some(id) => {
            put_keeps(s, id, y);
        },
        None => {},
    }
}

/// What ends a turn in any of the formats ends a generation.
pub proof fn ends_of_turns_stop(v: VocabView, id: u32)
    requires
        v.find("<|im_end|>"@) == Some(id) || v.find("<|eot_id|>"@) == Some(id) || v.find(
            "<end_of_turn>"@,
        ) == Some(id) || v.find("<|end|>"@) == Some(id) || v.find("<|endoftext|>"@) == Some(id)
            || v.find("<|end_of_text|>"@) == Some(id) || v.find("<|return|>"@) == Some(id)
            || v.find("<|eom_id|>"@) == Some(id),
    ensures
        stop_ids_of(v).contains(id),
{
    let s0 = ids_sorted(v.eos, v.eos.len());
    let s1 = with_token(v, s0, "<|im_end|>"@);
    let s2 = with_token(v, s1, "<|eot_id|>"@);
    let s3 = with_token(v, s2, "<|end_of_text|>"@);
    let s4 = with_token(v, s3, "<|endoftext|>"@);
    let s5 = with_token(v, s4, "<end_of_turn>"@);
    let s6 = with_token(v, s5, "<|end|>"@);
    let s7 = with_token(v, s6, "<|return|>"@);
    with_token_keeps(v, s0, "<|im_end|>"@, id);
    with_token_keeps(v, s1, "<|eot_id|>"@, id);
    with_token_keeps(v, s2, "<|end_of_text|>"@, id);
    with_token_keeps(v, s3, "<|endoftext|>"@, id);
    with_token_keeps(v, s4, "<end_of_turn>"@, id);
    with_token_keeps(v, s5, "<|end|>"@, id);
    with_token_keeps(v, s6, "<|return|>"@, id);
    with_token_keeps(v, s7, "<|eom_id|>"@, id);
}

} // verus!
