//! Byte-level BPE pre-tokenization.
//!
//! Before merging, BPE vocabularies split text into words with a fixed regex, and the regex
//! differs per model family. Getting it wrong does not error: it silently produces a
//! different, still-valid-looking token sequence, and the model's output degrades in ways that
//! are easy to mistake for a bad prompt.

use vstd::prelude::*;
use vstd::string::*;

use crate::text::{
    begins_with, chars_of, has_prefix, is_alpha, is_num, is_white, joined, lower_of, same,
    string_of_range, texts,
};

verus! {

/// The split rules a given `tokenizer.ggml.pre` value selects.
#[derive(Debug, Clone, Copy)]
pub struct Rules {
    /// Contractions match regardless of case (Llama-3, Qwen-2 and descendants).
    pub ci_contractions: bool,
    /// Letters may absorb any single preceding non-letter, non-digit, non-newline character.
    /// When false, only a space may be absorbed.
    pub letters_absorb_any: bool,
    /// Maximum digits per token. Qwen splits digits singly, Llama-3 in threes, GPT-2 takes a
    /// whole run.
    pub digit_group: usize,
    /// A symbol run may swallow the newlines that follow it.
    pub symbols_take_newlines: bool,
}

pub open spec fn gpt2() -> Rules {
    Rules {
        ci_contractions: false,
        letters_absorb_any: false,
        digit_group: usize::MAX,
        symbols_take_newlines: false,
    }
}

/// The rules of Llama-3 and Qwen-2, which differ in the digits a token takes.
pub open spec fn newer(digit_group: usize) -> Rules {
    Rules {
        ci_contractions: true,
        letters_absorb_any: true,
        digit_group,
        symbols_take_newlines: true,
    }
}

pub open spec fn like_llama3(pre: Seq<char>) -> bool {
    pre == "llama3"@ || pre == "llama-v3"@ || pre == "llama-bpe"@ || pre == "falcon3"@ || pre
        == "pixtral"@ || pre == "seed-coder"@
}

pub open spec fn like_qwen2(pre: Seq<char>) -> bool {
    pre == "qwen2"@ || pre == "deepseek-llm"@ || pre == "deepseek-coder"@ || pre == "deepseek-v3"@
        || pre == "jina-v2-code"@ || pre == "smaug-bpe"@ || pre == "chatglm-bpe"@ || pre
        == "minerva-7b"@ || pre == "hunyuan"@ || pre == "exaone"@ || pre == "gpt-4o"@ || pre
        == "superbpe"@ || pre == "kimi-k2"@ || pre == "llama4"@ || pre == "bailingmoe"@ || pre
        == "a.x-4.0"@
}

/// GPT-2's pattern is the common ancestor and the right default: it is what an unrecognised
/// `pre` value most likely means.
pub open spec fn rules_of(pre: Seq<char>) -> Rules {
    if like_llama3(pre) {
        newer(3)
    } else if like_qwen2(pre) {
        newer(1)
    } else {
        gpt2()
    }
}

pub fn rules_for(pre: &str) -> (r: Rules)
    ensures
        r == rules_of(pre@),
{
    if same(pre, "llama3") || same(pre, "llama-v3") || same(pre, "llama-bpe") || same(
        pre,
        "falcon3",
    ) || same(pre, "pixtral") || same(pre, "seed-coder") {
        return Rules {
            ci_contractions: true,
            letters_absorb_any: true,
            digit_group: 3,
            symbols_take_newlines: true,
        };
    }
    if same(pre, "qwen2") || same(pre, "deepseek-llm") || same(pre, "deepseek-coder") || same(
        pre,
        "deepseek-v3",
    ) || same(pre, "jina-v2-code") || same(pre, "smaug-bpe") || same(pre, "chatglm-bpe") || same(
        pre,
        "minerva-7b",
    ) || same(pre, "hunyuan") || same(pre, "exaone") || same(pre, "gpt-4o") || same(
        pre,
        "superbpe",
    ) || same(pre, "kimi-k2") || same(pre, "llama4") || same(pre, "bailingmoe") || same(
        pre,
        "a.x-4.0",
    ) {
        return Rules {
            ci_contractions: true,
            letters_absorb_any: true,
            digit_group: 1,
            symbols_take_newlines: true,
        };
    }
    Rules {
        ci_contractions: false,
        letters_absorb_any: false,
        digit_group: usize::MAX,
        symbols_take_newlines: false,
    }
}

pub fn is_letter(c: char) -> (r: bool)
    ensures
        r == is_alpha(c),
{
    c.is_alphabetic()
}

pub fn is_digit(c: char) -> (r: bool)
    ensures
        r == is_num(c),
{
    c.is_numeric()
}

pub fn is_ws(c: char) -> (r: bool)
    ensures
        r == is_white(c),
{
    c.is_whitespace()
}

pub open spec fn is_break(c: char) -> bool {
    c == '\r' || c == '\n'
}

/// Neither white space nor a letter nor a digit.
pub open spec fn is_symbol(c: char) -> bool {
    !is_white(c) && !is_alpha(c) && !is_num(c)
}

/// Where the run of characters with `p` that starts at `j` ends.
pub open spec fn run_end(c: Seq<char>, j: nat, p: spec_fn(char) -> bool) -> nat
    decreases c.len() - j,
{
    if j < c.len() && p(c[j as int]) {
        run_end(c, j + 1, p)
    } else {
        j
    }
}

pub proof fn run_end_bound(c: Seq<char>, j: nat, p: spec_fn(char) -> bool)
    requires
        j <= c.len(),
    ensures
        j <= run_end(c, j, p) <= c.len(),
    decreases c.len() - j,
{
    if j < c.len() && p(c[j as int]) {
        run_end_bound(c, j + 1, p);
    }
}

/// The characters of the contraction that `hay` begins with.
pub open spec fn contraction(hay: Seq<char>) -> Option<nat> {
    if begins_with(hay, "'re"@) || begins_with(hay, "'ve"@) || begins_with(hay, "'ll"@) {
        Some(3)
    } else if begins_with(hay, "'s"@) || begins_with(hay, "'t"@) || begins_with(hay, "'m"@)
        || begins_with(hay, "'d"@) {
        Some(2)
    } else {
        None
    }
}

/// Up to three characters from `i` on.
pub open spec fn three_from(c: Seq<char>, i: nat) -> Seq<char> {
    c.subrange(
        i as int,
        if i + 3 <= c.len() {
            i as int + 3
        } else {
            c.len() as int
        },
    )
}

/// The characters of the contraction at `i`, where there is one and `c` has as many left.
pub open spec fn contraction_at(c: Seq<char>, i: nat, r: Rules) -> Option<nat> {
    if c[i as int] != '\'' {
        None
    } else {
        let rest = three_from(c, i);
        match contraction(
            if r.ci_contractions {
                lower_of(rest)
            } else {
                rest
            },
        ) {
            Some(n) => if i + n <= c.len() {
                Some(n)
            } else {
                None
            },
            None => None,
        }
    }
}

/// Whether letters may absorb the character in front of them.
pub open spec fn absorbed(c: char, r: Rules) -> bool {
    if r.letters_absorb_any {
        !is_alpha(c) && !is_num(c) && !is_break(c)
    } else {
        c == ' '
    }
}

pub open spec fn letters_at(c: Seq<char>, i: nat, r: Rules) -> Option<nat> {
    let start = if absorbed(c[i as int], r) {
        i + 1
    } else {
        i
    };
    let end = run_end(c, start, |x: char| is_alpha(x));
    if end == start {
        None
    } else {
        Some((end - i) as nat)
    }
}

/// Where the digits from `j` on end, of which at most `n` count.
pub open spec fn digits_end(c: Seq<char>, j: nat, n: nat) -> nat
    decreases n,
{
    if j < c.len() && is_num(c[j as int]) && n > 0 {
        digits_end(c, j + 1, (n - 1) as nat)
    } else {
        j
    }
}

pub open spec fn digits_at(c: Seq<char>, i: nat, r: Rules) -> Option<nat> {
    let start = if r.digit_group == usize::MAX && c[i as int] == ' ' {
        i + 1
    } else {
        i
    };
    let end = digits_end(c, start, r.digit_group as nat);
    if end == start {
        None
    } else {
        Some((end - i) as nat)
    }
}

pub open spec fn symbols_at(c: Seq<char>, i: nat, r: Rules) -> Option<nat> {
    let start = if c[i as int] == ' ' && i + 1 < c.len() && is_symbol(c[i as int + 1]) {
        i + 1
    } else {
        i
    };
    let end = run_end(c, start, |x: char| is_symbol(x));
    if end == start {
        None
    } else if r.symbols_take_newlines {
        Some((run_end(c, end, |x: char| is_break(x)) - i) as nat)
    } else {
        Some((end - i) as nat)
    }
}

/// A white space run that ends in newlines is one token where symbols take newlines;
/// otherwise a run gives its last character to what follows, so that " a" keeps the space
/// with the word.
pub open spec fn whitespace_at(c: Seq<char>, i: nat, r: Rules) -> Option<nat> {
    let flat = run_end(c, i, |x: char| is_white(x) && !is_break(x));
    let end = run_end(c, i, |x: char| is_white(x));
    if !is_white(c[i as int]) {
        None
    } else if r.symbols_take_newlines && flat < c.len() && is_break(c[flat as int]) {
        Some((run_end(c, flat, |x: char| is_break(x)) - i) as nat)
    } else if end < c.len() && end - i > 1 {
        Some((end - i - 1) as nat)
    } else {
        Some((end - i) as nat)
    }
}

/// The length of the piece that starts at `i`.
pub open spec fn piece_at(c: Seq<char>, i: nat, r: Rules) -> nat {
    match contraction_at(c, i, r) {
        Some(n) => n,
        None => match letters_at(c, i, r) {
            Some(n) => n,
            None => match digits_at(c, i, r) {
                Some(n) => n,
                None => match symbols_at(c, i, r) {
                    Some(n) => n,
                    None => match whitespace_at(c, i, r) {
                        Some(n) => n,
                        None => 1,
                    },
                },
            },
        },
    }
}

/// Every piece takes at least one character and none beyond the end.
pub proof fn piece_fits(c: Seq<char>, i: nat, r: Rules)
    requires
        i < c.len(),
    ensures
        1 <= piece_at(c, i, r) <= c.len() - i,
        contraction_at(c, i, r) matches Some(n) ==> 1 <= n <= c.len() - i,
        letters_at(c, i, r) matches Some(n) ==> 1 <= n <= c.len() - i,
        digits_at(c, i, r) matches Some(n) ==> 1 <= n <= c.len() - i,
        symbols_at(c, i, r) matches Some(n) ==> 1 <= n <= c.len() - i,
        whitespace_at(c, i, r) matches Some(n) ==> 1 <= n <= c.len() - i,
{
    let letter = |x: char| is_alpha(x);
    let symbol = |x: char| is_symbol(x);
    let brk = |x: char| is_break(x);
    let flat = |x: char| is_white(x) && !is_break(x);
    let white = |x: char| is_white(x);
    run_end_bound(c, i, letter);
    run_end_bound(c, i + 1, letter);
    digits_end_bound(c, i, r.digit_group as nat);
    digits_end_bound(c, i + 1, r.digit_group as nat);
    run_end_bound(c, i, symbol);
    run_end_bound(c, i + 1, symbol);
    run_end_bound(c, run_end(c, i, symbol), brk);
    run_end_bound(c, run_end(c, i + 1, symbol), brk);
    run_end_bound(c, i, flat);
    run_end_bound(c, i, white);
    if is_white(c[i as int]) {
        run_end_bound(c, i + 1, white);
        let f = run_end(c, i, flat);
        run_end_bound(c, f, brk);
        if f < c.len() && is_break(c[f as int]) {
            run_end_bound(c, f + 1, brk);
        }
    }
}

proof fn digits_end_bound(c: Seq<char>, j: nat, n: nat)
    requires
        j <= c.len(),
    ensures
        j <= digits_end(c, j, n) <= c.len(),
    decreases n,
{
    if j < c.len() && is_num(c[j as int]) && n > 0 {
        digits_end_bound(c, j + 1, (n - 1) as nat);
    }
}

/// The pieces from `i` on.
pub open spec fn pieces_from(c: Seq<char>, i: nat, r: Rules) -> Seq<Seq<char>>
    decreases c.len() - i,
{
    let n = piece_at(c, i, r);
    if i >= c.len() || n == 0 || i + n > c.len() {
        Seq::empty()
    } else {
        seq![c.subrange(i as int, i as int + n)] + pieces_from(c, i + n, r)
    }
}

/// Splitting loses nothing, repeats nothing and makes no empty piece.
pub proof fn pieces_cover_the_text(c: Seq<char>, i: nat, r: Rules)
    requires
        i <= c.len(),
    ensures
        joined(pieces_from(c, i, r), Seq::empty()) == c.skip(i as int),
        forall|k: int|
            0 <= k < pieces_from(c, i, r).len() ==> (#[trigger] pieces_from(c, i, r)[k]).len() > 0,
    decreases c.len() - i,
{
    if i < c.len() {
        piece_fits(c, i, r);
        let n = piece_at(c, i, r);
        let first = c.subrange(i as int, i as int + n);
        let rest = pieces_from(c, i + n, r);
        pieces_cover_the_text(c, i + n, r);
        joined_front(first, rest);
        assert(c.skip(i as int) =~= first + c.skip(i as int + n));
        assert forall|k: int| 0 <= k < pieces_from(c, i, r).len() implies (#[trigger] pieces_from(
            c,
            i,
            r,
        )[k]).len() > 0 by {
            if k > 0 {
                assert(pieces_from(c, i, r)[k] == rest[k - 1]);
            }
        }
    } else {
        assert(c.skip(i as int) =~= Seq::empty());
    }
}

/// The text of pieces is the first one followed by the text of the others.
pub proof fn joined_front(first: Seq<char>, rest: Seq<Seq<char>>)
    ensures
        joined(seq![first] + rest, Seq::empty()) == first + joined(rest, Seq::empty()),
    decreases rest.len(),
{
    let all = seq![first] + rest;
    let none = Seq::<char>::empty();
    if rest.len() == 0 {
        assert(all =~= seq![first]);
        assert(first + none =~= first);
    } else {
        assert(all.drop_last() =~= seq![first] + rest.drop_last());
        joined_front(first, rest.drop_last());
        let head = joined(rest.drop_last(), none);
        assert((first + head) + none + rest.last() =~= first + (head + none + rest.last()));
        if rest.len() == 1 {
            assert(rest.drop_last() =~= Seq::empty());
            assert(head + none + rest.last() =~= rest.last());
        }
    }
}

pub fn match_contraction(c: &Vec<char>, i: usize, r: Rules) -> (n: Option<usize>)
    requires
        i < c@.len(),
    ensures
        contraction_at(c@, i as nat, r) == match n {
            Some(x) => Some(x as nat),
            None => None,
        },
{
    if c[i] != '\'' {
        return None;
    }
    let len = c.len();
    let end = if len - i >= 3 {
        i + 3
    } else {
        len
    };
    let rest = string_of_range(c.as_slice(), i, end);
    assert(rest@ =~= three_from(c@, i as nat));
    let hay = if r.ci_contractions {
        rest.as_str().to_lowercase()
    } else {
        rest
    };
    let hay = hay.as_str();
    if has_prefix(hay, "'re") || has_prefix(hay, "'ve") || has_prefix(hay, "'ll") {
        if len - i >= 3 {
            return Some(3);
        }
        return None;
    }
    if has_prefix(hay, "'s") || has_prefix(hay, "'t") || has_prefix(hay, "'m") || has_prefix(
        hay,
        "'d",
    ) {
        if len - i >= 2 {
            return Some(2);
        }
    }
    None
}

pub fn match_letters(c: &Vec<char>, i: usize, r: Rules) -> (n: Option<usize>)
    requires
        i < c@.len(),
    ensures
        letters_at(c@, i as nat, r) == match n {
            Some(x) => Some(x as nat),
            None => None,
        },
{
    let len = c.len();
    let absorbs = if r.letters_absorb_any {
        !is_letter(c[i]) && !is_digit(c[i]) && c[i] != '\r' && c[i] != '\n'
    } else {
        c[i] == ' '
    };
    let start = if absorbs {
        i + 1
    } else {
        i
    };
    let ghost p = |x: char| is_alpha(x);
    let mut j: usize = start;
    while j < c.len() && is_letter(c[j])
        invariant
            start <= j <= c@.len(),
            p == (|x: char| is_alpha(x)),
            run_end(c@, start as nat, p) == run_end(c@, j as nat, p),
        decreases c@.len() - j,
    {
        j = j + 1;
    }
    if j == start {
        return None;
    }
    Some(j - i)
}

pub fn match_digits(c: &Vec<char>, i: usize, r: Rules) -> (n: Option<usize>)
    requires
        i < c@.len(),
    ensures
        digits_at(c@, i as nat, r) == match n {
            Some(x) => Some(x as nat),
            None => None,
        },
{
    let len = c.len();
    let start = if r.digit_group == usize::MAX && c[i] == ' ' {
        i + 1
    } else {
        i
    };
    let mut j: usize = start;
    while j < c.len() && is_digit(c[j]) && j - start < r.digit_group
        invariant
            start <= j <= c@.len(),
            j - start <= r.digit_group,
            digits_end(c@, start as nat, r.digit_group as nat) == digits_end(
                c@,
                j as nat,
                (r.digit_group - (j - start)) as nat,
            ),
        decreases c@.len() - j,
    {
        j = j + 1;
    }
    if j == start {
        return None;
    }
    Some(j - i)
}

/// Where the line breaks from `from` on end.
fn breaks_end(c: &Vec<char>, from: usize) -> (j: usize)
    requires
        from <= c@.len(),
    ensures
        j == run_end(c@, from as nat, |x: char| is_break(x)),
        from <= j <= c@.len(),
{
    let ghost p = |x: char| is_break(x);
    let mut j: usize = from;
    while j < c.len() && (c[j] == '\r' || c[j] == '\n')
        invariant
            from <= j <= c@.len(),
            p == (|x: char| is_break(x)),
            run_end(c@, from as nat, p) == run_end(c@, j as nat, p),
        decreases c@.len() - j,
    {
        j = j + 1;
    }
    j
}

pub fn match_symbols(c: &Vec<char>, i: usize, r: Rules) -> (n: Option<usize>)
    requires
        i < c@.len(),
    ensures
        symbols_at(c@, i as nat, r) == match n {
            Some(x) => Some(x as nat),
            None => None,
        },
{
    let len = c.len();
    let start = if c[i] == ' ' && i + 1 < c.len() && !is_ws(c[i + 1]) && !is_letter(c[i + 1])
        && !is_digit(c[i + 1]) {
        i + 1
    } else {
        i
    };
    let ghost p = |x: char| is_symbol(x);
    let mut j: usize = start;
    while j < c.len() && !is_ws(c[j]) && !is_letter(c[j]) && !is_digit(c[j])
        invariant
            start <= j <= c@.len(),
            p == (|x: char| is_symbol(x)),
            run_end(c@, start as nat, p) == run_end(c@, j as nat, p),
        decreases c@.len() - j,
    {
        j = j + 1;
    }
    if j == start {
        return None;
    }
    if r.symbols_take_newlines {
        return Some(breaks_end(c, j) - i);
    }
    Some(j - i)
}

pub fn match_whitespace(c: &Vec<char>, i: usize, r: Rules) -> (n: Option<usize>)
    requires
        i < c@.len(),
    ensures
        whitespace_at(c@, i as nat, r) == match n {
            Some(x) => Some(x as nat),
            None => None,
        },
{
    if !is_ws(c[i]) {
        return None;
    }
    let ghost flat = |x: char| is_white(x) && !is_break(x);
    let mut j: usize = i;
    while j < c.len() && is_ws(c[j]) && c[j] != '\r' && c[j] != '\n'
        invariant
            i <= j <= c@.len(),
            flat == (|x: char| is_white(x) && !is_break(x)),
            run_end(c@, i as nat, flat) == run_end(c@, j as nat, flat),
        decreases c@.len() - j,
    {
        j = j + 1;
    }
    if r.symbols_take_newlines && j < c.len() && (c[j] == '\r' || c[j] == '\n') {
        return Some(breaks_end(c, j) - i);
    }
    let ghost white = |x: char| is_white(x);
    let mut k: usize = i;
    while k < c.len() && is_ws(c[k])
        invariant
            i <= k <= c@.len(),
            white == (|x: char| is_white(x)),
            run_end(c@, i as nat, white) == run_end(c@, k as nat, white),
        decreases c@.len() - k,
    {
        k = k + 1;
    }
    if k < c.len() && k - i > 1 {
        return Some(k - i - 1);
    }
    Some(k - i)
}

/// The length of the piece that starts at `i`.
fn match_piece(c: &Vec<char>, i: usize, r: Rules) -> (n: usize)
    requires
        i < c@.len(),
    ensures
        n == piece_at(c@, i as nat, r),
        1 <= n <= c@.len() - i,
{
    proof {
        piece_fits(c@, i as nat, r);
    }
    if let Some(n) = match_contraction(c, i, r) {
        return n;
    }
    if let Some(n) = match_letters(c, i, r) {
        return n;
    }
    if let Some(n) = match_digits(c, i, r) {
        return n;
    }
    if let Some(n) = match_symbols(c, i, r) {
        return n;
    }
    if let Some(n) = match_whitespace(c, i, r) {
        return n;
    }
    1
}

/// Splits `text` into the pieces BPE merges independently.
pub fn split(pre: &str, text: &str) -> (out: Vec<String>)
    ensures
        texts(out@) == pieces_from(text@, 0, rules_of(pre@)),
        joined(texts(out@), Seq::empty()) == text@,
{
    let r = rules_for(pre);
    let c = chars_of(text);
    let ghost all = pieces_from(c@, 0, r);
    let mut out: Vec<String> = Vec::new();
    let mut i: usize = 0;
    assert(texts(out@) + all =~= all);
    while i < c.len()
        invariant
            i <= c@.len(),
            all == texts(out@) + pieces_from(c@, i as nat, r),
        decreases c@.len() - i,
    {
        let n = match_piece(&c, i, r);
        let ghost before = texts(out@);
        let s = string_of_range(c.as_slice(), i, i + n);
        out.push(s);
        assert(texts(out@) =~= before.push(s@));
        assert(before + (seq![s@] + pieces_from(c@, (i + n) as nat, r)) =~= texts(out@)
            + pieces_from(c@, (i + n) as nat, r));
        i = i + n;
    }
    proof {
        assert(pieces_from(c@, i as nat, r) =~= Seq::empty());
        assert(texts(out@) =~= all);
        pieces_cover_the_text(c@, 0, r);
        assert(c@.skip(0) =~= text@);
    }
    out
}

} // verus!
