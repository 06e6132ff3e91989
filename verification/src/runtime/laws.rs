//! What a generation promises, as relations between what it is told and what it answers.

use vstd::prelude::*;

use super::generate::{decided, heard, stop_hit, GenView, Step, StopReason};
use super::session::{batch_of, context_of, recent_first, shared_from};
use crate::text::finishes_with;
use crate::tokenizer::decode::detok;

verus! {

proof fn hit_is_first(text: Seq<char>, stops: Seq<Seq<char>>, i: nat)
    ensures
        match stop_hit(text, stops, i) {
            Some(k) => i <= k < stops.len() && stops[k as int].len() > 0 && finishes_with(
                text,
                stops[k as int],
            ),
            None => forall|j: int|
                i <= j < stops.len() ==> (#[trigger] stops[j]).len() == 0 || !finishes_with(
                    text,
                    stops[j],
                ),
        },
    decreases stops.len() - i,
{
    if i < stops.len() && !(stops[i as int].len() > 0 && finishes_with(text, stops[i as int])) {
        hit_is_first(text, stops, i + 1);
    }
}

/// A text that ends in a stop string ends the generation there, without that string.
pub proof fn a_stop_string_is_cut_off(g: GenView, said: bool, wanted: bool, k: int)
    requires
        !said || wanted,
        0 <= k < g.stops.len(),
        g.stops[k].len() > 0,
        finishes_with(g.text, g.stops[k]),
    ensures
        ({
            let (n, s) = decided(g, said, wanted);
            &&& s == Step::Stop(StopReason::StopString)
            &&& exists|j: int|
                0 <= j < g.stops.len() && g.stops[j].len() > 0 && n.text + (#[trigger] g.stops[j])
                    == g.text
            &&& n.generated == g.generated && n.pos == g.pos
        }),
{
    hit_is_first(g.text, g.stops, 0);
    let j = stop_hit(g.text, g.stops, 0)->0 as int;
    let stop = g.stops[j];
    let (n, s) = decided(g, said, wanted);
    assert(n.text + stop =~= g.text);
}

/// What is not wanted any more ends the generation at once, and changes nothing.
pub proof fn an_unwanted_generation_ends(g: GenView)
    ensures
        decided(g, true, false) == (g, Step::Stop(StopReason::Cancelled)),
{
}

/// A token that ends nothing is counted and run at the position that comes next, unless it was the
/// last one asked for or the last one that fits.
pub proof fn a_token_goes_to_the_next_position(g: GenView, said: bool)
    requires
        forall|j: int|
            0 <= j < g.stops.len() ==> (#[trigger] g.stops[j]).len() == 0 || !finishes_with(
                g.text,
                g.stops[j],
            ),
        g.pos <= usize::MAX,
    ensures
        ({
            let (n, s) = decided(g, said, true);
            &&& n.generated == g.generated + 1
            &&& n.text == g.text
            &&& g.generated + 1 >= g.max_tokens ==> s == Step::Stop(StopReason::MaxTokens)
            &&& g.generated + 1 < g.max_tokens && g.pos + 1 >= g.n_ctx ==> s == Step::Stop(
                StopReason::ContextFull,
            )
            &&& g.generated + 1 < g.max_tokens && g.pos + 1 < g.n_ctx ==> s == Step::Run(
                g.pos as usize,
            ) && n.pos == g.pos + 1
        }),
{
    hit_is_first(g.text, g.stops, 0);
}

/// What is heard goes to the end of the text, and what is not complete waits.
pub proof fn what_is_heard_goes_to_the_end(g: GenView, bytes: Seq<u8>)
    ensures
        ({
            let (n, said) = heard(g, bytes);
            &&& n.text == g.text + said
            &&& (said, n.pending) == detok(g.pending + bytes)
            &&& n.pos == g.pos && n.generated == g.generated
        }),
{
}

/// As much of a prompt is reused as agrees with what is there, but never all of it: its last token
/// is run, for its logits.
pub proof fn the_longest_agreeing_start_is_reused(resident: Seq<u32>, tokens: Seq<u32>, i: nat)
    requires
        tokens.len() > 0,
        i <= resident.len(),
        i < tokens.len(),
    ensures
        ({
            let n = shared_from(resident, tokens, i);
            &&& i <= n < tokens.len()
            &&& n <= resident.len()
            &&& forall|j: int| i <= j < n ==> #[trigger] resident[j] == tokens[j]
            &&& n + 1 < tokens.len() && n < resident.len() ==> resident[n as int]
                != tokens[n as int]
        }),
    decreases resident.len() - i,
{
    if i < resident.len() && i + 1 < tokens.len() && resident[i as int] == tokens[i as int] {
        the_longest_agreeing_start_is_reused(resident, tokens, i + 1);
    }
}

/// A batch is one that was asked for, within bounds; so is a context that was not asked for.
pub proof fn sizes_stay_within_bounds(n: usize, trained: usize)
    ensures
        1 <= batch_of(n) <= 4096,
        1 <= n <= 4096 ==> batch_of(n) == n,
        n > 0 ==> context_of(n, trained) == n,
        512 <= context_of(0, trained) <= 8192,
        512 <= trained <= 8192 ==> context_of(0, trained) == trained,
        trained < 512 ==> context_of(0, trained) == 512,
        trained > 8192 ==> context_of(0, trained) == 8192,
{
}

/// The tokens of a prompt that are remembered are its last ones, the newest first.
pub proof fn the_newest_tokens_come_first(prompt: Seq<u32>, n: nat, i: int)
    requires
        0 <= i < n,
        i < prompt.len(),
    ensures
        i < recent_first(prompt, n).len() <= n,
        recent_first(prompt, n)[i] == prompt.reverse()[i],
{
}

} // verus!
