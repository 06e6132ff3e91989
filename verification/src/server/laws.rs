//! What the server promises of requests, as relations between what is asked and what is done.

use vstd::prelude::*;

use super::config::{
    default_model, first_preloaded, merged_model, DefaultsView, EntryView, RegistryView, ResolvedView,
};
use super::openai::{finish_text, part_texts, ChatRequest, ContentPart, Message};
use super::request::{chat_sampling, conversation, has_system, said};
use super::schedule::{free_from, left, Slot};
use crate::runtime::generate::StopReason;
use crate::tokenizer::vocab::opt_text;

verus! {

/// A request gets the lowest region that is free, and none where all are taken.
pub proof fn the_lowest_free_region_is_taken(taken: Seq<usize>, n_seq: nat, i: nat)
    requires
        n_seq <= usize::MAX,
    ensures
        match free_from(taken, n_seq, i) {
            Some(k) => i <= k < n_seq && !taken.contains(k as usize) && forall|j: int|
                i <= j < k ==> taken.contains(#[trigger] (j as usize)),
            None => forall|j: int| i <= j < n_seq ==> taken.contains(#[trigger] (j as usize)),
        },
    decreases n_seq - i,
{
    if i < n_seq && taken.contains(i as usize) {
        the_lowest_free_region_is_taken(taken, n_seq, i + 1);
    }
}

/// Those that are done leave, and the others stay, in their order.
pub proof fn those_that_are_not_done_stay(s: Seq<Slot>, gone: Seq<usize>, i: int)
    requires
        0 <= i < s.len() <= usize::MAX,
    ensures
        !gone.contains(i as usize) ==> left(s, gone, s.len()).contains(s[i]),
        left(s, Seq::empty(), s.len()) == s,
        forall|j: int|
            0 <= j < left(s, gone, s.len()).len() ==> exists|k: int|
                0 <= k < s.len() && !gone.contains(k as usize) && s[k] == #[trigger] left(
                    s,
                    gone,
                    s.len(),
                )[j],
{
    stays(s, gone, s.len(), i);
    all_stay(s, s.len());
    assert(s.take(s.len() as int) =~= s);
    from_before(s, gone, s.len());
}

proof fn stays(s: Seq<Slot>, gone: Seq<usize>, n: nat, i: int)
    requires
        n <= s.len(),
        0 <= i < n,
    ensures
        !gone.contains(i as usize) ==> left(s, gone, n).contains(s[i]),
    decreases n,
{
    let r = left(s, gone, n);
    if i < n - 1 {
        stays(s, gone, (n - 1) as nat, i);
        let q = left(s, gone, (n - 1) as nat);
        if q.contains(s[i]) {
            let k = choose|k: int| 0 <= k < q.len() && q[k] == s[i];
            assert(r[k] == s[i]);
        }
    } else if !gone.contains(i as usize) {
        assert(r.last() == s[i]);
    }
}

proof fn all_stay(s: Seq<Slot>, n: nat)
    requires
        n <= s.len(),
    ensures
        left(s, Seq::empty(), n) == s.take(n as int),
    decreases n,
{
    if n > 0 {
        all_stay(s, (n - 1) as nat);
        assert(s.take(n - 1).push(s[n - 1]) =~= s.take(n as int));
    } else {
        assert(s.take(0) =~= Seq::empty());
    }
}

proof fn from_before(s: Seq<Slot>, gone: Seq<usize>, n: nat)
    requires
        n <= s.len(),
    ensures
        forall|j: int|
            0 <= j < left(s, gone, n).len() ==> exists|k: int|
                0 <= k < n && !gone.contains(k as usize) && s[k] == #[trigger] left(s, gone, n)[j],
    decreases n,
{
    if n > 0 {
        from_before(s, gone, (n - 1) as nat);
        let r = left(s, gone, n);
        let q = left(s, gone, (n - 1) as nat);
        assert forall|j: int| 0 <= j < r.len() implies exists|k: int|
            0 <= k < n && !gone.contains(k as usize) && s[k] == #[trigger] r[j] by {
            if j < q.len() {
                assert(r[j] == q[j]);
                let k = choose|k: int|
                    0 <= k < n - 1 && !gone.contains(k as usize) && s[k] == #[trigger] q[j];
                assert(s[k] == r[j]);
            } else {
                assert(s[n - 1] == r[j]);
            }
        }
    }
}

/// What a request asks for is done; where it says nothing, what the model is set to.
pub proof fn a_request_is_sampled_as_it_asks(q: ChatRequest, m: ResolvedView)
    ensures
        ({
            let p = chat_sampling(q, m);
            &&& q.temperature matches Some(t) ==> p.temperature == t
            &&& q.temperature is None ==> p.temperature == m.temperature
            &&& q.top_k matches Some(k) ==> p.top_k == k
            &&& q.top_k is None ==> p.top_k == m.top_k
            &&& q.top_p matches Some(t) ==> p.top_p == t
            &&& q.top_p is None ==> p.top_p == m.top_p
            &&& q.min_p matches Some(t) ==> p.min_p == t
            &&& q.min_p is None ==> p.min_p == m.min_p
            &&& q.repeat_penalty matches Some(t) ==> p.repeat_penalty == t
            &&& q.repeat_penalty is None ==> p.repeat_penalty == m.repeat_penalty
            &&& q.presence_penalty matches Some(t) ==> p.presence_penalty == t
            &&& q.presence_penalty is None ==> p.presence_penalty == 0
            &&& q.frequency_penalty matches Some(t) ==> p.frequency_penalty == t
            &&& q.frequency_penalty is None ==> p.frequency_penalty == 0
            &&& q.seed matches Some(t) ==> p.seed == t
        }),
{
}

/// What the model's settings tell the system to say goes before the messages, unless those have
/// a system's message of their own; they all follow, in their order.
pub proof fn a_system_prompt_does_not_override(system: Option<Seq<char>>, m: Seq<Message>, i: int)
    requires
        0 <= i < m.len(),
    ensures
        ({
            let c = conversation(system, m);
            let own = exists|k: int| 0 <= k < m.len() && (#[trigger] m[k]).role@ == "system"@;
            let told = (m[i].role@, m[i].said());
            &&& system is None || own ==> c.len() == m.len() && c[i] == told
            &&& system is Some && !own ==> c.len() == m.len() + 1 && c[0] == ("system"@, system->0)
                && c[i + 1] == told
        }),
{
    assert(said(m)[i] == (m[i].role@, m[i].said()));
    if system is Some && !has_system(m) {
        let c = conversation(system, m);
        assert(c[i + 1] == said(m)[i]);
    }
}

/// A reply that was cut short says so, and any other that it came to its end.
pub proof fn a_reply_says_whether_it_was_cut_short(r: StopReason)
    ensures
        (finish_text(r) == "length"@) == (r == StopReason::MaxTokens || r
            == StopReason::ContextFull),
        (finish_text(r) == "stop"@) == !(r == StopReason::MaxTokens || r
            == StopReason::ContextFull),
{
    reveal_strlit("length");
    reveal_strlit("stop");
    assert("length"@.len() != "stop"@.len());
}

/// The texts of a message's parts are all there, in their order, and nothing else is.
pub proof fn only_texts_of_parts_are_said(p: Seq<ContentPart>, n: nat)
    requires
        n < p.len(),
    ensures
        opt_text(p[n as int].text) matches Some(t) ==> part_texts(p, n + 1) == part_texts(p, n).push(
            t,
        ),
        opt_text(p[n as int].text) is None ==> part_texts(p, n + 1) == part_texts(p, n),
        part_texts(p, 0) == Seq::<Seq<char>>::empty(),
{
}

/// A model's own settings win over those for all models, and those over what stands where neither
/// says anything.
pub proof fn every_setting_is_looked_up_twice(name: Seq<char>, e: EntryView, d: DefaultsView)
    ensures
        ({
            let r = merged_model(name, e, d);
            let s = e.settings;
            &&& r.name == name && r.path == e.path && r.preload == e.preload
            &&& r.ctx == first_said(s.ctx, d.ctx, 0)
            &&& r.batch == first_said(s.batch, d.batch, 256)
            &&& r.parallel == first_said(s.parallel, d.parallel, 4)
            &&& r.threads == first_said(s.threads, d.threads, 0)
            &&& r.temperature == first_said(s.temperature, d.temperature, 0x3f33_3333)
            &&& r.top_k == first_said(s.top_k, d.top_k, 40)
            &&& r.top_p == first_said(s.top_p, d.top_p, 0x3f66_6666)
            &&& r.min_p == first_said(s.min_p, d.min_p, 0x3d4c_cccd)
            &&& r.repeat_penalty == first_said(s.repeat_penalty, d.repeat_penalty, 0x3f8c_cccd)
            &&& r.max_tokens == first_said(s.max_tokens, d.max_tokens, 512)
            &&& s.device matches Some(x) ==> r.device == x
            &&& s.device is None && d.device is Some ==> r.device == d.device->0
            &&& s.device is None && d.device is None ==> r.device == "auto"@
            &&& s.kv_type matches Some(x) ==> r.kv_type == x
            &&& s.kv_type is None && d.kv_type is Some ==> r.kv_type == d.kv_type->0
            &&& s.kv_type is None && d.kv_type is None ==> r.kv_type == "f16"@
            &&& s.system is Some ==> r.system == s.system
            &&& s.system is None ==> r.system == d.system
            &&& s.enable_thinking is Some ==> r.enable_thinking == s.enable_thinking
            &&& s.enable_thinking is None ==> r.enable_thinking == d.enable_thinking
        }),
{
}

/// The first of two that says anything, else a number.
pub open spec fn first_said<T>(own: Option<T>, all: Option<T>, other: T) -> T {
    if own is Some {
        own->0
    } else if all is Some {
        all->0
    } else {
        other
    }
}

/// Without a name the first model that is to be loaded ahead is meant, and where none is, the first
/// of all.
pub proof fn a_model_loaded_ahead_is_the_default(r: RegistryView, i: int)
    requires
        0 <= i < r.models.len(),
    ensures
        r.models[i].1.preload && (forall|j: int|
            0 <= j < i ==> !(#[trigger] r.models[j]).1.preload) ==> default_model(r) == Some(
            r.models[i].0,
        ),
        (forall|j: int| 0 <= j < r.models.len() ==> !(#[trigger] r.models[j]).1.preload)
            ==> default_model(r) == Some(r.models[0].0),
{
    preloaded_is_first(r.models, 0);
}

proof fn preloaded_is_first(m: Seq<(Seq<char>, EntryView)>, i: nat)
    ensures
        match first_preloaded(m, i) {
            Some(k) => i <= k < m.len() && m[k as int].1.preload && forall|j: int|
                i <= j < k ==> !(#[trigger] m[j]).1.preload,
            None => forall|j: int| i <= j < m.len() ==> !(#[trigger] m[j]).1.preload,
        },
    decreases m.len() - i,
{
    if i < m.len() && !m[i as int].1.preload {
        preloaded_is_first(m, i + 1);
    }
}

} // verus!
