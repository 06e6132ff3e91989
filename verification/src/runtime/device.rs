//! Device selection.
//!
//! Backends are fallible at run time, so selection is a sequence of attempts that ends at the
//! CPU. A GPU that fails to initialize downgrades with a message rather than aborting the run:
//! an engine that refuses to start because a driver is missing is less useful than a slower one
//! that starts.

use vstd::prelude::*;
use vstd::string::*;

use crate::error::{Error, ErrorView};
use crate::text::{
    ascii_lower, cat2, cat3, chars_of, debug_text, dec, decimal, digit, index_from_is_first,
    index_of, is_white, join_text, joined, occurs_at, own, position_from, quoted, range_of, same,
    string_of, texts, trim_chars, trimmed, trimmed_end, trimmed_start,
};

verus! {

#[derive(Debug, Clone, Copy, PartialEq, Eq, Structural)]
pub enum DeviceSelector {
    Auto,
    Cpu,
    Cuda(Option<u32>),
    Vulkan(Option<u32>),
}

pub open spec fn all_lower(s: Seq<char>) -> Seq<char> {
    Seq::new(s.len(), |i: int| ascii_lower(s[i]))
}

/// The number that the digits from `i` on give behind `acc`, where it fits into 32 bits.
pub open spec fn digits_from(s: Seq<char>, i: nat, acc: int) -> Option<u32>
    decreases s.len() - i,
{
    if i >= s.len() {
        Some(acc as u32)
    } else if !('0' <= s[i as int] <= '9') {
        None
    } else {
        let next = acc * 10 + (s[i as int] as int - '0' as int);
        if next > u32::MAX {
            None
        } else {
            digits_from(s, i + 1, next)
        }
    }
}

/// A decimal number of 32 bits, with a plus sign allowed in front.
pub open spec fn number_of(s: Seq<char>) -> Option<u32> {
    if s.len() == 0 {
        None
    } else if s.len() > 1 && s[0] == '+' {
        digits_from(s, 1, 0)
    } else {
        digits_from(s, 0, 0)
    }
}

pub open spec fn selector_of(kind: Seq<char>, index: Option<u32>) -> Result<
    DeviceSelector,
    ErrorView,
> {
    if kind == "auto"@ || kind == ""@ {
        Ok(DeviceSelector::Auto)
    } else if kind == "cpu"@ {
        Ok(DeviceSelector::Cpu)
    } else if kind == "cuda"@ || kind == "nvidia"@ {
        Ok(DeviceSelector::Cuda(index))
    } else if kind == "vulkan"@ || kind == "vk"@ {
        Ok(DeviceSelector::Vulkan(index))
    } else {
        Err(
            ErrorView::NoDevice(
                "unknown device "@ + quoted(kind)
                    + "; expected auto, cpu, cuda[:N] or vulkan[:N]"@,
            ),
        )
    }
}

/// The device that a text selects: a kind, and behind a colon an index.
pub open spec fn parse_selector(text: Seq<char>) -> Result<DeviceSelector, ErrorView> {
    let s = all_lower(trimmed(text));
    match index_of(s, seq![':']) {
        Some(at) => {
            let i = s.skip(at as int + 1);
            match number_of(i) {
                Some(n) => selector_of(s.take(at as int), Some(n)),
                None => Err(ErrorView::NoDevice(quoted(i) + " is not a device index"@)),
            }
        },
        None => selector_of(s, None),
    }
}

fn lower(c: &Vec<char>) -> (r: Vec<char>)
    ensures
        r@ == all_lower(c@),
{
    let mut out: Vec<char> = Vec::new();
    let mut i: usize = 0;
    while i < c.len()
        invariant
            i <= c@.len(),
            out@ =~= all_lower(c@).take(i as int),
        decreases c@.len() - i,
    {
        let x = c[i];
        let y = if 'A' <= x && x <= 'Z' {
            (x as u8 + 32) as char
        } else {
            x
        };
        assert(y == ascii_lower(x));
        out.push(y);
        i = i + 1;
    }
    assert(all_lower(c@).take(i as int) =~= all_lower(c@));
    out
}

fn parse_number(c: &Vec<char>) -> (r: Option<u32>)
    ensures
        r == number_of(c@),
{
    if c.len() == 0 {
        return None;
    }
    let mut i: usize = if c.len() > 1 && c[0] == '+' {
        1
    } else {
        0
    };
    let mut acc: u64 = 0;
    while i < c.len()
        invariant
            i <= c@.len(),
            acc <= u32::MAX,
            number_of(c@) == digits_from(c@, i as nat, acc as int),
        decreases c@.len() - i,
    {
        let x = c[i];
        if !('0' <= x && x <= '9') {
            return None;
        }
        acc = acc * 10 + (x as u64 - '0' as u64);
        if acc > u32::MAX as u64 {
            return None;
        }
        i = i + 1;
    }
    Some(acc as u32)
}

fn select(kind: &str, index: Option<u32>) -> (r: Result<DeviceSelector, Error>)
    ensures
        match selector_of(kind@, index) {
            Ok(s) => r == Ok::<DeviceSelector, Error>(s),
            Err(e) => r is Err && r->Err_0@ == e,
        },
{
    if same(kind, "auto") || same(kind, "") {
        Ok(DeviceSelector::Auto)
    } else if same(kind, "cpu") {
        Ok(DeviceSelector::Cpu)
    } else if same(kind, "cuda") || same(kind, "nvidia") {
        Ok(DeviceSelector::Cuda(index))
    } else if same(kind, "vulkan") || same(kind, "vk") {
        Ok(DeviceSelector::Vulkan(index))
    } else {
        Err(
            Error::NoDevice(
                cat3(
                    "unknown device ",
                    debug_text(kind).as_str(),
                    "; expected auto, cpu, cuda[:N] or vulkan[:N]",
                ),
            ),
        )
    }
}

pub open spec fn selector_text(s: DeviceSelector) -> Seq<char> {
    match s {
        DeviceSelector::Auto => "auto"@,
        DeviceSelector::Cpu => "cpu"@,
        DeviceSelector::Cuda(Some(i)) => "cuda:"@ + dec(i as nat),
        DeviceSelector::Cuda(None) => "cuda"@,
        DeviceSelector::Vulkan(Some(i)) => "vulkan:"@ + dec(i as nat),
        DeviceSelector::Vulkan(None) => "vulkan"@,
    }
}

impl DeviceSelector {
    /// The device that a text selects.
    pub fn parse(text: &str) -> (r: Result<DeviceSelector, Error>)
        ensures
            match parse_selector(text@) {
                Ok(s) => r == Ok::<DeviceSelector, Error>(s),
                Err(e) => r is Err && r->Err_0@ == e,
            },
    {
        let c = lower(&trim_chars(chars_of(text).as_slice()));
        let mut colon: Vec<char> = Vec::new();
        colon.push(':');
        assert(colon@ =~= seq![':']);
        match position_from(c.as_slice(), colon.as_slice(), 0) {
            Some(at) => {
                proof {
                    index_from_is_first(c@, seq![':'], 0);
                }
                let n = c.len();
                let head = range_of(c.as_slice(), 0, at);
                assert(head@ =~= c@.take(at as int));
                let tail = range_of(c.as_slice(), at + 1, n);
                assert(tail@ =~= c@.skip(at + 1));
                match parse_number(&tail) {
                    Some(i) => select(string_of(head.as_slice()).as_str(), Some(i)),
                    None => {
                        let t = string_of(tail.as_slice());
                        Err(
                            Error::NoDevice(
                                cat2(debug_text(t.as_str()).as_str(), " is not a device index"),
                            ),
                        )
                    },
                }
            },
            None => select(string_of(c.as_slice()).as_str(), None),
        }
    }

    pub fn text(&self) -> (r: String)
        ensures
            r@ == selector_text(*self),
    {
        match self {
            DeviceSelector::Auto => own("auto"),
            DeviceSelector::Cpu => own("cpu"),
            DeviceSelector::Cuda(Some(i)) => cat2("cuda:", decimal(*i as u64).as_str()),
            DeviceSelector::Cuda(None) => own("cuda"),
            DeviceSelector::Vulkan(Some(i)) => cat2("vulkan:", decimal(*i as u64).as_str()),
            DeviceSelector::Vulkan(None) => own("vulkan"),
        }
    }
}

proof fn digits_read_back(n: nat, rest: Seq<char>)
    requires
        n <= u32::MAX,
    ensures
        digits_from(dec(n) + rest, 0, 0) == digits_from(dec(n) + rest, dec(n).len(), n as int),
        dec(n).len() > 0,
        forall|i: int| 0 <= i < dec(n).len() ==> '0' <= #[trigger] dec(n)[i] <= '9',
    decreases n,
{
    let s = dec(n) + rest;
    if n >= 10 {
        let more = seq![digit(n % 10)] + rest;
        digits_read_back(n / 10, more);
        assert(s =~= dec(n / 10) + more);
        assert(s[dec(n / 10).len() as int] == digit(n % 10));
    } else {
        assert(s[0] == digit(n));
    }
}

/// A text that does not begin or end in white space, and is all lower case, is taken as it is.
proof fn plain_text_is_taken(s: Seq<char>)
    requires
        s.len() > 0,
        forall|i: int| 0 <= i < s.len() ==> 0x21 <= (#[trigger] s[i]) as u32 && (s[i] as u32) < 0x80
            && !('A' <= s[i] <= 'Z'),
    ensures
        all_lower(trimmed(s)) == s,
{
    assert(trimmed_start(s) == s);
    assert(trimmed_end(s) == s);
    assert(all_lower(s) =~= s);
}

proof fn kind_without_index(s: Seq<char>)
    requires
        forall|i: int| 0 <= i < s.len() ==> #[trigger] s[i] != ':',
    ensures
        index_of(s, seq![':']) is None,
{
    index_from_is_first(s, seq![':'], 0);
    match index_of(s, seq![':']) {
        Some(k) => {
            assert(s.subrange(k as int, k as int + 1)[0] == s[k as int]);
        },
        None => {},
    }
}

proof fn kind_with_index(kind: Seq<char>, n: u32)
    requires
        forall|i: int| 0 <= i < kind.len() ==> 'a' <= #[trigger] kind[i] <= 'z',
    ensures
        parse_selector(kind + seq![':'] + dec(n as nat)) == selector_of(kind, Some(n)),
{
    let s = kind + seq![':'] + dec(n as nat);
    let at = kind.len() as int;
    digits_read_back(n as nat, Seq::empty());
    assert(dec(n as nat) + Seq::<char>::empty() =~= dec(n as nat));
    assert forall|i: int| 0 <= i < s.len() implies 0x21 <= (#[trigger] s[i]) as u32 && (s[i] as u32)
        < 0x80 && !('A' <= s[i] <= 'Z') by {
        if i < at {
            assert(s[i] == kind[i]);
        } else if i > at {
            assert(s[i] == dec(n as nat)[i - at - 1]);
        }
    }
    plain_text_is_taken(s);
    index_from_is_first(s, seq![':'], 0);
    assert(s.subrange(at, at + 1) =~= seq![':']);
    assert(occurs_at(s, seq![':'], at));
    match index_of(s, seq![':']) {
        Some(k) => {
            assert(s.subrange(k as int, k as int + 1)[0] == s[k as int]);
            assert(s[k as int] == ':');
            if k < at {
                assert(s[k as int] == kind[k as int]);
            } else if k > at {
                assert(s[k as int] == dec(n as nat)[k - at - 1]);
            }
        },
        None => {},
    }
    assert(s.skip(at + 1) =~= dec(n as nat));
    assert(s.take(at) =~= kind);
}

/// The text of a selector selects the same device again.
pub proof fn selector_text_reads_back(s: DeviceSelector)
    ensures
        parse_selector(selector_text(s)) == Ok::<DeviceSelector, ErrorView>(s),
{
    reveal_strlit("auto");
    reveal_strlit("cpu");
    reveal_strlit("cuda");
    reveal_strlit("cuda:");
    reveal_strlit("nvidia");
    reveal_strlit("vulkan");
    reveal_strlit("vulkan:");
    reveal_strlit("vk");
    reveal_strlit("");
    match s {
        DeviceSelector::Cuda(Some(i)) => {
            kind_with_index("cuda"@, i);
            assert("cuda"@ + seq![':'] =~= "cuda:"@);
            assert("cuda"@.len() == 4 && ""@.len() == 0);
            assert("cuda"@ != "auto"@) by {
                assert("cuda"@[0] != "auto"@[0]);
            }
        },
        DeviceSelector::Vulkan(Some(i)) => {
            kind_with_index("vulkan"@, i);
            assert("vulkan"@ + seq![':'] =~= "vulkan:"@);
            assert("vulkan"@ != "nvidia"@) by {
                assert("vulkan"@[0] != "nvidia"@[0]);
            }
        },
        _ => {
            let t = selector_text(s);
            plain_text_is_taken(t);
            kind_without_index(t);
            assert("cuda"@ != "auto"@) by {
                assert("cuda"@[0] != "auto"@[0]);
            }
            assert("vulkan"@ != "nvidia"@) by {
                assert("vulkan"@[0] != "nvidia"@[0]);
            }
        },
    }
}

/// White space around a text, and the case of its ASCII letters, do not matter to what it
/// selects.
pub proof fn case_and_space_do_not_matter(
    front: Seq<char>,
    text: Seq<char>,
    other: Seq<char>,
    back: Seq<char>,
)
    requires
        forall|i: int| 0 <= i < front.len() ==> is_white(#[trigger] front[i]),
        forall|i: int| 0 <= i < back.len() ==> is_white(#[trigger] back[i]),
        all_lower(text) == all_lower(other),
    ensures
        parse_selector(front + text + back) == parse_selector(other),
{
    space_is_trimmed(front, text, back);
    lower_trims(text);
    lower_trims(other);
}

proof fn start_is_trimmed(front: Seq<char>, rest: Seq<char>)
    requires
        forall|i: int| 0 <= i < front.len() ==> is_white(#[trigger] front[i]),
    ensures
        trimmed_start(front + rest) == trimmed_start(rest),
    decreases front.len(),
{
    if front.len() > 0 {
        assert((front + rest)[0] == front[0]);
        assert((front + rest).drop_first() =~= front.drop_first() + rest);
        start_is_trimmed(front.drop_first(), rest);
    } else {
        assert(front + rest =~= rest);
    }
}

proof fn end_is_trimmed(s: Seq<char>, back: Seq<char>)
    requires
        forall|i: int| 0 <= i < back.len() ==> is_white(#[trigger] back[i]),
    ensures
        trimmed_end(s + back) == trimmed_end(s),
    decreases back.len(),
{
    if back.len() > 0 {
        assert((s + back).last() == back.last());
        assert((s + back).drop_last() =~= s + back.drop_last());
        end_is_trimmed(s, back.drop_last());
    } else {
        assert(s + back =~= s);
    }
}

proof fn start_keeps_the_end(s: Seq<char>, back: Seq<char>)
    requires
        forall|i: int| 0 <= i < back.len() ==> is_white(#[trigger] back[i]),
    ensures
        trimmed_end(trimmed_start(s + back)) == trimmed_end(trimmed_start(s)),
    decreases s.len(),
{
    if s.len() == 0 {
        assert(s + back =~= back + Seq::<char>::empty());
        start_is_trimmed(back, Seq::empty());
        assert(trimmed_start(s) =~= Seq::<char>::empty());
    } else if is_white(s[0]) {
        assert((s + back)[0] == s[0]);
        assert((s + back).drop_first() =~= s.drop_first() + back);
        start_keeps_the_end(s.drop_first(), back);
    } else {
        assert((s + back)[0] == s[0]);
        end_is_trimmed(s, back);
    }
}

proof fn space_is_trimmed(front: Seq<char>, text: Seq<char>, back: Seq<char>)
    requires
        forall|i: int| 0 <= i < front.len() ==> is_white(#[trigger] front[i]),
        forall|i: int| 0 <= i < back.len() ==> is_white(#[trigger] back[i]),
    ensures
        trimmed(front + text + back) == trimmed(text),
{
    assert(front + text + back =~= front + (text + back));
    start_is_trimmed(front, text + back);
    start_keeps_the_end(text, back);
}

proof fn lower_trims_start(s: Seq<char>)
    ensures
        trimmed_start(all_lower(s)) == all_lower(trimmed_start(s)),
    decreases s.len(),
{
    if s.len() > 0 {
        assert(all_lower(s)[0] == ascii_lower(s[0]));
        if is_white(s[0]) {
            assert(all_lower(s).drop_first() =~= all_lower(s.drop_first()));
            lower_trims_start(s.drop_first());
        }
    }
}

proof fn lower_trims_end(s: Seq<char>)
    ensures
        trimmed_end(all_lower(s)) == all_lower(trimmed_end(s)),
    decreases s.len(),
{
    if s.len() > 0 {
        assert(all_lower(s).last() == ascii_lower(s.last()));
        if is_white(s.last()) {
            assert(all_lower(s).drop_last() =~= all_lower(s.drop_last()));
            lower_trims_end(s.drop_last());
        }
    }
}

proof fn lower_trims(s: Seq<char>)
    ensures
        trimmed(all_lower(s)) == all_lower(trimmed(s)),
{
    lower_trims_start(s);
    lower_trims_end(trimmed_start(s));
}

/// Whether a kind of device is known by this name.
pub open spec fn is_kind(k: Seq<char>) -> bool {
    k == "auto"@ || k == ""@ || k == "cpu"@ || k == "cuda"@ || k == "nvidia"@ || k == "vulkan"@ || k
        == "vk"@
}

/// A text selects a device exactly where its kind is known and its index, if it has one, is a
/// number of 32 bits; any other is answered that there is no such device.
pub proof fn other_texts_select_nothing(text: Seq<char>)
    ensures
        ({
            let s = all_lower(trimmed(text));
            let good = match index_of(s, seq![':']) {
                Some(at) => is_kind(s.take(at as int)) && number_of(s.skip(at as int + 1)) is Some,
                None => is_kind(s),
            };
            match parse_selector(text) {
                Ok(_) => good,
                Err(e) => !good && e is NoDevice,
            }
        }),
{
}

/// A backend to try to open.
#[derive(Debug, Clone, Copy, PartialEq, Eq, Structural)]
pub enum Attempt {
    Cpu,
    Cuda(u32),
    Vulkan(u32),
}

/// The first backend to try. CUDA is the fastest path on the hardware it supports, Vulkan
/// covers everything else with a GPU, and the CPU always works.
pub open spec fn first_of(sel: DeviceSelector) -> Attempt {
    match sel {
        DeviceSelector::Cpu => Attempt::Cpu,
        DeviceSelector::Cuda(Some(i)) => Attempt::Cuda(i),
        DeviceSelector::Cuda(None) => Attempt::Cuda(0),
        DeviceSelector::Vulkan(Some(i)) => Attempt::Vulkan(i),
        DeviceSelector::Vulkan(None) => Attempt::Vulkan(0),
        DeviceSelector::Auto => Attempt::Cuda(0),
    }
}

/// What is noted of an attempt that failed for `why`.
pub open spec fn note_of(a: Attempt, why: Seq<char>) -> Seq<char> {
    match a {
        Attempt::Cuda(_) => "cuda unavailable: "@ + why,
        _ => "vulkan unavailable: "@ + why,
    }
}

/// What follows an attempt that failed: the next one, or a failure. The CPU's own failure is
/// handed on as it is.
pub open spec fn after_failure(
    sel: DeviceSelector,
    a: Attempt,
    notes: Seq<Seq<char>>,
) -> Result<Attempt, Option<ErrorView>> {
    match (sel, a) {
        (_, Attempt::Cpu) => Err(None),
        (DeviceSelector::Auto, Attempt::Cuda(_)) => Ok(Attempt::Vulkan(0)),
        (DeviceSelector::Auto, Attempt::Vulkan(_)) => Ok(Attempt::Cpu),
        (_, Attempt::Cuda(_)) => Err(
            Some(
                ErrorView::NoDevice(
                    "cuda was requested explicitly but is not usable: "@ + joined(notes, "; "@),
                ),
            ),
        ),
        (_, Attempt::Vulkan(_)) => Err(
            Some(
                ErrorView::NoDevice(
                    "vulkan was requested explicitly but is not usable: "@ + joined(notes, "; "@),
                ),
            ),
        ),
    }
}

/// The notes once a backend is open.
pub open spec fn final_notes(sel: DeviceSelector, a: Attempt, notes: Seq<Seq<char>>) -> Seq<
    Seq<char>,
> {
    if a == Attempt::Cpu && sel == DeviceSelector::Auto && notes.len() > 0 {
        notes.push("falling back to the CPU"@)
    } else {
        notes
    }
}

/// A backend that was asked for by name is never replaced by another, and one that was not is
/// replaced until the CPU is reached, after two failures at most.
pub proof fn only_auto_falls_back(sel: DeviceSelector, a: Attempt, notes: Seq<Seq<char>>)
    ensures
        sel != DeviceSelector::Auto ==> after_failure(sel, a, notes) is Err,
        sel == DeviceSelector::Auto && a != Attempt::Cpu ==> after_failure(sel, a, notes) is Ok,
        after_failure(DeviceSelector::Auto, first_of(DeviceSelector::Auto), notes) == Ok::<
            Attempt,
            Option<ErrorView>,
        >(Attempt::Vulkan(0)),
        after_failure(DeviceSelector::Auto, Attempt::Vulkan(0), notes) == Ok::<
            Attempt,
            Option<ErrorView>,
        >(Attempt::Cpu),
{
}

/// The opening of a backend: which one was selected, and what was noted so far.
#[derive(Debug)]
pub struct Opening {
    pub sel: DeviceSelector,
    pub notes: Vec<String>,
}

impl Opening {
    /// Starts opening: the first backend to try.
    pub fn start(sel: DeviceSelector) -> (r: (Opening, Attempt))
        ensures
            r.0.sel == sel,
            texts(r.0.notes@) == Seq::<Seq<char>>::empty(),
            r.1 == first_of(sel),
    {
        let a = match sel {
            DeviceSelector::Cpu => Attempt::Cpu,
            DeviceSelector::Cuda(Some(i)) => Attempt::Cuda(i),
            DeviceSelector::Cuda(None) => Attempt::Cuda(0),
            DeviceSelector::Vulkan(Some(i)) => Attempt::Vulkan(i),
            DeviceSelector::Vulkan(None) => Attempt::Vulkan(0),
            DeviceSelector::Auto => Attempt::Cuda(0),
        };
        let o = Opening { sel, notes: Vec::new() };
        assert(texts(o.notes@) =~= Seq::<Seq<char>>::empty());
        (o, a)
    }

    /// An attempt failed for `why`: the next one, or a failure. None stands for the CPU's own
    /// failure.
    pub fn failed(&mut self, a: Attempt, why: &str) -> (r: Result<Attempt, Option<Error>>)
        ensures
            final(self).sel == old(self).sel,
            texts(final(self).notes@) == if a == Attempt::Cpu {
                texts(old(self).notes@)
            } else {
                texts(old(self).notes@).push(note_of(a, why@))
            },
            match after_failure(old(self).sel, a, texts(final(self).notes@)) {
                Ok(n) => r == Ok::<Attempt, Option<Error>>(n),
                Err(None) => r == Err::<Attempt, Option<Error>>(None),
                Err(Some(e)) => r matches Err(Some(x)) && x@ == e,
            },
    {
        let ghost before = texts(self.notes@);
        match a {
            Attempt::Cpu => {
                return Err(None);
            },
            Attempt::Cuda(_) => {
                let n = cat2("cuda unavailable: ", why);
                self.notes.push(n);
            },
            Attempt::Vulkan(_) => {
                let n = cat2("vulkan unavailable: ", why);
                self.notes.push(n);
            },
        }
        assert(texts(self.notes@) =~= before.push(note_of(a, why@)));
        match self.sel {
            DeviceSelector::Auto => match a {
                Attempt::Cuda(_) => Ok(Attempt::Vulkan(0)),
                _ => Ok(Attempt::Cpu),
            },
            _ => {
                let all = join_text(self.notes.as_slice(), "; ");
                let head = match a {
                    Attempt::Cuda(_) => "cuda was requested explicitly but is not usable: ",
                    _ => "vulkan was requested explicitly but is not usable: ",
                };
                Err(Some(Error::NoDevice(cat2(head, all.as_str()))))
            },
        }
    }

    /// A backend is open.
    pub fn opened(self, a: Attempt) -> (r: Vec<String>)
        ensures
            texts(r@) == final_notes(self.sel, a, texts(self.notes@)),
    {
        let ghost before = texts(self.notes@);
        let sel = self.sel;
        let mut notes = self.notes;
        if a == Attempt::Cpu && sel == DeviceSelector::Auto && notes.len() > 0 {
            notes.push(own("falling back to the CPU"));
            assert(texts(notes@) =~= before.push("falling back to the CPU"@));
        }
        notes
    }
}

} // verus!
