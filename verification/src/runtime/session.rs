//! What is resident in the cache, and what a prompt still has to run.

use vstd::prelude::*;

use super::device::DeviceSelector;
use crate::dtype::DType;
use crate::error::{Error, ErrorView};
use crate::text::{cat5, dec, decimal, own};

verus! {

#[derive(Debug, Clone, Copy, PartialEq, Eq, Structural)]
pub struct EngineOptions {
    pub device: DeviceSelector,
    /// Context length per sequence. Zero means the model's trained length, capped for sanity.
    pub n_ctx: usize,
    /// Independent sequences the cache must hold at once.
    pub n_seq: usize,
    /// Tokens per prefill chunk, which also sizes the activation scratch.
    pub batch: usize,
    pub threads: usize,
    /// KV cache storage. f16 halves the largest allocation after the weights for no observable
    /// quality cost, which is why it is the default.
    pub kv_type: DType,
    /// Pin the chat template's `enable_thinking`. `None` follows the model's own default.
    pub enable_thinking: Option<bool>,
}

impl Default for EngineOptions {
    fn default() -> (r: Self)
        ensures
            r == (EngineOptions {
                device: DeviceSelector::Auto,
                n_ctx: 0,
                n_seq: 1,
                batch: 256,
                threads: 0,
                kv_type: DType::F16,
                enable_thinking: None,
            }),
    {
        EngineOptions {
            device: DeviceSelector::Auto,
            n_ctx: 0,
            n_seq: 1,
            batch: 256,
            threads: 0,
            kv_type: DType::F16,
            enable_thinking: None,
        }
    }
}

/// Tokens per chunk: at least one, at most 4096.
pub open spec fn batch_of(batch: usize) -> usize {
    if batch < 1 {
        1
    } else if batch > 4096 {
        4096
    } else {
        batch
    }
}

/// The context length: what is asked for, else the trained length, between 512 and 8192.
pub open spec fn context_of(asked: usize, trained: usize) -> usize {
    if asked != 0 {
        asked
    } else if trained < 512 {
        512
    } else if trained > 8192 {
        8192
    } else {
        trained
    }
}

impl EngineOptions {
    pub fn batch_size(&self) -> (r: usize)
        ensures
            r == batch_of(self.batch),
            1 <= r <= 4096,
    {
        if self.batch < 1 {
            1
        } else if self.batch > 4096 {
            4096
        } else {
            self.batch
        }
    }

    pub fn context(&self, trained: usize) -> (r: usize)
        ensures
            r == context_of(self.n_ctx, trained),
    {
        if self.n_ctx != 0 {
            self.n_ctx
        } else if trained < 512 {
            512
        } else if trained > 8192 {
            8192
        } else {
            trained
        }
    }

    /// How many sequences there are, at least one.
    pub fn sequences(&self) -> (r: usize)
        ensures
            r == if self.n_seq < 1 {
                1
            } else {
                self.n_seq
            },
    {
        if self.n_seq < 1 {
            1
        } else {
            self.n_seq
        }
    }
}

/// How many tokens of a prompt the cache already holds, from `i` on. Only a prefix up to the
/// first divergence is reusable, and never the whole prompt: the last token must be run to
/// produce logits.
pub open spec fn shared_from(resident: Seq<u32>, tokens: Seq<u32>, i: nat) -> nat
    decreases resident.len() - i,
{
    if i < resident.len() && i + 1 < tokens.len() && resident[i as int] == tokens[i as int] {
        shared_from(resident, tokens, i + 1)
    } else {
        i
    }
}

/// Tokens `start..end` of a prompt, run at once.
#[derive(Debug, Clone, Copy, PartialEq, Eq, Structural)]
pub struct Chunk {
    pub start: usize,
    pub end: usize,
}

/// The chunks of `start..len`, of `batch` tokens each but for the last.
pub open spec fn chunks_from(start: nat, len: nat, batch: nat) -> Seq<Chunk>
    decreases len - start,
{
    if start >= len || batch == 0 {
        Seq::empty()
    } else {
        let end = if start + batch < len {
            start + batch
        } else {
            len
        };
        seq![Chunk { start: start as usize, end: end as usize }] + chunks_from(end, len, batch)
    }
}

/// The chunks follow each other from the first token to the last, none empty, none larger than
/// the batch.
pub proof fn chunks_cover_the_prompt(start: nat, len: nat, batch: nat)
    requires
        start < len <= usize::MAX,
        batch > 0,
    ensures
        chunks_from(start, len, batch).len() > 0,
        chunks_from(start, len, batch)[0].start == start,
        chunks_from(start, len, batch).last().end == len,
        forall|i: int|
            0 <= i < chunks_from(start, len, batch).len() ==> (#[trigger] chunks_from(
                start,
                len,
                batch,
            )[i]).start < chunks_from(start, len, batch)[i].end <= chunks_from(
                start,
                len,
                batch,
            )[i].start + batch,
        forall|i: int, j: int|
            0 <= i && j == i + 1 && j < chunks_from(start, len, batch).len() ==> (
            #[trigger] chunks_from(start, len, batch)[i]).end == (#[trigger] chunks_from(
                start,
                len,
                batch,
            )[j]).start,
    decreases len - start,
{
    let all = chunks_from(start, len, batch);
    let end = if start + batch < len {
        start + batch
    } else {
        len
    };
    let first = Chunk { start: start as usize, end: end as usize };
    let rest = chunks_from(end, len, batch);
    assert(all =~= seq![first] + rest);
    if end < len {
        chunks_cover_the_prompt(end, len, batch);
        assert(all.last() == rest.last());
        assert forall|i: int| 0 <= i < all.len() implies (#[trigger] all[i]).start < all[i].end
            <= all[i].start + batch by {
            if i > 0 {
                assert(all[i] == rest[i - 1]);
            }
        }
        assert forall|i: int, j: int| 0 <= i && j == i + 1 && j < all.len() implies (
        #[trigger] all[i]).end == (#[trigger] all[j]).start by {
            assert(all[j] == rest[j - 1]);
            if i > 0 {
                assert(all[i] == rest[i - 1]);
            }
        }
    } else {
        assert(rest =~= Seq::empty());
    }
}

/// Whether the first positions of a sequence's cache hold these tokens.
pub open spec fn held_in(cache: Map<int, u32>, tokens: Seq<u32>) -> bool {
    forall|i: int|
        #![trigger cache[i]]
        #![trigger cache.dom().contains(i)]
        0 <= i < tokens.len() ==> cache.dom().contains(i) && cache[i] == tokens[i]
}

/// A sequence's cache once a chunk of a prompt has run.
pub open spec fn with_chunk(cache: Map<int, u32>, tokens: Seq<u32>, c: Chunk) -> Map<int, u32> {
    cache.union_prefer_right(
        Map::new(|i: int| c.start <= i < c.end, |i: int| tokens[i]),
    )
}

/// A sequence's cache once chunks of a prompt have run, one after the other.
pub open spec fn with_chunks(cache: Map<int, u32>, tokens: Seq<u32>, chunks: Seq<Chunk>) -> Map<
    int,
    u32,
>
    decreases chunks.len(),
{
    if chunks.len() == 0 {
        cache
    } else {
        with_chunks(with_chunk(cache, tokens, chunks[0]), tokens, chunks.skip(1))
    }
}

/// Reusing what is cached is sound: where the cache of a sequence holds its resident tokens,
/// running what is planned for a prompt leaves the whole prompt in it.
pub proof fn reuse_is_sound(cache: Map<int, u32>, resident: Seq<u32>, tokens: Seq<u32>, batch: nat)
    requires
        held_in(cache, resident),
        tokens.len() <= usize::MAX,
        batch > 0,
    ensures
        held_in(
            with_chunks(
                cache,
                tokens,
                chunks_from(shared_from(resident, tokens, 0), tokens.len(), batch),
            ),
            tokens,
        ),
{
    assert(resident.take(0) =~= tokens.take(0));
    shared_is_equal(resident, tokens, 0);
    let n = shared_from(resident, tokens, 0);
    assert forall|i: int| 0 <= i < n implies resident[i] == #[trigger] tokens.take(n as int)[i] by {
        assert(resident.take(n as int)[i] == resident[i]);
    }
    rest_is_run(cache, tokens, n, batch);
}

/// What is resident once a token was run at `pos`, or would not run. What stood from there on is
/// overwritten, and a token beyond the resident ones follows nothing that is known.
pub open spec fn noted(resident: Seq<u32>, token: u32, pos: nat, ran: bool) -> Seq<u32> {
    if pos > resident.len() {
        resident
    } else if ran {
        resident.take(pos as int).push(token)
    } else {
        resident.take(pos as int)
    }
}

/// Whatever position a token runs at, the cache holds what is resident afterwards; and so it does
/// where the run fails, whatever that leaves at the position.
pub proof fn what_is_resident_is_cached(
    cache: Map<int, u32>,
    resident: Seq<u32>,
    token: u32,
    left: u32,
    pos: nat,
)
    requires
        held_in(cache, resident),
    ensures
        held_in(cache.insert(pos as int, token), noted(resident, token, pos, true)),
        held_in(cache.insert(pos as int, left), noted(resident, token, pos, false)),
{
}

/// A prompt that fails on the way leaves the part it shared with the resident tokens, whatever
/// the cache holds behind that.
pub proof fn a_failed_prompt_keeps_what_it_shared(
    cache: Map<int, u32>,
    after: Map<int, u32>,
    resident: Seq<u32>,
    tokens: Seq<u32>,
)
    requires
        held_in(cache, resident),
        forall|i: int|
            0 <= i < shared_from(resident, tokens, 0) && cache.dom().contains(i)
                ==> after.dom().contains(i) && #[trigger] after[i] == cache[i],
    ensures
        held_in(after, tokens.take(shared_from(resident, tokens, 0) as int)),
{
    assert(resident.take(0) =~= tokens.take(0));
    shared_is_equal(resident, tokens, 0);
    let n = shared_from(resident, tokens, 0);
    let front = tokens.take(n as int);
    assert forall|i: int| 0 <= i < n implies after.dom().contains(i) && #[trigger] after[i]
        == front[i] by {
        assert(resident.take(n as int)[i] == resident[i]);
        assert(cache[i] == resident[i]);
        assert(after[i] == cache[i]);
    }
    assert forall|i: int| 0 <= i < n implies #[trigger] after.dom().contains(i) by {
        assert(after[i] == front[i]);
    }
}

pub(crate) proof fn shared_is_equal(resident: Seq<u32>, tokens: Seq<u32>, i: nat)
    requires
        i <= resident.len(),
        i <= tokens.len(),
        resident.take(i as int) == tokens.take(i as int),
    ensures
        shared_from(resident, tokens, i) <= resident.len(),
        shared_from(resident, tokens, i) <= tokens.len(),
        resident.take(shared_from(resident, tokens, i) as int) == tokens.take(
            shared_from(resident, tokens, i) as int,
        ),
    decreases resident.len() - i,
{
    if i < resident.len() && i + 1 < tokens.len() && resident[i as int] == tokens[i as int] {
        assert(resident.take((i + 1) as int) =~= resident.take(i as int).push(resident[i as int]));
        assert(tokens.take((i + 1) as int) =~= tokens.take(i as int).push(tokens[i as int]));
        shared_is_equal(resident, tokens, i + 1);
    }
}

proof fn rest_is_run(cache: Map<int, u32>, tokens: Seq<u32>, start: nat, batch: nat)
    requires
        start <= tokens.len() <= usize::MAX,
        batch > 0,
        held_in(cache, tokens.take(start as int)),
    ensures
        held_in(
            with_chunks(cache, tokens, chunks_from(start, tokens.len(), batch)),
            tokens,
        ),
    decreases tokens.len() - start,
{
    let all = chunks_from(start, tokens.len(), batch);
    if start < tokens.len() {
        let end = if start + batch < tokens.len() {
            start + batch
        } else {
            tokens.len()
        };
        let next = with_chunk(cache, tokens, all[0]);
        assert forall|i: int| 0 <= i < end implies next.dom().contains(i) && next[i]
            == #[trigger] tokens.take(end as int)[i] by {
            if i < start {
                assert(cache[i] == tokens.take(start as int)[i]);
            }
        }
        assert(all.skip(1) =~= chunks_from(end, tokens.len(), batch));
        rest_is_run(next, tokens, end, batch);
    } else {
        assert(tokens.take(start as int) =~= tokens);
    }
}

/// What the sequences of a cache hold.
#[derive(Debug)]
pub struct Session {
    pub batch: usize,
    /// Tokens already resident in each sequence's cache, for prefix reuse.
    pub resident: Vec<Vec<u32>>,
}

impl View for Session {
    type V = Seq<Seq<u32>>;

    open spec fn view(&self) -> Seq<Seq<u32>> {
        Seq::new(self.resident@.len(), |i: int| self.resident@[i]@)
    }
}

impl Session {
    pub open spec fn wf(self) -> bool {
        self.batch > 0
    }

    /// Nothing is resident yet.
    pub fn new(n_seq: usize, batch: usize) -> (r: Self)
        requires
            batch > 0,
        ensures
            r.wf(),
            r.batch == batch,
            r@ == Seq::new(n_seq as nat, |i: int| Seq::<u32>::empty()),
    {
        let mut resident: Vec<Vec<u32>> = Vec::new();
        let mut i: usize = 0;
        while i < n_seq
            invariant
                i <= n_seq,
                resident@.len() == i,
                forall|j: int| 0 <= j < i ==> (#[trigger] resident@[j])@ == Seq::<u32>::empty(),
            decreases n_seq - i,
        {
            resident.push(Vec::new());
            i = i + 1;
        }
        let r = Session { batch, resident };
        assert(r@ =~= Seq::new(n_seq as nat, |i: int| Seq::<u32>::empty()));
        r
    }

    /// Forgets what a sequence holds, where there is such a sequence.
    pub fn reset(&mut self, seq: usize)
        ensures
            final(self).batch == old(self).batch,
            final(self)@ == if seq < old(self)@.len() {
                old(self)@.update(seq as int, Seq::empty())
            } else {
                old(self)@
            },
    {
        let ghost before = self@;
        if seq < self.resident.len() {
            self.resident.set(seq, Vec::new());
            assert(self@ =~= before.update(seq as int, Seq::empty()));
        }
    }

    /// The chunks that a prompt still has to run in a sequence.
    pub fn plan(&self, seq: usize, tokens: &[u32]) -> (r: Vec<Chunk>)
        requires
            self.wf(),
            seq < self@.len(),
        ensures
            r@ == chunks_from(
                shared_from(self@[seq as int], tokens@, 0),
                tokens@.len(),
                self.batch as nat,
            ),
    {
        let ghost held = self@[seq as int];
        let resident = &self.resident[seq];
        let mut shared: usize = 0;
        while shared < resident.len() && shared + 1 < tokens.len() && resident[shared]
            == tokens[shared]
            invariant
                resident@ == held,
                shared <= resident@.len(),
                shared <= tokens@.len(),
                shared_from(held, tokens@, 0) == shared_from(held, tokens@, shared as nat),
            decreases resident@.len() - shared,
        {
            shared = shared + 1;
        }
        let len = tokens.len();
        let ghost all = chunks_from(shared as nat, len as nat, self.batch as nat);
        let mut out: Vec<Chunk> = Vec::new();
        let mut pos: usize = shared;
        assert(out@ + all =~= all);
        while pos < len
            invariant
                self.wf(),
                pos <= len || pos == shared,
                all == out@ + chunks_from(pos as nat, len as nat, self.batch as nat),
            decreases len - pos,
        {
            let end = if len - pos > self.batch {
                pos + self.batch
            } else {
                len
            };
            let ghost before = out@;
            let c = Chunk { start: pos, end };
            out.push(c);
            assert(before + (seq![c] + chunks_from(end as nat, len as nat, self.batch as nat))
                =~= out@ + chunks_from(end as nat, len as nat, self.batch as nat));
            pos = end;
        }
        assert(out@ =~= all);
        out
    }

    /// A prompt was run in a sequence.
    pub fn ran(&mut self, seq: usize, tokens: &[u32])
        requires
            seq < old(self)@.len(),
        ensures
            final(self).batch == old(self).batch,
            final(self)@ == old(self)@.update(seq as int, tokens@),
    {
        let ghost before = self@;
        let mut copy: Vec<u32> = Vec::new();
        let mut i: usize = 0;
        while i < tokens.len()
            invariant
                i <= tokens@.len(),
                copy@ =~= tokens@.take(i as int),
            decreases tokens@.len() - i,
        {
            copy.push(tokens[i]);
            i = i + 1;
        }
        assert(copy@ =~= tokens@);
        self.resident.set(seq, copy);
        assert(self@ =~= before.update(seq as int, tokens@));
    }

    /// Keeps the first `n` resident tokens of a sequence: those behind are about to be
    /// overwritten.
    pub fn keep(&mut self, seq: usize, n: usize)
        requires
            seq < old(self)@.len(),
        ensures
            final(self).batch == old(self).batch,
            final(self)@ == if n < old(self)@[seq as int].len() {
                old(self)@.update(seq as int, old(self)@[seq as int].take(n as int))
            } else {
                old(self)@
            },
    {
        let ghost before = self@;
        if n < self.resident[seq].len() {
            self.resident[seq].truncate(n);
            assert(self@ =~= before.update(seq as int, before[seq as int].take(n as int)));
        }
    }

    /// A token was run at a position of a sequence. It is resident where it follows the resident
    /// ones.
    pub fn push(&mut self, seq: usize, token: u32, pos: usize)
        requires
            seq < old(self)@.len(),
        ensures
            final(self).batch == old(self).batch,
            final(self)@ == if pos == old(self)@[seq as int].len() {
                old(self)@.update(seq as int, old(self)@[seq as int].push(token))
            } else {
                old(self)@
            },
    {
        let ghost before = self@;
        if self.resident[seq].len() == pos {
            self.resident[seq].push(token);
            assert(self@ =~= before.update(seq as int, before[seq as int].push(token)));
        }
    }
}

/// Why a prompt of `n` tokens cannot be generated from.
pub open spec fn prompt_fault(n: nat, n_ctx: nat) -> Option<ErrorView> {
    if n == 0 {
        Some(ErrorView::Shape("cannot generate from an empty prompt"@))
    } else if n >= n_ctx {
        Some(
            ErrorView::Shape(
                "prompt is "@ + dec(n) + " tokens but the context is "@ + dec(n_ctx)
                    + "; raise --ctx or shorten the prompt"@,
            ),
        )
    } else {
        None
    }
}

pub fn check_prompt(n: usize, n_ctx: usize) -> (r: Result<(), Error>)
    ensures
        match prompt_fault(n as nat, n_ctx as nat) {
            Some(e) => r is Err && r->Err_0@ == e,
            None => r is Ok,
        },
{
    if n == 0 {
        return Err(Error::Shape(own("cannot generate from an empty prompt")));
    }
    if n >= n_ctx {
        return Err(
            Error::Shape(
                cat5(
                    "prompt is ",
                    decimal(n as u64).as_str(),
                    " tokens but the context is ",
                    decimal(n_ctx as u64).as_str(),
                    "; raise --ctx or shorten the prompt",
                ),
            ),
        );
    }
    Ok(())
}

/// The tokens of a prompt that count as recent, last one first.
pub open spec fn recent_first(prompt: Seq<u32>, n: nat) -> Seq<u32> {
    let k = if n < prompt.len() {
        n
    } else {
        prompt.len()
    };
    Seq::new(k, |i: int| prompt[prompt.len() - 1 - i])
}

pub fn recent_tokens(prompt: &[u32], n: usize) -> (r: Vec<u32>)
    ensures
        r@ == recent_first(prompt@, n as nat),
{
    let len = prompt.len();
    let k = if n < len {
        n
    } else {
        len
    };
    let mut out: Vec<u32> = Vec::new();
    let mut i: usize = 0;
    while i < k
        invariant
            len == prompt@.len(),
            i <= k <= len,
            out@ =~= recent_first(prompt@, n as nat).take(i as int),
            k == recent_first(prompt@, n as nat).len(),
        decreases k - i,
    {
        out.push(prompt[len - 1 - i]);
        i = i + 1;
    }
    assert(recent_first(prompt@, n as nat).take(k as int) =~= recent_first(prompt@, n as nat));
    out
}

/// The prompt of a benchmark: the start token, then varied ones, so that the run cannot be
/// helped by any degenerate-input shortcut.
pub open spec fn bench_prompt(bos: Option<u32>, n: nat, n_vocab: nat) -> Seq<u32> {
    let v = if n_vocab < 2 {
        2
    } else {
        n_vocab
    };
    let first = match bos {
        Some(b) => b,
        None => 1u32,
    };
    Seq::new(
        if n < 1 {
            1
        } else {
            n
        },
        |i: int|
            if i == 0 {
                first
            } else {
                ((i * 7919) % v as int) as u32
            },
    )
}

pub fn benchmark_prompt(bos: Option<u32>, n: usize, n_vocab: usize) -> (r: Vec<u32>)
    requires
        n * 7919 <= usize::MAX,
    ensures
        r@ == bench_prompt(bos, n as nat, n_vocab as nat),
{
    let ghost want = bench_prompt(bos, n as nat, n_vocab as nat);
    let v = if n_vocab < 2 {
        2
    } else {
        n_vocab
    };
    let mut out: Vec<u32> = Vec::new();
    match bos {
        Some(b) => out.push(b),
        None => out.push(1),
    }
    let mut i: usize = 1;
    while i < n
        invariant
            n * 7919 <= usize::MAX,
            want == bench_prompt(bos, n as nat, n_vocab as nat),
            v == if n_vocab < 2 {
                2
            } else {
                n_vocab
            },
            v >= 2,
            1 <= i,
            i <= n || n < 1,
            n < 1 ==> i == 1,
            out@ =~= want.take(i as int),
        decreases n - i,
    {
        out.push(((i * 7919) % v) as u32);
        i = i + 1;
    }
    assert(want.take(i as int) =~= want);
    out
}

} // verus!
