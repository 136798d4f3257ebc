//! The batch embedding scheduler: a state machine that walks the work items in
//! chunks of bounded size. For each chunk it names the requests to send, all of
//! which may be in flight at once, and when their replies are handed back it
//! places each reply at the position of the item it belongs to. The next chunk
//! is planned only after the current one was completed.

use crate::provider::{request_for, request_of, EmbedRequest};
use crate::record::{clone_embedding, embedding_view, Embedding};
use crate::tokens::{admits, admits_count, admitted, cl100k_token_count, text_admitted};
use vstd::prelude::*;

verus! {

/// Number of items in a chunk unless the caller chooses another.
pub const CHUNK_SIZE: usize = 256;

/// A text and the decision whether it needs an embedding.
#[derive(Debug, PartialEq, Eq)]
pub struct WorkItem {
    pub text: String,
    pub needs_work: bool,
}

/// What a work item holds.
pub struct WorkItemView {
    pub text: Seq<char>,
    pub needs_work: bool,
}

impl View for WorkItem {
    type V = WorkItemView;

    open spec fn view(&self) -> WorkItemView {
        WorkItemView { text: self.text@, needs_work: self.needs_work }
    }
}

/// The views of a sequence of work items.
pub open spec fn items_view(items: Seq<WorkItem>) -> Seq<WorkItemView> {
    Seq::new(items.len(), |i: int| items[i]@)
}

/// The views of a sequence of optional embeddings.
pub open spec fn embeddings_view(column: Seq<Option<Embedding>>) -> Seq<Option<Seq<u32>>> {
    Seq::new(column.len(), |i: int| embedding_view(column[i]))
}

/// An item whose text has `count` tokens is sent to the provider when it needs
/// work and the count passes the token guard.
pub open spec fn sendable(item: WorkItemView, count: Option<usize>) -> bool {
    item.needs_work && admitted(count)
}

/// An item is sent to the provider when it needs work and its text passes the
/// token guard.
pub open spec fn dispatchable(item: WorkItemView) -> bool {
    sendable(item, cl100k_token_count(item.text))
}

/// For each item, whether it is sent, given the token count of each text.
pub open spec fn flags_from(items: Seq<WorkItemView>, counts: Seq<Option<usize>>) -> Seq<bool> {
    Seq::new(items.len(), |i: int| sendable(items[i], counts[i]))
}

/// For each item, whether it is sent.
pub open spec fn flags_of(items: Seq<WorkItemView>) -> Seq<bool> {
    Seq::new(items.len(), |i: int| dispatchable(items[i]))
}

/// Where the chunk that starts at `start` stops.
pub open spec fn chunk_end(start: int, chunk_size: int, total: int) -> int {
    if start + chunk_size < total {
        start + chunk_size
    } else {
        total
    }
}

/// The positions in `lo..hi` that are flagged in `send`, ascending: the items
/// of the chunk `lo..hi` that are sent to the provider.
pub open spec fn dispatched(send: Seq<bool>, lo: int, hi: int) -> Seq<int>
    decreases hi - lo,
{
    if hi <= lo {
        Seq::empty()
    } else if send[hi - 1] {
        dispatched(send, lo, hi - 1).push(hi - 1)
    } else {
        dispatched(send, lo, hi - 1)
    }
}

/// The result for the item at position `at` of the chunk that starts at `lo`:
/// the reply to its request, which is found by counting the requests of the
/// chunk that come before it, or nothing where no request was made for it.
pub open spec fn placed(
    send: Seq<bool>,
    lo: int,
    at: int,
    replies: Seq<Option<Seq<u32>>>,
) -> Option<Seq<u32>> {
    if send[at] {
        replies[dispatched(send, lo, at).len() as int]
    } else {
        None
    }
}

/// The results of the chunk `lo..hi`, given the replies to its requests in the
/// order of the requests.
pub open spec fn chunk_results(
    send: Seq<bool>,
    lo: int,
    hi: int,
    replies: Seq<Option<Seq<u32>>>,
) -> Seq<Option<Seq<u32>>> {
    Seq::new((hi - lo) as nat, |k: int| placed(send, lo, lo + k, replies))
}

/// The requests of a chunk are exactly its flagged positions, in input order,
/// and there are no more of them than the chunk has items. The request at
/// position `j` of the plan is preceded by `j` requests.
pub proof fn lemma_dispatched(send: Seq<bool>, lo: int, hi: int)
    requires
        0 <= lo <= hi <= send.len(),
    ensures
        dispatched(send, lo, hi).len() <= hi - lo,
        forall|j: int|
            0 <= j < dispatched(send, lo, hi).len() ==> ({
                &&& lo <= #[trigger] dispatched(send, lo, hi)[j] < hi
                &&& send[dispatched(send, lo, hi)[j]]
                &&& dispatched(send, lo, dispatched(send, lo, hi)[j]).len() == j
            }),
        forall|j: int, k: int|
            0 <= j < k < dispatched(send, lo, hi).len() ==> dispatched(send, lo, hi)[j]
                < dispatched(send, lo, hi)[k],
        forall|i: int|
            lo <= i < hi && #[trigger] send[i] ==> dispatched(send, lo, hi).contains(i),
    decreases hi - lo,
{
    if lo < hi {
        lemma_dispatched(send, lo, hi - 1);
        let before = dispatched(send, lo, hi - 1);
        let all = dispatched(send, lo, hi);
        if send[hi - 1] {
            assert(all == before.push(hi - 1));
            assert(all[before.len() as int] == hi - 1);
            assert forall|i: int| lo <= i < hi && #[trigger] send[i] implies all.contains(i) by {
                if i < hi - 1 {
                    let j = choose|j: int| 0 <= j < before.len() && before[j] == i;
                    assert(all[j] == i);
                }
            }
        } else {
            assert(all == before);
        }
    }
}

/// What a complete run yields for `items` when the provider answers a request
/// for a text with `answer` of that text: one result for each item, at the
/// item's position.
pub open spec fn resolved(
    items: Seq<WorkItemView>,
    answer: spec_fn(Seq<char>) -> Option<Seq<u32>>,
) -> Seq<Option<Seq<u32>>> {
    Seq::new(
        items.len(),
        |i: int|
            if dispatchable(items[i]) {
                answer(items[i].text)
            } else {
                None
            },
    )
}

/// The replies to the requests of the chunk `lo..hi`, in the order of the
/// requests, when the provider answers a request for a text with `answer` of
/// that text.
pub open spec fn replies_of(
    items: Seq<WorkItemView>,
    lo: int,
    hi: int,
    answer: spec_fn(Seq<char>) -> Option<Seq<u32>>,
) -> Seq<Option<Seq<u32>>> {
    Seq::new(
        dispatched(flags_of(items), lo, hi).len(),
        |j: int| answer(items[dispatched(flags_of(items), lo, hi)[j]].text),
    )
}

/// Order is preserved: the results of a chunk are the slice `lo..hi` of the
/// results of the whole run, so the result at a position belongs to the item at
/// that position, whatever the order in which the replies arrived.
pub proof fn lemma_chunk_in_order(
    items: Seq<WorkItemView>,
    lo: int,
    hi: int,
    answer: spec_fn(Seq<char>) -> Option<Seq<u32>>,
)
    requires
        0 <= lo <= hi <= items.len(),
    ensures
        chunk_results(flags_of(items), lo, hi, replies_of(items, lo, hi, answer)) == resolved(
            items,
            answer,
        ).subrange(lo, hi),
{
    let send = flags_of(items);
    let replies = replies_of(items, lo, hi, answer);
    let chunk = chunk_results(send, lo, hi, replies);
    let slice = resolved(items, answer).subrange(lo, hi);
    assert forall|k: int| 0 <= k < hi - lo implies chunk[k] == slice[k] by {
        let at = lo + k;
        if send[at] {
            lemma_dispatched(send, lo, hi);
            let j = choose|j: int|
                0 <= j < dispatched(send, lo, hi).len() && dispatched(send, lo, hi)[j] == at;
            assert(dispatched(send, lo, at).len() == j);
            assert(replies[j] == answer(items[at].text));
        }
    }
    assert(chunk =~= slice);
}

/// The token guard: an item whose text does not pass the guard is in no
/// chunk's plan, so the provider is never asked for it, and its result is
/// absent.
pub proof fn lemma_guard_blocks(
    items: Seq<WorkItemView>,
    at: int,
    lo: int,
    hi: int,
    answer: spec_fn(Seq<char>) -> Option<Seq<u32>>,
)
    requires
        0 <= lo <= hi <= items.len(),
        0 <= at < items.len(),
        !text_admitted(items[at].text),
    ensures
        !dispatched(flags_of(items), lo, hi).contains(at),
        resolved(items, answer)[at] is None,
{
    lemma_dispatched(flags_of(items), lo, hi);
}

/// Number of chunks that `remaining` items make: the full chunks, and one more
/// for what is left over.
pub open spec fn chunks_for(remaining: int, chunk_size: int) -> int {
    remaining / chunk_size + if remaining % chunk_size > 0 {
        1int
    } else {
        0int
    }
}

/// Completing a chunk takes one off the number of chunks that are left.
pub proof fn lemma_chunk_step(remaining: int, chunk_size: int)
    requires
        remaining > 0,
        chunk_size > 0,
    ensures
        chunks_for(remaining, chunk_size) == 1 + chunks_for(
            (if remaining > chunk_size {
                remaining - chunk_size
            } else {
                0
            }),
            chunk_size,
        ),
{
    if remaining > chunk_size {
        assert((remaining - chunk_size) / chunk_size == remaining / chunk_size - 1 && (remaining
            - chunk_size) % chunk_size == remaining % chunk_size) by (nonlinear_arith)
            requires
                chunk_size > 0,
        ;
    } else {
        lemma_chunk_count(0, chunk_size);
        assert(chunks_for(remaining, chunk_size) == 1) by (nonlinear_arith)
            requires
                0 < remaining <= chunk_size,
        ;
    }
}

/// No items make no chunk, some items make at least one, and there are never
/// more chunks than items.
pub proof fn lemma_chunk_count(remaining: int, chunk_size: int)
    requires
        remaining >= 0,
        chunk_size > 0,
    ensures
        0 <= chunks_for(remaining, chunk_size) <= remaining,
        chunks_for(remaining, chunk_size) == 0 <==> remaining == 0,
        remaining / chunk_size <= remaining,
{
    assert(0 <= chunks_for(remaining, chunk_size) <= remaining && (chunks_for(
        remaining,
        chunk_size,
    ) == 0 <==> remaining == 0) && remaining / chunk_size <= remaining) by (nonlinear_arith)
        requires
            remaining >= 0,
            chunk_size > 0,
    ;
}

/// One request of a chunk: the position of the item it is made for, and what
/// to ask.
#[derive(Debug, PartialEq, Eq)]
pub struct Dispatch {
    pub index: usize,
    pub request: EmbedRequest,
}

/// Why the scheduler refused a step.
#[derive(Debug, Clone, Copy, PartialEq, Eq, Structural)]
pub enum SchedulerError {
    /// A chunk must hold at least one item.
    ZeroChunkSize,
    /// There is not one token count for each item.
    CountMismatch,
    /// The number of replies differs from the number of requests of the chunk.
    ReplyCountMismatch,
}

/// The scheduler's state: the work items, which of them are sent to the
/// provider, the chunk size, and the results of the chunks completed so far.
pub struct Scheduler {
    items: Vec<WorkItem>,
    send: Vec<bool>,
    chunk_size: usize,
    results: Vec<Option<Embedding>>,
}

impl Scheduler {
    #[verifier::type_invariant]
    spec fn well_formed(self) -> bool {
        &&& self.chunk_size > 0
        &&& self.send@.len() == self.items@.len()
        &&& self.results@.len() <= self.items@.len()
    }

    /// The work items, in input order.
    pub closed spec fn items(self) -> Seq<WorkItemView> {
        items_view(self.items@)
    }

    /// For each item, whether it is sent to the provider.
    pub closed spec fn send(self) -> Seq<bool> {
        self.send@
    }

    /// The largest number of items in one chunk.
    pub closed spec fn chunk_size(self) -> int {
        self.chunk_size as int
    }

    /// The results so far: one for each item of the completed chunks.
    pub closed spec fn results(self) -> Seq<Option<Seq<u32>>> {
        embeddings_view(self.results@)
    }

    /// Position of the first item of the current chunk.
    pub open spec fn cursor(self) -> int {
        self.results().len() as int
    }

    /// Position after the last item of the current chunk.
    pub open spec fn stop(self) -> int {
        chunk_end(self.cursor(), self.chunk_size(), self.items().len() as int)
    }

    /// Every chunk was completed.
    pub open spec fn finished(self) -> bool {
        self.results().len() == self.items().len()
    }

    /// The positions for which the current chunk makes a request.
    pub open spec fn plan(self) -> Seq<int> {
        dispatched(self.send(), self.cursor(), self.stop())
    }

    /// Number of chunks that are not completed yet.
    pub open spec fn chunks_left(self) -> int {
        chunks_for(self.items().len() - self.cursor(), self.chunk_size())
    }

    /// A scheduler over `items` whose texts have the token counts `counts`,
    /// with chunks of `chunk_size` items. An item is sent to the provider when
    /// it needs work and its count passes the token guard.
    pub fn from_counts(items: Vec<WorkItem>, counts: &Vec<Option<usize>>, chunk_size: usize) -> (outcome:
        Result<Scheduler, SchedulerError>)
        ensures
            chunk_size == 0 ==> outcome is Err && outcome->Err_0 == SchedulerError::ZeroChunkSize,
            chunk_size > 0 && counts@.len() != items@.len() ==> outcome is Err && outcome->Err_0
                == SchedulerError::CountMismatch,
            chunk_size > 0 && counts@.len() == items@.len() ==> ({
                &&& outcome matches Ok(scheduler)
                &&& scheduler.items() == items_view(items@)
                &&& scheduler.send() == flags_from(items_view(items@), counts@)
                &&& scheduler.chunk_size() == chunk_size
                &&& scheduler.results() == Seq::<Option<Seq<u32>>>::empty()
            }),
    {
        if chunk_size == 0 {
            return Err(SchedulerError::ZeroChunkSize);
        }
        if counts.len() != items.len() {
            return Err(SchedulerError::CountMismatch);
        }
        let mut send: Vec<bool> = Vec::new();
        let mut i: usize = 0;
        while i < items.len()
            invariant
                i <= items.len(),
                counts@.len() == items@.len(),
                send@.len() == i,
                forall|k: int| 0 <= k < i ==> #[trigger] send@[k] == sendable(items@[k]@, counts@[k]),
            decreases items.len() - i,
        {
            send.push(items[i].needs_work && admits_count(counts[i]));
            i += 1;
        }
        assert(send@ =~= flags_from(items_view(items@), counts@));
        let scheduler = Scheduler { items, send, chunk_size, results: Vec::new() };
        assert(scheduler.results() =~= Seq::<Option<Seq<u32>>>::empty());
        Ok(scheduler)
    }

    /// A scheduler over `items` with chunks of `chunk_size` items. The tokens
    /// of each text that needs work are counted here, once.
    pub fn new(items: Vec<WorkItem>, chunk_size: usize) -> (outcome: Result<
        Scheduler,
        SchedulerError,
    >)
        ensures
            chunk_size == 0 ==> outcome is Err && outcome->Err_0 == SchedulerError::ZeroChunkSize,
            chunk_size > 0 ==> ({
                &&& outcome matches Ok(scheduler)
                &&& scheduler.items() == items_view(items@)
                &&& scheduler.send() == flags_of(items_view(items@))
                &&& scheduler.chunk_size() == chunk_size
                &&& scheduler.results() == Seq::<Option<Seq<u32>>>::empty()
            }),
    {
        if chunk_size == 0 {
            return Err(SchedulerError::ZeroChunkSize);
        }
        let send = guard_flags(&items);
        let scheduler = Scheduler { items, send, chunk_size, results: Vec::new() };
        assert(scheduler.results() =~= Seq::<Option<Seq<u32>>>::empty());
        Ok(scheduler)
    }

    /// A scheduler over `items` with chunks of `CHUNK_SIZE` items.
    pub fn standard(items: Vec<WorkItem>) -> (scheduler: Scheduler)
        ensures
            scheduler.items() == items_view(items@),
            scheduler.send() == flags_of(items_view(items@)),
            scheduler.chunk_size() == CHUNK_SIZE,
            scheduler.results() == Seq::<Option<Seq<u32>>>::empty(),
    {
        let send = guard_flags(&items);
        let scheduler = Scheduler { items, send, chunk_size: CHUNK_SIZE, results: Vec::new() };
        assert(scheduler.results() =~= Seq::<Option<Seq<u32>>>::empty());
        scheduler
    }

    /// Number of work items.
    pub fn len(&self) -> (n: usize)
        ensures
            n == self.items().len(),
            n == self.send().len(),
    {
        proof {
            use_type_invariant(self);
        }
        self.items.len()
    }

    /// Number of items whose chunk was completed.
    pub fn completed(&self) -> (n: usize)
        ensures
            n == self.cursor(),
            n <= self.items().len(),
    {
        proof {
            use_type_invariant(self);
        }
        self.results.len()
    }

    /// Whether every chunk was completed.
    pub fn is_finished(&self) -> (done: bool)
        ensures
            done == self.finished(),
    {
        self.results.len() == self.items.len()
    }

    /// Number of chunks that are not completed yet.
    pub fn remaining_chunks(&self) -> (count: usize)
        ensures
            count == self.chunks_left(),
            count == 0 <==> self.finished(),
    {
        proof {
            use_type_invariant(self);
        }
        let remaining = self.items.len() - self.results.len();
        proof {
            lemma_chunk_count(remaining as int, self.chunk_size as int);
        }
        let full = remaining / self.chunk_size;
        if remaining % self.chunk_size > 0 {
            full + 1
        } else {
            full
        }
    }

    /// The positions of the items that need work and are held back by the
    /// token guard, ascending.
    pub fn held_back(&self) -> (positions: Vec<usize>)
        ensures
            forall|j: int|
                0 <= j < positions@.len() ==> ({
                    &&& (#[trigger] positions@[j]) < self.items().len()
                    &&& self.items()[positions@[j] as int].needs_work
                    &&& !self.send()[positions@[j] as int]
                }),
            forall|j: int, k: int|
                0 <= j < k < positions@.len() ==> positions@[j] < positions@[k],
            forall|i: int|
                0 <= i < self.items().len() && (#[trigger] self.items()[i]).needs_work
                    && !self.send()[i] ==> positions@.contains(i as usize),
    {
        proof {
            use_type_invariant(self);
        }
        let mut positions: Vec<usize> = Vec::new();
        let mut i: usize = 0;
        while i < self.items.len()
            invariant
                i <= self.items@.len(),
                self.send@.len() == self.items@.len(),
                forall|j: int|
                    0 <= j < positions@.len() ==> {
                        &&& (#[trigger] positions@[j]) < i
                        &&& self.items()[positions@[j] as int].needs_work
                        &&& !self.send()[positions@[j] as int]
                    },
                forall|j: int, k: int|
                    0 <= j < k < positions@.len() ==> positions@[j] < positions@[k],
                forall|k: int|
                    0 <= k < i && (#[trigger] self.items()[k]).needs_work && !self.send()[k]
                        ==> positions@.contains(k as usize),
            decreases self.items.len() - i,
        {
            assert(self.items()[i as int] == self.items@[i as int]@);
            if self.items[i].needs_work && !self.send[i] {
                let ghost before = positions@;
                positions.push(i);
                assert forall|k: int|
                    0 <= k < i + 1 && (#[trigger] self.items()[k]).needs_work && !self.send()[k]
                    implies positions@.contains(k as usize) by {
                    if k < i {
                        let j = choose|j: int| 0 <= j < before.len() && before[j] == k as usize;
                        assert(positions@[j] == k as usize);
                    } else {
                        assert(positions@[before.len() as int] == i);
                    }
                }
            }
            i += 1;
        }
        positions
    }

    fn chunk_stop(&self) -> (hi: usize)
        ensures
            hi == self.stop(),
            self.cursor() <= hi <= self.items().len(),
            hi - self.cursor() <= self.chunk_size(),
            self.cursor() < self.items().len() ==> self.cursor() < hi,
    {
        proof {
            use_type_invariant(self);
        }
        let lo = self.results.len();
        let n = self.items.len();
        if self.chunk_size < n - lo {
            lo + self.chunk_size
        } else {
            n
        }
    }

    /// The requests of the current chunk, in input order: one for each item of
    /// the chunk that is sent, and so at most `chunk_size` of them. A finished
    /// scheduler has none.
    pub fn plan_chunk(&self) -> (batch: Vec<Dispatch>)
        ensures
            batch@.len() == self.plan().len(),
            batch@.len() <= self.chunk_size(),
            forall|j: int|
                0 <= j < batch@.len() ==> ({
                    &&& (#[trigger] batch@[j]).index == self.plan()[j]
                    &&& batch@[j].request@ == request_of(self.items()[self.plan()[j]].text)
                }),
    {
        proof {
            use_type_invariant(self);
        }
        let lo = self.results.len();
        let hi = self.chunk_stop();
        let mut batch: Vec<Dispatch> = Vec::new();
        let mut i: usize = lo;
        while i < hi
            invariant
                lo <= i <= hi <= self.items@.len(),
                self.send@.len() == self.items@.len(),
                batch@.len() == dispatched(self.send(), lo as int, i as int).len(),
                forall|j: int|
                    0 <= j < batch@.len() ==> {
                        &&& (#[trigger] batch@[j]).index == dispatched(
                            self.send(),
                            lo as int,
                            i as int,
                        )[j]
                        &&& batch@[j].request@ == request_of(
                            self.items()[dispatched(self.send(), lo as int, i as int)[j]].text,
                        )
                    },
            decreases hi - i,
        {
            assert(self.items()[i as int] == self.items@[i as int]@);
            if self.send[i] {
                let request = request_for(self.items[i].text.as_str());
                batch.push(Dispatch { index: i, request });
            }
            i += 1;
        }
        proof {
            lemma_dispatched(self.send(), lo as int, hi as int);
        }
        batch
    }

    /// Hands the replies of the current chunk back, in the order of its
    /// requests, and moves on to the next chunk. Each reply is placed at the
    /// position of the item it was requested for; the other items of the chunk
    /// get no embedding. Where the number of replies is not the number of
    /// requests, nothing changes.
    pub fn complete_chunk(&mut self, replies: &Vec<Option<Embedding>>) -> (outcome: Result<
        (),
        SchedulerError,
    >)
        ensures
            final(self).items() == old(self).items(),
            final(self).send() == old(self).send(),
            final(self).chunk_size() == old(self).chunk_size(),
            replies@.len() != old(self).plan().len() ==> ({
                &&& outcome == Err::<(), SchedulerError>(SchedulerError::ReplyCountMismatch)
                &&& final(self).results() == old(self).results()
            }),
            replies@.len() == old(self).plan().len() ==> ({
                &&& outcome is Ok
                &&& final(self).results() == old(self).results() + chunk_results(
                    old(self).send(),
                    old(self).cursor(),
                    old(self).stop(),
                    embeddings_view(replies@),
                )
                &&& final(self).cursor() == old(self).stop()
                &&& !old(self).finished() ==> final(self).chunks_left() == old(self).chunks_left()
                    - 1
                &&& forall|j: int|
                    0 <= j < replies@.len() ==> final(self).results()[#[trigger] old(self).plan()[j]]
                        == embedding_view(replies@[j])
                &&& forall|i: int|
                    old(self).cursor() <= i < old(self).stop() && !#[trigger] old(self).send()[i]
                        ==> final(self).results()[i] is None
            }),
    {
        proof {
            use_type_invariant(&*self);
        }
        let lo = self.results.len();
        let hi = self.chunk_stop();
        let ghost send = self.send();
        let ghost before = self.results();
        let ghost answers = embeddings_view(replies@);

        let mut expected: usize = 0;
        let mut i: usize = lo;
        while i < hi
            invariant
                lo <= i <= hi <= self.send@.len(),
                send == self.send@,
                expected == dispatched(send, lo as int, i as int).len(),
                expected <= i - lo,
            decreases hi - i,
        {
            if self.send[i] {
                expected += 1;
            }
            i += 1;
        }
        if replies.len() != expected {
            return Err(SchedulerError::ReplyCountMismatch);
        }
        let mut results: Vec<Option<Embedding>> = Vec::new();
        core::mem::swap(&mut self.results, &mut results);
        let mut next: usize = 0;
        let mut i: usize = lo;
        while i < hi
            invariant
                lo <= i <= hi <= self.send@.len(),
                send == self.send@,
                answers == embeddings_view(replies@),
                replies@.len() == expected,
                replies@.len() == dispatched(send, lo as int, hi as int).len(),
                next == dispatched(send, lo as int, i as int).len(),
                results@.len() == i,
                embeddings_view(results@) == before + chunk_results(
                    send,
                    lo as int,
                    i as int,
                    answers,
                ),
            decreases hi - i,
        {
            proof {
                lemma_dispatched_grows(send, lo as int, i as int, hi as int);
            }
            let ghost so_far = embeddings_view(results@);
            if self.send[i] {
                results.push(clone_embedding(&replies[next]));
                next += 1;
            } else {
                results.push(None);
            }
            assert(embeddings_view(results@) =~= so_far.push(
                placed(send, lo as int, i as int, answers),
            ));
            assert(chunk_results(send, lo as int, i + 1, answers) =~= chunk_results(
                send,
                lo as int,
                i as int,
                answers,
            ).push(placed(send, lo as int, i as int, answers)));
            i += 1;
        }
        self.results = results;
        proof {
            if lo < self.items@.len() {
                lemma_chunk_step(self.items@.len() - lo, self.chunk_size as int);
            }
            lemma_dispatched(send, lo as int, hi as int);
            assert forall|j: int| 0 <= j < replies@.len() implies self.results()[#[trigger] dispatched(
                send,
                lo as int,
                hi as int,
            )[j]] == embedding_view(replies@[j]) by {
                let at = dispatched(send, lo as int, hi as int)[j];
                assert(self.results()[at] == chunk_results(send, lo as int, hi as int, answers)[at
                    - lo]);
            }
            assert forall|i: int| lo <= i < hi && !#[trigger] send[i] implies self.results()[i] is None by {
                assert(self.results()[i] == chunk_results(send, lo as int, hi as int, answers)[i
                    - lo]);
            }
        }
        Ok(())
    }

    /// Gives the results out: one for each item of the completed chunks, in
    /// input order. Once the scheduler is finished that is one for each item.
    pub fn into_results(self) -> (column: Vec<Option<Embedding>>)
        ensures
            embeddings_view(column@) == self.results(),
            self.finished() ==> column@.len() == self.items().len(),
    {
        self.results
    }
}

/// Applies the token guard to each item that needs work.
fn guard_flags(items: &Vec<WorkItem>) -> (send: Vec<bool>)
    ensures
        send@ == flags_of(items_view(items@)),
{
    let mut send: Vec<bool> = Vec::new();
    let mut i: usize = 0;
    while i < items.len()
        invariant
            i <= items.len(),
            send@.len() == i,
            forall|k: int| 0 <= k < i ==> #[trigger] send@[k] == dispatchable(items@[k]@),
        decreases items.len() - i,
    {
        let item = &items[i];
        let flag = item.needs_work && admits(item.text.as_str());
        send.push(flag);
        i += 1;
    }
    assert(send@ =~= flags_of(items_view(items@)));
    send
}

/// The plan of a longer range starts with the plan of a shorter one.
proof fn lemma_dispatched_grows(send: Seq<bool>, lo: int, mid: int, hi: int)
    requires
        0 <= lo <= mid <= hi <= send.len(),
    ensures
        dispatched(send, lo, mid).len() <= dispatched(send, lo, hi).len(),
        mid < hi && send[mid] ==> dispatched(send, lo, mid).len() < dispatched(send, lo, hi).len(),
    decreases hi - mid,
{
    if mid < hi {
        lemma_dispatched_grows(send, lo, mid, hi - 1);
        if mid == hi - 1 {
            assert(dispatched(send, lo, hi - 1) == dispatched(send, lo, mid));
        }
    }
}

} // verus!
