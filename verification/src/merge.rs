//! The incremental merge engine: it decides which records need an embedding,
//! skips the run when none does, and combines the stored embeddings with the
//! freshly computed ones so that a stored embedding is never replaced.

use crate::eligibility::{eligible, AllowList};
use crate::record::{clone_embedding, embedding_view, Embedding, Record, RecordView};
use crate::scheduler::{
    dispatchable, dispatched, embeddings_view, flags_of, items_view, lemma_dispatched, resolved,
    Scheduler, WorkItem, WorkItemView, CHUNK_SIZE,
};
use vstd::prelude::*;
use vstd::string::StringExecFns;

verus! {

/// The views of a sequence of records.
pub open spec fn corpus_view(corpus: Seq<Record>) -> Seq<RecordView> {
    Seq::new(corpus.len(), |i: int| corpus[i]@)
}

/// The text that is embedded for a record.
pub open spec fn combined(title: Seq<char>, body: Seq<char>) -> Seq<char> {
    "Title: "@ + title + " Body: "@ + body
}

/// A record needs work when it is eligible and has no embedding yet.
pub open spec fn wants_embedding(record: RecordView, allow: Seq<Seq<char>>) -> bool {
    eligible(record.tags, allow) && record.embedding is None
}

/// The work item of a record.
pub open spec fn work_item_of(record: RecordView, allow: Seq<Seq<char>>) -> WorkItemView {
    WorkItemView {
        text: combined(record.title, record.body),
        needs_work: wants_embedding(record, allow),
    }
}

/// The work items of a corpus, one for each record, in the order of the records.
pub open spec fn workset(corpus: Seq<RecordView>, allow: Seq<Seq<char>>) -> Seq<WorkItemView> {
    Seq::new(corpus.len(), |i: int| work_item_of(corpus[i], allow))
}

/// Some record of the corpus needs work.
pub open spec fn any_work(corpus: Seq<RecordView>, allow: Seq<Seq<char>>) -> bool {
    exists|i: int| 0 <= i < corpus.len() && wants_embedding(#[trigger] corpus[i], allow)
}

/// The first value that is present, the stored one before the fresh one.
pub open spec fn first_present(stored: Option<Seq<u32>>, fresh: Option<Seq<u32>>) -> Option<
    Seq<u32>,
> {
    if stored is Some {
        stored
    } else {
        fresh
    }
}

/// A record after the merge: only its embedding can have changed.
pub open spec fn merged_record(record: RecordView, fresh: Option<Seq<u32>>) -> RecordView {
    RecordView {
        id: record.id,
        title: record.title,
        body: record.body,
        tags: record.tags,
        embedding: first_present(record.embedding, fresh),
    }
}

/// A corpus after the merge with a column of fresh embeddings of its length.
pub open spec fn merged(corpus: Seq<RecordView>, fresh: Seq<Option<Seq<u32>>>) -> Seq<RecordView> {
    Seq::new(corpus.len(), |i: int| merged_record(corpus[i], fresh[i]))
}

/// Why a merge was refused.
#[derive(Debug, Clone, Copy, PartialEq, Eq, Structural)]
pub enum MergeError {
    /// The column of fresh embeddings has not one entry for each record.
    LengthMismatch,
}

/// Builds the text that is embedded for a record with this title and body.
pub fn combined_text(title: &str, body: &str) -> (text: String)
    ensures
        text@ == combined(title@, body@),
{
    let mut text = String::from_str("Title: ");
    text.append(title);
    text.append(" Body: ");
    text.append(body);
    text
}

/// Decides whether a record needs work.
pub fn needs_work(record: &Record, allow: &AllowList) -> (needed: bool)
    ensures
        needed == wants_embedding(record@, allow@),
{
    record.embedding.is_none() && allow.admits(record.tags.as_str())
}

/// Decides whether any record of the corpus needs work.
pub fn has_work(corpus: &Vec<Record>, allow: &AllowList) -> (found: bool)
    ensures
        found == any_work(corpus_view(corpus@), allow@),
{
    let mut i: usize = 0;
    while i < corpus.len()
        invariant
            i <= corpus.len(),
            forall|k: int| 0 <= k < i ==> !wants_embedding(#[trigger] corpus_view(corpus@)[k], allow@),
        decreases corpus.len() - i,
    {
        if needs_work(&corpus[i], allow) {
            assert(wants_embedding(corpus_view(corpus@)[i as int], allow@));
            return true;
        }
        i += 1;
    }
    false
}

/// Builds the work items of a corpus: for each record its combined text and
/// whether it needs work.
pub fn work_items(corpus: &Vec<Record>, allow: &AllowList) -> (items: Vec<WorkItem>)
    ensures
        items@.len() == corpus@.len(),
        items_view(items@) == workset(corpus_view(corpus@), allow@),
{
    let mut items: Vec<WorkItem> = Vec::new();
    let mut i: usize = 0;
    while i < corpus.len()
        invariant
            i <= corpus.len(),
            items@.len() == i,
            forall|k: int| 0 <= k < i ==> (#[trigger] items@[k])@ == work_item_of(corpus@[k]@, allow@),
        decreases corpus.len() - i,
    {
        let record = &corpus[i];
        let text = combined_text(record.title.as_str(), record.body.as_str());
        let flag = needs_work(record, allow);
        items.push(WorkItem { text, needs_work: flag });
        i += 1;
    }
    assert(items_view(items@) =~= workset(corpus_view(corpus@), allow@));
    items
}

/// Plans an enrichment run. Where no record needs work there is nothing to
/// run, and no scheduler is made; otherwise the scheduler holds the work items
/// of the corpus and has completed no chunk.
pub fn plan_enrichment(corpus: &Vec<Record>, allow: &AllowList) -> (plan: Option<Scheduler>)
    ensures
        plan is None <==> !any_work(corpus_view(corpus@), allow@),
        plan matches Some(scheduler) ==> ({
            &&& scheduler.items() == workset(corpus_view(corpus@), allow@)
            &&& scheduler.send() == flags_of(workset(corpus_view(corpus@), allow@))
            &&& scheduler.chunk_size() == CHUNK_SIZE
            &&& scheduler.results() == Seq::<Option<Seq<u32>>>::empty()
        }),
{
    if !has_work(corpus, allow) {
        return None;
    }
    Some(Scheduler::standard(work_items(corpus, allow)))
}

/// Keeps the stored embedding where there is one, and takes the fresh one
/// otherwise.
pub fn coalesce(stored: &Option<Embedding>, fresh: &Option<Embedding>) -> (kept: Option<Embedding>)
    ensures
        embedding_view(kept) == first_present(embedding_view(*stored), embedding_view(*fresh)),
{
    if stored.is_some() {
        clone_embedding(stored)
    } else {
        clone_embedding(fresh)
    }
}

/// Merges a column of fresh embeddings into the corpus, record by record. The
/// column must have one entry for each record. A record that had an embedding
/// keeps it; nothing but embeddings changes.
pub fn merge(corpus: &Vec<Record>, fresh: &Vec<Option<Embedding>>) -> (outcome: Result<
    Vec<Record>,
    MergeError,
>)
    ensures
        fresh@.len() != corpus@.len() ==> outcome == Err::<Vec<Record>, MergeError>(
            MergeError::LengthMismatch,
        ),
        fresh@.len() == corpus@.len() ==> ({
            &&& outcome matches Ok(next)
            &&& next@.len() == corpus@.len()
            &&& corpus_view(next@) == merged(corpus_view(corpus@), embeddings_view(fresh@))
        }),
{
    if fresh.len() != corpus.len() {
        return Err(MergeError::LengthMismatch);
    }
    let mut next: Vec<Record> = Vec::new();
    let mut i: usize = 0;
    while i < corpus.len()
        invariant
            i <= corpus.len(),
            fresh@.len() == corpus@.len(),
            next@.len() == i,
            forall|k: int|
                0 <= k < i ==> (#[trigger] next@[k])@ == merged_record(
                    corpus@[k]@,
                    embedding_view(fresh@[k]),
                ),
        decreases corpus.len() - i,
    {
        let record = &corpus[i];
        next.push(
            Record {
                id: record.id,
                title: record.title.clone(),
                body: record.body.clone(),
                tags: record.tags.clone(),
                embedding: coalesce(&record.embedding, &fresh[i]),
            },
        );
        i += 1;
    }
    assert(corpus_view(next@) =~= merged(corpus_view(corpus@), embeddings_view(fresh@)));
    Ok(next)
}

/// A corpus after one enrichment run in which the provider answers a request
/// for a text with `answer` of that text.
pub open spec fn enriched(
    corpus: Seq<RecordView>,
    allow: Seq<Seq<char>>,
    answer: spec_fn(Seq<char>) -> Option<Seq<u32>>,
) -> Seq<RecordView> {
    merged(corpus, resolved(workset(corpus, allow), answer))
}

/// The states of a record's embedding over one run: a stored embedding stays
/// as it is; an absent one becomes what the provider answers if the record
/// needs work and its text passes the token guard, and stays absent otherwise.
/// Nothing else of a record changes.
pub proof fn lemma_transitions(
    corpus: Seq<RecordView>,
    allow: Seq<Seq<char>>,
    answer: spec_fn(Seq<char>) -> Option<Seq<u32>>,
    at: int,
)
    requires
        0 <= at < corpus.len(),
    ensures
        enriched(corpus, allow, answer).len() == corpus.len(),
        enriched(corpus, allow, answer)[at].id == corpus[at].id,
        enriched(corpus, allow, answer)[at].title == corpus[at].title,
        enriched(corpus, allow, answer)[at].body == corpus[at].body,
        enriched(corpus, allow, answer)[at].tags == corpus[at].tags,
        enriched(corpus, allow, answer)[at].embedding == (if corpus[at].embedding is Some {
            corpus[at].embedding
        } else if dispatchable(work_item_of(corpus[at], allow)) {
            answer(combined(corpus[at].title, corpus[at].body))
        } else {
            None
        }),
{
}

/// Write-once: a record that has an embedding comes out of a merge as it went
/// in, whatever the fresh column holds for it.
pub proof fn lemma_write_once(corpus: Seq<RecordView>, fresh: Seq<Option<Seq<u32>>>, at: int)
    requires
        0 <= at < corpus.len(),
        corpus[at].embedding is Some,
    ensures
        merged(corpus, fresh)[at] == corpus[at],
{
}

/// Idempotence: a second enrichment run, with a provider that answers as it
/// did in the first, changes nothing.
pub proof fn lemma_enrich_idempotent(
    corpus: Seq<RecordView>,
    allow: Seq<Seq<char>>,
    answer: spec_fn(Seq<char>) -> Option<Seq<u32>>,
)
    ensures
        enriched(enriched(corpus, allow, answer), allow, answer) == enriched(corpus, allow, answer),
{
    let once = enriched(corpus, allow, answer);
    let twice = enriched(once, allow, answer);
    assert forall|i: int| 0 <= i < corpus.len() implies twice[i] == once[i] by {
        assert(workset(once, allow)[i].text == workset(corpus, allow)[i].text);
    }
    assert(twice =~= once);
}

/// Empty workset: where no record needs work, no chunk of the run plans a
/// request, and the run leaves the corpus as it is.
pub proof fn lemma_no_work_no_change(
    corpus: Seq<RecordView>,
    allow: Seq<Seq<char>>,
    answer: spec_fn(Seq<char>) -> Option<Seq<u32>>,
    lo: int,
    hi: int,
)
    requires
        !any_work(corpus, allow),
        0 <= lo <= hi <= corpus.len(),
    ensures
        dispatched(flags_of(workset(corpus, allow)), lo, hi).len() == 0,
        enriched(corpus, allow, answer) == corpus,
{
    let items = workset(corpus, allow);
    let send = flags_of(items);
    lemma_dispatched(send, lo, hi);
    if dispatched(send, lo, hi).len() > 0 {
        let at = dispatched(send, lo, hi)[0];
        assert(send[at]);
        assert(wants_embedding(corpus[at], allow));
    }
    assert forall|i: int| 0 <= i < corpus.len() implies enriched(corpus, allow, answer)[i]
        == corpus[i] by {
        assert(!wants_embedding(corpus[i], allow));
    }
    assert(enriched(corpus, allow, answer) =~= corpus);
}

} // verus!
