//! The similarity search engine: the query's path to its embedding, and the
//! ranked answer made from the scores of the records. Searching reads the
//! corpus and never changes it.

use crate::merge::corpus_view;
use crate::provider::{
    prepare_request, reply_embedding, request_of, resolve_reply, EmbedRequest, ProviderReply,
};
use crate::ranking::{is_ranking, rank_order};
use crate::record::{Embedding, Record, RecordView};
use crate::text::{decimal, push_decimal};
use crate::tokens::text_admitted;
use vstd::prelude::*;
use vstd::string::StringExecFns;

verus! {

/// Number of results of a search unless the caller chooses another.
pub const TOP_K: usize = 20;

/// What stands before a record's id in its resource identifier.
pub open spec fn question_prefix() -> Seq<char> {
    "https://physics.stackexchange.com/questions/"@
}

/// The resource identifier of the record with this id: the prefix and the id
/// in decimal.
pub open spec fn resource_name(id: u32) -> Seq<char> {
    question_prefix() + decimal(id as nat)
}

/// Renders the resource identifier of the record with this id.
pub fn resource_id(id: u32) -> (name: String)
    ensures
        name@ == resource_name(id),
{
    let mut name = String::from_str("https://physics.stackexchange.com/questions/");
    push_decimal(&mut name, id);
    name
}

/// Why a search request failed.
#[derive(Debug, Clone, Copy, PartialEq, Eq, Structural)]
pub enum SearchError {
    /// The query does not pass the token guard, so it has no embedding.
    QueryRejected,
    /// The provider gave no embedding for the query.
    QueryEmbeddingMissing,
    /// A stored embedding has not the length of the query's, so the two come
    /// from different models and cannot be compared.
    DimensionMismatch,
    /// There is not one score for each record.
    ScoreCountMismatch,
}

/// One line of a search result.
#[derive(Debug, PartialEq, Eq)]
pub struct Hit {
    /// Position of the record in the corpus.
    pub position: usize,
    /// The record's resource identifier.
    pub id: String,
    pub title: String,
    /// Bit pattern of the record's score, absent where it has no embedding.
    pub score: Option<u64>,
}

/// The positions that a result lists, in the order of the result.
pub open spec fn positions(hits: Seq<Hit>) -> Seq<usize> {
    Seq::new(hits.len(), |j: int| hits[j].position)
}

/// The scores that count: a record without an embedding has none.
pub open spec fn effective_scores(corpus: Seq<RecordView>, scores: Seq<Option<u64>>) -> Seq<
    Option<u64>,
> {
    Seq::new(
        corpus.len(),
        |i: int|
            if corpus[i].embedding is Some {
                scores[i]
            } else {
                None
            },
    )
}

/// The request for the query's embedding. A query that does not pass the token
/// guard fails the search; it is not skipped.
pub fn query_request(text: &str) -> (outcome: Result<EmbedRequest, SearchError>)
    ensures
        text_admitted(text@) ==> (outcome matches Ok(request) && request@ == request_of(text@)),
        !text_admitted(text@) ==> outcome == Err::<EmbedRequest, SearchError>(
            SearchError::QueryRejected,
        ),
{
    match prepare_request(text) {
        Some(request) => Ok(request),
        None => Err(SearchError::QueryRejected),
    }
}

/// The query's embedding, from the provider's reply. A reply without an
/// embedding fails the search.
pub fn query_embedding(reply: ProviderReply) -> (outcome: Result<Embedding, SearchError>)
    ensures
        reply_embedding(reply) is Some ==> (outcome matches Ok(embedding) && Some(embedding@)
            == reply_embedding(reply)),
        reply_embedding(reply) is None ==> outcome == Err::<Embedding, SearchError>(
            SearchError::QueryEmbeddingMissing,
        ),
{
    match resolve_reply(reply) {
        Some(embedding) => Ok(embedding),
        None => Err(SearchError::QueryEmbeddingMissing),
    }
}

/// Every stored embedding has the length of the query's.
pub open spec fn comparable(corpus: Seq<RecordView>, query: Seq<u32>) -> bool {
    forall|i: int|
        0 <= i < corpus.len() ==> match (#[trigger] corpus[i]).embedding {
            Some(stored) => stored.len() == query.len(),
            None => true,
        }
}

/// Checks that every stored embedding can be scored against the query's.
pub fn check_dimensions(corpus: &Vec<Record>, query: &Embedding) -> (outcome: Result<
    (),
    SearchError,
>)
    ensures
        comparable(corpus_view(corpus@), query@) ==> outcome is Ok,
        !comparable(corpus_view(corpus@), query@) ==> outcome == Err::<(), SearchError>(
            SearchError::DimensionMismatch,
        ),
{
    let mut i: usize = 0;
    while i < corpus.len()
        invariant
            i <= corpus.len(),
            forall|k: int|
                0 <= k < i ==> match (#[trigger] corpus_view(corpus@)[k]).embedding {
                    Some(stored) => stored.len() == query@.len(),
                    None => true,
                },
        decreases corpus.len() - i,
    {
        match &corpus[i].embedding {
            Some(stored) => {
                if stored.bits.len() != query.bits.len() {
                    assert(corpus_view(corpus@)[i as int].embedding == Some(stored@));
                    return Err(SearchError::DimensionMismatch);
                }
            },
            None => {},
        }
        i += 1;
    }
    Ok(())
}

/// Ranks the records by their scores and gives the best `limit` of them, best
/// first. `scores` holds, for each record, the bit pattern of the dot product
/// of its embedding with the query's. Records without an embedding count as
/// unscored and come after all scored ones.
pub fn search(corpus: &Vec<Record>, scores: &Vec<Option<u64>>, limit: usize) -> (outcome: Result<
    Vec<Hit>,
    SearchError,
>)
    ensures
        scores@.len() != corpus@.len() ==> outcome == Err::<Vec<Hit>, SearchError>(
            SearchError::ScoreCountMismatch,
        ),
        scores@.len() == corpus@.len() ==> ({
            &&& outcome matches Ok(hits)
            &&& is_ranking(
                effective_scores(corpus_view(corpus@), scores@),
                limit as int,
                positions(hits@),
            )
            &&& forall|j: int|
                0 <= j < hits@.len() ==> ({
                    &&& (#[trigger] hits@[j]).id@ == resource_name(corpus@[hits@[j].position as int].id)
                    &&& hits@[j].title@ == corpus@[hits@[j].position as int].title@
                    &&& hits@[j].score == effective_scores(
                        corpus_view(corpus@),
                        scores@,
                    )[hits@[j].position as int]
                })
        }),
{
    if scores.len() != corpus.len() {
        return Err(SearchError::ScoreCountMismatch);
    }
    let ghost wanted = effective_scores(corpus_view(corpus@), scores@);
    let mut counted: Vec<Option<u64>> = Vec::new();
    let mut i: usize = 0;
    while i < corpus.len()
        invariant
            i <= corpus.len(),
            scores@.len() == corpus@.len(),
            wanted == effective_scores(corpus_view(corpus@), scores@),
            counted@.len() == i,
            forall|k: int| 0 <= k < i ==> counted@[k] == wanted[k],
        decreases corpus.len() - i,
    {
        if corpus[i].embedding.is_some() {
            counted.push(scores[i]);
        } else {
            counted.push(None);
        }
        i += 1;
    }
    assert(counted@ =~= wanted);
    let order = rank_order(&counted, limit);
    let mut hits: Vec<Hit> = Vec::new();
    let mut j: usize = 0;
    while j < order.len()
        invariant
            j <= order.len(),
            counted@ == wanted,
            counted@.len() == corpus@.len(),
            is_ranking(wanted, limit as int, order@),
            hits@.len() == j,
            forall|k: int|
                0 <= k < j ==> {
                    &&& (#[trigger] hits@[k]).position == order@[k]
                    &&& hits@[k].id@ == resource_name(corpus@[order@[k] as int].id)
                    &&& hits@[k].title@ == corpus@[order@[k] as int].title@
                    &&& hits@[k].score == wanted[order@[k] as int]
                },
        decreases order.len() - j,
    {
        let position = order[j];
        let record = &corpus[position];
        hits.push(
            Hit {
                position,
                id: resource_id(record.id),
                title: record.title.clone(),
                score: counted[position],
            },
        );
        j += 1;
    }
    assert(positions(hits@) =~= order@);
    Ok(hits)
}

} // verus!
