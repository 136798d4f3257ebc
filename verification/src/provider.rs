//! The embedding provider seen from this crate: what is asked of it and what
//! is made of its answer. The call itself belongs to the caller.

use crate::record::{embedding_view, Embedding};
use crate::tokens::{admits, admits_count, admitted, text_admitted};
use vstd::prelude::*;
use vstd::string::StringExecFns;

verus! {

/// The identifier of the embedding model.
pub open spec fn model_name() -> Seq<char> {
    "text-embedding-3-large"@
}

/// The identifier of the embedding model.
pub fn embedding_model() -> (name: &'static str)
    ensures
        name@ == model_name(),
{
    "text-embedding-3-large"
}

/// A request for the embedding of a single text.
#[derive(Debug, PartialEq, Eq)]
pub struct EmbedRequest {
    pub model: String,
    pub input: String,
}

/// What a request holds.
pub struct EmbedRequestView {
    pub model: Seq<char>,
    pub input: Seq<char>,
}

impl View for EmbedRequest {
    type V = EmbedRequestView;

    open spec fn view(&self) -> EmbedRequestView {
        EmbedRequestView { model: self.model@, input: self.input@ }
    }
}

/// The request that asks for the embedding of `text`.
pub open spec fn request_of(text: Seq<char>) -> EmbedRequestView {
    EmbedRequestView { model: model_name(), input: text }
}

/// Builds the request for `text`, whatever its length.
pub fn request_for(text: &str) -> (request: EmbedRequest)
    ensures
        request@ == request_of(text@),
{
    EmbedRequest { model: String::from_str(embedding_model()), input: String::from_str(text) }
}

/// The guard's decision on a text whose token count is `count`: the request to
/// send, or `None` where the text is skipped.
pub open spec fn guarded_request(text: Seq<char>, count: Option<usize>) -> Option<
    EmbedRequestView,
> {
    if admitted(count) {
        Some(request_of(text))
    } else {
        None
    }
}

/// The view of an optional request.
pub open spec fn request_view(r: Option<EmbedRequest>) -> Option<EmbedRequestView> {
    match r {
        Some(q) => Some(q@),
        None => None,
    }
}

/// Applies the guard to a text whose token count is already known.
pub fn prepare_counted(text: &str, count: Option<usize>) -> (request: Option<EmbedRequest>)
    ensures
        request_view(request) == guarded_request(text@, count),
{
    if admits_count(count) {
        Some(request_for(text))
    } else {
        None
    }
}

/// Counts the tokens of `text` and applies the guard: a text over the ceiling
/// yields no request, so the provider is not contacted for it.
pub fn prepare_request(text: &str) -> (request: Option<EmbedRequest>)
    ensures
        text_admitted(text@) ==> request_view(request) == Some(request_of(text@)),
        !text_admitted(text@) ==> request is None,
{
    if admits(text) {
        Some(request_for(text))
    } else {
        None
    }
}

/// The provider's answer to one request, as plain values.
#[derive(Debug, PartialEq, Eq)]
pub enum ProviderReply {
    /// The call failed: network, authentication, or a response that could not
    /// be read.
    Failed,
    /// The vectors of the response, in the order in which they were listed.
    Vectors(Vec<Embedding>),
}

/// The embedding that a reply stands for: the last vector listed, and nothing
/// where the call failed or listed none.
pub open spec fn reply_embedding(reply: ProviderReply) -> Option<Seq<u32>> {
    match reply {
        ProviderReply::Failed => None,
        ProviderReply::Vectors(vectors) => if vectors@.len() == 0 {
            None
        } else {
            Some(vectors@.last()@)
        },
    }
}

/// Turns a reply into an optional embedding. A failure becomes an absent
/// value, never an error.
pub fn resolve_reply(reply: ProviderReply) -> (embedding: Option<Embedding>)
    ensures
        embedding_view(embedding) == reply_embedding(reply),
{
    match reply {
        ProviderReply::Failed => None,
        ProviderReply::Vectors(vectors) => {
            let mut vectors = vectors;
            vectors.pop()
        },
    }
}

} // verus!
