//! The corpus data model: question records and their optional embeddings.

use vstd::prelude::*;

verus! {

/// An embedding vector. Each component is held as the bit pattern of an
/// IEEE-754 single-precision number; the crate moves these patterns around and
/// never does arithmetic on them.
#[derive(Debug, PartialEq, Eq)]
pub struct Embedding {
    pub bits: Vec<u32>,
}

impl View for Embedding {
    type V = Seq<u32>;

    open spec fn view(&self) -> Seq<u32> {
        self.bits@
    }
}

impl DeepView for Embedding {
    type V = Seq<u32>;

    open spec fn deep_view(&self) -> Seq<u32> {
        self.bits@
    }
}

impl Clone for Embedding {
    fn clone(&self) -> (copy: Self)
        ensures
            copy@ == self@,
    {
        let bits = self.bits.clone();
        assert(bits@ =~= self.bits@);
        Embedding { bits }
    }
}

/// The view of an optional embedding.
pub open spec fn embedding_view(e: Option<Embedding>) -> Option<Seq<u32>> {
    match e {
        Some(v) => Some(v@),
        None => None,
    }
}

/// Copies an optional embedding.
pub fn clone_embedding(e: &Option<Embedding>) -> (copy: Option<Embedding>)
    ensures
        embedding_view(copy) == embedding_view(*e),
{
    match e {
        Some(v) => Some(v.clone()),
        None => None,
    }
}

/// One question of the corpus.
#[derive(Debug, PartialEq, Eq)]
pub struct Record {
    pub id: u32,
    pub title: String,
    pub body: String,
    pub tags: String,
    pub embedding: Option<Embedding>,
}

/// What a record holds, in mathematical terms.
pub struct RecordView {
    pub id: u32,
    pub title: Seq<char>,
    pub body: Seq<char>,
    pub tags: Seq<char>,
    pub embedding: Option<Seq<u32>>,
}

impl View for Record {
    type V = RecordView;

    open spec fn view(&self) -> RecordView {
        RecordView {
            id: self.id,
            title: self.title@,
            body: self.body@,
            tags: self.tags@,
            embedding: embedding_view(self.embedding),
        }
    }
}

impl DeepView for Record {
    type V = RecordView;

    open spec fn deep_view(&self) -> RecordView {
        self@
    }
}

impl Clone for Record {
    fn clone(&self) -> (copy: Self)
        ensures
            copy@ == self@,
    {
        Record {
            id: self.id,
            title: self.title.clone(),
            body: self.body.clone(),
            tags: self.tags.clone(),
            embedding: clone_embedding(&self.embedding),
        }
    }
}

} // verus!
