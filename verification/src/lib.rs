//! Incremental embedding enrichment and exact similarity search over a corpus
//! of question records.
//!
//! The crate decides which records need an embedding, plans the calls to an
//! embedding provider in bounded chunks, merges the answers without touching
//! embeddings that are already stored, and ranks records against a query.
//! Network calls, files and floating-point arithmetic stay with the caller:
//! every function here works on plain values.

pub mod eligibility;
pub mod extract;
pub mod merge;
pub mod provider;
pub mod ranking;
pub mod record;
pub mod scheduler;
pub mod search;
pub mod text;
pub mod tokens;

