//! The token guard: a text is sent to the embedding provider only when its
//! token count is known and does not exceed the ceiling.

use std::collections::HashSet;
use vstd::prelude::*;

verus! {

/// Largest token count that the embedding provider is asked to handle.
pub const MAX_TOKEN: usize = 8100;

/// The number of tokens into which the `cl100k_base` encoding splits `text`,
/// or `None` where the tokenizer reports an error for it.
pub uninterp spec fn cl100k_token_count(text: Seq<char>) -> Option<usize>;

/// Whether a token count passes the guard: it is known and at most `MAX_TOKEN`.
pub open spec fn admitted(count: Option<usize>) -> bool {
    match count {
        Some(n) => n <= MAX_TOKEN,
        None => false,
    }
}

/// Whether `text` passes the guard.
pub open spec fn text_admitted(text: Seq<char>) -> bool {
    admitted(cl100k_token_count(text))
}

/// Calls `tiktoken_rs::cl100k_base_singleton` and, on the encoder it gives,
/// `CoreBPE::count` with an empty set of allowed special tokens, so that the
/// whole text is encoded as ordinary text. Trusted: what comes back depends on
/// the text alone; `None` stands for the encoder's error.
#[verifier::external_body]
fn count_tokens(text: &str) -> (count: Option<usize>)
    ensures
        count == cl100k_token_count(text@),
{
    let no_special: HashSet<&str> = HashSet::new();
    match tiktoken_rs::cl100k_base_singleton().count(text, &no_special) {
        Ok(n) => Some(n),
        Err(_) => None,
    }
}

/// Decides the guard for a token count that is already known.
pub fn admits_count(count: Option<usize>) -> (ok: bool)
    ensures
        ok == admitted(count),
{
    match count {
        Some(n) => n <= MAX_TOKEN,
        None => false,
    }
}

/// Counts the tokens of `text` and decides the guard.
pub fn admits(text: &str) -> (ok: bool)
    ensures
        ok == text_admitted(text@),
{
    admits_count(count_tokens(text))
}

} // verus!
