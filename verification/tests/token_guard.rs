use corpus_embed::provider::{
    embedding_model, prepare_counted, prepare_request, request_for, resolve_reply, ProviderReply,
};
use corpus_embed::record::Embedding;
use corpus_embed::tokens::{admits, admits_count, MAX_TOKEN};

fn words(n: usize) -> String {
    let mut text = String::new();
    for _ in 0..n {
        text.push_str("hello ");
    }
    text
}

#[test]
fn ceiling_is_8100() {
    assert_eq!(MAX_TOKEN, 8100);
}

#[test]
fn count_at_the_ceiling_is_admitted() {
    assert!(admits_count(Some(0)));
    assert!(admits_count(Some(8100)));
}

#[test]
fn count_over_the_ceiling_is_refused() {
    assert!(!admits_count(Some(8101)));
    assert!(!admits_count(Some(9000)));
    assert!(!admits_count(Some(usize::MAX)));
}

#[test]
fn unknown_count_is_refused() {
    assert!(!admits_count(None));
}

#[test]
fn short_text_is_admitted() {
    assert!(admits("Title: Why is the sky blue? Body: Rayleigh scattering."));
    assert!(admits(""));
}

#[test]
fn text_of_nine_thousand_tokens_is_refused() {
    // every "hello " after the first is one token, so the count is about 9000
    assert!(!admits(&words(9000)));
}

#[test]
fn text_of_eight_thousand_tokens_is_admitted() {
    assert!(admits(&words(4000)));
}

#[test]
fn request_names_the_model_and_the_text() {
    let request = request_for("what is spin?");
    assert_eq!(embedding_model(), "text-embedding-3-large");
    assert_eq!(request.model, "text-embedding-3-large");
    assert_eq!(request.input, "what is spin?");
}

#[test]
fn counted_text_within_the_ceiling_gives_a_request() {
    let request = prepare_counted("abc", Some(8100)).expect("a request");
    assert_eq!(request.model, "text-embedding-3-large");
    assert_eq!(request.input, "abc");
}

#[test]
fn counted_text_over_the_ceiling_gives_no_request() {
    assert!(prepare_counted("abc", Some(8101)).is_none());
    assert!(prepare_counted("abc", None).is_none());
}

#[test]
fn long_text_gives_no_request() {
    assert!(prepare_request(&words(9000)).is_none());
}

#[test]
fn short_text_gives_a_request() {
    let request = prepare_request("entropy").expect("a request");
    assert_eq!(request.input, "entropy");
}

#[test]
fn failed_reply_resolves_to_nothing() {
    assert!(resolve_reply(ProviderReply::Failed).is_none());
}

#[test]
fn empty_reply_resolves_to_nothing() {
    assert!(resolve_reply(ProviderReply::Vectors(Vec::new())).is_none());
}

#[test]
fn reply_resolves_to_its_last_vector() {
    let first = Embedding { bits: vec![1.0f32.to_bits(), 0.0f32.to_bits()] };
    let last = Embedding { bits: vec![0.5f32.to_bits(), 0.25f32.to_bits()] };
    let got = resolve_reply(ProviderReply::Vectors(vec![first, last])).expect("an embedding");
    assert_eq!(got.bits, vec![0.5f32.to_bits(), 0.25f32.to_bits()]);
}
