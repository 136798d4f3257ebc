use corpus_embed::provider::ProviderReply;
use corpus_embed::record::{Embedding, Record};
use corpus_embed::search::{
    check_dimensions, query_embedding, query_request, resource_id, search, Hit, SearchError,
    TOP_K,
};

fn floats(values: &[f32]) -> Embedding {
    Embedding { bits: values.iter().map(|v| v.to_bits()).collect() }
}

fn entry(id: u32, title: &str, embedding: Option<Embedding>) -> Record {
    Record {
        id,
        title: String::from(title),
        body: String::from("body"),
        tags: String::from("<thermodynamics>"),
        embedding,
    }
}

fn dot(a: &Embedding, b: &Embedding) -> f64 {
    a.bits.iter().zip(b.bits.iter()).map(|(x, y)| f32::from_bits(*x) as f64 * f32::from_bits(*y) as f64).sum()
}

fn scores_for(corpus: &[Record], query: &Embedding) -> Vec<Option<u64>> {
    corpus.iter().map(|r| r.embedding.as_ref().map(|e| dot(e, query).to_bits())).collect()
}

#[test]
fn default_limit_is_twenty() {
    assert_eq!(TOP_K, 20);
}

#[test]
fn resource_id_is_prefix_and_decimal_id() {
    assert_eq!(resource_id(0), "https://physics.stackexchange.com/questions/0");
    assert_eq!(resource_id(42), "https://physics.stackexchange.com/questions/42");
    assert_eq!(resource_id(809123), "https://physics.stackexchange.com/questions/809123");
    assert_eq!(resource_id(u32::MAX), "https://physics.stackexchange.com/questions/4294967295");
}

#[test]
fn single_record_with_the_query_vector_scores_one_and_ranks_first() {
    let corpus = vec![entry(3, "C", Some(floats(&[1.0, 0.0])))];
    let query = floats(&[1.0, 0.0]);
    let hits = search(&corpus, &scores_for(&corpus, &query), TOP_K).expect("a result");
    assert_eq!(
        hits,
        vec![Hit {
            position: 0,
            id: String::from("https://physics.stackexchange.com/questions/3"),
            title: String::from("C"),
            score: Some(1.0f64.to_bits()),
        }]
    );
}

#[test]
fn better_match_ranks_above_worse_match() {
    let corpus = vec![
        entry(1, "far", Some(floats(&[0.0, 1.0]))),
        entry(2, "near", Some(floats(&[0.9, 0.1]))),
        entry(3, "opposite", Some(floats(&[-1.0, 0.0]))),
        entry(4, "exact", Some(floats(&[1.0, 0.0]))),
    ];
    let query = floats(&[1.0, 0.0]);
    let hits = search(&corpus, &scores_for(&corpus, &query), TOP_K).expect("a result");
    let titles: Vec<&str> = hits.iter().map(|h| h.title.as_str()).collect();
    assert_eq!(titles, vec!["exact", "near", "far", "opposite"]);
    for pair in hits.windows(2) {
        let above = f64::from_bits(pair[0].score.unwrap());
        let below = f64::from_bits(pair[1].score.unwrap());
        assert!(above >= below);
    }
}

#[test]
fn records_without_embedding_come_after_all_scored_ones() {
    let corpus = vec![
        entry(1, "none", None),
        entry(2, "low", Some(floats(&[-0.5]))),
        entry(3, "high", Some(floats(&[0.5]))),
    ];
    let query = floats(&[1.0]);
    let hits = search(&corpus, &scores_for(&corpus, &query), TOP_K).expect("a result");
    let positions: Vec<usize> = hits.iter().map(|h| h.position).collect();
    assert_eq!(positions, vec![2, 1, 0]);
    assert_eq!(hits[2].score, None);
}

#[test]
fn score_of_a_record_without_embedding_does_not_count() {
    let corpus = vec![entry(1, "none", None), entry(2, "some", Some(floats(&[0.1])))];
    let scores = vec![Some(5.0f64.to_bits()), Some(0.1f64.to_bits())];
    let hits = search(&corpus, &scores, TOP_K).expect("a result");
    assert_eq!(hits[0].position, 1);
    assert_eq!(hits[1].position, 0);
    assert_eq!(hits[1].score, None);
}

#[test]
fn at_most_twenty_results_by_default() {
    let corpus: Vec<Record> =
        (0..25).map(|i| entry(i, "t", Some(floats(&[i as f32])))).collect();
    let query = floats(&[1.0]);
    let hits = search(&corpus, &scores_for(&corpus, &query), TOP_K).expect("a result");
    assert_eq!(hits.len(), 20);
    let positions: Vec<usize> = hits.iter().map(|h| h.position).collect();
    let want: Vec<usize> = (5..25).rev().collect();
    assert_eq!(positions, want);
    assert_eq!(hits[0].id, "https://physics.stackexchange.com/questions/24");
}

#[test]
fn equal_scores_keep_the_order_of_the_corpus() {
    let corpus = vec![
        entry(10, "a", Some(floats(&[0.5]))),
        entry(11, "b", Some(floats(&[0.5]))),
        entry(12, "c", Some(floats(&[0.5]))),
    ];
    let query = floats(&[1.0]);
    let hits = search(&corpus, &scores_for(&corpus, &query), 2).expect("a result");
    let titles: Vec<&str> = hits.iter().map(|h| h.title.as_str()).collect();
    assert_eq!(titles, vec!["a", "b"]);
}

#[test]
fn search_needs_one_score_for_each_record() {
    let corpus = vec![entry(1, "a", Some(floats(&[0.5])))];
    assert_eq!(search(&corpus, &Vec::new(), TOP_K), Err(SearchError::ScoreCountMismatch));
    assert_eq!(search(&corpus, &vec![None, None], TOP_K), Err(SearchError::ScoreCountMismatch));
}

#[test]
fn search_of_an_empty_corpus_is_empty() {
    assert_eq!(search(&Vec::new(), &Vec::new(), TOP_K), Ok(Vec::new()));
}

#[test]
fn search_leaves_the_corpus_alone() {
    let corpus = vec![entry(1, "a", Some(floats(&[0.5]))), entry(2, "b", None)];
    let copy = corpus.clone();
    let query = floats(&[1.0]);
    let _ = search(&corpus, &scores_for(&corpus, &query), TOP_K);
    assert_eq!(corpus, copy);
}

#[test]
fn query_within_the_ceiling_gives_a_request() {
    let request = query_request("what is entropy?").expect("a request");
    assert_eq!(request.input, "what is entropy?");
    assert_eq!(request.model, "text-embedding-3-large");
}

#[test]
fn query_over_the_ceiling_fails_the_search() {
    let mut long = String::new();
    for _ in 0..9000 {
        long.push_str("hello ");
    }
    assert_eq!(query_request(&long), Err(SearchError::QueryRejected));
}

#[test]
fn failed_reply_fails_the_search() {
    assert_eq!(query_embedding(ProviderReply::Failed), Err(SearchError::QueryEmbeddingMissing));
    assert_eq!(
        query_embedding(ProviderReply::Vectors(Vec::new())),
        Err(SearchError::QueryEmbeddingMissing)
    );
}

#[test]
fn reply_with_a_vector_gives_the_query_embedding() {
    let reply = ProviderReply::Vectors(vec![floats(&[1.0, 0.0])]);
    assert_eq!(query_embedding(reply), Ok(floats(&[1.0, 0.0])));
}

#[test]
fn embeddings_of_the_query_length_can_be_scored() {
    let corpus = vec![
        entry(1, "a", Some(floats(&[0.5, 0.5]))),
        entry(2, "b", None),
        entry(3, "c", Some(floats(&[0.0, 1.0]))),
    ];
    assert_eq!(check_dimensions(&corpus, &floats(&[1.0, 0.0])), Ok(()));
    assert_eq!(check_dimensions(&Vec::new(), &floats(&[1.0, 0.0])), Ok(()));
}

#[test]
fn embedding_of_another_length_fails_the_search() {
    let corpus = vec![
        entry(1, "a", Some(floats(&[0.5, 0.5]))),
        entry(2, "b", Some(floats(&[0.5, 0.5, 0.5]))),
    ];
    assert_eq!(
        check_dimensions(&corpus, &floats(&[1.0, 0.0])),
        Err(SearchError::DimensionMismatch)
    );
    assert_eq!(check_dimensions(&corpus, &floats(&[])), Err(SearchError::DimensionMismatch));
}
