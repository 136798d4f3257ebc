use corpus_embed::record::Embedding;
use corpus_embed::scheduler::{Dispatch, Scheduler, SchedulerError, WorkItem, CHUNK_SIZE};

fn item(text: &str, needs_work: bool) -> WorkItem {
    WorkItem { text: String::from(text), needs_work }
}

/// A provider that answers every text with a vector made from its length.
fn length_vector(text: &str) -> Option<Embedding> {
    Some(Embedding { bits: vec![(text.len() as f32).to_bits(), 1.0f32.to_bits()] })
}

fn answer_all(batch: &[Dispatch], provider: fn(&str) -> Option<Embedding>) -> Vec<Option<Embedding>> {
    batch.iter().map(|d| provider(&d.request.input)).collect()
}

fn run(scheduler: &mut Scheduler, provider: fn(&str) -> Option<Embedding>) -> usize {
    let mut chunks = 0;
    while !scheduler.is_finished() {
        let batch = scheduler.plan_chunk();
        let replies = answer_all(&batch, provider);
        scheduler.complete_chunk(&replies).expect("one reply for each request");
        chunks += 1;
    }
    chunks
}

#[test]
fn chunk_size_is_256() {
    assert_eq!(CHUNK_SIZE, 256);
}

#[test]
fn zero_chunk_size_is_refused() {
    assert_eq!(Scheduler::new(vec![item("a", true)], 0).err(), Some(SchedulerError::ZeroChunkSize));
    assert_eq!(
        Scheduler::from_counts(vec![item("a", true)], &vec![Some(1)], 0).err(),
        Some(SchedulerError::ZeroChunkSize)
    );
}

#[test]
fn counts_must_match_the_items() {
    assert_eq!(
        Scheduler::from_counts(vec![item("a", true)], &vec![Some(1), Some(2)], 4).err(),
        Some(SchedulerError::CountMismatch)
    );
    assert_eq!(
        Scheduler::from_counts(vec![item("a", true)], &Vec::new(), 4).err(),
        Some(SchedulerError::CountMismatch)
    );
}

#[test]
fn output_has_the_length_and_order_of_the_input() {
    let items = vec![
        item("a", true),
        item("bb", false),
        item("ccc", true),
        item("dddd", true),
        item("eeeee", false),
    ];
    let mut scheduler = Scheduler::new(items, 2).expect("a scheduler");
    assert_eq!(scheduler.len(), 5);
    let chunks = run(&mut scheduler, length_vector);
    assert_eq!(chunks, 3);
    let results = scheduler.into_results();
    assert_eq!(
        results,
        vec![length_vector("a"), None, length_vector("ccc"), length_vector("dddd"), None]
    );
}

#[test]
fn requests_name_their_positions_and_texts() {
    let items = vec![item("skip", false), item("first", true), item("second", true)];
    let scheduler = Scheduler::new(items, 8).expect("a scheduler");
    let batch = scheduler.plan_chunk();
    assert_eq!(batch.len(), 2);
    assert_eq!(batch[0].index, 1);
    assert_eq!(batch[0].request.input, "first");
    assert_eq!(batch[0].request.model, "text-embedding-3-large");
    assert_eq!(batch[1].index, 2);
    assert_eq!(batch[1].request.input, "second");
}

#[test]
fn three_hundred_items_make_two_chunks() {
    let items: Vec<WorkItem> = (0..300).map(|i| item(&format!("question {}", i), true)).collect();
    let mut scheduler = Scheduler::standard(items);
    let first = scheduler.plan_chunk();
    assert_eq!(first.len(), 256);
    assert_eq!(first[0].index, 0);
    assert_eq!(first[255].index, 255);
    let replies = answer_all(&first, length_vector);
    assert_eq!(scheduler.complete_chunk(&replies), Ok(()));
    assert_eq!(scheduler.completed(), 256);
    assert!(!scheduler.is_finished());
    let second = scheduler.plan_chunk();
    assert_eq!(second.len(), 44);
    assert_eq!(second[0].index, 256);
    assert_eq!(second[43].index, 299);
    let replies = answer_all(&second, length_vector);
    assert_eq!(scheduler.complete_chunk(&replies), Ok(()));
    assert!(scheduler.is_finished());
    assert_eq!(scheduler.completed(), 300);
    let results = scheduler.into_results();
    assert_eq!(results.len(), 300);
    for (i, got) in results.iter().enumerate() {
        assert_eq!(*got, length_vector(&format!("question {}", i)));
    }
}

#[test]
fn no_chunk_has_more_requests_than_the_chunk_size() {
    let items: Vec<WorkItem> = (0..25).map(|i| item(&format!("q{}", i), i % 3 != 0)).collect();
    let mut scheduler = Scheduler::new(items, 4).expect("a scheduler");
    let mut chunks = 0;
    while !scheduler.is_finished() {
        let batch = scheduler.plan_chunk();
        assert!(batch.len() <= 4);
        let replies = answer_all(&batch, length_vector);
        scheduler.complete_chunk(&replies).expect("one reply for each request");
        chunks += 1;
    }
    assert_eq!(chunks, 7);
}

#[test]
fn wrong_number_of_replies_changes_nothing() {
    let items = vec![item("a", true), item("b", true), item("c", false)];
    let mut scheduler = Scheduler::new(items, 3).expect("a scheduler");
    assert_eq!(
        scheduler.complete_chunk(&vec![length_vector("a")]),
        Err(SchedulerError::ReplyCountMismatch)
    );
    assert_eq!(
        scheduler.complete_chunk(&vec![None, None, None]),
        Err(SchedulerError::ReplyCountMismatch)
    );
    assert_eq!(scheduler.completed(), 0);
    assert_eq!(scheduler.plan_chunk().len(), 2);
    assert_eq!(scheduler.complete_chunk(&vec![length_vector("a"), None]), Ok(()));
    assert_eq!(scheduler.into_results(), vec![length_vector("a"), None, None]);
}

#[test]
fn failed_call_leaves_only_its_own_item_absent() {
    let items = vec![item("a", true), item("b", true), item("c", true)];
    let mut scheduler = Scheduler::new(items, 3).expect("a scheduler");
    let replies = vec![length_vector("a"), None, length_vector("c")];
    assert_eq!(scheduler.complete_chunk(&replies), Ok(()));
    assert_eq!(scheduler.into_results(), vec![length_vector("a"), None, length_vector("c")]);
}

#[test]
fn items_without_work_make_no_request() {
    let items = vec![item("a", false), item("b", false)];
    let mut scheduler = Scheduler::new(items, 1).expect("a scheduler");
    assert!(scheduler.plan_chunk().is_empty());
    assert_eq!(scheduler.complete_chunk(&Vec::new()), Ok(()));
    assert!(scheduler.plan_chunk().is_empty());
    assert_eq!(scheduler.complete_chunk(&Vec::new()), Ok(()));
    assert!(scheduler.is_finished());
    assert_eq!(scheduler.into_results(), vec![None, None]);
}

#[test]
fn empty_input_is_finished_at_once() {
    let mut scheduler = Scheduler::standard(Vec::new());
    assert!(scheduler.is_finished());
    assert!(scheduler.plan_chunk().is_empty());
    assert_eq!(scheduler.complete_chunk(&Vec::new()), Ok(()));
    assert_eq!(scheduler.into_results(), Vec::new());
}

#[test]
fn finished_scheduler_plans_nothing_more() {
    let mut scheduler = Scheduler::new(vec![item("a", true)], 5).expect("a scheduler");
    assert_eq!(run(&mut scheduler, length_vector), 1);
    assert!(scheduler.plan_chunk().is_empty());
    assert_eq!(
        scheduler.complete_chunk(&vec![length_vector("x")]),
        Err(SchedulerError::ReplyCountMismatch)
    );
    assert_eq!(scheduler.complete_chunk(&Vec::new()), Ok(()));
    assert_eq!(scheduler.into_results(), vec![length_vector("a")]);
}

#[test]
fn count_over_the_ceiling_blocks_the_request() {
    let items = vec![item("short", true), item("long", true), item("edge", true), item("unknown", true)];
    let counts = vec![Some(3), Some(9000), Some(8100), None];
    let mut scheduler = Scheduler::from_counts(items, &counts, 256).expect("a scheduler");
    let batch = scheduler.plan_chunk();
    assert_eq!(batch.len(), 2);
    assert_eq!(batch[0].index, 0);
    assert_eq!(batch[1].index, 2);
    let replies = answer_all(&batch, length_vector);
    assert_eq!(scheduler.complete_chunk(&replies), Ok(()));
    assert_eq!(
        scheduler.into_results(),
        vec![length_vector("short"), None, length_vector("edge"), None]
    );
}

#[test]
fn text_of_nine_thousand_tokens_is_never_sent() {
    let mut long = String::new();
    for _ in 0..9000 {
        long.push_str("hello ");
    }
    let items = vec![item("short question", true), item(&long, true)];
    let mut scheduler = Scheduler::standard(items);
    let batch = scheduler.plan_chunk();
    assert_eq!(batch.len(), 1);
    assert_eq!(batch[0].index, 0);
    let replies = answer_all(&batch, length_vector);
    assert_eq!(scheduler.complete_chunk(&replies), Ok(()));
    assert!(scheduler.is_finished());
    assert_eq!(scheduler.into_results(), vec![length_vector("short question"), None]);
}

#[test]
fn three_hundred_items_leave_two_chunks_then_one_then_none() {
    let items: Vec<WorkItem> = (0..300).map(|i| item(&format!("q{}", i), false)).collect();
    let mut scheduler = Scheduler::standard(items);
    assert_eq!(scheduler.remaining_chunks(), 2);
    assert_eq!(scheduler.complete_chunk(&Vec::new()), Ok(()));
    assert_eq!(scheduler.remaining_chunks(), 1);
    assert_eq!(scheduler.complete_chunk(&Vec::new()), Ok(()));
    assert_eq!(scheduler.remaining_chunks(), 0);
    assert!(scheduler.is_finished());
}

#[test]
fn chunks_are_counted_with_the_remainder() {
    let counts = |n: usize, size: usize| {
        let items: Vec<WorkItem> = (0..n).map(|_| item("q", false)).collect();
        Scheduler::new(items, size).expect("a scheduler").remaining_chunks()
    };
    assert_eq!(counts(0, 4), 0);
    assert_eq!(counts(1, 4), 1);
    assert_eq!(counts(4, 4), 1);
    assert_eq!(counts(5, 4), 2);
    assert_eq!(counts(8, 4), 2);
    assert_eq!(counts(9, 4), 3);
    assert_eq!(counts(256, 256), 1);
    assert_eq!(counts(257, 256), 2);
    assert_eq!(counts(7, 1), 7);
}

#[test]
fn held_back_lists_what_the_guard_blocks() {
    let items = vec![
        item("short", true),
        item("long", true),
        item("long but done", false),
        item("unknown", true),
        item("edge", true),
    ];
    let counts = vec![Some(3), Some(8101), Some(9000), None, Some(8100)];
    let scheduler = Scheduler::from_counts(items, &counts, 2).expect("a scheduler");
    assert_eq!(scheduler.held_back(), vec![1, 3]);
}

#[test]
fn nothing_is_held_back_where_every_text_passes() {
    let scheduler = Scheduler::standard(vec![item("a", true), item("b", false)]);
    assert_eq!(scheduler.held_back(), Vec::<usize>::new());
}
