use ballista::files::File;
use ballista::qdrant::{IndexSlot, SearchHit};
use ballista::state::{chunk_total, Corpus, Rebuild, RebuildAction, RebuildError, RebuildPhase, ReindexTrigger};

fn doc(path: &str, text: &str) -> File {
    let mut f = File::new(path.to_string(), text.to_string());
    f.parse();
    f
}

fn upsert_of(a: &RebuildAction) -> (u64, String, usize) {
    match a {
        RebuildAction::Upsert { id, document_id, chunk } => (*id, document_id.clone(), *chunk),
        other => panic!("expected an upsert, got {:?}", other),
    }
}

fn batch_of(a: RebuildAction) -> Vec<String> {
    match a {
        RebuildAction::EmbedBatch { texts } => texts,
        other => panic!("expected a batch, got {:?}", other),
    }
}

#[test]
fn triggers_collapse_before_start() {
    let mut t = ReindexTrigger::new();
    t.trigger();
    t.trigger();
    t.trigger();
    assert!(t.take());
    t.end();
    assert!(!t.take());
}

#[test]
fn triggers_during_rebuild_give_one_more() {
    let mut t = ReindexTrigger::new();
    t.trigger();
    assert!(t.take());
    for _ in 0..5 {
        t.trigger();
    }
    assert!(!t.take());
    t.end();
    assert!(t.take());
    t.end();
    assert!(!t.take());
}

#[test]
fn rebuild_numbers_points_densely() {
    let files = vec![
        doc("a.md", "one\n\ntwo\n\n"),
        doc("empty.md", "# nothing\n"),
        doc("b.md", "three\n\n"),
    ];
    assert_eq!(chunk_total(&files), Some(3));
    let (mut r, first) = Rebuild::start(IndexSlot::Green);
    assert!(matches!(first, RebuildAction::FetchTree));
    assert!(matches!(r.fetched(files), RebuildAction::ResetCollection { slot: IndexSlot::Green }));
    let texts = batch_of(r.collection_reset());
    assert_eq!(texts, vec!["one\n".to_string(), "two\n".to_string()]);
    assert_eq!(upsert_of(&r.embedded(2)), (0, "a.md".to_string(), 0));
    assert_eq!(upsert_of(&r.upserted()), (1, "a.md".to_string(), 1));
    let texts = batch_of(r.upserted());
    assert_eq!(texts, vec!["three\n".to_string()]);
    assert_eq!(upsert_of(&r.embedded(1)), (2, "b.md".to_string(), 0));
    assert!(matches!(r.upserted(), RebuildAction::Publish));
    assert_eq!(r.phase(), RebuildPhase::Ready);
    let mut corpus = Corpus::new();
    assert_eq!(r.conclude(&mut corpus), Ok(()));
    assert_eq!(corpus.files().len(), 3);
    assert_eq!(
        corpus.get_contents(&SearchHit::new(Some("b.md".to_string()))),
        Some("three\n\n".to_string())
    );
}

#[test]
fn rebuild_without_chunks_publishes_at_once() {
    let (mut r, _) = Rebuild::start(IndexSlot::Green);
    r.fetched(vec![doc("e.md", "# heading only\n")]);
    assert!(matches!(r.collection_reset(), RebuildAction::Publish));
    let mut corpus = Corpus::new();
    assert_eq!(r.conclude(&mut corpus), Ok(()));
    assert_eq!(corpus.files().len(), 1);
}

#[test]
fn failed_embedding_keeps_published_corpus() {
    let mut corpus = Corpus::new();
    let (mut r, _) = Rebuild::start(IndexSlot::Green);
    r.fetched(vec![doc("old.md", "old text\n\n")]);
    r.collection_reset();
    r.embedded(1);
    r.upserted();
    r.conclude(&mut corpus).unwrap();

    let (mut r, _) = Rebuild::start(IndexSlot::Green);
    r.fetched(vec![doc("new.md", "new one\n\nnew two\n\n")]);
    r.collection_reset();
    match r.embedded(1) {
        RebuildAction::Abandon { error } => assert_eq!(error, RebuildError::Embedding),
        other => panic!("expected the rebuild to fail, got {:?}", other),
    }
    assert_eq!(r.phase(), RebuildPhase::Failed);
    assert_eq!(r.conclude(&mut corpus), Err(RebuildError::Embedding));
    assert_eq!(corpus.files().len(), 1);
    assert_eq!(
        corpus.get_contents(&SearchHit::new(Some("old.md".to_string()))),
        Some("old text\n\n".to_string())
    );
    assert_eq!(corpus.get_contents(&SearchHit::new(Some("new.md".to_string()))), None);
}

#[test]
fn failed_step_abandons_rebuild() {
    let (mut r, _) = Rebuild::start(IndexSlot::Green);
    match r.failed(RebuildError::Fetch) {
        RebuildAction::Abandon { error } => assert_eq!(error, RebuildError::Fetch),
        other => panic!("expected abandon, got {:?}", other),
    }
    let mut corpus = Corpus::new();
    assert_eq!(r.conclude(&mut corpus), Err(RebuildError::Fetch));
    assert!(corpus.files().is_empty());
}

#[test]
fn failed_upsert_keeps_corpus() {
    let mut corpus = Corpus::new();
    let (mut r, _) = Rebuild::start(IndexSlot::Green);
    r.fetched(vec![doc("x.md", "x\n\n")]);
    r.collection_reset();
    r.embedded(1);
    r.failed(RebuildError::Index);
    assert_eq!(r.conclude(&mut corpus), Err(RebuildError::Index));
    assert!(corpus.files().is_empty());
}

#[test]
fn corpus_swap_is_whole() {
    let mut corpus = Corpus::new();
    corpus.publish(vec![doc("a.md", "old a\n\n"), doc("b.md", "old b\n\n")], IndexSlot::Green);
    let before: Vec<String> = corpus.files().iter().map(|f| f.contents.clone()).collect();
    assert_eq!(before, vec!["old a\n\n".to_string(), "old b\n\n".to_string()]);
    corpus.publish(vec![doc("c.md", "new c\n\n")], IndexSlot::Blue);
    let after: Vec<String> = corpus.files().iter().map(|f| f.path.clone()).collect();
    assert_eq!(after, vec!["c.md".to_string()]);
    assert_eq!(corpus.get_contents(&SearchHit::new(Some("a.md".to_string()))), None);
}

#[test]
fn chunk_total_counts_every_chunk() {
    assert_eq!(chunk_total(&Vec::new()), Some(0));
    let files = vec![doc("a.md", "x\n\ny\n\n```\nz\n```\n"), doc("b.md", "")];
    assert_eq!(chunk_total(&files), Some(3));
}

#[test]
fn publish_switches_serving_slot() {
    let mut corpus = Corpus::new();
    assert_eq!(corpus.slot(), IndexSlot::Blue);
    assert_eq!(corpus.staging_slot(), IndexSlot::Green);
    let (mut r, _) = Rebuild::start(corpus.staging_slot());
    r.fetched(vec![doc("a.md", "a\n\n")]);
    r.collection_reset();
    r.embedded(1);
    r.upserted();
    r.conclude(&mut corpus).unwrap();
    assert_eq!(corpus.slot(), IndexSlot::Green);
    assert_eq!(corpus.staging_slot(), IndexSlot::Blue);

    let (mut r, _) = Rebuild::start(corpus.staging_slot());
    r.fetched(vec![doc("b.md", "b\n\n")]);
    r.collection_reset();
    r.failed(RebuildError::Embedding);
    assert!(r.conclude(&mut corpus).is_err());
    assert_eq!(corpus.slot(), IndexSlot::Green);
}

#[test]
fn duplicate_identifiers_fail_fetch() {
    let (mut r, _) = Rebuild::start(IndexSlot::Green);
    match r.fetched(vec![doc("a.md", "x\n\n"), doc("a.md", "y\n\n")]) {
        RebuildAction::Abandon { error } => assert_eq!(error, RebuildError::Fetch),
        other => panic!("expected abandon, got {:?}", other),
    }
}

#[test]
fn slot_collections_differ() {
    assert_eq!(IndexSlot::Blue.collection(), "brain-blue");
    assert_eq!(IndexSlot::Green.collection(), "brain-green");
    assert_eq!(IndexSlot::Blue.other(), IndexSlot::Green);
}
