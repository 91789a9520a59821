use std::io::Write;

use ballista::files::File;
use ballista::github::{decompress_tarball, latest_commit, RepoRef};
use ballista::llm::chat_instruction;
use ballista::qdrant::{IndexSlot, SearchHit};
use ballista::routes::prompt::{answer_instruction, delta_fragment, error_reply, resolve_context, AnswerError};
use ballista::routes::webhooks::{handle_github_webhook, EventKind, GithubEvent, WebhookStatus};
use ballista::state::{Corpus, ReindexTrigger};

fn one_document_corpus() -> Corpus {
    let mut f = File::new(
        "reset.md".to_string(),
        "Docs: to reset a password, visit /reset.".to_string(),
    );
    f.parse();
    let mut c = Corpus::new();
    c.publish(vec![f], IndexSlot::Blue);
    c
}

#[test]
fn grounded_answer_for_one_document() {
    let corpus = one_document_corpus();
    let hit = Some(SearchHit::new(Some("reset.md".to_string())));
    let instruction = answer_instruction("how do I reset my password", &corpus, hit).unwrap();
    assert_eq!(
        instruction,
        "how do I reset my password\n Context: Docs: to reset a password, visit /reset.\n Be concise"
    );
    assert!(instruction.contains("/reset"));
}

#[test]
fn empty_corpus_gives_degraded_reply() {
    let corpus = Corpus::new();
    let r = answer_instruction("how do I reset my password", &corpus, None);
    assert_eq!(r, Err(AnswerError::Retrieval));
    assert_eq!(r.unwrap_err().reply(), "Error with your prompt");
    assert_eq!(error_reply(), "Error with your prompt");
}

#[test]
fn missing_document_is_not_found() {
    let corpus = one_document_corpus();
    let hit = Some(SearchHit::new(Some("gone.md".to_string())));
    assert_eq!(resolve_context(&corpus, hit), Err(AnswerError::NotFound));
    assert_eq!(
        resolve_context(&corpus, Some(SearchHit::new(None))),
        Err(AnswerError::NotFound)
    );
}

#[test]
fn context_is_whole_document() {
    let corpus = one_document_corpus();
    let hit = Some(SearchHit::new(Some("reset.md".to_string())));
    assert_eq!(
        resolve_context(&corpus, hit),
        Ok("Docs: to reset a password, visit /reset.".to_string())
    );
}

#[test]
fn instruction_layout() {
    assert_eq!(chat_instruction("Q", "C"), "Q\n Context: C\n Be concise");
    assert_eq!(chat_instruction("", ""), "\n Context: \n Be concise");
}

#[test]
fn delta_without_content_is_newline() {
    let parts = vec![Some("Hel".to_string()), None, Some("lo".to_string())];
    assert_eq!(delta_fragment(&parts), "Hel\nlo");
    assert_eq!(delta_fragment(&Vec::new()), "");
}

#[test]
fn push_webhook_triggers_rebuild() {
    let mut t = ReindexTrigger::new();
    let push = GithubEvent { kind: EventKind::Push, payload_is_push: true };
    assert_eq!(handle_github_webhook(&mut t, &push), WebhookStatus::Accepted);
    assert!(t.pending);
}

#[test]
fn other_webhooks_are_rejected() {
    let mut t = ReindexTrigger::new();
    let other = GithubEvent { kind: EventKind::Other, payload_is_push: false };
    assert_eq!(handle_github_webhook(&mut t, &other), WebhookStatus::BadRequest);
    let odd = GithubEvent { kind: EventKind::Push, payload_is_push: false };
    assert_eq!(handle_github_webhook(&mut t, &odd), WebhookStatus::BadRequest);
    assert!(!t.pending);
}

#[test]
fn checkout_path_names_commit_folder() {
    let repo = RepoRef::new("octo".to_string(), "docs".to_string());
    assert_eq!(repo.checkout_path("/tmp/x", "abc123"), "/tmp/x/octo-docs-abc123");
}

#[test]
fn latest_commit_is_first_listed() {
    assert_eq!(
        latest_commit(vec!["new".to_string(), "old".to_string()]),
        Ok("new".to_string())
    );
    assert_eq!(latest_commit(Vec::new()), Err(ballista::state::RebuildError::Fetch));
}

#[test]
fn tarball_is_decompressed() {
    let mut enc = flate2::write::GzEncoder::new(Vec::new(), flate2::Compression::default());
    enc.write_all(b"tar bytes here").unwrap();
    let gz = enc.finish().unwrap();
    assert_eq!(decompress_tarball(&gz).unwrap(), b"tar bytes here".to_vec());
    assert!(decompress_tarball(&b"not gzip".to_vec()).is_err());
}

#[test]
fn every_answer_error_gives_same_reply() {
    for e in [
        AnswerError::Embedding,
        AnswerError::Index,
        AnswerError::Retrieval,
        AnswerError::NotFound,
        AnswerError::Generation,
    ] {
        assert_eq!(e.reply(), "Error with your prompt");
    }
}
