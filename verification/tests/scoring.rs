use comms::quiet::{rung, Rung};
use comms::redaction::{measure, Label};
use comms::scoring::{
    admitted_positions, chunk_bounds, embed_failure_class, pass_mode, rerank_complete,
    EmbedLedger, EMBED_CHUNK_SIZE,
};

#[test]
fn one_failed_chunk_does_not_downgrade_the_pass() {
    let mut ledger = EmbedLedger::new();
    ledger.profile_call(true, true);
    let bounds = chunk_bounds(40);
    assert_eq!(bounds, vec![(0, 32), (32, 40)]);
    ledger.chunk(32, true, true, true);
    ledger.chunk(8, true, false, false);
    assert_eq!(ledger.chunks, 3, "one profile call plus two item chunks");
    assert_eq!(ledger.chunks_failed, 1);
    assert_eq!(ledger.error_class, Some("embedding-unreachable"));
    assert!(ledger.semantic[..EMBED_CHUNK_SIZE].iter().all(|s| *s));
    assert!(ledger.semantic[EMBED_CHUNK_SIZE..].iter().all(|s| !*s));
}

#[test]
fn without_profile_vectors_chunks_are_not_sent() {
    let mut ledger = EmbedLedger::new();
    ledger.profile_call(false, true);
    ledger.chunk(5, false, false, true);
    assert_eq!((ledger.chunks, ledger.chunks_failed), (1, 1));
    assert_eq!(ledger.error_class, Some("embedding-failed"));
    assert_eq!(ledger.semantic, vec![false; 5]);
    assert_eq!(embed_failure_class(false), "embedding-unreachable");
}

#[test]
fn chunks_cover_every_item_once() {
    assert!(chunk_bounds(0).is_empty());
    assert_eq!(chunk_bounds(32), vec![(0, 32)]);
    assert_eq!(chunk_bounds(65), vec![(0, 32), (32, 64), (64, 65)]);
}

#[test]
fn a_pass_reports_the_strongest_mode_reached() {
    assert_eq!(pass_mode(false, true, true, true), "unscored");
    assert_eq!(pass_mode(true, false, false, false), "unscored");
    assert_eq!(pass_mode(true, true, true, true), "reranked");
    assert_eq!(pass_mode(true, true, false, true), "semantic");
    assert_eq!(pass_mode(true, true, false, false), "lexical");
    assert_eq!(admitted_positions(&vec![false, true, true, false]), vec![1, 2]);
}

#[test]
fn a_rerank_missing_a_candidate_is_incomplete() {
    let candidates = vec![vec![0, 2], vec![], vec![1]];
    let scored = vec![vec![true, false, true], vec![false; 3], vec![false, true, false]];
    assert!(rerank_complete(&candidates, &scored));
    let short = vec![vec![true, false, false], vec![false; 3], vec![false, true, false]];
    assert!(!rerank_complete(&candidates, &short));
}

#[test]
fn recall_counts_leaks_case_insensitively() {
    let labels = vec![
        Label { entity_type: "person".into(), value: "Lars Boes".into() },
        Label { entity_type: "iban".into(), value: "DE00 1234".into() },
        Label { entity_type: "email".into(), value: "a@b.example".into() },
    ];
    let (leaks, caught) = measure("Hello LARS BOES, mail [EMAIL]", "f1", "de", &labels);
    assert_eq!(caught, 2);
    assert_eq!(leaks.len(), 1);
    assert_eq!(leaks[0].fixture, "f1");
    assert_eq!(leaks[0].language, "de");
    assert_eq!(leaks[0].entity_type, "person");
    assert_eq!(leaks[0].value, "Lars Boes");
}

#[test]
fn an_unattended_pass_gets_the_light_role_or_nothing() {

    assert_eq!(rung(Some(Some(4096)), true), Rung::Light);
    assert_eq!(rung(Some(Some(4096)), false), Rung::OverWindow);
    assert_eq!(rung(Some(None), true), Rung::Unconfigured);
    assert_eq!(rung(None, true), Rung::Unconfigured);
}

#[test]
fn a_machine_without_a_light_role_is_unconfigured_not_escalated() {
    // 100 characters with a 200-token reply fit any declared window; with no
    // light role at all the answer is the same either way.
    assert_eq!(rung(None, true), Rung::Unconfigured);
    assert_eq!(rung(None, false), Rung::Unconfigured);
}

#[test]
fn a_light_role_without_a_declared_window_does_not_count() {
    // 10 characters and 10 reply tokens: the smallest request still finds
    // no usable role when the window is undeclared.
    assert_eq!(rung(Some(None), true), Rung::Unconfigured);
}
