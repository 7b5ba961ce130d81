use comms::hashing::sha256_hex_str;
use comms::provenance::{ranking_tier, tier_rank, StageProvenance};
use comms::store::{canonical_url, feed_id, human_rationale, FeedItem};

#[test]
fn tiers_have_one_explicit_order() {
    assert!(tier_rank("legacy") < tier_rank("deterministic"));
    assert!(tier_rank("deterministic") < tier_rank("model"));
    assert!(tier_rank("model") < tier_rank("human"));
    assert_eq!(tier_rank("unknown"), None);
}

#[test]
fn canonical_url_and_feed_id_stable() {
    assert_eq!(
        canonical_url("HTTPS://YouTube.com/watch?v=abc/#t=10"),
        "https://youtube.com/watch?v=abc"
    );
    assert_eq!(
        feed_id("https://example.com/x/"),
        feed_id("https://EXAMPLE.com/x#frag")
    );
    assert_eq!(feed_id("https://a.example").len(), 64);
}

#[test]
fn the_digest_is_sha256_in_lowercase_hex() {
    assert_eq!(
        sha256_hex_str("abc"),
        "ba7816bf8f01cfea414140de5dae2223b00361a396177a9cb410ff61f20015ad"
    );
    assert_eq!(
        sha256_hex_str(""),
        "e3b0c44298fc1c149afbf4c8996fb92427ae41e4649b934ca495991b7852b855"
    );
}

#[test]
fn a_feed_id_is_the_digest_of_the_canonical_url() {
    assert_eq!(
        feed_id("https://Example.com/x/#top"),
        sha256_hex_str(&canonical_url("https://Example.com/x/#top"))
    );
}

#[test]
fn a_new_item_is_undeclared_and_unread() {
    let item = FeedItem::new("https://example.com/a", "news", "article");
    assert_eq!(item.status, "new");
    assert_eq!(item.content_status, "unknown");
    assert_eq!(item.data_class, "personal");
    assert_eq!(item.id, feed_id("https://example.com/a"));
}

#[test]
fn stage_records_start_pending() {
    let p = StageProvenance::model("m-1");
    assert_eq!(p.tier, "model");
    assert_eq!(p.revision, "m-1");
    assert_eq!(p.stage, "");
    assert_eq!(ranking_tier("lexical"), "deterministic");
}

#[test]
fn a_human_reclassification_keeps_the_operators_words() {
    assert_eq!(human_rationale(Some("  shared publicly by the author ")), "shared publicly by the author");
    assert_eq!(human_rationale(Some("   ")), "Data class set manually in Axon.");
    assert_eq!(human_rationale(None), "Data class set manually in Axon.");
}
