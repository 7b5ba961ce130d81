use comms::relevance::{profiles_verdict, DeclaredPath};
use comms::scoring::admitted_documents;
use comms::relevance::{
    cap_chars, frontmatter_value, item_document, profile_embedding_text, profile_focus,
    profile_from, rationale, tokens, DOCUMENT_CAP,
};
use comms::store::FeedItem;

#[test]
fn frontmatter_fields_are_read() {
    let body = "---\nsummary: \"Technical systems\"\ncurrent_focus: AI, RAG\n---\n# Lens";
    assert_eq!(
        frontmatter_value(body, "current_focus").as_deref(),
        Some("AI, RAG")
    );
}

#[test]
fn explicit_relevance_query_excludes_note_scaffolding() {
    let body = "---\nsummary: Technical systems\ncurrent_focus: AI, RAG\nrelevance_query: LLM agents, retrieval, and software engineering\n---\n[[Private Link]]";
    assert_eq!(
        profile_embedding_text(
            "Polymath",
            "Technical systems",
            "AI, RAG",
            "conference",
            body
        ),
        "LLM agents, retrieval, and software engineering"
    );
}

#[test]
fn item_text_is_bounded() {
    let mut item = FeedItem::new("https://example.com", "news", "article");
    item.transcript = Some("a".repeat(DOCUMENT_CAP + 100));
    assert_eq!(item_document(&item).chars().count(), DOCUMENT_CAP);
}

#[test]
fn summary_replaces_transcript_for_embedding_input() {
    let mut item = FeedItem::new("https://example.com", "news", "article");
    item.summary = Some("distilled".into());
    item.transcript = Some("long raw transcript".into());
    let document = item_document(&item);
    assert!(document.contains("distilled"));
    assert!(!document.contains("long raw transcript"));
}

#[test]
fn frontmatter_stops_at_the_closing_fence_and_needs_an_opening_one() {
    let body = "---\ntitle: x\n---\nsummary: after the block";
    assert_eq!(frontmatter_value(body, "summary"), None);
    assert_eq!(frontmatter_value("summary: no block", "summary"), None);
    assert_eq!(frontmatter_value("", "summary"), None);
    assert_eq!(
        frontmatter_value("  ---  \nsummary:   \"\"quoted\"\"  \n---", "summary").as_deref(),
        Some("quoted")
    );
}

#[test]
fn a_profile_without_a_query_embeds_its_scaffolding() {
    let body = "---\nsummary: S\n---\nnote";
    assert_eq!(
        profile_embedding_text("L", "S", "F", "A", body),
        format!("L\nS\nF\nA\n{body}")
    );
    let blank_query = "---\nrelevance_query:   \n---\n";
    assert_eq!(
        profile_embedding_text("L", "", "", "", blank_query),
        format!("L\n\n\n\n{blank_query}")
    );
}

#[test]
fn an_item_document_joins_title_author_and_content() {
    let mut item = FeedItem::new("https://example.com", "news", "article");
    item.title = Some("T".into());
    item.transcript = Some("raw".into());
    assert_eq!(item_document(&item), "T\n\nraw");
    assert_eq!(cap_chars("äöü", 2), "äö");
}

#[test]
fn tokens_are_lowercase_words_of_three_or_more() {
    assert_eq!(
        tokens("AI systems-Architecture, and OPEN source!"),
        vec!["systems", "architecture", "and", "open", "source"]
    );
    assert!(tokens("a b cd").is_empty());
}

#[test]
fn a_lens_is_built_from_its_note() {
    let body = "---\nsummary: Technical systems\ncurrent_focus:  \ncategory_affinity: conference\n---\nBody";
    let profile = profile_from(" Polymath ", "/lenses/Polymath.md", body).unwrap();
    assert_eq!(profile.label, "Polymath");
    assert_eq!(profile.focus, "Technical systems · conference");
    assert_eq!(profile.text, format!("Polymath\nTechnical systems\n\nconference\n{body}"));
    assert_eq!(profile.key.len(), 64);
    assert_eq!(profile.fingerprint.len(), 64);
    assert_ne!(profile.key, profile.fingerprint);
    assert!(profile_from("README", "/lenses/README.md", body).is_none());
    assert!(profile_from("Focus", "/lenses/Focus.md", body).is_none());
    assert_eq!(profile_focus("", " ", ""), "");
}

#[test]
fn rationales_name_the_method_and_the_lens() {
    assert_eq!(
        rationale("lexical", "Systems", "software architecture"),
        "Lexical similarity for Systems · software architecture"
    );
    assert_eq!(
        rationale("reranked", "Systems", ""),
        "Reranked relevance for the TELOS lens Systems"
    );
    assert_eq!(
        rationale("semantic", "S", "f"),
        "Semantic similarity for S · f"
    );
}

#[test]
fn a_refused_item_is_handed_to_no_scorer() {
    let mut a = comms::store::FeedItem::new("https://a.example", "news", "article");
    a.title = Some("Transit data".into());
    let mut mail = comms::store::FeedItem::new("https://mail.example", "mail", "mail");
    mail.title = Some("private@example.com".into());
    let mut b = comms::store::FeedItem::new("https://b.example", "news", "article");
    b.title = Some("Open schedules".into());
    let items = vec![a, mail, b];
    let docs = admitted_documents(&items, &vec![true, false, true]);
    assert_eq!(docs, vec![item_document(&items[0]), item_document(&items[2])]);
    assert!(docs.iter().all(|d| !d.contains("private@example.com")));
    assert!(admitted_documents(&items, &vec![false, false, false]).is_empty());
}

#[test]
fn zero_declared_paths_is_not_an_error() {
    // Every worktree, every CI run and every fresh install is this state.
    assert_eq!(
        profiles_verdict(&Vec::new(), 0),
        None,
        "a machine that declares no TELOS lens must not 500 its feed"
    );
    assert!(
        profiles_verdict(&vec![DeclaredPath::Missing], 0).is_some(),
        "a declared path that has moved is a fault, not zero lenses"
    );
    assert!(
        profiles_verdict(&vec![DeclaredPath::Directory], 0).is_some(),
        "a declared directory holding no lens yields no scores and must say so"
    );
}

#[test]
fn the_first_failing_declared_path_names_the_error() {
    assert_eq!(
        profiles_verdict(
            &vec![
                DeclaredPath::File,
                DeclaredPath::UnreadableDirectory("permission denied".into()),
                DeclaredPath::Missing,
            ],
            3
        ),
        Some("a declared TELOS profile directory cannot be read: permission denied".to_string())
    );
    assert_eq!(
        profiles_verdict(&vec![DeclaredPath::Directory, DeclaredPath::Missing], 2),
        Some("a declared TELOS profile path does not exist".to_string())
    );
    assert_eq!(
        profiles_verdict(&vec![DeclaredPath::File], 0),
        Some("declared TELOS profile paths yielded no readable profiles".to_string())
    );
    assert_eq!(profiles_verdict(&vec![DeclaredPath::File, DeclaredPath::Directory], 1), None);
}
