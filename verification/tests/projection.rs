use comms::projection::{id_suffix, render, render_all, stale, title, Outcome, Projection, Report, SAVED};
use comms::store::FeedItem;

fn item(id: &str, kind: &str, title: Option<&str>, summary: Option<&str>) -> FeedItem {
    FeedItem {
        id: id.to_string(),
        stream: "media".into(),
        kind: kind.to_string(),
        title: title.map(str::to_string),
        url: format!("https://example.test/{id}"),
        author: Some("A Person".into()),
        summary: summary.map(str::to_string),
        transcript: None,
        day: "2026-08-08".into(),
        created_at: "2026-08-08 21:36:26.352+00:00".into(),
        status: SAVED.into(),
        content_status: "full".into(),
        transcript_source: "full-text".into(),
        summary_attempts: 0,
        summary_last_error: None,
        summary_next_attempt: None,
        captured_via: None,
        raw_content: None,
        summary_provenance: None,
        data_class: "personal".into(),
        data_class_rationale: "test".into(),
        data_classification_method: "legacy".into(),
        data_classification_version: "data-class-legacy-v1".into(),
    }
}

#[test]
fn the_body_is_the_summary_verbatim() {
    let summary =
        "Richard Hipp on why SQLite tests the way it does.\n\nTwo paragraphs, kept as written.";
    let rendered = render(&item(
        "aaaa1111",
        "youtube",
        Some("SQLite lessons"),
        Some(summary),
    ));
    assert!(
        rendered.ends_with(&format!("{summary}\n")),
        "the summary must survive unrewrapped: {rendered}"
    );
    assert!(rendered.contains("# SQLite lessons\n"));
}

#[test]
fn an_item_with_no_summary_says_so_rather_than_writing_an_empty_note() {
    let rendered = render(&item(
        "bbbb2222",
        "article",
        Some("Polarity Dispenser"),
        None,
    ));
    assert!(rendered.contains("_No summary stored yet._"), "{rendered}");
}

#[test]
fn two_items_with_one_title_both_get_an_id_suffix() {
    let both = vec![
        item("1111aaaabbbbcccc", "github", Some("skills"), None),
        item("2222ddddeeeeffff", "github", Some("skills"), None),
    ];
    let stems = vec!["skills".to_string(), "skills".to_string()];
    let paths: Vec<String> = render_all(&both, &stems).into_iter().map(|p| p.path).collect();
    assert_eq!(
        paths,
        vec![
            "Resources/Sources/skills (bbbbcccc).md",
            "Resources/Sources/skills (eeeeffff).md",
        ],
        "both sides are renamed, so neither name depends on order"
    );
}

#[test]
fn a_titleless_item_is_headed_by_the_url_it_saved() {
    let rendered = render(&item("eeee5555", "article", None, Some("x")));
    assert!(
        rendered.contains("# https://example.test/eeee5555"),
        "{rendered}"
    );
}

#[test]
fn the_whole_document_has_the_documented_shape() {
    let rendered = render(&item("cccc3333", "github", Some("  ladybird \"web\" "), Some(" A browser. ")));
    assert_eq!(
        rendered,
        "---\ntype: \"source\"\nformat: \"repo\"\nstatus: \"backlog\"\nauthor: \"A Person\"\n\
         url: \"https://example.test/cccc3333\"\ncreated: \"2026-08-08\"\naxon_feed_id: \"cccc3333\"\n\
         axon_projection_version: \"1\"\n---\n\n# ladybird \"web\"\n\nA browser.\n"
    );
}

#[test]
fn a_kind_without_a_vault_word_gets_no_format_line_and_backslashes_are_escaped() {
    let mut it = item("dddd4444", "mail", Some("A kept mail"), Some("x"));
    it.author = Some("C:\\Users \"me\"".into());
    it.day = "  ".into();
    let rendered = render(&it);
    assert!(!rendered.contains("format:"));
    assert!(!rendered.contains("created:"));
    assert!(rendered.contains("author: \"C:\\\\Users \\\"me\\\"\"\n"));
}

#[test]
fn a_unique_stem_keeps_its_name() {
    let items = vec![
        item("1111aaaabbbbcccc", "github", Some("one"), None),
        item("2222ddddeeeeffff", "github", Some("two"), None),
        item("3333", "github", Some("one"), None),
    ];
    let stems = vec!["one".to_string(), "two".to_string(), "one".to_string()];
    let out = render_all(&items, &stems);
    assert_eq!(out[0].path, "Resources/Sources/one (bbbbcccc).md");
    assert_eq!(out[1].path, "Resources/Sources/two.md");
    assert_eq!(out[2].path, "Resources/Sources/one (3333).md");
    assert_eq!(out[1].body, render(&items[1]));
}

#[test]
fn a_report_counts_outcomes_and_keeps_refused_paths() {
    let mut report = Report::default();
    report.record(Outcome::Created, "a.md");
    report.record(Outcome::Created, "b.md");
    report.record(Outcome::Unchanged, "c.md");
    report.record(Outcome::NotOurs, "d.md");
    report.record(Outcome::Updated, "e.md");
    assert_eq!((report.created, report.updated, report.unchanged), (2, 1, 1));
    assert_eq!(report.refused, vec!["d.md".to_string()]);
    assert!(report.removed.is_empty());
}

#[test]
fn the_sweep_offers_only_notes_no_projection_names() {
    let rendered = vec![Projection {
        path: "Resources/Sources/SQLite lessons.md".into(),
        body: String::new(),
    }];
    let existing = vec![
        "Resources/Sources/ladybird.md".to_string(),
        "Resources/Sources/SQLite lessons.md".to_string(),
        "Resources/Sources/other.md".to_string(),
    ];
    assert_eq!(
        stale(&existing, &rendered),
        vec![
            "Resources/Sources/ladybird.md".to_string(),
            "Resources/Sources/other.md".to_string()
        ]
    );
}

/// The frontmatter of a note as key and unquoted value, in order.
fn frontmatter(note: &str) -> Vec<(String, String)> {
    let mut lines = note.lines();
    assert_eq!(lines.next(), Some("---"));
    let mut out = Vec::new();
    for line in lines {
        if line == "---" {
            return out;
        }
        let (key, value) = line.split_once(": ").unwrap();
        let value = value.strip_prefix('"').unwrap().strip_suffix('"').unwrap();
        out.push((key.to_string(), value.to_string()));
    }
    panic!("unterminated frontmatter: {note}");
}

fn field<'a>(fields: &'a [(String, String)], key: &str) -> Option<&'a str> {
    fields.iter().find(|(k, _)| k == key).map(|(_, v)| v.as_str())
}

#[test]
fn the_frontmatter_is_the_keys_a_reader_exists_for() {
    let rendered = render(&item("cccc3333", "github", Some("ladybird"), Some("A browser.")));
    let fields = frontmatter(&rendered);
    assert_eq!(field(&fields, "type").unwrap(), "source");
    assert_eq!(field(&fields, "format").unwrap(), "repo");
    assert_eq!(field(&fields, "status").unwrap(), "backlog");
    assert_eq!(field(&fields, "created").unwrap(), "2026-08-08");
    assert_eq!(field(&fields, "url").unwrap(), "https://example.test/cccc3333");
    assert_eq!(field(&fields, "axon_feed_id").unwrap(), "cccc3333");
    for unread in ["data_class", "stream", "content_status", "summary"] {
        assert!(
            field(&fields, unread).is_none(),
            "{unread} has no reader in the vault and must not be written"
        );
    }
}

#[test]
fn a_kind_the_vault_has_no_word_for_gets_no_format_key() {
    let rendered = render(&item("dddd4444", "mail", Some("A kept mail"), Some("x")));
    assert!(field(&frontmatter(&rendered), "format").is_none());
}

#[test]
fn the_stem_inputs_are_the_title_and_the_id_tail() {
    assert_eq!(title(&item("cccc3333", "github", Some("  ladybird "), None)), "ladybird");
    assert_eq!(title(&item("cccc3333", "github", Some("   "), None)), "https://example.test/cccc3333");
    assert_eq!(title(&item("cccc3333", "github", None, None)), "https://example.test/cccc3333");
    assert_eq!(id_suffix("1111aaaabbbbcccc"), "bbbbcccc");
    assert_eq!(id_suffix("abc"), "abc");
}
