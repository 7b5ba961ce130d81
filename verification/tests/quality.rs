use comms::provenance::StageProvenance;
use comms::quality::QualityFlagConfig;
use comms::store::FeedItem;

fn item(content_status: &str, transcript: Option<&str>) -> FeedItem {
    let mut item = FeedItem::new("https://example.com/item", "news", "article");
    item.content_status = content_status.to_string();
    item.transcript = transcript.map(str::to_string);
    item
}

fn deterministic_stages() -> Vec<StageProvenance> {
    let mut extraction = StageProvenance::deterministic("extract-v1");
    extraction.stage = "extraction".into();
    let mut ranking = StageProvenance::deterministic("rank-v1");
    ranking.stage = "ranking".into();
    vec![extraction, ranking]
}

#[test]
fn clean_full_text_inside_the_corpus_envelope_has_no_flags() {
    let raw = "x".repeat(100);
    let canonical = "x".repeat(60);
    let item = item("full", Some(&canonical));

    assert!(comms::quality::derive(
        &item,
        Some(&raw),
        &deterministic_stages(),
        true,
        &QualityFlagConfig::default()
    )
    .is_empty());
}

#[test]
fn retention_flags_both_sides_of_the_fixture_envelope() {
    for canonical_chars in [20, 95] {
        let raw = "x".repeat(100);
        let canonical = "x".repeat(canonical_chars);
        let item = item("full", Some(&canonical));
        let flags = comms::quality::derive(
            &item,
            Some(&raw),
            &deterministic_stages(),
            false,
            &QualityFlagConfig::default(),
        );
        assert_eq!(
            flags
                .iter()
                .filter(|flag| flag.signal == "retention")
                .count(),
            1
        );
    }
}

#[test]
fn residual_boilerplate_names_the_rule_as_evidence() {
    let canonical = "Useful sentence.\nAccept all cookies";
    let raw = format!("{canonical}\n{}", "padding ".repeat(8));
    let item = item("full", Some(canonical));
    let flags = comms::quality::derive(
        &item,
        Some(&raw),
        &deterministic_stages(),
        false,
        &QualityFlagConfig::default(),
    );
    let flag = flags
        .iter()
        .find(|flag| flag.signal == "boilerplate_leakage")
        .unwrap();
    assert!(flag.evidence.contains("cookie-notice:1"));
}

#[test]
fn summary_error_and_abstract_ranking_are_independent_signals() {
    let mut item = item("thin", Some("Short abstract."));
    item.summary_attempts = 2;
    item.summary_last_error = Some("timeout".into());
    let raw = format!("{}{}", "Short abstract.", "x".repeat(20));
    let flags = comms::quality::derive(
        &item,
        Some(&raw),
        &deterministic_stages(),
        true,
        &QualityFlagConfig::default(),
    );

    assert!(flags.iter().any(|flag| {
        flag.signal == "summary_attempts" && flag.evidence.contains("last_error=timeout")
    }));
    assert!(flags.iter().any(|flag| {
        flag.signal == "ranking_basis" && flag.evidence.contains("basis=abstract")
    }));
}

#[test]
fn missing_content_and_raw_output_explain_the_extraction_path() {
    let mut item = item("none", None);
    item.captured_via = Some("extension".into());
    let flags = comms::quality::derive(&item, None, &[], true, &QualityFlagConfig::default());

    assert!(flags.iter().any(|flag| flag.signal == "content_status"));
    assert!(flags.iter().any(|flag| {
        flag.signal == "extraction_path" && flag.evidence.contains("captured_via=extension")
    }));
    assert!(flags.iter().any(|flag| {
        flag.signal == "ranking_basis" && flag.evidence.contains("basis=bare_title")
    }));
}

#[test]
fn retention_evidence_renders_exact_tenths() {
    let raw = "x".repeat(300);
    let canonical = "x".repeat(61);
    let item = item("full", Some(&canonical));
    let flags = comms::quality::derive(&item, Some(&raw), &deterministic_stages(), false, &QualityFlagConfig::default());
    let flag = flags.iter().find(|flag| flag.signal == "retention").unwrap();
    assert_eq!(
        flag.evidence,
        "retained=20.3%; minimum=30.0%; raw_chars=300; canonical_chars=61"
    );
    assert_eq!(
        flag.reason,
        "retention fired: canonical text falls below the passing corpus envelope"
    );
}

#[test]
fn legacy_extraction_provenance_is_named() {
    let mut extraction = StageProvenance::legacy("old-extractor");
    extraction.stage = "extraction".into();
    let item = item("full", Some(&"x".repeat(60)));
    let flags = comms::quality::derive(&item, Some(&"x".repeat(100)), &[extraction], false, &QualityFlagConfig::default());
    assert_eq!(flags.len(), 1);
    assert_eq!(flags[0].signal, "extraction_path");
    assert_eq!(
        flags[0].evidence,
        "captured_via=server-fetch; tier=legacy; revision=old-extractor"
    );
}

#[test]
fn unknown_content_and_attempt_evidence() {
    let mut item = item("unknown", None);
    item.summary_attempts = 3;
    let flags = comms::quality::derive(&item, Some("raw"), &[], false, &QualityFlagConfig::default());
    assert_eq!(flags.len(), 2);
    assert_eq!(
        flags[0].evidence,
        "content_status=unknown; extraction_path=server-fetch"
    );
    assert_eq!(
        flags[1].evidence,
        "attempts=3; warning_at=2; last_error=unknown"
    );
}

#[test]
fn retention_evidence_rounds_halfway_tenths_as_a_printed_double() {
    for (canonical_chars, raw_chars, shown) in [
        (1, 16, "6.2"),
        (27, 400, "6.8"),
        (3, 2000, "0.1"),
        (7, 2000, "0.3"),
        (9, 2000, "0.5"),
    ] {
        let raw = "x".repeat(raw_chars);
        let canonical = "x".repeat(canonical_chars);
        let item = item("full", Some(&canonical));
        let flags = comms::quality::derive(&item, Some(&raw), &deterministic_stages(), false, &QualityFlagConfig::default());
        let flag = flags.iter().find(|flag| flag.signal == "retention").unwrap();
        assert_eq!(
            flag.evidence,
            format!("retained={shown}%; minimum=30.0%; raw_chars={raw_chars}; canonical_chars={canonical_chars}")
        );
    }
}
