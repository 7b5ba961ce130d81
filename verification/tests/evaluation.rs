use comms::redaction::{caught_and_total, empty_measurement, skip_reasons, skipped_fixtures};
use comms::relevance::embedding_backend_configured;

#[test]
fn a_run_counts_caught_and_checked_labels_over_every_cell() {
    let cells = vec![(3, 4), (0, 2), (5, 5)];
    assert_eq!(caught_and_total(&cells), (8, 11));
    assert!(!empty_measurement(&cells));
}

#[test]
fn a_run_that_checked_no_label_measured_nothing() {
    assert!(empty_measurement(&Vec::new()));
    assert!(empty_measurement(&vec![(0, 0)]));
}

#[test]
fn refused_fixtures_are_counted_and_explained_per_class() {
    let skipped = vec![("c0".to_string(), 2), ("vault".to_string(), 1)];
    assert_eq!(skipped_fixtures(&skipped), 3);
    assert_eq!(
        skip_reasons(&skipped, "local only"),
        vec![
            "2 fixture(s) refused for data_class \"c0\": local only".to_string(),
            "1 fixture(s) refused for data_class \"vault\": local only".to_string(),
        ]
    );
    assert!(skip_reasons(&Vec::new(), "local only").is_empty());
}

#[test]
fn an_embedding_role_needs_a_base_url_and_a_model() {
    assert!(embedding_backend_configured(Some(("http://127.0.0.1:8000/v1", "nomic"))));
    assert!(!embedding_backend_configured(Some(("  ", "nomic"))));
    assert!(!embedding_backend_configured(Some(("http://127.0.0.1:8000/v1", ""))));
    assert!(!embedding_backend_configured(None));
}
