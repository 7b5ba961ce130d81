use comms::people_registry::{receipt, registry_tokens, Registry, State};

#[test]
fn loads_single_tokens_and_ignores_phrases() {
    let r = Registry::from_text(Some(r#"{"tokens":["Erika","Mustermann","About Me"]}"#));
    assert_eq!(r.state(), State::Loaded(2), "a phrase cannot match a whitespace token");
    assert!(r.is_known_person("erika"));
    assert!(r.is_known_person("mustermann"));
    assert!(!r.is_known_person("About Me"));
}

#[test]
fn a_missing_file_downgrades_to_rung_one_rather_than_failing() {
    let r = Registry::absent();
    assert_eq!(r.state(), State::Absent);
    assert_eq!(Registry::from_text(None).state(), State::Absent, "no file resolves the same way");
    assert!(!r.is_known_person("Erika"));
}

#[test]
fn a_corrupt_file_is_distinguishable_from_a_missing_one() {
    let r = Registry::from_text(Some("{ this is not json"));
    assert_eq!(r.state(), State::Unreadable);
}

#[test]
fn matching_ignores_case_and_trailing_punctuation() {
    let r = Registry::from_text(Some(r#"{"tokens":["Erika"]}"#));
    for probe in ["Erika,", "erika.", "ERIKA!", "(Erika)"] {
        assert!(r.is_known_person(probe), "{probe} should match");
    }
}

#[test]
fn short_tokens_duplicates_and_non_strings() {
    let r = Registry::from_file(Some(vec![
        Some("Al".into()),
        None,
        Some("ERIKA".into()),
        Some("erika".into()),
    ]));
    assert_eq!(r.state(), State::Loaded(2));
    assert!(!r.is_known_person("Al"), "fewer than three characters never match");
    assert!(!r.is_known_person("..."));
}

#[test]
fn receipts_name_the_state_in_one_vocabulary() {
    assert_eq!(receipt(State::Loaded(7)), ("loaded", 7));
    assert_eq!(receipt(State::Absent), ("absent", 0));
    assert_eq!(receipt(State::Unreadable), ("unreadable", 0));
}

#[test]
fn the_registry_text_is_read_for_its_tokens_array() {
    assert_eq!(
        registry_tokens(r#"{"tokens":["Erika", 3, null]}"#),
        Some(vec![Some("Erika".to_string()), None, None])
    );
    assert_eq!(registry_tokens(r#"{"names":["Erika"]}"#), None);
    assert_eq!(registry_tokens(r#"{"tokens":"Erika"}"#), None);
    assert_eq!(registry_tokens("[1, 2]"), None);
    assert_eq!(Registry::from_text(Some(r#"{"names":[]}"#)).state(), State::Unreadable);
    assert_eq!(Registry::from_text(Some(r#"{"tokens":[]}"#)).state(), State::Loaded(0));
}
