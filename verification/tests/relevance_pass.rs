use comms::relevance_pass::{
    active_mode, capacity_alerting, has_more, last_pass_mode, missing_ids, parse_usize_exec,
    refresh_params, route, ItemState, PassCursor, Route,
};

fn chars(s: &str) -> Vec<char> {
    s.chars().collect()
}

#[test]
fn a_cursor_reads_back_what_it_wrote() {
    let cursor = PassCursor {
        mode: "semantic".into(),
        completed: "rev:a".into(),
        progress_revision: "rev:b".into(),
        progress_end: 400,
    };
    let text = cursor.render();
    assert_eq!(text, "semantic|rev:a|rev:b:400");
    let back = PassCursor::parse(Some(&text));
    assert_eq!(back.mode, "semantic");
    assert_eq!(back.completed, "rev:a");
    assert_eq!(back.progress_revision, "rev:b");
    assert_eq!(back.progress_end, 400);
}

#[test]
fn a_missing_or_short_cursor_reads_as_empty() {
    let empty = PassCursor::parse(None);
    assert_eq!((empty.mode.as_str(), empty.completed.as_str()), ("", ""));
    assert_eq!((empty.progress_revision.as_str(), empty.progress_end), ("", 0));
    let short = PassCursor::parse(Some("lexical"));
    assert_eq!(short.mode, "lexical");
    assert_eq!(short.completed, "");
    let bad_end = PassCursor::parse(Some("m|c|r:x9"));
    assert_eq!((bad_end.progress_revision.as_str(), bad_end.progress_end), ("r", 0));
}

#[test]
fn numbers_parse_as_rust_parses_them() {
    assert_eq!(parse_usize_exec(&chars("42")), Some(42));
    assert_eq!(parse_usize_exec(&chars("+7")), Some(7));
    assert_eq!(parse_usize_exec(&chars("")), None);
    assert_eq!(parse_usize_exec(&chars("+")), None);
    assert_eq!(parse_usize_exec(&chars("-1")), None);
    assert_eq!(parse_usize_exec(&chars("99999999999999999999999")), None);
}

#[test]
fn only_a_continuing_page_extends_the_chain() {
    let mut cursor = PassCursor::parse(None);
    cursor.advance(false, 0, 200, true, "r1", "semantic");
    assert_eq!((cursor.progress_revision.as_str(), cursor.progress_end), ("r1", 200));
    cursor.advance(false, 400, 200, true, "r1", "semantic");
    assert_eq!(cursor.progress_end, 200, "a page that skips ahead does not extend the chain");
    cursor.advance(false, 200, 50, false, "r1", "lexical");
    assert_eq!(cursor.completed, "r1");
    assert_eq!((cursor.progress_revision.as_str(), cursor.progress_end), ("", 0));
    assert_eq!(cursor.mode, "lexical");
    cursor.advance(true, 0, 3, false, "r2", "semantic");
    assert_eq!(cursor.completed, "r1", "a pass over named ids leaves progress alone");
}

#[test]
fn refresh_windows_are_bounded() {
    assert_eq!(refresh_params(None, None, None), Ok((90, 200, 0)));
    assert_eq!(
        refresh_params(Some(0), None, None),
        Err("days must be between 1 and 3650".to_string())
    );
    assert_eq!(
        refresh_params(Some(3650), Some(501), Some(5)),
        Err("limit must be between 1 and 500".to_string())
    );
}

#[test]
fn items_are_routed_to_the_cheapest_sufficient_path() {
    let base = ItemState {
        allowed: true,
        has_matches: true,
        first_match_lexical: false,
        evaluation_matches_content: true,
        evaluation_current: true,
    };
    assert_eq!(route(base, false, false, true), Route::Current);
    assert_eq!(route(ItemState { evaluation_current: false, ..base }, false, false, true), Route::Reevaluate);
    assert_eq!(route(ItemState { first_match_lexical: true, ..base }, false, false, true), Route::Rescore);
    assert_eq!(route(ItemState { first_match_lexical: true, ..base }, false, false, false), Route::Current);
    assert_eq!(route(base, false, true, false), Route::Rescore);
    assert_eq!(route(ItemState { allowed: false, ..base }, true, true, true), Route::Refused);
}

#[test]
fn pass_receipts() {
    assert!(has_more(false, 200, 200));
    assert!(!has_more(true, 200, 200));
    let requested = vec!["a".to_string(), "b".to_string(), "c".to_string()];
    let found = vec!["b".to_string()];
    assert_eq!(missing_ids(&requested, &found), vec!["a".to_string(), "c".to_string()]);
    assert_eq!(active_mode(true, true), "reranked");
    assert_eq!(active_mode(true, false), "semantic");
    assert_eq!(active_mode(false, true), "lexical");
    assert!(capacity_alerting(3, 3));
    assert!(!capacity_alerting(0, 9));
    assert_eq!(last_pass_mode(Some("semantic|r")), Some("semantic".to_string()));
    assert_eq!(last_pass_mode(Some("|r")), None);
    assert_eq!(last_pass_mode(None), None);
}
