use comms::cloud::{dispatch_error, failover_skip, outcome, run_failure, run_refusal};

#[test]
fn a_candidate_is_passed_over_for_the_first_reason_that_holds() {
    assert_eq!(failover_skip("openai", false, false, false, 10, None), Some(None));
    assert_eq!(
        failover_skip("openai", true, false, false, 10, None),
        Some(Some("openai: credential unavailable".to_string()))
    );
    assert_eq!(
        failover_skip("openai", true, true, false, 10, Some(100)),
        Some(Some("openai: billing policy inactive".to_string()))
    );
    assert_eq!(
        failover_skip("openai", true, true, true, 101, Some(100)),
        Some(Some("openai: input ceiling exceeded".to_string()))
    );
    assert_eq!(
        failover_skip("openai", true, true, true, 1, None),
        Some(Some("openai: input ceiling exceeded".to_string()))
    );
    assert_eq!(failover_skip("openai", true, true, true, 100, Some(100)), None);
}

#[test]
fn an_exhausted_failover_names_every_candidate_in_order() {
    let outcomes = vec![
        "a: credential unavailable".to_string(),
        outcome("b", "daily request ceiling reached"),
    ];
    assert_eq!(
        dispatch_error(false, &outcomes),
        "provider policy blocked dispatch: a: credential unavailable; b: daily request ceiling reached"
    );
    assert_eq!(
        dispatch_error(true, &vec![outcome("c", "timeout")]),
        "dispatch failed: c: timeout"
    );
    assert_eq!(
        dispatch_error(false, &Vec::new()),
        "provider policy blocked dispatch: no same-tier provider is configured"
    );
}

#[test]
fn an_exhausted_failover_is_answered_by_whether_a_provider_was_asked() {
    let asked = run_failure(&dispatch_error(true, &vec![outcome("c", "timeout")]));
    assert_eq!(asked.status, 502);
    assert_eq!(asked.error, "dispatch failed: c: timeout");
    let blocked = run_failure(&dispatch_error(false, &Vec::new()));
    assert_eq!(blocked.status, 400);
}

#[test]
fn a_job_that_cannot_run_says_why_first() {
    assert_eq!(
        run_refusal(false, false, false, false),
        Some("cloud job is completed, running, stale, or past its retry limit")
    );
    assert_eq!(run_refusal(true, false, false, false), Some("cloud job task is unsupported"));
    assert_eq!(
        run_refusal(true, true, false, false),
        Some("provider role is no longer a reviewed HTTPS cloud role")
    );
    assert_eq!(
        run_refusal(true, true, true, false),
        Some("provider role no longer allows the staged derivative")
    );
    assert_eq!(run_refusal(true, true, true, true), None);
    assert_eq!(run_failure("cloud job task is unsupported").status, 409);
}

#[test]
fn an_item_with_nothing_prepared_has_nothing_queued() {
    let state = comms::store::CloudDerivativeState::not_prepared();
    assert_eq!(state.status, "not_prepared");
    assert_eq!(state.dispatch_status, "not_queued");
    assert_eq!(state.provider_calls, 0);
    assert!(state.preview_hash.is_none() && state.job_id.is_none() && state.result.is_none());
}
