use comms::auth::{authorize, constant_time_eq, AuthOutcome};
use comms::cloud::{
    approval_failure, budget_refusal, cloud_tier_allows, preview_failure, queue_failure,
    queue_refusal, requests_remaining, run_failure, unavailable_reason,
};
use comms::mail::{
    bulk_request, loopback_inference_url, reconciled_status, sweep_cursor, sweep_error_class,
    sweep_limit, target_location, thread_action_for_job, JobOutcome, MaintenanceCounts,
    Observation, SweepCounts, ThreadAction, ThreadLocation,
};
use comms::schedule::{
    drain_period, drain_schedule, phase_offset, sweep_due, DIGEST_PHASE, ENRICHMENT_PHASE,
    PHASE_PARTS,
};
use comms::store::GmailActionJob;

const PASSTHROUGH_VERSION: &str = "passthrough-v1";
const REDACTION_VERSION: &str = "deterministic-entity-redaction-v2";

fn tier_allows(tier: Option<&str>, original: &str, derivative: &str, transformation: &str) -> bool {
    cloud_tier_allows(tier, original, derivative, transformation, PASSTHROUGH_VERSION, REDACTION_VERSION)
}

#[test]
fn server_sweep_errors_land_in_the_class_that_drives_backoff() {
    assert_eq!(sweep_error_class("HTTP 401 Unauthorized"), "auth");
    assert_eq!(sweep_error_class("token refresh failed: auth"), "auth");
    assert_eq!(sweep_error_class("HTTP 429 Too Many Requests"), "quota");
    assert_eq!(sweep_error_class("userRateLimitExceeded"), "quota");
    assert_eq!(sweep_error_class("connect timeout"), "network");
    assert_eq!(sweep_error_class("dns failure"), "network");
    assert_eq!(sweep_error_class("something else entirely"), "unknown");
}

#[test]
fn main_sweep_errors_land_in_the_class_that_drives_backoff() {
    assert_eq!(sweep_error_class("HTTP 403 Forbidden"), "auth");
    assert_eq!(sweep_error_class("Quota exceeded"), "quota");
    assert_eq!(sweep_error_class("DNS lookup failed"), "network");
    assert_eq!(sweep_error_class(""), "unknown");
}

#[test]
fn server_mail_relevance_accepts_only_loopback_model_endpoints() {
    assert!(loopback_inference_url("http://127.0.0.1:8000/v1"));
    assert!(loopback_inference_url("http://localhost:11434"));
    assert!(loopback_inference_url("http://[::1]:8000/v1"));
    assert!(!loopback_inference_url("https://api.example.com/v1"));
}

#[test]
fn main_mail_relevance_accepts_only_loopback_model_endpoints() {
    assert!(loopback_inference_url("  HTTPS://LOCALHOST:443/v1 "));
    assert!(!loopback_inference_url("http://localhost/v1"));
    assert!(!loopback_inference_url("http://127.0.0.1.example.com:80"));
}

#[test]
fn cloud_tiers_accept_only_the_exact_reviewed_representation() {
    assert!(tier_allows(Some("public"), "public", "public", PASSTHROUGH_VERSION));
    assert!(!tier_allows(Some("public"), "personal", "personal", REDACTION_VERSION));
    assert!(tier_allows(
        Some("pseudonymized_personal"),
        "personal",
        "personal",
        REDACTION_VERSION,
    ));
    assert!(!tier_allows(
        Some("pseudonymized_personal"),
        "personal",
        "personal",
        PASSTHROUGH_VERSION,
    ));
    assert!(!tier_allows(
        Some("pseudonymized_personal"),
        "vault",
        "personal",
        REDACTION_VERSION,
    ));
    assert!(!tier_allows(None, "public", "public", PASSTHROUGH_VERSION));
}

#[test]
fn server_reconciled_gmail_location_maps_to_truthful_local_status() {
    assert_eq!(reconciled_status("proposed", ThreadLocation::Archive), "archived");
    assert_eq!(reconciled_status("archived", ThreadLocation::Inbox), "proposed");
    assert_eq!(reconciled_status("approved", ThreadLocation::Inbox), "approved");
    assert_eq!(reconciled_status("archived", ThreadLocation::Trash), "trashed");
}

#[test]
fn main_reconciled_gmail_location_maps_to_truthful_local_status() {
    assert_eq!(reconciled_status("executed", ThreadLocation::Inbox), "proposed");
    assert_eq!(reconciled_status("trashed", ThreadLocation::Inbox), "proposed");
    assert_eq!(reconciled_status("waiting", ThreadLocation::Archive), "archived");
}

#[test]
fn the_two_phases_are_not_a_whole_period_apart() {
    let gap = DIGEST_PHASE.abs_diff(ENRICHMENT_PHASE);
    assert!(
        gap % PHASE_PARTS != 0,
        "phases {ENRICHMENT_PHASE} and {DIGEST_PHASE} are a whole period apart"
    );
}

fn fire_times(every_minutes: u64, phase: u64, passes: u64) -> Vec<u64> {
    let period = drain_period(every_minutes);
    let offset = phase_offset(period, phase);
    (0..passes).map(|n| offset + period * n).collect()
}

#[test]
fn the_two_drains_never_fire_on_the_same_tick() {
    let enrichment = fire_times(15, ENRICHMENT_PHASE, 4);
    let digest = fire_times(15, DIGEST_PHASE, 4);
    for at in &enrichment {
        assert!(!digest.contains(at), "both drains fire at {at}");
    }
}

#[test]
fn the_offset_holds_at_any_interval() {
    for minutes in [1_u64, 5, 15, 60, 240] {
        let enrichment = fire_times(minutes, ENRICHMENT_PHASE, 4);
        let digest = fire_times(minutes, DIGEST_PHASE, 4);
        for at in &enrichment {
            assert!(!digest.contains(at), "at {minutes} min both drains fire at {at}");
        }
    }
}

#[test]
fn only_one_drain_runs_at_boot() {
    assert_eq!(fire_times(15, ENRICHMENT_PHASE, 1), vec![0]);
    assert_eq!(fire_times(15, DIGEST_PHASE, 1), vec![450]);
    assert_eq!(drain_schedule(0, DIGEST_PHASE), None);
    assert_eq!(drain_schedule(15, DIGEST_PHASE), Some((900, 450)));
}

#[test]
fn a_failing_sweep_backs_off_by_skipping_ticks() {
    assert!(sweep_due(0, 7));
    assert!(sweep_due(1, 4) && !sweep_due(1, 5));
    assert!(sweep_due(3, 16) && !sweep_due(3, 12));
    assert!(sweep_due(9, 64) && !sweep_due(9, 48));
}

#[test]
fn only_the_configured_secret_gets_through() {
    assert!(constant_time_eq(b"s3cret", b"s3cret"));
    assert!(!constant_time_eq(b"s3cret", b"s3creT"));
    assert!(!constant_time_eq(b"s3cret", b"s3cre"));
    assert_eq!(authorize(None, Some("Bearer s3cret"), None), AuthOutcome::Forbidden);
    assert_eq!(authorize(Some(""), Some("Bearer s3cret"), None), AuthOutcome::Forbidden);
    assert_eq!(authorize(Some("s3cret"), Some("Bearer s3cret"), None), AuthOutcome::Pass);
    assert_eq!(authorize(Some("s3cret"), None, Some("s3cret")), AuthOutcome::Pass);
    assert_eq!(authorize(Some("s3cret"), Some("Basic abc"), Some("s3cret")), AuthOutcome::Pass);
    assert_eq!(authorize(Some("s3cret"), Some("Bearer nope"), Some("s3cret")), AuthOutcome::Unauthorized);
    assert_eq!(authorize(Some("s3cret"), None, None), AuthOutcome::Unauthorized);
}

fn job(action: &str, source_status: &str) -> GmailActionJob {
    GmailActionJob {
        job_id: 1,
        triage_id: "t".into(),
        action: action.into(),
        source_status: source_status.into(),
        attempts: 0,
    }
}

#[test]
fn stored_jobs_name_their_gmail_call_and_target() {
    assert_eq!(thread_action_for_job(&job("archive", "proposed")), Ok(ThreadAction::Archive));
    assert_eq!(thread_action_for_job(&job("restore", "trashed")), Ok(ThreadAction::RestoreTrash));
    assert_eq!(
        thread_action_for_job(&job("restore", "proposed")),
        Err("stored Gmail action has an invalid source state".to_string())
    );
    assert_eq!(target_location(&job("restore", "archived")), Ok(ThreadLocation::Inbox));
    assert_eq!(
        target_location(&job("label", "proposed")),
        Err("stored Gmail action is invalid".to_string())
    );
}

#[test]
fn maintenance_counts_every_job_and_read_once() {
    let mut counts = MaintenanceCounts::start(3);
    counts.record_job(JobOutcome::Confirmed { changed: true });
    counts.record_job(JobOutcome::Missing);
    counts.record_job(JobOutcome::Failed);
    counts.record_observation("archived", Observation::Located(ThreadLocation::Inbox));
    counts.record_observation("archived", Observation::Located(ThreadLocation::Archive));
    counts.record_observation("missing", Observation::Missing);
    counts.record_observation("proposed", Observation::Unreadable);
    assert_eq!(
        (counts.retried, counts.recovered, counts.retry_failures, counts.missing),
        (3, 1, 1, 2)
    );
    assert_eq!((counts.reconciled, counts.changed, counts.read_failures), (3, 1, 1));

    let mut sweep = SweepCounts::new();
    sweep.record_stored(2, true);
    sweep.record_stored(0, false);
    sweep.record_skipped();
    assert_eq!((sweep.fetched, sweep.new_count, sweep.skipped, sweep.redacted), (2, 1, 1, 1));
    assert_eq!(sweep_limit(None), 100);
    assert_eq!(sweep_limit(Some(0)), 1);
    assert_eq!(sweep_limit(Some(500)), 100);
    assert_eq!(sweep_cursor(Some("  ".into())), None);
    assert_eq!(sweep_cursor(Some("abc".into())), Some("abc".to_string()));
}

#[test]
fn bulk_requests_are_checked_and_deduplicated() {
    let classes = vec!["public".to_string(), "personal".to_string()];
    let ids = vec!["a".to_string(), "b".to_string(), "a".to_string()];
    assert_eq!(
        bulk_request(&ids, "dismiss", &None, &None, &classes),
        Ok(vec!["a".to_string(), "b".to_string()])
    );
    assert_eq!(
        bulk_request(&vec![], "dismiss", &None, &None, &classes),
        Err("select between 1 and 100 proposals".to_string())
    );
    assert_eq!(
        bulk_request(&ids, "explode", &None, &None, &classes),
        Err("action must be dismiss, categorize, set-data-class, archive, trash, waiting, or clear-waiting".to_string())
    );
    assert_eq!(
        bulk_request(&ids, "categorize", &None, &None, &classes),
        Err("categorize requires a stream".to_string())
    );
    assert_eq!(
        bulk_request(&ids, "set-data-class", &None, &Some("secret".into()), &classes),
        Err("set-data-class requires one of: public, personal".to_string())
    );
}

#[test]
fn cloud_providers_and_refusals_are_answered_in_order() {
    assert_eq!(unavailable_reason(false, true, Some(0), 5), Some("missing_credential"));
    assert_eq!(unavailable_reason(true, false, Some(0), 5), Some("billing_expired_or_unknown"));
    assert_eq!(unavailable_reason(true, true, None, 5), Some("budget_unavailable"));
    assert_eq!(unavailable_reason(true, true, Some(5), 5), Some("daily_request_limit_reached"));
    assert_eq!(unavailable_reason(true, true, Some(4), 5), None);
    assert_eq!(requests_remaining(Some(7), 5), Some(0));
    assert_eq!(requests_remaining(Some(2), 5), Some(3));
    assert_eq!(
        queue_refusal(false, false, false, 10, None),
        Some("approved derivative is stale; prepare and review it again")
    );
    assert_eq!(
        queue_refusal(true, true, true, 10, Some(9)),
        Some("provider input token ceiling is below this reviewed derivative")
    );
    assert_eq!(queue_refusal(true, true, true, 10, Some(10)), None);
    assert_eq!(budget_refusal(3, Some(3)), Some("provider daily request ceiling is reached"));
    assert_eq!(budget_refusal(2, Some(3)), None);

    let f = queue_failure("approved derivative is stale; prepare and review it again");
    assert_eq!((f.status, f.error.as_str()), (409, "approved derivative is stale; prepare and review it again"));
    let f = queue_failure("provider billing policy is expired or inactive");
    assert_eq!((f.status, f.error.as_str()), (500, "cloud queue failed"));
    let f = run_failure("dispatch failed: 503");
    assert_eq!((f.status, f.error.as_str()), (502, "dispatch failed: 503"));
    let f = approval_failure("preview is stale; prepare and review the current document again");
    assert_eq!(f.status, 409);
    let f = preview_failure("source must be 'feed' or 'mail'");
    assert_eq!(f.status, 400);
    let f = preview_failure("disk full");
    assert_eq!((f.status, f.error.as_str()), (500, "cloud preview failed"));
}
