use comms::mail::{
    gmail_action_request, gmail_job_decision, limit_within, needs_gmail_call,
    queue_refusal_status, retry_message, triage_status_request, ThreadLocation,
};
use comms::quality::{refresh_days, RefreshTally, QualityFlag};
use comms::requests::{ingest_url, surface_or_api, write_reply};
use comms::store::GmailActionJob;

#[test]
fn requests_are_refused_before_any_work() {
    assert_eq!(ingest_url("  https://example.com/a  "), Ok("https://example.com/a".to_string()));
    assert_eq!(ingest_url("   "), Err("url is required".to_string()));
    assert_eq!(surface_or_api(None), "api");
    assert_eq!(surface_or_api(Some("reader")), "reader");
    assert!(triage_status_request("approved").is_ok());
    assert_eq!(
        triage_status_request("archived"),
        Err("status must be proposed, approved, or dismissed; Gmail lifecycle states require the Gmail action endpoint".to_string())
    );
    assert!(gmail_action_request("restore").is_ok());
    assert_eq!(
        gmail_action_request("delete"),
        Err("action must be archive, trash, or restore".to_string())
    );
    assert!(gmail_job_decision("cancel").is_ok());
    assert_eq!(gmail_job_decision("later"), Err("decision must be retry or cancel".to_string()));
    assert_eq!(limit_within(None, 200, 1, 500), 200);
    assert_eq!(limit_within(Some(0), 200, 1, 500), 1);
    assert_eq!(limit_within(Some(9000), 500, 1, 2000), 2000);
}

#[test]
fn store_writes_are_answered_by_what_they_did() {
    let done = write_reply(Ok(true));
    assert_eq!((done.status, done.error), (200, None));
    let missing = write_reply(Ok(false));
    assert_eq!((missing.status, missing.error.as_deref()), (404, Some("not found")));
    let refused = write_reply(Err("class may not go down without a reason".into()));
    assert_eq!(refused.status, 400);
    assert_eq!(refused.error.as_deref(), Some("class may not go down without a reason"));
    assert_eq!(queue_refusal_status("mail proposal not found"), 404);
    assert_eq!(queue_refusal_status("an action is already pending"), 409);
    assert_eq!(
        retry_message("HTTP 500"),
        "HTTP 500; the action remains queued for bounded retry"
    );
}

#[test]
fn a_thread_already_in_place_needs_no_gmail_call() {
    let job = GmailActionJob {
        job_id: 7,
        triage_id: "t".into(),
        action: "archive".into(),
        source_status: "proposed".into(),
        attempts: 1,
    };
    assert_eq!(needs_gmail_call(ThreadLocation::Archive, &job), Ok(false));
    assert_eq!(needs_gmail_call(ThreadLocation::Inbox, &job), Ok(true));
}

#[test]
fn a_quality_refresh_tallies_flags() {
    assert_eq!(refresh_days(None), Ok(3650));
    assert_eq!(refresh_days(Some(0)), Err("days must be between 1 and 3650".to_string()));
    let mut tally = RefreshTally::new();
    tally.record(&vec![]);
    let flag = QualityFlag {
        signal: "retention".into(),
        reason: "r".into(),
        evidence: "e".into(),
    };
    let other = QualityFlag {
        signal: "ranking_basis".into(),
        reason: "r".into(),
        evidence: "e".into(),
    };
    tally.record(&vec![flag, other]);
    assert_eq!((tally.reviewed, tally.flagged_items, tally.flag_count), (2, 1, 2));
}
