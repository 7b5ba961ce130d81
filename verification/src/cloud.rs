//! The reviewed cloud lane: which provider may take which reviewed copy,
//! whether a provider can be offered at all, and how a refusal is answered.
//!
//! Vault content never leaves. A public tier takes only a public original
//! passed through unchanged; a pseudonymized-personal tier also takes a
//! personal original in its redacted form. Anything else is refused.

use vstd::prelude::*;
use crate::text::{
    append, contains, contains_exec, join, join_exec, starts_with, starts_with_exec, str_eq,
    string_views, to_chars, to_string,
};

verus! {

/// Whether a provider tier may receive a reviewed derivative.
/// `passthrough` and `redaction` name the two reviewed transformations.
pub open spec fn tier_allows(
    tier: Option<Seq<char>>,
    original: Seq<char>,
    derivative: Seq<char>,
    transformation: Seq<char>,
    passthrough: Seq<char>,
    redaction: Seq<char>,
) -> bool {
    let public_derivative = original == "public"@ && derivative == "public"@ && transformation
        == passthrough;
    if original == "vault"@ {
        false
    } else {
        match tier {
            Some(t) => if t == "public"@ {
                public_derivative
            } else if t == "pseudonymized_personal"@ {
                public_derivative || (original == "personal"@ && derivative == "personal"@
                    && transformation == redaction)
            } else {
                false
            },
            None => false,
        }
    }
}

pub fn cloud_tier_allows(
    tier: Option<&str>,
    original_data_class: &str,
    derivative_data_class: &str,
    transformation: &str,
    passthrough: &str,
    redaction: &str,
) -> (r: bool)
    ensures
        r == tier_allows(
            match tier {
                Some(t) => Some(t@),
                None => None,
            },
            original_data_class@,
            derivative_data_class@,
            transformation@,
            passthrough@,
            redaction@,
        ),
{
    if str_eq(original_data_class, "vault") {
        return false;
    }
    let public_derivative = str_eq(original_data_class, "public") && str_eq(
        derivative_data_class,
        "public",
    ) && str_eq(transformation, passthrough);
    match tier {
        Some(t) => if str_eq(t, "public") {
            public_derivative
        } else if str_eq(t, "pseudonymized_personal") {
            public_derivative || (str_eq(original_data_class, "personal") && str_eq(
                derivative_data_class,
                "personal",
            ) && str_eq(transformation, redaction))
        } else {
            false
        },
        None => false,
    }
}

/// Vault content reaches no tier, whatever its derivative claims.
pub proof fn vault_content_never_leaves(
    tier: Option<Seq<char>>,
    derivative: Seq<char>,
    transformation: Seq<char>,
    passthrough: Seq<char>,
    redaction: Seq<char>,
)
    ensures
        !tier_allows(tier, "vault"@, derivative, transformation, passthrough, redaction),
{
}

/// A public tier never takes more than a pseudonymized-personal tier does.
pub proof fn public_tier_is_the_narrower(
    original: Seq<char>,
    derivative: Seq<char>,
    transformation: Seq<char>,
    passthrough: Seq<char>,
    redaction: Seq<char>,
)
    ensures
        tier_allows(Some("public"@), original, derivative, transformation, passthrough, redaction)
            ==> tier_allows(
            Some("pseudonymized_personal"@),
            original,
            derivative,
            transformation,
            passthrough,
            redaction,
        ),
{
    reveal_strlit("public");
    reveal_strlit("pseudonymized_personal");
}

/// Why a configured cloud provider cannot be offered today, if it cannot:
/// no credential, billing not active on today's date, no budget reading,
/// or the day's requests used up.
pub open spec fn unavailable(credential_ready: bool, billing_active: bool, calls: Option<u32>, limit: u32) -> Option<Seq<char>> {
    if !credential_ready {
        Some("missing_credential"@)
    } else if !billing_active {
        Some("billing_expired_or_unknown"@)
    } else {
        match calls {
            None => Some("budget_unavailable"@),
            Some(used) => if used >= limit {
                Some("daily_request_limit_reached"@)
            } else {
                None
            },
        }
    }
}

pub fn unavailable_reason(credential_ready: bool, billing_active: bool, calls: Option<u32>, limit: u32) -> (r: Option<&'static str>)
    ensures
        match r {
            Some(s) => unavailable(credential_ready, billing_active, calls, limit) == Some(s@),
            None => unavailable(credential_ready, billing_active, calls, limit) is None,
        },
{
    if !credential_ready {
        Some("missing_credential")
    } else if !billing_active {
        Some("billing_expired_or_unknown")
    } else {
        match calls {
            None => Some("budget_unavailable"),
            Some(used) => if used >= limit {
                Some("daily_request_limit_reached")
            } else {
                None
            },
        }
    }
}

/// Requests left today, never below zero.
pub fn requests_remaining(calls: Option<u32>, limit: u32) -> (r: Option<u32>)
    ensures
        match calls {
            None => r is None,
            Some(used) => r == Some(if used >= limit { 0u32 } else { (limit - used) as u32 }),
        },
{
    match calls {
        None => None,
        Some(used) => Some(if used >= limit {
            0
        } else {
            limit - used
        }),
    }
}

/// The first reason an approved copy may not be queued for a provider, once
/// the copy has been prepared again: it changed since review, the tier does
/// not take it, billing is not active, or it is over the input ceiling.
pub open spec fn queue_refused(
    hash_matches: bool,
    tier_allowed: bool,
    billing_active: bool,
    input_upper_bound: u32,
    max_input_tokens: Option<u32>,
) -> Option<Seq<char>> {
    if !hash_matches {
        Some("approved derivative is stale; prepare and review it again"@)
    } else if !tier_allowed {
        Some("provider role does not allow this reviewed derivative"@)
    } else if !billing_active {
        Some("provider billing policy is expired or inactive"@)
    } else if input_upper_bound > match max_input_tokens {
        Some(m) => m,
        None => 0,
    } {
        Some("provider input token ceiling is below this reviewed derivative"@)
    } else {
        None
    }
}

pub fn queue_refusal(
    hash_matches: bool,
    tier_allowed: bool,
    billing_active: bool,
    input_upper_bound: u32,
    max_input_tokens: Option<u32>,
) -> (r: Option<&'static str>)
    ensures
        match r {
            Some(s) => queue_refused(hash_matches, tier_allowed, billing_active, input_upper_bound, max_input_tokens) == Some(s@),
            None => queue_refused(hash_matches, tier_allowed, billing_active, input_upper_bound, max_input_tokens) is None,
        },
{
    let ceiling = match max_input_tokens {
        Some(m) => m,
        None => 0,
    };
    if !hash_matches {
        Some("approved derivative is stale; prepare and review it again")
    } else if !tier_allowed {
        Some("provider role does not allow this reviewed derivative")
    } else if !billing_active {
        Some("provider billing policy is expired or inactive")
    } else if input_upper_bound > ceiling {
        Some("provider input token ceiling is below this reviewed derivative")
    } else {
        None
    }
}

/// The daily request ceiling, read after the other checks pass.
pub fn budget_refusal(calls: u32, max_requests_per_day: Option<u32>) -> (r: Option<&'static str>)
    ensures
        r is Some <==> calls >= match max_requests_per_day {
            Some(m) => m,
            None => 0,
        },
        r matches Some(s) ==> s@ == "provider daily request ceiling is reached"@,
{
    let ceiling = match max_requests_per_day {
        Some(m) => m,
        None => 0,
    };
    if calls >= ceiling {
        Some("provider daily request ceiling is reached")
    } else {
        None
    }
}

/// An HTTP answer to a failed request: the status and the error text.
pub struct Failure {
    pub status: u16,
    pub error: String,
}

pub open spec fn source_error(e: Seq<char>) -> bool {
    e == "source must be 'feed' or 'mail'"@
}

/// How a failed preview is answered.
pub open spec fn preview_status(e: Seq<char>) -> (u16, Seq<char>) {
    if starts_with(e, "vault content"@) || source_error(e) {
        (400, e)
    } else {
        (500, "cloud preview failed"@)
    }
}

/// How a failed approval is answered.
pub open spec fn approval_status(e: Seq<char>) -> (u16, Seq<char>) {
    if starts_with(e, "preview is stale"@) {
        (409, e)
    } else if starts_with(e, "vault content"@) || source_error(e) {
        (400, e)
    } else {
        (500, "cloud approval staging failed"@)
    }
}

/// How a failed queue request is answered.
pub open spec fn queue_status(e: Seq<char>) -> (u16, Seq<char>) {
    if starts_with(e, "provider role"@) || starts_with(e, "provider credential"@) {
        (400, e)
    } else if contains(e, "stale"@) || starts_with(e, "approved derivative"@) {
        (409, e)
    } else if starts_with(e, "vault content"@) || source_error(e) {
        (400, e)
    } else {
        (500, "cloud queue failed"@)
    }
}

/// How a failed cloud job run is answered.
pub open spec fn run_status(e: Seq<char>) -> (u16, Seq<char>) {
    if starts_with(e, "provider role"@) || starts_with(e, "provider policy blocked"@) {
        (400, e)
    } else if starts_with(e, "dispatch failed:"@) {
        (502, e)
    } else if starts_with(e, "cloud job"@) {
        (409, e)
    } else {
        (500, "cloud job execution failed"@)
    }
}

fn begins(e: &str, p: &str) -> (r: bool)
    ensures
        r == starts_with(e@, p@),
{
    starts_with_exec(&to_chars(e), &to_chars(p))
}

fn failure(status: u16, error: &str) -> (r: Failure)
    ensures
        r.status == status,
        r.error@ == error@,
{
    Failure { status, error: to_string(&to_chars(error)) }
}

pub fn preview_failure(error: &str) -> (r: Failure)
    ensures
        (r.status, r.error@) == preview_status(error@),
{
    if begins(error, "vault content") || str_eq(error, "source must be 'feed' or 'mail'") {
        failure(400, error)
    } else {
        failure(500, "cloud preview failed")
    }
}

pub fn approval_failure(error: &str) -> (r: Failure)
    ensures
        (r.status, r.error@) == approval_status(error@),
{
    if begins(error, "preview is stale") {
        failure(409, error)
    } else if begins(error, "vault content") || str_eq(error, "source must be 'feed' or 'mail'") {
        failure(400, error)
    } else {
        failure(500, "cloud approval staging failed")
    }
}

pub fn queue_failure(error: &str) -> (r: Failure)
    ensures
        (r.status, r.error@) == queue_status(error@),
{
    if begins(error, "provider role") || begins(error, "provider credential") {
        failure(400, error)
    } else if contains_exec(&to_chars(error), &to_chars("stale")) || begins(
        error,
        "approved derivative",
    ) {
        failure(409, error)
    } else if begins(error, "vault content") || str_eq(error, "source must be 'feed' or 'mail'") {
        failure(400, error)
    } else {
        failure(500, "cloud queue failed")
    }
}

pub fn run_failure(error: &str) -> (r: Failure)
    ensures
        (r.status, r.error@) == run_status(error@),
{
    if begins(error, "provider role") || begins(error, "provider policy blocked") {
        failure(400, error)
    } else if begins(error, "dispatch failed:") {
        failure(502, error)
    } else if begins(error, "cloud job") {
        failure(409, error)
    } else {
        failure(500, "cloud job execution failed")
    }
}


// ---------------------------------------------------------------------------
// Running a queued job: guards and provider failover
// ---------------------------------------------------------------------------

/// Why a queued job cannot run at all, checked in this order: it must still
/// be up for dispatch, name the supported task, name a reviewed HTTPS cloud
/// role, and that role's tier must still take the staged derivative.
pub open spec fn run_refused(
    available: bool,
    task_supported: bool,
    role_reviewed: bool,
    tier_allowed: bool,
) -> Option<Seq<char>> {
    if !available {
        Some("cloud job is completed, running, stale, or past its retry limit"@)
    } else if !task_supported {
        Some("cloud job task is unsupported"@)
    } else if !role_reviewed {
        Some("provider role is no longer a reviewed HTTPS cloud role"@)
    } else if !tier_allowed {
        Some("provider role no longer allows the staged derivative"@)
    } else {
        None
    }
}

pub fn run_refusal(
    available: bool,
    task_supported: bool,
    role_reviewed: bool,
    tier_allowed: bool,
) -> (r: Option<&'static str>)
    ensures
        match r {
            Some(m) => run_refused(available, task_supported, role_reviewed, tier_allowed)
                == Some(m@),
            None => run_refused(available, task_supported, role_reviewed, tier_allowed) is None,
        },
{
    if !available {
        Some("cloud job is completed, running, stale, or past its retry limit")
    } else if !task_supported {
        Some("cloud job task is unsupported")
    } else if !role_reviewed {
        Some("provider role is no longer a reviewed HTTPS cloud role")
    } else if !tier_allowed {
        Some("provider role no longer allows the staged derivative")
    } else {
        None
    }
}

/// One line of a failover account: `name: reason`.
pub open spec fn outcome_text(name: Seq<char>, reason: Seq<char>) -> Seq<char> {
    name + ": "@ + reason
}

pub fn outcome(name: &str, reason: &str) -> (r: String)
    ensures
        r@ == outcome_text(name@, reason@),
{
    let mut v = to_chars(name);
    append(&mut v, &to_chars(": "));
    append(&mut v, &to_chars(reason));
    to_string(&v)
}

/// Whether a failover candidate is passed over before any request. `None`:
/// it may be tried. `Some(None)`: its tier does not take the derivative, and
/// it is passed over without a word. `Some(Some(line))`: it is passed over
/// and the account says why: no credential, then no active billing, then an
/// input bound over its ceiling (a role without a ceiling takes none).
pub open spec fn skip_of(
    name: Seq<char>,
    tier_allowed: bool,
    credential_ready: bool,
    billing_active: bool,
    input_upper_bound: u32,
    max_input_tokens: Option<u32>,
) -> Option<Option<Seq<char>>> {
    if !tier_allowed {
        Some(None)
    } else if !credential_ready {
        Some(Some(outcome_text(name, "credential unavailable"@)))
    } else if !billing_active {
        Some(Some(outcome_text(name, "billing policy inactive"@)))
    } else if input_upper_bound > (match max_input_tokens {
        Some(m) => m,
        None => 0u32,
    }) {
        Some(Some(outcome_text(name, "input ceiling exceeded"@)))
    } else {
        None
    }
}

pub open spec fn skip_view(r: Option<Option<String>>) -> Option<Option<Seq<char>>> {
    match r {
        Some(Some(s)) => Some(Some(s@)),
        Some(None) => Some(None),
        None => None,
    }
}

pub fn failover_skip(
    name: &str,
    tier_allowed: bool,
    credential_ready: bool,
    billing_active: bool,
    input_upper_bound: u32,
    max_input_tokens: Option<u32>,
) -> (r: Option<Option<String>>)
    ensures
        skip_view(r) == skip_of(
            name@,
            tier_allowed,
            credential_ready,
            billing_active,
            input_upper_bound,
            max_input_tokens,
        ),
{
    let ceiling: u32 = match max_input_tokens {
        Some(m) => m,
        None => 0,
    };
    if !tier_allowed {
        Some(None)
    } else if !credential_ready {
        Some(Some(outcome(name, "credential unavailable")))
    } else if !billing_active {
        Some(Some(outcome(name, "billing policy inactive")))
    } else if input_upper_bound > ceiling {
        Some(Some(outcome(name, "input ceiling exceeded")))
    } else {
        None
    }
}

/// The error of a run that no candidate completed: `dispatch failed` once a
/// request was made, `provider policy blocked dispatch` when none was, then
/// the account of every candidate passed over or failed, in order, or that
/// there was none.
pub open spec fn dispatch_error_text(requested: bool, outcomes: Seq<Seq<char>>) -> Seq<char> {
    (if requested {
        "dispatch failed: "@
    } else {
        "provider policy blocked dispatch: "@
    }) + (if outcomes.len() == 0 {
        "no same-tier provider is configured"@
    } else {
        join(outcomes, "; "@)
    })
}

pub fn dispatch_error(requested: bool, outcomes: &Vec<String>) -> (r: String)
    ensures
        r@ == dispatch_error_text(requested, string_views(outcomes@)),
{
    let mut v = if requested {
        to_chars("dispatch failed: ")
    } else {
        to_chars("provider policy blocked dispatch: ")
    };
    if outcomes.len() == 0 {
        append(&mut v, &to_chars("no same-tier provider is configured"));
    } else {
        let mut parts: Vec<Vec<char>> = Vec::new();
        let mut i: usize = 0;
        while i < outcomes.len()
            invariant
                i <= outcomes@.len(),
                parts@.len() == i,
                forall|k: int| 0 <= k < i ==> (#[trigger] parts@[k])@ == outcomes@[k]@,
            decreases outcomes.len() - i,
        {
            parts.push(to_chars(outcomes[i].as_str()));
            i += 1;
        }
        assert(parts@.map_values(|p: Vec<char>| p@) =~= string_views(outcomes@));
        append(&mut v, &join_exec(&parts, &to_chars("; ")));
    }
    to_string(&v)
}


/// A run no candidate completed is answered by its cause: a bad gateway once
/// a provider was asked, a bad request when policy stopped every candidate
/// before any request; the account is handed back as it is.
pub proof fn a_failed_dispatch_is_answered_by_its_cause(requested: bool, outcomes: Seq<Seq<char>>)
    ensures
        run_status(dispatch_error_text(requested, outcomes)) == (
            if requested {
                502u16
            } else {
                400u16
            },
            dispatch_error_text(requested, outcomes),
        ),
{
    reveal_strlit("dispatch failed: ");
    reveal_strlit("dispatch failed:");
    reveal_strlit("provider policy blocked dispatch: ");
    reveal_strlit("provider policy blocked");
    reveal_strlit("provider role");
    let e = dispatch_error_text(requested, outcomes);
    if requested {
        let p = "dispatch failed: "@;
        assert(e.take(16) =~= "dispatch failed:"@) by {
            assert(e.take(16) =~= p.take(16));
        }
        assert(e[0] == 'd');
        assert(!starts_with(e, "provider role"@)) by {
            if starts_with(e, "provider role"@) {
                assert(e.take(13)[0] == "provider role"@[0]);
            }
        }
        assert(!starts_with(e, "provider policy blocked"@)) by {
            if starts_with(e, "provider policy blocked"@) {
                assert(e.take(23)[0] == "provider policy blocked"@[0]);
            }
        }
    } else {
        let p = "provider policy blocked dispatch: "@;
        assert(e.take(23) =~= "provider policy blocked"@) by {
            assert(e.take(23) =~= p.take(23));
        }
    }
}

} // verus!
