//! Decisions the mail side makes between calls to Gmail and the store.
//!
//! A stored action job names what to do and from where; the thread's
//! location, read back from Gmail, says what the local status truthfully
//! is. Failures are bucketed into classes that drive backoff and are safe to
//! display; the provider's own message is only ever logged.

use vstd::prelude::*;
use crate::store::GmailActionJob;
use crate::text::{
    ascii_lower, contains, contains_exec, starts_with, starts_with_exec, str_eq, string_views,
    to_ascii_lowercase, to_chars, to_string, trim, trim_exec,
};

verus! {

/// What Gmail is asked to do to a thread.
#[derive(Debug, Clone, Copy, PartialEq, Eq, Structural)]
pub enum ThreadAction {
    Archive,
    Trash,
    RestoreArchive,
    RestoreTrash,
}

/// Where a thread is in Gmail.
#[derive(Debug, Clone, Copy, PartialEq, Eq, Structural)]
pub enum ThreadLocation {
    Inbox,
    Archive,
    Trash,
}

pub open spec fn action_for(action: Seq<char>, source_status: Seq<char>) -> Option<ThreadAction> {
    if action == "archive"@ {
        Some(ThreadAction::Archive)
    } else if action == "trash"@ {
        Some(ThreadAction::Trash)
    } else if action == "restore"@ && source_status == "archived"@ {
        Some(ThreadAction::RestoreArchive)
    } else if action == "restore"@ && source_status == "trashed"@ {
        Some(ThreadAction::RestoreTrash)
    } else {
        None
    }
}

/// The Gmail call a stored job makes. A restore needs to know where it
/// restores from.
pub fn thread_action_for_job(job: &GmailActionJob) -> (r: Result<ThreadAction, String>)
    ensures
        match action_for(job.action@, job.source_status@) {
            Some(a) => r == Ok::<ThreadAction, String>(a),
            None => r is Err && r->Err_0@ == "stored Gmail action has an invalid source state"@,
        },
{
    let action = job.action.as_str();
    if str_eq(action, "archive") {
        Ok(ThreadAction::Archive)
    } else if str_eq(action, "trash") {
        Ok(ThreadAction::Trash)
    } else if str_eq(action, "restore") && str_eq(job.source_status.as_str(), "archived") {
        Ok(ThreadAction::RestoreArchive)
    } else if str_eq(action, "restore") && str_eq(job.source_status.as_str(), "trashed") {
        Ok(ThreadAction::RestoreTrash)
    } else {
        Err(to_string(&to_chars("stored Gmail action has an invalid source state")))
    }
}

pub open spec fn location_for(action: Seq<char>) -> Option<ThreadLocation> {
    if action == "archive"@ {
        Some(ThreadLocation::Archive)
    } else if action == "trash"@ {
        Some(ThreadLocation::Trash)
    } else if action == "restore"@ {
        Some(ThreadLocation::Inbox)
    } else {
        None
    }
}

/// Where a stored job leaves the thread.
pub fn target_location(job: &GmailActionJob) -> (r: Result<ThreadLocation, String>)
    ensures
        match location_for(job.action@) {
            Some(l) => r == Ok::<ThreadLocation, String>(l),
            None => r is Err && r->Err_0@ == "stored Gmail action is invalid"@,
        },
{
    let action = job.action.as_str();
    if str_eq(action, "archive") {
        Ok(ThreadLocation::Archive)
    } else if str_eq(action, "trash") {
        Ok(ThreadLocation::Trash)
    } else if str_eq(action, "restore") {
        Ok(ThreadLocation::Inbox)
    } else {
        Err(to_string(&to_chars("stored Gmail action is invalid")))
    }
}

/// The local status a thread's Gmail location makes true. A thread back in
/// the inbox after being archived, trashed or executed is a proposal again;
/// otherwise the inbox keeps the human's status.
pub open spec fn reconciled(current: Seq<char>, location: ThreadLocation) -> Seq<char> {
    match location {
        ThreadLocation::Trash => "trashed"@,
        ThreadLocation::Archive => "archived"@,
        ThreadLocation::Inbox => if current == "archived"@ || current == "trashed"@ || current
            == "executed"@ {
            "proposed"@
        } else {
            current
        },
    }
}

pub fn reconciled_status<'a>(current: &'a str, location: ThreadLocation) -> (r: &'a str)
    ensures
        r@ == reconciled(current@, location),
{
    match location {
        ThreadLocation::Trash => "trashed",
        ThreadLocation::Archive => "archived",
        ThreadLocation::Inbox => {
            if str_eq(current, "archived") || str_eq(current, "trashed") || str_eq(
                current,
                "executed",
            ) {
                "proposed"
            } else {
                current
            }
        },
    }
}

/// Reconciling is idempotent: a status already reconciled with a location
/// stays as it is when the same location is read again.
pub proof fn reconciling_twice_changes_nothing(current: Seq<char>, location: ThreadLocation)
    ensures
        reconciled(reconciled(current, location), location) == reconciled(current, location),
{
    reveal_strlit("proposed");
    reveal_strlit("archived");
    reveal_strlit("trashed");
    reveal_strlit("executed");
}

/// Which bucket a failure falls in: `auth`, `quota`, `network` or `unknown`.
pub open spec fn error_class(error: Seq<char>) -> Seq<char> {
    let low = ascii_lower(error);
    if contains(low, "401"@) || contains(low, "403"@) || contains(low, "auth"@) {
        "auth"@
    } else if contains(low, "429"@) || contains(low, "quota"@) || contains(low, "rate"@) {
        "quota"@
    } else if contains(low, "timeout"@) || contains(low, "connect"@) || contains(low, "dns"@) {
        "network"@
    } else {
        "unknown"@
    }
}

fn has(low: &Vec<char>, needle: &str) -> (r: bool)
    ensures
        r == contains(low@, needle@),
{
    contains_exec(low, &to_chars(needle))
}

/// The class of a sweep failure, for the stored state and the backoff.
pub fn sweep_error_class(error: &str) -> (r: &'static str)
    ensures
        r@ == error_class(error@),
{
    let low = to_ascii_lowercase(&to_chars(error));
    if has(&low, "401") || has(&low, "403") || has(&low, "auth") {
        "auth"
    } else if has(&low, "429") || has(&low, "quota") || has(&low, "rate") {
        "quota"
    } else if has(&low, "timeout") || has(&low, "connect") || has(&low, "dns") {
        "network"
    } else {
        "unknown"
    }
}

/// A model endpoint on this machine: loopback by address or by name, over
/// HTTP or HTTPS, with an explicit port.
pub open spec fn is_loopback_url(value: Seq<char>) -> bool {
    let v = ascii_lower(trim(value));
    starts_with(v, "http://127.0.0.1:"@) || starts_with(v, "https://127.0.0.1:"@) || starts_with(
        v,
        "http://localhost:"@,
    ) || starts_with(v, "https://localhost:"@) || starts_with(v, "http://[::1]:"@) || starts_with(
        v,
        "https://[::1]:"@,
    )
}

fn begins(v: &Vec<char>, prefix: &str) -> (r: bool)
    ensures
        r == starts_with(v@, prefix@),
{
    starts_with_exec(v, &to_chars(prefix))
}

/// Whether mail relevance may send text to this endpoint.
pub fn loopback_inference_url(value: &str) -> (r: bool)
    ensures
        r == is_loopback_url(value@),
{
    let v = to_ascii_lowercase(&trim_exec(&to_chars(value)));
    begins(&v, "http://127.0.0.1:") || begins(&v, "https://127.0.0.1:") || begins(
        &v,
        "http://localhost:",
    ) || begins(&v, "https://localhost:") || begins(&v, "http://[::1]:") || begins(
        &v,
        "https://[::1]:",
    )
}

/// What executing one stored job came to.
#[derive(Debug, Clone, Copy, PartialEq, Eq, Structural)]
pub enum JobOutcome {
    /// Gmail confirmed the target location; `changed` when a call was made.
    Confirmed { changed: bool },
    /// The thread no longer exists in Gmail.
    Missing,
    /// The job failed and stays queued for retry.
    Failed,
}

/// What a reconcile read of one thread came to.
#[derive(Debug, Clone, Copy, PartialEq, Eq, Structural)]
pub enum Observation {
    Located(ThreadLocation),
    Missing,
    Unreadable,
}

/// Counts from one maintenance pass: pending jobs retried, then a bounded
/// set of threads reconciled with Gmail.
#[derive(Debug, Clone, Copy, PartialEq, Eq, Structural)]
pub struct MaintenanceCounts {
    pub retried: usize,
    pub recovered: usize,
    pub retry_failures: usize,
    pub reconciled: usize,
    pub changed: usize,
    pub read_failures: usize,
    pub missing: usize,
    pub content_fetched: bool,
}

impl MaintenanceCounts {
    /// The counts before any job ran: `jobs` are about to be retried.
    pub fn start(jobs: usize) -> (r: Self)
        ensures
            r == (MaintenanceCounts {
                retried: jobs,
                recovered: 0,
                retry_failures: 0,
                reconciled: 0,
                changed: 0,
                read_failures: 0,
                missing: 0,
                content_fetched: false,
            }),
    {
        MaintenanceCounts {
            retried: jobs,
            recovered: 0,
            retry_failures: 0,
            reconciled: 0,
            changed: 0,
            read_failures: 0,
            missing: 0,
            content_fetched: false,
        }
    }

    /// Count one retried job.
    pub fn record_job(&mut self, outcome: JobOutcome)
        requires
            old(self).recovered < usize::MAX,
            old(self).missing < usize::MAX,
            old(self).retry_failures < usize::MAX,
        ensures
            final(self).retried == old(self).retried,
            final(self).reconciled == old(self).reconciled,
            final(self).changed == old(self).changed,
            final(self).read_failures == old(self).read_failures,
            final(self).content_fetched == old(self).content_fetched,
            final(self).recovered == old(self).recovered + if outcome is Confirmed { 1int } else { 0 },
            final(self).missing == old(self).missing + if outcome is Missing { 1int } else { 0 },
            final(self).retry_failures == old(self).retry_failures + if outcome is Failed { 1int } else { 0 },
    {
        match outcome {
            JobOutcome::Confirmed { .. } => self.recovered = self.recovered + 1,
            JobOutcome::Missing => self.missing = self.missing + 1,
            JobOutcome::Failed => self.retry_failures = self.retry_failures + 1,
        }
    }

    /// Count one reconcile read of a thread whose local status is `status`.
    pub fn record_observation(&mut self, status: &str, observed: Observation)
        requires
            old(self).reconciled < usize::MAX,
            old(self).changed < usize::MAX,
            old(self).missing < usize::MAX,
            old(self).read_failures < usize::MAX,
        ensures
            final(self).retried == old(self).retried,
            final(self).recovered == old(self).recovered,
            final(self).retry_failures == old(self).retry_failures,
            final(self).content_fetched == old(self).content_fetched,
            final(self).reconciled == old(self).reconciled + if observed is Unreadable { 0int } else { 1 },
            final(self).read_failures == old(self).read_failures + if observed is Unreadable { 1int } else { 0 },
            final(self).missing == old(self).missing + if observed is Missing { 1int } else { 0 },
            final(self).changed == old(self).changed + match observed {
                Observation::Located(l) => if reconciled(status@, l) != status@ { 1int } else { 0 },
                Observation::Missing => if status@ != "missing"@ { 1int } else { 0 },
                Observation::Unreadable => 0,
            },
    {
        match observed {
            Observation::Located(l) => {
                let next = reconciled_status(status, l);
                if !str_eq(next, status) {
                    self.changed = self.changed + 1;
                }
                self.reconciled = self.reconciled + 1;
            },
            Observation::Missing => {
                self.reconciled = self.reconciled + 1;
                if !str_eq(status, "missing") {
                    self.changed = self.changed + 1;
                }
                self.missing = self.missing + 1;
            },
            Observation::Unreadable => self.read_failures = self.read_failures + 1,
        }
    }
}

/// Counts from one sweep pass. No field carries mail content.
#[derive(Debug, Clone, Copy, PartialEq, Eq, Structural)]
pub struct SweepCounts {
    pub fetched: usize,
    pub new_count: usize,
    pub skipped: usize,
    pub redacted: usize,
}

impl SweepCounts {
    pub fn new() -> (r: Self)
        ensures
            r == (SweepCounts { fetched: 0, new_count: 0, skipped: 0, redacted: 0 }),
    {
        SweepCounts { fetched: 0, new_count: 0, skipped: 0, redacted: 0 }
    }

    /// A thread whose metadata could not be read is skipped.
    pub fn record_skipped(&mut self)
        requires
            old(self).skipped < usize::MAX,
        ensures
            *final(self) == (SweepCounts { skipped: (old(self).skipped + 1) as usize, ..*old(self) }),
    {
        self.skipped = self.skipped + 1;
    }

    /// A thread that was read and stored: `redactions` applied to it, and
    /// whether the store saw it for the first time.
    pub fn record_stored(&mut self, redactions: usize, inserted: bool)
        requires
            old(self).fetched < usize::MAX,
            old(self).new_count < usize::MAX,
            old(self).redacted < usize::MAX,
        ensures
            final(self).fetched == old(self).fetched + 1,
            final(self).skipped == old(self).skipped,
            final(self).new_count == old(self).new_count + if inserted { 1int } else { 0 },
            final(self).redacted == old(self).redacted + if redactions > 0 { 1int } else { 0 },
    {
        if redactions > 0 {
            self.redacted = self.redacted + 1;
        }
        if inserted {
            self.new_count = self.new_count + 1;
        }
        self.fetched = self.fetched + 1;
    }
}

/// The page size a manual sweep asks for: 100 when unset, within 1..=100.
pub fn sweep_limit(limit: Option<usize>) -> (r: usize)
    ensures
        r == match limit {
            None => 100,
            Some(l) => if l < 1 { 1 } else if l > 100 { 100 } else { l },
        },
{
    match limit {
        None => 100,
        Some(l) => if l < 1 {
            1
        } else if l > 100 {
            100
        } else {
            l
        },
    }
}

/// A cursor is carried only when it says something.
pub fn sweep_cursor(cursor: Option<String>) -> (r: Option<String>)
    ensures
        match cursor {
            Some(c) => if trim(c@).len() == 0 { r is None } else { r == Some(c) },
            None => r is None,
        },
{
    match cursor {
        Some(c) => {
            if trim_exec(&to_chars(c.as_str())).len() == 0 {
                None
            } else {
                Some(c)
            }
        },
        None => None,
    }
}

/// The actions a bulk request may name.
pub open spec fn bulk_action(action: Seq<char>) -> bool {
    action == "dismiss"@ || action == "categorize"@ || action == "set-data-class"@ || action
        == "archive"@ || action == "trash"@ || action == "waiting"@ || action == "clear-waiting"@
}

/// The first occurrence of each id, in order.
pub open spec fn first_occurrences(ids: Seq<Seq<char>>) -> Seq<Seq<char>>
    decreases ids.len(),
{
    if ids.len() == 0 {
        seq![]
    } else {
        let rest = first_occurrences(ids.drop_last());
        if ids.drop_last().contains(ids.last()) {
            rest
        } else {
            rest.push(ids.last())
        }
    }
}

/// Whether a class name is one of `classes`.
pub open spec fn class_known(classes: Seq<Seq<char>>, class: Option<Seq<char>>) -> bool {
    match class {
        Some(c) => classes.contains(c),
        None => false,
    }
}

pub open spec fn opt_string(o: Option<String>) -> Option<Seq<char>> {
    match o {
        Some(s) => Some(s@),
        None => None,
    }
}

/// The refusal a bulk request gets before anything is touched, if any:
/// between 1 and 100 ids, a known action, a stream for `categorize`, and one
/// of `classes` for `set-data-class`.
pub open spec fn bulk_refusal(
    id_count: nat,
    action: Seq<char>,
    stream: Option<Seq<char>>,
    data_class: Option<Seq<char>>,
    classes: Seq<Seq<char>>,
) -> Option<Seq<char>> {
    if id_count == 0 || id_count > 100 {
        Some("select between 1 and 100 proposals"@)
    } else if !bulk_action(action) {
        Some("action must be dismiss, categorize, set-data-class, archive, trash, waiting, or clear-waiting"@)
    } else if action == "categorize"@ && stream is None {
        Some("categorize requires a stream"@)
    } else if action == "set-data-class"@ && !class_known(classes, data_class) {
        Some("set-data-class requires one of: "@ + crate::text::join(classes, ", "@))
    } else {
        None
    }
}

/// Check a bulk request and keep the first occurrence of each id.
pub fn bulk_request(
    ids: &Vec<String>,
    action: &str,
    stream: &Option<String>,
    data_class: &Option<String>,
    classes: &Vec<String>,
) -> (r: Result<Vec<String>, String>)
    ensures
        match bulk_refusal(ids@.len(), action@, opt_string(*stream), opt_string(*data_class), string_views(classes@)) {
            Some(message) => r is Err && r->Err_0@ == message,
            None => r is Ok && string_views(r->Ok_0@) == first_occurrences(string_views(ids@)),
        },
{
    if ids.len() == 0 || ids.len() > 100 {
        return Err(to_string(&to_chars("select between 1 and 100 proposals")));
    }
    if !(str_eq(action, "dismiss") || str_eq(action, "categorize") || str_eq(action, "set-data-class")
        || str_eq(action, "archive") || str_eq(action, "trash") || str_eq(action, "waiting")
        || str_eq(action, "clear-waiting")) {
        return Err(
            to_string(
                &to_chars(
                    "action must be dismiss, categorize, set-data-class, archive, trash, waiting, or clear-waiting",
                ),
            ),
        );
    }
    if str_eq(action, "categorize") && stream.is_none() {
        return Err(to_string(&to_chars("categorize requires a stream")));
    }
    if str_eq(action, "set-data-class") {
        let known = match data_class {
            Some(c) => contains_string(classes, c.as_str()),
            None => false,
        };
        if !known {
            let mut parts: Vec<Vec<char>> = Vec::new();
            let mut k: usize = 0;
            while k < classes.len()
                invariant
                    k <= classes@.len(),
                    parts@.map_values(|v: Vec<char>| v@) == string_views(classes@).take(k as int),
                decreases classes.len() - k,
            {
                parts.push(to_chars(classes[k].as_str()));
                assert(string_views(classes@).take(k + 1) =~= string_views(classes@).take(k as int).push(classes@[k as int]@));
                k += 1;
            }
            assert(string_views(classes@).take(classes@.len() as int) =~= string_views(classes@));
            let mut msg = to_chars("set-data-class requires one of: ");
            crate::text::append(&mut msg, &crate::text::join_exec(&parts, &to_chars(", ")));
            return Err(to_string(&msg));
        }
    }
    let ghost all = string_views(ids@);
    let mut out: Vec<String> = Vec::new();
    let mut i: usize = 0;
    assert(all.take(0) =~= Seq::<Seq<char>>::empty());
    while i < ids.len()
        invariant
            i <= ids@.len(),
            all == string_views(ids@),
            string_views(out@) == first_occurrences(all.take(i as int)),
            forall|n: Seq<char>| #[trigger] string_views(out@).contains(n) <==> all.take(i as int).contains(n),
        decreases ids.len() - i,
    {
        let ghost prev = all.take(i as int);
        let ghost before = string_views(out@);
        let ghost nxt = all.take(i + 1);
        assert(nxt.drop_last() =~= prev);
        assert(nxt.last() == ids@[i as int]@);
        let seen = contains_string(&out, ids[i].as_str());
        if !seen {
            out.push(to_string(&to_chars(ids[i].as_str())));
            assert(string_views(out@) =~= before.push(ids@[i as int]@));
            assert forall|n: Seq<char>| #[trigger] string_views(out@).contains(n) <==> nxt.contains(n) by {
                if nxt.contains(n) {
                    let k = choose|k: int| 0 <= k < nxt.len() && nxt[k] == n;
                    if k < i {
                        assert(prev[k] == n);
                        assert(prev.contains(n));
                        assert(before.contains(n));
                        let m = choose|m: int| 0 <= m < before.len() && before[m] == n;
                        assert(string_views(out@)[m] == n);
                    } else {
                        assert(string_views(out@)[before.len() as int] == n);
                    }
                }
                if string_views(out@).contains(n) {
                    let k = choose|k: int| 0 <= k < string_views(out@).len() && string_views(out@)[k] == n;
                    if k < before.len() {
                        assert(before[k] == n);
                        assert(before.contains(n));
                        let m = choose|m: int| 0 <= m < prev.len() && prev[m] == n;
                        assert(nxt[m] == n);
                    } else {
                        assert(nxt[i as int] == n);
                    }
                }
            }
        } else {
            assert forall|n: Seq<char>| #[trigger] string_views(out@).contains(n) <==> nxt.contains(n) by {
                if nxt.contains(n) {
                    let k = choose|k: int| 0 <= k < nxt.len() && nxt[k] == n;
                    if k < i {
                        assert(prev[k] == n);
                        assert(prev.contains(n));
                    }
                }
                if prev.contains(n) {
                    let m = choose|m: int| 0 <= m < prev.len() && prev[m] == n;
                    assert(nxt[m] == n);
                }
            }
        }
        i += 1;
    }
    assert(all.take(ids@.len() as int) =~= all);
    Ok(out)
}

fn contains_string(v: &Vec<String>, s: &str) -> (r: bool)
    ensures
        r == string_views(v@).contains(s@),
{
    let mut k: usize = 0;
    while k < v.len()
        invariant
            k <= v@.len(),
            forall|m: int| 0 <= m < k ==> (#[trigger] v@[m])@ != s@,
        decreases v.len() - k,
    {
        if str_eq(v[k].as_str(), s) {
            assert(string_views(v@)[k as int] == s@);
            return true;
        }
        k += 1;
    }
    proof {
        if string_views(v@).contains(s@) {
            let m = choose|m: int| 0 <= m < string_views(v@).len() && string_views(v@)[m] == s@;
            assert(v@[m]@ == s@);
        }
    }
    false
}

/// A requested page size: `default` when unset, else clamped into
/// `lo..=hi`.
pub fn limit_within(limit: Option<usize>, default: usize, lo: usize, hi: usize) -> (r: usize)
    requires
        lo <= hi,
    ensures
        r == match limit {
            None => default,
            Some(l) => if l < lo { lo } else if l > hi { hi } else { l },
        },
{
    match limit {
        None => default,
        Some(l) => if l < lo {
            lo
        } else if l > hi {
            hi
        } else {
            l
        },
    }
}

/// The statuses a person may set directly; Gmail lifecycle states go
/// through the Gmail action instead.
pub fn triage_status_request(status: &str) -> (r: Result<(), String>)
    ensures
        (status@ == "proposed"@ || status@ == "approved"@ || status@ == "dismissed"@) <==> r is Ok,
        r matches Err(e) ==> e@
            == "status must be proposed, approved, or dismissed; Gmail lifecycle states require the Gmail action endpoint"@,
{
    if str_eq(status, "proposed") || str_eq(status, "approved") || str_eq(status, "dismissed") {
        Ok(())
    } else {
        Err(
            to_string(
                &to_chars(
                    "status must be proposed, approved, or dismissed; Gmail lifecycle states require the Gmail action endpoint",
                ),
            ),
        )
    }
}

/// The Gmail actions a person may ask for.
pub fn gmail_action_request(action: &str) -> (r: Result<(), String>)
    ensures
        (action@ == "archive"@ || action@ == "trash"@ || action@ == "restore"@) <==> r is Ok,
        r matches Err(e) ==> e@ == "action must be archive, trash, or restore"@,
{
    if str_eq(action, "archive") || str_eq(action, "trash") || str_eq(action, "restore") {
        Ok(())
    } else {
        Err(to_string(&to_chars("action must be archive, trash, or restore")))
    }
}

/// What a person may decide about an abandoned Gmail action.
pub fn gmail_job_decision(decision: &str) -> (r: Result<(), String>)
    ensures
        (decision@ == "retry"@ || decision@ == "cancel"@) <==> r is Ok,
        r matches Err(e) ==> e@ == "decision must be retry or cancel"@,
{
    if str_eq(decision, "retry") || str_eq(decision, "cancel") {
        Ok(())
    } else {
        Err(to_string(&to_chars("decision must be retry or cancel")))
    }
}

/// How a refused queueing is answered: a missing proposal is not found,
/// anything else conflicts with the proposal's state.
pub fn queue_refusal_status(message: &str) -> (r: u16)
    ensures
        r == if message@ == "mail proposal not found"@ { 404u16 } else { 409u16 },
{
    if str_eq(message, "mail proposal not found") {
        404
    } else {
        409
    }
}

/// A failed execution as the caller reads it: the job stays queued.
pub fn retry_message(error: &str) -> (r: String)
    ensures
        r@ == error@ + "; the action remains queued for bounded retry"@,
{
    let mut m = to_chars(error);
    crate::text::append(&mut m, &to_chars("; the action remains queued for bounded retry"));
    to_string(&m)
}

/// Whether executing a job needs a call to Gmail: only when the thread is
/// not already where the job leaves it. Reading the location first is what
/// makes a replay safe after Gmail succeeded but the local commit did not.
pub fn needs_gmail_call(current: ThreadLocation, job: &GmailActionJob) -> (r: Result<bool, String>)
    ensures
        match location_for(job.action@) {
            Some(l) => r == Ok::<bool, String>(current != l),
            None => r is Err && r->Err_0@ == "stored Gmail action is invalid"@,
        },
{
    let target = target_location(job)?;
    Ok(current != target)
}

} // verus!
