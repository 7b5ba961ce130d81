//! Pure, deterministic, config-driven mail classifier. Given the headers of a
//! mail thread, it assigns exactly one stream and a one-sentence English
//! rationale.
//!
//! Order: config rules (first match wins), then built-in heuristics, then the
//! conservative default (`aktiv`).

use vstd::prelude::*;
use crate::text::{
    append, contains, contains_exec, join, join_exec, lower_exec, lowercase, to_chars, to_string,
};

verus! {

/// A config rule. All match conditions present must hold; absent conditions
/// are ignored; a rule with an entirely empty match spec never fires.
pub struct Rule {
    pub matches: MatchSpec,
    pub stream: String,
    pub note: String,
}

pub struct MatchSpec {
    /// Any of these substrings present (case-insensitive) in the From header.
    pub from_contains: Option<Vec<String>>,
    /// Any of these substrings present (case-insensitive) in the Subject.
    pub subject_contains: Option<Vec<String>>,
    /// Require the List-Unsubscribe header present (true) or absent (false).
    pub has_list_unsubscribe: Option<bool>,
}

impl Default for MatchSpec {
    fn default() -> (r: Self)
        ensures
            r.from_contains is None,
            r.subject_contains is None,
            r.has_list_unsubscribe is None,
    {
        MatchSpec { from_contains: None, subject_contains: None, has_list_unsubscribe: None }
    }
}

/// The header facts a single thread's classification depends on.
#[derive(Clone, Copy)]
pub struct MailFacts<'a> {
    pub from: &'a str,
    pub subject: &'a str,
    pub has_list_unsubscribe: bool,
}

/// The seven ratified triage streams.
pub const STREAMS: [&'static str; 7] = ["aktiv", "issue", "feed", "werbung", "belege", "steuern", "sonstiges"];

/// The classifier version every deterministic mail row carries.
pub const MAIL_RULES_VERSION: &'static str = "mail-rules-v1";

/// One English line per stream, in [`STREAMS`] order.
pub const STREAM_DEFINITIONS: [(&'static str, &'static str); 7] = [
    (
        "aktiv",
        "A real message from a person or a service that still concerns the reader, with nothing specific asked of them yet.",
    ),
    (
        "issue",
        "The message asks the reader to do something: answer a question, confirm, pay, appear, or decide by a date.",
    ),
    (
        "feed",
        "A newsletter, digest or release announcement the reader subscribed to. Reading material, never an obligation.",
    ),
    (
        "werbung",
        "Advertising, a promotion, a discount or a sales approach the reader did not ask for.",
    ),
    ("belege", "A receipt, an invoice, an order confirmation or a payment record worth keeping."),
    (
        "steuern",
        "Tax material: an assessment, a tax office letter, or a document filed with a tax return.",
    ),
    ("sonstiges", "None of the six above. A notification with nothing to do and nothing to keep."),
];

/// Which rung of the deterministic ladder decided a thread.
#[derive(Debug, Clone, Copy, PartialEq, Eq, Structural)]
pub enum DecidedBy {
    /// A rule from the overlay's rules list fired.
    ConfigRule,
    /// One of the four built-in heuristics fired.
    Heuristic,
    /// Nothing fired and the conservative `aktiv` default was kept.
    Fallback,
}

/// The stored form of each rung.
pub open spec fn decided_by_text(d: DecidedBy) -> Seq<char> {
    match d {
        DecidedBy::ConfigRule => "config_rule"@,
        DecidedBy::Heuristic => "heuristic"@,
        DecidedBy::Fallback => "fallback"@,
    }
}

/// The rung a stored form names, if any.
pub open spec fn decided_by_from_text(s: Seq<char>) -> Option<DecidedBy> {
    if s == "config_rule"@ {
        Some(DecidedBy::ConfigRule)
    } else if s == "heuristic"@ {
        Some(DecidedBy::Heuristic)
    } else if s == "fallback"@ {
        Some(DecidedBy::Fallback)
    } else {
        None
    }
}

impl DecidedBy {
    pub fn as_str(self) -> (r: &'static str)
        ensures
            r@ == decided_by_text(self),
    {
        match self {
            DecidedBy::ConfigRule => "config_rule",
            DecidedBy::Heuristic => "heuristic",
            DecidedBy::Fallback => "fallback",
        }
    }

    /// Read a stored form back; anything else is refused with a message
    /// naming the value.
    pub fn parse(value: &str) -> (r: Result<DecidedBy, String>)
        ensures
            match decided_by_from_text(value@) {
                Some(d) => r == Ok::<DecidedBy, String>(d),
                None => r matches Err(m) && m@ == "unknown decided_by '"@ + value@ + "'"@,
            },
    {
        let v = to_chars(value);
        if crate::text::chars_eq(&v, &to_chars("config_rule")) {
            Ok(DecidedBy::ConfigRule)
        } else if crate::text::chars_eq(&v, &to_chars("heuristic")) {
            Ok(DecidedBy::Heuristic)
        } else if crate::text::chars_eq(&v, &to_chars("fallback")) {
            Ok(DecidedBy::Fallback)
        } else {
            let mut m = to_chars("unknown decided_by '");
            append(&mut m, &v);
            append(&mut m, &to_chars("'"));
            Err(to_string(&m))
        }
    }
}

impl std::str::FromStr for DecidedBy {
    type Err = String;

    /// Read a stored form back, as [`DecidedBy::parse`] does.
    fn from_str(value: &str) -> (r: Result<Self, Self::Err>)
        ensures
            match decided_by_from_text(value@) {
                Some(d) => r == Ok::<DecidedBy, String>(d),
                None => r matches Err(m) && m@ == "unknown decided_by '"@ + value@ + "'"@,
            },
    {
        DecidedBy::parse(value)
    }
}

/// Reading back the stored form of any rung gives that rung.
pub proof fn decided_by_round_trips(d: DecidedBy)
    ensures
        decided_by_from_text(decided_by_text(d)) == Some(d),
{
    reveal_strlit("config_rule");
    reveal_strlit("heuristic");
    reveal_strlit("fallback");
    assert("config_rule"@.len() == 11);
    assert("heuristic"@.len() == 9);
    assert("fallback"@.len() == 8);
}

/// What the deterministic classifier decided, and which rung decided it.
pub struct Verdict {
    pub stream: String,
    pub rationale: String,
    pub decided_by: DecidedBy,
}

impl Verdict {
    pub open spec fn view(&self) -> (Seq<char>, Seq<char>, DecidedBy) {
        (self.stream@, self.rationale@, self.decided_by)
    }
}

pub open spec fn shopping_keyword(k: int) -> Seq<char> {
    if k == 0 { "sale"@ } else if k == 1 { "rabatt"@ } else if k == 2 { "%"@ } else if k == 3 {
        "deal"@ } else if k == 4 { "shop"@ } else { "angebot"@ }
}

pub open spec fn tech_keyword(k: int) -> Seq<char> {
    if k == 0 { "release"@ } else if k == 1 { "changelog"@ } else if k == 2 { "engineering"@ }
    else if k == 3 { "ai"@ } else if k == 4 { "newsletter"@ } else { "digest"@ }
}

pub open spec fn receipt_keyword(k: int) -> Seq<char> {
    if k == 0 { "rechnung"@ } else if k == 1 { "receipt"@ } else if k == 2 { "invoice"@ }
    else if k == 3 { "zahlung"@ } else if k == 4 { "payment"@ } else { "beleg"@ }
}

/// Case-insensitive containment: both sides lowered.
pub open spec fn contains_ci(haystack: Seq<char>, needle: Seq<char>) -> bool {
    contains(lowercase(haystack), lowercase(needle))
}

pub open spec fn strings(v: Seq<String>) -> Seq<Seq<char>> {
    v.map_values(|s: String| s@)
}

/// Any of the configured needles occurs, case-insensitively.
pub open spec fn any_contains(haystack: Seq<char>, needles: Seq<Seq<char>>) -> bool {
    exists|i: int| 0 <= i < needles.len() && contains_ci(haystack, #[trigger] needles[i])
}

/// Which list of built-in keywords (0 shopping, 1 technology, 2 receipt).
pub open spec fn keyword(list: int, k: int) -> Seq<char> {
    if list == 0 {
        shopping_keyword(k)
    } else if list == 1 {
        tech_keyword(k)
    } else {
        receipt_keyword(k)
    }
}

/// Any built-in keyword of a list occurs in the lowered haystack.
pub open spec fn any_keyword(haystack: Seq<char>, list: int) -> bool {
    exists|k: int| 0 <= k < 6 && contains(lowercase(haystack), #[trigger] keyword(list, k))
}

/// Does a config rule fire, and with which matched-condition description.
pub open spec fn eval_rule(m: &MatchSpec, from: Seq<char>, subject: Seq<char>, lu: bool) -> Option<
    Seq<char>,
> {
    let from_ok = match &m.from_contains {
        Some(subs) => any_contains(from, strings(subs@)),
        None => true,
    };
    let subject_ok = match &m.subject_contains {
        Some(subs) => any_contains(subject, strings(subs@)),
        None => true,
    };
    let lu_ok = match m.has_list_unsubscribe {
        Some(want) => lu == want,
        None => true,
    };
    let parts = (if m.from_contains is Some {
        seq!["sender"@]
    } else {
        seq![]
    }) + (if m.subject_contains is Some {
        seq!["subject"@]
    } else {
        seq![]
    }) + (match m.has_list_unsubscribe {
        Some(want) => if want {
            seq!["List-Unsubscribe present"@]
        } else {
            seq!["no List-Unsubscribe"@]
        },
        None => seq![],
    });
    if !(from_ok && subject_ok && lu_ok) || parts.len() == 0 {
        None
    } else {
        Some(join(parts, " + "@))
    }
}

/// The first config rule that fires, at or after index `i`.
pub open spec fn first_config(rules: Seq<Rule>, from: Seq<char>, subject: Seq<char>, lu: bool, i: int) -> Option<
    (int, Seq<char>),
>
    decreases rules.len() - i,
{
    if i < 0 || i >= rules.len() {
        None
    } else {
        match eval_rule(&rules[i].matches, from, subject, lu) {
            Some(cond) => Some((i, cond)),
            None => first_config(rules, from, subject, lu, i + 1),
        }
    }
}

/// The verdict for a thread: the first firing config rule, else the
/// built-in heuristics in order, else the conservative default.
pub open spec fn classification(f: MailFacts, rules: Seq<Rule>) -> (Seq<char>, Seq<char>, DecidedBy) {
    let from = f.from@;
    let subject = f.subject@;
    let lu = f.has_list_unsubscribe;
    match first_config(rules, from, subject, lu, 0) {
        Some(hit) => (
            rules[hit.0].stream@,
            rules[hit.0].note@ + " ("@ + hit.1 + ")"@,
            DecidedBy::ConfigRule,
        ),
        None => if lu && any_keyword(subject, 0) {
            (
                "werbung"@,
                "List-Unsubscribe plus a shopping signal in the subject; classified as advertising."@,
                DecidedBy::Heuristic,
            )
        } else if lu && any_keyword(subject, 1) {
            (
                "feed"@,
                "List-Unsubscribe plus a development or technology signal in the subject; classified as a Feed newsletter."@,
                DecidedBy::Heuristic,
            )
        } else if (contains_ci(from, "noreply"@) || contains_ci(from, "no-reply"@)) && any_keyword(
            subject,
            2,
        ) {
            (
                "belege"@,
                "A no-reply sender plus a receipt or invoice signal in the subject; classified as a receipt."@,
                DecidedBy::Heuristic,
            )
        } else if lu {
            (
                "sonstiges"@,
                "List-Unsubscribe is present, but no specific rule matched; classified as other."@,
                DecidedBy::Heuristic,
            )
        } else {
            (
                "aktiv"@,
                "No rule matched; kept active as the conservative default."@,
                DecidedBy::Fallback,
            )
        },
    }
}

fn contains_ci_exec(haystack: &str, needle: &str) -> (r: bool)
    ensures
        r == contains_ci(haystack@, needle@),
{
    contains_exec(&lower_exec(&to_chars(haystack)), &lower_exec(&to_chars(needle)))
}

fn any_contains_exec(haystack: &str, needles: &Vec<String>) -> (r: bool)
    ensures
        r == any_contains(haystack@, strings(needles@)),
{
    let mut i: usize = 0;
    while i < needles.len()
        invariant
            i <= needles.len(),
            forall|j: int| 0 <= j < i ==> !contains_ci(haystack@, (#[trigger] needles@[j])@),
        decreases needles.len() - i,
    {
        if contains_ci_exec(haystack, needles[i].as_str()) {
            assert(strings(needles@)[i as int] == needles@[i as int]@);
            return true;
        }
        i += 1;
    }
    proof {
        assert forall|j: int| 0 <= j < strings(needles@).len() implies !contains_ci(
            haystack@,
            #[trigger] strings(needles@)[j],
        ) by {
            assert(strings(needles@)[j] == needles@[j]@);
        }
    }
    false
}

fn keyword_exec(list: usize, k: usize) -> (r: &'static str)
    requires
        list < 3,
        k < 6,
    ensures
        r@ == keyword(list as int, k as int),
{
    if list == 0 {
        if k == 0 { "sale" } else if k == 1 { "rabatt" } else if k == 2 { "%" } else if k == 3 {
            "deal" } else if k == 4 { "shop" } else { "angebot" }
    } else if list == 1 {
        if k == 0 { "release" } else if k == 1 { "changelog" } else if k == 2 { "engineering" }
        else if k == 3 { "ai" } else if k == 4 { "newsletter" } else { "digest" }
    } else {
        if k == 0 { "rechnung" } else if k == 1 { "receipt" } else if k == 2 { "invoice" }
        else if k == 3 { "zahlung" } else if k == 4 { "payment" } else { "beleg" }
    }
}

fn any_keyword_exec(haystack: &str, list: usize) -> (r: bool)
    requires
        list < 3,
    ensures
        r == any_keyword(haystack@, list as int),
{
    let low = lower_exec(&to_chars(haystack));
    let mut k: usize = 0;
    while k < 6
        invariant
            k <= 6,
            list < 3,
            low@ == lowercase(haystack@),
            forall|j: int| 0 <= j < k ==> !contains(low@, #[trigger] keyword(list as int, j)),
        decreases 6 - k,
    {
        if contains_exec(&low, &to_chars(keyword_exec(list, k))) {
            return true;
        }
        k += 1;
    }
    false
}

fn push_str(v: &mut Vec<Vec<char>>, s: &str)
    ensures
        final(v)@.len() == old(v)@.len() + 1,
        forall|i: int| 0 <= i < old(v)@.len() ==> final(v)@[i] == old(v)@[i],
        final(v)@[old(v)@.len() as int]@ == s@,
{
    v.push(to_chars(s));
}

/// Evaluate a single config rule against the facts.
fn eval_rule_exec(m: &MatchSpec, f: &MailFacts) -> (r: Option<Vec<char>>)
    ensures
        match r {
            Some(c) => eval_rule(m, f.from@, f.subject@, f.has_list_unsubscribe) == Some(c@),
            None => eval_rule(m, f.from@, f.subject@, f.has_list_unsubscribe) is None,
        },
{
    let mut matched: Vec<Vec<char>> = Vec::new();
    let ghost from_part: Seq<Seq<char>> = if m.from_contains is Some {
        seq!["sender"@]
    } else {
        seq![]
    };
    let ghost subject_part: Seq<Seq<char>> = if m.subject_contains is Some {
        seq!["subject"@]
    } else {
        seq![]
    };
    match &m.from_contains {
        Some(subs) => {
            if any_contains_exec(f.from, subs) {
                push_str(&mut matched, "sender");
            } else {
                return None;
            }
        },
        None => {},
    }
    assert(matched@.map_values(|v: Vec<char>| v@) =~= from_part);
    match &m.subject_contains {
        Some(subs) => {
            if any_contains_exec(f.subject, subs) {
                push_str(&mut matched, "subject");
            } else {
                return None;
            }
        },
        None => {},
    }
    assert(matched@.map_values(|v: Vec<char>| v@) =~= from_part + subject_part);
    match m.has_list_unsubscribe {
        Some(want) => {
            if f.has_list_unsubscribe == want {
                if want {
                    push_str(&mut matched, "List-Unsubscribe present");
                } else {
                    push_str(&mut matched, "no List-Unsubscribe");
                }
            } else {
                return None;
            }
        },
        None => {},
    }
    let ghost lu_part: Seq<Seq<char>> = match m.has_list_unsubscribe {
        Some(want) => if want {
            seq!["List-Unsubscribe present"@]
        } else {
            seq!["no List-Unsubscribe"@]
        },
        None => seq![],
    };
    let ghost parts = matched@.map_values(|v: Vec<char>| v@);
    assert(parts =~= from_part + subject_part + lu_part);
    if matched.len() == 0 {
        return None;
    }
    let sep = to_chars(" + ");
    let joined = join_exec(&matched, &sep);
    assert(joined@ == join(from_part + subject_part + lu_part, " + "@));
    Some(joined)
}

fn verdict(stream: &str, rationale: &str, decided_by: DecidedBy) -> (r: Verdict)
    ensures
        r.view() == (stream@, rationale@, decided_by),
{
    Verdict {
        stream: to_string(&to_chars(stream)),
        rationale: to_string(&to_chars(rationale)),
        decided_by,
    }
}

/// Classify a thread. Config rules first (first match wins), then the
/// built-in heuristics, then the conservative `aktiv` default.
pub fn classify(f: &MailFacts, rules: &[Rule]) -> (r: Verdict)
    ensures
        r.view() == classification(*f, rules@),
{
    let mut i: usize = 0;
    while i < rules.len()
        invariant
            i <= rules.len(),
            first_config(rules@, f.from@, f.subject@, f.has_list_unsubscribe, 0) == first_config(
                rules@,
                f.from@,
                f.subject@,
                f.has_list_unsubscribe,
                i as int,
            ),
        decreases rules.len() - i,
    {
        match eval_rule_exec(&rules[i].matches, f) {
            Some(cond) => {
                let mut rationale = to_chars(rules[i].note.as_str());
                append(&mut rationale, &to_chars(" ("));
                append(&mut rationale, &cond);
                append(&mut rationale, &to_chars(")"));
                return Verdict {
                    stream: rules[i].stream.clone(),
                    rationale: to_string(&rationale),
                    decided_by: DecidedBy::ConfigRule,
                };
            },
            None => {},
        }
        i += 1;
    }
    if f.has_list_unsubscribe && any_keyword_exec(f.subject, 0) {
        return verdict(
            "werbung",
            "List-Unsubscribe plus a shopping signal in the subject; classified as advertising.",
            DecidedBy::Heuristic,
        );
    }
    if f.has_list_unsubscribe && any_keyword_exec(f.subject, 1) {
        return verdict(
            "feed",
            "List-Unsubscribe plus a development or technology signal in the subject; classified as a Feed newsletter.",
            DecidedBy::Heuristic,
        );
    }
    let noreply = contains_ci_exec(f.from, "noreply") || contains_ci_exec(f.from, "no-reply");
    if noreply && any_keyword_exec(f.subject, 2) {
        return verdict(
            "belege",
            "A no-reply sender plus a receipt or invoice signal in the subject; classified as a receipt.",
            DecidedBy::Heuristic,
        );
    }
    if f.has_list_unsubscribe {
        return verdict(
            "sonstiges",
            "List-Unsubscribe is present, but no specific rule matched; classified as other.",
            DecidedBy::Heuristic,
        );
    }
    verdict(
        "aktiv",
        "No rule matched; kept active as the conservative default.",
        DecidedBy::Fallback,
    )
}

/// A rule whose match spec names no condition never fires, whatever the
/// thread.
pub proof fn empty_match_spec_never_fires(m: MatchSpec, from: Seq<char>, subject: Seq<char>, lu: bool)
    requires
        m.from_contains is None,
        m.subject_contains is None,
        m.has_list_unsubscribe is None,
    ensures
        eval_rule(&m, from, subject, lu) is None,
{
    let parts: Seq<Seq<char>> = seq![];
    assert(seq![] + seq![] + seq![] =~= parts);
}

/// A firing config rule decides before any built-in heuristic or the default,
/// and the earliest firing rule is the one that decides.
pub proof fn first_firing_rule_decides(f: MailFacts, rules: Seq<Rule>, i: int)
    requires
        0 <= i < rules.len(),
        eval_rule(&rules[i].matches, f.from@, f.subject@, f.has_list_unsubscribe) is Some,
        forall|j: int|
            0 <= j < i ==> eval_rule(
                &(#[trigger] rules[j]).matches,
                f.from@,
                f.subject@,
                f.has_list_unsubscribe,
            ) is None,
    ensures
        classification(f, rules).0 == rules[i].stream@,
        classification(f, rules).2 == DecidedBy::ConfigRule,
{
    lemma_first_config_skips(rules, f.from@, f.subject@, f.has_list_unsubscribe, 0, i);
}

proof fn lemma_first_config_skips(rules: Seq<Rule>, from: Seq<char>, subject: Seq<char>, lu: bool, k: int, i: int)
    requires
        0 <= k <= i < rules.len(),
        eval_rule(&rules[i].matches, from, subject, lu) is Some,
        forall|j: int| 0 <= j < i ==> eval_rule(&(#[trigger] rules[j]).matches, from, subject, lu) is None,
    ensures
        first_config(rules, from, subject, lu, k) matches Some(h) && h.0 == i,
    decreases i - k,
{
    if k < i {
        lemma_first_config_skips(rules, from, subject, lu, k + 1, i);
    }
}


/// The subject names a receipt: lowered, it holds "rechnung", "receipt",
/// "invoice", "zahlung", "payment" or "beleg".
pub open spec fn names_a_receipt(subject: Seq<char>) -> bool {
    let low = lowercase(subject);
    contains(low, "rechnung"@) || contains(low, "receipt"@) || contains(low, "invoice"@)
        || contains(low, "zahlung"@) || contains(low, "payment"@) || contains(low, "beleg"@)
}

/// The subject carries a shopping signal: lowered, it holds "sale", "rabatt",
/// "%", "deal", "shop" or "angebot".
pub open spec fn names_a_sale(subject: Seq<char>) -> bool {
    let low = lowercase(subject);
    contains(low, "sale"@) || contains(low, "rabatt"@) || contains(low, "%"@) || contains(
        low,
        "deal"@,
    ) || contains(low, "shop"@) || contains(low, "angebot"@)
}

/// The subject carries a development or technology signal: lowered, it holds
/// "release", "changelog", "engineering", "ai", "newsletter" or "digest".
pub open spec fn names_tech(subject: Seq<char>) -> bool {
    let low = lowercase(subject);
    contains(low, "release"@) || contains(low, "changelog"@) || contains(low, "engineering"@)
        || contains(low, "ai"@) || contains(low, "newsletter"@) || contains(low, "digest"@)
}

proof fn lemma_keyword_lists(subject: Seq<char>)
    ensures
        any_keyword(subject, 0) <==> names_a_sale(subject),
        any_keyword(subject, 1) <==> names_tech(subject),
        any_keyword(subject, 2) <==> names_a_receipt(subject),
{
    let low = lowercase(subject);
    if names_a_sale(subject) {
        if contains(low, "sale"@) { assert(contains(low, keyword(0, 0))); }
        else if contains(low, "rabatt"@) { assert(contains(low, keyword(0, 1))); }
        else if contains(low, "%"@) { assert(contains(low, keyword(0, 2))); }
        else if contains(low, "deal"@) { assert(contains(low, keyword(0, 3))); }
        else if contains(low, "shop"@) { assert(contains(low, keyword(0, 4))); }
        else { assert(contains(low, keyword(0, 5))); }
    }
    if names_tech(subject) {
        if contains(low, "release"@) { assert(contains(low, keyword(1, 0))); }
        else if contains(low, "changelog"@) { assert(contains(low, keyword(1, 1))); }
        else if contains(low, "engineering"@) { assert(contains(low, keyword(1, 2))); }
        else if contains(low, "ai"@) { assert(contains(low, keyword(1, 3))); }
        else if contains(low, "newsletter"@) { assert(contains(low, keyword(1, 4))); }
        else { assert(contains(low, keyword(1, 5))); }
    }
    if names_a_receipt(subject) {
        if contains(low, "rechnung"@) { assert(contains(low, keyword(2, 0))); }
        else if contains(low, "receipt"@) { assert(contains(low, keyword(2, 1))); }
        else if contains(low, "invoice"@) { assert(contains(low, keyword(2, 2))); }
        else if contains(low, "zahlung"@) { assert(contains(low, keyword(2, 3))); }
        else if contains(low, "payment"@) { assert(contains(low, keyword(2, 4))); }
        else { assert(contains(low, keyword(2, 5))); }
    }
}

/// The ladder a thread goes down. A config rule that fires decides it, with
/// that rule's stream. Otherwise, with List-Unsubscribe, a shopping signal
/// in the subject makes it advertising and a technology signal a Feed
/// newsletter. A sender whose From holds "noreply" or "no-reply" (case
/// ignored) with a receipt signal in the subject makes it a receipt, with or
/// without List-Unsubscribe when neither signal above is there. What is left
/// is "other" with List-Unsubscribe and the active default without it.
pub proof fn the_triage_ladder(f: MailFacts, rules: Seq<Rule>)
    ensures
        ({
            let v = classification(f, rules);
            let lu = f.has_list_unsubscribe;
            let noreply = contains_ci(f.from@, "noreply"@) || contains_ci(f.from@, "no-reply"@);
            match first_config(rules, f.from@, f.subject@, lu, 0) {
                Some(hit) => v.0 == rules[hit.0].stream@ && v.2 == DecidedBy::ConfigRule,
                None => {
                    &&& (lu && names_a_sale(f.subject@)) ==> v.0 == "werbung"@ && v.2
                        == DecidedBy::Heuristic
                    &&& (lu && !names_a_sale(f.subject@) && names_tech(f.subject@)) ==> v.0
                        == "feed"@ && v.2 == DecidedBy::Heuristic
                    &&& (!(lu && (names_a_sale(f.subject@) || names_tech(f.subject@))) && noreply
                        && names_a_receipt(f.subject@)) ==> v.0 == "belege"@ && v.2
                        == DecidedBy::Heuristic
                    &&& (lu && !names_a_sale(f.subject@) && !names_tech(f.subject@) && !(noreply
                        && names_a_receipt(f.subject@))) ==> v.0 == "sonstiges"@ && v.2
                        == DecidedBy::Heuristic
                    &&& (!lu && !(noreply && names_a_receipt(f.subject@))) ==> v.0 == "aktiv"@
                        && v.2 == DecidedBy::Fallback
                },
            }
        }),
{
    lemma_keyword_lists(f.subject@);
}

} // verus!
