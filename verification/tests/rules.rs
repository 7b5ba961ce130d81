use std::str::FromStr;
use comms::rules::{classify, DecidedBy, MailFacts, MatchSpec, Rule, STREAMS, STREAM_DEFINITIONS};

fn facts<'a>(from: &'a str, subject: &'a str, lu: bool) -> MailFacts<'a> {
    MailFacts {
        from,
        subject,
        has_list_unsubscribe: lu,
    }
}

#[test]
fn builtin_shopping_promo_is_werbung() {
    let verdict = classify(
        &facts("news@shop.example", "Winter SALE -50% Rabatt", true),
        &[],
    );
    assert_eq!(verdict.stream, "werbung");
    assert!(!verdict.rationale.is_empty());
}

#[test]
fn builtin_tech_newsletter_is_feed() {
    let verdict = classify(
        &facts("hello@bytes.dev", "This week in AI: new release", true),
        &[],
    );
    assert_eq!(verdict.stream, "feed");
}

#[test]
fn builtin_noreply_invoice_is_belege() {
    let verdict = classify(
        &facts("noreply@vendor.example", "Ihre Rechnung 2026-07", false),
        &[],
    );
    assert_eq!(verdict.stream, "belege");
}

#[test]
fn builtin_bare_list_unsubscribe_is_sonstiges() {
    let verdict = classify(
        &facts("info@social.example", "Weekly community update", true),
        &[],
    );
    assert_eq!(verdict.stream, "sonstiges");
}

#[test]
fn no_signal_is_conservative_aktiv() {
    let verdict = classify(
        &facts("a.person@gmail.com", "Re: lunch tomorrow?", false),
        &[],
    );
    assert_eq!(verdict.stream, "aktiv");
    assert!(verdict.rationale.contains("conservative default"));
}

#[test]
fn config_rule_wins_over_builtin() {
    let rules = vec![Rule {
        matches: MatchSpec {
            from_contains: Some(vec!["bytes.dev".into()]),
            subject_contains: None,
            has_list_unsubscribe: None,
        },
        stream: "feed".into(),
        note: "curated development newsletter".into(),
    }];
    let verdict = classify(&facts("hello@bytes.dev", "random subject", true), &rules);
    assert_eq!(verdict.stream, "feed");
    assert!(verdict.rationale.contains("curated development newsletter"));
    assert!(verdict.rationale.contains("sender"));
}

#[test]
fn config_rule_can_produce_steuern() {
    let rules = vec![Rule {
        matches: MatchSpec {
            from_contains: None,
            subject_contains: Some(vec!["Steuerbescheid".into()]),
            has_list_unsubscribe: None,
        },
        stream: "steuern".into(),
        note: "steuerrelevant".into(),
    }];
    let verdict = classify(
        &facts("amt@example.gov", "Ihr Steuerbescheid 2025", false),
        &rules,
    );
    assert_eq!(verdict.stream, "steuern");
}

#[test]
fn empty_match_spec_never_fires() {
    let rules = vec![Rule {
        matches: MatchSpec::default(),
        stream: "werbung".into(),
        note: "should never match".into(),
    }];
    let verdict = classify(&facts("a@b.com", "hello", false), &rules);
    assert_eq!(
        verdict.stream, "aktiv",
        "empty match spec must not act as a catch-all"
    );
}

#[test]
fn classify_names_who_decided() {
    let rules = vec![Rule {
        matches: MatchSpec {
            from_contains: Some(vec!["bytes.dev".into()]),
            subject_contains: None,
            has_list_unsubscribe: None,
        },
        stream: "feed".into(),
        note: "curated development newsletter".into(),
    }];
    assert_eq!(
        classify(&facts("hello@bytes.dev", "anything", true), &rules).decided_by,
        DecidedBy::ConfigRule
    );
    assert_eq!(
        classify(&facts("news@shop.example", "Winter SALE", true), &[]).decided_by,
        DecidedBy::Heuristic
    );
    assert_eq!(
        classify(&facts("a.person@example.com", "Re: lunch?", false), &[]).decided_by,
        DecidedBy::Fallback
    );
}

#[test]
fn decided_by_round_trips_through_its_stored_form() {
    for value in [
        DecidedBy::ConfigRule,
        DecidedBy::Heuristic,
        DecidedBy::Fallback,
    ] {
        assert_eq!(DecidedBy::from_str(value.as_str()), Ok(value));
    }
    assert!(DecidedBy::from_str("model").is_err());
}

#[test]
fn stream_definitions_cover_every_stream() {
    let named: Vec<&str> = STREAM_DEFINITIONS.iter().map(|(name, _)| *name).collect();
    assert_eq!(named, STREAMS.to_vec());
    for (name, definition) in STREAM_DEFINITIONS {
        assert!(
            definition.len() > 30,
            "{name} has no usable one-line definition"
        );
    }
}

#[test]
fn the_matched_conditions_are_joined_in_a_fixed_order() {
    let rules = vec![Rule {
        matches: MatchSpec {
            from_contains: Some(vec!["EXAMPLE".into()]),
            subject_contains: Some(vec!["report".into()]),
            has_list_unsubscribe: Some(false),
        },
        stream: "issue".into(),
        note: "weekly report".into(),
    }];
    let verdict = classify(&facts("boss@example.com", "Weekly Report", false), &rules);
    assert_eq!(verdict.stream, "issue");
    assert_eq!(
        verdict.rationale,
        "weekly report (sender + subject + no List-Unsubscribe)"
    );
    let refused = classify(&facts("boss@example.com", "Weekly Report", true), &rules);
    assert_eq!(refused.decided_by, DecidedBy::Heuristic);
}

#[test]
fn an_unknown_stored_form_names_itself() {
    assert_eq!(
        DecidedBy::parse("model"),
        Err("unknown decided_by 'model'".to_string())
    );
}
