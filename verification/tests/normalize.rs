use comms::normalize::{normalize, rules, structural_rules, Normalized};

fn fired(n: &Normalized, rule: &str) -> usize {
    n.dropped
        .iter()
        .find(|d| d.rule == rule)
        .map(|d| d.lines)
        .unwrap_or(0)
}

#[test]
fn cookie_notice_goes_and_prose_about_cookies_stays() {
    let out = normalize(
        "We use cookies to improve your experience. Accept all\n\
         The cookie consent industry is worth billions, and this article argues that the \
         entire apparatus exists to manufacture the appearance of choice rather than to \
         give anyone real control over what is collected.",
    );
    assert_eq!(fired(&out, "cookie-notice"), 1);
    assert!(out.text.starts_with("The cookie consent industry"));
}

#[test]
fn newsletter_prompt_goes() {
    let out = normalize("Real paragraph.\nSubscribe to our newsletter\nAnother paragraph.");
    assert_eq!(fired(&out, "newsletter-interstitial"), 1);
    assert_eq!(out.text, "Real paragraph.\nAnother paragraph.");
}

#[test]
fn share_widget_goes() {
    let out = normalize("Body text.\nShare on Twitter\nCopy link\nMore body text.");
    assert_eq!(fired(&out, "share-widget"), 2);
    assert_eq!(out.text, "Body text.\nMore body text.");
}

#[test]
fn navigation_label_goes_but_a_sentence_starting_with_one_stays() {
    let out = normalize("Home\nHome automation is the subject of this piece.");
    assert_eq!(fired(&out, "navigation"), 1);
    assert_eq!(out.text, "Home automation is the subject of this piece.");
}

#[test]
fn link_run_goes_and_a_pair_stays() {
    let run = normalize(
        "Intro.\n[a](https://a.example)\n[b](https://b.example)\n[c](https://c.example)\nOutro.",
    );
    assert_eq!(fired(&run, "link-list-run"), 3);
    assert_eq!(run.text, "Intro.\nOutro.");

    let pair = normalize("Intro.\n[a](https://a.example)\n[b](https://b.example)\nOutro.");
    assert_eq!(fired(&pair, "link-list-run"), 0);
    assert!(pair.text.contains("[a](https://a.example)"));
}

#[test]
fn blank_runs_collapse_and_residual_markup_is_stripped() {
    let out =
        normalize("\n\n# Header\n\n\n\nParagraph with <span class=\"x\">tag</span>.\n   \n\n");
    assert_eq!(out.text, "# Header\n\nParagraph with tag.");
    assert!(fired(&out, "blank-run") > 0);
}

#[test]
fn inline_noise_and_entities_are_handled_here_not_in_the_reader() {
    let out = normalize(
        "Tom &amp; Jerry <!-- tracking pixel --> went ![logo](https://x.example/l.png) home[](https://x.example/i).",
    );
    assert_eq!(out.text, "Tom & Jerry  went  home.");
}

#[test]
fn a_real_link_survives_the_inline_pass() {
    let out = normalize("See [the paper](https://arxiv.org/abs/1234.5678) for details.");
    assert_eq!(
        out.text,
        "See [the paper](https://arxiv.org/abs/1234.5678) for details."
    );
}

#[test]
fn normalizing_twice_changes_nothing() {
    let once = normalize(
        "Menu\nWe use cookies. Accept all\n\n\nReal content here.\n[a](https://a.example)\n[b](https://b.example)\n[c](https://c.example)\n",
    );
    let twice = normalize(&once.text);
    assert_eq!(once.text, twice.text);
    assert!(twice.dropped.is_empty(), "second pass should find nothing");
}

#[test]
fn every_rule_states_what_it_drops() {
    for rule in rules() {
        assert!(!rule.drops.is_empty(), "{} has no drops sentence", rule.name);
    }
    for (name, drops) in structural_rules() {
        assert!(!drops.is_empty(), "{name} has no drops sentence");
    }
}

#[test]
fn report_reads_as_an_explanation() {
    let out = normalize("Menu\nBody.");
    assert_eq!(out.report(), "navigation: 1 line(s)");
    assert_eq!(normalize("Body.").report(), "nothing dropped");
}

#[test]
fn rules_are_applied_in_table_order_and_named_in_first_fired_order() {
    let out = normalize("Share this\nMenu\nShare on Mastodon\nBody.\n\n\n\nEnd.");
    let names: Vec<&str> = out.dropped.iter().map(|d| d.rule).collect();
    assert_eq!(names, vec!["share-widget", "navigation", "blank-run"]);
    assert_eq!(fired(&out, "share-widget"), 2);
    assert_eq!(out.report(), "share-widget: 2 line(s), navigation: 1 line(s), blank-run: 2 line(s)");
}

#[test]
fn a_long_line_is_never_boilerplate() {
    let long = format!("Accept all cookies {}", "x".repeat(120));
    let out = normalize(&long);
    assert!(out.dropped.is_empty());
    assert_eq!(out.text, long);
}

#[test]
fn crlf_line_endings_are_lines_too() {
    let out = normalize("First.\r\nMenu\r\nLast.\r\n");
    assert_eq!(out.text, "First.\nLast.");
    assert_eq!(fired(&out, "navigation"), 1);
}

#[test]
fn a_second_pass_changes_nothing_once_every_line_is_clean() {
    let once = normalize("Intro line.\n\n\n  Body with a [link](https://x.example).  \nShare this\n\n");
    assert_eq!(once.text, "Intro line.\n\nBody with a [link](https://x.example).");
    let twice = normalize(&once.text);
    assert_eq!(twice.text, once.text);
    assert!(twice.dropped.is_empty());
}

#[test]
fn cleaning_repeats_until_the_line_is_clean() {
    // An image inside a link leaves an empty link shell, which goes too.
    let once = normalize("Before.\n[![x](y)](z)\nAfter.");
    assert_eq!(once.text, "Before.\n\nAfter.");
    let twice = normalize(&once.text);
    assert_eq!(twice.text, once.text);
    assert!(twice.dropped.is_empty());

    // A decoded tag is markup, and is stripped in the same normalization.
    let once = normalize("&lt;b&gt;x");
    assert_eq!(once.text, "x");
    assert_eq!(normalize(&once.text).text, "x");

    // A doubly escaped entity decodes all the way.
    let once = normalize("fish &amp;amp; chips");
    assert_eq!(once.text, "fish & chips");
    assert_eq!(normalize(&once.text).text, once.text);
}
