//! Normalization: the stage between extraction and everything that reads an
//! item. Extraction's job ends at "faithful bytes to text"; this module owns
//! "clean".
//!
//! Every rule is a line predicate with a `drops` sentence attached, and a
//! re-run reports which rule fired how often. No model runs in this stage.

use vstd::prelude::*;
use crate::text::{
    alnum, append, chars_eq, contains, contains_exec, count_char, count_char_exec, ends_with,
    ends_with_exec, find, find_exec, find_from, is_alphanumeric, is_blank, is_whitespace, is_ws,
    decimal, decimal_exec, join, join_exec, lemma_find_from_bounds, lines, lines_exec, lower_exec, lowercase,
    replace_all, replace_exec, slice, starts_with, starts_with_exec, to_chars, to_string, trim,
    trim_end, trim_end_exec, trim_exec, trim_end_nonalnum, trim_nonalnum, trim_nonalnum_exec,
    trim_start_nonalnum,
};

verus! {

/// Lines longer than this are never boilerplate candidates.
pub const BOILERPLATE_LINE_MAX: usize = 120;

/// A run of this many consecutive link-only lines reads as a navigation block.
pub const LINK_RUN_MIN: usize = 3;

/// One boilerplate rule and the sentence a report shows for it.
pub struct Rule {
    pub name: &'static str,
    pub drops: &'static str,
}

/// What normalization did, per rule. Counts, not the dropped text.
#[derive(Debug, Clone)]
pub struct DropCount {
    pub rule: &'static str,
    pub lines: usize,
}

/// The canonical markdown plus the record of how it got that way.
#[derive(Debug, Clone)]
pub struct Normalized {
    pub text: String,
    pub dropped: Vec<DropCount>,
}

// ---------------------------------------------------------------------------
// Rule identities
// ---------------------------------------------------------------------------

/// Rule ids: 0..=3 are the line rules in application order, 4 is the
/// link-run rule and 5 the blank-run rule.
pub open spec fn rule_name(id: int) -> Seq<char> {
    if id == 0 {
        "cookie-notice"@
    } else if id == 1 {
        "newsletter-interstitial"@
    } else if id == 2 {
        "share-widget"@
    } else if id == 3 {
        "navigation"@
    } else if id == 4 {
        "link-list-run"@
    } else {
        "blank-run"@
    }
}

/// What each rule drops, in words, by the same numbering as [`rule_name`].
pub open spec fn rule_drops(id: int) -> Seq<char> {
    if id == 0 {
        "short lines offering or describing cookie consent"@
    } else if id == 1 {
        "short lines asking the reader to subscribe or sign up"@
    } else if id == 2 {
        "short lines that are social-share or copy-link affordances"@
    } else if id == 3 {
        "short lines that are bare navigation labels, not sentences"@
    } else if id == 4 {
        "runs of three or more consecutive lines that are nothing but a link"@
    } else {
        "runs of blank lines, collapsed to one"@
    }
}

/// Every rule states what it drops: no description is empty.
pub proof fn rule_descriptions_are_nonempty()
    ensures
        forall|id: int| (#[trigger] rule_drops(id)).len() > 0,
{
    reveal_strlit("short lines offering or describing cookie consent");
    reveal_strlit("short lines asking the reader to subscribe or sign up");
    reveal_strlit("short lines that are social-share or copy-link affordances");
    reveal_strlit("short lines that are bare navigation labels, not sentences");
    reveal_strlit("runs of three or more consecutive lines that are nothing but a link");
    reveal_strlit("runs of blank lines, collapsed to one");
    assert forall|id: int| (#[trigger] rule_drops(id)).len() > 0 by {
        if id == 0 {
            assert(rule_drops(id)[0] == 's');
        } else if id == 1 {
            assert(rule_drops(id)[0] == 's');
        } else if id == 2 {
            assert(rule_drops(id)[0] == 's');
        } else if id == 3 {
            assert(rule_drops(id)[0] == 's');
        } else {
            assert(rule_drops(id)[0] == 'r');
        }
    }
}

fn rule_name_exec(id: usize) -> (r: &'static str)
    requires
        id <= 5,
    ensures
        r@ == rule_name(id as int),
{
    if id == 0 {
        "cookie-notice"
    } else if id == 1 {
        "newsletter-interstitial"
    } else if id == 2 {
        "share-widget"
    } else if id == 3 {
        "navigation"
    } else if id == 4 {
        "link-list-run"
    } else {
        "blank-run"
    }
}

/// The line rule table, in application order.
pub fn rules() -> (r: Vec<Rule>)
    ensures
        r@.len() == 4,
        forall|i: int| 0 <= i < 4 ==> (#[trigger] r@[i]).name@ == rule_name(i),
        forall|i: int| 0 <= i < 4 ==> (#[trigger] r@[i]).drops@ == rule_drops(i),
{
    let mut v: Vec<Rule> = Vec::new();
    v.push(Rule { name: "cookie-notice", drops: "short lines offering or describing cookie consent" });
    v.push(Rule {
        name: "newsletter-interstitial",
        drops: "short lines asking the reader to subscribe or sign up",
    });
    v.push(Rule {
        name: "share-widget",
        drops: "short lines that are social-share or copy-link affordances",
    });
    v.push(Rule {
        name: "navigation",
        drops: "short lines that are bare navigation labels, not sentences",
    });
    v
}

/// The two rules that need more than a single line of context.
pub fn structural_rules() -> (r: [(&'static str, &'static str); 2])
    ensures
        r[0].0@ == rule_name(4),
        r[1].0@ == rule_name(5),
        r[0].1@ == rule_drops(4),
        r[1].1@ == rule_drops(5),
{
    [
        ("link-list-run", "runs of three or more consecutive lines that are nothing but a link"),
        ("blank-run", "runs of blank lines, collapsed to one"),
    ]
}

// ---------------------------------------------------------------------------
// Inline noise
// ---------------------------------------------------------------------------

pub open spec fn pat_comment() -> Seq<char> {
    seq!['<', '!', '-', '-']
}

pub open spec fn pat_comment_end() -> Seq<char> {
    seq!['-', '-', '>']
}

pub open spec fn pat_image() -> Seq<char> {
    seq!['!', '[']
}

pub open spec fn pat_link_mid() -> Seq<char> {
    seq![']', '(']
}

/// Everything after the `)` that closes a markdown link target.
pub open spec fn skip_link_tail(s: Seq<char>) -> Seq<char> {
    match find(s, seq![')']) {
        Some(e) => s.skip(e + 1),
        None => seq![],
    }
}

pub proof fn lemma_skip_link_tail(s: Seq<char>)
    ensures
        s.len() > 0 ==> skip_link_tail(s).len() < s.len(),
        s.len() == 0 ==> skip_link_tail(s).len() == 0,
{
    lemma_find_from_bounds(s, seq![')'], 0);
}

/// The earliest of three optional hits, with which pattern it was.
pub open spec fn earliest(a: Option<int>, b: Option<int>, c: Option<int>) -> Option<(int, int)> {
    let ab = match (a, b) {
        (Some(x), Some(y)) => if y < x {
            Some((y, 1int))
        } else {
            Some((x, 0int))
        },
        (Some(x), None) => Some((x, 0int)),
        (None, Some(y)) => Some((y, 1int)),
        (None, None) => None,
    };
    match (ab, c) {
        (Some(p), Some(z)) => if z < p.0 {
            Some((z, 2int))
        } else {
            Some(p)
        },
        (Some(p), None) => Some(p),
        (None, Some(z)) => Some((z, 2int)),
        (None, None) => None,
    }
}

/// Inline noise removed mid-line: HTML comments, image markdown, and links
/// whose text is empty. A real link is kept as written.
pub open spec fn inline_noise(rest: Seq<char>) -> Seq<char>
    decreases rest.len(),
{
    let hit = earliest(
        find(rest, pat_comment()),
        find(rest, pat_image()),
        find(rest, pat_link_mid()),
    );
    match hit {
        None => rest,
        Some(h) => {
            let at = h.0;
            proof {
                lemma_find_from_bounds(rest, pat_comment(), 0);
                lemma_find_from_bounds(rest, pat_image(), 0);
                lemma_find_from_bounds(rest, pat_link_mid(), 0);
            }
            if h.1 == 0 {
                match find(rest.skip(at), pat_comment_end()) {
                    Some(e) => {
                        proof {
                            lemma_find_from_bounds(rest.skip(at), pat_comment_end(), 0);
                        }
                        rest.take(at) + inline_noise(rest.skip(at + e + 3))
                    },
                    None => rest.take(at),
                }
            } else if h.1 == 1 {
                proof {
                    lemma_skip_link_tail(rest.skip(at + 2));
                }
                rest.take(at) + inline_noise(skip_link_tail(rest.skip(at + 2)))
            } else if at >= 1 && rest[at - 1] == '[' {
                proof {
                    lemma_skip_link_tail(rest.skip(at));
                }
                rest.take(at - 1) + inline_noise(skip_link_tail(rest.skip(at)))
            } else {
                rest.take(at + 2) + inline_noise(rest.skip(at + 2))
            }
        },
    }
}

fn skip_link_tail_exec(s: &Vec<char>) -> (r: Vec<char>)
    ensures
        r@ == skip_link_tail(s@),
{
    let mut close: Vec<char> = Vec::new();
    close.push(')');
    assert(close@ == seq![')']);
    match find_exec(s, &close) {
        Some(e) => {
            proof {
                lemma_find_from_bounds(s@, close@, 0);
                assert(close@.len() == 1);
                assert(find(s@, close@) == Some(e as int));
                assert(find_from(s@, close@, 0) == Some(e as int));
                assert(e + 1 <= s@.len());
                assert(e < s.len());
            }
            slice(s, e + 1, s.len())
        },
        None => Vec::new(),
    }
}

fn pattern(a: char, b: char) -> (r: Vec<char>)
    ensures
        r@ == seq![a, b],
{
    let mut v: Vec<char> = Vec::new();
    v.push(a);
    v.push(b);
    v
}

#[verifier::spinoff_prover]
#[verifier::rlimit(40)]
fn drop_inline_noise(s: &Vec<char>) -> (r: Vec<char>)
    ensures
        r@ == inline_noise(s@),
{
    let mut comment: Vec<char> = Vec::new();
    comment.push('<');
    comment.push('!');
    comment.push('-');
    comment.push('-');
    let mut comment_end: Vec<char> = Vec::new();
    comment_end.push('-');
    comment_end.push('-');
    comment_end.push('>');
    assert(comment@ == pat_comment());
    assert(comment_end@ == pat_comment_end());
    let image = pattern('!', '[');
    let link_mid = pattern(']', '(');
    let mut out: Vec<char> = Vec::new();
    let mut rest: Vec<char> = s.clone();
    loop
        invariant
            comment@ == pat_comment(),
            comment_end@ == pat_comment_end(),
            image@ == pat_image(),
            link_mid@ == pat_link_mid(),
            out@ + inline_noise(rest@) == inline_noise(s@),
        decreases rest.len(),
    {
        let ghost r = rest@;
        proof {
            lemma_find_from_bounds(r, pat_comment(), 0);
            lemma_find_from_bounds(r, pat_image(), 0);
            lemma_find_from_bounds(r, pat_link_mid(), 0);
        }
        let a = find_exec(&rest, &comment);
        let b = find_exec(&rest, &image);
        let c = find_exec(&rest, &link_mid);
        // The earliest hit; the three patterns start with different
        // characters, so two of them never share an index.
        let mut at: usize = 0;
        let mut which: usize = 3;
        match a {
            Some(x) => {
                at = x;
                which = 0;
            },
            None => {},
        }
        match b {
            Some(y) => {
                if which == 3 || y < at {
                    at = y;
                    which = 1;
                }
            },
            None => {},
        }
        match c {
            Some(z) => {
                if which == 3 || z < at {
                    at = z;
                    which = 2;
                }
            },
            None => {},
        }
        let ghost hit = earliest(find(r, pat_comment()), find(r, pat_image()), find(r, pat_link_mid()));
        assert(which == 3 <==> hit is None);
        assert(which != 3 ==> hit == Some((at as int, which as int)));
        if which == 3 {
            append(&mut out, &rest);
            assert(inline_noise(r) == r);
            return out;
        } else if which == 0 {
            let head = slice(&rest, 0, at);
            let tail = slice(&rest, at, rest.len());
            assert(tail@ == r.skip(at as int));
            match find_exec(&tail, &comment_end) {
                Some(e) => {
                    proof {
                        lemma_find_from_bounds(tail@, pat_comment_end(), 0);
                    }
                    append(&mut out, &head);
                    let next = slice(&rest, at + e + 3, rest.len());
                    assert(next@ == r.skip(at + e + 3));
                    rest = next;
                },
                None => {
                    append(&mut out, &head);
                    return out;
                },
            }
        } else if which == 1 {
            let head = slice(&rest, 0, at);
            let tail = slice(&rest, at + 2, rest.len());
            assert(tail@ == r.skip(at + 2));
            let next = skip_link_tail_exec(&tail);
            proof {
                lemma_skip_link_tail(tail@);
            }
            append(&mut out, &head);
            rest = next;
        } else if at >= 1 && rest[at - 1] == '[' {
            let head = slice(&rest, 0, at - 1);
            let tail = slice(&rest, at, rest.len());
            assert(tail@ == r.skip(at as int));
            let next = skip_link_tail_exec(&tail);
            proof {
                lemma_skip_link_tail(tail@);
            }
            append(&mut out, &head);
            rest = next;
        } else {
            let head = slice(&rest, 0, at + 2);
            let next = slice(&rest, at + 2, rest.len());
            assert(next@ == r.skip(at + 2));
            append(&mut out, &head);
            rest = next;
        }
    }
}

// ---------------------------------------------------------------------------
// Residual markup and entities
// ---------------------------------------------------------------------------

/// Characters outside every `<...>` span, nesting counted.
pub open spec fn strip_tags(s: Seq<char>, depth: int) -> Seq<char>
    decreases s.len(),
{
    if s.len() == 0 {
        seq![]
    } else {
        let c = s[0];
        let r = s.drop_first();
        if c == '<' {
            strip_tags(r, depth + 1)
        } else if c == '>' {
            strip_tags(
                r,
                if depth > 0 {
                    depth - 1
                } else {
                    0
                },
            )
        } else if depth == 0 {
            seq![c] + strip_tags(r, 0)
        } else {
            strip_tags(r, depth)
        }
    }
}

/// Leftover `<...>` spans removed, when the line has both brackets at all.
pub open spec fn strip_markup(s: Seq<char>) -> Seq<char> {
    if contains(s, seq!['<']) && contains(s, seq!['>']) {
        strip_tags(s, 0)
    } else {
        s
    }
}

fn one(c: char) -> (r: Vec<char>)
    ensures
        r@ == seq![c],
{
    let mut v: Vec<char> = Vec::new();
    v.push(c);
    v
}

fn strip_markup_exec(s: &Vec<char>) -> (r: Vec<char>)
    ensures
        r@ == strip_markup(s@),
{
    let lt = one('<');
    let gt = one('>');
    if !(contains_exec(s, &lt) && contains_exec(s, &gt)) {
        return s.clone();
    }
    let mut out: Vec<char> = Vec::new();
    let mut depth: usize = 0;
    let mut i: usize = 0;
    assert(s@.skip(0) == s@);
    while i < s.len()
        invariant
            i <= s.len(),
            depth <= i,
            out@ + strip_tags(s@.skip(i as int), depth as int) == strip_tags(s@, 0),
        decreases s.len() - i,
    {
        let c = s[i];
        assert(s@.skip(i as int).drop_first() == s@.skip(i + 1));
        assert(s@.skip(i as int)[0] == c);
        if c == '<' {
            depth += 1;
        } else if c == '>' {
            if depth > 0 {
                depth -= 1;
            }
        } else if depth == 0 {
            out.push(c);
            assert(out@ + strip_tags(s@.skip(i + 1), 0) =~= out@.drop_last() + (seq![c]
                + strip_tags(s@.skip(i + 1), 0)));
        }
        i += 1;
    }
    assert(s@.skip(i as int).len() == 0);
    out
}

/// The entity table, applied in this order.
pub open spec fn entity(k: int) -> (Seq<char>, Seq<char>) {
    if k == 0 {
        ("&amp;"@, "&"@)
    } else if k == 1 {
        ("&apos;"@, "'"@)
    } else if k == 2 {
        ("&quot;"@, "\""@)
    } else if k == 3 {
        ("&nbsp;"@, " "@)
    } else if k == 4 {
        ("&lt;"@, "<"@)
    } else if k == 5 {
        ("&gt;"@, ">"@)
    } else if k == 6 {
        ("&#39;"@, "'"@)
    } else if k == 7 {
        ("&hellip;"@, "…"@)
    } else if k == 8 {
        ("&mdash;"@, "—"@)
    } else {
        ("&ndash;"@, "–"@)
    }
}

/// The first `n` entity replacements applied in order.
pub open spec fn decode_n(s: Seq<char>, n: nat) -> Seq<char>
    decreases n,
{
    if n == 0 {
        s
    } else {
        replace_all(decode_n(s, (n - 1) as nat), entity(n - 1).0, entity(n - 1).1)
    }
}

pub open spec fn decode_entities(s: Seq<char>) -> Seq<char> {
    if !contains(s, seq!['&']) {
        s
    } else {
        decode_n(s, 10)
    }
}

fn entity_exec(k: usize) -> (r: (&'static str, &'static str))
    requires
        k < 10,
    ensures
        r.0@ == entity(k as int).0,
        r.1@ == entity(k as int).1,
{
    if k == 0 {
        ("&amp;", "&")
    } else if k == 1 {
        ("&apos;", "'")
    } else if k == 2 {
        ("&quot;", "\"")
    } else if k == 3 {
        ("&nbsp;", " ")
    } else if k == 4 {
        ("&lt;", "<")
    } else if k == 5 {
        ("&gt;", ">")
    } else if k == 6 {
        ("&#39;", "'")
    } else if k == 7 {
        ("&hellip;", "…")
    } else if k == 8 {
        ("&mdash;", "—")
    } else {
        ("&ndash;", "–")
    }
}

fn decode_entities_exec(s: &Vec<char>) -> (r: Vec<char>)
    ensures
        r@ == decode_entities(s@),
{
    let amp = one('&');
    if !contains_exec(s, &amp) {
        return s.clone();
    }
    let mut out = s.clone();
    let mut k: usize = 0;
    while k < 10
        invariant
            k <= 10,
            out@ == decode_n(s@, k as nat),
        decreases 10 - k,
    {
        let (e, rep) = entity_exec(k);
        let ev = to_chars(e);
        let rv = to_chars(rep);
        if contains_exec(&out, &ev) {
            out = replace_exec(&out, &ev, &rv);
        } else {
            proof {
                if ev@.len() > 0 {
                    assert(replace_all(out@, ev@, rv@) == out@);
                }
            }
        }
        k += 1;
    }
    out
}

// ---------------------------------------------------------------------------
// The four line rules
// ---------------------------------------------------------------------------

pub open spec fn is_cookie_notice(line: Seq<char>) -> bool {
    let low = lowercase(line);
    (contains(low, "cookie"@) || contains(low, "consent"@)) && (contains(low, "accept"@)
        || contains(low, "agree"@) || contains(low, "settings"@) || contains(low, "preferences"@)
        || contains(low, "we use"@) || contains(low, "akzeptieren"@) || contains(
        low,
        "einstellungen"@,
    ))
}

pub open spec fn is_newsletter_prompt(line: Seq<char>) -> bool {
    let low = lowercase(line);
    contains(low, "newsletter"@) || starts_with(low, "subscribe"@) || contains(
        low,
        "subscribe to our"@,
    ) || contains(low, "sign up for"@) || contains(low, "jetzt abonnieren"@)
}

pub open spec fn is_share_widget(line: Seq<char>) -> bool {
    let low = lowercase(line);
    starts_with(low, "share"@) || contains(low, "share on "@) || contains(low, "share this"@)
        || low == "copy link"@ || contains(low, "teilen auf"@)
}

/// A short line that is one of the known navigation labels and nothing more.
pub open spec fn is_navigation(line: Seq<char>) -> bool {
    let low = trim_nonalnum(lowercase(line));
    low == "home"@ || low == "menu"@ || low == "search"@ || low == "skip to content"@ || low
        == "skip to main content"@ || low == "toggle navigation"@ || low == "back to top"@ || low
        == "main menu"@ || low == "close"@ || low == "log in"@ || low == "sign in"@ || low
        == "startseite"@ || low == "zum inhalt springen"@
}

pub open spec fn rule_fires(id: int, line: Seq<char>) -> bool {
    if id == 0 {
        is_cookie_notice(line)
    } else if id == 1 {
        is_newsletter_prompt(line)
    } else if id == 2 {
        is_share_widget(line)
    } else {
        is_navigation(line)
    }
}

/// The first rule, in table order, that drops this (non-blank, trimmed) line.
pub open spec fn first_rule(probe: Seq<char>) -> Option<int> {
    if probe.len() > BOILERPLATE_LINE_MAX {
        None
    } else if rule_fires(0, probe) {
        Some(0)
    } else if rule_fires(1, probe) {
        Some(1)
    } else if rule_fires(2, probe) {
        Some(2)
    } else if rule_fires(3, probe) {
        Some(3)
    } else {
        None
    }
}

fn any_contains(low: &Vec<char>, needles: &Vec<&'static str>) -> (r: bool)
    ensures
        r == exists|i: int| 0 <= i < needles@.len() && contains(low@, (#[trigger] needles@[i])@),
{
    let mut i: usize = 0;
    while i < needles.len()
        invariant
            i <= needles.len(),
            forall|j: int| 0 <= j < i ==> !contains(low@, (#[trigger] needles@[j])@),
        decreases needles.len() - i,
    {
        let n = to_chars(needles[i]);
        if contains_exec(low, &n) {
            return true;
        }
        i += 1;
    }
    false
}

fn cookie_notice_exec(line: &Vec<char>) -> (r: bool)
    ensures
        r == is_cookie_notice(line@),
{
    let low = lower_exec(line);
    let subject = contains_exec(&low, &to_chars("cookie")) || contains_exec(
        &low,
        &to_chars("consent"),
    );
    let mut verbs: Vec<&'static str> = Vec::new();
    verbs.push("accept");
    verbs.push("agree");
    verbs.push("settings");
    verbs.push("preferences");
    verbs.push("we use");
    verbs.push("akzeptieren");
    verbs.push("einstellungen");
    let verb = any_contains(&low, &verbs);
    proof {
        if verb {
            let i = choose|i: int| 0 <= i < verbs@.len() && contains(low@, (#[trigger] verbs@[i])@);
            assert(0 <= i < 7);
        } else {
            assert(!contains(low@, verbs@[0]@));
            assert(!contains(low@, verbs@[1]@));
            assert(!contains(low@, verbs@[2]@));
            assert(!contains(low@, verbs@[3]@));
            assert(!contains(low@, verbs@[4]@));
            assert(!contains(low@, verbs@[5]@));
            assert(!contains(low@, verbs@[6]@));
        }
    }
    subject && verb
}

fn newsletter_prompt_exec(line: &Vec<char>) -> (r: bool)
    ensures
        r == is_newsletter_prompt(line@),
{
    let low = lower_exec(line);
    contains_exec(&low, &to_chars("newsletter")) || starts_with_exec(&low, &to_chars("subscribe"))
        || contains_exec(&low, &to_chars("subscribe to our")) || contains_exec(
        &low,
        &to_chars("sign up for"),
    ) || contains_exec(&low, &to_chars("jetzt abonnieren"))
}

fn share_widget_exec(line: &Vec<char>) -> (r: bool)
    ensures
        r == is_share_widget(line@),
{
    let low = lower_exec(line);
    starts_with_exec(&low, &to_chars("share")) || contains_exec(&low, &to_chars("share on "))
        || contains_exec(&low, &to_chars("share this")) || chars_eq(&low, &to_chars("copy link"))
        || contains_exec(&low, &to_chars("teilen auf"))
}

fn navigation_exec(line: &Vec<char>) -> (r: bool)
    ensures
        r == is_navigation(line@),
{
    let low = trim_nonalnum_exec(&lower_exec(line));
    chars_eq(&low, &to_chars("home")) || chars_eq(&low, &to_chars("menu")) || chars_eq(
        &low,
        &to_chars("search"),
    ) || chars_eq(&low, &to_chars("skip to content")) || chars_eq(
        &low,
        &to_chars("skip to main content"),
    ) || chars_eq(&low, &to_chars("toggle navigation")) || chars_eq(
        &low,
        &to_chars("back to top"),
    ) || chars_eq(&low, &to_chars("main menu")) || chars_eq(&low, &to_chars("close"))
        || chars_eq(&low, &to_chars("log in")) || chars_eq(&low, &to_chars("sign in"))
        || chars_eq(&low, &to_chars("startseite")) || chars_eq(
        &low,
        &to_chars("zum inhalt springen"),
    )
}

fn first_rule_exec(probe: &Vec<char>) -> (r: Option<usize>)
    ensures
        match r {
            Some(id) => first_rule(probe@) == Some(id as int) && id < 4,
            None => first_rule(probe@) is None,
        },
{
    if probe.len() > BOILERPLATE_LINE_MAX {
        None
    } else if cookie_notice_exec(probe) {
        Some(0)
    } else if newsletter_prompt_exec(probe) {
        Some(1)
    } else if share_widget_exec(probe) {
        Some(2)
    } else if navigation_exec(probe) {
        Some(3)
    } else {
        None
    }
}


// ---------------------------------------------------------------------------
// The whole-line pass
// ---------------------------------------------------------------------------

/// One line cleaned: trailing space, inline noise, leftover tags, entities.
pub open spec fn clean_line(l: Seq<char>) -> Seq<char> {
    decode_entities(strip_markup(inline_noise(trim_end(l))))
}

/// One cleaning pass, trimmed.
pub open spec fn clean_once(l: Seq<char>) -> Seq<char> {
    trim(clean_line(l))
}

/// A line cleaned until a pass leaves it as it is. One pass can expose new
/// noise (an image inside a link leaves an empty link; a decoded `&lt;b&gt;`
/// is a tag), so cleaning repeats while it still shortens the line; every
/// step that changes a line shortens it, so the result is one no further
/// pass changes.
pub open spec fn clean_fully(l: Seq<char>) -> Seq<char>
    decreases l.len(),
{
    let c = clean_once(l);
    if c.len() < l.len() {
        clean_fully(c)
    } else {
        c
    }
}

/// The line pass over a prefix of the input lines: what is kept (a blank
/// line kept as empty, any other line as its trimmed probe) and which rule
/// dropped each dropped line, in order.
pub open spec fn line_pass(ls: Seq<Seq<char>>) -> (Seq<Seq<char>>, Seq<int>)
    decreases ls.len(),
{
    if ls.len() == 0 {
        (seq![], seq![])
    } else {
        let prev = line_pass(ls.drop_last());
        let probe = clean_fully(ls.last());
        if probe.len() == 0 {
            (prev.0.push(seq![]), prev.1)
        } else {
            match first_rule(probe) {
                Some(id) => (prev.0, prev.1.push(id)),
                None => (prev.0.push(probe), prev.1),
            }
        }
    }
}

// ---------------------------------------------------------------------------
// Link runs
// ---------------------------------------------------------------------------

pub open spec fn is_bullet(c: char) -> bool {
    c == '-' || c == '*' || c == '+'
}

pub open spec fn trim_start_bullets(s: Seq<char>) -> Seq<char>
    decreases s.len(),
{
    if s.len() > 0 && is_bullet(s[0]) {
        trim_start_bullets(s.drop_first())
    } else {
        s
    }
}

/// A line whose entire content is one markdown link or one bare URL. A bare
/// URL is one whitespace-free word once the line is trimmed.
pub open spec fn is_link_only(line: Seq<char>) -> bool {
    let t = trim(trim_start_bullets(trim(line)));
    if starts_with(t, "http://"@) || starts_with(t, "https://"@) {
        forall|i: int| 0 <= i < t.len() ==> !is_ws(#[trigger] t[i])
    } else {
        starts_with(t, seq!['[']) && ends_with(t, seq![')']) && contains(t, pat_link_mid())
            && count_char(t, '[') == 1
    }
}

/// The state of the link-run scan after a prefix: lines kept so far, the
/// current run of link-only lines, and how many lines runs have dropped.
pub open spec fn link_scan(ls: Seq<Seq<char>>) -> (Seq<Seq<char>>, Seq<Seq<char>>, nat)
    decreases ls.len(),
{
    if ls.len() == 0 {
        (seq![], seq![], 0)
    } else {
        let prev = link_scan(ls.drop_last());
        let line = ls.last();
        if is_link_only(line) {
            (prev.0, prev.1.push(line), prev.2)
        } else {
            let f = flush(prev.0, prev.1, prev.2);
            (f.0.push(line), seq![], f.1)
        }
    }
}

/// A finished run: dropped when it is long enough, kept otherwise.
pub open spec fn flush(out: Seq<Seq<char>>, run: Seq<Seq<char>>, dropped: nat) -> (
    Seq<Seq<char>>,
    nat,
) {
    if run.len() >= LINK_RUN_MIN {
        (out, dropped + run.len())
    } else {
        (out + run, dropped)
    }
}

/// Lines with every run of three or more link-only lines removed, and how
/// many lines that removed.
pub open spec fn drop_link_runs(ls: Seq<Seq<char>>) -> (Seq<Seq<char>>, nat) {
    let st = link_scan(ls);
    flush(st.0, st.1, st.2)
}

// ---------------------------------------------------------------------------
// Blank runs
// ---------------------------------------------------------------------------

/// The blank-collapsing scan after a prefix: lines kept, the length of the
/// current blank run, and how many blank lines were dropped.
pub open spec fn blank_scan(ls: Seq<Seq<char>>) -> (Seq<Seq<char>>, nat, nat)
    decreases ls.len(),
{
    if ls.len() == 0 {
        (seq![], 0, 0)
    } else {
        let prev = blank_scan(ls.drop_last());
        let line = ls.last();
        if is_blank(line) {
            if prev.1 + 1 == 1 && prev.0.len() > 0 {
                (prev.0.push(seq![]), prev.1 + 1, prev.2)
            } else {
                (prev.0, prev.1 + 1, prev.2 + 1)
            }
        } else {
            (prev.0.push(line), 0, prev.2)
        }
    }
}

pub open spec fn newline() -> Seq<char> {
    seq!['\n']
}

/// The collapsed text and how many blank lines the collapse removed.
pub open spec fn collapse_blank_runs(ls: Seq<Seq<char>>) -> (Seq<char>, nat) {
    let st = blank_scan(ls);
    (trim(join(st.0, newline())), st.2)
}

// ---------------------------------------------------------------------------
// Drop counts
// ---------------------------------------------------------------------------

/// Add `n` to the entry for rule `id`, appending it when the rule has not
/// fired before; entries stay in first-fired order.
pub open spec fn bump(counts: Seq<(int, nat)>, id: int, n: nat) -> Seq<(int, nat)>
    decreases counts.len(),
{
    if counts.len() == 0 {
        seq![(id, n)]
    } else if counts[0].0 == id {
        counts.update(0, (id, counts[0].1 + n))
    } else {
        seq![counts[0]] + bump(counts.drop_first(), id, n)
    }
}

/// One count per rule that fired, in first-fired order.
pub open spec fn tally(ids: Seq<int>) -> Seq<(int, nat)>
    decreases ids.len(),
{
    if ids.len() == 0 {
        seq![]
    } else {
        bump(tally(ids.drop_last()), ids.last(), 1)
    }
}

/// The text `normalize` produces for a raw body.
pub open spec fn normalized_text(raw: Seq<char>) -> Seq<char> {
    let kept = line_pass(lines(raw)).0;
    collapse_blank_runs(drop_link_runs(kept).0).0
}

/// The drop record `normalize` produces for a raw body, as (rule id, lines).
pub open spec fn normalized_drops(raw: Seq<char>) -> Seq<(int, nat)> {
    let lp = line_pass(lines(raw));
    let c1 = tally(lp.1);
    let links = drop_link_runs(lp.0);
    let c2 = if links.1 > 0 {
        bump(c1, 4, links.1)
    } else {
        c1
    };
    let blanks = collapse_blank_runs(links.0).1;
    if blanks > 0 {
        bump(c2, 5, blanks)
    } else {
        c2
    }
}

pub open spec fn drop_view(d: DropCount) -> (Seq<char>, nat) {
    (d.rule@, d.lines as nat)
}

pub open spec fn named(counts: Seq<(int, nat)>) -> Seq<(Seq<char>, nat)> {
    counts.map_values(|c: (int, nat)| (rule_name(c.0), c.1))
}

impl Normalized {
    pub open spec fn drops_view(&self) -> Seq<(Seq<char>, nat)> {
        self.dropped@.map_values(|d: DropCount| drop_view(d))
    }
}

// ---------------------------------------------------------------------------
// Exec
// ---------------------------------------------------------------------------

fn bump_exec(counts: &mut Vec<(usize, usize)>, id: usize, n: usize)
    requires
        forall|i: int|
            0 <= i < counts_view(old(counts)@).len() && counts_view(old(counts)@)[i].0 == id as int
                ==> counts_view(old(counts)@)[i].1 + n <= usize::MAX,
    ensures
        counts_view(final(counts)@) == bump(counts_view(old(counts)@), id as int, n as nat),
{
    let ghost old_c = counts@;
    let mut i: usize = 0;
    proof {
        let v = counts_view(old_c);
        assert(v.skip(0) =~= v);
        assert(v.take(0) + bump(v, id as int, n as nat) =~= bump(v, id as int, n as nat));
    }
    while i < counts.len()
        invariant
            counts@ == old_c,
            old(counts)@ == old_c,
            i <= counts.len(),
            forall|j: int| 0 <= j < i ==> counts@[j].0 != id,
            forall|j: int|
                0 <= j < counts_view(old_c).len() && counts_view(old_c)[j].0 == id as int
                    ==> counts_view(old_c)[j].1 + n <= usize::MAX,
            bump(counts_view(old_c), id as int, n as nat) == counts_view(old_c).take(i as int)
                + bump(counts_view(old_c).skip(i as int), id as int, n as nat),
        decreases counts.len() - i,
    {
        let (cid, cn) = counts[i];
        if cid == id {
            let ghost v = counts_view(old_c);
            assert(v[i as int].0 == id as int);
            counts.set(i, (id, cn + n));
            proof {
                let w = v.skip(i as int);
                assert(w[0] == v[i as int]);
                assert(w[0].0 == id as int);
                assert(bump(w, id as int, n as nat) == w.update(0, (id as int, (w[0].1 + n) as nat)));
                assert(counts_view(counts@) =~= v.take(i as int) + w.update(
                    0,
                    (id as int, (v[i as int].1 + n) as nat),
                ));
                assert(counts_view(counts@) == bump(v, id as int, n as nat));
            }
            return;
        }
        proof {
            let v = counts_view(old_c);
            assert(v.skip(i as int) == seq![v[i as int]] + v.skip(i + 1));
            assert(v.skip(i as int).drop_first() == v.skip(i + 1));
            assert(v.take(i + 1) == v.take(i as int).push(v[i as int]));
        }
        i += 1;
    }
    counts.push((id, n));
    proof {
        let v = counts_view(old_c);
        assert(v.skip(i as int).len() == 0);
        assert(v.take(i as int) == v);
        assert(counts_view(counts@) =~= v + seq![(id as int, n as nat)]);
    }
}

pub open spec fn counts_view(c: Seq<(usize, usize)>) -> Seq<(int, nat)> {
    c.map_values(|p: (usize, usize)| (p.0 as int, p.1 as nat))
}


pub proof fn lemma_bump_entries(c: Seq<(int, nat)>, id: int, n: nat)
    ensures
        forall|j: int|
            0 <= j < bump(c, id, n).len() ==> bump_entry(c, id, n, #[trigger] bump(c, id, n)[j]),
    decreases c.len(),
{
    if c.len() == 0 {
        assert(bump_entry(c, id, n, bump(c, id, n)[0]));
    } else if c[0].0 == id {
        assert forall|j: int| 0 <= j < bump(c, id, n).len() implies bump_entry(
            c,
            id,
            n,
            #[trigger] bump(c, id, n)[j],
        ) by {
            let e = bump(c, id, n)[j];
            if j == 0 {
                assert(c[0].0 == id && e.1 == c[0].1 + n);
            } else {
                assert(c[j] == e);
            }
        }
    } else {
        lemma_bump_entries(c.drop_first(), id, n);
        let r = bump(c.drop_first(), id, n);
        assert(bump(c, id, n) == seq![c[0]] + r);
        assert forall|j: int| 0 <= j < bump(c, id, n).len() implies bump_entry(
            c,
            id,
            n,
            #[trigger] bump(c, id, n)[j],
        ) by {
            let e = bump(c, id, n)[j];
            if j == 0 {
                assert(c[0] == e);
            } else {
                assert(e == r[j - 1]);
                assert(bump_entry(c.drop_first(), id, n, r[j - 1]));
                if exists|k: int| 0 <= k < c.drop_first().len() && c.drop_first()[k] == e {
                    let k = choose|k: int| 0 <= k < c.drop_first().len() && c.drop_first()[k] == e;
                    assert(c[k + 1] == e);
                } else if e.1 != n {
                    let k = choose|k: int|
                        0 <= k < c.drop_first().len() && c.drop_first()[k].0 == id && e.1
                            == c.drop_first()[k].1 + n;
                    assert(c[k + 1] == c.drop_first()[k]);
                }
            }
        }
    }
}

/// An entry of `bump(c, id, n)` is an entry of `c`, or the bumped entry.
pub open spec fn bump_entry(c: Seq<(int, nat)>, id: int, n: nat, e: (int, nat)) -> bool {
    (exists|k: int| 0 <= k < c.len() && c[k] == e) || (e.0 == id && (e.1 == n || exists|k: int|
        0 <= k < c.len() && c[k].0 == id && e.1 == c[k].1 + n))
}

/// No rule has two entries.
pub open spec fn distinct_ids(c: Seq<(int, nat)>) -> bool {
    forall|i: int, j: int| 0 <= i < j < c.len() ==> c[i].0 != c[j].0
}

pub proof fn lemma_bump_distinct(c: Seq<(int, nat)>, id: int, n: nat)
    requires
        distinct_ids(c),
    ensures
        distinct_ids(bump(c, id, n)),
        forall|j: int|
            0 <= j < bump(c, id, n).len() ==> (#[trigger] bump(c, id, n)[j]).0 == id || exists|
                k: int,
            | 0 <= k < c.len() && c[k].0 == bump(c, id, n)[j].0,
    decreases c.len(),
{
    if c.len() == 0 {
    } else if c[0].0 == id {
        let b = bump(c, id, n);
        assert forall|j: int| 0 <= j < b.len() implies (#[trigger] b[j]).0 == id || exists|k: int|
            0 <= k < c.len() && c[k].0 == b[j].0 by {
            if j > 0 {
                assert(c[j].0 == b[j].0);
            }
        }
    } else {
        let r = c.drop_first();
        lemma_bump_distinct(r, id, n);
        let b = bump(c, id, n);
        assert(b == seq![c[0]] + bump(r, id, n));
        assert forall|j: int| 0 <= j < b.len() implies (#[trigger] b[j]).0 == id || exists|k: int|
            0 <= k < c.len() && c[k].0 == b[j].0 by {
            if j == 0 {
                assert(c[0].0 == b[0].0);
            } else {
                assert(b[j] == bump(r, id, n)[j - 1]);
                if b[j].0 != id {
                    let k = choose|k: int| 0 <= k < r.len() && r[k].0 == bump(r, id, n)[j - 1].0;
                    assert(c[k + 1].0 == b[j].0);
                }
            }
        }
        assert forall|i: int, j: int| 0 <= i < j < b.len() implies b[i].0 != b[j].0 by {
            if i == 0 {
                let br = bump(r, id, n);
                assert(b[j] == br[j - 1]);
                if br[j - 1].0 == id {
                } else {
                    let k = choose|k: int| 0 <= k < r.len() && r[k].0 == br[j - 1].0;
                    assert(c[k + 1].0 == br[j - 1].0);
                }
            } else {
                assert(b[i] == bump(r, id, n)[i - 1]);
                assert(b[j] == bump(r, id, n)[j - 1]);
            }
        }
    }
}

/// A record of distinct rule ids, each one of the six rules, has at most
/// six entries.
pub proof fn lemma_six_rules(c: Seq<(int, nat)>)
    requires
        distinct_ids(c),
        forall|j: int| 0 <= j < c.len() ==> 0 <= (#[trigger] c[j]).0 <= 5,
    ensures
        c.len() <= 6,
{
    let ids = c.map_values(|p: (int, nat)| p.0);
    assert(ids.no_duplicates()) by {
        assert forall|i: int, j: int| 0 <= i < ids.len() && 0 <= j < ids.len() && i != j implies ids[i]
            != ids[j] by {
            if i < j {
                assert(c[i].0 != c[j].0);
            } else {
                assert(c[j].0 != c[i].0);
            }
        }
    }
    ids.unique_seq_to_set();
    vstd::set_lib::lemma_int_range(0, 6);
    assert(ids.to_set().subset_of(vstd::set_lib::set_int_range(0, 6))) by {
        assert forall|x: int| ids.to_set().contains(x) implies vstd::set_lib::set_int_range(
            0,
            6,
        ).contains(x) by {
            let k = choose|k: int| 0 <= k < ids.len() && ids[k] == x;
            assert(c[k].0 == x);
        }
    }
    vstd::set_lib::lemma_len_subset(ids.to_set(), vstd::set_lib::set_int_range(0, 6));
}

/// Every tallied rule fired at least once and no count exceeds the number of
/// fired lines.
pub proof fn lemma_tally(ids: Seq<int>)
    ensures
        distinct_ids(tally(ids)),
        forall|j: int|
            0 <= j < tally(ids).len() ==> (#[trigger] tally(ids)[j]).1 <= ids.len() && exists|
                k: int,
            | 0 <= k < ids.len() && ids[k] == tally(ids)[j].0,
    decreases ids.len(),
{
    if ids.len() > 0 {
        let prev = ids.drop_last();
        lemma_tally(prev);
        lemma_bump_entries(tally(prev), ids.last(), 1);
        lemma_bump_distinct(tally(prev), ids.last(), 1);
        assert forall|j: int| 0 <= j < tally(ids).len() implies (#[trigger] tally(ids)[j]).1
            <= ids.len() && exists|k: int| 0 <= k < ids.len() && ids[k] == tally(ids)[j].0 by {
            let e = tally(ids)[j];
            let c = tally(prev);
            assert(bump_entry(c, ids.last(), 1, e));
            if exists|k: int| 0 <= k < c.len() && c[k] == e {
                let k = choose|k: int| 0 <= k < c.len() && c[k] == e;
                let m = choose|m: int| 0 <= m < prev.len() && prev[m] == c[k].0;
                assert(ids[m] == prev[m]);
            } else {
                assert(ids[ids.len() - 1] == e.0);
                if e.1 != 1 {
                    let k = choose|k: int| 0 <= k < c.len() && c[k].0 == e.0 && e.1 == c[k].1 + 1;
                    assert(c[k].1 <= prev.len());
                }
            }
        }
    }
}

fn copy(v: &Vec<char>) -> (r: Vec<char>)
    ensures
        r@ == v@,
{
    slice(v, 0, v.len())
}

pub open spec fn views(v: Seq<Vec<char>>) -> Seq<Seq<char>> {
    v.map_values(|x: Vec<char>| x@)
}

fn trim_start_bullets_exec(s: &Vec<char>) -> (r: Vec<char>)
    ensures
        r@ == trim_start_bullets(s@),
{
    let mut k: usize = 0;
    assert(s@.skip(0) == s@);
    while k < s.len() && (s[k] == '-' || s[k] == '*' || s[k] == '+')
        invariant
            k <= s.len(),
            trim_start_bullets(s@) == trim_start_bullets(s@.skip(k as int)),
        decreases s.len() - k,
    {
        assert(s@.skip(k as int).drop_first() == s@.skip(k + 1));
        k += 1;
    }
    let r = slice(s, k, s.len());
    assert(r@ == s@.skip(k as int));
    r
}

fn is_link_only_exec(line: &Vec<char>) -> (r: bool)
    ensures
        r == is_link_only(line@),
{
    let t = trim_exec(&trim_start_bullets_exec(&trim_exec(line)));
    if starts_with_exec(&t, &to_chars("http://")) || starts_with_exec(&t, &to_chars("https://")) {
        let mut i: usize = 0;
        while i < t.len()
            invariant
                i <= t.len(),
                t@ == trim(trim_start_bullets(trim(line@))),
                starts_with(t@, "http://"@) || starts_with(t@, "https://"@),
                forall|j: int| 0 <= j < i ==> !is_ws(#[trigger] t@[j]),
            decreases t.len() - i,
        {
            if is_whitespace(t[i]) {
                assert(is_ws(t@[i as int]));
                return false;
            }
            i += 1;
        }
        return true;
    }
    let open = one('[');
    let close = one(')');
    let mid = pattern(']', '(');
    starts_with_exec(&t, &open) && ends_with_exec(&t, &close) && contains_exec(&t, &mid)
        && count_char_exec(&t, '[') == 1
}

fn drop_link_runs_exec(ls: Vec<Vec<char>>) -> (r: (Vec<Vec<char>>, usize))
    ensures
        (views(r.0@), r.1 as nat) == drop_link_runs(views(ls@)),
{
    let mut out: Vec<Vec<char>> = Vec::new();
    let mut run: Vec<Vec<char>> = Vec::new();
    let mut dropped: usize = 0;
    let mut i: usize = 0;
    while i < ls.len()
        invariant
            i <= ls.len(),
            dropped + run@.len() <= i,
            (views(out@), views(run@), dropped as nat) == link_scan(views(ls@).take(i as int)),
        decreases ls.len() - i,
    {
        let line = copy(&ls[i]);
        proof {
            assert(views(ls@).take(i + 1).drop_last() == views(ls@).take(i as int));
            assert(views(ls@).take(i + 1).last() == ls@[i as int]@);
        }
        if is_link_only_exec(&line) {
            let ghost prev_run = run@;
            run.push(line);
            proof {
                assert(views(run@) =~= views(prev_run).push(ls@[i as int]@));
            }
        } else {
            if run.len() >= LINK_RUN_MIN {
                dropped = dropped + run.len();
            } else {
                let ghost before = out@;
                let mut j: usize = 0;
                while j < run.len()
                    invariant
                        j <= run.len(),
                        views(out@) == views(before) + views(run@).take(j as int),
                    decreases run.len() - j,
                {
                    let ghost prev_out = out@;
                    out.push(copy(&run[j]));
                    proof {
                        assert(views(out@) =~= views(prev_out).push(run@[j as int]@));
                        assert(views(run@).take(j + 1) == views(run@).take(j as int).push(
                            run@[j as int]@,
                        ));
                        assert(views(out@) =~= views(before) + views(run@).take(j + 1));
                    }
                    j += 1;
                }
                assert(views(run@).take(run.len() as int) == views(run@));
            }
            run = Vec::new();
            let ghost prev_out = out@;
            out.push(line);
            proof {
                assert(views(run@) =~= Seq::<Seq<char>>::empty());
                assert(views(out@) =~= views(prev_out).push(ls@[i as int]@));
            }
        }
        i += 1;
    }
    assert(views(ls@).take(ls.len() as int) == views(ls@));
    if run.len() >= LINK_RUN_MIN {
        dropped = dropped + run.len();
    } else {
        let ghost before = out@;
        let mut j: usize = 0;
        while j < run.len()
            invariant
                j <= run.len(),
                views(out@) == views(before) + views(run@).take(j as int),
            decreases run.len() - j,
        {
            let ghost prev_out = out@;
            out.push(copy(&run[j]));
            proof {
                assert(views(out@) =~= views(prev_out).push(run@[j as int]@));
                assert(views(run@).take(j + 1) == views(run@).take(j as int).push(
                    run@[j as int]@,
                ));
                assert(views(out@) =~= views(before) + views(run@).take(j + 1));
            }
            j += 1;
        }
        assert(views(run@).take(run.len() as int) == views(run@));
    }
    (out, dropped)
}



fn collapse_blank_runs_exec(ls: Vec<Vec<char>>) -> (r: (Vec<char>, usize))
    ensures
        (r.0@, r.1 as nat) == collapse_blank_runs(views(ls@)),
{
    let mut out: Vec<Vec<char>> = Vec::new();
    let mut blanks: usize = 0;
    let mut collapsed: usize = 0;
    let mut i: usize = 0;
    while i < ls.len()
        invariant
            i <= ls.len(),
            blanks <= i,
            collapsed <= i,
            (views(out@), blanks as nat, collapsed as nat) == blank_scan(
                views(ls@).take(i as int),
            ),
        decreases ls.len() - i,
    {
        let line = copy(&ls[i]);
        proof {
            assert(views(ls@).take(i + 1).drop_last() == views(ls@).take(i as int));
            assert(views(ls@).take(i + 1).last() == ls@[i as int]@);
        }
        let t = trim_exec(&line);
        let ghost prev_out = out@;
        if t.len() == 0 {
            blanks += 1;
            if blanks == 1 && out.len() > 0 {
                out.push(Vec::new());
                proof {
                    assert(views(out@) =~= views(prev_out).push(Seq::<char>::empty()));
                }
            } else {
                collapsed += 1;
            }
        } else {
            blanks = 0;
            out.push(line);
            proof {
                assert(views(out@) =~= views(prev_out).push(ls@[i as int]@));
            }
        }
        i += 1;
    }
    assert(views(ls@).take(ls.len() as int) == views(ls@));
    let nl = one('\n');
    let joined = join_exec(&out, &nl);
    assert(out@.map_values(|v: Vec<char>| v@) == views(out@));
    let text = trim_exec(&joined);
    (text, collapsed)
}

fn clean_line_exec(l: &Vec<char>) -> (r: Vec<char>)
    ensures
        r@ == clean_line(l@),
{
    decode_entities_exec(&strip_markup_exec(&drop_inline_noise(&trim_end_exec(l))))
}

fn clean_fully_exec(l: &Vec<char>) -> (r: Vec<char>)
    ensures
        r@ == clean_fully(l@),
{
    let mut cur = copy(l);
    let mut c = trim_exec(&clean_line_exec(&cur));
    while c.len() < cur.len()
        invariant
            clean_fully(cur@) == clean_fully(l@),
            c@ == clean_once(cur@),
        decreases cur.len(),
    {
        cur = c;
        c = trim_exec(&clean_line_exec(&cur));
    }
    c
}

/// Turn extractor output into the canonical markdown every downstream
/// consumer reads, recording how many lines each rule dropped. Normalizing
/// the result again changes nothing (`normalizing_twice_changes_nothing`).
pub fn normalize(raw: &str) -> (r: Normalized)
    ensures
        r.text@ == normalized_text(raw@),
        r.drops_view() == named(normalized_drops(raw@)),
        r.dropped@.len() <= 6,
{
    let chars = to_chars(raw);
    let ls = lines_exec(&chars);
    let ghost all = lines(raw@);
    assert(views(ls@) =~= all);
    let mut counts: Vec<(usize, usize)> = Vec::new();
    let mut kept: Vec<Vec<char>> = Vec::new();
    let ghost mut ids: Seq<int> = seq![];
    let mut i: usize = 0;
    while i < ls.len()
        invariant
            i <= ls.len(),
            views(ls@) == all,
            (views(kept@), ids) == line_pass(all.take(i as int)),
            counts_view(counts@) == tally(ids),
            ids.len() <= i,
            forall|k: int| 0 <= k < ids.len() ==> 0 <= #[trigger] ids[k] < 4,
        decreases ls.len() - i,
    {
        proof {
            assert(all.take(i + 1).drop_last() == all.take(i as int));
            assert(all.take(i + 1).last() == ls@[i as int]@);
            lemma_tally(ids);
        }
        let probe = clean_fully_exec(&ls[i]);
        let ghost prev_kept = kept@;
        if probe.len() == 0 {
            kept.push(Vec::new());
            proof {
                assert(views(kept@) =~= views(prev_kept).push(Seq::<char>::empty()));
            }
        } else {
            match first_rule_exec(&probe) {
                Some(id) => {
                    proof {
                        assert forall|j: int|
                            0 <= j < counts_view(counts@).len() && counts_view(counts@)[j].0
                                == id as int implies counts_view(counts@)[j].1 + 1
                            <= usize::MAX by {
                            assert(tally(ids)[j].1 <= ids.len());
                        }
                    }
                    bump_exec(&mut counts, id, 1);
                    proof {
                        let old_ids = ids;
                        ids = ids.push(id as int);
                        assert(ids.drop_last() == old_ids);
                        assert(tally(ids) == bump(tally(old_ids), id as int, 1));
                    }
                },
                None => {
                    kept.push(probe);
                    proof {
                        assert(views(kept@) =~= views(prev_kept).push(probe@));
                    }
                },
            }
        }
        i += 1;
    }
    assert(all.take(ls.len() as int) == all);
    proof {
        lemma_tally(ids);
    }
    let ghost kept_v = views(kept@);
    let (kept2, runs) = drop_link_runs_exec(kept);
    if runs > 0 {
        proof {
            assert forall|j: int|
                0 <= j < counts_view(counts@).len() && counts_view(counts@)[j].0
                    == 4 implies counts_view(counts@)[j].1 + runs <= usize::MAX by {
                let k = choose|k: int| 0 <= k < ids.len() && ids[k] == tally(ids)[j].0;
                assert(ids[k] < 4);
            }
        }
        bump_exec(&mut counts, 4, runs);
    }
    let ghost c2 = counts_view(counts@);
    proof {
        let c1 = tally(ids);
        if runs > 0 {
            lemma_bump_entries(c1, 4, runs as nat);
            lemma_bump_distinct(c1, 4, runs as nat);
        }
        assert forall|j: int| 0 <= j < c2.len() implies 0 <= (#[trigger] c2[j]).0 <= 4 by {
            if runs > 0 {
                assert(bump_entry(c1, 4, runs as nat, c2[j]));
                if exists|k: int| 0 <= k < c1.len() && c1[k] == c2[j] {
                    let k = choose|k: int| 0 <= k < c1.len() && c1[k] == c2[j];
                    let m = choose|m: int| 0 <= m < ids.len() && ids[m] == c1[k].0;
                    assert(ids[m] < 4);
                }
            } else {
                let m = choose|m: int| 0 <= m < ids.len() && ids[m] == c1[j].0;
                assert(ids[m] < 4);
            }
        }
    }
    let (text, blanks) = collapse_blank_runs_exec(kept2);
    if blanks > 0 {
        bump_exec(&mut counts, 5, blanks);
    }
    let ghost c3 = counts_view(counts@);
    proof {
        if blanks > 0 {
            lemma_bump_entries(c2, 5, blanks as nat);
            lemma_bump_distinct(c2, 5, blanks as nat);
        }
        assert forall|j: int| 0 <= j < c3.len() implies 0 <= (#[trigger] c3[j]).0 <= 5 by {
            if blanks > 0 {
                assert(bump_entry(c2, 5, blanks as nat, c3[j]));
                if exists|k: int| 0 <= k < c2.len() && c2[k] == c3[j] {
                    let k = choose|k: int| 0 <= k < c2.len() && c2[k] == c3[j];
                    assert(0 <= c2[k].0 <= 4);
                }
            } else {
                assert(0 <= c2[j].0 <= 4);
            }
        }
    }
    proof {
        lemma_six_rules(c3);
    }
    let mut dropped: Vec<DropCount> = Vec::new();
    let mut k: usize = 0;
    while k < counts.len()
        invariant
            k <= counts.len(),
            dropped@.len() == k,
            c3 == counts_view(counts@),
            forall|j: int| 0 <= j < c3.len() ==> 0 <= (#[trigger] c3[j]).0 <= 5,
            dropped@.map_values(|d: DropCount| drop_view(d)) == named(c3.take(k as int)),
        decreases counts.len() - k,
    {
        let (id, n) = counts[k];
        assert(c3[k as int].0 == id as int);
        let ghost prev = dropped@;
        dropped.push(DropCount { rule: rule_name_exec(id), lines: n });
        proof {
            assert(c3.take(k + 1) == c3.take(k as int).push(c3[k as int]));
            assert(dropped@ == prev.push(dropped@[k as int]));
            assert(drop_view(dropped@[k as int]) == (rule_name(id as int), n as nat));
            assert(named(c3.take(k + 1)) =~= named(c3.take(k as int)).push(
                (rule_name(c3[k as int].0), c3[k as int].1),
            ));
            assert(dropped@.map_values(|d: DropCount| drop_view(d)) =~= prev.map_values(
                |d: DropCount| drop_view(d),
            ).push(drop_view(dropped@[k as int])));
        }
        k += 1;
    }
    assert(c3.take(counts.len() as int) == c3);
    Normalized { text: to_string(&text), dropped }
}

// ---------------------------------------------------------------------------
// The report
// ---------------------------------------------------------------------------

pub open spec fn report_entry(d: (Seq<char>, nat)) -> Seq<char> {
    d.0 + ": "@ + decimal(d.1) + " line(s)"@
}

/// One line per rule that fired, or "nothing dropped".
pub open spec fn report_text(drops: Seq<(Seq<char>, nat)>) -> Seq<char> {
    if drops.len() == 0 {
        "nothing dropped"@
    } else {
        join(drops.map_values(|d: (Seq<char>, nat)| report_entry(d)), ", "@)
    }
}

impl Normalized {
    /// One entry per rule that fired, for the CLI and the re-run report.
    pub fn report(&self) -> (r: String)
        ensures
            r@ == report_text(self.drops_view()),
    {
        if self.dropped.len() == 0 {
            return "nothing dropped".to_string();
        }
        let ghost dv = self.drops_view();
        let mut parts: Vec<Vec<char>> = Vec::new();
        let mut i: usize = 0;
        while i < self.dropped.len()
            invariant
                i <= self.dropped.len(),
                parts@.len() == i,
                dv == self.drops_view(),
                parts@.map_values(|v: Vec<char>| v@) == dv.take(i as int).map_values(
                    |d: (Seq<char>, nat)| report_entry(d),
                ),
            decreases self.dropped.len() - i,
        {
            let d = &self.dropped[i];
            let mut entry = to_chars(d.rule);
            append(&mut entry, &to_chars(": "));
            append(&mut entry, &decimal_exec(d.lines as u128));
            append(&mut entry, &to_chars(" line(s)"));
            let ghost prev = parts@;
            parts.push(entry);
            proof {
                assert(dv[i as int] == drop_view(self.dropped@[i as int]));
                assert((d.lines as u128) as nat == d.lines as nat);
                assert(parts@[i as int]@ == report_entry(dv[i as int]));
                assert(parts@ == prev.push(parts@[i as int]));
                assert(parts@.map_values(|v: Vec<char>| v@) =~= prev.map_values(|v: Vec<char>| v@).push(
                    report_entry(dv[i as int]),
                ));
                assert(dv.take(i + 1) == dv.take(i as int).push(dv[i as int]));
                assert(parts@.map_values(|v: Vec<char>| v@) =~= dv.take(i + 1).map_values(
                    |d: (Seq<char>, nat)| report_entry(d),
                ));
            }
            i += 1;
        }
        assert(dv.take(self.dropped.len() as int) == dv);
        let sep = to_chars(", ");
        to_string(&join_exec(&parts, &sep))
    }
}

} // verus!
