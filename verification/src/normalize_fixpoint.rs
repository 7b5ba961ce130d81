//! Why normalizing normalized text changes nothing.
//!
//! A re-run over stored content is safe to repeat because the second pass
//! finds nothing left to do: every line it sees was kept by the first pass
//! (no rule fires on it), no run of link-only lines is long enough to drop,
//! and no blank run is left to collapse. Each kept line is already clean:
//! line cleaning repeats until a pass changes nothing, and it terminates
//! because every cleaning step that changes a line shortens it.

use vstd::prelude::*;
use crate::normalize::{
    blank_scan, collapse_blank_runs, drop_link_runs, first_rule, flush, is_link_only, line_pass,
    link_scan, newline, normalized_drops, normalized_text, tally, bump, LINK_RUN_MIN,
    clean_line, clean_once, clean_fully, decode_entities, decode_n, entity, inline_noise,
    skip_link_tail, strip_markup,
    strip_tags, lemma_skip_link_tail, pat_comment, pat_comment_end, pat_image, pat_link_mid,
    earliest,
};
use crate::text::{
    contains, lowercase, trim_nonalnum, is_blank, is_ws, join, lemma_char_pos_at, lemma_char_pos_none, starts_with,
    char_pos, find, lacks, lemma_char_pos, lemma_find_from_bounds, lines, replace_all, strip_cr,
    trim, trim_end, trim_start,
};

verus! {

// ---------------------------------------------------------------------------
// No cleaning step puts a line break into a line
// ---------------------------------------------------------------------------

proof fn lemma_lacks_skip(s: Seq<char>, c: char, i: int)
    requires
        lacks(s, c),
        0 <= i <= s.len(),
    ensures
        lacks(s.skip(i), c),
{
    assert forall|j: int| 0 <= j < s.skip(i).len() implies s.skip(i)[j] != c by {
        assert(s.skip(i)[j] == s[i + j]);
    }
}

proof fn lemma_lacks_take(s: Seq<char>, c: char, i: int)
    requires
        lacks(s, c),
        0 <= i <= s.len(),
    ensures
        lacks(s.take(i), c),
{
    assert forall|j: int| 0 <= j < s.take(i).len() implies s.take(i)[j] != c by {
        assert(s.take(i)[j] == s[j]);
    }
}

proof fn lemma_lacks_concat(a: Seq<char>, b: Seq<char>, c: char)
    requires
        lacks(a, c),
        lacks(b, c),
    ensures
        lacks(a + b, c),
{
    assert forall|j: int| 0 <= j < (a + b).len() implies (a + b)[j] != c by {
        if j < a.len() {
            assert((a + b)[j] == a[j]);
        } else {
            assert((a + b)[j] == b[j - a.len()]);
        }
    }
}

proof fn lemma_trim_lacks(s: Seq<char>, c: char)
    requires
        lacks(s, c),
    ensures
        lacks(trim_end(s), c),
        lacks(trim_start(s), c),
        lacks(trim(s), c),
    decreases s.len(),
{
    if s.len() > 0 {
        lemma_lacks_take(s, c, s.len() - 1);
        assert(s.drop_last() == s.take(s.len() - 1));
        lemma_lacks_skip(s, c, 1);
        assert(s.drop_first() == s.skip(1));
        lemma_trim_lacks(s.drop_last(), c);
        lemma_trim_lacks(s.drop_first(), c);
    }
    lemma_trim_start_lacks(s, c);
    lemma_trim_end_lacks(trim_start(s), c);
}

proof fn lemma_trim_start_lacks(s: Seq<char>, c: char)
    requires
        lacks(s, c),
    ensures
        lacks(trim_start(s), c),
    decreases s.len(),
{
    if s.len() > 0 {
        lemma_lacks_skip(s, c, 1);
        assert(s.drop_first() == s.skip(1));
        lemma_trim_start_lacks(s.drop_first(), c);
    }
}

proof fn lemma_trim_end_lacks(s: Seq<char>, c: char)
    requires
        lacks(s, c),
    ensures
        lacks(trim_end(s), c),
    decreases s.len(),
{
    if s.len() > 0 {
        lemma_lacks_take(s, c, s.len() - 1);
        assert(s.drop_last() == s.take(s.len() - 1));
        lemma_trim_end_lacks(s.drop_last(), c);
    }
}

proof fn lemma_skip_link_tail_lacks(s: Seq<char>, c: char)
    requires
        lacks(s, c),
    ensures
        lacks(skip_link_tail(s), c),
{
    lemma_find_from_bounds(s, seq![')'], 0);
    match find(s, seq![')']) {
        Some(e) => lemma_lacks_skip(s, c, e + 1),
        None => {},
    }
}

proof fn lemma_inline_noise_lacks(s: Seq<char>, c: char)
    requires
        lacks(s, c),
    ensures
        lacks(inline_noise(s), c),
    decreases s.len(),
{
    let hit = earliest(find(s, pat_comment()), find(s, pat_image()), find(s, pat_link_mid()));
    lemma_find_from_bounds(s, pat_comment(), 0);
    lemma_find_from_bounds(s, pat_image(), 0);
    lemma_find_from_bounds(s, pat_link_mid(), 0);
    match hit {
        None => {},
        Some(h) => {
            let at = h.0;
            if h.1 == 0 {
                lemma_lacks_take(s, c, at);
                lemma_lacks_skip(s, c, at);
                lemma_find_from_bounds(s.skip(at), pat_comment_end(), 0);
                match find(s.skip(at), pat_comment_end()) {
                    Some(e) => {
                        lemma_lacks_skip(s, c, at + e + 3);
                        lemma_inline_noise_lacks(s.skip(at + e + 3), c);
                        lemma_lacks_concat(s.take(at), inline_noise(s.skip(at + e + 3)), c);
                    },
                    None => {},
                }
            } else if h.1 == 1 {
                lemma_lacks_take(s, c, at);
                lemma_lacks_skip(s, c, at + 2);
                lemma_skip_link_tail(s.skip(at + 2));
                lemma_skip_link_tail_lacks(s.skip(at + 2), c);
                lemma_inline_noise_lacks(skip_link_tail(s.skip(at + 2)), c);
                lemma_lacks_concat(s.take(at), inline_noise(skip_link_tail(s.skip(at + 2))), c);
            } else if at >= 1 && s[at - 1] == '[' {
                lemma_lacks_take(s, c, at - 1);
                lemma_lacks_skip(s, c, at);
                lemma_skip_link_tail(s.skip(at));
                lemma_skip_link_tail_lacks(s.skip(at), c);
                lemma_inline_noise_lacks(skip_link_tail(s.skip(at)), c);
                lemma_lacks_concat(s.take(at - 1), inline_noise(skip_link_tail(s.skip(at))), c);
            } else {
                lemma_lacks_take(s, c, at + 2);
                lemma_lacks_skip(s, c, at + 2);
                lemma_inline_noise_lacks(s.skip(at + 2), c);
                lemma_lacks_concat(s.take(at + 2), inline_noise(s.skip(at + 2)), c);
            }
        },
    }
}

proof fn lemma_strip_tags_lacks(s: Seq<char>, depth: int, c: char)
    requires
        lacks(s, c),
    ensures
        lacks(strip_tags(s, depth), c),
    decreases s.len(),
{
    if s.len() > 0 {
        lemma_lacks_skip(s, c, 1);
        assert(s.drop_first() == s.skip(1));
        let r = s.drop_first();
        lemma_strip_tags_lacks(r, depth + 1, c);
        lemma_strip_tags_lacks(r, if depth > 0 { depth - 1 } else { 0 }, c);
        lemma_strip_tags_lacks(r, 0, c);
        lemma_strip_tags_lacks(r, depth, c);
        lemma_lacks_concat(seq![s[0]], strip_tags(r, 0), c);
    }
}

proof fn lemma_replace_all_lacks(s: Seq<char>, from: Seq<char>, to: Seq<char>, c: char)
    requires
        lacks(s, c),
        lacks(to, c),
    ensures
        lacks(replace_all(s, from, to), c),
    decreases s.len(),
{
    if from.len() > 0 {
        lemma_find_from_bounds(s, from, 0);
        match find(s, from) {
            None => {},
            Some(i) => {
                lemma_lacks_take(s, c, i);
                lemma_lacks_skip(s, c, i + from.len());
                lemma_replace_all_lacks(s.skip(i + from.len()), from, to, c);
                lemma_lacks_concat(s.take(i), to, c);
                lemma_lacks_concat(s.take(i) + to, replace_all(s.skip(i + from.len()), from, to), c);
            },
        }
    }
}

proof fn lemma_entities_lack_newline(k: int)
    requires
        0 <= k < 10,
    ensures
        lacks(entity(k).1, '\n'),
{
    reveal_strlit("&");
    reveal_strlit("'");
    reveal_strlit("\"");
    reveal_strlit(" ");
    reveal_strlit("<");
    reveal_strlit(">");
    reveal_strlit("…");
    reveal_strlit("—");
    reveal_strlit("–");
}

proof fn lemma_decode_n_lacks_newline(s: Seq<char>, n: nat)
    requires
        lacks(s, '\n'),
        n <= 10,
    ensures
        lacks(decode_n(s, n), '\n'),
    decreases n,
{
    if n > 0 {
        lemma_decode_n_lacks_newline(s, (n - 1) as nat);
        lemma_entities_lack_newline(n - 1);
        lemma_replace_all_lacks(decode_n(s, (n - 1) as nat), entity(n - 1).0, entity(n - 1).1, '\n');
    }
}

/// Cleaning a line never puts a line break into it.
pub proof fn lemma_clean_line_lacks_newline(l: Seq<char>)
    requires
        lacks(l, '\n'),
    ensures
        lacks(trim(clean_line(l)), '\n'),
{
    lemma_trim_end_lacks(l, '\n');
    lemma_inline_noise_lacks(trim_end(l), '\n');
    let a = inline_noise(trim_end(l));
    if crate::text::contains(a, seq!['<']) && crate::text::contains(a, seq!['>']) {
        lemma_strip_tags_lacks(a, 0, '\n');
    }
    lemma_decode_n_lacks_newline(strip_markup(a), 10);
    lemma_trim_lacks(clean_line(l), '\n');
}

/// The lines of a text hold no line break.
pub proof fn lemma_lines_lack_newline(s: Seq<char>)
    ensures
        forall|i: int| 0 <= i < lines(s).len() ==> lacks(#[trigger] lines(s)[i], '\n'),
    decreases s.len(),
{
    if s.len() > 0 {
        let p = char_pos(s, '\n', 0);
        lemma_char_pos(s, '\n', 0);
        if p < s.len() {
            lemma_lines_lack_newline(s.skip(p + 1));
            let first = strip_cr(s.take(p));
            assert(lacks(s.take(p), '\n'));
            if s.take(p).len() > 0 && s.take(p).last() == '\r' {
                lemma_lacks_take(s.take(p), '\n', p - 1);
                assert(s.take(p).drop_last() == s.take(p).take(p - 1));
            }
            assert(lacks(first, '\n'));
            let rest = lines(s.skip(p + 1));
            assert forall|i: int| 0 <= i < lines(s).len() implies lacks(#[trigger] lines(s)[i], '\n') by {
                if i == 0 {
                    assert(lines(s)[0] == first);
                } else {
                    assert(lines(s)[i] == rest[i - 1]);
                }
            }
        } else {
            assert(lacks(s, '\n'));
        }
    }
}

// ---------------------------------------------------------------------------
// What the line pass keeps
// ---------------------------------------------------------------------------

/// `trim_start` takes a suffix that is empty or starts with a non-space.
proof fn lemma_trim_start_shape(s: Seq<char>) -> (k: int)
    ensures
        0 <= k <= s.len(),
        trim_start(s) == s.skip(k),
        k == s.len() || !is_ws(s[k]),
    decreases s.len(),
{
    if s.len() > 0 && is_ws(s[0]) {
        let j = lemma_trim_start_shape(s.drop_first());
        assert(s.drop_first().skip(j) == s.skip(j + 1));
        j + 1
    } else {
        assert(s.skip(0) == s);
        0
    }
}

/// `trim_end` takes a prefix that is empty or ends with a non-space.
proof fn lemma_trim_end_shape(s: Seq<char>) -> (k: int)
    ensures
        0 <= k <= s.len(),
        trim_end(s) == s.take(k),
        k == 0 || !is_ws(s[k - 1]),
    decreases s.len(),
{
    if s.len() > 0 && is_ws(s.last()) {
        let j = lemma_trim_end_shape(s.drop_last());
        assert(s.drop_last().take(j) == s.take(j));
        j
    } else {
        assert(s.take(s.len() as int) == s);
        s.len() as int
    }
}

/// A text that is empty or neither starts nor ends with white space is its
/// own trim.
proof fn lemma_trim_fixed(s: Seq<char>)
    requires
        s.len() == 0 || (!is_ws(s[0]) && !is_ws(s.last())),
    ensures
        trim(s) == s,
        trim_start(s) == s,
        trim_end(s) == s,
{
    if s.len() > 0 {
        assert(trim_start(s) == s);
        assert(trim_end(s) == s);
    }
}

/// Trimming twice is trimming once.
proof fn lemma_trim_trimmed(s: Seq<char>)
    ensures
        trim(s).len() == 0 || (!is_ws(trim(s)[0]) && !is_ws(trim(s).last())),
        trim(trim(s)) == trim(s),
{
    let a = lemma_trim_start_shape(s);
    let t = s.skip(a);
    let b = lemma_trim_end_shape(t);
    let u = t.take(b);
    if b > 0 {
        assert(u[0] == t[0]);
        assert(u.last() == t[b - 1]);
    }
    lemma_trim_fixed(u);
}

/// A line the first pass keeps: an empty line, or a non-blank trimmed line
/// that no rule drops and that holds no line break.
pub open spec fn kept_line(l: Seq<char>) -> bool {
    l.len() == 0 || (trim(l) == l && (!is_ws(l[0]) && !is_ws(l.last())) && first_rule(l) is None
        && lacks(l, '\n') && clean_once(l) == l)
}

pub open spec fn all_kept(ls: Seq<Seq<char>>) -> bool {
    forall|i: int| 0 <= i < ls.len() ==> kept_line(#[trigger] ls[i])
}

proof fn lemma_empty_line()
    ensures
        !is_link_only(Seq::<char>::empty()),
        is_blank(Seq::<char>::empty()),
        trim(Seq::<char>::empty()) == Seq::<char>::empty(),
{
    reveal_strlit("http://");
    reveal_strlit("https://");
    assert(trim(Seq::<char>::empty()) =~= Seq::<char>::empty());
    assert(crate::normalize::trim_start_bullets(Seq::<char>::empty()) =~= Seq::<char>::empty());
}

proof fn lemma_kept_blank(l: Seq<char>)
    requires
        kept_line(l),
    ensures
        is_blank(l) <==> l.len() == 0,
        !is_link_only(l) || l.len() > 0,
{
    lemma_empty_line();
    if l.len() > 0 {
        assert(trim(l).len() > 0);
    } else {
        assert(l =~= Seq::<char>::empty());
    }
}

proof fn lemma_line_pass_kept(ls: Seq<Seq<char>>)
    requires
        forall|i: int| 0 <= i < ls.len() ==> lacks(#[trigger] ls[i], '\n'),
    ensures
        all_kept(line_pass(ls).0),
    decreases ls.len(),
{
    if ls.len() > 0 {
        let prev = ls.drop_last();
        assert forall|i: int| 0 <= i < prev.len() implies lacks(#[trigger] prev[i], '\n') by {
            assert(prev[i] == ls[i]);
        }
        lemma_line_pass_kept(prev);
        lemma_clean_fully(ls.last());
        let out = line_pass(ls).0;
        assert forall|i: int| 0 <= i < out.len() implies kept_line(#[trigger] out[i]) by {
            if i < line_pass(prev).0.len() {
                assert(out[i] == line_pass(prev).0[i]);
            }
        }
    }
}

// ---------------------------------------------------------------------------
// Runs of link-only lines
// ---------------------------------------------------------------------------

/// How many link-only lines end the sequence.
pub open spec fn trailing_links(s: Seq<Seq<char>>) -> nat
    decreases s.len(),
{
    if s.len() == 0 {
        0
    } else if is_link_only(s.last()) {
        trailing_links(s.drop_last()) + 1
    } else {
        0
    }
}

/// No prefix ends in a run of `LINK_RUN_MIN` link-only lines: no run is
/// long enough to drop.
pub open spec fn runs_ok(s: Seq<Seq<char>>) -> bool
    decreases s.len(),
{
    s.len() == 0 || (runs_ok(s.drop_last()) && trailing_links(s) < LINK_RUN_MIN)
}

proof fn lemma_append_short_run(out: Seq<Seq<char>>, run: Seq<Seq<char>>)
    requires
        runs_ok(out),
        trailing_links(out) == 0,
        forall|i: int| 0 <= i < run.len() ==> is_link_only(#[trigger] run[i]),
        run.len() < LINK_RUN_MIN,
    ensures
        runs_ok(out + run),
        trailing_links(out + run) == run.len(),
    decreases run.len(),
{
    if run.len() == 0 {
        assert(out + run =~= out);
    } else {
        let shorter = run.drop_last();
        lemma_append_short_run(out, shorter);
        assert((out + run).drop_last() =~= out + shorter);
        assert((out + run).last() == run.last());
    }
}

proof fn lemma_link_scan_shape(ls: Seq<Seq<char>>)
    requires
        all_kept(ls),
    ensures
        runs_ok(link_scan(ls).0),
        trailing_links(link_scan(ls).0) == 0,
        forall|i: int| 0 <= i < link_scan(ls).1.len() ==> is_link_only(#[trigger] link_scan(ls).1[i]),
        all_kept(link_scan(ls).0),
        all_kept(link_scan(ls).1),
    decreases ls.len(),
{
    if ls.len() > 0 {
        let prev = ls.drop_last();
        assert forall|i: int| 0 <= i < prev.len() implies kept_line(#[trigger] prev[i]) by {
            assert(prev[i] == ls[i]);
        }
        lemma_link_scan_shape(prev);
        let st = link_scan(prev);
        let line = ls.last();
        if !is_link_only(line) {
            let f = flush(st.0, st.1, st.2);
            if st.1.len() < LINK_RUN_MIN {
                lemma_append_short_run(st.0, st.1);
            }
            assert(all_kept(f.0)) by {
                assert forall|i: int| 0 <= i < f.0.len() implies kept_line(#[trigger] f.0[i]) by {
                    if st.1.len() < LINK_RUN_MIN && i >= st.0.len() {
                        assert(f.0[i] == st.1[i - st.0.len()]);
                    }
                }
            }
            let out = f.0.push(line);
            assert(out.drop_last() == f.0);
            assert forall|i: int| 0 <= i < out.len() implies kept_line(#[trigger] out[i]) by {
                if i < f.0.len() {
                    assert(out[i] == f.0[i]);
                }
            }
        } else {
            let run = st.1.push(line);
            assert forall|i: int| 0 <= i < run.len() implies kept_line(#[trigger] run[i]) && is_link_only(run[i]) by {
                if i < st.1.len() {
                    assert(run[i] == st.1[i]);
                }
            }
        }
    }
}

/// The lines `drop_link_runs` keeps: every one kept by the line pass, and no
/// run left long enough to drop.
proof fn lemma_drop_link_runs_shape(ls: Seq<Seq<char>>)
    requires
        all_kept(ls),
    ensures
        runs_ok(drop_link_runs(ls).0),
        all_kept(drop_link_runs(ls).0),
{
    lemma_link_scan_shape(ls);
    let st = link_scan(ls);
    if st.1.len() < LINK_RUN_MIN {
        lemma_append_short_run(st.0, st.1);
        let out = st.0 + st.1;
        assert forall|i: int| 0 <= i < out.len() implies kept_line(#[trigger] out[i]) by {
            if i >= st.0.len() {
                assert(out[i] == st.1[i - st.0.len()]);
            } else {
                assert(out[i] == st.0[i]);
            }
        }
    }
}

// ---------------------------------------------------------------------------
// Blank runs
// ---------------------------------------------------------------------------

/// No two blank lines side by side.
pub open spec fn single_blanks(s: Seq<Seq<char>>) -> bool {
    forall|i: int| 0 <= i < s.len() - 1 ==> !(is_blank(#[trigger] s[i]) && is_blank(s[i + 1]))
}

proof fn lemma_blank_scan_shape(ls: Seq<Seq<char>>)
    requires
        all_kept(ls),
        runs_ok(ls),
    ensures
        all_kept(blank_scan(ls).0),
        runs_ok(blank_scan(ls).0),
        trailing_links(blank_scan(ls).0) == trailing_links(ls),
        blank_scan(ls).0.len() > 0 ==> !is_blank(blank_scan(ls).0[0]),
        single_blanks(blank_scan(ls).0),
        blank_scan(ls).1 > 0 ==> (blank_scan(ls).0.len() == 0 || is_blank(blank_scan(ls).0.last())),
        blank_scan(ls).1 == 0 ==> (blank_scan(ls).0.len() == 0 || !is_blank(blank_scan(ls).0.last())),
    decreases ls.len(),
{
    if ls.len() > 0 {
        let prev = ls.drop_last();
        assert forall|i: int| 0 <= i < prev.len() implies kept_line(#[trigger] prev[i]) by {
            assert(prev[i] == ls[i]);
        }
        lemma_blank_scan_shape(prev);
        let st = blank_scan(prev);
        let line = ls.last();
        lemma_kept_blank(line);
        let out = blank_scan(ls).0;
        if is_blank(line) {
            lemma_empty_line();
            assert(!is_link_only(line));
            assert(trailing_links(ls) == 0);
            if st.1 + 1 == 1 && st.0.len() > 0 {
                assert(out == st.0.push(seq![]));
                assert(out.drop_last() == st.0);
                assert(trailing_links(out) == 0);
                assert forall|i: int| 0 <= i < out.len() implies kept_line(#[trigger] out[i]) by {
                    if i < st.0.len() {
                        assert(out[i] == st.0[i]);
                    }
                }
                assert forall|i: int| 0 <= i < out.len() - 1 implies !(is_blank(#[trigger] out[i]) && is_blank(out[i + 1])) by {
                    if i < out.len() - 2 {
                        assert(out[i] == st.0[i]);
                        assert(out[i + 1] == st.0[i + 1]);
                    } else {
                        assert(out[i] == st.0.last());
                    }
                }
                assert(out[0] == st.0[0]);
            } else {
                assert(out == st.0);
                if st.0.len() > 0 {
                    assert(kept_line(st.0[st.0.len() - 1]));
                    lemma_kept_blank(st.0.last());
                }
                assert(trailing_links(out) == 0);
            }
        } else {
            assert(out == st.0.push(line));
            assert(out.drop_last() == st.0);
            assert(trailing_links(out) == trailing_links(ls)) by {
                if is_link_only(line) {
                    assert(trailing_links(st.0) == trailing_links(prev));
                }
            }
            assert forall|i: int| 0 <= i < out.len() implies kept_line(#[trigger] out[i]) by {
                if i < st.0.len() {
                    assert(out[i] == st.0[i]);
                }
            }
            assert forall|i: int| 0 <= i < out.len() - 1 implies !(is_blank(#[trigger] out[i]) && is_blank(out[i + 1])) by {
                if i < out.len() - 2 {
                    assert(out[i] == st.0[i]);
                    assert(out[i + 1] == st.0[i + 1]);
                } else {
                    assert(out[i + 1] == line);
                }
            }
            if st.0.len() > 0 {
                assert(out[0] == st.0[0]);
            }
        }
    }
}

// ---------------------------------------------------------------------------
// The text the first pass writes, read back as lines
// ---------------------------------------------------------------------------

/// The collapsed lines, without the blank line a collapse can leave last.
pub open spec fn collapsed_lines(d: Seq<Seq<char>>) -> Seq<Seq<char>> {
    let b = blank_scan(d).0;
    if b.len() > 0 && is_blank(b.last()) {
        b.drop_last()
    } else {
        b
    }
}

proof fn lemma_join_cons(a: Seq<char>, rest: Seq<Seq<char>>, sep: Seq<char>)
    requires
        rest.len() >= 1,
    ensures
        join(seq![a] + rest, sep) == a + sep + join(rest, sep),
    decreases rest.len(),
{
    let s = seq![a] + rest;
    assert(s.len() >= 2);
    assert(join(s, sep) == join(s.drop_last(), sep) + sep + s.last());
    if rest.len() == 1 {
        assert(s.drop_last() =~= seq![a]);
        assert(join(seq![a], sep) == a);
        assert(s.last() == rest[0]);
        assert(join(rest, sep) == rest[0]);
    } else {
        lemma_join_cons(a, rest.drop_last(), sep);
        assert(s.drop_last() =~= seq![a] + rest.drop_last());
        assert(s.last() == rest.last());
        assert(join(rest, sep) == join(rest.drop_last(), sep) + sep + rest.last());
        assert(a + sep + join(rest.drop_last(), sep) + sep + rest.last() =~= a + sep + (join(
            rest.drop_last(),
            sep,
        ) + sep + rest.last()));
    }
}

pub open spec fn plain_line(l: Seq<char>) -> bool {
    lacks(l, '\n') && strip_cr(l) == l
}

/// Lines joined with line breaks read back as the same lines, when none of
/// them holds a break or ends in a carriage return and the last is not
/// empty.
proof fn lemma_lines_of_join(s: Seq<Seq<char>>)
    requires
        s.len() >= 1,
        forall|i: int| 0 <= i < s.len() ==> plain_line(#[trigger] s[i]),
        s.last().len() > 0,
    ensures
        lines(join(s, newline())) == s,
    decreases s.len(),
{
    if s.len() == 1 {
        assert(join(s, newline()) == s[0]);
        assert(plain_line(s[0]));
        lemma_char_pos_none(s[0], '\n', 0);
        assert(lines(s[0]) == seq![strip_cr(s[0])] || lines(s[0]) == seq![s[0]]);
        assert(lines(s[0]) =~= s);
    } else {
        let rest = s.skip(1);
        assert(s =~= seq![s[0]] + rest);
        lemma_join_cons(s[0], rest, newline());
        assert forall|i: int| 0 <= i < rest.len() implies plain_line(#[trigger] rest[i]) by {
            assert(rest[i] == s[i + 1]);
        }
        assert(rest.last() == s.last());
        lemma_lines_of_join(rest);
        let j = join(s, newline());
        let a = s[0];
        assert(plain_line(a));
        assert(j == a + newline() + join(rest, newline()));
        assert(j[a.len() as int] == '\n');
        assert forall|k: int| 0 <= k < a.len() implies j[k] != '\n' by {
            assert(j[k] == a[k]);
        }
        lemma_char_pos_at(j, '\n', 0, a.len() as int);
        assert(j.take(a.len() as int) =~= a);
        assert(j.skip(a.len() + 1int) =~= join(rest, newline()));
        assert(lines(j) == seq![strip_cr(a)] + lines(join(rest, newline())));
    }
}

proof fn lemma_join_ends(s: Seq<Seq<char>>, sep: Seq<char>)
    requires
        s.len() >= 1,
        s[0].len() > 0,
        s.last().len() > 0,
    ensures
        join(s, sep).len() > 0,
        join(s, sep)[0] == s[0][0],
        join(s, sep).last() == s.last().last(),
{
    if s.len() == 1 {
        assert(join(s, sep) == s[0]);
    } else {
        let rest = s.skip(1);
        assert(s =~= seq![s[0]] + rest);
        lemma_join_cons(s[0], rest, sep);
        assert(join(s, sep) == join(s.drop_last(), sep) + sep + s.last());
    }
}

proof fn lemma_kept_plain(l: Seq<char>)
    requires
        kept_line(l),
    ensures
        plain_line(l),
{
    if l.len() > 0 {
        assert(is_ws('\r'));
    }
}

/// What a collapse leaves: kept lines, no run to drop, no doubled blank,
/// no blank at either end, and written as exactly the text those lines
/// join to.
proof fn lemma_collapsed(d: Seq<Seq<char>>)
    requires
        all_kept(d),
        runs_ok(d),
    ensures
        collapse_blank_runs(d).0 == join(collapsed_lines(d), newline()),
        all_kept(collapsed_lines(d)),
        runs_ok(collapsed_lines(d)),
        single_blanks(collapsed_lines(d)),
        collapsed_lines(d).len() > 0 ==> !is_blank(collapsed_lines(d)[0]) && !is_blank(
            collapsed_lines(d).last(),
        ),
        collapsed_lines(d).len() > 0 ==> lines(join(collapsed_lines(d), newline())) == collapsed_lines(d),
{
    lemma_blank_scan_shape(d);
    let b = blank_scan(d).0;
    let c = collapsed_lines(d);
    lemma_empty_line();
    if b.len() > 0 && is_blank(b.last()) {
        assert(c == b.drop_last());
        assert forall|i: int| 0 <= i < c.len() implies kept_line(#[trigger] c[i]) by {
            assert(c[i] == b[i]);
        }
        assert forall|i: int| 0 <= i < c.len() - 1 implies !(is_blank(#[trigger] c[i]) && is_blank(c[i + 1])) by {
            assert(c[i] == b[i]);
            assert(c[i + 1] == b[i + 1]);
        }
        if c.len() > 0 {
            assert(c[0] == b[0]);
            assert(c.last() == b[b.len() - 2]);
            assert(!(is_blank(b[b.len() - 2]) && is_blank(b[b.len() - 1])));
        }
    }
    if c.len() == 0 {
        assert(b.len() == 0);
        assert(join(b, newline()) =~= Seq::<char>::empty());
        assert(join(c, newline()) =~= Seq::<char>::empty());
    } else {
        assert(kept_line(c[0]));
        assert(kept_line(c[c.len() - 1]));
        lemma_kept_blank(c[0]);
        lemma_kept_blank(c.last());
        lemma_join_ends(c, newline());
        let j = join(c, newline());
        lemma_trim_fixed(j);
        if b.len() > 0 && is_blank(b.last()) {
            assert(kept_line(b[b.len() - 1]));
            lemma_kept_blank(b.last());
            assert(b.last() =~= Seq::<char>::empty());
            assert(b =~= c.push(Seq::<char>::empty()));
            assert(b.drop_last() == c);
            assert(join(b, newline()) == j + newline() + Seq::<char>::empty());
            let jb = j + newline() + Seq::<char>::empty();
            assert(jb[0] == j[0]);
            assert(trim_start(jb) == jb);
            assert(jb.drop_last() =~= j);
            assert(is_ws(jb.last()));
            assert(trim_end(jb) == trim_end(j));
        }
        assert forall|i: int| 0 <= i < c.len() implies plain_line(#[trigger] c[i]) by {
            lemma_kept_plain(c[i]);
        }
        lemma_lines_of_join(c);
    }
}


// ---------------------------------------------------------------------------
// Every cleaning step that changes a line shortens it
// ---------------------------------------------------------------------------

/// `y` is `x`, or shorter.
pub open spec fn shrinks(y: Seq<char>, x: Seq<char>) -> bool {
    y.len() <= x.len() && (y.len() == x.len() ==> y == x)
}

proof fn lemma_trim_end_shrinks(s: Seq<char>)
    ensures
        shrinks(trim_end(s), s),
    decreases s.len(),
{
    if s.len() > 0 && is_ws(s.last()) {
        lemma_trim_end_shrinks(s.drop_last());
    }
}

proof fn lemma_trim_start_shrinks(s: Seq<char>)
    ensures
        shrinks(trim_start(s), s),
    decreases s.len(),
{
    if s.len() > 0 && is_ws(s[0]) {
        lemma_trim_start_shrinks(s.drop_first());
    }
}

proof fn lemma_trim_shrinks(s: Seq<char>)
    ensures
        shrinks(trim(s), s),
{
    lemma_trim_start_shrinks(s);
    lemma_trim_end_shrinks(trim_start(s));
}

proof fn lemma_skip_link_tail_shrinks(s: Seq<char>)
    ensures
        skip_link_tail(s).len() <= s.len(),
{
    lemma_skip_link_tail(s);
}

proof fn lemma_inline_noise_shrinks(rest: Seq<char>)
    ensures
        shrinks(inline_noise(rest), rest),
    decreases rest.len(),
{
    let hit = earliest(
        find(rest, pat_comment()),
        find(rest, pat_image()),
        find(rest, pat_link_mid()),
    );
    lemma_find_from_bounds(rest, pat_comment(), 0);
    lemma_find_from_bounds(rest, pat_image(), 0);
    lemma_find_from_bounds(rest, pat_link_mid(), 0);
    match hit {
        None => {},
        Some(h) => {
            let at = h.0;
            if h.1 == 0 {
                match find(rest.skip(at), pat_comment_end()) {
                    Some(e) => {
                        lemma_find_from_bounds(rest.skip(at), pat_comment_end(), 0);
                        lemma_inline_noise_shrinks(rest.skip(at + e + 3));
                    },
                    None => {},
                }
            } else if h.1 == 1 {
                lemma_skip_link_tail_shrinks(rest.skip(at + 2));
                lemma_inline_noise_shrinks(skip_link_tail(rest.skip(at + 2)));
            } else if at >= 1 && rest[at - 1] == '[' {
                lemma_skip_link_tail_shrinks(rest.skip(at));
                lemma_inline_noise_shrinks(skip_link_tail(rest.skip(at)));
            } else {
                lemma_inline_noise_shrinks(rest.skip(at + 2));
                if inline_noise(rest).len() == rest.len() {
                    assert(rest.take(at + 2) + rest.skip(at + 2) =~= rest);
                }
            }
        },
    }
}

proof fn lemma_strip_tags_shrinks(s: Seq<char>, depth: int, j: int)
    requires
        0 <= j < s.len(),
        s[j] == '<',
    ensures
        strip_tags(s, depth).len() < s.len(),
    decreases s.len(),
{
    lemma_strip_tags_len(s.drop_first(), if s[0] == '<' {
        depth + 1
    } else if s[0] == '>' {
        if depth > 0 {
            depth - 1
        } else {
            0
        }
    } else if depth == 0 {
        0
    } else {
        depth
    });
    if j > 0 && s[0] != '<' {
        let d2 = if s[0] == '>' {
            if depth > 0 {
                depth - 1
            } else {
                0
            }
        } else if depth == 0 {
            0
        } else {
            depth
        };
        assert(s.drop_first()[j - 1] == '<');
        lemma_strip_tags_shrinks(s.drop_first(), d2, j - 1);
    }
}

proof fn lemma_strip_tags_len(s: Seq<char>, depth: int)
    ensures
        strip_tags(s, depth).len() <= s.len(),
    decreases s.len(),
{
    if s.len() > 0 {
        lemma_strip_tags_len(s.drop_first(), depth + 1);
        lemma_strip_tags_len(s.drop_first(), 0);
        lemma_strip_tags_len(s.drop_first(), depth - 1);
        lemma_strip_tags_len(s.drop_first(), depth);
    }
}

proof fn lemma_strip_markup_shrinks(s: Seq<char>)
    ensures
        shrinks(strip_markup(s), s),
{
    if crate::text::contains(s, seq!['<']) && crate::text::contains(s, seq!['>']) {
        lemma_find_from_bounds(s, seq!['<'], 0);
        let j = find(s, seq!['<'])->0;
        assert(s.subrange(j, j + 1)[0] == s[j]);
        lemma_strip_tags_shrinks(s, 0, j);
    }
}

proof fn lemma_replace_all_shrinks(s: Seq<char>, from: Seq<char>, to: Seq<char>)
    requires
        from.len() > to.len(),
    ensures
        shrinks(replace_all(s, from, to), s),
    decreases s.len(),
{
    match find(s, from) {
        None => {},
        Some(i) => {
            lemma_find_from_bounds(s, from, 0);
            lemma_replace_all_shrinks(s.skip(i + from.len()), from, to);
        },
    }
}

proof fn lemma_entities_shrink(k: int)
    requires
        0 <= k < 10,
    ensures
        entity(k).0.len() > entity(k).1.len(),
{
    reveal_strlit("&amp;");
    reveal_strlit("&");
    reveal_strlit("&apos;");
    reveal_strlit("'");
    reveal_strlit("&quot;");
    reveal_strlit("\"");
    reveal_strlit("&nbsp;");
    reveal_strlit(" ");
    reveal_strlit("&lt;");
    reveal_strlit("<");
    reveal_strlit("&gt;");
    reveal_strlit(">");
    reveal_strlit("&#39;");
    reveal_strlit("&hellip;");
    reveal_strlit("…");
    reveal_strlit("&mdash;");
    reveal_strlit("—");
    reveal_strlit("&ndash;");
    reveal_strlit("–");
}

proof fn lemma_decode_n_shrinks(s: Seq<char>, n: nat)
    requires
        n <= 10,
    ensures
        shrinks(decode_n(s, n), s),
    decreases n,
{
    if n > 0 {
        lemma_decode_n_shrinks(s, (n - 1) as nat);
        lemma_entities_shrink(n - 1);
        lemma_replace_all_shrinks(decode_n(s, (n - 1) as nat), entity(n - 1).0, entity(n - 1).1);
    }
}

/// One cleaning pass leaves a line as it is or shortens it.
pub proof fn lemma_clean_once_shrinks(l: Seq<char>)
    ensures
        shrinks(clean_once(l), l),
{
    lemma_trim_end_shrinks(l);
    let a = trim_end(l);
    lemma_inline_noise_shrinks(a);
    let b = inline_noise(a);
    lemma_strip_markup_shrinks(b);
    let c = strip_markup(b);
    if crate::text::contains(c, seq!['&']) {
        lemma_decode_n_shrinks(c, 10);
    }
    lemma_trim_shrinks(decode_entities(c));
}

/// A fully cleaned line is trimmed, holds no line break, and a further pass
/// leaves it as it is.
pub proof fn lemma_clean_fully(l: Seq<char>)
    requires
        lacks(l, '\n'),
    ensures
        clean_once(clean_fully(l)) == clean_fully(l),
        lacks(clean_fully(l), '\n'),
        trim(clean_fully(l)) == clean_fully(l),
        clean_fully(l).len() == 0 || (!is_ws(clean_fully(l)[0]) && !is_ws(clean_fully(l).last())),
    decreases l.len(),
{
    let c = clean_once(l);
    lemma_clean_line_lacks_newline(l);
    lemma_trim_trimmed(clean_line(l));
    lemma_clean_once_shrinks(l);
    if c.len() < l.len() {
        lemma_clean_fully(c);
    } else {
        assert(c == l);
    }
}

// ---------------------------------------------------------------------------
// The second pass
// ---------------------------------------------------------------------------

/// A line already as clean as cleaning makes it.
pub open spec fn clean_already(l: Seq<char>) -> bool {
    is_blank(l) || clean_fully(l) == l
}

proof fn lemma_clean_empty()
    ensures
        trim(clean_line(Seq::<char>::empty())) == Seq::<char>::empty(),
{
    let e = Seq::<char>::empty();
    assert(trim_end(e) == e);
    assert(find(e, pat_comment()) is None);
    assert(find(e, pat_image()) is None);
    assert(find(e, pat_link_mid()) is None);
    assert(inline_noise(e) == e);
    assert(!crate::text::contains(e, seq!['<'])) by {
        crate::text::lemma_contains_iff(e, seq!['<']);
    }
    assert(strip_markup(e) == e);
    assert(!crate::text::contains(e, seq!['&'])) by {
        crate::text::lemma_contains_iff(e, seq!['&']);
    }
    assert(decode_entities(e) == e);
    lemma_empty_line();
}

proof fn lemma_line_pass_fixed(ls: Seq<Seq<char>>)
    requires
        all_kept(ls),
        forall|i: int| 0 <= i < ls.len() ==> clean_already(#[trigger] ls[i]),
    ensures
        line_pass(ls) == (ls, Seq::<int>::empty()),
    decreases ls.len(),
{
    if ls.len() > 0 {
        let prev = ls.drop_last();
        assert forall|i: int| 0 <= i < prev.len() implies kept_line(#[trigger] prev[i]) && clean_already(prev[i]) by {
            assert(prev[i] == ls[i]);
        }
        lemma_line_pass_fixed(prev);
        let l = ls.last();
        assert(kept_line(ls[ls.len() - 1]));
        assert(clean_already(ls[ls.len() - 1]));
        lemma_kept_blank(l);
        if l.len() == 0 {
            lemma_clean_empty();
            assert(l =~= Seq::<char>::empty());
            assert(clean_fully(l) == clean_once(l));
            assert(prev.push(seq![]) =~= ls);
        } else {
            assert(prev.push(l) =~= ls);
        }
    }
}

proof fn lemma_trailing_below(s: Seq<Seq<char>>)
    requires
        runs_ok(s),
    ensures
        trailing_links(s) < LINK_RUN_MIN,
{
}

proof fn lemma_link_scan_fixed(ls: Seq<Seq<char>>)
    requires
        runs_ok(ls),
    ensures
        link_scan(ls).0 + link_scan(ls).1 == ls,
        link_scan(ls).1.len() == trailing_links(ls),
        link_scan(ls).2 == 0,
    decreases ls.len(),
{
    if ls.len() > 0 {
        let prev = ls.drop_last();
        lemma_link_scan_fixed(prev);
        lemma_trailing_below(prev);
        let st = link_scan(prev);
        let line = ls.last();
        if is_link_only(line) {
            assert(st.0 + st.1.push(line) =~= (st.0 + st.1).push(line));
            assert(prev.push(line) =~= ls);
        } else {
            assert(flush(st.0, st.1, st.2) == (st.0 + st.1, 0nat));
            assert(st.0 + st.1 == prev);
            assert(prev.push(line) + Seq::<Seq<char>>::empty() =~= ls);
        }
    }
}

proof fn lemma_drop_link_runs_fixed(ls: Seq<Seq<char>>)
    requires
        runs_ok(ls),
    ensures
        drop_link_runs(ls) == (ls, 0nat),
{
    lemma_link_scan_fixed(ls);
    lemma_trailing_below(ls);
}

proof fn lemma_blank_scan_fixed(ls: Seq<Seq<char>>)
    requires
        all_kept(ls),
        single_blanks(ls),
        ls.len() > 0 ==> !is_blank(ls[0]),
    ensures
        blank_scan(ls).0 == ls,
        blank_scan(ls).2 == 0,
        blank_scan(ls).1 == (if ls.len() > 0 && is_blank(ls.last()) { 1nat } else { 0nat }),
    decreases ls.len(),
{
    if ls.len() > 0 {
        let prev = ls.drop_last();
        assert forall|i: int| 0 <= i < prev.len() implies kept_line(#[trigger] prev[i]) by {
            assert(prev[i] == ls[i]);
        }
        assert forall|i: int| 0 <= i < prev.len() - 1 implies !(is_blank(#[trigger] prev[i]) && is_blank(prev[i + 1])) by {
            assert(prev[i] == ls[i]);
            assert(prev[i + 1] == ls[i + 1]);
        }
        if prev.len() > 0 {
            assert(prev[0] == ls[0]);
        }
        lemma_blank_scan_fixed(prev);
        let l = ls.last();
        assert(kept_line(ls[ls.len() - 1]));
        lemma_kept_blank(l);
        if is_blank(l) {
            assert(ls.len() >= 2);
            assert(prev.last() == ls[ls.len() - 2]);
            assert(!(is_blank(ls[ls.len() - 2]) && is_blank(ls[ls.len() - 1])));
            assert(l =~= Seq::<char>::empty());
            assert(prev.push(seq![]) =~= ls);
        } else {
            assert(prev.push(l) =~= ls);
        }
    }
}

/// Normalizing normalized text changes nothing and drops nothing, on every
/// input: a re-run over stored content is safe to repeat.
pub proof fn normalizing_twice_changes_nothing(raw: Seq<char>)
    ensures
        normalized_text(normalized_text(raw)) == normalized_text(raw),
        normalized_drops(normalized_text(raw)) == Seq::<(int, nat)>::empty(),
{
    let ls = lines(raw);
    lemma_lines_lack_newline(raw);
    lemma_line_pass_kept(ls);
    let k = line_pass(ls).0;
    lemma_drop_link_runs_shape(k);
    let d = drop_link_runs(k).0;
    lemma_collapsed(d);
    let c = collapsed_lines(d);
    let t = normalized_text(raw);
    assert(t == join(c, newline()));
    if c.len() == 0 {
        assert(t =~= Seq::<char>::empty());
        assert(lines(t) =~= Seq::<Seq<char>>::empty());
        assert(line_pass(lines(t)) == (Seq::<Seq<char>>::empty(), Seq::<int>::empty()));
        assert(link_scan(Seq::<Seq<char>>::empty()) == (Seq::<Seq<char>>::empty(), Seq::<Seq<char>>::empty(), 0nat));
        assert(blank_scan(Seq::<Seq<char>>::empty()) == (Seq::<Seq<char>>::empty(), 0nat, 0nat));
        assert(join(Seq::<Seq<char>>::empty(), newline()) =~= Seq::<char>::empty());
        lemma_empty_line();
    } else {
        assert(lines(t) == c);
        assert forall|i: int| 0 <= i < c.len() implies clean_already(#[trigger] c[i]) by {
            assert(kept_line(c[i]));
            if c[i].len() > 0 {
                assert(clean_once(c[i]) == c[i]);
                assert(clean_fully(c[i]) == clean_once(c[i]));
            } else {
                lemma_empty_line();
                assert(c[i] =~= Seq::<char>::empty());
            }
        }
        lemma_line_pass_fixed(c);
        lemma_drop_link_runs_fixed(c);
        lemma_blank_scan_fixed(c);
        lemma_join_ends(c, newline());
        assert(kept_line(c[0]));
        assert(kept_line(c[c.len() - 1]));
        lemma_kept_blank(c[0]);
        lemma_kept_blank(c.last());
        lemma_trim_fixed(t);
        assert(collapse_blank_runs(c).0 == trim(join(c, newline())));
    }
    assert(tally(Seq::<int>::empty()) == Seq::<(int, nat)>::empty());
}


/// Every line of a normalized text is a line the first pass kept.
proof fn lemma_output_lines_kept(raw: Seq<char>)
    ensures
        all_kept(lines(normalized_text(raw))),
{
    let ls = lines(raw);
    lemma_lines_lack_newline(raw);
    lemma_line_pass_kept(ls);
    let k = line_pass(ls).0;
    lemma_drop_link_runs_shape(k);
    let d = drop_link_runs(k).0;
    lemma_collapsed(d);
    let c = collapsed_lines(d);
    let t = normalized_text(raw);
    assert(t == join(c, newline()));
    if c.len() == 0 {
        assert(t =~= Seq::<char>::empty());
        assert(lines(t) =~= Seq::<Seq<char>>::empty());
    } else {
        assert(lines(t) == c);
    }
}

/// No boilerplate survives normalization: a non-blank line of the output
/// short enough to be boilerplate (at most 120 characters) is none of a
/// cookie notice, a newsletter prompt, a share widget or a navigation label.
/// Lowered, it does not name cookies or consent together with accepting,
/// agreeing, settings, preferences or "we use"; it holds no "newsletter",
/// "subscribe to our", "sign up for" or "jetzt abonnieren" and does not start
/// with "subscribe"; it does not start with "share", hold "share on ",
/// "share this" or "teilen auf", or read "copy link"; and stripped of
/// surrounding punctuation it is no bare navigation label.
pub proof fn no_boilerplate_line_survives(raw: Seq<char>, i: int)
    requires
        0 <= i < lines(normalized_text(raw)).len(),
        lines(normalized_text(raw))[i].len() > 0,
        lines(normalized_text(raw))[i].len() <= 120,
    ensures
        ({
            let low = lowercase(lines(normalized_text(raw))[i]);
            &&& !((contains(low, "cookie"@) || contains(low, "consent"@)) && (contains(low, "accept"@)
                || contains(low, "agree"@) || contains(low, "settings"@) || contains(
                low,
                "preferences"@,
            ) || contains(low, "we use"@) || contains(low, "akzeptieren"@) || contains(
                low,
                "einstellungen"@,
            )))
            &&& !contains(low, "newsletter"@)
            &&& !starts_with(low, "subscribe"@)
            &&& !contains(low, "subscribe to our"@)
            &&& !contains(low, "sign up for"@)
            &&& !contains(low, "jetzt abonnieren"@)
            &&& !starts_with(low, "share"@)
            &&& !contains(low, "share on "@)
            &&& !contains(low, "share this"@)
            &&& low != "copy link"@
            &&& !contains(low, "teilen auf"@)
        }),
        ({
            let bare = trim_nonalnum(lowercase(lines(normalized_text(raw))[i]));
            &&& bare != "home"@ && bare != "menu"@ && bare != "search"@
            &&& bare != "skip to content"@ && bare != "skip to main content"@
            &&& bare != "toggle navigation"@ && bare != "back to top"@ && bare != "main menu"@
            &&& bare != "close"@ && bare != "log in"@ && bare != "sign in"@
            &&& bare != "startseite"@ && bare != "zum inhalt springen"@
        }),
{
    lemma_output_lines_kept(raw);
    let l = lines(normalized_text(raw))[i];
    assert(kept_line(l));
    assert(first_rule(l) is None);
}

} // verus!
