//! The bounded relevance sweep: which items a pass re-scores, which it only
//! re-evaluates, and how far through the corpus it has come.
//!
//! The sweep's progress is kept in one text column as
//! `mode|completed|revision:end`: the mode the last pass ran in, the
//! relevance revision a whole pass last completed under, and how far the
//! chain of pages under the current revision has reached.

use vstd::prelude::*;
use crate::text::{
    append, char_pos, decimal, lacks, lemma_char_pos_at, lemma_char_pos_none, decimal_exec, digit_char, is_blank, slice, split_char,
    split_char_exec, str_eq, string_views, to_chars, to_string, trim_exec,
};

verus! {

/// The sweep's progress record.
pub struct PassCursor {
    pub mode: String,
    pub completed: String,
    pub progress_revision: String,
    pub progress_end: usize,
}

pub type CursorView = (Seq<char>, Seq<char>, Seq<char>, nat);

impl PassCursor {
    pub open spec fn view(&self) -> CursorView {
        (self.mode@, self.completed@, self.progress_revision@, self.progress_end as nat)
    }
}

// ---------------------------------------------------------------------------
// Reading and writing the record
// ---------------------------------------------------------------------------

pub open spec fn is_digit(c: char) -> bool {
    '0' <= c && c <= '9'
}

pub open spec fn digit_value(c: char) -> nat {
    (c as int - '0' as int) as nat
}

/// The value of a string of decimal digits.
pub open spec fn digits_value(s: Seq<char>) -> nat
    decreases s.len(),
{
    if s.len() == 0 {
        0
    } else {
        digits_value(s.drop_last()) * 10 + digit_value(s.last())
    }
}

pub open spec fn all_digits(s: Seq<char>) -> bool {
    forall|i: int| 0 <= i < s.len() ==> is_digit(#[trigger] s[i])
}

/// `str::parse::<usize>`: an optional `+`, then one or more digits, within
/// range.
pub open spec fn parse_usize(s: Seq<char>) -> Option<nat> {
    let body = if s.len() > 0 && s[0] == '+' {
        s.drop_first()
    } else {
        s
    };
    if body.len() > 0 && all_digits(body) && digits_value(body) <= usize::MAX {
        Some(digits_value(body))
    } else {
        None
    }
}

/// The index of the last `c` in `s`.
pub open spec fn rfind_char(s: Seq<char>, c: char) -> Option<int>
    decreases s.len(),
{
    if s.len() == 0 {
        None
    } else if s.last() == c {
        Some(s.len() - 1)
    } else {
        rfind_char(s.drop_last(), c)
    }
}

pub open spec fn part(ps: Seq<Seq<char>>, i: int) -> Seq<char> {
    if 0 <= i < ps.len() {
        ps[i]
    } else {
        Seq::<char>::empty()
    }
}

/// The record a stored cursor text holds. Missing parts read as empty, an
/// unreadable end as zero.
pub open spec fn cursor_of(raw: Seq<char>) -> CursorView {
    let ps = split_char(raw, '|');
    let progress = part(ps, 2);
    match rfind_char(progress, ':') {
        Some(k) => (
            part(ps, 0),
            part(ps, 1),
            progress.take(k),
            match parse_usize(progress.skip(k + 1)) {
                Some(n) => n,
                None => 0,
            },
        ),
        None => (part(ps, 0), part(ps, 1), Seq::<char>::empty(), 0),
    }
}

/// The text a record is stored as.
pub open spec fn cursor_text(c: CursorView) -> Seq<char> {
    c.0 + "|"@ + c.1 + "|"@ + c.2 + ":"@ + decimal(c.3)
}

fn rfind_char_exec(s: &Vec<char>, c: char) -> (r: Option<usize>)
    ensures
        match r {
            Some(k) => rfind_char(s@, c) == Some(k as int) && k < s@.len(),
            None => rfind_char(s@, c) is None,
        },
{
    let mut k: usize = s.len();
    assert(s@.take(k as int) =~= s@);
    while k > 0
        invariant
            k <= s@.len(),
            rfind_char(s@, c) == rfind_char(s@.take(k as int), c),
        decreases k,
    {
        assert(s@.take(k as int).last() == s@[k - 1]);
        assert(s@.take(k as int).drop_last() =~= s@.take(k - 1));
        if s[k - 1] == c {
            return Some(k - 1);
        }
        k -= 1;
    }
    None
}

proof fn lemma_digits_value_step(s: Seq<char>, i: int)
    requires
        0 <= i < s.len(),
    ensures
        digits_value(s.take(i + 1)) == digits_value(s.take(i)) * 10 + digit_value(s[i]),
{
    assert(s.take(i + 1).drop_last() =~= s.take(i));
}

proof fn lemma_digits_value_grows(s: Seq<char>, i: int, j: int)
    requires
        0 <= i <= j <= s.len(),
    ensures
        digits_value(s.take(i)) <= digits_value(s.take(j)),
    decreases j - i,
{
    if i < j {
        lemma_digits_value_grows(s, i, j - 1);
        lemma_digits_value_step(s, j - 1);
    }
}

/// `str::parse::<usize>`.
pub fn parse_usize_exec(s: &Vec<char>) -> (r: Option<usize>)
    ensures
        match r {
            Some(n) => parse_usize(s@) == Some(n as nat),
            None => parse_usize(s@) is None,
        },
{
    let body = if s.len() > 0 && s[0] == '+' {
        slice(s, 1, s.len())
    } else {
        s.clone()
    };
    assert(s@.len() > 0 && s@[0] == '+' ==> body@ =~= s@.drop_first());
    if body.len() == 0 {
        return None;
    }
    let mut v: usize = 0;
    let mut i: usize = 0;
    assert(body@.take(0) =~= Seq::<char>::empty());
    while i < body.len()
        invariant
            i <= body@.len(),
            body@.len() > 0,
            body@ == (if s@.len() > 0 && s@[0] == '+' {
                s@.drop_first()
            } else {
                s@
            }),
            v as nat == digits_value(body@.take(i as int)),
            all_digits(body@.take(i as int)),
        decreases body.len() - i,
    {
        let c = body[i];
        if !('0' <= c && c <= '9') {
            proof {
                assert(!is_digit(body@[i as int]));
            }
            return None;
        }
        let d: usize = (c as u32 - '0' as u32) as usize;
        proof {
            lemma_digits_value_step(body@, i as int);
            assert(d as nat == digit_value(c));
        }
        if v > (usize::MAX - d) / 10 {
            proof {
                assert(v * 10 + d > usize::MAX) by (nonlinear_arith)
                    requires
                        v > (usize::MAX - d) / 10,
                        d <= 9,
                ;
                lemma_digits_value_grows(body@, i + 1, body@.len() as int);
                assert(body@.take(body@.len() as int) =~= body@);
            }
            return None;
        }
        assert(v * 10 + d <= usize::MAX) by (nonlinear_arith)
            requires
                v <= (usize::MAX - d) / 10,
                d <= 9,
        ;
        v = v * 10 + d;
        assert(all_digits(body@.take(i + 1))) by {
            assert forall|j: int| 0 <= j < i + 1 implies is_digit(#[trigger] body@.take(i + 1)[j]) by {
                if j < i {
                    assert(body@.take(i + 1)[j] == body@.take(i as int)[j]);
                }
            }
        }
        i += 1;
    }
    assert(body@.take(body@.len() as int) =~= body@);
    Some(v)
}

impl PassCursor {
    /// Read a stored cursor text; no text reads as an empty record.
    pub fn parse(cursor: Option<&str>) -> (r: PassCursor)
        ensures
            r.view() == cursor_of(
                match cursor {
                    Some(c) => c@,
                    None => Seq::<char>::empty(),
                },
            ),
    {
        let raw = match cursor {
            Some(c) => to_chars(c),
            None => Vec::new(),
        };
        let ps = split_char_exec(&raw, '|');
        let ghost sp = split_char(raw@, '|');
        let mode = if ps.len() > 0 {
            to_string(&ps[0])
        } else {
            String::new()
        };
        let completed = if ps.len() > 1 {
            to_string(&ps[1])
        } else {
            String::new()
        };
        let progress = if ps.len() > 2 {
            ps[2].clone()
        } else {
            Vec::new()
        };
        assert(progress@ == part(sp, 2));
        assert(mode@ == part(sp, 0));
        assert(completed@ == part(sp, 1));
        match rfind_char_exec(&progress, ':') {
            Some(k) => {
                let rev = slice(&progress, 0, k);
                let tail = slice(&progress, k + 1, progress.len());
                assert(rev@ =~= progress@.take(k as int));
                assert(tail@ =~= progress@.skip(k + 1));
                let end = match parse_usize_exec(&tail) {
                    Some(n) => n,
                    None => 0,
                };
                PassCursor { mode, completed, progress_revision: to_string(&rev), progress_end: end }
            },
            None => PassCursor { mode, completed, progress_revision: String::new(), progress_end: 0 },
        }
    }

    /// The text this record is stored as: `mode|completed|revision:end`.
    pub fn render(&self) -> (r: String)
        ensures
            r@ == cursor_text(self.view()),
    {
        let mut out = to_chars(self.mode.as_str());
        append(&mut out, &to_chars("|"));
        append(&mut out, &to_chars(self.completed.as_str()));
        append(&mut out, &to_chars("|"));
        append(&mut out, &to_chars(self.progress_revision.as_str()));
        append(&mut out, &to_chars(":"));
        append(&mut out, &decimal_exec(self.progress_end as u128));
        to_string(&out)
    }
}

// ---------------------------------------------------------------------------
// The round trip
// ---------------------------------------------------------------------------

proof fn lemma_split_lacking(s: Seq<char>, c: char)
    requires
        lacks(s, c),
    ensures
        split_char(s, c) == seq![s],
{
    lemma_char_pos_none(s, c, 0);
}

proof fn lemma_split_first(x: Seq<char>, c: char, y: Seq<char>)
    requires
        lacks(x, c),
    ensures
        split_char(x + seq![c] + y, c) == seq![x] + split_char(y, c),
{
    let s = x + seq![c] + y;
    lemma_char_pos_at(s, c, 0, x.len() as int);
    assert(s.take(x.len() as int) =~= x);
    assert(s.skip(x.len() + 1int) =~= y);
}

proof fn lemma_rfind_last(x: Seq<char>, c: char, t: Seq<char>)
    requires
        lacks(t, c),
    ensures
        rfind_char(x + seq![c] + t, c) == Some(x.len() as int),
    decreases t.len(),
{
    if t.len() == 0 {
        assert(x + seq![c] + t =~= x.push(c));
    } else {
        let s = x + seq![c] + t;
        assert(s.drop_last() =~= x + seq![c] + t.drop_last());
        lemma_rfind_last(x, c, t.drop_last());
    }
}

proof fn lemma_digit_char(d: nat)
    requires
        d < 10,
    ensures
        is_digit(digit_char(d)),
        digit_value(digit_char(d)) == d,
        digit_char(d) != '|',
        digit_char(d) != ':',
        digit_char(d) != '+',
{
}

proof fn lemma_decimal_reads_back(n: nat)
    ensures
        all_digits(decimal(n)),
        digits_value(decimal(n)) == n,
        decimal(n).len() > 0,
        lacks(decimal(n), '|'),
        lacks(decimal(n), ':'),
        decimal(n)[0] != '+',
    decreases n,
{
    if n < 10 {
        lemma_digit_char(n);
        assert(decimal(n).drop_last() =~= Seq::<char>::empty());
        assert(decimal(n).last() == digit_char(n));
        assert(digits_value(decimal(n)) == digits_value(Seq::<char>::empty()) * 10 + digit_value(digit_char(n)));
    } else {
        lemma_decimal_reads_back(n / 10);
        lemma_digit_char(n % 10);
        let d = decimal(n);
        assert(d.drop_last() =~= decimal(n / 10));
        assert(d.last() == digit_char(n % 10));
        assert(digits_value(d) == digits_value(decimal(n / 10)) * 10 + digit_value(digit_char(n % 10)));
        assert(n == (n / 10) * 10 + n % 10);
        assert forall|i: int| 0 <= i < d.len() implies is_digit(#[trigger] d[i]) && d[i] != '|' && d[i] != ':' by {
            if i < d.len() - 1 {
                assert(d[i] == decimal(n / 10)[i]);
            }
        }
        assert(d[0] == decimal(n / 10)[0]);
    }
}

/// Reading back what was written gives the same record, as long as the
/// mode and the two revisions hold no `|`.
pub proof fn cursor_round_trip(c: CursorView)
    requires
        lacks(c.0, '|'),
        lacks(c.1, '|'),
        lacks(c.2, '|'),
        c.3 <= usize::MAX,
    ensures
        cursor_of(cursor_text(c)) == c,
{
    reveal_strlit("|");
    reveal_strlit(":");
    lemma_decimal_reads_back(c.3);
    let num = decimal(c.3);
    let tail = c.2 + seq![':'] + num;
    assert(lacks(tail, '|')) by {
        assert forall|i: int| 0 <= i < tail.len() implies tail[i] != '|' by {
            if i < c.2.len() {
                assert(tail[i] == c.2[i]);
            } else if i > c.2.len() {
                assert(tail[i] == num[i - c.2.len() - 1]);
            }
        }
    }
    let rest = c.1 + seq!['|'] + tail;
    assert(cursor_text(c) =~= c.0 + seq!['|'] + rest);
    lemma_split_first(c.0, '|', rest);
    lemma_split_first(c.1, '|', tail);
    lemma_split_lacking(tail, '|');
    let ps = split_char(cursor_text(c), '|');
    assert(ps =~= seq![c.0, c.1, tail]);
    lemma_rfind_last(c.2, ':', num);
    assert(tail.take(c.2.len() as int) =~= c.2);
    assert(tail.skip(c.2.len() + 1int) =~= num);
}

// ---------------------------------------------------------------------------
// One pass
// ---------------------------------------------------------------------------

/// A refresh request's window: days back (90 when unset, 1 to 3650),
/// page size (200 when unset, 1 to 500) and offset (0 when unset).
pub open spec fn refresh_window(days: Option<i32>, limit: Option<usize>, offset: Option<usize>) -> Result<(i32, usize, usize), Seq<char>> {
    let d = match days {
        Some(v) => v,
        None => 90,
    };
    let l = match limit {
        Some(v) => v,
        None => 200,
    };
    if d < 1 || d > 3650 {
        Err("days must be between 1 and 3650"@)
    } else if l < 1 || l > 500 {
        Err("limit must be between 1 and 500"@)
    } else {
        Ok(
            (
                d,
                l,
                match offset {
                    Some(o) => o,
                    None => 0,
                },
            ),
        )
    }
}

pub fn refresh_params(days: Option<i32>, limit: Option<usize>, offset: Option<usize>) -> (r: Result<(i32, usize, usize), String>)
    ensures
        match refresh_window(days, limit, offset) {
            Ok(w) => r == Ok::<(i32, usize, usize), String>(w),
            Err(e) => r is Err && r->Err_0@ == e,
        },
{
    let d = match days {
        Some(v) => v,
        None => 90,
    };
    let l = match limit {
        Some(v) => v,
        None => 200,
    };
    if d < 1 || d > 3650 {
        return Err(to_string(&to_chars("days must be between 1 and 3650")));
    }
    if l < 1 || l > 500 {
        return Err(to_string(&to_chars("limit must be between 1 and 500")));
    }
    Ok(
        (
            d,
            l,
            match offset {
                Some(o) => o,
                None => 0,
            },
        ),
    )
}

/// What a pass does with one item.
#[derive(Debug, Clone, Copy, PartialEq, Eq, Structural)]
pub enum Route {
    /// The class ladder refuses it: scored by neither path, its stored
    /// matches cleared.
    Refused,
    /// Embedded and scored again.
    Rescore,
    /// Re-evaluated from its stored matches, with no model call.
    Reevaluate,
    /// Already current.
    Current,
}

/// What is known of one item when a pass routes it.
#[derive(Debug, Clone, Copy, PartialEq, Eq, Structural)]
pub struct ItemState {
    /// The class ladder admits it to a local prompt.
    pub allowed: bool,
    /// It has stored matches.
    pub has_matches: bool,
    /// Its best stored match was scored lexically.
    pub first_match_lexical: bool,
    /// A stored evaluation exists for its current content revision.
    pub evaluation_matches_content: bool,
    /// Its stored evaluation is current for this context.
    pub evaluation_current: bool,
}

/// An item is re-scored when forced, when the vector space moved, when it
/// has no stored matches, when its content changed, or when its matches are
/// lexical while an embedding role answers; else re-evaluated unless
/// current.
pub open spec fn route_of(item: ItemState, force: bool, vector_space_moved: bool, semantic_available: bool) -> Route {
    if !item.allowed {
        Route::Refused
    } else if force || vector_space_moved || !item.has_matches || !item.evaluation_matches_content
        || (item.first_match_lexical && semantic_available) {
        Route::Rescore
    } else if !item.evaluation_current {
        Route::Reevaluate
    } else {
        Route::Current
    }
}

/// How a pass routes an item. A refused item is always `Refused`, and only a
/// refused one is. An admitted item is embedded and scored again whenever the
/// pass is forced, the vector space moved, it has no stored matches, its
/// stored evaluation is for another content revision, or its matches are
/// lexical while an embedding role answers; each of these alone is enough.
/// Only an admitted item with stored matches, an evaluation of its current
/// content, and none of those reasons is spared a model call: it is skipped
/// when its evaluation is current and re-evaluated otherwise.
pub proof fn how_an_item_is_routed(
    item: ItemState,
    force: bool,
    vector_space_moved: bool,
    semantic_available: bool,
)
    ensures
        (route_of(item, force, vector_space_moved, semantic_available) == Route::Refused)
            <==> !item.allowed,
        item.allowed && force ==> route_of(item, force, vector_space_moved, semantic_available)
            == Route::Rescore,
        item.allowed && vector_space_moved ==> route_of(
            item,
            force,
            vector_space_moved,
            semantic_available,
        ) == Route::Rescore,
        item.allowed && !item.has_matches ==> route_of(
            item,
            force,
            vector_space_moved,
            semantic_available,
        ) == Route::Rescore,
        item.allowed && !item.evaluation_matches_content ==> route_of(
            item,
            force,
            vector_space_moved,
            semantic_available,
        ) == Route::Rescore,
        item.allowed && item.first_match_lexical && semantic_available ==> route_of(
            item,
            force,
            vector_space_moved,
            semantic_available,
        ) == Route::Rescore,
        (route_of(item, force, vector_space_moved, semantic_available) == Route::Reevaluate
            || route_of(item, force, vector_space_moved, semantic_available) == Route::Current)
            ==> item.allowed && !force && !vector_space_moved && item.has_matches
            && item.evaluation_matches_content && !(item.first_match_lexical
            && semantic_available),
        (route_of(item, force, vector_space_moved, semantic_available) == Route::Current) ==> item.evaluation_current,
        (route_of(item, force, vector_space_moved, semantic_available) == Route::Reevaluate) ==> !item.evaluation_current,
{
}

pub fn route(item: ItemState, force: bool, vector_space_moved: bool, semantic_available: bool) -> (r: Route)
    ensures
        r == route_of(item, force, vector_space_moved, semantic_available),
{
    if !item.allowed {
        Route::Refused
    } else if force || vector_space_moved || !item.has_matches || !item.evaluation_matches_content
        || (item.first_match_lexical && semantic_available) {
        Route::Rescore
    } else if !item.evaluation_current {
        Route::Reevaluate
    } else {
        Route::Current
    }
}

/// A refused item is never scored, however the pass is forced.
pub proof fn a_refused_item_is_never_scored(item: ItemState, force: bool, moved: bool, semantic: bool)
    requires
        !item.allowed,
    ensures
        route_of(item, force, moved, semantic) == Route::Refused,
{
}

/// A forced pass re-scores every admitted item.
pub proof fn force_rescores_every_admitted_item(item: ItemState, moved: bool, semantic: bool)
    requires
        item.allowed,
    ensures
        route_of(item, true, moved, semantic) == Route::Rescore,
{
}

/// The cursor after a pass over a page. Only a page that continues the
/// chain (the first page, or the one starting where the chain under this
/// revision ended) extends it, and only a chain that reached the end marks
/// the corpus done. A pass over named ids leaves progress alone.
pub open spec fn advanced(
    c: CursorView,
    requested_ids: bool,
    offset: nat,
    considered: nat,
    has_more: bool,
    revision: Seq<char>,
    mode: Seq<char>,
) -> CursorView {
    let extends = !requested_ids && (offset == 0 || (c.2 == revision && c.3 == offset));
    if !extends {
        (mode, c.1, c.2, c.3)
    } else if has_more {
        (mode, c.1, revision, offset + considered)
    } else {
        (mode, revision, Seq::<char>::empty(), 0)
    }
}

impl PassCursor {
    /// Record a pass over a page: `mode` is what the pass ran in.
    pub fn advance(
        &mut self,
        requested_ids: bool,
        offset: usize,
        considered: usize,
        has_more: bool,
        revision: &str,
        mode: &str,
    )
        requires
            offset + considered <= usize::MAX,
        ensures
            final(self).view() == advanced(
                old(self).view(),
                requested_ids,
                offset as nat,
                considered as nat,
                has_more,
                revision@,
                mode@,
            ),
    {
        if !requested_ids {
            let extends = offset == 0 || (str_eq(self.progress_revision.as_str(), revision)
                && self.progress_end == offset);
            if extends {
                self.progress_revision = to_string(&to_chars(revision));
                self.progress_end = offset + considered;
                if !has_more {
                    self.completed = to_string(&to_chars(revision));
                    self.progress_revision = String::new();
                    self.progress_end = 0;
                }
            }
        }
        self.mode = to_string(&to_chars(mode));
    }
}

/// Whether a page may hold more: only an unnamed page that came back full.
pub fn has_more(requested_ids: bool, returned: usize, limit: usize) -> (r: bool)
    ensures
        r == (!requested_ids && returned == limit),
{
    !requested_ids && returned == limit
}

/// The named ids the store did not return, in the order they were named.
pub fn missing_ids(requested: &Vec<String>, found: &Vec<String>) -> (r: Vec<String>)
    ensures
        string_views(r@) == string_views(requested@).filter(|id: Seq<char>| !string_views(found@).contains(id)),
{
    let ghost req = string_views(requested@);
    let ghost keep = |id: Seq<char>| !string_views(found@).contains(id);
    let mut out: Vec<String> = Vec::new();
    let mut i: usize = 0;
    while i < requested.len()
        invariant
            i <= requested@.len(),
            req == string_views(requested@),
            keep == (|id: Seq<char>| !string_views(found@).contains(id)),
            string_views(out@) == req.take(i as int).filter(keep),
        decreases requested.len() - i,
    {
        let ghost prev = out@;
        let mut seen = false;
        let mut k: usize = 0;
        while k < found.len()
            invariant
                k <= found@.len(),
                i < requested@.len(),
                seen <==> exists|m: int| 0 <= m < k && (#[trigger] found@[m])@ == requested@[i as int]@,
            decreases found.len() - k,
        {
            if str_eq(found[k].as_str(), requested[i].as_str()) {
                seen = true;
            }
            k += 1;
        }
        proof {
            reveal_with_fuel(Seq::<_>::filter, 1);
            assert(req.take(i + 1).drop_last() == req.take(i as int));
            assert(req.take(i + 1).last() == req[i as int]);
            assert(req[i as int] == requested@[i as int]@);
            if seen {
                let m = choose|m: int| 0 <= m < found@.len() && (#[trigger] found@[m])@ == requested@[i as int]@;
                assert(string_views(found@)[m] == requested@[i as int]@);
            } else {
                if string_views(found@).contains(requested@[i as int]@) {
                    let m = choose|m: int| 0 <= m < string_views(found@).len() && string_views(found@)[m] == requested@[i as int]@;
                    assert(found@[m]@ == requested@[i as int]@);
                }
            }
        }
        if !seen {
            out.push(to_string(&to_chars(requested[i].as_str())));
            assert(string_views(out@) =~= string_views(prev).push(requested@[i as int]@));
        }
        i += 1;
    }
    assert(req.take(requested@.len() as int) == req);
    out
}

/// The strongest ranking mode the configured roles can deliver right now.
pub open spec fn active_mode_of(relevance_reachable: bool, reranking_reachable: bool) -> Seq<char> {
    if relevance_reachable && reranking_reachable {
        "reranked"@
    } else if relevance_reachable {
        "semantic"@
    } else {
        "lexical"@
    }
}

pub fn active_mode(relevance_reachable: bool, reranking_reachable: bool) -> (r: &'static str)
    ensures
        r@ == active_mode_of(relevance_reachable, reranking_reachable),
{
    if relevance_reachable && reranking_reachable {
        "reranked"
    } else if relevance_reachable {
        "semantic"
    } else {
        "lexical"
    }
}

/// Whether the local-inference capacity alert is raised: a threshold is
/// set and the abort streak reached it.
pub fn capacity_alerting(alert_after: i64, consecutive_aborts: i64) -> (r: bool)
    ensures
        r == (alert_after > 0 && consecutive_aborts >= alert_after),
{
    alert_after > 0 && consecutive_aborts >= alert_after
}

/// The mode a stored cursor records, if it records one.
pub fn last_pass_mode(cursor: Option<&str>) -> (r: Option<String>)
    ensures
        match cursor {
            None => r is None,
            Some(c) => {
                let m = split_char(c@, '|')[0];
                if m.len() == 0 { r is None } else { r matches Some(s) && s@ == m }
            },
        },
{
    match cursor {
        None => None,
        Some(c) => {
            let ps = split_char_exec(&to_chars(c), '|');
            proof {
                lemma_split_nonempty(c@, '|');
            }
            if ps[0].len() == 0 {
                None
            } else {
                Some(to_string(&ps[0]))
            }
        },
    }
}

proof fn lemma_split_nonempty(s: Seq<char>, c: char)
    ensures
        split_char(s, c).len() >= 1,
    decreases s.len(),
{
    let p = char_pos(s, c, 0);
    if p < s.len() {
        crate::text::lemma_char_pos(s, c, 0);
        lemma_split_nonempty(s.skip(p + 1), c);
    }
}

} // verus!
