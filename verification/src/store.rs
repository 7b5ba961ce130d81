//! The rows the comms store keeps, and the identities it keys them by.
//!
//! The database itself (the Postgres pool, the SQL) stays outside this
//! library; what is here is every value a row holds and the pure rules that
//! decide a row's identity.

use vstd::prelude::*;
use crate::hashing::{be_bytes, be_bytes_exec, hex, sha256, sha256_hex_bytes, utf8};
use crate::provenance::StageProvenance;
use crate::text::{
    append, char_pos, char_pos_exec, ends_with, find, find_exec, lemma_char_pos,
    lemma_find_from_bounds, lower_exec, lowercase, slice, ascii_text, ascii_lower, ascii_lower_char,
    is_ws, trim_start, trim_end, find_from, matches_at, to_chars, to_string, trim, trim_exec,
};

verus! {

/// A classification of what an item is worth protecting: `public`,
/// `personal` or `vault`, with who decided it and why.
pub struct DataClass {
    pub value: String,
    pub rationale: String,
    pub method: String,
    pub version: String,
}

pub open spec fn undeclared_value() -> Seq<char> {
    "personal"@
}

pub open spec fn undeclared_rationale() -> Seq<char> {
    "No collector declared a class; an undeclared item is Personal."@
}

pub open spec fn undeclared_method() -> Seq<char> {
    "legacy"@
}

pub open spec fn undeclared_version() -> Seq<char> {
    "data-class-legacy-v1"@
}

impl DataClass {
    /// The fail-closed default: Personal, decided by `legacy`.
    pub fn undeclared() -> (r: DataClass)
        ensures
            r.value@ == undeclared_value(),
            r.rationale@ == undeclared_rationale(),
            r.method@ == undeclared_method(),
            r.version@ == undeclared_version(),
    {
        DataClass {
            value: to_string(&to_chars("personal")),
            rationale: to_string(
                &to_chars("No collector declared a class; an undeclared item is Personal."),
            ),
            method: to_string(&to_chars("legacy")),
            version: to_string(&to_chars("data-class-legacy-v1")),
        }
    }
}

/// The rationale a human reclassification is stored with: the operator's
/// own words, trimmed, when there are any; else a sentence that says the
/// change was manual. Whether the change is admitted at all is decided by
/// the class ladder before this is asked.
pub open spec fn human_rationale_text(rationale: Option<Seq<char>>) -> Seq<char> {
    let written = match rationale {
        Some(r) => trim(r),
        None => Seq::<char>::empty(),
    };
    if written.len() == 0 {
        "Data class set manually in Axon."@
    } else {
        written
    }
}

pub fn human_rationale(rationale: Option<&str>) -> (r: String)
    ensures
        r@ == human_rationale_text(
            match rationale {
                Some(t) => Some(t@),
                None => None,
            },
        ),
{
    let written = match rationale {
        Some(t) => trim_exec(&to_chars(t)),
        None => Vec::new(),
    };
    if written.len() == 0 {
        to_string(&to_chars("Data class set manually in Axon."))
    } else {
        to_string(&written)
    }
}

/// A media/news feed item.
pub struct FeedItem {
    pub id: String,
    pub stream: String,
    pub kind: String,
    pub title: Option<String>,
    pub url: String,
    pub author: Option<String>,
    pub summary: Option<String>,
    pub transcript: Option<String>,
    pub day: String,
    pub created_at: String,
    pub status: String,
    /// `full`, `thin`, `none` or `unknown`.
    pub content_status: String,
    /// `full-text`, `abstract` or `unknown`.
    pub transcript_source: String,
    pub summary_attempts: i32,
    pub summary_last_error: Option<String>,
    pub summary_next_attempt: Option<String>,
    pub captured_via: Option<String>,
    pub raw_content: Option<String>,
    pub summary_provenance: Option<StageProvenance>,
    pub data_class: String,
    pub data_class_rationale: String,
    pub data_classification_method: String,
    pub data_classification_version: String,
}

// ---------------------------------------------------------------------------
// Identity
// ---------------------------------------------------------------------------

pub open spec fn scheme_sep() -> Seq<char> {
    seq![':', '/', '/']
}

/// The text without its `#fragment`.
pub open spec fn drop_fragment(s: Seq<char>) -> Seq<char> {
    s.take(char_pos(s, '#', 0))
}

/// Scheme and host lowered by `low`; path and query left as they are.
pub open spec fn lower_host_by(s: Seq<char>, low: spec_fn(Seq<char>) -> Seq<char>) -> Seq<char> {
    match find(s, scheme_sep()) {
        None => s,
        Some(e) => {
            let host_end = char_pos(s, '/', e + 3);
            low(s.take(host_end)) + s.skip(host_end)
        },
    }
}

/// Scheme and host lowered; path and query left as they are.
pub open spec fn lower_host(s: Seq<char>) -> Seq<char> {
    lower_host_by(s, |x: Seq<char>| lowercase(x))
}

/// Canonical identity of a URL with scheme and host lowered by `low`:
/// trimmed, fragment dropped, one trailing slash dropped.
pub open spec fn canonical_by(url: Seq<char>, low: spec_fn(Seq<char>) -> Seq<char>) -> Seq<char> {
    let s = lower_host_by(drop_fragment(trim(url)), low);
    if ends_with(s, seq!['/']) {
        s.drop_last()
    } else {
        s
    }
}

/// Canonical identity of a URL: trimmed, fragment dropped, scheme and host
/// lowered, one trailing slash dropped.
pub open spec fn canonical(url: Seq<char>) -> Seq<char> {
    canonical_by(url, |x: Seq<char>| lowercase(x))
}

/// The canonical identity of an ASCII URL, whose lowering is ASCII lowering.
pub open spec fn canonical_ascii(url: Seq<char>) -> Seq<char> {
    canonical_by(url, ascii_lowering())
}

/// ASCII lowering, as a function value.
pub open spec fn ascii_lowering() -> spec_fn(Seq<char>) -> Seq<char> {
    |x: Seq<char>| ascii_lower(x)
}

/// The feed row id of a URL: SHA-256 of the canonical URL's UTF-8, in hex.
pub open spec fn feed_id_of(url: Seq<char>) -> Seq<char> {
    hex(sha256(vstd::utf8::encode_utf8(canonical(url))))
}

/// Canonicalize a URL for stable identity.
pub fn canonical_url(url: &str) -> (r: String)
    ensures
        r@ == canonical(url@),
        ascii_text(url@) ==> r@ == canonical_ascii(url@),
{
    let s = trim_exec(&to_chars(url));
    proof {
        lemma_trim_keeps_ascii(url@);
    }
    let hash = char_pos_exec(&s, '#', 0);
    let s = slice(&s, 0, hash);
    assert(ascii_text(trim(url@)) ==> ascii_text(s@));
    let mut sep_v: Vec<char> = Vec::new();
    sep_v.push(':');
    sep_v.push('/');
    sep_v.push('/');
    assert(sep_v@ == scheme_sep());
    let s = match find_exec(&s, &sep_v) {
        None => s,
        Some(e) => {
            proof {
                lemma_find_from_bounds(s@, sep_v@, 0);
            }
            let host_end = char_pos_exec(&s, '/', e + 3);
            let host = slice(&s, 0, host_end);
            assert(ascii_text(s@) ==> ascii_text(host@));
            let mut lowered = lower_exec(&host);
            append(&mut lowered, &slice(&s, host_end, s.len()));
            lowered
        },
    };
    let ghost pre = s@;
    assert(pre == lower_host(drop_fragment(trim(url@))));
    assert(ascii_text(url@) ==> pre == lower_host_by(drop_fragment(trim(url@)), ascii_lowering()));
    let mut s = s;
    if s.len() > 0 && s[s.len() - 1] == '/' {
        assert(pre.skip(pre.len() - 1) =~= seq!['/']);
        s.pop();
        assert(s@ == pre.drop_last());
    } else {
        proof {
            if pre.len() >= 1 {
                assert(pre.skip(pre.len() - 1)[0] == pre.last());
            }
        }
    }
    to_string(&s)
}

/// feed_items primary key: sha256 hex of the canonical URL.
pub fn feed_id(url: &str) -> (r: String)
    ensures
        r@ == feed_id_of(url@),
        r@.len() == 64,
{
    let c = canonical_url(url);
    let bytes = utf8(&c);
    to_string(&sha256_hex_bytes(&bytes))
}

impl FeedItem {
    /// Build a fresh item for ingest: DB-owned fields blank, status `new`,
    /// and the class undeclared.
    pub fn new(url: &str, stream: &str, kind: &str) -> (r: Self)
        ensures
            r.id@ == feed_id_of(url@),
            r.url@ == url@,
            r.stream@ == stream@,
            r.kind@ == kind@,
            r.title is None,
            r.author is None,
            r.summary is None,
            r.transcript is None,
            r.day@ == Seq::<char>::empty(),
            r.created_at@ == Seq::<char>::empty(),
            r.status@ == "new"@,
            r.content_status@ == "unknown"@,
            r.transcript_source@ == "unknown"@,
            r.summary_attempts == 0,
            r.summary_last_error is None,
            r.summary_next_attempt is None,
            r.captured_via is None,
            r.raw_content is None,
            r.summary_provenance is None,
            r.data_class@ == undeclared_value(),
            r.data_class_rationale@ == undeclared_rationale(),
            r.data_classification_method@ == undeclared_method(),
            r.data_classification_version@ == undeclared_version(),
    {
        let undeclared = DataClass::undeclared();
        FeedItem {
            id: feed_id(url),
            stream: to_string(&to_chars(stream)),
            kind: to_string(&to_chars(kind)),
            title: None,
            url: to_string(&to_chars(url)),
            author: None,
            summary: None,
            transcript: None,
            day: String::new(),
            created_at: String::new(),
            status: to_string(&to_chars("new")),
            content_status: to_string(&to_chars("unknown")),
            transcript_source: to_string(&to_chars("unknown")),
            summary_attempts: 0,
            summary_last_error: None,
            summary_next_attempt: None,
            captured_via: None,
            raw_content: None,
            summary_provenance: None,
            data_class: undeclared.value,
            data_class_rationale: undeclared.rationale,
            data_classification_method: undeclared.method,
            data_classification_version: undeclared.version,
        }
    }

    /// Stamp a collector's declaration onto an item it discovered; nothing
    /// else about the item changes.
    pub fn declare_class(&mut self, classification: &DataClass)
        ensures
            final(self).data_class@ == classification.value@,
            final(self).data_class_rationale@ == classification.rationale@,
            final(self).data_classification_method@ == classification.method@,
            final(self).data_classification_version@ == classification.version@,
            final(self).id == old(self).id,
            final(self).stream == old(self).stream,
            final(self).kind == old(self).kind,
            final(self).title == old(self).title,
            final(self).url == old(self).url,
            final(self).author == old(self).author,
            final(self).summary == old(self).summary,
            final(self).transcript == old(self).transcript,
            final(self).day == old(self).day,
            final(self).created_at == old(self).created_at,
            final(self).status == old(self).status,
            final(self).content_status == old(self).content_status,
            final(self).transcript_source == old(self).transcript_source,
            final(self).summary_attempts == old(self).summary_attempts,
            final(self).summary_last_error == old(self).summary_last_error,
            final(self).summary_next_attempt == old(self).summary_next_attempt,
            final(self).captured_via == old(self).captured_via,
            final(self).raw_content == old(self).raw_content,
            final(self).summary_provenance == old(self).summary_provenance,
    {
        self.data_class = classification.value.clone();
        self.data_class_rationale = classification.rationale.clone();
        self.data_classification_method = classification.method.clone();
        self.data_classification_version = classification.version.clone();
    }
}

proof fn lemma_trim_start_keeps_ascii(s: Seq<char>)
    requires
        ascii_text(s),
    ensures
        ascii_text(trim_start(s)),
    decreases s.len(),
{
    if s.len() > 0 && is_ws(s[0]) {
        assert(ascii_text(s.drop_first()));
        lemma_trim_start_keeps_ascii(s.drop_first());
    }
}

proof fn lemma_trim_end_keeps_ascii(s: Seq<char>)
    requires
        ascii_text(s),
    ensures
        ascii_text(trim_end(s)),
    decreases s.len(),
{
    if s.len() > 0 && is_ws(s.last()) {
        assert(ascii_text(s.drop_last()));
        lemma_trim_end_keeps_ascii(s.drop_last());
    }
}

proof fn lemma_trim_keeps_ascii(s: Seq<char>)
    ensures
        ascii_text(s) ==> ascii_text(trim(s)),
{
    if ascii_text(s) {
        lemma_trim_start_keeps_ascii(s);
        lemma_trim_end_keeps_ascii(trim_start(s));
    }
}

/// Appending a `/` to a text that does not end in one finds `://` where the
/// text alone does.
proof fn lemma_find_sep_ignores_slash(u: Seq<char>, i: int)
    requires
        0 <= i,
        u.len() == 0 || u.last() != '/',
    ensures
        find_from(u.push('/'), scheme_sep(), i) == find_from(u, scheme_sep(), i),
    decreases u.len() + 1 - i,
{
    let v = u.push('/');
    if i + 3 > v.len() {
    } else if i + 3 == v.len() {
        assert(v[i + 1] == u.last());
        assert(!matches_at(v, scheme_sep(), i)) by {
            if matches_at(v, scheme_sep(), i) {
                assert(v.subrange(i, i + 3)[1] == '/');
            }
        }
        lemma_find_sep_ignores_slash(u, i + 1);
    } else {
        assert(v.subrange(i, i + 3) =~= u.subrange(i, i + 3));
        lemma_find_sep_ignores_slash(u, i + 1);
    }
}

/// Appending a `/` leaves the first `/` at or after `i` where it was, or
/// puts it at the old end.
proof fn lemma_char_pos_slash(u: Seq<char>, i: int)
    requires
        0 <= i <= u.len(),
    ensures
        char_pos(u.push('/'), '/', i) == char_pos(u, '/', i),
    decreases u.len() - i,
{
    if i < u.len() && u[i] != '/' {
        lemma_char_pos_slash(u, i + 1);
    }
}

/// A character other than `c` appended after a text without `c` leaves the
/// text whole.
proof fn lemma_char_pos_absent(s: Seq<char>, c: char, i: int)
    requires
        0 <= i <= s.len(),
        forall|k: int| i <= k < s.len() ==> s[k] != c,
    ensures
        char_pos(s, c, i) == s.len(),
    decreases s.len() - i,
{
    if i < s.len() {
        lemma_char_pos_absent(s, c, i + 1);
    }
}

/// One trailing slash does not change the identity of an ASCII URL that has
/// no surrounding space, no fragment and no trailing slash of its own.
pub proof fn canonical_ignores_one_trailing_slash(u: Seq<char>)
    requires
        ascii_text(u),
        u.len() == 0 || (!is_ws(u[0]) && !is_ws(u.last()) && u.last() != '/'),
        forall|k: int| 0 <= k < u.len() ==> u[k] != '#',
    ensures
        canonical_ascii(u.push('/')) == canonical_ascii(u),
{
    let v = u.push('/');
    let low = ascii_lowering();
    // Trimming changes neither.
    if u.len() == 0 {
        assert(trim_start(v) == v);
        assert(trim_start(u) == u);
    } else {
        assert(trim_start(v) == v);
        assert(trim_start(u) == u);
    }
    assert(trim_end(v) == v);
    assert(trim_end(u) == u);
    assert(trim(v) == v);
    assert(trim(u) == u);
    // Neither has a fragment.
    lemma_char_pos_absent(u, '#', 0);
    lemma_char_pos_absent(v, '#', 0);
    assert(drop_fragment(u) =~= u);
    assert(drop_fragment(v) =~= v);
    lemma_find_sep_ignores_slash(u, 0);
    lemma_find_from_bounds(u, scheme_sep(), 0);
    match find(u, scheme_sep()) {
        None => {
            assert(lower_host_by(v, low) == v);
            assert(lower_host_by(u, low) == u);
            assert(v.drop_last() =~= u);
            assert(v.skip(v.len() - 1) =~= seq!['/']);
            assert(ends_with(v, seq!['/']));
            assert(!ends_with(u, seq!['/'])) by {
                if u.len() > 0 {
                    assert(u.skip(u.len() - 1) =~= seq![u.last()]);
                    assert(seq![u.last()][0] != seq!['/'][0]);
                }
            }
            assert(canonical_ascii(v) == canonical_ascii(u));
        },
        Some(e) => {
            lemma_char_pos_slash(u, e + 3);
            lemma_char_pos(u, '/', e + 3);
            let h = char_pos(u, '/', e + 3);
            assert(v.take(h) =~= u.take(h));
            assert(v.skip(h) =~= u.skip(h).push('/'));
            let lu = lower_host_by(u, low);
            assert(lu == ascii_lower(u.take(h)) + u.skip(h));
            assert(lower_host_by(v, low) =~= lu.push('/'));
            assert(lu.push('/').drop_last() =~= lu);
            assert(lu.push('/').skip(lu.len() as int) =~= seq!['/']);
            // The lowered text keeps the last character, which is no slash.
            assert(lu.len() == u.len());
            assert(lu.last() != '/') by {
                if h < u.len() {
                    assert(lu.last() == u.last());
                } else {
                    assert(u.take(h) =~= u);
                    assert(lu.last() == ascii_lower_char(u.last()));
                }
            }
            assert(!ends_with(lu, seq!['/'])) by {
                if ends_with(lu, seq!['/']) {
                    assert(lu.skip(lu.len() - 1)[0] == lu.last());
                }
            }
            assert(ends_with(lu.push('/'), seq!['/']));
            assert(canonical_ascii(v) == canonical_ascii(u));
        },
    }
}

proof fn lemma_trim_end_after(a: Seq<char>, b: Seq<char>)
    requires
        a.len() > 0,
        !is_ws(a.last()),
    ensures
        trim_end(a + b) == a + trim_end(b),
    decreases b.len(),
{
    if b.len() == 0 {
        assert(a + b =~= a);
        assert(a + trim_end(b) =~= a);
    } else {
        assert((a + b).last() == b.last());
        assert((a + b).drop_last() =~= a + b.drop_last());
        lemma_trim_end_after(a, b.drop_last());
    }
}

/// A fragment does not change the identity of a URL that has no surrounding
/// space and no fragment of its own.
pub proof fn canonical_ignores_fragment(u: Seq<char>, f: Seq<char>)
    requires
        u.len() == 0 || (!is_ws(u[0]) && !is_ws(u.last())),
        forall|k: int| 0 <= k < u.len() ==> u[k] != '#',
    ensures
        canonical(u + seq!['#'] + f) == canonical(u),
{
    let w = u + seq!['#'] + f;
    let a = u.push('#');
    assert(w =~= a + f);
    lemma_trim_end_after(a, f);
    assert(trim_start(w) == w);
    assert(trim_start(u) == u);
    assert(trim_end(u) == u);
    let t = a + trim_end(f);
    assert(trim(w) == t);
    lemma_char_pos_absent(u, '#', 0);
    lemma_char_pos(t, '#', 0);
    assert(t[u.len() as int] == '#');
    assert forall|k: int| 0 <= k < u.len() implies t[k] != '#' by {
        assert(t[k] == u[k]);
    }
    assert(char_pos(t, '#', 0) == u.len()) by {
        lemma_char_pos_prefix(t, u.len() as int, 0);
    }
    assert(drop_fragment(t) =~= u);
    assert(drop_fragment(u) =~= u);
}

/// The first `c` at or after `i` is at `j` when `s[j]` is `c` and nothing
/// between is.
proof fn lemma_char_pos_prefix(s: Seq<char>, j: int, i: int)
    requires
        0 <= i <= j < s.len(),
        s[j] == '#',
        forall|k: int| i <= k < j ==> s[k] != '#',
    ensures
        char_pos(s, '#', i) == j,
    decreases j - i,
{
    if i < j {
        lemma_char_pos_prefix(s, j, i + 1);
    }
}

/// The identity of a URL ignores a fragment and one trailing slash: for an
/// ASCII URL with no surrounding space, no fragment and no trailing slash of
/// its own, `u#f` has the identity of `u` (for any `f`), and so does `u/`.
/// `canonical_url` returns `canonical` of its argument, and `canonical_ascii`
/// of an ASCII one.
pub proof fn fragment_and_trailing_slash_keep_the_identity(u: Seq<char>, f: Seq<char>)
    requires
        ascii_text(u),
        u.len() == 0 || (!is_ws(u[0]) && !is_ws(u.last()) && u.last() != '/'),
        forall|k: int| 0 <= k < u.len() ==> u[k] != '#',
    ensures
        canonical(u + seq!['#'] + f) == canonical(u),
        canonical_ascii(u.push('/')) == canonical_ascii(u),
        feed_id_of(u + seq!['#'] + f) == feed_id_of(u),
{
    canonical_ignores_fragment(u, f);
    canonical_ignores_one_trailing_slash(u);
}

proof fn lemma_find_from_first(h: Seq<char>, n: Seq<char>, k: int, e: int)
    requires
        0 <= k <= e,
        matches_at(h, n, e),
        forall|j: int| k <= j < e ==> !matches_at(h, n, j),
    ensures
        find_from(h, n, k) == Some(e),
    decreases e - k,
{
    if k < e {
        assert(!matches_at(h, n, k));
        lemma_find_from_first(h, n, k + 1, e);
    }
}

proof fn lemma_char_pos_first(s: Seq<char>, c: char, j: int, i: int)
    requires
        0 <= i <= j < s.len(),
        s[j] == c,
        forall|k: int| i <= k < j ==> s[k] != c,
    ensures
        char_pos(s, c, i) == j,
    decreases j - i,
{
    if i < j {
        lemma_char_pos_first(s, c, j, i + 1);
    }
}

/// Only the scheme and the host are lowered: a URL `p + q` whose scheme and
/// host `p` run up to the first `/` after its first `://`, and whose path
/// and query `q` start there, has the identity `lowercase(p) + q`, with the
/// path and query kept exactly, case included (for a URL with no surrounding
/// space, no fragment and no trailing slash).
pub proof fn only_scheme_and_host_are_lowered(p: Seq<char>, q: Seq<char>)
    requires
        find(p, scheme_sep()) is Some,
        forall|k: int| find(p, scheme_sep())->0 + 3 <= k < p.len() ==> p[k] != '/',
        q.len() > 0,
        q[0] == '/',
        q.last() != '/',
        !is_ws(q.last()),
        !is_ws(p[0]),
        forall|k: int| 0 <= k < (p + q).len() ==> (p + q)[k] != '#',
    ensures
        canonical(p + q) == lowercase(p) + q,
{
    let s = p + q;
    let e = find(p, scheme_sep())->0;
    lemma_find_from_bounds(p, scheme_sep(), 0);
    assert(p.len() > 0);
    // Trimming leaves the URL as it is.
    assert(s[0] == p[0]);
    assert(s.last() == q.last());
    assert(trim_start(s) == s);
    assert(trim_end(s) == s);
    assert(trim(s) == s);
    // No fragment.
    lemma_char_pos_absent(s, '#', 0);
    assert(drop_fragment(s) =~= s);
    // The first `://` of the URL is that of `p`.
    assert(s.subrange(e, e + 3) =~= p.subrange(e, e + 3));
    assert forall|j: int| 0 <= j < e implies !matches_at(s, scheme_sep(), j) by {
        assert(s.subrange(j, j + 3) =~= p.subrange(j, j + 3));
        assert(!matches_at(p, scheme_sep(), j));
    }
    lemma_find_from_first(s, scheme_sep(), 0, e);
    // The host ends where `q` begins.
    assert(s[p.len() as int] == '/');
    assert forall|k: int| e + 3 <= k < p.len() implies s[k] != '/' by {
        assert(s[k] == p[k]);
    }
    lemma_char_pos_first(s, '/', p.len() as int, e + 3);
    assert(s.take(p.len() as int) =~= p);
    assert(s.skip(p.len() as int) =~= q);
    let l = lower_host(s);
    assert(l == lowercase(p) + q);
    assert(!ends_with(l, seq!['/'])) by {
        if ends_with(l, seq!['/']) {
            assert(l.skip(l.len() - 1)[0] == l.last());
            assert(l.last() == q.last());
        }
    }
}

/// Two URLs that differ only in surrounding space, fragment, scheme/host case
/// or one trailing slash name the same feed row.
pub proof fn same_canonical_same_id(a: Seq<char>, b: Seq<char>)
    requires
        canonical(a) == canonical(b),
    ensures
        feed_id_of(a) == feed_id_of(b),
{
}


// ---------------------------------------------------------------------------
// Row records
// ---------------------------------------------------------------------------

/// Enrichment backlog counts for the evaluation status endpoint.
pub struct EnrichmentCounts {
    pub pending_summaries: i64,
    pub failed_summaries: i64,
}

/// Content status distribution across all feed items.
pub struct ContentStatusCounts {
    pub full: i64,
    pub thin: i64,
    pub none: i64,
    pub unknown: i64,
}

/// One persisted signal in the Feed review queue, with the item facts a
/// person deciding on it needs.
pub struct QualityReviewRow {
    pub feed_id: String,
    pub title: Option<String>,
    pub url: String,
    pub status: String,
    pub content_status: String,
    pub signal: String,
    pub reason: String,
    pub evidence: String,
    pub derived_at: String,
}

/// A triage proposal for one inbox thread.
pub struct TriageItem {
    pub id: String,
    pub from_addr: Option<String>,
    pub subject: Option<String>,
    pub snippet: Option<String>,
    pub internal_date_ms: Option<i64>,
    pub internal_date_text: Option<String>,
    pub stream: String,
    pub rationale: String,
    pub classification_method: String,
    pub classification_version: String,
    pub data_class: String,
    pub data_class_rationale: String,
    pub data_classification_method: String,
    pub data_classification_version: String,
    pub status: String,
    pub gmail_action: Option<String>,
    pub gmail_action_at: Option<String>,
    pub purge_after: Option<String>,
    pub gmail_location: Option<String>,
    pub gmail_observed_at: Option<String>,
    pub gmail_sync_status: Option<String>,
    pub gmail_sync_action: Option<String>,
    pub gmail_sync_error: Option<String>,
    pub waiting: bool,
    pub waiting_since: Option<String>,
    pub first_seen: String,
    pub last_seen: String,
}

/// One durable Gmail lifecycle intent.
pub struct GmailActionJob {
    pub job_id: i64,
    pub triage_id: String,
    pub action: String,
    pub source_status: String,
    pub attempts: i32,
}

pub struct GmailReconcileCandidate {
    pub triage_id: String,
    pub status: String,
}

/// A reviewed, bounded derivative staged locally before queueing.
pub struct CloudDerivativeApproval {
    pub source: String,
    pub item_id: String,
    pub source_revision: String,
    pub preview_hash: String,
    pub original_data_class: String,
    pub derivative_data_class: String,
    pub transformation: String,
    pub document: String,
    pub redaction_count: i32,
}

pub struct CloudQueueRequest {
    pub source: String,
    pub item_id: String,
    pub source_revision: String,
    pub preview_hash: String,
    pub provider_role: String,
}

pub struct CloudDispatchJob {
    pub job_id: String,
    pub source: String,
    pub item_id: String,
    pub source_revision: String,
    pub preview_hash: String,
    pub provider_role: String,
    pub task: String,
    pub original_data_class: String,
    pub derivative_data_class: String,
    pub transformation: String,
    pub document: String,
    pub provider_calls: i32,
}

#[derive(Debug, Clone, Copy, PartialEq, Eq, Structural)]
pub enum CloudAttemptClaim {
    Started(i64),
    DailyLimitReached,
    JobUnavailable,
}

/// One row of `content_digests`, as stored.
pub struct StoredDigest {
    pub source: String,
    pub item_id: String,
    pub text: Option<String>,
    pub state: String,
    pub shape: String,
    pub depth: String,
    pub focus: String,
    pub producer: String,
    pub source_chars: i64,
    pub redactions: i32,
    pub attempts: i32,
    pub last_error: Option<String>,
    pub diagram: Option<String>,
    pub diagram_state: Option<String>,
    pub diagram_error: Option<String>,
    pub chart: Option<String>,
    pub chart_state: Option<String>,
    pub chart_error: Option<String>,
    pub generated_at: String,
}

/// Per-source run bookkeeping.
pub struct SourceState {
    pub source_name: String,
    pub last_run_at: String,
    pub cursor: Option<String>,
    pub last_success_at: Option<String>,
    pub last_failure_at: Option<String>,
    /// Error class, never a message body or a mail field.
    pub last_error: Option<String>,
    pub considered_count: i64,
    pub new_count: i64,
    pub consecutive_failures: i32,
}

pub struct EvaluationSummary {
    pub evaluated: i64,
    pub reranked: i64,
    pub semantic: i64,
    pub lexical: i64,
    pub unscored: i64,
}

pub struct TravelContextSnapshot {
    pub revision: String,
    pub payload: String,
    pub refreshed_at: String,
}

pub struct FeedOrigin {
    pub source_id: String,
    pub source_ref: String,
    pub label: Option<String>,
}

/// One item's place in a collector run, derived at read time.
pub struct FeedRun {
    pub feed_id: String,
    pub source_id: String,
    pub label: Option<String>,
    pub run_key: String,
    pub run_started: Option<String>,
}

pub struct OriginSummary {
    pub source_id: String,
    pub item_count: i64,
    pub first_seen: Option<String>,
    pub last_seen: Option<String>,
}

// ---------------------------------------------------------------------------
// Digest retry states and cloud job identity
// ---------------------------------------------------------------------------

/// The digest states a later run could plausibly do better on.
pub const RETRYABLE_DIGEST_STATES: [&'static str; 5] = [
    "http_error",
    "model_error",
    "capacity_aborted",
    "empty_response",
    "timeout",
];

pub open spec fn retryable_state(k: int) -> Seq<char> {
    if k == 0 {
        "http_error"@
    } else if k == 1 {
        "model_error"@
    } else if k == 2 {
        "capacity_aborted"@
    } else if k == 3 {
        "empty_response"@
    } else {
        "timeout"@
    }
}

pub open spec fn quoted(s: Seq<char>) -> Seq<char> {
    "'"@ + s + "'"@
}

/// The retryable states as a SQL literal list: each quoted, comma-joined.
pub open spec fn retryable_states_sql() -> Seq<char> {
    crate::text::join(Seq::new(5, |k: int| quoted(retryable_state(k))), ","@)
}

pub fn retryable_digest_states_sql() -> (r: String)
    ensures
        r@ == retryable_states_sql(),
{
    let mut parts: Vec<Vec<char>> = Vec::new();
    let mut k: usize = 0;
    while k < 5
        invariant
            k <= 5,
            parts@.map_values(|v: Vec<char>| v@) == Seq::new(5, |k: int| quoted(retryable_state(k))).take(
                k as int,
            ),
        decreases 5 - k,
    {
        let state = RETRYABLE_DIGEST_STATES[k];
        assert(state@ == retryable_state(k as int));
        let mut q = to_chars("'");
        append(&mut q, &to_chars(state));
        append(&mut q, &to_chars("'"));
        let ghost prev = parts@;
        parts.push(q);
        proof {
            let all = Seq::new(5, |k: int| quoted(retryable_state(k)));
            assert(all.take(k + 1) == all.take(k as int).push(all[k as int]));
            assert(parts@.map_values(|v: Vec<char>| v@) =~= prev.map_values(|v: Vec<char>| v@).push(
                q@,
            ));
        }
        k += 1;
    }
    proof {
        let all = Seq::new(5, |k: int| quoted(retryable_state(k)));
        assert(all.take(5) =~= all);
    }
    to_string(&crate::text::join_exec(&parts, &to_chars(",")))
}

/// The bytes a cloud job id hashes: for each part, its UTF-8 length as eight
/// big-endian bytes, then the UTF-8 itself.
pub open spec fn framed(parts: Seq<Seq<char>>) -> Seq<u8>
    decreases parts.len(),
{
    if parts.len() == 0 {
        seq![]
    } else {
        let p = vstd::utf8::encode_utf8(parts.last());
        framed(parts.drop_last()) + be_bytes(p.len() as u64) + p
    }
}

pub open spec fn job_parts(r: &CloudQueueRequest) -> Seq<Seq<char>> {
    seq![r.source@, r.item_id@, r.source_revision@, r.preview_hash@, r.provider_role@]
}

/// The id of a queued cloud job: a digest over exactly what was approved.
pub open spec fn cloud_job_id_of(r: &CloudQueueRequest) -> Seq<char> {
    "cloud-job-"@ + hex(sha256(framed(job_parts(r))))
}

fn frame_into(buf: &mut Vec<u8>, part: &String, Ghost(prefix): Ghost<Seq<Seq<char>>>)
    requires
        old(buf)@ == framed(prefix),
    ensures
        final(buf)@ == framed(prefix.push(part@)),
{
    let bytes = utf8(part);
    let len = be_bytes_exec(bytes.len() as u64);
    let mut i: usize = 0;
    while i < len.len()
        invariant
            i <= len@.len(),
            buf@ == framed(prefix) + len@.take(i as int),
        decreases len@.len() - i,
    {
        buf.push(len[i]);
        assert(len@.take(i + 1) == len@.take(i as int).push(len@[i as int]));
        i += 1;
    }
    assert(len@.take(len@.len() as int) == len@);
    let mut j: usize = 0;
    while j < bytes.len()
        invariant
            j <= bytes@.len(),
            buf@ == framed(prefix) + len@ + bytes@.take(j as int),
        decreases bytes@.len() - j,
    {
        buf.push(bytes[j]);
        assert(bytes@.take(j + 1) == bytes@.take(j as int).push(bytes@[j as int]));
        j += 1;
    }
    assert(bytes@.take(bytes@.len() as int) == bytes@);
    assert(prefix.push(part@).drop_last() == prefix);
}

pub fn cloud_job_id(request: &CloudQueueRequest) -> (r: String)
    ensures
        r@ == cloud_job_id_of(request),
{
    let mut buf: Vec<u8> = Vec::new();
    let ghost p0: Seq<Seq<char>> = Seq::empty();
    let ghost p1 = p0.push(request.source@);
    let ghost p2 = p1.push(request.item_id@);
    let ghost p3 = p2.push(request.source_revision@);
    let ghost p4 = p3.push(request.preview_hash@);
    frame_into(&mut buf, &request.source, Ghost(p0));
    frame_into(&mut buf, &request.item_id, Ghost(p1));
    frame_into(&mut buf, &request.source_revision, Ghost(p2));
    frame_into(&mut buf, &request.preview_hash, Ghost(p3));
    frame_into(&mut buf, &request.provider_role, Ghost(p4));
    assert(p4.push(request.provider_role@) =~= job_parts(request));
    let mut id = to_chars("cloud-job-");
    append(&mut id, &sha256_hex_bytes(&buf));
    to_string(&id)
}


/// A JSON value, carried through as the provider returned it.
#[verifier::external_type_specification]
#[verifier::external_body]
pub struct ExJsonValue(serde_json::Value);

/// Where an item stands on the reviewed cloud lane.
pub struct CloudDerivativeState {
    pub status: String,
    pub preview_hash: Option<String>,
    pub approved_at: Option<String>,
    pub dispatch_status: String,
    pub job_id: Option<String>,
    pub provider_role: Option<String>,
    pub queued_at: Option<String>,
    pub provider_calls: u8,
    pub task: Option<String>,
    pub started_at: Option<String>,
    pub completed_at: Option<String>,
    pub last_error: Option<String>,
    pub result: Option<serde_json::Value>,
}

impl CloudDerivativeState {
    /// An item nothing has been prepared for: no preview, nothing queued,
    /// no provider called.
    pub fn not_prepared() -> (r: Self)
        ensures
            r.status@ == "not_prepared"@,
            r.dispatch_status@ == "not_queued"@,
            r.provider_calls == 0,
            r.preview_hash is None,
            r.approved_at is None,
            r.job_id is None,
            r.provider_role is None,
            r.queued_at is None,
            r.task is None,
            r.started_at is None,
            r.completed_at is None,
            r.last_error is None,
            r.result is None,
    {
        CloudDerivativeState {
            status: to_string(&to_chars("not_prepared")),
            preview_hash: None,
            approved_at: None,
            dispatch_status: to_string(&to_chars("not_queued")),
            job_id: None,
            provider_role: None,
            queued_at: None,
            provider_calls: 0,
            task: None,
            started_at: None,
            completed_at: None,
            last_error: None,
            result: None,
        }
    }
}

} // verus!
